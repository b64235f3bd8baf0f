// A lexical scanner for a small C-like language, with its model and laws, and
// the byte layouts of grayscale TGA files and of MNIST collages.

pub mod idx;
pub mod laws;
pub mod model;
pub mod scanner;
pub mod tga;
pub mod token;
