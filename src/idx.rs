use vstd::prelude::*;

verus! {

/// The side of one handwritten digit, in pixels.
pub const DIGIT_SIDE: usize = 28;

/// Digits per row of a collage.
pub const COLLAGE_COLS: usize = 300;

/// Rows of digits in a collage.
pub const COLLAGE_ROWS: usize = 200;

/// The number of pixels of a collage, and of the digit images it is made from.
pub const COLLAGE_LEN: usize = 47040000;

/// The big-endian unsigned integer held by four bytes.
pub open spec fn be_u32(b0: u8, b1: u8, b2: u8, b3: u8) -> int {
    b0 * 16777216 + b1 * 65536 + b2 * 256 + b3
}

/// Reads the big-endian `u32` that starts at byte `at` of `b`, as the headers
/// of the IDX files of handwritten digits hold them.
pub fn read_big_endian_u32(b: &[u8], at: usize) -> (r: u32)
    requires
        at + 4 <= b@.len(),
    ensures
        r == be_u32(b@[at as int], b@[at + 1], b@[at + 2], b@[at + 3]),
{
    let (b0, b1, b2, b3) = (b[at] as u32, b[at + 1] as u32, b[at + 2] as u32, b[at + 3] as u32);
    b0 * 16777216 + b1 * 65536 + b2 * 256 + b3
}

/// Where pixel `x` of the collage comes from in the digit images: the collage
/// holds `COLLAGE_ROWS` rows of `COLLAGE_COLS` digits, digit `n` of the images
/// at row `n / COLLAGE_COLS` and column `n % COLLAGE_COLS`, and each digit is
/// `DIGIT_SIDE` pixels square, stored row by row.
pub open spec fn collage_source(x: int) -> int {
    let l = x % 28;
    let k = (x / 28) % 300;
    let j = (x / 8400) % 28;
    let i = x / 235200;
    ((i * 300 + k) * 28 + j) * 28 + l
}

/// Lays the first `COLLAGE_ROWS * COLLAGE_COLS` digits of `images` out as one
/// grayscale picture, `COLLAGE_COLS` digits wide.
pub fn collage(images: &[u8]) -> (r: Vec<u8>)
    requires
        images@.len() >= COLLAGE_LEN,
    ensures
        r@.len() == COLLAGE_LEN,
        forall|x: int| 0 <= x < COLLAGE_LEN ==> #[trigger] r@[x] == images@[collage_source(x)],
{
    let mut r: Vec<u8> = Vec::new();
    let mut x: usize = 0;
    while x < COLLAGE_LEN
        invariant
            x <= COLLAGE_LEN,
            images@.len() >= COLLAGE_LEN,
            r@.len() == x,
            forall|y: int| 0 <= y < x ==> #[trigger] r@[y] == images@[collage_source(y)],
        decreases COLLAGE_LEN - x,
    {
        let l = x % DIGIT_SIDE;
        let k = (x / DIGIT_SIDE) % COLLAGE_COLS;
        let j = (x / (DIGIT_SIDE * COLLAGE_COLS)) % DIGIT_SIDE;
        let i = x / (DIGIT_SIDE * COLLAGE_COLS * DIGIT_SIDE);
        assert(i < 200) by (nonlinear_arith)
            requires
                x < 47040000,
                i == x / 235200,
        ;
        let from = ((i * COLLAGE_COLS + k) * DIGIT_SIDE + j) * DIGIT_SIDE + l;
        assert(from == collage_source(x as int));
        r.push(images[from]);
        x = x + 1;
    }
    r
}

} // verus!
