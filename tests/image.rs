use pdc::tga::{tga_grayscale, Image};

#[test]
fn new_image_is_black() {
    let img = Image::new(3, 2);
    assert_eq!(img.width, 3);
    assert_eq!(img.height, 2);
    assert_eq!(img.pixels, vec![0u8; 6]);
    assert_eq!(Image::new(0, 5).pixels.len(), 0);
}

#[test]
fn write_file_gives_header_then_pixels() {
    let mut img = Image::new(300, 2);
    img.pixels[0] = 7;
    img.pixels[599] = 9;
    let bytes = img.write_file().unwrap();
    assert_eq!(bytes.len(), 18 + 600);
    assert_eq!(
        &bytes[..18],
        &[0, 0, 3, 0, 0, 0, 0, 0, 0, 0, 0, 0, 44, 1, 2, 0, 8, 0x20]
    );
    assert_eq!(bytes[18], 7);
    assert_eq!(bytes[617], 9);
}

#[test]
fn write_file_refuses_what_the_format_cannot_hold() {
    let img = Image { pixels: Vec::new(), width: 65536, height: 0 };
    assert_eq!(img.write_file(), None);
    let img = Image { pixels: vec![1, 2, 3], width: 2, height: 2 };
    assert_eq!(img.write_file(), None);
    let img = Image { pixels: Vec::new(), width: 65535, height: 0 };
    assert_eq!(img.write_file().unwrap().len(), 18);
}

#[test]
fn grayscale_file_bytes() {
    let bytes = tga_grayscale(&[5, 6], 1, 2);
    assert_eq!(bytes, vec![0, 0, 3, 0, 0, 0, 0, 0, 0, 0, 0, 0, 1, 0, 2, 0, 8, 32, 5, 6]);
}
