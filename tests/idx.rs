use pdc::idx::{collage, read_big_endian_u32, COLLAGE_LEN};

#[test]
fn big_endian_words() {
    let b = [9u8, 0, 0, 8, 1, 0, 0, 0xEA, 0x60, 0xFF, 0xFF, 0xFF, 0xFF];
    assert_eq!(read_big_endian_u32(&b, 1), 0x0000_0801);
    assert_eq!(read_big_endian_u32(&b, 5), 60_000);
    assert_eq!(read_big_endian_u32(&b, 9), u32::MAX);
}

#[test]
fn collage_places_digits_in_rows() {
    let mut images = vec![0u8; COLLAGE_LEN];
    // digit 303 (row 1, column 3), pixel row 2, pixel column 4
    images[(303 * 28 + 2) * 28 + 4] = 77;
    images[5] = 11;
    // digit 1 lands right of digit 0 in the first row
    images[28 * 28 + 1] = 22;
    let c = collage(&images);
    assert_eq!(c.len(), 47_040_000);
    assert_eq!(c[((1 * 28 + 2) * 300 + 3) * 28 + 4], 77);
    assert_eq!(c[5], 11);
    assert_eq!(c[28 + 1], 22);
    assert_eq!(c.iter().filter(|&&v| v != 0).count(), 3);
}
