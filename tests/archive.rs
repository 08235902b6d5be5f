use layout_templates::archive::{compression_for, png_dimensions, Compression};

#[test]
fn png_dimensions_reads_big_endian_width_and_height() {
    let mut header = vec![0u8; 24];
    header[16..20].copy_from_slice(&[0, 0, 1, 0x2c]);
    header[20..24].copy_from_slice(&[0x01, 0x02, 0x03, 0x04]);
    assert_eq!(png_dimensions(&header), Some((300, 0x0102_0304)));
}

#[test]
fn png_dimensions_needs_24_bytes() {
    assert_eq!(png_dimensions(&[0u8; 23]), None);
}

#[test]
fn webm_is_stored_and_the_rest_deflated() {
    assert_eq!(compression_for(&"webm".to_string()), Compression::Stored);
    assert_eq!(compression_for(&"json".to_string()), Compression::Deflated);
    assert_eq!(compression_for(&String::new()), Compression::Deflated);
}
