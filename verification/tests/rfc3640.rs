use kibbled::rfc3640::{au_header_section, MAX_AU_SIZE};

#[test]
fn builds_au_header_for_a_300_byte_access_unit() {
    assert_eq!(au_header_section(300), [0x00, 0x10, 0x09, 0x60]);
}

#[test]
fn builds_au_header_for_a_real_capture_sized_access_unit() {
    assert_eq!(au_header_section(266), [0x00, 0x10, 0x08, 0x50]);
}

#[test]
fn round_trips_size_through_the_13_bit_field() {
    let hdr = au_header_section(1);
    let au_header = u16::from_be_bytes([hdr[2], hdr[3]]);
    assert_eq!(au_header >> 3, 1);
    assert_eq!(au_header & 0x7, 0); // AU-Index always 0
}

#[test]
fn headers_length_field_is_always_16_bits() {
    for size in [0u16, 1, 266, MAX_AU_SIZE] {
        let hdr = au_header_section(size);
        assert_eq!(u16::from_be_bytes([hdr[0], hdr[1]]), 16);
    }
}
