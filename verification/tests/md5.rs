use kibbled::md5::{digest, hex};

#[test]
fn empty_string_vector() {
    assert_eq!(hex(b""), "d41d8cd98f00b204e9800998ecf8427e");
}

#[test]
fn abc_vector() {
    assert_eq!(hex(b"abc"), "900150983cd24fb0d6963f7d28e17f72");
}

#[test]
fn message_digest_vector() {
    assert_eq!(hex(b"message digest"), "f96b697d7cb7938d525a2f31aaf161d0");
}

#[test]
fn alphabet_vector() {
    assert_eq!(
        hex(b"abcdefghijklmnopqrstuvwxyz"),
        "c3fcd3d76192e4007dfb496cca67e13b"
    );
}

#[test]
fn alphanumeric_vector() {
    assert_eq!(
        hex(b"ABCDEFGHIJKLMNOPQRSTUVWXYZabcdefghijklmnopqrstuvwxyz0123456789"),
        "d174ab98d277d9f5a5611c2c9f419d9f"
    );
}

#[test]
fn long_digits_vector() {
    assert_eq!(
        hex(b"12345678901234567890123456789012345678901234567890123456789012345678901234567890"),
        "57edf4a22be3c955ac49da2e2107b67a"
    );
}
#[test]
fn multi_block_input_vector() {
    let input = vec![0x42u8; 2600];
    assert_eq!(hex(&input), "95cebcf06b0df9551b9f8287f7289b91");
}
#[test]
fn multi_block_text_vector() {
    let input = "user.conf test content ".repeat(50);
    assert_eq!(hex(input.as_bytes()), "a76d3e54b540b22b5246818cebbe3271");
}

#[test]
fn the_digest_is_what_the_text_spells() {
    assert_eq!(digest(b"")[..4], [0xd4, 0x1d, 0x8c, 0xd9]);
}

#[test]
fn lengths_round_the_padding_boundary() {
    assert_eq!(hex(&[0u8; 55]), "c9ea3314b91c9fd4e38f9432064fd1f2");
    assert_eq!(hex(&[0u8; 56]), "e3c4dd21a9171fd39d208efa09bf7883");
    assert_eq!(hex(&[0u8; 64]), "3b5d3c7d207e37dceeedd301e35e2e58");
}
