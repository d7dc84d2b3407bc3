use kibbled::base64::base64_encode;
use kibbled::number::{
    dec_string, has_float_form, hex_encode, parse_i32, parse_i64, parse_u32, parse_u64, parse_u8, push_dec_padded,
    push_hex,
};
use kibbled::order::{comes_before, named_order, stable_order};
use kibbled::sha1::digest;
use kibbled::text::{
    contains, ends_with, eq_ignore_ascii_case, escape_debug, find_str, rfind_str, split, split_lines, split_once,
    split_str, split_whitespace, starts_with, strip_prefix, strip_suffix, trim, Pat,
};

#[test]
fn sha1_known_values() {
    assert_eq!(hex_encode(&digest(b"abc")), "a9993e364706816aba3e25717850c26c9cd0d89d");
    assert_eq!(hex_encode(&digest(b"")), "da39a3ee5e6b4b0d3255bfef95601890afd80709");
    assert_eq!(hex_encode(&digest(&[b'a'; 120])), "f34c1488385346a55709ba056ddd08280dd4c6d6");
}

#[test]
fn base64_lengths() {
    assert_eq!(base64_encode(&[0xff, 0xef]), "/+8=");
    assert_eq!(base64_encode(&[0; 20]).len(), 28);
}

#[test]
fn numbers_read_back() {
    for n in [0u64, 7, 10, 999, u64::MAX] {
        assert_eq!(dec_string(n), n.to_string());
        assert_eq!(parse_u64(&dec_string(n)), Some(n));
    }
    assert_eq!(parse_u64("18446744073709551616"), None);
    assert_eq!(parse_u64("+5"), Some(5));
    assert_eq!(parse_u64(""), None);
    assert_eq!(parse_u8("256"), None);
    assert_eq!(parse_u32("4294967295"), Some(u32::MAX));
    assert_eq!(parse_i64("-9223372036854775808"), Some(i64::MIN));
    assert_eq!(parse_i32("-2147483649"), None);
    let mut s = String::new();
    push_dec_padded(&mut s, 7, 3);
    push_hex(&mut s, 0xabc);
    assert_eq!(s, "007abc");
}

#[test]
fn searching_counts_characters() {
    assert_eq!(find_str("äöü=ü", "ü"), Some(2));
    assert_eq!(rfind_str("äöü=ü", "ü"), Some(4));
    assert_eq!(find_str("abc", "x"), None);
    assert!(contains("hello", "ell") && !contains("hello", "elo"));
    assert!(starts_with("hello", "he") && ends_with("hello", "lo"));
    assert_eq!(strip_prefix("hello", "he"), Some("llo"));
    assert_eq!(strip_suffix("hello", "lo"), Some("hel"));
}

#[test]
fn splitting_keeps_empty_pieces() {
    assert_eq!(split("a,,b", Pat::Is(',')), vec!["a", "", "b"]);
    assert_eq!(split_str("a--b-", "--"), vec!["a", "b-"]);
    assert_eq!(split_once("k:v:w", Pat::Is(':')), Some(("k", "v:w")));
    assert_eq!(split_whitespace(" a\t b\n"), vec!["a", "b"]);
    assert_eq!(split_lines("a\r\nb\n\nc"), vec!["a", "b", "", "c"]);
    assert_eq!(trim("  x ", Pat::Space), "x");
    assert!(eq_ignore_ascii_case("CSeq", "cseq"));
}

#[test]
fn orders_are_stable() {
    assert_eq!(stable_order(&vec![3, 1, 3, 2]), vec![1, 3, 0, 2]);
    assert!(comes_before("a", "ab") && comes_before("Z", "a") && !comes_before("a", "a"));
    let keys = vec![(1, "b".to_string()), (0, "z".to_string()), (1, "a".to_string())];
    assert_eq!(named_order(&keys), vec![1, 2, 0]);
}

#[test]
fn plain_text_is_written_as_it_stands_and_other_text_is_escaped() {
    let plain: String = (' '..='~').filter(|c| !"'\"\\".contains(*c)).collect();
    assert_eq!(plain.len(), 92);
    assert_eq!(escape_debug(&plain), plain);
    assert_eq!(escape_debug(&plain), plain.escape_debug().to_string());
    assert_eq!(escape_debug("Tom's \"cat\"\n"), "Tom\\'s \\\"cat\\\"\\n");
    assert_eq!(escape_debug(""), "");
}

#[test]
fn floating_point_numbers_are_told_by_their_form() {
    let yes = [
        "0", "0.83", "1.", ".5", "-0.001", "+1e3", "1E-7", "2.5e+10", "1.e5", "inf", "-INF", "Infinity",
        "nan", "+NaN", "1e999", "00012",
    ];
    let no = [
        "", "+", ".", "-.", "e5", ".e5", "1e", "1e+", "1.2.3", "1e5e5", "1e5.0", " 1", "1 ", "0x10", "1_000",
        "infin", "nanx", "--1", "+-1", "1f32", "\u{0663}",
    ];
    for s in yes {
        assert!(has_float_form(s), "{s}");
        assert!(s.parse::<f32>().is_ok(), "{s}");
    }
    for s in no {
        assert!(!has_float_form(s), "{s}");
        assert!(s.parse::<f32>().is_err(), "{s}");
    }
}
