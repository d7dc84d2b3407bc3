use kibbled::embed::{finish, parse_output, EmbedError, EMBED_DIM, RAW_OUTPUT_LEN};

fn raw_bytes(feat: [f32; EMBED_DIM], prob: f32) -> Vec<u8> {
    let mut out = Vec::with_capacity(RAW_OUTPUT_LEN);
    for f in feat {
        out.extend_from_slice(&f.to_le_bytes());
    }
    out.extend_from_slice(&prob.to_le_bytes());
    out
}

#[test]
fn parse_output_decodes_exact_length_input_bit_for_bit() {
    let mut feat = [0.0f32; EMBED_DIM];
    feat[0] = 1.5;
    feat[511] = -3.25;
    let bytes = raw_bytes(feat, 0.987);
    let decoded = parse_output(&bytes).unwrap();
    assert_eq!(f32::from_bits(decoded.feat[0]), 1.5);
    assert_eq!(f32::from_bits(decoded.feat[511]), -3.25);
    assert_eq!(f32::from_bits(decoded.prob), 0.987);
}

#[test]
fn parse_output_rejects_wrong_length() {
    match parse_output(&[0u8; 10]) {
        Err(EmbedError::BadOutputLen(10)) => {}
        _ => panic!("expected BadOutputLen(10)"),
    }
}

#[test]
fn extract_with_a_nonzero_exit_reports_exit_status_and_stderr() {
    match finish(false, Some(3), b"", b"boom\n") {
        Err(EmbedError::ExitStatus { code: Some(3), stderr }) => assert!(stderr.contains("boom")),
        _ => panic!("expected ExitStatus{{code:3}}"),
    }
}

#[test]
fn extract_with_wrong_length_stdout_is_a_bad_output_error() {
    match finish(true, Some(0), b"not enough bytes", b"") {
        Err(EmbedError::BadOutputLen(n)) => assert_eq!(n, "not enough bytes".len()),
        _ => panic!("expected BadOutputLen"),
    }
}

#[test]
fn extract_with_a_well_formed_helper_decodes_the_exact_floats() {
    let mut feat = [0.0f32; EMBED_DIM];
    feat[3] = 42.0;
    let result = finish(true, Some(0), &raw_bytes(feat, 0.5), b"").unwrap();
    assert_eq!(f32::from_bits(result.feat[3]), 42.0);
    assert_eq!(f32::from_bits(result.prob), 0.5);
}

#[test]
fn each_embedding_error_says_what_went_wrong() {
    let spawn = EmbedError::Spawn("gone".into()).message();
    assert!(spawn.contains("gone"), "{spawn}");
    let exit = EmbedError::ExitStatus { code: None, stderr: "killed".into() }.message();
    assert!(exit.contains("None") && exit.contains("killed"), "{exit}");
    let len = EmbedError::BadOutputLen(10).message();
    assert!(len.contains("10") && len.contains("2052"), "{len}");
}
