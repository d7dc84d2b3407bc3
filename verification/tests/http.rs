use kibbled::http::{err_json, find_headers_end, json_field, parse_head_text, query_field, split_query, Intake, Request, Response, Step};

#[test]
fn reads_flat_fields_regardless_of_spacing_and_quoting() {
    let b = r#"{"hopper": 2,"amount":10, "id" : "morning" }"#;
    assert_eq!(json_field(b, "hopper"), Some("2"));
    assert_eq!(json_field(b, "amount"), Some("10"));
    assert_eq!(json_field(b, "id"), Some("morning"));
    assert_eq!(json_field(b, "missing"), None);
}

#[test]
fn http_headers_end_is_found_only_on_the_blank_line() {
    assert_eq!(find_headers_end(b"GET / HTTP/1.1\r\n"), None);
    assert_eq!(find_headers_end(b"GET / HTTP/1.1\r\n\r\nbody"), Some(18));
}

#[test]
fn splits_path_and_query() {
    assert_eq!(split_query("/schedule/entry?id=abc"), ("/schedule/entry", "id=abc"));
    assert_eq!(split_query("/schedule/entry"), ("/schedule/entry", ""));
}

#[test]
fn reads_query_fields() {
    assert_eq!(query_field("id=abc123", "id"), Some("abc123"));
    assert_eq!(query_field("foo=bar&id=xyz", "id"), Some("xyz"));
    assert_eq!(query_field("", "id"), None);
}

fn serve(chunks: &[&[u8]]) -> Result<Request, String> {
    let mut intake = Intake::new();
    for chunk in chunks {
        assert!(chunk.len() <= intake.wants());
        match intake.feed(chunk) {
            Step::Read(n) => assert!(n > 0),
            Step::Serve(req) => return Ok(req),
            Step::Refuse(Response::BadRequest(m)) => return Err(m),
            Step::Refuse(_) => unreachable!(),
        }
    }
    match intake.hang_up() {
        Some(Response::BadRequest(m)) => Err(m),
        _ => Err("hung up".to_string()),
    }
}

#[test]
fn a_request_is_served_however_it_is_cut_up() {
    let whole = serve(&[b"POST /feed?x=1 HTTP/1.1\r\nContent-Length: 4\r\n\r\nabcd"]).unwrap();
    assert_eq!((whole.method.as_str(), whole.path.as_str()), ("POST", "/feed?x=1"));
    assert_eq!(whole.body, b"abcd");
    let parts = serve(&[b"POST /feed?x=1 HTTP/1.1\r\ncontent-length:4", b"\r\n\r\nab", b"cd"]).unwrap();
    assert_eq!(parts.path, whole.path);
    assert_eq!(parts.body, whole.body);
}

#[test]
fn a_request_without_a_body_is_served_at_once() {
    let req = serve(&[b"GET /state HTTP/1.1\r\n\r\n"]).unwrap();
    assert_eq!((req.method.as_str(), req.path.as_str()), ("GET", "/state"));
    assert!(req.body.is_empty());
}

#[test]
fn requests_that_cannot_be_served_are_refused() {
    assert_eq!(serve(&[&[b'x'; 8192]]).err().unwrap(), "request too large");
    assert_eq!(
        serve(&[b"PUT /x HTTP/1.1\r\nContent-Length: 8388609\r\n\r\n"]).err().unwrap(),
        "body too large"
    );
    assert_eq!(
        serve(&[b"PUT /x HTTP/1.1\r\nContent-Length: 3\r\n\r\nab"]).err().unwrap(),
        "truncated body"
    );
    assert_eq!(serve(&[b"GET / HT"]).err().unwrap(), "hung up");
}

#[test]
fn a_body_that_is_no_text_is_read_with_replacements() {
    let req = Request { method: "POST".into(), path: "/".into(), body: vec![b'a', 0xff, b'b'] };
    assert_eq!(req.body_str(), "a\u{fffd}b");
}

#[test]
fn responses_carry_their_status_and_length() {
    let out = Response::BadRequest("say \"no\"".into()).encode();
    assert_eq!(
        String::from_utf8(out).unwrap(),
        "HTTP/1.1 400 Bad Request\r\nContent-Type: application/json\r\nContent-Length: 25\r\nConnection: close\r\n\r\n{\"error\":\"say \\\"no\\\"\"}"
    );
    assert_eq!(Response::NotFound.into_parts().0, 404);
    assert_eq!(Response::NoContent.into_parts(), (204, "text/plain", vec![]));
    assert_eq!(Response::Conflict("busy".into()).into_parts().0, 409);
    assert_eq!(Response::Error("x".into()).into_parts().0, 500);
    assert_eq!(Response::Blob("image/jpeg", vec![1, 2]).into_parts(), (200, "image/jpeg", vec![1, 2]));
    assert_eq!(Response::Json("{}".into()).into_parts(), (200, "application/json", b"{}".to_vec()));
}

#[test]
fn error_bodies_are_escaped() {
    assert_eq!(err_json("a\nb"), "{\"error\":\"a\\nb\"}");
}

#[test]
fn a_head_is_read_from_its_text() {
    let h = parse_head_text("PUT /x HTTP/1.1\r\nContent-Length: zz\r\nCONTENT-LENGTH: 12\r\n");
    assert_eq!((h.method.as_str(), h.path.as_str(), h.want), ("PUT", "/x", 12));
    assert_eq!(parse_head_text("").want, 0);
}
