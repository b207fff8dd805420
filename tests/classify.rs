use proof_viz::classify::{
    classify, contains_bytes, declared_content_type, equals_ignore_case, get_content_type,
    kind_of, render_json, ClassifiedContent, ContentType, HttpHeader, HttpResponse,
};

fn response(content_type: &str, body: &[u8]) -> HttpResponse {
    HttpResponse {
        headers: vec![
            HttpHeader { name: b"Server".to_vec(), value: b"test".to_vec() },
            HttpHeader { name: b"Content-Type".to_vec(), value: content_type.as_bytes().to_vec() },
        ],
        body: Some(body.to_vec()),
    }
}

#[test]
fn json_body_is_pretty_printed() {
    let buffer = b"HTTP/1.1 200 OK\r\nContent-Type: application/json\r\n\r\n{\"a\":1}".to_vec();
    let parsed = Ok(HttpResponse {
        headers: vec![HttpHeader {
            name: b"Content-Type".to_vec(),
            value: b"application/json".to_vec(),
        }],
        body: Some(b"{\"a\":1}".to_vec()),
    });
    assert_eq!(
        classify(&buffer, &parsed),
        ClassifiedContent::Structured("{\n  \"a\": 1\n}".to_string())
    );
}

#[test]
fn html_body_is_text() {
    let buffer = b"HTTP/1.1 200 OK\r\nContent-Type: text/html\r\n\r\n<html></html>".to_vec();
    let parsed = Ok(HttpResponse {
        headers: vec![HttpHeader { name: b"Content-Type".to_vec(), value: b"text/html".to_vec() }],
        body: Some(b"<html></html>".to_vec()),
    });
    assert_eq!(classify(&buffer, &parsed), ClassifiedContent::Html("<html></html>".to_string()));
}

#[test]
fn non_http_is_opaque_and_unchanged() {
    let buffer = vec![0xffu8, 0x00, 0x41];
    let parsed: Result<HttpResponse, String> = Err("invalid status line".to_string());
    assert_eq!(classify(&buffer, &parsed), ClassifiedContent::Opaque(buffer.clone()));
}

#[test]
fn invalid_json_is_kept() {
    let parsed = Ok(response("application/json; charset=utf-8", b"{not json"));
    assert_eq!(
        classify(b"", &parsed),
        ClassifiedContent::Structured("{not json".to_string())
    );
}

#[test]
fn other_body_is_opaque_bytes() {
    let parsed = Ok(response("image/png", &[1, 2, 3]));
    assert_eq!(classify(b"", &parsed), ClassifiedContent::Opaque(vec![1, 2, 3]));
}

#[test]
fn html_body_with_invalid_utf8_is_replaced() {
    let parsed = Ok(response("text/html", &[b'<', 0xff, b'>']));
    assert_eq!(classify(b"", &parsed), ClassifiedContent::Html("<\u{fffd}>".to_string()));
}

#[test]
fn header_name_matches_in_any_case() {
    let headers = vec![HttpHeader { name: b"CONTENT-type".to_vec(), value: b"text/html".to_vec() }];
    assert_eq!(declared_content_type(&headers), ContentType::Html);
    assert!(equals_ignore_case(b"Content-Type", b"content-type"));
    assert!(!equals_ignore_case(b"Content-Typo", b"content-type"));
}

#[test]
fn first_content_type_header_decides() {
    let headers = vec![
        HttpHeader { name: b"content-type".to_vec(), value: b"application/json".to_vec() },
        HttpHeader { name: b"content-type".to_vec(), value: b"text/html".to_vec() },
    ];
    assert_eq!(declared_content_type(&headers), ContentType::Json);
    assert_eq!(declared_content_type(&vec![]), ContentType::Other);
}

#[test]
fn html_wins_over_json_in_one_value() {
    assert_eq!(kind_of(b"text/html, application/json"), ContentType::Html);
    assert_eq!(kind_of(b"application/json"), ContentType::Json);
    assert_eq!(kind_of(b"text/plain"), ContentType::Other);
}

#[test]
fn contains_bytes_finds_needles() {
    assert!(contains_bytes(b"abcdef", b"cde"));
    assert!(contains_bytes(b"abc", b""));
    assert!(!contains_bytes(b"abc", b"abcd"));
    assert!(!contains_bytes(b"abcdef", b"ce"));
}

#[test]
fn get_content_type_reports_parse_error() {
    let parsed: Result<HttpResponse, String> = Err("bad".to_string());
    assert_eq!(get_content_type(&parsed), (ContentType::Other, "bad".to_string()));
    let ok = Ok(HttpResponse { headers: vec![], body: None });
    assert_eq!(get_content_type(&ok), (ContentType::Other, String::new()));
}

#[test]
fn render_json_pretty_prints_or_keeps() {
    assert_eq!(render_json("[1,2]".to_string()), "[\n  1,\n  2\n]");
    assert_eq!(render_json("nope".to_string()), "nope");
}
