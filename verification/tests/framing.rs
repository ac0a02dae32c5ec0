use rwebserve::body::{body_len, checked_body_len, Body};
use rwebserve::framing::make_header_and_body;
use rwebserve::message::Response;
use rwebserve::table::{table_of, Table};

fn headers_of(pairs: &[(&str, &str)]) -> Table<String> {
    let owned: Vec<(String, String)> = pairs.iter().map(|(k, v)| (k.to_string(), v.to_string())).collect();
    table_of(&owned)
}

fn response_with(status: &str, pairs: &[(&str, &str)]) -> Response {
    Response {
        status: status.to_string(),
        headers: headers_of(pairs),
        body: Body::StringBody(String::new()),
        template: String::new(),
        context: Table::new(),
    }
}

#[test]
fn length_is_appended_where_none_is_declared() {
    let response = response_with("200 OK", &[("Content-Type", "text/plain"), ("Server", "s")]);
    let (header, body) = make_header_and_body(&response, Body::StringBody("hello".to_string()));

    assert_eq!(
        header,
        "HTTP/1.1 200 OK\r\nContent-Type: text/plain\r\nServer: s\r\nContent-Length: 5\r\n\r\n"
    );
    assert_eq!(body.to_bytes(), b"hello".to_vec());
}

#[test]
fn declared_zero_becomes_the_true_length_in_place() {
    let response = response_with("200 OK", &[("Content-Length", "0"), ("Server", "s")]);
    let payload = vec![7u8; 1234];
    let (header, body) = make_header_and_body(&response, Body::BinaryBody(payload));

    assert_eq!(header, "HTTP/1.1 200 OK\r\nContent-Length: 1234\r\nServer: s\r\n\r\n");
    assert_eq!(body.to_bytes().len(), 1234);
}

#[test]
fn declared_length_other_than_zero_is_kept() {
    let response = response_with("200 OK", &[("Content-Length", "5")]);
    let (header, _body) = make_header_and_body(&response, Body::StringBody("hello".to_string()));

    assert_eq!(header, "HTTP/1.1 200 OK\r\nContent-Length: 5\r\n\r\n");
}

#[test]
fn length_counts_bytes_not_characters() {
    let response = response_with("200 OK", &[]);
    let (header, _body) = make_header_and_body(&response, Body::StringBody("h\u{e9}llo \u{2603}".to_string()));

    assert_eq!(header, "HTTP/1.1 200 OK\r\nContent-Length: 10\r\n\r\n");
}

#[test]
fn chunked_body_is_one_chunk_and_has_no_length() {
    let response = response_with("200 OK", &[("Transfer-Encoding", "chunked")]);
    let payload = vec![b'x'; 255];
    let (header, body) = make_header_and_body(&response, Body::BinaryBody(payload));

    assert_eq!(header, "HTTP/1.1 200 OK\r\nTransfer-Encoding: chunked\r\n\r\n");
    assert!(!header.contains("Content-Length"));
    match &body {
        Body::CompoundBody(parts) => {
            assert_eq!(parts.len(), 3);
            match &parts[0] {
                Body::StringBody(head) => assert_eq!(head, "FF\r\n"),
                _ => panic!("chunk head is no text"),
            }
            match &parts[1] {
                Body::BinaryBody(bytes) => assert_eq!(bytes.len(), 255),
                _ => panic!("payload was changed"),
            }
            match &parts[2] {
                Body::StringBody(tail) => assert_eq!(tail, "\r\n"),
                _ => panic!("chunk tail is no text"),
            }
        }
        _ => panic!("chunked body is not compound"),
    }
    let mut wire = b"FF\r\n".to_vec();
    wire.extend(vec![b'x'; 255]);
    wire.extend(b"\r\n");
    assert_eq!(body.to_bytes(), wire);
}

#[test]
fn other_transfer_encodings_are_not_chunked() {
    let response = response_with("200 OK", &[("Transfer-Encoding", "gzip")]);
    let (header, body) = make_header_and_body(&response, Body::StringBody("abc".to_string()));

    assert_eq!(header, "HTTP/1.1 200 OK\r\nTransfer-Encoding: gzip\r\nContent-Length: 3\r\n\r\n");
    assert_eq!(body.to_bytes(), b"abc".to_vec());
}

#[test]
fn body_length_sums_the_leaves() {
    let body = Body::CompoundBody(vec![
        Body::StringBody("ab".to_string()),
        Body::CompoundBody(vec![Body::BinaryBody(vec![1, 0xff, 3]), Body::CompoundBody(vec![])]),
        Body::StringBody("\u{e9}".to_string()),
    ]);

    assert_eq!(body_len(&body), 7);
    assert_eq!(checked_body_len(&body), Some(7));
    assert_eq!(body.to_bytes(), vec![b'a', b'b', 1, 0xff, 3, 0xc3, 0xa9]);
    assert_eq!(body.to_str(), None);
    assert_eq!(body_len(&Body::CompoundBody(vec![])), 0);
}

#[test]
fn body_text_is_the_wire_bytes() {
    let body = Body::CompoundBody(vec![Body::StringBody("a".to_string()), Body::BinaryBody(b"bc".to_vec())]);
    assert_eq!(body.to_str(), Some("abc".to_string()));
}

#[test]
fn empty_body_has_length_zero() {
    let response = response_with("204 No Content", &[]);
    let (header, body) = make_header_and_body(&response, Body::StringBody(String::new()));

    assert_eq!(header, "HTTP/1.1 204 No Content\r\nContent-Length: 0\r\n\r\n");
    assert_eq!(body.to_bytes().len(), 0);
}
