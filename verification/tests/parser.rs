use rwebserve::http_parser::{make_parser, parse_request};

#[test]
fn test_get_method1() {
    let p = make_parser();

    match p.parse("GET / HTTP/1.1\r\n\r\n") {
        Ok(value) => {
            assert_eq!(value.method, "GET");
            assert_eq!(value.major_version, 1);
            assert_eq!(value.minor_version, 1);
            assert_eq!(value.url, "/");
            assert_eq!(value.headers.len(), 0);
            assert_eq!(value.body.len(), 0);
        }
        Err(mesg) => {
            panic!("{}", mesg);
        }
    }
}

#[test]
fn test_get_method2() {
    let p = make_parser();

    match p.parse("GET / HTTP/1.1\r\nHost: localhost:8080\r\nUser-Agent: Mozilla/5.0 (Macintosh; Intel Mac OS X 10.7; rv:11.0) Gecko/20100101 Firefox/11.0\r\nAccept: text/html,application/xhtml+xml,application/xml;q=0.9,*/*;q=0.8\r\nAccept-Language: en-us,en;q=0.5\r\nAccept-Encoding: gzip, deflate\r\nConnection: keep-alive\r\n\r\n") {
        Ok(value) => {
            assert_eq!(value.method, "GET");
            assert_eq!(value.major_version, 1);
            assert_eq!(value.minor_version, 1);
            assert_eq!(value.url, "/");
            assert_eq!(value.headers.len(), 6);
            assert_eq!(value.body.len(), 0);

            assert_eq!(value.headers.get("host").unwrap(), "localhost:8080");
            assert_eq!(value.headers.get("user-agent").unwrap(), "Mozilla/5.0 (Macintosh; Intel Mac OS X 10.7; rv:11.0) Gecko/20100101 Firefox/11.0");
            assert_eq!(value.headers.get("accept").unwrap(), "text/html,application/xhtml+xml,application/xml;q=0.9,*/*;q=0.8");
            assert_eq!(value.headers.get("accept-language").unwrap(), "en-us,en;q=0.5");
            assert_eq!(value.headers.get("accept-encoding").unwrap(), "gzip, deflate");
            assert_eq!(value.headers.get("connection").unwrap(), "keep-alive");
        }
        Err(mesg) => {
            panic!("{}", mesg);
        }
    }
}

#[test]
fn test_unknown_method() {
    let p = make_parser();

    match p.parse("GET / HXTP/1.1\r\n\r\n") {
        Ok(value) => {
            panic!("Somehow parsed {}", value.url);
        }
        Err(mesg) => {
            assert_eq!(mesg, "Expected 'HTTP/' on line 1 col 8");
        }
    }
}

#[test]
fn test_header_values() {
    let p = make_parser();

    match p.parse("GET / HTTP/1.1\r\nHost:   \t xxx\r\nBlah:   \t bbb \t\r\nMulti: line1\r\n  \tline2\r\n  line3\r\n\r\n") {
        Ok(value) => {
            assert_eq!(value.headers.get("host").unwrap(), "xxx");
            assert_eq!(value.headers.get("blah").unwrap(), "bbb");
            assert_eq!(value.headers.get("multi").unwrap(), "line1 line2 line3");
        }
        Err(mesg) => {
            panic!("{}", mesg);
        }
    }
}

#[test]
fn header_folding_joins_with_one_blank() {
    let request = parse_request("GET /x HTTP/1.1\r\nMulti: line1\r\n \tline2\r\n  line3\r\n\r\n").ok().unwrap();
    assert_eq!(request.headers.get("multi").unwrap(), "line1 line2 line3");
}

#[test]
fn header_names_are_lowered_and_last_value_wins() {
    let request = parse_request("GET /x HTTP/1.1\r\nX-Thing: one\r\nOther: o\r\nx-thing:   two  \r\n\r\n").ok().unwrap();
    assert_eq!(request.method, "GET");
    assert_eq!(request.headers.len(), 2);
    assert_eq!(request.headers.key_at(0), "x-thing");
    assert_eq!(request.headers.get("x-thing").unwrap(), "two");
    assert_eq!(request.headers.get("other").unwrap(), "o");
}

#[test]
fn empty_header_value_is_accepted() {
    let request = parse_request("GET /x HTTP/1.1\r\nEmpty:\r\n\r\n").ok().unwrap();
    assert_eq!(request.headers.get("empty").unwrap(), "");
}

#[test]
fn versions_are_read_as_numbers() {
    let request = parse_request("GET /x HTTP/100.01\r\n\r\n").ok().unwrap();
    assert_eq!(request.major_version, 100);
    assert_eq!(request.minor_version, 1);
    assert_eq!(request.url, "/x");
}

fn error_of(text: &str) -> (String, usize, usize) {
    match parse_request(text) {
        Ok(_) => panic!("parsed {:?}", text),
        Err(e) => (e.message.clone(), e.line, e.col),
    }
}

#[test]
fn each_failure_has_its_message_and_place() {
    assert_eq!(error_of("PUT / HTTP/1.1\r\n\r\n"), ("Expected 'GET '".to_string(), 1, 1));
    assert_eq!(error_of("GET"), ("Expected 'GET '".to_string(), 1, 4));
    assert_eq!(error_of("GET  HTTP/1.1\r\n\r\n"), ("Expected an URL".to_string(), 1, 5));
    assert_eq!(error_of("GET /"), ("Expected 'HTTP/'".to_string(), 1, 6));
    assert_eq!(error_of("GET /  HTTP/1.1\r\n\r\n"), ("Expected 'HTTP/'".to_string(), 1, 7));
    assert_eq!(error_of("GET / HTTP/x.1\r\n\r\n"), ("Expected a digit".to_string(), 1, 12));
    assert_eq!(
        error_of("GET / HTTP/18446744073709551616.1\r\n\r\n"),
        ("Version number is too large".to_string(), 1, 12)
    );
    assert_eq!(error_of("GET / HTTP/1-1\r\n\r\n"), ("Expected '.'".to_string(), 1, 13));
    assert_eq!(error_of("GET / HTTP/1.\r\n\r\n"), ("Expected a digit".to_string(), 1, 14));
    assert_eq!(error_of("GET / HTTP/1.1\n\r\n"), ("Expected CRNL".to_string(), 1, 15));
    assert_eq!(error_of("GET / HTTP/1.1\r\nHost localhost\r\n\r\n"), ("Expected CRNL".to_string(), 2, 1));
    assert_eq!(error_of("GET / HTTP/1.1\r\nHost: a\r\n\rX"), ("Expected CRNL".to_string(), 3, 2));
    assert_eq!(error_of("GET / HTTP/1.1\r\n\r\nbody"), ("Expected EOT".to_string(), 3, 1));
}

#[test]
fn the_largest_version_number_is_read() {
    let request = parse_request("GET / HTTP/18446744073709551615.0\r\n\r\n").ok().unwrap();
    assert_eq!(request.major_version, u64::MAX);
    assert_eq!(request.minor_version, 0);
}

#[test]
fn error_text_has_line_and_column() {
    let error = parse_request("GET / HTTP/1.1\r\nHost: a\r\n\rX").err().unwrap();
    assert_eq!(error.to_str(), "Expected CRNL on line 3 col 2");
}
