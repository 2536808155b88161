use http_parser::errors::{HttpMethodError, HttpVersionError, ParseError, StatusCodeError};
use http_parser::request::HttpRequest;
use http_parser::response::{Response, ResponseBuilder};
use http_parser::types::{Header, HttpMethod, HttpVersion};

fn header_of(pairs: &[(&str, &str)]) -> Header {
    let mut h = Header::new();
    for (k, v) in pairs {
        h.insert(k.to_string(), v.to_string());
    }
    h
}

fn browser_header() -> Header {
    header_of(&[
        ("Accept-Encoding", "gzip, deflate, br"),
        ("Host", "www.example.com"),
        ("Connection", "keep-alive"),
        (
            "Accept",
            "text/html,application/xhtml+xml,application/xml;q=0.9,image/avif,image/webp,*/*;q=0.8",
        ),
        ("Accept-Language", "en-GB,en;q=0.5"),
        ("User-Agent", "Mozilla/5.0"),
    ])
}

#[test]
fn no_body_request() {
    let request = "GET / HTTP/1.1
Host: www.example.com
User-Agent: Mozilla/5.0
Accept: text/html,application/xhtml+xml,application/xml;q=0.9,image/avif,image/webp,*/*;q=0.8
Accept-Language: en-GB,en;q=0.5
Accept-Encoding: gzip, deflate, br
Connection: keep-alive";

    let req_obj = HttpRequest::from_request(request.into()).unwrap();
    assert_eq!(
        req_obj,
        HttpRequest {
            url: "/".to_string(),
            version: HttpVersion::Http1_1,
            method: HttpMethod::Get,
            header: browser_header(),
            contents: vec![]
        }
    )
}

#[test]
fn request_with_body() {
    let request = "GET / HTTP/1.1
Host: www.example.com
User-Agent: Mozilla/5.0
Accept: text/html,application/xhtml+xml,application/xml;q=0.9,image/avif,image/webp,*/*;q=0.8
Accept-Language: en-GB,en;q=0.5
Accept-Encoding: gzip, deflate, br
Connection: keep-alive

Hello World!";
    let req_obj = HttpRequest::from_request(request.into()).unwrap();
    assert_eq!(
        req_obj,
        HttpRequest {
            url: "/".to_string(),
            version: HttpVersion::Http1_1,
            method: HttpMethod::Get,
            header: browser_header(),
            contents: vec![72, 101, 108, 108, 111, 32, 87, 111, 114, 108, 100, 33]
        }
    )
}

#[test]
fn response_builder_test() {
    let mut header = Header::new();
    header.insert("Content-Type".to_string(), "*/*".to_string());

    let valid_response = Response::new(
        HttpVersion::Http1_1,
        200,
        String::from("OK"),
        header.clone(),
        String::from("Hello World!"),
    );

    let response = ResponseBuilder::new()
        .version(HttpVersion::Http1_1)
        .status(200)
        .unwrap()
        .header(header)
        .body(String::from("Hello World!"))
        .build();

    assert_eq!(response, valid_response)
}

#[test]
fn response_to_string_test() {
    let mut header = Header::new();
    header.insert("Content-Type".to_string(), "*/*".to_string());

    let response = Response::new(
        HttpVersion::Http1_1,
        200,
        String::from("OK"),
        header.clone(),
        String::from("Hello World!"),
    );

    let valid_string = String::from("HTTP/1.1 200 OK\nContent-Type: */*\n\nHello World!");

    assert_eq!(response.to_string(), valid_string)
}

#[test]
fn short_request_parses() {
    let r = HttpRequest::from_request("GET / HTTP/1.1\nHost: example.com\n\nHi".to_string()).unwrap();
    assert_eq!(r.method, HttpMethod::Get);
    assert_eq!(r.url, "/");
    assert_eq!(r.version, HttpVersion::Http1_1);
    assert_eq!(r.header, header_of(&[("Host", "example.com")]));
    assert_eq!(r.contents, b"Hi".to_vec());
    assert_eq!(r.body().unwrap(), "Hi");
}

#[test]
fn no_blank_line_gives_empty_body() {
    let r = HttpRequest::from_request("POST /a HTTP/2\nX: 1\nY: 2".to_string()).unwrap();
    assert_eq!(r.method, HttpMethod::Post);
    assert_eq!(r.version, HttpVersion::Http2);
    assert!(r.contents.is_empty());
    let r = HttpRequest::from_request("GET / HTTP/1.1".to_string()).unwrap();
    assert!(r.contents.is_empty());
    assert_eq!(r.header.len(), 0);
}

#[test]
fn body_is_text_after_blank_line_exactly() {
    let r = HttpRequest::from_request("GET / HTTP/1.1\nA: b\n\nline one\n\nline two\n".to_string())
        .unwrap();
    assert_eq!(r.contents, b"line one\n\nline two\n".to_vec());
    let r = HttpRequest::from_request("GET / HTTP/1.1\n\n".to_string()).unwrap();
    assert!(r.contents.is_empty());
    let r = HttpRequest::from_request("GET / HTTP/1.1\n\nh\u{e9}".to_string()).unwrap();
    assert_eq!(r.contents, vec![104, 0xc3, 0xa9]);
}

#[test]
fn crlf_line_endings() {
    let r = HttpRequest::from_request("PUT /x HTTP/3\r\nHost: a\r\n\r\nBody\r\n".to_string())
        .unwrap();
    assert_eq!(r.method, HttpMethod::Put);
    assert_eq!(r.version, HttpVersion::Http3);
    assert_eq!(r.header, header_of(&[("Host", "a")]));
    assert_eq!(r.contents, b"Body\r\n".to_vec());
}

#[test]
fn unknown_method_lenient_and_strict() {
    let t = "FETCH / HTTP/1.1\nHost: a";
    let r = HttpRequest::from_request(t.to_string()).unwrap();
    assert_eq!(r.method, HttpMethod::Get);
    assert_eq!(
        HttpRequest::from_request_strict(t.to_string()),
        Err(ParseError::InvalidMethod)
    );
}

#[test]
fn unknown_version_lenient_and_strict() {
    let t = "GET / HTTP/9";
    let r = HttpRequest::from_request(t.to_string()).unwrap();
    assert_eq!(r.version, HttpVersion::Http1_1);
    assert_eq!(
        HttpRequest::from_request_strict(t.to_string()),
        Err(ParseError::InvalidVersion)
    );
    assert_eq!(
        HttpRequest::parse("GET / http/1.1", true),
        Err(ParseError::InvalidVersion)
    );
}

#[test]
fn header_without_colon_is_malformed() {
    let t = "GET / HTTP/1.1\nBadHeader\n\nbody";
    assert_eq!(
        HttpRequest::from_request_strict(t.to_string()),
        Err(ParseError::MalformedHeaderLine { line: 1 })
    );
    assert_eq!(
        HttpRequest::from_request(t.to_string()),
        Err(ParseError::MalformedHeaderLine { line: 1 })
    );
}

#[test]
fn short_request_line_is_malformed() {
    assert_eq!(
        HttpRequest::from_request("GET /".to_string()),
        Err(ParseError::MalformedRequestLine)
    );
    assert_eq!(
        HttpRequest::from_request("".to_string()),
        Err(ParseError::MalformedRequestLine)
    );
}

#[test]
fn header_values_and_duplicates() {
    let r = HttpRequest::from_request(
        "GET / HTTP/1.1\nHost: localhost:8080\nX:\t  v\nHost: other".to_string(),
    )
    .unwrap();
    assert_eq!(r.header.len(), 2);
    assert_eq!(r.header.get(&"Host".to_string()), Some(&"other".to_string()));
    assert_eq!(r.header.get(&"X".to_string()), Some(&"v".to_string()));
    let r = HttpRequest::from_request("GET / HTTP/1.1\nHost: localhost:8080".to_string()).unwrap();
    assert_eq!(r.header.get(&"Host".to_string()), Some(&"localhost:8080".to_string()));
    assert_eq!(r.header.get(&"host".to_string()), None);
}

#[test]
fn method_tokens_ignore_case() {
    assert_eq!(HttpMethod::from_token("post"), Ok(HttpMethod::Post));
    assert_eq!(HttpMethod::from_token("DeLeTe"), Ok(HttpMethod::Delete));
    assert_eq!(HttpMethod::from_token("OPTIONS"), Ok(HttpMethod::Options));
    assert_eq!(HttpMethod::from_token("head"), Ok(HttpMethod::Head));
    assert_eq!(HttpMethod::from_token("patch"), Ok(HttpMethod::Patch));
    assert_eq!(HttpMethod::from_token("Put"), Ok(HttpMethod::Put));
    assert_eq!(HttpMethod::from_token("FETCH"), Err(HttpMethodError));
    assert_eq!(HttpMethod::from_token("GETS"), Err(HttpMethodError));
    assert_eq!(HttpMethod::Patch.as_str(), "PATCH");
    assert_eq!(HttpMethodError.message(), "Invalid HTTP method");
}

#[test]
fn version_tokens_are_exact() {
    assert_eq!(HttpVersion::from_token("HTTP/1.1"), Ok(HttpVersion::Http1_1));
    assert_eq!(HttpVersion::from_token("HTTP/2"), Ok(HttpVersion::Http2));
    assert_eq!(HttpVersion::from_token("HTTP/3"), Ok(HttpVersion::Http3));
    assert_eq!(HttpVersion::from_token("Http/2"), Err(HttpVersionError));
    assert_eq!(HttpVersion::from_token("HTTP/2.0"), Err(HttpVersionError));
    for v in [HttpVersion::Http1_1, HttpVersion::Http2, HttpVersion::Http3] {
        assert_eq!(HttpVersion::from_token(v.as_str()), Ok(v));
    }
    assert_eq!(HttpVersionError.message(), "Invalid HTTP version");
}

#[test]
fn status_codes() {
    let ok = ResponseBuilder::new().status(200).unwrap().build();
    assert_eq!(ok.to_string(), "HTTP/1.1 200 OK\n\n");
    let nf = ResponseBuilder::new().status(404).unwrap().build();
    assert_eq!(nf.to_string(), "HTTP/1.1 404 Not Found\n\n");
    let unnamed = ResponseBuilder::new().status(999).unwrap().build();
    assert_eq!(unnamed.to_string(), "HTTP/1.1 999 \n\n");
    assert_eq!(
        ResponseBuilder::new().status(1001).unwrap_err(),
        StatusCodeError { code: 1001 }
    );
    assert!(ResponseBuilder::new().status(99).is_err());
    assert!(ResponseBuilder::new().status(100).is_ok());
    assert!(ResponseBuilder::new().status(1000).is_err());
}

#[test]
fn builder_defaults_and_replacement() {
    let empty = ResponseBuilder::new().build();
    assert_eq!(empty.to_string(), "HTTP/1.1 0 \n\n");
    let r = ResponseBuilder::new()
        .header(header_of(&[("A", "1")]))
        .header(header_of(&[("B", "2")]))
        .body("first".to_string())
        .body("second".to_string())
        .version(HttpVersion::Http2)
        .build();
    assert_eq!(r.to_string(), "HTTP/2 0 \nB: 2\n\nsecond");
    let p = ResponseBuilder::new()
        .with_status_phrase(201, Some("Created".to_string()))
        .build();
    assert_eq!(p.to_string(), "HTTP/1.1 201 Created\n\n");
}

#[test]
fn serialized_lines_one_per_entry() {
    let h = header_of(&[("A", "1"), ("B", "two words"), ("C", "")]);
    let r = Response::new(HttpVersion::Http3, 503, "Service Unavailable".to_string(), h, "x\ny".to_string());
    let text = r.to_string();
    let lines: Vec<&str> = text.split('\n').collect();
    assert_eq!(lines[0], "HTTP/3 503 Service Unavailable");
    assert_eq!(lines[1], "A: 1");
    assert_eq!(lines[2], "B: two words");
    assert_eq!(lines[3], "C: ");
    assert_eq!(lines[4], "");
    assert_eq!(&lines[5..], &["x", "y"]);
}

#[test]
fn status_line_reads_back() {
    let r = ResponseBuilder::new()
        .version(HttpVersion::Http2)
        .status(301)
        .unwrap()
        .build();
    let text = r.to_string();
    let first = text.split('\n').next().unwrap();
    let toks: Vec<&str> = first.split(' ').collect();
    assert_eq!(HttpVersion::from_token(toks[0]), Ok(HttpVersion::Http2));
    assert_eq!(toks[1].parse::<u16>().unwrap(), 301);
}

#[test]
fn header_equality_ignores_order() {
    let a = header_of(&[("A", "1"), ("B", "2")]);
    let b = header_of(&[("B", "2"), ("A", "1")]);
    assert_eq!(a, b);
    let c = header_of(&[("A", "1"), ("B", "3")]);
    assert_ne!(a, c);
    let mut d = header_of(&[("A", "1")]);
    d.insert("A".to_string(), "9".to_string());
    assert_eq!(d.len(), 1);
    assert_eq!(d.entry(0), (&"A".to_string(), &"9".to_string()));
}

#[test]
fn body_text_and_invalid_utf8() {
    let mut r = HttpRequest::new();
    assert_eq!(r.body().unwrap(), "");
    r.contents = vec![0xff, 0x41];
    assert!(r.body().is_err());
    r.contents = vec![0x41, 0x42];
    assert_eq!(r.body().unwrap(), "AB");
}

#[test]
fn try_from_tokens() {
    assert_eq!(HttpVersion::try_from("HTTP/2"), Ok(HttpVersion::Http2));
    assert_eq!(HttpVersion::try_from("HTTP/4"), Err(HttpVersionError));
    assert_eq!(HttpMethod::try_from("get"), Ok(HttpMethod::Get));
    assert_eq!(HttpMethod::try_from("FETCH"), Err(HttpMethodError));
}

#[test]
fn malformed_header_line_index() {
    assert_eq!(
        HttpRequest::from_request("GET / HTTP/1.1\nA: b\nC: d\nBad\nAlso bad".to_string()),
        Err(ParseError::MalformedHeaderLine { line: 3 })
    );
    let ok = HttpRequest::from_request("GET / HTTP/1.1\nA: b\n\nno colon here".to_string());
    assert_eq!(ok.unwrap().contents, b"no colon here".to_vec());
}

#[test]
fn header_values_lose_leading_unicode_white_space() {
    let r = HttpRequest::from_request(
        "GET / HTTP/1.1\nH:\u{b}a\nN: \u{a0}\u{3000}\u{2009}b c \nE:\u{c}\u{d}\u{85}".to_string(),
    )
    .unwrap();
    assert_eq!(r.header.get(&"H".to_string()), Some(&"a".to_string()));
    assert_eq!(r.header.get(&"N".to_string()), Some(&"b c ".to_string()));
    assert_eq!(r.header.get(&"E".to_string()), Some(&"".to_string()));
    let kept = HttpRequest::from_request("GET / HTTP/1.1\nZ:\u{200b}z".to_string()).unwrap();
    assert_eq!(kept.header.get(&"Z".to_string()), Some(&"\u{200b}z".to_string()));
}
