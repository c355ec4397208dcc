use mttp::http::{HeaderMap, HttpRequest, HttpResponse, Method, StatusCode};
use mttp::http::protocol::{parse_request, write_response};
use mttp::Error;

fn hm(pairs: &[(&str, &str)]) -> HeaderMap {
    HeaderMap::from_pairs(
        pairs.iter().map(|(k, v)| (k.to_string(), v.to_string())).collect(),
    )
}

#[test]
pub fn test_request1() {
    let x = b"GET /test1/test2?real=fake HTTP/1.1\r\nTest: Test\r\n\r\n";
    let got = parse_request(x.as_slice()).unwrap();

    assert_eq!(
        got,
        HttpRequest {
            method: Method::Get,
            raw_route: "/test1/test2?real=fake".to_owned(),
            headers: hm(&[("Test", "Test")]),
            body: None,
            route: "/test1/test2".to_owned(),
            params: hm(&[("real", "fake")]),
        }
    )
}

#[test]
pub fn test_request2() {
    let x =
        b"GET /test1/test2?real=fake HTTP/1.1\r\nTest: Test\r\nContent-Length: 27\r\n\r\nTHIS IS A TEST \n\0\0TEST TEST";
    let got = parse_request(x.as_slice()).unwrap();

    assert_eq!(
        got,
        HttpRequest {
            method: Method::Get,
            raw_route: "/test1/test2?real=fake".to_owned(),
            headers: hm(&[("Test", "Test"), ("Content-Length", "27")]),
            body: Some(b"THIS IS A TEST \n\0\0TEST TEST".to_vec()),
            route: "/test1/test2".to_owned(),
            params: hm(&[("real", "fake")]),
        }
    )
}

#[test]
pub fn test_request3() {
    let x =
        b"GET /test1/test2?real=fake HTTP/1.1\r\nTest: Test\r\nContent-Length: 20\r\n\r\nTHIS IS A TEST \n\0\0TEST TEST";
    let got = parse_request(x.as_slice()).unwrap();

    assert_eq!(
        got,
        HttpRequest {
            method: Method::Get,
            raw_route: "/test1/test2?real=fake".to_owned(),
            headers: hm(&[("Test", "Test"), ("Content-Length", "20")]),
            body: Some(b"THIS IS A TEST \n\0\0TE".to_vec()),
            route: "/test1/test2".to_owned(),
            params: hm(&[("real", "fake")]),
        }
    )
}

#[test]
pub fn test_request4() {
    let x = b"GET /\0\0";
    let got = parse_request(x.as_slice());

    match got {
        Err(e) => match e {
            Error::UnsupportedVersion => {}
            _ => {
                panic!("Wrong error");
            }
        },
        _ => {
            panic!("Wrong error");
        }
    }
}

#[test]
pub fn test_request5() {
    let x = b"GET / HTTP/1.2";
    let got = parse_request(x.as_slice());

    assert!(got.is_err());
}

#[test]
fn test_parse_request_with_empty_headers() {
    let request_data = b"GET /some/route HTTP/1.1\r\n\r\n";

    let result = parse_request(request_data.as_slice());

    assert!(result.is_ok());
    let request = result.unwrap();
    assert_eq!(request.method, Method::Get);
    assert_eq!(request.raw_route, "/some/route");
    assert!(request.headers.is_empty());
    assert!(request.body.is_none());
    assert_eq!(request.route, "/some/route");
    assert!(request.params.is_empty());
}

#[test]
fn test_parse_request_with_missing_method() {
    let request_data = b"/some/route HTTP/1.1\r\nHost: example.com\r\n\r\n";

    let result = parse_request(request_data.as_slice());

    assert!(result.is_err()); // Expecting an error for missing method
}

#[test]
fn test_parse_invalid_http_request() {
    let request_data = b"INVALID REQUEST FORMAT";

    let result = parse_request(request_data.as_slice());

    assert!(result.is_err()); // Expecting an error for invalid format
}

#[test]
fn test_parse_request_with_body() {
    let request_data =
        b"POST /some/route HTTP/1.1\r\nHost: example.com\r\nContent-Length: 13\r\n\r\nHello, world!";

    let result = parse_request(request_data.as_slice());

    assert!(result.is_ok());
    let request = result.unwrap();
    assert_eq!(request.method, Method::Post);
    assert_eq!(request.raw_route, "/some/route");
    assert_eq!(request.headers.get("Host").unwrap(), "example.com");
    assert_eq!(request.body.as_deref(), Some(b"Hello, world!".as_ref()));
    assert_eq!(request.route, "/some/route");
    assert!(request.params.is_empty());
}

#[test]
fn test_parse_valid_http_request() {
    let request_data = b"GET /some/route HTTP/1.1\r\nHost: example.com\r\n\r\n";

    let result = parse_request(request_data.as_slice());

    assert!(result.is_ok());
    let request = result.unwrap();
    assert_eq!(request.method, Method::Get);
    assert_eq!(request.raw_route, "/some/route");
    assert_eq!(request.headers.get("Host").unwrap(), "example.com");
    assert!(request.body.is_none());
    assert_eq!(request.route, "/some/route");
    assert!(request.params.is_empty());
}

#[test]
fn test_invalid_method_error_carries_verb() {
    let result = parse_request(b"BREW /pot HTTP/1.1\r\n\r\n".as_slice());
    match result {
        Err(Error::InvalidMethod { recieved }) => assert_eq!(recieved, "BREW"),
        _ => panic!("wrong outcome"),
    }
}

#[test]
fn test_no_uri_error() {
    let result = parse_request(b"GET\r\n\r\n".as_slice());
    assert!(matches!(result, Err(Error::NoUri)));
}

#[test]
fn test_invalid_header_line_error() {
    let result = parse_request(b"GET / HTTP/1.1\r\nBadHeader\r\n\r\n".as_slice());
    assert!(matches!(result, Err(Error::InvalidHeader)));
}

#[test]
fn test_body_too_short_error() {
    let result = parse_request(b"GET / HTTP/1.1\r\nContent-Length: 5\r\n\r\nab".as_slice());
    match result {
        Err(Error::BodyTooShort { expt, got }) => {
            assert_eq!(expt, 5);
            assert_eq!(got, 2);
        }
        _ => panic!("wrong outcome"),
    }
}

#[test]
fn test_content_length_accessors() {
    let req =
        parse_request(b"GET / HTTP/1.1\r\nContent-Length: 2\r\nContent-Type: text/html\r\n\r\nhi".as_slice())
            .unwrap();
    assert_eq!(req.headers.content_length(), Some(2));
    assert_eq!(req.headers.content_type(), Some("text/html"));
    assert_eq!(req.headers.len(), 2);
}

#[test]
fn test_unparsable_content_length_means_no_body() {
    let req = parse_request(b"GET / HTTP/1.1\r\nContent-Length: soon\r\n\r\nhi".as_slice()).unwrap();
    assert_eq!(req.headers.content_length(), None);
    assert!(req.body.is_none());
}

#[test]
fn test_cookies_split() {
    let req = parse_request(b"GET / HTTP/1.1\r\nCookie: a=1; b=2\r\n\r\n".as_slice()).unwrap();
    let jar = req.headers.cookies();
    assert_eq!(jar.get("a").unwrap(), "1");
    assert_eq!(jar.get("b").unwrap(), "2");
    assert_eq!(jar.len(), 2);
}

#[test]
fn test_cookies_malformed_piece_empties_map() {
    let req = parse_request(b"GET / HTTP/1.1\r\nCookie: a=1; nopair\r\n\r\n".as_slice()).unwrap();
    assert!(req.headers.cookies().is_empty());
}

#[test]
fn test_write_response_stamps_content_length() {
    let resp = HttpResponse::builder().text("xyz".to_string()).build();
    let bytes = write_response(resp);
    let text = String::from_utf8(bytes).unwrap();
    assert!(text.starts_with("HTTP/1.1 200 OK"));
    assert!(text.contains("\r\nContent-Length: 3"));
    assert!(text.contains("\r\nContent-Type: text/plain"));
    assert!(text.ends_with("\r\n\r\nxyz\r\n\r\n"));
}

#[test]
fn test_write_response_no_body() {
    let resp = HttpResponse::sucess();
    let bytes = write_response(resp);
    assert_eq!(bytes, b"HTTP/1.1 200 OK\r\n\r\n".to_vec());
}

#[test]
fn test_write_response_strips_content_length_without_body() {
    let resp = HttpResponse::builder().header("Content-Length", "99".to_string()).build();
    let bytes = write_response(resp);
    assert_eq!(bytes, b"HTTP/1.1 200 OK\r\n\r\n".to_vec());

    // other caller-set headers still go out
    let resp = HttpResponse::builder()
        .header("Content-Length", "99".to_string())
        .header("X-B", "2".to_string())
        .build();
    let text = String::from_utf8(write_response(resp)).unwrap();
    assert!(!text.contains("Content-Length"));
    assert!(text.contains("\r\nX-B: 2"));
}

#[test]
fn test_status_codes_and_reasons() {
    assert_eq!(StatusCode::SwitchingProtocols.code(), 101);
    assert_eq!(StatusCode::NotFound.code(), 404);
    assert_eq!(StatusCode::ImATeapot.code(), 418);
    assert_eq!(StatusCode::ImATeapot.text_name(), "I'm a teapot");
    assert_eq!(StatusCode::InternalServerError.text_name(), "Internal Server Error");
}

#[test]
fn test_error_messages() {
    assert_eq!(Error::UnsupportedVersion.message(), "The specified HTTP version is not supported");
    assert_eq!(
        Error::BodyTooShort { expt: 10, got: 3 }.message(),
        "Body too short. Expected 10 got 3"
    );
}
