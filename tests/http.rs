use website::date::turn_system_time_to_http_date;
use website::http_types::{ContentType, HTTPError, HTTPType, ImageType, Response};
use website::request::{HTTPRequestLine, Request};

fn post_bytes(body: &[u8], declared: usize) -> Vec<u8> {
    let mut b = format!(
        "POST /api/mail HTTP/1.1\r\nHost: example.org\r\nContent-Type: application/octet-stream\r\nContent-Length: {}\r\n\r\n",
        declared
    )
    .into_bytes();
    b.extend_from_slice(body);
    b
}

#[test]
fn http_date_of_epoch() {
    assert_eq!(turn_system_time_to_http_date(0), "Thu, 01 Jan 1970 00:00:00 GMT");
}

#[test]
fn http_date_of_leap_day_and_later() {
    assert_eq!(turn_system_time_to_http_date(951782400), "Tue, 29 Feb 2000 00:00:00 GMT");
    assert_eq!(turn_system_time_to_http_date(1700000000), "Tue, 14 Nov 2023 22:13:20 GMT");
    assert_eq!(turn_system_time_to_http_date(253402300799), "Fri, 31 Dec 9999 23:59:59 GMT");
    assert_eq!(turn_system_time_to_http_date(4107542400), "Mon, 01 Mar 2100 00:00:00 GMT");
}

#[test]
fn request_line_extracts_method_and_path() {
    let l = HTTPRequestLine::from_str("GET /index.html HTTP/1.1\r\n").unwrap();
    assert_eq!(l.get_kind(), HTTPType::Get);
    assert_eq!(l.path, "/index.html");
    let l = HTTPRequestLine::from_str("POST /api/mail HTTP/1.1\r\n").unwrap();
    assert_eq!(l.get_kind(), HTTPType::Post);
    assert_eq!(l.path, "/api/mail");
}

#[test]
fn request_line_rejects_bad_method_and_missing_version() {
    assert!(matches!(HTTPRequestLine::from_str("PUT /x HTTP/1.1"), Err(HTTPError::InvalidRequestType)));
    assert!(matches!(HTTPRequestLine::from_str(""), Err(HTTPError::InvalidRequestType)));
    assert!(matches!(HTTPRequestLine::from_str("GET /x\r\n"), Err(HTTPError::InvalidVersion)));
    assert!(matches!(HTTPRequestLine::from_str("GET"), Err(HTTPError::InvalidPath)));
    assert!(matches!(HTTPRequestLine::from_str("GET x HTTP/1.1"), Err(HTTPError::InvalidPath)));
}

#[test]
fn request_line_rejects_traversal() {
    assert!(matches!(HTTPRequestLine::from_str("GET /../etc/passwd HTTP/1.1"), Err(HTTPError::InvalidPath)));
    assert!(matches!(HTTPRequestLine::from_str("GET /a/../b HTTP/1.1"), Err(HTTPError::InvalidPath)));
    assert!(matches!(HTTPRequestLine::from_str("POST /a/..x/b"), Err(HTTPError::InvalidVersion)));
}

#[test]
fn get_request_with_query() {
    let r = Request::new(b"GET /api/recentBlogPosts?skip=2&max=10&skip=3 HTTP/1.1\r\n").unwrap();
    match r {
        Request::GetRequest(g) => {
            assert_eq!(g.get_path(), "/api/recentBlogPosts");
            assert_eq!(g.get_query("skip"), Some("3"));
            assert_eq!(g.get_query("max"), Some("10"));
            assert_eq!(g.get_query("title"), None);
        }
        _ => panic!("expected a GET request"),
    }
}

#[test]
fn request_line_must_be_utf8() {
    assert!(matches!(Request::new(b"GET /\xff HTTP/1.1\r\n"), Err(HTTPError::InvalidRequestLine)));
}

#[test]
fn post_body_read_exactly_across_partial_reads() {
    let full = post_bytes(b"hello, world!!", 12);
    let mut buf: Vec<u8> = Vec::new();
    let mut complete_at = None;
    for (i, chunk) in full.chunks(7).enumerate() {
        buf.extend_from_slice(chunk);
        if !Request::needs_more(&buf) {
            complete_at = Some(i);
            break;
        }
    }
    assert!(complete_at.is_some());
    match Request::new(&buf).unwrap() {
        Request::POSTRequest(p) => {
            assert_eq!(p.get_data(), b"hello, world");
            assert_eq!(p.get_path(), "/api/mail");
            assert_eq!(p.host, "example.org");
            assert_eq!(p.get_content_type(), ContentType::OctetStream);
            assert_eq!(p.content_length, 12);
        }
        _ => panic!("expected a POST request"),
    }
    match Request::new(&full).unwrap() {
        Request::POSTRequest(p) => assert_eq!(p.get_data(), b"hello, world"),
        _ => panic!("expected a POST request"),
    }
}

#[test]
fn post_short_body_is_invalid_content() {
    let short = post_bytes(b"hello", 12);
    assert!(Request::needs_more(&short));
    assert!(matches!(Request::new(&short), Err(HTTPError::InvalidContent)));
}

#[test]
fn post_header_errors() {
    let b = b"POST /api/x HTTP/1.1\r\nContent-Type: text/nope\r\n\r\n".to_vec();
    assert!(matches!(Request::new(&b), Err(HTTPError::InvalidContentType)));
    let b = b"POST /api/x HTTP/1.1\r\nContent-Length: twelve\r\n\r\n".to_vec();
    assert!(matches!(Request::new(&b), Err(HTTPError::InvalidContentLength)));
    let b = b"POST /api/x HTTP/1.1\r\nHost: a".to_vec();
    assert!(matches!(Request::new(&b), Err(HTTPError::InvalidHeader)));
    assert!(Request::needs_more(&b));
}

#[test]
fn content_type_names() {
    assert!(matches!(ContentType::from_str("image/png"), Ok(ContentType::Image(ImageType::Png))));
    assert!(matches!(ContentType::from_str("text/css"), Ok(ContentType::Css)));
    assert!(matches!(ContentType::from_str("text/xml"), Err(HTTPError::InvalidContentType)));
    assert_eq!(ContentType::Wasm.mime(), "application/wasm");
}

#[test]
fn response_404_bytes() {
    let b = Response::empty_404(0).into_bytes();
    let expected = "HTTP/1.1 404 NOT FOUND\r\nContent-type: text/plain\r\nContent-length: 9\r\nDate: Thu, 01 Jan 1970 00:00:00 GMT\r\n\r\nNOT FOUND";
    assert_eq!(b, expected.as_bytes());
}

#[test]
fn response_405_and_modified_bytes() {
    let b = Response::new_405_error("POST", 0).into_bytes();
    let expected = "HTTP/1.1 405 METHOD NOT ALLOWED\r\nContent-type: text/plain\r\nContent-length: 18\r\nAllow: POST\r\nDate: Thu, 01 Jan 1970 00:00:00 GMT\r\n\r\nMethod Not Allowed";
    assert_eq!(b, expected.as_bytes());
    let b = Response::new_ok(ContentType::Html, Some(86400), b"<p>".to_vec()).into_bytes();
    let expected = "HTTP/1.1 200 OK\r\nContent-type: text/html\r\nContent-length: 3\r\nLast-Modified: Fri, 02 Jan 1970 00:00:00 GMT\r\n\r\n<p>";
    assert_eq!(b, expected.as_bytes());
}

#[test]
fn response_400_describes_error() {
    let r = Response::new_400_error(HTTPError::InvalidPath, 5);
    assert_eq!(r.code, 400);
    assert_eq!(r.data, b"Invalid or missing path\n");
    assert_eq!(r.current_time, Some(5));
    let r = Response::empty_500_error(1);
    assert_eq!(r.data, b"Internal Server Error");
    let r = Response::empty_ok(1);
    assert_eq!(r.data, b"OK");
}
