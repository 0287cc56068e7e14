use website::apis::{ApiDecision, ApiRegister};
use website::blog::Cbmd;
use website::handlers::{check_mail_request, get_recent_blog_posts, search_blog_posts, test_api};
use website::http_types::{ContentType, HTTPError};
use website::request::Request;
use website::router::{request_type_of, static_content_type};
use website::http_types::{RequestType, Response};

fn rec(title: &str, ts: u64) -> Cbmd {
    Cbmd::new(title.to_string(), "i".to_string(), "/blog/p".to_string(), ts)
}

#[test]
fn end_to_end_test_api() {
    let req = Request::new(b"GET /api/test HTTP/1.1\r\n\r\n").unwrap();
    assert_eq!(request_type_of(req.get_path()), RequestType::Api);
    let mut reg = ApiRegister::new();
    reg.register_api("/api/test", 6, 360);
    assert_eq!(reg.dispatch(1, req.get_path(), 0), ApiDecision::Run);
    let bytes = test_api(&req).into_bytes();
    let expected = "HTTP/1.1 200 OK\r\nContent-type: text/plain\r\nContent-length: 9\r\n\r\nTest api!";
    assert_eq!(bytes, expected.as_bytes());
}

#[test]
fn end_to_end_unknown_static_file() {
    let req = Request::new(b"GET /does-not-exist.xyz HTTP/1.1\r\n").unwrap();
    assert_eq!(request_type_of(req.get_path()), RequestType::OtherFile);
    assert_eq!(static_content_type(req.get_path()), None);
    assert_eq!(Response::new_400_error(HTTPError::InvalidPath, 0).code, 400);
}

#[test]
fn recent_posts_newest_first_page() {
    let req = Request::new(b"GET /api/recentBlogPosts?max=2 HTTP/1.1\r\n").unwrap();
    let r = get_recent_blog_posts(&req, vec![rec("old", 1), rec("new", 3), rec("mid", 2)], 0);
    assert_eq!(r.code, 200);
    assert_eq!(r.content_type, ContentType::OctetStream);
    let a = rec("new", 3).serialize();
    let b = rec("mid", 2).serialize();
    let mut expected = vec![2u8, a.len() as u8, 0];
    expected.extend_from_slice(&a);
    expected.extend_from_slice(&[b.len() as u8, 0]);
    expected.extend_from_slice(&b);
    assert_eq!(r.data, expected);
    let bad = Request::new(b"GET /api/recentBlogPosts?skip=x HTTP/1.1\r\n").unwrap();
    assert_eq!(get_recent_blog_posts(&bad, vec![], 0).code, 400);
}

#[test]
fn search_posts_by_title() {
    let req = Request::new(b"GET /api/searchBlog?title=My%20Post HTTP/1.1\r\n").unwrap();
    let r = search_blog_posts(&req, vec![rec("My Post", 1), rec("Other", 2)], 0);
    assert_eq!(r.code, 200);
    assert_eq!(r.data[0], 1);
    let none = Request::new(b"GET /api/searchBlog HTTP/1.1\r\n").unwrap();
    assert_eq!(search_blog_posts(&none, vec![], 0).code, 400);
    let post = Request::new(b"POST /api/searchBlog HTTP/1.1\r\nHost: x\r\n\r\n").unwrap();
    assert_eq!(search_blog_posts(&post, vec![], 0).code, 405);
}

fn mail_request(ct: &str, body: &[u8]) -> Request {
    let mut b = format!("POST /api/mail HTTP/1.1\r\nContent-Type: {}\r\nContent-Length: {}\r\n\r\n", ct, body.len()).into_bytes();
    b.extend_from_slice(body);
    Request::new(&b).unwrap()
}

#[test]
fn mail_request_checks() {
    let mut body = vec![5u8];
    body.extend_from_slice(b"a@b.c");
    body.extend_from_slice(&[3, 0]);
    body.extend_from_slice(b"hey");
    let m = check_mail_request(&mail_request("application/octet-stream", &body), 0).ok().unwrap();
    assert_eq!(m.email, b"a@b.c");
    assert_eq!(m.message, b"hey");
    let t = m.texts("me@site.org");
    assert_eq!(t.email, "a@b.c");
    assert_eq!(t.to_owner, "contacter email: a@b.c,\n\nhey");
    assert_eq!(t.owner_mailbox, "Charlie Crabtree <me@site.org>");
    assert_eq!(t.client_mailbox, "person <a@b.c>");
    assert_eq!(t.to_client, "thanks for reaching out I will try to be in contact with you shortly");
    let get = Request::new(b"GET /api/mail HTTP/1.1\r\n").unwrap();
    let r = check_mail_request(&get, 0).err().unwrap();
    assert_eq!(r.code, 405);
    assert_eq!(r.allowed.as_deref(), Some("POST"));
    assert_eq!(r.data, b"Method Not Allowed");
    let r = check_mail_request(&mail_request("text/plain", &body), 0).err().unwrap();
    assert_eq!(r.code, 415);
    assert_eq!(r.data, b"Unssuported Media Type");
    assert_eq!(r.content_type, ContentType::PlainText);
    let e = check_mail_request(&mail_request("application/octet-stream", &body[..3]), 0).err().unwrap();
    assert_eq!(e.code, 400);
    assert_eq!(e.data, b"Email Not Found");
    let e = check_mail_request(&mail_request("application/octet-stream", &[]), 0).err().unwrap();
    assert_eq!(e.data, b"Email Length Not Found");
    let empty_msg = vec![1u8, b'x', 0, 0];
    let e = check_mail_request(&mail_request("application/octet-stream", &empty_msg), 0).err().unwrap();
    assert_eq!(e.data, b"Invalid or missing Content-Length\n");
}
