//! The API endpoints' request handling: the test endpoint, blog listings
//! and search, and the checks on a contact-mail request.

use vstd::prelude::*;
use vstd::utf8::encode_utf8;
use crate::blog::{Cbmd, filter_by_title, listing_bytes, page, record_seq, serialize_listing,
    sort_by_timestamp_desc, sorted_newest_first, unescape_spaces, with_title, clean_url_spaces};
use crate::http_types::{ContentType, HTTPError, Response, error_message};
use crate::request::{GETRequest, Request, pair_views, query_value};
use crate::text::{chars_of, parse_usize, parse_usize_chars, slice_bytes, str_bytes};

verus! {

/// The test endpoint: 200 with the plain-text body `Test api!`.
pub fn test_api(_req: &Request) -> (r: Response)
    ensures
        r.code == 200,
        r.content_type == ContentType::PlainText,
        r.modified_date is None,
        r.current_time is None,
        r.allowed is None,
        r.data@ == encode_utf8("Test api!"@),
{
    Response::new_ok(ContentType::PlainText, None, str_bytes("Test api!"))
}

/// The paging of a recent-posts request: `skip` defaults to 0, `max` to 5
/// and is capped at 50; a value that is not a number is an `InvalidPath`.
pub open spec fn recent_params(query: Seq<(Seq<char>, Seq<char>)>) -> Result<(nat, nat), HTTPError> {
    let skip = match query_value(query, "skip"@) {
        None => Some(0nat),
        Some(v) => parse_usize(v),
    };
    let max = match query_value(query, "max"@) {
        None => Some(5nat),
        Some(v) => match parse_usize(v) {
            Some(n) => Some(if n > 50 { 50nat } else { n }),
            None => None,
        },
    };
    match (skip, max) {
        (Some(s), Some(m)) => Ok((s, m)),
        _ => Err(HTTPError::InvalidPath),
    }
}

fn query_number(req: &GETRequest, key: &str, default: usize) -> (r: Result<usize, HTTPError>)
    ensures
        r matches Ok(n) ==> match query_value(pair_views(req.query@), key@) {
            None => n == default,
            Some(v) => parse_usize(v) == Some(n as nat),
        },
        r is Err ==> (query_value(pair_views(req.query@), key@) matches Some(v) && parse_usize(v) is None),
        r matches Err(e) ==> e == HTTPError::InvalidPath,
{
    match req.get_query(key) {
        None => Ok(default),
        Some(v) => match parse_usize_chars(chars_of(v).as_slice()) {
            Some(n) => Ok(n),
            None => Err(HTTPError::InvalidPath),
        },
    }
}

/// The paging of a recent-posts request.
pub fn recent_posts_params(req: &GETRequest) -> (r: Result<(usize, usize), HTTPError>)
    ensures
        r matches Ok((s, m)) ==> recent_params(pair_views(req.query@)) == Ok::<(nat, nat), HTTPError>((s as nat, m as nat)),
        r matches Err(e) ==> recent_params(pair_views(req.query@)) == Err::<(nat, nat), HTTPError>(e),
{
    proof {
        reveal_strlit("skip");
        reveal_strlit("max");
    }
    let skip = query_number(req, "skip", 0);
    let max = query_number(req, "max", 5);
    match (skip, max) {
        (Ok(s), Ok(m)) => Ok((s, if m > 50 { 50 } else { m })),
        _ => Err(HTTPError::InvalidPath),
    }
}

/// The listing of the newest posts: GET only (405 otherwise); the paging
/// comes from the query (400 when malformed); the records are sorted newest
/// first and the requested page is sent as an octet stream.
pub fn get_recent_blog_posts(req: &Request, records: Vec<Cbmd>, now: u64) -> (r: Response)
    ensures
        req.view() is Post ==> (r.code == 405 && (r.allowed matches Some(a) && a@ == "GET"@)),
        req matches Request::GetRequest(g) ==> match recent_params(pair_views(g.query@)) {
            Err(e) => r.code == 400 && r.data@ == encode_utf8(error_message(e)),
            Ok((skip, max)) => r.code == 200 && r.content_type == ContentType::OctetStream
                && exists|s: Seq<Cbmd>| sorted_newest_first(s) && s.to_multiset() == records@.to_multiset()
                    && r.data@ == listing_bytes(record_seq(page(s, skip as int, max as int))),
        },
{
    let g = match req {
        Request::GetRequest(g) => g,
        Request::POSTRequest(_) => return Response::new_405_error("GET", now),
    };
    match recent_posts_params(g) {
        Err(e) => Response::new_400_error(e, now),
        Ok((skip, max)) => {
            let sorted = sort_by_timestamp_desc(records);
            let data = serialize_listing(&sorted, skip, max);
            Response::new(200, ContentType::OctetStream, None, None, data)
        },
    }
}

/// The search of posts by title: GET only (405 otherwise); the `title`
/// query is required (400 otherwise) and `%20` in it stands for a space;
/// the first eight matching records are sent as an octet stream.
pub fn search_blog_posts(req: &Request, records: Vec<Cbmd>, now: u64) -> (r: Response)
    ensures
        req.view() is Post ==> (r.code == 405 && (r.allowed matches Some(a) && a@ == "GET"@)),
        req matches Request::GetRequest(g) ==> match query_value(pair_views(g.query@), "title"@) {
            None => r.code == 400 && r.data@ == encode_utf8(error_message(HTTPError::InvalidPath)),
            Some(t) => r.code == 200 && r.content_type == ContentType::OctetStream
                && r.data@ == listing_bytes(record_seq(page(with_title(records@, unescape_spaces(t)), 0, 8))),
        },
{
    let g = match req {
        Request::GetRequest(g) => g,
        Request::POSTRequest(_) => return Response::new_405_error("GET", now),
    };
    match g.get_query("title") {
        None => Response::new_400_error(HTTPError::InvalidPath, now),
        Some(t) => {
            let needle = clean_url_spaces(t);
            let found = filter_by_title(records, needle.as_str());
            let data = serialize_listing(&found, 0, 8);
            Response::new(200, ContentType::OctetStream, None, None, data)
        },
    }
}

/// The sender address and message of a contact-mail request.
pub struct MailContent {
    pub email: Vec<u8>,
    pub message: Vec<u8>,
}

/// A contact-mail body: one length byte and the sender's address, then a
/// two-byte little-endian length and the message.  The error is the text
/// of the 400 response.
pub open spec fn decode_mail_body(b: Seq<u8>) -> Result<(Seq<u8>, Seq<u8>), Seq<char>> {
    if b.len() < 1 {
        Err("Email Length Not Found"@)
    } else if b.len() < 1 + b[0] {
        Err("Email Not Found"@)
    } else if b.len() < 3 + b[0] {
        Err("Message Length Not Found"@)
    } else {
        let e = 1 + b[0] as int;
        let ml = b[e] as int + 256 * b[e + 1] as int;
        if b.len() < e + 2 + ml {
            Err("Message Not Found"@)
        } else {
            Ok((b.subrange(1, e), b.subrange(e + 2, e + 2 + ml)))
        }
    }
}

fn plain_400(msg: &str) -> (r: Response)
    ensures
        r.allowed is None,
        r.code == 400,
        r.content_type == ContentType::PlainText,
        r.data@ == encode_utf8(msg@),
        r.current_time is None,
        r.modified_date is None,
{
    Response::new(400, ContentType::PlainText, None, None, str_bytes(msg))
}

/// Checks a contact-mail request before anything is sent: it must be a
/// POST (405 otherwise) of an octet stream (415 otherwise) whose body
/// decodes (400 with the reason otherwise) to a non-empty message (400
/// otherwise).
pub fn check_mail_request(req: &Request, now: u64) -> (r: Result<MailContent, Response>)
    ensures
        req.view() is Get ==> (r matches Err(resp) && resp.code == 405
            && resp.content_type == ContentType::PlainText && resp.modified_date is None
            && resp.current_time == Some(now) && (resp.allowed matches Some(a) && a@ == "POST"@)
            && resp.data@ == encode_utf8("Method Not Allowed"@)),
        req matches Request::POSTRequest(p) ==> {
            if p.content_type != ContentType::OctetStream {
                (r matches Err(resp) && resp.code == 415 && resp.content_type == ContentType::PlainText
                    && resp.modified_date is None && resp.current_time is None && resp.allowed is None
                    && resp.data@ == encode_utf8("Unssuported Media Type"@))
            } else {
                match decode_mail_body(p.content@) {
                    Err(msg) => (r matches Err(resp) && resp.code == 400 && resp.content_type == ContentType::PlainText
                        && resp.allowed is None && resp.data@ == encode_utf8(msg)),
                    Ok((email, message)) => if message.len() == 0 {
                        (r matches Err(resp) && resp.code == 400 && resp.current_time == Some(now)
                            && resp.data@ == encode_utf8(error_message(HTTPError::InvalidContentLength)))
                    } else {
                        (r matches Ok(m) && m.email@ == email && m.message@ == message)
                    },
                }
            }
        },
{
    let p = match req {
        Request::GetRequest(_) => return Err(Response::new_405_error("POST", now)),
        Request::POSTRequest(p) => p,
    };
    if p.get_content_type() != ContentType::OctetStream {
        return Err(Response::new(415, ContentType::PlainText, None, None, str_bytes("Unssuported Media Type")));
    }
    let b = p.get_data();
    if b.len() < 1 {
        return Err(plain_400("Email Length Not Found"));
    }
    let e = 1 + b[0] as usize;
    if b.len() < e {
        return Err(plain_400("Email Not Found"));
    }
    if b.len() < e + 2 {
        return Err(plain_400("Message Length Not Found"));
    }
    let ml = b[e] as usize + 256 * b[e + 1] as usize;
    if b.len() - e - 2 < ml {
        return Err(plain_400("Message Not Found"));
    }
    let email = slice_bytes(b, 1, e);
    let message = slice_bytes(b, e + 2, e + 2 + ml);
    if message.len() == 0 {
        return Err(Response::new_400_error(HTTPError::InvalidContentLength, now));
    }
    Ok(MailContent { email, message })
}


/// The text of the mail sent to the site's owner for a contact request.
pub open spec fn contact_text(email: Seq<char>, message: Seq<char>) -> Seq<char> {
    "contacter email: "@ + email + ",\n\n"@ + message
}

/// A mailbox as `Name <address>`.
pub open spec fn mailbox_text(name: Seq<char>, address: Seq<char>) -> Seq<char> {
    name + " <"@ + address + ">"@
}

/// The text of the reply sent to the person who made contact.
pub open spec fn thanks_text() -> Seq<char> {
    "thanks for reaching out I will try to be in contact with you shortly"@
}

/// The texts of the two mails a contact request sends.
pub struct MailTexts {
    /// The sender's address, decoded from the request.
    pub email: String,
    /// To the owner: the sender's address and message.
    pub to_owner: String,
    /// The owner's mailbox.
    pub owner_mailbox: String,
    /// The sender's mailbox.
    pub client_mailbox: String,
    /// To the sender: a thank-you.
    pub to_client: String,
}

impl MailContent {
    /// The texts of the mails for this request; `owner` is the site owner's
    /// address.  Bytes that are not UTF-8 are decoded lossily.
    pub fn texts(&self, owner: &str) -> (r: MailTexts)
        ensures
            r.email@ == crate::blog::lossy_utf8(self.email@),
            r.to_owner@ == contact_text(crate::blog::lossy_utf8(self.email@), crate::blog::lossy_utf8(self.message@)),
            r.owner_mailbox@ == mailbox_text("Charlie Crabtree"@, owner@),
            r.client_mailbox@ == mailbox_text("person"@, crate::blog::lossy_utf8(self.email@)),
            r.to_client@ == thanks_text(),
    {
        let email = crate::blog::lossy_string(self.email.as_slice());
        let message = crate::blog::lossy_string(self.message.as_slice());
        let mut to_owner: Vec<char> = Vec::new();
        crate::text::push_str(&mut to_owner, "contacter email: ");
        crate::text::push_str(&mut to_owner, email.as_str());
        crate::text::push_str(&mut to_owner, ",\n\n");
        crate::text::push_str(&mut to_owner, message.as_str());
        MailTexts {
            to_owner: crate::text::string_from_chars(to_owner.as_slice()),
            owner_mailbox: mailbox("Charlie Crabtree", owner),
            client_mailbox: mailbox("person", email.as_str()),
            to_client: crate::text::string_from_chars(chars_of("thanks for reaching out I will try to be in contact with you shortly").as_slice()),
            email,
        }
    }
}

fn mailbox(name: &str, address: &str) -> (r: String)
    ensures
        r@ == mailbox_text(name@, address@),
{
    let mut v = chars_of(name);
    crate::text::push_str(&mut v, " <");
    crate::text::push_str(&mut v, address);
    crate::text::push_str(&mut v, ">");
    crate::text::string_from_chars(v.as_slice())
}

} // verus!
