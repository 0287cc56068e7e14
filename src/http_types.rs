//! HTTP message types: content types, errors, responses and their
//! serialisation to bytes.

use vstd::prelude::*;
use vstd::utf8::encode_utf8;
use crate::date::{http_date, turn_system_time_to_http_date, YEAR_10000_SECS};
use crate::text::{chars_of, decimal, extend_bytes, push_decimal, push_str, str_bytes,
    str_equals, string_from_chars};

verus! {

/// How a GET request is served.
#[derive(Clone, Copy, Debug, PartialEq, Eq, Structural)]
pub enum RequestType {
    Api,
    OtherFile,
    Html,
}

/// Image formats that the server serves.
#[derive(Clone, Copy, Debug, PartialEq, Eq, Structural)]
pub enum ImageType {
    Png,
    Svg,
    XIcon,
}

/// Font formats that the server serves.
#[derive(Clone, Copy, Debug, PartialEq, Eq, Structural)]
pub enum FontType {
    Ttf,
}

/// The closed set of media types the server reads and writes.
#[derive(Clone, Copy, Debug, PartialEq, Eq, Structural)]
pub enum ContentType {
    Image(ImageType),
    Css,
    JavaScript,
    Html,
    PlainText,
    OctetStream,
    Font(FontType),
    Wasm,
    Wgsl,
}

/// The MIME name of a content type.
pub open spec fn mime_name(ct: ContentType) -> Seq<char> {
    match ct {
        ContentType::Image(ImageType::Png) => "image/png"@,
        ContentType::Image(ImageType::Svg) => "image/svg+xml"@,
        ContentType::Image(ImageType::XIcon) => "image/x-icon"@,
        ContentType::Css => "text/css"@,
        ContentType::JavaScript => "text/javascript"@,
        ContentType::Html => "text/html"@,
        ContentType::PlainText => "text/plain"@,
        ContentType::OctetStream => "application/octet-stream"@,
        ContentType::Font(FontType::Ttf) => "font/ttf"@,
        ContentType::Wasm => "application/wasm"@,
        ContentType::Wgsl => "text/wgsl"@,
    }
}

/// The content type a MIME name denotes, if any.
pub open spec fn content_type_of(s: Seq<char>) -> Option<ContentType> {
    if s == "image/png"@ { Some(ContentType::Image(ImageType::Png)) }
    else if s == "image/svg+xml"@ { Some(ContentType::Image(ImageType::Svg)) }
    else if s == "image/x-icon"@ { Some(ContentType::Image(ImageType::XIcon)) }
    else if s == "text/css"@ { Some(ContentType::Css) }
    else if s == "text/javascript"@ { Some(ContentType::JavaScript) }
    else if s == "text/html"@ { Some(ContentType::Html) }
    else if s == "text/plain"@ { Some(ContentType::PlainText) }
    else if s == "application/octet-stream"@ { Some(ContentType::OctetStream) }
    else if s == "font/ttf"@ { Some(ContentType::Font(FontType::Ttf)) }
    else if s == "application/wasm"@ { Some(ContentType::Wasm) }
    else if s == "text/wgsl"@ { Some(ContentType::Wgsl) }
    else { None }
}

impl ContentType {
    /// Decodes a `Content-Type` header value.
    pub fn from_str(s: &str) -> (r: Result<ContentType, HTTPError>)
        ensures
            r == (match content_type_of(s@) {
                Some(ct) => Ok(ct),
                None => Err(HTTPError::InvalidContentType),
            }),
    {
        if str_equals(s, "image/png") { Ok(ContentType::Image(ImageType::Png)) }
        else if str_equals(s, "image/svg+xml") { Ok(ContentType::Image(ImageType::Svg)) }
        else if str_equals(s, "image/x-icon") { Ok(ContentType::Image(ImageType::XIcon)) }
        else if str_equals(s, "text/css") { Ok(ContentType::Css) }
        else if str_equals(s, "text/javascript") { Ok(ContentType::JavaScript) }
        else if str_equals(s, "text/html") { Ok(ContentType::Html) }
        else if str_equals(s, "text/plain") { Ok(ContentType::PlainText) }
        else if str_equals(s, "application/octet-stream") { Ok(ContentType::OctetStream) }
        else if str_equals(s, "font/ttf") { Ok(ContentType::Font(FontType::Ttf)) }
        else if str_equals(s, "application/wasm") { Ok(ContentType::Wasm) }
        else if str_equals(s, "text/wgsl") { Ok(ContentType::Wgsl) }
        else { Err(HTTPError::InvalidContentType) }
    }

    /// The MIME name, as written in a `Content-type` header.
    pub fn mime(&self) -> (r: &'static str)
        ensures
            r@ == mime_name(*self),
    {
        match self {
            ContentType::Image(ImageType::Png) => "image/png",
            ContentType::Image(ImageType::Svg) => "image/svg+xml",
            ContentType::Image(ImageType::XIcon) => "image/x-icon",
            ContentType::Css => "text/css",
            ContentType::JavaScript => "text/javascript",
            ContentType::Html => "text/html",
            ContentType::PlainText => "text/plain",
            ContentType::OctetStream => "application/octet-stream",
            ContentType::Font(FontType::Ttf) => "font/ttf",
            ContentType::Wasm => "application/wasm",
            ContentType::Wgsl => "text/wgsl",
        }
    }
}

/// The two request methods the server accepts.
#[derive(Clone, Copy, Debug, PartialEq, Eq, Structural)]
pub enum HTTPType {
    Post,
    Get,
}

/// Why a request could not be parsed.
#[derive(Clone, Copy, Debug, PartialEq, Eq, Structural)]
pub enum HTTPError {
    InvalidPath,
    InvalidRequestType,
    InvalidVersion,
    InvalidRequestLine,
    InvalidHeader,
    InvalidContentType,
    InvalidContentLength,
    InvalidContent,
}

/// The human-readable text of a parse error, as sent in a 400 body.
pub open spec fn error_message(e: HTTPError) -> Seq<char> {
    match e {
        HTTPError::InvalidRequestLine => "Request line was invalid\n"@,
        HTTPError::InvalidRequestType => "Invalid or missing request type\n"@,
        HTTPError::InvalidVersion => "Invalid or missing HTTP version\n"@,
        HTTPError::InvalidPath => "Invalid or missing path\n"@,
        HTTPError::InvalidHeader => "Invalid or missing header\n"@,
        HTTPError::InvalidContentType => "Invalid or missing Content-Type\n"@,
        HTTPError::InvalidContentLength => "Invalid or missing Content-Length\n"@,
        HTTPError::InvalidContent => "Content to short for Content-Length or invalid Content\n"@,
    }
}

impl HTTPError {
    /// The human-readable text of the error.
    pub fn message(&self) -> (r: &'static str)
        ensures
            r@ == error_message(*self),
    {
        match self {
            HTTPError::InvalidRequestLine => "Request line was invalid\n",
            HTTPError::InvalidRequestType => "Invalid or missing request type\n",
            HTTPError::InvalidVersion => "Invalid or missing HTTP version\n",
            HTTPError::InvalidPath => "Invalid or missing path\n",
            HTTPError::InvalidHeader => "Invalid or missing header\n",
            HTTPError::InvalidContentType => "Invalid or missing Content-Type\n",
            HTTPError::InvalidContentLength => "Invalid or missing Content-Length\n",
            HTTPError::InvalidContent => "Content to short for Content-Length or invalid Content\n",
        }
    }
}

/// The status codes the server produces.
pub open spec fn is_known_status(code: u16) -> bool {
    code == 200 || code == 400 || code == 404 || code == 405 || code == 415 || code == 429
        || code == 500
}

/// The status line of a known status code.
pub open spec fn status_line(code: u16) -> Seq<char> {
    if code == 200 { "HTTP/1.1 200 OK"@ }
    else if code == 400 { "HTTP/1.1 400 BAD REQUEST"@ }
    else if code == 404 { "HTTP/1.1 404 NOT FOUND"@ }
    else if code == 405 { "HTTP/1.1 405 METHOD NOT ALLOWED"@ }
    else if code == 415 { "HTTP/1.1 415 UNSUPPORTED MEDIA TYPE"@ }
    else if code == 429 { "HTTP/1.1 429 TOO MANY REQUESTS"@ }
    else { "HTTP/1.1 500 INTERNAL SERVER ERROR"@ }
}

fn make_code(code: u16) -> (r: &'static str)
    requires
        is_known_status(code),
    ensures
        r@ == status_line(code),
{
    if code == 200 { "HTTP/1.1 200 OK" }
    else if code == 400 { "HTTP/1.1 400 BAD REQUEST" }
    else if code == 404 { "HTTP/1.1 404 NOT FOUND" }
    else if code == 405 { "HTTP/1.1 405 METHOD NOT ALLOWED" }
    else if code == 415 { "HTTP/1.1 415 UNSUPPORTED MEDIA TYPE" }
    else if code == 429 { "HTTP/1.1 429 TOO MANY REQUESTS" }
    else { "HTTP/1.1 500 INTERNAL SERVER ERROR" }
}

/// A response, built per request and serialised once.  Times are seconds
/// since the Unix epoch.
#[derive(Debug)]
pub struct Response {
    pub code: u16,
    pub content_type: ContentType,
    pub modified_date: Option<u64>,
    pub current_time: Option<u64>,
    pub allowed: Option<String>,
    pub data: Vec<u8>,
}

/// A response is sendable when its code is known and its times have HTTP
/// dates.
pub open spec fn sendable(r: &Response) -> bool {
    &&& is_known_status(r.code)
    &&& (r.modified_date matches Some(t) ==> t < YEAR_10000_SECS)
    &&& (r.current_time matches Some(t) ==> t < YEAR_10000_SECS)
}

/// The first header lines: status, content type and content length.
pub open spec fn base_header_text(r: &Response) -> Seq<char> {
    status_line(r.code) + "\r\nContent-type: "@ + mime_name(r.content_type)
        + "\r\nContent-length: "@ + decimal(r.data@.len()) + "\r\n"@
}

/// The `Last-Modified` line, if the response has a modification date.
pub open spec fn modified_text(r: &Response) -> Seq<char> {
    match r.modified_date {
        Some(t) => "Last-Modified: "@ + http_date(t as int) + "\r\n"@,
        None => Seq::empty(),
    }
}

/// The `Allow` line, if the response advertises an accepted method.
pub open spec fn allowed_text(r: &Response) -> Seq<char> {
    match r.allowed {
        Some(a) => "Allow: "@ + a@ + "\r\n"@,
        None => Seq::empty(),
    }
}

/// The `Date` line if the response is dated, then the blank line.
pub open spec fn date_text(r: &Response) -> Seq<char> {
    match r.current_time {
        Some(t) => "Date: "@ + http_date(t as int) + "\r\n\r\n"@,
        None => "\r\n"@,
    }
}

/// The header block of a response, blank line included.
pub open spec fn header_text(r: &Response) -> Seq<char> {
    base_header_text(r) + modified_text(r) + allowed_text(r) + date_text(r)
}

/// The bytes sent for a response: the UTF-8 header block, then the body
/// unchanged.
pub open spec fn response_bytes(r: &Response) -> Seq<u8> {
    encode_utf8(header_text(r)) + r.data@
}

impl Response {
    /// A response with every field given.
    pub fn new(code: u16, content_type: ContentType, modified_date: Option<u64>,
        current_time: Option<u64>, data: Vec<u8>) -> (r: Self)
        ensures
            r.code == code,
            r.content_type == content_type,
            r.modified_date == modified_date,
            r.current_time == current_time,
            r.allowed is None,
            r.data == data,
    {
        Response { code, content_type, modified_date, current_time, allowed: None, data }
    }

    /// A 200 response carrying `data`.
    pub fn new_ok(content_type: ContentType, modified_date: Option<u64>, data: Vec<u8>) -> (r: Self)
        ensures
            r.code == 200,
            r.content_type == content_type,
            r.modified_date == modified_date,
            r.current_time is None,
            r.allowed is None,
            r.data == data,
    {
        Response::new(200, content_type, modified_date, None, data)
    }

    /// The plain-text 404 response, dated `now`.
    pub fn empty_404(now: u64) -> (r: Self)
        ensures
            r.code == 404,
            r.content_type == ContentType::PlainText,
            r.modified_date is None,
            r.current_time == Some(now),
            r.allowed is None,
            r.data@ == encode_utf8("NOT FOUND"@),
    {
        Response::new(404, ContentType::PlainText, None, Some(now), str_bytes("NOT FOUND"))
    }

    /// The plain-text 200 response, dated `now`.
    pub fn empty_ok(now: u64) -> (r: Self)
        ensures
            r.code == 200,
            r.content_type == ContentType::PlainText,
            r.modified_date is None,
            r.current_time == Some(now),
            r.allowed is None,
            r.data@ == encode_utf8("OK"@),
    {
        Response::new(200, ContentType::PlainText, None, Some(now), str_bytes("OK"))
    }

    /// The plain-text 500 response, dated `now`.
    pub fn empty_500_error(now: u64) -> (r: Self)
        ensures
            r.code == 500,
            r.content_type == ContentType::PlainText,
            r.modified_date is None,
            r.current_time == Some(now),
            r.allowed is None,
            r.data@ == encode_utf8("Internal Server Error"@),
    {
        Response::new(500, ContentType::PlainText, None, Some(now), str_bytes("Internal Server Error"))
    }

    /// The 400 response describing a parse error, dated `now`.
    pub fn new_400_error(error: HTTPError, now: u64) -> (r: Self)
        ensures
            r.code == 400,
            r.content_type == ContentType::PlainText,
            r.modified_date is None,
            r.current_time == Some(now),
            r.allowed is None,
            r.data@ == encode_utf8(error_message(error)),
    {
        Response::new(400, ContentType::PlainText, None, Some(now), str_bytes(error.message()))
    }

    /// The 405 response advertising the accepted method, dated `now`.
    pub fn new_405_error(accepted: &str, now: u64) -> (r: Self)
        ensures
            r.code == 405,
            r.content_type == ContentType::PlainText,
            r.modified_date is None,
            r.current_time == Some(now),
            r.allowed matches Some(a) && a@ == accepted@,
            r.data@ == encode_utf8("Method Not Allowed"@),
    {
        Response {
            code: 405,
            content_type: ContentType::PlainText,
            modified_date: None,
            current_time: Some(now),
            allowed: Some(string_from_chars(chars_of(accepted).as_slice())),
            data: str_bytes("Method Not Allowed"),
        }
    }

    /// Serialises the response: status line, headers, blank line, body.
    pub fn into_bytes(self) -> (r: Vec<u8>)
        requires
            sendable(&self),
        ensures
            r@ == response_bytes(&self),
    {
        let mut h: Vec<char> = Vec::new();
        self.push_base_header(&mut h);
        self.push_modified(&mut h);
        self.push_allowed(&mut h);
        self.push_date(&mut h);
        assert(h@ =~= header_text(&self));
        let header = string_from_chars(h.as_slice());
        let mut out = str_bytes(header.as_str());
        extend_bytes(&mut out, self.data.as_slice());
        out
    }

    fn push_base_header(&self, h: &mut Vec<char>)
        requires
            is_known_status(self.code),
        ensures
            final(h)@ == old(h)@ + base_header_text(self),
    {
        push_str(h, make_code(self.code));
        push_str(h, "\r\nContent-type: ");
        push_str(h, self.content_type.mime());
        push_str(h, "\r\nContent-length: ");
        push_decimal(h, self.data.len() as u64);
        push_str(h, "\r\n");
        assert(final(h)@ =~= old(h)@ + base_header_text(self));
    }

    fn push_modified(&self, h: &mut Vec<char>)
        requires
            sendable(self),
        ensures
            final(h)@ == old(h)@ + modified_text(self),
    {
        match &self.modified_date {
            Some(t) => {
                push_str(h, "Last-Modified: ");
                push_str(h, turn_system_time_to_http_date(*t).as_str());
                push_str(h, "\r\n");
            },
            None => {},
        }
        assert(final(h)@ =~= old(h)@ + modified_text(self));
    }

    fn push_allowed(&self, h: &mut Vec<char>)
        ensures
            final(h)@ == old(h)@ + allowed_text(self),
    {
        match &self.allowed {
            Some(a) => {
                push_str(h, "Allow: ");
                push_str(h, a.as_str());
                push_str(h, "\r\n");
            },
            None => {},
        }
        assert(final(h)@ =~= old(h)@ + allowed_text(self));
    }

    fn push_date(&self, h: &mut Vec<char>)
        requires
            sendable(self),
        ensures
            final(h)@ == old(h)@ + date_text(self),
    {
        match &self.current_time {
            Some(t) => {
                push_str(h, "Date: ");
                push_str(h, turn_system_time_to_http_date(*t).as_str());
                push_str(h, "\r\n\r\n");
            },
            None => {
                push_str(h, "\r\n");
            },
        }
        assert(final(h)@ =~= old(h)@ + date_text(self));
    }
}

} // verus!
