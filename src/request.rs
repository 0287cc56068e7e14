//! Parsing of requests: the request line, the query string, and for POST the
//! header block and a length-delimited body.

use vstd::prelude::*;
use vstd::utf8::{decode_utf8, valid_utf8};
use crate::http_types::{content_type_of, ContentType, HTTPError, HTTPType};
use crate::text::{find_byte, find_byte_from, slice_bytes, utf8_string, chars_of, chars_equal, find_char, find_char_from, is_whitespace_char, is_ws,
    matches_at, parse_usize, parse_usize_chars, slice_chars, string_from_chars};

verus! {

/// The first index at or after `i` that is not white space.
pub open spec fn skip_ws(c: Seq<char>, i: int) -> int
    decreases c.len() - i,
{
    if 0 <= i < c.len() && is_ws(c[i]) { skip_ws(c, i + 1) } else { i }
}

/// The end of the token that starts at `i`: the next white space or the end.
pub open spec fn token_end(c: Seq<char>, i: int) -> int
    decreases c.len() - i,
{
    if 0 <= i < c.len() && !is_ws(c[i]) { token_end(c, i + 1) } else { i }
}

/// Whether `s` holds `pat` somewhere.
pub open spec fn contains(s: Seq<char>, pat: Seq<char>) -> bool {
    exists|i: int| 0 <= i && i + pat.len() <= s.len() && #[trigger] s.subrange(i, i + pat.len()) == pat
}

/// The method a request-line token names.
pub open spec fn method_of(m: Seq<char>) -> Option<HTTPType> {
    if m == "GET"@ { Some(HTTPType::Get) } else if m == "POST"@ { Some(HTTPType::Post) } else { None }
}

/// A request line split on white space into method, path and version: the
/// method must be `GET` or `POST`, the path must start with `/` and must not
/// hold `../`, and a version token must follow.
pub open spec fn parse_request_line(c: Seq<char>) -> Result<(HTTPType, Seq<char>), HTTPError> {
    let s0 = skip_ws(c, 0);
    let e0 = token_end(c, s0);
    let s1 = skip_ws(c, e0);
    let e1 = token_end(c, s1);
    let s2 = skip_ws(c, e1);
    let path = c.subrange(s1, e1);
    if s0 >= c.len() || method_of(c.subrange(s0, e0)) is None {
        Err(HTTPError::InvalidRequestType)
    } else if s1 >= c.len() || path[0] != '/' || contains(path, "../"@) {
        Err(HTTPError::InvalidPath)
    } else if s2 >= c.len() {
        Err(HTTPError::InvalidVersion)
    } else {
        Ok((method_of(c.subrange(s0, e0))->0, path))
    }
}

proof fn lemma_skip_ws_stops(c: Seq<char>, i: int)
    requires
        0 <= i,
    ensures
        i <= skip_ws(c, i),
        skip_ws(c, i) < c.len() ==> !is_ws(c[skip_ws(c, i)]),
        i <= c.len() ==> skip_ws(c, i) <= c.len(),
        forall|k: int| i <= k < skip_ws(c, i) ==> is_ws(#[trigger] c[k]),
    decreases c.len() - i,
{
    if 0 <= i < c.len() && is_ws(c[i]) {
        lemma_skip_ws_stops(c, i + 1);
    }
}

proof fn lemma_token_end_stops(c: Seq<char>, i: int)
    requires
        0 <= i,
    ensures
        i <= token_end(c, i),
        token_end(c, i) < c.len() ==> is_ws(c[token_end(c, i)]),
        i <= c.len() ==> token_end(c, i) <= c.len(),
        forall|k: int| i <= k < token_end(c, i) ==> !is_ws(#[trigger] c[k]),
    decreases c.len() - i,
{
    if 0 <= i < c.len() && !is_ws(c[i]) {
        lemma_token_end_stops(c, i + 1);
    }
}

fn skip_ws_from(c: &[char], i: usize) -> (r: usize)
    requires
        i <= c@.len(),
    ensures
        r as int == skip_ws(c@, i as int),
        i <= r <= c@.len(),
{
    let mut j = i;
    while j < c.len() && is_whitespace_char(c[j])
        invariant
            i <= j <= c@.len(),
            skip_ws(c@, j as int) == skip_ws(c@, i as int),
        decreases c@.len() - j,
    {
        j = j + 1;
    }
    j
}

fn token_end_from(c: &[char], i: usize) -> (r: usize)
    requires
        i <= c@.len(),
    ensures
        r as int == token_end(c@, i as int),
        i <= r <= c@.len(),
{
    let mut j = i;
    while j < c.len() && !is_whitespace_char(c[j])
        invariant
            i <= j <= c@.len(),
            token_end(c@, j as int) == token_end(c@, i as int),
        decreases c@.len() - j,
    {
        j = j + 1;
    }
    j
}

pub fn contains_chars(s: &[char], pat: &[char]) -> (r: bool)
    ensures
        r == contains(s@, pat@),
{
    let mut i: usize = 0;
    while i < s.len()
        invariant
            i <= s@.len(),
            forall|k: int| 0 <= k < i ==> !(k + pat@.len() <= s@.len()
                && #[trigger] s@.subrange(k, k + pat@.len()) == pat@),
        decreases s@.len() - i,
    {
        if matches_at(s, i, pat) {
            return true;
        }
        i = i + 1;
    }
    if pat.len() == 0 {
        assert(s@.subrange(s@.len() as int, s@.len() as int + pat@.len()) =~= pat@);
        return true;
    }
    false
}

/// A parsed request line.
#[derive(Debug)]
pub struct HTTPRequestLine {
    pub kind: HTTPType,
    pub path: String,
}

impl HTTPRequestLine {
    pub fn get_kind(&self) -> (r: HTTPType)
        ensures
            r == self.kind,
    {
        self.kind
    }

    /// Parses a request line such as `"GET /index.html HTTP/1.1\r\n"`.
    pub fn from_str(s: &str) -> (r: Result<HTTPRequestLine, HTTPError>)
        ensures
            r matches Ok(l) ==> parse_request_line(s@) == Ok::<(HTTPType, Seq<char>), HTTPError>((l.kind, l.path@)),
            r matches Err(e) ==> parse_request_line(s@) == Err::<(HTTPType, Seq<char>), HTTPError>(e),
    {
        let c = chars_of(s);
        let cs = c.as_slice();
        let s0 = skip_ws_from(cs, 0);
        let e0 = token_end_from(cs, s0);
        if s0 >= cs.len() {
            return Err(HTTPError::InvalidRequestType);
        }
        let m = slice_chars(cs, s0, e0);
        let get = chars_of("GET");
        let post = chars_of("POST");
        let kind = if chars_equal(m.as_slice(), get.as_slice()) {
            HTTPType::Get
        } else if chars_equal(m.as_slice(), post.as_slice()) {
            HTTPType::Post
        } else {
            return Err(HTTPError::InvalidRequestType);
        };
        let s1 = skip_ws_from(cs, e0);
        if s1 >= cs.len() {
            return Err(HTTPError::InvalidPath);
        }
        let e1 = token_end_from(cs, s1);
        proof {
            lemma_skip_ws_stops(c@, e0 as int);
            lemma_token_end_stops(c@, s1 as int);
            assert(!is_ws(c@[s1 as int]));
            if e1 == s1 {
                assert(token_end(c@, s1 as int) == token_end(c@, s1 + 1));
            }
        }
        assert(e1 > s1);
        let path = slice_chars(cs, s1, e1);
        if path[0] != '/' {
            return Err(HTTPError::InvalidPath);
        }
        let dots = chars_of("../");
        if contains_chars(path.as_slice(), dots.as_slice()) {
            return Err(HTTPError::InvalidPath);
        }
        let s2 = skip_ws_from(cs, e1);
        if s2 >= cs.len() {
            return Err(HTTPError::InvalidVersion);
        }
        Ok(HTTPRequestLine { kind, path: string_from_chars(path.as_slice()) })
    }
}

} // verus!

verus! {

/// A query parameter: the text before the first `=` of a `&`-separated
/// piece, and the text after it (empty when the piece has no `=`).
pub open spec fn split_pair(piece: Seq<char>) -> (Seq<char>, Seq<char>) {
    let e = find_char(piece, '=', 0);
    if e < piece.len() {
        (piece.subrange(0, e), piece.subrange(e + 1, piece.len() as int))
    } else {
        (piece, Seq::empty())
    }
}

/// The parameters of a query string from position `i` on; empty pieces are
/// skipped.
pub open spec fn query_pairs_from(q: Seq<char>, i: int) -> Seq<(Seq<char>, Seq<char>)>
    decreases q.len() - i,
{
    let j = find_char(q, '&', i);
    if i < 0 || i >= q.len() || j < i || j > q.len() {
        Seq::empty()
    } else {
        let rest = if j < q.len() { query_pairs_from(q, j + 1) } else { Seq::empty() };
        if j == i { rest } else { seq![split_pair(q.subrange(i, j))] + rest }
    }
}

/// The path of a request-line path token: the text before the first `?`.
pub open spec fn path_part(p: Seq<char>) -> Seq<char> {
    p.subrange(0, find_char(p, '?', 0))
}

/// The query parameters of a request-line path token.
pub open spec fn query_part(p: Seq<char>) -> Seq<(Seq<char>, Seq<char>)> {
    let q = find_char(p, '?', 0);
    if q < p.len() { query_pairs_from(p.subrange(q + 1, p.len() as int), 0) } else { Seq::empty() }
}

/// The value of the last parameter named `key`.
pub open spec fn query_value(pairs: Seq<(Seq<char>, Seq<char>)>, key: Seq<char>) -> Option<Seq<char>>
    decreases pairs.len(),
{
    if pairs.len() == 0 {
        None
    } else if pairs.last().0 == key {
        Some(pairs.last().1)
    } else {
        query_value(pairs.drop_last(), key)
    }
}

pub open spec fn pair_views(v: Seq<(String, String)>) -> Seq<(Seq<char>, Seq<char>)> {
    v.map_values(|p: (String, String)| (p.0@, p.1@))
}

fn split_pair_exec(piece: &[char]) -> (r: (String, String))
    ensures
        (r.0@, r.1@) == split_pair(piece@),
{
    let e = find_char_from(piece, '=', 0);
    if e < piece.len() {
        let k = slice_chars(piece, 0, e);
        let v = slice_chars(piece, e + 1, piece.len());
        (string_from_chars(k.as_slice()), string_from_chars(v.as_slice()))
    } else {
        let k = slice_chars(piece, 0, piece.len());
        assert(k@ =~= piece@);
        (string_from_chars(k.as_slice()), String::new())
    }
}

fn query_pairs(q: &[char]) -> (r: Vec<(String, String)>)
    ensures
        pair_views(r@) == query_pairs_from(q@, 0),
{
    let mut r: Vec<(String, String)> = Vec::new();
    let mut i: usize = 0;
    while i < q.len()
        invariant
            i <= q@.len(),
            pair_views(r@) + query_pairs_from(q@, i as int) == query_pairs_from(q@, 0),
        decreases q@.len() - i,
    {
        let j = find_char_from(q, '&', i);
        let ghost r0 = r@;
        if j > i {
            let piece = slice_chars(q, i, j);
            let pr = split_pair_exec(piece.as_slice());
            r.push(pr);
            assert(pair_views(r@) =~= pair_views(r0) + seq![split_pair(q@.subrange(i as int, j as int))]);
        }
        assert(query_pairs_from(q@, i as int) == (if j == i { query_pairs_from(q@, j + 1) } else {
            seq![split_pair(q@.subrange(i as int, j as int))] + query_pairs_from(q@, j + 1) }));
        if j >= q.len() {
            assert(query_pairs_from(q@, j + 1) == Seq::<(Seq<char>, Seq<char>)>::empty());
            assert(pair_views(r@) =~= query_pairs_from(q@, 0));
            return r;
        }
        i = j + 1;
        assert(pair_views(r@) + query_pairs_from(q@, i as int) =~= query_pairs_from(q@, 0));
    }
    assert(pair_views(r@) =~= query_pairs_from(q@, 0));
    r
}

/// A GET request: its path, and the parameters of its query string.
#[derive(Debug)]
pub struct GETRequest {
    pub path: String,
    pub query: Vec<(String, String)>,
}

impl GETRequest {
    /// Splits a request-line path token into path and query parameters.
    pub fn new(token: &str) -> (r: GETRequest)
        ensures
            r.path@ == path_part(token@),
            pair_views(r.query@) == query_part(token@),
    {
        let c = chars_of(token);
        let q = find_char_from(c.as_slice(), '?', 0);
        let path = slice_chars(c.as_slice(), 0, q);
        let query = if q < c.len() {
            let qs = slice_chars(c.as_slice(), q + 1, c.len());
            query_pairs(qs.as_slice())
        } else {
            Vec::new()
        };
        assert(pair_views(query@) =~= query_part(token@));
        GETRequest { path: string_from_chars(path.as_slice()), query }
    }

    pub fn get_path(&self) -> (r: &str)
        ensures
            r@ == self.path@,
    {
        self.path.as_str()
    }

    /// The value of the query parameter `key`; the last one wins when it
    /// repeats.
    pub fn get_query(&self, key: &str) -> (r: Option<&str>)
        ensures
            r matches Some(v) ==> query_value(pair_views(self.query@), key@) == Some(v@),
            r is None ==> query_value(pair_views(self.query@), key@) is None,
    {
        let kc = chars_of(key);
        let mut i = self.query.len();
        assert(self.query@.subrange(0, i as int) =~= self.query@);
        while i > 0
            invariant
                i <= self.query@.len(),
                kc@ == key@,
                query_value(pair_views(self.query@), key@)
                    == query_value(pair_views(self.query@.subrange(0, i as int)), key@),
            decreases i,
        {
            let ghost pv = pair_views(self.query@.subrange(0, i as int));
            assert(pv.drop_last() =~= pair_views(self.query@.subrange(0, i - 1)));
            assert(pv.len() == i);
            assert(pv.last() == (self.query@[i - 1].0@, self.query@[i - 1].1@));
            assert(query_value(pv, key@) == (if pv.last().0 == key@ { Some(pv.last().1) } else {
                query_value(pv.drop_last(), key@) }));
            let kv = chars_of(self.query[i - 1].0.as_str());
            if chars_equal(kv.as_slice(), kc.as_slice()) {
                assert(pv.last().0 == key@);
                return Some(self.query[i - 1].1.as_str());
            }
            i = i - 1;
        }
        None
    }
}

} // verus!

verus! {

/// Where the POST header block ends in `b`, scanning from `i`: after each
/// `\r`, the next three bytes are read; the block ends once they are
/// `\n\r\n`.  `None` when the bytes run out first.
pub open spec fn header_end_from(b: Seq<u8>, i: int) -> Option<int>
    decreases b.len() - i,
{
    let j = find_byte(b, 13, i);
    if i < 0 || j < i || j + 4 > b.len() {
        None
    } else if b[j + 1] == 10 && b[j + 2] == 13 && b[j + 3] == 10 {
        Some(j + 4)
    } else {
        header_end_from(b, j + 4)
    }
}

/// Whether `s` begins with `p`.
pub open spec fn has_prefix(s: Seq<char>, p: Seq<char>) -> bool {
    p.len() <= s.len() && s.subrange(0, p.len() as int) == p
}

/// The header values a POST request keeps: host, content type and declared
/// content length.
pub struct HeaderFields {
    pub host: Seq<char>,
    pub content_type: ContentType,
    pub content_length: nat,
}

/// The header values before any header line is read.
pub open spec fn initial_fields() -> HeaderFields {
    HeaderFields { host: Seq::empty(), content_type: ContentType::PlainText, content_length: 0 }
}

/// Applies one header line.  `Host: ` values accumulate; the last
/// `Content-Type: ` and `Content-Length: ` lines win; other lines are ignored.
pub open spec fn apply_header_line(line: Seq<char>, st: HeaderFields) -> Result<HeaderFields, HTTPError> {
    if has_prefix(line, "Content-Type: "@) {
        match content_type_of(line.subrange(14, line.len() as int)) {
            Some(ct) => Ok(HeaderFields { content_type: ct, ..st }),
            None => Err(HTTPError::InvalidContentType),
        }
    } else if has_prefix(line, "Host: "@) {
        Ok(HeaderFields { host: st.host + line.subrange(6, line.len() as int), ..st })
    } else if has_prefix(line, "Content-Length: "@) {
        match parse_usize(line.subrange(16, line.len() as int)) {
            Some(n) => Ok(HeaderFields { content_length: n, ..st }),
            None => Err(HTTPError::InvalidContentLength),
        }
    } else {
        Ok(st)
    }
}

/// A line of text ending at a `\n`, without the `\r` that precedes it.
pub open spec fn strip_cr(line: Seq<char>) -> Seq<char> {
    if line.len() > 0 && line.last() == '\r' { line.drop_last() } else { line }
}

/// Applies the header lines of `h` from position `i` on.
pub open spec fn header_fields_from(h: Seq<char>, i: int, st: HeaderFields) -> Result<HeaderFields, HTTPError>
    decreases h.len() - i,
{
    let j = find_char(h, '\n', i);
    if i < 0 || i >= h.len() || j < i || j > h.len() {
        Ok(st)
    } else if j == h.len() {
        apply_header_line(h.subrange(i, j), st)
    } else {
        match apply_header_line(strip_cr(h.subrange(i, j)), st) {
            Ok(st2) => header_fields_from(h, j + 1, st2),
            Err(e) => Err(e),
        }
    }
}

/// What a request holds, as values.
pub enum RequestView {
    Get { path: Seq<char>, query: Seq<(Seq<char>, Seq<char>)> },
    Post { path: Seq<char>, host: Seq<char>, content_type: ContentType, content_length: nat, content: Seq<u8> },
}

/// Where the request line ends: just after the first `\n`, or at the end.
pub open spec fn line_end(b: Seq<u8>) -> int {
    let nl = find_byte(b, 10, 0);
    if nl < b.len() { nl + 1 } else { b.len() as int }
}

/// A POST request from the bytes that follow its request line.
pub open spec fn parse_post(path: Seq<char>, rest: Seq<u8>) -> Result<RequestView, HTTPError> {
    match header_end_from(rest, 0) {
        None => Err(HTTPError::InvalidHeader),
        Some(he) => {
            let hb = rest.subrange(0, he);
            if !valid_utf8(hb) {
                Err(HTTPError::InvalidHeader)
            } else {
                match header_fields_from(decode_utf8(hb), 0, initial_fields()) {
                    Err(e) => Err(e),
                    Ok(f) => if rest.len() - he < f.content_length {
                        Err(HTTPError::InvalidContent)
                    } else {
                        Ok(RequestView::Post {
                            path,
                            host: f.host,
                            content_type: f.content_type,
                            content_length: f.content_length,
                            content: rest.subrange(he, he + f.content_length),
                        })
                    },
                }
            }
        },
    }
}

/// A request from the bytes a client sent.  The request line runs to the
/// first `\n` and must be UTF-8.  A GET request ends there; a POST request
/// continues with a header block and exactly `Content-Length` body bytes.
pub open spec fn parse_request(b: Seq<u8>) -> Result<RequestView, HTTPError> {
    let le = line_end(b);
    let line = b.subrange(0, le);
    if !valid_utf8(line) {
        Err(HTTPError::InvalidRequestLine)
    } else {
        match parse_request_line(decode_utf8(line)) {
            Err(e) => Err(e),
            Ok((HTTPType::Get, p)) => Ok(RequestView::Get { path: path_part(p), query: query_part(p) }),
            Ok((HTTPType::Post, p)) => parse_post(p, b.subrange(le, b.len() as int)),
        }
    }
}

proof fn lemma_find_byte_bounds(s: Seq<u8>, x: u8, i: int)
    requires
        0 <= i,
    ensures
        i <= s.len() ==> i <= find_byte(s, x, i) <= s.len(),
        i <= find_byte(s, x, i) < s.len() ==> s[find_byte(s, x, i)] == x,
    decreases s.len() - i,
{
    if i < s.len() && s[i] != x {
        lemma_find_byte_bounds(s, x, i + 1);
    }
}

fn header_end(b: &[u8]) -> (r: Option<usize>)
    ensures
        r matches Some(n) ==> header_end_from(b@, 0) == Some(n as int) && n <= b@.len(),
        r is None ==> header_end_from(b@, 0) is None,
{
    let mut i: usize = 0;
    while i <= b.len()
        invariant
            header_end_from(b@, i as int) == header_end_from(b@, 0),
        decreases b@.len() + 1 - i,
    {
        let j = find_byte_from(b, 13, i);
        if j >= b.len() || b.len() - j < 4 {
            return None;
        }
        if b[j + 1] == 10 && b[j + 2] == 13 && b[j + 3] == 10 {
            return Some(j + 4);
        }
        i = j + 4;
    }
    None
}

fn has_prefix_exec(line: &[char], p: &str) -> (r: bool)
    ensures
        r == has_prefix(line@, p@),
{
    let pc = chars_of(p);
    matches_at(line, 0, pc.as_slice())
}

/// The current header values while header lines are read.
struct FieldsExec {
    host: Vec<char>,
    content_type: ContentType,
    content_length: usize,
}

impl FieldsExec {
    spec fn view(&self) -> HeaderFields {
        HeaderFields { host: self.host@, content_type: self.content_type, content_length: self.content_length as nat }
    }
}

fn apply_header_line_exec(line: &[char], st: &mut FieldsExec) -> (r: Result<(), HTTPError>)
    ensures
        r is Ok ==> apply_header_line(line@, old(st).view()) == Ok::<HeaderFields, HTTPError>(final(st).view()),
        r matches Err(e) ==> apply_header_line(line@, old(st).view()) == Err::<HeaderFields, HTTPError>(e),
{
    proof {
        reveal_strlit("Content-Type: ");
        reveal_strlit("Host: ");
        reveal_strlit("Content-Length: ");
    }
    if has_prefix_exec(line, "Content-Type: ") {
        let v = string_from_chars(slice_chars(line, 14, line.len()).as_slice());
        match ContentType::from_str(v.as_str()) {
            Ok(ct) => { st.content_type = ct; Ok(()) },
            Err(e) => Err(e),
        }
    } else if has_prefix_exec(line, "Host: ") {
        let v = slice_chars(line, 6, line.len());
        crate::text::extend_chars(&mut st.host, v.as_slice());
        Ok(())
    } else if has_prefix_exec(line, "Content-Length: ") {
        let v = slice_chars(line, 16, line.len());
        match parse_usize_chars(v.as_slice()) {
            Some(n) => { st.content_length = n; Ok(()) },
            None => Err(HTTPError::InvalidContentLength),
        }
    } else {
        Ok(())
    }
}

fn header_fields(h: &[char]) -> (r: Result<FieldsExec, HTTPError>)
    ensures
        r matches Ok(f) ==> header_fields_from(h@, 0, initial_fields()) == Ok::<HeaderFields, HTTPError>(f.view()),
        r matches Err(e) ==> header_fields_from(h@, 0, initial_fields()) == Err::<HeaderFields, HTTPError>(e),
{
    let mut st = FieldsExec { host: Vec::new(), content_type: ContentType::PlainText, content_length: 0 };
    assert(st.view() == initial_fields());
    let mut i: usize = 0;
    while i < h.len()
        invariant
            i <= h@.len(),
            header_fields_from(h@, i as int, st.view()) == header_fields_from(h@, 0, initial_fields()),
        decreases h@.len() - i,
    {
        let j = find_char_from(h, '\n', i);
        if j == h.len() {
            let line = slice_chars(h, i, j);
            match apply_header_line_exec(line.as_slice(), &mut st) {
                Ok(()) => return Ok(st),
                Err(e) => return Err(e),
            }
        }
        let mut line = slice_chars(h, i, j);
        if line.len() > 0 && line[line.len() - 1] == '\r' {
            line.pop();
        }
        assert(line@ == strip_cr(h@.subrange(i as int, j as int)));
        match apply_header_line_exec(line.as_slice(), &mut st) {
            Ok(()) => {},
            Err(e) => return Err(e),
        }
        i = j + 1;
    }
    Ok(st)
}

} // verus!

verus! {

/// A POST request: path, the `Host` and `Content-Type` values, and the body
/// of the declared length.
#[derive(Debug)]
pub struct POSTRequest {
    pub path: String,
    pub host: String,
    pub content_type: ContentType,
    pub content_length: usize,
    pub content: Vec<u8>,
}

impl POSTRequest {
    /// Reads the header block and the body that follow the request line
    /// `line`; `rest` is every byte after that line.
    pub fn new(line: HTTPRequestLine, rest: &[u8]) -> (r: Result<POSTRequest, HTTPError>)
        ensures
            r matches Ok(p) ==> parse_post(line.path@, rest@) == Ok::<RequestView, HTTPError>(p.view()),
            r matches Err(e) ==> parse_post(line.path@, rest@) == Err::<RequestView, HTTPError>(e),
    {
        let he = match header_end(rest) {
            None => return Err(HTTPError::InvalidHeader),
            Some(he) => he,
        };
        let hb = slice_bytes(rest, 0, he);
        let header = match utf8_string(hb) {
            None => return Err(HTTPError::InvalidHeader),
            Some(h) => h,
        };
        let hc = chars_of(header.as_str());
        let f = match header_fields(hc.as_slice()) {
            Err(e) => return Err(e),
            Ok(f) => f,
        };
        if rest.len() - he < f.content_length {
            return Err(HTTPError::InvalidContent);
        }
        let content = slice_bytes(rest, he, he + f.content_length);
        Ok(POSTRequest {
            path: line.path,
            host: string_from_chars(f.host.as_slice()),
            content_type: f.content_type,
            content_length: f.content_length,
            content,
        })
    }

    pub open spec fn view(&self) -> RequestView {
        RequestView::Post {
            path: self.path@,
            host: self.host@,
            content_type: self.content_type,
            content_length: self.content_length as nat,
            content: self.content@,
        }
    }

    pub fn get_path(&self) -> (r: &str)
        ensures
            r@ == self.path@,
    {
        self.path.as_str()
    }

    pub fn get_data(&self) -> (r: &[u8])
        ensures
            r@ == self.content@,
    {
        self.content.as_slice()
    }

    pub fn get_content_type(&self) -> (r: ContentType)
        ensures
            r == self.content_type,
    {
        self.content_type
    }
}

/// A request of either method.
#[derive(Debug)]
pub enum Request {
    GetRequest(GETRequest),
    POSTRequest(POSTRequest),
}

impl Request {
    pub open spec fn view(&self) -> RequestView {
        match self {
            Request::GetRequest(g) => RequestView::Get { path: g.path@, query: pair_views(g.query@) },
            Request::POSTRequest(p) => p.view(),
        }
    }

    /// Parses the bytes a client sent into a request.
    pub fn new(b: &[u8]) -> (r: Result<Request, HTTPError>)
        ensures
            r matches Ok(q) ==> parse_request(b@) == Ok::<RequestView, HTTPError>(q.view()),
            r matches Err(e) ==> parse_request(b@) == Err::<RequestView, HTTPError>(e),
    {
        let nl = find_byte_from(b, 10, 0);
        let le = if nl < b.len() { nl + 1 } else { b.len() };
        let line = slice_bytes(b, 0, le);
        let s = match utf8_string(line) {
            None => return Err(HTTPError::InvalidRequestLine),
            Some(s) => s,
        };
        let rl = match HTTPRequestLine::from_str(s.as_str()) {
            Err(e) => return Err(e),
            Ok(rl) => rl,
        };
        match rl.kind {
            HTTPType::Get => Ok(Request::GetRequest(GETRequest::new(rl.path.as_str()))),
            HTTPType::Post => {
                let rest = slice_bytes(b, le, b.len());
                match POSTRequest::new(rl, rest.as_slice()) {
                    Ok(p) => Ok(Request::POSTRequest(p)),
                    Err(e) => Err(e),
                }
            },
        }
    }

    pub fn get_path(&self) -> (r: &str)
        ensures
            r@ == (match self.view() {
                RequestView::Get { path, .. } => path,
                RequestView::Post { path, .. } => path,
            }),
    {
        match self {
            Request::GetRequest(r) => r.path.as_str(),
            Request::POSTRequest(r) => r.path.as_str(),
        }
    }
}

} // verus!

verus! {

/// Whether a POST request's bytes after the request line could still grow
/// into a different result: the header block has not ended, or the body is
/// shorter than declared.
pub open spec fn post_incomplete(rest: Seq<u8>) -> bool {
    match header_end_from(rest, 0) {
        None => true,
        Some(he) => {
            let hb = rest.subrange(0, he);
            valid_utf8(hb) && match header_fields_from(decode_utf8(hb), 0, initial_fields()) {
                Ok(f) => rest.len() - he < f.content_length,
                Err(_) => false,
            }
        },
    }
}

/// Whether more bytes from the client could still change what `b` parses
/// to; once this is false the request is read.
pub open spec fn request_incomplete(b: Seq<u8>) -> bool {
    let nl = find_byte(b, 10, 0);
    if nl >= b.len() {
        true
    } else {
        let line = b.subrange(0, nl + 1);
        valid_utf8(line) && match parse_request_line(decode_utf8(line)) {
            Ok((HTTPType::Post, _)) => post_incomplete(b.subrange(nl + 1, b.len() as int)),
            _ => false,
        }
    }
}

impl Request {
    /// Whether the client must send more bytes before `b` can be parsed.
    pub fn needs_more(b: &[u8]) -> (r: bool)
        ensures
            r == request_incomplete(b@),
    {
        let nl = find_byte_from(b, 10, 0);
        if nl >= b.len() {
            return true;
        }
        let line = slice_bytes(b, 0, nl + 1);
        let s = match utf8_string(line) {
            None => return false,
            Some(s) => s,
        };
        match HTTPRequestLine::from_str(s.as_str()) {
            Ok(rl) => {
                if rl.kind == HTTPType::Get {
                    return false;
                }
            },
            Err(_) => return false,
        }
        let rest = slice_bytes(b, nl + 1, b.len());
        let he = match header_end(rest.as_slice()) {
            None => return true,
            Some(he) => he,
        };
        let hb = slice_bytes(rest.as_slice(), 0, he);
        let header = match utf8_string(hb) {
            None => return false,
            Some(h) => h,
        };
        let hc = chars_of(header.as_str());
        match header_fields(hc.as_slice()) {
            Err(_) => false,
            Ok(f) => rest.len() - he < f.content_length,
        }
    }
}

proof fn lemma_find_byte_extend(b: Seq<u8>, e: Seq<u8>, x: u8, i: int)
    requires
        0 <= i,
        find_byte(b, x, i) < b.len(),
    ensures
        find_byte(b + e, x, i) == find_byte(b, x, i),
    decreases b.len() - i,
{
    if i < b.len() && b[i] != x {
        lemma_find_byte_extend(b, e, x, i + 1);
    }
}

proof fn lemma_header_end_extend(b: Seq<u8>, e: Seq<u8>, i: int)
    requires
        header_end_from(b, i) is Some,
    ensures
        header_end_from(b + e, i) == header_end_from(b, i),
        header_end_from(b, i)->0 <= b.len(),
        i <= header_end_from(b, i)->0,
    decreases b.len() - i,
{
    let j = find_byte(b, 13, i);
    lemma_find_byte_bounds(b, 13, i);
    lemma_find_byte_extend(b, e, 13, i);
    if b[j + 1] == 10 && b[j + 2] == 13 && b[j + 3] == 10 {
    } else {
        lemma_header_end_extend(b, e, j + 4);
    }
}

/// A request is read once it is complete: bytes that arrive after that,
/// in however many reads, change nothing, and a POST body is exactly its
/// declared length.
pub proof fn lemma_complete_request_is_stable(b: Seq<u8>, extra: Seq<u8>)
    requires
        !request_incomplete(b),
    ensures
        parse_request(b + extra) == parse_request(b),
{
    let nl = find_byte(b, 10, 0);
    lemma_find_byte_bounds(b, 10, 0);
    lemma_find_byte_extend(b, extra, 10, 0);
    let bb = b + extra;
    assert(line_end(bb) == nl + 1);
    assert(bb.subrange(0, nl + 1) =~= b.subrange(0, nl + 1));
    let line = b.subrange(0, nl + 1);
    if valid_utf8(line) {
        match parse_request_line(decode_utf8(line)) {
            Ok((HTTPType::Post, p)) => {
                let rest = b.subrange(nl + 1, b.len() as int);
                let rest2 = bb.subrange(nl + 1, bb.len() as int);
                assert(rest2 =~= rest + extra);
                assert(!post_incomplete(rest));
                assert(header_end_from(rest, 0) is Some);
                lemma_header_end_extend(rest, extra, 0);
                let he = header_end_from(rest, 0)->0;
                assert(he <= rest.len());
                assert(rest2.subrange(0, he) =~= rest.subrange(0, he));
                let hb = rest.subrange(0, he);
                if valid_utf8(hb) {
                    match header_fields_from(decode_utf8(hb), 0, initial_fields()) {
                        Ok(f) => {
                            assert(rest2.subrange(he, he + f.content_length)
                                =~= rest.subrange(he, he + f.content_length));
                        },
                        Err(_) => {},
                    }
                }
            },
            _ => {},
        }
    }
}

} // verus!

verus! {

proof fn lemma_token_end_run(c: Seq<char>, i: int, k: int)
    requires
        0 <= i <= k <= c.len(),
        forall|j: int| i <= j < k ==> !is_ws(#[trigger] c[j]),
        k == c.len() || is_ws(c[k]),
    ensures
        token_end(c, i) == k,
    decreases k - i,
{
    if i < k {
        lemma_token_end_run(c, i + 1, k);
    }
}

proof fn lemma_skip_ws_run(c: Seq<char>, i: int, k: int)
    requires
        0 <= i <= k <= c.len(),
        forall|j: int| i <= j < k ==> is_ws(#[trigger] c[j]),
        k == c.len() || !is_ws(c[k]),
    ensures
        skip_ws(c, i) == k,
    decreases k - i,
{
    if i < k {
        lemma_skip_ws_run(c, i + 1, k);
    }
}

/// A token: non-empty and free of white space.
pub open spec fn is_token(t: Seq<char>) -> bool {
    t.len() > 0 && forall|i: int| 0 <= i < t.len() ==> !is_ws(#[trigger] t[i])
}

/// White space only (possibly empty), such as the `\r\n` ending a line.
pub open spec fn is_blank(t: Seq<char>) -> bool {
    forall|i: int| 0 <= i < t.len() ==> is_ws(#[trigger] t[i])
}

proof fn lemma_method_is_token(m: Seq<char>)
    requires
        method_of(m) is Some,
    ensures
        is_token(m),
{
    reveal_strlit("GET");
    reveal_strlit("POST");
}

/// The method and path of a well-formed request line are extracted exactly:
/// `METHOD SP PATH SP VERSION` followed by line-ending white space.
pub proof fn lemma_request_line_extracts(m: Seq<char>, p: Seq<char>, v: Seq<char>, tail: Seq<char>)
    requires
        method_of(m) is Some,
        is_token(p),
        p[0] == '/',
        !contains(p, "../"@),
        is_token(v),
        is_blank(tail),
    ensures
        parse_request_line(m + seq![' '] + p + seq![' '] + v + tail)
            == Ok::<(HTTPType, Seq<char>), HTTPError>((method_of(m)->0, p)),
{
    lemma_method_is_token(m);
    let c = m + seq![' '] + p + seq![' '] + v + tail;
    let a = m.len() as int;
    let b = a + 1 + p.len();
    let d = b + 1 + v.len();
    assert(c[a] == ' ');
    assert(c[b] == ' ');
    assert forall|j: int| 0 <= j < a implies !is_ws(#[trigger] c[j]) by { assert(c[j] == m[j]); }
    assert forall|j: int| a + 1 <= j < b implies !is_ws(#[trigger] c[j]) by { assert(c[j] == p[j - a - 1]); }
    assert forall|j: int| b + 1 <= j < d implies !is_ws(#[trigger] c[j]) by { assert(c[j] == v[j - b - 1]); }
    lemma_skip_ws_run(c, 0, 0);
    lemma_token_end_run(c, 0, a);
    lemma_skip_ws_run(c, a, a + 1);
    lemma_token_end_run(c, a + 1, b);
    lemma_skip_ws_run(c, b, b + 1);
    assert(c.subrange(0, a) =~= m);
    assert(c.subrange(a + 1, b) =~= p);
}

/// A request line whose version token is missing is rejected with
/// `InvalidVersion`.
pub proof fn lemma_missing_version_rejected(m: Seq<char>, p: Seq<char>, tail: Seq<char>)
    requires
        method_of(m) is Some,
        is_token(p),
        p[0] == '/',
        !contains(p, "../"@),
        is_blank(tail),
    ensures
        parse_request_line(m + seq![' '] + p + tail)
            == Err::<(HTTPType, Seq<char>), HTTPError>(HTTPError::InvalidVersion),
{
    lemma_method_is_token(m);
    let c = m + seq![' '] + p + tail;
    let a = m.len() as int;
    let b = a + 1 + p.len();
    assert(c[a] == ' ');
    assert forall|j: int| 0 <= j < a implies !is_ws(#[trigger] c[j]) by { assert(c[j] == m[j]); }
    assert forall|j: int| a + 1 <= j < b implies !is_ws(#[trigger] c[j]) by { assert(c[j] == p[j - a - 1]); }
    assert forall|j: int| b <= j < c.len() implies is_ws(#[trigger] c[j]) by { assert(c[j] == tail[j - b]); }
    lemma_skip_ws_run(c, 0, 0);
    lemma_token_end_run(c, 0, a);
    lemma_skip_ws_run(c, a, a + 1);
    if b < c.len() {
        assert(is_ws(c[b]));
    }
    lemma_token_end_run(c, a + 1, b);
    lemma_skip_ws_run(c, b, c.len() as int);
    assert(c.subrange(0, a) =~= m);
    assert(c.subrange(a + 1, b) =~= p);
}

/// Any path token holding `../` is rejected with `InvalidPath`, whatever
/// follows it.
pub proof fn lemma_traversal_path_rejected(m: Seq<char>, p: Seq<char>, rest: Seq<char>)
    requires
        method_of(m) is Some,
        is_token(p),
        contains(p, "../"@),
        rest.len() == 0 || is_ws(rest[0]),
    ensures
        parse_request_line(m + seq![' '] + p + rest)
            == Err::<(HTTPType, Seq<char>), HTTPError>(HTTPError::InvalidPath),
{
    lemma_method_is_token(m);
    let c = m + seq![' '] + p + rest;
    let a = m.len() as int;
    let b = a + 1 + p.len();
    assert(c[a] == ' ');
    assert forall|j: int| 0 <= j < a implies !is_ws(#[trigger] c[j]) by { assert(c[j] == m[j]); }
    assert forall|j: int| a + 1 <= j < b implies !is_ws(#[trigger] c[j]) by { assert(c[j] == p[j - a - 1]); }
    if b < c.len() {
        assert(c[b] == rest[0]);
    }
    lemma_skip_ws_run(c, 0, 0);
    lemma_token_end_run(c, 0, a);
    lemma_skip_ws_run(c, a, a + 1);
    lemma_token_end_run(c, a + 1, b);
    assert(c.subrange(0, a) =~= m);
    assert(c.subrange(a + 1, b) =~= p);
}

} // verus!

verus! {

/// A POST body is read as exactly the declared number of bytes: when `head`
/// is a header block as the scan after each `\r` ends it, valid UTF-8 and
/// with header lines that parse, any bytes after it give the first
/// `Content-Length` of them as the body, and too few give `InvalidContent`.
pub proof fn lemma_post_body_exact(path: Seq<char>, head: Seq<u8>, body: Seq<u8>)
    requires
        header_end_from(head, 0) == Some(head.len() as int),
        valid_utf8(head),
        header_fields_from(decode_utf8(head), 0, initial_fields()) is Ok,
    ensures
        ({
            let f = header_fields_from(decode_utf8(head), 0, initial_fields())->Ok_0;
            &&& body.len() >= f.content_length ==> parse_post(path, head + body) == Ok::<RequestView, HTTPError>(
                RequestView::Post {
                    path,
                    host: f.host,
                    content_type: f.content_type,
                    content_length: f.content_length,
                    content: body.subrange(0, f.content_length as int),
                })
            &&& body.len() < f.content_length ==> parse_post(path, head + body) == Err::<RequestView, HTTPError>(HTTPError::InvalidContent)
        }),
{
    lemma_header_end_extend(head, body, 0);
    let b = head + body;
    assert(b.subrange(0, head.len() as int) =~= head);
    let f = header_fields_from(decode_utf8(head), 0, initial_fields())->Ok_0;
    if body.len() >= f.content_length {
        assert(b.subrange(head.len() as int, head.len() as int + f.content_length as int) =~= body.subrange(0, f.content_length as int));
    }
}

} // verus!
