//! Path-based routing: which handler kind serves a GET path, whether a POST
//! path is an API call, and which file backs a path.

use vstd::prelude::*;
use crate::http_types::{ContentType, FontType, ImageType, RequestType};
use crate::text::{str_equals, chars_equal, chars_of, slice_chars, string_from_chars};

verus! {

/// `p` without what ends it that names no component: trailing `/`
/// characters and `.` components.
pub open spec fn trim_slashes(p: Seq<char>) -> Seq<char>
    decreases p.len(),
{
    if p.len() > 0 && (p.last() == '/' || (p.len() >= 2 && p.last() == '.' && p[p.len() - 2] == '/')) {
        trim_slashes(p.drop_last())
    } else {
        p
    }
}

/// The index of the last `x` in `p`, or -1.
pub open spec fn last_index_of(p: Seq<char>, x: char) -> int
    decreases p.len(),
{
    if p.len() == 0 { -1 } else if p.last() == x { p.len() - 1 } else { last_index_of(p.drop_last(), x) }
}

/// The parent directory of a path; the root `/` has none.
pub open spec fn parent_of(p: Seq<char>) -> Option<Seq<char>> {
    let t = trim_slashes(p);
    if t.len() == 0 {
        None
    } else {
        let k = last_index_of(t, '/');
        if k < 0 {
            Some(Seq::empty())
        } else {
            let par = trim_slashes(t.subrange(0, k));
            if par.len() == 0 { Some(seq!['/']) } else { Some(par) }
        }
    }
}

/// The last component of a path.
pub open spec fn file_name_of(p: Seq<char>) -> Seq<char> {
    let t = trim_slashes(p);
    t.subrange(last_index_of(t, '/') + 1, t.len() as int)
}

/// The extension of a path: the text after the last `.` of its file name,
/// when that dot is not the name's first character.
pub open spec fn extension_of(p: Seq<char>) -> Option<Seq<char>> {
    let n = file_name_of(p);
    let k = last_index_of(n, '.');
    if k <= 0 || n == seq!['.', '.'] { None } else { Some(n.subrange(k + 1, n.len() as int)) }
}

/// How a GET path is served.
pub open spec fn route_of(p: Seq<char>) -> RequestType {
    match parent_of(p) {
        Some(par) => if par == seq!['/'] {
            if p == "/favicon.ico"@ || extension_of(p) is Some { RequestType::OtherFile } else { RequestType::Html }
        } else if par == "/api"@ {
            RequestType::Api
        } else if extension_of(p) is None {
            RequestType::Html
        } else {
            RequestType::OtherFile
        },
        None => RequestType::Html,
    }
}

proof fn lemma_last_index_bounds(p: Seq<char>, x: char)
    ensures
        -1 <= last_index_of(p, x) < p.len(),
        last_index_of(p, x) >= 0 ==> p[last_index_of(p, x)] == x,
    decreases p.len(),
{
    if p.len() > 0 && p.last() != x {
        lemma_last_index_bounds(p.drop_last(), x);
    }
}

fn trim_slashes_len(p: &[char], n: usize) -> (r: usize)
    requires
        n <= p@.len(),
    ensures
        r <= n,
        p@.subrange(0, r as int) == trim_slashes(p@.subrange(0, n as int)),
{
    let mut k = n;
    while k > 0 && (p[k - 1] == '/' || (k >= 2 && p[k - 1] == '.' && p[k - 2] == '/'))
        invariant
            k <= n <= p@.len(),
            trim_slashes(p@.subrange(0, k as int)) == trim_slashes(p@.subrange(0, n as int)),
        decreases k,
    {
        assert(p@.subrange(0, k as int).drop_last() =~= p@.subrange(0, k - 1));
        assert(p@.subrange(0, k as int).last() == p@[k - 1]);
        if k >= 2 {
            assert(p@.subrange(0, k as int)[k - 2] == p@[k - 2]);
        }
        k = k - 1;
    }
    proof {
        if k > 0 {
            assert(p@.subrange(0, k as int).last() == p@[k - 1]);
            if k >= 2 {
                assert(p@.subrange(0, k as int)[k - 2] == p@[k - 2]);
            }
        }
    }
    k
}

fn last_index_in(p: &[char], n: usize, x: char) -> (r: Option<usize>)
    requires
        n <= p@.len(),
    ensures
        r matches Some(k) ==> last_index_of(p@.subrange(0, n as int), x) == k as int,
        r is None ==> last_index_of(p@.subrange(0, n as int), x) == -1,
{
    let mut k = n;
    while k > 0 && p[k - 1] != x
        invariant
            k <= n <= p@.len(),
            last_index_of(p@.subrange(0, k as int), x) == last_index_of(p@.subrange(0, n as int), x),
        decreases k,
    {
        assert(p@.subrange(0, k as int).drop_last() =~= p@.subrange(0, k - 1));
        k = k - 1;
    }
    if k == 0 {
        None
    } else {
        Some(k - 1)
    }
}

/// The parent directory of `path`, if it has one.
pub fn parent(path: &str) -> (r: Option<String>)
    ensures
        r matches Some(s) ==> parent_of(path@) == Some(s@),
        r is None ==> parent_of(path@) is None,
{
    let c = chars_of(path);
    let t = trim_slashes_len(c.as_slice(), c.len());
    assert(c@.subrange(0, c@.len() as int) =~= c@);
    if t == 0 {
        return None;
    }
    let ghost tv = c@.subrange(0, t as int);
    match last_index_in(c.as_slice(), t, '/') {
        None => Some(String::new()),
        Some(k) => {
            proof { lemma_last_index_bounds(tv, '/'); }
            let pk = trim_slashes_len(c.as_slice(), k);
            assert(tv.subrange(0, k as int) =~= c@.subrange(0, k as int));
            if pk == 0 {
                let mut v: Vec<char> = Vec::new();
                v.push('/');
                assert(v@ =~= seq!['/']);
                Some(string_from_chars(v.as_slice()))
            } else {
                Some(string_from_chars(slice_chars(c.as_slice(), 0, pk).as_slice()))
            }
        },
    }
}

/// The extension of `path`, if it has one.
pub fn extension(path: &str) -> (r: Option<String>)
    ensures
        r matches Some(s) ==> extension_of(path@) == Some(s@),
        r is None ==> extension_of(path@) is None,
{
    let c = chars_of(path);
    let t = trim_slashes_len(c.as_slice(), c.len());
    assert(c@.subrange(0, c@.len() as int) =~= c@);
    let ghost tv = c@.subrange(0, t as int);
    let start = match last_index_in(c.as_slice(), t, '/') {
        None => 0,
        Some(k) => {
            proof { lemma_last_index_bounds(tv, '/'); }
            k + 1
        },
    };
    let name = slice_chars(c.as_slice(), start, t);
    assert(name@ =~= file_name_of(path@));
    let dd = chars_of("..");
    match last_index_in(name.as_slice(), name.len(), '.') {
        None => {
            assert(name@.subrange(0, name@.len() as int) =~= name@);
            None
        },
        Some(k) => {
            assert(name@.subrange(0, name@.len() as int) =~= name@);
            proof {
                reveal_strlit("..");
                lemma_last_index_bounds(name@, '.');
            }
            if k == 0 || chars_equal(name.as_slice(), dd.as_slice()) {
                assert(dd@ =~= seq!['.', '.']);
                None
            } else {
                assert(dd@ =~= seq!['.', '.']);
                Some(string_from_chars(slice_chars(name.as_slice(), k + 1, name.len()).as_slice()))
            }
        },
    }
}


/// Classifies a GET path: files directly under `/` with an extension (and
/// the favicon) are static files, `/api/...` is an API call, extensionless
/// paths are pages, and anything else is a static file.
pub fn request_type_of(path: &str) -> (r: RequestType)
    ensures
        r == route_of(path@),
{
    proof {
        reveal_strlit("/");
    }
    match parent(path) {
        None => RequestType::Html,
        Some(par) => {
            assert("/"@ =~= seq!['/']);
            if str_equals(par.as_str(), "/") {
                if str_equals(path, "/favicon.ico") || extension(path).is_some() {
                    RequestType::OtherFile
                } else {
                    RequestType::Html
                }
            } else if str_equals(par.as_str(), "/api") {
                assert(par@ != seq!['/']);
                RequestType::Api
            } else if extension(path).is_none() {
                assert(par@ != seq!['/']);
                RequestType::Html
            } else {
                assert(par@ != seq!['/']);
                RequestType::OtherFile
            }
        },
    }
}

/// Whether a POST path is an API call; every other POST path is answered
/// with 404.
pub fn is_api_path(path: &str) -> (r: bool)
    ensures
        r == (parent_of(path@) == Some("/api"@)),
{
    match parent(path) {
        None => false,
        Some(par) => str_equals(par.as_str(), "/api"),
    }
}

/// The media type of a static file, by extension.
pub open spec fn content_type_for(ext: Option<Seq<char>>) -> Option<ContentType> {
    match ext {
        Some(e) => if e == "css"@ { Some(ContentType::Css) }
            else if e == "js"@ { Some(ContentType::JavaScript) }
            else if e == "png"@ { Some(ContentType::Image(ImageType::Png)) }
            else if e == "svg"@ { Some(ContentType::Image(ImageType::Svg)) }
            else if e == "ico"@ { Some(ContentType::Image(ImageType::XIcon)) }
            else if e == "ttf"@ { Some(ContentType::Font(FontType::Ttf)) }
            else if e == "wasm"@ { Some(ContentType::Wasm) }
            else if e == "wgsl"@ { Some(ContentType::Wgsl) }
            else { None },
        None => None,
    }
}

/// The media type a static file path is served with; `None` for an
/// unsupported extension, which is answered with 400.
pub fn static_content_type(path: &str) -> (r: Option<ContentType>)
    ensures
        r == content_type_for(extension_of(path@)),
{
    match extension(path) {
        None => None,
        Some(e) => {
            let e = e.as_str();
            if str_equals(e, "css") { Some(ContentType::Css) }
            else if str_equals(e, "js") { Some(ContentType::JavaScript) }
            else if str_equals(e, "png") { Some(ContentType::Image(ImageType::Png)) }
            else if str_equals(e, "svg") { Some(ContentType::Image(ImageType::Svg)) }
            else if str_equals(e, "ico") { Some(ContentType::Image(ImageType::XIcon)) }
            else if str_equals(e, "ttf") { Some(ContentType::Font(FontType::Ttf)) }
            else if str_equals(e, "wasm") { Some(ContentType::Wasm) }
            else if str_equals(e, "wgsl") { Some(ContentType::Wgsl) }
            else { None }
        },
    }
}

/// The file that backs a page path: `/` is the index page; any other page
/// path, without what ends it that names no component, names an `.html`
/// file under the files root.
pub open spec fn html_file_of(root: Seq<char>, p: Seq<char>) -> Seq<char> {
    if p == seq!['/'] {
        root + "/index.html"@
    } else {
        root + trim_slashes(p) + ".html"@
    }
}

/// The file that backs a page path under `root`.
pub fn html_file_path(root: &str, path: &str) -> (r: String)
    ensures
        r@ == html_file_of(root@, path@),
{
    proof {
        reveal_strlit("/");
    }
    let mut v = chars_of(root);
    if str_equals(path, "/") {
        assert("/"@ =~= seq!['/']);
        crate::text::push_str(&mut v, "/index.html");
    } else {
        assert("/"@ =~= seq!['/']);
        let c = chars_of(path);
        let t = trim_slashes_len(c.as_slice(), c.len());
        assert(c@.subrange(0, c@.len() as int) =~= c@);
        crate::text::extend_chars(&mut v, slice_chars(c.as_slice(), 0, t).as_slice());
        crate::text::push_str(&mut v, ".html");
    }
    string_from_chars(v.as_slice())
}

/// The file that backs a static file path under `root`.
pub fn static_file_path(root: &str, path: &str) -> (r: String)
    ensures
        r@ == root@ + path@,
{
    let mut v = chars_of(root);
    crate::text::push_str(&mut v, path);
    string_from_chars(v.as_slice())
}

} // verus!
