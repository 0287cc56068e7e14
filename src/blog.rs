//! Blog post metadata records: a title, an introduction, a page path and a
//! publish time, in a flat length-prefixed binary layout.

use vstd::prelude::*;
use vstd::bytes::{spec_u64_from_le_bytes, spec_u64_to_le_bytes, u64_from_le_bytes, u64_to_le_bytes};
use vstd::utf8::{decode_utf8, encode_utf8, valid_utf8};
use crate::date::{YEAR_10000_SECS, days_before_month, days_from_ce, days_in_month, UNIX_EPOCH_DAY};
use crate::text::{find_char_from, parse_i32, parse_i32_chars, slice_chars, split_from, trim_chars, trim_ws, chars_of, decimal, extend_bytes, push_decimal, push_str, slice_bytes, str_bytes,
    string_from_chars};

verus! {

/// Whether `(y, m, d)` is a valid Gregorian date and the `count`-th day
/// counted from 0001-01-01 as day 1.
pub open spec fn is_calendar_day(y: int, m: int, d: int, count: int) -> bool {
    &&& 1 <= m <= 12
    &&& 1 <= d <= days_in_month(y, m)
    &&& days_from_ce(y, days_before_month(y, m) + d) == count
}

/// The Julian day number of 0001-01-01, less one.
pub const JULIAN_DAY_BEFORE_CE: i32 = 1721425;

/// The Julian day numbers of -9999-01-01 and 9999-12-31, the range of
/// `time::Date`.
pub const MIN_JULIAN_DAY: i32 = -1930999;
pub const MAX_JULIAN_DAY: i32 = 5373484;

/// The Julian day number of 1970-01-01.
pub const UNIX_DAY_JULIAN: u64 = 2440588;

/// Relies on `time::Date::from_julian_day`: a date exists exactly for Julian
/// days in the supported range, and it is the Gregorian date of that Julian
/// day; it is read back as year, month and day.
#[verifier::external_body]
fn calendar_of_julian_day(jd: i32) -> (r: Option<(i32, u8, u8)>)
    ensures
        r is Some <==> MIN_JULIAN_DAY <= jd <= MAX_JULIAN_DAY,
        r matches Some(t) ==> is_calendar_day(t.0 as int, t.1 as int, t.2 as int, jd - JULIAN_DAY_BEFORE_CE),
{
    match time::Date::from_julian_day(jd) {
        Ok(date) => {
            let (y, m, d) = date.to_calendar_date();
            Some((y, m as u8, d))
        },
        Err(_) => None,
    }
}

/// Relies on `time::Date::from_calendar_date` and `Date::ordinal`: a date
/// exists for years -9999..=9999, months 1..=12 and days within the month;
/// its ordinal is its day of the year.
#[verifier::external_body]
fn ordinal_of_date(y: i32, m: u8, d: u8) -> (r: Option<u16>)
    ensures
        r is Some <==> (-9999 <= y <= 9999 && 1 <= m <= 12 && 1 <= d <= days_in_month(y as int, m as int)),
        r matches Some(o) ==> o as int == days_before_month(y as int, m as int) + d,
{
    match time::Month::try_from(m) {
        Ok(month) => match time::Date::from_calendar_date(y, month, d) {
            Ok(date) => Some(date.ordinal()),
            Err(_) => None,
        },
        Err(_) => None,
    }
}

/// Text decoded from bytes with each invalid UTF-8 sequence replaced by
/// U+FFFD.
pub uninterp spec fn lossy_utf8(b: Seq<u8>) -> Seq<char>;

/// Relies on `String::from_utf8_lossy`: replaces invalid sequences, and
/// decodes valid UTF-8 unchanged.
#[verifier::external_body]
pub(crate) fn lossy_string(b: &[u8]) -> (r: String)
    ensures
        r@ == lossy_utf8(b@),
        valid_utf8(b@) ==> r@ == decode_utf8(b@),
{
    String::from_utf8_lossy(b).into_owned()
}

/// A line of text without one trailing `\n`, or `\r\n`.
pub open spec fn trim_newline(s: Seq<char>) -> Seq<char> {
    if s.len() > 0 && s.last() == '\n' {
        let t = s.drop_last();
        if t.len() > 0 && t.last() == '\r' { t.drop_last() } else { t }
    } else {
        s
    }
}

fn trim_newline_exec(s: String) -> (r: String)
    ensures
        r@ == trim_newline(s@),
{
    let mut c = chars_of(s.as_str());
    if c.len() > 0 && c[c.len() - 1] == '\n' {
        c.pop();
        if c.len() > 0 && c[c.len() - 1] == '\r' {
            c.pop();
        }
    }
    proof {
        if s@.len() > 0 && s@.last() == '\n' {
            assert(s@.drop_last() =~= s@.subrange(0, s@.len() - 1));
        }
    }
    assert(c@ =~= trim_newline(s@));
    string_from_chars(c.as_slice())
}

/// The serialised form of a record: each text field as one length byte
/// (the UTF-8 length, modulo 256) and its UTF-8 bytes, then the publish time
/// as eight little-endian bytes.
pub open spec fn record_bytes(title: Seq<char>, intro: Seq<char>, path: Seq<char>, ts_bytes: Seq<u8>) -> Seq<u8> {
    seq![(encode_utf8(title).len() % 256) as u8] + encode_utf8(title)
        + seq![(encode_utf8(intro).len() % 256) as u8] + encode_utf8(intro)
        + seq![(encode_utf8(path).len() % 256) as u8] + encode_utf8(path)
        + ts_bytes
}

/// The fields of a serialised record, as byte strings and the publish time;
/// `None` when the bytes end early.
pub open spec fn parse_record(b: Seq<u8>) -> Option<(Seq<u8>, Seq<u8>, Seq<u8>, nat)> {
    if b.len() < 1 { None } else {
        let t_end = 1 + b[0] as int;
        if b.len() < t_end + 1 { None } else {
            let i_end = t_end + 1 + b[t_end] as int;
            if b.len() < i_end + 1 { None } else {
                let p_end = i_end + 1 + b[i_end] as int;
                if b.len() < p_end + 8 { None } else {
                    Some((b.subrange(1, t_end), b.subrange(t_end + 1, i_end), b.subrange(i_end + 1, p_end),
                        spec_u64_from_le_bytes(b.subrange(p_end, p_end + 8)) as nat))
                }
            }
        }
    }
}

/// The full English name of month `m`.
pub open spec fn month_full_name(m: int) -> Seq<char> {
    if m == 1 { "January"@ } else if m == 2 { "February"@ } else if m == 3 { "March"@ }
    else if m == 4 { "April"@ } else if m == 5 { "May"@ } else if m == 6 { "June"@ }
    else if m == 7 { "July"@ } else if m == 8 { "August"@ } else if m == 9 { "September"@ }
    else if m == 10 { "October"@ } else if m == 11 { "November"@ } else { "December"@ }
}

fn month_full_name_str(m: u8) -> (r: &'static str)
    ensures
        r@ == month_full_name(m as int),
{
    if m == 1 { "January" } else if m == 2 { "February" } else if m == 3 { "March" }
    else if m == 4 { "April" } else if m == 5 { "May" } else if m == 6 { "June" }
    else if m == 7 { "July" } else if m == 8 { "August" } else if m == 9 { "September" }
    else if m == 10 { "October" } else if m == 11 { "November" } else { "December" }
}

/// An integer in decimal, with a leading `-` when negative.
pub open spec fn signed_decimal(n: int) -> Seq<char> {
    if n < 0 { seq!['-'] + decimal((-n) as nat) } else { decimal(n as nat) }
}

/// The numbers among `pieces`, in order; pieces that are not an `i32` are
/// skipped.
pub open spec fn numbers_of(pieces: Seq<Seq<char>>) -> Seq<int>
    decreases pieces.len(),
{
    if pieces.len() == 0 {
        Seq::empty()
    } else {
        (match parse_i32(pieces[0]) { Some(v) => seq![v], None => Seq::empty() })
            + numbers_of(pieces.drop_first())
    }
}

/// The remainder of `a / b` rounded toward zero, as Rust's `%` gives it.
pub open spec fn trunc_rem(a: int, b: int) -> int {
    if a >= 0 { a % b } else { -((-a) % b) }
}

/// The Unix time of midnight of a `month/day/year` date text.  Surrounding
/// white space is ignored, and of the `/`-separated pieces those that are
/// numbers are taken; there must be three.  The month counts modulo 12 (0
/// and 12 are December), the day is taken modulo 256.  `None` for other
/// input, and for dates before 1970.
pub open spec fn publish_timestamp(s: Seq<char>) -> Option<nat> {
    let v = numbers_of(split_from(trim_ws(s), '/', 0));
    if v.len() != 3 { None } else {
        let r = trunc_rem(v[0], 12);
        let m = if r == 0 { 12 } else { r };
        let d = v[1] % 256;
        let y = v[2];
        if r < 0 || !(-9999 <= y <= 9999 && 1 <= d <= days_in_month(y, m)) || y < 1 { None } else {
            let days = days_from_ce(y, days_before_month(y, m) + d);
            if days < UNIX_EPOCH_DAY { None } else { Some(((days - UNIX_EPOCH_DAY) * 86400) as nat) }
        }
    }
}

/// The Unix time of a `month/day/year` publish date.
pub fn mm_dd_yyyy_since_epoch(date: &str) -> (r: Option<u64>)
    ensures
        r matches Some(t) ==> publish_timestamp(date@) == Some(t as nat),
        r is None ==> publish_timestamp(date@) is None,
{
    let c = trim_chars(chars_of(date).as_slice());
    let mut nums: Vec<i32> = Vec::new();
    let mut i: usize = 0;
    let ghost all = split_from(c@, '/', 0);
    loop
        invariant_except_break
            nums@.map_values(|n: i32| n as int) + numbers_of(split_from(c@, '/', i as int)) == numbers_of(all),
        invariant
            i <= c@.len(),
            all == split_from(c@, '/', 0),
        ensures
            nums@.map_values(|n: i32| n as int) == numbers_of(all),
        decreases c@.len() - i,
    {
        let j = find_char_from(c.as_slice(), '/', i);
        let piece = slice_chars(c.as_slice(), i, j);
        let ghost sp = split_from(c@, '/', i as int);
        let ghost rest = if j < c@.len() { split_from(c@, '/', j + 1) } else { Seq::<Seq<char>>::empty() };
        assert(sp =~= seq![piece@] + rest);
        assert(sp.drop_first() =~= rest);
        let ghost n0 = nums@.map_values(|n: i32| n as int);
        match parse_i32_chars(piece.as_slice()) {
            Some(v) => {
                nums.push(v);
                assert(nums@.map_values(|n: i32| n as int) =~= n0.push(v as int));
            },
            None => {},
        }
        if j == c.len() {
            assert(numbers_of(rest) =~= Seq::<int>::empty());
            assert(nums@.map_values(|n: i32| n as int) =~= numbers_of(all));
            break;
        }
        i = j + 1;
        assert(nums@.map_values(|n: i32| n as int) + numbers_of(split_from(c@, '/', i as int)) =~= numbers_of(all));
    }
    if nums.len() != 3 {
        return None;
    }
    let r = nums[0] % 12;
    assert(r as int == trunc_rem(nums@[0] as int, 12));
    if r < 0 {
        return None;
    }
    let m: u8 = if r == 0 { 12 } else { r as u8 };
    let d1 = nums[1] as i64;
    let d: u8 = ((d1 % 256 + 256) % 256) as u8;
    assert(d as int == (nums@[1] as int) % 256);
    let y = nums[2];
    let ord = match ordinal_of_date(y, m, d) {
        None => return None,
        Some(o) => o,
    };
    if y < 1 {
        return None;
    }
    let y1 = (y - 1) as i64;
    let days: i64 = 365 * y1 + y1 / 4 - y1 / 100 + y1 / 400 + ord as i64;
    if days < UNIX_EPOCH_DAY {
        return None;
    }
    Some(((days - UNIX_EPOCH_DAY) * 86400) as u64)
}

/// Metadata of one blog post.
#[derive(Debug)]
pub struct Cbmd {
    pub title: String,
    pub intro_words: String,
    pub path: String,
    pub publish_ts: u64,
}

impl Cbmd {
    /// A record; one trailing line break is dropped from the title and the
    /// introduction.
    pub fn new(title: String, intro_words: String, path: String, publish_ts: u64) -> (r: Self)
        ensures
            r.title@ == trim_newline(title@),
            r.intro_words@ == trim_newline(intro_words@),
            r.path@ == path@,
            r.publish_ts == publish_ts,
    {
        Cbmd { title: trim_newline_exec(title), intro_words: trim_newline_exec(intro_words), path, publish_ts }
    }

    /// The serialised record.
    pub open spec fn bytes(&self) -> Seq<u8> {
        record_bytes(self.title@, self.intro_words@, self.path@, spec_u64_to_le_bytes(self.publish_ts))
    }

    pub fn get_timestamp(&self) -> (r: u64)
        ensures
            r == self.publish_ts,
    {
        self.publish_ts
    }

    pub fn get_title(&self) -> (r: &str)
        ensures
            r@ == self.title@,
    {
        self.title.as_str()
    }

    /// The serialised record.
    pub fn serialize(&self) -> (r: Vec<u8>)
        ensures
            r@ == self.bytes(),
    {
        let t = str_bytes(self.title.as_str());
        let i = str_bytes(self.intro_words.as_str());
        let p = str_bytes(self.path.as_str());
        let mut data: Vec<u8> = Vec::new();
        data.push((t.len() % 256) as u8);
        extend_bytes(&mut data, t.as_slice());
        data.push((i.len() % 256) as u8);
        extend_bytes(&mut data, i.as_slice());
        data.push((p.len() % 256) as u8);
        extend_bytes(&mut data, p.as_slice());
        let ts = u64_to_le_bytes(self.publish_ts);
        extend_bytes(&mut data, ts.as_slice());
        assert(data@ =~= record_bytes(self.title@, self.intro_words@, self.path@, ts@));
        data
    }

    /// Reads a serialised record; `None` when the bytes end early.  Text
    /// fields that are not UTF-8 are decoded lossily.
    pub fn from_meta_bytes(b: &[u8]) -> (r: Option<Cbmd>)
        ensures
            r is Some <==> parse_record(b@) is Some,
            r matches Some(c) ==> ({
                let (t, i, p, ts) = parse_record(b@)->0;
                c.title@ == lossy_utf8(t) && c.intro_words@ == lossy_utf8(i) && c.path@ == lossy_utf8(p)
                    && (valid_utf8(t) ==> c.title@ == decode_utf8(t))
                    && (valid_utf8(i) ==> c.intro_words@ == decode_utf8(i))
                    && (valid_utf8(p) ==> c.path@ == decode_utf8(p))
                    && c.publish_ts as nat == ts
            }),
    {
        if b.len() < 1 {
            return None;
        }
        let t_end = 1 + b[0] as usize;
        if b.len() < t_end + 1 {
            return None;
        }
        let i_end = t_end + 1 + b[t_end] as usize;
        if b.len() < i_end + 1 {
            return None;
        }
        let p_end = i_end + 1 + b[i_end] as usize;
        if b.len() < p_end || b.len() - p_end < 8 {
            return None;
        }
        let title = lossy_string(slice_bytes(b, 1, t_end).as_slice());
        let intro_words = lossy_string(slice_bytes(b, t_end + 1, i_end).as_slice());
        let path = lossy_string(slice_bytes(b, i_end + 1, p_end).as_slice());
        let tsb = slice_bytes(b, p_end, p_end + 8);
        let publish_ts = u64_from_le_bytes(tsb.as_slice());
        Some(Cbmd { title, intro_words, path, publish_ts })
    }

    /// The publish date as `Month/day/year`, e.g. `January/5/2024`.
    pub fn format_date(&self) -> (r: String)
        requires
            self.publish_ts < YEAR_10000_SECS,
        ensures
            exists|y: int, m: int, d: int| #[trigger] is_calendar_day(y, m, d, self.publish_ts / 86400 + UNIX_EPOCH_DAY)
                && r@ == month_full_name(m) + seq!['/'] + decimal(d as nat) + seq!['/'] + signed_decimal(y),
    {
        let jd = (self.publish_ts / 86400 + UNIX_DAY_JULIAN) as i32;
        match calendar_of_julian_day(jd) {
            Some((y, m, d)) => {
                let mut v: Vec<char> = Vec::new();
                push_str(&mut v, month_full_name_str(m));
                v.push('/');
                push_decimal(&mut v, d as u64);
                v.push('/');
                if y < 0 {
                    v.push('-');
                    push_decimal(&mut v, (-(y as i64)) as u64);
                } else {
                    push_decimal(&mut v, y as u64);
                }
                let r = string_from_chars(v.as_slice());
                assert(is_calendar_day(y as int, m as int, d as int, self.publish_ts / 86400 + UNIX_EPOCH_DAY));
                r
            },
            None => {
                assert(false);
                String::new()
            },
        }
    }
}


/// The records of a listing, each with a two-byte little-endian length
/// (modulo 65536) before it.
pub open spec fn listing_entries(rs: Seq<Seq<u8>>) -> Seq<u8>
    decreases rs.len(),
{
    if rs.len() == 0 {
        Seq::empty()
    } else {
        let l = rs.last().len() % 65536;
        listing_entries(rs.drop_last()) + seq![(l % 256) as u8, (l / 256) as u8] + rs.last()
    }
}

/// A listing: the record count (modulo 256), then the entries.
pub open spec fn listing_bytes(rs: Seq<Seq<u8>>) -> Seq<u8> {
    seq![(rs.len() % 256) as u8] + listing_entries(rs)
}

/// The records from `skip` on, at most `max` of them.
pub open spec fn page<T>(s: Seq<T>, skip: int, max: int) -> Seq<T> {
    let a = if skip < s.len() { skip } else { s.len() as int };
    let b = if a + max < s.len() { a + max } else { s.len() as int };
    s.subrange(a, b)
}

/// The serialised forms of records.
pub open spec fn record_seq(v: Seq<Cbmd>) -> Seq<Seq<u8>> {
    v.map_values(|c: Cbmd| c.bytes())
}

/// The listing of the records from `skip` on, at most `max` of them.
pub fn serialize_listing(data: &Vec<Cbmd>, skip: usize, max: usize) -> (r: Vec<u8>)
    ensures
        r@ == listing_bytes(record_seq(page(data@, skip as int, max as int))),
{
    let a = if skip < data.len() { skip } else { data.len() };
    let b = if max < data.len() - a { a + max } else { data.len() };
    let ghost items = record_seq(page(data@, skip as int, max as int));
    assert(items =~= record_seq(data@.subrange(a as int, b as int)));
    let mut entries: Vec<u8> = Vec::new();
    let mut i = a;
    while i < b
        invariant
            a <= i <= b <= data@.len(),
            entries@ == listing_entries(record_seq(data@.subrange(a as int, i as int))),
        decreases b - i,
    {
        let rec = data[i].serialize();
        let l = rec.len() % 65536;
        entries.push((l % 256) as u8);
        entries.push((l / 256) as u8);
        extend_bytes(&mut entries, rec.as_slice());
        assert(record_seq(data@.subrange(a as int, i + 1)).drop_last() =~= record_seq(data@.subrange(a as int, i as int)));
        i = i + 1;
    }
    let mut out: Vec<u8> = Vec::new();
    out.push(((b - a) % 256) as u8);
    extend_bytes(&mut out, entries.as_slice());
    assert(out@ =~= listing_bytes(items));
    out
}

/// `s` with every `%20` replaced by a space.
pub open spec fn unescape_spaces(s: Seq<char>) -> Seq<char>
    decreases s.len(),
{
    if s.len() >= 3 && s[0] == '%' && s[1] == '2' && s[2] == '0' {
        seq![' '] + unescape_spaces(s.subrange(3, s.len() as int))
    } else if s.len() > 0 {
        seq![s[0]] + unescape_spaces(s.drop_first())
    } else {
        Seq::empty()
    }
}

/// Replaces every `%20` in `text` by a space.
pub fn clean_url_spaces(text: &str) -> (r: String)
    ensures
        r@ == unescape_spaces(text@),
{
    let c = chars_of(text);
    let mut out: Vec<char> = Vec::new();
    let mut i: usize = 0;
    assert(c@.subrange(0, c@.len() as int) =~= c@);
    assert(out@ + unescape_spaces(c@) =~= unescape_spaces(c@));
    while i < c.len()
        invariant
            i <= c@.len(),
            out@ + unescape_spaces(c@.subrange(i as int, c@.len() as int)) == unescape_spaces(c@),
        decreases c@.len() - i,
    {
        let ghost rest = c@.subrange(i as int, c@.len() as int);
        if c.len() - i >= 3 && c[i] == '%' && c[i + 1] == '2' && c[i + 2] == '0' {
            out.push(' ');
            assert(rest.subrange(3, rest.len() as int) =~= c@.subrange(i + 3, c@.len() as int));
            i = i + 3;
        } else {
            out.push(c[i]);
            assert(rest.drop_first() =~= c@.subrange(i + 1, c@.len() as int));
            i = i + 1;
        }
    }
    assert(c@.subrange(i as int, c@.len() as int) =~= Seq::<char>::empty());
    assert(out@ =~= unescape_spaces(c@));
    string_from_chars(out.as_slice())
}

/// The records whose title holds `needle`, in order.
pub open spec fn with_title(v: Seq<Cbmd>, needle: Seq<char>) -> Seq<Cbmd>
    decreases v.len(),
{
    if v.len() == 0 {
        Seq::empty()
    } else if crate::request::contains(v.last().title@, needle) {
        with_title(v.drop_last(), needle).push(v.last())
    } else {
        with_title(v.drop_last(), needle)
    }
}

/// Keeps the records whose title holds `needle`.
pub fn filter_by_title(data: Vec<Cbmd>, needle: &str) -> (r: Vec<Cbmd>)
    ensures
        r@ == with_title(data@, needle@),
{
    let nc = chars_of(needle);
    let ghost orig = data@;
    let mut rest = data;
    let mut out: Vec<Cbmd> = Vec::new();
    let mut k: usize = 0;
    assert(orig.len() == rest.len());
    while rest.len() > 0
        invariant
            k <= orig.len(),
            orig.len() <= usize::MAX,
            nc@ == needle@,
            rest@ == orig.subrange(k as int, orig.len() as int),
            out@ == with_title(orig.subrange(0, k as int), needle@),
        decreases rest@.len(),
    {
        let c = rest.remove(0);
        assert(orig.subrange(0, k + 1).drop_last() =~= orig.subrange(0, k as int));
        let tc = chars_of(c.title.as_str());
        if crate::request::contains_chars(tc.as_slice(), nc.as_slice()) {
            out.push(c);
        }
        k = k + 1;
        assert(rest@ =~= orig.subrange(k as int, orig.len() as int));
    }
    assert(orig.subrange(0, k as int) =~= orig);
    out
}


/// Newest first.
pub open spec fn sorted_newest_first(s: Seq<Cbmd>) -> bool {
    forall|i: int, j: int| 0 <= i < j < s.len() ==> s[i].publish_ts >= s[j].publish_ts
}

/// Orders records newest first, keeping every record.
pub fn sort_by_timestamp_desc(data: Vec<Cbmd>) -> (r: Vec<Cbmd>)
    ensures
        sorted_newest_first(r@),
        r@.to_multiset() == data@.to_multiset(),
{
    let ghost orig = data@;
    let mut rest = data;
    let mut out: Vec<Cbmd> = Vec::new();
    let mut k: usize = 0;
    assert(orig.len() == rest.len());
    assert(orig.subrange(0, 0) =~= out@);
    while rest.len() > 0
        invariant
            k <= orig.len(),
            orig.len() <= usize::MAX,
            rest@ == orig.subrange(k as int, orig.len() as int),
            sorted_newest_first(out@),
            out@.to_multiset() == orig.subrange(0, k as int).to_multiset(),
        decreases rest@.len(),
    {
        let c = rest.remove(0);
        let mut pos: usize = 0;
        while pos < out.len() && out[pos].publish_ts >= c.publish_ts
            invariant
                pos <= out@.len(),
                forall|j: int| 0 <= j < pos ==> out@[j].publish_ts >= c.publish_ts,
            decreases out@.len() - pos,
        {
            pos = pos + 1;
        }
        let ghost before = out@;
        assert(forall|j: int| pos <= j < before.len() ==> before[j].publish_ts < c.publish_ts) by {
            if pos < before.len() {
                assert forall|j: int| pos <= j < before.len() implies before[j].publish_ts < c.publish_ts by {
                    if j > pos { assert(before[pos as int].publish_ts >= before[j].publish_ts); }
                }
            }
        }
        let ghost cg = c;
        out.insert(pos, c);
        assert(out@ == before.insert(pos as int, cg));
        proof {
            vstd::seq_lib::to_multiset_insert(before, pos as int, cg);
            vstd::seq_lib::to_multiset_build(orig.subrange(0, k as int), cg);
        }
        assert(orig.subrange(0, k + 1) =~= orig.subrange(0, k as int).push(cg));
        assert forall|i: int, j: int| 0 <= i < j < out@.len() implies out@[i].publish_ts >= out@[j].publish_ts by {
            if j < pos {
            } else if j == pos {
            } else if i < pos {
                assert(out@[j] == before[j - 1]);
            } else if i == pos {
                assert(out@[j] == before[j - 1]);
            } else {
                assert(out@[j] == before[j - 1]);
                assert(out@[i] == before[i - 1]);
            }
        }
        k = k + 1;
        assert(rest@ =~= orig.subrange(k as int, orig.len() as int));
    }
    assert(orig.subrange(0, k as int) =~= orig);
    out
}


/// The value of attribute `key` of a flattened tag, when it has one.
pub open spec fn attr_value(t: crate::tag::IterTag, key: Seq<char>) -> Option<Seq<char>> {
    let i = crate::tag::attribute_index(t.attributes@, key);
    if i >= 0 {
        match t.attributes@[i].value {
            Some(v) => Some(v@),
            None => None,
        }
    } else {
        None
    }
}

/// What a `<meta>` tag gives a record: 0 for a publish date, 1 for a title,
/// 2 for an introduction, in that order of precedence, with the value.
pub open spec fn meta_role(t: crate::tag::IterTag) -> Option<(int, Seq<char>)> {
    if t.name@ != "meta"@ {
        None
    } else if attr_value(t, "publish-date"@) is Some {
        Some((0, attr_value(t, "publish-date"@)->0))
    } else if attr_value(t, "title"@) is Some {
        Some((1, attr_value(t, "title"@)->0))
    } else if attr_value(t, "intro"@) is Some {
        Some((2, attr_value(t, "intro"@)->0))
    } else {
        None
    }
}

/// The value the last tag of role `k` gives, or empty text.
pub open spec fn last_role_value(tags: Seq<crate::tag::IterTag>, k: int) -> Seq<char>
    decreases tags.len(),
{
    if tags.len() == 0 {
        Seq::empty()
    } else {
        match meta_role(tags.last()) {
            Some((j, v)) => if j == k { v } else { last_role_value(tags.drop_last(), k) },
            None => last_role_value(tags.drop_last(), k),
        }
    }
}

/// The title, introduction and publish time that the `<meta>` tags of a
/// flattened document give, when its publish date is valid.
pub open spec fn meta_record(tags: Seq<crate::tag::IterTag>) -> Option<(Seq<char>, Seq<char>, nat)> {
    match publish_timestamp(last_role_value(tags, 0)) {
        Some(ts) => Some((trim_newline(last_role_value(tags, 1)), trim_newline(last_role_value(tags, 2)), ts)),
        None => None,
    }
}

/// The page path of a document file: its path without the 13-character
/// files directory before it and the `.html` after it.
pub open spec fn page_path_of(file_path: Seq<char>) -> Seq<char> {
    file_path.subrange(13, file_path.len() - 5)
}

fn meta_value(t: &crate::tag::IterTag, key: &str) -> (r: Option<String>)
    ensures
        r matches Some(v) ==> attr_value(*t, key@) == Some(v@),
        r is None ==> attr_value(*t, key@) is None,
{
    match t.get_attribute(key) {
        Some(v) => Some(string_from_chars(chars_of(v).as_slice())),
        None => None,
    }
}

impl Cbmd {
    /// The record that the `<meta>` tags of a flattened document give: the
    /// last `publish-date`, `title` and `intro` values; a missing one is
    /// empty.  The publish date must be a valid date.
    pub fn from_meta_tags(tags: &Vec<crate::tag::IterTag>, file_path: &str) -> (r: Result<Cbmd, crate::parser::HTMLError>)
        requires
            file_path@.len() >= 18,
        ensures
            publish_timestamp(last_role_value(tags@, 0)) is None ==> r is Err,
            publish_timestamp(last_role_value(tags@, 0)) matches Some(ts) ==> (r matches Ok(c)
                && c.title@ == trim_newline(last_role_value(tags@, 1))
                && c.intro_words@ == trim_newline(last_role_value(tags@, 2))
                && c.path@ == page_path_of(file_path@)
                && c.publish_ts as nat == ts),
    {
        proof {
            reveal_strlit("meta");
        }
        let mut publish_date = String::new();
        let mut title = String::new();
        let mut intro = String::new();
        let mut i: usize = 0;
        assert(tags@.subrange(0, 0) =~= Seq::<crate::tag::IterTag>::empty());
        while i < tags.len()
            invariant
                i <= tags@.len(),
                publish_date@ == last_role_value(tags@.subrange(0, i as int), 0),
                title@ == last_role_value(tags@.subrange(0, i as int), 1),
                intro@ == last_role_value(tags@.subrange(0, i as int), 2),
            decreases tags@.len() - i,
        {
            let t = &tags[i];
            let ghost pre = tags@.subrange(0, i + 1);
            assert(pre.drop_last() =~= tags@.subrange(0, i as int));
            assert(pre.last() == *t);
            if crate::text::str_equals(t.get_name(), "meta") {
                match meta_value(t, "publish-date") {
                    Some(v) => { publish_date = v; },
                    None => match meta_value(t, "title") {
                        Some(v) => { title = v; },
                        None => match meta_value(t, "intro") {
                            Some(v) => { intro = v; },
                            None => {},
                        },
                    },
                }
            }
            i = i + 1;
        }
        assert(tags@.subrange(0, i as int) =~= tags@);
        let ts = match mm_dd_yyyy_since_epoch(publish_date.as_str()) {
            Some(t) => t,
            None => return Err(crate::parser::HTMLError::InvalidDate),
        };
        let fc = chars_of(file_path);
        let path = string_from_chars(slice_chars(fc.as_slice(), 13, fc.len() - 5).as_slice());
        Ok(Cbmd::new(title, intro, path, ts))
    }

    /// The record of an HTML blog post at `file_path` whose text is `source`.
    pub fn from_html_file(file_path: &str, source: String) -> (r: Result<Cbmd, crate::parser::HTMLError>)
        requires
            file_path@.len() >= 18,
        ensures
            r matches Ok(c) ==> c.path@ == page_path_of(file_path@) && exists|tags: Seq<crate::tag::IterTag>|
                #[trigger] meta_record(tags) == Some((c.title@, c.intro_words@, c.publish_ts as nat)),
    {
        let tree = match crate::parser::parse_html(source) {
            Ok(t) => t,
            Err(e) => return Err(e),
        };
        let flat = crate::tag::flaten_tree(tree);
        let r = Cbmd::from_meta_tags(&flat, file_path);
        if let Ok(c) = &r {
            assert(meta_record(flat@) == Some((c.title@, c.intro_words@, c.publish_ts as nat)));
        }
        r
    }
}


/// A serialised record reads back as the record it came from, when each of
/// its text fields is shorter than 256 bytes in UTF-8: the same texts and
/// the same publish time.
#[verifier::rlimit(60)]
#[verifier::spinoff_prover]
pub proof fn lemma_record_round_trip(title: Seq<char>, intro: Seq<char>, path: Seq<char>, ts: u64)
    requires
        encode_utf8(title).len() < 256,
        encode_utf8(intro).len() < 256,
        encode_utf8(path).len() < 256,
    ensures
        parse_record(record_bytes(title, intro, path, spec_u64_to_le_bytes(ts)))
            == Some((encode_utf8(title), encode_utf8(intro), encode_utf8(path), ts as nat)),
        decode_utf8(encode_utf8(title)) == title,
        decode_utf8(encode_utf8(intro)) == intro,
        decode_utf8(encode_utf8(path)) == path,
        valid_utf8(encode_utf8(title)) && valid_utf8(encode_utf8(intro)) && valid_utf8(encode_utf8(path)),
{
    vstd::bytes::lemma_auto_spec_u64_to_from_le_bytes();
    vstd::utf8::encode_utf8_decode_utf8(title);
    vstd::utf8::encode_utf8_decode_utf8(intro);
    vstd::utf8::encode_utf8_decode_utf8(path);
    vstd::utf8::encode_utf8_valid_utf8(title);
    vstd::utf8::encode_utf8_valid_utf8(intro);
    vstd::utf8::encode_utf8_valid_utf8(path);
    let t = encode_utf8(title);
    let i = encode_utf8(intro);
    let p = encode_utf8(path);
    let tb = spec_u64_to_le_bytes(ts);
    let b = record_bytes(title, intro, path, tb);
    let t_end: int = 1 + t.len() as int;
    let i_end: int = t_end + 1 + i.len() as int;
    let p_end: int = i_end + 1 + p.len() as int;
    assert(b[0] == (t.len() % 256) as u8);
    assert(b[t_end] == (i.len() % 256) as u8);
    assert(b[i_end] == (p.len() % 256) as u8);
    assert(b.subrange(1, t_end) =~= t);
    assert(b.subrange(t_end + 1, i_end) =~= i);
    assert(b.subrange(i_end + 1, p_end) =~= p);
    assert(b.subrange(p_end, p_end + 8) =~= tb);
}

} // verus!
