use website::blog::{clean_url_spaces, filter_by_title, mm_dd_yyyy_since_epoch, serialize_listing, sort_by_timestamp_desc, Cbmd};

fn rec(title: &str, ts: u64) -> Cbmd {
    Cbmd::new(title.to_string(), "intro".to_string(), "/blog/p".to_string(), ts)
}

#[test]
fn record_trims_and_serializes() {
    let c = Cbmd::new("Title\n".to_string(), "Intro\r\n".to_string(), "/blog/x".to_string(), 258);
    assert_eq!(c.get_title(), "Title");
    assert_eq!(c.intro_words, "Intro");
    assert_eq!(c.get_timestamp(), 258);
    let mut expected = vec![5u8];
    expected.extend_from_slice(b"Title");
    expected.push(5);
    expected.extend_from_slice(b"Intro");
    expected.push(7);
    expected.extend_from_slice(b"/blog/x");
    expected.extend_from_slice(&[2, 1, 0, 0, 0, 0, 0, 0]);
    assert_eq!(c.serialize(), expected);
}

#[test]
fn record_round_trip() {
    let c = Cbmd::new("A post".to_string(), "About it".to_string(), "/blog/a-post".to_string(), 1699920000);
    let b = c.serialize();
    let d = Cbmd::from_meta_bytes(&b).unwrap();
    assert_eq!(d.title, "A post");
    assert_eq!(d.intro_words, "About it");
    assert_eq!(d.path, "/blog/a-post");
    assert_eq!(d.publish_ts, 1699920000);
    assert!(Cbmd::from_meta_bytes(&b[..b.len() - 1]).is_none());
    assert!(Cbmd::from_meta_bytes(&[]).is_none());
}

#[test]
fn record_date_text() {
    assert_eq!(rec("x", 0).format_date(), "January/1/1970");
    assert_eq!(rec("x", 1700000000).format_date(), "November/14/2023");
}

#[test]
fn publish_date_parsing() {
    assert_eq!(mm_dd_yyyy_since_epoch("1/1/1970"), Some(0));
    assert_eq!(mm_dd_yyyy_since_epoch("11/14/2023"), Some(1699920000));
    assert_eq!(mm_dd_yyyy_since_epoch(" 2/29/2000 \n"), Some(951782400));
    assert_eq!(mm_dd_yyyy_since_epoch("13/1/2000"), Some(946684800));
    assert_eq!(mm_dd_yyyy_since_epoch("0/1/2000"), Some(975628800));
    assert_eq!(mm_dd_yyyy_since_epoch("2/30/2001"), None);
    assert_eq!(mm_dd_yyyy_since_epoch("1/1"), None);
    assert_eq!(mm_dd_yyyy_since_epoch("12/25/1969"), None);
}

#[test]
fn listing_layout() {
    let v = vec![rec("a", 1), rec("bb", 2), rec("ccc", 3)];
    let one = rec("bb", 2).serialize();
    let out = serialize_listing(&v, 1, 1);
    let mut expected = vec![1u8, one.len() as u8, 0];
    expected.extend_from_slice(&one);
    assert_eq!(out, expected);
    assert_eq!(serialize_listing(&v, 5, 5), vec![0u8]);
    assert_eq!(serialize_listing(&v, 0, 10)[0], 3);
}

#[test]
fn search_helpers() {
    assert_eq!(clean_url_spaces("hello%20world%2"), "hello world%2");
    let v = vec![rec("Rust tips", 1), rec("Cooking", 2), rec("More Rust", 3)];
    let found = filter_by_title(v, "Rust");
    let titles: Vec<&str> = found.iter().map(|c| c.get_title()).collect();
    assert_eq!(titles, vec!["Rust tips", "More Rust"]);
}

#[test]
fn newest_first_order() {
    let v = vec![rec("a", 5), rec("b", 9), rec("c", 5), rec("d", 1)];
    let s = sort_by_timestamp_desc(v);
    let titles: Vec<&str> = s.iter().map(|c| c.get_title()).collect();
    assert_eq!(titles, vec!["b", "a", "c", "d"]);
}
