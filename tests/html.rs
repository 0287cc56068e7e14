use website::blog::Cbmd;
use website::parser::{parse_html, HTMLError, ParseError, Parser};
use website::scanner::{is_white_space, LexicalError, Scanner, TokenType};
use website::tag::{flaten_tree, tag_to_iter_tag, Attribute, Tag};

const DOC: &str = "<!DOCTYPE html>\n<html>\n<head>\n<meta title=\"My Post\">\n<meta publish-date=\"11/14/2023\">\n<meta intro=\"Hello there\">\n</head>\n<body><p class=\"x\">Some\n   text here</p></body>\n</html>";

#[test]
fn scanner_tokens() {
    let mut s = Scanner::new("<a href=\"x\">hi</a>".to_string());
    s.scan_tokens();
    let (tokens, source) = s.extract_source().unwrap();
    let kinds: Vec<TokenType> = tokens.iter().map(|t| t.get_type()).collect();
    assert_eq!(
        kinds,
        vec![
            TokenType::LessThan, TokenType::Identifier, TokenType::WhiteSpace, TokenType::Identifier,
            TokenType::Equal, TokenType::String, TokenType::GreaterThan, TokenType::Identifier,
            TokenType::CloseTag, TokenType::Identifier, TokenType::GreaterThan, TokenType::Eof,
        ]
    );
    assert_eq!(tokens[5].get_str_representation(&source), "x");
    assert_eq!(tokens[3].get_str_representation(&source), "href");
    assert_eq!(tokens[3].get_character_pos(), 3);
    assert_eq!(tokens[3].get_line_number(), 1);
    assert!(tokens[1].is_identifier());
    assert!(is_white_space("\t"));
    assert!(!is_white_space("x"));
}

#[test]
fn scanner_errors() {
    let mut s = Scanner::new("<a href=\"x>".to_string());
    s.scan_tokens();
    assert!(matches!(s.extract_source(), Err(LexicalError::UnterminatedString(1))));
    let mut s = Scanner::new("<!-- open".to_string());
    s.scan_tokens();
    assert!(matches!(s.extract_source(), Err(LexicalError::UnterminatedComment(1))));
}

#[test]
fn parse_document_tree() {
    let tags = parse_html(DOC.to_string()).unwrap();
    assert_eq!(tags.len(), 2);
    assert_eq!(tags[0].get_name(), "DOCTYPE");
    assert_eq!(tags[1].get_name(), "html");
    let flat = flaten_tree(tags);
    let names: Vec<&str> = flat.iter().map(|t| t.get_name()).collect();
    assert_eq!(names, vec!["DOCTYPE", "html", "head", "meta", "meta", "meta", "body", "p"]);
    assert_eq!(flat[3].get_attribute("title"), Some("My Post"));
    assert_eq!(flat[7].get_content(), &Some("Some text here".to_string()));
    assert_eq!(flat[7].get_attribute("class"), Some("x"));
    assert_eq!(flat[1].get_content(), &Some(String::new()));
    assert_eq!(flat[3].get_content(), &None);
}

#[test]
fn parse_errors() {
    assert!(matches!(parse_html("<!DOCTYPE xml>".to_string()), Err(HTMLError::ParseError(ParseError::IncorrectDoctype))));
    assert!(matches!(
        parse_html("<!DOCTYPE html><p>x</div>".to_string()),
        Err(HTMLError::ParseError(ParseError::IncorrectTermination { .. }))
    ));
    assert!(matches!(
        parse_html("<!DOCTYPE html><p>x".to_string()),
        Err(HTMLError::ParseError(ParseError::UnterminatedTag { .. }))
    ));
    assert!(matches!(
        parse_html("<!DOCTYPE html><p".to_string()),
        Err(HTMLError::ParseError(ParseError::UnexpectedToken { .. }))
    ));
}

#[test]
fn parser_from_tokens() {
    let mut s = Scanner::new("<!DOCTYPE html><br/>".to_string());
    s.scan_tokens();
    let (tokens, source) = s.extract_source().unwrap();
    let mut p = Parser::new(tokens);
    let tags = p.parse(source).unwrap();
    assert_eq!(tags.len(), 2);
    assert_eq!(tags[1].get_name(), "br");
    assert!(tags[1].get_children().is_none());
}

#[test]
fn tag_editing() {
    let mut t = Tag::new_closeable_tag("div".to_string(), 3, 7);
    t.insert_attribute("id".to_string(), Some("a".to_string()));
    t.insert_attribute("id".to_string(), Some("b".to_string()));
    t.add_attribute(Attribute::new("hidden".to_string(), None));
    assert_eq!(t.get_attributes().len(), 2);
    assert_eq!(t.get_attributes()[0].value.as_deref(), Some("b"));
    t.add_content("  first line\n\t second   \n");
    t.clean_content();
    assert_eq!(t.get_content(), Some("first line second"));
    t.add_child(Tag::new_noncloseable_tag("img".to_string(), 4, 1));
    assert_eq!(t.get_children().unwrap().len(), 1);
    assert_eq!(t.get_line_number(), 3);
    assert_eq!(t.get_character_pos(), 7);
    let flat = tag_to_iter_tag(t);
    assert_eq!(flat.len(), 2);
    assert_eq!(flat[1].get_name(), "img");
    assert_eq!(flat[1].get_line_number(), 4);
    assert_eq!(flat[1].get_start_char(), 1);
    let mut w = Tag::new_closeable_tag("p".to_string(), 1, 1);
    w.add_content(" \n\t ");
    w.clean_content();
    assert_eq!(w.get_content(), Some(""));
}

#[test]
fn record_from_html_document() {
    let c = Cbmd::from_html_file("website/files/blog/my-post.html", DOC.to_string()).unwrap();
    assert_eq!(c.title, "My Post");
    assert_eq!(c.intro_words, "Hello there");
    assert_eq!(c.path, "/blog/my-post");
    assert_eq!(c.publish_ts, 1699920000);
    let bad = DOC.replace("11/14/2023", "nope");
    assert!(matches!(Cbmd::from_html_file("website/files/blog/my-post.html", bad), Err(HTMLError::InvalidDate)));
}
