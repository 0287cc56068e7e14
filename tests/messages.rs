use website::blog::Cbmd;
use website::parser::{parse_html, HTMLError, ParseError};
use website::scanner::{LexicalError, Token, TokenType};
use website::tag::{Attribute, Tag};

#[test]
fn parse_error_texts() {
    let e = ParseError::UnexpectedToken {
        expected_tokens: vec![TokenType::Identifier, TokenType::GreaterThan],
        incorect_token: Token::new(0, 0, TokenType::Eof, 3, 9),
    };
    assert_eq!(e.message(), "expected: Identifier > found: End of File, at line: 3 char: 9");
    let e = ParseError::IncorrectTermination {
        tag_to_be_closed: "p".to_string(),
        tag_to_be_closed_line_number: 2,
        tag_to_be_closed_char_pos: 14,
        tag_should_be_closed: "div".to_string(),
    };
    assert_eq!(e.message(), "p tag improperly closed found div tag at line: 2, char: 14");
    let e = ParseError::UnterminatedTag { unclosed_tag: "body".to_string(), unclosed_line_number: 10, unclosed_char_pos: 1 };
    assert_eq!(e.message(), "Unterminated body tag at line number: 10 char pos: 1");
    assert_eq!(ParseError::IncorrectDoctype.message(), "DOCTYPE tag did not contain HTML");
}

#[test]
fn lexical_and_document_error_texts() {
    assert_eq!(LexicalError::UnterminatedComment(4).message(), "Unterminated comment at line: 4");
    assert_eq!(LexicalError::UnterminatedString(12).message(), "Uniterminated comment at line: 12");
    assert_eq!(HTMLError::LexicalError(LexicalError::UnterminatedComment(1)).message(), "Unterminated comment at line: 1");
    assert_eq!(TokenType::CloseTag.text(), "/>");
    assert_eq!(TokenType::SomethingElse.text(), "text");
    match parse_html("<!DOCTYPE html><p>x</div>".to_string()) {
        Err(e) => assert_eq!(e.message(), "p tag improperly closed found div tag at line: 1, char: 21"),
        Ok(_) => panic!("expected an error"),
    }
}

#[test]
fn tag_outline() {
    let mut t = Tag::new_closeable_tag("div".to_string(), 1, 1);
    t.insert_attribute("id".to_string(), Some("a".to_string()));
    t.add_content("hi");
    t.add_child(Tag::new_noncloseable_tag("br".to_string(), 1, 10));
    let expected = "{\n   Name: div\n   Attributes: [\n      id=a,\n   ]\n   Content: hi\n   Chilren: [\n      {\n         Name: br\n         Attributes: [\n         ]\n      },\n   ]\n}";
    assert_eq!(t.format_tag(0), expected);
    let b = Tag::new_noncloseable_tag("hr".to_string(), 1, 1);
    let mut b = b;
    b.add_attribute(Attribute::new("hidden".to_string(), None));
    assert_eq!(b.format_tag(1), "   {\n      Name: hr\n      Attributes: [\n         hidden\n      ]\n   }");
}

#[test]
fn record_text_decoded_lossily() {
    let mut b = vec![2u8, 0xff, b'a', 1, b'i', 1, b'/'];
    b.extend_from_slice(&[1, 0, 0, 0, 0, 0, 0, 0]);
    let c = Cbmd::from_meta_bytes(&b).unwrap();
    assert_eq!(c.title, "\u{fffd}a");
    assert_eq!(c.intro_words, "i");
    assert_eq!(c.path, "/");
    assert_eq!(c.publish_ts, 1);
}
