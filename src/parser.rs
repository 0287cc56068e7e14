//! The recursive-descent HTML parser: a `<!DOCTYPE html>` tag, then a
//! sequence of tags, each with attributes, text content and children.

use vstd::prelude::*;
use crate::scanner::{Token, TokenType, LexicalError, is_identifier_type, is_void_tag, token_ok, token_type_text, lexical_error_text};
use crate::tag::Tag;
use crate::text::{chars_of, decimal, str_equals, string_from_chars};

verus! {

/// Why a token sequence is not a document.
#[derive(Debug)]
pub enum ParseError {
    UnexpectedToken {
        expected_tokens: Vec<TokenType>,
        incorect_token: Token,
    },
    IncorrectTermination {
        tag_to_be_closed: String,
        tag_to_be_closed_line_number: usize,
        tag_to_be_closed_char_pos: usize,
        tag_should_be_closed: String,
    },
    UnterminatedTag {
        unclosed_tag: String,
        unclosed_line_number: usize,
        unclosed_char_pos: usize,
    },
    IncorrectDoctype,
}

/// Why an HTML document could not be read.
#[derive(Debug)]
pub enum HTMLError {
    LexicalError(LexicalError),
    ParseError(ParseError),
    /// A publish date in the document's metadata is not a valid date.
    InvalidDate,
}

/// Whether the three tokens before `pos` close a tag named `name`: `</`, a
/// tag-name token whose text is `name`, and `>`.
pub open spec fn closed_by_name(tokens: Seq<Token>, pos: int, name: Seq<char>, src: Seq<char>) -> bool {
    &&& 3 <= pos <= tokens.len()
    &&& tokens[pos - 3].token_type == TokenType::CloseTag
    &&& is_identifier_type(tokens[pos - 2].token_type)
    &&& src.subrange(tokens[pos - 2].lexeme_start as int, tokens[pos - 2].lexeme_end as int) == name
    &&& tokens[pos - 1].token_type == TokenType::GreaterThan
}

/// Whether the tokens from `pos` open a doctype, `<!DOCTYPE `, whose
/// document type is a name other than `html`.
pub open spec fn wrong_doctype(tokens: Seq<Token>, pos: int, src: Seq<char>) -> bool {
    &&& 0 <= pos && pos + 5 <= tokens.len()
    &&& tokens[pos].token_type == TokenType::LessThan
    &&& tokens[pos + 1].token_type == TokenType::Bang
    &&& tokens[pos + 2].token_type == TokenType::Doctype
    &&& tokens[pos + 3].token_type == TokenType::WhiteSpace
    &&& tokens[pos + 4].token_type == TokenType::Identifier
    &&& src.subrange(tokens[pos + 4].lexeme_start as int, tokens[pos + 4].lexeme_end as int) != "html"@
}

/// Token kinds that make up text content.
pub open spec fn is_text_type(t: TokenType) -> bool {
    t != TokenType::LessThan && t != TokenType::CloseTag && t != TokenType::Eof
}

/// The tag-name token kinds, in the order an error lists them.
pub fn identifier_tokens() -> (r: Vec<TokenType>)
    ensures
        forall|i: int| 0 <= i < r@.len() ==> is_identifier_type(#[trigger] r@[i]),
        r@.len() == 15,
{
    let r = vec![
        TokenType::Area, TokenType::Base, TokenType::Br, TokenType::Col, TokenType::Embed,
        TokenType::Hr, TokenType::Img, TokenType::Input, TokenType::Link, TokenType::Meta,
        TokenType::Param, TokenType::Source, TokenType::Track, TokenType::Wbr, TokenType::Identifier,
    ];
    r
}

/// The parser's state: the tokens and the position of the next one.
pub struct Parser {
    pub tokens: Vec<Token>,
    pub current: usize,
}

impl Parser {
    pub open spec fn wf(&self) -> bool {
        &&& self.tokens@.len() > 0
        &&& self.tokens@.last().token_type == TokenType::Eof
        &&& self.current < self.tokens@.len()
    }

    /// Whether every token lies within `src`.
    pub open spec fn tokens_in(&self, src: Seq<char>) -> bool {
        forall|i: int| 0 <= i < self.tokens@.len() ==> token_ok(src, #[trigger] self.tokens@[i])
    }

    /// A parser at the first of `tokens`, which end with `Eof`.
    pub fn new(tokens: Vec<Token>) -> (r: Self)
        requires
            tokens@.len() > 0,
            tokens@.last().token_type == TokenType::Eof,
        ensures
            r.wf(),
            r.tokens == tokens,
            r.current == 0,
    {
        Parser { tokens, current: 0 }
    }

    fn peek(&self) -> (r: Token)
        requires
            self.wf(),
        ensures
            r == self.tokens@[self.current as int],
    {
        self.tokens[self.current]
    }

    fn is_at_end(&self) -> (r: bool)
        requires
            self.wf(),
        ensures
            r == (self.tokens@[self.current as int].token_type == TokenType::Eof),
    {
        self.peek().get_type() == TokenType::Eof
    }

    fn get_previous(&self) -> (r: Token)
        requires
            self.wf(),
            self.current > 0,
        ensures
            r == self.tokens@[self.current - 1],
    {
        self.tokens[self.current - 1]
    }

    /// Moves past the next token unless it is `Eof`, and returns the token
    /// before the new position.
    fn advance(&mut self) -> (r: Token)
        requires
            old(self).wf(),
            old(self).current > 0 || old(self).tokens@[old(self).current as int].token_type != TokenType::Eof,
        ensures
            final(self).wf(),
            final(self).tokens == old(self).tokens,
            old(self).tokens@[old(self).current as int].token_type != TokenType::Eof
                ==> final(self).current == old(self).current + 1,
            old(self).tokens@[old(self).current as int].token_type == TokenType::Eof
                ==> final(self).current == old(self).current,
            r == final(self).tokens@[final(self).current - 1],
            final(self).current > 0,
    {
        if !self.is_at_end() {
            let n = self.tokens.len();
            assert(self.current != n - 1);
            self.current = self.current + 1;
        }
        self.get_previous()
    }

    fn go_back(&mut self, amount: usize)
        requires
            old(self).wf(),
        ensures
            final(self).wf(),
            final(self).tokens == old(self).tokens,
            final(self).current == if old(self).current >= amount { old(self).current - amount } else { 0 },
    {
        if self.current >= amount {
            self.current = self.current - amount;
        } else {
            self.current = 0;
        }
    }

    fn check_token_type(&self, token_type: TokenType) -> (r: bool)
        requires
            self.wf(),
        ensures
            r == (self.tokens@[self.current as int].token_type != TokenType::Eof
                && self.tokens@[self.current as int].token_type == token_type),
    {
        !self.is_at_end() && self.peek().get_type() == token_type
    }

    /// Takes the next token if it has the expected kind.
    fn consume(&mut self, expected: TokenType) -> (r: Result<Token, ParseError>)
        requires
            old(self).wf(),
        ensures
            final(self).wf(),
            final(self).tokens == old(self).tokens,
            r is Ok ==> final(self).current == old(self).current + 1
                && old(self).tokens@[old(self).current as int].token_type == expected
                && expected != TokenType::Eof,
            r matches Ok(t) ==> t == old(self).tokens@[old(self).current as int],
            r is Err ==> final(self).current == old(self).current,
            r matches Err(e) ==> e is UnexpectedToken,
    {
        if self.check_token_type(expected) {
            Ok(self.advance())
        } else {
            let mut e: Vec<TokenType> = Vec::new();
            e.push(expected);
            Err(ParseError::UnexpectedToken { expected_tokens: e, incorect_token: self.peek() })
        }
    }

    fn consume_identifer_like_token(&mut self) -> (r: Result<Token, ParseError>)
        requires
            old(self).wf(),
        ensures
            final(self).wf(),
            final(self).tokens == old(self).tokens,
            r is Ok ==> final(self).current == old(self).current + 1,
            r matches Ok(t) ==> t == old(self).tokens@[old(self).current as int] && is_identifier_type(t.token_type),
            r is Err ==> final(self).current == old(self).current,
            r matches Err(e) ==> e is UnexpectedToken,
    {
        if self.peek().is_identifier() {
            Ok(self.advance())
        } else {
            Err(ParseError::UnexpectedToken { expected_tokens: identifier_tokens(), incorect_token: self.peek() })
        }
    }

    /// Skips one white-space token, if it is next.
    fn skip_white_space(&mut self)
        requires
            old(self).wf(),
        ensures
            final(self).wf(),
            final(self).tokens == old(self).tokens,
            final(self).current >= old(self).current,
    {
        if self.peek().get_type() == TokenType::WhiteSpace {
            self.advance();
        }
    }

    /// Appends the text of the tokens up to the next `<`, `</` or end.
    fn skip_all_text(&mut self, buffer: &mut Vec<char>, source: &str)
        requires
            old(self).wf(),
            old(self).tokens_in(source@),
        ensures
            final(self).wf(),
            final(self).tokens == old(self).tokens,
            final(self).current >= old(self).current,
            !is_text_type(final(self).tokens@[final(self).current as int].token_type),
    {
        while is_text_kind(self.peek().get_type())
            invariant
                self.wf(),
                self.tokens == old(self).tokens,
                self.tokens_in(source@),
                self.current >= old(self).current,
            decreases self.tokens@.len() - self.current,
        {
            let token = self.advance();
            let text = token.get_str_representation(source);
            crate::text::push_str(buffer, text.as_str());
        }
    }
}

impl Parser {
    fn text_of(&self, t: Token, source: &str) -> (r: String)
        requires
            self.tokens_in(source@),
            exists|i: int| 0 <= i < self.tokens@.len() && self.tokens@[i] == t,
        ensures
            r@ == source@.subrange(t.lexeme_start as int, t.lexeme_end as int),
    {
        let ghost i = choose|i: int| 0 <= i < self.tokens@.len() && self.tokens@[i] == t;
        assert(token_ok(source@, self.tokens@[i]));
        t.get_str_representation(source)
    }

    /// An attribute after its name token: `name`, or `name = "value"`.
    fn attribute(&mut self, ident: Token, source: &str) -> (r: Result<(String, Option<String>), ParseError>)
        requires
            old(self).wf(),
            old(self).tokens_in(source@),
            exists|i: int| 0 <= i < old(self).tokens@.len() && old(self).tokens@[i] == ident,
        ensures
            final(self).wf(),
            final(self).tokens == old(self).tokens,
            final(self).current >= old(self).current,
            r matches Ok((n, _)) ==> n@ == source@.subrange(ident.lexeme_start as int, ident.lexeme_end as int),
            r matches Err(e) ==> e is UnexpectedToken,
    {
        self.skip_white_space();
        let name = self.text_of(ident, source);
        let next_token = self.peek();
        if next_token.get_type() == TokenType::Equal {
            self.advance();
            self.skip_white_space();
            let v = match self.consume(TokenType::String) {
                Ok(t) => t,
                Err(e) => return Err(e),
            };
            let value = self.text_of(v, source);
            Ok((name, Some(value)))
        } else {
            Ok((name, None))
        }
    }

    fn expected_name_or_close(found: Token) -> (r: ParseError)
        ensures
            r is UnexpectedToken,
    {
        let mut e: Vec<TokenType> = Vec::new();
        e.push(TokenType::Identifier);
        e.push(TokenType::GreaterThan);
        ParseError::UnexpectedToken { expected_tokens: e, incorect_token: found }
    }

    /// A tag with its attributes, and unless it is a void tag, its content
    /// and children up to its closing tag.
    fn tag(&mut self, source: &str) -> (r: Result<Tag, ParseError>)
        requires
            old(self).wf(),
            old(self).tokens_in(source@),
        ensures
            final(self).wf(),
            final(self).tokens == old(self).tokens,
            r is Ok ==> final(self).current >= old(self).current + 2,
            r matches Ok(t) ==> ({
                let name_token = old(self).tokens@[old(self).current + 1];
                &&& old(self).tokens@[old(self).current as int].token_type == TokenType::LessThan
                &&& t.name()@ == source@.subrange(name_token.lexeme_start as int, name_token.lexeme_end as int)
                &&& t.line() == name_token.line_number
                &&& t.column() == name_token.character_pos
                &&& (t is NonCloseableTag <==> is_void_tag(name_token.token_type))
                &&& (t is CloseableTag ==> closed_by_name(final(self).tokens@, final(self).current as int, t.name()@, source@))
            }),
            r matches Err(ParseError::IncorrectTermination { tag_to_be_closed, tag_should_be_closed, .. })
                ==> tag_to_be_closed@ != tag_should_be_closed@,
            r matches Err(ParseError::UnterminatedTag { .. })
                ==> final(self).tokens@[final(self).current as int].token_type == TokenType::Eof,
            r matches Err(e) ==> !(e is IncorrectDoctype),
        decreases old(self).tokens@.len() - old(self).current,
    {
        let start = self.current;
        match self.consume(TokenType::LessThan) {
            Ok(_) => {},
            Err(e) => return Err(e),
        }
        let next_token = self.advance();
        if !next_token.is_identifier() {
            return Err(ParseError::UnexpectedToken { expected_tokens: identifier_tokens(), incorect_token: next_token });
        }
        assert(self.current == start + 2);
        proof {
            assert(token_ok(source@, next_token));
        }
        let mut base_tag = Tag::from_token(next_token, source);
        let ghost name0 = base_tag.name();
        let ghost line0 = base_tag.line();
        let ghost col0 = base_tag.column();
        let ghost kind0 = base_tag is NonCloseableTag;

        loop
            invariant
                self.wf(),
                self.tokens == old(self).tokens,
                self.tokens_in(source@),
                self.current >= start + 2,
                start == old(self).current,
                base_tag.name() == name0 && base_tag.line() == line0 && base_tag.column() == col0,
                (base_tag is NonCloseableTag) == kind0,
            decreases self.tokens@.len() - self.current,
        {
            self.skip_white_space();
            if self.is_at_end() {
                return Err(Parser::expected_name_or_close(self.peek()));
            }
            let nt = self.advance();
            if nt.get_type() == TokenType::Identifier {
                match self.attribute(nt, source) {
                    Ok((name, value)) => base_tag.insert_attribute(name, value),
                    Err(e) => return Err(e),
                }
            } else if nt.get_type() == TokenType::ForwardSlash {
                match base_tag {
                    Tag::NonCloseableTag { .. } => {
                        match self.consume(TokenType::GreaterThan) {
                            Ok(_) => break,
                            Err(e) => return Err(e),
                        }
                    },
                    Tag::CloseableTag { .. } => return Err(Parser::expected_name_or_close(nt)),
                }
            } else if nt.get_type() == TokenType::GreaterThan {
                break;
            } else {
                return Err(Parser::expected_name_or_close(nt));
            }
        }

        if let Tag::NonCloseableTag { .. } = base_tag {
            return Ok(base_tag);
        }

        let mut content: Vec<char> = Vec::new();
        loop
            invariant
                self.wf(),
                self.tokens == old(self).tokens,
                self.tokens_in(source@),
                self.current >= start + 2,
                start == old(self).current,
                base_tag is CloseableTag,
                base_tag.name() == name0 && base_tag.line() == line0 && base_tag.column() == col0,
                !kind0,
            ensures
                closed_by_name(self.tokens@, self.current as int, name0@, source@),
                base_tag is CloseableTag,
                base_tag.name() == name0 && base_tag.line() == line0 && base_tag.column() == col0,
            decreases self.tokens@.len() - self.current,
        {
            self.skip_all_text(&mut content, source);
            let non_text_token = self.peek();
            let ghost pos = self.current;
            if non_text_token.get_type() == TokenType::CloseTag {
                self.advance();
                let ident = match self.consume_identifer_like_token() {
                    Ok(t) => t,
                    Err(e) => return Err(e),
                };
                let ident_name = self.text_of(ident, source);
                if !str_equals(ident_name.as_str(), base_tag.get_name()) {
                    let closed = string_from_chars(chars_of(base_tag.get_name()).as_slice());
                    return Err(ParseError::IncorrectTermination {
                        tag_to_be_closed: closed,
                        tag_to_be_closed_line_number: ident.get_line_number(),
                        tag_to_be_closed_char_pos: ident.get_character_pos(),
                        tag_should_be_closed: ident_name,
                    });
                }
                match self.consume(TokenType::GreaterThan) {
                    Ok(_) => {},
                    Err(e) => return Err(e),
                }
                let text = string_from_chars(content.as_slice());
                base_tag.add_content(text.as_str());
                break;
            } else if non_text_token.get_type() == TokenType::LessThan {
                self.advance();
                let next = self.peek();
                if next.get_type() == TokenType::WhiteSpace {
                    let a = self.text_of(non_text_token, source);
                    let b = self.text_of(next, source);
                    crate::text::push_str(&mut content, a.as_str());
                    crate::text::push_str(&mut content, b.as_str());
                    continue;
                }
                self.go_back(1);
                assert(self.current == pos);
                let child = match self.tag(source) {
                    Ok(c) => c,
                    Err(e) => return Err(e),
                };
                base_tag.add_child(child);
            } else {
                let name = string_from_chars(chars_of(base_tag.get_name()).as_slice());
                return Err(ParseError::UnterminatedTag {
                    unclosed_tag: name,
                    unclosed_line_number: base_tag.get_line_number(),
                    unclosed_char_pos: base_tag.get_character_pos(),
                });
            }
        }

        base_tag.clean_content();
        Ok(base_tag)
    }

    /// The `<!DOCTYPE html>` tag that opens a document.
    fn doctype(&mut self, source: &str) -> (r: Result<Tag, ParseError>)
        requires
            old(self).wf(),
            old(self).tokens_in(source@),
        ensures
            final(self).wf(),
            final(self).tokens == old(self).tokens,
            final(self).current >= old(self).current,
            r matches Ok(t) ==> t is NonCloseableTag && t.name()@ == "DOCTYPE"@ && t.attributes().len() == 0,
            r matches Err(ParseError::IncorrectDoctype) ==> wrong_doctype(old(self).tokens@, old(self).current as int, source@),
            r matches Err(e) ==> e is UnexpectedToken || e is IncorrectDoctype,
    {
        let start_token = match self.consume(TokenType::LessThan) { Ok(t) => t, Err(e) => return Err(e) };
        match self.consume(TokenType::Bang) { Ok(_) => {}, Err(e) => return Err(e) }
        match self.consume(TokenType::Doctype) { Ok(_) => {}, Err(e) => return Err(e) }
        match self.consume(TokenType::WhiteSpace) { Ok(_) => {}, Err(e) => return Err(e) }
        let ident = match self.consume(TokenType::Identifier) { Ok(t) => t, Err(e) => return Err(e) };
        let text = self.text_of(ident, source);
        if !str_equals(text.as_str(), "html") {
            return Err(ParseError::IncorrectDoctype);
        }
        self.skip_white_space();
        match self.consume(TokenType::GreaterThan) { Ok(_) => {}, Err(e) => return Err(e) }
        let name = string_from_chars(chars_of("DOCTYPE").as_slice());
        Ok(Tag::NonCloseableTag {
            name,
            attributes: Vec::new(),
            line_number: start_token.get_line_number(),
            start_char: start_token.get_character_pos(),
        })
    }

    /// Parses the tokens of `source`: the doctype tag, then top-level tags
    /// separated by optional white space.
    pub fn parse(&mut self, source: String) -> (r: Result<Vec<Tag>, ParseError>)
        requires
            old(self).wf(),
            old(self).tokens_in(source@),
        ensures
            final(self).wf(),
            final(self).tokens == old(self).tokens,
            r matches Ok(tags) ==> tags@.len() >= 1 && tags@[0] is NonCloseableTag && tags@[0].name()@ == "DOCTYPE"@,
            r matches Err(ParseError::IncorrectDoctype) ==> wrong_doctype(old(self).tokens@, old(self).current as int, source@),
            r matches Err(ParseError::IncorrectTermination { tag_to_be_closed, tag_should_be_closed, .. })
                ==> tag_to_be_closed@ != tag_should_be_closed@,
            r matches Err(ParseError::UnterminatedTag { .. })
                ==> final(self).tokens@[final(self).current as int].token_type == TokenType::Eof,
    {
        let mut tags: Vec<Tag> = Vec::new();
        let first_tag = match self.doctype(source.as_str()) { Ok(t) => t, Err(e) => return Err(e) };
        tags.push(first_tag);
        while !self.is_at_end()
            invariant
                self.wf(),
                self.tokens == old(self).tokens,
                self.tokens_in(source@),
                tags@.len() >= 1,
                tags@[0] is NonCloseableTag && tags@[0].name()@ == "DOCTYPE"@,
            decreases self.tokens@.len() - self.current,
        {
            self.skip_white_space();
            let tag = match self.tag(source.as_str()) { Ok(t) => t, Err(e) => return Err(e) };
            tags.push(tag);
        }
        Ok(tags)
    }
}

fn is_text_kind(t: TokenType) -> (r: bool)
    ensures
        r == is_text_type(t),
{
    t != TokenType::LessThan && t != TokenType::CloseTag && t != TokenType::Eof
}


} // verus!

verus! {

/// Tokenises and parses an HTML document.
pub fn parse_html(source: String) -> (r: Result<Vec<Tag>, HTMLError>)
    ensures
        r matches Ok(tags) ==> tags@.len() >= 1 && tags@[0] is NonCloseableTag && tags@[0].name()@ == "DOCTYPE"@,
        r matches Err(HTMLError::LexicalError(_)) ==> crate::scanner::may_err(source@),
        r matches Err(HTMLError::ParseError(ParseError::IncorrectTermination { tag_to_be_closed, tag_should_be_closed, .. }))
            ==> tag_to_be_closed@ != tag_should_be_closed@,
        !(r matches Err(HTMLError::InvalidDate)),
{
    let mut scanner = crate::scanner::Scanner::new(source);
    scanner.scan_tokens();
    let ghost src = scanner.src@;
    let ghost toks = scanner.tokens@;
    assert(forall|i: int| 0 <= i < toks.len() ==> token_ok(src, #[trigger] toks[i]));
    let (tokens, source) = match scanner.extract_source() {
        Ok(p) => p,
        Err(e) => return Err(HTMLError::LexicalError(e)),
    };
    let mut parser = Parser::new(tokens);
    match parser.parse(source) {
        Ok(tags) => Ok(tags),
        Err(e) => Err(HTMLError::ParseError(e)),
    }
}


/// The expected kinds of an error, each followed by a space.
pub open spec fn expected_text(ts: Seq<TokenType>) -> Seq<char>
    decreases ts.len(),
{
    if ts.len() == 0 { Seq::empty() } else { expected_text(ts.drop_last()) + token_type_text(ts.last()) + " "@ }
}

/// The text of a parse error.
pub open spec fn parse_error_text(e: ParseError) -> Seq<char> {
    match e {
        ParseError::UnexpectedToken { expected_tokens, incorect_token } =>
            "expected: "@ + expected_text(expected_tokens@) + "found: "@ + token_type_text(incorect_token.token_type)
                + ", at line: "@ + decimal(incorect_token.line_number as nat) + " char: "@
                + decimal(incorect_token.character_pos as nat),
        ParseError::IncorrectTermination { tag_to_be_closed, tag_to_be_closed_line_number, tag_to_be_closed_char_pos, tag_should_be_closed } =>
            tag_to_be_closed@ + " tag improperly closed found "@ + tag_should_be_closed@ + " tag at line: "@
                + decimal(tag_to_be_closed_line_number as nat) + ", char: "@ + decimal(tag_to_be_closed_char_pos as nat),
        ParseError::UnterminatedTag { unclosed_tag, unclosed_line_number, unclosed_char_pos } =>
            "Unterminated "@ + unclosed_tag@ + " tag at line number: "@ + decimal(unclosed_line_number as nat)
                + " char pos: "@ + decimal(unclosed_char_pos as nat),
        ParseError::IncorrectDoctype => "DOCTYPE tag did not contain HTML"@,
    }
}

impl ParseError {
    /// The text of the error.
    pub fn message(&self) -> (r: String)
        ensures
            r@ == parse_error_text(*self),
    {
        let mut v: Vec<char> = Vec::new();
        match self {
            ParseError::UnexpectedToken { expected_tokens, incorect_token } => {
                crate::text::push_str(&mut v, "expected: ");
                let ghost v0 = v@;
                let mut i: usize = 0;
                while i < expected_tokens.len()
                    invariant
                        i <= expected_tokens@.len(),
                        v@ == v0 + expected_text(expected_tokens@.subrange(0, i as int)),
                    decreases expected_tokens@.len() - i,
                {
                    crate::text::push_str(&mut v, expected_tokens[i].text());
                    crate::text::push_str(&mut v, " ");
                    assert(expected_tokens@.subrange(0, i + 1).drop_last() =~= expected_tokens@.subrange(0, i as int));
                    i = i + 1;
                }
                assert(expected_tokens@.subrange(0, i as int) =~= expected_tokens@);
                crate::text::push_str(&mut v, "found: ");
                crate::text::push_str(&mut v, incorect_token.get_type().text());
                crate::text::push_str(&mut v, ", at line: ");
                crate::text::push_decimal(&mut v, incorect_token.get_line_number() as u64);
                crate::text::push_str(&mut v, " char: ");
                crate::text::push_decimal(&mut v, incorect_token.get_character_pos() as u64);
            },
            ParseError::IncorrectTermination { tag_to_be_closed, tag_to_be_closed_line_number, tag_to_be_closed_char_pos, tag_should_be_closed } => {
                crate::text::push_str(&mut v, tag_to_be_closed.as_str());
                crate::text::push_str(&mut v, " tag improperly closed found ");
                crate::text::push_str(&mut v, tag_should_be_closed.as_str());
                crate::text::push_str(&mut v, " tag at line: ");
                crate::text::push_decimal(&mut v, *tag_to_be_closed_line_number as u64);
                crate::text::push_str(&mut v, ", char: ");
                crate::text::push_decimal(&mut v, *tag_to_be_closed_char_pos as u64);
            },
            ParseError::UnterminatedTag { unclosed_tag, unclosed_line_number, unclosed_char_pos } => {
                crate::text::push_str(&mut v, "Unterminated ");
                crate::text::push_str(&mut v, unclosed_tag.as_str());
                crate::text::push_str(&mut v, " tag at line number: ");
                crate::text::push_decimal(&mut v, *unclosed_line_number as u64);
                crate::text::push_str(&mut v, " char pos: ");
                crate::text::push_decimal(&mut v, *unclosed_char_pos as u64);
            },
            ParseError::IncorrectDoctype => {
                crate::text::push_str(&mut v, "DOCTYPE tag did not contain HTML");
            },
        }
        assert(v@ =~= parse_error_text(*self));
        string_from_chars(v.as_slice())
    }
}

/// The text of a document error.
pub open spec fn html_error_text(e: HTMLError) -> Seq<char> {
    match e {
        HTMLError::LexicalError(l) => lexical_error_text(l),
        HTMLError::ParseError(p) => parse_error_text(p),
        HTMLError::InvalidDate => "publish date is not a valid month/day/year date"@,
    }
}

impl HTMLError {
    /// The text of the error.
    pub fn message(&self) -> (r: String)
        ensures
            r@ == html_error_text(*self),
    {
        match self {
            HTMLError::LexicalError(l) => l.message(),
            HTMLError::ParseError(p) => p.message(),
            HTMLError::InvalidDate => string_from_chars(chars_of("publish date is not a valid month/day/year date").as_slice()),
        }
    }
}

} // verus!
