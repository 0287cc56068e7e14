//! The HTML lexer: splits ASCII HTML source into tokens with their line and
//! column.

use vstd::prelude::*;
use crate::text::{chars_of, decimal, slice_chars, string_from_chars};

verus! {

/// The kinds of token.
#[derive(Clone, Copy, Debug, PartialEq, Eq, Structural)]
pub enum TokenType {
    Bang,
    LessThan,
    GreaterThan,
    CloseTag,
    Identifier,
    Equal,
    String,
    ForwardSlash,
    WhiteSpace,
    Doctype,
    Area,
    Base,
    Br,
    Col,
    Embed,
    Hr,
    Img,
    Input,
    Link,
    Meta,
    Param,
    Source,
    Track,
    Wbr,
    SomethingElse,
    Eof,
}

/// Tag names that never have a closing tag.
pub open spec fn is_void_tag(t: TokenType) -> bool {
    match t {
        TokenType::Area | TokenType::Base | TokenType::Br | TokenType::Col | TokenType::Embed
        | TokenType::Hr | TokenType::Img | TokenType::Input | TokenType::Link | TokenType::Meta
        | TokenType::Param | TokenType::Source | TokenType::Track | TokenType::Wbr => true,
        _ => false,
    }
}

/// Tokens that can name a tag.
pub open spec fn is_identifier_type(t: TokenType) -> bool {
    is_void_tag(t) || t == TokenType::Identifier
}

/// Why source could not be tokenised; the number is the line.
#[derive(Clone, Copy, Debug, PartialEq, Eq, Structural)]
pub enum LexicalError {
    UnterminatedString(usize),
    UnterminatedComment(usize),
}

/// A token: its kind, where its text lies in the source, and its line and
/// column.
#[derive(Clone, Copy, Debug)]
pub struct Token {
    pub token_type: TokenType,
    pub lexeme_start: usize,
    pub lexeme_end: usize,
    pub line_number: usize,
    pub character_pos: usize,
}

impl Token {
    pub fn new(start: usize, end: usize, token_type: TokenType, line_number: usize, character_pos: usize) -> (r: Self)
        ensures
            r.token_type == token_type,
            r.lexeme_start == start,
            r.lexeme_end == end,
            r.line_number == line_number,
            r.character_pos == character_pos,
    {
        Token { token_type, lexeme_start: start, lexeme_end: end, line_number, character_pos }
    }

    pub fn get_line_number(&self) -> (r: usize)
        ensures
            r == self.line_number,
    {
        self.line_number
    }

    pub fn get_character_pos(&self) -> (r: usize)
        ensures
            r == self.character_pos,
    {
        self.character_pos
    }

    pub fn get_type(&self) -> (r: TokenType)
        ensures
            r == self.token_type,
    {
        self.token_type
    }

    /// Whether the token can name a tag.
    pub fn is_identifier(&self) -> (r: bool)
        ensures
            r == is_identifier_type(self.token_type),
    {
        match self.token_type {
            TokenType::Area | TokenType::Base | TokenType::Br | TokenType::Col | TokenType::Embed
            | TokenType::Hr | TokenType::Img | TokenType::Input | TokenType::Link | TokenType::Meta
            | TokenType::Param | TokenType::Source | TokenType::Track | TokenType::Wbr
            | TokenType::Identifier => true,
            _ => false,
        }
    }

    /// The token's text in `source`.
    pub fn get_str_representation(&self, source: &str) -> (r: String)
        requires
            self.lexeme_start <= self.lexeme_end <= source@.len(),
        ensures
            r@ == source@.subrange(self.lexeme_start as int, self.lexeme_end as int),
    {
        let c = chars_of(source);
        string_from_chars(slice_chars(c.as_slice(), self.lexeme_start, self.lexeme_end).as_slice())
    }
}

/// Whether `c` is one of the four white-space characters of HTML source.
pub open spec fn is_html_ws(c: char) -> bool {
    c == ' ' || c == '\r' || c == '\t' || c == '\n'
}

/// Whether a one-character string is HTML white space.
pub fn is_white_space(input: &str) -> (r: bool)
    ensures
        r == (input@.len() == 1 && is_html_ws(input@[0])),
{
    let c = chars_of(input);
    c.len() == 1 && (c[0] == ' ' || c[0] == '\r' || c[0] == '\t' || c[0] == '\n')
}

pub open spec fn is_alpha_char(c: char) -> bool {
    ('a' <= c && c <= 'z') || ('A' <= c && c <= 'Z') || c == '-'
}

pub open spec fn is_alphanumeric_char(c: char) -> bool {
    is_alpha_char(c) || ('0' <= c && c <= '9')
}

/// The token kind of a reserved word, if `w` is one.
pub open spec fn reserved_word(w: Seq<char>) -> Option<TokenType> {
    if w == "area"@ { Some(TokenType::Area) }
    else if w == "base"@ { Some(TokenType::Base) }
    else if w == "br"@ { Some(TokenType::Br) }
    else if w == "col"@ { Some(TokenType::Col) }
    else if w == "embed"@ { Some(TokenType::Embed) }
    else if w == "hr"@ { Some(TokenType::Hr) }
    else if w == "img"@ { Some(TokenType::Img) }
    else if w == "input"@ { Some(TokenType::Input) }
    else if w == "link"@ { Some(TokenType::Link) }
    else if w == "meta"@ { Some(TokenType::Meta) }
    else if w == "param"@ { Some(TokenType::Param) }
    else if w == "source"@ { Some(TokenType::Source) }
    else if w == "track"@ { Some(TokenType::Track) }
    else if w == "wbr"@ { Some(TokenType::Wbr) }
    else if w == "DOCTYPE"@ { Some(TokenType::Doctype) }
    else { None }
}

fn word_is(w: &[char], lit: &str) -> (r: bool)
    ensures
        r == (w@ == lit@),
{
    let l = chars_of(lit);
    crate::text::chars_equal(w, l.as_slice())
}

/// The token kind of a reserved word, if `w` is one.
pub fn reserved_wrods(w: &[char]) -> (r: Option<TokenType>)
    ensures
        r == reserved_word(w@),
{
    if word_is(w, "area") { Some(TokenType::Area) }
    else if word_is(w, "base") { Some(TokenType::Base) }
    else if word_is(w, "br") { Some(TokenType::Br) }
    else if word_is(w, "col") { Some(TokenType::Col) }
    else if word_is(w, "embed") { Some(TokenType::Embed) }
    else if word_is(w, "hr") { Some(TokenType::Hr) }
    else if word_is(w, "img") { Some(TokenType::Img) }
    else if word_is(w, "input") { Some(TokenType::Input) }
    else if word_is(w, "link") { Some(TokenType::Link) }
    else if word_is(w, "meta") { Some(TokenType::Meta) }
    else if word_is(w, "param") { Some(TokenType::Param) }
    else if word_is(w, "source") { Some(TokenType::Source) }
    else if word_is(w, "track") { Some(TokenType::Track) }
    else if word_is(w, "wbr") { Some(TokenType::Wbr) }
    else if word_is(w, "DOCTYPE") { Some(TokenType::Doctype) }
    else { None }
}


} // verus!

verus! {

/// What a token's text must be for its kind: each token is sound for the
/// source it was cut from.
pub open spec fn token_ok(src: Seq<char>, t: Token) -> bool {
    let s = t.lexeme_start as int;
    let e = t.lexeme_end as int;
    let text = src.subrange(s, e);
    &&& s <= e <= src.len()
    &&& match t.token_type {
        TokenType::LessThan => text == seq!['<'],
        TokenType::GreaterThan => text == seq!['>'],
        TokenType::Equal => text == seq!['='],
        TokenType::Bang => text == seq!['!'],
        TokenType::ForwardSlash => text == seq!['/'],
        TokenType::CloseTag => text == seq!['<', '/'],
        TokenType::String => s >= 1 && e < src.len() && src[s - 1] == '"' && src[e] == '"',
        TokenType::WhiteSpace => text.len() > 0 && forall|i: int| 0 <= i < text.len() ==> is_html_ws(#[trigger] text[i]),
        TokenType::Identifier => text.len() > 0 && is_alpha_char(text[0]) && reserved_word(text) is None,
        TokenType::SomethingElse => text.len() == 1,
        TokenType::Eof => s == 0 && e == 0,
        _ => reserved_word(text) == Some(t.token_type),
    }
}

/// Whether the tokens, `Eof` aside, lie in the source in order and do not
/// overlap.
pub open spec fn in_source_order(tokens: Seq<Token>) -> bool {
    forall|i: int, j: int| 0 <= i < j < tokens.len() && (#[trigger] tokens[i]).token_type != TokenType::Eof
        && (#[trigger] tokens[j]).token_type != TokenType::Eof ==> tokens[i].lexeme_end <= tokens[j].lexeme_start
}

/// Whether `b` is `a` with tokens other than `Eof` appended.
pub open spec fn extends_without_eof(a: Seq<Token>, b: Seq<Token>) -> bool {
    &&& a.len() <= b.len()
    &&& b.subrange(0, a.len() as int) == a
    &&& forall|i: int| a.len() <= i < b.len() ==> (#[trigger] b[i]).token_type != TokenType::Eof
}

proof fn lemma_extends_refl(a: Seq<Token>)
    ensures
        extends_without_eof(a, a),
{
    assert(a.subrange(0, a.len() as int) =~= a);
}

proof fn lemma_extends_trans(a: Seq<Token>, b: Seq<Token>, c: Seq<Token>)
    requires
        extends_without_eof(a, b),
        extends_without_eof(b, c),
    ensures
        extends_without_eof(a, c),
{
    assert(c.subrange(0, a.len() as int) =~= b.subrange(0, a.len() as int));
    assert forall|i: int| a.len() <= i < c.len() implies (#[trigger] c[i]).token_type != TokenType::Eof by {
        if i < b.len() {
            assert(c[i] == c.subrange(0, b.len() as int)[i]);
        }
    }
}

/// Whether `src` holds something that can leave a lexical error: a `"`
/// that may open a string, or `<!--` opening a comment.
pub open spec fn may_err(src: Seq<char>) -> bool {
    (exists|i: int| 0 <= i < src.len() && #[trigger] src[i] == '"')
        || (exists|i: int| 0 <= i && i + 4 <= src.len() && #[trigger] src.subrange(i, i + 4) == "<!--"@)
}

/// The lexer's state over one source text.
pub struct Scanner {
    pub source: String,
    pub src: Vec<char>,
    pub tokens: Vec<Token>,
    pub start: usize,
    pub current: usize,
    pub line_number: usize,
    pub chars_at_end_of_last_line: usize,
    pub error: Option<LexicalError>,
}

impl Scanner {
    pub open spec fn wf(&self) -> bool {
        &&& self.src@ == self.source@
        &&& self.start <= self.current <= self.src@.len()
        &&& forall|i: int| 0 <= i < self.tokens@.len() ==> token_ok(self.src@, #[trigger] self.tokens@[i])
        &&& forall|i: int| 0 <= i < self.tokens@.len() && (#[trigger] self.tokens@[i]).token_type != TokenType::Eof
            ==> self.tokens@[i].lexeme_end <= self.current
        &&& in_source_order(self.tokens@)
    }

    /// Whether every token, but for `Eof`, ends by `pos`.
    pub open spec fn tokens_end_by(&self, pos: usize) -> bool {
        forall|i: int| 0 <= i < self.tokens@.len() && (#[trigger] self.tokens@[i]).token_type != TokenType::Eof
            ==> self.tokens@[i].lexeme_end <= pos
    }

    /// A lexer at the start of `source`, on line 1.
    pub fn new(source: String) -> (r: Self)
        ensures
            r.wf(),
            r.source == source,
            r.tokens@.len() == 0,
            r.current == 0,
            r.line_number == 1,
            r.error is None,
    {
        let src = chars_of(source.as_str());
        Scanner { source, src, tokens: Vec::new(), start: 0, current: 0, line_number: 1, chars_at_end_of_last_line: 1, error: None }
    }

    /// Tokenises the whole source and ends the tokens with `Eof`.  Scanning
    /// goes on after an error; the last error is kept.
    pub fn scan_tokens(&mut self)
        requires
            old(self).wf(),
        ensures
            final(self).wf(),
            final(self).source == old(self).source,
            final(self).tokens@.len() > 0,
            final(self).tokens@.last().token_type == TokenType::Eof,
            extends_without_eof(old(self).tokens@, final(self).tokens@.drop_last()),
            final(self).error != old(self).error ==> may_err(final(self).src@),
    {
        proof { lemma_extends_refl(self.tokens@); }
        while !self.is_at_end()
            invariant
                self.wf(),
                self.source == old(self).source,
                self.src == old(self).src,
                extends_without_eof(old(self).tokens@, self.tokens@),
                self.error != old(self).error ==> may_err(self.src@),
            decreases self.src@.len() - self.current,
        {
            self.start = self.current;
            let ghost t0 = self.tokens@;
            self.scan_token();
            proof { lemma_extends_trans(old(self).tokens@, t0, self.tokens@); }
        }
        let ghost t1 = self.tokens@;
        self.add_eof();
        assert(self.tokens@.drop_last() =~= t1);
    }

    /// The tokens and the source, or the error scanning met.
    pub fn extract_source(self) -> (r: Result<(Vec<Token>, String), LexicalError>)
        ensures
            r matches Err(e) ==> self.error == Some(e),
            r matches Ok((t, s)) ==> self.error is None && t == self.tokens && s == self.source,
    {
        match self.error {
            Some(e) => Err(e),
            None => Ok((self.tokens, self.source)),
        }
    }

    fn is_at_end(&self) -> (r: bool)
        requires
            self.wf(),
        ensures
            r == (self.current >= self.src@.len()),
    {
        self.current >= self.src.len()
    }

    fn peek(&self) -> (r: Option<char>)
        requires
            self.wf(),
        ensures
            r == (if self.current < self.src@.len() { Some(self.src@[self.current as int]) } else { None }),
    {
        if self.current >= self.src.len() { None } else { Some(self.src[self.current]) }
    }

    /// Whether the `lit.len()` characters ahead are `lit`, with at least one
    /// more character after them.
    fn peek_is(&self, lit: &str) -> (r: bool)
        requires
            self.wf(),
        ensures
            r ==> self.current + lit@.len() < self.src@.len()
                && self.src@.subrange(self.current as int, self.current + lit@.len()) == lit@,
    {
        let l = chars_of(lit);
        if l.len() >= self.src.len() - self.current {
            return false;
        }
        crate::text::matches_at(self.src.as_slice(), self.current, l.as_slice())
    }

    fn advance(&mut self) -> (r: char)
        requires
            old(self).wf(),
            old(self).current < old(self).src@.len(),
        ensures
            final(self).wf(),
            r == old(self).src@[old(self).current as int],
            final(self).current == old(self).current + 1,
            final(self).start == old(self).start,
            final(self).tokens == old(self).tokens,
            final(self).source == old(self).source,
            final(self).src == old(self).src,
            final(self).line_number == old(self).line_number,
            final(self).chars_at_end_of_last_line == old(self).chars_at_end_of_last_line,
            final(self).error == old(self).error,
    {
        let c = self.src[self.current];
        let n = self.src.len();
        assert(self.current < n);
        self.current = self.current + 1;
        c
    }

    fn new_line(&mut self, number_of_lines: usize)
        requires
            old(self).wf(),
        ensures
            final(self).wf(),
            final(self).current == old(self).current,
            final(self).start == old(self).start,
            final(self).tokens == old(self).tokens,
            final(self).source == old(self).source,
            final(self).src == old(self).src,
            final(self).error == old(self).error,
    {
        if number_of_lines > 0 {
            self.line_number = self.line_number.saturating_add(number_of_lines);
            self.chars_at_end_of_last_line = self.current;
        }
    }

    fn add_token(&mut self, token_type: TokenType)
        requires
            token_type != TokenType::Eof,
            old(self).wf(),
            old(self).tokens_end_by(old(self).start),
            token_type != TokenType::String ==> token_ok(old(self).src@, Token {
                token_type, lexeme_start: old(self).start, lexeme_end: old(self).current, line_number: 0, character_pos: 0 }),
            token_type == TokenType::String ==> old(self).start + 2 <= old(self).current && token_ok(old(self).src@, Token {
                token_type, lexeme_start: (old(self).start + 1) as usize, lexeme_end: (old(self).current - 1) as usize, line_number: 0, character_pos: 0 }),
        ensures
            final(self).wf(),
            final(self).tokens@.len() == old(self).tokens@.len() + 1,
            final(self).tokens@.subrange(0, old(self).tokens@.len() as int) == old(self).tokens@,
            final(self).tokens@.last().token_type == token_type,
            extends_without_eof(old(self).tokens@, final(self).tokens@),
            final(self).current == old(self).current,
            final(self).start == old(self).start,
            final(self).source == old(self).source,
            final(self).src == old(self).src,
            final(self).error == old(self).error,
    {
        let char_pos = if self.start >= self.chars_at_end_of_last_line {
            (self.start - self.chars_at_end_of_last_line).saturating_add(1)
        } else {
            0
        };
        let t = if token_type == TokenType::String {
            Token::new(self.start + 1, self.current - 1, token_type, self.line_number, char_pos)
        } else {
            Token::new(self.start, self.current, token_type, self.line_number, char_pos)
        };
        self.tokens.push(t);
        assert(self.tokens@.subrange(0, old(self).tokens@.len() as int) =~= old(self).tokens@);
        assert forall|i: int| old(self).tokens@.len() <= i < self.tokens@.len()
            implies (#[trigger] self.tokens@[i]).token_type != TokenType::Eof by {
            assert(i == old(self).tokens@.len());
        }
    }

    fn add_eof(&mut self)
        requires
            old(self).wf(),
        ensures
            final(self).wf(),
            final(self).tokens@ == old(self).tokens@.push(final(self).tokens@.last()),
            final(self).tokens@.last().token_type == TokenType::Eof,
            final(self).source == old(self).source,
            final(self).src == old(self).src,
            final(self).error == old(self).error,
    {
        let t = Token::new(0, 0, TokenType::Eof, self.line_number, 0);
        self.tokens.push(t);
    }

    fn scan_token(&mut self)
        requires
            old(self).wf(),
            old(self).start == old(self).current,
            old(self).current < old(self).src@.len(),
        ensures
            extends_without_eof(old(self).tokens@, final(self).tokens@),
            final(self).src == old(self).src,
            final(self).error != old(self).error ==> may_err(old(self).src@),
            final(self).wf(),
            final(self).current > old(self).current,
            final(self).source == old(self).source,
    {
        proof {
            lemma_extends_refl(self.tokens@);
        }
        proof {
            reveal_strlit("!--");
        }
        let c = self.advance();
        let ghost s0 = self.start as int;
        if c == '<' {
            if self.peek_is("!--") {
                proof {
                    reveal_strlit("<!--");
                    assert(self.src@.subrange(s0, s0 + 4) =~= "<!--"@) by {
                        assert(self.src@.subrange(s0 + 1, s0 + 4) == "!--"@);
                        assert(self.src@[s0] == '<');
                        assert forall|k: int| 1 <= k < 4 implies self.src@.subrange(s0, s0 + 4)[k] == "<!--"@[k] by {
                            assert(self.src@.subrange(s0, s0 + 4)[k] == self.src@.subrange(s0 + 1, s0 + 4)[k - 1]);
                        }
                    }
                }
                self.comment();
            } else if self.peek() == Some('/') {
                self.advance();
                assert(self.src@.subrange(s0, s0 + 2) =~= seq!['<', '/']);
                self.add_token(TokenType::CloseTag);
            } else {
                assert(self.src@.subrange(s0, s0 + 1) =~= seq!['<']);
                self.add_token(TokenType::LessThan);
            }
        } else if c == '>' {
            assert(self.src@.subrange(s0, s0 + 1) =~= seq!['>']);
            self.add_token(TokenType::GreaterThan);
        } else if c == '=' {
            assert(self.src@.subrange(s0, s0 + 1) =~= seq!['=']);
            self.add_token(TokenType::Equal);
        } else if c == '!' {
            assert(self.src@.subrange(s0, s0 + 1) =~= seq!['!']);
            self.add_token(TokenType::Bang);
        } else if c == '/' {
            assert(self.src@.subrange(s0, s0 + 1) =~= seq!['/']);
            self.add_token(TokenType::ForwardSlash);
        } else if c == '"' {
            self.string();
        } else if c == ' ' || c == '\r' || c == '\t' || c == '\n' {
            self.whitespace();
        } else if ('a' <= c && c <= 'z') || ('A' <= c && c <= 'Z') || c == '-' {
            self.identifier();
        } else {
            self.add_token(TokenType::SomethingElse);
        }
    }

    fn string(&mut self)
        requires
            old(self).wf(),
            old(self).tokens_end_by(old(self).start),
            old(self).current == old(self).start + 1,
            old(self).src@[old(self).start as int] == '"',
        ensures
            final(self).error != old(self).error ==> may_err(old(self).src@),
            extends_without_eof(old(self).tokens@, final(self).tokens@),
            final(self).src == old(self).src,
            final(self).wf(),
            final(self).current > old(self).start,
            final(self).source == old(self).source,
    {
        proof {
            lemma_extends_refl(self.tokens@);
            assert(may_err(self.src@));
        }
        let mut lines: usize = 0;
        while self.peek() != Some('"') && !self.is_at_end()
            invariant
                self.wf(),
                self.start == old(self).start,
                self.current > self.start,
                self.src == old(self).src,
                self.source == old(self).source,
                self.tokens == old(self).tokens,
            decreases self.src@.len() - self.current,
        {
            if self.peek() == Some('\n') {
                lines = lines.saturating_add(1);
            }
            self.advance();
        }
        if self.is_at_end() {
            self.error = Some(LexicalError::UnterminatedString(self.line_number));
            return;
        }
        self.advance();
        self.add_token(TokenType::String);
        self.new_line(lines);
    }

    fn identifier(&mut self)
        requires
            old(self).wf(),
            old(self).tokens_end_by(old(self).start),
            old(self).current == old(self).start + 1,
            is_alpha_char(old(self).src@[old(self).start as int]),
        ensures
            extends_without_eof(old(self).tokens@, final(self).tokens@),
            final(self).src == old(self).src,
            final(self).error == old(self).error,
            final(self).wf(),
            final(self).current > old(self).start,
            final(self).source == old(self).source,
    {
        proof {
            lemma_extends_refl(self.tokens@);
        }
        loop
            invariant
                self.wf(),
                self.start == old(self).start,
                self.current > self.start,
                self.src == old(self).src,
                self.source == old(self).source,
                self.tokens == old(self).tokens,
                self.error == old(self).error,
            decreases self.src@.len() - self.current,
        {
            match self.peek() {
                Some(c) => {
                    if ('a' <= c && c <= 'z') || ('A' <= c && c <= 'Z') || c == '-' || ('0' <= c && c <= '9') {
                        self.advance();
                    } else {
                        break;
                    }
                },
                None => break,
            }
        }
        let word = slice_chars(self.src.as_slice(), self.start, self.current);
        assert(word@[0] == self.src@[self.start as int]);
        match reserved_wrods(word.as_slice()) {
            Some(t) => {
                self.add_token(t);
            },
            None => {
                self.add_token(TokenType::Identifier);
            },
        }
    }

    fn comment(&mut self)
        requires
            old(self).wf(),
            old(self).tokens_end_by(old(self).start),
            old(self).current == old(self).start + 1,
            old(self).start + 4 <= old(self).src@.len(),
            old(self).src@.subrange(old(self).start as int, old(self).start + 4) == "<!--"@,
        ensures
            final(self).error != old(self).error ==> may_err(old(self).src@),
            extends_without_eof(old(self).tokens@, final(self).tokens@),
            final(self).src == old(self).src,
            final(self).wf(),
            final(self).current > old(self).start,
            final(self).source == old(self).source,
    {
        proof {
            lemma_extends_refl(self.tokens@);
            assert(may_err(self.src@));
        }
        proof {
            reveal_strlit("-->");
        }
        let mut lines: usize = 0;
        while !self.peek_is("-->") && !self.is_at_end()
            invariant
                self.wf(),
                self.start == old(self).start,
                self.current > self.start,
                self.src == old(self).src,
                self.source == old(self).source,
                self.tokens == old(self).tokens,
            decreases self.src@.len() - self.current,
        {
            if self.peek() == Some('\n') {
                lines = lines.saturating_add(1);
            }
            self.advance();
        }
        if self.is_at_end() {
            self.error = Some(LexicalError::UnterminatedComment(self.line_number));
            return;
        }
        self.new_line(lines);
        self.advance();
        self.advance();
        self.advance();
    }

    fn whitespace(&mut self)
        requires
            old(self).wf(),
            old(self).tokens_end_by(old(self).start),
            old(self).current == old(self).start + 1,
            is_html_ws(old(self).src@[old(self).start as int]),
        ensures
            extends_without_eof(old(self).tokens@, final(self).tokens@),
            final(self).src == old(self).src,
            final(self).error == old(self).error,
            final(self).wf(),
            final(self).current > old(self).start,
            final(self).source == old(self).source,
    {
        proof {
            lemma_extends_refl(self.tokens@);
        }
        let mut lines: usize = 0;
        if self.src[self.current - 1] == '\n' {
            lines = 1;
        }
        loop
            invariant
                self.wf(),
                self.start == old(self).start,
                self.current > self.start,
                self.src == old(self).src,
                self.source == old(self).source,
                self.tokens == old(self).tokens,
                self.error == old(self).error,
                forall|i: int| self.start <= i < self.current ==> is_html_ws(#[trigger] self.src@[i]),
            decreases self.src@.len() - self.current,
        {
            match self.peek() {
                Some(c) => {
                    if c == ' ' || c == '\r' || c == '\t' || c == '\n' {
                        if c == '\n' {
                            lines = lines.saturating_add(1);
                        }
                        self.advance();
                    } else {
                        break;
                    }
                },
                None => break,
            }
        }
        let ghost text = self.src@.subrange(self.start as int, self.current as int);
        assert forall|i: int| 0 <= i < text.len() implies is_html_ws(#[trigger] text[i]) by {
            assert(text[i] == self.src@[self.start + i]);
        }
        self.add_token(TokenType::WhiteSpace);
        self.new_line(lines);
    }
}


/// How a token kind is written in messages.
pub open spec fn token_type_text(t: TokenType) -> Seq<char> {
    match t {
        TokenType::Bang => "!"@,
        TokenType::LessThan => "<"@,
        TokenType::GreaterThan => ">"@,
        TokenType::CloseTag => "/>"@,
        TokenType::Identifier => "Identifier"@,
        TokenType::Equal => "="@,
        TokenType::String => "String"@,
        TokenType::ForwardSlash => "/"@,
        TokenType::WhiteSpace => "WhiteSpace"@,
        TokenType::Doctype => "Doctype"@,
        TokenType::Area => "area"@,
        TokenType::Base => "base"@,
        TokenType::Br => "br"@,
        TokenType::Col => "col"@,
        TokenType::Embed => "embed"@,
        TokenType::Hr => "hr"@,
        TokenType::Img => "img"@,
        TokenType::Input => "input"@,
        TokenType::Link => "link"@,
        TokenType::Meta => "meta"@,
        TokenType::Param => "param"@,
        TokenType::Source => "source"@,
        TokenType::Track => "track"@,
        TokenType::Wbr => "wbr"@,
        TokenType::SomethingElse => "text"@,
        TokenType::Eof => "End of File"@,
    }
}

impl TokenType {
    /// How the kind is written in messages.
    pub fn text(&self) -> (r: &'static str)
        ensures
            r@ == token_type_text(*self),
    {
        match self {
            TokenType::Bang => "!",
            TokenType::LessThan => "<",
            TokenType::GreaterThan => ">",
            TokenType::CloseTag => "/>",
            TokenType::Identifier => "Identifier",
            TokenType::Equal => "=",
            TokenType::String => "String",
            TokenType::ForwardSlash => "/",
            TokenType::WhiteSpace => "WhiteSpace",
            TokenType::Doctype => "Doctype",
            TokenType::Area => "area",
            TokenType::Base => "base",
            TokenType::Br => "br",
            TokenType::Col => "col",
            TokenType::Embed => "embed",
            TokenType::Hr => "hr",
            TokenType::Img => "img",
            TokenType::Input => "input",
            TokenType::Link => "link",
            TokenType::Meta => "meta",
            TokenType::Param => "param",
            TokenType::Source => "source",
            TokenType::Track => "track",
            TokenType::Wbr => "wbr",
            TokenType::SomethingElse => "text",
            TokenType::Eof => "End of File",
        }
    }
}

/// The text of a lexical error.
pub open spec fn lexical_error_text(e: LexicalError) -> Seq<char> {
    match e {
        LexicalError::UnterminatedComment(n) => "Unterminated comment at line: "@ + decimal(n as nat),
        LexicalError::UnterminatedString(n) => "Uniterminated comment at line: "@ + decimal(n as nat),
    }
}

impl LexicalError {
    /// The text of the error.
    pub fn message(&self) -> (r: String)
        ensures
            r@ == lexical_error_text(*self),
    {
        let mut v: Vec<char> = Vec::new();
        match self {
            LexicalError::UnterminatedComment(n) => {
                crate::text::push_str(&mut v, "Unterminated comment at line: ");
                crate::text::push_decimal(&mut v, *n as u64);
            },
            LexicalError::UnterminatedString(n) => {
                crate::text::push_str(&mut v, "Uniterminated comment at line: ");
                crate::text::push_decimal(&mut v, *n as u64);
            },
        }
        string_from_chars(v.as_slice())
    }
}

} // verus!
