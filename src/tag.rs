//! The tag tree that the HTML parser builds, and its pre-order flattening.

use vstd::prelude::*;
use crate::scanner::{Token, TokenType, is_identifier_type, is_void_tag};
use crate::text::{chars_of, is_whitespace_char, is_ws, skip_ws_at, slice_chars, split_from,
    string_from_chars, trim_end_from, extend_chars};

verus! {

broadcast use vstd::std_specs::vec::axiom_vec_decreases_to_view, vstd::seq::axiom_seq_index_decreases;

/// A tag attribute, with or without a value.
#[derive(Debug)]
pub struct Attribute {
    pub name: String,
    pub value: Option<String>,
}

impl Attribute {
    pub fn new(name: String, value: Option<String>) -> (r: Self)
        ensures
            r.name == name,
            r.value == value,
    {
        Attribute { name, value }
    }
}

/// A parsed tag: one with a closing tag, content and children, or a void
/// tag such as `<meta>`.
#[derive(Debug)]
pub enum Tag {
    CloseableTag {
        name: String,
        attributes: Vec<Attribute>,
        content: String,
        children: Vec<Tag>,
        line_number: usize,
        start_char: usize,
    },
    NonCloseableTag {
        name: String,
        attributes: Vec<Attribute>,
        line_number: usize,
        start_char: usize,
    },
}

/// The position of the first attribute named `name`, or -1.
pub open spec fn attribute_index(attrs: Seq<Attribute>, name: Seq<char>) -> int
    decreases attrs.len(),
{
    if attrs.len() == 0 {
        -1
    } else if attribute_index(attrs.drop_last(), name) >= 0 {
        attribute_index(attrs.drop_last(), name)
    } else if attrs.last().name@ == name {
        attrs.len() - 1
    } else {
        -1
    }
}

proof fn lemma_attribute_index(attrs: Seq<Attribute>, name: Seq<char>, k: int)
    requires
        0 <= k <= attrs.len(),
        attribute_index(attrs.subrange(0, k), name) == -1,
        k < attrs.len() ==> attrs[k].name@ == name,
    ensures
        k < attrs.len() ==> attribute_index(attrs, name) == k,
        k == attrs.len() ==> attribute_index(attrs, name) == -1,
    decreases attrs.len() - k,
{
    if k == attrs.len() {
        assert(attrs.subrange(0, k) =~= attrs);
    } else {
        assert(attrs.subrange(0, k + 1).drop_last() =~= attrs.subrange(0, k));
        lemma_attribute_index_keeps(attrs, name, k + 1);
    }
}

proof fn lemma_attribute_index_keeps(attrs: Seq<Attribute>, name: Seq<char>, n: int)
    requires
        0 < n <= attrs.len(),
        attribute_index(attrs.subrange(0, n), name) >= 0,
    ensures
        attribute_index(attrs, name) == attribute_index(attrs.subrange(0, n), name),
    decreases attrs.len() - n,
{
    if n == attrs.len() {
        assert(attrs.subrange(0, n) =~= attrs);
    } else {
        assert(attrs.subrange(0, n + 1).drop_last() =~= attrs.subrange(0, n));
        lemma_attribute_index_keeps(attrs, name, n + 1);
    }
}

fn find_attribute(attrs: &Vec<Attribute>, name: &str) -> (r: Option<usize>)
    ensures
        r matches Some(i) ==> attribute_index(attrs@, name@) == i && i < attrs@.len(),
        r is None ==> attribute_index(attrs@, name@) == -1,
{
    let mut i: usize = 0;
    assert(attrs@.subrange(0, 0) =~= Seq::<Attribute>::empty());
    while i < attrs.len()
        invariant
            i <= attrs@.len(),
            attribute_index(attrs@.subrange(0, i as int), name@) == -1,
        decreases attrs@.len() - i,
    {
        if crate::text::str_equals(attrs[i].name.as_str(), name) {
            proof { lemma_attribute_index(attrs@, name@, i as int); }
            return Some(i);
        }
        assert(attrs@.subrange(0, i + 1).drop_last() =~= attrs@.subrange(0, i as int));
        i = i + 1;
    }
    proof { lemma_attribute_index(attrs@, name@, i as int); }
    None
}

/// Sets attribute `name` to `value`, replacing the value of the first
/// attribute of that name if there is one.
pub open spec fn set_attribute(attrs: Seq<Attribute>, name: String, value: Option<String>) -> Seq<Attribute> {
    let i = attribute_index(attrs, name@);
    if i >= 0 { attrs.update(i, Attribute { name, value }) } else { attrs.push(Attribute { name, value }) }
}

fn insert_into(attrs: &mut Vec<Attribute>, name: String, value: Option<String>)
    ensures
        final(attrs)@ == set_attribute(old(attrs)@, name, value),
{
    match find_attribute(attrs, name.as_str()) {
        Some(i) => {
            attrs.set(i, Attribute { name, value });
        },
        None => {
            attrs.push(Attribute { name, value });
        },
    }
}

impl Tag {
    pub open spec fn name(&self) -> String {
        match self {
            Tag::CloseableTag { name, .. } => *name,
            Tag::NonCloseableTag { name, .. } => *name,
        }
    }

    pub open spec fn attributes(&self) -> Seq<Attribute> {
        match self {
            Tag::CloseableTag { attributes, .. } => attributes@,
            Tag::NonCloseableTag { attributes, .. } => attributes@,
        }
    }

    pub open spec fn line(&self) -> usize {
        match self {
            Tag::CloseableTag { line_number, .. } => *line_number,
            Tag::NonCloseableTag { line_number, .. } => *line_number,
        }
    }

    pub open spec fn column(&self) -> usize {
        match self {
            Tag::CloseableTag { start_char, .. } => *start_char,
            Tag::NonCloseableTag { start_char, .. } => *start_char,
        }
    }

    /// The tag a name token opens: void tag names open a tag without a
    /// closing tag, other names one with it.
    pub fn from_token(token: Token, source: &str) -> (r: Self)
        requires
            is_identifier_type(token.token_type),
            token.lexeme_start <= token.lexeme_end <= source@.len(),
        ensures
            r.name()@ == source@.subrange(token.lexeme_start as int, token.lexeme_end as int),
            r.line() == token.line_number,
            r.column() == token.character_pos,
            r.attributes().len() == 0,
            r is NonCloseableTag <==> is_void_tag(token.token_type),
            r matches Tag::CloseableTag { content, children, .. } ==> content@.len() == 0 && children@.len() == 0,
    {
        let name = token.get_str_representation(source);
        if token.get_type() == TokenType::Identifier {
            Tag::new_closeable_tag(name, token.get_line_number(), token.get_character_pos())
        } else {
            Tag::new_noncloseable_tag(name, token.get_line_number(), token.get_character_pos())
        }
    }

    pub fn new_closeable_tag(name: String, line_number: usize, start_char: usize) -> (r: Self)
        ensures
            r matches Tag::CloseableTag { name: n, attributes, content, children, line_number: l, start_char: c }
                && n == name && attributes@.len() == 0 && content@.len() == 0 && children@.len() == 0
                && l == line_number && c == start_char,
    {
        Tag::CloseableTag { name, attributes: Vec::new(), content: String::new(), children: Vec::new(), line_number, start_char }
    }

    pub fn new_noncloseable_tag(name: String, line_number: usize, start_char: usize) -> (r: Self)
        ensures
            r matches Tag::NonCloseableTag { name: n, attributes, line_number: l, start_char: c }
                && n == name && attributes@.len() == 0 && l == line_number && c == start_char,
    {
        Tag::NonCloseableTag { name, attributes: Vec::new(), line_number, start_char }
    }

}


impl Tag {
    pub fn get_name(&self) -> (r: &str)
        ensures
            r@ == self.name()@,
    {
        match self {
            Tag::CloseableTag { name, .. } => name.as_str(),
            Tag::NonCloseableTag { name, .. } => name.as_str(),
        }
    }

    pub fn get_attributes(&self) -> (r: &[Attribute])
        ensures
            r@ == self.attributes(),
    {
        match self {
            Tag::CloseableTag { attributes, .. } => attributes.as_slice(),
            Tag::NonCloseableTag { attributes, .. } => attributes.as_slice(),
        }
    }

    pub fn get_line_number(&self) -> (r: usize)
        ensures
            r == self.line(),
    {
        match self {
            Tag::CloseableTag { line_number, .. } => *line_number,
            Tag::NonCloseableTag { line_number, .. } => *line_number,
        }
    }

    pub fn get_character_pos(&self) -> (r: usize)
        ensures
            r == self.column(),
    {
        match self {
            Tag::CloseableTag { start_char, .. } => *start_char,
            Tag::NonCloseableTag { start_char, .. } => *start_char,
        }
    }

    /// The children of a tag that has a closing tag.
    pub fn get_children(&self) -> (r: Option<&[Tag]>)
        ensures
            match self {
                Tag::CloseableTag { children, .. } => r matches Some(c) && c@ == children@,
                Tag::NonCloseableTag { .. } => r is None,
            },
    {
        match self {
            Tag::NonCloseableTag { .. } => None,
            Tag::CloseableTag { children, .. } => Some(children.as_slice()),
        }
    }

    /// The text content of a tag that has a closing tag.
    pub fn get_content(&self) -> (r: Option<&str>)
        ensures
            match self {
                Tag::CloseableTag { content, .. } => r matches Some(c) && c@ == content@,
                Tag::NonCloseableTag { .. } => r is None,
            },
    {
        match self {
            Tag::CloseableTag { content, .. } => Some(content.as_str()),
            Tag::NonCloseableTag { .. } => None,
        }
    }

    /// Appends text to the content of a tag that has a closing tag.
    pub fn add_content(&mut self, new_content: &str)
        requires
            *old(self) is CloseableTag,
        ensures
            match (*old(self), *final(self)) {
                (Tag::CloseableTag { name: n0, attributes: a0, content: c0, children: k0, line_number: l0, start_char: s0 },
                 Tag::CloseableTag { name: n1, attributes: a1, content: c1, children: k1, line_number: l1, start_char: s1 }) =>
                    n1 == n0 && a1 == a0 && c1@ == c0@ + new_content@ && k1 == k0 && l1 == l0 && s1 == s0,
                _ => false,
            },
    {
        match self {
            Tag::CloseableTag { content, .. } => {
                let mut c = chars_of(content.as_str());
                crate::text::push_str(&mut c, new_content);
                *content = string_from_chars(c.as_slice());
            },
            Tag::NonCloseableTag { .. } => {},
        }
    }

    /// Sets attribute `name` to `value`, replacing the value of an attribute
    /// of that name.
    pub fn insert_attribute(&mut self, name: String, value: Option<String>)
        ensures
            final(self).name() == old(self).name(),
            final(self).line() == old(self).line(),
            final(self).column() == old(self).column(),
            final(self).attributes() == set_attribute(old(self).attributes(), name, value),
            (*final(self) is CloseableTag) == (*old(self) is CloseableTag),
    {
        match self {
            Tag::NonCloseableTag { attributes, .. } => insert_into(attributes, name, value),
            Tag::CloseableTag { attributes, .. } => insert_into(attributes, name, value),
        }
    }

    /// Appends an attribute.
    pub fn add_attribute(&mut self, attribute: Attribute)
        ensures
            final(self).name() == old(self).name(),
            final(self).attributes() == old(self).attributes().push(attribute),
            (*final(self) is CloseableTag) == (*old(self) is CloseableTag),
    {
        match self {
            Tag::NonCloseableTag { attributes, .. } => attributes.push(attribute),
            Tag::CloseableTag { attributes, .. } => attributes.push(attribute),
        }
    }

    /// Appends a child to a tag that has a closing tag.
    pub fn add_child(&mut self, child: Tag)
        requires
            *old(self) is CloseableTag,
        ensures
            match (*old(self), *final(self)) {
                (Tag::CloseableTag { name: n0, attributes: a0, content: c0, children: k0, line_number: l0, start_char: s0 },
                 Tag::CloseableTag { name: n1, attributes: a1, content: c1, children: k1, line_number: l1, start_char: s1 }) =>
                    n1 == n0 && a1 == a0 && c1 == c0 && k1@ == k0@.push(child) && l1 == l0 && s1 == s0,
                _ => false,
            },
    {
        match self {
            Tag::NonCloseableTag { .. } => {},
            Tag::CloseableTag { children, .. } => children.push(child),
        }
    }
}

/// `s` without leading white space.
pub open spec fn trim_start_ws(s: Seq<char>) -> Seq<char> {
    s.subrange(skip_ws_at(s, 0), s.len() as int)
}

/// `s` without trailing white space.
pub open spec fn trim_end_ws(s: Seq<char>) -> Seq<char> {
    s.subrange(0, trim_end_from(s, 0, s.len() as int))
}

/// Each piece without leading white space, followed by a space.
pub open spec fn join_trimmed(pieces: Seq<Seq<char>>) -> Seq<char>
    decreases pieces.len(),
{
    if pieces.len() == 0 {
        Seq::empty()
    } else {
        trim_start_ws(pieces[0]) + seq![' '] + join_trimmed(pieces.drop_first())
    }
}

/// Content as stored: empty when it is all white space; otherwise each
/// line loses its leading white space, lines are joined by single spaces,
/// and trailing white space goes.
pub open spec fn cleaned(c: Seq<char>) -> Seq<char> {
    if forall|i: int| 0 <= i < c.len() ==> is_ws(#[trigger] c[i]) {
        Seq::empty()
    } else {
        trim_end_ws(join_trimmed(split_from(c, '\n', 0)))
    }
}

fn trim_start_chars(s: &[char]) -> (r: Vec<char>)
    ensures
        r@ == trim_start_ws(s@),
{
    let mut a: usize = 0;
    while a < s.len() && is_whitespace_char(s[a])
        invariant
            a <= s@.len(),
            skip_ws_at(s@, a as int) == skip_ws_at(s@, 0),
        decreases s@.len() - a,
    {
        a = a + 1;
    }
    slice_chars(s, a, s.len())
}

fn trim_end_chars(s: &[char]) -> (r: Vec<char>)
    ensures
        r@ == trim_end_ws(s@),
{
    let mut e = s.len();
    while e > 0 && is_whitespace_char(s[e - 1])
        invariant
            e <= s@.len(),
            trim_end_from(s@, 0, e as int) == trim_end_from(s@, 0, s@.len() as int),
        decreases e,
    {
        e = e - 1;
    }
    slice_chars(s, 0, e)
}

fn clean_text(c: &[char]) -> (r: Vec<char>)
    ensures
        r@ == cleaned(c@),
{
    let mut all = true;
    let mut k: usize = 0;
    while k < c.len()
        invariant
            k <= c@.len(),
            all == (forall|i: int| 0 <= i < k ==> is_ws(#[trigger] c@[i])),
        decreases c@.len() - k,
    {
        if !is_whitespace_char(c[k]) {
            all = false;
        }
        k = k + 1;
    }
    if all {
        return Vec::new();
    }
    let mut joined: Vec<char> = Vec::new();
    let mut i: usize = 0;
    let ghost pieces = split_from(c@, '\n', 0);
    loop
        invariant_except_break
            joined@ + join_trimmed(split_from(c@, '\n', i as int)) == join_trimmed(pieces),
        invariant
            i <= c@.len(),
            pieces == split_from(c@, '\n', 0),
        ensures
            joined@ == join_trimmed(pieces),
        decreases c@.len() - i,
    {
        let j = crate::text::find_char_from(c, '\n', i);
        let piece = slice_chars(c, i, j);
        let ghost sp = split_from(c@, '\n', i as int);
        let ghost rest = if j < c@.len() { split_from(c@, '\n', j + 1) } else { Seq::<Seq<char>>::empty() };
        assert(sp =~= seq![piece@] + rest);
        assert(sp.drop_first() =~= rest);
        let t = trim_start_chars(piece.as_slice());
        let ghost j0 = joined@;
        extend_chars(&mut joined, t.as_slice());
        joined.push(' ');
        assert(joined@ =~= j0 + (trim_start_ws(piece@) + seq![' ']));
        assert(join_trimmed(sp) == trim_start_ws(piece@) + seq![' '] + join_trimmed(rest));
        if j == c.len() {
            assert(join_trimmed(rest) =~= Seq::<char>::empty());
            assert(joined@ =~= join_trimmed(pieces));
            break;
        }
        i = j + 1;
        assert(joined@ + join_trimmed(split_from(c@, '\n', i as int)) =~= join_trimmed(pieces));
    }
    trim_end_chars(joined.as_slice())
}

impl Tag {
    /// Normalises the content of a tag that has a closing tag, as `cleaned`
    /// says.
    pub fn clean_content(&mut self)
        ensures
            match (*old(self), *final(self)) {
                (Tag::CloseableTag { name: n0, attributes: a0, content: c0, children: k0, line_number: l0, start_char: s0 },
                 Tag::CloseableTag { name: n1, attributes: a1, content: c1, children: k1, line_number: l1, start_char: s1 }) =>
                    n1 == n0 && a1 == a0 && c1@ == cleaned(c0@) && k1 == k0 && l1 == l0 && s1 == s0,
                (Tag::NonCloseableTag { .. }, _) => *final(self) == *old(self),
                _ => false,
            },
    {
        match self {
            Tag::CloseableTag { content, .. } => {
                let c = chars_of(content.as_str());
                let r = clean_text(c.as_slice());
                *content = string_from_chars(r.as_slice());
            },
            Tag::NonCloseableTag { .. } => {},
        }
    }
}


/// A tag of a flattened tree: its own fields, without children.
#[derive(Debug)]
pub struct IterTag {
    pub name: String,
    pub attributes: Vec<Attribute>,
    pub content: Option<String>,
    pub line_number: usize,
    pub start_char: usize,
}

impl IterTag {
    pub fn new(name: String, attributes: Vec<Attribute>, content: Option<String>, ln: usize, sc: usize) -> (r: Self)
        ensures
            r == (IterTag { name, attributes, content, line_number: ln, start_char: sc }),
    {
        IterTag { name, attributes, content, line_number: ln, start_char: sc }
    }

    pub fn get_name(&self) -> (r: &str)
        ensures
            r@ == self.name@,
    {
        self.name.as_str()
    }

    pub fn get_content(&self) -> (r: &Option<String>)
        ensures
            *r == self.content,
    {
        &self.content
    }

    pub fn get_line_number(&self) -> (r: usize)
        ensures
            r == self.line_number,
    {
        self.line_number
    }

    pub fn get_start_char(&self) -> (r: usize)
        ensures
            r == self.start_char,
    {
        self.start_char
    }

    /// The value of the first attribute named `name`; `None` when there is
    /// none or it has no value.
    pub fn get_attribute(&self, name: &str) -> (r: Option<&str>)
        ensures
            attribute_index(self.attributes@, name@) < 0 ==> r is None,
            attribute_index(self.attributes@, name@) >= 0 ==> match self.attributes@[attribute_index(self.attributes@, name@)].value {
                Some(v) => r matches Some(x) && x@ == v@,
                None => r is None,
            },
    {
        match find_attribute(&self.attributes, name) {
            None => None,
            Some(i) => match &self.attributes[i].value {
                Some(v) => Some(v.as_str()),
                None => None,
            },
        }
    }
}

/// The flattened form of one tag, without its children.
pub open spec fn iter_of(t: Tag) -> IterTag {
    match t {
        Tag::NonCloseableTag { name, attributes, line_number, start_char } =>
            IterTag { name, attributes, content: None, line_number, start_char },
        Tag::CloseableTag { name, attributes, content, line_number, start_char, .. } =>
            IterTag { name, attributes, content: Some(content), line_number, start_char },
    }
}

/// A tag and its descendants in pre-order.
pub open spec fn flatten_tag(t: Tag) -> Seq<IterTag>
    decreases t,
{
    match t {
        Tag::NonCloseableTag { .. } => seq![iter_of(t)],
        Tag::CloseableTag { children, .. } => seq![iter_of(t)] + flatten_tags(children@),
    }
}

/// Tags and their descendants in pre-order.
pub open spec fn flatten_tags(ts: Seq<Tag>) -> Seq<IterTag>
    decreases ts,
{
    if ts.len() == 0 {
        Seq::empty()
    } else {
        flatten_tag(ts[0]) + flatten_tags(ts.drop_first())
    }
}


/// A tag and its descendants, flattened in pre-order.
pub fn tag_to_iter_tag(tag: Tag) -> (r: Vec<IterTag>)
    ensures
        r@ == flatten_tag(tag),
    decreases tag,
{
    let ghost t0 = tag;
    match tag {
        Tag::NonCloseableTag { name, attributes, line_number, start_char } => {
            let mut v: Vec<IterTag> = Vec::new();
            v.push(IterTag::new(name, attributes, None, line_number, start_char));
            assert(v@ =~= flatten_tag(t0));
            v
        },
        Tag::CloseableTag { name, attributes, content, children, line_number, start_char } => {
            let mut v: Vec<IterTag> = Vec::new();
            v.push(IterTag::new(name, attributes, Some(content), line_number, start_char));
            let ghost c0 = children;
            let mut rest = flaten_tree(children);
            let ghost v0 = v@;
            v.append(&mut rest);
            assert(v@ =~= v0 + flatten_tags(c0@));
            v
        },
    }
}

/// Tags and their descendants, flattened in pre-order.
pub fn flaten_tree(tree: Vec<Tag>) -> (r: Vec<IterTag>)
    ensures
        r@ == flatten_tags(tree@),
    decreases tree,
{
    let ghost orig = tree;
    let mut rest = tree;
    let mut out: Vec<IterTag> = Vec::new();
    let mut k: usize = 0;
    assert(orig@.subrange(0, orig@.len() as int) =~= orig@);
    assert(orig@.len() == rest.len());
    while rest.len() > 0
        invariant
            orig == tree,
            orig@.len() <= usize::MAX,
            k <= orig@.len(),
            rest@ == orig@.subrange(k as int, orig@.len() as int),
            out@ + flatten_tags(rest@) == flatten_tags(orig@),
        decreases rest@.len(),
    {
        let ghost r0 = rest@;
        let t = rest.remove(0);
        assert(t == orig@[k as int]);
        assert(r0.drop_first() =~= rest@);
        proof {
            assert(decreases_to!(orig => orig@));
            assert(decreases_to!(orig@ => orig@[k as int]));
            assert(decreases_to!(tree => t));
        }
        let mut part = tag_to_iter_tag(t);
        let ghost o0 = out@;
        out.append(&mut part);
        assert(out@ + flatten_tags(rest@) =~= o0 + flatten_tags(r0));
        k = k + 1;
    }
    assert(flatten_tags(rest@) =~= Seq::<IterTag>::empty());
    assert(out@ =~= flatten_tags(orig@));
    out
}


/// `n` levels of indentation, three spaces each.
pub open spec fn tabs(n: nat) -> Seq<char>
    decreases n,
{
    if n == 0 { Seq::empty() } else { tabs((n - 1) as nat) + seq![' ', ' ', ' '] }
}

fn add_tabs(num_of_tabs: usize, text: &mut Vec<char>)
    ensures
        final(text)@ == old(text)@ + tabs(num_of_tabs as nat),
{
    let mut i: usize = 0;
    while i < num_of_tabs
        invariant
            i <= num_of_tabs,
            text@ == old(text)@ + tabs(i as nat),
        decreases num_of_tabs - i,
    {
        crate::text::push_str(text, "   ");
        proof { reveal_strlit("   "); }
        i = i + 1;
        assert(text@ =~= old(text)@ + tabs(i as nat));
    }
}

/// `d + n`, saturating at `usize::MAX`.
pub open spec fn deeper(d: usize, n: usize) -> usize {
    if d + n > usize::MAX { usize::MAX } else { (d + n) as usize }
}

/// One attribute line of a formatted tag.
pub open spec fn attribute_line(a: Attribute, depth: usize) -> Seq<char> {
    tabs(deeper(depth, 2) as nat) + a.name@
        + (match a.value { Some(v) => seq!['='] + v@ + seq![','], None => Seq::empty() }) + seq!['\n']
}

pub open spec fn attribute_lines(attrs: Seq<Attribute>, depth: usize) -> Seq<char>
    decreases attrs.len(),
{
    if attrs.len() == 0 {
        Seq::empty()
    } else {
        attribute_lines(attrs.drop_last(), depth) + attribute_line(attrs.last(), depth)
    }
}

/// A readable outline of a tag and its descendants, indented by `depth`.
pub open spec fn format_of(t: Tag, depth: usize) -> Seq<char>
    decreases t,
{
    let d1 = tabs(deeper(depth, 1) as nat);
    let head = tabs(depth as nat) + "{\n"@ + d1 + "Name: "@ + t.name()@ + "\n"@ + d1 + "Attributes: [\n"@
        + attribute_lines(t.attributes(), depth) + d1 + "]\n"@;
    match t {
        Tag::NonCloseableTag { .. } => head + tabs(depth as nat) + "}"@,
        Tag::CloseableTag { content, children, .. } => head + d1 + "Content: "@ + content@ + "\n"@
            + d1 + "Chilren: [\n"@ + format_all(children@, deeper(depth, 2)) + d1 + "]\n"@
            + tabs(depth as nat) + "}"@,
    }
}

/// Each tag formatted at `depth`, followed by `,\n`.
pub open spec fn format_all(ts: Seq<Tag>, depth: usize) -> Seq<char>
    decreases ts,
{
    if ts.len() == 0 {
        Seq::empty()
    } else {
        format_of(ts[0], depth) + ",\n"@ + format_all(ts.drop_first(), depth)
    }
}

impl Tag {
    /// A readable outline of the tag and its descendants, indented by
    /// `depth`.
    pub fn format_tag(&self, depth: usize) -> (r: String)
        ensures
            r@ == format_of(*self, depth),
        decreases *self,
    {
        let mut text: Vec<char> = Vec::new();
        let d1 = depth.saturating_add(1);
        let d2 = depth.saturating_add(2);
        add_tabs(depth, &mut text);
        crate::text::push_str(&mut text, "{\n");
        add_tabs(d1, &mut text);
        crate::text::push_str(&mut text, "Name: ");
        crate::text::push_str(&mut text, self.get_name());
        crate::text::push_str(&mut text, "\n");
        add_tabs(d1, &mut text);
        crate::text::push_str(&mut text, "Attributes: [\n");
        let attrs = self.get_attributes();
        let mut i: usize = 0;
        let ghost before = text@;
        while i < attrs.len()
            invariant
                i <= attrs@.len(),
                d2 == deeper(depth, 2),
                text@ == before + attribute_lines(attrs@.subrange(0, i as int), depth),
            decreases attrs@.len() - i,
        {
            let ghost t0 = text@;
            add_tabs(d2, &mut text);
            crate::text::push_str(&mut text, attrs[i].name.as_str());
            match &attrs[i].value {
                Some(v) => {
                    text.push('=');
                    crate::text::push_str(&mut text, v.as_str());
                    text.push(',');
                },
                None => {},
            }
            text.push('\n');
            assert(text@ =~= t0 + attribute_line(attrs@[i as int], depth));
            assert(attrs@.subrange(0, i + 1).drop_last() =~= attrs@.subrange(0, i as int));
            i = i + 1;
        }
        assert(attrs@.subrange(0, i as int) =~= attrs@);
        add_tabs(d1, &mut text);
        crate::text::push_str(&mut text, "]\n");
        let ghost head = text@;
        assert(head =~= tabs(depth as nat) + "{\n"@ + tabs(deeper(depth, 1) as nat) + "Name: "@ + self.name()@ + "\n"@
            + tabs(deeper(depth, 1) as nat) + "Attributes: [\n"@ + attribute_lines(self.attributes(), depth)
            + tabs(deeper(depth, 1) as nat) + "]\n"@);
        match self {
            Tag::CloseableTag { content, children, .. } => {
                add_tabs(d1, &mut text);
                crate::text::push_str(&mut text, "Content: ");
                crate::text::push_str(&mut text, content.as_str());
                crate::text::push_str(&mut text, "\n");
                add_tabs(d1, &mut text);
                crate::text::push_str(&mut text, "Chilren: [\n");
                let ghost mid = text@;
                let mut k: usize = 0;
                assert(children@.subrange(0, children@.len() as int) =~= children@);
                while k < children.len()
                    invariant
                        k <= children@.len(),
                        d2 == deeper(depth, 2),
                        *self matches Tag::CloseableTag { children: c, .. } && c == *children,
                        text@ + format_all(children@.subrange(k as int, children@.len() as int), d2)
                            == mid + format_all(children@, d2),
                    decreases children@.len() - k,
                {
                    proof {
                        assert(*self matches Tag::CloseableTag { children: c, .. } && c == *children);
                        assert(decreases_to!(*children => children@));
                        assert(decreases_to!(children@ => children@[k as int]));
                        assert(decreases_to!(*self => children@[k as int]));
                    }
                    let child = children[k].format_tag(d2);
                    let ghost t0 = text@;
                    crate::text::push_str(&mut text, child.as_str());
                    crate::text::push_str(&mut text, ",\n");
                    let ghost rest = children@.subrange(k as int, children@.len() as int);
                    assert(rest.drop_first() =~= children@.subrange(k + 1, children@.len() as int));
                    assert(rest[0] == children@[k as int]);
                    k = k + 1;
                }
                assert(children@.subrange(k as int, children@.len() as int) =~= Seq::<Tag>::empty());
                add_tabs(d1, &mut text);
                crate::text::push_str(&mut text, "]\n");
                add_tabs(depth, &mut text);
                crate::text::push_str(&mut text, "}");
            },
            Tag::NonCloseableTag { .. } => {
                add_tabs(depth, &mut text);
                crate::text::push_str(&mut text, "}");
            },
        }
        string_from_chars(text.as_slice())
    }
}

} // verus!
