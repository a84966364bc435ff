//! The markup token alphabet shared by the tokenizer, the serializer and
//! the deserializer: start tags with attributes, end tags, and text runs
//! with the four named character references of the dialect decoded.

use vstd::prelude::*;

verus! {

/// One attribute of a start tag.
pub struct Attr {
    pub name: Vec<char>,
    pub value: Vec<char>,
}

pub struct AttrV {
    pub name: Seq<char>,
    pub value: Seq<char>,
}

impl View for Attr {
    type V = AttrV;

    open spec fn view(&self) -> AttrV {
        AttrV { name: self.name@, value: self.value@ }
    }
}

/// One token of the markup stream.
pub enum MarkToken {
    Open(Vec<char>, Vec<Attr>),
    Close(Vec<char>),
    Text(Vec<char>),
}

pub enum MarkTokenV {
    Open(Seq<char>, Seq<AttrV>),
    Close(Seq<char>),
    Text(Seq<char>),
}

/// The views of an attribute list.
pub open spec fn view_attrs(l: Seq<Attr>) -> Seq<AttrV> {
    l.map_values(|a: Attr| a@)
}

pub broadcast proof fn lemma_view_attrs_props(l: Seq<Attr>)
    ensures
        (#[trigger] view_attrs(l)).len() == l.len(),
        forall|i: int| 0 <= i < l.len() ==> #[trigger] view_attrs(l)[i] == l[i]@,
{
}

impl View for MarkToken {
    type V = MarkTokenV;

    open spec fn view(&self) -> MarkTokenV {
        match self {
            MarkToken::Open(n, attrs) => MarkTokenV::Open(n@, view_attrs(attrs@)),
            MarkToken::Close(n) => MarkTokenV::Close(n@),
            MarkToken::Text(t) => MarkTokenV::Text(t@),
        }
    }
}

/// The views of a token list.
pub open spec fn view_tokens(l: Seq<MarkToken>) -> Seq<MarkTokenV> {
    l.map_values(|t: MarkToken| t@)
}

pub broadcast proof fn lemma_view_tokens_props(l: Seq<MarkToken>)
    ensures
        (#[trigger] view_tokens(l)).len() == l.len(),
        forall|i: int| 0 <= i < l.len() ==> #[trigger] view_tokens(l)[i] == l[i]@,
{
}

/// The first attribute of the given name, if any.
pub open spec fn attr_value(attrs: Seq<AttrV>, name: Seq<char>) -> Option<Seq<char>>
    decreases attrs.len(),
{
    if attrs.len() == 0 {
        None
    } else if attrs[0].name == name {
        Some(attrs[0].value)
    } else {
        attr_value(attrs.drop_first(), name)
    }
}

/// One open element awaiting its end tag: name, attributes and the
/// buffer offset where its content began.
pub struct Frame {
    pub name: Vec<char>,
    pub attrs: Vec<Attr>,
    pub start: usize,
}

pub struct FrameV {
    pub name: Seq<char>,
    pub attrs: Seq<AttrV>,
    pub start: int,
}

impl View for Frame {
    type V = FrameV;

    open spec fn view(&self) -> FrameV {
        FrameV { name: self.name@, attrs: view_attrs(self.attrs@), start: self.start as int }
    }
}

/// The views of a frame stack.
pub open spec fn view_frames(l: Seq<Frame>) -> Seq<FrameV> {
    l.map_values(|f: Frame| f@)
}

pub broadcast proof fn lemma_view_frames_props(l: Seq<Frame>)
    ensures
        (#[trigger] view_frames(l)).len() == l.len(),
        forall|i: int| 0 <= i < l.len() ==> #[trigger] view_frames(l)[i] == l[i]@,
{
}

// ── Character references ───────────────────────────────────────────

/// Decoding of the dialect's four named character references; an
/// ampersand that begins no recognized reference stays literal.
pub open spec fn decode_entities(s: Seq<char>) -> Seq<char>
    decreases s.len(),
{
    if s.len() == 0 {
        s
    } else if s[0] == '&' {
        if s.len() >= 5 && s.subrange(1, 5) == seq!['a', 'm', 'p', ';'] {
            seq!['&'] + decode_entities(s.skip(5))
        } else if s.len() >= 4 && s.subrange(1, 4) == seq!['l', 't', ';'] {
            seq!['<'] + decode_entities(s.skip(4))
        } else if s.len() >= 4 && s.subrange(1, 4) == seq!['g', 't', ';'] {
            seq!['>'] + decode_entities(s.skip(4))
        } else if s.len() >= 6 && s.subrange(1, 6) == seq!['q', 'u', 'o', 't', ';'] {
            seq!['"'] + decode_entities(s.skip(6))
        } else {
            seq!['&'] + decode_entities(s.skip(1))
        }
    } else {
        seq![s[0]] + decode_entities(s.skip(1))
    }
}

/// An ASCII letter.
pub open spec fn is_ascii_alpha(c: char) -> bool {
    (65 <= c as u32 && c as u32 <= 90) || (97 <= c as u32 && c as u32 <= 122)
}

pub fn is_alpha(c: char) -> (r: bool)
    ensures
        r == is_ascii_alpha(c),
{
    let u = c as u32;
    (65 <= u && u <= 90) || (97 <= u && u <= 122)
}

} // verus!
