//! The closed family of formatting tags.
//!
//! Fixed names form the style-keyword family (bold, italic, underline,
//! strikethrough), the heading family (levels one to four) and the two list
//! kinds.  Parametrized families carry their parameter in full — a color, a
//! URL, or a note title — so each distinct parameter is its own tag
//! identity.  Any other name becomes a `Plain` tag with no effect beyond
//! round-trip identity.

use vstd::prelude::*;
use crate::chars::eq_chars;

verus! {

#[derive(Debug)]
pub enum Tag {
    Bold,
    Italic,
    Underline,
    Strikethrough,
    H1,
    H2,
    H3,
    H4,
    BulletList,
    NumberedList,
    Foreground(Vec<char>),
    Background(Vec<char>),
    WebLink(Vec<char>),
    TangleLink(Vec<char>),
    Plain(Vec<char>),
}

/// The mathematical image of a `Tag`: the same shape over `Seq<char>`.
pub enum TagV {
    Bold,
    Italic,
    Underline,
    Strikethrough,
    H1,
    H2,
    H3,
    H4,
    BulletList,
    NumberedList,
    Foreground(Seq<char>),
    Background(Seq<char>),
    WebLink(Seq<char>),
    TangleLink(Seq<char>),
    Plain(Seq<char>),
}

impl View for Tag {
    type V = TagV;

    open spec fn view(&self) -> TagV {
        match self {
            Tag::Bold => TagV::Bold,
            Tag::Italic => TagV::Italic,
            Tag::Underline => TagV::Underline,
            Tag::Strikethrough => TagV::Strikethrough,
            Tag::H1 => TagV::H1,
            Tag::H2 => TagV::H2,
            Tag::H3 => TagV::H3,
            Tag::H4 => TagV::H4,
            Tag::BulletList => TagV::BulletList,
            Tag::NumberedList => TagV::NumberedList,
            Tag::Foreground(c) => TagV::Foreground(c@),
            Tag::Background(c) => TagV::Background(c@),
            Tag::WebLink(u) => TagV::WebLink(u@),
            Tag::TangleLink(t) => TagV::TangleLink(t@),
            Tag::Plain(n) => TagV::Plain(n@),
        }
    }
}

impl DeepView for Tag {
    type V = TagV;

    open spec fn deep_view(&self) -> TagV {
        self.view()
    }
}

impl PartialEq for Tag {
    fn eq(&self, other: &Tag) -> (r: bool) {
        match (self, other) {
            (Tag::Bold, Tag::Bold) => true,
            (Tag::Italic, Tag::Italic) => true,
            (Tag::Underline, Tag::Underline) => true,
            (Tag::Strikethrough, Tag::Strikethrough) => true,
            (Tag::H1, Tag::H1) => true,
            (Tag::H2, Tag::H2) => true,
            (Tag::H3, Tag::H3) => true,
            (Tag::H4, Tag::H4) => true,
            (Tag::BulletList, Tag::BulletList) => true,
            (Tag::NumberedList, Tag::NumberedList) => true,
            (Tag::Foreground(a), Tag::Foreground(b)) => eq_chars(a, b),
            (Tag::Background(a), Tag::Background(b)) => eq_chars(a, b),
            (Tag::WebLink(a), Tag::WebLink(b)) => eq_chars(a, b),
            (Tag::TangleLink(a), Tag::TangleLink(b)) => eq_chars(a, b),
            (Tag::Plain(a), Tag::Plain(b)) => eq_chars(a, b),
            _ => false,
        }
    }
}

impl vstd::std_specs::cmp::PartialEqSpecImpl for Tag {
    open spec fn obeys_eq_spec() -> bool {
        true
    }

    open spec fn eq_spec(&self, other: &Tag) -> bool {
        self@ == other@
    }
}

/// The views of a list of tags, in order.
pub open spec fn view_tags(l: Seq<Tag>) -> Seq<TagV> {
    l.map_values(|t: Tag| t@)
}

pub broadcast proof fn lemma_view_tags_props(l: Seq<Tag>)
    ensures
        (#[trigger] view_tags(l)).len() == l.len(),
        forall|i: int| 0 <= i < l.len() ==> #[trigger] view_tags(l)[i] == l[i]@,
{
}

/// The views of a list of per-position tag lists.
pub open spec fn view_marks(m: Seq<Vec<Tag>>) -> Seq<Seq<TagV>> {
    m.map_values(|l: Vec<Tag>| view_tags(l@))
}

pub broadcast proof fn lemma_view_marks_props(m: Seq<Vec<Tag>>)
    ensures
        (#[trigger] view_marks(m)).len() == m.len(),
        forall|i: int| 0 <= i < m.len() ==> #[trigger] view_marks(m)[i] == view_tags(m[i]@),
{
}

/// Heading tags form one mutually exclusive family.
pub open spec fn is_heading_v(t: TagV) -> bool {
    t is H1 || t is H2 || t is H3 || t is H4
}

/// The two list kinds form one mutually exclusive family.
pub open spec fn is_list_v(t: TagV) -> bool {
    t is BulletList || t is NumberedList
}

/// Block tags govern whole lines; everything else is inline.
pub open spec fn is_block_v(t: TagV) -> bool {
    is_heading_v(t) || is_list_v(t)
}

pub fn is_heading(t: &Tag) -> (r: bool)
    ensures
        r == is_heading_v(t@),
{
    match t {
        Tag::H1 | Tag::H2 | Tag::H3 | Tag::H4 => true,
        _ => false,
    }
}

pub fn is_list(t: &Tag) -> (r: bool)
    ensures
        r == is_list_v(t@),
{
    match t {
        Tag::BulletList | Tag::NumberedList => true,
        _ => false,
    }
}

pub fn is_block(t: &Tag) -> (r: bool)
    ensures
        r == is_block_v(t@),
{
    match t {
        Tag::H1 | Tag::H2 | Tag::H3 | Tag::H4 | Tag::BulletList | Tag::NumberedList => true,
        _ => false,
    }
}

/// Whether two tags belong to the same mutually exclusive family, so that
/// applying one removes the other.  Headings conflict with headings, list
/// kinds with list kinds, foreground colors with foreground colors and
/// background colors with background colors; every tag conflicts with
/// itself.
pub open spec fn conflicts_v(a: TagV, b: TagV) -> bool {
    if is_heading_v(a) {
        is_heading_v(b)
    } else if is_list_v(a) {
        is_list_v(b)
    } else if a is Foreground {
        b is Foreground
    } else if a is Background {
        b is Background
    } else {
        a == b
    }
}

pub fn conflicts(a: &Tag, b: &Tag) -> (r: bool)
    ensures
        r == conflicts_v(a@, b@),
{
    match a {
        Tag::H1 | Tag::H2 | Tag::H3 | Tag::H4 => is_heading(b),
        Tag::BulletList | Tag::NumberedList => is_list(b),
        Tag::Foreground(_) => matches!(b, Tag::Foreground(_)),
        Tag::Background(_) => matches!(b, Tag::Background(_)),
        _ => a.eq(b),
    }
}

/// The canonical mapping from a tag name to its semantics, derived purely
/// from the name's syntax: the fixed names select the style, heading and
/// list tags; the prefixes `fg::`, `bg::`, `link::` and `tangle::` select
/// the parametrized families; anything else is a plain tag.
pub open spec fn tag_of_name(n: Seq<char>) -> TagV {
    if n == seq!['b', 'o', 'l', 'd'] {
        TagV::Bold
    } else if n == seq!['i', 't', 'a', 'l', 'i', 'c'] {
        TagV::Italic
    } else if n == seq!['u', 'n', 'd', 'e', 'r', 'l', 'i', 'n', 'e'] {
        TagV::Underline
    } else if n == seq!['s', 't', 'r', 'i', 'k', 'e', 't', 'h', 'r', 'o', 'u', 'g', 'h'] {
        TagV::Strikethrough
    } else if n == seq!['h', '1'] {
        TagV::H1
    } else if n == seq!['h', '2'] {
        TagV::H2
    } else if n == seq!['h', '3'] {
        TagV::H3
    } else if n == seq!['h', '4'] {
        TagV::H4
    } else if n == seq!['b', 'u', 'l', 'l', 'e', 't', '-', 'l', 'i', 's', 't'] {
        TagV::BulletList
    } else if n == seq!['n', 'u', 'm', 'b', 'e', 'r', 'e', 'd', '-', 'l', 'i', 's', 't'] {
        TagV::NumberedList
    } else if n.len() >= 4 && n.take(4) == seq!['f', 'g', ':', ':'] {
        TagV::Foreground(n.skip(4))
    } else if n.len() >= 4 && n.take(4) == seq!['b', 'g', ':', ':'] {
        TagV::Background(n.skip(4))
    } else if n.len() >= 6 && n.take(6) == seq!['l', 'i', 'n', 'k', ':', ':'] {
        TagV::WebLink(n.skip(6))
    } else if n.len() >= 8 && n.take(8) == seq!['t', 'a', 'n', 'g', 'l', 'e', ':', ':'] {
        TagV::TangleLink(n.skip(8))
    } else {
        TagV::Plain(n)
    }
}

/// A copy of `v[k..]`.
pub fn tail_from(v: &Vec<char>, k: usize) -> (r: Vec<char>)
    requires
        k <= v@.len(),
    ensures
        r@ == v@.skip(k as int),
{
    let mut r: Vec<char> = Vec::new();
    let mut i: usize = k;
    while i < v.len()
        invariant
            k <= i <= v@.len(),
            r@ == v@.subrange(k as int, i as int),
        decreases v@.len() - i,
    {
        r.push(v[i]);
        proof {
            assert(r@ =~= v@.subrange(k as int, i + 1));
        }
        i += 1;
    }
    proof {
        assert(v@.subrange(k as int, v@.len() as int) =~= v@.skip(k as int));
    }
    r
}

/// The tag a name denotes.
pub fn tag_from_name(n: &Vec<char>) -> (t: Tag)
    ensures
        t@ == tag_of_name(n@),
{
    let len = n.len();
    if len == 4 && n[0] == 'b' && n[1] == 'o' && n[2] == 'l' && n[3] == 'd' {
        proof {
            assert(n@ =~= seq!['b', 'o', 'l', 'd']);
        }
        Tag::Bold
    } else if len == 6 && n[0] == 'i' && n[1] == 't' && n[2] == 'a' && n[3] == 'l' && n[4] == 'i'
        && n[5] == 'c' {
        proof {
            assert(n@ =~= seq!['i', 't', 'a', 'l', 'i', 'c']);
        }
        Tag::Italic
    } else if len == 9 && n[0] == 'u' && n[1] == 'n' && n[2] == 'd' && n[3] == 'e' && n[4] == 'r'
        && n[5] == 'l' && n[6] == 'i' && n[7] == 'n' && n[8] == 'e' {
        proof {
            assert(n@ =~= seq!['u', 'n', 'd', 'e', 'r', 'l', 'i', 'n', 'e']);
        }
        Tag::Underline
    } else if len == 13 && n[0] == 's' && n[1] == 't' && n[2] == 'r' && n[3] == 'i' && n[4] == 'k'
        && n[5] == 'e' && n[6] == 't' && n[7] == 'h' && n[8] == 'r' && n[9] == 'o' && n[10] == 'u'
        && n[11] == 'g' && n[12] == 'h' {
        proof {
            assert(n@ =~= seq!['s', 't', 'r', 'i', 'k', 'e', 't', 'h', 'r', 'o', 'u', 'g', 'h']);
        }
        Tag::Strikethrough
    } else if len == 2 && n[0] == 'h' && n[1] == '1' {
        proof {
            assert(n@ =~= seq!['h', '1']);
        }
        Tag::H1
    } else if len == 2 && n[0] == 'h' && n[1] == '2' {
        proof {
            assert(n@ =~= seq!['h', '2']);
        }
        Tag::H2
    } else if len == 2 && n[0] == 'h' && n[1] == '3' {
        proof {
            assert(n@ =~= seq!['h', '3']);
        }
        Tag::H3
    } else if len == 2 && n[0] == 'h' && n[1] == '4' {
        proof {
            assert(n@ =~= seq!['h', '4']);
        }
        Tag::H4
    } else if len == 11 && n[0] == 'b' && n[1] == 'u' && n[2] == 'l' && n[3] == 'l' && n[4] == 'e'
        && n[5] == 't' && n[6] == '-' && n[7] == 'l' && n[8] == 'i' && n[9] == 's' && n[10] == 't' {
        proof {
            assert(n@ =~= seq!['b', 'u', 'l', 'l', 'e', 't', '-', 'l', 'i', 's', 't']);
        }
        Tag::BulletList
    } else if len == 13 && n[0] == 'n' && n[1] == 'u' && n[2] == 'm' && n[3] == 'b' && n[4] == 'e'
        && n[5] == 'r' && n[6] == 'e' && n[7] == 'd' && n[8] == '-' && n[9] == 'l' && n[10] == 'i'
        && n[11] == 's' && n[12] == 't' {
        proof {
            assert(n@ =~= seq!['n', 'u', 'm', 'b', 'e', 'r', 'e', 'd', '-', 'l', 'i', 's', 't']);
        }
        Tag::NumberedList
    } else if len >= 4 && n[0] == 'f' && n[1] == 'g' && n[2] == ':' && n[3] == ':' {
        proof {
            assert(n@.take(4) =~= seq!['f', 'g', ':', ':']);
        }
        Tag::Foreground(tail_from(n, 4))
    } else if len >= 4 && n[0] == 'b' && n[1] == 'g' && n[2] == ':' && n[3] == ':' {
        proof {
            assert(n@.take(4) =~= seq!['b', 'g', ':', ':']);
        }
        Tag::Background(tail_from(n, 4))
    } else if len >= 6 && n[0] == 'l' && n[1] == 'i' && n[2] == 'n' && n[3] == 'k' && n[4] == ':'
        && n[5] == ':' {
        proof {
            assert(n@.take(6) =~= seq!['l', 'i', 'n', 'k', ':', ':']);
        }
        Tag::WebLink(tail_from(n, 6))
    } else if len >= 8 && n[0] == 't' && n[1] == 'a' && n[2] == 'n' && n[3] == 'g' && n[4] == 'l'
        && n[5] == 'e' && n[6] == ':' && n[7] == ':' {
        proof {
            assert(n@.take(8) =~= seq!['t', 'a', 'n', 'g', 'l', 'e', ':', ':']);
        }
        Tag::TangleLink(tail_from(n, 8))
    } else {
        proof {
            lemma_tag_of_name_other(n@);
        }
        Tag::Plain(n.clone())
    }
}

/// When a name matches none of the recognized shapes, it denotes a plain
/// tag.  The shape tests above are stated over lengths and single
/// characters; this lemma bridges them to the sequence comparisons in
/// `tag_of_name`.
proof fn lemma_tag_of_name_other(n: Seq<char>)
    requires
        !(n.len() == 4 && n[0] == 'b' && n[1] == 'o' && n[2] == 'l' && n[3] == 'd'),
        !(n.len() == 6 && n[0] == 'i' && n[1] == 't' && n[2] == 'a' && n[3] == 'l' && n[4] == 'i'
            && n[5] == 'c'),
        !(n.len() == 9 && n[0] == 'u' && n[1] == 'n' && n[2] == 'd' && n[3] == 'e' && n[4] == 'r'
            && n[5] == 'l' && n[6] == 'i' && n[7] == 'n' && n[8] == 'e'),
        !(n.len() == 13 && n[0] == 's' && n[1] == 't' && n[2] == 'r' && n[3] == 'i' && n[4] == 'k'
            && n[5] == 'e' && n[6] == 't' && n[7] == 'h' && n[8] == 'r' && n[9] == 'o' && n[10]
            == 'u' && n[11] == 'g' && n[12] == 'h'),
        !(n.len() == 2 && n[0] == 'h' && n[1] == '1'),
        !(n.len() == 2 && n[0] == 'h' && n[1] == '2'),
        !(n.len() == 2 && n[0] == 'h' && n[1] == '3'),
        !(n.len() == 2 && n[0] == 'h' && n[1] == '4'),
        !(n.len() == 11 && n[0] == 'b' && n[1] == 'u' && n[2] == 'l' && n[3] == 'l' && n[4] == 'e'
            && n[5] == 't' && n[6] == '-' && n[7] == 'l' && n[8] == 'i' && n[9] == 's' && n[10]
            == 't'),
        !(n.len() == 13 && n[0] == 'n' && n[1] == 'u' && n[2] == 'm' && n[3] == 'b' && n[4] == 'e'
            && n[5] == 'r' && n[6] == 'e' && n[7] == 'd' && n[8] == '-' && n[9] == 'l' && n[10]
            == 'i' && n[11] == 's' && n[12] == 't'),
        !(n.len() >= 4 && n[0] == 'f' && n[1] == 'g' && n[2] == ':' && n[3] == ':'),
        !(n.len() >= 4 && n[0] == 'b' && n[1] == 'g' && n[2] == ':' && n[3] == ':'),
        !(n.len() >= 6 && n[0] == 'l' && n[1] == 'i' && n[2] == 'n' && n[3] == 'k' && n[4] == ':'
            && n[5] == ':'),
        !(n.len() >= 8 && n[0] == 't' && n[1] == 'a' && n[2] == 'n' && n[3] == 'g' && n[4] == 'l'
            && n[5] == 'e' && n[6] == ':' && n[7] == ':'),
    ensures
        tag_of_name(n) == TagV::Plain(n),
{
    assert(n != seq!['b', 'o', 'l', 'd']);
    assert(n != seq!['i', 't', 'a', 'l', 'i', 'c']);
    assert(n != seq!['u', 'n', 'd', 'e', 'r', 'l', 'i', 'n', 'e']);
    assert(n != seq!['s', 't', 'r', 'i', 'k', 'e', 't', 'h', 'r', 'o', 'u', 'g', 'h']);
    assert(n != seq!['h', '1']);
    assert(n != seq!['h', '2']);
    assert(n != seq!['h', '3']);
    assert(n != seq!['h', '4']);
    assert(n != seq!['b', 'u', 'l', 'l', 'e', 't', '-', 'l', 'i', 's', 't']);
    assert(n != seq!['n', 'u', 'm', 'b', 'e', 'r', 'e', 'd', '-', 'l', 'i', 's', 't']);
    if n.len() >= 4 {
        assert(n.take(4)[0] == n[0] && n.take(4)[1] == n[1] && n.take(4)[2] == n[2] && n.take(4)[3]
            == n[3]);
        assert(n.take(4) != seq!['f', 'g', ':', ':']);
        assert(n.take(4) != seq!['b', 'g', ':', ':']);
    }
    if n.len() >= 6 {
        assert(n.take(6)[0] == n[0] && n.take(6)[1] == n[1] && n.take(6)[2] == n[2] && n.take(6)[3]
            == n[3] && n.take(6)[4] == n[4] && n.take(6)[5] == n[5]);
        assert(n.take(6) != seq!['l', 'i', 'n', 'k', ':', ':']);
    }
    if n.len() >= 8 {
        assert(n.take(8)[0] == n[0] && n.take(8)[1] == n[1] && n.take(8)[2] == n[2] && n.take(8)[3]
            == n[3] && n.take(8)[4] == n[4] && n.take(8)[5] == n[5] && n.take(8)[6] == n[6]
            && n.take(8)[7] == n[7]);
        assert(n.take(8) != seq!['t', 'a', 'n', 'g', 'l', 'e', ':', ':']);
    }
}

} // verus!
