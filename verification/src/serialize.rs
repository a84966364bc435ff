//! The serializer: model to markup, one logical line at a time.  A
//! line's block element comes from its tag coverage in fixed priority
//! order; consecutive list lines share one container element; inline
//! runs are grouped by identical inline tag sets and wrapped with one
//! element pair per tag, closed in reverse order; the physical list
//! prefix text is stripped from the output; an embedded object becomes a
//! void image element fed from the anchor side table; and the buffer's
//! implicit trailing empty line is skipped.

use vstd::prelude::*;
use crate::chars::{int_dec, i32_to_chars};
use crate::tag::{Tag, TagV, view_tags};
use crate::doc::{
    Document,
    DocV,
    OBJ_CHAR,
    AnchorV,
    Anchor,
    anchor_lookup,
    inline_only,
    tags_eq,
};
use crate::edit::{list_prefix_len, count_list_prefix_chars};

verus! {

// ── Escaping ───────────────────────────────────────────────────────

/// The expansion of one character in text or attribute position.
pub open spec fn esc_char(c: char) -> Seq<char> {
    if c == '&' {
        seq!['&', 'a', 'm', 'p', ';']
    } else if c == '<' {
        seq!['&', 'l', 't', ';']
    } else if c == '>' {
        seq!['&', 'g', 't', ';']
    } else if c == '"' {
        seq!['&', 'q', 'u', 'o', 't', ';']
    } else {
        seq![c]
    }
}

/// Markup escaping of a whole text.
pub open spec fn escape_text(s: Seq<char>) -> Seq<char>
    decreases s.len(),
{
    if s.len() == 0 {
        Seq::empty()
    } else {
        esc_char(s[0]) + escape_text(s.skip(1))
    }
}

/// A copy of `v` with markup metacharacters escaped.
pub fn escape_exec(v: &Vec<char>) -> (r: Vec<char>)
    ensures
        r@ == escape_text(v@),
{
    let mut r: Vec<char> = Vec::new();
    proof {
        assert(v@.skip(0) =~= v@);
        assert(r@ + escape_text(v@) =~= escape_text(v@));
    }
    let mut i: usize = 0;
    while i < v.len()
        invariant
            i <= v@.len(),
            r@ + escape_text(v@.skip(i as int)) == escape_text(v@),
        decreases v@.len() - i,
    {
        let ghost suf = v@.skip(i as int);
        proof {
            assert(suf[0] == v@[i as int]);
            assert(suf.skip(1) =~= v@.skip(i + 1));
        }
        let ghost pre = r@;
        let c = v[i];
        if c == '&' {
            r.push('&');
            r.push('a');
            r.push('m');
            r.push('p');
            r.push(';');
        } else if c == '<' {
            r.push('&');
            r.push('l');
            r.push('t');
            r.push(';');
        } else if c == '>' {
            r.push('&');
            r.push('g');
            r.push('t');
            r.push(';');
        } else if c == '"' {
            r.push('&');
            r.push('q');
            r.push('u');
            r.push('o');
            r.push('t');
            r.push(';');
        } else {
            r.push(c);
        }
        proof {
            assert(r@ =~= pre + esc_char(c));
            assert(r@ + escape_text(v@.skip(i + 1)) =~= escape_text(v@));
        }
        i += 1;
    }
    proof {
        assert(v@.skip(v@.len() as int) =~= Seq::<char>::empty());
        assert(escape_text(v@.skip(v@.len() as int)) =~= Seq::<char>::empty());
        assert(r@ =~= escape_text(v@));
    }
    r
}

// ── Inline wrappers ────────────────────────────────────────────────

/// The opening wrapper text of an inline tag; block and plain tags have
/// none.
pub open spec fn open_seq(t: TagV) -> Seq<char> {
    match t {
        TagV::Bold => seq!['<', 'b', '>'],
        TagV::Italic => seq!['<', 'i', '>'],
        TagV::Underline => seq!['<', 'u', '>'],
        TagV::Strikethrough => seq!['<', 's', '>'],
        TagV::Foreground(c) => seq!['<', 's', 'p', 'a', 'n', ' ', 's', 't', 'y', 'l', 'e', '=', '"',
            'c', 'o', 'l', 'o', 'r', ':'] + c + seq!['"', '>'],
        TagV::Background(c) => seq!['<', 's', 'p', 'a', 'n', ' ', 's', 't', 'y', 'l', 'e', '=', '"',
            'b', 'a', 'c', 'k', 'g', 'r', 'o', 'u', 'n', 'd', '-', 'c', 'o', 'l', 'o', 'r', ':']
            + c + seq!['"', '>'],
        TagV::WebLink(u) => seq!['<', 'a', ' ', 'h', 'r', 'e', 'f', '=', '"'] + escape_text(u)
            + seq!['"', '>'],
        TagV::TangleLink(n) => seq!['<', 'a', ' ', 'h', 'r', 'e', 'f', '=', '"', 't', 'a', 'n',
            'g', 'l', 'e', ':', '/', '/'] + escape_text(n) + seq!['"', ' ', 'c', 'l', 'a', 's',
            's', '=', '"', 't', 'a', 'n', 'g', 'l', 'e', '"', '>'],
        _ => Seq::empty(),
    }
}

/// The closing wrapper text of an inline tag.
pub open spec fn close_seq(t: TagV) -> Seq<char> {
    match t {
        TagV::Bold => seq!['<', '/', 'b', '>'],
        TagV::Italic => seq!['<', '/', 'i', '>'],
        TagV::Underline => seq!['<', '/', 'u', '>'],
        TagV::Strikethrough => seq!['<', '/', 's', '>'],
        TagV::Foreground(c) => seq!['<', '/', 's', 'p', 'a', 'n', '>'],
        TagV::Background(c) => seq!['<', '/', 's', 'p', 'a', 'n', '>'],
        TagV::WebLink(u) => seq!['<', '/', 'a', '>'],
        TagV::TangleLink(n) => seq!['<', '/', 'a', '>'],
        _ => Seq::empty(),
    }
}

/// The opening wrappers of a tag set, in iteration order.
pub open spec fn opens_seq(l: Seq<TagV>) -> Seq<char>
    decreases l.len(),
{
    if l.len() == 0 {
        Seq::empty()
    } else {
        open_seq(l[0]) + opens_seq(l.skip(1))
    }
}

/// The closing wrappers of a tag set, in exactly the reverse order, so
/// nesting is well formed.
pub open spec fn closes_seq(l: Seq<TagV>) -> Seq<char>
    decreases l.len(),
{
    if l.len() == 0 {
        Seq::empty()
    } else {
        close_seq(l.last()) + closes_seq(l.drop_last())
    }
}

/// The void image element of an anchor.
pub open spec fn img_seq(a: AnchorV) -> Seq<char> {
    seq!['<', 'i', 'm', 'g', ' ', 's', 'r', 'c', '=', '"'] + escape_text(a.path) + seq!['"', ' ',
        'w', 'i', 'd', 't', 'h', '=', '"'] + int_dec(a.width) + seq!['"', ' ', 'a', 'l', 't', '=',
        '"', 'i', 'm', 'a', 'g', 'e', '"', '/', '>']
}

// ── Lines and runs ─────────────────────────────────────────────────

/// The first position at or after `q` where the run that began at `p`
/// breaks: the line end, an embedded object, or a change of inline tag
/// set.
pub open spec fn seg_end(d: DocV, p: int, q: int, end: int) -> int
    decreases end - q,
{
    if q >= end {
        end
    } else if d.text[q] == OBJ_CHAR {
        q
    } else if inline_only(d.marks[q]) != inline_only(d.marks[p]) {
        q
    } else {
        seg_end(d, p, q + 1, end)
    }
}

/// The serialized inline content of `[p, end)`.
pub open spec fn ser_segs(d: DocV, p: int, end: int) -> Seq<char>
    decreases end - p,
{
    if p >= end {
        Seq::empty()
    } else if d.text[p] == OBJ_CHAR {
        let part = match anchor_lookup(d.anchors, p) {
            Some(a) => img_seq(a),
            None => Seq::empty(),
        };
        part + ser_segs(d, p + 1, end)
    } else {
        let e0 = seg_end(d, p, p + 1, end);
        let e = if e0 < p + 1 {
            p + 1
        } else if e0 > end {
            end
        } else {
            e0
        };
        let tags = inline_only(d.marks[p]);
        let raw = d.text.subrange(p, e);
        let stripped = raw.skip(list_prefix_len(raw));
        let chunk = if stripped.len() == 0 {
            Seq::<char>::empty()
        } else {
            opens_seq(tags) + escape_text(stripped) + closes_seq(tags)
        };
        chunk + ser_segs(d, e, end)
    }
}

/// A line's governing block element, in fixed priority order.
pub enum BlockKind {
    BH1,
    BH2,
    BH3,
    BH4,
    BUl,
    BOl,
    BPara,
}

pub open spec fn line_block(d: DocV, a: int, b: int) -> BlockKind {
    if d.has_mark_in(a, b, TagV::H1) {
        BlockKind::BH1
    } else if d.has_mark_in(a, b, TagV::H2) {
        BlockKind::BH2
    } else if d.has_mark_in(a, b, TagV::H3) {
        BlockKind::BH3
    } else if d.has_mark_in(a, b, TagV::H4) {
        BlockKind::BH4
    } else if d.has_mark_in(a, b, TagV::BulletList) {
        BlockKind::BUl
    } else if d.has_mark_in(a, b, TagV::NumberedList) {
        BlockKind::BOl
    } else {
        BlockKind::BPara
    }
}

/// The list container a block element lives in, if any.
#[derive(PartialEq, Eq, Structural)]
pub enum CurList {
    NoList,
    InUl,
    InOl,
}

pub open spec fn list_of_block(k: BlockKind) -> CurList {
    match k {
        BlockKind::BUl => CurList::InUl,
        BlockKind::BOl => CurList::InOl,
        _ => CurList::NoList,
    }
}

pub open spec fn open_of(k: BlockKind) -> Seq<char> {
    match k {
        BlockKind::BH1 => seq!['<', 'h', '1', '>'],
        BlockKind::BH2 => seq!['<', 'h', '2', '>'],
        BlockKind::BH3 => seq!['<', 'h', '3', '>'],
        BlockKind::BH4 => seq!['<', 'h', '4', '>'],
        BlockKind::BUl | BlockKind::BOl => seq!['<', 'l', 'i', '>'],
        BlockKind::BPara => seq!['<', 'p', '>'],
    }
}

pub open spec fn close_of(k: BlockKind) -> Seq<char> {
    match k {
        BlockKind::BH1 => seq!['<', '/', 'h', '1', '>'],
        BlockKind::BH2 => seq!['<', '/', 'h', '2', '>'],
        BlockKind::BH3 => seq!['<', '/', 'h', '3', '>'],
        BlockKind::BH4 => seq!['<', '/', 'h', '4', '>'],
        BlockKind::BUl | BlockKind::BOl => seq!['<', '/', 'l', 'i', '>'],
        BlockKind::BPara => seq!['<', '/', 'p', '>'],
    }
}

/// The text that closes an open list container.
pub open spec fn close_cur(cur: CurList) -> Seq<char> {
    match cur {
        CurList::InUl => seq!['<', '/', 'u', 'l', '>', '\n'],
        CurList::InOl => seq!['<', '/', 'o', 'l', '>', '\n'],
        CurList::NoList => Seq::empty(),
    }
}

/// The text that opens a list container.
pub open spec fn open_cur(cur: CurList) -> Seq<char> {
    match cur {
        CurList::InUl => seq!['<', 'u', 'l', '>', '\n'],
        CurList::InOl => seq!['<', 'o', 'l', '>', '\n'],
        CurList::NoList => Seq::empty(),
    }
}

/// The container transition between two consecutive lines.
pub open spec fn trans_seq(cur: CurList, new: CurList) -> Seq<char> {
    if cur == new {
        Seq::empty()
    } else {
        close_cur(cur) + open_cur(new)
    }
}

/// The first separator at or after `a`, or the buffer end.
pub open spec fn scan_nl(text: Seq<char>, a: int) -> int
    decreases text.len() - a,
{
    if a >= text.len() {
        text.len() as int
    } else if text[a] == '\n' {
        a
    } else {
        scan_nl(text, a + 1)
    }
}

/// One serialized line.
pub open spec fn ser_line(d: DocV, a: int, b: int, k: BlockKind) -> Seq<char> {
    open_of(k) + ser_segs(d, a, b) + close_of(k) + seq!['\n']
}

/// The serialization of all lines from offset `a` with list container
/// state `cur`.  An empty line that sits at the buffer's absolute end is
/// the implicit trailing line and is skipped; a still-open container is
/// closed at the end.
pub open spec fn ser_lines(d: DocV, a: int, cur: CurList) -> Seq<char>
    decreases d.text.len() + 1 - a,
{
    if a >= d.text.len() {
        close_cur(cur)
    } else {
        let b0 = scan_nl(d.text, a);
        let b = if b0 < a {
            a
        } else if b0 > d.text.len() {
            d.text.len() as int
        } else {
            b0
        };
        let k = line_block(d, a, b);
        let nl = list_of_block(k);
        trans_seq(cur, nl) + ser_line(d, a, b, k) + ser_lines(d, b + 1, nl)
    }
}

/// What serializing a document yields.
pub open spec fn serialize_spec(d: DocV) -> Seq<char> {
    ser_lines(d, 0, CurList::NoList)
}

// ── The executable serializer ──────────────────────────────────────

fn push_open_tag(out: &mut Vec<char>, t: &Tag)
    ensures
        final(out)@ == old(out)@ + open_seq(t@),
{
    match t {
        Tag::Bold => {
            out.push('<');
            out.push('b');
            out.push('>');
            proof {
                assert(out@ =~= old(out)@ + open_seq(t@));
            }
        },
        Tag::Italic => {
            out.push('<');
            out.push('i');
            out.push('>');
            proof {
                assert(out@ =~= old(out)@ + open_seq(t@));
            }
        },
        Tag::Underline => {
            out.push('<');
            out.push('u');
            out.push('>');
            proof {
                assert(out@ =~= old(out)@ + open_seq(t@));
            }
        },
        Tag::Strikethrough => {
            out.push('<');
            out.push('s');
            out.push('>');
            proof {
                assert(out@ =~= old(out)@ + open_seq(t@));
            }
        },
        Tag::Foreground(c) => {
            out.push('<');
            out.push('s');
            out.push('p');
            out.push('a');
            out.push('n');
            out.push(' ');
            out.push('s');
            out.push('t');
            out.push('y');
            out.push('l');
            out.push('e');
            out.push('=');
            out.push('"');
            out.push('c');
            out.push('o');
            out.push('l');
            out.push('o');
            out.push('r');
            out.push(':');
            let mut cc = crate::doc::dup_chars(c);
            out.append(&mut cc);
            out.push('"');
            out.push('>');
            proof {
                assert(out@ =~= old(out)@ + open_seq(t@));
            }
        },
        Tag::Background(c) => {
            out.push('<');
            out.push('s');
            out.push('p');
            out.push('a');
            out.push('n');
            out.push(' ');
            out.push('s');
            out.push('t');
            out.push('y');
            out.push('l');
            out.push('e');
            out.push('=');
            out.push('"');
            out.push('b');
            out.push('a');
            out.push('c');
            out.push('k');
            out.push('g');
            out.push('r');
            out.push('o');
            out.push('u');
            out.push('n');
            out.push('d');
            out.push('-');
            out.push('c');
            out.push('o');
            out.push('l');
            out.push('o');
            out.push('r');
            out.push(':');
            let mut cc = crate::doc::dup_chars(c);
            out.append(&mut cc);
            out.push('"');
            out.push('>');
            proof {
                assert(out@ =~= old(out)@ + open_seq(t@));
            }
        },
        Tag::WebLink(u) => {
            out.push('<');
            out.push('a');
            out.push(' ');
            out.push('h');
            out.push('r');
            out.push('e');
            out.push('f');
            out.push('=');
            out.push('"');
            let mut e = escape_exec(u);
            out.append(&mut e);
            out.push('"');
            out.push('>');
            proof {
                assert(out@ =~= old(out)@ + open_seq(t@));
            }
        },
        Tag::TangleLink(n) => {
            out.push('<');
            out.push('a');
            out.push(' ');
            out.push('h');
            out.push('r');
            out.push('e');
            out.push('f');
            out.push('=');
            out.push('"');
            out.push('t');
            out.push('a');
            out.push('n');
            out.push('g');
            out.push('l');
            out.push('e');
            out.push(':');
            out.push('/');
            out.push('/');
            let mut e = escape_exec(n);
            out.append(&mut e);
            out.push('"');
            out.push(' ');
            out.push('c');
            out.push('l');
            out.push('a');
            out.push('s');
            out.push('s');
            out.push('=');
            out.push('"');
            out.push('t');
            out.push('a');
            out.push('n');
            out.push('g');
            out.push('l');
            out.push('e');
            out.push('"');
            out.push('>');
            proof {
                assert(out@ =~= old(out)@ + open_seq(t@));
            }
        },
        _ => {
            proof {
                assert(out@ =~= old(out)@ + open_seq(t@));
            }
        },
    }
}

fn push_close_tag(out: &mut Vec<char>, t: &Tag)
    ensures
        final(out)@ == old(out)@ + close_seq(t@),
{
    match t {
        Tag::Bold => {
            out.push('<');
            out.push('/');
            out.push('b');
            out.push('>');
            proof {
                assert(out@ =~= old(out)@ + close_seq(t@));
            }
        },
        Tag::Italic => {
            out.push('<');
            out.push('/');
            out.push('i');
            out.push('>');
            proof {
                assert(out@ =~= old(out)@ + close_seq(t@));
            }
        },
        Tag::Underline => {
            out.push('<');
            out.push('/');
            out.push('u');
            out.push('>');
            proof {
                assert(out@ =~= old(out)@ + close_seq(t@));
            }
        },
        Tag::Strikethrough => {
            out.push('<');
            out.push('/');
            out.push('s');
            out.push('>');
            proof {
                assert(out@ =~= old(out)@ + close_seq(t@));
            }
        },
        Tag::Foreground(_) | Tag::Background(_) => {
            out.push('<');
            out.push('/');
            out.push('s');
            out.push('p');
            out.push('a');
            out.push('n');
            out.push('>');
            proof {
                assert(out@ =~= old(out)@ + close_seq(t@));
            }
        },
        Tag::WebLink(_) | Tag::TangleLink(_) => {
            out.push('<');
            out.push('/');
            out.push('a');
            out.push('>');
            proof {
                assert(out@ =~= old(out)@ + close_seq(t@));
            }
        },
        _ => {
            proof {
                assert(out@ =~= old(out)@ + close_seq(t@));
            }
        },
    }
}

fn push_open_block(out: &mut Vec<char>, k: &BlockKind)
    ensures
        final(out)@ == old(out)@ + open_of(*k),
{
    match k {
        BlockKind::BH1 => {
            out.push('<');
            out.push('h');
            out.push('1');
            out.push('>');
        },
        BlockKind::BH2 => {
            out.push('<');
            out.push('h');
            out.push('2');
            out.push('>');
        },
        BlockKind::BH3 => {
            out.push('<');
            out.push('h');
            out.push('3');
            out.push('>');
        },
        BlockKind::BH4 => {
            out.push('<');
            out.push('h');
            out.push('4');
            out.push('>');
        },
        BlockKind::BUl | BlockKind::BOl => {
            out.push('<');
            out.push('l');
            out.push('i');
            out.push('>');
        },
        BlockKind::BPara => {
            out.push('<');
            out.push('p');
            out.push('>');
        },
    }
    proof {
        assert(out@ =~= old(out)@ + open_of(*k));
    }
}

fn push_close_block(out: &mut Vec<char>, k: &BlockKind)
    ensures
        final(out)@ == old(out)@ + close_of(*k),
{
    match k {
        BlockKind::BH1 => {
            out.push('<');
            out.push('/');
            out.push('h');
            out.push('1');
            out.push('>');
        },
        BlockKind::BH2 => {
            out.push('<');
            out.push('/');
            out.push('h');
            out.push('2');
            out.push('>');
        },
        BlockKind::BH3 => {
            out.push('<');
            out.push('/');
            out.push('h');
            out.push('3');
            out.push('>');
        },
        BlockKind::BH4 => {
            out.push('<');
            out.push('/');
            out.push('h');
            out.push('4');
            out.push('>');
        },
        BlockKind::BUl | BlockKind::BOl => {
            out.push('<');
            out.push('/');
            out.push('l');
            out.push('i');
            out.push('>');
        },
        BlockKind::BPara => {
            out.push('<');
            out.push('/');
            out.push('p');
            out.push('>');
        },
    }
    proof {
        assert(out@ =~= old(out)@ + close_of(*k));
    }
}

fn push_close_cur(out: &mut Vec<char>, cur: &CurList)
    ensures
        final(out)@ == old(out)@ + close_cur(*cur),
{
    match cur {
        CurList::InUl => {
            out.push('<');
            out.push('/');
            out.push('u');
            out.push('l');
            out.push('>');
            out.push('\n');
        },
        CurList::InOl => {
            out.push('<');
            out.push('/');
            out.push('o');
            out.push('l');
            out.push('>');
            out.push('\n');
        },
        CurList::NoList => {
        },
    }
    proof {
        assert(out@ =~= old(out)@ + close_cur(*cur));
    }
}

fn push_open_cur(out: &mut Vec<char>, cur: &CurList)
    ensures
        final(out)@ == old(out)@ + open_cur(*cur),
{
    match cur {
        CurList::InUl => {
            out.push('<');
            out.push('u');
            out.push('l');
            out.push('>');
            out.push('\n');
        },
        CurList::InOl => {
            out.push('<');
            out.push('o');
            out.push('l');
            out.push('>');
            out.push('\n');
        },
        CurList::NoList => {
        },
    }
    proof {
        assert(out@ =~= old(out)@ + open_cur(*cur));
    }
}

fn push_img(out: &mut Vec<char>, a: &Anchor)
    ensures
        final(out)@ == old(out)@ + img_seq(a@),
{
    out.push('<');
    out.push('i');
    out.push('m');
    out.push('g');
    out.push(' ');
    out.push('s');
    out.push('r');
    out.push('c');
    out.push('=');
    out.push('"');
    let mut p = escape_exec(&a.path);
    out.append(&mut p);
    out.push('"');
    out.push(' ');
    out.push('w');
    out.push('i');
    out.push('d');
    out.push('t');
    out.push('h');
    out.push('=');
    out.push('"');
    let mut w = i32_to_chars(a.width);
    out.append(&mut w);
    out.push('"');
    out.push(' ');
    out.push('a');
    out.push('l');
    out.push('t');
    out.push('=');
    out.push('"');
    out.push('i');
    out.push('m');
    out.push('a');
    out.push('g');
    out.push('e');
    out.push('"');
    out.push('/');
    out.push('>');
    proof {
        assert(out@ =~= old(out)@ + img_seq(a@));
    }
}

/// The serialized inline content of one line, appended to `out`.
fn ser_content(d: &Document, out: &mut Vec<char>, a: usize, b: usize)
    requires
        d@.wf(),
        a <= b <= d@.text.len(),
    ensures
        final(out)@ == old(out)@ + ser_segs(d@, a as int, b as int),
{
    let ghost segbase = out@;
    let mut p: usize = a;
    while p < b
        invariant
            a <= p <= b <= d@.text.len(),
            d@.wf(),
            segbase == old(out)@,
            out@ + ser_segs(d@, p as int, b as int) == segbase + ser_segs(d@, a as int, b as int),
        decreases b - p,
    {
        let c = d.char_at(p);
        if c == OBJ_CHAR {
            match d.anchor_at(p) {
                Some(anc) => {
                    push_img(out, &anc);
                },
                None => {
                },
            }
            proof {
                assert(out@ + ser_segs(d@, p + 1, b as int) =~= segbase + ser_segs(
                    d@,
                    a as int,
                    b as int,
                ));
            }
            p += 1;
        } else {
            let tags_p = d.inline_tags_at(p);
            let mut q: usize = p + 1;
            loop
                invariant_except_break
                    p + 1 <= q <= b <= d@.text.len(),
                    p < b,
                    d@.wf(),
                    view_tags(tags_p@) == inline_only(d@.marks[p as int]),
                    seg_end(d@, p as int, p + 1, b as int) == seg_end(
                        d@,
                        p as int,
                        q as int,
                        b as int,
                    ),
                ensures
                    p + 1 <= q <= b,
                    seg_end(d@, p as int, p + 1, b as int) == q,
                decreases b - q,
            {
                if q >= b {
                    break ;
                }
                if d.char_at(q) == OBJ_CHAR {
                    break ;
                }
                let tq = d.inline_tags_at(q);
                if !tags_eq(&tq, &tags_p) {
                    break ;
                }
                q += 1;
            }
            let e = q;
            let raw = d.text_range(p, e);
            let plen = count_list_prefix_chars(&raw);
            let stripped = crate::tag::tail_from(&raw, plen);
            let ghost chunkbase = out@;
            if stripped.len() > 0 {
                let ghost tagsv = view_tags(tags_p@);
                let ghost opensbase = out@;
                proof {
                    assert(tagsv.skip(0) =~= tagsv);
                }
                let mut ti: usize = 0;
                while ti < tags_p.len()
                    invariant
                        ti <= tags_p@.len(),
                        tagsv == view_tags(tags_p@),
                        out@ + opens_seq(tagsv.skip(ti as int)) == opensbase + opens_seq(tagsv),
                    decreases tags_p@.len() - ti,
                {
                    proof {
                        assert(tagsv.skip(ti as int)[0] == tagsv[ti as int]);
                        assert(tagsv.skip(ti as int).skip(1) =~= tagsv.skip(ti + 1));
                    }
                    push_open_tag(out, &tags_p[ti]);
                    ti += 1;
                }
                proof {
                    assert(tagsv.skip(tags_p@.len() as int) =~= Seq::<TagV>::empty());
                }
                let mut esc = escape_exec(&stripped);
                out.append(&mut esc);
                let ghost closebase = out@;
                proof {
                    assert(tagsv.take(tags_p@.len() as int) =~= tagsv);
                }
                let mut tj: usize = tags_p.len();
                while tj > 0
                    invariant
                        tj <= tags_p@.len(),
                        tagsv == view_tags(tags_p@),
                        out@ + closes_seq(tagsv.take(tj as int)) == closebase + closes_seq(tagsv),
                    decreases tj,
                {
                    let ghost pre = tagsv.take(tj as int);
                    proof {
                        assert(pre.last() == tagsv[tj - 1]);
                        assert(pre.drop_last() =~= tagsv.take(tj - 1));
                    }
                    tj -= 1;
                    push_close_tag(out, &tags_p[tj]);
                }
                proof {
                    assert(tagsv.take(0) =~= Seq::<TagV>::empty());
                    assert(out@ =~= chunkbase + (opens_seq(tagsv) + escape_text(stripped@)
                        + closes_seq(tagsv)));
                }
            }
            proof {
                assert(out@ + ser_segs(d@, e as int, b as int) =~= segbase + ser_segs(
                    d@,
                    a as int,
                    b as int,
                ));
            }
            p = e;
        }
    }
    proof {
        assert(ser_segs(d@, b as int, b as int) =~= Seq::<char>::empty());
        assert(out@ =~= old(out)@ + ser_segs(d@, a as int, b as int));
    }
}

/// One line: its container transition, block element, inline content and
/// separator, appended to `out`; the result is the line's end offset and
/// the container state after it.
#[verifier::rlimit(100)]
fn ser_one_line(d: &Document, out: &mut Vec<char>, a: usize, cur: CurList) -> (r: (usize, CurList))
    requires
        d@.wf(),
        a < d@.text.len(),
    ensures
        a <= r.0 <= d@.text.len(),
        scan_nl(d@.text, a as int) == r.0 as int,
        r.1 == list_of_block(line_block(d@, a as int, r.0 as int)),
        final(out)@ == old(out)@ + trans_seq(cur, r.1) + ser_line(
            d@,
            a as int,
            r.0 as int,
            line_block(d@, a as int, r.0 as int),
        ),
{
    let len = d.len();
    let mut b: usize = a;
    while b < len && d.char_at(b) != '\n'
        invariant
            a <= b <= len == d@.text.len(),
            d@.wf(),
            scan_nl(d@.text, a as int) == scan_nl(d@.text, b as int),
        decreases len - b,
    {
        b += 1;
    }
    proof {
        assert(scan_nl(d@.text, a as int) == b);
    }
    let k = if d.has_tag_in_range(&Tag::H1, a, b) {
        BlockKind::BH1
    } else if d.has_tag_in_range(&Tag::H2, a, b) {
        BlockKind::BH2
    } else if d.has_tag_in_range(&Tag::H3, a, b) {
        BlockKind::BH3
    } else if d.has_tag_in_range(&Tag::H4, a, b) {
        BlockKind::BH4
    } else if d.has_tag_in_range(&Tag::BulletList, a, b) {
        BlockKind::BUl
    } else if d.has_tag_in_range(&Tag::NumberedList, a, b) {
        BlockKind::BOl
    } else {
        BlockKind::BPara
    };
    proof {
        assert(k == line_block(d@, a as int, b as int));
    }
    let nl = match k {
        BlockKind::BUl => CurList::InUl,
        BlockKind::BOl => CurList::InOl,
        _ => CurList::NoList,
    };
    proof {
        assert(nl == list_of_block(k));
    }
    let ghost before_trans = out@;
    if !(cur == nl) {
        push_close_cur(out, &cur);
        push_open_cur(out, &nl);
    }
    proof {
        assert(out@ =~= before_trans + trans_seq(cur, nl));
    }
    push_open_block(out, &k);
    ser_content(d, out, a, b);
    push_close_block(out, &k);
    out.push('\n');
    proof {
        assert(out@ =~= before_trans + trans_seq(cur, nl) + ser_line(d@, a as int, b as int, k));
    }
    (b, nl)
}

/// Serializes the document to its markup text.
pub fn serialize(d: &Document) -> (r: Vec<char>)
    requires
        d@.wf(),
        d@.text.len() < usize::MAX,
    ensures
        r@ == serialize_spec(d@),
{
    let len = d.len();
    let mut out: Vec<char> = Vec::new();
    let mut cur = CurList::NoList;
    proof {
        assert(out@ + ser_lines(d@, 0, CurList::NoList) =~= serialize_spec(d@));
    }
    let mut a: usize = 0;
    while a < len
        invariant
            d@.wf(),
            len == d@.text.len(),
            len < usize::MAX,
            a <= len + 1,
            out@ + ser_lines(d@, a as int, cur) == serialize_spec(d@),
        decreases len + 1 - a,
    {
        let r = ser_one_line(d, &mut out, a, cur);
        let b = r.0;
        let nl = r.1;
        proof {
            assert(out@ + ser_lines(d@, b + 1, nl) =~= serialize_spec(d@));
        }
        cur = nl;
        a = b + 1;
    }
    proof {
        assert(ser_lines(d@, a as int, cur) == close_cur(cur));
    }
    push_close_cur(&mut out, &cur);
    proof {
        assert(out@ =~= serialize_spec(d@));
    }
    out
}

/// The markup text as a `String`.
pub fn serialize_to_string(d: &Document) -> (r: String)
    requires
        d@.wf(),
        d@.text.len() < usize::MAX,
    ensures
        r@ == serialize_spec(d@),
{
    let v = serialize(d);
    crate::chars::chars_to_string(&v)
}

} // verus!
