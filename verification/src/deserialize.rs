//! The deserializer: a tolerant builder that folds the token stream into
//! a document.  It keeps a stack of open elements, a list-context stack
//! with an ordered-list counter, and a flag telling whether text is
//! inside a recognized block element; whitespace between blocks is
//! dropped, unknown elements are carried on the stack and silently
//! dropped when they close, and an image whose path is not among the
//! available ones inserts nothing.

use vstd::prelude::*;
use crate::chars::{all_space, all_space_exec, eq_chars, str_to_chars, view_strs, lemma_view_strs_props};
use crate::tag::{Tag, TagV};
use crate::doc::{
    Document,
    DocV,
    dup_chars,
    empty_doc,
    insert_text_spec,
    insert_image_spec,
    apply_tag_spec,
    line_begin,
};
use crate::token::{
    Attr,
    AttrV,
    MarkToken,
    MarkTokenV,
    Frame,
    FrameV,
    view_attrs,
    view_tokens,
    view_frames,
    attr_value,
    lemma_view_attrs_props,
    lemma_view_tokens_props,
    lemma_view_frames_props,
};
use crate::tokenize::{tokenize, tokenize_spec, find_attr};
use crate::color::style_color_of;

verus! {

broadcast use
    lemma_view_attrs_props,
    lemma_view_tokens_props,
    lemma_view_frames_props,
    lemma_view_strs_props;

/// The kind of list container currently open.
pub enum ListCtx {
    Ul,
    Ol,
}

/// The element vocabulary the builder reacts to; anything else is
/// `Other`.
pub enum ElemKind {
    KUl,
    KOl,
    KLi,
    KPara,
    KH1,
    KH2,
    KH3,
    KH4,
    KImg,
    KBr,
    KBold,
    KItalic,
    KUnderline,
    KStrike,
    KSpan,
    KAnchorElem,
    KOther,
}

/// The element kind a lower-cased tag name denotes.
pub open spec fn elem_kind_of(n: Seq<char>) -> ElemKind {
    if n == seq!['u', 'l'] {
        ElemKind::KUl
    } else if n == seq!['o', 'l'] {
        ElemKind::KOl
    } else if n == seq!['l', 'i'] {
        ElemKind::KLi
    } else if n == seq!['p'] {
        ElemKind::KPara
    } else if n == seq!['h', '1'] {
        ElemKind::KH1
    } else if n == seq!['h', '2'] {
        ElemKind::KH2
    } else if n == seq!['h', '3'] {
        ElemKind::KH3
    } else if n == seq!['h', '4'] {
        ElemKind::KH4
    } else if n == seq!['i', 'm', 'g'] {
        ElemKind::KImg
    } else if n == seq!['b', 'r'] {
        ElemKind::KBr
    } else if n == seq!['b'] || n == seq!['s', 't', 'r', 'o', 'n', 'g'] {
        ElemKind::KBold
    } else if n == seq!['i'] || n == seq!['e', 'm'] {
        ElemKind::KItalic
    } else if n == seq!['u'] {
        ElemKind::KUnderline
    } else if n == seq!['s'] || n == seq!['s', 't', 'r', 'i', 'k', 'e'] || n == seq![
        'd',
        'e',
        'l',
    ] {
        ElemKind::KStrike
    } else if n == seq!['s', 'p', 'a', 'n'] {
        ElemKind::KSpan
    } else if n == seq!['a'] {
        ElemKind::KAnchorElem
    } else {
        ElemKind::KOther
    }
}

/// Whether two short character sequences are equal, decided by length
/// and characters.
fn eq_lit1(v: &Vec<char>, c0: char) -> (r: bool)
    ensures
        r == (v@ == seq![c0]),
{
    let r = v.len() == 1 && v[0] == c0;
    proof {
        if r {
            assert(v@ =~= seq![c0]);
        } else {
            if v@ == seq![c0] {
                assert(v@.len() == 1 && v@[0] == c0);
            }
        }
    }
    r
}

fn eq_lit2(v: &Vec<char>, c0: char, c1: char) -> (r: bool)
    ensures
        r == (v@ == seq![c0, c1]),
{
    let r = v.len() == 2 && v[0] == c0 && v[1] == c1;
    proof {
        if r {
            assert(v@ =~= seq![c0, c1]);
        } else {
            if v@ == seq![c0, c1] {
                assert(v@.len() == 2 && v@[0] == c0 && v@[1] == c1);
            }
        }
    }
    r
}

fn eq_lit3(v: &Vec<char>, c0: char, c1: char, c2: char) -> (r: bool)
    ensures
        r == (v@ == seq![c0, c1, c2]),
{
    let r = v.len() == 3 && v[0] == c0 && v[1] == c1 && v[2] == c2;
    proof {
        if r {
            assert(v@ =~= seq![c0, c1, c2]);
        } else {
            if v@ == seq![c0, c1, c2] {
                assert(v@.len() == 3 && v@[0] == c0 && v@[1] == c1 && v@[2] == c2);
            }
        }
    }
    r
}

fn eq_lit4(v: &Vec<char>, c0: char, c1: char, c2: char, c3: char) -> (r: bool)
    ensures
        r == (v@ == seq![c0, c1, c2, c3]),
{
    let r = v.len() == 4 && v[0] == c0 && v[1] == c1 && v[2] == c2 && v[3] == c3;
    proof {
        if r {
            assert(v@ =~= seq![c0, c1, c2, c3]);
        } else {
            if v@ == seq![c0, c1, c2, c3] {
                assert(v@.len() == 4 && v@[0] == c0 && v@[1] == c1 && v@[2] == c2 && v@[3] == c3);
            }
        }
    }
    r
}

fn eq_lit5(v: &Vec<char>, c0: char, c1: char, c2: char, c3: char, c4: char) -> (r: bool)
    ensures
        r == (v@ == seq![c0, c1, c2, c3, c4]),
{
    let r = v.len() == 5 && v[0] == c0 && v[1] == c1 && v[2] == c2 && v[3] == c3 && v[4] == c4;
    proof {
        if r {
            assert(v@ =~= seq![c0, c1, c2, c3, c4]);
        } else {
            if v@ == seq![c0, c1, c2, c3, c4] {
                assert(v@.len() == 5 && v@[0] == c0 && v@[1] == c1 && v@[2] == c2 && v@[3] == c3
                    && v@[4] == c4);
            }
        }
    }
    r
}

fn eq_lit6(v: &Vec<char>, c0: char, c1: char, c2: char, c3: char, c4: char, c5: char) -> (r: bool)
    ensures
        r == (v@ == seq![c0, c1, c2, c3, c4, c5]),
{
    let r = v.len() == 6 && v[0] == c0 && v[1] == c1 && v[2] == c2 && v[3] == c3 && v[4] == c4
        && v[5] == c5;
    proof {
        if r {
            assert(v@ =~= seq![c0, c1, c2, c3, c4, c5]);
        } else {
            if v@ == seq![c0, c1, c2, c3, c4, c5] {
                assert(v@.len() == 6 && v@[0] == c0 && v@[1] == c1 && v@[2] == c2 && v@[3] == c3
                    && v@[4] == c4 && v@[5] == c5);
            }
        }
    }
    r
}

/// The element kind of a tag name.
pub fn elem_kind(v: &Vec<char>) -> (k: ElemKind)
    ensures
        k == elem_kind_of(v@),
{
    if eq_lit2(v, 'u', 'l') {
        ElemKind::KUl
    } else if eq_lit2(v, 'o', 'l') {
        ElemKind::KOl
    } else if eq_lit2(v, 'l', 'i') {
        ElemKind::KLi
    } else if eq_lit1(v, 'p') {
        ElemKind::KPara
    } else if eq_lit2(v, 'h', '1') {
        ElemKind::KH1
    } else if eq_lit2(v, 'h', '2') {
        ElemKind::KH2
    } else if eq_lit2(v, 'h', '3') {
        ElemKind::KH3
    } else if eq_lit2(v, 'h', '4') {
        ElemKind::KH4
    } else if eq_lit3(v, 'i', 'm', 'g') {
        ElemKind::KImg
    } else if eq_lit2(v, 'b', 'r') {
        ElemKind::KBr
    } else if eq_lit1(v, 'b') || eq_lit6(v, 's', 't', 'r', 'o', 'n', 'g') {
        ElemKind::KBold
    } else if eq_lit1(v, 'i') || eq_lit2(v, 'e', 'm') {
        ElemKind::KItalic
    } else if eq_lit1(v, 'u') {
        ElemKind::KUnderline
    } else if eq_lit1(v, 's') || eq_lit6(v, 's', 't', 'r', 'i', 'k', 'e') || eq_lit3(
        v,
        'd',
        'e',
        'l',
    ) {
        ElemKind::KStrike
    } else if eq_lit4(v, 's', 'p', 'a', 'n') {
        ElemKind::KSpan
    } else if eq_lit1(v, 'a') {
        ElemKind::KAnchorElem
    } else {
        ElemKind::KOther
    }
}

/// Whether a reference names a cross-document link: its target begins
/// with the reserved scheme.
pub open spec fn has_tangle_scheme(href: Seq<char>) -> bool {
    href.len() >= 9 && href.take(9) == seq!['t', 'a', 'n', 'g', 'l', 'e', ':', '/', '/']
}

fn has_tangle_scheme_exec(v: &Vec<char>) -> (r: bool)
    ensures
        r == has_tangle_scheme(v@),
{
    if v.len() < 9 {
        return false;
    }
    let r = v[0] == 't' && v[1] == 'a' && v[2] == 'n' && v[3] == 'g' && v[4] == 'l' && v[5] == 'e'
        && v[6] == ':' && v[7] == '/' && v[8] == '/';
    proof {
        if r {
            assert(v@.take(9) =~= seq!['t', 'a', 'n', 'g', 'l', 'e', ':', '/', '/']);
        } else {
            if has_tangle_scheme(v@) {
                assert(v@.take(9)[0] == v@[0] && v@.take(9)[1] == v@[1] && v@.take(9)[2] == v@[2]
                    && v@.take(9)[3] == v@[3] && v@.take(9)[4] == v@[4] && v@.take(9)[5] == v@[5]
                    && v@.take(9)[6] == v@[6] && v@.take(9)[7] == v@[7] && v@.take(9)[8] == v@[8]);
            }
        }
    }
    r
}

// ── The builder state ──────────────────────────────────────────────

/// The builder's whole state.
#[verifier::ext_equal]
pub struct BuildV {
    pub doc: DocV,
    pub stack: Seq<FrameV>,
    pub lists: Seq<ListCtx>,
    pub counters: Seq<usize>,
    pub need_nl: bool,
    pub in_block: bool,
}

impl BuildV {
    /// The builder only ever appends, so recorded frame starts stay
    /// inside the buffer.
    pub open spec fn wf(self) -> bool {
        &&& self.doc.wf()
        &&& forall|i: int|
            0 <= i < self.stack.len() ==> 0 <= #[trigger] self.stack[i].start
                <= self.doc.text.len()
    }
}

pub open spec fn build_init() -> BuildV {
    BuildV {
        doc: empty_doc(),
        stack: Seq::empty(),
        lists: Seq::empty(),
        counters: Seq::empty(),
        need_nl: false,
        in_block: false,
    }
}

/// Appending text at the buffer end.
pub open spec fn doc_append(d: DocV, s: Seq<char>) -> DocV {
    insert_text_spec(d, d.text.len() as int, s)
}

/// The topmost frame carrying the given name, if any.
pub open spec fn frame_rpos(stack: Seq<FrameV>, name: Seq<char>) -> Option<int>
    decreases stack.len(),
{
    if stack.len() == 0 {
        None
    } else if stack.last().name == name {
        Some(stack.len() - 1)
    } else {
        frame_rpos(stack.drop_last(), name)
    }
}

/// What closing a found frame does to the document.
pub open spec fn close_frame_doc(d: DocV, lists: Seq<ListCtx>, fr: FrameV, end: int) -> DocV {
    let kind = elem_kind_of(fr.name);
    match kind {
        ElemKind::KBold => apply_tag_spec(d, TagV::Bold, fr.start, end),
        ElemKind::KItalic => apply_tag_spec(d, TagV::Italic, fr.start, end),
        ElemKind::KUnderline => apply_tag_spec(d, TagV::Underline, fr.start, end),
        ElemKind::KStrike => apply_tag_spec(d, TagV::Strikethrough, fr.start, end),
        ElemKind::KH1 => apply_tag_spec(d, TagV::H1, fr.start, end),
        ElemKind::KH2 => apply_tag_spec(d, TagV::H2, fr.start, end),
        ElemKind::KH3 => apply_tag_spec(d, TagV::H3, fr.start, end),
        ElemKind::KH4 => apply_tag_spec(d, TagV::H4, fr.start, end),
        ElemKind::KLi => {
            let t = if lists.len() > 0 && lists.last() is Ol {
                TagV::NumberedList
            } else {
                TagV::BulletList
            };
            apply_tag_spec(d, t, line_begin(d.text, fr.start), end)
        },
        ElemKind::KSpan => {
            match attr_value(fr.attrs, seq!['s', 't', 'y', 'l', 'e']) {
                Some(sv) => match style_color_of(sv) {
                    Some(t) => apply_tag_spec(d, t, fr.start, end),
                    None => d,
                },
                None => d,
            }
        },
        ElemKind::KAnchorElem => {
            match attr_value(fr.attrs, seq!['h', 'r', 'e', 'f']) {
                Some(href) => {
                    let is_tangle = has_tangle_scheme(href) || attr_value(
                        fr.attrs,
                        seq!['c', 'l', 'a', 's', 's'],
                    ) == Some(seq!['t', 'a', 'n', 'g', 'l', 'e']);
                    let t = if is_tangle {
                        if has_tangle_scheme(href) {
                            TagV::TangleLink(href.skip(9))
                        } else {
                            TagV::TangleLink(href)
                        }
                    } else {
                        TagV::WebLink(href)
                    };
                    apply_tag_spec(d, t, fr.start, end)
                },
                None => d,
            }
        },
        _ => d,
    }
}

/// Whether the element kind is a recognized block element.
pub open spec fn is_block_kind(k: ElemKind) -> bool {
    k is KPara || k is KH1 || k is KH2 || k is KH3 || k is KH4 || k is KLi
}

/// One step of the builder.
pub open spec fn build_step(st: BuildV, tok: MarkTokenV, avail: Seq<Seq<char>>) -> BuildV {
    match tok {
        MarkTokenV::Open(name, attrs) => {
            let kind = elem_kind_of(name);
            match kind {
                ElemKind::KUl => BuildV { lists: st.lists.push(ListCtx::Ul), ..st },
                ElemKind::KOl => BuildV {
                    lists: st.lists.push(ListCtx::Ol),
                    counters: st.counters.push(0),
                    ..st
                },
                ElemKind::KLi => {
                    let d0 = if st.need_nl {
                        doc_append(st.doc, seq!['\n'])
                    } else {
                        st.doc
                    };
                    let with_list = if st.lists.len() > 0 && st.lists.last() is Ul {
                        BuildV {
                            doc: doc_append(d0, seq![' ', ' ', '\u{2022}', ' ']),
                            ..st
                        }
                    } else if st.lists.len() > 0 && st.lists.last() is Ol && st.counters.len()
                        > 0 {
                        let c = st.counters.last();
                        let nc: usize = if c == usize::MAX {
                            c
                        } else {
                            (c + 1) as usize
                        };
                        BuildV {
                            doc: doc_append(
                                d0,
                                seq![' ', ' '] + crate::chars::dec_seq(nc as nat) + seq![
                                    '.',
                                    ' ',
                                ],
                            ),
                            counters: st.counters.update(st.counters.len() - 1, nc),
                            ..st
                        }
                    } else {
                        BuildV { doc: d0, ..st }
                    };
                    let fr = FrameV {
                        name: name,
                        attrs: attrs,
                        start: with_list.doc.text.len() as int,
                    };
                    BuildV {
                        stack: with_list.stack.push(fr),
                        need_nl: true,
                        in_block: true,
                        ..with_list
                    }
                },
                ElemKind::KPara | ElemKind::KH1 | ElemKind::KH2 | ElemKind::KH3 | ElemKind::KH4 => {
                    let d0 = if st.need_nl {
                        doc_append(st.doc, seq!['\n'])
                    } else {
                        st.doc
                    };
                    let fr = FrameV { name: name, attrs: attrs, start: d0.text.len() as int };
                    BuildV { doc: d0, stack: st.stack.push(fr), need_nl: true, in_block: true, ..st }
                },
                ElemKind::KImg => {
                    let src = match attr_value(attrs, seq!['s', 'r', 'c']) {
                        Some(s) => s,
                        None => Seq::empty(),
                    };
                    let width = match attr_value(attrs, seq!['w', 'i', 'd', 't', 'h']) {
                        Some(w) => match crate::chars::parse_int_attr(w) {
                            Some(n) => n,
                            None => 300,
                        },
                        None => 300,
                    };
                    if src.len() > 0 && avail.contains(src) {
                        BuildV {
                            doc: insert_image_spec(st.doc, st.doc.text.len() as int, src, width),
                            ..st
                        }
                    } else {
                        st
                    }
                },
                ElemKind::KBr => BuildV { doc: doc_append(st.doc, seq!['\n']), ..st },
                _ => {
                    let fr = FrameV { name: name, attrs: attrs, start: st.doc.text.len() as int };
                    BuildV { stack: st.stack.push(fr), ..st }
                },
            }
        },
        MarkTokenV::Close(name) => {
            let kind = elem_kind_of(name);
            match kind {
                ElemKind::KUl => if st.lists.len() > 0 {
                    BuildV { lists: st.lists.drop_last(), ..st }
                } else {
                    st
                },
                ElemKind::KOl => {
                    let l1 = if st.lists.len() > 0 {
                        st.lists.drop_last()
                    } else {
                        st.lists
                    };
                    let c1 = if st.counters.len() > 0 {
                        st.counters.drop_last()
                    } else {
                        st.counters
                    };
                    BuildV { lists: l1, counters: c1, ..st }
                },
                _ => {
                    match frame_rpos(st.stack, name) {
                        Some(fi) => {
                            let fr = st.stack[fi];
                            let stack1 = st.stack.remove(fi);
                            let end = st.doc.text.len() as int;
                            let ib = if is_block_kind(kind) {
                                false
                            } else {
                                st.in_block
                            };
                            let d1 = if fr.start < end {
                                close_frame_doc(st.doc, st.lists, fr, end)
                            } else {
                                st.doc
                            };
                            BuildV { doc: d1, stack: stack1, in_block: ib, ..st }
                        },
                        None => st,
                    }
                },
            }
        },
        MarkTokenV::Text(t) => {
            if t.len() > 0 && !(!st.in_block && all_space(t)) {
                BuildV { doc: doc_append(st.doc, t), ..st }
            } else {
                st
            }
        },
    }
}

/// The state after all tokens.
pub open spec fn build_run(st: BuildV, toks: Seq<MarkTokenV>, avail: Seq<Seq<char>>) -> BuildV
    decreases toks.len(),
{
    if toks.len() == 0 {
        st
    } else {
        build_run(build_step(st, toks[0], avail), toks.skip(1), avail)
    }
}

/// What deserializing a markup text yields, given which referenced image
/// paths are available.
pub open spec fn deserialize_spec(s: Seq<char>, avail: Seq<Seq<char>>) -> DocV {
    build_run(build_init(), tokenize_spec(s), avail).doc
}

// ── The executable builder ─────────────────────────────────────────

fn name_src() -> (r: Vec<char>)
    ensures
        r@ == seq!['s', 'r', 'c'],
{
    let mut v: Vec<char> = Vec::new();
    v.push('s');
    v.push('r');
    v.push('c');
    proof {
        assert(v@ =~= seq!['s', 'r', 'c']);
    }
    v
}

fn name_width() -> (r: Vec<char>)
    ensures
        r@ == seq!['w', 'i', 'd', 't', 'h'],
{
    let mut v: Vec<char> = Vec::new();
    v.push('w');
    v.push('i');
    v.push('d');
    v.push('t');
    v.push('h');
    proof {
        assert(v@ =~= seq!['w', 'i', 'd', 't', 'h']);
    }
    v
}

fn name_style() -> (r: Vec<char>)
    ensures
        r@ == seq!['s', 't', 'y', 'l', 'e'],
{
    let mut v: Vec<char> = Vec::new();
    v.push('s');
    v.push('t');
    v.push('y');
    v.push('l');
    v.push('e');
    proof {
        assert(v@ =~= seq!['s', 't', 'y', 'l', 'e']);
    }
    v
}

fn name_href() -> (r: Vec<char>)
    ensures
        r@ == seq!['h', 'r', 'e', 'f'],
{
    let mut v: Vec<char> = Vec::new();
    v.push('h');
    v.push('r');
    v.push('e');
    v.push('f');
    proof {
        assert(v@ =~= seq!['h', 'r', 'e', 'f']);
    }
    v
}

fn name_class() -> (r: Vec<char>)
    ensures
        r@ == seq!['c', 'l', 'a', 's', 's'],
{
    let mut v: Vec<char> = Vec::new();
    v.push('c');
    v.push('l');
    v.push('a');
    v.push('s');
    v.push('s');
    proof {
        assert(v@ =~= seq!['c', 'l', 'a', 's', 's']);
    }
    v
}

/// Whether one of the available paths equals `s`.
fn contains_str(avail: &Vec<Vec<char>>, s: &Vec<char>) -> (r: bool)
    ensures
        r == view_strs(avail@).contains(s@),
{
    let mut i: usize = 0;
    while i < avail.len()
        invariant
            i <= avail@.len(),
            forall|j: int| 0 <= j < i ==> view_strs(avail@)[j] != s@,
        decreases avail@.len() - i,
    {
        if eq_chars(&avail[i], s) {
            proof {
                assert(view_strs(avail@)[i as int] == s@);
            }
            return true;
        }
        i += 1;
    }
    false
}

/// The executable builder.
pub struct Builder {
    doc: Document,
    stack: Vec<Frame>,
    lists: Vec<ListCtx>,
    counters: Vec<usize>,
    need_nl: bool,
    in_block: bool,
}

impl View for Builder {
    type V = BuildV;

    closed spec fn view(&self) -> BuildV {
        BuildV {
            doc: self.doc@,
            stack: view_frames(self.stack@),
            lists: self.lists@,
            counters: self.counters@,
            need_nl: self.need_nl,
            in_block: self.in_block,
        }
    }
}

impl Builder {
    fn new() -> (r: Builder)
        ensures
            r@ == build_init(),
            r@.wf(),
    {
        let r = Builder {
            doc: Document::new(),
            stack: Vec::new(),
            lists: Vec::new(),
            counters: Vec::new(),
            need_nl: false,
            in_block: false,
        };
        proof {
            assert(view_frames(r.stack@) =~= Seq::<FrameV>::empty());
            assert(r.lists@ =~= Seq::<ListCtx>::empty());
            assert(r.counters@ =~= Seq::<usize>::empty());
            assert(r@ =~= build_init());
        }
        r
    }

    /// Appends `s` at the buffer end.
    fn append_text(&mut self, s: &Vec<char>)
        requires
            old(self)@.wf(),
        ensures
            final(self)@ == (BuildV { doc: doc_append(old(self)@.doc, s@), ..old(self)@ }),
            final(self)@.wf(),
    {
        let dl = self.doc.len();
        self.doc.insert_text(dl, s);
        proof {
            assert(self@ =~= (BuildV { doc: doc_append(old(self)@.doc, s@), ..old(self)@ }));
            assert forall|i: int| 0 <= i < self@.stack.len() implies 0 <= #[trigger] self@.stack[i].start
                <= self@.doc.text.len() by {
                assert(self@.stack[i] == old(self)@.stack[i]);
            }
        }
    }

    /// One builder step.
    fn bstep(&mut self, tok: &MarkToken, avail: &Vec<Vec<char>>)
        requires
            old(self)@.wf(),
        ensures
            final(self)@ == build_step(old(self)@, tok@, view_strs(avail@)),
            final(self)@.wf(),
    {
        match tok {
            MarkToken::Open(name, attrs) => {
                let kind = elem_kind(name);
                match kind {
                    ElemKind::KUl => {
                        self.lists.push(ListCtx::Ul);
                        proof {
                            assert(self@ =~= build_step(old(self)@, tok@, view_strs(avail@)));
                        }
                    },
                    ElemKind::KOl => {
                        self.lists.push(ListCtx::Ol);
                        self.counters.push(0);
                        proof {
                            assert(self@ =~= build_step(old(self)@, tok@, view_strs(avail@)));
                        }
                    },
                    ElemKind::KLi => {
                        if self.need_nl {
                            let mut nl: Vec<char> = Vec::new();
                            nl.push('\n');
                            proof {
                                assert(nl@ =~= seq!['\n']);
                            }
                            self.append_text(&nl);
                        }
                        let ghost d0state = self@;
                        if self.lists.len() > 0 {
                            let is_ol = matches!(&self.lists[self.lists.len() - 1], ListCtx::Ol);
                            if !is_ol {
                                let mut bp: Vec<char> = Vec::new();
                                bp.push(' ');
                                bp.push(' ');
                                bp.push('\u{2022}');
                                bp.push(' ');
                                proof {
                                    assert(bp@ =~= seq![' ', ' ', '\u{2022}', ' ']);
                                }
                                self.append_text(&bp);
                            } else if self.counters.len() > 0 {
                                let ci = self.counters.len() - 1;
                                let c = self.counters[ci];
                                let nc: usize = if c == usize::MAX {
                                    c
                                } else {
                                    c + 1
                                };
                                self.counters[ci] = nc;
                                let mut np: Vec<char> = Vec::new();
                                np.push(' ');
                                np.push(' ');
                                let mut digs = crate::chars::usize_to_chars(nc);
                                np.append(&mut digs);
                                np.push('.');
                                np.push(' ');
                                proof {
                                    assert(np@ =~= seq![' ', ' '] + crate::chars::dec_seq(
                                        nc as nat,
                                    ) + seq!['.', ' ']);
                                }
                                self.append_text(&np);
                            }
                        }
                        let start = self.doc.len();
                        let fr = Frame {
                            name: dup_chars(name),
                            attrs: crate::tokenize::dup_attrs(attrs),
                            start,
                        };
                        self.stack.push(fr);
                        self.need_nl = true;
                        self.in_block = true;
                        proof {
                            assert(view_frames(self.stack@) =~= d0state.stack.push(
                                FrameV {
                                    name: name@,
                                    attrs: view_attrs(attrs@),
                                    start: start as int,
                                },
                            ));
                            assert(self@ =~= build_step(old(self)@, tok@, view_strs(avail@)));
                            assert forall|i: int|
                                0 <= i < self@.stack.len() implies 0 <= #[trigger] self@.stack[i].start
                                <= self@.doc.text.len() by {
                                if i < self@.stack.len() - 1 {
                                    assert(self@.stack[i] == d0state.stack[i]);
                                }
                            }
                        }
                    },
                    ElemKind::KPara | ElemKind::KH1 | ElemKind::KH2 | ElemKind::KH3
                        | ElemKind::KH4 => {
                        if self.need_nl {
                            let mut nl: Vec<char> = Vec::new();
                            nl.push('\n');
                            proof {
                                assert(nl@ =~= seq!['\n']);
                            }
                            self.append_text(&nl);
                        }
                        let ghost d0state = self@;
                        let start = self.doc.len();
                        let fr = Frame {
                            name: dup_chars(name),
                            attrs: crate::tokenize::dup_attrs(attrs),
                            start,
                        };
                        self.stack.push(fr);
                        self.need_nl = true;
                        self.in_block = true;
                        proof {
                            assert(view_frames(self.stack@) =~= d0state.stack.push(
                                FrameV {
                                    name: name@,
                                    attrs: view_attrs(attrs@),
                                    start: start as int,
                                },
                            ));
                            assert(self@ =~= build_step(old(self)@, tok@, view_strs(avail@)));
                            assert forall|i: int|
                                0 <= i < self@.stack.len() implies 0 <= #[trigger] self@.stack[i].start
                                <= self@.doc.text.len() by {
                                if i < self@.stack.len() - 1 {
                                    assert(self@.stack[i] == d0state.stack[i]);
                                }
                            }
                        }
                    },
                    ElemKind::KImg => {
                        let w: i32 = match find_attr(attrs, &name_width()) {
                            Some(wv) => match crate::chars::parse_int_attr_exec(&wv) {
                                Some(n) => n,
                                None => 300,
                            },
                            None => 300,
                        };
                        match find_attr(attrs, &name_src()) {
                            Some(s) => {
                                if s.len() > 0 && contains_str(avail, &s) {
                                    let dl = self.doc.len();
                                    self.doc.insert_image(dl, s, w);
                                    proof {
                                        assert forall|i: int|
                                            0 <= i < self@.stack.len() implies 0
                                            <= #[trigger] self@.stack[i].start
                                            <= self@.doc.text.len() by {
                                            assert(self@.stack[i] == old(self)@.stack[i]);
                                        }
                                    }
                                }
                            },
                            None => {
                            },
                        }
                        proof {
                            assert(self@ =~= build_step(old(self)@, tok@, view_strs(avail@)));
                        }
                    },
                    ElemKind::KBr => {
                        let mut nl: Vec<char> = Vec::new();
                        nl.push('\n');
                        proof {
                            assert(nl@ =~= seq!['\n']);
                        }
                        self.append_text(&nl);
                        proof {
                            assert(self@ =~= build_step(old(self)@, tok@, view_strs(avail@)));
                        }
                    },
                    _ => {
                        let start = self.doc.len();
                        let fr = Frame {
                            name: dup_chars(name),
                            attrs: crate::tokenize::dup_attrs(attrs),
                            start,
                        };
                        self.stack.push(fr);
                        proof {
                            assert(view_frames(self.stack@) =~= old(self)@.stack.push(
                                FrameV {
                                    name: name@,
                                    attrs: view_attrs(attrs@),
                                    start: start as int,
                                },
                            ));
                            assert(self@ =~= build_step(old(self)@, tok@, view_strs(avail@)));
                            assert forall|i: int|
                                0 <= i < self@.stack.len() implies 0 <= #[trigger] self@.stack[i].start
                                <= self@.doc.text.len() by {
                                if i < self@.stack.len() - 1 {
                                    assert(self@.stack[i] == old(self)@.stack[i]);
                                }
                            }
                        }
                    },
                }
            },
            MarkToken::Close(name) => {
                let kind = elem_kind(name);
                match kind {
                    ElemKind::KUl => {
                        if self.lists.len() > 0 {
                            self.lists.pop();
                            proof {
                                assert(self.lists@ =~= old(self)@.lists.drop_last());
                            }
                        }
                        proof {
                            assert(self@ =~= build_step(old(self)@, tok@, view_strs(avail@)));
                        }
                    },
                    ElemKind::KOl => {
                        if self.lists.len() > 0 {
                            self.lists.pop();
                            proof {
                                assert(self.lists@ =~= old(self)@.lists.drop_last());
                            }
                        }
                        if self.counters.len() > 0 {
                            self.counters.pop();
                            proof {
                                assert(self.counters@ =~= old(self)@.counters.drop_last());
                            }
                        }
                        proof {
                            assert(self@ =~= build_step(old(self)@, tok@, view_strs(avail@)));
                        }
                    },
                    _ => {
                        let mut j: usize = self.stack.len();
                        let mut found: Option<usize> = None;
                        proof {
                            assert(view_frames(self.stack@).take(j as int) =~= view_frames(
                                self.stack@,
                            ));
                        }
                        loop
                            invariant_except_break
                                j <= self.stack@.len(),
                                found is None,
                                frame_rpos(view_frames(self.stack@), name@) == frame_rpos(
                                    view_frames(self.stack@).take(j as int),
                                    name@,
                                ),
                            ensures
                                match found {
                                    Some(fi) => 0 <= fi < self.stack@.len() && frame_rpos(
                                        view_frames(self.stack@),
                                        name@,
                                    ) == Some(fi as int) && view_frames(self.stack@)[
                                        fi as int
                                    ].name == name@,
                                    None => frame_rpos(view_frames(self.stack@), name@) is None,
                                },
                            decreases j,
                        {
                            if j == 0 {
                                proof {
                                    assert(view_frames(self.stack@).take(0)
                                        =~= Seq::<FrameV>::empty());
                                }
                                break ;
                            }
                            let ghost pre = view_frames(self.stack@).take(j as int);
                            proof {
                                assert(pre.last() == view_frames(self.stack@)[j - 1]);
                                assert(pre.drop_last() =~= view_frames(self.stack@).take(j - 1));
                            }
                            if eq_chars(&self.stack[j - 1].name, name) {
                                found = Some(j - 1);
                                break ;
                            }
                            j -= 1;
                        }
                        match found {
                            Some(fi) => {
                                let ghost st0 = self@;
                                let fr = self.stack.remove(fi);
                                let end = self.doc.len();
                                if matches!(kind,
                                    ElemKind::KPara | ElemKind::KH1 | ElemKind::KH2
                                        | ElemKind::KH3 | ElemKind::KH4 | ElemKind::KLi) {
                                    self.in_block = false;
                                }
                                proof {
                                    assert(view_frames(self.stack@) =~= st0.stack.remove(fi as int));
                                    assert(fr@ == st0.stack[fi as int]);
                                    assert(fr.start <= end);
                                }
                                if fr.start < end {
                                    match kind {
                                        ElemKind::KBold => {
                                            self.doc.apply_tag(&Tag::Bold, fr.start, end);
                                        },
                                        ElemKind::KItalic => {
                                            self.doc.apply_tag(&Tag::Italic, fr.start, end);
                                        },
                                        ElemKind::KUnderline => {
                                            self.doc.apply_tag(&Tag::Underline, fr.start, end);
                                        },
                                        ElemKind::KStrike => {
                                            self.doc.apply_tag(&Tag::Strikethrough, fr.start, end);
                                        },
                                        ElemKind::KH1 => {
                                            self.doc.apply_tag(&Tag::H1, fr.start, end);
                                        },
                                        ElemKind::KH2 => {
                                            self.doc.apply_tag(&Tag::H2, fr.start, end);
                                        },
                                        ElemKind::KH3 => {
                                            self.doc.apply_tag(&Tag::H3, fr.start, end);
                                        },
                                        ElemKind::KH4 => {
                                            self.doc.apply_tag(&Tag::H4, fr.start, end);
                                        },
                                        ElemKind::KLi => {
                                            let t = if self.lists.len() > 0 && matches!(
                                                &self.lists[self.lists.len() - 1], ListCtx::Ol) {
                                                Tag::NumberedList
                                            } else {
                                                Tag::BulletList
                                            };
                                            let lb = self.doc.line_begin_at(fr.start);
                                            self.doc.apply_tag(&t, lb, end);
                                        },
                                        ElemKind::KSpan => {
                                            match find_attr(&fr.attrs, &name_style()) {
                                                Some(sv) => {
                                                    match crate::color::parse_style_color(&sv) {
                                                        Some(t) => {
                                                            self.doc.apply_tag(&t, fr.start, end);
                                                        },
                                                        None => {
                                                        },
                                                    }
                                                },
                                                None => {
                                                },
                                            }
                                        },
                                        ElemKind::KAnchorElem => {
                                            match find_attr(&fr.attrs, &name_href()) {
                                                Some(href) => {
                                                    let by_class = match find_attr(
                                                        &fr.attrs,
                                                        &name_class(),
                                                    ) {
                                                        Some(cv) => eq_lit6(
                                                            &cv,
                                                            't',
                                                            'a',
                                                            'n',
                                                            'g',
                                                            'l',
                                                            'e',
                                                        ),
                                                        None => false,
                                                    };
                                                    let scheme = has_tangle_scheme_exec(&href);
                                                    let t = if scheme {
                                                        Tag::TangleLink(
                                                            crate::tag::tail_from(&href, 9),
                                                        )
                                                    } else if by_class {
                                                        Tag::TangleLink(dup_chars(&href))
                                                    } else {
                                                        Tag::WebLink(dup_chars(&href))
                                                    };
                                                    self.doc.apply_tag(&t, fr.start, end);
                                                },
                                                None => {
                                                },
                                            }
                                        },
                                        _ => {
                                        },
                                    }
                                }
                                proof {
                                    assert forall|i: int|
                                        0 <= i < self@.stack.len() implies 0
                                        <= #[trigger] self@.stack[i].start
                                        <= self@.doc.text.len() by {
                                        if i < fi {
                                            assert(self@.stack[i] == st0.stack[i]);
                                        } else {
                                            assert(self@.stack[i] == st0.stack[i + 1]);
                                        }
                                    }
                                    assert(self@ =~= build_step(
                                        old(self)@,
                                        tok@,
                                        view_strs(avail@),
                                    ));
                                }
                            },
                            None => {
                                proof {
                                    assert(view_frames(self.stack@).take(0)
                                        =~= Seq::<FrameV>::empty());
                                    assert(self@ =~= build_step(
                                        old(self)@,
                                        tok@,
                                        view_strs(avail@),
                                    ));
                                }
                            },
                        }
                    },
                }
            },
            MarkToken::Text(t) => {
                if t.len() > 0 {
                    let ws = all_space_exec(t, 0, t.len());
                    proof {
                        assert(t@.subrange(0, t@.len() as int) =~= t@);
                    }
                    if !(!self.in_block && ws) {
                        self.append_text(t);
                    }
                }
                proof {
                    assert(self@ =~= build_step(old(self)@, tok@, view_strs(avail@)));
                }
            },
        }
    }
}

/// Hands the built document out.
fn builder_finish(b: Builder) -> (d: Document)
    ensures
        d@ == b@.doc,
{
    b.doc
}

/// Deserializes a markup text into a document.  `avail` lists the
/// referenced image paths that exist; an image whose path is absent is
/// silently dropped, as is every other unrecognizable construct — no
/// input is rejected.
pub fn deserialize(markup: &str, avail: &Vec<Vec<char>>) -> (d: Document)
    ensures
        d@ == deserialize_spec(markup@, view_strs(avail@)),
        d@.wf(),
{
    let chars = str_to_chars(markup);
    let toks = tokenize(&chars);
    let mut b = Builder::new();
    proof {
        assert(view_tokens(toks@).skip(0) =~= view_tokens(toks@));
    }
    let mut i: usize = 0;
    while i < toks.len()
        invariant
            i <= toks@.len(),
            b@.wf(),
            build_run(b@, view_tokens(toks@).skip(i as int), view_strs(avail@)) == build_run(
                build_init(),
                view_tokens(toks@),
                view_strs(avail@),
            ),
        decreases toks@.len() - i,
    {
        let ghost suf = view_tokens(toks@).skip(i as int);
        proof {
            assert(suf[0] == view_tokens(toks@)[i as int]);
            assert(suf.skip(1) =~= view_tokens(toks@).skip(i + 1));
        }
        b.bstep(&toks[i], avail);
        i += 1;
    }
    proof {
        assert(view_tokens(toks@).skip(toks@.len() as int) =~= Seq::<MarkTokenV>::empty());
    }
    builder_finish(b)
}

} // verus!
