//! The tagged-range text model.
//!
//! A document is a flat character buffer in which every position carries a
//! list of formatting tags, together with a side table of image anchors
//! keyed by buffer offset and the transient pending-tag set.  All offsets
//! are character counts.  Blocks are not stored: they are recomputed from
//! tag coverage per line at serialization time.

use vstd::prelude::*;
use crate::tag::{
    Tag,
    TagV,
    conflicts,
    conflicts_v,
    is_block,
    is_block_v,
    view_tags,
    view_marks,
    lemma_view_tags_props,
    lemma_view_marks_props,
};

verus! {

broadcast use lemma_view_tags_props, lemma_view_marks_props;

/// The placeholder character standing for an embedded object.
pub const OBJ_CHAR: char = '\u{FFFC}';

/// An embedded image: its buffer offset, filesystem path and target
/// display width.  The metadata lives in this side table, not in the
/// buffer, so the visual representation can be recreated from it at any
/// time.
pub struct Anchor {
    pub offset: usize,
    pub path: Vec<char>,
    pub width: i32,
}

pub struct AnchorV {
    pub offset: int,
    pub path: Seq<char>,
    pub width: int,
}

impl View for Anchor {
    type V = AnchorV;

    open spec fn view(&self) -> AnchorV {
        AnchorV { offset: self.offset as int, path: self.path@, width: self.width as int }
    }
}


/// The mathematical image of a document.
#[verifier::ext_equal]
pub struct DocV {
    pub text: Seq<char>,
    pub marks: Seq<Seq<TagV>>,
    pub anchors: Seq<AnchorV>,
    pub pending: Seq<TagV>,
}

impl DocV {
    /// One tag list per character, and every anchor inside the buffer.
    pub open spec fn wf(self) -> bool {
        &&& self.marks.len() == self.text.len()
        &&& forall|i: int|
            0 <= i < self.anchors.len() ==> 0 <= #[trigger] self.anchors[i].offset
                < self.text.len()
    }

    /// Whether position `p` carries tag `t`.
    pub open spec fn has_mark(self, p: int, t: TagV) -> bool {
        0 <= p < self.marks.len() && self.marks[p].contains(t)
    }

    /// Whether any position in `[a, b)` carries tag `t`.
    pub open spec fn has_mark_in(self, a: int, b: int, t: TagV) -> bool {
        exists|p: int| a <= p < b && self.has_mark(p, t)
    }
}

pub open spec fn empty_doc() -> DocV {
    DocV { text: Seq::empty(), marks: Seq::empty(), anchors: Seq::empty(), pending: Seq::empty() }
}

// ── Per-position tag-list operations ───────────────────────────────

/// The tags of `l` that do not conflict with `t`, in order.
pub open spec fn without_conflicts(l: Seq<TagV>, t: TagV) -> Seq<TagV>
    decreases l.len(),
{
    if l.len() == 0 {
        Seq::empty()
    } else {
        let rest = without_conflicts(l.drop_last(), t);
        if conflicts_v(l.last(), t) {
            rest
        } else {
            rest.push(l.last())
        }
    }
}

/// Applying `t` at a position: conflicting family members leave, then `t`
/// is appended.
pub open spec fn apply_at(l: Seq<TagV>, t: TagV) -> Seq<TagV> {
    without_conflicts(l, t).push(t)
}

/// Removing `t` at a position.
pub open spec fn remove_at(l: Seq<TagV>, t: TagV) -> Seq<TagV>
    decreases l.len(),
{
    if l.len() == 0 {
        Seq::empty()
    } else {
        let rest = remove_at(l.drop_last(), t);
        if l.last() == t {
            rest
        } else {
            rest.push(l.last())
        }
    }
}

/// The tags of `a` that also occur in `b`, in `a`'s order.
pub open spec fn inter_tags(a: Seq<TagV>, b: Seq<TagV>) -> Seq<TagV>
    decreases a.len(),
{
    if a.len() == 0 {
        Seq::empty()
    } else {
        let rest = inter_tags(a.drop_last(), b);
        if b.contains(a.last()) {
            rest.push(a.last())
        } else {
            rest
        }
    }
}

/// The inline (non-block) tags of `l`, in order.
pub open spec fn inline_only(l: Seq<TagV>) -> Seq<TagV>
    decreases l.len(),
{
    if l.len() == 0 {
        Seq::empty()
    } else {
        let rest = inline_only(l.drop_last());
        if is_block_v(l.last()) {
            rest
        } else {
            rest.push(l.last())
        }
    }
}

/// The bridging facts between membership in a list, in the list without
/// its last element, and in a pushed list; shared by the four filtering
/// lemmas below.
proof fn lemma_seq_last_cases(l: Seq<TagV>, rest: Seq<TagV>, u: TagV)
    requires
        l.len() > 0,
    ensures
        l.contains(u) <==> (l.drop_last().contains(u) || u == l.last()),
        rest.push(l.last()).contains(u) <==> (rest.contains(u) || u == l.last()),
{
    if l.contains(u) {
        let i = choose|i: int| 0 <= i < l.len() && l[i] == u;
        if i < l.len() - 1 {
            assert(l.drop_last()[i] == u);
        }
    }
    if l.drop_last().contains(u) {
        let i = choose|i: int| 0 <= i < l.drop_last().len() && l.drop_last()[i] == u;
        assert(l[i] == u);
    }
    assert(l[l.len() - 1] == l.last());
    if rest.push(l.last()).contains(u) {
        let i = choose|i: int| 0 <= i < rest.push(l.last()).len() && rest.push(l.last())[i] == u;
        if i < rest.len() {
            assert(rest[i] == u);
        }
    }
    if rest.contains(u) {
        let i = choose|i: int| 0 <= i < rest.len() && rest[i] == u;
        assert(rest.push(l.last())[i] == u);
    }
    assert(rest.push(l.last())[rest.len() as int] == l.last());
}

pub proof fn lemma_without_conflicts_contains(l: Seq<TagV>, t: TagV)
    ensures
        forall|u: TagV|
            #[trigger] without_conflicts(l, t).contains(u) <==> (l.contains(u) && !conflicts_v(
                u,
                t,
            )),
    decreases l.len(),
{
    if l.len() > 0 {
        lemma_without_conflicts_contains(l.drop_last(), t);
        let rest = without_conflicts(l.drop_last(), t);
        assert forall|u: TagV|
            #[trigger] without_conflicts(l, t).contains(u) <==> (l.contains(u) && !conflicts_v(
                u,
                t,
            )) by {
            lemma_seq_last_cases(l, rest, u);
        }
    }
}




/// What applying a tag leaves at a position: the tag itself, plus
/// whatever was there and does not conflict with it.
pub proof fn lemma_apply_at_contains(l: Seq<TagV>, t: TagV)
    ensures
        forall|u: TagV|
            #[trigger] apply_at(l, t).contains(u) <==> (u == t || (l.contains(u) && !conflicts_v(
                u,
                t,
            ))),
{
    lemma_without_conflicts_contains(l, t);
    let w = without_conflicts(l, t);
    assert forall|u: TagV|
        #[trigger] apply_at(l, t).contains(u) <==> (u == t || (l.contains(u) && !conflicts_v(u, t)))
        by {
        if w.push(t).contains(u) {
            let i = choose|i: int| 0 <= i < w.push(t).len() && w.push(t)[i] == u;
            if i < w.len() {
                assert(w[i] == u);
            }
        }
        if w.contains(u) {
            let i = choose|i: int| 0 <= i < w.len() && w[i] == u;
            assert(w.push(t)[i] == u);
        }
        assert(w.push(t)[w.len() as int] == t);
    }
}

/// A list with no conflicting member is unchanged by the family clear.
pub proof fn lemma_without_conflicts_id(l: Seq<TagV>, t: TagV)
    requires
        forall|i: int| 0 <= i < l.len() ==> !conflicts_v(#[trigger] l[i], t),
    ensures
        without_conflicts(l, t) == l,
    decreases l.len(),
{
    if l.len() > 0 {
        assert(forall|i: int| 0 <= i < l.drop_last().len() ==> l.drop_last()[i] == l[i]);
        lemma_without_conflicts_id(l.drop_last(), t);
        assert(without_conflicts(l, t) =~= l);
    }
}

/// A list that does not hold `t` is unchanged by removing `t`.
pub proof fn lemma_remove_at_id(l: Seq<TagV>, t: TagV)
    requires
        !l.contains(t),
    ensures
        remove_at(l, t) == l,
    decreases l.len(),
{
    if l.len() > 0 {
        assert(forall|i: int| 0 <= i < l.drop_last().len() ==> l.drop_last()[i] == l[i]);
        assert(!l.drop_last().contains(t));
        lemma_remove_at_id(l.drop_last(), t);
        assert(l[l.len() - 1] == l.last());
        assert(l.last() != t);
        assert(remove_at(l, t) =~= l);
    }
}

/// Removing a tag undoes pushing it.
pub proof fn lemma_remove_at_push(l: Seq<TagV>, t: TagV)
    ensures
        remove_at(l.push(t), t) == remove_at(l, t),
{
    assert(l.push(t).drop_last() =~= l);
    assert(l.push(t).last() == t);
}

/// Deleting the very characters an insertion made restores the anchor
/// table.
pub proof fn lemma_shift_delete_anchors(a: Seq<AnchorV>, at: int, k: int)
    requires
        k >= 0,
    ensures
        delete_anchors(shift_anchors(a, at, k), at, at + k) == a,
    decreases a.len(),
{
    if a.len() > 0 {
        lemma_shift_delete_anchors(a.drop_last(), at, k);
        let x = a.last();
        let sh = shift_anchors(a, at, k);
        if x.offset >= at {
            let xs = AnchorV { offset: x.offset + k, path: x.path, width: x.width };
            assert(sh == shift_anchors(a.drop_last(), at, k).push(xs));
            assert(sh.drop_last() =~= shift_anchors(a.drop_last(), at, k));
            assert(sh.last() == xs);
            assert(delete_anchors(sh, at, at + k) =~= a);
        } else {
            assert(sh == shift_anchors(a.drop_last(), at, k).push(x));
            assert(sh.drop_last() =~= shift_anchors(a.drop_last(), at, k));
            assert(sh.last() == x);
            assert(delete_anchors(sh, at, at + k) =~= a);
        }
    }
}

// ── Exec helpers on tag lists ──────────────────────────────────────

/// A copy of a character buffer.
pub fn dup_chars(v: &Vec<char>) -> (r: Vec<char>)
    ensures
        r@ == v@,
{
    let mut r: Vec<char> = Vec::new();
    let mut i: usize = 0;
    while i < v.len()
        invariant
            i <= v@.len(),
            r@ == v@.take(i as int),
        decreases v@.len() - i,
    {
        r.push(v[i]);
        proof {
            assert(r@ =~= v@.take(i + 1));
        }
        i += 1;
    }
    proof {
        assert(v@.take(v@.len() as int) =~= v@);
    }
    r
}

/// A copy of a tag.
pub fn dup_tag(t: &Tag) -> (r: Tag)
    ensures
        r@ == t@,
{
    match t {
        Tag::Bold => Tag::Bold,
        Tag::Italic => Tag::Italic,
        Tag::Underline => Tag::Underline,
        Tag::Strikethrough => Tag::Strikethrough,
        Tag::H1 => Tag::H1,
        Tag::H2 => Tag::H2,
        Tag::H3 => Tag::H3,
        Tag::H4 => Tag::H4,
        Tag::BulletList => Tag::BulletList,
        Tag::NumberedList => Tag::NumberedList,
        Tag::Foreground(c) => Tag::Foreground(dup_chars(c)),
        Tag::Background(c) => Tag::Background(dup_chars(c)),
        Tag::WebLink(u) => Tag::WebLink(dup_chars(u)),
        Tag::TangleLink(n) => Tag::TangleLink(dup_chars(n)),
        Tag::Plain(n) => Tag::Plain(dup_chars(n)),
    }
}

/// A copy of a tag list.
pub fn dup_tags(l: &Vec<Tag>) -> (r: Vec<Tag>)
    ensures
        view_tags(r@) == view_tags(l@),
{
    let mut r: Vec<Tag> = Vec::new();
    let mut i: usize = 0;
    while i < l.len()
        invariant
            i <= l@.len(),
            view_tags(r@) == view_tags(l@).take(i as int),
        decreases l@.len() - i,
    {
        r.push(dup_tag(&l[i]));
        proof {
            assert(view_tags(r@) =~= view_tags(l@).take(i + 1));
        }
        i += 1;
    }
    proof {
        assert(view_tags(l@).take(l@.len() as int) =~= view_tags(l@));
    }
    r
}

/// Whether the list carries the tag.
pub fn tags_contain(l: &Vec<Tag>, t: &Tag) -> (r: bool)
    ensures
        r == view_tags(l@).contains(t@),
{
    let mut i: usize = 0;
    while i < l.len()
        invariant
            i <= l@.len(),
            forall|j: int| 0 <= j < i ==> view_tags(l@)[j] != t@,
        decreases l@.len() - i,
    {
        if l[i].eq(t) {
            proof {
                assert(view_tags(l@)[i as int] == t@);
            }
            return true;
        }
        i += 1;
    }
    false
}

fn without_conflicts_exec(l: &Vec<Tag>, t: &Tag) -> (r: Vec<Tag>)
    ensures
        view_tags(r@) == without_conflicts(view_tags(l@), t@),
{
    let mut r: Vec<Tag> = Vec::new();
    let mut i: usize = 0;
    while i < l.len()
        invariant
            i <= l@.len(),
            view_tags(r@) == without_conflicts(view_tags(l@).take(i as int), t@),
        decreases l@.len() - i,
    {
        let ghost pre = view_tags(l@).take(i as int);
        let ghost post = view_tags(l@).take(i + 1);
        proof {
            assert(post.drop_last() =~= pre);
            assert(post.last() == l@[i as int]@);
        }
        if !conflicts(&l[i], t) {
            r.push(dup_tag(&l[i]));
            proof {
                assert(view_tags(r@) =~= without_conflicts(pre, t@).push(l@[i as int]@));
            }
        }
        i += 1;
    }
    proof {
        assert(view_tags(l@).take(l@.len() as int) =~= view_tags(l@));
    }
    r
}

fn remove_at_exec(l: &Vec<Tag>, t: &Tag) -> (r: Vec<Tag>)
    ensures
        view_tags(r@) == remove_at(view_tags(l@), t@),
{
    let mut r: Vec<Tag> = Vec::new();
    let mut i: usize = 0;
    while i < l.len()
        invariant
            i <= l@.len(),
            view_tags(r@) == remove_at(view_tags(l@).take(i as int), t@),
        decreases l@.len() - i,
    {
        let ghost pre = view_tags(l@).take(i as int);
        let ghost post = view_tags(l@).take(i + 1);
        proof {
            assert(post.drop_last() =~= pre);
            assert(post.last() == l@[i as int]@);
        }
        if !l[i].eq(t) {
            r.push(dup_tag(&l[i]));
            proof {
                assert(view_tags(r@) =~= remove_at(pre, t@).push(l@[i as int]@));
            }
        }
        i += 1;
    }
    proof {
        assert(view_tags(l@).take(l@.len() as int) =~= view_tags(l@));
    }
    r
}

fn inter_tags_exec(a: &Vec<Tag>, b: &Vec<Tag>) -> (r: Vec<Tag>)
    ensures
        view_tags(r@) == inter_tags(view_tags(a@), view_tags(b@)),
{
    let mut r: Vec<Tag> = Vec::new();
    let mut i: usize = 0;
    while i < a.len()
        invariant
            i <= a@.len(),
            view_tags(r@) == inter_tags(view_tags(a@).take(i as int), view_tags(b@)),
        decreases a@.len() - i,
    {
        let ghost pre = view_tags(a@).take(i as int);
        let ghost post = view_tags(a@).take(i + 1);
        proof {
            assert(post.drop_last() =~= pre);
            assert(post.last() == a@[i as int]@);
        }
        if tags_contain(b, &a[i]) {
            r.push(dup_tag(&a[i]));
            proof {
                assert(view_tags(r@) =~= inter_tags(pre, view_tags(b@)).push(a@[i as int]@));
            }
        }
        i += 1;
    }
    proof {
        assert(view_tags(a@).take(a@.len() as int) =~= view_tags(a@));
    }
    r
}

fn apply_at_exec(l: &Vec<Tag>, t: &Tag) -> (r: Vec<Tag>)
    ensures
        view_tags(r@) == apply_at(view_tags(l@), t@),
{
    let mut r = without_conflicts_exec(l, t);
    r.push(dup_tag(t));
    proof {
        assert(view_tags(r@) =~= apply_at(view_tags(l@), t@));
    }
    r
}

fn inline_only_exec(l: &Vec<Tag>) -> (r: Vec<Tag>)
    ensures
        view_tags(r@) == inline_only(view_tags(l@)),
{
    let mut r: Vec<Tag> = Vec::new();
    let mut i: usize = 0;
    while i < l.len()
        invariant
            i <= l@.len(),
            view_tags(r@) == inline_only(view_tags(l@).take(i as int)),
        decreases l@.len() - i,
    {
        let ghost pre = view_tags(l@).take(i as int);
        let ghost post = view_tags(l@).take(i + 1);
        proof {
            assert(post.drop_last() =~= pre);
            assert(post.last() == l@[i as int]@);
        }
        if !is_block(&l[i]) {
            r.push(dup_tag(&l[i]));
            proof {
                assert(view_tags(r@) =~= inline_only(pre).push(l@[i as int]@));
            }
        }
        i += 1;
    }
    proof {
        assert(view_tags(l@).take(l@.len() as int) =~= view_tags(l@));
    }
    r
}

// ── Document-level specification operations ────────────────────────

/// Applying `t` over `[a, b)`: at each covered position the conflicting
/// family members leave and `t` is appended; everything else is unchanged.
pub open spec fn apply_tag_spec(d: DocV, t: TagV, a: int, b: int) -> DocV {
    DocV {
        marks: Seq::new(
            d.marks.len(),
            |p: int|
                if a <= p < b {
                    apply_at(d.marks[p], t)
                } else {
                    d.marks[p]
                },
        ),
        ..d
    }
}

/// Removing `t` over `[a, b)`.
pub open spec fn remove_tag_spec(d: DocV, t: TagV, a: int, b: int) -> DocV {
    DocV {
        marks: Seq::new(
            d.marks.len(),
            |p: int|
                if a <= p < b {
                    remove_at(d.marks[p], t)
                } else {
                    d.marks[p]
                },
        ),
        ..d
    }
}

/// The tags inserted text takes over: those present on both neighbouring
/// characters of the insertion point, and none at the buffer edges.
pub open spec fn stretch_tags(d: DocV, at: int) -> Seq<TagV> {
    if 0 < at < d.text.len() {
        inter_tags(d.marks[at - 1], d.marks[at])
    } else {
        Seq::empty()
    }
}

/// Anchor offsets after an insertion of `k` characters at `at`.
pub open spec fn shift_anchors(a: Seq<AnchorV>, at: int, k: int) -> Seq<AnchorV>
    decreases a.len(),
{
    if a.len() == 0 {
        Seq::empty()
    } else {
        let rest = shift_anchors(a.drop_last(), at, k);
        let x = a.last();
        if x.offset >= at {
            rest.push(AnchorV { offset: x.offset + k, path: x.path, width: x.width })
        } else {
            rest.push(x)
        }
    }
}

/// Anchors after deleting `[x, y)`: anchors inside the range leave, later
/// ones move back.
pub open spec fn delete_anchors(a: Seq<AnchorV>, x: int, y: int) -> Seq<AnchorV>
    decreases a.len(),
{
    if a.len() == 0 {
        Seq::empty()
    } else {
        let rest = delete_anchors(a.drop_last(), x, y);
        let e = a.last();
        if x <= e.offset < y {
            rest
        } else if e.offset >= y {
            rest.push(AnchorV { offset: e.offset - (y - x), path: e.path, width: e.width })
        } else {
            rest.push(e)
        }
    }
}

/// Inserting `s` at `at`: the new characters take the tags present on both
/// sides of the insertion point, anchors at or past the point move right.
pub open spec fn insert_text_spec(d: DocV, at: int, s: Seq<char>) -> DocV {
    DocV {
        text: d.text.take(at) + s + d.text.skip(at),
        marks: d.marks.take(at) + Seq::new(s.len(), |i: int| stretch_tags(d, at)) + d.marks.skip(
            at,
        ),
        anchors: shift_anchors(d.anchors, at, s.len() as int),
        pending: d.pending,
    }
}

/// Deleting `[a, b)`.
pub open spec fn delete_range_spec(d: DocV, a: int, b: int) -> DocV {
    DocV {
        text: d.text.take(a) + d.text.skip(b),
        marks: d.marks.take(a) + d.marks.skip(b),
        anchors: delete_anchors(d.anchors, a, b),
        pending: d.pending,
    }
}

/// Inserting an embedded image: one placeholder character plus an anchor
/// entry keyed by its offset.
pub open spec fn insert_image_spec(d: DocV, at: int, path: Seq<char>, width: int) -> DocV {
    let d1 = insert_text_spec(d, at, seq![OBJ_CHAR]);
    DocV { anchors: d1.anchors.push(AnchorV { offset: at, path: path, width: width }), ..d1 }
}

/// Applying each tag of `ts` in turn over `[a, b)`.
pub open spec fn apply_tags_spec(d: DocV, ts: Seq<TagV>, a: int, b: int) -> DocV
    decreases ts.len(),
{
    if ts.len() == 0 {
        d
    } else {
        apply_tags_spec(apply_tag_spec(d, ts[0], a, b), ts.skip(1), a, b)
    }
}

/// Typing text at a position: the insertion, then every pending tag is
/// applied to the inserted range, and the pending set is cleared.
pub open spec fn type_text_spec(d: DocV, at: int, s: Seq<char>) -> DocV {
    let d1 = insert_text_spec(d, at, s);
    let d2 = apply_tags_spec(d1, d.pending, at, at + s.len());
    DocV { pending: Seq::empty(), ..d2 }
}

/// Removing every tag of `t`'s exclusive family over `[a, b)`.
pub open spec fn remove_conflicts_spec(d: DocV, t: TagV, a: int, b: int) -> DocV {
    DocV {
        marks: Seq::new(
            d.marks.len(),
            |p: int|
                if a <= p < b {
                    without_conflicts(d.marks[p], t)
                } else {
                    d.marks[p]
                },
        ),
        ..d
    }
}

/// Queueing `t` in the pending set, displacing its family conflicts there.
pub open spec fn queue_pending_spec(d: DocV, t: TagV) -> DocV {
    DocV { pending: apply_at(d.pending, t), ..d }
}

/// Emptying the pending set.
pub open spec fn clear_pending_spec(d: DocV) -> DocV {
    DocV { pending: Seq::empty(), ..d }
}

/// Toggling membership of `t` in the pending set.
pub open spec fn toggle_pending_spec(d: DocV, t: TagV) -> DocV {
    if d.pending.contains(t) {
        DocV { pending: remove_at(d.pending, t), ..d }
    } else {
        DocV { pending: d.pending.push(t), ..d }
    }
}

/// The anchor at a given offset, if any.
pub open spec fn anchor_lookup(a: Seq<AnchorV>, off: int) -> Option<AnchorV>
    decreases a.len(),
{
    if a.len() == 0 {
        None
    } else if a[0].offset == off {
        Some(a[0])
    } else {
        anchor_lookup(a.drop_first(), off)
    }
}

// ── Line structure ─────────────────────────────────────────────────

/// The number of line separators in `text`.
pub open spec fn nl_count(text: Seq<char>) -> int
    decreases text.len(),
{
    if text.len() == 0 {
        0
    } else {
        nl_count(text.drop_last()) + if text.last() == '\n' {
            1int
        } else {
            0int
        }
    }
}

/// Lines are the partition of the buffer at `'\n'` separators; a buffer
/// holds one more line than it holds separators, so a buffer ending in a
/// separator ends with an empty line.
pub open spec fn line_count_of(text: Seq<char>) -> int {
    nl_count(text) + 1
}

/// Whether `[a, b)` is exactly line `l` of `text`: `l` separators come
/// before it, a separator (or the buffer edge) borders it on both sides,
/// and it holds no separator itself.
pub open spec fn is_line_range(text: Seq<char>, l: int, a: int, b: int) -> bool {
    &&& 0 <= a <= b <= text.len()
    &&& nl_count(text.take(a)) == l
    &&& a == 0 || text[a - 1] == '\n'
    &&& forall|q: int| a <= q < b ==> text[q] != '\n'
    &&& b == text.len() || text[b] == '\n'
}

/// The start of the line containing offset `q`: the position after the
/// nearest separator at or before it.
pub open spec fn line_begin(text: Seq<char>, q: int) -> int
    decreases q,
{
    if q <= 0 {
        0
    } else if text[q - 1] == '\n' {
        q
    } else {
        line_begin(text, q - 1)
    }
}

pub proof fn lemma_nl_count_le(text: Seq<char>)
    ensures
        0 <= nl_count(text) <= text.len(),
    decreases text.len(),
{
    if text.len() > 0 {
        lemma_nl_count_le(text.drop_last());
    }
}

pub proof fn lemma_nl_count_concat(x: Seq<char>, y: Seq<char>)
    ensures
        nl_count(x + y) == nl_count(x) + nl_count(y),
    decreases y.len(),
{
    if y.len() == 0 {
        assert(x + y =~= x);
    } else {
        assert((x + y).drop_last() =~= x + y.drop_last());
        assert((x + y).last() == y.last());
        lemma_nl_count_concat(x, y.drop_last());
    }
}

pub proof fn lemma_nl_count_has(s: Seq<char>, i: int)
    requires
        0 <= i < s.len(),
        s[i] == '\n',
    ensures
        nl_count(s) >= 1,
    decreases s.len(),
{
    lemma_nl_count_le(s.drop_last());
    if i < s.len() - 1 {
        assert(s.drop_last()[i] == s[i]);
        lemma_nl_count_has(s.drop_last(), i);
    }
}

/// Separator counts of prefixes grow along the buffer, strictly across a
/// separator.
pub proof fn lemma_nl_count_mono(text: Seq<char>, a: int, c: int)
    requires
        0 <= a <= c <= text.len(),
    ensures
        nl_count(text.take(a)) <= nl_count(text.take(c)),
        (exists|p: int| a <= p < c && text[p] == '\n') ==> nl_count(text.take(a)) < nl_count(
            text.take(c),
        ),
{
    assert(text.take(c) =~= text.take(a) + text.subrange(a, c));
    lemma_nl_count_concat(text.take(a), text.subrange(a, c));
    lemma_nl_count_le(text.subrange(a, c));
    if exists|p: int| a <= p < c && text[p] == '\n' {
        let p = choose|p: int| a <= p < c && text[p] == '\n';
        assert(text.subrange(a, c)[p - a] == '\n');
        lemma_nl_count_has(text.subrange(a, c), p - a);
    }
}

/// A line index has exactly one character range.
pub proof fn lemma_line_range_unique(text: Seq<char>, l: int, a1: int, b1: int, a2: int, b2: int)
    requires
        is_line_range(text, l, a1, b1),
        is_line_range(text, l, a2, b2),
    ensures
        a1 == a2,
        b1 == b2,
{
    if a1 < a2 {
        assert(text[a2 - 1] == '\n');
        if a2 - 1 >= b1 {
            assert(b1 < text.len());
            assert(text[b1] == '\n');
            assert(a1 <= b1 < a2);
            lemma_nl_count_mono(text, a1, a2);
            assert(false);
        }
        assert(false);
    }
    if a2 < a1 {
        assert(text[a1 - 1] == '\n');
        if a1 - 1 >= b2 {
            assert(b2 < text.len());
            assert(text[b2] == '\n');
            assert(a2 <= b2 < a1);
            lemma_nl_count_mono(text, a2, a1);
            assert(false);
        }
        assert(false);
    }
    if b1 < b2 {
        assert(text[b1] != '\n');
        assert(false);
    }
    if b2 < b1 {
        assert(text[b2] != '\n');
        assert(false);
    }
}

/// An offset lies within its own line's range.
pub proof fn lemma_line_contains_offset(text: Seq<char>, cursor: int, a: int, b: int)
    requires
        0 <= cursor <= text.len(),
        is_line_range(text, nl_count(text.take(cursor)), a, b),
    ensures
        a <= cursor <= b,
{
    if cursor < a {
        assert(text[a - 1] == '\n');
        assert(cursor <= a - 1 < a);
        lemma_nl_count_mono(text, cursor, a);
        assert(false);
    }
    if cursor > b {
        assert(b < text.len());
        assert(text[b] == '\n');
        assert(a <= b < cursor);
        lemma_nl_count_mono(text, a, cursor);
        assert(false);
    }
}

// ── The document ───────────────────────────────────────────────────

/// A rich-text document: the flat character buffer, one tag list per
/// position, the anchor side table and the pending tag set.
pub struct Document {
    text: Vec<char>,
    marks: Vec<Vec<Tag>>,
    anchors: Vec<Anchor>,
    pending: Vec<Tag>,
}

/// The views of an anchor table.
pub open spec fn view_anchors(a: Seq<Anchor>) -> Seq<AnchorV> {
    a.map_values(|x: Anchor| x@)
}

pub proof fn lemma_view_anchors_props(a: Seq<Anchor>)
    ensures
        view_anchors(a).len() == a.len(),
        forall|i: int| 0 <= i < a.len() ==> #[trigger] view_anchors(a)[i] == a[i]@,
{
}

impl View for Document {
    type V = DocV;

    closed spec fn view(&self) -> DocV {
        DocV {
            text: self.text@,
            marks: view_marks(self.marks@),
            anchors: view_anchors(self.anchors@),
            pending: view_tags(self.pending@),
        }
    }
}

impl Document {
    /// A new, empty document.
    pub fn new() -> (d: Document)
        ensures
            d@ == empty_doc(),
            d@.wf(),
    {
        let d = Document { text: Vec::new(), marks: Vec::new(), anchors: Vec::new(), pending: Vec::new() };
        proof {
            assert(d@.text =~= empty_doc().text);
            assert(d@.marks =~= empty_doc().marks);
            assert(d@.anchors =~= empty_doc().anchors);
            assert(d@.pending =~= empty_doc().pending);
            assert(d@ =~= empty_doc());
        }
        d
    }

    /// The buffer length in characters.
    pub fn len(&self) -> (r: usize)
        ensures
            r == self@.text.len(),
    {
        self.text.len()
    }

    /// The character at a position.
    pub fn char_at(&self, p: usize) -> (c: char)
        requires
            p < self@.text.len(),
        ensures
            c == self@.text[p as int],
    {
        self.text[p]
    }

    /// A copy of the characters of `[a, b)`.
    pub fn text_range(&self, a: usize, b: usize) -> (r: Vec<char>)
        requires
            a <= b <= self@.text.len(),
        ensures
            r@ == self@.text.subrange(a as int, b as int),
    {
        let mut r: Vec<char> = Vec::new();
        let mut i: usize = a;
        while i < b
            invariant
                a <= i <= b <= self@.text.len(),
                r@ == self@.text.subrange(a as int, i as int),
            decreases b - i,
        {
            r.push(self.text[i]);
            proof {
                assert(r@ =~= self@.text.subrange(a as int, i + 1));
            }
            i += 1;
        }
        r
    }

    /// A copy of the whole buffer.
    pub fn text_all(&self) -> (r: Vec<char>)
        ensures
            r@ == self@.text,
    {
        let r = self.text_range(0, self.text.len());
        proof {
            assert(self@.text.subrange(0, self@.text.len() as int) =~= self@.text);
        }
        r
    }

    /// A copy of all tags at a position, in order.
    pub fn tags_at(&self, p: usize) -> (r: Vec<Tag>)
        requires
            self@.wf(),
            p < self@.text.len(),
        ensures
            view_tags(r@) == self@.marks[p as int],
    {
        dup_tags(&self.marks[p])
    }

    /// The inline (non-block) tags at a position, in order.
    pub fn inline_tags_at(&self, p: usize) -> (r: Vec<Tag>)
        requires
            self@.wf(),
            p < self@.text.len(),
        ensures
            view_tags(r@) == inline_only(self@.marks[p as int]),
    {
        inline_only_exec(&self.marks[p])
    }

    /// Whether any position of `[a, b)` carries `t`.
    pub fn has_tag_in_range(&self, t: &Tag, a: usize, b: usize) -> (r: bool)
        requires
            self@.wf(),
            a <= b <= self@.text.len(),
        ensures
            r == self@.has_mark_in(a as int, b as int, t@),
    {
        let mut p: usize = a;
        while p < b
            invariant
                a <= p <= b <= self@.text.len(),
                self@.wf(),
                forall|q: int| a <= q < p ==> !self@.has_mark(q, t@),
            decreases b - p,
        {
            if tags_contain(&self.marks[p], t) {
                proof {
                    assert(self@.has_mark(p as int, t@));
                }
                return true;
            }
            p += 1;
        }
        false
    }

    /// Applies `t` over `[a, b)`, clearing its exclusive family there
    /// first.
    pub fn apply_tag(&mut self, t: &Tag, a: usize, b: usize)
        requires
            old(self)@.wf(),
            a <= b <= old(self)@.text.len(),
        ensures
            final(self)@ == apply_tag_spec(old(self)@, t@, a as int, b as int),
            final(self)@.wf(),
    {
        let mut p: usize = a;
        while p < b
            invariant
                a <= p <= b <= old(self)@.text.len(),
                self@.text == old(self)@.text,
                self@.anchors == old(self)@.anchors,
                self@.pending == old(self)@.pending,
                self@.marks.len() == old(self)@.marks.len(),
                old(self)@.wf(),
                forall|q: int| a <= q < p ==> self@.marks[q] == apply_at(old(self)@.marks[q], t@),
                forall|q: int|
                    0 <= q < self@.marks.len() && !(a <= q < p) ==> self@.marks[q] == old(
                        self,
                    )@.marks[q],
            decreases b - p,
        {
            let ghost prevraw = self.marks@;
            let ghost prevm = self@.marks;
            let nl = apply_at_exec(&self.marks[p], t);
            self.marks[p] = nl;
            proof {
                assert forall|q: int| 0 <= q < prevm.len() implies self@.marks[q] == (if q == p {
                    apply_at(prevm[p as int], t@)
                } else {
                    prevm[q]
                }) by {
                    assert(view_marks(prevraw)[q] == view_tags(prevraw[q]@));
                    assert(self@.marks[q] == view_tags(self.marks@[q]@));
                    if q == p {
                        assert(self.marks@[q] == nl);
                    } else {
                        assert(self.marks@[q] == prevraw[q]);
                    }
                }
            }
            p += 1;
        }
        proof {
            assert(self@.marks =~= apply_tag_spec(old(self)@, t@, a as int, b as int).marks);
            assert(self@ =~= apply_tag_spec(old(self)@, t@, a as int, b as int));
        }
    }

    /// Removes `t` over `[a, b)`.
    pub fn remove_tag(&mut self, t: &Tag, a: usize, b: usize)
        requires
            old(self)@.wf(),
            a <= b <= old(self)@.text.len(),
        ensures
            final(self)@ == remove_tag_spec(old(self)@, t@, a as int, b as int),
            final(self)@.wf(),
    {
        let mut p: usize = a;
        while p < b
            invariant
                a <= p <= b <= old(self)@.text.len(),
                self@.text == old(self)@.text,
                self@.anchors == old(self)@.anchors,
                self@.pending == old(self)@.pending,
                self@.marks.len() == old(self)@.marks.len(),
                old(self)@.wf(),
                forall|q: int| a <= q < p ==> self@.marks[q] == remove_at(old(self)@.marks[q], t@),
                forall|q: int|
                    0 <= q < self@.marks.len() && !(a <= q < p) ==> self@.marks[q] == old(
                        self,
                    )@.marks[q],
            decreases b - p,
        {
            let ghost prevraw = self.marks@;
            let ghost prevm = self@.marks;
            let nl = remove_at_exec(&self.marks[p], t);
            self.marks[p] = nl;
            proof {
                assert forall|q: int| 0 <= q < prevm.len() implies self@.marks[q] == (if q == p {
                    remove_at(prevm[p as int], t@)
                } else {
                    prevm[q]
                }) by {
                    assert(view_marks(prevraw)[q] == view_tags(prevraw[q]@));
                    assert(self@.marks[q] == view_tags(self.marks@[q]@));
                    if q == p {
                        assert(self.marks@[q] == nl);
                    } else {
                        assert(self.marks@[q] == prevraw[q]);
                    }
                }
            }
            p += 1;
        }
        proof {
            assert(self@.marks =~= remove_tag_spec(old(self)@, t@, a as int, b as int).marks);
            assert(self@ =~= remove_tag_spec(old(self)@, t@, a as int, b as int));
        }
    }
}

/// Appends `src[from..to]` to `dst`.
fn push_chars_range(dst: &mut Vec<char>, src: &Vec<char>, from: usize, to: usize)
    requires
        from <= to <= src@.len(),
    ensures
        final(dst)@ == old(dst)@ + src@.subrange(from as int, to as int),
{
    let mut i: usize = from;
    while i < to
        invariant
            from <= i <= to <= src@.len(),
            dst@ == old(dst)@ + src@.subrange(from as int, i as int),
        decreases to - i,
    {
        dst.push(src[i]);
        proof {
            assert(dst@ =~= old(dst)@ + src@.subrange(from as int, i + 1));
        }
        i += 1;
    }
    proof {
        assert(dst@ =~= old(dst)@ + src@.subrange(from as int, to as int));
    }
}

/// Appends copies of `src[from..to]` to `dst`.
fn push_marks_range(dst: &mut Vec<Vec<Tag>>, src: &Vec<Vec<Tag>>, from: usize, to: usize)
    requires
        from <= to <= src@.len(),
    ensures
        view_marks(final(dst)@) == view_marks(old(dst)@) + view_marks(src@).subrange(
            from as int,
            to as int,
        ),
{
    proof {
        assert(view_marks(dst@) =~= view_marks(old(dst)@) + view_marks(src@).subrange(
            from as int,
            from as int,
        ));
    }
    let mut i: usize = from;
    while i < to
        invariant
            from <= i <= to <= src@.len(),
            view_marks(dst@) == view_marks(old(dst)@) + view_marks(src@).subrange(
                from as int,
                i as int,
            ),
        decreases to - i,
    {
        let copy = dup_tags(&src[i]);
        let ghost prevdst = dst@;
        dst.push(copy);
        proof {
            let vsrc = view_marks(src@);
            assert forall|q: int| 0 <= q < dst@.len() implies #[trigger] view_marks(dst@)[q] == (
            view_marks(old(dst)@) + vsrc.subrange(from as int, i + 1))[q] by {
                assert(view_marks(dst@)[q] == view_tags(dst@[q]@));
                if q < prevdst.len() {
                    assert(dst@[q] == prevdst[q]);
                    assert(view_marks(prevdst)[q] == view_tags(prevdst[q]@));
                } else {
                    assert(dst@[q] == copy);
                    assert(vsrc[i as int] == view_tags(src@[i as int]@));
                }
            }
            assert(view_marks(dst@) =~= view_marks(old(dst)@) + vsrc.subrange(from as int, i + 1));
        }
        i += 1;
    }
}

/// Whether two tag lists are equal, element for element.
pub fn tags_eq(a: &Vec<Tag>, b: &Vec<Tag>) -> (r: bool)
    ensures
        r == (view_tags(a@) == view_tags(b@)),
{
    if a.len() != b.len() {
        return false;
    }
    let mut i: usize = 0;
    while i < a.len()
        invariant
            i <= a@.len(),
            a@.len() == b@.len(),
            forall|j: int| 0 <= j < i ==> view_tags(a@)[j] == view_tags(b@)[j],
        decreases a@.len() - i,
    {
        if !a[i].eq(&b[i]) {
            proof {
                assert(view_tags(a@)[i as int] != view_tags(b@)[i as int]);
            }
            return false;
        }
        i += 1;
    }
    proof {
        assert(view_tags(a@) =~= view_tags(b@));
    }
    true
}

impl Document {
    /// Inserts `s` at position `at`.  The inserted characters take over
    /// the tags present on both sides of the insertion point; anchors at
    /// or past the point move right by the inserted length.
    pub fn insert_text(&mut self, at: usize, s: &Vec<char>)
        requires
            old(self)@.wf(),
            at <= old(self)@.text.len(),
        ensures
            final(self)@ == insert_text_spec(old(self)@, at as int, s@),
            final(self)@.wf(),
    {
        let len = self.text.len();
        proof {
            assert(self@.marks.len() == self.marks@.len());
        }
        let stretch: Vec<Tag> = if 0 < at && at < len {
            inter_tags_exec(&self.marks[at - 1], &self.marks[at])
        } else {
            Vec::new()
        };
        proof {
            if !(0 < at && at < len) {
                assert(view_tags(stretch@) =~= stretch_tags(self@, at as int));
            }
            assert(view_tags(stretch@) == stretch_tags(self@, at as int));
        }
        let mut ntext: Vec<char> = Vec::new();
        push_chars_range(&mut ntext, &self.text, 0, at);
        push_chars_range(&mut ntext, s, 0, s.len());
        push_chars_range(&mut ntext, &self.text, at, len);
        proof {
            assert(s@.subrange(0, s@.len() as int) =~= s@);
            assert(ntext@ =~= self@.text.take(at as int) + s@ + self@.text.skip(at as int));
        }
        let mut nmarks: Vec<Vec<Tag>> = Vec::new();
        push_marks_range(&mut nmarks, &self.marks, 0, at);
        proof {
            assert(view_marks(nmarks@) =~= view_marks(self.marks@).subrange(0, at as int)
                + Seq::new(0, |j: int| view_tags(stretch@)));
        }
        let k = s.len();
        let mut i: usize = 0;
        while i < k
            invariant
                i <= k,
                view_marks(nmarks@) == view_marks(self.marks@).subrange(0, at as int) + Seq::new(
                    i as nat,
                    |j: int| view_tags(stretch@),
                ),
        decreases k - i,
        {
            let copy = dup_tags(&stretch);
            let ghost prevdst = nmarks@;
            nmarks.push(copy);
            proof {
                let pre = view_marks(self.marks@).subrange(0, at as int);
                assert forall|q: int| 0 <= q < nmarks@.len() implies #[trigger] view_marks(
                    nmarks@,
                )[q] == (pre + Seq::new((i + 1) as nat, |j: int| view_tags(stretch@)))[q] by {
                    assert(view_marks(nmarks@)[q] == view_tags(nmarks@[q]@));
                    if q < prevdst.len() {
                        assert(nmarks@[q] == prevdst[q]);
                        assert(view_marks(prevdst)[q] == view_tags(prevdst[q]@));
                    } else {
                        assert(nmarks@[q] == copy);
                    }
                }
                assert(view_marks(nmarks@) =~= pre + Seq::new(
                    (i + 1) as nat,
                    |j: int| view_tags(stretch@),
                ));
            }
            i += 1;
        }
        push_marks_range(&mut nmarks, &self.marks, at, len);
        let mut nanch: Vec<Anchor> = Vec::new();
        let ntl = ntext.len();
        let mut j: usize = 0;
        while j < self.anchors.len()
            invariant
                j <= self.anchors@.len(),
                self@.wf(),
                at <= self@.text.len(),
                ntl == self@.text.len() + k,
                view_anchors(nanch@) == shift_anchors(
                    view_anchors(self.anchors@).take(j as int),
                    at as int,
                    k as int,
                ),
                forall|q: int|
                    0 <= q < nanch@.len() ==> #[trigger] nanch@[q]@.offset < ntl,
            decreases self.anchors@.len() - j,
        {
            proof {
                lemma_view_anchors_props(self.anchors@);
            }
            let off = self.anchors[j].offset;
            proof {
                assert(self@.anchors[j as int].offset == off);
                assert(off < self@.text.len());
            }
            let noff: usize = if off >= at {
                off + k
            } else {
                off
            };
            let npath = dup_chars(&self.anchors[j].path);
            let w = self.anchors[j].width;
            nanch.push(Anchor { offset: noff, path: npath, width: w });
            proof {
                let pre = view_anchors(self.anchors@).take(j as int);
                let post = view_anchors(self.anchors@).take(j + 1);
                assert(post.drop_last() =~= pre);
                assert(post.last() == self@.anchors[j as int]);
                lemma_view_anchors_props(nanch@);
                assert(view_anchors(nanch@) =~= shift_anchors(post, at as int, k as int));
            }
            j += 1;
        }
        proof {
            assert(view_anchors(self.anchors@).take(self.anchors@.len() as int) =~= view_anchors(
                self.anchors@,
            ));
        }
        let ghost oldv = self@;
        self.text = ntext;
        self.marks = nmarks;
        self.anchors = nanch;
        proof {
            let spec = insert_text_spec(oldv, at as int, s@);
            assert(self@.marks =~= spec.marks);
            assert(self@ =~= spec);
            assert forall|q: int| 0 <= q < self@.anchors.len() implies 0 <= #[trigger] self@
                .anchors[q].offset < self@.text.len() by {
                lemma_view_anchors_props(self.anchors@);
                assert(self@.anchors[q] == self.anchors@[q]@);
            }
        }
    }

    /// Deletes the characters of `[a, b)`.  Anchors inside the range
    /// leave; later ones move back.
    pub fn delete_range(&mut self, a: usize, b: usize)
        requires
            old(self)@.wf(),
            a <= b <= old(self)@.text.len(),
        ensures
            final(self)@ == delete_range_spec(old(self)@, a as int, b as int),
            final(self)@.wf(),
    {
        let len = self.text.len();
        proof {
            assert(self@.marks.len() == self.marks@.len());
        }
        let mut ntext: Vec<char> = Vec::new();
        push_chars_range(&mut ntext, &self.text, 0, a);
        push_chars_range(&mut ntext, &self.text, b, len);
        proof {
            assert(ntext@ =~= self@.text.take(a as int) + self@.text.skip(b as int));
        }
        let mut nmarks: Vec<Vec<Tag>> = Vec::new();
        push_marks_range(&mut nmarks, &self.marks, 0, a);
        push_marks_range(&mut nmarks, &self.marks, b, len);
        let gap = b - a;
        let mut nanch: Vec<Anchor> = Vec::new();
        let ntl = ntext.len();
        let mut j: usize = 0;
        while j < self.anchors.len()
            invariant
                j <= self.anchors@.len(),
                self@.wf(),
                a <= b <= self@.text.len(),
                gap == b - a,
                ntl == self@.text.len() - gap,
                view_anchors(nanch@) == delete_anchors(
                    view_anchors(self.anchors@).take(j as int),
                    a as int,
                    b as int,
                ),
                forall|q: int|
                    0 <= q < nanch@.len() ==> #[trigger] nanch@[q]@.offset < ntl,
            decreases self.anchors@.len() - j,
        {
            proof {
                lemma_view_anchors_props(self.anchors@);
                assert(self@.anchors[j as int] == self.anchors@[j as int]@);
            }
            let off = self.anchors[j].offset;
            let ghost pre = view_anchors(self.anchors@).take(j as int);
            let ghost post = view_anchors(self.anchors@).take(j + 1);
            proof {
                assert(post.drop_last() =~= pre);
                assert(post.last() == self@.anchors[j as int]);
            }
            if off < a || off >= b {
                let noff: usize = if off >= b {
                    off - gap
                } else {
                    off
                };
                let npath = dup_chars(&self.anchors[j].path);
                let w = self.anchors[j].width;
                nanch.push(Anchor { offset: noff, path: npath, width: w });
                proof {
                    lemma_view_anchors_props(nanch@);
                    assert(view_anchors(nanch@) =~= delete_anchors(post, a as int, b as int));
                }
            } else {
                proof {
                    assert(view_anchors(nanch@) =~= delete_anchors(post, a as int, b as int));
                }
            }
            j += 1;
        }
        proof {
            assert(view_anchors(self.anchors@).take(self.anchors@.len() as int) =~= view_anchors(
                self.anchors@,
            ));
        }
        let ghost oldv = self@;
        self.text = ntext;
        self.marks = nmarks;
        self.anchors = nanch;
        proof {
            let spec = delete_range_spec(oldv, a as int, b as int);
            assert(self@.marks =~= spec.marks);
            assert(self@ =~= spec);
            assert forall|q: int| 0 <= q < self@.anchors.len() implies 0 <= #[trigger] self@
                .anchors[q].offset < self@.text.len() by {
                lemma_view_anchors_props(self.anchors@);
                assert(self@.anchors[q] == self.anchors@[q]@);
            }
        }
    }

    /// Inserts an embedded image at `at`: one placeholder character in the
    /// buffer plus an anchor entry keyed by that offset.
    pub fn insert_image(&mut self, at: usize, path: Vec<char>, width: i32)
        requires
            old(self)@.wf(),
            at <= old(self)@.text.len(),
        ensures
            final(self)@ == insert_image_spec(old(self)@, at as int, path@, width as int),
            final(self)@.wf(),
    {
        let mut obj: Vec<char> = Vec::new();
        obj.push(OBJ_CHAR);
        proof {
            assert(obj@ =~= seq![OBJ_CHAR]);
        }
        self.insert_text(at, &obj);
        let ghost mid = self@;
        self.anchors.push(Anchor { offset: at, path, width });
        proof {
            lemma_view_anchors_props(self.anchors@);
            assert(self@.anchors =~= mid.anchors.push(
                AnchorV { offset: at as int, path: path@, width: width as int },
            ));
            assert(self@ =~= insert_image_spec(old(self)@, at as int, path@, width as int));
        }
    }

    /// Removes every tag of `t`'s exclusive family over `[a, b)`.
    pub fn remove_conflicts(&mut self, t: &Tag, a: usize, b: usize)
        requires
            old(self)@.wf(),
            a <= b <= old(self)@.text.len(),
        ensures
            final(self)@ == remove_conflicts_spec(old(self)@, t@, a as int, b as int),
            final(self)@.wf(),
    {
        let mut p: usize = a;
        while p < b
            invariant
                a <= p <= b <= old(self)@.text.len(),
                self@.text == old(self)@.text,
                self@.anchors == old(self)@.anchors,
                self@.pending == old(self)@.pending,
                self@.marks.len() == old(self)@.marks.len(),
                old(self)@.wf(),
                forall|q: int|
                    a <= q < p ==> self@.marks[q] == without_conflicts(old(self)@.marks[q], t@),
                forall|q: int|
                    0 <= q < self@.marks.len() && !(a <= q < p) ==> self@.marks[q] == old(
                        self,
                    )@.marks[q],
            decreases b - p,
        {
            let ghost prevraw = self.marks@;
            let ghost prevm = self@.marks;
            let nl = without_conflicts_exec(&self.marks[p], t);
            self.marks[p] = nl;
            proof {
                assert forall|q: int| 0 <= q < prevm.len() implies self@.marks[q] == (if q == p {
                    without_conflicts(prevm[p as int], t@)
                } else {
                    prevm[q]
                }) by {
                    assert(view_marks(prevraw)[q] == view_tags(prevraw[q]@));
                    assert(self@.marks[q] == view_tags(self.marks@[q]@));
                    if q == p {
                        assert(self.marks@[q] == nl);
                    } else {
                        assert(self.marks@[q] == prevraw[q]);
                    }
                }
            }
            p += 1;
        }
        proof {
            assert(self@.marks =~= remove_conflicts_spec(old(self)@, t@, a as int, b as int).marks);
            assert(self@ =~= remove_conflicts_spec(old(self)@, t@, a as int, b as int));
        }
    }

    /// Queues `t` for the next typed characters, displacing any pending
    /// tags of its exclusive family.
    pub fn queue_pending(&mut self, t: &Tag)
        requires
            old(self)@.wf(),
        ensures
            final(self)@ == queue_pending_spec(old(self)@, t@),
            final(self)@.wf(),
    {
        let np = apply_at_exec(&self.pending, t);
        self.pending = np;
        proof {
            assert(self@.anchors == old(self)@.anchors);
            assert(self@.marks == old(self)@.marks);
            assert(self@.text == old(self)@.text);
        }
    }

    /// Toggles membership of `t` in the pending set: tags queued for the
    /// next typed characters while no selection exists.
    pub fn toggle_pending(&mut self, t: &Tag)
        requires
            old(self)@.wf(),
        ensures
            final(self)@ == toggle_pending_spec(old(self)@, t@),
            final(self)@.wf(),
    {
        if tags_contain(&self.pending, t) {
            let np = remove_at_exec(&self.pending, t);
            self.pending = np;
        } else {
            self.pending.push(dup_tag(t));
            proof {
                assert(view_tags(self.pending@) =~= old(self)@.pending.push(t@));
            }
        }
    }

    /// Empties the pending set; the host calls this whenever the cursor
    /// moves without an intervening insert.
    pub fn clear_pending(&mut self)
        requires
            old(self)@.wf(),
        ensures
            final(self)@ == clear_pending_spec(old(self)@),
            final(self)@.wf(),
    {
        self.pending.clear();
        proof {
            assert(view_tags(self.pending@) =~= Seq::<TagV>::empty());
        }
    }

    /// A copy of the pending tag set.
    pub fn pending_tags(&self) -> (r: Vec<Tag>)
        ensures
            view_tags(r@) == self@.pending,
    {
        dup_tags(&self.pending)
    }

    /// Types `s` at `at`: the insertion, then every pending tag is applied
    /// to the new characters, and the pending set is cleared.
    pub fn type_text(&mut self, at: usize, s: &Vec<char>)
        requires
            old(self)@.wf(),
            at <= old(self)@.text.len(),
        ensures
            final(self)@ == type_text_spec(old(self)@, at as int, s@),
            final(self)@.wf(),
    {
        let pend = dup_tags(&self.pending);
        self.insert_text(at, s);
        let ghost d1 = self@;
        let cur = self.len();
        proof {
            assert(at + s@.len() <= cur);
            assert(view_tags(pend@).skip(0) =~= view_tags(pend@));
        }
        let end = at + s.len();
        let mut i: usize = 0;
        while i < pend.len()
            invariant
                i <= pend@.len(),
                self@.wf(),
                end == at + s@.len(),
                end <= self@.text.len(),
                apply_tags_spec(d1, view_tags(pend@), at as int, end as int) == apply_tags_spec(
                    self@,
                    view_tags(pend@).skip(i as int),
                    at as int,
                    end as int,
                ),
            decreases pend@.len() - i,
        {
            let ghost before = self@;
            let ghost rem = view_tags(pend@).skip(i as int);
            self.apply_tag(&pend[i], at, end);
            proof {
                assert(rem[0] == view_tags(pend@)[i as int]);
                assert(rem.skip(1) =~= view_tags(pend@).skip(i + 1));
            }
            i += 1;
        }
        proof {
            assert(view_tags(pend@).skip(pend@.len() as int) =~= Seq::<TagV>::empty());
        }
        self.pending.clear();
        proof {
            assert(view_tags(self.pending@) =~= Seq::<TagV>::empty());
            assert(self@ =~= type_text_spec(old(self)@, at as int, s@));
        }
    }

    /// The anchor whose offset is `off`, if one exists.
    pub fn anchor_at(&self, off: usize) -> (r: Option<Anchor>)
        ensures
            match r {
                Some(x) => anchor_lookup(self@.anchors, off as int) == Some(x@),
                None => anchor_lookup(self@.anchors, off as int) is None,
            },
    {
        proof {
            assert(self@.anchors.skip(0) =~= self@.anchors);
        }
        let mut i: usize = 0;
        while i < self.anchors.len()
            invariant
                i <= self.anchors@.len(),
                anchor_lookup(self@.anchors, off as int) == anchor_lookup(
                    self@.anchors.skip(i as int),
                    off as int,
                ),
            decreases self.anchors@.len() - i,
        {
            proof {
                lemma_view_anchors_props(self.anchors@);
                assert(self@.anchors.skip(i as int)[0] == self@.anchors[i as int]);
                assert(self@.anchors.skip(i as int).drop_first() =~= self@.anchors.skip(i + 1));
            }
            if self.anchors[i].offset == off {
                let x = &self.anchors[i];
                let r = Anchor { offset: x.offset, path: dup_chars(&x.path), width: x.width };
                return Some(r);
            }
            i += 1;
        }
        proof {
            assert(self@.anchors.skip(self.anchors@.len() as int) =~= Seq::<AnchorV>::empty());
        }
        None
    }

    /// The number of lines in the buffer.
    pub fn line_count(&self) -> (r: usize)
        requires
            self@.text.len() < usize::MAX,
        ensures
            r == line_count_of(self@.text),
    {
        let n = self.nl_total();
        proof {
            lemma_nl_count_le(self@.text);
        }
        n + 1
    }

    /// The number of line separators in the buffer.
    pub fn nl_total(&self) -> (r: usize)
        ensures
            r == nl_count(self@.text),
    {
        let mut cnt: usize = 0;
        let mut i: usize = 0;
        while i < self.text.len()
            invariant
                i <= self@.text.len(),
                cnt == nl_count(self@.text.take(i as int)),
                cnt <= i,
            decreases self@.text.len() - i,
        {
            let ghost pre = self@.text.take(i as int);
            let ghost post = self@.text.take(i + 1);
            proof {
                assert(post.drop_last() =~= pre);
                assert(post.last() == self@.text[i as int]);
            }
            if self.text[i] == '\n' {
                cnt += 1;
            }
            i += 1;
        }
        proof {
            assert(self@.text.take(self@.text.len() as int) =~= self@.text);
        }
        cnt
    }

    /// The line index that contains offset `off` (an offset equal to the
    /// buffer length counts into the final line).
    pub fn line_of_offset(&self, off: usize) -> (r: usize)
        requires
            off <= self@.text.len(),
        ensures
            r == nl_count(self@.text.take(off as int)),
    {
        let mut cnt: usize = 0;
        let mut i: usize = 0;
        while i < off
            invariant
                i <= off <= self@.text.len(),
                cnt == nl_count(self@.text.take(i as int)),
                cnt <= i,
            decreases off - i,
        {
            let ghost pre = self@.text.take(i as int);
            let ghost post = self@.text.take(i + 1);
            proof {
                assert(post.drop_last() =~= pre);
                assert(post.last() == self@.text[i as int]);
            }
            if self.text[i] == '\n' {
                cnt += 1;
            }
            i += 1;
        }
        cnt
    }

    /// The start of the line containing offset `q`.
    pub fn line_begin_at(&self, q: usize) -> (r: usize)
        requires
            q <= self@.text.len(),
        ensures
            r == line_begin(self@.text, q as int),
            r <= q,
    {
        let mut j: usize = q;
        while j > 0 && self.text[j - 1] != '\n'
            invariant
                0 <= j <= q <= self@.text.len(),
                line_begin(self@.text, q as int) == line_begin(self@.text, j as int),
            decreases j,
        {
            j -= 1;
        }
        proof {
            if j > 0 {
                assert(line_begin(self@.text, j as int) == j);
            }
        }
        j
    }

    /// The character range `[start, end)` of line `l`: its text without
    /// the separator that closes it.
    pub fn line_range(&self, l: usize) -> (r: (usize, usize))
        requires
            l < line_count_of(self@.text),
        ensures
            is_line_range(self@.text, l as int, r.0 as int, r.1 as int),
    {
        let len = self.text.len();
        let mut start: usize = 0;
        if l > 0 {
            let mut cnt: usize = 0;
            let mut i: usize = 0;
            while i < len && cnt < l
                invariant
                    i <= len == self@.text.len(),
                    cnt == nl_count(self@.text.take(i as int)),
                    cnt <= l,
                    l < line_count_of(self@.text),
                    (cnt == l && l > 0) ==> (i > 0 && self@.text[i - 1] == '\n'),
                decreases len - i,
            {
                let ghost pre = self@.text.take(i as int);
                let ghost post = self@.text.take(i + 1);
                proof {
                    assert(post.drop_last() =~= pre);
                    assert(post.last() == self@.text[i as int]);
                }
                if self.text[i] == '\n' {
                    cnt += 1;
                }
                i += 1;
            }
            proof {
                if i == len && cnt < l {
                    assert(self@.text.take(len as int) =~= self@.text);
                    assert(false);
                }
            }
            start = i;
        }
        let mut end: usize = start;
        while end < len && self.text[end] != '\n'
            invariant
                start <= end <= len == self@.text.len(),
                forall|q: int| start <= q < end ==> self@.text[q] != '\n',
            decreases len - end,
        {
            end += 1;
        }
        proof {
            assert(self@.text.take(0) =~= Seq::<char>::empty());
        }
        (start, end)
    }
}

} // verus!
