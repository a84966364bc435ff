//! The title scanner: given a snapshot of the document's plain text, its
//! own title and the set of all known note titles, it finds the places
//! where another note's title occurs as a whole word.  Matches are
//! computed off the editing thread by the host and applied back on it.
//!
//! Titles are tried longest first (ties keep their given order), so a
//! longer title is never shadowed by a shorter one sharing a prefix.  A
//! match needs a word boundary — a non-alphanumeric character or the
//! buffer edge — on both sides, and one title's own matches never
//! overlap: the sweep resumes past each accepted occurrence.

use vstd::prelude::*;
use crate::chars::{
    is_alnum,
    alnum,
    eq_chars,
    chars_match_at,
    view_strs,
    lemma_view_strs_props,
};
use crate::doc::{Document, DocV, dup_chars, apply_tag_spec};
use crate::tag::{Tag, TagV, view_tags};

verus! {

broadcast use lemma_view_strs_props;

/// One discovered occurrence: the character offset and the title found
/// there.
pub struct TitleMatch {
    pub offset: usize,
    pub title: Vec<char>,
}

pub struct TitleMatchV {
    pub offset: int,
    pub title: Seq<char>,
}

impl View for TitleMatch {
    type V = TitleMatchV;

    open spec fn view(&self) -> TitleMatchV {
        TitleMatchV { offset: self.offset as int, title: self.title@ }
    }
}

/// The views of a list of matches.
pub open spec fn view_matches(l: Seq<TitleMatch>) -> Seq<TitleMatchV> {
    l.map_values(|m: TitleMatch| m@)
}

pub proof fn lemma_view_matches_props(l: Seq<TitleMatch>)
    ensures
        view_matches(l).len() == l.len(),
        forall|i: int| 0 <= i < l.len() ==> #[trigger] view_matches(l)[i] == l[i]@,
{
}

// ── Ordering titles longest-first ──────────────────────────────────

/// Inserting a title into a longest-first list, after every title at
/// least as long (so equal lengths keep their original order).
pub open spec fn insert_desc(sorted: Seq<Seq<char>>, x: Seq<char>) -> Seq<Seq<char>>
    decreases sorted.len(),
{
    if sorted.len() == 0 {
        seq![x]
    } else if sorted[0].len() >= x.len() {
        seq![sorted[0]] + insert_desc(sorted.drop_first(), x)
    } else {
        seq![x] + sorted
    }
}

/// The titles ordered longest first, ties in given order.
pub open spec fn sort_desc(ts: Seq<Seq<char>>) -> Seq<Seq<char>>
    decreases ts.len(),
{
    if ts.len() == 0 {
        Seq::empty()
    } else {
        insert_desc(sort_desc(ts.drop_last()), ts.last())
    }
}

proof fn lemma_insert_desc_at(s: Seq<Seq<char>>, x: Seq<char>, j: int)
    requires
        0 <= j <= s.len(),
        forall|q: int| 0 <= q < j ==> #[trigger] s[q].len() >= x.len(),
        j == s.len() || s[j].len() < x.len(),
    ensures
        insert_desc(s, x) == s.insert(j, x),
    decreases s.len(),
{
    if s.len() == 0 {
        assert(insert_desc(s, x) =~= s.insert(0, x));
    } else if s[0].len() >= x.len() {
        assert(j != 0);
        assert(forall|q: int|
            0 <= q < j - 1 ==> #[trigger] s.drop_first()[q].len() == s[q + 1].len());
        lemma_insert_desc_at(s.drop_first(), x, j - 1);
        assert(seq![s[0]] + s.drop_first().insert(j - 1, x) =~= s.insert(j, x));
    } else {
        assert(j == 0);
        assert(seq![x] + s =~= s.insert(0, x));
    }
}

/// A copy of `titles`, ordered longest first with ties in given order.
pub fn sort_titles(titles: &Vec<Vec<char>>) -> (r: Vec<Vec<char>>)
    ensures
        view_strs(r@) == sort_desc(view_strs(titles@)),
{
    let mut r: Vec<Vec<char>> = Vec::new();
    proof {
        assert(view_strs(r@) =~= sort_desc(view_strs(titles@).take(0)));
    }
    let mut i: usize = 0;
    while i < titles.len()
        invariant
            i <= titles@.len(),
            view_strs(r@) == sort_desc(view_strs(titles@).take(i as int)),
        decreases titles@.len() - i,
    {
        let x = dup_chars(&titles[i]);
        let mut j: usize = 0;
        while j < r.len() && r[j].len() >= x.len()
            invariant
                j <= r@.len(),
                x@ == titles@[i as int]@,
                forall|q: int| 0 <= q < j ==> #[trigger] view_strs(r@)[q].len() >= x@.len(),
            decreases r@.len() - j,
        {
            j += 1;
        }
        let ghost pre = view_strs(r@);
        proof {
            lemma_insert_desc_at(pre, x@, j as int);
        }
        r.insert(j, x);
        proof {
            assert(view_strs(r@) =~= pre.insert(j as int, titles@[i as int]@));
            let tv = view_strs(titles@);
            assert(tv.take(i + 1).drop_last() =~= tv.take(i as int));
            assert(tv.take(i + 1).last() == tv[i as int]);
        }
        i += 1;
    }
    proof {
        assert(view_strs(titles@).take(titles@.len() as int) =~= view_strs(titles@));
    }
    r
}

// ── The sweep ──────────────────────────────────────────────────────

/// The reserved placeholder title that is never linked.
pub open spec fn new_note_title() -> Seq<char> {
    seq!['N', 'e', 'w', ' ', 'N', 'o', 't', 'e']
}

/// Whether a title is left out of the scan: the document's own title,
/// the empty title, and the placeholder title of freshly created notes.
pub open spec fn skip_title(own: Seq<char>, title: Seq<char>) -> bool {
    title == own || title.len() == 0 || title == new_note_title()
}

/// One title's sweep over the text from position `i`: at each occurrence
/// of the title the word boundaries decide whether it is a match, and the
/// sweep resumes past the occurrence either way; otherwise it advances by
/// one character.
pub open spec fn sweep(text: Seq<char>, title: Seq<char>, i: int) -> Seq<TitleMatchV>
    decreases text.len() - i,
{
    if title.len() == 0 || i < 0 || i + title.len() > text.len() {
        Seq::empty()
    } else if text.subrange(i, i + title.len()) == title {
        let before_ok = i == 0 || !is_alnum(text[i - 1]);
        let after_ok = i + title.len() == text.len() || !is_alnum(text[i + title.len()]);
        let rest = sweep(text, title, i + title.len());
        if before_ok && after_ok {
            seq![TitleMatchV { offset: i, title: title }] + rest
        } else {
            rest
        }
    } else {
        sweep(text, title, i + 1)
    }
}

/// All matches: each non-skipped title's sweep, in longest-first title
/// order.
pub open spec fn scan_all(text: Seq<char>, own: Seq<char>, sorted: Seq<Seq<char>>) -> Seq<
    TitleMatchV,
>
    decreases sorted.len(),
{
    if sorted.len() == 0 {
        Seq::empty()
    } else {
        let first = if skip_title(own, sorted[0]) {
            Seq::empty()
        } else {
            sweep(text, sorted[0], 0)
        };
        first + scan_all(text, own, sorted.drop_first())
    }
}

/// What the scanner returns on a given snapshot.
pub open spec fn scan_spec(text: Seq<char>, own: Seq<char>, titles: Seq<Seq<char>>) -> Seq<
    TitleMatchV,
> {
    scan_all(text, own, sort_desc(titles))
}

/// Whether `v` is the reserved placeholder title.
fn is_new_note_title(v: &Vec<char>) -> (r: bool)
    ensures
        r == (v@ == new_note_title()),
{
    if v.len() != 8 {
        return false;
    }
    let r = v[0] == 'N' && v[1] == 'e' && v[2] == 'w' && v[3] == ' ' && v[4] == 'N' && v[5] == 'o'
        && v[6] == 't' && v[7] == 'e';
    proof {
        if r {
            assert(v@ =~= new_note_title());
        } else {
            if v@ == new_note_title() {
                assert(v@[0] == 'N' && v@[1] == 'e' && v@[2] == 'w' && v@[3] == ' ' && v@[4] == 'N'
                    && v@[5] == 'o' && v@[6] == 't' && v@[7] == 'e');
            }
        }
    }
    r
}

/// Scans the text snapshot for whole-word occurrences of known titles.
pub fn scan_titles(text: &Vec<char>, own: &Vec<char>, titles: &Vec<Vec<char>>) -> (ms: Vec<
    TitleMatch,
>)
    ensures
        view_matches(ms@) == scan_spec(text@, own@, view_strs(titles@)),
{
    let sorted = sort_titles(titles);
    let mut ms: Vec<TitleMatch> = Vec::new();
    proof {
        lemma_view_matches_props(ms@);
        assert(view_matches(ms@) =~= Seq::<TitleMatchV>::empty());
        assert(view_strs(sorted@).skip(0) =~= view_strs(sorted@));
    }
    let mut oi: usize = 0;
    while oi < sorted.len()
        invariant
            oi <= sorted@.len(),
            view_strs(sorted@) == sort_desc(view_strs(titles@)),
            view_matches(ms@) + scan_all(text@, own@, view_strs(sorted@).skip(oi as int))
                == scan_all(text@, own@, view_strs(sorted@)),
        decreases sorted@.len() - oi,
    {
        let ghost sufs = view_strs(sorted@).skip(oi as int);
        proof {
            assert(sufs[0] == view_strs(sorted@)[oi as int]);
            assert(sufs.drop_first() =~= view_strs(sorted@).skip(oi + 1));
        }
        let title = &sorted[oi];
        let tlen = title.len();
        let skip_this = tlen == 0 || eq_chars(title, own) || is_new_note_title(title);
        if !skip_this && tlen <= text.len() {
            let ghost t = title@;
            let mut i: usize = 0;
            let ghost base = view_matches(ms@);
            while i <= text.len() - tlen
                invariant
                    0 <= i,
                    i <= text@.len(),
                    tlen == t.len(),
                    t == title@,
                    0 < tlen <= text@.len(),
                    base + sweep(text@, t, 0) == view_matches(ms@) + sweep(text@, t, i as int),
                decreases text@.len() - i,
            {
                if chars_match_at(text, i, title) {
                    let before_ok = i == 0 || !alnum(text[i - 1]);
                    let after_ok = i + tlen == text.len() || !alnum(text[i + tlen]);
                    if before_ok && after_ok {
                        let ghost prev = view_matches(ms@);
                        ms.push(TitleMatch { offset: i, title: dup_chars(title) });
                        proof {
                            lemma_view_matches_props(ms@);
                            assert(view_matches(ms@) =~= prev + seq![
                                TitleMatchV { offset: i as int, title: t },
                            ]);
                            assert(prev + (seq![TitleMatchV { offset: i as int, title: t }]
                                + sweep(text@, t, i + tlen)) =~= view_matches(ms@) + sweep(
                                text@,
                                t,
                                i + tlen,
                            ));
                            assert(prev + sweep(text@, t, i as int) =~= (prev + (seq![
                                TitleMatchV { offset: i as int, title: t },
                            ] + sweep(text@, t, i + tlen))));
                        }
                    }
                    i += tlen;
                } else {
                    i += 1;
                }
            }
            proof {
                assert(sweep(text@, t, i as int) =~= Seq::<TitleMatchV>::empty());
                assert(view_matches(ms@) =~= base + sweep(text@, t, 0));
                assert(view_matches(ms@) + scan_all(text@, own@, sufs.drop_first()) =~= scan_all(
                    text@,
                    own@,
                    view_strs(sorted@),
                ));
            }
        } else {
            proof {
                if !skip_title(own@, sufs[0]) {
                    assert(tlen > text@.len());
                    assert(sweep(text@, title@, 0) =~= Seq::<TitleMatchV>::empty());
                }
                assert(view_matches(ms@) + scan_all(text@, own@, sufs.drop_first()) =~= scan_all(
                    text@,
                    own@,
                    view_strs(sorted@),
                ));
            }
        }
        oi += 1;
    }
    proof {
        assert(view_strs(sorted@).skip(sorted@.len() as int) =~= Seq::<Seq<char>>::empty());
        assert(view_matches(ms@) =~= scan_all(text@, own@, view_strs(sorted@)));
    }
    ms
}

// ── Soundness of reported matches ──────────────────────────────────

/// What is true of every reported match: the title really occurs at the
/// offset, a word boundary sits on both sides, and the skipped titles
/// never appear.
pub open spec fn match_sound(text: Seq<char>, own: Seq<char>, m: TitleMatchV) -> bool {
    &&& 0 <= m.offset
    &&& m.offset + m.title.len() <= text.len()
    &&& m.title.len() > 0
    &&& text.subrange(m.offset, m.offset + m.title.len()) == m.title
    &&& m.offset == 0 || !is_alnum(text[m.offset - 1])
    &&& m.offset + m.title.len() == text.len() || !is_alnum(text[m.offset + m.title.len()])
    &&& m.title != own
    &&& m.title != new_note_title()
}

proof fn lemma_sweep_sound(text: Seq<char>, title: Seq<char>, i: int, own: Seq<char>)
    requires
        title != own,
        title != new_note_title(),
        title.len() > 0,
    ensures
        forall|j: int|
            0 <= j < sweep(text, title, i).len() ==> match_sound(
                text,
                own,
                #[trigger] sweep(text, title, i)[j],
            ),
    decreases text.len() - i,
{
    if title.len() == 0 || i < 0 || i + title.len() > text.len() {
    } else if text.subrange(i, i + title.len()) == title {
        lemma_sweep_sound(text, title, i + title.len(), own);
        let rest = sweep(text, title, i + title.len());
        let before_ok = i == 0 || !is_alnum(text[i - 1]);
        let after_ok = i + title.len() == text.len() || !is_alnum(text[i + title.len()]);
        let m = TitleMatchV { offset: i, title: title };
        assert forall|j: int| 0 <= j < sweep(text, title, i).len() implies match_sound(
            text,
            own,
            #[trigger] sweep(text, title, i)[j],
        ) by {
            if before_ok && after_ok {
                if j == 0 {
                    assert(sweep(text, title, i)[0] == m);
                } else {
                    assert(sweep(text, title, i)[j] == rest[j - 1]);
                }
            } else {
                assert(sweep(text, title, i)[j] == rest[j]);
            }
        }
    } else {
        lemma_sweep_sound(text, title, i + 1, own);
        assert forall|j: int| 0 <= j < sweep(text, title, i).len() implies match_sound(
            text,
            own,
            #[trigger] sweep(text, title, i)[j],
        ) by {
            assert(sweep(text, title, i)[j] == sweep(text, title, i + 1)[j]);
        }
    }
}

proof fn lemma_scan_all_sound(text: Seq<char>, own: Seq<char>, sorted: Seq<Seq<char>>)
    ensures
        forall|j: int|
            0 <= j < scan_all(text, own, sorted).len() ==> match_sound(
                text,
                own,
                #[trigger] scan_all(text, own, sorted)[j],
            ),
    decreases sorted.len(),
{
    if sorted.len() > 0 {
        lemma_scan_all_sound(text, own, sorted.drop_first());
        let first = if skip_title(own, sorted[0]) {
            Seq::<TitleMatchV>::empty()
        } else {
            sweep(text, sorted[0], 0)
        };
        let rest = scan_all(text, own, sorted.drop_first());
        if !skip_title(own, sorted[0]) {
            lemma_sweep_sound(text, sorted[0], 0, own);
        }
        assert forall|j: int| 0 <= j < scan_all(text, own, sorted).len() implies match_sound(
            text,
            own,
            #[trigger] scan_all(text, own, sorted)[j],
        ) by {
            if j < first.len() {
                assert(scan_all(text, own, sorted)[j] == first[j]);
            } else {
                assert(scan_all(text, own, sorted)[j] == rest[j - first.len()]);
            }
        }
    }
}

/// Every match the scanner reports is sound: the named title occurs at
/// the offset with word boundaries on both sides, and is neither the
/// document's own title, nor empty, nor the reserved placeholder.
pub proof fn lemma_scan_sound(text: Seq<char>, own: Seq<char>, titles: Seq<Seq<char>>)
    ensures
        forall|j: int|
            0 <= j < scan_spec(text, own, titles).len() ==> match_sound(
                text,
                own,
                #[trigger] scan_spec(text, own, titles)[j],
            ),
{
    lemma_scan_all_sound(text, own, sort_desc(titles));
}

proof fn lemma_sweep_offsets_ge(text: Seq<char>, title: Seq<char>, i: int)
    ensures
        forall|j: int|
            0 <= j < sweep(text, title, i).len() ==> (#[trigger] sweep(text, title, i)[j]).offset
                >= i,
    decreases text.len() - i,
{
    if title.len() == 0 || i < 0 || i + title.len() > text.len() {
    } else if text.subrange(i, i + title.len()) == title {
        lemma_sweep_offsets_ge(text, title, i + title.len());
        let rest = sweep(text, title, i + title.len());
        let before_ok = i == 0 || !is_alnum(text[i - 1]);
        let after_ok = i + title.len() == text.len() || !is_alnum(text[i + title.len()]);
        assert forall|j: int| 0 <= j < sweep(text, title, i).len() implies (#[trigger] sweep(
            text,
            title,
            i,
        )[j]).offset >= i by {
            if before_ok && after_ok {
                if j > 0 {
                    assert(sweep(text, title, i)[j] == rest[j - 1]);
                }
            } else {
                assert(sweep(text, title, i)[j] == rest[j]);
            }
        }
    } else {
        lemma_sweep_offsets_ge(text, title, i + 1);
        assert forall|j: int| 0 <= j < sweep(text, title, i).len() implies (#[trigger] sweep(
            text,
            title,
            i,
        )[j]).offset >= i by {
            assert(sweep(text, title, i)[j] == sweep(text, title, i + 1)[j]);
        }
    }
}

/// One title's own matches never overlap: after an accepted occurrence
/// the sweep resumes past its full length, so successive offsets are at
/// least a title length apart.
pub proof fn lemma_sweep_no_overlap(text: Seq<char>, title: Seq<char>, i: int)
    ensures
        forall|j1: int, j2: int|
            0 <= j1 < j2 < sweep(text, title, i).len() ==> (#[trigger] sweep(
                text,
                title,
                i,
            )[j1]).offset + title.len() <= (#[trigger] sweep(text, title, i)[j2]).offset,
    decreases text.len() - i,
{
    if title.len() == 0 || i < 0 || i + title.len() > text.len() {
    } else if text.subrange(i, i + title.len()) == title {
        lemma_sweep_no_overlap(text, title, i + title.len());
        lemma_sweep_offsets_ge(text, title, i + title.len());
        let rest = sweep(text, title, i + title.len());
        let before_ok = i == 0 || !is_alnum(text[i - 1]);
        let after_ok = i + title.len() == text.len() || !is_alnum(text[i + title.len()]);
        assert forall|j1: int, j2: int|
            0 <= j1 < j2 < sweep(text, title, i).len() implies (#[trigger] sweep(
            text,
            title,
            i,
        )[j1]).offset + title.len() <= (#[trigger] sweep(text, title, i)[j2]).offset by {
            if before_ok && after_ok {
                assert(sweep(text, title, i)[j2] == rest[j2 - 1]);
                if j1 == 0 {
                    assert(sweep(text, title, i)[0].offset == i);
                } else {
                    assert(sweep(text, title, i)[j1] == rest[j1 - 1]);
                }
            } else {
                assert(sweep(text, title, i)[j1] == rest[j1]);
                assert(sweep(text, title, i)[j2] == rest[j2]);
            }
        }
    } else {
        lemma_sweep_no_overlap(text, title, i + 1);
        assert forall|j1: int, j2: int|
            0 <= j1 < j2 < sweep(text, title, i).len() implies (#[trigger] sweep(
            text,
            title,
            i,
        )[j1]).offset + title.len() <= (#[trigger] sweep(text, title, i)[j2]).offset by {
            assert(sweep(text, title, i)[j1] == sweep(text, title, i + 1)[j1]);
            assert(sweep(text, title, i)[j2] == sweep(text, title, i + 1)[j2]);
        }
    }
}

/// The scan order is longest-first: the sorted title list never grows in
/// length from one entry to the next.
pub proof fn lemma_sort_desc_sorted(ts: Seq<Seq<char>>)
    ensures
        sort_desc(ts).len() == ts.len(),
        forall|i: int, j: int|
            0 <= i <= j < sort_desc(ts).len() ==> #[trigger] sort_desc(ts)[i].len()
                >= #[trigger] sort_desc(ts)[j].len(),
    decreases ts.len(),
{
    if ts.len() > 0 {
        lemma_sort_desc_sorted(ts.drop_last());
        lemma_insert_desc_sorted(sort_desc(ts.drop_last()), ts.last());
    }
}

proof fn lemma_insert_desc_sorted(s: Seq<Seq<char>>, x: Seq<char>)
    requires
        forall|i: int, j: int|
            0 <= i <= j < s.len() ==> #[trigger] s[i].len() >= #[trigger] s[j].len(),
    ensures
        insert_desc(s, x).len() == s.len() + 1,
        forall|i: int, j: int|
            0 <= i <= j < insert_desc(s, x).len() ==> #[trigger] insert_desc(s, x)[i].len()
                >= #[trigger] insert_desc(s, x)[j].len(),
    decreases s.len(),
{
    if s.len() == 0 {
    } else if s[0].len() >= x.len() {
        assert(forall|i: int, j: int|
            0 <= i <= j < s.drop_first().len() ==> #[trigger] s.drop_first()[i].len()
                >= #[trigger] s.drop_first()[j].len()) by {
            assert(forall|i: int|
                0 <= i < s.drop_first().len() ==> #[trigger] s.drop_first()[i] == s[i + 1]);
        }
        lemma_insert_desc_sorted(s.drop_first(), x);
        let r = seq![s[0]] + insert_desc(s.drop_first(), x);
        assert forall|i: int, j: int| 0 <= i <= j < r.len() implies #[trigger] r[i].len()
            >= #[trigger] r[j].len() by {
            if i == 0 && j > 0 {
                let rr = insert_desc(s.drop_first(), x);
                assert(r[j] == rr[j - 1]);
                if j - 1 < s.drop_first().len() + 1 {
                    lemma_insert_desc_member(s.drop_first(), x, j - 1);
                }
            }
        }
    } else {
    }
}

/// Every entry of an insertion is the inserted title or one of the old
/// entries.
proof fn lemma_insert_desc_member(s: Seq<Seq<char>>, x: Seq<char>, j: int)
    requires
        0 <= j < insert_desc(s, x).len(),
        insert_desc(s, x).len() == s.len() + 1,
    ensures
        insert_desc(s, x)[j] == x || exists|q: int| 0 <= q < s.len() && insert_desc(s, x)[j] == s[q],
    decreases s.len(),
{
    if s.len() == 0 {
    } else if s[0].len() >= x.len() {
        if j == 0 {
            assert(insert_desc(s, x)[0] == s[0]);
        } else {
            lemma_insert_desc_len(s.drop_first(), x);
            lemma_insert_desc_member(s.drop_first(), x, j - 1);
            if insert_desc(s.drop_first(), x)[j - 1] != x {
                let q = choose|q: int|
                    0 <= q < s.drop_first().len() && insert_desc(s.drop_first(), x)[j - 1]
                        == s.drop_first()[q];
                assert(s.drop_first()[q] == s[q + 1]);
            }
        }
    } else {
        if j == 0 {
        } else {
            assert(insert_desc(s, x)[j] == s[j - 1]);
        }
    }
}

proof fn lemma_insert_desc_len(s: Seq<Seq<char>>, x: Seq<char>)
    ensures
        insert_desc(s, x).len() == s.len() + 1,
    decreases s.len(),
{
    if s.len() > 0 && s[0].len() >= x.len() {
        lemma_insert_desc_len(s.drop_first(), x);
    }
}

// ── Applying matches on the editing thread ─────────────────────────

/// Whether a position already carries some cross-document link tag.
pub open spec fn has_tangle(l: Seq<TagV>) -> bool {
    exists|i: int| 0 <= i < l.len() && (#[trigger] l[i]) is TangleLink
}

/// Applying one match: the tangle tag covers the matched range, clipped
/// to the buffer, unless the start offset already carries some tangle
/// tag (so repeated scans are idempotent) or has left the buffer (a
/// stale result from before an edit is dropped).
pub open spec fn apply_match_spec(d: DocV, m: TitleMatchV) -> DocV {
    if 0 <= m.offset < d.text.len() && !has_tangle(d.marks[m.offset]) {
        let end = if m.offset + m.title.len() > d.text.len() {
            d.text.len() as int
        } else {
            m.offset + m.title.len()
        };
        apply_tag_spec(d, TagV::TangleLink(m.title), m.offset, end)
    } else {
        d
    }
}

pub open spec fn apply_matches_spec(d: DocV, ms: Seq<TitleMatchV>) -> DocV
    decreases ms.len(),
{
    if ms.len() == 0 {
        d
    } else {
        apply_matches_spec(apply_match_spec(d, ms[0]), ms.skip(1))
    }
}

/// Whether the list holds a tangle tag.
fn tags_have_tangle(l: &Vec<Tag>) -> (r: bool)
    ensures
        r == has_tangle(view_tags(l@)),
{
    let mut i: usize = 0;
    while i < l.len()
        invariant
            i <= l@.len(),
            forall|j: int| 0 <= j < i ==> !(#[trigger] view_tags(l@)[j] is TangleLink),
        decreases l@.len() - i,
    {
        if matches!(&l[i], Tag::TangleLink(_)) {
            proof {
                assert(view_tags(l@)[i as int] is TangleLink);
            }
            return true;
        }
        i += 1;
    }
    false
}

/// Applies the scanner's matches to the document.
pub fn apply_matches(d: &mut Document, ms: &Vec<TitleMatch>)
    requires
        old(d)@.wf(),
    ensures
        final(d)@ == apply_matches_spec(old(d)@, view_matches(ms@)),
        final(d)@.wf(),
{
    proof {
        lemma_view_matches_props(ms@);
        assert(view_matches(ms@).skip(0) =~= view_matches(ms@));
    }
    let mut i: usize = 0;
    while i < ms.len()
        invariant
            i <= ms@.len(),
            d@.wf(),
            apply_matches_spec(old(d)@, view_matches(ms@)) == apply_matches_spec(
                d@,
                view_matches(ms@).skip(i as int),
            ),
        decreases ms@.len() - i,
    {
        let ghost suf = view_matches(ms@).skip(i as int);
        proof {
            lemma_view_matches_props(ms@);
            assert(suf[0] == ms@[i as int]@);
            assert(suf.skip(1) =~= view_matches(ms@).skip(i + 1));
        }
        let off = ms[i].offset;
        let len = d.len();
        if off < len {
            let here = d.tags_at(off);
            if !tags_have_tangle(&here) {
                let tlen = ms[i].title.len();
                let end: usize = if tlen >= len - off {
                    len
                } else {
                    off + tlen
                };
                let t = Tag::TangleLink(dup_chars(&ms[i].title));
                d.apply_tag(&t, off, end);
            }
        }
        i += 1;
    }
    proof {
        assert(view_matches(ms@).skip(ms@.len() as int) =~= Seq::<TitleMatchV>::empty());
    }
}

} // verus!
