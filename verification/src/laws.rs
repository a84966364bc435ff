//! The engine's stated laws, proved over the specification operations
//! that the executable methods are verified against.

use vstd::prelude::*;
use crate::tag::{TagV, is_heading_v, is_list_v};
use crate::doc::{
    DocV,
    apply_tag_spec,
    remove_tag_spec,
    delete_range_spec,
    insert_text_spec,
    apply_at,
    remove_at,
    without_conflicts,
    shift_anchors,
    delete_anchors,
    is_line_range,
    nl_count,
    lemma_apply_at_contains,
    lemma_remove_at_id,
    lemma_remove_at_push,
    lemma_without_conflicts_id,
    lemma_shift_delete_anchors,
};
use crate::edit::{
    toggle_heading_spec,
    clear_headings_spec,
    toggle_list_spec,
    handle_enter_spec,
    list_prefix_of,
    list_prefix_len,
    bullet_prefix,
    is_bullet_prefix,
    other_list,
    lemma_lead_sp_is,
    lemma_digit_run_is,
};
use crate::chars::all_space;

verus! {

/// Exclusive heading family: toggling a heading level onto a line that
/// does not yet carry it leaves exactly that level as the line's heading
/// coverage — every other heading level is gone from every position of
/// the line.
pub proof fn lemma_heading_exclusive(d: DocV, t: TagV, a: int, b: int)
    requires
        d.wf(),
        is_heading_v(t),
        0 <= a <= b <= d.text.len(),
        !d.has_mark_in(a, b, t),
    ensures
        forall|p: int, u: TagV|
            a <= p < b && is_heading_v(u) ==> (#[trigger] toggle_heading_spec(
                d,
                t,
                a,
                b,
            ).has_mark(p, u) <==> u == t),
{
    let c = clear_headings_spec(d, a, b);
    let r = toggle_heading_spec(d, t, a, b);
    assert(r == apply_tag_spec(c, t, a, b));
    assert forall|p: int, u: TagV| a <= p < b && is_heading_v(u) implies (#[trigger] r.has_mark(
        p,
        u,
    ) <==> u == t) by {
        assert(r.marks[p] == apply_at(c.marks[p], t));
        lemma_apply_at_contains(c.marks[p], t);
        assert(crate::tag::conflicts_v(u, t));
    }
}

/// A single Enter on an empty list item exits the list: the keystroke is
/// consumed, and the prefix text and the bullet tag leave the document
/// entirely.
pub proof fn lemma_enter_exits_empty_item(d: DocV, cursor: int, a: int, b: int)
    requires
        d.wf(),
        0 <= cursor <= d.text.len(),
        is_line_range(d.text, nl_count(d.text.take(cursor)), a, b),
        d.text.subrange(a, b) == bullet_prefix(),
        d.has_mark_in(a, b, TagV::BulletList),
    ensures
        handle_enter_spec(d, cursor, a, b).0,
        handle_enter_spec(d, cursor, a, b).1 == (DocV {
            text: d.text.take(a) + d.text.skip(b),
            marks: d.marks.take(a) + d.marks.skip(b),
            anchors: delete_anchors(d.anchors, a, b),
            pending: d.pending,
        }),
{
    let lineseq = d.text.subrange(a, b);
    assert(lineseq.take(4) =~= lineseq);
    assert(is_bullet_prefix(lineseq));
    assert(lineseq.skip(4).len() == 0);
    assert(all_space(lineseq.skip(4)));
    let d1 = remove_tag_spec(d, TagV::BulletList, a, b);
    let d2 = delete_range_spec(d1, a, b);
    assert(handle_enter_spec(d, cursor, a, b).1 == d2);
    assert(d2.text == d.text.take(a) + d.text.skip(b));
    assert(d2.marks =~= d.marks.take(a) + d.marks.skip(b));
    assert(d1.anchors == d.anchors);
    assert(d2 =~= (DocV {
        text: d.text.take(a) + d.text.skip(b),
        marks: d.marks.take(a) + d.marks.skip(b),
        anchors: delete_anchors(d.anchors, a, b),
        pending: d.pending,
    }));
}

/// Enter on a bullet item with content is consumed and continues the
/// list: a separator plus a fresh bullet prefix enter at the cursor, the
/// new line begins with that prefix, and the whole new line carries the
/// bullet tag.
pub proof fn lemma_enter_continues_item(d: DocV, cursor: int, a: int, b: int)
    requires
        d.wf(),
        0 <= cursor <= d.text.len(),
        is_line_range(d.text, nl_count(d.text.take(cursor)), a, b),
        is_bullet_prefix(d.text.subrange(a, b)),
        !all_space(d.text.subrange(a, b).skip(4)),
        d.has_mark_in(a, b, TagV::BulletList),
    ensures
        handle_enter_spec(d, cursor, a, b).0,
        handle_enter_spec(d, cursor, a, b).1.text == d.text.take(cursor) + (seq!['\n']
            + bullet_prefix()) + d.text.skip(cursor),
        forall|p: int|
            cursor + 1 <= p < b + 5 ==> handle_enter_spec(d, cursor, a, b).1.has_mark(
                p,
                TagV::BulletList,
            ),
        handle_enter_spec(d, cursor, a, b).1.text.subrange(cursor + 1, cursor + 5)
            == bullet_prefix(),
{
    let lineseq = d.text.subrange(a, b);
    crate::doc::lemma_line_contains_offset(d.text, cursor, a, b);
    let ins = seq!['\n'] + bullet_prefix();
    let di = insert_text_spec(d, cursor, ins);
    let r = apply_tag_spec(di, TagV::BulletList, cursor + 1, b + 5);
    assert(handle_enter_spec(d, cursor, a, b).1 == r);
    assert(r.text == di.text);
    assert(di.marks.len() == cursor + 5 + (d.marks.len() - cursor));
    assert forall|p: int| cursor + 1 <= p < b + 5 implies r.has_mark(p, TagV::BulletList) by {
        assert(r.marks[p] == apply_at(di.marks[p], TagV::BulletList));
        lemma_apply_at_contains(di.marks[p], TagV::BulletList);
    }
    assert(r.text.subrange(cursor + 1, cursor + 5) =~= bullet_prefix());
}

/// List prefix invariant: toggling a list kind onto a plain paragraph
/// line (one carrying no list tag) and then toggling the same kind again
/// restores the document exactly — text, tag coverage, anchors and
/// pending set.  The second toggle acts on the line as the first left
/// it: same start, end moved right by the inserted prefix.
pub proof fn lemma_toggle_list_twice(d: DocV, t: TagV, l: int, a: int, b: int)
    requires
        d.wf(),
        is_list_v(t),
        is_line_range(d.text, l, a, b),
        !d.has_mark_in(a, b, TagV::BulletList),
        !d.has_mark_in(a, b, TagV::NumberedList),
    ensures
        ({
            let k = list_prefix_of(t).len() as int;
            let d1 = toggle_list_spec(d, t, a, b);
            is_line_range(d1.text, l, a, b + k) && toggle_list_spec(d1, t, a, b + k) == d
        }),
{
    let prefix = list_prefix_of(t);
    let k = prefix.len() as int;
    let oth = other_list(t);
    assert(!d.has_mark_in(a, b, t));
    assert(!d.has_mark_in(a, b, oth));
    let d2p = insert_text_spec(d, a, prefix);
    let d1 = apply_tag_spec(d2p, t, a, b + k);
    assert(toggle_list_spec(d, t, a, b) == d1);
    assert(d1.text == d.text.take(a) + prefix + d.text.skip(a));
    assert(d1.text.len() == d.text.len() + k);
    assert(d1.text.take(a) =~= d.text.take(a));
    assert(forall|j: int| 0 <= j < k ==> prefix[j] != '\n') by {
        if t is BulletList {
            assert(prefix == bullet_prefix());
            assert(prefix[0] == ' ' && prefix[1] == ' ' && prefix[2] == '\u{2022}' && prefix[3]
                == ' ');
        } else {
            assert(prefix[0] == ' ' && prefix[1] == ' ' && prefix[2] == '1' && prefix[3] == '.'
                && prefix[4] == ' ');
        }
    }
    assert(is_line_range(d1.text, l, a, b + k)) by {
        assert(nl_count(d1.text.take(a)) == l);
        assert forall|q: int| a <= q < b + k implies d1.text[q] != '\n' by {
            if q < a + k {
                assert(d1.text[q] == prefix[q - a]);
            } else {
                assert(d1.text[q] == d.text[q - k]);
            }
        }
        if b + k < d1.text.len() {
            assert(d1.text[b + k] == d.text[b]);
        }
        if a > 0 {
            assert(d1.text[a - 1] == d.text[a - 1]);
        }
    }
    assert(d1.has_mark_in(a, b + k, t)) by {
        assert(d1.marks[a] == apply_at(d2p.marks[a], t));
        lemma_apply_at_contains(d2p.marks[a], t);
        assert(d1.has_mark(a, t));
    }
    let dr = remove_tag_spec(d1, t, a, b + k);
    let s1 = d1.text.subrange(a, b + k);
    assert(s1 =~= prefix + d.text.subrange(a, b));
    assert(list_prefix_len(s1) == k) by {
        if t is BulletList {
            assert(s1.take(4) =~= bullet_prefix());
        } else {
            assert(s1[0] == ' ' && s1[1] == ' ' && s1[2] == '1' && s1[3] == '.' && s1[4] == ' ');
            assert(!is_bullet_prefix(s1)) by {
                if is_bullet_prefix(s1) {
                    assert(s1.take(4)[2] == s1[2]);
                }
            }
            lemma_lead_sp_is(s1, 2);
            lemma_digit_run_is(s1, 2, 1);
        }
    }
    let df = delete_range_spec(dr, a, a + k);
    assert(toggle_list_spec(d1, t, a, b + k) == df);
    assert(df.text =~= d.text);
    assert forall|i: int| 0 <= i < d.marks.len() implies df.marks[i] == d.marks[i] by {
        if i < a {
            assert(df.marks[i] == dr.marks[i]);
            assert(dr.marks[i] == d1.marks[i]);
            assert(d1.marks[i] == d2p.marks[i]);
            assert(d2p.marks[i] == d.marks[i]);
        } else {
            let p = i + k;
            assert(df.marks[i] == dr.marks[p]);
            if i < b {
                let m = d.marks[i];
                assert(d2p.marks[p] == m);
                assert(d1.marks[p] == apply_at(m, t));
                assert(dr.marks[p] == remove_at(apply_at(m, t), t));
                lemma_remove_at_push(without_conflicts(m, t), t);
                assert forall|j: int| 0 <= j < m.len() implies !crate::tag::conflicts_v(
                    #[trigger] m[j],
                    t,
                ) by {
                    if crate::tag::is_list_v(m[j]) {
                        assert(m.contains(m[j]));
                        assert(d.has_mark(i, m[j]));
                        assert(false);
                    }
                    assert(m[j] != t) by {
                        if m[j] == t {
                            assert(m.contains(t));
                            assert(d.has_mark(i, t));
                        }
                    }
                }
                lemma_without_conflicts_id(m, t);
                assert(!m.contains(t)) by {
                    if m.contains(t) {
                        assert(d.has_mark(i, t));
                    }
                }
                lemma_remove_at_id(m, t);
                assert(dr.marks[p] == m);
            } else {
                assert(dr.marks[p] == d1.marks[p]);
                assert(d1.marks[p] == d2p.marks[p]);
                assert(d2p.marks[p] == d.marks[p - k]);
            }
        }
    }
    assert(df.marks =~= d.marks);
    assert(d2p.anchors == shift_anchors(d.anchors, a, k));
    assert(dr.anchors == d2p.anchors);
    lemma_shift_delete_anchors(d.anchors, a, k);
    assert(df.anchors == d.anchors);
    assert(df =~= d);
}

/// Decoding inverts escaping: the character references the serializer
/// writes for `&`, `<`, `>` and `"` read back as exactly the original
/// text.  This is the escaping layer of the codec round trip.
pub proof fn lemma_decode_escape(s: Seq<char>)
    ensures
        crate::token::decode_entities(crate::serialize::escape_text(s)) == s,
    decreases s.len(),
{
    let e = crate::serialize::escape_text(s);
    if s.len() == 0 {
        assert(e =~= Seq::<char>::empty());
        assert(crate::token::decode_entities(e) =~= s);
    } else {
        lemma_decode_escape(s.skip(1));
        let c = s[0];
        let rest = crate::serialize::escape_text(s.skip(1));
        assert(e == crate::serialize::esc_char(c) + rest);
        if c == '&' {
            assert(e[0] == '&');
            assert(e.len() >= 5);
            assert(e.subrange(1, 5) =~= seq!['a', 'm', 'p', ';']);
            assert(e.skip(5) =~= rest);
            assert(crate::token::decode_entities(e) == seq!['&'] + crate::token::decode_entities(
                rest,
            ));
            assert(crate::token::decode_entities(e) =~= s);
        } else if c == '<' {
            assert(e[0] == '&');
            assert(e[1] == 'l');
            if e.len() >= 5 {
                assert(e.subrange(1, 5)[0] == 'l');
                assert(e.subrange(1, 5) != seq!['a', 'm', 'p', ';']);
            }
            assert(e.len() >= 4);
            assert(e.subrange(1, 4) =~= seq!['l', 't', ';']);
            assert(e.skip(4) =~= rest);
            assert(crate::token::decode_entities(e) == seq!['<'] + crate::token::decode_entities(
                rest,
            ));
            assert(crate::token::decode_entities(e) =~= s);
        } else if c == '>' {
            assert(e[0] == '&');
            assert(e[1] == 'g');
            if e.len() >= 5 {
                assert(e.subrange(1, 5)[0] == 'g');
                assert(e.subrange(1, 5) != seq!['a', 'm', 'p', ';']);
            }
            assert(e.len() >= 4);
            assert(e.subrange(1, 4) =~= seq!['g', 't', ';']);
            assert(e.skip(4) =~= rest);
            assert(crate::token::decode_entities(e) == seq!['>'] + crate::token::decode_entities(
                rest,
            ));
            assert(crate::token::decode_entities(e) =~= s);
        } else if c == '"' {
            assert(e[0] == '&');
            assert(e[1] == 'q');
            if e.len() >= 5 {
                assert(e.subrange(1, 5)[0] == 'q');
                assert(e.subrange(1, 5) != seq!['a', 'm', 'p', ';']);
            }
            assert(e.subrange(1, 4)[0] == 'q');
            assert(e.subrange(1, 4) != seq!['l', 't', ';']);
            assert(e.subrange(1, 4) != seq!['g', 't', ';']);
            assert(e.len() >= 6);
            assert(e.subrange(1, 6) =~= seq!['q', 'u', 'o', 't', ';']);
            assert(e.skip(6) =~= rest);
            assert(crate::token::decode_entities(e) == seq!['"'] + crate::token::decode_entities(
                rest,
            ));
            assert(crate::token::decode_entities(e) =~= s);
        } else {
            assert(e[0] == c);
            assert(e.skip(1) =~= rest);
            assert(crate::token::decode_entities(e) == seq![c] + crate::token::decode_entities(
                rest,
            ));
            assert(crate::token::decode_entities(e) =~= s);
        }
    }
}

/// Running the tokenizer over a concatenation is running it over the
/// parts in turn.
pub proof fn lemma_tok_run_concat(st: crate::tokenize::TokStateV, a: Seq<char>, b: Seq<char>)
    ensures
        crate::tokenize::tok_run(st, a + b) == crate::tokenize::tok_run(
            crate::tokenize::tok_run(st, a),
            b,
        ),
    decreases a.len(),
{
    if a.len() == 0 {
        assert(a + b =~= b);
    } else {
        assert((a + b)[0] == a[0]);
        assert((a + b).skip(1) =~= a.skip(1) + b);
        lemma_tok_run_concat(crate::tokenize::tok_step(st, a[0]), a.skip(1), b);
    }
}

/// In data mode, text without `<` only accumulates.
pub proof fn lemma_data_accum(st: crate::tokenize::TokStateV, t: Seq<char>)
    requires
        st.mode is Data,
        forall|i: int| 0 <= i < t.len() ==> t[i] != '<',
    ensures
        crate::tokenize::tok_run(st, t) == (crate::tokenize::TokStateV {
            text_buf: st.text_buf + t,
            ..st
        }),
    decreases t.len(),
{
    if t.len() == 0 {
        assert(st.text_buf + t =~= st.text_buf);
        assert(crate::tokenize::tok_run(st, t) =~= (crate::tokenize::TokStateV {
            text_buf: st.text_buf + t,
            ..st
        }));
    } else {
        let st1 = crate::tokenize::tok_step(st, t[0]);
        assert(st1 =~= (crate::tokenize::TokStateV { text_buf: st.text_buf.push(t[0]), ..st }));
        assert(forall|i: int| 0 <= i < t.skip(1).len() ==> t.skip(1)[i] != '<');
        lemma_data_accum(st1, t.skip(1));
        assert(st.text_buf.push(t[0]) + t.skip(1) =~= st.text_buf + t);
        assert(crate::tokenize::tok_run(st, t) =~= (crate::tokenize::TokStateV {
            text_buf: st.text_buf + t,
            ..st
        }));
    }
}

/// Escaped text never holds a raw `<`.
pub proof fn lemma_escape_no_lt(t: Seq<char>)
    ensures
        forall|i: int|
            0 <= i < crate::serialize::escape_text(t).len() ==> crate::serialize::escape_text(t)[i]
                != '<',
    decreases t.len(),
{
    if t.len() > 0 {
        lemma_escape_no_lt(t.skip(1));
        let e = crate::serialize::escape_text(t);
        let h = crate::serialize::esc_char(t[0]);
        let r = crate::serialize::escape_text(t.skip(1));
        assert forall|i: int| 0 <= i < e.len() implies e[i] != '<' by {
            if i < h.len() {
                assert(e[i] == h[i]);
            } else {
                assert(e[i] == r[i - h.len()]);
            }
        }
    }
}

/// A run of uniformly tagged text without embedded objects reaches the
/// line end.
pub proof fn lemma_seg_end_whole(d: DocV, p: int, q: int, end: int)
    requires
        p < q <= end,
        forall|j: int| p <= j < end ==> #[trigger] d.text[j] != crate::doc::OBJ_CHAR,
        forall|j: int|
            p <= j < end ==> crate::doc::inline_only(#[trigger] d.marks[j]) == crate::doc::inline_only(
                d.marks[p],
            ),
    ensures
        crate::serialize::seg_end(d, p, q, end) == end,
    decreases end - q,
{
    if q < end {
        lemma_seg_end_whole(d, p, q + 1, end);
    }
}

/// A single-line document of the round-trip subset: no separators or
/// embedded objects in the text, no list-prefix-shaped start, nothing in
/// the side tables, and one uniform tag list `m` on every position.
pub open spec fn single_line_doc(d: DocV, m: Seq<TagV>) -> bool {
    &&& d.wf()
    &&& d.anchors.len() == 0
    &&& d.pending.len() == 0
    &&& d.text.len() > 0
    &&& forall|i: int| 0 <= i < d.text.len() ==> #[trigger] d.text[i] != '\n'
    &&& forall|i: int| 0 <= i < d.text.len() ==> #[trigger] d.text[i] != crate::doc::OBJ_CHAR
    &&& list_prefix_len(d.text) == 0
    &&& forall|i: int| 0 <= i < d.marks.len() ==> #[trigger] d.marks[i] == m
}

proof fn lemma_scan_nl_none(text: Seq<char>, a: int)
    requires
        0 <= a <= text.len(),
        forall|j: int| a <= j < text.len() ==> #[trigger] text[j] != '\n',
    ensures
        crate::serialize::scan_nl(text, a) == text.len(),
    decreases text.len() - a,
{
    if a < text.len() {
        lemma_scan_nl_none(text, a + 1);
    }
}

/// What a single line of the subset serializes to: the block wrapper,
/// the inline wrappers of the uniform tag set, and the escaped text.
#[verifier::rlimit(100)]
pub proof fn lemma_serialize_single_line(d: DocV, m: Seq<TagV>)
    requires
        single_line_doc(d, m),
        !m.contains(TagV::BulletList),
        !m.contains(TagV::NumberedList),
    ensures
        ({
            let k = crate::serialize::line_block(d, 0, d.text.len() as int);
            let il = crate::doc::inline_only(m);
            crate::serialize::serialize_spec(d) == crate::serialize::open_of(k)
                + crate::serialize::opens_seq(il) + crate::serialize::escape_text(d.text)
                + crate::serialize::closes_seq(il) + crate::serialize::close_of(k) + seq!['\n']
        }),
{
    let len = d.text.len() as int;
    let k = crate::serialize::line_block(d, 0, len);
    let il = crate::doc::inline_only(m);
    lemma_scan_nl_none(d.text, 0);
    assert(!d.has_mark_in(0, len, TagV::BulletList));
    assert(!d.has_mark_in(0, len, TagV::NumberedList));
    assert(crate::serialize::list_of_block(k) is NoList);
    lemma_seg_end_whole(d, 0, 1, len);
    assert(d.text.subrange(0, len) =~= d.text);
    assert(d.text.skip(0) =~= d.text);
    let chunk = crate::serialize::opens_seq(il) + crate::serialize::escape_text(d.text)
        + crate::serialize::closes_seq(il);
    assert(crate::serialize::escape_text(d.text).len() > 0);
    assert(crate::serialize::ser_segs(d, len, len) =~= Seq::<char>::empty());
    assert(crate::serialize::ser_segs(d, 0, len) =~= chunk);
    assert(crate::serialize::ser_lines(d, len + 1, crate::serialize::CurList::NoList)
        =~= Seq::<char>::empty());
    assert(crate::serialize::trans_seq(
        crate::serialize::CurList::NoList,
        crate::serialize::CurList::NoList,
    ) =~= Seq::<char>::empty());
    assert(crate::serialize::serialize_spec(d) =~= crate::serialize::open_of(k)
        + crate::serialize::opens_seq(il) + crate::serialize::escape_text(d.text)
        + crate::serialize::closes_seq(il) + crate::serialize::close_of(k) + seq!['\n']);
}

/// The tokenizer state after a one-letter start tag `<c>`, stepped from
/// a data state: pending text flushes as one token, then the tag opens.
proof fn lemma_tok_open1(st: crate::tokenize::TokStateV, c: char, flushed: Seq<crate::token::MarkTokenV>)
    requires
        st.mode is Data,
        crate::token::is_ascii_alpha(c),
        crate::chars::lower_char(c) == c,
        !crate::chars::is_space_char(c),
        flushed == if st.text_buf.len() > 0 {
            st.tokens.push(crate::token::MarkTokenV::Text(crate::token::decode_entities(st.text_buf)))
        } else {
            st.tokens
        },
    ensures
        crate::tokenize::tok_run(st, seq!['<', c, '>']) == (crate::tokenize::TokStateV {
            mode: crate::tokenize::TokMode::Data,
            name_buf: Seq::empty(),
            attrs: Seq::empty(),
            text_buf: Seq::empty(),
            tokens: flushed.push(crate::token::MarkTokenV::Open(seq![c], Seq::empty())),
            ..st
        }),
{
    let lit = seq!['<', c, '>'];
    let a0 = crate::tokenize::tok_step(st, '<');
    assert(a0 =~= (crate::tokenize::TokStateV { mode: crate::tokenize::TokMode::TagOpen, ..st }));
    let a1 = crate::tokenize::tok_step(a0, c);
    assert(crate::tokenize::stv_flush_text(a0) =~= (crate::tokenize::TokStateV {
        tokens: flushed,
        text_buf: Seq::empty(),
        mode: crate::tokenize::TokMode::TagOpen,
        ..st
    }));
    assert(a1 =~= (crate::tokenize::TokStateV {
        mode: crate::tokenize::TokMode::TagName,
        name_buf: seq![c],
        attrs: Seq::empty(),
        text_buf: Seq::empty(),
        tokens: flushed,
        ..st
    }));
    let a2 = crate::tokenize::tok_step(a1, '>');
    assert(!crate::chars::is_space_char('>'));
    assert(a2 =~= (crate::tokenize::TokStateV {
        mode: crate::tokenize::TokMode::Data,
        name_buf: Seq::empty(),
        attrs: Seq::empty(),
        text_buf: Seq::empty(),
        tokens: flushed.push(crate::token::MarkTokenV::Open(seq![c], Seq::empty())),
        ..st
    }));
    assert(lit.skip(1) =~= seq![c, '>']);
    assert(seq![c, '>'].skip(1) =~= seq!['>']);
    assert(seq!['>'].skip(1) =~= Seq::<char>::empty());
    assert(crate::tokenize::tok_run(st, lit) == crate::tokenize::tok_run(a0, seq![c, '>']));
    assert(crate::tokenize::tok_run(a0, seq![c, '>']) == crate::tokenize::tok_run(a1, seq!['>']));
    assert(crate::tokenize::tok_run(a1, seq!['>']) == crate::tokenize::tok_run(a2, Seq::empty()));
}

/// The tokenizer state after a two-character start tag `<c0 c1>`.
proof fn lemma_tok_open2(st: crate::tokenize::TokStateV, c0: char, c1: char)
    requires
        st.mode is Data,
        st.text_buf.len() == 0,
        crate::token::is_ascii_alpha(c0),
        crate::chars::lower_char(c0) == c0,
        crate::chars::lower_char(c1) == c1,
        !crate::chars::is_space_char(c1),
        c1 != '/' && c1 != '>',
    ensures
        crate::tokenize::tok_run(st, seq!['<', c0, c1, '>']) == (crate::tokenize::TokStateV {
            mode: crate::tokenize::TokMode::Data,
            name_buf: Seq::empty(),
            attrs: Seq::empty(),
            tokens: st.tokens.push(crate::token::MarkTokenV::Open(seq![c0, c1], Seq::empty())),
            ..st
        }),
{
    let lit = seq!['<', c0, c1, '>'];
    let a0 = crate::tokenize::tok_step(st, '<');
    assert(a0 =~= (crate::tokenize::TokStateV { mode: crate::tokenize::TokMode::TagOpen, ..st }));
    let a1 = crate::tokenize::tok_step(a0, c0);
    assert(crate::tokenize::stv_flush_text(a0) == a0);
    assert(a1 =~= (crate::tokenize::TokStateV {
        mode: crate::tokenize::TokMode::TagName,
        name_buf: seq![c0],
        attrs: Seq::empty(),
        ..st
    }));
    let a2 = crate::tokenize::tok_step(a1, c1);
    assert(seq![c0].push(c1) =~= seq![c0, c1]);
    assert(a2 =~= (crate::tokenize::TokStateV {
        mode: crate::tokenize::TokMode::TagName,
        name_buf: seq![c0, c1],
        attrs: Seq::empty(),
        ..st
    }));
    let a3 = crate::tokenize::tok_step(a2, '>');
    assert(!crate::chars::is_space_char('>'));
    assert(a3 =~= (crate::tokenize::TokStateV {
        mode: crate::tokenize::TokMode::Data,
        name_buf: Seq::empty(),
        attrs: Seq::empty(),
        tokens: st.tokens.push(crate::token::MarkTokenV::Open(seq![c0, c1], Seq::empty())),
        ..st
    }));
    assert(lit.skip(1) =~= seq![c0, c1, '>']);
    assert(seq![c0, c1, '>'].skip(1) =~= seq![c1, '>']);
    assert(seq![c1, '>'].skip(1) =~= seq!['>']);
    assert(seq!['>'].skip(1) =~= Seq::<char>::empty());
    assert(crate::tokenize::tok_run(st, lit) == crate::tokenize::tok_run(a0, seq![c0, c1, '>']));
    assert(crate::tokenize::tok_run(a0, seq![c0, c1, '>']) == crate::tokenize::tok_run(
        a1,
        seq![c1, '>'],
    ));
    assert(crate::tokenize::tok_run(a1, seq![c1, '>']) == crate::tokenize::tok_run(
        a2,
        seq!['>'],
    ));
    assert(crate::tokenize::tok_run(a2, seq!['>']) == crate::tokenize::tok_run(a3, Seq::empty()));
}

/// An end tag `</c>` flushes the pending text as one token and emits the
/// close; with no pending text it emits the close alone.
proof fn lemma_tok_close1(st: crate::tokenize::TokStateV, c: char, flushed: Seq<crate::token::MarkTokenV>)
    requires
        st.mode is Data,
        crate::token::is_ascii_alpha(c),
        crate::chars::lower_char(c) == c,
        flushed == if st.text_buf.len() > 0 {
            st.tokens.push(crate::token::MarkTokenV::Text(crate::token::decode_entities(st.text_buf)))
        } else {
            st.tokens
        },
    ensures
        crate::tokenize::tok_run(st, seq!['<', '/', c, '>']) == (crate::tokenize::TokStateV {
            mode: crate::tokenize::TokMode::Data,
            name_buf: Seq::empty(),
            text_buf: Seq::empty(),
            tokens: flushed.push(crate::token::MarkTokenV::Close(seq![c])),
            ..st
        }),
{
    let b0 = crate::tokenize::tok_step(st, '<');
    assert(b0 =~= (crate::tokenize::TokStateV { mode: crate::tokenize::TokMode::TagOpen, ..st }));
    let b1 = crate::tokenize::tok_step(b0, '/');
    assert(b1 =~= (crate::tokenize::TokStateV {
        mode: crate::tokenize::TokMode::EndTagOpen,
        ..st
    }));
    let b2 = crate::tokenize::tok_step(b1, c);
    assert(crate::tokenize::stv_flush_text(b1) =~= (crate::tokenize::TokStateV {
        tokens: flushed,
        text_buf: Seq::empty(),
        mode: crate::tokenize::TokMode::EndTagOpen,
        ..st
    }));
    assert(b2 =~= (crate::tokenize::TokStateV {
        mode: crate::tokenize::TokMode::EndTagName,
        name_buf: seq![c],
        tokens: flushed,
        text_buf: Seq::empty(),
        ..st
    }));
    let b3 = crate::tokenize::tok_step(b2, '>');
    assert(!crate::chars::is_space_char('>'));
    assert(b3 =~= (crate::tokenize::TokStateV {
        mode: crate::tokenize::TokMode::Data,
        name_buf: Seq::empty(),
        tokens: flushed.push(crate::token::MarkTokenV::Close(seq![c])),
        text_buf: Seq::empty(),
        ..st
    }));
    let lit = seq!['<', '/', c, '>'];
    assert(lit.skip(1) =~= seq!['/', c, '>']);
    assert(seq!['/', c, '>'].skip(1) =~= seq![c, '>']);
    assert(seq![c, '>'].skip(1) =~= seq!['>']);
    assert(seq!['>'].skip(1) =~= Seq::<char>::empty());
    assert(crate::tokenize::tok_run(st, lit) == crate::tokenize::tok_run(b0, seq!['/', c, '>']));
    assert(crate::tokenize::tok_run(b0, seq!['/', c, '>']) == crate::tokenize::tok_run(
        b1,
        seq![c, '>'],
    ));
    assert(crate::tokenize::tok_run(b1, seq![c, '>']) == crate::tokenize::tok_run(b2, seq!['>']));
    assert(crate::tokenize::tok_run(b2, seq!['>']) == crate::tokenize::tok_run(b3, Seq::empty()));
}

/// An end tag `</c0 c1>` likewise, for two-character names.
proof fn lemma_tok_close2(
    st: crate::tokenize::TokStateV,
    c0: char,
    c1: char,
    flushed: Seq<crate::token::MarkTokenV>,
)
    requires
        st.mode is Data,
        crate::token::is_ascii_alpha(c0),
        crate::chars::lower_char(c0) == c0,
        crate::chars::lower_char(c1) == c1,
        !crate::chars::is_space_char(c1),
        c1 != '>',
        flushed == if st.text_buf.len() > 0 {
            st.tokens.push(crate::token::MarkTokenV::Text(crate::token::decode_entities(st.text_buf)))
        } else {
            st.tokens
        },
    ensures
        crate::tokenize::tok_run(st, seq!['<', '/', c0, c1, '>']) == (crate::tokenize::TokStateV {
            mode: crate::tokenize::TokMode::Data,
            name_buf: Seq::empty(),
            text_buf: Seq::empty(),
            tokens: flushed.push(crate::token::MarkTokenV::Close(seq![c0, c1])),
            ..st
        }),
{
    let b0 = crate::tokenize::tok_step(st, '<');
    assert(b0 =~= (crate::tokenize::TokStateV { mode: crate::tokenize::TokMode::TagOpen, ..st }));
    let b1 = crate::tokenize::tok_step(b0, '/');
    assert(b1 =~= (crate::tokenize::TokStateV {
        mode: crate::tokenize::TokMode::EndTagOpen,
        ..st
    }));
    let b2 = crate::tokenize::tok_step(b1, c0);
    assert(crate::tokenize::stv_flush_text(b1) =~= (crate::tokenize::TokStateV {
        tokens: flushed,
        text_buf: Seq::empty(),
        mode: crate::tokenize::TokMode::EndTagOpen,
        ..st
    }));
    assert(b2 =~= (crate::tokenize::TokStateV {
        mode: crate::tokenize::TokMode::EndTagName,
        name_buf: seq![c0],
        tokens: flushed,
        text_buf: Seq::empty(),
        ..st
    }));
    let b3 = crate::tokenize::tok_step(b2, c1);
    assert(seq![c0].push(c1) =~= seq![c0, c1]);
    assert(b3 =~= (crate::tokenize::TokStateV {
        mode: crate::tokenize::TokMode::EndTagName,
        name_buf: seq![c0, c1],
        tokens: flushed,
        text_buf: Seq::empty(),
        ..st
    }));
    let b4 = crate::tokenize::tok_step(b3, '>');
    assert(!crate::chars::is_space_char('>'));
    assert(b4 =~= (crate::tokenize::TokStateV {
        mode: crate::tokenize::TokMode::Data,
        name_buf: Seq::empty(),
        tokens: flushed.push(crate::token::MarkTokenV::Close(seq![c0, c1])),
        text_buf: Seq::empty(),
        ..st
    }));
    let lit = seq!['<', '/', c0, c1, '>'];
    assert(lit.skip(1) =~= seq!['/', c0, c1, '>']);
    assert(seq!['/', c0, c1, '>'].skip(1) =~= seq![c0, c1, '>']);
    assert(seq![c0, c1, '>'].skip(1) =~= seq![c1, '>']);
    assert(seq![c1, '>'].skip(1) =~= seq!['>']);
    assert(seq!['>'].skip(1) =~= Seq::<char>::empty());
    assert(crate::tokenize::tok_run(st, lit) == crate::tokenize::tok_run(
        b0,
        seq!['/', c0, c1, '>'],
    ));
    assert(crate::tokenize::tok_run(b0, seq!['/', c0, c1, '>']) == crate::tokenize::tok_run(
        b1,
        seq![c0, c1, '>'],
    ));
    assert(crate::tokenize::tok_run(b1, seq![c0, c1, '>']) == crate::tokenize::tok_run(
        b2,
        seq![c1, '>'],
    ));
    assert(crate::tokenize::tok_run(b2, seq![c1, '>']) == crate::tokenize::tok_run(
        b3,
        seq!['>'],
    ));
    assert(crate::tokenize::tok_run(b3, seq!['>']) == crate::tokenize::tok_run(b4, Seq::empty()));
}

/// A final separator and the end of input: one whitespace text token.
proof fn lemma_tok_nl_finish(st: crate::tokenize::TokStateV)
    requires
        st.mode is Data,
        st.text_buf.len() == 0,
    ensures
        crate::tokenize::tok_finish(crate::tokenize::tok_run(st, seq!['\n'])) == st.tokens.push(
            crate::token::MarkTokenV::Text(seq!['\n']),
        ),
{
    let b0 = crate::tokenize::tok_step(st, '\n');
    assert(b0 =~= (crate::tokenize::TokStateV { text_buf: seq!['\n'], ..st }));
    assert(seq!['\n'].skip(1) =~= Seq::<char>::empty());
    assert(crate::tokenize::tok_run(st, seq!['\n']) == crate::tokenize::tok_run(
        b0,
        seq!['\n'].skip(1),
    ));
    assert(crate::tokenize::tok_run(b0, seq!['\n'].skip(1)) == b0);
    assert(crate::token::decode_entities(Seq::<char>::empty()) =~= Seq::<char>::empty());
    assert(crate::token::decode_entities(seq!['\n']) =~= seq!['\n']);
}

/// Round trip of a single plain paragraph: serializing and then
/// deserializing a one-line untagged document reproduces it exactly.
#[verifier::rlimit(100)]
pub proof fn lemma_round_trip_plain_paragraph(d: DocV, avail: Seq<Seq<char>>)
    requires
        single_line_doc(d, Seq::empty()),
    ensures
        crate::deserialize::deserialize_spec(crate::serialize::serialize_spec(d), avail) == d,
{
    let t = d.text;
    let len = t.len() as int;
    let m = Seq::<TagV>::empty();
    lemma_serialize_single_line(d, m);
    let k = crate::serialize::line_block(d, 0, len);
    assert(k is BPara);
    assert(crate::doc::inline_only(m) =~= Seq::<TagV>::empty());
    assert(crate::serialize::opens_seq(Seq::<TagV>::empty()) =~= Seq::<char>::empty());
    assert(crate::serialize::closes_seq(Seq::<TagV>::empty()) =~= Seq::<char>::empty());
    let e = crate::serialize::escape_text(t);
    let full = crate::serialize::serialize_spec(d);
    assert(full =~= seq!['<', 'p', '>'] + (e + (seq!['<', '/', 'p', '>'] + seq!['\n'])));
    // tokenizing the markup
    let s0 = crate::tokenize::init_tok_state();
    lemma_tok_run_concat(s0, seq!['<', 'p', '>'], e + (seq!['<', '/', 'p', '>'] + seq!['\n']));
    lemma_tok_open1(s0, 'p', s0.tokens);
    let s1 = crate::tokenize::tok_run(s0, seq!['<', 'p', '>']);
    lemma_tok_run_concat(s1, e, seq!['<', '/', 'p', '>'] + seq!['\n']);
    lemma_escape_no_lt(t);
    lemma_data_accum(s1, e);
    let s2 = crate::tokenize::tok_run(s1, e);
    assert(s2.text_buf =~= e);
    assert(e.len() > 0);
    lemma_decode_escape(t);
    lemma_tok_run_concat(s2, seq!['<', '/', 'p', '>'], seq!['\n']);
    lemma_tok_close1(s2, 'p', s2.tokens.push(crate::token::MarkTokenV::Text(t)));
    let s3 = crate::tokenize::tok_run(s2, seq!['<', '/', 'p', '>']);
    lemma_tok_nl_finish(s3);
    let toks = crate::tokenize::tokenize_spec(full);
    let open_tok = crate::token::MarkTokenV::Open(seq!['p'], Seq::empty());
    let text_tok = crate::token::MarkTokenV::Text(t);
    let close_tok = crate::token::MarkTokenV::Close(seq!['p']);
    let nl_tok = crate::token::MarkTokenV::Text(seq!['\n']);
    assert(toks =~= seq![open_tok, text_tok, close_tok, nl_tok]);
    // building the document back
    let st0 = crate::deserialize::build_init();
    assert(crate::deserialize::elem_kind_of(seq!['p']) is KPara);
    let c0 = crate::deserialize::build_step(st0, open_tok, avail);
    let fr = crate::token::FrameV { name: seq!['p'], attrs: Seq::empty(), start: 0 };
    assert(c0 =~= (crate::deserialize::BuildV {
        doc: crate::doc::empty_doc(),
        stack: seq![fr],
        lists: Seq::empty(),
        counters: Seq::empty(),
        need_nl: true,
        in_block: true,
    }));
    let c1 = crate::deserialize::build_step(c0, text_tok, avail);
    let dd = crate::deserialize::doc_append(crate::doc::empty_doc(), t);
    assert(dd.text =~= t);
    assert forall|i: int| 0 <= i < dd.marks.len() implies dd.marks[i] == d.marks[i] by {
        assert(crate::doc::stretch_tags(crate::doc::empty_doc(), 0) =~= Seq::<TagV>::empty());
        assert(dd.marks[i] =~= Seq::<TagV>::empty());
    }
    assert(dd.marks =~= d.marks);
    assert(dd.anchors =~= d.anchors);
    assert(dd.pending =~= d.pending);
    assert(dd =~= d);
    assert(c1 =~= (crate::deserialize::BuildV { doc: dd, ..c0 }));
    let c2 = crate::deserialize::build_step(c1, close_tok, avail);
    assert(crate::deserialize::frame_rpos(seq![fr], seq!['p']) == Some(0int)) by {
        assert(seq![fr].last() == fr);
    }
    assert(seq![fr].remove(0) =~= Seq::<crate::token::FrameV>::empty());
    assert(c2.doc == dd);
    let c3 = crate::deserialize::build_step(c2, nl_tok, avail);
    assert(crate::chars::all_space(seq!['\n'])) by {
        assert(crate::chars::is_space_char('\n'));
    }
    assert(c2.in_block == false);
    assert(c3.doc == dd);
    // the fold over the whole token stream
    let tseq = seq![open_tok, text_tok, close_tok, nl_tok];
    assert(tseq.skip(1) =~= seq![text_tok, close_tok, nl_tok]);
    assert(seq![text_tok, close_tok, nl_tok].skip(1) =~= seq![close_tok, nl_tok]);
    assert(seq![close_tok, nl_tok].skip(1) =~= seq![nl_tok]);
    assert(seq![nl_tok].skip(1) =~= Seq::<crate::token::MarkTokenV>::empty());
    assert(crate::deserialize::build_run(st0, tseq, avail) == crate::deserialize::build_run(
        c0,
        seq![text_tok, close_tok, nl_tok],
        avail,
    ));
    assert(crate::deserialize::build_run(c0, seq![text_tok, close_tok, nl_tok], avail)
        == crate::deserialize::build_run(c1, seq![close_tok, nl_tok], avail));
    assert(crate::deserialize::build_run(c1, seq![close_tok, nl_tok], avail)
        == crate::deserialize::build_run(c2, seq![nl_tok], avail));
    assert(crate::deserialize::build_run(c2, seq![nl_tok], avail) == crate::deserialize::build_run(
        c3,
        Seq::empty(),
        avail,
    ));
    assert(crate::deserialize::build_run(st0, tseq, avail) == c3);
    assert(crate::deserialize::deserialize_spec(full, avail) == c3.doc);
    assert(c3.doc =~= d);
}

/// The heading tag written `h` followed by the level character.
pub open spec fn h_tag(lvl: char) -> TagV {
    if lvl == '1' {
        TagV::H1
    } else if lvl == '2' {
        TagV::H2
    } else if lvl == '3' {
        TagV::H3
    } else {
        TagV::H4
    }
}

/// The style tag written as a one-letter element name.
pub open spec fn style_tag(c: char) -> TagV {
    if c == 'b' {
        TagV::Bold
    } else if c == 'i' {
        TagV::Italic
    } else if c == 'u' {
        TagV::Underline
    } else {
        TagV::Strikethrough
    }
}

proof fn lemma_not_in_singleton(a: TagV, b: TagV)
    requires
        a != b,
    ensures
        !seq![a].contains(b),
{
    if seq![a].contains(b) {
        let j = choose|j: int| 0 <= j < seq![a].len() && seq![a][j] == b;
        assert(seq![a][0] == a);
    }
}

/// Round trip of a single heading line: serializing and then
/// deserializing a one-line document uniformly tagged with one heading
/// level reproduces it exactly.
#[verifier::rlimit(100)]
pub proof fn lemma_round_trip_heading(d: DocV, lvl: char, avail: Seq<Seq<char>>)
    requires
        lvl == '1' || lvl == '2' || lvl == '3' || lvl == '4',
        single_line_doc(d, seq![h_tag(lvl)]),
    ensures
        crate::deserialize::deserialize_spec(crate::serialize::serialize_spec(d), avail) == d,
{
    let t = d.text;
    let len = t.len() as int;
    let h = h_tag(lvl);
    let m = seq![h];
    lemma_not_in_singleton(h, TagV::BulletList);
    lemma_not_in_singleton(h, TagV::NumberedList);
    lemma_serialize_single_line(d, m);
    let k = crate::serialize::line_block(d, 0, len);
    assert(d.marks[0] == m);
    assert(m[0] == h);
    assert(m.contains(h));
    assert(d.has_mark(0, h));
    assert(d.has_mark_in(0, len, h));
    assert forall|x: TagV| x != h implies !d.has_mark_in(0, len, x) by {
        if d.has_mark_in(0, len, x) {
            let p = choose|p: int| 0 <= p < len && d.has_mark(p, x);
            lemma_not_in_singleton(h, x);
        }
    }
    assert(crate::serialize::open_of(k) =~= seq!['<', 'h', lvl, '>']);
    assert(crate::serialize::close_of(k) =~= seq!['<', '/', 'h', lvl, '>']);
    assert(m.last() == h);
    assert(m.drop_last() =~= Seq::<TagV>::empty());
    assert(crate::doc::inline_only(Seq::<TagV>::empty()) =~= Seq::<TagV>::empty());
    assert(crate::doc::inline_only(m) =~= Seq::<TagV>::empty());
    assert(crate::serialize::opens_seq(Seq::<TagV>::empty()) =~= Seq::<char>::empty());
    assert(crate::serialize::closes_seq(Seq::<TagV>::empty()) =~= Seq::<char>::empty());
    let e = crate::serialize::escape_text(t);
    let full = crate::serialize::serialize_spec(d);
    assert(full =~= seq!['<', 'h', lvl, '>'] + (e + (seq!['<', '/', 'h', lvl, '>'] + seq!['\n'])));
    // tokenizing
    let s0 = crate::tokenize::init_tok_state();
    lemma_tok_run_concat(
        s0,
        seq!['<', 'h', lvl, '>'],
        e + (seq!['<', '/', 'h', lvl, '>'] + seq!['\n']),
    );
    lemma_tok_open2(s0, 'h', lvl);
    let s1 = crate::tokenize::tok_run(s0, seq!['<', 'h', lvl, '>']);
    lemma_tok_run_concat(s1, e, seq!['<', '/', 'h', lvl, '>'] + seq!['\n']);
    lemma_escape_no_lt(t);
    lemma_data_accum(s1, e);
    let s2 = crate::tokenize::tok_run(s1, e);
    assert(s2.text_buf =~= e);
    assert(e.len() > 0);
    lemma_decode_escape(t);
    lemma_tok_run_concat(s2, seq!['<', '/', 'h', lvl, '>'], seq!['\n']);
    lemma_tok_close2(s2, 'h', lvl, s2.tokens.push(crate::token::MarkTokenV::Text(t)));
    let s3 = crate::tokenize::tok_run(s2, seq!['<', '/', 'h', lvl, '>']);
    lemma_tok_nl_finish(s3);
    let toks = crate::tokenize::tokenize_spec(full);
    let open_tok = crate::token::MarkTokenV::Open(seq!['h', lvl], Seq::empty());
    let text_tok = crate::token::MarkTokenV::Text(t);
    let close_tok = crate::token::MarkTokenV::Close(seq!['h', lvl]);
    let nl_tok = crate::token::MarkTokenV::Text(seq!['\n']);
    assert(toks =~= seq![open_tok, text_tok, close_tok, nl_tok]);
    // building back
    let st0 = crate::deserialize::build_init();
    let kind = crate::deserialize::elem_kind_of(seq!['h', lvl]);
    assert(kind is KH1 || kind is KH2 || kind is KH3 || kind is KH4);
    assert(crate::deserialize::is_block_kind(kind));
    let c0 = crate::deserialize::build_step(st0, open_tok, avail);
    let fr = crate::token::FrameV { name: seq!['h', lvl], attrs: Seq::empty(), start: 0 };
    assert(c0 =~= (crate::deserialize::BuildV {
        doc: crate::doc::empty_doc(),
        stack: seq![fr],
        lists: Seq::empty(),
        counters: Seq::empty(),
        need_nl: true,
        in_block: true,
    }));
    let c1 = crate::deserialize::build_step(c0, text_tok, avail);
    let dd = crate::deserialize::doc_append(crate::doc::empty_doc(), t);
    assert(dd.text =~= t);
    assert forall|i: int| 0 <= i < dd.marks.len() implies dd.marks[i] == Seq::<TagV>::empty() by {
        assert(crate::doc::stretch_tags(crate::doc::empty_doc(), 0) =~= Seq::<TagV>::empty());
        assert(dd.marks[i] =~= Seq::<TagV>::empty());
    }
    assert(c1 =~= (crate::deserialize::BuildV { doc: dd, ..c0 }));
    let c2 = crate::deserialize::build_step(c1, close_tok, avail);
    assert(crate::deserialize::frame_rpos(seq![fr], seq!['h', lvl]) == Some(0int)) by {
        assert(seq![fr].last() == fr);
    }
    assert(seq![fr].remove(0) =~= Seq::<crate::token::FrameV>::empty());
    let fin = crate::doc::apply_tag_spec(dd, h, 0, len);
    assert(crate::deserialize::close_frame_doc(dd, Seq::empty(), fr, len) == fin);
    assert(fin.text == dd.text);
    assert forall|i: int| 0 <= i < fin.marks.len() implies fin.marks[i] == d.marks[i] by {
        assert(crate::doc::without_conflicts(Seq::<TagV>::empty(), h) =~= Seq::<TagV>::empty());
        assert(crate::doc::apply_at(Seq::<TagV>::empty(), h) =~= m);
        assert(dd.marks[i] == Seq::<TagV>::empty());
    }
    assert(fin.marks =~= d.marks);
    assert(fin.anchors =~= d.anchors);
    assert(fin.pending =~= d.pending);
    assert(fin =~= d);
    assert(c2.doc == fin);
    assert(c2.in_block == false);
    let c3 = crate::deserialize::build_step(c2, nl_tok, avail);
    assert(crate::chars::all_space(seq!['\n'])) by {
        assert(crate::chars::is_space_char('\n'));
    }
    assert(c3.doc == fin);
    let tseq = seq![open_tok, text_tok, close_tok, nl_tok];
    assert(tseq.skip(1) =~= seq![text_tok, close_tok, nl_tok]);
    assert(seq![text_tok, close_tok, nl_tok].skip(1) =~= seq![close_tok, nl_tok]);
    assert(seq![close_tok, nl_tok].skip(1) =~= seq![nl_tok]);
    assert(seq![nl_tok].skip(1) =~= Seq::<crate::token::MarkTokenV>::empty());
    assert(crate::deserialize::build_run(st0, tseq, avail) == crate::deserialize::build_run(
        c0,
        seq![text_tok, close_tok, nl_tok],
        avail,
    ));
    assert(crate::deserialize::build_run(c0, seq![text_tok, close_tok, nl_tok], avail)
        == crate::deserialize::build_run(c1, seq![close_tok, nl_tok], avail));
    assert(crate::deserialize::build_run(c1, seq![close_tok, nl_tok], avail)
        == crate::deserialize::build_run(c2, seq![nl_tok], avail));
    assert(crate::deserialize::build_run(c2, seq![nl_tok], avail) == crate::deserialize::build_run(
        c3,
        Seq::empty(),
        avail,
    ));
    assert(crate::deserialize::build_run(st0, tseq, avail) == c3);
    assert(crate::deserialize::deserialize_spec(full, avail) == c3.doc);
    assert(c3.doc =~= d);
}

/// Round trip of a single paragraph uniformly covered by one inline
/// style: serializing and then deserializing reproduces it exactly.
#[verifier::rlimit(100)]
pub proof fn lemma_round_trip_styled_paragraph(d: DocV, c: char, avail: Seq<Seq<char>>)
    requires
        c == 'b' || c == 'i' || c == 'u' || c == 's',
        single_line_doc(d, seq![style_tag(c)]),
    ensures
        crate::deserialize::deserialize_spec(crate::serialize::serialize_spec(d), avail) == d,
{
    let t = d.text;
    let len = t.len() as int;
    let s = style_tag(c);
    let m = seq![s];
    lemma_not_in_singleton(s, TagV::BulletList);
    lemma_not_in_singleton(s, TagV::NumberedList);
    lemma_serialize_single_line(d, m);
    let k = crate::serialize::line_block(d, 0, len);
    assert forall|x: TagV| x != s implies !d.has_mark_in(0, len, x) by {
        if d.has_mark_in(0, len, x) {
            let p = choose|p: int| 0 <= p < len && d.has_mark(p, x);
            lemma_not_in_singleton(s, x);
        }
    }
    assert(k is BPara);
    assert(m.last() == s);
    assert(m.drop_last() =~= Seq::<TagV>::empty());
    assert(crate::doc::inline_only(Seq::<TagV>::empty()) =~= Seq::<TagV>::empty());
    assert(crate::doc::inline_only(m) =~= m);
    assert(m.skip(1) =~= Seq::<TagV>::empty());
    assert(crate::serialize::opens_seq(Seq::<TagV>::empty()) =~= Seq::<char>::empty());
    assert(crate::serialize::closes_seq(Seq::<TagV>::empty()) =~= Seq::<char>::empty());
    assert(crate::serialize::open_seq(s) =~= seq!['<', c, '>']);
    assert(crate::serialize::close_seq(s) =~= seq!['<', '/', c, '>']);
    assert(crate::serialize::opens_seq(m) =~= seq!['<', c, '>']);
    assert(crate::serialize::closes_seq(m) =~= seq!['<', '/', c, '>']);
    let e = crate::serialize::escape_text(t);
    let full = crate::serialize::serialize_spec(d);
    assert(full =~= seq!['<', 'p', '>'] + (seq!['<', c, '>'] + (e + (seq!['<', '/', c, '>'] + (seq![
        '<',
        '/',
        'p',
        '>',
    ] + seq!['\n'])))));
    // tokenizing
    let s0 = crate::tokenize::init_tok_state();
    lemma_tok_run_concat(
        s0,
        seq!['<', 'p', '>'],
        seq!['<', c, '>'] + (e + (seq!['<', '/', c, '>'] + (seq!['<', '/', 'p', '>'] + seq![
            '\n',
        ]))),
    );
    lemma_tok_open1(s0, 'p', s0.tokens);
    let s1 = crate::tokenize::tok_run(s0, seq!['<', 'p', '>']);
    lemma_tok_run_concat(
        s1,
        seq!['<', c, '>'],
        e + (seq!['<', '/', c, '>'] + (seq!['<', '/', 'p', '>'] + seq!['\n'])),
    );
    lemma_tok_open1(s1, c, s1.tokens);
    let s2 = crate::tokenize::tok_run(s1, seq!['<', c, '>']);
    lemma_tok_run_concat(s2, e, seq!['<', '/', c, '>'] + (seq!['<', '/', 'p', '>'] + seq!['\n']));
    lemma_escape_no_lt(t);
    lemma_data_accum(s2, e);
    let s3 = crate::tokenize::tok_run(s2, e);
    assert(s3.text_buf =~= e);
    assert(e.len() > 0);
    lemma_decode_escape(t);
    lemma_tok_run_concat(s3, seq!['<', '/', c, '>'], seq!['<', '/', 'p', '>'] + seq!['\n']);
    lemma_tok_close1(s3, c, s3.tokens.push(crate::token::MarkTokenV::Text(t)));
    let s4 = crate::tokenize::tok_run(s3, seq!['<', '/', c, '>']);
    lemma_tok_run_concat(s4, seq!['<', '/', 'p', '>'], seq!['\n']);
    assert(s4.text_buf.len() == 0);
    lemma_tok_close1(s4, 'p', s4.tokens);
    let s5 = crate::tokenize::tok_run(s4, seq!['<', '/', 'p', '>']);
    lemma_tok_nl_finish(s5);
    let toks = crate::tokenize::tokenize_spec(full);
    let open_p = crate::token::MarkTokenV::Open(seq!['p'], Seq::empty());
    let open_c = crate::token::MarkTokenV::Open(seq![c], Seq::empty());
    let text_tok = crate::token::MarkTokenV::Text(t);
    let close_c = crate::token::MarkTokenV::Close(seq![c]);
    let close_p = crate::token::MarkTokenV::Close(seq!['p']);
    let nl_tok = crate::token::MarkTokenV::Text(seq!['\n']);
    assert(toks =~= seq![open_p, open_c, text_tok, close_c, close_p, nl_tok]);
    // building back
    let st0 = crate::deserialize::build_init();
    assert(crate::deserialize::elem_kind_of(seq!['p']) is KPara);
    let kind_c = crate::deserialize::elem_kind_of(seq![c]);
    assert(seq![c].len() == 1 && seq![c][0] == c);
    if c == 'b' {
        assert(kind_c is KBold);
    } else if c == 'i' {
        assert(kind_c is KItalic);
    } else if c == 'u' {
        assert(kind_c is KUnderline);
    } else {
        assert(kind_c is KStrike);
    }
    assert(kind_c is KBold || kind_c is KItalic || kind_c is KUnderline || kind_c is KStrike);
    assert(!crate::deserialize::is_block_kind(kind_c));
    let c0 = crate::deserialize::build_step(st0, open_p, avail);
    let frp = crate::token::FrameV { name: seq!['p'], attrs: Seq::empty(), start: 0 };
    assert(c0 =~= (crate::deserialize::BuildV {
        doc: crate::doc::empty_doc(),
        stack: seq![frp],
        lists: Seq::empty(),
        counters: Seq::empty(),
        need_nl: true,
        in_block: true,
    }));
    let c1 = crate::deserialize::build_step(c0, open_c, avail);
    let frc = crate::token::FrameV { name: seq![c], attrs: Seq::empty(), start: 0 };
    assert(seq![frp].push(frc) =~= seq![frp, frc]);
    assert(c1 =~= (crate::deserialize::BuildV { stack: seq![frp, frc], ..c0 }));
    let c2 = crate::deserialize::build_step(c1, text_tok, avail);
    let dd = crate::deserialize::doc_append(crate::doc::empty_doc(), t);
    assert(dd.text =~= t);
    assert forall|i: int| 0 <= i < dd.marks.len() implies dd.marks[i] == Seq::<TagV>::empty() by {
        assert(crate::doc::stretch_tags(crate::doc::empty_doc(), 0) =~= Seq::<TagV>::empty());
        assert(dd.marks[i] =~= Seq::<TagV>::empty());
    }
    assert(c2 =~= (crate::deserialize::BuildV { doc: dd, ..c1 }));
    let c3 = crate::deserialize::build_step(c2, close_c, avail);
    assert(crate::deserialize::frame_rpos(seq![frp, frc], seq![c]) == Some(1int)) by {
        assert(seq![frp, frc].last() == frc);
    }
    assert(seq![frp, frc].remove(1) =~= seq![frp]);
    let fin = crate::doc::apply_tag_spec(dd, s, 0, len);
    assert(seq![frp, frc][1] == frc);
    assert(crate::deserialize::close_frame_doc(dd, Seq::empty(), frc, len) == fin);
    assert forall|i: int| 0 <= i < fin.marks.len() implies fin.marks[i] == d.marks[i] by {
        assert(crate::doc::without_conflicts(Seq::<TagV>::empty(), s) =~= Seq::<TagV>::empty());
        assert(crate::doc::apply_at(Seq::<TagV>::empty(), s) =~= m);
        assert(dd.marks[i] == Seq::<TagV>::empty());
    }
    assert(fin.text == dd.text);
    assert(fin.marks =~= d.marks);
    assert(fin.anchors =~= d.anchors);
    assert(fin.pending =~= d.pending);
    assert(fin =~= d);
    assert(c3 =~= (crate::deserialize::BuildV { doc: fin, stack: seq![frp], ..c2 }));
    let c4 = crate::deserialize::build_step(c3, close_p, avail);
    assert(crate::deserialize::frame_rpos(seq![frp], seq!['p']) == Some(0int)) by {
        assert(seq![frp].last() == frp);
    }
    assert(seq![frp].remove(0) =~= Seq::<crate::token::FrameV>::empty());
    assert(c4.doc == fin);
    assert(c4.in_block == false);
    let c5 = crate::deserialize::build_step(c4, nl_tok, avail);
    assert(crate::chars::all_space(seq!['\n'])) by {
        assert(crate::chars::is_space_char('\n'));
    }
    assert(c5.doc == fin);
    let tseq = seq![open_p, open_c, text_tok, close_c, close_p, nl_tok];
    assert(tseq.skip(1) =~= seq![open_c, text_tok, close_c, close_p, nl_tok]);
    assert(seq![open_c, text_tok, close_c, close_p, nl_tok].skip(1) =~= seq![text_tok, close_c,
        close_p, nl_tok]);
    assert(seq![text_tok, close_c, close_p, nl_tok].skip(1) =~= seq![close_c, close_p, nl_tok]);
    assert(seq![close_c, close_p, nl_tok].skip(1) =~= seq![close_p, nl_tok]);
    assert(seq![close_p, nl_tok].skip(1) =~= seq![nl_tok]);
    assert(seq![nl_tok].skip(1) =~= Seq::<crate::token::MarkTokenV>::empty());
    assert(crate::deserialize::build_run(st0, tseq, avail) == crate::deserialize::build_run(
        c0,
        seq![open_c, text_tok, close_c, close_p, nl_tok],
        avail,
    ));
    assert(crate::deserialize::build_run(c0, seq![open_c, text_tok, close_c, close_p, nl_tok], avail)
        == crate::deserialize::build_run(c1, seq![text_tok, close_c, close_p, nl_tok], avail));
    assert(crate::deserialize::build_run(c1, seq![text_tok, close_c, close_p, nl_tok], avail)
        == crate::deserialize::build_run(c2, seq![close_c, close_p, nl_tok], avail));
    assert(crate::deserialize::build_run(c2, seq![close_c, close_p, nl_tok], avail)
        == crate::deserialize::build_run(c3, seq![close_p, nl_tok], avail));
    assert(crate::deserialize::build_run(c3, seq![close_p, nl_tok], avail)
        == crate::deserialize::build_run(c4, seq![nl_tok], avail));
    assert(crate::deserialize::build_run(c4, seq![nl_tok], avail) == crate::deserialize::build_run(
        c5,
        Seq::empty(),
        avail,
    ));
    assert(crate::deserialize::build_run(st0, tseq, avail) == c5);
    assert(crate::deserialize::deserialize_spec(full, avail) == c5.doc);
    assert(c5.doc =~= d);
}

/// A document of plain paragraph lines: every position untagged, no
/// embedded objects, no list-prefix-shaped line, nothing in the side
/// tables, and no trailing separator (which would add the implicit
/// trailing empty line that serialization skips).
pub open spec fn plain_doc(d: DocV) -> bool {
    &&& d.wf()
    &&& d.anchors.len() == 0
    &&& d.pending.len() == 0
    &&& forall|i: int| 0 <= i < d.marks.len() ==> #[trigger] d.marks[i] == Seq::<TagV>::empty()
    &&& forall|i: int| 0 <= i < d.text.len() ==> #[trigger] d.text[i] != crate::doc::OBJ_CHAR
    &&& (d.text.len() == 0 || d.text.last() != '\n')
    &&& forall|a: int|
        0 <= a < d.text.len() && (a == 0 || d.text[a - 1] == '\n') ==> list_prefix_len(
            #[trigger] d.text.subrange(a, crate::serialize::scan_nl(d.text, a)),
        ) == 0
}

proof fn lemma_scan_nl_props(text: Seq<char>, a: int)
    requires
        0 <= a <= text.len(),
    ensures
        a <= crate::serialize::scan_nl(text, a) <= text.len(),
        forall|j: int|
            a <= j < crate::serialize::scan_nl(text, a) ==> #[trigger] text[j] != '\n',
        crate::serialize::scan_nl(text, a) == text.len() || text[crate::serialize::scan_nl(
            text,
            a,
        )] == '\n',
    decreases text.len() - a,
{
    if a < text.len() && text[a] != '\n' {
        lemma_scan_nl_props(text, a + 1);
    }
}

/// The token stream of a plain paragraph document from line start `a`:
/// each line as one paragraph element around its text, with a whitespace
/// text token between consecutive lines.
pub open spec fn ptoks_from(d: DocV, a: int) -> Seq<crate::token::MarkTokenV>
    decreases d.text.len() + 1 - a,
{
    if a < 0 || a >= d.text.len() {
        Seq::empty()
    } else {
        let b0 = crate::serialize::scan_nl(d.text, a);
        let b = if b0 < a {
            a
        } else if b0 > d.text.len() {
            d.text.len() as int
        } else {
            b0
        };
        let line = d.text.subrange(a, b);
        let core = seq![crate::token::MarkTokenV::Open(seq!['p'], Seq::empty())] + (if line.len()
            > 0 {
            seq![crate::token::MarkTokenV::Text(line)]
        } else {
            Seq::empty()
        }) + seq![crate::token::MarkTokenV::Close(seq!['p'])];
        if b + 1 < d.text.len() {
            core + seq![crate::token::MarkTokenV::Text(seq!['\n'])] + ptoks_from(d, b + 1)
        } else {
            core
        }
    }
}

/// Tokenizing the serialized lines from `a` onward: every line becomes a
/// paragraph token group, and a final separator stays in the buffer.
proof fn lemma_tok_lines(d: DocV, a: int, st: crate::tokenize::TokStateV)
    requires
        plain_doc(d),
        0 <= a < d.text.len(),
        a == 0 || d.text[a - 1] == '\n',
        st.mode is Data,
    ensures
        crate::tokenize::tok_run(
            st,
            crate::serialize::ser_lines(d, a, crate::serialize::CurList::NoList),
        ) == (crate::tokenize::TokStateV {
            mode: crate::tokenize::TokMode::Data,
            text_buf: seq!['\n'],
            name_buf: Seq::empty(),
            attrs: Seq::empty(),
            tokens: (if st.text_buf.len() > 0 {
                st.tokens.push(
                    crate::token::MarkTokenV::Text(crate::token::decode_entities(st.text_buf)),
                )
            } else {
                st.tokens
            }) + ptoks_from(d, a),
            ..st
        }),
    decreases d.text.len() - a,
{
    let len = d.text.len() as int;
    lemma_scan_nl_props(d.text, a);
    let b = crate::serialize::scan_nl(d.text, a);
    assert(b < len ==> d.text[b] == '\n');
    assert(b != len - 1) by {
        if b == len - 1 {
            assert(d.text.last() == '\n');
        }
    }
    let k = crate::serialize::line_block(d, a, b);
    assert forall|x: TagV| !d.has_mark_in(a, b, x) by {
        if d.has_mark_in(a, b, x) {
            let p = choose|p: int| a <= p < b && d.has_mark(p, x);
            assert(d.marks[p] == Seq::<TagV>::empty());
        }
    }
    assert(k is BPara);
    let line = d.text.subrange(a, b);
    let e = crate::serialize::escape_text(line);
    // the line's inline content is just its escaped text
    assert(crate::serialize::ser_segs(d, b, b) =~= Seq::<char>::empty());
    if line.len() > 0 {
        lemma_seg_end_whole(d, a, a + 1, b);
        assert(line.skip(0) =~= line);
        assert(list_prefix_len(line) == 0);
        assert(crate::doc::inline_only(d.marks[a]) =~= Seq::<TagV>::empty());
        assert(crate::serialize::opens_seq(Seq::<TagV>::empty()) =~= Seq::<char>::empty());
        assert(crate::serialize::closes_seq(Seq::<TagV>::empty()) =~= Seq::<char>::empty());
        assert(crate::serialize::ser_segs(d, a, b) =~= e);
    } else {
        assert(e =~= Seq::<char>::empty());
        assert(crate::serialize::ser_segs(d, a, b) =~= e);
    }
    let rest_str = crate::serialize::ser_lines(d, b + 1, crate::serialize::CurList::NoList);
    assert(crate::serialize::ser_lines(d, a, crate::serialize::CurList::NoList) =~= seq!['<', 'p',
        '>'] + (e + (seq!['<', '/', 'p', '>'] + (seq!['\n'] + rest_str))));
    // step the tokenizer through the line
    let fl = if st.text_buf.len() > 0 {
        st.tokens.push(crate::token::MarkTokenV::Text(crate::token::decode_entities(st.text_buf)))
    } else {
        st.tokens
    };
    lemma_tok_run_concat(st, seq!['<', 'p', '>'], e + (seq!['<', '/', 'p', '>'] + (seq!['\n']
        + rest_str)));
    lemma_tok_open1(st, 'p', fl);
    let s1 = crate::tokenize::tok_run(st, seq!['<', 'p', '>']);
    lemma_tok_run_concat(s1, e, seq!['<', '/', 'p', '>'] + (seq!['\n'] + rest_str));
    lemma_escape_no_lt(line);
    lemma_data_accum(s1, e);
    let s2 = crate::tokenize::tok_run(s1, e);
    assert(s2.text_buf =~= e);
    lemma_decode_escape(line);
    let fl2 = if e.len() > 0 {
        s2.tokens.push(crate::token::MarkTokenV::Text(line))
    } else {
        s2.tokens
    };
    assert(e.len() > 0 <==> line.len() > 0);
    lemma_tok_run_concat(s2, seq!['<', '/', 'p', '>'], seq!['\n'] + rest_str);
    lemma_tok_close1(s2, 'p', fl2);
    let s3 = crate::tokenize::tok_run(s2, seq!['<', '/', 'p', '>']);
    lemma_tok_run_concat(s3, seq!['\n'], rest_str);
    assert(forall|i: int| 0 <= i < seq!['\n'].len() ==> seq!['\n'][i] != '<');
    lemma_data_accum(s3, seq!['\n']);
    let s4 = crate::tokenize::tok_run(s3, seq!['\n']);
    assert(s4.text_buf =~= seq!['\n']);
    let core = seq![crate::token::MarkTokenV::Open(seq!['p'], Seq::empty())] + (if line.len() > 0 {
        seq![crate::token::MarkTokenV::Text(line)]
    } else {
        Seq::<crate::token::MarkTokenV>::empty()
    }) + seq![crate::token::MarkTokenV::Close(seq!['p'])];
    assert(s4.tokens =~= fl + core);
    if b + 1 < len {
        assert(d.text[b] == '\n');
        lemma_tok_lines(d, b + 1, s4);
        let fin = crate::tokenize::tok_run(s4, rest_str);
        assert(s4.text_buf.len() > 0);
        assert(seq!['\n'].skip(1) =~= Seq::<char>::empty());
        assert(crate::token::decode_entities(Seq::<char>::empty()) =~= Seq::<char>::empty());
        assert(crate::token::decode_entities(seq!['\n']) =~= seq!['\n']);
        assert(fin.tokens =~= fl + core + seq![crate::token::MarkTokenV::Text(seq!['\n'])]
            + ptoks_from(d, b + 1));
        assert(ptoks_from(d, a) =~= core + seq![crate::token::MarkTokenV::Text(seq!['\n'])]
            + ptoks_from(d, b + 1));
        assert(fin.tokens =~= fl + ptoks_from(d, a));
        assert(fin =~= (crate::tokenize::TokStateV {
            mode: crate::tokenize::TokMode::Data,
            text_buf: seq!['\n'],
            name_buf: Seq::empty(),
            attrs: Seq::empty(),
            tokens: fl + ptoks_from(d, a),
            ..st
        }));
    } else {
        assert(b == len);
        assert(rest_str =~= Seq::<char>::empty());
        assert(crate::tokenize::tok_run(s4, rest_str) == s4);
        assert(ptoks_from(d, a) =~= core);
        assert(s4 =~= (crate::tokenize::TokStateV {
            mode: crate::tokenize::TokMode::Data,
            text_buf: seq!['\n'],
            name_buf: Seq::empty(),
            attrs: Seq::empty(),
            tokens: fl + ptoks_from(d, a),
            ..st
        }));
    }
}

/// Folding the builder over a concatenation is folding it over the parts
/// in turn.
proof fn lemma_build_run_concat(
    st: crate::deserialize::BuildV,
    x: Seq<crate::token::MarkTokenV>,
    y: Seq<crate::token::MarkTokenV>,
    avail: Seq<Seq<char>>,
)
    ensures
        crate::deserialize::build_run(st, x + y, avail) == crate::deserialize::build_run(
            crate::deserialize::build_run(st, x, avail),
            y,
            avail,
        ),
    decreases x.len(),
{
    if x.len() == 0 {
        assert(x + y =~= y);
    } else {
        assert((x + y)[0] == x[0]);
        assert((x + y).skip(1) =~= x.skip(1) + y);
        lemma_build_run_concat(crate::deserialize::build_step(st, x[0], avail), x.skip(1), y, avail);
    }
}

/// Folding the builder over the paragraph token stream rebuilds the
/// document line by line.
#[verifier::rlimit(100)]
proof fn lemma_build_plain(d: DocV, a: int, st: crate::deserialize::BuildV, avail: Seq<Seq<char>>)
    requires
        plain_doc(d),
        0 <= a < d.text.len(),
        a == 0 || d.text[a - 1] == '\n',
        st.doc.text == d.text.take(
            if a == 0 {
                0int
            } else {
                a - 1
            },
        ),
        st.doc.marks.len() == st.doc.text.len(),
        forall|i: int|
            0 <= i < st.doc.marks.len() ==> #[trigger] st.doc.marks[i] == Seq::<TagV>::empty(),
        st.doc.anchors.len() == 0,
        st.doc.pending.len() == 0,
        st.stack.len() == 0,
        st.lists.len() == 0,
        st.counters.len() == 0,
        st.need_nl == (a > 0),
        st.in_block == false,
    ensures
        crate::deserialize::build_run(
            st,
            ptoks_from(d, a).push(crate::token::MarkTokenV::Text(seq!['\n'])),
            avail,
        ).doc == d,
    decreases d.text.len() - a,
{
    let len = d.text.len() as int;
    lemma_scan_nl_props(d.text, a);
    let b = crate::serialize::scan_nl(d.text, a);
    assert(b != len - 1) by {
        if b == len - 1 {
            assert(d.text.last() == '\n');
        }
    }
    let line = d.text.subrange(a, b);
    let open_tok = crate::token::MarkTokenV::Open(seq!['p'], Seq::empty());
    let text_tok = crate::token::MarkTokenV::Text(line);
    let close_tok = crate::token::MarkTokenV::Close(seq!['p']);
    let nl_tok = crate::token::MarkTokenV::Text(seq!['\n']);
    assert(crate::chars::all_space(seq!['\n'])) by {
        assert(crate::chars::is_space_char('\n'));
    }
    assert(crate::deserialize::elem_kind_of(seq!['p']) is KPara);
    // opening the paragraph appends the separator of the previous line
    let c0 = crate::deserialize::build_step(st, open_tok, avail);
    let d1 = if a > 0 {
        crate::deserialize::doc_append(st.doc, seq!['\n'])
    } else {
        st.doc
    };
    assert(d1.text =~= d.text.take(a));
    assert forall|i: int| 0 <= i < d1.marks.len() implies d1.marks[i] == Seq::<TagV>::empty() by {
        if a > 0 {
            assert(crate::doc::stretch_tags(st.doc, st.doc.text.len() as int)
                =~= Seq::<TagV>::empty());
            if i < st.doc.marks.len() {
                assert(d1.marks[i] == st.doc.marks[i]);
            } else {
                assert(d1.marks[i] =~= Seq::<TagV>::empty());
            }
        }
    }
    assert(d1.marks.len() == d1.text.len());
    assert(d1.anchors.len() == 0);
    assert(d1.pending.len() == 0);
    let frp = crate::token::FrameV { name: seq!['p'], attrs: Seq::empty(), start: a };
    assert(c0 =~= (crate::deserialize::BuildV {
        doc: d1,
        stack: st.stack.push(frp),
        need_nl: true,
        in_block: true,
        ..st
    }));
    assert(st.stack.push(frp) =~= seq![frp]);
    // the line's text
    let d2 = if line.len() > 0 {
        crate::deserialize::doc_append(d1, line)
    } else {
        d1
    };
    assert(d2.text =~= d.text.take(b));
    assert forall|i: int| 0 <= i < d2.marks.len() implies d2.marks[i] == Seq::<TagV>::empty() by {
        if line.len() > 0 {
            assert(crate::doc::stretch_tags(d1, d1.text.len() as int) =~= Seq::<TagV>::empty());
            if i < d1.marks.len() {
                assert(d2.marks[i] == d1.marks[i]);
            } else {
                assert(d2.marks[i] =~= Seq::<TagV>::empty());
            }
        }
    }
    assert(d2.marks.len() == d2.text.len());
    assert(d2.anchors.len() == 0);
    assert(d2.pending.len() == 0);
    let c1 = if line.len() > 0 {
        crate::deserialize::build_step(c0, text_tok, avail)
    } else {
        c0
    };
    assert(c1 =~= (crate::deserialize::BuildV { doc: d2, ..c0 }));
    // closing the paragraph
    let c2 = crate::deserialize::build_step(c1, close_tok, avail);
    assert(crate::deserialize::frame_rpos(seq![frp], seq!['p']) == Some(0int)) by {
        assert(seq![frp].last() == frp);
    }
    assert(seq![frp].remove(0) =~= Seq::<crate::token::FrameV>::empty());
    assert(c2 =~= (crate::deserialize::BuildV {
        doc: d2,
        stack: Seq::empty(),
        in_block: false,
        ..c1
    }));
    // the separator token leaves the state unchanged
    assert(crate::deserialize::build_step(c2, nl_tok, avail) == c2);
    // walk the token stream
    let core = seq![open_tok] + (if line.len() > 0 {
        seq![text_tok]
    } else {
        Seq::<crate::token::MarkTokenV>::empty()
    }) + seq![close_tok];
    if line.len() > 0 {
        let core3 = seq![open_tok, text_tok, close_tok];
        assert(core =~= core3);
        assert(core3.skip(1) =~= seq![text_tok, close_tok]);
        assert(seq![text_tok, close_tok].skip(1) =~= seq![close_tok]);
        assert(seq![close_tok].skip(1) =~= Seq::<crate::token::MarkTokenV>::empty());
        assert(crate::deserialize::build_run(st, core3, avail) == crate::deserialize::build_run(
            c0,
            seq![text_tok, close_tok],
            avail,
        ));
        assert(crate::deserialize::build_run(c0, seq![text_tok, close_tok], avail)
            == crate::deserialize::build_run(c1, seq![close_tok], avail));
        assert(crate::deserialize::build_run(c1, seq![close_tok], avail)
            == crate::deserialize::build_run(c2, Seq::empty(), avail));
        assert(crate::deserialize::build_run(st, core, avail) == c2);
    } else {
        let core2 = seq![open_tok, close_tok];
        assert(core =~= core2);
        assert(core2.skip(1) =~= seq![close_tok]);
        assert(seq![close_tok].skip(1) =~= Seq::<crate::token::MarkTokenV>::empty());
        assert(crate::deserialize::build_run(st, core2, avail) == crate::deserialize::build_run(
            c0,
            seq![close_tok],
            avail,
        ));
        assert(crate::deserialize::build_run(c0, seq![close_tok], avail)
            == crate::deserialize::build_run(c2, Seq::empty(), avail));
        assert(crate::deserialize::build_run(st, core, avail) == c2);
    }
    assert(seq![nl_tok].skip(1) =~= Seq::<crate::token::MarkTokenV>::empty());
    assert(crate::deserialize::build_run(c2, seq![nl_tok], avail) == c2);
    if b + 1 < len {
        assert(d.text[b] == '\n');
        assert(ptoks_from(d, a) =~= core + seq![nl_tok] + ptoks_from(d, b + 1));
        let tail = ptoks_from(d, b + 1).push(nl_tok);
        let whole = ptoks_from(d, a).push(nl_tok);
        assert(whole =~= core + (seq![nl_tok] + tail));
        lemma_build_run_concat(st, core, seq![nl_tok] + tail, avail);
        lemma_build_run_concat(c2, seq![nl_tok], tail, avail);
        lemma_build_plain(d, b + 1, c2, avail);
        assert(crate::deserialize::build_run(st, whole, avail).doc == d);
        assert(crate::deserialize::build_run(
            st,
            ptoks_from(d, a).push(nl_tok),
            avail,
        ).doc == d);
    } else {
        assert(b == len);
        assert(ptoks_from(d, a) =~= core);
        let whole = ptoks_from(d, a).push(nl_tok);
        assert(whole =~= core + seq![nl_tok]);
        lemma_build_run_concat(st, core, seq![nl_tok], avail);
        assert(crate::deserialize::build_run(st, whole, avail) == c2);
        assert(d2.text =~= d.text);
        assert(d2.marks =~= d.marks);
        assert(d2.anchors =~= d.anchors);
        assert(d2.pending =~= d.pending);
        assert(d2 =~= d);
    }
}

/// Round trip of a whole document of plain paragraph lines: serializing
/// and then deserializing reproduces it exactly, whatever image paths
/// are available.
pub proof fn lemma_round_trip_plain_document(d: DocV, avail: Seq<Seq<char>>)
    requires
        plain_doc(d),
    ensures
        crate::deserialize::deserialize_spec(crate::serialize::serialize_spec(d), avail) == d,
{
    let full = crate::serialize::serialize_spec(d);
    let s0 = crate::tokenize::init_tok_state();
    let st0 = crate::deserialize::build_init();
    if d.text.len() == 0 {
        assert(full =~= Seq::<char>::empty());
        assert(crate::tokenize::tok_run(s0, full) == s0);
        assert(crate::tokenize::tokenize_spec(full) =~= Seq::<crate::token::MarkTokenV>::empty());
        assert(crate::deserialize::build_run(
            st0,
            crate::tokenize::tokenize_spec(full),
            avail,
        ) == st0);
        assert(crate::doc::empty_doc().marks =~= d.marks);
        assert(crate::doc::empty_doc().anchors =~= d.anchors);
        assert(crate::doc::empty_doc().pending =~= d.pending);
        assert(crate::doc::empty_doc().text =~= d.text);
        assert(crate::doc::empty_doc() =~= d);
    } else {
        lemma_tok_lines(d, 0, s0);
        let fin = crate::tokenize::tok_run(
            s0,
            crate::serialize::ser_lines(d, 0, crate::serialize::CurList::NoList),
        );
        assert(fin.text_buf == seq!['\n']);
        assert(seq!['\n'].skip(1) =~= Seq::<char>::empty());
        assert(crate::token::decode_entities(Seq::<char>::empty()) =~= Seq::<char>::empty());
        assert(crate::token::decode_entities(seq!['\n']) =~= seq!['\n']);
        assert(crate::tokenize::tok_finish(fin) =~= ptoks_from(d, 0).push(
            crate::token::MarkTokenV::Text(seq!['\n']),
        ));
        assert(crate::tokenize::tokenize_spec(full) =~= ptoks_from(d, 0).push(
            crate::token::MarkTokenV::Text(seq!['\n']),
        ));
        assert(st0.doc.text =~= d.text.take(0));
        lemma_build_plain(d, 0, st0, avail);
    }
}

} // verus!
