//! The block and list editing operations: inline toggling, heading
//! toggling, list toggling with physical prefix text, Enter-key list
//! continuation, link insertion and color application.
//!
//! List prefixes are ordinary buffer text (`"  \u{2022} "` for bullets,
//! `"  1. "` and so on for numbers), so they take part in cursor movement
//! and must be recognized, stripped and reinserted exactly.

use vstd::prelude::*;
use crate::chars::{
    all_space,
    all_space_exec,
    is_digit,
    is_digit_char,
    all_digits,
    digits_val,
    dec_seq,
    usize_to_chars,
    parse_digits_small,
};
use crate::tag::{Tag, TagV, is_heading_v, is_list_v};
use crate::doc::{
    Document,
    DocV,
    dup_chars,
    apply_tag_spec,
    remove_tag_spec,
    remove_conflicts_spec,
    delete_range_spec,
    insert_text_spec,
    toggle_pending_spec,
    queue_pending_spec,
    is_line_range,
    line_count_of,
    nl_count,
    lemma_nl_count_mono,
    lemma_line_range_unique,
    lemma_line_contains_offset,
};
use crate::color::valid_hex_color;

verus! {

// ── List prefix recognition ────────────────────────────────────────

/// The literal bullet prefix: two spaces, a bullet, a space.
pub open spec fn bullet_prefix() -> Seq<char> {
    seq![' ', ' ', '\u{2022}', ' ']
}

pub open spec fn is_bullet_prefix(s: Seq<char>) -> bool {
    s.len() >= 4 && s.take(4) == bullet_prefix()
}

/// The number of plain spaces at the front of `s`.
pub open spec fn lead_sp(s: Seq<char>) -> int
    decreases s.len(),
{
    if s.len() > 0 && s[0] == ' ' {
        1 + lead_sp(s.drop_first())
    } else {
        0
    }
}

pub proof fn lemma_lead_sp_is(s: Seq<char>, k: int)
    requires
        0 <= k <= s.len(),
        forall|j: int| 0 <= j < k ==> s[j] == ' ',
        k == s.len() || s[k] != ' ',
    ensures
        lead_sp(s) == k,
    decreases s.len(),
{
    if s.len() > 0 && s[0] == ' ' {
        assert(k != 0);
        assert(forall|j: int| 0 <= j < k - 1 ==> s.drop_first()[j] == s[j + 1]);
        lemma_lead_sp_is(s.drop_first(), k - 1);
    } else {
        if k > 0 {
            assert(s[0] == ' ');
        }
    }
}

pub proof fn lemma_lead_sp_nonneg(s: Seq<char>)
    ensures
        lead_sp(s) >= 0,
    decreases s.len(),
{
    if s.len() > 0 && s[0] == ' ' {
        lemma_lead_sp_nonneg(s.drop_first());
    }
}

pub proof fn lemma_lead_sp_min(s: Seq<char>, k: int)
    requires
        0 <= k <= s.len(),
        forall|j: int| 0 <= j < k ==> s[j] == ' ',
    ensures
        lead_sp(s) >= k,
    decreases k,
{
    lemma_lead_sp_nonneg(s);
    if k > 0 {
        assert(s[0] == ' ');
        assert(forall|j: int| 0 <= j < k - 1 ==> s.drop_first()[j] == s[j + 1]);
        lemma_lead_sp_min(s.drop_first(), k - 1);
    }
}

/// The number of ASCII digits in `s` starting at `from`.
pub open spec fn digit_run(s: Seq<char>, from: int) -> int
    decreases s.len() - from,
{
    if 0 <= from < s.len() && is_digit_char(s[from]) {
        1 + digit_run(s, from + 1)
    } else {
        0
    }
}

pub proof fn lemma_digit_run_is(s: Seq<char>, from: int, k: int)
    requires
        0 <= from <= s.len(),
        0 <= k,
        from + k <= s.len(),
        forall|j: int| from <= j < from + k ==> is_digit_char(s[j]),
        from + k == s.len() || !is_digit_char(s[from + k]),
    ensures
        digit_run(s, from) == k,
    decreases k,
{
    if k == 0 {
        if from < s.len() {
            assert(!is_digit_char(s[from]));
        }
    } else {
        assert(is_digit_char(s[from]));
        lemma_digit_run_is(s, from + 1, k - 1);
    }
}

pub proof fn lemma_digit_run_nonneg(s: Seq<char>, from: int)
    ensures
        digit_run(s, from) >= 0,
    decreases s.len() - from,
{
    if 0 <= from < s.len() && is_digit_char(s[from]) {
        lemma_digit_run_nonneg(s, from + 1);
    }
}

pub proof fn lemma_digit_run_min(s: Seq<char>, from: int, k: int)
    requires
        0 <= from,
        0 <= k,
        from + k <= s.len(),
        forall|j: int| from <= j < from + k ==> is_digit_char(s[j]),
    ensures
        digit_run(s, from) >= k,
    decreases k,
{
    lemma_digit_run_nonneg(s, from);
    if k > 0 {
        assert(is_digit_char(s[from]));
        lemma_digit_run_min(s, from + 1, k - 1);
    }
}

/// The recognized numbered prefix: up to two leading spaces, one to four
/// digits, a dot and a space; its whole length, or zero.
pub open spec fn numbered_prefix_len(s: Seq<char>) -> int {
    let lead = lead_sp(s);
    let d = digit_run(s, lead);
    if lead <= 2 && 1 <= d <= 4 && lead + d + 1 < s.len() && s[lead + d] == '.' && s[lead + d + 1]
        == ' ' {
        lead + d + 2
    } else {
        0
    }
}

/// The character length of the list prefix on a line, or zero when the
/// line starts with neither recognized shape.
pub open spec fn list_prefix_len(s: Seq<char>) -> int {
    if is_bullet_prefix(s) {
        4
    } else {
        numbered_prefix_len(s)
    }
}

/// The number carried by a recognized numbered prefix, and zero otherwise.
pub open spec fn list_number_of(s: Seq<char>) -> int {
    if !is_bullet_prefix(s) && numbered_prefix_len(s) > 0 {
        digits_val(s.subrange(lead_sp(s), lead_sp(s) + digit_run(s, lead_sp(s))))
    } else {
        0
    }
}

/// The length of the recognized list prefix at the front of `line`.
pub fn count_list_prefix_chars(line: &Vec<char>) -> (r: usize)
    ensures
        r == list_prefix_len(line@),
        r <= line@.len(),
{
    let len = line.len();
    if len >= 4 && line[0] == ' ' && line[1] == ' ' && line[2] == '\u{2022}' && line[3] == ' ' {
        proof {
            assert(line@.take(4) =~= bullet_prefix());
        }
        return 4;
    }
    proof {
        if is_bullet_prefix(line@) {
            assert(line@.take(4)[0] == line@[0] && line@.take(4)[1] == line@[1] && line@.take(4)[2]
                == line@[2] && line@.take(4)[3] == line@[3]);
            assert(false);
        }
    }
    let mut i: usize = 0;
    while i < len && i < 3 && line[i] == ' '
        invariant
            0 <= i <= len == line@.len(),
            i <= 3,
            forall|j: int| 0 <= j < i ==> line@[j] == ' ',
        decreases len - i,
    {
        i += 1;
    }
    if i == 3 {
        proof {
            lemma_lead_sp_min(line@, 3);
        }
        return 0;
    }
    proof {
        lemma_lead_sp_is(line@, i as int);
    }
    let mut d: usize = 0;
    while i + d < len && d < 5 && is_digit(line[i + d])
        invariant
            0 <= i <= len == line@.len(),
            i + d <= len,
            d <= 5,
            forall|j: int| i <= j < i + d ==> is_digit_char(line@[j]),
        decreases len - i - d,
    {
        d += 1;
    }
    if d == 5 {
        proof {
            lemma_digit_run_min(line@, i as int, 5);
        }
        return 0;
    }
    proof {
        lemma_digit_run_is(line@, i as int, d as int);
    }
    if d >= 1 && i + d + 1 < len && line[i + d] == '.' && line[i + d + 1] == ' ' {
        return i + d + 2;
    }
    0
}

/// The number carried by a recognized numbered prefix at the front of
/// `line`, and zero otherwise.
pub fn list_number(line: &Vec<char>) -> (r: usize)
    ensures
        r == list_number_of(line@),
        r <= 9999,
{
    let len = line.len();
    if len >= 4 && line[0] == ' ' && line[1] == ' ' && line[2] == '\u{2022}' && line[3] == ' ' {
        proof {
            assert(line@.take(4) =~= bullet_prefix());
        }
        return 0;
    }
    proof {
        if is_bullet_prefix(line@) {
            assert(line@.take(4)[0] == line@[0] && line@.take(4)[1] == line@[1] && line@.take(4)[2]
                == line@[2] && line@.take(4)[3] == line@[3]);
            assert(false);
        }
    }
    let mut i: usize = 0;
    while i < len && i < 3 && line[i] == ' '
        invariant
            0 <= i <= len == line@.len(),
            i <= 3,
            forall|j: int| 0 <= j < i ==> line@[j] == ' ',
        decreases len - i,
    {
        i += 1;
    }
    if i == 3 {
        proof {
            lemma_lead_sp_min(line@, 3);
        }
        return 0;
    }
    proof {
        lemma_lead_sp_is(line@, i as int);
    }
    let mut d: usize = 0;
    while i + d < len && d < 5 && is_digit(line[i + d])
        invariant
            0 <= i <= len == line@.len(),
            i + d <= len,
            d <= 5,
            forall|j: int| i <= j < i + d ==> is_digit_char(line@[j]),
        decreases len - i - d,
    {
        d += 1;
    }
    if d == 5 {
        proof {
            lemma_digit_run_min(line@, i as int, 5);
        }
        return 0;
    }
    proof {
        lemma_digit_run_is(line@, i as int, d as int);
    }
    if d >= 1 && i + d + 1 < len && line[i + d] == '.' && line[i + d + 1] == ' ' {
        proof {
            assert(all_digits(line@.subrange(i as int, i + d)));
        }
        let v = parse_digits_small(line, i, i + d);
        return v;
    }
    0
}

// ── Toggling ───────────────────────────────────────────────────────

pub open spec fn sel_v(sel: Option<(usize, usize)>) -> Option<(int, int)> {
    match sel {
        Some((a, b)) => Some((a as int, b as int)),
        None => None,
    }
}

/// Toggling an inline tag.  With a selection the tag leaves if any
/// selected position already carries it, else it covers the whole
/// selection; without one it toggles membership in the pending set.
pub open spec fn toggle_inline_spec(d: DocV, t: TagV, sel: Option<(int, int)>) -> DocV {
    match sel {
        Some(r) => if d.has_mark_in(r.0, r.1, t) {
            remove_tag_spec(d, t, r.0, r.1)
        } else {
            apply_tag_spec(d, t, r.0, r.1)
        },
        None => toggle_pending_spec(d, t),
    }
}

pub fn toggle_inline(d: &mut Document, t: &Tag, sel: Option<(usize, usize)>)
    requires
        old(d)@.wf(),
        match sel {
            Some(r) => r.0 <= r.1 <= old(d)@.text.len(),
            None => true,
        },
    ensures
        final(d)@ == toggle_inline_spec(old(d)@, t@, sel_v(sel)),
        final(d)@.wf(),
{
    match sel {
        Some((a, b)) => {
            if d.has_tag_in_range(t, a, b) {
                d.remove_tag(t, a, b);
            } else {
                d.apply_tag(t, a, b);
            }
        },
        None => {
            d.toggle_pending(t);
        },
    }
}

/// Clearing every heading tag over a range.
pub open spec fn clear_headings_spec(d: DocV, a: int, b: int) -> DocV {
    remove_tag_spec(
        remove_tag_spec(
            remove_tag_spec(remove_tag_spec(d, TagV::H1, a, b), TagV::H2, a, b),
            TagV::H3,
            a,
            b,
        ),
        TagV::H4,
        a,
        b,
    )
}

/// Toggling a heading on a line: every heading tag leaves the line, and
/// the requested one is applied unless some position already carried it.
pub open spec fn toggle_heading_spec(d: DocV, t: TagV, a: int, b: int) -> DocV {
    let c = clear_headings_spec(d, a, b);
    if d.has_mark_in(a, b, t) {
        c
    } else {
        apply_tag_spec(c, t, a, b)
    }
}

pub fn toggle_heading(d: &mut Document, line: usize, t: &Tag)
    requires
        old(d)@.wf(),
        is_heading_v(t@),
        line < line_count_of(old(d)@.text),
    ensures
        final(d)@.wf(),
        forall|a: int, b: int|
            is_line_range(old(d)@.text, line as int, a, b) ==> final(d)@ == toggle_heading_spec(
                old(d)@,
                t@,
                a,
                b,
            ),
{
    let r = d.line_range(line);
    let a0 = r.0;
    let b0 = r.1;
    let already = d.has_tag_in_range(t, a0, b0);
    d.remove_tag(&Tag::H1, a0, b0);
    d.remove_tag(&Tag::H2, a0, b0);
    d.remove_tag(&Tag::H3, a0, b0);
    d.remove_tag(&Tag::H4, a0, b0);
    if !already {
        d.apply_tag(t, a0, b0);
    }
    proof {
        assert forall|a: int, b: int|
            is_line_range(old(d)@.text, line as int, a, b) implies d@ == toggle_heading_spec(
            old(d)@,
            t@,
            a,
            b,
        ) by {
            lemma_line_range_unique(old(d)@.text, line as int, a, b, a0 as int, b0 as int);
        }
    }
}

pub open spec fn other_list(t: TagV) -> TagV {
    if t is BulletList {
        TagV::NumberedList
    } else {
        TagV::BulletList
    }
}

pub open spec fn list_prefix_of(t: TagV) -> Seq<char> {
    if t is BulletList {
        bullet_prefix()
    } else {
        seq![' ', ' ', '1', '.', ' ']
    }
}

/// Toggling a list kind on a line.  An active kind leaves together with
/// its physical prefix; the opposite kind (and its prefix) leaves first;
/// turning a kind on inserts its literal prefix at line start and tags the
/// whole line.
pub open spec fn toggle_list_spec(d: DocV, t: TagV, a: int, b: int) -> DocV {
    if d.has_mark_in(a, b, t) {
        let d1 = remove_tag_spec(d, t, a, b);
        let plen = list_prefix_len(d.text.subrange(a, b));
        if plen > 0 {
            delete_range_spec(d1, a, a + plen)
        } else {
            d1
        }
    } else {
        let oth = other_list(t);
        let plen = list_prefix_len(d.text.subrange(a, b));
        let had_other = d.has_mark_in(a, b, oth);
        let d1 = if had_other {
            let dr = remove_tag_spec(d, oth, a, b);
            if plen > 0 {
                delete_range_spec(dr, a, a + plen)
            } else {
                dr
            }
        } else {
            d
        };
        let b1 = if had_other && plen > 0 {
            b - plen
        } else {
            b
        };
        let prefix = list_prefix_of(t);
        let d2 = insert_text_spec(d1, a, prefix);
        apply_tag_spec(d2, t, a, b1 + prefix.len())
    }
}

pub fn toggle_list(d: &mut Document, line: usize, t: &Tag)
    requires
        old(d)@.wf(),
        is_list_v(t@),
        line < line_count_of(old(d)@.text),
    ensures
        final(d)@.wf(),
        forall|a: int, b: int|
            is_line_range(old(d)@.text, line as int, a, b) ==> final(d)@ == toggle_list_spec(
                old(d)@,
                t@,
                a,
                b,
            ),
{
    let r = d.line_range(line);
    let a0 = r.0;
    let b0 = r.1;
    if d.has_tag_in_range(t, a0, b0) {
        d.remove_tag(t, a0, b0);
        let linetext = d.text_range(a0, b0);
        let plen = count_list_prefix_chars(&linetext);
        if plen > 0 {
            d.delete_range(a0, a0 + plen);
        }
    } else {
        let oth = match t {
            Tag::BulletList => Tag::NumberedList,
            _ => Tag::BulletList,
        };
        proof {
            assert(oth@ == other_list(t@));
        }
        let mut b1 = b0;
        if d.has_tag_in_range(&oth, a0, b0) {
            d.remove_tag(&oth, a0, b0);
            let linetext = d.text_range(a0, b0);
            let plen = count_list_prefix_chars(&linetext);
            if plen > 0 {
                d.delete_range(a0, a0 + plen);
                b1 = b0 - plen;
            }
        }
        let mut prefix: Vec<char> = Vec::new();
        if matches!(t, Tag::BulletList) {
            prefix.push(' ');
            prefix.push(' ');
            prefix.push('\u{2022}');
            prefix.push(' ');
            proof {
                assert(prefix@ =~= list_prefix_of(t@));
            }
        } else {
            prefix.push(' ');
            prefix.push(' ');
            prefix.push('1');
            prefix.push('.');
            prefix.push(' ');
            proof {
                assert(prefix@ =~= list_prefix_of(t@));
            }
        }
        d.insert_text(a0, &prefix);
        let newlen = d.len();
        proof {
            assert(b1 + prefix@.len() <= newlen);
        }
        let end = b1 + prefix.len();
        d.apply_tag(t, a0, end);
    }
    proof {
        assert forall|a: int, b: int|
            is_line_range(old(d)@.text, line as int, a, b) implies d@ == toggle_list_spec(
            old(d)@,
            t@,
            a,
            b,
        ) by {
            lemma_line_range_unique(old(d)@.text, line as int, a, b, a0 as int, b0 as int);
        }
    }
}

// ── Enter-key list continuation ────────────────────────────────────

/// What the Enter key does on a list line.  On a line with no list tag it
/// is not consumed.  On an item whose content past the prefix is empty or
/// whitespace, prefix and tag leave: a single Enter exits the empty item.
/// Otherwise a separator and a fresh prefix (for numbers, the previous
/// number plus one) are inserted at the cursor and the new line is tagged
/// with the same kind.
pub open spec fn handle_enter_spec(d: DocV, cursor: int, a: int, b: int) -> (bool, DocV) {
    let lineseq = d.text.subrange(a, b);
    let is_b = d.has_mark_in(a, b, TagV::BulletList);
    let is_n = d.has_mark_in(a, b, TagV::NumberedList);
    if !is_b && !is_n {
        (false, d)
    } else {
        let plen = list_prefix_len(lineseq);
        if all_space(lineseq.skip(plen)) {
            let t = if is_b {
                TagV::BulletList
            } else {
                TagV::NumberedList
            };
            (true, delete_range_spec(remove_tag_spec(d, t, a, b), a, b))
        } else if is_b {
            let ins = seq!['\n'] + bullet_prefix();
            (
                true,
                apply_tag_spec(
                    insert_text_spec(d, cursor, ins),
                    TagV::BulletList,
                    cursor + 1,
                    b + 5,
                ),
            )
        } else {
            let num = list_number_of(lineseq);
            let ins = seq!['\n', ' ', ' '] + dec_seq((num + 1) as nat) + seq!['.', ' '];
            (
                true,
                apply_tag_spec(
                    insert_text_spec(d, cursor, ins),
                    TagV::NumberedList,
                    cursor + 1,
                    b + ins.len(),
                ),
            )
        }
    }
}

/// Handles the Enter key at `cursor`; the result says whether the
/// keystroke was consumed (when it is not, the caller performs its
/// default newline insertion).
pub fn handle_enter(d: &mut Document, cursor: usize) -> (consumed: bool)
    requires
        old(d)@.wf(),
        cursor <= old(d)@.text.len(),
    ensures
        final(d)@.wf(),
        forall|a: int, b: int|
            is_line_range(old(d)@.text, nl_count(old(d)@.text.take(cursor as int)), a, b) ==> {
                consumed == handle_enter_spec(old(d)@, cursor as int, a, b).0 && final(d)@
                    == handle_enter_spec(old(d)@, cursor as int, a, b).1
            },
{
    let l = d.line_of_offset(cursor);
    proof {
        lemma_nl_count_mono(d@.text, cursor as int, d@.text.len() as int);
        assert(d@.text.take(d@.text.len() as int) =~= d@.text);
    }
    let r = d.line_range(l);
    let a0 = r.0;
    let b0 = r.1;
    proof {
        lemma_line_contains_offset(d@.text, cursor as int, a0 as int, b0 as int);
    }
    let is_b = d.has_tag_in_range(&Tag::BulletList, a0, b0);
    let is_n = d.has_tag_in_range(&Tag::NumberedList, a0, b0);
    if !is_b && !is_n {
        proof {
            assert forall|a: int, b: int|
                is_line_range(old(d)@.text, nl_count(old(d)@.text.take(cursor as int)), a, b)
                implies false == handle_enter_spec(old(d)@, cursor as int, a, b).0 && d@
                == handle_enter_spec(old(d)@, cursor as int, a, b).1 by {
                lemma_line_range_unique(
                    old(d)@.text,
                    l as int,
                    a,
                    b,
                    a0 as int,
                    b0 as int,
                );
            }
        }
        return false;
    }
    let linetext = d.text_range(a0, b0);
    let plen = count_list_prefix_chars(&linetext);
    proof {
        assert(linetext@.skip(plen as int) =~= linetext@.subrange(
            plen as int,
            linetext@.len() as int,
        ));
    }
    if all_space_exec(&linetext, plen, linetext.len()) {
        let t = if is_b {
            Tag::BulletList
        } else {
            Tag::NumberedList
        };
        d.remove_tag(&t, a0, b0);
        d.delete_range(a0, b0);
        proof {
            assert forall|a: int, b: int|
                is_line_range(old(d)@.text, nl_count(old(d)@.text.take(cursor as int)), a, b)
                implies true == handle_enter_spec(old(d)@, cursor as int, a, b).0 && d@
                == handle_enter_spec(old(d)@, cursor as int, a, b).1 by {
                lemma_line_range_unique(old(d)@.text, l as int, a, b, a0 as int, b0 as int);
            }
        }
        return true;
    }
    if is_b {
        let mut ins: Vec<char> = Vec::new();
        ins.push('\n');
        ins.push(' ');
        ins.push(' ');
        ins.push('\u{2022}');
        ins.push(' ');
        proof {
            assert(ins@ =~= seq!['\n'] + bullet_prefix());
        }
        d.insert_text(cursor, &ins);
        let newlen = d.len();
        proof {
            assert(b0 + 5 <= newlen);
        }
        let end = b0 + 5;
        d.apply_tag(&Tag::BulletList, cursor + 1, end);
        proof {
            assert forall|a: int, b: int|
                is_line_range(old(d)@.text, nl_count(old(d)@.text.take(cursor as int)), a, b)
                implies true == handle_enter_spec(old(d)@, cursor as int, a, b).0 && d@
                == handle_enter_spec(old(d)@, cursor as int, a, b).1 by {
                lemma_line_range_unique(old(d)@.text, l as int, a, b, a0 as int, b0 as int);
            }
        }
        return true;
    }
    let num = list_number(&linetext);
    let mut ins: Vec<char> = Vec::new();
    ins.push('\n');
    ins.push(' ');
    ins.push(' ');
    let mut digs = usize_to_chars(num + 1);
    ins.append(&mut digs);
    ins.push('.');
    ins.push(' ');
    proof {
        assert(ins@ =~= seq!['\n', ' ', ' '] + dec_seq((num + 1) as nat) + seq!['.', ' ']);
    }
    d.insert_text(cursor, &ins);
    let newlen = d.len();
    proof {
        assert(b0 + ins@.len() <= newlen);
    }
    let end = b0 + ins.len();
    d.apply_tag(&Tag::NumberedList, cursor + 1, end);
    proof {
        assert forall|a: int, b: int|
            is_line_range(old(d)@.text, nl_count(old(d)@.text.take(cursor as int)), a, b)
            implies true == handle_enter_spec(old(d)@, cursor as int, a, b).0 && d@
            == handle_enter_spec(old(d)@, cursor as int, a, b).1 by {
            lemma_line_range_unique(old(d)@.text, l as int, a, b, a0 as int, b0 as int);
        }
    }
    true
}

// ── Links and colors ───────────────────────────────────────────────

/// Inserting a web link.  An empty URL is a no-op.  With a selection the
/// link tag covers it; without one the display text (the URL itself when
/// no display text is given) is inserted at `at` and tagged.
pub open spec fn insert_link_spec(
    d: DocV,
    url: Seq<char>,
    display: Seq<char>,
    at: int,
    sel: Option<(int, int)>,
) -> DocV {
    if url.len() == 0 {
        d
    } else {
        let t = TagV::WebLink(url);
        match sel {
            Some(r) => apply_tag_spec(d, t, r.0, r.1),
            None => {
                let disp = if display.len() == 0 {
                    url
                } else {
                    display
                };
                apply_tag_spec(insert_text_spec(d, at, disp), t, at, at + disp.len())
            },
        }
    }
}

pub fn insert_link(
    d: &mut Document,
    url: &Vec<char>,
    display: &Vec<char>,
    at: usize,
    sel: Option<(usize, usize)>,
)
    requires
        old(d)@.wf(),
        at <= old(d)@.text.len(),
        match sel {
            Some(r) => r.0 <= r.1 <= old(d)@.text.len(),
            None => true,
        },
    ensures
        final(d)@ == insert_link_spec(old(d)@, url@, display@, at as int, sel_v(sel)),
        final(d)@.wf(),
{
    if url.len() == 0 {
        return ;
    }
    let t = Tag::WebLink(dup_chars(url));
    match sel {
        Some((a, b)) => {
            d.apply_tag(&t, a, b);
        },
        None => {
            let disp = if display.len() == 0 {
                dup_chars(url)
            } else {
                dup_chars(display)
            };
            d.insert_text(at, &disp);
            let newlen = d.len();
            proof {
                assert(at + disp@.len() <= newlen);
            }
            let end = at + disp.len();
            d.apply_tag(&t, at, end);
        },
    }
}

/// Inserting a cross-document link by note title; an empty title is a
/// no-op.  The caller is responsible for making sure a note with the
/// title exists.
pub open spec fn insert_tangle_spec(
    d: DocV,
    title: Seq<char>,
    at: int,
    sel: Option<(int, int)>,
) -> DocV {
    if title.len() == 0 {
        d
    } else {
        let t = TagV::TangleLink(title);
        match sel {
            Some(r) => apply_tag_spec(d, t, r.0, r.1),
            None => apply_tag_spec(insert_text_spec(d, at, title), t, at, at + title.len()),
        }
    }
}

pub fn insert_tangle(d: &mut Document, title: &Vec<char>, at: usize, sel: Option<(usize, usize)>)
    requires
        old(d)@.wf(),
        at <= old(d)@.text.len(),
        match sel {
            Some(r) => r.0 <= r.1 <= old(d)@.text.len(),
            None => true,
        },
    ensures
        final(d)@ == insert_tangle_spec(old(d)@, title@, at as int, sel_v(sel)),
        final(d)@.wf(),
{
    if title.len() == 0 {
        return ;
    }
    let t = Tag::TangleLink(dup_chars(title));
    match sel {
        Some((a, b)) => {
            d.apply_tag(&t, a, b);
        },
        None => {
            d.insert_text(at, title);
            let newlen = d.len();
            proof {
                assert(at + title@.len() <= newlen);
            }
            let end = at + title.len();
            d.apply_tag(&t, at, end);
        },
    }
}

/// Applying a color.  A value that is not `#` plus six hex digits is
/// rejected and the operation is a no-op.  With a selection the new color
/// covers it, displacing the same family's colors there; without one it
/// is queued in the pending set, displacing pending colors of the same
/// family.
pub open spec fn apply_color_spec(d: DocV, fg: bool, color: Seq<char>, sel: Option<(int, int)>) -> DocV {
    if !valid_hex_color(color) {
        d
    } else {
        let t = if fg {
            TagV::Foreground(color)
        } else {
            TagV::Background(color)
        };
        match sel {
            Some(r) => apply_tag_spec(d, t, r.0, r.1),
            None => queue_pending_spec(d, t),
        }
    }
}

pub fn apply_color(d: &mut Document, fg: bool, color: &Vec<char>, sel: Option<(usize, usize)>)
    requires
        old(d)@.wf(),
        match sel {
            Some(r) => r.0 <= r.1 <= old(d)@.text.len(),
            None => true,
        },
    ensures
        final(d)@ == apply_color_spec(old(d)@, fg, color@, sel_v(sel)),
        final(d)@.wf(),
{
    if !crate::color::is_valid_hex_color(color) {
        return ;
    }
    let t = if fg {
        Tag::Foreground(dup_chars(color))
    } else {
        Tag::Background(dup_chars(color))
    };
    match sel {
        Some((a, b)) => {
            d.apply_tag(&t, a, b);
        },
        None => {
            d.queue_pending(&t);
        },
    }
}

/// Removing all colors of one family from a selection; without a
/// selection nothing happens.
pub open spec fn remove_colors_spec(d: DocV, fg: bool, sel: Option<(int, int)>) -> DocV {
    let t = if fg {
        TagV::Foreground(Seq::empty())
    } else {
        TagV::Background(Seq::empty())
    };
    match sel {
        Some(r) => remove_conflicts_spec(d, t, r.0, r.1),
        None => d,
    }
}

pub fn remove_colors(d: &mut Document, fg: bool, sel: Option<(usize, usize)>)
    requires
        old(d)@.wf(),
        match sel {
            Some(r) => r.0 <= r.1 <= old(d)@.text.len(),
            None => true,
        },
    ensures
        final(d)@ == remove_colors_spec(old(d)@, fg, sel_v(sel)),
        final(d)@.wf(),
{
    let empty_param: Vec<char> = Vec::new();
    proof {
        assert(empty_param@ =~= Seq::<char>::empty());
    }
    let t = if fg {
        Tag::Foreground(empty_param)
    } else {
        Tag::Background(empty_param)
    };
    match sel {
        Some((a, b)) => {
            d.remove_conflicts(&t, a, b);
        },
        None => {
        },
    }
}

} // verus!
