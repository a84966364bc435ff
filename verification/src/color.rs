//! Color handling: the shape check for user-entered colors, and the
//! reading of `style` attribute declarations into color tags.

use vstd::prelude::*;
use crate::chars::{is_digit_char, trim_spaces, trim_exec};
use crate::tag::{Tag, TagV, tail_from};

verus! {

/// A hexadecimal digit, either case.
pub open spec fn is_hex_digit(c: char) -> bool {
    is_digit_char(c) || (97 <= c as u32 && c as u32 <= 102) || (65 <= c as u32 && c as u32 <= 70)
}

/// The accepted user color shape: `#` followed by exactly six hex digits.
pub open spec fn valid_hex_color(s: Seq<char>) -> bool {
    s.len() == 7 && s[0] == '#' && forall|i: int| 1 <= i < 7 ==> is_hex_digit(#[trigger] s[i])
}

/// Whether `v` has the accepted color shape; anything else is rejected at
/// the input boundary and the requested operation becomes a no-op.
pub fn is_valid_hex_color(v: &Vec<char>) -> (r: bool)
    ensures
        r == valid_hex_color(v@),
{
    if v.len() != 7 {
        return false;
    }
    if v[0] != '#' {
        return false;
    }
    let mut i: usize = 1;
    while i < 7
        invariant
            1 <= i <= 7,
            v@.len() == 7,
            forall|j: int| 1 <= j < i ==> is_hex_digit(#[trigger] v@[j]),
        decreases 7 - i,
    {
        let u = v[i] as u32;
        let ok = (48 <= u && u <= 57) || (97 <= u && u <= 102) || (65 <= u && u <= 70);
        if !ok {
            return false;
        }
        i += 1;
    }
    true
}

/// The index of the first `;` in `s`, or its length.
pub open spec fn scan_semi(s: Seq<char>) -> nat
    decreases s.len(),
{
    if s.len() == 0 {
        0
    } else if s[0] == ';' {
        0
    } else {
        1 + scan_semi(s.drop_first())
    }
}

pub proof fn lemma_scan_semi_is(s: Seq<char>, k: int)
    requires
        0 <= k <= s.len(),
        forall|j: int| 0 <= j < k ==> s[j] != ';',
        k == s.len() || s[k] == ';',
    ensures
        scan_semi(s) == k,
    decreases s.len(),
{
    if s.len() > 0 && s[0] != ';' {
        assert(k != 0);
        assert(forall|j: int| 0 <= j < k - 1 ==> s.drop_first()[j] == s[j + 1]);
        lemma_scan_semi_is(s.drop_first(), k - 1);
    } else {
        if s.len() > 0 && k > 0 {
            assert(s[0] != ';');
        }
    }
}

pub open spec fn color_key() -> Seq<char> {
    seq!['c', 'o', 'l', 'o', 'r', ':']
}

pub open spec fn bg_color_key() -> Seq<char> {
    seq!['b', 'a', 'c', 'k', 'g', 'r', 'o', 'u', 'n', 'd', '-', 'c', 'o', 'l', 'o', 'r', ':']
}

/// The color tag named by a `style` attribute: its `;`-separated parts are
/// tried in order, and the first `color:` or `background-color:`
/// declaration selects a foreground or background tag whose parameter is
/// the trimmed value.
pub open spec fn style_color_of(s: Seq<char>) -> Option<TagV>
    decreases s.len(),
{
    let j = scan_semi(s) as int;
    let part = trim_spaces(s.take(j));
    if part.len() >= 6 && part.take(6) == color_key() {
        Some(TagV::Foreground(trim_spaces(part.skip(6))))
    } else if part.len() >= 17 && part.take(17) == bg_color_key() {
        Some(TagV::Background(trim_spaces(part.skip(17))))
    } else if j < s.len() {
        style_color_of(s.skip(j + 1))
    } else {
        None
    }
}

/// A copy of `v[from..to]`.
fn copy_range(v: &Vec<char>, from: usize, to: usize) -> (r: Vec<char>)
    requires
        from <= to <= v@.len(),
    ensures
        r@ == v@.subrange(from as int, to as int),
{
    let mut r: Vec<char> = Vec::new();
    let mut i: usize = from;
    while i < to
        invariant
            from <= i <= to <= v@.len(),
            r@ == v@.subrange(from as int, i as int),
        decreases to - i,
    {
        r.push(v[i]);
        proof {
            assert(r@ =~= v@.subrange(from as int, i + 1));
        }
        i += 1;
    }
    r
}

/// Whether `part` begins with `color:`.
fn has_color_key(part: &Vec<char>) -> (r: bool)
    ensures
        r == (part@.len() >= 6 && part@.take(6) == color_key()),
{
    if part.len() < 6 {
        return false;
    }
    let r = part[0] == 'c' && part[1] == 'o' && part[2] == 'l' && part[3] == 'o' && part[4] == 'r'
        && part[5] == ':';
    proof {
        if r {
            assert(part@.take(6) =~= color_key());
        } else {
            assert(part@.take(6) != color_key()) by {
                if part@.take(6) == color_key() {
                    assert(part@.take(6)[0] == 'c' && part@.take(6)[1] == 'o' && part@.take(6)[2]
                        == 'l' && part@.take(6)[3] == 'o' && part@.take(6)[4] == 'r'
                        && part@.take(6)[5] == ':');
                }
            }
        }
    }
    r
}

/// Whether `part` begins with `background-color:`.
fn has_bg_color_key(part: &Vec<char>) -> (r: bool)
    ensures
        r == (part@.len() >= 17 && part@.take(17) == bg_color_key()),
{
    if part.len() < 17 {
        return false;
    }
    let r = part[0] == 'b' && part[1] == 'a' && part[2] == 'c' && part[3] == 'k' && part[4] == 'g'
        && part[5] == 'r' && part[6] == 'o' && part[7] == 'u' && part[8] == 'n' && part[9] == 'd'
        && part[10] == '-' && part[11] == 'c' && part[12] == 'o' && part[13] == 'l' && part[14]
        == 'o' && part[15] == 'r' && part[16] == ':';
    proof {
        if r {
            assert(part@.take(17) =~= bg_color_key());
        } else {
            assert(part@.take(17) != bg_color_key()) by {
                if part@.take(17) == bg_color_key() {
                    assert(part@.take(17)[0] == 'b' && part@.take(17)[1] == 'a' && part@.take(17)[2]
                        == 'c' && part@.take(17)[3] == 'k' && part@.take(17)[4] == 'g'
                        && part@.take(17)[5] == 'r' && part@.take(17)[6] == 'o' && part@.take(17)[7]
                        == 'u' && part@.take(17)[8] == 'n' && part@.take(17)[9] == 'd'
                        && part@.take(17)[10] == '-' && part@.take(17)[11] == 'c' && part@.take(
                        17,
                    )[12] == 'o' && part@.take(17)[13] == 'l' && part@.take(17)[14] == 'o'
                        && part@.take(17)[15] == 'r' && part@.take(17)[16] == ':');
                }
            }
        }
    }
    r
}

/// The color tag named by a `style` attribute value, if any.
pub fn parse_style_color(v: &Vec<char>) -> (r: Option<Tag>)
    ensures
        match r {
            Some(t) => style_color_of(v@) == Some(t@),
            None => style_color_of(v@) is None,
        },
{
    let len = v.len();
    proof {
        assert(v@.skip(0) =~= v@);
    }
    let mut i: usize = 0;
    loop
        invariant
            0 <= i <= len == v@.len(),
            style_color_of(v@) == style_color_of(v@.skip(i as int)),
        decreases len - i,
    {
        let ghost suf = v@.skip(i as int);
        let mut j: usize = i;
        while j < len && v[j] != ';'
            invariant
                i <= j <= len == v@.len(),
                forall|q: int| i <= q < j ==> v@[q] != ';',
            decreases len - j,
        {
            j += 1;
        }
        proof {
            assert(forall|q: int| 0 <= q < j - i ==> suf[q] == v@[q + i]);
            lemma_scan_semi_is(suf, j - i);
            assert(suf.take(j - i) =~= v@.subrange(i as int, j as int));
        }
        let partraw = copy_range(v, i, j);
        let part = trim_exec(&partraw);
        if has_color_key(&part) {
            let val = trim_exec(&tail_from(&part, 6));
            return Some(Tag::Foreground(val));
        }
        if has_bg_color_key(&part) {
            let val = trim_exec(&tail_from(&part, 17));
            return Some(Tag::Background(val));
        }
        if j == len {
            return None;
        }
        proof {
            assert(suf.skip(j - i + 1) =~= v@.skip(j + 1));
        }
        i = j + 1;
    }
}

} // verus!
