//! Character-level helpers shared by the whole engine: classification of
//! whitespace and digits, ASCII case folding, decimal rendering and parsing,
//! and conversions between `String`/`&str` and the `Vec<char>` buffers the
//! engine works on (all offsets in the engine are character counts).

use vstd::prelude::*;
use vstd::string::StrSliceExecFns;

verus! {

/// The Unicode `White_Space` code points (the set `char::is_whitespace`
/// documents).
pub open spec fn is_space_char(c: char) -> bool {
    let u = c as u32;
    u == 0x20 || u == 0x09 || u == 0x0A || u == 0x0B || u == 0x0C || u == 0x0D || u == 0x85
        || u == 0xA0 || u == 0x1680 || (0x2000 <= u && u <= 0x200A) || u == 0x2028 || u == 0x2029
        || u == 0x202F || u == 0x205F || u == 0x3000
}

pub fn is_space(c: char) -> (r: bool)
    ensures
        r == is_space_char(c),
{
    let u = c as u32;
    u == 0x20 || u == 0x09 || u == 0x0A || u == 0x0B || u == 0x0C || u == 0x0D || u == 0x85
        || u == 0xA0 || u == 0x1680 || (0x2000 <= u && u <= 0x200A) || u == 0x2028 || u == 0x2029
        || u == 0x202F || u == 0x205F || u == 0x3000
}

pub open spec fn is_digit_char(c: char) -> bool {
    48 <= c as u32 && c as u32 <= 57
}

pub fn is_digit(c: char) -> (r: bool)
    ensures
        r == is_digit_char(c),
{
    let u = c as u32;
    48 <= u && u <= 57
}

/// Whether every character of `s` is an ASCII digit.
pub open spec fn all_digits(s: Seq<char>) -> bool {
    forall|i: int| 0 <= i < s.len() ==> is_digit_char(s[i])
}

/// ASCII lower-casing of a single character; other characters are unchanged.
pub open spec fn lower_char(c: char) -> char {
    if 65 <= c as u32 && c as u32 <= 90 {
        (((c as u32) + 32) as u8) as char
    } else {
        c
    }
}

pub fn to_lower(c: char) -> (r: char)
    ensures
        r == lower_char(c),
{
    let u = c as u32;
    if 65 <= u && u <= 90 {
        ((u + 32) as u8) as char
    } else {
        c
    }
}

/// Whether every character of `s` is whitespace.
pub open spec fn all_space(s: Seq<char>) -> bool {
    forall|i: int| 0 <= i < s.len() ==> is_space_char(s[i])
}

/// Whether every character of `v[from..to]` is whitespace.
pub fn all_space_exec(v: &Vec<char>, from: usize, to: usize) -> (r: bool)
    requires
        from <= to <= v@.len(),
    ensures
        r == all_space(v@.subrange(from as int, to as int)),
{
    let ghost s = v@.subrange(from as int, to as int);
    let mut i: usize = from;
    while i < to
        invariant
            from <= i <= to <= v@.len(),
            s == v@.subrange(from as int, to as int),
            forall|j: int| 0 <= j < i - from ==> is_space_char(s[j]),
        decreases to - i,
    {
        if !is_space(v[i]) {
            proof {
                assert(s[i - from] == v@[i as int]);
            }
            return false;
        }
        proof {
            assert(s[i - from] == v@[i as int]);
        }
        i += 1;
    }
    true
}

/// The number of whitespace characters at the front of `s`.
pub open spec fn lead_ws(s: Seq<char>) -> int
    decreases s.len(),
{
    if s.len() > 0 && is_space_char(s[0]) {
        1 + lead_ws(s.drop_first())
    } else {
        0
    }
}

/// `k` is the leading-whitespace count exactly when everything before it
/// is whitespace and it sits at the end or on a non-whitespace character.
pub proof fn lemma_lead_ws_is(s: Seq<char>, k: int)
    requires
        0 <= k <= s.len(),
        forall|j: int| 0 <= j < k ==> is_space_char(s[j]),
        k == s.len() || !is_space_char(s[k]),
    ensures
        lead_ws(s) == k,
    decreases s.len(),
{
    if s.len() > 0 && is_space_char(s[0]) {
        assert(k != 0);
        assert(forall|j: int| 0 <= j < k - 1 ==> s.drop_first()[j] == s[j + 1]);
        lemma_lead_ws_is(s.drop_first(), k - 1);
    } else {
        if k > 0 {
            assert(is_space_char(s[0]));
        }
    }
}

/// The number of whitespace characters at the back of `s`.
pub open spec fn trail_ws(s: Seq<char>) -> int
    decreases s.len(),
{
    if s.len() > 0 && is_space_char(s.last()) {
        1 + trail_ws(s.drop_last())
    } else {
        0
    }
}

pub proof fn lemma_trail_ws_is(s: Seq<char>, k: int)
    requires
        0 <= k <= s.len(),
        forall|j: int| s.len() - k <= j < s.len() ==> is_space_char(s[j]),
        k == s.len() || !is_space_char(s[s.len() - k - 1]),
    ensures
        trail_ws(s) == k,
    decreases s.len(),
{
    if s.len() > 0 && is_space_char(s.last()) {
        assert(k != 0);
        assert(forall|j: int|
            s.drop_last().len() - (k - 1) <= j < s.drop_last().len() ==> s.drop_last()[j] == s[j]);
        lemma_trail_ws_is(s.drop_last(), k - 1);
    } else {
        if k > 0 {
            assert(is_space_char(s[s.len() - 1]));
        }
    }
}

/// `s` without its leading and trailing whitespace.
pub open spec fn trim_spaces(s: Seq<char>) -> Seq<char> {
    let l = lead_ws(s);
    let t = trail_ws(s);
    if l + t <= s.len() {
        s.subrange(l, s.len() - t)
    } else {
        Seq::empty()
    }
}

/// A copy of `v` without leading and trailing whitespace.
pub fn trim_exec(v: &Vec<char>) -> (r: Vec<char>)
    ensures
        r@ == trim_spaces(v@),
{
    let len = v.len();
    let mut lo: usize = 0;
    while lo < len && is_space(v[lo])
        invariant
            lo <= len == v@.len(),
            forall|j: int| 0 <= j < lo ==> is_space_char(v@[j]),
        decreases len - lo,
    {
        lo += 1;
    }
    proof {
        lemma_lead_ws_is(v@, lo as int);
    }
    if lo == len {
        proof {
            lemma_trail_ws_is(v@, len as int);
        }
        let r: Vec<char> = Vec::new();
        proof {
            if lead_ws(v@) + trail_ws(v@) <= v@.len() {
                assert(v@.len() == 0);
                assert(r@ =~= trim_spaces(v@));
            }
        }
        return r;
    }
    let mut hi: usize = len;
    while hi > lo + 1 && is_space(v[hi - 1])
        invariant
            lo < hi <= len == v@.len(),
            forall|j: int| hi <= j < len ==> is_space_char(v@[j]),
        decreases hi,
    {
        hi -= 1;
    }
    if is_space(v[hi - 1]) {
        proof {
            assert(hi == lo + 1);
            assert(is_space_char(v@[lo as int]));
            assert(false);
        }
    }
    proof {
        lemma_trail_ws_is(v@, (len - hi) as int);
    }
    let mut r: Vec<char> = Vec::new();
    let mut i: usize = lo;
    while i < hi
        invariant
            lo <= i <= hi <= v@.len(),
            r@ == v@.subrange(lo as int, i as int),
        decreases hi - i,
    {
        r.push(v[i]);
        proof {
            assert(r@ =~= v@.subrange(lo as int, i + 1));
        }
        i += 1;
    }
    r
}

/// The views of a list of character buffers.
pub open spec fn view_strs(l: Seq<Vec<char>>) -> Seq<Seq<char>> {
    l.map_values(|v: Vec<char>| v@)
}

pub broadcast proof fn lemma_view_strs_props(l: Seq<Vec<char>>)
    ensures
        (#[trigger] view_strs(l)).len() == l.len(),
        forall|i: int| 0 <= i < l.len() ==> #[trigger] view_strs(l)[i] == l[i]@,
{
}

/// Whether the character counts as alphanumeric for word-boundary checks.
pub uninterp spec fn is_alnum(c: char) -> bool;

/// Relies on `char::is_alphanumeric` from std: true exactly for Unicode
/// letters and numbers.  The result depends on the character alone.
#[verifier::external_body]
pub fn alnum(c: char) -> (r: bool)
    ensures
        r == is_alnum(c),
{
    c.is_alphanumeric()
}

/// Character-for-character equality of two buffers.
pub fn eq_chars(a: &Vec<char>, b: &Vec<char>) -> (r: bool)
    ensures
        r == (a@ == b@),
{
    if a.len() != b.len() {
        return false;
    }
    let mut i: usize = 0;
    while i < a.len()
        invariant
            i <= a@.len(),
            a@.len() == b@.len(),
            forall|j: int| 0 <= j < i ==> a@[j] == b@[j],
        decreases a@.len() - i,
    {
        if a[i] != b[i] {
            return false;
        }
        i += 1;
    }
    proof {
        assert(a@ =~= b@);
    }
    true
}

/// Whether `pat` occurs in `text` starting at position `i`.
pub fn chars_match_at(text: &Vec<char>, i: usize, pat: &Vec<char>) -> (r: bool)
    requires
        i + pat@.len() <= text@.len(),
    ensures
        r == (text@.subrange(i as int, i + pat@.len()) == pat@),
{
    let tlen = text.len();
    let mut j: usize = 0;
    while j < pat.len()
        invariant
            j <= pat@.len(),
            i + pat@.len() <= text@.len(),
            tlen == text@.len(),
            forall|k: int| 0 <= k < j ==> text@[i + k] == pat@[k],
        decreases pat@.len() - j,
    {
        if text[i + j] != pat[j] {
            return false;
        }
        j += 1;
    }
    proof {
        assert(text@.subrange(i as int, i + pat@.len()) =~= pat@);
    }
    true
}

/// The characters of `s`, in order.
pub fn str_to_chars(s: &str) -> (r: Vec<char>)
    ensures
        r@ == s@,
{
    let n: usize = s.unicode_len();
    let mut v: Vec<char> = Vec::new();
    let mut i: usize = 0;
    while i < n
        invariant
            n == s@.len(),
            i <= n,
            v@ == s@.take(i as int),
        decreases n - i,
    {
        let c = s.get_char(i);
        v.push(c);
        proof {
            assert(v@ =~= s@.take(i + 1));
        }
        i += 1;
    }
    proof {
        assert(s@.take(n as int) =~= s@);
    }
    v
}

/// Relies on `String::push` from std: appends the given character to the
/// end of the string.
#[verifier::external_body]
fn push_char(s: &mut String, c: char)
    ensures
        final(s)@ == old(s)@.push(c),
{
    s.push(c);
}

/// A `String` holding exactly the characters of `v`.
pub fn chars_to_string(v: &Vec<char>) -> (r: String)
    ensures
        r@ == v@,
{
    let mut s = String::new();
    let mut i: usize = 0;
    while i < v.len()
        invariant
            i <= v@.len(),
            s@ == v@.take(i as int),
        decreases v@.len() - i,
    {
        push_char(&mut s, v[i]);
        proof {
            assert(s@ =~= v@.take(i + 1));
        }
        i += 1;
    }
    proof {
        assert(v@.take(v@.len() as int) =~= v@);
    }
    s
}

/// The decimal digit character for a value below ten.
pub open spec fn digit_char(d: int) -> char {
    if d == 0 {
        '0'
    } else if d == 1 {
        '1'
    } else if d == 2 {
        '2'
    } else if d == 3 {
        '3'
    } else if d == 4 {
        '4'
    } else if d == 5 {
        '5'
    } else if d == 6 {
        '6'
    } else if d == 7 {
        '7'
    } else if d == 8 {
        '8'
    } else {
        '9'
    }
}

fn digit_exec(d: usize) -> (c: char)
    requires
        d < 10,
    ensures
        c == digit_char(d as int),
{
    if d == 0 {
        '0'
    } else if d == 1 {
        '1'
    } else if d == 2 {
        '2'
    } else if d == 3 {
        '3'
    } else if d == 4 {
        '4'
    } else if d == 5 {
        '5'
    } else if d == 6 {
        '6'
    } else if d == 7 {
        '7'
    } else if d == 8 {
        '8'
    } else {
        '9'
    }
}

/// The usual decimal rendering of a natural number, most significant digit
/// first, with no leading zeros (and `0` rendered as `"0"`).
pub open spec fn dec_seq(n: nat) -> Seq<char>
    decreases n,
{
    if n < 10 {
        seq![digit_char(n as int)]
    } else {
        dec_seq(n / 10).push(digit_char((n % 10) as int))
    }
}

pub fn usize_to_chars(n: usize) -> (r: Vec<char>)
    ensures
        r@ == dec_seq(n as nat),
    decreases n,
{
    if n < 10 {
        let mut v: Vec<char> = Vec::new();
        v.push(digit_exec(n));
        proof {
            assert(v@ =~= dec_seq(n as nat));
        }
        v
    } else {
        let mut v = usize_to_chars(n / 10);
        v.push(digit_exec(n % 10));
        proof {
            assert(v@ =~= dec_seq(n as nat));
        }
        v
    }
}

/// The decimal rendering of a (possibly negative) integer.
pub open spec fn int_dec(n: int) -> Seq<char> {
    if n < 0 {
        seq!['-'] + dec_seq((-n) as nat)
    } else {
        dec_seq(n as nat)
    }
}

pub fn i32_to_chars(w: i32) -> (r: Vec<char>)
    ensures
        r@ == int_dec(w as int),
{
    if w < 0 {
        let mag: usize = (-(w as i64)) as usize;
        let mut v: Vec<char> = Vec::new();
        v.push('-');
        let mut digits = usize_to_chars(mag);
        v.append(&mut digits);
        proof {
            assert(v@ =~= int_dec(w as int));
        }
        v
    } else {
        usize_to_chars(w as usize)
    }
}

/// The numeric value of a digit character.
pub open spec fn digit_val(c: char) -> int {
    c as u32 - 48
}

/// The value of a string of decimal digits, most significant first.
pub open spec fn digits_val(s: Seq<char>) -> int
    decreases s.len(),
{
    if s.len() == 0 {
        0
    } else {
        digits_val(s.drop_last()) * 10 + digit_val(s.last())
    }
}

pub open spec fn pow10(n: nat) -> int
    decreases n,
{
    if n == 0 {
        1
    } else {
        10 * pow10((n - 1) as nat)
    }
}

/// The first few powers of ten, written out for use in range arguments.
pub proof fn lemma_pow10_values()
    ensures
        pow10(0) == 1,
        pow10(1) == 10,
        pow10(2) == 100,
        pow10(3) == 1000,
        pow10(4) == 10000,
        pow10(5) == 100000,
        pow10(6) == 1000000,
        pow10(7) == 10000000,
        pow10(8) == 100000000,
        pow10(9) == 1000000000,
        pow10(10) == 10000000000,
{
    assert(pow10(0) == 1);
    assert(pow10(1) == 10);
    assert(pow10(2) == 100);
    assert(pow10(3) == 1000);
    assert(pow10(4) == 10000);
    assert(pow10(5) == 100000);
    assert(pow10(6) == 1000000);
    assert(pow10(7) == 10000000);
    assert(pow10(8) == 100000000);
    assert(pow10(9) == 1000000000);
    assert(pow10(10) == 10000000000);
}

pub proof fn lemma_digits_val_bound(s: Seq<char>)
    requires
        all_digits(s),
    ensures
        0 <= digits_val(s) < pow10(s.len()),
    decreases s.len(),
{
    if s.len() > 0 {
        assert(all_digits(s.drop_last())) by {
            assert(forall|i: int| 0 <= i < s.len() - 1 ==> s.drop_last()[i] == s[i]);
        }
        lemma_digits_val_bound(s.drop_last());
    }
}

/// The value of the digit run `v[start..end]`, which must be short enough
/// that the value stays small.
pub fn parse_digits_small(v: &Vec<char>, start: usize, end: usize) -> (r: usize)
    requires
        start <= end <= v@.len(),
        end - start <= 4,
        all_digits(v@.subrange(start as int, end as int)),
    ensures
        r == digits_val(v@.subrange(start as int, end as int)),
        r <= 9999,
{
    let ghost whole = v@.subrange(start as int, end as int);
    let mut acc: usize = 0;
    let mut i: usize = start;
    while i < end
        invariant
            start <= i <= end <= v@.len(),
            end - start <= 4,
            all_digits(whole),
            whole == v@.subrange(start as int, end as int),
            acc == digits_val(v@.subrange(start as int, i as int)),
            acc < pow10((i - start) as nat),
        decreases end - i,
    {
        let ghost pre = v@.subrange(start as int, i as int);
        proof {
            assert(forall|k: int| 0 <= k < pre.len() ==> pre[k] == whole[k]);
            lemma_digits_val_bound(pre);
            lemma_pow10_values();
        }
        let c = v[i];
        proof {
            assert(whole[i - start] == v@[i as int]);
            assert(is_digit_char(c));
        }
        let d32: u32 = c as u32 - 48;
        let d: usize = d32 as usize;
        acc = acc * 10 + d;
        proof {
            let post = v@.subrange(start as int, i + 1);
            assert(post.drop_last() =~= pre);
            assert(post.last() == c);
        }
        i += 1;
    }
    proof {
        lemma_digits_val_bound(whole);
        lemma_pow10_values();
    }
    acc
}

/// How an integer attribute value is read: an optional minus sign, then one
/// to ten ASCII digits, with the value required to fit in `i32`; any other
/// shape is rejected.
pub open spec fn parse_int_attr(s: Seq<char>) -> Option<int> {
    let neg = s.len() > 0 && s[0] == '-';
    let ds = if neg {
        s.skip(1)
    } else {
        s
    };
    if 1 <= ds.len() <= 10 && all_digits(ds) {
        let v = if neg {
            -digits_val(ds)
        } else {
            digits_val(ds)
        };
        if i32::MIN <= v <= i32::MAX {
            Some(v)
        } else {
            None
        }
    } else {
        None
    }
}

pub fn parse_int_attr_exec(v: &Vec<char>) -> (r: Option<i32>)
    ensures
        match r {
            Some(w) => parse_int_attr(v@) == Some(w as int),
            None => parse_int_attr(v@) is None,
        },
{
    let neg = v.len() > 0 && v[0] == '-';
    let start: usize = if neg {
        1
    } else {
        0
    };
    let len = v.len();
    let ghost ds = if neg {
        v@.skip(1)
    } else {
        v@
    };
    proof {
        assert(ds.len() == len - start);
        assert(forall|k: int| 0 <= k < ds.len() ==> ds[k] == v@[k + start]);
    }
    if len - start < 1 || len - start > 10 {
        return None;
    }
    let mut acc: i64 = 0;
    let mut i: usize = start;
    while i < len
        invariant
            start <= i <= len == v@.len(),
            neg == (v@.len() > 0 && v@[0] == '-'),
            start == if neg {
                1int
            } else {
                0int
            },
            ds == if neg {
                v@.skip(1)
            } else {
                v@
            },
            len - start <= 10,
            ds.len() == len - start,
            forall|k: int| 0 <= k < ds.len() ==> ds[k] == v@[k + start],
            all_digits(ds.take(i - start)),
            acc == digits_val(ds.take(i - start)),
            0 <= acc < pow10((i - start) as nat),
        decreases len - i,
    {
        let c = v[i];
        if !is_digit(c) {
            proof {
                assert(ds[i - start] == c);
                assert(!is_digit_char(ds[i - start]));
                assert(!all_digits(ds));
            }
            return None;
        }
        let ghost pre = ds.take(i - start);
        proof {
            lemma_digits_val_bound(pre);
            lemma_pow10_values();
        }
        let d32: u32 = c as u32 - 48;
        let d: i64 = d32 as i64;
        acc = acc * 10 + d;
        proof {
            let post = ds.take(i + 1 - start);
            assert(post.drop_last() =~= pre);
            assert(post.last() == c);
            assert(all_digits(post)) by {
                assert(forall|k: int| 0 <= k < post.len() ==> post[k] == ds[k]);
            }
        }
        i += 1;
    }
    proof {
        assert(ds.take(len - start) =~= ds);
    }
    if neg {
        if acc > 2147483648i64 {
            return None;
        }
        Some((-acc) as i32)
    } else {
        if acc > 2147483647i64 {
            return None;
        }
        Some(acc as i32)
    }
}

} // verus!
