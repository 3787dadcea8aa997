//! Character classes, whitespace trimming and scanning over `Seq<char>` views.

use vstd::prelude::*;

verus! {

/// A whitespace character, as Rust's `char::is_whitespace` counts them
/// (the Unicode `White_Space` set).
pub open spec fn is_space(c: char) -> bool {
    let u = c as u32;
    (9 <= u && u <= 13) || u == 32 || u == 0x85 || u == 0xA0 || u == 0x1680
        || (0x2000 <= u && u <= 0x200A) || u == 0x2028 || u == 0x2029 || u == 0x202F
        || u == 0x205F || u == 0x3000
}

/// A word character of the marker protocol: an ASCII letter, digit or `_`.
pub open spec fn is_word(c: char) -> bool {
    let u = c as u32;
    (48 <= u && u <= 57) || (65 <= u && u <= 90) || u == 95 || (97 <= u && u <= 122)
}

/// An ASCII decimal digit.
pub open spec fn is_digit(c: char) -> bool {
    48 <= c as u32 && c as u32 <= 57
}

pub fn space_char(c: char) -> (r: bool)
    ensures
        r == is_space(c),
{
    let u = c as u32;
    (9 <= u && u <= 13) || u == 32 || u == 0x85 || u == 0xA0 || u == 0x1680
        || (0x2000 <= u && u <= 0x200A) || u == 0x2028 || u == 0x2029 || u == 0x202F
        || u == 0x205F || u == 0x3000
}

pub fn word_char(c: char) -> (r: bool)
    ensures
        r == is_word(c),
{
    let u = c as u32;
    (48 <= u && u <= 57) || (65 <= u && u <= 90) || u == 95 || (97 <= u && u <= 122)
}

pub fn digit_char(c: char) -> (r: bool)
    ensures
        r == is_digit(c),
{
    let u = c as u32;
    48 <= u && u <= 57
}

/// The first index at or after `from` whose character satisfies `p`,
/// or `s.len()` when none does.
pub open spec fn find_index(s: Seq<char>, from: int, p: spec_fn(char) -> bool) -> int
    decreases s.len() - from,
{
    if from < 0 {
        find_index(s, 0, p)
    } else if from >= s.len() {
        s.len() as int
    } else if p(s[from]) {
        from
    } else {
        find_index(s, from + 1, p)
    }
}

pub proof fn lemma_find_index_bounds(s: Seq<char>, from: int, p: spec_fn(char) -> bool)
    requires
        0 <= from <= s.len(),
    ensures
        from <= find_index(s, from, p) <= s.len(),
        forall|k: int| from <= k < find_index(s, from, p) ==> !p(s[k]),
        find_index(s, from, p) < s.len() ==> p(s[find_index(s, from, p)]),
    decreases s.len() - from,
{
    if from < s.len() && !p(s[from]) {
        lemma_find_index_bounds(s, from + 1, p);
    }
}

/// A scan that saw no hit in `[from, upto)` pins `find_index` past `upto`.
pub proof fn lemma_find_index_at(s: Seq<char>, from: int, upto: int, p: spec_fn(char) -> bool)
    requires
        0 <= from <= upto <= s.len(),
        forall|k: int| from <= k < upto ==> !p(s[k]),
        upto == s.len() || p(s[upto]),
    ensures
        find_index(s, from, p) == upto,
    decreases upto - from,
{
    if from < upto {
        lemma_find_index_at(s, from + 1, upto, p);
    }
}

/// `s` with leading whitespace removed.
pub open spec fn trim_front(s: Seq<char>) -> Seq<char>
    decreases s.len(),
{
    if s.len() > 0 && is_space(s[0]) {
        trim_front(s.skip(1))
    } else {
        s
    }
}

/// `s` with trailing whitespace removed.
pub open spec fn trim_back(s: Seq<char>) -> Seq<char>
    decreases s.len(),
{
    if s.len() > 0 && is_space(s[s.len() - 1]) {
        trim_back(s.take(s.len() - 1))
    } else {
        s
    }
}

/// `s` with surrounding whitespace removed.
pub open spec fn trimmed(s: Seq<char>) -> Seq<char> {
    trim_back(trim_front(s))
}

proof fn lemma_trim_front_at(s: Seq<char>, lo: int)
    requires
        0 <= lo <= s.len(),
        forall|k: int| 0 <= k < lo ==> is_space(s[k]),
        lo == s.len() || !is_space(s[lo]),
    ensures
        trim_front(s) == s.skip(lo),
    decreases lo,
{
    if lo == 0 {
        assert(s.skip(0) =~= s);
    } else {
        lemma_trim_front_at(s.skip(1), lo - 1);
        assert(s.skip(1).skip(lo - 1) =~= s.skip(lo));
    }
}

proof fn lemma_trim_back_at(s: Seq<char>, hi: int)
    requires
        0 <= hi <= s.len(),
        forall|k: int| hi <= k < s.len() ==> is_space(s[k]),
        hi == 0 || !is_space(s[hi - 1]),
    ensures
        trim_back(s) == s.take(hi),
    decreases s.len() - hi,
{
    if hi == s.len() {
        assert(s.take(hi) =~= s);
    } else {
        lemma_trim_back_at(s.take(s.len() - 1), hi);
        assert(s.take(s.len() - 1).take(hi) =~= s.take(hi));
    }
}

/// Where the trimmed middle of `s` sits: scanning found the first and last
/// non-space characters at `lo` and `hi - 1`.
pub proof fn lemma_trimmed_is_subrange(s: Seq<char>, lo: int, hi: int)
    requires
        0 <= lo <= hi <= s.len(),
        forall|k: int| 0 <= k < lo ==> is_space(s[k]),
        forall|k: int| hi <= k < s.len() ==> is_space(s[k]),
        lo == hi || (!is_space(s[lo]) && !is_space(s[hi - 1])),
        lo == hi ==> hi == s.len(),
    ensures
        trimmed(s) == s.subrange(lo, hi),
{
    if lo == hi {
        lemma_trim_front_at(s, lo);
        assert(trim_front(s) =~= s.subrange(lo, hi));
        assert(trim_front(s).len() == 0);
    } else {
        lemma_trim_front_at(s, lo);
        let t = s.skip(lo);
        lemma_trim_back_at(t, hi - lo);
        assert(t.take(hi - lo) =~= s.subrange(lo, hi));
    }
}

/// The trimmed view of `s` as a slice of it.
pub fn trim_str<'a>(s: &'a str) -> (r: &'a str)
    ensures
        r@ == trimmed(s@),
{
    let n = s.unicode_len();
    let mut lo: usize = 0;
    while lo < n && space_char(s.get_char(lo))
        invariant
            0 <= lo <= n,
            n == s@.len(),
            forall|k: int| 0 <= k < lo ==> is_space(s@[k]),
        decreases n - lo,
    {
        lo = lo + 1;
    }
    if lo == n {
        proof {
            lemma_trimmed_is_subrange(s@, n as int, n as int);
        }
        return s.substring_char(n, n);
    }
    let mut hi: usize = n;
    while hi > lo && space_char(s.get_char(hi - 1))
        invariant
            lo <= hi <= n,
            n == s@.len(),
            lo < n && !is_space(s@[lo as int]),
            forall|k: int| hi <= k < n ==> is_space(s@[k]),
        decreases hi,
    {
        hi = hi - 1;
    }
    proof {
        lemma_trimmed_is_subrange(s@, lo as int, hi as int);
    }
    s.substring_char(lo, hi)
}

/// Relies on `String::push`: appends one character.
#[verifier::external_body]
pub fn push_char(s: &mut String, c: char)
    ensures
        final(s)@ == old(s)@.push(c),
{
    s.push(c)
}

} // verus!
