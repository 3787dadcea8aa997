//! Decimal numerals: parsing marker payloads and printing object-key indices.

use crate::text::is_digit;
use crate::text::push_char;
use vstd::prelude::*;

verus! {

/// The numeric value of an ASCII digit; zero on anything else.
pub open spec fn digit_val(c: char) -> nat {
    if is_digit(c) {
        (c as u32 - 48) as nat
    } else {
        0
    }
}

/// The value of a string of ASCII digits read as a decimal numeral.
pub open spec fn dec_val(ds: Seq<char>) -> nat
    decreases ds.len(),
{
    if ds.len() == 0 {
        0
    } else {
        10 * dec_val(ds.drop_last()) + digit_val(ds.last())
    }
}

/// A marker payload read as a score: the decimal value when it fits a
/// signed 64-bit integer, zero otherwise.
pub open spec fn parsed_i64(ds: Seq<char>) -> i64 {
    if dec_val(ds) <= i64::MAX {
        dec_val(ds) as i64
    } else {
        0
    }
}

/// A marker payload parsed as an unsigned 32-bit integer, zero on overflow.
pub open spec fn parsed_u32(ds: Seq<char>) -> u32 {
    if dec_val(ds) <= u32::MAX {
        dec_val(ds) as u32
    } else {
        0
    }
}

proof fn lemma_dec_val_take_step(ds: Seq<char>, i: int)
    requires
        0 <= i < ds.len(),
    ensures
        dec_val(ds.take(i + 1)) == 10 * dec_val(ds.take(i)) + digit_val(ds[i]),
{
    assert(ds.take(i + 1).drop_last() =~= ds.take(i));
    assert(ds.take(i + 1).last() == ds[i]);
}

proof fn lemma_dec_val_take_monotone(ds: Seq<char>, i: int)
    requires
        0 <= i <= ds.len(),
    ensures
        dec_val(ds.take(i)) <= dec_val(ds),
    decreases ds.len() - i,
{
    if i == ds.len() {
        assert(ds.take(i) =~= ds);
    } else {
        lemma_dec_val_take_step(ds, i);
        lemma_dec_val_take_monotone(ds, i + 1);
    }
}

/// The digits at `[lo, hi)` of `s` read as a decimal value; `None` when the
/// value exceeds `bound`.
fn parse_dec_bounded(s: &str, lo: usize, hi: usize, bound: u64) -> (r: Option<u64>)
    requires
        lo <= hi <= s@.len(),
        bound <= 0x7FFF_FFFF_FFFF_FFFF,
        forall|k: int| lo <= k < hi ==> is_digit(s@[k]),
    ensures
        match r {
            Some(v) => v as nat == dec_val(s@.subrange(lo as int, hi as int)) && v <= bound,
            None => dec_val(s@.subrange(lo as int, hi as int)) > bound,
        },
{
    let ghost ds = s@.subrange(lo as int, hi as int);
    let mut acc: u64 = 0;
    let mut over: bool = false;
    let mut i: usize = lo;
    while i < hi
        invariant
            lo <= i <= hi <= s@.len(),
            bound <= 0x7FFF_FFFF_FFFF_FFFF,
            ds == s@.subrange(lo as int, hi as int),
            forall|k: int| lo <= k < hi ==> is_digit(s@[k]),
            !over ==> acc as nat == dec_val(ds.take(i - lo)) && acc <= bound,
            over ==> dec_val(ds.take(i - lo)) > bound,
        decreases hi - i,
    {
        let c = s.get_char(i);
        assert(c == ds[i - lo]);
        let d: u64 = (c as u32 - 48) as u64;
        proof {
            lemma_dec_val_take_step(ds, i - lo);
        }
        if !over {
            if acc > bound / 10 {
                over = true;
            } else {
                acc = acc * 10 + d;
                if acc > bound {
                    over = true;
                }
            }
        }
        i = i + 1;
    }
    proof {
        assert(ds.take(hi - lo) =~= ds);
    }
    if over {
        None
    } else {
        Some(acc)
    }
}

/// The digits at `[lo, hi)` of `s` as a score value.
pub fn parse_score_digits(s: &str, lo: usize, hi: usize) -> (r: i64)
    requires
        lo <= hi <= s@.len(),
        forall|k: int| lo <= k < hi ==> is_digit(s@[k]),
    ensures
        r == parsed_i64(s@.subrange(lo as int, hi as int)),
{
    match parse_dec_bounded(s, lo, hi, i64::MAX as u64) {
        Some(v) => v as i64,
        None => 0,
    }
}

/// The digits at `[lo, hi)` of `s` as a timing value.
pub fn parse_time_digits(s: &str, lo: usize, hi: usize) -> (r: u32)
    requires
        lo <= hi <= s@.len(),
        forall|k: int| lo <= k < hi ==> is_digit(s@[k]),
    ensures
        r == parsed_u32(s@.subrange(lo as int, hi as int)),
{
    match parse_dec_bounded(s, lo, hi, u32::MAX as u64) {
        Some(v) => v as u32,
        None => 0,
    }
}

/// The ASCII digit of a value below ten.
pub open spec fn digit_char_of(d: nat) -> char {
    ((d + 48) as u8) as char
}

/// The decimal numeral of `n`, most significant digit first.
pub open spec fn dec_str(n: nat) -> Seq<char>
    decreases n,
{
    if n < 10 {
        seq![digit_char_of(n)]
    } else {
        dec_str(n / 10).push(digit_char_of(n % 10))
    }
}

/// `n` printed as a decimal numeral.
pub fn u64_to_dec(n: u64) -> (r: String)
    ensures
        r@ == dec_str(n as nat),
    decreases n,
{
    if n < 10 {
        let mut s = String::new();
        push_char(&mut s, (n as u8 + 48) as char);
        proof {
            assert(s@ =~= dec_str(n as nat));
        }
        s
    } else {
        let mut s = u64_to_dec(n / 10);
        push_char(&mut s, ((n % 10) as u8 + 48) as char);
        s
    }
}

} // verus!
