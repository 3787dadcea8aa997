//! The marker protocol: a graded program reports its own score and timing by
//! writing lines of the shape `@@HEURS_KEY=VALUE` to its diagnostic stream.
//!
//! A line matches when, after trimming surrounding whitespace, it consists of
//! the prefix `@@HEURS_`, a nonempty run of word characters (the key), `=`,
//! and a nonempty run of ASCII digits running to the end of the line.  The
//! key `SCORE` sets the score (signed 64-bit), the key `TIME_MS` sets the
//! timing value (unsigned 32-bit); other keys are ignored, and a payload too
//! large for its type degrades to zero.  Later lines overwrite earlier ones.

use crate::dec::parse_score_digits;
use crate::dec::parse_time_digits;
use crate::dec::parsed_i64;
use crate::dec::parsed_u32;
use crate::text::digit_char;
use crate::text::find_index;
use crate::text::is_digit;
use crate::text::is_word;
use crate::text::lemma_find_index_at;
use crate::text::lemma_find_index_bounds;
use crate::text::trim_str;
use crate::text::trimmed;
use crate::text::word_char;
use vstd::prelude::*;

verus! {

/// The marker prefix, `@@HEURS_`.
pub open spec fn marker_prefix() -> Seq<char> {
    seq!['@', '@', 'H', 'E', 'U', 'R', 'S', '_']
}

/// The key that carries the score.
pub open spec fn score_key() -> Seq<char> {
    seq!['S', 'C', 'O', 'R', 'E']
}

/// The key that carries the timing value.
pub open spec fn time_key() -> Seq<char> {
    seq!['T', 'I', 'M', 'E', '_', 'M', 'S']
}

/// Not a word character: ends the key of a marker line.
pub open spec fn nonword_pred() -> spec_fn(char) -> bool {
    |c: char| !is_word(c)
}

/// A line separator.
pub open spec fn newline_pred() -> spec_fn(char) -> bool {
    |c: char| c == '\n'
}

/// Where the key of a trimmed marker line ends: the first non-word
/// character after the prefix.
pub open spec fn key_end(t: Seq<char>) -> int {
    find_index(t, 8, nonword_pred())
}

/// Whether a trimmed line matches the marker pattern.
pub open spec fn is_marker_line(t: Seq<char>) -> bool {
    let j = key_end(t);
    &&& t.len() >= 11
    &&& t.subrange(0, 8) == marker_prefix()
    &&& 8 < j
    &&& j + 1 < t.len()
    &&& t[j] == '='
    &&& forall|k: int| j < k < t.len() ==> is_digit(t[k])
}

/// The key of a trimmed marker line.
pub open spec fn marker_key(t: Seq<char>) -> Seq<char> {
    t.subrange(8, key_end(t))
}

/// The digit payload of a trimmed marker line.
pub open spec fn marker_digits(t: Seq<char>) -> Seq<char> {
    t.subrange(key_end(t) + 1, t.len() as int)
}

/// The score and timing values after one line of the diagnostic stream.
pub open spec fn line_update(line: Seq<char>, score: i64, time: u32) -> (i64, u32) {
    let t = trimmed(line);
    if is_marker_line(t) {
        if marker_key(t) == score_key() {
            (parsed_i64(marker_digits(t)), time)
        } else if marker_key(t) == time_key() {
            (score, parsed_u32(marker_digits(t)))
        } else {
            (score, time)
        }
    } else {
        (score, time)
    }
}

/// The score and timing values after reading `text` line by line, starting
/// from the accumulated pair.
pub open spec fn markers_loop(text: Seq<char>, score: i64, time: u32) -> (i64, u32)
    decreases text.len(),
{
    if text.len() == 0 {
        (score, time)
    } else {
        let e = find_index(text, 0, newline_pred());
        let pair = line_update(text.take(e), score, time);
        if 0 <= e && e < text.len() {
            markers_loop(text.skip(e + 1), pair.0, pair.1)
        } else {
            pair
        }
    }
}

/// The score and timing values a diagnostic stream reports; both default to
/// zero when no line sets them.
pub open spec fn markers_of(text: Seq<char>) -> (i64, u32) {
    markers_loop(text, 0, 0)
}

/// The lines of a diagnostic stream, split at `\n`.
pub open spec fn lines_of(text: Seq<char>) -> Seq<Seq<char>>
    decreases text.len(),
{
    if text.len() == 0 {
        Seq::<Seq<char>>::empty()
    } else {
        let e = find_index(text, 0, newline_pred());
        if 0 <= e && e < text.len() {
            seq![text.take(e)] + lines_of(text.skip(e + 1))
        } else {
            seq![text]
        }
    }
}

/// The score and timing values after reading the given lines in order.
pub open spec fn fold_lines(ls: Seq<Seq<char>>, score: i64, time: u32) -> (i64, u32)
    decreases ls.len(),
{
    if ls.len() == 0 {
        (score, time)
    } else {
        let pair = line_update(ls.first(), score, time);
        fold_lines(ls.drop_first(), pair.0, pair.1)
    }
}

/// A line that sets the score.
pub open spec fn is_score_line(line: Seq<char>) -> bool {
    is_marker_line(trimmed(line)) && marker_key(trimmed(line)) == score_key()
}

/// A line that sets the timing value.
pub open spec fn is_time_line(line: Seq<char>) -> bool {
    is_marker_line(trimmed(line)) && marker_key(trimmed(line)) == time_key()
}

/// The score a score line carries.
pub open spec fn score_payload(line: Seq<char>) -> i64 {
    parsed_i64(marker_digits(trimmed(line)))
}

/// The timing value a timing line carries.
pub open spec fn time_payload(line: Seq<char>) -> u32 {
    parsed_u32(marker_digits(trimmed(line)))
}

/// The payload of the last score line, or the default when none is one.
pub open spec fn last_score(ls: Seq<Seq<char>>, dflt: i64) -> i64
    decreases ls.len(),
{
    if ls.len() == 0 {
        dflt
    } else if is_score_line(ls.last()) {
        score_payload(ls.last())
    } else {
        last_score(ls.drop_last(), dflt)
    }
}

/// The payload of the last timing line, or the default when none is one.
pub open spec fn last_time(ls: Seq<Seq<char>>, dflt: u32) -> u32
    decreases ls.len(),
{
    if ls.len() == 0 {
        dflt
    } else if is_time_line(ls.last()) {
        time_payload(ls.last())
    } else {
        last_time(ls.drop_last(), dflt)
    }
}

/// At most one line sets the score.
pub open spec fn at_most_one_score_line(ls: Seq<Seq<char>>) -> bool {
    forall|i: int, j: int|
        0 <= i < ls.len() && 0 <= j < ls.len() && is_score_line(#[trigger] ls[i]) && is_score_line(
            #[trigger] ls[j],
        ) ==> i == j
}

/// At most one line sets the timing value.
pub open spec fn at_most_one_time_line(ls: Seq<Seq<char>>) -> bool {
    forall|i: int, j: int|
        0 <= i < ls.len() && 0 <= j < ls.len() && is_time_line(#[trigger] ls[i]) && is_time_line(
            #[trigger] ls[j],
        ) ==> i == j
}

proof fn lemma_markers_loop_is_fold(text: Seq<char>, score: i64, time: u32)
    ensures
        markers_loop(text, score, time) == fold_lines(lines_of(text), score, time),
    decreases text.len(),
{
    if text.len() > 0 {
        let e = find_index(text, 0, newline_pred());
        lemma_find_index_bounds(text, 0, newline_pred());
        let pair = line_update(text.take(e), score, time);
        if e < text.len() {
            let rest = lines_of(text.skip(e + 1));
            let ls = seq![text.take(e)] + rest;
            assert(lines_of(text) == ls);
            assert(ls.len() > 0);
            assert(ls.first() == text.take(e));
            assert(ls.drop_first() =~= rest);
            assert(fold_lines(ls, score, time) == fold_lines(rest, pair.0, pair.1));
            assert(markers_loop(text, score, time) == markers_loop(text.skip(e + 1), pair.0, pair.1));
            lemma_markers_loop_is_fold(text.skip(e + 1), pair.0, pair.1);
        } else {
            assert(text.take(e) =~= text);
            let ls = seq![text];
            assert(lines_of(text) == ls);
            assert(ls.first() == text);
            assert(ls.drop_first() =~= Seq::<Seq<char>>::empty());
            assert(fold_lines(ls, score, time) == fold_lines(
                Seq::<Seq<char>>::empty(),
                pair.0,
                pair.1,
            ));
            assert(markers_loop(text, score, time) == pair);
        }
    }
}

proof fn lemma_fold_push(ls: Seq<Seq<char>>, l: Seq<char>, score: i64, time: u32)
    ensures
        fold_lines(ls.push(l), score, time) == line_update(
            l,
            fold_lines(ls, score, time).0,
            fold_lines(ls, score, time).1,
        ),
    decreases ls.len(),
{
    let pushed = ls.push(l);
    assert(pushed.len() == ls.len() + 1);
    if ls.len() == 0 {
        assert(pushed.first() == l);
        assert(pushed.drop_first() =~= Seq::<Seq<char>>::empty());
        let pair = line_update(l, score, time);
        assert(fold_lines(pushed, score, time) == fold_lines(
            Seq::<Seq<char>>::empty(),
            pair.0,
            pair.1,
        ));
        assert(fold_lines(ls, score, time) == (score, time));
    } else {
        assert(pushed.first() == ls.first());
        assert(pushed.drop_first() =~= ls.drop_first().push(l));
        let pair = line_update(ls.first(), score, time);
        assert(fold_lines(pushed, score, time) == fold_lines(
            ls.drop_first().push(l),
            pair.0,
            pair.1,
        ));
        assert(fold_lines(ls, score, time) == fold_lines(ls.drop_first(), pair.0, pair.1));
        lemma_fold_push(ls.drop_first(), l, pair.0, pair.1);
    }
}

proof fn lemma_fold_characterize(ls: Seq<Seq<char>>, score: i64, time: u32)
    ensures
        fold_lines(ls, score, time) == (last_score(ls, score), last_time(ls, time)),
    decreases ls.len(),
{
    if ls.len() > 0 {
        let l = ls.last();
        let front = ls.drop_last();
        assert(ls =~= front.push(l));
        lemma_fold_characterize(front, score, time);
        lemma_fold_push(front, l, score, time);
        assert(front.push(l).last() == l);
        assert(front.push(l).drop_last() =~= front);
    }
}

proof fn lemma_last_score_absent(ls: Seq<Seq<char>>, dflt: i64)
    requires
        forall|i: int| 0 <= i < ls.len() ==> !is_score_line(#[trigger] ls[i]),
    ensures
        last_score(ls, dflt) == dflt,
    decreases ls.len(),
{
    if ls.len() > 0 {
        lemma_last_score_absent(ls.drop_last(), dflt);
    }
}

proof fn lemma_last_time_absent(ls: Seq<Seq<char>>, dflt: u32)
    requires
        forall|i: int| 0 <= i < ls.len() ==> !is_time_line(#[trigger] ls[i]),
    ensures
        last_time(ls, dflt) == dflt,
    decreases ls.len(),
{
    if ls.len() > 0 {
        lemma_last_time_absent(ls.drop_last(), dflt);
    }
}

proof fn lemma_last_score_unique(ls: Seq<Seq<char>>, dflt: i64, i: int)
    requires
        at_most_one_score_line(ls),
        0 <= i < ls.len(),
        is_score_line(ls[i]),
    ensures
        last_score(ls, dflt) == score_payload(ls[i]),
    decreases ls.len(),
{
    if is_score_line(ls.last()) {
        assert(ls.last() == ls[ls.len() - 1]);
        assert(i == ls.len() - 1);
    } else {
        assert(i < ls.len() - 1);
        assert(forall|m: int| 0 <= m < ls.drop_last().len() ==> ls.drop_last()[m] == ls[m]);
        lemma_last_score_unique(ls.drop_last(), dflt, i);
    }
}

proof fn lemma_last_time_unique(ls: Seq<Seq<char>>, dflt: u32, i: int)
    requires
        at_most_one_time_line(ls),
        0 <= i < ls.len(),
        is_time_line(ls[i]),
    ensures
        last_time(ls, dflt) == time_payload(ls[i]),
    decreases ls.len(),
{
    if is_time_line(ls.last()) {
        assert(ls.last() == ls[ls.len() - 1]);
        assert(i == ls.len() - 1);
    } else {
        assert(i < ls.len() - 1);
        assert(forall|m: int| 0 <= m < ls.drop_last().len() ==> ls.drop_last()[m] == ls[m]);
        lemma_last_time_unique(ls.drop_last(), dflt, i);
    }
}

/// Law: a text without a score line reports score zero, and one without a
/// timing line reports timing zero — unrecognized keys and malformed
/// payloads leave the defaults in place rather than erroring.
pub proof fn lemma_extract_defaults(text: Seq<char>)
    ensures
        (forall|i: int|
            0 <= i < lines_of(text).len() ==> !is_score_line(#[trigger] lines_of(text)[i]))
            ==> markers_of(text).0 == 0,
        (forall|i: int|
            0 <= i < lines_of(text).len() ==> !is_time_line(#[trigger] lines_of(text)[i]))
            ==> markers_of(text).1 == 0,
{
    lemma_markers_loop_is_fold(text, 0, 0);
    lemma_fold_characterize(lines_of(text), 0, 0);
    if forall|i: int|
        0 <= i < lines_of(text).len() ==> !is_score_line(#[trigger] lines_of(text)[i]) {
        lemma_last_score_absent(lines_of(text), 0);
    }
    if forall|i: int|
        0 <= i < lines_of(text).len() ==> !is_time_line(#[trigger] lines_of(text)[i]) {
        lemma_last_time_absent(lines_of(text), 0);
    }
}

/// Law: extraction is order-independent for distinct keys — two texts whose
/// lines are the same multiset, each key set by at most one line, report the
/// same score and timing values.
pub proof fn lemma_extract_order_independent(a: Seq<char>, b: Seq<char>)
    requires
        lines_of(a).to_multiset() == lines_of(b).to_multiset(),
        at_most_one_score_line(lines_of(a)),
        at_most_one_time_line(lines_of(a)),
        at_most_one_score_line(lines_of(b)),
        at_most_one_time_line(lines_of(b)),
    ensures
        markers_of(a) == markers_of(b),
{
    broadcast use vstd::seq_lib::group_to_multiset_ensures;

    let la = lines_of(a);
    let lb = lines_of(b);
    lemma_markers_loop_is_fold(a, 0, 0);
    lemma_markers_loop_is_fold(b, 0, 0);
    lemma_fold_characterize(la, 0, 0);
    lemma_fold_characterize(lb, 0, 0);
    if exists|i: int| 0 <= i < la.len() && is_score_line(#[trigger] la[i]) {
        let i = choose|i: int| 0 <= i < la.len() && is_score_line(#[trigger] la[i]);
        assert(la.contains(la[i]));
        assert(la.to_multiset().count(la[i]) > 0);
        assert(lb.to_multiset().count(la[i]) > 0);
        assert(lb.contains(la[i]));
        let j = choose|j: int| 0 <= j < lb.len() && lb[j] == la[i];
        lemma_last_score_unique(la, 0, i);
        lemma_last_score_unique(lb, 0, j);
    } else {
        assert(forall|m: int| 0 <= m < la.len() ==> !is_score_line(#[trigger] la[m]));
        assert forall|m: int| 0 <= m < lb.len() implies !is_score_line(#[trigger] lb[m]) by {
            if is_score_line(lb[m]) {
                assert(lb.contains(lb[m]));
                assert(lb.to_multiset().count(lb[m]) > 0);
                assert(la.to_multiset().count(lb[m]) > 0);
                assert(la.contains(lb[m]));
                let w = choose|w: int| 0 <= w < la.len() && la[w] == lb[m];
                assert(is_score_line(la[w]));
            }
        }
        lemma_last_score_absent(la, 0);
        lemma_last_score_absent(lb, 0);
    }
    if exists|i: int| 0 <= i < la.len() && is_time_line(#[trigger] la[i]) {
        let i = choose|i: int| 0 <= i < la.len() && is_time_line(#[trigger] la[i]);
        assert(la.contains(la[i]));
        assert(la.to_multiset().count(la[i]) > 0);
        assert(lb.to_multiset().count(la[i]) > 0);
        assert(lb.contains(la[i]));
        let j = choose|j: int| 0 <= j < lb.len() && lb[j] == la[i];
        lemma_last_time_unique(la, 0, i);
        lemma_last_time_unique(lb, 0, j);
    } else {
        assert(forall|m: int| 0 <= m < la.len() ==> !is_time_line(#[trigger] la[m]));
        assert forall|m: int| 0 <= m < lb.len() implies !is_time_line(#[trigger] lb[m]) by {
            if is_time_line(lb[m]) {
                assert(lb.contains(lb[m]));
                assert(lb.to_multiset().count(lb[m]) > 0);
                assert(la.to_multiset().count(lb[m]) > 0);
                assert(la.contains(lb[m]));
                let w = choose|w: int| 0 <= w < la.len() && la[w] == lb[m];
                assert(is_time_line(la[w]));
            }
        }
        lemma_last_time_absent(la, 0);
        lemma_last_time_absent(lb, 0);
    }
}

/// One line's effect on the accumulated score and timing values.
fn apply_marker_line(line: &str, score: i64, time: u32) -> (r: (i64, u32))
    ensures
        r == line_update(line@, score, time),
{
    let t = trim_str(line);
    let n = t.unicode_len();
    if n < 11 {
        return (score, time);
    }
    if !(t.get_char(0) == '@' && t.get_char(1) == '@' && t.get_char(2) == 'H' && t.get_char(3)
        == 'E' && t.get_char(4) == 'U' && t.get_char(5) == 'R' && t.get_char(6) == 'S'
        && t.get_char(7) == '_') {
        assert(t@.subrange(0, 8) != marker_prefix());
        return (score, time);
    }
    assert(t@.subrange(0, 8) =~= marker_prefix());
    let mut j: usize = 8;
    while j < n && word_char(t.get_char(j))
        invariant
            8 <= j <= n,
            n == t@.len(),
            forall|k: int| 8 <= k < j ==> is_word(t@[k]),
        decreases n - j,
    {
        j = j + 1;
    }
    proof {
        lemma_find_index_at(t@, 8, j as int, nonword_pred());
        assert(key_end(t@) == j);
    }
    if j == 8 || j >= n - 1 {
        return (score, time);
    }
    if t.get_char(j) != '=' {
        return (score, time);
    }
    let mut k: usize = j + 1;
    while k < n && digit_char(t.get_char(k))
        invariant
            j + 1 <= k <= n,
            n == t@.len(),
            forall|m: int| j < m < k ==> is_digit(t@[m]),
        decreases n - k,
    {
        k = k + 1;
    }
    if k < n {
        return (score, time);
    }
    assert(is_marker_line(t@));
    assert(marker_digits(t@) =~= t@.subrange(j + 1, n as int));
    if j == 13 && t.get_char(8) == 'S' && t.get_char(9) == 'C' && t.get_char(10) == 'O'
        && t.get_char(11) == 'R' && t.get_char(12) == 'E' {
        assert(marker_key(t@) =~= score_key());
        let v = parse_score_digits(t, j + 1, n);
        return (v, time);
    }
    if j == 15 && t.get_char(8) == 'T' && t.get_char(9) == 'I' && t.get_char(10) == 'M'
        && t.get_char(11) == 'E' && t.get_char(12) == '_' && t.get_char(13) == 'M' && t.get_char(
        14,
    ) == 'S' {
        assert(marker_key(t@) =~= time_key());
        let v = parse_time_digits(t, j + 1, n);
        return (score, v);
    }
    proof {
        if marker_key(t@) == score_key() {
            assert(marker_key(t@).len() == 5);
            assert(t@[8] == score_key()[0] && t@[9] == score_key()[1] && t@[10] == score_key()[2]
                && t@[11] == score_key()[3] && t@[12] == score_key()[4]);
            assert(false);
        }
        if marker_key(t@) == time_key() {
            assert(marker_key(t@).len() == 7);
            assert(t@[8] == time_key()[0] && t@[9] == time_key()[1] && t@[10] == time_key()[2]
                && t@[11] == time_key()[3] && t@[12] == time_key()[4] && t@[13] == time_key()[5]
                && t@[14] == time_key()[6]);
            assert(false);
        }
    }
    (score, time)
}

/// The score and timing values that `s` reports through the marker protocol.
pub fn extract_heurs_markers(s: &str) -> (r: (i64, u32))
    ensures
        r == markers_of(s@),
{
    let n = s.unicode_len();
    let mut score: i64 = 0;
    let mut time: u32 = 0;
    let mut i: usize = 0;
    let mut done: bool = false;
    proof {
        assert(s@.skip(0) =~= s@);
    }
    while !done && i < n
        invariant
            0 <= i <= n,
            n == s@.len(),
            !done ==> markers_loop(s@.skip(i as int), score, time) == markers_of(s@),
            done ==> (score, time) == markers_of(s@),
        decreases (if done { 0int } else { 1int }), n - i,
    {
        let ghost u = s@.skip(i as int);
        let mut e: usize = i;
        while e < n && s.get_char(e) != '\n'
            invariant
                i <= e <= n,
                n == s@.len(),
                forall|k: int| i <= k < e ==> s@[k] != '\n',
            decreases n - e,
        {
            e = e + 1;
        }
        proof {
            assert forall|k: int| 0 <= k < e - i implies !(newline_pred()(u[k])) by {
                assert(u[k] == s@[i + k]);
            }
            if e < n {
                assert(newline_pred()(u[(e - i) as int]));
            }
            lemma_find_index_at(u, 0, e - i, newline_pred());
        }
        let line = s.substring_char(i, e);
        proof {
            assert(line@ =~= u.take(e - i));
        }
        let pair = apply_marker_line(line, score, time);
        score = pair.0;
        time = pair.1;
        if e == n {
            done = true;
        } else {
            proof {
                assert(u.skip(e - i + 1) =~= s@.skip(e + 1));
            }
            i = e + 1;
        }
    }
    (score, time)
}

} // verus!
