//! Display formatting of date-time strings to minute precision: an RFC 3339
//! timestamp such as `2024-07-24T10:39:12Z` renders as `2024-07-24 10:39`.

use crate::text::find_index;
use crate::text::lemma_find_index_at;
use vstd::prelude::*;

verus! {

/// The separator between the date and the time.
pub open spec fn t_sep_pred() -> spec_fn(char) -> bool {
    |c: char| c == 'T'
}

/// What ends the wall-time part: a zone designator, a zone offset, or
/// fractional seconds.
pub open spec fn time_cut_pred() -> spec_fn(char) -> bool {
    |c: char| c == 'Z' || c == '+' || c == '.'
}

/// A date-time string cut to minute precision: the date, a space, and the
/// first five characters (`HH:MM`) of the time.  A string without a `T`
/// separator, or whose time part is shorter than five characters, stays as
/// it is.
pub open spec fn minute_display(s: Seq<char>) -> Seq<char> {
    let t = find_index(s, 0, t_sep_pred());
    if t == s.len() {
        s
    } else {
        let rest = s.skip(t + 1);
        let cut = find_index(rest, 0, time_cut_pred());
        if cut >= 5 {
            s.take(t) + seq![' '] + rest.take(5)
        } else {
            s
        }
    }
}

fn is_cut_char(c: char) -> (r: bool)
    ensures
        r == time_cut_pred()(c),
{
    c == 'Z' || c == '+' || c == '.'
}

/// Formats a date-time string to minute precision.
pub fn format_datetime_minute(datetime: &str) -> (r: String)
    ensures
        r@ == minute_display(datetime@),
{
    let n = datetime.unicode_len();
    let mut t: usize = 0;
    while t < n && datetime.get_char(t) != 'T'
        invariant
            0 <= t <= n,
            n == datetime@.len(),
            forall|k: int| 0 <= k < t ==> datetime@[k] != 'T',
        decreases n - t,
    {
        t = t + 1;
    }
    proof {
        assert forall|k: int| 0 <= k < t implies !(t_sep_pred()(datetime@[k])) by {}
        if t < n {
            assert(t_sep_pred()(datetime@[t as int]));
        }
        lemma_find_index_at(datetime@, 0, t as int, t_sep_pred());
    }
    if t == n {
        return String::from_str(datetime);
    }
    let ghost rest = datetime@.skip(t + 1);
    let mut e: usize = t + 1;
    while e < n && !is_cut_char(datetime.get_char(e))
        invariant
            t + 1 <= e <= n,
            n == datetime@.len(),
            forall|k: int|
                t + 1 <= k < e ==> datetime@[k] != 'Z' && datetime@[k] != '+' && datetime@[k]
                    != '.',
        decreases n - e,
    {
        e = e + 1;
    }
    proof {
        assert forall|k: int| 0 <= k < e - (t + 1) implies !(time_cut_pred()(rest[k])) by {
            assert(rest[k] == datetime@[t + 1 + k]);
        }
        if e < n {
            assert(time_cut_pred()(rest[e - (t + 1)]));
        }
        lemma_find_index_at(rest, 0, e - (t + 1), time_cut_pred());
    }
    if e - (t + 1) >= 5 {
        let date = datetime.substring_char(0, t);
        let hm = datetime.substring_char(t + 1, t + 6);
        let mut out = String::from_str(date);
        out.append(" ");
        out.append(hm);
        proof {
            reveal_strlit(" ");
            assert(" "@ =~= seq![' ']);
            assert(hm@ =~= rest.take(5));
            assert(out@ =~= datetime@.take(t as int) + seq![' '] + rest.take(5));
        }
        out
    } else {
        String::from_str(datetime)
    }
}

} // verus!
