//! Character-level helpers over `&str` and its `Seq<char>` view: searching,
//! comparison, trimming, splitting and digit parsing.  Every executable
//! function is specified against a recursive spec function on the view.

use vstd::prelude::*;

verus! {

/// Space or horizontal tab: the characters that begin a folded
/// (continuation) line in iCalendar text.
pub open spec fn is_space_char(c: char) -> bool {
    c == ' ' || c == '\t'
}

/// ASCII whitespace as used when trimming element text.
pub open spec fn is_ws_char(c: char) -> bool {
    c == ' ' || c == '\t' || c == '\r' || c == '\n'
}

pub open spec fn is_digit_char(c: char) -> bool {
    48 <= c as u32 && c as u32 <= 57
}

pub open spec fn digit_val(c: char) -> nat {
    ((c as u32) - 48) as nat
}

/// Index of the first occurrence of `c` at or after `from`, if any.
pub open spec fn spec_find(s: Seq<char>, c: char, from: int) -> Option<int>
    decreases s.len() - from,
    when 0 <= from <= s.len()
{
    if from >= s.len() {
        None
    } else if s[from] == c {
        Some(from)
    } else {
        spec_find(s, c, from + 1)
    }
}

/// A found index lies between `from` and the end, holds `c`, and nothing
/// before it (at or after `from`) holds `c`.
pub proof fn lemma_find_bounds(s: Seq<char>, c: char, from: int)
    requires
        0 <= from <= s.len(),
    ensures
        match spec_find(s, c, from) {
            Some(i) => from <= i < s.len() && s[i] == c && (forall|j: int|
                from <= j < i ==> s[j] != c),
            None => forall|j: int| from <= j < s.len() ==> s[j] != c,
        },
    decreases s.len() - from,
{
    if from < s.len() && s[from] != c {
        lemma_find_bounds(s, c, from + 1);
    }
}

pub fn find_from(s: &str, c: char, from: usize) -> (r: Option<usize>)
    requires
        from <= s@.len(),
    ensures
        match r {
            Some(i) => from <= i < s@.len() && spec_find(s@, c, from as int) == Some(i as int),
            None => spec_find(s@, c, from as int) is None,
        },
    decreases s@.len() - from,
{
    let n = s.unicode_len();
    if from >= n {
        None
    } else if s.get_char(from) == c {
        Some(from)
    } else {
        find_from(s, c, from + 1)
    }
}

/// Character-for-character string equality, phrased on the views.
pub fn str_eq(a: &str, b: &str) -> (r: bool)
    ensures
        r == (a@ == b@),
{
    let na = a.unicode_len();
    let nb = b.unicode_len();
    if na != nb {
        return false;
    }
    let mut i: usize = 0;
    while i < na
        invariant
            na == a@.len(),
            na == b@.len(),
            i <= na,
            forall|j: int| 0 <= j < i ==> a@[j] == b@[j],
        decreases na - i,
    {
        if s_get(a, i) != s_get(b, i) {
            return false;
        }
        i += 1;
    }
    proof {
        assert(a@ =~= b@);
    }
    true
}

/// `get_char` under a name that cannot be mistaken for a field access.
fn s_get(s: &str, i: usize) -> (c: char)
    requires
        i < s@.len(),
    ensures
        c == s@[i as int],
{
    s.get_char(i)
}

pub open spec fn spec_starts_with(s: Seq<char>, p: Seq<char>) -> bool {
    p.len() <= s.len() && (forall|j: int| 0 <= j < p.len() ==> s[j] == p[j])
}

pub open spec fn spec_ends_with(s: Seq<char>, p: Seq<char>) -> bool {
    p.len() <= s.len() && (forall|j: int|
        0 <= j < p.len() ==> s[s.len() - p.len() + j] == p[j])
}

pub fn str_starts_with(s: &str, p: &str) -> (r: bool)
    ensures
        r == spec_starts_with(s@, p@),
{
    let n = s.unicode_len();
    let np = p.unicode_len();
    if np > n {
        return false;
    }
    let mut i: usize = 0;
    while i < np
        invariant
            n == s@.len(),
            np == p@.len(),
            np <= n,
            i <= np,
            forall|j: int| 0 <= j < i ==> s@[j] == p@[j],
        decreases np - i,
    {
        if s_get(s, i) != s_get(p, i) {
            return false;
        }
        i += 1;
    }
    true
}

pub fn str_ends_with(s: &str, p: &str) -> (r: bool)
    ensures
        r == spec_ends_with(s@, p@),
{
    let n = s.unicode_len();
    let np = p.unicode_len();
    if np > n {
        return false;
    }
    let off = n - np;
    let mut i: usize = 0;
    while i < np
        invariant
            n == s@.len(),
            np == p@.len(),
            np <= n,
            off == n - np,
            i <= np,
            forall|j: int| 0 <= j < i ==> s@[off + j] == p@[j],
        decreases np - i,
    {
        if s_get(s, off + i) != s_get(p, i) {
            return false;
        }
        i += 1;
    }
    true
}

pub fn is_ws(c: char) -> (r: bool)
    ensures
        r == is_ws_char(c),
{
    c == ' ' || c == '\t' || c == '\r' || c == '\n'
}

/// Index of the first character at or after `i` that is not whitespace
/// (`s.len()` when all of the rest is whitespace).
pub open spec fn first_non_ws(s: Seq<char>, i: int) -> int
    decreases s.len() - i,
    when 0 <= i <= s.len()
{
    if i >= s.len() {
        i
    } else if is_ws_char(s[i]) {
        first_non_ws(s, i + 1)
    } else {
        i
    }
}

/// End (exclusive) of the text once trailing whitespace before `j` is
/// dropped (`0` when everything before `j` is whitespace).
pub open spec fn last_non_ws_end(s: Seq<char>, j: int) -> int
    decreases j,
    when 0 <= j <= s.len()
{
    if j <= 0 {
        0
    } else if is_ws_char(s[j - 1]) {
        last_non_ws_end(s, j - 1)
    } else {
        j
    }
}

/// `s` with leading and trailing ASCII whitespace removed.
pub open spec fn spec_trim(s: Seq<char>) -> Seq<char> {
    let a = first_non_ws(s, 0);
    let b = last_non_ws_end(s, s.len() as int);
    if a <= b {
        s.subrange(a, b)
    } else {
        Seq::empty()
    }
}

fn first_non_ws_exec(s: &str, i: usize) -> (r: usize)
    requires
        i <= s@.len(),
    ensures
        i <= r <= s@.len(),
        r == first_non_ws(s@, i as int),
    decreases s@.len() - i,
{
    let n = s.unicode_len();
    if i >= n {
        i
    } else if is_ws(s.get_char(i)) {
        first_non_ws_exec(s, i + 1)
    } else {
        i
    }
}

fn last_non_ws_end_exec(s: &str, j: usize) -> (r: usize)
    requires
        j <= s@.len(),
    ensures
        r <= j,
        r == last_non_ws_end(s@, j as int),
    decreases j,
{
    if j == 0 {
        0
    } else if is_ws(s.get_char(j - 1)) {
        last_non_ws_end_exec(s, j - 1)
    } else {
        j
    }
}

pub fn trim(s: &str) -> (r: &str)
    ensures
        r@ == spec_trim(s@),
{
    let n = s.unicode_len();
    let a = first_non_ws_exec(s, 0);
    let b = last_non_ws_end_exec(s, n);
    if a <= b {
        s.substring_char(a, b)
    } else {
        let empty = s.substring_char(0, 0);
        proof {
            assert(empty@ =~= spec_trim(s@));
        }
        empty
    }
}

/// The pieces of `s` from `from` on, cut at every occurrence of `sep`.
/// One separator yields two pieces; no separator yields the rest whole.
pub open spec fn spec_split_from(s: Seq<char>, sep: char, from: int) -> Seq<Seq<char>>
    decreases s.len() - from,
    when 0 <= from <= s.len()
    via spec_split_from_decreases
{
    match spec_find(s, sep, from) {
        None => seq![s.subrange(from, s.len() as int)],
        Some(i) => seq![s.subrange(from, i)] + spec_split_from(s, sep, i + 1),
    }
}

#[via_fn]
proof fn spec_split_from_decreases(s: Seq<char>, sep: char, from: int) {
    lemma_find_bounds(s, sep, from);
}

pub open spec fn spec_split(s: Seq<char>, sep: char) -> Seq<Seq<char>> {
    spec_split_from(s, sep, 0)
}

pub fn split_from(s: &str, sep: char, from: usize) -> (r: Vec<String>)
    requires
        from <= s@.len(),
    ensures
        r@.len() == spec_split_from(s@, sep, from as int).len(),
        forall|k: int|
            0 <= k < r@.len() ==> r@[k]@ == spec_split_from(s@, sep, from as int)[k],
    decreases s@.len() - from,
{
    let n = s.unicode_len();
    match find_from(s, sep, from) {
        None => {
            let piece = s.substring_char(from, n).to_owned();
            let mut v: Vec<String> = Vec::new();
            v.push(piece);
            v
        },
        Some(i) => {
            let piece = s.substring_char(from, i).to_owned();
            let mut rest = split_from(s, sep, i + 1);
            rest.insert(0, piece);
            proof {
                let parts = spec_split_from(s@, sep, from as int);
                let tail = spec_split_from(s@, sep, i + 1);
                assert(parts =~= seq![s@.subrange(from as int, i as int)] + tail);
                assert forall|k: int| 0 <= k < rest@.len() implies rest@[k]@ == parts[k] by {
                    if k > 0 {
                        assert(rest@[k]@ == tail[k - 1]);
                    }
                }
            }
            rest
        },
    }
}

pub fn split_str(s: &str, sep: char) -> (r: Vec<String>)
    ensures
        r@.len() == spec_split(s@, sep).len(),
        forall|k: int| 0 <= k < r@.len() ==> r@[k]@ == spec_split(s@, sep)[k],
{
    split_from(s, sep, 0)
}

/// Value of a digit string read in base ten (digits only; no sign).
pub open spec fn spec_digits_val(s: Seq<char>) -> nat
    decreases s.len(),
{
    if s.len() == 0 {
        0
    } else {
        spec_digits_val(s.drop_last()) * 10 + digit_val(s.last())
    }
}

pub open spec fn all_digits(s: Seq<char>) -> bool {
    forall|i: int| 0 <= i < s.len() ==> is_digit_char(s[i])
}

/// The tolerant non-negative integer reading: a non-empty, all-digit
/// string whose value fits in a `u32` gives that value; anything else
/// gives zero.
pub open spec fn spec_parse_u32_or_zero(s: Seq<char>) -> u32 {
    if s.len() > 0 && all_digits(s) && spec_digits_val(s) <= u32::MAX {
        spec_digits_val(s) as u32
    } else {
        0
    }
}

pub fn parse_u32_or_zero(s: &str) -> (r: u32)
    ensures
        r == spec_parse_u32_or_zero(s@),
{
    let n = s.unicode_len();
    if n == 0 {
        return 0;
    }
    let mut acc: u64 = 0;
    let mut i: usize = 0;
    while i < n
        invariant
            n == s@.len(),
            i <= n,
            all_digits(s@.subrange(0, i as int)),
            spec_digits_val(s@.subrange(0, i as int)) <= u32::MAX
                ==> acc == spec_digits_val(s@.subrange(0, i as int)),
            spec_digits_val(s@.subrange(0, i as int)) > u32::MAX ==> acc > u32::MAX,
            acc <= 0xFFFF_FFFFu64 * 10 + 9,
        decreases n - i,
    {
        let c = s.get_char(i);
        let cv = c as u32;
        if cv < 48 || cv > 57 {
            proof {
                assert(!is_digit_char(s@[i as int]));
                assert(!all_digits(s@));
            }
            return 0;
        }
        let d = (cv - 48) as u64;
        proof {
            assert(s@.subrange(0, i + 1).drop_last() =~= s@.subrange(0, i as int));
            assert(s@.subrange(0, i + 1).last() == s@[i as int]);
        }
        if acc <= 0xFFFF_FFFFu64 {
            acc = acc * 10 + d;
        }
        i += 1;
    }
    proof {
        assert(s@.subrange(0, n as int) =~= s@);
    }
    if acc <= 0xFFFF_FFFFu64 {
        acc as u32
    } else {
        0
    }
}

} // verus!

