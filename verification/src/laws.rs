//! The laws the library states about itself, proved once and for all:
//! that parsing is a pure function of its input, that unfolding
//! reconstructs a folded logical line exactly, and that an all-day event
//! carries midnight dates.

use vstd::prelude::*;

use crate::calendar::spec_calendar_of;
use crate::ical::{
    spec_logical_lines, spec_physical_lines, spec_unfold, strip_cr, ContentLineView,
    IcalDocumentView,
};
use crate::text::{
    is_space_char, lemma_find_bounds, spec_find, spec_split, spec_split_from,
};
use crate::vevent::{
    spec_apply_event_prop, spec_event_base, spec_fold_event_comps, spec_fold_event_props,
    spec_is_allday_key, spec_vevent_of,
};

verus! {

// ---------------------------------------------------------------------
// Determinism
// ---------------------------------------------------------------------

/// Parsing is a pure function of the multistatus text and the item
/// bodies: running the pipeline twice over equal inputs yields
/// structurally equal calendars.
pub proof fn lemma_parse_deterministic(
    xml1: Seq<char>,
    xml2: Seq<char>,
    bodies1: Seq<Seq<char>>,
    bodies2: Seq<Seq<char>>,
)
    requires
        xml1 == xml2,
        bodies1 == bodies2,
    ensures
        spec_calendar_of(xml1, bodies1) == spec_calendar_of(xml2, bodies2),
{
}

// ---------------------------------------------------------------------
// Unfolding correctness
// ---------------------------------------------------------------------

/// Splitting from `i` is splitting the suffix that starts at `i`.
proof fn lemma_split_from_is_suffix_split(s: Seq<char>, sep: char, i: int)
    requires
        0 <= i <= s.len(),
    ensures
        spec_split_from(s, sep, i) == spec_split(s.subrange(i, s.len() as int), sep),
    decreases s.len() - i,
{
    let t = s.subrange(i, s.len() as int);
    lemma_find_bounds(s, sep, i);
    lemma_find_bounds(t, sep, 0);
    match spec_find(s, sep, i) {
        None => {
            assert forall|j: int| 0 <= j < t.len() implies t[j] != sep by {
                assert(t[j] == s[i + j]);
            }
            match spec_find(t, sep, 0) {
                Some(m) => {
                    assert(t[m] == sep);
                    assert(false);
                },
                None => {},
            }
            assert(t.subrange(0, t.len() as int) =~= t);
            assert(spec_split_from(s, sep, i) =~~= spec_split(t, sep));
        },
        Some(k) => {
            assert(t[k - i] == s[k]);
            assert forall|j: int| 0 <= j < k - i implies t[j] != sep by {
                assert(t[j] == s[i + j]);
            }
            match spec_find(t, sep, 0) {
                None => {
                    assert(t[k - i] == sep);
                    assert(false);
                },
                Some(m) => {
                    assert(t[m] == sep);
                    assert(m == k - i);
                },
            }
            lemma_split_from_is_suffix_split(s, sep, k + 1);
            lemma_split_from_is_suffix_split(t, sep, k - i + 1);
            assert(t.subrange(k - i + 1, t.len() as int) =~= s.subrange(k + 1, s.len() as int));
            assert(t.subrange(0, k - i) =~= s.subrange(i, k));
            assert(spec_split_from(s, sep, i) =~~= spec_split(t, sep));
        },
    }
}

/// Splitting a text around one separator splits its two halves.
proof fn lemma_split_concat(a: Seq<char>, sep: char, b: Seq<char>)
    ensures
        spec_split(a + seq![sep] + b, sep) == spec_split(a, sep) + spec_split(b, sep),
    decreases a.len(),
{
    let s = a + seq![sep] + b;
    lemma_find_bounds(a, sep, 0);
    lemma_find_bounds(s, sep, 0);
    assert(s.len() == a.len() + 1 + b.len());
    assert(s[a.len() as int] == sep);
    match spec_find(a, sep, 0) {
        None => {
            assert forall|j: int| 0 <= j < a.len() implies s[j] != sep by {
                assert(s[j] == a[j]);
            }
            match spec_find(s, sep, 0) {
                None => {
                    assert(s[a.len() as int] == sep);
                    assert(false);
                },
                Some(m) => {
                    assert(s[m] == sep);
                    assert(m == a.len());
                },
            }
            lemma_split_from_is_suffix_split(s, sep, a.len() as int + 1);
            assert(s.subrange(a.len() as int + 1, s.len() as int) =~= b);
            assert(s.subrange(0, a.len() as int) =~= a);
            assert(a.subrange(0, a.len() as int) =~= a);
            assert(spec_split(s, sep) =~~= spec_split(a, sep) + spec_split(b, sep));
        },
        Some(k) => {
            assert(a[k] == sep);
            assert forall|j: int| 0 <= j < k implies s[j] != sep by {
                assert(s[j] == a[j]);
            }
            assert(s[k] == a[k]);
            match spec_find(s, sep, 0) {
                None => {
                    assert(s[k] == sep);
                    assert(false);
                },
                Some(m) => {
                    assert(s[m] == sep);
                    assert(m == k);
                },
            }
            lemma_split_from_is_suffix_split(s, sep, k + 1);
            lemma_split_from_is_suffix_split(a, sep, k + 1);
            let a2 = a.subrange(k + 1, a.len() as int);
            assert(s.subrange(k + 1, s.len() as int) =~= a2 + seq![sep] + b);
            lemma_split_concat(a2, sep, b);
            assert(s.subrange(0, k) =~= a.subrange(0, k));
            assert(spec_split(s, sep) =~~= spec_split(a, sep) + spec_split(b, sep));
        },
    }
}

/// No line feed and no carriage return anywhere in the text.
pub open spec fn no_line_breaks(b: Seq<char>) -> bool {
    forall|j: int| 0 <= j < b.len() ==> b[j] != '\n' && b[j] != '\r'
}

/// The bodies folded onto physical lines: the first as it is, each
/// following one on a line of its own behind exactly one space.
pub open spec fn folded_text(bodies: Seq<Seq<char>>) -> Seq<char>
    decreases bodies.len(),
{
    if bodies.len() == 0 {
        Seq::empty()
    } else if bodies.len() == 1 {
        bodies[0]
    } else {
        folded_text(bodies.drop_last()) + seq!['\n', ' '] + bodies.last()
    }
}

/// The plain concatenation of the bodies.
pub open spec fn concat_bodies(bodies: Seq<Seq<char>>) -> Seq<char>
    decreases bodies.len(),
{
    if bodies.len() == 0 {
        Seq::empty()
    } else {
        concat_bodies(bodies.drop_last()) + bodies.last()
    }
}

/// The physical lines the folded text should cut into.
spec fn folded_phys(bodies: Seq<Seq<char>>) -> Seq<Seq<char>>
    decreases bodies.len(),
{
    if bodies.len() == 0 {
        Seq::empty()
    } else if bodies.len() == 1 {
        seq![bodies[0]]
    } else {
        folded_phys(bodies.drop_last()) + seq![seq![' '] + bodies.last()]
    }
}

proof fn lemma_folded_physical_lines(bodies: Seq<Seq<char>>)
    requires
        bodies.len() >= 1,
        forall|k: int| 0 <= k < bodies.len() ==> no_line_breaks(#[trigger] bodies[k]),
    ensures
        spec_physical_lines(folded_text(bodies)) == folded_phys(bodies),
    decreases bodies.len(),
{
    let n = bodies.len() as int;
    if n == 1 {
        let b = bodies[0];
        lemma_find_bounds(b, '\n', 0);
        match spec_find(b, '\n', 0) {
            Some(m) => {
                assert(b[m] == '\n');
                assert(false);
            },
            None => {},
        }
        assert(b.subrange(0, b.len() as int) =~= b);
        assert(spec_split(b, '\n') =~= seq![b]);
        assert(strip_cr(b) == b);
        assert(spec_physical_lines(folded_text(bodies)) =~= folded_phys(bodies));
    } else {
        let prev = bodies.drop_last();
        let last = bodies.last();
        lemma_folded_physical_lines(prev);
        let tail = seq![' '] + last;
        assert(folded_text(bodies) =~= folded_text(prev) + seq!['\n'] + tail);
        lemma_split_concat(folded_text(prev), '\n', tail);
        lemma_find_bounds(tail, '\n', 0);
        match spec_find(tail, '\n', 0) {
            Some(m) => {
                assert(tail[m] == '\n');
                if m == 0 {
                } else {
                    assert(tail[m] == last[m - 1]);
                }
                assert(false);
            },
            None => {},
        }
        assert(tail.subrange(0, tail.len() as int) =~= tail);
        assert(spec_split(tail, '\n') =~= seq![tail]);
        assert(strip_cr(tail) == tail);
        assert(spec_physical_lines(folded_text(bodies)) =~= folded_phys(bodies));
    }
}

proof fn lemma_unfold_folded_phys(bodies: Seq<Seq<char>>)
    requires
        bodies.len() >= 1,
        bodies[0].len() > 0 ==> !is_space_char(bodies[0][0]),
    ensures
        spec_unfold(folded_phys(bodies)) == seq![concat_bodies(bodies)],
    decreases bodies.len(),
{
    let n = bodies.len() as int;
    reveal_with_fuel(spec_unfold, 3);
    reveal_with_fuel(concat_bodies, 3);
    if n == 1 {
        let lines = folded_phys(bodies);
        assert(lines.drop_last() =~= Seq::<Seq<char>>::empty());
        assert(concat_bodies(bodies.drop_last()) + bodies.last() =~= bodies[0]);
        assert(spec_unfold(lines) =~= seq![concat_bodies(bodies)]);
    } else {
        let prev = bodies.drop_last();
        let last = bodies.last();
        lemma_unfold_folded_phys(prev);
        let lines = folded_phys(bodies);
        let tail = seq![' '] + last;
        assert(lines.drop_last() =~= folded_phys(prev));
        assert(lines.last() == tail);
        assert(tail.len() > 0 && is_space_char(tail[0]));
        let u = spec_unfold(folded_phys(prev));
        assert(u.len() == 1);
        assert(tail.drop_first() =~= last);
        assert(u.drop_last() =~= Seq::<Seq<char>>::empty());
        assert(spec_unfold(lines) =~= seq![u.last() + last]);
        assert(u.last() + last =~= concat_bodies(bodies));
    }
}

/// Unfolding correctness: fold one logical line onto any number of
/// physical continuation lines, each behind exactly one space, and
/// lexing reads back exactly one logical line: the concatenation of the
/// line bodies with the leading continuation whitespace stripped.
pub proof fn lemma_unfolding_correctness(bodies: Seq<Seq<char>>)
    requires
        bodies.len() >= 1,
        forall|k: int| 0 <= k < bodies.len() ==> no_line_breaks(#[trigger] bodies[k]),
        bodies[0].len() > 0 ==> !is_space_char(bodies[0][0]),
    ensures
        spec_logical_lines(folded_text(bodies)) == seq![concat_bodies(bodies)],
{
    lemma_folded_physical_lines(bodies);
    lemma_unfold_folded_phys(bodies);
}

// ---------------------------------------------------------------------
// The all-day invariant
// ---------------------------------------------------------------------

/// Every `DTSTART`/`DTEND` line carries at least one parameter (the
/// date-only form), so its date resolves at midnight.
pub open spec fn date_lines_parameterized(lines: Seq<ContentLineView>) -> bool {
    forall|j: int|
        0 <= j < lines.len() ==> (((#[trigger] lines[j]).name == "DTSTART"@ || lines[j].name
            == "DTEND"@) ==> lines[j].params.len() > 0)
}

/// Every all-day marker line carries the value `1`.
pub open spec fn allday_lines_set(lines: Seq<ContentLineView>) -> bool {
    forall|j: int|
        0 <= j < lines.len() ==> (spec_is_allday_key((#[trigger] lines[j]).name) ==> lines[j].value
            == "1"@)
}

pub open spec fn has_allday_line(lines: Seq<ContentLineView>) -> bool {
    exists|j: int| 0 <= j < lines.len() && spec_is_allday_key((#[trigger] lines[j]).name)
}

pub open spec fn comps_dates_parameterized(comps: Seq<crate::ical::ComponentView>) -> bool {
    forall|c: int|
        0 <= c < comps.len() ==> date_lines_parameterized((#[trigger] comps[c]).lines)
}

pub open spec fn comps_allday_set(comps: Seq<crate::ical::ComponentView>) -> bool {
    forall|c: int| 0 <= c < comps.len() ==> allday_lines_set((#[trigger] comps[c]).lines)
}

pub open spec fn comps_have_allday(comps: Seq<crate::ical::ComponentView>) -> bool {
    exists|c: int| 0 <= c < comps.len() && has_allday_line((#[trigger] comps[c]).lines)
}

/// An all-day marker key never collides with the fixed property names:
/// it begins with `X`.
proof fn lemma_allday_key_is_extension(name: Seq<char>)
    requires
        spec_is_allday_key(name),
    ensures
        name != "DESCRIPTION"@,
        name != "DTSTART"@,
        name != "DTEND"@,
        name != "DTSTAMP"@,
        name != "SUMMARY"@,
        name != "UID"@,
{
    reveal_strlit("X-");
    reveal_strlit("DESCRIPTION");
    reveal_strlit("DTSTART");
    reveal_strlit("DTEND");
    reveal_strlit("DTSTAMP");
    reveal_strlit("SUMMARY");
    reveal_strlit("UID");
    assert(name.len() >= 2);
    assert(name[0] == "X-"@[0]);
    assert(name[0] == 'X');
}

proof fn lemma_fold_event_props_allday(r: crate::vevent::VEventView, lines: Seq<ContentLineView>)
    requires
        date_lines_parameterized(lines),
        allday_lines_set(lines),
        r.date_start.time_is_zero(),
        r.date_end.time_is_zero(),
    ensures
        spec_fold_event_props(r, lines).date_start.time_is_zero(),
        spec_fold_event_props(r, lines).date_end.time_is_zero(),
        r.is_all_day || has_allday_line(lines) ==> spec_fold_event_props(r, lines).is_all_day,
    decreases lines.len(),
{
    if lines.len() > 0 {
        let prev = lines.drop_last();
        let l = lines.last();
        assert(l == lines[lines.len() - 1]);
        assert forall|j: int| 0 <= j < prev.len() implies #[trigger] prev[j] == lines[j] by {}
        assert(date_lines_parameterized(prev));
        assert(allday_lines_set(prev));
        lemma_fold_event_props_allday(r, prev);
        let fprev = spec_fold_event_props(r, prev);
        if spec_is_allday_key(l.name) {
            lemma_allday_key_is_extension(l.name);
            assert(l.value == "1"@);
            assert(spec_apply_event_prop(fprev, l).is_all_day);
        } else {
            if r.is_all_day || has_allday_line(lines) {
                if !r.is_all_day {
                    let j = choose|j: int|
                        0 <= j < lines.len() && spec_is_allday_key((#[trigger] lines[j]).name);
                    assert(j < lines.len() - 1);
                    assert(prev[j] == lines[j]);
                    assert(has_allday_line(prev));
                }
                assert(fprev.is_all_day);
            }
        }
    }
}

proof fn lemma_fold_event_comps_allday(
    r: crate::vevent::VEventView,
    comps: Seq<crate::ical::ComponentView>,
)
    requires
        comps_dates_parameterized(comps),
        comps_allday_set(comps),
        r.date_start.time_is_zero(),
        r.date_end.time_is_zero(),
    ensures
        spec_fold_event_comps(r, comps).date_start.time_is_zero(),
        spec_fold_event_comps(r, comps).date_end.time_is_zero(),
        r.is_all_day || comps_have_allday(comps) ==> spec_fold_event_comps(r, comps).is_all_day,
    decreases comps.len(),
{
    if comps.len() > 0 {
        let prev = comps.drop_last();
        let last = comps.last();
        assert(last == comps[comps.len() - 1]);
        assert forall|c: int| 0 <= c < prev.len() implies #[trigger] prev[c] == comps[c] by {}
        assert(comps_dates_parameterized(prev));
        assert(comps_allday_set(prev));
        lemma_fold_event_comps_allday(r, prev);
        let fprev = spec_fold_event_comps(r, prev);
        lemma_fold_event_props_allday(fprev, last.lines);
        if r.is_all_day || comps_have_allday(comps) {
            if !has_allday_line(last.lines) {
                if !r.is_all_day {
                    let c = choose|c: int|
                        0 <= c < comps.len() && has_allday_line((#[trigger] comps[c]).lines);
                    assert(c < comps.len() - 1);
                    assert(prev[c] == comps[c]);
                    assert(comps_have_allday(prev));
                }
                assert(fprev.is_all_day);
            }
        }
    }
}

/// The all-day invariant: in a document whose decoded event carries the
/// vendor all-day marker with value `1`, and whose `DTSTART`/`DTEND`
/// lines all use the parameterized date-only form, the event reads as
/// all-day and both its dates sit at midnight.  (A document that marks
/// itself all-day yet writes a bare timestamp into `DTSTART` is outside
/// this law: the marker cannot retroactively zero such a time.)
pub proof fn lemma_all_day_invariant(doc: IcalDocumentView)
    requires
        spec_vevent_of(doc) is Some,
        comps_dates_parameterized(doc.components),
        comps_allday_set(doc.components),
        comps_have_allday(doc.components),
    ensures
        (spec_vevent_of(doc)->Some_0).is_all_day,
        (spec_vevent_of(doc)->Some_0).date_start.time_is_zero(),
        (spec_vevent_of(doc)->Some_0).date_end.time_is_zero(),
{
    let base = spec_event_base(doc);
    lemma_fold_event_comps_allday(base, doc.components);
}

} // verus!
