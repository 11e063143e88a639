//! The typed to-do item assembled from a decoded iCalendar document.

use vstd::prelude::*;

use crate::datetime::DateTime;
use crate::ical::{
    fold_header, spec_fold_header, CompKind, ComponentView, ContentLine, ContentLineView,
    IcalDocument, IcalDocumentView,
};
use crate::parsing::{parse_date, spec_parse_date};
use crate::text::{all_digits, is_digit_char, spec_digits_val, str_eq};

verus! {

/// The tolerant completion-percentage reading: digits whose value fits
/// in a byte give that value capped at one hundred; anything else gives
/// zero.
pub open spec fn spec_parse_percent(s: Seq<char>) -> u8 {
    if s.len() > 0 && all_digits(s) && spec_digits_val(s) <= 255 {
        if spec_digits_val(s) > 100 {
            100
        } else {
            spec_digits_val(s) as u8
        }
    } else {
        0
    }
}

pub fn parse_percent(s: &str) -> (r: u8)
    ensures
        r == spec_parse_percent(s@),
        r <= 100,
{
    let n = s.unicode_len();
    if n == 0 {
        return 0;
    }
    let mut acc: u32 = 0;
    let mut i: usize = 0;
    while i < n
        invariant
            n == s@.len(),
            i <= n,
            all_digits(s@.subrange(0, i as int)),
            spec_digits_val(s@.subrange(0, i as int)) <= 255 ==> acc == spec_digits_val(
                s@.subrange(0, i as int),
            ),
            spec_digits_val(s@.subrange(0, i as int)) > 255 ==> acc > 255,
            acc <= 2559,
        decreases n - i,
    {
        let c = s.get_char(i);
        let cv = c as u32;
        if cv < 48 || cv > 57 {
            proof {
                assert(!is_digit_char(s@[i as int]));
                assert(!all_digits(s@));
            }
            return 0;
        }
        let d = cv - 48;
        proof {
            assert(s@.subrange(0, i + 1).drop_last() =~= s@.subrange(0, i as int));
            assert(s@.subrange(0, i + 1).last() == s@[i as int]);
        }
        if acc <= 255 {
            acc = acc * 10 + d;
        }
        i += 1;
    }
    proof {
        assert(s@.subrange(0, n as int) =~= s@);
    }
    if acc > 255 {
        0
    } else if acc > 100 {
        100
    } else {
        acc as u8
    }
}

#[derive(Debug, Clone, PartialEq, Eq)]
pub struct VTodo {
    pub version: String,
    pub cal_scale: String,
    pub prodid: String,
    pub summary: String,
    pub status: String,
    pub completed: DateTime,
    pub percent_complete: u8,
    pub sequence: String,
    pub uid: String,
    pub date_timestamp: DateTime,
    pub created: DateTime,
    pub last_modified: DateTime,
}

pub struct VTodoView {
    pub version: Seq<char>,
    pub cal_scale: Seq<char>,
    pub prodid: Seq<char>,
    pub summary: Seq<char>,
    pub status: Seq<char>,
    pub completed: DateTime,
    pub percent_complete: u8,
    pub sequence: Seq<char>,
    pub uid: Seq<char>,
    pub date_timestamp: DateTime,
    pub created: DateTime,
    pub last_modified: DateTime,
}

impl View for VTodo {
    type V = VTodoView;

    open spec fn view(&self) -> VTodoView {
        VTodoView {
            version: self.version@,
            cal_scale: self.cal_scale@,
            prodid: self.prodid@,
            summary: self.summary@,
            status: self.status@,
            completed: self.completed,
            percent_complete: self.percent_complete,
            sequence: self.sequence@,
            uid: self.uid@,
            date_timestamp: self.date_timestamp,
            created: self.created,
            last_modified: self.last_modified,
        }
    }
}

pub open spec fn vtodo_views(v: Seq<VTodo>) -> Seq<VTodoView> {
    v.map_values(|t: VTodo| t@)
}

/// Writes one recognized to-do property into the record; every other
/// line leaves it unchanged.
pub open spec fn spec_apply_todo_prop(r: VTodoView, l: ContentLineView) -> VTodoView {
    if l.name == "DTSTAMP"@ {
        VTodoView { date_timestamp: spec_parse_date(l), ..r }
    } else if l.name == "UID"@ {
        VTodoView { uid: l.value, ..r }
    } else if l.name == "SEQUENCE"@ {
        VTodoView { sequence: l.value, ..r }
    } else if l.name == "CREATED"@ {
        VTodoView { created: spec_parse_date(l), ..r }
    } else if l.name == "LAST-MODIFIED"@ {
        VTodoView { last_modified: spec_parse_date(l), ..r }
    } else if l.name == "SUMMARY"@ {
        VTodoView { summary: l.value, ..r }
    } else if l.name == "STATUS"@ {
        VTodoView { status: l.value, ..r }
    } else if l.name == "COMPLETED"@ {
        VTodoView { completed: spec_parse_date(l), ..r }
    } else if l.name == "PERCENT-COMPLETE"@ {
        VTodoView { percent_complete: spec_parse_percent(l.value), ..r }
    } else {
        r
    }
}

pub open spec fn spec_fold_todo_props(r: VTodoView, lines: Seq<ContentLineView>) -> VTodoView
    decreases lines.len(),
{
    if lines.len() == 0 {
        r
    } else {
        spec_apply_todo_prop(spec_fold_todo_props(r, lines.drop_last()), lines.last())
    }
}

pub open spec fn spec_fold_todo_comps(r: VTodoView, comps: Seq<ComponentView>) -> VTodoView
    decreases comps.len(),
{
    if comps.len() == 0 {
        r
    } else {
        spec_fold_todo_props(spec_fold_todo_comps(r, comps.drop_last()), comps.last().lines)
    }
}

/// The to-do record a document has not yet written any property into.
pub open spec fn spec_todo_base(doc: IcalDocumentView) -> VTodoView {
    let h = spec_fold_header(doc.properties);
    VTodoView {
        version: h.version,
        cal_scale: h.cal_scale,
        prodid: h.prod_id,
        summary: Seq::empty(),
        status: Seq::empty(),
        completed: DateTime::spec_epoch(),
        percent_complete: 0,
        sequence: Seq::empty(),
        uid: Seq::empty(),
        date_timestamp: DateTime::spec_epoch(),
        created: DateTime::spec_epoch(),
        last_modified: DateTime::spec_epoch(),
    }
}

/// What a document yields as a to-do: nothing unless it holds at least
/// one component and every component is a to-do; otherwise the header
/// plus the recognized properties of all to-do components, in order.
pub open spec fn spec_vtodo_of(doc: IcalDocumentView) -> Option<VTodoView> {
    if doc.components.len() == 0 {
        None
    } else if exists|k: int|
        0 <= k < doc.components.len() && doc.components[k].kind != CompKind::Todo {
        None
    } else {
        Some(spec_fold_todo_comps(spec_todo_base(doc), doc.components))
    }
}

fn apply_todo_prop(r: VTodo, l: &ContentLine) -> (out: VTodo)
    ensures
        out@ == spec_apply_todo_prop(r@, l@),
{
    let mut t = r;
    if str_eq(l.name.as_str(), "DTSTAMP") {
        t.date_timestamp = parse_date(l);
    } else if str_eq(l.name.as_str(), "UID") {
        t.uid = l.value.clone();
    } else if str_eq(l.name.as_str(), "SEQUENCE") {
        t.sequence = l.value.clone();
    } else if str_eq(l.name.as_str(), "CREATED") {
        t.created = parse_date(l);
    } else if str_eq(l.name.as_str(), "LAST-MODIFIED") {
        t.last_modified = parse_date(l);
    } else if str_eq(l.name.as_str(), "SUMMARY") {
        t.summary = l.value.clone();
    } else if str_eq(l.name.as_str(), "STATUS") {
        t.status = l.value.clone();
    } else if str_eq(l.name.as_str(), "COMPLETED") {
        t.completed = parse_date(l);
    } else if str_eq(l.name.as_str(), "PERCENT-COMPLETE") {
        t.percent_complete = parse_percent(l.value.as_str());
    }
    t
}

impl VTodo {
    /// Assembles the to-do of one decoded document, copying the
    /// document header onto it; a document holding any non-to-do
    /// component, or none at all, yields nothing.
    pub fn new(icalendar: &IcalDocument) -> (r: Option<VTodo>)
        ensures
            match r {
                Some(td) => spec_vtodo_of(icalendar@) == Some(td@),
                None => spec_vtodo_of(icalendar@) is None,
            },
    {
        let ghost docv = icalendar@;
        let nc = icalendar.components.len();
        if nc == 0 {
            return None;
        }
        let mut k: usize = 0;
        while k < nc
            invariant
                nc == icalendar.components@.len(),
                docv == icalendar@,
                k <= nc,
                forall|t: int| 0 <= t < k ==> docv.components[t].kind == CompKind::Todo,
            decreases nc - k,
        {
            proof {
                assert(docv.components[k as int] == icalendar.components@[k as int]@);
            }
            match icalendar.components[k].kind {
                CompKind::Event => {
                    return None;
                },
                CompKind::Todo => {},
            }
            k += 1;
        }
        let h = fold_header(&icalendar.properties);
        let mut td = VTodo {
            version: h.version,
            cal_scale: h.cal_scale,
            prodid: h.prod_id,
            summary: String::new(),
            status: String::new(),
            completed: DateTime::epoch(),
            percent_complete: 0,
            sequence: String::new(),
            uid: String::new(),
            date_timestamp: DateTime::epoch(),
            created: DateTime::epoch(),
            last_modified: DateTime::epoch(),
        };
        let ghost base = spec_todo_base(docv);
        proof {
            assert(td@.summary =~= Seq::<char>::empty());
            assert(td@.status =~= Seq::<char>::empty());
            assert(td@.sequence =~= Seq::<char>::empty());
            assert(td@.uid =~= Seq::<char>::empty());
            assert(td@ == base);
        }
        let mut c: usize = 0;
        while c < nc
            invariant
                nc == icalendar.components@.len(),
                docv == icalendar@,
                c <= nc,
                base == spec_todo_base(docv),
                td@ == spec_fold_todo_comps(base, docv.components.subrange(0, c as int)),
            decreases nc - c,
        {
            proof {
                assert(docv.components.subrange(0, c + 1).drop_last() =~= docv.components.subrange(
                    0,
                    c as int,
                ));
                assert(docv.components.subrange(0, c + 1).last() == docv.components[c as int]);
                assert(docv.components[c as int] == icalendar.components@[c as int]@);
            }
            let nl = icalendar.components[c].lines.len();
            let ghost comp_lines = docv.components[c as int].lines;
            let ghost folded = spec_fold_todo_comps(base, docv.components.subrange(0, c as int));
            let mut j: usize = 0;
            while j < nl
                invariant
                    nc == icalendar.components@.len(),
                    docv == icalendar@,
                    c < nc,
                    nl == icalendar.components@[c as int].lines@.len(),
                    comp_lines == docv.components[c as int].lines,
                    comp_lines.len() == nl,
                    docv.components[c as int] == icalendar.components@[c as int]@,
                    j <= nl,
                    td@ == spec_fold_todo_props(folded, comp_lines.subrange(0, j as int)),
                decreases nl - j,
            {
                proof {
                    assert(comp_lines.subrange(0, j + 1).drop_last() =~= comp_lines.subrange(
                        0,
                        j as int,
                    ));
                    assert(comp_lines.subrange(0, j + 1).last() == comp_lines[j as int]);
                    assert(comp_lines[j as int] == icalendar.components@[c as int].lines@[j as int]@);
                }
                td = apply_todo_prop(td, &icalendar.components[c].lines[j]);
                j += 1;
            }
            proof {
                assert(comp_lines.subrange(0, nl as int) =~= comp_lines);
            }
            c += 1;
        }
        proof {
            assert(docv.components.subrange(0, nc as int) =~= docv.components);
        }
        Some(td)
    }
}

} // verus!
