//! The typed calendar event assembled from a decoded iCalendar document.

use vstd::prelude::*;

use crate::datetime::DateTime;
use crate::ical::{
    fold_header, spec_fold_header, CompKind, ComponentView, ContentLine, ContentLineView,
    IcalDocument, IcalDocumentView,
};
use crate::parsing::{parse_date, spec_parse_date};
use crate::text::{spec_ends_with, spec_starts_with, str_ends_with, str_eq, str_starts_with};

verus! {

#[derive(Debug, Clone, PartialEq, Eq)]
pub struct VEvent {
    pub version: String,
    pub cal_scale: String,
    pub prodid: String,
    pub desc: String,
    pub summary: String,
    pub uid: String,
    pub date_start: DateTime,
    pub date_end: DateTime,
    pub date_timestamp: DateTime,
    pub is_all_day: bool,
}

pub struct VEventView {
    pub version: Seq<char>,
    pub cal_scale: Seq<char>,
    pub prodid: Seq<char>,
    pub desc: Seq<char>,
    pub summary: Seq<char>,
    pub uid: Seq<char>,
    pub date_start: DateTime,
    pub date_end: DateTime,
    pub date_timestamp: DateTime,
    pub is_all_day: bool,
}

impl View for VEvent {
    type V = VEventView;

    open spec fn view(&self) -> VEventView {
        VEventView {
            version: self.version@,
            cal_scale: self.cal_scale@,
            prodid: self.prodid@,
            desc: self.desc@,
            summary: self.summary@,
            uid: self.uid@,
            date_start: self.date_start,
            date_end: self.date_end,
            date_timestamp: self.date_timestamp,
            is_all_day: self.is_all_day,
        }
    }
}

pub open spec fn vevent_views(v: Seq<VEvent>) -> Seq<VEventView> {
    v.map_values(|e: VEvent| e@)
}

/// The vendor all-day marker: any `X-` extension key ending in `ALLDAY`.
pub open spec fn spec_is_allday_key(name: Seq<char>) -> bool {
    spec_starts_with(name, "X-"@) && spec_ends_with(name, "ALLDAY"@)
}

/// Writes one recognized event property into the record; every other
/// line leaves it unchanged.
pub open spec fn spec_apply_event_prop(r: VEventView, l: ContentLineView) -> VEventView {
    if l.name == "DESCRIPTION"@ {
        VEventView { desc: l.value, ..r }
    } else if l.name == "DTSTART"@ {
        VEventView { date_start: spec_parse_date(l), ..r }
    } else if l.name == "DTEND"@ {
        VEventView { date_end: spec_parse_date(l), ..r }
    } else if l.name == "DTSTAMP"@ {
        VEventView { date_timestamp: spec_parse_date(l), ..r }
    } else if l.name == "SUMMARY"@ {
        VEventView { summary: l.value, ..r }
    } else if l.name == "UID"@ {
        VEventView { uid: l.value, ..r }
    } else if spec_is_allday_key(l.name) {
        VEventView { is_all_day: l.value == "1"@, ..r }
    } else {
        r
    }
}

pub open spec fn spec_fold_event_props(r: VEventView, lines: Seq<ContentLineView>) -> VEventView
    decreases lines.len(),
{
    if lines.len() == 0 {
        r
    } else {
        spec_apply_event_prop(spec_fold_event_props(r, lines.drop_last()), lines.last())
    }
}

pub open spec fn spec_fold_event_comps(r: VEventView, comps: Seq<ComponentView>) -> VEventView
    decreases comps.len(),
{
    if comps.len() == 0 {
        r
    } else {
        spec_fold_event_props(spec_fold_event_comps(r, comps.drop_last()), comps.last().lines)
    }
}

/// The event record a document has not yet written any property into:
/// the document header, empty text fields, epoch dates.
pub open spec fn spec_event_base(doc: IcalDocumentView) -> VEventView {
    let h = spec_fold_header(doc.properties);
    VEventView {
        version: h.version,
        cal_scale: h.cal_scale,
        prodid: h.prod_id,
        desc: Seq::empty(),
        summary: Seq::empty(),
        uid: Seq::empty(),
        date_start: DateTime::spec_epoch(),
        date_end: DateTime::spec_epoch(),
        date_timestamp: DateTime::spec_epoch(),
        is_all_day: false,
    }
}

/// What a document yields as an event: nothing unless it holds at least
/// one component and every component is an event; otherwise the header
/// plus the recognized properties of all event components, in order.
pub open spec fn spec_vevent_of(doc: IcalDocumentView) -> Option<VEventView> {
    if doc.components.len() == 0 {
        None
    } else if exists|k: int|
        0 <= k < doc.components.len() && doc.components[k].kind != CompKind::Event {
        None
    } else {
        Some(spec_fold_event_comps(spec_event_base(doc), doc.components))
    }
}

fn apply_event_prop(r: VEvent, l: &ContentLine) -> (out: VEvent)
    ensures
        out@ == spec_apply_event_prop(r@, l@),
{
    let mut e = r;
    if str_eq(l.name.as_str(), "DESCRIPTION") {
        e.desc = l.value.clone();
    } else if str_eq(l.name.as_str(), "DTSTART") {
        e.date_start = parse_date(l);
    } else if str_eq(l.name.as_str(), "DTEND") {
        e.date_end = parse_date(l);
    } else if str_eq(l.name.as_str(), "DTSTAMP") {
        e.date_timestamp = parse_date(l);
    } else if str_eq(l.name.as_str(), "SUMMARY") {
        e.summary = l.value.clone();
    } else if str_eq(l.name.as_str(), "UID") {
        e.uid = l.value.clone();
    } else if str_starts_with(l.name.as_str(), "X-") && str_ends_with(l.name.as_str(), "ALLDAY") {
        e.is_all_day = str_eq(l.value.as_str(), "1");
    }
    e
}

impl VEvent {
    /// Assembles the event of one decoded document, copying the
    /// document header onto it; a document holding any non-event
    /// component, or none at all, yields nothing.
    pub fn new(icalendar: &IcalDocument) -> (r: Option<VEvent>)
        ensures
            match r {
                Some(ev) => spec_vevent_of(icalendar@) == Some(ev@),
                None => spec_vevent_of(icalendar@) is None,
            },
    {
        let ghost docv = icalendar@;
        let nc = icalendar.components.len();
        if nc == 0 {
            return None;
        }
        let mut k: usize = 0;
        while k < nc
            invariant
                nc == icalendar.components@.len(),
                docv == icalendar@,
                k <= nc,
                forall|t: int| 0 <= t < k ==> docv.components[t].kind == CompKind::Event,
            decreases nc - k,
        {
            proof {
                assert(docv.components[k as int] == icalendar.components@[k as int]@);
            }
            match icalendar.components[k].kind {
                CompKind::Todo => {
                    return None;
                },
                CompKind::Event => {},
            }
            k += 1;
        }
        let h = fold_header(&icalendar.properties);
        let mut ev = VEvent {
            version: h.version,
            cal_scale: h.cal_scale,
            prodid: h.prod_id,
            desc: String::new(),
            summary: String::new(),
            uid: String::new(),
            date_start: DateTime::epoch(),
            date_end: DateTime::epoch(),
            date_timestamp: DateTime::epoch(),
            is_all_day: false,
        };
        let ghost base = spec_event_base(docv);
        proof {
            assert(ev@.desc =~= Seq::<char>::empty());
            assert(ev@.summary =~= Seq::<char>::empty());
            assert(ev@.uid =~= Seq::<char>::empty());
            assert(ev@ == base);
        }
        let mut c: usize = 0;
        while c < nc
            invariant
                nc == icalendar.components@.len(),
                docv == icalendar@,
                c <= nc,
                base == spec_event_base(docv),
                ev@ == spec_fold_event_comps(base, docv.components.subrange(0, c as int)),
            decreases nc - c,
        {
            proof {
                assert(docv.components.subrange(0, c + 1).drop_last() =~= docv.components.subrange(
                    0,
                    c as int,
                ));
                assert(docv.components.subrange(0, c + 1).last() == docv.components[c as int]);
                assert(docv.components[c as int] == icalendar.components@[c as int]@);
            }
            let nl = icalendar.components[c].lines.len();
            let ghost comp_lines = docv.components[c as int].lines;
            let ghost folded = spec_fold_event_comps(base, docv.components.subrange(0, c as int));
            let mut j: usize = 0;
            while j < nl
                invariant
                    nc == icalendar.components@.len(),
                    docv == icalendar@,
                    c < nc,
                    nl == icalendar.components@[c as int].lines@.len(),
                    comp_lines == docv.components[c as int].lines,
                    comp_lines.len() == nl,
                    docv.components[c as int] == icalendar.components@[c as int]@,
                    j <= nl,
                    ev@ == spec_fold_event_props(folded, comp_lines.subrange(0, j as int)),
                decreases nl - j,
            {
                proof {
                    assert(comp_lines.subrange(0, j + 1).drop_last() =~= comp_lines.subrange(
                        0,
                        j as int,
                    ));
                    assert(comp_lines.subrange(0, j + 1).last() == comp_lines[j as int]);
                    assert(comp_lines[j as int] == icalendar.components@[c as int].lines@[j as int]@);
                }
                ev = apply_event_prop(ev, &icalendar.components[c].lines[j]);
                j += 1;
            }
            proof {
                assert(comp_lines.subrange(0, nl as int) =~= comp_lines);
            }
            c += 1;
        }
        proof {
            assert(docv.components.subrange(0, nc as int) =~= docv.components);
        }
        Some(ev)
    }
}

} // verus!
