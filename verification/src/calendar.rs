//! The final aggregate: one calendar assembled from the resource records
//! of a multistatus listing and the iCalendar bodies of its item
//! resources.

use vstd::prelude::*;

use crate::ical::{spec_document, str_views, IcalDocument};
use crate::response::{resp_views, Response, ResponseView};
use crate::text::spec_ends_with;
use crate::vevent::{spec_vevent_of, vevent_views, VEvent, VEventView};
use crate::vtimezone::{VTimezone, VTimezoneView};
use crate::vtodo::{spec_vtodo_of, vtodo_views, VTodo, VTodoView};

verus! {

#[derive(Debug, PartialEq, Eq)]
pub struct Calendar {
    pub name: String,
    pub events: Vec<VEvent>,
    pub todos: Vec<VTodo>,
    pub timezone: Option<VTimezone>,
}

pub struct CalendarView {
    pub name: Seq<char>,
    pub events: Seq<VEventView>,
    pub todos: Seq<VTodoView>,
    pub timezone: Option<VTimezoneView>,
}

impl View for Calendar {
    type V = CalendarView;

    open spec fn view(&self) -> CalendarView {
        CalendarView {
            name: self.name@,
            events: vevent_views(self.events@),
            todos: vtodo_views(self.todos@),
            timezone: match self.timezone {
                None => None,
                Some(t) => Some(t@),
            },
        }
    }
}

/// The calendar's name: the display name of the first resource that is
/// not an item file (the collection itself), or empty when every
/// resource is an item.
pub open spec fn spec_collection_name(rs: Seq<ResponseView>) -> Seq<char>
    decreases rs.len(),
{
    if rs.len() == 0 {
        Seq::empty()
    } else if !spec_ends_with(rs[0].href, ".ics"@) {
        rs[0].prop.displayname
    } else {
        spec_collection_name(rs.drop_first())
    }
}

/// The events the item bodies decode to, in encounter order; a body
/// that does not decode to an event contributes nothing.
pub open spec fn spec_events_of(bodies: Seq<Seq<char>>) -> Seq<VEventView>
    decreases bodies.len(),
{
    if bodies.len() == 0 {
        Seq::empty()
    } else {
        let prev = spec_events_of(bodies.drop_last());
        match spec_vevent_of(spec_document(bodies.last())) {
            None => prev,
            Some(ev) => prev.push(ev),
        }
    }
}

/// The to-dos the item bodies decode to, in encounter order.
pub open spec fn spec_todos_of(bodies: Seq<Seq<char>>) -> Seq<VTodoView>
    decreases bodies.len(),
{
    if bodies.len() == 0 {
        Seq::empty()
    } else {
        let prev = spec_todos_of(bodies.drop_last());
        match spec_vtodo_of(spec_document(bodies.last())) {
            None => prev,
            Some(td) => prev.push(td),
        }
    }
}

/// What assembly yields: the collection's display name, the decoded
/// events and to-dos in body order, and no timezone (none is reachable
/// from the component stream).
pub open spec fn spec_assemble(rs: Seq<ResponseView>, bodies: Seq<Seq<char>>) -> CalendarView {
    CalendarView {
        name: spec_collection_name(rs),
        events: spec_events_of(bodies),
        todos: spec_todos_of(bodies),
        timezone: None,
    }
}

/// The whole pipeline on one retrieval: the multistatus text decides
/// the resource records, the item bodies decide the components.
pub open spec fn spec_calendar_of(xml: Seq<char>, bodies: Seq<Seq<char>>) -> Result<
    CalendarView,
    int,
> {
    match crate::parsing::spec_parse_responses(xml) {
        Err(p) => Err(p),
        Ok(rs) => Ok(spec_assemble(rs, bodies)),
    }
}

impl Calendar {
    /// Combines the resource records of one multistatus listing with the
    /// fetched iCalendar bodies of its item resources, given in the
    /// order the items were encountered.
    pub fn assemble(responses: &Vec<Response>, bodies: &Vec<String>) -> (r: Calendar)
        ensures
            r@ == spec_assemble(resp_views(responses@), str_views(bodies@)),
    {
        let ghost rvs = resp_views(responses@);
        let nr = responses.len();
        let mut name = String::new();
        let mut timezone_text = String::new();
        let mut found = false;
        let mut i: usize = 0;
        proof {
            assert(name@ =~= Seq::<char>::empty());
            assert(rvs.subrange(0, nr as int) =~= rvs);
        }
        while i < nr && !found
            invariant
                nr == responses@.len(),
                rvs.len() == nr,
                rvs == resp_views(responses@),
                i <= nr,
                !found ==> name@ == Seq::<char>::empty(),
                !found ==> spec_collection_name(rvs) == spec_collection_name(
                    rvs.subrange(i as int, nr as int),
                ),
                found ==> name@ == spec_collection_name(rvs),
            decreases nr - i + (if found { 0int } else { 1int }),
        {
            proof {
                assert(rvs[i as int] == responses@[i as int]@);
                assert(rvs.subrange(i as int, nr as int)[0] == rvs[i as int]);
                assert(rvs.subrange(i as int, nr as int).drop_first() =~= rvs.subrange(
                    i + 1,
                    nr as int,
                ));
            }
            if !responses[i].is_ics() {
                name = responses[i].prop.displayname.clone();
                timezone_text = responses[i].prop.calendar_timezone.clone();
                found = true;
            } else {
                i += 1;
            }
        }
        proof {
            if !found {
                assert(rvs.subrange(nr as int, nr as int) =~= Seq::<ResponseView>::empty());
            }
            assert(name@ == spec_collection_name(rvs));
        }
        let ghost bvs = str_views(bodies@);
        let nb = bodies.len();
        let mut events: Vec<VEvent> = Vec::new();
        let mut todos: Vec<VTodo> = Vec::new();
        proof {
            assert(bvs.subrange(0, 0) =~= Seq::<Seq<char>>::empty());
            assert(vevent_views(events@) =~= Seq::<VEventView>::empty());
            assert(vtodo_views(todos@) =~= Seq::<VTodoView>::empty());
        }
        let mut j: usize = 0;
        while j < nb
            invariant
                nb == bodies@.len(),
                bvs.len() == nb,
                bvs == str_views(bodies@),
                j <= nb,
                vevent_views(events@) == spec_events_of(bvs.subrange(0, j as int)),
                vtodo_views(todos@) == spec_todos_of(bvs.subrange(0, j as int)),
            decreases nb - j,
        {
            proof {
                assert(bvs.subrange(0, j + 1).drop_last() =~= bvs.subrange(0, j as int));
                assert(bvs.subrange(0, j + 1).last() == bvs[j as int]);
                assert(bvs[j as int] == bodies@[j as int]@);
            }
            let doc = IcalDocument::parse(bodies[j].as_str());
            match VEvent::new(&doc) {
                Some(ev) => {
                    let ghost pre = events@;
                    events.push(ev);
                    proof {
                        assert(vevent_views(events@) =~= vevent_views(pre).push(
                            events@.last()@,
                        ));
                    }
                },
                None => {},
            }
            match VTodo::new(&doc) {
                Some(td) => {
                    let ghost pre = todos@;
                    todos.push(td);
                    proof {
                        assert(vtodo_views(todos@) =~= vtodo_views(pre).push(todos@.last()@));
                    }
                },
                None => {},
            }
            j += 1;
        }
        proof {
            assert(bvs.subrange(0, nb as int) =~= bvs);
        }
        Calendar { name, events, todos, timezone: VTimezone::new(timezone_text.as_str()) }
    }
}

} // verus!
