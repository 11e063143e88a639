//! The flat WebDAV property record of one resource.  Every field is
//! independently optional: a property the server did not send keeps its
//! default, and no absence invalidates the record.

use vstd::prelude::*;

verus! {

#[derive(Debug, Clone, PartialEq, Eq)]
pub struct Prop {
    pub resourcetype: String,
    pub displayname: String,
    /// Raw embedded iCalendar text of the vendor timezone element.
    pub calendar_timezone: String,
    pub last_modified: String,
    pub content_length: u32,
    pub e_tag: String,
    pub content_type: String,
}

pub struct PropView {
    pub resourcetype: Seq<char>,
    pub displayname: Seq<char>,
    pub calendar_timezone: Seq<char>,
    pub last_modified: Seq<char>,
    pub content_length: u32,
    pub e_tag: Seq<char>,
    pub content_type: Seq<char>,
}

impl View for Prop {
    type V = PropView;

    open spec fn view(&self) -> PropView {
        PropView {
            resourcetype: self.resourcetype@,
            displayname: self.displayname@,
            calendar_timezone: self.calendar_timezone@,
            last_modified: self.last_modified@,
            content_length: self.content_length,
            e_tag: self.e_tag@,
            content_type: self.content_type@,
        }
    }
}

impl PropView {
    /// The record with every field absent: empty strings and zero.
    pub open spec fn spec_empty() -> PropView {
        PropView {
            resourcetype: Seq::empty(),
            displayname: Seq::empty(),
            calendar_timezone: Seq::empty(),
            last_modified: Seq::empty(),
            content_length: 0,
            e_tag: Seq::empty(),
            content_type: Seq::empty(),
        }
    }
}

impl Prop {
    pub fn empty() -> (r: Prop)
        ensures
            r@ == PropView::spec_empty(),
    {
        let r = Prop {
            resourcetype: String::new(),
            displayname: String::new(),
            calendar_timezone: String::new(),
            last_modified: String::new(),
            content_length: 0,
            e_tag: String::new(),
            content_type: String::new(),
        };
        proof {
            assert(r@.resourcetype =~= Seq::<char>::empty());
            assert(r@.displayname =~= Seq::<char>::empty());
            assert(r@.calendar_timezone =~= Seq::<char>::empty());
            assert(r@.last_modified =~= Seq::<char>::empty());
            assert(r@.e_tag =~= Seq::<char>::empty());
            assert(r@.content_type =~= Seq::<char>::empty());
        }
        r
    }
}

impl Default for Prop {
    fn default() -> (r: Self)
        ensures
            r@ == PropView::spec_empty(),
    {
        Prop::empty()
    }
}

} // verus!
