//! One `response` entry of a multistatus document: the resource path it
//! names, the item (file) name derived from that path, and the decoded
//! property record.

use vstd::prelude::*;

use crate::prop::{Prop, PropView};
use crate::text::spec_ends_with;

verus! {

/// Index of the last occurrence of `c` before `j`, if any.
pub open spec fn spec_rfind_before(s: Seq<char>, c: char, j: int) -> Option<int>
    decreases j,
    when 0 <= j <= s.len()
{
    if j <= 0 {
        None
    } else if s[j - 1] == c {
        Some(j - 1)
    } else {
        spec_rfind_before(s, c, j - 1)
    }
}

/// The last path segment of `h`: what follows the final `/`, or all of
/// `h` when it has none.
pub open spec fn spec_basename(h: Seq<char>) -> Seq<char> {
    match spec_rfind_before(h, '/', h.len() as int) {
        None => h,
        Some(i) => h.subrange(i + 1, h.len() as int),
    }
}

fn rfind_before(s: &str, c: char, j: usize) -> (r: Option<usize>)
    requires
        j <= s@.len(),
    ensures
        match r {
            Some(i) => i < j && spec_rfind_before(s@, c, j as int) == Some(i as int),
            None => spec_rfind_before(s@, c, j as int) is None,
        },
    decreases j,
{
    if j == 0 {
        None
    } else if s.get_char(j - 1) == c {
        Some(j - 1)
    } else {
        rfind_before(s, c, j - 1)
    }
}

#[derive(Debug, Clone, PartialEq, Eq)]
pub struct Response {
    /// Server-relative path of the resource.
    pub href: String,
    /// Last path segment of `href`: the item file name.
    pub ical_file: String,
    pub prop: Prop,
}

pub struct ResponseView {
    pub href: Seq<char>,
    pub ical_file: Seq<char>,
    pub prop: PropView,
}

impl View for Response {
    type V = ResponseView;

    open spec fn view(&self) -> ResponseView {
        ResponseView { href: self.href@, ical_file: self.ical_file@, prop: self.prop@ }
    }
}

pub open spec fn resp_views(v: Seq<Response>) -> Seq<ResponseView> {
    v.map_values(|r: Response| r@)
}

impl Response {
    /// Builds the record for one resource: the path as given, and the
    /// item name cut from its last path segment.
    pub fn new(href: &str, prop: Prop) -> (r: Response)
        ensures
            r@.href == href@,
            r@.ical_file == spec_basename(href@),
            r@.prop == prop@,
    {
        let n = href.unicode_len();
        let ical_file = match rfind_before(href, '/', n) {
            None => href.to_owned(),
            Some(i) => href.substring_char(i + 1, n).to_owned(),
        };
        Response { href: href.to_owned(), ical_file, prop }
    }

    /// Whether this resource is an item-level calendar file: its path
    /// ends in `.ics`.  The one resource whose path does not is the
    /// collection itself.
    pub fn is_ics(&self) -> (r: bool)
        ensures
            r == spec_ends_with(self.href@, ".ics"@),
    {
        crate::text::str_ends_with(self.href.as_str(), ".ics")
    }
}

} // verus!
