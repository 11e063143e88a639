//! Timezone metadata in the minimal form used downstream: an identifier
//! plus the daylight and standard transition rules.
//!
//! The event/to-do path through an iCalendar document never reaches a
//! timezone component, so construction currently always reports absence;
//! the shape is kept for the callers that carry it.

use vstd::prelude::*;

use crate::datetime::DateTime;

verus! {

#[derive(Debug, Clone, PartialEq, Eq)]
pub struct VTimezone {
    pub version: String,
    pub cal_scale: String,
    pub prodid: String,
    pub tzid: String,
    pub dl_tz_offset_from: String,
    pub dl_tz_offset_to: String,
    pub dl_tz_name: String,
    pub dl_date_start: DateTime,
    pub dl_rrule_freq: String,
    pub dl_rrule_by_month: String,
    pub dl_rrule_by_day: String,
    pub df_tz_offset_from: String,
    pub df_tz_offset_to: String,
    pub df_tz_name: String,
    pub df_date_start: DateTime,
    pub df_rrule_freq: String,
    pub df_rrule_by_month: String,
    pub df_rrule_by_day: String,
}

pub struct VTimezoneView {
    pub version: Seq<char>,
    pub cal_scale: Seq<char>,
    pub prodid: Seq<char>,
    pub tzid: Seq<char>,
    pub dl_tz_offset_from: Seq<char>,
    pub dl_tz_offset_to: Seq<char>,
    pub dl_tz_name: Seq<char>,
    pub dl_date_start: DateTime,
    pub dl_rrule_freq: Seq<char>,
    pub dl_rrule_by_month: Seq<char>,
    pub dl_rrule_by_day: Seq<char>,
    pub df_tz_offset_from: Seq<char>,
    pub df_tz_offset_to: Seq<char>,
    pub df_tz_name: Seq<char>,
    pub df_date_start: DateTime,
    pub df_rrule_freq: Seq<char>,
    pub df_rrule_by_month: Seq<char>,
    pub df_rrule_by_day: Seq<char>,
}

impl View for VTimezone {
    type V = VTimezoneView;

    open spec fn view(&self) -> VTimezoneView {
        VTimezoneView {
            version: self.version@,
            cal_scale: self.cal_scale@,
            prodid: self.prodid@,
            tzid: self.tzid@,
            dl_tz_offset_from: self.dl_tz_offset_from@,
            dl_tz_offset_to: self.dl_tz_offset_to@,
            dl_tz_name: self.dl_tz_name@,
            dl_date_start: self.dl_date_start,
            dl_rrule_freq: self.dl_rrule_freq@,
            dl_rrule_by_month: self.dl_rrule_by_month@,
            dl_rrule_by_day: self.dl_rrule_by_day@,
            df_tz_offset_from: self.df_tz_offset_from@,
            df_tz_offset_to: self.df_tz_offset_to@,
            df_tz_name: self.df_tz_name@,
            df_date_start: self.df_date_start,
            df_rrule_freq: self.df_rrule_freq@,
            df_rrule_by_month: self.df_rrule_by_month@,
            df_rrule_by_day: self.df_rrule_by_day@,
        }
    }
}

impl VTimezone {
    /// Takes the raw embedded iCalendar text of the collection's vendor
    /// timezone property.  No timezone component is reachable from the
    /// parsed component stream, and whether that embedded document
    /// should be decoded is left open, so none is ever built.
    pub fn new(calendar_timezone: &str) -> (r: Option<VTimezone>)
        ensures
            r is None,
    {
        let _ = calendar_timezone;
        None
    }
}

} // verus!
