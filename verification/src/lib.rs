//! A CalDAV calendar model built from two little grammars: the WebDAV
//! multistatus XML envelope and the iCalendar text format.  Every parsing
//! stage is a pure function over text, specified against a mathematical
//! model of the input and verified.

pub mod calendar;
pub mod config;
pub mod datetime;
pub mod filesystem;
pub mod ical;
pub mod laws;
pub mod parsing;
pub mod prop;
pub mod response;
pub mod text;
pub mod vevent;
pub mod vtimezone;
pub mod vtodo;
