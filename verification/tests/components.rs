//! Tests for the iCalendar side: lexing, unfolding, date resolution,
//! and the event/to-do records.

use webcal::datetime::{Date, DateTime};
use webcal::ical::{lex, split_line, IcalDocument};
use webcal::parsing::{parse_date, parse_ymd, parse_ymd_hms};
use webcal::vevent::VEvent;
use webcal::vtodo::VTodo;

fn dt(year: u32, month: u32, day: u32, hour: u32, minute: u32, second: u32) -> DateTime {
    DateTime { year, month, day, hour, minute, second }
}

fn vevent_ics() -> String {
    String::from(
        "BEGIN:VCALENDAR\r\nVERSION:2.0\r\nCALSCALE:GREGORIAN\r\nPRODID:-//hacksw/handcal//NONSGML v1.0//EN\r\nBEGIN:VEVENT\r\nUID:082c600294b2948e371fee12ae989ff5@eaw-rtk.de\r\nDTSTART;VALUE=DATE:20220726\r\nDTEND;VALUE=DATE:20220727\r\nDTSTAMP:20220822T181009Z\r\nSUMMARY:RestmÃ¼lltonne\\, Biotonne\\, Altpapiertonne\\, Gelber Sack\r\nTRANSP:TRANSPARENT\r\nX-FUNAMBOL-ALLDAY:1\r\nEND:VEVENT\r\nEND:VCALENDAR\r\n",
    )
}

fn vtodo_ics() -> String {
    String::from(
        "BEGIN:VCALENDAR\r\nVERSION:2.0\r\nPRODID:+//IDN bitfire.at//ical4android (org.dmfs.tasks)\r\nBEGIN:VTODO\r\nDTSTAMP:20230901T113353Z\r\nUID:9bb62d0c-0d01-4232-8b36-ac712e948cbf\r\nCREATED:20230514T203505Z\r\nLAST-MODIFIED:20230901T113329Z\r\nSUMMARY:Küche Sockelleisten\r\nSTATUS:COMPLETED\r\nCOMPLETED:20230901T113329Z\r\nPERCENT-COMPLETE:100\r\nSEQUENCE:1\r\nEND:VTODO\r\nEND:VCALENDAR\r\n",
    )
}

#[test]
fn create_event() {
    let ics = vevent_ics();
    let document = IcalDocument::parse(&ics);
    let option = VEvent::new(&document);

    match option {
        Some(vevent) => {
            let vevent_expected = VEvent {
                version: "2.0".to_string(),
                cal_scale: "GREGORIAN".to_string(),
                prodid: "-//hacksw/handcal//NONSGML v1.0//EN".to_string(),
                desc: "".to_string(),
                summary: "RestmÃ¼lltonne\\, Biotonne\\, Altpapiertonne\\, Gelber Sack"
                    .to_string(),
                uid: "082c600294b2948e371fee12ae989ff5@eaw-rtk.de".to_string(),
                date_start: dt(2022, 7, 26, 0, 0, 0),
                date_end: dt(2022, 7, 27, 0, 0, 0),
                date_timestamp: dt(2022, 8, 22, 18, 10, 9),
                is_all_day: true,
            };
            assert_eq!(vevent, vevent_expected);
        },
        None => assert!(false),
    }
}

#[test]
fn create_todo() {
    let ics = vtodo_ics();
    let document = IcalDocument::parse(&ics);
    let option = VTodo::new(&document);

    match option {
        Some(vtodo) => {
            let vtodo_expected = VTodo {
                version: "2.0".to_string(),
                cal_scale: "".to_string(),
                prodid: "+//IDN bitfire.at//ical4android (org.dmfs.tasks)".to_string(),
                summary: "Küche Sockelleisten".to_string(),
                status: "COMPLETED".to_string(),
                completed: dt(2023, 9, 1, 11, 33, 29),
                percent_complete: 100,
                sequence: "1".to_string(),
                uid: "9bb62d0c-0d01-4232-8b36-ac712e948cbf".to_string(),
                date_timestamp: dt(2023, 9, 1, 11, 33, 53),
                created: dt(2023, 5, 14, 20, 35, 5),
                last_modified: dt(2023, 9, 1, 11, 33, 29),
            };
            assert_eq!(vtodo, vtodo_expected);
        },
        None => assert!(false),
    }
}

#[test]
fn date_parsing() {
    let input_vec = vec![
        split_line("DTSTART;VALUE=DATE:20220726").unwrap(),
        split_line("DTSTAMP:20220822T181009Z").unwrap(),
    ];

    let mut output_vec: Vec<DateTime> = Vec::new();
    for input in &input_vec {
        output_vec.push(parse_date(input));
    }

    let expected_output_vec = vec![dt(2022, 7, 26, 0, 0, 0), dt(2022, 8, 22, 18, 10, 9)];

    assert_eq!(output_vec, expected_output_vec);
}

#[test]
fn event_fixture_all_day() {
    let ics = "BEGIN:VCALENDAR\nVERSION:2.0\nBEGIN:VEVENT\nDTSTART;VALUE=DATE:20221102\nDTEND;VALUE=DATE:20221103\nX-FUNAMBOL-ALLDAY:1\nSUMMARY:Tonnentausch\nDTSTAMP:20220822T181011Z\nEND:VEVENT\nEND:VCALENDAR\n";
    let document = IcalDocument::parse(ics);
    let event = VEvent::new(&document).unwrap();

    assert_eq!(event.date_start, dt(2022, 11, 2, 0, 0, 0));
    assert_eq!(event.date_end, dt(2022, 11, 3, 0, 0, 0));
    assert!(event.is_all_day);
    assert_eq!(event.summary, "Tonnentausch");
    assert_eq!(event.date_timestamp, dt(2022, 8, 22, 18, 10, 11));
}

#[test]
fn todo_fixture_completed() {
    let ics = "BEGIN:VCALENDAR\nBEGIN:VTODO\nSTATUS:COMPLETED\nPERCENT-COMPLETE:100\nCOMPLETED:20230901T113329Z\nEND:VTODO\nEND:VCALENDAR\n";
    let document = IcalDocument::parse(ics);
    let todo = VTodo::new(&document).unwrap();

    assert_eq!(todo.status, "COMPLETED");
    assert_eq!(todo.percent_complete, 100);
    assert_eq!(todo.completed, dt(2023, 9, 1, 11, 33, 29));
}

#[test]
fn percent_complete_tolerates_junk() {
    let ics = "BEGIN:VCALENDAR\nBEGIN:VTODO\nPERCENT-COMPLETE:abc\nEND:VTODO\nEND:VCALENDAR\n";
    let todo = VTodo::new(&IcalDocument::parse(ics)).unwrap();
    assert_eq!(todo.percent_complete, 0);

    let ics_big = "BEGIN:VCALENDAR\nBEGIN:VTODO\nPERCENT-COMPLETE:150\nEND:VTODO\nEND:VCALENDAR\n";
    let todo_big = VTodo::new(&IcalDocument::parse(ics_big)).unwrap();
    assert_eq!(todo_big.percent_complete, 100);
}

#[test]
fn unfolding_rebuilds_logical_lines() {
    let ics = "SUMMARY:part one\n  and two\n\tand three\nUID:x\n";
    let lines = lex(ics);
    assert_eq!(lines.len(), 2);
    assert_eq!(lines[0].name, "SUMMARY");
    assert_eq!(lines[0].value, "part one and twoand three");
    assert_eq!(lines[1].name, "UID");
    assert_eq!(lines[1].value, "x");
}

#[test]
fn folded_summary_decodes_whole() {
    let ics = "BEGIN:VCALENDAR\r\nBEGIN:VEVENT\r\nSUMMARY:Hello\r\n  World\r\nEND:VEVENT\r\nEND:VCALENDAR\r\n";
    let event = VEvent::new(&IcalDocument::parse(ics)).unwrap();
    assert_eq!(event.summary, "Hello World");
}

#[test]
fn line_without_colon_is_skipped() {
    let lines = lex("NOT A CONTENT LINE\nUID:u1\n");
    assert_eq!(lines.len(), 1);
    assert_eq!(lines[0].name, "UID");
}

#[test]
fn line_split_reads_parameters() {
    let line = split_line("DTSTART;VALUE=DATE;TZID=Europe/Berlin:20220726").unwrap();
    assert_eq!(line.name, "DTSTART");
    assert_eq!(line.params.len(), 2);
    assert_eq!(line.params[0].key, "VALUE");
    assert_eq!(line.params[0].value, "DATE");
    assert_eq!(line.params[1].key, "TZID");
    assert_eq!(line.params[1].value, "Europe/Berlin");
    assert_eq!(line.value, "20220726");
}

#[test]
fn escaped_colon_is_not_a_separator() {
    let line = split_line("SUMMARY:a\\:b").unwrap();
    assert_eq!(line.name, "SUMMARY");
    assert_eq!(line.value, "a\\:b");
}

#[test]
fn unterminated_component_is_dropped() {
    let ics = "BEGIN:VCALENDAR\nBEGIN:VEVENT\nSUMMARY:half\n";
    let document = IcalDocument::parse(ics);
    assert_eq!(document.components.len(), 0);
    assert!(VEvent::new(&document).is_none());
}

#[test]
fn event_document_is_no_todo() {
    let document = IcalDocument::parse(&vevent_ics());
    assert!(VTodo::new(&document).is_none());
    let todo_document = IcalDocument::parse(&vtodo_ics());
    assert!(VEvent::new(&todo_document).is_none());
}

#[test]
fn invalid_dates_fall_back_to_epoch() {
    let epoch_date = Date { year: 1970, month: 1, day: 1 };
    assert_eq!(parse_ymd("20220230"), epoch_date);
    assert_eq!(parse_ymd("garbage!"), epoch_date);
    assert_eq!(parse_ymd(""), epoch_date);
    assert_eq!(parse_ymd("20230229"), epoch_date);
    assert_eq!(parse_ymd("20240229"), Date { year: 2024, month: 2, day: 29 });

    let epoch = dt(1970, 1, 1, 0, 0, 0);
    assert_eq!(parse_ymd_hms("20220822"), epoch);
    assert_eq!(parse_ymd_hms("20220822T181009"), epoch);
    assert_eq!(parse_ymd_hms("20220822T256161Z"), epoch);
    assert_eq!(parse_ymd_hms("20220822T181009.123Z"), dt(2022, 8, 22, 18, 10, 9));
}

#[test]
fn bare_timestamp_keeps_time_of_day() {
    let line = split_line("DTSTART:20220822T181009Z").unwrap();
    assert_eq!(parse_date(&line), dt(2022, 8, 22, 18, 10, 9));

    let with_param = split_line("DTSTART;VALUE=DATE:20220822T181009Z").unwrap();
    assert_eq!(parse_date(&with_param), dt(1970, 1, 1, 0, 0, 0));
}
