//! Tests for assembly, configuration reading and path resolution.

use webcal::calendar::Calendar;
use webcal::config::ServerConfig;
use webcal::filesystem::FileSystemHandler;
use webcal::parsing::parse_responses;
use webcal::prop::Prop;
use webcal::response::Response;

fn listing() -> String {
    String::from(
        "<d:multistatus xmlns:d=\"DAV:\">\
         <d:response><d:href>/cal/abfall/</d:href><d:propstat><d:prop>\
         <d:displayname>Abfall</d:displayname></d:prop></d:propstat></d:response>\
         <d:response><d:href>/cal/abfall/a.ics</d:href><d:propstat><d:prop>\
         <d:getcontentlength>465</d:getcontentlength></d:prop></d:propstat></d:response>\
         <d:response><d:href>/cal/abfall/b.ics</d:href><d:propstat><d:prop>\
         <d:getcontentlength>513</d:getcontentlength></d:prop></d:propstat></d:response>\
         </d:multistatus>",
    )
}

fn event_body() -> String {
    String::from(
        "BEGIN:VCALENDAR\r\nVERSION:2.0\r\nBEGIN:VEVENT\r\nUID:ev-1\r\nSUMMARY:Tonnentausch\r\nDTSTART;VALUE=DATE:20221102\r\nDTEND;VALUE=DATE:20221103\r\nX-FUNAMBOL-ALLDAY:1\r\nEND:VEVENT\r\nEND:VCALENDAR\r\n",
    )
}

fn todo_body() -> String {
    String::from(
        "BEGIN:VCALENDAR\r\nVERSION:2.0\r\nBEGIN:VTODO\r\nUID:td-1\r\nSUMMARY:Sockelleisten\r\nSTATUS:COMPLETED\r\nPERCENT-COMPLETE:100\r\nEND:VTODO\r\nEND:VCALENDAR\r\n",
    )
}

#[test]
fn new() {
    let text = "url=https://diesisteintest.de/webdavoderso\nuser=user\npassword=geheim\n";
    let config = ServerConfig::parse(text).unwrap();

    assert_eq!(
        config,
        ServerConfig {
            url: String::from("https://diesisteintest.de/webdavoderso"),
            user: String::from("user"),
            password: String::from("geheim"),
        },
    );
}

#[test]
fn config_rejects_incomplete_text() {
    assert!(ServerConfig::parse("url=https://x.example\nuser=u\n").is_none());
    assert!(ServerConfig::parse("").is_none());
    assert!(ServerConfig::parse("url=a=b\nuser=u\npassword=p\n").is_none());
}

#[test]
fn assemble_builds_calendar_in_order() {
    let responses = parse_responses(&listing()).unwrap();
    assert_eq!(responses.len(), 3);
    assert!(!responses[0].is_ics());
    assert!(responses[1].is_ics());
    assert_eq!(responses[1].ical_file, "a.ics");

    let bodies = vec![event_body(), todo_body()];
    let calendar = Calendar::assemble(&responses, &bodies);

    assert_eq!(calendar.name, "Abfall");
    assert_eq!(calendar.events.len(), 1);
    assert_eq!(calendar.events[0].summary, "Tonnentausch");
    assert!(calendar.events[0].is_all_day);
    assert_eq!(calendar.todos.len(), 1);
    assert_eq!(calendar.todos[0].summary, "Sockelleisten");
    assert_eq!(calendar.todos[0].percent_complete, 100);
    assert!(calendar.timezone.is_none());
}

#[test]
fn parsing_twice_yields_equal_calendars() {
    let xml = listing();
    let bodies = vec![event_body(), todo_body()];

    let first = Calendar::assemble(&parse_responses(&xml).unwrap(), &bodies);
    let second = Calendar::assemble(&parse_responses(&xml).unwrap(), &bodies);

    assert_eq!(first, second);
}

#[test]
fn response_derives_item_name_from_href() {
    let r = Response::new("/nextcloud/dav/calendars/user/abfall/D9F0AFEB.ics", Prop::default());
    assert_eq!(r.ical_file, "D9F0AFEB.ics");
    assert!(r.is_ics());

    let c = Response::new("/nextcloud/dav/calendars/user/abfall/", Prop::default());
    assert_eq!(c.ical_file, "");
    assert!(!c.is_ics());

    let bare = Response::new("plain", Prop::default());
    assert_eq!(bare.ical_file, "plain");
}

#[test]
fn filesystem_paths_resolve_under_home() {
    let handler = FileSystemHandler::new("/home/someone");
    assert_eq!(handler.home_directory_software, "/home/someone/.InfoPanel");
    assert_eq!(handler.create_directory("weather_icons"), "/home/someone/.InfoPanel/weather_icons");
    assert_eq!(handler.create_file("log_today.log"), "/home/someone/.InfoPanel/log_today.log");
}

#[test]
fn empty_body_contributes_nothing() {
    let responses = parse_responses(&listing()).unwrap();
    let bodies = vec![String::from(""), event_body()];
    let calendar = Calendar::assemble(&responses, &bodies);

    assert_eq!(calendar.events.len(), 1);
    assert_eq!(calendar.todos.len(), 0);
}
