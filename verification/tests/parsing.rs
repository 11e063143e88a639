//! Tests for the multistatus side: response splitting, field
//! extraction, property decoding.

use webcal::parsing::{
    extract_href_xml, extract_propstat_xml, extract_response_xml, parse_prop, parse_responses,
    ParseError,
};
use webcal::prop::Prop;

fn fragment_collection() -> String {
    String::from(
        "
        <d:href>/nextcloud/remote.php/dav/calendars/user/abfall/</d:href>
        <d:propstat>
            <d:prop>
                <d:resourcetype>
                    <d:collection/>
                    <cal:calendar/>
                </d:resourcetype>
                <cs:getctag>http://sabre.io/ns/sync/32</cs:getctag>
                <s:sync-token>32</s:sync-token>
                <cal:supported-calendar-component-set>
                    <cal:comp name=\"VEVENT\"/>
                </cal:supported-calendar-component-set>
                <cal:schedule-calendar-transp>
                    <cal:opaque/>
                </cal:schedule-calendar-transp>
                <oc:owner-principal>principals/users/user</oc:owner-principal>
                <d:displayname>Abfall</d:displayname>
                <cal:calendar-timezone>BEGIN:VCALENDAR
                    PRODID:-//IDN nextcloud.com//Calendar app 3.4.2//EN
                    CALSCALE:GREGORIAN
                    VERSION:2.0
                    BEGIN:VTIMEZONE
                    TZID:Europe/Berlin
                    BEGIN:DAYLIGHT
                    TZOFFSETFROM:+0100
                    TZOFFSETTO:+0200
                    TZNAME:CEST
                    DTSTART:19700329T020000
                    RRULE:FREQ=YEARLY;BYMONTH=3;BYDAY=-1SU
                    END:DAYLIGHT
                    BEGIN:STANDARD
                    TZOFFSETFROM:+0200
                    TZOFFSETTO:+0100
                    TZNAME:CET
                    DTSTART:19701025T030000
                    RRULE:FREQ=YEARLY;BYMONTH=10;BYDAY=-1SU
                    END:STANDARD
                    END:VTIMEZONE
                    END:VCALENDAR</cal:calendar-timezone>
                <x1:calendar-order
                        xmlns:x1=\"http://apple.com/ns/ical/\">0
                </x1:calendar-order>
                <x2:owner-displayname
                        xmlns:x2=\"http://nextcloud.com/ns\">User
                </x2:owner-displayname>
            </d:prop>
            <d:status>HTTP/1.1 200 OK</d:status>
        </d:propstat>",
    )
}

fn fragment_item_1() -> String {
    String::from(
        "
        <d:href>/nextcloud/remote.php/dav/calendars/user/abfall/D9F0AFEB-6B0A-434A-99B8-EE64C8E27526.ics</d:href>
        <d:propstat>
            <d:prop>
                <d:getlastmodified>Mon, 22 Aug 2022 18:10:09 GMT</d:getlastmodified>
                <d:getcontentlength>465</d:getcontentlength>
                <d:resourcetype/>
                <d:getetag>&quot;a86c24c6146b1965dff7da97f2e433cf&quot;</d:getetag>
                <d:getcontenttype>text/calendar; charset=utf-8; component=vevent</d:getcontenttype>
            </d:prop>
            <d:status>HTTP/1.1 200 OK</d:status>
        </d:propstat>",
    )
}

fn fragment_item_2() -> String {
    String::from(
        "
    <d:href>/nextcloud/remote.php/dav/calendars/user/abfall/BFB6E10D-1C74-4B62-A566-1F75F8BD0893.ics</d:href>
    <d:propstat>
        <d:prop>
            <d:getlastmodified>Mon, 22 Aug 2022 18:10:09 GMT</d:getlastmodified>
            <d:getcontentlength>513</d:getcontentlength>
            <d:resourcetype/>
            <d:getetag>&quot;742dd33eb021a68e783e046bc77a6f97&quot;</d:getetag>
            <d:getcontenttype>text/calendar; charset=utf-8; component=vevent</d:getcontenttype>
        </d:prop>
        <d:status>HTTP/1.1 200 OK</d:status>
    </d:propstat>",
    )
}

fn multistatus_document() -> String {
    format!(
        "<?xml version=\"1.0\"?>\n<d:multistatus xmlns:d=\"DAV:\" xmlns:s=\"http://sabredav.org/ns\" xmlns:cal=\"urn:ietf:params:xml:ns:caldav\" xmlns:cs=\"http://calendarserver.org/ns/\" xmlns:oc=\"http://owncloud.org/ns\">\n    <d:response>{}</d:response>\n    <d:response>{}</d:response>\n    <d:response>{}</d:response>\n</d:multistatus>\n",
        fragment_collection(),
        fragment_item_1(),
        fragment_item_2(),
    )
}

#[test]
fn response_extraction() {
    let xml = multistatus_document();

    let xml_responses: Vec<String> = extract_response_xml(&xml).unwrap();
    let expected = vec![fragment_collection(), fragment_item_1(), fragment_item_2()];

    assert_eq!(xml_responses, expected);
}

#[test]
fn href_extraction() {
    let xml = fragment_item_1();

    let href = extract_href_xml(xml.as_ref()).unwrap();
    let expected =
        "/nextcloud/remote.php/dav/calendars/user/abfall/D9F0AFEB-6B0A-434A-99B8-EE64C8E27526.ics";

    assert_eq!(expected, href);
}

#[test]
fn propstat_extraction() {
    let xml = fragment_item_1();

    let propstat = extract_propstat_xml(xml.as_ref()).unwrap();
    let expected = "
            <d:prop>
                <d:getlastmodified>Mon, 22 Aug 2022 18:10:09 GMT</d:getlastmodified>
                <d:getcontentlength>465</d:getcontentlength>
                <d:resourcetype/>
                <d:getetag>&quot;a86c24c6146b1965dff7da97f2e433cf&quot;</d:getetag>
                <d:getcontenttype>text/calendar; charset=utf-8; component=vevent</d:getcontenttype>
            </d:prop>
            <d:status>HTTP/1.1 200 OK</d:status>
        ";

    assert_eq!(expected, propstat);
}

#[test]
fn prop_parsing() {
    let prop_string = extract_propstat_xml(fragment_item_1().as_ref()).unwrap();

    let prop: Prop = parse_prop(&prop_string).unwrap();

    let expected_prop: Prop = Prop {
        resourcetype: String::from(""),
        displayname: String::from(""),
        calendar_timezone: String::from(""),
        last_modified: String::from("Mon, 22 Aug 2022 18:10:09 GMT"),
        content_length: 465,
        e_tag: String::from("&quot;a86c24c6146b1965dff7da97f2e433cf&quot;"),
        content_type: String::from("text/calendar; charset=utf-8; component=vevent"),
    };

    assert_eq!(prop, expected_prop);
}

#[test]
fn prop_parsing_matches_namespace_prefixes() {
    let input = "<prop><D:displayname>Home</D:displayname><ns7:getcontentlength>42</ns7:getcontentlength></prop>";
    let prop = parse_prop(input).unwrap();
    assert_eq!(prop.displayname, "Home");
    assert_eq!(prop.content_length, 42);
}

#[test]
fn content_length_defaults_to_zero() {
    let bad = parse_prop("<d:getcontentlength>many</d:getcontentlength>").unwrap();
    assert_eq!(bad.content_length, 0);

    let huge = parse_prop("<d:getcontentlength>99999999999</d:getcontentlength>").unwrap();
    assert_eq!(huge.content_length, 0);

    let empty = parse_prop("<d:getcontentlength></d:getcontentlength>").unwrap();
    assert_eq!(empty.content_length, 0);
}

#[test]
fn missing_propstat_yields_default_record() {
    let fragment = "<d:href>/cal/item.ics</d:href>";
    let propstat = extract_propstat_xml(fragment).unwrap();
    assert_eq!(propstat, "");

    let prop = parse_prop(&propstat).unwrap();
    assert_eq!(prop, Prop::default());
}

#[test]
fn missing_href_surfaces_field_error() {
    let fragment = "
        <d:propstat>
            <d:prop>
                <d:displayname>Orphan</d:displayname>
            </d:prop>
        </d:propstat>";

    let err = extract_href_xml(fragment).unwrap_err();
    assert_eq!(err, ParseError::MissingField { field: String::from("href") });
}

#[test]
fn missing_href_skips_resource_but_siblings_decode() {
    let doc = format!(
        "<d:multistatus xmlns:d=\"DAV:\"><d:response><d:propstat><d:prop><d:displayname>NoHref</d:displayname></d:prop></d:propstat></d:response><d:response>{}</d:response></d:multistatus>",
        fragment_item_1(),
    );

    let responses = parse_responses(&doc).unwrap();
    assert_eq!(responses.len(), 1);
    assert_eq!(
        responses[0].href,
        "/nextcloud/remote.php/dav/calendars/user/abfall/D9F0AFEB-6B0A-434A-99B8-EE64C8E27526.ics",
    );
    assert_eq!(responses[0].ical_file, "D9F0AFEB-6B0A-434A-99B8-EE64C8E27526.ics");
    assert_eq!(responses[0].prop.content_length, 465);
}

#[test]
fn unreadable_tag_stream_is_malformed() {
    let doc = "<d:multistatus><d:response";
    let err = extract_response_xml(doc).unwrap_err();
    assert!(matches!(err, ParseError::MalformedDocument { .. }));
}

#[test]
fn unclosed_response_is_malformed() {
    let doc = "<d:multistatus><d:response><d:href>/a</d:href></d:multistatus>";
    let err = extract_response_xml(doc).unwrap_err();
    assert!(matches!(err, ParseError::MalformedDocument { .. }));
}

#[test]
fn splitter_ignores_namespace_prefixes() {
    let doc = "<multistatus><D:response><D:href>/a.ics</D:href></D:response>\
               <ns0:response><ns0:href>/b.ics</ns0:href></ns0:response></multistatus>";
    let fragments = extract_response_xml(doc).unwrap();
    assert_eq!(fragments.len(), 2);
    assert_eq!(fragments[0], "<D:href>/a.ics</D:href>");
    assert_eq!(fragments[1], "<ns0:href>/b.ics</ns0:href>");
}

#[test]
fn first_href_wins_and_is_trimmed() {
    let fragment = "<d:href>\n   /cal/first.ics\t</d:href><d:href>/cal/second.ics</d:href>";
    let href = extract_href_xml(fragment).unwrap();
    assert_eq!(href, "/cal/first.ics");
}

#[test]
fn absent_href_reads_as_missing_not_empty() {
    let fragment = "<d:propstat></d:propstat>";
    assert!(matches!(
        extract_href_xml(fragment),
        Err(ParseError::MissingField { .. })
    ));
}
