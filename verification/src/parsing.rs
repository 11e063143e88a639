//! The multistatus side of the pipeline: a small XML tag scanner, the
//! splitter that cuts a multistatus document into one fragment per
//! `response` element, the `href`/`propstat` extractors, the property
//! decoder, and the tolerant date readers.
//!
//! Tags are matched by local name, so the server's choice of namespace
//! prefix does not matter.  Element text is taken raw: no entity decoding
//! is performed.

use vstd::prelude::*;

use crate::datetime::{
    valid_hms, valid_ymd, days_in_month, Date, DateTime,
};
use crate::ical::ContentLine;
use crate::prop::{Prop, PropView};
use crate::response::{resp_views, Response, ResponseView};
use crate::text::{
    all_digits, digit_val, find_from, is_digit_char, is_ws_char, lemma_find_bounds,
    parse_u32_or_zero, spec_find, spec_parse_u32_or_zero, spec_trim, str_eq, trim,
};

verus! {

/// How one multistatus parse can fail.
#[derive(Debug, Clone, PartialEq, Eq)]
pub enum ParseError {
    /// The tag stream cannot be read: a `<` at this character position
    /// has no closing `>`, or a `response` element is never closed.
    MalformedDocument { position: usize },
    /// A structurally required element is absent from a response
    /// fragment.
    MissingField { field: String },
}

// ---------------------------------------------------------------------
// Tags
// ---------------------------------------------------------------------

/// `t` is the text between `<` and `>`.
pub open spec fn tag_is_end(t: Seq<char>) -> bool {
    t.len() > 0 && t[0] == '/'
}

/// Prolog, comment, doctype and processing-instruction tags.
pub open spec fn tag_is_special(t: Seq<char>) -> bool {
    t.len() > 0 && (t[0] == '?' || t[0] == '!')
}

pub open spec fn tag_is_self_closing(t: Seq<char>) -> bool {
    t.len() > 0 && t[t.len() - 1] == '/'
}

/// End of the qualified name: the first whitespace or `/` in the body,
/// or its end.
pub open spec fn spec_name_end(b: Seq<char>, j: int) -> int
    decreases b.len() - j,
    when 0 <= j <= b.len()
{
    if j >= b.len() {
        j
    } else if is_ws_char(b[j]) || b[j] == '/' {
        j
    } else {
        spec_name_end(b, j + 1)
    }
}

/// The local part of a tag's name: the qualified name without a leading
/// `/`, cut at the first `:` when a namespace prefix is present.
pub open spec fn spec_local_name(t: Seq<char>) -> Seq<char> {
    let b = if tag_is_end(t) {
        t.drop_first()
    } else {
        t
    };
    let q = b.subrange(0, spec_name_end(b, 0));
    match spec_find(q, ':', 0) {
        None => q,
        Some(i) => q.subrange(i + 1, q.len() as int),
    }
}

/// An opening tag carrying content, named `name` (by local name).
pub open spec fn tag_is_start_named(t: Seq<char>, name: Seq<char>) -> bool {
    !tag_is_end(t) && !tag_is_special(t) && !tag_is_self_closing(t) && spec_local_name(t) == name
}

pub open spec fn tag_is_end_named(t: Seq<char>, name: Seq<char>) -> bool {
    tag_is_end(t) && spec_local_name(t) == name
}

fn name_end_exec(b: &str, j: usize) -> (r: usize)
    requires
        j <= b@.len(),
    ensures
        j <= r <= b@.len(),
        r == spec_name_end(b@, j as int),
    decreases b@.len() - j,
{
    let n = b.unicode_len();
    if j >= n {
        j
    } else {
        let c = b.get_char(j);
        if c == ' ' || c == '\t' || c == '\r' || c == '\n' || c == '/' {
            j
        } else {
            name_end_exec(b, j + 1)
        }
    }
}

fn tag_local_name<'a>(t: &'a str) -> (r: &'a str)
    ensures
        r@ == spec_local_name(t@),
{
    let n = t.unicode_len();
    let is_end = n > 0 && t.get_char(0) == '/';
    let b = if is_end {
        t.substring_char(1, n)
    } else {
        t
    };
    proof {
        if is_end {
            assert(b@ =~= t@.drop_first());
        }
    }
    let ne = name_end_exec(b, 0);
    let q = b.substring_char(0, ne);
    let qn = q.unicode_len();
    match find_from(q, ':', 0) {
        None => q,
        Some(i) => q.substring_char(i + 1, qn),
    }
}

fn tag_is_start(t: &str) -> (r: bool)
    ensures
        r == (!tag_is_end(t@) && !tag_is_special(t@) && !tag_is_self_closing(t@)),
{
    let n = t.unicode_len();
    if n == 0 {
        return true;
    }
    let c0 = t.get_char(0);
    let cl = t.get_char(n - 1);
    c0 != '/' && c0 != '?' && c0 != '!' && cl != '/'
}

// ---------------------------------------------------------------------
// The tag stream
// ---------------------------------------------------------------------

/// The next tag at or after `i`: `Ok(None)` when no `<` remains,
/// `Err(lt)` when the `<` at `lt` has no closing `>`, else the positions
/// of `<` and `>`.
pub open spec fn spec_next_tag(s: Seq<char>, i: int) -> Result<Option<(int, int)>, int> {
    match spec_find(s, '<', i) {
        None => Ok(None),
        Some(lt) => match spec_find(s, '>', lt + 1) {
            None => Err(lt),
            Some(gt) => Ok(Some((lt, gt))),
        },
    }
}

pub proof fn lemma_next_tag_bounds(s: Seq<char>, i: int)
    requires
        0 <= i <= s.len(),
    ensures
        spec_next_tag(s, i) matches Ok(Some((lt, gt))) ==> i <= lt < gt < s.len(),
        spec_next_tag(s, i) matches Err(p) ==> i <= p < s.len(),
{
    lemma_find_bounds(s, '<', i);
    if let Some(lt) = spec_find(s, '<', i) {
        lemma_find_bounds(s, '>', lt + 1);
    }
}

fn next_tag(s: &str, i: usize) -> (r: Result<Option<(usize, usize)>, usize>)
    requires
        i <= s@.len(),
    ensures
        match r {
            Ok(None) => spec_next_tag(s@, i as int) == Ok::<Option<(int, int)>, int>(
                None::<(int, int)>,
            ),
            Ok(Some((lt, gt))) => i <= lt < gt < s@.len() && spec_next_tag(s@, i as int) == Ok::<
                Option<(int, int)>,
                int,
            >(Some((lt as int, gt as int))),
            Err(p) => p < s@.len() && spec_next_tag(s@, i as int) == Err::<
                Option<(int, int)>,
                int,
            >(p as int),
        },
{
    let n = s.unicode_len();
    match find_from(s, '<', i) {
        None => Ok(None),
        Some(lt) => match find_from(s, '>', lt + 1) {
            None => Err(lt),
            Some(gt) => Ok(Some((lt, gt))),
        },
    }
}

/// The first end tag with the given local name at or after `i`, skipping
/// every other tag.
pub open spec fn spec_find_end_tag(s: Seq<char>, i: int, name: Seq<char>) -> Result<
    Option<(int, int)>,
    int,
>
    decreases s.len() - i,
    when 0 <= i <= s.len()
    via spec_find_end_tag_decreases
{
    match spec_next_tag(s, i) {
        Err(p) => Err(p),
        Ok(None) => Ok(None),
        Ok(Some((lt, gt))) => if tag_is_end_named(s.subrange(lt + 1, gt), name) {
            Ok(Some((lt, gt)))
        } else {
            spec_find_end_tag(s, gt + 1, name)
        },
    }
}

#[via_fn]
proof fn spec_find_end_tag_decreases(s: Seq<char>, i: int, name: Seq<char>) {
    lemma_next_tag_bounds(s, i);
}

fn find_end_tag(s: &str, i: usize, name: &str) -> (r: Result<Option<(usize, usize)>, usize>)
    requires
        i <= s@.len(),
    ensures
        match r {
            Ok(None) => spec_find_end_tag(s@, i as int, name@) == Ok::<Option<(int, int)>, int>(
                None::<(int, int)>,
            ),
            Ok(Some((lt, gt))) => i <= lt < gt < s@.len() && spec_find_end_tag(
                s@,
                i as int,
                name@,
            ) == Ok::<Option<(int, int)>, int>(Some((lt as int, gt as int))),
            Err(p) => p < s@.len() && spec_find_end_tag(s@, i as int, name@) == Err::<
                Option<(int, int)>,
                int,
            >(p as int),
        },
    decreases s@.len() - i,
{
    let n = s.unicode_len();
    match next_tag(s, i) {
        Err(p) => Err(p),
        Ok(None) => Ok(None),
        Ok(Some((lt, gt))) => {
            let t = s.substring_char(lt + 1, gt);
            let is_end = {
                let n = t.unicode_len();
                n > 0 && t.get_char(0) == '/'
            };
            if is_end && str_eq(tag_local_name(t), name) {
                Ok(Some((lt, gt)))
            } else {
                find_end_tag(s, gt + 1, name)
            }
        },
    }
}

pub proof fn lemma_find_end_tag_bounds(s: Seq<char>, i: int, name: Seq<char>)
    requires
        0 <= i <= s.len(),
    ensures
        spec_find_end_tag(s, i, name) matches Ok(Some((lt, gt))) ==> i <= lt < gt < s.len(),
        spec_find_end_tag(s, i, name) matches Err(p) ==> 0 <= p < s.len(),
    decreases s.len() - i,
{
    lemma_next_tag_bounds(s, i);
    match spec_next_tag(s, i) {
        Ok(Some((lt, gt))) => {
            if !tag_is_end_named(s.subrange(lt + 1, gt), name) {
                lemma_find_end_tag_bounds(s, gt + 1, name);
            }
        },
        _ => {},
    }
}

// ---------------------------------------------------------------------
// The multistatus splitter
// ---------------------------------------------------------------------

/// The fragments of a multistatus document from `i` on: the inner text
/// of each element with local name `response`, in document order.  A `<`
/// with no `>`, or a `response` element with no end tag, is malformed
/// (`Err` carries the offending position).
pub open spec fn spec_split_responses_from(s: Seq<char>, i: int) -> Result<Seq<Seq<char>>, int>
    decreases s.len() - i,
    when 0 <= i <= s.len()
    via spec_split_responses_from_decreases
{
    match spec_next_tag(s, i) {
        Err(p) => Err(p),
        Ok(None) => Ok(Seq::empty()),
        Ok(Some((lt, gt))) => {
            if tag_is_start_named(s.subrange(lt + 1, gt), "response"@) {
                match spec_find_end_tag(s, gt + 1, "response"@) {
                    Err(p) => Err(p),
                    Ok(None) => Err(lt),
                    Ok(Some((lt2, gt2))) => match spec_split_responses_from(s, gt2 + 1) {
                        Err(p) => Err(p),
                        Ok(rest) => Ok(seq![s.subrange(gt + 1, lt2)] + rest),
                    },
                }
            } else {
                spec_split_responses_from(s, gt + 1)
            }
        },
    }
}

#[via_fn]
proof fn spec_split_responses_from_decreases(s: Seq<char>, i: int) {
    lemma_next_tag_bounds(s, i);
    match spec_next_tag(s, i) {
        Ok(Some((lt, gt))) => {
            lemma_find_end_tag_bounds(s, gt + 1, "response"@);
        },
        _ => {},
    }
}

pub open spec fn spec_split_responses(s: Seq<char>) -> Result<Seq<Seq<char>>, int> {
    spec_split_responses_from(s, 0)
}

fn split_responses_from(s: &str, i: usize) -> (r: Result<Vec<String>, usize>)
    requires
        i <= s@.len(),
    ensures
        match r {
            Ok(v) => spec_split_responses_from(s@, i as int) matches Ok(frags) && v@.len()
                == frags.len() && (forall|k: int| 0 <= k < v@.len() ==> v@[k]@ == frags[k]),
            Err(p) => spec_split_responses_from(s@, i as int) == Err::<Seq<Seq<char>>, int>(
                p as int,
            ),
        },
    decreases s@.len() - i,
{
    let n = s.unicode_len();
    match next_tag(s, i) {
        Err(p) => Err(p),
        Ok(None) => Ok(Vec::new()),
        Ok(Some((lt, gt))) => {
            let t = s.substring_char(lt + 1, gt);
            if tag_is_start(t) && str_eq(tag_local_name(t), "response") {
                proof {
                    assert(tag_is_start_named(s@.subrange(lt + 1, gt as int), "response"@));
                }
                match find_end_tag(s, gt + 1, "response") {
                    Err(p) => Err(p),
                    Ok(None) => Err(lt),
                    Ok(Some((lt2, _gt2))) => {
                        let frag = s.substring_char(gt + 1, lt2).to_owned();
                        match split_responses_from(s, _gt2 + 1) {
                            Err(p) => Err(p),
                            Ok(mut rest) => {
                                rest.insert(0, frag);
                                proof {
                                    let frags = spec_split_responses_from(
                                        s@,
                                        i as int,
                                    )->Ok_0;
                                    let tail = spec_split_responses_from(
                                        s@,
                                        _gt2 + 1,
                                    )->Ok_0;
                                    assert(frags =~= seq![s@.subrange(gt + 1, lt2 as int)]
                                        + tail);
                                    assert forall|k: int|
                                        0 <= k < rest@.len() implies rest@[k]@ == frags[k] by {
                                        if k > 0 {
                                            assert(rest@[k]@ == tail[k - 1]);
                                        }
                                    }
                                }
                                Ok(rest)
                            },
                        }
                    },
                }
            } else {
                proof {
                    assert(!tag_is_start_named(s@.subrange(lt + 1, gt as int), "response"@));
                }
                split_responses_from(s, gt + 1)
            }
        },
    }
}

/// Cuts a multistatus document into one opaque fragment per `response`
/// element, in document order.
pub fn extract_response_xml(string: &str) -> (r: Result<Vec<String>, ParseError>)
    ensures
        match r {
            Ok(v) => spec_split_responses(string@) matches Ok(frags) && v@.len() == frags.len()
                && (forall|k: int| 0 <= k < v@.len() ==> v@[k]@ == frags[k]),
            Err(e) => spec_split_responses(string@) matches Err(p) && (e matches
                ParseError::MalformedDocument { position } && position as int == p),
        },
{
    match split_responses_from(string, 0) {
        Ok(v) => Ok(v),
        Err(p) => Err(ParseError::MalformedDocument { position: p }),
    }
}

// ---------------------------------------------------------------------
// Field extraction from one response fragment
// ---------------------------------------------------------------------

/// The inner text of the first element with the given local name at or
/// after `i`: `Ok(None)` when no such element with an end tag exists,
/// `Err` on an unreadable tag.  An opening tag whose end tag is missing
/// is skipped.
pub open spec fn spec_extract_first(s: Seq<char>, i: int, name: Seq<char>) -> Result<
    Option<Seq<char>>,
    int,
>
    decreases s.len() - i,
    when 0 <= i <= s.len()
    via spec_extract_first_decreases
{
    match spec_next_tag(s, i) {
        Err(p) => Err(p),
        Ok(None) => Ok(None),
        Ok(Some((lt, gt))) => {
            if tag_is_start_named(s.subrange(lt + 1, gt), name) {
                match spec_find_end_tag(s, gt + 1, name) {
                    Err(p) => Err(p),
                    Ok(None) => spec_extract_first(s, gt + 1, name),
                    Ok(Some((lt2, gt2))) => Ok(Some(s.subrange(gt + 1, lt2))),
                }
            } else {
                spec_extract_first(s, gt + 1, name)
            }
        },
    }
}

#[via_fn]
proof fn spec_extract_first_decreases(s: Seq<char>, i: int, name: Seq<char>) {
    lemma_next_tag_bounds(s, i);
}

fn extract_first(s: &str, i: usize, name: &str) -> (r: Result<Option<String>, usize>)
    requires
        i <= s@.len(),
    ensures
        match r {
            Ok(None) => spec_extract_first(s@, i as int, name@) == Ok::<Option<Seq<char>>, int>(
                None::<Seq<char>>,
            ),
            Ok(Some(t)) => spec_extract_first(s@, i as int, name@) == Ok::<
                Option<Seq<char>>,
                int,
            >(Some(t@)),
            Err(p) => spec_extract_first(s@, i as int, name@) == Err::<Option<Seq<char>>, int>(
                p as int,
            ),
        },
    decreases s@.len() - i,
{
    let n = s.unicode_len();
    match next_tag(s, i) {
        Err(p) => Err(p),
        Ok(None) => Ok(None),
        Ok(Some((lt, gt))) => {
            let t = s.substring_char(lt + 1, gt);
            if tag_is_start(t) && str_eq(tag_local_name(t), name) {
                proof {
                    assert(tag_is_start_named(s@.subrange(lt + 1, gt as int), name@));
                }
                match find_end_tag(s, gt + 1, name) {
                    Err(p) => Err(p),
                    Ok(None) => extract_first(s, gt + 1, name),
                    Ok(Some((lt2, _gt2))) => Ok(Some(s.substring_char(gt + 1, lt2).to_owned())),
                }
            } else {
                proof {
                    assert(!tag_is_start_named(s@.subrange(lt + 1, gt as int), name@));
                }
                extract_first(s, gt + 1, name)
            }
        },
    }
}

/// What `extract_href_xml` returns: the first `href` element's text,
/// trimmed; a fragment without one is missing its `href`.
pub open spec fn spec_extract_href(s: Seq<char>) -> Result<Seq<char>, Option<int>> {
    match spec_extract_first(s, 0, "href"@) {
        Err(p) => Err(Some(p)),
        Ok(None) => Err(None),
        Ok(Some(t)) => Ok(spec_trim(t)),
    }
}

/// Extracts the `href` of one response fragment.  Every response must
/// name a resource, so an absent `href` element is a `MissingField`
/// failure.
pub fn extract_href_xml(string: &str) -> (r: Result<String, ParseError>)
    ensures
        match r {
            Ok(t) => spec_extract_href(string@) == Ok::<Seq<char>, Option<int>>(t@),
            Err(e) => match e {
                ParseError::MalformedDocument { position } => spec_extract_href(string@)
                    == Err::<Seq<char>, Option<int>>(Some(position as int)),
                ParseError::MissingField { field } => field@ == "href"@ && spec_extract_href(
                    string@,
                ) == Err::<Seq<char>, Option<int>>(None::<int>),
            },
        },
{
    match extract_first(string, 0, "href") {
        Err(p) => Err(ParseError::MalformedDocument { position: p }),
        Ok(None) => Err(ParseError::MissingField { field: String::from_str("href") }),
        Ok(Some(t)) => Ok(trim(t.as_str()).to_owned()),
    }
}

/// What `extract_propstat_xml` returns: the first `propstat` element's
/// inner text, child markup included; an absent element reads as empty.
pub open spec fn spec_extract_propstat(s: Seq<char>) -> Result<Seq<char>, int> {
    match spec_extract_first(s, 0, "propstat"@) {
        Err(p) => Err(p),
        Ok(None) => Ok(Seq::empty()),
        Ok(Some(t)) => Ok(t),
    }
}

/// Extracts the `propstat` block of one response fragment.  A fragment
/// without one yields empty text, which decodes to an all-default
/// property record.
pub fn extract_propstat_xml(string: &str) -> (r: Result<String, ParseError>)
    ensures
        match r {
            Ok(t) => spec_extract_propstat(string@) == Ok::<Seq<char>, int>(t@),
            Err(e) => spec_extract_propstat(string@) matches Err(p) && (e matches
                ParseError::MalformedDocument { position } && position as int == p),
        },
{
    match extract_first(string, 0, "propstat") {
        Err(p) => Err(ParseError::MalformedDocument { position: p }),
        Ok(None) => Ok(String::new()),
        Ok(Some(t)) => Ok(t),
    }
}

// ---------------------------------------------------------------------
// The property decoder
// ---------------------------------------------------------------------

/// The property tag names (by local name) the decoder recognizes; every
/// other tag is skipped without effect.
pub open spec fn spec_known_prop_name(name: Seq<char>) -> bool {
    ||| name == "resourcetype"@
    ||| name == "displayname"@
    ||| name == "webdav-timezone"@
    ||| name == "getlastmodified"@
    ||| name == "getcontentlength"@
    ||| name == "getetag"@
    ||| name == "getcontenttype"@
}

/// Writes one recognized property into the record.  The content length
/// is read tolerantly: text that is not a non-negative integer gives
/// zero.
pub open spec fn spec_set_prop_field(acc: PropView, name: Seq<char>, raw: Seq<char>) -> PropView {
    if name == "resourcetype"@ {
        PropView { resourcetype: raw, ..acc }
    } else if name == "displayname"@ {
        PropView { displayname: raw, ..acc }
    } else if name == "webdav-timezone"@ {
        PropView { calendar_timezone: raw, ..acc }
    } else if name == "getlastmodified"@ {
        PropView { last_modified: raw, ..acc }
    } else if name == "getcontentlength"@ {
        PropView { content_length: spec_parse_u32_or_zero(raw), ..acc }
    } else if name == "getetag"@ {
        PropView { e_tag: raw, ..acc }
    } else if name == "getcontenttype"@ {
        PropView { content_type: raw, ..acc }
    } else {
        acc
    }
}

/// The property scan from `i` on: each recognized opening tag that has
/// an end tag writes its inner text into the record; everything else is
/// skipped.  Only an unreadable tag fails the scan.
pub open spec fn spec_parse_prop_from(s: Seq<char>, i: int, acc: PropView) -> Result<PropView, int>
    decreases s.len() - i,
    when 0 <= i <= s.len()
    via spec_parse_prop_from_decreases
{
    match spec_next_tag(s, i) {
        Err(p) => Err(p),
        Ok(None) => Ok(acc),
        Ok(Some((lt, gt))) => {
            let t = s.subrange(lt + 1, gt);
            let name = spec_local_name(t);
            if !tag_is_end(t) && !tag_is_special(t) && !tag_is_self_closing(t)
                && spec_known_prop_name(name) {
                match spec_find_end_tag(s, gt + 1, name) {
                    Err(p) => Err(p),
                    Ok(None) => spec_parse_prop_from(s, gt + 1, acc),
                    Ok(Some((lt2, gt2))) => spec_parse_prop_from(
                        s,
                        gt2 + 1,
                        spec_set_prop_field(acc, name, s.subrange(gt + 1, lt2)),
                    ),
                }
            } else {
                spec_parse_prop_from(s, gt + 1, acc)
            }
        },
    }
}

#[via_fn]
proof fn spec_parse_prop_from_decreases(s: Seq<char>, i: int, acc: PropView) {
    lemma_next_tag_bounds(s, i);
    match spec_next_tag(s, i) {
        Ok(Some((lt, gt))) => {
            lemma_find_end_tag_bounds(s, gt + 1, spec_local_name(s.subrange(lt + 1, gt)));
        },
        _ => {},
    }
}

/// What `parse_prop` returns on success: the scan started from an
/// all-default record.
pub open spec fn spec_parse_prop(s: Seq<char>) -> Result<PropView, int> {
    spec_parse_prop_from(s, 0, PropView::spec_empty())
}

fn known_prop_name(name: &str) -> (r: bool)
    ensures
        r == spec_known_prop_name(name@),
{
    str_eq(name, "resourcetype") || str_eq(name, "displayname") || str_eq(name, "webdav-timezone")
        || str_eq(name, "getlastmodified") || str_eq(name, "getcontentlength") || str_eq(
        name,
        "getetag",
    ) || str_eq(name, "getcontenttype")
}

fn set_prop_field(acc: Prop, name: &str, raw: &str) -> (r: Prop)
    ensures
        r@ == spec_set_prop_field(acc@, name@, raw@),
{
    let mut a = acc;
    if str_eq(name, "resourcetype") {
        a.resourcetype = raw.to_owned();
    } else if str_eq(name, "displayname") {
        a.displayname = raw.to_owned();
    } else if str_eq(name, "webdav-timezone") {
        a.calendar_timezone = raw.to_owned();
    } else if str_eq(name, "getlastmodified") {
        a.last_modified = raw.to_owned();
    } else if str_eq(name, "getcontentlength") {
        a.content_length = parse_u32_or_zero(raw);
    } else if str_eq(name, "getetag") {
        a.e_tag = raw.to_owned();
    } else if str_eq(name, "getcontenttype") {
        a.content_type = raw.to_owned();
    }
    a
}

fn parse_prop_from(s: &str, i: usize, acc: Prop) -> (r: Result<Prop, usize>)
    requires
        i <= s@.len(),
    ensures
        match r {
            Ok(p) => spec_parse_prop_from(s@, i as int, acc@) == Ok::<PropView, int>(p@),
            Err(p) => spec_parse_prop_from(s@, i as int, acc@) == Err::<PropView, int>(p as int),
        },
    decreases s@.len() - i,
{
    let n = s.unicode_len();
    match next_tag(s, i) {
        Err(p) => Err(p),
        Ok(None) => Ok(acc),
        Ok(Some((lt, gt))) => {
            let t = s.substring_char(lt + 1, gt);
            let name = tag_local_name(t);
            if tag_is_start(t) && known_prop_name(name) {
                match find_end_tag(s, gt + 1, name) {
                    Err(p) => Err(p),
                    Ok(None) => parse_prop_from(s, gt + 1, acc),
                    Ok(Some((lt2, gt2))) => {
                        let raw = s.substring_char(gt + 1, lt2);
                        let acc2 = set_prop_field(acc, name, raw);
                        parse_prop_from(s, gt2 + 1, acc2)
                    },
                }
            } else {
                parse_prop_from(s, gt + 1, acc)
            }
        },
    }
}

/// Decodes a `propstat` fragment into a property record.  Recognized
/// tags may sit at any nesting depth and in any order; unknown tags are
/// skipped; each scalar field decodes best-effort on its own.
pub fn parse_prop(string: &str) -> (r: Result<Prop, ParseError>)
    ensures
        match r {
            Ok(p) => spec_parse_prop(string@) == Ok::<PropView, int>(p@),
            Err(e) => spec_parse_prop(string@) matches Err(p) && (e matches
                ParseError::MalformedDocument { position } && position as int == p),
        },
{
    match parse_prop_from(string, 0, Prop::empty()) {
        Ok(p) => Ok(p),
        Err(p) => Err(ParseError::MalformedDocument { position: p }),
    }
}

// ---------------------------------------------------------------------
// Dates
// ---------------------------------------------------------------------

pub open spec fn two_digits(s: Seq<char>, i: int) -> int {
    digit_val(s[i]) * 10 + digit_val(s[i + 1]) as int
}

pub open spec fn four_digits(s: Seq<char>, i: int) -> int {
    two_digits(s, i) * 100 + two_digits(s, i + 2)
}

/// The bare-date reading of `YYYYMMDD`: eight digits naming a date that
/// exists on the calendar.  Anything else reads as the epoch date.
pub open spec fn spec_parse_ymd(s: Seq<char>) -> Date {
    if s.len() == 8 && all_digits(s) && valid_ymd(
        four_digits(s, 0),
        two_digits(s, 4),
        two_digits(s, 6),
    ) {
        Date {
            year: four_digits(s, 0) as u32,
            month: two_digits(s, 4) as u32,
            day: two_digits(s, 6) as u32,
        }
    } else {
        Date::spec_epoch()
    }
}

/// Well-formedness of the stamp form `YYYYMMDDThhmmss[.fff]Z`: the date
/// exists, the time of day is in range, and the optional fraction is a
/// dot followed by one to nine digits.
pub open spec fn spec_ymd_hms_wf(s: Seq<char>) -> bool {
    &&& s.len() >= 16
    &&& all_digits(s.subrange(0, 8))
    &&& s[8] == 'T'
    &&& all_digits(s.subrange(9, 15))
    &&& valid_ymd(four_digits(s, 0), two_digits(s, 4), two_digits(s, 6))
    &&& valid_hms(two_digits(s, 9), two_digits(s, 11), two_digits(s, 13))
    &&& s[s.len() - 1] == 'Z'
    &&& (s.len() == 16 || (18 <= s.len() <= 26 && s[15] == '.' && all_digits(
        s.subrange(16, s.len() - 1),
    )))
}

/// The timestamp reading: a well-formed stamp gives its date and time
/// (the fraction is dropped); anything else reads as the epoch.
pub open spec fn spec_parse_ymd_hms(s: Seq<char>) -> DateTime {
    if spec_ymd_hms_wf(s) {
        DateTime {
            year: four_digits(s, 0) as u32,
            month: two_digits(s, 4) as u32,
            day: two_digits(s, 6) as u32,
            hour: two_digits(s, 9) as u32,
            minute: two_digits(s, 11) as u32,
            second: two_digits(s, 13) as u32,
        }
    } else {
        DateTime::spec_epoch()
    }
}

fn digits_in_range(s: &str, from: usize, to: usize) -> (r: bool)
    requires
        from <= to <= s@.len(),
    ensures
        r == all_digits(s@.subrange(from as int, to as int)),
{
    let ghost sub = s@.subrange(from as int, to as int);
    let mut i: usize = from;
    while i < to
        invariant
            from <= i <= to <= s@.len(),
            sub == s@.subrange(from as int, to as int),
            forall|j: int| 0 <= j < i - from ==> is_digit_char(sub[j]),
        decreases to - i,
    {
        let c = s.get_char(i);
        let cv = c as u32;
        if cv < 48 || cv > 57 {
            proof {
                assert(sub[i - from] == s@[i as int]);
                assert(!is_digit_char(sub[i - from]));
            }
            return false;
        }
        proof {
            assert(sub[i - from] == s@[i as int]);
        }
        i += 1;
    }
    true
}

fn read_two(s: &str, i: usize) -> (r: u32)
    requires
        i + 2 <= s@.len(),
        s@.len() <= usize::MAX,
        is_digit_char(s@[i as int]),
        is_digit_char(s@[i + 1]),
    ensures
        r == two_digits(s@, i as int),
        r <= 99,
{
    let a = (s.get_char(i) as u32) - 48;
    let b = (s.get_char(i + 1) as u32) - 48;
    a * 10 + b
}

fn read_four(s: &str, i: usize) -> (r: u32)
    requires
        i + 4 <= s@.len(),
        s@.len() <= usize::MAX,
        is_digit_char(s@[i as int]),
        is_digit_char(s@[i + 1]),
        is_digit_char(s@[i + 2]),
        is_digit_char(s@[i + 3]),
    ensures
        r == four_digits(s@, i as int),
        r <= 9999,
{
    let hi = read_two(s, i);
    let lo = read_two(s, i + 2);
    hi * 100 + lo
}

/// Reads a bare `YYYYMMDD` date, falling back to the epoch date on any
/// text that is not one.
pub fn parse_ymd(date: &str) -> (r: Date)
    ensures
        r == spec_parse_ymd(date@),
        r.is_valid(),
{
    let n = date.unicode_len();
    if n != 8 {
        return Date::epoch();
    }
    if !digits_in_range(date, 0, 8) {
        proof {
            assert(date@.subrange(0, 8) =~= date@);
        }
        return Date::epoch();
    }
    proof {
        assert(date@.subrange(0, 8) =~= date@);
        assert(forall|j: int| 0 <= j < 8 ==> is_digit_char(date@[j]));
    }
    let y = read_four(date, 0);
    let m = read_two(date, 4);
    let d = read_two(date, 6);
    if 1 <= m && m <= 12 && 1 <= d && d <= days_in_month(y, m) {
        Date { year: y, month: m, day: d }
    } else {
        Date::epoch()
    }
}

/// Reads a `YYYYMMDDThhmmss[.fff]Z` timestamp, falling back to the epoch
/// on any text that is not one.
pub fn parse_ymd_hms(string: &str) -> (r: DateTime)
    ensures
        r == spec_parse_ymd_hms(string@),
        r.is_valid(),
{
    let n = string.unicode_len();
    if n < 16 {
        return DateTime::epoch();
    }
    if !digits_in_range(string, 0, 8) {
        return DateTime::epoch();
    }
    if string.get_char(8) != 'T' {
        return DateTime::epoch();
    }
    if !digits_in_range(string, 9, 15) {
        return DateTime::epoch();
    }
    if string.get_char(n - 1) != 'Z' {
        return DateTime::epoch();
    }
    let frac_ok: bool = if n == 16 {
        true
    } else if n >= 18 && n <= 26 {
        string.get_char(15) == '.' && digits_in_range(string, 16, n - 1)
    } else {
        false
    };
    if !frac_ok {
        return DateTime::epoch();
    }
    proof {
        assert forall|j: int| 0 <= j < 8 implies is_digit_char(string@[j]) by {
            assert(string@.subrange(0, 8)[j] == string@[j]);
            assert(is_digit_char(string@.subrange(0, 8)[j]));
        }
        assert forall|j: int| 9 <= j < 15 implies is_digit_char(string@[j]) by {
            assert(string@.subrange(9, 15)[j - 9] == string@[j]);
            assert(is_digit_char(string@.subrange(9, 15)[j - 9]));
        }
    }
    let y = read_four(string, 0);
    let mo = read_two(string, 4);
    let d = read_two(string, 6);
    let h = read_two(string, 9);
    let mi = read_two(string, 11);
    let se = read_two(string, 13);
    if 1 <= mo && mo <= 12 && 1 <= d && d <= days_in_month(y, mo) && h <= 23 && mi <= 59 && se
        <= 59 {
        DateTime { year: y, month: mo, day: d, hour: h, minute: mi, second: se }
    } else {
        DateTime::epoch()
    }
}

/// The date-resolution rule for a property line: a line carrying any
/// parameter (such as `VALUE=DATE`) holds a bare date, read at midnight;
/// a bare line holds a full timestamp.
pub open spec fn spec_parse_date(l: crate::ical::ContentLineView) -> DateTime {
    if l.params.len() > 0 {
        DateTime::spec_from_date(spec_parse_ymd(l.value))
    } else {
        spec_parse_ymd_hms(l.value)
    }
}

/// Resolves the date value of one content line, tolerantly: either form
/// that fails to read gives the epoch rather than an error.
pub fn parse_date(property: &ContentLine) -> (r: DateTime)
    ensures
        r == spec_parse_date(property@),
        r.is_valid(),
{
    if property.params.len() > 0 {
        DateTime::from_date(parse_ymd(property.value.as_str()))
    } else {
        parse_ymd_hms(property.value.as_str())
    }
}


// ---------------------------------------------------------------------
// Whole-document response parsing
// ---------------------------------------------------------------------

/// The record one response fragment decodes to.  `Err(None)` means the
/// fragment has no `href` element; `Err(Some(p))` means an unreadable
/// tag at position `p` (within the fragment or its `propstat` text).
pub open spec fn spec_response_of(frag: Seq<char>) -> Result<ResponseView, Option<int>> {
    match spec_extract_href(frag) {
        Err(e) => Err(e),
        Ok(href) => match spec_extract_propstat(frag) {
            Err(p) => Err(Some(p)),
            Ok(ps) => match spec_parse_prop(ps) {
                Err(p) => Err(Some(p)),
                Ok(prop) => Ok(
                    ResponseView { href, ical_file: crate::response::spec_basename(href), prop },
                ),
            },
        },
    }
}

/// Decodes one response fragment.  A fragment without an `href` element
/// cannot name its resource and fails with `MissingField`.
pub fn parse_response_fragment(frag: &str) -> (r: Result<Response, ParseError>)
    ensures
        match r {
            Ok(resp) => spec_response_of(frag@) == Ok::<ResponseView, Option<int>>(resp@),
            Err(e) => match e {
                ParseError::MalformedDocument { position } => spec_response_of(frag@) == Err::<
                    ResponseView,
                    Option<int>,
                >(Some(position as int)),
                ParseError::MissingField { field } => field@ == "href"@ && spec_response_of(frag@)
                    == Err::<ResponseView, Option<int>>(None::<int>),
            },
        },
{
    match extract_href_xml(frag) {
        Err(e) => Err(e),
        Ok(href) => match extract_propstat_xml(frag) {
            Err(e) => Err(e),
            Ok(ps) => match parse_prop(ps.as_str()) {
                Err(e) => Err(e),
                Ok(prop) => Ok(Response::new(href.as_str(), prop)),
            },
        },
    }
}

/// The records of a fragment sequence, in order.  A fragment whose
/// `href` is missing is skipped; an unreadable one fails the whole
/// parse.
pub open spec fn spec_collect_responses(frags: Seq<Seq<char>>) -> Result<Seq<ResponseView>, int>
    decreases frags.len(),
{
    if frags.len() == 0 {
        Ok(Seq::empty())
    } else {
        match spec_collect_responses(frags.drop_last()) {
            Err(p) => Err(p),
            Ok(prev) => match spec_response_of(frags.last()) {
                Err(Some(p)) => Err(p),
                Err(None) => Ok(prev),
                Ok(rv) => Ok(prev.push(rv)),
            },
        }
    }
}

/// An error in a fragment prefix decides the whole sequence.
proof fn lemma_collect_error_persists(frags: Seq<Seq<char>>, m: int, p: int)
    requires
        0 <= m <= frags.len(),
        spec_collect_responses(frags.subrange(0, m)) == Err::<Seq<ResponseView>, int>(p),
    ensures
        spec_collect_responses(frags) == Err::<Seq<ResponseView>, int>(p),
    decreases frags.len() - m,
{
    if m < frags.len() {
        assert(frags.subrange(0, m + 1).drop_last() =~= frags.subrange(0, m));
        lemma_collect_error_persists(frags, m + 1, p);
    } else {
        assert(frags.subrange(0, frags.len() as int) =~= frags);
    }
}

/// What `parse_responses` returns: the document cut into fragments, each
/// decoded, resources without an `href` skipped.
pub open spec fn spec_parse_responses(xml: Seq<char>) -> Result<Seq<ResponseView>, int> {
    match spec_split_responses(xml) {
        Err(p) => Err(p),
        Ok(frags) => spec_collect_responses(frags),
    }
}

/// Parses a whole multistatus document into resource records, in
/// document order.  Only an unreadable tag stream fails; a resource
/// fragment without an `href` is skipped and its siblings still decode.
pub fn parse_responses(xml: &str) -> (r: Result<Vec<Response>, ParseError>)
    ensures
        match r {
            Ok(v) => spec_parse_responses(xml@) == Ok::<Seq<ResponseView>, int>(resp_views(v@)),
            Err(e) => spec_parse_responses(xml@) matches Err(p) && (e matches
                ParseError::MalformedDocument { position } && position as int == p),
        },
{
    let frags = match extract_response_xml(xml) {
        Err(e) => {
            return Err(e);
        },
        Ok(frags) => frags,
    };
    let ghost frag_views = spec_split_responses(xml@)->Ok_0;
    let n = frags.len();
    let mut out: Vec<Response> = Vec::new();
    proof {
        assert(frag_views.subrange(0, 0) =~= Seq::<Seq<char>>::empty());
        assert(resp_views(out@) =~= Seq::<ResponseView>::empty());
    }
    let mut i: usize = 0;
    while i < n
        invariant
            n == frags@.len(),
            frag_views.len() == n,
            forall|k: int| 0 <= k < n ==> #[trigger] frags@[k]@ == frag_views[k],
            i <= n,
            spec_collect_responses(frag_views.subrange(0, i as int)) == Ok::<
                Seq<ResponseView>,
                int,
            >(resp_views(out@)),
            spec_split_responses(xml@) == Ok::<Seq<Seq<char>>, int>(frag_views),
        decreases n - i,
    {
        proof {
            assert(frag_views.subrange(0, i + 1).drop_last() =~= frag_views.subrange(0, i as int));
            assert(frag_views.subrange(0, i + 1).last() == frag_views[i as int]);
        }
        match parse_response_fragment(frags[i].as_str()) {
            Ok(resp) => {
                let ghost pre = out@;
                out.push(resp);
                proof {
                    assert(resp_views(out@) =~= resp_views(pre).push(out@.last()@));
                }
            },
            Err(ParseError::MissingField { field: _ }) => {},
            Err(ParseError::MalformedDocument { position }) => {
                proof {
                    lemma_collect_error_persists(frag_views, i + 1, position as int);
                }
                return Err(ParseError::MalformedDocument { position });
            },
        }
        i += 1;
    }
    proof {
        assert(frag_views.subrange(0, n as int) =~= frag_views);
    }
    Ok(out)
}

} // verus!