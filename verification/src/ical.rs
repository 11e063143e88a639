//! The iCalendar text grammar: unfolding of continuation lines, the
//! `NAME;PARAM=VALUE:VALUE` content-line form, and the `BEGIN`/`END`
//! component walk that cuts a document into calendar-level properties and
//! event/to-do components.

use vstd::prelude::*;

use crate::text::{
    find_from, is_space_char, spec_find, spec_split, split_str, str_eq,
};

verus! {

/// One `key=value` parameter of a content line.
#[derive(Debug, Clone, PartialEq, Eq)]
pub struct Param {
    pub key: String,
    pub value: String,
}

pub struct ParamView {
    pub key: Seq<char>,
    pub value: Seq<char>,
}

impl View for Param {
    type V = ParamView;

    open spec fn view(&self) -> ParamView {
        ParamView { key: self.key@, value: self.value@ }
    }
}

/// One logical iCalendar line, split into its name, its parameters and
/// its value.
#[derive(Debug, Clone, PartialEq, Eq)]
pub struct ContentLine {
    pub name: String,
    pub params: Vec<Param>,
    pub value: String,
}

pub struct ContentLineView {
    pub name: Seq<char>,
    pub params: Seq<ParamView>,
    pub value: Seq<char>,
}

pub open spec fn param_views(v: Seq<Param>) -> Seq<ParamView> {
    v.map_values(|p: Param| p@)
}

impl View for ContentLine {
    type V = ContentLineView;

    open spec fn view(&self) -> ContentLineView {
        ContentLineView {
            name: self.name@,
            params: param_views(self.params@),
            value: self.value@,
        }
    }
}

pub open spec fn str_views(v: Seq<String>) -> Seq<Seq<char>> {
    v.map_values(|s: String| s@)
}

pub open spec fn clv_views(v: Seq<ContentLine>) -> Seq<ContentLineView> {
    v.map_values(|l: ContentLine| l@)
}

/// A physical line with a trailing carriage return removed, so that CRLF
/// and bare LF endings read the same.
pub open spec fn strip_cr(l: Seq<char>) -> Seq<char> {
    if l.len() > 0 && l.last() == '\r' {
        l.drop_last()
    } else {
        l
    }
}

/// The physical lines of a document: pieces between line feeds, each with
/// a trailing carriage return removed.
pub open spec fn spec_physical_lines(s: Seq<char>) -> Seq<Seq<char>> {
    spec_split(s, '\n').map_values(|l: Seq<char>| strip_cr(l))
}

/// Unfolding: a physical line that begins with a space or tab continues
/// the previous logical line; the one leading whitespace character is
/// removed and the remainder appended with no separator.  A continuation
/// with no previous line starts a logical line of its own.
pub open spec fn spec_unfold(lines: Seq<Seq<char>>) -> Seq<Seq<char>>
    decreases lines.len(),
{
    if lines.len() == 0 {
        Seq::empty()
    } else {
        let prev = spec_unfold(lines.drop_last());
        let l = lines.last();
        if l.len() > 0 && is_space_char(l[0]) {
            if prev.len() > 0 {
                prev.drop_last().push(prev.last() + l.drop_first())
            } else {
                seq![l.drop_first()]
            }
        } else {
            prev.push(l)
        }
    }
}

/// The logical lines of a document: physical lines, unfolded.
pub open spec fn spec_logical_lines(s: Seq<char>) -> Seq<Seq<char>> {
    spec_unfold(spec_physical_lines(s))
}

fn strip_cr_exec(l: &str) -> (r: String)
    ensures
        r@ == strip_cr(l@),
{
    let n = l.unicode_len();
    if n > 0 && l.get_char(n - 1) == '\r' {
        l.substring_char(0, n - 1).to_owned()
    } else {
        l.to_owned()
    }
}

/// Cuts a document into logical lines: physical lines joined back
/// together where a following line begins with a space or tab.
pub fn unfold_lines(text: &str) -> (r: Vec<String>)
    ensures
        str_views(r@) == spec_logical_lines(text@),
{
    let phys = split_str(text, '\n');
    let n = phys.len();
    let ghost phys_stripped = spec_physical_lines(text@);
    proof {
        assert(phys_stripped.len() == phys@.len());
    }
    let mut acc: Vec<String> = Vec::new();
    let mut i: usize = 0;
    while i < n
        invariant
            n == phys@.len(),
            phys_stripped.len() == n,
            forall|k: int|
                0 <= k < n ==> phys_stripped[k] == strip_cr(#[trigger] phys@[k]@),
            i <= n,
            str_views(acc@) == spec_unfold(phys_stripped.subrange(0, i as int)),
        decreases n - i,
    {
        let line = strip_cr_exec(phys[i].as_str());
        let ln = line.unicode_len();
        let is_cont = ln > 0 && {
            let c = line.as_str().get_char(0);
            c == ' ' || c == '\t'
        };
        proof {
            assert(phys_stripped.subrange(0, i + 1).drop_last() =~= phys_stripped.subrange(
                0,
                i as int,
            ));
            assert(phys_stripped.subrange(0, i + 1).last() == phys_stripped[i as int]);
        }
        if is_cont {
            let tail = line.as_str().substring_char(1, ln).to_owned();
            proof {
                assert(tail@ =~= line@.drop_first());
            }
            if acc.len() > 0 {
                let mut lastp = acc.pop().unwrap();
                lastp.append(tail.as_str());
                acc.push(lastp);
                proof {
                    let u = spec_unfold(phys_stripped.subrange(0, i + 1));
                    assert(str_views(acc@) =~= u);
                }
            } else {
                acc.push(tail);
                proof {
                    let u = spec_unfold(phys_stripped.subrange(0, i + 1));
                    assert(str_views(acc@) =~= u);
                }
            }
        } else {
            acc.push(line);
            proof {
                let u = spec_unfold(phys_stripped.subrange(0, i + 1));
                assert(str_views(acc@) =~= u);
            }
        }
        i += 1;
    }
    proof {
        assert(phys_stripped.subrange(0, n as int) =~= phys_stripped);
    }
    acc
}

/// Index of the first `:` at or after `from` that is not directly
/// preceded by a backslash.
pub open spec fn spec_find_colon(s: Seq<char>, from: int) -> Option<int>
    decreases s.len() - from,
    when 0 <= from <= s.len()
{
    if from >= s.len() {
        None
    } else if s[from] == ':' && (from == 0 || s[from - 1] != '\\') {
        Some(from)
    } else {
        spec_find_colon(s, from + 1)
    }
}

fn find_colon(s: &str, from: usize) -> (r: Option<usize>)
    requires
        from <= s@.len(),
    ensures
        match r {
            Some(i) => from <= i < s@.len() && spec_find_colon(s@, from as int) == Some(i as int),
            None => spec_find_colon(s@, from as int) is None,
        },
    decreases s@.len() - from,
{
    let n = s.unicode_len();
    if from >= n {
        None
    } else if s.get_char(from) == ':' && (from == 0 || s.get_char(from - 1) != '\\') {
        Some(from)
    } else {
        find_colon(s, from + 1)
    }
}

/// Each parameter token of a `;`-separated parameter list, decomposed.
pub open spec fn param_views_of(pieces: Seq<Seq<char>>) -> Seq<ParamView> {
    pieces.map_values(|p: Seq<char>| spec_param_of(p))
}

/// A parameter token read as `key=value`; with no `=` the whole token is
/// the key and the value is empty.
pub open spec fn spec_param_of(p: Seq<char>) -> ParamView {
    match spec_find(p, '=', 0) {
        None => ParamView { key: p, value: Seq::empty() },
        Some(i) => ParamView { key: p.subrange(0, i), value: p.subrange(i + 1, p.len() as int) },
    }
}

fn param_of(p: &str) -> (r: Param)
    ensures
        r@ == spec_param_of(p@),
{
    let n = p.unicode_len();
    match find_from(p, '=', 0) {
        None => Param { key: p.to_owned(), value: String::new() },
        Some(i) => Param {
            key: p.substring_char(0, i).to_owned(),
            value: p.substring_char(i + 1, n).to_owned(),
        },
    }
}

/// Decomposition of one logical line.  The line is cut at the first
/// unescaped `:`; what precedes it is the name and the `;`-separated
/// parameters, what follows it is the value.  A line with no such `:`
/// does not decode.
pub open spec fn spec_split_line(l: Seq<char>) -> Option<ContentLineView> {
    match spec_find_colon(l, 0) {
        None => None,
        Some(ci) => {
            let head = l.subrange(0, ci);
            let value = l.subrange(ci + 1, l.len() as int);
            let pieces = spec_split(head, ';');
            Some(
                ContentLineView {
                    name: pieces[0],
                    params: param_views_of(pieces.drop_first()),
                    value,
                },
            )
        },
    }
}

pub fn split_line(l: &str) -> (r: Option<ContentLine>)
    ensures
        match r {
            None => spec_split_line(l@) is None,
            Some(cl) => spec_split_line(l@) == Some(cl@),
        },
{
    let n = l.unicode_len();
    match find_colon(l, 0) {
        None => None,
        Some(ci) => {
            let head = l.substring_char(0, ci);
            let value = l.substring_char(ci + 1, n).to_owned();
            let pieces = split_str(head, ';');
            let ghost spec_pieces = spec_split(head@, ';');
            proof {
                assert(spec_pieces.len() >= 1);
            }
            let name = pieces[0].clone();
            let mut params: Vec<Param> = Vec::new();
            let np = pieces.len();
            let mut i: usize = 1;
            while i < np
                invariant
                    np == pieces@.len(),
                    spec_pieces.len() == np,
                    forall|k: int| 0 <= k < np ==> #[trigger] pieces@[k]@ == spec_pieces[k],
                    1 <= i <= np,
                    params@.len() + 1 == i,
                    param_views(params@) =~= param_views_of(
                        spec_pieces.subrange(1, i as int),
                    ),
                decreases np - i,
            {
                let pv = param_of(pieces[i].as_str());
                let ghost old_params = params@;
                params.push(pv);
                proof {
                    let prevs = spec_pieces.subrange(1, i as int);
                    let nows = spec_pieces.subrange(1, i + 1);
                    assert(nows[i - 1] == spec_pieces[i as int]);
                    assert(pieces@[i as int]@ == spec_pieces[i as int]);
                    assert forall|k: int|
                        0 <= k < i implies #[trigger] param_views(params@)[k] == param_views_of(
                        nows,
                    )[k] by {
                        assert(param_views(params@)[k] == params@[k]@);
                        assert(param_views_of(nows)[k] == spec_param_of(nows[k]));
                        if k < i - 1 {
                            assert(params@[k] == old_params[k]);
                            assert(param_views(old_params)[k] == old_params[k]@);
                            assert(param_views_of(prevs)[k] == spec_param_of(prevs[k]));
                            assert(prevs[k] == nows[k]);
                        } else {
                            assert(params@[k] == pv);
                            assert(nows[k] == spec_pieces[i as int]);
                        }
                    }
                    assert(param_views(params@) =~= param_views_of(nows));
                }
                i += 1;
            }
            let cl = ContentLine { name, params, value };
            proof {
                assert(spec_pieces.subrange(1, np as int) =~= spec_pieces.drop_first());
                assert(spec_split_line(l@) matches Some(v) && v.name == cl@.name && v.params
                    =~= cl@.params && v.value == cl@.value);
            }
            Some(cl)
        },
    }
}

/// The decoded content lines of a document: every logical line that has a
/// `:`, in order; lines without one are skipped.
pub open spec fn spec_decode_lines(lines: Seq<Seq<char>>) -> Seq<ContentLineView>
    decreases lines.len(),
{
    if lines.len() == 0 {
        Seq::empty()
    } else {
        let prev = spec_decode_lines(lines.drop_last());
        match spec_split_line(lines.last()) {
            None => prev,
            Some(cl) => prev.push(cl),
        }
    }
}

/// The lexer: logical lines of the text, each decomposed, undecodable
/// lines skipped.
pub open spec fn spec_lex(s: Seq<char>) -> Seq<ContentLineView> {
    spec_decode_lines(spec_logical_lines(s))
}

pub fn lex(text: &str) -> (r: Vec<ContentLine>)
    ensures
        clv_views(r@) == spec_lex(text@),
{
    let lines = unfold_lines(text);
    let n = lines.len();
    let ghost logical = spec_logical_lines(text@);
    proof {
        assert(logical.len() == n);
    }
    let mut acc: Vec<ContentLine> = Vec::new();
    let mut i: usize = 0;
    while i < n
        invariant
            n == lines@.len(),
            logical.len() == n,
            forall|k: int| 0 <= k < n ==> #[trigger] lines@[k]@ == logical[k],
            i <= n,
            clv_views(acc@) == spec_decode_lines(logical.subrange(0, i as int)),
        decreases n - i,
    {
        proof {
            assert(logical.subrange(0, i + 1).drop_last() =~= logical.subrange(0, i as int));
            assert(logical.subrange(0, i + 1).last() == logical[i as int]);
        }
        match split_line(lines[i].as_str()) {
            None => {},
            Some(cl) => {
                acc.push(cl);
            },
        }
        proof {
            assert(clv_views(acc@) =~= spec_decode_lines(logical.subrange(0, i + 1)));
        }
        i += 1;
    }
    proof {
        assert(logical.subrange(0, n as int) =~= logical);
    }
    acc
}

/// The kind of a calendar component that the decoder assembles.
#[derive(Clone, Copy, Debug, PartialEq, Eq, Structural)]
pub enum CompKind {
    Event,
    Todo,
}

/// One complete `BEGIN`/`END`-delimited component: its kind and the
/// content lines between the two markers.
#[derive(Debug, Clone, PartialEq, Eq)]
pub struct Component {
    pub kind: CompKind,
    pub lines: Vec<ContentLine>,
}

pub struct ComponentView {
    pub kind: CompKind,
    pub lines: Seq<ContentLineView>,
}

impl View for Component {
    type V = ComponentView;

    open spec fn view(&self) -> ComponentView {
        ComponentView { kind: self.kind, lines: clv_views(self.lines@) }
    }
}

pub open spec fn comp_views(v: Seq<Component>) -> Seq<ComponentView> {
    v.map_values(|c: Component| c@)
}

/// A decoded iCalendar document: the content lines seen outside any
/// component (the calendar-level properties) and the complete components
/// in document order.  A component still open at end of input is
/// dropped.
#[derive(Debug, Clone, PartialEq, Eq)]
pub struct IcalDocument {
    pub properties: Vec<ContentLine>,
    pub components: Vec<Component>,
}

pub struct IcalDocumentView {
    pub properties: Seq<ContentLineView>,
    pub components: Seq<ComponentView>,
}

impl View for IcalDocument {
    type V = IcalDocumentView;

    open spec fn view(&self) -> IcalDocumentView {
        IcalDocumentView {
            properties: clv_views(self.properties@),
            components: comp_views(self.components@),
        }
    }
}

/// The decoder state: properties and components gathered so far, and the
/// component currently open, if any.
pub struct MachineView {
    pub props: Seq<ContentLineView>,
    pub comps: Seq<ComponentView>,
    pub cur: Option<ComponentView>,
}

pub open spec fn spec_begin_kind(value: Seq<char>) -> Option<CompKind> {
    if value == "VEVENT"@ {
        Some(CompKind::Event)
    } else if value == "VTODO"@ {
        Some(CompKind::Todo)
    } else {
        None
    }
}

pub open spec fn spec_end_matches(k: CompKind, value: Seq<char>) -> bool {
    (k == CompKind::Event && value == "VEVENT"@) || (k == CompKind::Todo && value == "VTODO"@)
}

/// One transition of the component walk.  Outside a component, `BEGIN`
/// of a recognized kind opens one, document-level lines are collected,
/// and anything else is ignored.  Inside a component, the matching `END`
/// closes and emits it; every other line is accumulated.
pub open spec fn spec_step(m: MachineView, l: ContentLineView) -> MachineView {
    if l.name == "BEGIN"@ {
        match m.cur {
            None => match spec_begin_kind(l.value) {
                Some(k) => MachineView {
                    cur: Some(ComponentView { kind: k, lines: Seq::empty() }),
                    ..m
                },
                None => m,
            },
            Some(c) => MachineView {
                cur: Some(ComponentView { kind: c.kind, lines: c.lines.push(l) }),
                ..m
            },
        }
    } else if l.name == "END"@ {
        match m.cur {
            Some(c) => if spec_end_matches(c.kind, l.value) {
                MachineView { comps: m.comps.push(c), cur: None, ..m }
            } else {
                MachineView {
                    cur: Some(ComponentView { kind: c.kind, lines: c.lines.push(l) }),
                    ..m
                }
            },
            None => m,
        }
    } else {
        match m.cur {
            Some(c) => MachineView {
                cur: Some(ComponentView { kind: c.kind, lines: c.lines.push(l) }),
                ..m
            },
            None => MachineView { props: m.props.push(l), ..m },
        }
    }
}

pub open spec fn spec_initial_machine() -> MachineView {
    MachineView { props: Seq::empty(), comps: Seq::empty(), cur: None }
}

pub open spec fn spec_run(lines: Seq<ContentLineView>) -> MachineView
    decreases lines.len(),
{
    if lines.len() == 0 {
        spec_initial_machine()
    } else {
        spec_step(spec_run(lines.drop_last()), lines.last())
    }
}

/// The document a text decodes to: run the walk over the lexed lines and
/// keep what was gathered, dropping any still-open component.
pub open spec fn spec_document(s: Seq<char>) -> IcalDocumentView {
    let m = spec_run(spec_lex(s));
    IcalDocumentView { properties: m.props, components: m.comps }
}

pub open spec fn machine_of(
    props: Seq<ContentLine>,
    comps: Seq<Component>,
    cur: Option<CompKind>,
    cur_lines: Seq<ContentLine>,
) -> MachineView {
    MachineView {
        props: clv_views(props),
        comps: comp_views(comps),
        cur: match cur {
            None => None,
            Some(k) => Some(ComponentView { kind: k, lines: clv_views(cur_lines) }),
        },
    }
}

fn machine_step(
    props: &mut Vec<ContentLine>,
    comps: &mut Vec<Component>,
    cur: &mut Option<CompKind>,
    cur_lines: &mut Vec<ContentLine>,
    l: ContentLine,
)
    ensures
        machine_of(final(props)@, final(comps)@, *final(cur), final(cur_lines)@) == spec_step(
            machine_of(old(props)@, old(comps)@, *old(cur), old(cur_lines)@),
            l@,
        ),
{
    let ghost pre = machine_of(old(props)@, old(comps)@, *old(cur), old(cur_lines)@);
    let ghost lv = l@;
    if str_eq(l.name.as_str(), "BEGIN") {
        match *cur {
            None => {
                if str_eq(l.value.as_str(), "VEVENT") {
                    *cur = Some(CompKind::Event);
                    cur_lines.clear();
                } else if str_eq(l.value.as_str(), "VTODO") {
                    *cur = Some(CompKind::Todo);
                    cur_lines.clear();
                }
                proof {
                    assert(clv_views(Seq::<ContentLine>::empty()) =~= Seq::<
                        ContentLineView,
                    >::empty());
                }
            },
            Some(_) => {
                cur_lines.push(l);
                proof {
                    assert(clv_views(cur_lines@) =~= clv_views(old(cur_lines)@).push(lv));
                }
            },
        }
    } else if str_eq(l.name.as_str(), "END") {
        match *cur {
            Some(k) => {
                let closes = match k {
                    CompKind::Event => str_eq(l.value.as_str(), "VEVENT"),
                    CompKind::Todo => str_eq(l.value.as_str(), "VTODO"),
                };
                if closes {
                    let mut taken: Vec<ContentLine> = Vec::new();
                    core::mem::swap(cur_lines, &mut taken);
                    comps.push(Component { kind: k, lines: taken });
                    *cur = None;
                    proof {
                        assert(comp_views(comps@) =~= comp_views(old(comps)@).push(
                            pre.cur.unwrap(),
                        ));
                    }
                } else {
                    cur_lines.push(l);
                    proof {
                        assert(clv_views(cur_lines@) =~= clv_views(old(cur_lines)@).push(lv));
                    }
                }
            },
            None => {},
        }
    } else {
        match *cur {
            Some(_) => {
                cur_lines.push(l);
                proof {
                    assert(clv_views(cur_lines@) =~= clv_views(old(cur_lines)@).push(lv));
                }
            },
            None => {
                props.push(l);
                proof {
                    assert(clv_views(props@) =~= clv_views(old(props)@).push(lv));
                }
            },
        }
    }
}

impl IcalDocument {
    /// Decodes iCalendar text: unfold, lex, and walk the component
    /// structure.
    pub fn parse(text: &str) -> (r: IcalDocument)
        ensures
            r@ == spec_document(text@),
    {
        let mut lines = lex(text);
        let ghost all = clv_views(lines@);
        let mut props: Vec<ContentLine> = Vec::new();
        let mut comps: Vec<Component> = Vec::new();
        let mut cur: Option<CompKind> = None;
        let mut cur_lines: Vec<ContentLine> = Vec::new();
        proof {
            assert(machine_of(props@, comps@, cur, cur_lines@).props =~= spec_run(
                all.subrange(0, 0),
            ).props);
            assert(machine_of(props@, comps@, cur, cur_lines@).comps =~= spec_run(
                all.subrange(0, 0),
            ).comps);
        }
        while lines.len() > 0
            invariant
                lines@.len() <= all.len(),
                clv_views(lines@) =~= all.subrange(
                    all.len() - lines@.len(),
                    all.len() as int,
                ),
                machine_of(props@, comps@, cur, cur_lines@) == spec_run(
                    all.subrange(0, all.len() - lines@.len()),
                ),
            decreases lines@.len(),
        {
            let ghost done = all.len() - lines@.len();
            let ghost pre_lines = lines@;
            let l = lines.remove(0);
            proof {
                assert(clv_views(pre_lines)[0] == l@);
                assert(l@ == all[done]);
                assert forall|k: int| 0 <= k < lines@.len() implies #[trigger] clv_views(
                    lines@,
                )[k] == all.subrange(done + 1, all.len() as int)[k] by {
                    assert(clv_views(lines@)[k] == lines@[k]@);
                    assert(lines@[k] == pre_lines[k + 1]);
                    assert(clv_views(pre_lines)[k + 1] == pre_lines[k + 1]@);
                }
                assert(clv_views(lines@) =~= all.subrange(done + 1, all.len() as int));
            }
            machine_step(&mut props, &mut comps, &mut cur, &mut cur_lines, l);
            proof {
                assert(all.subrange(0, done + 1).drop_last() =~= all.subrange(0, done));
                assert(all.subrange(0, done + 1).last() == all[done]);
            }
        }
        proof {
            assert(all.subrange(0, all.len() as int) =~= all);
        }
        let doc = IcalDocument { properties: props, components: comps };
        proof {
            assert(doc@.properties == spec_document(text@).properties);
            assert(doc@.components == spec_document(text@).components);
        }
        doc
    }
}

/// The calendar-level header values (`VERSION`, `CALSCALE`, `PRODID`)
/// that are copied onto every component built from the same document.
pub struct Header {
    pub version: String,
    pub cal_scale: String,
    pub prod_id: String,
}

pub struct HeaderView {
    pub version: Seq<char>,
    pub cal_scale: Seq<char>,
    pub prod_id: Seq<char>,
}

impl View for Header {
    type V = HeaderView;

    open spec fn view(&self) -> HeaderView {
        HeaderView {
            version: self.version@,
            cal_scale: self.cal_scale@,
            prod_id: self.prod_id@,
        }
    }
}

pub open spec fn spec_apply_header(h: HeaderView, l: ContentLineView) -> HeaderView {
    if l.name == "VERSION"@ {
        HeaderView { version: l.value, ..h }
    } else if l.name == "CALSCALE"@ {
        HeaderView { cal_scale: l.value, ..h }
    } else if l.name == "PRODID"@ {
        HeaderView { prod_id: l.value, ..h }
    } else {
        h
    }
}

/// The header read off the document-level lines, later lines winning.
pub open spec fn spec_fold_header(props: Seq<ContentLineView>) -> HeaderView
    decreases props.len(),
{
    if props.len() == 0 {
        HeaderView { version: Seq::empty(), cal_scale: Seq::empty(), prod_id: Seq::empty() }
    } else {
        spec_apply_header(spec_fold_header(props.drop_last()), props.last())
    }
}

pub fn fold_header(props: &Vec<ContentLine>) -> (r: Header)
    ensures
        r@ == spec_fold_header(clv_views(props@)),
{
    let ghost all = clv_views(props@);
    let mut h = Header { version: String::new(), cal_scale: String::new(), prod_id: String::new() };
    proof {
        assert(h@.version =~= Seq::<char>::empty());
        assert(h@.cal_scale =~= Seq::<char>::empty());
        assert(h@.prod_id =~= Seq::<char>::empty());
    }
    let n = props.len();
    let mut i: usize = 0;
    while i < n
        invariant
            n == props@.len(),
            all == clv_views(props@),
            all.len() == n,
            i <= n,
            h@ == spec_fold_header(all.subrange(0, i as int)),
        decreases n - i,
    {
        proof {
            assert(all.subrange(0, i + 1).drop_last() =~= all.subrange(0, i as int));
            assert(all.subrange(0, i + 1).last() == all[i as int]);
            assert(all[i as int] == props@[i as int]@);
        }
        let l = &props[i];
        if str_eq(l.name.as_str(), "VERSION") {
            h.version = l.value.clone();
        } else if str_eq(l.name.as_str(), "CALSCALE") {
            h.cal_scale = l.value.clone();
        } else if str_eq(l.name.as_str(), "PRODID") {
            h.prod_id = l.value.clone();
        }
        i += 1;
    }
    proof {
        assert(all.subrange(0, n as int) =~= all);
    }
    h
}

} // verus!
