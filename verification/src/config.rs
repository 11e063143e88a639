//! The flat `key=value` configuration that names the server: its URL and
//! the credentials.  The transport caller reads the file; this module
//! gives the text a meaning.

use vstd::prelude::*;

use crate::ical::{spec_physical_lines};
use crate::text::{spec_split, split_str, str_eq};

verus! {

#[derive(Debug, Clone, PartialEq, Eq)]
pub struct ServerConfig {
    pub url: String,
    pub user: String,
    pub password: String,
}

pub struct ServerConfigView {
    pub url: Seq<char>,
    pub user: Seq<char>,
    pub password: Seq<char>,
}

impl View for ServerConfig {
    type V = ServerConfigView;

    open spec fn view(&self) -> ServerConfigView {
        ServerConfigView { url: self.url@, user: self.user@, password: self.password@ }
    }
}

/// One configuration line: exactly one `=` makes a key and a value;
/// recognized keys set their field, every other line is ignored.
pub open spec fn spec_apply_config_line(c: ServerConfigView, l: Seq<char>) -> ServerConfigView {
    let pieces = spec_split(l, '=');
    if pieces.len() == 2 {
        if pieces[0] == "url"@ {
            ServerConfigView { url: pieces[1], ..c }
        } else if pieces[0] == "user"@ {
            ServerConfigView { user: pieces[1], ..c }
        } else if pieces[0] == "password"@ {
            ServerConfigView { password: pieces[1], ..c }
        } else {
            c
        }
    } else {
        c
    }
}

pub open spec fn spec_fold_config(lines: Seq<Seq<char>>) -> ServerConfigView
    decreases lines.len(),
{
    if lines.len() == 0 {
        ServerConfigView { url: Seq::empty(), user: Seq::empty(), password: Seq::empty() }
    } else {
        spec_apply_config_line(spec_fold_config(lines.drop_last()), lines.last())
    }
}

/// What a configuration text means: the fields read off its lines, and
/// nothing at all when any of the three stays empty.
pub open spec fn spec_parse_config(text: Seq<char>) -> Option<ServerConfigView> {
    let c = spec_fold_config(spec_physical_lines(text));
    if c.url.len() == 0 || c.user.len() == 0 || c.password.len() == 0 {
        None
    } else {
        Some(c)
    }
}

impl ServerConfig {
    /// Reads a configuration text.  A configuration that leaves the
    /// URL, the user or the password empty is rejected.
    pub fn parse(text: &str) -> (r: Option<ServerConfig>)
        ensures
            match r {
                Some(c) => spec_parse_config(text@) == Some(c@),
                None => spec_parse_config(text@) is None,
            },
    {
        let ghost all = spec_physical_lines(text@);
        let lines = physical_lines_exec(text);
        let n = lines.len();
        let mut c = ServerConfig { url: String::new(), user: String::new(), password: String::new() };
        proof {
            assert(c@.url =~= Seq::<char>::empty());
            assert(c@.user =~= Seq::<char>::empty());
            assert(c@.password =~= Seq::<char>::empty());
        }
        let mut i: usize = 0;
        while i < n
            invariant
                n == lines@.len(),
                all.len() == n,
                forall|k: int| 0 <= k < n ==> #[trigger] lines@[k]@ == all[k],
                i <= n,
                c@ == spec_fold_config(all.subrange(0, i as int)),
            decreases n - i,
        {
            proof {
                assert(all.subrange(0, i + 1).drop_last() =~= all.subrange(0, i as int));
                assert(all.subrange(0, i + 1).last() == all[i as int]);
            }
            let pieces = split_str(lines[i].as_str(), '=');
            if pieces.len() == 2 {
                if str_eq(pieces[0].as_str(), "url") {
                    c.url = pieces[1].clone();
                } else if str_eq(pieces[0].as_str(), "user") {
                    c.user = pieces[1].clone();
                } else if str_eq(pieces[0].as_str(), "password") {
                    c.password = pieces[1].clone();
                }
            }
            i += 1;
        }
        proof {
            assert(all.subrange(0, n as int) =~= all);
        }
        if c.url.unicode_len() == 0 || c.user.unicode_len() == 0 || c.password.unicode_len() == 0 {
            None
        } else {
            Some(c)
        }
    }
}

/// The physical lines of a text: pieces between line feeds, each with a
/// trailing carriage return removed.
fn physical_lines_exec(text: &str) -> (r: Vec<String>)
    ensures
        r@.len() == spec_physical_lines(text@).len(),
        forall|k: int| 0 <= k < r@.len() ==> #[trigger] r@[k]@ == spec_physical_lines(text@)[k],
{
    let pieces = split_str(text, '\n');
    let n = pieces.len();
    let ghost stripped = spec_physical_lines(text@);
    proof {
        assert(stripped.len() == n);
    }
    let mut out: Vec<String> = Vec::new();
    let mut i: usize = 0;
    while i < n
        invariant
            n == pieces@.len(),
            stripped.len() == n,
            forall|k: int| 0 <= k < n ==> stripped[k] == crate::ical::strip_cr(#[trigger] pieces@[k]@),
            i <= n,
            out@.len() == i,
            forall|k: int| 0 <= k < i ==> #[trigger] out@[k]@ == stripped[k],
        decreases n - i,
    {
        let p = pieces[i].as_str();
        let pn = p.unicode_len();
        if pn > 0 && p.get_char(pn - 1) == '\r' {
            out.push(p.substring_char(0, pn - 1).to_owned());
        } else {
            out.push(p.to_owned());
        }
        i += 1;
    }
    out
}

} // verus!
