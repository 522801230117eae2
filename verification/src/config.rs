//! Configuration texts: one option and its value on each line.
//!
//! The option is the first token of a line and its value the last. Empty
//! lines are passed over, and so are lines that begin with `#`.

use vstd::prelude::*;
use crate::assoc::{get, sorted_put};
use crate::table::Table;
use crate::text::{
    chars_of, find_token, has_token, lines, seqs, split_lines, split_tokens, string_of, tokens,
};

verus! {

/// The options after a line with the tokens `toks`: unchanged after an
/// empty line or a comment; with the value of the option after a line that
/// names an allowed option and gives a value; `None` after any other line.
pub open spec fn option_line(
    acc: Seq<(Seq<char>, Seq<char>)>,
    toks: Seq<Seq<char>>,
    allowed: Seq<Seq<char>>,
) -> Option<Seq<(Seq<char>, Seq<char>)>> {
    if toks.len() == 0 || (toks[0].len() > 0 && toks[0][0] == '#') {
        Some(acc)
    } else if toks.len() >= 2 && has_token(allowed, toks[0]) {
        Some(sorted_put(acc, toks[0], toks.last()))
    } else {
        None
    }
}

/// The options after the lines from position `i` on.
pub open spec fn options_from(
    acc: Seq<(Seq<char>, Seq<char>)>,
    text: Seq<Seq<char>>,
    allowed: Seq<Seq<char>>,
    i: int,
) -> Option<Seq<(Seq<char>, Seq<char>)>>
    decreases text.len() - i,
{
    if i < 0 || i >= text.len() {
        Some(acc)
    } else {
        match option_line(acc, tokens(text[i]), allowed) {
            Some(next) => options_from(next, text, allowed, i + 1),
            None => None,
        }
    }
}

/// The options that a configuration text sets, or `None` where a line
/// names an option that is not allowed or gives no value.
pub open spec fn options_of(text: Seq<char>, allowed: Seq<Seq<char>>) -> Option<
    Seq<(Seq<char>, Seq<char>)>,
> {
    options_from(Seq::empty(), lines(text), allowed, 0)
}

/// Reads the options of a configuration text.
pub fn read_options(text: &str, allowed: &Vec<Vec<char>>) -> (r: Option<Table>)
    ensures
        match r {
            Some(t) => options_of(text@, seqs(allowed@)) == Some(t@),
            None => options_of(text@, seqs(allowed@)) is None,
        },
{
    let content = chars_of(text);
    let all = split_lines(content.as_slice());
    let mut table = Table::new();
    let mut i: usize = 0;
    while i < all.len()
        invariant
            i <= all.len(),
            seqs(all@) == lines(text@),
            options_from(Seq::empty(), seqs(all@), seqs(allowed@), 0) == options_from(
                table@,
                seqs(all@),
                seqs(allowed@),
                i as int,
            ),
        decreases all.len() - i,
    {
        assert(seqs(all@)[i as int] == all@[i as int]@);
        let toks = split_tokens(all[i].as_slice());
        if toks.len() > 0 {
            assert(seqs(toks@)[0] == toks@[0]@);
            let comment = toks[0].len() > 0 && toks[0][0] == '#';
            if !comment {
                if toks.len() >= 2 && find_token(allowed, toks[0].as_slice()) < allowed.len() {
                    assert(seqs(toks@).last() == toks@[toks.len() - 1]@);
                    table = table.insert(
                        string_of(toks[0].as_slice()),
                        string_of(toks[toks.len() - 1].as_slice()),
                    );
                } else {
                    return None;
                }
            }
        }
        i += 1;
    }
    Some(table)
}

/// The names of the options of the server, as texts.
pub open spec fn server_options() -> Seq<Seq<char>> {
    seq![
        "server_port"@,
        "cert_path"@,
        "key_path"@,
        "data_path"@,
        "database"@,
    ]
}

/// The names of the options of the server with a registry.
pub open spec fn global_options() -> Seq<Seq<char>> {
    seq![
        "server_port"@,
        "cert_path"@,
        "key_path"@,
        "data_path"@,
        "database"@,
        "registry"@,
        "tracked_files"@,
    ]
}

/// The names of the options of the client.
pub open spec fn client_options() -> Seq<Seq<char>> {
    seq!["Username"@, "Server"@, "tracked_files"@]
}

/// The configuration of the server.
#[derive(Debug)]
pub struct Config {
    /// The options and their values.
    pub config: Table,
}

impl Config {
    /// Reads the configuration of the server from its text.
    pub fn new(text: &str) -> (r: Option<Config>)
        ensures
            match r {
                Some(c) => options_of(text@, server_options()) == Some(c.config@),
                None => options_of(text@, server_options()) is None,
            },
    {
        let allowed = vec![
            chars_of("server_port"),
            chars_of("cert_path"),
            chars_of("key_path"),
            chars_of("data_path"),
            chars_of("database"),
        ];
        assert(seqs(allowed@) =~= server_options());
        match read_options(text, &allowed) {
            Some(config) => Some(Config { config }),
            None => None,
        }
    }

    /// The value of an option, if it is set.
    pub fn get(&self, option: &str) -> (r: Option<&String>)
        ensures
            match r {
                Some(v) => get(self.config@, option@) == Some(v@),
                None => get(self.config@, option@) is None,
            },
    {
        self.config.get(&option.to_string())
    }
}

/// The configuration of a server with a registry.
#[derive(Debug)]
pub struct Globals {
    /// The options and their values.
    pub globals: Table,
}

impl Globals {
    /// Reads the configuration from its text.
    pub fn new(text: &str) -> (r: Option<Globals>)
        ensures
            match r {
                Some(g) => options_of(text@, global_options()) == Some(g.globals@),
                None => options_of(text@, global_options()) is None,
            },
    {
        let allowed = vec![
            chars_of("server_port"),
            chars_of("cert_path"),
            chars_of("key_path"),
            chars_of("data_path"),
            chars_of("database"),
            chars_of("registry"),
            chars_of("tracked_files"),
        ];
        assert(seqs(allowed@) =~= global_options());
        match read_options(text, &allowed) {
            Some(globals) => Some(Globals { globals }),
            None => None,
        }
    }
}

} // verus!
