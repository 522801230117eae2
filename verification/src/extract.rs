//! Extraction of declared variables from the lines of a retained file.
//!
//! A scalar variable is recognised where its name stands as a token of a
//! line; what follows the name is read according to the declared kind. A
//! later occurrence replaces the value of an earlier one.

use vstd::prelude::*;
use crate::assoc::{key_index, put};
use crate::error::ErrorKind;
use crate::text::{
    chars_of, decimal_text, find_token, has_token, integer_of, is_float, is_float_literal,
    join_tokens, joined, number_text, parse_int, seqs, split_tokens, string_of, strs, token_index,
    tokens,
};
use crate::value::{doc_new, doc_position, doc_put, fields, lemma_nodes_push, nodes, Node, Datum};

verus! {

/// How the tokens after a variable's name are read.
#[derive(Clone, Copy, Debug, PartialEq, Eq, Structural)]
pub enum VarKind {
    /// The next token, as a signed integer. A token that is no integer is
    /// passed over.
    Int,
    /// The next token, as a floating-point number.
    Float,
    /// The next token, as it stands.
    Text,
    /// All tokens that follow, joined by single spaces.
    LongText,
    /// All tokens that follow, as a list.
    Keywords,
    /// Tables of numbers that follow a header line.
    ThermoLog,
    /// A kind that this crate does not know: the variable is not read.
    Unknown,
}

/// A variable that a schema declares for a file.
#[derive(Debug)]
pub struct Variable {
    /// The token that announces the variable.
    pub name: String,
    /// How its value is read.
    pub kind: VarKind,
}

impl View for Variable {
    type V = (Seq<char>, VarKind);

    open spec fn view(&self) -> (Seq<char>, VarKind) {
        (self.name@, self.kind)
    }
}

/// The content of a list of variables.
pub open spec fn variables(vars: Seq<Variable>) -> Seq<(Seq<char>, VarKind)> {
    Seq::new(vars.len(), |i: int| vars[i]@)
}

/// The tokens from position `from` on, each as a text value.
pub open spec fn words(toks: Seq<Seq<char>>, from: int) -> Seq<Node> {
    Seq::new((toks.len() - from) as nat, |i: int| Node::Str(toks[from + i]))
}

/// The key under which a list of keywords is stored.
pub open spec fn keywords_key() -> Seq<char> {
    "keywords"@
}

/// What one variable adds to the document `doc` on a line with the tokens
/// `toks`, or `None` where the value is missing or is no number.
pub open spec fn read_var(
    doc: Seq<(Seq<char>, Node)>,
    toks: Seq<Seq<char>>,
    var: (Seq<char>, VarKind),
) -> Option<Seq<(Seq<char>, Node)>> {
    let at = token_index(toks, var.0, 0) + 1;
    if at > toks.len() {
        Some(doc)
    } else {
        match var.1 {
            VarKind::Int => if at == toks.len() {
                None
            } else {
                match integer_of(toks[at]) {
                    Some(n) => Some(put(doc, var.0, Node::Int(n))),
                    None => Some(doc),
                }
            },
            VarKind::Float => if at < toks.len() && is_float_literal(toks[at]) {
                Some(put(doc, var.0, Node::Float(toks[at])))
            } else {
                None
            },
            VarKind::Text => if at < toks.len() {
                Some(put(doc, var.0, Node::Str(toks[at])))
            } else {
                None
            },
            VarKind::LongText => Some(put(doc, var.0, Node::Str(joined(toks, at)))),
            VarKind::Keywords => Some(put(doc, keywords_key(), Node::Array(words(toks, at)))),
            VarKind::ThermoLog => Some(doc),
            VarKind::Unknown => Some(doc),
        }
    }
}

/// What the variables from position `j` on add to `doc` on one line.
pub open spec fn read_vars(
    doc: Seq<(Seq<char>, Node)>,
    toks: Seq<Seq<char>>,
    vars: Seq<(Seq<char>, VarKind)>,
    j: int,
) -> Option<Seq<(Seq<char>, Node)>>
    decreases vars.len() - j,
{
    if j < 0 || j >= vars.len() {
        Some(doc)
    } else {
        match read_var(doc, toks, vars[j]) {
            Some(next) => read_vars(next, toks, vars, j + 1),
            None => None,
        }
    }
}

/// What the lines from position `i` on add to `doc`.
pub open spec fn read_lines(
    doc: Seq<(Seq<char>, Node)>,
    lines: Seq<Seq<char>>,
    vars: Seq<(Seq<char>, VarKind)>,
    i: int,
) -> Option<Seq<(Seq<char>, Node)>>
    decreases lines.len() - i,
{
    if i < 0 || i >= lines.len() {
        Some(doc)
    } else {
        match read_vars(doc, tokens(lines[i]), vars, 0) {
            Some(next) => read_lines(next, lines, vars, i + 1),
            None => None,
        }
    }
}

/// The document `doc` after the scalar variables `vars` were read from
/// every line.
pub open spec fn scalars(
    doc: Seq<(Seq<char>, Node)>,
    lines: Seq<Seq<char>>,
    vars: Seq<(Seq<char>, VarKind)>,
) -> Option<Seq<(Seq<char>, Node)>> {
    read_lines(doc, lines, vars, 0)
}

/// The tokens from `from` on as a list of text values.
fn keyword_list(toks: &Vec<Vec<char>>, from: usize) -> (r: Vec<Datum>)
    requires
        from <= toks.len(),
    ensures
        nodes(r@) == words(seqs(toks@), from as int),
{
    let mut r: Vec<Datum> = Vec::new();
    let mut i: usize = from;
    assert(nodes(r@) =~= words(seqs(toks@), from as int).take(0));
    while i < toks.len()
        invariant
            from <= i <= toks.len(),
            nodes(r@) == words(seqs(toks@), from as int).take(i - from),
        decreases toks.len() - i,
    {
        let word = Datum::Str(string_of(toks[i].as_slice()));
        proof {
            lemma_nodes_push(r@, word);
        }
        r.push(word);
        i += 1;
        assert(nodes(r@) =~= words(seqs(toks@), from as int).take(i - from));
    }
    assert(words(seqs(toks@), from as int).take(toks.len() - from) =~= words(
        seqs(toks@),
        from as int,
    ));
    r
}

/// Reads one variable from the tokens of one line into `out`.
pub fn scan_var(out: &mut Vec<(String, Datum)>, toks: &Vec<Vec<char>>, var: &Variable) -> (r:
    Result<(), ErrorKind>)
    ensures
        match r {
            Ok(()) => read_var(fields(old(out)@), seqs(toks@), var@) == Some(fields(final(out)@)),
            Err(e) => e == ErrorKind::ExtractionError && read_var(
                fields(old(out)@),
                seqs(toks@),
                var@,
            ) is None,
        },
{
    let name = chars_of(var.name.as_str());
    let at = find_token(toks, name.as_slice());
    if at >= toks.len() {
        return Ok(());
    }
    let at = at + 1;
    match var.kind {
        VarKind::Int => {
            if at == toks.len() {
                return Err(ErrorKind::ExtractionError);
            }
            match parse_int(toks[at].as_slice()) {
                Some(n) => {
                    doc_put(out, var.name.clone(), Datum::Int(n));
                },
                None => {},
            }
        },
        VarKind::Float => {
            if at < toks.len() && is_float(toks[at].as_slice()) {
                doc_put(out, var.name.clone(), Datum::Float(string_of(toks[at].as_slice())));
            } else {
                return Err(ErrorKind::ExtractionError);
            }
        },
        VarKind::Text => {
            if at < toks.len() {
                doc_put(out, var.name.clone(), Datum::Str(string_of(toks[at].as_slice())));
            } else {
                return Err(ErrorKind::ExtractionError);
            }
        },
        VarKind::LongText => {
            let text = join_tokens(toks, at);
            doc_put(out, var.name.clone(), Datum::Str(string_of(text.as_slice())));
        },
        VarKind::Keywords => {
            let list = keyword_list(toks, at);
            doc_put(out, "keywords".to_string(), Datum::Array(list));
        },
        VarKind::ThermoLog => {},
        VarKind::Unknown => {},
    }
    Ok(())
}

/// Reads every variable of `vars` from the tokens of one line into `out`.
pub fn scan_line(out: &mut Vec<(String, Datum)>, toks: &Vec<Vec<char>>, vars: &Vec<Variable>) -> (r:
    Result<(), ErrorKind>)
    ensures
        match r {
            Ok(()) => read_vars(fields(old(out)@), seqs(toks@), variables(vars@), 0) == Some(
                fields(final(out)@),
            ),
            Err(e) => e == ErrorKind::ExtractionError && read_vars(
                fields(old(out)@),
                seqs(toks@),
                variables(vars@),
                0,
            ) is None,
        },
{
    let ghost start = fields(out@);
    let mut j: usize = 0;
    while j < vars.len()
        invariant
            j <= vars.len(),
            start == fields(old(out)@),
            read_vars(start, seqs(toks@), variables(vars@), 0) == read_vars(
                fields(out@),
                seqs(toks@),
                variables(vars@),
                j as int,
            ),
        decreases vars.len() - j,
    {
        assert(variables(vars@)[j as int] == vars@[j as int]@);
        match scan_var(out, toks, &vars[j]) {
            Ok(()) => {},
            Err(e) => {
                return Err(e);
            },
        }
        j += 1;
    }
    Ok(())
}

/// Reads the scalar variables `vars` from every line into `out`.
pub fn scan_lines(out: &mut Vec<(String, Datum)>, lines: &Vec<Vec<char>>, vars: &Vec<Variable>) -> (r:
    Result<(), ErrorKind>)
    ensures
        match r {
            Ok(()) => scalars(fields(old(out)@), seqs(lines@), variables(vars@)) == Some(
                fields(final(out)@),
            ),
            Err(e) => e == ErrorKind::ExtractionError && scalars(
                fields(old(out)@),
                seqs(lines@),
                variables(vars@),
            ) is None,
        },
{
    let ghost start = fields(out@);
    let mut i: usize = 0;
    while i < lines.len()
        invariant
            i <= lines.len(),
            start == fields(old(out)@),
            read_lines(start, seqs(lines@), variables(vars@), 0) == read_lines(
                fields(out@),
                seqs(lines@),
                variables(vars@),
                i as int,
            ),
        decreases lines.len() - i,
    {
        assert(seqs(lines@)[i as int] == lines@[i as int]@);
        let toks = split_tokens(lines[i].as_slice());
        match scan_line(out, &toks, vars) {
            Ok(()) => {},
            Err(e) => {
                return Err(e);
            },
        }
        i += 1;
    }
    Ok(())
}

/// The state of the scan for tables of numbers.
pub struct ThermoState {
    /// The column names of the open table, as the header line gave them.
    pub keys: Seq<Seq<char>>,
    /// The open table: one list of numbers for each column name.
    pub table: Seq<(Seq<char>, Node)>,
    /// Whether a table is open.
    pub reading: bool,
    /// How many tables were closed.
    pub count: nat,
    /// The document that receives the closed tables.
    pub out: Seq<(Seq<char>, Node)>,
}

/// The key under which the table number `n` is stored.
pub open spec fn thermo_key(n: nat) -> Seq<char> {
    "thermo_data_"@ + decimal_text(n)
}

/// The table with an empty column for each token from position `i` on.
pub open spec fn open_columns(table: Seq<(Seq<char>, Node)>, toks: Seq<Seq<char>>, i: int) -> Seq<
    (Seq<char>, Node),
>
    decreases toks.len() - i,
{
    if i < 0 || i >= toks.len() {
        table
    } else {
        open_columns(put(table, toks[i], Node::Array(Seq::empty())), toks, i + 1)
    }
}

/// The table with `cell` at the end of the column `k`, or `None` where the
/// table has no such column.
pub open spec fn push_cell(table: Seq<(Seq<char>, Node)>, k: Seq<char>, cell: Node) -> Option<
    Seq<(Seq<char>, Node)>,
> {
    let i = key_index(table, k, 0);
    if i < table.len() && table[i].1 is Array {
        Some(table.update(i, (table[i].0, Node::Array(table[i].1->Array_0.push(cell)))))
    } else {
        None
    }
}

/// The table with the tokens of a row from position `i` on, each at the end
/// of the column that the header names at the same position; `None` where
/// a token is no number or has no column.
pub open spec fn push_row(
    table: Seq<(Seq<char>, Node)>,
    keys: Seq<Seq<char>>,
    toks: Seq<Seq<char>>,
    i: int,
) -> Option<Seq<(Seq<char>, Node)>>
    decreases toks.len() - i,
{
    if i < 0 || i >= toks.len() {
        Some(table)
    } else if i < keys.len() && is_float_literal(toks[i]) {
        match push_cell(table, keys[i], Node::Float(toks[i])) {
            Some(next) => push_row(next, keys, toks, i + 1),
            None => None,
        }
    } else {
        None
    }
}

/// The state after the open table was closed and stored.
pub open spec fn thermo_close(s: ThermoState) -> ThermoState {
    ThermoState {
        keys: Seq::empty(),
        table: Seq::empty(),
        reading: false,
        count: s.count + 1,
        out: put(s.out, thermo_key(s.count), Node::Doc(s.table)),
    }
}

/// The name of the column that marks a header line.
pub open spec fn step_word() -> Seq<char> {
    "Step"@
}

/// The state after one line with the tokens `toks`. An open table is closed
/// by a line that does not begin with a number. A line with the token
/// `Step` is a header: it opens a column for each of its tokens. Any other
/// line is a row of the open table, if one is open.
pub open spec fn thermo_step(s: ThermoState, toks: Seq<Seq<char>>) -> Option<ThermoState> {
    let s1 = if s.reading && !(toks.len() > 0 && is_float_literal(toks[0])) {
        thermo_close(s)
    } else {
        s
    };
    if has_token(toks, step_word()) {
        Some(
            ThermoState {
                keys: s1.keys + toks,
                table: open_columns(s1.table, toks, 0),
                reading: true,
                ..s1
            },
        )
    } else if s1.reading {
        match push_row(s1.table, s1.keys, toks, 0) {
            Some(table) => Some(ThermoState { table, ..s1 }),
            None => None,
        }
    } else {
        Some(s1)
    }
}

/// The state after the lines from position `i` on.
pub open spec fn thermo_run(s: ThermoState, lines: Seq<Seq<char>>, i: int) -> Option<ThermoState>
    decreases lines.len() - i,
{
    if i < 0 || i >= lines.len() {
        Some(s)
    } else {
        match thermo_step(s, tokens(lines[i])) {
            Some(next) => thermo_run(next, lines, i + 1),
            None => None,
        }
    }
}

/// The document `out` with the tables of numbers that the lines hold, one
/// for each block of rows under a header, under the keys `thermo_data_0`,
/// `thermo_data_1` and so on. A block ends at the first line that does not
/// begin with a number, or with the lines.
pub open spec fn thermo_tables(out: Seq<(Seq<char>, Node)>, lines: Seq<Seq<char>>) -> Option<
    Seq<(Seq<char>, Node)>,
> {
    let start = ThermoState {
        keys: Seq::empty(),
        table: Seq::empty(),
        reading: false,
        count: 0,
        out,
    };
    match thermo_run(start, lines, 0) {
        Some(s) => if s.reading {
            Some(thermo_close(s).out)
        } else {
            Some(s.out)
        },
        None => None,
    }
}

/// Appends `cell` to the column `key` of `table`.
fn add_cell(table: &mut Vec<(String, Datum)>, key: &String, cell: Datum) -> (ok: bool)
    ensures
        match push_cell(fields(old(table)@), key@, cell@) {
            Some(next) => ok && fields(final(table)@) == next,
            None => !ok,
        },
{
    let i = doc_position(table, key);
    if i >= table.len() {
        return false;
    }
    let ghost before = fields(table@);
    match &mut table[i].1 {
        Datum::Array(items) => {
            proof {
                lemma_nodes_push(items@, cell);
            }
            items.push(cell);
        },
        _ => {
            return false;
        },
    }
    assert(fields(table@) =~= before.update(
        i as int,
        (before[i as int].0, Node::Array(before[i as int].1->Array_0.push(cell@))),
    ));
    true
}

/// Appends the tokens of a row to the columns that `keys` names.
fn add_row(table: &mut Vec<(String, Datum)>, keys: &Vec<String>, toks: &Vec<Vec<char>>) -> (ok:
    bool)
    ensures
        match push_row(fields(old(table)@), strs(keys@), seqs(toks@), 0) {
            Some(next) => ok && fields(final(table)@) == next,
            None => !ok,
        },
{
    let ghost start = fields(table@);
    let mut i: usize = 0;
    while i < toks.len()
        invariant
            i <= toks.len(),
            start == fields(old(table)@),
            push_row(start, strs(keys@), seqs(toks@), 0) == push_row(
                fields(table@),
                strs(keys@),
                seqs(toks@),
                i as int,
            ),
        decreases toks.len() - i,
    {
        if !(i < keys.len() && is_float(toks[i].as_slice())) {
            return false;
        }
        let cell = Datum::Float(string_of(toks[i].as_slice()));
        if !add_cell(table, &keys[i], cell) {
            return false;
        }
        i += 1;
    }
    true
}

/// Opens an empty column in `table` for each token.
fn add_columns(table: &mut Vec<(String, Datum)>, keys: &mut Vec<String>, toks: &Vec<Vec<char>>)
    ensures
        fields(final(table)@) == open_columns(fields(old(table)@), seqs(toks@), 0),
        strs(final(keys)@) == strs(old(keys)@) + seqs(toks@),
{
    let ghost start = fields(table@);
    let mut i: usize = 0;
    assert(strs(keys@) =~= strs(old(keys)@) + seqs(toks@).take(0));
    while i < toks.len()
        invariant
            i <= toks.len(),
            open_columns(start, seqs(toks@), 0) == open_columns(
                fields(table@),
                seqs(toks@),
                i as int,
            ),
            strs(keys@) == strs(old(keys)@) + seqs(toks@).take(i as int),
        decreases toks.len() - i,
    {
        let name = string_of(toks[i].as_slice());
        let empty: Vec<Datum> = Vec::new();
        assert(nodes(empty@) =~= Seq::<Node>::empty());
        doc_put(table, name.clone(), Datum::Array(empty));
        let ghost before = strs(keys@);
        keys.push(name);
        assert(strs(keys@) =~= before.push(toks@[i as int]@));
        i += 1;
        assert(strs(keys@) =~= strs(old(keys)@) + seqs(toks@).take(i as int));
    }
    assert(seqs(toks@).take(toks.len() as int) =~= seqs(toks@));
}

/// Stores in `out` the tables of numbers that the lines hold.
pub fn scan_thermo(out: &mut Vec<(String, Datum)>, lines: &Vec<Vec<char>>) -> (r: Result<
    (),
    ErrorKind,
>)
    ensures
        match r {
            Ok(()) => thermo_tables(fields(old(out)@), seqs(lines@)) == Some(fields(final(out)@)),
            Err(e) => e == ErrorKind::ExtractionError && thermo_tables(
                fields(old(out)@),
                seqs(lines@),
            ) is None,
        },
{
    let mut keys: Vec<String> = Vec::new();
    let mut table: Vec<(String, Datum)> = doc_new();
    let mut reading = false;
    let mut count: usize = 0;
    let step = chars_of("Step");
    let ghost start = ThermoState {
        keys: Seq::empty(),
        table: Seq::empty(),
        reading: false,
        count: 0,
        out: fields(out@),
    };
    assert(strs(keys@) =~= Seq::<Seq<char>>::empty());
    let mut i: usize = 0;
    while i < lines.len()
        invariant
            i <= lines.len(),
            count <= i,
            step@ == step_word(),
            start == (ThermoState {
                keys: Seq::empty(),
                table: Seq::empty(),
                reading: false,
                count: 0,
                out: fields(old(out)@),
            }),
            thermo_run(start, seqs(lines@), 0) == thermo_run(
                ThermoState {
                    keys: strs(keys@),
                    table: fields(table@),
                    reading,
                    count: count as nat,
                    out: fields(out@),
                },
                seqs(lines@),
                i as int,
            ),
        decreases lines.len() - i,
    {
        assert(seqs(lines@)[i as int] == lines@[i as int]@);
        let toks = split_tokens(lines[i].as_slice());
        if reading && !(toks.len() > 0 && is_float(toks[0].as_slice())) {
            let mut key = chars_of("thermo_data_");
            let mut digits = number_text(count);
            key.append(&mut digits);
            let mut closed: Vec<(String, Datum)> = doc_new();
            std::mem::swap(&mut closed, &mut table);
            doc_put(out, string_of(key.as_slice()), Datum::Doc(closed));
            keys = Vec::new();
            assert(strs(keys@) =~= Seq::<Seq<char>>::empty());
            reading = false;
            count += 1;
        }
        if find_token(&toks, step.as_slice()) < toks.len() {
            add_columns(&mut table, &mut keys, &toks);
            reading = true;
        } else if reading {
            if !add_row(&mut table, &keys, &toks) {
                return Err(ErrorKind::ExtractionError);
            }
        }
        i += 1;
    }
    if reading {
        let mut key = chars_of("thermo_data_");
        let mut digits = number_text(count);
        key.append(&mut digits);
        doc_put(out, string_of(key.as_slice()), Datum::Doc(table));
    }
    Ok(())
}

} // verus!
