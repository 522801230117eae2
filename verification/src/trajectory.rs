//! The grammar of trajectory files, as a machine that reads line by line.
//!
//! A trajectory file is a run of items. A line that holds the marker
//! `ITEM:` begins an item: what follows the marker, up to the first
//! lower-case letter, names the item, and the tokens after that are its
//! column names. The item `TIMESTEP` takes the next line as the key of a new
//! frame. An item with column names takes each following line as a row of
//! numbers. An item without column names takes the next line as one number.

use vstd::prelude::*;
use crate::assoc::{key_index, put};
use crate::error::ErrorKind;
use crate::text::{
    chars_of, contains, decimal_text, find_first, has_text, is_float, is_float_literal, lines,
    number_text, seqs, slice_vec, split_lines, split_tokens, string_of, strs, text_index, tokens,
    trim, trimmed,
};
use crate::value::{doc_new, doc_position, doc_put, fields, Node, Datum};

verus! {

/// Whether `c` has the Unicode property `Lowercase`.
pub uninterp spec fn lowercase(c: char) -> bool;

/// `char::is_lowercase` of the standard library: tells whether a character
/// has the Unicode property `Lowercase`.
#[verifier::external_body]
fn is_lower(c: char) -> (r: bool)
    ensures
        r == lowercase(c),
{
    c.is_lowercase()
}

/// What the machine waits for.
#[derive(Clone, Copy, Debug, PartialEq, Eq, Structural)]
pub enum Mode {
    /// A line that begins an item.
    SeekItem,
    /// The line that holds the key of a frame.
    ReadTimestepKey,
    /// A row of the item, or the line that begins the next item.
    ReadColumnRows,
    /// The line that holds the single number of the item.
    ReadSingleValue,
}

/// The machine that reads a trajectory file.
#[derive(Debug)]
pub struct Parser {
    /// What the machine waits for.
    pub mode: Mode,
    /// The frames read so far: for each key a document of items.
    pub frames: Vec<(String, Datum)>,
    /// The key of the frame that receives the items, once there is one.
    pub timestep: Option<String>,
    /// The name of the item that is being read.
    pub item: String,
    /// The column names of the item that is being read.
    pub columns: Vec<String>,
    /// The number of rows that the item has so far.
    pub rows: usize,
}

/// The mathematical content of a [`Parser`].
pub struct ParserState {
    pub mode: Mode,
    pub frames: Seq<(Seq<char>, Node)>,
    pub timestep: Option<Seq<char>>,
    pub item: Seq<char>,
    pub columns: Seq<Seq<char>>,
    pub rows: nat,
}

impl View for Parser {
    type V = ParserState;

    open spec fn view(&self) -> ParserState {
        ParserState {
            mode: self.mode,
            frames: fields(self.frames@),
            timestep: match self.timestep {
                Some(t) => Some(t@),
                None => None,
            },
            item: self.item@,
            columns: strs(self.columns@),
            rows: self.rows as nat,
        }
    }
}

/// The marker that begins an item.
pub open spec fn marker() -> Seq<char> {
    "ITEM:"@
}

/// The name of the item that begins a frame.
pub open spec fn timestep_word() -> Seq<char> {
    "TIMESTEP"@
}

/// The first position at or after `from` that holds a lower-case letter,
/// or the length of `s`.
pub open spec fn lower_index(s: Seq<char>, from: int) -> int
    decreases s.len() - from,
{
    if from < 0 || from >= s.len() {
        s.len() as int
    } else if lowercase(s[from]) {
        from
    } else {
        lower_index(s, from + 1)
    }
}

/// The frames with `value` under `key` in the frame `ts`, or `None` where
/// there is no such frame.
pub open spec fn put_item(
    frames: Seq<(Seq<char>, Node)>,
    ts: Seq<char>,
    key: Seq<char>,
    value: Node,
) -> Option<Seq<(Seq<char>, Node)>> {
    let i = key_index(frames, ts, 0);
    if i < frames.len() && frames[i].1 is Doc {
        Some(frames.update(i, (frames[i].0, Node::Doc(put(frames[i].1->Doc_0, key, value)))))
    } else {
        None
    }
}

/// The frames with `row` under `key` in the item `item` of the frame `ts`,
/// or `None` where there is no such item.
pub open spec fn put_row(
    frames: Seq<(Seq<char>, Node)>,
    ts: Seq<char>,
    item: Seq<char>,
    key: Seq<char>,
    row: Node,
) -> Option<Seq<(Seq<char>, Node)>> {
    let i = key_index(frames, ts, 0);
    if i < frames.len() && frames[i].1 is Doc {
        match put_item(frames[i].1->Doc_0, item, key, row) {
            Some(items) => Some(frames.update(i, (frames[i].0, Node::Doc(items)))),
            None => None,
        }
    } else {
        None
    }
}

/// The row document with the tokens from position `i` on, each a number
/// under the column name at the same position; `None` where a token is no
/// number or has no column name.
pub open spec fn row_from(
    row: Seq<(Seq<char>, Node)>,
    columns: Seq<Seq<char>>,
    toks: Seq<Seq<char>>,
    i: int,
) -> Option<Seq<(Seq<char>, Node)>>
    decreases toks.len() - i,
{
    if i < 0 || i >= toks.len() {
        Some(row)
    } else if i < columns.len() && is_float_literal(toks[i]) {
        row_from(put(row, columns[i], Node::Float(toks[i])), columns, toks, i + 1)
    } else {
        None
    }
}

/// The state after a line that begins an item, the marker standing at
/// position `at` of the line.
pub open spec fn begin_item(s: ParserState, line: Seq<char>, at: int) -> Option<ParserState> {
    let rest = line.subrange(at + 5, line.len() as int);
    let end = lower_index(rest, 0);
    let item = trim(rest.subrange(0, end));
    let columns = tokens(rest.subrange(end, rest.len() as int));
    if contains(item, timestep_word()) {
        Some(ParserState { mode: Mode::ReadTimestepKey, ..s })
    } else if s.timestep is None {
        None
    } else if columns.len() > 0 {
        match put_item(s.frames, s.timestep->0, item, Node::Doc(Seq::empty())) {
            Some(frames) => Some(
                ParserState { mode: Mode::ReadColumnRows, frames, item, columns, rows: 0, ..s },
            ),
            None => None,
        }
    } else {
        Some(ParserState { mode: Mode::ReadSingleValue, item, columns, ..s })
    }
}

/// The state after a line that is a row of the item being read.
pub open spec fn read_row(s: ParserState, line: Seq<char>) -> Option<ParserState> {
    if s.timestep is None {
        None
    } else {
        match row_from(Seq::empty(), s.columns, tokens(line), 0) {
            Some(row) => match put_row(
                s.frames,
                s.timestep->0,
                s.item,
                decimal_text(s.rows),
                Node::Doc(row),
            ) {
                Some(frames) => Some(ParserState { frames, rows: s.rows + 1, ..s }),
                None => None,
            },
            None => None,
        }
    }
}

/// The state after one line, or `None` where the line does not fit the
/// grammar.
pub open spec fn step(s: ParserState, line: Seq<char>) -> Option<ParserState> {
    let at = text_index(line, marker(), 0);
    match s.mode {
        Mode::SeekItem => if at < line.len() {
            begin_item(s, line, at)
        } else {
            Some(s)
        },
        Mode::ReadTimestepKey => Some(
            ParserState {
                mode: Mode::SeekItem,
                frames: put(s.frames, line, Node::Doc(Seq::empty())),
                timestep: Some(line),
                ..s
            },
        ),
        Mode::ReadColumnRows => if at < line.len() {
            begin_item(s, line, at)
        } else {
            read_row(s, line)
        },
        Mode::ReadSingleValue => if s.timestep is Some && is_float_literal(line) {
            match put_item(s.frames, s.timestep->0, s.item, Node::Float(line)) {
                Some(frames) => Some(ParserState { mode: Mode::SeekItem, frames, ..s }),
                None => None,
            }
        } else {
            None
        },
    }
}

/// The state in which the machine starts.
pub open spec fn initial() -> ParserState {
    ParserState {
        mode: Mode::SeekItem,
        frames: Seq::empty(),
        timestep: None,
        item: Seq::empty(),
        columns: Seq::empty(),
        rows: 0,
    }
}

/// The state after the lines from position `i` on.
pub open spec fn run(s: ParserState, text: Seq<Seq<char>>, i: int) -> Option<ParserState>
    decreases text.len() - i,
{
    if i < 0 || i >= text.len() {
        Some(s)
    } else {
        match step(s, text[i]) {
            Some(next) => run(next, text, i + 1),
            None => None,
        }
    }
}

/// The frames of a state in which the file may end: not where a key or a
/// single number is still awaited.
pub open spec fn finish(s: ParserState) -> Option<Seq<(Seq<char>, Node)>> {
    match s.mode {
        Mode::SeekItem => Some(s.frames),
        Mode::ReadColumnRows => Some(s.frames),
        Mode::ReadTimestepKey => None,
        Mode::ReadSingleValue => None,
    }
}

/// The frames that a trajectory file holds, or `None` where the file does
/// not fit the grammar.
pub open spec fn trajectory(text: Seq<char>) -> Option<Seq<(Seq<char>, Node)>> {
    match run(initial(), lines(text), 0) {
        Some(s) => finish(s),
        None => None,
    }
}

/// Puts `value` under `key` in the frame `ts`.
fn set_item(frames: &mut Vec<(String, Datum)>, ts: &String, key: String, value: Datum) -> (ok:
    bool)
    ensures
        match put_item(fields(old(frames)@), ts@, key@, value@) {
            Some(next) => ok && fields(final(frames)@) == next,
            None => !ok,
        },
{
    let i = doc_position(frames, ts);
    if i >= frames.len() {
        return false;
    }
    let ghost before = fields(frames@);
    match &mut frames[i].1 {
        Datum::Doc(items) => {
            doc_put(items, key, value);
        },
        _ => {
            return false;
        },
    }
    assert(fields(frames@) =~= before.update(
        i as int,
        (before[i as int].0, Node::Doc(put(before[i as int].1->Doc_0, key@, value@))),
    ));
    true
}

/// Puts `row` under `key` in the item `item` of the frame `ts`.
fn set_row(
    frames: &mut Vec<(String, Datum)>,
    ts: &String,
    item: &String,
    key: String,
    row: Datum,
) -> (ok: bool)
    ensures
        match put_row(fields(old(frames)@), ts@, item@, key@, row@) {
            Some(next) => ok && fields(final(frames)@) == next,
            None => !ok,
        },
{
    let i = doc_position(frames, ts);
    if i >= frames.len() {
        return false;
    }
    let ghost before = fields(frames@);
    let ok = match &mut frames[i].1 {
        Datum::Doc(items) => set_item(items, item, key, row),
        _ => {
            return false;
        },
    };
    if ok {
        assert(fields(frames@) =~= before.update(
            i as int,
            (
                before[i as int].0,
                Node::Doc(put_item(before[i as int].1->Doc_0, item@, key@, row@)->0),
            ),
        ));
    }
    ok
}

/// The row document of a line of numbers.
fn build_row(columns: &Vec<String>, toks: &Vec<Vec<char>>) -> (r: Option<Vec<(String, Datum)>>)
    ensures
        match r {
            Some(row) => row_from(Seq::empty(), strs(columns@), seqs(toks@), 0) == Some(
                fields(row@),
            ),
            None => row_from(Seq::empty(), strs(columns@), seqs(toks@), 0) is None,
        },
{
    let mut row = doc_new();
    let mut i: usize = 0;
    while i < toks.len()
        invariant
            i <= toks.len(),
            row_from(Seq::empty(), strs(columns@), seqs(toks@), 0) == row_from(
                fields(row@),
                strs(columns@),
                seqs(toks@),
                i as int,
            ),
        decreases toks.len() - i,
    {
        if !(i < columns.len() && is_float(toks[i].as_slice())) {
            return None;
        }
        doc_put(&mut row, columns[i].clone(), Datum::Float(string_of(toks[i].as_slice())));
        i += 1;
    }
    Some(row)
}

/// The tokens of a line as strings.
fn token_strings(s: &[char]) -> (r: Vec<String>)
    ensures
        strs(r@) == tokens(s@),
{
    let toks = split_tokens(s);
    let mut r: Vec<String> = Vec::new();
    let mut i: usize = 0;
    assert(strs(r@) =~= seqs(toks@).take(0));
    while i < toks.len()
        invariant
            i <= toks.len(),
            strs(r@) == seqs(toks@).take(i as int),
        decreases toks.len() - i,
    {
        let ghost before = strs(r@);
        r.push(string_of(toks[i].as_slice()));
        assert(strs(r@) =~= before.push(toks@[i as int]@));
        i += 1;
        assert(strs(r@) =~= seqs(toks@).take(i as int));
    }
    assert(seqs(toks@).take(toks.len() as int) =~= seqs(toks@));
    r
}

impl Parser {
    /// The machine in its first state.
    pub fn new() -> (p: Parser)
        ensures
            p@ == initial(),
    {
        let p = Parser {
            mode: Mode::SeekItem,
            frames: doc_new(),
            timestep: None,
            item: String::new(),
            columns: Vec::new(),
            rows: 0,
        };
        assert(strs(p.columns@) =~= Seq::<Seq<char>>::empty());
        p
    }

    /// Reads a line that begins an item.
    fn begin(&mut self, line: &[char], at: usize) -> (r: Result<(), ErrorKind>)
        requires
            at + 5 <= line.len(),
        ensures
            match r {
                Ok(()) => begin_item(old(self)@, line@, at as int) == Some(final(self)@),
                Err(e) => e == ErrorKind::ExtractionError && begin_item(
                    old(self)@,
                    line@,
                    at as int,
                ) is None,
            },
    {
        let rest = slice_vec(line, at + 5, line.len());
        let mut end: usize = 0;
        while end < rest.len() && !is_lower(rest[end])
            invariant
                end <= rest.len(),
                lower_index(rest@, 0) == lower_index(rest@, end as int),
            decreases rest.len() - end,
        {
            end += 1;
        }
        let item = trimmed(rest.as_slice(), 0, end);
        let tail = slice_vec(rest.as_slice(), end, rest.len());
        let columns = token_strings(tail.as_slice());
        let word = chars_of("TIMESTEP");
        if has_text(item.as_slice(), word.as_slice()) {
            self.mode = Mode::ReadTimestepKey;
            return Ok(());
        }
        let item = string_of(item.as_slice());
        match &self.timestep {
            None => Err(ErrorKind::ExtractionError),
            Some(ts) => {
                if columns.len() > 0 {
                    if !set_item(&mut self.frames, ts, item.clone(), Datum::Doc(doc_new())) {
                        return Err(ErrorKind::ExtractionError);
                    }
                    self.mode = Mode::ReadColumnRows;
                    self.item = item;
                    self.columns = columns;
                    self.rows = 0;
                } else {
                    self.mode = Mode::ReadSingleValue;
                    self.item = item;
                    self.columns = columns;
                }
                Ok(())
            },
        }
    }

    /// Reads one line.
    pub fn step(&mut self, line: &[char]) -> (r: Result<(), ErrorKind>)
        requires
            old(self).rows < usize::MAX,
        ensures
            match r {
                Ok(()) => step(old(self)@, line@) == Some(final(self)@),
                Err(e) => e == ErrorKind::ExtractionError && step(old(self)@, line@) is None,
            },
            r is Ok ==> final(self).rows <= old(self).rows + 1,
    {
        let mark = chars_of("ITEM:");
        proof {
            reveal_strlit("ITEM:");
        }
        let at = find_first(line, mark.as_slice());
        match self.mode {
            Mode::SeekItem => {
                if at < line.len() {
                    proof {
                        crate::text::lemma_text_index(line@, mark@, 0);
                    }
                    self.begin(line, at)
                } else {
                    Ok(())
                }
            },
            Mode::ReadTimestepKey => {
                let key = string_of(line);
                doc_put(&mut self.frames, key.clone(), Datum::Doc(doc_new()));
                self.timestep = Some(key);
                self.mode = Mode::SeekItem;
                Ok(())
            },
            Mode::ReadColumnRows => {
                if at < line.len() {
                    proof {
                        crate::text::lemma_text_index(line@, mark@, 0);
                    }
                    self.begin(line, at)
                } else {
                    match &self.timestep {
                        None => Err(ErrorKind::ExtractionError),
                        Some(ts) => {
                            let toks = split_tokens(line);
                            match build_row(&self.columns, &toks) {
                                None => Err(ErrorKind::ExtractionError),
                                Some(row) => {
                                    let key = number_text(self.rows);
                                    if !set_row(
                                        &mut self.frames,
                                        ts,
                                        &self.item,
                                        string_of(key.as_slice()),
                                        Datum::Doc(row),
                                    ) {
                                        return Err(ErrorKind::ExtractionError);
                                    }
                                    self.rows = self.rows + 1;
                                    Ok(())
                                },
                            }
                        },
                    }
                }
            },
            Mode::ReadSingleValue => {
                match &self.timestep {
                    None => Err(ErrorKind::ExtractionError),
                    Some(ts) => {
                        if !is_float(line) {
                            return Err(ErrorKind::ExtractionError);
                        }
                        if !set_item(
                            &mut self.frames,
                            ts,
                            self.item.clone(),
                            Datum::Float(string_of(line)),
                        ) {
                            return Err(ErrorKind::ExtractionError);
                        }
                        self.mode = Mode::SeekItem;
                        Ok(())
                    },
                }
            },
        }
    }

    /// The frames that were read, where the file may end in this state.
    pub fn finish(self) -> (r: Result<Vec<(String, Datum)>, ErrorKind>)
        ensures
            match r {
                Ok(frames) => finish(self@) == Some(fields(frames@)),
                Err(e) => e == ErrorKind::ExtractionError && finish(self@) is None,
            },
    {
        match self.mode {
            Mode::SeekItem => Ok(self.frames),
            Mode::ReadColumnRows => Ok(self.frames),
            Mode::ReadTimestepKey => Err(ErrorKind::ExtractionError),
            Mode::ReadSingleValue => Err(ErrorKind::ExtractionError),
        }
    }
}

/// Reads a trajectory file into its frames.
pub fn parse_trajectory(text: &[char]) -> (r: Result<Vec<(String, Datum)>, ErrorKind>)
    ensures
        match r {
            Ok(frames) => trajectory(text@) == Some(fields(frames@)),
            Err(e) => e == ErrorKind::ExtractionError && trajectory(text@) is None,
        },
{
    let all = split_lines(text);
    let mut parser = Parser::new();
    let mut i: usize = 0;
    while i < all.len()
        invariant
            i <= all.len(),
            parser.rows <= i,
            seqs(all@) == lines(text@),
            run(initial(), seqs(all@), 0) == run(parser@, seqs(all@), i as int),
        decreases all.len() - i,
    {
        assert(seqs(all@)[i as int] == all@[i as int]@);
        match parser.step(all[i].as_slice()) {
            Ok(()) => {},
            Err(e) => {
                return Err(e);
            },
        }
        i += 1;
    }
    parser.finish()
}

} // verus!
