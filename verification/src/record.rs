//! The revision record: the id of a revision, the id of its parent and the
//! hash of each tracked file, and its form as a text of lines.
//!
//! A line holds a key and a value as its first and its last token; the
//! record is written with a colon between the two. The keys `id` and
//! `parent_id` stand first, the file names follow in sorted order.

use vstd::prelude::*;
use crate::assoc::{lemma_sorted_put_last, sorted, sorted_put};
use crate::error::ErrorKind;
use crate::table::Table;
use crate::text::{
    chars_of, is_space, is_word, lemma_find_from_is, lemma_lines_cons, lines, seqs, split_lines,
    split_tokens, string_of, tokens, tokens_from, Class,
};

verus! {

/// A revision record.
#[derive(Debug)]
pub struct RevisionRecord {
    /// The id of the revision: the collection, a colon and the combined
    /// hash.
    pub id: String,
    /// The id of the revision before this one, or `*` for the first.
    pub parent_id: String,
    /// The truncated hash of each tracked file, by its name.
    pub files: Table,
}

/// The mathematical content of a [`RevisionRecord`].
pub struct RecordModel {
    pub id: Seq<char>,
    pub parent_id: Seq<char>,
    pub files: Seq<(Seq<char>, Seq<char>)>,
}

impl View for RevisionRecord {
    type V = RecordModel;

    open spec fn view(&self) -> RecordModel {
        RecordModel { id: self.id@, parent_id: self.parent_id@, files: self.files@ }
    }
}

/// The key of the revision id.
pub open spec fn id_key() -> Seq<char> {
    seq!['i', 'd']
}

/// The key of the parent's id.
pub open spec fn parent_key() -> Seq<char> {
    seq!['p', 'a', 'r', 'e', 'n', 't', '_', 'i', 'd']
}

/// The parent id of a first revision.
pub open spec fn root_parent() -> Seq<char> {
    seq!['*']
}

/// What stands between a key and its value.
pub open spec fn separator() -> Seq<char> {
    seq![' ', ':', ' ']
}

/// The line of a key and its value, without its end.
pub open spec fn body_of(k: Seq<char>, v: Seq<char>) -> Seq<char> {
    k + separator() + v
}

/// The lines of the files from position `i` on, each closed by a line
/// feed.
pub open spec fn render_files(files: Seq<(Seq<char>, Seq<char>)>, i: int) -> Seq<char>
    decreases files.len() - i,
{
    if i < 0 || i >= files.len() {
        Seq::empty()
    } else {
        body_of(files[i].0, files[i].1).push('\n') + render_files(files, i + 1)
    }
}

/// The text of a record: the line of the id, the line of the parent id,
/// the lines of the files.
pub open spec fn render(r: RecordModel) -> Seq<char> {
    body_of(id_key(), r.id).push('\n') + (body_of(parent_key(), r.parent_id).push('\n')
        + render_files(r.files, 0))
}

/// What was read of a record so far.
pub struct Scan {
    pub id: Option<Seq<char>>,
    pub parent_id: Option<Seq<char>>,
    pub files: Seq<(Seq<char>, Seq<char>)>,
}

/// What is known after a line with the tokens `toks`: nothing new after a
/// line without tokens; the value of the key after a line with two tokens
/// or more, a later line replacing an earlier one; `None` after a line
/// with one token.
pub open spec fn scan_line(s: Scan, toks: Seq<Seq<char>>) -> Option<Scan> {
    if toks.len() == 0 {
        Some(s)
    } else if toks.len() == 1 {
        None
    } else if toks[0] == id_key() {
        Some(Scan { id: Some(toks.last()), ..s })
    } else if toks[0] == parent_key() {
        Some(Scan { parent_id: Some(toks.last()), ..s })
    } else {
        Some(Scan { files: sorted_put(s.files, toks[0], toks.last()), ..s })
    }
}

/// What is known after the lines from position `i` on.
pub open spec fn scan_from(s: Scan, text: Seq<Seq<char>>, i: int) -> Option<Scan>
    decreases text.len() - i,
{
    if i < 0 || i >= text.len() {
        Some(s)
    } else {
        match scan_line(s, tokens(text[i])) {
            Some(next) => scan_from(next, text, i + 1),
            None => None,
        }
    }
}

/// The record that a text holds, or `None` where a line has a key without
/// a value or where the id or the parent id is missing.
pub open spec fn record_of(text: Seq<char>) -> Option<RecordModel> {
    match scan_from(Scan { id: None, parent_id: None, files: Seq::empty() }, lines(text), 0) {
        Some(s) => if s.id is Some && s.parent_id is Some {
            Some(RecordModel { id: s.id->0, parent_id: s.parent_id->0, files: s.files })
        } else {
            None
        },
        None => None,
    }
}

/// Appends the characters of `part` to `out`.
fn push_text(out: &mut Vec<char>, part: &[char])
    ensures
        final(out)@ == old(out)@ + part@,
{
    let mut i: usize = 0;
    assert(out@ =~= old(out)@ + part@.take(0));
    while i < part.len()
        invariant
            i <= part.len(),
            out@ == old(out)@ + part@.take(i as int),
        decreases part.len() - i,
    {
        out.push(part[i]);
        i += 1;
        assert(out@ =~= old(out)@ + part@.take(i as int));
    }
    assert(part@.take(part.len() as int) =~= part@);
}

/// Appends the line of a key and its value to `out`.
fn push_line(out: &mut Vec<char>, k: &[char], v: &[char])
    ensures
        final(out)@ == old(out)@ + body_of(k@, v@).push('\n'),
{
    push_text(out, k);
    out.push(' ');
    out.push(':');
    out.push(' ');
    push_text(out, v);
    out.push('\n');
    assert(out@ =~= old(out)@ + body_of(k@, v@).push('\n'));
}

impl RevisionRecord {
    /// The text of the record.
    pub fn render(&self) -> (text: String)
        ensures
            text@ == render(self@),
    {
        let mut out: Vec<char> = Vec::new();
        let id_word = vec!['i', 'd'];
        let parent_word = vec!['p', 'a', 'r', 'e', 'n', 't', '_', 'i', 'd'];
        assert(id_word@ =~= id_key());
        assert(parent_word@ =~= parent_key());
        push_line(&mut out, id_word.as_slice(), chars_of(self.id.as_str()).as_slice());
        push_line(&mut out, parent_word.as_slice(), chars_of(self.parent_id.as_str()).as_slice());
        let ghost head = out@;
        let n = self.files.len();
        let mut i: usize = 0;
        assert(render_files(self.files@, n as int) =~= Seq::<char>::empty());
        while i < n
            invariant
                i <= n,
                n == self.files@.len(),
                out@ + render_files(self.files@, i as int) == head + render_files(self.files@, 0),
            decreases n - i,
        {
            let ghost before = out@;
            push_line(
                &mut out,
                chars_of(self.files.key(i).as_str()).as_slice(),
                chars_of(self.files.value(i).as_str()).as_slice(),
            );
            assert(out@ + render_files(self.files@, i + 1) =~= before + render_files(
                self.files@,
                i as int,
            ));
            i += 1;
        }
        assert(out@ =~= head + render_files(self.files@, 0));
        assert(head =~= body_of(id_key(), self.id@).push('\n') + body_of(
            parent_key(),
            self.parent_id@,
        ).push('\n'));
        assert(out@ =~= render(self@));
        string_of(out.as_slice())
    }

    /// Reads a record from its text.
    pub fn parse(text: &str) -> (r: Result<RevisionRecord, ErrorKind>)
        ensures
            match r {
                Ok(record) => record_of(text@) == Some(record@),
                Err(e) => e == ErrorKind::ExtractionError && record_of(text@) is None,
            },
    {
        let content = chars_of(text);
        let all = split_lines(content.as_slice());
        let id_word = vec!['i', 'd'];
        let parent_word = vec!['p', 'a', 'r', 'e', 'n', 't', '_', 'i', 'd'];
        assert(id_word@ =~= id_key());
        assert(parent_word@ =~= parent_key());
        let mut id: Option<String> = None;
        let mut parent_id: Option<String> = None;
        let mut files = Table::new();
        let ghost start = Scan { id: None, parent_id: None, files: Seq::empty() };
        let mut i: usize = 0;
        while i < all.len()
            invariant
                i <= all.len(),
                id_word@ == id_key(),
                parent_word@ == parent_key(),
                seqs(all@) == lines(text@),
                start == (Scan { id: None, parent_id: None, files: Seq::empty() }),
                scan_from(start, seqs(all@), 0) == scan_from(
                    Scan {
                        id: match id {
                            Some(x) => Some(x@),
                            None => None,
                        },
                        parent_id: match parent_id {
                            Some(x) => Some(x@),
                            None => None,
                        },
                        files: files@,
                    },
                    seqs(all@),
                    i as int,
                ),
            decreases all.len() - i,
        {
            assert(seqs(all@)[i as int] == all@[i as int]@);
            let toks = split_tokens(all[i].as_slice());
            if toks.len() == 1 {
                return Err(ErrorKind::ExtractionError);
            }
            if toks.len() >= 2 {
                let key = &toks[0];
                let value = string_of(toks[toks.len() - 1].as_slice());
                assert(seqs(toks@).last() == value@);
                assert(seqs(toks@)[0] == key@);
                if crate::text::same_text(key.as_slice(), id_word.as_slice()) {
                    id = Some(value);
                } else if crate::text::same_text(key.as_slice(), parent_word.as_slice()) {
                    parent_id = Some(value);
                } else {
                    files = files.insert(string_of(key.as_slice()), value);
                }
            }
            i += 1;
        }
        match (id, parent_id) {
            (Some(id), Some(parent_id)) => Ok(RevisionRecord { id, parent_id, files }),
            _ => Err(ErrorKind::ExtractionError),
        }
    }
}

/// Whether a record can be written and read back: its ids, its file names
/// and its hashes are single tokens, no file is named like one of the two
/// keys, and the file names ascend.
pub open spec fn writable(r: RecordModel) -> bool {
    &&& is_word(r.id)
    &&& is_word(r.parent_id)
    &&& sorted(r.files)
    &&& forall|i: int|
        0 <= i < r.files.len() ==> {
            &&& is_word((#[trigger] r.files[i]).0)
            &&& is_word(r.files[i].1)
            &&& r.files[i].0 != id_key()
            &&& r.files[i].0 != parent_key()
        }
}

/// The line of a key and a value that are single tokens has three tokens:
/// the key, the colon and the value.
pub proof fn lemma_tokens_of_body(k: Seq<char>, v: Seq<char>)
    requires
        is_word(k),
        is_word(v),
    ensures
        tokens(body_of(k, v)) == seq![k, seq![':'], v],
        forall|i: int| 0 <= i < body_of(k, v).len() ==> #[trigger] body_of(k, v)[i] != '\n',
        body_of(k, v).last() != '\r',
{
    let s = body_of(k, v);
    let n = k.len() as int;
    assert forall|j: int| 0 <= j < n implies s[j] == k[j] by {}
    assert(s[n] == ' ' && s[n + 1] == ':' && s[n + 2] == ' ');
    assert forall|j: int| 0 <= j < v.len() implies s[n + 3 + j] == v[j] by {}
    assert(s.len() == n + 3 + v.len());
    assert forall|j: int| 1 <= j < n implies !crate::text::in_class(
        Class::Space,
        #[trigger] s[j],
    ) by {
        assert(s[j] == k[j]);
    }
    lemma_find_from_is(s, 1, Class::Space, n);
    assert(s.subrange(0, n) =~= k);
    assert(!is_space(s[0])) by {
        assert(s[0] == k[0]);
    }
    assert(tokens_from(s, 0) == seq![k] + tokens_from(s, n));
    assert(tokens_from(s, n) == tokens_from(s, n + 1));
    lemma_find_from_is(s, n + 2, Class::Space, n + 2);
    assert(s.subrange(n + 1, n + 2) =~= seq![':']);
    assert(tokens_from(s, n + 1) == seq![seq![':']] + tokens_from(s, n + 2));
    assert(tokens_from(s, n + 2) == tokens_from(s, n + 3));
    assert forall|j: int| n + 4 <= j < s.len() implies !crate::text::in_class(
        Class::Space,
        #[trigger] s[j],
    ) by {
        assert(s[j] == v[j - n - 3]);
    }
    lemma_find_from_is(s, n + 4, Class::Space, s.len() as int);
    assert(s.subrange(n + 3, s.len() as int) =~= v);
    assert(!is_space(s[n + 3])) by {
        assert(s[n + 3] == v[0]);
    }
    assert(tokens_from(s, n + 3) == seq![v] + tokens_from(s, s.len() as int));
    assert(tokens_from(s, s.len() as int) =~= Seq::<Seq<char>>::empty());
    assert(tokens(s) =~= seq![k, seq![':'], v]);
    assert forall|i: int| 0 <= i < s.len() implies #[trigger] s[i] != '\n' by {
        if i < n {
            assert(s[i] == k[i]);
        } else if i >= n + 3 {
            assert(s[i] == v[i - n - 3]);
        }
    }
    assert(s.last() == v.last());
}

/// The lines of the files from position `i` on, without their ends.
pub open spec fn file_bodies(files: Seq<(Seq<char>, Seq<char>)>, i: int) -> Seq<Seq<char>> {
    Seq::new((files.len() - i) as nat, |j: int| body_of(files[i + j].0, files[i + j].1))
}

/// The text of the files splits into one line for each file.
pub proof fn lemma_lines_of_files(files: Seq<(Seq<char>, Seq<char>)>, i: int)
    requires
        0 <= i <= files.len(),
        forall|j: int|
            0 <= j < files.len() ==> is_word((#[trigger] files[j]).0) && is_word(files[j].1),
    ensures
        lines(render_files(files, i)) == file_bodies(files, i),
    decreases files.len() - i,
{
    if i < files.len() {
        let body = body_of(files[i].0, files[i].1);
        lemma_tokens_of_body(files[i].0, files[i].1);
        lemma_lines_cons(body, render_files(files, i + 1));
        lemma_lines_of_files(files, i + 1);
        assert(seq![body] + file_bodies(files, i + 1) =~= file_bodies(files, i));
    } else {
        assert(lines(render_files(files, i)) =~= file_bodies(files, i));
    }
}

/// Reading the lines of sorted files, one after the other, rebuilds the
/// files.
pub proof fn lemma_scan_files(s: Scan, files: Seq<(Seq<char>, Seq<char>)>, i: int, text: Seq<
    Seq<char>,
>)
    requires
        0 <= i <= files.len(),
        sorted(files),
        forall|j: int|
            0 <= j < files.len() ==> {
                &&& is_word((#[trigger] files[j]).0)
                &&& is_word(files[j].1)
                &&& files[j].0 != id_key()
                &&& files[j].0 != parent_key()
            },
        text.len() == 2 + files.len(),
        forall|j: int|
            0 <= j < files.len() ==> #[trigger] text[2 + j] == body_of(files[j].0, files[j].1),
        s.files == files.take(i),
    ensures
        scan_from(s, text, 2 + i) == Some(Scan { files, ..s }),
    decreases files.len() - i,
{
    if i < files.len() {
        let k = files[i].0;
        let v = files[i].1;
        lemma_tokens_of_body(k, v);
        assert(text[2 + i] == body_of(k, v));
        let toks = tokens(text[2 + i]);
        assert(toks.len() == 3 && toks[0] == k && toks.last() == v);
        assert forall|j: int| 0 <= j < s.files.len() implies crate::text::lex_lt(
            (#[trigger] s.files[j]).0,
            k,
        ) by {
            assert(s.files[j] == files[j]);
        }
        lemma_sorted_put_last(s.files, k, v);
        assert(files.take(i).push(files[i]) =~= files.take(i + 1));
        lemma_scan_files(Scan { files: files.take(i + 1), ..s }, files, i + 1, text);
    } else {
        assert(files.take(i) =~= files);
    }
}

/// A record that is written and then read is the record that was written.
pub proof fn lemma_round_trip(r: RecordModel)
    requires
        writable(r),
    ensures
        record_of(render(r)) == Some(r),
{
    let id_line = body_of(id_key(), r.id);
    let parent_line = body_of(parent_key(), r.parent_id);
    let tail = render_files(r.files, 0);
    assert(is_word(id_key()));
    assert(is_word(parent_key()));
    lemma_tokens_of_body(id_key(), r.id);
    lemma_tokens_of_body(parent_key(), r.parent_id);
    lemma_lines_cons(id_line, parent_line.push('\n') + tail);
    lemma_lines_cons(parent_line, tail);
    lemma_lines_of_files(r.files, 0);
    let text = lines(render(r));
    assert(text =~= seq![id_line] + (seq![parent_line] + file_bodies(r.files, 0)));
    assert(text.len() == 2 + r.files.len());
    assert(text[0] == id_line);
    assert(text[1] == parent_line);
    assert forall|j: int| 0 <= j < r.files.len() implies #[trigger] text[2 + j] == body_of(
        r.files[j].0,
        r.files[j].1,
    ) by {
        assert(text[2 + j] == file_bodies(r.files, 0)[j]);
    }
    let s0 = Scan { id: None, parent_id: None, files: Seq::empty() };
    let s1 = Scan { id: Some(r.id), ..s0 };
    let s2 = Scan { parent_id: Some(r.parent_id), ..s1 };
    assert(tokens(text[0]).last() == r.id);
    assert(tokens(text[1]).last() == r.parent_id);
    assert(tokens(text[1])[0] != id_key()) by {
        assert(parent_key().len() != id_key().len());
    }
    assert(scan_line(s0, tokens(text[0])) == Some(s1));
    assert(scan_line(s1, tokens(text[1])) == Some(s2));
    assert(s2.files =~= r.files.take(0));
    lemma_scan_files(s2, r.files, 0, text);
    assert(scan_from(s1, text, 1) == scan_from(s2, text, 2));
    assert(scan_from(s0, text, 0) == scan_from(s1, text, 1));
}

} // verus!
