//! Line diffs between a revision and its parent.
//!
//! A file has changed when the parent's record holds another hash for it,
//! or none. The diff of a changed file is the list of hunks of a unified
//! diff between the text that the parent stored and the new text.

use vstd::prelude::*;
use crate::assoc::get;
use crate::error::ErrorKind;
use crate::record::{record_of, root_parent, RecordModel, RevisionRecord};
use crate::table::Table;
use crate::text::strs;

verus! {

/// The hunks of the unified diff, by lines and with three lines of
/// context, that leads from `old` to `new`.
pub uninterp spec fn unified_diff(old: Seq<char>, new: Seq<char>) -> Seq<Seq<char>>;

/// `TextDiff::from_lines` of the crate `similar`, shown hunk by hunk
/// through `unified_diff`, `iter_hunks` and each hunk's `to_string`: the
/// hunks, which depend on the two texts alone. Against an empty old text
/// the lines of a new text are one insertion, and so one hunk.
#[verifier::external_body]
fn unified_hunks(old: &str, new: &str) -> (r: Vec<String>)
    ensures
        strs(r@) == unified_diff(old@, new@),
        old@.len() == 0 && new@.len() > 0 ==> r@.len() == 1,
{
    similar::TextDiff::from_lines(old, new).unified_diff().header("old_file", "new_file")
        .iter_hunks().map(|h| h.to_string()).collect()
}

/// The hunks that lead from `old` to `new`: none between equal texts.
pub open spec fn hunks_of(old: Seq<char>, new: Seq<char>) -> Seq<Seq<char>> {
    if old == new {
        Seq::empty()
    } else {
        unified_diff(old, new)
    }
}

/// Diffing a text against itself yields no hunk.
pub proof fn lemma_no_hunks_between_equal_texts(text: Seq<char>)
    ensures
        hunks_of(text, text).len() == 0,
{
}

/// The hunks that lead from `old` to `new`: none between equal texts, and
/// one from an empty text to a text that is not empty.
pub fn diff_text(old: &String, new: &String) -> (r: Vec<String>)
    ensures
        strs(r@) == hunks_of(old@, new@),
        old@ == new@ ==> r@.len() == 0,
        old@.len() == 0 && new@.len() > 0 ==> r@.len() == 1,
{
    if *old == *new {
        let r: Vec<String> = Vec::new();
        assert(strs(r@) =~= Seq::<Seq<char>>::empty());
        r
    } else {
        unified_hunks(old.as_str(), new.as_str())
    }
}

/// The names of the files from position `i` on whose hash in `parent` is
/// another or is missing, after `acc`.
pub open spec fn changed_from(
    current: Seq<(Seq<char>, Seq<char>)>,
    parent: Seq<(Seq<char>, Seq<char>)>,
    i: int,
    acc: Seq<Seq<char>>,
) -> Seq<Seq<char>>
    decreases current.len() - i,
{
    if i < 0 || i >= current.len() {
        acc
    } else if get(parent, current[i].0) == Some(current[i].1) {
        changed_from(current, parent, i + 1, acc)
    } else {
        changed_from(current, parent, i + 1, acc.push(current[i].0))
    }
}

/// The names of the files that changed against the parent, in sorted
/// order.
pub open spec fn changed(
    current: Seq<(Seq<char>, Seq<char>)>,
    parent: Seq<(Seq<char>, Seq<char>)>,
) -> Seq<Seq<char>> {
    changed_from(current, parent, 0, Seq::empty())
}

/// Lists the files that changed against the parent.
pub fn changed_files(current: &Table, parent: &Table) -> (r: Vec<String>)
    ensures
        strs(r@) == changed(current@, parent@),
{
    let mut r: Vec<String> = Vec::new();
    let n = current.len();
    let mut i: usize = 0;
    assert(strs(r@) =~= Seq::<Seq<char>>::empty());
    while i < n
        invariant
            i <= n,
            n == current@.len(),
            changed(current@, parent@) == changed_from(current@, parent@, i as int, strs(r@)),
        decreases n - i,
    {
        let same = match parent.get(current.key(i)) {
            Some(hash) => *hash == *current.value(i),
            None => false,
        };
        if !same {
            let ghost before = strs(r@);
            r.push(current.key(i).clone());
            assert(strs(r@) =~= before.push(current@[i as int].0));
        }
        i += 1;
    }
    r
}

/// The content of a list of diffs.
pub open spec fn diff_models(list: Seq<(String, Vec<String>)>) -> Seq<(Seq<char>, Seq<Seq<char>>)> {
    Seq::new(list.len(), |i: int| (list[i].0@, strs(list[i].1@)))
}

/// The diffs of the files named from position `i` on, after `acc`: each
/// between the text that the parent stored, or the empty text, and the new
/// text. `None` where the new text of a file is not stored.
pub open spec fn diffs_from(
    names: Seq<Seq<char>>,
    files: Seq<(Seq<char>, Seq<char>)>,
    old_files: Seq<(Seq<char>, Seq<char>)>,
    i: int,
    acc: Seq<(Seq<char>, Seq<Seq<char>>)>,
) -> Option<Seq<(Seq<char>, Seq<Seq<char>>)>>
    decreases names.len() - i,
{
    if i < 0 || i >= names.len() {
        Some(acc)
    } else {
        match get(files, names[i]) {
            Some(new) => {
                let old = match get(old_files, names[i]) {
                    Some(text) => text,
                    None => Seq::empty(),
                };
                diffs_from(names, files, old_files, i + 1, acc.push((names[i], hunks_of(old, new))))
            },
            None => None,
        }
    }
}

/// The diffs of a revision against its parent: none for a first revision
/// and none where the parent is not in the store; else the diffs of the
/// changed files, the parent's hashes read from the record that the parent
/// stored. `None` where the parent stored no readable record, or where the
/// new text of a changed file is not stored.
pub open spec fn revision_diffs(
    record: RecordModel,
    files: Seq<(Seq<char>, Seq<char>)>,
    parent: Option<Seq<(Seq<char>, Seq<char>)>>,
) -> Option<Seq<(Seq<char>, Seq<Seq<char>>)>> {
    if record.parent_id == root_parent() || parent is None {
        Some(Seq::empty())
    } else {
        match get(parent->0, crate::archive::record_name()) {
            Some(text) => match record_of(text) {
                Some(old) => diffs_from(
                    changed(record.files, old.files),
                    files,
                    parent->0,
                    0,
                    Seq::empty(),
                ),
                None => None,
            },
            None => None,
        }
    }
}

/// Whether the parent of a revision has to be looked up: whether the
/// revision is not the first of its collection.
pub fn has_parent(record: &RevisionRecord) -> (r: bool)
    ensures
        r == (record.parent_id@ != root_parent()),
{
    let root = "*".to_string();
    proof {
        reveal_strlit("*");
        assert(root@ =~= root_parent());
    }
    record.parent_id != root
}

/// Computes the diffs of a revision against its parent. `files` holds the
/// stored texts of the revision, `parent` those of its parent where the
/// store holds the parent.
pub fn get_file_diffs(record: &RevisionRecord, files: &Table, parent: Option<&Table>) -> (r:
    Result<Vec<(String, Vec<String>)>, ErrorKind>)
    ensures
        match r {
            Ok(diffs) => revision_diffs(
                record@,
                files@,
                match parent {
                    Some(p) => Some(p@),
                    None => None,
                },
            ) == Some(diff_models(diffs@)),
            Err(e) => e == ErrorKind::ExtractionError && revision_diffs(
                record@,
                files@,
                match parent {
                    Some(p) => Some(p@),
                    None => None,
                },
            ) is None,
        },
{
    let mut diffs: Vec<(String, Vec<String>)> = Vec::new();
    assert(diff_models(diffs@) =~= Seq::<(Seq<char>, Seq<Seq<char>>)>::empty());
    if !has_parent(record) {
        return Ok(diffs);
    }
    let old_files = match parent {
        Some(p) => p,
        None => {
            return Ok(diffs);
        },
    };
    let old_record = match old_files.get(&"REV".to_string()) {
        Some(text) => match RevisionRecord::parse(text.as_str()) {
            Ok(old) => old,
            Err(_) => {
                return Err(ErrorKind::ExtractionError);
            },
        },
        None => {
            return Err(ErrorKind::ExtractionError);
        },
    };
    let names = changed_files(&record.files, &old_record.files);
    let ghost goal = revision_diffs(
        record@,
        files@,
        match parent {
            Some(p) => Some(p@),
            None => None,
        },
    );
    assert(goal == diffs_from(strs(names@), files@, old_files@, 0, Seq::empty()));
    let mut i: usize = 0;
    while i < names.len()
        invariant
            i <= names.len(),
            goal == revision_diffs(
                record@,
                files@,
                match parent {
                    Some(p) => Some(p@),
                    None => None,
                },
            ),
            goal == diffs_from(strs(names@), files@, old_files@, 0, Seq::empty()),
            diffs_from(strs(names@), files@, old_files@, 0, Seq::empty()) == diffs_from(
                strs(names@),
                files@,
                old_files@,
                i as int,
                diff_models(diffs@),
            ),
        decreases names.len() - i,
    {
        assert(strs(names@)[i as int] == names@[i as int]@);
        let new = match files.get(&names[i]) {
            Some(text) => text,
            None => {
                return Err(ErrorKind::ExtractionError);
            },
        };
        let empty = String::new();
        let old = match old_files.get(&names[i]) {
            Some(text) => text,
            None => &empty,
        };
        let hunks = diff_text(old, new);
        let ghost before = diff_models(diffs@);
        diffs.push((names[i].clone(), hunks));
        assert(diff_models(diffs@) =~= before.push((names@[i as int]@, hunks_of(old@, new@))));
        i += 1;
    }
    Ok(diffs)
}

} // verus!
