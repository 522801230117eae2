//! A run that tracks a working directory without a collection: the id of
//! a revision is the combined hash alone, and the record is written as
//! soon as it is made.

use vstd::prelude::*;
use crate::archive::{entry_models, gunzip, pack, staged_entries, tar_image, ArchiveEntry};
use crate::error::ErrorKind;
use crate::hashing::{
    combined_hash, digests_from, digests_sized, file_hashes, full_hash, hash_index, hex_of,
    sha256, short_hashes, sources, Source, HASH_TRUNCATE_LENGTH,
};
use crate::record::{record_of, render, root_parent, RecordModel, RevisionRecord};
use crate::table::Table;
use crate::text::{chars_of, concat, seqs, strs};
use crate::user::{command_line, diverged, diverged_from, input_from, input_path, join_command};

verus! {

/// What a run hands to the upload.
#[derive(Debug)]
pub struct OutputInfo {
    /// The name of the archive.
    pub filename: Option<String>,
    /// The hash of the archive, in hexadecimal.
    pub hash: Option<String>,
    /// The compressed archive.
    pub compressed_dir: Option<Vec<u8>>,
    /// The id of the recorded revision.
    pub record_file_hash: Option<String>,
}

/// A run and what it tracks.
#[derive(Debug)]
pub struct Command {
    /// The command that is run.
    pub cmd_string: String,
    /// The input file or directory.
    pub input_file_path: String,
    /// The patterns of the tracked files.
    pub file_types: Vec<String>,
    /// The id of the working directory as it is.
    pub curr_id: String,
    /// The hashes of the working directory as it is.
    pub curr_file_hashes: Table,
    /// The revision record, once there is one.
    pub record_file_hashes: Option<RevisionRecord>,
    /// Whether the working directory has diverged from the record.
    pub needs_update: bool,
    /// The staged record: the text that replaces the record on disk once
    /// the upload was accepted.
    pub potential_rev_file: Option<String>,
}

/// The patterns as sequences of characters.
fn pattern_chars(file_types: &Vec<String>) -> (r: Vec<Vec<char>>)
    ensures
        seqs(r@) == strs(file_types@),
{
    let mut r: Vec<Vec<char>> = Vec::new();
    let mut i: usize = 0;
    assert(seqs(r@) =~= strs(file_types@).take(0));
    while i < file_types.len()
        invariant
            i <= file_types.len(),
            seqs(r@) == strs(file_types@).take(i as int),
        decreases file_types.len() - i,
    {
        let ghost before = seqs(r@);
        r.push(chars_of(file_types[i].as_str()));
        assert(seqs(r@) =~= before.push(file_types@[i as int]@));
        i += 1;
        assert(seqs(r@) =~= strs(file_types@).take(i as int));
    }
    assert(strs(file_types@).take(file_types.len() as int) =~= strs(file_types@));
    r
}

impl Command {
    /// A run of the given command line that tracks the files whose names
    /// hold one of `file_types`. Fails where no argument names the input.
    pub fn command(cmd_string: &Vec<String>, file_types: Vec<String>) -> (r: Result<
        Command,
        ErrorKind,
    >)
        ensures
            match r {
                Ok(c) => {
                    &&& input_from(strs(cmd_string@), 1).len() > 0
                    &&& c.input_file_path@ == input_from(strs(cmd_string@), 1)
                    &&& c.cmd_string@ == command_line(strs(cmd_string@), 0)
                    &&& c.file_types == file_types
                    &&& c.curr_file_hashes@.len() == 0
                    &&& c.record_file_hashes is None
                    &&& !c.needs_update
                    &&& c.potential_rev_file is None
                },
                Err(e) => e == ErrorKind::PathError && input_from(strs(cmd_string@), 1).len() == 0,
            },
    {
        let input = input_path(cmd_string);
        if input.as_str().is_empty() {
            return Err(ErrorKind::PathError);
        }
        Ok(
            Command {
                cmd_string: join_command(cmd_string),
                input_file_path: input,
                file_types,
                curr_id: String::new(),
                curr_file_hashes: Table::new(),
                record_file_hashes: None,
                needs_update: false,
                potential_rev_file: None,
            },
        )
    }

    /// Compares the hashes of the working directory with the record.
    pub fn check_hashes(&mut self)
        ensures
            *final(self) == (Command {
                needs_update: old(self).needs_update || diverged_from(
                    old(self).curr_id@,
                    old(self).curr_file_hashes@,
                    match old(self).record_file_hashes {
                        Some(rec) => Some(rec@),
                        None => None,
                    },
                ),
                ..*old(self)
            }),
    {
        if diverged(&self.curr_id, &self.curr_file_hashes, &self.record_file_hashes) {
            self.needs_update = true;
        }
    }

    /// Stages the record of the working directory as it is, with the
    /// recorded revision as its parent. The record that was loaded stays
    /// as it is until the staged one is written. Without a record nothing
    /// is staged.
    pub fn update_record(&mut self) -> (staged: bool)
        ensures
            staged == old(self).record_file_hashes is Some,
            staged ==> final(self).potential_rev_file is Some
                && final(self).potential_rev_file->0@ == render(
                RecordModel {
                    id: old(self).curr_id@,
                    parent_id: old(self).record_file_hashes->0.id@,
                    files: old(self).curr_file_hashes@,
                },
            ),
            !staged ==> *final(self) == *old(self),
            *final(self) == (Command {
                potential_rev_file: final(self).potential_rev_file,
                ..*old(self)
            }),
    {
        let parent = match &self.record_file_hashes {
            Some(rec) => rec.id.clone(),
            None => {
                return false;
            },
        };
        let record = RevisionRecord {
            id: self.curr_id.clone(),
            parent_id: parent,
            files: self.curr_file_hashes.copy(),
        };
        self.potential_rev_file = Some(record.render());
        true
    }

    /// The staged record, if there is one: the text that replaces the
    /// record on disk.
    pub fn update_rev_file(&self) -> (r: Option<&String>)
        ensures
            match r {
                Some(text) => self.potential_rev_file == Some(*text),
                None => self.potential_rev_file is None,
            },
    {
        match &self.potential_rev_file {
            Some(text) => Some(text),
            None => None,
        }
    }

    /// Scans the working directory against the revision record, whose text
    /// is `rev_text` where the directory holds one. With a record, the
    /// hashes are compared with it. Without one, the first record of the
    /// directory is made; its text is the second part of the result. A
    /// failure changes nothing.
    pub fn track_files(&mut self, rev_text: Option<&str>, entries: &Vec<Source>) -> (r: Result<
        (OutputInfo, Option<String>),
        ErrorKind,
    >)
        ensures
            match digests_from(sources(entries@), strs(old(self).file_types@), 0, Seq::empty()) {
                None => r is Err && r->Err_0 == ErrorKind::HashIOError,
                Some(d) => match rev_text {
                    Some(t) => match record_of(t@) {
                        None => r is Err && r->Err_0 == ErrorKind::ExtractionError,
                        Some(rec) => {
                            &&& r is Ok
                            &&& r->Ok_0.1 is None
                            &&& final(self).record_file_hashes is Some
                            &&& final(self).record_file_hashes->0@ == rec
                            &&& final(self).needs_update == (old(self).needs_update
                                || diverged_from(combined_hash(d), file_hashes(d), Some(rec)))
                            &&& r->Ok_0.0.record_file_hash is Some
                            &&& r->Ok_0.0.record_file_hash->0@ == rec.id
                        },
                    },
                    None => {
                        &&& r is Ok
                        &&& r->Ok_0.1 is Some
                        &&& final(self).record_file_hashes is Some
                        &&& final(self).record_file_hashes->0@ == (RecordModel {
                            id: combined_hash(d),
                            parent_id: root_parent(),
                            files: file_hashes(d),
                        })
                        &&& r->Ok_0.1->0@ == render(final(self).record_file_hashes->0@)
                        &&& final(self).needs_update == old(self).needs_update
                        &&& r->Ok_0.0.record_file_hash is Some
                        &&& r->Ok_0.0.record_file_hash->0@ == combined_hash(d)
                    },
                },
            },
            r is Ok ==> {
                &&& r->Ok_0.0.filename is None
                &&& r->Ok_0.0.hash is None
                &&& r->Ok_0.0.compressed_dir is None
                &&& final(self).curr_id@.len() == HASH_TRUNCATE_LENGTH
                &&& short_hashes(final(self).curr_file_hashes@)
                &&& digests_sized(sources(entries@), strs(old(self).file_types@))
                &&& final(self).curr_id@ == combined_hash(
                    digests_from(
                        sources(entries@),
                        strs(old(self).file_types@),
                        0,
                        Seq::empty(),
                    )->0,
                )
                &&& final(self).curr_file_hashes@ == file_hashes(
                    digests_from(
                        sources(entries@),
                        strs(old(self).file_types@),
                        0,
                        Seq::empty(),
                    )->0,
                )
            },
            r is Err ==> *final(self) == *old(self),
            *final(self) == (Command {
                curr_id: final(self).curr_id,
                curr_file_hashes: final(self).curr_file_hashes,
                record_file_hashes: final(self).record_file_hashes,
                needs_update: final(self).needs_update,
                ..*old(self)
            }),
    {
        let patterns = pattern_chars(&self.file_types);
        let index = match hash_index(entries, &patterns) {
            Ok(index) => index,
            Err(e) => {
                return Err(e);
            },
        };
        let recorded = match rev_text {
            Some(t) => match RevisionRecord::parse(t) {
                Ok(rec) => Some(rec),
                Err(e) => {
                    return Err(e);
                },
            },
            None => None,
        };
        self.curr_id = index.combined;
        self.curr_file_hashes = index.files;
        let written = match recorded {
            Some(rec) => {
                self.record_file_hashes = Some(rec);
                self.check_hashes();
                None
            },
            None => {
                let root = "*".to_string();
                proof {
                    reveal_strlit("*");
                    assert(root@ =~= root_parent());
                }
                let record = RevisionRecord {
                    id: self.curr_id.clone(),
                    parent_id: root,
                    files: self.curr_file_hashes.copy(),
                };
                let text = record.render();
                self.record_file_hashes = Some(record);
                Some(text)
            },
        };
        let id = match &self.record_file_hashes {
            Some(rec) => Some(rec.id.clone()),
            None => None,
        };
        Ok(
            (
                OutputInfo { filename: None, hash: None, compressed_dir: None, record_file_hash: id },
                written,
            ),
        )
    }

    /// Packs the working directory and hashes the archive. `name` is the
    /// last part of the input path.
    pub fn compress_and_hash(&self, entries: Vec<ArchiveEntry>, name: &str) -> (r: Result<
        OutputInfo,
        ErrorKind,
    >)
        ensures
            match r {
                Ok(info) => {
                    &&& info.filename is Some
                    &&& info.filename->0@ == name@ + ".tar.gz"@
                    &&& info.compressed_dir is Some
                    &&& gunzip(info.compressed_dir->0@) is Some
                    &&& gunzip(info.compressed_dir->0@) == tar_image(entry_models(entries@))
                    &&& info.hash is Some
                    &&& info.hash->0@ == hex_of(sha256(info.compressed_dir->0@))
                    &&& info.record_file_hash is None
                },
                Err(e) => e == ErrorKind::PathError && tar_image(entry_models(entries@)) is None,
            },
    {
        assert(staged_entries(entry_models(entries@), None, 0, 0) =~= entry_models(entries@));
        let bytes = match pack(entries, &None, 0, 0) {
            Ok(bytes) => bytes,
            Err(e) => {
                return Err(e);
            },
        };
        let hash = full_hash(bytes.as_slice());
        Ok(
            OutputInfo {
                filename: Some(concat(name, ".tar.gz")),
                hash: Some(hash),
                compressed_dir: Some(bytes),
                record_file_hash: None,
            },
        )
    }
}

} // verus!
