//! The archive of a working directory: a tar container inside gzip.
//!
//! The client packs the files of the directory, with the staged revision
//! record in the place of the one on disk. The server unpacks the members
//! of what it received.

use vstd::prelude::*;
use vstd::utf8::{decode_utf8, valid_utf8};
use crate::error::ErrorKind;

verus! {

/// `std::io::Error`, carried through as it is.
#[verifier::external_type_specification]
#[verifier::external_body]
pub struct ExIoError(std::io::Error);

/// `std::string::FromUtf8Error`, carried through as it is.
#[verifier::external_type_specification]
#[verifier::external_body]
pub struct ExFromUtf8Error(std::string::FromUtf8Error);

/// The bytes that a gzip stream holds, or `None` where the bytes are no
/// gzip stream.
pub uninterp spec fn gunzip(data: Seq<u8>) -> Option<Seq<u8>>;

/// The members of a tar container, each with the bytes of its path and of
/// its content, or `None` where the bytes are no tar container.
pub uninterp spec fn tar_members(data: Seq<u8>) -> Option<Seq<(Seq<u8>, Seq<u8>)>>;

/// The tar container that holds the given files, or `None` where a path
/// cannot stand in a container.
pub uninterp spec fn tar_image(entries: Seq<EntryModel>) -> Option<Seq<u8>>;

/// `GzDecoder::new` of the crate `flate2`, read to its end with
/// `Read::read_to_end`: the bytes of the first gzip member, which depend on
/// the input alone, or the error of the decoder.
#[verifier::external_body]
fn gz_decode(data: &[u8]) -> (r: Result<Vec<u8>, std::io::Error>)
    ensures
        match r {
            Ok(v) => gunzip(data@) == Some(v@),
            Err(_) => gunzip(data@) is None,
        },
{
    let mut out = Vec::new();
    std::io::Read::read_to_end(&mut flate2::read::GzDecoder::new(data), &mut out).map(|_| out)
}

/// `GzEncoder::new` of the crate `flate2` at the level `Compression::fast`,
/// written with `Write::write_all` and closed with `finish`: a gzip stream
/// that holds the input. Into a vector neither call fails.
#[verifier::external_body]
fn gz_encode(data: &[u8]) -> (r: Vec<u8>)
    ensures
        gunzip(r@) == Some(data@),
{
    let mut encoder = flate2::write::GzEncoder::new(Vec::new(), flate2::Compression::fast());
    let _ = std::io::Write::write_all(&mut encoder, data);
    encoder.finish().unwrap_or_default()
}

/// `Archive::entries` of the crate `tar`, walked to its end: for each
/// member what `Entry::path_bytes` and `Read::read_to_end` give, or the
/// first error of the walk.
#[verifier::external_body]
fn tar_list(data: &[u8]) -> (r: Result<Vec<(Vec<u8>, Vec<u8>)>, std::io::Error>)
    ensures
        match r {
            Ok(v) => tar_members(data@) == Some(raw_members(v@)),
            Err(_) => tar_members(data@) is None,
        },
{
    let mut archive = tar::Archive::new(data);
    let mut out = Vec::new();
    for entry in archive.entries()? {
        let mut entry = entry?;
        let name = entry.path_bytes().into_owned();
        let mut body = Vec::new();
        std::io::Read::read_to_end(&mut entry, &mut body)?;
        out.push((name, body));
    }
    Ok(out)
}

/// `Builder::append_data` of the crate `tar`, once for each file with a
/// header made by `Header::new_gnu` and of the type that `EntryType::new`
/// reads from the file's type byte, and `Builder::into_inner` at the end:
/// the container, which depends on the files alone, or the error of the
/// first file whose path the builder refuses.
#[verifier::external_body]
fn tar_build(entries: &Vec<ArchiveEntry>) -> (r: Result<Vec<u8>, std::io::Error>)
    ensures
        match r {
            Ok(v) => tar_image(entry_models(entries@)) == Some(v@),
            Err(_) => tar_image(entry_models(entries@)) is None,
        },
{
    let mut archive = tar::Builder::new(Vec::new());
    for e in entries {
        let mut header = tar::Header::new_gnu();
        header.set_size(e.data.len() as u64);
        header.set_entry_type(tar::EntryType::new(e.kind));
        header.set_uid(e.uid);
        header.set_gid(e.gid);
        header.set_mode(e.mode);
        header.set_mtime(e.mtime);
        archive.append_data(&mut header, &e.path, e.data.as_slice())?;
    }
    archive.into_inner()
}

/// `String::from_utf8` of the standard library: the text that the bytes
/// encode, or an error where the bytes are no UTF-8.
#[verifier::external_body]
fn utf8_text(bytes: Vec<u8>) -> (r: Result<String, std::string::FromUtf8Error>)
    ensures
        match r {
            Ok(s) => valid_utf8(bytes@) && s@ == decode_utf8(bytes@),
            Err(_) => !valid_utf8(bytes@),
        },
{
    String::from_utf8(bytes)
}

/// The content of a list of raw members.
pub open spec fn raw_members(list: Seq<(Vec<u8>, Vec<u8>)>) -> Seq<(Seq<u8>, Seq<u8>)> {
    Seq::new(list.len(), |i: int| (list[i].0@, list[i].1@))
}

/// The text that bytes encode, if they are UTF-8.
pub open spec fn text_of(bytes: Seq<u8>) -> Option<Seq<char>> {
    if valid_utf8(bytes) {
        Some(decode_utf8(bytes))
    } else {
        None
    }
}

/// Reads bytes as a text.
pub fn read_text(bytes: &Vec<u8>) -> (r: Option<String>)
    ensures
        match r {
            Some(s) => text_of(bytes@) == Some(s@),
            None => text_of(bytes@) is None,
        },
{
    match utf8_text(bytes.clone()) {
        Ok(s) => Some(s),
        Err(_) => None,
    }
}

/// A member of an archive.
#[derive(Debug)]
pub struct Member {
    /// The path of the member.
    pub name: String,
    /// The bytes of the member.
    pub body: Vec<u8>,
}

impl View for Member {
    type V = (Seq<char>, Seq<u8>);

    open spec fn view(&self) -> (Seq<char>, Seq<u8>) {
        (self.name@, self.body@)
    }
}

/// The content of a list of members.
pub open spec fn members(list: Seq<Member>) -> Seq<(Seq<char>, Seq<u8>)> {
    Seq::new(list.len(), |i: int| list[i]@)
}

/// The members from position `i` on with their paths read as texts, after
/// `acc`; `None` where a path is no UTF-8.
pub open spec fn named_from(
    raw: Seq<(Seq<u8>, Seq<u8>)>,
    i: int,
    acc: Seq<(Seq<char>, Seq<u8>)>,
) -> Option<Seq<(Seq<char>, Seq<u8>)>>
    decreases raw.len() - i,
{
    if i < 0 || i >= raw.len() {
        Some(acc)
    } else {
        match text_of(raw[i].0) {
            Some(name) => named_from(raw, i + 1, acc.push((name, raw[i].1))),
            None => None,
        }
    }
}

/// The members of a compressed archive, or `None` where the bytes are no
/// gzip stream of a tar container whose paths are texts.
pub open spec fn unpacked(data: Seq<u8>) -> Option<Seq<(Seq<char>, Seq<u8>)>> {
    match gunzip(data) {
        Some(tar) => match tar_members(tar) {
            Some(raw) => named_from(raw, 0, Seq::empty()),
            None => None,
        },
        None => None,
    }
}

/// Names the raw members of a container.
pub fn name_members(input: Vec<(Vec<u8>, Vec<u8>)>) -> (r: Result<Vec<Member>, ErrorKind>)
    ensures
        match r {
            Ok(list) => named_from(raw_members(input@), 0, Seq::empty()) == Some(members(list@)),
            Err(e) => e == ErrorKind::ExtractionError && named_from(
                raw_members(input@),
                0,
                Seq::empty(),
            ) is None,
        },
{
    let ghost all = raw_members(input@);
    let mut raw = input;
    let n = raw.len();
    let mut list: Vec<Member> = Vec::new();
    let mut i: usize = 0;
    assert(members(list@) =~= Seq::<(Seq<char>, Seq<u8>)>::empty());
    while i < n
        invariant
            i <= n,
            n == raw.len(),
            all.len() == n,
            all == raw_members(input@),
            forall|j: int| i <= j < n ==> raw_members(raw@)[j] == all[j],
            named_from(all, 0, Seq::empty()) == named_from(all, i as int, members(list@)),
        decreases n - i,
    {
        let mut name: Vec<u8> = Vec::new();
        let mut body: Vec<u8> = Vec::new();
        assert(raw_members(raw@)[i as int] == all[i as int]);
        let ghost before = raw@;
        std::mem::swap(&mut name, &mut raw[i].0);
        std::mem::swap(&mut body, &mut raw[i].1);
        assert(name@ == all[i as int].0 && body@ == all[i as int].1);
        assert forall|j: int| i < j < n implies raw_members(raw@)[j] == all[j] by {
            assert(raw@[j] == before[j]);
            assert(raw_members(before)[j] == all[j]);
        }
        match utf8_text(name) {
            Ok(text) => {
                let ghost so_far = members(list@);
                list.push(Member { name: text, body });
                assert(members(list@) =~= so_far.push((text@, all[i as int].1)));
            },
            Err(_) => {
                return Err(ErrorKind::ExtractionError);
            },
        }
        i += 1;
    }
    Ok(list)
}

/// Unpacks a compressed archive into its members.
pub fn unpack(data: &[u8]) -> (r: Result<Vec<Member>, ErrorKind>)
    ensures
        match r {
            Ok(list) => unpacked(data@) == Some(members(list@)),
            Err(e) => e == ErrorKind::ExtractionError && unpacked(data@) is None,
        },
{
    let tar = match gz_decode(data) {
        Ok(tar) => tar,
        Err(_) => {
            return Err(ErrorKind::ExtractionError);
        },
    };
    let raw = match tar_list(tar.as_slice()) {
        Ok(raw) => raw,
        Err(_) => {
            return Err(ErrorKind::ExtractionError);
        },
    };
    name_members(raw)
}

/// A file that goes into an archive.
#[derive(Debug)]
pub struct ArchiveEntry {
    /// The path of the file inside the archive.
    pub path: String,
    /// The bytes of the file.
    pub data: Vec<u8>,
    /// The type byte of the tar header: [`REGULAR_FILE`] for a file.
    pub kind: u8,
    /// The permission bits.
    pub mode: u32,
    /// The owner.
    pub uid: u64,
    /// The group.
    pub gid: u64,
    /// The time of the last change, in seconds since 1970.
    pub mtime: u64,
}

/// The mathematical content of an [`ArchiveEntry`].
pub struct EntryModel {
    pub path: Seq<char>,
    pub data: Seq<u8>,
    pub kind: u8,
    pub mode: u32,
    pub uid: u64,
    pub gid: u64,
    pub mtime: u64,
}

impl View for ArchiveEntry {
    type V = EntryModel;

    open spec fn view(&self) -> EntryModel {
        EntryModel {
            path: self.path@,
            data: self.data@,
            kind: self.kind,
            mode: self.mode,
            uid: self.uid,
            gid: self.gid,
            mtime: self.mtime,
        }
    }
}

/// The content of a list of files.
pub open spec fn entry_models(entries: Seq<ArchiveEntry>) -> Seq<EntryModel> {
    Seq::new(entries.len(), |i: int| entries[i]@)
}

/// The name of the revision record in a working directory.
pub open spec fn record_name() -> Seq<char> {
    "REV"@
}

/// The permission bits of a staged record in an archive.
pub const STAGED_MODE: u32 = 0o666;

/// The type byte of a regular file in a tar header: the digit `0`.
pub const REGULAR_FILE: u8 = 48;

/// The file that stands in the archive for `e`: the staged record as a
/// regular file, owned by `user` and stamped `now`, where `e` is the
/// revision record and a record is staged; `e` itself otherwise.
pub open spec fn staged_entry(e: EntryModel, staged: Option<Seq<u8>>, user: u32, now: u64)
    -> EntryModel {
    if e.path == record_name() && staged is Some {
        EntryModel {
            path: e.path,
            data: staged->0,
            kind: REGULAR_FILE,
            mode: STAGED_MODE,
            uid: user as u64,
            gid: user as u64,
            mtime: now,
        }
    } else {
        e
    }
}

/// The files of an archive, the staged record in the place of the one on
/// disk.
pub open spec fn staged_entries(
    entries: Seq<EntryModel>,
    staged: Option<Seq<u8>>,
    user: u32,
    now: u64,
) -> Seq<EntryModel> {
    Seq::new(entries.len(), |i: int| staged_entry(entries[i], staged, user, now))
}

/// Puts the staged record in the place of the one on disk.
pub fn stage_entries(
    entries: Vec<ArchiveEntry>,
    staged: &Option<Vec<u8>>,
    user: u32,
    now: u64,
) -> (r: Vec<ArchiveEntry>)
    ensures
        entry_models(r@) == staged_entries(
            entry_models(entries@),
            match staged {
                Some(b) => Some(b@),
                None => None,
            },
            user,
            now,
        ),
{
    let ghost start = entry_models(entries@);
    let ghost record = match staged {
        Some(b) => Some(b@),
        None => None,
    };
    let mut entries = entries;
    let n = entries.len();
    let mut i: usize = 0;
    while i < n
        invariant
            i <= n,
            n == entries.len(),
            start.len() == n,
            record == (match staged {
                Some(b) => Some(b@),
                None => None,
            }),
            forall|j: int| 0 <= j < i ==> (#[trigger] entries@[j])@ == staged_entry(start[j], record, user, now),
            forall|j: int| i <= j < n ==> (#[trigger] entries@[j])@ == start[j],
        decreases n - i,
    {
        match staged {
            Some(bytes) => {
                if entries[i].path == "REV".to_string() {
                    let mut path = String::new();
                    std::mem::swap(&mut path, &mut entries[i].path);
                    entries[i] = ArchiveEntry {
                        path,
                        data: bytes.clone(),
                        kind: REGULAR_FILE,
                        mode: STAGED_MODE,
                        uid: user as u64,
                        gid: user as u64,
                        mtime: now,
                    };
                }
            },
            None => {},
        }
        i += 1;
    }
    assert(entry_models(entries@) =~= staged_entries(start, record, user, now));
    entries
}

/// Packs the files of a working directory, the staged record in the place
/// of the one on disk, into a compressed archive.
pub fn pack(entries: Vec<ArchiveEntry>, staged: &Option<Vec<u8>>, user: u32, now: u64) -> (r:
    Result<Vec<u8>, ErrorKind>)
    ensures
        match r {
            Ok(bytes) => gunzip(bytes@) is Some && gunzip(bytes@) == tar_image(
                staged_entries(
                    entry_models(entries@),
                    match staged {
                        Some(b) => Some(b@),
                        None => None,
                    },
                    user,
                    now,
                ),
            ),
            Err(e) => e == ErrorKind::PathError && tar_image(
                staged_entries(
                    entry_models(entries@),
                    match staged {
                        Some(b) => Some(b@),
                        None => None,
                    },
                    user,
                    now,
                ),
            ) is None,
        },
{
    let files = stage_entries(entries, staged, user, now);
    match tar_build(&files) {
        Ok(tar) => Ok(gz_encode(tar.as_slice())),
        Err(_) => Err(ErrorKind::PathError),
    }
}

} // verus!
