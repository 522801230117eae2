//! Content hashes of tracked files and the combined hash of a revision.
//!
//! A file is tracked when its path holds one of the configured patterns.
//! The hash of a file is the SHA-256 digest of its bytes; the combined hash
//! is the digest of the file digests, joined in the sorted order of the
//! paths. Both are shown by the first sixteen hexadecimal digits only: an
//! id of 64 bits, short enough to read, at the price that two contents may
//! share it.

use vstd::prelude::*;
use crate::assoc::{
    get, has_key, key_index, lemma_has_key, lemma_key_index_at, lemma_rank, lemma_sorted_distinct,
    lemma_sorted_equal, lemma_sorted_put_get, lemma_sorted_put_last, lemma_sorted_put_sorted,
    lemma_sorted_same_keys, rank, sorted, sorted_put,
};
use crate::error::ErrorKind;
use crate::table::Table;
use crate::text::{chars_of, contains, has_text, lex_less, seqs, slice_vec, string_of};

verus! {

/// The number of hexadecimal digits that are kept of a digest.
pub const HASH_TRUNCATE_LENGTH: usize = 16;

/// The number of bytes of a digest.
pub const DIGEST_LENGTH: usize = 32;

/// The SHA-256 digest of a sequence of bytes.
pub uninterp spec fn sha256(data: Seq<u8>) -> Seq<u8>;

/// `Sha256::digest` of the crate `sha2`: the digest of the bytes, which
/// depends on the bytes alone and is 32 bytes long.
#[verifier::external_body]
fn sha256_digest(data: &[u8]) -> (r: Vec<u8>)
    ensures
        r@ == sha256(data@),
        r@.len() == DIGEST_LENGTH,
{
    <sha2::Sha256 as sha2::Digest>::digest(data).to_vec()
}

/// The hexadecimal digit of a number below sixteen, in lower case.
pub open spec fn hex_digit(n: int) -> char {
    if n == 0 {
        '0'
    } else if n == 1 {
        '1'
    } else if n == 2 {
        '2'
    } else if n == 3 {
        '3'
    } else if n == 4 {
        '4'
    } else if n == 5 {
        '5'
    } else if n == 6 {
        '6'
    } else if n == 7 {
        '7'
    } else if n == 8 {
        '8'
    } else if n == 9 {
        '9'
    } else if n == 10 {
        'a'
    } else if n == 11 {
        'b'
    } else if n == 12 {
        'c'
    } else if n == 13 {
        'd'
    } else if n == 14 {
        'e'
    } else {
        'f'
    }
}

/// The bytes written in hexadecimal: two digits for each byte, the high
/// half first.
pub open spec fn hex_of(data: Seq<u8>) -> Seq<char> {
    Seq::new(
        2 * data.len(),
        |i: int|
            if i % 2 == 0 {
                hex_digit(data[i / 2] as int / 16)
            } else {
                hex_digit(data[i / 2] as int % 16)
            },
    )
}

/// `hex::encode` of the crate `hex`: the bytes in lower-case hexadecimal,
/// two digits for each byte.
#[verifier::external_body]
fn hex_encode(data: &[u8]) -> (r: String)
    ensures
        r@ == hex_of(data@),
{
    hex::encode(data)
}

/// The first sixteen hexadecimal digits of a digest.
pub open spec fn fixed_hex(digest: Seq<u8>) -> Seq<char> {
    hex_of(digest).take(HASH_TRUNCATE_LENGTH as int)
}

/// Writes the first sixteen hexadecimal digits of a digest of at least
/// eight bytes.
fn truncated_hex(digest: &[u8]) -> (r: String)
    requires
        digest.len() >= 8,
    ensures
        r@ == fixed_hex(digest@),
        r@.len() == HASH_TRUNCATE_LENGTH,
{
    let full = chars_of(hex_encode(digest).as_str());
    let head = slice_vec(full.as_slice(), 0, HASH_TRUNCATE_LENGTH);
    assert(head@ =~= fixed_hex(digest@));
    string_of(head.as_slice())
}

/// The digest of a sequence of bytes and its first sixteen hexadecimal
/// digits.
pub fn content_hash(data: &[u8]) -> (r: String)
    ensures
        r@ == fixed_hex(sha256(data@)),
        r@.len() == HASH_TRUNCATE_LENGTH,
        sha256(data@).len() == DIGEST_LENGTH,
{
    let digest = sha256_digest(data);
    truncated_hex(digest.as_slice())
}

/// The whole digest of a sequence of bytes in hexadecimal.
pub fn full_hash(data: &[u8]) -> (r: String)
    ensures
        r@ == hex_of(sha256(data@)),
        r@.len() == 2 * DIGEST_LENGTH,
        sha256(data@).len() == DIGEST_LENGTH,
{
    let digest = sha256_digest(data);
    hex_encode(digest.as_slice())
}

/// A path without the `./` that a walk from the working directory puts
/// before it.
pub open spec fn relative_path(path: Seq<char>) -> Seq<char> {
    if path.len() >= 2 && path[0] == '.' && path[1] == '/' {
        path.subrange(2, path.len() as int)
    } else {
        path
    }
}

/// Cuts the leading `./` from a path.
pub fn relative_name(path: &str) -> (r: String)
    ensures
        r@ == relative_path(path@),
{
    let content = chars_of(path);
    if content.len() >= 2 && content[0] == '.' && content[1] == '/' {
        let rest = slice_vec(content.as_slice(), 2, content.len());
        string_of(rest.as_slice())
    } else {
        string_of(content.as_slice())
    }
}

/// Whether `path` holds the pattern at position `i` of `patterns` or a
/// later one.
pub open spec fn matches_from(path: Seq<char>, patterns: Seq<Seq<char>>, i: int) -> bool
    decreases patterns.len() - i,
{
    if i < 0 || i >= patterns.len() {
        false
    } else {
        contains(path, patterns[i]) || matches_from(path, patterns, i + 1)
    }
}

/// Whether the file at `path` is tracked: whether the path holds one of
/// the patterns.
pub open spec fn matches_any(path: Seq<char>, patterns: Seq<Seq<char>>) -> bool {
    matches_from(path, patterns, 0)
}

/// A path is tracked exactly when some pattern occurs in it.
pub proof fn lemma_matches_any(path: Seq<char>, patterns: Seq<Seq<char>>, i: int)
    requires
        0 <= i,
    ensures
        matches_from(path, patterns, i) <==> exists|j: int|
            i <= j < patterns.len() && contains(path, #[trigger] patterns[j]),
    decreases patterns.len() - i,
{
    if i < patterns.len() {
        lemma_matches_any(path, patterns, i + 1);
        if contains(path, patterns[i]) {
            assert(i <= i < patterns.len() && contains(path, patterns[i]));
        }
    }
}

/// Tests whether the file at `path` is tracked.
pub fn is_tracked(path: &str, patterns: &Vec<Vec<char>>) -> (r: bool)
    ensures
        r == matches_any(path@, seqs(patterns@)),
{
    let name = chars_of(path);
    let mut i: usize = 0;
    while i < patterns.len()
        invariant
            i <= patterns.len(),
            name@ == path@,
            matches_any(path@, seqs(patterns@)) == matches_from(path@, seqs(patterns@), i as int),
        decreases patterns.len() - i,
    {
        assert(seqs(patterns@)[i as int] == patterns@[i as int]@);
        if has_text(name.as_slice(), patterns[i].as_slice()) {
            return true;
        }
        i += 1;
    }
    false
}

/// What the caller found at a path of the working directory.
#[derive(Debug)]
pub enum Content {
    /// A directory.
    Directory,
    /// A file that could not be read.
    Unreadable,
    /// A file and its bytes.
    Bytes(Vec<u8>),
}

/// An entry of the working directory.
#[derive(Debug)]
pub struct Source {
    /// The path, relative to the working directory.
    pub path: String,
    /// What was found there.
    pub content: Content,
}

/// The mathematical content of a [`Content`].
pub enum ContentModel {
    Directory,
    Unreadable,
    Bytes(Seq<u8>),
}

impl View for Content {
    type V = ContentModel;

    open spec fn view(&self) -> ContentModel {
        match self {
            Content::Directory => ContentModel::Directory,
            Content::Unreadable => ContentModel::Unreadable,
            Content::Bytes(b) => ContentModel::Bytes(b@),
        }
    }
}

impl View for Source {
    type V = (Seq<char>, ContentModel);

    open spec fn view(&self) -> (Seq<char>, ContentModel) {
        (self.path@, self.content@)
    }
}

/// The content of a list of entries.
pub open spec fn sources(entries: Seq<Source>) -> Seq<(Seq<char>, ContentModel)> {
    Seq::new(entries.len(), |i: int| entries[i]@)
}

/// The digests of the tracked files among the entries from position `i`
/// on, added to `acc` and sorted by path. A directory is passed over; so is
/// a file that is not tracked. A tracked file that could not be read
/// leaves `None`.
pub open spec fn digests_from(
    entries: Seq<(Seq<char>, ContentModel)>,
    patterns: Seq<Seq<char>>,
    i: int,
    acc: Seq<(Seq<char>, Seq<u8>)>,
) -> Option<Seq<(Seq<char>, Seq<u8>)>>
    decreases entries.len() - i,
{
    if i < 0 || i >= entries.len() {
        Some(acc)
    } else {
        match entries[i].1 {
            ContentModel::Directory => digests_from(entries, patterns, i + 1, acc),
            ContentModel::Unreadable => if matches_any(entries[i].0, patterns) {
                None
            } else {
                digests_from(entries, patterns, i + 1, acc)
            },
            ContentModel::Bytes(b) => if matches_any(entries[i].0, patterns) {
                digests_from(entries, patterns, i + 1, sorted_put(acc, entries[i].0, sha256(b)))
            } else {
                digests_from(entries, patterns, i + 1, acc)
            },
        }
    }
}

/// The digests from position `i` on, joined.
pub open spec fn joined_digests(d: Seq<(Seq<char>, Seq<u8>)>, i: int) -> Seq<u8>
    decreases d.len() - i,
{
    if i < 0 || i >= d.len() {
        Seq::empty()
    } else {
        d[i].1 + joined_digests(d, i + 1)
    }
}

/// The truncated hash of each file, by its path.
pub open spec fn file_hashes(d: Seq<(Seq<char>, Seq<u8>)>) -> Seq<(Seq<char>, Seq<char>)> {
    Seq::new(d.len(), |i: int| (d[i].0, fixed_hex(d[i].1)))
}

/// The truncated combined hash of the files.
pub open spec fn combined_hash(d: Seq<(Seq<char>, Seq<u8>)>) -> Seq<char> {
    fixed_hex(sha256(joined_digests(d, 0)))
}

/// Whether each digest of `d` has the length of a digest.
pub open spec fn digest_sized(d: Seq<(Seq<char>, Seq<u8>)>) -> bool {
    forall|j: int| 0 <= j < d.len() ==> (#[trigger] d[j]).1.len() == DIGEST_LENGTH
}

/// Whether each hash of `files` has sixteen digits.
pub open spec fn short_hashes(files: Seq<(Seq<char>, Seq<char>)>) -> bool {
    forall|j: int| 0 <= j < files.len() ==> (#[trigger] files[j]).1.len() == HASH_TRUNCATE_LENGTH
}

/// Whether the bytes of each tracked file among the entries have a digest
/// of the length of a digest.
pub open spec fn digests_sized(
    entries: Seq<(Seq<char>, ContentModel)>,
    patterns: Seq<Seq<char>>,
) -> bool {
    forall|i: int|
        0 <= i < entries.len() && hashed(#[trigger] entries[i], patterns) ==> sha256(
            entries[i].1->Bytes_0,
        ).len() == DIGEST_LENGTH
}

/// The hashes of a working directory.
#[derive(Debug)]
pub struct HashIndex {
    /// The truncated hash of each tracked file, by its path.
    pub files: Table,
    /// The truncated combined hash.
    pub combined: String,
}

/// The content of a list of digests by path.
pub open spec fn blobs(list: Seq<(String, Vec<u8>)>) -> Seq<(Seq<char>, Seq<u8>)> {
    Seq::new(list.len(), |i: int| (list[i].0@, list[i].1@))
}

/// Puts a digest at the place that the order of paths gives it.
fn insert_sorted(list: &mut Vec<(String, Vec<u8>)>, path: String, digest: Vec<u8>)
    ensures
        blobs(final(list)@) == sorted_put(blobs(old(list)@), path@, digest@),
{
    let wanted = chars_of(path.as_str());
    let ghost before = blobs(list@);
    let mut i: usize = 0;
    while i < list.len() && lex_less(chars_of(list[i].0.as_str()).as_slice(), wanted.as_slice())
        invariant
            i <= list.len(),
            wanted@ == path@,
            blobs(list@) == before,
            rank(before, path@, 0) == rank(before, path@, i as int),
        decreases list.len() - i,
    {
        i += 1;
    }
    if i < list.len() && list[i].0 == path {
        list[i] = (path, digest);
        assert(blobs(list@) =~= before.update(i as int, (path@, digest@)));
    } else {
        list.insert(i, (path, digest));
        assert(blobs(list@) =~= before.insert(i as int, (path@, digest@)));
    }
}

/// Hashes the tracked files among the entries of a working directory.
/// The entries may come in any order. A tracked file that could not be
/// read fails the scan.
pub fn hash_index(entries: &Vec<Source>, patterns: &Vec<Vec<char>>) -> (r: Result<
    HashIndex,
    ErrorKind,
>)
    ensures
        match r {
            Ok(index) => match digests_from(sources(entries@), seqs(patterns@), 0, Seq::empty()) {
                Some(d) => {
                    &&& index.files@ == file_hashes(d)
                    &&& index.combined@ == combined_hash(d)
                    &&& index.combined@.len() == HASH_TRUNCATE_LENGTH
                    &&& short_hashes(index.files@)
                    &&& digest_sized(d)
                    &&& digests_sized(sources(entries@), seqs(patterns@))
                },
                None => false,
            },
            Err(e) => e == ErrorKind::HashIOError && digests_from(
                sources(entries@),
                seqs(patterns@),
                0,
                Seq::empty(),
            ) is None,
        },
{
    let mut list: Vec<(String, Vec<u8>)> = Vec::new();
    assert(blobs(list@) =~= Seq::<(Seq<char>, Seq<u8>)>::empty());
    let mut i: usize = 0;
    while i < entries.len()
        invariant
            i <= entries.len(),
            sorted(blobs(list@)),
            forall|j: int| 0 <= j < list.len() ==> (#[trigger] list@[j]).1@.len() == 32,
            forall|j: int|
                0 <= j < i && hashed(#[trigger] sources(entries@)[j], seqs(patterns@)) ==> sha256(
                    sources(entries@)[j].1->Bytes_0,
                ).len() == DIGEST_LENGTH,
            digests_from(sources(entries@), seqs(patterns@), 0, Seq::empty()) == digests_from(
                sources(entries@),
                seqs(patterns@),
                i as int,
                blobs(list@),
            ),
        decreases entries.len() - i,
    {
        assert(sources(entries@)[i as int] == entries@[i as int]@);
        match &entries[i].content {
            Content::Directory => {},
            Content::Unreadable => {
                if is_tracked(entries[i].path.as_str(), patterns) {
                    return Err(ErrorKind::HashIOError);
                }
            },
            Content::Bytes(b) => {
                if is_tracked(entries[i].path.as_str(), patterns) {
                    let digest = sha256_digest(b.as_slice());
                    proof {
                        lemma_sorted_put_sorted(blobs(list@), entries[i as int].path@, digest@);
                        lemma_rank(blobs(list@), entries[i as int].path@, 0);
                    }
                    let ghost before = list@;
                    insert_sorted(&mut list, entries[i].path.clone(), digest);
                    assert forall|j: int| 0 <= j < list.len() implies (#[trigger] list@[j]).1@.len()
                        == 32 by {
                        let at = rank(blobs(before), entries[i as int].path@, 0);
                        assert(blobs(list@)[j].1 == list@[j].1@);
                        if j < at {
                            assert(blobs(list@)[j] == blobs(before)[j]);
                            assert(blobs(before)[j].1 == before[j].1@);
                        } else if j > at {
                            if blobs(list@).len() == blobs(before).len() {
                                assert(blobs(list@)[j] == blobs(before)[j]);
                                assert(blobs(before)[j].1 == before[j].1@);
                            } else {
                                assert(blobs(list@)[j] == blobs(before)[j - 1]);
                                assert(blobs(before)[j - 1].1 == before[j - 1].1@);
                            }
                        }
                    }
                }
            },
        }
        i += 1;
    }
    let ghost d = blobs(list@);
    let mut files = Table::new();
    let mut all: Vec<u8> = Vec::new();
    let mut j: usize = 0;
    assert(files@ =~= file_hashes(d).take(0));
    while j < list.len()
        invariant
            j <= list.len(),
            d == blobs(list@),
            sorted(d),
            forall|t: int| 0 <= t < list.len() ==> (#[trigger] list@[t]).1@.len() == 32,
            files@ == file_hashes(d).take(j as int),
            all@ + joined_digests(d, j as int) == joined_digests(d, 0),
        decreases list.len() - j,
    {
        let ghost before = all@;
        let digest = &list[j].1;
        assert(d[j as int] == (list@[j as int].0@, list@[j as int].1@));
        let mut t: usize = 0;
        while t < digest.len()
            invariant
                t <= digest.len(),
                all@ == before + digest@.take(t as int),
            decreases digest.len() - t,
        {
            all.push(digest[t]);
            t += 1;
            assert(all@ =~= before + digest@.take(t as int));
        }
        assert(digest@.take(digest.len() as int) =~= digest@);
        assert(all@ + joined_digests(d, j + 1) =~= before + joined_digests(d, j as int));
        proof {
            assert forall|t: int| 0 <= t < files@.len() implies crate::text::lex_lt(
                (#[trigger] files@[t]).0,
                d[j as int].0,
            ) by {
                assert(files@[t] == file_hashes(d)[t]);
                assert(d[t].0 == file_hashes(d)[t].0);
            }
            lemma_sorted_put_last(files@, d[j as int].0, fixed_hex(d[j as int].1));
        }
        files = files.insert(list[j].0.clone(), truncated_hex(digest.as_slice()));
        j += 1;
        assert(files@ =~= file_hashes(d).take(j as int));
    }
    assert(file_hashes(d).take(list.len() as int) =~= file_hashes(d));
    assert(all@ + Seq::<u8>::empty() =~= all@);
    assert forall|t: int| 0 <= t < d.len() implies (#[trigger] d[t]).1.len() == DIGEST_LENGTH by {
        assert(d[t].1 == list@[t].1@);
    }
    assert forall|t: int| 0 <= t < files@.len() implies (#[trigger] files@[t]).1.len()
        == HASH_TRUNCATE_LENGTH by {
        assert(files@[t].1 == fixed_hex(d[t].1));
        assert(d[t].1 == list@[t].1@);
    }
    let combined = content_hash(all.as_slice());
    Ok(HashIndex { files, combined })
}

/// Whether an entry is a tracked file with its bytes.
pub open spec fn hashed(e: (Seq<char>, ContentModel), patterns: Seq<Seq<char>>) -> bool {
    matches_any(e.0, patterns) && e.1 is Bytes
}

/// Whether an entry is a tracked file that could not be read.
pub open spec fn blocked(e: (Seq<char>, ContentModel), patterns: Seq<Seq<char>>) -> bool {
    matches_any(e.0, patterns) && e.1 is Unreadable
}

/// Whether every path occurs once among the entries.
pub open spec fn distinct_paths(entries: Seq<(Seq<char>, ContentModel)>) -> bool {
    forall|i: int, j: int|
        0 <= i < j < entries.len() ==> (#[trigger] entries[i]).0 != (#[trigger] entries[j]).0
}

/// What the scan of entries with distinct paths yields: it fails exactly
/// when a tracked file could not be read; else it holds, sorted by path,
/// the digest of each tracked file, and for any other path what it held
/// before.
pub proof fn lemma_digests(
    entries: Seq<(Seq<char>, ContentModel)>,
    patterns: Seq<Seq<char>>,
    i: int,
    acc: Seq<(Seq<char>, Seq<u8>)>,
)
    requires
        0 <= i <= entries.len(),
        sorted(acc),
        distinct_paths(entries),
    ensures
        digests_from(entries, patterns, i, acc) is None <==> exists|j: int|
            i <= j < entries.len() && blocked(#[trigger] entries[j], patterns),
        digests_from(entries, patterns, i, acc) is Some ==> {
            let d = digests_from(entries, patterns, i, acc)->0;
            &&& sorted(d)
            &&& forall|j: int|
                i <= j < entries.len() && hashed(#[trigger] entries[j], patterns) ==> get(
                    d,
                    entries[j].0,
                ) == Some(sha256(entries[j].1->Bytes_0))
            &&& forall|k: Seq<char>|
                (forall|j: int|
                    i <= j < entries.len() ==> !((#[trigger] entries[j]).0 == k && hashed(
                        entries[j],
                        patterns,
                    ))) ==> #[trigger] get(d, k) == get(acc, k)
        },
    decreases entries.len() - i,
{
    if i < entries.len() {
        let e = entries[i];
        if hashed(e, patterns) {
            let next = sorted_put(acc, e.0, sha256(e.1->Bytes_0));
            lemma_sorted_put_sorted(acc, e.0, sha256(e.1->Bytes_0));
            lemma_digests(entries, patterns, i + 1, next);
            let r = digests_from(entries, patterns, i, acc);
            assert(r == digests_from(entries, patterns, i + 1, next));
            if r is Some {
                let d = r->0;
                assert forall|j: int|
                    i <= j < entries.len() && hashed(#[trigger] entries[j], patterns) implies get(
                    d,
                    entries[j].0,
                ) == Some(sha256(entries[j].1->Bytes_0)) by {
                    if j == i {
                        assert forall|t: int| i + 1 <= t < entries.len() implies !((
                        #[trigger] entries[t]).0 == e.0 && hashed(entries[t], patterns)) by {
                            assert(entries[i].0 != entries[t].0);
                        }
                        assert(get(d, e.0) == get(next, e.0));
                        lemma_sorted_put_get(acc, e.0, sha256(e.1->Bytes_0), e.0);
                    }
                }
                assert forall|k: Seq<char>|
                    (forall|j: int|
                        i <= j < entries.len() ==> !((#[trigger] entries[j]).0 == k && hashed(
                            entries[j],
                            patterns,
                        ))) implies #[trigger] get(d, k) == get(acc, k) by {
                    assert(!(entries[i].0 == k && hashed(entries[i], patterns)));
                    assert forall|j: int| i + 1 <= j < entries.len() implies !((
                    #[trigger] entries[j]).0 == k && hashed(entries[j], patterns)) by {}
                    assert(get(d, k) == get(next, k));
                    lemma_sorted_put_get(acc, e.0, sha256(e.1->Bytes_0), k);
                }
            }
            assert(!blocked(e, patterns));
            if exists|j: int| i <= j < entries.len() && blocked(#[trigger] entries[j], patterns) {
                let j = choose|j: int|
                    i <= j < entries.len() && blocked(#[trigger] entries[j], patterns);
                assert(i + 1 <= j < entries.len() && blocked(entries[j], patterns));
            }
        } else if blocked(e, patterns) {
            assert(i <= i < entries.len() && blocked(entries[i], patterns));
        } else {
            lemma_digests(entries, patterns, i + 1, acc);
            let r = digests_from(entries, patterns, i, acc);
            assert(r == digests_from(entries, patterns, i + 1, acc));
            if r is Some {
                let d = r->0;
                assert forall|k: Seq<char>|
                    (forall|j: int|
                        i <= j < entries.len() ==> !((#[trigger] entries[j]).0 == k && hashed(
                            entries[j],
                            patterns,
                        ))) implies #[trigger] get(d, k) == get(acc, k) by {
                    assert forall|j: int| i + 1 <= j < entries.len() implies !((
                    #[trigger] entries[j]).0 == k && hashed(entries[j], patterns)) by {}
                }
            }
            if exists|j: int| i <= j < entries.len() && blocked(#[trigger] entries[j], patterns) {
                let j = choose|j: int|
                    i <= j < entries.len() && blocked(#[trigger] entries[j], patterns);
                assert(i + 1 <= j < entries.len() && blocked(entries[j], patterns));
            }
        }
    }
}

/// The hashes of a working directory do not depend on the order in which
/// its entries are listed: two listings of the same entries, each path
/// once, yield the same digests, and so the same file hashes and the same
/// combined hash.
pub proof fn lemma_order_does_not_matter(
    a: Seq<(Seq<char>, ContentModel)>,
    b: Seq<(Seq<char>, ContentModel)>,
    patterns: Seq<Seq<char>>,
)
    requires
        distinct_paths(a),
        distinct_paths(b),
        forall|i: int| 0 <= i < a.len() ==> b.contains(#[trigger] a[i]),
        forall|j: int| 0 <= j < b.len() ==> a.contains(#[trigger] b[j]),
    ensures
        digests_from(a, patterns, 0, Seq::empty()) == digests_from(b, patterns, 0, Seq::empty()),
{
    let none = Seq::<(Seq<char>, Seq<u8>)>::empty();
    let ra = digests_from(a, patterns, 0, none);
    let rb = digests_from(b, patterns, 0, none);
    lemma_digests(a, patterns, 0, none);
    lemma_digests(b, patterns, 0, none);
    if ra is None {
        let j = choose|j: int| 0 <= j < a.len() && blocked(#[trigger] a[j], patterns);
        assert(b.contains(a[j]));
        let t = choose|t: int| 0 <= t < b.len() && b[t] == a[j];
        assert(blocked(b[t], patterns));
    }
    if rb is None {
        let j = choose|j: int| 0 <= j < b.len() && blocked(#[trigger] b[j], patterns);
        assert(a.contains(b[j]));
        let t = choose|t: int| 0 <= t < a.len() && a[t] == b[j];
        assert(blocked(a[t], patterns));
    }
    if ra is Some && rb is Some {
        let da = ra->0;
        let db = rb->0;
        assert forall|k: Seq<char>| get(da, k) == get(db, k) by {
            if exists|j: int| 0 <= j < a.len() && (#[trigger] a[j]).0 == k && hashed(a[j], patterns) {
                let j = choose|j: int|
                    0 <= j < a.len() && (#[trigger] a[j]).0 == k && hashed(a[j], patterns);
                assert(b.contains(a[j]));
                let t = choose|t: int| 0 <= t < b.len() && b[t] == a[j];
                assert(hashed(b[t], patterns));
                assert(get(da, a[j].0) == Some(sha256(a[j].1->Bytes_0)));
                assert(get(db, b[t].0) == Some(sha256(b[t].1->Bytes_0)));
            } else {
                assert forall|t: int| 0 <= t < b.len() implies !((#[trigger] b[t]).0 == k
                    && hashed(b[t], patterns)) by {
                    if b[t].0 == k && hashed(b[t], patterns) {
                        assert(a.contains(b[t]));
                        let j = choose|j: int| 0 <= j < a.len() && a[j] == b[t];
                        assert(a[j].0 == k && hashed(a[j], patterns));
                    }
                }
                assert(get(da, k) == get(none, k));
                assert(get(db, k) == get(none, k));
            }
        }
        lemma_sorted_equal(da, db);
    }
}

/// Joined digests of equal lengths differ as soon as one digest differs.
pub proof fn lemma_joined_digests_differ(
    a: Seq<(Seq<char>, Seq<u8>)>,
    b: Seq<(Seq<char>, Seq<u8>)>,
    i: int,
    k: int,
)
    requires
        a.len() == b.len(),
        0 <= i <= k < a.len(),
        forall|j: int| 0 <= j < a.len() ==> (#[trigger] a[j]).1.len() == b[j].1.len(),
        a[k].1 != b[k].1,
    ensures
        joined_digests(a, i) != joined_digests(b, i),
    decreases k - i,
{
    let x = a[i].1;
    let y = b[i].1;
    let ta = joined_digests(a, i + 1);
    let tb = joined_digests(b, i + 1);
    assert(x.len() == y.len());
    if i < k {
        lemma_joined_digests_differ(a, b, i + 1, k);
        if x + ta == y + tb {
            assert((x + ta).subrange(x.len() as int, (x + ta).len() as int) =~= ta);
            assert((y + tb).subrange(y.len() as int, (y + tb).len() as int) =~= tb);
        }
    } else {
        if x + ta == y + tb {
            assert((x + ta).subrange(0, x.len() as int) =~= x);
            assert((y + tb).subrange(0, y.len() as int) =~= y);
        }
    }
}

/// Changing the bytes of one tracked file changes what the combined hash
/// is taken of, where the digest tells the old bytes from the new. The
/// combined hash then changes too, unless two different inputs share the
/// sixteen digits of their hash: the risk that the short id accepts.
pub proof fn lemma_single_change_is_seen(
    a: Seq<(Seq<char>, ContentModel)>,
    b: Seq<(Seq<char>, ContentModel)>,
    patterns: Seq<Seq<char>>,
    k: int,
)
    requires
        distinct_paths(a),
        a.len() == b.len(),
        0 <= k < a.len(),
        forall|i: int| 0 <= i < a.len() ==> (#[trigger] a[i]).0 == b[i].0,
        forall|i: int| 0 <= i < a.len() && i != k ==> (#[trigger] a[i]).1 == b[i].1,
        hashed(a[k], patterns),
        b[k].1 is Bytes,
        sha256(a[k].1->Bytes_0) != sha256(b[k].1->Bytes_0),
        digests_sized(a, patterns),
        digests_sized(b, patterns),
        digests_from(a, patterns, 0, Seq::empty()) is Some,
    ensures
        digests_from(b, patterns, 0, Seq::empty()) is Some,
        joined_digests(digests_from(a, patterns, 0, Seq::empty())->0, 0) != joined_digests(
            digests_from(b, patterns, 0, Seq::empty())->0,
            0,
        ),
        (forall|x: Seq<u8>, y: Seq<u8>|
            fixed_hex(#[trigger] sha256(x)) == fixed_hex(#[trigger] sha256(y)) ==> x == y)
            ==> combined_hash(digests_from(a, patterns, 0, Seq::empty())->0) != combined_hash(
            digests_from(b, patterns, 0, Seq::empty())->0,
        ),
{
    let none = Seq::<(Seq<char>, Seq<u8>)>::empty();
    assert forall|i: int, j: int| 0 <= i < j < b.len() implies (#[trigger] b[i]).0 != (
    #[trigger] b[j]).0 by {
        assert(a[i].0 == b[i].0 && a[j].0 == b[j].0);
    }
    lemma_digests(a, patterns, 0, none);
    lemma_digests(b, patterns, 0, none);
    assert forall|j: int| 0 <= j < b.len() implies !blocked(#[trigger] b[j], patterns) by {
        if j != k {
            assert(a[j].0 == b[j].0 && a[j].1 == b[j].1);
            assert(!blocked(a[j], patterns));
        }
    }
    let da = digests_from(a, patterns, 0, none)->0;
    let db = digests_from(b, patterns, 0, none)->0;
    assert forall|j: int| 0 <= j < a.len() implies hashed(#[trigger] a[j], patterns) == hashed(
        b[j],
        patterns,
    ) by {
        assert(a[j].0 == b[j].0);
        if j != k {
            assert(a[j].1 == b[j].1);
        }
    }
    assert forall|key: Seq<char>| has_key(da, key) <==> has_key(db, key) by {
        if exists|j: int| 0 <= j < a.len() && (#[trigger] a[j]).0 == key && hashed(a[j], patterns) {
            let j = choose|j: int|
                0 <= j < a.len() && (#[trigger] a[j]).0 == key && hashed(a[j], patterns);
            assert(hashed(b[j], patterns) && b[j].0 == key);
            assert(get(da, a[j].0) is Some);
            assert(get(db, b[j].0) is Some);
        } else {
            assert forall|j: int| 0 <= j < b.len() implies !((#[trigger] b[j]).0 == key && hashed(
                b[j],
                patterns,
            )) by {
                assert(a[j].0 == b[j].0);
                assert(hashed(a[j], patterns) == hashed(b[j], patterns));
            }
            assert(get(da, key) == get(none, key));
            assert(get(db, key) == get(none, key));
        }
    }
    lemma_sorted_same_keys(da, db);
    lemma_sorted_distinct(da);
    lemma_sorted_distinct(db);
    assert(get(da, a[k].0) == Some(sha256(a[k].1->Bytes_0)));
    assert(hashed(b[k], patterns));
    assert(get(db, b[k].0) == Some(sha256(b[k].1->Bytes_0)));
    lemma_has_key(da, a[k].0);
    let at = choose|t: int| 0 <= t < da.len() && (#[trigger] da[t]).0 == a[k].0;
    lemma_key_index_at(da, at);
    lemma_key_index_at(db, at);
    assert(da[at].1 != db[at].1);
    assert forall|j: int| 0 <= j < da.len() implies (#[trigger] da[j]).1.len() == db[j].1.len() by {
        lemma_key_index_at(da, j);
        lemma_key_index_at(db, j);
        let key = da[j].0;
        if exists|t: int| 0 <= t < a.len() && (#[trigger] a[t]).0 == key && hashed(a[t], patterns) {
            let t = choose|t: int|
                0 <= t < a.len() && (#[trigger] a[t]).0 == key && hashed(a[t], patterns);
            assert(get(da, a[t].0) == Some(sha256(a[t].1->Bytes_0)));
            assert(hashed(b[t], patterns) && b[t].0 == key);
            assert(get(db, b[t].0) == Some(sha256(b[t].1->Bytes_0)));
            if t != k {
                assert(a[t].1 == b[t].1);
            }
        } else {
            assert(get(da, key) == get(none, key));
        }
    }
    lemma_joined_digests_differ(da, db, 0, at);
}

/// The short hash of a path is the short form of its digest.
pub proof fn lemma_file_hashes_get(d: Seq<(Seq<char>, Seq<u8>)>, path: Seq<char>, i: int)
    requires
        0 <= i,
    ensures
        key_index(file_hashes(d), path, i) == key_index(d, path, i),
        i == 0 ==> get(file_hashes(d), path) == match get(d, path) {
            Some(digest) => Some(fixed_hex(digest)),
            None => None,
        },
    decreases d.len() - i,
{
    if i < d.len() {
        assert(file_hashes(d)[i].0 == d[i].0);
        if d[i].0 != path {
            lemma_file_hashes_get(d, path, i + 1);
        }
    }
    if i == 0 {
        crate::assoc::lemma_key_index(d, path, 0);
    }
}

/// Changing the bytes of one tracked file gives that file another short
/// hash and the directory another combined hash, and leaves the short hash
/// of every other file as it was, unless the old and the new bytes, or the
/// old and the new joined digests, share the sixteen digits of their hash.
pub proof fn lemma_changed_file_changes_hashes(
    a: Seq<(Seq<char>, ContentModel)>,
    b: Seq<(Seq<char>, ContentModel)>,
    patterns: Seq<Seq<char>>,
    k: int,
)
    requires
        distinct_paths(a),
        a.len() == b.len(),
        0 <= k < a.len(),
        forall|i: int| 0 <= i < a.len() ==> (#[trigger] a[i]).0 == b[i].0,
        forall|i: int| 0 <= i < a.len() && i != k ==> (#[trigger] a[i]).1 == b[i].1,
        hashed(a[k], patterns),
        b[k].1 is Bytes,
        digests_sized(a, patterns),
        digests_sized(b, patterns),
        digests_from(a, patterns, 0, Seq::empty()) is Some,
        fixed_hex(sha256(a[k].1->Bytes_0)) != fixed_hex(sha256(b[k].1->Bytes_0)),
        joined_digests(digests_from(a, patterns, 0, Seq::empty())->0, 0) != joined_digests(
            digests_from(b, patterns, 0, Seq::empty())->0,
            0,
        ) ==> combined_hash(digests_from(a, patterns, 0, Seq::empty())->0) != combined_hash(
            digests_from(b, patterns, 0, Seq::empty())->0,
        ),
    ensures
        digests_from(b, patterns, 0, Seq::empty()) is Some,
        combined_hash(digests_from(a, patterns, 0, Seq::empty())->0) != combined_hash(
            digests_from(b, patterns, 0, Seq::empty())->0,
        ),
        get(file_hashes(digests_from(a, patterns, 0, Seq::empty())->0), a[k].0) != get(
            file_hashes(digests_from(b, patterns, 0, Seq::empty())->0),
            a[k].0,
        ),
        forall|path: Seq<char>|
            path != a[k].0 ==> #[trigger] get(
                file_hashes(digests_from(a, patterns, 0, Seq::empty())->0),
                path,
            ) == get(file_hashes(digests_from(b, patterns, 0, Seq::empty())->0), path),
{
    let none = Seq::<(Seq<char>, Seq<u8>)>::empty();
    lemma_single_change_is_seen(a, b, patterns, k);
    assert forall|i: int, j: int| 0 <= i < j < b.len() implies (#[trigger] b[i]).0 != (
    #[trigger] b[j]).0 by {
        assert(a[i].0 == b[i].0 && a[j].0 == b[j].0);
    }
    lemma_digests(a, patterns, 0, none);
    lemma_digests(b, patterns, 0, none);
    let da = digests_from(a, patterns, 0, none)->0;
    let db = digests_from(b, patterns, 0, none)->0;
    assert(a[k].0 == b[k].0);
    assert(hashed(b[k], patterns));
    assert(get(da, a[k].0) == Some(sha256(a[k].1->Bytes_0)));
    assert(get(db, b[k].0) == Some(sha256(b[k].1->Bytes_0)));
    lemma_file_hashes_get(da, a[k].0, 0);
    lemma_file_hashes_get(db, a[k].0, 0);
    assert forall|path: Seq<char>| path != a[k].0 implies #[trigger] get(file_hashes(da), path)
        == get(file_hashes(db), path) by {
        lemma_file_hashes_get(da, path, 0);
        lemma_file_hashes_get(db, path, 0);
        if exists|j: int| 0 <= j < a.len() && (#[trigger] a[j]).0 == path && hashed(a[j], patterns) {
            let j = choose|j: int|
                0 <= j < a.len() && (#[trigger] a[j]).0 == path && hashed(a[j], patterns);
            assert(j != k);
            assert(a[j].0 == b[j].0 && a[j].1 == b[j].1);
            assert(hashed(b[j], patterns));
            assert(get(da, a[j].0) == Some(sha256(a[j].1->Bytes_0)));
            assert(get(db, b[j].0) == Some(sha256(b[j].1->Bytes_0)));
        } else {
            assert forall|j: int| 0 <= j < b.len() implies !((#[trigger] b[j]).0 == path && hashed(
                b[j],
                patterns,
            )) by {
                assert(a[j].0 == b[j].0);
                if j != k {
                    assert(a[j].1 == b[j].1);
                }
            }
            assert(get(da, path) == get(none, path));
            assert(get(db, path) == get(none, path));
        }
    }
}

} // verus!
