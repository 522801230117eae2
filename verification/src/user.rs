//! The client: what it tracks, what it stages and what it asks of the
//! server.
//!
//! A run scans the working directory, compares the hashes with the
//! revision record, asks the server whether it holds the recorded
//! revision, and uploads a new revision where there is one. The new record
//! is staged first and replaces the record on disk only after the server
//! has accepted the upload.

use vstd::prelude::*;
use crate::archive::{entry_models, gunzip, pack, staged_entries, tar_image, ArchiveEntry};
use crate::assoc::get;
use crate::config::{client_options, options_of, read_options};
use crate::connection::{find_header, header_models, missing_name};
use crate::error::ErrorKind;
use crate::hashing::{
    combined_hash, digests_from, digests_sized, file_hashes, hash_index, short_hashes, sources,
    Source, HASH_TRUNCATE_LENGTH,
};
use crate::record::{record_of, render, root_parent, RecordModel, RevisionRecord};
use crate::table::Table;
use crate::text::{before_colon, chars_of, concat, head_before_colon, parts, seqs, split_commas};

verus! {

/// A service of the server.
#[derive(Clone, Copy, Debug, PartialEq, Eq, Structural)]
pub enum Endpoint {
    /// Provisions credentials.
    Register,
    /// Takes an archive.
    Upload,
    /// Sweeps the files that no record names.
    Cleanup,
    /// Tells whether a revision id is in the store.
    IdCheck,
    /// Sends the latest archive of a collection.
    Update,
}

/// The path of a service.
pub open spec fn endpoint_path(e: Endpoint) -> Seq<char> {
    match e {
        Endpoint::Register => "/register"@,
        Endpoint::Upload => "/upload"@,
        Endpoint::Cleanup => "/cleanup"@,
        Endpoint::IdCheck => "/check"@,
        Endpoint::Update => "/update"@,
    }
}

impl Endpoint {
    /// The path of the service.
    pub fn path(&self) -> (r: &'static str)
        ensures
            r@ == endpoint_path(*self),
    {
        match self {
            Endpoint::Register => "/register",
            Endpoint::Upload => "/upload",
            Endpoint::Cleanup => "/cleanup",
            Endpoint::IdCheck => "/check",
            Endpoint::Update => "/update",
        }
    }

    /// Whether the service is for the administrator.
    pub fn for_admin(&self) -> (r: bool)
        ensures
            r == (*self == Endpoint::Register || *self == Endpoint::Cleanup),
    {
        match self {
            Endpoint::Register => true,
            Endpoint::Cleanup => true,
            _ => false,
        }
    }
}

/// A request to the server.
#[derive(Debug)]
pub struct Request {
    /// Where the request goes.
    pub uri: String,
    /// The headers, in the order in which they are set.
    pub headers: Vec<(String, String)>,
    /// The body.
    pub body: Vec<u8>,
}

/// The answer of the server.
#[derive(Debug)]
pub struct Response {
    /// The status code.
    pub status: u16,
    /// The headers.
    pub headers: Vec<(String, String)>,
    /// The body.
    pub body: Vec<u8>,
}

/// The status code of success.
pub const STATUS_OK: u16 = 200;

/// The mathematical content of a [`Request`].
pub struct RequestModel {
    pub uri: Seq<char>,
    pub headers: Seq<(Seq<char>, Seq<char>)>,
    pub body: Seq<u8>,
}

impl View for Request {
    type V = RequestModel;

    open spec fn view(&self) -> RequestModel {
        RequestModel { uri: self.uri@, headers: header_models(self.headers@), body: self.body@ }
    }
}

/// What the client does after the server has answered the check.
#[derive(Clone, Copy, Debug, PartialEq, Eq, Structural)]
pub enum Step {
    /// The server holds the recorded revision and nothing has changed:
    /// there is nothing to upload.
    Reuse,
    /// The server holds the recorded revision and files have changed: a
    /// new record is staged with the recorded revision as its parent, and
    /// uploaded.
    StageAndUpload,
    /// The server does not hold the recorded revision: it is uploaded as
    /// it is recorded.
    Upload,
}

/// What the client does after the check: it fails where the server does
/// not hold the recorded revision although that revision has a parent,
/// unless the upload is forced.
pub open spec fn step_of(
    upload_name: Seq<char>,
    needs_update: bool,
    parent_id: Seq<char>,
    force: bool,
) -> Result<Step, ErrorKind> {
    if upload_name != missing_name() {
        if needs_update {
            Ok(Step::StageAndUpload)
        } else {
            Ok(Step::Reuse)
        }
    } else if parent_id != root_parent() && !force {
        Err(ErrorKind::LineageError)
    } else {
        Ok(Step::Upload)
    }
}

/// Decides what the client does after the check.
pub fn next_step(upload_name: &str, needs_update: bool, parent_id: &str, force: bool) -> (r:
    Result<Step, ErrorKind>)
    ensures
        r == step_of(upload_name@, needs_update, parent_id@, force),
{
    let root = "*".to_string();
    proof {
        reveal_strlit("*");
        assert(root@ =~= root_parent());
    }
    if upload_name.to_string() != "DNE".to_string() {
        if needs_update {
            Ok(Step::StageAndUpload)
        } else {
            Ok(Step::Reuse)
        }
    } else if parent_id.to_string() != root && !force {
        Err(ErrorKind::LineageError)
    } else {
        Ok(Step::Upload)
    }
}

/// Whether the hashes `current` of the working directory differ from the
/// recorded ones from position `i` on: whether a file has another hash in
/// the record, or none.
pub open spec fn differs_from(
    current: Seq<(Seq<char>, Seq<char>)>,
    recorded: Seq<(Seq<char>, Seq<char>)>,
    i: int,
) -> bool
    decreases current.len() - i,
{
    if i < 0 || i >= current.len() {
        false
    } else {
        get(recorded, current[i].0) != Some(current[i].1) || differs_from(
            current,
            recorded,
            i + 1,
        )
    }
}

/// Whether the working directory has diverged from the record: where
/// there is no record yet, where the id is another, or where a file has
/// another hash in the record, or none.
pub open spec fn diverged_from(
    id: Seq<char>,
    current: Seq<(Seq<char>, Seq<char>)>,
    record: Option<RecordModel>,
) -> bool {
    match record {
        None => true,
        Some(r) => r.id != id || differs_from(current, r.files, 0),
    }
}

/// The hashes differ exactly when some file has another hash in the
/// record, or none.
pub proof fn lemma_differs(
    current: Seq<(Seq<char>, Seq<char>)>,
    recorded: Seq<(Seq<char>, Seq<char>)>,
    i: int,
)
    requires
        0 <= i,
    ensures
        differs_from(current, recorded, i) <==> exists|j: int|
            i <= j < current.len() && get(recorded, (#[trigger] current[j]).0) != Some(
                current[j].1,
            ),
    decreases current.len() - i,
{
    if i < current.len() {
        lemma_differs(current, recorded, i + 1);
        if get(recorded, current[i].0) != Some(current[i].1) {
            assert(i <= i < current.len() && get(recorded, current[i].0) != Some(current[i].1));
        }
    }
}

/// Tells whether the working directory has diverged from the record.
pub fn diverged(id: &String, current: &Table, record: &Option<RevisionRecord>) -> (r: bool)
    ensures
        r == diverged_from(
            id@,
            current@,
            match record {
                Some(rec) => Some(rec@),
                None => None,
            },
        ),
{
    let recorded = match record {
        None => {
            return true;
        },
        Some(rec) => rec,
    };
    if recorded.id != *id {
        return true;
    }
    let n = current.len();
    let mut i: usize = 0;
    while i < n
        invariant
            i <= n,
            n == current@.len(),
            record is Some,
            record->0.id@ == id@,
            record->0.files@ == recorded.files@,
            differs_from(current@, recorded.files@, 0) == differs_from(
                current@,
                recorded.files@,
                i as int,
            ),
        decreases n - i,
    {
        let same = match recorded.files.get(current.key(i)) {
            Some(hash) => *hash == *current.value(i),
            None => false,
        };
        if !same {
            return true;
        }
        i += 1;
    }
    false
}

/// The arguments that name the input, from position `i` on: each argument
/// that follows `-in` or `-c`, a later one before an earlier one.
pub open spec fn input_from(args: Seq<Seq<char>>, i: int) -> Seq<char>
    decreases args.len() - i,
{
    if i < 1 || i >= args.len() {
        Seq::empty()
    } else if args[i - 1] == "-in"@ || args[i - 1] == "-c"@ {
        input_from(args, i + 1) + args[i]
    } else {
        input_from(args, i + 1)
    }
}

/// The command line that is run: each argument with a space behind it.
pub open spec fn command_line(args: Seq<Seq<char>>, i: int) -> Seq<char>
    decreases args.len() - i,
{
    if i < 0 || i >= args.len() {
        Seq::empty()
    } else {
        args[i] + seq![' '] + command_line(args, i + 1)
    }
}

/// Finds the input among the arguments.
pub fn input_path(args: &Vec<String>) -> (r: String)
    ensures
        r@ == input_from(crate::text::strs(args@), 1),
{
    let flag_in = "-in".to_string();
    let flag_c = "-c".to_string();
    let mut found = String::new();
    let mut i: usize = 1;
    assert(found@ =~= Seq::<char>::empty());
    if args.len() < 2 {
        return found;
    }
    while i < args.len()
        invariant
            1 <= i <= args.len(),
            flag_in@ == "-in"@,
            flag_c@ == "-c"@,
            input_from(crate::text::strs(args@), 1) == input_from(crate::text::strs(args@), i as int)
                + found@,
        decreases args.len() - i,
    {
        let ghost all = crate::text::strs(args@);
        assert(all[i - 1] == args@[i - 1]@ && all[i as int] == args@[i as int]@);
        if args[i - 1] == flag_in || args[i - 1] == flag_c {
            let ghost before = found@;
            found = concat(args[i].as_str(), found.as_str());
            assert(input_from(all, i + 1) + (all[i as int] + before) =~= input_from(all, i as int)
                + before);
        }
        i += 1;
    }
    assert(Seq::<char>::empty() + found@ =~= found@);
    found
}

/// Joins the arguments into the command line that is run.
pub fn join_command(args: &Vec<String>) -> (r: String)
    ensures
        r@ == command_line(crate::text::strs(args@), 0),
{
    let mut out: Vec<char> = Vec::new();
    let mut i: usize = 0;
    while i < args.len()
        invariant
            i <= args.len(),
            out@ + command_line(crate::text::strs(args@), i as int) == command_line(
                crate::text::strs(args@),
                0,
            ),
        decreases args.len() - i,
    {
        let ghost before = out@;
        let ghost all = crate::text::strs(args@);
        assert(all[i as int] == args@[i as int]@);
        let mut word = chars_of(args[i].as_str());
        out.append(&mut word);
        out.push(' ');
        assert(out@ + command_line(all, i + 1) =~= before + command_line(all, i as int));
        i += 1;
    }
    assert(out@ + Seq::<char>::empty() =~= out@);
    crate::text::string_of(out.as_slice())
}

/// The state of the client.
#[derive(Debug)]
pub struct User {
    /// The id of the user on this machine.
    pub user_id: u32,
    /// The options of the client.
    pub db_table: Table,
    /// The password of the administrator, while one is needed.
    pub admin_password: String,
    /// The shared secret of this user.
    pub key: String,
    /// The command that is run.
    pub cmd_string: String,
    /// The input file or directory.
    pub input_file_path: String,
    /// The id of the working directory as it is.
    pub curr_id: String,
    /// The hashes of the working directory as it is.
    pub curr_file_hashes: Table,
    /// The revision record, once there is one.
    pub record_file_hashes: Option<RevisionRecord>,
    /// Whether the working directory has diverged from the record.
    pub needs_update: bool,
    /// The name under which the upload is stored.
    pub filename: Option<String>,
    /// The collection.
    pub collection_name: String,
    /// The compressed archive, once it is packed.
    pub compressed_dir: Option<Vec<u8>>,
    /// The id of the recorded revision.
    pub record_file_hash: Option<String>,
    /// The staged record: the text that replaces the record on disk once
    /// the server has accepted the upload.
    pub potential_rev_file: Option<String>,
}

/// The password that goes with a request.
pub open spec fn password_for(e: Endpoint, admin: Seq<char>, key: Seq<char>) -> Seq<char> {
    if e == Endpoint::Register || e == Endpoint::Cleanup {
        admin
    } else {
        key
    }
}

/// The address of a service.
pub open spec fn uri_of(server: Seq<char>, e: Endpoint) -> Seq<char> {
    "https://"@ + server + endpoint_path(e)
}

/// The request that the client sends to a service, or `None` where the
/// client lacks something that the request carries: the server or the
/// user name, the recorded id for a check, the name or the archive for an
/// upload.
pub open spec fn request_of(u: User, e: Endpoint) -> Option<RequestModel> {
    match (get(u.db_table@, "Server"@), get(u.db_table@, "Username"@)) {
        (Some(server), Some(name)) => {
            let uri = uri_of(server, e);
            let base = seq![
                ("password"@, password_for(e, u.admin_password@, u.key@)),
                ("username"@, name),
            ];
            let scoped = base.push(("collection"@, u.collection_name@));
            match e {
                Endpoint::Register => Some(RequestModel { uri, headers: base, body: Seq::empty() }),
                Endpoint::Cleanup => Some(RequestModel { uri, headers: base, body: Seq::empty() }),
                Endpoint::Update => Some(
                    RequestModel { uri, headers: scoped, body: Seq::empty() },
                ),
                Endpoint::IdCheck => match u.record_file_hash {
                    Some(id) => Some(
                        RequestModel {
                            uri,
                            headers: scoped.push(("filehash"@, id@)),
                            body: Seq::empty(),
                        },
                    ),
                    None => None,
                },
                Endpoint::Upload => match (u.filename, u.compressed_dir) {
                    (Some(filename), Some(archive)) => Some(
                        RequestModel {
                            uri,
                            headers: scoped.push(("filename"@, filename@)).push(
                                ("filehash"@, u.curr_id@),
                            ),
                            body: archive@,
                        },
                    ),
                    _ => None,
                },
            }
        },
        _ => None,
    }
}

/// The name that the answer to a check gives: the header `upload_name` of
/// an answer of success. Any other answer is a failure of the protocol.
pub open spec fn checked_name(status: u16, headers: Seq<(Seq<char>, Seq<char>)>) -> Result<
    Seq<char>,
    ErrorKind,
> {
    if status == STATUS_OK {
        match get(headers, "upload_name"@) {
            Some(name) => Ok(name),
            None => Err(ErrorKind::ProtocolError),
        }
    } else {
        Err(ErrorKind::ProtocolError)
    }
}

/// The id of a revision: the collection, a colon and the combined hash of
/// sixteen hexadecimal digits.
pub open spec fn revision_id(collection: Seq<char>, combined: Seq<char>) -> Seq<char> {
    collection + seq![':'] + combined
}

/// Ids of one collection differ where their combined hashes differ.
pub proof fn lemma_revision_ids_differ(collection: Seq<char>, x: Seq<char>, y: Seq<char>)
    requires
        x != y,
    ensures
        revision_id(collection, x) != revision_id(collection, y),
{
    let a = revision_id(collection, x);
    let b = revision_id(collection, y);
    let n = collection.len() + 1;
    if a == b {
        assert(a.subrange(n as int, a.len() as int) =~= x);
        assert(b.subrange(n as int, b.len() as int) =~= y);
    }
}

/// A working directory whose id is another than the recorded one has
/// diverged from the record.
pub proof fn lemma_new_id_diverges(
    id: Seq<char>,
    current: Seq<(Seq<char>, Seq<char>)>,
    record: RecordModel,
)
    requires
        record.id != id,
    ensures
        diverged_from(id, current, Some(record)),
{
}

/// The collection of a run: the one that was given; else the one of the
/// recorded revision. A record that cannot be read is an error, and so is
/// a run that has neither a record nor a collection.
pub open spec fn collection_for(rev: Option<Seq<char>>, given: Seq<char>) -> Result<
    Seq<char>,
    ErrorKind,
> {
    match rev {
        Some(text) => match record_of(text) {
            Some(rec) => Ok(
                if given.len() == 0 {
                    before_colon(rec.id)
                } else {
                    given
                },
            ),
            None => Err(ErrorKind::ExtractionError),
        },
        None => if given.len() == 0 {
            Err(ErrorKind::PathError)
        } else {
            Ok(given)
        },
    }
}

/// The key that the answer to a registration gives: the header `key` of
/// an answer of success.
pub open spec fn registered_key(status: u16, headers: Seq<(Seq<char>, Seq<char>)>) -> Option<
    Seq<char>,
> {
    if status == STATUS_OK {
        get(headers, "key"@)
    } else {
        None
    }
}

/// The line of the credentials file that holds the key of a server: the
/// host of the server, a colon between spaces, the key and a line feed.
pub open spec fn credential_line(server: Seq<char>, key: Seq<char>) -> Seq<char> {
    before_colon(server) + crate::record::separator() + key + seq!['\n']
}

/// The key that the lines of a credentials file from position `i` on hold
/// for `host`, or `found` where they hold none: the last token of the last
/// line whose first token is the host and that has a second token.
pub open spec fn key_from(text: Seq<Seq<char>>, host: Seq<char>, i: int, found: Option<Seq<char>>)
    -> Option<Seq<char>>
    decreases text.len() - i,
{
    if i < 0 || i >= text.len() {
        found
    } else {
        let toks = crate::text::tokens(text[i]);
        if toks.len() >= 2 && toks[0] == host {
            key_from(text, host, i + 1, Some(toks.last()))
        } else {
            key_from(text, host, i + 1, found)
        }
    }
}

/// The key that a credentials file holds for the host of `server`.
pub open spec fn stored_key(text: Seq<char>, server: Seq<char>) -> Option<Seq<char>> {
    key_from(crate::text::lines(text), before_colon(server), 0, None)
}

/// Looks up the key of a server in the text of a credentials file.
pub fn find_key(text: &str, server: &str) -> (r: Option<String>)
    ensures
        match r {
            Some(key) => stored_key(text@, server@) == Some(key@),
            None => stored_key(text@, server@) is None,
        },
{
    let host = chars_of(head_before_colon(server).as_str());
    let content = chars_of(text);
    let all = crate::text::split_lines(content.as_slice());
    let mut found: Option<String> = None;
    let mut i: usize = 0;
    while i < all.len()
        invariant
            i <= all.len(),
            host@ == before_colon(server@),
            seqs(all@) == crate::text::lines(text@),
            key_from(seqs(all@), host@, 0, None) == key_from(
                seqs(all@),
                host@,
                i as int,
                match found {
                    Some(k) => Some(k@),
                    None => None,
                },
            ),
        decreases all.len() - i,
    {
        assert(seqs(all@)[i as int] == all@[i as int]@);
        let toks = crate::text::split_tokens(all[i].as_slice());
        if toks.len() >= 2 && crate::text::same_text(toks[0].as_slice(), host.as_slice()) {
            assert(seqs(toks@)[0] == toks@[0]@);
            assert(seqs(toks@).last() == toks@[toks.len() - 1]@);
            found = Some(crate::text::string_of(toks[toks.len() - 1].as_slice()));
        }
        i += 1;
    }
    found
}

impl User {
    /// A client with the options that its configuration text sets, or
    /// `None` where the text is malformed.
    pub fn user(user_id: u32, config: &str) -> (r: Option<User>)
        ensures
            match r {
                Some(u) => {
                    &&& options_of(config@, client_options()) == Some(u.db_table@)
                    &&& u.user_id == user_id
                    &&& u.admin_password@.len() == 0
                    &&& u.key@.len() == 0
                    &&& u.cmd_string@.len() == 0
                    &&& u.input_file_path@.len() == 0
                    &&& u.curr_id@.len() == 0
                    &&& u.curr_file_hashes@.len() == 0
                    &&& u.collection_name@.len() == 0
                    &&& !u.needs_update
                    &&& u.record_file_hashes is None
                    &&& u.potential_rev_file is None
                    &&& u.filename is None
                    &&& u.compressed_dir is None
                    &&& u.record_file_hash is None
                },
                None => options_of(config@, client_options()) is None,
            },
    {
        let allowed = vec![chars_of("Username"), chars_of("Server"), chars_of("tracked_files")];
        assert(seqs(allowed@) =~= client_options());
        match read_options(config, &allowed) {
            Some(db_table) => Some(
                User {
                    user_id,
                    db_table,
                    admin_password: String::new(),
                    key: String::new(),
                    cmd_string: String::new(),
                    input_file_path: String::new(),
                    curr_id: String::new(),
                    curr_file_hashes: Table::new(),
                    record_file_hashes: None,
                    needs_update: false,
                    filename: None,
                    collection_name: String::new(),
                    compressed_dir: None,
                    record_file_hash: None,
                    potential_rev_file: None,
                },
            ),
            None => None,
        }
    }

    /// Takes the command line of a run and the collection: finds the input
    /// among the arguments and forgets what an earlier run had scanned.
    /// Fails, and changes nothing, where no argument names the input.
    pub fn command(&mut self, cmd_string: &Vec<String>, c_name: String) -> (r: Result<
        (),
        ErrorKind,
    >)
        ensures
            match r {
                Ok(()) => {
                    &&& input_from(crate::text::strs(cmd_string@), 1).len() > 0
                    &&& final(self).input_file_path@ == input_from(
                        crate::text::strs(cmd_string@),
                        1,
                    )
                    &&& final(self).cmd_string@ == command_line(crate::text::strs(cmd_string@), 0)
                    &&& final(self).collection_name == c_name
                    &&& !final(self).needs_update
                    &&& final(self).curr_id@.len() == 0
                    &&& final(self).curr_file_hashes@.len() == 0
                    &&& final(self).record_file_hashes is None
                    &&& *final(self) == (User {
                        cmd_string: final(self).cmd_string,
                        input_file_path: final(self).input_file_path,
                        curr_id: final(self).curr_id,
                        curr_file_hashes: final(self).curr_file_hashes,
                        record_file_hashes: None,
                        needs_update: false,
                        collection_name: c_name,
                        ..*old(self)
                    })
                },
                Err(e) => e == ErrorKind::PathError && input_from(
                    crate::text::strs(cmd_string@),
                    1,
                ).len() == 0 && *final(self) == *old(self),
            },
    {
        let input = input_path(cmd_string);
        if input.as_str().is_empty() {
            return Err(ErrorKind::PathError);
        }
        self.cmd_string = join_command(cmd_string);
        self.input_file_path = input;
        self.curr_id = String::new();
        self.curr_file_hashes = Table::new();
        self.record_file_hashes = None;
        self.needs_update = false;
        self.collection_name = c_name;
        Ok(())
    }

    /// Compares the hashes of the working directory with the record.
    pub fn check_hashes(&mut self)
        ensures
            *final(self) == (User {
                needs_update: old(self).needs_update || diverged_from(
                    old(self).curr_id@,
                    old(self).curr_file_hashes@,
                    match old(self).record_file_hashes {
                        Some(rec) => Some(rec@),
                        None => None,
                    },
                ),
                ..*old(self)
            }),
    {
        if diverged(&self.curr_id, &self.curr_file_hashes, &self.record_file_hashes) {
            self.needs_update = true;
        }
    }

    /// Stages the record of the working directory as it is, with the given
    /// parent, or as a first revision where none is given.
    pub fn make_new_rev(&mut self, parent_id: Option<String>)
        ensures
            final(self).potential_rev_file is Some,
            final(self).potential_rev_file->0@ == render(
                RecordModel {
                    id: old(self).curr_id@,
                    parent_id: match parent_id {
                        Some(p) => p@,
                        None => root_parent(),
                    },
                    files: old(self).curr_file_hashes@,
                },
            ),
            *final(self) == (User {
                potential_rev_file: final(self).potential_rev_file,
                ..*old(self)
            }),
    {
        let parent = match parent_id {
            Some(p) => p,
            None => {
                let root = "*".to_string();
                proof {
                    reveal_strlit("*");
                    assert(root@ =~= root_parent());
                }
                root
            },
        };
        let record = RevisionRecord {
            id: self.curr_id.clone(),
            parent_id: parent,
            files: self.curr_file_hashes.copy(),
        };
        self.potential_rev_file = Some(record.render());
    }

    /// Stages a new record whose parent is the recorded revision. Without a
    /// record nothing is staged.
    pub fn update_record(&mut self) -> (staged: bool)
        ensures
            staged == old(self).record_file_hashes is Some,
            staged ==> final(self).potential_rev_file is Some
                && final(self).potential_rev_file->0@ == render(
                RecordModel {
                    id: old(self).curr_id@,
                    parent_id: old(self).record_file_hashes->0.id@,
                    files: old(self).curr_file_hashes@,
                },
            ),
            !staged ==> final(self).potential_rev_file == old(self).potential_rev_file,
            *final(self) == (User {
                potential_rev_file: final(self).potential_rev_file,
                ..*old(self)
            }),
    {
        let parent = match &self.record_file_hashes {
            Some(rec) => rec.id.clone(),
            None => {
                return false;
            },
        };
        self.make_new_rev(Some(parent));
        true
    }

    /// The staged record, if there is one: the text that replaces the
    /// record on disk.
    pub fn update_rev_file(&self) -> (r: Option<&String>)
        ensures
            match r {
                Some(text) => self.potential_rev_file == Some(*text),
                None => self.potential_rev_file is None,
            },
    {
        match &self.potential_rev_file {
            Some(text) => Some(text),
            None => None,
        }
    }

    /// Builds the request to a service.
    pub fn send_data(&self, endpoint: Endpoint) -> (r: Option<Request>)
        ensures
            match r {
                Some(req) => request_of(*self, endpoint) == Some(req@),
                None => request_of(*self, endpoint) is None,
            },
    {
        let server = match self.db_table.get(&"Server".to_string()) {
            Some(server) => server,
            None => {
                return None;
            },
        };
        let name = match self.db_table.get(&"Username".to_string()) {
            Some(name) => name,
            None => {
                return None;
            },
        };
        let base = concat("https://", server.as_str());
        let uri = concat(base.as_str(), endpoint.path());
        let password = if endpoint.for_admin() {
            self.admin_password.clone()
        } else {
            self.key.clone()
        };
        let mut headers: Vec<(String, String)> = Vec::new();
        headers.push(("password".to_string(), password));
        headers.push(("username".to_string(), name.clone()));
        let ghost base_headers = seq![
            ("password"@, password_for(endpoint, self.admin_password@, self.key@)),
            ("username"@, name@),
        ];
        assert(header_models(headers@) =~= base_headers);
        let mut body: Vec<u8> = Vec::new();
        match endpoint {
            Endpoint::Register => {},
            Endpoint::Cleanup => {},
            Endpoint::Update => {
                headers.push(("collection".to_string(), self.collection_name.clone()));
                assert(header_models(headers@) =~= base_headers.push(
                    ("collection"@, self.collection_name@),
                ));
            },
            Endpoint::IdCheck => {
                headers.push(("collection".to_string(), self.collection_name.clone()));
                match &self.record_file_hash {
                    Some(id) => {
                        headers.push(("filehash".to_string(), id.clone()));
                        assert(header_models(headers@) =~= base_headers.push(
                            ("collection"@, self.collection_name@),
                        ).push(("filehash"@, id@)));
                    },
                    None => {
                        return None;
                    },
                }
            },
            Endpoint::Upload => {
                headers.push(("collection".to_string(), self.collection_name.clone()));
                match (&self.filename, &self.compressed_dir) {
                    (Some(filename), Some(archive)) => {
                        headers.push(("filename".to_string(), filename.clone()));
                        headers.push(("filehash".to_string(), self.curr_id.clone()));
                        assert(header_models(headers@) =~= base_headers.push(
                            ("collection"@, self.collection_name@),
                        ).push(("filename"@, filename@)).push(("filehash"@, self.curr_id@)));
                        body = archive.clone();
                    },
                    _ => {
                        return None;
                    },
                }
            },
        }
        Some(Request { uri, headers, body })
    }

    /// Reads the answer to a check: the name of the upload that holds the
    /// recorded revision, or `DNE`.
    pub fn check_id(&self, response: &Response) -> (r: Result<String, ErrorKind>)
        ensures
            match r {
                Ok(name) => checked_name(response.status, header_models(response.headers@)) == Ok::<
                    Seq<char>,
                    ErrorKind,
                >(name@),
                Err(e) => checked_name(response.status, header_models(response.headers@)) == Err::<
                    Seq<char>,
                    ErrorKind,
                >(e),
            },
    {
        if response.status != STATUS_OK {
            return Err(ErrorKind::ProtocolError);
        }
        match find_header(&response.headers, "upload_name") {
            Some(name) => Ok(name.clone()),
            None => Err(ErrorKind::ProtocolError),
        }
    }

    /// Reads the answer to an upload: success, or a failure of the
    /// protocol.
    pub fn send_output(&self, response: &Response) -> (r: Result<(), ErrorKind>)
        ensures
            match r {
                Ok(()) => response.status == STATUS_OK,
                Err(e) => e == ErrorKind::ProtocolError && response.status != STATUS_OK,
            },
    {
        if response.status == STATUS_OK {
            Ok(())
        } else {
            Err(ErrorKind::ProtocolError)
        }
    }

    /// Reads the answer to a registration and makes the line that the
    /// credentials file gains, or fails where the answer holds no key or
    /// the client knows no server.
    pub fn register(&self, response: &Response) -> (r: Result<String, ErrorKind>)
        ensures
            match (
                get(self.db_table@, "Server"@),
                registered_key(response.status, header_models(response.headers@)),
            ) {
                (Some(server), Some(key)) => r is Ok && r->Ok_0@ == credential_line(server, key),
                _ => r is Err && r->Err_0 == ErrorKind::ProtocolError,
            },
    {
        let server = match self.db_table.get(&"Server".to_string()) {
            Some(server) => server,
            None => {
                return Err(ErrorKind::ProtocolError);
            },
        };
        if response.status != STATUS_OK {
            return Err(ErrorKind::ProtocolError);
        }
        let key = match find_header(&response.headers, "key") {
            Some(key) => key,
            None => {
                return Err(ErrorKind::ProtocolError);
            },
        };
        let host = head_before_colon(server.as_str());
        let head = concat(host.as_str(), " : ");
        let body = concat(head.as_str(), key.as_str());
        proof {
            reveal_strlit(" : ");
            reveal_strlit("\n");
            assert(" : "@ =~= crate::record::separator());
            assert("\n"@ =~= seq!['\n']);
        }
        Ok(concat(body.as_str(), "\n"))
    }

    /// Takes the key of the configured server from the text of the
    /// credentials file. Returns whether the file holds one.
    pub fn check_creds(&mut self, credentials: &str) -> (found: bool)
        ensures
            match get(old(self).db_table@, "Server"@) {
                Some(server) => match stored_key(credentials@, server) {
                    Some(key) => found && final(self).key@ == key,
                    None => !found && final(self).key == old(self).key,
                },
                None => !found && final(self).key == old(self).key,
            },
            *final(self) == (User { key: final(self).key, ..*old(self) }),
    {
        let key = match self.db_table.get(&"Server".to_string()) {
            Some(server) => find_key(credentials, server.as_str()),
            None => None,
        };
        match key {
            Some(key) => {
                self.key = key;
                true
            },
            None => false,
        }
    }

    /// Closes an upload by the answer of the server. After success the
    /// result is the staged record, if there is one: the text that now
    /// replaces the record on disk. After a failure the staged record is
    /// discarded, so that the record on disk never names a revision that
    /// the server does not hold.
    pub fn finish_upload(&mut self, response: &Response) -> (r: Result<Option<String>, ErrorKind>)
        ensures
            match r {
                Ok(text) => response.status == STATUS_OK && text == old(self).potential_rev_file
                    && *final(self) == *old(self),
                Err(e) => e == ErrorKind::ProtocolError && response.status != STATUS_OK
                    && *final(self) == (User { potential_rev_file: None, ..*old(self) }),
            },
    {
        match self.send_output(response) {
            Ok(()) => Ok(self.potential_rev_file.clone()),
            Err(e) => {
                self.potential_rev_file = None;
                Err(e)
            },
        }
    }

    /// The hashes of the tracked files of the working directory and the
    /// id of the directory as it is, in the collection `collection`.
    fn current_hashes(&self, entries: &Vec<Source>, collection: &str) -> (r: Result<
        (Table, String),
        ErrorKind,
    >)
        ensures
            match get(self.db_table@, "tracked_files"@) {
                None => r == Err::<(Table, String), ErrorKind>(ErrorKind::PathError),
                Some(list) => match digests_from(sources(entries@), parts(list), 0, Seq::empty()) {
                    None => r == Err::<(Table, String), ErrorKind>(ErrorKind::HashIOError),
                    Some(d) => {
                        &&& r is Ok
                        &&& r->Ok_0.0@ == file_hashes(d)
                        &&& r->Ok_0.1@ == revision_id(collection@, combined_hash(d))
                        &&& r->Ok_0.1@.len() == collection@.len() + 1 + HASH_TRUNCATE_LENGTH
                        &&& short_hashes(r->Ok_0.0@)
                        &&& digests_sized(sources(entries@), parts(list))
                    },
                },
            },
    {
        let patterns = match self.db_table.get(&"tracked_files".to_string()) {
            Some(list) => {
                let content = chars_of(list.as_str());
                split_commas(content.as_slice())
            },
            None => {
                return Err(ErrorKind::PathError);
            },
        };
        let index = match hash_index(entries, &patterns) {
            Ok(index) => index,
            Err(e) => {
                return Err(e);
            },
        };
        let head = concat(collection, ":");
        proof {
            reveal_strlit(":");
            assert(":"@ =~= seq![':']);
        }
        Ok((index.files, concat(head.as_str(), index.combined.as_str())))
    }

    /// Hashes the tracked files of the working directory and sets the id
    /// of the directory as it is. Fails, and changes nothing, where no
    /// patterns are configured or a tracked file could not be read.
    pub fn get_current_filehashes(&mut self, entries: &Vec<Source>) -> (r: Result<(), ErrorKind>)
        ensures
            match get(old(self).db_table@, "tracked_files"@) {
                None => r == Err::<(), ErrorKind>(ErrorKind::PathError),
                Some(list) => match digests_from(sources(entries@), parts(list), 0, Seq::empty()) {
                    None => r == Err::<(), ErrorKind>(ErrorKind::HashIOError),
                    Some(d) => {
                        &&& r is Ok
                        &&& final(self).curr_file_hashes@ == file_hashes(d)
                        &&& final(self).curr_id@ == revision_id(
                            old(self).collection_name@,
                            combined_hash(d),
                        )
                        &&& final(self).curr_id@.len() == old(self).collection_name@.len() + 1
                            + HASH_TRUNCATE_LENGTH
                        &&& short_hashes(final(self).curr_file_hashes@)
                        &&& digests_sized(sources(entries@), parts(list))
                    },
                },
            },
            r is Err ==> *final(self) == *old(self),
            *final(self) == (User {
                curr_id: final(self).curr_id,
                curr_file_hashes: final(self).curr_file_hashes,
                ..*old(self)
            }),
    {
        match self.current_hashes(entries, self.collection_name.as_str()) {
            Ok((files, id)) => {
                self.curr_id = id;
                self.curr_file_hashes = files;
                Ok(())
            },
            Err(e) => Err(e),
        }
    }

    /// Packs the working directory for the upload, the staged record in
    /// the place of the record on disk.
    pub fn compress_and_hash(&mut self, entries: Vec<ArchiveEntry>, now: u64) -> (r: Result<
        (),
        ErrorKind,
    >)
        ensures
            match r {
                Ok(()) => final(self).compressed_dir is Some && gunzip(
                    final(self).compressed_dir->0@,
                ) is Some && gunzip(final(self).compressed_dir->0@) == tar_image(
                    staged_entries(
                        entry_models(entries@),
                        staged_bytes(old(self).potential_rev_file),
                        old(self).user_id,
                        now,
                    ),
                ),
                Err(e) => e == ErrorKind::PathError && tar_image(
                    staged_entries(
                        entry_models(entries@),
                        staged_bytes(old(self).potential_rev_file),
                        old(self).user_id,
                        now,
                    ),
                ) is None && final(self).compressed_dir == old(self).compressed_dir,
            },
            *final(self) == (User { compressed_dir: final(self).compressed_dir, ..*old(self) }),
    {
        let staged = match &self.potential_rev_file {
            Some(text) => Some(text.as_str().as_bytes_vec()),
            None => None,
        };
        match pack(entries, &staged, self.user_id, now) {
            Ok(bytes) => {
                self.compressed_dir = Some(bytes);
                Ok(())
            },
            Err(e) => Err(e),
        }
    }

    /// Scans the working directory against the revision record, whose text
    /// is `rev_text` where the directory holds one. With a record, the
    /// hashes are compared with it. Without one, the first record of the
    /// directory is staged and taken as the record; the result is then
    /// `true`: the staged record is to be written at once. A failure
    /// changes nothing.
    pub fn track_files(&mut self, rev_text: Option<&str>, entries: &Vec<Source>) -> (r: Result<
        bool,
        ErrorKind,
    >)
        ensures
            match collection_for(
                match rev_text {
                    Some(t) => Some(t@),
                    None => None,
                },
                old(self).collection_name@,
            ) {
                Err(e) => r == Err::<bool, ErrorKind>(e),
                Ok(coll) => match get(old(self).db_table@, "tracked_files"@) {
                    None => r == Err::<bool, ErrorKind>(ErrorKind::PathError),
                    Some(list) => match digests_from(
                        sources(entries@),
                        parts(list),
                        0,
                        Seq::empty(),
                    ) {
                        None => r == Err::<bool, ErrorKind>(ErrorKind::HashIOError),
                        Some(d) => {
                            &&& r == Ok::<bool, ErrorKind>(rev_text is None)
                            &&& final(self).collection_name@ == coll
                            &&& final(self).curr_file_hashes@ == file_hashes(d)
                            &&& final(self).curr_id@ == revision_id(coll, combined_hash(d))
                            &&& final(self).curr_id@.len() == coll.len() + 1 + HASH_TRUNCATE_LENGTH
                            &&& short_hashes(final(self).curr_file_hashes@)
                            &&& digests_sized(sources(entries@), parts(list))
                            &&& final(self).record_file_hashes is Some
                            &&& final(self).record_file_hash is Some
                            &&& final(self).record_file_hash->0@ == final(self).record_file_hashes->0.id@
                            &&& final(self).filename is None
                            &&& final(self).compressed_dir is None
                            &&& match rev_text {
                                Some(t) => {
                                    &&& Some(final(self).record_file_hashes->0@) == record_of(t@)
                                    &&& final(self).needs_update == (old(self).needs_update
                                        || diverged_from(
                                        final(self).curr_id@,
                                        file_hashes(d),
                                        record_of(t@),
                                    ))
                                    &&& final(self).potential_rev_file == old(self).potential_rev_file
                                },
                                None => {
                                    &&& final(self).record_file_hashes->0@ == (RecordModel {
                                        id: final(self).curr_id@,
                                        parent_id: root_parent(),
                                        files: file_hashes(d),
                                    })
                                    &&& final(self).needs_update == old(self).needs_update
                                    &&& final(self).potential_rev_file is Some
                                    &&& final(self).potential_rev_file->0@ == render(
                                        final(self).record_file_hashes->0@,
                                    )
                                },
                            }
                        },
                    },
                },
            },
            r is Err ==> *final(self) == *old(self),
            *final(self) == (User {
                collection_name: final(self).collection_name,
                curr_id: final(self).curr_id,
                curr_file_hashes: final(self).curr_file_hashes,
                record_file_hashes: final(self).record_file_hashes,
                needs_update: final(self).needs_update,
                potential_rev_file: final(self).potential_rev_file,
                filename: final(self).filename,
                compressed_dir: final(self).compressed_dir,
                record_file_hash: final(self).record_file_hash,
                ..*old(self)
            }),
    {
        let (record, collection) = match rev_text {
            Some(t) => match RevisionRecord::parse(t) {
                Ok(rec) => {
                    let collection = if self.collection_name.as_str().is_empty() {
                        head_before_colon(rec.id.as_str())
                    } else {
                        self.collection_name.clone()
                    };
                    (Some(rec), collection)
                },
                Err(e) => {
                    return Err(e);
                },
            },
            None => {
                if self.collection_name.as_str().is_empty() {
                    return Err(ErrorKind::PathError);
                }
                (None, self.collection_name.clone())
            },
        };
        let (files, id) = match self.current_hashes(entries, collection.as_str()) {
            Ok(found) => found,
            Err(e) => {
                return Err(e);
            },
        };
        self.collection_name = collection;
        self.curr_id = id;
        self.curr_file_hashes = files;
        let fresh = match record {
            Some(rec) => {
                self.record_file_hashes = Some(rec);
                self.check_hashes();
                false
            },
            None => {
                self.make_new_rev(None);
                let root = "*".to_string();
                proof {
                    reveal_strlit("*");
                    assert(root@ =~= root_parent());
                }
                self.record_file_hashes = Some(
                    RevisionRecord {
                        id: self.curr_id.clone(),
                        parent_id: root,
                        files: self.curr_file_hashes.copy(),
                    },
                );
                true
            },
        };
        self.filename = None;
        self.compressed_dir = None;
        self.record_file_hash = match &self.record_file_hashes {
            Some(rec) => Some(rec.id.clone()),
            None => None,
        };
        Ok(fresh)
    }
}

/// The bytes of the staged record.
pub open spec fn staged_bytes(staged: Option<String>) -> Option<Seq<u8>> {
    match staged {
        Some(text) => Some(vstd::utf8::encode_utf8(text@)),
        None => None,
    }
}

} // verus!
