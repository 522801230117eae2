use rust_logger::archive::{unpack, ArchiveEntry, REGULAR_FILE};
use rust_logger::command::Command;
use rust_logger::config::{read_options, Config, Globals};
use rust_logger::connection::{
    admit_upload, check_reply, failure_reply, route, upload_reply, Connection, Route,
};
use rust_logger::error::ErrorKind;
use rust_logger::hashing::{full_hash, relative_name, Content, Source};
use rust_logger::processor::ingest;
use rust_logger::record::RevisionRecord;
use rust_logger::table::Table;
use rust_logger::user::{
    diverged, find_key, input_path, join_command, next_step, Endpoint, Response, Step, User,
    STATUS_OK,
};

fn s(x: &str) -> String {
    x.to_string()
}

fn file(path: &str, bytes: &[u8]) -> Source {
    Source { path: s(path), content: Content::Bytes(bytes.to_vec()) }
}

fn entry(path: &str, data: &[u8]) -> ArchiveEntry {
    ArchiveEntry { path: s(path), data: data.to_vec(), kind: REGULAR_FILE, mode: 0o644, uid: 7, gid: 7, mtime: 1 }
}

const CONFIG: &str = "# client options\nUsername ann\nServer : logs.example.org:1337\n\ntracked_files in.,log.\n";

fn directory() -> Vec<Source> {
    vec![file("in.crack", b"abc"), file("log.lammps", b"hello\n"), file("notes", b"x")]
}

fn client(collection: &str) -> User {
    let mut user = User::user(1000, CONFIG).unwrap();
    user.key = s("secret-key");
    user.command(&vec![s("lmp"), s("-in"), s("in.crack")], s(collection)).unwrap();
    user
}

fn ok(headers: Vec<(&str, &str)>) -> Response {
    Response {
        status: STATUS_OK,
        headers: headers.into_iter().map(|(k, v)| (s(k), s(v))).collect(),
        body: Vec::new(),
    }
}

#[test]
fn options_are_read_from_lines() {
    let allowed = vec!["a".chars().collect(), "bb".chars().collect()];
    let t = read_options("bb 2\n# note\n\n  a = 1 \n", &allowed).unwrap();
    assert_eq!(t.len(), 2);
    assert_eq!(t.get(&s("a")), Some(&s("1")));
    assert_eq!(t.get(&s("bb")), Some(&s("2")));
    assert!(read_options("c 3\n", &allowed).is_none());
    assert!(read_options("a\n", &allowed).is_none());
    assert_eq!(read_options("", &allowed).unwrap().len(), 0);
}

#[test]
fn server_configuration_knows_its_options() {
    let c = Config::new("server_port 1337\ndata_path /srv/data/\ndatabase lammps\n").unwrap();
    assert_eq!(c.get("server_port"), Some(&s("1337")));
    assert_eq!(c.get("cert_path"), None);
    assert!(Config::new("registry x\n").is_none());
    let g = Globals::new("registry x\ntracked_files in.\n").unwrap();
    assert_eq!(g.globals.get(&s("registry")), Some(&s("x")));
    assert!(Globals::new("Username x\n").is_none());
}

#[test]
fn client_configuration_is_required_to_be_well_formed() {
    assert!(User::user(1, "Password x\n").is_none());
    let u = User::user(1, CONFIG).unwrap();
    assert_eq!(u.db_table.get(&s("Server")), Some(&s("logs.example.org:1337")));
    assert_eq!(u.db_table.get(&s("Username")), Some(&s("ann")));
    assert!(!u.needs_update);
}

#[test]
fn input_is_the_argument_after_the_flag() {
    assert_eq!(input_path(&vec![s("lmp"), s("-in"), s("in.crack")]), "in.crack");
    assert_eq!(input_path(&vec![s("-c"), s("dir")]), "dir");
    assert_eq!(input_path(&vec![s("lmp"), s("in.crack")]), "");
    assert_eq!(input_path(&vec![s("-in")]), "");
    assert_eq!(input_path(&vec![]), "");
    assert_eq!(input_path(&vec![s("-in"), s("a"), s("-in"), s("b")]), "ba");
    assert_eq!(join_command(&vec![s("mpirun"), s("-np"), s("4")]), "mpirun -np 4 ");
    assert_eq!(join_command(&vec![]), "");
}

#[test]
fn command_without_input_is_a_path_error() {
    let mut user = User::user(1, CONFIG).unwrap();
    assert_eq!(user.command(&vec![s("lmp")], s("alloy1")), Err(ErrorKind::PathError));
    assert_eq!(Command::command(&vec![s("lmp")], vec![]).unwrap_err(), ErrorKind::PathError);
}

#[test]
fn fresh_directory_makes_a_first_revision() {
    let mut user = client("alloy1");
    let write_now = user.track_files(None, &directory()).unwrap();
    assert!(write_now);
    assert_eq!(user.curr_id, "alloy1:12392df861801747");
    assert_eq!(user.record_file_hash, Some(s("alloy1:12392df861801747")));
    assert!(!user.needs_update);
    let staged = user.update_rev_file().unwrap().clone();
    assert_eq!(
        staged,
        "id : alloy1:12392df861801747\nparent_id : *\nin.crack : ba7816bf8f01cfea\nlog.lammps : 5891b5b522d5df08\n"
    );
    let record = user.record_file_hashes.as_ref().unwrap();
    assert_eq!(record.parent_id, "*");
    let check = user.send_data(Endpoint::IdCheck).unwrap();
    assert_eq!(check.uri, "https://logs.example.org:1337/check");
    let name = user.check_id(&ok(vec![("upload_name", "DNE")])).unwrap();
    assert_eq!(next_step(&name, user.needs_update, "*", false), Ok(Step::Upload));
    assert_eq!(admit_upload(0), Ok(()));
    user.compress_and_hash(vec![entry("REV", b"stale"), entry("in.crack", b"abc")], 10).unwrap();
    user.filename = Some(s("run1"));
    let upload = user.send_data(Endpoint::Upload).unwrap();
    let members = unpack(&upload.body).unwrap();
    assert_eq!(members[0].name, "REV");
    assert_eq!(members[0].body, staged.as_bytes());
    let done = ingest(&members).unwrap();
    assert_eq!(done.record.id, "alloy1:12392df861801747");
    assert_eq!(done.record.parent_id, "*");
    assert_eq!(user.send_output(&ok(vec![])), Ok(()));
}

#[test]
fn unchanged_directory_is_not_uploaded_again() {
    let mut first = client("alloy1");
    first.track_files(None, &directory()).unwrap();
    let rev = first.update_rev_file().unwrap().clone();
    let mut user = client("");
    let write_now = user.track_files(Some(&rev), &directory()).unwrap();
    assert!(!write_now);
    assert_eq!(user.collection_name, "alloy1");
    assert!(!user.needs_update);
    assert!(!diverged(&user.curr_id, &user.curr_file_hashes, &user.record_file_hashes));
    assert!(user.update_rev_file().is_none());
    let name = user.check_id(&ok(vec![("upload_name", "run1")])).unwrap();
    assert_eq!(name, "run1");
    assert_eq!(next_step(&name, user.needs_update, "*", false), Ok(Step::Reuse));
    assert_eq!(admit_upload(1), Err(ErrorKind::DedupConflict));
}

#[test]
fn modified_file_makes_a_new_revision() {
    let mut first = client("alloy1");
    first.track_files(None, &directory()).unwrap();
    let rev = first.update_rev_file().unwrap().clone();
    let mut user = client("");
    let changed = vec![file("in.crack", b"abd"), file("log.lammps", b"hello\n")];
    user.track_files(Some(&rev), &changed).unwrap();
    assert!(user.needs_update);
    assert_ne!(user.curr_id, first.curr_id);
    assert_eq!(user.record_file_hash, Some(first.curr_id.clone()));
    let step = next_step("run1", user.needs_update, "*", false).unwrap();
    assert_eq!(step, Step::StageAndUpload);
    assert!(user.update_record());
    let staged = RevisionRecord::parse(user.update_rev_file().unwrap()).unwrap();
    assert_eq!(staged.id, user.curr_id);
    assert_eq!(staged.parent_id, first.curr_id);
    assert_eq!(staged.files.get(&s("log.lammps")), Some(&s("5891b5b522d5df08")));
    assert_ne!(staged.files.get(&s("in.crack")), Some(&s("ba7816bf8f01cfea")));
    assert_eq!(admit_upload(0), Ok(()));
}

#[test]
fn lineage_error_when_the_recorded_revision_is_unknown() {
    assert_eq!(next_step("DNE", true, "alloy1:0", false), Err(ErrorKind::LineageError));
    assert_eq!(next_step("DNE", false, "alloy1:0", false), Err(ErrorKind::LineageError));
    assert_eq!(next_step("DNE", true, "alloy1:0", true), Ok(Step::Upload));
    assert_eq!(next_step("DNE", false, "*", false), Ok(Step::Upload));
    assert_eq!(next_step("run", true, "alloy1:0", false), Ok(Step::StageAndUpload));
    assert_eq!(next_step("run", false, "alloy1:0", false), Ok(Step::Reuse));
}

#[test]
fn tracking_errors_name_their_cause() {
    let mut user = client("");
    assert_eq!(user.track_files(None, &directory()), Err(ErrorKind::PathError));
    let mut user = client("alloy1");
    assert_eq!(user.track_files(Some("garbage"), &directory()), Err(ErrorKind::ExtractionError));
    let mut user = client("alloy1");
    let broken = vec![Source { path: s("in.crack"), content: Content::Unreadable }];
    assert_eq!(user.track_files(None, &broken), Err(ErrorKind::HashIOError));
    let mut user = User::user(1, "Username ann\n").unwrap();
    user.command(&vec![s("-in"), s("x")], s("c")).unwrap();
    assert_eq!(user.track_files(None, &directory()), Err(ErrorKind::PathError));
}

#[test]
fn failed_tracking_changes_nothing() {
    let mut first = client("alloy1");
    first.track_files(None, &directory()).unwrap();
    let rev = first.update_rev_file().unwrap().clone();
    let mut user = client("");
    let broken = vec![Source { path: s("in.crack"), content: Content::Unreadable }];
    assert_eq!(user.track_files(Some(&rev), &broken), Err(ErrorKind::HashIOError));
    assert_eq!(user.collection_name, "");
    assert_eq!(user.curr_id, "");
    assert_eq!(user.curr_file_hashes.len(), 0);
    assert!(user.record_file_hashes.is_none());
    assert!(user.record_file_hash.is_none());
    assert!(!user.needs_update);
    let mut cmd = Command::command(&vec![s("-in"), s("x")], vec![s("in.")]).unwrap();
    assert!(cmd.track_files(Some("garbage"), &directory()).is_err());
    assert_eq!(cmd.curr_id, "");
    assert!(cmd.record_file_hashes.is_none());
}

#[test]
fn divergence_follows_the_hashes() {
    let mut user = client("alloy1");
    user.track_files(None, &directory()).unwrap();
    assert!(diverged(&user.curr_id, &user.curr_file_hashes, &None));
    let record = RevisionRecord {
        id: user.curr_id.clone(),
        parent_id: s("*"),
        files: Table::new().insert(s("in.crack"), s("ba7816bf8f01cfea")),
    };
    assert!(diverged(&user.curr_id, &user.curr_file_hashes, &Some(record)));
    let record = RevisionRecord {
        id: s("another"),
        parent_id: s("*"),
        files: user.curr_file_hashes.copy(),
    };
    assert!(diverged(&user.curr_id, &user.curr_file_hashes, &Some(record)));
    let record = RevisionRecord {
        id: user.curr_id.clone(),
        parent_id: s("*"),
        files: user.curr_file_hashes.copy().insert(s("zzz"), s("0")),
    };
    assert!(!diverged(&user.curr_id, &user.curr_file_hashes, &Some(record)));
}

#[test]
fn requests_carry_the_headers_of_their_service() {
    let mut user = client("alloy1");
    user.admin_password = s("admin-pw");
    user.track_files(None, &directory()).unwrap();
    let h = |pairs: Vec<(&str, &str)>| -> Vec<(String, String)> {
        pairs.into_iter().map(|(k, v)| (s(k), s(v))).collect()
    };
    let register = user.send_data(Endpoint::Register).unwrap();
    assert_eq!(register.uri, "https://logs.example.org:1337/register");
    assert_eq!(register.headers, h(vec![("password", "admin-pw"), ("username", "ann")]));
    assert_eq!(register.body, Vec::<u8>::new());
    let cleanup = user.send_data(Endpoint::Cleanup).unwrap();
    assert_eq!(cleanup.uri, "https://logs.example.org:1337/cleanup");
    assert_eq!(cleanup.headers, register.headers);
    let update = user.send_data(Endpoint::Update).unwrap();
    assert_eq!(update.uri, "https://logs.example.org:1337/update");
    assert_eq!(
        update.headers,
        h(vec![("password", "secret-key"), ("username", "ann"), ("collection", "alloy1")])
    );
    let check = user.send_data(Endpoint::IdCheck).unwrap();
    assert_eq!(
        check.headers,
        h(vec![
            ("password", "secret-key"),
            ("username", "ann"),
            ("collection", "alloy1"),
            ("filehash", "alloy1:12392df861801747"),
        ])
    );
    assert!(user.send_data(Endpoint::Upload).is_none());
    user.compress_and_hash(vec![entry("in.crack", b"abc")], 3).unwrap();
    assert!(user.send_data(Endpoint::Upload).is_none());
    user.filename = Some(s("run1"));
    let upload = user.send_data(Endpoint::Upload).unwrap();
    assert_eq!(upload.uri, "https://logs.example.org:1337/upload");
    assert_eq!(
        upload.headers,
        h(vec![
            ("password", "secret-key"),
            ("username", "ann"),
            ("collection", "alloy1"),
            ("filename", "run1"),
            ("filehash", "alloy1:12392df861801747"),
        ])
    );
    assert_eq!(Some(upload.body), user.compressed_dir);
}

#[test]
fn requests_need_a_server_and_a_user() {
    let user = User::user(1, "Username ann\n").unwrap();
    assert!(user.send_data(Endpoint::Register).is_none());
    let user = User::user(1, "Server x:1\n").unwrap();
    assert!(user.send_data(Endpoint::Cleanup).is_none());
    let user = User::user(1, CONFIG).unwrap();
    assert!(user.send_data(Endpoint::IdCheck).is_none());
}

#[test]
fn answers_are_judged_by_status_and_header() {
    let user = User::user(1, CONFIG).unwrap();
    assert_eq!(user.check_id(&ok(vec![("x", "y"), ("upload_name", "run1")])), Ok(s("run1")));
    assert_eq!(user.check_id(&ok(vec![])), Err(ErrorKind::ProtocolError));
    let denied = Response { status: 401, headers: vec![(s("upload_name"), s("run1"))], body: vec![] };
    assert_eq!(user.check_id(&denied), Err(ErrorKind::ProtocolError));
    assert_eq!(user.send_output(&denied), Err(ErrorKind::ProtocolError));
    assert_eq!(user.send_output(&ok(vec![])), Ok(()));
}

#[test]
fn staged_record_is_written_only_after_an_accepted_upload() {
    let mut user = client("alloy1");
    user.track_files(None, &directory()).unwrap();
    let staged = user.update_rev_file().cloned();
    assert!(staged.is_some());
    assert_eq!(user.finish_upload(&ok(vec![])), Ok(staged));
    assert!(user.update_rev_file().is_some());
    let denied = Response { status: 401, headers: vec![], body: b"File already exists".to_vec() };
    assert_eq!(user.finish_upload(&denied), Err(ErrorKind::ProtocolError));
    assert!(user.update_rev_file().is_none());
    assert_eq!(user.finish_upload(&ok(vec![])), Ok(None));
}

#[test]
fn registration_yields_the_line_of_the_credentials_file() {
    let user = User::user(1, CONFIG).unwrap();
    assert_eq!(user.register(&ok(vec![("key", "abc123")])), Ok(s("logs.example.org : abc123\n")));
    assert_eq!(user.register(&ok(vec![])), Err(ErrorKind::ProtocolError));
    let denied = Response { status: 401, headers: vec![(s("key"), s("abc123"))], body: vec![] };
    assert_eq!(user.register(&denied), Err(ErrorKind::ProtocolError));
    let nowhere = User::user(1, "Username ann\n").unwrap();
    assert_eq!(nowhere.register(&ok(vec![("key", "abc123")])), Err(ErrorKind::ProtocolError));
}

#[test]
fn key_is_found_by_the_host_of_the_server() {
    let file = "other.org : k1\nlogs.example.org : k2\n\nlogs.example.org\nlogs.example.org : k3\n";
    assert_eq!(find_key(file, "logs.example.org:1337"), Some(s("k3")));
    assert_eq!(find_key(file, "other.org"), Some(s("k1")));
    assert_eq!(find_key(file, "unknown.org:1"), None);
    assert_eq!(find_key("", "logs.example.org:1337"), None);
    let mut user = User::user(1, CONFIG).unwrap();
    assert!(!user.check_creds("other.org : k1\n"));
    assert_eq!(user.key, "");
    assert!(user.check_creds(file));
    assert_eq!(user.key, "k3");
    let line = user.register(&ok(vec![("key", "fresh")])).unwrap();
    assert!(user.check_creds(&line));
    assert_eq!(user.key, "fresh");
}

#[test]
fn endpoints_have_their_paths() {
    assert_eq!(Endpoint::Register.path(), "/register");
    assert_eq!(Endpoint::Upload.path(), "/upload");
    assert_eq!(Endpoint::Cleanup.path(), "/cleanup");
    assert_eq!(Endpoint::IdCheck.path(), "/check");
    assert_eq!(Endpoint::Update.path(), "/update");
    assert!(Endpoint::Register.for_admin());
    assert!(Endpoint::Cleanup.for_admin());
    assert!(!Endpoint::Upload.for_admin());
}

#[test]
fn staging_without_a_record_does_nothing() {
    let mut user = client("alloy1");
    assert!(!user.update_record());
    assert!(user.update_rev_file().is_none());
    user.make_new_rev(Some(s("alloy1:0")));
    assert_eq!(user.update_rev_file(), Some(&s("id : \nparent_id : alloy1:0\n")));
}

#[test]
fn command_tracks_without_a_collection() {
    let mut cmd = Command::command(&vec![s("lmp"), s("-in"), s("in.crack")], vec![s("in."), s("log.")]).unwrap();
    assert_eq!(cmd.cmd_string, "lmp -in in.crack ");
    assert_eq!(cmd.input_file_path, "in.crack");
    let (info, written) = cmd.track_files(None, &directory()).unwrap();
    let text = written.unwrap();
    assert_eq!(
        text,
        "id : 12392df861801747\nparent_id : *\nin.crack : ba7816bf8f01cfea\nlog.lammps : 5891b5b522d5df08\n"
    );
    assert_eq!(info.record_file_hash, Some(s("12392df861801747")));
    assert_eq!(info.filename, None);
    assert_eq!(info.hash, None);
    assert_eq!(info.compressed_dir, None);
    assert!(!cmd.needs_update);
    let changed = vec![file("in.crack", b"abd"), file("log.lammps", b"hello\n")];
    let (info, written) = cmd.track_files(Some(&text), &changed).unwrap();
    assert!(written.is_none());
    assert!(cmd.needs_update);
    assert_eq!(info.record_file_hash, Some(s("12392df861801747")));
    assert!(cmd.update_rev_file().is_none());
    assert!(cmd.update_record());
    let record = RevisionRecord::parse(cmd.update_rev_file().unwrap()).unwrap();
    assert_eq!(record.parent_id, "12392df861801747");
    assert_eq!(record.id, cmd.curr_id);
    assert_eq!(cmd.record_file_hashes.as_ref().unwrap().id, "12392df861801747");
    cmd.check_hashes();
    assert!(cmd.needs_update);
}

#[test]
fn command_without_a_record_has_nothing_to_update() {
    let mut cmd = Command::command(&vec![s("-in"), s("x")], vec![]).unwrap();
    assert!(!cmd.update_record());
    assert!(cmd.update_rev_file().is_none());
    cmd.check_hashes();
    assert!(cmd.needs_update);
    assert_eq!(
        cmd.track_files(Some("id only\n"), &Vec::new()).unwrap_err(),
        ErrorKind::ExtractionError
    );
}

#[test]
fn command_packs_and_hashes_the_archive() {
    let cmd = Command::command(&vec![s("-in"), s("in.crack")], vec![]).unwrap();
    let info = cmd.compress_and_hash(vec![entry("in.crack", b"abc")], "in.crack").unwrap();
    assert_eq!(info.filename, Some(s("in.crack.tar.gz")));
    let bytes = info.compressed_dir.unwrap();
    assert_eq!(info.hash, Some(full_hash(&bytes)));
    assert_eq!(info.hash.unwrap().len(), 64);
    assert_eq!(info.record_file_hash, None);
    let members = unpack(&bytes).unwrap();
    assert_eq!(members.len(), 1);
    assert_eq!(members[0].body, b"abc");
}

#[test]
fn connection_reads_headers_with_defaults() {
    let headers = vec![
        (s("password"), s("pw")),
        (s("filehash"), s("alloy1:abc")),
        (s("filehash"), s("second")),
        (s("collection"), s("alloy1")),
    ];
    let c = Connection::get_conn_info(&headers);
    assert_eq!(c.username, "admin");
    assert_eq!(c.password, "pw");
    assert_eq!(c.filename, "");
    assert_eq!(c.filehash, "alloy1:abc");
    assert_eq!(c.collection, "alloy1");
    assert_eq!(c.err, None);
    assert_eq!(c.collection_of(), "alloy1");
    let c = Connection::get_conn_info(&vec![(s("username"), s("ann"))]);
    assert_eq!(c.username, "ann");
    assert_eq!(c.password, "");
}

#[test]
fn stored_archive_is_named_by_the_upload_or_its_hash() {
    let mut c = Connection::get_conn_info(&vec![(s("filename"), s("run1")), (s("filehash"), s("ff00"))]);
    assert_eq!(c.stored_name(), "run1");
    assert_eq!(c.upload_path("/srv/data/"), "/srv/data/run1.tar.gz");
    let path = c.rename_taken("/srv/data/", "2024-01-01 10:00:00 +01:00");
    assert_eq!(c.filename, "run1_2024-01-01_10:00:00_+01:00");
    assert_eq!(path, "/srv/data/run1_2024-01-01_10:00:00_+01:00.tar.gz");
    assert_eq!(c.filehash, "ff00");
    let c = Connection::get_conn_info(&vec![(s("filehash"), s("ff00"))]);
    assert_eq!(c.upload_path("/d/"), "/d/ff00.tar.gz");
    assert_eq!(upload_reply("run1"), "New file created: run1");
}

#[test]
fn check_answers_with_the_name_or_the_sentinel() {
    assert_eq!(check_reply(Some(&s("run1"))), "run1");
    assert_eq!(check_reply(None), "DNE");
}

#[test]
fn upload_of_a_known_id_is_a_dedup_conflict() {
    assert_eq!(admit_upload(0), Ok(()));
    assert_eq!(admit_upload(1), Err(ErrorKind::DedupConflict));
    assert_eq!(admit_upload(5), Err(ErrorKind::DedupConflict));
}

#[test]
fn requests_are_routed_by_method_and_first_segment() {
    assert_eq!(route(true, "upload"), Route::Upload);
    assert_eq!(route(true, "check"), Route::Check);
    assert_eq!(route(true, "update"), Route::Update);
    assert_eq!(route(true, "cleanup"), Route::Cleanup);
    assert_eq!(route(true, "register"), Route::Register);
    assert_eq!(route(true, "login"), Route::Other);
    assert_eq!(route(false, "upload"), Route::Other);
    assert_eq!(route(true, ""), Route::Other);
}

#[test]
fn error_kinds_have_messages() {
    for e in [
        ErrorKind::PathError,
        ErrorKind::HashIOError,
        ErrorKind::LineageError,
        ErrorKind::DedupConflict,
        ErrorKind::ProtocolError,
        ErrorKind::ExtractionError,
        ErrorKind::StorageError,
    ] {
        assert!(!e.message().is_empty());
    }
    assert_eq!(ErrorKind::DedupConflict.message(), "file already exists, upload cancelled");
}

#[test]
fn failure_is_answered_with_its_message() {
    assert_eq!(failure_reply("File already exists cancelling upload"), (401, s("File already exists cancelling upload")));
    assert_eq!(failure_reply(""), (401, s("")));
}

#[test]
fn walked_path_loses_its_leading_dot() {
    assert_eq!(relative_name("./a.log"), "a.log");
    assert_eq!(relative_name("./sub/in.crack"), "sub/in.crack");
    assert_eq!(relative_name("a.log"), "a.log");
    assert_eq!(relative_name("./"), "");
    assert_eq!(relative_name("."), ".");
    assert_eq!(relative_name(""), "");
    assert_eq!(relative_name("../x"), "../x");
}

#[test]
fn id_of_a_one_file_directory_has_its_fixed_form() {
    let mut user = client("alloy1");
    user.db_table = user.db_table.copy().insert(s("tracked_files"), s("log"));
    let entries = vec![file(&relative_name("./a.log"), b"abc")];
    user.get_current_filehashes(&entries).unwrap();
    assert_eq!(user.curr_file_hashes.len(), 1);
    assert_eq!(user.curr_file_hashes.get(&s("a.log")), Some(&s("ba7816bf8f01cfea")));
    assert_eq!(user.curr_id, "alloy1:4f8b42c22dd3729b");
    assert_eq!(user.curr_id.len(), 23);
}
