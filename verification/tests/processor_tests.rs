use rust_logger::archive::{
    pack, read_text, unpack, ArchiveEntry, Member, REGULAR_FILE, STAGED_MODE,
};
use rust_logger::connection::Connection;
use rust_logger::diff::{changed_files, diff_text, get_file_diffs, has_parent};
use rust_logger::error::ErrorKind;
use rust_logger::processor::{confirm_insert, decompress_data, ingest, Processor};
use rust_logger::record::RevisionRecord;
use rust_logger::table::Table;
use rust_logger::value::Datum;

fn s(x: &str) -> String {
    x.to_string()
}

fn f(x: &str) -> Datum {
    Datum::Float(x.to_string())
}

fn member(name: &str, body: &str) -> Member {
    Member { name: s(name), body: body.as_bytes().to_vec() }
}

fn entry(path: &str, data: &[u8]) -> ArchiveEntry {
    ArchiveEntry { path: s(path), data: data.to_vec(), kind: REGULAR_FILE, mode: 0o644, uid: 1000, gid: 1000, mtime: 5 }
}

fn targz(files: &[(&str, &[u8])]) -> Vec<u8> {
    let mut builder = tar::Builder::new(Vec::new());
    for (name, data) in files {
        let mut header = tar::Header::new_gnu();
        header.set_size(data.len() as u64);
        header.set_mode(0o644);
        header.set_cksum();
        builder.append_data(&mut header, name, *data).unwrap();
    }
    let tar = builder.into_inner().unwrap();
    let mut encoder = flate2::write::GzEncoder::new(Vec::new(), flate2::Compression::fast());
    std::io::Write::write_all(&mut encoder, &tar).unwrap();
    encoder.finish().unwrap()
}

const REV: &str = "id : alloy1:1111111111111111\nparent_id : *\nin.crack : aaaaaaaaaaaaaaaa\nlog.lammps : bbbbbbbbbbbbbbbb\n";

const WATCH: &str = r#"{
  "dump": {"parse": 1},
  "in.crack": {"variables": {"units": {"type": "string"}}, "upload": 0},
  "log.lammps": {"variables": {"t": {"type": "thermo_log"}, "temp": {"type": "float"}}, "upload": 1}
}"#;

const LOG: &str = "units metal\nfix temp 300.5\nStep Temp\n0 1.0\n10 2.0\nLoop time\n";

const DUMP: &str = "ITEM: TIMESTEP\n0\nITEM: NUMBER OF ATOMS\n2\n";

fn upload() -> Vec<Member> {
    vec![
        member("REV", REV),
        member("watch", WATCH),
        member("in.crack", "units metal\n"),
        member("log.lammps", LOG),
        member("dump.1", DUMP),
        member("core", "not wanted"),
    ]
}

#[test]
fn archive_is_unpacked_into_named_members() {
    let bytes = targz(&[("REV", REV.as_bytes()), ("data/x.bin", &[0, 159, 255])]);
    let list = unpack(&bytes).unwrap();
    assert_eq!(list.len(), 2);
    assert_eq!(list[0].name, "REV");
    assert_eq!(list[0].body, REV.as_bytes());
    assert_eq!(list[1].name, "data/x.bin");
    assert_eq!(list[1].body, vec![0, 159, 255]);
}

#[test]
fn archive_that_is_no_gzip_is_refused() {
    assert_eq!(unpack(b"plain text").unwrap_err(), ErrorKind::ExtractionError);
    assert_eq!(unpack(&[]).unwrap_err(), ErrorKind::ExtractionError);
    assert_eq!(decompress_data(b"plain text").unwrap_err(), ErrorKind::ExtractionError);
}

#[test]
fn archive_that_is_no_tar_is_refused() {
    let mut encoder = flate2::write::GzEncoder::new(Vec::new(), flate2::Compression::fast());
    std::io::Write::write_all(&mut encoder, &[7u8; 700]).unwrap();
    let bytes = encoder.finish().unwrap();
    assert_eq!(unpack(&bytes).unwrap_err(), ErrorKind::ExtractionError);
}

#[test]
fn bytes_are_read_as_text_only_when_they_are_utf8() {
    assert_eq!(read_text(&"héllo".as_bytes().to_vec()), Some(s("héllo")));
    assert_eq!(read_text(&vec![]), Some(s("")));
    assert_eq!(read_text(&vec![0xff, 0xfe]), None);
    assert_eq!(read_text(&vec![0xc3]), None);
}

#[test]
fn packed_archive_unpacks_to_the_same_files() {
    let entries = vec![entry("in.crack", b"abc"), entry("sub/log.lammps", b"hello\n")];
    let bytes = pack(entries, &None, 1000, 99).unwrap();
    assert_eq!(&bytes[..2], &[0x1f, 0x8b]);
    let list = unpack(&bytes).unwrap();
    assert_eq!(list.len(), 2);
    assert_eq!(list[0].name, "in.crack");
    assert_eq!(list[0].body, b"abc");
    assert_eq!(list[1].name, "sub/log.lammps");
    assert_eq!(list[1].body, b"hello\n");
}

#[test]
fn packed_archive_holds_the_staged_record() {
    let entries = vec![entry("REV", b"old record"), entry("sub/REV", b"other"), entry("a", b"1")];
    let staged = Some(b"id : new\nparent_id : old\n".to_vec());
    let bytes = pack(entries, &staged, 42, 1700000000).unwrap();
    let mut tar_bytes = Vec::new();
    std::io::Read::read_to_end(&mut flate2::read::GzDecoder::new(&bytes[..]), &mut tar_bytes).unwrap();
    let mut archive = tar::Archive::new(&tar_bytes[..]);
    let mut seen = Vec::new();
    for e in archive.entries().unwrap() {
        let mut e = e.unwrap();
        let mut body = Vec::new();
        std::io::Read::read_to_end(&mut e, &mut body).unwrap();
        let h = e.header();
        seen.push((
            e.path().unwrap().to_str().unwrap().to_string(),
            body,
            h.mode().unwrap(),
            h.uid().unwrap(),
            h.gid().unwrap(),
            h.mtime().unwrap(),
        ));
    }
    assert_eq!(
        seen,
        vec![
            (s("REV"), b"id : new\nparent_id : old\n".to_vec(), STAGED_MODE, 42, 42, 1700000000),
            (s("sub/REV"), b"other".to_vec(), 0o644, 1000, 1000, 5),
            (s("a"), b"1".to_vec(), 0o644, 1000, 1000, 5),
        ]
    );
}

#[test]
fn packing_refuses_a_path_that_leaves_the_archive() {
    assert_eq!(pack(vec![entry("../escape", b"x")], &None, 0, 0).unwrap_err(), ErrorKind::PathError);
}

#[test]
fn ingestion_retains_what_is_declared_and_extracts_values() {
    let done = ingest(&upload()).unwrap();
    assert_eq!(done.record.id, "alloy1:1111111111111111");
    assert_eq!(done.record.parent_id, "*");
    let names: Vec<String> = (0..done.files.len()).map(|i| done.files.key(i).clone()).collect();
    assert_eq!(names, vec!["REV", "log.lammps", "watch"]);
    assert_eq!(done.files.get(&s("log.lammps")), Some(&s(LOG)));
    assert_eq!(
        done.extracted,
        vec![
            (s("units"), Datum::Str(s("metal"))),
            (s("temp"), f("300.5")),
            (
                s("thermo_data_0"),
                Datum::Doc(vec![
                    (s("Step"), Datum::Array(vec![f("0"), f("10")])),
                    (s("Temp"), Datum::Array(vec![f("1.0"), f("2.0")])),
                ]),
            ),
            (s("dump.1"), Datum::Doc(vec![(s("0"), Datum::Doc(vec![(s("NUMBER OF ATOMS"), f("2"))]))])),
        ]
    );
}

#[test]
fn ingestion_without_a_schema_keeps_the_recorded_files() {
    let list = vec![
        member("in.crack", "units metal\n"),
        member("REV", REV),
        member("dump.1", DUMP),
        member("notes", "x"),
    ];
    let done = ingest(&list).unwrap();
    let names: Vec<String> = (0..done.files.len()).map(|i| done.files.key(i).clone()).collect();
    assert_eq!(names, vec!["REV", "in.crack"]);
    assert_eq!(done.extracted, Vec::new());
}

#[test]
fn ingestion_keeps_trajectories_verbatim_when_asked() {
    let list = vec![member("REV", REV), member("watch", r#"{"dump": {"parse": 0}}"#), member("dump.1", DUMP)];
    let done = ingest(&list).unwrap();
    assert_eq!(done.files.get(&s("dump.1")), Some(&s(DUMP)));
    assert_eq!(done.extracted, Vec::new());
}

#[test]
fn ingestion_without_a_record_is_fatal() {
    let list = vec![member("watch", WATCH), member("log.lammps", LOG)];
    assert_eq!(ingest(&list).unwrap_err(), ErrorKind::ExtractionError);
    let list = vec![member("REV", "id : x\n")];
    assert_eq!(ingest(&list).unwrap_err(), ErrorKind::ExtractionError);
    let list = vec![member("REV.bak", REV)];
    assert_eq!(ingest(&list).unwrap_err(), ErrorKind::ExtractionError);
}

#[test]
fn ingestion_fails_on_a_bad_schema_or_a_missing_file() {
    let list = vec![member("REV", REV), member("watch", "{ not json")];
    assert_eq!(ingest(&list).unwrap_err(), ErrorKind::ExtractionError);
    let list = vec![member("REV", REV), member("watch", WATCH), member("log.lammps", LOG)];
    assert_eq!(ingest(&list).unwrap_err(), ErrorKind::ExtractionError);
    let mut list = upload();
    list[3] = Member { name: s("log.lammps"), body: vec![0xff] };
    assert_eq!(ingest(&list).unwrap_err(), ErrorKind::ExtractionError);
    let mut list = upload();
    list[4] = member("dump.1", "ITEM: TIMESTEP\n");
    assert_eq!(ingest(&list).unwrap_err(), ErrorKind::ExtractionError);
}

#[test]
fn ingestion_of_an_archive_goes_through_unpacking() {
    let bytes = targz(&[
        ("REV", REV.as_bytes()),
        ("in.crack", b"units metal\n"),
        ("log.lammps", LOG.as_bytes()),
        ("junk.bin", &[0xff, 0x00]),
    ]);
    let done = decompress_data(&bytes).unwrap();
    assert_eq!(done.files.len(), 3);
    assert_eq!(done.files.get(&s("in.crack")), Some(&s("units metal\n")));
    assert_eq!(done.files.get(&s("junk.bin")), None);
}

#[test]
fn diff_of_identical_texts_has_no_hunks() {
    assert_eq!(diff_text(&s("a\nb\n"), &s("a\nb\n")), Vec::<String>::new());
    assert_eq!(diff_text(&s(""), &s("")), Vec::<String>::new());
}

#[test]
fn diff_against_nothing_is_one_hunk_with_the_whole_file() {
    assert_eq!(diff_text(&s(""), &s("a\nb\n")), vec![s("@@ -0,0 +1,2 @@\n+a\n+b\n")]);
}

#[test]
fn diff_shows_a_changed_line_in_its_context() {
    assert_eq!(
        diff_text(&s("one\ntwo\nthree\n"), &s("one\n2\nthree\n")),
        vec![s("@@ -1,3 +1,3 @@\n one\n-two\n+2\n three\n")]
    );
}

#[test]
fn diff_splits_distant_changes_into_hunks() {
    let old: String = (0..20).map(|i| format!("{}\n", i)).collect();
    let new = old.replace("1\n2\n", "1\nx\n").replace("18\n", "y\n");
    assert_eq!(diff_text(&old, &new).len(), 2);
}

fn parent_files() -> Table {
    Table::new()
        .insert(
            s("REV"),
            s("id : alloy1:0000000000000000\nparent_id : *\nin.crack : aaaaaaaaaaaaaaaa\nlog.lammps : cccccccccccccccc\n"),
        )
        .insert(s("log.lammps"), s("old log\n"))
        .insert(s("in.crack"), s("units metal\n"))
}

fn child() -> (RevisionRecord, Table) {
    let text = "id : alloy1:1111111111111111\nparent_id : alloy1:0000000000000000\nin.crack : aaaaaaaaaaaaaaaa\nlog.lammps : bbbbbbbbbbbbbbbb\n";
    let files = Table::new()
        .insert(s("REV"), s(text))
        .insert(s("log.lammps"), s("new log\n"))
        .insert(s("in.crack"), s("units metal\n"));
    (RevisionRecord::parse(text).unwrap(), files)
}

#[test]
fn changed_files_are_those_with_another_hash_or_none() {
    let old = Table::new().insert(s("a"), s("1")).insert(s("b"), s("2"));
    let new = Table::new().insert(s("a"), s("1")).insert(s("b"), s("3")).insert(s("c"), s("4"));
    assert_eq!(changed_files(&new, &old), vec![s("b"), s("c")]);
    assert_eq!(changed_files(&old, &old), Vec::<String>::new());
    assert_eq!(changed_files(&old, &Table::new()), vec![s("a"), s("b")]);
}

#[test]
fn modified_file_has_the_only_diff() {
    let (record, files) = child();
    assert!(has_parent(&record));
    let parent = parent_files();
    let diffs = get_file_diffs(&record, &files, Some(&parent)).unwrap();
    assert_eq!(
        diffs,
        vec![(s("log.lammps"), vec![s("@@ -1 +1 @@\n-old log\n+new log\n")])]
    );
}

#[test]
fn file_that_the_parent_never_stored_is_diffed_against_nothing() {
    let (record, files) = child();
    let parent = parent_files().remove(&s("log.lammps"));
    let diffs = get_file_diffs(&record, &files, Some(&parent)).unwrap();
    assert_eq!(diffs, vec![(s("log.lammps"), vec![s("@@ -0,0 +1 @@\n+new log\n")])]);
}

#[test]
fn missing_parent_gives_no_diffs() {
    let (record, files) = child();
    assert_eq!(get_file_diffs(&record, &files, None).unwrap(), Vec::new());
}

#[test]
fn first_revision_gives_no_diffs() {
    let record = RevisionRecord::parse(REV).unwrap();
    assert!(!has_parent(&record));
    let parent = parent_files();
    assert_eq!(get_file_diffs(&record, &Table::new(), Some(&parent)).unwrap(), Vec::new());
}

#[test]
fn diff_fails_without_the_parent_record_or_the_new_text() {
    let (record, files) = child();
    let parent = parent_files().remove(&s("REV"));
    assert_eq!(get_file_diffs(&record, &files, Some(&parent)).unwrap_err(), ErrorKind::ExtractionError);
    let parent = parent_files().insert(s("REV"), s("garbage"));
    assert_eq!(get_file_diffs(&record, &files, Some(&parent)).unwrap_err(), ErrorKind::ExtractionError);
    let parent = parent_files();
    let files = files.remove(&s("log.lammps"));
    assert_eq!(get_file_diffs(&record, &files, Some(&parent)).unwrap_err(), ErrorKind::ExtractionError);
}

fn processor() -> Processor {
    let headers = vec![(s("username"), s("ann")), (s("filename"), s("run7")), (s("collection"), s("alloy1"))];
    Processor::new(s("/data/run7.tar.gz"), Connection::get_conn_info(&headers), Table::new())
}

#[test]
fn record_of_an_upload_is_assembled_whole() {
    let list = vec![
        member("REV", "id : alloy1:1111111111111111\nparent_id : alloy1:0000000000000000\nin.crack : aaaaaaaaaaaaaaaa\nlog.lammps : bbbbbbbbbbbbbbbb\n"),
        member("log.lammps", "new log\n"),
        member("in.crack", "units metal\n"),
    ];
    let done = ingest(&list).unwrap();
    let parent = parent_files();
    let record = processor().process_data(done, Some(&parent), 1700000000).unwrap();
    assert_eq!(record.upload_name, "run7");
    assert_eq!(record.upload_path, "/data/run7.tar.gz");
    assert_eq!(record.upload_time, 1700000000);
    assert_eq!(record.id, "alloy1:1111111111111111");
    assert_eq!(record.parent_id, "alloy1:0000000000000000");
    assert_eq!(record.files.len(), 3);
    assert_eq!(record.extracted, Vec::new());
    assert_eq!(record.diffs.len(), 1);
    assert_eq!(record.diffs[0].0, "log.lammps");
    assert_eq!(record.diffs[0].1, vec![s("@@ -1 +1 @@\n-old log\n+new log\n")]);
}

#[test]
fn record_of_an_upload_with_a_lost_parent_has_no_diffs() {
    let (_, _) = child();
    let list = vec![
        member("REV", "id : alloy1:1\nparent_id : alloy1:0\nlog.lammps : bbbbbbbbbbbbbbbb\n"),
        member("log.lammps", "new log\n"),
    ];
    let done = ingest(&list).unwrap();
    let record = processor().process_data(done, None, 1).unwrap();
    assert_eq!(record.diffs, Vec::new());
    assert_eq!(record.parent_id, "alloy1:0");
    assert_eq!(record.files.len(), 2);
}

#[test]
fn refused_insert_is_a_storage_error() {
    assert_eq!(confirm_insert(true), Ok(()));
    assert_eq!(confirm_insert(false), Err(ErrorKind::StorageError));
}

#[test]
fn members_that_only_resemble_the_record_or_the_schema_are_dropped() {
    let list = vec![
        member("REV", REV),
        member("REVIEW.txt", "not the record"),
        member("old/REV", "id : other\nparent_id : *\n"),
        member("watchlist", "{ not a schema"),
        member("in.crack", "units metal\n"),
    ];
    let done = ingest(&list).unwrap();
    let names: Vec<String> = (0..done.files.len()).map(|i| done.files.key(i).clone()).collect();
    assert_eq!(names, vec!["REV", "in.crack"]);
    assert_eq!(done.record.id, "alloy1:1111111111111111");
}

#[test]
fn declared_file_whose_name_holds_the_directive_word_is_kept_and_read() {
    let list = vec![
        member("REV", "id : c:1\nparent_id : *\n"),
        member("watch", r#"{"dumpster.log": {"variables": {"temp": {"type": "float"}}, "upload": 1}}"#),
        member("dumpster.log", "temp 1.5\n"),
        member("dump.1", DUMP),
    ];
    let done = ingest(&list).unwrap();
    let names: Vec<String> = (0..done.files.len()).map(|i| done.files.key(i).clone()).collect();
    assert_eq!(names, vec!["REV", "dumpster.log", "watch"]);
    assert_eq!(done.files.get(&s("dumpster.log")), Some(&s("temp 1.5\n")));
    assert_eq!(done.extracted, vec![(s("temp"), f("1.5"))]);
}

#[test]
fn table_that_runs_to_the_end_of_a_log_is_extracted() {
    let list = vec![
        member("REV", "id : alloy1:0123456789abcdef\nparent_id : *\n"),
        member("watch", r#"{"log.lammps": {"upload": 1, "variables": {"th": {"type": "thermo_log"}}}}"#),
        member("log.lammps", "Step Temp\n0 300.0\n"),
    ];
    let done = ingest(&list).unwrap();
    assert_eq!(
        done.extracted,
        vec![(
            s("thermo_data_0"),
            Datum::Doc(vec![(s("Step"), Datum::Array(vec![f("0")])), (s("Temp"), Datum::Array(vec![f("300.0")]))]),
        )]
    );
}
