use rust_logger::error::ErrorKind;
use rust_logger::record::RevisionRecord;
use rust_logger::table::Table;

fn s(x: &str) -> String {
    x.to_string()
}

fn sample() -> RevisionRecord {
    RevisionRecord {
        id: s("alloy1:ba7816bf8f01cfea"),
        parent_id: s("*"),
        files: Table::new()
            .insert(s("log.lammps"), s("5891b5b522d5df08"))
            .insert(s("in.crack"), s("ba7816bf8f01cfea")),
    }
}

#[test]
fn record_is_written_with_ids_first_and_files_sorted() {
    assert_eq!(
        sample().render(),
        "id : alloy1:ba7816bf8f01cfea\nparent_id : *\nin.crack : ba7816bf8f01cfea\nlog.lammps : 5891b5b522d5df08\n"
    );
}

#[test]
fn record_without_files_has_two_lines() {
    let r = RevisionRecord { id: s("c:0"), parent_id: s("c:1"), files: Table::new() };
    assert_eq!(r.render(), "id : c:0\nparent_id : c:1\n");
}

#[test]
fn record_round_trip() {
    let text = sample().render();
    let back = RevisionRecord::parse(&text).unwrap();
    assert_eq!(back.id, "alloy1:ba7816bf8f01cfea");
    assert_eq!(back.parent_id, "*");
    assert_eq!(back.files.len(), 2);
    assert_eq!(back.files.key(0), "in.crack");
    assert_eq!(back.files.value(0), "ba7816bf8f01cfea");
    assert_eq!(back.files.key(1), "log.lammps");
    assert_eq!(back.files.value(1), "5891b5b522d5df08");
    assert_eq!(back.render(), text);
}

#[test]
fn record_is_read_without_colons_and_in_any_order() {
    let r = RevisionRecord::parse("b 2\n\nparent_id abc\r\na 1\nid xyz").unwrap();
    assert_eq!(r.id, "xyz");
    assert_eq!(r.parent_id, "abc");
    assert_eq!(r.files.key(0), "a");
    assert_eq!(r.files.key(1), "b");
    assert_eq!(r.files.value(1), "2");
}

#[test]
fn record_later_line_replaces_earlier_one() {
    let r = RevisionRecord::parse("id : 1\nparent_id : *\nf : old\nf : new\nid : 2\n").unwrap();
    assert_eq!(r.id, "2");
    assert_eq!(r.files.len(), 1);
    assert_eq!(r.files.value(0), "new");
}

#[test]
fn record_without_id_or_parent_is_refused() {
    assert_eq!(RevisionRecord::parse("parent_id : *\nf : 1\n").unwrap_err(), ErrorKind::ExtractionError);
    assert_eq!(RevisionRecord::parse("id : x\nf : 1\n").unwrap_err(), ErrorKind::ExtractionError);
    assert_eq!(RevisionRecord::parse("").unwrap_err(), ErrorKind::ExtractionError);
}

#[test]
fn record_line_with_a_key_alone_is_refused() {
    assert_eq!(
        RevisionRecord::parse("id : x\nparent_id : *\nlonely\n").unwrap_err(),
        ErrorKind::ExtractionError
    );
}
