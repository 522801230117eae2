use rust_logger::error::ErrorKind;
use rust_logger::extract::VarKind;
use rust_logger::json::parse_json;
use rust_logger::schema::{read_kind, ExtractionSchema, Trajectories};
use rust_logger::value::Datum;

fn s(x: &str) -> String {
    x.to_string()
}

const SCHEMA: &str = r#"{
  "log.lammps": {
    "variables": {
      "temp": {"type": "float"},
      "atoms": {"type": "int"},
      "thermo": {"type": "thermo_log"},
      "odd": {"type": "matrix"}
    },
    "upload": 1
  },
  "in.crack": {"variables": {"units": {"type": "string"}}, "upload": 0},
  "dump": {"parse": 1}
}"#;

#[test]
fn json_text_is_read_into_values() {
    let v = parse_json(r#"{"a": [1, -2.5, "x", true, null], "b": {"c": 1e3}}"#).unwrap();
    let expected = Datum::Doc(vec![
        (
            s("a"),
            Datum::Array(vec![
                Datum::Float(s("1")),
                Datum::Float(s("-2.5")),
                Datum::Str(s("x")),
                Datum::Bool(true),
                Datum::Null,
            ]),
        ),
        (s("b"), Datum::Doc(vec![(s("c"), Datum::Float(s("1000.0")))])),
    ]);
    assert_eq!(v, expected);
}

#[test]
fn json_text_that_is_malformed_is_refused() {
    assert_eq!(parse_json("{").unwrap_err(), ErrorKind::ExtractionError);
    assert_eq!(parse_json("").unwrap_err(), ErrorKind::ExtractionError);
    assert_eq!(parse_json("{} x").unwrap_err(), ErrorKind::ExtractionError);
}

#[test]
fn schema_is_read_from_json() {
    let schema = ExtractionSchema::from_json(&parse_json(SCHEMA).unwrap()).unwrap();
    assert_eq!(schema.trajectories, Trajectories::Parse);
    assert_eq!(schema.files.len(), 2);
    let log = schema.files.iter().find(|f| f.name == "log.lammps").unwrap();
    assert!(log.upload);
    let kinds: Vec<(String, VarKind)> =
        log.variables.iter().map(|v| (v.name.clone(), v.kind)).collect();
    assert!(kinds.contains(&(s("temp"), VarKind::Float)));
    assert!(kinds.contains(&(s("atoms"), VarKind::Int)));
    assert!(kinds.contains(&(s("thermo"), VarKind::ThermoLog)));
    assert!(kinds.contains(&(s("odd"), VarKind::Unknown)));
    assert_eq!(kinds.len(), 4);
    let input = schema.files.iter().find(|f| f.name == "in.crack").unwrap();
    assert!(!input.upload);
    assert_eq!(input.variables[0].kind, VarKind::Text);
}

#[test]
fn schema_says_what_to_do_with_trajectories() {
    let read = |text: &str| ExtractionSchema::from_json(&parse_json(text).unwrap()).unwrap().trajectories;
    assert_eq!(read("{}"), Trajectories::Ignore);
    assert_eq!(read(r#"{"dump": {"parse": 0}}"#), Trajectories::Keep);
    assert_eq!(read(r#"{"dump": {"parse": 1}}"#), Trajectories::Parse);
    assert_eq!(read(r#"{"dump": {}}"#), Trajectories::Parse);
    assert_eq!(read(r#"{"dump": 0}"#), Trajectories::Parse);
    assert_eq!(read(r#"{"dump": {"parse": 0.0}}"#), Trajectories::Parse);
    assert_eq!(
        read(r#"{"dumpster.log": {"variables": {}, "upload": 1}}"#),
        Trajectories::Ignore
    );
}

#[test]
fn schema_that_is_malformed_is_refused() {
    let read = |text: &str| ExtractionSchema::from_json(&parse_json(text).unwrap()).map(|_| ());
    assert_eq!(read("[]"), Err(ErrorKind::ExtractionError));
    assert_eq!(read(r#"{"f": 1}"#), Err(ErrorKind::ExtractionError));
    assert_eq!(read(r#"{"f": {"upload": 1}}"#), Err(ErrorKind::ExtractionError));
    assert_eq!(read(r#"{"f": {"variables": {}}}"#), Err(ErrorKind::ExtractionError));
    assert_eq!(read(r#"{"f": {"variables": {}, "upload": "yes"}}"#), Err(ErrorKind::ExtractionError));
    assert_eq!(read(r#"{"f": {"variables": {}, "upload": 1.5}}"#), Err(ErrorKind::ExtractionError));
    assert_eq!(read(r#"{"f": {"variables": {"v": {}}, "upload": 1}}"#), Err(ErrorKind::ExtractionError));
    assert_eq!(read(r#"{"f": {"variables": {"v": {"type": 3}}, "upload": 1}}"#), Err(ErrorKind::ExtractionError));
    assert_eq!(read(r#"{"f": {"variables": {}, "upload": 1}}"#), Ok(()));
    assert_eq!(read(r#"{"dump.lammpstrj": {"parse": 0}}"#), Err(ErrorKind::ExtractionError));
}

#[test]
fn schema_key_that_only_holds_the_directive_word_is_a_file() {
    let schema = ExtractionSchema::from_json(
        &parse_json(r#"{"dumpster.log": {"variables": {"t": {"type": "int"}}, "upload": 1}, "dump": {"parse": 1}}"#)
            .unwrap(),
    )
    .unwrap();
    assert_eq!(schema.files.len(), 1);
    assert_eq!(schema.files[0].name, "dumpster.log");
    assert_eq!(schema.files[0].variables[0].kind, VarKind::Int);
    assert_eq!(schema.trajectories, Trajectories::Parse);
}

#[test]
fn schema_kinds_have_fixed_names() {
    assert_eq!(read_kind(&s("int")), VarKind::Int);
    assert_eq!(read_kind(&s("float")), VarKind::Float);
    assert_eq!(read_kind(&s("string")), VarKind::Text);
    assert_eq!(read_kind(&s("long_string")), VarKind::LongText);
    assert_eq!(read_kind(&s("keywords")), VarKind::Keywords);
    assert_eq!(read_kind(&s("thermo_log")), VarKind::ThermoLog);
    assert_eq!(read_kind(&s("Int")), VarKind::Unknown);
    assert_eq!(read_kind(&s("")), VarKind::Unknown);
}

#[test]
fn empty_schema_declares_nothing() {
    let e = ExtractionSchema::empty();
    assert_eq!(e.files.len(), 0);
    assert_eq!(e.trajectories, Trajectories::Ignore);
}
