use rust_logger::error::ErrorKind;
use rust_logger::extract::{scan_lines, scan_thermo, VarKind, Variable};
use rust_logger::value::{doc_get, doc_new, doc_put, Datum};

fn lines(text: &str) -> Vec<Vec<char>> {
    text.lines().map(|l| l.chars().collect()).collect()
}

fn var(name: &str, kind: VarKind) -> Variable {
    Variable { name: name.to_string(), kind }
}

fn s(x: &str) -> String {
    x.to_string()
}

fn floats(xs: &[&str]) -> Datum {
    Datum::Array(xs.iter().map(|x| Datum::Float(x.to_string())).collect())
}

#[test]
fn float_variable_is_stored_as_a_number() {
    let mut out = doc_new();
    let vars = vec![var("temp", VarKind::Float)];
    scan_lines(&mut out, &lines("run started\nfix 1 all temp 300.5 0.1\n"), &vars).unwrap();
    assert_eq!(out, vec![(s("temp"), Datum::Float(s("300.5")))]);
    assert_ne!(out[0].1, Datum::Str(s("300.5")));
    match doc_get(&out, &s("temp")) {
        Some(Datum::Float(literal)) => assert_eq!(literal.parse::<f64>().unwrap(), 300.5),
        other => panic!("{:?}", other),
    }
}

#[test]
fn int_variable_skips_what_is_no_integer() {
    let mut out = doc_new();
    let vars = vec![var("atoms", VarKind::Int)];
    scan_lines(&mut out, &lines("atoms 4000\natoms many\n"), &vars).unwrap();
    assert_eq!(out, vec![(s("atoms"), Datum::Int(4000))]);
    let mut none = doc_new();
    scan_lines(&mut none, &lines("atoms 1.5\n"), &vars).unwrap();
    assert_eq!(none, Vec::new());
}

#[test]
fn later_occurrence_replaces_earlier_value() {
    let mut out = doc_new();
    let vars = vec![var("step", VarKind::Int), var("name", VarKind::Text)];
    scan_lines(&mut out, &lines("step 1 name first\nname second\nstep -7\n"), &vars).unwrap();
    assert_eq!(out, vec![(s("step"), Datum::Int(-7)), (s("name"), Datum::Str(s("second")))]);
}

#[test]
fn text_kinds_take_one_token_or_all() {
    let mut out = doc_new();
    let vars = vec![
        var("units", VarKind::Text),
        var("title", VarKind::LongText),
        var("tags", VarKind::Keywords),
    ];
    let text = "units metal extra\n  title   crack   in  alloy \ntags fast  fcc Ni\n";
    scan_lines(&mut out, &lines(text), &vars).unwrap();
    assert_eq!(
        out,
        vec![
            (s("units"), Datum::Str(s("metal"))),
            (s("title"), Datum::Str(s("crack in alloy"))),
            (
                s("keywords"),
                Datum::Array(vec![Datum::Str(s("fast")), Datum::Str(s("fcc")), Datum::Str(s("Ni"))])
            ),
        ]
    );
}

#[test]
fn text_kinds_accept_an_empty_rest() {
    let mut out = doc_new();
    let vars = vec![var("title", VarKind::LongText), var("tags", VarKind::Keywords)];
    scan_lines(&mut out, &lines("x title\ntags\n"), &vars).unwrap();
    assert_eq!(out, vec![(s("title"), Datum::Str(s(""))), (s("keywords"), Datum::Array(vec![]))]);
}

#[test]
fn name_must_be_a_whole_token() {
    let mut out = doc_new();
    let vars = vec![var("temp", VarKind::Float)];
    scan_lines(&mut out, &lines("temperature 5\ntemp= 3\nxtemp 1\n"), &vars).unwrap();
    assert_eq!(out, Vec::new());
}

#[test]
fn missing_or_malformed_value_is_an_error() {
    let l = lines("the temp\n");
    for kind in [VarKind::Float, VarKind::Int, VarKind::Text] {
        let mut out = doc_new();
        assert_eq!(scan_lines(&mut out, &l, &vec![var("temp", kind)]), Err(ErrorKind::ExtractionError));
    }
    let mut out = doc_new();
    assert_eq!(
        scan_lines(&mut out, &lines("temp hot\n"), &vec![var("temp", VarKind::Float)]),
        Err(ErrorKind::ExtractionError)
    );
}

#[test]
fn unknown_and_table_kinds_read_no_scalar() {
    let mut out = doc_new();
    let vars = vec![var("a", VarKind::Unknown), var("b", VarKind::ThermoLog)];
    scan_lines(&mut out, &lines("a 1 b 2\n"), &vars).unwrap();
    assert_eq!(out, Vec::new());
}

#[test]
fn thermo_blocks_become_numbered_tables() {
    let log = "LAMMPS\n\
Step Temp Press\n\
0 300.0 1.5\n\
100 301.2 -1e-3\n\
Loop time of 1.2 on 4 procs\n\
other text\n\
   Step   Temp  \n\
 200 310\n\
 \n\
done\n";
    let mut out = doc_new();
    scan_thermo(&mut out, &lines(log)).unwrap();
    assert_eq!(
        out,
        vec![
            (
                s("thermo_data_0"),
                Datum::Doc(vec![
                    (s("Step"), floats(&["0", "100"])),
                    (s("Temp"), floats(&["300.0", "301.2"])),
                    (s("Press"), floats(&["1.5", "-1e-3"])),
                ])
            ),
            (
                s("thermo_data_1"),
                Datum::Doc(vec![(s("Step"), floats(&["200"])), (s("Temp"), floats(&["310"]))])
            ),
        ]
    );
}

#[test]
fn thermo_block_that_runs_to_the_end_is_stored() {
    let mut out = doc_new();
    scan_thermo(&mut out, &lines("Step Temp\n0 300.0\n")).unwrap();
    assert_eq!(
        out,
        vec![(s("thermo_data_0"), Datum::Doc(vec![(s("Step"), floats(&["0"])), (s("Temp"), floats(&["300.0"]))]))]
    );
    let mut out = doc_new();
    scan_thermo(&mut out, &lines("Step Temp\n0 1\nLoop\nStep Temp\n1 2\n2 3")).unwrap();
    assert_eq!(
        out,
        vec![
            (s("thermo_data_0"), Datum::Doc(vec![(s("Step"), floats(&["0"])), (s("Temp"), floats(&["1"]))])),
            (
                s("thermo_data_1"),
                Datum::Doc(vec![(s("Step"), floats(&["1", "2"])), (s("Temp"), floats(&["2", "3"]))])
            ),
        ]
    );
}

#[test]
fn thermo_header_at_the_end_gives_an_empty_table() {
    let mut out = doc_new();
    scan_thermo(&mut out, &lines("Step Temp\n")).unwrap();
    assert_eq!(
        out,
        vec![(s("thermo_data_0"), Datum::Doc(vec![(s("Step"), floats(&[])), (s("Temp"), floats(&[]))]))]
    );
}

#[test]
fn thermo_row_with_too_many_or_bad_cells_is_an_error() {
    let mut out = doc_new();
    assert_eq!(scan_thermo(&mut out, &lines("Step Temp\n0 1 2\nend\n")), Err(ErrorKind::ExtractionError));
    let mut out = doc_new();
    assert_eq!(scan_thermo(&mut out, &lines("Step Temp\n0 warm\nend\n")), Err(ErrorKind::ExtractionError));
}

#[test]
fn thermo_short_row_fills_the_first_columns() {
    let mut out = doc_new();
    scan_thermo(&mut out, &lines("Step Temp\n5\nend\n")).unwrap();
    assert_eq!(
        out,
        vec![(s("thermo_data_0"), Datum::Doc(vec![(s("Step"), floats(&["5"])), (s("Temp"), floats(&[]))]))]
    );
}

#[test]
fn thermo_header_needs_the_token_step() {
    let mut out = doc_new();
    scan_thermo(&mut out, &lines("Steps Temp\n0 1\nend\n")).unwrap();
    assert_eq!(out, Vec::new());
}

#[test]
fn documents_keep_the_order_of_first_insertion() {
    let mut d = doc_new();
    doc_put(&mut d, s("b"), Datum::Int(1));
    doc_put(&mut d, s("a"), Datum::Int(2));
    doc_put(&mut d, s("b"), Datum::Null);
    assert_eq!(d, vec![(s("b"), Datum::Null), (s("a"), Datum::Int(2))]);
    assert_eq!(doc_get(&d, &s("a")), Some(&Datum::Int(2)));
    assert_eq!(doc_get(&d, &s("c")), None);
}
