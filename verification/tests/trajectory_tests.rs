use rust_logger::error::ErrorKind;
use rust_logger::trajectory::{parse_trajectory, Mode, Parser};
use rust_logger::value::Datum;

fn cs(s: &str) -> Vec<char> {
    s.chars().collect()
}

fn s(x: &str) -> String {
    x.to_string()
}

fn f(x: &str) -> Datum {
    Datum::Float(x.to_string())
}

const DUMP: &str = "ITEM: TIMESTEP\n\
0\n\
ITEM: NUMBER OF ATOMS\n\
2\n\
ITEM: BOX BOUNDS pp pp\n\
0.0 10.0\n\
-1 1e1\n\
ITEM: ATOMS id x\n\
1 0.5\n\
2 1.5\n\
ITEM: TIMESTEP\n\
100\n\
ITEM: NUMBER OF ATOMS\n\
2\n";

#[test]
fn trajectory_is_read_into_frames() {
    let frames = parse_trajectory(&cs(DUMP)).unwrap();
    let expected = vec![
        (
            s("0"),
            Datum::Doc(vec![
                (s("NUMBER OF ATOMS"), f("2")),
                (
                    s("BOX BOUNDS"),
                    Datum::Doc(vec![
                        (s("0"), Datum::Doc(vec![(s("pp"), f("10.0"))])),
                        (s("1"), Datum::Doc(vec![(s("pp"), f("1e1"))])),
                    ]),
                ),
                (
                    s("ATOMS"),
                    Datum::Doc(vec![
                        (s("0"), Datum::Doc(vec![(s("id"), f("1")), (s("x"), f("0.5"))])),
                        (s("1"), Datum::Doc(vec![(s("id"), f("2")), (s("x"), f("1.5"))])),
                    ]),
                ),
            ]),
        ),
        (s("100"), Datum::Doc(vec![(s("NUMBER OF ATOMS"), f("2"))])),
    ];
    assert_eq!(frames, expected);
}

#[test]
fn trajectory_of_nothing_has_no_frames() {
    assert_eq!(parse_trajectory(&cs("")).unwrap(), Vec::new());
    assert_eq!(parse_trajectory(&cs("no items here\nat all\n")).unwrap(), Vec::new());
}

#[test]
fn trajectory_item_before_any_frame_is_an_error() {
    assert_eq!(parse_trajectory(&cs("ITEM: NUMBER OF ATOMS\n2\n")), Err(ErrorKind::ExtractionError));
    assert_eq!(parse_trajectory(&cs("ITEM: ATOMS id\n1\n")), Err(ErrorKind::ExtractionError));
}

#[test]
fn trajectory_that_ends_in_the_middle_of_an_item_is_an_error() {
    assert_eq!(parse_trajectory(&cs("ITEM: TIMESTEP\n")), Err(ErrorKind::ExtractionError));
    assert_eq!(
        parse_trajectory(&cs("ITEM: TIMESTEP\n0\nITEM: NUMBER OF ATOMS\n")),
        Err(ErrorKind::ExtractionError)
    );
}

#[test]
fn trajectory_with_a_malformed_number_is_an_error() {
    assert_eq!(
        parse_trajectory(&cs("ITEM: TIMESTEP\n0\nITEM: NUMBER OF ATOMS\nmany\n")),
        Err(ErrorKind::ExtractionError)
    );
    assert_eq!(
        parse_trajectory(&cs("ITEM: TIMESTEP\n0\nITEM: ATOMS id x\n1 here\n")),
        Err(ErrorKind::ExtractionError)
    );
    assert_eq!(
        parse_trajectory(&cs("ITEM: TIMESTEP\n0\nITEM: ATOMS id x\n1 2 3\n")),
        Err(ErrorKind::ExtractionError)
    );
}

#[test]
fn trajectory_item_with_columns_and_no_rows_is_empty() {
    let frames = parse_trajectory(&cs("ITEM: TIMESTEP\n7\nITEM: ATOMS id x\n")).unwrap();
    assert_eq!(frames, vec![(s("7"), Datum::Doc(vec![(s("ATOMS"), Datum::Doc(vec![]))]))]);
}

#[test]
fn trajectory_repeated_frame_key_starts_the_frame_again() {
    let text = "ITEM: TIMESTEP\n0\nITEM: N\n1\nITEM: TIMESTEP\n5\nITEM: TIMESTEP\n0\nITEM: M\n2\n";
    let frames = parse_trajectory(&cs(text)).unwrap();
    assert_eq!(
        frames,
        vec![(s("0"), Datum::Doc(vec![(s("M"), f("2"))])), (s("5"), Datum::Doc(vec![]))]
    );
}

#[test]
fn parser_walks_through_its_states() {
    let mut p = Parser::new();
    assert_eq!(p.mode, Mode::SeekItem);
    p.step(&cs("junk")).unwrap();
    assert_eq!(p.mode, Mode::SeekItem);
    p.step(&cs("ITEM: TIMESTEP")).unwrap();
    assert_eq!(p.mode, Mode::ReadTimestepKey);
    p.step(&cs("42")).unwrap();
    assert_eq!(p.mode, Mode::SeekItem);
    assert_eq!(p.timestep, Some(s("42")));
    p.step(&cs("ITEM: NUMBER OF ATOMS")).unwrap();
    assert_eq!(p.mode, Mode::ReadSingleValue);
    assert_eq!(p.item, "NUMBER OF ATOMS");
    p.step(&cs("3")).unwrap();
    assert_eq!(p.mode, Mode::SeekItem);
    p.step(&cs("ITEM: ATOMS id type")).unwrap();
    assert_eq!(p.mode, Mode::ReadColumnRows);
    assert_eq!(p.item, "ATOMS");
    assert_eq!(p.columns, vec![s("id"), s("type")]);
    p.step(&cs("1 2")).unwrap();
    assert_eq!(p.rows, 1);
    p.step(&cs("ITEM: TIMESTEP")).unwrap();
    assert_eq!(p.mode, Mode::ReadTimestepKey);
    assert!(p.finish().is_err());
}
