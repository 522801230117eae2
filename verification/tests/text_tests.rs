use rust_logger::text::{
    chars_of, find_first, has_text, head_before_colon, is_float, join_tokens, lex_less,
    number_text, parse_int, split_commas, split_lines, split_tokens, string_of, trimmed,
    underscore,
};

fn cs(s: &str) -> Vec<char> {
    s.chars().collect()
}

fn strings(v: Vec<Vec<char>>) -> Vec<String> {
    v.into_iter().map(|t| t.into_iter().collect()).collect()
}

#[test]
fn chars_and_strings_convert_both_ways() {
    assert_eq!(chars_of("héllo"), cs("héllo"));
    assert_eq!(string_of(&cs("héllo")), "héllo");
    assert_eq!(string_of(&[]), "");
}

#[test]
fn tokens_are_split_on_any_white_space() {
    assert_eq!(strings(split_tokens(&cs("  temp 300.5\tK \u{2003}x "))), vec!["temp", "300.5", "K", "x"]);
    assert_eq!(strings(split_tokens(&cs(""))), Vec::<String>::new());
    assert_eq!(strings(split_tokens(&cs(" \t "))), Vec::<String>::new());
    assert_eq!(strings(split_tokens(&cs("one"))), vec!["one"]);
}

#[test]
fn tokens_match_the_standard_library() {
    for s in ["a b", " a  b ", "a\u{a0}b", "a\u{85}b\u{3000}c", "x\r\ny", "\u{1680}q"] {
        let expected: Vec<String> = s.split_whitespace().map(|t| t.to_string()).collect();
        assert_eq!(strings(split_tokens(&cs(s))), expected);
    }
}

#[test]
fn lines_end_at_line_feeds() {
    assert_eq!(strings(split_lines(&cs("a\nb\n"))), vec!["a", "b"]);
    assert_eq!(strings(split_lines(&cs("a\nb"))), vec!["a", "b"]);
    assert_eq!(strings(split_lines(&cs("a\r\nb\r"))), vec!["a", "b\r"]);
    assert_eq!(strings(split_lines(&cs("\n\nx"))), vec!["", "", "x"]);
    assert_eq!(strings(split_lines(&cs(""))), Vec::<String>::new());
    assert_eq!(strings(split_lines(&cs("\n"))), vec![""]);
}

#[test]
fn lines_match_the_standard_library() {
    for s in ["", "\n", "a", "a\n", "a\r\n", "a\r", "\r\n\r\n", "x\ny\r\nz", "a\n\nb\n"] {
        let expected: Vec<String> = s.lines().map(|t| t.to_string()).collect();
        assert_eq!(strings(split_lines(&cs(s))), expected);
    }
}

#[test]
fn integers_are_read_with_sign_and_range() {
    assert_eq!(parse_int(&cs("0")), Some(0));
    assert_eq!(parse_int(&cs("42")), Some(42));
    assert_eq!(parse_int(&cs("+42")), Some(42));
    assert_eq!(parse_int(&cs("-42")), Some(-42));
    assert_eq!(parse_int(&cs("007")), Some(7));
    assert_eq!(parse_int(&cs("9223372036854775807")), Some(i64::MAX));
    assert_eq!(parse_int(&cs("-9223372036854775808")), Some(i64::MIN));
    assert_eq!(parse_int(&cs("9223372036854775808")), None);
    assert_eq!(parse_int(&cs("-9223372036854775809")), None);
    assert_eq!(parse_int(&cs("99999999999999999999999999")), None);
    assert_eq!(parse_int(&cs("")), None);
    assert_eq!(parse_int(&cs("+")), None);
    assert_eq!(parse_int(&cs("-")), None);
    assert_eq!(parse_int(&cs("1.0")), None);
    assert_eq!(parse_int(&cs("12a")), None);
    assert_eq!(parse_int(&cs(" 1")), None);
}

#[test]
fn integers_match_the_standard_library() {
    for s in ["1", "-1", "+0", "--1", "1e3", "0x10", "18446744073709551615", "-0", "٣"] {
        assert_eq!(parse_int(&cs(s)), s.parse::<i64>().ok());
    }
}

#[test]
fn float_literals_are_recognised() {
    for s in [
        "300.5", "1", "-1", "+1.", ".5", "-.5e3", "1e10", "1E-10", "1.5e+3", "inf", "-inf",
        "Infinity", "NaN", "+nan", "0.0", "00012",
    ] {
        assert!(is_float(&cs(s)), "{}", s);
    }
    for s in [
        "", ".", "+", "-", "e5", "1e", "1e+", "1.2.3", "abc", "1 ", " 1", "infinit", "na",
        "1f", "0x10", "1_000", "--1", "1e1.5",
    ] {
        assert!(!is_float(&cs(s)), "{}", s);
    }
}

#[test]
fn float_literals_match_the_standard_library() {
    for s in [
        "300.5", "1", ".", "1.", ".1", "e", "1e5", "1e", "-", "inf", "INFINITY", "nan", "nAn",
        "infinity1", "+.e1", "1.e1", ".1e-1", "1e+1", "1e-+1", "٣.٥",
    ] {
        assert_eq!(is_float(&cs(s)), s.parse::<f64>().is_ok(), "{}", s);
    }
}

#[test]
fn texts_are_found_inside_texts() {
    assert!(has_text(&cs("log.lammps"), &cs("log")));
    assert!(has_text(&cs("log.lammps"), &cs("")));
    assert!(has_text(&cs("log.lammps"), &cs("lammps")));
    assert!(!has_text(&cs("log.lammps"), &cs("dump")));
    assert!(!has_text(&cs("ab"), &cs("abc")));
    assert_eq!(find_first(&cs("xxITEM: aITEM:"), &cs("ITEM:")), 2);
    assert_eq!(find_first(&cs("xxITEM"), &cs("ITEM:")), 6);
    assert_eq!(find_first(&cs("ITEM:"), &cs("ITEM:")), 0);
}

#[test]
fn lexicographic_order_goes_by_code_points() {
    assert!(lex_less(&cs("a"), &cs("b")));
    assert!(lex_less(&cs("a"), &cs("ab")));
    assert!(lex_less(&cs(""), &cs("a")));
    assert!(!lex_less(&cs("a"), &cs("a")));
    assert!(!lex_less(&cs("b"), &cs("a")));
    assert!(lex_less(&cs("Z"), &cs("a")));
    assert!(lex_less(&cs("a.txt"), &cs("a/b")));
    for (a, b) in [("in.crack", "log.lammps"), ("é", "z"), ("abc", "abd"), ("x", "")] {
        assert_eq!(lex_less(&cs(a), &cs(b)), a < b);
    }
}

#[test]
fn numbers_are_written_in_decimal() {
    assert_eq!(string_of(&number_text(0)), "0");
    assert_eq!(string_of(&number_text(7)), "7");
    assert_eq!(string_of(&number_text(10)), "10");
    assert_eq!(string_of(&number_text(1234567890)), "1234567890");
}

#[test]
fn tokens_are_joined_by_single_spaces() {
    let toks = split_tokens(&cs("title  my   long title"));
    assert_eq!(string_of(&join_tokens(&toks, 1)), "my long title");
    assert_eq!(string_of(&join_tokens(&toks, 3)), "title");
    assert_eq!(string_of(&join_tokens(&toks, 4)), "");
    assert_eq!(string_of(&join_tokens(&toks, 9)), "");
}

#[test]
fn lists_with_commas_are_split_and_trimmed() {
    assert_eq!(strings(split_commas(&cs("in., log. ,.data"))), vec!["in.", "log.", ".data"]);
    assert_eq!(strings(split_commas(&cs("one"))), vec!["one"]);
    assert_eq!(strings(split_commas(&cs(""))), vec![""]);
    assert_eq!(strings(split_commas(&cs("a,"))), vec!["a", ""]);
    assert_eq!(strings(split_commas(&cs(" , "))), vec!["", ""]);
}

#[test]
fn trimming_drops_white_space_at_both_ends() {
    let s = cs("  NUMBER OF ATOMS \t");
    assert_eq!(string_of(&trimmed(&s, 0, s.len())), "NUMBER OF ATOMS");
    let blank = cs("   ");
    assert_eq!(string_of(&trimmed(&blank, 0, 3)), "");
    assert_eq!(string_of(&trimmed(&s, 2, 8)), "NUMBER");
}

#[test]
fn collection_is_the_part_before_the_colon() {
    assert_eq!(head_before_colon("alloy1:ba7816bf8f01cfea"), "alloy1");
    assert_eq!(head_before_colon("nocolon"), "nocolon");
    assert_eq!(head_before_colon(":x"), "");
    assert_eq!(head_before_colon("a:b:c"), "a");
}

#[test]
fn spaces_become_underscores() {
    assert_eq!(underscore("2024-01-01 10:00:00 +01:00"), "2024-01-01_10:00:00_+01:00");
    assert_eq!(underscore(""), "");
}

fn all_texts(alphabet: &[char], max_len: usize) -> Vec<String> {
    let mut out = vec![String::new()];
    let mut last = vec![String::new()];
    for _ in 0..max_len {
        let mut next = Vec::new();
        for s in &last {
            for c in alphabet {
                let mut t = s.clone();
                t.push(*c);
                next.push(t);
            }
        }
        out.extend(next.iter().cloned());
        last = next;
    }
    out
}

#[test]
fn float_literals_agree_with_the_standard_library_on_short_texts() {
    for s in all_texts(&['1', '.', 'e', 'E', '+', '-', 'n', 'a', ' '], 5) {
        assert_eq!(is_float(&cs(&s)), s.parse::<f64>().is_ok(), "{:?}", s);
    }
    for s in all_texts(&['i', 'n', 'f', 'I', 't', 'y', '-'], 4) {
        assert_eq!(is_float(&cs(&s)), s.parse::<f64>().is_ok(), "{:?}", s);
    }
    for s in ["infinity", "INFINITY", "+Infinity", "-iNfInItY", "infinityy", "infinit", "1e309", "0e0"] {
        assert_eq!(is_float(&cs(s)), s.parse::<f64>().is_ok(), "{:?}", s);
    }
}

#[test]
fn integers_agree_with_the_standard_library_on_short_texts() {
    for s in all_texts(&['0', '1', '9', '+', '-', ' ', 'a'], 5) {
        assert_eq!(parse_int(&cs(&s)), s.parse::<i64>().ok(), "{:?}", s);
    }
    for n in [i64::MAX, i64::MIN, i64::MAX - 1, i64::MIN + 1, 0, -1] {
        assert_eq!(parse_int(&cs(&n.to_string())), Some(n));
    }
    for s in ["9223372036854775806", "9223372036854775810", "-9223372036854775810", "92233720368547758070"] {
        assert_eq!(parse_int(&cs(s)), s.parse::<i64>().ok(), "{:?}", s);
    }
}

#[test]
fn splitting_agrees_with_the_standard_library_on_short_texts() {
    for s in all_texts(&['a', 'b', ' ', '\n', '\r', '\t'], 6) {
        let tokens: Vec<String> = s.split_whitespace().map(|t| t.to_string()).collect();
        assert_eq!(strings(split_tokens(&cs(&s))), tokens, "{:?}", s);
        let lines: Vec<String> = s.lines().map(|t| t.to_string()).collect();
        assert_eq!(strings(split_lines(&cs(&s))), lines, "{:?}", s);
        let chars = cs(&s);
        assert_eq!(string_of(&trimmed(&chars, 0, chars.len())), s.trim(), "{:?}", s);
    }
}

#[test]
fn searching_agrees_with_the_standard_library_on_short_texts() {
    let needles = all_texts(&['a', 'b'], 2);
    for s in all_texts(&['a', 'b', 'c'], 5) {
        for n in &needles {
            assert_eq!(has_text(&cs(&s), &cs(n)), s.contains(n.as_str()), "{:?} {:?}", s, n);
            if !n.is_empty() {
                let expected = s.find(n.as_str()).unwrap_or(s.len());
                assert_eq!(find_first(&cs(&s), &cs(n)), expected, "{:?} {:?}", s, n);
            }
            assert_eq!(lex_less(&cs(&s), &cs(n)), s.as_str() < n.as_str(), "{:?} {:?}", s, n);
        }
    }
}
