use rs_rmsd::xyz::{atom_fields, check_atom_total, parse_count, split_fields, trim_span, AtomFields, Span, XyzError};

fn chars(line: &str) -> Vec<char> {
    line.chars().collect()
}

fn text(line: &[char], s: Span) -> String {
    line[s.start..s.end].iter().collect()
}

#[test]
fn fields_split_on_ascii_whitespace() {
    let line = chars("  C\t1.0  -2.5\r\n");
    let spans = split_fields(&line);
    assert_eq!(spans.len(), 3);
    assert_eq!(text(&line, spans[0]), "C");
    assert_eq!(text(&line, spans[1]), "1.0");
    assert_eq!(text(&line, spans[2]), "-2.5");
}

#[test]
fn fields_of_blank_line_are_none() {
    assert!(split_fields(&chars("")).is_empty());
    assert!(split_fields(&chars(" \t \r")).is_empty());
}

#[test]
fn field_at_both_ends() {
    let line = chars("H 0");
    let spans = split_fields(&line);
    assert_eq!(spans, vec![Span { start: 0, end: 1 }, Span { start: 2, end: 3 }]);
}

#[test]
fn trim_drops_surrounding_whitespace() {
    let line = chars("  water molecule \n");
    let s = trim_span(&line);
    assert_eq!(text(&line, s), "water molecule");
}

#[test]
fn trim_of_blank_line_is_empty_at_end() {
    let line = chars("   ");
    assert_eq!(trim_span(&line), Span { start: 3, end: 3 });
}

#[test]
fn count_reads_decimal() {
    assert_eq!(parse_count(&chars("3")), Ok(3));
    assert_eq!(parse_count(&chars("  42 \n")), Ok(42));
    assert_eq!(parse_count(&chars("+7")), Ok(7));
    assert_eq!(parse_count(&chars("0")), Ok(0));
}

#[test]
fn count_largest_value() {
    let max = format!("{}", usize::MAX);
    assert_eq!(parse_count(&chars(&max)), Ok(usize::MAX));
    let over = format!("{}0", usize::MAX);
    assert_eq!(parse_count(&chars(&over)), Err(XyzError::BadCount));
}

#[test]
fn count_rejects_other_text() {
    assert_eq!(parse_count(&chars("")), Err(XyzError::BadCount));
    assert_eq!(parse_count(&chars("  \n")), Err(XyzError::BadCount));
    assert_eq!(parse_count(&chars("+")), Err(XyzError::BadCount));
    assert_eq!(parse_count(&chars("-3")), Err(XyzError::BadCount));
    assert_eq!(parse_count(&chars("1 2")), Err(XyzError::BadCount));
    assert_eq!(parse_count(&chars("12a")), Err(XyzError::BadCount));
}

#[test]
fn atom_line_gives_symbol_and_coordinates() {
    let line = chars("  O   0.000  -0.757 0.587  extra\n");
    let f: AtomFields = atom_fields(&line).unwrap();
    assert_eq!(text(&line, f.symbol), "O");
    assert_eq!(text(&line, f.x), "0.000");
    assert_eq!(text(&line, f.y), "-0.757");
    assert_eq!(text(&line, f.z), "0.587");
}

#[test]
fn atom_line_with_too_few_fields() {
    assert_eq!(atom_fields(&chars("C 1.0 2.0")), Err(XyzError::BadAtomLine));
    assert_eq!(atom_fields(&chars("")), Err(XyzError::BadAtomLine));
}

#[test]
fn atom_total_must_match_count() {
    assert_eq!(check_atom_total(2, 2), Ok(()));
    assert_eq!(check_atom_total(2, 3), Err(XyzError::AtomCountMismatch));
    assert_eq!(check_atom_total(2, 1), Err(XyzError::AtomCountMismatch));
}

#[test]
fn unicode_whitespace_separates_fields() {
    let line = chars("C\u{a0}1.0\u{3000}2.0\u{2009}3.0");
    let f = atom_fields(&line).unwrap();
    assert_eq!(text(&line, f.symbol), "C");
    assert_eq!(text(&line, f.x), "1.0");
    assert_eq!(text(&line, f.y), "2.0");
    assert_eq!(text(&line, f.z), "3.0");
}

#[test]
fn leading_unicode_whitespace_is_not_a_field() {
    assert_eq!(atom_fields(&chars("\u{a0} 1 2 3")), Err(XyzError::BadAtomLine));
}

#[test]
fn count_with_no_break_space() {
    assert_eq!(parse_count(&chars("\u{a0}2\n")), Ok(2));
    assert_eq!(parse_count(&chars("1\u{85}2")), Err(XyzError::BadCount));
}

#[test]
fn header_trim_drops_unicode_whitespace() {
    let line = chars("\u{2028}water\u{3000}\n");
    assert_eq!(text(&line, trim_span(&line)), "water");
}

#[test]
fn unicode_fields_agree_with_split_whitespace() {
    let line = " \u{a0}H\u{1680}0\u{205f}0 0\u{202f}";
    let spans = split_fields(&chars(line));
    let expected: Vec<&str> = line.split_whitespace().collect();
    let got: Vec<String> = spans.iter().map(|s| text(&chars(line), *s)).collect();
    assert_eq!(got, expected);
}
