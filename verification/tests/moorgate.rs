use dice_roll::moorgate::{parse_mapped, sym, Error, LineColumn, TParser};
use std::str::FromStr;

#[test]
fn test_yolo() {
    let parser = sym("yolo");
    assert_eq!(parser.parse("yolo blah"), Ok("yolo blah"));
}

#[test]
fn it_should_map_nums() {
    let parser = sym("1234").map(|input| i64::from_str(&input).unwrap());
    assert_eq!(parser.parse("1234"), Ok(1234));
}

#[test]
fn sym_fails_at_the_start_of_another_text() {
    let parser = sym("yolo");
    let at_start = Error { position: LineColumn { line: 1, column: 1 } };
    assert_eq!(parser.parse("yol"), Err(at_start));
    assert_eq!(parser.parse("blah yolo"), Err(at_start));
    assert_eq!(parser.parse(""), Err(at_start));
}

#[test]
fn empty_symbol_accepts_every_text() {
    assert_eq!(sym("").parse("anything"), Ok("anything"));
    assert_eq!(sym("").parse(""), Ok(""));
}

#[test]
fn map_hands_the_failure_on() {
    let parser = sym("12").map(|input| input.len());
    let at_start = Error { position: LineColumn { line: 1, column: 1 } };
    assert_eq!(parser.parse("21"), Err(at_start));
    assert_eq!(parser.parse("123"), Ok(3));
}

#[test]
fn map_of_map_applies_both_functions() {
    let parser = sym("7").map(|input| input.len()).map(|length| length + 41);
    assert_eq!(parser.parse("7 up"), Ok(45));
}

#[test]
fn parse_mapped_runs_the_mapped_parser() {
    let parser = sym("12");
    let at_start = Error { position: LineColumn { line: 1, column: 1 } };
    assert_eq!(parse_mapped(&parser, |input| input.len(), "123"), Ok(3));
    assert_eq!(parse_mapped(&parser, |input| input.len(), "21"), Err(at_start));
    assert_eq!(
        parse_mapped(&parser, |input| i64::from_str(input).unwrap(), "12"),
        parser.map(|input| i64::from_str(input).unwrap()).parse("12")
    );
    let twice = parser.map(|input| input.len());
    assert_eq!(parse_mapped(&twice, |length| length * 2, "1234"), Ok(8));
}
