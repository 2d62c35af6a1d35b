use mcworldgen::args::{
    parse_arguments, parse_number, parse_triple, split_fields, ArgumentError, TripleError,
};
use mcworldgen::bounds::Bounds;
use mcworldgen::points::Point;

fn chars_of(text: &str) -> Vec<char> {
    text.chars().collect()
}

fn command(args: &[&str]) -> Vec<String> {
    args.iter().map(|a| a.to_string()).collect()
}

fn triple(x: i64, y: i64, z: i64) -> Point {
    Point { x, y, z }
}

#[test]
fn a_text_is_split_at_its_commas() {
    assert_eq!(split_fields("0,8,0"), vec![chars_of("0"), chars_of("8"), chars_of("0")]);
    assert_eq!(split_fields(""), vec![chars_of("")]);
    assert_eq!(split_fields(","), vec![chars_of(""), chars_of("")]);
    assert_eq!(split_fields("ab"), vec![chars_of("ab")]);
    assert_eq!(split_fields("a,,b,"), vec![chars_of("a"), chars_of(""), chars_of("b"), chars_of("")]);
}

#[test]
fn numbers_are_read_with_an_optional_sign() {
    assert_eq!(parse_number(&chars_of("0")), Some(0));
    assert_eq!(parse_number(&chars_of("42")), Some(42));
    assert_eq!(parse_number(&chars_of("-42")), Some(-42));
    assert_eq!(parse_number(&chars_of("+42")), Some(42));
    assert_eq!(parse_number(&chars_of("007")), Some(7));
    assert_eq!(parse_number(&chars_of("-0")), Some(0));
}

#[test]
fn numbers_are_read_up_to_the_ends_of_the_range() {
    assert_eq!(parse_number(&chars_of("9223372036854775807")), Some(i64::MAX));
    assert_eq!(parse_number(&chars_of("-9223372036854775808")), Some(i64::MIN));
    assert_eq!(parse_number(&chars_of("9223372036854775808")), None);
    assert_eq!(parse_number(&chars_of("-9223372036854775809")), None);
    assert_eq!(parse_number(&chars_of("99999999999999999999999999999999999999999999")), None);
    assert_eq!(parse_number(&chars_of("000000000000000000000000000000000000000000012")), Some(12));
}

#[test]
fn what_is_no_number_is_refused() {
    for text in ["", "+", "-", " 5", "5 ", "1.5", "abc", "--5", "+-5", "5-", "१२", "0x10", "1_000"] {
        assert_eq!(parse_number(&chars_of(text)), None);
    }
}

#[test]
fn a_triple_has_three_numbers() {
    assert_eq!(parse_triple("0,8,0"), Ok(triple(0, 8, 0)));
    assert_eq!(parse_triple("100,8,100"), Ok(triple(100, 8, 100)));
    assert_eq!(parse_triple("-1,+2,-3"), Ok(triple(-1, 2, -3)));
}

#[test]
fn a_triple_of_another_shape_is_refused() {
    assert_eq!(parse_triple(""), Err(TripleError::Shape));
    assert_eq!(parse_triple("1"), Err(TripleError::Shape));
    assert_eq!(parse_triple("1,2"), Err(TripleError::Shape));
    assert_eq!(parse_triple("1,2,3,4"), Err(TripleError::Shape));
    assert_eq!(parse_triple("1,2,3,"), Err(TripleError::Shape));
}

#[test]
fn the_first_part_that_is_no_number_is_named() {
    assert_eq!(parse_triple("x,2,3"), Err(TripleError::Number(0)));
    assert_eq!(parse_triple("1,y,3"), Err(TripleError::Number(1)));
    assert_eq!(parse_triple("1,2,z"), Err(TripleError::Number(2)));
    assert_eq!(parse_triple("x,y,z"), Err(TripleError::Number(0)));
    assert_eq!(parse_triple("1,,3"), Err(TripleError::Number(1)));
    assert_eq!(parse_triple("1, 2,3"), Err(TripleError::Number(1)));
    assert_eq!(parse_triple(",,"), Err(TripleError::Number(0)));
}

#[test]
fn a_command_line_without_triples_uses_the_defaults() {
    let parsed = parse_arguments(&command(&["find", "world/DIM1", "*ore*"])).unwrap();
    assert_eq!(parsed.dimension, "world/DIM1");
    assert_eq!(parsed.pattern, "*ore*");
    assert_eq!(parsed.home, triple(0, 8, 0));
    assert_eq!(parsed.threshold, triple(100, 8, 100));
    assert_eq!(parsed.boundary, Bounds { min: triple(-100, 0, -100), max: triple(100, 16, 100) });
}

#[test]
fn a_command_line_may_give_home_and_threshold() {
    let parsed = parse_arguments(&command(&["find", "d", "p", "10,20,30"])).unwrap();
    assert_eq!(parsed.home, triple(10, 20, 30));
    assert_eq!(parsed.threshold, triple(100, 8, 100));
    assert_eq!(parsed.boundary, Bounds { min: triple(-90, 12, -70), max: triple(110, 28, 130) });
    let both = parse_arguments(&command(&["find", "d", "p", "10,20,30", "1,2,3", "ignored"])).unwrap();
    assert_eq!(both.threshold, triple(1, 2, 3));
    assert_eq!(both.boundary, Bounds { min: triple(9, 18, 27), max: triple(11, 22, 33) });
}

#[test]
fn a_command_line_with_too_little_is_refused() {
    assert_eq!(parse_arguments(&command(&[])), Err(ArgumentError::MissingDimension));
    assert_eq!(parse_arguments(&command(&["find"])), Err(ArgumentError::MissingDimension));
    assert_eq!(parse_arguments(&command(&["find", "d"])), Err(ArgumentError::MissingPattern));
}

#[test]
fn a_command_line_with_a_bad_triple_is_refused() {
    assert_eq!(
        parse_arguments(&command(&["find", "d", "p", "1,2"])),
        Err(ArgumentError::Home(TripleError::Shape))
    );
    assert_eq!(
        parse_arguments(&command(&["find", "d", "p", "1,2,x", "bad"])),
        Err(ArgumentError::Home(TripleError::Number(2)))
    );
    assert_eq!(
        parse_arguments(&command(&["find", "d", "p", "1,2,3", "4,y,6"])),
        Err(ArgumentError::Threshold(TripleError::Number(1)))
    );
    assert_eq!(
        parse_arguments(&command(&["find", "d", "p", "9223372036854775807,0,0", "1,1,1"])),
        Err(ArgumentError::Boundary)
    );
}
