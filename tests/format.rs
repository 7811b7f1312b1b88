use ksfc_lxi::format::{
    into_bin, into_text, parse, parse_bytes, parse_error_code, parse_fields, DTError, Field, FieldKind,
    ParseError, Reply,
};
use ksfc_lxi::number::Number;

fn as_f64(n: &Number) -> f64 {
    let sign = if n.neg { "-" } else { "" };
    format!("{}{}e{}", sign, n.mantissa, n.exp).parse::<f64>().unwrap()
}

fn ints3(r: Vec<Field>) -> (i64, i64, i64) {
    match r.as_slice() {
        [Field::Int(a), Field::Int(b), Field::Int(c)] => (*a, *b, *c),
        _ => panic!("not three integers: {:?}", r),
    }
}

fn one_f64(r: Vec<Field>) -> (f64,) {
    match r.as_slice() {
        [Field::Num(n)] => (as_f64(n),),
        _ => panic!("not one number: {:?}", r),
    }
}

const INT3: [FieldKind; 3] = [FieldKind::Int, FieldKind::Int, FieldKind::Int];

#[test]
fn format_parse_ints() {
    assert_eq!(ints3(parse_fields(&"-1,+2,+3"[..], &INT3).unwrap()), (-1, 2, 3))
}

#[test]
fn format_parse_float() {
    assert_eq!(one_f64(parse_fields(&"+9.91000000000000E+37"[..], &[FieldKind::Num]).unwrap()), (9.91e37,))
}

#[test]
fn parse_parse_ints() {
    assert_eq!(ints3(parse_bytes(&b"-1,+2,+3"[..], &INT3).unwrap()), (-1, 2, 3))
}

#[test]
fn parse_parse_float() {
    assert_eq!(one_f64(parse_bytes(&b"+9.91000000000000E+37"[..], &[FieldKind::Num]).unwrap()), (9.91e37,))
}

#[test]
fn too_few_fields_is_end_of_string() {
    assert_eq!(parse_fields("-1,+2", &INT3), Err(ParseError::EndOfString));
}

#[test]
fn bad_field_is_tagged_with_its_index() {
    assert_eq!(parse_fields("-1,abc,+3", &INT3), Err(ParseError::Arg(1)));
    assert_eq!(parse_fields("x,abc,+3", &INT3), Err(ParseError::Arg(0)));
}

#[test]
fn bad_field_before_missing_one_wins() {
    assert_eq!(parse_fields("-1,abc", &INT3), Err(ParseError::Arg(1)));
}

#[test]
fn extra_field_is_too_many() {
    assert_eq!(parse_fields("-1,+2,+3,4", &INT3), Err(ParseError::TooManyArgs));
    assert_eq!(parse_fields("-1,+2,+3,", &INT3), Err(ParseError::TooManyArgs));
}

#[test]
fn empty_text_is_one_empty_field() {
    assert_eq!(parse_fields("", &[]), Err(ParseError::TooManyArgs));
    assert_eq!(parse_fields("", &[FieldKind::Int]), Err(ParseError::Arg(0)));
}

#[test]
fn mixed_kinds() {
    let r = parse_fields("5,2.5E-3", &[FieldKind::Int, FieldKind::Num]).unwrap();
    assert_eq!(r, vec![Field::Int(5), Field::Num(Number { neg: false, mantissa: 25, exp: -4 })]);
}

#[test]
fn whole_text_parse() {
    assert_eq!(parse("7000.0", FieldKind::Num), Ok(Field::Num(Number { neg: false, mantissa: 70000, exp: -1 })));
    assert_eq!(parse("-42", FieldKind::Int), Ok(Field::Int(-42)));
    assert_eq!(parse("4.2", FieldKind::Int), Err(ParseError::Parse));
    assert_eq!(parse("abc", FieldKind::Num), Err(ParseError::Parse));
}

#[test]
fn number_grammar() {
    let num = |s: &str| parse(s, FieldKind::Num);
    assert_eq!(num(".5"), Ok(Field::Num(Number { neg: false, mantissa: 5, exp: -1 })));
    assert_eq!(num("1."), Ok(Field::Num(Number { neg: false, mantissa: 1, exp: 0 })));
    assert_eq!(num("-2e3"), Ok(Field::Num(Number { neg: true, mantissa: 2, exp: 3 })));
    assert_eq!(num("1E+05"), Ok(Field::Num(Number { neg: false, mantissa: 1, exp: 5 })));
    assert_eq!(num("."), Err(ParseError::Parse));
    assert_eq!(num("1e"), Err(ParseError::Parse));
    assert_eq!(num("e5"), Err(ParseError::Parse));
    assert_eq!(num("+"), Err(ParseError::Parse));
    assert_eq!(num("1.2.3"), Err(ParseError::Parse));
    assert_eq!(num(" 1"), Err(ParseError::Parse));
}

#[test]
fn integer_limits() {
    assert_eq!(parse("9223372036854775807", FieldKind::Int), Ok(Field::Int(i64::MAX)));
    assert_eq!(parse("-9223372036854775808", FieldKind::Int), Ok(Field::Int(i64::MIN)));
    assert_eq!(parse("9223372036854775808", FieldKind::Int), Err(ParseError::Parse));
    assert_eq!(parse("999999999999999999999999999999999999999999", FieldKind::Int), Err(ParseError::Parse));
}

#[test]
fn error_code_is_read_before_the_comma() {
    assert_eq!(parse_error_code("-213,\"INIT ignored\""), Ok(-213));
    assert_eq!(parse_error_code("+0,\"No error\""), Ok(0));
    assert_eq!(parse_error_code("0"), Ok(0));
    assert_eq!(parse_error_code("x,\"No error\""), Err(ParseError::Arg(0)));
    assert_eq!(parse_error_code("3000000000,\"big\""), Err(ParseError::Arg(0)));
}

#[test]
fn encoding_mismatch() {
    assert_eq!(into_text(Reply::Binary(vec![1, 2])), Err(DTError::NotText));
    assert_eq!(into_bin(Reply::Text(String::from("a"))), Err(DTError::NotBin));
    assert_eq!(into_text(Reply::Text(String::from("a"))), Ok(String::from("a")));
    assert_eq!(into_bin(Reply::Binary(vec![1, 2])), Ok(vec![1, 2]));
}
