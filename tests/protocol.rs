use ksfc_lxi::catalog::{ErrorCatalog, KsDevErr};
use ksfc_lxi::enrich::{check_command, system_error, value_step, Action, Phase, SYSTEM_ERROR_QUERY};
use ksfc_lxi::error::Error;
use ksfc_lxi::format::{DTError, Field, ParseError, Reply};
use ksfc_lxi::handle::HandleParams;
use ksfc_lxi::number::Number;
use ksfc_lxi::replies::{cal_from_reply, count_from_reply, ese_from_reply, span_from_reply, values_from_reply};
use ksfc_lxi::span::Span;
use ksfc_lxi::types::{ChannelNo, TriggerSource};

fn text(s: &str) -> Result<Reply, Error> {
    Ok(Reply::Text(String::from(s)))
}

#[test]
fn catalog_lookup() {
    let c = ErrorCatalog::new();
    assert_eq!(c.lookup(-222), Some("Data out of range"));
    assert_eq!(c.lookup(-213), Some("INIT ignored"));
    assert_eq!(c.lookup(99999), None);
}

#[test]
fn catalog_first_entry_wins() {
    let c = ErrorCatalog::from_entries(vec![(5, "first"), (6, "other"), (5, "second")]);
    assert_eq!(c.lookup(5), Some("first"));
    assert_eq!(c.lookup(6), Some("other"));
    assert_eq!(c.lookup(7), None);
}

#[test]
fn catalog_resolve() {
    let c = ErrorCatalog::new();
    let e = c.resolve(-222).unwrap();
    assert_eq!(e.code(), -222);
    assert_eq!(e.description(), "Data out of range");
    assert!(matches!(c.resolve(99999), Err(Error::UnknownCode(99999))));
}

#[test]
fn device_errors_compare_by_code() {
    let first = ErrorCatalog::from_entries(vec![(-222, "Data out of range"), (-221, "Data out of range")]);
    let second = ErrorCatalog::from_entries(vec![(-222, "something else")]);
    let a: KsDevErr = first.resolve(-222).unwrap();
    let b: KsDevErr = second.resolve(-222).unwrap();
    let c: KsDevErr = first.resolve(-221).unwrap();
    assert_eq!(b.description(), "something else");
    assert_eq!(a, b);
    assert_ne!(a, c);
}

#[test]
fn sentinel_leads_to_the_error_query_and_a_device_error() {
    let c = ErrorCatalog::new();
    let a = value_step(Phase::AwaitingValue, text("9.91E+37"), &c);
    assert!(matches!(a, Action::Query(q) if q == SYSTEM_ERROR_QUERY));
    assert_eq!(SYSTEM_ERROR_QUERY, "SYST:ERR?");
    match value_step(Phase::AwaitingErrorQuery, text("-213,\"INIT ignored\""), &c) {
        Action::Finish(Err(Error::Dev(e))) => {
            assert_eq!(e.code(), -213);
            assert_eq!(e.description(), "INIT ignored");
        },
        a => panic!("{:?}", a),
    }
}

#[test]
fn plain_value_needs_no_error_query() {
    let c = ErrorCatalog::new();
    match value_step(Phase::AwaitingValue, text("7000.0"), &c) {
        Action::Finish(Ok(n)) => {
            assert_eq!(n, Number { neg: false, mantissa: 70000, exp: -1 });
            assert_eq!(format!("{}e{}", n.mantissa, n.exp).parse::<f64>().unwrap(), 7000.0);
        },
        a => panic!("{:?}", a),
    }
}

#[test]
fn sentinel_with_empty_queue_is_inconsistent() {
    let c = ErrorCatalog::new();
    assert_eq!(c.lookup(0), Some("No error"));
    let a = value_step(Phase::AwaitingErrorQuery, text("+0,\"No error\""), &c);
    assert!(matches!(a, Action::Finish(Err(Error::Inconsistent))));
}

#[test]
fn sentinel_with_unknown_code() {
    let c = ErrorCatalog::new();
    let a = value_step(Phase::AwaitingErrorQuery, text("-99999,\"?\""), &c);
    assert!(matches!(a, Action::Finish(Err(Error::UnknownCode(-99999)))));
}

#[test]
fn value_step_failures_propagate() {
    let c = ErrorCatalog::new();
    let a = value_step(Phase::AwaitingValue, Err(Error::Timeout), &c);
    assert!(matches!(a, Action::Finish(Err(Error::Timeout))));
    let a = value_step(Phase::AwaitingValue, Ok(Reply::Binary(vec![1])), &c);
    assert!(matches!(a, Action::Finish(Err(Error::DataType(DTError::NotText)))));
    let a = value_step(Phase::AwaitingValue, text("abc"), &c);
    assert!(matches!(a, Action::Finish(Err(Error::Parse(ParseError::Parse)))));
    let a = value_step(Phase::AwaitingErrorQuery, Err(Error::Io(String::from("reset"))), &c);
    assert!(matches!(a, Action::Finish(Err(Error::Io(_)))));
    let a = value_step(Phase::AwaitingErrorQuery, text("oops"), &c);
    assert!(matches!(a, Action::Finish(Err(Error::Parse(ParseError::Arg(0))))));
}

#[test]
fn command_checked_through_error_queue() {
    let c = ErrorCatalog::new();
    assert!(check_command(text("+0,\"No error\""), &c).is_ok());
    assert!(matches!(check_command(text("-222,\"Data out of range\""), &c), Err(Error::Dev(e)) if e.code() == -222));
    assert!(matches!(system_error(text("+0,\"No error\""), &c), Ok(None)));
    assert!(matches!(system_error(text("-213,\"INIT ignored\""), &c), Ok(Some(e)) if e.code() == -213));
}

#[test]
fn scoped_timeout_and_reset() {
    let d = Span::from_secs(20);
    let default = Some(Span::from_secs(2));
    let parent = HandleParams::new();
    assert_eq!(parent.timeout(default), default);
    let mut derived = parent.with_timeout(d);
    assert_eq!(derived.timeout(default), Some(d));
    assert_eq!(parent.timeout(default), default);
    derived.reset_timeout();
    assert_eq!(derived.timeout(default), default);
    let mut h = HandleParams::new();
    h.set_timeout(d);
    assert_eq!(h.timeout(default), Some(d));
    assert_eq!(h.call_timeout(Some(Span::new(0, 5)), default), Some(Span::new(0, 5)));
    assert_eq!(HandleParams::new().timeout(None), None);
}

#[test]
fn query_replies() {
    assert_eq!(ese_from_reply(text("189")).unwrap().to_byte(), 189);
    assert_eq!(ese_from_reply(text("255")).unwrap().to_byte(), 255);
    assert!(matches!(ese_from_reply(text("256")), Err(Error::Parse(ParseError::Arg(0)))));
    assert!(matches!(ese_from_reply(text("-1")), Err(Error::Parse(ParseError::Arg(0)))));
    assert!(matches!(ese_from_reply(text("")), Err(Error::Parse(ParseError::Arg(0)))));
    assert!(matches!(ese_from_reply(text("1,2")), Err(Error::Parse(ParseError::TooManyArgs))));
    assert!(matches!(ese_from_reply(Ok(Reply::Binary(vec![49]))), Err(Error::DataType(DTError::NotText))));
    assert!(matches!(cal_from_reply(text("0,1")), Err(Error::Parse(ParseError::TooManyArgs))));
    assert!(matches!(cal_from_reply(text("x")), Err(Error::Parse(ParseError::Arg(0)))));
    assert!(matches!(count_from_reply(text("4,5")), Err(Error::Parse(ParseError::TooManyArgs))));
    assert!(matches!(count_from_reply(text("-1")), Err(Error::Parse(ParseError::Arg(0)))));
    assert!(cal_from_reply(text("0")).unwrap());
    assert!(!cal_from_reply(text("+1")).unwrap());
    assert_eq!(count_from_reply(text("+1000000")).unwrap(), 1000000);
    assert!(count_from_reply(text("-1")).is_err());
    assert_eq!(span_from_reply(text("+1.00000000E+01")).unwrap(), Span::from_secs(10));
    assert_eq!(span_from_reply(text("+1.00000000E-05")).unwrap(), Span::new(0, 10_000));
    assert!(matches!(span_from_reply(text("-1")), Err(Error::Parse(ParseError::Parse))));
}

#[test]
fn reading_block() {
    let r = values_from_reply(Ok(Reply::Binary(b"+7.0E+03,+7.1E+03".to_vec()))).unwrap();
    assert_eq!(r, vec![
        Field::Num(Number { neg: false, mantissa: 70, exp: 2 }),
        Field::Num(Number { neg: false, mantissa: 71, exp: 2 }),
    ]);
    assert!(matches!(values_from_reply(Ok(Reply::Binary(b"1,x".to_vec()))), Err(Error::Parse(ParseError::Arg(1)))));
    assert!(matches!(values_from_reply(text("1")), Err(Error::DataType(DTError::NotBin))));
}

#[test]
fn command_words() {
    assert_eq!(ChannelNo::Ch1.number(), 1);
    assert_eq!(ChannelNo::Ch2.number(), 2);
    assert_eq!(TriggerSource::Immediate.mnemonic(), "IMM");
    assert_eq!(TriggerSource::External.mnemonic(), "EXT");
    assert_eq!(TriggerSource::Bus.mnemonic(), "BUS");
}
