use ksfc_lxi::format::{parse, Field, FieldKind};
use ksfc_lxi::number::{number_text, Number};
use ksfc_lxi::span::{dur_as_secs, secs_as_dur, Span};
use ksfc_lxi::status::{EventReg, ALL_NAMED, CMD_ERR, OP_COMPLETE, POWER_ON, QUERY_ERR};

fn num(s: &str) -> Number {
    match parse(s, FieldKind::Num) {
        Ok(Field::Num(n)) => n,
        r => panic!("{:?}", r),
    }
}

#[test]
fn seconds_to_duration_splits_at_the_point() {
    assert_eq!(secs_as_dur(&num("1.5")), Some(Span { secs: 1, nanos: 500_000_000 }));
    assert_eq!(secs_as_dur(&num("+1.00000000E-05")), Some(Span { secs: 0, nanos: 10_000 }));
    assert_eq!(secs_as_dur(&num("3601")), Some(Span { secs: 3601, nanos: 0 }));
    assert_eq!(secs_as_dur(&num("0.0000000019")), Some(Span { secs: 0, nanos: 1 }));
    assert_eq!(secs_as_dur(&num("-0")), Some(Span { secs: 0, nanos: 0 }));
}

#[test]
fn negative_seconds_are_no_duration() {
    assert_eq!(secs_as_dur(&num("-1.5")), None);
    assert_eq!(secs_as_dur(&num("-1e-20")), None);
    assert_eq!(secs_as_dur(&num("-3600")), None);
}

#[test]
fn too_many_seconds_are_no_duration() {
    assert_eq!(secs_as_dur(&num("1e20")), None);
    assert_eq!(secs_as_dur(&num("18446744073709551615.999999999")), Some(Span { secs: u64::MAX, nanos: 999_999_999 }));
}

#[test]
fn duration_round_trips_through_seconds() {
    for s in [Span::new(0, 0), Span::new(10, 0), Span::new(0, 10_000), Span::new(u64::MAX, 999_999_999)] {
        assert_eq!(secs_as_dur(&dur_as_secs(s)), Some(s));
    }
    assert_eq!(dur_as_secs(Span::new(1, 5)), Number { neg: false, mantissa: 1_000_000_005, exp: -9 });
}

#[test]
fn seconds_round_trip_to_the_nanosecond() {
    let back = dur_as_secs(secs_as_dur(&num("2.1234567891")).unwrap());
    assert_eq!(back, Number { neg: false, mantissa: 2_123_456_789, exp: -9 });
}

#[test]
fn sentinel_is_at_or_above_9_91e37() {
    assert!(num("9.91E+37").is_sentinel());
    assert!(num("+9.91000000000000E+37").is_sentinel());
    assert!(num("1e40").is_sentinel());
    assert!(num("99100000000000000000000000000000000000").is_sentinel());
    assert!(!num("99099999999999999999999999999999999999").is_sentinel());
    assert!(!num("9.9099999E+37").is_sentinel());
    assert!(!num("7000.0").is_sentinel());
    assert!(!num("-9.91E+37").is_sentinel());
    assert!(!num("0e99").is_sentinel());
}

#[test]
fn status_byte_round_trips() {
    for b in 0..=255u8 {
        assert_eq!(EventReg::from_byte(b).to_byte(), b);
    }
}

#[test]
fn status_named_bits() {
    assert_eq!(EventReg::all().bits(), 0b1011_1101);
    assert_eq!(EventReg::all().bits(), ALL_NAMED);
    let r = EventReg::from_byte(0b0100_0001);
    assert!(r.contains(OP_COMPLETE));
    assert!(!r.contains(QUERY_ERR));
    assert!(r.contains(0b0100_0000));
    assert_eq!(EventReg::from_bits_truncate(0b0100_0001).bits(), 1);
    let mut m = EventReg::empty();
    m.insert(CMD_ERR | POWER_ON);
    assert_eq!(m.bits(), 0b1010_0000);
    m.remove(POWER_ON);
    assert_eq!(m.bits(), CMD_ERR);
    assert_eq!(m.union(EventReg::from_byte(1)).bits(), 0b0010_0001);
    assert_eq!(m.intersection(EventReg::all()).bits(), CMD_ERR);
}

#[test]
fn number_wire_form() {
    assert_eq!(number_text(&Number { neg: false, mantissa: 1_000_000_000, exp: -9 }), b"1000000000E-9".to_vec());
    assert_eq!(number_text(&Number { neg: true, mantissa: 25, exp: 3 }), b"-25E3".to_vec());
    assert_eq!(number_text(&Number { neg: false, mantissa: 0, exp: 0 }), b"0E0".to_vec());
    assert_eq!(number_text(&Number { neg: false, mantissa: u128::MAX, exp: i32::MIN }),
        format!("{}E{}", u128::MAX, i32::MIN).into_bytes());
    for n in [Number { neg: true, mantissa: 991, exp: 35 }, dur_as_secs(Span::new(10, 7))] {
        let text = String::from_utf8(number_text(&n)).unwrap();
        assert_eq!(num(&text), n);
    }
}

#[test]
fn mask_round_trips_through_its_byte() {
    let m = EventReg::all();
    assert_eq!(EventReg::from_byte(m.to_byte()), m);
}
