//! Replies: text or binary, and text split at commas into typed fields.
use crate::number::{integer_field, number_field, parse_integer, parse_number, Number};
use vstd::prelude::*;
use vstd::string::StringSliceAdditionalSpecFns;

verus! {

/// A reply was of the other encoding than the caller expected.
#[derive(Clone, Copy, Debug, PartialEq, Eq, Structural)]
pub enum DTError {
    NotText,
    NotBin,
}

/// Why a text reply could not be read.
#[derive(Clone, Copy, Debug, PartialEq, Eq, Structural)]
pub enum ParseError {
    /// The whole text is not a value of the asked kind.
    Parse,
    /// The text has fewer comma-separated fields than asked for.
    EndOfString,
    /// The text has more comma-separated fields than asked for.
    TooManyArgs,
    /// The field at this zero-based position is not a value of its kind.
    Arg(usize),
}

/// One reply of the instrument.
#[derive(Clone, Debug)]
pub enum Reply {
    Text(String),
    Binary(Vec<u8>),
}

/// The kinds of value a field can hold.
#[derive(Clone, Copy, Debug, PartialEq, Eq, Structural)]
pub enum FieldKind {
    /// An optional sign and decimal digits, within `i64`.
    Int,
    /// A decimal number with optional fraction and exponent.
    Num,
}

/// A decoded field.
#[derive(Clone, Copy, Debug, PartialEq, Eq, Structural)]
pub enum Field {
    Int(i64),
    Num(Number),
}

/// The text of a reply, or `NotText` for a binary one.
pub fn into_text(data: Reply) -> (r: Result<String, DTError>)
    ensures
        match data {
            Reply::Text(s) => r == Ok::<String, DTError>(s),
            Reply::Binary(_) => r == Err::<String, DTError>(DTError::NotText),
        },
{
    match data {
        Reply::Text(s) => Ok(s),
        Reply::Binary(_) => Err(DTError::NotText),
    }
}

/// The bytes of a reply, or `NotBin` for a text one.
pub fn into_bin(data: Reply) -> (r: Result<Vec<u8>, DTError>)
    ensures
        match data {
            Reply::Binary(b) => r == Ok::<Vec<u8>, DTError>(b),
            Reply::Text(_) => r == Err::<Vec<u8>, DTError>(DTError::NotBin),
        },
{
    match data {
        Reply::Binary(b) => Ok(b),
        Reply::Text(_) => Err(DTError::NotBin),
    }
}

/// The value of kind `kind` that `s` spells, if any.
pub open spec fn field_of(s: Seq<u8>, kind: FieldKind) -> Option<Field> {
    match kind {
        FieldKind::Int => match integer_field(s) {
            Some(v) => Some(Field::Int(v)),
            None => None,
        },
        FieldKind::Num => match number_field(s) {
            Some(n) => Some(Field::Num(n)),
            None => None,
        },
    }
}

/// The position of the first comma at or after `i`, or the length of `s`.
pub open spec fn comma_pos(s: Seq<u8>, i: int) -> int
    decreases s.len() - i,
{
    if 0 <= i < s.len() && s[i] != 44 {
        comma_pos(s, i + 1)
    } else {
        i
    }
}

/// Reads the fields of `s` from position `start` on (`None`: past the last
/// field), the first of them being field number `idx`.
pub open spec fn fields_from(s: Seq<u8>, start: Option<int>, kinds: Seq<FieldKind>, idx: nat) -> Result<
    Seq<Field>,
    ParseError,
>
    decreases kinds.len(),
{
    if kinds.len() == 0 {
        if start is Some {
            Err(ParseError::TooManyArgs)
        } else {
            Ok(Seq::empty())
        }
    } else {
        match start {
            None => Err(ParseError::EndOfString),
            Some(p) => {
                let e = comma_pos(s, p);
                match field_of(s.subrange(p, e), kinds[0]) {
                    None => Err(ParseError::Arg(idx as usize)),
                    Some(f) => {
                        let next = if e < s.len() {
                            Some(e + 1)
                        } else {
                            None
                        };
                        match fields_from(s, next, kinds.drop_first(), idx + 1) {
                            Ok(rest) => Ok(seq![f] + rest),
                            Err(x) => Err(x),
                        }
                    },
                }
            },
        }
    }
}

/// The fields of `s`, one of each kind in `kinds` in order: the first field
/// that is missing or does not parse decides the error, and a field left over
/// after the last kind is `TooManyArgs`.
pub open spec fn fields_of(s: Seq<u8>, kinds: Seq<FieldKind>) -> Result<Seq<Field>, ParseError> {
    fields_from(s, Some(0), kinds, 0)
}

pub open spec fn prepend(acc: Seq<Field>, r: Result<Seq<Field>, ParseError>) -> Result<
    Seq<Field>,
    ParseError,
> {
    match r {
        Ok(v) => Ok(acc + v),
        Err(e) => Err(e),
    }
}

pub open spec fn fields_result(r: Result<Vec<Field>, ParseError>) -> Result<Seq<Field>, ParseError> {
    match r {
        Ok(v) => Ok(v@),
        Err(e) => Err(e),
    }
}

fn comma_scan(buf: &[u8], from: usize) -> (r: usize)
    requires
        from <= buf@.len(),
    ensures
        from <= r <= buf@.len(),
        r == comma_pos(buf@, from as int),
{
    let mut i = from;
    while i < buf.len() && buf[i] != 44
        invariant
            from <= i <= buf@.len(),
            comma_pos(buf@, i as int) == comma_pos(buf@, from as int),
        decreases buf@.len() - i,
    {
        i = i + 1;
    }
    i
}

fn parse_field(buf: &[u8], lo: usize, hi: usize, kind: FieldKind) -> (r: Option<Field>)
    requires
        lo <= hi <= buf@.len(),
    ensures
        r == field_of(buf@.subrange(lo as int, hi as int), kind),
{
    match kind {
        FieldKind::Int => match parse_integer(buf, lo, hi) {
            Some(v) => Some(Field::Int(v)),
            None => None,
        },
        FieldKind::Num => match parse_number(buf, lo, hi) {
            Some(n) => Some(Field::Num(n)),
            None => None,
        },
    }
}

/// Reads the whole of `text` as one value of kind `kind`.
pub fn parse(text: &str, kind: FieldKind) -> (r: Result<Field, ParseError>)
    ensures
        match field_of(text.spec_bytes(), kind) {
            Some(f) => r == Ok::<Field, ParseError>(f),
            None => r == Err::<Field, ParseError>(ParseError::Parse),
        },
{
    let buf = text.as_bytes();
    assert(buf@.subrange(0, buf@.len() as int) =~= buf@);
    match parse_field(buf, 0, buf.len(), kind) {
        Some(f) => Ok(f),
        None => Err(ParseError::Parse),
    }
}

/// Splits `buf` at commas and reads one field of each kind in `kinds`.
pub fn parse_bytes(buf: &[u8], kinds: &[FieldKind]) -> (r: Result<Vec<Field>, ParseError>)
    ensures
        fields_result(r) == fields_of(buf@, kinds@),
{
    let mut out: Vec<Field> = Vec::new();
    let mut pos: usize = 0;
    let mut more = true;
    let mut i: usize = 0;
    proof {
        assert(kinds@.skip(0) =~= kinds@);
        match fields_of(buf@, kinds@) {
            Ok(v) => {
                assert(out@ + v =~= v);
            },
            Err(_) => {},
        }
    }
    while i < kinds.len()
        invariant
            i <= kinds@.len(),
            pos <= buf@.len(),
            fields_of(buf@, kinds@) == prepend(
                out@,
                fields_from(
                    buf@,
                    if more {
                        Some(pos as int)
                    } else {
                        None
                    },
                    kinds@.skip(i as int),
                    i as nat,
                ),
            ),
        decreases kinds@.len() - i,
    {
        let ghost ks = kinds@.skip(i as int);
        assert(ks[0] == kinds@[i as int]);
        assert(ks.drop_first() =~= kinds@.skip(i + 1));
        if !more {
            return Err(ParseError::EndOfString);
        }
        let e = comma_scan(buf, pos);
        let f = match parse_field(buf, pos, e, kinds[i]) {
            Some(f) => f,
            None => {
                return Err(ParseError::Arg(i));
            },
        };
        let ghost rest = fields_from(
            buf@,
            if e < buf@.len() {
                Some(e + 1)
            } else {
                None
            },
            kinds@.skip(i + 1),
            (i + 1) as nat,
        );
        proof {
            match rest {
                Ok(v) => {
                    assert(out@ + (seq![f] + v) =~= out@.push(f) + v);
                },
                Err(_) => {},
            }
        }
        out.push(f);
        if e < buf.len() {
            pos = e + 1;
        } else {
            more = false;
        }
        i = i + 1;
    }
    if more {
        return Err(ParseError::TooManyArgs);
    }
    assert(out@ + Seq::<Field>::empty() =~= out@);
    Ok(out)
}

/// Splits `text` at commas and reads one field of each kind in `kinds`.
pub fn parse_fields(text: &str, kinds: &[FieldKind]) -> (r: Result<Vec<Field>, ParseError>)
    ensures
        fields_result(r) == fields_of(text.spec_bytes(), kinds@),
{
    parse_bytes(text.as_bytes(), kinds)
}

/// The integer before the first comma of `s`, within `i32`.
pub open spec fn leading_code(s: Seq<u8>) -> Option<i32> {
    match integer_field(s.subrange(0, comma_pos(s, 0))) {
        Some(v) => if i32::MIN <= v <= i32::MAX {
            Some(v as i32)
        } else {
            None
        },
        None => None,
    }
}

/// Reads the error code at the head of an error-queue reply such as
/// `-213,"INIT ignored"`: the text up to the first comma, as an integer.
pub fn parse_error_code(text: &str) -> (r: Result<i32, ParseError>)
    ensures
        match leading_code(text.spec_bytes()) {
            Some(c) => r == Ok::<i32, ParseError>(c),
            None => r == Err::<i32, ParseError>(ParseError::Arg(0)),
        },
{
    let buf = text.as_bytes();
    let e = comma_scan(buf, 0);
    match parse_integer(buf, 0, e) {
        Some(v) => if -2147483648 <= v && v <= 2147483647 {
            Ok(v as i32)
        } else {
            Err(ParseError::Arg(0))
        },
        None => Err(ParseError::Arg(0)),
    }
}

} // verus!
