//! What the replies of the counter's queries hold.
use crate::enrich::text_bytes;
use crate::error::Error;
use crate::format::{
    comma_pos, field_of, fields_from, fields_of, fields_result, into_bin, parse, parse_bytes,
    parse_fields, DTError, Field, FieldKind, ParseError, Reply,
};
use crate::span::{secs_as_dur, span_of, Span};
use crate::status::EventReg;
use vstd::prelude::*;

verus! {

/// The text of a reply, or the error that stands in for it.
pub open spec fn text_of(reply: Result<Reply, Error>) -> Result<String, Error> {
    match reply {
        Err(e) => Err(e),
        Ok(Reply::Binary(_)) => Err(Error::DataType(DTError::NotText)),
        Ok(Reply::Text(t)) => Ok(t),
    }
}

pub fn reply_text(reply: Result<Reply, Error>) -> (r: Result<String, Error>)
    ensures
        r == text_of(reply),
{
    match reply {
        Err(e) => Err(e),
        Ok(Reply::Binary(_)) => Err(Error::DataType(DTError::NotText)),
        Ok(Reply::Text(t)) => Ok(t),
    }
}

/// The single integer of a reply read as one field: a reply with a second
/// field is `TooManyArgs`, one that does not read `Arg(0)`.
pub open spec fn single_int_of(reply: Result<Reply, Error>) -> Result<i64, Error> {
    match text_of(reply) {
        Err(e) => Err(e),
        Ok(t) => match fields_of(text_bytes(t), seq![FieldKind::Int]) {
            Err(e) => Err(Error::Parse(e)),
            Ok(v) => match v[0] {
                Field::Int(i) => Ok(i),
                Field::Num(_) => Err(Error::Parse(ParseError::Arg(0))),
            },
        },
    }
}

proof fn lemma_single_field(s: Seq<u8>, k: FieldKind)
    ensures
        fields_of(s, seq![k]) matches Ok(v) ==> v.len() == 1 && field_of(s.subrange(0, comma_pos(s, 0)), k) == Some(v[0]),
{
    let ks = seq![k];
    assert(ks.drop_first().len() == 0);
    if let Some(f) = field_of(s.subrange(0, comma_pos(s, 0)), k) {
        let next = if comma_pos(s, 0) < s.len() {
            Some(comma_pos(s, 0) + 1)
        } else {
            None::<int>
        };
        if let Ok(rest) = fields_from(s, next, ks.drop_first(), 1) {
            assert(rest.len() == 0);
            assert((seq![f] + rest)[0] == f);
        }
    }
}

/// Reads the text of a reply as exactly one integer field.
pub fn single_int_from_reply(reply: Result<Reply, Error>) -> (r: Result<i64, Error>)
    ensures
        r == single_int_of(reply),
{
    let text = match reply_text(reply) {
        Ok(t) => t,
        Err(e) => {
            return Err(e);
        },
    };
    let kinds = vec![FieldKind::Int];
    proof {
        assert(kinds@ =~= seq![FieldKind::Int]);
        lemma_single_field(text_bytes(text), FieldKind::Int);
    }
    match parse_fields(text.as_str(), kinds.as_slice()) {
        Err(e) => Err(Error::Parse(e)),
        Ok(v) => match v[0] {
            Field::Int(i) => Ok(i),
            Field::Num(_) => Err(Error::Parse(ParseError::Arg(0))),
        },
    }
}

/// The mask of a `*ESE?` reply: one integer from 0 to 255, every bit kept.
pub open spec fn ese_of(reply: Result<Reply, Error>) -> Result<EventReg, Error> {
    match single_int_of(reply) {
        Err(e) => Err(e),
        Ok(v) => if 0 <= v <= 255 {
            Ok(EventReg { bits: v as u8 })
        } else {
            Err(Error::Parse(ParseError::Arg(0)))
        },
    }
}

pub fn ese_from_reply(reply: Result<Reply, Error>) -> (r: Result<EventReg, Error>)
    ensures
        r == ese_of(reply),
{
    match single_int_from_reply(reply) {
        Err(e) => Err(e),
        Ok(v) => if 0 <= v && v <= 255 {
            Ok(EventReg::from_byte(v as u8))
        } else {
            Err(Error::Parse(ParseError::Arg(0)))
        },
    }
}

/// Whether a `*CAL?` reply reports success: the integer 0.
pub open spec fn cal_of(reply: Result<Reply, Error>) -> Result<bool, Error> {
    match single_int_of(reply) {
        Err(e) => Err(e),
        Ok(v) => Ok(v == 0),
    }
}

pub fn cal_from_reply(reply: Result<Reply, Error>) -> (r: Result<bool, Error>)
    ensures
        r == cal_of(reply),
{
    match single_int_from_reply(reply) {
        Err(e) => Err(e),
        Ok(v) => Ok(v == 0),
    }
}

/// A count reply such as that of `TRIG:COUN?`: a non-negative integer.
pub open spec fn count_of(reply: Result<Reply, Error>) -> Result<u64, Error> {
    match single_int_of(reply) {
        Err(e) => Err(e),
        Ok(v) => if v >= 0 {
            Ok(v as u64)
        } else {
            Err(Error::Parse(ParseError::Arg(0)))
        },
    }
}

pub fn count_from_reply(reply: Result<Reply, Error>) -> (r: Result<u64, Error>)
    ensures
        r == count_of(reply),
{
    match single_int_from_reply(reply) {
        Err(e) => Err(e),
        Ok(v) => if v >= 0 {
            Ok(v as u64)
        } else {
            Err(Error::Parse(ParseError::Arg(0)))
        },
    }
}

/// A duration reply such as that of `TRIG:DEL?`: seconds, as a duration
/// rounded toward zero to the nanosecond.
pub open spec fn span_reply_of(reply: Result<Reply, Error>) -> Result<Span, Error> {
    match text_of(reply) {
        Err(e) => Err(e),
        Ok(t) => match field_of(text_bytes(t), FieldKind::Num) {
            Some(Field::Num(n)) => match span_of(n) {
                Some(s) => Ok(s),
                None => Err(Error::Parse(ParseError::Parse)),
            },
            _ => Err(Error::Parse(ParseError::Parse)),
        },
    }
}

pub fn span_from_reply(reply: Result<Reply, Error>) -> (r: Result<Span, Error>)
    ensures
        r == span_reply_of(reply),
        r matches Ok(s) ==> s.wf(),
{
    let text = match reply_text(reply) {
        Ok(t) => t,
        Err(e) => {
            return Err(e);
        },
    };
    match parse(text.as_str(), FieldKind::Num) {
        Ok(Field::Num(n)) => match secs_as_dur(&n) {
            Some(s) => Ok(s),
            None => Err(Error::Parse(ParseError::Parse)),
        },
        _ => Err(Error::Parse(ParseError::Parse)),
    }
}

/// The number of comma-separated fields of `s`: one more than its commas.
pub open spec fn field_count(s: Seq<u8>) -> nat
    decreases s.len(),
{
    if s.len() == 0 {
        1
    } else {
        field_count(s.drop_last()) + if s.last() == 44 {
            1nat
        } else {
            0nat
        }
    }
}

/// Every comma-separated field of `s`, each read as a number.
pub open spec fn values_of(s: Seq<u8>) -> Result<Seq<Field>, ParseError> {
    fields_of(s, Seq::new(field_count(s), |i: int| FieldKind::Num))
}

/// Reads every comma-separated field of `buf` as a number.
pub fn parse_values(buf: &[u8]) -> (r: Result<Vec<Field>, ParseError>)
    ensures
        fields_result(r) == values_of(buf@),
{
    let mut kinds: Vec<FieldKind> = vec![FieldKind::Num];
    let mut i: usize = 0;
    assert(buf@.subrange(0, 0).len() == 0);
    while i < buf.len()
        invariant
            i <= buf@.len(),
            kinds@.len() == field_count(buf@.subrange(0, i as int)),
            forall|k: int| 0 <= k < kinds@.len() ==> kinds@[k] == FieldKind::Num,
        decreases buf@.len() - i,
    {
        assert(buf@.subrange(0, i + 1).drop_last() =~= buf@.subrange(0, i as int));
        if buf[i] == 44 {
            kinds.push(FieldKind::Num);
        }
        i = i + 1;
    }
    assert(buf@.subrange(0, buf@.len() as int) =~= buf@);
    assert(kinds@ =~= Seq::new(field_count(buf@), |i: int| FieldKind::Num));
    parse_bytes(buf, kinds.as_slice())
}

/// The readings of an `R?` reply: a binary block of comma-separated numbers.
pub open spec fn values_reply_of(reply: Result<Reply, Error>) -> Result<Seq<Field>, Error> {
    match reply {
        Err(e) => Err(e),
        Ok(Reply::Text(_)) => Err(Error::DataType(DTError::NotBin)),
        Ok(Reply::Binary(b)) => match values_of(b@) {
            Ok(v) => Ok(v),
            Err(e) => Err(Error::Parse(e)),
        },
    }
}

pub fn values_from_reply(reply: Result<Reply, Error>) -> (r: Result<Vec<Field>, Error>)
    ensures
        match r {
            Ok(v) => values_reply_of(reply) == Ok::<Seq<Field>, Error>(v@),
            Err(e) => values_reply_of(reply) == Err::<Seq<Field>, Error>(e),
        },
{
    let data = match reply {
        Ok(d) => d,
        Err(e) => {
            return Err(e);
        },
    };
    let buf = match into_bin(data) {
        Ok(b) => b,
        Err(e) => {
            return Err(Error::DataType(e));
        },
    };
    match parse_values(buf.as_slice()) {
        Ok(v) => Ok(v),
        Err(e) => Err(Error::Parse(e)),
    }
}

} // verus!
