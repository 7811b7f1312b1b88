//! The error query that follows a reading which stands for "no valid
//! measurement", and the outcome of commands checked through the error queue.
use crate::catalog::{first_match, ErrorCatalog, KsDevErr};
use crate::error::Error;
use crate::format::{leading_code, parse, parse_error_code, DTError, Field, FieldKind, ParseError, Reply};
use crate::replies::reply_text;
use crate::number::{at_least_sentinel, number_field, Number};
use vstd::prelude::*;
use vstd::utf8::encode_utf8;

verus! {

/// The query that pops the oldest entry of the instrument's error queue.
pub const SYSTEM_ERROR_QUERY: &'static str = "SYST:ERR?";

/// The code that an instrument reports when its error queue is empty.
pub const NO_ERROR_CODE: i32 = 0;

/// The bytes of a text reply.
pub open spec fn text_bytes(s: String) -> Seq<u8> {
    encode_utf8(s@)
}

/// What an error-queue reply says: `Ok(None)` for an empty queue, the
/// catalogued error otherwise.
pub open spec fn system_error_of(reply: Result<Reply, Error>, entries: Seq<(i32, &'static str)>) -> Result<
    Option<KsDevErr>,
    Error,
> {
    match reply {
        Err(e) => Err(e),
        Ok(Reply::Binary(_)) => Err(Error::DataType(DTError::NotText)),
        Ok(Reply::Text(t)) => match leading_code(text_bytes(t)) {
            None => Err(Error::Parse(ParseError::Arg(0))),
            Some(c) => if c == NO_ERROR_CODE {
                Ok(None)
            } else {
                match first_match(entries, c) {
                    Some(d) => Ok(Some(KsDevErr::spec_new(c, d))),
                    None => Err(Error::UnknownCode(c)),
                }
            },
        },
    }
}

/// Reads an error-queue reply such as `-213,"INIT ignored"`.
pub fn system_error(reply: Result<Reply, Error>, catalog: &ErrorCatalog) -> (r: Result<
    Option<KsDevErr>,
    Error,
>)
    ensures
        r == system_error_of(reply, catalog@),
{
    let text = match reply_text(reply) {
        Ok(t) => t,
        Err(e) => {
            return Err(e);
        },
    };
    let code = match parse_error_code(text.as_str()) {
        Ok(c) => c,
        Err(e) => {
            return Err(Error::Parse(e));
        },
    };
    if code == NO_ERROR_CODE {
        return Ok(None);
    }
    match catalog.resolve(code) {
        Ok(d) => Ok(Some(d)),
        Err(e) => Err(e),
    }
}

/// The outcome of a command without a reply, from the error-queue reply that
/// follows it: success when the queue is empty.
pub open spec fn command_outcome(reply: Result<Reply, Error>, entries: Seq<(i32, &'static str)>) -> Result<(), Error> {
    match system_error_of(reply, entries) {
        Ok(None) => Ok(()),
        Ok(Some(d)) => Err(Error::Dev(d)),
        Err(e) => Err(e),
    }
}

pub fn check_command(reply: Result<Reply, Error>, catalog: &ErrorCatalog) -> (r: Result<(), Error>)
    ensures
        r == command_outcome(reply, catalog@),
{
    match system_error(reply, catalog) {
        Ok(None) => Ok(()),
        Ok(Some(d)) => Err(Error::Dev(d)),
        Err(e) => Err(e),
    }
}

/// Where a value query stands.
#[derive(Clone, Copy, Debug, PartialEq, Eq, Structural)]
pub enum Phase {
    /// The value query has been sent; its reply is awaited.
    AwaitingValue,
    /// The reading was the sentinel; the error query's reply is awaited.
    AwaitingErrorQuery,
}

/// What the caller does next.
#[derive(Debug)]
pub enum Action {
    /// Send this query and hand its reply back in the next phase.
    Query(&'static str),
    /// The value query is over, with this result.
    Finish(Result<Number, Error>),
}

/// One step of a value query: what the reply awaited in `phase` leads to.
pub open spec fn value_step_of(phase: Phase, reply: Result<Reply, Error>, entries: Seq<(i32, &'static str)>) -> Action {
    match phase {
        Phase::AwaitingValue => match reply {
            Err(e) => Action::Finish(Err(e)),
            Ok(Reply::Binary(_)) => Action::Finish(Err(Error::DataType(DTError::NotText))),
            Ok(Reply::Text(t)) => match number_field(text_bytes(t)) {
                None => Action::Finish(Err(Error::Parse(ParseError::Parse))),
                Some(n) => if at_least_sentinel(n) {
                    Action::Query(SYSTEM_ERROR_QUERY)
                } else {
                    Action::Finish(Ok(n))
                },
            },
        },
        Phase::AwaitingErrorQuery => match system_error_of(reply, entries) {
            Ok(None) => Action::Finish(Err(Error::Inconsistent)),
            Ok(Some(d)) => Action::Finish(Err(Error::Dev(d))),
            Err(e) => Action::Finish(Err(e)),
        },
    }
}

/// Takes the reply awaited in `phase`. A reading below the sentinel is the
/// result; the sentinel calls for the error query, whose reply then gives
/// the error: the catalogued one, `UnknownCode`, or `Inconsistent` when the
/// queue is empty.
pub fn value_step(phase: Phase, reply: Result<Reply, Error>, catalog: &ErrorCatalog) -> (r: Action)
    ensures
        r == value_step_of(phase, reply, catalog@),
{
    match phase {
        Phase::AwaitingValue => {
            let text = match reply_text(reply) {
                Ok(t) => t,
                Err(e) => {
                    return Action::Finish(Err(e));
                },
            };
            match parse(text.as_str(), FieldKind::Num) {
                Ok(Field::Num(n)) => {
                    if n.is_sentinel() {
                        Action::Query(SYSTEM_ERROR_QUERY)
                    } else {
                        Action::Finish(Ok(n))
                    }
                },
                _ => Action::Finish(Err(Error::Parse(ParseError::Parse))),
            }
        },
        Phase::AwaitingErrorQuery => match system_error(reply, catalog) {
            Ok(None) => Action::Finish(Err(Error::Inconsistent)),
            Ok(Some(d)) => Action::Finish(Err(Error::Dev(d))),
            Err(e) => Action::Finish(Err(e)),
        },
    }
}

/// A value query never hands the sentinel back as a reading.
pub proof fn lemma_sentinel_never_returned(
    phase: Phase,
    reply: Result<Reply, Error>,
    entries: Seq<(i32, &'static str)>,
)
    ensures
        value_step_of(phase, reply, entries) matches Action::Finish(Ok(n)) ==> !at_least_sentinel(
            n,
        ),
{
}

/// An empty error queue after the sentinel is `Inconsistent`: never success
/// and never an instrument error, whatever the catalog lists for that code.
pub proof fn lemma_no_error_code_is_inconsistent(t: String, entries: Seq<(i32, &'static str)>)
    requires
        leading_code(text_bytes(t)) == Some(NO_ERROR_CODE),
    ensures
        value_step_of(Phase::AwaitingErrorQuery, Ok(Reply::Text(t)), entries) == Action::Finish(
            Err::<Number, Error>(Error::Inconsistent),
        ),
{
}

/// Only the sentinel leads to the error query, and only from the first phase.
pub proof fn lemma_query_only_after_sentinel(
    phase: Phase,
    reply: Result<Reply, Error>,
    entries: Seq<(i32, &'static str)>,
)
    ensures
        value_step_of(phase, reply, entries) is Query ==> phase == Phase::AwaitingValue && (
        reply matches Ok(Reply::Text(t)) && number_field(text_bytes(t)) matches Some(n)
            && at_least_sentinel(n)),
{
}

} // verus!
