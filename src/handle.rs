//! Timeout scoping: a handle may carry its own timeout, which stands in for
//! the transport's default until it is reset.
use crate::span::Span;
use vstd::prelude::*;

verus! {

/// The timeout that applies to one call: the call's own, else the handle's,
/// else the transport's default.
pub open spec fn effective_timeout(per_call: Option<Span>, handle: Option<Span>, default: Option<
    Span,
>) -> Option<Span> {
    if per_call is Some {
        per_call
    } else if handle is Some {
        handle
    } else {
        default
    }
}

/// What a handle carries besides the transport it shares.
#[derive(Clone, Copy, Debug, PartialEq, Eq, Structural)]
pub struct HandleParams {
    pub to: Option<Span>,
}

impl HandleParams {
    /// A handle without a timeout of its own.
    pub fn new() -> (r: HandleParams)
        ensures
            r.to is None,
    {
        HandleParams { to: None }
    }

    /// A derived handle that carries `to`; `self` keeps its own setting.
    pub fn with_timeout(&self, to: Span) -> (r: HandleParams)
        ensures
            r.to == Some(to),
    {
        HandleParams { to: Some(to) }
    }

    pub fn set_timeout(&mut self, to: Span)
        ensures
            final(self).to == Some(to),
    {
        self.to = Some(to);
    }

    /// Drops the handle's timeout, so that the transport's default applies.
    pub fn reset_timeout(&mut self)
        ensures
            final(self).to is None,
    {
        self.to = None;
    }

    /// The timeout in force for a call with no timeout of its own.
    pub fn timeout(&self, default: Option<Span>) -> (r: Option<Span>)
        ensures
            r == effective_timeout(None, self.to, default),
    {
        self.call_timeout(None, default)
    }

    /// The timeout in force for a call that brings `per_call`.
    pub fn call_timeout(&self, per_call: Option<Span>, default: Option<Span>) -> (r: Option<Span>)
        ensures
            r == effective_timeout(per_call, self.to, default),
    {
        match per_call {
            Some(t) => Some(t),
            None => match self.to {
                Some(t) => Some(t),
                None => default,
            },
        }
    }
}

/// Setting a timeout on a handle and then resetting it brings back the
/// transport's default for later calls.
pub proof fn lemma_scope_reset(
    derived: HandleParams,
    reset: HandleParams,
    to: Span,
    default: Option<Span>,
)
    requires
        derived.to == Some(to),
        reset.to is None,
    ensures
        effective_timeout(None, derived.to, default) == Some(to),
        effective_timeout(None, reset.to, default) == default,
{
}

} // verus!
