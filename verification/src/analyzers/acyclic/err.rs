//! Diagnostics of the acyclic analysis.
use vstd::prelude::*;
use crate::error::{Level, MainstageErrorExt};
use crate::location::{Location, Span, dup_opt_location, dup_opt_span};
use crate::diagnostic::{long_report, long_report_text, short_report, short_report_text};

verus! {

/// A diagnostic of the acyclic analysis (a cycle among stages).
#[derive(Debug)]
pub struct AcyclicError {
    level: Level,
    message: String,
    issuer: String,
    location: Option<Location>,
    span: Option<Span>,
}

impl AcyclicError {
    /// A diagnostic with every part given.
    pub fn with(level: Level, message: String, issuer: String, location: Option<Location>, span: Option<Span>) -> (r: Self)
        ensures
            r.level_of() == level,
            r.message_of() == message@,
            r.issuer_of() == issuer@,
            r.location_of() == location,
            r.span_of() == span,
    {
        AcyclicError { level, message, issuer, location, span }
    }

    /// The one-line report: `MAINSTAGE | level | location | issuer | span | message`.
    pub fn to_string(&self) -> (r: String)
        ensures
            r@ == long_report(self.level_of(), self.location_of(), self.issuer_of(), self.span_of(), self.message_of()),
    {
        long_report_text(self.level, &self.location, &self.issuer, &self.span, &self.message)
    }
}

impl MainstageErrorExt for AcyclicError {
    closed spec fn level_of(&self) -> Level { self.level }
    closed spec fn message_of(&self) -> Seq<char> { self.message@ }
    closed spec fn issuer_of(&self) -> Seq<char> { self.issuer@ }
    closed spec fn span_of(&self) -> Option<Span> { self.span }
    closed spec fn location_of(&self) -> Option<Location> { self.location }

    fn level(&self) -> (r: Level) {
        self.level
    }

    fn message(&self) -> (r: String) {
        self.message.clone()
    }

    fn issuer(&self) -> (r: String) {
        self.issuer.clone()
    }

    fn span(&self) -> (r: Option<Span>) {
        dup_opt_span(&self.span)
    }

    fn location(&self) -> (r: Option<Location>) {
        dup_opt_location(&self.location)
    }
}

} // verus!
