//! Diagnostics of parsing.
use vstd::prelude::*;
use crate::error::{Level, MainstageErrorExt};
use crate::location::{Location, Span, dup_opt_location, dup_opt_span};
use crate::diagnostic::{long_report, long_report_text, short_report, short_report_text};

verus! {

/// The script holds nothing to run.
#[derive(Debug)]
pub struct EmptyScriptError {
    level: Level,
    message: String,
    issuer: String,
    location: Option<Location>,
    span: Option<Span>,
}

impl EmptyScriptError {
    /// A diagnostic with every part given.
    pub fn with(level: Level, message: String, issuer: String, location: Option<Location>, span: Option<Span>) -> (r: Self)
        ensures
            r.level_of() == level,
            r.message_of() == message@,
            r.issuer_of() == issuer@,
            r.location_of() == location,
            r.span_of() == span,
    {
        EmptyScriptError { level, message, issuer, location, span }
    }

    /// The default diagnostic of this kind, at level `Error`.
    pub fn new(issuer: String, location: Option<Location>, span: Option<Span>) -> (r: Self)
        ensures
            r.level_of() == Level::Error,
            r.message_of() == "The provided script is empty."@,
            r.issuer_of() == issuer@,
            r.location_of() == location,
            r.span_of() == span,
    {
        EmptyScriptError { level: Level::Error, message: String::from_str("The provided script is empty."), issuer, location, span }
    }

    /// The message, followed by ` (at file:line:column)` when the location is known.
    pub fn to_string(&self) -> (r: String)
        ensures
            r@ == short_report(self.message_of(), self.location_of()),
    {
        short_report_text(&self.message, &self.location)
    }
}

impl MainstageErrorExt for EmptyScriptError {
    closed spec fn level_of(&self) -> Level { self.level }
    closed spec fn message_of(&self) -> Seq<char> { self.message@ }
    closed spec fn issuer_of(&self) -> Seq<char> { self.issuer@ }
    closed spec fn span_of(&self) -> Option<Span> { self.span }
    closed spec fn location_of(&self) -> Option<Location> { self.location }

    fn level(&self) -> (r: Level) {
        self.level
    }

    fn message(&self) -> (r: String) {
        self.message.clone()
    }

    fn issuer(&self) -> (r: String) {
        self.issuer.clone()
    }

    fn span(&self) -> (r: Option<Span>) {
        dup_opt_span(&self.span)
    }

    fn location(&self) -> (r: Option<Location>) {
        dup_opt_location(&self.location)
    }
}

/// The script does not follow the grammar.
#[derive(Debug)]
pub struct SyntaxError {
    level: Level,
    message: String,
    issuer: String,
    location: Option<Location>,
    span: Option<Span>,
}

impl SyntaxError {
    /// A diagnostic with every part given.
    pub fn with(level: Level, message: String, issuer: String, location: Option<Location>, span: Option<Span>) -> (r: Self)
        ensures
            r.level_of() == level,
            r.message_of() == message@,
            r.issuer_of() == issuer@,
            r.location_of() == location,
            r.span_of() == span,
    {
        SyntaxError { level, message, issuer, location, span }
    }

    /// The default diagnostic of this kind, at level `Error`.
    pub fn new(issuer: String, location: Option<Location>, span: Option<Span>) -> (r: Self)
        ensures
            r.level_of() == Level::Error,
            r.message_of() == "There was a syntax error in the script."@,
            r.issuer_of() == issuer@,
            r.location_of() == location,
            r.span_of() == span,
    {
        SyntaxError { level: Level::Error, message: String::from_str("There was a syntax error in the script."), issuer, location, span }
    }

    /// The message, followed by ` (at file:line:column)` when the location is known.
    pub fn to_string(&self) -> (r: String)
        ensures
            r@ == short_report(self.message_of(), self.location_of()),
    {
        short_report_text(&self.message, &self.location)
    }
}

impl MainstageErrorExt for SyntaxError {
    closed spec fn level_of(&self) -> Level { self.level }
    closed spec fn message_of(&self) -> Seq<char> { self.message@ }
    closed spec fn issuer_of(&self) -> Seq<char> { self.issuer@ }
    closed spec fn span_of(&self) -> Option<Span> { self.span }
    closed spec fn location_of(&self) -> Option<Location> { self.location }

    fn level(&self) -> (r: Level) {
        self.level
    }

    fn message(&self) -> (r: String) {
        self.message.clone()
    }

    fn issuer(&self) -> (r: String) {
        self.issuer.clone()
    }

    fn span(&self) -> (r: Option<Span>) {
        dup_opt_span(&self.span)
    }

    fn location(&self) -> (r: Option<Location>) {
        dup_opt_location(&self.location)
    }
}

} // verus!
