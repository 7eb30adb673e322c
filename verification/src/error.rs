//! Diagnostic levels and the interface shared by all diagnostics.
use vstd::prelude::*;
use crate::location::{Location, Span, same_opt_location, same_opt_span};

verus! {

/// The severity of a diagnostic.
#[derive(Debug, Clone, Copy, PartialEq, Eq, Hash, Structural)]
pub enum Level {
    Info,
    Warning,
    Error,
    Critical,
}

/// The text of a level.
pub open spec fn level_text(l: Level) -> Seq<char> {
    match l {
        Level::Info => "INFO"@,
        Level::Warning => "WARNING"@,
        Level::Error => "ERROR"@,
        Level::Critical => "CRITICAL"@,
    }
}

impl Level {
    /// The text of the level.
    pub fn as_str(&self) -> (r: &'static str)
        ensures
            r@ == level_text(*self),
    {
        match self {
            Level::Info => "INFO",
            Level::Warning => "WARNING",
            Level::Error => "ERROR",
            Level::Critical => "CRITICAL",
        }
    }

    /// The text of the level, as a new string.
    pub fn to_string(&self) -> (r: String)
        ensures
            r@ == level_text(*self),
    {
        String::from_str(self.as_str())
    }
}

/// A diagnostic: its level, message, issuer and where it happened.
pub trait MainstageErrorExt {
    spec fn level_of(&self) -> Level;
    spec fn message_of(&self) -> Seq<char>;
    spec fn issuer_of(&self) -> Seq<char>;
    spec fn span_of(&self) -> Option<Span>;
    spec fn location_of(&self) -> Option<Location>;

    fn level(&self) -> (r: Level)
        ensures
            r == self.level_of();

    fn message(&self) -> (r: String)
        ensures
            r@ == self.message_of();

    fn issuer(&self) -> (r: String)
        ensures
            r@ == self.issuer_of();

    fn span(&self) -> (r: Option<Span>)
        ensures
            same_opt_span(r, self.span_of());

    fn location(&self) -> (r: Option<Location>)
        ensures
            same_opt_location(r, self.location_of());
}

} // verus!
