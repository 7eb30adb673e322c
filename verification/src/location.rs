//! Source locations and spans.
use vstd::prelude::*;
use crate::text::{push_str, push_usize_decimal, nat_digits};

verus! {

/// A position in a source file.
#[derive(Debug, Clone, PartialEq, Eq, Hash)]
pub struct Location {
    /// The file in which the location is found.
    pub file: String,
    /// The line number of the location.
    pub line: usize,
    /// The column number of the location.
    pub column: usize,
}

/// The text form of a location: `file:line:column`.
pub open spec fn location_text(l: Location) -> Seq<char> {
    l.file@ + ":"@ + nat_digits(l.line as nat) + ":"@ + nat_digits(l.column as nat)
}

/// Two locations hold the same file name, line and column.
pub open spec fn same_location(a: Location, b: Location) -> bool {
    a.file@ == b.file@ && a.line == b.line && a.column == b.column
}

impl Location {
    /// Creates a new `Location`.
    pub fn new(file: String, line: usize, column: usize) -> (r: Self)
        ensures
            r == (Location { file, line, column }),
    {
        Location { file, line, column }
    }

    /// A copy of the location.
    pub fn duplicate(&self) -> (r: Self)
        ensures
            same_location(r, *self),
    {
        Location { file: self.file.clone(), line: self.line, column: self.column }
    }

    /// The text form `file:line:column`.
    pub fn to_string(&self) -> (r: String)
        ensures
            r@ == location_text(*self),
    {
        let mut s = self.file.clone();
        push_str(&mut s, ":");
        push_usize_decimal(&mut s, self.line);
        push_str(&mut s, ":");
        push_usize_decimal(&mut s, self.column);
        s
    }
}

impl Default for Location {
    fn default() -> (r: Self)
        ensures
            r.file@ == Seq::<char>::empty() && r.line == 0 && r.column == 0,
    {
        Location { file: String::new(), line: 0, column: 0 }
    }
}

/// A range of source text between two locations.
#[derive(Debug, Clone, PartialEq, Eq, Hash)]
pub struct Span {
    /// The starting location of the span.
    pub start: Location,
    /// The ending location of the span.
    pub end: Location,
}

/// The text form of a span: `start - end`.
pub open spec fn span_text(s: Span) -> Seq<char> {
    location_text(s.start) + " - "@ + location_text(s.end)
}

impl Span {
    /// Creates a new `Span` from two `Location`s.
    pub fn new(start: Location, end: Location) -> (r: Self)
        ensures
            r == (Span { start, end }),
    {
        Span { start, end }
    }

    /// A copy of the span.
    pub fn duplicate(&self) -> (r: Self)
        ensures
            same_location(r.start, self.start),
            same_location(r.end, self.end),
    {
        Span { start: self.start.duplicate(), end: self.end.duplicate() }
    }

    /// The text form `start - end`.
    pub fn to_string(&self) -> (r: String)
        ensures
            r@ == span_text(*self),
    {
        let mut s = self.start.to_string();
        push_str(&mut s, " - ");
        let e = self.end.to_string();
        push_str(&mut s, e.as_str());
        s
    }
}

impl Default for Span {
    fn default() -> (r: Self)
        ensures
            r.start.file@ == Seq::<char>::empty() && r.start.line == 0 && r.start.column == 0,
            r.end.file@ == Seq::<char>::empty() && r.end.line == 0 && r.end.column == 0,
    {
        Span { start: Location::default(), end: Location::default() }
    }
}

} // verus!

verus! {

/// Two optional locations are both absent, or both present and the same.
pub open spec fn same_opt_location(a: Option<Location>, b: Option<Location>) -> bool {
    match (a, b) {
        (Some(x), Some(y)) => same_location(x, y),
        (None, None) => true,
        _ => false,
    }
}

/// Two optional spans are both absent, or both present with the same ends.
pub open spec fn same_opt_span(a: Option<Span>, b: Option<Span>) -> bool {
    match (a, b) {
        (Some(x), Some(y)) => same_location(x.start, y.start) && same_location(x.end, y.end),
        (None, None) => true,
        _ => false,
    }
}

/// A copy of an optional location.
pub fn dup_opt_location(o: &Option<Location>) -> (r: Option<Location>)
    ensures
        same_opt_location(r, *o),
{
    match o {
        Some(l) => Some(l.duplicate()),
        None => None,
    }
}

/// A copy of an optional span.
pub fn dup_opt_span(o: &Option<Span>) -> (r: Option<Span>)
    ensures
        same_opt_span(r, *o),
{
    match o {
        Some(s) => Some(s.duplicate()),
        None => None,
    }
}

} // verus!
