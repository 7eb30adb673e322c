//! The text forms of diagnostics.
use vstd::prelude::*;
use crate::error::{Level, level_text};
use crate::location::{Location, Span, location_text, span_text};
use crate::text::push_str;

verus! {

/// The location part of a report: `file:line:column`, or `unknown`.
pub open spec fn location_part(l: Option<Location>) -> Seq<char> {
    match l {
        Some(x) => location_text(x),
        None => "unknown"@,
    }
}

/// The span part of a report: `start - end`, or `span:none`.
pub open spec fn span_part(s: Option<Span>) -> Seq<char> {
    match s {
        Some(x) => span_text(x),
        None => "span:none"@,
    }
}

/// `MAINSTAGE | level | location | issuer | span | message`.
pub open spec fn long_report(level: Level, l: Option<Location>, issuer: Seq<char>, s: Option<Span>, message: Seq<char>) -> Seq<char> {
    "MAINSTAGE | "@ + level_text(level) + " | "@ + location_part(l) + " | "@ + issuer + " | "@ + span_part(s) + " | "@ + message
}

/// The message, followed by ` (at file:line:column)` when the location is known.
pub open spec fn short_report(message: Seq<char>, l: Option<Location>) -> Seq<char> {
    match l {
        Some(x) => message + " (at "@ + location_text(x) + ")"@,
        None => message,
    }
}

pub fn location_part_text(l: &Option<Location>) -> (r: String)
    ensures
        r@ == location_part(*l),
{
    match l {
        Some(x) => x.to_string(),
        None => String::from_str("unknown"),
    }
}

pub fn long_report_text(level: Level, l: &Option<Location>, issuer: &String, s: &Option<Span>, message: &String) -> (r: String)
    ensures
        r@ == long_report(level, *l, issuer@, *s, message@),
{
    let mut out = String::from_str("MAINSTAGE | ");
    push_str(&mut out, level.as_str());
    push_str(&mut out, " | ");
    let lt = location_part_text(l);
    push_str(&mut out, lt.as_str());
    push_str(&mut out, " | ");
    push_str(&mut out, issuer.as_str());
    push_str(&mut out, " | ");
    match s {
        Some(x) => {
            let st = x.to_string();
            push_str(&mut out, st.as_str());
        },
        None => push_str(&mut out, "span:none"),
    }
    push_str(&mut out, " | ");
    push_str(&mut out, message.as_str());
    out
}

pub fn short_report_text(message: &String, l: &Option<Location>) -> (r: String)
    ensures
        r@ == short_report(message@, *l),
{
    let mut out = message.clone();
    match l {
        Some(x) => {
            push_str(&mut out, " (at ");
            let lt = x.to_string();
            push_str(&mut out, lt.as_str());
            push_str(&mut out, ")");
        },
        None => {},
    }
    out
}

} // verus!
