//! Inferred kinds of values: the kind itself, how it was found, and where.
use vstd::prelude::*;
use crate::location::{Location, Span, same_opt_location, same_opt_span, dup_opt_location, dup_opt_span};
use crate::text::push_str;

verus! {

/// The kind of a value.
#[derive(Debug, Clone, Copy, PartialEq, Eq, Structural)]
pub enum Kind {
    Integer,
    Float,
    String,
    Boolean,
    Void,
    Null,
    Object,
    Array,
    Dynamic,
}

/// How a kind was found.
#[derive(Debug, Clone, Copy, PartialEq, Eq, Structural)]
pub enum Origin {
    Expression,
    Coerced,
    Unknown,
}

impl Default for Origin {
    fn default() -> (r: Self)
        ensures
            r == Origin::Unknown,
    {
        Origin::Unknown
    }
}

/// The name of a kind.
pub open spec fn kind_text(k: Kind) -> Seq<char> {
    match k {
        Kind::Integer => "Integer"@,
        Kind::Float => "Float"@,
        Kind::String => "String"@,
        Kind::Boolean => "Boolean"@,
        Kind::Void => "Void"@,
        Kind::Null => "Null"@,
        Kind::Object => "Object"@,
        Kind::Array => "Array"@,
        Kind::Dynamic => "Dynamic"@,
    }
}

/// The name of an origin in reports.
pub open spec fn origin_text(o: Origin) -> Seq<char> {
    match o {
        Origin::Expression => "inferred"@,
        Origin::Coerced => "coerced"@,
        Origin::Unknown => "unknown"@,
    }
}

impl Kind {
    /// The name of the kind.
    pub fn as_str(&self) -> (r: &'static str)
        ensures
            r@ == kind_text(*self),
    {
        match self {
            Kind::Integer => "Integer",
            Kind::Float => "Float",
            Kind::String => "String",
            Kind::Boolean => "Boolean",
            Kind::Void => "Void",
            Kind::Null => "Null",
            Kind::Object => "Object",
            Kind::Array => "Array",
            Kind::Dynamic => "Dynamic",
        }
    }
}

/// Whether a value of kind `b` may be used where kind `a` is expected: either is
/// dynamic, they are equal, `b` is null, or an integer is used as a float.
pub open spec fn kinds_compatible(a: Kind, b: Kind) -> bool {
    a == Kind::Dynamic || b == Kind::Dynamic || a == b || b == Kind::Null
        || (a == Kind::Float && b == Kind::Integer)
}

/// The kind two operands unify to.
pub open spec fn unified_kind(a: Kind, b: Kind) -> Kind {
    if a == b {
        a
    } else if a == Kind::Dynamic || b == Kind::Dynamic {
        Kind::Dynamic
    } else if (a == Kind::Float && b == Kind::Integer) || (a == Kind::Integer && b == Kind::Float) {
        Kind::Float
    } else if a == Kind::Null {
        b
    } else if b == Kind::Null {
        a
    } else {
        Kind::Dynamic
    }
}

/// The origin of a unified kind: coerced, unless it fell back to dynamic.
pub open spec fn unified_origin(a: Kind, b: Kind) -> Origin {
    if a == b {
        Origin::Coerced
    } else if unified_kind(a, b) == Kind::Dynamic {
        Origin::Unknown
    } else {
        Origin::Coerced
    }
}

/// A kind with its origin and where it was found.
#[derive(Debug)]
pub struct InferredKind {
    pub kind: Kind,
    pub origin: Origin,
    pub location: Option<Location>,
    pub span: Option<Span>,
}

impl Default for InferredKind {
    fn default() -> (r: Self)
        ensures
            r.kind == Kind::Dynamic,
            r.origin == Origin::Unknown,
            r.location is None,
            r.span is None,
    {
        InferredKind { kind: Kind::Dynamic, origin: Origin::Unknown, location: None, span: None }
    }
}

/// `a` if present, else `b`.
pub open spec fn first_of<T>(a: Option<T>, b: Option<T>) -> Option<T> {
    if a is Some { a } else { b }
}

impl InferredKind {
    pub fn new(kind: Kind, origin: Origin, location: Option<Location>, span: Option<Span>) -> (r: Self)
        ensures
            r == (InferredKind { kind, origin, location, span }),
    {
        InferredKind { kind, origin, location, span }
    }

    /// An integer found in an expression.
    pub fn integer() -> (r: Self)
        ensures
            r.kind == Kind::Integer && r.origin == Origin::Expression && r.location is None && r.span is None,
    {
        Self::new(Kind::Integer, Origin::Expression, None, None)
    }

    /// A float found in an expression.
    pub fn float() -> (r: Self)
        ensures
            r.kind == Kind::Float && r.origin == Origin::Expression && r.location is None && r.span is None,
    {
        Self::new(Kind::Float, Origin::Expression, None, None)
    }

    /// A string found in an expression.
    pub fn string() -> (r: Self)
        ensures
            r.kind == Kind::String && r.origin == Origin::Expression && r.location is None && r.span is None,
    {
        Self::new(Kind::String, Origin::Expression, None, None)
    }

    /// A boolean found in an expression.
    pub fn boolean() -> (r: Self)
        ensures
            r.kind == Kind::Boolean && r.origin == Origin::Expression && r.location is None && r.span is None,
    {
        Self::new(Kind::Boolean, Origin::Expression, None, None)
    }

    /// The dynamic kind of unknown origin.
    pub fn dynamic() -> (r: Self)
        ensures
            r.kind == Kind::Dynamic && r.origin == Origin::Unknown && r.location is None && r.span is None,
    {
        Self::default()
    }

    /// The same kind with another origin.
    pub fn with_origin(self, origin: Origin) -> (r: Self)
        ensures
            r == (InferredKind { origin, ..self }),
    {
        InferredKind { kind: self.kind, origin, location: self.location, span: self.span }
    }

    /// The same kind with a location.
    pub fn with_location(self, loc: Location) -> (r: Self)
        ensures
            r == (InferredKind { location: Some(loc), ..self }),
    {
        InferredKind { kind: self.kind, origin: self.origin, location: Some(loc), span: self.span }
    }

    /// The same kind with a span.
    pub fn with_span(self, span: Span) -> (r: Self)
        ensures
            r == (InferredKind { span: Some(span), ..self }),
    {
        InferredKind { kind: self.kind, origin: self.origin, location: self.location, span: Some(span) }
    }

    /// Whether the kind is a number.
    pub fn is_numeric(&self) -> (r: bool)
        ensures
            r == (self.kind == Kind::Integer || self.kind == Kind::Float),
    {
        self.kind == Kind::Integer || self.kind == Kind::Float
    }

    /// Whether the kind is dynamic.
    pub fn is_dynamic(&self) -> (r: bool)
        ensures
            r == (self.kind == Kind::Dynamic),
    {
        self.kind == Kind::Dynamic
    }

    /// Whether the kind is null.
    pub fn is_null(&self) -> (r: bool)
        ensures
            r == (self.kind == Kind::Null),
    {
        self.kind == Kind::Null
    }

    /// Whether a value of `other`'s kind may be used where this kind is expected.
    pub fn is_compatible_with(&self, other: &InferredKind) -> (r: bool)
        ensures
            r == kinds_compatible(self.kind, other.kind),
    {
        if self.is_dynamic() || other.is_dynamic() {
            return true;
        }
        if self.kind == other.kind {
            return true;
        }
        if other.is_null() {
            return true;
        }
        if self.kind == Kind::Float && other.kind == Kind::Integer {
            return true;
        }
        false
    }

    /// The kind of a binary operation on the two operands: the same kind, the float
    /// of an integer and a float, the other kind beside null, else dynamic. A
    /// unified kind is coerced and keeps the first known location and span; the
    /// dynamic fallback has none.
    pub fn unify(&self, other: &InferredKind) -> (r: InferredKind)
        ensures
            r.kind == unified_kind(self.kind, other.kind),
            r.origin == unified_origin(self.kind, other.kind),
            unified_kind(self.kind, other.kind) == Kind::Dynamic && self.kind != other.kind
                ==> r.location is None && r.span is None,
            !(unified_kind(self.kind, other.kind) == Kind::Dynamic && self.kind != other.kind) ==> {
                &&& same_opt_location(r.location, first_of(self.location, other.location))
                &&& same_opt_span(r.span, first_of(self.span, other.span))
            },
    {
        if self.kind == other.kind {
            return InferredKind {
                kind: self.kind,
                origin: Origin::Coerced,
                location: if self.location.is_some() { dup_opt_location(&self.location) } else { dup_opt_location(&other.location) },
                span: if self.span.is_some() { dup_opt_span(&self.span) } else { dup_opt_span(&other.span) },
            };
        }
        if self.is_dynamic() || other.is_dynamic() {
            return InferredKind::dynamic();
        }
        let k = if (self.kind == Kind::Float && other.kind == Kind::Integer) || (self.kind == Kind::Integer && other.kind == Kind::Float) {
            Some(Kind::Float)
        } else if self.kind == Kind::Null {
            Some(other.kind)
        } else if other.kind == Kind::Null {
            Some(self.kind)
        } else {
            None
        };
        match k {
            Some(kind) => InferredKind::new(
                kind,
                Origin::Coerced,
                if self.location.is_some() { dup_opt_location(&self.location) } else { dup_opt_location(&other.location) },
                if self.span.is_some() { dup_opt_span(&self.span) } else { dup_opt_span(&other.span) },
            ),
            None => InferredKind::dynamic(),
        }
    }

    /// `kind (origin)`, such as `Integer (inferred)`.
    pub fn to_string(&self) -> (r: String)
        ensures
            r@ == kind_text(self.kind) + " ("@ + origin_text(self.origin) + ")"@,
    {
        let mut s = String::from_str(self.kind.as_str());
        push_str(&mut s, " (");
        push_str(&mut s, match self.origin {
            Origin::Expression => "inferred",
            Origin::Coerced => "coerced",
            Origin::Unknown => "unknown",
        });
        push_str(&mut s, ")");
        s
    }

    /// A copy of the inferred kind.
    pub fn duplicate(&self) -> (r: Self)
        ensures
            r.kind == self.kind,
            r.origin == self.origin,
            same_opt_location(r.location, self.location),
            same_opt_span(r.span, self.span),
    {
        InferredKind {
            kind: self.kind,
            origin: self.origin,
            location: dup_opt_location(&self.location),
            span: dup_opt_span(&self.span),
        }
    }
}

/// Unification does not depend on the order of the operands' kinds.
pub proof fn lemma_unify_symmetric(a: Kind, b: Kind)
    ensures
        unified_kind(a, b) == unified_kind(b, a),
        unified_origin(a, b) == unified_origin(b, a),
{
}

/// A kind unifies with itself to itself, and is compatible with itself.
pub proof fn lemma_unify_reflexive(a: Kind)
    ensures
        unified_kind(a, a) == a,
        kinds_compatible(a, a),
{
}

/// Null gives way to any other kind; dynamic absorbs every kind.
pub proof fn lemma_unify_null_dynamic(a: Kind)
    ensures
        unified_kind(Kind::Null, a) == a,
        unified_kind(a, Kind::Dynamic) == Kind::Dynamic,
        kinds_compatible(a, Kind::Null),
        kinds_compatible(a, Kind::Dynamic),
{
}

/// Unifying two compatible kinds other than through null never falls back to
/// dynamic unless one of them is dynamic.
pub proof fn lemma_compatible_unifies(a: Kind, b: Kind)
    requires
        kinds_compatible(a, b),
        a != Kind::Dynamic,
        b != Kind::Dynamic,
    ensures
        unified_kind(a, b) != Kind::Dynamic,
{
}

} // verus!
