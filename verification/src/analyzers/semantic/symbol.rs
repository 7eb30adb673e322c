//! Symbols of the semantic analysis: variables, functions (stages) and objects
//! (workspaces and projects).
use vstd::prelude::*;
use crate::analyzers::semantic::kind::{InferredKind, Kind, Origin};
use crate::location::{Location, Span, same_opt_location, same_opt_span, dup_opt_location, dup_opt_span};

verus! {

/// What a symbol names.
#[derive(Debug, Clone, Copy, PartialEq, Eq, Structural)]
pub enum SymbolKind {
    Variable,
    Function,
    Object,
}

/// Where a symbol is declared.
#[derive(Debug, Clone, Copy, PartialEq, Eq, Structural)]
pub enum SymbolScope {
    Global,
    Local,
    Builtin,
}

/// A declared name with what the analysis knows of it.
#[derive(Debug)]
pub struct Symbol {
    name: String,
    kind: SymbolKind,
    inferred_type: Option<InferredKind>,
    scope: SymbolScope,
    parameters: Option<Vec<Symbol>>,
    return_kind: Option<InferredKind>,
    /// For object symbols, the properties declared inside their bodies.
    properties: Option<Vec<(String, Symbol)>>,
    ref_count: usize,
    location: Option<Location>,
    span: Option<Span>,
    /// The places where the symbol was read.
    usages: Vec<(Location, Option<Span>)>,
}

/// The index of the first property named `name`.
pub open spec fn property_index(props: Seq<(String, Symbol)>, name: Seq<char>) -> Option<int> {
    if exists|i: int| 0 <= i < props.len() && props[i].0@ == name {
        Some(choose|i: int| 0 <= i < props.len() && props[i].0@ == name
            && forall|j: int| 0 <= j < i ==> props[j].0@ != name)
    } else {
        None
    }
}

/// The first property with the given name is at `i`.
pub proof fn lemma_property_index_is(props: Seq<(String, Symbol)>, name: Seq<char>, i: int)
    requires
        0 <= i < props.len(),
        props[i].0@ == name,
        forall|j: int| 0 <= j < i ==> props[j].0@ != name,
    ensures
        property_index(props, name) == Some(i),
{
    let c = choose|c: int| 0 <= c < props.len() && props[c].0@ == name
        && forall|j: int| 0 <= j < c ==> props[j].0@ != name;
    assert(0 <= c < props.len() && props[c].0@ == name && forall|j: int| 0 <= j < c ==> props[j].0@ != name);
    if c < i {
    } else if c > i {
        assert(props[i].0@ != name);
    }
}

/// The property named `name` in a property list, if any.
pub open spec fn property_named(props: Option<Seq<(String, Symbol)>>, name: Seq<char>) -> Option<Symbol> {
    match props {
        Some(p) => match property_index(p, name) {
            Some(i) => Some(p[i].1),
            None => None,
        },
        None => None,
    }
}

/// Changing the entry at `i` (keeping its name) or appending entries under other
/// names leaves the property of any other name as it was.
/// Where some property has the name, a first one has it.
proof fn lemma_first_property(p: Seq<(String, Symbol)>, m: Seq<char>, j: int)
    requires
        0 <= j < p.len(),
        p[j].0@ == m,
    ensures
        exists|k: int| 0 <= k < p.len() && p[k].0@ == m && forall|l: int| 0 <= l < k ==> p[l].0@ != m,
    decreases j,
{
    if exists|l: int| 0 <= l < j && p[l].0@ == m {
        let l = choose|l: int| 0 <= l < j && p[l].0@ == m;
        lemma_first_property(p, m, l);
    } else {
        assert(forall|l: int| 0 <= l < j ==> p[l].0@ != m);
    }
}

proof fn lemma_property_index_kept(p: Seq<(String, Symbol)>, q: Seq<(String, Symbol)>, i: int, name: Seq<char>, m: Seq<char>)
    requires
        m != name,
        p.len() <= q.len(),
        forall|j: int| 0 <= j < p.len() && j != i ==> #[trigger] q[j] == p[j],
        0 <= i < q.len() ==> q[i].0@ == name,
        0 <= i < p.len() ==> p[i].0@ == name,
        forall|j: int| p.len() <= j < q.len() ==> (#[trigger] q[j]).0@ == name,
    ensures
        property_named(Some(q), m) == property_named(Some(p), m),
{
    match property_index(p, m) {
        Some(k) => {
            let w = choose|w: int| 0 <= w < p.len() && p[w].0@ == m;
            lemma_first_property(p, m, w);
            assert(0 <= k < p.len() && p[k].0@ == m && forall|l: int| 0 <= l < k ==> p[l].0@ != m);
            assert(k != i);
            assert(q[k] == p[k]);
            assert forall|l: int| 0 <= l < k implies q[l].0@ != m by {
                if l != i { assert(q[l] == p[l]); }
            }
            lemma_property_index_is(q, m, k);
        },
        None => {
            assert forall|j: int| 0 <= j < q.len() implies q[j].0@ != m by {
                if j < p.len() && j != i {
                    assert(q[j] == p[j]);
                    assert(p[j].0@ != m);
                }
            }
        },
    }
}

fn find_prop(props: &Vec<(String, Symbol)>, name: &str) -> (r: Option<usize>)
    ensures
        match r {
            Some(i) => i < props@.len() && property_index(props@, name@) == Some(i as int)
                && props@[i as int].0@ == name@ && forall|j: int| 0 <= j < i ==> props@[j].0@ != name@,
            None => property_index(props@, name@) is None && forall|j: int| 0 <= j < props@.len() ==> props@[j].0@ != name@,
        },
{
    let mut i: usize = 0;
    while i < props.len()
        invariant
            i <= props@.len(),
            forall|j: int| 0 <= j < i ==> props@[j].0@ != name@,
        decreases props@.len() - i,
    {
        if crate::text::str_eq(props[i].0.as_str(), name) {
            proof { lemma_property_index_is(props@, name@, i as int); }
            return Some(i);
        }
        i += 1;
    }
    None
}

impl Symbol {
    pub closed spec fn name_of(&self) -> Seq<char> { self.name@ }
    pub closed spec fn kind_of(&self) -> SymbolKind { self.kind }
    pub closed spec fn inferred_of(&self) -> Option<InferredKind> { self.inferred_type }
    pub closed spec fn scope_of(&self) -> SymbolScope { self.scope }
    pub closed spec fn parameters_of(&self) -> Option<Seq<Symbol>> {
        match self.parameters { Some(p) => Some(p@), None => None }
    }
    pub closed spec fn return_kind_of(&self) -> Option<InferredKind> { self.return_kind }
    pub closed spec fn properties_of(&self) -> Option<Seq<(String, Symbol)>> {
        match self.properties { Some(p) => Some(p@), None => None }
    }
    pub closed spec fn refs(&self) -> usize { self.ref_count }
    pub closed spec fn location_of(&self) -> Option<Location> { self.location }
    pub closed spec fn span_of(&self) -> Option<Span> { self.span }
    pub closed spec fn usages_of(&self) -> Seq<(Location, Option<Span>)> { self.usages@ }

    /// The two symbols agree on everything but their reference counts and usages.
    pub closed spec fn same_but_counts(&self, other: &Symbol) -> bool {
        &&& self.name == other.name
        &&& self.kind == other.kind
        &&& self.inferred_type == other.inferred_type
        &&& self.scope == other.scope
        &&& self.parameters == other.parameters
        &&& self.return_kind == other.return_kind
        &&& self.properties == other.properties
        &&& self.location == other.location
        &&& self.span == other.span
    }

    /// The two symbols agree on everything but their properties.
    pub closed spec fn same_but_properties(&self, other: &Symbol) -> bool {
        &&& self.name == other.name
        &&& self.kind == other.kind
        &&& self.inferred_type == other.inferred_type
        &&& self.scope == other.scope
        &&& self.parameters == other.parameters
        &&& self.return_kind == other.return_kind
        &&& self.ref_count == other.ref_count
        &&& self.location == other.location
        &&& self.span == other.span
        &&& self.usages == other.usages
    }

    /// A copy of the symbol's name.
    pub fn name_clone(&self) -> (r: String)
        ensures
            r@ == self.name_of(),
    {
        self.name.clone()
    }

    /// A symbol with no properties, references or usages yet.
    pub fn new(
        name: String,
        kind: SymbolKind,
        inferred_type: Option<InferredKind>,
        scope: SymbolScope,
        parameters: Option<Vec<Symbol>>,
        return_kind: Option<InferredKind>,
        location: Option<Location>,
        span: Option<Span>,
    ) -> (r: Self)
        ensures
            r.name_of() == name@,
            r.kind_of() == kind,
            r.inferred_of() == inferred_type,
            r.scope_of() == scope,
            r.parameters_of() == (match parameters { Some(p) => Some(p@), None => None::<Seq<Symbol>> }),
            r.return_kind_of() == return_kind,
            r.properties_of() is None,
            r.refs() == 0,
            r.location_of() == location,
            r.span_of() == span,
            r.usages_of().len() == 0,
    {
        Symbol {
            name,
            kind,
            inferred_type,
            scope,
            parameters,
            return_kind,
            properties: None,
            ref_count: 0,
            location,
            span,
            usages: Vec::new(),
        }
    }

    /// An object symbol: kind `Object`, an inferred object kind of unknown origin at
    /// the same place, and an empty property list.
    pub fn new_object(
        name: String,
        scope: SymbolScope,
        arguments: Option<Vec<Symbol>>,
        return_kind: Option<InferredKind>,
        location: Option<Location>,
        span: Option<Span>,
    ) -> (r: Self)
        ensures
            r.name_of() == name@,
            r.kind_of() == SymbolKind::Object,
            r.inferred_of() matches Some(t) && t.kind == Kind::Object && t.origin == Origin::Unknown
                && same_opt_location(t.location, location) && same_opt_span(t.span, span),
            r.scope_of() == scope,
            r.parameters_of() == (match arguments { Some(p) => Some(p@), None => None::<Seq<Symbol>> }),
            r.return_kind_of() == return_kind,
            r.properties_of() == Some(Seq::<(String, Symbol)>::empty()),
            r.refs() == 0,
            r.location_of() == location,
            r.span_of() == span,
            r.usages_of().len() == 0,
    {
        let t = InferredKind::new(Kind::Object, Origin::Unknown, dup_opt_location(&location), dup_opt_span(&span));
        let mut s = Symbol::new(name, SymbolKind::Object, Some(t), scope, arguments, return_kind, location, span);
        s.properties = Some(Vec::new());
        s
    }

    /// A variable symbol.
    pub fn new_variable(
        name: String,
        inferred_type: Option<InferredKind>,
        scope: SymbolScope,
        location: Option<Location>,
        span: Option<Span>,
    ) -> (r: Self)
        ensures
            r.name_of() == name@,
            r.kind_of() == SymbolKind::Variable,
            r.inferred_of() == inferred_type,
            r.scope_of() == scope,
            r.parameters_of() is None,
            r.return_kind_of() is None,
            r.properties_of() is None,
            r.refs() == 0,
            r.location_of() == location,
            r.span_of() == span,
            r.usages_of().len() == 0,
    {
        Symbol::new(name, SymbolKind::Variable, inferred_type, scope, None, None, location, span)
    }

    /// Counts one more reference.
    pub fn increment_ref_count(&mut self)
        requires
            old(self).refs() < usize::MAX,
        ensures
            final(self).refs() == old(self).refs() + 1,
            final(self).usages_of() == old(self).usages_of(),
            final(self).name_of() == old(self).name_of(),
            final(self).same_but_counts(old(self)),
    {
        self.ref_count = self.ref_count + 1;
    }

    /// Records a read of the symbol at `loc`; nothing is recorded without a location.
    pub fn record_usage(&mut self, loc: Option<Location>, span: Option<Span>)
        ensures
            final(self).usages_of() == (match loc {
                Some(l) => old(self).usages_of().push((l, span)),
                None => old(self).usages_of(),
            }),
            final(self).refs() == old(self).refs(),
            final(self).name_of() == old(self).name_of(),
            final(self).same_but_counts(old(self)),
    {
        match loc {
            Some(l) => { self.usages.push((l, span)); },
            None => {},
        }
    }

    /// Whether the symbol was referenced.
    pub fn is_referenced(&self) -> (r: bool)
        ensures
            r == (self.refs() > 0),
    {
        self.ref_count > 0
    }

    pub fn kind(&self) -> (r: &SymbolKind)
        ensures
            *r == self.kind_of(),
    {
        &self.kind
    }

    pub fn scope(&self) -> (r: &SymbolScope)
        ensures
            *r == self.scope_of(),
    {
        &self.scope
    }

    pub fn parameters(&self) -> (r: Option<&Vec<Symbol>>)
        ensures
            match r { Some(p) => self.parameters_of() == Some(p@), None => self.parameters_of() is None },
    {
        self.parameters.as_ref()
    }

    pub fn returns_kind(&self) -> (r: Option<&InferredKind>)
        ensures
            match r { Some(k) => self.return_kind_of() == Some(*k), None => self.return_kind_of() is None },
    {
        self.return_kind.as_ref()
    }

    pub fn set_returns(&mut self, k: InferredKind)
        ensures
            final(self).return_kind_of() == Some(k),
            final(self).name_of() == old(self).name_of(),
            final(self).kind_of() == old(self).kind_of(),
    {
        self.return_kind = Some(k);
    }

    pub fn inferred_type(&self) -> (r: Option<&InferredKind>)
        ensures
            match r { Some(k) => self.inferred_of() == Some(*k), None => self.inferred_of() is None },
    {
        self.inferred_type.as_ref()
    }

    pub fn set_inferred_type(&mut self, k: InferredKind)
        ensures
            final(self).inferred_of() == Some(k),
            final(self).name_of() == old(self).name_of(),
            final(self).kind_of() == old(self).kind_of(),
    {
        self.inferred_type = Some(k);
    }

    /// The declaration location, if known.
    pub fn location(&self) -> (r: Option<Location>)
        ensures
            same_opt_location(r, self.location_of()),
    {
        dup_opt_location(&self.location)
    }

    /// The declaration span, if known.
    pub fn span(&self) -> (r: Option<Span>)
        ensures
            same_opt_span(r, self.span_of()),
    {
        dup_opt_span(&self.span)
    }

    /// Inserts or replaces the property `name` (creating the property list if needed).
    pub fn insert_property(&mut self, name: String, symbol: Symbol)
        ensures
            final(self).properties_of() matches Some(p) && property_index(p, name@) matches Some(i)
                && 0 <= i < p.len() && p[i].1 == symbol,
            property_named(final(self).properties_of(), name@) == Some(symbol),
            forall|m: Seq<char>| m != name@ ==>
                #[trigger] property_named(final(self).properties_of(), m) == property_named(old(self).properties_of(), m),
            final(self).same_but_properties(old(self)),
            final(self).name_of() == old(self).name_of(),
    {
        let ghost old_props = match old(self).properties_of() { Some(p) => p, None => Seq::<(String, Symbol)>::empty() };
        let mut props = match self.properties.take() {
            Some(p) => p,
            None => Vec::new(),
        };
        let ghost nm = name@;
        match find_prop(&props, name.as_str()) {
            Some(i) => {
                props.set(i, (name, symbol));
                proof {
                    lemma_property_index_is(props@, nm, i as int);
                    assert forall|m: Seq<char>| m != nm implies #[trigger] property_named(Some(props@), m) == property_named(Some(old_props), m) by {
                        lemma_property_index_kept(old_props, props@, i as int, nm, m);
                    }
                }
            },
            None => {
                props.push((name, symbol));
                proof {
                    lemma_property_index_is(props@, nm, props@.len() - 1);
                    assert forall|m: Seq<char>| m != nm implies #[trigger] property_named(Some(props@), m) == property_named(Some(old_props), m) by {
                        lemma_property_index_kept(old_props, props@, -1, nm, m);
                    }
                }
            },
        }
        self.properties = Some(props);
    }

    /// The property named `name`, if any.
    pub fn get_property(&self, name: &str) -> (r: Option<&Symbol>)
        ensures
            match r {
                Some(s) => self.properties_of() matches Some(p) && property_index(p, name@) matches Some(i)
                    && 0 <= i < p.len() && p[i].1 == *s,
                None => match self.properties_of() { Some(p) => property_index(p, name@) is None, None => true },
            },
    {
        match &self.properties {
            Some(props) => match find_prop(props, name) {
                Some(i) => Some(&props[i].1),
                None => None,
            },
            None => None,
        }
    }

    /// The property named `name`, if any, to change in place.
    pub fn get_property_mut(&mut self, name: &str) -> (r: Option<&mut Symbol>)
        ensures
            match old(self).properties_of() {
                Some(p) => match property_index(p, name@) {
                    Some(i) => {
                        &&& r is Some
                        &&& 0 <= i < p.len()
                        &&& *r->0 == p[i].1
                        &&& final(self).properties_of() == Some(p.update(i, (p[i].0, *final(r->0))))
                        &&& final(self).same_but_properties(old(self))
                    },
                    None => r is None && *final(self) == *old(self),
                },
                None => r is None && *final(self) == *old(self),
            },
    {
        match &mut self.properties {
            Some(props) => match find_prop(props, name) {
                Some(i) => Some(&mut props[i].1),
                None => None,
            },
            None => None,
        }
    }

    /// The recorded usage sites.
    pub fn usages(&self) -> (r: &Vec<(Location, Option<Span>)>)
        ensures
            r@ == self.usages_of(),
    {
        &self.usages
    }

    /// The last recorded usage site, if any.
    pub fn last_usage(&self) -> (r: Option<&(Location, Option<Span>)>)
        ensures
            match r {
                Some(u) => self.usages_of().len() > 0 && *u == self.usages_of().last(),
                None => self.usages_of().len() == 0,
            },
    {
        self.usages.last()
    }
}

} // verus!
