//! The symbol table: a stack of scopes, each mapping names to their declarations
//! (an overload set, latest last).
use vstd::prelude::*;
use crate::analyzers::semantic::symbol::Symbol;
use crate::analyzers::semantic::kind::Kind;
use crate::analyzers::semantic::err::SemanticError;

verus! {

/// The position of `name` in a scope.
pub open spec fn entry_index(scope: Seq<(String, Vec<Symbol>)>, name: Seq<char>) -> Option<int> {
    if exists|i: int| 0 <= i < scope.len() && scope[i].0@ == name {
        Some(choose|i: int| 0 <= i < scope.len() && scope[i].0@ == name)
    } else {
        None
    }
}

/// The declarations of `name` in a scope (empty when it has none).
pub open spec fn declared(scope: Seq<(String, Vec<Symbol>)>, name: Seq<char>) -> Seq<Symbol> {
    match entry_index(scope, name) {
        Some(i) => scope[i].1@,
        None => Seq::empty(),
    }
}

/// Whether a scope declares `name`.
pub open spec fn scope_has(scope: Seq<(String, Vec<Symbol>)>, name: Seq<char>) -> bool {
    exists|i: int| 0 <= i < scope.len() && scope[i].0@ == name
}

/// Names are declared at most once per scope.
pub open spec fn names_distinct(scope: Seq<(String, Vec<Symbol>)>) -> bool {
    forall|i: int, j: int| 0 <= i < j < scope.len() ==> scope[i].0@ != scope[j].0@
}

/// The innermost scope that declares `name`.
pub open spec fn innermost(scopes: Seq<Vec<(String, Vec<Symbol>)>>, name: Seq<char>) -> Option<int>
    decreases scopes.len(),
{
    if scopes.len() == 0 {
        None
    } else if scope_has(scopes.last()@, name) {
        Some(scopes.len() - 1)
    } else {
        innermost(scopes.drop_last(), name)
    }
}

/// The declarations of the symbols of a scope, entry after entry.
pub open spec fn scope_symbols(scope: Seq<(String, Vec<Symbol>)>) -> Seq<Symbol>
    decreases scope.len(),
{
    if scope.len() == 0 { Seq::empty() } else { scope_symbols(scope.drop_last()) + scope.last().1@ }
}

/// All declarations, scope after scope.
pub open spec fn all_symbols(scopes: Seq<Vec<(String, Vec<Symbol>)>>) -> Seq<Symbol>
    decreases scopes.len(),
{
    if scopes.len() == 0 { Seq::empty() } else { all_symbols(scopes.drop_last()) + scope_symbols(scopes.last()@) }
}

/// Whether a symbol's inferred kind is `k`.
pub open spec fn has_kind(s: Symbol, k: Kind) -> bool {
    s.inferred_of() matches Some(t) && t.kind == k
}

/// `new` is `old` with an empty innermost scope pushed.
pub open spec fn scope_entered(new: SymbolTable, old: SymbolTable) -> bool {
    &&& new.diagnostics == old.diagnostics
    &&& new.symbols@.len() == old.symbols@.len() + 1
    &&& new.symbols@.subrange(0, old.symbols@.len() as int) == old.symbols@
    &&& new.symbols@.last()@.len() == 0
}

/// `new` is `old` with its innermost scope popped, if it has one.
pub open spec fn scope_exited(new: SymbolTable, old: SymbolTable) -> bool {
    &&& new.diagnostics == old.diagnostics
    &&& old.symbols@.len() > 0 ==> new.symbols@ == old.symbols@.drop_last()
    &&& old.symbols@.len() == 0 ==> new.symbols@ == old.symbols@
}

/// `new` is `old` with `symbol` added to the declarations of its name in the
/// innermost scope, which then answers for that name; nothing else changes. A table
/// without scopes is left as it is.
pub open spec fn symbol_inserted(new: SymbolTable, old: SymbolTable, symbol: Symbol) -> bool {
    &&& new.diagnostics == old.diagnostics
    &&& old.symbols@.len() == 0 ==> new.symbols@ == old.symbols@
    &&& old.symbols@.len() > 0 ==> {
        let n = old.symbols@.len() as int;
        &&& new.symbols@.len() == n
        &&& new.symbols@.subrange(0, n - 1) == old.symbols@.subrange(0, n - 1)
        &&& declared(new.symbols@[n - 1]@, symbol.name_of()) == declared(old.symbols@[n - 1]@, symbol.name_of()).push(symbol)
        &&& forall|other: Seq<char>| other != symbol.name_of()
            ==> #[trigger] declared(new.symbols@[n - 1]@, other) == declared(old.symbols@[n - 1]@, other)
        &&& forall|other: Seq<char>| other != symbol.name_of()
            ==> #[trigger] scope_has(new.symbols@[n - 1]@, other) == scope_has(old.symbols@[n - 1]@, other)
        &&& innermost(new.symbols@, symbol.name_of()) == Some(n - 1)
    }
}

/// `new` has as many scopes as `old`, and all but the innermost are as they were.
pub open spec fn outer_scopes_kept(new: SymbolTable, old: SymbolTable) -> bool {
    &&& new.symbols@.len() == old.symbols@.len()
    &&& old.symbols@.len() > 0 ==> new.symbols@.subrange(0, old.symbols@.len() - 1)
        == old.symbols@.subrange(0, old.symbols@.len() - 1)
}

/// Law: a scope that declares a name answers for it, whatever the scopes around it
/// declare: the innermost declaring scope shadows the outer ones.
pub proof fn law_innermost_declaration_shadows(scopes: Seq<Vec<(String, Vec<Symbol>)>>, name: Seq<char>, k: int)
    requires
        0 <= k < scopes.len(),
        scope_has(scopes[k]@, name),
        forall|j: int| k < j < scopes.len() ==> !scope_has(#[trigger] scopes[j]@, name),
    ensures
        innermost(scopes, name) == Some(k),
    decreases scopes.len(),
{
    if k < scopes.len() - 1 {
        assert(!scope_has(scopes[scopes.len() - 1]@, name));
        let d = scopes.drop_last();
        assert forall|j: int| k < j < d.len() implies !scope_has(#[trigger] d[j]@, name) by {
            assert(d[j] == scopes[j]);
        }
        law_innermost_declaration_shadows(d, name, k);
    }
}

/// Law: a symbol declared in a scope just entered is the only declaration a lookup
/// of its name finds there.
pub proof fn law_fresh_scope_declaration(t0: SymbolTable, t1: SymbolTable, t2: SymbolTable, symbol: Symbol)
    requires
        scope_entered(t1, t0),
        symbol_inserted(t2, t1, symbol),
    ensures
        innermost(t2.symbols@, symbol.name_of()) == Some(t0.symbols@.len() as int),
        declared(t2.symbols@[t0.symbols@.len() as int]@, symbol.name_of()) == seq![symbol],
{
    let n = t1.symbols@.len() as int;
    assert(entry_index(t1.symbols@[n - 1]@, symbol.name_of()) is None);
    assert(declared(t1.symbols@[n - 1]@, symbol.name_of()) =~= Seq::<Symbol>::empty());
    assert(Seq::<Symbol>::empty().push(symbol) =~= seq![symbol]);
}

proof fn lemma_outer_scopes_through(t0: SymbolTable, mid: Seq<SymbolTable>, i: int)
    requires
        0 <= i < mid.len(),
        scope_entered(mid[0], t0),
        forall|j: int| 0 <= j < mid.len() - 1 ==> outer_scopes_kept(#[trigger] mid[j + 1], mid[j]),
    ensures
        mid[i].symbols@.len() == t0.symbols@.len() + 1,
        mid[i].symbols@.subrange(0, t0.symbols@.len() as int) == t0.symbols@,
    decreases i,
{
    if i > 0 {
        lemma_outer_scopes_through(t0, mid, i - 1);
        let j = i - 1;
        assert(outer_scopes_kept(mid[j + 1], mid[j]));
        assert(mid[j + 1] == mid[i]);
    }
}

/// Law: entering a scope, then declaring and removing symbols, then leaving it gives
/// back the scopes as they were before entering. `mid` lists the table after
/// entering and after each change.
pub proof fn law_scope_undone(t0: SymbolTable, mid: Seq<SymbolTable>, t3: SymbolTable)
    requires
        mid.len() >= 1,
        scope_entered(mid[0], t0),
        forall|i: int| 0 <= i < mid.len() - 1 ==> outer_scopes_kept(#[trigger] mid[i + 1], mid[i]),
        scope_exited(t3, mid.last()),
    ensures
        t3.symbols@ == t0.symbols@,
{
    let n = t0.symbols@.len() as int;
    lemma_outer_scopes_through(t0, mid, mid.len() - 1);
    assert(mid.last().symbols@.drop_last() =~= mid.last().symbols@.subrange(0, n));
}

/// Law: entering a scope shadows nothing, and leaving it again gives back the table
/// as it was, so every lookup answers as before.
pub proof fn law_enter_exit_round_trip(t0: SymbolTable, t1: SymbolTable, t2: SymbolTable)
    requires
        scope_entered(t1, t0),
        scope_exited(t2, t1),
    ensures
        forall|name: Seq<char>| #[trigger] innermost(t1.symbols@, name) == innermost(t0.symbols@, name),
        t2.symbols@ == t0.symbols@,
        t2.diagnostics == t0.diagnostics,
{
    assert(t1.symbols@.drop_last() =~= t0.symbols@);
    assert forall|name: Seq<char>| #[trigger] innermost(t1.symbols@, name) == innermost(t0.symbols@, name) by {
        assert(!scope_has(t1.symbols@.last()@, name));
    }
}

/// A stack of scopes, outermost (global) first.
#[derive(Debug)]
pub struct SymbolTable {
    pub symbols: Vec<Vec<(String, Vec<Symbol>)>>,
    pub diagnostics: Vec<SemanticError>,
}

proof fn lemma_entry_index(scope: Seq<(String, Vec<Symbol>)>, name: Seq<char>, i: int)
    requires
        names_distinct(scope),
        0 <= i < scope.len(),
        scope[i].0@ == name,
    ensures
        entry_index(scope, name) == Some(i),
{
    let c = choose|c: int| 0 <= c < scope.len() && scope[c].0@ == name;
    if c < i { assert(scope[c].0@ != scope[i].0@); }
    if c > i { assert(scope[i].0@ != scope[c].0@); }
}

fn find_entry(scope: &Vec<(String, Vec<Symbol>)>, name: &str) -> (r: Option<usize>)
    ensures
        match r {
            Some(i) => i < scope@.len() && scope@[i as int].0@ == name@,
            None => !scope_has(scope@, name@),
        },
{
    let mut i: usize = 0;
    while i < scope.len()
        invariant
            i <= scope@.len(),
            forall|j: int| 0 <= j < i ==> scope@[j].0@ != name@,
        decreases scope@.len() - i,
    {
        if crate::text::str_eq(scope[i].0.as_str(), name) {
            return Some(i);
        }
        i += 1;
    }
    None
}

impl SymbolTable {
    /// Every scope declares each name at most once.
    pub open spec fn wf(&self) -> bool {
        forall|s: int| 0 <= s < self.symbols@.len() ==> names_distinct(#[trigger] self.symbols@[s]@)
    }

    /// A table with one empty (global) scope.
    pub fn new() -> (r: Self)
        ensures
            r.wf(),
            r.symbols@.len() == 1,
            r.symbols@[0]@.len() == 0,
            r.diagnostics@.len() == 0,
    {
        let mut symbols: Vec<Vec<(String, Vec<Symbol>)>> = Vec::new();
        symbols.push(Vec::new());
        SymbolTable { symbols, diagnostics: Vec::new() }
    }

    /// Opens a new innermost scope.
    pub fn enter_scope(&mut self)
        requires
            old(self).wf(),
        ensures
            final(self).wf(),
            scope_entered(*final(self), *old(self)),
    {
        self.symbols.push(Vec::new());
        assert(self.symbols@.subrange(0, old(self).symbols@.len() as int) =~= old(self).symbols@);
    }

    /// Closes the innermost scope, if any.
    pub fn exit_scope(&mut self)
        requires
            old(self).wf(),
        ensures
            final(self).wf(),
            scope_exited(*final(self), *old(self)),
    {
        self.symbols.pop();
    }

    /// Adds a declaration of the symbol's name to the innermost scope; it becomes the
    /// latest of the name's overload set. A table without scopes is left as it is.
    pub fn insert_symbol(&mut self, symbol: Symbol)
        requires
            old(self).wf(),
        ensures
            final(self).wf(),
            symbol_inserted(*final(self), *old(self), symbol),
            outer_scopes_kept(*final(self), *old(self)),
    {
        let n = self.symbols.len();
        if n == 0 {
            return;
        }
        let ghost nm = symbol.name_of();
        let mut scope = match self.symbols.pop() {
            Some(s) => s,
            None => Vec::new(),
        };
        let ghost old_scope = scope@;
        assert(old_scope == old(self).symbols@[n - 1]@);
        assert(names_distinct(old_scope));
        let name = symbol.name_clone();
        match find_entry(&scope, name.as_str()) {
            Some(i) => {
                let (k, mut set) = scope.remove(i);
                let ghost old_set = set@;
                set.push(symbol);
                scope.insert(i, (k, set));
                proof {
                    assert(scope@ =~= old_scope.update(i as int, (scope@[i as int].0, scope@[i as int].1)));
                    assert forall|a: int, b: int| 0 <= a < b < scope@.len() implies scope@[a].0@ != scope@[b].0@ by {
                        assert(scope@[a].0@ == old_scope[a].0@);
                        assert(scope@[b].0@ == old_scope[b].0@);
                    }
                    lemma_entry_index(old_scope, nm, i as int);
                    lemma_entry_index(scope@, nm, i as int);
                    assert(old_set == old_scope[i as int].1@);
                    assert forall|other: Seq<char>| #![trigger declared(scope@, other)] #![trigger scope_has(scope@, other)]
                        other != nm implies declared(scope@, other) == declared(old_scope, other)
                        && scope_has(scope@, other) == scope_has(old_scope, other) by {
                        if scope_has(old_scope, other) {
                            let j = choose|j: int| 0 <= j < old_scope.len() && old_scope[j].0@ == other;
                            lemma_entry_index(old_scope, other, j);
                            assert(scope@[j].0@ == other);
                            lemma_entry_index(scope@, other, j);
                        } else {
                            assert(!scope_has(scope@, other)) by {
                                if scope_has(scope@, other) {
                                    let j = choose|j: int| 0 <= j < scope@.len() && scope@[j].0@ == other;
                                    assert(old_scope[j].0@ == other);
                                }
                            }
                        }
                    }
                }
            },
            None => {
                let mut set: Vec<Symbol> = Vec::new();
                set.push(symbol);
                scope.push((name, set));
                proof {
                    let m = old_scope.len() as int;
                    assert forall|a: int, b: int| 0 <= a < b < scope@.len() implies scope@[a].0@ != scope@[b].0@ by {
                        if b == m {
                            assert(scope@[a] == old_scope[a]);
                        } else {
                            assert(scope@[a] == old_scope[a]);
                            assert(scope@[b] == old_scope[b]);
                        }
                    }
                    lemma_entry_index(scope@, nm, m);
                    assert(declared(old_scope, nm) =~= Seq::<Symbol>::empty());
                    assert(declared(scope@, nm) =~= Seq::<Symbol>::empty().push(scope@[m].1@[0]));
                    assert forall|other: Seq<char>| #![trigger declared(scope@, other)] #![trigger scope_has(scope@, other)]
                        other != nm implies declared(scope@, other) == declared(old_scope, other)
                        && scope_has(scope@, other) == scope_has(old_scope, other) by {
                        if scope_has(old_scope, other) {
                            let j = choose|j: int| 0 <= j < old_scope.len() && old_scope[j].0@ == other;
                            lemma_entry_index(old_scope, other, j);
                            assert(scope@[j] == old_scope[j]);
                            lemma_entry_index(scope@, other, j);
                        } else {
                            assert(!scope_has(scope@, other)) by {
                                if scope_has(scope@, other) {
                                    let j = choose|j: int| 0 <= j < scope@.len() && scope@[j].0@ == other;
                                    if j < m { assert(old_scope[j].0@ == other); }
                                }
                            }
                        }
                    }
                }
            },
        }
        let ghost fin = scope@;
        proof {
            assert forall|other: Seq<char>| other != nm implies #[trigger] declared(fin, other) == declared(old_scope, other) by {
                assert(declared(fin, other) == declared(old_scope, other) && scope_has(fin, other) == scope_has(old_scope, other));
            }
            assert forall|other: Seq<char>| other != nm implies #[trigger] scope_has(fin, other) == scope_has(old_scope, other) by {
                assert(declared(fin, other) == declared(old_scope, other) && scope_has(fin, other) == scope_has(old_scope, other));
            }
        }
        self.symbols.push(scope);
        assert(self.symbols@[n - 1]@ == fin);
        proof {
            assert(self.symbols@.subrange(0, n - 1) =~= old(self).symbols@.subrange(0, n - 1));
            assert forall|s: int| 0 <= s < self.symbols@.len() implies names_distinct(#[trigger] self.symbols@[s]@) by {
                if s < n - 1 {
                    assert(self.symbols@[s] == old(self).symbols@[s]);
                }
            }
            assert(scope_has(self.symbols@[n - 1]@, nm)) by {
                let i = entry_index(self.symbols@[n - 1]@, nm).unwrap();
            }
        }
    }

    /// The overload set of `name` in the innermost scope that declares it.
    pub fn lookup_symbol(&self, name: &str) -> (r: Option<&Vec<Symbol>>)
        requires
            self.wf(),
        ensures
            match innermost(self.symbols@, name@) {
                Some(s) => r matches Some(v) && v@ == declared(self.symbols@[s]@, name@),
                None => r is None,
            },
    {
        let mut s = self.symbols.len();
        assert(self.symbols@.subrange(0, s as int) =~= self.symbols@);
        while s > 0
            invariant
                s <= self.symbols@.len(),
                self.wf(),
                innermost(self.symbols@, name@) == innermost(self.symbols@.subrange(0, s as int), name@),
            decreases s,
        {
            let ghost pre = self.symbols@.subrange(0, s as int);
            assert(pre.drop_last() =~= self.symbols@.subrange(0, s as int - 1));
            assert(pre.last() == self.symbols@[s as int - 1]);
            match find_entry(&self.symbols[s - 1], name) {
                Some(i) => {
                    proof {
                        assert(names_distinct(self.symbols@[s as int - 1]@));
                        lemma_entry_index(self.symbols@[s as int - 1]@, name@, i as int);
                    }
                    return Some(&self.symbols[s - 1][i].1);
                },
                None => {},
            }
            s -= 1;
        }
        None
    }

    /// The overload set of `name` in the innermost scope that declares it, to change
    /// in place.
    pub fn lookup_symbol_mut(&mut self, name: &str) -> (r: Option<&mut Vec<Symbol>>)
        requires
            old(self).wf(),
        ensures
            final(self).diagnostics == old(self).diagnostics,
            match innermost(old(self).symbols@, name@) {
                Some(s) => {
                    &&& r is Some
                    &&& (*r->0)@ == declared(old(self).symbols@[s]@, name@)
                    &&& entry_index(old(self).symbols@[s]@, name@) matches Some(i)
                        && final(self).symbols@[s]@ == old(self).symbols@[s]@.update(i, (old(self).symbols@[s]@[i].0, *final(r->0)))
                    &&& final(self).symbols@.len() == old(self).symbols@.len()
                    &&& forall|t: int| 0 <= t < old(self).symbols@.len() && t != s
                        ==> #[trigger] final(self).symbols@[t] == old(self).symbols@[t]
                },
                None => r is None && *final(self) == *old(self),
            },
    {
        let mut s = self.symbols.len();
        assert(self.symbols@.subrange(0, s as int) =~= self.symbols@);
        while s > 0
            invariant
                s <= self.symbols@.len(),
                self.wf(),
                *self == *old(self),
                innermost(self.symbols@, name@) == innermost(self.symbols@.subrange(0, s as int), name@),
            decreases s,
        {
            let ghost pre = self.symbols@.subrange(0, s as int);
            assert(pre.drop_last() =~= self.symbols@.subrange(0, s as int - 1));
            assert(pre.last() == self.symbols@[s as int - 1]);
            match find_entry(&self.symbols[s - 1], name) {
                Some(i) => {
                    proof {
                        assert(names_distinct(self.symbols@[s as int - 1]@));
                        lemma_entry_index(self.symbols@[s as int - 1]@, name@, i as int);
                    }
                    return Some(&mut self.symbols[s - 1][i].1);
                },
                None => {},
            }
            s -= 1;
        }
        None
    }

    /// Removes `name` from the innermost scope and returns its overload set.
    pub fn remove_symbol(&mut self, name: &str) -> (r: Option<Vec<Symbol>>)
        requires
            old(self).wf(),
        ensures
            final(self).wf(),
            final(self).symbols@.len() == old(self).symbols@.len(),
            outer_scopes_kept(*final(self), *old(self)),
            old(self).symbols@.len() > 0 ==> {
                let n = old(self).symbols@.len() as int;
                &&& final(self).symbols@.subrange(0, n - 1) == old(self).symbols@.subrange(0, n - 1)
                &&& !scope_has(final(self).symbols@[n - 1]@, name@)
                &&& forall|other: Seq<char>| other != name@
                    ==> #[trigger] declared(final(self).symbols@[n - 1]@, other) == declared(old(self).symbols@[n - 1]@, other)
                &&& forall|other: Seq<char>| other != name@
                    ==> #[trigger] scope_has(final(self).symbols@[n - 1]@, other) == scope_has(old(self).symbols@[n - 1]@, other)
                &&& match r {
                    Some(v) => scope_has(old(self).symbols@[n - 1]@, name@) && v@ == declared(old(self).symbols@[n - 1]@, name@),
                    None => !scope_has(old(self).symbols@[n - 1]@, name@),
                }
            },
            old(self).symbols@.len() == 0 ==> r is None,
    {
        let n = self.symbols.len();
        if n == 0 {
            return None;
        }
        let mut scope = match self.symbols.pop() {
            Some(s) => s,
            None => Vec::new(),
        };
        let ghost old_scope = scope@;
        assert(old_scope == old(self).symbols@[n - 1]@);
        let r = match find_entry(&scope, name) {
            Some(i) => {
                proof { lemma_entry_index(old_scope, name@, i as int); }
                let (_, set) = scope.remove(i);
                proof {
                    assert forall|a: int, b: int| 0 <= a < b < scope@.len() implies scope@[a].0@ != scope@[b].0@ by {
                        let a0 = if a < i { a } else { a + 1 };
                        let b0 = if b < i { b } else { b + 1 };
                        assert(scope@[a] == old_scope[a0]);
                        assert(scope@[b] == old_scope[b0]);
                    }
                    assert(!scope_has(scope@, name@)) by {
                        if scope_has(scope@, name@) {
                            let j = choose|j: int| 0 <= j < scope@.len() && scope@[j].0@ == name@;
                            let j0 = if j < i { j } else { j + 1 };
                            assert(scope@[j] == old_scope[j0]);
                            if j0 < i { assert(old_scope[j0].0@ != old_scope[i as int].0@); }
                            else { assert(old_scope[i as int].0@ != old_scope[j0].0@); }
                        }
                    }
                    assert forall|other: Seq<char>| #![trigger declared(scope@, other)] #![trigger scope_has(scope@, other)]
                        other != name@ implies declared(scope@, other) == declared(old_scope, other)
                        && scope_has(scope@, other) == scope_has(old_scope, other) by {
                        if scope_has(old_scope, other) {
                            let j0 = choose|j: int| 0 <= j < old_scope.len() && old_scope[j].0@ == other;
                            assert(j0 != i);
                            let j = if j0 < i { j0 } else { j0 - 1 };
                            assert(scope@[j] == old_scope[j0]);
                            lemma_entry_index(old_scope, other, j0);
                            lemma_entry_index(scope@, other, j);
                        } else {
                            assert(!scope_has(scope@, other)) by {
                                if scope_has(scope@, other) {
                                    let j = choose|j: int| 0 <= j < scope@.len() && scope@[j].0@ == other;
                                    let j0 = if j < i { j } else { j + 1 };
                                    assert(scope@[j] == old_scope[j0]);
                                }
                            }
                        }
                    }
                }
                Some(set)
            },
            None => None,
        };
        let ghost fin = scope@;
        proof {
            assert forall|other: Seq<char>| other != name@ implies #[trigger] declared(fin, other) == declared(old_scope, other) by {
                assert(declared(fin, other) == declared(old_scope, other) && scope_has(fin, other) == scope_has(old_scope, other));
            }
            assert forall|other: Seq<char>| other != name@ implies #[trigger] scope_has(fin, other) == scope_has(old_scope, other) by {
                assert(declared(fin, other) == declared(old_scope, other) && scope_has(fin, other) == scope_has(old_scope, other));
            }
        }
        self.symbols.push(scope);
        assert(self.symbols@[n - 1]@ == fin);
        proof {
            assert(self.symbols@.subrange(0, n - 1) =~= old(self).symbols@.subrange(0, n - 1));
            assert forall|s: int| 0 <= s < self.symbols@.len() implies names_distinct(#[trigger] self.symbols@[s]@) by {
                if s < n - 1 {
                    assert(self.symbols@[s] == old(self).symbols@[s]);
                }
            }
        }
        r
    }

    /// Whether some scope declares `name`.
    pub fn symbol_exists(&self, name: &str) -> (r: bool)
        requires
            self.wf(),
        ensures
            r == (innermost(self.symbols@, name@) is Some),
    {
        self.lookup_symbol(name).is_some()
    }

    /// Whether the innermost scope declares `name`.
    pub fn symbol_exists_in_current_scope(&self, name: &str) -> (r: bool)
        ensures
            r == (self.symbols@.len() > 0 && scope_has(self.symbols@.last()@, name@)),
    {
        if self.symbols.len() == 0 {
            return false;
        }
        find_entry(&self.symbols[self.symbols.len() - 1], name).is_some()
    }

    /// Whether the global (outermost) scope declares `name`.
    pub fn symbol_exists_in_global_scope(&self, name: &str) -> (r: bool)
        ensures
            r == (self.symbols@.len() > 0 && scope_has(self.symbols@[0]@, name@)),
    {
        if self.symbols.len() == 0 {
            return false;
        }
        find_entry(&self.symbols[0], name).is_some()
    }

    /// Every declaration whose inferred kind is `kind`, scope after scope.
    pub fn collect_symbols_with_kind(&self, kind: Kind) -> (r: Vec<&Symbol>)
        ensures
            r@.map_values(|s: &Symbol| *s) == all_symbols(self.symbols@).filter(|s: Symbol| has_kind(s, kind)),
    {
        let ghost keep = |s: Symbol| has_kind(s, kind);
        let mut out: Vec<&Symbol> = Vec::new();
        let mut s: usize = 0;
        assert(self.symbols@.subrange(0, 0) =~= Seq::<Vec<(String, Vec<Symbol>)>>::empty());
        assert(out@.map_values(|x: &Symbol| *x) =~= all_symbols(self.symbols@.subrange(0, 0)).filter(keep)) by {
            reveal(Seq::filter);
        }
        while s < self.symbols.len()
            invariant
                s <= self.symbols@.len(),
                keep == (|x: Symbol| has_kind(x, kind)),
                out@.map_values(|x: &Symbol| *x) == all_symbols(self.symbols@.subrange(0, s as int)).filter(keep),
            decreases self.symbols@.len() - s,
        {
            let scope = &self.symbols[s];
            let ghost base = all_symbols(self.symbols@.subrange(0, s as int));
            let mut e: usize = 0;
            assert(scope@.subrange(0, 0) =~= Seq::<(String, Vec<Symbol>)>::empty());
            assert(base + scope_symbols(scope@.subrange(0, 0)) =~= base);
            while e < scope.len()
                invariant
                    e <= scope@.len(),
                    keep == (|x: Symbol| has_kind(x, kind)),
                    out@.map_values(|x: &Symbol| *x) == (base + scope_symbols(scope@.subrange(0, e as int))).filter(keep),
                decreases scope@.len() - e,
            {
                let set = &scope[e].1;
                let ghost before = base + scope_symbols(scope@.subrange(0, e as int));
                let mut k: usize = 0;
                assert(before + set@.subrange(0, 0) =~= before);
                while k < set.len()
                    invariant
                        k <= set@.len(),
                        keep == (|x: Symbol| has_kind(x, kind)),
                        out@.map_values(|x: &Symbol| *x) == (before + set@.subrange(0, k as int)).filter(keep),
                    decreases set@.len() - k,
                {
                    let sym = &set[k];
                    assert((before + set@.subrange(0, k as int + 1)).drop_last() =~= before + set@.subrange(0, k as int));
                    assert((before + set@.subrange(0, k as int + 1)).last() == set@[k as int]);
                    proof { reveal(Seq::filter); }
                    let matches_kind = match &sym.inferred_type() {
                        Some(t) => t.kind == kind,
                        None => false,
                    };
                    if matches_kind {
                        out.push(sym);
                    }
                    assert(out@.map_values(|x: &Symbol| *x) =~= (before + set@.subrange(0, k as int + 1)).filter(keep));
                    k += 1;
                }
                assert(set@.subrange(0, k as int) =~= set@);
                assert(scope@.subrange(0, e as int + 1).drop_last() =~= scope@.subrange(0, e as int));
                assert(base + scope_symbols(scope@.subrange(0, e as int + 1)) =~= before + set@);
                e += 1;
            }
            assert(scope@.subrange(0, e as int) =~= scope@);
            assert(self.symbols@.subrange(0, s as int + 1).drop_last() =~= self.symbols@.subrange(0, s as int));
            s += 1;
        }
        assert(self.symbols@.subrange(0, s as int) =~= self.symbols@);
        out
    }

    /// The innermost scope, if any.
    pub fn current_scope(&self) -> (r: Option<&Vec<(String, Vec<Symbol>)>>)
        ensures
            match r {
                Some(sc) => self.symbols@.len() > 0 && *sc == self.symbols@.last(),
                None => self.symbols@.len() == 0,
            },
    {
        self.symbols.last()
    }

    /// Whether only the global scope is open.
    pub fn is_global_scope(&self) -> (r: bool)
        ensures
            r == (self.symbols@.len() == 1),
    {
        self.symbols.len() == 1
    }

    /// The global scope.
    pub fn global_scope(&self) -> (r: &Vec<(String, Vec<Symbol>)>)
        requires
            self.symbols@.len() > 0,
        ensures
            *r == self.symbols@[0],
    {
        &self.symbols[0]
    }

    /// The global scope, to change in place.
    pub fn global_scope_mut(&mut self) -> (r: &mut Vec<(String, Vec<Symbol>)>)
        requires
            old(self).symbols@.len() > 0,
        ensures
            *r == old(self).symbols@[0],
            final(self).symbols@ == old(self).symbols@.update(0, *final(r)),
            final(self).diagnostics == old(self).diagnostics,
    {
        &mut self.symbols[0]
    }

    /// The innermost scope, if any, to change in place.
    pub fn current_scope_mut(&mut self) -> (r: Option<&mut Vec<(String, Vec<Symbol>)>>)
        ensures
            old(self).symbols@.len() == 0 ==> r is None && *final(self) == *old(self),
            old(self).symbols@.len() > 0 ==> r is Some
                && *r->0 == old(self).symbols@.last()
                && final(self).symbols@ == old(self).symbols@.update(old(self).symbols@.len() - 1, *final(r->0))
                && final(self).diagnostics == old(self).diagnostics,
    {
        let n = self.symbols.len();
        if n == 0 {
            None
        } else {
            Some(&mut self.symbols[n - 1])
        }
    }

    /// Drops every scope and opens an empty global one.
    pub fn clear(&mut self)
        ensures
            final(self).wf(),
            final(self).symbols@.len() == 1,
            final(self).symbols@[0]@.len() == 0,
    {
        let mut symbols: Vec<Vec<(String, Vec<Symbol>)>> = Vec::new();
        symbols.push(Vec::new());
        self.symbols = symbols;
    }

    /// Hands out the diagnostics collected so far and forgets them.
    pub fn take_diagnostics(&mut self) -> (r: Vec<SemanticError>)
        ensures
            r@ == old(self).diagnostics@,
            final(self).diagnostics@.len() == 0,
            final(self).symbols == old(self).symbols,
    {
        let mut d: Vec<SemanticError> = Vec::new();
        std::mem::swap(&mut d, &mut self.diagnostics);
        d
    }
}

/// Leaving a scope just entered gives back the table as it was.
pub proof fn lemma_enter_exit(s0: Seq<Vec<(String, Vec<Symbol>)>>, s1: Seq<Vec<(String, Vec<Symbol>)>>, s2: Seq<Vec<(String, Vec<Symbol>)>>)
    requires
        s1.len() == s0.len() + 1,
        s1.subrange(0, s0.len() as int) == s0,
        s2 == s1.drop_last(),
    ensures
        s2 == s0,
{
    assert(s2 =~= s0);
}

/// A declaration in an inner scope shadows the outer ones: lookup finds the
/// innermost scope that declares the name.
pub proof fn lemma_inner_shadows(scopes: Seq<Vec<(String, Vec<Symbol>)>>, name: Seq<char>)
    requires
        scopes.len() > 0,
        scope_has(scopes.last()@, name),
    ensures
        innermost(scopes, name) == Some(scopes.len() - 1),
{
}

} // verus!
