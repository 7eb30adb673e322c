//! The analysis of a script's top-level statements: workspaces, projects and stages.
use vstd::prelude::*;
use crate::ast::kind::{AstNodeKind, kind_name};
use crate::ast::node::AstNode;
use crate::error::{Level, MainstageErrorExt};
use crate::location::{Location, Span, same_opt_location, same_opt_span, dup_opt_location, dup_opt_span};
use crate::analyzers::semantic::err::SemanticError;
use crate::analyzers::semantic::symbol::{Symbol, SymbolKind, SymbolScope};
use crate::analyzers::semantic::table::{SymbolTable, declared};
use crate::text::push_str;

verus! {

/// What a diagnostic says: its message, its issuer, and the place of the node it is about.
pub type Finding = (Seq<char>, Seq<char>, Option<Location>, Option<Span>);

/// A finding about node `n`.
pub open spec fn finding(message: Seq<char>, issuer: Seq<char>, n: AstNode) -> Finding {
    (message, issuer, n.location, n.span)
}

/// The diagnostic `e` is an error that reports the finding `f`.
pub open spec fn reports(e: SemanticError, f: Finding) -> bool {
    &&& e.level_of() == Level::Error
    &&& e.message_of() == f.0
    &&& e.issuer_of() == f.1
    &&& same_opt_location(e.location_of(), f.2)
    &&& same_opt_span(e.span_of(), f.3)
}

/// A block without statements.
pub open spec fn is_empty_block(n: AstNode) -> bool {
    n.kind matches AstNodeKind::Block { statements } && statements@.len() == 0
}

/// The finding of an empty body.
pub open spec fn empty_block_finding(n: AstNode) -> Finding {
    finding("Block cannot be empty."@, "mainstage.analyzers.semantic.stmt.check_for_empty_block"@, n)
}

/// The finding of a body that the node analysis does not take (it takes none yet).
pub open spec fn node_finding(n: AstNode) -> Finding {
    finding(
        "Unsupported node kind for analyze_node: "@ + kind_name(n.kind),
        "mainstage.analyzers.semantic.node.analyze_node"@,
        n,
    )
}

/// `i` is the first index of `s` whose node is not an identifier.
pub open spec fn first_non_identifier_at(s: Seq<AstNode>, i: int) -> bool {
    &&& 0 <= i < s.len()
    &&& !(s[i].kind is Identifier)
    &&& forall|j: int| 0 <= j < i ==> #[trigger] s[j].kind is Identifier
}

/// The finding of a parameter list, if it is not a list of identifiers.
pub open spec fn parameters_finding(a: AstNode) -> Option<Finding> {
    match a.kind {
        AstNodeKind::Arguments { args } => {
            if exists|i: int| first_non_identifier_at(args@, i) {
                let i = choose|i: int| first_non_identifier_at(args@, i);
                Some(finding("Expected Parameter node."@, "mainstage.analyzers.semantic.stmt.analyze_parameters"@, args@[i]))
            } else {
                None
            }
        },
        _ => Some(finding("Expected Parameters node."@, "mainstage.analyzers.semantic.stmt.analyze_parameters"@, a)),
    }
}

/// The finding of a stage's parameters, if it has a bad parameter list.
pub open spec fn stage_parameters_finding(args: Option<Box<AstNode>>) -> Option<Finding> {
    match args {
        Some(a) => parameters_finding(*a),
        None => None,
    }
}

/// What the analysis of a top-level statement reports; `None` when it passes.
pub open spec fn statement_finding(n: AstNode) -> Option<Finding> {
    match n.kind {
        AstNodeKind::Workspace { body, .. } | AstNodeKind::Project { body, .. } => {
            if is_empty_block(*body) { Some(empty_block_finding(*body)) } else { Some(node_finding(*body)) }
        },
        AstNodeKind::Stage { args, body, .. } => {
            if is_empty_block(*body) {
                Some(empty_block_finding(*body))
            } else if stage_parameters_finding(args) is Some {
                stage_parameters_finding(args)
            } else {
                Some(node_finding(*body))
            }
        },
        AstNodeKind::Null => None,
        _ => Some(finding(
            "Unsupported statement type in script body: "@ + kind_name(n.kind)
                + "\nSupport types are objects such as Workspace, Project, and Stage."@,
            "mainstage.analyzers.semantic.stmt.analyze_statement"@,
            n,
        )),
    }
}

/// The name a statement declares, with the kind of its symbol, before its analysis
/// stops: a container whose body is not empty (and, for a stage, whose parameters
/// are identifiers).
pub open spec fn statement_declares(n: AstNode) -> Option<(Seq<char>, SymbolKind)> {
    match n.kind {
        AstNodeKind::Workspace { name, body } | AstNodeKind::Project { name, body } => {
            if is_empty_block(*body) { None } else { Some((name@, SymbolKind::Object)) }
        },
        AstNodeKind::Stage { name, args, body } => {
            if is_empty_block(*body) || stage_parameters_finding(args) is Some {
                None
            } else {
                Some((name@, SymbolKind::Function))
            }
        },
        _ => None,
    }
}

/// How the scopes change when a statement declares `d`: nothing, or the name is
/// declared once more in the innermost scope and a new scope is opened after it.
pub open spec fn table_effect(
    before: Seq<Vec<(String, Vec<Symbol>)>>,
    after: Seq<Vec<(String, Vec<Symbol>)>>,
    d: Option<(Seq<char>, SymbolKind)>,
) -> bool {
    match d {
        None => after == before,
        Some((name, k)) => {
            let n = before.len() as int;
            &&& n == 0 ==> after.len() == 1
            &&& n > 0 ==> {
                &&& after.len() == n + 1
                &&& after.subrange(0, n - 1) == before.subrange(0, n - 1)
                &&& declared(after[n - 1]@, name).drop_last() == declared(before[n - 1]@, name)
                &&& declared(after[n - 1]@, name).len() == declared(before[n - 1]@, name).len() + 1
                &&& declared(after[n - 1]@, name).last().name_of() == name
                &&& declared(after[n - 1]@, name).last().kind_of() == k
                &&& forall|other: Seq<char>| other != name
                    ==> #[trigger] declared(after[n - 1]@, other) == declared(before[n - 1]@, other)
            }
            &&& k == SymbolKind::Object ==> after.last()@.len() == 0
        },
    }
}

/// `i` is the first statement of `s` that is not `Null`.
pub open spec fn first_statement_at(s: Seq<AstNode>, i: int) -> bool {
    &&& 0 <= i < s.len()
    &&& !(s[i].kind is Null)
    &&& forall|j: int| 0 <= j < i ==> #[trigger] s[j].kind is Null
}

/// The first statement of a script that is not `Null`.
pub open spec fn first_statement(root: AstNode) -> Option<AstNode> {
    match root.kind {
        AstNodeKind::Script { body } => {
            if exists|i: int| first_statement_at(body@, i) {
                Some(body@[choose|i: int| first_statement_at(body@, i)])
            } else {
                None
            }
        },
        _ => None,
    }
}

/// What the analysis of a script reports: the finding of its first statement that
/// is not `Null` (every other statement is refused), or that the root is no script.
pub open spec fn script_finding(root: AstNode) -> Option<Finding> {
    match root.kind {
        AstNodeKind::Script { .. } => match first_statement(root) {
            Some(st) => statement_finding(st),
            None => None,
        },
        _ => Some(finding("Expected a Script node."@, "mainstage.analyzers.semantic.stmt.analyze_script_statements"@, root)),
    }
}

/// What the analysis of a script declares before it stops.
pub open spec fn script_declares(root: AstNode) -> Option<(Seq<char>, SymbolKind)> {
    match first_statement(root) {
        Some(st) => statement_declares(st),
        None => None,
    }
}

proof fn lemma_first_non_identifier(s: Seq<AstNode>, i: int)
    requires
        first_non_identifier_at(s, i),
    ensures
        (choose|c: int| first_non_identifier_at(s, c)) == i,
{
    let c = choose|c: int| first_non_identifier_at(s, c);
    assert(first_non_identifier_at(s, c));
    if c < i { assert(s[c].kind is Identifier); }
    if c > i { assert(s[i].kind is Identifier); }
}

proof fn lemma_first_statement(s: Seq<AstNode>, i: int)
    requires
        first_statement_at(s, i),
    ensures
        (choose|c: int| first_statement_at(s, c)) == i,
{
    let c = choose|c: int| first_statement_at(s, c);
    assert(first_statement_at(s, c));
    if c < i { assert(s[c].kind is Null); }
    if c > i { assert(s[i].kind is Null); }
}

fn error_at(message: String, issuer: &str, n: &AstNode) -> (r: SemanticError)
    ensures
        reports(r, finding(message@, issuer@, *n)),
{
    SemanticError::with(Level::Error, message, String::from_str(issuer), dup_opt_location(&n.location), dup_opt_span(&n.span))
}

/// Refuses a block without statements.
fn check_for_empty_block(block_node: &AstNode) -> (r: Result<(), SemanticError>)
    ensures
        match r {
            Ok(()) => !is_empty_block(*block_node),
            Err(e) => is_empty_block(*block_node) && reports(e, empty_block_finding(*block_node)),
        },
{
    if let AstNodeKind::Block { statements } = &block_node.kind {
        if statements.len() == 0 {
            return Err(error_at(
                String::from_str("Block cannot be empty."),
                "mainstage.analyzers.semantic.stmt.check_for_empty_block",
                block_node,
            ));
        }
    }
    Ok(())
}

/// Analyzes a node of a body; no kind of node is taken yet, so every node is refused.
fn analyze_node(node: &AstNode) -> (r: Result<(), SemanticError>)
    ensures
        r matches Err(e) && reports(e, node_finding(*node)),
{
    let mut message = String::from_str("Unsupported node kind for analyze_node: ");
    let k = node.kind.to_string();
    push_str(&mut message, k.as_str());
    Err(error_at(message, "mainstage.analyzers.semantic.node.analyze_node", node))
}

/// The parameter symbols of a stage: one local variable per identifier.
fn analyze_parameters(args: &AstNode) -> (r: Result<Vec<Symbol>, SemanticError>)
    ensures
        match r {
            Ok(v) => parameters_finding(*args) is None && (args.kind matches AstNodeKind::Arguments { args: ps }
                && v@.len() == ps@.len()
                && forall|i: int| 0 <= i < v@.len() ==> (ps@[i].kind matches AstNodeKind::Identifier { name }
                    && (#[trigger] v@[i]).name_of() == name@ && v@[i].kind_of() == SymbolKind::Variable
                    && v@[i].scope_of() == SymbolScope::Local)),
            Err(e) => parameters_finding(*args) matches Some(f) && reports(e, f),
        },
{
    let mut params_symbols: Vec<Symbol> = Vec::new();
    match &args.kind {
        AstNodeKind::Arguments { args: ps } => {
            let mut i: usize = 0;
            while i < ps.len()
                invariant
                    args.kind == (AstNodeKind::Arguments { args: *ps }),
                    i <= ps@.len(),
                    params_symbols@.len() == i,
                    forall|j: int| 0 <= j < i ==> #[trigger] ps@[j].kind is Identifier,
                    forall|j: int| 0 <= j < i ==> (ps@[j].kind matches AstNodeKind::Identifier { name }
                        && (#[trigger] params_symbols@[j]).name_of() == name@
                        && params_symbols@[j].kind_of() == SymbolKind::Variable
                        && params_symbols@[j].scope_of() == SymbolScope::Local),
                decreases ps@.len() - i,
            {
                let param = &ps[i];
                match &param.kind {
                    AstNodeKind::Identifier { name } => {
                        let symbol = Symbol::new(
                            name.clone(),
                            SymbolKind::Variable,
                            None,
                            SymbolScope::Local,
                            None,
                            None,
                            dup_opt_location(&param.location),
                            dup_opt_span(&param.span),
                        );
                        params_symbols.push(symbol);
                    },
                    _ => {
                        proof {
                            assert(first_non_identifier_at(ps@, i as int));
                            lemma_first_non_identifier(ps@, i as int);
                        }
                        return Err(error_at(
                            String::from_str("Expected Parameter node."),
                            "mainstage.analyzers.semantic.stmt.analyze_parameters",
                            param,
                        ));
                    },
                }
                i += 1;
            }
            proof {
                assert forall|c: int| !first_non_identifier_at(ps@, c) by {
                    if first_non_identifier_at(ps@, c) {
                        assert(ps@[c].kind is Identifier);
                    }
                }
            }
            Ok(params_symbols)
        },
        _ => Err(error_at(
            String::from_str("Expected Parameters node."),
            "mainstage.analyzers.semantic.stmt.analyze_parameters",
            args,
        )),
    }
}

/// Declares a workspace or project named `name` in the innermost scope, opens its
/// scope and analyzes its body.
fn analyze_container(name: &String, body: &AstNode, node: &AstNode, tbl: &mut SymbolTable) -> (r: Result<(), SemanticError>)
    requires
        old(tbl).wf(),
    ensures
        final(tbl).wf(),
        final(tbl).diagnostics == old(tbl).diagnostics,
        match r {
            Ok(()) => false,
            Err(e) => if is_empty_block(*body) {
                reports(e, empty_block_finding(*body))
            } else {
                reports(e, node_finding(*body))
            },
        },
        table_effect(old(tbl).symbols@, final(tbl).symbols@,
            if is_empty_block(*body) { None } else { Some((name@, SymbolKind::Object)) }),
{
    check_for_empty_block(body)?;
    let ghost before = tbl.symbols@;
    let ghost n = before.len() as int;
    let symbol = Symbol::new_object(
        name.clone(),
        SymbolScope::Global,
        None,
        None,
        dup_opt_location(&node.location),
        dup_opt_span(&node.span),
    );
    let ghost sym = symbol;
    tbl.insert_symbol(symbol);
    let ghost mid = tbl.symbols@;
    tbl.enter_scope();
    proof {
        if n > 0 {
            assert(tbl.symbols@[n - 1] == mid[n - 1]);
            assert(tbl.symbols@.subrange(0, n - 1) =~= before.subrange(0, n - 1)) by {
                assert forall|j: int| 0 <= j < n - 1 implies tbl.symbols@[j] == before[j] by {
                    assert(tbl.symbols@[j] == mid[j]);
                    assert(mid.subrange(0, n - 1)[j] == before.subrange(0, n - 1)[j]);
                }
            }
            assert(declared(mid[n - 1]@, name@) == declared(before[n - 1]@, name@).push(sym));
            assert(declared(mid[n - 1]@, name@).drop_last() =~= declared(before[n - 1]@, name@));
        }
    }
    analyze_node(body)?;
    tbl.exit_scope();
    Ok(())
}

/// Analyzes one top-level statement: a workspace or project is declared and its
/// body analyzed in a scope of its own; a stage is declared with its parameters,
/// which are declared again in the stage's scope; `Null` is skipped; anything else
/// is refused.
fn analyze_statement(node: &AstNode, tbl: &mut SymbolTable) -> (r: Result<(), SemanticError>)
    requires
        old(tbl).wf(),
    ensures
        final(tbl).wf(),
        final(tbl).diagnostics == old(tbl).diagnostics,
        match r {
            Ok(()) => statement_finding(*node) is None,
            Err(e) => statement_finding(*node) matches Some(f) && reports(e, f),
        },
        table_effect(old(tbl).symbols@, final(tbl).symbols@, statement_declares(*node)),
{
    match &node.kind {
        AstNodeKind::Workspace { name, body } => analyze_container(name, body, node, tbl),
        AstNodeKind::Project { name, body } => analyze_container(name, body, node, tbl),
        AstNodeKind::Stage { name, args, body } => {
            check_for_empty_block(body)?;
            let params_meta = match args {
                Some(a) => analyze_parameters(a)?,
                None => Vec::new(),
            };
            let mut params_local = match args {
                Some(a) => analyze_parameters(a)?,
                None => Vec::new(),
            };
            let ghost before = tbl.symbols@;
            let ghost n = before.len() as int;
            let symbol = Symbol::new(
                name.clone(),
                SymbolKind::Function,
                None,
                SymbolScope::Global,
                Some(params_meta),
                None,
                dup_opt_location(&node.location),
                dup_opt_span(&node.span),
            );
            let ghost sym = symbol;
            tbl.insert_symbol(symbol);
            let ghost mid = tbl.symbols@;
            tbl.enter_scope();
            let ghost entered = tbl.symbols@;
            let ghost m = entered.len() as int;
            while params_local.len() > 0
                invariant
                    tbl.wf(),
                    tbl.diagnostics == old(tbl).diagnostics,
                    tbl.symbols@.len() == m,
                    m > 0,
                    tbl.symbols@.subrange(0, m - 1) == entered.subrange(0, m - 1),
                decreases params_local@.len(),
            {
                let p = params_local.remove(0);
                let ghost pre = tbl.symbols@;
                tbl.insert_symbol(p);
                assert(pre.len() == m);
                assert(tbl.symbols@.subrange(0, m - 1) == pre.subrange(0, m - 1));
            }
            proof {
                if n > 0 {
                    assert(m == n + 1);
                    assert(tbl.symbols@[n - 1] == mid[n - 1]) by {
                        assert(tbl.symbols@.subrange(0, m - 1)[n - 1] == entered.subrange(0, m - 1)[n - 1]);
                    }
                    assert(tbl.symbols@.subrange(0, n - 1) =~= before.subrange(0, n - 1)) by {
                        assert forall|j: int| 0 <= j < n - 1 implies tbl.symbols@[j] == before[j] by {
                            assert(tbl.symbols@.subrange(0, m - 1)[j] == entered.subrange(0, m - 1)[j]);
                            assert(entered[j] == mid[j]);
                            assert(mid.subrange(0, n - 1)[j] == before.subrange(0, n - 1)[j]);
                        }
                    }
                    assert(declared(mid[n - 1]@, name@) == declared(before[n - 1]@, name@).push(sym));
                    assert(declared(mid[n - 1]@, name@).drop_last() =~= declared(before[n - 1]@, name@));
                }
            }
            analyze_node(body)?;
            tbl.exit_scope();
            Ok(())
        },
        AstNodeKind::Null => Ok(()),
        _ => {
            let mut message = String::from_str("Unsupported statement type in script body: ");
            let k = node.kind.to_string();
            push_str(&mut message, k.as_str());
            push_str(&mut message, "\nSupport types are objects such as Workspace, Project, and Stage.");
            Err(error_at(message, "mainstage.analyzers.semantic.stmt.analyze_statement", node))
        },
    }
}

/// Analyzes the statements of a script in order and stops at the first refusal.
pub fn analyze_script_statements(node: &AstNode, tbl: &mut SymbolTable) -> (r: Result<(), SemanticError>)
    requires
        old(tbl).wf(),
    ensures
        final(tbl).wf(),
        final(tbl).diagnostics == old(tbl).diagnostics,
        match r {
            Ok(()) => script_finding(*node) is None,
            Err(e) => script_finding(*node) matches Some(f) && reports(e, f),
        },
        table_effect(old(tbl).symbols@, final(tbl).symbols@, script_declares(*node)),
{
    match &node.kind {
        AstNodeKind::Script { body } => {
            let mut i: usize = 0;
            while i < body.len()
                invariant
                    node.kind == (AstNodeKind::Script { body: *body }),
                    i <= body@.len(),
                    forall|j: int| 0 <= j < i ==> #[trigger] body@[j].kind is Null,
                    tbl.wf(),
                    tbl.diagnostics == old(tbl).diagnostics,
                    tbl.symbols@ == old(tbl).symbols@,
                decreases body@.len() - i,
            {
                let st = &body[i];
                let res = analyze_statement(st, tbl);
                match res {
                    Err(e) => {
                        proof {
                            assert(first_statement_at(body@, i as int));
                            lemma_first_statement(body@, i as int);
                        }
                        return Err(e);
                    },
                    Ok(()) => {},
                }
                i += 1;
            }
            proof {
                assert forall|c: int| !first_statement_at(body@, c) by {
                    if first_statement_at(body@, c) {
                        assert(body@[c].kind is Null);
                    }
                }
            }
            Ok(())
        },
        _ => {
            let r = error_at(
                String::from_str("Expected a Script node."),
                "mainstage.analyzers.semantic.stmt.analyze_script_statements",
                node,
            );
            Err(r)
        },
    }
}

} // verus!
