//! The semantic analyzer: a symbol table and the analysis that fills it.
use vstd::prelude::*;
use crate::ast::node::AstNode;
use crate::analyzers::semantic::err::SemanticError;
use crate::analyzers::semantic::table::SymbolTable;
use crate::analyzers::semantic::stmt::{analyze_script_statements, script_finding, script_declares, reports, table_effect};

verus! {

/// Runs the semantic analysis of a script and keeps what it learnt.
pub struct Analyzer {
    tbl: SymbolTable,
}

impl Analyzer {
    /// The analyzer's symbol table.
    pub closed spec fn table(&self) -> SymbolTable {
        self.tbl
    }

    /// An analyzer with a fresh table: one empty global scope and no diagnostics.
    pub fn new() -> (r: Self)
        ensures
            r.table().wf(),
            r.table().symbols@.len() == 1,
            r.table().symbols@[0]@.len() == 0,
            r.table().diagnostics@.len() == 0,
    {
        Analyzer { tbl: SymbolTable::new() }
    }

    /// Analyzes a script: its statements in order, stopping at the first refusal.
    pub fn analyze(&mut self, node: &AstNode) -> (r: Result<(), SemanticError>)
        requires
            old(self).table().wf(),
        ensures
            final(self).table().wf(),
            final(self).table().diagnostics == old(self).table().diagnostics,
            match r {
                Ok(()) => script_finding(*node) is None,
                Err(e) => script_finding(*node) matches Some(f) && reports(e, f),
            },
            table_effect(old(self).table().symbols@, final(self).table().symbols@, script_declares(*node)),
    {
        analyze_script_statements(node, &mut self.tbl)
    }

    /// The diagnostics collected so far; they are forgotten.
    pub fn take_diagnostics(&mut self) -> (r: Vec<SemanticError>)
        ensures
            r@ == old(self).table().diagnostics@,
            final(self).table().diagnostics@.len() == 0,
            final(self).table().symbols == old(self).table().symbols,
    {
        self.tbl.take_diagnostics()
    }

    /// The symbol table after analysis.
    pub fn get_symbol_table(&self) -> (r: &SymbolTable)
        ensures
            *r == self.table(),
    {
        &self.tbl
    }
}

} // verus!
