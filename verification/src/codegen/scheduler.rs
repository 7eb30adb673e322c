//! The scopes statements are scheduled within, and the names qualified by them.
use vstd::prelude::*;
use crate::text::push_str;

verus! {

/// A scope statements are scheduled within.
#[derive(Debug, Clone)]
pub enum ScopeKind<'a> {
    Workspace(&'a str),
    Project(&'a str),
    Stage(&'a str),
    Task(&'a str),
    Global,
    Local,
}

/// The fully qualified name of `key` in a scope: `workspace:n.key`,
/// `project:n.key`, `stage:n.key`, `task:n.key`, `global:key` or `local:key`.
pub open spec fn qualified(scope: ScopeKind, key: Seq<char>) -> Seq<char> {
    match scope {
        ScopeKind::Workspace(n) => "workspace:"@ + n@ + "."@ + key,
        ScopeKind::Project(n) => "project:"@ + n@ + "."@ + key,
        ScopeKind::Stage(n) => "stage:"@ + n@ + "."@ + key,
        ScopeKind::Task(n) => "task:"@ + n@ + "."@ + key,
        ScopeKind::Global => "global:"@ + key,
        ScopeKind::Local => "local:"@ + key,
    }
}

/// The fully qualified name of `key` in `scope`.
pub fn fq(scope: &ScopeKind, key: &str) -> (r: String)
    ensures
        r@ == qualified(*scope, key@),
{
    let mut out = String::new();
    match scope {
        ScopeKind::Workspace(n) => {
            push_str(&mut out, "workspace:");
            push_str(&mut out, n);
            push_str(&mut out, ".");
        },
        ScopeKind::Project(n) => {
            push_str(&mut out, "project:");
            push_str(&mut out, n);
            push_str(&mut out, ".");
        },
        ScopeKind::Stage(n) => {
            push_str(&mut out, "stage:");
            push_str(&mut out, n);
            push_str(&mut out, ".");
        },
        ScopeKind::Task(n) => {
            push_str(&mut out, "task:");
            push_str(&mut out, n);
            push_str(&mut out, ".");
        },
        ScopeKind::Global => {
            push_str(&mut out, "global:");
        },
        ScopeKind::Local => {
            push_str(&mut out, "local:");
        },
    }
    push_str(&mut out, key);
    assert(out@ =~= qualified(*scope, key@));
    out
}

} // verus!
