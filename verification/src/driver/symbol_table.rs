//! The symbol & scopes table
//!
//! A symbol is a function, a constant or a static variable; the symbol table
//! maps a symbol's name to its (body-less) definition.
//!
//! A scope is the part of the program where a variable is valid. Each block
//! (`{ ... }`) introduces a new scope. The scopes table maps a block's node id
//! to the variables declared in it and to its parent scope, if any.

use vstd::prelude::*;
use std::collections::HashMap;
use crate::driver::interner::Ident;
use crate::front::ast;
use crate::middle::ir;

verus! {

broadcast use vstd::std_specs::hash::group_hash_axioms;

/// A variable known to a scope
#[derive(Clone, Copy, Debug)]
pub struct Variable {
    /// front: The type of the variable
    pub ty: ast::Type,
    /// middle: The register holding the variable's value, if any
    pub reg: Option<ir::Register>,
    /// middle: The stack slot holding the variable, if any
    pub slot: Option<ir::Register>,
}

/// How a name that refers to a variable is stored
#[derive(Clone, Copy, Debug, PartialEq, Eq, Structural)]
pub enum VariableKind {
    Local,
    Static,
    Constant,
}

/// The variables declared in a block and its parent block
#[derive(Debug)]
pub struct BlockScope {
    pub vars: HashMap<usize, Variable>,
    pub parent: Option<ast::NodeId>,
}

impl BlockScope {
    pub fn new() -> (r: BlockScope)
        ensures
            r.vars@ == Map::<usize, Variable>::empty(),
            r.parent is None,
    {
        BlockScope { vars: HashMap::new(), parent: None }
    }
}

pub struct SymbolTable {
    scopes: HashMap<u32, BlockScope>,
    symbols: HashMap<usize, ast::Symbol>,
    /// The nesting depth of each scope (parents are less deep)
    depth: Ghost<Map<u32, nat>>,
}

/// What a name refers to when it is used as a variable in a scope: the first
/// variable of that name on the way up the scope chain, or else a static or
/// constant symbol
pub open spec fn is_static_or_constant(s: ast::Symbol) -> bool {
    s is Static || s is Constant
}

impl SymbolTable {
    pub closed spec fn scope_map(&self) -> Map<u32, BlockScope> {
        self.scopes@
    }

    pub closed spec fn symbol_map(&self) -> Map<usize, ast::Symbol> {
        self.symbols@
    }

    pub closed spec fn depth_of(&self, scope: u32) -> nat {
        self.depth@[scope]
    }

    /// Every parent is a registered scope that is less deep than its child
    pub closed spec fn wf(&self) -> bool {
        &&& self.depth@.dom() == self.scopes@.dom()
        &&& forall|s: u32| #[trigger] self.scopes@.contains_key(s) && self.scopes@[s].parent is Some ==> {
            let p = self.scopes@[s].parent.unwrap().0;
            &&& self.scopes@.contains_key(p)
            &&& self.depth@[p] < self.depth@[s]
        }
    }

    /// Whether a scope is registered
    pub open spec fn has_scope(&self, scope: ast::NodeId) -> bool {
        self.scope_map().contains_key(scope.0)
    }

    /// The variables of a registered scope
    pub open spec fn vars_of(&self, scope: ast::NodeId) -> Map<usize, Variable> {
        self.scope_map()[scope.0].vars@
    }

    /// The parent of a registered scope
    pub open spec fn parent_of(&self, scope: ast::NodeId) -> Option<ast::NodeId> {
        self.scope_map()[scope.0].parent
    }

    /// No scope has `scope` as its parent
    pub open spec fn childless(&self, scope: ast::NodeId) -> bool {
        forall|s: u32| #[trigger] self.scope_map().contains_key(s) ==> self.scope_map()[s].parent != Some(scope)
    }

    /// The variable a name resolves to, walking up from a scope
    pub open spec fn resolve_spec(&self, scope: ast::NodeId, name: Ident) -> Option<Variable>
        decreases self.depth_of(scope.0),
    {
        if !self.has_scope(scope) {
            None
        } else if self.vars_of(scope).contains_key(name.0) {
            Some(self.vars_of(scope)[name.0])
        } else if self.parent_of(scope) is Some && self.depth_of(self.parent_of(scope).unwrap().0) < self.depth_of(scope.0) {
            self.resolve_spec(self.parent_of(scope).unwrap(), name)
        } else {
            None
        }
    }

    pub fn new() -> (r: SymbolTable)
        ensures
            r.wf(),
            r.scope_map() == Map::<u32, BlockScope>::empty(),
            r.symbol_map() == Map::<usize, ast::Symbol>::empty(),
    {
        SymbolTable { scopes: HashMap::new(), symbols: HashMap::new(), depth: Ghost(Map::empty()) }
    }

    /// Register a new symbol; fails if a symbol with that name exists
    pub fn register_symbol(&mut self, name: Ident, symbol: ast::Symbol) -> (r: Result<(), &'static str>)
        requires
            old(self).wf(),
        ensures
            final(self).wf(),
            final(self).scope_map() == old(self).scope_map(),
            r is Err <==> old(self).symbol_map().contains_key(name.0),
            r matches Err(m) ==> m@ == "the symbol already exists"@,
            r is Err ==> final(self).symbol_map() == old(self).symbol_map(),
            r is Ok ==> final(self).symbol_map() == old(self).symbol_map().insert(name.0, symbol),
    {
        if self.symbols.contains_key(&name.0) {
            Err("the symbol already exists")
        } else {
            self.symbols.insert(name.0, symbol);
            Ok(())
        }
    }

    /// Register a new scope; fails if the block's node id is already registered
    pub fn register_scope(&mut self, scope: ast::NodeId) -> (r: Result<(), &'static str>)
        requires
            old(self).wf(),
        ensures
            final(self).wf(),
            final(self).symbol_map() == old(self).symbol_map(),
            r is Err <==> old(self).scope_map().contains_key(scope.0),
            r matches Err(m) ==> m@ == "the block's node id is not unique"@,
            r is Err ==> final(self).scope_map() == old(self).scope_map(),
            r is Ok ==> final(self).scope_map().dom() == old(self).scope_map().dom().insert(scope.0),
            r is Ok ==> final(self).vars_of(scope) == Map::<usize, Variable>::empty(),
            r is Ok ==> final(self).parent_of(scope) is None,
            r is Ok ==> final(self).childless(scope),
            r is Ok ==> forall|s: u32| s != scope.0 && #[trigger] old(self).scope_map().contains_key(s) ==>
                final(self).scope_map()[s] == old(self).scope_map()[s],
            r is Ok ==> forall|s: u32| s != scope.0 && #[trigger] old(self).scope_map().contains_key(s) ==>
                final(self).depth_of(s) == old(self).depth_of(s),
            final(self).extends(old(self)),
    {
        if self.scopes.contains_key(&scope.0) {
            Err("the block's node id is not unique")
        } else {
            self.scopes.insert(scope.0, BlockScope::new());
            proof {
                self.depth@ = self.depth@.insert(scope.0, 0);
                assert(self.depth@.dom() =~= self.scopes@.dom());
            }
            Ok(())
        }
    }

    /// Register a variable in a scope; fails if the scope already declares it
    pub fn register_variable(&mut self, scope: ast::NodeId, binding: &ast::Binding) -> (r: Result<(), &'static str>)
        requires
            old(self).wf(),
            old(self).has_scope(scope),
        ensures
            final(self).wf(),
            final(self).symbol_map() == old(self).symbol_map(),
            final(self).scope_map().dom() == old(self).scope_map().dom(),
            r is Err <==> old(self).vars_of(scope).contains_key(binding.name.node.0),
            r matches Err(m) ==> m@ == "the variable already exists"@,
            r is Err ==> final(self).scope_map() == old(self).scope_map(),
            r is Ok ==> final(self).vars_of(scope) == old(self).vars_of(scope).insert(
                binding.name.node.0, Variable { ty: binding.ty, reg: None, slot: None }),
            final(self).parent_of(scope) == old(self).parent_of(scope),
            forall|s: u32| s != scope.0 && #[trigger] old(self).scope_map().contains_key(s) ==>
                final(self).scope_map()[s] == old(self).scope_map()[s],
            forall|s: u32| #[trigger] old(self).scope_map().contains_key(s) ==>
                final(self).depth_of(s) == old(self).depth_of(s),
    {
        let key = binding.name.node.0;
        let mut bs = self.scopes.remove(&scope.0).unwrap();
        if bs.vars.contains_key(&key) {
            self.scopes.insert(scope.0, bs);
            assert(self.scopes@ =~= old(self).scopes@);
            return Err("the variable already exists");
        }
        bs.vars.insert(key, Variable { ty: binding.ty, reg: None, slot: None });
        self.scopes.insert(scope.0, bs);
        proof {
            assert forall|s: u32| #[trigger] self.scopes@.contains_key(s) && self.scopes@[s].parent is Some implies {
                let p = self.scopes@[s].parent.unwrap().0;
                &&& self.scopes@.contains_key(p)
                &&& self.depth@[p] < self.depth@[s]
            } by {
                assert(old(self).scopes@.contains_key(s));
            }
        }
        Ok(())
    }

    /// Look up a variable declared directly in a scope
    pub fn lookup_variable(&self, scope: ast::NodeId, name: &Ident) -> (r: Option<Variable>)
        requires
            self.has_scope(scope),
        ensures
            r is Some <==> self.vars_of(scope).contains_key(name.0),
            r matches Some(v) ==> v == self.vars_of(scope)[name.0],
    {
        let bs = self.scopes.get(&scope.0).unwrap();
        match bs.vars.get(&name.0) {
            Some(v) => Some(*v),
            None => None,
        }
    }

    /// Look up a symbol
    pub fn lookup_symbol(&self, name: &Ident) -> (r: Option<&ast::Symbol>)
        ensures
            r is Some <==> self.symbol_map().contains_key(name.0),
            r matches Some(s) ==> *s == self.symbol_map()[name.0],
    {
        self.symbols.get(&name.0)
    }

    /// Look up a function's argument bindings and its return type
    pub fn lookup_function(&self, name: &Ident) -> (r: Option<(Vec<ast::Node<ast::Binding>>, ast::Type)>)
        ensures
            r is Some <==> self.symbol_map().contains_key(name.0) && self.symbol_map()[name.0] is Function,
            r matches Some((b, t)) ==> self.symbol_map()[name.0] matches ast::Symbol::Function { bindings, ret_ty, .. }
                && b@ == bindings@ && t == ret_ty,
    {
        match self.symbols.get(&name.0) {
            Some(ast::Symbol::Function { bindings, ret_ty, .. }) => {
                let mut b: Vec<ast::Node<ast::Binding>> = Vec::new();
                let mut i: usize = 0;
                while i < bindings.len()
                    invariant
                        i <= bindings@.len(),
                        b@ == bindings@.subrange(0, i as int),
                    decreases bindings@.len() - i,
                {
                    b.push(bindings[i]);
                    i = i + 1;
                }
                assert(b@ =~= bindings@);
                Some((b, *ret_ty))
            },
            _ => None,
        }
    }

    /// Look up a variable: first in the scope and its parents, then among
    /// the statics and constants
    pub fn resolve_variable(&self, scope: ast::NodeId, name: &Ident) -> (r: Option<Variable>)
        requires
            self.wf(),
            self.has_scope(scope),
        ensures
            self.resolve_spec(scope, *name) is Some ==> r == self.resolve_spec(scope, *name),
            self.resolve_spec(scope, *name) is None ==> (r is Some <==> self.symbol_map().contains_key(name.0)
                && is_static_or_constant(self.symbol_map()[name.0])),
            self.resolve_spec(scope, *name) is None && r is Some ==>
                r.unwrap().reg is None && r.unwrap().slot is None
                && Some(r.unwrap().ty) == symbol_binding_type(self.symbol_map()[name.0]),
    {
        let mut cur = scope;
        loop
            invariant
                self.wf(),
                self.has_scope(cur),
                self.resolve_spec(cur, *name) == self.resolve_spec(scope, *name),
            ensures
                self.resolve_spec(scope, *name) is None,
            decreases self.depth_of(cur.0),
        {
            if let Some(var) = self.lookup_variable(cur, name) {
                return Some(var);
            }
            match self.parent_scope(cur) {
                Some(parent) => {
                    cur = parent;
                },
                None => {
                    break;
                },
            }
        }
        match self.lookup_symbol(name) {
            Some(ast::Symbol::Static { binding, .. }) => Some(Variable { ty: binding.node.ty, reg: None, slot: None }),
            Some(ast::Symbol::Constant { binding, .. }) => Some(Variable { ty: binding.node.ty, reg: None, slot: None }),
            _ => None,
        }
    }

    /// Determine how a name used as a variable is stored: a local of the
    /// scope chain, or else a static or a constant symbol
    pub fn variable_kind(&self, scope: ast::NodeId, name: &Ident) -> (r: Option<VariableKind>)
        requires
            self.wf(),
            self.has_scope(scope),
        ensures
            self.resolve_spec(scope, *name) is Some ==> r == Some(VariableKind::Local),
            self.resolve_spec(scope, *name) is None ==> (
                r == (if self.symbol_map().contains_key(name.0) && self.symbol_map()[name.0] is Static {
                    Some(VariableKind::Static)
                } else if self.symbol_map().contains_key(name.0) && self.symbol_map()[name.0] is Constant {
                    Some(VariableKind::Constant)
                } else {
                    None::<VariableKind>
                })),
    {
        let mut cur = scope;
        loop
            invariant
                self.wf(),
                self.has_scope(cur),
                self.resolve_spec(cur, *name) == self.resolve_spec(scope, *name),
            ensures
                self.resolve_spec(scope, *name) is None,
            decreases self.depth_of(cur.0),
        {
            if let Some(_) = self.lookup_variable(cur, name) {
                return Some(VariableKind::Local);
            }
            match self.parent_scope(cur) {
                Some(parent) => {
                    cur = parent;
                },
                None => {
                    break;
                },
            }
        }
        match self.lookup_symbol(name) {
            Some(ast::Symbol::Static { .. }) => Some(VariableKind::Static),
            Some(ast::Symbol::Constant { .. }) => Some(VariableKind::Constant),
            _ => None,
        }
    }

    /// Set the parent of a fresh scope
    pub fn set_parent_scope(&mut self, scope: ast::NodeId, parent: ast::NodeId)
        requires
            old(self).wf(),
            old(self).has_scope(scope),
            old(self).has_scope(parent),
            old(self).childless(scope),
            scope != parent,
        ensures
            final(self).wf(),
            final(self).symbol_map() == old(self).symbol_map(),
            final(self).scope_map().dom() == old(self).scope_map().dom(),
            final(self).vars_of(scope) == old(self).vars_of(scope),
            final(self).parent_of(scope) == Some(parent),
            forall|s: u32| s != scope.0 && #[trigger] old(self).scope_map().contains_key(s) ==>
                final(self).scope_map()[s] == old(self).scope_map()[s],
            forall|s: u32| s != scope.0 && #[trigger] old(self).scope_map().contains_key(s) ==>
                final(self).depth_of(s) == old(self).depth_of(s),
    {
        let mut bs = self.scopes.remove(&scope.0).unwrap();
        bs.parent = Some(parent);
        self.scopes.insert(scope.0, bs);
        proof {
            let d = self.depth@[parent.0] + 1;
            self.depth@ = self.depth@.insert(scope.0, d);
            assert(self.depth@.dom() =~= self.scopes@.dom());
            assert forall|s: u32| #[trigger] self.scopes@.contains_key(s) && self.scopes@[s].parent is Some implies {
                let p = self.scopes@[s].parent.unwrap().0;
                &&& self.scopes@.contains_key(p)
                &&& self.depth@[p] < self.depth@[s]
            } by {
                assert(old(self).scopes@.contains_key(s));
                if s != scope.0 {
                    assert(old(self).scopes@[s].parent != Some(scope));
                }
            }
        }
    }

    /// Get the parent scope of a scope
    pub fn parent_scope(&self, scope: ast::NodeId) -> (r: Option<ast::NodeId>)
        requires
            self.wf(),
            self.has_scope(scope),
        ensures
            r == self.parent_of(scope),
            r matches Some(p) ==> self.has_scope(p) && self.depth_of(p.0) < self.depth_of(scope.0),
    {
        self.scopes.get(&scope.0).unwrap().parent
    }

    /// Whether a scope is registered
    pub fn contains_scope(&self, scope: ast::NodeId) -> (r: bool)
        ensures
            r == self.has_scope(scope),
    {
        self.scopes.contains_key(&scope.0)
    }

    /// `self` holds every scope of `old` unchanged (variables, parent and
    /// depth), and the same symbols
    pub open spec fn extends(&self, old: &SymbolTable) -> bool {
        &&& self.symbol_map() == old.symbol_map()
        &&& forall|k: u32| #[trigger] old.scope_map().contains_key(k) ==> {
            &&& self.scope_map().contains_key(k)
            &&& self.scope_map()[k] == old.scope_map()[k]
            &&& self.depth_of(k) == old.depth_of(k)
        }
    }

    /// The names a variable resolves to in a scope
    pub open spec fn scope_env(&self, scope: ast::NodeId) -> Set<usize> {
        Set::new(|n: usize| self.resolve_spec(scope, Ident(n)) is Some)
    }

    /// A table that extends another resolves names in the other's scopes the
    /// same way
    pub proof fn lemma_resolve_frame(&self, old: &SymbolTable, scope: ast::NodeId, name: Ident)
        requires
            old.wf(),
            self.extends(old),
            old.has_scope(scope),
        ensures
            self.resolve_spec(scope, name) == old.resolve_spec(scope, name),
        decreases old.depth_of(scope.0),
    {
        if !old.vars_of(scope).contains_key(name.0) {
            if let Some(p) = old.parent_of(scope) {
                assert(old.scopes@.contains_key(scope.0) && old.scopes@[scope.0].parent is Some);
                self.lemma_resolve_frame(old, p, name);
            }
        }
    }

    /// A table that extends another has the same variables in scope in the
    /// other's scopes
    pub proof fn lemma_env_frame(&self, old: &SymbolTable, scope: ast::NodeId)
        requires
            old.wf(),
            self.extends(old),
            old.has_scope(scope),
        ensures
            self.scope_env(scope) == old.scope_env(scope),
    {
        assert forall|n: usize| #[trigger] self.scope_env(scope).contains(n) == old.scope_env(scope).contains(n) by {
            self.lemma_resolve_frame(old, scope, Ident(n));
        }
        assert(self.scope_env(scope) =~= old.scope_env(scope));
    }

    /// Resolution in a scope after a variable was registered in it: the new
    /// name, or what resolved before
    pub proof fn lemma_resolve_after_register(&self, old: &SymbolTable, scope: ast::NodeId, key: usize, name: Ident)
        requires
            old.wf(),
            self.wf(),
            old.has_scope(scope),
            self.scope_map().dom() == old.scope_map().dom(),
            forall|s: u32| #[trigger] old.scope_map().contains_key(s) ==> self.depth_of(s) == old.depth_of(s),
            forall|s: u32| s != scope.0 && #[trigger] old.scope_map().contains_key(s) ==> self.scope_map()[s] == old.scope_map()[s],
            self.parent_of(scope) == old.parent_of(scope),
            self.vars_of(scope).dom() == old.vars_of(scope).dom().insert(key),
            forall|k: usize| k != key && #[trigger] old.vars_of(scope).contains_key(k) ==> self.vars_of(scope)[k] == old.vars_of(scope)[k],
        ensures
            (self.resolve_spec(scope, name) is Some) == (name.0 == key || old.resolve_spec(scope, name) is Some),
    {
        if name.0 != key && !old.vars_of(scope).contains_key(name.0) {
            if let Some(p) = old.parent_of(scope) {
                assert(old.scopes@.contains_key(scope.0) && old.scopes@[scope.0].parent is Some);
                self.lemma_resolve_agree_below(old, p, name, scope.0);
            }
        }
    }

    /// Two tables that differ only at scope `x` resolve names the same way in
    /// scopes less deep than `x`
    proof fn lemma_resolve_agree_below(&self, old: &SymbolTable, scope: ast::NodeId, name: Ident, x: u32)
        requires
            old.wf(),
            self.wf(),
            old.has_scope(scope),
            old.scopes@.contains_key(x),
            old.depth@[scope.0] < old.depth@[x],
            self.scope_map().dom() == old.scope_map().dom(),
            forall|s: u32| #[trigger] old.scope_map().contains_key(s) ==> self.depth_of(s) == old.depth_of(s),
            forall|s: u32| s != x && #[trigger] old.scope_map().contains_key(s) ==> self.scope_map()[s] == old.scope_map()[s],
        ensures
            self.resolve_spec(scope, name) == old.resolve_spec(scope, name),
        decreases old.depth_of(scope.0),
    {
        assert(self.scopes@[scope.0] == old.scopes@[scope.0]);
        if !old.vars_of(scope).contains_key(name.0) {
            if let Some(p) = old.parent_of(scope) {
                assert(old.scopes@.contains_key(scope.0) && old.scopes@[scope.0].parent is Some);
                self.lemma_resolve_agree_below(old, p, name, x);
            }
        }
    }

    /// Resolution in a fresh scope without variables is resolution in its parent
    pub proof fn lemma_resolve_fresh_child(&self, scope: ast::NodeId, parent: ast::NodeId, name: Ident)
        requires
            self.wf(),
            self.has_scope(scope),
            self.parent_of(scope) == Some(parent),
            self.vars_of(scope) == Map::<usize, Variable>::empty(),
        ensures
            self.resolve_spec(scope, name) == self.resolve_spec(parent, name),
    {
        assert(self.scopes@.contains_key(scope.0) && self.scopes@[scope.0].parent is Some);
    }

    /// Record the register of a variable declared in a scope
    pub fn set_register(&mut self, scope: ast::NodeId, name: &Ident, reg: ir::Register)
        requires
            old(self).wf(),
            old(self).has_scope(scope),
            old(self).vars_of(scope).contains_key(name.0),
        ensures
            final(self).wf(),
            final(self).symbol_map() == old(self).symbol_map(),
            final(self).scope_map().dom() == old(self).scope_map().dom(),
            final(self).vars_of(scope) == old(self).vars_of(scope).insert(name.0,
                Variable { reg: Some(reg), ..old(self).vars_of(scope)[name.0] }),
            final(self).parent_of(scope) == old(self).parent_of(scope),
            forall|s: u32| s != scope.0 && #[trigger] old(self).scope_map().contains_key(s) ==>
                final(self).scope_map()[s] == old(self).scope_map()[s],
    {
        let mut bs = self.scopes.remove(&scope.0).unwrap();
        let v = *bs.vars.get(&name.0).unwrap();
        bs.vars.insert(name.0, Variable { reg: Some(reg), ..v });
        self.scopes.insert(scope.0, bs);
        proof { self.lemma_wf_after_vars_update(old(self), scope); }
    }

    /// Record the stack slot of a variable declared in a scope
    pub fn set_slot(&mut self, scope: ast::NodeId, name: &Ident, slot: ir::Register)
        requires
            old(self).wf(),
            old(self).has_scope(scope),
            old(self).vars_of(scope).contains_key(name.0),
        ensures
            final(self).wf(),
            final(self).symbol_map() == old(self).symbol_map(),
            final(self).scope_map().dom() == old(self).scope_map().dom(),
            final(self).vars_of(scope) == old(self).vars_of(scope).insert(name.0,
                Variable { slot: Some(slot), ..old(self).vars_of(scope)[name.0] }),
            final(self).parent_of(scope) == old(self).parent_of(scope),
            forall|s: u32| s != scope.0 && #[trigger] old(self).scope_map().contains_key(s) ==>
                final(self).scope_map()[s] == old(self).scope_map()[s],
    {
        let mut bs = self.scopes.remove(&scope.0).unwrap();
        let v = *bs.vars.get(&name.0).unwrap();
        bs.vars.insert(name.0, Variable { slot: Some(slot), ..v });
        self.scopes.insert(scope.0, bs);
        proof { self.lemma_wf_after_vars_update(old(self), scope); }
    }

    proof fn lemma_wf_after_vars_update(&self, old_t: &SymbolTable, scope: ast::NodeId)
        requires
            old_t.wf(),
            self.depth == old_t.depth,
            self.scopes@.dom() == old_t.scopes@.dom(),
            forall|s: u32| #[trigger] old_t.scopes@.contains_key(s) ==> self.scopes@[s].parent == old_t.scopes@[s].parent,
        ensures
            self.wf(),
    {
        assert forall|s: u32| #[trigger] self.scopes@.contains_key(s) && self.scopes@[s].parent is Some implies {
            let p = self.scopes@[s].parent.unwrap().0;
            &&& self.scopes@.contains_key(p)
            &&& self.depth@[p] < self.depth@[s]
        } by {
            assert(old_t.scopes@.contains_key(s));
        }
    }
}

/// The declared type of a static or constant symbol
pub open spec fn symbol_binding_type(s: ast::Symbol) -> Option<ast::Type> {
    match s {
        ast::Symbol::Static { binding, .. } => Some(binding.node.ty),
        ast::Symbol::Constant { binding, .. } => Some(binding.node.ty),
        _ => None,
    }
}

} // verus!
