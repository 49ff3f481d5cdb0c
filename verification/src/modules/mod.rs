//! Modules: source units that are evaluated at most once.

use crate::collections::StrMap;
use crate::interpreter::scope::{FunctionData, Runtime, RuntimeScope};
use crate::interpreter::structs::{RuntimeValue, ScopeId};
use crate::parser::structs::{ASTNode, LayoutDeclaration, ParserFunctionData};
use crate::util::share;
use std::sync::Arc;
use vstd::prelude::*;

verus! {

/// A declaration of a layout, named by its place in the runtime's table of
/// declarations.
pub type LayoutId = usize;

/// What a module hands to its importers.
#[derive(Debug)]
pub enum ModuleExport {
    Function(FunctionData),
    Layout(LayoutId),
}

impl Clone for ModuleExport {
    fn clone(&self) -> (r: Self)
        ensures
            r == *self,
    {
        match self {
            ModuleExport::Function(f) => ModuleExport::Function(f.clone()),
            ModuleExport::Layout(l) => ModuleExport::Layout(*l),
        }
    }
}

/// A module: its statements, what it marked for export before it ran, what
/// it exports, the scope it runs in, and the value it gave once it has
/// run.
#[derive(Debug)]
pub struct Module {
    pub unmodulated_exported_functions: StrMap<ParserFunctionData>,
    pub unmodulated_exported_layouts: StrMap<LayoutDeclaration>,
    pub exports: StrMap<ModuleExport>,
    pub ast: Arc<Vec<ASTNode>>,
    pub name: String,
    /// A scope without a parent: a module sees nothing of its importers.
    pub scope: ScopeId,
    pub cached_result: Option<RuntimeValue>,
}

impl Module {
    /// A module named `name` that has not run, without statements or
    /// exports, in a new scope of `rt` that has no parent.
    pub fn new(name: String, rt: &mut Runtime) -> (m: Module)
        ensures
            m.name == name,
            m.scope == old(rt).scopes@.len(),
            m.ast@.len() == 0,
            m.cached_result is None,
            m.exports@ == Map::<Seq<char>, ModuleExport>::empty(),
            m.unmodulated_exported_functions@ == Map::<Seq<char>, ParserFunctionData>::empty(),
            m.unmodulated_exported_layouts@ == Map::<Seq<char>, LayoutDeclaration>::empty(),
            final(rt).scopes@.len() == old(rt).scopes@.len() + 1,
            final(rt).scopes@.subrange(0, m.scope as int) == old(rt).scopes@,
            final(rt).parent_of(m.scope) is None,
            final(rt).declarations == old(rt).declarations,
            final(rt).instances == old(rt).instances,
    {
        let scope = match RuntimeScope::arc_rwlock_new(rt, None) {
            Ok(scope) => scope,
            Err(_) => 0,
        };
        Module {
            exports: StrMap::new(),
            ast: Arc::new(Vec::new()),
            name,
            scope,
            cached_result: None,
            unmodulated_exported_functions: StrMap::new(),
            unmodulated_exported_layouts: StrMap::new(),
        }
    }

    pub fn set_ast(&mut self, ast: Arc<Vec<ASTNode>>)
        ensures
            final(self).ast == ast,
            final(self).same_but_ast(*old(self)),
    {
        self.ast = ast;
    }

    /// Everything but the statements is as in `other`.
    pub open spec fn same_but_ast(self, other: Module) -> bool {
        &&& self.unmodulated_exported_functions == other.unmodulated_exported_functions
        &&& self.unmodulated_exported_layouts == other.unmodulated_exported_layouts
        &&& self.exports == other.exports
        &&& self.name == other.name
        &&& self.scope == other.scope
        &&& self.cached_result == other.cached_result
    }

    pub fn exports(&self) -> (r: &StrMap<ModuleExport>)
        ensures
            *r == self.exports,
    {
        &self.exports
    }

    pub fn ast(&self) -> (r: Arc<Vec<ASTNode>>)
        ensures
            r == self.ast,
    {
        share(&self.ast)
    }

    pub fn name(&self) -> (r: String)
        ensures
            r == self.name,
    {
        self.name.clone()
    }

    /// Exports `export` under `symbol`.
    pub fn push(&mut self, symbol: String, export: ModuleExport)
        ensures
            final(self).exports@ == old(self).exports@.insert(symbol@, export),
            final(self).unmodulated_exported_functions == old(self).unmodulated_exported_functions,
            final(self).unmodulated_exported_layouts == old(self).unmodulated_exported_layouts,
            final(self).ast == old(self).ast,
            final(self).name == old(self).name,
            final(self).scope == old(self).scope,
            final(self).cached_result == old(self).cached_result,
    {
        self.exports.insert(symbol, export);
    }

    /// Marks the function `fun` for export under `symbol`.
    pub fn push_unmodulated_fn(&mut self, symbol: String, fun: ParserFunctionData)
        ensures
            final(self).unmodulated_exported_functions@
                == old(self).unmodulated_exported_functions@.insert(symbol@, fun),
            final(self).unmodulated_exported_layouts == old(self).unmodulated_exported_layouts,
            final(self).exports == old(self).exports,
            final(self).same_but_exports(*old(self)),
    {
        self.unmodulated_exported_functions.insert(symbol, fun);
    }

    /// Marks the layout `lay` for export under `symbol`.
    pub fn push_unmodulated_layout(&mut self, symbol: String, lay: LayoutDeclaration)
        ensures
            final(self).unmodulated_exported_layouts@
                == old(self).unmodulated_exported_layouts@.insert(symbol@, lay),
            final(self).unmodulated_exported_functions == old(self).unmodulated_exported_functions,
            final(self).exports == old(self).exports,
            final(self).same_but_exports(*old(self)),
    {
        self.unmodulated_exported_layouts.insert(symbol, lay);
    }

    /// The statements, the name, the scope and the result are as in
    /// `other`.
    pub open spec fn same_but_exports(self, other: Module) -> bool {
        &&& self.ast == other.ast
        &&& self.name == other.name
        &&& self.scope == other.scope
        &&& self.cached_result == other.cached_result
    }

    pub fn unmodulated_exported_functions(&self) -> (r: &StrMap<ParserFunctionData>)
        ensures
            *r == self.unmodulated_exported_functions,
    {
        &self.unmodulated_exported_functions
    }

    pub fn unmodulated_exported_layouts(&self) -> (r: &StrMap<LayoutDeclaration>)
        ensures
            *r == self.unmodulated_exported_layouts,
    {
        &self.unmodulated_exported_layouts
    }

    /// Whether the module has run.
    pub fn has_cache(&self) -> (r: bool)
        ensures
            r == self.cached_result is Some,
    {
        self.cached_result.is_some()
    }

    /// The value that the module gave when it ran.
    pub fn cached_result(&self) -> (r: Option<RuntimeValue>)
        ensures
            r == self.cached_result,
    {
        match &self.cached_result {
            Some(v) => Some(v.clone()),
            None => None,
        }
    }

    /// Keeps `result` as the value that the module gave.
    pub fn cache(&mut self, result: RuntimeValue)
        ensures
            final(self).cached_result == Some(result),
            final(self).unmodulated_exported_functions == old(self).unmodulated_exported_functions,
            final(self).unmodulated_exported_layouts == old(self).unmodulated_exported_layouts,
            final(self).exports == old(self).exports,
            final(self).ast == old(self).ast,
            final(self).name == old(self).name,
            final(self).scope == old(self).scope,
    {
        self.cached_result = Some(result);
    }

    pub fn scope(&self) -> (r: ScopeId)
        ensures
            r == self.scope,
    {
        self.scope
    }
}

/// The modules of a program, by name. The first module registered under a
/// name stays; a later one of that name is dropped without a word.
#[derive(Debug)]
pub struct ModuleStorage {
    /// The place in `modules` of the module of each name.
    pub index: StrMap<usize>,
    pub modules: Vec<Module>,
}

impl ModuleStorage {
    /// The place of the module that is registered under `name`.
    pub open spec fn place(self, name: Seq<char>) -> Option<usize> {
        if self.index@.contains_key(name) && self.index@[name] < self.modules@.len() {
            Some(self.index@[name])
        } else {
            None
        }
    }

    /// The module that is registered under `name`.
    pub open spec fn module(self, name: Seq<char>) -> Option<Module> {
        match self.place(name) {
            Some(i) => Some(self.modules@[i as int]),
            None => None,
        }
    }

    /// Every name of the index has its place in the list, and the module in
    /// that place bears the name.
    pub open spec fn wf(self) -> bool {
        forall|name: Seq<char>| #[trigger]
            self.index@.contains_key(name) ==> self.index@[name] < self.modules@.len()
                && self.modules@[self.index@[name] as int].name@ == name
    }

    pub fn new() -> (s: ModuleStorage)
        ensures
            s.wf(),
            s.modules@.len() == 0,
            forall|name: Seq<char>| s.module(name) is None,
    {
        ModuleStorage { index: StrMap::new(), modules: Vec::new() }
    }

    /// Registers `module` under its name, unless a module is registered
    /// under that name already: then nothing happens.
    pub fn push(&mut self, module: Module)
        ensures
            old(self).index@.contains_key(module.name@) ==> *final(self) == *old(self),
            !old(self).index@.contains_key(module.name@) ==> {
                &&& final(self).modules@ == old(self).modules@.push(module)
                &&& final(self).index@ == old(self).index@.insert(
                    module.name@,
                    old(self).modules@.len() as usize,
                )
            },
            old(self).module(module.name@) is Some ==> final(self).module(module.name@) == old(self).module(module.name@),
            old(self).wf() ==> final(self).wf(),
            old(self).wf() && !old(self).index@.contains_key(module.name@) ==> final(self).module(
                module.name@,
            ) == Some(module),
    {
        if !self.index.contains_key(&module.name) {
            let place = self.modules.len();
            self.index.insert(module.name.clone(), place);
            self.modules.push(module);
        }
    }

    /// The module that is registered under `name`.
    pub fn get(&self, name: &String) -> (r: Option<&Module>)
        ensures
            r matches Some(m) ==> self.module(name@) == Some(*m),
            r is None ==> self.module(name@) is None,
    {
        match self.find(name) {
            Some(i) => Some(&self.modules[i]),
            None => None,
        }
    }

    /// The place of the module that is registered under `name`.
    pub fn find(&self, name: &String) -> (r: Option<usize>)
        ensures
            r == self.place(name@),
    {
        match self.index.get(name) {
            Some(i) => if *i < self.modules.len() {
                Some(*i)
            } else {
                None
            },
            None => None,
        }
    }
}

} // verus!
