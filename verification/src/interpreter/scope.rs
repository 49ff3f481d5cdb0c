//! Scopes: the variables, functions, native bindings, loop bindings, enums,
//! layouts and imports that a stretch of program text sees.

use crate::collections::StrMap;
use crate::global::{ComplexDataType, DataType, NumType, PrimitiveDataType, ReferenceType, TypeView};
use crate::interpreter::structs::{
    ComplexRuntimeValue,
    EvaluationError,
    InstanceId,
    MoSaNativeFunction,
    Reference,
    RuntimeValue,
    ScopeId,
};
use crate::modules::{LayoutId, ModuleExport};
use crate::parser::structs::{ASTNode, FieldParserDescription, LayoutDeclaration, ParserFunctionData};
use crate::util::share;
use indexmap::IndexMap;
use std::sync::Arc;
use vstd::prelude::*;

verus! {

#[verifier::external_type_specification]
#[verifier::external_body]
#[verifier::reject_recursive_types(K)]
#[verifier::reject_recursive_types(V)]
#[verifier::reject_recursive_types(S)]
pub struct ExIndexMap<K, V, S>(IndexMap<K, V, S>);

/// The parameters of a function: each name with its type, in the order in
/// which they were written.
pub type FnArgs = IndexMap<String, DataType>;

/// What a parameter list holds: each name, as its characters, with its
/// type, in the order of the list.
pub uninterp spec fn params_of(args: IndexMap<String, DataType>) -> Seq<(Seq<char>, DataType)>;

/// `IndexMap::len`: the number of parameters.
#[verifier::external_body]
pub(crate) fn args_len(args: &FnArgs) -> (n: usize)
    ensures
        n == params_of(*args).len(),
{
    args.len()
}

/// `IndexMap::get_index`: the parameter at place `i` of the order, none
/// from the length on.
#[verifier::external_body]
pub(crate) fn args_get(args: &FnArgs, i: usize) -> (r: Option<(&String, &DataType)>)
    ensures
        match r {
            Some(p) => i < params_of(*args).len() && p.0@ == params_of(*args)[i as int].0 && *p.1
                == params_of(*args)[i as int].1,
            None => i >= params_of(*args).len(),
        },
{
    args.get_index(i)
}

/// The place of the first pair of `pairs` that is named `name`; the length
/// where there is none.
pub open spec fn position<V>(pairs: Seq<(Seq<char>, V)>, name: Seq<char>) -> int
    decreases pairs.len(),
{
    if pairs.len() == 0 {
        0
    } else if pairs[0].0 == name {
        0
    } else {
        1 + position(pairs.drop_first(), name)
    }
}

/// `pairs` after `name` was bound to `value`: a name that is there keeps
/// its place and gets the value, a new name goes last.
pub open spec fn inserted<V>(pairs: Seq<(Seq<char>, V)>, name: Seq<char>, value: V) -> Seq<
    (Seq<char>, V),
> {
    if position(pairs, name) < pairs.len() {
        pairs.update(position(pairs, name), (name, value))
    } else {
        pairs.push((name, value))
    }
}

/// `IndexMap::new`: a list without parameters.
#[verifier::external_body]
pub(crate) fn args_new() -> (r: FnArgs)
    ensures
        params_of(r) == Seq::<(Seq<char>, DataType)>::empty(),
{
    IndexMap::new()
}

/// `IndexMap::insert`: a name that the list holds keeps its place and gets
/// the new type; a new name goes last, with its type.
#[verifier::external_body]
pub(crate) fn args_insert(args: &mut FnArgs, name: String, type_id: DataType)
    ensures
        params_of(*final(args)) == inserted(params_of(*old(args)), name@, type_id),
{
    args.insert(name, type_id);
}

/// A function: its text and the scope in which it was declared. A call
/// evaluates `body` in a child of `scope`, whoever calls.
#[derive(Debug)]
pub struct FunctionData {
    pub name: String,
    pub args: Arc<FnArgs>,
    pub body: Arc<Vec<ASTNode>>,
    pub return_type: DataType,
    pub scope: ScopeId,
    /// The names of the variables that the declaring scope held when the
    /// function was declared.
    pub accesses: Arc<Vec<String>>,
    pub tied: bool,
}

impl FunctionData {
    /// The parameters: each name, as its characters, with its type, in
    /// their order.
    pub open spec fn parameters(self) -> Seq<(Seq<char>, DataType)> {
        params_of(*self.args)
    }
}

impl Clone for FunctionData {
    fn clone(&self) -> (r: Self)
        ensures
            r == *self,
    {
        FunctionData {
            name: self.name.clone(),
            args: share(&self.args),
            body: share(&self.body),
            return_type: self.return_type.clone(),
            scope: self.scope,
            accesses: share(&self.accesses),
            tied: self.tied,
        }
    }
}

/// A variable: its value, the type it was declared with, and whether it
/// may be assigned to.
#[derive(Debug)]
pub struct VariableData {
    pub value: RuntimeValue,
    pub type_id: DataType,
    pub immut: bool,
}

#[derive(Debug)]
pub struct EnumDefinition {
    pub name: String,
    pub entries: Vec<String>,
}

/// A declared layout: its fields with their defaults, and the methods that
/// were mixed into it since.
#[derive(Debug)]
pub struct ScopeLayoutDeclaration {
    pub name: String,
    pub fields: Arc<StrMap<FieldParserDescription>>,
    pub mixed: StrMap<FunctionData>,
}

/// One scope. `parent` is the scope around it, if there is one.
#[derive(Debug)]
pub struct RuntimeScope {
    pub parent: Option<ScopeId>,
    pub variables: StrMap<VariableData>,
    pub functions: StrMap<FunctionData>,
    /// The host's functions, by the path under which each is registered.
    pub native_functions: StrMap<MoSaNativeFunction>,
    /// The names that the program gave to native paths.
    pub defined_native_functions: StrMap<String>,
    pub bindings: StrMap<RuntimeValue>,
    pub enums: StrMap<EnumDefinition>,
    pub layouts: StrMap<LayoutId>,
    pub imports: StrMap<ModuleExport>,
}

/// The type that a value has.
pub open spec fn type_of(value: RuntimeValue) -> TypeView {
    match value {
        RuntimeValue::Number(_) => TypeView::Num(NumType::Dynamic),
        RuntimeValue::Null => TypeView::Null,
        RuntimeValue::String(_) => TypeView::Str,
        RuntimeValue::Bool(_) => TypeView::Bool,
        RuntimeValue::Complex(ComplexRuntimeValue::Enum(e)) => TypeView::LayoutOrEnum(e.enum_id@),
        RuntimeValue::Complex(ComplexRuntimeValue::Layout(l)) => TypeView::LayoutOrEnum(
            l.layout_id@,
        ),
        RuntimeValue::Iterable(_) => TypeView::Iterable(Box::new(TypeView::Num(NumType::Dynamic))),
        RuntimeValue::Reference(_) => TypeView::Function,
    }
}

/// A value's type is never the placeholder.
pub proof fn lemma_type_of_is_concrete(value: RuntimeValue)
    ensures
        type_of(value).is_concrete(),
        type_of(value) != TypeView::Infer,
{
    reveal_with_fuel(TypeView::is_concrete, 2);
}

impl RuntimeScope {
    pub fn new(parent: Option<ScopeId>) -> (s: Self)
        ensures
            s.parent == parent,
            s.variables@ == Map::<Seq<char>, VariableData>::empty(),
            s.functions@ == Map::<Seq<char>, FunctionData>::empty(),
            s.native_functions@ == Map::<Seq<char>, MoSaNativeFunction>::empty(),
            s.defined_native_functions@ == Map::<Seq<char>, String>::empty(),
            s.bindings@ == Map::<Seq<char>, RuntimeValue>::empty(),
            s.enums@ == Map::<Seq<char>, EnumDefinition>::empty(),
            s.layouts@ == Map::<Seq<char>, LayoutId>::empty(),
            s.imports@ == Map::<Seq<char>, ModuleExport>::empty(),
    {
        RuntimeScope {
            parent,
            variables: StrMap::new(),
            functions: StrMap::new(),
            native_functions: StrMap::new(),
            defined_native_functions: StrMap::new(),
            bindings: StrMap::new(),
            enums: StrMap::new(),
            layouts: StrMap::new(),
            imports: StrMap::new(),
        }
    }

    /// The type of `value`: a number is a `num`, an iterable an iterable of
    /// `num`, an enum value or a layout instance has the name of its enum or
    /// layout, and a reference is a function.
    pub fn get_value_type(value: &RuntimeValue) -> (t: DataType)
        ensures
            t@ == type_of(*value),
    {
        match value {
            RuntimeValue::Number(_) => DataType::Primitive(
                PrimitiveDataType::Num(NumType::Dynamic),
            ),
            RuntimeValue::Null => DataType::Primitive(PrimitiveDataType::Null),
            RuntimeValue::String(_) => DataType::Primitive(PrimitiveDataType::Str),
            RuntimeValue::Bool(_) => DataType::Primitive(PrimitiveDataType::Bool),
            RuntimeValue::Complex(ComplexRuntimeValue::Enum(e)) => DataType::Complex(
                ComplexDataType::LayoutOrEnum(e.enum_id.clone()),
            ),
            RuntimeValue::Complex(ComplexRuntimeValue::Layout(l)) => DataType::Complex(
                ComplexDataType::LayoutOrEnum(l.layout_id.clone()),
            ),
            RuntimeValue::Iterable(_) => {
                proof {
                    reveal_with_fuel(DataType::model, 2);
                }
                DataType::Primitive(
                    PrimitiveDataType::Iterable(
                        Box::new(
                            DataType::Primitive(PrimitiveDataType::Num(NumType::Dynamic)),
                        ),
                    ),
                )
            },
            RuntimeValue::Reference(_) => DataType::Reference(ReferenceType::Function),
        }
    }

    /// What `declare_variable` answers: a declared type that is not the
    /// placeholder must take the type of the value.
    pub open spec fn declare_outcome(type_id: TypeView, value: RuntimeValue) -> Result<
        (),
        EvaluationError,
    > {
        if type_id != TypeView::Infer && !type_id.matches(type_of(value)) {
            Err(EvaluationError::TypeMismatch)
        } else {
            Ok(())
        }
    }

    /// `post` is `self` with the variable `name` declared anew: immutable
    /// or not, with `value`, and with `type_id`, or the type of the value
    /// where `type_id` is the placeholder.
    pub open spec fn declares(
        self,
        post: RuntimeScope,
        name: Seq<char>,
        type_id: TypeView,
        value: RuntimeValue,
        is_immut: bool,
    ) -> bool {
        &&& post.variables@ == self.variables@.insert(name, post.variables@[name])
        &&& post.variables@[name].value == value
        &&& post.variables@[name].immut == is_immut
        &&& post.variables@[name].type_id@ == (if type_id == TypeView::Infer {
            type_of(value)
        } else {
            type_id
        })
        &&& post.same_but(self, Table::Variables)
    }

    /// Everything but `table` is as in `other`.
    pub open spec fn same_but(self, other: RuntimeScope, table: Table) -> bool {
        &&& self.parent == other.parent
        &&& table != Table::Variables ==> self.variables == other.variables
        &&& table != Table::Functions ==> self.functions == other.functions
        &&& table != Table::NativeFunctions ==> self.native_functions == other.native_functions
        &&& table != Table::DefinedNativeFunctions ==> self.defined_native_functions
            == other.defined_native_functions
        &&& table != Table::Bindings ==> self.bindings == other.bindings
        &&& table != Table::Enums ==> self.enums == other.enums
        &&& table != Table::Layouts ==> self.layouts == other.layouts
        &&& table != Table::Imports ==> self.imports == other.imports
    }

    /// Declares the variable `name` in this scope, over any variable of that
    /// name that the scope holds. Variables of that name in the scopes
    /// around are left alone, and hidden.
    pub fn declare_variable(
        &mut self,
        name: String,
        type_id: DataType,
        value: RuntimeValue,
        is_immut: bool,
    ) -> (r: Result<(), EvaluationError>)
        ensures
            r == Self::declare_outcome(type_id@, value),
            r is Ok ==> old(self).declares(*final(self), name@, type_id@, value, is_immut),
            r is Err ==> *final(self) == *old(self),
    {
        let value_type = Self::get_value_type(&value);
        let infer = DataType::InternalInfer;
        let inferred = type_id == infer;
        if !inferred && !type_id.matches(&value_type) {
            return Err(EvaluationError::TypeMismatch);
        }
        let stored = if inferred {
            value_type
        } else {
            type_id
        };
        self.variables.insert(name, VariableData { value, type_id: stored, immut: is_immut });
        Ok(())
    }

    /// Binds the loop binding `name` in this scope.
    pub fn assign_binding(&mut self, name: String, value: RuntimeValue)
        ensures
            final(self).bindings@ == old(self).bindings@.insert(name@, value),
            final(self).same_but(*old(self), Table::Bindings),
    {
        self.bindings.insert(name, value);
    }
}

/// The tables of a scope. All but the imports are looked up along the
/// chain of parents.
#[derive(Clone, Copy, Debug, PartialEq, Eq, Structural)]
pub enum Table {
    Variables,
    Functions,
    NativeFunctions,
    DefinedNativeFunctions,
    Bindings,
    Enums,
    Layouts,
    Imports,
}

impl RuntimeScope {
    /// Whether the scope itself holds `name` in `table`.
    pub open spec fn holds(self, table: Table, name: Seq<char>) -> bool {
        match table {
            Table::Variables => self.variables@.contains_key(name),
            Table::Functions => self.functions@.contains_key(name),
            Table::NativeFunctions => self.native_functions@.contains_key(name),
            Table::DefinedNativeFunctions => self.defined_native_functions@.contains_key(name),
            Table::Bindings => self.bindings@.contains_key(name),
            Table::Enums => self.enums@.contains_key(name),
            Table::Layouts => self.layouts@.contains_key(name),
            Table::Imports => self.imports@.contains_key(name),
        }
    }

    fn holds_name(&self, table: Table, name: &String) -> (r: bool)
        ensures
            r == self.holds(table, name@),
    {
        match table {
            Table::Variables => self.variables.contains_key(name),
            Table::Functions => self.functions.contains_key(name),
            Table::NativeFunctions => self.native_functions.contains_key(name),
            Table::DefinedNativeFunctions => self.defined_native_functions.contains_key(name),
            Table::Bindings => self.bindings.contains_key(name),
            Table::Enums => self.enums.contains_key(name),
            Table::Layouts => self.layouts.contains_key(name),
            Table::Imports => self.imports.contains_key(name),
        }
    }
}

/// Everything that scopes and values share: the scopes themselves, the
/// declarations of layouts, and the field tables of layout instances.
/// Each is named by its place in its table, and no table ever shrinks, so a
/// handle that was valid stays valid.
///
/// A scope's parent is older than the scope. A `parent` that names a scope
/// that is not older counts as none.
#[derive(Debug)]
pub struct Runtime {
    pub scopes: Vec<RuntimeScope>,
    pub declarations: Vec<ScopeLayoutDeclaration>,
    pub instances: Vec<StrMap<RuntimeValue>>,
}

impl Runtime {
    /// The scope around `scope`, if there is one.
    pub open spec fn parent_of(self, scope: ScopeId) -> Option<ScopeId> {
        if scope < self.scopes@.len() {
            match self.scopes@[scope as int].parent {
                Some(p) => if p < scope {
                    Some(p)
                } else {
                    None
                },
                None => None,
            }
        } else {
            None
        }
    }

    /// The nearest scope, from `from` outwards, that itself holds `name` in
    /// `table`.
    pub open spec fn owner(self, from: ScopeId, table: Table, name: Seq<char>) -> Option<ScopeId>
        decreases from,
    {
        if from < self.scopes@.len() {
            if self.scopes@[from as int].holds(table, name) {
                Some(from)
            } else {
                match self.parent_of(from) {
                    Some(p) => self.owner(p, table, name),
                    None => None,
                }
            }
        } else {
            None
        }
    }

    /// The outermost scope around `from`: `from` itself where it has no
    /// parent.
    pub open spec fn root(self, from: ScopeId) -> Option<ScopeId>
        decreases from,
    {
        if from < self.scopes@.len() {
            match self.parent_of(from) {
                Some(p) => self.root(p),
                None => Some(from),
            }
        } else {
            None
        }
    }

    /// The variable that `name` means in `scope`.
    pub open spec fn variable(self, scope: ScopeId, name: Seq<char>) -> Option<VariableData> {
        match self.owner(scope, Table::Variables, name) {
            Some(o) => Some(self.scopes@[o as int].variables@[name]),
            None => None,
        }
    }

    /// What `assign_variable` answers.
    pub open spec fn assign_outcome(self, scope: ScopeId, name: Seq<char>, value: RuntimeValue)
        -> Result<(), EvaluationError> {
        match self.variable(scope, name) {
            None => Err(EvaluationError::UndeclaredVariable),
            Some(slot) => if slot.immut {
                Err(EvaluationError::ImmutableAssignment)
            } else if !slot.type_id@.matches(type_of(value)) {
                Err(EvaluationError::TypeMismatch)
            } else {
                Ok(())
            },
        }
    }

    /// `post` is `self` with scope `scope` replaced by `post`'s.
    pub open spec fn same_but_scope(self, post: Runtime, scope: ScopeId) -> bool {
        &&& scope < self.scopes@.len()
        &&& post.scopes@ == self.scopes@.update(scope as int, post.scopes@[scope as int])
        &&& post.declarations == self.declarations
        &&& post.instances == self.instances
    }

    /// `post` is `self` after `value` was assigned to what `name` means in
    /// `scope`: the scope that owns the name holds the new value in the
    /// same slot, and nothing else has changed.
    pub open spec fn assigns(
        self,
        post: Runtime,
        scope: ScopeId,
        name: Seq<char>,
        value: RuntimeValue,
    ) -> bool {
        match self.owner(scope, Table::Variables, name) {
            None => false,
            Some(o) => {
                let before = self.scopes@[o as int];
                let after = post.scopes@[o as int];
                &&& self.same_but_scope(post, o)
                &&& after.same_but(before, Table::Variables)
                &&& after.variables@ == before.variables@.insert(name, after.variables@[name])
                &&& after.variables@[name].value == value
                &&& after.variables@[name].immut == before.variables@[name].immut
                &&& after.variables@[name].type_id == before.variables@[name].type_id
            },
        }
    }

    pub fn new() -> (rt: Self)
        ensures
            rt.scopes@.len() == 0,
            rt.declarations@.len() == 0,
            rt.instances@.len() == 0,
    {
        Runtime { scopes: Vec::new(), declarations: Vec::new(), instances: Vec::new() }
    }

    fn find_owner(&self, from: ScopeId, table: Table, name: &String) -> (r: Option<ScopeId>)
        ensures
            r == self.owner(from, table, name@),
            r matches Some(o) ==> o < self.scopes@.len() && self.scopes@[o as int].holds(
                table,
                name@,
            ),
    {
        let mut cur = from;
        while cur < self.scopes.len()
            invariant
                self.owner(cur, table, name@) == self.owner(from, table, name@),
            decreases cur,
        {
            let s = &self.scopes[cur];
            if s.holds_name(table, name) {
                return Some(cur);
            }
            match s.parent {
                Some(p) => {
                    if p < cur {
                        cur = p;
                    } else {
                        return None;
                    }
                },
                None => {
                    return None;
                },
            }
        }
        None
    }

    fn find_root(&self, from: ScopeId) -> (r: Option<ScopeId>)
        ensures
            r == self.root(from),
            r matches Some(o) ==> o < self.scopes@.len(),
    {
        let mut cur = from;
        while cur < self.scopes.len()
            invariant
                self.root(cur) == self.root(from),
            decreases cur,
        {
            match self.scopes[cur].parent {
                Some(p) => {
                    if p < cur {
                        cur = p;
                    } else {
                        return Some(cur);
                    }
                },
                None => {
                    return Some(cur);
                },
            }
        }
        None
    }
}

impl RuntimeScope {
    /// A new scope in the runtime's table, and its handle. The parent, where
    /// one is given, must be a scope of the runtime.
    pub fn arc_rwlock_new(rt: &mut Runtime, parent: Option<ScopeId>) -> (r: Result<
        ScopeId,
        EvaluationError,
    >)
        ensures
            r is Ok <==> (parent matches Some(p) ==> p < old(rt).scopes@.len()),
            r is Err ==> r == Err::<ScopeId, EvaluationError>(EvaluationError::UnknownScope)
                && *final(rt) == *old(rt),
            r matches Ok(id) ==> {
                &&& id == old(rt).scopes@.len()
                &&& final(rt).scopes@.len() == id + 1
                &&& final(rt).scopes@.subrange(0, id as int) == old(rt).scopes@
                &&& final(rt).scopes@[id as int].parent == parent
                &&& final(rt).parent_of(id) == parent
                &&& forall|t: Table, k: Seq<char>| !final(rt).scopes@[id as int].holds(t, k)
                &&& final(rt).scopes@[id as int].imports@ == Map::<
                    Seq<char>,
                    ModuleExport,
                >::empty()
                &&& final(rt).declarations == old(rt).declarations
                &&& final(rt).instances == old(rt).instances
            },
    {
        match parent {
            Some(p) => {
                if p >= rt.scopes.len() {
                    return Err(EvaluationError::UnknownScope);
                }
            },
            None => {},
        }
        let id = rt.scopes.len();
        rt.scopes.push(RuntimeScope::new(parent));
        assert(rt.scopes@.subrange(0, id as int) =~= old(rt).scopes@);
        Ok(id)
    }

    /// The value of the variable that `name` means in `scope`: the one of
    /// the nearest scope, from `scope` outwards, that declares the name.
    pub fn read_variable(rt: &Runtime, scope: ScopeId, name: &String) -> (r: Option<RuntimeValue>)
        ensures
            r == (match rt.variable(scope, name@) {
                Some(slot) => Some(slot.value),
                None => None,
            }),
    {
        match rt.find_owner(scope, Table::Variables, name) {
            Some(o) => {
                match rt.scopes[o].variables.get(name) {
                    Some(slot) => Some(slot.value.clone()),
                    None => None,
                }
            },
            None => None,
        }
    }

    /// Assigns `value` to the variable that `name` means in `scope`. No
    /// variable is ever made by an assignment.
    pub fn assign_variable(rt: &mut Runtime, scope: ScopeId, name: String, value: RuntimeValue) -> (r:
        Result<(), EvaluationError>)
        ensures
            r == old(rt).assign_outcome(scope, name@, value),
            r is Ok ==> old(rt).assigns(*final(rt), scope, name@, value),
            r is Err ==> *final(rt) == *old(rt),
    {
        let owner = rt.find_owner(scope, Table::Variables, &name);
        match owner {
            None => Err(EvaluationError::UndeclaredVariable),
            Some(o) => {
                let (immut, type_id) = match rt.scopes[o].variables.get(&name) {
                    Some(slot) => (slot.immut, slot.type_id.clone()),
                    None => { return Err(EvaluationError::UndeclaredVariable); },
                };
                if immut {
                    return Err(EvaluationError::ImmutableAssignment);
                }
                let value_type = Self::get_value_type(&value);
                if !type_id.matches(&value_type) {
                    return Err(EvaluationError::TypeMismatch);
                }
                rt.scopes[o].variables.insert(name, VariableData { value, type_id, immut });
                assert(final(rt).scopes@ =~= old(rt).scopes@.update(
                    o as int,
                    final(rt).scopes@[o as int],
                ));
                Ok(())
            },
        }
    }
}

impl Runtime {
    /// `post` is `self` after the variable `name` was declared in scope
    /// `scope`.
    pub open spec fn declared_in(
        self,
        post: Runtime,
        scope: ScopeId,
        name: Seq<char>,
        type_id: TypeView,
        value: RuntimeValue,
        is_immut: bool,
    ) -> bool {
        &&& self.same_but_scope(post, scope)
        &&& self.scopes@[scope as int].declares(
            post.scopes@[scope as int],
            name,
            type_id,
            value,
            is_immut,
        )
    }

    /// Two runtimes whose scopes have the same parents and hold the same
    /// names in `table` agree on who owns `name`.
    pub proof fn lemma_owner_depends_on_names(
        self,
        other: Runtime,
        from: ScopeId,
        table: Table,
        name: Seq<char>,
    )
        requires
            self.scopes@.len() == other.scopes@.len(),
            forall|i: int|
                0 <= i < self.scopes@.len() ==> self.scopes@[i].parent == other.scopes@[i].parent
                    && self.scopes@[i].holds(table, name) == other.scopes@[i].holds(table, name),
        ensures
            self.owner(from, table, name) == other.owner(from, table, name),
        decreases from,
    {
        if from < self.scopes@.len() {
            if !self.scopes@[from as int].holds(table, name) {
                match self.parent_of(from) {
                    Some(p) => {
                        self.lemma_owner_depends_on_names(other, p, table, name);
                    },
                    None => {},
                }
            }
        }
    }
}

impl Runtime {
    /// The value that the loop binding `name` has in `scope`.
    pub open spec fn binding(self, scope: ScopeId, name: Seq<char>) -> Option<RuntimeValue> {
        match self.owner(scope, Table::Bindings, name) {
            Some(o) => Some(self.scopes@[o as int].bindings@[name]),
            None => None,
        }
    }

    /// What the scope at the outer end of the chain has imported under
    /// `name`.
    pub open spec fn imported(self, scope: ScopeId, name: Seq<char>) -> Option<ModuleExport> {
        match self.root(scope) {
            Some(r) => if self.scopes@[r as int].imports@.contains_key(name) {
                Some(self.scopes@[r as int].imports@[name])
            } else {
                None
            },
            None => None,
        }
    }

    /// The function that `name` means in `scope`: the one of the nearest
    /// scope that declares the name, else the function that the outermost
    /// scope has imported under the name.
    pub open spec fn function(self, scope: ScopeId, name: Seq<char>) -> Option<FunctionData> {
        match self.owner(scope, Table::Functions, name) {
            Some(o) => Some(self.scopes@[o as int].functions@[name]),
            None => match self.imported(scope, name) {
                Some(ModuleExport::Function(f)) => Some(f),
                _ => None,
            },
        }
    }

    /// The native path that the program named `ident`, as `scope` sees it.
    pub open spec fn defined_name(self, scope: ScopeId, ident: Seq<char>) -> Option<String> {
        match self.owner(scope, Table::DefinedNativeFunctions, ident) {
            Some(o) => Some(self.scopes@[o as int].defined_native_functions@[ident]),
            None => None,
        }
    }

    /// The function of the host that `ident` means in `scope`: the name is
    /// resolved to a path along the chain, and the path to a function along
    /// the chain.
    pub open spec fn native_function(self, scope: ScopeId, ident: Seq<char>) -> Option<
        MoSaNativeFunction,
    > {
        match self.defined_name(scope, ident) {
            Some(path) => match self.owner(scope, Table::NativeFunctions, path@) {
                Some(o) => Some(self.scopes@[o as int].native_functions@[path@]),
                None => None,
            },
            None => None,
        }
    }

    /// The enum that `name` means in `scope`.
    pub open spec fn enum_data(self, scope: ScopeId, name: Seq<char>) -> Option<EnumDefinition> {
        match self.owner(scope, Table::Enums, name) {
            Some(o) => Some(self.scopes@[o as int].enums@[name]),
            None => None,
        }
    }

    /// The layout that `name` means in `scope`: the one of the nearest scope
    /// that declares the name, else the layout that the outermost scope has
    /// imported under the name.
    pub open spec fn layout(self, scope: ScopeId, name: Seq<char>) -> Option<LayoutId> {
        match self.owner(scope, Table::Layouts, name) {
            Some(o) => Some(self.scopes@[o as int].layouts@[name]),
            None => match self.imported(scope, name) {
                Some(ModuleExport::Layout(l)) => Some(l),
                _ => None,
            },
        }
    }

    /// The value of field `name` of the layout instance `instance`.
    pub open spec fn field(self, instance: InstanceId, name: Seq<char>) -> Option<RuntimeValue> {
        if instance < self.instances@.len() && self.instances@[instance as int]@.contains_key(
            name,
        ) {
            Some(self.instances@[instance as int]@[name])
        } else {
            None
        }
    }

    /// A new layout instance with the fields `fields`, and its handle.
    pub fn new_instance(&mut self, fields: StrMap<RuntimeValue>) -> (id: InstanceId)
        ensures
            id == old(self).instances@.len(),
            final(self).instances@ == old(self).instances@.push(fields),
            final(self).scopes == old(self).scopes,
            final(self).declarations == old(self).declarations,
    {
        let id = self.instances.len();
        self.instances.push(fields);
        id
    }

    /// The value of field `name` of the layout instance `instance`.
    pub fn read_field(&self, instance: InstanceId, name: &String) -> (r: Option<RuntimeValue>)
        ensures
            r == self.field(instance, name@),
    {
        if instance >= self.instances.len() {
            return None;
        }
        match self.instances[instance].get(name) {
            Some(v) => Some(v.clone()),
            None => None,
        }
    }

    /// Sets field `name` of the layout instance `instance`, where the
    /// instance has that field. Every value that holds the handle sees the
    /// new value.
    pub fn write_field(&mut self, instance: InstanceId, name: String, value: RuntimeValue) -> (r:
        Result<(), EvaluationError>)
        ensures
            r == (if old(self).field(instance, name@) is Some {
                Ok::<(), EvaluationError>(())
            } else {
                Err::<(), EvaluationError>(EvaluationError::UnknownField)
            }),
            r is Err ==> *final(self) == *old(self),
            r is Ok ==> old(self).writes(*final(self), instance, name@, value),
    {
        if instance >= self.instances.len() {
            return Err(EvaluationError::UnknownField);
        }
        if !self.instances[instance].contains_key(&name) {
            return Err(EvaluationError::UnknownField);
        }
        self.instances[instance].insert(name, value);
        assert(final(self).instances@ =~= old(self).instances@.update(
            instance as int,
            final(self).instances@[instance as int],
        ));
        Ok(())
    }

    /// `post` is `self` after field `name` of `instance` was set to `value`.
    pub open spec fn writes(
        self,
        post: Runtime,
        instance: InstanceId,
        name: Seq<char>,
        value: RuntimeValue,
    ) -> bool {
        &&& instance < self.instances@.len()
        &&& post.instances@ == self.instances@.update(
            instance as int,
            post.instances@[instance as int],
        )
        &&& post.instances@[instance as int]@ == self.instances@[instance as int]@.insert(
            name,
            value,
        )
        &&& post.scopes == self.scopes
        &&& post.declarations == self.declarations
    }
}

/// Two values that hold one layout instance share its fields: what is
/// written through the one is read through the other.
pub proof fn law_layout_aliases_share_fields(
    pre: Runtime,
    post: Runtime,
    written: crate::interpreter::structs::LayoutData,
    read: crate::interpreter::structs::LayoutData,
    name: Seq<char>,
    value: RuntimeValue,
)
    requires
        read.entries == written.entries,
        pre.writes(post, written.entries, name, value),
    ensures
        post.field(read.entries, name) == Some(value),
{
}

impl RuntimeScope {
    /// The value of the loop binding `name`, from the nearest scope that
    /// binds it.
    pub fn get_binding(rt: &Runtime, scope: ScopeId, name: &String) -> (r: Option<RuntimeValue>)
        ensures
            r == rt.binding(scope, name@),
    {
        match rt.find_owner(scope, Table::Bindings, name) {
            Some(o) => match rt.scopes[o].bindings.get(name) {
                Some(v) => Some(v.clone()),
                None => None,
            },
            None => None,
        }
    }

    /// Declares the function `name` in scope `scope`. The function keeps
    /// `scope` as the scope that its body will see, and the names of the
    /// variables that `scope` holds now.
    pub fn declare_function(
        rt: &mut Runtime,
        scope: ScopeId,
        name: String,
        args: Arc<FnArgs>,
        body: Arc<Vec<ASTNode>>,
        return_type: DataType,
    ) -> (r: Result<(), EvaluationError>)
        ensures
            r is Ok <==> scope < old(rt).scopes@.len(),
            r is Err ==> r == Err::<(), EvaluationError>(EvaluationError::UnknownScope) && *final(rt) == *old(rt),
            r is Ok ==> {
                let before = old(rt).scopes@[scope as int];
                let after = final(rt).scopes@[scope as int];
                let f = after.functions@[name@];
                &&& old(rt).same_but_scope(*final(rt), scope)
                &&& after.same_but(before, Table::Functions)
                &&& after.functions@ == before.functions@.insert(name@, f)
                &&& f.name == name
                &&& f.args == args
                &&& f.body == body
                &&& f.return_type == return_type
                &&& f.scope == scope
                &&& !f.tied
                &&& crate::collections::names_of(f.accesses@) == before.variables.keys()
            },
    {
        if scope >= rt.scopes.len() {
            return Err(EvaluationError::UnknownScope);
        }
        let accesses = rt.scopes[scope].variables.key_list();
        let fd = FunctionData {
            name: name.clone(),
            args,
            body,
            return_type,
            scope,
            accesses: Arc::new(accesses),
            tied: false,
        };
        rt.scopes[scope].functions.insert(name, fd);
        assert(final(rt).scopes@ =~= old(rt).scopes@.update(
            scope as int,
            final(rt).scopes@[scope as int],
        ));
        Ok(())
    }

    /// The function that `name` means in `scope`.
    pub fn get_function(rt: &Runtime, scope: ScopeId, name: &String) -> (r: Option<FunctionData>)
        ensures
            r == rt.function(scope, name@),
    {
        match rt.find_owner(scope, Table::Functions, name) {
            Some(o) => match rt.scopes[o].functions.get(name) {
                Some(f) => Some(f.clone()),
                None => None,
            },
            None => match rt.find_root(scope) {
                Some(root) => match rt.scopes[root].imports.get(name) {
                    Some(ModuleExport::Function(f)) => Some(f.clone()),
                    _ => None,
                },
                None => None,
            },
        }
    }

    /// Registers the host's function `function` under `path`.
    pub fn add_native_function(&mut self, path: String, function: MoSaNativeFunction)
        ensures
            final(self).native_functions@ == old(self).native_functions@.insert(path@, function),
            final(self).same_but(*old(self), Table::NativeFunctions),
    {
        self.native_functions.insert(path, function);
    }

    /// Lets the name `ident` stand for the native path `path` in this scope
    /// and in the scopes within it.
    pub fn define_native_function(&mut self, ident: String, path: String)
        ensures
            final(self).defined_native_functions@ == old(self).defined_native_functions@.insert(
                ident@,
                path,
            ),
            final(self).same_but(*old(self), Table::DefinedNativeFunctions),
    {
        self.defined_native_functions.insert(ident, path);
    }

    /// The native path that `ident` stands for in `scope`.
    pub fn get_defined_name(rt: &Runtime, scope: ScopeId, ident: &String) -> (r: Option<String>)
        ensures
            r == rt.defined_name(scope, ident@),
    {
        match rt.find_owner(scope, Table::DefinedNativeFunctions, ident) {
            Some(o) => match rt.scopes[o].defined_native_functions.get(ident) {
                Some(path) => Some(path.clone()),
                None => None,
            },
            None => None,
        }
    }

    /// The function of the host that `ident` means in `scope`.
    pub fn get_native_function_from_ident(rt: &Runtime, scope: ScopeId, ident: &String) -> (r:
        Option<MoSaNativeFunction>)
        ensures
            r == rt.native_function(scope, ident@),
    {
        match Self::get_defined_name(rt, scope, ident) {
            None => None,
            Some(path) => match rt.find_owner(scope, Table::NativeFunctions, &path) {
                Some(o) => match rt.scopes[o].native_functions.get(&path) {
                    Some(f) => Some(*f),
                    None => None,
                },
                None => None,
            },
        }
    }

    /// Declares the enum `name` with the entries `entries` in this scope.
    pub fn declare_enum(&mut self, name: String, entries: Vec<String>)
        ensures
            final(self).enums@ == old(self).enums@.insert(name@, final(self).enums@[name@]),
            final(self).enums@[name@].name == name,
            final(self).enums@[name@].entries == entries,
            final(self).same_but(*old(self), Table::Enums),
    {
        let key = name.clone();
        self.enums.insert(key, EnumDefinition { name, entries });
    }

    /// The enum that `name` means in `scope`.
    pub fn get_enum_data<'a>(rt: &'a Runtime, scope: ScopeId, name: &String) -> (r: Option<
        &'a EnumDefinition,
    >)
        ensures
            r matches Some(e) ==> rt.enum_data(scope, name@) == Some(*e),
            r is None ==> rt.enum_data(scope, name@) is None,
    {
        match rt.find_owner(scope, Table::Enums, name) {
            Some(o) => rt.scopes[o].enums.get(name),
            None => None,
        }
    }

    /// Declares the layout `layout_info` in scope `scope`. The declaration
    /// starts without mixed methods.
    pub fn declare_layout(rt: &mut Runtime, scope: ScopeId, layout_info: LayoutDeclaration) -> (r:
        Result<(), EvaluationError>)
        ensures
            r == (if scope < old(rt).scopes@.len() {
                Ok::<(), EvaluationError>(())
            } else {
                Err::<(), EvaluationError>(EvaluationError::UnknownScope)
            }),
            old(rt).layout_declared(*final(rt), scope, layout_info),
    {
        if scope >= rt.scopes.len() {
            return Err(EvaluationError::UnknownScope);
        }
        let id = rt.declarations.len();
        let key = layout_info.name.clone();
        rt.declarations.push(
            ScopeLayoutDeclaration {
                name: layout_info.name,
                fields: layout_info.fields,
                mixed: StrMap::new(),
            },
        );
        rt.scopes[scope].layouts.insert(key, id);
        assert(final(rt).scopes@ =~= old(rt).scopes@.update(
            scope as int,
            final(rt).scopes@[scope as int],
        ));
        assert(final(rt).declarations@.subrange(0, id as int) =~= old(rt).declarations@);
        Ok(())
    }

    /// The layout that `name` means in `scope`.
    pub fn get_layout_declaration(rt: &Runtime, scope: ScopeId, name: &String) -> (r: Option<
        LayoutId,
    >)
        ensures
            r == rt.layout(scope, name@),
    {
        match rt.find_owner(scope, Table::Layouts, name) {
            Some(o) => match rt.scopes[o].layouts.get(name) {
                Some(l) => Some(*l),
                None => None,
            },
            None => match rt.find_root(scope) {
                Some(root) => match rt.scopes[root].imports.get(name) {
                    Some(ModuleExport::Layout(l)) => Some(*l),
                    _ => None,
                },
                None => None,
            },
        }
    }

    /// What this scope has imported under `symbol`.
    pub fn get_import(&self, symbol: &String) -> (r: Option<ModuleExport>)
        ensures
            r == (if self.imports@.contains_key(symbol@) {
                Some(self.imports@[symbol@])
            } else {
                None
            }),
    {
        match self.imports.get(symbol) {
            Some(e) => Some(e.clone()),
            None => None,
        }
    }

    /// Keeps `export` as what this scope has imported under `symbol`.
    pub fn import(&mut self, symbol: String, export: ModuleExport)
        ensures
            final(self).imports@ == old(self).imports@.insert(symbol@, export),
            final(self).same_but(*old(self), Table::Imports),
    {
        self.imports.insert(symbol, export);
    }

    /// Replaces the native functions of this scope by `natives`.
    pub fn preplace_native_functions(&mut self, natives: StrMap<MoSaNativeFunction>)
        ensures
            final(self).native_functions == natives,
            final(self).same_but(*old(self), Table::NativeFunctions),
    {
        self.native_functions = natives;
    }

    /// The native functions that are registered in this scope.
    pub fn get_native_functions(&self) -> (r: &StrMap<MoSaNativeFunction>)
        ensures
            *r == self.native_functions,
    {
        &self.native_functions
    }
}

/// A parameter list with each type as what it denotes.
pub open spec fn param_views(pairs: Seq<(Seq<char>, DataType)>) -> Seq<(Seq<char>, TypeView)> {
    Seq::new(pairs.len(), |i: int| (pairs[i].0, pairs[i].1@))
}

/// `acc` after the first `n` of `pairs` were inserted into it, one after
/// the other.
pub open spec fn inserted_first(
    acc: Seq<(Seq<char>, TypeView)>,
    pairs: Seq<(Seq<char>, TypeView)>,
    n: nat,
) -> Seq<(Seq<char>, TypeView)>
    decreases n,
{
    if n == 0 {
        acc
    } else {
        let rest = inserted_first(acc, pairs, (n - 1) as nat);
        inserted(rest, pairs[n - 1].0, pairs[n - 1].1)
    }
}

/// The parameters of a tied method of layout `layout_id`: the receiver
/// `self`, of the layout's type, goes first, and the written parameters
/// follow in their order. A written parameter that is itself named `self`
/// stays in the first place and gives it its own type.
pub open spec fn with_receiver(layout_id: Seq<char>, pairs: Seq<(Seq<char>, TypeView)>) -> Seq<
    (Seq<char>, TypeView),
> {
    inserted_first(seq![("self"@, TypeView::LayoutOrEnum(layout_id))], pairs, pairs.len())
}

proof fn lemma_position_of_views(pairs: Seq<(Seq<char>, DataType)>, name: Seq<char>)
    ensures
        position(param_views(pairs), name) == position(pairs, name),
        0 <= position(pairs, name) <= pairs.len(),
    decreases pairs.len(),
{
    if pairs.len() > 0 {
        assert(param_views(pairs)[0].0 == pairs[0].0);
        if pairs[0].0 != name {
            lemma_position_of_views(pairs.drop_first(), name);
            assert(param_views(pairs).drop_first() =~= param_views(pairs.drop_first()));
        }
    }
}

proof fn lemma_inserted_views(pairs: Seq<(Seq<char>, DataType)>, name: Seq<char>, t: DataType)
    ensures
        param_views(inserted(pairs, name, t)) == inserted(param_views(pairs), name, t@),
{
    lemma_position_of_views(pairs, name);
    assert(param_views(inserted(pairs, name, t)) =~= inserted(param_views(pairs), name, t@));
}

/// The parameters of a tied method of layout `layout_id` whose written
/// parameters are `args`.
fn tied_args(layout_id: &String, args: &FnArgs) -> (r: FnArgs)
    ensures
        param_views(params_of(r)) == with_receiver(layout_id@, param_views(params_of(*args))),
{
    let mut r = args_new();
    let receiver = DataType::Complex(ComplexDataType::LayoutOrEnum(layout_id.clone()));
    let ghost first = seq![("self"@, TypeView::LayoutOrEnum(layout_id@))];
    let ghost written = param_views(params_of(*args));
    proof {
        lemma_inserted_views(params_of(r), "self"@, receiver);
        assert(inserted(param_views(params_of(r)), "self"@, receiver@) =~= first);
    }
    args_insert(&mut r, "self".to_owned(), receiver);
    let n = args_len(args);
    let mut i: usize = 0;
    while i < n
        invariant
            i <= n,
            n == params_of(*args).len(),
            written == param_views(params_of(*args)),
            param_views(params_of(r)) == inserted_first(first, written, i as nat),
        decreases n - i,
    {
        match args_get(args, i) {
            Some(p) => {
                let name = p.0.clone();
                let t = p.1.clone();
                proof {
                    lemma_inserted_views(params_of(r), name@, t);
                    assert(written[i as int] == (name@, t@));
                }
                args_insert(&mut r, name, t);
            },
            None => {},
        }
        i = i + 1;
    }
    r
}

/// Whether one of `mix` is named `name`.
pub open spec fn named_in(mix: Seq<ParserFunctionData>, name: Seq<char>) -> bool {
    exists|i: int| 0 <= i < mix.len() && #[trigger] mix[i].name@ == name
}

/// Whether none of `mix` after place `i` has the name of the one at `i`.
pub open spec fn last_of_its_name(mix: Seq<ParserFunctionData>, i: int) -> bool {
    forall|j: int| i < j < mix.len() ==> #[trigger] mix[j].name@ != mix[i].name@
}

/// `f` is what mixing `data` into the layout `layout_id` from scope `scope`
/// makes, where `names` are the variables that the scope holds.
pub open spec fn is_mixed(
    f: FunctionData,
    data: ParserFunctionData,
    layout_id: Seq<char>,
    scope: ScopeId,
    names: Seq<Seq<char>>,
) -> bool {
    &&& f.name == data.name
    &&& f.body == data.body
    &&& f.return_type == data.return_type
    &&& f.tied == data.tied
    &&& f.scope == scope
    &&& crate::collections::names_of(f.accesses@) == names
    &&& param_views(params_of(*f.args)) == (if data.tied {
        with_receiver(layout_id, param_views(params_of(*data.args)))
    } else {
        param_views(params_of(*data.args))
    })
}

/// `after` is the method table `before` with `mix` mixed in: it holds the
/// names of both, a name that `mix` does not have keeps its method, and a
/// name that `mix` has gets the method that the last of that name makes.
pub open spec fn mixes(
    before: Map<Seq<char>, FunctionData>,
    after: Map<Seq<char>, FunctionData>,
    mix: Seq<ParserFunctionData>,
    layout_id: Seq<char>,
    scope: ScopeId,
    names: Seq<Seq<char>>,
) -> bool {
    &&& forall|k: Seq<char>| #[trigger]
        after.contains_key(k) <==> before.contains_key(k) || named_in(mix, k)
    &&& forall|k: Seq<char>|
        before.contains_key(k) && !named_in(mix, k) ==> #[trigger] after[k] == before[k]
    &&& forall|i: int|
        0 <= i < mix.len() && last_of_its_name(mix, i) ==> is_mixed(
            after[#[trigger] mix[i].name@],
            mix[i],
            layout_id,
            scope,
            names,
        )
}

impl Runtime {
    /// `post` is `self` after the layout `layout_info` was declared in
    /// `scope`: a new declaration without mixed methods, which the scope
    /// knows under the name of the layout. Where there is no such scope,
    /// `post` is `self`.
    pub open spec fn layout_declared(
        self,
        post: Runtime,
        scope: ScopeId,
        layout_info: LayoutDeclaration,
    ) -> bool {
        if scope < self.scopes@.len() {
            let before = self.scopes@[scope as int];
            let after = post.scopes@[scope as int];
            let id = self.declarations@.len();
            &&& post.scopes@ == self.scopes@.update(scope as int, after)
            &&& post.instances == self.instances
            &&& after.same_but(before, Table::Layouts)
            &&& after.layouts@ == before.layouts@.insert(layout_info.name@, id as LayoutId)
            &&& post.declarations@.len() == id + 1
            &&& post.declarations@.subrange(0, id as int) == self.declarations@
            &&& post.declarations@[id as int].name == layout_info.name
            &&& post.declarations@[id as int].fields == layout_info.fields
            &&& post.declarations@[id as int].mixed@ == Map::<Seq<char>, FunctionData>::empty()
        } else {
            post == self
        }
    }

    /// `post` is `self` after the functions `mix` were mixed into the layout
    /// `layout_id` of the scope `scope`; `self` itself where that scope
    /// declares no such layout.
    pub open spec fn mixed_into(
        self,
        post: Runtime,
        scope: ScopeId,
        layout_id: Seq<char>,
        mix: Seq<ParserFunctionData>,
    ) -> bool {
        match self.mix_target(scope, layout_id) {
            Some(d) => {
                let before = self.declarations@[d as int];
                let after = post.declarations@[d as int];
                &&& post.scopes == self.scopes
                &&& post.instances == self.instances
                &&& post.declarations@ == self.declarations@.update(d as int, after)
                &&& after.name == before.name
                &&& after.fields == before.fields
                &&& mixes(
                    before.mixed@,
                    after.mixed@,
                    mix,
                    layout_id,
                    scope,
                    self.scopes@[scope as int].variables.keys(),
                )
            },
            None => post == self,
        }
    }

    /// What `mix_into_layout` answers: the layout must be declared in the
    /// very scope `scope`.
    pub open spec fn mix_target(self, scope: ScopeId, layout_id: Seq<char>) -> Option<LayoutId> {
        if scope < self.scopes@.len() && self.scopes@[scope as int].layouts@.contains_key(
            layout_id,
        ) && self.scopes@[scope as int].layouts@[layout_id] < self.declarations@.len() {
            Some(self.scopes@[scope as int].layouts@[layout_id])
        } else {
            None
        }
    }
}

impl RuntimeScope {
    /// Mixes the functions `mix_data` into the layout `layout_id`, which
    /// must be declared in the very scope `scope`: the scopes around it are
    /// not searched. Every instance of the layout, old or new, has the
    /// methods from then on. A later method replaces an earlier one of its
    /// name.
    pub fn mix_into_layout(
        rt: &mut Runtime,
        scope: ScopeId,
        layout_id: String,
        mix_data: &Vec<ParserFunctionData>,
    ) -> (r: Result<(), EvaluationError>)
        ensures
            r == (if old(rt).mix_target(scope, layout_id@) is Some {
                Ok::<(), EvaluationError>(())
            } else {
                Err::<(), EvaluationError>(EvaluationError::UndeclaredLayout)
            }),
            old(rt).mixed_into(*final(rt), scope, layout_id@, mix_data@),
    {
        if scope >= rt.scopes.len() {
            return Err(EvaluationError::UndeclaredLayout);
        }
        let d = match rt.scopes[scope].layouts.get(&layout_id) {
            Some(d) => *d,
            None => { return Err(EvaluationError::UndeclaredLayout); },
        };
        if d >= rt.declarations.len() {
            return Err(EvaluationError::UndeclaredLayout);
        }
        let ghost names = rt.scopes@[scope as int].variables.keys();
        let ghost before = rt.declarations@[d as int].mixed@;
        let mut i: usize = 0;
        while i < mix_data.len()
            invariant
                i <= mix_data@.len(),
                scope < rt.scopes@.len(),
                d < rt.declarations@.len(),
                rt.declarations@.len() == old(rt).declarations@.len(),
                rt.scopes == old(rt).scopes,
                rt.instances == old(rt).instances,
                rt.declarations@ == old(rt).declarations@.update(
                    d as int,
                    rt.declarations@[d as int],
                ),
                rt.declarations@[d as int].name == old(rt).declarations@[d as int].name,
                rt.declarations@[d as int].fields == old(rt).declarations@[d as int].fields,
                names == rt.scopes@[scope as int].variables.keys(),
                before == old(rt).declarations@[d as int].mixed@,
                mixes(
                    before,
                    rt.declarations@[d as int].mixed@,
                    mix_data@.take(i as int),
                    layout_id@,
                    scope,
                    names,
                ),
            decreases mix_data@.len() - i,
        {
            let data = &mix_data[i];
            let args = if data.tied {
                Arc::new(tied_args(&layout_id, &data.args))
            } else {
                share(&data.args)
            };
            let f = FunctionData {
                name: data.name.clone(),
                args,
                body: share(&data.body),
                return_type: data.return_type.clone(),
                scope,
                accesses: Arc::new(rt.scopes[scope].variables.key_list()),
                tied: data.tied,
            };
            let ghost current = rt.declarations@[d as int].mixed@;
            let ghost declarations = rt.declarations@;
            rt.declarations[d].mixed.insert(data.name.clone(), f);
            proof {
                let next = rt.declarations@[d as int].mixed@;
                let shorter = mix_data@.take(i as int);
                let longer = mix_data@.take(i + 1);
                let key = data.name@;
                assert(next == current.insert(key, f));
                assert(longer[i as int] == mix_data@[i as int]);
                assert forall|k: Seq<char>| named_in(longer, k) <==> named_in(shorter, k) || k
                    == key by {
                    if named_in(longer, k) {
                        let j = choose|j: int| 0 <= j < longer.len() && #[trigger] longer[j].name@
                            == k;
                        if j < i {
                            assert(shorter[j].name@ == k);
                        }
                    }
                    if named_in(shorter, k) {
                        let j = choose|j: int|
                            0 <= j < shorter.len() && #[trigger] shorter[j].name@ == k;
                        assert(longer[j].name@ == k);
                    }
                    if k == key {
                        assert(longer[i as int].name@ == k);
                    }
                }
                assert forall|k: Seq<char>| #[trigger]
                    next.contains_key(k) <==> before.contains_key(k) || named_in(longer, k) by {
                    assert(current.contains_key(k) <==> before.contains_key(k) || named_in(
                        shorter,
                        k,
                    ));
                }
                assert forall|k: Seq<char>|
                    before.contains_key(k) && !named_in(longer, k) implies #[trigger] next[k]
                    == before[k] by {
                    assert(!named_in(shorter, k));
                    assert(k != key);
                    assert(current[k] == before[k]);
                }
                assert forall|j: int|
                    0 <= j < longer.len() && last_of_its_name(longer, j) implies is_mixed(
                    next[#[trigger] longer[j].name@],
                    longer[j],
                    layout_id@,
                    scope,
                    names,
                ) by {
                    if j < i {
                        assert(longer[i as int].name@ != longer[j].name@);
                        assert(shorter[j] == longer[j]);
                        assert forall|m: int| j < m < shorter.len() implies #[trigger] shorter[m].name@
                            != shorter[j].name@ by {
                            assert(longer[m].name@ != longer[j].name@);
                        }
                        assert(last_of_its_name(shorter, j));
                        assert(is_mixed(
                            current[shorter[j].name@],
                            shorter[j],
                            layout_id@,
                            scope,
                            names,
                        ));
                        assert(next[longer[j].name@] == current[shorter[j].name@]);
                    } else {
                        assert(j == i);
                        assert(next[key] == f);
                        assert(is_mixed(f, longer[j], layout_id@, scope, names));
                    }
                }
                assert(mixes(before, next, longer, layout_id@, scope, names));
                assert(rt.declarations@ =~= old(rt).declarations@.update(
                    d as int,
                    rt.declarations@[d as int],
                ));
            }
            i = i + 1;
        }
        assert(mix_data@.take(mix_data@.len() as int) =~= mix_data@);
        Ok(())
    }
}

/// A variable that was declared immutable refuses every assignment, from
/// its own scope and from every scope in which its name means it.
pub proof fn law_immutable_variable_refuses_assignment(
    pre: Runtime,
    post: Runtime,
    scope: ScopeId,
    name: Seq<char>,
    type_id: TypeView,
    value: RuntimeValue,
    from: ScopeId,
    other: RuntimeValue,
)
    requires
        pre.declared_in(post, scope, name, type_id, value, true),
        post.owner(from, Table::Variables, name) == Some(scope),
    ensures
        post.assign_outcome(scope, name, other) == Err::<(), EvaluationError>(
            EvaluationError::ImmutableAssignment,
        ),
        post.assign_outcome(from, name, other) == Err::<(), EvaluationError>(
            EvaluationError::ImmutableAssignment,
        ),
{
    assert(post.scopes@[scope as int].variables@.contains_key(name));
    assert(post.owner(scope, Table::Variables, name) == Some(scope));
}

/// A variable that was declared mutable takes a value of the type of its
/// first one, from its own scope and from every scope in which its name
/// means it; and every such scope then reads the new value.
pub proof fn law_mutable_variable_takes_same_typed_value(
    pre: Runtime,
    mid: Runtime,
    post: Runtime,
    scope: ScopeId,
    name: Seq<char>,
    type_id: TypeView,
    value: RuntimeValue,
    from: ScopeId,
    other: RuntimeValue,
    reader: ScopeId,
)
    requires
        RuntimeScope::declare_outcome(type_id, value) is Ok,
        pre.declared_in(mid, scope, name, type_id, value, false),
        type_of(other) == type_of(value),
        from == scope || mid.owner(from, Table::Variables, name) == Some(scope),
        reader == scope || mid.owner(reader, Table::Variables, name) == Some(scope),
        mid.assigns(post, from, name, other),
    ensures
        mid.assign_outcome(from, name, other) is Ok,
        post.variable(reader, name) matches Some(slot) && slot.value == other,
{
    assert(mid.scopes@[scope as int].variables@.contains_key(name));
    assert(mid.owner(scope, Table::Variables, name) == Some(scope));
    assert(mid.owner(from, Table::Variables, name) == Some(scope));
    assert(mid.owner(reader, Table::Variables, name) == Some(scope));
    assert forall|i: int| 0 <= i < mid.scopes@.len() implies mid.scopes@[i].parent
        == post.scopes@[i].parent && mid.scopes@[i].holds(Table::Variables, name)
        == post.scopes@[i].holds(Table::Variables, name) by {
        if i != scope {
            assert(post.scopes@[i] == mid.scopes@[i]);
        }
    }
    mid.lemma_owner_depends_on_names(post, reader, Table::Variables, name);
}

} // verus!
