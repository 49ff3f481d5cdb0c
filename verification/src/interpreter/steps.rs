//! The steps of an evaluation that walk no further node: each says
//! exactly what it gives for the values it is handed.

use crate::collections::StrMap;
use crate::global::{DataType, TypeView};
use crate::interpreter::scope::{
    type_of,
    FunctionData,
    Runtime,
    RuntimeScope,
    Table,
};
use crate::interpreter::structs::{
    ArithmeticOp,
    ComplexRuntimeValue,
    EnumData,
    EvaluationError,
    Host,
    IterablePair,
    Reference,
    RuntimeValue,
    ScopeId,
};
use crate::modules::{Module, ModuleExport, ModuleStorage};
use crate::number::{Number, EXACT_LIMIT};
use crate::parser::structs::{
    ASTNode,
    ExpressionType,
    LayoutDeclaration,
    Operand,
    ParserFunctionData,
};
use crate::util::share;
use std::sync::Arc;
use vstd::prelude::*;

verus! {


/// The truth of a condition: only a boolean is one.
pub fn condition_of(value: &RuntimeValue) -> (r: Result<bool, EvaluationError>)
    ensures
        r == (match *value {
            RuntimeValue::Bool(b) => Ok::<bool, EvaluationError>(b),
            _ => Err::<bool, EvaluationError>(EvaluationError::NonBooleanCondition),
        }),
{
    match value {
        RuntimeValue::Bool(b) => Ok(*b),
        _ => Err(EvaluationError::NonBooleanCondition),
    }
}

/// How often `(operation) ?: count` runs its operation: as often as the
/// floor of the magnitude of `count` says, and at most `u32::MAX` times.
pub open spec fn spec_repeat_count(count: RuntimeValue) -> Result<u32, EvaluationError> {
    match count {
        RuntimeValue::Number(n) => if n.magnitude().floor_count() > u32::MAX {
            Ok(u32::MAX)
        } else {
            Ok(n.magnitude().floor_count() as u32)
        },
        _ => Err(EvaluationError::TypeMismatch),
    }
}

pub fn repeat_count(count: &RuntimeValue) -> (r: Result<u32, EvaluationError>)
    ensures
        r == spec_repeat_count(*count),
{
    match count {
        RuntimeValue::Number(n) => {
            let floor = n.abs().floor_clamped();
            if floor > u32::MAX as u64 {
                Ok(u32::MAX)
            } else {
                Ok(floor as u32)
            }
        },
        _ => Err(EvaluationError::TypeMismatch),
    }
}

/// The number that stands for the place `index` of an iterable.
pub fn index_number(index: usize) -> (r: Result<Number, EvaluationError>)
    ensures
        r is Ok <==> index <= EXACT_LIMIT,
        r matches Ok(n) ==> n.is_integer(index as int),
        r is Err ==> r == Err::<Number, EvaluationError>(EvaluationError::NumberOutOfRange),
{
    if index as u64 > EXACT_LIMIT {
        return Err(EvaluationError::NumberOutOfRange);
    }
    match Number::from_int(index as i64) {
        Some(n) => Ok(n),
        None => Err(EvaluationError::NumberOutOfRange),
    }
}

/// What `left..right` answers: both ends must be numbers whose floors are
/// integers that are numbers.
pub open spec fn range_outcome(left: RuntimeValue, right: RuntimeValue) -> Result<
    (),
    EvaluationError,
> {
    match (left, right) {
        (RuntimeValue::Number(l), RuntimeValue::Number(r)) => if range_is_countable(l, r) {
            Ok(())
        } else {
            Err(EvaluationError::NumberOutOfRange)
        },
        _ => Err(EvaluationError::TypeMismatch),
    }
}

pub open spec fn range_is_countable(l: Number, r: Number) -> bool {
    &&& l.is_finite()
    &&& r.is_finite()
    &&& -(EXACT_LIMIT as int) <= l.floor() <= EXACT_LIMIT as int
    &&& -(EXACT_LIMIT as int) <= r.floor() <= EXACT_LIMIT as int
    &&& r.floor() - l.floor() <= usize::MAX
}

/// The number of pairs of `l..r`: the floor of `r` less the floor of `l`,
/// and none where that is negative.
pub open spec fn range_len(l: Number, r: Number) -> nat {
    if r.floor() > l.floor() {
        (r.floor() - l.floor()) as nat
    } else {
        0
    }
}

/// `pairs` is what `l..r` holds: at each place `i`, the place itself with
/// the integer `i` above the floor of `l`.
pub open spec fn is_range(pairs: Seq<IterablePair>, l: Number, r: Number) -> bool {
    &&& pairs.len() == range_len(l, r)
    &&& forall|i: int|
        0 <= i < pairs.len() ==> (#[trigger] pairs[i]).index == i && (
        pairs[i].value matches RuntimeValue::Number(n) && n.is_integer(l.floor() + i))
}

/// The pairs of the range `left..right`.
pub fn range_pairs(left: &RuntimeValue, right: &RuntimeValue) -> (r: Result<
    Vec<IterablePair>,
    EvaluationError,
>)
    ensures
        r is Ok <==> range_outcome(*left, *right) is Ok,
        r matches Err(e) ==> range_outcome(*left, *right) == Err::<(), EvaluationError>(e),
        r matches Ok(pairs) ==> is_range(pairs@, left->Number_0, right->Number_0),
{
    let (l, r) = match (left, right) {
        (RuntimeValue::Number(l), RuntimeValue::Number(r)) => (*l, *r),
        _ => { return Err(EvaluationError::TypeMismatch); },
    };
    let (first, last) = match (l.floor_to_int(), r.floor_to_int()) {
        (Some(first), Some(last)) => (first, last),
        _ => { return Err(EvaluationError::NumberOutOfRange); },
    };
    let mut pairs: Vec<IterablePair> = Vec::new();
    if last <= first {
        return Ok(pairs);
    }
    let count: u64 = (last - first) as u64;
    if count > usize::MAX as u64 {
        return Err(EvaluationError::NumberOutOfRange);
    }
    let mut i: usize = 0;
    while (i as u64) < count
        invariant
            i <= count,
            count == last - first,
            count <= usize::MAX,
            first == l.floor(),
            last == r.floor(),
            -(EXACT_LIMIT as int) <= first < last <= EXACT_LIMIT as int,
            pairs@.len() == i,
            forall|j: int|
                0 <= j < i ==> (#[trigger] pairs@[j]).index == j && (
                pairs@[j].value matches RuntimeValue::Number(n) && n.is_integer(first + j)),
        decreases count - i,
    {
        let value = match Number::from_int(first + i as i64) {
            Some(n) => n,
            None => Number { bits: 0 },
        };
        pairs.push(IterablePair { index: i, value: RuntimeValue::Number(value) });
        i = i + 1;
    }
    Ok(pairs)
}

/// Whether an operand looks at its two sides at all. An operand that does
/// not gives null, and its sides are not evaluated.
pub open spec fn has_meaning(operand: Operand) -> bool {
    match operand {
        Operand::Equality
        | Operand::Inequality
        | Operand::Plus
        | Operand::Minus
        | Operand::Multiply
        | Operand::Divide
        | Operand::Bigger
        | Operand::Smaller
        | Operand::BiggerEqual
        | Operand::SmallerEqual
        | Operand::DoubleDot => true,
        _ => false,
    }
}

pub fn operand_has_meaning(operand: Operand) -> (r: bool)
    ensures
        r == has_meaning(operand),
{
    match operand {
        Operand::Equality
        | Operand::Inequality
        | Operand::Plus
        | Operand::Minus
        | Operand::Multiply
        | Operand::Divide
        | Operand::Bigger
        | Operand::Smaller
        | Operand::BiggerEqual
        | Operand::SmallerEqual
        | Operand::DoubleDot => true,
        _ => false,
    }
}

/// `out` is what `left operand right` gives, where `number` is what the
/// host computes for two numbers.
pub open spec fn is_binary_result(
    operand: Operand,
    left: RuntimeValue,
    right: RuntimeValue,
    number: Number,
    out: Result<RuntimeValue, EvaluationError>,
) -> bool {
    match operand {
        Operand::Equality => out == Ok::<RuntimeValue, EvaluationError>(
            RuntimeValue::Bool(left.same_value(right)),
        ),
        Operand::Inequality => out == Ok::<RuntimeValue, EvaluationError>(
            RuntimeValue::Bool(!left.same_value(right)),
        ),
        Operand::Plus => out matches Ok(v) && left.is_sum(right, number, v),
        Operand::Minus => out matches Ok(v) && left.is_numeric_result(right, number, v),
        Operand::Multiply => out matches Ok(v) && left.is_product(right, number, v),
        Operand::Divide => out matches Ok(v) && left.is_numeric_result(right, number, v),
        Operand::Bigger => out == Ok::<RuntimeValue, EvaluationError>(
            left.spec_bigger(right, false),
        ),
        Operand::Smaller => out == Ok::<RuntimeValue, EvaluationError>(
            left.spec_smaller(right, false),
        ),
        Operand::BiggerEqual => out == Ok::<RuntimeValue, EvaluationError>(
            left.spec_bigger(right, true),
        ),
        Operand::SmallerEqual => out == Ok::<RuntimeValue, EvaluationError>(
            left.spec_smaller(right, true),
        ),
        Operand::DoubleDot => match out {
            Ok(RuntimeValue::Iterable(pairs)) => range_outcome(left, right) is Ok && is_range(
                pairs@,
                left->Number_0,
                right->Number_0,
            ),
            Ok(_) => false,
            Err(e) => range_outcome(left, right) == Err::<(), EvaluationError>(e),
        },
        _ => out == Ok::<RuntimeValue, EvaluationError>(RuntimeValue::Null),
    }
}

/// What `left operand right` gives, given the number that the host computed
/// for two numbers.
pub fn binary_with(operand: Operand, left: RuntimeValue, right: RuntimeValue, number: Number) -> (out:
    Result<RuntimeValue, EvaluationError>)
    ensures
        is_binary_result(operand, left, right, number, out),
{
    match operand {
        Operand::Equality => Ok(RuntimeValue::Bool(left == right)),
        Operand::Inequality => Ok(RuntimeValue::Bool(!(left == right))),
        Operand::Plus => Ok(left.add_with(right, number)),
        Operand::Minus => Ok(left.numeric_with(right, number)),
        Operand::Multiply => Ok(left.mul_with(right, number)),
        Operand::Divide => Ok(left.numeric_with(right, number)),
        Operand::Bigger => Ok(left.bigger(&right, false)),
        Operand::Smaller => Ok(left.smaller(&right, false)),
        Operand::BiggerEqual => Ok(left.bigger(&right, true)),
        Operand::SmallerEqual => Ok(left.smaller(&right, true)),
        Operand::DoubleDot => match range_pairs(&left, &right) {
            Ok(pairs) => Ok(RuntimeValue::Iterable(Arc::new(pairs))),
            Err(e) => Err(e),
        },
        _ => Ok(RuntimeValue::Null),
    }
}

/// The operation that the host is asked for, for the four operands that
/// compute.
pub open spec fn operation_of(operand: Operand) -> Option<ArithmeticOp> {
    match operand {
        Operand::Plus => Some(ArithmeticOp::Add),
        Operand::Minus => Some(ArithmeticOp::Sub),
        Operand::Multiply => Some(ArithmeticOp::Mul),
        Operand::Divide => Some(ArithmeticOp::Div),
        _ => None,
    }
}

/// `number` stands for what `host` was asked on behalf of `left operand
/// right`: where the operand computes and both sides are numbers, it is an
/// answer of the host to that operation on them; else nothing was asked.
pub open spec fn computed<H: Host>(
    host: H,
    operand: Operand,
    left: RuntimeValue,
    right: RuntimeValue,
    number: Number,
) -> bool {
    match operation_of(operand) {
        Some(op) => left.asked(right, op, host, number),
        None => true,
    }
}

/// What `left operand right` gives. The host computes on two numbers.
pub fn apply_operand<H: Host>(operand: Operand, left: RuntimeValue, right: RuntimeValue, host: &H)
    -> (out: Result<RuntimeValue, EvaluationError>)
    ensures
        exists|number: Number| #[trigger]
            computed(*host, operand, left, right, number) && is_binary_result(
                operand,
                left,
                right,
                number,
                out,
            ),
{
    let op = match operand {
        Operand::Plus => Some(ArithmeticOp::Add),
        Operand::Minus => Some(ArithmeticOp::Sub),
        Operand::Multiply => Some(ArithmeticOp::Mul),
        Operand::Divide => Some(ArithmeticOp::Div),
        _ => None,
    };
    let number = match (op, &left, &right) {
        (Some(op), RuntimeValue::Number(l), RuntimeValue::Number(r)) => host.arithmetic(
            op,
            *l,
            *r,
        ),
        _ => Number { bits: 0 },
    };
    let ghost l = left;
    let ghost r = right;
    let out = binary_with(operand, left, right, number);
    assert(computed(*host, operand, l, r, number) && is_binary_result(operand, l, r, number, out));
    out
}

/// What binding a parameter answers: the type of the argument must be
/// the declared type itself. A nullable parameter takes nothing.
pub open spec fn bind_outcome(rt: Runtime, call_scope: ScopeId, declared: TypeView, value: RuntimeValue)
    -> Result<(), EvaluationError> {
    if call_scope >= rt.scopes@.len() {
        Err(EvaluationError::UnknownScope)
    } else if type_of(value) != declared {
        Err(EvaluationError::TypeMismatch)
    } else {
        Ok(())
    }
}

/// `post` is `pre` after the parameter `name` was bound to `value` in the
/// scope of the call, where that succeeds, and `pre` itself where it
/// fails.
pub open spec fn parameter_post(
    pre: Runtime,
    post: Runtime,
    call_scope: ScopeId,
    name: Seq<char>,
    declared: TypeView,
    value: RuntimeValue,
) -> bool {
    if bind_outcome(pre, call_scope, declared, value) is Ok {
        pre.declared_in(post, call_scope, name, declared, value, true)
    } else {
        post == pre
    }
}

/// Binds the parameter `name` of a call to the argument `value`, as an
/// immutable variable of the scope of the call.
pub fn bind_parameter(
    rt: &mut Runtime,
    call_scope: ScopeId,
    name: &String,
    declared: &DataType,
    value: RuntimeValue,
) -> (r: Result<(), EvaluationError>)
    ensures
        r == bind_outcome(*old(rt), call_scope, declared@, value),
        parameter_post(*old(rt), *final(rt), call_scope, name@, declared@, value),
        *final(rt) == *old(rt) || old(rt).grows_to(*final(rt)),
{
    proof {
        reveal(Runtime::keeps_parents);
    }
    if call_scope >= rt.scopes.len() {
        return Err(EvaluationError::UnknownScope);
    }
    let actual = RuntimeScope::get_value_type(&value);
    if !(actual == *declared) {
        return Err(EvaluationError::TypeMismatch);
    }
    assert(RuntimeScope::declare_outcome(declared@, value) is Ok);
    let _ = rt.scopes[call_scope].declare_variable(name.clone(), declared.clone(), value, true);
    assert(final(rt).scopes@ =~= old(rt).scopes@.update(
        call_scope as int,
        final(rt).scopes@[call_scope as int],
    ));
    Ok(())
}

/// What the check of a return value answers: the return type must take
/// the type of the value.
pub open spec fn return_outcome(value: RuntimeValue, return_type: TypeView) -> Result<
    (),
    EvaluationError,
> {
    if return_type.matches(type_of(value)) {
        Ok(())
    } else {
        Err(EvaluationError::TypeMismatch)
    }
}

/// Whether a function may give `value`: its return type must take the
/// type of the value.
pub fn check_return(value: &RuntimeValue, return_type: &DataType) -> (r: Result<
    (),
    EvaluationError,
>)
    ensures
        r == return_outcome(*value, return_type@),
{
    let actual = RuntimeScope::get_value_type(value);
    if return_type.matches(&actual) {
        Ok(())
    } else {
        Err(EvaluationError::TypeMismatch)
    }
}

/// Whether `entries` holds a string of the characters of `entry`.
pub fn has_entry(entries: &Vec<String>, entry: &String) -> (r: bool)
    ensures
        r == crate::collections::names_of(entries@).contains(entry@),
{
    let mut i: usize = 0;
    while i < entries.len()
        invariant
            i <= entries@.len(),
            forall|j: int| 0 <= j < i ==> entries@[j]@ != entry@,
        decreases entries@.len() - i,
    {
        if entries[i] == *entry {
            assert(crate::collections::names_of(entries@)[i as int] == entry@);
            return true;
        }
        i = i + 1;
    }
    false
}

/// A list of the same strings.
pub fn clone_strings(strings: &Vec<String>) -> (r: Vec<String>)
    ensures
        r@ == strings@,
{
    let mut r: Vec<String> = Vec::new();
    let mut i: usize = 0;
    while i < strings.len()
        invariant
            i <= strings@.len(),
            r@ == strings@.take(i as int),
        decreases strings@.len() - i,
    {
        r.push(strings[i].clone());
        assert(r@ =~= strings@.take(i + 1));
        i = i + 1;
    }
    assert(strings@.take(strings@.len() as int) =~= strings@);
    r
}

impl Runtime {
    /// What the identifier `name` means in `scope`: the value of a variable
    /// of that name, else a reference to a function of that name.
    pub open spec fn identifier_value(self, scope: ScopeId, name: Seq<char>) -> Result<
        RuntimeValue,
        EvaluationError,
    > {
        match self.variable(scope, name) {
            Some(slot) => Ok(slot.value),
            None => match self.function(scope, name) {
                Some(f) => Ok(RuntimeValue::Reference(Reference::Function(f))),
                None => Err(EvaluationError::UndeclaredFunction),
            },
        }
    }

    /// What `name->entry` means in `scope`: an entry of the enum `name`,
    /// else a method of the layout `name` that is not tied.
    pub open spec fn complex_type_access(self, scope: ScopeId, name: String, entry: String)
        -> Result<RuntimeValue, EvaluationError> {
        match self.enum_data(scope, name@) {
            Some(e) => if crate::collections::names_of(e.entries@).contains(entry@) {
                Ok(
                    RuntimeValue::Complex(
                        ComplexRuntimeValue::Enum(EnumData { enum_id: name, entry: entry }),
                    ),
                )
            } else {
                Err(EvaluationError::UnknownField)
            },
            None => match self.layout(scope, name@) {
                Some(d) => if d < self.declarations@.len()
                    && self.declarations@[d as int].mixed@.contains_key(entry@) {
                    let f = self.declarations@[d as int].mixed@[entry@];
                    if f.tied {
                        Err(EvaluationError::NotCallable)
                    } else {
                        Ok(RuntimeValue::Reference(Reference::Function(f)))
                    }
                } else {
                    Err(EvaluationError::UndeclaredFunction)
                },
                None => Err(EvaluationError::UndeclaredEnum),
            },
        }
    }

    /// What `receiver.field` means in `scope`: a tied method of the layout of
    /// the instance that the variable `receiver` holds, bound to that
    /// variable; else the value of the field of the instance. A method that
    /// is not tied is out of reach here.
    pub open spec fn field_access(self, scope: ScopeId, receiver: String, field: Seq<char>)
        -> Result<RuntimeValue, EvaluationError> {
        match self.variable(scope, receiver@) {
            None => Err(EvaluationError::UndeclaredVariable),
            Some(slot) => match slot.value {
                RuntimeValue::Complex(ComplexRuntimeValue::Layout(data)) => {
                    match self.method(scope, data.layout_id@, field) {
                        Some(f) => if f.tied {
                            Ok(
                                RuntimeValue::Reference(
                                    Reference::MethodLikeFunction(f, receiver, scope),
                                ),
                            )
                        } else {
                            Err(EvaluationError::UnknownField)
                        },
                        None => match self.field(data.entries, field) {
                            Some(v) => Ok(v),
                            None => Err(EvaluationError::UnknownField),
                        },
                    }
                },
                _ => Err(EvaluationError::TypeMismatch),
            },
        }
    }

    /// The method `name` that was mixed into the layout that `layout_id`
    /// means in `scope`.
    pub open spec fn method(self, scope: ScopeId, layout_id: Seq<char>, name: Seq<char>) -> Option<
        FunctionData,
    > {
        match self.layout(scope, layout_id) {
            Some(d) => if d < self.declarations@.len()
                && self.declarations@[d as int].mixed@.contains_key(name) {
                Some(self.declarations@[d as int].mixed@[name])
            } else {
                None
            },
            None => None,
        }
    }

    /// What assigning to `receiver.field` answers.
    pub open spec fn field_assignment(self, scope: ScopeId, receiver: Seq<char>, field: Seq<char>)
        -> Result<usize, EvaluationError> {
        match self.variable(scope, receiver) {
            None => Err(EvaluationError::UndeclaredVariable),
            Some(slot) => match slot.value {
                RuntimeValue::Complex(ComplexRuntimeValue::Layout(data)) => if self.field(
                    data.entries,
                    field,
                ) is Some {
                    Ok(data.entries)
                } else {
                    Err(EvaluationError::UnknownField)
                },
                _ => Err(EvaluationError::TypeMismatch),
            },
        }
    }

    /// `later` holds everything that `self` holds: no table has shrunk, and
    /// no scope has changed its parent.
    pub open spec fn grows_to(self, later: Runtime) -> bool {
        &&& self.scopes@.len() <= later.scopes@.len()
        &&& self.declarations@.len() <= later.declarations@.len()
        &&& self.instances@.len() <= later.instances@.len()
        &&& self.keeps_parents(later)
    }

    /// Every scope of `self` has, in `later`, the parent that it has in
    /// `self`.
    #[verifier::opaque]
    pub open spec fn keeps_parents(self, later: Runtime) -> bool {
        forall|i: int|
            0 <= i < self.scopes@.len() && i < later.scopes@.len() ==> (
            #[trigger] later.scopes@[i]).parent == self.scopes@[i].parent
    }
}

/// The value of the identifier `name` in `scope`.
pub fn get_identifier_value(rt: &Runtime, scope: ScopeId, name: &String) -> (r: Result<
    RuntimeValue,
    EvaluationError,
>)
    ensures
        r == rt.identifier_value(scope, name@),
{
    match RuntimeScope::read_variable(rt, scope, name) {
        Some(v) => Ok(v),
        None => match RuntimeScope::get_function(rt, scope, name) {
            Some(f) => Ok(RuntimeValue::Reference(Reference::Function(f))),
            None => Err(EvaluationError::UndeclaredFunction),
        },
    }
}

/// The value of `name->entry` in `scope`.
pub fn eval_complex_type_access(rt: &Runtime, scope: ScopeId, name: &String, entry: &String) -> (r:
    Result<RuntimeValue, EvaluationError>)
    ensures
        r == rt.complex_type_access(scope, *name, *entry),
{
    match RuntimeScope::get_enum_data(rt, scope, name) {
        Some(e) => {
            if has_entry(&e.entries, entry) {
                Ok(
                    RuntimeValue::Complex(
                        ComplexRuntimeValue::Enum(
                            EnumData { enum_id: name.clone(), entry: entry.clone() },
                        ),
                    ),
                )
            } else {
                Err(EvaluationError::UnknownField)
            }
        },
        None => match RuntimeScope::get_layout_declaration(rt, scope, name) {
            Some(d) => {
                if d >= rt.declarations.len() {
                    return Err(EvaluationError::UndeclaredFunction);
                }
                match rt.declarations[d].mixed.get(entry) {
                    None => Err(EvaluationError::UndeclaredFunction),
                    Some(f) => if f.tied {
                        Err(EvaluationError::NotCallable)
                    } else {
                        Ok(RuntimeValue::Reference(Reference::Function(f.clone())))
                    },
                }
            },
            None => Err(EvaluationError::UndeclaredEnum),
        },
    }
}

/// The value of `receiver.field` in `scope`.
pub fn eval_layout_field_access(rt: &Runtime, scope: ScopeId, receiver: &String, field: &String)
    -> (r: Result<RuntimeValue, EvaluationError>)
    ensures
        r == rt.field_access(scope, *receiver, field@),
{
    let variable = match RuntimeScope::read_variable(rt, scope, receiver) {
        Some(v) => v,
        None => { return Err(EvaluationError::UndeclaredVariable); },
    };
    let data = match variable {
        RuntimeValue::Complex(ComplexRuntimeValue::Layout(data)) => data,
        _ => { return Err(EvaluationError::TypeMismatch); },
    };
    let method = match RuntimeScope::get_layout_declaration(rt, scope, &data.layout_id) {
        Some(d) => if d < rt.declarations.len() {
            rt.declarations[d].mixed.get(field)
        } else {
            None
        },
        None => None,
    };
    match method {
        Some(f) => if f.tied {
            Ok(
                RuntimeValue::Reference(
                    Reference::MethodLikeFunction(f.clone(), receiver.clone(), scope),
                ),
            )
        } else {
            Err(EvaluationError::UnknownField)
        },
        None => match rt.read_field(data.entries, field) {
            Some(v) => Ok(v),
            None => Err(EvaluationError::UnknownField),
        },
    }
}

/// `post` is `pre` after `value` was assigned to `receiver.field`, where
/// that succeeds, and `pre` itself where it fails.
pub open spec fn field_assign_post(
    pre: Runtime,
    post: Runtime,
    scope: ScopeId,
    receiver: Seq<char>,
    field: Seq<char>,
    value: RuntimeValue,
) -> bool {
    match pre.field_assignment(scope, receiver, field) {
        Ok(instance) => pre.writes(post, instance, field, value),
        Err(_) => post == pre,
    }
}

/// Sets field `field` of the layout instance that the variable `receiver`
/// holds in `scope`.
pub fn assign_layout_field(
    rt: &mut Runtime,
    scope: ScopeId,
    receiver: &String,
    field: String,
    value: RuntimeValue,
) -> (r: Result<(), EvaluationError>)
    ensures
        r == (match old(rt).field_assignment(scope, receiver@, field@) {
            Ok(_) => Ok::<(), EvaluationError>(()),
            Err(e) => Err::<(), EvaluationError>(e),
        }),
        field_assign_post(*old(rt), *final(rt), scope, receiver@, field@, value),
{
    let variable = match RuntimeScope::read_variable(rt, scope, receiver) {
        Some(v) => v,
        None => { return Err(EvaluationError::UndeclaredVariable); },
    };
    let data = match variable {
        RuntimeValue::Complex(ComplexRuntimeValue::Layout(data)) => data,
        _ => { return Err(EvaluationError::TypeMismatch); },
    };
    rt.write_field(data.entries, field, value)
}

/// What a node gives that holds no other node and declares nothing: its
/// value is read off the runtime.
pub open spec fn leaf_value(rt: Runtime, src: ASTNode, scope: ScopeId) -> Option<
    Result<RuntimeValue, EvaluationError>,
> {
    match src {
        ASTNode::Expression(ExpressionType::Null) => Some(Ok(RuntimeValue::Null)),
        ASTNode::Expression(ExpressionType::Binary(e)) => if has_meaning(e.operand) {
            None
        } else {
            Some(Ok(RuntimeValue::Null))
        },
        ASTNode::Number(n) => Some(Ok(RuntimeValue::Number(n))),
        ASTNode::String(s) => Some(Ok(RuntimeValue::String(s))),
        ASTNode::Boolean(b) => Some(Ok(RuntimeValue::Bool(b))),
        ASTNode::Identifier(name) => Some(rt.identifier_value(scope, name@)),
        ASTNode::BindingAccess(name) => Some(
            match rt.binding(scope, name@) {
                Some(v) => Ok(v),
                None => Err(EvaluationError::UnboundBinding),
            },
        ),
        ASTNode::ComplexTypeAccessor(name, entry) => Some(
            rt.complex_type_access(scope, name, entry),
        ),
        ASTNode::LayoutFieldAccess(receiver, field) => Some(
            rt.field_access(scope, receiver, field@),
        ),
        ASTNode::Misc(_) => Some(Err(EvaluationError::UnsupportedNode)),
        ASTNode::InternalMulti(_) => Some(Err(EvaluationError::UnsupportedNode)),
        ASTNode::InternalStop(_, _) => Some(Err(EvaluationError::UnsupportedNode)),
        _ => None,
    }
}

/// What declaring a variable in `scope` answers.
pub open spec fn declare_result(rt: Runtime, scope: ScopeId, type_id: TypeView, value: RuntimeValue)
    -> Result<(), EvaluationError> {
    if scope >= rt.scopes@.len() {
        Err(EvaluationError::UnknownScope)
    } else {
        RuntimeScope::declare_outcome(type_id, value)
    }
}

/// `post` is `pre` after the variable `name` was declared in `scope`, where
/// that succeeds, and `pre` itself where it fails.
pub open spec fn declare_post(
    pre: Runtime,
    post: Runtime,
    scope: ScopeId,
    name: Seq<char>,
    type_id: TypeView,
    value: RuntimeValue,
    is_immut: bool,
) -> bool {
    if declare_result(pre, scope, type_id, value) is Ok {
        pre.declared_in(post, scope, name, type_id, value, is_immut)
    } else {
        post == pre
    }
}

/// Declares the variable `name` in the scope `scope` of the runtime.
pub fn declare_in(
    rt: &mut Runtime,
    scope: ScopeId,
    name: String,
    type_id: DataType,
    value: RuntimeValue,
    is_immut: bool,
) -> (r: Result<(), EvaluationError>)
    ensures
        r == declare_result(*old(rt), scope, type_id@, value),
        declare_post(*old(rt), *final(rt), scope, name@, type_id@, value, is_immut),
        old(rt).grows_to(*final(rt)),
{
    proof {
        reveal(Runtime::keeps_parents);
    }
    if scope >= rt.scopes.len() {
        return Err(EvaluationError::UnknownScope);
    }
    if !takes(&type_id, &value) {
        return Err(EvaluationError::TypeMismatch);
    }
    let _ = rt.scopes[scope].declare_variable(name, type_id, value, is_immut);
    assert(final(rt).scopes@ =~= old(rt).scopes@.update(
        scope as int,
        final(rt).scopes@[scope as int],
    ));
    Ok(())
}

/// Whether a variable declared with `type_id` may start with `value`.
pub fn takes(type_id: &DataType, value: &RuntimeValue) -> (r: bool)
    ensures
        r == RuntimeScope::declare_outcome(type_id@, *value) is Ok,
{
    let infer = DataType::InternalInfer;
    *type_id == infer || type_id.matches(&RuntimeScope::get_value_type(value))
}

/// `post` is `pre` after the loop binding `name` was set to `value` in
/// `scope`.
pub open spec fn bind_post(
    pre: Runtime,
    post: Runtime,
    scope: ScopeId,
    name: Seq<char>,
    value: RuntimeValue,
) -> bool {
    &&& pre.same_but_scope(post, scope)
    &&& post.scopes@[scope as int].bindings@ == pre.scopes@[scope as int].bindings@.insert(
        name,
        value,
    )
    &&& post.scopes@[scope as int].same_but(pre.scopes@[scope as int], Table::Bindings)
}

/// Sets the loop binding `name` in the scope `scope` of the runtime.
pub fn bind_in(rt: &mut Runtime, scope: ScopeId, name: String, value: RuntimeValue)
    requires
        scope < old(rt).scopes@.len(),
    ensures
        bind_post(*old(rt), *final(rt), scope, name@, value),
        old(rt).grows_to(*final(rt)),
{
    proof {
        reveal(Runtime::keeps_parents);
    }
    rt.scopes[scope].assign_binding(name, value);
    assert(final(rt).scopes@ =~= old(rt).scopes@.update(
        scope as int,
        final(rt).scopes@[scope as int],
    ));
}

/// `post` is `pre` after the scope `scope` has kept `export` as what it
/// imported under `symbol`; `pre` itself where there is no such scope.
pub open spec fn import_post(
    pre: Runtime,
    post: Runtime,
    scope: ScopeId,
    symbol: Seq<char>,
    export: ModuleExport,
) -> bool {
    if scope < pre.scopes@.len() {
        &&& pre.same_but_scope(post, scope)
        &&& post.scopes@[scope as int].imports@ == pre.scopes@[scope as int].imports@.insert(
            symbol,
            export,
        )
        &&& post.scopes@[scope as int].same_but(pre.scopes@[scope as int], Table::Imports)
    } else {
        post == pre
    }
}

/// Keeps `export` as what the scope `scope` of the runtime has imported
/// under `symbol`.
pub fn import_in(rt: &mut Runtime, scope: ScopeId, symbol: String, export: ModuleExport) -> (r:
    Result<(), EvaluationError>)
    ensures
        r == (if scope < old(rt).scopes@.len() {
            Ok::<(), EvaluationError>(())
        } else {
            Err::<(), EvaluationError>(EvaluationError::UnknownScope)
        }),
        import_post(*old(rt), *final(rt), scope, symbol@, export),
        old(rt).grows_to(*final(rt)),
{
    proof {
        reveal(Runtime::keeps_parents);
    }
    if scope >= rt.scopes.len() {
        return Err(EvaluationError::UnknownScope);
    }
    rt.scopes[scope].import(symbol, export);
    assert(final(rt).scopes@ =~= old(rt).scopes@.update(
        scope as int,
        final(rt).scopes@[scope as int],
    ));
    Ok(())
}

impl Runtime {
    /// `later` is `self` with one more scope, `id`, which is empty and lies
    /// within `parent`.
    pub open spec fn opens(self, later: Runtime, parent: ScopeId, id: ScopeId) -> bool {
        &&& parent < self.scopes@.len()
        &&& id == self.scopes@.len()
        &&& later.scopes@.len() == id + 1
        &&& later.scopes@.subrange(0, id as int) == self.scopes@
        &&& later.scopes@[id as int].parent == Some(parent)
        &&& forall|t: Table, k: Seq<char>| !later.scopes@[id as int].holds(t, k)
        &&& later.declarations == self.declarations
        &&& later.instances == self.instances
    }

    /// A scope keeps what a name means in it when younger scopes are
    /// added.
    pub proof fn lemma_owner_in_older_scopes(
        self,
        later: Runtime,
        from: ScopeId,
        table: Table,
        name: Seq<char>,
    )
        requires
            self.scopes@.len() <= later.scopes@.len(),
            later.scopes@.subrange(0, self.scopes@.len() as int) == self.scopes@,
            from < self.scopes@.len(),
        ensures
            later.owner(from, table, name) == self.owner(from, table, name),
            later.root(from) == self.root(from),
            self.owner(from, table, name) matches Some(o) ==> o < self.scopes@.len(),
            self.root(from) matches Some(o) ==> o < self.scopes@.len(),
        decreases from,
    {
        assert(later.scopes@[from as int] == later.scopes@.subrange(
            0,
            self.scopes@.len() as int,
        )[from as int]);
        match self.parent_of(from) {
            Some(p) => {
                self.lemma_owner_in_older_scopes(later, p, table, name);
            },
            None => {},
        }
    }
}

/// What opening a scope within `parent` answers: the handle of the new
/// scope.
pub open spec fn open_result(rt: Runtime, parent: ScopeId) -> Result<ScopeId, EvaluationError> {
    if parent < rt.scopes@.len() {
        Ok(rt.scopes@.len() as ScopeId)
    } else {
        Err(EvaluationError::UnknownScope)
    }
}

/// `post` is `pre` with one more scope, which is empty and lies within
/// `parent`; `pre` itself where there is no scope `parent`.
pub open spec fn open_post(pre: Runtime, post: Runtime, parent: ScopeId) -> bool {
    if parent < pre.scopes@.len() {
        pre.opens(post, parent, pre.scopes@.len() as ScopeId)
    } else {
        post == pre
    }
}

/// The scope in which a call of `function` runs the body: a new scope
/// within the scope in which the function was declared. The caller's scope
/// has no part in it.
pub fn call_scope(rt: &mut Runtime, function: &FunctionData) -> (r: Result<ScopeId, EvaluationError>)
    ensures
        r == open_result(*old(rt), function.scope),
        open_post(*old(rt), *final(rt), function.scope),
        old(rt).grows_to(*final(rt)),
{
    proof {
        reveal(Runtime::keeps_parents);
    }
    let r = RuntimeScope::arc_rwlock_new(rt, Some(function.scope));
    proof {
        if r is Ok {
            let id = r->Ok_0;
            assert forall|i: int| 0 <= i < old(rt).scopes@.len() implies (
            #[trigger] final(rt).scopes@[i]).parent == old(rt).scopes@[i].parent by {
                assert(final(rt).scopes@[i] == final(rt).scopes@.subrange(0, id as int)[i]);
            }
        }
    }
    r
}

/// Whatever a name means in the scope where a function was declared, it
/// means in the scope of each call of the function: its variables, its
/// functions, its bindings, its enums, its layouts and its imports. The
/// scope of the caller decides nothing.
pub proof fn law_call_sees_declaring_scope(
    rt: Runtime,
    later: Runtime,
    function: FunctionData,
    id: ScopeId,
    table: Table,
    name: Seq<char>,
)
    requires
        rt.opens(later, function.scope, id),
    ensures
        later.owner(id, table, name) == rt.owner(function.scope, table, name),
        later.root(id) == rt.root(function.scope),
        later.variable(id, name) == rt.variable(function.scope, name),
        later.function(id, name) == rt.function(function.scope, name),
{
    assert(later.parent_of(id) == Some(function.scope));
    assert(!later.scopes@[id as int].holds(table, name));
    assert(!later.scopes@[id as int].holds(Table::Variables, name));
    assert(!later.scopes@[id as int].holds(Table::Functions, name));
    rt.lemma_owner_in_older_scopes(later, function.scope, table, name);
    rt.lemma_owner_in_older_scopes(later, function.scope, Table::Variables, name);
    rt.lemma_owner_in_older_scopes(later, function.scope, Table::Functions, name);
    assert forall|i: int| 0 <= i < rt.scopes@.len() implies later.scopes@[i] == rt.scopes@[i] by {
        assert(later.scopes@[i] == later.scopes@.subrange(0, id as int)[i]);
    }
    assert(later.owner(id, Table::Variables, name) == rt.owner(
        function.scope,
        Table::Variables,
        name,
    ));
    assert(later.owner(id, Table::Functions, name) == rt.owner(
        function.scope,
        Table::Functions,
        name,
    ));
    assert(later.imported(id, name) == rt.imported(function.scope, name));
}

/// Adds the scope `scope` to the runtime, and gives its handle.
pub fn push_scope(rt: &mut Runtime, scope: RuntimeScope) -> (id: ScopeId)
    ensures
        id == old(rt).scopes@.len(),
        final(rt).scopes@ == old(rt).scopes@.push(scope),
        final(rt).declarations == old(rt).declarations,
        final(rt).instances == old(rt).instances,
        old(rt).grows_to(*final(rt)),
{
    proof {
        reveal(Runtime::keeps_parents);
    }
    let id = rt.scopes.len();
    rt.scopes.push(scope);
    id
}

/// Assigns `value` to the variable that `name` means in `scope`.
pub fn assign_in(rt: &mut Runtime, scope: ScopeId, name: String, value: RuntimeValue) -> (r: Result<
    (),
    EvaluationError,
>)
    ensures
        r == old(rt).assign_outcome(scope, name@, value),
        r is Ok ==> old(rt).assigns(*final(rt), scope, name@, value),
        r is Err ==> *final(rt) == *old(rt),
        old(rt).grows_to(*final(rt)),
{
    proof {
        reveal(Runtime::keeps_parents);
    }
    RuntimeScope::assign_variable(rt, scope, name, value)
}

/// Sets field `field` of the layout instance that the variable `receiver`
/// holds in `scope`.
pub fn assign_field_in(
    rt: &mut Runtime,
    scope: ScopeId,
    receiver: &String,
    field: String,
    value: RuntimeValue,
) -> (r: Result<(), EvaluationError>)
    ensures
        r == (match old(rt).field_assignment(scope, receiver@, field@) {
            Ok(_) => Ok::<(), EvaluationError>(()),
            Err(e) => Err::<(), EvaluationError>(e),
        }),
        field_assign_post(*old(rt), *final(rt), scope, receiver@, field@, value),
        old(rt).grows_to(*final(rt)),
{
    proof {
        reveal(Runtime::keeps_parents);
    }
    assign_layout_field(rt, scope, receiver, field, value)
}

/// Opens a new scope within `parent`.
pub fn open_scope(rt: &mut Runtime, parent: ScopeId) -> (r: Result<ScopeId, EvaluationError>)
    ensures
        r == open_result(*old(rt), parent),
        open_post(*old(rt), *final(rt), parent),
        old(rt).grows_to(*final(rt)),
{
    let r = RuntimeScope::arc_rwlock_new(rt, Some(parent));
    proof {
        reveal(Runtime::keeps_parents);
        if r is Ok {
            let id = r->Ok_0;
            assert forall|i: int| 0 <= i < old(rt).scopes@.len() implies (
            #[trigger] final(rt).scopes@[i]).parent == old(rt).scopes@[i].parent by {
                assert(final(rt).scopes@[i] == final(rt).scopes@.subrange(0, id as int)[i]);
            }
        }
    }
    r
}

/// Declares the layout `layout_info` in `scope`.
pub fn declare_layout_in(rt: &mut Runtime, scope: ScopeId, layout_info: LayoutDeclaration) -> (r:
    Result<RuntimeValue, EvaluationError>)
    ensures
        r == (if scope < old(rt).scopes@.len() {
            Ok::<RuntimeValue, EvaluationError>(RuntimeValue::Null)
        } else {
            Err::<RuntimeValue, EvaluationError>(EvaluationError::UnknownScope)
        }),
        old(rt).layout_declared(*final(rt), scope, layout_info),
        old(rt).grows_to(*final(rt)),
{
    proof {
        reveal(Runtime::keeps_parents);
    }
    match RuntimeScope::declare_layout(rt, scope, layout_info) {
        Ok(()) => Ok(RuntimeValue::Null),
        Err(e) => Err(e),
    }
}

/// Mixes the functions `mix` into the layout `layout_id` of `scope`.
pub fn mix_in(rt: &mut Runtime, scope: ScopeId, layout_id: String, mix: &Vec<ParserFunctionData>)
    -> (r: Result<RuntimeValue, EvaluationError>)
    ensures
        r == (if old(rt).mix_target(scope, layout_id@) is Some {
            Ok::<RuntimeValue, EvaluationError>(RuntimeValue::Null)
        } else {
            Err::<RuntimeValue, EvaluationError>(EvaluationError::UndeclaredLayout)
        }),
        old(rt).mixed_into(*final(rt), scope, layout_id@, mix@),
        old(rt).grows_to(*final(rt)),
{
    proof {
        reveal(Runtime::keeps_parents);
    }
    match RuntimeScope::mix_into_layout(rt, scope, layout_id, mix) {
        Ok(()) => Ok(RuntimeValue::Null),
        Err(e) => Err(e),
    }
}

/// Makes a layout instance with the fields `fields`.
pub fn make_instance(rt: &mut Runtime, fields: StrMap<RuntimeValue>) -> (id: usize)
    ensures
        id == old(rt).instances@.len(),
        final(rt).instances@ == old(rt).instances@.push(fields),
        final(rt).scopes == old(rt).scopes,
        final(rt).declarations == old(rt).declarations,
        old(rt).grows_to(*final(rt)),
{
    proof {
        reveal(Runtime::keeps_parents);
    }
    rt.new_instance(fields)
}

impl Runtime {
    /// Nothing grows to itself.
    pub proof fn lemma_grows_to_itself(self)
        ensures
            self.grows_to(self),
    {
        reveal(Runtime::keeps_parents);
    }

    /// Growing is transitive.
    pub proof fn lemma_grows_on(self, middle: Runtime, later: Runtime)
        requires
            self.grows_to(middle),
            middle.grows_to(later),
        ensures
            self.grows_to(later),
    {
        reveal(Runtime::keeps_parents);
        assert forall|i: int| 0 <= i < self.scopes@.len() implies (
        #[trigger] later.scopes@[i]).parent == self.scopes@[i].parent by {
            assert(middle.scopes@[i].parent == self.scopes@[i].parent);
        }
    }
}

/// Whether a condition of a `once` statement is the boolean `true`.
pub fn first_that_holds(condition: &RuntimeValue) -> (r: bool)
    ensures
        r == (*condition matches RuntimeValue::Bool(true)),
{
    match condition {
        RuntimeValue::Bool(b) => *b,
        _ => false,
    }
}

/// The name of the type of `value`, as a string of the language.
pub fn type_name_of(value: &RuntimeValue) -> (r: RuntimeValue)
    ensures
        r matches RuntimeValue::String(s) && s@ == type_of(*value).name(),
{
    proof {
        crate::interpreter::scope::lemma_type_of_is_concrete(*value);
    }
    RuntimeValue::String(RuntimeScope::get_value_type(value).to_string())
}

/// Whether `fields` has a value for every field of `declared`.
pub fn covers<V, W>(declared: &StrMap<V>, fields: &StrMap<W>) -> (r: bool)
    ensures
        r == (forall|k: Seq<char>| declared@.contains_key(k) ==> fields@.contains_key(k)),
{
    let n = declared.len();
    let mut i: usize = 0;
    while i < n
        invariant
            i <= n,
            n == declared.keys().len(),
            forall|k: Seq<char>| #[trigger]
                declared@.contains_key(k) <==> declared.keys().contains(k),
            forall|j: int| 0 <= j < i ==> fields@.contains_key(#[trigger] declared.keys()[j]),
        decreases n - i,
    {
        if !fields.contains_key(declared.key_at(i)) {
            return false;
        }
        i = i + 1;
    }
    assert forall|k: Seq<char>| declared@.contains_key(k) implies fields@.contains_key(k) by {
        assert(declared.keys().contains(k));
        let j = choose|j: int| 0 <= j < declared.keys().len() && declared.keys()[j] == k;
        assert(fields@.contains_key(declared.keys()[j]));
    }
    true
}

/// `post` and `r` are what declaring the function `identifier` in `scope`
/// leaves and gives: the body must be a code block and the scope must be
/// there; then the scope holds the function, which sees that scope and
/// keeps the names of its variables.
pub open spec fn fn_declaration_post(
    pre: Runtime,
    post: Runtime,
    identifier: String,
    args: Arc<crate::interpreter::scope::FnArgs>,
    body: ASTNode,
    scope: ScopeId,
    return_type: DataType,
    r: Result<RuntimeValue, EvaluationError>,
) -> bool {
    if !(body is CodeBlock) {
        r == Err::<RuntimeValue, EvaluationError>(EvaluationError::UnsupportedNode) && post == pre
    } else if scope >= pre.scopes@.len() {
        r == Err::<RuntimeValue, EvaluationError>(EvaluationError::UnknownScope) && post == pre
    } else {
        let before = pre.scopes@[scope as int];
        let after = post.scopes@[scope as int];
        let f = after.functions@[identifier@];
        &&& r == Ok::<RuntimeValue, EvaluationError>(RuntimeValue::Null)
        &&& pre.same_but_scope(post, scope)
        &&& after.same_but(before, Table::Functions)
        &&& after.functions@ == before.functions@.insert(identifier@, f)
        &&& f.name == identifier
        &&& f.args == args
        &&& f.body == body->CodeBlock_0
        &&& f.return_type == return_type
        &&& f.scope == scope
        &&& !f.tied
        &&& crate::collections::names_of(f.accesses@) == before.variables.keys()
    }
}

/// Declares the function `identifier` in `scope`. The body must be a code
/// block.
pub fn eval_fn_declaration(
    rt: &mut Runtime,
    identifier: &String,
    args: &Arc<crate::interpreter::scope::FnArgs>,
    body: &ASTNode,
    scope: ScopeId,
    return_type: &DataType,
) -> (r: Result<RuntimeValue, EvaluationError>)
    ensures
        fn_declaration_post(
            *old(rt),
            *final(rt),
            *identifier,
            *args,
            *body,
            scope,
            *return_type,
            r,
        ),
        old(rt).grows_to(*final(rt)),
{
    proof {
        reveal(Runtime::keeps_parents);
    }
    match body {
        ASTNode::CodeBlock(code) => {
            match RuntimeScope::declare_function(
                rt,
                scope,
                identifier.clone(),
                share(args),
                share(code),
                return_type.clone(),
            ) {
                Ok(()) => Ok(RuntimeValue::Null),
                Err(e) => Err(e),
            }
        },
        _ => Err(EvaluationError::UnsupportedNode),
    }
}

/// `post` and `r` are what `use native` leaves and gives: the scope lets
/// `name` stand for the path `from`.
pub open spec fn native_definition_post(
    pre: Runtime,
    post: Runtime,
    name: String,
    from: String,
    scope: ScopeId,
    r: Result<RuntimeValue, EvaluationError>,
) -> bool {
    if scope >= pre.scopes@.len() {
        r == Err::<RuntimeValue, EvaluationError>(EvaluationError::UnknownScope) && post == pre
    } else {
        let before = pre.scopes@[scope as int];
        let after = post.scopes@[scope as int];
        &&& r == Ok::<RuntimeValue, EvaluationError>(RuntimeValue::Null)
        &&& pre.same_but_scope(post, scope)
        &&& after.same_but(before, Table::DefinedNativeFunctions)
        &&& after.defined_native_functions@ == before.defined_native_functions@.insert(
            name@,
            from,
        )
    }
}

/// Lets `name` stand for the native path `from` in `scope`.
pub fn eval_define_native_fn(rt: &mut Runtime, name: &String, from: &String, scope: ScopeId) -> (r:
    Result<RuntimeValue, EvaluationError>)
    ensures
        native_definition_post(*old(rt), *final(rt), *name, *from, scope, r),
        old(rt).grows_to(*final(rt)),
{
    proof {
        reveal(Runtime::keeps_parents);
    }
    if scope >= rt.scopes.len() {
        return Err(EvaluationError::UnknownScope);
    }
    rt.scopes[scope].define_native_function(name.clone(), from.clone());
    assert(final(rt).scopes@ =~= old(rt).scopes@.update(
        scope as int,
        final(rt).scopes@[scope as int],
    ));
    Ok(RuntimeValue::Null)
}

/// The value of the loop binding `^name` in `scope`.
pub fn eval_binding_access(rt: &Runtime, name: &String, scope: ScopeId) -> (r: Result<
    RuntimeValue,
    EvaluationError,
>)
    ensures
        r == (match rt.binding(scope, name@) {
            Some(v) => Ok::<RuntimeValue, EvaluationError>(v),
            None => Err::<RuntimeValue, EvaluationError>(EvaluationError::UnboundBinding),
        }),
{
    match RuntimeScope::get_binding(rt, scope, name) {
        Some(v) => Ok(v),
        None => Err(EvaluationError::UnboundBinding),
    }
}

/// `post` and `r` are what declaring the enum `name` in `scope` leaves and
/// gives.
pub open spec fn enum_declaration_post(
    pre: Runtime,
    post: Runtime,
    name: String,
    entries: Seq<String>,
    scope: ScopeId,
    r: Result<RuntimeValue, EvaluationError>,
) -> bool {
    if scope >= pre.scopes@.len() {
        r == Err::<RuntimeValue, EvaluationError>(EvaluationError::UnknownScope) && post == pre
    } else {
        let before = pre.scopes@[scope as int];
        let after = post.scopes@[scope as int];
        &&& r == Ok::<RuntimeValue, EvaluationError>(RuntimeValue::Null)
        &&& pre.same_but_scope(post, scope)
        &&& after.same_but(before, Table::Enums)
        &&& after.enums@ == before.enums@.insert(name@, after.enums@[name@])
        &&& after.enums@[name@].name == name
        &&& after.enums@[name@].entries@ == entries
    }
}

/// Declares the enum `name` with the entries `entries` in `scope`.
pub fn eval_enum_declaration(rt: &mut Runtime, name: &String, entries: &Vec<String>, scope: ScopeId)
    -> (r: Result<RuntimeValue, EvaluationError>)
    ensures
        enum_declaration_post(*old(rt), *final(rt), *name, entries@, scope, r),
        old(rt).grows_to(*final(rt)),
{
    proof {
        reveal(Runtime::keeps_parents);
    }
    if scope >= rt.scopes.len() {
        return Err(EvaluationError::UnknownScope);
    }
    rt.scopes[scope].declare_enum(name.clone(), clone_strings(entries));
    assert(final(rt).scopes@ =~= old(rt).scopes@.update(
        scope as int,
        final(rt).scopes@[scope as int],
    ));
    Ok(RuntimeValue::Null)
}

/// `r` is what a lambda gives: a reference to a function without a name of
/// its own that sees the scope `scope`; the body must be a code block.
pub open spec fn is_lambda(
    args: Arc<crate::interpreter::scope::FnArgs>,
    body: ASTNode,
    return_type: DataType,
    scope: ScopeId,
    r: Result<RuntimeValue, EvaluationError>,
) -> bool {
    if body is CodeBlock {
        r matches Ok(RuntimeValue::Reference(Reference::Function(f))) && f.name@
            == "MOSA_INTERNAL_LAMBDA"@ && f.args == args && f.body == body->CodeBlock_0
            && f.return_type == return_type && f.scope == scope && !f.tied && f.accesses@.len()
            == 0
    } else {
        r == Err::<RuntimeValue, EvaluationError>(EvaluationError::UnsupportedNode)
    }
}

/// A reference to a function that has no name of its own and is declared
/// in no scope. It sees the scope `scope`, in which it is made.
pub fn create_lambda(
    args: &Arc<crate::interpreter::scope::FnArgs>,
    body: &ASTNode,
    return_type: &DataType,
    scope: ScopeId,
) -> (r: Result<RuntimeValue, EvaluationError>)
    ensures
        is_lambda(*args, *body, *return_type, scope, r),
{
    match body {
        ASTNode::CodeBlock(code) => Ok(
            RuntimeValue::Reference(
                Reference::Function(
                    FunctionData {
                        name: "MOSA_INTERNAL_LAMBDA".to_owned(),
                        args: share(args),
                        body: share(code),
                        return_type: return_type.clone(),
                        scope,
                        accesses: Arc::new(Vec::new()),
                        tied: false,
                    },
                ),
            ),
        ),
        _ => Err(EvaluationError::UnsupportedNode),
    }
}

impl ModuleStorage {
    /// `later` holds the modules of `self` under their names, each with its
    /// name, scope, statements and marks; and a module that has run in
    /// `self` has, in `later`, the same result and the same exports.
    pub open spec fn grows_to(self, later: ModuleStorage) -> bool {
        &&& later.index == self.index
        &&& later.modules@.len() == self.modules@.len()
        &&& self.keeps_modules(later)
    }

    /// Every module of `self` is, in `later`, what it is in `self`, at a
    /// later time.
    #[verifier::opaque]
    pub open spec fn keeps_modules(self, later: ModuleStorage) -> bool {
        forall|i: int|
            0 <= i < self.modules@.len() && i < later.modules@.len() ==> (
            #[trigger] later.modules@[i]).keeps(self.modules@[i])
    }

    /// Nothing grows to itself.
    pub proof fn lemma_grows_to_itself(self)
        ensures
            self.grows_to(self),
    {
        reveal(ModuleStorage::keeps_modules);
    }

    /// Growing is transitive.
    pub proof fn lemma_grows_on(self, middle: ModuleStorage, later: ModuleStorage)
        requires
            self.grows_to(middle),
            middle.grows_to(later),
        ensures
            self.grows_to(later),
    {
        reveal(ModuleStorage::keeps_modules);
        assert forall|i: int| 0 <= i < self.modules@.len() implies (
        #[trigger] later.modules@[i]).keeps(self.modules@[i]) by {
            assert(middle.modules@[i].keeps(self.modules@[i]));
        }
    }

    /// A change of the exports and the result of a module that had not run
    /// is a growth.
    pub proof fn lemma_grows_by_module(self, later: ModuleStorage, place: usize)
        requires
            self.same_but_module(later, place),
            self.modules@[place as int].cached_result is None,
        ensures
            self.grows_to(later),
    {
        reveal(ModuleStorage::keeps_modules);
    }
}

impl Module {
    /// `self` is `earlier` at a later time.
    pub open spec fn keeps(self, earlier: Module) -> bool {
        &&& self.name == earlier.name
        &&& self.scope == earlier.scope
        &&& self.ast == earlier.ast
        &&& self.unmodulated_exported_functions == earlier.unmodulated_exported_functions
        &&& self.unmodulated_exported_layouts == earlier.unmodulated_exported_layouts
        &&& earlier.cached_result is Some ==> self.cached_result == earlier.cached_result
            && self.exports == earlier.exports
    }

    /// Everything but the exports and the result is as in `other`.
    pub open spec fn same_text(self, other: Module) -> bool {
        &&& self.name == other.name
        &&& self.scope == other.scope
        &&& self.ast == other.ast
        &&& self.unmodulated_exported_functions == other.unmodulated_exported_functions
        &&& self.unmodulated_exported_layouts == other.unmodulated_exported_layouts
    }
}

impl ModuleStorage {
    /// `later` is `self` but for the exports and the result of the module
    /// at `place`.
    pub open spec fn same_but_module(self, later: ModuleStorage, place: usize) -> bool {
        &&& place < self.modules@.len()
        &&& later.index == self.index
        &&& later.modules@ == self.modules@.update(place as int, later.modules@[place as int])
        &&& later.modules@[place as int].same_text(self.modules@[place as int])
    }
}

/// `f` is the function that a module in scope `scope` exports for the mark
/// `data`.
pub open spec fn is_exported(f: FunctionData, data: crate::parser::structs::ParserFunctionData, scope: ScopeId)
    -> bool {
    &&& f.name == data.name
    &&& f.args == data.args
    &&& f.body == data.body
    &&& f.return_type == data.return_type
    &&& f.scope == scope
    &&& !f.tied
    &&& f.accesses@.len() == 0
}

/// `post` is `pre` after the module at `place` has exported every
/// function that it had marked for export, each seeing the scope of the
/// module.
pub open spec fn functions_exported(pre: ModuleStorage, post: ModuleStorage, place: usize) -> bool {
    let before = pre.modules@[place as int];
    let after = post.modules@[place as int];
    &&& pre.same_but_module(post, place)
    &&& after.cached_result == before.cached_result
    &&& forall|k: Seq<char>| #[trigger]
        after.exports@.contains_key(k) <==> before.exports@.contains_key(k)
            || before.unmodulated_exported_functions@.contains_key(k)
    &&& forall|k: Seq<char>|
        before.unmodulated_exported_functions@.contains_key(k) ==> (
        #[trigger] after.exports@[k] matches ModuleExport::Function(f) && is_exported(
            f,
            before.unmodulated_exported_functions@[k],
            before.scope,
        ))
    &&& forall|k: Seq<char>|
        before.exports@.contains_key(k) && !before.unmodulated_exported_functions@.contains_key(k)
            ==> #[trigger] after.exports@[k] == before.exports@[k]
}

/// Exports every function that the module at `place` has marked for export.
/// Each sees the scope of the module.
pub fn register_function_exports(storage: &mut ModuleStorage, place: usize)
    requires
        place < old(storage).modules@.len(),
        old(storage).modules@[place as int].cached_result is None,
    ensures
        functions_exported(*old(storage), *final(storage), place),
        old(storage).grows_to(*final(storage)),
{
    let ghost start = *storage;
    let n = storage.modules[place].unmodulated_exported_functions.len();
    let ghost marks = storage.modules@[place as int].unmodulated_exported_functions;
    let ghost first = storage.modules@[place as int].exports@;
    let ghost scope = storage.modules@[place as int].scope;
    assert(storage.modules@ =~= storage.modules@.update(
        place as int,
        storage.modules@[place as int],
    ));
    let mut i: usize = 0;
    while i < n
        invariant
            i <= n,
            n == marks.keys().len(),
            marks.keys().len() == marks.values().len(),
            marks.keys().no_duplicates(),
            forall|k: Seq<char>| #[trigger]
                marks@.contains_key(k) <==> marks.keys().contains(k),
            forall|j: int|
                0 <= j < marks.keys().len() ==> marks@.contains_key(#[trigger] marks.keys()[j])
                    && marks@[marks.keys()[j]] == marks.values()[j],
            place < storage.modules@.len(),
            old(storage).same_but_module(*storage, place),
            marks == old(storage).modules@[place as int].unmodulated_exported_functions,
            first == old(storage).modules@[place as int].exports@,
            scope == old(storage).modules@[place as int].scope,
            storage.modules@[place as int].cached_result == old(storage).modules@[place as int].cached_result,
            forall|k: Seq<char>| #[trigger]
                storage.modules@[place as int].exports@.contains_key(k) <==> first.contains_key(k)
                    || (exists|j: int| 0 <= j < i && marks.keys()[j] == k),
            forall|j: int|
                0 <= j < i ==> (storage.modules@[place as int].exports@[#[trigger] marks.keys()[j]]
                    matches ModuleExport::Function(f) && is_exported(
                    f,
                    marks@[marks.keys()[j]],
                    scope,
                )),
            forall|k: Seq<char>|
                first.contains_key(k) && !(exists|j: int| 0 <= j < i && marks.keys()[j] == k)
                    ==> #[trigger] storage.modules@[place as int].exports@[k] == first[k],
        decreases n - i,
    {
        let module = &storage.modules[place];
        let key = module.unmodulated_exported_functions.key_at(i).clone();
        let data = module.unmodulated_exported_functions.value_at(i);
        let f = FunctionData {
            name: data.name.clone(),
            args: share(&data.args),
            body: share(&data.body),
            return_type: data.return_type.clone(),
            scope: module.scope,
            accesses: Arc::new(Vec::new()),
            tied: false,
        };
        let ghost exports = storage.modules@[place as int].exports@;
        storage.modules[place].push(key, ModuleExport::Function(f));
        proof {
            let now = storage.modules@[place as int].exports@;
            let k_i = marks.keys()[i as int];
            assert(now == exports.insert(k_i, ModuleExport::Function(f)));
            assert(storage.modules@ =~= old(storage).modules@.update(
                place as int,
                storage.modules@[place as int],
            ));
            assert forall|k: Seq<char>| #[trigger]
                now.contains_key(k) <==> first.contains_key(k) || (exists|j: int|
                    0 <= j < i + 1 && marks.keys()[j] == k) by {
                assert(exports.contains_key(k) <==> first.contains_key(k) || (exists|j: int|
                    0 <= j < i && marks.keys()[j] == k));
                if k == k_i {
                    assert(marks.keys()[i as int] == k);
                }
            }
            assert forall|j: int| 0 <= j < i + 1 implies (now[#[trigger] marks.keys()[j]]
                matches ModuleExport::Function(g) && is_exported(
                g,
                marks@[marks.keys()[j]],
                scope,
            )) by {
                if j < i {
                    assert(marks.keys()[j] != k_i);
                    assert(now[marks.keys()[j]] == exports[marks.keys()[j]]);
                }
            }
            assert forall|k: Seq<char>|
                first.contains_key(k) && !(exists|j: int| 0 <= j < i + 1 && marks.keys()[j] == k)
                implies #[trigger] now[k] == first[k] by {
                assert(k != k_i);
                assert(!(exists|j: int| 0 <= j < i && marks.keys()[j] == k));
            }
        }
        i = i + 1;
    }
    proof {
        let end = storage.modules@[place as int].exports@;
        assert forall|k: Seq<char>| #[trigger]
            end.contains_key(k) <==> first.contains_key(k) || marks@.contains_key(k) by {
            if marks@.contains_key(k) {
                assert(marks.keys().contains(k));
                let j = choose|j: int| 0 <= j < marks.keys().len() && marks.keys()[j] == k;
                assert(marks.keys()[j] == k);
            }
            if exists|j: int| 0 <= j < marks.keys().len() && marks.keys()[j] == k {
                assert(marks.keys().contains(k));
            }
        }
        assert forall|k: Seq<char>| marks@.contains_key(k) implies (#[trigger] end[k]
            matches ModuleExport::Function(g) && is_exported(g, marks@[k], scope)) by {
            assert(marks.keys().contains(k));
            let j = choose|j: int| 0 <= j < marks.keys().len() && marks.keys()[j] == k;
            assert(marks.keys()[j] == k);
        }
    }
    proof {
        start.lemma_grows_by_module(*storage, place);
    }
}

/// Whether the scope of `module` knows every layout that the module has
/// marked for export.
pub open spec fn layouts_known(rt: Runtime, module: Module) -> bool {
    forall|k: Seq<char>|
        module.unmodulated_exported_layouts@.contains_key(k) ==> rt.layout(module.scope, k) is Some
}

/// `exports` with the first `n` of the layouts `keys` added, each as the
/// scope `scope` knows it.
pub open spec fn layout_exports(
    exports: Map<Seq<char>, ModuleExport>,
    keys: Seq<Seq<char>>,
    rt: Runtime,
    scope: ScopeId,
    n: nat,
) -> Map<Seq<char>, ModuleExport>
    decreases n,
{
    if n == 0 {
        exports
    } else {
        layout_exports(exports, keys, rt, scope, (n - 1) as nat).insert(
            keys[n - 1],
            ModuleExport::Layout(rt.layout(scope, keys[n - 1])->0),
        )
    }
}

/// `post` is `pre` after the module at `place` has exported the layouts
/// that it had marked for export: all of them where its scope knows them
/// all, and else those before the first one that it does not know.
pub open spec fn layouts_exported(
    pre: ModuleStorage,
    post: ModuleStorage,
    rt: Runtime,
    place: usize,
) -> bool {
    let before = pre.modules@[place as int];
    let after = post.modules@[place as int];
    &&& pre.same_but_module(post, place)
    &&& after.cached_result == before.cached_result
    &&& layouts_known(rt, before) ==> after.exports@ == layout_exports(
        before.exports@,
        before.unmodulated_exported_layouts.keys(),
        rt,
        before.scope,
        before.unmodulated_exported_layouts.keys().len(),
    )
}

/// Exports every layout that the module at `place` has marked for export,
/// as the module's scope knows it now.
pub fn register_layout_exports(storage: &mut ModuleStorage, rt: &Runtime, place: usize) -> (r: Result<
    (),
    EvaluationError,
>)
    requires
        place < old(storage).modules@.len(),
        old(storage).modules@[place as int].cached_result is None,
    ensures
        r == (if layouts_known(*rt, old(storage).modules@[place as int]) {
            Ok::<(), EvaluationError>(())
        } else {
            Err::<(), EvaluationError>(EvaluationError::UndeclaredLayout)
        }),
        layouts_exported(*old(storage), *final(storage), *rt, place),
        old(storage).grows_to(*final(storage)),
{
    let ghost start = *storage;
    let n = storage.modules[place].unmodulated_exported_layouts.len();
    let ghost marks = storage.modules@[place as int].unmodulated_exported_layouts;
    let ghost first = storage.modules@[place as int].exports@;
    let ghost scope = storage.modules@[place as int].scope;
    assert(storage.modules@ =~= storage.modules@.update(
        place as int,
        storage.modules@[place as int],
    ));
    let mut i: usize = 0;
    while i < n
        invariant
            i <= n,
            n == marks.keys().len(),
            forall|k: Seq<char>| #[trigger]
                marks@.contains_key(k) <==> marks.keys().contains(k),
            forall|j: int|
                0 <= j < marks.keys().len() ==> marks@.contains_key(#[trigger] marks.keys()[j]),
            place < storage.modules@.len(),
            old(storage).same_but_module(*storage, place),
            start == *old(storage),
            start.modules@[place as int].cached_result is None,
            marks == old(storage).modules@[place as int].unmodulated_exported_layouts,
            first == old(storage).modules@[place as int].exports@,
            scope == old(storage).modules@[place as int].scope,
            storage.modules@[place as int].cached_result == old(storage).modules@[place as int].cached_result,
            forall|j: int| 0 <= j < i ==> rt.layout(scope, #[trigger] marks.keys()[j]) is Some,
            storage.modules@[place as int].exports@ == layout_exports(
                first,
                marks.keys(),
                *rt,
                scope,
                i as nat,
            ),
        decreases n - i,
    {
        let module = &storage.modules[place];
        let key = module.unmodulated_exported_layouts.key_at(i).clone();
        let declaration = match RuntimeScope::get_layout_declaration(rt, module.scope, &key) {
            Some(d) => d,
            None => {
                assert(marks@.contains_key(marks.keys()[i as int]));
                proof {
                    start.lemma_grows_by_module(*storage, place);
                }
                return Err(EvaluationError::UndeclaredLayout);
            },
        };
        storage.modules[place].push(key, ModuleExport::Layout(declaration));
        assert(storage.modules@ =~= old(storage).modules@.update(
            place as int,
            storage.modules@[place as int],
        ));
        i = i + 1;
    }
    assert forall|k: Seq<char>| marks@.contains_key(k) implies rt.layout(scope, k) is Some by {
        assert(marks.keys().contains(k));
        let j = choose|j: int| 0 <= j < marks.keys().len() && marks.keys()[j] == k;
        assert(rt.layout(scope, marks.keys()[j]) is Some);
    }
    proof {
        start.lemma_grows_by_module(*storage, place);
    }
    Ok(())
}

/// `post` is `pre` after the module at `place` has kept `value` as its
/// result.
pub open spec fn module_cached(
    pre: ModuleStorage,
    post: ModuleStorage,
    place: usize,
    value: RuntimeValue,
) -> bool {
    &&& pre.same_but_module(post, place)
    &&& post.modules@[place as int].cached_result == Some(value)
    &&& post.modules@[place as int].exports == pre.modules@[place as int].exports
}

/// Keeps `value` as the result of the module at `place`.
pub fn cache_module(storage: &mut ModuleStorage, place: usize, value: RuntimeValue)
    requires
        place < old(storage).modules@.len(),
        old(storage).modules@[place as int].cached_result is None,
    ensures
        module_cached(*old(storage), *final(storage), place, value),
        old(storage).grows_to(*final(storage)),
{
    let ghost start = *storage;
    storage.modules[place].cache(value);
    assert(storage.modules@ =~= old(storage).modules@.update(
        place as int,
        storage.modules@[place as int],
    ));
    proof {
        start.lemma_grows_by_module(*storage, place);
    }
}


/// What is left to do when the statements of the module at `place` have
/// given `value`: unless the module has a result already, it exports the
/// layouts that it had marked and keeps the value as its result. Gives
/// whether the module has a result now.
pub fn finish_module(storage: &mut ModuleStorage, rt: &Runtime, place: usize, value: RuntimeValue)
    -> (done: bool)
    requires
        place < old(storage).modules@.len(),
    ensures
        done == final(storage).modules@[place as int].cached_result is Some,
        place < final(storage).modules@.len(),
        module_finish_post(*old(storage), *final(storage), *rt, place, value),
        *final(storage) == *old(storage) || old(storage).grows_to(*final(storage)),
{
    if storage.modules[place].has_cache() {
        return true;
    }
    let ghost start = *storage;
    match register_layout_exports(storage, rt, place) {
        Ok(()) => {},
        Err(_) => { return false; },
    }
    let ghost middle = *storage;
    cache_module(storage, place, value);
    proof {
        start.lemma_grows_on(middle, *storage);
        assert(storage.modules@ =~= start.modules@.update(
            place as int,
            storage.modules@[place as int],
        ));
    }
    true
}

/// `post` is `pre` after the module at `place`, whose statements gave
/// `value`, was finished.
pub open spec fn module_finish_post(
    pre: ModuleStorage,
    post: ModuleStorage,
    rt: Runtime,
    place: usize,
    value: RuntimeValue,
) -> bool {
    let before = pre.modules@[place as int];
    let after = post.modules@[place as int];
    if before.cached_result is Some {
        post == pre
    } else {
        &&& pre.same_but_module(post, place)
        &&& if layouts_known(rt, before) {
            &&& after.cached_result == Some(value)
            &&& after.exports@ == layout_exports(
                before.exports@,
                before.unmodulated_exported_layouts.keys(),
                rt,
                before.scope,
                before.unmodulated_exported_layouts.keys().len(),
            )
        } else {
            after.cached_result is None
        }
    }
}

/// What importing `symbol` from the module at `place` into `scope` gives:
/// the value that the module gave when it ran.
pub open spec fn import_result(
    rt: Runtime,
    modules: ModuleStorage,
    place: usize,
    symbol: Seq<char>,
    scope: ScopeId,
) -> Result<RuntimeValue, EvaluationError> {
    let module = modules.modules@[place as int];
    if !module.exports@.contains_key(symbol) {
        Err(EvaluationError::UnknownExport)
    } else if scope >= rt.scopes@.len() {
        Err(EvaluationError::UnknownScope)
    } else {
        match module.cached_result {
            Some(v) => Ok(v),
            None => Err(EvaluationError::UndeclaredModule),
        }
    }
}

/// Imports `symbol` from the module at `place` into `scope`.
pub fn import_symbol(
    rt: &mut Runtime,
    modules: &ModuleStorage,
    place: usize,
    symbol: &String,
    scope: ScopeId,
) -> (r: Result<RuntimeValue, EvaluationError>)
    requires
        place < modules.modules@.len(),
    ensures
        r == import_result(*old(rt), *modules, place, symbol@, scope),
        if modules.modules@[place as int].exports@.contains_key(symbol@) {
            import_post(
                *old(rt),
                *final(rt),
                scope,
                symbol@,
                modules.modules@[place as int].exports@[symbol@],
            )
        } else {
            *final(rt) == *old(rt)
        },
        *final(rt) == *old(rt) || old(rt).grows_to(*final(rt)),
{
    let export = match modules.modules[place].exports.get(symbol) {
        Some(e) => e.clone(),
        None => { return Err(EvaluationError::UnknownExport); },
    };
    match import_in(rt, scope, symbol.clone(), export) {
        Ok(()) => {},
        Err(e) => { return Err(e); },
    }
    match modules.modules[place].cached_result() {
        Some(v) => Ok(v),
        None => Err(EvaluationError::UndeclaredModule),
    }
}

/// Modules that have stayed or grown are found under the names, and at
/// the places, where they were.
pub proof fn lemma_storage_keeps_places(before: ModuleStorage, after: ModuleStorage)
    requires
        after == before || before.grows_to(after) || (exists|place: usize|
            before.same_but_module(after, place)),
    ensures
        forall|name: Seq<char>| #[trigger] after.place(name) == before.place(name),
        after.modules@.len() == before.modules@.len(),
{
}

/// A range whose end is not above its start holds nothing.
pub proof fn law_range_that_does_not_rise_is_empty(pairs: Seq<IterablePair>, l: Number, r: Number)
    requires
        is_range(pairs, l, r),
        r.floor() <= l.floor(),
    ensures
        pairs.len() == 0,
{
}

/// The range from the integer `a` to an integer `b` above it holds the
/// integers from `a` up to `b`, without `b`, each at the place that it has
/// counted from `a`.
pub proof fn law_range_counts_up(pairs: Seq<IterablePair>, l: Number, r: Number, a: int, b: int)
    requires
        is_range(pairs, l, r),
        l.is_integer(a),
        r.is_integer(b),
        a < b,
    ensures
        pairs.len() == b - a,
        forall|i: int|
            0 <= i < b - a ==> (#[trigger] pairs[i]).index == i && (
            pairs[i].value matches RuntimeValue::Number(n) && n.is_integer(a + i)),
{
}

/// Arithmetic and comparison fail quietly: where one side is neither a
/// number nor a string, the answer is null and no error.
pub proof fn law_arithmetic_falls_back_to_null(
    operand: Operand,
    left: RuntimeValue,
    right: RuntimeValue,
    number: Number,
    out: Result<RuntimeValue, EvaluationError>,
)
    requires
        is_binary_result(operand, left, right, number, out),
        operand is Plus || operand is Minus || operand is Multiply || operand is Divide
            || operand is Bigger || operand is Smaller || operand is BiggerEqual
            || operand is SmallerEqual,
        !(left is Number || left is String) || !(right is Number || right is String),
    ensures
        out matches Ok(v) && v is Null,
{
}

} // verus!
