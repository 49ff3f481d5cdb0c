//! The values of a running program, and what the host supplies.

use crate::interpreter::scope::FunctionData;
use crate::number::Number;
use crate::util::share;
use std::sync::Arc;
use vstd::prelude::*;
use vstd::string::{StrSliceExecFns, StringExecFns};

verus! {

/// Why an evaluation stopped. Every one of these ends the program: the
/// language has no way to recover.
#[derive(Clone, Copy, Debug, PartialEq, Eq, Structural)]
pub enum EvaluationError {
    /// A value whose type its slot, parameter or return type does not take,
    /// or an operand of the wrong kind.
    TypeMismatch,
    ImmutableAssignment,
    UndeclaredVariable,
    UndeclaredFunction,
    UndeclaredEnum,
    UndeclaredLayout,
    UnknownField,
    /// Fewer arguments than parameters, or a field of a new layout instance
    /// that has neither a value nor a default.
    ArityOrShapeError,
    NonBooleanCondition,
    NotCallable,
    UnboundBinding,
    UndeclaredModule,
    /// A module does not export the symbol that an import asks for.
    UnknownExport,
    /// A node that stands for no statement or expression.
    UnsupportedNode,
    /// The evaluation went deeper than the interpreter allows.
    DepthExceeded,
    /// A range or an index outside of the integers that are numbers.
    NumberOutOfRange,
    /// A scope handle that names no scope.
    UnknownScope,
}

/// A scope, named by its place in the runtime's table of scopes.
pub type ScopeId = usize;

/// The field table of a layout instance, named by its place in the
/// runtime's table of instances.
pub type InstanceId = usize;

/// A function of the host, named by its slot in the host's table.
#[derive(Clone, Copy, Debug, PartialEq, Eq, Structural)]
pub struct MoSaNativeFunction {
    pub slot: usize,
}

/// The four operations on numbers that round.
#[derive(Clone, Copy, Debug, PartialEq, Eq, Structural)]
pub enum ArithmeticOp {
    Add,
    Sub,
    Mul,
    Div,
}

/// What the embedding program supplies to an evaluation: its native
/// functions and the arithmetic of its floating-point unit. Nothing is
/// assumed of either.
pub trait Host {
    /// The result of `op` on two numbers.
    fn arithmetic(&self, op: ArithmeticOp, left: Number, right: Number) -> Number;

    /// Runs the native function `function` on `args`: the host as it is
    /// after the call, and what the function gives.
    fn call_native(&self, function: MoSaNativeFunction, args: Vec<RuntimeValue>) -> (Self, RuntimeValue) where
        Self: Sized;
}

/// `number` is an answer of `host` to `op` on `left` and `right`.
pub open spec fn computes<H: Host>(
    host: H,
    op: ArithmeticOp,
    left: Number,
    right: Number,
    number: Number,
) -> bool {
    call_ensures(H::arithmetic, (&host, op, left, right), number)
}

/// `after` and `out` are an answer of the host `before` to the call of
/// `function` with `args`.
pub open spec fn answers<H: Host>(
    before: H,
    function: MoSaNativeFunction,
    args: Vec<RuntimeValue>,
    after: H,
    out: RuntimeValue,
) -> bool {
    call_ensures(H::call_native, (&before, function, args), (after, out))
}

#[derive(Debug)]
pub enum RuntimeValue {
    Number(Number),
    Null,
    String(String),
    Bool(bool),
    Iterable(Arc<Vec<IterablePair>>),
    Complex(ComplexRuntimeValue),
    Reference(Reference),
}

#[derive(Debug)]
pub enum ComplexRuntimeValue {
    Enum(EnumData),
    Layout(LayoutData),
}

#[derive(Debug)]
pub enum Reference {
    Function(FunctionData),
    /// A tied method, the name of the variable that holds its receiver, and
    /// the scope in which that name is read.
    MethodLikeFunction(FunctionData, String, ScopeId),
}

#[derive(Debug)]
pub struct IterablePair {
    pub index: usize,
    pub value: RuntimeValue,
}

#[derive(Debug)]
pub struct EnumData {
    pub enum_id: String,
    pub entry: String,
}

/// A layout instance: the name of its layout and the handle of its fields.
/// Two values with one handle are one instance.
#[derive(Debug)]
pub struct LayoutData {
    pub layout_id: String,
    pub entries: InstanceId,
}

impl Clone for EnumData {
    fn clone(&self) -> (r: Self)
        ensures
            r == *self,
    {
        EnumData { enum_id: self.enum_id.clone(), entry: self.entry.clone() }
    }
}

impl Clone for LayoutData {
    fn clone(&self) -> (r: Self)
        ensures
            r == *self,
    {
        LayoutData { layout_id: self.layout_id.clone(), entries: self.entries }
    }
}

impl Clone for ComplexRuntimeValue {
    fn clone(&self) -> (r: Self)
        ensures
            r == *self,
    {
        match self {
            ComplexRuntimeValue::Enum(e) => ComplexRuntimeValue::Enum(e.clone()),
            ComplexRuntimeValue::Layout(l) => ComplexRuntimeValue::Layout(l.clone()),
        }
    }
}

impl Clone for Reference {
    fn clone(&self) -> (r: Self)
        ensures
            r == *self,
    {
        match self {
            Reference::Function(f) => Reference::Function(f.clone()),
            Reference::MethodLikeFunction(f, name, scope) => Reference::MethodLikeFunction(
                f.clone(),
                name.clone(),
                *scope,
            ),
        }
    }
}

impl Clone for RuntimeValue {
    fn clone(&self) -> (r: Self)
        ensures
            r == *self,
    {
        match self {
            RuntimeValue::Number(n) => RuntimeValue::Number(*n),
            RuntimeValue::Null => RuntimeValue::Null,
            RuntimeValue::String(s) => RuntimeValue::String(s.clone()),
            RuntimeValue::Bool(b) => RuntimeValue::Bool(*b),
            RuntimeValue::Iterable(pairs) => RuntimeValue::Iterable(share(pairs)),
            RuntimeValue::Complex(c) => RuntimeValue::Complex(c.clone()),
            RuntimeValue::Reference(f) => RuntimeValue::Reference(f.clone()),
        }
    }
}

impl Clone for IterablePair {
    fn clone(&self) -> (r: Self)
        ensures
            r == *self,
    {
        IterablePair { index: self.index, value: self.value.clone() }
    }
}

/// `s` written `n` times in a row.
pub open spec fn repeated(s: Seq<char>, n: nat) -> Seq<char>
    decreases n,
{
    if n == 0 {
        Seq::empty()
    } else {
        repeated(s, (n - 1) as nat) + s
    }
}

/// `s` written `n` times in a row.
pub fn repeat_string(s: &String, n: u64) -> (r: String)
    ensures
        r@ == repeated(s@, n as nat),
{
    let mut r = String::new();
    if s.as_str().unicode_len() == 0 {
        proof {
            lemma_repeated_nothing(s@, n as nat);
        }
        return r;
    }
    let mut i: u64 = 0;
    while i < n
        invariant
            i <= n,
            r@ == repeated(s@, i as nat),
        decreases n - i,
    {
        r.append(s.as_str());
        i = i + 1;
    }
    r
}

/// Nothing, written any number of times, is nothing.
pub proof fn lemma_repeated_nothing(s: Seq<char>, n: nat)
    requires
        s.len() == 0,
    ensures
        repeated(s, n) == Seq::<char>::empty(),
    decreases n,
{
    if n > 0 {
        lemma_repeated_nothing(s, (n - 1) as nat);
        assert(repeated(s, n) =~= Seq::<char>::empty());
    }
}

impl RuntimeValue {
    /// `out` is the sum of `self` and `rhs`, where `number` is what the
    /// host gives for the sum of two numbers: numbers are added by the
    /// host, strings are joined, and everything else gives null.
    pub open spec fn is_sum(self, rhs: RuntimeValue, number: Number, out: RuntimeValue) -> bool {
        match (self, rhs) {
            (RuntimeValue::Number(_), RuntimeValue::Number(_)) => out == RuntimeValue::Number(
                number,
            ),
            (RuntimeValue::String(l), RuntimeValue::String(r)) => out matches RuntimeValue::String(
                s,
            ) && s@ == l@ + r@,
            _ => out is Null,
        }
    }

    /// `out` is the product of `self` and `rhs`, where `number` is what the
    /// host gives for the product of two numbers: numbers are multiplied by
    /// the host, a string and a number give the string repeated as often as
    /// the floor of the number says, and everything else gives null.
    pub open spec fn is_product(self, rhs: RuntimeValue, number: Number, out: RuntimeValue) -> bool {
        match (self, rhs) {
            (RuntimeValue::Number(_), RuntimeValue::Number(_)) => out == RuntimeValue::Number(
                number,
            ),
            (RuntimeValue::Number(n), RuntimeValue::String(t)) => out matches RuntimeValue::String(
                s,
            ) && s@ == repeated(t@, n.floor_count()),
            (RuntimeValue::String(t), RuntimeValue::Number(n)) => out matches RuntimeValue::String(
                s,
            ) && s@ == repeated(t@, n.floor_count()),
            _ => out is Null,
        }
    }

    /// `out` is the difference or the quotient of `self` and `rhs`, where
    /// `number` is what the host gives for it on two numbers: everything
    /// else gives null.
    pub open spec fn is_numeric_result(self, rhs: RuntimeValue, number: Number, out: RuntimeValue)
        -> bool {
        match (self, rhs) {
            (RuntimeValue::Number(_), RuntimeValue::Number(_)) => out == RuntimeValue::Number(
                number,
            ),
            _ => out is Null,
        }
    }

    /// The sum, given the number that the host computed for two numbers.
    pub fn add_with(self, rhs: RuntimeValue, number: Number) -> (out: RuntimeValue)
        ensures
            self.is_sum(rhs, number, out),
    {
        match (self, rhs) {
            (RuntimeValue::Number(_), RuntimeValue::Number(_)) => RuntimeValue::Number(number),
            (RuntimeValue::String(l), RuntimeValue::String(r)) => RuntimeValue::String(
                l.concat(r.as_str()),
            ),
            _ => RuntimeValue::Null,
        }
    }

    /// The product, given the number that the host computed for two
    /// numbers.
    pub fn mul_with(self, rhs: RuntimeValue, number: Number) -> (out: RuntimeValue)
        ensures
            self.is_product(rhs, number, out),
    {
        match (self, rhs) {
            (RuntimeValue::Number(_), RuntimeValue::Number(_)) => RuntimeValue::Number(number),
            (RuntimeValue::Number(n), RuntimeValue::String(t)) => RuntimeValue::String(
                repeat_string(&t, n.floor_clamped()),
            ),
            (RuntimeValue::String(t), RuntimeValue::Number(n)) => RuntimeValue::String(
                repeat_string(&t, n.floor_clamped()),
            ),
            _ => RuntimeValue::Null,
        }
    }

    /// The difference or the quotient, given the number that the host
    /// computed for two numbers.
    pub fn numeric_with(self, rhs: RuntimeValue, number: Number) -> (out: RuntimeValue)
        ensures
            self.is_numeric_result(rhs, number, out),
    {
        match (self, rhs) {
            (RuntimeValue::Number(_), RuntimeValue::Number(_)) => RuntimeValue::Number(number),
            _ => RuntimeValue::Null,
        }
    }

    /// What the host gives for `op` on the two values where both are
    /// numbers; the number of no bits where they are not, for then none is
    /// used.
    fn host_number<H: Host>(&self, rhs: &RuntimeValue, op: ArithmeticOp, host: &H) -> (number:
        Number)
        ensures
            self.asked(*rhs, op, *host, number),
            !(*self is Number && *rhs is Number) ==> number.bits == 0,
    {
        match (self, rhs) {
            (RuntimeValue::Number(l), RuntimeValue::Number(r)) => host.arithmetic(op, *l, *r),
            _ => Number { bits: 0 },
        }
    }

    /// `number` stands for what `host` was asked: for two numbers, it is
    /// an answer of the host to `op` on them; else nothing was asked.
    pub open spec fn asked<H: Host>(self, rhs: RuntimeValue, op: ArithmeticOp, host: H, number: Number)
        -> bool {
        match (self, rhs) {
            (RuntimeValue::Number(l), RuntimeValue::Number(r)) => computes(host, op, l, r, number),
            _ => true,
        }
    }

    /// `self + rhs`. The host adds two numbers.
    pub fn add<H: Host>(self, rhs: RuntimeValue, host: &H) -> (out: RuntimeValue)
        ensures
            exists|number: Number| #[trigger]
                self.asked(rhs, ArithmeticOp::Add, *host, number) && self.is_sum(rhs, number, out),
    {
        let number = self.host_number(&rhs, ArithmeticOp::Add, host);
        self.add_with(rhs, number)
    }

    /// `self - rhs`. The host subtracts two numbers.
    pub fn sub<H: Host>(self, rhs: RuntimeValue, host: &H) -> (out: RuntimeValue)
        ensures
            exists|number: Number| #[trigger]
                self.asked(rhs, ArithmeticOp::Sub, *host, number) && self.is_numeric_result(rhs, number, out),
    {
        let number = self.host_number(&rhs, ArithmeticOp::Sub, host);
        self.numeric_with(rhs, number)
    }

    /// `self * rhs`. The host multiplies two numbers.
    pub fn mul<H: Host>(self, rhs: RuntimeValue, host: &H) -> (out: RuntimeValue)
        ensures
            exists|number: Number| #[trigger]
                self.asked(rhs, ArithmeticOp::Mul, *host, number) && self.is_product(rhs, number, out),
    {
        let number = self.host_number(&rhs, ArithmeticOp::Mul, host);
        self.mul_with(rhs, number)
    }

    /// `self / rhs`. The host divides two numbers.
    pub fn div<H: Host>(self, rhs: RuntimeValue, host: &H) -> (out: RuntimeValue)
        ensures
            exists|number: Number| #[trigger]
                self.asked(rhs, ArithmeticOp::Div, *host, number) && self.is_numeric_result(rhs, number, out),
    {
        let number = self.host_number(&rhs, ArithmeticOp::Div, host);
        self.numeric_with(rhs, number)
    }

    /// What `self > other` is, or `self >= other` where `equal`: a boolean
    /// for two numbers, null for anything else.
    pub open spec fn spec_bigger(self, other: RuntimeValue, equal: bool) -> RuntimeValue {
        match (self, other) {
            (RuntimeValue::Number(l), RuntimeValue::Number(r)) => RuntimeValue::Bool(
                r.spec_lt(l) || (equal && l.spec_eq(r)),
            ),
            _ => RuntimeValue::Null,
        }
    }

    /// What `self < other` is, or `self <= other` where `equal`: a boolean
    /// for two numbers, null for anything else.
    pub open spec fn spec_smaller(self, other: RuntimeValue, equal: bool) -> RuntimeValue {
        match (self, other) {
            (RuntimeValue::Number(l), RuntimeValue::Number(r)) => RuntimeValue::Bool(
                l.spec_lt(r) || (equal && l.spec_eq(r)),
            ),
            _ => RuntimeValue::Null,
        }
    }

    pub fn bigger(&self, other: &RuntimeValue, equal: bool) -> (out: RuntimeValue)
        ensures
            out == self.spec_bigger(*other, equal),
    {
        match (self, other) {
            (RuntimeValue::Number(l), RuntimeValue::Number(r)) => RuntimeValue::Bool(
                r.lt(*l) || (equal && l.eq_value(*r)),
            ),
            _ => RuntimeValue::Null,
        }
    }

    pub fn smaller(&self, other: &RuntimeValue, equal: bool) -> (out: RuntimeValue)
        ensures
            out == self.spec_smaller(*other, equal),
    {
        match (self, other) {
            (RuntimeValue::Number(l), RuntimeValue::Number(r)) => RuntimeValue::Bool(
                l.lt(*r) || (equal && l.eq_value(*r)),
            ),
            _ => RuntimeValue::Null,
        }
    }

    /// Whether two values are equal: two numbers that are equal as
    /// numbers, two strings of the same characters, two equal booleans, or
    /// two enum values of the same entry of the same enum. A value of any
    /// other kind equals nothing, itself included.
    pub open spec fn same_value(self, other: RuntimeValue) -> bool {
        match (self, other) {
            (RuntimeValue::Number(l), RuntimeValue::Number(r)) => l.spec_eq(r),
            (RuntimeValue::String(l), RuntimeValue::String(r)) => l@ == r@,
            (RuntimeValue::Bool(l), RuntimeValue::Bool(r)) => l == r,
            (RuntimeValue::Complex(l), RuntimeValue::Complex(r)) => l.same_value(r),
            _ => false,
        }
    }

    pub fn cast_number(&self) -> (r: Option<Number>)
        ensures
            r == (match *self {
                RuntimeValue::Number(n) => Some(n),
                _ => None,
            }),
    {
        match self {
            RuntimeValue::Number(n) => Some(*n),
            _ => None,
        }
    }

    pub fn cast_iterable(&self) -> (r: Option<&Vec<IterablePair>>)
        ensures
            r == (match *self {
                RuntimeValue::Iterable(pairs) => Some(&*pairs),
                _ => None,
            }),
    {
        match self {
            RuntimeValue::Iterable(pairs) => Some(&**pairs),
            _ => None,
        }
    }

    pub fn cast_string(&self) -> (r: Option<&String>)
        ensures
            r == (match *self {
                RuntimeValue::String(s) => Some(&s),
                _ => None,
            }),
    {
        match self {
            RuntimeValue::String(s) => Some(s),
            _ => None,
        }
    }

    pub fn cast_bool(&self) -> (r: Option<&bool>)
        ensures
            r == (match *self {
                RuntimeValue::Bool(b) => Some(&b),
                _ => None,
            }),
    {
        match self {
            RuntimeValue::Bool(b) => Some(b),
            _ => None,
        }
    }
}

impl ComplexRuntimeValue {
    /// Two enum values are equal where they name the same entry of the same
    /// enum. A layout instance equals nothing.
    pub open spec fn same_value(self, other: ComplexRuntimeValue) -> bool {
        match (self, other) {
            (ComplexRuntimeValue::Enum(l), ComplexRuntimeValue::Enum(r)) => l.enum_id@
                == r.enum_id@ && l.entry@ == r.entry@,
            _ => false,
        }
    }
}

impl PartialEq for ComplexRuntimeValue {
    fn eq(&self, other: &ComplexRuntimeValue) -> (r: bool) {
        match (self, other) {
            (ComplexRuntimeValue::Enum(l), ComplexRuntimeValue::Enum(r)) => l.enum_id == r.enum_id
                && l.entry == r.entry,
            _ => false,
        }
    }
}

impl vstd::std_specs::cmp::PartialEqSpecImpl for ComplexRuntimeValue {
    open spec fn obeys_eq_spec() -> bool {
        true
    }

    open spec fn eq_spec(&self, other: &ComplexRuntimeValue) -> bool {
        self.same_value(*other)
    }
}

impl PartialEq for RuntimeValue {
    fn eq(&self, other: &RuntimeValue) -> (r: bool) {
        match (self, other) {
            (RuntimeValue::Number(l), RuntimeValue::Number(r)) => l.eq_value(*r),
            (RuntimeValue::String(l), RuntimeValue::String(r)) => *l == *r,
            (RuntimeValue::Bool(l), RuntimeValue::Bool(r)) => *l == *r,
            (RuntimeValue::Complex(l), RuntimeValue::Complex(r)) => *l == *r,
            _ => false,
        }
    }
}

impl vstd::std_specs::cmp::PartialEqSpecImpl for RuntimeValue {
    open spec fn obeys_eq_spec() -> bool {
        true
    }

    open spec fn eq_spec(&self, other: &RuntimeValue) -> bool {
        self.same_value(*other)
    }
}

} // verus!
