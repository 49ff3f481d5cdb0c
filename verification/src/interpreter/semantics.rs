//! What evaluation means: the relation between the moment before a node is
//! evaluated, the node, the moment after, and the result.
//!
//! An evaluation is made of the evaluations of the nodes within the node.
//! A `Course` holds these, in the order in which they happen, each with
//! the moment before it, the moment after it, what it gave, and its own
//! course. `follows` says of a course, node by node, that it is one that
//! the language allows.
//!
//! The host is not specified: where the evaluation calls a native function,
//! the relation holds for whatever the call gives and does to the host, and
//! where the host computes on two numbers, for whatever number it gives.

use crate::collections::StrMap;
use crate::global::DataType;
use crate::interpreter::scope::{params_of, type_of, FunctionData, Runtime};
use crate::interpreter::steps::{
    functions_exported,
    import_post,
    import_result,
    module_finish_post,
    bind_outcome,
    bind_post,
    computed,
    declare_post,
    declare_result,
    enum_declaration_post,
    field_assign_post,
    fn_declaration_post,
    has_meaning,
    is_binary_result,
    is_lambda,
    leaf_value,
    native_definition_post,
    parameter_post,
    return_outcome,
    spec_repeat_count,
};
use crate::interpreter::structs::{
    answers,
    ComplexRuntimeValue,
    EvaluationError,
    Host,
    IterablePair,
    LayoutData,
    MoSaNativeFunction,
    Reference,
    RuntimeValue,
    ScopeId,
};
use crate::modules::ModuleStorage;
use crate::number::{Number, EXACT_LIMIT};
use crate::parser::structs::{
    ASTNode,
    AssignmentProperty,
    BinaryExpression,
    ExpressionType,
    FieldParserDescription,
    ForStatement,
    IfStatement,
    LayoutCreation,
    OnceStatement,
};
use crate::modules::LayoutId;
use vstd::prelude::*;

verus! {

/// What a node gives.
pub type Outcome = Result<RuntimeValue, EvaluationError>;

/// All that an evaluation can change, at one moment: the runtime, the
/// modules and the host.
pub struct Moment<H> {
    pub runtime: Runtime,
    pub modules: ModuleStorage,
    pub host: H,
}

/// One evaluation within another: from `before` to `after`, giving
/// `outcome`, by way of `how`.
pub struct Step<H> {
    pub before: Moment<H>,
    pub how: Course<H>,
    pub after: Moment<H>,
    pub outcome: Outcome,
}

/// The evaluations within one evaluation, in their order.
pub struct Course<H> {
    pub steps: Seq<Step<H>>,
}

impl<H> Course<H> {
    /// The course of an evaluation that holds no other.
    pub open spec fn none() -> Course<H> {
        Course { steps: Seq::empty() }
    }

    /// The step at place `k`.
    pub open spec fn at(self, k: int) -> Step<H> {
        self.steps[k]
    }

    /// The moment after the last step; `pre` where there is no step.
    pub open spec fn end(self, pre: Moment<H>) -> Moment<H> {
        if self.steps.len() == 0 {
            pre
        } else {
            self.steps.last().after
        }
    }

    /// Whether the last step failed.
    pub open spec fn failed(self) -> bool {
        self.steps.len() > 0 && self.steps.last().outcome is Err
    }

    /// Each step starts where the one before it ended, the first one at
    /// `pre`; and every step but the last has succeeded.
    pub open spec fn is_linked(self, pre: Moment<H>) -> bool {
        forall|k: int|
            0 <= k < self.steps.len() ==> (#[trigger] self.at(k)).before == (if k == 0 {
                pre
            } else {
                self.steps[k - 1].after
            }) && (k < self.steps.len() - 1 ==> self.steps[k].outcome is Ok)
    }
}

/// What a statement gives that has no value of its own.
pub open spec fn as_statement(out: Result<(), EvaluationError>) -> Outcome {
    match out {
        Ok(()) => Ok(RuntimeValue::Null),
        Err(e) => Err(e),
    }
}

/// From `pre` to `post`, the runtime and the modules have stayed what they
/// were or have grown: no scope, declaration, instance or module is lost,
/// no scope has changed its parent, and a module that has run keeps its
/// result and its exports.
pub open spec fn progresses<H: Host>(pre: Moment<H>, post: Moment<H>) -> bool {
    &&& post.runtime == pre.runtime || pre.runtime.grows_to(post.runtime)
    &&& post.modules == pre.modules || pre.modules.grows_to(post.modules)
}

/// From `pre` to `post`, only the runtime may have changed.
pub open spec fn runtime_step<H: Host>(pre: Moment<H>, post: Moment<H>) -> bool {
    post.modules == pre.modules && post.host == pre.host
}

/// `course` is the course of an evaluation of `src` in `scope` that starts
/// at the moment `pre` with `depth` levels left, ends at the moment `post`
/// and gives `r`.
pub open spec fn follows<H: Host>(
    course: Course<H>,
    pre: Moment<H>,
    src: ASTNode,
    scope: ScopeId,
    depth: nat,
    post: Moment<H>,
    r: Outcome,
) -> bool
    decreases course, 3nat,
{
    progresses(pre, post) && follows_node(course, pre, src, scope, depth, post, r)
}

/// What `follows` says, node by node. With no level left, nothing is
/// evaluated. A node that holds no other node and declares nothing is read
/// off the runtime, and nothing changes.
pub open spec fn follows_node<H: Host>(
    course: Course<H>,
    pre: Moment<H>,
    src: ASTNode,
    scope: ScopeId,
    depth: nat,
    post: Moment<H>,
    r: Outcome,
) -> bool
    decreases course, 2nat,
{
    if depth == 0 {
        r == Err::<RuntimeValue, EvaluationError>(EvaluationError::DepthExceeded) && post == pre
    } else {
        match leaf_value(pre.runtime, src, scope) {
            Some(v) => r == v && post == pre,
            None => match src {
                ASTNode::Program(body) => follows_statements(
                    course,
                    pre,
                    body@,
                    scope,
                    depth,
                    post,
                    r,
                ),
                ASTNode::Expression(ExpressionType::Binary(e)) => follows_binary(
                    course,
                    pre,
                    *e,
                    scope,
                    depth,
                    post,
                    r,
                ),
                ASTNode::VariableDeclaration(is_immut, identifier, type_id, value) => {
                    follows_declaration(
                        course,
                        pre,
                        is_immut,
                        identifier,
                        type_id,
                        *value,
                        scope,
                        depth,
                        post,
                        r,
                    )
                },
                ASTNode::Assignment(target, value) => follows_assignment(
                    course,
                    pre,
                    target,
                    *value,
                    scope,
                    depth,
                    post,
                    r,
                ),
                ASTNode::FunctionDeclaration(identifier, args, body, return_type) => {
                    runtime_step(pre, post) && fn_declaration_post(
                        pre.runtime,
                        post.runtime,
                        identifier,
                        args,
                        *body,
                        scope,
                        return_type,
                        r,
                    )
                },
                ASTNode::CodeBlock(code) => follows_code_block(
                    course,
                    pre,
                    code@,
                    scope,
                    depth,
                    post,
                    r,
                ),
                ASTNode::IfStatement(statement) => follows_if(
                    course,
                    pre,
                    statement,
                    scope,
                    depth,
                    post,
                    r,
                ),
                ASTNode::UseNative(native) => runtime_step(pre, post) && native_definition_post(
                    pre.runtime,
                    post.runtime,
                    native.name,
                    native.from,
                    scope,
                    r,
                ),
                ASTNode::EnumDeclaration(name, entries) => runtime_step(pre, post)
                    && enum_declaration_post(pre.runtime, post.runtime, name, entries@, scope, r),
                ASTNode::Typeof(value) => follows_typeof(course, pre, *value, scope, depth, post, r),
                ASTNode::LayoutDeclaration(declaration) => {
                    &&& runtime_step(pre, post)
                    &&& pre.runtime.layout_declared(post.runtime, scope, declaration)
                    &&& r == (if scope < pre.runtime.scopes@.len() {
                        Ok::<RuntimeValue, EvaluationError>(RuntimeValue::Null)
                    } else {
                        Err::<RuntimeValue, EvaluationError>(EvaluationError::UnknownScope)
                    })
                },
                ASTNode::MixStatement(layout, mix) => {
                    &&& runtime_step(pre, post)
                    &&& pre.runtime.mixed_into(post.runtime, scope, layout@, mix@)
                    &&& r == (if pre.runtime.mix_target(scope, layout@) is Some {
                        Ok::<RuntimeValue, EvaluationError>(RuntimeValue::Null)
                    } else {
                        Err::<RuntimeValue, EvaluationError>(EvaluationError::UndeclaredLayout)
                    })
                },
                ASTNode::FunctionCall(callee, args) => follows_call(
                    course,
                    pre,
                    *callee,
                    args@,
                    scope,
                    depth,
                    post,
                    r,
                ),
                ASTNode::LayoutCreation(creation) => follows_creation(
                    course,
                    pre,
                    creation,
                    scope,
                    depth,
                    post,
                    r,
                ),
                ASTNode::UseModule(path, symbol) => follows_module(
                    course,
                    pre,
                    path,
                    symbol,
                    scope,
                    depth,
                    post,
                    r,
                ),
                ASTNode::RepeatOperation(count, operation) => follows_repeat(
                    course,
                    pre,
                    *count,
                    *operation,
                    scope,
                    depth,
                    post,
                    r,
                ),
                ASTNode::ForStatement(statement) => follows_for(
                    course,
                    pre,
                    statement,
                    scope,
                    depth,
                    post,
                    r,
                ),
                ASTNode::OnceStatement(statement) => follows_once(
                    course,
                    pre,
                    statement,
                    scope,
                    depth,
                    post,
                    r,
                ),
                ASTNode::Lambda(args, body, return_type) => post == pre && is_lambda(
                    args,
                    *body,
                    return_type,
                    scope,
                    r,
                ),
                _ => false,
            },
        }
    }
}

/// The steps of `course` are the evaluations of the first of `nodes`, one
/// for one, each in `scope` and with `depth` levels left.
pub open spec fn follows_each<H: Host>(
    course: Course<H>,
    nodes: Seq<ASTNode>,
    scope: ScopeId,
    depth: nat,
) -> bool
    decreases course, 0nat,
{
    &&& course.steps.len() <= nodes.len()
    &&& forall|k: int|
        0 <= k < course.steps.len() ==> follows(
            (#[trigger] course.at(k)).how,
            course.steps[k].before,
            nodes[k],
            scope,
            depth,
            course.steps[k].after,
            course.steps[k].outcome,
        )
}

/// The evaluation of the statements `nodes`, one after the other, each in
/// `scope`: it gives the value of the last one, null where there is none,
/// or the failure of the first one that fails, after which no statement is
/// evaluated.
pub open spec fn follows_statements<H: Host>(
    course: Course<H>,
    pre: Moment<H>,
    nodes: Seq<ASTNode>,
    scope: ScopeId,
    depth: nat,
    post: Moment<H>,
    r: Outcome,
) -> bool
    decreases course, 1nat,
{
    &&& depth > 0
    &&& progresses(pre, post)
    &&& course.is_linked(pre)
    &&& follows_each(course, nodes, scope, (depth - 1) as nat)
    &&& post == course.end(pre)
    &&& if course.failed() {
        r == course.steps.last().outcome
    } else {
        course.steps.len() == nodes.len() && r == (if nodes.len() == 0 {
            Ok::<RuntimeValue, EvaluationError>(RuntimeValue::Null)
        } else {
            course.steps.last().outcome
        })
    }
}

/// The evaluation of `left operand right`: the left side, then the right
/// side, then the operand on the two values.
pub open spec fn follows_binary<H: Host>(
    course: Course<H>,
    pre: Moment<H>,
    e: BinaryExpression,
    scope: ScopeId,
    depth: nat,
    post: Moment<H>,
    r: Outcome,
) -> bool
    decreases course, 1nat,
{
    let nodes = seq![*e.left, *e.right];
    &&& depth > 0
    &&& has_meaning(e.operand)
    &&& course.is_linked(pre)
    &&& follows_each(course, nodes, scope, (depth - 1) as nat)
    &&& post == course.end(pre)
    &&& if course.failed() {
        r == course.steps.last().outcome
    } else {
        course.steps.len() == 2 && exists|number: Number| #[trigger]
            computed(
                post.host,
                e.operand,
                course.steps[0].outcome->Ok_0,
                course.steps[1].outcome->Ok_0,
                number,
            ) && is_binary_result(
                e.operand,
                course.steps[0].outcome->Ok_0,
                course.steps[1].outcome->Ok_0,
                number,
                r,
            )
    }
}

/// The course is one evaluation, that of `node` in `scope`, from `pre`.
pub open spec fn one_step<H: Host>(
    course: Course<H>,
    pre: Moment<H>,
    node: ASTNode,
    scope: ScopeId,
    depth: nat,
) -> bool
    decreases course, 0nat,
{
    &&& course.steps.len() == 1
    &&& course.steps[0].before == pre
    &&& follows(
        course.steps[0].how,
        pre,
        node,
        scope,
        depth,
        course.steps[0].after,
        course.steps[0].outcome,
    )
}

/// The declaration of a variable: the initializer is evaluated, and its
/// value is declared under the name in `scope`.
pub open spec fn follows_declaration<H: Host>(
    course: Course<H>,
    pre: Moment<H>,
    is_immut: bool,
    identifier: String,
    type_id: DataType,
    value: ASTNode,
    scope: ScopeId,
    depth: nat,
    post: Moment<H>,
    r: Outcome,
) -> bool
    decreases course, 1nat,
{
    &&& depth > 0
    &&& one_step(course, pre, value, scope, (depth - 1) as nat)
    &&& match course.steps[0].outcome {
        Err(error) => r == Err::<RuntimeValue, EvaluationError>(error) && post
            == course.steps[0].after,
        Ok(v) => {
            let middle = course.steps[0].after;
            &&& runtime_step(middle, post)
            &&& r == as_statement(declare_result(middle.runtime, scope, type_id@, v))
            &&& declare_post(
                middle.runtime,
                post.runtime,
                scope,
                identifier@,
                type_id@,
                v,
                is_immut,
            )
        },
    }
}

/// What assigning to a field answers.
pub open spec fn field_assign_result(
    rt: Runtime,
    scope: ScopeId,
    receiver: Seq<char>,
    field: Seq<char>,
) -> Result<(), EvaluationError> {
    match rt.field_assignment(scope, receiver, field) {
        Ok(_) => Ok(()),
        Err(e) => Err(e),
    }
}

/// An assignment: the right side is evaluated, and its value is assigned
/// to the variable, or to the field of the layout instance that the
/// variable holds.
pub open spec fn follows_assignment<H: Host>(
    course: Course<H>,
    pre: Moment<H>,
    target: AssignmentProperty,
    value: ASTNode,
    scope: ScopeId,
    depth: nat,
    post: Moment<H>,
    r: Outcome,
) -> bool
    decreases course, 1nat,
{
    &&& depth > 0
    &&& one_step(course, pre, value, scope, (depth - 1) as nat)
    &&& match course.steps[0].outcome {
        Err(error) => r == Err::<RuntimeValue, EvaluationError>(error) && post
            == course.steps[0].after,
        Ok(v) => {
            let middle = course.steps[0].after;
            &&& runtime_step(middle, post)
            &&& match target {
                AssignmentProperty::Variable(name) => {
                    &&& r == as_statement(middle.runtime.assign_outcome(scope, name@, v))
                    &&& r is Ok ==> middle.runtime.assigns(post.runtime, scope, name@, v)
                    &&& r is Err ==> post.runtime == middle.runtime
                },
                AssignmentProperty::LayoutField(receiver, field) => {
                    &&& r == as_statement(
                        field_assign_result(middle.runtime, scope, receiver@, field@),
                    )
                    &&& field_assign_post(
                        middle.runtime,
                        post.runtime,
                        scope,
                        receiver@,
                        field@,
                        v,
                    )
                },
            }
        },
    }
}

/// `typeof`: the node is evaluated, and the name of the type of its value
/// is the result.
pub open spec fn follows_typeof<H: Host>(
    course: Course<H>,
    pre: Moment<H>,
    value: ASTNode,
    scope: ScopeId,
    depth: nat,
    post: Moment<H>,
    r: Outcome,
) -> bool
    decreases course, 1nat,
{
    &&& depth > 0
    &&& one_step(course, pre, value, scope, (depth - 1) as nat)
    &&& post == course.steps[0].after
    &&& match course.steps[0].outcome {
        Err(error) => r == Err::<RuntimeValue, EvaluationError>(error),
        Ok(v) => r matches Ok(RuntimeValue::String(name)) && name@ == type_of(v).name(),
    }
}

/// A block: its statements are evaluated in a new scope within `scope`.
pub open spec fn follows_code_block<H: Host>(
    course: Course<H>,
    pre: Moment<H>,
    code: Seq<ASTNode>,
    scope: ScopeId,
    depth: nat,
    post: Moment<H>,
    r: Outcome,
) -> bool
    decreases course, 1nat,
{
    if scope >= pre.runtime.scopes@.len() {
        r == Err::<RuntimeValue, EvaluationError>(EvaluationError::UnknownScope) && post == pre
    } else {
        let inner = pre.runtime.scopes@.len() as ScopeId;
        &&& course.steps.len() == 1
        &&& runtime_step(pre, course.steps[0].before)
        &&& pre.runtime.opens(course.steps[0].before.runtime, scope, inner)
        &&& follows_statements(
            course.steps[0].how,
            course.steps[0].before,
            code,
            inner,
            depth,
            course.steps[0].after,
            course.steps[0].outcome,
        )
        &&& r == course.steps[0].outcome
        &&& post == course.steps[0].after
    }
}

/// `if`: the condition is evaluated and must be a boolean; then the block
/// is evaluated where it holds, and the `else` block, where there is one,
/// where it does not. Without an `else` block the result is null.
pub open spec fn follows_if<H: Host>(
    course: Course<H>,
    pre: Moment<H>,
    statement: IfStatement,
    scope: ScopeId,
    depth: nat,
    post: Moment<H>,
    r: Outcome,
) -> bool
    decreases course, 1nat,
{
    &&& depth > 0
    &&& course.steps.len() >= 1
    &&& course.is_linked(pre)
    &&& post == course.end(pre)
    &&& follows(
        course.steps[0].how,
        course.steps[0].before,
        *statement.condition,
        scope,
        (depth - 1) as nat,
        course.steps[0].after,
        course.steps[0].outcome,
    )
    &&& match course.steps[0].outcome {
        Err(error) => course.steps.len() == 1 && r == Err::<RuntimeValue, EvaluationError>(error),
        Ok(RuntimeValue::Bool(holds)) => {
            let chosen = if holds {
                Some(statement.if_block)
            } else {
                statement.else_block
            };
            match chosen {
                Some(block) => {
                    &&& course.steps.len() == 2
                    &&& follows(
                        course.steps[1].how,
                        course.steps[1].before,
                        *block,
                        scope,
                        (depth - 1) as nat,
                        course.steps[1].after,
                        course.steps[1].outcome,
                    )
                    &&& r == course.steps[1].outcome
                },
                None => course.steps.len() == 1 && r == Ok::<RuntimeValue, EvaluationError>(
                    RuntimeValue::Null,
                ),
            }
        },
        Ok(_) => course.steps.len() == 1 && r == Err::<RuntimeValue, EvaluationError>(
            EvaluationError::NonBooleanCondition,
        ),
    }
}

/// A step that evaluates nothing: it only marks a moment.
pub open spec fn is_mark<H: Host>(step: Step<H>) -> bool {
    step.after == step.before && step.outcome is Ok
}

/// From `pre` to `opened`, a new scope was opened within `scope`.
pub open spec fn scope_opened<H: Host>(pre: Moment<H>, opened: Moment<H>, scope: ScopeId) -> bool {
    &&& runtime_step(pre, opened)
    &&& pre.runtime.opens(opened.runtime, scope, pre.runtime.scopes@.len() as ScopeId)
}

/// With `number` and `middle` as what is in between: from `prev` to
/// `before`, the loop bindings of round `k` were set in the scope `bound`.
/// A round of `repeat` binds `index` to the number of the round; a round of
/// `for` binds `index` to the place of `pair` and `value` to its value.
pub open spec fn round_starts_via<H: Host>(
    number: Number,
    middle: Runtime,
    prev: Moment<H>,
    before: Moment<H>,
    bound: ScopeId,
    k: int,
    pair: Option<IterablePair>,
) -> bool {
    &&& runtime_step(prev, before)
    &&& bound < prev.runtime.scopes@.len()
    &&& match pair {
        None => {
            &&& number.is_integer(k)
            &&& middle == before.runtime
            &&& bind_post(
                prev.runtime,
                before.runtime,
                bound,
                "index"@,
                RuntimeValue::Number(number),
            )
        },
        Some(p) => {
            &&& p.index <= EXACT_LIMIT
            &&& number.is_integer(p.index as int)
            &&& bind_post(prev.runtime, middle, bound, "index"@, RuntimeValue::Number(number))
            &&& bind_post(middle, before.runtime, bound, "value"@, p.value)
        },
    }
}

/// From `prev` to `before`, the loop bindings of round `k` were set.
pub open spec fn round_starts<H: Host>(
    prev: Moment<H>,
    before: Moment<H>,
    bound: ScopeId,
    k: int,
    pair: Option<IterablePair>,
) -> bool {
    exists|number: Number, middle: Runtime| #[trigger]
        round_starts_via(number, middle, prev, before, bound, k, pair)
}

/// The pair of round `k`, for a `for`; none for a `repeat`.
pub open spec fn pair_of(pairs: Option<Seq<IterablePair>>, k: int) -> Option<IterablePair> {
    match pairs {
        Some(list) => Some(list[k]),
        None => None,
    }
}

/// The steps of `course` from `first` on are the rounds of a loop: each
/// starts with its bindings set, evaluates `operation` in the scope `bound`
/// of the loop, and all but the last have succeeded.
pub open spec fn follows_rounds<H: Host>(
    course: Course<H>,
    first: int,
    operation: ASTNode,
    bound: ScopeId,
    depth: nat,
    pairs: Option<Seq<IterablePair>>,
) -> bool
    decreases course, 0nat,
{
    forall|k: int|
        1 <= first <= k < course.steps.len() ==> {
            let step = #[trigger] course.at(k);
            &&& round_starts(
                course.steps[k - 1].after,
                step.before,
                bound,
                k - first,
                pair_of(pairs, k - first),
            )
            &&& follows(step.how, step.before, operation, bound, depth, step.after, step.outcome)
            &&& k < course.steps.len() - 1 ==> step.outcome is Ok
        }
}

/// `(operation) ?: count`: the count is evaluated and must be a number;
/// then the operation is evaluated as often as the floor of the magnitude
/// of the count says, in one new scope for all the rounds, with the number
/// of the round bound to `index`.
pub open spec fn follows_repeat<H: Host>(
    course: Course<H>,
    pre: Moment<H>,
    count: ASTNode,
    operation: ASTNode,
    scope: ScopeId,
    depth: nat,
    post: Moment<H>,
    r: Outcome,
) -> bool
    decreases course, 1nat,
{
    &&& depth > 0
    &&& course.steps.len() >= 1
    &&& course.steps[0].before == pre
    &&& post == course.end(pre)
    &&& follows(
        course.steps[0].how,
        pre,
        count,
        scope,
        (depth - 1) as nat,
        course.steps[0].after,
        course.steps[0].outcome,
    )
    &&& match course.steps[0].outcome {
        Err(error) => course.steps.len() == 1 && r == Err::<RuntimeValue, EvaluationError>(error),
        Ok(value) => match spec_repeat_count(value) {
            Err(error) => course.steps.len() == 1 && r == Err::<RuntimeValue, EvaluationError>(
                error,
            ),
            Ok(times) => {
                let counted = course.steps[0].after;
                if scope >= counted.runtime.scopes@.len() {
                    course.steps.len() == 1 && r == Err::<RuntimeValue, EvaluationError>(
                        EvaluationError::UnknownScope,
                    )
                } else {
                    let bound = counted.runtime.scopes@.len() as ScopeId;
                    &&& 2 <= course.steps.len() <= 2 + times
                    &&& is_mark(course.steps[1])
                    &&& scope_opened(counted, course.steps[1].before, scope)
                    &&& follows_rounds(course, 2, operation, bound, (depth - 1) as nat, None)
                    &&& if course.failed() {
                        r == course.steps.last().outcome
                    } else {
                        course.steps.len() == 2 + times && r == Ok::<
                            RuntimeValue,
                            EvaluationError,
                        >(RuntimeValue::Null)
                    }
                }
            },
        },
    }
}

/// `for`: a new scope is opened for all the rounds, the iterable is
/// evaluated and must be an iterable, and the block is evaluated once for
/// each pair, with the place of the pair bound to `index` and its value to
/// `value`. A place that is no number ends the loop.
pub open spec fn follows_for<H: Host>(
    course: Course<H>,
    pre: Moment<H>,
    statement: ForStatement,
    scope: ScopeId,
    depth: nat,
    post: Moment<H>,
    r: Outcome,
) -> bool
    decreases course, 1nat,
{
    if scope >= pre.runtime.scopes@.len() {
        r == Err::<RuntimeValue, EvaluationError>(EvaluationError::UnknownScope) && post == pre
    } else {
        let bound = pre.runtime.scopes@.len() as ScopeId;
        &&& depth > 0
        &&& course.steps.len() >= 2
        &&& is_mark(course.steps[0])
        &&& scope_opened(pre, course.steps[0].before, scope)
        &&& course.steps[1].before == course.steps[0].after
        &&& post == course.end(pre)
        &&& follows(
            course.steps[1].how,
            course.steps[1].before,
            *statement.iterable,
            scope,
            (depth - 1) as nat,
            course.steps[1].after,
            course.steps[1].outcome,
        )
        &&& match course.steps[1].outcome {
            Err(error) => course.steps.len() == 2 && r == Err::<RuntimeValue, EvaluationError>(
                error,
            ),
            Ok(RuntimeValue::Iterable(pairs)) => {
                let done = course.steps.len() - 2;
                &&& done <= pairs@.len()
                &&& follows_rounds(
                    course,
                    2,
                    *statement.block,
                    bound,
                    (depth - 1) as nat,
                    Some(pairs@),
                )
                &&& if done > 0 && course.failed() {
                    r == course.steps.last().outcome
                } else if done == pairs@.len() {
                    r == Ok::<RuntimeValue, EvaluationError>(RuntimeValue::Null)
                } else {
                    pairs@[done].index > EXACT_LIMIT && r == Err::<RuntimeValue, EvaluationError>(
                        EvaluationError::NumberOutOfRange,
                    )
                }
            },
            Ok(_) => course.steps.len() == 2 && r == Err::<RuntimeValue, EvaluationError>(
                EvaluationError::TypeMismatch,
            ),
        }
    }
}

/// The first `count` steps of `course` are the evaluations of the
/// conditions of the first `count` branches, and none but the last of them
/// gave the boolean `true`.
pub open spec fn follows_conditions<H: Host>(
    course: Course<H>,
    statement: OnceStatement,
    count: int,
    scope: ScopeId,
    depth: nat,
) -> bool
    decreases course, 0nat,
{
    &&& 0 <= count <= course.steps.len()
    &&& count <= statement.if_statements@.len()
    &&& forall|k: int|
        0 <= k < count ==> {
            let step = #[trigger] course.at(k);
            &&& follows(
                step.how,
                step.before,
                *statement.if_statements@[k].condition,
                scope,
                depth,
                step.after,
                step.outcome,
            )
            &&& k < count - 1 ==> !(step.outcome matches Ok(RuntimeValue::Bool(true)))
        }
}

/// `once`: the conditions of the branches are evaluated in their order
/// until one gives the boolean `true`; the block of that branch is
/// evaluated then. Where none does, the `else` block is evaluated, and
/// where there is none, the result is null. A condition that gives
/// something else than a boolean is passed over.
pub open spec fn follows_once<H: Host>(
    course: Course<H>,
    pre: Moment<H>,
    statement: OnceStatement,
    scope: ScopeId,
    depth: nat,
    post: Moment<H>,
    r: Outcome,
) -> bool
    decreases course, 1nat,
{
    let n = course.steps.len() as int;
    let branches = statement.if_statements@;
    &&& depth > 0
    &&& course.is_linked(pre)
    &&& post == course.end(pre)
    &&& {
        ||| {
            // a condition failed
            &&& n >= 1
            &&& follows_conditions(course, statement, n, scope, (depth - 1) as nat)
            &&& course.steps[n - 1].outcome is Err
            &&& r == course.steps[n - 1].outcome
        }
        ||| {
            // a condition held
            &&& n >= 2
            &&& follows_conditions(course, statement, n - 1, scope, (depth - 1) as nat)
            &&& course.steps[n - 2].outcome matches Ok(RuntimeValue::Bool(true))
            &&& follows(
                course.steps[n - 1].how,
                course.steps[n - 1].before,
                *branches[n - 2].if_block,
                scope,
                (depth - 1) as nat,
                course.steps[n - 1].after,
                course.steps[n - 1].outcome,
            )
            &&& r == course.steps[n - 1].outcome
        }
        ||| {
            // no condition held, and there is an else block
            &&& n == branches.len() + 1
            &&& follows_conditions(course, statement, n - 1, scope, (depth - 1) as nat)
            &&& n >= 2 ==> !(course.steps[n - 2].outcome matches Ok(RuntimeValue::Bool(true)))
            &&& statement.else_block matches Some(block) && follows(
                course.steps[n - 1].how,
                course.steps[n - 1].before,
                *block,
                scope,
                (depth - 1) as nat,
                course.steps[n - 1].after,
                course.steps[n - 1].outcome,
            )
            &&& r == course.steps[n - 1].outcome
        }
        ||| {
            // no condition held, and there is no else block
            &&& n == branches.len()
            &&& follows_conditions(course, statement, n, scope, (depth - 1) as nat)
            &&& n >= 1 ==> course.steps[n - 1].outcome is Ok && !(course.steps[n - 1].outcome
                matches Ok(RuntimeValue::Bool(true)))
            &&& statement.else_block is None
            &&& r == Ok::<RuntimeValue, EvaluationError>(RuntimeValue::Null)
        }
    }
}

/// `values` are the values that the steps of `course` gave, in their
/// order.
pub open spec fn handed<H>(course: Course<H>, values: Vec<RuntimeValue>) -> bool {
    &&& values@.len() == course.steps.len()
    &&& forall|k: int|
        0 <= k < values@.len() ==> (#[trigger] course.at(k)).outcome == Ok::<
            RuntimeValue,
            EvaluationError,
        >(values@[k])
}

/// The native function that a call of `callee` goes to: a callee that is
/// a name which stands for a native function.
pub open spec fn native_callee(rt: Runtime, callee: ASTNode, scope: ScopeId) -> Option<
    MoSaNativeFunction,
> {
    match callee {
        ASTNode::Identifier(name) => rt.native_function(scope, name@),
        _ => None,
    }
}

/// A call. Where the callee names a native function, the arguments are
/// evaluated from left to right in the caller's scope and handed to the
/// host, whatever their types; the call gives what the host gives.
/// Anything else is evaluated and must give a reference to a function,
/// which is then called. A tied method gets, as its first argument, the
/// value of the name of its receiver in the scope where it was taken.
pub open spec fn follows_call<H: Host>(
    course: Course<H>,
    pre: Moment<H>,
    callee: ASTNode,
    args: Seq<ASTNode>,
    scope: ScopeId,
    depth: nat,
    post: Moment<H>,
    r: Outcome,
) -> bool
    decreases course, 1nat,
{
    &&& depth > 0
    &&& match native_callee(pre.runtime, callee, scope) {
        Some(function) => {
            &&& course.is_linked(pre)
            &&& follows_each(course, args, scope, (depth - 1) as nat)
            &&& if course.failed() {
                r == course.steps.last().outcome && post == course.end(pre)
            } else {
                &&& course.steps.len() == args.len()
                &&& r is Ok
                &&& post.runtime == course.end(pre).runtime
                &&& post.modules == course.end(pre).modules
                &&& exists|values: Vec<RuntimeValue>| #[trigger]
                    handed(course, values) && answers(
                        course.end(pre).host,
                        function,
                        values,
                        post.host,
                        r->Ok_0,
                    )
            }
        },
        None => {
            &&& course.steps.len() >= 1
            &&& course.is_linked(pre)
            &&& post == course.end(pre)
            &&& follows(
                course.steps[0].how,
                course.steps[0].before,
                callee,
                scope,
                (depth - 1) as nat,
                course.steps[0].after,
                course.steps[0].outcome,
            )
            &&& match course.steps[0].outcome {
                Err(error) => course.steps.len() == 1 && r == Err::<
                    RuntimeValue,
                    EvaluationError,
                >(error),
                Ok(RuntimeValue::Reference(Reference::Function(f))) => follows_called(
                    course,
                    f,
                    None,
                    args,
                    scope,
                    depth,
                    r,
                ),
                Ok(RuntimeValue::Reference(Reference::MethodLikeFunction(f, name, scoped))) => {
                    match course.steps[0].after.runtime.identifier_value(scoped, name@) {
                        Err(error) => course.steps.len() == 1 && r == Err::<
                            RuntimeValue,
                            EvaluationError,
                        >(error),
                        Ok(receiver) => follows_called(
                            course,
                            f,
                            Some(receiver),
                            args,
                            scope,
                            depth,
                            r,
                        ),
                    }
                },
                Ok(_) => course.steps.len() == 1 && r == Err::<RuntimeValue, EvaluationError>(
                    EvaluationError::NotCallable,
                ),
            }
        },
    }
}

/// The second step of `course` is the call of `f`, and gives `r`.
pub open spec fn follows_called<H: Host>(
    course: Course<H>,
    f: FunctionData,
    receiver: Option<RuntimeValue>,
    args: Seq<ASTNode>,
    scope: ScopeId,
    depth: nat,
    r: Outcome,
) -> bool
    decreases course, 0nat,
{
    &&& course.steps.len() == 2
    &&& follows_function(
        course.steps[1].how,
        course.steps[1].before,
        f,
        receiver,
        args,
        scope,
        depth,
        course.steps[1].after,
        course.steps[1].outcome,
    )
    &&& r == course.steps[1].outcome
}

/// From `prev` to `before`, the parameter `param` of a call was bound to
/// `value` in the scope `inner` of the call.
pub open spec fn parameter_bound<H: Host>(
    prev: Moment<H>,
    before: Moment<H>,
    inner: ScopeId,
    param: (Seq<char>, crate::global::DataType),
    value: RuntimeValue,
) -> bool {
    &&& runtime_step(prev, before)
    &&& bind_outcome(prev.runtime, inner, param.1@, value) is Ok
    &&& parameter_post(prev.runtime, before.runtime, inner, param.0, param.1@, value)
}

/// Where the step at `place` of the course of a call starts: at the mark
/// for the first one, and for each later one where the parameter before it
/// was bound to what the step before gave.
pub open spec fn starts_after_binding<H: Host>(
    course: Course<H>,
    place: int,
    f: FunctionData,
    inner: ScopeId,
) -> bool {
    if place == 1 {
        course.steps[1].before == course.steps[0].after
    } else {
        course.steps[place - 1].outcome is Ok && parameter_bound(
            course.steps[place - 1].after,
            course.steps[place].before,
            inner,
            params_of(*f.args)[place - 2],
            course.steps[place - 1].outcome->Ok_0,
        )
    }
}

/// `step` gives parameter `i` of a call its argument: it holds the
/// receiver for the first parameter where there is a receiver, and for
/// every other parameter it is the evaluation of its argument in the
/// caller's scope. A parameter without an argument fails the call.
pub open spec fn argument_of<H: Host>(
    step: Step<H>,
    receiver: Option<RuntimeValue>,
    args: Seq<ASTNode>,
    scope: ScopeId,
    depth: nat,
    i: int,
) -> bool
    decreases step.how, 4nat,
{
    let shift: int = if receiver is Some {
        1
    } else {
        0
    };
    if i < shift {
        step.after == step.before && step.outcome == Ok::<RuntimeValue, EvaluationError>(
            receiver->0,
        )
    } else if i - shift >= args.len() {
        step.after == step.before && step.outcome == Err::<RuntimeValue, EvaluationError>(
            EvaluationError::ArityOrShapeError,
        )
    } else {
        follows(step.how, step.before, args[i - shift], scope, depth, step.after, step.outcome)
    }
}

/// From where `step` ends to `post`, the parameter `param` was bound to
/// what the step gave, and `out` is what that answers. Nothing is bound
/// where the step failed.
pub open spec fn bound_after<H: Host>(
    step: Step<H>,
    inner: ScopeId,
    param: (Seq<char>, crate::global::DataType),
    post: Moment<H>,
    out: Result<(), EvaluationError>,
) -> bool {
    match step.outcome {
        Err(error) => out == Err::<(), EvaluationError>(error) && post == step.after,
        Ok(value) => {
            &&& out == bind_outcome(step.after.runtime, inner, param.1@, value)
            &&& out is Ok ==> parameter_bound(step.after, post, inner, param, value)
            &&& out is Err ==> post == step.after
        },
    }
}

/// The steps of `course` after the mark, as far as they stand for
/// parameters, give the parameters their arguments, each starting where
/// the parameter before it was bound, and all but the last with success.
pub open spec fn follows_parameters<H: Host>(
    course: Course<H>,
    f: FunctionData,
    receiver: Option<RuntimeValue>,
    args: Seq<ASTNode>,
    scope: ScopeId,
    inner: ScopeId,
    depth: nat,
) -> bool
    decreases course, 0nat,
{
    forall|j: int|
        1 <= j < course.steps.len() && j <= params_of(*f.args).len() ==> {
            let step = #[trigger] course.at(j);
            &&& starts_after_binding(course, j, f, inner)
            &&& argument_of(step, receiver, args, scope, depth, j - 1)
            &&& j < course.steps.len() - 1 ==> step.outcome is Ok
        }
}

/// The binding of the parameters of a call, from the moment `opened` at
/// which the scope `inner` of the call is open: the first step of `course`
/// marks that moment, and one step follows for each parameter that was
/// reached. With success, every parameter is bound at `post`; a failure is
/// that of the last step, or that of binding what it gave.
pub open spec fn binds_arguments<H: Host>(
    course: Course<H>,
    opened: Moment<H>,
    f: FunctionData,
    receiver: Option<RuntimeValue>,
    args: Seq<ASTNode>,
    scope: ScopeId,
    inner: ScopeId,
    depth: nat,
    post: Moment<H>,
    out: Result<(), EvaluationError>,
) -> bool
    decreases course, 1nat,
{
    let params = f.parameters();
    let n = course.steps.len() as int;
    &&& 1 <= n <= params.len() + 1
    &&& is_mark(course.steps[0])
    &&& course.steps[0].before == opened
    &&& follows_parameters(course, f, receiver, args, scope, inner, depth)
    &&& match out {
        Ok(()) => {
            &&& n == params.len() + 1
            &&& !course.failed()
            &&& n == 1 ==> post == opened
            &&& n > 1 ==> parameter_bound(
                course.steps[n - 1].after,
                post,
                inner,
                params[n - 2],
                course.steps[n - 1].outcome->Ok_0,
            )
        },
        Err(error) => {
            &&& n >= 2
            &&& post == course.steps[n - 1].after
            &&& match course.steps[n - 1].outcome {
                Err(e) => e == error,
                Ok(value) => bind_outcome(
                    course.steps[n - 1].after.runtime,
                    inner,
                    params[n - 2].1@,
                    value,
                ) == Err::<(), EvaluationError>(error),
            }
        },
    }
}

/// The call of the function `f`: a new scope is opened within the scope in
/// which the function was declared, whoever calls; each parameter is bound
/// in it, in the order of the parameters, to its argument, whose type must
/// be the type of the parameter itself; the body is evaluated in that
/// scope; and what it gives must be of a type that the return type takes.
pub open spec fn follows_function<H: Host>(
    course: Course<H>,
    pre: Moment<H>,
    f: FunctionData,
    receiver: Option<RuntimeValue>,
    args: Seq<ASTNode>,
    scope: ScopeId,
    depth: nat,
    post: Moment<H>,
    r: Outcome,
) -> bool
    decreases course, 1nat,
{
    if f.scope >= pre.runtime.scopes@.len() {
        r == Err::<RuntimeValue, EvaluationError>(EvaluationError::UnknownScope) && post == pre
    } else {
        let inner = pre.runtime.scopes@.len() as ScopeId;
        let params = params_of(*f.args);
        let n = course.steps.len() as int;
        &&& depth > 0
        &&& 1 <= n <= params.len() + 2
        &&& is_mark(course.steps[0])
        &&& scope_opened(pre, course.steps[0].before, f.scope)
        &&& post == course.end(pre)
        &&& follows_parameters(course, f, receiver, args, scope, inner, (depth - 1) as nat)
        &&& if n == params.len() + 2 {
            let body = course.steps[n - 1];
            &&& starts_after_binding(course, n - 1, f, inner)
            &&& follows_statements(
                body.how,
                body.before,
                f.body@,
                inner,
                depth,
                body.after,
                body.outcome,
            )
            &&& r == (match body.outcome {
                Err(error) => Err::<RuntimeValue, EvaluationError>(error),
                Ok(value) => match return_outcome(value, f.return_type@) {
                    Ok(()) => Ok(value),
                    Err(error) => Err(error),
                },
            })
        } else {
            &&& n >= 2
            &&& match course.steps[n - 1].outcome {
                Err(error) => r == Err::<RuntimeValue, EvaluationError>(error),
                Ok(value) => (bind_outcome(
                    course.steps[n - 1].after.runtime,
                    inner,
                    params[n - 2].1@,
                    value,
                ) matches Err(error) && r == Err::<RuntimeValue, EvaluationError>(error)),
            }
        }
    }
}

/// The declaration of the layout that a creation of `name` in `scope`
/// makes an instance of.
pub open spec fn creation_target(rt: Runtime, scope: ScopeId, name: Seq<char>) -> Option<LayoutId> {
    match rt.layout(scope, name) {
        Some(d) => if d < rt.declarations@.len() {
            Some(d)
        } else {
            None
        },
        None => None,
    }
}

/// The node that gives field `k` of a new instance its value: the default
/// of the `k`-th declared field, where it has one, for the declared fields,
/// and after them the values that the creation names, in their order.
pub open spec fn field_node(
    declared: StrMap<FieldParserDescription>,
    creation: LayoutCreation,
    k: int,
) -> Option<ASTNode> {
    if k < declared.keys().len() {
        match declared.values()[k].default_value {
            Some(node) => Some(*node),
            None => None,
        }
    } else {
        Some(*creation.specified_fields.values()[k - declared.keys().len()])
    }
}

/// The name of field `k` of a new instance, in the order of `field_node`.
pub open spec fn field_key(
    declared: StrMap<FieldParserDescription>,
    creation: LayoutCreation,
    k: int,
) -> Seq<char> {
    if k < declared.keys().len() {
        declared.keys()[k]
    } else {
        creation.specified_fields.keys()[k - declared.keys().len()]
    }
}

/// The steps of `course` give the fields of a new instance their values,
/// one step for each field: the evaluation of its node, or a mark for a
/// declared field without a default.
pub open spec fn follows_fields<H: Host>(
    course: Course<H>,
    declared: StrMap<FieldParserDescription>,
    creation: LayoutCreation,
    scope: ScopeId,
    depth: nat,
) -> bool
    decreases course, 0nat,
{
    forall|k: int|
        0 <= k < course.steps.len() ==> {
            let step = #[trigger] course.at(k);
            match field_node(declared, creation, k) {
                Some(node) => follows(
                    step.how,
                    step.before,
                    node,
                    scope,
                    depth,
                    step.after,
                    step.outcome,
                ),
                None => is_mark(step),
            }
        }
}

/// The fields that the first `n` steps have given their values: a later
/// value of a name replaces an earlier one.
pub open spec fn gathered<H: Host>(
    declared: StrMap<FieldParserDescription>,
    creation: LayoutCreation,
    course: Course<H>,
    n: nat,
) -> Map<Seq<char>, RuntimeValue>
    decreases n,
{
    if n == 0 {
        Map::empty()
    } else {
        let rest = gathered(declared, creation, course, (n - 1) as nat);
        match field_node(declared, creation, n - 1) {
            Some(_) => rest.insert(
                field_key(declared, creation, n - 1),
                course.steps[n - 1].outcome->Ok_0,
            ),
            None => rest,
        }
    }
}

/// From `end` to `post`, a layout instance with the fields `fields` was
/// made, and `r` is the value that holds it.
pub open spec fn instance_made<H: Host>(
    end: Moment<H>,
    post: Moment<H>,
    fields: Map<Seq<char>, RuntimeValue>,
    name: String,
    r: Outcome,
) -> bool {
    let handle = end.runtime.instances@.len();
    &&& runtime_step(end, post)
    &&& post.runtime.scopes == end.runtime.scopes
    &&& post.runtime.declarations == end.runtime.declarations
    &&& post.runtime.instances@.len() == handle + 1
    &&& post.runtime.instances@ == end.runtime.instances@.push(post.runtime.instances@[handle as int])
    &&& post.runtime.instances@[handle as int]@ == fields
    &&& r == Ok::<RuntimeValue, EvaluationError>(
        RuntimeValue::Complex(
            ComplexRuntimeValue::Layout(LayoutData { layout_id: name, entries: handle as usize }),
        ),
    )
}

/// The creation of a layout instance: each declared field that has a
/// default gets it, evaluated anew; then each field that the creation
/// names, which must be a field of the layout, gets its value; every
/// declared field must have got a value; and the instance is new.
pub open spec fn follows_creation<H: Host>(
    course: Course<H>,
    pre: Moment<H>,
    creation: LayoutCreation,
    scope: ScopeId,
    depth: nat,
    post: Moment<H>,
    r: Outcome,
) -> bool
    decreases course, 1nat,
{
    match creation_target(pre.runtime, scope, creation.name@) {
        None => r == Err::<RuntimeValue, EvaluationError>(EvaluationError::UndeclaredLayout)
            && post == pre,
        Some(d) => {
            let declared = *pre.runtime.declarations@[d as int].fields;
            let n = declared.keys().len() as int;
            let m = creation.specified_fields.keys().len() as int;
            let done = course.steps.len() as int;
            let end = course.end(pre);
            &&& depth > 0
            &&& done <= n + m
            &&& course.is_linked(pre)
            &&& follows_fields(course, declared, creation, scope, (depth - 1) as nat)
            &&& forall|k: int|
                n <= k < done - 1 ==> declared@.contains_key(
                    #[trigger] field_key(declared, creation, k),
                )
            &&& if course.failed() {
                r == course.steps.last().outcome && post == end
            } else if done > n && !declared@.contains_key(field_key(declared, creation, done - 1)) {
                r == Err::<RuntimeValue, EvaluationError>(EvaluationError::UnknownField) && post
                    == end
            } else {
                let fields = gathered(declared, creation, course, done as nat);
                &&& done == n + m
                &&& if forall|key: Seq<char>|
                    declared@.contains_key(key) ==> fields.contains_key(key) {
                    instance_made(end, post, fields, creation.name, r)
                } else {
                    r == Err::<RuntimeValue, EvaluationError>(EvaluationError::ArityOrShapeError)
                        && post == end
                }
            }
        },
    }
}

/// From `pre` to `post`, the scope `scope` imported `symbol` from the
/// module at `place`, which has run; and `r` is the value that the module
/// gave.
pub open spec fn imported<H: Host>(
    pre: Moment<H>,
    post: Moment<H>,
    place: usize,
    symbol: String,
    scope: ScopeId,
    r: Outcome,
) -> bool {
    let module = pre.modules.modules@[place as int];
    &&& runtime_step(pre, post)
    &&& r == import_result(pre.runtime, pre.modules, place, symbol@, scope)
    &&& if module.exports@.contains_key(symbol@) {
        import_post(pre.runtime, post.runtime, scope, symbol@, module.exports@[symbol@])
    } else {
        post.runtime == pre.runtime
    }
}

/// From `ran` to `done`, the module at `place`, whose statements gave
/// `value`, has exported the layouts that it had marked and has kept the
/// value as its result. A module that has a result already stays as it is.
/// Where the scope of the module does not know one of the marked layouts,
/// the module gets no result.
pub open spec fn module_finished<H: Host>(
    ran: Moment<H>,
    done: Moment<H>,
    place: usize,
    value: RuntimeValue,
) -> bool {
    &&& done.runtime == ran.runtime
    &&& done.host == ran.host
    &&& module_finish_post(ran.modules, done.modules, ran.runtime, place, value)
}

/// An import. A module that has run is not run again: its symbol is
/// imported, and the value that it gave is the result. A module that has
/// not run exports the functions that it had marked, runs its statements in
/// its own scope, exports the layouts that it had marked, and keeps the
/// value of its statements; then its symbol is imported.
pub open spec fn follows_module<H: Host>(
    course: Course<H>,
    pre: Moment<H>,
    path: String,
    symbol: String,
    scope: ScopeId,
    depth: nat,
    post: Moment<H>,
    r: Outcome,
) -> bool
    decreases course, 1nat,
{
    match pre.modules.place(path@) {
        None => r == Err::<RuntimeValue, EvaluationError>(EvaluationError::UndeclaredModule)
            && post == pre,
        Some(place) => {
            let module = pre.modules.modules@[place as int];
            if module.cached_result is Some {
                imported(pre, post, place, symbol, scope, r)
            } else {
                let run = course.steps[0];
                &&& depth > 0
                &&& course.steps.len() >= 1
                &&& run.before.runtime == pre.runtime
                &&& run.before.host == pre.host
                &&& functions_exported(pre.modules, run.before.modules, place)
                &&& follows_statements(
                    run.how,
                    run.before,
                    module.ast@,
                    module.scope,
                    depth,
                    run.after,
                    run.outcome,
                )
                &&& match run.outcome {
                    Err(error) => course.steps.len() == 1 && r == Err::<
                        RuntimeValue,
                        EvaluationError,
                    >(error) && post == run.after,
                    Ok(value) => {
                        let done = course.steps[1].before;
                        &&& course.steps.len() == 2
                        &&& is_mark(course.steps[1])
                        &&& place < run.after.modules.modules@.len()
                        &&& module_finished(run.after, done, place, value)
                        &&& if done.modules.modules@[place as int].cached_result is Some {
                            imported(done, post, place, symbol, scope, r)
                        } else {
                            r == Err::<RuntimeValue, EvaluationError>(
                                EvaluationError::UndeclaredLayout,
                            ) && post == done
                        }
                    },
                }
            }
        },
    }
}

/// A module that has run is not run again: an import from it leaves the
/// host and the modules as they are, and gives the value that the module
/// gave when it ran, if it gives one.
pub proof fn law_module_runs_once<H: Host>(
    course: Course<H>,
    pre: Moment<H>,
    path: String,
    symbol: String,
    scope: ScopeId,
    depth: nat,
    post: Moment<H>,
    r: Outcome,
)
    requires
        depth > 0,
        follows(course, pre, ASTNode::UseModule(path, symbol), scope, depth, post, r),
        pre.modules.module(path@) matches Some(module) && module.cached_result is Some,
    ensures
        post.host == pre.host,
        post.modules == pre.modules,
        r matches Ok(value) ==> pre.modules.module(path@)->0.cached_result == Some(value),
{
    reveal_with_fuel(follows, 3);
}

/// An import that gives a value leaves the module with that value as its
/// result: together with `law_module_runs_once`, a second import of the
/// module gives the same value and runs nothing.
pub proof fn law_import_leaves_result<H: Host>(
    course: Course<H>,
    pre: Moment<H>,
    path: String,
    symbol: String,
    scope: ScopeId,
    depth: nat,
    post: Moment<H>,
    r: Outcome,
)
    requires
        depth > 0,
        follows(course, pre, ASTNode::UseModule(path, symbol), scope, depth, post, r),
        r is Ok,
    ensures
        post.modules.module(path@) matches Some(module) && module.cached_result == Some(
            r->Ok_0,
        ),
{
    reveal_with_fuel(follows, 3);
    let place = pre.modules.place(path@)->0;
    let module = pre.modules.modules@[place as int];
    if module.cached_result is None {
        let run = course.steps[0];
        let done = course.steps[1].before;
        crate::interpreter::steps::lemma_storage_keeps_places(pre.modules, run.before.modules);
        crate::interpreter::steps::lemma_storage_keeps_places(run.before.modules, run.after.modules);
        crate::interpreter::steps::lemma_storage_keeps_places(run.after.modules, done.modules);
    }
}

/// Where `(operation) ?: count` gives a value, the operation was evaluated
/// exactly as often as the floor of the magnitude of the count says: after
/// the count and the opening of the scope of the loop, the course has one
/// step for each round, round `k` starts with `index` bound to the number
/// `k`, and each round has succeeded.
pub proof fn law_repeat_runs_floor_times<H: Host>(
    course: Course<H>,
    pre: Moment<H>,
    count: ASTNode,
    operation: ASTNode,
    scope: ScopeId,
    depth: nat,
    post: Moment<H>,
    r: Outcome,
)
    requires
        follows_repeat(course, pre, count, operation, scope, depth, post, r),
        r is Ok,
    ensures
        course.steps.len() >= 2,
        course.steps[0].outcome matches Ok(value) && spec_repeat_count(value) matches Ok(times)
            && {
            let bound = course.steps[0].after.runtime.scopes@.len() as ScopeId;
            &&& course.steps.len() == 2 + times
            &&& forall|k: int|
                0 <= k < times ==> {
                    let step = #[trigger] course.at(2 + k);
                    &&& round_starts(course.steps[1 + k].after, step.before, bound, k, None)
                    &&& follows(
                        step.how,
                        step.before,
                        operation,
                        bound,
                        (depth - 1) as nat,
                        step.after,
                        step.outcome,
                    )
                    &&& step.outcome is Ok
                }
        },
{
    let value = course.steps[0].outcome->Ok_0;
    let times = spec_repeat_count(value)->Ok_0;
    let bound = course.steps[0].after.runtime.scopes@.len() as ScopeId;
    assert forall|k: int| 0 <= k < times implies {
        let step = #[trigger] course.at(2 + k);
        &&& round_starts(course.steps[1 + k].after, step.before, bound, k, None)
        &&& follows(
            step.how,
            step.before,
            operation,
            bound,
            (depth - 1) as nat,
            step.after,
            step.outcome,
        )
        &&& step.outcome is Ok
    } by {
        let step = course.at(2 + k);
        assert(pair_of(None, k) == None::<IterablePair>);
        assert(course.steps[2 + k - 1] == course.steps[1 + k]);
    }
}

} // verus!
