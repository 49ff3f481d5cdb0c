//! The evaluator: a walk over the syntax tree that gives one value for
//! every node and changes the runtime on the way.

pub mod environment;
pub mod scope;
pub mod semantics;
pub mod steps;
pub mod structs;

use crate::collections::StrMap;
use crate::global::DataType;
use crate::interpreter::scope::{args_get, args_len, params_of, FunctionData, Runtime, RuntimeScope};
use crate::interpreter::semantics::{
    argument_of,
    binds_arguments,
    bound_after,
    creation_target,
    field_key,
    field_node,
    follows,
    follows_assignment,
    follows_binary,
    follows_call,
    follows_called,
    follows_code_block,
    follows_conditions,
    follows_creation,
    follows_declaration,
    follows_each,
    follows_fields,
    follows_for,
    follows_function,
    follows_if,
    follows_module,
    follows_once,
    follows_parameters,
    follows_repeat,
    follows_rounds,
    follows_statements,
    follows_typeof,
    handed,
    gathered,
    is_mark,
    module_finished,
    pair_of,
    parameter_bound,
    round_starts,
    round_starts_via,
    starts_after_binding,
    Course,
    Moment,
    Outcome,
    Step,
};
use crate::interpreter::steps::{
    apply_operand,
    assign_field_in,
    assign_in,
    bind_in,
    bind_parameter,
    call_scope,
    check_return,
    computed,
    condition_of,
    covers,
    create_lambda,
    declare_in,
    declare_layout_in,
    eval_binding_access,
    eval_complex_type_access,
    eval_define_native_fn,
    eval_enum_declaration,
    eval_fn_declaration,
    eval_layout_field_access,
    finish_module,
    first_that_holds,
    get_identifier_value,
    has_meaning,
    import_symbol,
    index_number,
    is_binary_result,
    make_instance,
    mix_in,
    open_scope,
    operand_has_meaning,
    push_scope,
    register_function_exports,
    repeat_count,
    type_name_of,
};
use crate::interpreter::structs::{
    ComplexRuntimeValue,
    EvaluationError,
    Host,
    IterablePair,
    LayoutData,
    Reference,
    RuntimeValue,
    ScopeId,
};
use crate::modules::ModuleStorage;
use crate::number::Number;
use crate::parser::structs::{
    ASTNode,
    AssignmentProperty,
    BinaryExpression,
    ExpressionType,
    FieldParserDescription,
    ForStatement,
    IfStatement,
    LayoutCreation,
    OnceStatement,
};
use crate::util::share;
use std::sync::Arc;
use vstd::prelude::*;

verus! {

/// A course whose steps so far follow the first of `nodes` is still one
/// when the evaluation of the next node is added to it.
pub proof fn lemma_one_more<H: Host>(
    course: Course<H>,
    next: Step<H>,
    pre: Moment<H>,
    nodes: Seq<ASTNode>,
    scope: ScopeId,
    depth: nat,
) -> (longer: Course<H>)
    requires
        course.is_linked(pre),
        !course.failed(),
        follows_each(course, nodes, scope, depth),
        course.steps.len() < nodes.len(),
        next.before == course.end(pre),
        follows(
            next.how,
            next.before,
            nodes[course.steps.len() as int],
            scope,
            depth,
            next.after,
            next.outcome,
        ),
    ensures
        longer.steps == course.steps.push(next),
        longer.is_linked(pre),
        follows_each(longer, nodes, scope, depth),
        longer.end(pre) == next.after,
        longer.failed() == next.outcome is Err,
{
    let longer = Course { steps: course.steps.push(next) };
    assert forall|k: int| 0 <= k < longer.steps.len() implies (#[trigger] longer.at(k)).before
        == (if k == 0 {
        pre
    } else {
        longer.steps[k - 1].after
    }) && (k < longer.steps.len() - 1 ==> longer.steps[k].outcome is Ok) by {
        assert(course.at(k) == course.steps[k]);
        assert(course.at(k - 1) == course.steps[k - 1]);
        if k < course.steps.len() {
            assert(longer.steps[k] == course.steps[k]);
            if k > 0 {
                assert(longer.steps[k - 1] == course.steps[k - 1]);
            }
            if k == course.steps.len() - 1 {
                assert(course.steps[k] == course.steps.last());
            }
        } else {
            if k > 0 {
                assert(longer.steps[k - 1] == course.steps.last());
            }
        }
    }
    assert forall|k: int| 0 <= k < longer.steps.len() implies follows(
        (#[trigger] longer.at(k)).how,
        longer.steps[k].before,
        nodes[k],
        scope,
        depth,
        longer.steps[k].after,
        longer.steps[k].outcome,
    ) by {
        assert(course.at(k) == course.steps[k]);
        assert(course.at(k - 1) == course.steps[k - 1]);
        if k < course.steps.len() {
            assert(longer.steps[k] == course.steps[k]);
        }
    }
    longer
}

/// The rounds of a loop are still the rounds of a loop when one more round
/// is added.
pub proof fn lemma_one_more_round<H: Host>(
    course: Course<H>,
    next: Step<H>,
    first: int,
    operation: ASTNode,
    bound: ScopeId,
    depth: nat,
    pairs: Option<Seq<IterablePair>>,
) -> (longer: Course<H>)
    requires
        1 <= first <= course.steps.len(),
        !course.failed(),
        follows_rounds(course, first, operation, bound, depth, pairs),
        round_starts(
            course.steps.last().after,
            next.before,
            bound,
            course.steps.len() - first,
            pair_of(pairs, course.steps.len() - first),
        ),
        follows(next.how, next.before, operation, bound, depth, next.after, next.outcome),
    ensures
        longer.steps == course.steps.push(next),
        follows_rounds(longer, first, operation, bound, depth, pairs),
        longer.steps.last().after == next.after,
        longer.failed() == next.outcome is Err,
        forall|k: int| 0 <= k < course.steps.len() ==> longer.steps[k] == course.steps[k],
{
    let longer = Course { steps: course.steps.push(next) };
    assert forall|k: int| 1 <= first <= k < longer.steps.len() implies {
        let step = #[trigger] longer.at(k);
        &&& round_starts(
            longer.steps[k - 1].after,
            step.before,
            bound,
            k - first,
            pair_of(pairs, k - first),
        )
        &&& follows(step.how, step.before, operation, bound, depth, step.after, step.outcome)
        &&& k < longer.steps.len() - 1 ==> step.outcome is Ok
    } by {
        assert(course.at(k) == course.steps[k]);
        assert(course.at(k - 1) == course.steps[k - 1]);
        assert(longer.steps[k - 1] == course.steps[k - 1]);
        if k < course.steps.len() {
            assert(longer.steps[k] == course.steps[k]);
            if k == course.steps.len() - 1 {
                assert(course.steps[k] == course.steps.last());
            }
        } else {
            assert(course.steps[k - 1] == course.steps.last());
        }
    }
    longer
}

/// The conditions of a `once` statement that were evaluated so far, none of
/// which held, are still so when the evaluation of the next condition is
/// added.
pub proof fn lemma_one_more_condition<H: Host>(
    course: Course<H>,
    next: Step<H>,
    pre: Moment<H>,
    statement: OnceStatement,
    scope: ScopeId,
    depth: nat,
) -> (longer: Course<H>)
    requires
        course.is_linked(pre),
        !course.failed(),
        course.steps.len() < statement.if_statements@.len(),
        follows_conditions(course, statement, course.steps.len() as int, scope, depth),
        course.steps.len() > 0 ==> !(course.steps.last().outcome matches Ok(
            RuntimeValue::Bool(true),
        )),
        next.before == course.end(pre),
        follows(
            next.how,
            next.before,
            *statement.if_statements@[course.steps.len() as int].condition,
            scope,
            depth,
            next.after,
            next.outcome,
        ),
    ensures
        longer.steps == course.steps.push(next),
        longer.is_linked(pre),
        longer.end(pre) == next.after,
        longer.failed() == next.outcome is Err,
        follows_conditions(longer, statement, longer.steps.len() as int, scope, depth),
{
    let longer = Course { steps: course.steps.push(next) };
    assert forall|k: int| 0 <= k < longer.steps.len() implies (#[trigger] longer.at(k)).before
        == (if k == 0 {
        pre
    } else {
        longer.steps[k - 1].after
    }) && (k < longer.steps.len() - 1 ==> longer.steps[k].outcome is Ok) by {
        assert(course.at(k) == course.steps[k]);
        assert(course.at(k - 1) == course.steps[k - 1]);
        if k < course.steps.len() {
            assert(longer.steps[k] == course.steps[k]);
            if k > 0 {
                assert(longer.steps[k - 1] == course.steps[k - 1]);
            }
            if k == course.steps.len() - 1 {
                assert(course.steps[k] == course.steps.last());
            }
        } else {
            if k > 0 {
                assert(longer.steps[k - 1] == course.steps.last());
            }
        }
    }
    assert forall|k: int| 0 <= k < longer.steps.len() implies {
        let step = #[trigger] longer.at(k);
        &&& follows(
            step.how,
            step.before,
            *statement.if_statements@[k].condition,
            scope,
            depth,
            step.after,
            step.outcome,
        )
        &&& k < longer.steps.len() - 1 ==> !(step.outcome matches Ok(RuntimeValue::Bool(true)))
    } by {
        assert(course.at(k) == course.steps[k]);
        assert(course.at(k - 1) == course.steps[k - 1]);
        if k < course.steps.len() {
            assert(longer.steps[k] == course.steps[k]);
            if k == course.steps.len() - 1 {
                assert(course.steps[k] == course.steps.last());
            }
        }
    }
    longer
}

/// The conditions of a `once` statement that were evaluated stay what they
/// are when the evaluation of the chosen block is added.
pub proof fn lemma_then_block<H: Host>(
    course: Course<H>,
    next: Step<H>,
    pre: Moment<H>,
    statement: OnceStatement,
    scope: ScopeId,
    depth: nat,
) -> (longer: Course<H>)
    requires
        course.is_linked(pre),
        !course.failed(),
        follows_conditions(course, statement, course.steps.len() as int, scope, depth),
        next.before == course.end(pre),
    ensures
        longer.steps == course.steps.push(next),
        longer.is_linked(pre),
        longer.end(pre) == next.after,
        follows_conditions(longer, statement, course.steps.len() as int, scope, depth),
        course.steps.len() > 0 ==> longer.steps[course.steps.len() - 1] == course.steps.last(),
{
    let longer = Course { steps: course.steps.push(next) };
    assert forall|k: int| 0 <= k < longer.steps.len() implies (#[trigger] longer.at(k)).before
        == (if k == 0 {
        pre
    } else {
        longer.steps[k - 1].after
    }) && (k < longer.steps.len() - 1 ==> longer.steps[k].outcome is Ok) by {
        assert(course.at(k) == course.steps[k]);
        assert(course.at(k - 1) == course.steps[k - 1]);
        if k < course.steps.len() {
            assert(longer.steps[k] == course.steps[k]);
            if k > 0 {
                assert(longer.steps[k - 1] == course.steps[k - 1]);
            }
            if k == course.steps.len() - 1 {
                assert(course.steps[k] == course.steps.last());
            }
        } else {
            if k > 0 {
                assert(longer.steps[k - 1] == course.steps.last());
            }
        }
    }
    assert forall|k: int| 0 <= k < course.steps.len() implies {
        let step = #[trigger] longer.at(k);
        &&& follows(
            step.how,
            step.before,
            *statement.if_statements@[k].condition,
            scope,
            depth,
            step.after,
            step.outcome,
        )
        &&& k < course.steps.len() - 1 ==> !(step.outcome matches Ok(RuntimeValue::Bool(true)))
    } by {
        assert(course.at(k) == course.steps[k]);
        assert(course.at(k - 1) == course.steps[k - 1]);
        assert(longer.steps[k] == course.steps[k]);
    }
    longer
}

/// The steps of a call that stand for its parameters are still so when
/// the step for the next parameter is added.
pub proof fn lemma_one_more_parameter<H: Host>(
    course: Course<H>,
    next: Step<H>,
    f: FunctionData,
    receiver: Option<RuntimeValue>,
    args: Seq<ASTNode>,
    scope: ScopeId,
    inner: ScopeId,
    depth: nat,
) -> (longer: Course<H>)
    requires
        1 <= course.steps.len() <= params_of(*f.args).len(),
        !course.failed(),
        follows_parameters(course, f, receiver, args, scope, inner, depth),
        course.steps.len() == 1 ==> next.before == course.steps[0].after,
        course.steps.len() > 1 ==> parameter_bound(
            course.steps.last().after,
            next.before,
            inner,
            params_of(*f.args)[course.steps.len() - 2],
            course.steps.last().outcome->Ok_0,
        ),
        argument_of(next, receiver, args, scope, depth, course.steps.len() - 1),
    ensures
        longer.steps == course.steps.push(next),
        longer.steps[0] == course.steps[0],
        longer.steps.last() == next,
        longer.failed() == next.outcome is Err,
        follows_parameters(longer, f, receiver, args, scope, inner, depth),
{
    let longer = Course { steps: course.steps.push(next) };
    assert forall|j: int| 1 <= j < longer.steps.len() && j <= params_of(*f.args).len() implies {
        let step = #[trigger] longer.at(j);
        &&& starts_after_binding(longer, j, f, inner)
        &&& argument_of(step, receiver, args, scope, depth, j - 1)
        &&& j < longer.steps.len() - 1 ==> step.outcome is Ok
    } by {
        assert(course.at(j) == course.steps[j]);
        assert(course.at(j - 1) == course.steps[j - 1]);
        assert(longer.steps[j - 1] == course.steps[j - 1]);
        if j < course.steps.len() {
            assert(longer.steps[j] == course.steps[j]);
            assert(starts_after_binding(course, j, f, inner));
            if j == course.steps.len() - 1 {
                assert(course.steps[j] == course.steps.last());
            }
        } else {
            assert(course.steps[j - 1] == course.steps.last());
        }
    }
    longer
}

/// The steps of a call that stand for its parameters stay what they are
/// when the evaluation of the body is added.
pub proof fn lemma_with_body<H: Host>(
    course: Course<H>,
    body: Step<H>,
    f: FunctionData,
    receiver: Option<RuntimeValue>,
    args: Seq<ASTNode>,
    scope: ScopeId,
    inner: ScopeId,
    depth: nat,
) -> (longer: Course<H>)
    requires
        course.steps.len() == f.parameters().len() + 1,
        !course.failed(),
        follows_parameters(course, f, receiver, args, scope, inner, depth),
    ensures
        longer.steps == course.steps.push(body),
        follows_parameters(longer, f, receiver, args, scope, inner, depth),
        f.parameters().len() > 0 ==> longer.steps[f.parameters().len() as int]
            == course.steps.last(),
        longer.steps[0] == course.steps[0],
{
    let longer = Course { steps: course.steps.push(body) };
    assert forall|j: int| 1 <= j < longer.steps.len() && j <= f.parameters().len() implies {
        let step = #[trigger] longer.at(j);
        &&& starts_after_binding(longer, j, f, inner)
        &&& argument_of(step, receiver, args, scope, depth, j - 1)
        &&& j < longer.steps.len() - 1 ==> step.outcome is Ok
    } by {
        assert(course.at(j) == course.steps[j]);
        assert(course.at(j - 1) == course.steps[j - 1]);
        assert(longer.steps[j] == course.steps[j]);
        assert(longer.steps[j - 1] == course.steps[j - 1]);
        assert(starts_after_binding(course, j, f, inner));
        if j == course.steps.len() - 1 {
            assert(course.steps[j] == course.steps.last());
        }
    }
    longer
}

/// The fields that the first steps of a course have given their values
/// do not depend on the steps after them.
pub proof fn lemma_gathered_of_first<H: Host>(
    declared: StrMap<FieldParserDescription>,
    creation: LayoutCreation,
    course: Course<H>,
    longer: Course<H>,
    n: nat,
)
    requires
        n <= course.steps.len() <= longer.steps.len(),
        forall|k: int| 0 <= k < course.steps.len() ==> longer.steps[k] == course.steps[k],
    ensures
        gathered(declared, creation, longer, n) == gathered(declared, creation, course, n),
    decreases n,
{
    if n > 0 {
        lemma_gathered_of_first(declared, creation, course, longer, (n - 1) as nat);
    }
}

/// The steps that give the fields of a new instance their values are
/// still so when the step for the next field is added.
pub proof fn lemma_one_more_field<H: Host>(
    course: Course<H>,
    next: Step<H>,
    pre: Moment<H>,
    shared: Arc<StrMap<FieldParserDescription>>,
    creation: LayoutCreation,
    scope: ScopeId,
    depth: nat,
) -> (longer: Course<H>)
    requires
        course.is_linked(pre),
        !course.failed(),
        follows_fields(course, *shared, creation, scope, depth),
        next.before == course.end(pre),
        match field_node(*shared, creation, course.steps.len() as int) {
            Some(node) => follows(
                next.how,
                next.before,
                node,
                scope,
                depth,
                next.after,
                next.outcome,
            ),
            None => is_mark(next),
        },
    ensures
        longer.steps == course.steps.push(next),
        longer.is_linked(pre),
        longer.end(pre) == next.after,
        longer.failed() == next.outcome is Err,
        follows_fields(longer, *shared, creation, scope, depth),
        gathered(*shared, creation, longer, course.steps.len()) == gathered(
            *shared,
            creation,
            course,
            course.steps.len(),
        ),
        gathered(*shared, creation, longer, longer.steps.len()) == (match field_node(
            *shared,
            creation,
            course.steps.len() as int,
        ) {
            Some(_) => gathered(*shared, creation, course, course.steps.len()).insert(
                field_key(*shared, creation, course.steps.len() as int),
                next.outcome->Ok_0,
            ),
            None => gathered(*shared, creation, course, course.steps.len()),
        }),
{
    let longer = Course { steps: course.steps.push(next) };
    assert forall|k: int| 0 <= k < longer.steps.len() implies (#[trigger] longer.at(k)).before
        == (if k == 0 {
        pre
    } else {
        longer.steps[k - 1].after
    }) && (k < longer.steps.len() - 1 ==> longer.steps[k].outcome is Ok) by {
        assert(course.at(k) == course.steps[k]);
        assert(course.at(k - 1) == course.steps[k - 1]);
        if k < course.steps.len() {
            assert(longer.steps[k] == course.steps[k]);
            if k > 0 {
                assert(longer.steps[k - 1] == course.steps[k - 1]);
            }
            if k == course.steps.len() - 1 {
                assert(course.steps[k] == course.steps.last());
            }
        } else {
            if k > 0 {
                assert(longer.steps[k - 1] == course.steps.last());
            }
        }
    }
    assert forall|k: int| 0 <= k < longer.steps.len() implies {
        let step = #[trigger] longer.at(k);
        match field_node(*shared, creation, k) {
            Some(node) => follows(
                step.how,
                step.before,
                node,
                scope,
                depth,
                step.after,
                step.outcome,
            ),
            None => is_mark(step),
        }
    } by {
        assert(course.at(k) == course.steps[k]);
        assert(course.at(k - 1) == course.steps[k - 1]);
        if k < course.steps.len() {
            assert(longer.steps[k] == course.steps[k]);
        }
    }
    let declared = *shared;
    lemma_gathered_of_first(declared, creation, course, longer, course.steps.len());
    assert(longer.steps[course.steps.len() as int] == next);
    longer
}

/// The default of `Interpreter::depth_limit`: a depth that an evaluation
/// reaches on a thread with a stack of two megabytes.
pub const DEFAULT_DEPTH_LIMIT: usize = 512;

/// An evaluation: the program, the modules it may import, the runtime, and
/// how deep the walk may nest.
#[derive(Debug)]
pub struct Interpreter {
    pub program: Arc<Vec<ASTNode>>,
    pub module_storage: ModuleStorage,
    pub runtime: Runtime,
    /// How deep the evaluation of nodes within nodes, and of calls within
    /// calls, may go before it stops with `DepthExceeded`.
    pub depth_limit: usize,
}

impl Interpreter {
    /// With `course` as its course and `start` as the runtime that it
    /// starts from: the program of `self` was evaluated in a new scope that
    /// is `scope`, from `self` and `host` to `later` and `host_after`, and
    /// gave `r`.
    pub open spec fn runs_from<H: Host>(
        self,
        course: Course<H>,
        start: Runtime,
        scope: RuntimeScope,
        host: H,
        later: Interpreter,
        host_after: H,
        r: Outcome,
    ) -> bool {
        &&& start.scopes@ == self.runtime.scopes@.push(scope)
        &&& start.declarations == self.runtime.declarations
        &&& start.instances == self.runtime.instances
        &&& follows_statements(
            course,
            Moment { runtime: start, modules: self.module_storage, host },
            self.program@,
            self.runtime.scopes@.len() as ScopeId,
            self.depth_limit as nat,
            later.moment(host_after),
            r,
        )
    }

    /// What of `self` and of the host an evaluation can change.
    pub open spec fn moment<H: Host>(self, host: H) -> Moment<H> {
        Moment { runtime: self.runtime, modules: self.module_storage, host }
    }

    /// `later` is `self` after some evaluation: the program and the limit
    /// are the same, and the runtime and the modules have only grown.
    pub open spec fn evolves_to(self, later: Interpreter) -> bool {
        &&& later.program == self.program
        &&& later.depth_limit == self.depth_limit
        &&& later.runtime == self.runtime || self.runtime.grows_to(later.runtime)
        &&& later.module_storage == self.module_storage || self.module_storage.grows_to(
            later.module_storage,
        )
    }

    /// Evolving is transitive.
    pub proof fn lemma_evolves_on(self, middle: Interpreter, later: Interpreter)
        requires
            self.evolves_to(middle),
            middle.evolves_to(later),
        ensures
            self.evolves_to(later),
    {
        self.runtime.lemma_grows_to_itself();
        middle.runtime.lemma_grows_to_itself();
        self.module_storage.lemma_grows_to_itself();
        middle.module_storage.lemma_grows_to_itself();
        self.runtime.lemma_grows_on(middle.runtime, later.runtime);
        self.module_storage.lemma_grows_on(middle.module_storage, later.module_storage);
    }

    /// An interpreter for the program `src`, which must be a `Program`
    /// node.
    pub fn new(src: ASTNode, module_storage: ModuleStorage, runtime: Runtime) -> (r: Result<
        Interpreter,
        EvaluationError,
    >)
        ensures
            r is Ok <==> src is Program,
            r is Err ==> (r matches Err(EvaluationError::UnsupportedNode)),
            r matches Ok(i) ==> i.program == src->Program_0 && i.module_storage == module_storage
                && i.runtime == runtime && i.depth_limit == DEFAULT_DEPTH_LIMIT,
    {
        match src {
            ASTNode::Program(program) => Ok(
                Interpreter {
                    program,
                    module_storage,
                    runtime,
                    depth_limit: DEFAULT_DEPTH_LIMIT,
                },
            ),
            _ => Err(EvaluationError::UnsupportedNode),
        }
    }

    /// Evaluates the program in a new scope of the runtime that is `scope`,
    /// and gives the value of its last statement; null where it has none.
    pub fn eval_program<H: Host>(&mut self, scope: RuntimeScope, host: &mut H) -> (r: Result<
        RuntimeValue,
        EvaluationError,
    >)
        ensures
            old(self).evolves_to(*final(self)),
            old(self).depth_limit == 0 ==> (r matches Err(EvaluationError::DepthExceeded)),
            old(self).depth_limit > 0 ==> exists|course: Course<H>, start: Runtime|
                #![trigger old(self).runs_from(course, start, scope, *old(host), *final(self), *final(host), r)]
                old(self).runs_from(course, start, scope, *old(host), *final(self), *final(host), r),
    {
        let ghost first = *self;
        let id = push_scope(&mut self.runtime, scope);
        let ghost middle = *self;
        let ghost start = self.runtime;
        let out = self.run(id, host);
        proof {
            first.lemma_evolves_on(middle, *self);
            if first.depth_limit > 0 {
                assert(first.runs_from(out.1@, start, scope, *old(host), *self, *host, out.0));
            }
        }
        out.0
    }

    /// Evaluates the program in the scope `scope` of the runtime, and gives
    /// the value of its last statement; null where it has none.
    pub fn eval_program_w<H: Host>(&mut self, scope: ScopeId, host: &mut H) -> (r: Result<
        RuntimeValue,
        EvaluationError,
    >)
        ensures
            old(self).evolves_to(*final(self)),
            old(self).depth_limit == 0 ==> (r matches Err(EvaluationError::DepthExceeded))
                && *final(self) == *old(self) && *final(host) == *old(host),
            old(self).depth_limit > 0 ==> exists|course: Course<H>|
                follows_statements(
                    course,
                    old(self).moment(*old(host)),
                    old(self).program@,
                    scope,
                    old(self).depth_limit as nat,
                    final(self).moment(*final(host)),
                    r,
                ),
    {
        let out = self.run(scope, host);
        out.0
    }

    /// Evaluates the program in the scope `scope`.
    fn run<H: Host>(&mut self, scope: ScopeId, host: &mut H) -> (out: (Outcome, Ghost<Course<H>>))
        ensures
            old(self).evolves_to(*final(self)),
            old(self).depth_limit == 0 ==> (out.0 matches Err(EvaluationError::DepthExceeded))
                && *final(self) == *old(self) && *final(host) == *old(host),
            old(self).depth_limit > 0 ==> follows_statements(
                out.1@,
                old(self).moment(*old(host)),
                old(self).program@,
                scope,
                old(self).depth_limit as nat,
                final(self).moment(*final(host)),
                out.0,
            ),
    {
        let program = share(&self.program);
        let depth = self.depth_limit;
        if depth == 0 {
            return (Err(EvaluationError::DepthExceeded), Ghost(Course::none()));
        }
        self.eval_statements(&program, scope, host, depth)
    }

    /// Evaluates `nodes` one after the other in `scope`.
    fn eval_statements<H: Host>(
        &mut self,
        nodes: &Vec<ASTNode>,
        scope: ScopeId,
        host: &mut H,
        depth: usize,
    ) -> (out: (Outcome, Ghost<Course<H>>))
        requires
            depth > 0,
        ensures
            old(self).evolves_to(*final(self)),
            follows_statements(
                out.1@,
                old(self).moment(*old(host)),
                nodes@,
                scope,
                depth as nat,
                final(self).moment(*final(host)),
                out.0,
            ),
        decreases depth, 0nat,
    {
        let ghost pre = self.moment(*host);
        let ghost mut course: Course<H> = Course::none();
        let mut last = RuntimeValue::Null;
        let mut i: usize = 0;
        while i < nodes.len()
            invariant
                i <= nodes@.len(),
                depth > 0,
                old(self).evolves_to(*self),
                pre == old(self).moment(*old(host)),
                course.steps.len() == i,
                course.is_linked(pre),
                follows_each(course, nodes@, scope, (depth - 1) as nat),
                course.end(pre) == self.moment(*host),
                !course.failed(),
                i > 0 ==> course.steps.last().outcome == Ok::<RuntimeValue, EvaluationError>(last),
                i == 0 ==> last is Null,
            decreases nodes@.len() - i,
        {
            let ghost before = *self;
            let ghost start = self.moment(*host);
            let step = self.eval(&nodes[i], scope, host, depth - 1);
            proof {
                old(self).lemma_evolves_on(before, *self);
                let next = Step {
                    before: start,
                    how: step.1@,
                    after: self.moment(*host),
                    outcome: step.0,
                };
                course = lemma_one_more(course, next, pre, nodes@, scope, (depth - 1) as nat);
            }
            match step.0 {
                Ok(v) => {
                    last = v;
                },
                Err(e) => {
                    return (Err(e), Ghost(course));
                },
            }
            i = i + 1;
        }
        (Ok(last), Ghost(course))
    }

    /// Evaluates the node `src` in `scope`. A node that holds no other node
    /// and declares nothing is read off the runtime, which stays as it is.
    fn eval<H: Host>(&mut self, src: &ASTNode, scope: ScopeId, host: &mut H, depth: usize) -> (out:
        (Outcome, Ghost<Course<H>>))
        ensures
            old(self).evolves_to(*final(self)),
            follows(
                out.1@,
                old(self).moment(*old(host)),
                *src,
                scope,
                depth as nat,
                final(self).moment(*final(host)),
                out.0,
            ),
        decreases depth, 5nat,
    {
        proof {
            reveal_with_fuel(follows, 2);
        }
        if depth == 0 {
            return (Err(EvaluationError::DepthExceeded), Ghost(Course::none()));
        }
        match src {
            ASTNode::Program(body) => self.eval_statements(body, scope, host, depth),
            ASTNode::Expression(expression_type) => match expression_type {
                ExpressionType::Null => (Ok(RuntimeValue::Null), Ghost(Course::none())),
                ExpressionType::Binary(expression) => self.eval_binary_expression(
                    expression,
                    scope,
                    host,
                    depth,
                ),
            },
            ASTNode::Number(v) => (Ok(RuntimeValue::Number(*v)), Ghost(Course::none())),
            ASTNode::String(v) => (Ok(RuntimeValue::String(v.clone())), Ghost(Course::none())),
            ASTNode::Boolean(v) => (Ok(RuntimeValue::Bool(*v)), Ghost(Course::none())),
            ASTNode::Identifier(identifier) => (
                get_identifier_value(&self.runtime, scope, identifier),
                Ghost(Course::none()),
            ),
            ASTNode::VariableDeclaration(is_immut, identifier, type_id, value) => {
                self.eval_variable_declaration(
                    *is_immut,
                    identifier,
                    type_id,
                    value,
                    scope,
                    host,
                    depth,
                )
            },
            ASTNode::Assignment(identifier, value) => {
                self.eval_assignment(identifier, value, scope, host, depth)
            },
            ASTNode::RepeatOperation(count, operation) => {
                self.eval_repeat_operation(count, operation, scope, host, depth)
            },
            ASTNode::FunctionDeclaration(identifier, args, body, data_type) => {
                let r = eval_fn_declaration(
                    &mut self.runtime,
                    identifier,
                    args,
                    body,
                    scope,
                    data_type,
                );
                (r, Ghost(Course::none()))
            },
            ASTNode::CodeBlock(code) => {
                self.eval_code_block(code, scope, host, depth)
            },
            ASTNode::FunctionCall(identifier, args) => {
                self.eval_fn_call(identifier, args, scope, host, depth)
            },
            ASTNode::IfStatement(stmt) => {
                self.eval_if_statement(stmt, scope, host, depth)
            },
            ASTNode::Misc(_) => (Err(EvaluationError::UnsupportedNode), Ghost(Course::none())),
            ASTNode::OnceStatement(stmt) => {
                self.eval_once_statement(stmt, scope, host, depth)
            },
            ASTNode::UseNative(use_native) => {
                let r = eval_define_native_fn(
                    &mut self.runtime,
                    &use_native.name,
                    &use_native.from,
                    scope,
                );
                (r, Ghost(Course::none()))
            },
            ASTNode::BindingAccess(name) => (
                eval_binding_access(&self.runtime, name, scope),
                Ghost(Course::none()),
            ),
            ASTNode::ForStatement(stmt) => {
                self.eval_for_statement(stmt, scope, host, depth)
            },
            ASTNode::ComplexTypeAccessor(enum_id, entry) => (
                eval_complex_type_access(&self.runtime, scope, enum_id, entry),
                Ghost(Course::none()),
            ),
            ASTNode::EnumDeclaration(name, entries) => {
                let r = eval_enum_declaration(&mut self.runtime, name, entries, scope);
                (r, Ghost(Course::none()))
            },
            ASTNode::Typeof(v) => {
                self.eval_typeof(v, scope, host, depth)
            },
            ASTNode::LayoutDeclaration(v) => {
                let r = declare_layout_in(&mut self.runtime, scope, v.clone());
                (r, Ghost(Course::none()))
            },
            ASTNode::LayoutCreation(v) => {
                self.eval_layout_creation(v, scope, host, depth)
            },
            ASTNode::LayoutFieldAccess(name, field) => (
                eval_layout_field_access(&self.runtime, scope, name, field),
                Ghost(Course::none()),
            ),
            ASTNode::MixStatement(layout, mix) => {
                let r = mix_in(&mut self.runtime, scope, layout.clone(), mix);
                (r, Ghost(Course::none()))
            },
            ASTNode::InternalMulti(_) => (
                Err(EvaluationError::UnsupportedNode),
                Ghost(Course::none()),
            ),
            ASTNode::InternalStop(_, _) => (
                Err(EvaluationError::UnsupportedNode),
                Ghost(Course::none()),
            ),
            ASTNode::UseModule(path, symbol) => {
                self.eval_module(path, symbol, scope, host, depth)
            },
            ASTNode::Lambda(args, body, return_type) => (
                create_lambda(args, body, return_type, scope),
                Ghost(Course::none()),
            ),
        }
    }

    fn eval_binary_expression<H: Host>(
        &mut self,
        expression: &BinaryExpression,
        scope: ScopeId,
        host: &mut H,
        depth: usize,
    ) -> (out: (Outcome, Ghost<Course<H>>))
        requires
            depth > 0,
        ensures
            old(self).evolves_to(*final(self)),
            !has_meaning(expression.operand) ==> (out.0 matches Ok(RuntimeValue::Null)) && *final(self) == *old(self) && *final(host) == *old(host),
            has_meaning(expression.operand) ==> follows_binary(
                out.1@,
                old(self).moment(*old(host)),
                *expression,
                scope,
                depth as nat,
                final(self).moment(*final(host)),
                out.0,
            ),
        decreases depth, 4nat,
    {
        if !operand_has_meaning(expression.operand) {
            return (Ok(RuntimeValue::Null), Ghost(Course::none()));
        }
        let ghost pre = self.moment(*host);
        let ghost nodes = seq![*expression.left, *expression.right];
        let ghost mut course: Course<H> = Course::none();
        let first = self.eval(&expression.left, scope, host, depth - 1);
        proof {
            let next = Step { before: pre, how: first.1@, after: self.moment(*host), outcome: first.0 };
            course = lemma_one_more(course, next, pre, nodes, scope, (depth - 1) as nat);
        }
        let left = match first.0 {
            Ok(v) => v,
            Err(e) => {
                return (Err(e), Ghost(course));
            },
        };
        let ghost middle = *self;
        let ghost m1 = self.moment(*host);
        let second = self.eval(&expression.right, scope, host, depth - 1);
        proof {
            old(self).lemma_evolves_on(middle, *self);
            let next = Step { before: m1, how: second.1@, after: self.moment(*host), outcome: second.0 };
            course = lemma_one_more(course, next, pre, nodes, scope, (depth - 1) as nat);
        }
        let right = match second.0 {
            Ok(v) => v,
            Err(e) => {
                return (Err(e), Ghost(course));
            },
        };
        let ghost l = left;
        let ghost rv = right;
        let r = apply_operand(expression.operand, left, right, &*host);
        proof {
            let number = choose|number: Number| #[trigger]
                computed(*host, expression.operand, l, rv, number) && is_binary_result(
                    expression.operand,
                    l,
                    rv,
                    number,
                    r,
                );
            assert(computed(
                self.moment(*host).host,
                expression.operand,
                course.steps[0].outcome->Ok_0,
                course.steps[1].outcome->Ok_0,
                number,
            ));
        }
        (r, Ghost(course))
    }

    fn eval_variable_declaration<H: Host>(
        &mut self,
        is_immut: bool,
        identifier: &String,
        type_id: &DataType,
        value: &ASTNode,
        scope: ScopeId,
        host: &mut H,
        depth: usize,
    ) -> (out: (Outcome, Ghost<Course<H>>))
        requires
            depth > 0,
        ensures
            old(self).evolves_to(*final(self)),
            follows_declaration(
                out.1@,
                old(self).moment(*old(host)),
                is_immut,
                *identifier,
                *type_id,
                *value,
                scope,
                depth as nat,
                final(self).moment(*final(host)),
                out.0,
            ),
        decreases depth, 4nat,
    {
        let ghost pre = self.moment(*host);
        let step = self.eval(value, scope, host, depth - 1);
        let ghost course = Course {
            steps: seq![
                Step { before: pre, how: step.1@, after: self.moment(*host), outcome: step.0 },
            ],
        };
        let v = match step.0 {
            Ok(v) => v,
            Err(e) => { return (Err(e), Ghost(course)); },
        };
        let ghost middle = *self;
        let r = declare_in(
            &mut self.runtime,
            scope,
            identifier.clone(),
            type_id.clone(),
            v,
            is_immut,
        );
        proof {
            old(self).lemma_evolves_on(middle, *self);
        }
        match r {
            Ok(()) => (Ok(RuntimeValue::Null), Ghost(course)),
            Err(e) => (Err(e), Ghost(course)),
        }
    }

    fn eval_assignment<H: Host>(
        &mut self,
        identifier: &AssignmentProperty,
        value: &ASTNode,
        scope: ScopeId,
        host: &mut H,
        depth: usize,
    ) -> (out: (Outcome, Ghost<Course<H>>))
        requires
            depth > 0,
        ensures
            old(self).evolves_to(*final(self)),
            follows_assignment(
                out.1@,
                old(self).moment(*old(host)),
                *identifier,
                *value,
                scope,
                depth as nat,
                final(self).moment(*final(host)),
                out.0,
            ),
        decreases depth, 4nat,
    {
        let ghost pre = self.moment(*host);
        let step = self.eval(value, scope, host, depth - 1);
        let ghost course = Course {
            steps: seq![
                Step { before: pre, how: step.1@, after: self.moment(*host), outcome: step.0 },
            ],
        };
        let v = match step.0 {
            Ok(v) => v,
            Err(e) => { return (Err(e), Ghost(course)); },
        };
        let ghost middle = *self;
        let r = match identifier {
            AssignmentProperty::Variable(id) => assign_in(
                &mut self.runtime,
                scope,
                id.clone(),
                v,
            ),
            AssignmentProperty::LayoutField(name, field) => assign_field_in(
                &mut self.runtime,
                scope,
                name,
                field.clone(),
                v,
            ),
        };
        proof {
            old(self).lemma_evolves_on(middle, *self);
        }
        match r {
            Ok(()) => (Ok(RuntimeValue::Null), Ghost(course)),
            Err(e) => (Err(e), Ghost(course)),
        }
    }

    #[verifier::loop_isolation(false)]
    fn eval_repeat_operation<H: Host>(
        &mut self,
        count: &ASTNode,
        operation: &ASTNode,
        scope: ScopeId,
        host: &mut H,
        depth: usize,
    ) -> (out: (Outcome, Ghost<Course<H>>))
        requires
            depth > 0,
        ensures
            old(self).evolves_to(*final(self)),
            follows_repeat(
                out.1@,
                old(self).moment(*old(host)),
                *count,
                *operation,
                scope,
                depth as nat,
                final(self).moment(*final(host)),
                out.0,
            ),
        decreases depth, 4nat,
    {
        let ghost pre = self.moment(*host);
        let first = self.eval(count, scope, host, depth - 1);
        let ghost counted = Step {
            before: pre,
            how: first.1@,
            after: self.moment(*host),
            outcome: first.0,
        };
        let count_value = match first.0 {
            Ok(v) => v,
            Err(e) => { return (Err(e), Ghost(Course { steps: seq![counted] })); },
        };
        let times = match repeat_count(&count_value) {
            Ok(n) => n,
            Err(e) => { return (Err(e), Ghost(Course { steps: seq![counted] })); },
        };
        let ghost middle = *self;
        let bound = match open_scope(&mut self.runtime, scope) {
            Ok(id) => id,
            Err(e) => { return (Err(e), Ghost(Course { steps: seq![counted] })); },
        };
        proof {
            old(self).lemma_evolves_on(middle, *self);
        }
        let ghost opened = self.moment(*host);
        let ghost mark = Step {
            before: opened,
            how: Course::none(),
            after: opened,
            outcome: Ok(RuntimeValue::Null),
        };
        let ghost mut course = Course { steps: seq![counted, mark] };
        let mut idx: u32 = 0;
        while idx < times
            invariant
                idx <= times,
                depth > 0,
                bound < self.runtime.scopes@.len(),
                old(self).evolves_to(*self),
                course.steps.len() == 2 + idx,
                course.steps[0] == counted,
                course.steps[1] == mark,
                follows_rounds(course, 2, *operation, bound, (depth - 1) as nat, None),
                course.steps.last().after == self.moment(*host),
                !course.failed(),
            decreases times - idx,
        {
            let number = match index_number(idx as usize) {
                Ok(n) => n,
                Err(e) => { return (Err(e), Ghost(course)); },
            };
            let ghost before = *self;
            let ghost prev = self.moment(*host);
            bind_in(&mut self.runtime, bound, "index".to_owned(), RuntimeValue::Number(number));
            let ghost bound_state = *self;
            let ghost start = self.moment(*host);
            let step = self.eval(operation, bound, host, depth - 1);
            proof {
                before.lemma_evolves_on(bound_state, *self);
                old(self).lemma_evolves_on(before, *self);
                assert(round_starts_via(
                    number,
                    start.runtime,
                    prev,
                    start,
                    bound,
                    idx as int,
                    None::<IterablePair>,
                ));
                let next = Step {
                    before: start,
                    how: step.1@,
                    after: self.moment(*host),
                    outcome: step.0,
                };
                course = lemma_one_more_round(
                    course,
                    next,
                    2,
                    *operation,
                    bound,
                    (depth - 1) as nat,
                    None,
                );
            }
            match step.0 {
                Ok(_) => {},
                Err(e) => { return (Err(e), Ghost(course)); },
            }
            idx = idx + 1;
        }
        (Ok(RuntimeValue::Null), Ghost(course))
    }

    fn eval_code_block<H: Host>(
        &mut self,
        code: &Arc<Vec<ASTNode>>,
        scope: ScopeId,
        host: &mut H,
        depth: usize,
    ) -> (out: (Outcome, Ghost<Course<H>>))
        requires
            depth > 0,
        ensures
            old(self).evolves_to(*final(self)),
            follows_code_block(
                out.1@,
                old(self).moment(*old(host)),
                code@,
                scope,
                depth as nat,
                final(self).moment(*final(host)),
                out.0,
            ),
        decreases depth, 4nat,
    {
        let inner = match open_scope(&mut self.runtime, scope) {
            Ok(id) => id,
            Err(e) => { return (Err(e), Ghost(Course::none())); },
        };
        let ghost middle = *self;
        let ghost opened = self.moment(*host);
        let step = self.eval_statements(code, inner, host, depth);
        proof {
            old(self).lemma_evolves_on(middle, *self);
        }
        let ghost course = Course {
            steps: seq![
                Step { before: opened, how: step.1@, after: self.moment(*host), outcome: step.0 },
            ],
        };
        (step.0, Ghost(course))
    }

    /// Evaluates each of `args` in `scope`, from left to right.
    fn eval_arguments<H: Host>(
        &mut self,
        args: &Vec<ASTNode>,
        scope: ScopeId,
        host: &mut H,
        depth: usize,
    ) -> (out: (Result<Vec<RuntimeValue>, EvaluationError>, Ghost<Course<H>>))
        requires
            depth > 0,
        ensures
            old(self).evolves_to(*final(self)),
            out.1@.is_linked(old(self).moment(*old(host))),
            follows_each(out.1@, args@, scope, (depth - 1) as nat),
            out.1@.end(old(self).moment(*old(host))) == final(self).moment(*final(host)),
            out.0 is Err <==> out.1@.failed(),
            out.0 matches Err(e) ==> out.1@.steps.last().outcome == Err::<
                RuntimeValue,
                EvaluationError,
            >(e),
            out.0 is Ok ==> out.1@.steps.len() == args@.len(),
            out.0 matches Ok(values) ==> handed(out.1@, values),
        decreases depth, 3nat,
    {
        let ghost pre = self.moment(*host);
        let ghost mut course: Course<H> = Course::none();
        let mut values: Vec<RuntimeValue> = Vec::new();
        let mut i: usize = 0;
        while i < args.len()
            invariant
                i <= args@.len(),
                values@.len() == i,
                depth > 0,
                old(self).evolves_to(*self),
                pre == old(self).moment(*old(host)),
                course.steps.len() == i,
                course.is_linked(pre),
                follows_each(course, args@, scope, (depth - 1) as nat),
                course.end(pre) == self.moment(*host),
                !course.failed(),
                handed(course, values),
            decreases args@.len() - i,
        {
            let ghost before = *self;
            let ghost start = self.moment(*host);
            let ghost so_far = course;
            let step = self.eval(&args[i], scope, host, depth - 1);
            proof {
                old(self).lemma_evolves_on(before, *self);
                let next = Step {
                    before: start,
                    how: step.1@,
                    after: self.moment(*host),
                    outcome: step.0,
                };
                course = lemma_one_more(course, next, pre, args@, scope, (depth - 1) as nat);
            }
            match step.0 {
                Ok(v) => {
                    values.push(v);
                    assert(handed(course, values)) by {
                        assert forall|k: int| 0 <= k < values@.len() implies (#[trigger] course.at(
                            k,
                        )).outcome == Ok::<RuntimeValue, EvaluationError>(values@[k]) by {
                            if k < i {
                                assert(so_far.at(k) == course.at(k));
                            }
                        }
                    }
                },
                Err(e) => { return (Err(e), Ghost(course)); },
            }
            i = i + 1;
        }
        (Ok(values), Ghost(course))
    }

    /// Calls `identifier` with `args`. A name that stands for a native
    /// function hands the arguments to the host, whatever their types.
    /// Anything else must evaluate to a reference to a function.
    fn eval_fn_call<H: Host>(
        &mut self,
        identifier: &ASTNode,
        args: &Vec<ASTNode>,
        scope: ScopeId,
        host: &mut H,
        depth: usize,
    ) -> (out: (Outcome, Ghost<Course<H>>))
        requires
            depth > 0,
        ensures
            old(self).evolves_to(*final(self)),
            follows_call(
                out.1@,
                old(self).moment(*old(host)),
                *identifier,
                args@,
                scope,
                depth as nat,
                final(self).moment(*final(host)),
                out.0,
            ),
        decreases depth, 4nat,
    {
        let ghost pre = self.moment(*host);
        let native = match identifier {
            ASTNode::Identifier(name) => RuntimeScope::get_native_function_from_ident(
                &self.runtime,
                scope,
                name,
            ),
            _ => None,
        };
        match native {
            Some(function) => {
                let evaluated = self.eval_arguments(args, scope, host, depth);
                match evaluated.0 {
                    Ok(values) => {
                        let answer = host.call_native(function, values);
                        *host = answer.0;
                        (Ok(answer.1), evaluated.1)
                    },
                    Err(e) => (Err(e), evaluated.1),
                }
            },
            None => {
                let first = self.eval(identifier, scope, host, depth - 1);
                let ghost one = Step {
                    before: pre,
                    how: first.1@,
                    after: self.moment(*host),
                    outcome: first.0,
                };
                let callee = match first.0 {
                    Ok(v) => v,
                    Err(e) => { return (Err(e), Ghost(Course { steps: seq![one] })); },
                };
                let ghost middle = *self;
                let (function, receiver) = match callee {
                    RuntimeValue::Reference(Reference::Function(f)) => (f, None),
                    RuntimeValue::Reference(Reference::MethodLikeFunction(f, name, scoped)) => {
                        match get_identifier_value(&self.runtime, scoped, &name) {
                            Ok(receiver) => (f, Some(receiver)),
                            Err(e) => { return (Err(e), Ghost(Course { steps: seq![one] })); },
                        }
                    },
                    _ => {
                        return (
                            Err(EvaluationError::NotCallable),
                            Ghost(Course { steps: seq![one] }),
                        );
                    },
                };
                let ghost given = receiver;
                let second = self.eval_fn_call_lower(function, receiver, args, scope, host, depth);
                proof {
                    old(self).lemma_evolves_on(middle, *self);
                }
                let ghost two = Step {
                    before: one.after,
                    how: second.1@,
                    after: self.moment(*host),
                    outcome: second.0,
                };
                let ghost course = Course { steps: seq![one, two] };
                proof {
                    assert(follows_called(
                        course,
                        function,
                        given,
                        args@,
                        scope,
                        depth as nat,
                        second.0,
                    ));
                }
                (second.0, Ghost(course))
            },
        }
    }

    /// Calls `function` with `args`, which are evaluated in the caller's
    /// scope `scope`; the body runs in a new scope within the scope in
    /// which the function was declared. A `receiver` is the first
    /// argument.
    fn eval_fn_call_lower<H: Host>(
        &mut self,
        function: FunctionData,
        receiver: Option<RuntimeValue>,
        args: &Vec<ASTNode>,
        scope: ScopeId,
        host: &mut H,
        depth: usize,
    ) -> (out: (Outcome, Ghost<Course<H>>))
        requires
            depth > 0,
        ensures
            old(self).evolves_to(*final(self)),
            follows_function(
                out.1@,
                old(self).moment(*old(host)),
                function,
                receiver,
                args@,
                scope,
                depth as nat,
                final(self).moment(*final(host)),
                out.0,
            ),
        decreases depth, 3nat,
    {
        let ghost pre = self.moment(*host);
        let inner = match call_scope(&mut self.runtime, &function) {
            Ok(id) => id,
            Err(e) => { return (Err(e), Ghost(Course::none())); },
        };
        let ghost opened_state = *self;
        let ghost opened = self.moment(*host);
        let ghost given = receiver;
        let bound = self.bind_arguments(&function, receiver, args, scope, inner, host, depth);
        proof {
            old(self).lemma_evolves_on(opened_state, *self);
        }
        match bound.0 {
            Ok(()) => {},
            Err(e) => { return (Err(e), bound.1); },
        }
        let ghost bound_state = *self;
        let ghost start = self.moment(*host);
        let step = self.eval_statements(&function.body, inner, host, depth);
        let ghost body = Step {
            before: start,
            how: step.1@,
            after: self.moment(*host),
            outcome: step.0,
        };
        let ghost mut course = bound.1@;
        proof {
            old(self).lemma_evolves_on(bound_state, *self);
            course = lemma_with_body(
                bound.1@,
                body,
                function,
                given,
                args@,
                scope,
                inner,
                (depth - 1) as nat,
            );
        }
        let value = match step.0 {
            Ok(v) => v,
            Err(e) => { return (Err(e), Ghost(course)); },
        };
        match check_return(&value, &function.return_type) {
            Ok(()) => (Ok(value), Ghost(course)),
            Err(e) => (Err(e), Ghost(course)),
        }
    }

    /// Binds each parameter of `function`, in the scope `inner` of the
    /// call, to its argument: the receiver for the first one where there is
    /// a receiver, and the value of the next of `args`, evaluated in the
    /// caller's scope `scope`, for every other one.
    fn bind_arguments<H: Host>(
        &mut self,
        function: &FunctionData,
        receiver: Option<RuntimeValue>,
        args: &Vec<ASTNode>,
        scope: ScopeId,
        inner: ScopeId,
        host: &mut H,
        depth: usize,
    ) -> (out: (Result<(), EvaluationError>, Ghost<Course<H>>))
        requires
            depth > 0,
        ensures
            old(self).evolves_to(*final(self)),
            binds_arguments(
                out.1@,
                old(self).moment(*old(host)),
                *function,
                receiver,
                args@,
                scope,
                inner,
                (depth - 1) as nat,
                final(self).moment(*final(host)),
                out.0,
            ),
        decreases depth, 2nat,
    {
        let ghost opened = self.moment(*host);
        let ghost given = receiver;
        let ghost mark = Step {
            before: opened,
            how: Course::none(),
            after: opened,
            outcome: Ok(RuntimeValue::Null),
        };
        let ghost mut course = Course { steps: seq![mark] };
        let parameters = args_len(&function.args);
        let shift: usize = if receiver.is_some() {
            1
        } else {
            0
        };
        let mut pending = receiver;
        let mut i: usize = 0;
        while i < parameters
            invariant
                i <= parameters,
                parameters == function.parameters().len(),
                depth > 0,
                shift == (if given is Some {
                    1usize
                } else {
                    0usize
                }),
                given == receiver,
                i < shift ==> pending == given,
                opened == old(self).moment(*old(host)),
                mark.before == opened,
                mark.after == opened,
                mark.outcome is Ok,
                old(self).evolves_to(*self),
                course.steps.len() == 1 + i,
                course.steps[0] == mark,
                !course.failed(),
                follows_parameters(
                    course,
                    *function,
                    given,
                    args@,
                    scope,
                    inner,
                    (depth - 1) as nat,
                ),
                i == 0 ==> self.moment(*host) == opened,
                i > 0 ==> parameter_bound(
                    course.steps.last().after,
                    self.moment(*host),
                    inner,
                    function.parameters()[i - 1],
                    course.steps.last().outcome->Ok_0,
                ),
            decreases parameters - i,
        {
            let ghost before = *self;
            let first = if i < shift {
                let taken = pending;
                pending = None;
                taken
            } else {
                None
            };
            let bound = self.bind_next(
                function,
                first,
                Ghost(given),
                shift,
                args,
                scope,
                inner,
                host,
                depth,
                i,
            );
            proof {
                old(self).lemma_evolves_on(before, *self);
                course = lemma_one_more_parameter(
                    course,
                    bound.1@,
                    *function,
                    given,
                    args@,
                    scope,
                    inner,
                    (depth - 1) as nat,
                );
            }
            assert(course.steps[course.steps.len() - 1] == bound.1@);
            match bound.0 {
                Ok(()) => {},
                Err(e) => { return (Err(e), Ghost(course)); },
            }
            i = i + 1;
        }
        (Ok(()), Ghost(course))
    }

    /// Gives parameter `i` of `function` its argument and binds it: the
    /// receiver `first` where the parameter is the first one and there is a
    /// receiver, else the value of its argument.
    fn bind_next<H: Host>(
        &mut self,
        function: &FunctionData,
        first: Option<RuntimeValue>,
        Ghost(given): Ghost<Option<RuntimeValue>>,
        shift: usize,
        args: &Vec<ASTNode>,
        scope: ScopeId,
        inner: ScopeId,
        host: &mut H,
        depth: usize,
        i: usize,
    ) -> (out: (Result<(), EvaluationError>, Ghost<Step<H>>))
        requires
            depth > 0,
            i < function.parameters().len(),
            shift == (if given is Some {
                1usize
            } else {
                0usize
            }),
            i < shift ==> first == given,
        ensures
            old(self).evolves_to(*final(self)),
            out.1@.before == old(self).moment(*old(host)),
            argument_of(out.1@, given, args@, scope, (depth - 1) as nat, i as int),
            bound_after(
                out.1@,
                inner,
                function.parameters()[i as int],
                final(self).moment(*final(host)),
                out.0,
            ),
        decreases depth, 1nat,
    {
        let ghost start = self.moment(*host);
        let evaluated: (Outcome, Ghost<Course<H>>) = if i < shift {
            match first {
                Some(v) => (Ok(v), Ghost(Course::none())),
                None => (Err(EvaluationError::ArityOrShapeError), Ghost(Course::none())),
            }
        } else if i - shift >= args.len() {
            (Err(EvaluationError::ArityOrShapeError), Ghost(Course::none()))
        } else {
            self.eval(&args[i - shift], scope, host, depth - 1)
        };
        let ghost step = Step {
            before: start,
            how: evaluated.1@,
            after: self.moment(*host),
            outcome: evaluated.0,
        };
        let value = match evaluated.0 {
            Ok(v) => v,
            Err(e) => { return (Err(e), Ghost(step)); },
        };
        let ghost middle = *self;
        let bound = match args_get(&function.args, i) {
            Some(p) => bind_parameter(&mut self.runtime, inner, p.0, p.1, value),
            None => Err(EvaluationError::ArityOrShapeError),
        };
        proof {
            old(self).lemma_evolves_on(middle, *self);
        }
        (bound, Ghost(step))
    }

    fn eval_if_statement<H: Host>(
        &mut self,
        statement: &IfStatement,
        scope: ScopeId,
        host: &mut H,
        depth: usize,
    ) -> (out: (Outcome, Ghost<Course<H>>))
        requires
            depth > 0,
        ensures
            old(self).evolves_to(*final(self)),
            follows_if(
                out.1@,
                old(self).moment(*old(host)),
                *statement,
                scope,
                depth as nat,
                final(self).moment(*final(host)),
                out.0,
            ),
        decreases depth, 4nat,
    {
        let ghost pre = self.moment(*host);
        let first = self.eval(&statement.condition, scope, host, depth - 1);
        let ghost one = Step {
            before: pre,
            how: first.1@,
            after: self.moment(*host),
            outcome: first.0,
        };
        let condition = match first.0 {
            Ok(v) => v,
            Err(e) => { return (Err(e), Ghost(Course { steps: seq![one] })); },
        };
        let holds = match condition_of(&condition) {
            Ok(b) => b,
            Err(e) => { return (Err(e), Ghost(Course { steps: seq![one] })); },
        };
        let ghost middle = *self;
        let block = if holds {
            Some(&statement.if_block)
        } else {
            match &statement.else_block {
                Some(block) => Some(block),
                None => None,
            }
        };
        match block {
            Some(block) => {
                let second = self.eval(block, scope, host, depth - 1);
                proof {
                    old(self).lemma_evolves_on(middle, *self);
                }
                let ghost two = Step {
                    before: one.after,
                    how: second.1@,
                    after: self.moment(*host),
                    outcome: second.0,
                };
                (second.0, Ghost(Course { steps: seq![one, two] }))
            },
            None => (Ok(RuntimeValue::Null), Ghost(Course { steps: seq![one] })),
        }
    }

    /// Runs the first of the branches whose condition is the boolean
    /// `true`, else the `else` branch where there is one. A condition that
    /// is no boolean is passed over.
    fn eval_once_statement<H: Host>(
        &mut self,
        statement: &OnceStatement,
        scope: ScopeId,
        host: &mut H,
        depth: usize,
    ) -> (out: (Outcome, Ghost<Course<H>>))
        requires
            depth > 0,
        ensures
            old(self).evolves_to(*final(self)),
            follows_once(
                out.1@,
                old(self).moment(*old(host)),
                *statement,
                scope,
                depth as nat,
                final(self).moment(*final(host)),
                out.0,
            ),
        decreases depth, 4nat,
    {
        let ghost pre = self.moment(*host);
        let ghost mut course: Course<H> = Course::none();
        let mut i: usize = 0;
        while i < statement.if_statements.len()
            invariant
                i <= statement.if_statements@.len(),
                depth > 0,
                old(self).evolves_to(*self),
                pre == old(self).moment(*old(host)),
                course.steps.len() == i,
                course.is_linked(pre),
                course.end(pre) == self.moment(*host),
                !course.failed(),
                follows_conditions(course, *statement, i as int, scope, (depth - 1) as nat),
                i > 0 ==> !(course.steps.last().outcome matches Ok(RuntimeValue::Bool(true))),
            decreases statement.if_statements@.len() - i,
        {
            let branch = &statement.if_statements[i];
            let ghost before = *self;
            let ghost start = self.moment(*host);
            let step = self.eval(&branch.condition, scope, host, depth - 1);
            proof {
                old(self).lemma_evolves_on(before, *self);
                let next = Step {
                    before: start,
                    how: step.1@,
                    after: self.moment(*host),
                    outcome: step.0,
                };
                course = lemma_one_more_condition(
                    course,
                    next,
                    pre,
                    *statement,
                    scope,
                    (depth - 1) as nat,
                );
            }
            let condition = match step.0 {
                Ok(v) => v,
                Err(e) => { return (Err(e), Ghost(course)); },
            };
            if first_that_holds(&condition) {
                let ghost middle = *self;
                let ghost chosen = self.moment(*host);
                let second = self.eval(&branch.if_block, scope, host, depth - 1);
                proof {
                    old(self).lemma_evolves_on(middle, *self);
                    let next = Step {
                        before: chosen,
                        how: second.1@,
                        after: self.moment(*host),
                        outcome: second.0,
                    };
                    course = lemma_then_block(
                        course,
                        next,
                        pre,
                        *statement,
                        scope,
                        (depth - 1) as nat,
                    );
                }
                return (second.0, Ghost(course));
            }
            i = i + 1;
        }
        match &statement.else_block {
            Some(block) => {
                let ghost middle = *self;
                let ghost chosen = self.moment(*host);
                let second = self.eval(block, scope, host, depth - 1);
                proof {
                    old(self).lemma_evolves_on(middle, *self);
                    let next = Step {
                        before: chosen,
                        how: second.1@,
                        after: self.moment(*host),
                        outcome: second.0,
                    };
                    course = lemma_then_block(
                        course,
                        next,
                        pre,
                        *statement,
                        scope,
                        (depth - 1) as nat,
                    );
                }
                (second.0, Ghost(course))
            },
            None => (Ok(RuntimeValue::Null), Ghost(course)),
        }
    }

    /// Runs the block once for each pair of the iterable, in one scope for
    /// all the rounds: `^index` and `^value` are bindings of that scope,
    /// set anew before each round.
    #[verifier::loop_isolation(false)]
    fn eval_for_statement<H: Host>(
        &mut self,
        statement: &ForStatement,
        scope: ScopeId,
        host: &mut H,
        depth: usize,
    ) -> (out: (Outcome, Ghost<Course<H>>))
        requires
            depth > 0,
        ensures
            old(self).evolves_to(*final(self)),
            follows_for(
                out.1@,
                old(self).moment(*old(host)),
                *statement,
                scope,
                depth as nat,
                final(self).moment(*final(host)),
                out.0,
            ),
        decreases depth, 4nat,
    {
        let bound = match open_scope(&mut self.runtime, scope) {
            Ok(id) => id,
            Err(e) => { return (Err(e), Ghost(Course::none())); },
        };
        let ghost opened_state = *self;
        let ghost opened = self.moment(*host);
        let ghost mark = Step {
            before: opened,
            how: Course::none(),
            after: opened,
            outcome: Ok(RuntimeValue::Null),
        };
        let first = self.eval(&statement.iterable, scope, host, depth - 1);
        proof {
            old(self).lemma_evolves_on(opened_state, *self);
        }
        let ghost listed = Step {
            before: opened,
            how: first.1@,
            after: self.moment(*host),
            outcome: first.0,
        };
        let ghost mut course = Course { steps: seq![mark, listed] };
        let iterable = match first.0 {
            Ok(v) => v,
            Err(e) => { return (Err(e), Ghost(course)); },
        };
        let pairs = match iterable {
            RuntimeValue::Iterable(pairs) => pairs,
            _ => { return (Err(EvaluationError::TypeMismatch), Ghost(course)); },
        };
        let mut i: usize = 0;
        while i < pairs.len()
            invariant
                i <= pairs@.len(),
                depth > 0,
                bound < self.runtime.scopes@.len(),
                old(self).evolves_to(*self),
                course.steps.len() == 2 + i,
                course.steps[0] == mark,
                course.steps[1] == listed,
                follows_rounds(
                    course,
                    2,
                    *statement.block,
                    bound,
                    (depth - 1) as nat,
                    Some(pairs@),
                ),
                course.steps.last().after == self.moment(*host),
                !course.failed(),
            decreases pairs@.len() - i,
        {
            let number = match index_number(pairs[i].index) {
                Ok(n) => n,
                Err(e) => { return (Err(e), Ghost(course)); },
            };
            let ghost before = *self;
            let ghost prev = self.moment(*host);
            bind_in(&mut self.runtime, bound, "index".to_owned(), RuntimeValue::Number(number));
            let ghost first_state = *self;
            bind_in(&mut self.runtime, bound, "value".to_owned(), pairs[i].value.clone());
            let ghost second_state = *self;
            let ghost start = self.moment(*host);
            let step = self.eval(&statement.block, bound, host, depth - 1);
            proof {
                before.lemma_evolves_on(first_state, second_state);
                before.lemma_evolves_on(second_state, *self);
                old(self).lemma_evolves_on(before, *self);
                assert(round_starts_via(
                    number,
                    first_state.runtime,
                    prev,
                    start,
                    bound,
                    i as int,
                    Some(pairs@[i as int]),
                ));
                let next = Step {
                    before: start,
                    how: step.1@,
                    after: self.moment(*host),
                    outcome: step.0,
                };
                course = lemma_one_more_round(
                    course,
                    next,
                    2,
                    *statement.block,
                    bound,
                    (depth - 1) as nat,
                    Some(pairs@),
                );
            }
            match step.0 {
                Ok(_) => {},
                Err(e) => { return (Err(e), Ghost(course)); },
            }
            i = i + 1;
        }
        (Ok(RuntimeValue::Null), Ghost(course))
    }

    fn eval_typeof<H: Host>(&mut self, v: &ASTNode, scope: ScopeId, host: &mut H, depth: usize)
        -> (out: (Outcome, Ghost<Course<H>>))
        requires
            depth > 0,
        ensures
            old(self).evolves_to(*final(self)),
            follows_typeof(
                out.1@,
                old(self).moment(*old(host)),
                *v,
                scope,
                depth as nat,
                final(self).moment(*final(host)),
                out.0,
            ),
        decreases depth, 4nat,
    {
        let ghost pre = self.moment(*host);
        let step = self.eval(v, scope, host, depth - 1);
        let ghost course = Course {
            steps: seq![
                Step { before: pre, how: step.1@, after: self.moment(*host), outcome: step.0 },
            ],
        };
        match step.0 {
            Ok(value) => (Ok(type_name_of(&value)), Ghost(course)),
            Err(e) => (Err(e), Ghost(course)),
        }
    }

    /// Makes an instance of a layout: each field that has a default gets
    /// it, evaluated anew; then each field that the creation names gets its
    /// value; and every field of the layout must have got one.
    fn eval_layout_creation<H: Host>(
        &mut self,
        creation: &LayoutCreation,
        scope: ScopeId,
        host: &mut H,
        depth: usize,
    ) -> (out: (Outcome, Ghost<Course<H>>))
        requires
            depth > 0,
        ensures
            old(self).evolves_to(*final(self)),
            follows_creation(
                out.1@,
                old(self).moment(*old(host)),
                *creation,
                scope,
                depth as nat,
                final(self).moment(*final(host)),
                out.0,
            ),
        decreases depth, 4nat,
    {
        let ghost pre = self.moment(*host);
        let declaration = match RuntimeScope::get_layout_declaration(
            &self.runtime,
            scope,
            &creation.name,
        ) {
            Some(d) => d,
            None => {
                return (Err(EvaluationError::UndeclaredLayout), Ghost(Course::none()));
            },
        };
        if declaration >= self.runtime.declarations.len() {
            return (Err(EvaluationError::UndeclaredLayout), Ghost(Course::none()));
        }
        let declared = share(&self.runtime.declarations[declaration].fields);
        let ghost mut course: Course<H> = Course::none();
        let mut fields: StrMap<RuntimeValue> = StrMap::new();
        let mut i: usize = 0;
        let n = declared.len();
        let m = creation.specified_fields.len();
        while i < n
            invariant
                i <= n,
                depth > 0,
                pre == old(self).moment(*old(host)),
                creation_target(pre.runtime, scope, creation.name@) == Some(declaration),
                declared == pre.runtime.declarations@[declaration as int].fields,
                n == declared.keys().len(),
                m == creation.specified_fields.keys().len(),
                old(self).evolves_to(*self),
                course.steps.len() == i,
                course.is_linked(pre),
                !course.failed(),
                course.end(pre) == self.moment(*host),
                follows_fields(course, *declared, *creation, scope, (depth - 1) as nat),
                fields@ == gathered(*declared, *creation, course, i as nat),
            decreases n - i,
        {
            let ghost start = self.moment(*host);
            match &declared.value_at(i).default_value {
                Some(default) => {
                    let ghost before = *self;
                    let step = self.eval(default, scope, host, depth - 1);
                    proof {
                        old(self).lemma_evolves_on(before, *self);
                        let next = Step {
                            before: start,
                            how: step.1@,
                            after: self.moment(*host),
                            outcome: step.0,
                        };
                        course = lemma_one_more_field(
                            course,
                            next,
                            pre,
                            declared,
                            *creation,
                            scope,
                            (depth - 1) as nat,
                        );
                    }
                    match step.0 {
                        Ok(v) => {
                            fields.insert(declared.key_at(i).clone(), v);
                        },
                        Err(e) => { return (Err(e), Ghost(course)); },
                    }
                },
                None => {
                    proof {
                        let next = Step {
                            before: start,
                            how: Course::none(),
                            after: start,
                            outcome: Ok(RuntimeValue::Null),
                        };
                        course = lemma_one_more_field(
                            course,
                            next,
                            pre,
                            declared,
                            *creation,
                            scope,
                            (depth - 1) as nat,
                        );
                    }
                },
            }
            i = i + 1;
        }
        let mut j: usize = 0;
        while j < m
            invariant
                j <= m,
                depth > 0,
                pre == old(self).moment(*old(host)),
                creation_target(pre.runtime, scope, creation.name@) == Some(declaration),
                declared == pre.runtime.declarations@[declaration as int].fields,
                n == declared.keys().len(),
                m == creation.specified_fields.keys().len(),
                old(self).evolves_to(*self),
                course.steps.len() == n + j,
                course.is_linked(pre),
                !course.failed(),
                course.end(pre) == self.moment(*host),
                follows_fields(course, *declared, *creation, scope, (depth - 1) as nat),
                fields@ == gathered(*declared, *creation, course, (n + j) as nat),
                forall|k: int|
                    n <= k < n + j ==> declared@.contains_key(
                        #[trigger] field_key(*declared, *creation, k),
                    ),
            decreases m - j,
        {
            let ghost before = *self;
            let ghost start = self.moment(*host);
            let step = self.eval(creation.specified_fields.value_at(j), scope, host, depth - 1);
            proof {
                old(self).lemma_evolves_on(before, *self);
                let next = Step {
                    before: start,
                    how: step.1@,
                    after: self.moment(*host),
                    outcome: step.0,
                };
                course = lemma_one_more_field(
                    course,
                    next,
                    pre,
                    declared,
                    *creation,
                    scope,
                    (depth - 1) as nat,
                );
            }
            let v = match step.0 {
                Ok(v) => v,
                Err(e) => { return (Err(e), Ghost(course)); },
            };
            let name = creation.specified_fields.key_at(j);
            if !declared.contains_key(name) {
                return (Err(EvaluationError::UnknownField), Ghost(course));
            }
            fields.insert(name.clone(), v);
            j = j + 1;
        }
        if !covers(&declared, &fields) {
            return (Err(EvaluationError::ArityOrShapeError), Ghost(course));
        }
        let ghost middle = *self;
        let entries = make_instance(&mut self.runtime, fields);
        proof {
            old(self).lemma_evolves_on(middle, *self);
        }
        (
            Ok(
                RuntimeValue::Complex(
                    ComplexRuntimeValue::Layout(
                        LayoutData { layout_id: creation.name.clone(), entries },
                    ),
                ),
            ),
            Ghost(course),
        )
    }

    /// Imports `symbol` from the module `path` into `scope`, and gives the
    /// value of the module. A module that has not run runs now, once, in
    /// its own scope; a module that has run is not run again.
    fn eval_module<H: Host>(
        &mut self,
        path: &String,
        symbol: &String,
        scope: ScopeId,
        host: &mut H,
        depth: usize,
    ) -> (out: (Outcome, Ghost<Course<H>>))
        requires
            depth > 0,
        ensures
            old(self).evolves_to(*final(self)),
            follows_module(
                out.1@,
                old(self).moment(*old(host)),
                *path,
                *symbol,
                scope,
                depth as nat,
                final(self).moment(*final(host)),
                out.0,
            ),
        decreases depth, 4nat,
    {
        let ghost pre = self.moment(*host);
        let place = match self.module_storage.find(path) {
            Some(i) => i,
            None => {
                return (Err(EvaluationError::UndeclaredModule), Ghost(Course::none()));
            },
        };
        let ghost mut course: Course<H> = Course::none();
        if !self.module_storage.modules[place].has_cache() {
            let ghost first = *self;
            register_function_exports(&mut self.module_storage, place);
            let ast = self.module_storage.modules[place].ast();
            let inner = self.module_storage.modules[place].scope;
            let ghost registered = *self;
            let ghost start = self.moment(*host);
            let step = self.eval_statements(&ast, inner, host, depth);
            proof {
                first.lemma_evolves_on(registered, *self);
            }
            let ghost run = Step {
                before: start,
                how: step.1@,
                after: self.moment(*host),
                outcome: step.0,
            };
            let value = match step.0 {
                Ok(v) => v,
                Err(e) => { return (Err(e), Ghost(Course { steps: seq![run] })); },
            };
            if place >= self.module_storage.modules.len() {
                return (Err(EvaluationError::UndeclaredModule), Ghost(Course { steps: seq![run] }));
            }
            let ghost evaluated = *self;
            let ghost ran = self.moment(*host);
            let finished = finish_module(&mut self.module_storage, &self.runtime, place, value);
            proof {
                old(self).lemma_evolves_on(evaluated, *self);
                let done = self.moment(*host);
                let mark = Step {
                    before: done,
                    how: Course::none(),
                    after: done,
                    outcome: Ok(RuntimeValue::Null),
                };
                course = Course { steps: seq![run, mark] };
                assert(module_finished(ran, done, place, value));
            }
            if !finished {
                return (Err(EvaluationError::UndeclaredLayout), Ghost(course));
            }
        }
        let ghost ready = *self;
        let r = import_symbol(&mut self.runtime, &self.module_storage, place, symbol, scope);
        proof {
            old(self).lemma_evolves_on(ready, *self);
        }
        (r, Ghost(course))
    }
}

} // verus!
