use indexmap::IndexMap;
use mosa::collections::StrMap;
use mosa::global::{ComplexDataType, DataType, NumType, PrimitiveDataType, ReferenceType};
use mosa::interpreter::scope::{FnArgs, Runtime, RuntimeScope};
use mosa::interpreter::structs::{
    ArithmeticOp, ComplexRuntimeValue, EvaluationError, Host, MoSaNativeFunction, Reference,
    RuntimeValue,
};
use mosa::interpreter::steps::{range_pairs, repeat_count};
use mosa::interpreter::Interpreter;
use mosa::modules::ModuleStorage;
use mosa::number::Number;
use mosa::parser::structs::{
    ASTNode, AssignmentProperty, BinaryExpression, ExpressionType, FieldParserDescription,
    ForStatement, IfStatement, LayoutCreation, LayoutDeclaration, OnceStatement, Operand,
    ParserFunctionData, UseNative,
};
use std::sync::Arc;

/// A host whose one native function keeps what it is called with.
struct Recorder {
    seen: Vec<Vec<RuntimeValue>>,
}

impl Host for Recorder {
    fn arithmetic(&self, op: ArithmeticOp, left: Number, right: Number) -> Number {
        let (l, r) = (f64::from_bits(left.to_bits()), f64::from_bits(right.to_bits()));
        let x = match op {
            ArithmeticOp::Add => l + r,
            ArithmeticOp::Sub => l - r,
            ArithmeticOp::Mul => l * r,
            ArithmeticOp::Div => l / r,
        };
        Number::from_bits(x.to_bits())
    }

    fn call_native(&self, function: MoSaNativeFunction, args: Vec<RuntimeValue>) -> (Self, RuntimeValue) {
        assert_eq!(function.slot, 0);
        let mut seen = self.seen.clone();
        seen.push(args);
        (Recorder { seen }, RuntimeValue::Null)
    }
}

fn f(v: &RuntimeValue) -> f64 {
    match v {
        RuntimeValue::Number(n) => f64::from_bits(n.to_bits()),
        other => panic!("not a number: {other:?}"),
    }
}

fn num_type() -> DataType {
    DataType::Primitive(PrimitiveDataType::Num(NumType::Dynamic))
}

fn null_type() -> DataType {
    DataType::Primitive(PrimitiveDataType::Null)
}

fn named(name: &str) -> DataType {
    DataType::Complex(ComplexDataType::LayoutOrEnum(name.to_string()))
}

fn num(x: f64) -> ASTNode {
    ASTNode::Number(Number::from_bits(x.to_bits()))
}

fn text(s: &str) -> ASTNode {
    ASTNode::String(s.to_string())
}

fn ident(s: &str) -> ASTNode {
    ASTNode::Identifier(s.to_string())
}

fn binding(s: &str) -> ASTNode {
    ASTNode::BindingAccess(s.to_string())
}

fn binary(operand: Operand, left: ASTNode, right: ASTNode) -> ASTNode {
    ASTNode::Expression(ExpressionType::Binary(Box::new(BinaryExpression {
        left: Box::new(left),
        right: Box::new(right),
        operand,
    })))
}

fn declare(immutable: bool, name: &str, type_id: DataType, value: ASTNode) -> ASTNode {
    ASTNode::VariableDeclaration(immutable, name.to_string(), type_id, Box::new(value))
}

fn infer(name: &str, value: ASTNode) -> ASTNode {
    declare(false, name, DataType::InternalInfer, value)
}

fn assign(name: &str, value: ASTNode) -> ASTNode {
    ASTNode::Assignment(AssignmentProperty::Variable(name.to_string()), Box::new(value))
}

fn block(nodes: Vec<ASTNode>) -> ASTNode {
    ASTNode::CodeBlock(Arc::new(nodes))
}

fn call(callee: ASTNode, args: Vec<ASTNode>) -> ASTNode {
    ASTNode::FunctionCall(Box::new(callee), args)
}

fn record(args: Vec<ASTNode>) -> ASTNode {
    call(ident("record"), args)
}

fn params(list: &[(&str, DataType)]) -> Arc<FnArgs> {
    let mut args: FnArgs = IndexMap::new();
    for (name, type_id) in list {
        args.insert(name.to_string(), type_id.clone());
    }
    Arc::new(args)
}

fn function(name: &str, list: &[(&str, DataType)], returns: DataType, body: Vec<ASTNode>) -> ASTNode {
    ASTNode::FunctionDeclaration(name.to_string(), params(list), Box::new(block(body)), returns)
}

fn lambda(list: &[(&str, DataType)], returns: DataType, body: Vec<ASTNode>) -> ASTNode {
    ASTNode::Lambda(params(list), Box::new(block(body)), returns)
}

/// A root scope that knows the host's recorder under the name `record`.
fn root() -> RuntimeScope {
    let mut scope = RuntimeScope::new(None);
    scope.add_native_function("host~>record".to_string(), MoSaNativeFunction { slot: 0 });
    scope.define_native_function("record".to_string(), "host~>record".to_string());
    scope
}

fn run_in(program: Vec<ASTNode>, storage: ModuleStorage, runtime: Runtime) -> (Result<RuntimeValue, EvaluationError>, Interpreter, Recorder) {
    let mut interpreter =
        Interpreter::new(ASTNode::Program(Arc::new(program)), storage, runtime).expect("a program");
    let mut host = Recorder { seen: vec![] };
    let result = interpreter.eval_program(root(), &mut host);
    (result, interpreter, host)
}

fn run(program: Vec<ASTNode>) -> (Result<RuntimeValue, EvaluationError>, Recorder) {
    let (result, _, host) = run_in(program, ModuleStorage::new(), Runtime::new());
    (result, host)
}

fn value(program: Vec<ASTNode>) -> RuntimeValue {
    run(program).0.expect("the program gives a value")
}

fn error(program: Vec<ASTNode>) -> EvaluationError {
    run(program).0.expect_err("the program fails")
}

fn recorded_numbers(host: &Recorder) -> Vec<f64> {
    host.seen.iter().map(|args| f(&args[0])).collect()
}

#[test]
fn interpreter_takes_a_program_only() {
    assert!(Interpreter::new(num(1.0), ModuleStorage::new(), Runtime::new()).is_err());
    assert!(Interpreter::new(ASTNode::Program(Arc::new(vec![])), ModuleStorage::new(), Runtime::new()).is_ok());
}

#[test]
fn an_empty_program_gives_null() {
    assert!(matches!(value(vec![]), RuntimeValue::Null));
}

#[test]
fn a_program_gives_the_value_of_its_last_statement() {
    assert_eq!(f(&value(vec![num(1.0), num(2.0)])), 2.0);
    assert!(matches!(value(vec![text("a")]), RuntimeValue::String(s) if s == "a"));
    assert!(matches!(value(vec![ASTNode::Boolean(true)]), RuntimeValue::Bool(true)));
    assert!(matches!(value(vec![ASTNode::Expression(ExpressionType::Null)]), RuntimeValue::Null));
}

#[test]
fn arithmetic_is_evaluated_left_to_right() {
    let sum = binary(Operand::Plus, num(1.0), binary(Operand::Multiply, num(2.0), num(3.0)));
    assert_eq!(f(&value(vec![sum])), 7.0);
    assert_eq!(f(&value(vec![binary(Operand::Minus, num(1.0), num(3.0))])), -2.0);
    assert_eq!(f(&value(vec![binary(Operand::Divide, num(1.0), num(4.0))])), 0.25);
    let (_, host) = run(vec![binary(
        Operand::Plus,
        block(vec![record(vec![num(1.0)]), num(1.0)]),
        block(vec![record(vec![num(2.0)]), num(2.0)]),
    )]);
    assert_eq!(recorded_numbers(&host), vec![1.0, 2.0]);
}

#[test]
fn arithmetic_on_a_boolean_and_a_number_gives_null() {
    let sum = binary(Operand::Plus, ASTNode::Boolean(true), num(1.0));
    assert!(matches!(value(vec![sum]), RuntimeValue::Null));
}

#[test]
fn comparison_and_equality_give_booleans() {
    let b = |op, l: f64, r: f64| value(vec![binary(op, num(l), num(r))]);
    assert!(matches!(b(Operand::Bigger, 2.0, 1.0), RuntimeValue::Bool(true)));
    assert!(matches!(b(Operand::Smaller, 2.0, 1.0), RuntimeValue::Bool(false)));
    assert!(matches!(b(Operand::BiggerEqual, 2.0, 2.0), RuntimeValue::Bool(true)));
    assert!(matches!(b(Operand::SmallerEqual, 1.0, 2.0), RuntimeValue::Bool(true)));
    assert!(matches!(b(Operand::SmallerEqual, 2.0, 2.0), RuntimeValue::Bool(true)));
    assert!(matches!(b(Operand::SmallerEqual, 3.0, 2.0), RuntimeValue::Bool(false)));
    assert!(matches!(b(Operand::Equality, 2.0, 2.0), RuntimeValue::Bool(true)));
    assert!(matches!(b(Operand::Inequality, 2.0, 2.0), RuntimeValue::Bool(false)));
    assert!(matches!(b(Operand::Inequality, 1.0, 2.0), RuntimeValue::Bool(true)));
}

#[test]
fn operands_without_meaning_give_null_and_evaluate_nothing() {
    for operand in [
        Operand::EqArrow,
        Operand::DoubleArrow,
        Operand::Arrow,
        Operand::BackwardArrow,
        Operand::ExclamationMk,
        Operand::QuestionMk,
        Operand::Modulo,
        Operand::Increment,
        Operand::Decrement,
        Operand::Equal,
    ] {
        let (result, host) = run(vec![binary(operand, record(vec![num(1.0)]), ident("nowhere"))]);
        assert!(matches!(result, Ok(RuntimeValue::Null)));
        assert!(host.seen.is_empty());
    }
}

#[test]
fn a_range_counts_from_the_floor_of_its_start() {
    let pairs = match value(vec![binary(Operand::DoubleDot, num(0.0), num(5.0))]) {
        RuntimeValue::Iterable(pairs) => pairs,
        other => panic!("not an iterable: {other:?}"),
    };
    let got: Vec<(usize, f64)> = pairs.iter().map(|p| (p.index, f(&p.value))).collect();
    assert_eq!(got, vec![(0, 0.0), (1, 1.0), (2, 2.0), (3, 3.0), (4, 4.0)]);
}

#[test]
fn a_range_that_does_not_rise_is_empty() {
    for (a, b) in [(3.0, 3.0), (5.0, 3.0), (0.2, 0.9)] {
        match value(vec![binary(Operand::DoubleDot, num(a), num(b))]) {
            RuntimeValue::Iterable(pairs) => assert!(pairs.is_empty()),
            other => panic!("not an iterable: {other:?}"),
        }
    }
}

#[test]
fn a_range_goes_by_the_floors_of_both_ends() {
    let n = |x: f64| RuntimeValue::Number(Number::from_bits(x.to_bits()));
    let pairs = range_pairs(&n(-2.5), &n(1.2)).expect("a range");
    let got: Vec<(usize, f64)> = pairs.iter().map(|p| (p.index, f(&p.value))).collect();
    assert_eq!(got, vec![(0, -3.0), (1, -2.0), (2, -1.0), (3, 0.0)]);
    assert_eq!(range_pairs(&n(0.5), &n(1.2)).expect("a range").len(), 1);
    assert_eq!(
        range_pairs(&n(0.0), &RuntimeValue::Null).unwrap_err(),
        EvaluationError::TypeMismatch
    );
    assert_eq!(
        range_pairs(&n(0.0), &n(1e300)).unwrap_err(),
        EvaluationError::NumberOutOfRange
    );
    assert_eq!(
        range_pairs(&n(f64::NAN), &n(1.0)).unwrap_err(),
        EvaluationError::NumberOutOfRange
    );
}

#[test]
fn repeat_runs_floor_of_the_count_times() {
    let repeat = ASTNode::RepeatOperation(
        Box::new(num(3.7)),
        Box::new(record(vec![binding("index")])),
    );
    let (result, host) = run(vec![repeat]);
    assert!(matches!(result, Ok(RuntimeValue::Null)));
    assert_eq!(recorded_numbers(&host), vec![0.0, 1.0, 2.0]);
}

#[test]
fn repeat_count_is_the_floor_of_the_magnitude() {
    let n = |x: f64| RuntimeValue::Number(Number::from_bits(x.to_bits()));
    assert_eq!(repeat_count(&n(3.7)), Ok(3));
    assert_eq!(repeat_count(&n(-3.7)), Ok(3));
    assert_eq!(repeat_count(&n(0.99)), Ok(0));
    assert_eq!(repeat_count(&n(f64::NAN)), Ok(0));
    assert_eq!(repeat_count(&n(1e300)), Ok(u32::MAX));
    assert_eq!(repeat_count(&n(f64::INFINITY)), Ok(u32::MAX));
    assert_eq!(repeat_count(&RuntimeValue::Null), Err(EvaluationError::TypeMismatch));
}

#[test]
fn repeat_needs_a_number() {
    let repeat = ASTNode::RepeatOperation(Box::new(text("3")), Box::new(num(1.0)));
    assert_eq!(error(vec![repeat]), EvaluationError::TypeMismatch);
}

#[test]
fn an_immutable_variable_refuses_assignment() {
    let program = vec![declare(true, "x", num_type(), num(1.0)), assign("x", num(2.0))];
    assert_eq!(error(program), EvaluationError::ImmutableAssignment);
    let program = vec![
        declare(true, "x", DataType::InternalInfer, num(1.0)),
        block(vec![assign("x", num(2.0))]),
    ];
    assert_eq!(error(program), EvaluationError::ImmutableAssignment);
}

#[test]
fn a_mutable_variable_takes_a_value_of_its_type() {
    let program = vec![infer("x", num(1.0)), assign("x", num(2.0)), ident("x")];
    assert_eq!(f(&value(program)), 2.0);
    let program = vec![
        infer("x", num(1.0)),
        block(vec![assign("x", num(5.0))]),
        block(vec![block(vec![ident("x")])]),
    ];
    assert_eq!(f(&value(program)), 5.0);
}

#[test]
fn assignment_checks_the_declared_type() {
    let program = vec![infer("x", num(1.0)), assign("x", text("a"))];
    assert_eq!(error(program), EvaluationError::TypeMismatch);
    let nullable = DataType::Primitive(PrimitiveDataType::Nullable(Box::new(num_type())));
    let program = vec![
        declare(false, "x", nullable.clone(), num(1.0)),
        assign("x", ident("null")),
        assign("x", num(3.0)),
        ident("x"),
    ];
    let mut scope = root();
    scope.declare_variable("null".to_string(), null_type(), RuntimeValue::Null, true).unwrap();
    let mut interpreter =
        Interpreter::new(ASTNode::Program(Arc::new(program)), ModuleStorage::new(), Runtime::new()).unwrap();
    let mut host = Recorder { seen: vec![] };
    assert_eq!(f(&interpreter.eval_program(scope, &mut host).unwrap()), 3.0);
}

#[test]
fn declaration_checks_the_declared_type() {
    assert_eq!(
        error(vec![declare(false, "x", num_type(), text("a"))]),
        EvaluationError::TypeMismatch
    );
}

#[test]
fn assignment_never_declares() {
    assert_eq!(error(vec![assign("x", num(1.0))]), EvaluationError::UndeclaredVariable);
}

#[test]
fn a_declaration_in_a_block_hides_and_does_not_change_the_outer_variable() {
    let program = vec![
        infer("x", num(1.0)),
        block(vec![infer("x", text("inner")), assign("x", text("other"))]),
        ident("x"),
    ];
    assert_eq!(f(&value(program)), 1.0);
}

#[test]
fn an_unknown_identifier_is_an_undeclared_function() {
    assert_eq!(error(vec![ident("nowhere")]), EvaluationError::UndeclaredFunction);
}

#[test]
fn a_function_is_called_with_its_arguments() {
    let program = vec![
        function(
            "add",
            &[("a", num_type()), ("b", num_type())],
            num_type(),
            vec![binary(Operand::Plus, ident("a"), ident("b"))],
        ),
        call(ident("add"), vec![num(1.0), num(2.0)]),
    ];
    assert_eq!(f(&value(program)), 3.0);
}

#[test]
fn a_call_needs_an_argument_for_each_parameter() {
    let program = vec![
        function("one", &[("a", num_type())], num_type(), vec![ident("a")]),
        call(ident("one"), vec![]),
    ];
    assert_eq!(error(program), EvaluationError::ArityOrShapeError);
}

#[test]
fn a_parameter_takes_its_own_type_only() {
    let program = vec![
        function("one", &[("a", num_type())], num_type(), vec![ident("a")]),
        call(ident("one"), vec![text("a")]),
    ];
    assert_eq!(error(program), EvaluationError::TypeMismatch);
    let nullable = DataType::Primitive(PrimitiveDataType::Nullable(Box::new(num_type())));
    let program = vec![
        function("maybe", &[("a", nullable)], null_type(), vec![]),
        call(ident("maybe"), vec![num(1.0)]),
    ];
    assert_eq!(error(program), EvaluationError::TypeMismatch);
}

#[test]
fn a_return_type_may_be_nullable() {
    let nullable = DataType::Primitive(PrimitiveDataType::Nullable(Box::new(num_type())));
    let program = vec![
        function("give", &[], nullable.clone(), vec![num(1.0)]),
        call(ident("give"), vec![]),
    ];
    assert_eq!(f(&value(program)), 1.0);
    let program =
        vec![function("give", &[], nullable, vec![]), call(ident("give"), vec![])];
    assert!(matches!(value(program), RuntimeValue::Null));
}

#[test]
fn a_return_value_must_match_the_return_type() {
    let program = vec![
        function("give", &[], num_type(), vec![text("a")]),
        call(ident("give"), vec![]),
    ];
    assert_eq!(error(program), EvaluationError::TypeMismatch);
}

#[test]
fn parameters_are_immutable() {
    let program = vec![
        function("set", &[("a", num_type())], null_type(), vec![assign("a", num(2.0))]),
        call(ident("set"), vec![num(1.0)]),
    ];
    assert_eq!(error(program), EvaluationError::ImmutableAssignment);
}

#[test]
fn only_a_function_can_be_called() {
    let program = vec![infer("x", num(1.0)), call(ident("x"), vec![])];
    assert_eq!(error(program), EvaluationError::NotCallable);
}

#[test]
fn a_native_function_gets_its_arguments_unchecked() {
    let (result, host) = run(vec![record(vec![text("a"), num(2.0), ASTNode::Boolean(true)])]);
    assert!(matches!(result, Ok(RuntimeValue::Null)));
    assert_eq!(host.seen.len(), 1);
    assert_eq!(host.seen[0].len(), 3);
    assert!(matches!(&host.seen[0][0], RuntimeValue::String(s) if s == "a"));
}

#[test]
fn use_native_names_a_native_path() {
    let program = vec![
        block(vec![
            ASTNode::UseNative(UseNative {
                name: "log".to_string(),
                from: "host~>record".to_string(),
            }),
            call(ident("log"), vec![num(5.0)]),
        ]),
    ];
    let (result, host) = run(program);
    assert!(result.is_ok());
    assert_eq!(recorded_numbers(&host), vec![5.0]);
}

#[test]
fn a_closure_sees_the_scope_where_it_was_made() {
    // scope A declares v = 1 and a lambda that reads v; scope B declares
    // another v and calls the lambda.
    let program = vec![
        infer("get", {
            block(vec![
                infer("v", num(1.0)),
                lambda(&[], num_type(), vec![ident("v")]),
            ])
        }),
        block(vec![infer("v", num(2.0)), call(ident("get"), vec![])]),
    ];
    assert_eq!(f(&value(program)), 1.0);
}

#[test]
fn a_function_does_not_see_the_scope_of_its_caller() {
    let program = vec![
        function("peek", &[], num_type(), vec![ident("hidden")]),
        block(vec![infer("hidden", num(2.0)), call(ident("peek"), vec![])]),
    ];
    assert_eq!(error(program), EvaluationError::UndeclaredFunction);
}

#[test]
fn a_closure_sees_later_changes_of_its_scope() {
    let program = vec![
        infer("v", num(1.0)),
        function("get", &[], num_type(), vec![ident("v")]),
        assign("v", num(7.0)),
        call(ident("get"), vec![]),
    ];
    assert_eq!(f(&value(program)), 7.0);
}

#[test]
fn a_lambda_is_a_function_reference() {
    let made = value(vec![lambda(&[("a", num_type())], num_type(), vec![ident("a")])]);
    match &made {
        RuntimeValue::Reference(Reference::Function(data)) => {
            assert_eq!(data.name, "MOSA_INTERNAL_LAMBDA");
            assert!(!data.tied);
        }
        other => panic!("not a function: {other:?}"),
    }
    assert!(RuntimeScope::get_value_type(&made) == DataType::Reference(ReferenceType::Function));
    let program = vec![
        infer("twice", lambda(&[("a", num_type())], num_type(), vec![binary(Operand::Multiply, ident("a"), num(2.0))])),
        call(ident("twice"), vec![num(4.0)]),
    ];
    assert_eq!(f(&value(program)), 8.0);
}

#[test]
fn if_needs_a_boolean() {
    let statement = |condition: ASTNode, otherwise: Option<ASTNode>| {
        ASTNode::IfStatement(IfStatement {
            condition: Box::new(condition),
            if_block: Box::new(num(1.0)),
            else_block: otherwise.map(Box::new),
        })
    };
    assert_eq!(f(&value(vec![statement(ASTNode::Boolean(true), None)])), 1.0);
    assert!(matches!(value(vec![statement(ASTNode::Boolean(false), None)]), RuntimeValue::Null));
    assert_eq!(f(&value(vec![statement(ASTNode::Boolean(false), Some(num(2.0)))])), 2.0);
    assert_eq!(error(vec![statement(num(1.0), None)]), EvaluationError::NonBooleanCondition);
}

#[test]
fn once_runs_the_first_branch_that_holds() {
    let branch = |condition: ASTNode, then: f64| IfStatement {
        condition: Box::new(condition),
        if_block: Box::new(num(then)),
        else_block: None,
    };
    let once = |branches: Vec<IfStatement>, otherwise: Option<ASTNode>| {
        ASTNode::OnceStatement(OnceStatement {
            if_statements: branches,
            else_block: otherwise.map(Box::new),
        })
    };
    let program = vec![once(
        vec![
            branch(ASTNode::Boolean(false), 1.0),
            branch(num(5.0), 2.0),
            branch(ASTNode::Boolean(true), 3.0),
            branch(ASTNode::Boolean(true), 4.0),
        ],
        Some(num(9.0)),
    )];
    assert_eq!(f(&value(program)), 3.0);
    let program = vec![once(vec![branch(ASTNode::Boolean(false), 1.0)], Some(num(9.0)))];
    assert_eq!(f(&value(program)), 9.0);
    let program = vec![once(vec![branch(ASTNode::Boolean(false), 1.0)], None)];
    assert!(matches!(value(program), RuntimeValue::Null));
}

#[test]
fn for_binds_index_and_value() {
    let program = vec![ASTNode::ForStatement(ForStatement {
        iterable: Box::new(binary(Operand::DoubleDot, num(2.0), num(5.0))),
        block: Box::new(record(vec![binding("index"), binding("value")])),
    })];
    let (result, host) = run(program);
    assert!(matches!(result, Ok(RuntimeValue::Null)));
    let got: Vec<(f64, f64)> = host.seen.iter().map(|a| (f(&a[0]), f(&a[1]))).collect();
    assert_eq!(got, vec![(0.0, 2.0), (1.0, 3.0), (2.0, 4.0)]);
}

#[test]
fn for_needs_an_iterable() {
    let program = vec![ASTNode::ForStatement(ForStatement {
        iterable: Box::new(num(1.0)),
        block: Box::new(num(1.0)),
    })];
    assert_eq!(error(program), EvaluationError::TypeMismatch);
}

#[test]
fn a_closure_made_in_a_loop_sees_the_last_round() {
    let program = vec![
        infer("keep", lambda(&[], num_type(), vec![num(0.0)])),
        ASTNode::ForStatement(ForStatement {
            iterable: Box::new(binary(Operand::DoubleDot, num(0.0), num(3.0))),
            block: Box::new(assign("keep", lambda(&[], num_type(), vec![binding("value")]))),
        }),
        call(ident("keep"), vec![]),
    ];
    assert_eq!(f(&value(program)), 2.0);
}

#[test]
fn a_binding_must_be_bound() {
    assert_eq!(error(vec![binding("index")]), EvaluationError::UnboundBinding);
}

#[test]
fn typeof_names_the_type() {
    let name = |node: ASTNode| match value(vec![ASTNode::Typeof(Box::new(node))]) {
        RuntimeValue::String(s) => s,
        other => panic!("not a string: {other:?}"),
    };
    assert_eq!(name(num(1.0)), "num");
    assert_eq!(name(text("a")), "str");
    assert_eq!(name(ASTNode::Boolean(true)), "bool");
    assert_eq!(name(ASTNode::Expression(ExpressionType::Null)), "null");
    assert_eq!(name(binary(Operand::DoubleDot, num(0.0), num(1.0))), "iterable[num]");
    assert_eq!(name(lambda(&[], null_type(), vec![])), "ref[function]");
}

fn colors() -> ASTNode {
    ASTNode::EnumDeclaration(
        "Color".to_string(),
        vec!["Red".to_string(), "Green".to_string()],
    )
}

#[test]
fn an_enum_entry_carries_both_names() {
    let access = |e: &str, n: &str| ASTNode::ComplexTypeAccessor(e.to_string(), n.to_string());
    match value(vec![colors(), access("Color", "Green")]) {
        RuntimeValue::Complex(ComplexRuntimeValue::Enum(data)) => {
            assert_eq!(data.enum_id, "Color");
            assert_eq!(data.entry, "Green");
        }
        other => panic!("not an enum value: {other:?}"),
    }
    let same = binary(Operand::Equality, access("Color", "Red"), access("Color", "Red"));
    assert!(matches!(value(vec![colors(), same]), RuntimeValue::Bool(true)));
    let other = binary(Operand::Equality, access("Color", "Red"), access("Color", "Green"));
    assert!(matches!(value(vec![colors(), other]), RuntimeValue::Bool(false)));
    assert_eq!(error(vec![colors(), access("Color", "Blue")]), EvaluationError::UnknownField);
    assert_eq!(error(vec![access("Color", "Red")]), EvaluationError::UndeclaredEnum);
    assert_eq!(
        f(&value(vec![colors(), declare(false, "c", named("Color"), access("Color", "Red")), num(1.0)])),
        1.0
    );
}

fn field(type_id: &str, default: Option<ASTNode>) -> FieldParserDescription {
    FieldParserDescription { type_id: type_id.to_string(), default_value: default.map(Arc::new) }
}

fn point() -> ASTNode {
    let mut fields = StrMap::new();
    fields.insert("x".to_string(), field("num", None));
    fields.insert("y".to_string(), field("num", Some(num(7.0))));
    ASTNode::LayoutDeclaration(LayoutDeclaration { name: "Point".to_string(), fields: Arc::new(fields) })
}

fn make(name: &str, given: Vec<(&str, ASTNode)>) -> ASTNode {
    let mut fields = StrMap::new();
    for (field, node) in given {
        fields.insert(field.to_string(), Box::new(node));
    }
    ASTNode::LayoutCreation(LayoutCreation { name: name.to_string(), specified_fields: fields })
}

fn get(receiver: &str, field: &str) -> ASTNode {
    ASTNode::LayoutFieldAccess(receiver.to_string(), field.to_string())
}

fn set(receiver: &str, field: &str, value: ASTNode) -> ASTNode {
    ASTNode::Assignment(
        AssignmentProperty::LayoutField(receiver.to_string(), field.to_string()),
        Box::new(value),
    )
}

#[test]
fn a_layout_instance_has_its_defaults_and_its_given_fields() {
    let program = vec![
        point(),
        infer("p", make("Point", vec![("x", num(1.0))])),
        binary(Operand::Plus, get("p", "x"), get("p", "y")),
    ];
    assert_eq!(f(&value(program)), 8.0);
    let program = vec![
        point(),
        infer("p", make("Point", vec![("x", num(1.0)), ("y", num(2.0))])),
        get("p", "y"),
    ];
    assert_eq!(f(&value(program)), 2.0);
    let program = vec![
        point(),
        declare(false, "p", named("Point"), make("Point", vec![("x", num(1.0))])),
        ASTNode::Typeof(Box::new(ident("p"))),
    ];
    assert!(matches!(value(program), RuntimeValue::String(s) if s == "Point"));
}

#[test]
fn a_layout_instance_needs_every_field() {
    assert_eq!(
        error(vec![point(), make("Point", vec![])]),
        EvaluationError::ArityOrShapeError
    );
    assert_eq!(
        error(vec![point(), make("Point", vec![("x", num(1.0)), ("z", num(1.0))])]),
        EvaluationError::UnknownField
    );
    assert_eq!(error(vec![make("Point", vec![])]), EvaluationError::UndeclaredLayout);
}

#[test]
fn defaults_are_evaluated_for_each_instance() {
    let mut fields = StrMap::new();
    fields.insert(
        "x".to_string(),
        field("num", Some(block(vec![record(vec![num(1.0)]), num(1.0)]))),
    );
    let declaration = ASTNode::LayoutDeclaration(LayoutDeclaration {
        name: "Box".to_string(),
        fields: Arc::new(fields),
    });
    let (result, host) = run(vec![declaration, make("Box", vec![]), make("Box", vec![])]);
    assert!(result.is_ok());
    assert_eq!(host.seen.len(), 2);
}

#[test]
fn two_variables_of_one_instance_share_its_fields() {
    let program = vec![
        point(),
        infer("a", make("Point", vec![("x", num(1.0))])),
        infer("b", ident("a")),
        set("a", "x", num(42.0)),
        get("b", "x"),
    ];
    assert_eq!(f(&value(program)), 42.0);
    let program = vec![
        point(),
        infer("a", make("Point", vec![("x", num(1.0))])),
        infer("b", make("Point", vec![("x", num(1.0))])),
        set("a", "x", num(42.0)),
        get("b", "x"),
    ];
    assert_eq!(f(&value(program)), 1.0);
}

#[test]
fn a_field_must_exist() {
    let program = vec![
        point(),
        infer("a", make("Point", vec![("x", num(1.0))])),
        get("a", "z"),
    ];
    assert_eq!(error(program), EvaluationError::UnknownField);
    let program = vec![
        point(),
        infer("a", make("Point", vec![("x", num(1.0))])),
        set("a", "z", num(1.0)),
    ];
    assert_eq!(error(program), EvaluationError::UnknownField);
    assert_eq!(error(vec![infer("a", num(1.0)), get("a", "x")]), EvaluationError::TypeMismatch);
    assert_eq!(error(vec![get("a", "x")]), EvaluationError::UndeclaredVariable);
}

fn mixed(name: &str, tied: bool, list: &[(&str, DataType)], returns: DataType, body: Vec<ASTNode>) -> ParserFunctionData {
    ParserFunctionData {
        name: name.to_string(),
        args: params(list),
        body: Arc::new(body),
        return_type: returns,
        tied,
    }
}

#[test]
fn a_tied_method_gets_its_receiver() {
    let program = vec![
        point(),
        infer("p", make("Point", vec![("x", num(3.0))])),
        ASTNode::MixStatement(
            "Point".to_string(),
            vec![mixed(
                "scaled",
                true,
                &[("by", num_type())],
                num_type(),
                vec![binary(Operand::Multiply, get("self", "x"), ident("by"))],
            )],
        ),
        call(get("p", "scaled"), vec![num(2.0)]),
    ];
    assert_eq!(f(&value(program)), 6.0);
}

#[test]
fn a_method_that_is_not_tied_is_reached_through_the_layout() {
    let mix = ASTNode::MixStatement(
        "Point".to_string(),
        vec![
            mixed("origin", false, &[], num_type(), vec![num(0.0)]),
            mixed("own", true, &[], num_type(), vec![num(1.0)]),
        ],
    );
    let through = |n: &str| ASTNode::ComplexTypeAccessor("Point".to_string(), n.to_string());
    let program = vec![point(), mix, call(through("origin"), vec![])];
    assert_eq!(f(&value(program.clone_nodes())), 0.0);
    let mut tied = program.clone_nodes();
    tied[2] = call(through("own"), vec![]);
    assert_eq!(error(tied), EvaluationError::NotCallable);
    let mut missing = program.clone_nodes();
    missing[2] = call(through("none"), vec![]);
    assert_eq!(error(missing), EvaluationError::UndeclaredFunction);
    let mut dotted = program.clone_nodes();
    dotted[2] = infer("p", make("Point", vec![("x", num(1.0))]));
    dotted.push(get("p", "origin"));
    assert_eq!(error(dotted), EvaluationError::UnknownField);
}

/// Programs are built anew where a test runs one twice: nodes have no
/// `Clone`.
trait CloneNodes {
    fn clone_nodes(&self) -> Vec<ASTNode>;
}

impl CloneNodes for Vec<ASTNode> {
    fn clone_nodes(&self) -> Vec<ASTNode> {
        self.iter().map(copy_node).collect()
    }
}

fn copy_node(node: &ASTNode) -> ASTNode {
    match node {
        ASTNode::LayoutDeclaration(d) => ASTNode::LayoutDeclaration(d.clone()),
        ASTNode::MixStatement(name, list) => ASTNode::MixStatement(
            name.clone(),
            list.iter()
                .map(|m| ParserFunctionData {
                    name: m.name.clone(),
                    args: m.args.clone(),
                    body: m.body.clone(),
                    return_type: m.return_type.clone(),
                    tied: m.tied,
                })
                .collect(),
        ),
        ASTNode::FunctionCall(callee, args) => {
            ASTNode::FunctionCall(Box::new(copy_node(callee)), args.iter().map(copy_node).collect())
        }
        ASTNode::ComplexTypeAccessor(a, b) => ASTNode::ComplexTypeAccessor(a.clone(), b.clone()),
        other => panic!("no copy of {other:?}"),
    }
}

#[test]
fn mixing_needs_the_layout_in_the_very_scope() {
    let mix = || {
        ASTNode::MixStatement(
            "Point".to_string(),
            vec![mixed("origin", false, &[], num_type(), vec![num(0.0)])],
        )
    };
    assert_eq!(error(vec![mix()]), EvaluationError::UndeclaredLayout);
    assert_eq!(error(vec![point(), block(vec![mix()])]), EvaluationError::UndeclaredLayout);
    assert!(run(vec![point(), mix()]).0.is_ok());
}

#[test]
fn instances_made_before_a_mix_have_the_method() {
    let program = vec![
        point(),
        infer("p", make("Point", vec![("x", num(3.0))])),
        ASTNode::MixStatement(
            "Point".to_string(),
            vec![mixed("x_of", true, &[], num_type(), vec![get("self", "x")])],
        ),
        ASTNode::MixStatement(
            "Point".to_string(),
            vec![mixed("x_of", true, &[], num_type(), vec![num(100.0)])],
        ),
        call(get("p", "x_of"), vec![]),
    ];
    assert_eq!(f(&value(program)), 100.0);
}

#[test]
fn nodes_that_stand_for_nothing_are_refused() {
    assert_eq!(error(vec![ASTNode::InternalMulti(vec![])]), EvaluationError::UnsupportedNode);
    assert_eq!(
        error(vec![ASTNode::Misc(mosa::parser::structs::MiscNodeType::DoubleArrow)]),
        EvaluationError::UnsupportedNode
    );
}

#[test]
fn endless_recursion_stops_at_the_depth_limit() {
    let program = vec![
        function("again", &[], null_type(), vec![call(ident("again"), vec![])]),
        call(ident("again"), vec![]),
    ];
    assert_eq!(error(program), EvaluationError::DepthExceeded);
}

#[test]
fn the_depth_limit_can_be_set() {
    let nested = block(vec![block(vec![block(vec![num(1.0)])])]);
    let mut interpreter =
        Interpreter::new(ASTNode::Program(Arc::new(vec![nested])), ModuleStorage::new(), Runtime::new())
            .unwrap();
    interpreter.depth_limit = 3;
    let mut host = Recorder { seen: vec![] };
    assert_eq!(
        interpreter.eval_program(root(), &mut host).unwrap_err(),
        EvaluationError::DepthExceeded
    );
    interpreter.depth_limit = 0;
    assert_eq!(
        interpreter.eval_program(root(), &mut host).unwrap_err(),
        EvaluationError::DepthExceeded
    );
    interpreter.depth_limit = 16;
    assert_eq!(f(&interpreter.eval_program(root(), &mut host).unwrap()), 1.0);
}
