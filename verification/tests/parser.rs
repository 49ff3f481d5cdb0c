use indexmap::IndexMap;
use mosa::collections::StrMap;
use mosa::global::{ComplexDataType, DataType, NumType, PrimitiveDataType};
use mosa::interpreter::scope::{FnArgs, Runtime, RuntimeScope};
use mosa::interpreter::structs::{ArithmeticOp, Host, MoSaNativeFunction, RuntimeValue};
use mosa::interpreter::Interpreter;
use mosa::lexer::NumberParser;
use mosa::modules::{Module, ModuleStorage};
use mosa::number::Number;
use mosa::parser::structs::{
    ASTNode, AssignmentProperty, BinaryExpression, ExpressionType, FieldParserDescription,
    ForStatement, IfStatement, LayoutCreation, LayoutDeclaration, OnceStatement, Operand,
    ParserFunctionData, UseNative,
};
use mosa::parser::{type_named, ParseError, Parser, DEFAULT_NESTING_LIMIT};
use std::sync::Arc;

struct Decimal;

impl NumberParser for Decimal {
    fn parse_number(&self, text: &String) -> Option<Number> {
        text.parse::<f64>().ok().map(|x| Number::from_bits(x.to_bits()))
    }
}

struct Printer {
    printed: Vec<f64>,
}

impl Host for Printer {
    fn arithmetic(&self, op: ArithmeticOp, left: Number, right: Number) -> Number {
        let (l, r) = (f64::from_bits(left.to_bits()), f64::from_bits(right.to_bits()));
        let x = match op {
            ArithmeticOp::Add => l + r,
            ArithmeticOp::Sub => l - r,
            ArithmeticOp::Mul => l * r,
            ArithmeticOp::Div => l / r,
        };
        Number::from_bits(x.to_bits())
    }

    fn call_native(&self, _function: MoSaNativeFunction, args: Vec<RuntimeValue>) -> (Self, RuntimeValue) {
        let mut printed = self.printed.clone();
        match &args[0] {
            RuntimeValue::Number(n) => printed.push(f64::from_bits(n.to_bits())),
            other => panic!("not a number: {other:?}"),
        }
        (Printer { printed }, RuntimeValue::Null)
    }
}

struct Parsed {
    statements: Arc<Vec<ASTNode>>,
    problems: Vec<ParseError>,
    imports: Vec<String>,
    storage: ModuleStorage,
    runtime: Runtime,
}

fn parse(text: &str) -> Parsed {
    let mut runtime = Runtime::new();
    let mut storage = ModuleStorage::new();
    let module = Module::new("main".to_string(), &mut runtime);
    let parser = Parser::new(text.to_string(), module, &Decimal).expect("tokens");
    let (tree, diagnostics, imports) = parser.gen_ast(&mut storage);
    let statements = match tree {
        ASTNode::Program(statements) => statements,
        other => panic!("not a program: {other:?}"),
    };
    Parsed {
        statements,
        problems: diagnostics.iter().map(|d| d.kind).collect(),
        imports,
        storage,
        runtime,
    }
}

/// The statements of a text that the parser has nothing to say about.
fn tree(text: &str) -> Arc<Vec<ASTNode>> {
    let parsed = parse(text);
    assert_eq!(parsed.problems, vec![], "in {text}");
    parsed.statements
}

fn same(got: &[ASTNode], want: &[ASTNode]) {
    assert_eq!(format!("{got:#?}"), format!("{want:#?}"));
}

fn num_type() -> DataType {
    DataType::Primitive(PrimitiveDataType::Num(NumType::Dynamic))
}

fn num(x: f64) -> ASTNode {
    ASTNode::Number(Number::from_bits(x.to_bits()))
}

fn ident(s: &str) -> ASTNode {
    ASTNode::Identifier(s.to_string())
}

fn nothing() -> ASTNode {
    ASTNode::Expression(ExpressionType::Null)
}

fn binary(operand: Operand, left: ASTNode, right: ASTNode) -> ASTNode {
    ASTNode::Expression(ExpressionType::Binary(Box::new(BinaryExpression {
        left: Box::new(left),
        right: Box::new(right),
        operand,
    })))
}

fn block(nodes: Vec<ASTNode>) -> ASTNode {
    ASTNode::CodeBlock(Arc::new(nodes))
}

fn call(callee: ASTNode, args: Vec<ASTNode>) -> ASTNode {
    ASTNode::FunctionCall(Box::new(callee), args)
}

fn params(list: &[(&str, DataType)]) -> Arc<FnArgs> {
    let mut args: FnArgs = IndexMap::new();
    for (name, type_id) in list {
        args.insert(name.to_string(), type_id.clone());
    }
    Arc::new(args)
}

fn assign(name: &str, value: ASTNode) -> ASTNode {
    ASTNode::Assignment(AssignmentProperty::Variable(name.to_string()), Box::new(value))
}

#[test]
fn a_text_without_tokens_is_an_empty_program() {
    let parsed = parse("  // nothing here\n");
    assert_eq!(parsed.statements.len(), 0);
    assert_eq!(parsed.problems, vec![]);
    assert!(parsed.imports.is_empty());
    let module = parsed.storage.get(&"main".to_string()).expect("the module is registered");
    assert_eq!(module.ast().len(), 0);
}

#[test]
fn products_bind_tighter_than_sums() {
    same(
        &tree("let x: num = 1 + 2 * 3"),
        &[ASTNode::VariableDeclaration(
            false,
            "x".to_string(),
            num_type(),
            Box::new(binary(
                Operand::Plus,
                num(1.0),
                binary(Operand::Multiply, num(2.0), num(3.0)),
            )),
        )],
    );
    same(
        &tree("1 - 2 - 3"),
        &[binary(Operand::Minus, binary(Operand::Minus, num(1.0), num(2.0)), num(3.0))],
    );
}

#[test]
fn equalities_bind_tighter_than_products() {
    same(
        &tree("2 * 3 == 3"),
        &[binary(Operand::Multiply, num(2.0), binary(Operand::Equality, num(3.0), num(3.0)))],
    );
    same(
        &tree("1 != 2 >= 3"),
        &[binary(Operand::Inequality, num(1.0), binary(Operand::BiggerEqual, num(2.0), num(3.0)))],
    );
    same(
        &tree("1 < 2 <= 3 > 4"),
        &[binary(
            Operand::Bigger,
            binary(Operand::SmallerEqual, binary(Operand::Smaller, num(1.0), num(2.0)), num(3.0)),
            num(4.0),
        )],
    );
}

#[test]
fn a_range_is_made_of_sums() {
    same(
        &tree("1 + 1 .. 2 / 3"),
        &[binary(
            Operand::DoubleDot,
            binary(Operand::Plus, num(1.0), num(1.0)),
            binary(Operand::Divide, num(2.0), num(3.0)),
        )],
    );
}

#[test]
fn a_declaration_without_a_type_infers_it() {
    same(
        &tree("let name = \"a\\\"b\""),
        &[ASTNode::VariableDeclaration(
            false,
            "name".to_string(),
            DataType::InternalInfer,
            Box::new(ASTNode::String("a\"b".to_string())),
        )],
    );
    same(
        &tree("immut let n: nul num = 1"),
        &[ASTNode::VariableDeclaration(
            true,
            "n".to_string(),
            DataType::Primitive(PrimitiveDataType::Nullable(Box::new(num_type()))),
            Box::new(num(1.0)),
        )],
    );
}

#[test]
fn an_immutable_variable_needs_a_type_and_a_value() {
    let parsed = parse("immut let x = 1");
    assert_eq!(parsed.problems[0], ParseError::ImmutableWithoutType);
    assert!(matches!(parsed.statements[0], ASTNode::InternalStop(1, _)));
    let parsed = parse("immut let x: num");
    assert_eq!(parsed.problems, vec![ParseError::ImmutableWithoutValue]);
    let parsed = parse("immut x: num = 1");
    assert_eq!(parsed.problems[..2], [ParseError::ExpectedLet, ParseError::ExpectedVariableName]);
    let parsed = parse("let 1");
    assert_eq!(parsed.problems, vec![ParseError::ExpectedVariableName]);
}

#[test]
fn the_names_of_the_types() {
    let view = |name: &str| format!("{:?}", type_named(name.to_string()));
    assert_eq!(view("num"), format!("{:?}", num_type()));
    assert_eq!(view("str"), format!("{:?}", DataType::Primitive(PrimitiveDataType::Str)));
    assert_eq!(view("bool"), format!("{:?}", DataType::Primitive(PrimitiveDataType::Bool)));
    assert_eq!(view("null"), format!("{:?}", DataType::Primitive(PrimitiveDataType::Null)));
    assert_eq!(
        view("iterable"),
        format!("{:?}", DataType::Primitive(PrimitiveDataType::Iterable(Box::new(num_type()))))
    );
    assert_eq!(
        view("Point"),
        format!("{:?}", DataType::Complex(ComplexDataType::LayoutOrEnum("Point".to_string())))
    );
}

#[test]
fn an_assignment_names_a_variable_or_a_field() {
    same(&tree("x = 5"), &[assign("x", num(5.0))]);
    same(
        &tree("p.x = 5"),
        &[ASTNode::Assignment(
            AssignmentProperty::LayoutField("p".to_string(), "x".to_string()),
            Box::new(num(5.0)),
        )],
    );
    let parsed = parse("a = b = 1");
    assert_eq!(parsed.problems, vec![ParseError::NotAssignable]);
    same(&parsed.statements, &[assign("INTERNAL", num(1.0))]);
}

#[test]
fn self_assignment_looks_at_its_target_and_reads_it_again() {
    same(
        &tree(":= x + 5"),
        &[assign("x", binary(Operand::Plus, ident("x"), num(5.0)))],
    );
    same(
        &tree(":= p.x * 2"),
        &[ASTNode::Assignment(
            AssignmentProperty::LayoutField("p".to_string(), "x".to_string()),
            Box::new(binary(
                Operand::Multiply,
                ASTNode::LayoutFieldAccess("p".to_string(), "x".to_string()),
                num(2.0),
            )),
        )],
    );
}

#[test]
fn self_assignment_needs_a_target() {
    let parsed = parse(":= ) 1");
    assert_eq!(parsed.problems, vec![ParseError::ExpectedAssignmentTarget]);
    assert!(matches!(parsed.statements[0], ASTNode::InternalStop(1, _)));
}

#[test]
fn a_function_has_parameters_a_return_type_and_a_body() {
    same(
        &tree("fn add(a: num, b: num) -> num { a + b }"),
        &[ASTNode::FunctionDeclaration(
            "add".to_string(),
            params(&[("a", num_type()), ("b", num_type())]),
            Box::new(block(vec![binary(Operand::Plus, ident("a"), ident("b"))])),
            num_type(),
        )],
    );
    same(
        &tree("fn nothing() -> { }"),
        &[ASTNode::FunctionDeclaration(
            "nothing".to_string(),
            params(&[]),
            Box::new(block(vec![])),
            DataType::Primitive(PrimitiveDataType::Null),
        )],
    );
    same(
        &tree("let twice = ::(a: num) -> num { a * 2 }"),
        &[ASTNode::VariableDeclaration(
            false,
            "twice".to_string(),
            DataType::InternalInfer,
            Box::new(ASTNode::Lambda(
                params(&[("a", num_type())]),
                Box::new(block(vec![binary(Operand::Multiply, ident("a"), num(2.0))])),
                num_type(),
            )),
        )],
    );
}

#[test]
fn a_function_needs_a_name_and_parentheses() {
    assert_eq!(parse("fn (a: num) -> num { a }").problems[0], ParseError::ExpectedFunctionName);
    assert_eq!(parse("fn f -> num { 1 }").problems[0], ParseError::ExpectedOpeningParen);
    assert_eq!(parse("fn f(a num) -> num { 1 }").problems[0], ParseError::ExpectedParameterColon);
    assert_eq!(parse("fn f(1: num) -> num { 1 }").problems[0], ParseError::ExpectedParameterName);
    assert_eq!(parse("fn f() num { 1 }").problems[0], ParseError::ExpectedArrow);
    assert_eq!(parse("fn f() -> 1 { 1 }").problems[0], ParseError::ExpectedDataType);
    assert_eq!(parse("fn f() -> num 1 }").problems[0], ParseError::ExpectedCodeBlock);
}

#[test]
fn a_call_has_its_arguments_in_order() {
    same(
        &tree("f(1, g(), x)"),
        &[call(ident("f"), vec![num(1.0), call(ident("g"), vec![]), ident("x")])],
    );
    same(&tree("5 ->> f ->> g"), &[call(ident("g"), vec![call(ident("f"), vec![num(5.0)])])]);
}

#[test]
fn repeat_has_the_operation_in_parentheses() {
    same(
        &tree("(f(1)) ?: 3"),
        &[ASTNode::RepeatOperation(
            Box::new(num(3.0)),
            Box::new(call(ident("f"), vec![num(1.0)])),
        )],
    );
    same(&tree("(1 + 2)"), &[binary(Operand::Plus, num(1.0), num(2.0))]);
}

#[test]
fn a_block_that_follows_a_condition_starts_with_its_brace() {
    same(
        &tree("if a == 1 { 2 } else { 3 }"),
        &[ASTNode::IfStatement(IfStatement {
            condition: Box::new(binary(Operand::Equality, ident("a"), num(1.0))),
            if_block: Box::new(block(vec![nothing(), num(2.0)])),
            else_block: Some(Box::new(block(vec![nothing(), num(3.0)]))),
        })],
    );
    same(&tree("block { 1 }"), &[block(vec![nothing(), num(1.0)])]);
    same(
        &tree("for 0..3 { ^index }"),
        &[ASTNode::ForStatement(ForStatement {
            iterable: Box::new(binary(Operand::DoubleDot, num(0.0), num(3.0))),
            block: Box::new(block(vec![nothing(), ASTNode::BindingAccess("index".to_string())])),
        })],
    );
}

#[test]
fn once_holds_its_branches_in_order() {
    let branch = |n: f64| IfStatement {
        condition: Box::new(binary(Operand::Equality, ident("a"), num(n))),
        if_block: Box::new(block(vec![nothing(), num(n)])),
        else_block: None,
    };
    same(
        &tree("once { if a == 1 { 1 } if a == 2 { 2 } } else { 3 }"),
        &[ASTNode::OnceStatement(OnceStatement {
            if_statements: vec![branch(1.0), branch(2.0)],
            else_block: Some(Box::new(block(vec![nothing(), num(3.0)]))),
        })],
    );
}

#[test]
fn an_import_names_a_path_and_a_symbol() {
    let parsed = parse("use lib:math ~> add\nuse other ~> x");
    assert_eq!(parsed.problems, vec![]);
    same(
        &parsed.statements,
        &[
            ASTNode::UseModule("lib:math".to_string(), "add".to_string()),
            ASTNode::UseModule("other".to_string(), "x".to_string()),
        ],
    );
    assert_eq!(parsed.imports, vec!["lib:math".to_string(), "other".to_string()]);
    let parsed = parse("use lib ~> 1");
    assert_eq!(parsed.problems, vec![ParseError::ExpectedImportSymbol]);
    assert_eq!(parsed.imports, vec!["lib".to_string()]);
    let parsed = parse("use 1");
    assert_eq!(parsed.problems[0], ParseError::ExpectedModulePath);
    assert!(parsed.imports.is_empty());
    assert_eq!(
        parse("use lib add").problems,
        vec![ParseError::ExpectedTildeArrow, ParseError::ExpectedImportSymbol]
    );
}

#[test]
fn a_native_function_is_named_with_its_path() {
    same(
        &tree("use native fn print # \"host~>print\""),
        &[ASTNode::UseNative(UseNative {
            name: "print".to_string(),
            from: "host~>print".to_string(),
        })],
    );
    assert_eq!(parse("use native print").problems[0], ParseError::ExpectedNativeFn);
    assert_eq!(parse("use native fn 1").problems[0], ParseError::ExpectedNativeName);
    assert_eq!(parse("use native fn p \"a\"").problems[0], ParseError::ExpectedHashSign);
    assert_eq!(parse("use native fn p # a").problems[0], ParseError::ExpectedNativePath);
}

#[test]
fn an_enum_lists_its_entries() {
    let colors = ASTNode::EnumDeclaration(
        "Color".to_string(),
        vec!["Red".to_string(), "Green".to_string()],
    );
    same(&tree("enum Color { Red, Green }"), std::slice::from_ref(&colors));
    same(&tree("enum Color { Red, Green, }"), std::slice::from_ref(&colors));
    same(
        &tree("Color->Red"),
        &[ASTNode::ComplexTypeAccessor("Color".to_string(), "Red".to_string())],
    );
    assert_eq!(parse("enum { Red }").problems[0], ParseError::ExpectedEnumName);
    assert_eq!(parse("enum Color Red }").problems[0], ParseError::ExpectedOpeningBrace);
    assert_eq!(parse("enum Color { Red Green }").problems, vec![ParseError::ExpectedClosingBrace]);
    assert_eq!(parse("Color->1").problems, vec![ParseError::ExpectedEntryName]);
    assert_eq!(parse("^1").problems, vec![ParseError::ExpectedBindingName]);
    assert_eq!(parse("p.1").problems[0], ParseError::ExpectedFieldName);
}

fn point() -> LayoutDeclaration {
    let mut fields = StrMap::new();
    fields.insert(
        "x".to_string(),
        FieldParserDescription { type_id: "num".to_string(), default_value: Some(Arc::new(num(1.0))) },
    );
    fields.insert(
        "y".to_string(),
        FieldParserDescription { type_id: "num".to_string(), default_value: None },
    );
    LayoutDeclaration { name: "Point".to_string(), fields: Arc::new(fields) }
}

fn method(name: &str, tied: bool, body: Vec<ASTNode>) -> ParserFunctionData {
    ParserFunctionData {
        name: name.to_string(),
        args: params(&[]),
        body: Arc::new(body),
        return_type: num_type(),
        tied,
    }
}

#[test]
fn a_layout_lists_its_fields_with_their_defaults() {
    same(&tree("layout Point { x: num = 1, y: num }"), &[ASTNode::LayoutDeclaration(point())]);
    same(&tree("layout Point { x: num = 1, y: num, }"), &[ASTNode::LayoutDeclaration(point())]);
    let mut given = StrMap::new();
    given.insert("y".to_string(), Box::new(num(2.0)));
    given.insert("x".to_string(), Box::new(binary(Operand::Plus, num(1.0), num(1.0))));
    same(
        &tree("let p = Point { y = 2, x = 1 + 1 }"),
        &[ASTNode::VariableDeclaration(
            false,
            "p".to_string(),
            DataType::InternalInfer,
            Box::new(ASTNode::LayoutCreation(LayoutCreation {
                name: "Point".to_string(),
                specified_fields: given,
            })),
        )],
    );
    same(&tree("p.x"), &[ASTNode::LayoutFieldAccess("p".to_string(), "x".to_string())]);
    same(
        &tree("p.sum()"),
        &[call(ASTNode::LayoutFieldAccess("p".to_string(), "sum".to_string()), vec![])],
    );
}

#[test]
fn a_layout_needs_a_name_braces_and_typed_fields() {
    assert_eq!(parse("layout { x: num }").problems[0], ParseError::ExpectedLayoutName);
    assert_eq!(parse("layout P x: num }").problems[0], ParseError::ExpectedOpeningBrace);
    assert_eq!(parse("layout P { x num }").problems[0], ParseError::ExpectedFieldColon);
    assert_eq!(parse("layout P { x: 1 }").problems[0], ParseError::ExpectedFieldType);
    assert_eq!(parse("layout P { x: num y: num }").problems[0], ParseError::ExpectedClosingBrace);
    assert_eq!(parse("let p = P { x 1 }").problems[0], ParseError::ExpectedFieldValue);
}

#[test]
fn a_mix_lists_its_functions() {
    let sum = || method("sum", true, vec![num(1.0)]);
    let make = || method("make", false, vec![num(2.0)]);
    same(
        &tree("mix Point { tied fn sum() -> num { 1 } fn make() -> num { 2 } }"),
        &[ASTNode::MixStatement("Point".to_string(), vec![sum(), make()])],
    );
    same(
        &tree("layout Point { x: num = 1, y: num } mix @ { tied fn sum() -> num { 1 } }"),
        &[
            ASTNode::LayoutDeclaration(point()),
            ASTNode::MixStatement("Point".to_string(), vec![sum()]),
        ],
    );
    assert_eq!(parse("mix { }").problems[0], ParseError::ExpectedMixTarget);
    assert_eq!(parse("mix P fn f() -> { } }").problems[0], ParseError::ExpectedOpeningBrace);
    assert_eq!(parse("mix P { fn f() -> { }").problems, vec![ParseError::ExpectedClosingBrace]);
}

#[test]
fn exported_declarations_are_kept_by_the_module() {
    let parsed = parse(
        "exp fn seven() -> num { 7 }\nexp layout Point { x: num = 1, y: num }\nfn hidden() -> { }",
    );
    assert_eq!(parsed.problems, vec![]);
    assert_eq!(parsed.statements.len(), 3);
    assert!(matches!(&parsed.statements[0], ASTNode::FunctionDeclaration(name, ..) if name == "seven"));
    assert!(matches!(&parsed.statements[1], ASTNode::LayoutDeclaration(l) if l.name == "Point"));
    let module = parsed.storage.get(&"main".to_string()).expect("the module is registered");
    let functions = module.unmodulated_exported_functions();
    assert_eq!(functions.key_list(), vec!["seven".to_string()]);
    assert_eq!(
        format!("{:?}", functions.get(&"seven".to_string()).unwrap()),
        format!("{:?}", method("seven", false, vec![num(7.0)]))
    );
    let layouts = module.unmodulated_exported_layouts();
    assert_eq!(layouts.key_list(), vec!["Point".to_string()]);
    assert_eq!(format!("{:?}", layouts.get(&"Point".to_string()).unwrap()), format!("{:?}", point()));
    assert_eq!(module.ast().len(), 3);
    assert_eq!(parse("exp let x = 1").problems[0], ParseError::UnsupportedExport);
    let parsed = parse("exp layout P { x: num } mix @ { fn f() -> num { 1 } }");
    let module = parsed.storage.get(&"main".to_string()).unwrap();
    assert_eq!(module.unmodulated_exported_layouts().key_list(), vec!["P".to_string()]);
    assert_eq!(parsed.statements.len(), 2);
}

#[test]
fn typeof_takes_an_expression() {
    same(&tree("typeof x"), &[ASTNode::Typeof(Box::new(ident("x")))]);
    same(&tree("true false"), &[ASTNode::Boolean(true), ASTNode::Boolean(false)]);
    same(&tree("1;"), &[num(1.0), nothing()]);
}

#[test]
fn a_sign_that_starts_nothing_is_passed_over() {
    let parsed = parse("} 1");
    assert_eq!(parsed.problems, vec![]);
    same(&parsed.statements, &[nothing(), num(1.0)]);
    let parsed = parse("else 1");
    same(&parsed.statements, &[nothing(), num(1.0)]);
}

#[test]
fn nesting_is_followed_to_a_limit() {
    let shallow = format!("{}1", "(".repeat(DEFAULT_NESTING_LIMIT - 1));
    let parsed = parse(&shallow);
    assert_eq!(parsed.problems, vec![]);
    same(&parsed.statements, &[num(1.0)]);
    let deep = format!("{}1", "(".repeat(4 * DEFAULT_NESTING_LIMIT));
    let parsed = parse(&deep);
    assert_eq!(parsed.problems[0], ParseError::TooDeep);
    let types = format!("let x: {}num = 1", "nul ".repeat(4 * DEFAULT_NESTING_LIMIT));
    assert_eq!(parse(&types).problems[0], ParseError::TooDeep);
}

#[test]
fn the_parser_reads_token_by_token() {
    let mut runtime = Runtime::new();
    let module = Module::new("m".to_string(), &mut runtime);
    let mut parser = Parser::new("let x".to_string(), module, &Decimal).expect("tokens");
    assert_eq!(parser.file_name(), "m");
    assert!(!parser.is_end());
    assert_eq!(format!("{:?}", parser.peek().value), "Identifier(\"x\")");
    assert_eq!(format!("{:?}", parser.curr().value), "Keyword(Let)");
    assert_eq!(format!("{:?}", parser.go().value), "Keyword(Let)");
    assert_eq!(format!("{:?}", parser.go().value), "Identifier(\"x\")");
    assert!(parser.is_end());
    assert_eq!(format!("{:?}", parser.go().value), "End");
    assert_eq!(format!("{:?}", parser.go().value), "End");
    assert!(!parser.should_end);
    parser.set_end();
    assert!(parser.should_end);
}

fn natives() -> RuntimeScope {
    let mut scope = RuntimeScope::new(None);
    scope.add_native_function("host~>print".to_string(), MoSaNativeFunction { slot: 0 });
    scope
}

fn run(text: &str) -> (RuntimeValue, Vec<f64>) {
    let parsed = parse(text);
    assert_eq!(parsed.problems, vec![]);
    let mut interpreter = Interpreter::new(
        ASTNode::Program(parsed.statements),
        parsed.storage,
        parsed.runtime,
    )
    .expect("a program");
    let mut host = Printer { printed: vec![] };
    let result = interpreter.eval_program(natives(), &mut host).expect("a value");
    (result, host.printed)
}

fn number(v: &RuntimeValue) -> f64 {
    match v {
        RuntimeValue::Number(n) => f64::from_bits(n.to_bits()),
        other => panic!("not a number: {other:?}"),
    }
}

#[test]
fn a_parsed_program_runs() {
    let (result, printed) = run(
        "use native fn print # \"host~>print\"
         fn add(a: num, b: num) -> num { a + b }
         let total = add(1, 2)
         for 0..3 { print(^index + total) }
         (print(7)) ?: 2
         total * 2",
    );
    assert_eq!(number(&result), 6.0);
    assert_eq!(printed, vec![3.0, 4.0, 5.0, 7.0, 7.0]);
}

#[test]
fn a_parsed_tied_method_gets_its_receiver() {
    let (result, _) = run(
        "layout Point { x: num = 1, y: num } mix @ { tied fn sum() -> num { self.x + self.y } }
         let p = Point { y = 2 }
         p.y = 41
         p.sum()",
    );
    assert_eq!(number(&result), 42.0);
}

#[test]
fn a_parsed_closure_sees_its_scope() {
    let (result, _) = run(
        "let base = 10
         fn more(n: num) -> num { base + n }
         base = 20
         once { if more(1) == 11 { 0 } if more(1) == 21 { 1 } } else { 2 }",
    );
    assert_eq!(number(&result), 1.0);
}

#[test]
fn a_parser_over_tokens_starts_at_the_first() {
    let tokens = mosa::lexer::tokenize("m".to_string(), "x = 1".to_string(), &Decimal).expect("tokens");
    let count = tokens.len();
    let mut runtime = Runtime::new();
    let module = Module::new("m".to_string(), &mut runtime);
    let parser = Parser::over(tokens, module);
    assert_eq!(parser.tokens.len(), count);
    assert_eq!(parser.position, 0);
    assert!(!parser.should_end);
    assert!(parser.diagnostics.is_empty() && parser.imports.is_empty());
    assert_eq!(parser.depth_limit, DEFAULT_NESTING_LIMIT);
    let mut storage = ModuleStorage::new();
    let (tree, diagnostics, _) = parser.gen_ast(&mut storage);
    assert!(diagnostics.is_empty());
    match tree {
        ASTNode::Program(statements) => same(&statements, &[assign("x", num(1.0))]),
        other => panic!("not a program: {other:?}"),
    }
}
