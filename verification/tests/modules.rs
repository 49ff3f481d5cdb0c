use indexmap::IndexMap;
use mosa::collections::StrMap;
use mosa::global::{DataType, NumType, PrimitiveDataType};
use mosa::interpreter::scope::{FnArgs, Runtime, RuntimeScope};
use mosa::interpreter::structs::{
    ArithmeticOp, EvaluationError, Host, MoSaNativeFunction, RuntimeValue,
};
use mosa::interpreter::Interpreter;
use mosa::modules::{Module, ModuleExport, ModuleStorage};
use mosa::number::Number;
use mosa::parser::structs::{
    ASTNode, FieldParserDescription, LayoutCreation, LayoutDeclaration, ParserFunctionData,
};
use std::sync::Arc;

struct Counter {
    calls: usize,
}

impl Host for Counter {
    fn arithmetic(&self, _op: ArithmeticOp, left: Number, _right: Number) -> Number {
        left
    }

    fn call_native(&self, _function: MoSaNativeFunction, _args: Vec<RuntimeValue>) -> (Self, RuntimeValue) {
        (Counter { calls: self.calls + 1 }, RuntimeValue::Null)
    }
}

fn num(x: f64) -> ASTNode {
    ASTNode::Number(Number::from_bits(x.to_bits()))
}

fn num_type() -> DataType {
    DataType::Primitive(PrimitiveDataType::Num(NumType::Dynamic))
}

fn no_params() -> Arc<FnArgs> {
    let args: FnArgs = IndexMap::new();
    Arc::new(args)
}

fn call(name: &str) -> ASTNode {
    ASTNode::FunctionCall(Box::new(ASTNode::Identifier(name.to_string())), vec![])
}

fn import(path: &str, symbol: &str) -> ASTNode {
    ASTNode::UseModule(path.to_string(), symbol.to_string())
}

/// A module `lib` that prints once at its top level, exports the function
/// `seven` and the layout `Pair`, and gives 42.
fn library(runtime: &mut Runtime) -> Module {
    let mut module = Module::new("lib".to_string(), runtime);
    let mut natives = RuntimeScope::new(None);
    natives.add_native_function("host~>print".to_string(), MoSaNativeFunction { slot: 0 });
    natives.define_native_function("print".to_string(), "host~>print".to_string());
    runtime.scopes[module.scope()] = natives;
    let seven = || ParserFunctionData {
        name: "seven".to_string(),
        args: no_params(),
        body: Arc::new(vec![num(7.0)]),
        return_type: num_type(),
        tied: false,
    };
    let mut fields = StrMap::new();
    fields.insert(
        "left".to_string(),
        FieldParserDescription { type_id: "num".to_string(), default_value: Some(Arc::new(num(1.0))) },
    );
    let pair = LayoutDeclaration { name: "Pair".to_string(), fields: Arc::new(fields) };
    module.push_unmodulated_fn("seven".to_string(), seven());
    module.push_unmodulated_layout("Pair".to_string(), pair.clone());
    module.set_ast(Arc::new(vec![
        call("print"),
        ASTNode::FunctionDeclaration(
            "seven".to_string(),
            no_params(),
            Box::new(ASTNode::CodeBlock(Arc::new(vec![num(7.0)]))),
            num_type(),
        ),
        ASTNode::LayoutDeclaration(pair),
        num(42.0),
    ]));
    module
}

fn run(program: Vec<ASTNode>) -> (Result<RuntimeValue, EvaluationError>, Interpreter, Counter) {
    let mut runtime = Runtime::new();
    let mut storage = ModuleStorage::new();
    storage.push(library(&mut runtime));
    let mut interpreter = Interpreter::new(ASTNode::Program(Arc::new(program)), storage, runtime).unwrap();
    let mut host = Counter { calls: 0 };
    let result = interpreter.eval_program(RuntimeScope::new(None), &mut host);
    (result, interpreter, host)
}

fn as_f64(v: &RuntimeValue) -> f64 {
    match v {
        RuntimeValue::Number(n) => f64::from_bits(n.to_bits()),
        other => panic!("not a number: {other:?}"),
    }
}

#[test]
fn a_new_module_has_not_run() {
    let mut runtime = Runtime::new();
    let module = Module::new("m".to_string(), &mut runtime);
    assert_eq!(module.name(), "m");
    assert_eq!(module.scope(), 0);
    assert!(!module.has_cache());
    assert!(module.cached_result().is_none());
    assert_eq!(module.ast().len(), 0);
    assert_eq!(module.exports().len(), 0);
    assert_eq!(module.unmodulated_exported_functions().len(), 0);
    assert_eq!(module.unmodulated_exported_layouts().len(), 0);
    assert_eq!(runtime.scopes.len(), 1);
    assert!(runtime.scopes[0].parent.is_none());
}

#[test]
fn a_module_keeps_its_result_and_its_exports() {
    let mut runtime = Runtime::new();
    let mut module = Module::new("m".to_string(), &mut runtime);
    module.cache(RuntimeValue::Bool(true));
    assert!(module.has_cache());
    assert!(matches!(module.cached_result(), Some(RuntimeValue::Bool(true))));
    module.push("lay".to_string(), ModuleExport::Layout(3));
    assert!(matches!(module.exports().get(&"lay".to_string()), Some(ModuleExport::Layout(3))));
}

#[test]
fn the_first_module_of_a_name_stays() {
    let mut runtime = Runtime::new();
    let mut storage = ModuleStorage::new();
    assert!(storage.get(&"m".to_string()).is_none());
    let mut first = Module::new("m".to_string(), &mut runtime);
    first.cache(RuntimeValue::Bool(true));
    let second = Module::new("m".to_string(), &mut runtime);
    let other = Module::new("n".to_string(), &mut runtime);
    storage.push(first);
    storage.push(second);
    storage.push(other);
    assert_eq!(storage.modules.len(), 2);
    let kept = storage.get(&"m".to_string()).expect("registered");
    assert!(kept.has_cache());
    assert_eq!(kept.scope(), 0);
    assert_eq!(storage.get(&"n".to_string()).expect("registered").scope(), 2);
    assert_eq!(storage.find(&"n".to_string()), Some(1));
    assert_eq!(storage.find(&"o".to_string()), None);
}

#[test]
fn an_import_gives_the_value_of_the_module() {
    let (result, _, host) = run(vec![import("lib", "seven")]);
    assert_eq!(as_f64(&result.unwrap()), 42.0);
    assert_eq!(host.calls, 1);
}

#[test]
fn a_module_is_evaluated_once() {
    let (result, interpreter, host) =
        run(vec![import("lib", "seven"), import("lib", "seven"), import("lib", "Pair")]);
    assert_eq!(as_f64(&result.unwrap()), 42.0);
    assert_eq!(host.calls, 1);
    let module = interpreter.module_storage.get(&"lib".to_string()).unwrap();
    assert!(module.has_cache());
    assert_eq!(as_f64(&module.cached_result().unwrap()), 42.0);
}

#[test]
fn an_imported_function_is_called_like_any_other() {
    let (result, _, _) = run(vec![import("lib", "seven"), call("seven")]);
    assert_eq!(as_f64(&result.unwrap()), 7.0);
}

#[test]
fn an_imported_function_sees_the_scope_of_its_module() {
    let (result, interpreter, _) = run(vec![import("lib", "seven"), ASTNode::Identifier("seven".to_string())]);
    match result.unwrap() {
        RuntimeValue::Reference(mosa::interpreter::structs::Reference::Function(f)) => {
            let module = interpreter.module_storage.get(&"lib".to_string()).unwrap();
            assert_eq!(f.scope, module.scope());
        }
        other => panic!("not a function: {other:?}"),
    }
}

#[test]
fn an_imported_layout_can_be_instantiated() {
    let make = ASTNode::LayoutCreation(LayoutCreation {
        name: "Pair".to_string(),
        specified_fields: StrMap::new(),
    });
    let (result, _, _) = run(vec![
        import("lib", "Pair"),
        ASTNode::VariableDeclaration(false, "p".to_string(), DataType::InternalInfer, Box::new(make)),
        ASTNode::LayoutFieldAccess("p".to_string(), "left".to_string()),
    ]);
    assert_eq!(as_f64(&result.unwrap()), 1.0);
}

#[test]
fn a_module_and_a_symbol_must_be_there() {
    let (result, _, host) = run(vec![import("nowhere", "seven")]);
    assert_eq!(result.unwrap_err(), EvaluationError::UndeclaredModule);
    assert_eq!(host.calls, 0);
    let (result, _, host) = run(vec![import("lib", "eight")]);
    assert_eq!(result.unwrap_err(), EvaluationError::UnknownExport);
    assert_eq!(host.calls, 1);
}

#[test]
fn a_module_does_not_see_its_importer() {
    let mut runtime = Runtime::new();
    let mut storage = ModuleStorage::new();
    let mut module = Module::new("peek".to_string(), &mut runtime);
    module.set_ast(Arc::new(vec![ASTNode::Identifier("secret".to_string())]));
    storage.push(module);
    let program = vec![
        ASTNode::VariableDeclaration(false, "secret".to_string(), DataType::InternalInfer, Box::new(num(1.0))),
        import("peek", "anything"),
    ];
    let mut interpreter = Interpreter::new(ASTNode::Program(Arc::new(program)), storage, runtime).unwrap();
    let mut host = Counter { calls: 0 };
    assert_eq!(
        interpreter.eval_program(RuntimeScope::new(None), &mut host).unwrap_err(),
        EvaluationError::UndeclaredFunction
    );
}
