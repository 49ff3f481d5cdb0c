use indexmap::IndexMap;
use mosa::collections::StrMap;
use mosa::global::{ComplexDataType, DataType, NumType, PrimitiveDataType};
use mosa::interpreter::scope::{FnArgs, Runtime, RuntimeScope};
use mosa::interpreter::structs::{EvaluationError, MoSaNativeFunction, RuntimeValue};
use mosa::modules::ModuleExport;
use mosa::number::Number;
use mosa::parser::structs::{ASTNode, FieldParserDescription, LayoutDeclaration, ParserFunctionData};
use std::sync::Arc;

fn num(x: f64) -> RuntimeValue {
    RuntimeValue::Number(Number::from_bits(x.to_bits()))
}

fn as_f64(v: &RuntimeValue) -> f64 {
    match v {
        RuntimeValue::Number(n) => f64::from_bits(n.to_bits()),
        other => panic!("not a number: {other:?}"),
    }
}

fn num_type() -> DataType {
    DataType::Primitive(PrimitiveDataType::Num(NumType::Dynamic))
}

fn s(text: &str) -> String {
    text.to_string()
}

/// A runtime with a root scope 0, a child 1 of it and a child 2 of 1.
fn nested() -> Runtime {
    let mut rt = Runtime::new();
    assert_eq!(RuntimeScope::arc_rwlock_new(&mut rt, None), Ok(0));
    assert_eq!(RuntimeScope::arc_rwlock_new(&mut rt, Some(0)), Ok(1));
    assert_eq!(RuntimeScope::arc_rwlock_new(&mut rt, Some(1)), Ok(2));
    rt
}

#[test]
fn a_scope_needs_a_parent_that_is_there() {
    let mut rt = Runtime::new();
    assert_eq!(RuntimeScope::arc_rwlock_new(&mut rt, Some(0)), Err(EvaluationError::UnknownScope));
    assert_eq!(rt.scopes.len(), 0);
}

#[test]
fn a_variable_is_read_from_the_nearest_scope_that_declares_it() {
    let mut rt = nested();
    rt.scopes[0].declare_variable(s("x"), DataType::InternalInfer, num(1.0), false).unwrap();
    rt.scopes[1].declare_variable(s("x"), DataType::InternalInfer, num(2.0), false).unwrap();
    assert_eq!(as_f64(&RuntimeScope::read_variable(&rt, 2, &s("x")).unwrap()), 2.0);
    assert_eq!(as_f64(&RuntimeScope::read_variable(&rt, 1, &s("x")).unwrap()), 2.0);
    assert_eq!(as_f64(&RuntimeScope::read_variable(&rt, 0, &s("x")).unwrap()), 1.0);
    assert!(RuntimeScope::read_variable(&rt, 2, &s("y")).is_none());
    assert!(RuntimeScope::read_variable(&rt, 7, &s("x")).is_none());
}

#[test]
fn declaring_checks_the_type_and_keeps_the_declared_one() {
    let mut scope = RuntimeScope::new(None);
    assert_eq!(
        scope.declare_variable(s("x"), num_type(), RuntimeValue::Bool(true), false),
        Err(EvaluationError::TypeMismatch)
    );
    assert!(scope.variables.get(&s("x")).is_none());
    let nullable = DataType::Primitive(PrimitiveDataType::Nullable(Box::new(num_type())));
    scope.declare_variable(s("x"), nullable.clone(), RuntimeValue::Null, true).unwrap();
    let slot = scope.variables.get(&s("x")).unwrap();
    assert!(slot.type_id == nullable);
    assert!(slot.immut);
    scope.declare_variable(s("y"), DataType::InternalInfer, num(1.0), false).unwrap();
    assert!(scope.variables.get(&s("y")).unwrap().type_id == num_type());
}

#[test]
fn assigning_goes_to_the_scope_that_owns_the_variable() {
    let mut rt = nested();
    rt.scopes[0].declare_variable(s("x"), DataType::InternalInfer, num(1.0), false).unwrap();
    RuntimeScope::assign_variable(&mut rt, 2, s("x"), num(5.0)).unwrap();
    assert_eq!(as_f64(&RuntimeScope::read_variable(&rt, 0, &s("x")).unwrap()), 5.0);
    assert!(rt.scopes[2].variables.get(&s("x")).is_none());
    assert_eq!(
        RuntimeScope::assign_variable(&mut rt, 2, s("x"), RuntimeValue::Bool(true)),
        Err(EvaluationError::TypeMismatch)
    );
    assert_eq!(
        RuntimeScope::assign_variable(&mut rt, 2, s("y"), num(1.0)),
        Err(EvaluationError::UndeclaredVariable)
    );
    rt.scopes[1].declare_variable(s("c"), DataType::InternalInfer, num(1.0), true).unwrap();
    assert_eq!(
        RuntimeScope::assign_variable(&mut rt, 2, s("c"), num(2.0)),
        Err(EvaluationError::ImmutableAssignment)
    );
    assert_eq!(as_f64(&RuntimeScope::read_variable(&rt, 2, &s("c")).unwrap()), 1.0);
}

#[test]
fn bindings_are_found_along_the_chain() {
    let mut rt = nested();
    rt.scopes[1].assign_binding(s("index"), num(3.0));
    assert_eq!(as_f64(&RuntimeScope::get_binding(&rt, 2, &s("index")).unwrap()), 3.0);
    assert!(RuntimeScope::get_binding(&rt, 0, &s("index")).is_none());
    rt.scopes[1].assign_binding(s("index"), num(4.0));
    assert_eq!(as_f64(&RuntimeScope::get_binding(&rt, 1, &s("index")).unwrap()), 4.0);
}

fn no_params() -> Arc<FnArgs> {
    let args: FnArgs = IndexMap::new();
    Arc::new(args)
}

#[test]
fn a_declared_function_keeps_its_scope_and_the_names_it_could_see() {
    let mut rt = nested();
    rt.scopes[1].declare_variable(s("a"), DataType::InternalInfer, num(1.0), false).unwrap();
    rt.scopes[1].declare_variable(s("b"), DataType::InternalInfer, num(1.0), false).unwrap();
    let body = Arc::new(vec![ASTNode::Boolean(true)]);
    RuntimeScope::declare_function(&mut rt, 1, s("f"), no_params(), body, num_type()).unwrap();
    let f = RuntimeScope::get_function(&rt, 2, &s("f")).expect("seen from within");
    assert_eq!(f.name, "f");
    assert_eq!(f.scope, 1);
    assert!(!f.tied);
    assert_eq!(*f.accesses, vec![s("a"), s("b")]);
    assert!(f.return_type == num_type());
    assert!(RuntimeScope::get_function(&rt, 0, &s("f")).is_none());
    assert_eq!(
        RuntimeScope::declare_function(&mut rt, 9, s("g"), no_params(), Arc::new(vec![]), num_type()),
        Err(EvaluationError::UnknownScope)
    );
}

#[test]
fn an_imported_function_is_found_at_the_root_only() {
    let mut rt = nested();
    let body = Arc::new(vec![]);
    RuntimeScope::declare_function(&mut rt, 2, s("f"), no_params(), body, num_type()).unwrap();
    let f = RuntimeScope::get_function(&rt, 2, &s("f")).unwrap();
    rt.scopes[0].import(s("lib_f"), ModuleExport::Function(f.clone()));
    rt.scopes[1].import(s("inner_f"), ModuleExport::Function(f));
    rt.scopes[0].import(s("lay"), ModuleExport::Layout(4));
    assert!(RuntimeScope::get_function(&rt, 2, &s("lib_f")).is_some());
    assert!(RuntimeScope::get_function(&rt, 2, &s("inner_f")).is_none());
    assert!(RuntimeScope::get_function(&rt, 2, &s("lay")).is_none());
    assert_eq!(RuntimeScope::get_layout_declaration(&rt, 2, &s("lay")), Some(4));
    assert!(matches!(rt.scopes[0].get_import(&s("lay")), Some(ModuleExport::Layout(4))));
    assert!(rt.scopes[0].get_import(&s("none")).is_none());
}

#[test]
fn a_native_function_is_found_through_its_name_and_its_path() {
    let mut rt = nested();
    rt.scopes[0].add_native_function(s("host~>print"), MoSaNativeFunction { slot: 3 });
    assert!(RuntimeScope::get_native_function_from_ident(&rt, 2, &s("print")).is_none());
    rt.scopes[1].define_native_function(s("print"), s("host~>print"));
    assert_eq!(RuntimeScope::get_defined_name(&rt, 2, &s("print")), Some(s("host~>print")));
    assert!(RuntimeScope::get_defined_name(&rt, 0, &s("print")).is_none());
    assert_eq!(
        RuntimeScope::get_native_function_from_ident(&rt, 2, &s("print")),
        Some(MoSaNativeFunction { slot: 3 })
    );
    assert!(RuntimeScope::get_native_function_from_ident(&rt, 0, &s("print")).is_none());
    rt.scopes[2].define_native_function(s("log"), s("host~>log"));
    assert!(RuntimeScope::get_native_function_from_ident(&rt, 2, &s("log")).is_none());
    assert_eq!(rt.scopes[0].get_native_functions().len(), 1);
    let mut natives = StrMap::new();
    natives.insert(s("host~>log"), MoSaNativeFunction { slot: 9 });
    rt.scopes[0].preplace_native_functions(natives);
    assert_eq!(
        RuntimeScope::get_native_function_from_ident(&rt, 2, &s("log")),
        Some(MoSaNativeFunction { slot: 9 })
    );
    assert!(RuntimeScope::get_native_function_from_ident(&rt, 2, &s("print")).is_none());
}

#[test]
fn enums_are_found_along_the_chain() {
    let mut rt = nested();
    rt.scopes[0].declare_enum(s("Color"), vec![s("Red"), s("Green")]);
    let found = RuntimeScope::get_enum_data(&rt, 2, &s("Color")).unwrap();
    assert_eq!(found.name, "Color");
    assert_eq!(found.entries, vec![s("Red"), s("Green")]);
    assert!(RuntimeScope::get_enum_data(&rt, 2, &s("Shade")).is_none());
}

fn point() -> LayoutDeclaration {
    let mut fields = StrMap::new();
    fields.insert(s("x"), FieldParserDescription { type_id: s("num"), default_value: None });
    LayoutDeclaration { name: s("Point"), fields: Arc::new(fields) }
}

fn method(name: &str, tied: bool, params: &[&str]) -> ParserFunctionData {
    let mut args: FnArgs = IndexMap::new();
    for p in params {
        args.insert(p.to_string(), num_type());
    }
    ParserFunctionData {
        name: s(name),
        args: Arc::new(args),
        body: Arc::new(vec![]),
        return_type: num_type(),
        tied,
    }
}

#[test]
fn mixing_prepends_the_receiver_of_a_tied_method() {
    let mut rt = nested();
    RuntimeScope::declare_layout(&mut rt, 1, point()).unwrap();
    let id = RuntimeScope::get_layout_declaration(&rt, 2, &s("Point")).unwrap();
    assert!(rt.declarations[id].mixed.len() == 0);
    let mix = vec![method("len", true, &["a", "b"]), method("zero", false, &["a"])];
    RuntimeScope::mix_into_layout(&mut rt, 1, s("Point"), &mix).unwrap();
    let mixed = &rt.declarations[id].mixed;
    let len = mixed.get(&s("len")).unwrap();
    let names: Vec<&String> = len.args.keys().collect();
    assert_eq!(names, vec!["self", "a", "b"]);
    assert!(len.args["self"] == DataType::Complex(ComplexDataType::LayoutOrEnum(s("Point"))));
    assert!(len.tied);
    assert_eq!(len.scope, 1);
    let zero = mixed.get(&s("zero")).unwrap();
    let names: Vec<&String> = zero.args.keys().collect();
    assert_eq!(names, vec!["a"]);
    assert!(!zero.tied);
}

#[test]
fn a_tied_method_with_a_parameter_named_self_keeps_one_receiver() {
    let mut rt = nested();
    RuntimeScope::declare_layout(&mut rt, 0, point()).unwrap();
    RuntimeScope::mix_into_layout(&mut rt, 0, s("Point"), &vec![method("m", true, &["a", "self"])])
        .unwrap();
    let m = rt.declarations[0].mixed.get(&s("m")).unwrap();
    let names: Vec<&String> = m.args.keys().collect();
    assert_eq!(names, vec!["self", "a"]);
    assert!(m.args["self"] == num_type());
}

#[test]
fn mixing_looks_in_the_very_scope_only_and_the_last_method_wins() {
    let mut rt = nested();
    RuntimeScope::declare_layout(&mut rt, 0, point()).unwrap();
    assert_eq!(
        RuntimeScope::mix_into_layout(&mut rt, 1, s("Point"), &vec![method("m", false, &[])]),
        Err(EvaluationError::UndeclaredLayout)
    );
    assert_eq!(
        RuntimeScope::mix_into_layout(&mut rt, 0, s("Other"), &vec![method("m", false, &[])]),
        Err(EvaluationError::UndeclaredLayout)
    );
    let mix = vec![method("m", false, &["a"]), method("m", false, &["a", "b"])];
    RuntimeScope::mix_into_layout(&mut rt, 0, s("Point"), &mix).unwrap();
    RuntimeScope::mix_into_layout(&mut rt, 0, s("Point"), &vec![method("n", false, &[])]).unwrap();
    let mixed = &rt.declarations[0].mixed;
    assert_eq!(mixed.len(), 2);
    assert_eq!(mixed.get(&s("m")).unwrap().args.len(), 2);
}

#[test]
fn instances_are_shared_by_handle() {
    let mut rt = Runtime::new();
    let mut fields = StrMap::new();
    fields.insert(s("x"), num(1.0));
    let a = rt.new_instance(fields);
    let b = rt.new_instance(StrMap::new());
    assert_eq!((a, b), (0, 1));
    assert_eq!(as_f64(&rt.read_field(a, &s("x")).unwrap()), 1.0);
    rt.write_field(a, s("x"), num(2.0)).unwrap();
    assert_eq!(as_f64(&rt.read_field(a, &s("x")).unwrap()), 2.0);
    assert_eq!(rt.write_field(a, s("y"), num(2.0)), Err(EvaluationError::UnknownField));
    assert_eq!(rt.write_field(b, s("x"), num(2.0)), Err(EvaluationError::UnknownField));
    assert_eq!(rt.write_field(5, s("x"), num(2.0)), Err(EvaluationError::UnknownField));
    assert!(rt.read_field(b, &s("x")).is_none());
    assert!(rt.read_field(5, &s("x")).is_none());
}

#[test]
fn a_str_map_keeps_the_order_of_first_insertion() {
    let mut map: StrMap<u8> = StrMap::new();
    map.insert(s("b"), 1);
    map.insert(s("a"), 2);
    map.insert(s("b"), 3);
    assert_eq!(map.len(), 2);
    assert_eq!(map.key_list(), vec![s("b"), s("a")]);
    assert_eq!(map.get(&s("b")), Some(&3));
    assert_eq!(map.key_at(1), "a");
    assert_eq!(*map.value_at(0), 3);
    assert!(map.contains_key(&s("a")));
    assert!(!map.contains_key(&s("c")));
    assert!(map.get(&s("c")).is_none());
}
