use mosa::interpreter::environment::{Environment, EnvironmentMap};
use mosa::interpreter::structs::RuntimeValue;
use mosa::number::Number;

fn n(x: f64) -> RuntimeValue {
    RuntimeValue::Number(Number::from_bits(x.to_bits()))
}

fn f(v: &RuntimeValue) -> f64 {
    match v {
        RuntimeValue::Number(n) => f64::from_bits(n.to_bits()),
        other => panic!("not a number: {other:?}"),
    }
}

fn name(s: &str) -> String {
    s.to_string()
}

#[test]
fn a_new_environment_holds_nothing() {
    let env = Environment::new(7);
    assert_eq!(env.id, 7);
    assert_eq!(env.parent_id, None);
    assert_eq!(env.variables.len(), 0);
    assert_eq!(env.functions.len(), 0);
}

#[test]
fn new_environments_get_identifiers_of_their_own() {
    let mut map = EnvironmentMap::new();
    let root = map.new_environment(None);
    let child = map.new_environment(Some(root));
    let other = map.new_environment(Some(root));
    assert!(root != child && child != other && root != other);
    assert!(map.has_environment(root) && map.has_environment(child) && map.has_environment(other));
    assert_eq!(map.get_environment_box(root).id, root);
    assert_eq!(map.get_environment_box(root).parent_id, None);
    assert_eq!(map.get_environment_box(child).id, child);
    assert_eq!(map.get_environment_box(child).parent_id, Some(root));
    assert_eq!(map.get_environment_box(child).variables.len(), 0);
}

#[test]
fn a_variable_is_found_along_the_parents() {
    let mut map = EnvironmentMap::new();
    map.add_environment(1, None);
    map.add_environment(2, Some(1));
    map.add_environment(3, Some(2));
    map.add_environment(4, Some(1));
    Environment::declare_variable(1, name("a"), &mut map, n(1.0), true);
    Environment::declare_variable(2, name("b"), &mut map, n(2.0), false);
    Environment::declare_variable(3, name("a"), &mut map, n(3.0), false);
    assert_eq!(Environment::resolve_variable_environment(3, &name("a"), &map), Some(3));
    assert_eq!(Environment::resolve_variable_environment(3, &name("b"), &map), Some(2));
    assert_eq!(Environment::resolve_variable_environment(2, &name("a"), &map), Some(1));
    assert_eq!(Environment::resolve_variable_environment(4, &name("b"), &map), None);
    assert_eq!(Environment::resolve_variable_environment(1, &name("zz"), &map), None);
    let (constant, value) = Environment::resolve_variable(2, &name("a"), &map);
    assert!(constant);
    assert_eq!(f(&value), 1.0);
    let (constant, value) = Environment::resolve_variable(3, &name("a"), &map);
    assert!(!constant);
    assert_eq!(f(&value), 3.0);
}

#[test]
fn an_assignment_changes_the_environment_that_holds_the_variable() {
    let mut map = EnvironmentMap::new();
    map.add_environment(1, None);
    map.add_environment(2, Some(1));
    Environment::declare_variable(1, name("a"), &mut map, n(1.0), false);
    Environment::assign_variable(2, name("a"), &mut map, n(5.0));
    assert_eq!(map.get_environment_box(2).variables.len(), 0);
    assert_eq!(f(&Environment::resolve_variable(2, &name("a"), &map).1), 5.0);
    assert_eq!(f(&map.get_environment_box(1).variables.get(&name("a")).unwrap().1), 5.0);
    Environment::assign_variable(2, name("unknown"), &mut map, n(9.0));
    assert_eq!(Environment::resolve_variable_environment(2, &name("unknown"), &map), None);
    assert_eq!(map.get_environment_box(1).variables.len(), 1);
}

#[test]
fn a_declaration_in_no_environment_changes_nothing() {
    let mut map = EnvironmentMap::new();
    map.add_environment(1, None);
    Environment::declare_variable(9, name("a"), &mut map, n(1.0), false);
    assert!(!map.has_environment(9));
    assert_eq!(map.get_environment_box(1).variables.len(), 0);
}

#[test]
fn an_environment_under_a_used_identifier_takes_the_place() {
    let mut map = EnvironmentMap::new();
    map.add_environment(1, None);
    map.add_environment(2, Some(1));
    Environment::declare_variable(1, name("a"), &mut map, n(1.0), false);
    map.add_environment(1, Some(2));
    assert_eq!(map.get_environment_box(1).variables.len(), 0);
    assert_eq!(map.get_environment_box(1).parent_id, Some(2));
    assert_eq!(Environment::resolve_variable_environment(2, &name("a"), &map), None);
}
