use mosa::global::{ComplexDataType, DataType, NumType, PrimitiveDataType, ReferenceType};
use mosa::interpreter::scope::RuntimeScope;
use mosa::interpreter::structs::{
    repeat_string, ArithmeticOp, ComplexRuntimeValue, EnumData, Host, IterablePair, LayoutData,
    MoSaNativeFunction, RuntimeValue,
};
use mosa::number::Number;
use std::sync::Arc;

struct Fpu;

impl Host for Fpu {
    fn arithmetic(&self, op: ArithmeticOp, left: Number, right: Number) -> Number {
        let (l, r) = (f64::from_bits(left.to_bits()), f64::from_bits(right.to_bits()));
        let x = match op {
            ArithmeticOp::Add => l + r,
            ArithmeticOp::Sub => l - r,
            ArithmeticOp::Mul => l * r,
            ArithmeticOp::Div => l / r,
        };
        Number::from_bits(x.to_bits())
    }

    fn call_native(&self, _function: MoSaNativeFunction, _args: Vec<RuntimeValue>) -> (Self, RuntimeValue) {
        (Fpu, RuntimeValue::Null)
    }
}

fn num(x: f64) -> RuntimeValue {
    RuntimeValue::Number(Number::from_bits(x.to_bits()))
}

fn text(s: &str) -> RuntimeValue {
    RuntimeValue::String(s.to_string())
}

fn as_f64(v: &RuntimeValue) -> f64 {
    match v {
        RuntimeValue::Number(n) => f64::from_bits(n.to_bits()),
        other => panic!("not a number: {other:?}"),
    }
}

fn as_text(v: &RuntimeValue) -> String {
    match v {
        RuntimeValue::String(s) => s.clone(),
        other => panic!("not a string: {other:?}"),
    }
}

#[test]
fn numbers_are_computed_by_the_host() {
    assert_eq!(as_f64(&num(1.5).add(num(2.25), &Fpu)), 3.75);
    assert_eq!(as_f64(&num(1.5).sub(num(2.25), &Fpu)), -0.75);
    assert_eq!(as_f64(&num(1.5).mul(num(2.0), &Fpu)), 3.0);
    assert_eq!(as_f64(&num(1.0).div(num(4.0), &Fpu)), 0.25);
    assert_eq!(as_f64(&num(1.0).div(num(0.0), &Fpu)), f64::INFINITY);
}

#[test]
fn the_given_number_is_the_result_on_two_numbers() {
    let seven = Number::from_bits(7.0f64.to_bits());
    assert_eq!(as_f64(&num(1.0).add_with(num(2.0), seven)), 7.0);
    assert_eq!(as_f64(&num(1.0).mul_with(num(2.0), seven)), 7.0);
    assert_eq!(as_f64(&num(1.0).numeric_with(num(2.0), seven)), 7.0);
    assert!(matches!(text("a").numeric_with(num(2.0), seven), RuntimeValue::Null));
}

#[test]
fn strings_are_joined_and_repeated() {
    assert_eq!(as_text(&text("ab").add(text("cd"), &Fpu)), "abcd");
    assert_eq!(as_text(&text("ab").mul(num(3.7), &Fpu)), "ababab");
    assert_eq!(as_text(&num(2.0).mul(text("xy"), &Fpu)), "xyxy");
    assert_eq!(as_text(&text("ab").mul(num(-1.0), &Fpu)), "");
    assert_eq!(as_text(&text("ab").mul(num(f64::NAN), &Fpu)), "");
    assert_eq!(as_text(&text("").mul(num(1e300), &Fpu)), "");
    assert_eq!(repeat_string(&"é".to_string(), 2), "éé");
}

#[test]
fn arithmetic_on_other_kinds_gives_null() {
    assert!(matches!(RuntimeValue::Bool(true).add(num(1.0), &Fpu), RuntimeValue::Null));
    assert!(matches!(num(1.0).add(RuntimeValue::Bool(true), &Fpu), RuntimeValue::Null));
    assert!(matches!(num(1.0).add(text("a"), &Fpu), RuntimeValue::Null));
    assert!(matches!(text("a").sub(text("a"), &Fpu), RuntimeValue::Null));
    assert!(matches!(text("a").mul(text("a"), &Fpu), RuntimeValue::Null));
    assert!(matches!(text("a").div(num(2.0), &Fpu), RuntimeValue::Null));
    assert!(matches!(RuntimeValue::Null.mul(RuntimeValue::Null, &Fpu), RuntimeValue::Null));
}

#[test]
fn comparison_orders_numbers_only() {
    assert!(matches!(num(2.0).bigger(&num(1.0), false), RuntimeValue::Bool(true)));
    assert!(matches!(num(1.0).bigger(&num(1.0), false), RuntimeValue::Bool(false)));
    assert!(matches!(num(1.0).bigger(&num(1.0), true), RuntimeValue::Bool(true)));
    assert!(matches!(num(1.0).smaller(&num(2.0), false), RuntimeValue::Bool(true)));
    assert!(matches!(num(2.0).smaller(&num(2.0), true), RuntimeValue::Bool(true)));
    assert!(matches!(num(3.0).smaller(&num(2.0), true), RuntimeValue::Bool(false)));
    assert!(matches!(num(f64::NAN).smaller(&num(2.0), true), RuntimeValue::Bool(false)));
    assert!(matches!(text("a").bigger(&num(1.0), false), RuntimeValue::Null));
    assert!(matches!(num(1.0).smaller(&RuntimeValue::Null, true), RuntimeValue::Null));
}

#[test]
fn equality_holds_within_one_kind_only() {
    assert!(num(1.0) == num(1.0));
    assert!(num(0.0) == num(-0.0));
    assert!(num(f64::NAN) != num(f64::NAN));
    assert!(text("a") == text("a"));
    assert!(text("a") != text("b"));
    assert!(RuntimeValue::Bool(true) == RuntimeValue::Bool(true));
    assert!(RuntimeValue::Bool(true) != num(1.0));
    assert!(text("1") != num(1.0));
    let entry = |e: &str, n: &str| {
        RuntimeValue::Complex(ComplexRuntimeValue::Enum(EnumData {
            enum_id: e.to_string(),
            entry: n.to_string(),
        }))
    };
    assert!(entry("Color", "Red") == entry("Color", "Red"));
    assert!(entry("Color", "Red") != entry("Color", "Blue"));
    assert!(entry("Color", "Red") != entry("Shade", "Red"));
}

#[test]
fn null_iterables_and_layouts_equal_nothing() {
    assert!(RuntimeValue::Null != RuntimeValue::Null);
    let pairs = || RuntimeValue::Iterable(Arc::new(Vec::<IterablePair>::new()));
    assert!(pairs() != pairs());
    let instance = || {
        RuntimeValue::Complex(ComplexRuntimeValue::Layout(LayoutData {
            layout_id: "P".to_string(),
            entries: 0,
        }))
    };
    assert!(instance() != instance());
}

#[test]
fn casts_give_the_payload_of_their_kind() {
    assert_eq!(num(2.5).cast_number().map(|n| n.to_bits()), Some(2.5f64.to_bits()));
    assert!(text("a").cast_number().is_none());
    assert_eq!(text("a").cast_string(), Some(&"a".to_string()));
    assert!(num(1.0).cast_string().is_none());
    assert_eq!(RuntimeValue::Bool(true).cast_bool(), Some(&true));
    assert!(RuntimeValue::Null.cast_bool().is_none());
    let pairs = RuntimeValue::Iterable(Arc::new(vec![IterablePair { index: 0, value: num(1.0) }]));
    assert_eq!(pairs.cast_iterable().map(|p| p.len()), Some(1));
    assert!(RuntimeValue::Null.cast_iterable().is_none());
}

#[test]
fn every_value_has_a_type() {
    let t = |v: RuntimeValue| RuntimeScope::get_value_type(&v);
    let number = DataType::Primitive(PrimitiveDataType::Num(NumType::Dynamic));
    assert!(t(num(1.0)) == number);
    assert!(t(RuntimeValue::Null) == DataType::Primitive(PrimitiveDataType::Null));
    assert!(t(text("a")) == DataType::Primitive(PrimitiveDataType::Str));
    assert!(t(RuntimeValue::Bool(false)) == DataType::Primitive(PrimitiveDataType::Bool));
    assert!(
        t(RuntimeValue::Iterable(Arc::new(vec![])))
            == DataType::Primitive(PrimitiveDataType::Iterable(Box::new(number)))
    );
    assert!(
        t(RuntimeValue::Complex(ComplexRuntimeValue::Enum(EnumData {
            enum_id: "Color".to_string(),
            entry: "Red".to_string(),
        }))) == DataType::Complex(ComplexDataType::LayoutOrEnum("Color".to_string()))
    );
    assert!(
        t(RuntimeValue::Complex(ComplexRuntimeValue::Layout(LayoutData {
            layout_id: "Point".to_string(),
            entries: 3,
        }))) == DataType::Complex(ComplexDataType::LayoutOrEnum("Point".to_string()))
    );
    let _ = ReferenceType::Function;
}
