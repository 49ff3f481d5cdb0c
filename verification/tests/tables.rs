use mosa::global::DataType;
use mosa::jni::calls::{cache_add, cache_get, cache_hash, Callable, CallableCache};
use mosa::jni::jni::{staticmodifier, Modifier};
use mosa::lexer::structs::{
    reserved_keywords, simple_operator_types, simple_sign_types, two_element_signs_conversions,
    KeywordType, OperatorType, SignType, TokenValue,
};
use mosa::number::Number;
use mosa::opts::{OptType, OptValue};

#[test]
fn every_keyword_has_its_spelling() {
    let keywords = reserved_keywords();
    assert_eq!(keywords.len(), 21);
    assert_eq!(keywords.get(&"fn".to_string()), Some(&KeywordType::Fn));
    assert_eq!(keywords.get(&"has".to_string()), Some(&KeywordType::Has));
    assert_eq!(keywords.get(&"tied".to_string()), Some(&KeywordType::Tied));
    assert_eq!(keywords.get(&"immut".to_string()), Some(&KeywordType::Immut));
    assert_eq!(keywords.get(&"layout".to_string()), Some(&KeywordType::Layout));
    assert!(keywords.get(&"Fn".to_string()).is_none());
    assert!(keywords.get(&"true".to_string()).is_none());
}

#[test]
fn operators_and_signs_of_one_character() {
    let operators = simple_operator_types();
    assert_eq!(operators.len(), 8);
    assert_eq!(operators.get(&"+".to_string()), Some(&OperatorType::Plus));
    assert_eq!(operators.get(&"=".to_string()), Some(&OperatorType::Equal));
    assert!(operators.get(&"!".to_string()).is_none());
    let signs = simple_sign_types();
    assert_eq!(signs.len(), 11);
    assert!(signs.contains(&(',', SignType::Comma)));
    assert!(signs.contains(&('~', SignType::Tilde)));
    assert!(signs.contains(&('^', SignType::Caret)));
}

#[test]
fn two_tokens_that_are_one() {
    let conversions = two_element_signs_conversions();
    assert_eq!(conversions.len(), 17);
    let find = |first: TokenValue, second: TokenValue| {
        conversions
            .iter()
            .find(|c| c.first == first && c.second == second)
            .map(|c| c.result.clone())
    };
    let op = TokenValue::Operator;
    let sign = TokenValue::Sign;
    assert!(find(op(OperatorType::Plus), op(OperatorType::Plus)) == Some(op(OperatorType::Increment)));
    assert!(find(op(OperatorType::Minus), op(OperatorType::Bigger)) == Some(sign(SignType::Arrow)));
    assert!(find(sign(SignType::Arrow), op(OperatorType::Bigger)) == Some(sign(SignType::DoubleArrow)));
    assert!(find(sign(SignType::QuestionMk), sign(SignType::Colon)) == Some(op(OperatorType::Repeat)));
    assert!(find(sign(SignType::Dot), sign(SignType::Dot)) == Some(sign(SignType::DoubleDot)));
    assert!(find(sign(SignType::Colon), sign(SignType::Colon)) == Some(sign(SignType::DoubleColon)));
    assert!(find(op(OperatorType::Plus), op(OperatorType::Minus)).is_none());
}

#[test]
fn token_values_compare_by_what_they_hold() {
    let n = |x: f64| TokenValue::Number(Number::from_bits(x.to_bits()));
    assert!(n(1.0) == n(1.0));
    assert!(n(1.0) != n(2.0));
    assert!(TokenValue::Identifier("a".to_string()) == TokenValue::Identifier("a".to_string()));
    assert!(TokenValue::Identifier("a".to_string()) != TokenValue::String("a".to_string()));
    assert!(TokenValue::End == TokenValue::End);
    assert!(TokenValue::Skip != TokenValue::End);
}

#[test]
fn modifiers_are_bits() {
    let m = Modifier { modifiers: 1 | 8 | 16 | 1024 | 32768 };
    assert!(m.is_public());
    assert!(!m.is_private());
    assert!(!m.is_protected());
    assert!(m.is_static());
    assert!(m.is_final());
    assert!(!m.is_synchronized());
    assert!(!m.is_volatile());
    assert!(!m.is_transient());
    assert!(!m.is_native());
    assert!(!m.is_interface());
    assert!(m.is_abstract());
    assert!(!m.is_strict());
    assert!(!m.is_synthetic());
    assert!(!m.is_annotation());
    assert!(!m.is_enum());
    assert!(m.is_mandated());
    assert!(m.mod_eq(1 | 2));
    assert!(!m.mod_eq(2 | 4));
    let all = Modifier { modifiers: 0xffff };
    assert!(all.is_private() && all.is_protected() && all.is_synchronized() && all.is_volatile());
    assert!(all.is_transient() && all.is_native() && all.is_interface() && all.is_strict());
    assert!(all.is_synthetic() && all.is_annotation() && all.is_enum());
    let none = Modifier { modifiers: 0 };
    assert!(!none.is_public() && !none.is_static() && !none.is_mandated());
}

#[test]
fn the_static_modifier_is_static_only() {
    let m = staticmodifier();
    assert_eq!(m.modifiers, 8);
    assert!(m.is_static());
    assert!(!m.is_public());
    assert!(!m.is_final());
}

#[test]
fn the_first_callable_of_an_id_stays() {
    let mut cache = CallableCache::new();
    let make = |method: &str| Callable {
        classpath: "a/B".to_string(),
        method: method.to_string(),
        descriptor: "()V".to_string(),
        modifiers: staticmodifier(),
    };
    assert!(cache_get(&cache, &"x".to_string()).is_none());
    cache_hash(&mut cache, "x".to_string(), make("first"));
    cache_hash(&mut cache, "x".to_string(), make("second"));
    assert_eq!(cache_get(&cache, &"x".to_string()).unwrap().method, "first");
    cache_add(&mut cache, "x".to_string(), make("third"));
    assert_eq!(cache_get(&cache, &"x".to_string()).unwrap().method, "third");
    let made = Callable::new(
        &mut cache,
        "y".to_string(),
        "a/B".to_string(),
        "run".to_string(),
        "()V".to_string(),
        staticmodifier(),
    );
    assert_eq!(made.method, "run");
    assert_eq!(cache_get(&cache, &"y".to_string()).unwrap().method, "run");
    let again = Callable::new(
        &mut cache,
        "y".to_string(),
        "a/B".to_string(),
        "walk".to_string(),
        "()V".to_string(),
        staticmodifier(),
    );
    assert_eq!(again.method, "walk");
    assert_eq!(cache_get(&cache, &"y".to_string()).unwrap().method, "run");
}

#[test]
fn option_values_compare() {
    assert_eq!(OptValue::String("a".to_string()), OptValue::String("a".to_string()));
    assert_ne!(OptValue::BOOL(true), OptValue::UNKNOWN);
    assert_ne!(OptType::STRING, OptType::BOOL);
}

#[test]
fn types_have_names() {
    let t = |name: &str, generics: Vec<DataType>| DataType::from_str(name.to_string(), generics);
    assert_eq!(t("num", vec![]).to_string(), "num");
    assert_eq!(t("str", vec![]).to_string(), "str");
    assert_eq!(t("bool", vec![]).to_string(), "bool");
    assert_eq!(t("null", vec![]).to_string(), "null");
    assert_eq!(t("iterable", vec![t("str", vec![])]).to_string(), "iterable[str]");
    assert_eq!(t("Point", vec![]).to_string(), "Point");
    let nullable = DataType::Primitive(mosa::global::PrimitiveDataType::Nullable(Box::new(t("num", vec![]))));
    assert_eq!(nullable.to_string(), "nul num");
    assert_eq!(DataType::Reference(mosa::global::ReferenceType::Function).to_string(), "ref[function]");
    assert_eq!(DataType::Reference(mosa::global::ReferenceType::Null).to_string(), "ref[null]");
    assert_eq!(
        DataType::Complex(mosa::global::ComplexDataType::Indefinite).to_string(),
        "indefinite"
    );
}
