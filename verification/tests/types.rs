use mosa::global::{ComplexDataType, DataType, NumType, PrimitiveDataType};

fn num() -> DataType {
    DataType::Primitive(PrimitiveDataType::Num(NumType::Dynamic))
}

fn null() -> DataType {
    DataType::Primitive(PrimitiveDataType::Null)
}

fn nullable(t: DataType) -> DataType {
    DataType::Primitive(PrimitiveDataType::Nullable(Box::new(t)))
}

#[test]
fn nullable_takes_null_and_its_inner_type() {
    assert!(nullable(num()).matches(&null()));
    assert!(nullable(num()).matches(&num()));
    assert!(!nullable(num()).matches(&DataType::Primitive(PrimitiveDataType::Str)));
}

#[test]
fn matching_is_one_directional() {
    assert!(num().matches(&num()));
    assert!(!num().matches(&nullable(num())));
    assert!(!nullable(num()).matches(&nullable(num())));
}

#[test]
fn from_str_names_the_built_in_types() {
    assert!(DataType::from_str("num".to_string(), vec![]) == num());
    assert!(DataType::from_str("null".to_string(), vec![]) == null());
    assert!(
        DataType::from_str("iterable".to_string(), vec![num()])
            == DataType::Primitive(PrimitiveDataType::Iterable(Box::new(num())))
    );
    assert!(
        DataType::from_str("Point".to_string(), vec![])
            == DataType::Complex(ComplexDataType::LayoutOrEnum("Point".to_string()))
    );
}
