//! The structural types of the language.

use vstd::prelude::*;
use vstd::string::StringExecFns;

verus! {

/// The width that a number type names. Every runtime number is `Dynamic`.
#[derive(Clone, Copy, Debug, PartialEq, Eq, Structural)]
pub enum NumType {
    Dynamic,
    I8,
    I16,
    I32,
    I64,
    F32,
    F64,
    U8,
    U16,
    U32,
    U64,
}

#[derive(Clone, Copy, Debug, PartialEq, Eq, Structural)]
pub enum ReferenceType {
    Function,
    Null,
}

#[derive(Debug)]
pub enum PrimitiveDataType {
    Num(NumType),
    Iterable(Box<DataType>),
    Str,
    Bool,
    Nullable(Box<DataType>),
    Null,
}

#[derive(Debug)]
pub enum ComplexDataType {
    LayoutOrEnum(String),
    Indefinite,
}

/// A type as the program text names it, or as a value has it.
#[derive(Debug)]
pub enum DataType {
    Primitive(PrimitiveDataType),
    Complex(ComplexDataType),
    Reference(ReferenceType),
    /// Stands in a declaration for "the type of the initializer". No value
    /// has this type.
    InternalInfer,
}

/// What a `DataType` denotes: the same tree, with each name as its
/// characters.
pub enum TypeView {
    Num(NumType),
    Iterable(Box<TypeView>),
    Str,
    Bool,
    Nullable(Box<TypeView>),
    Null,
    LayoutOrEnum(Seq<char>),
    Indefinite,
    Function,
    NullReference,
    Infer,
}

impl DataType {
    /// The type that this value denotes.
    pub open spec fn model(self) -> TypeView
        decreases self,
    {
        match self {
            DataType::Primitive(PrimitiveDataType::Num(n)) => TypeView::Num(n),
            DataType::Primitive(PrimitiveDataType::Iterable(t)) => TypeView::Iterable(
                Box::new((*t).model()),
            ),
            DataType::Primitive(PrimitiveDataType::Str) => TypeView::Str,
            DataType::Primitive(PrimitiveDataType::Bool) => TypeView::Bool,
            DataType::Primitive(PrimitiveDataType::Nullable(t)) => TypeView::Nullable(
                Box::new((*t).model()),
            ),
            DataType::Primitive(PrimitiveDataType::Null) => TypeView::Null,
            DataType::Complex(ComplexDataType::LayoutOrEnum(name)) => TypeView::LayoutOrEnum(
                name@,
            ),
            DataType::Complex(ComplexDataType::Indefinite) => TypeView::Indefinite,
            DataType::Reference(ReferenceType::Function) => TypeView::Function,
            DataType::Reference(ReferenceType::Null) => TypeView::NullReference,
            DataType::InternalInfer => TypeView::Infer,
        }
    }
}

impl View for DataType {
    type V = TypeView;

    open spec fn view(&self) -> TypeView {
        self.model()
    }
}

impl TypeView {
    /// The one-directional compatibility rule: a slot of type `self` takes
    /// a value of type `value`.
    pub open spec fn matches(self, value: TypeView) -> bool {
        match self {
            TypeView::Nullable(inner) => value == TypeView::Null || value == *inner,
            _ => value == self,
        }
    }

    /// How deep the type is nested.
    pub open spec fn height(self) -> nat
        decreases self,
    {
        match self {
            TypeView::Iterable(t) => 1 + t.height(),
            TypeView::Nullable(t) => 1 + t.height(),
            _ => 0,
        }
    }

    /// The text that the language shows for the type.
    pub open spec fn name(self) -> Seq<char>
        decreases self,
    {
        match self {
            TypeView::Num(_) => "num"@,
            TypeView::Iterable(t) => "iterable["@ + t.name() + "]"@,
            TypeView::Str => "str"@,
            TypeView::Bool => "bool"@,
            TypeView::Nullable(t) => "nul "@ + t.name(),
            TypeView::Null => "null"@,
            TypeView::LayoutOrEnum(name) => name,
            TypeView::Indefinite => "indefinite"@,
            TypeView::Function => "ref[function]"@,
            TypeView::NullReference => "ref[null]"@,
            TypeView::Infer => Seq::empty(),
        }
    }

    /// No placeholder occurs anywhere in the type.
    pub open spec fn is_concrete(self) -> bool
        decreases self,
    {
        match self {
            TypeView::Iterable(t) => t.is_concrete(),
            TypeView::Nullable(t) => t.is_concrete(),
            TypeView::Infer => false,
            _ => true,
        }
    }
}

impl Clone for DataType {
    fn clone(&self) -> (r: Self)
        ensures
            r == *self,
        decreases self,
    {
        match self {
            DataType::Primitive(PrimitiveDataType::Num(n)) => DataType::Primitive(
                PrimitiveDataType::Num(*n),
            ),
            DataType::Primitive(PrimitiveDataType::Iterable(t)) => DataType::Primitive(
                PrimitiveDataType::Iterable(Box::new((&**t).clone())),
            ),
            DataType::Primitive(PrimitiveDataType::Str) => DataType::Primitive(
                PrimitiveDataType::Str,
            ),
            DataType::Primitive(PrimitiveDataType::Bool) => DataType::Primitive(
                PrimitiveDataType::Bool,
            ),
            DataType::Primitive(PrimitiveDataType::Nullable(t)) => DataType::Primitive(
                PrimitiveDataType::Nullable(Box::new((&**t).clone())),
            ),
            DataType::Primitive(PrimitiveDataType::Null) => DataType::Primitive(
                PrimitiveDataType::Null,
            ),
            DataType::Complex(ComplexDataType::LayoutOrEnum(name)) => DataType::Complex(
                ComplexDataType::LayoutOrEnum(name.clone()),
            ),
            DataType::Complex(ComplexDataType::Indefinite) => DataType::Complex(
                ComplexDataType::Indefinite,
            ),
            DataType::Reference(r) => DataType::Reference(*r),
            DataType::InternalInfer => DataType::InternalInfer,
        }
    }
}

impl PartialEq for DataType {
    fn eq(&self, other: &DataType) -> (r: bool)
        decreases self,
    {
        match (self, other) {
            (
                DataType::Primitive(PrimitiveDataType::Num(a)),
                DataType::Primitive(PrimitiveDataType::Num(b)),
            ) => *a == *b,
            (
                DataType::Primitive(PrimitiveDataType::Iterable(a)),
                DataType::Primitive(PrimitiveDataType::Iterable(b)),
            ) => (&**a).eq(&**b),
            (
                DataType::Primitive(PrimitiveDataType::Str),
                DataType::Primitive(PrimitiveDataType::Str),
            ) => true,
            (
                DataType::Primitive(PrimitiveDataType::Bool),
                DataType::Primitive(PrimitiveDataType::Bool),
            ) => true,
            (
                DataType::Primitive(PrimitiveDataType::Nullable(a)),
                DataType::Primitive(PrimitiveDataType::Nullable(b)),
            ) => (&**a).eq(&**b),
            (
                DataType::Primitive(PrimitiveDataType::Null),
                DataType::Primitive(PrimitiveDataType::Null),
            ) => true,
            (
                DataType::Complex(ComplexDataType::LayoutOrEnum(a)),
                DataType::Complex(ComplexDataType::LayoutOrEnum(b)),
            ) => *a == *b,
            (
                DataType::Complex(ComplexDataType::Indefinite),
                DataType::Complex(ComplexDataType::Indefinite),
            ) => true,
            (DataType::Reference(a), DataType::Reference(b)) => *a == *b,
            (DataType::InternalInfer, DataType::InternalInfer) => true,
            _ => false,
        }
    }
}

impl vstd::std_specs::cmp::PartialEqSpecImpl for DataType {
    open spec fn obeys_eq_spec() -> bool {
        true
    }

    open spec fn eq_spec(&self, other: &DataType) -> bool {
        self@ == other@
    }
}

/// Whether `s` spells `text`.
pub fn is_text(s: &String, text: &str) -> (r: bool)
    ensures
        r == (s@ == text@),
{
    let t = text.to_owned();
    *s == t
}

impl DataType {
    /// The type that the identifier `string` names. A name that is none of
    /// the built-in ones is taken for a layout or an enum, which is looked
    /// up only when the type is used.
    pub fn from_str(string: String, generics: Vec<DataType>) -> (r: Self)
        requires
            string@ == "iterable"@ ==> generics@.len() >= 1,
        ensures
            r@ == (if string@ == "num"@ {
                TypeView::Num(NumType::Dynamic)
            } else if string@ == "str"@ {
                TypeView::Str
            } else if string@ == "null"@ {
                TypeView::Null
            } else if string@ == "bool"@ {
                TypeView::Bool
            } else if string@ == "iterable"@ {
                TypeView::Iterable(Box::new(generics@[0]@))
            } else {
                TypeView::LayoutOrEnum(string@)
            }),
            r == (if string@ == "num"@ {
                DataType::Primitive(PrimitiveDataType::Num(NumType::Dynamic))
            } else if string@ == "str"@ {
                DataType::Primitive(PrimitiveDataType::Str)
            } else if string@ == "null"@ {
                DataType::Primitive(PrimitiveDataType::Null)
            } else if string@ == "bool"@ {
                DataType::Primitive(PrimitiveDataType::Bool)
            } else if string@ == "iterable"@ {
                DataType::Primitive(PrimitiveDataType::Iterable(Box::new(generics@[0])))
            } else {
                DataType::Complex(ComplexDataType::LayoutOrEnum(string))
            }),
    {
        if is_text(&string, "num") {
            DataType::Primitive(PrimitiveDataType::Num(NumType::Dynamic))
        } else if is_text(&string, "str") {
            DataType::Primitive(PrimitiveDataType::Str)
        } else if is_text(&string, "null") {
            DataType::Primitive(PrimitiveDataType::Null)
        } else if is_text(&string, "bool") {
            DataType::Primitive(PrimitiveDataType::Bool)
        } else if is_text(&string, "iterable") {
            DataType::Primitive(PrimitiveDataType::Iterable(Box::new(generics[0].clone())))
        } else {
            DataType::Complex(ComplexDataType::LayoutOrEnum(string))
        }
    }

    /// The text that the language shows for the type. The placeholder has
    /// none.
    pub fn to_string(&self) -> (s: String)
        requires
            self@.is_concrete(),
        ensures
            s@ == self@.name(),
        decreases self,
    {
        match self {
            DataType::Primitive(PrimitiveDataType::Num(_)) => "num".to_owned(),
            DataType::Primitive(PrimitiveDataType::Iterable(t)) => {
                let inner = (&**t).to_string();
                "iterable[".to_owned().concat(inner.as_str()).concat("]")
            },
            DataType::Primitive(PrimitiveDataType::Str) => "str".to_owned(),
            DataType::Primitive(PrimitiveDataType::Bool) => "bool".to_owned(),
            DataType::Primitive(PrimitiveDataType::Nullable(t)) => {
                let inner = (&**t).to_string();
                "nul ".to_owned().concat(inner.as_str())
            },
            DataType::Primitive(PrimitiveDataType::Null) => "null".to_owned(),
            DataType::Complex(ComplexDataType::LayoutOrEnum(name)) => name.clone(),
            DataType::Complex(ComplexDataType::Indefinite) => "indefinite".to_owned(),
            DataType::Reference(ReferenceType::Function) => "ref[function]".to_owned(),
            DataType::Reference(ReferenceType::Null) => "ref[null]".to_owned(),
            DataType::InternalInfer => String::new(),
        }
    }

    /// Whether a slot declared with this type takes a value of type
    /// `data_type`.
    pub fn matches(&self, data_type: &DataType) -> (r: bool)
        ensures
            r == self@.matches(data_type@),
    {
        match self {
            DataType::Primitive(PrimitiveDataType::Nullable(inner)) => {
                let null = DataType::Primitive(PrimitiveDataType::Null);
                *data_type == null || **inner == *data_type
            },
            _ => *data_type == *self,
        }
    }
}

/// A nullable slot takes the null type.
pub proof fn law_nullable_takes_null(t: TypeView)
    ensures
        TypeView::Nullable(Box::new(t)).matches(TypeView::Null),
{
}

/// A nullable slot takes the type that it wraps.
pub proof fn law_nullable_takes_inner(t: TypeView)
    ensures
        TypeView::Nullable(Box::new(t)).matches(t),
{
}

/// A nullable slot takes nothing but null and the type that it wraps.
pub proof fn law_nullable_takes_nothing_else(t: TypeView, u: TypeView)
    requires
        u != t,
        u != TypeView::Null,
    ensures
        !TypeView::Nullable(Box::new(t)).matches(u),
{
}

/// A slot that is not nullable takes exactly its own type.
pub proof fn law_plain_takes_itself_only(t: TypeView, u: TypeView)
    requires
        !(t is Nullable),
    ensures
        t.matches(u) <==> u == t,
{
}

/// Matching is one-directional: no slot of type `t` takes a value of type
/// nullable `t`.
pub proof fn law_no_slot_takes_its_nullable(t: TypeView)
    ensures
        !t.matches(TypeView::Nullable(Box::new(t))),
{
    let wrapped = TypeView::Nullable(Box::new(t));
    assert(wrapped.height() == 1 + t.height());
    match t {
        TypeView::Nullable(inner) => {
            assert(t.height() == 1 + inner.height());
            assert(wrapped != *inner);
        },
        _ => {},
    }
}

} // verus!
