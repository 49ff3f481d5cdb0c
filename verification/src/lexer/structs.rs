//! The tokens of the language and the tables that name them.

use crate::collections::StrMap;
use crate::number::Number;
use vstd::prelude::*;

verus! {

#[derive(Debug)]
pub struct Token {
    pub file_name: String,
    pub line: usize,
    pub column: usize,
    pub value: TokenValue,
}

#[derive(Debug)]
pub enum TokenValue {
    Number(Number),
    String(String),
    Boolean(bool),
    Identifier(String),
    Keyword(KeywordType),
    Operator(OperatorType),
    Sign(SignType),
    /// Stands for white space while a text is split; no token list that
    /// the lexer gives holds one.
    Skip,
    End,
}

#[derive(Clone, Copy, Debug, PartialEq, Eq, Structural)]
pub enum KeywordType {
    Fn,
    For,
    While,
    Use,
    Has,
    Class,
    Let,
    Const,
    Typeof,
    If,
    Else,
    Pri,
    Exp,
    Enum,
    Immut,
    Once,
    Native,
    Block,
    Layout,
    Mix,
    Tied,
}

#[derive(Clone, Copy, Debug, PartialEq, Eq, Structural)]
pub enum OperatorType {
    Plus,
    Minus,
    Multiply,
    Divide,
    Modulo,
    Increment,
    Decrement,
    Bigger,
    Smaller,
    BiggerEqual,
    SmallerEqual,
    Equal,
    SelfAssign,
    Repeat,
}

#[derive(Clone, Copy, Debug, PartialEq, Eq, Structural)]
pub enum SignType {
    /// `;`
    Semicolon,
    /// `:`
    Colon,
    /// `,`
    Comma,
    /// `.`
    Dot,
    /// `_`
    Underscore,
    /// `->`
    Arrow,
    /// `<-`
    BackwardArrow,
    /// `!`
    ExclamationMk,
    /// `?`
    QuestionMk,
    /// `(` and `)`
    Paren(Direction),
    /// `[` and `]`
    Brace(Direction),
    /// `{` and `}`
    CurlyBrace(Direction),
    /// `=>`
    EqArrow,
    /// `->>`
    DoubleArrow,
    /// `//`
    Comment,
    /// `==`
    Equality,
    /// `!=`
    Inequality,
    /// `#`
    HashSign,
    /// `^`
    Caret,
    /// `..`
    DoubleDot,
    /// `/>`
    SlashArrow,
    /// `@`
    At,
    /// `~`
    Tilde,
    /// `~>`
    TildeArrow,
    /// `::`
    DoubleColon,
}

#[derive(Clone, Copy, Debug, PartialEq, Eq, Structural)]
pub enum Direction {
    Open,
    Close,
}

/// Two tokens that, written one after the other, are one token.
#[derive(Debug)]
pub struct TwoElementSignsConversion {
    pub first: TokenValue,
    pub second: TokenValue,
    pub result: TokenValue,
}

impl Clone for Token {
    fn clone(&self) -> (r: Self)
        ensures
            r == *self,
    {
        Token {
            file_name: self.file_name.clone(),
            line: self.line,
            column: self.column,
            value: self.value.clone(),
        }
    }
}

impl Clone for TokenValue {
    fn clone(&self) -> (r: Self)
        ensures
            r == *self,
    {
        match self {
            TokenValue::Number(n) => TokenValue::Number(*n),
            TokenValue::String(s) => TokenValue::String(s.clone()),
            TokenValue::Boolean(b) => TokenValue::Boolean(*b),
            TokenValue::Identifier(s) => TokenValue::Identifier(s.clone()),
            TokenValue::Keyword(k) => TokenValue::Keyword(*k),
            TokenValue::Operator(o) => TokenValue::Operator(*o),
            TokenValue::Sign(s) => TokenValue::Sign(*s),
            TokenValue::Skip => TokenValue::Skip,
            TokenValue::End => TokenValue::End,
        }
    }
}

impl TokenValue {
    /// Whether two token values are the same: numbers as numbers, strings
    /// and identifiers by their characters.
    pub open spec fn same(self, other: TokenValue) -> bool {
        match (self, other) {
            (TokenValue::Number(a), TokenValue::Number(b)) => a.spec_eq(b),
            (TokenValue::String(a), TokenValue::String(b)) => a@ == b@,
            (TokenValue::Boolean(a), TokenValue::Boolean(b)) => a == b,
            (TokenValue::Identifier(a), TokenValue::Identifier(b)) => a@ == b@,
            (TokenValue::Keyword(a), TokenValue::Keyword(b)) => a == b,
            (TokenValue::Operator(a), TokenValue::Operator(b)) => a == b,
            (TokenValue::Sign(a), TokenValue::Sign(b)) => a == b,
            (TokenValue::Skip, TokenValue::Skip) => true,
            (TokenValue::End, TokenValue::End) => true,
            _ => false,
        }
    }
}

impl PartialEq for TokenValue {
    fn eq(&self, other: &TokenValue) -> (r: bool) {
        match (self, other) {
            (TokenValue::Number(a), TokenValue::Number(b)) => a.eq_value(*b),
            (TokenValue::String(a), TokenValue::String(b)) => *a == *b,
            (TokenValue::Boolean(a), TokenValue::Boolean(b)) => *a == *b,
            (TokenValue::Identifier(a), TokenValue::Identifier(b)) => *a == *b,
            (TokenValue::Keyword(a), TokenValue::Keyword(b)) => *a == *b,
            (TokenValue::Operator(a), TokenValue::Operator(b)) => *a == *b,
            (TokenValue::Sign(a), TokenValue::Sign(b)) => *a == *b,
            (TokenValue::Skip, TokenValue::Skip) => true,
            (TokenValue::End, TokenValue::End) => true,
            _ => false,
        }
    }
}

impl vstd::std_specs::cmp::PartialEqSpecImpl for TokenValue {
    open spec fn obeys_eq_spec() -> bool {
        true
    }

    open spec fn eq_spec(&self, other: &TokenValue) -> bool {
        self.same(*other)
    }
}

/// The words that are keywords, each with its keyword.
pub open spec fn keyword_table() -> Seq<(Seq<char>, KeywordType)> {
    seq![
        ("fn"@, KeywordType::Fn),
        ("for"@, KeywordType::For),
        ("while"@, KeywordType::While),
        ("has"@, KeywordType::Has),
        ("use"@, KeywordType::Use),
        ("class"@, KeywordType::Class),
        ("let"@, KeywordType::Let),
        ("const"@, KeywordType::Const),
        ("typeof"@, KeywordType::Typeof),
        ("if"@, KeywordType::If),
        ("else"@, KeywordType::Else),
        ("enum"@, KeywordType::Enum),
        ("pri"@, KeywordType::Pri),
        ("exp"@, KeywordType::Exp),
        ("immut"@, KeywordType::Immut),
        ("once"@, KeywordType::Once),
        ("native"@, KeywordType::Native),
        ("block"@, KeywordType::Block),
        ("layout"@, KeywordType::Layout),
        ("mix"@, KeywordType::Mix),
        ("tied"@, KeywordType::Tied),
    ]
}

/// The map that the pairs of `table` make, a later pair over an earlier
/// one of its key.
pub open spec fn map_of<V>(table: Seq<(Seq<char>, V)>) -> Map<Seq<char>, V>
    decreases table.len(),
{
    if table.len() == 0 {
        Map::empty()
    } else {
        map_of(table.drop_last()).insert(table.last().0, table.last().1)
    }
}

/// A table with one more pair makes the map of the table with the pair put
/// into it.
pub proof fn lemma_map_of_push<V>(table: Seq<(Seq<char>, V)>, key: Seq<char>, value: V)
    ensures
        map_of(table.push((key, value))) == map_of(table).insert(key, value),
{
    assert(table.push((key, value)).drop_last() =~= table);
}

/// Puts `value` under `key` into a map that is made of the pairs `done`.
fn entered<V>(
    m: &mut StrMap<V>,
    Ghost(done): Ghost<Seq<(Seq<char>, V)>>,
    key: &str,
    value: V,
) -> (next: Ghost<Seq<(Seq<char>, V)>>)
    requires
        old(m)@ == map_of(done),
    ensures
        next@ == done.push((key@, value)),
        final(m)@ == map_of(next@),
{
    proof {
        lemma_map_of_push(done, key@, value);
    }
    m.insert(key.to_owned(), value);
    Ghost(done.push((key@, value)))
}

/// The keywords of the language, by their spelling.
pub fn reserved_keywords() -> (m: StrMap<KeywordType>)
    ensures
        m@ == map_of(keyword_table()),
{
    let mut m: StrMap<KeywordType> = StrMap::new();
    let done = Ghost(Seq::<(Seq<char>, KeywordType)>::empty());
    let done = entered(&mut m, done, "fn", KeywordType::Fn);
    let done = entered(&mut m, done, "for", KeywordType::For);
    let done = entered(&mut m, done, "while", KeywordType::While);
    let done = entered(&mut m, done, "has", KeywordType::Has);
    let done = entered(&mut m, done, "use", KeywordType::Use);
    let done = entered(&mut m, done, "class", KeywordType::Class);
    let done = entered(&mut m, done, "let", KeywordType::Let);
    let done = entered(&mut m, done, "const", KeywordType::Const);
    let done = entered(&mut m, done, "typeof", KeywordType::Typeof);
    let done = entered(&mut m, done, "if", KeywordType::If);
    let done = entered(&mut m, done, "else", KeywordType::Else);
    let done = entered(&mut m, done, "enum", KeywordType::Enum);
    let done = entered(&mut m, done, "pri", KeywordType::Pri);
    let done = entered(&mut m, done, "exp", KeywordType::Exp);
    let done = entered(&mut m, done, "immut", KeywordType::Immut);
    let done = entered(&mut m, done, "once", KeywordType::Once);
    let done = entered(&mut m, done, "native", KeywordType::Native);
    let done = entered(&mut m, done, "block", KeywordType::Block);
    let done = entered(&mut m, done, "layout", KeywordType::Layout);
    let done = entered(&mut m, done, "mix", KeywordType::Mix);
    let done = entered(&mut m, done, "tied", KeywordType::Tied);
    assert(done@ =~= keyword_table());
    m
}

/// The operators of one character, each with its operator.
pub open spec fn operator_table() -> Seq<(Seq<char>, OperatorType)> {
    seq![
        ("+"@, OperatorType::Plus),
        ("-"@, OperatorType::Minus),
        ("*"@, OperatorType::Multiply),
        ("/"@, OperatorType::Divide),
        ("%"@, OperatorType::Modulo),
        (">"@, OperatorType::Bigger),
        ("<"@, OperatorType::Smaller),
        ("="@, OperatorType::Equal),
    ]
}

/// The operators of one character, by their spelling.
pub fn simple_operator_types() -> (m: StrMap<OperatorType>)
    ensures
        m@ == map_of(operator_table()),
{
    let mut m: StrMap<OperatorType> = StrMap::new();
    let done = Ghost(Seq::<(Seq<char>, OperatorType)>::empty());
    let done = entered(&mut m, done, "+", OperatorType::Plus);
    let done = entered(&mut m, done, "-", OperatorType::Minus);
    let done = entered(&mut m, done, "*", OperatorType::Multiply);
    let done = entered(&mut m, done, "/", OperatorType::Divide);
    let done = entered(&mut m, done, "%", OperatorType::Modulo);
    let done = entered(&mut m, done, ">", OperatorType::Bigger);
    let done = entered(&mut m, done, "<", OperatorType::Smaller);
    let done = entered(&mut m, done, "=", OperatorType::Equal);
    assert(done@ =~= operator_table());
    m
}

/// The signs of one character, each with its sign.
pub open spec fn sign_table() -> Seq<(char, SignType)> {
    seq![
        (',', SignType::Comma),
        ('.', SignType::Dot),
        ('_', SignType::Underscore),
        (';', SignType::Semicolon),
        ('?', SignType::QuestionMk),
        (':', SignType::Colon),
        ('!', SignType::ExclamationMk),
        ('#', SignType::HashSign),
        ('^', SignType::Caret),
        ('@', SignType::At),
        ('~', SignType::Tilde),
    ]
}

/// The signs of one character, each with its sign.
pub fn simple_sign_types() -> (v: Vec<(char, SignType)>)
    ensures
        v@ == sign_table(),
{
    let mut v: Vec<(char, SignType)> = Vec::new();
    v.push((',', SignType::Comma));
    v.push(('.', SignType::Dot));
    v.push(('_', SignType::Underscore));
    v.push((';', SignType::Semicolon));
    v.push(('?', SignType::QuestionMk));
    v.push((':', SignType::Colon));
    v.push(('!', SignType::ExclamationMk));
    v.push(('#', SignType::HashSign));
    v.push(('^', SignType::Caret));
    v.push(('@', SignType::At));
    v.push(('~', SignType::Tilde));
    assert(v@ =~= sign_table());
    v
}

/// The pairs of tokens that are one token, in the order in which the lexer
/// tries them.
pub open spec fn conversion_table() -> Seq<(TokenValue, TokenValue, TokenValue)> {
    seq![
        (TokenValue::Operator(OperatorType::Plus), TokenValue::Operator(OperatorType::Plus), TokenValue::Operator(OperatorType::Increment)),
        (TokenValue::Operator(OperatorType::Minus), TokenValue::Operator(OperatorType::Minus), TokenValue::Operator(OperatorType::Decrement)),
        (TokenValue::Operator(OperatorType::Minus), TokenValue::Operator(OperatorType::Bigger), TokenValue::Sign(SignType::Arrow)),
        (TokenValue::Operator(OperatorType::Smaller), TokenValue::Operator(OperatorType::Minus), TokenValue::Sign(SignType::BackwardArrow)),
        (TokenValue::Operator(OperatorType::Equal), TokenValue::Operator(OperatorType::Bigger), TokenValue::Sign(SignType::EqArrow)),
        (TokenValue::Operator(OperatorType::Bigger), TokenValue::Operator(OperatorType::Equal), TokenValue::Operator(OperatorType::BiggerEqual)),
        (TokenValue::Operator(OperatorType::Smaller), TokenValue::Operator(OperatorType::Equal), TokenValue::Operator(OperatorType::SmallerEqual)),
        (TokenValue::Sign(SignType::Arrow), TokenValue::Operator(OperatorType::Bigger), TokenValue::Sign(SignType::DoubleArrow)),
        (TokenValue::Operator(OperatorType::Equal), TokenValue::Operator(OperatorType::Equal), TokenValue::Sign(SignType::Equality)),
        (TokenValue::Sign(SignType::ExclamationMk), TokenValue::Operator(OperatorType::Equal), TokenValue::Sign(SignType::Inequality)),
        (TokenValue::Operator(OperatorType::Divide), TokenValue::Operator(OperatorType::Divide), TokenValue::Sign(SignType::Comment)),
        (TokenValue::Sign(SignType::Colon), TokenValue::Operator(OperatorType::Equal), TokenValue::Operator(OperatorType::SelfAssign)),
        (TokenValue::Sign(SignType::QuestionMk), TokenValue::Sign(SignType::Colon), TokenValue::Operator(OperatorType::Repeat)),
        (TokenValue::Sign(SignType::Dot), TokenValue::Sign(SignType::Dot), TokenValue::Sign(SignType::DoubleDot)),
        (TokenValue::Operator(OperatorType::Divide), TokenValue::Operator(OperatorType::Bigger), TokenValue::Sign(SignType::SlashArrow)),
        (TokenValue::Sign(SignType::Tilde), TokenValue::Operator(OperatorType::Bigger), TokenValue::Sign(SignType::TildeArrow)),
        (TokenValue::Sign(SignType::Colon), TokenValue::Sign(SignType::Colon), TokenValue::Sign(SignType::DoubleColon)),
    ]
}

/// The pairs of tokens that are one token.
pub fn two_element_signs_conversions() -> (v: Vec<TwoElementSignsConversion>)
    ensures
        v@.len() == conversion_table().len(),
        forall|i: int|
            0 <= i < v@.len() ==> (#[trigger] v@[i]).first == conversion_table()[i].0 && v@[i].second
                == conversion_table()[i].1 && v@[i].result == conversion_table()[i].2,
{
    let mut v: Vec<TwoElementSignsConversion> = Vec::new();
    // ++
    v.push(
        TwoElementSignsConversion {
            first: TokenValue::Operator(OperatorType::Plus),
            second: TokenValue::Operator(OperatorType::Plus),
            result: TokenValue::Operator(OperatorType::Increment),
        },
    );
    // --
    v.push(
        TwoElementSignsConversion {
            first: TokenValue::Operator(OperatorType::Minus),
            second: TokenValue::Operator(OperatorType::Minus),
            result: TokenValue::Operator(OperatorType::Decrement),
        },
    );
    // ->
    v.push(
        TwoElementSignsConversion {
            first: TokenValue::Operator(OperatorType::Minus),
            second: TokenValue::Operator(OperatorType::Bigger),
            result: TokenValue::Sign(SignType::Arrow),
        },
    );
    // <-
    v.push(
        TwoElementSignsConversion {
            first: TokenValue::Operator(OperatorType::Smaller),
            second: TokenValue::Operator(OperatorType::Minus),
            result: TokenValue::Sign(SignType::BackwardArrow),
        },
    );
    // =>
    v.push(
        TwoElementSignsConversion {
            first: TokenValue::Operator(OperatorType::Equal),
            second: TokenValue::Operator(OperatorType::Bigger),
            result: TokenValue::Sign(SignType::EqArrow),
        },
    );
    // >=
    v.push(
        TwoElementSignsConversion {
            first: TokenValue::Operator(OperatorType::Bigger),
            second: TokenValue::Operator(OperatorType::Equal),
            result: TokenValue::Operator(OperatorType::BiggerEqual),
        },
    );
    // <=
    v.push(
        TwoElementSignsConversion {
            first: TokenValue::Operator(OperatorType::Smaller),
            second: TokenValue::Operator(OperatorType::Equal),
            result: TokenValue::Operator(OperatorType::SmallerEqual),
        },
    );
    // ->>
    v.push(
        TwoElementSignsConversion {
            first: TokenValue::Sign(SignType::Arrow),
            second: TokenValue::Operator(OperatorType::Bigger),
            result: TokenValue::Sign(SignType::DoubleArrow),
        },
    );
    // ==
    v.push(
        TwoElementSignsConversion {
            first: TokenValue::Operator(OperatorType::Equal),
            second: TokenValue::Operator(OperatorType::Equal),
            result: TokenValue::Sign(SignType::Equality),
        },
    );
    // !=
    v.push(
        TwoElementSignsConversion {
            first: TokenValue::Sign(SignType::ExclamationMk),
            second: TokenValue::Operator(OperatorType::Equal),
            result: TokenValue::Sign(SignType::Inequality),
        },
    );
    // //
    v.push(
        TwoElementSignsConversion {
            first: TokenValue::Operator(OperatorType::Divide),
            second: TokenValue::Operator(OperatorType::Divide),
            result: TokenValue::Sign(SignType::Comment),
        },
    );
    // :=
    v.push(
        TwoElementSignsConversion {
            first: TokenValue::Sign(SignType::Colon),
            second: TokenValue::Operator(OperatorType::Equal),
            result: TokenValue::Operator(OperatorType::SelfAssign),
        },
    );
    // ?:
    v.push(
        TwoElementSignsConversion {
            first: TokenValue::Sign(SignType::QuestionMk),
            second: TokenValue::Sign(SignType::Colon),
            result: TokenValue::Operator(OperatorType::Repeat),
        },
    );
    // ..
    v.push(
        TwoElementSignsConversion {
            first: TokenValue::Sign(SignType::Dot),
            second: TokenValue::Sign(SignType::Dot),
            result: TokenValue::Sign(SignType::DoubleDot),
        },
    );
    // />
    v.push(
        TwoElementSignsConversion {
            first: TokenValue::Operator(OperatorType::Divide),
            second: TokenValue::Operator(OperatorType::Bigger),
            result: TokenValue::Sign(SignType::SlashArrow),
        },
    );
    // ~>
    v.push(
        TwoElementSignsConversion {
            first: TokenValue::Sign(SignType::Tilde),
            second: TokenValue::Operator(OperatorType::Bigger),
            result: TokenValue::Sign(SignType::TildeArrow),
        },
    );
    // ::
    v.push(
        TwoElementSignsConversion {
            first: TokenValue::Sign(SignType::Colon),
            second: TokenValue::Sign(SignType::Colon),
            result: TokenValue::Sign(SignType::DoubleColon),
        },
    );
    v
}

} // verus!
