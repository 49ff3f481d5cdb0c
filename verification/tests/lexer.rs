use mosa::lexer::structs::{Direction, KeywordType, OperatorType, SignType, Token, TokenValue};
use mosa::lexer::{
    bracket_of, classes_of, chars_of, is_skippable, lex_text, merged, operator_of, resolve_string_to_token,
    sign_of, text_of, tokenize, unescape, LexError, NumberParser,
};
use mosa::number::Number;
use std::cell::RefCell;

/// Parses numbers as Rust does, and keeps the texts that it was asked for.
struct Floats {
    asked: RefCell<Vec<String>>,
}

impl NumberParser for Floats {
    fn parse_number(&self, text: &String) -> Option<Number> {
        self.asked.borrow_mut().push(text.clone());
        text.parse::<f64>().ok().map(|x| Number::from_bits(x.to_bits()))
    }
}

fn floats() -> Floats {
    Floats { asked: RefCell::new(vec![]) }
}

fn lex(text: &str) -> Vec<Token> {
    tokenize("test".to_string(), text.to_string(), &floats()).expect("tokens").into()
}

fn values(text: &str) -> Vec<TokenValue> {
    lex(text).into_iter().map(|t| t.value).collect()
}

fn n(x: f64) -> TokenValue {
    TokenValue::Number(Number::from_bits(x.to_bits()))
}

fn id(s: &str) -> TokenValue {
    TokenValue::Identifier(s.to_string())
}

fn kw(k: KeywordType) -> TokenValue {
    TokenValue::Keyword(k)
}

fn op(o: OperatorType) -> TokenValue {
    TokenValue::Operator(o)
}

fn sign(s: SignType) -> TokenValue {
    TokenValue::Sign(s)
}

fn same(got: Vec<TokenValue>, want: Vec<TokenValue>) {
    assert_eq!(got.len(), want.len(), "{got:?} vs {want:?}");
    for (g, w) in got.iter().zip(want.iter()) {
        assert!(g == w, "{g:?} vs {w:?} in {got:?}");
    }
}

#[test]
fn an_empty_text_is_the_end_token() {
    let tokens = lex("");
    assert_eq!(tokens.len(), 1);
    assert!(tokens[0].value == TokenValue::End);
    assert_eq!((tokens[0].line, tokens[0].column), (1, 0));
    assert_eq!(tokens[0].file_name, "test");
}

#[test]
fn a_declaration_is_split_into_its_tokens() {
    same(
        values("let x = 5;"),
        vec![
            kw(KeywordType::Let),
            id("x"),
            op(OperatorType::Equal),
            n(5.0),
            sign(SignType::Semicolon),
            TokenValue::End,
        ],
    );
}

#[test]
fn words_are_keywords_booleans_or_identifiers() {
    same(
        values("fn tied layout true false truth x_1 _y"),
        vec![
            kw(KeywordType::Fn),
            kw(KeywordType::Tied),
            kw(KeywordType::Layout),
            TokenValue::Boolean(true),
            TokenValue::Boolean(false),
            id("truth"),
            id("x_1"),
            sign(SignType::Underscore),
            id("y"),
            TokenValue::End,
        ],
    );
    assert!(resolve_string_to_token("immut".to_string()) == kw(KeywordType::Immut));
    assert!(resolve_string_to_token("true".to_string()) == TokenValue::Boolean(true));
    assert!(resolve_string_to_token("tru".to_string()) == id("tru"));
}

#[test]
fn any_character_before_an_underscore_starts_a_word() {
    same(values("$_a"), vec![id("$_a"), TokenValue::End]);
    same(values("$a"), vec![id("a"), TokenValue::End]);
}

#[test]
fn numbers_are_handed_to_the_parser_as_text() {
    let parser = floats();
    let tokens: Vec<Token> =
        tokenize("t".to_string(), "5 12 1.5 007 3.".to_string(), &parser).unwrap().into();
    let got: Vec<TokenValue> = tokens.into_iter().map(|t| t.value).collect();
    same(got, vec![n(5.0), n(12.0), n(1.5), n(7.0), n(3.0), sign(SignType::Dot), TokenValue::End]);
    assert_eq!(*parser.asked.borrow(), vec!["5", "12.0", "1.5", "007.0", "3"]);
}

#[test]
fn a_range_is_two_numbers_around_two_dots() {
    same(values("0..5"), vec![n(0.0), sign(SignType::DoubleDot), n(5.0), TokenValue::End]);
    same(values("10..25"), vec![n(10.0), sign(SignType::DoubleDot), n(25.0), TokenValue::End]);
    same(values("1.5..2"), vec![n(1.5), sign(SignType::DoubleDot), n(2.0), TokenValue::End]);
}

#[test]
fn a_text_that_spells_no_number_is_refused() {
    assert_eq!(
        tokenize("t".to_string(), "1.2.3".to_string(), &floats()).unwrap_err(),
        LexError::BadNumber
    );
}

#[test]
fn two_characters_can_be_one_token() {
    let open = sign(SignType::Paren(Direction::Open));
    let close = sign(SignType::Paren(Direction::Close));
    same(
        values("++ -- -> <- => >= <= ->> == != := ?: .. /> ~> ::"),
        vec![
            op(OperatorType::Increment),
            op(OperatorType::Decrement),
            sign(SignType::Arrow),
            sign(SignType::BackwardArrow),
            sign(SignType::EqArrow),
            op(OperatorType::BiggerEqual),
            op(OperatorType::SmallerEqual),
            sign(SignType::DoubleArrow),
            sign(SignType::Equality),
            sign(SignType::Inequality),
            op(OperatorType::SelfAssign),
            op(OperatorType::Repeat),
            sign(SignType::DoubleDot),
            sign(SignType::SlashArrow),
            sign(SignType::TildeArrow),
            sign(SignType::DoubleColon),
            TokenValue::End,
        ],
    );
    same(
        values("+ +"),
        vec![op(OperatorType::Plus), op(OperatorType::Plus), TokenValue::End],
    );
    same(
        values("(x) ?: 3.7"),
        vec![open, id("x"), close, op(OperatorType::Repeat), n(3.7), TokenValue::End],
    );
    assert!(merged(&op(OperatorType::Minus), &op(OperatorType::Bigger)) == Some(sign(SignType::Arrow)));
    assert!(merged(&op(OperatorType::Minus), &op(OperatorType::Plus)).is_none());
    assert!(merged(&id("a"), &op(OperatorType::Plus)).is_none());
}

#[test]
fn brackets_signs_and_operators_of_one_character() {
    same(
        values("( ) [ ] { } , . ; ? : ! # ^ @ ~ + - * / % > < ="),
        vec![
            sign(SignType::Paren(Direction::Open)),
            sign(SignType::Paren(Direction::Close)),
            sign(SignType::Brace(Direction::Open)),
            sign(SignType::Brace(Direction::Close)),
            sign(SignType::CurlyBrace(Direction::Open)),
            sign(SignType::CurlyBrace(Direction::Close)),
            sign(SignType::Comma),
            sign(SignType::Dot),
            sign(SignType::Semicolon),
            sign(SignType::QuestionMk),
            sign(SignType::Colon),
            sign(SignType::ExclamationMk),
            sign(SignType::HashSign),
            sign(SignType::Caret),
            sign(SignType::At),
            sign(SignType::Tilde),
            op(OperatorType::Plus),
            op(OperatorType::Minus),
            op(OperatorType::Multiply),
            op(OperatorType::Divide),
            op(OperatorType::Modulo),
            op(OperatorType::Bigger),
            op(OperatorType::Smaller),
            op(OperatorType::Equal),
            TokenValue::End,
        ],
    );
    assert_eq!(bracket_of('{'), Some(SignType::CurlyBrace(Direction::Open)));
    assert_eq!(bracket_of('x'), None);
    assert_eq!(sign_of('#'), Some(SignType::HashSign));
    assert_eq!(sign_of('+'), None);
    assert_eq!(operator_of('%'), Some(OperatorType::Modulo));
    assert_eq!(operator_of('!'), None);
    assert!(is_skippable(' ') && is_skippable('\n') && is_skippable('\r') && !is_skippable('\t'));
}

#[test]
fn strings_keep_what_stands_between_their_quotes() {
    same(
        values(r#"x = "a b + 1";"#),
        vec![
            id("x"),
            op(OperatorType::Equal),
            TokenValue::String("a b + 1".to_string()),
            sign(SignType::Semicolon),
            TokenValue::End,
        ],
    );
    same(
        values(r#""say \"hi\"""#),
        vec![TokenValue::String(r#"say "hi""#.to_string()), TokenValue::End],
    );
    same(values(r#""""#), vec![TokenValue::String(String::new()), TokenValue::End]);
    same(values(r#""open"#), vec![TokenValue::End]);
    assert_eq!(unescape(&chars_of(r#"a\"b\\"#)), r#"a"b\\"#);
}

#[test]
fn comments_are_taken_out_first() {
    same(
        values("x // the rest\ny"),
        vec![id("x"), id("y"), TokenValue::End],
    );
    same(
        values("\"a // b\" c"),
        vec![TokenValue::End],
    );
}

#[test]
fn tokens_know_where_they_stand() {
    let tokens = lex("ab cd\n  e");
    let places: Vec<(usize, usize)> = tokens.iter().map(|t| (t.line, t.column)).collect();
    assert_eq!(places, vec![(1, 1), (1, 3), (2, 3), (2, 3)]);
    assert!(tokens.iter().all(|t| t.file_name == "test"));
}

#[test]
fn characters_and_texts() {
    assert_eq!(chars_of("héllo"), vec!['h', 'é', 'l', 'l', 'o']);
    assert_eq!(text_of(&chars_of("héllo"), 1, 3), "él");
    assert_eq!(text_of(&chars_of("héllo"), 2, 2), "");
}

#[test]
fn a_text_without_comments_is_lexed_as_it_stands() {
    let tokens: Vec<Token> =
        lex_text("test".to_string(), "a // b".to_string(), &floats()).expect("tokens").into();
    let got: Vec<TokenValue> = tokens.into_iter().map(|t| t.value).collect();
    same(got, vec![id("a"), sign(SignType::Comment), id("b"), TokenValue::End]);
    same(values("a // b"), vec![id("a"), TokenValue::End]);
    assert_eq!(
        lex_text("test".to_string(), "1.2.3".to_string(), &floats()).unwrap_err(),
        LexError::BadNumber
    );
}

#[test]
fn letters_and_digits_have_their_classes() {
    for c in ['a', 'z', 'A', 'Z', 'q'] {
        assert_eq!(classes_of(c), (true, false), "{c}");
    }
    for c in ['0', '9', '5'] {
        assert_eq!(classes_of(c), (false, true), "{c}");
    }
    for c in ['_', ' ', '+', '@', '[', '`', '{', '/', ':', '\n', '\u{7f}'] {
        assert_eq!(classes_of(c), (false, false), "{c:?}");
    }
    for c in 0u8..128 {
        let c = c as char;
        assert_eq!(classes_of(c), (c.is_ascii_alphabetic(), c.is_ascii_digit()), "{c:?}");
    }
    assert_eq!(classes_of('\u{4eac}'), (true, false));
    assert_eq!(classes_of('\u{663}'), (false, true));
}
