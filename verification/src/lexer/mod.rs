//! The lexer: from the text of a program to its tokens.

pub mod structs;

use crate::lexer::structs::{
    conversion_table,
    keyword_table,
    map_of,
    reserved_keywords,
    two_element_signs_conversions,
    Direction,
    KeywordType,
    OperatorType,
    SignType,
    Token,
    TokenValue,
};
use crate::number::Number;
use regex::Regex;
use std::collections::VecDeque;
use vstd::prelude::*;

verus! {

#[verifier::external_type_specification]
#[verifier::external_body]
pub struct ExRegex(Regex);

/// The pattern that a regular expression was made from.
pub uninterp spec fn pattern_of(re: Regex) -> Seq<char>;

/// Whether a regular expression was made from its pattern alone, without
/// options of its own.
pub uninterp spec fn is_plain(re: Regex) -> bool;

/// `text` with every match of the pattern `pattern` replaced by
/// `replacement`, as the regex engine does it.
pub uninterp spec fn replaced(pattern: Seq<char>, text: Seq<char>, replacement: Seq<char>) -> Seq<
    char,
>;

/// Whether Unicode counts `c` as alphabetic.
pub uninterp spec fn alphabetic(c: char) -> bool;

/// Whether Unicode counts `c` as numeric.
pub uninterp spec fn numeric(c: char) -> bool;

/// Whether the regex engine takes `pattern` for a regular expression.
pub uninterp spec fn compiles(pattern: Seq<char>) -> bool;

/// `Regex::new`: the regular expression of `pattern`, none where the
/// engine refuses the pattern. Whether it does depends on the pattern
/// alone.
#[verifier::external_body]
pub(crate) fn compile(pattern: &str) -> (r: Option<Regex>)
    ensures
        r is Some <==> compiles(pattern@),
        r matches Some(re) ==> pattern_of(re) == pattern@ && is_plain(re),
{
    match Regex::new(pattern) {
        Ok(re) => Some(re),
        Err(_) => None,
    }
}

/// `Regex::replace_all`: `text` with every match replaced by
/// `replacement`. For an expression that was made from its pattern alone,
/// the pattern, the text and the replacement decide the result.
#[verifier::external_body]
pub(crate) fn replace_all(re: &Regex, text: &str, replacement: &str) -> (r: String)
    requires
        is_plain(*re),
    ensures
        r@ == replaced(pattern_of(*re), text@, replacement@),
{
    re.replace_all(text, replacement).into_owned()
}

/// Whether `c` is one of the letters `a` to `z` and `A` to `Z`.
pub open spec fn ascii_letter(c: char) -> bool {
    (0x41 <= c as u32 <= 0x5a) || (0x61 <= c as u32 <= 0x7a)
}

/// Whether `c` is one of the digits `0` to `9`.
pub open spec fn ascii_digit(c: char) -> bool {
    0x30 <= c as u32 <= 0x39
}

/// `char::is_alphabetic`: whether `c` has the Unicode property Alphabetic.
/// Of the first 128 characters, the letters have it and no other.
#[verifier::external_body]
pub(crate) fn is_alphabetic(c: char) -> (r: bool)
    ensures
        r == alphabetic(c),
        (c as u32) < 128 ==> r == ascii_letter(c),
{
    c.is_alphabetic()
}

/// `char::is_numeric`: whether `c` is in one of the Unicode categories for
/// numbers. Of the first 128 characters, the digits are and no other.
#[verifier::external_body]
pub(crate) fn is_numeric(c: char) -> (r: bool)
    ensures
        r == numeric(c),
        (c as u32) < 128 ==> r == ascii_digit(c),
{
    c.is_numeric()
}

/// Whether `c` is alphabetic, and whether it is numeric.
pub fn classes_of(c: char) -> (r: (bool, bool))
    ensures
        r.0 == alphabetic(c),
        r.1 == numeric(c),
        (c as u32) < 128 ==> r.0 == ascii_letter(c) && r.1 == ascii_digit(c),
{
    (is_alphabetic(c), is_numeric(c))
}

/// `String::push`: `c` is added at the end of `s`.
#[verifier::external_body]
pub(crate) fn push_char(s: &mut String, c: char)
    ensures
        final(s)@ == old(s)@.push(c),
{
    s.push(c)
}

/// The characters of `s`.
pub fn chars_of(s: &str) -> (r: Vec<char>)
    ensures
        r@ == s@,
{
    let mut r: Vec<char> = Vec::new();
    for c in it: s.chars()
        invariant
            r@ == it.seq().take(it.index()),
            it.seq() == s@,
    {
        r.push(c);
        assert(r@ =~= it.seq().take(it.index() + 1));
    }
    assert(r@ =~= s@);
    r
}

/// The string of the characters `chars[from..to]`.
pub fn text_of(chars: &Vec<char>, from: usize, to: usize) -> (r: String)
    requires
        from <= to <= chars@.len(),
    ensures
        r@ == chars@.subrange(from as int, to as int),
{
    let mut r = String::new();
    let mut i = from;
    while i < to
        invariant
            from <= i <= to <= chars@.len(),
            r@ == chars@.subrange(from as int, i as int),
        decreases to - i,
    {
        push_char(&mut r, chars[i]);
        assert(r@ =~= chars@.subrange(from as int, i + 1));
        i = i + 1;
    }
    r
}

/// What text becomes a number is for the embedding program to say.
pub trait NumberParser {
    /// The number that `text` spells, none where it spells none.
    fn parse_number(&self, text: &String) -> Option<Number>;
}

/// Why a text could not be split into tokens.
#[derive(Clone, Copy, Debug, PartialEq, Eq, Structural)]
pub enum LexError {
    /// A run of digits and dots that spells no number.
    BadNumber,
    /// A text of more characters than the lexer can count.
    TooLong,
    /// The engine refuses the pattern of comments.
    BadPattern,
}

/// What a token is, with the text of a number in place of the number.
pub enum TokenShape {
    Number(Seq<char>),
    String(Seq<char>),
    Boolean(bool),
    Identifier(Seq<char>),
    Keyword(KeywordType),
    Operator(OperatorType),
    Sign(SignType),
    Skip,
    End,
}

/// A token of the model: where it stands and what it is.
pub struct TokenModel {
    pub line: nat,
    pub column: nat,
    pub value: TokenShape,
}

/// The state of the lexer between two characters.
pub struct LexState {
    /// The tokens so far, white space included.
    pub tokens: Seq<TokenModel>,
    /// Whether the lexer is within a string.
    pub making_string: bool,
    /// The characters of the string that is being read.
    pub string: Seq<char>,
    /// The character that was read last, as far as quotes are concerned.
    pub prev: char,
    pub line: nat,
    pub column: nat,
}

pub open spec fn skippable(c: char) -> bool {
    c == ' ' || c == '\n' || c == '\r'
}

pub fn is_skippable(input: char) -> (r: bool)
    ensures
        r == skippable(input),
{
    input == ' ' || input == '\n' || input == '\r'
}

/// The bracket that `c` is.
pub open spec fn bracket(c: char) -> Option<SignType> {
    if c == '(' {
        Some(SignType::Paren(Direction::Open))
    } else if c == ')' {
        Some(SignType::Paren(Direction::Close))
    } else if c == '[' {
        Some(SignType::Brace(Direction::Open))
    } else if c == ']' {
        Some(SignType::Brace(Direction::Close))
    } else if c == '{' {
        Some(SignType::CurlyBrace(Direction::Open))
    } else if c == '}' {
        Some(SignType::CurlyBrace(Direction::Close))
    } else {
        None
    }
}

/// The sign of one character that `c` is.
pub open spec fn simple_sign(c: char) -> Option<SignType> {
    if c == ',' {
        Some(SignType::Comma)
    } else if c == '.' {
        Some(SignType::Dot)
    } else if c == '_' {
        Some(SignType::Underscore)
    } else if c == ';' {
        Some(SignType::Semicolon)
    } else if c == '?' {
        Some(SignType::QuestionMk)
    } else if c == ':' {
        Some(SignType::Colon)
    } else if c == '!' {
        Some(SignType::ExclamationMk)
    } else if c == '#' {
        Some(SignType::HashSign)
    } else if c == '^' {
        Some(SignType::Caret)
    } else if c == '@' {
        Some(SignType::At)
    } else if c == '~' {
        Some(SignType::Tilde)
    } else {
        None
    }
}

/// The operator of one character that `c` is.
pub open spec fn simple_operator(c: char) -> Option<OperatorType> {
    if c == '+' {
        Some(OperatorType::Plus)
    } else if c == '-' {
        Some(OperatorType::Minus)
    } else if c == '*' {
        Some(OperatorType::Multiply)
    } else if c == '/' {
        Some(OperatorType::Divide)
    } else if c == '%' {
        Some(OperatorType::Modulo)
    } else if c == '>' {
        Some(OperatorType::Bigger)
    } else if c == '<' {
        Some(OperatorType::Smaller)
    } else if c == '=' {
        Some(OperatorType::Equal)
    } else {
        None
    }
}

pub fn bracket_of(c: char) -> (r: Option<SignType>)
    ensures
        r == bracket(c),
{
    if c == '(' {
        Some(SignType::Paren(Direction::Open))
    } else if c == ')' {
        Some(SignType::Paren(Direction::Close))
    } else if c == '[' {
        Some(SignType::Brace(Direction::Open))
    } else if c == ']' {
        Some(SignType::Brace(Direction::Close))
    } else if c == '{' {
        Some(SignType::CurlyBrace(Direction::Open))
    } else if c == '}' {
        Some(SignType::CurlyBrace(Direction::Close))
    } else {
        None
    }
}

pub fn sign_of(c: char) -> (r: Option<SignType>)
    ensures
        r == simple_sign(c),
{
    if c == ',' {
        Some(SignType::Comma)
    } else if c == '.' {
        Some(SignType::Dot)
    } else if c == '_' {
        Some(SignType::Underscore)
    } else if c == ';' {
        Some(SignType::Semicolon)
    } else if c == '?' {
        Some(SignType::QuestionMk)
    } else if c == ':' {
        Some(SignType::Colon)
    } else if c == '!' {
        Some(SignType::ExclamationMk)
    } else if c == '#' {
        Some(SignType::HashSign)
    } else if c == '^' {
        Some(SignType::Caret)
    } else if c == '@' {
        Some(SignType::At)
    } else if c == '~' {
        Some(SignType::Tilde)
    } else {
        None
    }
}

pub fn operator_of(c: char) -> (r: Option<OperatorType>)
    ensures
        r == simple_operator(c),
{
    if c == '+' {
        Some(OperatorType::Plus)
    } else if c == '-' {
        Some(OperatorType::Minus)
    } else if c == '*' {
        Some(OperatorType::Multiply)
    } else if c == '/' {
        Some(OperatorType::Divide)
    } else if c == '%' {
        Some(OperatorType::Modulo)
    } else if c == '>' {
        Some(OperatorType::Bigger)
    } else if c == '<' {
        Some(OperatorType::Smaller)
    } else if c == '=' {
        Some(OperatorType::Equal)
    } else {
        None
    }
}

/// The first pair of the table of conversions, from place `from` on, whose
/// tokens are `last` and `next`: the token that the two are together.
pub open spec fn merged_from(last: TokenValue, next: TokenValue, from: int) -> Option<TokenValue>
    decreases conversion_table().len() - from,
{
    if from < 0 || from >= conversion_table().len() {
        None
    } else if conversion_table()[from].0.same(last) && conversion_table()[from].1.same(next) {
        Some(conversion_table()[from].2)
    } else {
        merged_from(last, next, from + 1)
    }
}

/// The token that `last` and `next`, written one after the other, are
/// together, where they are one.
pub fn merged(last: &TokenValue, next: &TokenValue) -> (r: Option<TokenValue>)
    ensures
        r == merged_from(*last, *next, 0),
{
    let table = two_element_signs_conversions();
    let mut i: usize = 0;
    while i < table.len()
        invariant
            i <= table@.len(),
            table@.len() == conversion_table().len(),
            forall|k: int|
                0 <= k < table@.len() ==> (#[trigger] table@[k]).first == conversion_table()[k].0
                    && table@[k].second == conversion_table()[k].1 && table@[k].result
                    == conversion_table()[k].2,
            merged_from(*last, *next, i as int) == merged_from(*last, *next, 0),
        decreases table@.len() - i,
    {
        if table[i].first == *last && table[i].second == *next {
            return Some(table[i].result.clone());
        }
        i = i + 1;
    }
    None
}

/// The token that two tokens, written one after the other, are together:
/// `++`, `--`, `->`, `<-`, `=>`, `>=`, `<=`, `->>`, `==`, `!=`, `//`, `:=`,
/// `?:`, `..`, `/>`, `~>` and `::`.
pub open spec fn merged_shape(last: TokenShape, next: TokenShape) -> Option<TokenShape> {
    match (last, next) {
        (TokenShape::Operator(OperatorType::Plus), TokenShape::Operator(OperatorType::Plus)) => Some(TokenShape::Operator(OperatorType::Increment)),
        (TokenShape::Operator(OperatorType::Minus), TokenShape::Operator(OperatorType::Minus)) => Some(TokenShape::Operator(OperatorType::Decrement)),
        (TokenShape::Operator(OperatorType::Minus), TokenShape::Operator(OperatorType::Bigger)) => Some(TokenShape::Sign(SignType::Arrow)),
        (TokenShape::Operator(OperatorType::Smaller), TokenShape::Operator(OperatorType::Minus)) => Some(TokenShape::Sign(SignType::BackwardArrow)),
        (TokenShape::Operator(OperatorType::Equal), TokenShape::Operator(OperatorType::Bigger)) => Some(TokenShape::Sign(SignType::EqArrow)),
        (TokenShape::Operator(OperatorType::Bigger), TokenShape::Operator(OperatorType::Equal)) => Some(TokenShape::Operator(OperatorType::BiggerEqual)),
        (TokenShape::Operator(OperatorType::Smaller), TokenShape::Operator(OperatorType::Equal)) => Some(TokenShape::Operator(OperatorType::SmallerEqual)),
        (TokenShape::Sign(SignType::Arrow), TokenShape::Operator(OperatorType::Bigger)) => Some(TokenShape::Sign(SignType::DoubleArrow)),
        (TokenShape::Operator(OperatorType::Equal), TokenShape::Operator(OperatorType::Equal)) => Some(TokenShape::Sign(SignType::Equality)),
        (TokenShape::Sign(SignType::ExclamationMk), TokenShape::Operator(OperatorType::Equal)) => Some(TokenShape::Sign(SignType::Inequality)),
        (TokenShape::Operator(OperatorType::Divide), TokenShape::Operator(OperatorType::Divide)) => Some(TokenShape::Sign(SignType::Comment)),
        (TokenShape::Sign(SignType::Colon), TokenShape::Operator(OperatorType::Equal)) => Some(TokenShape::Operator(OperatorType::SelfAssign)),
        (TokenShape::Sign(SignType::QuestionMk), TokenShape::Sign(SignType::Colon)) => Some(TokenShape::Operator(OperatorType::Repeat)),
        (TokenShape::Sign(SignType::Dot), TokenShape::Sign(SignType::Dot)) => Some(TokenShape::Sign(SignType::DoubleDot)),
        (TokenShape::Operator(OperatorType::Divide), TokenShape::Operator(OperatorType::Bigger)) => Some(TokenShape::Sign(SignType::SlashArrow)),
        (TokenShape::Sign(SignType::Tilde), TokenShape::Operator(OperatorType::Bigger)) => Some(TokenShape::Sign(SignType::TildeArrow)),
        (TokenShape::Sign(SignType::Colon), TokenShape::Sign(SignType::Colon)) => Some(TokenShape::Sign(SignType::DoubleColon)),
        _ => None,
    }
}

/// The table of conversions says what `merged_shape` says.
pub proof fn lemma_merged_is_the_table(last: TokenValue, next: TokenValue)
    ensures
        match merged_from(last, next, 0) {
            Some(v) => merged_shape(last.shape(), next.shape()) == Some(v.shape()),
            None => merged_shape(last.shape(), next.shape()) is None,
        },
{
    reveal_with_fuel(merged_from, 18);
}

/// Whether `c` may stand within a word.
pub open spec fn word_char(c: char) -> bool {
    (alphabetic(c) || numeric(c) || c == '_') && !skippable(c)
}

/// The end of the run of word characters that starts at `from`.
pub open spec fn word_end(chars: Seq<char>, from: int) -> int
    decreases chars.len() - from,
{
    if 0 <= from < chars.len() && word_char(chars[from]) {
        word_end(chars, from + 1)
    } else {
        from
    }
}

/// Whether the character at `k` goes on with a number: a digit, or a dot
/// that is not the first of two dots and not the last character.
pub open spec fn digit_char(chars: Seq<char>, k: int) -> bool {
    &&& 0 <= k < chars.len()
    &&& numeric(chars[k]) || chars[k] == '.'
    &&& !(chars[k] == '.' && (k + 1 >= chars.len() || chars[k + 1] == '.'))
    &&& !skippable(chars[k])
}

/// The end of the run of number characters that starts at `from`.
pub open spec fn number_end(chars: Seq<char>, from: int) -> int
    decreases chars.len() - from,
{
    if digit_char(chars, from) {
        number_end(chars, from + 1)
    } else {
        from
    }
}

/// The text that is handed to the number parser for the number at
/// `chars[from..end]`: a number of more than one character that has no dot
/// gets `.0` at its end.
pub open spec fn number_text(chars: Seq<char>, from: int, end: int) -> Seq<char> {
    let text = chars.subrange(from, end);
    if end - from > 1 && !text.contains('.') {
        text + seq!['.', '0']
    } else {
        text
    }
}

/// Whether a word starts at `i`: with a character that is alphabetic and
/// not numeric, or with any character that stands before an underscore.
pub open spec fn starts_word(chars: Seq<char>, i: int) -> bool {
    (alphabetic(chars[i]) && !numeric(chars[i])) || (i + 1 < chars.len() && chars[i + 1] == '_')
}

/// `tokens` with the token `next` at its end, as one token with the last
/// token where the two are one.
pub open spec fn joined(tokens: Seq<TokenModel>, next: TokenShape, line: nat, column: nat) -> Seq<
    TokenModel,
> {
    if tokens.len() > 0 && merged_shape(tokens.last().value, next) is Some {
        tokens.drop_last().push(
            TokenModel { line, column, value: merged_shape(tokens.last().value, next)->0 },
        )
    } else {
        tokens.push(TokenModel { line, column, value: next })
    }
}

/// What the lexer does with the character at `i` outside of a string: the
/// place of the next character to look at, and the tokens after it.
pub open spec fn lex_token(
    chars: Seq<char>,
    i: int,
    tokens: Seq<TokenModel>,
    line: nat,
    column: nat,
) -> (int, Seq<TokenModel>) {
    let c = chars[i];
    if skippable(c) {
        (i + 1, tokens.push(TokenModel { line, column, value: TokenShape::Skip }))
    } else if bracket(c) is Some {
        (i + 1, tokens.push(TokenModel { line, column, value: TokenShape::Sign(bracket(c)->0) }))
    } else if simple_sign(c) is Some {
        (i + 1, joined(tokens, TokenShape::Sign(simple_sign(c)->0), line, column))
    } else if simple_operator(c) is Some {
        (i + 1, joined(tokens, TokenShape::Operator(simple_operator(c)->0), line, column))
    } else if starts_word(chars, i) {
        let end = word_end(chars, i + 1);
        (
            end,
            tokens.push(TokenModel { line, column, value: word_shape(chars.subrange(i, end)) }),
        )
    } else if numeric(c) {
        let end = number_end(chars, i + 1);
        (
            end,
            tokens.push(
                TokenModel {
                    line,
                    column,
                    value: TokenShape::Number(number_text(chars, i, end)),
                },
            ),
        )
    } else {
        (i + 1, tokens)
    }
}

/// What the lexer does with the character at `i`: the place of the next
/// character to look at, and the state after it. A quote that does not
/// follow a backslash opens or closes a string; within a string every other
/// character is part of it.
pub open spec fn lex_one(chars: Seq<char>, i: int, st: LexState) -> (int, LexState) {
    let c = chars[i];
    let line = if c == '\n' {
        st.line + 1
    } else {
        st.line
    };
    let column = if c == '\n' {
        0
    } else {
        st.column + 1
    };
    if c == '"' && st.prev != '\\' {
        if st.making_string {
            (
                i + 1,
                LexState {
                    tokens: st.tokens.push(
                        TokenModel {
                            line,
                            column,
                            value: TokenShape::String(unescaped(st.string)),
                        },
                    ),
                    making_string: false,
                    string: Seq::empty(),
                    prev: c,
                    line,
                    column,
                },
            )
        } else {
            (
                i + 1,
                LexState {
                    tokens: st.tokens,
                    making_string: true,
                    string: st.string,
                    prev: c,
                    line,
                    column,
                },
            )
        }
    } else if st.making_string {
        (
            i + 1,
            LexState {
                tokens: st.tokens,
                making_string: true,
                string: st.string.push(c),
                prev: c,
                line,
                column,
            },
        )
    } else {
        let (next, tokens) = lex_token(chars, i, st.tokens, line, column);
        (
            next,
            LexState { tokens, making_string: false, string: st.string, prev: c, line, column },
        )
    }
}

/// The state of the lexer after the characters from `i` on, from the state
/// `st`.
pub open spec fn lex(chars: Seq<char>, i: int, st: LexState) -> LexState
    decreases chars.len() - i,
{
    if 0 <= i < lex_one(chars, i, st).0 <= chars.len() {
        lex(chars, lex_one(chars, i, st).0, lex_one(chars, i, st).1)
    } else {
        st
    }
}

/// The state in which the lexer starts.
pub open spec fn lex_start() -> LexState {
    LexState {
        tokens: Seq::empty(),
        making_string: false,
        string: Seq::empty(),
        prev: '\r',
        line: 1,
        column: 0,
    }
}

/// The first `n` of `tokens` without the white space.
pub open spec fn without_skips(tokens: Seq<TokenModel>, n: nat) -> Seq<TokenModel>
    decreases n,
{
    if n == 0 {
        Seq::empty()
    } else if tokens[n - 1].value is Skip {
        without_skips(tokens, (n - 1) as nat)
    } else {
        without_skips(tokens, (n - 1) as nat).push(tokens[n - 1])
    }
}

/// The tokens of the text `chars`: those that the lexer finds, without the
/// white space, and the end token where the text ends.
pub open spec fn tokens_of(chars: Seq<char>) -> Seq<TokenModel> {
    let end = lex(chars, 0, lex_start());
    without_skips(end.tokens, end.tokens.len()).push(
        TokenModel { line: end.line, column: end.column, value: TokenShape::End },
    )
}

/// `n` is an answer of `numbers` to the text `text` of a number.
pub open spec fn spelled<P: NumberParser>(numbers: P, text: Seq<char>, n: Number) -> bool {
    exists|s: String|
        s@ == text && #[trigger] call_ensures(P::parse_number, (&numbers, &s), Some(n))
}

/// Whether the tokens `tokens`, all of the file `file_name`, are what
/// `model` says, each number as `numbers` read it.
pub open spec fn are_tokens<P: NumberParser>(
    tokens: Seq<Token>,
    model: Seq<TokenModel>,
    file_name: String,
    numbers: P,
) -> bool {
    &&& tokens.len() == model.len()
    &&& forall|k: int|
        0 <= k < tokens.len() ==> {
            let token = #[trigger] tokens[k];
            &&& token.line == model[k].line
            &&& token.column == model[k].column
            &&& token.file_name == file_name
            &&& token.value.reads(model[k].value, numbers)
        }
}

/// The keyword, the boolean or the identifier that `text` spells.
pub open spec fn word_shape(text: Seq<char>) -> TokenShape {
    if map_of(keyword_table()).contains_key(text) {
        TokenShape::Keyword(map_of(keyword_table())[text])
    } else if text == "true"@ {
        TokenShape::Boolean(true)
    } else if text == "false"@ {
        TokenShape::Boolean(false)
    } else {
        TokenShape::Identifier(text)
    }
}

impl TokenValue {
    /// What the token is. A number has no text.
    pub open spec fn shape(self) -> TokenShape {
        match self {
            TokenValue::Number(_) => TokenShape::Number(Seq::empty()),
            TokenValue::String(s) => TokenShape::String(s@),
            TokenValue::Boolean(b) => TokenShape::Boolean(b),
            TokenValue::Identifier(s) => TokenShape::Identifier(s@),
            TokenValue::Keyword(k) => TokenShape::Keyword(k),
            TokenValue::Operator(o) => TokenShape::Operator(o),
            TokenValue::Sign(s) => TokenShape::Sign(s),
            TokenValue::Skip => TokenShape::Skip,
            TokenValue::End => TokenShape::End,
        }
    }

    /// Whether the token is what `shape` says. Where the shape is the text
    /// of a number, the token is a number that `numbers` answered to that
    /// text.
    pub open spec fn reads<P: NumberParser>(self, shape: TokenShape, numbers: P) -> bool {
        match shape {
            TokenShape::Number(text) => self matches TokenValue::Number(n) && spelled(
                numbers,
                text,
                n,
            ),
            _ => self.shape() == shape,
        }
    }
}

/// The keyword, the boolean or the identifier that `input` spells.
pub fn resolve_string_to_token(input: String) -> (r: TokenValue)
    ensures
        r.shape() == word_shape(input@),
{
    let keywords = reserved_keywords();
    match keywords.get(&input) {
        Some(keyword) => TokenValue::Keyword(*keyword),
        None => {
            if crate::global::is_text(&input, "true") {
                TokenValue::Boolean(true)
            } else if crate::global::is_text(&input, "false") {
                TokenValue::Boolean(false)
            } else {
                TokenValue::Identifier(input)
            }
        },
    }
}

/// `s` with every backslash that stands before a quote taken out.
pub open spec fn unescaped(s: Seq<char>) -> Seq<char>
    decreases s.len(),
{
    if s.len() == 0 {
        s
    } else if s.len() >= 2 && s[0] == '\\' && s[1] == '"' {
        seq!['"'] + unescaped(s.skip(2))
    } else {
        seq![s[0]] + unescaped(s.skip(1))
    }
}

/// `chars` with every backslash that stands before a quote taken out.
pub fn unescape(chars: &Vec<char>) -> (r: String)
    ensures
        r@ == unescaped(chars@),
{
    let mut r = String::new();
    let mut i: usize = 0;
    assert(chars@.skip(0) =~= chars@);
    assert(r@ + unescaped(chars@) =~= unescaped(chars@));
    while i < chars.len()
        invariant
            i <= chars@.len(),
            r@ + unescaped(chars@.skip(i as int)) == unescaped(chars@),
        decreases chars@.len() - i,
    {
        let ghost rest = chars@.skip(i as int);
        let ghost before = r@;
        if chars[i] == '\\' && i + 1 < chars.len() && chars[i + 1] == '"' {
            push_char(&mut r, '"');
            proof {
                assert(rest.skip(2) =~= chars@.skip(i + 2));
                assert(unescaped(rest) == seq!['"'] + unescaped(rest.skip(2)));
                assert(r@ + unescaped(chars@.skip(i + 2)) =~= before + unescaped(rest));
            }
            i = i + 2;
        } else {
            push_char(&mut r, chars[i]);
            proof {
                assert(rest.skip(1) =~= chars@.skip(i + 1));
                assert(unescaped(rest) == seq![rest[0]] + unescaped(rest.skip(1)));
                assert(r@ + unescaped(chars@.skip(i + 1)) =~= before + unescaped(rest));
            }
            i = i + 1;
        }
    }
    assert(chars@.skip(chars@.len() as int) =~= Seq::<char>::empty());
    assert(r@ + Seq::<char>::empty() =~= r@);
    r
}

/// The lexer between two characters.
pub struct Lexer {
    pub tokens: Vec<Token>,
    pub making_string: bool,
    pub string: Vec<char>,
    pub prev: char,
    pub line: usize,
    pub column: usize,
    pub file_name: String,
}

impl Lexer {
    /// Whether the lexer is in the state `st`.
    pub open spec fn models<P: NumberParser>(self, st: LexState, numbers: P) -> bool {
        &&& are_tokens(self.tokens@, st.tokens, self.file_name, numbers)
        &&& self.making_string == st.making_string
        &&& self.string@ == st.string
        &&& self.prev == st.prev
        &&& self.line == st.line
        &&& self.column == st.column
    }

    /// Adds a token at the place where the lexer stands.
    fn push<P: NumberParser>(
        &mut self,
        value: TokenValue,
        Ghost(model): Ghost<Seq<TokenModel>>,
        Ghost(shape): Ghost<TokenShape>,
        Ghost(numbers): Ghost<P>,
    )
        requires
            are_tokens(old(self).tokens@, model, old(self).file_name, numbers),
            value.reads(shape, numbers),
        ensures
            are_tokens(
                final(self).tokens@,
                model.push(
                    TokenModel {
                        line: old(self).line as nat,
                        column: old(self).column as nat,
                        value: shape,
                    },
                ),
                old(self).file_name,
                numbers,
            ),
            final(self).making_string == old(self).making_string,
            final(self).string == old(self).string,
            final(self).prev == old(self).prev,
            final(self).line == old(self).line,
            final(self).column == old(self).column,
            final(self).file_name == old(self).file_name,
    {
        let token = Token {
            file_name: self.file_name.clone(),
            line: self.line,
            column: self.column,
            value,
        };
        self.tokens.push(token);
    }

    /// Adds the sign or operator `value`, as one token with the last token
    /// where the two are one.
    fn join<P: NumberParser>(
        &mut self,
        value: TokenValue,
        Ghost(model): Ghost<Seq<TokenModel>>,
        Ghost(numbers): Ghost<P>,
    )
        requires
            are_tokens(old(self).tokens@, model, old(self).file_name, numbers),
            value is Sign || value is Operator,
        ensures
            are_tokens(
                final(self).tokens@,
                joined(model, value.shape(), old(self).line as nat, old(self).column as nat),
                old(self).file_name,
                numbers,
            ),
            final(self).making_string == old(self).making_string,
            final(self).string == old(self).string,
            final(self).prev == old(self).prev,
            final(self).line == old(self).line,
            final(self).column == old(self).column,
            final(self).file_name == old(self).file_name,
    {
        let n = self.tokens.len();
        let together = if n > 0 {
            proof {
                lemma_merged_is_the_table(self.tokens@[n - 1].value, value);
            }
            merged(&self.tokens[n - 1].value, &value)
        } else {
            None
        };
        match together {
            Some(one) => {
                let _ = self.tokens.pop();
                assert(are_tokens(self.tokens@, model.drop_last(), self.file_name, numbers));
                self.push::<P>(one, Ghost(model.drop_last()), Ghost(one.shape()), Ghost(numbers));
            },
            None => {
                self.push::<P>(value, Ghost(model), Ghost(value.shape()), Ghost(numbers));
            },
        }
    }
}

/// The end of the word whose characters after the first start at `from`.
fn scan_word(chars: &Vec<char>, from: usize) -> (end: usize)
    requires
        from <= chars@.len(),
    ensures
        end == word_end(chars@, from as int),
        from <= end <= chars@.len(),
{
    let mut end = from;
    while end < chars.len()
        invariant
            from <= end <= chars@.len(),
            word_end(chars@, end as int) == word_end(chars@, from as int),
        decreases chars@.len() - end,
    {
        let c = chars[end];
        if (is_alphabetic(c) || is_numeric(c) || c == '_') && !is_skippable(c) {
            end = end + 1;
        } else {
            return end;
        }
    }
    end
}

/// Whether the character at `k` goes on with a number.
fn is_digit_char(chars: &Vec<char>, k: usize) -> (r: bool)
    ensures
        r == digit_char(chars@, k as int),
{
    if k >= chars.len() {
        return false;
    }
    let c = chars[k];
    if !(is_numeric(c) || c == '.') {
        return false;
    }
    if c == '.' && (k + 1 >= chars.len() || chars[k + 1] == '.') {
        return false;
    }
    !is_skippable(c)
}

/// The end of the number whose characters after the first start at `from`.
fn scan_number(chars: &Vec<char>, from: usize) -> (end: usize)
    requires
        from <= chars@.len(),
    ensures
        end == number_end(chars@, from as int),
        from <= end <= chars@.len(),
{
    let mut end = from;
    while end < chars.len()
        invariant
            from <= end <= chars@.len(),
            number_end(chars@, end as int) == number_end(chars@, from as int),
        decreases chars@.len() - end,
    {
        if is_digit_char(chars, end) {
            end = end + 1;
        } else {
            return end;
        }
    }
    end
}

/// The text that is handed to the number parser for the number at
/// `chars[from..end]`.
fn number_string(chars: &Vec<char>, from: usize, end: usize) -> (r: String)
    requires
        from <= end <= chars@.len(),
    ensures
        r@ == number_text(chars@, from as int, end as int),
{
    let mut text = text_of(chars, from, end);
    if end - from > 1 {
        let mut dotted = false;
        let mut k = from;
        while k < end
            invariant
                from <= k <= end <= chars@.len(),
                dotted == chars@.subrange(from as int, k as int).contains('.'),
            decreases end - k,
        {
            let ghost seen = chars@.subrange(from as int, k as int);
            let ghost more = chars@.subrange(from as int, k + 1);
            proof {
                assert(more =~= seen.push(chars@[k as int]));
                if seen.contains('.') {
                    let w = choose|w: int| 0 <= w < seen.len() && seen[w] == '.';
                    assert(more[w] == '.');
                }
                if chars@[k as int] == '.' {
                    assert(more[k - from] == '.');
                }
                if more.contains('.') {
                    let w = choose|w: int| 0 <= w < more.len() && more[w] == '.';
                    if w < seen.len() {
                        assert(seen[w] == '.');
                    }
                }
            }
            if chars[k] == '.' {
                dotted = true;
            }
            k = k + 1;
        }
        if !dotted {
            push_char(&mut text, '.');
            push_char(&mut text, '0');
            assert(text@ =~= chars@.subrange(from as int, end as int) + seq!['.', '0']);
        }
    }
    text
}

/// What the lexer does with the character at `i`.
fn lex_step<P: NumberParser>(
    chars: &Vec<char>,
    i: usize,
    lexer: &mut Lexer,
    numbers: &P,
    Ghost(st): Ghost<LexState>,
) -> (r: Result<usize, LexError>)
    requires
        i < chars@.len(),
        chars@.len() < usize::MAX,
        old(lexer).models(st, *numbers),
        st.column <= i,
        st.line <= i + 1,
    ensures
        final(lexer).file_name == old(lexer).file_name,
        lex_one(chars@, i as int, st).1.column <= i + 1,
        lex_one(chars@, i as int, st).1.line <= i + 2,
        r matches Ok(next) ==> next == lex_one(chars@, i as int, st).0 && i < next <= chars@.len()
            && final(lexer).models(lex_one(chars@, i as int, st).1, *numbers),
        r is Err ==> (r matches Err(LexError::BadNumber)),
        r is Err ==> i < lex_one(chars@, i as int, st).0 <= chars@.len() && lex_one(
            chars@,
            i as int,
            st,
        ).1.tokens.len() > 0 && lex_one(chars@, i as int, st).1.tokens.last().value is Number,
{
    let n = chars.len();
    let c = chars[i];
    if c == '\n' {
        lexer.column = 0;
        lexer.line = lexer.line + 1;
    } else {
        lexer.column = lexer.column + 1;
    }
    if c == '"' && lexer.prev != '\\' {
        lexer.prev = c;
        if lexer.making_string {
            lexer.making_string = false;
            let text = unescape(&lexer.string);
            lexer.string = Vec::new();
            lexer.push::<P>(
                TokenValue::String(text),
                Ghost(st.tokens),
                Ghost(TokenShape::String(unescaped(st.string))),
                Ghost(*numbers),
            );
        } else {
            lexer.making_string = true;
        }
        return Ok(i + 1);
    }
    lexer.prev = c;
    if lexer.making_string {
        lexer.string.push(c);
        return Ok(i + 1);
    }
    if is_skippable(c) {
        lexer.push::<P>(TokenValue::Skip, Ghost(st.tokens), Ghost(TokenShape::Skip), Ghost(*numbers));
        return Ok(i + 1);
    }
    match bracket_of(c) {
        Some(sign) => {
            lexer.push::<P>(
                TokenValue::Sign(sign),
                Ghost(st.tokens),
                Ghost(TokenShape::Sign(sign)),
                Ghost(*numbers),
            );
            return Ok(i + 1);
        },
        None => {},
    }
    match sign_of(c) {
        Some(sign) => {
            lexer.join::<P>(TokenValue::Sign(sign), Ghost(st.tokens), Ghost(*numbers));
            return Ok(i + 1);
        },
        None => {},
    }
    match operator_of(c) {
        Some(operator) => {
            lexer.join::<P>(TokenValue::Operator(operator), Ghost(st.tokens), Ghost(*numbers));
            return Ok(i + 1);
        },
        None => {},
    }
    let numeric_start = is_numeric(c);
    if (is_alphabetic(c) && !numeric_start) || (i + 1 < chars.len() && chars[i + 1] == '_') {
        let end = scan_word(chars, i + 1);
        let word = resolve_string_to_token(text_of(chars, i, end));
        lexer.push::<P>(
            word,
            Ghost(st.tokens),
            Ghost(word_shape(chars@.subrange(i as int, end as int))),
            Ghost(*numbers),
        );
        return Ok(end);
    }
    if numeric_start {
        let end = scan_number(chars, i + 1);
        let text = number_string(chars, i, end);
        match numbers.parse_number(&text) {
            Some(number) => {
                assert(spelled(*numbers, number_text(chars@, i as int, end as int), number)) by {
                    assert(text@ == number_text(chars@, i as int, end as int));
                    assert(call_ensures(P::parse_number, (numbers, &text), Some(number)));
                }
                lexer.push::<P>(
                    TokenValue::Number(number),
                    Ghost(st.tokens),
                    Ghost(TokenShape::Number(number_text(chars@, i as int, end as int))),
                    Ghost(*numbers),
                );
                return Ok(end);
            },
            None => {
                return Err(LexError::BadNumber);
            },
        }
    }
    Ok(i + 1)
}

/// The tokens without the white space.
fn drop_skips<P: NumberParser>(
    tokens: Vec<Token>,
    Ghost(model): Ghost<Seq<TokenModel>>,
    Ghost(file_name): Ghost<String>,
    Ghost(numbers): Ghost<P>,
) -> (r: VecDeque<Token>)
    requires
        are_tokens(tokens@, model, file_name, numbers),
    ensures
        are_tokens(r@, without_skips(model, model.len()), file_name, numbers),
{
    let mut r: VecDeque<Token> = VecDeque::new();
    let mut tokens = tokens;
    let mut k: usize = 0;
    let n = tokens.len();
    while k < n
        invariant
            k <= n,
            n == tokens@.len(),
            n == model.len(),
            forall|j: int|
                k <= j < n ==> {
                    let token = #[trigger] tokens@[j];
                    &&& token.line == model[j].line
                    &&& token.column == model[j].column
                    &&& token.file_name == file_name
                    &&& token.value.reads(model[j].value, numbers)
                },
            are_tokens(r@, without_skips(model, k as nat), file_name, numbers),
        decreases n - k,
    {
        let mut taken = Token {
            file_name: String::new(),
            line: 0,
            column: 0,
            value: TokenValue::Skip,
        };
        let ghost before = tokens@;
        std::mem::swap(&mut taken, &mut tokens[k]);
        assert forall|j: int| k + 1 <= j < n implies {
            let token = #[trigger] tokens@[j];
            &&& token.line == model[j].line
            &&& token.column == model[j].column
            &&& token.file_name == file_name
            &&& token.value.reads(model[j].value, numbers)
        } by {
            assert(tokens@[j] == before[j]);
        }
        let skip = match &taken.value {
            TokenValue::Skip => true,
            _ => false,
        };
        if !skip {
            r.push_back(taken);
        }
        k = k + 1;
    }
    r
}

/// Whether one of `tokens` is a number.
pub open spec fn holds_number(tokens: Seq<TokenModel>) -> bool {
    exists|k: int| 0 <= k < tokens.len() && (#[trigger] tokens[k]).value is Number
}

/// A number among the tokens stays where it is when the lexer goes on by
/// one step.
proof fn lemma_step_keeps_number(chars: Seq<char>, i: int, st: LexState, k: int)
    requires
        0 <= i < chars.len(),
        0 <= k < st.tokens.len(),
        st.tokens[k].value is Number,
    ensures
        k < lex_one(chars, i, st).1.tokens.len(),
        lex_one(chars, i, st).1.tokens[k] == st.tokens[k],
{
}

/// A number among the tokens stays where it is to the end of the text.
proof fn lemma_lex_keeps_number(chars: Seq<char>, i: int, st: LexState, k: int)
    requires
        0 <= k < st.tokens.len(),
        st.tokens[k].value is Number,
    ensures
        k < lex(chars, i, st).tokens.len(),
        lex(chars, i, st).tokens[k] == st.tokens[k],
    decreases chars.len() - i,
{
    if 0 <= i < lex_one(chars, i, st).0 <= chars.len() {
        lemma_step_keeps_number(chars, i, st, k);
        lemma_lex_keeps_number(chars, lex_one(chars, i, st).0, lex_one(chars, i, st).1, k);
    }
}

/// A number stays among the tokens when the white space is taken out.
proof fn lemma_without_skips_keeps_number(tokens: Seq<TokenModel>, n: nat, k: int)
    requires
        0 <= k < n <= tokens.len(),
        tokens[k].value is Number,
    ensures
        holds_number(without_skips(tokens, n)),
    decreases n,
{
    if k == n - 1 {
        let kept = without_skips(tokens, n);
        assert(kept[kept.len() - 1] == tokens[k]);
    } else {
        lemma_without_skips_keeps_number(tokens, (n - 1) as nat, k);
        let shorter = without_skips(tokens, (n - 1) as nat);
        let j = choose|j: int| 0 <= j < shorter.len() && (#[trigger] shorter[j]).value is Number;
        let kept = without_skips(tokens, n);
        assert(kept[j] == shorter[j]);
    }
}

/// The pattern of a comment: two slashes and what follows them on the
/// line.
pub open spec fn comment_pattern() -> Seq<char> {
    "(\\/\\/).*"@
}

/// `text` without its comments.
pub open spec fn stripped(text: Seq<char>) -> Seq<char> {
    replaced(comment_pattern(), text, ""@)
}

/// The tokens of the text `raw_input` of the file `file_name`: comments
/// are taken out of the text first, and the end token is the last one.
/// Where the engine takes the pattern of a comment, a text that is not too
/// long has its tokens unless `numbers` refuses one of its numbers.
pub fn tokenize<P: NumberParser>(file_name: String, raw_input: String, numbers: &P) -> (r: Result<
    VecDeque<Token>,
    LexError,
>)
    ensures
        r matches Ok(tokens) ==> are_tokens(
            tokens@,
            tokens_of(stripped(raw_input@)),
            file_name,
            *numbers,
        ),
        (r matches Err(LexError::BadPattern)) <==> !compiles(comment_pattern()),
        compiles(comment_pattern()) ==> ((r matches Err(LexError::TooLong)) <==> stripped(
            raw_input@,
        ).len() >= usize::MAX),
        (r matches Err(LexError::BadNumber)) ==> holds_number(tokens_of(stripped(raw_input@))),
        compiles(comment_pattern()) && stripped(raw_input@).len() < usize::MAX && !holds_number(
            tokens_of(stripped(raw_input@)),
        ) ==> r is Ok,
{
    let comments = match compile("(\\/\\/).*") {
        Some(re) => re,
        None => { return Err(LexError::BadPattern); },
    };
    let input = replace_all(&comments, raw_input.as_str(), "");
    lex_text(file_name, input, numbers)
}

/// The tokens of the text `input` of the file `file_name`, which holds no
/// comments; the end token is the last one. A text of `usize::MAX`
/// characters is too long; any other text has its tokens unless `numbers`
/// refuses one of its numbers.
pub fn lex_text<P: NumberParser>(file_name: String, input: String, numbers: &P) -> (r: Result<
    VecDeque<Token>,
    LexError,
>)
    ensures
        r matches Ok(tokens) ==> are_tokens(tokens@, tokens_of(input@), file_name, *numbers),
        r matches Err(e) ==> e is TooLong || e is BadNumber,
        input@.len() >= usize::MAX <==> (r matches Err(LexError::TooLong)),
        (r matches Err(LexError::BadNumber)) ==> holds_number(tokens_of(input@)),
        input@.len() < usize::MAX && !holds_number(tokens_of(input@)) ==> r is Ok,
{
    let chars = chars_of(input.as_str());
    if chars.len() == usize::MAX {
        return Err(LexError::TooLong);
    }
    let mut lexer = Lexer {
        tokens: Vec::new(),
        making_string: false,
        string: Vec::new(),
        prev: '\r',
        line: 1,
        column: 0,
        file_name: file_name.clone(),
    };
    let ghost mut st = lex_start();
    let mut i: usize = 0;
    while i < chars.len()
        invariant
            i <= chars@.len(),
            chars@ == input@,
            chars@.len() < usize::MAX,
            lexer.models(st, *numbers),
            lexer.file_name == file_name,
            st.column <= i,
            st.line <= i + 1,
            lex(chars@, i as int, st) == lex(chars@, 0, lex_start()),
        decreases chars@.len() - i,
    {
        match lex_step(&chars, i, &mut lexer, numbers, Ghost(st)) {
            Ok(next) => {
                proof {
                    st = lex_one(chars@, i as int, st).1;
                }
                i = next;
            },
            Err(e) => {
                proof {
                    let next = lex_one(chars@, i as int, st);
                    let k = next.1.tokens.len() - 1;
                    lemma_lex_keeps_number(chars@, next.0, next.1, k);
                    let end = lex(chars@, 0, lex_start());
                    assert(end == lex(chars@, next.0, next.1));
                    lemma_without_skips_keeps_number(end.tokens, end.tokens.len(), k);
                    let kept = without_skips(end.tokens, end.tokens.len());
                    let j = choose|j: int|
                        0 <= j < kept.len() && (#[trigger] kept[j]).value is Number;
                    assert(tokens_of(chars@)[j] == kept[j]);
                }
                return Err(e);
            },
        }
    }
    let line = lexer.line;
    let column = lexer.column;
    let mut tokens = drop_skips::<P>(
        lexer.tokens,
        Ghost(st.tokens),
        Ghost(file_name),
        Ghost(*numbers),
    );
    tokens.push_back(Token { value: TokenValue::End, line, column, file_name });
    Ok(tokens)
}

} // verus!
