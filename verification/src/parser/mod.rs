//! The parser: from the tokens of a module to its syntax tree.
//!
//! The parser reads no file and prints nothing. What it has to say goes to
//! its list of diagnostics, and the modules that the text imports go to its
//! list of imports, for the embedding program to load.

pub mod grammar;
pub mod structs;

use crate::collections::StrMap;
use crate::global::{is_text, ComplexDataType, DataType, NumType, PrimitiveDataType};
use crate::interpreter::scope::{args_insert, args_new, params_of, FnArgs};
use crate::lexer::structs::{Direction, KeywordType, OperatorType, SignType, Token, TokenValue};
use crate::lexer::{
    are_tokens,
    comment_pattern,
    compiles,
    holds_number,
    push_char,
    stripped,
    tokenize,
    tokens_of,
    LexError,
    NumberParser,
};
use crate::modules::{Module, ModuleStorage};
use crate::parser::grammar::{
    accessor,
    arrow_calls,
    arrow_calls_rest,
    assignment,
    assignment_rest,
    binary_of,
    binding,
    block,
    block_rest,
    branch,
    call,
    call_args,
    call_args_rest,
    comparisons,
    comparisons_rest,
    creation,
    creation_field,
    creation_fields,
    creation_fields_rest,
    data_type,
    declaration,
    depict_all,
    depicts,
    depicts_branch,
    depicts_field,
    depicts_method,
    enum_entries,
    enum_entries_rest,
    enumeration,
    equalities,
    equalities_rest,
    exported,
    field_access,
    firsts,
    for_loop,
    function,
    function_rest,
    import,
    inner_mix,
    layout,
    layout_field,
    layout_fields,
    layout_fields_rest,
    lemma_function_has_a_block,
    lemma_layout_comes_first,
    lemma_put_field,
    lemma_put_value,
    lists_fields,
    lists_values,
    method,
    mix,
    mix_rest,
    module,
    named_type,
    native,
    once,
    once_rest,
    parameter,
    parameters,
    parameters_rest,
    path_of,
    primary,
    program,
    products,
    products_rest,
    put,
    ranges,
    ranges_rest,
    repeat,
    self_assignment,
    statement,
    sums,
    sums_rest,
    target_of,
    Tree,
};
use crate::parser::structs::{
    ASTNode,
    AssignmentProperty,
    BinaryExpression,
    ExpressionType,
    FieldParserDescription,
    ForStatement,
    IfStatement,
    LayoutCreation,
    LayoutDeclaration,
    OnceStatement,
    Operand,
    ParserFunctionData,
    UseNative,
};
use crate::util::share;
use std::collections::VecDeque;
use std::sync::Arc;
use vstd::prelude::*;
use vstd::string::StringExecFns;

verus! {

/// What the parser found wrong.
#[derive(Clone, Copy, Debug, PartialEq, Eq, Structural)]
pub enum ParseError {
    /// No identifier after `let`.
    ExpectedVariableName,
    /// `immut` without `let` after it.
    ExpectedLet,
    /// An immutable variable without a type.
    ImmutableWithoutType,
    /// An immutable variable without a value.
    ImmutableWithoutValue,
    /// No identifier after `fn`.
    ExpectedFunctionName,
    /// No `(` where the parameters or the arguments should start.
    ExpectedOpeningParen,
    /// No `->` after the parameters.
    ExpectedArrow,
    /// No `{` where a block should start.
    ExpectedCodeBlock,
    /// No `:` after the name of a parameter.
    ExpectedParameterColon,
    /// No identifier where a parameter should stand.
    ExpectedParameterName,
    /// No identifier where the path of a module should start.
    ExpectedModulePath,
    /// No `~>` after the path of a module.
    ExpectedTildeArrow,
    /// No identifier where the imported symbol should stand.
    ExpectedImportSymbol,
    /// No `fn` after `use native`.
    ExpectedNativeFn,
    /// No identifier after `use native fn`.
    ExpectedNativeName,
    /// No `#` after the name of a native function.
    ExpectedHashSign,
    /// No string where the path of a native function should stand.
    ExpectedNativePath,
    /// No identifier after `^`.
    ExpectedBindingName,
    /// No identifier after `->`.
    ExpectedEntryName,
    /// No identifier after `enum`.
    ExpectedEnumName,
    /// No `{` where one is needed.
    ExpectedOpeningBrace,
    /// No `}` where one is needed.
    ExpectedClosingBrace,
    /// No identifier after `layout`.
    ExpectedLayoutName,
    /// No `:` after the name of a field.
    ExpectedFieldColon,
    /// No identifier where the type of a field should stand.
    ExpectedFieldType,
    /// No `=` after the name of a field of a new instance.
    ExpectedFieldValue,
    /// No identifier after `.`.
    ExpectedFieldName,
    /// No identifier where a type should stand.
    ExpectedDataType,
    /// No identifier after `mix`.
    ExpectedMixTarget,
    /// Something other than a function or a layout after `exp`.
    UnsupportedExport,
    /// Something that cannot be assigned to on the left of an assignment.
    NotAssignable,
    /// Nothing to assign to after `:=`.
    ExpectedAssignmentTarget,
    /// The text nests deeper than the parser goes.
    TooDeep,
}

/// Something that the parser found wrong, and where.
#[derive(Debug)]
pub struct Diagnostic {
    pub kind: ParseError,
    pub file_name: String,
    pub line: usize,
    pub column: usize,
}

/// How deep the parser follows the nesting of a text, if not told
/// otherwise.
pub const DEFAULT_NESTING_LIMIT: usize = 128;

/// A parser over the tokens of one module.
#[derive(Debug)]
pub struct Parser {
    pub tokens: Vec<Token>,
    /// The place of the token that is read next.
    pub position: usize,
    /// The token that was read last.
    pub last: Token,
    pub module: Module,
    pub should_end: bool,
    pub diagnostics: Vec<Diagnostic>,
    /// The paths of the modules that the text imports, in the order of the
    /// imports.
    pub imports: Vec<String>,
    pub depth_limit: usize,
}

/// `VecDeque::pop_front` until the queue is empty: the tokens in their
/// order.
fn drain(tokens: VecDeque<Token>) -> (r: Vec<Token>)
    ensures
        r@ == tokens@,
{
    let mut tokens = tokens;
    let mut r: Vec<Token> = Vec::new();
    let ghost all = tokens@;
    while tokens.len() > 0
        invariant
            r@ + tokens@ == all,
        decreases tokens@.len(),
    {
        let ghost before = tokens@;
        match tokens.pop_front() {
            Some(t) => {
                r.push(t);
                assert(r@ + tokens@ =~= all) by {
                    assert(before =~= seq![t] + tokens@);
                }
            },
            None => {},
        }
    }
    assert(r@ + tokens@ =~= r@);
    r
}

impl Parser {
    /// The parser does not stand behind its tokens.
    pub open spec fn wf(self) -> bool {
        self.position <= self.tokens@.len()
    }

    /// The token that stands for the end of the text.
    pub open spec fn end_token(self) -> Token {
        Token { value: TokenValue::End, line: 0, column: 0, file_name: self.module.name }
    }

    /// The token that is read next.
    pub open spec fn current(self) -> Token {
        if self.position < self.tokens@.len() {
            self.tokens@[self.position as int]
        } else {
            self.end_token()
        }
    }

    /// Whether the text has ended.
    pub open spec fn at_end(self) -> bool {
        self.position >= self.tokens@.len() || self.tokens@[self.position as int].value is End
    }

    /// `later` is `self` further on in the same tokens.
    pub open spec fn advances_to(self, later: Parser) -> bool {
        &&& later.tokens == self.tokens
        &&& self.position <= later.position <= later.tokens@.len()
        &&& later.depth_limit == self.depth_limit
        &&& later.module.name == self.module.name
        &&& later.module.scope == self.module.scope
        &&& later.module.cached_result == self.module.cached_result
        &&& later.diagnostics@.len() >= self.diagnostics@.len()
        &&& extends(later.imports@, self.imports@)
        &&& later.should_end ==> self.should_end || later.diagnostics@.len()
            > self.diagnostics@.len()
    }

    /// The module of `later` marks what `tree` declares for export: a
    /// function as a method that is not tied, a layout as it was declared.
    pub open spec fn exports(self, later: Parser, tree: Tree) -> bool {
        match tree {
            Tree::Function(name, params, body, result) => *body matches Tree::Block(nodes)
                && later.module.unmodulated_exported_functions@.contains_key(name)
                && depicts_method(
                later.module.unmodulated_exported_functions@[name],
                Tree::Method(name, params, nodes, result, false),
            ),
            Tree::Layout(name, _) => later.module.unmodulated_exported_layouts@.contains_key(name)
                && depicts(
                ASTNode::LayoutDeclaration(later.module.unmodulated_exported_layouts@[name]),
                tree,
            ),
            Tree::Multi(nodes) => nodes.len() > 0 && (nodes[0] matches Tree::Layout(name, _)
                && later.module.unmodulated_exported_layouts@.contains_key(name) && depicts(
                ASTNode::LayoutDeclaration(later.module.unmodulated_exported_layouts@[name]),
                nodes[0],
            )),
            _ => true,
        }
    }

    /// `later` is `self` after it gave `node`: the parser has moved on, a
    /// node that marks where it gave up comes with a diagnostic, and a
    /// node that stands for several holds a layout and what was mixed into
    /// it.
    pub open spec fn yields(self, later: Parser, node: ASTNode) -> bool {
        &&& self.advances_to(later)
        &&& !(node is Program)
        &&& !(node is Misc)
        &&& node is InternalStop ==> later.diagnostics@.len() > self.diagnostics@.len()
        &&& node matches ASTNode::UseModule(path, _) ==> names(later.imports@, path)
        &&& node matches ASTNode::InternalMulti(nodes) ==> {
            &&& nodes@.len() == 2
            &&& nodes@[0] is LayoutDeclaration
            &&& nodes@[1] is MixStatement || (nodes@[1] is InternalStop
                && later.diagnostics@.len() > self.diagnostics@.len())
        }
    }

    /// The name of the module that is parsed.
    pub fn file_name(&self) -> (r: String)
        ensures
            r == self.module.name,
    {
        self.module.name()
    }

    /// Notes that the parser is to end.
    pub fn set_end(&mut self)
        ensures
            final(self).should_end,
            final(self).tokens == old(self).tokens,
            final(self).position == old(self).position,
            final(self).last == old(self).last,
            final(self).module == old(self).module,
            final(self).diagnostics == old(self).diagnostics,
            final(self).imports == old(self).imports,
            final(self).depth_limit == old(self).depth_limit,
    {
        self.should_end = true
    }

    /// A parser over the tokens of `source`, the text of `module`.
    pub fn new<P: NumberParser>(source: String, module: Module, numbers: &P) -> (r: Result<
        Parser,
        LexError,
    >)
        ensures
            r matches Ok(parser) ==> parser.wf() && parser.position == 0 && parser.module == module
                && parser.diagnostics@.len() == 0 && parser.imports@.len() == 0
                && !parser.should_end && parser.depth_limit == DEFAULT_NESTING_LIMIT,
            r matches Ok(parser) ==> are_tokens(
                parser.tokens@,
                tokens_of(stripped(source@)),
                module.name,
                *numbers,
            ),
            (r matches Err(LexError::BadPattern)) <==> !compiles(comment_pattern()),
            compiles(comment_pattern()) ==> ((r matches Err(LexError::TooLong)) <==> stripped(
                source@,
            ).len() >= usize::MAX),
            (r matches Err(LexError::BadNumber)) ==> holds_number(tokens_of(stripped(source@))),
            compiles(comment_pattern()) && stripped(source@).len() < usize::MAX && !holds_number(
                tokens_of(stripped(source@)),
            ) ==> r is Ok,
    {
        let tokens = match tokenize(module.name(), source, numbers) {
            Ok(tokens) => tokens,
            Err(e) => { return Err(e); },
        };
        Ok(Self::over(tokens, module))
    }

    /// A parser over `tokens`, the tokens of the text of `module`: it
    /// stands at the first token and has nothing to say yet.
    pub fn over(tokens: VecDeque<Token>, module: Module) -> (parser: Parser)
        ensures
            parser.wf(),
            parser.tokens@ == tokens@,
            parser.position == 0,
            parser.last.value is End,
            parser.module == module,
            !parser.should_end,
            parser.diagnostics@.len() == 0,
            parser.imports@.len() == 0,
            parser.depth_limit == DEFAULT_NESTING_LIMIT,
    {
        Parser {
            tokens: drain(tokens),
            position: 0,
            last: Self::end_t(),
            module,
            should_end: false,
            diagnostics: Vec::new(),
            imports: Vec::new(),
            depth_limit: DEFAULT_NESTING_LIMIT,
        }
    }

    /// Whether the text has ended.
    pub fn is_end(&self) -> (r: bool)
        requires
            self.wf(),
        ensures
            r == self.at_end(),
    {
        if self.position >= self.tokens.len() {
            true
        } else {
            match &self.tokens[self.position].value {
                TokenValue::End => true,
                _ => false,
            }
        }
    }

    /// The token that stands for the end of the text.
    fn end(&self) -> (r: Token)
        ensures
            r == self.end_token(),
    {
        Token { value: TokenValue::End, line: 0, column: 0, file_name: self.file_name() }
    }

    /// An end token of no file.
    fn end_t() -> (r: Token)
        ensures
            r.value is End,
    {
        Token { value: TokenValue::End, line: 0, column: 0, file_name: "FILE_NAME".to_owned() }
    }

    /// The token that is read next.
    pub fn curr(&self) -> (r: Token)
        requires
            self.wf(),
        ensures
            r == self.current(),
    {
        if self.position >= self.tokens.len() {
            self.end()
        } else {
            self.tokens[self.position].clone()
        }
    }

    /// Reads a token: the parser moves on by one token, unless the tokens
    /// are used up.
    pub fn go(&mut self) -> (r: Token)
        requires
            old(self).wf(),
        ensures
            r == old(self).current(),
            final(self).last == r,
            old(self).position < old(self).tokens@.len() ==> final(self).position == old(self).position + 1,
            old(self).position >= old(self).tokens@.len() ==> final(self).position == old(self).position,
            old(self).advances_to(*final(self)),
            final(self).module == old(self).module,
            final(self).should_end == old(self).should_end,
            final(self).diagnostics == old(self).diagnostics,
            final(self).imports == old(self).imports,
    {
        let token = self.curr();
        if self.position < self.tokens.len() {
            self.position = self.position + 1;
        }
        self.last = token.clone();
        token
    }

    /// The token that was read last.
    fn last(&self) -> (r: Token)
        ensures
            r == self.last,
    {
        self.last.clone()
    }

    /// The token after the one that is read next.
    pub fn peek(&self) -> (r: Token)
        requires
            self.wf(),
        ensures
            r == (if self.position + 1 < self.tokens@.len() {
                self.tokens@[self.position + 1]
            } else {
                self.end_token()
            }),
    {
        if self.position < self.tokens.len() && self.position + 1 < self.tokens.len() {
            self.tokens[self.position + 1].clone()
        } else {
            self.end()
        }
    }

    /// Whether the token that is read next is the sign `sign`.
    fn is_sign(&self, sign: SignType) -> (r: bool)
        requires
            self.wf(),
        ensures
            r == (self.current().value == TokenValue::Sign(sign)),
    {
        if self.position >= self.tokens.len() {
            return false;
        }
        match &self.tokens[self.position].value {
            TokenValue::Sign(s) => *s == sign,
            _ => false,
        }
    }

    /// Whether the token that is read next is the operator `operator`.
    fn is_operator(&self, operator: OperatorType) -> (r: bool)
        requires
            self.wf(),
        ensures
            r == (self.current().value == TokenValue::Operator(operator)),
    {
        if self.position >= self.tokens.len() {
            return false;
        }
        match &self.tokens[self.position].value {
            TokenValue::Operator(o) => *o == operator,
            _ => false,
        }
    }

    /// Whether the token that is read next is the keyword `keyword`.
    fn is_keyword(&self, keyword: KeywordType) -> (r: bool)
        requires
            self.wf(),
        ensures
            r == (self.current().value == TokenValue::Keyword(keyword)),
    {
        if self.position >= self.tokens.len() {
            return false;
        }
        match &self.tokens[self.position].value {
            TokenValue::Keyword(k) => *k == keyword,
            _ => false,
        }
    }

    /// Notes that `kind` is wrong at the token `at`.
    fn report(&mut self, kind: ParseError, at: &Token)
        ensures
            final(self).diagnostics@.len() == old(self).diagnostics@.len() + 1,
            final(self).diagnostics@.last().kind == kind,
            final(self).diagnostics@.last().line == at.line,
            final(self).diagnostics@.last().column == at.column,
            final(self).tokens == old(self).tokens,
            final(self).position == old(self).position,
            final(self).last == old(self).last,
            final(self).module == old(self).module,
            final(self).should_end == old(self).should_end,
            final(self).imports == old(self).imports,
            final(self).depth_limit == old(self).depth_limit,
    {
        self.diagnostics.push(
            Diagnostic {
                kind,
                file_name: at.file_name.clone(),
                line: at.line,
                column: at.column,
            },
        );
    }

    /// Gives up at the token `at` because of `kind`: the parser is to end,
    /// and a node marks the place.
    fn stop(&mut self, kind: ParseError, at: &Token) -> (r: ASTNode)
        ensures
            r is InternalStop,
            final(self).should_end,
            final(self).diagnostics@.len() == old(self).diagnostics@.len() + 1,
            final(self).diagnostics@.last().kind == kind,
            final(self).tokens == old(self).tokens,
            final(self).position == old(self).position,
            final(self).last == old(self).last,
            final(self).module == old(self).module,
            final(self).imports == old(self).imports,
            final(self).depth_limit == old(self).depth_limit,
    {
        self.report(kind, at);
        self.set_end();
        ASTNode::InternalStop(at.line, at.file_name.clone())
    }

    /// Reads a token, which should be `token`.
    fn expect_token(&mut self, token: TokenValue, kind: ParseError)
        requires
            old(self).wf(),
        ensures
            old(self).advances_to(*final(self)),
            final(self).imports == old(self).imports,
            final(self).module == old(self).module,
            final(self).should_end == old(self).should_end,
            old(self).position < old(self).tokens@.len() ==> final(self).position == old(self).position + 1,
            old(self).position >= old(self).tokens@.len() ==> final(self).position == old(self).position,
    {
        let tk = self.go();
        if !(token == tk.value) {
            self.report(kind, &tk);
        }
    }

    /// What an assignment to `node` assigns to.
    fn get_assignment_property(&mut self, node: &ASTNode) -> (r: AssignmentProperty)
        ensures
            !(*node is Identifier) && !(*node is LayoutFieldAccess) ==> (r matches AssignmentProperty::Variable(name) && name@ == "INTERNAL"@),
            *node matches ASTNode::Identifier(id) ==> r == AssignmentProperty::Variable(id),
            *node matches ASTNode::LayoutFieldAccess(id, field) ==> r
                == AssignmentProperty::LayoutField(id, field),
            final(self).tokens == old(self).tokens,
            final(self).position == old(self).position,
            final(self).module == old(self).module,
            final(self).depth_limit == old(self).depth_limit,
            final(self).should_end == old(self).should_end,
            final(self).imports == old(self).imports,
            final(self).diagnostics@.len() >= old(self).diagnostics@.len(),
    {
        match node {
            ASTNode::Identifier(id) => AssignmentProperty::Variable(id.clone()),
            ASTNode::LayoutFieldAccess(id, field) => AssignmentProperty::LayoutField(
                id.clone(),
                field.clone(),
            ),
            _ => {
                let at = Self::end_t();
                self.report(ParseError::NotAssignable, &at);
                AssignmentProperty::Variable("INTERNAL".to_owned())
            },
        }
    }
}

impl Parser {
    /// A statement or an expression, by the token that it starts with.
    fn parse_expressions(&mut self, depth: usize) -> (r: ASTNode)
        requires
            old(self).wf(),
        ensures
            depicts(r, statement(old(self).tokens@, old(self).position as int, depth as nat).0),
            final(self).position == statement(old(self).tokens@, old(self).position as int, depth as nat).1,
            final(self).should_end == (old(self).should_end || statement(old(self).tokens@, old(self).position as int, depth as nat).2),
            old(self).yields(*final(self), r),
        decreases depth, 30nat,
    {
        if depth == 0 {
            let at = self.curr();
            return self.stop(ParseError::TooDeep, &at);
        }
        let token = self.curr();
        match token.value {
            TokenValue::Keyword(keyword) => match keyword {
                KeywordType::Let => self.parse_variable_declaration(depth),
                KeywordType::Const => self.parse_variable_declaration(depth),
                KeywordType::Immut => self.parse_variable_declaration(depth),
                KeywordType::Fn => self.parse_fn_declaration(depth),
                KeywordType::If => self.parse_if_declaration(depth),
                KeywordType::Once => self.parse_once_declaration(depth),
                KeywordType::Use => self.parse_use(),
                KeywordType::Block => {
                    let _ = self.go();
                    self.parse_code_block(depth)
                },
                KeywordType::For => self.parse_for_expression(depth),
                KeywordType::Enum => self.parse_enum_declaration(),
                KeywordType::Typeof => {
                    let _ = self.go();
                    let v = self.parse_start_expr(depth);
                    ASTNode::Typeof(Box::new(v))
                },
                KeywordType::Layout => self.parse_layout_declaration(depth),
                KeywordType::Mix => self.parse_mix(None, depth),
                KeywordType::Exp => self.parse_exp(depth),
                _ => ASTNode::Expression(ExpressionType::Null),
            },
            TokenValue::Identifier(_) => self.parse_start_expr(depth),
            TokenValue::Boolean(value) => {
                let _ = self.go();
                ASTNode::Boolean(value)
            },
            TokenValue::Operator(operator_type) => {
                match operator_type {
                    OperatorType::SelfAssign => self.parse_self_assign_expression(depth),
                    _ => self.parse_add_expressions(depth),
                }
            },
            TokenValue::Sign(sign_type) => {
                match sign_type {
                    SignType::Paren(Direction::Open) => self.parse_repeat_expression(depth),
                    _ => self.parse_start_expr(depth),
                }
            },
            _ => self.parse_start_expr(depth),
        }
    }

    /// A literal, a name with what hangs on it, a lambda, a binding, or an
    /// expression in parentheses. A closing parenthesis gives nothing.
    fn parse_primary_expressions(&mut self, depth: usize) -> (r: Option<ASTNode>)
        requires
            old(self).wf(),
            depth > 0,
        ensures
            match primary(old(self).tokens@, old(self).position as int, depth as nat).0 {
                Some(t) => r matches Some(n) && depicts(n, t),
                None => r is None,
            },
            final(self).position == primary(old(self).tokens@, old(self).position as int, depth as nat).1,
            final(self).should_end == (old(self).should_end || primary(old(self).tokens@, old(self).position as int, depth as nat).2),
            old(self).advances_to(*final(self)),
            r matches Some(node) ==> old(self).yields(*final(self), node),
        decreases depth, 8nat,
    {
        let token = self.curr();
        match token.value {
            TokenValue::Sign(SignType::Paren(Direction::Open)) => {
                let _ = self.go();
                Some(self.parse_expressions(depth - 1))
            },
            TokenValue::Sign(SignType::Paren(Direction::Close)) => {
                let _ = self.go();
                None
            },
            TokenValue::Sign(SignType::DoubleColon) => {
                let _ = self.go();
                match self.parse_fn_lower("MOSA_INTERNAL_LAMBDA".to_owned(), depth) {
                    ASTNode::FunctionDeclaration(_, args, body, return_type) => Some(
                        ASTNode::Lambda(args, body, return_type),
                    ),
                    other => Some(other),
                }
            },
            TokenValue::String(v) => {
                let _ = self.go();
                Some(ASTNode::String(v))
            },
            TokenValue::Number(v) => {
                let _ = self.go();
                Some(ASTNode::Number(v))
            },
            TokenValue::Identifier(v) => {
                let _ = self.go();
                if self.is_sign(SignType::Arrow) {
                    Some(self.parse_complex_type_access(&v))
                } else if self.is_sign(SignType::CurlyBrace(Direction::Open)) {
                    Some(self.parse_layout_creation(&v, depth))
                } else if self.is_sign(SignType::Dot) {
                    Some(self.parse_layout_property_access(&v))
                } else {
                    Some(ASTNode::Identifier(v))
                }
            },
            TokenValue::Sign(SignType::Semicolon) => {
                let _ = self.go();
                Some(ASTNode::Expression(ExpressionType::Null))
            },
            TokenValue::Sign(SignType::Caret) => Some(self.parse_binding_access()),
            TokenValue::Sign(SignType::CurlyBrace(Direction::Close)) => Some(
                ASTNode::Expression(ExpressionType::Null),
            ),
            TokenValue::Sign(_) => {
                let _ = self.go();
                Some(ASTNode::Expression(ExpressionType::Null))
            },
            _ => Some(ASTNode::Expression(ExpressionType::Null)),
        }
    }

    /// An expression, from its loosest operator down.
    fn parse_start_expr(&mut self, depth: usize) -> (r: ASTNode)
        requires
            old(self).wf(),
            depth > 0,
        ensures
            depicts(r, assignment(old(self).tokens@, old(self).position as int, depth as nat).0),
            final(self).position == assignment(old(self).tokens@, old(self).position as int, depth as nat).1,
            final(self).should_end == (old(self).should_end || assignment(old(self).tokens@, old(self).position as int, depth as nat).2),
            old(self).yields(*final(self), r),
        decreases depth, 17nat,
    {
        self.parse_variable_assignment(depth)
    }

    /// One or more ranges with `=` between them: an assignment to what
    /// stands on the left.
    fn parse_variable_assignment(&mut self, depth: usize) -> (r: ASTNode)
        requires
            old(self).wf(),
            depth > 0,
        ensures
            depicts(r, assignment(old(self).tokens@, old(self).position as int, depth as nat).0),
            final(self).position == assignment(old(self).tokens@, old(self).position as int, depth as nat).1,
            final(self).should_end == (old(self).should_end || assignment(old(self).tokens@, old(self).position as int, depth as nat).2),
            old(self).yields(*final(self), r),
        decreases depth, 16nat,
    {
        let mut left = self.parse_double_dot_expressions(depth);
        let ghost mut tree = ranges(old(self).tokens@, old(self).position as int, depth as nat).0;
        let ghost mut gave = ranges(old(self).tokens@, old(self).position as int, depth as nat).2;
        let ghost goal = assignment(old(self).tokens@, old(self).position as int, depth as nat);
        while self.is_operator(OperatorType::Equal)
            invariant
                old(self).advances_to(*self),
                old(self).yields(*self, left),
                depicts(left, tree),
                assignment_rest(self.tokens@, tree, gave, self.position as int, depth as nat) == goal,
                self.should_end == (old(self).should_end || gave),
                depth > 0,
            decreases self.tokens@.len() - self.position,
        {
            let ghost before = self.position as int;
            let _ = self.go();
            let right = self.parse_double_dot_expressions(depth);
            let target = self.get_assignment_property(&left);
            proof {
                tree = Tree::Assignment(
                    target_of(tree),
                    Box::new(ranges(self.tokens@, before + 1, depth as nat).0),
                );
                gave = gave || ranges(self.tokens@, before + 1, depth as nat).2;
            }
            left = ASTNode::Assignment(target, Box::new(right));
        }
        left
    }

    /// One or more sums with `..` between them.
    fn parse_double_dot_expressions(&mut self, depth: usize) -> (r: ASTNode)
        requires
            old(self).wf(),
            depth > 0,
        ensures
            depicts(r, ranges(old(self).tokens@, old(self).position as int, depth as nat).0),
            final(self).position == ranges(old(self).tokens@, old(self).position as int, depth as nat).1,
            final(self).should_end == (old(self).should_end || ranges(old(self).tokens@, old(self).position as int, depth as nat).2),
            old(self).yields(*final(self), r),
        decreases depth, 15nat,
    {
        let mut left = self.parse_add_expressions(depth);
        let ghost mut tree = sums(old(self).tokens@, old(self).position as int, depth as nat).0;
        let ghost mut gave = sums(old(self).tokens@, old(self).position as int, depth as nat).2;
        let ghost goal = ranges(old(self).tokens@, old(self).position as int, depth as nat);
        while self.is_sign(SignType::DoubleDot)
            invariant
                old(self).advances_to(*self),
                old(self).yields(*self, left),
                depicts(left, tree),
                ranges_rest(self.tokens@, tree, gave, self.position as int, depth as nat) == goal,
                self.should_end == (old(self).should_end || gave),
                depth > 0,
            decreases self.tokens@.len() - self.position,
        {
            let operand = Operand::DoubleDot;
            let ghost before = self.position as int;
            let _ = self.go();
            let right = self.parse_add_expressions(depth);
            proof {
                tree = binary_of(tree, sums(self.tokens@, before + 1, depth as nat).0, operand);
                gave = gave || sums(self.tokens@, before + 1, depth as nat).2;
            }
            left = binary(left, right, operand);
        }
        left
    }

    /// One or more products with `+` or `-` between them.
    fn parse_add_expressions(&mut self, depth: usize) -> (r: ASTNode)
        requires
            old(self).wf(),
            depth > 0,
        ensures
            depicts(r, sums(old(self).tokens@, old(self).position as int, depth as nat).0),
            final(self).position == sums(old(self).tokens@, old(self).position as int, depth as nat).1,
            final(self).should_end == (old(self).should_end || sums(old(self).tokens@, old(self).position as int, depth as nat).2),
            old(self).yields(*final(self), r),
        decreases depth, 14nat,
    {
        let mut left = self.parse_multiply_expressions(depth);
        let ghost mut tree = products(old(self).tokens@, old(self).position as int, depth as nat).0;
        let ghost mut gave = products(old(self).tokens@, old(self).position as int, depth as nat).2;
        let ghost goal = sums(old(self).tokens@, old(self).position as int, depth as nat);
        while self.is_operator(OperatorType::Plus) || self.is_operator(OperatorType::Minus)
            invariant
                old(self).advances_to(*self),
                old(self).yields(*self, left),
                depicts(left, tree),
                sums_rest(self.tokens@, tree, gave, self.position as int, depth as nat) == goal,
                self.should_end == (old(self).should_end || gave),
                depth > 0,
            decreases self.tokens@.len() - self.position,
        {
            let operand = if self.is_operator(OperatorType::Plus) {
                Operand::Plus
            } else {
                Operand::Minus
            };
            let ghost before = self.position as int;
            let _ = self.go();
            let right = self.parse_multiply_expressions(depth);
            proof {
                tree = binary_of(tree, products(self.tokens@, before + 1, depth as nat).0, operand);
                gave = gave || products(self.tokens@, before + 1, depth as nat).2;
            }
            left = binary(left, right, operand);
        }
        left
    }

    /// One or more equalities with `*` or `/` between them.
    fn parse_multiply_expressions(&mut self, depth: usize) -> (r: ASTNode)
        requires
            old(self).wf(),
            depth > 0,
        ensures
            depicts(r, products(old(self).tokens@, old(self).position as int, depth as nat).0),
            final(self).position == products(old(self).tokens@, old(self).position as int, depth as nat).1,
            final(self).should_end == (old(self).should_end || products(old(self).tokens@, old(self).position as int, depth as nat).2),
            old(self).yields(*final(self), r),
        decreases depth, 13nat,
    {
        let mut left = self.parse_equality_expressions(depth);
        let ghost mut tree = equalities(old(self).tokens@, old(self).position as int, depth as nat).0;
        let ghost mut gave = equalities(old(self).tokens@, old(self).position as int, depth as nat).2;
        let ghost goal = products(old(self).tokens@, old(self).position as int, depth as nat);
        while self.is_operator(OperatorType::Multiply) || self.is_operator(OperatorType::Divide)
            invariant
                old(self).advances_to(*self),
                old(self).yields(*self, left),
                depicts(left, tree),
                products_rest(self.tokens@, tree, gave, self.position as int, depth as nat) == goal,
                self.should_end == (old(self).should_end || gave),
                depth > 0,
            decreases self.tokens@.len() - self.position,
        {
            let operand = if self.is_operator(OperatorType::Multiply) {
                Operand::Multiply
            } else {
                Operand::Divide
            };
            let ghost before = self.position as int;
            let _ = self.go();
            let right = self.parse_equality_expressions(depth);
            proof {
                tree = binary_of(tree, equalities(self.tokens@, before + 1, depth as nat).0, operand);
                gave = gave || equalities(self.tokens@, before + 1, depth as nat).2;
            }
            left = binary(left, right, operand);
        }
        left
    }

    /// One or more comparisons with `==` or `!=` between them.
    fn parse_equality_expressions(&mut self, depth: usize) -> (r: ASTNode)
        requires
            old(self).wf(),
            depth > 0,
        ensures
            depicts(r, equalities(old(self).tokens@, old(self).position as int, depth as nat).0),
            final(self).position == equalities(old(self).tokens@, old(self).position as int, depth as nat).1,
            final(self).should_end == (old(self).should_end || equalities(old(self).tokens@, old(self).position as int, depth as nat).2),
            old(self).yields(*final(self), r),
        decreases depth, 12nat,
    {
        let mut left = self.parse_comparison_expressions(depth);
        let ghost mut tree = comparisons(old(self).tokens@, old(self).position as int, depth as nat).0;
        let ghost mut gave = comparisons(old(self).tokens@, old(self).position as int, depth as nat).2;
        let ghost goal = equalities(old(self).tokens@, old(self).position as int, depth as nat);
        while self.is_sign(SignType::Equality) || self.is_sign(SignType::Inequality)
            invariant
                old(self).advances_to(*self),
                old(self).yields(*self, left),
                depicts(left, tree),
                equalities_rest(self.tokens@, tree, gave, self.position as int, depth as nat) == goal,
                self.should_end == (old(self).should_end || gave),
                depth > 0,
            decreases self.tokens@.len() - self.position,
        {
            let operand = if self.is_sign(SignType::Equality) {
                Operand::Equality
            } else {
                Operand::Inequality
            };
            let ghost before = self.position as int;
            let _ = self.go();
            let right = self.parse_comparison_expressions(depth);
            proof {
                tree = binary_of(tree, comparisons(self.tokens@, before + 1, depth as nat).0, operand);
                gave = gave || comparisons(self.tokens@, before + 1, depth as nat).2;
            }
            left = binary(left, right, operand);
        }
        left
    }

    /// One or more calls with `>`, `<`, `>=` or `<=` between them.
    fn parse_comparison_expressions(&mut self, depth: usize) -> (r: ASTNode)
        requires
            old(self).wf(),
            depth > 0,
        ensures
            depicts(r, comparisons(old(self).tokens@, old(self).position as int, depth as nat).0),
            final(self).position == comparisons(old(self).tokens@, old(self).position as int, depth as nat).1,
            final(self).should_end == (old(self).should_end || comparisons(old(self).tokens@, old(self).position as int, depth as nat).2),
            old(self).yields(*final(self), r),
        decreases depth, 11nat,
    {
        let mut left = self.parse_double_arrow_call(depth);
        let ghost mut tree = arrow_calls(old(self).tokens@, old(self).position as int, depth as nat).0;
        let ghost mut gave = arrow_calls(old(self).tokens@, old(self).position as int, depth as nat).2;
        let ghost goal = comparisons(old(self).tokens@, old(self).position as int, depth as nat);
        while self.is_operator(OperatorType::Bigger) || self.is_operator(OperatorType::Smaller) || self.is_operator(OperatorType::BiggerEqual) || self.is_operator(OperatorType::SmallerEqual)
            invariant
                old(self).advances_to(*self),
                old(self).yields(*self, left),
                depicts(left, tree),
                comparisons_rest(self.tokens@, tree, gave, self.position as int, depth as nat) == goal,
                self.should_end == (old(self).should_end || gave),
                depth > 0,
            decreases self.tokens@.len() - self.position,
        {
            let operand = if self.is_operator(OperatorType::Bigger) {
                Operand::Bigger
            } else if self.is_operator(OperatorType::Smaller) {
                Operand::Smaller
            } else if self.is_operator(OperatorType::BiggerEqual) {
                Operand::BiggerEqual
            } else {
                Operand::SmallerEqual
            };
            let ghost before = self.position as int;
            let _ = self.go();
            let right = self.parse_double_arrow_call(depth);
            proof {
                tree = binary_of(tree, arrow_calls(self.tokens@, before + 1, depth as nat).0, operand);
                gave = gave || arrow_calls(self.tokens@, before + 1, depth as nat).2;
            }
            left = binary(left, right, operand);
        }
        left
    }

    /// `:= target value`: the target is looked at without being read.
    fn parse_self_assign_expression(&mut self, depth: usize) -> (r: ASTNode)
        requires
            old(self).wf(),
            depth > 0,
        ensures
            depicts(r, self_assignment(old(self).tokens@, old(self).position as int, depth as nat).0),
            final(self).position == self_assignment(old(self).tokens@, old(self).position as int, depth as nat).1,
            final(self).should_end == (old(self).should_end || self_assignment(old(self).tokens@, old(self).position as int, depth as nat).2),
            old(self).yields(*final(self), r),
        decreases depth, 18nat,
    {
        let _ = self.go();
        let position = self.position;
        let last = self.last();
        let should_end = self.should_end;
        let looked = self.parse_primary_expressions(depth);
        self.position = position;
        self.last = last;
        self.should_end = should_end;
        let target = match looked {
            Some(node) => node,
            None => {
                let at = self.curr();
                return self.stop(ParseError::ExpectedAssignmentTarget, &at);
            },
        };
        let expr = self.parse_expressions(depth - 1);
        let property = self.get_assignment_property(&target);
        ASTNode::Assignment(property, Box::new(expr))
    }

    /// `(operation) ?: count`, or an expression in parentheses.
    fn parse_repeat_expression(&mut self, depth: usize) -> (r: ASTNode)
        requires
            old(self).wf(),
            depth > 0,
        ensures
            depicts(r, repeat(old(self).tokens@, old(self).position as int, depth as nat).0),
            final(self).position == repeat(old(self).tokens@, old(self).position as int, depth as nat).1,
            final(self).should_end == (old(self).should_end || repeat(old(self).tokens@, old(self).position as int, depth as nat).2),
            old(self).yields(*final(self), r),
        decreases depth, 18nat,
    {
        let _ = self.go();
        let operation = self.parse_expressions(depth - 1);
        if self.is_sign(SignType::Paren(Direction::Close)) {
            let _ = self.go();
        }
        if self.is_operator(OperatorType::Repeat) {
            let _ = self.go();
            let count = self.parse_expressions(depth - 1);
            ASTNode::RepeatOperation(Box::new(count), Box::new(operation))
        } else {
            operation
        }
    }

    /// `fn name(parameters) -> type { .. }`.
    fn parse_fn_declaration(&mut self, depth: usize) -> (r: ASTNode)
        requires
            old(self).wf(),
            depth > 0,
        ensures
            depicts(r, function(old(self).tokens@, old(self).position as int, depth as nat).0),
            final(self).position == function(old(self).tokens@, old(self).position as int, depth as nat).1,
            final(self).should_end == (old(self).should_end || function(old(self).tokens@, old(self).position as int, depth as nat).2),
            old(self).yields(*final(self), r),
        decreases depth, 20nat,
    {
        let _ = self.go();
        let identifier_token = self.curr();
        match identifier_token.value {
            TokenValue::Identifier(identifier) => {
                let _ = self.go();
                self.parse_fn_lower(identifier, depth)
            },
            _ => {
                let at = self.curr();
                self.stop(ParseError::ExpectedFunctionName, &at)
            },
        }
    }

    /// The parameters, the return type and the body of a function. Without
    /// a return type the function returns null.
    fn parse_fn_lower(&mut self, identifier: String, depth: usize) -> (r: ASTNode)
        requires
            old(self).wf(),
            depth > 0,
        ensures
            depicts(r, function_rest(old(self).tokens@, old(self).position as int, identifier@, depth as nat).0),
            final(self).position == function_rest(old(self).tokens@, old(self).position as int, identifier@, depth as nat).1,
            final(self).should_end == (old(self).should_end || function_rest(old(self).tokens@, old(self).position as int, identifier@, depth as nat).2),
            old(self).yields(*final(self), r),
        decreases depth, 7nat,
    {
        if self.is_sign(SignType::Paren(Direction::Open)) {
            let args_list = self.parse_fn_args_list(depth);
            self.expect_token(TokenValue::Sign(SignType::Arrow), ParseError::ExpectedArrow);
            let data_type = if self.is_sign(SignType::CurlyBrace(Direction::Open)) {
                DataType::Primitive(PrimitiveDataType::Null)
            } else {
                self.parse_data_type(depth)
            };
            self.expect_token(
                TokenValue::Sign(SignType::CurlyBrace(Direction::Open)),
                ParseError::ExpectedCodeBlock,
            );
            let body = self.parse_code_block(depth);
            ASTNode::FunctionDeclaration(identifier, Arc::new(args_list), Box::new(body), data_type)
        } else {
            let at = self.curr();
            self.stop(ParseError::ExpectedOpeningParen, &at)
        }
    }

    /// The parameters between the parentheses, with commas between them or
    /// not.
    fn parse_fn_args_list(&mut self, depth: usize) -> (r: FnArgs)
        requires
            old(self).wf(),
            depth > 0,
        ensures
            params_of(r) == parameters(old(self).tokens@, old(self).position as int, depth as nat).0,
            final(self).position == parameters(old(self).tokens@, old(self).position as int, depth as nat).1,
            final(self).should_end == (old(self).should_end || parameters(old(self).tokens@, old(self).position as int, depth as nat).2),
            old(self).advances_to(*final(self)),
        decreases depth, 6nat,
    {
        let _ = self.go();
        let mut args_map = args_new();
        let ghost mut gave = false;
        let ghost goal = parameters_rest(
            self.tokens@,
            Seq::empty(),
            false,
            self.position as int,
            depth as nat,
        );
        while !self.is_sign(SignType::Paren(Direction::Close)) && !self.is_end()
            invariant
                old(self).advances_to(*self),
                parameters_rest(
                    self.tokens@,
                    params_of(args_map),
                    gave,
                    self.position as int,
                    depth as nat,
                ) == goal,
                self.should_end == (old(self).should_end || gave),
                depth > 0,
            decreases self.tokens@.len() - self.position,
        {
            let before = self.position;
            let (arg_name, data_type) = self.parse_fn_arg(depth);
            proof {
                gave = gave || parameter(self.tokens@, before as int, depth as nat).2;
            }
            if self.is_sign(SignType::Comma) {
                let _ = self.go();
            }
            args_insert(&mut args_map, arg_name, data_type);
            if self.position == before {
                let _ = self.go();
            }
        }
        let _ = self.go();
        args_map
    }

    /// `name: type`.
    fn parse_fn_arg(&mut self, depth: usize) -> (r: (String, DataType))
        requires
            old(self).wf(),
            depth > 0,
        ensures
            r.0@ == parameter(old(self).tokens@, old(self).position as int, depth as nat).0.0,
            r.1 == parameter(old(self).tokens@, old(self).position as int, depth as nat).0.1,
            final(self).position == parameter(old(self).tokens@, old(self).position as int, depth as nat).1,
            final(self).should_end == (old(self).should_end || parameter(old(self).tokens@, old(self).position as int, depth as nat).2),
            old(self).advances_to(*final(self)),
            old(self).position < old(self).tokens@.len() ==> final(self).position > old(self).position,
        decreases depth, 5nat,
    {
        let identifier_token = self.go();
        match identifier_token.value {
            TokenValue::Identifier(identifier) => {
                if self.is_sign(SignType::Colon) {
                    let _ = self.go();
                    let data_type = self.parse_data_type(depth);
                    (identifier, data_type)
                } else {
                    let at = self.curr();
                    self.report(ParseError::ExpectedParameterColon, &at);
                    self.set_end();
                    ("UNKNOWN".to_owned(), DataType::InternalInfer)
                }
            },
            _ => {
                let at = self.curr();
                self.report(ParseError::ExpectedParameterName, &at);
                self.set_end();
                ("UNKNOWN".to_owned(), DataType::InternalInfer)
            },
        }
    }

    /// The statements up to the closing brace, which is read too.
    fn parse_code_block(&mut self, depth: usize) -> (r: ASTNode)
        requires
            old(self).wf(),
            depth > 0,
        ensures
            depicts(r, block(old(self).tokens@, old(self).position as int, depth as nat).0),
            final(self).position == block(old(self).tokens@, old(self).position as int, depth as nat).1,
            final(self).should_end == (old(self).should_end || block(old(self).tokens@, old(self).position as int, depth as nat).2),
            old(self).yields(*final(self), r),
            r is CodeBlock,
        decreases depth, 6nat,
    {
        let mut nodes: Vec<ASTNode> = Vec::new();
        let ghost mut trees = Seq::<Tree>::empty();
        let ghost mut gave = false;
        let ghost goal = block_rest(self.tokens@, Seq::empty(), false, self.position as int, depth as nat);
        while !self.is_sign(SignType::CurlyBrace(Direction::Close)) && !self.is_end()
            invariant
                old(self).advances_to(*self),
                nodes@.len() == trees.len(),
                forall|i: int| 0 <= i < trees.len() ==> depicts(#[trigger] nodes@[i], trees[i]),
                block_rest(self.tokens@, trees, gave, self.position as int, depth as nat) == goal,
                self.should_end == (old(self).should_end || gave),
                depth > 0,
            decreases self.tokens@.len() - self.position,
        {
            let before = self.position;
            let node = self.parse_expressions(depth - 1);
            proof {
                trees = trees.push(statement(self.tokens@, before as int, (depth - 1) as nat).0);
                gave = gave || statement(self.tokens@, before as int, (depth - 1) as nat).2;
            }
            nodes.push(node);
            if self.position == before {
                let _ = self.go();
            }
        }
        let _ = self.go();
        ASTNode::CodeBlock(Arc::new(nodes))
    }

    /// A primary expression, and the arguments of a call where a
    /// parenthesis follows it.
    fn parse_function_call(&mut self, depth: usize) -> (r: ASTNode)
        requires
            old(self).wf(),
            depth > 0,
        ensures
            depicts(r, call(old(self).tokens@, old(self).position as int, depth as nat).0),
            final(self).position == call(old(self).tokens@, old(self).position as int, depth as nat).1,
            final(self).should_end == (old(self).should_end || call(old(self).tokens@, old(self).position as int, depth as nat).2),
            old(self).yields(*final(self), r),
        decreases depth, 9nat,
    {
        let ghost first = primary(old(self).tokens@, old(self).position as int, depth as nat);
        let left = match self.parse_primary_expressions(depth) {
            Some(node) => node,
            None => ASTNode::Expression(ExpressionType::Null),
        };
        let ghost tree = match first.0 {
            Some(t) => t,
            None => Tree::Null,
        };
        assert(depicts(left, tree));
        assert(self.position == first.1);
        if self.is_sign(SignType::Paren(Direction::Open)) {
            let arg_list = self.parse_fn_call_arg_list(depth);
            let r = ASTNode::FunctionCall(Box::new(left), arg_list);
            assert(depicts(r, Tree::Call(Box::new(tree), call_args(self.tokens@, first.1, depth as nat).0)));
            r
        } else {
            left
        }
    }

    /// The arguments between the parentheses, with commas between them.
    fn parse_fn_call_arg_list(&mut self, depth: usize) -> (r: Vec<ASTNode>)
        requires
            old(self).wf(),
            depth > 0,
        ensures
            r@.len() == call_args(old(self).tokens@, old(self).position as int, depth as nat).0.len(),
            forall|i: int| 0 <= i < r@.len() ==> depicts(#[trigger] r@[i], call_args(old(self).tokens@, old(self).position as int, depth as nat).0[i]),
            final(self).position == call_args(old(self).tokens@, old(self).position as int, depth as nat).1,
            final(self).should_end == (old(self).should_end || call_args(old(self).tokens@, old(self).position as int, depth as nat).2),
            old(self).advances_to(*final(self)),
        decreases depth, 8nat,
    {
        self.expect_token(
            TokenValue::Sign(SignType::Paren(Direction::Open)),
            ParseError::ExpectedOpeningParen,
        );
        if self.is_sign(SignType::Paren(Direction::Close)) {
            let _ = self.go();
            return Vec::new();
        }
        let mut list: Vec<ASTNode> = Vec::new();
        let ghost opened = self.position as int;
        let first = self.parse_expressions(depth - 1);
        list.push(first);
        let ghost mut trees = seq![statement(self.tokens@, opened, (depth - 1) as nat).0];
        let ghost mut gave = statement(self.tokens@, opened, (depth - 1) as nat).2;
        let mut comma = self.is_sign(SignType::Comma);
        let _ = self.go();
        let ghost goal = call_args_rest(
            self.tokens@,
            trees,
            gave,
            comma,
            self.position as int,
            depth as nat,
        );
        while comma && !self.is_end()
            invariant
                old(self).advances_to(*self),
                list@.len() == trees.len(),
                forall|i: int| 0 <= i < trees.len() ==> depicts(#[trigger] list@[i], trees[i]),
                call_args_rest(self.tokens@, trees, gave, comma, self.position as int, depth as nat) == goal,
                self.should_end == (old(self).should_end || gave),
                depth > 0,
            decreases self.tokens@.len() - self.position,
        {
            let ghost start = self.position as int;
            let next = self.parse_expressions(depth - 1);
            proof {
                trees = trees.push(statement(self.tokens@, start, (depth - 1) as nat).0);
                gave = gave || statement(self.tokens@, start, (depth - 1) as nat).2;
            }
            list.push(next);
            comma = self.is_sign(SignType::Comma);
            let _ = self.go();
        }
        list
    }

    /// `value ->> name`: the call of `name` with the value.
    fn parse_double_arrow_call(&mut self, depth: usize) -> (r: ASTNode)
        requires
            old(self).wf(),
            depth > 0,
        ensures
            depicts(r, arrow_calls(old(self).tokens@, old(self).position as int, depth as nat).0),
            final(self).position == arrow_calls(old(self).tokens@, old(self).position as int, depth as nat).1,
            final(self).should_end == (old(self).should_end || arrow_calls(old(self).tokens@, old(self).position as int, depth as nat).2),
            old(self).yields(*final(self), r),
        decreases depth, 10nat,
    {
        let mut left = self.parse_function_call(depth);
        let ghost mut tree = call(old(self).tokens@, old(self).position as int, depth as nat).0;
        let ghost mut gave = call(old(self).tokens@, old(self).position as int, depth as nat).2;
        let ghost goal = arrow_calls(old(self).tokens@, old(self).position as int, depth as nat);
        while self.is_sign(SignType::DoubleArrow)
            invariant
                old(self).advances_to(*self),
                old(self).yields(*self, left),
                depicts(left, tree),
                arrow_calls_rest(self.tokens@, tree, gave, self.position as int, depth as nat) == goal,
                self.should_end == (old(self).should_end || gave),
                depth > 0,
            decreases self.tokens@.len() - self.position,
        {
            let ghost before = self.position as int;
            let _ = self.go();
            let right = self.parse_function_call(depth);
            proof {
                gave = gave || call(self.tokens@, before + 1, depth as nat).2;
            }
            match right {
                ASTNode::Identifier(id) => {
                    let mut args: Vec<ASTNode> = Vec::new();
                    args.push(left);
                    proof {
                        tree = Tree::Call(Box::new(Tree::Identifier(id@)), seq![tree]);
                    }
                    left = ASTNode::FunctionCall(Box::new(ASTNode::Identifier(id)), args);
                },
                _ => {},
            }
        }
        left
    }

    /// A type: a name, or `nul` and the type that may be null.
    fn parse_data_type(&mut self, depth: usize) -> (r: DataType)
        requires
            old(self).wf(),
        ensures
            r == data_type(old(self).tokens@, old(self).position as int, depth as nat).0,
            final(self).position == data_type(old(self).tokens@, old(self).position as int, depth as nat).1,
            final(self).should_end == (old(self).should_end || data_type(old(self).tokens@, old(self).position as int, depth as nat).2),
            old(self).advances_to(*final(self)),
        decreases depth, 3nat,
    {
        let token = self.go();
        match token.value {
            TokenValue::Identifier(ident) => {
                if is_text(&ident, "nul") {
                    if depth == 0 {
                        let at = self.last();
                        self.report(ParseError::TooDeep, &at);
                        self.set_end();
                        return DataType::Complex(ComplexDataType::Indefinite);
                    }
                    let inner = self.parse_data_type(depth - 1);
                    DataType::Primitive(PrimitiveDataType::Nullable(Box::new(inner)))
                } else {
                    type_named(ident)
                }
            },
            _ => {
                let at = self.last();
                self.report(ParseError::ExpectedDataType, &at);
                self.set_end();
                DataType::Complex(ComplexDataType::Indefinite)
            },
        }
    }
}

impl Parser {
    /// `let name: type = value`, with `immut` before it for a variable
    /// that may not be assigned to. An immutable variable needs a type and
    /// a value.
    fn parse_variable_declaration(&mut self, depth: usize) -> (r: ASTNode)
        requires
            old(self).wf(),
            depth > 0,
        ensures
            depicts(r, declaration(old(self).tokens@, old(self).position as int, depth as nat).0),
            final(self).position == declaration(old(self).tokens@, old(self).position as int, depth as nat).1,
            final(self).should_end == (old(self).should_end || declaration(old(self).tokens@, old(self).position as int, depth as nat).2),
            old(self).yields(*final(self), r),
        decreases depth, 18nat,
    {
        let let_or_const = self.go();
        let is_immut = match let_or_const.value {
            TokenValue::Keyword(KeywordType::Immut) => true,
            _ => false,
        };
        if is_immut {
            self.expect_token(TokenValue::Keyword(KeywordType::Let), ParseError::ExpectedLet);
        }
        let tk = self.go();
        let identifier = match tk.value {
            TokenValue::Identifier(ident) => ident,
            _ => {
                return self.stop(ParseError::ExpectedVariableName, &tk);
            },
        };
        let mut data_type = DataType::InternalInfer;
        if !self.is_sign(SignType::Colon) {
            if is_immut {
                let at = self.curr();
                return self.stop(ParseError::ImmutableWithoutType, &at);
            }
        } else {
            let _ = self.go();
            data_type = self.parse_data_type(depth);
        }
        let equals = self.go();
        let is_equals = match equals.value {
            TokenValue::Operator(OperatorType::Equal) => true,
            _ => false,
        };
        if !is_equals && is_immut {
            let at = self.curr();
            return self.stop(ParseError::ImmutableWithoutValue, &at);
        }
        let expr = self.parse_expressions(depth - 1);
        ASTNode::VariableDeclaration(is_immut, identifier, data_type, Box::new(expr))
    }

    /// `if condition { .. }`, with `else { .. }` after it or not.
    fn parse_if_declaration(&mut self, depth: usize) -> (r: ASTNode)
        requires
            old(self).wf(),
            depth > 0,
        ensures
            depicts(r, branch(old(self).tokens@, old(self).position as int, depth as nat).0),
            final(self).position == branch(old(self).tokens@, old(self).position as int, depth as nat).1,
            final(self).should_end == (old(self).should_end || branch(old(self).tokens@, old(self).position as int, depth as nat).2),
            old(self).yields(*final(self), r),
            r is IfStatement,
            old(self).position < old(self).tokens@.len() ==> final(self).position > old(self).position,
        decreases depth, 18nat,
    {
        let ghost tree = branch(old(self).tokens@, old(self).position as int, depth as nat).0;
        let _ = self.go();
        let condition = Box::new(self.parse_expressions(depth - 1));
        let block = Box::new(self.parse_code_block(depth));
        let mut else_block: Option<Box<ASTNode>> = None;
        if self.is_keyword(KeywordType::Else) {
            let _ = self.go();
            else_block = Some(Box::new(self.parse_code_block(depth)));
        }
        let statement = IfStatement { condition, if_block: block, else_block };
        assert(depicts_branch(statement, tree));
        ASTNode::IfStatement(statement)
    }

    /// `once { if .. if .. }`, with `else { .. }` after it or not.
    fn parse_once_declaration(&mut self, depth: usize) -> (r: ASTNode)
        requires
            old(self).wf(),
            depth > 0,
        ensures
            depicts(r, once(old(self).tokens@, old(self).position as int, depth as nat).0),
            final(self).position == once(old(self).tokens@, old(self).position as int, depth as nat).1,
            final(self).should_end == (old(self).should_end || once(old(self).tokens@, old(self).position as int, depth as nat).2),
            old(self).yields(*final(self), r),
            r is OnceStatement,
        decreases depth, 19nat,
    {
        let _ = self.go();
        let _ = self.go();
        let mut ifs: Vec<IfStatement> = Vec::new();
        let ghost mut trees = Seq::<Tree>::empty();
        let ghost mut gave = false;
        let ghost goal = once_rest(self.tokens@, Seq::empty(), false, self.position as int, depth as nat);
        let mut else_block: Option<Box<ASTNode>> = None;
        while !self.is_sign(SignType::CurlyBrace(Direction::Close)) && !self.is_end()
            invariant
                old(self).advances_to(*self),
                ifs@.len() == trees.len(),
                forall|i: int| 0 <= i < trees.len() ==> depicts_branch(#[trigger] ifs@[i], trees[i]),
                once_rest(self.tokens@, trees, gave, self.position as int, depth as nat) == goal,
                self.should_end == (old(self).should_end || gave),
                depth > 0,
            decreases self.tokens@.len() - self.position,
        {
            let ghost start = self.position as int;
            match self.parse_if_declaration(depth) {
                ASTNode::IfStatement(if_st) => {
                    proof {
                        trees = trees.push(branch(self.tokens@, start, depth as nat).0);
                        gave = gave || branch(self.tokens@, start, depth as nat).2;
                    }
                    ifs.push(if_st);
                },
                _ => {},
            }
        }
        let _ = self.go();
        if self.is_keyword(KeywordType::Else) {
            let _ = self.go();
            else_block = Some(Box::new(self.parse_code_block(depth)));
        }
        ASTNode::OnceStatement(OnceStatement { else_block, if_statements: ifs })
    }

    /// `use`, for a native function or for a symbol of a module.
    fn parse_use(&mut self) -> (r: ASTNode)
        requires
            old(self).wf(),
        ensures
            depicts(r, import(old(self).tokens@, old(self).position as int).0),
            final(self).position == import(old(self).tokens@, old(self).position as int).1,
            final(self).should_end == (old(self).should_end || import(old(self).tokens@, old(self).position as int).2),
            old(self).yields(*final(self), r),
    {
        let _ = self.go();
        if self.is_keyword(KeywordType::Native) {
            self.parse_use_native()
        } else {
            self.parse_use_module()
        }
    }

    /// `path:to:module ~> symbol`. The path is kept among the imports of
    /// the parser, whether a symbol follows or not.
    fn parse_use_module(&mut self) -> (r: ASTNode)
        requires
            old(self).wf(),
        ensures
            depicts(r, module(old(self).tokens@, old(self).position as int).0),
            final(self).position == module(old(self).tokens@, old(self).position as int).1,
            final(self).should_end == (old(self).should_end || module(old(self).tokens@, old(self).position as int).2),
            old(self).yields(*final(self), r),
            r is UseModule || r is InternalStop,
            old(self).current().value is Identifier ==> final(self).imports@.len() == old(self).imports@.len() + 1,
            !(old(self).current().value is Identifier) ==> r is InternalStop && final(self).imports
                == old(self).imports,
            r is UseModule ==> final(self).imports@.last() == r->UseModule_0,
    {
        let tk = self.go();
        let mut path = match tk.value {
            TokenValue::Identifier(i) => i,
            _ => {
                self.report(ParseError::ExpectedModulePath, &tk);
                return ASTNode::InternalStop(tk.line, tk.file_name);
            },
        };
        let ghost goal = path_of(self.tokens@, path@, self.position as int);
        while self.is_sign(SignType::Colon)
            invariant
                old(self).advances_to(*self),
                path_of(self.tokens@, path@, self.position as int) == goal,
                self.should_end == old(self).should_end,
                self.imports == old(self).imports,
            decreases self.tokens@.len() - self.position,
        {
            let _ = self.go();
            let next = self.curr();
            match next.value {
                TokenValue::Identifier(i) => {
                    push_char(&mut path, ':');
                    path.append(i.as_str());
                    let _ = self.go();
                },
                _ => {},
            }
        }
        self.expect_token(
            TokenValue::Sign(SignType::TildeArrow),
            ParseError::ExpectedTildeArrow,
        );
        self.imports.push(path.clone());
        assert(self.imports@[self.imports@.len() - 1] == path);
        let symbol_token = self.go();
        match symbol_token.value {
            TokenValue::Identifier(symbol) => ASTNode::UseModule(path, symbol),
            _ => {
                let at = self.curr();
                self.stop(ParseError::ExpectedImportSymbol, &at)
            },
        }
    }

    /// `native fn name # "path"`.
    fn parse_use_native(&mut self) -> (r: ASTNode)
        requires
            old(self).wf(),
        ensures
            depicts(r, native(old(self).tokens@, old(self).position as int).0),
            final(self).position == native(old(self).tokens@, old(self).position as int).1,
            final(self).should_end == (old(self).should_end || native(old(self).tokens@, old(self).position as int).2),
            old(self).yields(*final(self), r),
            r is UseNative || r is InternalStop,
    {
        let _ = self.go();
        let keyword = self.go();
        match keyword.value {
            TokenValue::Keyword(KeywordType::Fn) => {},
            _ => {
                let at = self.last();
                return self.stop(ParseError::ExpectedNativeFn, &at);
            },
        }
        let name = self.go();
        match name.value {
            TokenValue::Identifier(identifier) => {
                self.expect_token(
                    TokenValue::Sign(SignType::HashSign),
                    ParseError::ExpectedHashSign,
                );
                let from = self.go();
                match from.value {
                    TokenValue::String(from) => ASTNode::UseNative(
                        UseNative { name: identifier, from },
                    ),
                    _ => {
                        let at = self.last();
                        self.stop(ParseError::ExpectedNativePath, &at)
                    },
                }
            },
            _ => {
                let at = self.last();
                self.stop(ParseError::ExpectedNativeName, &at)
            },
        }
    }

    /// `^name`.
    fn parse_binding_access(&mut self) -> (r: ASTNode)
        requires
            old(self).wf(),
        ensures
            depicts(r, binding(old(self).tokens@, old(self).position as int).0),
            final(self).position == binding(old(self).tokens@, old(self).position as int).1,
            final(self).should_end == (old(self).should_end || binding(old(self).tokens@, old(self).position as int).2),
            old(self).yields(*final(self), r),
            r is BindingAccess || r is InternalStop,
    {
        let _ = self.go();
        let name = self.go();
        match name.value {
            TokenValue::Identifier(identifier) => ASTNode::BindingAccess(identifier),
            _ => {
                let at = self.last();
                self.stop(ParseError::ExpectedBindingName, &at)
            },
        }
    }

    /// `for iterable { .. }`.
    fn parse_for_expression(&mut self, depth: usize) -> (r: ASTNode)
        requires
            old(self).wf(),
            depth > 0,
        ensures
            depicts(r, for_loop(old(self).tokens@, old(self).position as int, depth as nat).0),
            final(self).position == for_loop(old(self).tokens@, old(self).position as int, depth as nat).1,
            final(self).should_end == (old(self).should_end || for_loop(old(self).tokens@, old(self).position as int, depth as nat).2),
            old(self).yields(*final(self), r),
            r is ForStatement,
        decreases depth, 18nat,
    {
        let _ = self.go();
        let iterable = self.parse_expressions(depth - 1);
        let block = self.parse_code_block(depth);
        ASTNode::ForStatement(
            ForStatement { iterable: Box::new(iterable), block: Box::new(block) },
        )
    }

    /// `-> entry`, after the name `entry_of`.
    fn parse_complex_type_access(&mut self, entry_of: &String) -> (r: ASTNode)
        requires
            old(self).wf(),
        ensures
            depicts(r, accessor(old(self).tokens@, old(self).position as int, entry_of@).0),
            final(self).position == accessor(old(self).tokens@, old(self).position as int, entry_of@).1,
            final(self).should_end == (old(self).should_end || accessor(old(self).tokens@, old(self).position as int, entry_of@).2),
            old(self).yields(*final(self), r),
            r matches ASTNode::ComplexTypeAccessor(name, _) ==> name == *entry_of,
            r is ComplexTypeAccessor || r is InternalStop,
    {
        let _ = self.go();
        let name = self.go();
        match name.value {
            TokenValue::Identifier(identifier) => ASTNode::ComplexTypeAccessor(
                entry_of.clone(),
                identifier,
            ),
            _ => {
                let at = self.last();
                self.stop(ParseError::ExpectedEntryName, &at)
            },
        }
    }

    /// `enum Name { A, B, .. }`.
    fn parse_enum_declaration(&mut self) -> (r: ASTNode)
        requires
            old(self).wf(),
        ensures
            depicts(r, enumeration(old(self).tokens@, old(self).position as int).0),
            final(self).position == enumeration(old(self).tokens@, old(self).position as int).1,
            final(self).should_end == (old(self).should_end || enumeration(old(self).tokens@, old(self).position as int).2),
            old(self).yields(*final(self), r),
            r is EnumDeclaration || r is InternalStop,
    {
        let _ = self.go();
        let name = self.go();
        match name.value {
            TokenValue::Identifier(identifier) => {
                let brace = self.go();
                match brace.value {
                    TokenValue::Sign(SignType::CurlyBrace(Direction::Open)) => {},
                    _ => {
                        let at = self.last();
                        return self.stop(ParseError::ExpectedOpeningBrace, &at);
                    },
                }
                let entries = self.parse_enum_entries();
                ASTNode::EnumDeclaration(identifier, entries)
            },
            _ => {
                let at = self.last();
                self.stop(ParseError::ExpectedEnumName, &at)
            },
        }
    }

    /// Whether `token` is a comma.
    fn is_comma(token: &Token) -> (r: bool)
        ensures
            r == (token.value == TokenValue::Sign(SignType::Comma)),
    {
        match &token.value {
            TokenValue::Sign(SignType::Comma) => true,
            _ => false,
        }
    }

    /// Whether `token` is a closing brace.
    fn is_closing(token: &Token) -> (r: bool)
        ensures
            r == (token.value == TokenValue::Sign(SignType::CurlyBrace(Direction::Close))),
    {
        match &token.value {
            TokenValue::Sign(SignType::CurlyBrace(Direction::Close)) => true,
            _ => false,
        }
    }

    /// The entries of an enum, with commas between them, up to the closing
    /// brace.
    fn parse_enum_entries(&mut self) -> (r: Vec<String>)
        requires
            old(self).wf(),
        ensures
            r@.len() == enum_entries(old(self).tokens@, old(self).position as int).0.len(),
            forall|i: int| 0 <= i < r@.len() ==> (#[trigger] r@[i])@ == enum_entries(old(self).tokens@, old(self).position as int).0[i],
            final(self).position == enum_entries(old(self).tokens@, old(self).position as int).1,
            final(self).should_end == old(self).should_end,
            old(self).advances_to(*final(self)),
    {
        let mut res: Vec<String> = Vec::new();
        let ghost mut names = Seq::<Seq<char>>::empty();
        let first = self.go();
        match first.value {
            TokenValue::Identifier(id) => {
                proof {
                    names = seq![id@];
                }
                res.push(id);
            },
            _ => {},
        }
        let mut tk = self.go();
        if Self::is_comma(&tk) && self.is_sign(SignType::CurlyBrace(Direction::Close)) {
            tk = self.go();
        }
        let ghost goal = enum_entries_rest(
            self.tokens@,
            names,
            tk.value == TokenValue::Sign(SignType::Comma),
            self.position as int,
        );
        while Self::is_comma(&tk) && !self.is_sign(SignType::CurlyBrace(Direction::Close))
            && !self.is_end()
            invariant
                old(self).advances_to(*self),
                self.should_end == old(self).should_end,
                res@.len() == names.len(),
                forall|i: int| 0 <= i < names.len() ==> (#[trigger] res@[i])@ == names[i],
                enum_entries_rest(
                    self.tokens@,
                    names,
                    tk.value == TokenValue::Sign(SignType::Comma),
                    self.position as int,
                ) == goal,
            decreases self.tokens@.len() - self.position,
        {
            let entry = self.go();
            match entry.value {
                TokenValue::Identifier(id) => {
                    proof {
                        names = names.push(id@);
                    }
                    res.push(id);
                },
                _ => {},
            }
            tk = self.go();
            if Self::is_comma(&tk) && self.is_sign(SignType::CurlyBrace(Direction::Close)) {
                tk = self.go();
            }
        }
        if !Self::is_closing(&tk) {
            self.report(ParseError::ExpectedClosingBrace, &tk);
        }
        res
    }

    /// `layout Name { field: type = default, .. }`, with the methods of a
    /// `mix @ { .. }` after it or not.
    fn parse_layout_declaration(&mut self, depth: usize) -> (r: ASTNode)
        requires
            old(self).wf(),
            depth > 0,
        ensures
            depicts(r, layout(old(self).tokens@, old(self).position as int, depth as nat).0),
            final(self).position == layout(old(self).tokens@, old(self).position as int, depth as nat).1,
            final(self).should_end == (old(self).should_end || layout(old(self).tokens@, old(self).position as int, depth as nat).2),
            old(self).yields(*final(self), r),
        decreases depth, 24nat,
    {
        let _ = self.go();
        let name = self.go();
        let identifier = match name.value {
            TokenValue::Identifier(ident) => ident,
            _ => {
                let at = self.last();
                return self.stop(ParseError::ExpectedLayoutName, &at);
            },
        };
        let brace = self.go();
        match brace.value {
            TokenValue::Sign(SignType::CurlyBrace(Direction::Open)) => {},
            _ => {
                let at = self.last();
                return self.stop(ParseError::ExpectedOpeningBrace, &at);
            },
        }
        let ghost fields = layout_fields(self.tokens@, self.position as int, depth as nat);
        let entries = self.parse_layout_entries(depth);
        let declaration = ASTNode::LayoutDeclaration(
            LayoutDeclaration { name: identifier.clone(), fields: Arc::new(entries) },
        );
        let ghost declared = Tree::Layout(identifier@, fields.0);
        assert(depicts(declaration, declared));
        let ghost mixed = inner_mix(self.tokens@, self.position as int, identifier@, depth as nat);
        match self.try_parse_internal_mix(identifier, depth) {
            Some(mix) => {
                let mut both: Vec<ASTNode> = Vec::new();
                both.push(declaration);
                both.push(mix);
                let r = ASTNode::InternalMulti(both);
                assert(depicts(r, Tree::Multi(seq![declared, mixed.0->0])));
                r
            },
            None => declaration,
        }
    }

    /// The mix that follows a layout declaration, if `mix @` follows it.
    fn try_parse_internal_mix(&mut self, internal_ident: String, depth: usize) -> (r: Option<
        ASTNode,
    >)
        requires
            old(self).wf(),
            depth > 0,
        ensures
            match inner_mix(old(self).tokens@, old(self).position as int, internal_ident@, depth as nat).0 {
                Some(t) => r matches Some(n) && depicts(n, t),
                None => r is None,
            },
            final(self).position == inner_mix(old(self).tokens@, old(self).position as int, internal_ident@, depth as nat).1,
            final(self).should_end == (old(self).should_end || inner_mix(old(self).tokens@, old(self).position as int, internal_ident@, depth as nat).2),
            old(self).advances_to(*final(self)),
            r matches Some(node) ==> old(self).yields(*final(self), node),
            r matches Some(node) ==> node is MixStatement || node is InternalStop,
        decreases depth, 23nat,
    {
        let next = self.peek();
        let at_sign = match next.value {
            TokenValue::Sign(SignType::At) => true,
            _ => false,
        };
        if self.is_keyword(KeywordType::Mix) && at_sign {
            Some(self.parse_mix(Some(internal_ident), depth))
        } else {
            None
        }
    }

    /// The fields of a layout, with commas between them, up to the closing
    /// brace.
    fn parse_layout_entries(&mut self, depth: usize) -> (r: StrMap<FieldParserDescription>)
        requires
            old(self).wf(),
            depth > 0,
        ensures
            lists_fields(r, layout_fields(old(self).tokens@, old(self).position as int, depth as nat).0),
            final(self).position == layout_fields(old(self).tokens@, old(self).position as int, depth as nat).1,
            final(self).should_end == (old(self).should_end || layout_fields(old(self).tokens@, old(self).position as int, depth as nat).2),
            old(self).advances_to(*final(self)),
        decreases depth, 5nat,
    {
        let mut res: StrMap<FieldParserDescription> = StrMap::new();
        let ghost mut pairs = Seq::<(Seq<char>, Tree)>::empty();
        let ghost mut gave = false;
        assert(res.keys() =~= firsts(pairs));
        let first = self.curr();
        match first.value {
            TokenValue::Identifier(_) => {
                let ghost start = self.position as int;
                let ghost held = res;
                match self.parse_layout_single_entry(depth) {
                    Some(entry) => {
                        let ghost name = entry.0@;
                        let ghost value = entry.1;
                        res.insert(entry.0, entry.1);
                        proof {
                            let made = layout_field(self.tokens@, start, depth as nat).0->0;
                            lemma_put_field(held, res, pairs, name, value, made.1);
                            pairs = put(pairs, made.0, made.1);
                        }
                    },
                    None => {},
                }
                proof {
                    gave = gave || layout_field(self.tokens@, start, depth as nat).2;
                }
            },
            _ => {},
        }
        let mut tk = self.go();
        if self.is_sign(SignType::CurlyBrace(Direction::Close)) {
            tk = self.go();
        }
        let ghost goal = layout_fields_rest(
            self.tokens@,
            pairs,
            gave,
            tk.value,
            self.position as int,
            depth as nat,
        );
        while Self::is_comma(&tk) && !self.is_sign(SignType::CurlyBrace(Direction::Close))
            && !self.is_end()
            invariant
                old(self).advances_to(*self),
                lists_fields(res, pairs),
                res.keys().no_duplicates(),
                forall|k: Seq<char>| #[trigger] res@.contains_key(k) <==> res.keys().contains(k),
                layout_fields_rest(
                    self.tokens@,
                    pairs,
                    gave,
                    tk.value,
                    self.position as int,
                    depth as nat,
                ) == goal,
                self.should_end == (old(self).should_end || gave),
                depth > 0,
            decreases self.tokens@.len() - self.position,
        {
            let next = self.curr();
            match next.value {
                TokenValue::Identifier(_) => {
                    let ghost start = self.position as int;
                    let ghost held = res;
                    match self.parse_layout_single_entry(depth) {
                        Some(entry) => {
                            let ghost name = entry.0@;
                            let ghost value = entry.1;
                            res.insert(entry.0, entry.1);
                            proof {
                                let made = layout_field(self.tokens@, start, depth as nat).0->0;
                                lemma_put_field(held, res, pairs, name, value, made.1);
                                pairs = put(pairs, made.0, made.1);
                            }
                        },
                        None => {},
                    }
                    proof {
                        gave = gave || layout_field(self.tokens@, start, depth as nat).2;
                    }
                },
                _ => {},
            }
            tk = self.go();
            if Self::is_comma(&tk) && self.is_sign(SignType::CurlyBrace(Direction::Close)) {
                tk = self.go();
            }
        }
        if !Self::is_closing(&tk) {
            self.report(ParseError::ExpectedClosingBrace, &tk);
            self.set_end();
        }
        res
    }

    /// `name: type`, with `= default` after it or not.
    fn parse_layout_single_entry(&mut self, depth: usize) -> (r: Option<
        (String, FieldParserDescription),
    >)
        requires
            old(self).wf(),
            depth > 0,
        ensures
            match layout_field(old(self).tokens@, old(self).position as int, depth as nat).0 {
                Some(e) => r matches Some(got) && got.0@ == e.0 && depicts_field(got.1, e.1),
                None => r is None,
            },
            final(self).position == layout_field(old(self).tokens@, old(self).position as int, depth as nat).1,
            final(self).should_end == (old(self).should_end || layout_field(old(self).tokens@, old(self).position as int, depth as nat).2),
            old(self).advances_to(*final(self)),
        decreases depth, 4nat,
    {
        let name = self.go();
        match name.value {
            TokenValue::Identifier(id) => {
                let colon = self.go();
                match colon.value {
                    TokenValue::Sign(SignType::Colon) => {},
                    _ => {
                        let at = self.last();
                        self.report(ParseError::ExpectedFieldColon, &at);
                        self.set_end();
                        return None;
                    },
                }
                let type_token = self.go();
                let type_id = match type_token.value {
                    TokenValue::Identifier(t) => t,
                    _ => {
                        let at = self.last();
                        self.report(ParseError::ExpectedFieldType, &at);
                        self.set_end();
                        return None;
                    },
                };
                let default_value = if self.is_operator(OperatorType::Equal) {
                    let _ = self.go();
                    Some(Arc::new(self.parse_expressions(depth - 1)))
                } else {
                    None
                };
                Some((id, FieldParserDescription { type_id, default_value }))
            },
            _ => None,
        }
    }

    /// `{ field = value, .. }`, after the name `name` of a layout.
    fn parse_layout_creation(&mut self, name: &String, depth: usize) -> (r: ASTNode)
        requires
            old(self).wf(),
            depth > 0,
        ensures
            depicts(r, creation(old(self).tokens@, old(self).position as int, name@, depth as nat).0),
            final(self).position == creation(old(self).tokens@, old(self).position as int, name@, depth as nat).1,
            final(self).should_end == (old(self).should_end || creation(old(self).tokens@, old(self).position as int, name@, depth as nat).2),
            old(self).yields(*final(self), r),
            r matches ASTNode::LayoutCreation(creation) && creation.name == *name,
        decreases depth, 7nat,
    {
        let _ = self.go();
        let entries = self.parse_layout_creation_entries(depth);
        ASTNode::LayoutCreation(LayoutCreation { name: name.clone(), specified_fields: entries })
    }

    /// The fields of a new instance, with commas between them, up to the
    /// closing brace.
    fn parse_layout_creation_entries(&mut self, depth: usize) -> (r: StrMap<Box<ASTNode>>)
        requires
            old(self).wf(),
            depth > 0,
        ensures
            lists_values(r, creation_fields(old(self).tokens@, old(self).position as int, depth as nat).0),
            final(self).position == creation_fields(old(self).tokens@, old(self).position as int, depth as nat).1,
            final(self).should_end == (old(self).should_end || creation_fields(old(self).tokens@, old(self).position as int, depth as nat).2),
            old(self).advances_to(*final(self)),
        decreases depth, 6nat,
    {
        let mut res: StrMap<Box<ASTNode>> = StrMap::new();
        let ghost mut pairs = Seq::<(Seq<char>, Tree)>::empty();
        let ghost mut gave = false;
        assert(res.keys() =~= firsts(pairs));
        let first = self.curr();
        match first.value {
            TokenValue::Identifier(_) => {
                let ghost start = self.position as int;
                let ghost held = res;
                match self.parse_layout_creation_single_entry(depth) {
                    Some(entry) => {
                        let ghost name = entry.0@;
                        let ghost value = entry.1;
                        res.insert(entry.0, entry.1);
                        proof {
                            let made = creation_field(self.tokens@, start, depth as nat).0->0;
                            lemma_put_value(held, res, pairs, name, value, made.1);
                            pairs = put(pairs, made.0, made.1);
                        }
                    },
                    None => {},
                }
                proof {
                    gave = gave || creation_field(self.tokens@, start, depth as nat).2;
                }
            },
            _ => {},
        }
        let mut tk = self.go();
        if self.is_sign(SignType::CurlyBrace(Direction::Close)) {
            tk = self.go();
        }
        let ghost goal = creation_fields_rest(
            self.tokens@,
            pairs,
            gave,
            tk.value == TokenValue::Sign(SignType::Comma),
            self.position as int,
            depth as nat,
        );
        while Self::is_comma(&tk) && !self.is_sign(SignType::CurlyBrace(Direction::Close))
            && !self.is_end()
            invariant
                old(self).advances_to(*self),
                lists_values(res, pairs),
                res.keys().no_duplicates(),
                forall|k: Seq<char>| #[trigger] res@.contains_key(k) <==> res.keys().contains(k),
                creation_fields_rest(
                    self.tokens@,
                    pairs,
                    gave,
                    tk.value == TokenValue::Sign(SignType::Comma),
                    self.position as int,
                    depth as nat,
                ) == goal,
                self.should_end == (old(self).should_end || gave),
                depth > 0,
            decreases self.tokens@.len() - self.position,
        {
            let next = self.curr();
            match next.value {
                TokenValue::Identifier(_) => {
                    let ghost start = self.position as int;
                    let ghost held = res;
                    match self.parse_layout_creation_single_entry(depth) {
                        Some(entry) => {
                            let ghost name = entry.0@;
                            let ghost value = entry.1;
                            res.insert(entry.0, entry.1);
                            proof {
                                let made = creation_field(self.tokens@, start, depth as nat).0->0;
                                lemma_put_value(held, res, pairs, name, value, made.1);
                                pairs = put(pairs, made.0, made.1);
                            }
                        },
                        None => {},
                    }
                    proof {
                        gave = gave || creation_field(self.tokens@, start, depth as nat).2;
                    }
                },
                _ => {},
            }
            tk = self.go();
            if Self::is_comma(&tk) && self.is_sign(SignType::CurlyBrace(Direction::Close)) {
                tk = self.go();
            }
        }
        if !Self::is_closing(&tk) {
            self.report(ParseError::ExpectedClosingBrace, &tk);
        }
        res
    }

    /// `name = value`.
    fn parse_layout_creation_single_entry(&mut self, depth: usize) -> (r: Option<
        (String, Box<ASTNode>),
    >)
        requires
            old(self).wf(),
            depth > 0,
        ensures
            match creation_field(old(self).tokens@, old(self).position as int, depth as nat).0 {
                Some(e) => r matches Some(got) && got.0@ == e.0 && depicts(*got.1, e.1),
                None => r is None,
            },
            final(self).position == creation_field(old(self).tokens@, old(self).position as int, depth as nat).1,
            final(self).should_end == (old(self).should_end || creation_field(old(self).tokens@, old(self).position as int, depth as nat).2),
            old(self).advances_to(*final(self)),
        decreases depth, 5nat,
    {
        let name = self.go();
        match name.value {
            TokenValue::Identifier(id) => {
                let equals = self.go();
                match equals.value {
                    TokenValue::Operator(OperatorType::Equal) => {},
                    _ => {
                        let at = self.last();
                        self.report(ParseError::ExpectedFieldValue, &at);
                        self.set_end();
                        return None;
                    },
                }
                let exp = Box::new(self.parse_expressions(depth - 1));
                Some((id, exp))
            },
            _ => None,
        }
    }

    /// `. field`, after the name `id` of a variable.
    fn parse_layout_property_access(&mut self, id: &String) -> (r: ASTNode)
        requires
            old(self).wf(),
        ensures
            depicts(r, field_access(old(self).tokens@, old(self).position as int, id@).0),
            final(self).position == field_access(old(self).tokens@, old(self).position as int, id@).1,
            final(self).should_end == (old(self).should_end || field_access(old(self).tokens@, old(self).position as int, id@).2),
            old(self).yields(*final(self), r),
            r matches ASTNode::LayoutFieldAccess(receiver, _) ==> receiver == *id,
            r is LayoutFieldAccess || r is InternalStop,
    {
        let _ = self.go();
        let field = self.go();
        match field.value {
            TokenValue::Identifier(field) => ASTNode::LayoutFieldAccess(id.clone(), field),
            _ => {
                let at = self.last();
                self.stop(ParseError::ExpectedFieldName, &at)
            },
        }
    }

    /// `mix Name { fn .. tied fn .. }`; within a layout declaration the
    /// name is that of the layout, and `@` stands in its place.
    fn parse_mix(&mut self, internal_ident: Option<String>, depth: usize) -> (r: ASTNode)
        requires
            old(self).wf(),
            depth > 0,
        ensures
            depicts(r, mix(old(self).tokens@, old(self).position as int, match internal_ident {
                Some(i) => Some(i@),
                None => None,
            }, depth as nat).0),
            final(self).position == mix(old(self).tokens@, old(self).position as int, match internal_ident {
                Some(i) => Some(i@),
                None => None,
            }, depth as nat).1,
            final(self).should_end == (old(self).should_end || mix(old(self).tokens@, old(self).position as int, match internal_ident {
                Some(i) => Some(i@),
                None => None,
            }, depth as nat).2),
            old(self).yields(*final(self), r),
            r is MixStatement || r is InternalStop,
        decreases depth, 22nat,
    {
        let _ = self.go();
        let identifier = match internal_ident {
            Some(i) => {
                let _ = self.go();
                i
            },
            None => {
                let name = self.go();
                match name.value {
                    TokenValue::Identifier(id) => id,
                    _ => {
                        let at = self.last();
                        return self.stop(ParseError::ExpectedMixTarget, &at);
                    },
                }
            },
        };
        let brace = self.go();
        match brace.value {
            TokenValue::Sign(SignType::CurlyBrace(Direction::Open)) => {},
            _ => {
                let at = self.last();
                return self.stop(ParseError::ExpectedOpeningBrace, &at);
            },
        }
        let mut functions: Vec<ParserFunctionData> = Vec::new();
        let ghost mut trees = Seq::<Tree>::empty();
        let ghost mut gave = false;
        let ghost goal = mix_rest(self.tokens@, Seq::empty(), false, self.position as int, depth as nat);
        while !self.is_sign(SignType::CurlyBrace(Direction::Close)) && !self.is_end()
            invariant
                old(self).advances_to(*self),
                functions@.len() == trees.len(),
                forall|i: int|
                    0 <= i < trees.len() ==> depicts_method(#[trigger] functions@[i], trees[i]),
                mix_rest(self.tokens@, trees, gave, self.position as int, depth as nat) == goal,
                self.should_end == (old(self).should_end || gave),
                depth > 0,
            decreases self.tokens@.len() - self.position,
        {
            let before = self.position;
            match self.parse_mix_function(depth) {
                Some(function) => {
                    proof {
                        trees = trees.push(method(self.tokens@, before as int, depth as nat).0->0);
                    }
                    functions.push(function);
                },
                None => {},
            }
            proof {
                gave = gave || method(self.tokens@, before as int, depth as nat).2;
            }
            if self.position == before {
                let _ = self.go();
            }
        }
        let closing = self.go();
        if !Self::is_closing(&closing) {
            let at = self.last();
            return self.stop(ParseError::ExpectedClosingBrace, &at);
        }
        ASTNode::MixStatement(identifier, functions)
    }

    /// A function of a mix, with `tied` before it for a method that gets
    /// its receiver.
    fn parse_mix_function(&mut self, depth: usize) -> (r: Option<ParserFunctionData>)
        requires
            old(self).wf(),
            depth > 0,
        ensures
            match method(old(self).tokens@, old(self).position as int, depth as nat).0 {
                Some(t) => r matches Some(m) && depicts_method(m, t),
                None => r is None,
            },
            final(self).position == method(old(self).tokens@, old(self).position as int, depth as nat).1,
            final(self).should_end == (old(self).should_end || method(old(self).tokens@, old(self).position as int, depth as nat).2),
            old(self).advances_to(*final(self)),
        decreases depth, 21nat,
    {
        let is_tied = self.is_keyword(KeywordType::Tied);
        if is_tied {
            let _ = self.go();
        }
        let ghost declared = function(self.tokens@, self.position as int, depth as nat).0;
        match self.parse_fn_declaration(depth) {
            ASTNode::FunctionDeclaration(name, args, body, return_type) => {
                assert(declared is Function);
                assert(depicts(*body, *declared->Function_2));
                match *body {
                    ASTNode::CodeBlock(code) => {
                        assert(*declared->Function_2 is Block);
                        let made = ParserFunctionData {
                            name,
                            args,
                            body: code,
                            return_type,
                            tied: is_tied,
                        };
                        assert(depicts_method(
                            made,
                            Tree::Method(
                                declared->Function_0,
                                declared->Function_1,
                                (*declared->Function_2)->Block_0,
                                declared->Function_3,
                                is_tied,
                            ),
                        ));
                        Some(made)
                    },
                    _ => {
                        assert(!(*declared->Function_2 is Block));
                        None
                    },
                }
            },
            _ => {
                assert(!(declared is Function));
                None
            },
        }
    }

    /// `exp fn ..` or `exp layout ..`: the declaration, which the module
    /// marks for export.
    fn parse_exp(&mut self, depth: usize) -> (r: ASTNode)
        requires
            old(self).wf(),
            depth > 0,
        ensures
            depicts(r, exported(old(self).tokens@, old(self).position as int, depth as nat).0),
            final(self).position == exported(old(self).tokens@, old(self).position as int, depth as nat).1,
            final(self).should_end == (old(self).should_end || exported(old(self).tokens@, old(self).position as int, depth as nat).2),
            old(self).yields(*final(self), r),
            old(self).exports(
                *final(self),
                exported(old(self).tokens@, old(self).position as int, depth as nat).0,
            ),
        decreases depth, 25nat,
    {
        let _ = self.go();
        if self.is_keyword(KeywordType::Fn) {
            let ghost declared = function(self.tokens@, self.position as int, depth as nat).0;
            proof {
                lemma_function_has_a_block(self.tokens@, self.position as int, depth as nat);
            }
            let fun = self.parse_fn_declaration(depth);
            match &fun {
                ASTNode::FunctionDeclaration(name, args, body, return_type) => {
                    assert(declared is Function);
                    assert(depicts(**body, *declared->Function_2));
                    match &**body {
                        ASTNode::CodeBlock(code) => {
                            let marked = ParserFunctionData {
                                name: name.clone(),
                                args: share(args),
                                body: share(code),
                                return_type: return_type.clone(),
                                tied: false,
                            };
                            assert(depicts_method(
                                marked,
                                Tree::Method(
                                    declared->Function_0,
                                    declared->Function_1,
                                    (*declared->Function_2)->Block_0,
                                    declared->Function_3,
                                    false,
                                ),
                            ));
                            self.module.push_unmodulated_fn(name.clone(), marked);
                        },
                        _ => {},
                    }
                },
                _ => {
                    assert(!(declared is Function));
                },
            }
            fun
        } else if self.is_keyword(KeywordType::Layout) {
            let ghost declared = layout(self.tokens@, self.position as int, depth as nat).0;
            proof {
                lemma_layout_comes_first(self.tokens@, self.position as int, depth as nat);
            }
            let layout = self.parse_layout_declaration(depth);
            match &layout {
                ASTNode::LayoutDeclaration(ld) => {
                    assert(declared is Layout);
                    self.module.push_unmodulated_layout(ld.name.clone(), ld.clone());
                },
                ASTNode::InternalMulti(nodes) => {
                    assert(declared is Multi);
                    assert(depicts(nodes@[0], declared->Multi_0[0]));
                    if nodes.len() > 0 {
                        match &nodes[0] {
                            ASTNode::LayoutDeclaration(ld) => {
                                self.module.push_unmodulated_layout(ld.name.clone(), ld.clone());
                            },
                            _ => {},
                        }
                    }
                },
                _ => {
                    assert(!(declared is Layout) && !(declared is Multi));
                },
            }
            layout
        } else {
            let at = self.curr();
            self.stop(ParseError::UnsupportedExport, &at)
        }
    }

    /// The syntax tree of the module: the statements of its text. The
    /// module gets the statements and is registered in `storage`; the
    /// diagnostics and the imports are handed out with the tree.
    pub fn gen_ast(self, storage: &mut ModuleStorage) -> (r: (ASTNode, Vec<Diagnostic>, Vec<String>))
        requires
            self.wf(),
        ensures
            r.0 matches ASTNode::Program(statements) && forall|i: int|
                0 <= i < statements@.len() ==> is_statement(#[trigger] statements@[i], r.1@, r.2@),
            r.1@.len() >= self.diagnostics@.len(),
            depict_all(
                r.0->Program_0@,
                program(
                    self.tokens@,
                    Seq::empty(),
                    self.should_end,
                    self.position as int,
                    self.depth_limit as nat,
                ),
            ),
            old(storage).index@.contains_key(self.module.name@) ==> *final(storage) == *old(storage),
            !old(storage).index@.contains_key(self.module.name@) ==> final(storage).modules@.len()
                == old(storage).modules@.len() + 1 && final(storage).modules@.last().ast
                == r.0->Program_0 && final(storage).modules@.last().name == self.module.name
                && final(storage).modules@.last().scope == self.module.scope,
    {
        let mut parser = self;
        let depth = parser.depth_limit;
        let mut body: Vec<ASTNode> = Vec::new();
        let ghost mut trees = Seq::<Tree>::empty();
        let ghost goal = program(
            self.tokens@,
            Seq::empty(),
            self.should_end,
            self.position as int,
            self.depth_limit as nat,
        );
        while !parser.is_end()
            invariant
                self.advances_to(parser),
                depth == parser.depth_limit,
                depth == self.depth_limit,
                depict_all(body@, trees),
                program(
                    parser.tokens@,
                    trees,
                    parser.should_end,
                    parser.position as int,
                    depth as nat,
                ) == goal,
                forall|i: int|
                    0 <= i < body@.len() ==> is_statement(
                        #[trigger] body@[i],
                        parser.diagnostics@,
                        parser.imports@,
                    ),
            decreases parser.tokens@.len() - parser.position,
        {
            let before = parser.position;
            let ghost one = statement(parser.tokens@, before as int, depth as nat);
            let ghost held = body@;
            let ghost earlier = trees;
            match parser.parse_expressions(depth) {
                ASTNode::InternalMulti(nodes) => {
                    let mut nodes = nodes;
                    proof {
                        trees = trees + one.0->Multi_0;
                    }
                    body.append(&mut nodes);
                },
                other => {
                    proof {
                        trees = trees.push(one.0);
                    }
                    body.push(other);
                },
            }
            proof {
                assert forall|i: int| 0 <= i < trees.len() implies depicts(
                    #[trigger] body@[i],
                    trees[i],
                ) by {
                    if i < earlier.len() {
                        assert(body@[i] == held[i]);
                    }
                }
            }
            if parser.should_end || parser.position == before {
                let _ = parser.go();
            }
        }
        let body = Arc::new(body);
        let mut module = parser.module;
        module.set_ast(share(&body));
        storage.push(module);
        (ASTNode::Program(body), parser.diagnostics, parser.imports)
    }
}

/// `longer` starts with `shorter`.
pub open spec fn extends(longer: Seq<String>, shorter: Seq<String>) -> bool {
    &&& shorter.len() <= longer.len()
    &&& forall|i: int|
        #![trigger longer[i]]
        #![trigger shorter[i]]
        0 <= i < shorter.len() ==> longer[i] == shorter[i]
}

/// Whether `path` is among `imports`.
pub open spec fn names(imports: Seq<String>, path: String) -> bool {
    exists|j: int| 0 <= j < imports.len() && #[trigger] imports[j] == path
}

/// Whether `node` can stand among the statements of a program that was
/// parsed with the diagnostics `diagnostics`: it is no program and stands
/// for no list of nodes; where it marks a place at which the parser gave
/// up, the parser has said so; and where it imports from a module, the
/// module is among `imports`.
pub open spec fn is_statement(node: ASTNode, diagnostics: Seq<Diagnostic>, imports: Seq<String>)
    -> bool {
    &&& !(node is Program)
    &&& !(node is Misc)
    &&& !(node is InternalMulti)
    &&& node is InternalStop ==> diagnostics.len() > 0
    &&& node matches ASTNode::UseModule(path, _) ==> names(imports, path)
}

/// The type that the word `ident` names: one of the built-in types, or the
/// layout or enum of that name. An `iterable` holds numbers.
pub fn type_named(ident: String) -> (r: DataType)
    ensures
        r@ == (if ident@ == "num"@ {
            crate::global::TypeView::Num(NumType::Dynamic)
        } else if ident@ == "str"@ {
            crate::global::TypeView::Str
        } else if ident@ == "null"@ {
            crate::global::TypeView::Null
        } else if ident@ == "bool"@ {
            crate::global::TypeView::Bool
        } else if ident@ == "iterable"@ {
            crate::global::TypeView::Iterable(
                Box::new(crate::global::TypeView::Num(NumType::Dynamic)),
            )
        } else {
            crate::global::TypeView::LayoutOrEnum(ident@)
        }),
        r == named_type(ident),
{
    if is_text(&ident, "iterable") {
        let mut generics: Vec<DataType> = Vec::new();
        let number = DataType::Primitive(PrimitiveDataType::Num(NumType::Dynamic));
        assert(number@ == crate::global::TypeView::Num(NumType::Dynamic));
        generics.push(number);
        assert(generics@[0] == number);
        DataType::from_str(ident, generics)
    } else {
        DataType::from_str(ident, Vec::new())
    }
}

/// A binary expression.
fn binary(left: ASTNode, right: ASTNode, operand: Operand) -> (r: ASTNode)
    ensures
        r matches ASTNode::Expression(ExpressionType::Binary(e)) && *e.left == left && *e.right
            == right && e.operand == operand,
{
    ASTNode::Expression(
        ExpressionType::Binary(
            Box::new(BinaryExpression { left: Box::new(left), right: Box::new(right), operand }),
        ),
    )
}

} // verus!
