//! What the parser makes of a list of tokens: for every place in the
//! tokens, the tree that the parser reads from there and the place at which
//! it stops.
//!
//! The functions here say which tree a construct is, how many tokens it
//! takes, and whether the parser marks itself to end on the way. They do
//! not say what the parser reports.

use crate::collections::StrMap;
use crate::global::{ComplexDataType, DataType, NumType, PrimitiveDataType};
use crate::interpreter::scope::{inserted, params_of};
use crate::lexer::structs::{Direction, KeywordType, OperatorType, SignType, Token, TokenValue};
use crate::number::Number;
use crate::parser::structs::{
    ASTNode,
    AssignmentProperty,
    ExpressionType,
    FieldParserDescription,
    IfStatement,
    Operand,
    ParserFunctionData,
};
use vstd::prelude::*;

verus! {

/// What is assigned to.
pub enum Target {
    Variable(Seq<char>),
    LayoutField(Seq<char>, Seq<char>),
}

/// A syntax tree by what it holds: texts by their characters, lists in
/// their order.
pub enum Tree {
    Null,
    Binary(Box<Tree>, Box<Tree>, Operand),
    Number(Number),
    Text(Seq<char>),
    Boolean(bool),
    Identifier(Seq<char>),
    /// Whether the variable is immutable, its name, its type, its value.
    Declaration(bool, Seq<char>, DataType, Box<Tree>),
    Assignment(Target, Box<Tree>),
    /// The count, then the operation.
    Repeat(Box<Tree>, Box<Tree>),
    /// The name, the parameters, the body, the return type.
    Function(Seq<char>, Seq<(Seq<char>, DataType)>, Box<Tree>, DataType),
    Binding(Seq<char>),
    Block(Seq<Tree>),
    Call(Box<Tree>, Seq<Tree>),
    /// The condition, the block, the block after `else`.
    If(Box<Tree>, Box<Tree>, Option<Box<Tree>>),
    /// The branches, each an `If`, and the block after `else`.
    Once(Seq<Tree>, Option<Box<Tree>>),
    UseNative(Seq<char>, Seq<char>),
    For(Box<Tree>, Box<Tree>),
    Accessor(Seq<char>, Seq<char>),
    Enum(Seq<char>, Seq<Seq<char>>),
    Typeof(Box<Tree>),
    /// The name, and the fields: each name with a `Field`.
    Layout(Seq<char>, Seq<(Seq<char>, Tree)>),
    /// The name of the type of a field, and its default.
    Field(Seq<char>, Option<Box<Tree>>),
    /// The name of the layout, and each given field with its value.
    Creation(Seq<char>, Seq<(Seq<char>, Tree)>),
    FieldAccess(Seq<char>, Seq<char>),
    /// The name of the layout, and the functions, each a `Method`.
    Mix(Seq<char>, Seq<Tree>),
    /// The name, the parameters, the statements of the body, the return
    /// type, and whether the method is tied.
    Method(Seq<char>, Seq<(Seq<char>, DataType)>, Seq<Tree>, DataType, bool),
    Multi(Seq<Tree>),
    UseModule(Seq<char>, Seq<char>),
    Lambda(Seq<(Seq<char>, DataType)>, Box<Tree>, DataType),
    /// Where the parser gave up.
    Stop,
}

/// Whether `property` names `target`.
pub open spec fn aims(property: AssignmentProperty, target: Target) -> bool {
    match target {
        Target::Variable(name) => property matches AssignmentProperty::Variable(n) && n@ == name,
        Target::LayoutField(name, field) => property matches AssignmentProperty::LayoutField(n, f)
            && n@ == name && f@ == field,
    }
}

/// Whether the branch `branch` is the tree `t`.
pub open spec fn depicts_branch(branch: IfStatement, t: Tree) -> bool
    decreases t, 0nat,
{
    match t {
        Tree::If(condition, block, other) => {
            &&& depicts(*branch.condition, *condition)
            &&& depicts(*branch.if_block, *block)
            &&& match other {
                Some(o) => branch.else_block matches Some(e) && depicts(*e, *o),
                None => branch.else_block is None,
            }
        },
        _ => false,
    }
}

/// Whether the field `field` is the tree `t`.
pub open spec fn depicts_field(field: FieldParserDescription, t: Tree) -> bool
    decreases t, 0nat,
{
    match t {
        Tree::Field(type_id, default) => {
            &&& field.type_id@ == type_id
            &&& match default {
                Some(d) => field.default_value matches Some(e) && depicts(*e, *d),
                None => field.default_value is None,
            }
        },
        _ => false,
    }
}

/// Whether the function `method` of a mix is the tree `t`.
pub open spec fn depicts_method(method: ParserFunctionData, t: Tree) -> bool
    decreases t, 0nat,
{
    match t {
        Tree::Method(name, params, body, result, tied) => {
            &&& method.name@ == name
            &&& params_of(*method.args) == params
            &&& method.return_type == result
            &&& method.tied == tied
            &&& method.body@.len() == body.len()
            &&& forall|i: int|
                0 <= i < body.len() ==> depicts(#[trigger] method.body@[i], body[i])
        },
        _ => false,
    }
}

/// The names of `pairs`, in their order.
pub open spec fn firsts(pairs: Seq<(Seq<char>, Tree)>) -> Seq<Seq<char>> {
    Seq::new(pairs.len(), |i: int| pairs[i].0)
}

/// `pairs` after `name` was bound to `tree`: a name that is there keeps its
/// place and gets the tree, a new name goes last.
pub open spec fn put(pairs: Seq<(Seq<char>, Tree)>, name: Seq<char>, tree: Tree) -> Seq<
    (Seq<char>, Tree),
> {
    if firsts(pairs).contains(name) {
        Seq::new(
            pairs.len(),
            |i: int|
                if pairs[i].0 == name {
                    (name, tree)
                } else {
                    pairs[i]
                },
        )
    } else {
        pairs.push((name, tree))
    }
}

/// Whether the node `node` is the tree `t`.
pub open spec fn depicts(node: ASTNode, t: Tree) -> bool
    decreases t, 1nat,
{
    match t {
        Tree::Null => node matches ASTNode::Expression(ExpressionType::Null),
        Tree::Binary(left, right, operand) => node matches ASTNode::Expression(
            ExpressionType::Binary(e),
        ) && e.operand == operand && depicts(*e.left, *left) && depicts(*e.right, *right),
        Tree::Number(n) => node matches ASTNode::Number(x) && x == n,
        Tree::Text(s) => node matches ASTNode::String(x) && x@ == s,
        Tree::Boolean(b) => node matches ASTNode::Boolean(x) && x == b,
        Tree::Identifier(s) => node matches ASTNode::Identifier(x) && x@ == s,
        Tree::Declaration(immutable, name, type_id, value) => node matches ASTNode::VariableDeclaration(
            i,
            n,
            ty,
            v,
        ) && i == immutable && n@ == name && ty == type_id && depicts(*v, *value),
        Tree::Assignment(target, value) => node matches ASTNode::Assignment(p, v) && aims(p, target)
            && depicts(*v, *value),
        Tree::Repeat(count, operation) => node matches ASTNode::RepeatOperation(c, o) && depicts(
            *c,
            *count,
        ) && depicts(*o, *operation),
        Tree::Function(name, params, body, result) => node matches ASTNode::FunctionDeclaration(
            n,
            a,
            b,
            r,
        ) && n@ == name && params_of(*a) == params && r == result && depicts(*b, *body),
        Tree::Binding(s) => node matches ASTNode::BindingAccess(x) && x@ == s,
        Tree::Block(nodes) => node matches ASTNode::CodeBlock(v) && v@.len() == nodes.len()
            && forall|i: int| 0 <= i < nodes.len() ==> depicts(#[trigger] v@[i], nodes[i]),
        Tree::Call(callee, args) => node matches ASTNode::FunctionCall(c, v) && depicts(
            *c,
            *callee,
        ) && v@.len() == args.len() && forall|i: int|
            0 <= i < args.len() ==> depicts(#[trigger] v@[i], args[i]),
        Tree::If(_, _, _) => node matches ASTNode::IfStatement(s) && depicts_branch(s, t),
        Tree::Once(branches, other) => node matches ASTNode::OnceStatement(s)
            && s.if_statements@.len() == branches.len() && (forall|i: int|
            0 <= i < branches.len() ==> depicts_branch(
                #[trigger] s.if_statements@[i],
                branches[i],
            )) && (match other {
            Some(o) => s.else_block matches Some(e) && depicts(*e, *o),
            None => s.else_block is None,
        }),
        Tree::UseNative(name, from) => node matches ASTNode::UseNative(u) && u.name@ == name
            && u.from@ == from,
        Tree::For(iterable, block) => node matches ASTNode::ForStatement(s) && depicts(
            *s.iterable,
            *iterable,
        ) && depicts(*s.block, *block),
        Tree::Accessor(a, b) => node matches ASTNode::ComplexTypeAccessor(x, y) && x@ == a && y@
            == b,
        Tree::Enum(name, entries) => node matches ASTNode::EnumDeclaration(n, v) && n@ == name
            && v@.len() == entries.len() && forall|i: int|
            0 <= i < entries.len() ==> (#[trigger] v@[i])@ == entries[i],
        Tree::Typeof(inner) => node matches ASTNode::Typeof(v) && depicts(*v, *inner),
        Tree::Layout(name, fields) => node matches ASTNode::LayoutDeclaration(d) && d.name@ == name
            && d.fields.keys() == firsts(fields) && forall|i: int|
            0 <= i < fields.len() ==> d.fields@.contains_key((#[trigger] fields[i]).0)
                && depicts_field(d.fields@[fields[i].0], fields[i].1),
        Tree::Field(_, _) => false,
        Tree::Creation(name, fields) => node matches ASTNode::LayoutCreation(c) && c.name@ == name
            && c.specified_fields.keys() == firsts(fields) && forall|i: int|
            0 <= i < fields.len() ==> c.specified_fields@.contains_key((#[trigger] fields[i]).0)
                && depicts(*c.specified_fields@[fields[i].0], fields[i].1),
        Tree::FieldAccess(a, b) => node matches ASTNode::LayoutFieldAccess(x, y) && x@ == a && y@
            == b,
        Tree::Mix(name, methods) => node matches ASTNode::MixStatement(n, v) && n@ == name
            && v@.len() == methods.len() && forall|i: int|
            0 <= i < methods.len() ==> depicts_method(#[trigger] v@[i], methods[i]),
        Tree::Method(_, _, _, _, _) => false,
        Tree::Multi(nodes) => node matches ASTNode::InternalMulti(v) && v@.len() == nodes.len()
            && forall|i: int| 0 <= i < nodes.len() ==> depicts(#[trigger] v@[i], nodes[i]),
        Tree::UseModule(path, symbol) => node matches ASTNode::UseModule(p, s) && p@ == path && s@
            == symbol,
        Tree::Lambda(params, body, result) => node matches ASTNode::Lambda(a, b, r) && params_of(
            *a,
        ) == params && r == result && depicts(*b, *body),
        Tree::Stop => node is InternalStop,
    }
}

/// The value of the token at `pos`; the end where the tokens are used up.
pub open spec fn val(t: Seq<Token>, pos: int) -> TokenValue {
    if 0 <= pos < t.len() {
        t[pos].value
    } else {
        TokenValue::End
    }
}

/// The place after the token at `pos` was read.
pub open spec fn next(t: Seq<Token>, pos: int) -> int {
    if pos < t.len() {
        pos + 1
    } else {
        pos
    }
}

/// Whether the text has ended at `pos`.
pub open spec fn ended(t: Seq<Token>, pos: int) -> bool {
    pos >= t.len() || val(t, pos) is End
}

/// Whether the sign `sign` stands at `pos`.
pub open spec fn sign_at(t: Seq<Token>, pos: int, sign: SignType) -> bool {
    val(t, pos) == TokenValue::Sign(sign)
}

/// Whether the operator `operator` stands at `pos`.
pub open spec fn operator_at(t: Seq<Token>, pos: int, operator: OperatorType) -> bool {
    val(t, pos) == TokenValue::Operator(operator)
}

/// Whether the keyword `keyword` stands at `pos`.
pub open spec fn keyword_at(t: Seq<Token>, pos: int, keyword: KeywordType) -> bool {
    val(t, pos) == TokenValue::Keyword(keyword)
}

/// Whether a closing brace stands at `pos`.
pub open spec fn closes(t: Seq<Token>, pos: int) -> bool {
    sign_at(t, pos, SignType::CurlyBrace(Direction::Close))
}

/// The type that the word `ident` names.
pub open spec fn named_type(ident: String) -> DataType {
    if ident@ == "num"@ {
        DataType::Primitive(PrimitiveDataType::Num(NumType::Dynamic))
    } else if ident@ == "str"@ {
        DataType::Primitive(PrimitiveDataType::Str)
    } else if ident@ == "null"@ {
        DataType::Primitive(PrimitiveDataType::Null)
    } else if ident@ == "bool"@ {
        DataType::Primitive(PrimitiveDataType::Bool)
    } else if ident@ == "iterable"@ {
        DataType::Primitive(
            PrimitiveDataType::Iterable(
                Box::new(DataType::Primitive(PrimitiveDataType::Num(NumType::Dynamic))),
            ),
        )
    } else {
        DataType::Complex(ComplexDataType::LayoutOrEnum(ident))
    }
}

/// What an assignment to `tree` assigns to.
pub open spec fn target_of(tree: Tree) -> Target {
    match tree {
        Tree::Identifier(name) => Target::Variable(name),
        Tree::FieldAccess(name, field) => Target::LayoutField(name, field),
        _ => Target::Variable("INTERNAL"@),
    }
}

/// The binary expression of two trees.
pub open spec fn binary_of(left: Tree, right: Tree, operand: Operand) -> Tree {
    Tree::Binary(Box::new(left), Box::new(right), operand)
}

/// A type: a name, or `nul` and the type that may be null. The third part
/// of what this and the functions after it give says whether the parser
/// marks itself to end on the way.
pub open spec fn data_type(t: Seq<Token>, pos: int, depth: nat) -> (DataType, int, bool)
    decreases depth, 7nat, 0int,
{
    match val(t, pos) {
        TokenValue::Identifier(ident) => if ident@ == "nul"@ {
            if depth == 0 {
                (DataType::Complex(ComplexDataType::Indefinite), next(t, pos), true)
            } else {
                let inner = data_type(t, next(t, pos), (depth - 1) as nat);
                (
                    DataType::Primitive(PrimitiveDataType::Nullable(Box::new(inner.0))),
                    inner.1,
                    inner.2,
                )
            }
        } else {
            (named_type(ident), next(t, pos), false)
        },
        _ => (DataType::Complex(ComplexDataType::Indefinite), next(t, pos), true),
    }
}

/// A statement or an expression, by the token that it starts with.
pub open spec fn statement(t: Seq<Token>, pos: int, depth: nat) -> (Tree, int, bool)
    decreases depth, 61nat, 0int,
{
    if depth == 0 {
        (Tree::Stop, pos, true)
    } else {
        match val(t, pos) {
            TokenValue::Keyword(keyword) => match keyword {
                KeywordType::Let => declaration(t, pos, depth),
                KeywordType::Const => declaration(t, pos, depth),
                KeywordType::Immut => declaration(t, pos, depth),
                KeywordType::Fn => function(t, pos, depth),
                KeywordType::If => branch(t, pos, depth),
                KeywordType::Once => once(t, pos, depth),
                KeywordType::Use => import(t, pos),
                KeywordType::Block => block(t, next(t, pos), depth),
                KeywordType::For => for_loop(t, pos, depth),
                KeywordType::Enum => enumeration(t, pos),
                KeywordType::Typeof => {
                    let v = assignment(t, next(t, pos), depth);
                    (Tree::Typeof(Box::new(v.0)), v.1, v.2)
                },
                KeywordType::Layout => layout(t, pos, depth),
                KeywordType::Mix => mix(t, pos, None, depth),
                KeywordType::Exp => exported(t, pos, depth),
                _ => (Tree::Null, pos, false),
            },
            TokenValue::Identifier(_) => assignment(t, pos, depth),
            TokenValue::Boolean(value) => (Tree::Boolean(value), next(t, pos), false),
            TokenValue::Operator(operator) => match operator {
                OperatorType::SelfAssign => self_assignment(t, pos, depth),
                _ => sums(t, pos, depth),
            },
            TokenValue::Sign(sign) => match sign {
                SignType::Paren(Direction::Open) => repeat(t, pos, depth),
                _ => assignment(t, pos, depth),
            },
            _ => assignment(t, pos, depth),
        }
    }
}

/// One or more ranges with `=` between them.
pub open spec fn assignment(t: Seq<Token>, pos: int, depth: nat) -> (Tree, int, bool)
    decreases depth, 33nat, 0int,
{
    let first = ranges(t, pos, depth);
    assignment_rest(t, first.0, first.2, first.1, depth)
}

/// The assignments that follow `left`, which was read up to `pos`; `gave`
/// says whether the parser has marked itself to end so far.
pub open spec fn assignment_rest(t: Seq<Token>, left: Tree, gave: bool, pos: int, depth: nat) -> (
    Tree,
    int,
    bool,
)
    decreases depth, 32nat, t.len() - pos,
{
    if operator_at(t, pos, OperatorType::Equal) {
        let right = ranges(t, pos + 1, depth);
        if pos < right.1 <= t.len() {
            assignment_rest(
                t,
                Tree::Assignment(target_of(left), Box::new(right.0)),
                gave || right.2,
                right.1,
                depth,
            )
        } else {
            (left, pos, gave)
        }
    } else {
        (left, pos, gave)
    }
}

/// One or more sums with `..` between them.
pub open spec fn ranges(t: Seq<Token>, pos: int, depth: nat) -> (Tree, int, bool)
    decreases depth, 31nat, 0int,
{
    let first = sums(t, pos, depth);
    ranges_rest(t, first.0, first.2, first.1, depth)
}

/// What follows `left`, which was read up to `pos`, at this rank; `gave`
/// says whether the parser has marked itself to end so far.
pub open spec fn ranges_rest(t: Seq<Token>, left: Tree, gave: bool, pos: int, depth: nat) -> (
    Tree,
    int,
    bool,
)
    decreases depth, 30nat, t.len() - pos,
{
    if sign_at(t, pos, SignType::DoubleDot) {
        let operand = Operand::DoubleDot;
        let right = sums(t, pos + 1, depth);
        if pos < right.1 <= t.len() {
            ranges_rest(t, binary_of(left, right.0, operand), gave || right.2, right.1, depth)
        } else {
            (left, pos, gave)
        }
    } else {
        (left, pos, gave)
    }
}

/// One or more products with `+` or `-` between them.
pub open spec fn sums(t: Seq<Token>, pos: int, depth: nat) -> (Tree, int, bool)
    decreases depth, 29nat, 0int,
{
    let first = products(t, pos, depth);
    sums_rest(t, first.0, first.2, first.1, depth)
}

/// What follows `left`, which was read up to `pos`, at this rank; `gave`
/// says whether the parser has marked itself to end so far.
pub open spec fn sums_rest(t: Seq<Token>, left: Tree, gave: bool, pos: int, depth: nat) -> (
    Tree,
    int,
    bool,
)
    decreases depth, 28nat, t.len() - pos,
{
    if operator_at(t, pos, OperatorType::Plus) || operator_at(t, pos, OperatorType::Minus) {
        let operand = if operator_at(t, pos, OperatorType::Plus) {
            Operand::Plus
        } else {
            Operand::Minus
        };
        let right = products(t, pos + 1, depth);
        if pos < right.1 <= t.len() {
            sums_rest(t, binary_of(left, right.0, operand), gave || right.2, right.1, depth)
        } else {
            (left, pos, gave)
        }
    } else {
        (left, pos, gave)
    }
}

/// One or more equalities with `*` or `/` between them.
pub open spec fn products(t: Seq<Token>, pos: int, depth: nat) -> (Tree, int, bool)
    decreases depth, 27nat, 0int,
{
    let first = equalities(t, pos, depth);
    products_rest(t, first.0, first.2, first.1, depth)
}

/// What follows `left`, which was read up to `pos`, at this rank; `gave`
/// says whether the parser has marked itself to end so far.
pub open spec fn products_rest(t: Seq<Token>, left: Tree, gave: bool, pos: int, depth: nat) -> (
    Tree,
    int,
    bool,
)
    decreases depth, 26nat, t.len() - pos,
{
    if operator_at(t, pos, OperatorType::Multiply) || operator_at(t, pos, OperatorType::Divide) {
        let operand = if operator_at(t, pos, OperatorType::Multiply) {
            Operand::Multiply
        } else {
            Operand::Divide
        };
        let right = equalities(t, pos + 1, depth);
        if pos < right.1 <= t.len() {
            products_rest(t, binary_of(left, right.0, operand), gave || right.2, right.1, depth)
        } else {
            (left, pos, gave)
        }
    } else {
        (left, pos, gave)
    }
}

/// One or more comparisons with `==` or `!=` between them.
pub open spec fn equalities(t: Seq<Token>, pos: int, depth: nat) -> (Tree, int, bool)
    decreases depth, 25nat, 0int,
{
    let first = comparisons(t, pos, depth);
    equalities_rest(t, first.0, first.2, first.1, depth)
}

/// What follows `left`, which was read up to `pos`, at this rank; `gave`
/// says whether the parser has marked itself to end so far.
pub open spec fn equalities_rest(t: Seq<Token>, left: Tree, gave: bool, pos: int, depth: nat) -> (
    Tree,
    int,
    bool,
)
    decreases depth, 24nat, t.len() - pos,
{
    if sign_at(t, pos, SignType::Equality) || sign_at(t, pos, SignType::Inequality) {
        let operand = if sign_at(t, pos, SignType::Equality) {
            Operand::Equality
        } else {
            Operand::Inequality
        };
        let right = comparisons(t, pos + 1, depth);
        if pos < right.1 <= t.len() {
            equalities_rest(t, binary_of(left, right.0, operand), gave || right.2, right.1, depth)
        } else {
            (left, pos, gave)
        }
    } else {
        (left, pos, gave)
    }
}

/// One or more calls with `>`, `<`, `>=` or `<=` between them.
pub open spec fn comparisons(t: Seq<Token>, pos: int, depth: nat) -> (Tree, int, bool)
    decreases depth, 23nat, 0int,
{
    let first = arrow_calls(t, pos, depth);
    comparisons_rest(t, first.0, first.2, first.1, depth)
}

/// What follows `left`, which was read up to `pos`, at this rank; `gave`
/// says whether the parser has marked itself to end so far.
pub open spec fn comparisons_rest(t: Seq<Token>, left: Tree, gave: bool, pos: int, depth: nat) -> (
    Tree,
    int,
    bool,
)
    decreases depth, 22nat, t.len() - pos,
{
    if operator_at(t, pos, OperatorType::Bigger) || operator_at(t, pos, OperatorType::Smaller) || operator_at(t, pos, OperatorType::BiggerEqual) || operator_at(t, pos, OperatorType::SmallerEqual) {
        let operand = if operator_at(t, pos, OperatorType::Bigger) {
            Operand::Bigger
        } else if operator_at(t, pos, OperatorType::Smaller) {
            Operand::Smaller
        } else if operator_at(t, pos, OperatorType::BiggerEqual) {
            Operand::BiggerEqual
        } else {
            Operand::SmallerEqual
        };
        let right = arrow_calls(t, pos + 1, depth);
        if pos < right.1 <= t.len() {
            comparisons_rest(t, binary_of(left, right.0, operand), gave || right.2, right.1, depth)
        } else {
            (left, pos, gave)
        }
    } else {
        (left, pos, gave)
    }
}

/// `value ->> name`: the call of `name` with the value.
pub open spec fn arrow_calls(t: Seq<Token>, pos: int, depth: nat) -> (Tree, int, bool)
    decreases depth, 21nat, 0int,
{
    let first = call(t, pos, depth);
    arrow_calls_rest(t, first.0, first.2, first.1, depth)
}

/// The calls with `->>` that follow `left`, which was read up to `pos`;
/// `gave` says whether the parser has marked itself to end so far.
pub open spec fn arrow_calls_rest(t: Seq<Token>, left: Tree, gave: bool, pos: int, depth: nat) -> (
    Tree,
    int,
    bool,
)
    decreases depth, 20nat, t.len() - pos,
{
    if sign_at(t, pos, SignType::DoubleArrow) {
        let right = call(t, pos + 1, depth);
        let called = match right.0 {
            Tree::Identifier(name) => Tree::Call(Box::new(Tree::Identifier(name)), seq![left]),
            _ => left,
        };
        if pos < right.1 <= t.len() {
            arrow_calls_rest(t, called, gave || right.2, right.1, depth)
        } else {
            (left, pos, gave)
        }
    } else {
        (left, pos, gave)
    }
}

/// A primary expression, and the arguments of a call where a parenthesis
/// follows it.
pub open spec fn call(t: Seq<Token>, pos: int, depth: nat) -> (Tree, int, bool)
    decreases depth, 19nat, 0int,
{
    let first = primary(t, pos, depth);
    let left = match first.0 {
        Some(tree) => tree,
        None => Tree::Null,
    };
    if sign_at(t, first.1, SignType::Paren(Direction::Open)) {
        let args = call_args(t, first.1, depth);
        (Tree::Call(Box::new(left), args.0), args.1, first.2 || args.2)
    } else {
        (left, first.1, first.2)
    }
}

/// The arguments between the parentheses.
pub open spec fn call_args(t: Seq<Token>, pos: int, depth: nat) -> (Seq<Tree>, int, bool)
    decreases depth, 17nat, 0int,
{
    let opened = next(t, pos);
    if depth == 0 {
        (Seq::empty(), pos, false)
    } else if sign_at(t, opened, SignType::Paren(Direction::Close)) {
        (Seq::empty(), next(t, opened), false)
    } else {
        let first = statement(t, opened, (depth - 1) as nat);
        call_args_rest(
            t,
            seq![first.0],
            first.2,
            sign_at(t, first.1, SignType::Comma),
            next(t, first.1),
            depth,
        )
    }
}

/// The arguments after `list`, from `pos` on; `comma` says whether a
/// comma was read last, `gave` whether the parser has marked itself to end
/// so far.
pub open spec fn call_args_rest(
    t: Seq<Token>,
    list: Seq<Tree>,
    gave: bool,
    comma: bool,
    pos: int,
    depth: nat,
) -> (Seq<Tree>, int, bool)
    decreases depth, 16nat, t.len() - pos,
{
    if depth > 0 && comma && !ended(t, pos) {
        let arg = statement(t, pos, (depth - 1) as nat);
        let after = next(t, arg.1);
        if pos < after <= t.len() {
            call_args_rest(
                t,
                list.push(arg.0),
                gave || arg.2,
                sign_at(t, arg.1, SignType::Comma),
                after,
                depth,
            )
        } else {
            (list, pos, gave)
        }
    } else {
        (list, pos, gave)
    }
}

/// A literal, a name with what hangs on it, a lambda, a binding, or an
/// expression in parentheses. A closing parenthesis gives nothing.
pub open spec fn primary(t: Seq<Token>, pos: int, depth: nat) -> (Option<Tree>, int, bool)
    decreases depth, 17nat, 0int,
{
    if depth == 0 {
        (None, pos, false)
    } else {
        match val(t, pos) {
            TokenValue::Sign(SignType::Paren(Direction::Open)) => {
                let inner = statement(t, next(t, pos), (depth - 1) as nat);
                (Some(inner.0), inner.1, inner.2)
            },
            TokenValue::Sign(SignType::Paren(Direction::Close)) => (None, next(t, pos), false),
            TokenValue::Sign(SignType::DoubleColon) => {
                let f = function_rest(t, next(t, pos), "MOSA_INTERNAL_LAMBDA"@, depth);
                (
                    Some(
                        match f.0 {
                            Tree::Function(_, params, body, result) => Tree::Lambda(
                                params,
                                body,
                                result,
                            ),
                            other => other,
                        },
                    ),
                    f.1,
                    f.2,
                )
            },
            TokenValue::String(v) => (Some(Tree::Text(v@)), next(t, pos), false),
            TokenValue::Number(v) => (Some(Tree::Number(v)), next(t, pos), false),
            TokenValue::Identifier(v) => {
                let p = next(t, pos);
                if sign_at(t, p, SignType::Arrow) {
                    let a = accessor(t, p, v@);
                    (Some(a.0), a.1, a.2)
                } else if sign_at(t, p, SignType::CurlyBrace(Direction::Open)) {
                    let c = creation(t, p, v@, depth);
                    (Some(c.0), c.1, c.2)
                } else if sign_at(t, p, SignType::Dot) {
                    let a = field_access(t, p, v@);
                    (Some(a.0), a.1, a.2)
                } else {
                    (Some(Tree::Identifier(v@)), p, false)
                }
            },
            TokenValue::Sign(SignType::Semicolon) => (Some(Tree::Null), next(t, pos), false),
            TokenValue::Sign(SignType::Caret) => {
                let b = binding(t, pos);
                (Some(b.0), b.1, b.2)
            },
            TokenValue::Sign(SignType::CurlyBrace(Direction::Close)) => (
                Some(Tree::Null),
                pos,
                false,
            ),
            TokenValue::Sign(_) => (Some(Tree::Null), next(t, pos), false),
            _ => (Some(Tree::Null), pos, false),
        }
    }
}

/// `^name`.
pub open spec fn binding(t: Seq<Token>, pos: int) -> (Tree, int, bool) {
    let p = next(t, pos);
    match val(t, p) {
        TokenValue::Identifier(name) => (Tree::Binding(name@), next(t, p), false),
        _ => (Tree::Stop, next(t, p), true),
    }
}

/// `-> entry`, after the name `of`.
pub open spec fn accessor(t: Seq<Token>, pos: int, of: Seq<char>) -> (Tree, int, bool) {
    let p = next(t, pos);
    match val(t, p) {
        TokenValue::Identifier(name) => (Tree::Accessor(of, name@), next(t, p), false),
        _ => (Tree::Stop, next(t, p), true),
    }
}

/// `. field`, after the name `of`.
pub open spec fn field_access(t: Seq<Token>, pos: int, of: Seq<char>) -> (Tree, int, bool) {
    let p = next(t, pos);
    match val(t, p) {
        TokenValue::Identifier(name) => (Tree::FieldAccess(of, name@), next(t, p), false),
        _ => (Tree::Stop, next(t, p), true),
    }
}

/// `fn name(parameters) -> type { .. }`.
pub open spec fn function(t: Seq<Token>, pos: int, depth: nat) -> (Tree, int, bool)
    decreases depth, 41nat, 0int,
{
    let p = next(t, pos);
    match val(t, p) {
        TokenValue::Identifier(name) => function_rest(t, next(t, p), name@, depth),
        _ => (Tree::Stop, p, true),
    }
}

/// The parameters, the return type and the body of the function `name`.
pub open spec fn function_rest(t: Seq<Token>, pos: int, name: Seq<char>, depth: nat) -> (
    Tree,
    int,
    bool,
)
    decreases depth, 15nat, 0int,
{
    if sign_at(t, pos, SignType::Paren(Direction::Open)) {
        let params = parameters(t, pos, depth);
        let arrow = next(t, params.1);
        let result = if sign_at(t, arrow, SignType::CurlyBrace(Direction::Open)) {
            (DataType::Primitive(PrimitiveDataType::Null), arrow, false)
        } else {
            data_type(t, arrow, depth)
        };
        let body = block(t, next(t, result.1), depth);
        (
            Tree::Function(name, params.0, Box::new(body.0), result.0),
            body.1,
            params.2 || result.2 || body.2,
        )
    } else {
        (Tree::Stop, pos, true)
    }
}

/// The parameters between the parentheses.
pub open spec fn parameters(t: Seq<Token>, pos: int, depth: nat) -> (
    Seq<(Seq<char>, DataType)>,
    int,
    bool,
)
    decreases depth, 13nat, 0int,
{
    let list = parameters_rest(t, Seq::empty(), false, next(t, pos), depth);
    (list.0, next(t, list.1), list.2)
}

/// The parameters after `list`, from `pos` on; `gave` says whether the
/// parser has marked itself to end so far.
pub open spec fn parameters_rest(
    t: Seq<Token>,
    list: Seq<(Seq<char>, DataType)>,
    gave: bool,
    pos: int,
    depth: nat,
) -> (Seq<(Seq<char>, DataType)>, int, bool)
    decreases depth, 12nat, t.len() - pos,
{
    if !sign_at(t, pos, SignType::Paren(Direction::Close)) && !ended(t, pos) {
        let arg = parameter(t, pos, depth);
        let comma = if sign_at(t, arg.1, SignType::Comma) {
            next(t, arg.1)
        } else {
            arg.1
        };
        let after = if comma == pos {
            next(t, comma)
        } else {
            comma
        };
        if pos < after <= t.len() {
            parameters_rest(t, inserted(list, arg.0.0, arg.0.1), gave || arg.2, after, depth)
        } else {
            (list, pos, gave)
        }
    } else {
        (list, pos, gave)
    }
}

/// `name: type`.
pub open spec fn parameter(t: Seq<Token>, pos: int, depth: nat) -> (
    (Seq<char>, DataType),
    int,
    bool,
)
    decreases depth, 11nat, 0int,
{
    let p = next(t, pos);
    match val(t, pos) {
        TokenValue::Identifier(name) => if sign_at(t, p, SignType::Colon) {
            let ty = data_type(t, next(t, p), depth);
            ((name@, ty.0), ty.1, ty.2)
        } else {
            (("UNKNOWN"@, DataType::InternalInfer), p, true)
        },
        _ => (("UNKNOWN"@, DataType::InternalInfer), p, true),
    }
}

/// The statements up to the closing brace, which is read too.
pub open spec fn block(t: Seq<Token>, pos: int, depth: nat) -> (Tree, int, bool)
    decreases depth, 13nat, 0int,
{
    let nodes = block_rest(t, Seq::empty(), false, pos, depth);
    (Tree::Block(nodes.0), next(t, nodes.1), nodes.2)
}

/// The statements of a block after `list`, from `pos` on; `gave` says
/// whether the parser has marked itself to end so far.
pub open spec fn block_rest(t: Seq<Token>, list: Seq<Tree>, gave: bool, pos: int, depth: nat) -> (
    Seq<Tree>,
    int,
    bool,
)
    decreases depth, 12nat, t.len() - pos,
{
    if depth > 0 && !closes(t, pos) && !ended(t, pos) {
        let node = statement(t, pos, (depth - 1) as nat);
        let after = if node.1 == pos {
            next(t, node.1)
        } else {
            node.1
        };
        if pos < after <= t.len() {
            block_rest(t, list.push(node.0), gave || node.2, after, depth)
        } else {
            (list, pos, gave)
        }
    } else {
        (list, pos, gave)
    }
}

/// `let name: type = value`, with `immut` before it or not.
pub open spec fn declaration(t: Seq<Token>, pos: int, depth: nat) -> (Tree, int, bool)
    decreases depth, 37nat, 0int,
{
    let immutable = keyword_at(t, pos, KeywordType::Immut);
    let first = next(t, pos);
    let named = if immutable {
        next(t, first)
    } else {
        first
    };
    let typed = next(t, named);
    match val(t, named) {
        TokenValue::Identifier(name) => if depth == 0 {
            (Tree::Stop, typed, true)
        } else if !sign_at(t, typed, SignType::Colon) && immutable {
            (Tree::Stop, typed, true)
        } else {
            let ty = if !sign_at(t, typed, SignType::Colon) {
                (DataType::InternalInfer, typed, false)
            } else {
                data_type(t, next(t, typed), depth)
            };
            let valued = next(t, ty.1);
            if !operator_at(t, ty.1, OperatorType::Equal) && immutable {
                (Tree::Stop, valued, true)
            } else {
                let value = statement(t, valued, (depth - 1) as nat);
                (
                    Tree::Declaration(immutable, name@, ty.0, Box::new(value.0)),
                    value.1,
                    ty.2 || value.2,
                )
            }
        },
        _ => (Tree::Stop, typed, true),
    }
}

/// `if condition { .. }`, with `else { .. }` after it or not.
pub open spec fn branch(t: Seq<Token>, pos: int, depth: nat) -> (Tree, int, bool)
    decreases depth, 37nat, 0int,
{
    if depth == 0 {
        (Tree::Stop, pos, true)
    } else {
        let condition = statement(t, next(t, pos), (depth - 1) as nat);
        let first = block(t, condition.1, depth);
        if keyword_at(t, first.1, KeywordType::Else) {
            let other = block(t, next(t, first.1), depth);
            (
                Tree::If(
                    Box::new(condition.0),
                    Box::new(first.0),
                    Some(Box::new(other.0)),
                ),
                other.1,
                condition.2 || first.2 || other.2,
            )
        } else {
            (
                Tree::If(Box::new(condition.0), Box::new(first.0), None),
                first.1,
                condition.2 || first.2,
            )
        }
    }
}

/// `once { if .. if .. }`, with `else { .. }` after it or not.
pub open spec fn once(t: Seq<Token>, pos: int, depth: nat) -> (Tree, int, bool)
    decreases depth, 39nat, 0int,
{
    let branches = once_rest(t, Seq::empty(), false, next(t, next(t, pos)), depth);
    let closed = next(t, branches.1);
    if keyword_at(t, closed, KeywordType::Else) {
        let other = block(t, next(t, closed), depth);
        (Tree::Once(branches.0, Some(Box::new(other.0))), other.1, branches.2 || other.2)
    } else {
        (Tree::Once(branches.0, None), closed, branches.2)
    }
}

/// The branches after `list`, from `pos` on; `gave` says whether the
/// parser has marked itself to end so far.
pub open spec fn once_rest(t: Seq<Token>, list: Seq<Tree>, gave: bool, pos: int, depth: nat) -> (
    Seq<Tree>,
    int,
    bool,
)
    decreases depth, 38nat, t.len() - pos,
{
    if !closes(t, pos) && !ended(t, pos) {
        let one = branch(t, pos, depth);
        if pos < one.1 <= t.len() {
            once_rest(t, list.push(one.0), gave || one.2, one.1, depth)
        } else {
            (list, pos, gave)
        }
    } else {
        (list, pos, gave)
    }
}

/// `for iterable { .. }`.
pub open spec fn for_loop(t: Seq<Token>, pos: int, depth: nat) -> (Tree, int, bool)
    decreases depth, 37nat, 0int,
{
    if depth == 0 {
        (Tree::Stop, pos, true)
    } else {
        let iterable = statement(t, next(t, pos), (depth - 1) as nat);
        let body = block(t, iterable.1, depth);
        (Tree::For(Box::new(iterable.0), Box::new(body.0)), body.1, iterable.2 || body.2)
    }
}

/// `:= target value`: the target is looked at and read again with the
/// value. What the look marks does not stay.
pub open spec fn self_assignment(t: Seq<Token>, pos: int, depth: nat) -> (Tree, int, bool)
    decreases depth, 37nat, 0int,
{
    let p = next(t, pos);
    if depth == 0 {
        (Tree::Stop, p, true)
    } else {
        match primary(t, p, depth).0 {
            Some(target) => {
                let value = statement(t, p, (depth - 1) as nat);
                (Tree::Assignment(target_of(target), Box::new(value.0)), value.1, value.2)
            },
            None => (Tree::Stop, p, true),
        }
    }
}

/// `(operation) ?: count`, or an expression in parentheses.
pub open spec fn repeat(t: Seq<Token>, pos: int, depth: nat) -> (Tree, int, bool)
    decreases depth, 37nat, 0int,
{
    if depth == 0 {
        (Tree::Stop, pos, true)
    } else {
        let operation = statement(t, next(t, pos), (depth - 1) as nat);
        let closed = if sign_at(t, operation.1, SignType::Paren(Direction::Close)) {
            next(t, operation.1)
        } else {
            operation.1
        };
        if operator_at(t, closed, OperatorType::Repeat) {
            let count = statement(t, next(t, closed), (depth - 1) as nat);
            (
                Tree::Repeat(Box::new(count.0), Box::new(operation.0)),
                count.1,
                operation.2 || count.2,
            )
        } else {
            (operation.0, closed, operation.2)
        }
    }
}

/// `use`, for a native function or for a symbol of a module.
pub open spec fn import(t: Seq<Token>, pos: int) -> (Tree, int, bool) {
    let p = next(t, pos);
    if keyword_at(t, p, KeywordType::Native) {
        native(t, p)
    } else {
        module(t, p)
    }
}

/// `native fn name # "path"`.
pub open spec fn native(t: Seq<Token>, pos: int) -> (Tree, int, bool) {
    let keyword = next(t, pos);
    let named = next(t, keyword);
    let hashed = next(t, named);
    let from = next(t, hashed);
    if !(val(t, keyword) == TokenValue::Keyword(KeywordType::Fn)) {
        (Tree::Stop, named, true)
    } else {
        match val(t, named) {
            TokenValue::Identifier(name) => match val(t, from) {
                TokenValue::String(path) => (Tree::UseNative(name@, path@), next(t, from), false),
                _ => (Tree::Stop, next(t, from), true),
            },
            _ => (Tree::Stop, hashed, true),
        }
    }
}

/// The path of a module from `pos` on, after its first part `path`: the
/// parts with `:` between them.
pub open spec fn path_of(t: Seq<Token>, path: Seq<char>, pos: int) -> (Seq<char>, int)
    decreases t.len() - pos,
{
    if sign_at(t, pos, SignType::Colon) && 0 <= pos < t.len() {
        match val(t, pos + 1) {
            TokenValue::Identifier(part) => path_of(t, path.push(':') + part@, next(t, pos + 1)),
            _ => path_of(t, path, pos + 1),
        }
    } else {
        (path, pos)
    }
}

/// `path:to:module ~> symbol`. Without a path the parser goes on.
pub open spec fn module(t: Seq<Token>, pos: int) -> (Tree, int, bool) {
    match val(t, pos) {
        TokenValue::Identifier(first) => {
            let path = path_of(t, first@, next(t, pos));
            let symbol = next(t, path.1);
            match val(t, symbol) {
                TokenValue::Identifier(name) => (
                    Tree::UseModule(path.0, name@),
                    next(t, symbol),
                    false,
                ),
                _ => (Tree::Stop, next(t, symbol), true),
            }
        },
        _ => (Tree::Stop, next(t, pos), false),
    }
}

/// `enum Name { A, B, .. }`.
pub open spec fn enumeration(t: Seq<Token>, pos: int) -> (Tree, int, bool) {
    let named = next(t, pos);
    let braced = next(t, named);
    match val(t, named) {
        TokenValue::Identifier(name) => if !sign_at(
            t,
            braced,
            SignType::CurlyBrace(Direction::Open),
        ) {
            (Tree::Stop, next(t, braced), true)
        } else {
            let entries = enum_entries(t, next(t, braced));
            (Tree::Enum(name@, entries.0), entries.1, false)
        },
        _ => (Tree::Stop, braced, true),
    }
}

/// The token that is read after an entry, and the place after it: a comma
/// before the closing brace is passed over.
pub open spec fn separator(t: Seq<Token>, pos: int) -> (TokenValue, int) {
    let p = next(t, pos);
    if val(t, pos) == TokenValue::Sign(SignType::Comma) && closes(t, p) {
        (val(t, p), next(t, p))
    } else {
        (val(t, pos), p)
    }
}

/// The entries of an enum, with commas between them, up to the closing
/// brace.
pub open spec fn enum_entries(t: Seq<Token>, pos: int) -> (Seq<Seq<char>>, int) {
    let first = match val(t, pos) {
        TokenValue::Identifier(name) => seq![name@],
        _ => Seq::empty(),
    };
    let sep = separator(t, next(t, pos));
    enum_entries_rest(t, first, sep.0 == TokenValue::Sign(SignType::Comma), sep.1)
}

/// The entries after `list`, from `pos` on; `comma` says whether a comma
/// was read last.
pub open spec fn enum_entries_rest(t: Seq<Token>, list: Seq<Seq<char>>, comma: bool, pos: int) -> (
    Seq<Seq<char>>,
    int,
)
    decreases t.len() - pos,
{
    if comma && !closes(t, pos) && !ended(t, pos) && 0 <= pos {
        let longer = match val(t, pos) {
            TokenValue::Identifier(name) => list.push(name@),
            _ => list,
        };
        let sep = separator(t, pos + 1);
        enum_entries_rest(t, longer, sep.0 == TokenValue::Sign(SignType::Comma), sep.1)
    } else {
        (list, pos)
    }
}

/// `layout Name { field: type = default, .. }`, with the methods of a
/// `mix @ { .. }` after it or not.
pub open spec fn layout(t: Seq<Token>, pos: int, depth: nat) -> (Tree, int, bool)
    decreases depth, 49nat, 0int,
{
    let named = next(t, pos);
    let braced = next(t, named);
    match val(t, named) {
        TokenValue::Identifier(name) => if !sign_at(
            t,
            braced,
            SignType::CurlyBrace(Direction::Open),
        ) {
            (Tree::Stop, next(t, braced), true)
        } else {
            let fields = layout_fields(t, next(t, braced), depth);
            let declared = Tree::Layout(name@, fields.0);
            let mixed = inner_mix(t, fields.1, name@, depth);
            match mixed.0 {
                Some(m) => (Tree::Multi(seq![declared, m]), mixed.1, fields.2 || mixed.2),
                None => (declared, mixed.1, fields.2 || mixed.2),
            }
        },
        _ => (Tree::Stop, braced, true),
    }
}

/// The mix that follows a layout declaration, if `mix @` follows it.
pub open spec fn inner_mix(t: Seq<Token>, pos: int, name: Seq<char>, depth: nat) -> (
    Option<Tree>,
    int,
    bool,
)
    decreases depth, 47nat, 0int,
{
    if keyword_at(t, pos, KeywordType::Mix) && val(t, pos + 1) == TokenValue::Sign(SignType::At) {
        let m = mix(t, pos, Some(name), depth);
        (Some(m.0), m.1, m.2)
    } else {
        (None, pos, false)
    }
}

/// The token that is read after the first field, and the place after it: a
/// closing brace after it is read too.
pub open spec fn first_separator(t: Seq<Token>, pos: int) -> (TokenValue, int) {
    let p = next(t, pos);
    if closes(t, p) {
        (val(t, p), next(t, p))
    } else {
        (val(t, pos), p)
    }
}

/// `list` with the entry `entry`, if there is one.
pub open spec fn with_entry(list: Seq<(Seq<char>, Tree)>, entry: Option<(Seq<char>, Tree)>) -> Seq<
    (Seq<char>, Tree),
> {
    match entry {
        Some(e) => put(list, e.0, e.1),
        None => list,
    }
}

/// The fields of a layout, with commas between them, up to the closing
/// brace. Fields that do not end with a closing brace mark the parser to
/// end.
pub open spec fn layout_fields(t: Seq<Token>, pos: int, depth: nat) -> (
    Seq<(Seq<char>, Tree)>,
    int,
    bool,
)
    decreases depth, 11nat, 0int,
{
    let first = if val(t, pos) is Identifier {
        let e = layout_field(t, pos, depth);
        (with_entry(Seq::empty(), e.0), e.1, e.2)
    } else {
        (Seq::empty(), pos, false)
    };
    let sep = first_separator(t, first.1);
    layout_fields_rest(t, first.0, first.2, sep.0, sep.1, depth)
}

/// The fields after `list`, from `pos` on; `last` is the token that was
/// read last, `gave` says whether the parser has marked itself to end so
/// far.
pub open spec fn layout_fields_rest(
    t: Seq<Token>,
    list: Seq<(Seq<char>, Tree)>,
    gave: bool,
    last: TokenValue,
    pos: int,
    depth: nat,
) -> (Seq<(Seq<char>, Tree)>, int, bool)
    decreases depth, 10nat, t.len() - pos,
{
    let done = (list, pos, gave || !(last == TokenValue::Sign(SignType::CurlyBrace(Direction::Close))));
    if last == TokenValue::Sign(SignType::Comma) && !closes(t, pos) && !ended(t, pos) {
        let one = if val(t, pos) is Identifier {
            let e = layout_field(t, pos, depth);
            (with_entry(list, e.0), e.1, e.2)
        } else {
            (list, pos, false)
        };
        let sep = separator(t, one.1);
        if pos < sep.1 <= t.len() {
            layout_fields_rest(t, one.0, gave || one.2, sep.0, sep.1, depth)
        } else {
            done
        }
    } else {
        done
    }
}

/// `name: type`, with `= default` after it or not.
pub open spec fn layout_field(t: Seq<Token>, pos: int, depth: nat) -> (
    Option<(Seq<char>, Tree)>,
    int,
    bool,
)
    decreases depth, 9nat, 0int,
{
    let colon = next(t, pos);
    let typed = next(t, colon);
    let after = next(t, typed);
    match val(t, pos) {
        TokenValue::Identifier(name) => if !sign_at(t, colon, SignType::Colon) {
            (None, typed, true)
        } else {
            match val(t, typed) {
                TokenValue::Identifier(type_id) => if operator_at(t, after, OperatorType::Equal)
                    && depth > 0 {
                    let default = statement(t, next(t, after), (depth - 1) as nat);
                    (
                        Some((name@, Tree::Field(type_id@, Some(Box::new(default.0))))),
                        default.1,
                        default.2,
                    )
                } else {
                    (Some((name@, Tree::Field(type_id@, None))), after, false)
                },
                _ => (None, after, true),
            }
        },
        _ => (None, colon, false),
    }
}

/// `{ field = value, .. }`, after the name `name` of a layout.
pub open spec fn creation(t: Seq<Token>, pos: int, name: Seq<char>, depth: nat) -> (
    Tree,
    int,
    bool,
)
    decreases depth, 15nat, 0int,
{
    let fields = creation_fields(t, next(t, pos), depth);
    (Tree::Creation(name, fields.0), fields.1, fields.2)
}

/// The fields of a new instance, with commas between them, up to the
/// closing brace.
pub open spec fn creation_fields(t: Seq<Token>, pos: int, depth: nat) -> (
    Seq<(Seq<char>, Tree)>,
    int,
    bool,
)
    decreases depth, 13nat, 0int,
{
    let first = if val(t, pos) is Identifier {
        let e = creation_field(t, pos, depth);
        (with_entry(Seq::empty(), e.0), e.1, e.2)
    } else {
        (Seq::empty(), pos, false)
    };
    let sep = first_separator(t, first.1);
    creation_fields_rest(
        t,
        first.0,
        first.2,
        sep.0 == TokenValue::Sign(SignType::Comma),
        sep.1,
        depth,
    )
}

/// The given fields after `list`, from `pos` on; `comma` says whether a
/// comma was read last, `gave` whether the parser has marked itself to end
/// so far.
pub open spec fn creation_fields_rest(
    t: Seq<Token>,
    list: Seq<(Seq<char>, Tree)>,
    gave: bool,
    comma: bool,
    pos: int,
    depth: nat,
) -> (Seq<(Seq<char>, Tree)>, int, bool)
    decreases depth, 12nat, t.len() - pos,
{
    if comma && !closes(t, pos) && !ended(t, pos) {
        let one = if val(t, pos) is Identifier {
            let e = creation_field(t, pos, depth);
            (with_entry(list, e.0), e.1, e.2)
        } else {
            (list, pos, false)
        };
        let sep = separator(t, one.1);
        if pos < sep.1 <= t.len() {
            creation_fields_rest(
                t,
                one.0,
                gave || one.2,
                sep.0 == TokenValue::Sign(SignType::Comma),
                sep.1,
                depth,
            )
        } else {
            (list, pos, gave)
        }
    } else {
        (list, pos, gave)
    }
}

/// `name = value`.
pub open spec fn creation_field(t: Seq<Token>, pos: int, depth: nat) -> (
    Option<(Seq<char>, Tree)>,
    int,
    bool,
)
    decreases depth, 11nat, 0int,
{
    let equals = next(t, pos);
    let valued = next(t, equals);
    match val(t, pos) {
        TokenValue::Identifier(name) => if !operator_at(t, equals, OperatorType::Equal) || depth
            == 0 {
            (None, valued, true)
        } else {
            let value = statement(t, valued, (depth - 1) as nat);
            (Some((name@, value.0)), value.1, value.2)
        },
        _ => (None, equals, false),
    }
}

/// `mix Name { fn .. tied fn .. }`; within a layout declaration the name is
/// `inner`, and `@` stands in its place.
pub open spec fn mix(t: Seq<Token>, pos: int, inner: Option<Seq<char>>, depth: nat) -> (
    Tree,
    int,
    bool,
)
    decreases depth, 45nat, 0int,
{
    let named = next(t, pos);
    let braced = next(t, named);
    let name = match inner {
        Some(n) => Some(n),
        None => match val(t, named) {
            TokenValue::Identifier(n) => Some(n@),
            _ => None,
        },
    };
    match name {
        None => (Tree::Stop, braced, true),
        Some(n) => if !sign_at(t, braced, SignType::CurlyBrace(Direction::Open)) {
            (Tree::Stop, next(t, braced), true)
        } else {
            let methods = mix_rest(t, Seq::empty(), false, next(t, braced), depth);
            if closes(t, methods.1) {
                (Tree::Mix(n, methods.0), next(t, methods.1), methods.2)
            } else {
                (Tree::Stop, next(t, methods.1), true)
            }
        },
    }
}

/// The functions of a mix after `list`, from `pos` on; `gave` says whether
/// the parser has marked itself to end so far.
pub open spec fn mix_rest(t: Seq<Token>, list: Seq<Tree>, gave: bool, pos: int, depth: nat) -> (
    Seq<Tree>,
    int,
    bool,
)
    decreases depth, 44nat, t.len() - pos,
{
    if !closes(t, pos) && !ended(t, pos) {
        let one = method(t, pos, depth);
        let longer = match one.0 {
            Some(m) => list.push(m),
            None => list,
        };
        let after = if one.1 == pos {
            next(t, one.1)
        } else {
            one.1
        };
        if pos < after <= t.len() {
            mix_rest(t, longer, gave || one.2, after, depth)
        } else {
            (list, pos, gave)
        }
    } else {
        (list, pos, gave)
    }
}

/// A function of a mix, with `tied` before it or not.
pub open spec fn method(t: Seq<Token>, pos: int, depth: nat) -> (Option<Tree>, int, bool)
    decreases depth, 43nat, 0int,
{
    let tied = keyword_at(t, pos, KeywordType::Tied);
    let f = function(
        t,
        if tied {
            next(t, pos)
        } else {
            pos
        },
        depth,
    );
    (
        match f.0 {
            Tree::Function(name, params, body, result) => match *body {
                Tree::Block(nodes) => Some(Tree::Method(name, params, nodes, result, tied)),
                _ => None,
            },
            _ => None,
        },
        f.1,
        f.2,
    )
}

/// `exp fn ..` or `exp layout ..`.
pub open spec fn exported(t: Seq<Token>, pos: int, depth: nat) -> (Tree, int, bool)
    decreases depth, 51nat, 0int,
{
    let p = next(t, pos);
    if keyword_at(t, p, KeywordType::Fn) {
        function(t, p, depth)
    } else if keyword_at(t, p, KeywordType::Layout) {
        layout(t, p, depth)
    } else {
        (Tree::Stop, p, true)
    }
}

/// Whether the fields `m` of a layout are `pairs`, in their order.
pub open spec fn lists_fields(m: StrMap<FieldParserDescription>, pairs: Seq<(Seq<char>, Tree)>)
    -> bool {
    &&& m.keys() == firsts(pairs)
    &&& forall|i: int|
        0 <= i < pairs.len() ==> m@.contains_key((#[trigger] pairs[i]).0) && depicts_field(
            m@[pairs[i].0],
            pairs[i].1,
        )
}

/// Whether the values `m` of the fields of a new instance are `pairs`, in
/// their order.
pub open spec fn lists_values(m: StrMap<Box<ASTNode>>, pairs: Seq<(Seq<char>, Tree)>) -> bool {
    &&& m.keys() == firsts(pairs)
    &&& forall|i: int|
        0 <= i < pairs.len() ==> m@.contains_key((#[trigger] pairs[i]).0) && depicts(
            *m@[pairs[i].0],
            pairs[i].1,
        )
}

/// The names of `put(pairs, name, tree)`: those of `pairs`, and `name` at
/// the end where it is new.
pub proof fn lemma_firsts_of_put(pairs: Seq<(Seq<char>, Tree)>, name: Seq<char>, tree: Tree)
    ensures
        firsts(put(pairs, name, tree)) == (if firsts(pairs).contains(name) {
            firsts(pairs)
        } else {
            firsts(pairs).push(name)
        }),
{
    assert(firsts(put(pairs, name, tree)) =~= (if firsts(pairs).contains(name) {
        firsts(pairs)
    } else {
        firsts(pairs).push(name)
    }));
}

/// A field that is put into the fields of a layout is put into their
/// trees.
pub proof fn lemma_put_field(
    before: StrMap<FieldParserDescription>,
    after: StrMap<FieldParserDescription>,
    pairs: Seq<(Seq<char>, Tree)>,
    name: Seq<char>,
    field: FieldParserDescription,
    tree: Tree,
)
    requires
        lists_fields(before, pairs),
        forall|k: Seq<char>| #[trigger] before@.contains_key(k) <==> before.keys().contains(k),
        after@ == before@.insert(name, field),
        after.keys() == (if before@.contains_key(name) {
            before.keys()
        } else {
            before.keys().push(name)
        }),
        depicts_field(field, tree),
    ensures
        lists_fields(after, put(pairs, name, tree)),
{
    lemma_firsts_of_put(pairs, name, tree);
    let longer = put(pairs, name, tree);
    assert forall|i: int| 0 <= i < longer.len() implies after@.contains_key(
        (#[trigger] longer[i]).0,
    ) && depicts_field(after@[longer[i].0], longer[i].1) by {
        if i < pairs.len() {
            assert(pairs[i].0 == firsts(pairs)[i]);
            if pairs[i].0 != name {
                assert(longer[i] == pairs[i]);
            }
        }
    }
}

/// A value that is put into the fields of a new instance is put into their
/// trees.
pub proof fn lemma_put_value(
    before: StrMap<Box<ASTNode>>,
    after: StrMap<Box<ASTNode>>,
    pairs: Seq<(Seq<char>, Tree)>,
    name: Seq<char>,
    value: Box<ASTNode>,
    tree: Tree,
)
    requires
        lists_values(before, pairs),
        forall|k: Seq<char>| #[trigger] before@.contains_key(k) <==> before.keys().contains(k),
        after@ == before@.insert(name, value),
        after.keys() == (if before@.contains_key(name) {
            before.keys()
        } else {
            before.keys().push(name)
        }),
        depicts(*value, tree),
    ensures
        lists_values(after, put(pairs, name, tree)),
{
    lemma_firsts_of_put(pairs, name, tree);
    let longer = put(pairs, name, tree);
    assert forall|i: int| 0 <= i < longer.len() implies after@.contains_key(
        (#[trigger] longer[i]).0,
    ) && depicts(*after@[longer[i].0], longer[i].1) by {
        if i < pairs.len() {
            assert(pairs[i].0 == firsts(pairs)[i]);
            if pairs[i].0 != name {
                assert(longer[i] == pairs[i]);
            }
        }
    }
}

/// The body of a function is a block.
pub proof fn lemma_function_has_a_block(t: Seq<Token>, pos: int, depth: nat)
    ensures
        function(t, pos, depth).0 matches Tree::Function(_, _, body, _) ==> *body is Block,
{
    reveal_with_fuel(function, 2);
    reveal_with_fuel(function_rest, 2);
    reveal_with_fuel(block, 2);
}

/// Where a layout declaration stands for two nodes, the first is the
/// layout.
pub proof fn lemma_layout_comes_first(t: Seq<Token>, pos: int, depth: nat)
    ensures
        layout(t, pos, depth).0 matches Tree::Multi(nodes) ==> nodes.len() == 2
            && nodes[0] is Layout,
        layout(t, pos, depth).0 is Layout || layout(t, pos, depth).0 is Multi || layout(
            t,
            pos,
            depth,
        ).0 is Stop,
{
    reveal_with_fuel(layout, 2);
}

/// The statements of a text, after `list` and from `pos` on: one after
/// the other, a layout with its mix as two statements. A statement that
/// takes no token is followed by the reading of one token, and so is every
/// statement once the parser has marked itself to end; `gave` says whether
/// it has so far.
pub open spec fn program(t: Seq<Token>, list: Seq<Tree>, gave: bool, pos: int, depth: nat) -> Seq<
    Tree,
>
    decreases t.len() - pos,
{
    if 0 <= pos && !ended(t, pos) {
        let one = statement(t, pos, depth);
        let longer = match one.0 {
            Tree::Multi(nodes) => list + nodes,
            other => list.push(other),
        };
        let after = if gave || one.2 || one.1 == pos {
            next(t, one.1)
        } else {
            one.1
        };
        if pos < after <= t.len() {
            program(t, longer, gave || one.2, after, depth)
        } else {
            list
        }
    } else {
        list
    }
}

/// Whether the nodes `nodes` are the trees `trees`, one for one.
pub open spec fn depict_all(nodes: Seq<ASTNode>, trees: Seq<Tree>) -> bool {
    &&& nodes.len() == trees.len()
    &&& forall|i: int| 0 <= i < trees.len() ==> depicts(#[trigger] nodes[i], trees[i])
}

} // verus!
