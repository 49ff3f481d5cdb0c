//! The nodes of the syntax tree.
//!
//! Parts of a tree that the evaluator keeps beyond the walk (the body and
//! the parameters of a function, the fields of a layout, the default of a
//! field) stand behind an `Arc`, so that keeping one is sharing it.

use crate::collections::StrMap;
use crate::global::DataType;
use crate::interpreter::scope::FnArgs;
use crate::number::Number;
use crate::util::share;
use std::sync::Arc;
use vstd::prelude::*;

verus! {

#[derive(Debug)]
pub enum ASTNode {
    /// The statements of a program, evaluated in the scope at hand.
    Program(Arc<Vec<ASTNode>>),
    Expression(ExpressionType),
    Number(Number),
    String(String),
    Boolean(bool),
    Identifier(String),
    /// Whether the variable is immutable, its name, its declared type, its
    /// initializer.
    VariableDeclaration(bool, String, DataType, Box<ASTNode>),
    Assignment(AssignmentProperty, Box<ASTNode>),
    /// The count, then the operation that is repeated.
    RepeatOperation(Box<ASTNode>, Box<ASTNode>),
    /// The name, the parameters, the body (a code block), the return type.
    FunctionDeclaration(String, Arc<FnArgs>, Box<ASTNode>, DataType),
    BindingAccess(String),
    /// The statements of a block, evaluated in a scope of their own.
    CodeBlock(Arc<Vec<ASTNode>>),
    /// The callee, then the arguments.
    FunctionCall(Box<ASTNode>, Vec<ASTNode>),
    IfStatement(IfStatement),
    OnceStatement(OnceStatement),
    UseNative(UseNative),
    Misc(MiscNodeType),
    ForStatement(ForStatement),
    /// `Name->entry`: an entry of an enum, or a method of a layout that is
    /// not tied.
    ComplexTypeAccessor(String, String),
    EnumDeclaration(String, Vec<String>),
    Typeof(Box<ASTNode>),
    LayoutDeclaration(LayoutDeclaration),
    LayoutCreation(LayoutCreation),
    /// `receiver.field`: the name of the variable that holds the layout,
    /// then the field or the tied method.
    LayoutFieldAccess(String, String),
    MixStatement(String, Vec<ParserFunctionData>),
    InternalMulti(Vec<ASTNode>),
    /// The path of the module, then the symbol to import.
    UseModule(String, String),
    /// The parameters, the body (a code block), the return type.
    Lambda(Arc<FnArgs>, Box<ASTNode>, DataType),
    /// Stands where the parser gave up: the line and the file.
    InternalStop(usize, String),
}

#[derive(Debug)]
pub enum AssignmentProperty {
    Variable(String),
    /// The name of the variable that holds the layout, then the field.
    LayoutField(String, String),
}

#[derive(Debug)]
pub struct OnceStatement {
    pub if_statements: Vec<IfStatement>,
    pub else_block: Option<Box<ASTNode>>,
}

#[derive(Debug)]
pub struct ForStatement {
    pub iterable: Box<ASTNode>,
    pub block: Box<ASTNode>,
}

#[derive(Debug)]
pub struct IfStatement {
    pub condition: Box<ASTNode>,
    pub if_block: Box<ASTNode>,
    pub else_block: Option<Box<ASTNode>>,
}

#[derive(Debug)]
pub struct UseNative {
    pub name: String,
    pub from: String,
}

#[derive(Debug)]
pub struct LayoutCreation {
    pub name: String,
    pub specified_fields: StrMap<Box<ASTNode>>,
}

#[derive(Clone, Copy, Debug, PartialEq, Eq, Structural)]
pub enum MiscNodeType {
    DoubleArrow,
}

#[derive(Debug)]
pub struct BinaryExpression {
    pub left: Box<ASTNode>,
    pub right: Box<ASTNode>,
    pub operand: Operand,
}

#[derive(Debug)]
pub struct LayoutDeclaration {
    pub name: String,
    pub fields: Arc<StrMap<FieldParserDescription>>,
}

#[derive(Debug)]
pub struct FieldParserDescription {
    pub type_id: String,
    pub default_value: Option<Arc<ASTNode>>,
}

#[derive(Debug)]
pub struct ParserFunctionData {
    pub name: String,
    pub args: Arc<FnArgs>,
    pub body: Arc<Vec<ASTNode>>,
    pub return_type: DataType,
    pub tied: bool,
}

#[derive(Clone, Copy, Debug, PartialEq, Eq, Structural)]
pub enum Operand {
    Equality,
    Inequality,
    EqArrow,
    DoubleArrow,
    Arrow,
    BackwardArrow,
    ExclamationMk,
    QuestionMk,
    Plus,
    Minus,
    Multiply,
    Divide,
    Modulo,
    Increment,
    Decrement,
    Bigger,
    Smaller,
    BiggerEqual,
    SmallerEqual,
    Equal,
    DoubleDot,
}

#[derive(Debug)]
pub enum ExpressionType {
    Null,
    Binary(Box<BinaryExpression>),
}

impl Clone for LayoutDeclaration {
    fn clone(&self) -> (r: Self)
        ensures
            r == *self,
    {
        LayoutDeclaration { name: self.name.clone(), fields: share(&self.fields) }
    }
}

} // verus!
