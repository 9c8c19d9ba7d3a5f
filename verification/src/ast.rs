//! The syntax tree: statements and expressions with their positions.

use vstd::prelude::*;
use crate::token::Position;
use crate::types::{Type, TypeModel};

verus! {

/// The operators of the language.
#[derive(Debug, Clone, Copy, PartialEq, Eq, Structural)]
pub enum Operator {
    Plus,
    Minus,
    Times,
    Divide,
    Remainder,
    Equal,
    NotEqual,
    Less,
    LessEqual,
    Greater,
    GreaterEqual,
    And,
    Or,
    Not,
}

/// A parameter of a function: its name and its type.
#[derive(Debug)]
pub struct Parameter {
    pub name: String,
    pub kind: Type,
}

/// An expression and where it stands.
#[derive(Debug)]
pub struct Expression {
    pub node: ExpressionNode,
    pub pos: Position,
}

/// The forms of expression.
#[derive(Debug)]
pub enum ExpressionNode {
    /// A numeric literal, as it was written.
    Number(String),
    /// A string literal, escapes resolved.
    Str(String),
    Char(char),
    Bool(bool),
    Identifier(String),
    /// A parenthesized list of expressions.
    Tuple(Vec<Expression>),
    /// A sequence of statements.
    Block(Vec<Statement>),
    /// A function literal: parameters, return type, body.
    Function(Vec<Parameter>, Type, Box<Expression>),
    /// A call: the callee and its arguments.
    Call(Box<Expression>, Vec<Expression>),
    Binary(Box<Expression>, Operator, Box<Expression>),
    Unary(Operator, Box<Expression>),
}

/// A statement and where it stands.
#[derive(Debug)]
pub struct Statement {
    pub node: StatementNode,
    pub pos: Position,
}

/// The forms of statement.
#[derive(Debug)]
pub enum StatementNode {
    Expression(Expression),
    /// A variable: declared type, target, initializer if there is one.
    Variable(Type, Expression, Option<Expression>),
    /// A constant: declared type, target, initializer.
    Constant(Type, Expression, Expression),
}

/// Mathematical value of a [`Parameter`].
pub struct ParameterModel {
    pub name: Seq<char>,
    pub kind: TypeModel,
}

/// Mathematical value of an [`Expression`].
pub struct ExpressionModel {
    pub node: ExpressionNodeModel,
    pub pos: Position,
}

/// Mathematical value of an [`ExpressionNode`].
pub enum ExpressionNodeModel {
    Number(Seq<char>),
    Str(Seq<char>),
    Char(char),
    Bool(bool),
    Identifier(Seq<char>),
    Tuple(Seq<ExpressionModel>),
    Block(Seq<StatementModel>),
    Function(Seq<ParameterModel>, TypeModel, Box<ExpressionModel>),
    Call(Box<ExpressionModel>, Seq<ExpressionModel>),
    Binary(Box<ExpressionModel>, Operator, Box<ExpressionModel>),
    Unary(Operator, Box<ExpressionModel>),
}

/// Mathematical value of a [`Statement`].
pub struct StatementModel {
    pub node: StatementNodeModel,
    pub pos: Position,
}

/// Mathematical value of a [`StatementNode`].
pub enum StatementNodeModel {
    Expression(ExpressionModel),
    Variable(TypeModel, ExpressionModel, Option<ExpressionModel>),
    Constant(TypeModel, ExpressionModel, ExpressionModel),
}

/// The position of the first character of a text.
pub open spec fn origin() -> Position {
    Position { line: 0, column: 0, length: 0 }
}

/// An expression that stands for nothing in particular.
pub open spec fn blank() -> ExpressionModel {
    ExpressionModel { node: ExpressionNodeModel::Bool(false), pos: origin() }
}

impl View for Parameter {
    type V = ParameterModel;

    open spec fn view(&self) -> ParameterModel {
        ParameterModel { name: self.name@, kind: self.kind@ }
    }
}

/// The values of a list of parameters, element by element.
pub open spec fn parameter_models(parameters: Seq<Parameter>) -> Seq<ParameterModel> {
    Seq::new(parameters.len(), |i: int| parameters[i]@)
}

/// The values of a list of expressions, element by element.
pub open spec fn expression_models(expressions: Seq<Expression>) -> Seq<ExpressionModel> {
    Seq::new(expressions.len(), |i: int| expressions[i]@)
}

/// The values of a list of statements, element by element.
pub open spec fn statement_models(statements: Seq<Statement>) -> Seq<StatementModel> {
    Seq::new(statements.len(), |i: int| statements[i]@)
}

impl Expression {
    /// The mathematical value of the expression.
    pub open spec fn model(&self) -> ExpressionModel
        decreases self,
    {
        ExpressionModel { node: self.node.model(), pos: self.pos }
    }
}

impl ExpressionNode {
    /// The mathematical value of the form.
    pub open spec fn model(&self) -> ExpressionNodeModel
        decreases self,
    {
        match self {
            ExpressionNode::Number(text) => ExpressionNodeModel::Number(text@),
            ExpressionNode::Str(text) => ExpressionNodeModel::Str(text@),
            ExpressionNode::Char(c) => ExpressionNodeModel::Char(*c),
            ExpressionNode::Bool(b) => ExpressionNodeModel::Bool(*b),
            ExpressionNode::Identifier(name) => ExpressionNodeModel::Identifier(name@),
            ExpressionNode::Tuple(content) => ExpressionNodeModel::Tuple(
                Seq::new(
                    content@.len(),
                    |i: int|
                        if 0 <= i < content@.len() {
                            content@[i].model()
                        } else {
                            blank()
                        },
                ),
            ),
            ExpressionNode::Block(statements) => ExpressionNodeModel::Block(
                Seq::new(
                    statements@.len(),
                    |i: int|
                        if 0 <= i < statements@.len() {
                            statements@[i].model()
                        } else {
                            StatementModel {
                                node: StatementNodeModel::Expression(blank()),
                                pos: origin(),
                            }
                        },
                ),
            ),
            ExpressionNode::Function(parameters, result, body) => ExpressionNodeModel::Function(
                parameter_models(parameters@),
                result@,
                Box::new(body.model()),
            ),
            ExpressionNode::Call(callee, arguments) => ExpressionNodeModel::Call(
                Box::new(callee.model()),
                Seq::new(
                    arguments@.len(),
                    |i: int|
                        if 0 <= i < arguments@.len() {
                            arguments@[i].model()
                        } else {
                            blank()
                        },
                ),
            ),
            ExpressionNode::Binary(left, operator, right) => ExpressionNodeModel::Binary(
                Box::new(left.model()),
                *operator,
                Box::new(right.model()),
            ),
            ExpressionNode::Unary(operator, operand) => ExpressionNodeModel::Unary(
                *operator,
                Box::new(operand.model()),
            ),
        }
    }
}

impl Statement {
    /// The mathematical value of the statement.
    pub open spec fn model(&self) -> StatementModel
        decreases self,
    {
        StatementModel { node: self.node.model(), pos: self.pos }
    }
}

impl StatementNode {
    /// The mathematical value of the form.
    pub open spec fn model(&self) -> StatementNodeModel
        decreases self,
    {
        match self {
            StatementNode::Expression(expression) => StatementNodeModel::Expression(
                expression.model(),
            ),
            StatementNode::Variable(declared, left, right) => StatementNodeModel::Variable(
                declared@,
                left.model(),
                match right {
                    Some(expression) => Some(expression.model()),
                    None => None,
                },
            ),
            StatementNode::Constant(declared, left, right) => StatementNodeModel::Constant(
                declared@,
                left.model(),
                right.model(),
            ),
        }
    }
}

impl View for Expression {
    type V = ExpressionModel;

    open spec fn view(&self) -> ExpressionModel {
        self.model()
    }
}

impl View for ExpressionNode {
    type V = ExpressionNodeModel;

    open spec fn view(&self) -> ExpressionNodeModel {
        self.model()
    }
}

impl View for Statement {
    type V = StatementModel;

    open spec fn view(&self) -> StatementModel {
        self.model()
    }
}

impl View for StatementNode {
    type V = StatementNodeModel;

    open spec fn view(&self) -> StatementNodeModel {
        self.model()
    }
}

impl Expression {
    /// An expression from its form and position.
    pub fn new(node: ExpressionNode, pos: Position) -> (expression: Expression)
        ensures
            expression.node == node,
            expression.pos == pos,
    {
        Expression { node, pos }
    }
}

impl Statement {
    /// A statement from its form and position.
    pub fn new(node: StatementNode, pos: Position) -> (statement: Statement)
        ensures
            statement.node == node,
            statement.pos == pos,
    {
        Statement { node, pos }
    }
}

/// What the value of an expression is, form by form.
pub proof fn lemma_expression_view(expression: &Expression)
    ensures
        expression@ == (ExpressionModel { node: expression.node@, pos: expression.pos }),
        match expression.node {
            ExpressionNode::Number(text) => expression.node@ == ExpressionNodeModel::Number(text@),
            ExpressionNode::Str(text) => expression.node@ == ExpressionNodeModel::Str(text@),
            ExpressionNode::Char(c) => expression.node@ == ExpressionNodeModel::Char(c),
            ExpressionNode::Bool(b) => expression.node@ == ExpressionNodeModel::Bool(b),
            ExpressionNode::Identifier(name) => expression.node@
                == ExpressionNodeModel::Identifier(name@),
            ExpressionNode::Tuple(content) => expression.node@ == ExpressionNodeModel::Tuple(
                expression_models(content@),
            ),
            ExpressionNode::Block(statements) => expression.node@ == ExpressionNodeModel::Block(
                statement_models(statements@),
            ),
            ExpressionNode::Function(parameters, result, body) => expression.node@
                == ExpressionNodeModel::Function(
                parameter_models(parameters@),
                result@,
                Box::new((*body)@),
            ),
            ExpressionNode::Call(callee, arguments) => expression.node@
                == ExpressionNodeModel::Call(Box::new((*callee)@), expression_models(arguments@)),
            ExpressionNode::Binary(left, operator, right) => expression.node@
                == ExpressionNodeModel::Binary(
                Box::new((*left)@),
                operator,
                Box::new((*right)@),
            ),
            ExpressionNode::Unary(operator, operand) => expression.node@
                == ExpressionNodeModel::Unary(operator, Box::new((*operand)@)),
        },
{
    match expression.node {
        ExpressionNode::Tuple(content) => {
            assert(expression.node@->Tuple_0 =~= expression_models(content@));
        },
        ExpressionNode::Block(statements) => {
            assert(expression.node@->Block_0 =~= statement_models(statements@));
        },
        ExpressionNode::Call(callee, arguments) => {
            assert(expression.node@->Call_1 =~= expression_models(arguments@));
        },
        _ => {},
    }
}

/// What the value of a statement is, form by form.
pub proof fn lemma_statement_view(statement: &Statement)
    ensures
        statement@ == (StatementModel { node: statement.node@, pos: statement.pos }),
        match statement.node {
            StatementNode::Expression(expression) => statement.node@
                == StatementNodeModel::Expression(expression@),
            StatementNode::Variable(declared, left, right) => statement.node@
                == StatementNodeModel::Variable(
                declared@,
                left@,
                match right {
                    Some(expression) => Some(expression@),
                    None => None,
                },
            ),
            StatementNode::Constant(declared, left, right) => statement.node@
                == StatementNodeModel::Constant(declared@, left@, right@),
        },
{
}

} // verus!
