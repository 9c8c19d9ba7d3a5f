//! The parser: from tokens to the syntax tree, by recursive descent.

use vstd::prelude::*;
use vstd::string::*;
use crate::ast::{
    expression_models, lemma_expression_view, lemma_statement_view, parameter_models,
    statement_models, Expression, ExpressionModel, ExpressionNode, ExpressionNodeModel, Operator,
    Parameter, ParameterModel, Statement, StatementModel, StatementNode, StatementNodeModel,
};
use crate::diagnostic::{Diagnostic, DiagnosticModel, Fault, FaultModel};
use crate::lexer::token_models;
use crate::source::Source;
use crate::token::{Position, Token, TokenModel, TokenType};
use crate::types::{models, NodeModel, Type, TypeMode, TypeModel, TypeNode};

verus! {

/// What parsing one construct gives: its value and the index of the token
/// behind it, or a fault and where it was found.
pub type Parsed<T> = Result<(T, int), (FaultModel, Option<Position>)>;

/// The kind of the token at `index`; behind the last token the input has
/// ended.
pub open spec fn kind(tokens: Seq<TokenModel>, index: int) -> TokenType {
    if 0 <= index < tokens.len() {
        tokens[index].token_type
    } else {
        TokenType::EOF
    }
}

/// The lexeme of the token at `index`.
pub open spec fn lexeme(tokens: Seq<TokenModel>, index: int) -> Seq<char> {
    if 0 <= index < tokens.len() {
        tokens[index].lexeme
    } else {
        Seq::empty()
    }
}

/// The position of the token at `index`; behind the last token there is
/// none.
pub open spec fn place(tokens: Seq<TokenModel>, index: int) -> Option<Position> {
    if 0 <= index < tokens.len() {
        Some(tokens[index].position)
    } else {
        None
    }
}

/// Whether the token at `index` is the given symbol.
pub open spec fn is_symbol(tokens: Seq<TokenModel>, index: int, symbol: Seq<char>) -> bool {
    kind(tokens, index) is Symbol && lexeme(tokens, index) == symbol
}

/// Whether the token at `index` is the given operator.
pub open spec fn is_operator(tokens: Seq<TokenModel>, index: int, operator: Seq<char>) -> bool {
    kind(tokens, index) is Operator && lexeme(tokens, index) == operator
}

/// The fault of a token that stands where the grammar has no place for
/// it, and its position.
pub open spec fn surprise(tokens: Seq<TokenModel>, index: int) -> (FaultModel, Option<Position>) {
    if kind(tokens, index) is EOF {
        (FaultModel::UnexpectedEnd, place(tokens, index))
    } else {
        (FaultModel::UnexpectedToken(lexeme(tokens, index)), place(tokens, index))
    }
}

/// A construct that failed at the token at `index`.
pub open spec fn unexpected<T>(tokens: Seq<TokenModel>, index: int) -> Parsed<T> {
    Err(surprise(tokens, index))
}

/// The position that a node gets which begins with the token at `index`.
pub open spec fn position(tokens: Seq<TokenModel>, index: int) -> Position {
    match place(tokens, index) {
        Some(position) => position,
        None => Position { line: 0, column: 0, length: 0 },
    }
}

/// Whether a construct that began at `index` and ended before `next` has
/// failed to get on within the tokens.
pub open spec fn stuck(tokens: Seq<TokenModel>, index: int, next: int) -> bool {
    next <= index || next > tokens.len()
}

/// The operator that a lexeme stands for between two operands.
pub open spec fn binary_operator(lexeme: Seq<char>) -> Option<Operator> {
    if lexeme == "+"@ {
        Some(Operator::Plus)
    } else if lexeme == "-"@ {
        Some(Operator::Minus)
    } else if lexeme == "*"@ {
        Some(Operator::Times)
    } else if lexeme == "/"@ {
        Some(Operator::Divide)
    } else if lexeme == "%"@ {
        Some(Operator::Remainder)
    } else if lexeme == "=="@ {
        Some(Operator::Equal)
    } else if lexeme == "!="@ {
        Some(Operator::NotEqual)
    } else if lexeme == "<"@ {
        Some(Operator::Less)
    } else if lexeme == "<="@ {
        Some(Operator::LessEqual)
    } else if lexeme == ">"@ {
        Some(Operator::Greater)
    } else if lexeme == ">="@ {
        Some(Operator::GreaterEqual)
    } else if lexeme == "&&"@ {
        Some(Operator::And)
    } else if lexeme == "||"@ {
        Some(Operator::Or)
    } else {
        None
    }
}

/// The operator that a lexeme stands for in front of an operand.
pub open spec fn unary_operator(lexeme: Seq<char>) -> Option<Operator> {
    if lexeme == "-"@ {
        Some(Operator::Minus)
    } else if lexeme == "!"@ {
        Some(Operator::Not)
    } else {
        None
    }
}

/// How tightly an operator binds: the higher, the tighter.
pub open spec fn precedence(operator: Operator) -> nat {
    match operator {
        Operator::Or => 1,
        Operator::And => 2,
        Operator::Equal | Operator::NotEqual => 3,
        Operator::Less | Operator::LessEqual | Operator::Greater | Operator::GreaterEqual => 4,
        Operator::Plus | Operator::Minus => 5,
        Operator::Times | Operator::Divide | Operator::Remainder => 6,
        Operator::Not => 7,
    }
}

/// The binary operator at `index`, if the token there is one.
pub open spec fn operator_at(tokens: Seq<TokenModel>, index: int) -> Option<Operator> {
    if kind(tokens, index) is Operator {
        binary_operator(lexeme(tokens, index))
    } else {
        None
    }
}

/// The shape that a type name stands for.
pub open spec fn named(name: Seq<char>) -> NodeModel {
    if name == "int"@ {
        NodeModel::Int
    } else if name == "float"@ {
        NodeModel::Float
    } else if name == "bool"@ {
        NodeModel::Bool
    } else if name == "str"@ {
        NodeModel::Str
    } else if name == "char"@ {
        NodeModel::Char
    } else {
        NodeModel::Id(name)
    }
}

/// A type of the given shape, declared regularly.
pub open spec fn plain(node: NodeModel) -> TypeModel {
    TypeModel { node, mode: TypeMode::Regular }
}

/// The type with its mode set to immutable.
pub open spec fn immutable(t: TypeModel) -> TypeModel {
    TypeModel { node: t.node, mode: TypeMode::Immutable }
}

/// An expression of the given form that begins with the token at `index`.
pub open spec fn node_at(tokens: Seq<TokenModel>, index: int, node: ExpressionNodeModel) -> ExpressionModel {
    ExpressionModel { node, pos: position(tokens, index) }
}

/// The number of line ends from `index` on.
pub open spec fn line_ends(tokens: Seq<TokenModel>, index: int) -> nat
    decreases tokens.len() - index,
{
    if 0 <= index < tokens.len() && is_symbol(tokens, index, "\n"@) {
        1 + line_ends(tokens, index + 1)
    } else {
        0
    }
}

/// A type: a name, or types in parentheses. One type in parentheses
/// without a comma is that type; anything else in parentheses is a tuple.
pub open spec fn parse_type(tokens: Seq<TokenModel>, index: int) -> Parsed<TypeModel>
    decreases tokens.len() - index, 1nat,
{
    if kind(tokens, index) is Identifier {
        Ok((plain(named(lexeme(tokens, index))), index + 1))
    } else if is_symbol(tokens, index, "("@) && 0 <= index < tokens.len() {
        match parse_types(tokens, index + 1, Seq::empty()) {
            Ok(((types, comma), next)) => if types.len() == 1 && !comma {
                Ok((types[0], next))
            } else {
                Ok((plain(NodeModel::Tuple(types)), next))
            },
            Err(fault) => Err(fault),
        }
    } else {
        unexpected(tokens, index)
    }
}

/// The rest of a list of types in parentheses, up to and with the closing
/// parenthesis, where `types` are the ones before `index`. With the list
/// comes whether it held a comma.
pub open spec fn parse_types(tokens: Seq<TokenModel>, index: int, types: Seq<TypeModel>) -> Parsed<
    (Seq<TypeModel>, bool),
>
    decreases tokens.len() - index, 2nat,
{
    if is_symbol(tokens, index, ")"@) {
        Ok(((types, types.len() > 0), index + 1))
    } else {
        match parse_type(tokens, index) {
            Ok((t, next)) => if stuck(tokens, index, next) {
                unexpected(tokens, index)
            } else if is_symbol(tokens, next, ","@) {
                parse_types(tokens, next + 1, types.push(t))
            } else if is_symbol(tokens, next, ")"@) {
                Ok(((types.push(t), types.len() > 0), next + 1))
            } else {
                unexpected(tokens, next)
            },
            Err(fault) => Err(fault),
        }
    }
}

/// An expression.
pub open spec fn parse_expression(tokens: Seq<TokenModel>, index: int) -> Parsed<ExpressionModel>
    decreases tokens.len() - index, 7nat,
{
    parse_binary(tokens, index, 1)
}

/// An operand and the operators behind it that bind at least as tightly
/// as `least`, each with its right operand.
pub open spec fn parse_binary(tokens: Seq<TokenModel>, index: int, least: nat) -> Parsed<
    ExpressionModel,
>
    decreases tokens.len() - index, 6nat,
{
    match parse_unary(tokens, index) {
        Ok((left, next)) => if stuck(tokens, index, next) {
            unexpected(tokens, index)
        } else {
            climb(tokens, next, left, least)
        },
        Err(fault) => Err(fault),
    }
}

/// The operators from `index` on that bind at least as tightly as
/// `least`, applied one after the other to `left`. The right operand of
/// an operator holds what binds more tightly than the operator.
pub open spec fn climb(tokens: Seq<TokenModel>, index: int, left: ExpressionModel, least: nat) -> Parsed<
    ExpressionModel,
>
    decreases tokens.len() - index, 8nat,
{
    match operator_at(tokens, index) {
        Some(operator) => if precedence(operator) >= least && 0 <= index < tokens.len() {
            match parse_binary(tokens, index + 1, precedence(operator) + 1) {
                Ok((right, next)) => if stuck(tokens, index, next) {
                    unexpected(tokens, index)
                } else {
                    climb(
                        tokens,
                        next,
                        ExpressionModel {
                            node: ExpressionNodeModel::Binary(
                                Box::new(left),
                                operator,
                                Box::new(right),
                            ),
                            pos: left.pos,
                        },
                        least,
                    )
                },
                Err(fault) => Err(fault),
            }
        } else {
            Ok((left, index))
        },
        None => Ok((left, index)),
    }
}

/// An operand with the operators in front of it.
pub open spec fn parse_unary(tokens: Seq<TokenModel>, index: int) -> Parsed<ExpressionModel>
    decreases tokens.len() - index, 5nat,
{
    if kind(tokens, index) is Operator && unary_operator(lexeme(tokens, index)) is Some && 0
        <= index < tokens.len() {
        match parse_unary(tokens, index + 1) {
            Ok((operand, next)) => Ok(
                (
                    node_at(
                        tokens,
                        index,
                        ExpressionNodeModel::Unary(
                            unary_operator(lexeme(tokens, index))->Some_0,
                            Box::new(operand),
                        ),
                    ),
                    next,
                ),
            ),
            Err(fault) => Err(fault),
        }
    } else {
        parse_postfix(tokens, index)
    }
}

/// A primary expression with the calls behind it.
pub open spec fn parse_postfix(tokens: Seq<TokenModel>, index: int) -> Parsed<ExpressionModel>
    decreases tokens.len() - index, 4nat,
{
    match parse_primary(tokens, index) {
        Ok((callee, next)) => if stuck(tokens, index, next) {
            unexpected(tokens, index)
        } else {
            calls(tokens, next, callee)
        },
        Err(fault) => Err(fault),
    }
}

/// The argument lists from `index` on, applied one after the other to
/// `callee`.
pub open spec fn calls(tokens: Seq<TokenModel>, index: int, callee: ExpressionModel) -> Parsed<
    ExpressionModel,
>
    decreases tokens.len() - index, 10nat,
{
    if is_symbol(tokens, index, "("@) && 0 <= index < tokens.len() {
        match parse_list(tokens, index + 1, Seq::empty()) {
            Ok((arguments, next)) => if stuck(tokens, index, next) {
                unexpected(tokens, index)
            } else {
                calls(
                    tokens,
                    next,
                    ExpressionModel {
                        node: ExpressionNodeModel::Call(Box::new(callee), arguments),
                        pos: callee.pos,
                    },
                )
            },
            Err(fault) => Err(fault),
        }
    } else {
        Ok((callee, index))
    }
}

/// The rest of a list of expressions in parentheses, up to and with the
/// closing parenthesis, where `items` are the ones before `index`.
pub open spec fn parse_list(tokens: Seq<TokenModel>, index: int, items: Seq<ExpressionModel>) -> Parsed<
    Seq<ExpressionModel>,
>
    decreases tokens.len() - index, 9nat,
{
    if is_symbol(tokens, index, ")"@) {
        Ok((items, index + 1))
    } else {
        match parse_expression(tokens, index) {
            Ok((item, next)) => if stuck(tokens, index, next) {
                unexpected(tokens, index)
            } else if is_symbol(tokens, next, ","@) {
                parse_list(tokens, next + 1, items.push(item))
            } else if is_symbol(tokens, next, ")"@) {
                Ok((items.push(item), next + 1))
            } else {
                unexpected(tokens, next)
            },
            Err(fault) => Err(fault),
        }
    }
}

/// A literal, a name, a block, or something in parentheses.
pub open spec fn parse_primary(tokens: Seq<TokenModel>, index: int) -> Parsed<ExpressionModel>
    decreases tokens.len() - index, 3nat,
{
    let text = lexeme(tokens, index);
    match kind(tokens, index) {
        TokenType::Int | TokenType::Float => Ok(
            (node_at(tokens, index, ExpressionNodeModel::Number(text)), index + 1),
        ),
        TokenType::Str | TokenType::Raw => Ok(
            (node_at(tokens, index, ExpressionNodeModel::Str(text)), index + 1),
        ),
        TokenType::Char => if text.len() == 1 {
            Ok((node_at(tokens, index, ExpressionNodeModel::Char(text[0])), index + 1))
        } else {
            unexpected(tokens, index)
        },
        TokenType::Bool => Ok(
            (node_at(tokens, index, ExpressionNodeModel::Bool(text == "true"@)), index + 1),
        ),
        TokenType::Identifier => Ok(
            (node_at(tokens, index, ExpressionNodeModel::Identifier(text)), index + 1),
        ),
        TokenType::Symbol => if text == "{"@ && 0 <= index < tokens.len() {
            match parse_statements(tokens, index + 1, Seq::empty(), true) {
                Ok((statements, next)) => Ok(
                    (node_at(tokens, index, ExpressionNodeModel::Block(statements)), next),
                ),
                Err(fault) => Err(fault),
            }
        } else if text == "("@ && 0 <= index < tokens.len() {
            parse_parenthesized(tokens, index)
        } else {
            unexpected(tokens, index)
        },
        _ => unexpected(tokens, index),
    }
}

/// What begins with the opening parenthesis at `index`: a function
/// literal, where a parameter or, behind an empty pair of parentheses, a
/// type name follows; else an empty tuple, an expression in parentheses,
/// or a tuple.
pub open spec fn parse_parenthesized(tokens: Seq<TokenModel>, index: int) -> Parsed<ExpressionModel>
    decreases tokens.len() - index, 2nat,
{
    if index < 0 || index >= tokens.len() {
        unexpected(tokens, index)
    } else if is_symbol(tokens, index + 1, ")"@) {
        if kind(tokens, index + 2) is Identifier {
            parse_function(tokens, index, index + 2, Seq::empty())
        } else {
            Ok((node_at(tokens, index, ExpressionNodeModel::Tuple(Seq::empty())), index + 2))
        }
    } else if kind(tokens, index + 1) is Identifier && is_operator(tokens, index + 2, ":"@) {
        match parse_parameters(tokens, index + 1, Seq::empty()) {
            Ok((parameters, next)) => if stuck(tokens, index, next) {
                unexpected(tokens, index)
            } else {
                parse_function(tokens, index, next, parameters)
            },
            Err(fault) => Err(fault),
        }
    } else {
        match parse_expression(tokens, index + 1) {
            Ok((first, next)) => if stuck(tokens, index, next) {
                unexpected(tokens, index)
            } else if is_symbol(tokens, next, ")"@) {
                Ok((first, next + 1))
            } else if is_symbol(tokens, next, ","@) {
                match parse_list(tokens, next + 1, seq![first]) {
                    Ok((items, end)) => Ok(
                        (node_at(tokens, index, ExpressionNodeModel::Tuple(items)), end),
                    ),
                    Err(fault) => Err(fault),
                }
            } else {
                unexpected(tokens, next)
            },
            Err(fault) => Err(fault),
        }
    }
}

/// The rest of a list of parameters, up to and with the closing
/// parenthesis, where `parameters` are the ones before `index`.
pub open spec fn parse_parameters(
    tokens: Seq<TokenModel>,
    index: int,
    parameters: Seq<ParameterModel>,
) -> Parsed<Seq<ParameterModel>>
    decreases tokens.len() - index, 2nat,
{
    if kind(tokens, index) is Identifier && is_operator(tokens, index + 1, ":"@) && 0 <= index {
        match parse_type(tokens, index + 2) {
            Ok((t, next)) => {
                let added = parameters.push(ParameterModel { name: lexeme(tokens, index), kind: t });
                if stuck(tokens, index, next) {
                    unexpected(tokens, index)
                } else if is_symbol(tokens, next, ","@) {
                    parse_parameters(tokens, next + 1, added)
                } else if is_symbol(tokens, next, ")"@) {
                    Ok((added, next + 1))
                } else {
                    unexpected(tokens, next)
                }
            },
            Err(fault) => Err(fault),
        }
    } else {
        unexpected(tokens, index)
    }
}

/// The rest of a function literal that began at `start` and whose
/// parameters end before `index`: the type it gives, an arrow, its body.
pub open spec fn parse_function(
    tokens: Seq<TokenModel>,
    start: int,
    index: int,
    parameters: Seq<ParameterModel>,
) -> Parsed<ExpressionModel>
    decreases tokens.len() - index, 2nat,
{
    match parse_type(tokens, index) {
        Ok((result, arrow)) => if stuck(tokens, index, arrow) {
            unexpected(tokens, index)
        } else if is_operator(tokens, arrow, "->"@) {
            match parse_expression(tokens, arrow + 1) {
                Ok((body, next)) => Ok(
                    (
                        node_at(
                            tokens,
                            start,
                            ExpressionNodeModel::Function(parameters, result, Box::new(body)),
                        ),
                        next,
                    ),
                ),
                Err(fault) => Err(fault),
            }
        } else {
            unexpected(tokens, arrow)
        },
        Err(fault) => Err(fault),
    }
}

/// The first element of a tuple target that is not a name, if there is
/// one.
pub open spec fn first_other(targets: Seq<ExpressionModel>, from: nat) -> Option<Position>
    decreases targets.len() - from,
{
    if from >= targets.len() {
        None
    } else if targets[from as int].node is Identifier {
        first_other(targets, from + 1)
    } else {
        Some(targets[from as int].pos)
    }
}

/// The target of a declaration, or the expression of a statement that
/// declares nothing.
pub open spec fn target(node: StatementNodeModel) -> ExpressionModel {
    match node {
        StatementNodeModel::Expression(expression) => expression,
        StatementNodeModel::Variable(_, left, _) => left,
        StatementNodeModel::Constant(_, left, _) => left,
    }
}

/// What a declaration with `left` as its target and `node` as its form
/// comes to: a tuple target must hold names only.
pub open spec fn declared(left: ExpressionModel, node: StatementNodeModel, next: int) -> Parsed<
    StatementModel,
> {
    match left.node {
        ExpressionNodeModel::Tuple(targets) => match first_other(targets, 0) {
            Some(position) => Err((FaultModel::NonIdentifier, Some(position))),
            None => Ok((StatementModel { node, pos: left.pos }, next)),
        },
        _ => Ok((StatementModel { node, pos: left.pos }, next)),
    }
}

/// A statement: an expression, and a declaration if `:=`, `::` or `:`
/// follows it. After `:` comes the declared type and then `=` with the
/// initializer of a variable, `:` with the value of a constant, or
/// nothing.
pub open spec fn parse_statement(tokens: Seq<TokenModel>, index: int) -> Parsed<StatementModel>
    decreases tokens.len() - index, 8nat,
{
    match parse_expression(tokens, index) {
        Ok((left, next)) => if stuck(tokens, index, next) {
            unexpected(tokens, index)
        } else if is_operator(tokens, next, ":="@) {
            match parse_expression(tokens, next + 1) {
                Ok((right, end)) => declared(
                    left,
                    StatementNodeModel::Variable(plain(NodeModel::Nil), left, Some(right)),
                    end,
                ),
                Err(fault) => Err(fault),
            }
        } else if is_operator(tokens, next, "::"@) {
            match parse_expression(tokens, next + 1) {
                Ok((right, end)) => declared(
                    left,
                    StatementNodeModel::Constant(immutable(plain(NodeModel::Nil)), left, right),
                    end,
                ),
                Err(fault) => Err(fault),
            }
        } else if is_operator(tokens, next, ":"@) {
            match parse_type(tokens, next + 1) {
                Ok((t, after)) => if stuck(tokens, next, after) {
                    unexpected(tokens, next)
                } else if is_operator(tokens, after, "="@) {
                    match parse_expression(tokens, after + 1) {
                        Ok((right, end)) => declared(
                            left,
                            StatementNodeModel::Variable(t, left, Some(right)),
                            end,
                        ),
                        Err(fault) => Err(fault),
                    }
                } else if is_operator(tokens, after, ":"@) {
                    match parse_expression(tokens, after + 1) {
                        Ok((right, end)) => declared(
                            left,
                            StatementNodeModel::Constant(immutable(t), left, right),
                            end,
                        ),
                        Err(fault) => Err(fault),
                    }
                } else {
                    declared(left, StatementNodeModel::Variable(t, left, None), after)
                },
                Err(fault) => Err(fault),
            }
        } else {
            Ok((StatementModel { node: StatementNodeModel::Expression(left), pos: left.pos }, next))
        },
        Err(fault) => Err(fault),
    }
}

/// The statements from `index` on, one to a line, where `statements` are
/// the ones before `index`. Inside a block they go up to and with the
/// closing brace; outside they go up to the end of the input.
pub open spec fn parse_statements(
    tokens: Seq<TokenModel>,
    index: int,
    statements: Seq<StatementModel>,
    inside: bool,
) -> Parsed<Seq<StatementModel>>
    decreases tokens.len() - index, 9nat,
{
    let start = index + line_ends(tokens, index);
    if inside && is_symbol(tokens, start, "}"@) {
        Ok((statements, start + 1))
    } else if kind(tokens, start) is EOF {
        if inside {
            unexpected(tokens, start)
        } else {
            Ok((statements, start))
        }
    } else {
        match parse_statement(tokens, start) {
            Ok((statement, next)) => if stuck(tokens, start, next) {
                unexpected(tokens, start)
            } else if is_symbol(tokens, next, "\n"@) || kind(tokens, next) is EOF || (inside
                && is_symbol(tokens, next, "}"@)) {
                parse_statements(tokens, next, statements.push(statement), inside)
            } else {
                unexpected(tokens, next)
            },
            Err(fault) => Err(fault),
        }
    }
}

/// The program that a list of tokens stands for.
pub open spec fn parse_program(tokens: Seq<TokenModel>) -> Result<
    Seq<StatementModel>,
    (FaultModel, Option<Position>),
> {
    match parse_statements(tokens, 0, Seq::empty(), false) {
        Ok((statements, _)) => Ok(statements),
        Err(fault) => Err(fault),
    }
}

/// Decides whether a string is the given text.
fn text_is(text: &String, literal: &str) -> (same: bool)
    ensures
        same == (text@ == literal@),
{
    *text == String::from_str(literal)
}

/// The binary operator that a lexeme stands for.
fn binary_operator_of(text: &String) -> (operator: Option<Operator>)
    ensures
        operator == binary_operator(text@),
{
    if text_is(text, "+") {
        Some(Operator::Plus)
    } else if text_is(text, "-") {
        Some(Operator::Minus)
    } else if text_is(text, "*") {
        Some(Operator::Times)
    } else if text_is(text, "/") {
        Some(Operator::Divide)
    } else if text_is(text, "%") {
        Some(Operator::Remainder)
    } else if text_is(text, "==") {
        Some(Operator::Equal)
    } else if text_is(text, "!=") {
        Some(Operator::NotEqual)
    } else if text_is(text, "<") {
        Some(Operator::Less)
    } else if text_is(text, "<=") {
        Some(Operator::LessEqual)
    } else if text_is(text, ">") {
        Some(Operator::Greater)
    } else if text_is(text, ">=") {
        Some(Operator::GreaterEqual)
    } else if text_is(text, "&&") {
        Some(Operator::And)
    } else if text_is(text, "||") {
        Some(Operator::Or)
    } else {
        None
    }
}

/// How tightly an operator binds.
fn precedence_of(operator: Operator) -> (level: usize)
    ensures
        level == precedence(operator),
{
    match operator {
        Operator::Or => 1,
        Operator::And => 2,
        Operator::Equal | Operator::NotEqual => 3,
        Operator::Less | Operator::LessEqual | Operator::Greater | Operator::GreaterEqual => 4,
        Operator::Plus | Operator::Minus => 5,
        Operator::Times | Operator::Divide | Operator::Remainder => 6,
        Operator::Not => 7,
    }
}

/// The type that a name stands for.
fn named_type(name: &String) -> (t: Type)
    ensures
        t@ == plain(named(name@)),
{
    if text_is(name, "int") {
        Type::integer()
    } else if text_is(name, "float") {
        Type::float()
    } else if text_is(name, "bool") {
        Type::bool()
    } else if text_is(name, "str") {
        Type::string()
    } else if text_is(name, "char") {
        Type::char()
    } else {
        Type::id(name.as_str())
    }
}

/// The first element of a tuple target that is not a name.
fn first_other_of(targets: &Vec<Expression>) -> (found: Option<Position>)
    ensures
        found == first_other(expression_models(targets@), 0),
{
    let mut i: usize = 0;
    while i < targets.len()
        invariant
            i <= targets.len(),
            first_other(expression_models(targets@), 0) == first_other(
                expression_models(targets@),
                i as nat,
            ),
        decreases targets.len() - i,
    {
        proof {
            lemma_expression_view(&targets[i as int]);
        }
        match &targets[i].node {
            ExpressionNode::Identifier(_) => {},
            _ => {
                return Some(targets[i].pos);
            },
        }
        i += 1;
    }
    None
}

/// The parser: the tokens of a program and the source they came from.
pub struct Parser<'p> {
    pub tokens: Vec<Token>,
    pub source: &'p Source,
}

impl<'p> Parser<'p> {
    /// The values of the tokens.
    pub open spec fn models(&self) -> Seq<TokenModel> {
        token_models(self.tokens@)
    }

    /// Whether `result` is what `parsed` says of a construct that began
    /// at `index`: the same value and the same next token, which lies
    /// further on and within the tokens, or the same fault, reported
    /// under the name of the source's file.
    pub open spec fn meets<M>(
        &self,
        result: Result<(M, usize), DiagnosticModel>,
        parsed: Parsed<M>,
        index: int,
    ) -> bool {
        match parsed {
            Ok((value, next)) => {
                &&& result matches Ok((found, end))
                &&& found == value
                &&& end == next
                &&& index < next <= self.tokens@.len()
            },
            Err((fault, position)) => {
                &&& result matches Err(diagnostic)
                &&& diagnostic == (DiagnosticModel { fault, file: self.source.file@, position })
            },
        }
    }

    /// A parser for a list of tokens.
    pub fn new(tokens: Vec<Token>, source: &'p Source) -> (parser: Self)
        ensures
            parser.tokens == tokens,
            parser.source == source,
    {
        Parser { tokens, source }
    }

    /// The token `offset` places behind `index`, if there is one.
    fn ahead(&self, index: usize, offset: usize) -> (token: Option<&Token>)
        ensures
            index + offset < self.tokens@.len() ==> token == Some(&self.tokens@[index + offset]),
            index + offset >= self.tokens@.len() ==> token is None,
            self.models().len() == self.tokens@.len(),
            self.tokens@.len() <= usize::MAX,
            token matches Some(found) ==> found@ == self.models()[index + offset],
    {
        let len = self.tokens.len();
        if index >= len || offset >= len - index {
            None
        } else {
            Some(&self.tokens[index + offset])
        }
    }

    /// The kind of the token `offset` places behind `index`.
    fn kind_at(&self, index: usize, offset: usize) -> (token_type: TokenType)
        ensures
            token_type == kind(self.models(), index + offset),
            !(token_type is EOF) ==> index + offset < self.tokens@.len(),
            self.tokens@.len() <= usize::MAX,
    {
        match self.ahead(index, offset) {
            Some(token) => token.token_type,
            None => TokenType::EOF,
        }
    }

    /// Whether the token `offset` places behind `index` is of the given
    /// kind and has the given lexeme.
    fn holds(&self, index: usize, offset: usize, token_type: TokenType, text: &str) -> (held: bool)
        requires
            !(token_type is EOF),
        ensures
            held == (kind(self.models(), index + offset) == token_type && lexeme(
                self.models(),
                index + offset,
            ) == text@),
            held ==> index + offset < self.tokens@.len(),
            self.tokens@.len() <= usize::MAX,
    {
        match self.ahead(index, offset) {
            Some(token) => token.token_type == token_type && text_is(&token.lexeme, text),
            None => false,
        }
    }

    /// The position of a node that begins with the token at `index`.
    fn position_at(&self, index: usize) -> (pos: Position)
        ensures
            pos == position(self.models(), index as int),
    {
        match self.ahead(index, 0) {
            Some(token) => token.position,
            None => Position::new(0, 0, 0),
        }
    }

    /// The diagnostic for a token that stands where the grammar has no
    /// place for it.
    fn complain(&self, index: usize, offset: usize) -> (diagnostic: Diagnostic)
        ensures
            diagnostic@ == (DiagnosticModel {
                fault: surprise(self.models(), index + offset).0,
                file: self.source.file@,
                position: surprise(self.models(), index + offset).1,
            }),
    {
        match self.ahead(index, offset) {
            Some(token) => {
                if token.token_type == TokenType::EOF {
                    Diagnostic::new(
                        Fault::UnexpectedEnd,
                        self.source.file.as_str(),
                        Some(token.position),
                    )
                } else {
                    Diagnostic::new(
                        Fault::UnexpectedToken(token.lexeme.clone()),
                        self.source.file.as_str(),
                        Some(token.position),
                    )
                }
            },
            None => Diagnostic::new(Fault::UnexpectedEnd, self.source.file.as_str(), None),
        }
    }

    /// Parses a type.
    pub fn parse_type(&self, index: usize) -> (result: Result<(Type, usize), Diagnostic>)
        ensures
            self.meets(
                match result {
                    Ok((t, next)) => Ok((t@, next)),
                    Err(diagnostic) => Err(diagnostic@),
                },
                parse_type(self.models(), index as int),
                index as int,
            ),
        decreases self.tokens@.len() - index, 1nat,
    {
        match self.ahead(index, 0) {
            Some(token) => {
                if token.token_type == TokenType::Identifier {
                    return Ok((named_type(&token.lexeme), index + 1));
                }
            },
            None => {},
        }
        if self.holds(index, 0, TokenType::Symbol, "(") {
            assert(models(Seq::<Type>::empty()) =~= Seq::<TypeModel>::empty());
            let (types, comma, next) = match self.parse_types(index + 1, Vec::new()) {
                Ok(found) => found,
                Err(diagnostic) => {
                    return Err(diagnostic);
                },
            };
            let mut types = types;
            if types.len() == 1 && !comma {
                match types.pop() {
                    Some(t) => Ok((t, next)),
                    None => Err(self.complain(index, 0)),
                }
            } else {
                let t = Type::new(TypeNode::Tuple(types), TypeMode::Regular);
                assert(t@.node->Tuple_0 =~= models(types@));
                Ok((t, next))
            }
        } else {
            Err(self.complain(index, 0))
        }
    }

    /// Parses the rest of a list of types in parentheses.
    fn parse_types(&self, index: usize, types: Vec<Type>) -> (result: Result<
        (Vec<Type>, bool, usize),
        Diagnostic,
    >)
        requires
            index <= self.tokens@.len(),
        ensures
            self.meets(
                match result {
                    Ok((list, comma, next)) => Ok(((models(list@), comma), next)),
                    Err(diagnostic) => Err(diagnostic@),
                },
                parse_types(self.models(), index as int, models(types@)),
                index as int,
            ),
        decreases self.tokens@.len() - index, 2nat,
    {
        let mut types = types;
        if self.holds(index, 0, TokenType::Symbol, ")") {
            let comma = types.len() > 0;
            return Ok((types, comma, index + 1));
        }
        let (t, next) = match self.parse_type(index) {
            Ok(found) => found,
            Err(diagnostic) => {
                return Err(diagnostic);
            },
        };
        let ghost before = models(types@);
        let comma = types.len() > 0;
        types.push(t);
        assert(models(types@) =~= before.push(t@));
        if self.holds(next, 0, TokenType::Symbol, ",") {
            self.parse_types(next + 1, types)
        } else if self.holds(next, 0, TokenType::Symbol, ")") {
            Ok((types, comma, next + 1))
        } else {
            Err(self.complain(next, 0))
        }
    }

    /// Parses an expression.
    pub fn parse_expression(&self, index: usize) -> (result: Result<(Expression, usize), Diagnostic>)
        ensures
            self.meets(
                match result {
                    Ok((expression, next)) => Ok((expression@, next)),
                    Err(diagnostic) => Err(diagnostic@),
                },
                parse_expression(self.models(), index as int),
                index as int,
            ),
        decreases self.tokens@.len() - index, 7nat,
    {
        self.parse_binary(index, 1)
    }

    /// Parses an operand and the operators behind it that bind at least
    /// as tightly as `least`.
    fn parse_binary(&self, index: usize, least: usize) -> (result: Result<
        (Expression, usize),
        Diagnostic,
    >)
        ensures
            self.meets(
                match result {
                    Ok((expression, next)) => Ok((expression@, next)),
                    Err(diagnostic) => Err(diagnostic@),
                },
                parse_binary(self.models(), index as int, least as nat),
                index as int,
            ),
        decreases self.tokens@.len() - index, 6nat,
    {
        match self.parse_unary(index) {
            Ok((left, next)) => self.climb(next, left, least, Ghost(index as int)),
            Err(diagnostic) => Err(diagnostic),
        }
    }

    /// Applies the operators from `index` on to `left`.
    fn climb(&self, index: usize, left: Expression, least: usize, Ghost(start): Ghost<int>) -> (result:
        Result<(Expression, usize), Diagnostic>)
        requires
            start < index <= self.tokens@.len(),
        ensures
            self.meets(
                match result {
                    Ok((expression, next)) => Ok((expression@, next)),
                    Err(diagnostic) => Err(diagnostic@),
                },
                climb(self.models(), index as int, left@, least as nat),
                start,
            ),
        decreases self.tokens@.len() - index, 8nat,
    {
        let operator = match self.ahead(index, 0) {
            Some(token) => {
                if token.token_type == TokenType::Operator {
                    binary_operator_of(&token.lexeme)
                } else {
                    None
                }
            },
            None => None,
        };
        match operator {
            Some(operator) => {
                let level = precedence_of(operator);
                if level >= least {
                    match self.parse_binary(index + 1, level + 1) {
                        Ok((right, next)) => {
                            let pos = left.pos;
                            let ghost left_model = left@;
                            let ghost right_model = right@;
                            let joined = Expression::new(
                                ExpressionNode::Binary(Box::new(left), operator, Box::new(right)),
                                pos,
                            );
                            proof {
                                lemma_expression_view(&joined);
                                lemma_expression_view(&left);
                            }
                            self.climb(next, joined, least, Ghost(start))
                        },
                        Err(diagnostic) => Err(diagnostic),
                    }
                } else {
                    Ok((left, index))
                }
            },
            None => Ok((left, index)),
        }
    }

    /// Parses an operand with the operators in front of it.
    fn parse_unary(&self, index: usize) -> (result: Result<(Expression, usize), Diagnostic>)
        ensures
            self.meets(
                match result {
                    Ok((expression, next)) => Ok((expression@, next)),
                    Err(diagnostic) => Err(diagnostic@),
                },
                parse_unary(self.models(), index as int),
                index as int,
            ),
        decreases self.tokens@.len() - index, 5nat,
    {
        let operator = match self.ahead(index, 0) {
            Some(token) => {
                if token.token_type == TokenType::Operator {
                    if text_is(&token.lexeme, "-") {
                        Some(Operator::Minus)
                    } else if text_is(&token.lexeme, "!") {
                        Some(Operator::Not)
                    } else {
                        None
                    }
                } else {
                    None
                }
            },
            None => None,
        };
        match operator {
            Some(operator) => match self.parse_unary(index + 1) {
                Ok((operand, next)) => {
                    let negated = Expression::new(
                        ExpressionNode::Unary(operator, Box::new(operand)),
                        self.position_at(index),
                    );
                    proof {
                        lemma_expression_view(&negated);
                    }
                    Ok((negated, next))
                },
                Err(diagnostic) => Err(diagnostic),
            },
            None => self.parse_postfix(index),
        }
    }

    /// Parses a primary expression with the calls behind it.
    fn parse_postfix(&self, index: usize) -> (result: Result<(Expression, usize), Diagnostic>)
        ensures
            self.meets(
                match result {
                    Ok((expression, next)) => Ok((expression@, next)),
                    Err(diagnostic) => Err(diagnostic@),
                },
                parse_postfix(self.models(), index as int),
                index as int,
            ),
        decreases self.tokens@.len() - index, 4nat,
    {
        match self.parse_primary(index) {
            Ok((callee, next)) => self.calls(next, callee, Ghost(index as int)),
            Err(diagnostic) => Err(diagnostic),
        }
    }

    /// Applies the argument lists from `index` on to `callee`.
    fn calls(&self, index: usize, callee: Expression, Ghost(start): Ghost<int>) -> (result: Result<
        (Expression, usize),
        Diagnostic,
    >)
        requires
            start < index <= self.tokens@.len(),
        ensures
            self.meets(
                match result {
                    Ok((expression, next)) => Ok((expression@, next)),
                    Err(diagnostic) => Err(diagnostic@),
                },
                calls(self.models(), index as int, callee@),
                start,
            ),
        decreases self.tokens@.len() - index, 10nat,
    {
        if self.holds(index, 0, TokenType::Symbol, "(") {
            assert(expression_models(Seq::<Expression>::empty()) =~= Seq::<
                ExpressionModel,
            >::empty());
            match self.parse_list(index + 1, Vec::new()) {
                Ok((arguments, next)) => {
                    let pos = callee.pos;
                    let call = Expression::new(
                        ExpressionNode::Call(Box::new(callee), arguments),
                        pos,
                    );
                    proof {
                        lemma_expression_view(&call);
                        lemma_expression_view(&callee);
                    }
                    self.calls(next, call, Ghost(start))
                },
                Err(diagnostic) => Err(diagnostic),
            }
        } else {
            Ok((callee, index))
        }
    }

    /// Parses the rest of a list of expressions in parentheses.
    fn parse_list(&self, index: usize, items: Vec<Expression>) -> (result: Result<
        (Vec<Expression>, usize),
        Diagnostic,
    >)
        requires
            index <= self.tokens@.len(),
        ensures
            self.meets(
                match result {
                    Ok((list, next)) => Ok((expression_models(list@), next)),
                    Err(diagnostic) => Err(diagnostic@),
                },
                parse_list(self.models(), index as int, expression_models(items@)),
                index as int,
            ),
        decreases self.tokens@.len() - index, 9nat,
    {
        let mut items = items;
        if self.holds(index, 0, TokenType::Symbol, ")") {
            return Ok((items, index + 1));
        }
        let (item, next) = match self.parse_expression(index) {
            Ok(found) => found,
            Err(diagnostic) => {
                return Err(diagnostic);
            },
        };
        let ghost before = expression_models(items@);
        items.push(item);
        assert(expression_models(items@) =~= before.push(item@));
        if self.holds(next, 0, TokenType::Symbol, ",") {
            self.parse_list(next + 1, items)
        } else if self.holds(next, 0, TokenType::Symbol, ")") {
            Ok((items, next + 1))
        } else {
            Err(self.complain(next, 0))
        }
    }

    /// Parses a literal, a name, a block, or something in parentheses.
    fn parse_primary(&self, index: usize) -> (result: Result<(Expression, usize), Diagnostic>)
        ensures
            self.meets(
                match result {
                    Ok((expression, next)) => Ok((expression@, next)),
                    Err(diagnostic) => Err(diagnostic@),
                },
                parse_primary(self.models(), index as int),
                index as int,
            ),
        decreases self.tokens@.len() - index, 3nat,
    {
        let token = match self.ahead(index, 0) {
            Some(token) => token,
            None => {
                return Err(self.complain(index, 0));
            },
        };
        let pos = token.position;
        let node = match token.token_type {
            TokenType::Int | TokenType::Float => ExpressionNode::Number(token.lexeme.clone()),
            TokenType::Str | TokenType::Raw => ExpressionNode::Str(token.lexeme.clone()),
            TokenType::Char => {
                if token.lexeme.as_str().unicode_len() == 1 {
                    ExpressionNode::Char(token.lexeme.as_str().get_char(0))
                } else {
                    return Err(self.complain(index, 0));
                }
            },
            TokenType::Bool => ExpressionNode::Bool(text_is(&token.lexeme, "true")),
            TokenType::Identifier => ExpressionNode::Identifier(token.lexeme.clone()),
            TokenType::Symbol => {
                if text_is(&token.lexeme, "{") {
                    assert(statement_models(Seq::<Statement>::empty()) =~= Seq::<
                        StatementModel,
                    >::empty());
                    match self.parse_statements(index + 1, Vec::new(), true) {
                        Ok((statements, next)) => {
                            let block = Expression::new(ExpressionNode::Block(statements), pos);
                            proof {
                                lemma_expression_view(&block);
                            }
                            return Ok((block, next));
                        },
                        Err(diagnostic) => {
                            return Err(diagnostic);
                        },
                    }
                } else if text_is(&token.lexeme, "(") {
                    return self.parse_parenthesized(index);
                } else {
                    return Err(self.complain(index, 0));
                }
            },
            _ => {
                return Err(self.complain(index, 0));
            },
        };
        let literal = Expression::new(node, pos);
        proof {
            lemma_expression_view(&literal);
        }
        Ok((literal, index + 1))
    }

    /// Parses what begins with the opening parenthesis at `index`.
    fn parse_parenthesized(&self, index: usize) -> (result: Result<(Expression, usize), Diagnostic>)
        requires
            index < self.tokens@.len(),
        ensures
            self.meets(
                match result {
                    Ok((expression, next)) => Ok((expression@, next)),
                    Err(diagnostic) => Err(diagnostic@),
                },
                parse_parenthesized(self.models(), index as int),
                index as int,
            ),
        decreases self.tokens@.len() - index, 2nat,
    {
        let pos = self.position_at(index);
        assert(parameter_models(Seq::<Parameter>::empty()) =~= Seq::<ParameterModel>::empty());
        if self.holds(index, 1, TokenType::Symbol, ")") {
            if self.kind_at(index, 2) == TokenType::Identifier {
                self.parse_function(index, index + 2, Vec::new())
            } else {
                let empty = Expression::new(ExpressionNode::Tuple(Vec::new()), pos);
                proof {
                    lemma_expression_view(&empty);
                    assert(expression_models(Seq::<Expression>::empty()) =~= Seq::<
                        ExpressionModel,
                    >::empty());
                }
                Ok((empty, index + 2))
            }
        } else if self.kind_at(index, 1) == TokenType::Identifier && self.holds(
            index,
            2,
            TokenType::Operator,
            ":",
        ) {
            match self.parse_parameters(index + 1, Vec::new()) {
                Ok((parameters, next)) => self.parse_function(index, next, parameters),
                Err(diagnostic) => Err(diagnostic),
            }
        } else {
            let (first, next) = match self.parse_expression(index + 1) {
                Ok(found) => found,
                Err(diagnostic) => {
                    return Err(diagnostic);
                },
            };
            if self.holds(next, 0, TokenType::Symbol, ")") {
                Ok((first, next + 1))
            } else if self.holds(next, 0, TokenType::Symbol, ",") {
                let mut items: Vec<Expression> = Vec::new();
                items.push(first);
                assert(expression_models(items@) =~= seq![first@]);
                match self.parse_list(next + 1, items) {
                    Ok((items, end)) => {
                        let tuple = Expression::new(ExpressionNode::Tuple(items), pos);
                        proof {
                            lemma_expression_view(&tuple);
                        }
                        Ok((tuple, end))
                    },
                    Err(diagnostic) => Err(diagnostic),
                }
            } else {
                Err(self.complain(next, 0))
            }
        }
    }

    /// Parses the rest of a list of parameters.
    fn parse_parameters(&self, index: usize, parameters: Vec<Parameter>) -> (result: Result<
        (Vec<Parameter>, usize),
        Diagnostic,
    >)
        requires
            index <= self.tokens@.len(),
        ensures
            self.meets(
                match result {
                    Ok((list, next)) => Ok((parameter_models(list@), next)),
                    Err(diagnostic) => Err(diagnostic@),
                },
                parse_parameters(self.models(), index as int, parameter_models(parameters@)),
                index as int,
            ),
        decreases self.tokens@.len() - index, 2nat,
    {
        let mut parameters = parameters;
        let name = match self.ahead(index, 0) {
            Some(token) => {
                if token.token_type == TokenType::Identifier && self.holds(
                    index,
                    1,
                    TokenType::Operator,
                    ":",
                ) {
                    token.lexeme.clone()
                } else {
                    return Err(self.complain(index, 0));
                }
            },
            None => {
                return Err(self.complain(index, 0));
            },
        };
        let (t, next) = match self.parse_type(index + 2) {
            Ok(found) => found,
            Err(diagnostic) => {
                return Err(diagnostic);
            },
        };
        let ghost before = parameter_models(parameters@);
        let parameter = Parameter { name, kind: t };
        parameters.push(parameter);
        assert(parameter_models(parameters@) =~= before.push(parameter@));
        if self.holds(next, 0, TokenType::Symbol, ",") {
            self.parse_parameters(next + 1, parameters)
        } else if self.holds(next, 0, TokenType::Symbol, ")") {
            Ok((parameters, next + 1))
        } else {
            Err(self.complain(next, 0))
        }
    }

    /// Parses the rest of a function literal.
    fn parse_function(&self, start: usize, index: usize, parameters: Vec<Parameter>) -> (result:
        Result<(Expression, usize), Diagnostic>)
        requires
            start < index <= self.tokens@.len(),
        ensures
            self.meets(
                match result {
                    Ok((expression, next)) => Ok((expression@, next)),
                    Err(diagnostic) => Err(diagnostic@),
                },
                parse_function(
                    self.models(),
                    start as int,
                    index as int,
                    parameter_models(parameters@),
                ),
                start as int,
            ),
        decreases self.tokens@.len() - index, 2nat,
    {
        let (result, arrow) = match self.parse_type(index) {
            Ok(found) => found,
            Err(diagnostic) => {
                return Err(diagnostic);
            },
        };
        if !self.holds(arrow, 0, TokenType::Operator, "->") {
            return Err(self.complain(arrow, 0));
        }
        match self.parse_expression(arrow + 1) {
            Ok((body, next)) => {
                let function = Expression::new(
                    ExpressionNode::Function(parameters, result, Box::new(body)),
                    self.position_at(start),
                );
                proof {
                    lemma_expression_view(&function);
                }
                Ok((function, next))
            },
            Err(diagnostic) => Err(diagnostic),
        }
    }

    /// Ends a declaration: a tuple target must hold names only.
    fn declared(&self, node: StatementNode, next: usize, Ghost(start): Ghost<int>) -> (result: Result<
        (Statement, usize),
        Diagnostic,
    >)
        requires
            start < next <= self.tokens@.len(),
        ensures
            self.meets(
                match result {
                    Ok((statement, end)) => Ok((statement@, end)),
                    Err(diagnostic) => Err(diagnostic@),
                },
                declared(target(node@), node@, next as int),
                start,
            ),
    {
        let ghost model = node@;
        let (pos, other) = match &node {
            StatementNode::Expression(left) => {
                proof {
                    lemma_expression_view(left);
                }
                (
                    left.pos,
                    match &left.node {
                        ExpressionNode::Tuple(targets) => first_other_of(targets),
                        _ => None,
                    },
                )
            },
            StatementNode::Variable(_, left, _) => {
                proof {
                    lemma_expression_view(left);
                }
                (
                    left.pos,
                    match &left.node {
                        ExpressionNode::Tuple(targets) => first_other_of(targets),
                        _ => None,
                    },
                )
            },
            StatementNode::Constant(_, left, _) => {
                proof {
                    lemma_expression_view(left);
                }
                (
                    left.pos,
                    match &left.node {
                        ExpressionNode::Tuple(targets) => first_other_of(targets),
                        _ => None,
                    },
                )
            },
        };
        match other {
            Some(position) => Err(
                Diagnostic::new(Fault::NonIdentifier, self.source.file.as_str(), Some(position)),
            ),
            None => {
                let statement = Statement::new(node, pos);
                proof {
                    lemma_statement_view(&statement);
                }
                Ok((statement, next))
            },
        }
    }

    /// Parses a statement.
    pub fn parse_statement(&self, index: usize) -> (result: Result<(Statement, usize), Diagnostic>)
        ensures
            self.meets(
                match result {
                    Ok((statement, next)) => Ok((statement@, next)),
                    Err(diagnostic) => Err(diagnostic@),
                },
                parse_statement(self.models(), index as int),
                index as int,
            ),
        decreases self.tokens@.len() - index, 8nat,
    {
        let (left, next) = match self.parse_expression(index) {
            Ok(found) => found,
            Err(diagnostic) => {
                return Err(diagnostic);
            },
        };
        if self.holds(next, 0, TokenType::Operator, ":=") {
            match self.parse_expression(next + 1) {
                Ok((right, end)) => {
                    let node = StatementNode::Variable(Type::nil(), left, Some(right));
                    self.declared(node, end, Ghost(index as int))
                },
                Err(diagnostic) => Err(diagnostic),
            }
        } else if self.holds(next, 0, TokenType::Operator, "::") {
            match self.parse_expression(next + 1) {
                Ok((right, end)) => {
                    let node = StatementNode::Constant(
                        Type::new(TypeNode::Nil, TypeMode::Immutable),
                        left,
                        right,
                    );
                    self.declared(node, end, Ghost(index as int))
                },
                Err(diagnostic) => Err(diagnostic),
            }
        } else if self.holds(next, 0, TokenType::Operator, ":") {
            let (t, after) = match self.parse_type(next + 1) {
                Ok(found) => found,
                Err(diagnostic) => {
                    return Err(diagnostic);
                },
            };
            if self.holds(after, 0, TokenType::Operator, "=") {
                match self.parse_expression(after + 1) {
                    Ok((right, end)) => {
                        let node = StatementNode::Variable(t, left, Some(right));
                        self.declared(node, end, Ghost(index as int))
                    },
                    Err(diagnostic) => Err(diagnostic),
                }
            } else if self.holds(after, 0, TokenType::Operator, ":") {
                match self.parse_expression(after + 1) {
                    Ok((right, end)) => {
                        let node = StatementNode::Constant(
                            Type::new(t.node, TypeMode::Immutable),
                            left,
                            right,
                        );
                        self.declared(node, end, Ghost(index as int))
                    },
                    Err(diagnostic) => Err(diagnostic),
                }
            } else {
                let node = StatementNode::Variable(t, left, None);
                self.declared(node, after, Ghost(index as int))
            }
        } else {
            let pos = left.pos;
            let statement = Statement::new(StatementNode::Expression(left), pos);
            proof {
                lemma_statement_view(&statement);
                lemma_expression_view(&left);
            }
            Ok((statement, next))
        }
    }

    /// Counts the line ends from `index` on.
    fn skip_lines(&self, index: usize) -> (next: usize)
        requires
            index <= self.tokens@.len(),
        ensures
            next == index + line_ends(self.models(), index as int),
            index <= next <= self.tokens@.len(),
    {
        let mut next = index;
        while self.holds(next, 0, TokenType::Symbol, "\n")
            invariant
                index <= next <= self.tokens@.len(),
                index + line_ends(self.models(), index as int) == next + line_ends(
                    self.models(),
                    next as int,
                ),
            decreases self.tokens@.len() - next,
        {
            next += 1;
        }
        next
    }

    /// Parses the statements from `index` on.
    fn parse_statements(&self, index: usize, statements: Vec<Statement>, inside: bool) -> (result:
        Result<(Vec<Statement>, usize), Diagnostic>)
        requires
            index <= self.tokens@.len(),
        ensures
            match parse_statements(
                self.models(),
                index as int,
                statement_models(statements@),
                inside,
            ) {
                Ok((value, next)) => {
                    &&& result matches Ok((list, end))
                    &&& statement_models(list@) == value
                    &&& end == next
                    &&& index <= next <= self.tokens@.len()
                    &&& inside ==> index < next
                },
                Err((fault, position)) => {
                    &&& result matches Err(diagnostic)
                    &&& diagnostic@ == (DiagnosticModel {
                        fault,
                        file: self.source.file@,
                        position,
                    })
                },
            },
        decreases self.tokens@.len() - index, 9nat,
    {
        let mut statements = statements;
        let start = self.skip_lines(index);
        if inside && self.holds(start, 0, TokenType::Symbol, "}") {
            return Ok((statements, start + 1));
        }
        if self.kind_at(start, 0) == TokenType::EOF {
            if inside {
                return Err(self.complain(start, 0));
            } else {
                return Ok((statements, start));
            }
        }
        let (statement, next) = match self.parse_statement(start) {
            Ok(found) => found,
            Err(diagnostic) => {
                return Err(diagnostic);
            },
        };
        if self.holds(next, 0, TokenType::Symbol, "\n") || self.kind_at(next, 0) == TokenType::EOF
            || (inside && self.holds(next, 0, TokenType::Symbol, "}")) {
            let ghost before = statement_models(statements@);
            statements.push(statement);
            assert(statement_models(statements@) =~= before.push(statement@));
            self.parse_statements(next, statements, inside)
        } else {
            Err(self.complain(next, 0))
        }
    }

    /// Parses the program that the tokens stand for: statements, one to a
    /// line, up to the end of the input or the first fault.
    pub fn parse(&self) -> (result: Result<Vec<Statement>, Diagnostic>)
        ensures
            match parse_program(self.models()) {
                Ok(statements) => result is Ok && statement_models(result->Ok_0@) == statements,
                Err((fault, position)) => result is Err && result->Err_0@ == (DiagnosticModel {
                    fault,
                    file: self.source.file@,
                    position,
                }),
            },
    {
        assert(statement_models(Seq::<Statement>::empty()) =~= Seq::<StatementModel>::empty());
        match self.parse_statements(0, Vec::new(), false) {
            Ok((statements, _)) => Ok(statements),
            Err(diagnostic) => Err(diagnostic),
        }
    }
}

} // verus!
