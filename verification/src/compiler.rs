//! The compiler: from the checked syntax tree to the instructions of the
//! machine.

use vstd::prelude::*;
use vstd::string::*;
use crate::ast::{
    expression_models, lemma_expression_view, lemma_statement_view, parameter_models,
    statement_models, Expression, ExpressionModel, ExpressionNode, ExpressionNodeModel, Parameter,
    ParameterModel, Statement, StatementModel, StatementNode, StatementNodeModel,
};
use crate::bytecode::{Instruction, Value};
use crate::diagnostic::{Diagnostic, DiagnosticModel, Fault, FaultModel};
use crate::lexer::{is_digit, texts};
use crate::source::Source;
use crate::symtab::{declare, outer, resolve, SymTab};
use crate::token::Position;

verus! {

/// What the compiler keeps while it lowers a program: the names of each
/// scope, from the global one inwards, and the table of texts.
pub struct Layout {
    pub names: Seq<Seq<Seq<char>>>,
    pub texts: Seq<Seq<char>>,
}

/// What lowering one construct gives: the layout afterwards, and the
/// instructions, or else a fault and where it was found.
pub struct Lowered {
    pub layout: Layout,
    pub outcome: Result<Seq<Instruction>, (FaultModel, Option<Position>)>,
}

/// Lowering went through.
pub open spec fn done(code: Seq<Instruction>, layout: Layout) -> Lowered {
    Lowered { layout, outcome: Ok(code) }
}

/// Lowering stopped at a fault.
pub open spec fn failed(layout: Layout, fault: FaultModel, position: Option<Position>) -> Lowered {
    Lowered { layout, outcome: Err((fault, position)) }
}

/// `rest` with `code` in front of its instructions.
pub open spec fn after(code: Seq<Instruction>, rest: Lowered) -> Lowered {
    Lowered {
        layout: rest.layout,
        outcome: match rest.outcome {
            Ok(more) => Ok(code + more),
            Err(fault) => Err(fault),
        },
    }
}

/// The number that a text of decimal digits stands for.
pub open spec fn decimal_value(text: Seq<char>) -> nat
    decreases text.len(),
{
    if text.len() == 0 {
        0
    } else {
        (decimal_value(text.drop_last()) * 10 + (text.last() as u32 - 48)) as nat
    }
}

/// The whole number that a literal stands for, if it is made of decimal
/// digits only.
pub open spec fn whole(text: Seq<char>) -> Option<nat> {
    if text.len() > 0 && (forall|i: int| 0 <= i < text.len() ==> is_digit(#[trigger] text[i])) {
        Some(decimal_value(text))
    } else {
        None
    }
}

/// The number that a text of digits stands for is at least the number
/// that any beginning of it stands for.
pub proof fn lemma_decimal_grows(text: Seq<char>, n: int)
    requires
        0 <= n <= text.len(),
        forall|i: int| 0 <= i < text.len() ==> is_digit(#[trigger] text[i]),
    ensures
        decimal_value(text.take(n)) <= decimal_value(text),
    decreases text.len() - n,
{
    if n < text.len() {
        lemma_decimal_grows(text, n + 1);
        assert(text.take(n + 1).drop_last() =~= text.take(n));
        assert(text.take(n + 1).last() == text[n]);
    } else {
        assert(text.take(n) =~= text);
    }
}

/// The address that a declaration of `name` stores to, as slot and
/// distance, and the layout afterwards: the address the name resolves
/// to, or else a new slot in the innermost scope.
pub open spec fn place_for(layout: Layout, name: Seq<char>) -> ((nat, nat), Layout) {
    match resolve(layout.names, name) {
        Some(found) => (found, layout),
        None => (
            (layout.names.last().len(), 0nat),
            Layout { names: declare(layout.names, name), texts: layout.texts },
        ),
    }
}

/// The instruction that stores to an address.
pub open spec fn store_to(place: (nat, nat)) -> Instruction {
    Instruction::Store { distance: place.1 as usize, slot: place.0 as usize }
}

/// The names of a list of parameters.
pub open spec fn parameter_names(parameters: Seq<ParameterModel>) -> Seq<Seq<char>> {
    Seq::new(parameters.len(), |i: int| parameters[i].name)
}

/// The instructions of a function with so many parameters whose body
/// lowers to `body` in a scope that ends up with `slots` names: the
/// function itself, then room for the names that are no parameters, the
/// body, and the return.
pub open spec fn function_code(parameters: nat, slots: nat, body: Seq<Instruction>) -> Seq<
    Instruction,
> {
    seq![
        Instruction::Function { parameters: parameters as usize, length: (body.len() + 2) as usize },
        Instruction::Reserve(
            if slots >= parameters {
                (slots - parameters) as usize
            } else {
                0usize
            },
        ),
    ] + body + seq![Instruction::Return]
}

/// The instructions that leave the value of an expression on the compute
/// stack. Literals are pushed, texts and fractional numbers by their
/// index in the table of texts; a name is loaded from its address;
/// operands come before their operator, and the callee and the arguments
/// before the call; a function lowers its body in a scope of its own; a
/// block lowers to the value of its last statement.
pub open spec fn lower_expression(layout: Layout, expression: ExpressionModel) -> Lowered
    decreases expression, 0nat,
{
    match expression.node {
        ExpressionNodeModel::Number(text) => match whole(text) {
            Some(value) => if value <= i128::MAX {
                done(seq![Instruction::Push(Value::Int(value as i128))], layout)
            } else {
                failed(layout, FaultModel::NumberTooLarge(text), Some(expression.pos))
            },
            None => done(
                seq![Instruction::Push(Value::Float(layout.texts.len() as usize))],
                Layout { names: layout.names, texts: layout.texts.push(text) },
            ),
        },
        ExpressionNodeModel::Str(text) => done(
            seq![Instruction::Push(Value::Str(layout.texts.len() as usize))],
            Layout { names: layout.names, texts: layout.texts.push(text) },
        ),
        ExpressionNodeModel::Char(c) => done(seq![Instruction::Push(Value::Char(c))], layout),
        ExpressionNodeModel::Bool(b) => done(seq![Instruction::Push(Value::Bool(b))], layout),
        ExpressionNodeModel::Identifier(name) => match resolve(layout.names, name) {
            Some((slot, distance)) => done(
                seq![Instruction::Load { distance: distance as usize, slot: slot as usize }],
                layout,
            ),
            None => failed(layout, FaultModel::Undeclared(name), Some(expression.pos)),
        },
        ExpressionNodeModel::Tuple(_) => failed(
            layout,
            FaultModel::MisplacedTuple,
            Some(expression.pos),
        ),
        ExpressionNodeModel::Block(statements) => lower_block(layout, statements, 0),
        ExpressionNodeModel::Function(parameters, _, body) => {
            let inner = lower_expression(
                Layout {
                    names: layout.names.push(parameter_names(parameters)),
                    texts: layout.texts,
                },
                *body,
            );
            match inner.outcome {
                Ok(code) => done(
                    function_code(parameters.len(), inner.layout.names.last().len(), code),
                    Layout { names: outer(inner.layout.names), texts: inner.layout.texts },
                ),
                Err(_) => inner,
            }
        },
        ExpressionNodeModel::Call(callee, arguments) => {
            let first = lower_expression(layout, *callee);
            match first.outcome {
                Ok(code) => {
                    let rest = lower_all(first.layout, arguments, 0);
                    match rest.outcome {
                        Ok(more) => done(
                            code + more + seq![Instruction::Call(arguments.len() as usize)],
                            rest.layout,
                        ),
                        Err(_) => rest,
                    }
                },
                Err(_) => first,
            }
        },
        ExpressionNodeModel::Binary(left, operator, right) => {
            let first = lower_expression(layout, *left);
            match first.outcome {
                Ok(code) => {
                    let second = lower_expression(first.layout, *right);
                    match second.outcome {
                        Ok(more) => done(
                            code + more + seq![Instruction::Binary(operator)],
                            second.layout,
                        ),
                        Err(_) => second,
                    }
                },
                Err(_) => first,
            }
        },
        ExpressionNodeModel::Unary(operator, operand) => {
            let first = lower_expression(layout, *operand);
            match first.outcome {
                Ok(code) => done(code + seq![Instruction::Unary(operator)], first.layout),
                Err(_) => first,
            }
        },
    }
}

/// The instructions that leave the values of the expressions from `from`
/// on on the compute stack, the first lowest.
pub open spec fn lower_all(layout: Layout, expressions: Seq<ExpressionModel>, from: nat) -> Lowered
    decreases expressions, expressions.len() - from,
{
    if from >= expressions.len() {
        done(Seq::empty(), layout)
    } else {
        let first = lower_expression(layout, expressions[from as int]);
        match first.outcome {
            Ok(code) => after(code, lower_all(first.layout, expressions, from + 1)),
            Err(_) => first,
        }
    }
}

/// The instruction behind the value at place `from` of a tuple: it is
/// stored to the address of the name at that place, and dropped where
/// there are fewer names than values.
pub open spec fn settle_value(places: Seq<(nat, nat)>, from: nat) -> Instruction {
    if from < places.len() {
        store_to(places[from as int])
    } else {
        Instruction::Pop
    }
}

/// The instructions of the values of a tuple from `from` on, each
/// followed by the instruction that settles it.
pub open spec fn lower_values(
    layout: Layout,
    places: Seq<(nat, nat)>,
    values: Seq<ExpressionModel>,
    from: nat,
) -> Lowered
    decreases values, values.len() - from,
{
    if from >= values.len() {
        done(Seq::empty(), layout)
    } else {
        let first = lower_expression(layout, values[from as int]);
        match first.outcome {
            Ok(code) => after(
                code + seq![settle_value(places, from)],
                lower_values(first.layout, places, values, from + 1),
            ),
            Err(_) => first,
        }
    }
}

/// What finding the addresses of the names of a tuple gives: the layout
/// afterwards, and the addresses, or else a fault and where it was found.
pub struct Placed {
    pub layout: Layout,
    pub outcome: Result<Seq<(nat, nat)>, (FaultModel, Option<Position>)>,
}

/// The addresses of the names of a tuple target from `from` on, behind
/// `places`.
pub open spec fn place_targets(
    layout: Layout,
    targets: Seq<ExpressionModel>,
    from: nat,
    places: Seq<(nat, nat)>,
) -> Placed
    decreases targets.len() - from,
{
    if from >= targets.len() {
        Placed { layout, outcome: Ok(places) }
    } else {
        match targets[from as int].node {
            ExpressionNodeModel::Identifier(name) => place_targets(
                place_for(layout, name).1,
                targets,
                from + 1,
                places.push(place_for(layout, name).0),
            ),
            _ => Placed {
                layout,
                outcome: Err((FaultModel::NonIdentifier, Some(targets[from as int].pos))),
            },
        }
    }
}

/// The fault of a declaration whose left side is neither a name nor a
/// tuple.
pub open spec fn unexpected_target(layout: Layout, left: ExpressionModel, constant: bool) -> Lowered {
    failed(
        layout,
        if constant {
            FaultModel::UnexpectedConstant
        } else {
            FaultModel::UnexpectedVariable
        },
        Some(left.pos),
    )
}

/// A declaration without a value: a name, or each name of a tuple, gets
/// an address, and there is nothing to carry out.
pub open spec fn lower_bare(layout: Layout, left: ExpressionModel) -> Lowered {
    match left.node {
        ExpressionNodeModel::Identifier(name) => done(Seq::empty(), place_for(layout, name).1),
        ExpressionNodeModel::Tuple(targets) => {
            let placed = place_targets(layout, targets, 0, Seq::empty());
            match placed.outcome {
                Ok(_) => done(Seq::empty(), placed.layout),
                Err(fault) => Lowered { layout: placed.layout, outcome: Err(fault) },
            }
        },
        _ => unexpected_target(layout, left, false),
    }
}

/// A declaration with a value. A name gets an address, and the value is
/// stored to it; the names of a tuple get addresses, and the values of a
/// tuple are stored to them in order.
pub open spec fn lower_declaration(
    layout: Layout,
    left: ExpressionModel,
    initializer: ExpressionModel,
    constant: bool,
) -> Lowered
    decreases initializer, 1nat,
{
    match left.node {
        ExpressionNodeModel::Identifier(name) => {
            let value = lower_expression(place_for(layout, name).1, initializer);
            match value.outcome {
                Ok(code) => done(code + seq![store_to(place_for(layout, name).0)], value.layout),
                Err(_) => value,
            }
        },
        ExpressionNodeModel::Tuple(targets) => {
            let placed = place_targets(layout, targets, 0, Seq::empty());
            match placed.outcome {
                Ok(places) => match initializer.node {
                    ExpressionNodeModel::Tuple(values) => lower_values(
                        placed.layout,
                        places,
                        values,
                        0,
                    ),
                    _ => failed(
                        placed.layout,
                        FaultModel::MisplacedTuple,
                        Some(initializer.pos),
                    ),
                },
                Err(fault) => Lowered { layout: placed.layout, outcome: Err(fault) },
            }
        },
        _ => unexpected_target(layout, left, constant),
    }
}

/// The instructions of a statement. An expression leaves its value on
/// the compute stack.
pub open spec fn lower_statement(layout: Layout, statement: StatementModel) -> Lowered
    decreases statement, 2nat,
{
    match statement.node {
        StatementNodeModel::Expression(expression) => lower_expression(layout, expression),
        StatementNodeModel::Variable(_, left, right) => match right {
            Some(initializer) => lower_declaration(layout, left, initializer, false),
            None => lower_bare(layout, left),
        },
        StatementNodeModel::Constant(_, left, right) => lower_declaration(
            layout,
            left,
            right,
            true,
        ),
    }
}

/// The instructions of the statements of a block from `from` on, which
/// leave one value on the compute stack: that of the last statement if
/// it is an expression, else the empty value. The values of the
/// expressions before are dropped.
pub open spec fn lower_block(layout: Layout, statements: Seq<StatementModel>, from: nat) -> Lowered
    decreases statements, statements.len() - from,
{
    if from >= statements.len() {
        done(seq![Instruction::Push(Value::Nil)], layout)
    } else {
        let first = lower_statement(layout, statements[from as int]);
        match first.outcome {
            Ok(code) => if statements[from as int].node is Expression {
                if from + 1 == statements.len() {
                    first
                } else {
                    after(
                        code + seq![Instruction::Pop],
                        lower_block(first.layout, statements, from + 1),
                    )
                }
            } else {
                after(code, lower_block(first.layout, statements, from + 1))
            },
            Err(_) => first,
        }
    }
}

/// The instructions of the statements of a program from `from` on. The
/// value of every expression stays on the compute stack.
pub open spec fn lower_statements(layout: Layout, statements: Seq<StatementModel>, from: nat) -> Lowered
    decreases statements, statements.len() - from,
{
    if from >= statements.len() {
        done(Seq::empty(), layout)
    } else {
        let first = lower_statement(layout, statements[from as int]);
        match first.outcome {
            Ok(code) => after(code, lower_statements(first.layout, statements, from + 1)),
            Err(_) => first,
        }
    }
}

/// The instructions of a program: room for the names of the innermost
/// scope, then the statements.
pub open spec fn lower_program(layout: Layout, statements: Seq<StatementModel>) -> Lowered {
    let lowered = lower_statements(layout, statements, 0);
    after(seq![Instruction::Reserve(lowered.layout.names.last().len() as usize)], lowered)
}

/// What reading a numeric literal gives.
enum Numeral {
    Whole(i128),
    TooLarge,
    Fractional,
}

/// Reads a numeric literal.
fn read_number(text: &String) -> (numeral: Numeral)
    ensures
        match whole(text@) {
            Some(value) => if value <= i128::MAX {
                numeral matches Numeral::Whole(found) && found == value
            } else {
                numeral is TooLarge
            },
            None => numeral is Fractional,
        },
{
    let len = text.as_str().unicode_len();
    if len == 0 {
        return Numeral::Fractional;
    }
    let mut i: usize = 0;
    while i < len
        invariant
            i <= len,
            len == text@.len(),
            forall|j: int| 0 <= j < i ==> is_digit(#[trigger] text@[j]),
        decreases len - i,
    {
        let code = text.as_str().get_char(i) as u32;
        if code < 48 || code > 57 {
            return Numeral::Fractional;
        }
        i += 1;
    }
    let mut value: i128 = 0;
    let mut i: usize = 0;
    assert(text@.take(0) =~= Seq::<char>::empty());
    while i < len
        invariant
            i <= len,
            len == text@.len(),
            forall|j: int| 0 <= j < len ==> is_digit(#[trigger] text@[j]),
            0 <= value,
            value == decimal_value(text@.take(i as int)),
        decreases len - i,
    {
        let digit = (text.as_str().get_char(i) as u32 - 48) as i128;
        proof {
            assert(text@.take(i + 1).drop_last() =~= text@.take(i as int));
            assert(text@.take(i + 1).last() == text@[i as int]);
            lemma_decimal_grows(text@, i + 1);
        }
        let tenfold = match value.checked_mul(10) {
            Some(tenfold) => tenfold,
            None => {
                return Numeral::TooLarge;
            },
        };
        value = match tenfold.checked_add(digit) {
            Some(sum) => sum,
            None => {
                return Numeral::TooLarge;
            },
        };
        i += 1;
    }
    assert(text@.take(len as int) =~= text@);
    Numeral::Whole(value)
}

/// The names of a list of parameters.
fn names_of_parameters(parameters: &Vec<Parameter>) -> (names: Vec<String>)
    ensures
        crate::symtab::names_of(names@) == parameter_names(parameter_models(parameters@)),
{
    let mut names: Vec<String> = Vec::new();
    let mut i: usize = 0;
    while i < parameters.len()
        invariant
            i <= parameters.len(),
            names@.len() == i,
            forall|j: int| 0 <= j < i ==> (#[trigger] names@[j])@ == parameters@[j].name@,
        decreases parameters.len() - i,
    {
        names.push(parameters[i].name.clone());
        i += 1;
    }
    assert(crate::symtab::names_of(names@) =~= parameter_names(parameter_models(parameters@)));
    names
}

/// The compiler: the names of the scopes, the table of texts, the
/// instructions of the program that was compiled last, and the source for
/// diagnostics.
pub struct Compiler<'c> {
    pub symtab: SymTab,
    pub texts: Vec<String>,
    pub bytecode: Vec<Instruction>,
    pub source: &'c Source,
}

impl<'c> Compiler<'c> {
    /// The names and texts that the compiler keeps.
    pub open spec fn layout(&self) -> Layout {
        Layout { names: self.symtab@, texts: texts(self.texts@) }
    }

    /// Whether `after` and `result` are what `lowered` says of a compiler
    /// that was `self` before: the same instructions and the same layout
    /// afterwards, or the same fault, reported under the name of the
    /// source's file.
    pub open spec fn lowers(
        &self,
        after: &Compiler<'c>,
        result: Result<Vec<Instruction>, Diagnostic>,
        lowered: Lowered,
    ) -> bool {
        &&& after.source == self.source
        &&& after.bytecode == self.bytecode
        &&& after.layout() == lowered.layout
        &&& match lowered.outcome {
            Ok(code) => result is Ok && result->Ok_0@ == code,
            Err((fault, position)) => {
                &&& result is Err
                &&& result->Err_0@ == (DiagnosticModel {
                    fault,
                    file: self.source.file@,
                    position,
                })
            },
        }
    }

    /// A compiler that starts from the names of a checked program.
    pub fn new(symtab: SymTab, source: &'c Source) -> (compiler: Self)
        ensures
            compiler.symtab == symtab,
            compiler.texts@ == Seq::<String>::empty(),
            compiler.bytecode@ == Seq::<Instruction>::empty(),
            compiler.source == source,
    {
        Compiler { symtab, texts: Vec::new(), bytecode: Vec::new(), source }
    }

    /// A diagnostic for a fault found in this compiler's source.
    fn diagnose(&self, fault: Fault, position: Option<Position>) -> (diagnostic: Diagnostic)
        ensures
            diagnostic@ == (DiagnosticModel { fault: fault@, file: self.source.file@, position }),
    {
        Diagnostic::new(fault, self.source.file.as_str(), position)
    }

    /// Puts a text in the table and returns its index.
    fn intern(&mut self, text: &String) -> (index: usize)
        ensures
            index == old(self).layout().texts.len(),
            final(self).layout() == (Layout {
                names: old(self).layout().names,
                texts: old(self).layout().texts.push(text@),
            }),
            final(self).source == old(self).source,
            final(self).bytecode == old(self).bytecode,
    {
        let index = self.texts.len();
        self.texts.push(text.clone());
        assert(texts(self.texts@) =~= texts(old(self).texts@).push(text@));
        index
    }

    /// Finds the address that a declaration of `name` stores to.
    fn place(&mut self, name: &String) -> (found: (usize, usize))
        ensures
            found.0 == place_for(old(self).layout(), name@).0.0,
            found.1 == place_for(old(self).layout(), name@).0.1,
            final(self).layout() == place_for(old(self).layout(), name@).1,
            final(self).source == old(self).source,
            final(self).bytecode == old(self).bytecode,
    {
        match self.symtab.get_name(name.as_str()) {
            Some(found) => found,
            None => (self.symtab.add_name(name.as_str()), 0),
        }
    }

    /// Lowers an expression.
    pub fn lower_expression(&mut self, expression: &Expression) -> (result: Result<
        Vec<Instruction>,
        Diagnostic,
    >)
        ensures
            old(self).lowers(
                final(self),
                result,
                lower_expression(old(self).layout(), expression@),
            ),
        decreases expression, 0nat,
    {
        proof {
            lemma_expression_view(expression);
        }
        let mut code: Vec<Instruction> = Vec::new();
        match &expression.node {
            ExpressionNode::Number(text) => match read_number(text) {
                Numeral::Whole(value) => {
                    code.push(Instruction::Push(Value::Int(value)));
                },
                Numeral::TooLarge => {
                    return Err(
                        self.diagnose(Fault::NumberTooLarge(text.clone()), Some(expression.pos)),
                    );
                },
                Numeral::Fractional => {
                    let index = self.intern(text);
                    code.push(Instruction::Push(Value::Float(index)));
                },
            },
            ExpressionNode::Str(text) => {
                let index = self.intern(text);
                code.push(Instruction::Push(Value::Str(index)));
            },
            ExpressionNode::Char(c) => {
                code.push(Instruction::Push(Value::Char(*c)));
            },
            ExpressionNode::Bool(b) => {
                code.push(Instruction::Push(Value::Bool(*b)));
            },
            ExpressionNode::Identifier(name) => match self.symtab.get_name(name.as_str()) {
                Some((slot, distance)) => {
                    code.push(Instruction::Load { distance, slot });
                },
                None => {
                    return Err(
                        self.diagnose(Fault::Undeclared(name.clone()), Some(expression.pos)),
                    );
                },
            },
            ExpressionNode::Tuple(_) => {
                return Err(self.diagnose(Fault::MisplacedTuple, Some(expression.pos)));
            },
            ExpressionNode::Block(statements) => {
                return self.lower_block(statements);
            },
            ExpressionNode::Function(parameters, _, body) => {
                let names = names_of_parameters(parameters);
                self.symtab.enter(names);
                let mut inner = match self.lower_expression(body) {
                    Ok(inner) => inner,
                    Err(diagnostic) => {
                        return Err(diagnostic);
                    },
                };
                let slots = self.symtab.size();
                self.symtab.leave();
                let count = parameters.len();
                let room = if slots >= count {
                    slots - count
                } else {
                    0
                };
                let mut body_code: Vec<Instruction> = Vec::new();
                body_code.push(Instruction::Reserve(room));
                body_code.append(&mut inner);
                body_code.push(Instruction::Return);
                code.push(Instruction::Function { parameters: count, length: body_code.len() });
                code.append(&mut body_code);
                proof {
                    let lowered = lower_expression(old(self).layout(), expression@);
                    assert(code@ =~= lowered.outcome->Ok_0);
                }
            },
            ExpressionNode::Call(callee, arguments) => {
                let mut first = match self.lower_expression(callee) {
                    Ok(first) => first,
                    Err(diagnostic) => {
                        return Err(diagnostic);
                    },
                };
                let mut rest = match self.lower_all(arguments) {
                    Ok(rest) => rest,
                    Err(diagnostic) => {
                        return Err(diagnostic);
                    },
                };
                code.append(&mut first);
                code.append(&mut rest);
                code.push(Instruction::Call(arguments.len()));
                proof {
                    let lowered = lower_expression(old(self).layout(), expression@);
                    assert(code@ =~= lowered.outcome->Ok_0);
                }
            },
            ExpressionNode::Binary(left, operator, right) => {
                let mut first = match self.lower_expression(left) {
                    Ok(first) => first,
                    Err(diagnostic) => {
                        return Err(diagnostic);
                    },
                };
                let mut second = match self.lower_expression(right) {
                    Ok(second) => second,
                    Err(diagnostic) => {
                        return Err(diagnostic);
                    },
                };
                code.append(&mut first);
                code.append(&mut second);
                code.push(Instruction::Binary(*operator));
                proof {
                    let lowered = lower_expression(old(self).layout(), expression@);
                    assert(code@ =~= lowered.outcome->Ok_0);
                }
            },
            ExpressionNode::Unary(operator, operand) => {
                let mut first = match self.lower_expression(operand) {
                    Ok(first) => first,
                    Err(diagnostic) => {
                        return Err(diagnostic);
                    },
                };
                code.append(&mut first);
                code.push(Instruction::Unary(*operator));
                proof {
                    let lowered = lower_expression(old(self).layout(), expression@);
                    assert(code@ =~= lowered.outcome->Ok_0);
                }
            },
        }
        proof {
            let lowered = lower_expression(old(self).layout(), expression@);
            assert(code@ =~= lowered.outcome->Ok_0);
        }
        Ok(code)
    }

    /// Lowers a list of expressions one after the other.
    #[verifier::loop_isolation(false)]
    fn lower_all(&mut self, expressions: &Vec<Expression>) -> (result: Result<
        Vec<Instruction>,
        Diagnostic,
    >)
        ensures
            old(self).lowers(
                final(self),
                result,
                lower_all(old(self).layout(), expression_models(expressions@), 0),
            ),
        decreases expressions, 1nat,
    {
        let ghost models = expression_models(expressions@);
        let ghost whole = lower_all(old(self).layout(), models, 0);
        let mut code: Vec<Instruction> = Vec::new();
        let mut i: usize = 0;
        while i < expressions.len()
            invariant
                i <= expressions.len(),
                self.source == old(self).source,
                self.bytecode == old(self).bytecode,
                whole == after(code@, lower_all(self.layout(), models, i as nat)),
            decreases expressions.len() - i,
        {
            let ghost before = code@;
            let ghost here = self.layout();
            let mut next = match self.lower_expression(&expressions[i]) {
                Ok(next) => next,
                Err(diagnostic) => {
                    return Err(diagnostic);
                },
            };
            let ghost added = next@;
            code.append(&mut next);
            i += 1;
            proof {
                let rest = lower_all(self.layout(), models, i as nat);
                if rest.outcome is Ok {
                    assert(before + (added + rest.outcome->Ok_0) =~= code@ + rest.outcome->Ok_0);
                }
            }
        }
        assert(code@ + Seq::<Instruction>::empty() =~= code@);
        Ok(code)
    }

    /// Finds the addresses of the names of a tuple target.
    #[verifier::loop_isolation(false)]
    fn place_targets(&mut self, targets: &Vec<Expression>) -> (result: Result<
        Vec<(usize, usize)>,
        Diagnostic,
    >)
        ensures
            final(self).source == old(self).source,
            final(self).bytecode == old(self).bytecode,
            final(self).layout() == place_targets(
                old(self).layout(),
                expression_models(targets@),
                0,
                Seq::empty(),
            ).layout,
            match place_targets(
                old(self).layout(),
                expression_models(targets@),
                0,
                Seq::empty(),
            ).outcome {
                Ok(places) => {
                    &&& result is Ok
                    &&& result->Ok_0@.len() == places.len()
                    &&& forall|i: int|
                        0 <= i < places.len() ==> (#[trigger] result->Ok_0@[i]).0 == places[i].0
                            && result->Ok_0@[i].1 == places[i].1
                },
                Err((fault, position)) => {
                    &&& result is Err
                    &&& result->Err_0@ == (DiagnosticModel {
                        fault,
                        file: old(self).source.file@,
                        position,
                    })
                },
            },
    {
        let ghost models = expression_models(targets@);
        let ghost whole = place_targets(old(self).layout(), models, 0, Seq::empty());
        let ghost mut places: Seq<(nat, nat)> = Seq::empty();
        let mut found: Vec<(usize, usize)> = Vec::new();
        let mut i: usize = 0;
        while i < targets.len()
            invariant
                i <= targets.len(),
                self.source == old(self).source,
                self.bytecode == old(self).bytecode,
                whole == place_targets(self.layout(), models, i as nat, places),
                found@.len() == places.len(),
                forall|j: int|
                    0 <= j < places.len() ==> (#[trigger] found@[j]).0 == places[j].0 && found@[j].1
                        == places[j].1,
            decreases targets.len() - i,
        {
            proof {
                lemma_expression_view(&targets[i as int]);
            }
            match &targets[i].node {
                ExpressionNode::Identifier(name) => {
                    proof {
                        places = places.push(place_for(self.layout(), name@).0);
                    }
                    let place = self.place(name);
                    found.push(place);
                },
                _ => {
                    return Err(self.diagnose(Fault::NonIdentifier, Some(targets[i].pos)));
                },
            }
            i += 1;
        }
        Ok(found)
    }

    /// Lowers the values of a tuple, each stored to the address at its
    /// place.
    #[verifier::loop_isolation(false)]
    fn lower_values(
        &mut self,
        places: &Vec<(usize, usize)>,
        values: &Vec<Expression>,
        Ghost(addresses): Ghost<Seq<(nat, nat)>>,
    ) -> (result: Result<Vec<Instruction>, Diagnostic>)
        requires
            places@.len() == addresses.len(),
            forall|i: int|
                0 <= i < addresses.len() ==> (#[trigger] places@[i]).0 == addresses[i].0
                    && places@[i].1 == addresses[i].1,
        ensures
            old(self).lowers(
                final(self),
                result,
                lower_values(old(self).layout(), addresses, expression_models(values@), 0),
            ),
        decreases values, 1nat,
    {
        let ghost models = expression_models(values@);
        let ghost whole = lower_values(old(self).layout(), addresses, models, 0);
        let mut code: Vec<Instruction> = Vec::new();
        let mut i: usize = 0;
        while i < values.len()
            invariant
                i <= values.len(),
                self.source == old(self).source,
                self.bytecode == old(self).bytecode,
                whole == after(code@, lower_values(self.layout(), addresses, models, i as nat)),
            decreases values.len() - i,
        {
            let ghost before = code@;
            let mut next = match self.lower_expression(&values[i]) {
                Ok(next) => next,
                Err(diagnostic) => {
                    return Err(diagnostic);
                },
            };
            let ghost added = next@;
            code.append(&mut next);
            let last = if i < places.len() {
                Instruction::Store { distance: places[i].1, slot: places[i].0 }
            } else {
                Instruction::Pop
            };
            code.push(last);
            i += 1;
            proof {
                let rest = lower_values(self.layout(), addresses, models, i as nat);
                if rest.outcome is Ok {
                    assert(before + (added + seq![last] + rest.outcome->Ok_0) =~= code@
                        + rest.outcome->Ok_0);
                }
            }
        }
        assert(code@ + Seq::<Instruction>::empty() =~= code@);
        Ok(code)
    }

    /// Lowers a declaration without a value.
    fn lower_bare(&mut self, left: &Expression) -> (result: Result<Vec<Instruction>, Diagnostic>)
        ensures
            old(self).lowers(final(self), result, lower_bare(old(self).layout(), left@)),
    {
        proof {
            lemma_expression_view(left);
        }
        match &left.node {
            ExpressionNode::Identifier(name) => {
                let _ = self.place(name);
                Ok(Vec::new())
            },
            ExpressionNode::Tuple(targets) => match self.place_targets(targets) {
                Ok(_) => Ok(Vec::new()),
                Err(diagnostic) => Err(diagnostic),
            },
            _ => Err(self.diagnose(Fault::UnexpectedVariable, Some(left.pos))),
        }
    }

    /// Lowers a declaration with a value.
    fn lower_declaration(&mut self, left: &Expression, initializer: &Expression, constant: bool) -> (result:
        Result<Vec<Instruction>, Diagnostic>)
        ensures
            old(self).lowers(
                final(self),
                result,
                lower_declaration(old(self).layout(), left@, initializer@, constant),
            ),
        decreases initializer, 2nat,
    {
        proof {
            lemma_expression_view(left);
            lemma_expression_view(initializer);
        }
        match &left.node {
            ExpressionNode::Identifier(name) => {
                let place = self.place(name);
                let mut code = match self.lower_expression(initializer) {
                    Ok(code) => code,
                    Err(diagnostic) => {
                        return Err(diagnostic);
                    },
                };
                let ghost value = code@;
                code.push(Instruction::Store { distance: place.1, slot: place.0 });
                assert(code@ =~= value + seq![store_to(place_for(old(self).layout(), name@).0)]);
                Ok(code)
            },
            ExpressionNode::Tuple(targets) => {
                let ghost addresses = place_targets(
                    old(self).layout(),
                    expression_models(targets@),
                    0,
                    Seq::empty(),
                );
                let places = match self.place_targets(targets) {
                    Ok(places) => places,
                    Err(diagnostic) => {
                        return Err(diagnostic);
                    },
                };
                match &initializer.node {
                    ExpressionNode::Tuple(values) => self.lower_values(
                        &places,
                        values,
                        Ghost(addresses.outcome->Ok_0),
                    ),
                    _ => Err(self.diagnose(Fault::MisplacedTuple, Some(initializer.pos))),
                }
            },
            _ => Err(
                self.diagnose(
                    if constant {
                        Fault::UnexpectedConstant
                    } else {
                        Fault::UnexpectedVariable
                    },
                    Some(left.pos),
                ),
            ),
        }
    }

    /// Lowers a statement.
    pub fn lower_statement(&mut self, statement: &Statement) -> (result: Result<
        Vec<Instruction>,
        Diagnostic,
    >)
        ensures
            old(self).lowers(
                final(self),
                result,
                lower_statement(old(self).layout(), statement@),
            ),
        decreases statement, 2nat,
    {
        proof {
            lemma_statement_view(statement);
        }
        match &statement.node {
            StatementNode::Expression(expression) => self.lower_expression(expression),
            StatementNode::Variable(_, left, right) => match right {
                Some(initializer) => self.lower_declaration(left, initializer, false),
                None => self.lower_bare(left),
            },
            StatementNode::Constant(_, left, right) => self.lower_declaration(left, right, true),
        }
    }

    /// Lowers the statements of a block.
    #[verifier::loop_isolation(false)]
    fn lower_block(&mut self, statements: &Vec<Statement>) -> (result: Result<
        Vec<Instruction>,
        Diagnostic,
    >)
        ensures
            old(self).lowers(
                final(self),
                result,
                lower_block(old(self).layout(), statement_models(statements@), 0),
            ),
        decreases statements, 1nat,
    {
        let ghost models = statement_models(statements@);
        let ghost whole = lower_block(old(self).layout(), models, 0);
        let mut code: Vec<Instruction> = Vec::new();
        let mut i: usize = 0;
        while i < statements.len()
            invariant
                i <= statements.len(),
                self.source == old(self).source,
                self.bytecode == old(self).bytecode,
                whole == after(code@, lower_block(self.layout(), models, i as nat)),
            decreases statements.len() - i,
        {
            let ghost before = code@;
            proof {
                lemma_statement_view(&statements[i as int]);
            }
            let mut next = match self.lower_statement(&statements[i]) {
                Ok(next) => next,
                Err(diagnostic) => {
                    return Err(diagnostic);
                },
            };
            let ghost added = next@;
            code.append(&mut next);
            let value = match &statements[i].node {
                StatementNode::Expression(_) => true,
                _ => false,
            };
            if value {
                if i + 1 == statements.len() {
                    return Ok(code);
                }
                code.push(Instruction::Pop);
            }
            i += 1;
            proof {
                let rest = lower_block(self.layout(), models, i as nat);
                if rest.outcome is Ok {
                    if value {
                        assert(before + (added + seq![Instruction::Pop] + rest.outcome->Ok_0)
                            =~= code@ + rest.outcome->Ok_0);
                    } else {
                        assert(before + (added + rest.outcome->Ok_0) =~= code@
                            + rest.outcome->Ok_0);
                    }
                }
            }
        }
        let ghost before = code@;
        code.push(Instruction::Push(Value::Nil));
        assert(code@ =~= before + seq![Instruction::Push(Value::Nil)]);
        Ok(code)
    }

    /// Compiles a program: on success the instructions are in `bytecode`,
    /// and the texts that they refer to in `texts`.
    #[verifier::loop_isolation(false)]
    pub fn compile(&mut self, ast: &Vec<Statement>) -> (result: Result<(), Diagnostic>)
        ensures
            final(self).source == old(self).source,
            final(self).layout() == lower_program(
                old(self).layout(),
                statement_models(ast@),
            ).layout,
            match lower_program(old(self).layout(), statement_models(ast@)).outcome {
                Ok(code) => result is Ok && final(self).bytecode@ == code,
                Err((fault, position)) => {
                    &&& result is Err
                    &&& result->Err_0@ == (DiagnosticModel {
                        fault,
                        file: old(self).source.file@,
                        position,
                    })
                    &&& final(self).bytecode == old(self).bytecode
                },
            },
    {
        let ghost models = statement_models(ast@);
        let ghost whole = lower_statements(old(self).layout(), models, 0);
        let mut code: Vec<Instruction> = Vec::new();
        let mut i: usize = 0;
        while i < ast.len()
            invariant
                i <= ast.len(),
                self.source == old(self).source,
                self.bytecode == old(self).bytecode,
                whole == after(code@, lower_statements(self.layout(), models, i as nat)),
            decreases ast.len() - i,
        {
            let ghost before = code@;
            let mut next = match self.lower_statement(&ast[i]) {
                Ok(next) => next,
                Err(diagnostic) => {
                    return Err(diagnostic);
                },
            };
            let ghost added = next@;
            code.append(&mut next);
            i += 1;
            proof {
                let rest = lower_statements(self.layout(), models, i as nat);
                if rest.outcome is Ok {
                    assert(before + (added + rest.outcome->Ok_0) =~= code@ + rest.outcome->Ok_0);
                }
            }
        }
        assert(code@ + Seq::<Instruction>::empty() =~= code@);
        let mut program: Vec<Instruction> = Vec::new();
        program.push(Instruction::Reserve(self.symtab.size()));
        program.append(&mut code);
        self.bytecode = program;
        Ok(())
    }
}

} // verus!
