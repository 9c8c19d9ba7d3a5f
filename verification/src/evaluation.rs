//! What the lowered form of an expression computes: for expressions made
//! of literals and operators alone, running the instructions leaves the
//! value of the expression on the compute stack.

use vstd::prelude::*;
use crate::ast::{
    ExpressionModel, ExpressionNodeModel, Operator, StatementModel, StatementNodeModel,
};
use crate::bytecode::{apply_binary, apply_unary, Instruction, Trap, Value};
use crate::compiler::{done, lower_expression, lower_program, lower_statements, whole, Layout};
use crate::vm::{blanks, fresh, run, step, Machine, Step};

verus! {

/// Whether an expression is made of whole numbers, characters, truth
/// values and operators alone.
pub open spec fn pure(expression: ExpressionModel) -> bool
    decreases expression,
{
    match expression.node {
        ExpressionNodeModel::Number(text) => whole(text) matches Some(value) && value <= i128::MAX,
        ExpressionNodeModel::Char(_) => true,
        ExpressionNodeModel::Bool(_) => true,
        ExpressionNodeModel::Unary(_, operand) => pure(*operand),
        ExpressionNodeModel::Binary(left, _, right) => pure(*left) && pure(*right),
        _ => false,
    }
}

/// The value of such an expression, or the trap that computing it ends
/// in: the operands are computed from left to right, and the first trap
/// stands.
pub open spec fn evaluate(expression: ExpressionModel) -> Result<Value, Trap>
    decreases expression,
{
    match expression.node {
        ExpressionNodeModel::Number(text) => Ok(Value::Int(whole(text)->Some_0 as i128)),
        ExpressionNodeModel::Char(c) => Ok(Value::Char(c)),
        ExpressionNodeModel::Bool(b) => Ok(Value::Bool(b)),
        ExpressionNodeModel::Unary(operator, operand) => match evaluate(*operand) {
            Ok(value) => apply_unary(operator, value),
            Err(trap) => Err(trap),
        },
        ExpressionNodeModel::Binary(left, operator, right) => match evaluate(*left) {
            Ok(first) => match evaluate(*right) {
                Ok(second) => apply_binary(operator, first, second),
                Err(trap) => Err(trap),
            },
            Err(trap) => Err(trap),
        },
        _ => Err(Trap::TypeMismatch),
    }
}

/// The instructions of such an expression: the operands before their
/// operator.
pub open spec fn postfix(expression: ExpressionModel) -> Seq<Instruction>
    decreases expression,
{
    match expression.node {
        ExpressionNodeModel::Number(text) => seq![
            Instruction::Push(Value::Int(whole(text)->Some_0 as i128)),
        ],
        ExpressionNodeModel::Char(c) => seq![Instruction::Push(Value::Char(c))],
        ExpressionNodeModel::Bool(b) => seq![Instruction::Push(Value::Bool(b))],
        ExpressionNodeModel::Unary(operator, operand) => postfix(*operand) + seq![
            Instruction::Unary(operator),
        ],
        ExpressionNodeModel::Binary(left, operator, right) => postfix(*left) + postfix(*right)
            + seq![Instruction::Binary(operator)],
        _ => Seq::empty(),
    }
}

/// An expression of literals and operators lowers, in any layout, to its
/// operands before its operators, and leaves the layout as it is.
pub proof fn lemma_lowers_to_postfix(layout: Layout, expression: ExpressionModel)
    requires
        pure(expression),
    ensures
        lower_expression(layout, expression) == done(postfix(expression), layout),
        postfix(expression).len() > 0,
    decreases expression,
{
    match expression.node {
        ExpressionNodeModel::Unary(_, operand) => {
            lemma_lowers_to_postfix(layout, *operand);
        },
        ExpressionNodeModel::Binary(left, _, right) => {
            lemma_lowers_to_postfix(layout, *left);
            lemma_lowers_to_postfix(layout, *right);
        },
        _ => {},
    }
}

/// The machine `m` with `value` on top of the compute stack, `n`
/// instructions further.
pub open spec fn computed(m: Machine, n: nat, value: Value) -> Machine {
    Machine {
        pc: (m.pc + n) as usize,
        compute: m.compute.push(value),
        vars: m.vars,
        frames: m.frames,
    }
}

/// Whether `code` stands in `program` at the machine's place.
pub open spec fn stands_at(m: Machine, program: Seq<Instruction>, code: Seq<Instruction>) -> bool {
    &&& program.len() <= usize::MAX
    &&& m.pc + code.len() <= program.len()
    &&& program.subrange(m.pc as int, m.pc + code.len()) == code
}

/// Running the instructions of an expression of literals and operators,
/// wherever they stand in a program, comes to what the expression
/// evaluates to: with its value on top of the compute stack the machine
/// goes on behind the instructions, one step of the budget spent on each;
/// or the run ends in the trap of the expression. Nothing else of the
/// machine changes.
pub proof fn lemma_runs_to_value(
    expression: ExpressionModel,
    program: Seq<Instruction>,
    m: Machine,
    budget: nat,
)
    requires
        pure(expression),
        stands_at(m, program, postfix(expression)),
        budget >= postfix(expression).len(),
    ensures
        match evaluate(expression) {
            Ok(value) => run(m, program, budget) == run(
                computed(m, postfix(expression).len(), value),
                program,
                (budget - postfix(expression).len()) as nat,
            ),
            Err(trap) => run(m, program, budget).trap == Some(trap),
        },
    decreases expression,
{
    let code = postfix(expression);
    assert forall|i: int| 0 <= i < code.len() implies program[m.pc + i] == #[trigger] code[i] by {
        assert(program.subrange(m.pc as int, m.pc + code.len())[i] == program[m.pc + i]);
    }
    match expression.node {
        ExpressionNodeModel::Unary(operator, operand) => {
            let first = postfix(*operand);
            lemma_lowers_to_postfix(Layout { names: Seq::empty(), texts: Seq::empty() }, *operand);
            assert(program.subrange(m.pc as int, m.pc + first.len()) =~= first) by {
                assert forall|i: int| 0 <= i < first.len() implies program[m.pc + i] == first[i] by {
                    assert(code[i] == first[i]);
                }
            }
            lemma_runs_to_value(*operand, program, m, budget);
            match evaluate(*operand) {
                Ok(value) => {
                    assert(program[m.pc + first.len()] == code[first.len() as int]);
                    lemma_unary_step(
                        m,
                        first.len(),
                        value,
                        operator,
                        program,
                        (budget - first.len()) as nat,
                    );
                },
                Err(_) => {},
            }
        },
        ExpressionNodeModel::Binary(left, operator, right) => {
            let first = postfix(*left);
            let second = postfix(*right);
            let blank = Layout { names: Seq::empty(), texts: Seq::empty() };
            lemma_lowers_to_postfix(blank, *left);
            lemma_lowers_to_postfix(blank, *right);
            assert(program.subrange(m.pc as int, m.pc + first.len()) =~= first) by {
                assert forall|i: int| 0 <= i < first.len() implies program[m.pc + i] == first[i] by {
                    assert(code[i] == first[i]);
                }
            }
            lemma_runs_to_value(*left, program, m, budget);
            match evaluate(*left) {
                Ok(a) => {
                    let middle = computed(m, first.len(), a);
                    let left_over = (budget - first.len()) as nat;
                    assert(program.subrange(middle.pc as int, middle.pc + second.len())
                        =~= second) by {
                        assert forall|i: int| 0 <= i < second.len() implies program[middle.pc + i]
                            == second[i] by {
                            assert(code[first.len() + i] == second[i]);
                        }
                    }
                    lemma_runs_to_value(*right, program, middle, left_over);
                    match evaluate(*right) {
                        Ok(b) => {
                            assert(program[m.pc + first.len() + second.len()] == code[(first.len()
                                + second.len()) as int]);
                            lemma_binary_step(
                                m,
                                first.len(),
                                second.len(),
                                a,
                                b,
                                operator,
                                program,
                                (left_over - second.len()) as nat,
                            );
                        },
                        Err(_) => {},
                    }
                },
                Err(_) => {},
            }
        },
        _ => {
            assert(program[m.pc as int] == code[0]);
            lemma_push_step(m, evaluate(expression)->Ok_0, program, budget);
        },
    }
}

/// A push puts its value on the compute stack.
proof fn lemma_push_step(m: Machine, value: Value, program: Seq<Instruction>, budget: nat)
    requires
        budget > 0,
        m.pc < program.len() <= usize::MAX,
        program[m.pc as int] == Instruction::Push(value),
    ensures
        run(m, program, budget) == run(computed(m, 1, value), program, (budget - 1) as nat),
{
    reveal(run);
    assert(step(m, program) == Step::Next(computed(m, 1, value)));
}

/// An operator behind its operand, which was computed in `n` steps from
/// `m`, replaces the operand by its result or ends the run in its trap.
proof fn lemma_unary_step(
    m: Machine,
    n: nat,
    value: Value,
    operator: Operator,
    program: Seq<Instruction>,
    budget: nat,
)
    requires
        budget > 0,
        m.pc + n < program.len() <= usize::MAX,
        program[m.pc + n] == Instruction::Unary(operator),
    ensures
        match apply_unary(operator, value) {
            Ok(result) => run(computed(m, n, value), program, budget) == run(
                computed(m, n + 1, result),
                program,
                (budget - 1) as nat,
            ),
            Err(trap) => run(computed(m, n, value), program, budget).trap == Some(trap),
        },
{
    reveal(run);
    let then = computed(m, n, value);
    assert(then.compute.drop_last() =~= m.compute);
    match apply_unary(operator, value) {
        Ok(result) => {
            assert(step(then, program) == Step::Next(computed(m, n + 1, result)));
        },
        Err(trap) => {
            assert(step(then, program) == Step::Failed(trap));
        },
    }
}

/// An operator behind its two operands, which were computed in `n` and
/// `k` steps from `m`, replaces them by its result or ends the run in its
/// trap.
proof fn lemma_binary_step(
    m: Machine,
    n: nat,
    k: nat,
    a: Value,
    b: Value,
    operator: Operator,
    program: Seq<Instruction>,
    budget: nat,
)
    requires
        budget > 0,
        m.pc + n + k < program.len() <= usize::MAX,
        program[m.pc + n + k] == Instruction::Binary(operator),
    ensures
        match apply_binary(operator, a, b) {
            Ok(result) => run(computed(computed(m, n, a), k, b), program, budget) == run(
                computed(m, n + k + 1, result),
                program,
                (budget - 1) as nat,
            ),
            Err(trap) => run(computed(computed(m, n, a), k, b), program, budget).trap == Some(
                trap,
            ),
        },
{
    reveal(run);
    let then = computed(computed(m, n, a), k, b);
    assert(then.compute.take(then.compute.len() - 2) =~= m.compute);
    assert(then.compute[then.compute.len() - 2] == a);
    assert(then.compute[then.compute.len() - 1] == b);
    match apply_binary(operator, a, b) {
        Ok(result) => {
            assert(step(then, program) == Step::Next(computed(m, n + k + 1, result)));
        },
        Err(trap) => {
            assert(step(then, program) == Step::Failed(trap));
        },
    }
}

/// A program that is one expression of literals and operators, run on a
/// fresh machine with budget enough, ends with the value of the
/// expression alone on the compute stack, or in the trap of the
/// expression.
pub proof fn lemma_program_runs_to_value(layout: Layout, statement: StatementModel, budget: nat)
    requires
        statement.node matches StatementNodeModel::Expression(expression) && pure(expression),
        postfix(statement.node->Expression_0).len() < usize::MAX,
        budget > postfix(statement.node->Expression_0).len(),
    ensures
        lower_program(layout, seq![statement]).outcome is Ok,
        lower_program(layout, seq![statement]).layout == layout,
        ({
            let program = lower_program(layout, seq![statement]).outcome->Ok_0;
            let ended = run(fresh(), program, budget);
            match evaluate(statement.node->Expression_0) {
                Ok(value) => {
                    &&& ended.trap is None
                    &&& ended.machine.compute == seq![value]
                    &&& ended.machine.pc == program.len()
                    &&& ended.budget == budget - program.len()
                },
                Err(trap) => ended.trap == Some(trap),
            }
        }),
{
    let expression = statement.node->Expression_0;
    let code = postfix(expression);
    lemma_lowers_to_postfix(layout, expression);
    let lowered = lower_program(layout, seq![statement]);
    let reserve = Instruction::Reserve(layout.names.last().len() as usize);
    assert(lowered.outcome is Ok && lowered.outcome->Ok_0 == seq![reserve] + (code + Seq::<
        Instruction,
    >::empty())) by {
        reveal_with_fuel(lower_statements, 2);
    }
    let program = seq![reserve] + code;
    assert(program =~= seq![reserve] + (code + Seq::<Instruction>::empty()));
    let begun = Machine {
        pc: 1,
        compute: Seq::empty(),
        vars: blanks(layout.names.last().len() as usize as nat),
        frames: fresh().frames,
    };
    assert(run(fresh(), program, budget) == run(begun, program, (budget - 1) as nat)) by {
        reveal(run);
        assert(program[0] == reserve);
        assert(fresh().vars + begun.vars =~= begun.vars);
        assert(step(fresh(), program) == Step::Next(begun));
    }
    assert(program.subrange(1, 1 + code.len() as int) =~= code);
    lemma_runs_to_value(expression, program, begun, (budget - 1) as nat);
    match evaluate(expression) {
        Ok(value) => {
            let ended = computed(begun, code.len(), value);
            assert(ended.compute =~= seq![value]);
            assert(step(ended, program) == Step::Done);
            assert(run(ended, program, (budget - 1 - code.len()) as nat).trap is None
                && run(ended, program, (budget - 1 - code.len()) as nat).machine == ended
                && run(ended, program, (budget - 1 - code.len()) as nat).budget == budget - 1
                - code.len()) by {
                reveal(run);
            }
        },
        Err(_) => {},
    }
}

} // verus!
