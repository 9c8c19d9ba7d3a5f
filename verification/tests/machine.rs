use wu::ast::Operator;
use wu::bytecode::{binary, unary, Frame, Instruction, Trap, Value};
use wu::vm::VirtualMachine;

fn run(code: Vec<Instruction>) -> (VirtualMachine, Result<(), Trap>) {
    let mut machine = VirtualMachine::new();
    let result = machine.execute(&code);
    (machine, result)
}

fn number(value: i128) -> Instruction {
    Instruction::Push(Value::Int(value))
}

#[test]
fn a_new_machine_has_the_global_frame() {
    let machine = VirtualMachine::new();
    assert!(machine.compute_stack.is_empty());
    assert!(machine.var_stack.is_empty());
    assert_eq!(machine.frames, vec![Frame { base: 0, link: 0, back: 0 }]);
    assert_eq!(machine.pc, 0);
    assert_eq!(machine.budget, usize::MAX);
    assert_eq!(machine.top(), None);
}

#[test]
fn arithmetic_pops_two_and_pushes_one() {
    let (machine, result) = run(vec![number(7), number(5), Instruction::Binary(Operator::Minus)]);
    assert_eq!(result, Ok(()));
    assert_eq!(machine.compute_stack, vec![Value::Int(2)]);
    assert_eq!(machine.pc, 3);
    let (machine, _) = run(vec![number(7), number(5), number(3), Instruction::Binary(Operator::Times)]);
    assert_eq!(machine.compute_stack, vec![Value::Int(7), Value::Int(15)]);
}

#[test]
fn operators_on_numbers() {
    assert_eq!(binary(Operator::Plus, Value::Int(10), Value::Int(20)), Ok(Value::Int(30)));
    assert_eq!(binary(Operator::Minus, Value::Int(10), Value::Int(20)), Ok(Value::Int(-10)));
    assert_eq!(binary(Operator::Times, Value::Int(-3), Value::Int(4)), Ok(Value::Int(-12)));
    assert_eq!(binary(Operator::Divide, Value::Int(7), Value::Int(2)), Ok(Value::Int(3)));
    assert_eq!(binary(Operator::Divide, Value::Int(-7), Value::Int(2)), Ok(Value::Int(-3)));
    assert_eq!(binary(Operator::Remainder, Value::Int(-7), Value::Int(2)), Ok(Value::Int(-1)));
    assert_eq!(binary(Operator::Remainder, Value::Int(7), Value::Int(-2)), Ok(Value::Int(1)));
    assert_eq!(binary(Operator::Less, Value::Int(1), Value::Int(2)), Ok(Value::Bool(true)));
    assert_eq!(binary(Operator::LessEqual, Value::Int(2), Value::Int(2)), Ok(Value::Bool(true)));
    assert_eq!(binary(Operator::Greater, Value::Int(1), Value::Int(2)), Ok(Value::Bool(false)));
    assert_eq!(binary(Operator::GreaterEqual, Value::Int(1), Value::Int(2)), Ok(Value::Bool(false)));
    assert_eq!(binary(Operator::Equal, Value::Int(2), Value::Int(2)), Ok(Value::Bool(true)));
    assert_eq!(binary(Operator::NotEqual, Value::Int(2), Value::Int(2)), Ok(Value::Bool(false)));
    assert_eq!(unary(Operator::Minus, Value::Int(5)), Ok(Value::Int(-5)));
}

#[test]
fn operators_trap_on_overflow_and_division_by_zero() {
    assert_eq!(binary(Operator::Plus, Value::Int(i128::MAX), Value::Int(1)), Err(Trap::Overflow));
    assert_eq!(binary(Operator::Minus, Value::Int(i128::MIN), Value::Int(1)), Err(Trap::Overflow));
    assert_eq!(binary(Operator::Times, Value::Int(i128::MAX), Value::Int(2)), Err(Trap::Overflow));
    assert_eq!(binary(Operator::Divide, Value::Int(i128::MIN), Value::Int(-1)), Err(Trap::Overflow));
    assert_eq!(
        binary(Operator::Remainder, Value::Int(i128::MIN), Value::Int(-1)),
        Err(Trap::Overflow)
    );
    assert_eq!(binary(Operator::Divide, Value::Int(1), Value::Int(0)), Err(Trap::DivisionByZero));
    assert_eq!(binary(Operator::Remainder, Value::Int(1), Value::Int(0)), Err(Trap::DivisionByZero));
    assert_eq!(unary(Operator::Minus, Value::Int(i128::MIN)), Err(Trap::Overflow));
    assert_eq!(unary(Operator::Minus, Value::Int(i128::MAX)), Ok(Value::Int(-i128::MAX)));
}

#[test]
fn operators_on_other_values() {
    assert_eq!(binary(Operator::And, Value::Bool(true), Value::Bool(false)), Ok(Value::Bool(false)));
    assert_eq!(binary(Operator::Or, Value::Bool(true), Value::Bool(false)), Ok(Value::Bool(true)));
    assert_eq!(binary(Operator::Equal, Value::Bool(true), Value::Bool(true)), Ok(Value::Bool(true)));
    assert_eq!(binary(Operator::Equal, Value::Char('a'), Value::Char('b')), Ok(Value::Bool(false)));
    assert_eq!(binary(Operator::NotEqual, Value::Str(1), Value::Str(2)), Ok(Value::Bool(true)));
    assert_eq!(binary(Operator::Equal, Value::Int(1), Value::Bool(true)), Ok(Value::Bool(false)));
    assert_eq!(binary(Operator::Equal, Value::Nil, Value::Nil), Ok(Value::Bool(true)));
    assert_eq!(unary(Operator::Not, Value::Bool(true)), Ok(Value::Bool(false)));
    assert_eq!(binary(Operator::Plus, Value::Bool(true), Value::Bool(true)), Err(Trap::TypeMismatch));
    assert_eq!(binary(Operator::Less, Value::Char('a'), Value::Char('b')), Err(Trap::TypeMismatch));
    assert_eq!(binary(Operator::And, Value::Int(1), Value::Int(1)), Err(Trap::TypeMismatch));
    assert_eq!(binary(Operator::Plus, Value::Float(0), Value::Float(0)), Err(Trap::TypeMismatch));
    assert_eq!(unary(Operator::Not, Value::Int(1)), Err(Trap::TypeMismatch));
    assert_eq!(unary(Operator::Minus, Value::Bool(true)), Err(Trap::TypeMismatch));
    assert_eq!(unary(Operator::Plus, Value::Int(1)), Err(Trap::TypeMismatch));
}

#[test]
fn store_and_load_move_values_between_the_stacks() {
    let (machine, result) = run(vec![
        Instruction::Reserve(2),
        number(41),
        Instruction::Store { distance: 0, slot: 1 },
        Instruction::Load { distance: 0, slot: 1 },
        Instruction::Load { distance: 0, slot: 0 },
    ]);
    assert_eq!(result, Ok(()));
    assert_eq!(machine.var_stack, vec![Value::Nil, Value::Int(41)]);
    assert_eq!(machine.compute_stack, vec![Value::Int(41), Value::Nil]);
}

#[test]
fn a_trap_leaves_the_machine_before_the_instruction() {
    let (machine, result) = run(vec![number(1), Instruction::Binary(Operator::Plus), number(2)]);
    assert_eq!(result, Err(Trap::StackUnderflow));
    assert_eq!(machine.pc, 1);
    assert_eq!(machine.compute_stack, vec![Value::Int(1)]);
    let (machine, result) = run(vec![number(1), number(0), Instruction::Binary(Operator::Divide)]);
    assert_eq!(result, Err(Trap::DivisionByZero));
    assert_eq!(machine.compute_stack, vec![Value::Int(1), Value::Int(0)]);
}

#[test]
fn every_trap_has_its_cause() {
    assert_eq!(run(vec![Instruction::Pop]).1, Err(Trap::StackUnderflow));
    assert_eq!(run(vec![Instruction::Unary(Operator::Not)]).1, Err(Trap::StackUnderflow));
    assert_eq!(run(vec![Instruction::Store { distance: 0, slot: 0 }]).1, Err(Trap::StackUnderflow));
    assert_eq!(run(vec![Instruction::Call(0)]).1, Err(Trap::StackUnderflow));
    assert_eq!(run(vec![number(1), Instruction::Call(1)]).1, Err(Trap::StackUnderflow));
    assert_eq!(run(vec![Instruction::Load { distance: 0, slot: 0 }]).1, Err(Trap::InvalidAddress));
    assert_eq!(
        run(vec![Instruction::Reserve(1), Instruction::Load { distance: 1, slot: 0 }]).1,
        Err(Trap::InvalidAddress)
    );
    assert_eq!(
        run(vec![Instruction::Reserve(1), number(1), Instruction::Store { distance: 0, slot: 1 }]).1,
        Err(Trap::InvalidAddress)
    );
    assert_eq!(run(vec![number(1), Instruction::Call(0)]).1, Err(Trap::NotAFunction));
    assert_eq!(
        run(vec![Instruction::Function { parameters: 1, length: 1 }, Instruction::Return, Instruction::Call(0)]).1,
        Err(Trap::WrongArity)
    );
    assert_eq!(run(vec![Instruction::Function { parameters: 0, length: 1 }]).1, Err(Trap::InvalidJump));
    assert_eq!(
        run(vec![Instruction::Function { parameters: 0, length: usize::MAX }]).1,
        Err(Trap::InvalidJump)
    );
    assert_eq!(
        run(vec![
            Instruction::Push(Value::Function { entry: 9, parameters: 0, link: 0 }),
            Instruction::Call(0)
        ])
        .1,
        Err(Trap::InvalidJump)
    );
    assert_eq!(
        run(vec![
            Instruction::Push(Value::Function { entry: 0, parameters: 0, link: 3 }),
            Instruction::Call(0)
        ])
        .1,
        Err(Trap::InvalidAddress)
    );
    assert_eq!(run(vec![Instruction::Return]).1, Err(Trap::InvalidReturn));
    assert_eq!(run(vec![number(1), Instruction::Unary(Operator::Not)]).1, Err(Trap::TypeMismatch));
    assert_eq!(
        run(vec![number(i128::MAX), number(1), Instruction::Binary(Operator::Plus)]).1,
        Err(Trap::Overflow)
    );
}

#[test]
fn a_call_makes_a_frame_and_a_return_drops_it() {
    let code = vec![
        Instruction::Reserve(1),
        Instruction::Function { parameters: 2, length: 5 },
        Instruction::Reserve(0),
        Instruction::Load { distance: 0, slot: 0 },
        Instruction::Load { distance: 0, slot: 1 },
        Instruction::Binary(Operator::Minus),
        Instruction::Return,
        Instruction::Store { distance: 0, slot: 0 },
        Instruction::Load { distance: 0, slot: 0 },
        number(10),
        number(4),
        Instruction::Call(2),
    ];
    let mut machine = VirtualMachine::new();
    for _ in 0..6 {
        assert_eq!(machine.step(&code), Ok(true));
    }
    assert_eq!(machine.pc, 11);
    assert_eq!(
        machine.compute_stack,
        vec![Value::Function { entry: 2, parameters: 2, link: 0 }, Value::Int(10), Value::Int(4)]
    );
    assert_eq!(machine.step(&code), Ok(true));
    assert_eq!(machine.pc, 2);
    assert!(machine.compute_stack.is_empty());
    assert_eq!(
        machine.var_stack,
        vec![Value::Function { entry: 2, parameters: 2, link: 0 }, Value::Int(10), Value::Int(4)]
    );
    assert_eq!(
        machine.frames,
        vec![Frame { base: 0, link: 0, back: 0 }, Frame { base: 1, link: 0, back: 12 }]
    );
    assert_eq!(machine.execute(&code), Ok(()));
    assert_eq!(machine.top(), Some(Value::Int(6)));
    assert_eq!(machine.var_stack.len(), 1);
    assert_eq!(machine.frames.len(), 1);
    assert_eq!(machine.pc, 12);
    assert_eq!(machine.step(&code), Ok(false));
}

#[test]
fn a_function_reaches_the_frame_it_was_made_in() {
    let code = vec![
        Instruction::Reserve(1),
        number(5),
        Instruction::Store { distance: 0, slot: 0 },
        Instruction::Function { parameters: 1, length: 5 },
        Instruction::Reserve(0),
        Instruction::Load { distance: 1, slot: 0 },
        Instruction::Load { distance: 0, slot: 0 },
        Instruction::Binary(Operator::Times),
        Instruction::Return,
        number(8),
        Instruction::Call(1),
    ];
    let (machine, result) = run(code);
    assert_eq!(result, Ok(()));
    assert_eq!(machine.compute_stack, vec![Value::Int(40)]);
}

#[test]
fn a_frame_cannot_reach_into_the_next_one() {
    let code = vec![
        Instruction::Reserve(1),
        Instruction::Function { parameters: 1, length: 3 },
        Instruction::Reserve(0),
        Instruction::Load { distance: 1, slot: 1 },
        Instruction::Return,
        number(8),
        Instruction::Call(1),
    ];
    let (machine, result) = run(code);
    assert_eq!(result, Err(Trap::InvalidAddress));
    assert_eq!(machine.pc, 3);
    assert_eq!(machine.frames.len(), 2);
}

#[test]
fn the_budget_bounds_the_steps() {
    let looping = vec![
        Instruction::Function { parameters: 1, length: 5 },
        Instruction::Reserve(0),
        Instruction::Load { distance: 0, slot: 0 },
        Instruction::Load { distance: 0, slot: 0 },
        Instruction::Call(1),
        Instruction::Return,
        Instruction::Function { parameters: 1, length: 5 },
        Instruction::Reserve(0),
        Instruction::Load { distance: 0, slot: 0 },
        Instruction::Load { distance: 0, slot: 0 },
        Instruction::Call(1),
        Instruction::Return,
        Instruction::Call(1),
    ];
    let mut machine = VirtualMachine::new();
    machine.budget = 1000;
    assert_eq!(machine.execute(&looping), Err(Trap::OutOfSteps));
    assert_eq!(machine.budget, 0);
    let mut machine = VirtualMachine::new();
    machine.budget = 2;
    assert_eq!(machine.execute(&vec![number(1), number(2)]), Ok(()));
    assert_eq!(machine.budget, 0);
    let mut machine = VirtualMachine::new();
    machine.budget = 1;
    assert_eq!(machine.execute(&vec![number(1), number(2)]), Err(Trap::OutOfSteps));
    assert_eq!(machine.compute_stack, vec![Value::Int(1)]);
    let mut machine = VirtualMachine::new();
    machine.budget = 0;
    assert_eq!(machine.execute(&vec![Instruction::Pop]), Err(Trap::StackUnderflow));
}

#[test]
fn an_empty_program_halts_at_once() {
    let (machine, result) = run(Vec::new());
    assert_eq!(result, Ok(()));
    assert_eq!(machine.pc, 0);
    assert_eq!(machine.top(), None);
}
