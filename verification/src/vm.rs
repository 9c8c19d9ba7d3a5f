//! The machine that runs a lowered program: a compute stack for the
//! values in flight and a variable stack, divided into frames, for the
//! slots of the names.

use vstd::prelude::*;
use crate::bytecode::{apply_binary, apply_unary, binary, unary, Frame, Instruction, Trap, Value};

verus! {

/// Mathematical value of the machine: the index of the next instruction,
/// the two stacks, and the frames of the variable stack, the global one
/// first.
pub struct Machine {
    pub pc: usize,
    pub compute: Seq<Value>,
    pub vars: Seq<Value>,
    pub frames: Seq<Frame>,
}

/// What one instruction does to the machine.
pub enum Step {
    /// The machine goes on in this state.
    Next(Machine),
    /// There is no instruction left.
    Done,
    /// The instruction cannot be carried out.
    Failed(Trap),
}

/// The frame that is `distance` links out from the frame `from`. A link
/// leads to an earlier frame or nowhere.
pub open spec fn frame_at(frames: Seq<Frame>, from: int, distance: nat) -> Option<int>
    decreases distance,
{
    if from < 0 || from >= frames.len() {
        None
    } else if distance == 0 {
        Some(from)
    } else if frames[from].link < from {
        frame_at(frames, frames[from].link as int, (distance - 1) as nat)
    } else {
        None
    }
}

/// The place in the variable stack of a slot of the frame that is
/// `distance` links out from the current one. The slot has to lie within
/// that frame.
pub open spec fn address(m: Machine, distance: nat, slot: nat) -> Option<int> {
    match frame_at(m.frames, m.frames.len() - 1, distance) {
        Some(frame) => {
            let limit = if frame + 1 < m.frames.len() {
                m.frames[frame + 1].base as int
            } else {
                m.vars.len() as int
            };
            let place = m.frames[frame].base + slot;
            if place < limit && place < m.vars.len() {
                Some(place)
            } else {
                None
            }
        },
        None => None,
    }
}

/// The machine with another compute stack, one instruction further.
pub open spec fn advance(m: Machine, compute: Seq<Value>) -> Step {
    Step::Next(Machine { pc: (m.pc + 1) as usize, compute, vars: m.vars, frames: m.frames })
}

/// So many empty slots.
pub open spec fn blanks(n: nat) -> Seq<Value> {
    Seq::new(n, |i: int| Value::Nil)
}

/// What the instruction at the machine's place in `code` does.
pub open spec fn step(m: Machine, code: Seq<Instruction>) -> Step {
    let depth = m.compute.len() as int;
    if m.pc >= code.len() {
        Step::Done
    } else {
        match code[m.pc as int] {
            Instruction::Push(value) => advance(m, m.compute.push(value)),
            Instruction::Pop => if depth < 1 {
                Step::Failed(Trap::StackUnderflow)
            } else {
                advance(m, m.compute.drop_last())
            },
            Instruction::Load { distance, slot } => match address(m, distance as nat, slot as nat) {
                Some(place) => advance(m, m.compute.push(m.vars[place])),
                None => Step::Failed(Trap::InvalidAddress),
            },
            Instruction::Store { distance, slot } => if depth < 1 {
                Step::Failed(Trap::StackUnderflow)
            } else {
                match address(m, distance as nat, slot as nat) {
                    Some(place) => Step::Next(
                        Machine {
                            pc: (m.pc + 1) as usize,
                            compute: m.compute.drop_last(),
                            vars: m.vars.update(place, m.compute.last()),
                            frames: m.frames,
                        },
                    ),
                    None => Step::Failed(Trap::InvalidAddress),
                }
            },
            Instruction::Unary(operator) => if depth < 1 {
                Step::Failed(Trap::StackUnderflow)
            } else {
                match apply_unary(operator, m.compute.last()) {
                    Ok(value) => advance(m, m.compute.drop_last().push(value)),
                    Err(trap) => Step::Failed(trap),
                }
            },
            Instruction::Binary(operator) => if depth < 2 {
                Step::Failed(Trap::StackUnderflow)
            } else {
                match apply_binary(operator, m.compute[depth - 2], m.compute[depth - 1]) {
                    Ok(value) => advance(m, m.compute.take(depth - 2).push(value)),
                    Err(trap) => Step::Failed(trap),
                }
            },
            Instruction::Reserve(n) => Step::Next(
                Machine {
                    pc: (m.pc + 1) as usize,
                    compute: m.compute,
                    vars: m.vars + blanks(n as nat),
                    frames: m.frames,
                },
            ),
            Instruction::Function { parameters, length } => if m.frames.len() == 0 {
                Step::Failed(Trap::InvalidAddress)
            } else if m.pc + 1 + length > code.len() {
                Step::Failed(Trap::InvalidJump)
            } else {
                Step::Next(
                    Machine {
                        pc: (m.pc + 1 + length) as usize,
                        compute: m.compute.push(
                            Value::Function {
                                entry: (m.pc + 1) as usize,
                                parameters,
                                link: (m.frames.len() - 1) as usize,
                            },
                        ),
                        vars: m.vars,
                        frames: m.frames,
                    },
                )
            },
            Instruction::Call(n) => if depth < n + 1 {
                Step::Failed(Trap::StackUnderflow)
            } else {
                match m.compute[depth - 1 - n] {
                    Value::Function { entry, parameters, link } => if parameters != n {
                        Step::Failed(Trap::WrongArity)
                    } else if link >= m.frames.len() {
                        Step::Failed(Trap::InvalidAddress)
                    } else if entry > code.len() {
                        Step::Failed(Trap::InvalidJump)
                    } else {
                        Step::Next(
                            Machine {
                                pc: entry,
                                compute: m.compute.take(depth - 1 - n),
                                vars: m.vars + m.compute.skip(depth - n),
                                frames: m.frames.push(
                                    Frame {
                                        base: m.vars.len() as usize,
                                        link,
                                        back: (m.pc + 1) as usize,
                                    },
                                ),
                            },
                        )
                    },
                    _ => Step::Failed(Trap::NotAFunction),
                }
            },
            Instruction::Return => if m.frames.len() <= 1 {
                Step::Failed(Trap::InvalidReturn)
            } else if m.frames.last().back > code.len() {
                Step::Failed(Trap::InvalidJump)
            } else if m.frames.last().base > m.vars.len() {
                Step::Failed(Trap::InvalidAddress)
            } else {
                Step::Next(
                    Machine {
                        pc: m.frames.last().back,
                        compute: m.compute,
                        vars: m.vars.take(m.frames.last().base as int),
                        frames: m.frames.drop_last(),
                    },
                )
            },
        }
    }
}

/// How a run of the machine ends: the state it stops in, the trap if it
/// did not reach the end of the program, and what is left of the budget.
pub struct Ended {
    pub machine: Machine,
    pub trap: Option<Trap>,
    pub budget: nat,
}

/// Where the machine ends up when it runs `code` for at most `budget`
/// steps. After a trap the state is the one before the instruction that
/// could not be carried out.
#[verifier::opaque]
pub open spec fn run(m: Machine, code: Seq<Instruction>, budget: nat) -> Ended
    decreases budget,
{
    match step(m, code) {
        Step::Done => Ended { machine: m, trap: None, budget },
        Step::Failed(trap) => Ended { machine: m, trap: Some(trap), budget },
        Step::Next(next) => if budget == 0 {
            Ended { machine: m, trap: Some(Trap::OutOfSteps), budget }
        } else {
            run(next, code, (budget - 1) as nat)
        },
    }
}

/// The machine at the start of a program: empty stacks and the global
/// frame.
pub open spec fn fresh() -> Machine {
    Machine {
        pc: 0,
        compute: Seq::empty(),
        vars: Seq::empty(),
        frames: seq![Frame { base: 0, link: 0, back: 0 }],
    }
}

/// The machine.
#[derive(Debug)]
pub struct VirtualMachine {
    pub compute_stack: Vec<Value>,
    pub var_stack: Vec<Value>,
    pub frames: Vec<Frame>,
    pub pc: usize,
    /// The number of steps the machine may still take.
    pub budget: usize,
}

impl View for VirtualMachine {
    type V = Machine;

    open spec fn view(&self) -> Machine {
        Machine {
            pc: self.pc,
            compute: self.compute_stack@,
            vars: self.var_stack@,
            frames: self.frames@,
        }
    }
}

impl VirtualMachine {
    /// A machine at the start of a program: empty stacks, the global
    /// frame, and the largest budget there is.
    pub fn new() -> (machine: Self)
        ensures
            machine@ == fresh(),
            machine.budget == usize::MAX,
    {
        let mut frames: Vec<Frame> = Vec::new();
        frames.push(Frame { base: 0, link: 0, back: 0 });
        let machine = VirtualMachine {
            compute_stack: Vec::new(),
            var_stack: Vec::new(),
            frames,
            pc: 0,
            budget: usize::MAX,
        };
        assert(machine@.frames =~= seq![Frame { base: 0, link: 0, back: 0 }]);
        machine
    }

    /// The value on top of the compute stack, if there is one.
    pub fn top(&self) -> (value: Option<Value>)
        ensures
            value == if self@.compute.len() > 0 {
                Some(self@.compute.last())
            } else {
                None
            },
    {
        if self.compute_stack.len() == 0 {
            None
        } else {
            Some(self.compute_stack[self.compute_stack.len() - 1])
        }
    }

    /// Finds the frame that is `distance` links out from the current one.
    fn frame(&self, distance: usize) -> (found: Option<usize>)
        ensures
            match frame_at(self@.frames, self@.frames.len() - 1, distance as nat) {
                Some(frame) => found is Some && found->Some_0 == frame && frame
                    < self@.frames.len(),
                None => found is None,
            },
    {
        if self.frames.len() == 0 {
            return None;
        }
        let mut frame: usize = self.frames.len() - 1;
        let mut left: usize = distance;
        while left > 0
            invariant
                frame < self.frames@.len(),
                frame_at(self@.frames, self@.frames.len() - 1, distance as nat) == frame_at(
                    self@.frames,
                    frame as int,
                    left as nat,
                ),
            decreases left,
        {
            let link = self.frames[frame].link;
            if link >= frame {
                return None;
            }
            frame = link;
            left -= 1;
        }
        Some(frame)
    }

    /// Finds the place of a slot in the variable stack.
    fn locate(&self, distance: usize, slot: usize) -> (found: Option<usize>)
        ensures
            match address(self@, distance as nat, slot as nat) {
                Some(place) => found is Some && found->Some_0 == place && place
                    < self@.vars.len(),
                None => found is None,
            },
    {
        let frame = match self.frame(distance) {
            Some(frame) => frame,
            None => {
                return None;
            },
        };
        let count = self.frames.len();
        let limit = if frame < count - 1 {
            self.frames[frame + 1].base
        } else {
            self.var_stack.len()
        };
        let base = self.frames[frame].base;
        if base >= limit || slot >= limit - base || base >= self.var_stack.len() || slot
            >= self.var_stack.len() - base {
            None
        } else {
            Some(base + slot)
        }
    }

    /// Carries out the instruction at the machine's place in `code`. It
    /// tells whether there was one; after a trap the machine is as it
    /// was.
    pub fn step(&mut self, code: &Vec<Instruction>) -> (result: Result<bool, Trap>)
        ensures
            final(self).budget == old(self).budget,
            match step(old(self)@, code@) {
                Step::Next(next) => result == Ok::<bool, Trap>(true) && final(self)@ == next,
                Step::Done => result == Ok::<bool, Trap>(false) && final(self)@ == old(self)@,
                Step::Failed(trap) => result == Err::<bool, Trap>(trap) && final(self)@ == old(
                    self,
                )@,
            },
    {
        if self.pc >= code.len() {
            return Ok(false);
        }
        let depth = self.compute_stack.len();
        match code[self.pc] {
            Instruction::Push(value) => {
                self.compute_stack.push(value);
                self.pc += 1;
            },
            Instruction::Pop => {
                if depth < 1 {
                    return Err(Trap::StackUnderflow);
                }
                self.compute_stack.pop();
                self.pc += 1;
            },
            Instruction::Load { distance, slot } => {
                let place = match self.locate(distance, slot) {
                    Some(place) => place,
                    None => {
                        return Err(Trap::InvalidAddress);
                    },
                };
                self.compute_stack.push(self.var_stack[place]);
                self.pc += 1;
            },
            Instruction::Store { distance, slot } => {
                if depth < 1 {
                    return Err(Trap::StackUnderflow);
                }
                let place = match self.locate(distance, slot) {
                    Some(place) => place,
                    None => {
                        return Err(Trap::InvalidAddress);
                    },
                };
                let value = self.compute_stack[depth - 1];
                self.compute_stack.pop();
                self.var_stack.set(place, value);
                self.pc += 1;
            },
            Instruction::Unary(operator) => {
                if depth < 1 {
                    return Err(Trap::StackUnderflow);
                }
                let value = match unary(operator, self.compute_stack[depth - 1]) {
                    Ok(value) => value,
                    Err(trap) => {
                        return Err(trap);
                    },
                };
                self.compute_stack.pop();
                self.compute_stack.push(value);
                self.pc += 1;
            },
            Instruction::Binary(operator) => {
                if depth < 2 {
                    return Err(Trap::StackUnderflow);
                }
                let value = match binary(
                    operator,
                    self.compute_stack[depth - 2],
                    self.compute_stack[depth - 1],
                ) {
                    Ok(value) => value,
                    Err(trap) => {
                        return Err(trap);
                    },
                };
                self.compute_stack.truncate(depth - 2);
                self.compute_stack.push(value);
                self.pc += 1;
            },
            Instruction::Reserve(n) => {
                let mut i: usize = 0;
                while i < n
                    invariant
                        i <= n,
                        self.var_stack@ == old(self).var_stack@ + blanks(i as nat),
                        self.compute_stack@ == old(self).compute_stack@,
                        self.frames@ == old(self).frames@,
                        self.pc == old(self).pc,
                        self.budget == old(self).budget,
                    decreases n - i,
                {
                    self.var_stack.push(Value::Nil);
                    i += 1;
                    assert(self.var_stack@ =~= old(self).var_stack@ + blanks(i as nat));
                }
                self.pc += 1;
            },
            Instruction::Function { parameters, length } => {
                if self.frames.len() == 0 {
                    return Err(Trap::InvalidAddress);
                }
                if length > code.len() - self.pc - 1 {
                    return Err(Trap::InvalidJump);
                }
                self.compute_stack.push(
                    Value::Function {
                        entry: self.pc + 1,
                        parameters,
                        link: self.frames.len() - 1,
                    },
                );
                self.pc = self.pc + 1 + length;
            },
            Instruction::Call(n) => {
                if depth < 1 || n > depth - 1 {
                    return Err(Trap::StackUnderflow);
                }
                match self.compute_stack[depth - 1 - n] {
                    Value::Function { entry, parameters, link } => {
                        if parameters != n {
                            return Err(Trap::WrongArity);
                        }
                        if link >= self.frames.len() {
                            return Err(Trap::InvalidAddress);
                        }
                        if entry > code.len() {
                            return Err(Trap::InvalidJump);
                        }
                        let base = self.var_stack.len();
                        let mut arguments = self.compute_stack.split_off(depth - n);
                        self.compute_stack.pop();
                        self.var_stack.append(&mut arguments);
                        self.frames.push(Frame { base, link, back: self.pc + 1 });
                        self.pc = entry;
                        assert(self.compute_stack@ =~= old(self).compute_stack@.take(
                            depth - 1 - n,
                        ));
                        assert(self.var_stack@ =~= old(self).var_stack@ + old(
                            self,
                        ).compute_stack@.skip(depth - n));
                    },
                    _ => {
                        return Err(Trap::NotAFunction);
                    },
                }
            },
            Instruction::Return => {
                if self.frames.len() <= 1 {
                    return Err(Trap::InvalidReturn);
                }
                let frame = self.frames[self.frames.len() - 1];
                if frame.back > code.len() {
                    return Err(Trap::InvalidJump);
                }
                if frame.base > self.var_stack.len() {
                    return Err(Trap::InvalidAddress);
                }
                self.frames.pop();
                self.var_stack.truncate(frame.base);
                self.pc = frame.back;
            },
        }
        proof {
            let next = step(old(self)@, code@)->Next_0;
            assert(self@.compute =~= next.compute);
            assert(self@.vars =~= next.vars);
            assert(self@.frames =~= next.frames);
        }
        Ok(true)
    }

    /// Runs `code` from the machine's place on until the program ends,
    /// an instruction cannot be carried out, or the budget is used up.
    pub fn execute(&mut self, code: &Vec<Instruction>) -> (result: Result<(), Trap>)
        ensures
            final(self)@ == run(old(self)@, code@, old(self).budget as nat).machine,
            final(self).budget == run(old(self)@, code@, old(self).budget as nat).budget,
            result == match run(old(self)@, code@, old(self).budget as nat).trap {
                Some(trap) => Err::<(), Trap>(trap),
                None => Ok::<(), Trap>(()),
            },
    {
        loop
            invariant
                self.budget <= old(self).budget,
                run(old(self)@, code@, old(self).budget as nat) == run(
                    self@,
                    code@,
                    self.budget as nat,
                ),
            decreases self.budget,
        {
            proof {
                reveal(run);
            }
            if self.budget == 0 {
                let ahead = self.peek(code);
                return match ahead {
                    Ok(true) => Err(Trap::OutOfSteps),
                    Ok(false) => Ok(()),
                    Err(trap) => Err(trap),
                };
            }
            match self.step(code) {
                Ok(true) => {
                    self.budget -= 1;
                },
                Ok(false) => {
                    return Ok(());
                },
                Err(trap) => {
                    return Err(trap);
                },
            }
        }
    }

    /// Tells what the next instruction would do, without carrying it
    /// out: whether there is one, or the trap that it ends in.
    fn peek(&self, code: &Vec<Instruction>) -> (result: Result<bool, Trap>)
        ensures
            match step(self@, code@) {
                Step::Next(_) => result == Ok::<bool, Trap>(true),
                Step::Done => result == Ok::<bool, Trap>(false),
                Step::Failed(trap) => result == Err::<bool, Trap>(trap),
            },
    {
        if self.pc >= code.len() {
            return Ok(false);
        }
        let depth = self.compute_stack.len();
        match code[self.pc] {
            Instruction::Push(_) => Ok(true),
            Instruction::Pop => if depth < 1 {
                Err(Trap::StackUnderflow)
            } else {
                Ok(true)
            },
            Instruction::Load { distance, slot } => match self.locate(distance, slot) {
                Some(_) => Ok(true),
                None => Err(Trap::InvalidAddress),
            },
            Instruction::Store { distance, slot } => if depth < 1 {
                Err(Trap::StackUnderflow)
            } else {
                match self.locate(distance, slot) {
                    Some(_) => Ok(true),
                    None => Err(Trap::InvalidAddress),
                }
            },
            Instruction::Unary(operator) => if depth < 1 {
                Err(Trap::StackUnderflow)
            } else {
                match unary(operator, self.compute_stack[depth - 1]) {
                    Ok(_) => Ok(true),
                    Err(trap) => Err(trap),
                }
            },
            Instruction::Binary(operator) => if depth < 2 {
                Err(Trap::StackUnderflow)
            } else {
                match binary(operator, self.compute_stack[depth - 2], self.compute_stack[depth - 1]) {
                    Ok(_) => Ok(true),
                    Err(trap) => Err(trap),
                }
            },
            Instruction::Reserve(_) => Ok(true),
            Instruction::Function { parameters, length } => if self.frames.len() == 0 {
                Err(Trap::InvalidAddress)
            } else if length > code.len() - self.pc - 1 {
                Err(Trap::InvalidJump)
            } else {
                Ok(true)
            },
            Instruction::Call(n) => if depth < 1 || n > depth - 1 {
                Err(Trap::StackUnderflow)
            } else {
                match self.compute_stack[depth - 1 - n] {
                    Value::Function { entry, parameters, link } => if parameters != n {
                        Err(Trap::WrongArity)
                    } else if link >= self.frames.len() {
                        Err(Trap::InvalidAddress)
                    } else if entry > code.len() {
                        Err(Trap::InvalidJump)
                    } else {
                        Ok(true)
                    },
                    _ => Err(Trap::NotAFunction),
                }
            },
            Instruction::Return => if self.frames.len() <= 1 {
                Err(Trap::InvalidReturn)
            } else if self.frames[self.frames.len() - 1].back > code.len() {
                Err(Trap::InvalidJump)
            } else if self.frames[self.frames.len() - 1].base > self.var_stack.len() {
                Err(Trap::InvalidAddress)
            } else {
                Ok(true)
            },
        }
    }
}

} // verus!
