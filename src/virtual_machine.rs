//! The stack machine: runs a program from its first instruction until it
//! returns a value or fails.
use vstd::prelude::*;
use crate::bytecode::{Bytecode, Instruction};
use crate::value::Value;

verus! {

#[derive(Clone, Copy, Debug, PartialEq, Eq, Structural)]
pub enum Error {
    /// an instruction that the machine does not carry out yet
    NotImplemented,
    /// the program ran past its last instruction
    InvalidInstructionPointer,
    /// an instruction needed a value and the stack was empty
    NoValue,
}

pub struct VirtualMachine {}

/// The state of one run: the next instruction and the value stack.
struct Context {
    pub ip: usize,
    pub stack: Vec<Value>,
}

/// The outcome of running `code` from instruction `ip` with `stack`, top
/// last: `Constant` pushes its value, `Negate` replaces the top with its
/// negation, `Return` gives the top; `Add` is not carried out.
pub open spec fn run(code: Seq<Instruction>, ip: nat, stack: Seq<Value>) -> Result<Value, Error>
    decreases code.len() - ip,
{
    if ip >= code.len() {
        Err(Error::InvalidInstructionPointer)
    } else {
        match code[ip as int] {
            Instruction::Constant { value } => run(code, ip + 1, stack.push(value)),
            Instruction::Return => if stack.len() == 0 {
                Err(Error::NoValue)
            } else {
                Ok(stack.last())
            },
            Instruction::Negate => if stack.len() == 0 {
                Err(Error::NoValue)
            } else {
                run(code, ip + 1, stack.drop_last().push(stack.last().negated()))
            },
            Instruction::Add => Err(Error::NotImplemented),
        }
    }
}

impl Context {
    fn new() -> (r: Context)
        ensures
            r.ip == 0,
            r.stack@ == Seq::<Value>::empty(),
    {
        Context { ip: 0, stack: Vec::new() }
    }
}

impl VirtualMachine {
    pub fn new() -> VirtualMachine {
        VirtualMachine {  }
    }

    /// Runs `code` from its first instruction with an empty stack.
    pub fn execute(self, code: Bytecode) -> (r: Result<Value, Error>)
        ensures
            r == run(code.instructions(), 0, seq![]),
    {
        let mut context = Context::new();
        loop
            invariant
                run(code.instructions(), 0, seq![]) == run(
                    code.instructions(),
                    context.ip as nat,
                    context.stack@,
                ),
                context.ip <= code.instructions().len(),
            decreases code.instructions().len() - context.ip,
        {
            if context.ip >= code.len() {
                return Err(Error::InvalidInstructionPointer);
            }
            match code.get(context.ip) {
                Instruction::Constant { value } => {
                    context.stack.push(value);
                },
                Instruction::Return => {
                    return match context.stack.pop() {
                        Some(value) => Ok(value),
                        None => Err(Error::NoValue),
                    };
                },
                Instruction::Negate => {
                    let value = match context.stack.pop() {
                        Some(value) => value,
                        None => return Err(Error::NoValue),
                    };
                    context.stack.push(value.neg());
                },
                Instruction::Add => {
                    return Err(Error::NotImplemented);
                },
            }
            context.ip += 1;
        }
    }
}

} // verus!
