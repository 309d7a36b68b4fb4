//! Programs of the stack machine: instructions, each with the source line
//! it came from.
use vstd::prelude::*;
use crate::value::Value;

verus! {

#[derive(Clone, Copy, Debug, PartialEq, Eq, Structural)]
pub enum Instruction {
    Return,
    Constant { value: Value },
    Negate,
    Add,
}

pub struct Bytecode {
    code: Vec<Instruction>,
    line_numbers: Vec<usize>,
}

impl Bytecode {
    pub closed spec fn instructions(&self) -> Seq<Instruction> {
        self.code@
    }

    /// The source line of each instruction.
    pub closed spec fn lines(&self) -> Seq<usize> {
        self.line_numbers@
    }

    /// Every instruction has its line.
    pub closed spec fn wf(&self) -> bool {
        self.code@.len() == self.line_numbers@.len()
    }

    pub fn new() -> (r: Bytecode)
        ensures
            r.wf(),
            r.instructions() == Seq::<Instruction>::empty(),
            r.lines() == Seq::<usize>::empty(),
    {
        Bytecode { code: Vec::new(), line_numbers: Vec::new() }
    }

    /// Appends an instruction that came from `line`.
    pub fn instruction(&mut self, instruction: Instruction, line: usize)
        requires
            old(self).wf(),
        ensures
            final(self).wf(),
            final(self).instructions() == old(self).instructions().push(instruction),
            final(self).lines() == old(self).lines().push(line),
    {
        self.code.push(instruction);
        self.line_numbers.push(line);
    }

    pub fn len(&self) -> (r: usize)
        ensures
            r == self.instructions().len(),
    {
        self.code.len()
    }

    /// The instruction at `index`.
    pub fn get(&self, index: usize) -> (r: Instruction)
        requires
            index < self.instructions().len(),
        ensures
            r == self.instructions()[index as int],
    {
        self.code[index]
    }

    /// The source line of the instruction at `index`.
    pub fn line(&self, index: usize) -> (r: usize)
        requires
            self.wf(),
            index < self.instructions().len(),
        ensures
            r == self.lines()[index as int],
    {
        self.line_numbers[index]
    }
}

} // verus!
