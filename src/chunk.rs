//! An earlier form of program for the stack machine: a list of opcodes.
use vstd::prelude::*;
use crate::text::{digits, push_digits};

verus! {

#[derive(Clone, Copy, Debug, PartialEq, Eq, Structural)]
pub enum OpCode {
    Return,
}

#[derive(Clone, Copy, Debug, PartialEq, Eq, Structural)]
pub struct Instruction {
    pub opcode: OpCode,
}

/// How an opcode is written.
pub open spec fn opcode_text(op: OpCode) -> Seq<char> {
    match op {
        OpCode::Return => "Return"@,
    }
}

/// One line per instruction, `index: opcode`, for the first `n` of `code`.
pub open spec fn listing_of(code: Seq<Instruction>, n: nat) -> Seq<char>
    decreases n,
{
    if n == 0 || n > code.len() {
        seq![]
    } else {
        listing_of(code, (n - 1) as nat) + digits((n - 1) as nat) + ": "@ + opcode_text(
            code[n - 1].opcode,
        ) + seq!['\n']
    }
}

impl Instruction {
    pub fn new(opcode: OpCode) -> (r: Instruction)
        ensures
            r.opcode == opcode,
    {
        Instruction { opcode }
    }

    /// The instruction as it is written.
    pub fn text(&self) -> (r: String)
        ensures
            r@ == opcode_text(self.opcode),
    {
        match self.opcode {
            OpCode::Return => String::from_str("Return"),
        }
    }
}

pub struct Chunk {
    code: Vec<Instruction>,
}

impl Chunk {
    pub closed spec fn instructions(&self) -> Seq<Instruction> {
        self.code@
    }

    pub fn new() -> (r: Chunk)
        ensures
            r.instructions() == Seq::<Instruction>::empty(),
    {
        Chunk { code: vec![] }
    }

    pub fn write(&mut self, instruction: Instruction)
        ensures
            final(self).instructions() == old(self).instructions().push(instruction),
    {
        self.code.push(instruction);
    }

    /// The instructions, one per line, each after its index.
    pub fn listing(&self) -> (r: String)
        ensures
            r@ == listing_of(self.instructions(), self.instructions().len()),
    {
        let mut r = String::new();
        let mut i: usize = 0;
        while i < self.code.len()
            invariant
                i <= self.code@.len(),
                r@ == listing_of(self.code@, i as nat),
            decreases self.code@.len() - i,
        {
            push_digits(&mut r, i as u64);
            r.append(": ");
            let name = self.code[i].text();
            r.append(name.as_str());
            r.push('\n');
            i += 1;
        }
        r
    }
}

} // verus!
