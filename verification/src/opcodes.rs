use vstd::prelude::*;

verus! {

/// The word that marks an un-patched forward-jump placeholder.  It is the
/// wire form of `OpCode::Panic`, chosen as the largest 16-bit value so that
/// no patched jump distance (which is checked to stay below it) can collide
/// with it.
pub const PANIC_WORD: u16 = 65535;

/// The bytecode instruction set.  Opcodes are stored in the chunk as 16-bit
/// words; operand-bearing opcodes are followed by exactly one operand word.
#[derive(Debug, Clone, Copy, PartialEq, Eq, Structural)]
pub enum OpCode {
    Add,
    Subtract,
    Multiply,
    Divide,
    Constant,
    Equal,
    Greater,
    Less,
    Nil,
    True,
    False,
    Not,
    Negate,
    Print,
    Pop,
    SetGlobalVar,
    GetGlobalVar,
    DefineGlobalVar,
    SetLocalVar,
    GetLocalVar,
    Jmp,
    JmpTrue,
    JmpFalse,
    Loop,
    Return,
    SetSP,
    PopStoreTmp,
    Call,
    Eof,
    Panic,
}

/// The 16-bit wire form of each opcode.
pub open spec fn word_of(op: OpCode) -> u16 {
    match op {
        OpCode::Add => 0,
        OpCode::Subtract => 1,
        OpCode::Multiply => 2,
        OpCode::Divide => 3,
        OpCode::Constant => 4,
        OpCode::Equal => 5,
        OpCode::Greater => 6,
        OpCode::Less => 7,
        OpCode::Nil => 8,
        OpCode::True => 9,
        OpCode::False => 10,
        OpCode::Not => 11,
        OpCode::Negate => 12,
        OpCode::Print => 13,
        OpCode::Pop => 14,
        OpCode::SetGlobalVar => 15,
        OpCode::GetGlobalVar => 16,
        OpCode::DefineGlobalVar => 17,
        OpCode::SetLocalVar => 18,
        OpCode::GetLocalVar => 19,
        OpCode::Jmp => 20,
        OpCode::JmpTrue => 21,
        OpCode::JmpFalse => 22,
        OpCode::Loop => 23,
        OpCode::Return => 24,
        OpCode::SetSP => 25,
        OpCode::PopStoreTmp => 26,
        OpCode::Call => 27,
        OpCode::Eof => 28,
        OpCode::Panic => PANIC_WORD,
    }
}

/// The opcode encoded by a word, if any.  Unknown words decode to `None`
/// and are treated as a runtime error by the machine, never as undefined
/// behaviour.
pub open spec fn spec_opcode_of_word(w: u16) -> Option<OpCode> {
    if w == 0 {
        Some(OpCode::Add)
    } else if w == 1 {
        Some(OpCode::Subtract)
    } else if w == 2 {
        Some(OpCode::Multiply)
    } else if w == 3 {
        Some(OpCode::Divide)
    } else if w == 4 {
        Some(OpCode::Constant)
    } else if w == 5 {
        Some(OpCode::Equal)
    } else if w == 6 {
        Some(OpCode::Greater)
    } else if w == 7 {
        Some(OpCode::Less)
    } else if w == 8 {
        Some(OpCode::Nil)
    } else if w == 9 {
        Some(OpCode::True)
    } else if w == 10 {
        Some(OpCode::False)
    } else if w == 11 {
        Some(OpCode::Not)
    } else if w == 12 {
        Some(OpCode::Negate)
    } else if w == 13 {
        Some(OpCode::Print)
    } else if w == 14 {
        Some(OpCode::Pop)
    } else if w == 15 {
        Some(OpCode::SetGlobalVar)
    } else if w == 16 {
        Some(OpCode::GetGlobalVar)
    } else if w == 17 {
        Some(OpCode::DefineGlobalVar)
    } else if w == 18 {
        Some(OpCode::SetLocalVar)
    } else if w == 19 {
        Some(OpCode::GetLocalVar)
    } else if w == 20 {
        Some(OpCode::Jmp)
    } else if w == 21 {
        Some(OpCode::JmpTrue)
    } else if w == 22 {
        Some(OpCode::JmpFalse)
    } else if w == 23 {
        Some(OpCode::Loop)
    } else if w == 24 {
        Some(OpCode::Return)
    } else if w == 25 {
        Some(OpCode::SetSP)
    } else if w == 26 {
        Some(OpCode::PopStoreTmp)
    } else if w == 27 {
        Some(OpCode::Call)
    } else if w == 28 {
        Some(OpCode::Eof)
    } else if w == PANIC_WORD {
        Some(OpCode::Panic)
    } else {
        None
    }
}

impl OpCode {
    /// The 16-bit wire form of this opcode.
    pub fn repr(&self) -> (r: u16)
        ensures
            r == word_of(*self),
    {
        match *self {
            OpCode::Add => 0,
            OpCode::Subtract => 1,
            OpCode::Multiply => 2,
            OpCode::Divide => 3,
            OpCode::Constant => 4,
            OpCode::Equal => 5,
            OpCode::Greater => 6,
            OpCode::Less => 7,
            OpCode::Nil => 8,
            OpCode::True => 9,
            OpCode::False => 10,
            OpCode::Not => 11,
            OpCode::Negate => 12,
            OpCode::Print => 13,
            OpCode::Pop => 14,
            OpCode::SetGlobalVar => 15,
            OpCode::GetGlobalVar => 16,
            OpCode::DefineGlobalVar => 17,
            OpCode::SetLocalVar => 18,
            OpCode::GetLocalVar => 19,
            OpCode::Jmp => 20,
            OpCode::JmpTrue => 21,
            OpCode::JmpFalse => 22,
            OpCode::Loop => 23,
            OpCode::Return => 24,
            OpCode::SetSP => 25,
            OpCode::PopStoreTmp => 26,
            OpCode::Call => 27,
            OpCode::Eof => 28,
            OpCode::Panic => PANIC_WORD,
        }
    }
}

/// Decode a code word back into an opcode.
pub fn opcode_of_word(w: u16) -> (r: Option<OpCode>)
    ensures
        r == spec_opcode_of_word(w),
{
    if w == 0 {
        Some(OpCode::Add)
    } else if w == 1 {
        Some(OpCode::Subtract)
    } else if w == 2 {
        Some(OpCode::Multiply)
    } else if w == 3 {
        Some(OpCode::Divide)
    } else if w == 4 {
        Some(OpCode::Constant)
    } else if w == 5 {
        Some(OpCode::Equal)
    } else if w == 6 {
        Some(OpCode::Greater)
    } else if w == 7 {
        Some(OpCode::Less)
    } else if w == 8 {
        Some(OpCode::Nil)
    } else if w == 9 {
        Some(OpCode::True)
    } else if w == 10 {
        Some(OpCode::False)
    } else if w == 11 {
        Some(OpCode::Not)
    } else if w == 12 {
        Some(OpCode::Negate)
    } else if w == 13 {
        Some(OpCode::Print)
    } else if w == 14 {
        Some(OpCode::Pop)
    } else if w == 15 {
        Some(OpCode::SetGlobalVar)
    } else if w == 16 {
        Some(OpCode::GetGlobalVar)
    } else if w == 17 {
        Some(OpCode::DefineGlobalVar)
    } else if w == 18 {
        Some(OpCode::SetLocalVar)
    } else if w == 19 {
        Some(OpCode::GetLocalVar)
    } else if w == 20 {
        Some(OpCode::Jmp)
    } else if w == 21 {
        Some(OpCode::JmpTrue)
    } else if w == 22 {
        Some(OpCode::JmpFalse)
    } else if w == 23 {
        Some(OpCode::Loop)
    } else if w == 24 {
        Some(OpCode::Return)
    } else if w == 25 {
        Some(OpCode::SetSP)
    } else if w == 26 {
        Some(OpCode::PopStoreTmp)
    } else if w == 27 {
        Some(OpCode::Call)
    } else if w == 28 {
        Some(OpCode::Eof)
    } else if w == PANIC_WORD {
        Some(OpCode::Panic)
    } else {
        None
    }
}

/// Encoding and decoding of opcodes invert each other.
pub proof fn lemma_opcode_word_roundtrip(op: OpCode)
    ensures
        spec_opcode_of_word(word_of(op)) == Some(op),
{
}

} // verus!
