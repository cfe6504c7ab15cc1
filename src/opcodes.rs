//! The operation table and its one-byte codes.

use vstd::prelude::*;

verus! {

/// The operations of the machine. Each has a one-byte code; the codes run
/// from 1 to 28 in the order listed, so that a zero byte decodes to nothing
/// and zero-filled memory ends a run.
#[allow(non_camel_case_types)]
#[derive(Debug, Clone, Copy, PartialEq, Eq, Structural)]
pub enum OpCode {
    MOV,
    ADD,
    SUB,
    MUL,
    DIV,
    CMP,
    JMP,
    JEQ,
    JNE,
    JLT,
    JGT,
    LOAD,
    STORE,
    PUSH,
    POP,
    CALL,
    RET,
    HALT,
    NOP,
    AND,
    OR,
    XOR,
    NOT,
    LSL,
    LSR,
    PRINT,
    PRINTC,
    INPUT,
}

/// The numeric code of an operation.
pub open spec fn code_of(op: OpCode) -> u8 {
    match op {
        OpCode::MOV => 1,
        OpCode::ADD => 2,
        OpCode::SUB => 3,
        OpCode::MUL => 4,
        OpCode::DIV => 5,
        OpCode::CMP => 6,
        OpCode::JMP => 7,
        OpCode::JEQ => 8,
        OpCode::JNE => 9,
        OpCode::JLT => 10,
        OpCode::JGT => 11,
        OpCode::LOAD => 12,
        OpCode::STORE => 13,
        OpCode::PUSH => 14,
        OpCode::POP => 15,
        OpCode::CALL => 16,
        OpCode::RET => 17,
        OpCode::HALT => 18,
        OpCode::NOP => 19,
        OpCode::AND => 20,
        OpCode::OR => 21,
        OpCode::XOR => 22,
        OpCode::NOT => 23,
        OpCode::LSL => 24,
        OpCode::LSR => 25,
        OpCode::PRINT => 26,
        OpCode::PRINTC => 27,
        OpCode::INPUT => 28,
    }
}

/// The operation whose code is `b`, if any.
pub open spec fn op_of_code(b: u8) -> Option<OpCode> {
    if b == 1 { Some(OpCode::MOV) }
    else if b == 2 { Some(OpCode::ADD) }
    else if b == 3 { Some(OpCode::SUB) }
    else if b == 4 { Some(OpCode::MUL) }
    else if b == 5 { Some(OpCode::DIV) }
    else if b == 6 { Some(OpCode::CMP) }
    else if b == 7 { Some(OpCode::JMP) }
    else if b == 8 { Some(OpCode::JEQ) }
    else if b == 9 { Some(OpCode::JNE) }
    else if b == 10 { Some(OpCode::JLT) }
    else if b == 11 { Some(OpCode::JGT) }
    else if b == 12 { Some(OpCode::LOAD) }
    else if b == 13 { Some(OpCode::STORE) }
    else if b == 14 { Some(OpCode::PUSH) }
    else if b == 15 { Some(OpCode::POP) }
    else if b == 16 { Some(OpCode::CALL) }
    else if b == 17 { Some(OpCode::RET) }
    else if b == 18 { Some(OpCode::HALT) }
    else if b == 19 { Some(OpCode::NOP) }
    else if b == 20 { Some(OpCode::AND) }
    else if b == 21 { Some(OpCode::OR) }
    else if b == 22 { Some(OpCode::XOR) }
    else if b == 23 { Some(OpCode::NOT) }
    else if b == 24 { Some(OpCode::LSL) }
    else if b == 25 { Some(OpCode::LSR) }
    else if b == 26 { Some(OpCode::PRINT) }
    else if b == 27 { Some(OpCode::PRINTC) }
    else if b == 28 { Some(OpCode::INPUT) }
    else { None }
}

/// The name of an operation, as diagnostics show it.
pub open spec fn name_of(op: OpCode) -> Seq<char> {
    match op {
        OpCode::MOV => "MOV"@,
        OpCode::ADD => "ADD"@,
        OpCode::SUB => "SUB"@,
        OpCode::MUL => "MUL"@,
        OpCode::DIV => "DIV"@,
        OpCode::CMP => "CMP"@,
        OpCode::JMP => "JMP"@,
        OpCode::JEQ => "JEQ"@,
        OpCode::JNE => "JNE"@,
        OpCode::JLT => "JLT"@,
        OpCode::JGT => "JGT"@,
        OpCode::LOAD => "LOAD"@,
        OpCode::STORE => "STORE"@,
        OpCode::PUSH => "PUSH"@,
        OpCode::POP => "POP"@,
        OpCode::CALL => "CALL"@,
        OpCode::RET => "RET"@,
        OpCode::HALT => "HALT"@,
        OpCode::NOP => "NOP"@,
        OpCode::AND => "AND"@,
        OpCode::OR => "OR"@,
        OpCode::XOR => "XOR"@,
        OpCode::NOT => "NOT"@,
        OpCode::LSL => "LSL"@,
        OpCode::LSR => "LSR"@,
        OpCode::PRINT => "PRINT"@,
        OpCode::PRINTC => "PRINTC"@,
        OpCode::INPUT => "INPUT"@,
    }
}

impl OpCode {
    /// The one-byte code of this operation.
    pub fn to_u8(self) -> (r: u8)
        ensures
            r == code_of(self),
    {
        match self {
            OpCode::MOV => 1,
            OpCode::ADD => 2,
            OpCode::SUB => 3,
            OpCode::MUL => 4,
            OpCode::DIV => 5,
            OpCode::CMP => 6,
            OpCode::JMP => 7,
            OpCode::JEQ => 8,
            OpCode::JNE => 9,
            OpCode::JLT => 10,
            OpCode::JGT => 11,
            OpCode::LOAD => 12,
            OpCode::STORE => 13,
            OpCode::PUSH => 14,
            OpCode::POP => 15,
            OpCode::CALL => 16,
            OpCode::RET => 17,
            OpCode::HALT => 18,
            OpCode::NOP => 19,
            OpCode::AND => 20,
            OpCode::OR => 21,
            OpCode::XOR => 22,
            OpCode::NOT => 23,
            OpCode::LSL => 24,
            OpCode::LSR => 25,
            OpCode::PRINT => 26,
            OpCode::PRINTC => 27,
            OpCode::INPUT => 28,
        }
    }

    /// The operation with code `b`, or `None` when no operation has it.
    pub fn from_u8(b: u8) -> (r: Option<OpCode>)
        ensures
            r == op_of_code(b),
    {
        match b {
            1 => Some(OpCode::MOV),
            2 => Some(OpCode::ADD),
            3 => Some(OpCode::SUB),
            4 => Some(OpCode::MUL),
            5 => Some(OpCode::DIV),
            6 => Some(OpCode::CMP),
            7 => Some(OpCode::JMP),
            8 => Some(OpCode::JEQ),
            9 => Some(OpCode::JNE),
            10 => Some(OpCode::JLT),
            11 => Some(OpCode::JGT),
            12 => Some(OpCode::LOAD),
            13 => Some(OpCode::STORE),
            14 => Some(OpCode::PUSH),
            15 => Some(OpCode::POP),
            16 => Some(OpCode::CALL),
            17 => Some(OpCode::RET),
            18 => Some(OpCode::HALT),
            19 => Some(OpCode::NOP),
            20 => Some(OpCode::AND),
            21 => Some(OpCode::OR),
            22 => Some(OpCode::XOR),
            23 => Some(OpCode::NOT),
            24 => Some(OpCode::LSL),
            25 => Some(OpCode::LSR),
            26 => Some(OpCode::PRINT),
            27 => Some(OpCode::PRINTC),
            28 => Some(OpCode::INPUT),
            _ => None,
        }
    }
}

/// The code table is a bijection: decoding the code of an operation gives
/// the operation back, and a byte that decodes to an operation is its code.
pub proof fn lemma_code_bijection(op: OpCode, b: u8)
    ensures
        op_of_code(code_of(op)) == Some(op),
        op_of_code(b) == Some(op) <==> code_of(op) == b,
{
}

} // verus!
