//! Little-endian words and the eight-byte instruction record.

use vstd::prelude::*;
use crate::opcodes::{OpCode, code_of, op_of_code, lemma_code_bijection};
use crate::runtime::{Instruction, decode_at};

verus! {

/// The four little-endian bytes of `v`.
pub open spec fn le_bytes(v: i32) -> Seq<u8> {
    seq![
        (v as u32 & 0xFF) as u8,
        ((v as u32 >> 8u32) & 0xFF) as u8,
        ((v as u32 >> 16u32) & 0xFF) as u8,
        ((v as u32 >> 24u32) & 0xFF) as u8,
    ]
}

/// The unsigned value of four little-endian bytes.
pub open spec fn le_u32(b0: u8, b1: u8, b2: u8, b3: u8) -> u32 {
    (b0 as u32) | ((b1 as u32) << 8u32) | ((b2 as u32) << 16u32) | ((b3 as u32) << 24u32)
}

/// The signed value of four little-endian bytes.
pub open spec fn le_i32(b0: u8, b1: u8, b2: u8, b3: u8) -> i32 {
    le_u32(b0, b1, b2, b3) as i32
}

/// The first word of an instruction in memory: opcode, destination,
/// source 1 and source 2, from the high byte down.
pub open spec fn pack_word(op: u8, rd: u8, rs1: u8, rs2: u8) -> i32 {
    ((op as i32) << 24u32) | ((rd as i32) << 16u32) | ((rs1 as i32) << 8u32) | (rs2 as i32)
}

/// The eight bytes of an instruction record in an image.
pub open spec fn record_bytes(ins: Instruction) -> Seq<u8> {
    seq![code_of(ins.opcode), ins.rd, ins.rs1, ins.rs2] + le_bytes(ins.immediate)
}

/// Appends the little-endian bytes of `v` to `out`.
pub fn push_le_i32(out: &mut Vec<u8>, v: i32)
    ensures
        final(out)@ == old(out)@ + le_bytes(v),
{
    let u = v as u32;
    out.push((u & 0xFF) as u8);
    out.push(((u >> 8u32) & 0xFF) as u8);
    out.push(((u >> 16u32) & 0xFF) as u8);
    out.push(((u >> 24u32) & 0xFF) as u8);
    assert(out@ =~= old(out)@ + le_bytes(v));
}

/// Appends the record of `ins` to `out`.
pub fn push_record(out: &mut Vec<u8>, ins: &Instruction)
    ensures
        final(out)@ == old(out)@ + record_bytes(*ins),
{
    out.push(ins.opcode.to_u8());
    out.push(ins.rd);
    out.push(ins.rs1);
    out.push(ins.rs2);
    push_le_i32(out, ins.immediate);
    assert(out@ =~= old(out)@ + record_bytes(*ins));
}

/// The little-endian unsigned value of `b[i..i + 4]`.
pub fn read_le_u32(b: &[u8], i: usize) -> (r: u32)
    requires
        i + 4 <= b@.len(),
    ensures
        r == le_u32(b@[i as int], b@[i + 1], b@[i + 2], b@[i + 3]),
{
    (b[i] as u32) | ((b[i + 1] as u32) << 8u32) | ((b[i + 2] as u32) << 16u32) | ((b[i + 3] as u32)
        << 24u32)
}

/// The little-endian signed value of `b[i..i + 4]`.
pub fn read_le_i32(b: &[u8], i: usize) -> (r: i32)
    requires
        i + 4 <= b@.len(),
    ensures
        r == le_i32(b@[i as int], b@[i + 1], b@[i + 2], b@[i + 3]),
{
    read_le_u32(b, i) as i32
}

/// The first word of an instruction, packed from its four bytes.
pub fn pack(op: u8, rd: u8, rs1: u8, rs2: u8) -> (r: i32)
    ensures
        r == pack_word(op, rd, rs1, rs2),
{
    ((op as i32) << 24u32) | ((rd as i32) << 16u32) | ((rs1 as i32) << 8u32) | (rs2 as i32)
}

proof fn lemma_le_round_trip(v: i32)
    ensures
        le_i32(le_bytes(v)[0], le_bytes(v)[1], le_bytes(v)[2], le_bytes(v)[3]) == v,
{
    let u = v as u32;
    assert(((u & 0xFF) as u8 as u32) | ((((u >> 8u32) & 0xFF) as u8 as u32) << 8u32) | ((((u
        >> 16u32) & 0xFF) as u8 as u32) << 16u32) | ((((u >> 24u32) & 0xFF) as u8 as u32) << 24u32)
        == u) by (bit_vector);
    assert((v as u32) as i32 == v) by (bit_vector);
}

proof fn lemma_pack_fields(op: u8, rd: u8, rs1: u8, rs2: u8)
    ensures
        ((pack_word(op, rd, rs1, rs2) >> 24u32) & 0xFF) as u8 == op,
        ((pack_word(op, rd, rs1, rs2) >> 16u32) & 0xFF) as u8 == rd,
        ((pack_word(op, rd, rs1, rs2) >> 8u32) & 0xFF) as u8 == rs1,
        (pack_word(op, rd, rs1, rs2) & 0xFF) as u8 == rs2,
{
    assert((((((op as i32) << 24u32) | ((rd as i32) << 16u32) | ((rs1 as i32) << 8u32) | (rs2 as i32))
        >> 24u32) & 0xFF) as u8 == op) by (bit_vector);
    assert((((((op as i32) << 24u32) | ((rd as i32) << 16u32) | ((rs1 as i32) << 8u32) | (rs2 as i32))
        >> 16u32) & 0xFF) as u8 == rd) by (bit_vector);
    assert((((((op as i32) << 24u32) | ((rd as i32) << 16u32) | ((rs1 as i32) << 8u32) | (rs2 as i32))
        >> 8u32) & 0xFF) as u8 == rs1) by (bit_vector);
    assert(((((op as i32) << 24u32) | ((rd as i32) << 16u32) | ((rs1 as i32) << 8u32) | (rs2 as i32))
        & 0xFF) as u8 == rs2) by (bit_vector);
}

/// Encoding an instruction as a record, loading the record into two words
/// of memory, and decoding those words gives back the opcode and every
/// operand field exactly.
pub proof fn lemma_record_round_trip(ins: Instruction, mem: Seq<i32>, pc: int)
    requires
        0 <= pc,
        pc + 1 < mem.len(),
        mem[pc] == pack_word(record_bytes(ins)[0], record_bytes(ins)[1], record_bytes(ins)[2], record_bytes(ins)[3]),
        mem[pc + 1] == le_i32(record_bytes(ins)[4], record_bytes(ins)[5], record_bytes(ins)[6], record_bytes(ins)[7]),
    ensures
        decode_at(mem, pc) matches Some(d) && d.opcode == ins.opcode && d.rd == ins.rd
            && d.rs1 == ins.rs1 && d.rs2 == ins.rs2 && d.immediate == ins.immediate,
{
    let b = record_bytes(ins);
    assert(b[0] == code_of(ins.opcode) && b[1] == ins.rd && b[2] == ins.rs1 && b[3] == ins.rs2);
    assert(b[4] == le_bytes(ins.immediate)[0] && b[5] == le_bytes(ins.immediate)[1]
        && b[6] == le_bytes(ins.immediate)[2] && b[7] == le_bytes(ins.immediate)[3]);
    lemma_pack_fields(b[0], b[1], b[2], b[3]);
    lemma_le_round_trip(ins.immediate);
    lemma_code_bijection(ins.opcode, b[0]);
}

} // verus!
