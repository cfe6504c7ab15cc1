//! The virtual machine: memory, registers, flags, stacks, and the
//! fetch-execute loop, with a model of each operation's effect.

use vstd::prelude::*;
use vstd::string::StrSliceExecFns;
use vstd::arithmetic::div_mod::lemma_mod_multiples_vanish;
use crate::codec::{le_i32, le_u32, pack, pack_word, read_le_i32, read_le_u32};
use crate::opcodes::{OpCode, op_of_code, name_of};
use crate::runtime_error::RuntimeError;
use crate::text::{
    chars_of, decimal, nat_digits, parse_int, parse_int_spec, push_decimal, push_nat_digits, string_of,
    trim, trim_range,
};

verus! {

/// Words of memory.
pub const MEMORY_WORDS: usize = 1024;
/// Bytes of memory, as byte-granular reads see it.
pub const MEMORY_BYTES: usize = 4096;
/// Registers of the machine.
pub const REGISTER_COUNT: usize = 32;
/// Byte address at which the data section is loaded.
pub const DATA_BASE: usize = 512;

/// One instruction: an operation, three register slots, an immediate, and
/// (only inside the assembler) the name of a label still to be resolved.
#[derive(Debug, Clone)]
pub struct Instruction {
    pub opcode: OpCode,
    pub rd: u8,
    pub rs1: u8,
    pub rs2: u8,
    pub immediate: i32,
    pub label: Option<Vec<char>>,
}

/// One frame of a fault's stack trace: a program counter and the name of
/// the operation found there.
#[derive(Debug, Clone)]
pub struct StackFrame {
    pub pc: usize,
    pub instruction: String,
}

/// Condition flags; only `zero` and `negative` are ever written.
#[derive(Debug, Clone, Copy, PartialEq, Eq, Structural)]
pub struct Flags {
    pub zero: bool,
    pub negative: bool,
    pub carry: bool,
    pub overflow: bool,
}

/// The virtual machine. `pending_input` holds an `INPUT` instruction whose
/// line has not been supplied yet; `output` is what the program printed.
pub struct Runtime {
    pub registers: Vec<i32>,
    pub memory: Vec<i32>,
    pub stack: Vec<i32>,
    pub pc: usize,
    pub flags: Flags,
    pub running: bool,
    pub call_stack: Vec<usize>,
    pub instruction_count: usize,
    pub output: Vec<char>,
    pub pending_input: Option<Instruction>,
}

/// The state of the machine as the contracts see it.
pub ghost struct Machine {
    pub registers: Seq<i32>,
    pub memory: Seq<i32>,
    pub stack: Seq<i32>,
    pub pc: int,
    pub flags: Flags,
    pub running: bool,
    pub call_stack: Seq<usize>,
    pub count: int,
    pub output: Seq<char>,
    pub pending: Option<Instruction>,
}

/// `x` reduced to a 32-bit two's complement value.
pub open spec fn wrap32(x: int) -> int {
    let m = x % 0x1_0000_0000;
    if m >= 0x8000_0000 { m - 0x1_0000_0000 } else { m }
}

/// Division rounding toward zero.
pub open spec fn trunc_div(a: int, b: int) -> int {
    let q = (if a < 0 { -a } else { a }) / (if b < 0 { -b } else { b });
    if (a < 0) == (b < 0) { q } else { -q }
}

/// The byte at byte address `a`, taken from its little-endian word.
pub open spec fn byte_at(mem: Seq<i32>, a: int) -> u8 {
    ((mem[a / 4] >> (((a % 4) * 8) as u32)) & 0xFF) as u8
}

/// The instruction held by the two words at word address `pc`.
pub open spec fn decode_at(mem: Seq<i32>, pc: int) -> Option<Instruction> {
    if pc < 0 || pc >= mem.len() - 1 {
        None
    } else {
        let w = mem[pc];
        match op_of_code(((w >> 24u32) & 0xFF) as u8) {
            Some(op) => Some(
                Instruction {
                    opcode: op,
                    rd: ((w >> 16u32) & 0xFF) as u8,
                    rs1: ((w >> 8u32) & 0xFF) as u8,
                    rs2: (w & 0xFF) as u8,
                    immediate: mem[pc + 1],
                    label: None,
                },
            ),
            None => None,
        }
    }
}

/// The bytes from byte address `a` up to the first zero byte or the end of
/// memory, as characters.
pub open spec fn cstr(mem: Seq<i32>, a: int) -> Seq<char>
    decreases 4096 - a,
{
    if a < 0 || a >= 4096 || byte_at(mem, a) == 0 {
        seq![]
    } else {
        seq![byte_at(mem, a) as char] + cstr(mem, a + 1)
    }
}

/// Where a jump to instruction `imm` sets the word-granular counter.
pub open spec fn jump_target(imm: i32) -> int {
    ((imm as usize) as int * 2) % (usize::MAX as int + 1)
}

/// The register indices that `ins` reads or writes are all below 32.
pub open spec fn regs_ok(ins: Instruction) -> bool {
    match ins.opcode {
        OpCode::MOV => ins.rd < 32 && ins.rs1 < 32,
        OpCode::ADD | OpCode::SUB | OpCode::MUL | OpCode::DIV | OpCode::AND | OpCode::OR
        | OpCode::XOR => ins.rd < 32 && ins.rs1 < 32 && ins.rs2 < 32,
        OpCode::CMP => ins.rs1 < 32 && ins.rs2 < 32,
        OpCode::LOAD | OpCode::STORE | OpCode::NOT | OpCode::LSL | OpCode::LSR => ins.rd < 32
            && ins.rs1 < 32,
        OpCode::PUSH | OpCode::POP | OpCode::PRINT | OpCode::PRINTC | OpCode::INPUT => ins.rd < 32,
        _ => true,
    }
}

/// The second operand: register `rs2`, or the immediate where `rs2` is 0.
pub open spec fn operand2(m: Machine, ins: Instruction) -> i32 {
    if ins.rs2 != 0 { m.registers[ins.rs2 as int] } else { ins.immediate }
}

/// The address operand: register `rs1`, or the immediate where `rs1` is 0.
pub open spec fn address_of(m: Machine, ins: Instruction) -> usize {
    if ins.rs1 != 0 { m.registers[ins.rs1 as int] as usize } else { ins.immediate as usize }
}

/// `m` with register `r` set to `v`.
pub open spec fn with_reg(m: Machine, r: u8, v: i32) -> Machine {
    Machine { registers: m.registers.update(r as int, v), ..m }
}

/// `m` with the zero and negative flags set from `v`.
pub open spec fn with_flags(m: Machine, v: i32) -> Machine {
    Machine { flags: Flags { zero: v == 0, negative: v < 0, ..m.flags }, ..m }
}

/// `m` with the counter set to `pc`.
pub open spec fn with_pc(m: Machine, pc: int) -> Machine {
    Machine { pc, ..m }
}

/// `m` after a jump to instruction `imm`, taken when `cond` holds.
pub open spec fn jump_if(m: Machine, cond: bool, imm: i32) -> Machine {
    if cond { with_pc(m, jump_target(imm)) } else { m }
}

/// The message of an access beyond memory.
pub open spec fn out_of_bounds_msg(addr: usize, max: nat) -> Seq<char> {
    "Memory access out of bounds: address "@ + nat_digits(addr as nat) + " (max: "@ + nat_digits(max)
        + ")"@
}

/// The message of a shift by 32 or more.
pub open spec fn shift_msg(left: bool, shift: u32) -> Seq<char> {
    (if left { "Invalid left shift: shift amount "@ } else { "Invalid right shift: shift amount "@ })
        + nat_digits(shift as nat) + " >= 32"@
}

/// What executing `ins` does to machine `m`: the next state, or the message
/// of the fault it raises (the state then stays as it was).
pub open spec fn step_spec(m: Machine, ins: Instruction) -> Result<Machine, Seq<char>> {
    let v1 = m.registers[ins.rs1 as int];
    let v2 = operand2(m, ins);
    let rd = ins.rd;
    if !regs_ok(ins) {
        Err("Invalid register in instruction"@)
    } else {
        match ins.opcode {
            OpCode::MOV => Ok(with_reg(m, rd, if ins.rs1 != 0 { v1 } else { ins.immediate })),
            OpCode::ADD => Ok(with_reg(m, rd, wrap32(v1 + v2) as i32)),
            OpCode::SUB => Ok(with_reg(m, rd, wrap32(v1 - v2) as i32)),
            OpCode::MUL => Ok(with_reg(m, rd, wrap32(v1 * v2) as i32)),
            OpCode::DIV => if v2 == 0 {
                Err("Division by zero"@)
            } else {
                let q = wrap32(trunc_div(v1 as int, v2 as int)) as i32;
                Ok(with_flags(with_reg(m, rd, q), q))
            },
            OpCode::CMP => Ok(
                Machine {
                    flags: Flags { zero: v1 == v2, negative: v1 - v2 < 0, ..m.flags },
                    ..m
                },
            ),
            OpCode::JMP => Ok(with_pc(m, jump_target(ins.immediate))),
            OpCode::JEQ => Ok(jump_if(m, m.flags.zero, ins.immediate)),
            OpCode::JNE => Ok(jump_if(m, !m.flags.zero, ins.immediate)),
            OpCode::JLT => Ok(jump_if(m, m.flags.negative, ins.immediate)),
            OpCode::JGT => Ok(jump_if(m, !m.flags.negative && !m.flags.zero, ins.immediate)),
            OpCode::LOAD => {
                let addr = address_of(m, ins);
                if addr >= 4096 {
                    Err(out_of_bounds_msg(addr, 4095))
                } else {
                    Ok(with_reg(m, rd, byte_at(m.memory, addr as int) as i32))
                }
            },
            OpCode::STORE => {
                let addr = address_of(m, ins);
                if addr >= 1024 {
                    Err(out_of_bounds_msg(addr, 1023))
                } else {
                    Ok(Machine { memory: m.memory.update(addr as int, m.registers[rd as int]), ..m })
                }
            },
            OpCode::PUSH => Ok(Machine { stack: m.stack.push(m.registers[rd as int]), ..m }),
            OpCode::POP => if m.stack.len() == 0 {
                Err("Stack underflow: attempted to pop from empty stack"@)
            } else {
                Ok(with_reg(Machine { stack: m.stack.drop_last(), ..m }, rd, m.stack.last()))
            },
            OpCode::CALL => Ok(
                Machine {
                    call_stack: m.call_stack.push(m.pc as usize),
                    stack: m.stack.push(m.pc as i32),
                    pc: jump_target(ins.immediate),
                    ..m
                },
            ),
            OpCode::RET => if m.stack.len() == 0 {
                Err("Stack underflow: attempted to return with empty stack"@)
            } else {
                Ok(
                    Machine {
                        pc: (m.stack.last() as usize) as int,
                        stack: m.stack.drop_last(),
                        call_stack: if m.call_stack.len() > 0 {
                            m.call_stack.drop_last()
                        } else {
                            m.call_stack
                        },
                        ..m
                    },
                )
            },
            OpCode::HALT => Ok(Machine { running: false, ..m }),
            OpCode::NOP => Ok(m),
            OpCode::AND => Ok(with_flags(with_reg(m, rd, v1 & v2), v1 & v2)),
            OpCode::OR => Ok(with_flags(with_reg(m, rd, v1 | v2), v1 | v2)),
            OpCode::XOR => Ok(with_flags(with_reg(m, rd, v1 ^ v2), v1 ^ v2)),
            OpCode::NOT => Ok(with_flags(with_reg(m, rd, !v1), !v1)),
            OpCode::LSL => {
                let s = ins.immediate as u32;
                if s >= 32 {
                    Err(shift_msg(true, s))
                } else {
                    Ok(with_flags(with_reg(m, rd, v1 << s), v1 << s))
                }
            },
            OpCode::LSR => {
                let s = ins.immediate as u32;
                let r = ((v1 as u32) >> s) as i32;
                if s >= 32 {
                    Err(shift_msg(false, s))
                } else {
                    Ok(with_flags(with_reg(m, rd, r), r))
                }
            },
            OpCode::PRINT => Ok(
                Machine { output: m.output + decimal(m.registers[rd as int] as int), ..m },
            ),
            OpCode::PRINTC => {
                if m.registers[rd as int] == 0 {
                    Ok(Machine { output: m.output + cstr(m.memory, 512), ..m })
                } else {
                    Ok(Machine { output: m.output.push((m.registers[rd as int] as u8) as char), ..m })
                }
            },
            OpCode::INPUT => Ok(Machine { pending: Some(ins), ..m }),
        }
    }
}

/// Where the instruction just fetched stands: two words before the counter
/// (0 where the counter is below 2, as before any fetch).
pub open spec fn fault_pc(pc: int) -> int {
    if pc >= 2 { pc - 2 } else { 0 }
}

/// The stack frames of a fault's trace: the faulting instruction, then the
/// instruction at each recorded call site, outermost first.
pub open spec fn call_frames(mem: Seq<i32>, cs: Seq<usize>) -> Seq<(int, Seq<char>)>
    decreases cs.len(),
{
    if cs.len() == 0 {
        seq![]
    } else {
        call_frames(mem, cs.drop_last()) + match decode_at(mem, cs.last() as int) {
            Some(i) => seq![(cs.last() as int, name_of(i.opcode))],
            None => seq![],
        }
    }
}

/// The trace of a fault raised in state `m`.
pub open spec fn trace_spec(m: Machine) -> Seq<(int, Seq<char>)> {
    (match decode_at(m.memory, fault_pc(m.pc)) {
        Some(i) => seq![(fault_pc(m.pc), name_of(i.opcode))],
        None => seq![],
    }) + call_frames(m.memory, m.call_stack)
}

/// Each frame of a trace as its counter and operation name.
pub open spec fn frames_view(f: Seq<StackFrame>) -> Seq<(int, Seq<char>)> {
    f.map_values(|s: StackFrame| (s.pc as int, s.instruction@))
}

/// `e` reports a fault with message `msg` raised by `ins` in state `m`.
pub open spec fn fault_ok(e: RuntimeError, m: Machine, ins: Instruction, msg: Seq<char>) -> bool {
    &&& e.message@ == msg
    &&& e.pc == fault_pc(m.pc)
    &&& e.instruction == ins
    &&& frames_view(e.stack_trace@) == trace_spec(m)
}

/// The result `r` and final state `post` are what `step_spec` gives.
#[verifier::opaque]
pub open spec fn step_post(pre: Machine, ins: Instruction, post: Machine, r: Result<(), RuntimeError>) -> bool {
    match step_spec(pre, ins) {
        Ok(m) => r is Ok && post == m,
        Err(msg) => r matches Err(e) && post == pre && fault_ok(e, pre, ins, msg),
    }
}

/// The state, instruction and message of a fault.
pub type FaultState = (Machine, Instruction, Seq<char>);

/// An instruction can be fetched at the counter (and the counter of
/// executed instructions has room to grow).
pub open spec fn can_fetch(m: Machine) -> bool {
    decode_at(m.memory, m.pc) is Some && m.count < usize::MAX
}

/// The state after a fetch: the counter past the instruction, one more
/// instruction counted.
pub open spec fn fetched(m: Machine) -> Machine {
    Machine { pc: m.pc + 2, count: m.count + 1, ..m }
}

/// The run loop goes on from `m`.
pub open spec fn active(m: Machine) -> bool {
    m.running && m.pending is None && can_fetch(m)
}

/// One fetch-execute cycle from an active state: the next state, or the
/// state, instruction and message of the fault raised.
pub open spec fn cycle(m: Machine) -> Result<Machine, FaultState> {
    let ins = decode_at(m.memory, m.pc).unwrap();
    match step_spec(fetched(m), ins) {
        Ok(n) => Ok(n),
        Err(msg) => Err((fetched(m), ins, msg)),
    }
}

/// The outcome of `n` cycles from `m`; a state that is not active stays.
pub open spec fn steps(m: Machine, n: nat) -> Result<Machine, FaultState>
    decreases n,
{
    if n == 0 {
        Ok(m)
    } else {
        match steps(m, (n - 1) as nat) {
            Ok(k) => if active(k) { cycle(k) } else { Ok(k) },
            Err(f) => Err(f),
        }
    }
}

/// The message of an input line that is an integer beyond 32 bits.
pub open spec fn overflow_msg(v: int) -> Seq<char> {
    "Input integer overflow: "@ + decimal(v)
        + " is outside the range of 32-bit signed integers (-2147483648 to 2147483647)"@
}

/// The message of an input line that is no integer.
pub open spec fn invalid_input_msg(t: Seq<char>) -> Seq<char> {
    "Invalid integer input: '"@ + t + "' is not a valid integer"@
}

/// What supplying the input line `line` (`None`: reading failed) does to a
/// machine waiting on `INPUT`.
pub open spec fn input_spec(m: Machine, line: Option<Seq<char>>) -> Result<Machine, Seq<char>> {
    match m.pending {
        None => Ok(m),
        Some(ins) => match line {
            None => Err("Failed to read input from stdin"@),
            Some(l) => {
                let t = trim(l);
                match parse_int_spec(t, 10, true, i32::MIN as int, i32::MAX as int) {
                    Some(v) => Ok(
                        Machine { pending: None, ..with_reg(m, ins.rd, v as i32) },
                    ),
                    None => match parse_int_spec(t, 10, true, i64::MIN as int, i64::MAX as int) {
                        Some(big) => Err(overflow_msg(big)),
                        None => Err(invalid_input_msg(t)),
                    },
                }
            },
        },
    }
}

/// `n + 1` cycles are `n` cycles and one more.
pub proof fn lemma_steps_unfold(m: Machine, n: nat)
    ensures
        steps(m, n + 1) == match steps(m, n) {
            Ok(k) => if active(k) { cycle(k) } else { Ok(k) },
            Err(f) => Err(f),
        },
{
    assert((n + 1 - 1) as nat == n);
}

/// Bytes `b[i..i + 8]` are all zero.
pub open spec fn zero_chunk(b: Seq<u8>, i: int) -> bool {
    forall|j: int| i <= j < i + 8 ==> b[j] == 0
}

/// The first all-zero 8-byte chunk at or after `i` (a multiple of 8), or
/// 0 when there is none.
pub open spec fn boundary_from(b: Seq<u8>, i: int) -> int
    decreases b.len() - i,
{
    if i < 0 || i + 8 > b.len() {
        0
    } else if zero_chunk(b, i) {
        i
    } else {
        boundary_from(b, i + 8)
    }
}

/// Where an image's data section ends and its start block begins.
pub open spec fn data_boundary(b: Seq<u8>) -> int {
    boundary_from(b, 0)
}

/// The byte at byte address `a` once the data section of `b` is loaded
/// over memory `mem` (bytes past the end of memory are dropped).
pub open spec fn data_byte(mem: Seq<i32>, b: Seq<u8>, a: int) -> u8 {
    if 512 <= a < 512 + data_boundary(b) && a < 4096 {
        b[a - 512]
    } else {
        byte_at(mem, a)
    }
}

/// The word that an instruction record of image `b` puts at word `w`, if
/// a complete record covers it.
pub open spec fn record_word(b: Seq<u8>, w: int) -> Option<i32> {
    let base = data_boundary(b) + 8 + 8 * (w / 2);
    if base + 8 <= b.len() {
        if w % 2 == 0 {
            Some(pack_word(b[base], b[base + 1], b[base + 2], b[base + 3]))
        } else {
            Some(le_i32(b[base + 4], b[base + 5], b[base + 6], b[base + 7]))
        }
    } else {
        None
    }
}

/// The counter that loading image `b` sets, if the image has a start block.
pub open spec fn start_pc(b: Seq<u8>) -> Option<int> {
    let d = data_boundary(b);
    if d + 8 <= b.len() {
        Some(((le_u32(b[d], b[d + 1], b[d + 2], b[d + 3]) as usize) as int * 2) % (usize::MAX as int + 1))
    } else {
        None
    }
}

proof fn lemma_set_byte(w: i32, off: u32, v: u8, off2: u32)
    requires
        off < 4,
        off2 < 4,
    ensures
        ((((w & !(0xFFi32 << (off * 8))) | ((v as i32) << (off * 8))) >> (off2 * 8)) & 0xFF) as u8
            == if off2 == off { v } else { ((w >> (off2 * 8)) & 0xFF) as u8 },
{
    assert(((((w & !(0xFFi32 << (off * 8))) | ((v as i32) << (off * 8))) >> (off2 * 8)) & 0xFF) as u8
        == if off2 == off { v } else { ((w >> (off2 * 8)) & 0xFF) as u8 }) by (bit_vector)
        requires off < 4, off2 < 4;
}

proof fn lemma_cycle_ok(m: Machine, ins: Instruction, post: Machine, r: Result<(), RuntimeError>)
    requires
        active(m),
        decode_at(m.memory, m.pc) == Some(ins),
        step_post(fetched(m), ins, post, r),
        r is Ok,
    ensures
        cycle(m) == Ok::<Machine, FaultState>(post),
{
    reveal(step_post);
}

proof fn lemma_cycle_fault(m: Machine, ins: Instruction, post: Machine, e: RuntimeError)
    requires
        active(m),
        decode_at(m.memory, m.pc) == Some(ins),
        step_post(fetched(m), ins, post, Err(e)),
    ensures
        cycle(m) == Err::<Machine, FaultState>((post, e.instruction, e.message@)),
        fault_ok(e, post, e.instruction, e.message@),
{
    reveal(step_post);
}

/// `x`, an `i64`, reduced to 32 bits as two's complement does.
fn wrap_to_i32(x: i64) -> (r: i32)
    ensures
        r as int == wrap32(x as int),
{
    let u: u64 = (x as i128 + 0x8000_0000_0000_0000i128) as u64;
    let m: u64 = u % 0x1_0000_0000;
    proof {
        lemma_mod_multiples_vanish(0x8000_0000, x as int, 0x1_0000_0000);
        assert(0x1_0000_0000 * 0x8000_0000 == 0x8000_0000_0000_0000);
        assert(m as int == (x as int) % 0x1_0000_0000);
    }
    if m >= 0x8000_0000 {
        (m as i64 - 0x1_0000_0000) as i32
    } else {
        m as i32
    }
}

impl Runtime {
    /// The state of this machine as the contracts see it.
    pub open spec fn state(&self) -> Machine {
        Machine {
            registers: self.registers@,
            memory: self.memory@,
            stack: self.stack@,
            pc: self.pc as int,
            flags: self.flags,
            running: self.running,
            call_stack: self.call_stack@,
            count: self.instruction_count as int,
            output: self.output@,
            pending: self.pending_input,
        }
    }

    /// The register file and memory have their fixed sizes.
    pub open spec fn wf(&self) -> bool {
        &&& self.registers@.len() == 32
        &&& self.memory@.len() == 1024
        &&& self.pending_input matches Some(i) ==> i.opcode is INPUT && i.rd < 32
    }

    /// A fresh machine: registers, memory and flags zero, stacks and output
    /// empty, counter at 0.
    pub fn new() -> (r: Self)
        ensures
            r.wf(),
            r.registers@ == Seq::new(32, |i: int| 0i32),
            r.memory@ == Seq::new(1024, |i: int| 0i32),
            r.stack@.len() == 0,
            r.call_stack@.len() == 0,
            r.output@.len() == 0,
            r.pc == 0,
            r.instruction_count == 0,
            r.running,
            r.pending_input is None,
            r.flags == (Flags { zero: false, negative: false, carry: false, overflow: false }),
    {
        let registers: Vec<i32> = vec![0i32; 32];
        let memory: Vec<i32> = vec![0i32; 1024];
        assert(registers@ =~= Seq::new(32, |i: int| 0i32));
        assert(memory@ =~= Seq::new(1024, |i: int| 0i32));
        Runtime {
            registers,
            memory,
            stack: Vec::new(),
            pc: 0,
            flags: Flags { zero: false, negative: false, carry: false, overflow: false },
            running: true,
            call_stack: Vec::new(),
            instruction_count: 0,
            output: Vec::new(),
            pending_input: None,
        }
    }

    fn set_flags(&mut self, value: i32)
        ensures
            final(self).state() == with_flags(old(self).state(), value),
    {
        self.flags.zero = value == 0;
        self.flags.negative = value < 0;
    }

    fn set_reg(&mut self, r: u8, value: i32)
        requires
            old(self).wf(),
            r < 32,
        ensures
            final(self).wf(),
            final(self).state() == with_reg(old(self).state(), r, value),
    {
        self.registers.set(r as usize, value);
    }

    /// The instruction held by the two words at `pc`, if they hold one.
    pub fn get_instruction_at_pc(&self, pc: usize) -> (r: Option<Instruction>)
        requires
            self.wf(),
        ensures
            r == decode_at(self.memory@, pc as int),
    {
        if pc >= self.memory.len() - 1 {
            return None;
        }
        let word1 = self.memory[pc];
        let word2 = self.memory[pc + 1];
        let opcode = match OpCode::from_u8(((word1 >> 24u32) & 0xFF) as u8) {
            Some(op) => op,
            None => {
                return None;
            },
        };
        Some(
            Instruction {
                opcode,
                rd: ((word1 >> 16u32) & 0xFF) as u8,
                rs1: ((word1 >> 8u32) & 0xFF) as u8,
                rs2: (word1 & 0xFF) as u8,
                immediate: word2,
                label: None,
            },
        )
    }

    fn frame_for(&self, pc: usize, trace: &mut Vec<StackFrame>)
        requires
            self.wf(),
        ensures
            frames_view(final(trace)@) == frames_view(old(trace)@) + match decode_at(
                self.memory@,
                pc as int,
            ) {
                Some(i) => seq![(pc as int, name_of(i.opcode))],
                None => seq![],
            },
    {
        if let Some(ins) = self.get_instruction_at_pc(pc) {
            let name = string_of(&opcode_name(ins.opcode));
            trace.push(StackFrame { pc, instruction: name });
            assert(frames_view(trace@) =~= frames_view(old(trace)@) + seq![(pc as int, name_of(ins.opcode))]);
        } else {
            assert(frames_view(trace@) =~= frames_view(old(trace)@) + seq![]);
        }
    }

    fn fault_counter(&self) -> (r: usize)
        ensures
            r as int == fault_pc(self.pc as int),
    {
        if self.pc >= 2 { self.pc - 2 } else { 0 }
    }

    /// The trace of a fault raised by the instruction just fetched: that
    /// instruction, then each pending call site, outermost first.
    pub fn create_stack_trace(&self) -> (r: Vec<StackFrame>)
        requires
            self.wf(),
        ensures
            frames_view(r@) == trace_spec(self.state()),
    {
        let mut trace: Vec<StackFrame> = Vec::new();
        assert(frames_view(trace@) =~= seq![]);
        self.frame_for(self.fault_counter(), &mut trace);
        let ghost first = frames_view(trace@);
        let mut i: usize = 0;
        while i < self.call_stack.len()
            invariant
                self.wf(),
                i <= self.call_stack@.len(),
                frames_view(trace@) == first + call_frames(self.memory@, self.call_stack@.subrange(0, i as int)),
            decreases self.call_stack@.len() - i,
        {
            self.frame_for(self.call_stack[i], &mut trace);
            proof {
                let cs = self.call_stack@.subrange(0, i + 1);
                assert(cs.drop_last() == self.call_stack@.subrange(0, i as int));
                assert(cs.last() == self.call_stack@[i as int]);
                assert(frames_view(trace@) =~= first + call_frames(self.memory@, cs));
            }
            i = i + 1;
        }
        assert(self.call_stack@.subrange(0, i as int) == self.call_stack@);
        trace
    }

    /// A fault raised by `instruction`, the one just fetched.
    pub fn runtime_error(&self, message: Vec<char>, instruction: Instruction) -> (r: RuntimeError)
        requires
            self.wf(),
        ensures
            fault_ok(r, self.state(), instruction, message@),
    {
        RuntimeError::new(string_of(&message), self.fault_counter(), instruction, self.create_stack_trace())
    }
}

/// Appends the characters of `s` to `out`.
pub fn push_str(out: &mut Vec<char>, s: &str)
    ensures
        final(out)@ == old(out)@ + s@,
{
    let n = s.unicode_len();
    let mut i: usize = 0;
    while i < n
        invariant
            n == s@.len(),
            i <= n,
            out@ == old(out)@ + s@.subrange(0, i as int),
        decreases n - i,
    {
        out.push(s.get_char(i));
        i = i + 1;
        assert(out@ =~= old(out)@ + s@.subrange(0, i as int));
    }
    assert(s@.subrange(0, n as int) == s@);
}

fn out_of_bounds_message(addr: usize, max: u64) -> (r: Vec<char>)
    ensures
        r@ == out_of_bounds_msg(addr, max as nat),
{
    let mut r: Vec<char> = Vec::new();
    push_str(&mut r, "Memory access out of bounds: address ");
    push_nat_digits(&mut r, addr as u64);
    push_str(&mut r, " (max: ");
    push_nat_digits(&mut r, max);
    push_str(&mut r, ")");
    assert(r@ =~= out_of_bounds_msg(addr, max as nat));
    r
}

fn shift_message(left: bool, shift: u32) -> (r: Vec<char>)
    ensures
        r@ == shift_msg(left, shift),
{
    let mut r: Vec<char> = Vec::new();
    if left {
        push_str(&mut r, "Invalid left shift: shift amount ");
    } else {
        push_str(&mut r, "Invalid right shift: shift amount ");
    }
    push_nat_digits(&mut r, shift as u64);
    push_str(&mut r, " >= 32");
    assert(r@ =~= shift_msg(left, shift));
    r
}

fn regs_valid(ins: &Instruction) -> (r: bool)
    ensures
        r == regs_ok(*ins),
{
    match ins.opcode {
        OpCode::MOV => ins.rd < 32 && ins.rs1 < 32,
        OpCode::ADD | OpCode::SUB | OpCode::MUL | OpCode::DIV | OpCode::AND | OpCode::OR
        | OpCode::XOR => ins.rd < 32 && ins.rs1 < 32 && ins.rs2 < 32,
        OpCode::CMP => ins.rs1 < 32 && ins.rs2 < 32,
        OpCode::LOAD | OpCode::STORE | OpCode::NOT | OpCode::LSL | OpCode::LSR => ins.rd < 32
            && ins.rs1 < 32,
        OpCode::PUSH | OpCode::POP | OpCode::PRINT | OpCode::PRINTC | OpCode::INPUT => ins.rd < 32,
        _ => true,
    }
}

fn jump_to(imm: i32) -> (r: usize)
    ensures
        r as int == jump_target(imm),
{
    (imm as usize).wrapping_mul(2)
}

impl Runtime {
    fn operand2_value(&self, ins: &Instruction) -> (r: i32)
        requires
            self.wf(),
            ins.rs2 < 32,
        ensures
            r == operand2(self.state(), *ins),
    {
        if ins.rs2 != 0 { self.registers[ins.rs2 as usize] } else { ins.immediate }
    }

    fn address_value(&self, ins: &Instruction) -> (r: usize)
        requires
            self.wf(),
            ins.rs1 < 32,
        ensures
            r == address_of(self.state(), *ins),
    {
        if ins.rs1 != 0 { self.registers[ins.rs1 as usize] as usize } else { ins.immediate as usize }
    }

    fn exec_arith(&mut self, ins: Instruction) -> (r: Result<(), RuntimeError>)
        requires
            old(self).wf(),
            regs_ok(ins),
            ins.opcode is ADD || ins.opcode is SUB || ins.opcode is MUL || ins.opcode is DIV
                || ins.opcode is CMP,
        ensures
            final(self).wf(),
            step_post(old(self).state(), ins, final(self).state(), r),
    {
        reveal(step_post);
        let v1 = self.registers[ins.rs1 as usize];
        let v2 = self.operand2_value(&ins);
        match ins.opcode {
            OpCode::ADD => {
                let v = wrap_to_i32(v1 as i64 + v2 as i64);
                self.set_reg(ins.rd, v);
            },
            OpCode::SUB => {
                let v = wrap_to_i32(v1 as i64 - v2 as i64);
                self.set_reg(ins.rd, v);
            },
            OpCode::MUL => {
                assert(-0x4000_0000_0000_0000 <= v1 * v2 <= 0x4000_0000_0000_0000) by (nonlinear_arith)
                    requires -0x8000_0000 <= v1 < 0x8000_0000, -0x8000_0000 <= v2 < 0x8000_0000;
                let v = wrap_to_i32(v1 as i64 * v2 as i64);
                self.set_reg(ins.rd, v);
            },
            OpCode::DIV => {
                if v2 == 0 {
                    return Err(self.runtime_error(chars_of("Division by zero"), ins));
                }
                let a: u64 = if v1 < 0 { (0 - v1 as i64) as u64 } else { v1 as u64 };
                let b: u64 = if v2 < 0 { (0 - v2 as i64) as u64 } else { v2 as u64 };
                let q: u64 = a / b;
                assert(q <= a) by (nonlinear_arith)
                    requires q == a / b, b > 0;
                let sq: i64 = if (v1 < 0) == (v2 < 0) { q as i64 } else { 0 - q as i64 };
                let v = wrap_to_i32(sq);
                self.set_reg(ins.rd, v);
                self.set_flags(v);
            },
            _ => {
                self.flags.zero = v1 == v2;
                self.flags.negative = (v1 as i64 - v2 as i64) < 0;
            },
        }
        Ok(())
    }

    fn exec_control(&mut self, ins: Instruction) -> (r: Result<(), RuntimeError>)
        requires
            old(self).wf(),
            regs_ok(ins),
            ins.opcode is JMP || ins.opcode is JEQ || ins.opcode is JNE || ins.opcode is JLT
                || ins.opcode is JGT || ins.opcode is CALL || ins.opcode is RET
                || ins.opcode is HALT || ins.opcode is NOP,
        ensures
            final(self).wf(),
            step_post(old(self).state(), ins, final(self).state(), r),
    {
        reveal(step_post);
        match ins.opcode {
            OpCode::JMP => {
                self.pc = jump_to(ins.immediate);
            },
            OpCode::JEQ => {
                if self.flags.zero {
                    self.pc = jump_to(ins.immediate);
                }
            },
            OpCode::JNE => {
                if !self.flags.zero {
                    self.pc = jump_to(ins.immediate);
                }
            },
            OpCode::JLT => {
                if self.flags.negative {
                    self.pc = jump_to(ins.immediate);
                }
            },
            OpCode::JGT => {
                if !self.flags.negative && !self.flags.zero {
                    self.pc = jump_to(ins.immediate);
                }
            },
            OpCode::CALL => {
                self.call_stack.push(self.pc);
                self.stack.push(self.pc as i32);
                self.pc = jump_to(ins.immediate);
            },
            OpCode::RET => {
                if self.stack.len() == 0 {
                    return Err(
                        self.runtime_error(
                            chars_of("Stack underflow: attempted to return with empty stack"),
                            ins,
                        ),
                    );
                }
                let addr = self.stack.pop().unwrap();
                self.pc = addr as usize;
                if self.call_stack.len() > 0 {
                    self.call_stack.pop();
                }
            },
            OpCode::HALT => {
                self.running = false;
            },
            _ => {},
        }
        Ok(())
    }

    fn exec_memory(&mut self, ins: Instruction) -> (r: Result<(), RuntimeError>)
        requires
            old(self).wf(),
            regs_ok(ins),
            ins.opcode is LOAD || ins.opcode is STORE || ins.opcode is PUSH || ins.opcode is POP,
        ensures
            final(self).wf(),
            step_post(old(self).state(), ins, final(self).state(), r),
    {
        reveal(step_post);
        match ins.opcode {
            OpCode::LOAD => {
                let addr = self.address_value(&ins);
                if addr >= MEMORY_BYTES {
                    return Err(self.runtime_error(out_of_bounds_message(addr, 4095), ins));
                }
                let word = self.memory[addr / 4];
                let byte = ((word >> (((addr % 4) * 8) as u32)) & 0xFF) as u8;
                self.set_reg(ins.rd, byte as i32);
            },
            OpCode::STORE => {
                let addr = self.address_value(&ins);
                if addr >= MEMORY_WORDS {
                    return Err(self.runtime_error(out_of_bounds_message(addr, 1023), ins));
                }
                let v = self.registers[ins.rd as usize];
                self.memory.set(addr, v);
            },
            OpCode::PUSH => {
                let v = self.registers[ins.rd as usize];
                self.stack.push(v);
            },
            _ => {
                if self.stack.len() == 0 {
                    return Err(
                        self.runtime_error(
                            chars_of("Stack underflow: attempted to pop from empty stack"),
                            ins,
                        ),
                    );
                }
                let v = self.stack.pop().unwrap();
                self.set_reg(ins.rd, v);
            },
        }
        Ok(())
    }

    fn exec_logic(&mut self, ins: Instruction) -> (r: Result<(), RuntimeError>)
        requires
            old(self).wf(),
            regs_ok(ins),
            ins.opcode is AND || ins.opcode is OR || ins.opcode is XOR || ins.opcode is NOT
                || ins.opcode is LSL || ins.opcode is LSR,
        ensures
            final(self).wf(),
            step_post(old(self).state(), ins, final(self).state(), r),
    {
        reveal(step_post);
        let v1 = self.registers[ins.rs1 as usize];
        let result: i32 = match ins.opcode {
            OpCode::AND => v1 & self.operand2_value(&ins),
            OpCode::OR => v1 | self.operand2_value(&ins),
            OpCode::XOR => v1 ^ self.operand2_value(&ins),
            OpCode::NOT => !v1,
            OpCode::LSL => {
                let shift = ins.immediate as u32;
                if shift >= 32 {
                    return Err(self.runtime_error(shift_message(true, shift), ins));
                }
                v1 << shift
            },
            _ => {
                let shift = ins.immediate as u32;
                if shift >= 32 {
                    return Err(self.runtime_error(shift_message(false, shift), ins));
                }
                ((v1 as u32) >> shift) as i32
            },
        };
        self.set_reg(ins.rd, result);
        self.set_flags(result);
        Ok(())
    }

    fn print_data_string(&mut self)
        requires
            old(self).wf(),
        ensures
            final(self).wf(),
            final(self).state() == (Machine {
                output: old(self).state().output + cstr(old(self).memory@, 512),
                ..old(self).state()
            }),
    {
        let mut addr: usize = DATA_BASE;
        let mut stop = false;
        while !stop && addr < MEMORY_BYTES
            invariant
                self.wf(),
                512 <= addr <= 4096,
                self.memory@ == old(self).memory@,
                self.state() == (Machine { output: self.output@, ..old(self).state() }),
                self.output@ + cstr(self.memory@, addr as int) == old(self).output@ + cstr(
                    self.memory@,
                    512,
                ),
                stop ==> cstr(self.memory@, addr as int) == Seq::<char>::empty(),
            decreases 4096 - addr, if stop { 0int } else { 1int },
        {
            let word = self.memory[addr / 4];
            let byte = ((word >> (((addr % 4) * 8) as u32)) & 0xFF) as u8;
            if byte == 0 {
                assert(byte_at(self.memory@, addr as int) == 0);
                assert(cstr(self.memory@, addr as int) =~= seq![]);
                stop = true;
            } else {
                let ghost before = self.output@;
                self.output.push(byte as char);
                assert(self.output@ + cstr(self.memory@, addr + 1) =~= before + cstr(self.memory@, addr as int));
                addr = addr + 1;
            }
        }
        assert(cstr(self.memory@, addr as int) =~= seq![]);
        assert(self.output@ =~= old(self).output@ + cstr(self.memory@, 512));
    }

    fn exec_io(&mut self, ins: Instruction) -> (r: Result<(), RuntimeError>)
        requires
            old(self).wf(),
            regs_ok(ins),
            ins.opcode is MOV || ins.opcode is PRINT || ins.opcode is PRINTC || ins.opcode is INPUT,
        ensures
            final(self).wf(),
            step_post(old(self).state(), ins, final(self).state(), r),
    {
        reveal(step_post);
        match ins.opcode {
            OpCode::MOV => {
                let v = if ins.rs1 != 0 { self.registers[ins.rs1 as usize] } else { ins.immediate };
                self.set_reg(ins.rd, v);
            },
            OpCode::PRINT => {
                let v = self.registers[ins.rd as usize];
                push_decimal(&mut self.output, v as i64);
            },
            OpCode::PRINTC => {
                let v = self.registers[ins.rd as usize];
                if v == 0 {
                    self.print_data_string();
                } else {
                    self.output.push((v as u8) as char);
                }
            },
            _ => {
                self.pending_input = Some(ins);
            },
        }
        Ok(())
    }

    /// Loads an image: data bytes at byte address 512, the start index as
    /// the counter, and each instruction record as two words from word 0.
    pub fn load_program(&mut self, bytecode: &[u8])
        requires
            old(self).wf(),
        ensures
            final(self).wf(),
            final(self).state() == (Machine {
                memory: final(self).memory@,
                pc: final(self).pc as int,
                ..old(self).state()
            }),
            final(self).pc as int == match start_pc(bytecode@) {
                Some(p) => p,
                None => old(self).pc as int,
            },
            forall|w: int|
                0 <= w < 1024 && (#[trigger] record_word(bytecode@, w)) is Some
                    ==> final(self).memory@[w] == record_word(bytecode@, w).unwrap(),
            forall|a: int|
                0 <= a < 4096 && record_word(bytecode@, a / 4) is None ==> #[trigger] byte_at(
                    final(self).memory@,
                    a,
                ) == data_byte(old(self).memory@, bytecode@, a),
    {
        let n = bytecode.len();
        let ghost b = bytecode@;
        let mut data_end: usize = 0;
        let mut i: usize = 0;
        let mut found = false;
        while !found && n >= 8 && i <= n - 8
            invariant
                n == b.len(),
                b == bytecode@,
                i % 8 == 0,
                !found ==> data_end == 0,
                !found ==> boundary_from(b, 0) == boundary_from(b, i as int),
                found ==> data_end == boundary_from(b, 0),
                data_end <= n,
            decreases n - i, if found { 0int } else { 1int },
        {
            let mut zero = true;
            let mut j: usize = 0;
            while j < 8
                invariant
                    i + 8 <= n == b.len(),
                    b == bytecode@,
                    j <= 8,
                    zero == (forall|q: int| i <= q < i + j ==> b[q] == 0),
                decreases 8 - j,
            {
                if bytecode[i + j] != 0 {
                    zero = false;
                }
                j = j + 1;
            }
            if zero {
                data_end = i;
                found = true;
            } else {
                i = i + 8;
            }
        }
        proof {
            if !found {
                assert(boundary_from(b, i as int) == 0);
            }
        }
        let ghost de = data_end as int;
        assert(de == data_boundary(b));
        let ghost mem0 = self.memory@;
        let mut k: usize = 0;
        while k < data_end
            invariant
                self.wf(),
                data_end <= n == b.len(),
                b == bytecode@,
                de == data_end,
                de == data_boundary(b),
                k <= data_end,
                self.state() == (Machine { memory: self.memory@, ..old(self).state() }),
                mem0 == old(self).memory@,
                forall|a: int|
                    0 <= a < 4096 ==> #[trigger] byte_at(self.memory@, a) == if 512 <= a < 512 + k
                        && a < 4096 {
                        b[a - 512]
                    } else {
                        byte_at(mem0, a)
                    },
            decreases data_end - k,
        {
            if k < MEMORY_BYTES - DATA_BASE {
                let addr = (k + 512) / 4;
                let offset = (k + 512) % 4;
                let current = self.memory[addr];
                let sh = (offset * 8) as u32;
                let mask = !(0xFFi32 << sh);
                let new_val = (current & mask) | ((bytecode[k] as i32) << sh);
                let ghost before = self.memory@;
                self.memory.set(addr, new_val);
                proof {
                    assert forall|a: int| 0 <= a < 4096 implies #[trigger] byte_at(self.memory@, a)
                        == if 512 <= a < 512 + k + 1 && a < 4096 {
                        b[a - 512]
                    } else {
                        byte_at(mem0, a)
                    } by {
                        if a / 4 == addr as int {
                            lemma_set_byte(current, offset as u32, bytecode@[k as int], (a % 4) as u32);
                            assert(((a % 4) * 8) as u32 == (a % 4) as u32 * 8);
                            assert((a == k + 512) == (a % 4 == offset as int));
                            assert(byte_at(before, a) == ((current >> (((a % 4) * 8) as u32)) & 0xFF) as u8);
                        } else {
                            assert(byte_at(self.memory@, a) == byte_at(before, a));
                        }
                    }
                }
            } else {
                assert forall|a: int| 0 <= a < 4096 implies #[trigger] byte_at(self.memory@, a)
                    == if 512 <= a < 512 + k + 1 && a < 4096 {
                    b[a - 512]
                } else {
                    byte_at(mem0, a)
                } by {}
            }
            k = k + 1;
        }
        assert forall|a: int| 0 <= a < 4096 implies #[trigger] byte_at(self.memory@, a) == data_byte(
            old(self).memory@,
            b,
            a,
        ) by {}
        if n >= 8 && data_end <= n - 8 {
            let start = read_le_u32(bytecode, data_end);
            self.pc = (start as usize).wrapping_mul(2);
            let ghost memd = self.memory@;
            let base = data_end + 8;
            let mut r: usize = 0;
            while r < 512 && 8 * r + 8 <= n - base
                invariant
                    self.wf(),
                    n == b.len(),
                    b == bytecode@,
                    base <= n,
                    memd.len() == 1024,
                    forall|a: int|
                        0 <= a < 4096 ==> #[trigger] byte_at(memd, a) == data_byte(old(self).memory@, b, a),
                    base == de + 8,
                    de == data_boundary(b),
                    r <= 512,
                    self.state() == (Machine { memory: self.memory@, pc: self.pc as int, ..old(self).state() }),
                    self.pc as int == start_pc(b).unwrap(),
                    start_pc(b) is Some,
                    forall|w: int| 0 <= w < 2 * r ==> (#[trigger] record_word(b, w)) is Some
                        && self.memory@[w] == record_word(b, w).unwrap(),
                    forall|w: int| 2 * r <= w < 1024 ==> #[trigger] self.memory@[w] == memd[w],
                decreases 512 - r,
            {
                let at = base + 8 * r;
                let w0 = pack(bytecode[at], bytecode[at + 1], bytecode[at + 2], bytecode[at + 3]);
                let w1 = read_le_i32(bytecode, at + 4);
                self.memory.set(2 * r, w0);
                self.memory.set(2 * r + 1, w1);
                proof {
                    assert(record_word(b, 2 * r as int) == Some(w0)) by {
                        assert((2 * r as int) / 2 == r);
                    }
                    assert(record_word(b, 2 * r + 1) == Some(w1)) by {
                        assert((2 * r + 1) / 2 == r as int);
                    }
                }
                r = r + 1;
            }
            proof {
                assert forall|w: int| 2 * r <= w < 1024 implies (#[trigger] record_word(b, w)) is None by {
                    assert(w / 2 >= r);
                }
                assert forall|a: int| 0 <= a < 4096 && record_word(b, a / 4) is None implies
                    #[trigger] byte_at(self.memory@, a) == data_byte(old(self).memory@, b, a) by {
                    if a / 4 < 2 * r {
                        assert(record_word(b, a / 4) is Some);
                    }
                    assert(self.memory@[a / 4] == memd[a / 4]);
                    assert(byte_at(memd, a) == data_byte(old(self).memory@, b, a));
                }
            }
        } else {
            proof {
                assert forall|w: int| 0 <= w < 1024 implies (#[trigger] record_word(b, w)) is None by {}
            }
        }
    }

    /// Fetches the instruction at the counter and moves past it; `None`
    /// where the counter is past memory or the opcode byte is unknown.
    fn fetch(&mut self) -> (r: Option<Instruction>)
        requires
            old(self).wf(),
            old(self).pending_input is None,
        ensures
            final(self).wf(),
            final(self).pending_input is None,
            can_fetch(old(self).state()) ==> r == decode_at(old(self).memory@, old(self).pc as int)
                && final(self).state() == fetched(old(self).state()),
            !can_fetch(old(self).state()) ==> r is None && final(self).state() == old(self).state(),
    {
        if self.instruction_count == usize::MAX {
            return None;
        }
        match self.get_instruction_at_pc(self.pc) {
            None => None,
            Some(ins) => {
                self.pc = self.pc + 2;
                self.instruction_count = self.instruction_count + 1;
                Some(ins)
            },
        }
    }

    /// Runs fetch-execute cycles until `HALT`, a failed fetch, an `INPUT`
    /// that waits for its line, or a fault.
    pub fn run(&mut self) -> (r: Result<(), RuntimeError>)
        requires
            old(self).wf(),
        ensures
            final(self).wf(),
            r is Ok ==> exists|n: nat|
                #[trigger] steps(old(self).state(), n) == Ok::<Machine, FaultState>(final(self).state()) && !active(
                    final(self).state(),
                ),
            r matches Err(e) ==> exists|n: nat|
                #[trigger] steps(old(self).state(), n) == Err::<Machine, FaultState>(
                    (final(self).state(), e.instruction, e.message@),
                ) && fault_ok(e, final(self).state(), e.instruction, e.message@),
    {
        let ghost start = self.state();
        let ghost mut k: nat = 0;
        while self.running && self.pending_input.is_none()
            invariant
                self.wf(),
                start == old(self).state(),
                steps(start, k) == Ok::<Machine, FaultState>(self.state()),
            decreases usize::MAX - self.instruction_count,
        {
            let ghost before = self.state();
            proof {
                lemma_steps_unfold(start, k);
                assert(steps(start, k + 1) == if active(before) { cycle(before) } else { Ok(before) });
            }
            match self.fetch() {
                None => {
                    assert(!active(before));
                    assert(steps(old(self).state(), k) == Ok::<Machine, FaultState>(self.state()));
                    return Ok(());
                },
                Some(ins) => {
                    let ghost fetched_ins = ins;
                    let r = self.execute(ins);
                    proof {
                        k = k + 1;
                    }
                    proof {
                        if r is Ok {
                            lemma_cycle_ok(before, fetched_ins, self.state(), r);
                        }
                    }
                    match r {
                        Err(e) => {
                            proof {
                                lemma_cycle_fault(before, fetched_ins, self.state(), e);
                            }
                            assert(steps(old(self).state(), k) == Err::<Machine, FaultState>(
                                (self.state(), e.instruction, e.message@),
                            ));
                            return Err(e);
                        },
                        Ok(()) => {},
                    }
                },
            }
        }
        assert(steps(old(self).state(), k) == Ok::<Machine, FaultState>(self.state()));
        Ok(())
    }

    /// Runs one fetch-execute cycle, if the machine is active; returns
    /// whether it is still active afterwards.
    pub fn debug_step(&mut self) -> (r: Result<bool, RuntimeError>)
        requires
            old(self).wf(),
        ensures
            final(self).wf(),
            !active(old(self).state()) ==> r == Ok::<bool, RuntimeError>(false) && final(self).state()
                == old(self).state(),
            active(old(self).state()) ==> match cycle(old(self).state()) {
                Ok(m) => r == Ok::<bool, RuntimeError>(active(m)) && final(self).state() == m,
                Err(f) => r matches Err(e) && f == (final(self).state(), e.instruction, e.message@)
                    && fault_ok(e, final(self).state(), e.instruction, e.message@),
            },
    {
        let ghost before = self.state();
        if !self.running || self.pending_input.is_some() {
            return Ok(false);
        }
        match self.fetch() {
            None => Ok(false),
            Some(ins) => {
                let ghost fetched_ins = ins;
                let r = self.execute(ins);
                match r {
                    Err(e) => {
                        proof {
                            lemma_cycle_fault(before, fetched_ins, self.state(), e);
                        }
                        Err(e)
                    },
                    Ok(()) => {
                        proof {
                            lemma_cycle_ok(before, fetched_ins, self.state(), r);
                        }
                        let more = self.running && self.pending_input.is_none() && self.instruction_count
                            < usize::MAX && self.get_instruction_at_pc(self.pc).is_some();
                        Ok(more)
                    },
                }
            },
        }
    }

    /// Hands the machine the line that a waiting `INPUT` asked for (`None`:
    /// reading it failed). The line, trimmed, must be a 32-bit integer.
    pub fn supply_input(&mut self, line: Option<&str>) -> (r: Result<(), RuntimeError>)
        requires
            old(self).wf(),
        ensures
            final(self).wf(),
            match (input_spec(old(self).state(), match line { Some(l) => Some(l@), None => None })) {
                Ok(m) => r is Ok && final(self).state() == m,
                Err(msg) => r matches Err(e) && final(self).state() == (Machine {
                    pending: None,
                    ..old(self).state()
                }) && fault_ok(e, final(self).state(), old(self).pending_input.unwrap(), msg),
            },
    {
        let ins = match self.pending_input.take() {
            None => {
                return Ok(());
            },
            Some(i) => i,
        };
        let text = match line {
            None => {
                return Err(self.runtime_error(chars_of("Failed to read input from stdin"), ins));
            },
            Some(l) => chars_of(l),
        };
        let t = trim_range(&text, 0, text.len());
        assert(text@.subrange(0, text@.len() as int) == text@);
        assert(t@.subrange(0, t@.len() as int) == t@);
        match parse_int(&t, 0, 10, true, i32::MIN as i64, i32::MAX as i64) {
            Some(v) => {
                self.registers.set(ins.rd as usize, v as i32);
                Ok(())
            },
            None => match parse_int(&t, 0, 10, true, i64::MIN, i64::MAX) {
                Some(big) => {
                    let mut msg: Vec<char> = Vec::new();
                    push_str(&mut msg, "Input integer overflow: ");
                    push_decimal(&mut msg, big);
                    push_str(
                        &mut msg,
                        " is outside the range of 32-bit signed integers (-2147483648 to 2147483647)",
                    );
                    assert(msg@ =~= overflow_msg(big as int));
                    Err(self.runtime_error(msg, ins))
                },
                None => {
                    let mut msg: Vec<char> = Vec::new();
                    push_str(&mut msg, "Invalid integer input: '");
                    let mut i: usize = 0;
                    while i < t.len()
                        invariant
                            i <= t@.len(),
                            msg@ == "Invalid integer input: '"@ + t@.subrange(0, i as int),
                        decreases t@.len() - i,
                    {
                        msg.push(t[i]);
                        i = i + 1;
                        assert(msg@ =~= "Invalid integer input: '"@ + t@.subrange(0, i as int));
                    }
                    push_str(&mut msg, "' is not a valid integer");
                    assert(msg@ =~= invalid_input_msg(t@));
                    Err(self.runtime_error(msg, ins))
                },
            },
        }
    }

    /// Executes one decoded instruction, the one just fetched.
    pub fn execute(&mut self, instruction: Instruction) -> (r: Result<(), RuntimeError>)
        requires
            old(self).wf(),
        ensures
            final(self).wf(),
            step_post(old(self).state(), instruction, final(self).state(), r),
    {
        reveal(step_post);
        if !regs_valid(&instruction) {
            return Err(self.runtime_error(chars_of("Invalid register in instruction"), instruction));
        }
        match instruction.opcode {
            OpCode::ADD | OpCode::SUB | OpCode::MUL | OpCode::DIV | OpCode::CMP => self.exec_arith(
                instruction,
            ),
            OpCode::JMP | OpCode::JEQ | OpCode::JNE | OpCode::JLT | OpCode::JGT | OpCode::CALL
            | OpCode::RET | OpCode::HALT | OpCode::NOP => self.exec_control(instruction),
            OpCode::LOAD | OpCode::STORE | OpCode::PUSH | OpCode::POP => self.exec_memory(
                instruction,
            ),
            OpCode::AND | OpCode::OR | OpCode::XOR | OpCode::NOT | OpCode::LSL | OpCode::LSR => {
                self.exec_logic(instruction)
            },
            OpCode::MOV | OpCode::PRINT | OpCode::PRINTC | OpCode::INPUT => self.exec_io(
                instruction,
            ),
        }
    }
}

/// The name of an operation.
pub fn opcode_name(op: OpCode) -> (r: Vec<char>)
    ensures
        r@ == name_of(op),
{
    match op {
        OpCode::MOV => chars_of("MOV"),
        OpCode::ADD => chars_of("ADD"),
        OpCode::SUB => chars_of("SUB"),
        OpCode::MUL => chars_of("MUL"),
        OpCode::DIV => chars_of("DIV"),
        OpCode::CMP => chars_of("CMP"),
        OpCode::JMP => chars_of("JMP"),
        OpCode::JEQ => chars_of("JEQ"),
        OpCode::JNE => chars_of("JNE"),
        OpCode::JLT => chars_of("JLT"),
        OpCode::JGT => chars_of("JGT"),
        OpCode::LOAD => chars_of("LOAD"),
        OpCode::STORE => chars_of("STORE"),
        OpCode::PUSH => chars_of("PUSH"),
        OpCode::POP => chars_of("POP"),
        OpCode::CALL => chars_of("CALL"),
        OpCode::RET => chars_of("RET"),
        OpCode::HALT => chars_of("HALT"),
        OpCode::NOP => chars_of("NOP"),
        OpCode::AND => chars_of("AND"),
        OpCode::OR => chars_of("OR"),
        OpCode::XOR => chars_of("XOR"),
        OpCode::NOT => chars_of("NOT"),
        OpCode::LSL => chars_of("LSL"),
        OpCode::LSR => chars_of("LSR"),
        OpCode::PRINT => chars_of("PRINT"),
        OpCode::PRINTC => chars_of("PRINTC"),
        OpCode::INPUT => chars_of("INPUT"),
    }
}

} // verus!
