//! Properties that relate several operations of the machine and the
//! assembler, proved over their specifications.

use vstd::prelude::*;
use crate::assembler::{
    AsmState, InsView, Section, here, image_spec, line_step, lookup, padding, records, resolve_spec,
    wrap_usize,
};
use crate::codec::{le_bytes, lemma_record_round_trip, record_bytes};
use crate::opcodes::code_of;
use crate::lexer::{find_first, has_ws, starts_with};
use crate::text::{is_ws, trim};
use crate::opcodes::OpCode;
use crate::runtime_error::RuntimeError;
use crate::runtime::{
    boundary_from, decode_at, fault_ok, record_word, step_post, trunc_div, with_flags, zero_chunk,
    Machine, Instruction, step_spec, regs_ok, operand2, wrap32, with_reg, byte_at, cstr,
    jump_target,
};

verus! {

proof fn lemma_resolve_shape(ins: Seq<InsView>, labels: Seq<(Seq<char>, int)>, lines: Seq<int>, n: nat)
    requires
        n <= ins.len(),
        resolve_spec(ins, labels, lines, n) is Ok,
    ensures
        resolve_spec(ins, labels, lines, n)->Ok_0.len() == n,
        forall|i: int|
            0 <= i < n ==> #[trigger] resolve_spec(ins, labels, lines, n)->Ok_0[i] == match ins[i].5 {
                None => ins[i],
                Some(l) => (
                    ins[i].0,
                    ins[i].1,
                    ins[i].2,
                    ins[i].3,
                    lookup(labels, l).unwrap() as i32,
                    None,
                ),
            },
    decreases n,
{
    if n > 0 {
        lemma_resolve_shape(ins, labels, lines, (n - 1) as nat);
    }
}

/// Label references resolve by name alone: every instruction that names
/// the same label gets the same address, that label's entry in the table,
/// wherever the reference stands relative to the definition.
pub proof fn lemma_labels_resolve_by_name(
    ins: Seq<InsView>,
    labels: Seq<(Seq<char>, int)>,
    lines: Seq<int>,
    i: int,
    j: int,
    l: Seq<char>,
)
    requires
        resolve_spec(ins, labels, lines, ins.len()) is Ok,
        0 <= i < ins.len(),
        0 <= j < ins.len(),
        ins[i].5 == Some(l),
        ins[j].5 == Some(l),
    ensures
        lookup(labels, l) is Some,
        resolve_spec(ins, labels, lines, ins.len())->Ok_0[i].4 == lookup(labels, l).unwrap() as i32,
        resolve_spec(ins, labels, lines, ins.len())->Ok_0[i].4 == resolve_spec(ins, labels, lines, ins.len())->Ok_0[j].4,
        resolve_spec(ins, labels, lines, ins.len())->Ok_0[i].5 is None,
{
    lemma_resolve_defined(ins, labels, lines, ins.len(), i);
    lemma_resolve_shape(ins, labels, lines, ins.len());
    let r = resolve_spec(ins, labels, lines, ins.len())->Ok_0;
    assert(r[i] == resolve_spec(ins, labels, lines, ins.len())->Ok_0[i]);
    assert(r[j] == resolve_spec(ins, labels, lines, ins.len())->Ok_0[j]);
}

proof fn lemma_resolve_defined(ins: Seq<InsView>, labels: Seq<(Seq<char>, int)>, lines: Seq<int>, n: nat, i: int)
    requires
        n <= ins.len(),
        resolve_spec(ins, labels, lines, n) is Ok,
        0 <= i < n,
        ins[i].5 is Some,
    ensures
        lookup(labels, ins[i].5.unwrap()) is Some,
    decreases n,
{
    if i < n - 1 {
        lemma_resolve_defined(ins, labels, lines, (n - 1) as nat, i);
    }
}

/// `ADD`, `SUB` and `MUL`, as `Runtime::execute` performs them, leave in
/// the destination the exact result reduced to 32 bits, which always lies
/// in the range of `i32` and differs from the exact result by a multiple of
/// 2^32; nothing else changes and they never fault on valid registers.
pub proof fn lemma_arithmetic_wraps(pre: Machine, ins: Instruction, post: Machine, r: Result<(), RuntimeError>)
    requires
        step_post(pre, ins, post, r),
        ins.opcode is ADD || ins.opcode is SUB || ins.opcode is MUL,
    ensures
        !regs_ok(ins) ==> r is Err && post == pre,
        regs_ok(ins) ==> ({
            let a = pre.registers[ins.rs1 as int] as int;
            let b = operand2(pre, ins) as int;
            let exact = if ins.opcode is ADD { a + b } else if ins.opcode is SUB { a - b } else { a * b };
            &&& r is Ok
            &&& post == with_reg(pre, ins.rd, wrap32(exact) as i32)
            &&& -0x8000_0000 <= wrap32(exact) < 0x8000_0000
            &&& (wrap32(exact) - exact) % 0x1_0000_0000 == 0
        }),
{
    reveal(step_post);
    let a = pre.registers[ins.rs1 as int] as int;
    let b = operand2(pre, ins) as int;
    let exact = if ins.opcode is ADD { a + b } else if ins.opcode is SUB { a - b } else { a * b };
    let q = exact / 0x1_0000_0000;
    assert(exact == q * 0x1_0000_0000 + exact % 0x1_0000_0000);
    assert((wrap32(exact) - exact) % 0x1_0000_0000 == 0) by {
        let w = wrap32(exact);
        let k = if exact % 0x1_0000_0000 >= 0x8000_0000 { -q - 1 } else { -q };
        assert(w - exact == k * 0x1_0000_0000);
        vstd::arithmetic::div_mod::lemma_mod_multiples_basic(k, 0x1_0000_0000);
    }
}

/// `DIV`, as `Runtime::execute` performs it, never produces a result from a
/// zero divisor: by zero it faults with "Division by zero" and changes
/// nothing; otherwise it stores the quotient rounded toward zero, reduced
/// to 32 bits, and sets the flags from it.
pub proof fn lemma_division(pre: Machine, ins: Instruction, post: Machine, r: Result<(), RuntimeError>)
    requires
        step_post(pre, ins, post, r),
        ins.opcode is DIV,
    ensures
        r is Ok ==> regs_ok(ins) && operand2(pre, ins) != 0,
        r is Err ==> post == pre,
        regs_ok(ins) && operand2(pre, ins) == 0 ==> r is Err && r->Err_0.message@
            == "Division by zero"@ && fault_ok(r->Err_0, pre, ins, r->Err_0.message@),
        regs_ok(ins) && operand2(pre, ins) != 0 ==> ({
            let q = wrap32(trunc_div(pre.registers[ins.rs1 as int] as int, operand2(pre, ins) as int)) as i32;
            r is Ok && post == with_flags(with_reg(pre, ins.rd, q), q)
        }),
{
    reveal(step_post);
}

/// `CMP a, b`, as `Runtime::execute` performs it, sets the zero flag
/// exactly when `a == b` and the negative flag exactly when `a - b < 0`
/// (exact difference, never overflowing), and changes nothing but those
/// two flags.
pub proof fn lemma_cmp_flags(pre: Machine, ins: Instruction, post: Machine, r: Result<(), RuntimeError>)
    requires
        step_post(pre, ins, post, r),
        ins.opcode is CMP,
    ensures
        !regs_ok(ins) ==> r is Err && post == pre,
        regs_ok(ins) ==> r is Ok && post.flags.zero == (pre.registers[ins.rs1 as int] == operand2(
            pre,
            ins,
        )) && post.flags.negative == ((pre.registers[ins.rs1 as int] as int) - (operand2(pre, ins) as int)
            < 0) && post.flags.carry == pre.flags.carry && post.flags.overflow == pre.flags.overflow
            && post == (Machine { flags: post.flags, ..pre }),
{
    reveal(step_post);
}

/// `POP`, as `Runtime::execute` performs it, moves the top of the stack into
/// its register; on an empty stack it faults with a stack underflow and
/// changes nothing.
pub proof fn lemma_pop(pre: Machine, ins: Instruction, post: Machine, r: Result<(), RuntimeError>)
    requires
        step_post(pre, ins, post, r),
        ins.opcode is POP,
        regs_ok(ins),
    ensures
        pre.stack.len() > 0 ==> r is Ok && post.registers == pre.registers.update(
            ins.rd as int,
            pre.stack.last(),
        ) && post.stack == pre.stack.drop_last(),
        pre.stack.len() == 0 ==> r is Err && r->Err_0.message@
            == "Stack underflow: attempted to pop from empty stack"@ && post == pre,
{
    reveal(step_post);
}

/// `PUSH r`.
pub open spec fn push_of(r: u8) -> Instruction {
    Instruction { opcode: OpCode::PUSH, rd: r, rs1: 0, rs2: 0, immediate: 0, label: None }
}

/// `POP r`.
pub open spec fn pop_of(r: u8) -> Instruction {
    Instruction { opcode: OpCode::POP, rd: r, rs1: 0, rs2: 0, immediate: 0, label: None }
}

/// `PUSH` of each register of `rs`, in order.
pub open spec fn run_pushes(m: Machine, rs: Seq<u8>) -> Machine
    decreases rs.len(),
{
    if rs.len() == 0 {
        m
    } else {
        step_spec(run_pushes(m, rs.drop_last()), push_of(rs.last()))->Ok_0
    }
}

/// `POP` into each register of `ds`, in order, up to the first fault.
pub open spec fn run_pops(m: Machine, ds: Seq<u8>) -> Result<Machine, Seq<char>>
    decreases ds.len(),
{
    if ds.len() == 0 {
        Ok(m)
    } else {
        match run_pops(m, ds.drop_last()) {
            Ok(k) => step_spec(k, pop_of(ds.last())),
            Err(e) => Err(e),
        }
    }
}

proof fn lemma_run_pushes(m: Machine, rs: Seq<u8>)
    requires
        m.registers.len() == 32,
        forall|i: int| 0 <= i < rs.len() ==> #[trigger] rs[i] < 32,
    ensures
        run_pushes(m, rs).stack == m.stack + rs.map_values(|r: u8| m.registers[r as int]),
        run_pushes(m, rs).registers == m.registers,
    decreases rs.len(),
{
    if rs.len() > 0 {
        let p = rs.drop_last();
        lemma_run_pushes(m, p);
        assert(rs.map_values(|r: u8| m.registers[r as int]) =~= p.map_values(
            |r: u8| m.registers[r as int],
        ).push(m.registers[rs.last() as int]));
    } else {
        assert(rs.map_values(|r: u8| m.registers[r as int]) =~= seq![]);
    }
}

proof fn lemma_run_pops(m: Machine, ds: Seq<u8>)
    requires
        m.registers.len() == 32,
        forall|i: int| 0 <= i < ds.len() ==> #[trigger] ds[i] < 32,
        ds.len() <= m.stack.len(),
    ensures
        run_pops(m, ds) is Ok,
        run_pops(m, ds)->Ok_0.registers.len() == 32,
        run_pops(m, ds)->Ok_0.stack == m.stack.subrange(0, m.stack.len() - ds.len()),
        forall|k: int|
            0 <= k < ds.len() && (forall|j: int| k < j < ds.len() ==> ds[j] != ds[k]) ==> (
            #[trigger] run_pops(m, ds)->Ok_0.registers[ds[k] as int]) == m.stack[m.stack.len() - 1
                - k],
    decreases ds.len(),
{
    if ds.len() > 0 {
        let p = ds.drop_last();
        lemma_run_pops(m, p);
        let k0 = run_pops(m, p)->Ok_0;
        assert(k0.stack.drop_last() =~= m.stack.subrange(0, m.stack.len() - ds.len()));
        let fin = run_pops(m, ds)->Ok_0;
        assert forall|k: int|
            0 <= k < ds.len() && (forall|j: int| k < j < ds.len() ==> ds[j] != ds[k]) implies (
            #[trigger] fin.registers[ds[k] as int]) == m.stack[m.stack.len() - 1 - k] by {
            if k < ds.len() - 1 {
                assert(p[k] == ds[k]);
                assert(ds[ds.len() - 1] != ds[k]);
                assert(forall|j: int| k < j < p.len() ==> p[j] == ds[j]);
            }
        }
    } else {
        assert(m.stack.subrange(0, m.stack.len() as int) == m.stack);
    }
}

/// The stack is last in, first out: pushing the registers `rs` and then
/// popping as many times into the registers `ds` leaves the stack as it
/// was, and the `k`-th pop receives what the `k`-th push from the end put
/// there (for each destination not written again by a later pop).
pub proof fn lemma_stack_lifo(m: Machine, rs: Seq<u8>, ds: Seq<u8>)
    requires
        m.registers.len() == 32,
        rs.len() == ds.len(),
        forall|i: int| 0 <= i < rs.len() ==> #[trigger] rs[i] < 32,
        forall|i: int| 0 <= i < ds.len() ==> #[trigger] ds[i] < 32,
    ensures
        run_pops(run_pushes(m, rs), ds) is Ok,
        run_pops(run_pushes(m, rs), ds)->Ok_0.stack == m.stack,
        forall|k: int|
            0 <= k < ds.len() && (forall|j: int| k < j < ds.len() ==> ds[j] != ds[k]) ==> (
            #[trigger] run_pops(run_pushes(m, rs), ds)->Ok_0.registers[ds[k] as int])
                == m.registers[rs[rs.len() - 1 - k] as int],
{
    lemma_run_pushes(m, rs);
    let m1 = run_pushes(m, rs);
    lemma_run_pops(m1, ds);
    assert(m1.stack.subrange(0, m1.stack.len() - ds.len()) =~= m.stack);
    assert forall|k: int|
        0 <= k < ds.len() && (forall|j: int| k < j < ds.len() ==> ds[j] != ds[k]) implies (
        #[trigger] run_pops(m1, ds)->Ok_0.registers[ds[k] as int]) == m.registers[rs[rs.len() - 1
            - k] as int] by {
        assert(m1.stack[m1.stack.len() - 1 - k] == rs.map_values(|r: u8| m.registers[r as int])[rs.len() - 1 - k]);
    }
}

/// Popping more values than the stack holds faults with a stack underflow.
pub proof fn lemma_pop_underflow(m: Machine, ds: Seq<u8>)
    requires
        m.registers.len() == 32,
        forall|i: int| 0 <= i < ds.len() ==> #[trigger] ds[i] < 32,
        ds.len() > m.stack.len(),
    ensures
        run_pops(m, ds) == Err::<Machine, Seq<char>>(
            "Stack underflow: attempted to pop from empty stack"@,
        ),
    decreases ds.len(),
{
    let p = ds.drop_last();
    if p.len() > m.stack.len() {
        lemma_pop_underflow(m, p);
    } else {
        lemma_run_pops(m, p);
    }
}

/// `CALL` then `RET` comes back to the counter after the call, with the
/// registers, stack and call record as before: nothing is saved or
/// restored on the way.
pub proof fn lemma_call_ret(m: Machine, call: Instruction, ret: Instruction, body: Seq<i32>)
    requires
        call.opcode is CALL,
        ret.opcode is RET,
        0 <= m.pc <= i32::MAX,
    ensures
        step_spec(m, call) is Ok,
        step_spec(m, call)->Ok_0.pc == jump_target(call.immediate),
        step_spec(m, call)->Ok_0.registers == m.registers,
        step_spec(step_spec(m, call)->Ok_0, ret) is Ok,
        ({
            let m2 = step_spec(step_spec(m, call)->Ok_0, ret)->Ok_0;
            m2.pc == m.pc && m2.registers == m.registers && m2.stack == m.stack && m2.call_stack
                == m.call_stack
        }),
{
    let m1 = step_spec(m, call)->Ok_0;
    assert((m.pc as i32) as usize == m.pc as usize) by {
        let p = m.pc;
        assert(0 <= p <= i32::MAX);
    }
    assert(m1.stack.drop_last() =~= m.stack);
    assert(m1.call_stack.drop_last() =~= m.call_stack);
}

/// A shift, as `Runtime::execute` performs it, by 32 or more always
/// faults and changes nothing; `LSR` treats its operand as unsigned, so by
/// one or more it never gives a negative value.
pub proof fn lemma_shifts(pre: Machine, ins: Instruction, post: Machine, r: Result<(), RuntimeError>)
    requires
        step_post(pre, ins, post, r),
        pre.registers.len() == 32,
        ins.opcode is LSL || ins.opcode is LSR,
    ensures
        ins.immediate as u32 >= 32 ==> r is Err && post == pre,
        regs_ok(ins) && ins.opcode is LSR && (ins.immediate as u32) < 32 ==> r is Ok
            && post.registers[ins.rd as int] == ((pre.registers[ins.rs1 as int] as u32) >> (
        ins.immediate as u32)) as i32,
        regs_ok(ins) && ins.opcode is LSR && ins.immediate as u32 >= 1 && (ins.immediate as u32) < 32
            ==> post.registers[ins.rd as int] >= 0,
{
    reveal(step_post);
    let v = pre.registers[ins.rs1 as int];
    let s = ins.immediate as u32;
    if ins.opcode is LSR && s >= 1 && s < 32 {
        assert(((v as u32) >> s) as i32 >= 0) by (bit_vector)
            requires 1 <= s < 32;
    }
}

/// `PRINTC` of a register holding 0 appends the string at byte address
/// 512 to the output and changes nothing else.
pub proof fn lemma_printc_zero(m: Machine, ins: Instruction)
    requires
        regs_ok(ins),
        ins.opcode is PRINTC,
        m.registers[ins.rd as int] == 0,
    ensures
        step_spec(m, ins) == Ok::<Machine, Seq<char>>(
            Machine { output: m.output + cstr(m.memory, 512), ..m },
        ),
{
}

/// The string that `PRINTC` of a zero register prints: the bytes from
/// address 512 up to, not including, the first zero byte.
pub proof fn lemma_data_string(mem: Seq<i32>, a: int)
    requires
        0 <= a,
    ensures
        forall|i: int| 0 <= i < cstr(mem, a).len() ==> #[trigger] cstr(mem, a)[i] == byte_at(mem, a + i) as char
            && byte_at(mem, a + i) != 0,
        a + cstr(mem, a).len() < 4096 ==> byte_at(mem, a + cstr(mem, a).len()) == 0,
    decreases 4096 - a,
{
    if a < 4096 && byte_at(mem, a) != 0 {
        lemma_data_string(mem, a + 1);
        assert forall|i: int| 0 <= i < cstr(mem, a).len() implies #[trigger] cstr(mem, a)[i]
            == byte_at(mem, a + i) as char && byte_at(mem, a + i) != 0 by {
            if i > 0 {
                assert(cstr(mem, a)[i] == cstr(mem, a + 1)[i - 1]);
                assert(a + 1 + (i - 1) == a + i);
            }
        }
    }
}

proof fn lemma_find_after(name: Seq<char>)
    requires
        forall|i: int| 0 <= i < name.len() ==> #[trigger] name[i] != ':',
    ensures
        find_first(name.push(':'), ':') == Some(name.len() as int),
    decreases name.len(),
{
    if name.len() > 0 {
        let t = name.push(':');
        assert(t.drop_first() =~= name.drop_first().push(':'));
        lemma_find_after(name.drop_first());
    }
}

proof fn lemma_trim_plain(s: Seq<char>)
    requires
        !has_ws(s),
    ensures
        trim(s) == s,
{
    if s.len() > 0 {
        assert(!is_ws(s[0]));
        assert(!is_ws(s.last()));
    }
}

/// A line that only defines a label records, for that name, the number of
/// instructions so far in the text section, and 512 plus the length of the
/// data so far in the data section.
pub proof fn lemma_label_definition(st: AsmState, name: Seq<char>, ln: int)
    requires
        name.len() > 0,
        name[0] != ';' && name[0] != '.',
        !has_ws(name),
        forall|i: int| 0 <= i < name.len() ==> #[trigger] name[i] != ':',
    ensures
        line_step(st, name.push(':'), ln) == Ok::<AsmState, Seq<char>>(
            AsmState { labels: st.labels.push((name, here(st))), ..st },
        ),
        here(st) == if st.section == Section::Data {
            wrap_usize(512 + st.data.len() as int)
        } else {
            st.instrs.len() as int
        },
{
    let t = name.push(':');
    assert(!has_ws(t)) by {
        assert forall|i: int| 0 <= i < t.len() implies !is_ws(#[trigger] t[i]) by {
            if i < name.len() {
                assert(t[i] == name[i]);
            }
        }
    }
    lemma_trim_plain(t);
    lemma_find_after(name);
    assert(t.subrange(0, name.len() as int) =~= name);
    lemma_trim_plain(name);
    assert(t.subrange(name.len() as int + 1, t.len() as int) =~= Seq::<char>::empty());
    assert(trim(Seq::<char>::empty()) =~= Seq::<char>::empty());
    assert(t[0] == name[0]);
    reveal_strlit(".data");
    reveal_strlit(".text");
    reveal_strlit(".start");
    assert(t != ".data"@) by {
        if t == ".data"@ {
            assert(t[0] == '.');
        }
    }
    assert(t != ".text"@) by {
        if t == ".text"@ {
            assert(t[0] == '.');
        }
    }
    assert(!starts_with(t, ".start"@)) by {
        if starts_with(t, ".start"@) {
            assert(t.subrange(0, 6)[0] == '.');
        }
    }
}

/// The record of one instruction view.
pub open spec fn view_record(v: InsView) -> Seq<u8> {
    seq![code_of(v.0), v.1, v.2, v.3] + le_bytes(v.4)
}

proof fn lemma_records_index(ins: Seq<InsView>)
    ensures
        records(ins).len() == 8 * ins.len(),
        forall|k: int, j: int|
            0 <= k < ins.len() && 0 <= j < 8 ==> #[trigger] records(ins)[8 * k + j] == view_record(
                ins[k],
            )[j],
    decreases ins.len(),
{
    if ins.len() > 0 {
        let p = ins.drop_last();
        lemma_records_index(p);
        assert forall|k: int, j: int| 0 <= k < ins.len() && 0 <= j < 8 implies #[trigger] records(
            ins,
        )[8 * k + j] == view_record(ins[k])[j] by {
            if k < p.len() {
                assert(records(p)[8 * k + j] == view_record(p[k])[j]);
            }
        }
    }
}

proof fn lemma_boundary_at(b: Seq<u8>, i: int, l: int)
    requires
        0 <= i <= l,
        i % 8 == 0,
        l % 8 == 0,
        l + 8 <= b.len(),
        zero_chunk(b, l),
        forall|j: int| i <= j < l && j % 8 == 0 ==> !#[trigger] zero_chunk(b, j),
    ensures
        boundary_from(b, i) == l,
    decreases l - i,
{
    if i < l {
        assert(!zero_chunk(b, i));
        lemma_boundary_at(b, i + 8, l);
    }
}

/// The data of an image followed by its padding holds no all-zero 8-byte
/// chunk, so the start block marks where the data ends.
pub open spec fn data_unmarked(data: Seq<u8>) -> bool {
    let p = data + padding(data.len());
    forall|j: int| 0 <= j < p.len() && j % 8 == 0 ==> !#[trigger] zero_chunk(p, j)
}

/// An instruction that the assembler encodes in an image with start index
/// 0 decodes, once `Runtime::load_program` has placed the image's records
/// in memory, to the same opcode, registers and immediate.
pub proof fn lemma_assembled_instruction_decodes(data: Seq<u8>, ins: Seq<InsView>, mem: Seq<i32>, k: int)
    requires
        data_unmarked(data),
        0 <= k < ins.len(),
        2 * k + 1 < mem.len(),
        forall|w: int| 0 <= w < mem.len() && (#[trigger] record_word(image_spec(data, 0, ins), w)) is Some
            ==> mem[w] == record_word(image_spec(data, 0, ins), w).unwrap(),
    ensures
        decode_at(mem, 2 * k) matches Some(d) && d.opcode == ins[k].0 && d.rd == ins[k].1
            && d.rs1 == ins[k].2 && d.rs2 == ins[k].3 && d.immediate == ins[k].4,
{
    let b = image_spec(data, 0, ins);
    let p = data + padding(data.len());
    let l = p.len() as int;
    let v: i32 = (0int as u32) as i32;
    assert(v == 0);
    assert((v as u32 & 0xFF) as u8 == 0 && ((v as u32 >> 8u32) & 0xFF) as u8 == 0 && ((v as u32
        >> 16u32) & 0xFF) as u8 == 0 && ((v as u32 >> 24u32) & 0xFF) as u8 == 0) by (bit_vector)
        requires v == 0;
    let head = p + le_bytes((0int as u32) as i32) + seq![0u8, 0u8, 0u8, 0u8];
    assert(b =~= head + records(ins));
    assert(l % 8 == 0) by {
        assert(l == data.len() + (8 - data.len() % 8) % 8);
    }
    lemma_records_index(ins);
    assert(zero_chunk(b, l)) by {
        assert forall|j: int| l <= j < l + 8 implies b[j] == 0 by {
            assert(b[j] == head[j]);
        }
    }
    assert forall|j: int| 0 <= j < l && j % 8 == 0 implies !#[trigger] zero_chunk(b, j) by {
        assert(!zero_chunk(p, j));
        assert forall|q: int| j <= q < j + 8 implies b[q] == p[q] by {
            assert(b[q] == head[q]);
        }
    }
    lemma_boundary_at(b, 0, l);
    let base = l + 8 + 8 * k;
    assert((2 * k) / 2 == k);
    assert((2 * k + 1) / 2 == k);
    assert forall|j: int| 0 <= j < 8 implies b[base + j] == view_record(ins[k])[j] by {
        assert(b[base + j] == records(ins)[8 * k + j]);
    }
    assert(record_word(b, 2 * k) is Some);
    assert(record_word(b, 2 * k + 1) is Some);
    let i = Instruction {
        opcode: ins[k].0,
        rd: ins[k].1,
        rs1: ins[k].2,
        rs2: ins[k].3,
        immediate: ins[k].4,
        label: None,
    };
    assert(record_bytes(i) =~= view_record(ins[k]));
    lemma_record_round_trip(i, mem, 2 * k);
}

} // verus!
