//! Faults of a run.

use vstd::prelude::*;
use crate::opcodes::name_of;
use crate::runtime::{Instruction, StackFrame, frames_view, opcode_name, push_str};
use crate::text::{decimal, nat_digits, push_decimal, push_nat_digits};

verus! {

/// A fatal fault of a run: what went wrong, where, on which instruction,
/// and the calls that were pending.
#[derive(Debug, Clone)]
pub struct RuntimeError {
    pub message: String,
    pub pc: usize,
    pub instruction: Instruction,
    pub stack_trace: Vec<StackFrame>,
}

impl RuntimeError {
    pub fn new(message: String, pc: usize, instruction: Instruction, stack_trace: Vec<StackFrame>) -> (r: Self)
        ensures
            r.message == message,
            r.pc == pc,
            r.instruction == instruction,
            r.stack_trace == stack_trace,
    {
        RuntimeError { message, pc, instruction, stack_trace }
    }
}

/// The line of the report for frame number `i` of the trace, innermost
/// first.
pub open spec fn frame_line(i: int, f: (int, Seq<char>)) -> Seq<char> {
    "  #"@ + nat_digits(i as nat) + ": PC "@ + nat_digits((f.0 / 2) as nat) + " - "@ + f.1 + "\n"@
}

/// The lines of the first `n` frames of `fs` taken from the end.
pub open spec fn trace_lines(fs: Seq<(int, Seq<char>)>, n: nat) -> Seq<char>
    decreases n,
{
    if n == 0 {
        seq![]
    } else {
        trace_lines(fs, (n - 1) as nat) + frame_line(n - 1, fs[fs.len() - n])
    }
}

/// The text of a fault report: the message, where it happened, the pending
/// calls innermost first, and the faulting instruction's fields.
pub open spec fn report_spec(e: RuntimeError) -> Seq<char> {
    let fs = frames_view(e.stack_trace@);
    let name = name_of(e.instruction.opcode);
    "Runtime Error: "@ + e.message@ + "\n"@ + "  at PC: "@ + nat_digits((e.pc / 2) as nat)
        + " (instruction: "@ + name + ")\n"@ + (if fs.len() > 0 {
        "\nStack trace:\n"@ + trace_lines(fs, fs.len())
    } else {
        seq![]
    }) + "\nInstruction details:\n"@ + "  Opcode: "@ + name + "\n"@ + "  Registers: rd="@
        + nat_digits(e.instruction.rd as nat) + ", rs1="@ + nat_digits(e.instruction.rs1 as nat)
        + ", rs2="@ + nat_digits(e.instruction.rs2 as nat) + "\n"@ + "  Immediate: "@ + decimal(
        e.instruction.immediate as int,
    ) + "\n"@
}

fn push_chars(out: &mut Vec<char>, s: &Vec<char>)
    ensures
        final(out)@ == old(out)@ + s@,
{
    let mut i: usize = 0;
    while i < s.len()
        invariant
            i <= s@.len(),
            out@ == old(out)@ + s@.subrange(0, i as int),
        decreases s@.len() - i,
    {
        out.push(s[i]);
        i = i + 1;
        assert(out@ =~= old(out)@ + s@.subrange(0, i as int));
    }
    assert(s@.subrange(0, s@.len() as int) == s@);
}

impl RuntimeError {
    /// The text of the report of this fault.
    pub fn report(&self) -> (r: Vec<char>)
        ensures
            r@ == report_spec(*self),
    {
        let ghost fs = frames_view(self.stack_trace@);
        let name = opcode_name(self.instruction.opcode);
        let mut r: Vec<char> = Vec::new();
        push_str(&mut r, "Runtime Error: ");
        let msg = crate::text::chars_of(self.message.as_str());
        push_chars(&mut r, &msg);
        push_str(&mut r, "\n");
        push_str(&mut r, "  at PC: ");
        push_nat_digits(&mut r, (self.pc / 2) as u64);
        push_str(&mut r, " (instruction: ");
        push_chars(&mut r, &name);
        push_str(&mut r, ")\n");
        let ghost head = r@;
        let n = self.stack_trace.len();
        if n > 0 {
            push_str(&mut r, "\nStack trace:\n");
            let ghost mid = r@;
            let mut i: usize = 0;
            while i < n
                invariant
                    n == self.stack_trace@.len(),
                    fs == frames_view(self.stack_trace@),
                    i <= n,
                    r@ == mid + trace_lines(fs, i as nat),
                decreases n - i,
            {
                let f = &self.stack_trace[n - 1 - i];
                assert(fs[fs.len() - (i + 1)] == (f.pc as int, f.instruction@));
                let ghost before = r@;
                push_str(&mut r, "  #");
                push_nat_digits(&mut r, i as u64);
                push_str(&mut r, ": PC ");
                push_nat_digits(&mut r, (f.pc / 2) as u64);
                push_str(&mut r, " - ");
                let text = crate::text::chars_of(f.instruction.as_str());
                push_chars(&mut r, &text);
                push_str(&mut r, "\n");
                assert(r@ =~= before + frame_line(i as int, fs[fs.len() - (i + 1)]));
                i = i + 1;
                assert(r@ =~= mid + trace_lines(fs, i as nat));
            }
        }
        let ghost tail_start = r@;
        push_str(&mut r, "\nInstruction details:\n");
        push_str(&mut r, "  Opcode: ");
        push_chars(&mut r, &name);
        push_str(&mut r, "\n");
        push_str(&mut r, "  Registers: rd=");
        push_nat_digits(&mut r, self.instruction.rd as u64);
        push_str(&mut r, ", rs1=");
        push_nat_digits(&mut r, self.instruction.rs1 as u64);
        push_str(&mut r, ", rs2=");
        push_nat_digits(&mut r, self.instruction.rs2 as u64);
        push_str(&mut r, "\n");
        push_str(&mut r, "  Immediate: ");
        push_decimal(&mut r, self.instruction.immediate as i64);
        push_str(&mut r, "\n");
        assert(r@ =~= report_spec(*self));
        r
    }
}

} // verus!
