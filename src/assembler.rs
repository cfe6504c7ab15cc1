//! The assembler: assembly text to a binary image, line by line, with
//! labels resolved after the last line.

use vstd::prelude::*;
use vstd::string::StrSliceExecFns;
use crate::codec::{le_bytes, push_le_i32, push_record};
use crate::lexer::{
    contains_ws, equals_str, find_first, find_last, first_index, has_prefix, has_ws, immediate_spec,
    last_index, register_spec, slice_of, split_whitespace, split_ws, starts_with, strip_end,
    strip_start, tok_fold, tokens, trim_end_char, trim_start_char, trimmed, views,
};
use crate::text::is_whitespace;
use crate::opcodes::{OpCode, code_of};
use crate::runtime::{Instruction, push_str};
use crate::text::{
    chars_of, nat_digits, parse_int, parse_int_spec, push_nat_digits, string_of, trim, trim_range,
};

verus! {

/// An instruction as the assembler's contracts see it: opcode, the three
/// register slots, the immediate, and the label still to be resolved.
pub type InsView = (OpCode, u8, u8, u8, i32, Option<Seq<char>>);

/// The view of an instruction.
pub open spec fn ins_view(i: Instruction) -> InsView {
    (
        i.opcode,
        i.rd,
        i.rs1,
        i.rs2,
        i.immediate,
        match i.label {
            Some(l) => Some(l@),
            None => None,
        },
    )
}

/// The section that lines currently go to.
#[derive(Debug, Clone, Copy, PartialEq, Eq, Structural)]
pub enum Section {
    Text,
    Data,
}

/// A label and the address it stands for.
#[derive(Debug, Clone)]
pub struct LabelDef {
    pub name: Vec<char>,
    pub addr: usize,
}

/// The assembler's state between lines.
pub ghost struct AsmState {
    pub labels: Seq<(Seq<char>, int)>,
    pub instrs: Seq<InsView>,
    pub lines: Seq<int>,
    pub data: Seq<u8>,
    pub start: Option<Seq<char>>,
    pub section: Section,
}

/// Translates assembly text into a binary image. One instance serves one
/// compilation.
pub struct Assembler {
    pub labels: Vec<LabelDef>,
    pub instructions: Vec<Instruction>,
    pub instruction_lines: Vec<usize>,
    pub data_section: Vec<u8>,
    pub start_label: Option<Vec<char>>,
    pub current_section: Section,
}

/// What `str::to_uppercase` gives for the characters `s`.
pub uninterp spec fn upper_of(s: Seq<char>) -> Seq<char>;

/// Relies on `str::to_uppercase`: the result depends on the characters alone.
#[verifier::external_body]
fn uppercase(s: &Vec<char>) -> (r: Vec<char>)
    ensures
        r@ == upper_of(s@),
{
    let t: String = s.iter().collect();
    t.to_uppercase().chars().collect()
}

/// The address a label stands for: its last definition wins.
pub open spec fn lookup(labels: Seq<(Seq<char>, int)>, name: Seq<char>) -> Option<int>
    decreases labels.len(),
{
    if labels.len() == 0 {
        None
    } else if labels.last().0 == name {
        Some(labels.last().1)
    } else {
        lookup(labels.drop_last(), name)
    }
}

/// The operation a mnemonic (already upper-cased) names.
pub open spec fn mnemonic_spec(u: Seq<char>) -> Option<OpCode> {
    if u == "MOV"@ { Some(OpCode::MOV) }
    else if u == "ADD"@ { Some(OpCode::ADD) }
    else if u == "SUB"@ { Some(OpCode::SUB) }
    else if u == "MUL"@ { Some(OpCode::MUL) }
    else if u == "DIV"@ { Some(OpCode::DIV) }
    else if u == "CMP"@ { Some(OpCode::CMP) }
    else if u == "JMP"@ { Some(OpCode::JMP) }
    else if u == "JEQ"@ { Some(OpCode::JEQ) }
    else if u == "JNE"@ { Some(OpCode::JNE) }
    else if u == "JLT"@ { Some(OpCode::JLT) }
    else if u == "JGT"@ { Some(OpCode::JGT) }
    else if u == "LEA"@ { Some(OpCode::LOAD) }
    else if u == "STO"@ { Some(OpCode::STORE) }
    else if u == "PUS"@ { Some(OpCode::PUSH) }
    else if u == "POP"@ { Some(OpCode::POP) }
    else if u == "CAL"@ { Some(OpCode::CALL) }
    else if u == "RET"@ { Some(OpCode::RET) }
    else if u == "HLT"@ { Some(OpCode::HALT) }
    else if u == "NOP"@ { Some(OpCode::NOP) }
    else if u == "AND"@ { Some(OpCode::AND) }
    else if u == "OR"@ { Some(OpCode::OR) }
    else if u == "XOR"@ { Some(OpCode::XOR) }
    else if u == "NOT"@ { Some(OpCode::NOT) }
    else if u == "LSL"@ { Some(OpCode::LSL) }
    else if u == "LSR"@ { Some(OpCode::LSR) }
    else if u == "PRT"@ { Some(OpCode::PRINT) }
    else if u == "PRC"@ { Some(OpCode::PRINTC) }
    else if u == "INP"@ { Some(OpCode::INPUT) }
    else { None }
}

/// The ` at line N` ending of a message.
pub open spec fn line_suffix(ln: int) -> Seq<char> {
    " at line "@ + nat_digits(ln as nat)
}

/// The number of operands that an operation's statement takes.
pub open spec fn arity(op: OpCode) -> nat {
    match op {
        OpCode::MOV | OpCode::CMP | OpCode::LOAD | OpCode::STORE | OpCode::NOT => 2,
        OpCode::ADD | OpCode::SUB | OpCode::MUL | OpCode::DIV | OpCode::AND | OpCode::OR
        | OpCode::XOR | OpCode::LSL | OpCode::LSR => 3,
        OpCode::JMP | OpCode::JEQ | OpCode::JNE | OpCode::JLT | OpCode::JGT | OpCode::CALL
        | OpCode::PUSH | OpCode::POP | OpCode::PRINT | OpCode::PRINTC | OpCode::INPUT => 1,
        _ => 0,
    }
}

/// The message of a statement with the wrong number of operands.
pub open spec fn operand_error(op: OpCode, upper: Seq<char>, ln: int) -> Seq<char> {
    "Instruction "@ + upper + " takes "@ + nat_digits(arity(op)) + " operand(s)"@ + line_suffix(ln)
}

/// The message of an operand that is no register.
pub open spec fn reg_error(p: Seq<char>, ln: int) -> Seq<char> {
    "Invalid register: "@ + p + line_suffix(ln)
}

/// The message of an operand that is no immediate.
pub open spec fn imm_error(p: Seq<char>, ln: int) -> Seq<char> {
    "Invalid immediate: "@ + p + line_suffix(ln)
}

/// The message of an operand that is neither a register nor an immediate.
pub open spec fn source_error(p: Seq<char>, ln: int) -> Seq<char> {
    "Invalid operand: "@ + p + line_suffix(ln)
}

/// The second operand of `MOV`: an immediate, else a register, else a label.
pub open spec fn mov_source(op: OpCode, rd: u8, p: Seq<char>) -> InsView {
    match immediate_spec(p) {
        Some(v) => (op, rd, 0, 0, v, None),
        None => match register_spec(p) {
            Some(r) => (op, rd, r, 0, 0, None),
            None => (op, rd, 0, 0, 0, Some(p)),
        },
    }
}

/// The last operand of a two-source operation: an immediate, else a
/// register; anything else is an error.
pub open spec fn second_source(op: OpCode, rd: u8, r1: u8, p: Seq<char>, ln: int) -> Result<InsView, Seq<char>> {
    match immediate_spec(p) {
        Some(v) => Ok((op, rd, r1, 0, v, None)),
        None => match register_spec(p) {
            Some(r2) => Ok((op, rd, r1, r2, 0, None)),
            None => Err(source_error(p, ln)),
        },
    }
}

/// The bracketed address of `LEA`/`STORE`: a register, else an immediate,
/// else a label.
pub open spec fn address_operand(op: OpCode, rd: u8, p: Seq<char>) -> InsView {
    let a = trim_end_char(trim_start_char(p, '['), ']');
    match register_spec(a) {
        Some(r) => (op, rd, r, 0, 0, None),
        None => match immediate_spec(a) {
            Some(v) => (op, rd, 0, 0, v, None),
            None => (op, rd, 0, 0, 0, Some(a)),
        },
    }
}

/// The instruction that the parts `ps` of a line make, once the mnemonic
/// `ps[0]`, upper-cased as `upper`, has named `op`; `ln` is the line number.
/// The statement must have exactly the operation's number of operands.
pub open spec fn statement_spec(ps: Seq<Seq<char>>, op: OpCode, upper: Seq<char>, ln: int) -> Result<InsView, Seq<char>> {
    if ps.len() != 1 + arity(op) {
        Err(operand_error(op, upper, ln))
    } else {
        match op {
            OpCode::MOV => match register_spec(ps[1]) {
                None => Err(reg_error(ps[1], ln)),
                Some(rd) => Ok(mov_source(op, rd, ps[2])),
            },
            OpCode::ADD | OpCode::SUB | OpCode::MUL | OpCode::DIV | OpCode::AND | OpCode::OR
            | OpCode::XOR => match register_spec(ps[1]) {
                None => Err(reg_error(ps[1], ln)),
                Some(rd) => match register_spec(ps[2]) {
                    None => Err(reg_error(ps[2], ln)),
                    Some(r1) => second_source(op, rd, r1, ps[3], ln),
                },
            },
            OpCode::CMP => match register_spec(ps[1]) {
                None => Err(reg_error(ps[1], ln)),
                Some(r1) => second_source(op, 0, r1, ps[2], ln),
            },
            OpCode::JMP | OpCode::JEQ | OpCode::JNE | OpCode::JLT | OpCode::JGT | OpCode::CALL => Ok(
                match immediate_spec(ps[1]) {
                    Some(v) => (op, 0, 0, 0, v, None),
                    None => (op, 0, 0, 0, 0, Some(ps[1])),
                },
            ),
            OpCode::LOAD | OpCode::STORE => match register_spec(ps[1]) {
                None => Err(reg_error(ps[1], ln)),
                Some(rd) => Ok(address_operand(op, rd, ps[2])),
            },
            OpCode::PUSH | OpCode::POP | OpCode::PRINT | OpCode::PRINTC | OpCode::INPUT => match register_spec(ps[1]) {
                None => Err(reg_error(ps[1], ln)),
                Some(rd) => Ok((op, rd, 0, 0, 0, None)),
            },
            OpCode::NOT => match register_spec(ps[1]) {
                None => Err(reg_error(ps[1], ln)),
                Some(rd) => match register_spec(ps[2]) {
                    None => Err(reg_error(ps[2], ln)),
                    Some(r1) => Ok((op, rd, r1, 0, 0, None)),
                },
            },
            OpCode::LSL | OpCode::LSR => match register_spec(ps[1]) {
                None => Err(reg_error(ps[1], ln)),
                Some(rd) => match register_spec(ps[2]) {
                    None => Err(reg_error(ps[2], ln)),
                    Some(r1) => match immediate_spec(ps[3]) {
                        None => Err(imm_error(ps[3], ln)),
                        Some(v) => Ok((op, rd, r1, 0, v, None)),
                    },
                },
            },
            _ => Ok((op, 0, 0, 0, 0, None)),
        }
    }
}

/// The character that a backslash followed by `c` stands for in a string
/// directive.
pub open spec fn escaped(c: char) -> Option<char> {
    if c == 'n' {
        Some('\n')
    } else if c == 't' {
        Some('\t')
    } else if c == 'r' {
        Some('\r')
    } else if c == '\\' {
        Some('\\')
    } else if c == '"' {
        Some('"')
    } else {
        None
    }
}

/// The text of a string directive with its escapes `\n`, `\t`, `\r`, `\\`
/// and `\"` replaced, in one pass from left to right; any other backslash
/// stays as it is.
pub open spec fn unescape(s: Seq<char>) -> Seq<char>
    decreases s.len(),
{
    if s.len() == 0 {
        seq![]
    } else if s.len() >= 2 && s[0] == '\\' && escaped(s[1]) is Some {
        seq![escaped(s[1]).unwrap()] + unescape(s.subrange(2, s.len() as int))
    } else {
        seq![s[0]] + unescape(s.drop_first())
    }
}

/// The UTF-8 encoding of one character.
pub open spec fn utf8_char(c: char) -> Seq<u8> {
    let v = (c as u32) as int;
    if v < 0x80 {
        seq![v as u8]
    } else if v < 0x800 {
        seq![(0xC0 + v / 64) as u8, (0x80 + v % 64) as u8]
    } else if v < 0x10000 {
        seq![(0xE0 + v / 4096) as u8, (0x80 + (v / 64) % 64) as u8, (0x80 + v % 64) as u8]
    } else {
        seq![
            (0xF0 + v / 262144) as u8,
            (0x80 + (v / 4096) % 64) as u8,
            (0x80 + (v / 64) % 64) as u8,
            (0x80 + v % 64) as u8,
        ]
    }
}

/// The UTF-8 encoding of a character sequence.
pub open spec fn utf8(s: Seq<char>) -> Seq<u8>
    decreases s.len(),
{
    if s.len() == 0 {
        seq![]
    } else {
        utf8(s.drop_last()) + utf8_char(s.last())
    }
}

/// The bytes of the values of a `.byte` directive; the first value that is
/// not a byte is an error.
pub open spec fn byte_values(ps: Seq<Seq<char>>, ln: int) -> Result<Seq<u8>, Seq<char>>
    decreases ps.len(),
{
    if ps.len() == 0 {
        Ok(seq![])
    } else {
        match byte_values(ps.drop_last(), ln) {
            Err(e) => Err(e),
            Ok(r) => match parse_int_spec(trim_end_char(ps.last(), ','), 10, false, 0, 255) {
                None => Err("Invalid byte value: "@ + ps.last() + line_suffix(ln)),
                Some(v) => Ok(r.push(v as u8)),
            },
        }
    }
}

/// The bytes of the values of a `.word` directive, four little-endian
/// bytes each; the first value that is not a 32-bit integer is an error.
pub open spec fn word_values(ps: Seq<Seq<char>>, ln: int) -> Result<Seq<u8>, Seq<char>>
    decreases ps.len(),
{
    if ps.len() == 0 {
        Ok(seq![])
    } else {
        match word_values(ps.drop_last(), ln) {
            Err(e) => Err(e),
            Ok(r) => match parse_int_spec(
                trim_end_char(ps.last(), ','),
                10,
                true,
                i32::MIN as int,
                i32::MAX as int,
            ) {
                None => Err("Invalid word value: "@ + ps.last() + line_suffix(ln)),
                Some(v) => Ok(r + le_bytes(v as i32)),
            },
        }
    }
}

/// The words of `t` after the first.
pub open spec fn tail_words(t: Seq<char>) -> Seq<Seq<char>> {
    let w = split_ws(t);
    if w.len() > 0 { w.drop_first() } else { seq![] }
}

/// `st` with `bytes` appended to its data.
pub open spec fn with_data(st: AsmState, bytes: Seq<u8>) -> AsmState {
    AsmState { data: st.data + bytes, ..st }
}

/// What a statement `t` of the data section does.
pub open spec fn data_step(st: AsmState, t: Seq<char>, ln: int) -> Result<AsmState, Seq<char>> {
    if starts_with(t, ".ascii"@) || starts_with(t, ".string"@) {
        match find_first(t, '"') {
            None => Err("Missing opening quote"@ + line_suffix(ln)),
            Some(a) => match find_last(t, '"') {
                None => Err("Missing closing quote"@ + line_suffix(ln)),
                Some(b) => if a >= b {
                    Err("Invalid string format"@ + line_suffix(ln))
                } else {
                    let bytes = utf8(unescape(t.subrange(a + 1, b)));
                    Ok(
                        with_data(
                            st,
                            if starts_with(t, ".string"@) { bytes.push(0) } else { bytes },
                        ),
                    )
                },
            },
        }
    } else if starts_with(t, ".byte"@) {
        match byte_values(tail_words(t), ln) {
            Ok(b) => Ok(with_data(st, b)),
            Err(e) => Err(e),
        }
    } else if starts_with(t, ".word"@) {
        match word_values(tail_words(t), ln) {
            Ok(b) => Ok(with_data(st, b)),
            Err(e) => Err(e),
        }
    } else {
        Ok(st)
    }
}

/// What a statement `t` (a line without its label) does on line `ln`.
pub open spec fn statement_step(st: AsmState, t: Seq<char>, ln: int) -> Result<AsmState, Seq<char>> {
    if st.section == Section::Data {
        data_step(st, t, ln)
    } else {
        let ps = tokens(t);
        if ps.len() == 0 {
            Ok(st)
        } else {
            let up = upper_of(ps[0]);
            match mnemonic_spec(up) {
                None => Err("Unknown opcode: "@ + up + line_suffix(ln)),
                Some(op) => match statement_spec(ps, op, up, ln) {
                    Ok(i) => Ok(AsmState { instrs: st.instrs.push(i), lines: st.lines.push(ln), ..st }),
                    Err(e) => Err(e),
                },
            }
        }
    }
}

/// `x` reduced to the range of `usize`, as a wrapping addition leaves it.
pub open spec fn wrap_usize(x: int) -> int {
    if x > usize::MAX { x - (usize::MAX + 1) } else { x }
}

/// The address a label defined now stands for: the count of instructions
/// in the text section, 512 plus the data offset in the data section.
pub open spec fn here(st: AsmState) -> int {
    if st.section == Section::Data {
        wrap_usize(512 + st.data.len() as int)
    } else {
        st.instrs.len() as int
    }
}

/// What line `line`, number `ln`, does to the assembler's state.
pub open spec fn line_step(st: AsmState, line: Seq<char>, ln: int) -> Result<AsmState, Seq<char>> {
    let t = trim(line);
    if t.len() == 0 || t[0] == ';' {
        Ok(st)
    } else if t == ".data"@ {
        Ok(AsmState { section: Section::Data, ..st })
    } else if t == ".text"@ {
        Ok(AsmState { section: Section::Text, ..st })
    } else if starts_with(t, ".start"@) {
        let ps = split_ws(t);
        Ok(if ps.len() >= 2 { AsmState { start: Some(ps[1]), ..st } } else { st })
    } else {
        match find_first(t, ':') {
            Some(pos) => {
                let lab = trim(t.subrange(0, pos));
                if !has_ws(lab) {
                    let st2 = AsmState { labels: st.labels.push((lab, here(st))), ..st };
                    let rest = trim(t.subrange(pos + 1, t.len() as int));
                    if rest.len() == 0 {
                        Ok(st2)
                    } else {
                        statement_step(st2, rest, ln)
                    }
                } else {
                    statement_step(st, t, ln)
                }
            },
            None => statement_step(st, t, ln),
        }
    }
}

/// Splitting text into lines: finished lines and the line in progress.
pub open spec fn line_fold(s: Seq<char>) -> (Seq<Seq<char>>, Seq<char>)
    decreases s.len(),
{
    if s.len() == 0 {
        (seq![], seq![])
    } else {
        let (ls, cur) = line_fold(s.drop_last());
        if s.last() == '\n' {
            (ls.push(strip_cr(cur)), seq![])
        } else {
            (ls, cur.push(s.last()))
        }
    }
}

/// `s` without one trailing carriage return.
pub open spec fn strip_cr(s: Seq<char>) -> Seq<char> {
    if s.len() > 0 && s.last() == '\r' { s.drop_last() } else { s }
}

/// The lines of `s`, as `str::lines` gives them.
pub open spec fn lines_of(s: Seq<char>) -> Seq<Seq<char>> {
    let (ls, cur) = line_fold(s);
    if cur.len() > 0 { ls.push(cur) } else { ls }
}

/// The state after the first `n` lines, numbered from 1.
pub open spec fn run_lines(st: AsmState, ls: Seq<Seq<char>>, n: nat) -> Result<AsmState, Seq<char>>
    decreases n,
{
    if n == 0 {
        Ok(st)
    } else {
        match run_lines(st, ls, (n - 1) as nat) {
            Ok(s2) => line_step(s2, ls[n - 1], n as int),
            Err(e) => Err(e),
        }
    }
}

/// The line of instruction `k`, where one was recorded.
pub open spec fn line_at(lines: Seq<int>, k: int) -> int {
    if 0 <= k < lines.len() { lines[k] } else { 0 }
}

/// The first `n` instructions with their labels replaced by addresses;
/// the first label without a definition is an error.
pub open spec fn resolve_spec(ins: Seq<InsView>, labels: Seq<(Seq<char>, int)>, lines: Seq<int>, n: nat) -> Result<Seq<InsView>, Seq<char>>
    decreases n,
{
    if n == 0 {
        Ok(seq![])
    } else {
        match resolve_spec(ins, labels, lines, (n - 1) as nat) {
            Err(e) => Err(e),
            Ok(r) => {
                let i = ins[n - 1];
                match i.5 {
                    None => Ok(r.push(i)),
                    Some(l) => match lookup(labels, l) {
                        None => Err("Undefined label: "@ + l + line_suffix(line_at(lines, n - 1))),
                        Some(a) => Ok(r.push((i.0, i.1, i.2, i.3, a as i32, None))),
                    },
                }
            },
        }
    }
}

/// The eight-byte records of a sequence of instructions.
pub open spec fn records(ins: Seq<InsView>) -> Seq<u8>
    decreases ins.len(),
{
    if ins.len() == 0 {
        seq![]
    } else {
        records(ins.drop_last()) + seq![
            code_of(ins.last().0),
            ins.last().1,
            ins.last().2,
            ins.last().3,
        ] + le_bytes(ins.last().4)
    }
}

/// The zero bytes that pad `n` bytes to a multiple of 8.
pub open spec fn padding(n: nat) -> Seq<u8> {
    Seq::new(((8 - n % 8) % 8) as nat, |i: int| 0u8)
}

/// The binary image: data, padding, the start index and four zero bytes,
/// then the instruction records.
pub open spec fn image_spec(data: Seq<u8>, start: int, ins: Seq<InsView>) -> Seq<u8> {
    data + padding(data.len()) + le_bytes((start as u32) as i32) + seq![0u8, 0u8, 0u8, 0u8]
        + records(ins)
}

/// The start index: the address of the `.start` label, or 0.
pub open spec fn start_of(st: AsmState) -> int {
    match st.start {
        Some(l) => match lookup(st.labels, l) {
            Some(a) => a,
            None => 0,
        },
        None => 0,
    }
}

/// What assembling `text` gives from state `st`: the image, or the first
/// error.
pub open spec fn assemble_spec(st: AsmState, text: Seq<char>) -> Result<Seq<u8>, Seq<char>> {
    let ls = lines_of(text);
    match run_lines(st, ls, ls.len()) {
        Err(e) => Err(e),
        Ok(fin) => match resolve_spec(fin.instrs, fin.labels, fin.lines, fin.instrs.len()) {
            Err(e) => Err(e),
            Ok(ins) => Ok(image_spec(fin.data, start_of(fin), ins)),
        },
    }
}

/// Whether two character vectors hold the same characters.
pub fn same_chars(a: &Vec<char>, b: &Vec<char>) -> (r: bool)
    ensures
        r == (a@ == b@),
{
    if a.len() != b.len() {
        return false;
    }
    let mut i: usize = 0;
    while i < a.len()
        invariant
            a@.len() == b@.len(),
            i <= a@.len(),
            forall|k: int| 0 <= k < i ==> a@[k] == b@[k],
        decreases a@.len() - i,
    {
        if a[i] != b[i] {
            return false;
        }
        i = i + 1;
    }
    assert(a@ =~= b@);
    true
}

fn escape_of(c: char) -> (r: Option<char>)
    ensures
        r == escaped(c),
{
    if c == 'n' {
        Some('\n')
    } else if c == 't' {
        Some('\t')
    } else if c == 'r' {
        Some('\r')
    } else if c == '\\' {
        Some('\\')
    } else if c == '"' {
        Some('"')
    } else {
        None
    }
}

fn unescape_exec(s: &Vec<char>) -> (r: Vec<char>)
    ensures
        r@ == unescape(s@),
{
    let n = s.len();
    let mut out: Vec<char> = Vec::new();
    let mut i: usize = 0;
    assert(s@.subrange(0, n as int) == s@);
    while i < n
        invariant
            n == s@.len(),
            i <= n,
            out@ + unescape(s@.subrange(i as int, n as int)) == unescape(s@),
        decreases n - i,
    {
        let ghost t = s@.subrange(i as int, n as int);
        let e = if i + 1 < n && s[i] == '\\' { escape_of(s[i + 1]) } else { None };
        match e {
            Some(c) => {
                assert(t.subrange(2, t.len() as int) == s@.subrange(i + 2, n as int));
                out.push(c);
                i = i + 2;
            },
            None => {
                assert(t.drop_first() == s@.subrange(i + 1, n as int));
                out.push(s[i]);
                i = i + 1;
            },
        }
        assert(out@ + unescape(s@.subrange(i as int, n as int)) =~= unescape(s@));
    }
    assert(unescape(s@.subrange(i as int, n as int)) =~= seq![]);
    assert(out@ =~= unescape(s@));
    out
}

fn push_utf8(out: &mut Vec<u8>, s: &Vec<char>)
    ensures
        final(out)@ == old(out)@ + utf8(s@),
{
    let mut i: usize = 0;
    while i < s.len()
        invariant
            i <= s@.len(),
            out@ == old(out)@ + utf8(s@.subrange(0, i as int)),
        decreases s@.len() - i,
    {
        let ghost t = s@.subrange(0, i + 1);
        assert(t.drop_last() == s@.subrange(0, i as int));
        let v = s[i] as u32;
        let ghost before = out@;
        if v < 0x80 {
            out.push(v as u8);
        } else if v < 0x800 {
            out.push((0xC0 + v / 64) as u8);
            out.push((0x80 + v % 64) as u8);
        } else if v < 0x10000 {
            out.push((0xE0 + v / 4096) as u8);
            out.push((0x80 + (v / 64) % 64) as u8);
            out.push((0x80 + v % 64) as u8);
        } else {
            out.push((0xF0 + v / 262144) as u8);
            out.push((0x80 + (v / 4096) % 64) as u8);
            out.push((0x80 + (v / 64) % 64) as u8);
            out.push((0x80 + v % 64) as u8);
        }
        assert(out@ =~= before + utf8_char(s@[i as int]));
        i = i + 1;
        assert(out@ =~= old(out)@ + utf8(s@.subrange(0, i as int)));
    }
    assert(s@.subrange(0, i as int) == s@);
}

fn push_byte_values(out: &mut Vec<u8>, ps: &Vec<Vec<char>>, ln: usize) -> (r: Result<(), Vec<char>>)
    ensures
        match byte_values(views(ps@), ln as int) {
            Ok(b) => r is Ok && final(out)@ == old(out)@ + b,
            Err(e) => r matches Err(m) && m@ == e,
        },
{
    let ghost vs = views(ps@);
    let mut i: usize = 0;
    assert(vs.subrange(0, 0) =~= seq![]);
    while i < ps.len()
        invariant
            vs == views(ps@),
            i <= ps@.len(),
            byte_values(vs.subrange(0, i as int), ln as int) matches Ok(b) && out@ == old(out)@ + b,
        decreases ps@.len() - i,
    {
        let ghost t = vs.subrange(0, i + 1);
        assert(t.drop_last() == vs.subrange(0, i as int));
        assert(t.last() == ps@[i as int]@);
        let part = &ps[i];
        let stripped = strip_end(part, ',');
        assert(stripped@.subrange(0, stripped@.len() as int) == stripped@);
        match parse_int(&stripped, 0, 10, false, 0, 255) {
            None => {
                let m = operand_msg("Invalid byte value: ", part, ln);
                proof {
                    lemma_byte_values_err(vs, i + 1, ln as int);
                }
                return Err(m);
            },
            Some(v) => {
                out.push(v as u8);
            },
        }
        i = i + 1;
    }
    assert(vs.subrange(0, i as int) == vs);
    Ok(())
}

proof fn lemma_byte_values_err(vs: Seq<Seq<char>>, k: int, ln: int)
    requires
        0 < k <= vs.len(),
        byte_values(vs.subrange(0, k), ln) is Err,
    ensures
        byte_values(vs, ln) == byte_values(vs.subrange(0, k), ln),
    decreases vs.len() - k,
{
    if k < vs.len() {
        let t = vs.subrange(0, k + 1);
        assert(t.drop_last() == vs.subrange(0, k));
        lemma_byte_values_err(vs, k + 1, ln);
    } else {
        assert(vs.subrange(0, k) == vs);
    }
}

proof fn lemma_word_values_err(vs: Seq<Seq<char>>, k: int, ln: int)
    requires
        0 < k <= vs.len(),
        word_values(vs.subrange(0, k), ln) is Err,
    ensures
        word_values(vs, ln) == word_values(vs.subrange(0, k), ln),
    decreases vs.len() - k,
{
    if k < vs.len() {
        let t = vs.subrange(0, k + 1);
        assert(t.drop_last() == vs.subrange(0, k));
        lemma_word_values_err(vs, k + 1, ln);
    } else {
        assert(vs.subrange(0, k) == vs);
    }
}

fn push_word_values(out: &mut Vec<u8>, ps: &Vec<Vec<char>>, ln: usize) -> (r: Result<(), Vec<char>>)
    ensures
        match word_values(views(ps@), ln as int) {
            Ok(b) => r is Ok && final(out)@ == old(out)@ + b,
            Err(e) => r matches Err(m) && m@ == e,
        },
{
    let ghost vs = views(ps@);
    let mut i: usize = 0;
    assert(vs.subrange(0, 0) =~= seq![]);
    while i < ps.len()
        invariant
            vs == views(ps@),
            i <= ps@.len(),
            word_values(vs.subrange(0, i as int), ln as int) matches Ok(b) && out@ == old(out)@ + b,
        decreases ps@.len() - i,
    {
        let ghost t = vs.subrange(0, i + 1);
        assert(t.drop_last() == vs.subrange(0, i as int));
        assert(t.last() == ps@[i as int]@);
        let part = &ps[i];
        let stripped = strip_end(part, ',');
        assert(stripped@.subrange(0, stripped@.len() as int) == stripped@);
        match parse_int(&stripped, 0, 10, true, i32::MIN as i64, i32::MAX as i64) {
            None => {
                let m = operand_msg("Invalid word value: ", part, ln);
                proof {
                    lemma_word_values_err(vs, i + 1, ln as int);
                }
                return Err(m);
            },
            Some(v) => {
                let ghost before = out@;
                push_le_i32(out, v as i32);
                assert(out@ =~= before + le_bytes(v as i32));
            },
        }
        i = i + 1;
    }
    assert(vs.subrange(0, i as int) == vs);
    Ok(())
}

/// The lines of `text`, split as `str::lines` splits them.
pub fn split_lines(text: &Vec<char>) -> (r: Vec<Vec<char>>)
    ensures
        views(r@) == lines_of(text@),
{
    let mut ls: Vec<Vec<char>> = Vec::new();
    let mut cur: Vec<char> = Vec::new();
    let mut i: usize = 0;
    while i < text.len()
        invariant
            i <= text@.len(),
            (views(ls@), cur@) == line_fold(text@.subrange(0, i as int)),
        decreases text@.len() - i,
    {
        let ghost t = text@.subrange(0, i + 1);
        assert(t.drop_last() == text@.subrange(0, i as int));
        let c = text[i];
        if c == '\n' {
            let line = if cur.len() > 0 && cur[cur.len() - 1] == '\r' {
                slice_of(&cur, 0, cur.len() - 1)
            } else {
                cur
            };
            assert(line@ == strip_cr(line_fold(text@.subrange(0, i as int)).1));
            ls.push(line);
            cur = Vec::new();
            assert(views(ls@) =~= line_fold(t).0);
            assert(cur@ =~= line_fold(t).1);
        } else {
            cur.push(c);
        }
        i = i + 1;
    }
    assert(text@.subrange(0, i as int) == text@);
    if cur.len() > 0 {
        ls.push(cur);
        assert(views(ls@) =~= lines_of(text@));
    }
    ls
}

proof fn lemma_find_first_in(s: Seq<char>, c: char)
    ensures
        find_first(s, c) matches Some(i) ==> 0 <= i < s.len() && s[i] == c,
    decreases s.len(),
{
    if s.len() > 0 && s[0] != c {
        lemma_find_first_in(s.drop_first(), c);
    }
}

proof fn lemma_find_last_in(s: Seq<char>, c: char)
    ensures
        find_last(s, c) matches Some(i) ==> 0 <= i < s.len() && s[i] == c,
    decreases s.len(),
{
    if s.len() > 0 && s.last() != c {
        lemma_find_last_in(s.drop_last(), c);
    }
}

proof fn lemma_run_lines_err(st: AsmState, ls: Seq<Seq<char>>, k: nat, n: nat)
    requires
        k <= n,
        run_lines(st, ls, k) is Err,
    ensures
        run_lines(st, ls, n) == run_lines(st, ls, k),
    decreases n - k,
{
    if k < n {
        lemma_run_lines_err(st, ls, k, (n - 1) as nat);
    }
}

proof fn lemma_resolve_err(ins: Seq<InsView>, labels: Seq<(Seq<char>, int)>, lines: Seq<int>, k: nat, n: nat)
    requires
        k <= n,
        resolve_spec(ins, labels, lines, k) is Err,
    ensures
        resolve_spec(ins, labels, lines, n) == resolve_spec(ins, labels, lines, k),
    decreases n - k,
{
    if k < n {
        lemma_resolve_err(ins, labels, lines, k, (n - 1) as nat);
    }
}

/// The views of a sequence of instructions.
pub open spec fn ins_views(v: Seq<Instruction>) -> Seq<InsView> {
    v.map_values(|i: Instruction| ins_view(i))
}

impl Assembler {
    /// Splits a statement into its parts: on white space and commas, except
    /// inside a bracketed address expression, which stays one part.
    pub fn parse_instruction_parts(line: &Vec<char>) -> (r: Vec<Vec<char>>)
        ensures
            views(r@) == tokens(line@),
    {
        let mut parts: Vec<Vec<char>> = Vec::new();
        let mut current: Vec<char> = Vec::new();
        let mut in_brackets = false;
        let mut i: usize = 0;
        while i < line.len()
            invariant
                i <= line@.len(),
                (views(parts@), current@, in_brackets) == tok_fold(line@.subrange(0, i as int)),
            decreases line@.len() - i,
        {
            let ghost t = line@.subrange(0, i + 1);
            assert(t.drop_last() == line@.subrange(0, i as int));
            let ch = line[i];
            if ch == '[' {
                in_brackets = true;
                current.push(ch);
            } else if ch == ']' {
                in_brackets = false;
                current.push(ch);
            } else if (ch == ',' || is_whitespace(ch)) && !in_brackets {
                let t2 = trimmed(&current);
                if t2.len() > 0 {
                    parts.push(t2);
                    current = Vec::new();
                    assert(views(parts@) =~= tok_fold(t).0);
                    assert(current@ =~= tok_fold(t).1);
                }
            } else {
                current.push(ch);
            }
            i = i + 1;
        }
        assert(line@.subrange(0, i as int) == line@);
        let t2 = trimmed(&current);
        if t2.len() > 0 {
            parts.push(t2);
            assert(views(parts@) =~= tokens(line@));
        }
        parts
    }

    /// Reads a register operand.
    pub fn parse_register(reg: &Vec<char>) -> (r: Option<u8>)
        ensures
            r == register_spec(reg@),
    {
        if reg.len() > 0 && (reg[0] == 'r' || reg[0] == 'R') {
            assert(reg@.subrange(1, reg@.len() as int) == reg@.drop_first());
            match parse_int(reg, 1, 10, false, 0, 255) {
                Some(v) => Some(v as u8),
                None => None,
            }
        } else {
            None
        }
    }

    /// Reads an immediate operand.
    pub fn parse_immediate(imm: &Vec<char>) -> (r: Option<i32>)
        ensures
            r == immediate_spec(imm@),
    {
        let lo = i32::MIN as i64;
        let hi = i32::MAX as i64;
        let v = if imm.len() > 0 && imm[0] == '#' {
            assert(imm@.subrange(1, imm@.len() as int) == imm@.drop_first());
            parse_int(imm, 1, 10, true, lo, hi)
        } else if has_prefix(imm, "0x") {
            proof {
                reveal_strlit("0x");
            }
            parse_int(imm, 2, 16, true, lo, hi)
        } else {
            assert(imm@.subrange(0, imm@.len() as int) == imm@);
            parse_int(imm, 0, 10, true, lo, hi)
        };
        match v {
            Some(x) => Some(x as i32),
            None => None,
        }
    }

    /// The assembler's state as the contracts see it.
    pub open spec fn state(&self) -> AsmState {
        AsmState {
            labels: self.labels@.map_values(|l: LabelDef| (l.name@, l.addr as int)),
            instrs: ins_views(self.instructions@),
            lines: self.instruction_lines@.map_values(|l: usize| l as int),
            data: self.data_section@,
            start: match self.start_label {
                Some(l) => Some(l@),
                None => None,
            },
            section: self.current_section,
        }
    }

    /// An assembler with no labels, instructions or data, in the text section.
    pub fn new() -> (r: Self)
        ensures
            r.state() == (AsmState {
                labels: seq![],
                instrs: seq![],
                lines: seq![],
                data: seq![],
                start: None,
                section: Section::Text,
            }),
    {
        let r = Assembler {
            labels: Vec::new(),
            instructions: Vec::new(),
            instruction_lines: Vec::new(),
            data_section: Vec::new(),
            start_label: None,
            current_section: Section::Text,
        };
        assert(r.state().labels =~= seq![]);
        assert(r.state().instrs =~= seq![]);
        assert(r.state().lines =~= seq![]);
        r
    }

    /// The address of label `name`, its last definition winning.
    pub fn lookup_label(&self, name: &Vec<char>) -> (r: Option<usize>)
        ensures
            r matches Some(a) ==> lookup(self.state().labels, name@) == Some(a as int),
            r is None ==> lookup(self.state().labels, name@) is None,
    {
        let ghost ls = self.state().labels;
        let mut j: usize = self.labels.len();
        assert(ls.subrange(0, j as int) == ls);
        while j > 0
            invariant
                j <= self.labels@.len(),
                ls == self.state().labels,
                lookup(ls, name@) == lookup(ls.subrange(0, j as int), name@),
            decreases j,
        {
            let ghost t = ls.subrange(0, j as int);
            assert(t.drop_last() == ls.subrange(0, j - 1));
            if same_chars(&self.labels[j - 1].name, name) {
                return Some(self.labels[j - 1].addr);
            }
            j = j - 1;
        }
        None
    }

    fn data_directive(&mut self, t: &Vec<char>, ln: usize) -> (r: Result<(), Vec<char>>)
        ensures
            match data_step(old(self).state(), t@, ln as int) {
                Ok(st) => r is Ok && final(self).state() == st,
                Err(e) => r matches Err(m) && m@ == e,
            },
    {
        let ghost st = self.state();
        if has_prefix(t, ".ascii") || has_prefix(t, ".string") {
            let a = match first_index(t, '"') {
                None => {
                    return Err(line_msg("Missing opening quote", ln));
                },
                Some(a) => a,
            };
            let b = match last_index(t, '"') {
                None => {
                    return Err(line_msg("Missing closing quote", ln));
                },
                Some(b) => b,
            };
            if a >= b {
                return Err(line_msg("Invalid string format", ln));
            }
            proof {
                lemma_find_first_in(t@, '"');
                lemma_find_last_in(t@, '"');
            }
            let content = slice_of(t, a + 1, b);
            let processed = unescape_exec(&content);
            push_utf8(&mut self.data_section, &processed);
            if has_prefix(t, ".string") {
                self.data_section.push(0);
            }
            assert(self.state() =~= match data_step(st, t@, ln as int) {
                Ok(s2) => s2,
                Err(_) => st,
            });
            return Ok(());
        }
        let is_byte = has_prefix(t, ".byte");
        let is_word = has_prefix(t, ".word");
        if is_byte || is_word {
            let mut parts = split_whitespace(t);
            if parts.len() > 0 {
                parts.remove(0);
            }
            assert(views(parts@) =~= tail_words(t@));
            let r = if is_byte {
                push_byte_values(&mut self.data_section, &parts, ln)
            } else {
                push_word_values(&mut self.data_section, &parts, ln)
            };
            match r {
                Ok(()) => {
                    return Ok(());
                },
                Err(e) => {
                    return Err(e);
                },
            }
        }
        Ok(())
    }

    fn text_statement(&mut self, t: &Vec<char>, ln: usize) -> (r: Result<(), Vec<char>>)
        requires
            old(self).current_section == Section::Text,
        ensures
            match statement_step(old(self).state(), t@, ln as int) {
                Ok(st) => r is Ok && final(self).state() == st,
                Err(e) => r matches Err(m) && m@ == e,
            },
    {
        let parts = Assembler::parse_instruction_parts(t);
        if parts.len() == 0 {
            return Ok(());
        }
        assert(views(parts@)[0] == parts@[0]@);
        let up = uppercase(&parts[0]);
        match mnemonic_op(&up) {
            None => {
                let mut m: Vec<char> = Vec::new();
                push_str(&mut m, "Unknown opcode: ");
                push_chars(&mut m, &up);
                line_suffix_msg(&mut m, ln);
                assert(m@ =~= "Unknown opcode: "@ + up@ + line_suffix(ln as int));
                Err(m)
            },
            Some(op) => match parse_statement(&parts, op, &up, ln) {
                Ok(ins) => {
                    self.instructions.push(ins);
                    self.instruction_lines.push(ln);
                    assert(self.state().lines =~= old(self).state().lines.push(ln as int));
                    assert(self.state().instrs =~= old(self).state().instrs.push(ins_view(ins)));
                    Ok(())
                },
                Err(e) => Err(e),
            },
        }
    }

    fn statement(&mut self, t: &Vec<char>, ln: usize) -> (r: Result<(), Vec<char>>)
        ensures
            match statement_step(old(self).state(), t@, ln as int) {
                Ok(st) => r is Ok && final(self).state() == st,
                Err(e) => r matches Err(m) && m@ == e,
            },
    {
        if self.current_section == Section::Data {
            self.data_directive(t, ln)
        } else {
            self.text_statement(t, ln)
        }
    }

    /// Processes line `line`, whose number is `ln`.
    pub fn process_line(&mut self, line: &Vec<char>, ln: usize) -> (r: Result<(), Vec<char>>)
        ensures
            match line_step(old(self).state(), line@, ln as int) {
                Ok(st) => r is Ok && final(self).state() == st,
                Err(e) => r matches Err(m) && m@ == e,
            },
    {
        let t = trimmed(line);
        if t.len() == 0 || t[0] == ';' {
            return Ok(());
        }
        if equals_str(&t, ".data") {
            self.current_section = Section::Data;
            return Ok(());
        }
        if equals_str(&t, ".text") {
            self.current_section = Section::Text;
            return Ok(());
        }
        if has_prefix(&t, ".start") {
            let ps = split_whitespace(&t);
            if ps.len() >= 2 {
                assert(views(ps@)[1] == ps@[1]@);
                let name = slice_of(&ps[1], 0, ps[1].len());
                assert(name@ == split_ws(t@)[1]);
                self.start_label = Some(name);
                assert(self.state() == (AsmState { start: Some(split_ws(t@)[1]), ..old(self).state() }));
            }
            return Ok(());
        }
        match first_index(&t, ':') {
            Some(pos) => {
                proof {
                    lemma_find_first_in(t@, ':');
                }
                let lab = trim_range(&t, 0, pos);
                if !contains_ws(&lab) {
                    let addr: usize = if self.current_section == Section::Data {
                        self.data_section.len().wrapping_add(512)
                    } else {
                        self.instructions.len()
                    };
                    self.labels.push(LabelDef { name: lab, addr });
                    assert(self.state().labels =~= old(self).state().labels.push(
                        (lab@, here(old(self).state())),
                    ));
                    let rest = trim_range(&t, pos + 1, t.len());
                    if rest.len() == 0 {
                        return Ok(());
                    }
                    self.statement(&rest, ln)
                } else {
                    self.statement(&t, ln)
                }
            },
            None => self.statement(&t, ln),
        }
    }

    /// Assembles `source` into a binary image, or gives the first error.
    pub fn assemble(&mut self, source: &str) -> (r: Result<Vec<u8>, String>)
        ensures
            match assemble_spec(old(self).state(), source@) {
                Ok(b) => r matches Ok(v) && v@ == b,
                Err(e) => r matches Err(m) && m@ == e,
            },
    {
        let ghost st0 = self.state();
        let text = chars_of(source);
        let lines = split_lines(&text);
        let ghost ls = lines_of(source@);
        let mut i: usize = 0;
        while i < lines.len()
            invariant
                views(lines@) == ls,
                ls == lines_of(source@),
                st0 == old(self).state(),
                i <= lines@.len(),
                run_lines(st0, ls, i as nat) == Ok::<AsmState, Seq<char>>(self.state()),
            decreases lines@.len() - i,
        {
            assert(ls[i as int] == lines@[i as int]@);
            let ghost pre = self.state();
            assert(run_lines(st0, ls, (i + 1) as nat) == line_step(pre, ls[i as int], (i + 1) as int));
            match self.process_line(&lines[i], i + 1) {
                Err(e) => {
                    proof {
                        assert(run_lines(st0, ls, (i + 1) as nat) is Err);
                        lemma_run_lines_err(st0, ls, (i + 1) as nat, ls.len());
                    }
                    return Err(string_of(&e));
                },
                Ok(()) => {},
            }
            i = i + 1;
        }
        let ghost fin = self.state();
        assert(run_lines(st0, ls, ls.len()) == Ok::<AsmState, Seq<char>>(fin));
        let mut resolved: Vec<Instruction> = Vec::new();
        let mut k: usize = 0;
        assert(ins_views(resolved@) =~= seq![]);
        while k < self.instructions.len()
            invariant
                fin == self.state(),
                st0 == old(self).state(),
                ls == lines_of(source@),
                run_lines(st0, ls, ls.len()) == Ok::<AsmState, Seq<char>>(fin),
                k <= self.instructions@.len(),
                resolve_spec(fin.instrs, fin.labels, fin.lines, k as nat) == Ok::<Seq<InsView>, Seq<char>>(
                    ins_views(resolved@),
                ),
            decreases self.instructions@.len() - k,
        {
            let ins = &self.instructions[k];
            assert(fin.instrs[k as int] == ins_view(*ins));
            let imm = match &ins.label {
                None => ins.immediate,
                Some(l) => match self.lookup_label(l) {
                    None => {
                        let line = if k < self.instruction_lines.len() {
                            self.instruction_lines[k]
                        } else {
                            0
                        };
                        let m = operand_msg("Undefined label: ", l, line);
                        assert(line as int == line_at(fin.lines, k as int));
                        assert(resolve_spec(fin.instrs, fin.labels, fin.lines, (k + 1) as nat) == Err::<Seq<InsView>, Seq<char>>(m@));
                        proof {
                            lemma_resolve_err(fin.instrs, fin.labels, fin.lines, (k + 1) as nat, fin.instrs.len());
                        }
                        return Err(string_of(&m));
                    },
                    Some(a) => #[verifier::truncate] (a as i32),
                },
            };
            let ghost before = ins_views(resolved@);
            resolved.push(make(ins.opcode, ins.rd, ins.rs1, ins.rs2, imm, None));
            assert(ins_views(resolved@) =~= before.push(ins_views(resolved@).last()));
            k = k + 1;
        }
        let ghost rv = ins_views(resolved@);
        let mut out: Vec<u8> = Vec::new();
        let mut d: usize = 0;
        while d < self.data_section.len()
            invariant
                d <= self.data_section@.len(),
                out@ == self.data_section@.subrange(0, d as int),
            decreases self.data_section@.len() - d,
        {
            out.push(self.data_section[d]);
            d = d + 1;
            assert(out@ =~= self.data_section@.subrange(0, d as int));
        }
        assert(self.data_section@.subrange(0, d as int) == self.data_section@);
        let ghost dl = out@.len();
        while out.len() % 8 != 0
            invariant
                dl == self.data_section@.len(),
                dl <= out@.len() <= dl + 8,
                out@ == self.data_section@ + Seq::new((out@.len() - dl) as nat, |i: int| 0u8),
                out@.len() % 8 != 0 ==> (out@.len() - dl) < (8 - dl % 8) % 8,
                out@.len() % 8 == 0 ==> (out@.len() - dl) == (8 - dl % 8) % 8,
            decreases dl + 8 - out@.len(),
        {
            out.push(0);
            assert(out@ =~= self.data_section@ + Seq::new((out@.len() - dl) as nat, |i: int| 0u8));
        }
        assert(out@ =~= self.data_section@ + padding(dl));
        let start: usize = match &self.start_label {
            None => 0,
            Some(l) => match self.lookup_label(l) {
                Some(a) => a,
                None => 0,
            },
        };
        push_le_i32(&mut out, (start as u32) as i32);
        out.push(0);
        out.push(0);
        out.push(0);
        out.push(0);
        let ghost head = out@;
        assert(head =~= fin.data + padding(fin.data.len()) + le_bytes(
            (start_of(fin) as u32) as i32,
        ) + seq![0u8, 0u8, 0u8, 0u8]);
        let mut j: usize = 0;
        while j < resolved.len()
            invariant
                j <= resolved@.len(),
                rv == ins_views(resolved@),
                out@ == head + records(rv.subrange(0, j as int)),
            decreases resolved@.len() - j,
        {
            let ghost t = rv.subrange(0, j + 1);
            assert(t.drop_last() == rv.subrange(0, j as int));
            push_record(&mut out, &resolved[j]);
            j = j + 1;
            assert(out@ =~= head + records(rv.subrange(0, j as int)));
        }
        assert(rv.subrange(0, j as int) == rv);
        Ok(out)
    }
}

/// The operation named by an upper-cased mnemonic.
pub fn mnemonic_op(u: &Vec<char>) -> (r: Option<OpCode>)
    ensures
        r == mnemonic_spec(u@),
{
    if equals_str(u, "MOV") { Some(OpCode::MOV) }
    else if equals_str(u, "ADD") { Some(OpCode::ADD) }
    else if equals_str(u, "SUB") { Some(OpCode::SUB) }
    else if equals_str(u, "MUL") { Some(OpCode::MUL) }
    else if equals_str(u, "DIV") { Some(OpCode::DIV) }
    else if equals_str(u, "CMP") { Some(OpCode::CMP) }
    else if equals_str(u, "JMP") { Some(OpCode::JMP) }
    else if equals_str(u, "JEQ") { Some(OpCode::JEQ) }
    else if equals_str(u, "JNE") { Some(OpCode::JNE) }
    else if equals_str(u, "JLT") { Some(OpCode::JLT) }
    else if equals_str(u, "JGT") { Some(OpCode::JGT) }
    else if equals_str(u, "LEA") { Some(OpCode::LOAD) }
    else if equals_str(u, "STO") { Some(OpCode::STORE) }
    else if equals_str(u, "PUS") { Some(OpCode::PUSH) }
    else if equals_str(u, "POP") { Some(OpCode::POP) }
    else if equals_str(u, "CAL") { Some(OpCode::CALL) }
    else if equals_str(u, "RET") { Some(OpCode::RET) }
    else if equals_str(u, "HLT") { Some(OpCode::HALT) }
    else if equals_str(u, "NOP") { Some(OpCode::NOP) }
    else if equals_str(u, "AND") { Some(OpCode::AND) }
    else if equals_str(u, "OR") { Some(OpCode::OR) }
    else if equals_str(u, "XOR") { Some(OpCode::XOR) }
    else if equals_str(u, "NOT") { Some(OpCode::NOT) }
    else if equals_str(u, "LSL") { Some(OpCode::LSL) }
    else if equals_str(u, "LSR") { Some(OpCode::LSR) }
    else if equals_str(u, "PRT") { Some(OpCode::PRINT) }
    else if equals_str(u, "PRC") { Some(OpCode::PRINTC) }
    else if equals_str(u, "INP") { Some(OpCode::INPUT) }
    else { None }
}

fn push_chars(out: &mut Vec<char>, s: &Vec<char>)
    ensures
        final(out)@ == old(out)@ + s@,
{
    let mut i: usize = 0;
    while i < s.len()
        invariant
            i <= s@.len(),
            out@ == old(out)@ + s@.subrange(0, i as int),
        decreases s@.len() - i,
    {
        out.push(s[i]);
        i = i + 1;
        assert(out@ =~= old(out)@ + s@.subrange(0, i as int));
    }
    assert(s@.subrange(0, s@.len() as int) == s@);
}

fn line_suffix_msg(out: &mut Vec<char>, ln: usize)
    ensures
        final(out)@ == old(out)@ + line_suffix(ln as int),
{
    push_str(out, " at line ");
    push_nat_digits(out, ln as u64);
    assert(out@ =~= old(out)@ + line_suffix(ln as int));
}

fn operand_count(op: OpCode) -> (r: usize)
    ensures
        r == arity(op),
{
    match op {
        OpCode::MOV | OpCode::CMP | OpCode::LOAD | OpCode::STORE | OpCode::NOT => 2,
        OpCode::ADD | OpCode::SUB | OpCode::MUL | OpCode::DIV | OpCode::AND | OpCode::OR
        | OpCode::XOR | OpCode::LSL | OpCode::LSR => 3,
        OpCode::JMP | OpCode::JEQ | OpCode::JNE | OpCode::JLT | OpCode::JGT | OpCode::CALL
        | OpCode::PUSH | OpCode::POP | OpCode::PRINT | OpCode::PRINTC | OpCode::INPUT => 1,
        _ => 0,
    }
}

fn operand_error_msg(op: OpCode, upper: &Vec<char>, ln: usize) -> (r: Vec<char>)
    ensures
        r@ == operand_error(op, upper@, ln as int),
{
    let mut m: Vec<char> = Vec::new();
    push_str(&mut m, "Instruction ");
    push_chars(&mut m, upper);
    push_str(&mut m, " takes ");
    push_nat_digits(&mut m, operand_count(op) as u64);
    push_str(&mut m, " operand(s)");
    line_suffix_msg(&mut m, ln);
    assert(m@ =~= operand_error(op, upper@, ln as int));
    m
}

/// The message `m`, then the line.
fn line_msg(m: &str, ln: usize) -> (r: Vec<char>)
    ensures
        r@ == m@ + line_suffix(ln as int),
{
    let mut r: Vec<char> = Vec::new();
    push_str(&mut r, m);
    line_suffix_msg(&mut r, ln);
    r
}

/// The message `prefix`, then the operand `p`, then the line.
fn operand_msg(prefix: &str, p: &Vec<char>, ln: usize) -> (r: Vec<char>)
    ensures
        r@ == prefix@ + p@ + line_suffix(ln as int),
{
    let mut m: Vec<char> = Vec::new();
    push_str(&mut m, prefix);
    push_chars(&mut m, p);
    line_suffix_msg(&mut m, ln);
    assert(m@ =~= prefix@ + p@ + line_suffix(ln as int));
    m
}

fn register_or_error(p: &Vec<char>, ln: usize) -> (r: Result<u8, Vec<char>>)
    ensures
        match register_spec(p@) {
            Some(v) => r == Ok::<u8, Vec<char>>(v),
            None => r matches Err(m) && m@ == reg_error(p@, ln as int),
        },
{
    match Assembler::parse_register(p) {
        Some(v) => Ok(v),
        None => Err(operand_msg("Invalid register: ", p, ln)),
    }
}

fn make(op: OpCode, rd: u8, rs1: u8, rs2: u8, immediate: i32, label: Option<Vec<char>>) -> (r: Instruction)
    ensures
        r.opcode == op && r.rd == rd && r.rs1 == rs1 && r.rs2 == rs2 && r.immediate == immediate
            && r.label == label,
{
    Instruction { opcode: op, rd, rs1, rs2, immediate, label }
}

fn mov_source_exec(op: OpCode, rd: u8, p: &Vec<char>) -> (r: Instruction)
    ensures
        ins_view(r) == mov_source(op, rd, p@),
{
    match Assembler::parse_immediate(p) {
        Some(v) => make(op, rd, 0, 0, v, None),
        None => match Assembler::parse_register(p) {
            Some(r) => make(op, rd, r, 0, 0, None),
            None => make(op, rd, 0, 0, 0, Some(slice_of(p, 0, p.len()))),
        },
    }
}

fn second_source_exec(op: OpCode, rd: u8, r1: u8, p: &Vec<char>, ln: usize) -> (r: Result<Instruction, Vec<char>>)
    ensures
        match second_source(op, rd, r1, p@, ln as int) {
            Ok(v) => r matches Ok(i) && ins_view(i) == v,
            Err(e) => r matches Err(m) && m@ == e,
        },
{
    match Assembler::parse_immediate(p) {
        Some(v) => Ok(make(op, rd, r1, 0, v, None)),
        None => match Assembler::parse_register(p) {
            Some(r2) => Ok(make(op, rd, r1, r2, 0, None)),
            None => Err(operand_msg("Invalid operand: ", p, ln)),
        },
    }
}

fn address_operand_exec(op: OpCode, rd: u8, p: &Vec<char>) -> (r: Instruction)
    ensures
        ins_view(r) == address_operand(op, rd, p@),
{
    let a = strip_end(&strip_start(p, '['), ']');
    match Assembler::parse_register(&a) {
        Some(r) => make(op, rd, r, 0, 0, None),
        None => match Assembler::parse_immediate(&a) {
            Some(v) => make(op, rd, 0, 0, v, None),
            None => make(op, rd, 0, 0, 0, Some(a)),
        },
    }
}

/// Builds the instruction of a line from its parts, once the upper-cased
/// mnemonic `upper` has named `op`; `ln` is the line number for messages.
pub fn parse_statement(parts: &Vec<Vec<char>>, op: OpCode, upper: &Vec<char>, ln: usize) -> (r: Result<Instruction, Vec<char>>)
    requires
        parts@.len() >= 1,
    ensures
        match statement_spec(views(parts@), op, upper@, ln as int) {
            Ok(v) => r matches Ok(i) && ins_view(i) == v,
            Err(e) => r matches Err(m) && m@ == e,
        },
{
    let n = parts.len();
    let ghost ps = views(parts@);
    assert(forall|i: int| 0 <= i < n ==> #[trigger] ps[i] == parts@[i]@);
    if n - 1 != operand_count(op) {
        return Err(operand_error_msg(op, upper, ln));
    }
    match op {
        OpCode::MOV => {
            let rd = register_or_error(&parts[1], ln)?;
            Ok(mov_source_exec(op, rd, &parts[2]))
        },
        OpCode::ADD | OpCode::SUB | OpCode::MUL | OpCode::DIV | OpCode::AND | OpCode::OR
        | OpCode::XOR => {
            let rd = register_or_error(&parts[1], ln)?;
            let r1 = register_or_error(&parts[2], ln)?;
            second_source_exec(op, rd, r1, &parts[3], ln)
        },
        OpCode::CMP => {
            let r1 = register_or_error(&parts[1], ln)?;
            second_source_exec(op, 0, r1, &parts[2], ln)
        },
        OpCode::JMP | OpCode::JEQ | OpCode::JNE | OpCode::JLT | OpCode::JGT | OpCode::CALL => {
            match Assembler::parse_immediate(&parts[1]) {
                Some(v) => Ok(make(op, 0, 0, 0, v, None)),
                None => Ok(make(op, 0, 0, 0, 0, Some(slice_of(&parts[1], 0, parts[1].len())))),
            }
        },
        OpCode::LOAD | OpCode::STORE => {
            let rd = register_or_error(&parts[1], ln)?;
            Ok(address_operand_exec(op, rd, &parts[2]))
        },
        OpCode::PUSH | OpCode::POP | OpCode::PRINT | OpCode::PRINTC | OpCode::INPUT => {
            let rd = register_or_error(&parts[1], ln)?;
            Ok(make(op, rd, 0, 0, 0, None))
        },
        OpCode::NOT => {
            let rd = register_or_error(&parts[1], ln)?;
            let r1 = register_or_error(&parts[2], ln)?;
            Ok(make(op, rd, r1, 0, 0, None))
        },
        OpCode::LSL | OpCode::LSR => {
            let rd = register_or_error(&parts[1], ln)?;
            let r1 = register_or_error(&parts[2], ln)?;
            match Assembler::parse_immediate(&parts[3]) {
                Some(v) => Ok(make(op, rd, r1, 0, v, None)),
                None => Err(operand_msg("Invalid immediate: ", &parts[3], ln)),
            }
        },
        _ => Ok(make(op, 0, 0, 0, 0, None)),
    }
}

} // verus!
