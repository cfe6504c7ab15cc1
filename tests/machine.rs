use famvm::assembler::Assembler;
use famvm::opcodes::OpCode;
use famvm::runtime::Runtime;
use famvm::runtime_error::RuntimeError;

fn assemble(src: &str) -> Result<Vec<u8>, String> {
    let mut assembler = Assembler::new();
    assembler.assemble(src)
}

fn run_source(src: &str) -> (Runtime, Result<(), RuntimeError>) {
    let image = assemble(src).expect("assembles");
    let mut vm = Runtime::new();
    vm.load_program(&image);
    let r = vm.run();
    (vm, r)
}

fn output(vm: &Runtime) -> String {
    vm.output.iter().collect()
}

#[test]
fn add_and_print() {
    let (vm, r) = run_source("MOV r1,#5\nADD r2,r1,#3\nPRT r2\nHLT");
    assert!(r.is_ok());
    assert_eq!(output(&vm), "8");
    assert!(!vm.running);
}

#[test]
fn print_data_string() {
    let (vm, r) = run_source(".data\nmsg: .string \"Hi\"\n.text\nPRC r0\nHLT");
    assert!(r.is_ok());
    assert_eq!(output(&vm), "Hi");
}

#[test]
fn division_by_zero_faults() {
    let (vm, r) = run_source("MOV r2, #4\nDIV r1,r2,#0\nPRT r1\nHLT");
    let e = r.expect_err("faults");
    assert_eq!(e.message, "Division by zero");
    assert_eq!(e.pc, 2);
    assert_eq!(e.instruction.opcode, OpCode::DIV);
    assert_eq!(e.stack_trace.len(), 1);
    assert_eq!(e.stack_trace[0].instruction, "DIV");
    assert_eq!(output(&vm), "");
    assert_eq!(vm.registers[1], 0);
}

#[test]
fn call_and_return() {
    let src = "MOV r1, #10\nMOV r3, #7\nCAL inc\nPRT r1\nPRT r3\nHLT\ninc: ADD r1, r1, #1\nRET";
    let (vm, r) = run_source(src);
    assert!(r.is_ok());
    assert_eq!(output(&vm), "117");
    assert_eq!(vm.registers[1], 11);
    assert_eq!(vm.registers[3], 7);
    assert!(vm.stack.is_empty());
    assert!(vm.call_stack.is_empty());
}

#[test]
fn opcode_codes_round_trip() {
    for b in 0u8..=255 {
        if let Some(op) = OpCode::from_u8(b) {
            assert_eq!(op.to_u8(), b);
        } else {
            assert!(b == 0 || b > 28);
        }
    }
    assert_eq!(OpCode::MOV.to_u8(), 1);
    assert_eq!(OpCode::INPUT.to_u8(), 28);
}

#[test]
fn instruction_fields_survive_encoding() {
    let image = assemble("LSR r31, r7, #-5\nSTO r2, [r9]\nCMP r4, r5").unwrap();
    let mut vm = Runtime::new();
    vm.load_program(&image);
    let i = vm.get_instruction_at_pc(0).unwrap();
    assert_eq!((i.opcode, i.rd, i.rs1, i.rs2, i.immediate), (OpCode::LSR, 31, 7, 0, -5));
    let i = vm.get_instruction_at_pc(2).unwrap();
    assert_eq!((i.opcode, i.rd, i.rs1, i.rs2, i.immediate), (OpCode::STORE, 2, 9, 0, 0));
    let i = vm.get_instruction_at_pc(4).unwrap();
    assert_eq!((i.opcode, i.rd, i.rs1, i.rs2, i.immediate), (OpCode::CMP, 0, 4, 5, 0));
}

#[test]
fn image_layout() {
    let image = assemble(".data\n.byte 7\n.text\n.start go\nNOP\ngo: MOV r1, 0x10").unwrap();
    let expected: Vec<u8> = vec![
        7, 0, 0, 0, 0, 0, 0, 0, // data and padding
        1, 0, 0, 0, 0, 0, 0, 0, // start index 1
        19, 0, 0, 0, 0, 0, 0, 0, // NOP
        1, 1, 0, 0, 16, 0, 0, 0, // MOV r1, #16
    ];
    assert_eq!(image, expected);
}

#[test]
fn forward_and_backward_labels_agree() {
    let image = assemble("top: JMP end\nJMP top\nNOP\nend: JEQ top\nCAL end").unwrap();
    let imm = |k: usize| i32::from_le_bytes([image[8 + 8 * k + 4], image[8 + 8 * k + 5], image[8 + 8 * k + 6], image[8 + 8 * k + 7]]);
    assert_eq!(imm(0), 3);
    assert_eq!(imm(4), 3);
    assert_eq!(imm(1), 0);
    assert_eq!(imm(3), 0);
}

#[test]
fn data_labels_are_byte_addresses() {
    let src = ".data\na: .byte 1, 2, 3\nb: .word -1\n.text\nMOV r1, b\nMOV r2, a\nLEA r3, [b]\nPRT r1\nPRT r2\nPRT r3\nHLT";
    let (vm, r) = run_source(src);
    assert!(r.is_ok());
    assert_eq!(output(&vm), "515512255");
}

#[test]
fn arithmetic_wraps_around() {
    let src = "MOV r1, #2147483647\nADD r2, r1, #1\nPRT r2\nMOV r3, #-2147483648\nSUB r4, r3, #1\nPRT r4\nMUL r5, r1, r1\nPRT r5\nHLT";
    let (vm, r) = run_source(src);
    assert!(r.is_ok());
    assert_eq!(output(&vm), "-214748364821474836471");
}

#[test]
fn division_truncates_toward_zero() {
    let src = "MOV r1, #-7\nDIV r2, r1, #2\nPRT r2\nMOV r3, #-2147483648\nDIV r4, r3, #-1\nPRT r4\nHLT";
    let (vm, r) = run_source(src);
    assert!(r.is_ok());
    assert_eq!(output(&vm), "-3-2147483648");
    assert!(vm.flags.negative);
}

#[test]
fn compare_sets_flags() {
    let src = "MOV r1, #3\nCMP r1, #3\nJEQ eq\nPRT r1\neq: CMP r1, #5\nJLT lt\nPRT r1\nlt: CMP r1, #1\nJGT gt\nPRT r1\ngt: MOV r9, #1\nPRT r9\nHLT";
    let (vm, r) = run_source(src);
    assert!(r.is_ok());
    assert_eq!(output(&vm), "1");
    assert!(!vm.flags.zero);
    assert!(!vm.flags.negative);
}

#[test]
fn stack_is_last_in_first_out() {
    let src = "MOV r1, #1\nMOV r2, #2\nMOV r3, #3\nPUS r1\nPUS r2\nPUS r3\nPOP r4\nPOP r5\nPOP r6\nPRT r4\nPRT r5\nPRT r6\nHLT";
    let (vm, r) = run_source(src);
    assert!(r.is_ok());
    assert_eq!(output(&vm), "321");
}

#[test]
fn pop_on_empty_stack_faults() {
    let (_, r) = run_source("POP r1\nHLT");
    assert_eq!(r.unwrap_err().message, "Stack underflow: attempted to pop from empty stack");
    let (_, r) = run_source("RET");
    assert_eq!(r.unwrap_err().message, "Stack underflow: attempted to return with empty stack");
}

#[test]
fn shifts() {
    let src = "MOV r1, #-1\nLSR r2, r1, #28\nPRT r2\nMOV r3, #3\nLSL r4, r3, #4\nPRT r4\nHLT";
    let (vm, r) = run_source(src);
    assert!(r.is_ok());
    assert_eq!(output(&vm), "1548");
    let (_, r) = run_source("LSL r1, r1, #32");
    assert_eq!(r.unwrap_err().message, "Invalid left shift: shift amount 32 >= 32");
    let (_, r) = run_source("LSR r1, r1, #40");
    assert_eq!(r.unwrap_err().message, "Invalid right shift: shift amount 40 >= 32");
}

#[test]
fn printc_streams_until_zero() {
    let src = ".data\n.ascii \"ab\"\n.byte 0, 99\n.text\nPRC r0\nMOV r1, #33\nPRC r1\nMOV r2, #321\nPRC r2\nMOV r3, #256\nPRC r3\nHLT";
    let (vm, r) = run_source(src);
    assert!(r.is_ok());
    assert_eq!(output(&vm), "ab!A\u{0}");
}

#[test]
fn string_escapes() {
    let src = ".data\n.string \"a\\tb\\n\\\"\"\n.text\nPRC r0\nHLT";
    let (vm, r) = run_source(src);
    assert!(r.is_ok());
    assert_eq!(output(&vm), "a\tb\n\"");
}

#[test]
fn memory_bounds() {
    let (_, r) = run_source("LEA r1, [5000]");
    assert_eq!(r.unwrap_err().message, "Memory access out of bounds: address 5000 (max: 4095)");
    let (_, r) = run_source("MOV r1, #9\nSTO r1, [1024]");
    assert_eq!(r.unwrap_err().message, "Memory access out of bounds: address 1024 (max: 1023)");
    let (vm, r) = run_source("MOV r1, #65\nSTO r1, [200]\nLEA r2, [800]\nPRT r2\nHLT");
    assert!(r.is_ok());
    assert_eq!(output(&vm), "65");
}

#[test]
fn fault_trace_lists_pending_calls() {
    let src = "CAL f\nHLT\nf: CAL g\nRET\ng: DIV r1, r1, #0";
    let (_, r) = run_source(src);
    let e = r.unwrap_err();
    assert_eq!(e.pc, 8);
    let frames: Vec<(usize, String)> = e.stack_trace.iter().map(|f| (f.pc, f.instruction.clone())).collect();
    assert_eq!(frames, vec![(8, "DIV".to_string()), (2, "HALT".to_string()), (6, "RET".to_string())]);
}

#[test]
fn input_is_handed_in_by_the_caller() {
    let image = assemble("INP r4\nPRT r4\nHLT").unwrap();
    let mut vm = Runtime::new();
    vm.load_program(&image);
    assert!(vm.run().is_ok());
    assert!(vm.pending_input.is_some());
    assert!(vm.supply_input(Some(" 42\n")).is_ok());
    assert!(vm.pending_input.is_none());
    assert!(vm.run().is_ok());
    assert_eq!(output(&vm), "42");
}

#[test]
fn input_errors() {
    let image = assemble("INP r4\nHLT").unwrap();
    let fresh = || {
        let mut vm = Runtime::new();
        vm.load_program(&image);
        vm.run().unwrap();
        vm
    };
    let e = fresh().supply_input(Some("3000000000")).unwrap_err();
    assert_eq!(e.message, "Input integer overflow: 3000000000 is outside the range of 32-bit signed integers (-2147483648 to 2147483647)");
    let e = fresh().supply_input(Some("abc\n")).unwrap_err();
    assert_eq!(e.message, "Invalid integer input: 'abc' is not a valid integer");
    let e = fresh().supply_input(None).unwrap_err();
    assert_eq!(e.message, "Failed to read input from stdin");
    assert_eq!(e.instruction.opcode, OpCode::INPUT);
}

#[test]
fn assembly_errors() {
    assert_eq!(assemble("NOP\nFOO r1").unwrap_err(), "Unknown opcode: FOO at line 2");
    assert_eq!(assemble("MOV x1, #1").unwrap_err(), "Invalid register: x1 at line 1");
    assert_eq!(assemble("MOV r1").unwrap_err(), "Instruction MOV takes 2 operand(s) at line 1");
    assert_eq!(assemble("\nADD r1, r2").unwrap_err(), "Instruction ADD takes 3 operand(s) at line 2");
    assert_eq!(assemble("NOP\nJMP nowhere").unwrap_err(), "Undefined label: nowhere at line 2");
    assert_eq!(assemble(".data\n.byte 300").unwrap_err(), "Invalid byte value: 300 at line 2");
    assert_eq!(assemble(".data\n.word x").unwrap_err(), "Invalid word value: x at line 2");
    assert_eq!(assemble(".data\n.ascii hi").unwrap_err(), "Missing opening quote at line 2");
    assert_eq!(assemble(".data\n.ascii \"hi").unwrap_err(), "Invalid string format at line 2");
    assert_eq!(assemble("LSL r1, r2, r3").unwrap_err(), "Invalid immediate: r3 at line 1");
}

#[test]
fn operand_counts_are_exact() {
    assert_eq!(assemble("JMP").unwrap_err(), "Instruction JMP takes 1 operand(s) at line 1");
    assert_eq!(assemble("PUS").unwrap_err(), "Instruction PUS takes 1 operand(s) at line 1");
    assert_eq!(assemble("NOP\nPRT").unwrap_err(), "Instruction PRT takes 1 operand(s) at line 2");
    assert_eq!(assemble("HLT r1").unwrap_err(), "Instruction HLT takes 0 operand(s) at line 1");
    assert_eq!(assemble("ADD r1, r2, r3, r4").unwrap_err(), "Instruction ADD takes 3 operand(s) at line 1");
    assert_eq!(assemble("NOT r1, r2, r3").unwrap_err(), "Instruction NOT takes 2 operand(s) at line 1");
    assert!(assemble("RET\nHLT\nNOP").is_ok());
}

#[test]
fn bad_last_operand_is_an_error() {
    assert_eq!(assemble("ADD r1, r2, foo").unwrap_err(), "Invalid operand: foo at line 1");
    assert_eq!(assemble("NOP\nCMP r1, foo").unwrap_err(), "Invalid operand: foo at line 2");
    assert!(assemble("ADD r1, r2, r3\nSUB r1, r2, #-4\nCMP r1, 0x10").is_ok());
}

#[test]
fn escapes_are_one_pass() {
    let src = ".data\n.string \"a\\\\nb\\q\"\n.text\nPRC r0\nHLT";
    let (vm, r) = run_source(src);
    assert!(r.is_ok());
    assert_eq!(output(&vm), "a\\nb\\q");
}

#[test]
fn long_data_sections_load_whole() {
    let text = "x".repeat(601);
    let src = format!(".data\n.ascii \"{}\"\n.byte 0\n.text\nPRC r0\nLEA r1, [1111]\nPRT r1\nHLT", text);
    let (vm, r) = run_source(&src);
    assert!(r.is_ok());
    assert_eq!(output(&vm), format!("{}120", text));
}

#[test]
fn mnemonics_are_case_insensitive() {
    let (vm, r) = run_source("mov r1, #4\nprt R1\nhlt");
    assert!(r.is_ok());
    assert_eq!(output(&vm), "4");
}

#[test]
fn comments_and_blank_lines_are_skipped() {
    let (vm, r) = run_source("; comment\n\n   \nMOV r1, #2 \r\nPRT r1\r\nHLT\n");
    assert!(r.is_ok());
    assert_eq!(output(&vm), "2");
}

#[test]
fn run_stops_at_unknown_opcode() {
    let (vm, r) = run_source("MOV r1, #1");
    assert!(r.is_ok());
    assert!(vm.running);
    assert_eq!(vm.instruction_count, 1);
}

#[test]
fn fault_report_text() {
    let (_, r) = run_source("CAL f\nHLT\nf: DIV r1, r2, #0");
    let e = r.unwrap_err();
    let text: String = e.report().iter().collect();
    assert_eq!(
        text,
        "Runtime Error: Division by zero\n  at PC: 2 (instruction: DIV)\n\nStack trace:\n  #0: PC 1 - HALT\n  #1: PC 2 - DIV\n\nInstruction details:\n  Opcode: DIV\n  Registers: rd=1, rs1=2, rs2=0\n  Immediate: 0\n"
    );
}
