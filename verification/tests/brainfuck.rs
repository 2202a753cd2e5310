use node_graph_interpreter::brainfuck::{Instruction, Interpreter, InterpreterState, ParseError};

fn program(src: &str) -> Interpreter {
    let mut it = Interpreter::default();
    for ch in src.chars() {
        let inst = match ch {
            '>' => Instruction::PtrInc,
            '<' => Instruction::PtrDec,
            '+' => Instruction::Inc,
            '-' => Instruction::Dec,
            '.' => Instruction::Prt,
            ',' => Instruction::Read,
            '[' => Instruction::JmpNext(0),
            ']' => Instruction::JmpPrev(0),
            other => panic!("unexpected source character {other:?}"),
        };
        it.instructions.push(inst);
    }
    it.parse_semantics().expect("well-bracketed program");
    it
}

fn run(it: &mut Interpreter, max_ticks: usize) {
    for _ in 0..max_ticks {
        if it.tick() {
            return;
        }
        if it.waitting_input {
            return;
        }
    }
    panic!("program did not finish in {max_ticks} ticks");
}

#[test]
fn parse_resolves_jump_targets() {
    let it = program("+[-]+");
    assert!(matches!(it.instructions[1], Instruction::JmpNext(4)));
    assert!(matches!(it.instructions[3], Instruction::JmpPrev(2)));
}

#[test]
fn parse_rejects_unbalanced_programs() {
    let mut it = Interpreter::default();
    it.instructions.push(Instruction::JmpPrev(0));
    assert_eq!(it.parse_semantics(), Err(ParseError::UnmatchedClose));

    let mut it = Interpreter::default();
    it.instructions.push(Instruction::JmpNext(0));
    it.instructions.push(Instruction::Inc);
    assert_eq!(it.parse_semantics(), Err(ParseError::UnmatchedOpen));

    let mut it = Interpreter::default();
    it.instructions.push(Instruction::JmpNext(0));
    it.instructions.push(Instruction::JmpPrev(0));
    it.instructions.push(Instruction::JmpPrev(0));
    assert_eq!(it.parse_semantics(), Err(ParseError::UnmatchedClose));
}

#[test]
fn print_three() {
    let mut it = program("+++.");
    run(&mut it, 100);
    assert_eq!(it.output, vec![3]);
}

#[test]
fn loop_transfers_cell() {
    // Move the value 4 from cell 0 to cell 1, then print it.
    let mut it = program("++++[->+<]>.");
    run(&mut it, 1000);
    assert_eq!(it.output, vec![4]);
}

#[test]
fn read_consumes_input_and_pauses_without() {
    let mut it = program(",.");
    it.input_buf.push_back(65);
    run(&mut it, 100);
    assert_eq!(it.output, vec![65]);
    assert!(!it.waitting_input);

    let mut it = program(",");
    run(&mut it, 100);
    assert!(it.waitting_input);
    // Supplying input lets the same instruction complete.
    it.input_buf.push_back(7);
    run(&mut it, 100);
    assert_eq!(it.memory[0], 7);
}

#[test]
fn wrapping_cells() {
    let mut it = program("-.");
    run(&mut it, 100);
    assert_eq!(it.output, vec![255]);
}

#[test]
fn reset_keeps_only_the_program() {
    let mut it = program("+++.");
    run(&mut it, 100);
    assert_eq!(it.output, vec![3]);
    it.reset();
    assert_eq!(it.output, Vec::<u8>::new());
    assert_eq!(it.memory, Vec::<u8>::new());
    assert_eq!(it.instruction_ptr, 0);
    assert_eq!(it.memory_ptr, 0);
    run(&mut it, 100);
    assert_eq!(it.output, vec![3]);
}

#[test]
fn interpreter_state_flags() {
    assert!(InterpreterState::Paused.is_paused());
    assert!(!InterpreterState::Paused.is_running());
    assert!(InterpreterState::Running.is_running());
    assert!(!InterpreterState::Running.is_paused());
}
