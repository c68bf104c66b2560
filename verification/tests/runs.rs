use tape_machine::nesting::NestingError;
use tape_machine::program::{Program, Stop};

fn run_with_input(source: &str, input: &[u8]) -> (Program, Stop, u64) {
    let mut prog = match Program::load(source) {
        Ok(prog) => prog,
        Err(e) => panic!("unbalanced: {:?}", e),
    };
    for b in input {
        prog.feed(*b);
    }
    let (stop, steps) = prog.exec(1_000_000);
    (prog, stop, steps)
}

#[test]
fn two_increments_then_output() {
    let (prog, stop, steps) = run_with_input("++.", &[]);
    assert_eq!(stop, Stop::Halted);
    assert_eq!(steps, 3);
    assert_eq!(prog.output(), &vec![2u8]);
    assert!(prog.is_halted());
}

#[test]
fn loop_runs_once_and_outputs_zero() {
    let (prog, stop, steps) = run_with_input("+[-.]", &[]);
    assert_eq!(stop, Stop::Halted);
    assert_eq!(prog.output(), &vec![0u8]);
    // + [ - . ] : five instructions, each executed once
    assert_eq!(steps, 5);
    assert_eq!(prog.ip(), 5);
    assert_eq!(prog.cell(), 0);
}

#[test]
fn echo_one_input_byte() {
    let (prog, stop, _) = run_with_input(",.", &[65]);
    assert_eq!(stop, Stop::Halted);
    assert_eq!(prog.output(), &vec![b'A']);
    assert_eq!(prog.cell(), 65);
}

#[test]
fn empty_loop_on_zero_cell_is_skipped() {
    let (prog, stop, steps) = run_with_input("[]", &[]);
    assert_eq!(stop, Stop::Halted);
    assert_eq!(steps, 1);
    assert_eq!(prog.ip(), 2);
    assert!(prog.output().is_empty());
    assert_eq!(prog.cell(), 0);
}

#[test]
fn lone_close_bracket_is_rejected() {
    match Program::load("]") {
        Ok(_) => panic!("a stray `]` was accepted"),
        Err(e) => assert_eq!(e, NestingError::StrayClose),
    }
}

#[test]
fn three_times_three() {
    let (prog, stop, _) = run_with_input("+++[>+++<-]>.", &[]);
    assert_eq!(stop, Stop::Halted);
    assert_eq!(prog.output(), &vec![9u8]);
    assert_eq!(prog.dp(), 1);
    assert_eq!(prog.cell_at(0), 0);
    assert_eq!(prog.cell_at(1), 9);
}

#[test]
fn input_past_the_end_reads_zero() {
    let (prog, stop, _) = run_with_input("+,.,.", &[7]);
    assert_eq!(stop, Stop::Halted);
    assert_eq!(prog.output(), &vec![7u8, 0u8]);
}

#[test]
fn input_is_read_in_order() {
    let (prog, _, _) = run_with_input(",>,>,<<.>.>.", &[10, 20, 30]);
    assert_eq!(prog.output(), &vec![10u8, 20, 30]);
}

#[test]
fn nested_loops_match_innermost_first() {
    // 2 * 3 * 4 = 24 in the third cell
    let (prog, stop, _) = run_with_input("++[>+++[>++++<-]<-]>>.", &[]);
    assert_eq!(stop, Stop::Halted);
    assert_eq!(prog.output(), &vec![24u8]);
    assert_eq!(prog.dp(), 2);
}

#[test]
fn skip_lands_behind_the_matching_close() {
    // the cell is zero, so the whole outer loop, inner loop included, is skipped
    let (prog, stop, steps) = run_with_input("[+[-]+]+.", &[]);
    assert_eq!(stop, Stop::Halted);
    assert_eq!(steps, 3);
    assert_eq!(prog.output(), &vec![1u8]);
}

#[test]
fn back_jump_lands_on_the_first_body_instruction() {
    let mut prog = Program::from_source("++[-]");
    assert!(prog.step()); // +
    assert!(prog.step()); // +
    assert!(prog.step()); // [ : cell is 2, enter
    assert_eq!(prog.ip(), 3);
    assert!(prog.step()); // -
    assert_eq!(prog.ip(), 4);
    assert_eq!(prog.cell(), 1);
    assert!(prog.step()); // ] : cell is 1, back to the body
    assert_eq!(prog.ip(), 3);
    assert!(prog.step()); // -
    assert_eq!(prog.cell(), 0);
    assert!(prog.step()); // ] : cell is 0, leave
    assert_eq!(prog.ip(), 5);
    assert!(prog.is_halted());
}

#[test]
fn loop_opening_at_position_zero_can_be_jumped_back_to() {
    let mut prog = Program::from_source("[-]");
    prog.incc();
    prog.incc();
    // ip is now 2, on `]`, with the cell at 2
    assert_eq!(prog.ip(), 2);
    prog.rbrk();
    assert_eq!(prog.ip(), 1);
    prog.decc();
    assert_eq!(prog.cell(), 1);
}

#[test]
fn endless_loop_stops_at_the_limit() {
    let mut prog = Program::from_source("+[]");
    let (stop, steps) = prog.exec(1000);
    assert_eq!(stop, Stop::OutOfSteps);
    assert_eq!(steps, 1000);
    assert!(!prog.is_halted());
    // and can be resumed
    let (stop, steps) = prog.exec(10);
    assert_eq!(stop, Stop::OutOfSteps);
    assert_eq!(steps, 10);
}

#[test]
fn exec_with_no_allowance_does_nothing() {
    let mut prog = Program::from_source("+.");
    let (stop, steps) = prog.exec(0);
    assert_eq!(stop, Stop::OutOfSteps);
    assert_eq!(steps, 0);
    assert_eq!(prog.ip(), 0);
    assert_eq!(prog.cell(), 0);
}

#[test]
fn empty_program_is_halted_at_once() {
    let mut prog = Program::from_source("no instructions here");
    assert!(prog.is_halted());
    let (stop, steps) = prog.exec(10);
    assert_eq!(stop, Stop::Halted);
    assert_eq!(steps, 0);
}

#[test]
fn output_can_be_taken_between_steps() {
    let mut prog = Program::from_source("+.+.");
    let _ = prog.exec(2);
    assert_eq!(prog.take_output(), vec![1u8]);
    assert!(prog.output().is_empty());
    let _ = prog.exec(2);
    assert_eq!(prog.take_output(), vec![2u8]);
    assert!(prog.is_halted());
}

#[test]
fn awaits_input_only_at_a_read_without_input() {
    let mut prog = Program::from_source("+,.");
    assert!(!prog.awaits_input());
    assert!(prog.step());
    assert!(prog.awaits_input());
    prog.feed(200);
    assert!(!prog.awaits_input());
    assert!(prog.step());
    assert_eq!(prog.cell(), 200);
    assert!(!prog.awaits_input());
    assert!(prog.step());
    assert_eq!(prog.output(), &vec![200u8]);
    assert!(!prog.awaits_input());
}

#[test]
fn hello() {
    let source = "++++++++[>++++[>++>+++>+++>+<<<<-]>+>+>->>+[<]<-]>>.>---.+++++++..+++.>>.<-.<.+++.------.--------.>>+.>++.";
    let (prog, stop, _) = run_with_input(source, &[]);
    assert_eq!(stop, Stop::Halted);
    assert_eq!(prog.output().as_slice(), "Hello World!\n".as_bytes());
}
