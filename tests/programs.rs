use brainfuck::{Interpreter, RunError, Step, SyntaxError, TAPE_LEN};

const STEPS: u64 = 10_000_000;

#[test]
pub fn github_profile() {
    let mut prog = Interpreter::new(
        "
            +++++ +++ [ >+++++ + [ >+>++>++<<<- ] >>+>++>+ [ < ] <- ] >>>-.>++++.<+.>++.--------.
            ",
    )
    .unwrap();
    let output = prog.run_with_input(&[], STEPS).unwrap_or("FAILED".to_string());
    assert_eq!(output, "gthvn");
}

#[test]
pub fn hello_test() {
    let mut prog = Interpreter::new(
        " source: wikipedia/Brainfuck
++++++++                Set Cell #0 to 8
[
    >++++               Add 4 to Cell #1; this will always set Cell #1 to 4
    [                   as the cell will be cleared by the loop
        >++             Add 2 to Cell #2
        >+++            Add 3 to Cell #3
        >+++            Add 3 to Cell #4
        >+              Add 1 to Cell #5
        <<<<-           Decrement the loop counter in Cell #1
    ]                   Loop until Cell #1 is zero; number of iterations is 4
    >+                  Add 1 to Cell #2
    >+                  Add 1 to Cell #3
    >-                  Subtract 1 from Cell #4
    >>+                 Add 1 to Cell #6
    [<]                 Move back to the first zero cell you find; this will
                        be Cell #1 which was cleared by the previous loop
    <-                  Decrement the loop Counter in Cell #0
]                       Loop until Cell #0 is zero; number of iterations is 8

The result of this is:
Cell no :   0   1   2   3   4   5   6
Contents:   0   0  72 104  88  32   8
Pointer :   ^

>>.                     Cell #2 has value 72 which is 'H'
>---.                   Subtract 3 from Cell #3 to get 101 which is 'e'
+++++++..+++.           Likewise for 'llo' from Cell #3
>>.                     Cell #5 is 32 for the space
<-.                     Subtract 1 from Cell #4 for 87 to give a 'W'
<.                      Cell #3 was set to 'o' from the end of 'Hello'
+++.------.--------.    Cell #3 for 'rl' and 'd'
>>+.                    Add 1 to Cell #5 gives us an exclamation point
>++.                    And finally a newline from Cell #6
            ",
    )
    .unwrap();
    let output = prog.run_with_input(&[], STEPS).unwrap_or("FAILED".to_string());
    assert_eq!(output, "Hello World!\n");
}

#[test]
fn lone_close_bracket_is_unbalanced() {
    assert!(matches!(Interpreter::new("]"), Err(SyntaxError::UnbalancedBrackets)));
}

#[test]
fn lone_open_bracket_is_missing_close() {
    assert!(matches!(Interpreter::new("["), Err(SyntaxError::MissingClosedBracket)));
}

#[test]
fn close_before_open_is_unbalanced() {
    assert!(matches!(Interpreter::new("][[]"), Err(SyntaxError::UnbalancedBrackets)));
}

#[test]
fn comments_only_program_does_nothing() {
    let mut prog = Interpreter::new("hello, world? no: only commas count").unwrap();
    assert_eq!(prog.run_with_input(&[], STEPS), Ok(String::new()));
}

#[test]
fn moving_right_to_last_cell_succeeds() {
    let src = ">".repeat(TAPE_LEN - 1);
    let mut prog = Interpreter::new(&src).unwrap();
    assert_eq!(prog.run_with_input(&[], STEPS), Ok(String::new()));
    assert_eq!(prog.data_pointer(), TAPE_LEN - 1);
}

#[test]
fn moving_right_past_tape_overflows_at_that_instruction() {
    let src = ">".repeat(TAPE_LEN);
    let mut prog = Interpreter::new(&src).unwrap();
    for k in 0..TAPE_LEN - 1 {
        assert_eq!(prog.step(None), Ok(Step::Continue));
        assert_eq!(prog.data_pointer(), k + 1);
    }
    assert_eq!(prog.instruction_pointer(), TAPE_LEN - 1);
    assert_eq!(prog.step(None), Err(RunError::MemoryOverflow));
    assert_eq!(prog.data_pointer(), TAPE_LEN - 1);
    assert_eq!(prog.instruction_pointer(), TAPE_LEN - 1);

    let mut whole = Interpreter::new(&src).unwrap();
    assert_eq!(whole.run_with_input(&[], STEPS), Err(RunError::MemoryOverflow));
}

#[test]
fn moving_left_of_first_cell_underflows() {
    let mut prog = Interpreter::new("+<").unwrap();
    assert_eq!(prog.run_with_input(&[], STEPS), Err(RunError::MemoryUnderflow));
    assert_eq!(prog.instruction_pointer(), 1);
    assert_eq!(prog.tape()[0], 1);
}

#[test]
fn decrement_of_zero_cell_goes_negative() {
    let mut prog = Interpreter::new("-").unwrap();
    assert_eq!(prog.run_with_input(&[], STEPS), Ok(String::new()));
    assert_eq!(prog.tape()[0], -1);

    let mut twice = Interpreter::new("--").unwrap();
    assert_eq!(twice.run_with_input(&[], STEPS), Ok(String::new()));
    assert_eq!(twice.tape()[0], -2);
}

#[test]
fn cells_are_not_reduced_to_a_byte() {
    let src = "+".repeat(256);
    let mut prog = Interpreter::new(&src).unwrap();
    assert_eq!(prog.run_with_input(&[], STEPS), Ok(String::new()));
    assert_eq!(prog.tape()[0], 256);
}

#[test]
fn negative_cell_emits_nothing() {
    let mut prog = Interpreter::new("-.+.").unwrap();
    assert_eq!(prog.run_with_input(&[], STEPS), Ok("\u{0}".to_string()));
}

#[test]
fn output_emits_code_point_of_cell() {
    let src = format!("{}.+.", "+".repeat(65));
    let mut prog = Interpreter::new(&src).unwrap();
    assert_eq!(prog.run_with_input(&[], STEPS), Ok("AB".to_string()));
}

#[test]
fn output_above_byte_range() {
    // 0x263A is a smiling face
    let src = format!("{}[>{}<-]>{}.", "+".repeat(38), "+".repeat(256), "+".repeat(58));
    let mut prog = Interpreter::new(&src).unwrap();
    assert_eq!(prog.run_with_input(&[], STEPS), Ok("\u{263A}".to_string()));
}

#[test]
fn input_stores_byte() {
    let mut prog = Interpreter::new(",.>,.").unwrap();
    assert_eq!(prog.run_with_input(b"hi", STEPS), Ok("hi".to_string()));
}

#[test]
fn exhausted_input_leaves_cell() {
    let mut prog = Interpreter::new("+++,.").unwrap();
    assert_eq!(prog.run_with_input(&[], STEPS), Ok("\u{3}".to_string()));
    let mut partial = Interpreter::new(",,.").unwrap();
    assert_eq!(partial.run_with_input(b"z", STEPS), Ok("z".to_string()));
}

#[test]
fn step_with_input_byte() {
    let mut prog = Interpreter::new(",").unwrap();
    assert_eq!(prog.step(Some(7)), Ok(Step::Continue));
    assert_eq!(prog.tape()[0], 7);
    assert_eq!(prog.step(Some(9)), Ok(Step::Finished));
    assert_eq!(prog.tape()[0], 7);
}

#[test]
fn loop_on_zero_cell_is_skipped() {
    let mut prog = Interpreter::new("[+.]").unwrap();
    assert_eq!(prog.step(None), Ok(Step::Continue));
    assert_eq!(prog.instruction_pointer(), 4);
    assert_eq!(prog.next_instruction(), None);
    assert_eq!(prog.step(None), Ok(Step::Finished));
}

#[test]
fn loop_end_jumps_back_into_body() {
    let mut prog = Interpreter::new("++[-]").unwrap();
    for _ in 0..3 {
        prog.step(None).unwrap();
    }
    assert_eq!(prog.instruction_pointer(), 3);
    assert_eq!(prog.step(None), Ok(Step::Continue));
    assert_eq!(prog.instruction_pointer(), 4);
    assert_eq!(prog.step(None), Ok(Step::Continue));
    assert_eq!(prog.instruction_pointer(), 3);
}

#[test]
fn endless_loop_hits_step_limit() {
    let mut prog = Interpreter::new("+[]").unwrap();
    assert_eq!(prog.run_with_input(&[], 1000), Err(RunError::StepLimitReached));
}

#[test]
fn step_budget_counts_steps() {
    let mut prog = Interpreter::new("+++").unwrap();
    assert_eq!(prog.run_with_input(&[], 2), Err(RunError::StepLimitReached));
    assert_eq!(prog.tape()[0], 2);
    let mut exact = Interpreter::new("+++").unwrap();
    assert_eq!(exact.run_with_input(&[], 3), Ok(String::new()));
}

#[test]
fn same_source_runs_alike() {
    let src = "++++++++[>++++[>++>+++>+++>+<<<<-]>+>+>->>+[<]<-]>>.>---.+++++++..+++.>>.<-.<.+++.------.--------.>>+.>++.";
    let mut a = Interpreter::new(src).unwrap();
    let mut b = Interpreter::new(src).unwrap();
    let out_a = a.run_with_input(b"input", STEPS);
    let out_b = b.run_with_input(b"input", STEPS);
    assert_eq!(out_a, out_b);
    assert_eq!(out_a, Ok("Hello World!\n".to_string()));
    assert_eq!(a.tape(), b.tape());
}

#[test]
fn next_instruction_follows_pointer() {
    let mut prog = Interpreter::new("x+y.").unwrap();
    assert_eq!(prog.next_instruction(), Some(brainfuck::Token::Incbyte));
    prog.step(None).unwrap();
    assert_eq!(prog.next_instruction(), Some(brainfuck::Token::Outbyte));
}
