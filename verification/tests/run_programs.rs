use caurora::compiler::{CompileError, Compiler};
use caurora::opcodes::{opcode_of_word, OpCode, PANIC_WORD};
use caurora::memoryslice::MemorySlice;
use caurora::scanner::Scanner;
use caurora::virtualmachine::{InterpretResult, VM};

fn compile_chunk(src: &str) -> Result<MemorySlice, CompileError> {
    let chars: Vec<char> = src.chars().collect();
    let scanner = Scanner::new(chars.clone());
    let mut compiler = Compiler::new(chars, MemorySlice::new(), scanner);
    compiler.compile()
}

fn run_program(src: &str) -> (InterpretResult, Vec<String>) {
    let chunk = compile_chunk(src).expect("program should compile");
    let mut vm = VM::new();
    let result = vm.interpret(&chunk);
    let lines = vm.output.iter().map(|line| line.iter().collect()).collect();
    (result, lines)
}

fn run_lines(src: &str) -> Vec<String> {
    let (result, lines) = run_program(src);
    assert_eq!(result, InterpretResult::InterpretOk);
    lines
}

#[test]
fn arithmetic_precedence_prints_seven() {
    assert_eq!(run_lines("print 1 + 2 * 3;"), vec!["7"]);
}

#[test]
fn string_concatenation_prints_foobar() {
    assert_eq!(run_lines("var a = \"foo\"; var b = \"bar\"; print a + b;"), vec!["foobar"]);
}

#[test]
fn while_loop_counts_to_three() {
    assert_eq!(
        run_lines("var x = 0; while (x < 3) { print x; x = x + 1; }"),
        vec!["0", "1", "2"]
    );
}

#[test]
fn function_call_adds() {
    assert_eq!(run_lines("function add(a,b) { return a + b; } print add(2,5);"), vec!["7"]);
}

#[test]
fn for_loop_counts_to_three() {
    assert_eq!(run_lines("var i; for (i = 0; i < 3; i = i + 1) { print i; }"), vec!["0", "1", "2"]);
}

#[test]
fn if_else_takes_false_branch() {
    assert_eq!(run_lines("if (true and false) print \"t\"; else print \"f\";"), vec!["f"]);
}

#[test]
fn comment_runs_to_end_of_line() {
    assert_eq!(run_lines("// this line is ignored\nprint 1;"), vec!["1"]);
}

#[test]
fn empty_for_loops_until_return_breaks_out() {
    // the loop has no condition and no step; only the `return` in its
    // body ever leaves it
    assert_eq!(run_lines("function f() { for ( ; ; ) { return 9; } } print f();"), vec!["9"]);
}

#[test]
fn set_global_before_define_is_runtime_error() {
    let (result, lines) = run_program("x = 1;");
    assert_eq!(result, InterpretResult::InterpretRuntimeError);
    assert!(lines.is_empty());
}

#[test]
fn undefined_global_read_is_runtime_error() {
    let (result, _) = run_program("print y;");
    assert_eq!(result, InterpretResult::InterpretRuntimeError);
}

#[test]
fn double_negation_restores_booleans() {
    assert_eq!(run_lines("print !!true; print !!false; print !nil;"), vec!["true", "false", "true"]);
}

#[test]
fn equality_compares_variant_and_payload() {
    assert_eq!(
        run_lines("print 1 == 1; print 1 == 2; print \"a\" == \"a\"; print \"a\" == \"b\"; print 1 == \"1\"; print nil == nil;"),
        vec!["true", "false", "true", "false", "false", "true"]
    );
}

#[test]
fn number_equality_follows_ieee_rules() {
    // the two zeroes are equal; a NaN equals nothing, itself included
    assert_eq!(run_lines("print 0 == -0;"), vec!["true"]);
    assert_eq!(run_lines("print 0 / 0 == 0 / 0;"), vec!["false"]);
}

#[test]
fn comparisons_order_numbers_and_strings() {
    assert_eq!(
        run_lines("print 1 < 2; print 2 > 1; print 2 <= 2; print 3 >= 4; print \"ab\" < \"b\";"),
        vec!["true", "true", "true", "false", "true"]
    );
}

#[test]
fn short_circuit_and_or() {
    // the right operand would be a runtime error if it were evaluated
    assert_eq!(run_lines("if (false and missing) print \"t\"; else print \"f\";"), vec!["f"]);
    assert_eq!(run_lines("if (true or missing) print \"t\"; else print \"f\";"), vec!["t"]);
}

#[test]
fn adding_mismatched_types_is_runtime_error() {
    let (result, _) = run_program("print true + 1;");
    assert_eq!(result, InterpretResult::InterpretRuntimeError);
}

#[test]
fn division_yields_fractions() {
    assert_eq!(run_lines("print 10 / 4;"), vec!["2.5"]);
}

#[test]
fn fractional_literals_add_exactly() {
    assert_eq!(run_lines("print 1.5 + 2.25;"), vec!["3.75"]);
}

#[test]
fn unary_negation() {
    assert_eq!(run_lines("print -3 + 5;"), vec!["2"]);
}

#[test]
fn block_locals_resolve_by_slot() {
    assert_eq!(run_lines("{ var a = 1; { var b = 2; print a + b; } }"), vec!["3"]);
}

#[test]
fn local_assignment_writes_through() {
    assert_eq!(run_lines("{ var a = 1; a = 5; print a; }"), vec!["5"]);
}

#[test]
fn grouping_overrides_precedence() {
    assert_eq!(run_lines("print (1 + 2) * 3;"), vec!["9"]);
}

#[test]
fn calls_chain_through_locals() {
    assert_eq!(
        run_lines(
            "function inc(n) { return n + 1; } function twice(n) { var m = inc(n); return inc(m); } print twice(5);",
        ),
        vec!["7"]
    );
}

#[test]
fn nested_call_clobbers_the_callee_register() {
    // there is a single temporary register for the callee; an inner
    // call overwrites it before the outer call happens
    let (result, _) = run_program("function inc(n) { return n + 1; } print inc(inc(1));");
    assert_eq!(result, InterpretResult::InterpretRuntimeError);
}

#[test]
fn repeated_calls_inside_a_loop() {
    assert_eq!(
        run_lines("function sq(n) { return n * n; } var i = 0; while (i < 3) { print sq(i); i = i + 1; }"),
        vec!["0", "1", "4"]
    );
}

#[test]
fn global_reassignment_keeps_latest_value() {
    assert_eq!(run_lines("var x = 1; x = 2; x = x + 3; print x;"), vec!["5"]);
}

#[test]
fn print_renders_every_kind_of_value() {
    assert_eq!(
        run_lines("print nil; print true; print false; print \"hi\"; print 4;"),
        vec!["nil", "true", "false", "hi", "4"]
    );
}

#[test]
fn empty_source_compiles_and_runs_to_a_clean_halt() {
    assert_eq!(run_lines(""), Vec::<String>::new());
}

#[test]
fn missing_semicolon_is_a_compile_error() {
    assert!(compile_chunk("print 1").is_err());
}

#[test]
fn invalid_assignment_target_is_a_compile_error() {
    assert_eq!(compile_chunk("1 = 2;").err(), Some(CompileError::InvalidAssignment));
}

#[test]
fn return_outside_function_is_a_compile_error() {
    assert_eq!(compile_chunk("return 1;").err(), Some(CompileError::ReturnOutsideFunction));
}

#[test]
fn expression_needs_a_prefix_token() {
    assert_eq!(compile_chunk("print * 2;").err(), Some(CompileError::ExpectedExpression));
}

#[test]
fn unterminated_string_stops_compilation() {
    let chars: Vec<char> = "print \"abc;".chars().collect();
    let scanner = Scanner::new(chars.clone());
    let mut compiler = Compiler::new(chars, MemorySlice::new(), scanner);
    let result = compiler.compile();
    assert!(result.is_err());
    assert!(compiler.has_error);
}

#[test]
fn unexpected_character_sets_the_error_flag_but_scanning_continues() {
    let chars: Vec<char> = "print 1 # ;".chars().collect();
    let scanner = Scanner::new(chars.clone());
    let mut compiler = Compiler::new(chars, MemorySlice::new(), scanner);
    let _ = compiler.compile();
    assert!(compiler.has_error);
}

#[test]
fn compiled_jumps_are_patched_and_operands_are_in_range() {
    let chunk = compile_chunk(
        "var x = 0; while (x < 2) { if (x == 0) print \"a\"; else print \"b\"; x = x + 1; } function f(n) { return n; } print f(3);",
    )
    .expect("program should compile");
    let pool = chunk.constants_count() as u16;
    let mut i: usize = 0;
    while let Some(word) = chunk.read_at_ip(i) {
        let op = opcode_of_word(word).expect("every opcode position decodes");
        match op {
            OpCode::Jmp | OpCode::JmpTrue | OpCode::JmpFalse | OpCode::Loop => {
                let operand = chunk.read_at_ip(i + 1).expect("jump carries an operand");
                assert_ne!(operand, PANIC_WORD);
                i += 2;
            }
            OpCode::Constant
            | OpCode::DefineGlobalVar
            | OpCode::GetGlobalVar
            | OpCode::SetGlobalVar
            | OpCode::GetLocalVar
            | OpCode::SetLocalVar => {
                let operand = chunk.read_at_ip(i + 1).expect("constant reference carries an operand");
                assert!(operand < pool);
                i += 2;
            }
            OpCode::Call => {
                i += 2;
            }
            _ => {
                i += 1;
            }
        }
    }
}
