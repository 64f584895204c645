use rust_forth::forth_compiler::ForthCompiler;
use rust_forth::forth_compiler::Token;
use rust_forth::stack_machine::GasLimit;
use rust_forth::stack_machine::HandleTrap;
use rust_forth::stack_machine::NoTrapHandler;
use rust_forth::stack_machine::StackMachineError;
use rust_forth::stack_machine::TrapHandled;
use rust_forth::ForthError;

fn compiler() -> ForthCompiler<NoTrapHandler> {
    ForthCompiler::new()
}

#[test]
fn it_works() {
    assert_eq!(2 + 2, 4);
}

#[test]
fn test_execute_intrinsics_1() {
    let mut fc = compiler();

    fc.execute_string("123 321 ADD 2 MUL", GasLimit::Limited(100))
        .unwrap();

    assert_eq!(&fc.sm.st.number_stack, &vec![888_i64]);

    fc.execute_string("123 321 ADD 2 MUL", GasLimit::Limited(100))
        .unwrap();

    assert_eq!(&fc.sm.st.number_stack, &vec![888_i64, 888]);
}

#[test]
fn test_compile_1() {
    let mut fc = compiler();

    fc.execute_string(
        ": RickTest 123 321 ADD 2 MUL ; RickTest",
        GasLimit::Limited(100),
    )
    .unwrap();

    assert_eq!(&fc.sm.st.number_stack, &vec![888_i64]);

    fc.execute_string("123 321 ADD 2 MUL RickTest", GasLimit::Limited(100))
        .unwrap();

    assert_eq!(&fc.sm.st.number_stack, &vec![888_i64, 888, 888]);
}

#[test]
fn test_compile_2() {
    let mut fc = compiler();

    fc.execute_string(
        ": RickTest 123 321 ADD 2 MUL ; RickTest : RickTestB 123 321 ADD 2 MUL ;",
        GasLimit::Limited(100),
    )
    .unwrap();

    assert_eq!(&fc.sm.st.number_stack, &vec![888_i64]);

    fc.execute_string("123 321 ADD 2 MUL RickTest", GasLimit::Limited(100))
        .unwrap();

    assert_eq!(&fc.sm.st.number_stack, &vec![888_i64, 888, 888]);
}

#[test]
fn test_if_else_1() {
    let mut fc = compiler();

    fc.execute_string(
        "1 2 3 POP POP POP 0 IF 1 2 ADD ELSE 3 4 ADD THEN",
        GasLimit::Limited(100),
    )
    .unwrap();

    assert_eq!(&fc.sm.st.number_stack, &vec![3_i64]);
}

#[test]
fn test_if_else_2() {
    let mut fc = compiler();

    fc.execute_string(
        "1 2 3 POP POP POP 1 IF 1 2 ADD ELSE 3 4 ADD THEN",
        GasLimit::Limited(100),
    )
    .unwrap();

    assert_eq!(&fc.sm.st.number_stack, &vec![7_i64]);
}

#[test]
fn test_if_else_3() {
    let mut fc = compiler();

    fc.execute_string("0 IF 1 2 ADD ELSE 3 4 ADD THEN", GasLimit::Limited(100))
        .unwrap();

    assert_eq!(&fc.sm.st.number_stack, &vec![3_i64]);
}

#[test]
fn test_if_else_4() {
    let mut fc = compiler();

    fc.execute_string("1 IF 1 2 ADD ELSE 3 4 ADD THEN", GasLimit::Limited(100))
        .unwrap();

    assert_eq!(&fc.sm.st.number_stack, &vec![7_i64]);
}

#[test]
fn test_nested_if_inner_taken() {
    let mut fc = compiler();

    fc.sm.st.number_stack.push(123);
    fc.sm.st.number_stack.push(321);
    fc.execute_string(
        "0 IF 0 IF ADD 3 MUL THEN ELSE ADD 4 MUL THEN",
        GasLimit::Limited(100),
    )
    .unwrap();
    let n = fc.sm.st.number_stack.pop().unwrap();

    assert_eq!(n, 1332);
}

#[test]
fn test_nested_if_outer_else_taken() {
    let mut fc = compiler();

    fc.sm.st.number_stack.push(123);
    fc.sm.st.number_stack.push(321);
    fc.execute_string(
        "1 IF 0 IF ADD 3 MUL THEN ELSE ADD 4 MUL THEN",
        GasLimit::Limited(100),
    )
    .unwrap();
    let n = fc.sm.st.number_stack.pop().unwrap();

    assert_eq!(n, 1776);
}

#[test]
fn test_nested_if_inner_skipped() {
    let mut fc = compiler();

    fc.sm.st.number_stack.push(123);
    fc.sm.st.number_stack.push(321);
    fc.execute_string(
        "0 IF 2 IF ADD 3 MUL THEN ELSE ADD 4 MUL THEN",
        GasLimit::Limited(100),
    )
    .unwrap();
    let n = fc.sm.st.number_stack.pop().unwrap();

    assert_eq!(n, 321);
}

#[test]
fn test_nested_if_in_else_branch() {
    let mut fc = compiler();

    fc.sm.st.number_stack.push(123);
    fc.sm.st.number_stack.push(321);
    fc.execute_string(
        "1 IF 2 IF ADD 3 MUL THEN ELSE 0 IF ADD 4 MUL ELSE ADD 5 MUL THEN THEN",
        GasLimit::Limited(100),
    )
    .unwrap();
    let n = fc.sm.st.number_stack.pop().unwrap();

    assert_eq!(n, 1776);
}

#[test]
fn test_asymmetric_if_else_branches() {
    let mut fc = compiler();

    fc.execute_string("0 IF 7 ELSE 1 2 ADD THEN", GasLimit::Limited(100))
        .unwrap();
    assert_eq!(&fc.sm.st.number_stack, &vec![7_i64]);

    let mut fc = compiler();
    fc.execute_string("5 IF 7 ELSE 1 2 ADD THEN", GasLimit::Limited(100))
        .unwrap();
    assert_eq!(&fc.sm.st.number_stack, &vec![3_i64]);
}

#[test]
fn test_tokenize_is_pure() {
    let fc = compiler();
    let text = ": Word 1 2 ADD ; -45 +7 Word bare ;";
    let first = fc.tokenize_string(text).unwrap();
    let second = fc.tokenize_string(text).unwrap();
    assert_eq!(first, second);
}

#[test]
fn test_tokenize_classification() {
    let fc = compiler();
    let tv = fc.tokenize_string("12 : Sq DUP MUL ; -3 Sq").unwrap();
    assert_eq!(
        tv,
        vec![
            Token::Number(12),
            Token::Colon(String::from("Sq")),
            Token::Command(String::from("DUP")),
            Token::Command(String::from("MUL")),
            Token::SemiColon,
            Token::Number(-3),
            Token::Command(String::from("Sq")),
        ]
    );
}

#[test]
fn test_tokenize_number_bounds() {
    let fc = compiler();
    let tv = fc
        .tokenize_string("9223372036854775807 -9223372036854775808 9223372036854775808 +5 --5 12a")
        .unwrap();
    assert_eq!(
        tv,
        vec![
            Token::Number(i64::MAX),
            Token::Number(i64::MIN),
            Token::Command(String::from("9223372036854775808")),
            Token::Number(5),
            Token::Command(String::from("--5")),
            Token::Command(String::from("12a")),
        ]
    );
}

#[test]
fn test_tokenize_dangling_colon() {
    let fc = compiler();
    match fc.tokenize_string("1 2 :") {
        Err(ForthError::InvalidSyntax(_)) => (),
        r => panic!("Incorrect result returned {:?}", r),
    }
}

#[test]
fn test_unknown_token() {
    let mut fc = compiler();
    match fc.execute_string("1 2 FROBNICATE", GasLimit::Limited(100)) {
        Err(ForthError::UnknownToken(s)) => assert_eq!(s, "FROBNICATE"),
        r => panic!("Incorrect result returned {:?}", r),
    }
}

#[test]
fn test_else_without_if() {
    let mut fc = compiler();
    match fc.execute_string("1 ELSE 2 THEN", GasLimit::Limited(100)) {
        Err(ForthError::InvalidSyntax(_)) => (),
        r => panic!("Incorrect result returned {:?}", r),
    }
}

#[test]
fn test_then_without_if() {
    let mut fc = compiler();
    match fc.execute_string("1 THEN", GasLimit::Limited(100)) {
        Err(ForthError::InvalidSyntax(_)) => (),
        r => panic!("Incorrect result returned {:?}", r),
    }
}

#[test]
fn test_if_without_then() {
    let mut fc = compiler();
    match fc.execute_string("0 IF 1 2 ADD", GasLimit::Limited(100)) {
        Err(ForthError::InvalidSyntax(_)) => (),
        r => panic!("Incorrect result returned {:?}", r),
    }
}

#[test]
fn test_semicolon_before_colon() {
    let mut fc = compiler();
    match fc.execute_string("1 ; 2", GasLimit::Limited(100)) {
        Err(ForthError::InvalidSyntax(_)) => (),
        r => panic!("Incorrect result returned {:?}", r),
    }
}

#[test]
fn test_second_colon_before_semicolon() {
    let mut fc = compiler();
    match fc.execute_string(": A 1 : B 2 ;", GasLimit::Limited(100)) {
        Err(ForthError::InvalidSyntax(_)) => (),
        r => panic!("Incorrect result returned {:?}", r),
    }
}

#[test]
fn test_missing_semicolon_after_colon() {
    let mut fc = compiler();
    match fc.execute_string(": A 1 2 ADD", GasLimit::Limited(100)) {
        Err(ForthError::MissingSemicolonAfterColon) => (),
        r => panic!("Incorrect result returned {:?}", r),
    }
}

#[test]
fn test_pop_of_empty_stack() {
    let mut fc = compiler();
    match fc.execute_string("ADD", GasLimit::Limited(100)) {
        Err(ForthError::PopOfEmptyStack) => (),
        r => panic!("Incorrect result returned {:?}", r),
    }
}

#[test]
fn test_division_by_zero_reported() {
    let mut fc = compiler();
    match fc.execute_string("0 5 DIV", GasLimit::Limited(100)) {
        Err(ForthError::UnknownError) => (),
        r => panic!("Incorrect result returned {:?}", r),
    }
}

#[test]
fn test_ran_out_of_gas_reported() {
    let mut fc = compiler();
    match fc.execute_string("1 2 ADD 3 ADD 4 ADD 5 ADD", GasLimit::Limited(3)) {
        Err(ForthError::RanOutOfGas) => (),
        r => panic!("Incorrect result returned {:?}", r),
    }
}

#[test]
fn test_inc_dec_intrinsics() {
    let mut fc = compiler();
    fc.execute_string("5 INC 10 DEC", GasLimit::Limited(100))
        .unwrap();
    assert_eq!(&fc.sm.st.number_stack, &vec![6_i64, 9]);
}

#[test]
fn test_swap_and_dup_words() {
    let mut fc = compiler();
    fc.execute_string("321 39483 SWAP", GasLimit::Limited(100))
        .unwrap();
    assert_eq!(&fc.sm.st.number_stack, &vec![39483_i64, 321]);

    let mut fc = compiler();
    fc.execute_string("123 39483 DUP", GasLimit::Limited(100))
        .unwrap();
    assert_eq!(&fc.sm.st.number_stack, &vec![123_i64, 39483, 39483]);
}

#[test]
fn test_sub_and_div_operand_order() {
    let mut fc = compiler();
    fc.execute_string("321 444 SUB", GasLimit::Limited(100))
        .unwrap();
    assert_eq!(&fc.sm.st.number_stack, &vec![123_i64]);

    let mut fc = compiler();
    fc.execute_string("321 39483 DIV", GasLimit::Limited(100))
        .unwrap();
    assert_eq!(&fc.sm.st.number_stack, &vec![123_i64]);
}

#[test]
fn test_redefined_word_keeps_old_callers() {
    let mut fc = compiler();
    fc.execute_string(": A 1 ; : B A ; : A 2 ; : C A ; B C", GasLimit::Limited(100))
        .unwrap();
    // B was compiled against the first A, C against the second; redefining a
    // word never rewrites calls compiled before the redefinition.
    assert_eq!(&fc.sm.st.number_stack, &vec![1_i64, 2]);
}

#[test]
fn test_word_definitions_persist_across_lines() {
    let mut fc = compiler();
    fc.execute_string(": Six 1 2 ADD 3 ADD ;", GasLimit::Limited(100))
        .unwrap();
    assert_eq!(fc.sm.st.number_stack, Vec::<i64>::new());
    fc.execute_string("Six Six ADD", GasLimit::Limited(100))
        .unwrap();
    assert_eq!(&fc.sm.st.number_stack, &vec![12_i64]);
}

/// A trap handler for compiled `TRAP` words: claims one id, pops one value
/// and pushes a fixed one.
struct CompiledTrapHandler {
    handled_trap: i64,
    to_push: i64,
}

impl HandleTrap for CompiledTrapHandler {
    fn handle_trap(
        &mut self,
        trap_number: i64,
        number_stack: &mut Vec<i64>,
    ) -> Result<TrapHandled, StackMachineError> {
        if trap_number == self.handled_trap {
            number_stack
                .pop()
                .ok_or(StackMachineError::NumberStackUnderflow)?;
            number_stack.push(self.to_push);
            return Ok(TrapHandled::Handled);
        }
        Ok(TrapHandled::NotHandled)
    }
}

#[test]
fn test_trap_word_dispatches_to_handler() {
    let mut fc: ForthCompiler<CompiledTrapHandler> = ForthCompiler::new();
    fc.sm.trap_handlers.push(CompiledTrapHandler {
        handled_trap: 100,
        to_push: 200,
    });
    fc.execute_string("50 100 TRAP", GasLimit::Limited(100))
        .unwrap();
    assert_eq!(&fc.sm.st.number_stack, &vec![200_i64]);
}

#[test]
fn test_trap_word_unhandled() {
    let mut fc = compiler();
    match fc.execute_string("50 100 TRAP", GasLimit::Limited(100)) {
        Err(ForthError::UnhandledTrap) => (),
        r => panic!("Incorrect result returned {:?}", r),
    }
}

#[test]
fn test_execute_token_vector_directly() {
    let mut fc = compiler();
    let tv = fc.tokenize_string("123 321 ADD 2 MUL").unwrap();
    fc.execute_token_vector(&tv, GasLimit::Limited(100)).unwrap();
    assert_eq!(&fc.sm.st.number_stack, &vec![888_i64]);
}
