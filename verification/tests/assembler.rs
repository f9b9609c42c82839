use atom::assembler::{assemble, AssemblyError};
use atom::compiler::CompilationError;
use atom::isa::Register;
use atom::lexer::LexingError;
use atom::machine::{run, Error, Machine};
use atom::parser::ParsingError;

const COUNTER: &str = "
        addi r0, 0, r1
        addi r0, 10, r2
        addi r0, 1, r3
        addi r2, 0, r4
    loop:
        add r3, r1
        sub r3, r4
        bge r4, r3, loop
        halt
";

#[test]
fn assembles_the_counter_program() {
    assert_eq!(
        assemble(COUNTER),
        Ok(vec![
            1, 0, 0, 0, 0, 0, 1, //
            1, 0, 0, 0, 0, 10, 2, //
            1, 0, 0, 0, 0, 1, 3, //
            1, 2, 0, 0, 0, 0, 4, //
            2, 3, 1, //
            3, 3, 4, //
            11, 4, 3, 0, 0, 0, 28, //
            0,
        ])
    );
}

#[test]
fn assembled_counter_runs_to_ten() {
    let code = assemble(COUNTER).unwrap();
    let mut machine = Machine::new(&code);
    assert_eq!(machine.interpret(35), Ok(()));
    assert_eq!(
        machine.registers().values(),
        [0, 10, 10, 1, 0, 0, 0, 0, 0, 0, 0, 0, 0, 0, 0, 0]
    );
}

#[test]
fn assembled_forward_jump_skips_code() {
    let code = assemble(
        "jump over, r15 addi r0, 1, r1 over: addi r0, 2, r2 store r2, cell load cell, r3 halt cell:",
    )
    .unwrap();
    let machine = run(&code, 128, 100).unwrap();
    assert_eq!(machine.register(Register::R1), 0);
    assert_eq!(machine.register(Register::R2), 2);
    assert_eq!(machine.register(Register::R3), 2);
    assert_eq!(machine.register(Register::R15), 6);
    assert_eq!(code.len(), 33);
    assert_eq!(&machine.memory()[33..37], &[0, 0, 0, 2]);
}

#[test]
fn assembled_subroutine_returns_nowhere_without_indirect_jumps() {
    let code = assemble("start: jump start, r1").unwrap();
    assert_eq!(code, vec![7, 0, 0, 0, 0, 1]);
    assert_eq!(run(&code, 6, 50).unwrap_err().cause, Error::OutOfFuel);
}

#[test]
fn first_failing_stage_decides_the_error() {
    let lexing = Err(AssemblyError::Lexing(LexingError::Undefined));
    let parsing = Err(AssemblyError::Parsing(ParsingError::Undefined));
    let compilation = Err(AssemblyError::Compilation(CompilationError::Undefined));
    assert_eq!(assemble("halt $"), lexing);
    assert_eq!(assemble("add r1 4294967296"), lexing);
    assert_eq!(assemble("a: a: \"open"), lexing);
    assert_eq!(assemble("add r1"), parsing);
    assert_eq!(assemble("a: a: add"), parsing);
    assert_eq!(assemble(".data"), parsing);
    assert_eq!(assemble("\"text\""), parsing);
    assert_eq!(assemble("a: halt a:"), compilation);
    assert_eq!(assemble("jump nowhere, r0"), compilation);
    assert_eq!(assemble(""), Ok(vec![]));
    assert_eq!(assemble("   \n"), Ok(vec![]));
}

#[test]
fn text_outside_ascii_is_fine_in_strings_only() {
    assert_eq!(assemble("halt"), Ok(vec![0]));
    assert_eq!(assemble("h\u{e4}lt"), Err(AssemblyError::Lexing(LexingError::Undefined)));
    assert_eq!(assemble("\"h\u{e4}lt\""), Err(AssemblyError::Parsing(ParsingError::Undefined)));
}
