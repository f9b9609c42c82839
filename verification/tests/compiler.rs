use atom::compiler::{CompilationError, Compiler};
use atom::isa::{Operation, OperationCode, Register};
use atom::parser::{Operand, Statement};

fn compile(statements: &[Statement]) -> Result<Vec<u8>, CompilationError> {
    Compiler::new(statements).compile()
}

fn halt<'a>() -> Statement<'a> {
    Statement::Instruction(OperationCode::Halt, vec![])
}

fn jump<'a>(target: Operand<'a>) -> Statement<'a> {
    Statement::Instruction(OperationCode::Jump, vec![target, Operand::Register(Register::R0)])
}

fn add<'a>() -> Statement<'a> {
    Statement::Instruction(
        OperationCode::Add,
        vec![Operand::Register(Register::R1), Operand::Register(Register::R2)],
    )
}

#[test]
fn empty_program_compiles_to_nothing() {
    assert_eq!(compile(&[]), Ok(vec![]));
}

#[test]
fn labels_alone_emit_no_code() {
    assert_eq!(compile(&[Statement::Label("a"), Statement::Label("b")]), Ok(vec![]));
}

#[test]
fn instructions_are_encoded_in_order() {
    let statements = [
        Statement::Instruction(
            OperationCode::AddImm,
            vec![
                Operand::Register(Register::R0),
                Operand::Immediate(1),
                Operand::Register(Register::R1),
            ],
        ),
        add(),
        halt(),
    ];
    assert_eq!(compile(&statements), Ok(vec![1, 0, 0, 0, 0, 1, 1, 2, 1, 2, 0]));
}

#[test]
fn compiled_code_is_the_encodings_joined() {
    let statements = [
        jump(Operand::Immediate(0x0A0B_0C0D)),
        Statement::Instruction(
            OperationCode::Store,
            vec![Operand::Register(Register::R15), Operand::Immediate(0xFFFF_FFFF)],
        ),
    ];
    let mut expected = Operation::Jump { addy: 0x0A0B_0C0D, dst: Register::R0 }.encode();
    expected.extend(Operation::Store { src: Register::R15, ady: 0xFFFF_FFFF }.encode());
    assert_eq!(compile(&statements), Ok(expected));
}

#[test]
fn backward_label_reference_resolves() {
    let statements = [add(), Statement::Label("loop"), add(), jump(Operand::Label("loop"))];
    assert_eq!(compile(&statements), Ok(vec![2, 1, 2, 2, 1, 2, 7, 0, 0, 0, 3, 0]));
}

#[test]
fn forward_label_reference_resolves() {
    let statements = [
        jump(Operand::Label("end")),
        add(),
        Statement::Label("end"),
        halt(),
    ];
    assert_eq!(compile(&statements), Ok(vec![7, 0, 0, 0, 9, 0, 2, 1, 2, 0]));
}

#[test]
fn label_at_the_start_and_at_the_end() {
    let statements = [
        Statement::Label("start"),
        jump(Operand::Label("end")),
        jump(Operand::Label("start")),
        Statement::Label("end"),
    ];
    assert_eq!(compile(&statements), Ok(vec![7, 0, 0, 0, 12, 0, 7, 0, 0, 0, 0, 0]));
}

#[test]
fn two_labels_at_one_place() {
    let statements = [
        halt(),
        Statement::Label("a"),
        Statement::Label("b"),
        jump(Operand::Label("a")),
        jump(Operand::Label("b")),
    ];
    assert_eq!(compile(&statements), Ok(vec![0, 7, 0, 0, 0, 1, 0, 7, 0, 0, 0, 1, 0]));
}

#[test]
fn label_in_every_32_bit_operand() {
    let r = Operand::Register(Register::R3);
    let l = Operand::Label("x");
    let statements = [
        Statement::Instruction(OperationCode::AddImm, vec![r, l, r]),
        Statement::Instruction(OperationCode::BranchLT, vec![r, r, l]),
        Statement::Instruction(OperationCode::Load, vec![l, r]),
        Statement::Instruction(OperationCode::Store, vec![r, l]),
        Statement::Label("x"),
    ];
    assert_eq!(
        compile(&statements),
        Ok(vec![
            1, 3, 0, 0, 0, 26, 3, 10, 3, 3, 0, 0, 0, 26, 12, 0, 0, 0, 26, 3, 13, 3, 0, 0, 0, 26
        ])
    );
}

#[test]
fn duplicate_label_is_rejected() {
    let statements = [Statement::Label("a"), halt(), Statement::Label("a")];
    assert_eq!(compile(&statements), Err(CompilationError::Undefined));
    let statements = [Statement::Label("a"), Statement::Label("a")];
    assert_eq!(compile(&statements), Err(CompilationError::Undefined));
    let statements = [
        Statement::Label("a"),
        Statement::Label("b"),
        halt(),
        Statement::Label("c"),
        Statement::Label("b"),
    ];
    assert_eq!(compile(&statements), Err(CompilationError::Undefined));
}

#[test]
fn undefined_label_is_rejected() {
    assert_eq!(compile(&[jump(Operand::Label("nowhere"))]), Err(CompilationError::Undefined));
    let statements = [Statement::Label("here"), jump(Operand::Label("her"))];
    assert_eq!(compile(&statements), Err(CompilationError::Undefined));
    let statements = [Statement::Label("here"), halt(), jump(Operand::Label("here_"))];
    assert_eq!(compile(&statements), Err(CompilationError::Undefined));
}

#[test]
fn malformed_instruction_is_rejected() {
    let r = Operand::Register(Register::R1);
    let v = Operand::Immediate(1);
    for statement in [
        Statement::Instruction(OperationCode::Halt, vec![r]),
        Statement::Instruction(OperationCode::Add, vec![r]),
        Statement::Instruction(OperationCode::Add, vec![r, v]),
        Statement::Instruction(OperationCode::Add, vec![r, r, r]),
        Statement::Instruction(OperationCode::Jump, vec![r, v]),
        Statement::Instruction(OperationCode::Jump, vec![]),
        Statement::Instruction(OperationCode::Store, vec![v, r]),
    ] {
        assert_eq!(compile(&[halt(), statement]), Err(CompilationError::Undefined));
    }
    let statements =
        [Statement::Label("a"), Statement::Instruction(OperationCode::Add, vec![r, Operand::Label("a")])];
    assert_eq!(compile(&statements), Err(CompilationError::Undefined));
}

#[test]
fn compiling_twice_gives_the_same_code() {
    let statements = [jump(Operand::Label("end")), Statement::Label("end"), halt()];
    let mut compiler = Compiler::new(&statements);
    let first = compiler.compile();
    let second = compiler.compile();
    assert_eq!(first, Ok(vec![7, 0, 0, 0, 6, 0, 0]));
    assert_eq!(first, second);
    let statements = [Statement::Label("a"), Statement::Label("a")];
    let mut compiler = Compiler::new(&statements);
    assert_eq!(compiler.compile(), Err(CompilationError::Undefined));
    assert_eq!(compiler.compile(), Err(CompilationError::Undefined));
}

#[test]
fn compilation_error_default() {
    assert_eq!(CompilationError::default(), CompilationError::Undefined);
}
