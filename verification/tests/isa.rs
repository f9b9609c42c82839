use atom::isa::{Field, FieldKind, Operation, OperationCode, Register, UndefinedByte};
use atom::machine::{Error, Machine};

const REGISTERS: [Register; 16] = [
    Register::R0,
    Register::R1,
    Register::R2,
    Register::R3,
    Register::R4,
    Register::R5,
    Register::R6,
    Register::R7,
    Register::R8,
    Register::R9,
    Register::R10,
    Register::R11,
    Register::R12,
    Register::R13,
    Register::R14,
    Register::R15,
];

const CODES: [OperationCode; 14] = [
    OperationCode::Halt,
    OperationCode::AddImm,
    OperationCode::Add,
    OperationCode::Sub,
    OperationCode::And,
    OperationCode::Or,
    OperationCode::Xor,
    OperationCode::Jump,
    OperationCode::BranchEQ,
    OperationCode::BranchNE,
    OperationCode::BranchLT,
    OperationCode::BranchGE,
    OperationCode::Load,
    OperationCode::Store,
];

fn every_shape(a: Register, b: Register, value: u32) -> Vec<Operation> {
    vec![
        Operation::Halt {},
        Operation::AddImm { src: a, val: value, dst: b },
        Operation::Add { src: a, dst: b },
        Operation::Sub { src: a, dst: b },
        Operation::And { src: a, dst: b },
        Operation::Or { src: a, dst: b },
        Operation::Xor { src: a, dst: b },
        Operation::Jump { addy: value, dst: b },
        Operation::BranchEQ { lhs: a, rhs: b, addy: value },
        Operation::BranchNE { lhs: a, rhs: b, addy: value },
        Operation::BranchLT { lhs: a, rhs: b, addy: value },
        Operation::BranchGE { lhs: a, rhs: b, addy: value },
        Operation::Load { ady: value, dst: b },
        Operation::Store { src: a, ady: value },
    ]
}

#[test]
fn register_byte_15_is_r15() {
    assert_eq!(Register::from_byte(15), Some(Register::R15));
    assert_eq!(Register::from_byte(0), Some(Register::R0));
}

#[test]
fn register_byte_16_is_rejected() {
    assert_eq!(Register::from_byte(16), None);
    assert_eq!(Register::from_byte(255), None);
}

#[test]
fn register_bytes_round_trip() {
    for (index, register) in REGISTERS.iter().enumerate() {
        assert_eq!(register.to_byte() as usize, index);
        assert_eq!(Register::from_byte(index as u8), Some(*register));
    }
    for byte in 16..=255u8 {
        assert_eq!(Register::from_byte(byte), None);
    }
}

#[test]
fn opcode_bytes_round_trip() {
    for (number, code) in CODES.iter().enumerate() {
        assert_eq!(code.to_byte() as usize, number);
        assert_eq!(OperationCode::from_byte(number as u8), Some(*code));
    }
    for byte in 14..=255u8 {
        assert_eq!(OperationCode::from_byte(byte), None);
    }
}

#[test]
fn layouts_and_lengths() {
    let r = FieldKind::Register;
    let v = FieldKind::Immediate;
    assert_eq!(OperationCode::Halt.fields(), vec![]);
    assert_eq!(OperationCode::AddImm.fields(), vec![r, v, r]);
    assert_eq!(OperationCode::Xor.fields(), vec![r, r]);
    assert_eq!(OperationCode::Jump.fields(), vec![v, r]);
    assert_eq!(OperationCode::BranchLT.fields(), vec![r, r, v]);
    assert_eq!(OperationCode::Load.fields(), vec![v, r]);
    assert_eq!(OperationCode::Store.fields(), vec![r, v]);
    let lengths = [1usize, 7, 3, 3, 3, 3, 3, 6, 7, 7, 7, 7, 6, 6];
    for (code, length) in CODES.iter().zip(lengths) {
        assert_eq!(code.encoded_length(), length);
        let width: usize = code.fields().iter().map(|kind| if *kind == r { 1 } else { 4 }).sum();
        assert_eq!(1 + width, length);
    }
}

#[test]
fn exact_encodings() {
    let r = Register::R1;
    let s = Register::R15;
    assert_eq!(Operation::Halt {}.encode(), vec![0]);
    assert_eq!(
        Operation::AddImm { src: Register::R0, val: 1, dst: r }.encode(),
        vec![1, 0, 0, 0, 0, 1, 1]
    );
    assert_eq!(Operation::Add { src: r, dst: s }.encode(), vec![2, 1, 15]);
    assert_eq!(Operation::Sub { src: s, dst: r }.encode(), vec![3, 15, 1]);
    assert_eq!(
        Operation::Jump { addy: 0x1234_5678, dst: s }.encode(),
        vec![7, 0x12, 0x34, 0x56, 0x78, 15]
    );
    assert_eq!(
        Operation::BranchGE { lhs: Register::R4, rhs: Register::R5, addy: 0x1C }.encode(),
        vec![11, 4, 5, 0, 0, 0, 0x1C]
    );
    assert_eq!(
        Operation::Load { ady: 0xFFFF_FFFF, dst: r }.encode(),
        vec![12, 0xFF, 0xFF, 0xFF, 0xFF, 1]
    );
    assert_eq!(
        Operation::Store { src: r, ady: 0x0100_0002 }.encode(),
        vec![13, 1, 1, 0, 0, 2]
    );
}

#[test]
fn encode_into_appends() {
    let mut bytes = vec![9, 9];
    Operation::Xor { src: Register::R2, dst: Register::R3 }.encode_into(&mut bytes);
    Operation::Halt {}.encode_into(&mut bytes);
    assert_eq!(bytes, vec![9, 9, 6, 2, 3, 0]);
}

#[test]
fn opcode_and_operands_of_every_shape() {
    let shapes = every_shape(Register::R3, Register::R9, 77);
    for (operation, code) in shapes.iter().zip(CODES) {
        assert_eq!(operation.opcode(), code);
        let operands = operation.operands();
        assert_eq!(operands.len(), code.fields().len());
        assert_eq!(Operation::from_operands(code, &operands), Some(*operation));
    }
    assert_eq!(
        Operation::AddImm { src: Register::R3, val: 77, dst: Register::R9 }.operands(),
        vec![Field::Register(Register::R3), Field::Immediate(77), Field::Register(Register::R9)]
    );
}

#[test]
fn from_operands_rejects_wrong_kinds() {
    let r = Field::Register(Register::R1);
    let v = Field::Immediate(5);
    assert_eq!(Operation::from_operands(OperationCode::Halt, &[r]), None);
    assert_eq!(Operation::from_operands(OperationCode::Add, &[r]), None);
    assert_eq!(Operation::from_operands(OperationCode::Add, &[r, v]), None);
    assert_eq!(Operation::from_operands(OperationCode::Add, &[r, r, r]), None);
    assert_eq!(Operation::from_operands(OperationCode::Jump, &[r, v]), None);
    assert_eq!(Operation::from_operands(OperationCode::Store, &[v, r]), None);
    assert_eq!(
        Operation::from_operands(OperationCode::Store, &[r, v]),
        Some(Operation::Store { src: Register::R1, ady: 5 })
    );
}

#[test]
fn encode_then_decode_is_identity() {
    let registers = [Register::R0, Register::R15, Register::R7];
    let values = [0u32, 0xFFFF_FFFF, 1, 0x8000_0000, 0x0102_0304];
    for a in registers {
        for b in registers {
            for value in values {
                for operation in every_shape(a, b, value) {
                    let bytes = operation.encode();
                    assert_eq!(bytes.len(), operation.opcode().encoded_length());
                    let mut machine = Machine::with_memory(&bytes, bytes.len());
                    assert_eq!(machine.next(), Ok(operation));
                    assert_eq!(machine.ip(), bytes.len());
                    assert_eq!(machine.next(), Err(Error::UnexpectedEnd));
                }
            }
        }
    }
}

#[test]
fn decode_inside_larger_memory() {
    let mut bytes = vec![0xEE, 0xEE, 0xEE];
    let operation = Operation::BranchNE { lhs: Register::R15, rhs: Register::R0, addy: 0xFFFF_FFFF };
    operation.encode_into(&mut bytes);
    bytes.push(0xEE);
    let mut machine = Machine::with_memory(&bytes, 64);
    machine.execute(Operation::Jump { addy: 3, dst: Register::R1 }).unwrap();
    assert_eq!(machine.next(), Ok(operation));
    assert_eq!(machine.ip(), 10);
}

#[test]
fn try_from_byte() {
    assert_eq!(Register::try_from(15u8), Ok(Register::R15));
    assert_eq!(Register::try_from(16u8), Err(UndefinedByte { input: 16 }));
    assert_eq!(OperationCode::try_from(13u8), Ok(OperationCode::Store));
    assert_eq!(OperationCode::try_from(14u8), Err(UndefinedByte { input: 14 }));
    let register: Result<Register, UndefinedByte> = 3u8.try_into();
    assert_eq!(register, Ok(Register::R3));
    assert_eq!(Error::from(UndefinedByte { input: 200 }), Error::Undefined);
}
