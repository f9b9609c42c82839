//! The instruction set shared by the assembler and the virtual machine:
//! registers, opcodes, instruction shapes and their binary encoding.
//!
//! An instruction is one opcode byte followed by its operands in declared
//! order. A register operand takes one byte (0 to 15); a 32-bit immediate or
//! address takes four bytes, most significant byte first. The operand layout
//! depends on the opcode alone and is given by [`OperationCode::layout`].

use vstd::prelude::*;
use vstd::std_specs::convert::TryFromSpecImpl;

verus! {

/// One of the sixteen general-purpose registers.
#[derive(Clone, Copy, Debug, PartialEq, Eq, Structural)]
pub enum Register {
    R0,
    R1,
    R2,
    R3,
    R4,
    R5,
    R6,
    R7,
    R8,
    R9,
    R10,
    R11,
    R12,
    R13,
    R14,
    R15,
}

impl Register {
    /// The number of the register, 0 to 15: its place in the register file
    /// and its byte in an encoded instruction.
    pub open spec fn index(self) -> int {
        match self {
            Register::R0 => 0,
            Register::R1 => 1,
            Register::R2 => 2,
            Register::R3 => 3,
            Register::R4 => 4,
            Register::R5 => 5,
            Register::R6 => 6,
            Register::R7 => 7,
            Register::R8 => 8,
            Register::R9 => 9,
            Register::R10 => 10,
            Register::R11 => 11,
            Register::R12 => 12,
            Register::R13 => 13,
            Register::R14 => 14,
            Register::R15 => 15,
        }
    }

    /// The register numbered `byte`, if there is one.
    pub open spec fn of_byte(byte: u8) -> Option<Register> {
        if byte == 0 {
            Some(Register::R0)
        } else if byte == 1 {
            Some(Register::R1)
        } else if byte == 2 {
            Some(Register::R2)
        } else if byte == 3 {
            Some(Register::R3)
        } else if byte == 4 {
            Some(Register::R4)
        } else if byte == 5 {
            Some(Register::R5)
        } else if byte == 6 {
            Some(Register::R6)
        } else if byte == 7 {
            Some(Register::R7)
        } else if byte == 8 {
            Some(Register::R8)
        } else if byte == 9 {
            Some(Register::R9)
        } else if byte == 10 {
            Some(Register::R10)
        } else if byte == 11 {
            Some(Register::R11)
        } else if byte == 12 {
            Some(Register::R12)
        } else if byte == 13 {
            Some(Register::R13)
        } else if byte == 14 {
            Some(Register::R14)
        } else if byte == 15 {
            Some(Register::R15)
        } else {
            None
        }
    }

    /// The byte that stands for this register in an encoded instruction.
    pub fn to_byte(self) -> (byte: u8)
        ensures
            byte == self.index(),
            Register::of_byte(byte) == Some(self),
    {
        match self {
            Register::R0 => 0,
            Register::R1 => 1,
            Register::R2 => 2,
            Register::R3 => 3,
            Register::R4 => 4,
            Register::R5 => 5,
            Register::R6 => 6,
            Register::R7 => 7,
            Register::R8 => 8,
            Register::R9 => 9,
            Register::R10 => 10,
            Register::R11 => 11,
            Register::R12 => 12,
            Register::R13 => 13,
            Register::R14 => 14,
            Register::R15 => 15,
        }
    }

    /// Reads a register from its byte. Bytes 0 to 15 name a register; every
    /// other byte is rejected.
    pub fn from_byte(byte: u8) -> (register: Option<Register>)
        ensures
            register == Register::of_byte(byte),
            byte < 16 ==> register is Some && register->0.index() == byte,
            byte >= 16 ==> register is None,
    {
        match byte {
            0 => Some(Register::R0),
            1 => Some(Register::R1),
            2 => Some(Register::R2),
            3 => Some(Register::R3),
            4 => Some(Register::R4),
            5 => Some(Register::R5),
            6 => Some(Register::R6),
            7 => Some(Register::R7),
            8 => Some(Register::R8),
            9 => Some(Register::R9),
            10 => Some(Register::R10),
            11 => Some(Register::R11),
            12 => Some(Register::R12),
            13 => Some(Register::R13),
            14 => Some(Register::R14),
            15 => Some(Register::R15),
            _ => None,
        }
    }

    /// A byte names a register exactly when it is below 16, and then it names
    /// the register with that index.
    pub proof fn lemma_of_byte(byte: u8)
        ensures
            Register::of_byte(byte) is Some <==> byte < 16,
            Register::of_byte(byte) is Some ==> Register::of_byte(byte)->0.index() == byte,
    {
    }

    /// Every register is read back from its own index.
    pub proof fn lemma_index(self)
        ensures
            0 <= self.index() < 16,
            Register::of_byte(self.index() as u8) == Some(self),
    {
    }
}

/// A byte that was to name a register or an opcode and names none.
#[derive(Clone, Copy, Debug, PartialEq, Eq, Structural)]
pub struct UndefinedByte {
    /// The byte.
    pub input: u8,
}

impl TryFrom<u8> for Register {
    type Error = UndefinedByte;

    /// Reads a register from its byte; a byte from 16 up is handed back as
    /// the error.
    fn try_from(byte: u8) -> (register: Result<Register, UndefinedByte>) {
        match Register::from_byte(byte) {
            Some(register) => Ok(register),
            None => Err(UndefinedByte { input: byte }),
        }
    }
}

impl TryFromSpecImpl<u8> for Register {
    open spec fn obeys_try_from_spec() -> bool {
        true
    }

    open spec fn try_from_spec(byte: u8) -> Result<Register, UndefinedByte> {
        match Register::of_byte(byte) {
            Some(register) => Ok(register),
            None => Err(UndefinedByte { input: byte }),
        }
    }
}

/// The opcode of an instruction: which of the instruction shapes it has.
/// Opcodes are numbered from 0 in the order of declaration.
#[derive(Clone, Copy, Debug, PartialEq, Eq, Structural)]
pub enum OperationCode {
    Halt,
    AddImm,
    Add,
    Sub,
    And,
    Or,
    Xor,
    Jump,
    BranchEQ,
    BranchNE,
    BranchLT,
    BranchGE,
    Load,
    Store,
}

/// The kind of one operand field of an instruction.
#[derive(Clone, Copy, Debug, PartialEq, Eq, Structural)]
pub enum FieldKind {
    /// A register, encoded in one byte.
    Register,
    /// A 32-bit immediate or address, encoded in four bytes.
    Immediate,
}

impl FieldKind {
    /// The number of bytes that a field of this kind occupies.
    pub open spec fn width(self) -> int {
        match self {
            FieldKind::Register => 1,
            FieldKind::Immediate => 4,
        }
    }
}

/// The total width in bytes of a sequence of fields.
pub open spec fn layout_width(kinds: Seq<FieldKind>) -> int
    decreases kinds.len(),
{
    if kinds.len() == 0 {
        0
    } else {
        kinds[0].width() + layout_width(kinds.drop_first())
    }
}

impl OperationCode {
    /// The number of opcodes.
    pub open spec fn count() -> int {
        14
    }

    /// The number of the opcode: its byte in an encoded instruction.
    pub open spec fn number(self) -> int {
        match self {
            OperationCode::Halt => 0,
            OperationCode::AddImm => 1,
            OperationCode::Add => 2,
            OperationCode::Sub => 3,
            OperationCode::And => 4,
            OperationCode::Or => 5,
            OperationCode::Xor => 6,
            OperationCode::Jump => 7,
            OperationCode::BranchEQ => 8,
            OperationCode::BranchNE => 9,
            OperationCode::BranchLT => 10,
            OperationCode::BranchGE => 11,
            OperationCode::Load => 12,
            OperationCode::Store => 13,
        }
    }

    /// The opcode numbered `byte`, if there is one.
    pub open spec fn of_byte(byte: u8) -> Option<OperationCode> {
        if byte == 0 {
            Some(OperationCode::Halt)
        } else if byte == 1 {
            Some(OperationCode::AddImm)
        } else if byte == 2 {
            Some(OperationCode::Add)
        } else if byte == 3 {
            Some(OperationCode::Sub)
        } else if byte == 4 {
            Some(OperationCode::And)
        } else if byte == 5 {
            Some(OperationCode::Or)
        } else if byte == 6 {
            Some(OperationCode::Xor)
        } else if byte == 7 {
            Some(OperationCode::Jump)
        } else if byte == 8 {
            Some(OperationCode::BranchEQ)
        } else if byte == 9 {
            Some(OperationCode::BranchNE)
        } else if byte == 10 {
            Some(OperationCode::BranchLT)
        } else if byte == 11 {
            Some(OperationCode::BranchGE)
        } else if byte == 12 {
            Some(OperationCode::Load)
        } else if byte == 13 {
            Some(OperationCode::Store)
        } else {
            None
        }
    }

    /// The operand fields of an instruction with this opcode, in the order
    /// in which they are written and encoded. This one table drives the
    /// encoder, the decoder, the parser and the compiler.
    pub open spec fn layout(self) -> Seq<FieldKind> {
        match self {
            OperationCode::Halt => seq![],
            OperationCode::AddImm => seq![
                FieldKind::Register,
                FieldKind::Immediate,
                FieldKind::Register,
            ],
            OperationCode::Add
            | OperationCode::Sub
            | OperationCode::And
            | OperationCode::Or
            | OperationCode::Xor => seq![FieldKind::Register, FieldKind::Register],
            OperationCode::Jump | OperationCode::Load => seq![
                FieldKind::Immediate,
                FieldKind::Register,
            ],
            OperationCode::BranchEQ
            | OperationCode::BranchNE
            | OperationCode::BranchLT
            | OperationCode::BranchGE => seq![
                FieldKind::Register,
                FieldKind::Register,
                FieldKind::Immediate,
            ],
            OperationCode::Store => seq![FieldKind::Register, FieldKind::Immediate],
        }
    }

    /// The length in bytes of an encoded instruction with this opcode: the
    /// opcode byte and the operand fields.
    pub open spec fn length(self) -> int {
        1 + layout_width(self.layout())
    }

    /// The byte that stands for this opcode in an encoded instruction.
    pub fn to_byte(self) -> (byte: u8)
        ensures
            byte == self.number(),
            OperationCode::of_byte(byte) == Some(self),
    {
        match self {
            OperationCode::Halt => 0,
            OperationCode::AddImm => 1,
            OperationCode::Add => 2,
            OperationCode::Sub => 3,
            OperationCode::And => 4,
            OperationCode::Or => 5,
            OperationCode::Xor => 6,
            OperationCode::Jump => 7,
            OperationCode::BranchEQ => 8,
            OperationCode::BranchNE => 9,
            OperationCode::BranchLT => 10,
            OperationCode::BranchGE => 11,
            OperationCode::Load => 12,
            OperationCode::Store => 13,
        }
    }

    /// Reads an opcode from its byte. Bytes 0 to 13 name an opcode; every
    /// other byte is rejected.
    pub fn from_byte(byte: u8) -> (code: Option<OperationCode>)
        ensures
            code == OperationCode::of_byte(byte),
            byte < OperationCode::count() ==> code is Some && code->0.number() == byte,
            byte >= OperationCode::count() ==> code is None,
    {
        match byte {
            0 => Some(OperationCode::Halt),
            1 => Some(OperationCode::AddImm),
            2 => Some(OperationCode::Add),
            3 => Some(OperationCode::Sub),
            4 => Some(OperationCode::And),
            5 => Some(OperationCode::Or),
            6 => Some(OperationCode::Xor),
            7 => Some(OperationCode::Jump),
            8 => Some(OperationCode::BranchEQ),
            9 => Some(OperationCode::BranchNE),
            10 => Some(OperationCode::BranchLT),
            11 => Some(OperationCode::BranchGE),
            12 => Some(OperationCode::Load),
            13 => Some(OperationCode::Store),
            _ => None,
        }
    }

    /// The operand fields of this opcode as a vector.
    pub fn fields(self) -> (kinds: Vec<FieldKind>)
        ensures
            kinds@ == self.layout(),
    {
        let kinds = match self {
            OperationCode::Halt => Vec::new(),
            OperationCode::AddImm => vec![
                FieldKind::Register,
                FieldKind::Immediate,
                FieldKind::Register,
            ],
            OperationCode::Add
            | OperationCode::Sub
            | OperationCode::And
            | OperationCode::Or
            | OperationCode::Xor => vec![FieldKind::Register, FieldKind::Register],
            OperationCode::Jump | OperationCode::Load => vec![
                FieldKind::Immediate,
                FieldKind::Register,
            ],
            OperationCode::BranchEQ
            | OperationCode::BranchNE
            | OperationCode::BranchLT
            | OperationCode::BranchGE => vec![
                FieldKind::Register,
                FieldKind::Register,
                FieldKind::Immediate,
            ],
            OperationCode::Store => vec![FieldKind::Register, FieldKind::Immediate],
        };
        kinds
    }

    /// The length in bytes of an encoded instruction with this opcode.
    pub fn encoded_length(self) -> (length: usize)
        ensures
            length == self.length(),
            1 <= length <= 7,
    {
        proof {
            self.lemma_length();
        }
        match self {
            OperationCode::Halt => 1,
            OperationCode::AddImm => 7,
            OperationCode::Add
            | OperationCode::Sub
            | OperationCode::And
            | OperationCode::Or
            | OperationCode::Xor => 3,
            OperationCode::Jump | OperationCode::Load | OperationCode::Store => 6,
            OperationCode::BranchEQ
            | OperationCode::BranchNE
            | OperationCode::BranchLT
            | OperationCode::BranchGE => 7,
        }
    }

    /// A byte names an opcode exactly when it is below the number of
    /// opcodes, and then it names the opcode with that number.
    pub proof fn lemma_of_byte(byte: u8)
        ensures
            OperationCode::of_byte(byte) is Some <==> byte < OperationCode::count(),
            OperationCode::of_byte(byte) is Some ==> OperationCode::of_byte(byte)->0.number()
                == byte,
    {
    }

    /// Every opcode is read back from its own number.
    pub proof fn lemma_number(self)
        ensures
            0 <= self.number() < OperationCode::count(),
            OperationCode::of_byte(self.number() as u8) == Some(self),
    {
    }

    /// The encoded length of each opcode, from its layout.
    pub proof fn lemma_length(self)
        ensures
            self.length() == match self {
                OperationCode::Halt => 1int,
                OperationCode::AddImm => 7,
                OperationCode::Add
                | OperationCode::Sub
                | OperationCode::And
                | OperationCode::Or
                | OperationCode::Xor => 3,
                OperationCode::Jump | OperationCode::Load | OperationCode::Store => 6,
                OperationCode::BranchEQ
                | OperationCode::BranchNE
                | OperationCode::BranchLT
                | OperationCode::BranchGE => 7,
            },
            self.layout().len() <= 3,
    {
        reveal_with_fuel(layout_width, 4);
        let kinds = self.layout();
        if kinds.len() >= 2 {
            assert(kinds.drop_first().drop_first().len() <= 1);
        }
    }
}

impl TryFrom<u8> for OperationCode {
    type Error = UndefinedByte;

    /// Reads an opcode from its byte; a byte from 14 up is handed back as
    /// the error.
    fn try_from(byte: u8) -> (code: Result<OperationCode, UndefinedByte>) {
        match OperationCode::from_byte(byte) {
            Some(code) => Ok(code),
            None => Err(UndefinedByte { input: byte }),
        }
    }
}

impl TryFromSpecImpl<u8> for OperationCode {
    open spec fn obeys_try_from_spec() -> bool {
        true
    }

    open spec fn try_from_spec(byte: u8) -> Result<OperationCode, UndefinedByte> {
        match OperationCode::of_byte(byte) {
            Some(code) => Ok(code),
            None => Err(UndefinedByte { input: byte }),
        }
    }
}

/// One operand of an instruction: a register or a 32-bit value.
#[derive(Clone, Copy, Debug, PartialEq, Eq, Structural)]
pub enum Field {
    Register(Register),
    Immediate(u32),
}

impl Field {
    /// The kind of this operand.
    pub open spec fn kind(self) -> FieldKind {
        match self {
            Field::Register(_) => FieldKind::Register,
            Field::Immediate(_) => FieldKind::Immediate,
        }
    }
}

/// The kinds of a sequence of operands, one for one.
pub open spec fn kinds_of(fields: Seq<Field>) -> Seq<FieldKind> {
    Seq::new(fields.len(), |i: int| fields[i].kind())
}

/// An instruction with its operands. The variants are declared in the order
/// of their opcodes.
#[derive(Clone, Copy, Debug, PartialEq, Eq, Structural)]
pub enum Operation {
    /// Stop the machine.
    Halt {  },
    /// `dst = src + val`, wrapping.
    AddImm { src: Register, val: u32, dst: Register },
    /// `dst = dst + src`, wrapping.
    Add { src: Register, dst: Register },
    /// `dst = dst - src`, wrapping.
    Sub { src: Register, dst: Register },
    /// `dst = dst & src`.
    And { src: Register, dst: Register },
    /// `dst = dst | src`.
    Or { src: Register, dst: Register },
    /// `dst = dst ^ src`.
    Xor { src: Register, dst: Register },
    /// `dst` = address of the next instruction, then continue at `addy`.
    Jump { addy: u32, dst: Register },
    /// Continue at `addy` if `lhs == rhs`.
    BranchEQ { lhs: Register, rhs: Register, addy: u32 },
    /// Continue at `addy` if `lhs != rhs`.
    BranchNE { lhs: Register, rhs: Register, addy: u32 },
    /// Continue at `addy` if `lhs < rhs`, unsigned.
    BranchLT { lhs: Register, rhs: Register, addy: u32 },
    /// Continue at `addy` if `lhs >= rhs`, unsigned.
    BranchGE { lhs: Register, rhs: Register, addy: u32 },
    /// `dst` = the 32-bit word in memory at `ady`.
    Load { ady: u32, dst: Register },
    /// The 32-bit word in memory at `ady` = `src`.
    Store { src: Register, ady: u32 },
}

impl Operation {
    /// The opcode of this instruction.
    pub open spec fn code(self) -> OperationCode {
        match self {
            Operation::Halt {  } => OperationCode::Halt,
            Operation::AddImm { .. } => OperationCode::AddImm,
            Operation::Add { .. } => OperationCode::Add,
            Operation::Sub { .. } => OperationCode::Sub,
            Operation::And { .. } => OperationCode::And,
            Operation::Or { .. } => OperationCode::Or,
            Operation::Xor { .. } => OperationCode::Xor,
            Operation::Jump { .. } => OperationCode::Jump,
            Operation::BranchEQ { .. } => OperationCode::BranchEQ,
            Operation::BranchNE { .. } => OperationCode::BranchNE,
            Operation::BranchLT { .. } => OperationCode::BranchLT,
            Operation::BranchGE { .. } => OperationCode::BranchGE,
            Operation::Load { .. } => OperationCode::Load,
            Operation::Store { .. } => OperationCode::Store,
        }
    }

    /// The operands of this instruction in declared order.
    pub open spec fn fields(self) -> Seq<Field> {
        match self {
            Operation::Halt {  } => seq![],
            Operation::AddImm { src, val, dst } => seq![
                Field::Register(src),
                Field::Immediate(val),
                Field::Register(dst),
            ],
            Operation::Add { src, dst }
            | Operation::Sub { src, dst }
            | Operation::And { src, dst }
            | Operation::Or { src, dst }
            | Operation::Xor { src, dst } => seq![Field::Register(src), Field::Register(dst)],
            Operation::Jump { addy, dst } => seq![Field::Immediate(addy), Field::Register(dst)],
            Operation::BranchEQ { lhs, rhs, addy }
            | Operation::BranchNE { lhs, rhs, addy }
            | Operation::BranchLT { lhs, rhs, addy }
            | Operation::BranchGE { lhs, rhs, addy } => seq![
                Field::Register(lhs),
                Field::Register(rhs),
                Field::Immediate(addy),
            ],
            Operation::Load { ady, dst } => seq![Field::Immediate(ady), Field::Register(dst)],
            Operation::Store { src, ady } => seq![Field::Register(src), Field::Immediate(ady)],
        }
    }

    /// The instruction with opcode `code` and operands `fields`, if the
    /// operands have the kinds that the opcode's layout asks for.
    pub open spec fn from_fields(code: OperationCode, fields: Seq<Field>) -> Option<Operation> {
        if kinds_of(fields) != code.layout() {
            None
        } else {
            Some(
                match code {
                    OperationCode::Halt => Operation::Halt {  },
                    OperationCode::AddImm => Operation::AddImm {
                        src: fields[0]->Register_0,
                        val: fields[1]->Immediate_0,
                        dst: fields[2]->Register_0,
                    },
                    OperationCode::Add => Operation::Add {
                        src: fields[0]->Register_0,
                        dst: fields[1]->Register_0,
                    },
                    OperationCode::Sub => Operation::Sub {
                        src: fields[0]->Register_0,
                        dst: fields[1]->Register_0,
                    },
                    OperationCode::And => Operation::And {
                        src: fields[0]->Register_0,
                        dst: fields[1]->Register_0,
                    },
                    OperationCode::Or => Operation::Or {
                        src: fields[0]->Register_0,
                        dst: fields[1]->Register_0,
                    },
                    OperationCode::Xor => Operation::Xor {
                        src: fields[0]->Register_0,
                        dst: fields[1]->Register_0,
                    },
                    OperationCode::Jump => Operation::Jump {
                        addy: fields[0]->Immediate_0,
                        dst: fields[1]->Register_0,
                    },
                    OperationCode::BranchEQ => Operation::BranchEQ {
                        lhs: fields[0]->Register_0,
                        rhs: fields[1]->Register_0,
                        addy: fields[2]->Immediate_0,
                    },
                    OperationCode::BranchNE => Operation::BranchNE {
                        lhs: fields[0]->Register_0,
                        rhs: fields[1]->Register_0,
                        addy: fields[2]->Immediate_0,
                    },
                    OperationCode::BranchLT => Operation::BranchLT {
                        lhs: fields[0]->Register_0,
                        rhs: fields[1]->Register_0,
                        addy: fields[2]->Immediate_0,
                    },
                    OperationCode::BranchGE => Operation::BranchGE {
                        lhs: fields[0]->Register_0,
                        rhs: fields[1]->Register_0,
                        addy: fields[2]->Immediate_0,
                    },
                    OperationCode::Load => Operation::Load {
                        ady: fields[0]->Immediate_0,
                        dst: fields[1]->Register_0,
                    },
                    OperationCode::Store => Operation::Store {
                        src: fields[0]->Register_0,
                        ady: fields[1]->Immediate_0,
                    },
                },
            )
        }
    }

    /// The opcode of this instruction.
    pub fn opcode(&self) -> (code: OperationCode)
        ensures
            code == self.code(),
    {
        match self {
            Operation::Halt {  } => OperationCode::Halt,
            Operation::AddImm { .. } => OperationCode::AddImm,
            Operation::Add { .. } => OperationCode::Add,
            Operation::Sub { .. } => OperationCode::Sub,
            Operation::And { .. } => OperationCode::And,
            Operation::Or { .. } => OperationCode::Or,
            Operation::Xor { .. } => OperationCode::Xor,
            Operation::Jump { .. } => OperationCode::Jump,
            Operation::BranchEQ { .. } => OperationCode::BranchEQ,
            Operation::BranchNE { .. } => OperationCode::BranchNE,
            Operation::BranchLT { .. } => OperationCode::BranchLT,
            Operation::BranchGE { .. } => OperationCode::BranchGE,
            Operation::Load { .. } => OperationCode::Load,
            Operation::Store { .. } => OperationCode::Store,
        }
    }

    /// The operands of this instruction in declared order.
    pub fn operands(&self) -> (fields: Vec<Field>)
        ensures
            fields@ == self.fields(),
    {
        let fields = match *self {
            Operation::Halt {  } => Vec::new(),
            Operation::AddImm { src, val, dst } => vec![
                Field::Register(src),
                Field::Immediate(val),
                Field::Register(dst),
            ],
            Operation::Add { src, dst }
            | Operation::Sub { src, dst }
            | Operation::And { src, dst }
            | Operation::Or { src, dst }
            | Operation::Xor { src, dst } => vec![Field::Register(src), Field::Register(dst)],
            Operation::Jump { addy, dst } => vec![Field::Immediate(addy), Field::Register(dst)],
            Operation::BranchEQ { lhs, rhs, addy }
            | Operation::BranchNE { lhs, rhs, addy }
            | Operation::BranchLT { lhs, rhs, addy }
            | Operation::BranchGE { lhs, rhs, addy } => vec![
                Field::Register(lhs),
                Field::Register(rhs),
                Field::Immediate(addy),
            ],
            Operation::Load { ady, dst } => vec![Field::Immediate(ady), Field::Register(dst)],
            Operation::Store { src, ady } => vec![Field::Register(src), Field::Immediate(ady)],
        };
        fields
    }

    /// Builds the instruction with opcode `code` from its operands. Fails
    /// when the operands do not have the kinds of the opcode's layout.
    pub fn from_operands(code: OperationCode, operands: &[Field]) -> (operation: Option<
        Operation,
    >)
        ensures
            operation == Operation::from_fields(code, operands@),
    {
        let kinds = code.fields();
        if operands.len() != kinds.len() {
            return None;
        }
        let mut i: usize = 0;
        while i < kinds.len()
            invariant
                i <= kinds.len(),
                kinds@ == code.layout(),
                operands@.len() == kinds@.len(),
                forall|j: int| 0 <= j < i ==> operands@[j].kind() == kinds@[j],
            decreases kinds.len() - i,
        {
            let matches = match (operands[i], kinds[i]) {
                (Field::Register(_), FieldKind::Register) => true,
                (Field::Immediate(_), FieldKind::Immediate) => true,
                _ => false,
            };
            if !matches {
                return None;
            }
            i += 1;
        }
        assert(kinds_of(operands@) =~= code.layout());
        let operation = match code {
            OperationCode::Halt => Operation::Halt {  },
            OperationCode::AddImm => Operation::AddImm {
                src: register_of(operands[0]),
                val: immediate_of(operands[1]),
                dst: register_of(operands[2]),
            },
            OperationCode::Add => Operation::Add {
                src: register_of(operands[0]),
                dst: register_of(operands[1]),
            },
            OperationCode::Sub => Operation::Sub {
                src: register_of(operands[0]),
                dst: register_of(operands[1]),
            },
            OperationCode::And => Operation::And {
                src: register_of(operands[0]),
                dst: register_of(operands[1]),
            },
            OperationCode::Or => Operation::Or {
                src: register_of(operands[0]),
                dst: register_of(operands[1]),
            },
            OperationCode::Xor => Operation::Xor {
                src: register_of(operands[0]),
                dst: register_of(operands[1]),
            },
            OperationCode::Jump => Operation::Jump {
                addy: immediate_of(operands[0]),
                dst: register_of(operands[1]),
            },
            OperationCode::BranchEQ => Operation::BranchEQ {
                lhs: register_of(operands[0]),
                rhs: register_of(operands[1]),
                addy: immediate_of(operands[2]),
            },
            OperationCode::BranchNE => Operation::BranchNE {
                lhs: register_of(operands[0]),
                rhs: register_of(operands[1]),
                addy: immediate_of(operands[2]),
            },
            OperationCode::BranchLT => Operation::BranchLT {
                lhs: register_of(operands[0]),
                rhs: register_of(operands[1]),
                addy: immediate_of(operands[2]),
            },
            OperationCode::BranchGE => Operation::BranchGE {
                lhs: register_of(operands[0]),
                rhs: register_of(operands[1]),
                addy: immediate_of(operands[2]),
            },
            OperationCode::Load => Operation::Load {
                ady: immediate_of(operands[0]),
                dst: register_of(operands[1]),
            },
            OperationCode::Store => Operation::Store {
                src: register_of(operands[0]),
                ady: immediate_of(operands[1]),
            },
        };
        Some(operation)
    }

    /// An instruction is rebuilt from its own opcode and operands, and its
    /// operands have the kinds of its opcode's layout.
    pub proof fn lemma_fields(self)
        ensures
            kinds_of(self.fields()) == self.code().layout(),
            Operation::from_fields(self.code(), self.fields()) == Some(self),
    {
        assert(kinds_of(self.fields()) =~= self.code().layout());
    }

    /// What `from_fields` builds has the opcode and the operands it was
    /// built from.
    pub proof fn lemma_from_fields(code: OperationCode, fields: Seq<Field>)
        requires
            Operation::from_fields(code, fields) is Some,
        ensures
            Operation::from_fields(code, fields)->0.code() == code,
            Operation::from_fields(code, fields)->0.fields() == fields,
    {
        let kinds = kinds_of(fields);
        assert(fields.len() == kinds.len());
        assert forall|i: int| 0 <= i < fields.len() implies #[trigger] fields[i].kind()
            == code.layout()[i] by {
            assert(kinds[i] == fields[i].kind());
        }
    }
}

/// The register of a register operand.
fn register_of(field: Field) -> (register: Register)
    requires
        field is Register,
    ensures
        register == field->Register_0,
{
    match field {
        Field::Register(register) => register,
        Field::Immediate(_) => Register::R0,
    }
}

/// The value of an immediate operand.
fn immediate_of(field: Field) -> (value: u32)
    requires
        field is Immediate,
    ensures
        value == field->Immediate_0,
{
    match field {
        Field::Immediate(value) => value,
        Field::Register(_) => 0,
    }
}

} // verus!
