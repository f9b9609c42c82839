//! The compiler: statements to bytecode, in two passes.
//!
//! The first pass walks the statements with a code offset that starts at 0.
//! A label definition records its name with the offset; an instruction
//! moves the offset on by the length of its encoding, which its opcode
//! alone decides. The second pass encodes each instruction, with the
//! address of a label in place of each operand that names one, so a label
//! may be used before it is defined.
//!
//! The bytecode is the code segment, from address 0: the encodings of the
//! instructions in source order, with nothing before, between or after
//! them. The source has no data directives, so no data segment follows the
//! code. Compilation fails, with no bytecode at all, when a label is
//! defined twice, when an operand names a label that is defined nowhere,
//! when the operands of an instruction are not those of its opcode's
//! layout, or when the code is longer than 32-bit addresses reach.
//!
//! [`compiled`] says what the bytecode of a program is;
//! [`Compiler::compile`] computes it.

use crate::decoding::{decode, lemma_decode_encoded};
use crate::encoding::lemma_encoding_length;
use crate::isa::{kinds_of, Field, FieldKind, Operation, OperationCode};
use crate::machine::{Error, MEMORY_LIMIT};
use crate::parser::{arguments, same_bytes, sentences, Argument, Operand, Sentence, Statement};
use vstd::prelude::*;
use vstd::string::StringSliceAdditionalSpecFns;

verus! {

/// The statements do not compile.
#[derive(Clone, Copy, Debug, Default, PartialEq, Eq, Structural)]
pub enum CompilationError {
    #[default]
    Undefined,
}

/// The number of bytes of code that a statement stands for.
pub open spec fn size(sentence: Sentence) -> int {
    match sentence {
        Sentence::Label(_) => 0,
        Sentence::Instruction(code, _) => code.length(),
    }
}

/// The code offset at statement `index`: the number of bytes of code that
/// the statements before it stand for.
pub open spec fn offset(program: Seq<Sentence>, index: int) -> int
    decreases index,
{
    if index <= 0 {
        0
    } else {
        offset(program, index - 1) + size(program[index - 1])
    }
}

/// Whether statement `index` defines the label `name`.
pub open spec fn defines(program: Seq<Sentence>, index: int, name: Seq<u8>) -> bool {
    0 <= index < program.len() && program[index] == Sentence::Label(name)
}

/// Whether some statement defines the label `name`.
pub open spec fn is_defined(program: Seq<Sentence>, name: Seq<u8>) -> bool {
    exists|index: int| defines(program, index, name)
}

/// Whether statements `first` and `second` define the same label.
pub open spec fn clash(program: Seq<Sentence>, first: int, second: int) -> bool {
    &&& 0 <= first < second < program.len()
    &&& program[first] is Label
    &&& program[first] == program[second]
}

/// Whether some label is defined twice.
pub open spec fn has_duplicate(program: Seq<Sentence>) -> bool {
    exists|first: int, second: int| clash(program, first, second)
}

/// The address of the label `name`: the code offset at the statement that
/// defines it.
pub open spec fn address(program: Seq<Sentence>, name: Seq<u8>) -> int {
    offset(program, choose|index: int| defines(program, index, name))
}

/// The kinds of a sequence of operands as written, one for one.
pub open spec fn kinds_written(operands: Seq<Argument>) -> Seq<FieldKind> {
    Seq::new(operands.len(), |i: int| operands[i].kind())
}

/// Whether the operands of the statement are those of its opcode's layout.
pub open spec fn is_formed(sentence: Sentence) -> bool {
    match sentence {
        Sentence::Label(_) => true,
        Sentence::Instruction(code, operands) => kinds_written(operands) == code.layout(),
    }
}

/// Whether every label that the statement names is defined.
pub open spec fn is_resolved(program: Seq<Sentence>, sentence: Sentence) -> bool {
    match sentence {
        Sentence::Label(_) => true,
        Sentence::Instruction(_, operands) => forall|i: int|
            0 <= i < operands.len() && #[trigger] operands[i] is Label ==> is_defined(
                program,
                operands[i]->Label_0,
            ),
    }
}

/// Whether the statements compile.
pub open spec fn compiles(program: Seq<Sentence>) -> bool {
    &&& !has_duplicate(program)
    &&& forall|i: int| 0 <= i < program.len() ==> is_formed(#[trigger] program[i])
    &&& forall|i: int| 0 <= i < program.len() ==> is_resolved(program, #[trigger] program[i])
    &&& offset(program, program.len() as int) <= MEMORY_LIMIT
}

/// The operand as it is encoded: a label gives way to its address.
pub open spec fn resolve(program: Seq<Sentence>, operand: Argument) -> Field {
    match operand {
        Argument::Register(register) => Field::Register(register),
        Argument::Immediate(value) => Field::Immediate(value),
        Argument::Label(name) => Field::Immediate(address(program, name) as u32),
    }
}

/// The operands as they are encoded, one for one.
pub open spec fn resolved(program: Seq<Sentence>, operands: Seq<Argument>) -> Seq<Field> {
    Seq::new(operands.len(), |i: int| resolve(program, operands[i]))
}

/// The instruction that a statement with opcode `code` and the given
/// operands stands for.
pub open spec fn operation(program: Seq<Sentence>, code: OperationCode, operands: Seq<Argument>)
    -> Operation {
    Operation::from_fields(code, resolved(program, operands))->0
}

/// The bytes of code that a statement stands for.
pub open spec fn emitted(program: Seq<Sentence>, sentence: Sentence) -> Seq<u8> {
    match sentence {
        Sentence::Label(_) => seq![],
        Sentence::Instruction(code, operands) => operation(program, code, operands).encoding(),
    }
}

/// The code of the first `count` statements.
pub open spec fn code_upto(program: Seq<Sentence>, count: int) -> Seq<u8>
    decreases count,
{
    if count <= 0 {
        seq![]
    } else {
        code_upto(program, count - 1) + emitted(program, program[count - 1])
    }
}

/// The bytecode of the statements, if they compile.
pub open spec fn compiled(program: Seq<Sentence>) -> Option<Seq<u8>> {
    if compiles(program) {
        Some(code_upto(program, program.len() as int))
    } else {
        None
    }
}

/// The label table after the first `count` statements: the labels that
/// they define, in order, each with the code offset at its definition.
spec fn table_upto(program: Seq<Sentence>, count: int) -> Seq<(Seq<u8>, int)>
    decreases count,
{
    if count <= 0 {
        seq![]
    } else {
        match program[count - 1] {
            Sentence::Label(name) => table_upto(program, count - 1).push(
                (name, offset(program, count - 1)),
            ),
            Sentence::Instruction(_, _) => table_upto(program, count - 1),
        }
    }
}

/// Whether the table holds an entry for `name`.
spec fn holds(table: Seq<(Seq<u8>, int)>, name: Seq<u8>) -> bool {
    exists|t: int| 0 <= t < table.len() && (#[trigger] table[t]).0 == name
}

/// The code offset never goes back, and never below 0.
pub proof fn lemma_offset_grows(program: Seq<Sentence>, from: int, to: int)
    requires
        0 <= from <= to <= program.len(),
    ensures
        0 <= offset(program, from) <= offset(program, to),
    decreases to,
{
    if to > 0 {
        if from < to {
            lemma_offset_grows(program, from, to - 1);
        } else {
            lemma_offset_grows(program, to - 1, to - 1);
        }
        match program[to - 1] {
            Sentence::Label(_) => {},
            Sentence::Instruction(code, _) => code.lemma_length(),
        }
    }
}

/// Every entry of the table comes from a definition among the first
/// `count` statements and holds the code offset there.
proof fn lemma_table_entry(program: Seq<Sentence>, count: int, t: int)
    requires
        0 <= count <= program.len(),
        0 <= t < table_upto(program, count).len(),
    ensures
        exists|index: int|
            0 <= index < count && #[trigger] defines(
                program,
                index,
                table_upto(program, count)[t].0,
            ) && table_upto(program, count)[t].1 == offset(program, index),
    decreases count,
{
    if count > 0 {
        let before = table_upto(program, count - 1);
        if t < before.len() {
            lemma_table_entry(program, count - 1, t);
            let index = choose|index: int|
                0 <= index < count - 1 && #[trigger] defines(program, index, before[t].0)
                    && before[t].1 == offset(program, index);
            assert(defines(program, index, table_upto(program, count)[t].0));
        } else {
            assert(defines(program, count - 1, table_upto(program, count)[t].0));
        }
    }
}

/// Every definition among the first `count` statements has an entry in the
/// table.
proof fn lemma_table_holds(program: Seq<Sentence>, count: int, index: int, name: Seq<u8>)
    requires
        0 <= index < count <= program.len(),
        defines(program, index, name),
    ensures
        holds(table_upto(program, count), name),
    decreases count,
{
    let table = table_upto(program, count);
    if index == count - 1 {
        assert(table[table.len() - 1].0 == name);
    } else {
        lemma_table_holds(program, count - 1, index, name);
        let before = table_upto(program, count - 1);
        let t = choose|t: int| 0 <= t < before.len() && (#[trigger] before[t]).0 == name;
        assert(table[t].0 == name);
    }
}

/// Where no label is defined twice, the address of a label is the code
/// offset at its definition, wherever the label is used: before the
/// definition or after it.
pub proof fn lemma_address(program: Seq<Sentence>, index: int, name: Seq<u8>)
    requires
        !has_duplicate(program),
        defines(program, index, name),
    ensures
        address(program, name) == offset(program, index),
{
    let chosen = choose|other: int| defines(program, other, name);
    if chosen < index {
        assert(clash(program, chosen, index));
    } else if index < chosen {
        assert(clash(program, index, chosen));
    }
}

/// An entry of the label table.
#[derive(Clone, Copy, Debug)]
struct Entry<'source> {
    name: &'source str,
    address: u32,
}

/// The label table as plain values.
spec fn table(labels: Seq<Entry>) -> Seq<(Seq<u8>, int)> {
    Seq::new(labels.len(), |t: int| (labels[t].name.spec_bytes(), labels[t].address as int))
}

/// Looks `name` up in the label table.
fn find(labels: &Vec<Entry>, name: &str) -> (address: Option<u32>)
    ensures
        match address {
            Some(found) => exists|t: int|
                0 <= t < labels@.len() && (#[trigger] table(labels@)[t]) == (
                    name.spec_bytes(),
                    found as int,
                ),
            None => !holds(table(labels@), name.spec_bytes()),
        },
{
    let mut t: usize = 0;
    while t < labels.len()
        invariant
            t <= labels@.len(),
            forall|u: int| 0 <= u < t ==> (#[trigger] table(labels@)[u]).0 != name.spec_bytes(),
        decreases labels@.len() - t,
    {
        if same_bytes(labels[t].name.as_bytes(), name.as_bytes()) {
            assert(table(labels@)[t as int] == (
                name.spec_bytes(),
                labels@[t as int].address as int,
            ));
            return Some(labels[t].address);
        }
        assert(table(labels@)[t as int].0 == labels@[t as int].name.spec_bytes());
        t += 1;
    }
    None
}

/// The compiler of one sequence of statements.
#[derive(Debug)]
pub struct Compiler<'source> {
    statements: &'source [Statement<'source>],
    current: usize,
    code: Vec<u8>,
    labels: Vec<Entry<'source>>,
}

impl<'source> Compiler<'source> {
    /// The statements that this compiler compiles.
    pub closed spec fn program(&self) -> Seq<Sentence> {
        sentences(self.statements@)
    }

    /// A compiler of `statements`.
    pub fn new(statements: &'source [Statement<'source>]) -> (compiler: Compiler<'source>)
        ensures
            compiler.program() == sentences(statements@),
    {
        Compiler { statements, current: 0, code: Vec::new(), labels: Vec::new() }
    }

    /// The first pass: fills the label table.
    fn define_labels(&mut self) -> (result: Result<(), CompilationError>)
        ensures
            final(self).statements == old(self).statements,
            result is Ok ==> !has_duplicate(final(self).program()) && offset(
                final(self).program(),
                final(self).program().len() as int,
            ) <= MEMORY_LIMIT && table(final(self).labels@) == table_upto(
                final(self).program(),
                final(self).program().len() as int,
            ),
            result is Err ==> !compiles(final(self).program()),
    {
        let statements = self.statements;
        let ghost program = sentences(statements@);
        self.labels = Vec::new();
        self.current = 0;
        let mut place: usize = 0;
        while self.current < statements.len()
            invariant
                self.statements == statements,
                statements == old(self).statements,
                program == sentences(statements@),
                self.current <= statements@.len(),
                place == offset(program, self.current as int),
                place <= MEMORY_LIMIT,
                table(self.labels@) == table_upto(program, self.current as int),
                forall|first: int, second: int|
                    clash(program, first, second) ==> second >= self.current,
            decreases statements@.len() - self.current,
        {
            let index = self.current;
            let ghost before = self.labels@;
            match &statements[index] {
                Statement::Label(name) => {
                    match find(&self.labels, name) {
                        Some(_) => {
                            proof {
                                let t = choose|t: int|
                                    0 <= t < before.len() && (#[trigger] table(before)[t]).0
                                        == name.spec_bytes();
                                lemma_table_entry(program, index as int, t);
                                let defined = choose|defined: int|
                                    0 <= defined < index && #[trigger] defines(
                                        program,
                                        defined,
                                        name.spec_bytes(),
                                    );
                                assert(clash(program, defined, index as int));
                            }
                            return Err(CompilationError::Undefined);
                        },
                        None => {},
                    }
                    proof {
                        assert forall|first: int, second: int|
                            clash(program, first, second) implies second >= index + 1 by {
                            if second == index {
                                lemma_table_holds(program, index as int, first, name.spec_bytes());
                            }
                        }
                    }
                    self.labels.push(Entry { name: *name, address: place as u32 });
                },
                Statement::Instruction(code, _) => {
                    let length = code.encoded_length();
                    if length > MEMORY_LIMIT - place {
                        proof {
                            lemma_offset_grows(
                                program,
                                index + 1,
                                program.len() as int,
                            );
                        }
                        return Err(CompilationError::Undefined);
                    }
                    place += length;
                },
            }
            self.current += 1;
        }
        Ok(())
    }

    /// Puts the address of a label in place of each operand that names one.
    fn resolve(&self, operands: &Vec<Operand<'source>>) -> (fields: Option<Vec<Field>>)
        requires
            !has_duplicate(self.program()),
            table(self.labels@) == table_upto(self.program(), self.program().len() as int),
        ensures
            match fields {
                Some(fields) => fields@ == resolved(self.program(), arguments(operands@))
                    && forall|i: int|
                    0 <= i < operands@.len() && #[trigger] arguments(operands@)[i] is Label
                        ==> is_defined(self.program(), arguments(operands@)[i]->Label_0),
                None => exists|i: int|
                    0 <= i < operands@.len() && #[trigger] arguments(operands@)[i] is Label
                        && !is_defined(self.program(), arguments(operands@)[i]->Label_0),
            },
    {
        let ghost program = self.program();
        let ghost written = arguments(operands@);
        let mut fields: Vec<Field> = Vec::new();
        let mut i: usize = 0;
        while i < operands.len()
            invariant
                i <= operands@.len(),
                program == self.program(),
                written == arguments(operands@),
                !has_duplicate(program),
                table(self.labels@) == table_upto(program, program.len() as int),
                fields@.len() == i,
                forall|j: int| 0 <= j < i ==> fields@[j] == resolve(program, written[j]),
                forall|j: int|
                    0 <= j < i && #[trigger] written[j] is Label ==> is_defined(
                        program,
                        written[j]->Label_0,
                    ),
            decreases operands@.len() - i,
        {
            assert(written[i as int] == operands@[i as int]@);
            let field = match operands[i] {
                Operand::Register(register) => Field::Register(register),
                Operand::Immediate(value) => Field::Immediate(value),
                Operand::Label(name) => match find(&self.labels, name) {
                    Some(found) => {
                        proof {
                            let t = choose|t: int|
                                0 <= t < self.labels@.len() && (#[trigger] table(
                                    self.labels@,
                                )[t]) == (name.spec_bytes(), found as int);
                            lemma_table_entry(program, program.len() as int, t);
                            let defined = choose|defined: int|
                                0 <= defined < program.len() && #[trigger] defines(
                                    program,
                                    defined,
                                    name.spec_bytes(),
                                ) && found == offset(program, defined);
                            lemma_address(program, defined, name.spec_bytes());
                        }
                        Field::Immediate(found)
                    },
                    None => {
                        proof {
                            if is_defined(program, name.spec_bytes()) {
                                let defined = choose|defined: int|
                                    defines(program, defined, name.spec_bytes());
                                lemma_table_holds(
                                    program,
                                    program.len() as int,
                                    defined,
                                    name.spec_bytes(),
                                );
                            }
                        }
                        return None;
                    },
                },
            };
            fields.push(field);
            i += 1;
        }
        assert(fields@ =~= resolved(program, written));
        Some(fields)
    }

    /// The second pass: encodes the instructions.
    fn emit(&mut self) -> (result: Result<(), CompilationError>)
        requires
            !has_duplicate(old(self).program()),
            offset(old(self).program(), old(self).program().len() as int) <= MEMORY_LIMIT,
            table(old(self).labels@) == table_upto(
                old(self).program(),
                old(self).program().len() as int,
            ),
        ensures
            final(self).statements == old(self).statements,
            result is Ok ==> compiles(final(self).program()) && final(self).code@ == code_upto(
                final(self).program(),
                final(self).program().len() as int,
            ),
            result is Err ==> !compiles(final(self).program()),
    {
        let statements = self.statements;
        let ghost program = sentences(statements@);
        self.code = Vec::new();
        self.current = 0;
        while self.current < statements.len()
            invariant
                self.statements == statements,
                statements == old(self).statements,
                self.labels == old(self).labels,
                program == sentences(statements@),
                program == self.program(),
                self.current <= statements@.len(),
                !has_duplicate(program),
                offset(program, program.len() as int) <= MEMORY_LIMIT,
                table(self.labels@) == table_upto(program, program.len() as int),
                self.code@ == code_upto(program, self.current as int),
                forall|i: int| 0 <= i < self.current ==> is_formed(#[trigger] program[i]),
                forall|i: int|
                    0 <= i < self.current ==> is_resolved(program, #[trigger] program[i]),
            decreases statements@.len() - self.current,
        {
            let index = self.current;
            match &statements[index] {
                Statement::Label(_) => {
                    assert(self.code@ + Seq::<u8>::empty() =~= self.code@);
                },
                Statement::Instruction(code, operands) => {
                    let ghost written = arguments(operands@);
                    let fields = match self.resolve(operands) {
                        Some(fields) => fields,
                        None => {
                            assert(!is_resolved(program, program[index as int]));
                            return Err(CompilationError::Undefined);
                        },
                    };
                    assert(kinds_of(fields@) =~= kinds_written(written));
                    let operation = match Operation::from_operands(*code, fields.as_slice()) {
                        Some(operation) => operation,
                        None => {
                            return Err(CompilationError::Undefined);
                        },
                    };
                    operation.encode_into(&mut self.code);
                },
            }
            self.current += 1;
        }
        Ok(())
    }

    /// Compiles the statements to bytecode. Fails, with no bytecode at all,
    /// when a label is defined twice, when an operand names a label that is
    /// defined nowhere, when the operands of an instruction are not those
    /// of its opcode's layout, or when the code is longer than 32-bit
    /// addresses reach. The result depends on the statements alone.
    pub fn compile(&mut self) -> (result: Result<Vec<u8>, CompilationError>)
        ensures
            final(self).program() == old(self).program(),
            match compiled(old(self).program()) {
                Some(code) => result is Ok && result->Ok_0@ == code,
                None => result == Err::<Vec<u8>, CompilationError>(CompilationError::Undefined),
            },
    {
        match self.define_labels() {
            Ok(()) => {},
            Err(error) => return Err(error),
        }
        let emitted = self.emit();
        self.labels = Vec::new();
        let mut code: Vec<u8> = Vec::new();
        std::mem::swap(&mut code, &mut self.code);
        match emitted {
            Ok(()) => Ok(code),
            Err(error) => Err(error),
        }
    }
}

/// A program in which two statements define the same label does not
/// compile.
pub proof fn lemma_duplicate_is_rejected(program: Seq<Sentence>, first: int, second: int)
    requires
        clash(program, first, second),
    ensures
        compiled(program) is None,
{
}

/// A program in which an operand names a label that no statement defines
/// does not compile.
pub proof fn lemma_undefined_is_rejected(program: Seq<Sentence>, index: int, operand: int)
    requires
        0 <= index < program.len(),
        program[index] is Instruction,
        0 <= operand < program[index]->Instruction_1.len(),
        program[index]->Instruction_1[operand] is Label,
        !is_defined(program, program[index]->Instruction_1[operand]->Label_0),
    ensures
        compiled(program) is None,
{
    assert(!is_resolved(program, program[index]));
}

/// A statement that is formed stands for as many bytes of code as its
/// opcode says, and for the instruction with its opcode.
pub proof fn lemma_emitted(program: Seq<Sentence>, sentence: Sentence)
    requires
        is_formed(sentence),
    ensures
        emitted(program, sentence).len() == size(sentence),
        sentence matches Sentence::Instruction(code, operands) ==> operation(
            program,
            code,
            operands,
        ).code() == code,
{
    match sentence {
        Sentence::Label(_) => {},
        Sentence::Instruction(code, operands) => {
            assert(kinds_of(resolved(program, operands)) =~= kinds_written(operands));
            Operation::lemma_from_fields(code, resolved(program, operands));
            lemma_encoding_length(operation(program, code, operands));
        },
    }
}

/// The code of the first `count` statements is as long as the code offset
/// after them.
pub proof fn lemma_code_length(program: Seq<Sentence>, count: int)
    requires
        0 <= count <= program.len(),
        forall|i: int| 0 <= i < program.len() ==> is_formed(#[trigger] program[i]),
    ensures
        code_upto(program, count).len() == offset(program, count),
    decreases count,
{
    if count > 0 {
        lemma_code_length(program, count - 1);
        lemma_emitted(program, program[count - 1]);
    }
}

/// In the code of the first `count` statements, the bytes from the code
/// offset at statement `index` on are the code of that statement.
pub proof fn lemma_code_at(program: Seq<Sentence>, count: int, index: int)
    requires
        0 <= index < count <= program.len(),
        forall|i: int| 0 <= i < program.len() ==> is_formed(#[trigger] program[i]),
    ensures
        0 <= offset(program, index) <= offset(program, index + 1) <= code_upto(
            program,
            count,
        ).len(),
        code_upto(program, count).subrange(offset(program, index), offset(program, index + 1))
            == emitted(program, program[index]),
    decreases count,
{
    lemma_code_length(program, count);
    lemma_code_length(program, count - 1);
    lemma_offset_grows(program, index, index + 1);
    lemma_offset_grows(program, index + 1, count);
    if index < count - 1 {
        lemma_code_at(program, count - 1, index);
    }
}

/// What the compiler writes, the machine reads: in a memory that begins
/// with the bytecode of a program, the bytes at the code offset of each
/// instruction statement decode to the instruction that the statement
/// stands for, and decoding ends at the code offset of the next statement.
pub proof fn lemma_compiled_decodes(program: Seq<Sentence>, index: int, memory: Seq<u8>)
    requires
        compiles(program),
        0 <= index < program.len(),
        program[index] is Instruction,
        compiled(program)->0.len() <= memory.len(),
        memory.subrange(0, compiled(program)->0.len() as int) == compiled(program)->0,
    ensures
        decode(memory, offset(program, index)) == Ok::<(Operation, int), (Error, int)>(
            (
                operation(program, program[index]->Instruction_0, program[index]->Instruction_1),
                offset(program, index + 1),
            ),
        ),
{
    let code = compiled(program)->0;
    let from = offset(program, index);
    let to = offset(program, index + 1);
    let instruction = operation(
        program,
        program[index]->Instruction_0,
        program[index]->Instruction_1,
    );
    lemma_code_at(program, program.len() as int, index);
    lemma_emitted(program, program[index]);
    assert(memory.subrange(from, to) =~= code.subrange(from, to));
    lemma_decode_encoded(instruction, memory, from);
}

} // verus!
