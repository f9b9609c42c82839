//! The binary encoding of instructions: one opcode byte, then the operands
//! in declared order, registers as one byte and 32-bit values as four bytes
//! with the most significant byte first.

use crate::isa::{kinds_of, layout_width, Field, Operation};
use vstd::prelude::*;

verus! {

/// The 16-bit value with the given high and low bytes.
pub open spec fn word_value(high: u8, low: u8) -> u16 {
    (high * 0x100 + low) as u16
}

/// The 32-bit value with the given high and low halves.
pub open spec fn double_value(high: u16, low: u16) -> u32 {
    (high * 0x1_0000 + low) as u32
}

/// The 32-bit value whose big-endian bytes stand in `memory` at `at`.
pub open spec fn immediate_at(memory: Seq<u8>, at: int) -> u32 {
    double_value(
        word_value(memory[at], memory[at + 1]),
        word_value(memory[at + 2], memory[at + 3]),
    )
}

/// The four bytes of a 32-bit value, most significant first.
pub open spec fn immediate_bytes(value: u32) -> Seq<u8> {
    seq![
        (value / 0x100_0000) as u8,
        (value / 0x1_0000 % 0x100) as u8,
        (value / 0x100 % 0x100) as u8,
        (value % 0x100) as u8,
    ]
}

/// The bytes of one operand.
pub open spec fn field_bytes(field: Field) -> Seq<u8> {
    match field {
        Field::Register(register) => seq![register.index() as u8],
        Field::Immediate(value) => immediate_bytes(value),
    }
}

/// The bytes of a sequence of operands, one after the other.
pub open spec fn fields_bytes(fields: Seq<Field>) -> Seq<u8>
    decreases fields.len(),
{
    if fields.len() == 0 {
        seq![]
    } else {
        field_bytes(fields[0]) + fields_bytes(fields.drop_first())
    }
}

impl Operation {
    /// The bytes of this instruction: its opcode, then its operands.
    pub open spec fn encoding(self) -> Seq<u8> {
        seq![self.code().number() as u8] + fields_bytes(self.fields())
    }
}

/// A 32-bit value is read back from its own four bytes, wherever they stand.
pub proof fn lemma_immediate_roundtrip(value: u32, memory: Seq<u8>, at: int)
    requires
        0 <= at,
        at + 4 <= memory.len(),
        memory.subrange(at, at + 4) == immediate_bytes(value),
    ensures
        immediate_at(memory, at) == value,
{
    let bytes = memory.subrange(at, at + 4);
    assert(memory[at] == bytes[0]);
    assert(memory[at + 1] == bytes[1]);
    assert(memory[at + 2] == bytes[2]);
    assert(memory[at + 3] == bytes[3]);
}

/// The four bytes that hold a value are the bytes of the value they hold.
pub proof fn lemma_immediate_bytes_at(memory: Seq<u8>, at: int)
    requires
        0 <= at,
        at + 4 <= memory.len(),
    ensures
        memory.subrange(at, at + 4) == immediate_bytes(immediate_at(memory, at)),
{
}

/// Appending an operand appends its bytes.
pub proof fn lemma_fields_bytes_push(fields: Seq<Field>, field: Field)
    ensures
        fields_bytes(fields.push(field)) == fields_bytes(fields) + field_bytes(field),
    decreases fields.len(),
{
    if fields.len() == 0 {
        assert(fields.push(field).drop_first() =~= fields);
    } else {
        assert(fields.push(field).drop_first() =~= fields.drop_first().push(field));
        lemma_fields_bytes_push(fields.drop_first(), field);
        assert(fields_bytes(fields.push(field)) =~= fields_bytes(fields) + field_bytes(field));
    }
}

/// The value of two bytes, the high one first.
pub fn word_from_bytes(high: u8, low: u8) -> (word: u16)
    ensures
        word == word_value(high, low),
{
    assert(((high as u16) << 8) | (low as u16) == (high as u16) * 0x100 + (low as u16))
        by (bit_vector);
    ((high as u16) << 8) | (low as u16)
}

/// The value of two 16-bit halves, the high one first.
pub fn double_from_words(high: u16, low: u16) -> (double: u32)
    ensures
        double == double_value(high, low),
{
    assert(((high as u32) << 16) | (low as u32) == (high as u32) * 0x1_0000 + (low as u32))
        by (bit_vector);
    ((high as u32) << 16) | (low as u32)
}

/// Appends the four big-endian bytes of `value` to `bytes`.
pub fn push_immediate(bytes: &mut Vec<u8>, value: u32)
    ensures
        final(bytes)@ == old(bytes)@ + immediate_bytes(value),
{
    assert(value >> 24 == value / 0x100_0000 && (value >> 24) < 0x100) by (bit_vector);
    assert((value >> 16) & 0xff == value / 0x1_0000 % 0x100) by (bit_vector);
    assert((value >> 8) & 0xff == value / 0x100 % 0x100) by (bit_vector);
    assert(value & 0xff == value % 0x100) by (bit_vector);
    bytes.push((value >> 24) as u8);
    bytes.push(((value >> 16) & 0xff) as u8);
    bytes.push(((value >> 8) & 0xff) as u8);
    bytes.push((value & 0xff) as u8);
}

/// Appends the bytes of one operand to `bytes`.
pub fn push_field(bytes: &mut Vec<u8>, field: Field)
    ensures
        final(bytes)@ == old(bytes)@ + field_bytes(field),
{
    match field {
        Field::Register(register) => {
            bytes.push(register.to_byte());
        },
        Field::Immediate(value) => push_immediate(bytes, value),
    }
}

impl Operation {
    /// Appends the encoding of this instruction to `bytes`.
    pub fn encode_into(&self, bytes: &mut Vec<u8>)
        ensures
            final(bytes)@ == old(bytes)@ + self.encoding(),
    {
        bytes.push(self.opcode().to_byte());
        let operands = self.operands();
        let ghost start = bytes@;
        let mut i: usize = 0;
        while i < operands.len()
            invariant
                i <= operands.len(),
                bytes@ == start + fields_bytes(operands@.take(i as int)),
            decreases operands.len() - i,
        {
            proof {
                lemma_fields_bytes_push(operands@.take(i as int), operands@[i as int]);
                assert(operands@.take(i as int).push(operands@[i as int]) =~= operands@.take(
                    i + 1,
                ));
            }
            push_field(bytes, operands[i]);
            i += 1;
        }
        assert(operands@.take(i as int) =~= operands@);
        assert(bytes@ =~= old(bytes)@ + self.encoding());
    }

    /// The encoding of this instruction.
    pub fn encode(&self) -> (bytes: Vec<u8>)
        ensures
            bytes@ == self.encoding(),
    {
        let mut bytes = Vec::new();
        self.encode_into(&mut bytes);
        bytes
    }
}

/// The bytes of a sequence of operands are as many as their kinds are wide.
pub proof fn lemma_fields_width(fields: Seq<Field>)
    ensures
        fields_bytes(fields).len() == layout_width(kinds_of(fields)),
    decreases fields.len(),
{
    if fields.len() > 0 {
        assert(kinds_of(fields).drop_first() =~= kinds_of(fields.drop_first()));
        lemma_fields_width(fields.drop_first());
    }
}

/// The encoding of an instruction is as long as its opcode says.
pub proof fn lemma_encoding_length(operation: Operation)
    ensures
        operation.encoding().len() == operation.code().length(),
{
    operation.lemma_fields();
    lemma_fields_width(operation.fields());
}

} // verus!
