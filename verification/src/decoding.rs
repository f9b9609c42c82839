//! Decoding: what the bytes of memory at an address mean as an instruction,
//! and the laws that tie decoding to encoding.

use crate::encoding::{field_bytes, fields_bytes, immediate_at, lemma_immediate_bytes_at, lemma_immediate_roundtrip};
use crate::isa::{
    kinds_of, layout_width, Field, FieldKind, Operation, OperationCode, Register,
};
use crate::machine::Error;
use vstd::prelude::*;

verus! {

/// Where a fetch that runs past the end of memory leaves the instruction
/// pointer: at the end of memory, or where it was if that is further.
pub open spec fn end_of_fetch(memory: Seq<u8>, at: int) -> int {
    if at >= memory.len() {
        at
    } else {
        memory.len() as int
    }
}

/// Fetches one operand of the given kind at `at`. Gives the operand and the
/// address after it, or the fault and the address at which the fetch stopped.
pub open spec fn fetch_field(memory: Seq<u8>, at: int, kind: FieldKind) -> Result<
    (Field, int),
    (Error, int),
> {
    match kind {
        FieldKind::Register => if at >= memory.len() {
            Err((Error::UnexpectedEnd, at))
        } else {
            match Register::of_byte(memory[at]) {
                Some(register) => Ok((Field::Register(register), at + 1)),
                None => Err((Error::Undefined, at + 1)),
            }
        },
        FieldKind::Immediate => if at + 4 > memory.len() {
            Err((Error::UnexpectedEnd, end_of_fetch(memory, at)))
        } else {
            Ok((Field::Immediate(immediate_at(memory, at)), at + 4))
        },
    }
}

/// Fetches the operands of the given kinds one after the other from `at`.
/// The first operand that cannot be fetched decides the fault.
pub open spec fn fetch_fields(memory: Seq<u8>, at: int, kinds: Seq<FieldKind>) -> Result<
    (Seq<Field>, int),
    (Error, int),
>
    decreases kinds.len(),
{
    if kinds.len() == 0 {
        Ok((seq![], at))
    } else {
        match fetch_field(memory, at, kinds[0]) {
            Err(fault) => Err(fault),
            Ok((field, next)) => match fetch_fields(memory, next, kinds.drop_first()) {
                Err(fault) => Err(fault),
                Ok((fields, end)) => Ok((seq![field] + fields, end)),
            },
        }
    }
}

/// Decodes the instruction at `at`: the opcode byte, then the operands that
/// the opcode's layout asks for. Gives the instruction and the address after
/// it, or the fault and the address at which decoding stopped.
pub open spec fn decode(memory: Seq<u8>, at: int) -> Result<(Operation, int), (Error, int)> {
    if at >= memory.len() {
        Err((Error::UnexpectedEnd, at))
    } else {
        match OperationCode::of_byte(memory[at]) {
            None => Err((Error::Undefined, at + 1)),
            Some(code) => match fetch_fields(memory, at + 1, code.layout()) {
                Err(fault) => Err(fault),
                Ok((fields, end)) => Ok((Operation::from_fields(code, fields)->0, end)),
            },
        }
    }
}

/// Operands that were fetched have the kinds that were asked for, and stand
/// in the bytes between the start of the fetch and its end.
pub proof fn lemma_fetch_fields(memory: Seq<u8>, at: int, kinds: Seq<FieldKind>)
    requires
        0 <= at,
        fetch_fields(memory, at, kinds) is Ok,
    ensures
        kinds_of(fetch_fields(memory, at, kinds)->Ok_0.0) == kinds,
        fetch_fields(memory, at, kinds)->Ok_0.1 == at + layout_width(kinds),
        kinds.len() > 0 ==> at + layout_width(kinds) <= memory.len(),
    decreases kinds.len(),
{
    let fields = fetch_fields(memory, at, kinds)->Ok_0.0;
    if kinds.len() > 0 {
        let next = fetch_field(memory, at, kinds[0])->Ok_0.1;
        lemma_fetch_fields(memory, next, kinds.drop_first());
        let more = fetch_fields(memory, next, kinds.drop_first())->Ok_0.0;
        assert forall|i: int| 0 <= i < fields.len() implies kinds_of(fields)[i] == kinds[i] by {
            if i > 0 {
                assert(kinds_of(more)[i - 1] == kinds.drop_first()[i - 1]);
            }
        }
    }
}

/// A fetch that fails stops after where it started, within memory or where
/// it started, and never for want of fuel.
pub proof fn lemma_fetch_fault(memory: Seq<u8>, at: int, kinds: Seq<FieldKind>)
    requires
        0 <= at <= memory.len(),
        fetch_fields(memory, at, kinds) is Err,
    ensures
        fetch_fields(memory, at, kinds)->Err_0.0 != Error::OutOfFuel,
        at <= fetch_fields(memory, at, kinds)->Err_0.1 <= memory.len(),
    decreases kinds.len(),
{
    if kinds.len() > 0 {
        match fetch_field(memory, at, kinds[0]) {
            Err(_) => {},
            Ok((_, next)) => lemma_fetch_fault(memory, next, kinds.drop_first()),
        }
    }
}

/// Fetching the operands `fields` from their own bytes gives them back.
pub proof fn lemma_fetch_encoded_fields(fields: Seq<Field>, memory: Seq<u8>, at: int)
    requires
        0 <= at,
        at + fields_bytes(fields).len() <= memory.len(),
        memory.subrange(at, at + fields_bytes(fields).len()) == fields_bytes(fields),
    ensures
        fetch_fields(memory, at, kinds_of(fields)) == Ok::<(Seq<Field>, int), (Error, int)>(
            (fields, at + fields_bytes(fields).len()),
        ),
    decreases fields.len(),
{
    let kinds = kinds_of(fields);
    let bytes = fields_bytes(fields);
    if fields.len() == 0 {
        assert(fields =~= seq![]);
    } else {
        let first = field_bytes(fields[0]);
        let rest = fields.drop_first();
        let next = at + first.len();
        assert(kinds.drop_first() =~= kinds_of(rest));
        assert(memory.subrange(at, next) =~= first);
        assert(memory.subrange(next, next + fields_bytes(rest).len()) =~= fields_bytes(rest)) by {
            assert(memory.subrange(next, next + fields_bytes(rest).len()) =~= bytes.subrange(
                first.len() as int,
                bytes.len() as int,
            ));
        }
        assert(fetch_field(memory, at, kinds[0]) == Ok::<(Field, int), (Error, int)>(
            (fields[0], next),
        )) by {
            match fields[0] {
                Field::Register(register) => {
                    register.lemma_index();
                    assert(memory[at] == memory.subrange(at, next)[0]);
                },
                Field::Immediate(value) => {
                    lemma_immediate_roundtrip(value, memory, at);
                },
            }
        }
        lemma_fetch_encoded_fields(rest, memory, next);
        assert(seq![fields[0]] + rest =~= fields);
    }
}

/// Operands that were fetched stand encoded in the bytes they were fetched
/// from.
pub proof fn lemma_fetched_fields_encoded(memory: Seq<u8>, at: int, kinds: Seq<FieldKind>)
    requires
        0 <= at <= memory.len(),
        fetch_fields(memory, at, kinds) is Ok,
    ensures
        at <= fetch_fields(memory, at, kinds)->Ok_0.1 <= memory.len(),
        memory.subrange(at, fetch_fields(memory, at, kinds)->Ok_0.1) == fields_bytes(
            fetch_fields(memory, at, kinds)->Ok_0.0,
        ),
    decreases kinds.len(),
{
    let fields = fetch_fields(memory, at, kinds)->Ok_0.0;
    if kinds.len() > 0 {
        let (field, next) = fetch_field(memory, at, kinds[0])->Ok_0;
        lemma_fetched_fields_encoded(memory, next, kinds.drop_first());
        let more = fetch_fields(memory, next, kinds.drop_first())->Ok_0.0;
        assert(fields.drop_first() =~= more);
        assert(memory.subrange(at, next) =~= field_bytes(field)) by {
            match field {
                Field::Register(register) => {
                    Register::lemma_of_byte(memory[at]);
                },
                Field::Immediate(value) => {
                    lemma_immediate_bytes_at(memory, at);
                },
            }
        }
    }
}

/// Encode, then decode: the bytes of an instruction, wherever they stand in
/// memory, decode to that instruction, and decoding ends right after them.
pub proof fn lemma_decode_encoded(operation: Operation, memory: Seq<u8>, at: int)
    requires
        0 <= at,
        at + operation.encoding().len() <= memory.len(),
        memory.subrange(at, at + operation.encoding().len()) == operation.encoding(),
    ensures
        decode(memory, at) == Ok::<(Operation, int), (Error, int)>(
            (operation, at + operation.encoding().len()),
        ),
{
    let bytes = operation.encoding();
    let fields = operation.fields();
    operation.lemma_fields();
    operation.code().lemma_number();
    assert(memory[at] == memory.subrange(at, at + bytes.len())[0]);
    assert(memory.subrange(at + 1, at + 1 + fields_bytes(fields).len()) =~= fields_bytes(fields))
        by {
        assert(memory.subrange(at + 1, at + 1 + fields_bytes(fields).len()) =~= bytes.subrange(
            1,
            bytes.len() as int,
        ));
    }
    lemma_fetch_encoded_fields(fields, memory, at + 1);
}

/// Decode, then encode: an instruction that was decoded stands encoded in
/// the bytes between the address it was decoded at and the address where
/// decoding ended.
pub proof fn lemma_decoded_is_encoded(memory: Seq<u8>, at: int)
    requires
        0 <= at,
        decode(memory, at) is Ok,
    ensures
        at < decode(memory, at)->Ok_0.1 <= memory.len(),
        decode(memory, at)->Ok_0.1 == at + decode(memory, at)->Ok_0.0.code().length(),
        memory.subrange(at, decode(memory, at)->Ok_0.1) == decode(memory, at)->Ok_0.0.encoding(),
{
    let code = OperationCode::of_byte(memory[at])->0;
    OperationCode::lemma_of_byte(memory[at]);
    lemma_fetch_fields(memory, at + 1, code.layout());
    lemma_fetched_fields_encoded(memory, at + 1, code.layout());
    let fields = fetch_fields(memory, at + 1, code.layout())->Ok_0.0;
    Operation::lemma_from_fields(code, fields);
}

/// No two instructions have the same bytes, and the bytes of one are never
/// the beginning of the bytes of another.
pub proof fn lemma_encoding_is_prefix_free(first: Operation, second: Operation)
    requires
        first.encoding().len() <= second.encoding().len(),
        second.encoding().subrange(0, first.encoding().len() as int) == first.encoding(),
    ensures
        first == second,
{
    let memory = second.encoding();
    assert(memory.subrange(0, memory.len() as int) =~= memory);
    lemma_decode_encoded(second, memory, 0);
    lemma_decode_encoded(first, memory, 0);
}

} // verus!
