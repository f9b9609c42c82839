//! The virtual machine: sixteen 32-bit registers, a flat byte memory that
//! holds the program from address 0, and an instruction pointer. The machine
//! fetches, decodes and executes one instruction at a time until it halts,
//! faults or runs out of fuel.
//!
//! Every register is an ordinary register, `R0` too. Arithmetic wraps
//! around at 2^32. A load or a store moves one 32-bit word, big-endian like
//! the immediates of instructions, at any byte address. Code and data share
//! the one memory: what lies past the program starts as zeros. Since a
//! program may loop for ever, every run takes a budget of instructions, its
//! fuel.
//!
//! [`step`] and [`outcome`] say what the machine does; [`Machine::step`] and
//! [`Machine::interpret`] do it.

use crate::decoding::{
    decode, end_of_fetch, fetch_field, fetch_fields, lemma_decoded_is_encoded, lemma_fetch_fault,
    lemma_fetch_fields,
};
use crate::encoding::{
    double_from_words, immediate_at, immediate_bytes, push_immediate, word_from_bytes, word_value,
};
use crate::isa::{Field, FieldKind, Operation, OperationCode, Register, UndefinedByte};
use vstd::prelude::*;
use vstd::std_specs::convert::FromSpecImpl;

verus! {

/// Why the machine stopped without halting.
#[derive(Clone, Copy, Debug, PartialEq, Eq, Structural)]
pub enum Error {
    /// A fetch or a memory access reached past the end of memory.
    UnexpectedEnd,
    /// A byte that names no opcode, or no register.
    Undefined,
    /// The instruction budget was used up before the machine halted. The
    /// machine is intact and may be run further.
    OutOfFuel,
}

impl From<UndefinedByte> for Error {
    /// A byte that names no opcode or no register is an undefined
    /// instruction.
    fn from(byte: UndefinedByte) -> (error: Error) {
        Error::Undefined
    }
}

impl FromSpecImpl<UndefinedByte> for Error {
    open spec fn obeys_from_spec() -> bool {
        true
    }

    open spec fn from_spec(byte: UndefinedByte) -> Error {
        Error::Undefined
    }
}

/// The size in bytes of the memory of a machine made by [`Machine::new`].
pub const VM_MEMORY: usize = 0x10_0000;

/// The largest memory a machine can have: addresses are 32 bits wide.
pub const MEMORY_LIMIT: usize = 0xFFFF_FFFF;

/// The register file.
#[derive(Debug)]
pub struct Registers {
    inner: [u32; 16],
}

impl View for Registers {
    type V = Seq<u32>;

    closed spec fn view(&self) -> Seq<u32> {
        self.inner@
    }
}

impl Registers {
    /// A register file with every register zero.
    pub fn new() -> (registers: Registers)
        ensures
            registers@ == Seq::new(16, |i: int| 0u32),
    {
        let registers = Registers { inner: [0u32;16] };
        registers
    }

    /// The value of `register`.
    pub fn get(&self, register: Register) -> (value: u32)
        ensures
            value == self@[register.index()],
    {
        self.inner[register.to_byte() as usize]
    }

    /// Sets `register` to `value`.
    pub fn set(&mut self, register: Register, value: u32)
        ensures
            final(self)@ == old(self)@.update(register.index(), value),
    {
        self.inner[register.to_byte() as usize] = value;
    }

    /// The values of all the registers, by index.
    pub fn values(&self) -> (values: [u32; 16])
        ensures
            values@ == self@,
    {
        self.inner
    }

    /// A register file always holds sixteen registers.
    pub proof fn lemma_len(&self)
        ensures
            self@.len() == 16,
    {
    }
}

impl Default for Registers {
    /// A register file with every register zero.
    fn default() -> (registers: Registers)
        ensures
            registers@ == Seq::new(16, |i: int| 0u32),
    {
        Registers::new()
    }
}

/// The state of a machine as plain values.
pub ghost struct State {
    /// The sixteen registers, by index.
    pub registers: Seq<u32>,
    /// The memory, by address.
    pub memory: Seq<u8>,
    /// The address of the next byte to fetch.
    pub ip: int,
}

/// The sum of two 32-bit values, wrapping around at 2^32.
pub open spec fn wrapping_sum(a: u32, b: u32) -> u32 {
    if a + b > u32::MAX {
        (a + b - 0x1_0000_0000) as u32
    } else {
        (a + b) as u32
    }
}

/// The difference of two 32-bit values, wrapping around at 0.
pub open spec fn wrapping_difference(a: u32, b: u32) -> u32 {
    if a - b < 0 {
        (a - b + 0x1_0000_0000) as u32
    } else {
        (a - b) as u32
    }
}

/// The memory with the four big-endian bytes of `value` stored at `at`.
pub open spec fn stored(memory: Seq<u8>, at: int, value: u32) -> Seq<u8> {
    Seq::new(
        memory.len(),
        |i: int|
            if at <= i < at + 4 {
                immediate_bytes(value)[i - at]
            } else {
                memory[i]
            },
    )
}

impl State {
    /// Whether this is the state of a machine: sixteen registers, and a
    /// memory and an instruction pointer within 32 bits.
    pub open spec fn wf(self) -> bool {
        &&& self.registers.len() == 16
        &&& self.memory.len() <= MEMORY_LIMIT
        &&& 0 <= self.ip <= MEMORY_LIMIT
    }

    /// The value of `register`.
    pub open spec fn register(self, register: Register) -> u32 {
        self.registers[register.index()]
    }

    /// This state with `register` set to `value`.
    pub open spec fn with_register(self, register: Register, value: u32) -> State {
        State { registers: self.registers.update(register.index(), value), ..self }
    }

    /// This state with the instruction pointer at `ip`.
    pub open spec fn at(self, ip: int) -> State {
        State { ip, ..self }
    }

    /// This state with the instruction pointer at `ip` if `taken`.
    pub open spec fn branched(self, taken: bool, ip: u32) -> State {
        if taken {
            self.at(ip as int)
        } else {
            self
        }
    }
}

/// Executes `operation` in a state whose instruction pointer already stands
/// after that instruction. Gives the state afterwards, and whether the
/// machine halted (`Ok(true)`), goes on (`Ok(false)`) or faulted.
///
/// A word in memory is 32 bits wide, big-endian, at any byte address; a load
/// or a store that does not fit within memory faults and changes nothing.
pub open spec fn execute(state: State, operation: Operation) -> (State, Result<bool, Error>) {
    match operation {
        Operation::Halt {  } => (state, Ok(true)),
        Operation::AddImm { src, val, dst } => (
            state.with_register(dst, wrapping_sum(state.register(src), val)),
            Ok(false),
        ),
        Operation::Add { src, dst } => (
            state.with_register(dst, wrapping_sum(state.register(dst), state.register(src))),
            Ok(false),
        ),
        Operation::Sub { src, dst } => (
            state.with_register(
                dst,
                wrapping_difference(state.register(dst), state.register(src)),
            ),
            Ok(false),
        ),
        Operation::And { src, dst } => (
            state.with_register(dst, state.register(dst) & state.register(src)),
            Ok(false),
        ),
        Operation::Or { src, dst } => (
            state.with_register(dst, state.register(dst) | state.register(src)),
            Ok(false),
        ),
        Operation::Xor { src, dst } => (
            state.with_register(dst, state.register(dst) ^ state.register(src)),
            Ok(false),
        ),
        Operation::Jump { addy, dst } => (
            state.with_register(dst, state.ip as u32).at(addy as int),
            Ok(false),
        ),
        Operation::BranchEQ { lhs, rhs, addy } => (
            state.branched(state.register(lhs) == state.register(rhs), addy),
            Ok(false),
        ),
        Operation::BranchNE { lhs, rhs, addy } => (
            state.branched(state.register(lhs) != state.register(rhs), addy),
            Ok(false),
        ),
        Operation::BranchLT { lhs, rhs, addy } => (
            state.branched(state.register(lhs) < state.register(rhs), addy),
            Ok(false),
        ),
        Operation::BranchGE { lhs, rhs, addy } => (
            state.branched(state.register(lhs) >= state.register(rhs), addy),
            Ok(false),
        ),
        Operation::Load { ady, dst } => if ady + 4 <= state.memory.len() {
            (state.with_register(dst, immediate_at(state.memory, ady as int)), Ok(false))
        } else {
            (state, Err(Error::UnexpectedEnd))
        },
        Operation::Store { src, ady } => if ady + 4 <= state.memory.len() {
            (
                State { memory: stored(state.memory, ady as int, state.register(src)), ..state },
                Ok(false),
            )
        } else {
            (state, Err(Error::UnexpectedEnd))
        },
    }
}

/// One turn of the machine: fetch and decode the instruction at the
/// instruction pointer, then execute it.
pub open spec fn step(state: State) -> (State, Result<bool, Error>) {
    match decode(state.memory, state.ip) {
        Err((fault, at)) => (state.at(at), Err(fault)),
        Ok((operation, next)) => execute(state.at(next), operation),
    }
}

/// Where the machine ends when it runs from `state` for at most `fuel`
/// instructions: halted (`Ok`), faulted, or out of fuel.
pub open spec fn outcome(state: State, fuel: nat) -> (State, Result<(), Error>)
    decreases fuel,
{
    if fuel == 0 {
        (state, Err(Error::OutOfFuel))
    } else {
        match step(state) {
            (halted, Ok(true)) => (halted, Ok(())),
            (next, Ok(false)) => outcome(next, (fuel - 1) as nat),
            (faulted, Err(fault)) => (faulted, Err(fault)),
        }
    }
}

/// Wrapping arithmetic is arithmetic modulo 2^32.
pub proof fn lemma_wrapping(a: u32, b: u32)
    ensures
        wrapping_sum(a, b) == (a + b) % 0x1_0000_0000,
        wrapping_difference(a, b) == (a - b) % 0x1_0000_0000,
{
}

/// A branch on "greater or equal" moves the instruction pointer to its
/// target exactly when the first register is at least the second, as
/// unsigned numbers, and changes nothing else.
pub proof fn lemma_branch_ge(state: State, lhs: Register, rhs: Register, addy: u32)
    ensures
        execute(state, Operation::BranchGE { lhs, rhs, addy }) == (
            if state.register(lhs) >= state.register(rhs) {
                State { ip: addy as int, ..state }
            } else {
                state
            },
            Ok::<bool, Error>(false),
        ),
{
}

/// A fetch past the end of memory is an `UnexpectedEnd` and leaves the
/// state as it was.
pub proof fn lemma_fetch_past_end(state: State)
    requires
        state.ip >= state.memory.len(),
    ensures
        step(state) == (state, Err::<bool, Error>(Error::UnexpectedEnd)),
{
}

/// Decoding never runs out of fuel, and it stops within memory or where it
/// started.
pub proof fn lemma_decode_fault(memory: Seq<u8>, at: int)
    requires
        0 <= at,
        decode(memory, at) is Err,
    ensures
        decode(memory, at)->Err_0.0 != Error::OutOfFuel,
        at <= decode(memory, at)->Err_0.1,
        decode(memory, at)->Err_0.1 <= memory.len() || decode(memory, at)->Err_0.1 == at,
{
    if at < memory.len() {
        match OperationCode::of_byte(memory[at]) {
            None => {},
            Some(code) => {
                lemma_fetch_fault(memory, at + 1, code.layout());
            },
        }
    }
}

/// A step of a machine gives the state of a machine, and never runs out of
/// fuel.
pub proof fn lemma_step(state: State)
    requires
        state.wf(),
    ensures
        step(state).0.wf(),
        step(state).1 != Err::<bool, Error>(Error::OutOfFuel),
{
    match decode(state.memory, state.ip) {
        Err(_) => {
            lemma_decode_fault(state.memory, state.ip);
        },
        Ok((operation, next)) => {
            lemma_decoded_is_encoded(state.memory, state.ip);
        },
    }
}

/// A run of a machine ends in the state of a machine.
pub proof fn lemma_outcome(state: State, fuel: nat)
    requires
        state.wf(),
    ensures
        outcome(state, fuel).0.wf(),
    decreases fuel,
{
    if fuel > 0 {
        lemma_step(state);
        match step(state) {
            (next, Ok(false)) => lemma_outcome(next, (fuel - 1) as nat),
            _ => {},
        }
    }
}

/// Running out of fuel loses nothing: a run with the fuel of two runs ends
/// where the second run ends when it starts where the first one ran out,
/// and where the first run ends when that one halted or faulted.
pub proof fn lemma_outcome_resumes(state: State, first: nat, second: nat)
    requires
        state.wf(),
    ensures
        outcome(state, first + second) == if outcome(state, first).1 == Err::<(), Error>(
            Error::OutOfFuel,
        ) {
            outcome(outcome(state, first).0, second)
        } else {
            outcome(state, first)
        },
    decreases first,
{
    if first > 0 {
        lemma_step(state);
        match step(state) {
            (next, Ok(false)) => {
                lemma_outcome_resumes(next, (first - 1) as nat, second);
            },
            _ => {},
        }
    }
}

/// A result of `fetch_fields` with the operands `fields` put before it.
spec fn preceded_by(
    fields: Seq<Field>,
    rest: Result<(Seq<Field>, int), (Error, int)>,
) -> Result<(Seq<Field>, int), (Error, int)> {
    match rest {
        Err(fault) => Err(fault),
        Ok((more, end)) => Ok((fields + more, end)),
    }
}

/// The virtual machine.
#[derive(Debug)]
pub struct Machine {
    registers: Registers,
    memory: Vec<u8>,
    ip: usize,
}

impl View for Machine {
    type V = State;

    closed spec fn view(&self) -> State {
        State { registers: self.registers@, memory: self.memory@, ip: self.ip as int }
    }
}

impl Machine {
    /// Every machine has sixteen registers.
    pub proof fn lemma_registers(&self)
        ensures
            self@.registers.len() == 16,
    {
    }

    /// A machine with `size` bytes of memory that hold `code` from address
    /// 0 and zeros after it, with every register zero and the instruction
    /// pointer at 0.
    pub fn with_memory(code: &[u8], size: usize) -> (machine: Machine)
        requires
            code@.len() <= size <= MEMORY_LIMIT,
        ensures
            machine@ == initial(code@, size as int),
            machine@.wf(),
    {
        let mut memory = vec![0u8; size];
        let mut i: usize = 0;
        while i < code.len()
            invariant
                i <= code@.len() <= size,
                memory@.len() == size,
                forall|j: int| 0 <= j < i ==> memory@[j] == code@[j],
                forall|j: int| i <= j < size ==> memory@[j] == 0u8,
            decreases code.len() - i,
        {
            memory[i] = code[i];
            i += 1;
        }
        assert(memory@ =~= code@ + Seq::new((size - code@.len()) as nat, |i: int| 0u8));
        Machine { registers: Registers::new(), memory, ip: 0 }
    }

    /// A machine with [`VM_MEMORY`] bytes of memory that hold `code` from
    /// address 0.
    pub fn new(code: &[u8]) -> (machine: Machine)
        requires
            code@.len() <= VM_MEMORY,
        ensures
            machine@ == initial(code@, VM_MEMORY as int),
            machine@.wf(),
    {
        Machine::with_memory(code, VM_MEMORY)
    }

    /// The value of `register`.
    pub fn register(&self, register: Register) -> (value: u32)
        ensures
            value == self@.registers[register.index()],
    {
        self.registers.get(register)
    }

    /// The register file.
    pub fn registers(&self) -> (registers: &Registers)
        ensures
            registers@ == self@.registers,
    {
        &self.registers
    }

    /// The memory.
    pub fn memory(&self) -> (memory: &[u8])
        ensures
            memory@ == self@.memory,
    {
        self.memory.as_slice()
    }

    /// The instruction pointer.
    pub fn ip(&self) -> (ip: usize)
        ensures
            ip == self@.ip,
    {
        self.ip
    }

    /// Fetches the byte at the instruction pointer and advances by one. At
    /// or past the end of memory nothing is read and nothing changes.
    pub fn next_byte(&mut self) -> (byte: Result<u8, Error>)
        requires
            old(self)@.wf(),
        ensures
            final(self)@.wf(),
            old(self)@.ip < old(self)@.memory.len() ==> byte == Ok::<u8, Error>(
                old(self)@.memory[old(self)@.ip],
            ) && final(self)@ == (State { ip: old(self)@.ip + 1, ..old(self)@ }),
            old(self)@.ip >= old(self)@.memory.len() ==> byte == Err::<u8, Error>(
                Error::UnexpectedEnd,
            ) && final(self)@ == old(self)@,
    {
        if self.ip < self.memory.len() {
            let byte = self.memory[self.ip];
            self.ip += 1;
            Ok(byte)
        } else {
            Err(Error::UnexpectedEnd)
        }
    }

    /// Fetches two bytes as a 16-bit value, the high byte first.
    pub fn next_word(&mut self) -> (word: Result<u16, Error>)
        requires
            old(self)@.wf(),
        ensures
            final(self)@.wf(),
            final(self)@.registers == old(self)@.registers,
            final(self)@.memory == old(self)@.memory,
            old(self)@.ip + 2 <= old(self)@.memory.len() ==> word == Ok::<u16, Error>(
                word_value(
                    old(self)@.memory[old(self)@.ip],
                    old(self)@.memory[old(self)@.ip + 1],
                ),
            ) && final(self)@.ip == old(self)@.ip + 2,
            old(self)@.ip + 2 > old(self)@.memory.len() ==> word == Err::<u16, Error>(
                Error::UnexpectedEnd,
            ) && final(self)@.ip == end_of_fetch(old(self)@.memory, old(self)@.ip),
    {
        let a = match self.next_byte() {
            Ok(byte) => byte,
            Err(error) => return Err(error),
        };
        let b = match self.next_byte() {
            Ok(byte) => byte,
            Err(error) => return Err(error),
        };
        Ok(word_from_bytes(a, b))
    }

    /// Fetches four bytes as a 32-bit value, the most significant byte
    /// first.
    pub fn next_double(&mut self) -> (double: Result<u32, Error>)
        requires
            old(self)@.wf(),
        ensures
            final(self)@.wf(),
            final(self)@.registers == old(self)@.registers,
            final(self)@.memory == old(self)@.memory,
            old(self)@.ip + 4 <= old(self)@.memory.len() ==> double == Ok::<u32, Error>(
                immediate_at(old(self)@.memory, old(self)@.ip),
            ) && final(self)@.ip == old(self)@.ip + 4,
            old(self)@.ip + 4 > old(self)@.memory.len() ==> double == Err::<u32, Error>(
                Error::UnexpectedEnd,
            ) && final(self)@.ip == end_of_fetch(old(self)@.memory, old(self)@.ip),
    {
        let a = match self.next_word() {
            Ok(word) => word,
            Err(error) => return Err(error),
        };
        let b = match self.next_word() {
            Ok(word) => word,
            Err(error) => return Err(error),
        };
        Ok(double_from_words(a, b))
    }

    /// Fetches one operand of the given kind.
    fn next_field(&mut self, kind: FieldKind) -> (field: Result<Field, Error>)
        requires
            old(self)@.wf(),
        ensures
            final(self)@.wf(),
            final(self)@.registers == old(self)@.registers,
            final(self)@.memory == old(self)@.memory,
            match fetch_field(old(self)@.memory, old(self)@.ip, kind) {
                Ok((fetched, next)) => field == Ok::<Field, Error>(fetched) && final(self)@.ip
                    == next,
                Err((fault, at)) => field == Err::<Field, Error>(fault) && final(self)@.ip == at,
            },
    {
        match kind {
            FieldKind::Register => {
                let byte = match self.next_byte() {
                    Ok(byte) => byte,
                    Err(error) => return Err(error),
                };
                match Register::try_from(byte) {
                    Ok(register) => Ok(Field::Register(register)),
                    Err(undefined) => Err(Error::from(undefined)),
                }
            },
            FieldKind::Immediate => {
                match self.next_double() {
                    Ok(value) => Ok(Field::Immediate(value)),
                    Err(error) => Err(error),
                }
            },
        }
    }

    /// Fetches and decodes the instruction at the instruction pointer, and
    /// leaves the pointer after it. On a fault the pointer stays where the
    /// fetch stopped: after an undefined byte, or at the end of memory.
    pub fn next(&mut self) -> (operation: Result<Operation, Error>)
        requires
            old(self)@.wf(),
        ensures
            final(self)@.wf(),
            final(self)@.registers == old(self)@.registers,
            final(self)@.memory == old(self)@.memory,
            match decode(old(self)@.memory, old(self)@.ip) {
                Ok((decoded, next)) => operation == Ok::<Operation, Error>(decoded)
                    && final(self)@.ip == next,
                Err((fault, at)) => operation == Err::<Operation, Error>(fault)
                    && final(self)@.ip == at,
            },
    {
        let byte = match self.next_byte() {
            Ok(byte) => byte,
            Err(error) => return Err(error),
        };
        let code = match OperationCode::try_from(byte) {
            Ok(code) => code,
            Err(undefined) => return Err(Error::from(undefined)),
        };
        let kinds = code.fields();
        let ghost memory = self@.memory;
        let ghost start = self@.ip;
        let mut fields: Vec<Field> = Vec::new();
        let mut i: usize = 0;
        assert(kinds@.skip(0) =~= kinds@);
        assert(fetch_fields(memory, start, kinds@) == preceded_by(
            fields@,
            fetch_fields(memory, start, kinds@),
        )) by {
            match fetch_fields(memory, start, kinds@) {
                Ok((more, end)) => assert(fields@ + more =~= more),
                Err(_) => {},
            }
        }
        while i < kinds.len()
            invariant
                i <= kinds.len(),
                self@.wf(),
                memory == old(self)@.memory,
                self@.memory == memory,
                self@.registers == old(self)@.registers,
                old(self)@.ip < memory.len(),
                start == old(self)@.ip + 1,
                OperationCode::of_byte(memory[old(self)@.ip]) == Some(code),
                kinds@ == code.layout(),
                fields@.len() == i,
                fetch_fields(memory, start, kinds@) == preceded_by(
                    fields@,
                    fetch_fields(memory, self@.ip, kinds@.skip(i as int)),
                ),
            decreases kinds.len() - i,
        {
            let ghost before = fields@;
            proof {
                assert(kinds@.skip(i as int).drop_first() =~= kinds@.skip(i + 1));
            }
            let field = match self.next_field(kinds[i]) {
                Ok(field) => field,
                Err(error) => return Err(error),
            };
            fields.push(field);
            i += 1;
            proof {
                match fetch_fields(memory, self@.ip, kinds@.skip(i as int)) {
                    Ok((more, end)) => assert(before + (seq![field] + more) =~= fields@ + more),
                    Err(_) => {},
                }
            }
        }
        proof {
            lemma_fetch_fields(memory, start, kinds@);
        }
        match Operation::from_operands(code, fields.as_slice()) {
            Some(operation) => Ok(operation),
            None => Err(Error::Undefined),
        }
    }

    /// Sets `dst` to `f(dst, src)`.
    pub fn binary<F: Fn(u32, u32) -> u32>(&mut self, f: F, src: Register, dst: Register)
        requires
            old(self)@.wf(),
            call_requires(f, (old(self)@.register(dst), old(self)@.register(src))),
        ensures
            final(self)@.wf(),
            call_ensures(
                f,
                (old(self)@.register(dst), old(self)@.register(src)),
                final(self)@.register(dst),
            ),
            final(self)@ == old(self)@.with_register(dst, final(self)@.register(dst)),
    {
        let value = f(self.registers.get(dst), self.registers.get(src));
        self.registers.set(dst, value);
        proof {
            self.registers.lemma_len();
        }
    }

    /// Moves the instruction pointer to `ady` if `f(lhs, rhs)` holds.
    pub fn branch<F: Fn(&u32, &u32) -> bool>(
        &mut self,
        f: F,
        lhs: Register,
        rhs: Register,
        ady: u32,
    )
        requires
            old(self)@.wf(),
            call_requires(f, (&old(self)@.register(lhs), &old(self)@.register(rhs))),
        ensures
            final(self)@.wf(),
            call_ensures(f, (&old(self)@.register(lhs), &old(self)@.register(rhs)), true)
                && final(self)@ == old(self)@.at(ady as int) || call_ensures(
                f,
                (&old(self)@.register(lhs), &old(self)@.register(rhs)),
                false,
            ) && final(self)@ == old(self)@,
    {
        let a = self.registers.get(lhs);
        let b = self.registers.get(rhs);
        if f(&a, &b) {
            self.ip = ady as usize;
        }
    }

    /// Sets `dst` to `src + val`, wrapping.
    fn add_immediate(&mut self, src: Register, val: u32, dst: Register)
        requires
            old(self)@.wf(),
        ensures
            final(self)@.wf(),
            final(self)@ == execute(old(self)@, Operation::AddImm { src, val, dst }).0,
    {
        let value = self.registers.get(src).wrapping_add(val);
        self.registers.set(dst, value);
    }

    /// Executes an instruction that combines two registers into the second.
    fn combine(&mut self, operation: Operation)
        requires
            old(self)@.wf(),
            operation is Add || operation is Sub || operation is And || operation is Or
                || operation is Xor,
        ensures
            final(self)@.wf(),
            final(self)@ == execute(old(self)@, operation).0,
    {
        match operation {
            Operation::Add { src, dst } => self.binary(u32::wrapping_add, src, dst),
            Operation::Sub { src, dst } => self.binary(u32::wrapping_sub, src, dst),
            Operation::And { src, dst } => self.binary(std::ops::BitAnd::bitand, src, dst),
            Operation::Or { src, dst } => self.binary(std::ops::BitOr::bitor, src, dst),
            Operation::Xor { src, dst } => self.binary(std::ops::BitXor::bitxor, src, dst),
            _ => {},
        }
    }

    /// Executes an instruction that compares two registers and branches.
    fn compare(&mut self, operation: Operation)
        requires
            old(self)@.wf(),
            operation is BranchEQ || operation is BranchNE || operation is BranchLT
                || operation is BranchGE,
        ensures
            final(self)@.wf(),
            final(self)@ == execute(old(self)@, operation).0,
    {
        match operation {
            Operation::BranchEQ { lhs, rhs, addy } => self.branch(PartialEq::eq, lhs, rhs, addy),
            Operation::BranchNE { lhs, rhs, addy } => self.branch(PartialEq::ne, lhs, rhs, addy),
            Operation::BranchLT { lhs, rhs, addy } => self.branch(PartialOrd::lt, lhs, rhs, addy),
            Operation::BranchGE { lhs, rhs, addy } => self.branch(PartialOrd::ge, lhs, rhs, addy),
            _ => {},
        }
    }

    /// Sets `dst` to the instruction pointer, then the pointer to `addy`.
    fn jump(&mut self, addy: u32, dst: Register)
        requires
            old(self)@.wf(),
        ensures
            final(self)@.wf(),
            final(self)@ == execute(old(self)@, Operation::Jump { addy, dst }).0,
    {
        self.registers.set(dst, self.ip as u32);
        self.ip = addy as usize;
    }

    /// Sets `dst` to the 32-bit word in memory at `ady`.
    fn load(&mut self, ady: u32, dst: Register) -> (halted: Result<bool, Error>)
        requires
            old(self)@.wf(),
        ensures
            final(self)@.wf(),
            (final(self)@, halted) == execute(old(self)@, Operation::Load { ady, dst }),
    {
        let at = ady as usize;
        if at > self.memory.len() || self.memory.len() - at < 4 {
            return Err(Error::UnexpectedEnd);
        }
        let high = word_from_bytes(self.memory[at], self.memory[at + 1]);
        let low = word_from_bytes(self.memory[at + 2], self.memory[at + 3]);
        self.registers.set(dst, double_from_words(high, low));
        Ok(false)
    }

    /// Stores `src` as the 32-bit word in memory at `ady`.
    fn store(&mut self, src: Register, ady: u32) -> (halted: Result<bool, Error>)
        requires
            old(self)@.wf(),
        ensures
            final(self)@.wf(),
            (final(self)@, halted) == execute(old(self)@, Operation::Store { src, ady }),
    {
        let at = ady as usize;
        if at > self.memory.len() || self.memory.len() - at < 4 {
            return Err(Error::UnexpectedEnd);
        }
        let value = self.registers.get(src);
        let mut bytes: Vec<u8> = Vec::new();
        push_immediate(&mut bytes, value);
        self.memory[at] = bytes[0];
        self.memory[at + 1] = bytes[1];
        self.memory[at + 2] = bytes[2];
        self.memory[at + 3] = bytes[3];
        assert(self.memory@ =~= stored(old(self)@.memory, at as int, value));
        Ok(false)
    }

    /// Executes `operation`; the instruction pointer already stands after
    /// that instruction. Returns `Ok(true)` when the machine halted and
    /// `Ok(false)` when it goes on.
    pub fn execute(&mut self, operation: Operation) -> (halted: Result<bool, Error>)
        requires
            old(self)@.wf(),
        ensures
            final(self)@.wf(),
            (final(self)@, halted) == execute(old(self)@, operation),
    {
        match operation {
            Operation::Halt {  } => return Ok(true),
            Operation::AddImm { src, val, dst } => self.add_immediate(src, val, dst),
            Operation::Add { .. }
            | Operation::Sub { .. }
            | Operation::And { .. }
            | Operation::Or { .. }
            | Operation::Xor { .. } => self.combine(operation),
            Operation::Jump { addy, dst } => self.jump(addy, dst),
            Operation::BranchEQ { .. }
            | Operation::BranchNE { .. }
            | Operation::BranchLT { .. }
            | Operation::BranchGE { .. } => self.compare(operation),
            Operation::Load { ady, dst } => return self.load(ady, dst),
            Operation::Store { src, ady } => return self.store(src, ady),
        }
        Ok(false)
    }

    /// One turn of the machine: fetches, decodes and executes the
    /// instruction at the instruction pointer. Returns `Ok(true)` when the
    /// machine halted and `Ok(false)` when it goes on.
    pub fn step(&mut self) -> (halted: Result<bool, Error>)
        requires
            old(self)@.wf(),
        ensures
            final(self)@.wf(),
            (final(self)@, halted) == step(old(self)@),
    {
        match self.next() {
            Ok(operation) => self.execute(operation),
            Err(error) => Err(error),
        }
    }

    /// Runs the machine until it halts or faults, for at most `fuel`
    /// instructions. Returns `Ok` when it halted, the fault when it
    /// faulted, and [`Error::OutOfFuel`] when `fuel` instructions were
    /// executed and the machine has neither halted nor faulted.
    pub fn interpret(&mut self, fuel: u64) -> (result: Result<(), Error>)
        requires
            old(self)@.wf(),
        ensures
            final(self)@.wf(),
            (final(self)@, result) == outcome(old(self)@, fuel as nat),
    {
        let mut left = fuel;
        while left > 0
            invariant
                self@.wf(),
                outcome(old(self)@, fuel as nat) == outcome(self@, left as nat),
            decreases left,
        {
            match self.step() {
                Ok(true) => return Ok(()),
                Ok(false) => {},
                Err(error) => return Err(error),
            }
            left -= 1;
        }
        Err(Error::OutOfFuel)
    }
}

/// A fault of the machine with the instruction pointer at which it stopped.
#[derive(Clone, Copy, Debug, PartialEq, Eq, Structural)]
pub struct Fault {
    /// The instruction pointer when the machine stopped.
    pub ip: usize,
    /// Why it stopped.
    pub cause: Error,
}

/// The state of a fresh machine with `size` bytes of memory that hold `code`.
pub open spec fn initial(code: Seq<u8>, size: int) -> State {
    State {
        registers: Seq::new(16, |i: int| 0u32),
        memory: code + Seq::new((size - code.len()) as nat, |i: int| 0u8),
        ip: 0,
    }
}

/// Loads `code` into a fresh machine with `memory_size` bytes of memory and
/// runs it for at most `fuel` instructions. Returns the halted machine, or
/// the fault with the instruction pointer at which the machine stopped.
pub fn run(code: &[u8], memory_size: usize, fuel: u64) -> (result: Result<Machine, Fault>)
    requires
        code@.len() <= memory_size <= MEMORY_LIMIT,
    ensures
        match outcome(initial(code@, memory_size as int), fuel as nat) {
            (halted, Ok(())) => result is Ok && result->Ok_0@ == halted && halted.wf(),
            (faulted, Err(cause)) => result is Err && result->Err_0.cause == cause
                && result->Err_0.ip == faulted.ip,
        },
{
    let mut machine = Machine::with_memory(code, memory_size);
    match machine.interpret(fuel) {
        Ok(()) => Ok(machine),
        Err(cause) => Err(Fault { ip: machine.ip(), cause }),
    }
}

} // verus!
