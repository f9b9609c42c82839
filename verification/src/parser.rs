//! The parser: tokens to statements.
//!
//! A statement is a label definition, `name:`, or an instruction: a
//! mnemonic followed by its operands, separated by commas, in the order of
//! the opcode's layout. A register operand is written `r0` to `r15`. A
//! 32-bit operand is written as a number, or as the name of a label whose
//! address it stands for. Statements follow each other with nothing in
//! between; the number of operands of each mnemonic is fixed, so where one
//! statement ends the next begins.
//!
//! The mnemonics are `halt`, `addi`, `add`, `sub`, `and`, `or`, `xor`,
//! `jump`, `beq`, `bne`, `blt`, `bge`, `load` and `store`. An identifier
//! before a colon is always a label, whatever its name. No statement starts
//! with `.`, `,`, `:`, a number or a string: there are no data directives.
//!
//! [`statements`] says what the statements of a token sequence are;
//! [`parse`] computes them, and [`Parser`] hands them out one at a time.

use crate::isa::{FieldKind, OperationCode, Register};
use crate::lexer::{is_digit, is_lower, lexemes, Lexeme, Token};
use vstd::prelude::*;
use vstd::string::StringSliceAdditionalSpecFns;
use vstd::utf8::{encode_utf8, is_ascii_chars, is_ascii_chars_encode_utf8};

verus! {

/// The parser found tokens that are no statement, or the tokens ended in
/// the middle of one.
#[derive(Clone, Copy, Debug, Default, PartialEq, Eq, Structural)]
pub enum ParsingError {
    #[default]
    Undefined,
}

/// An operand as written in the source.
#[derive(Clone, Copy, Debug, PartialEq, Eq)]
pub enum Operand<'source> {
    Register(Register),
    Immediate(u32),
    /// The address of the label with this name.
    Label(&'source str),
}

/// A statement of the source.
#[derive(Clone, Debug, PartialEq, Eq)]
pub enum Statement<'source> {
    /// The definition of a label at this place in the code.
    Label(&'source str),
    /// An instruction: its opcode and its operands as written.
    Instruction(OperationCode, Vec<Operand<'source>>),
}

/// An operand as plain values: a label as the bytes of its name.
pub ghost enum Argument {
    Register(Register),
    Immediate(u32),
    Label(Seq<u8>),
}

/// A statement as plain values: a label as the bytes of its name.
pub ghost enum Sentence {
    Label(Seq<u8>),
    Instruction(OperationCode, Seq<Argument>),
}

impl<'source> View for Operand<'source> {
    type V = Argument;

    open spec fn view(&self) -> Argument {
        match *self {
            Operand::Register(register) => Argument::Register(register),
            Operand::Immediate(value) => Argument::Immediate(value),
            Operand::Label(name) => Argument::Label(name.spec_bytes()),
        }
    }
}

/// The operands of a sequence as plain values.
pub open spec fn arguments(operands: Seq<Operand>) -> Seq<Argument> {
    Seq::new(operands.len(), |i: int| operands[i]@)
}

impl<'source> View for Statement<'source> {
    type V = Sentence;

    open spec fn view(&self) -> Sentence {
        match *self {
            Statement::Label(name) => Sentence::Label(name.spec_bytes()),
            Statement::Instruction(code, operands) => Sentence::Instruction(
                code,
                arguments(operands@),
            ),
        }
    }
}

/// The statements of a sequence as plain values.
pub open spec fn sentences(statements: Seq<Statement>) -> Seq<Sentence> {
    Seq::new(statements.len(), |i: int| statements[i]@)
}

impl Argument {
    /// The kind of field that this operand fills.
    pub open spec fn kind(self) -> FieldKind {
        match self {
            Argument::Register(_) => FieldKind::Register,
            Argument::Immediate(_) | Argument::Label(_) => FieldKind::Immediate,
        }
    }
}

impl OperationCode {
    /// The name of this opcode in assembly text.
    pub open spec fn mnemonic(self) -> Seq<char> {
        match self {
            OperationCode::Halt => "halt"@,
            OperationCode::AddImm => "addi"@,
            OperationCode::Add => "add"@,
            OperationCode::Sub => "sub"@,
            OperationCode::And => "and"@,
            OperationCode::Or => "or"@,
            OperationCode::Xor => "xor"@,
            OperationCode::Jump => "jump"@,
            OperationCode::BranchEQ => "beq"@,
            OperationCode::BranchNE => "bne"@,
            OperationCode::BranchLT => "blt"@,
            OperationCode::BranchGE => "bge"@,
            OperationCode::Load => "load"@,
            OperationCode::Store => "store"@,
        }
    }

    /// The name of this opcode in assembly text.
    pub fn name(self) -> (name: &'static str)
        ensures
            name@ == self.mnemonic(),
    {
        match self {
            OperationCode::Halt => "halt",
            OperationCode::AddImm => "addi",
            OperationCode::Add => "add",
            OperationCode::Sub => "sub",
            OperationCode::And => "and",
            OperationCode::Or => "or",
            OperationCode::Xor => "xor",
            OperationCode::Jump => "jump",
            OperationCode::BranchEQ => "beq",
            OperationCode::BranchNE => "bne",
            OperationCode::BranchLT => "blt",
            OperationCode::BranchGE => "bge",
            OperationCode::Load => "load",
            OperationCode::Store => "store",
        }
    }
}

/// The opcode with the mnemonic `name` among the opcodes numbered `from`
/// and up.
pub open spec fn code_named_from(name: Seq<u8>, from: int) -> Option<OperationCode>
    decreases OperationCode::count() - from,
{
    if from < 0 || from >= OperationCode::count() {
        None
    } else {
        let code = OperationCode::of_byte(from as u8)->0;
        if encode_utf8(code.mnemonic()) == name {
            Some(code)
        } else {
            code_named_from(name, from + 1)
        }
    }
}

/// The opcode with the mnemonic `name`, if there is one.
pub open spec fn code_named(name: Seq<u8>) -> Option<OperationCode> {
    code_named_from(name, 0)
}

/// Every mnemonic is written in lower-case letters: the lexer reads it as
/// one identifier, and its bytes are its characters.
pub proof fn lemma_mnemonic_is_ascii(code: OperationCode)
    ensures
        is_ascii_chars(code.mnemonic()),
        2 <= code.mnemonic().len() <= 5,
        encode_utf8(code.mnemonic()).len() == code.mnemonic().len(),
        forall|i: int|
            0 <= i < code.mnemonic().len() ==> #[trigger] encode_utf8(code.mnemonic())[i]
                == code.mnemonic()[i] as u8 && is_lower(code.mnemonic()[i] as u8),
{
    reveal_strlit("halt");
    reveal_strlit("addi");
    reveal_strlit("add");
    reveal_strlit("sub");
    reveal_strlit("and");
    reveal_strlit("or");
    reveal_strlit("xor");
    reveal_strlit("jump");
    reveal_strlit("beq");
    reveal_strlit("bne");
    reveal_strlit("blt");
    reveal_strlit("bge");
    reveal_strlit("load");
    reveal_strlit("store");
    is_ascii_chars_encode_utf8(code.mnemonic());
}

/// No two opcodes have the same mnemonic.
pub proof fn lemma_mnemonics_differ(first: OperationCode, second: OperationCode)
    requires
        first != second,
    ensures
        encode_utf8(first.mnemonic()) != encode_utf8(second.mnemonic()),
{
    reveal_strlit("halt");
    reveal_strlit("addi");
    reveal_strlit("add");
    reveal_strlit("sub");
    reveal_strlit("and");
    reveal_strlit("or");
    reveal_strlit("xor");
    reveal_strlit("jump");
    reveal_strlit("beq");
    reveal_strlit("bne");
    reveal_strlit("blt");
    reveal_strlit("bge");
    reveal_strlit("load");
    reveal_strlit("store");
    lemma_mnemonic_is_ascii(first);
    lemma_mnemonic_is_ascii(second);
    let a = encode_utf8(first.mnemonic());
    let b = encode_utf8(second.mnemonic());
    assert(a.len() != b.len() || a[0] != b[0] || a[1] != b[1]);
}

/// Every mnemonic names its own opcode, and no other.
pub proof fn lemma_code_named(code: OperationCode)
    ensures
        code_named(encode_utf8(code.mnemonic())) == Some(code),
{
    let name = encode_utf8(code.mnemonic());
    assert forall|from: int| 0 <= from <= code.number() implies code_named_from(name, from)
        == Some(code) by {
        lemma_code_named_from(code, from);
    }
}

/// The search for a mnemonic from an opcode at or before its own finds its
/// own opcode.
proof fn lemma_code_named_from(code: OperationCode, from: int)
    requires
        0 <= from <= code.number(),
    ensures
        code_named_from(encode_utf8(code.mnemonic()), from) == Some(code),
    decreases code.number() - from,
{
    code.lemma_number();
    OperationCode::lemma_of_byte(from as u8);
    let other = OperationCode::of_byte(from as u8)->0;
    if from < code.number() {
        lemma_mnemonics_differ(other, code);
        lemma_code_named_from(code, from + 1);
    }
}

/// The register with the name `name`: `r` and the register's number in
/// decimal, with no leading zero.
pub open spec fn register_named(name: Seq<u8>) -> Option<Register> {
    if name.len() == 2 && name[0] == 'r' as u8 && is_digit(name[1]) {
        Register::of_byte((name[1] - '0' as u8) as u8)
    } else if name.len() == 3 && name[0] == 'r' as u8 && name[1] == '1' as u8 && '0' as u8
        <= name[2] <= '5' as u8 {
        Register::of_byte((10 + name[2] - '0' as u8) as u8)
    } else {
        None
    }
}

/// The operand of the given kind that the token at `at` writes.
pub open spec fn operand_at(tokens: Seq<Lexeme>, at: int, kind: FieldKind) -> Option<Argument> {
    if at < 0 || at >= tokens.len() {
        None
    } else {
        match (kind, tokens[at]) {
            (FieldKind::Register, Lexeme::Ident(name)) => match register_named(name) {
                Some(register) => Some(Argument::Register(register)),
                None => None,
            },
            (FieldKind::Immediate, Lexeme::Number(value)) => Some(Argument::Immediate(value)),
            (FieldKind::Immediate, Lexeme::Ident(name)) => Some(Argument::Label(name)),
            _ => None,
        }
    }
}

/// The operands of the given kinds that the tokens from `at` write, and the
/// place after them. Every operand but the first of the instruction has a
/// comma before it; `first` says whether the operand at `at` is that first
/// one.
pub open spec fn operands_at(
    tokens: Seq<Lexeme>,
    at: int,
    kinds: Seq<FieldKind>,
    first: bool,
) -> Option<(Seq<Argument>, int)>
    decreases kinds.len(),
{
    if kinds.len() == 0 {
        Some((seq![], at))
    } else if !first && !(0 <= at < tokens.len() && tokens[at] is Comma) {
        None
    } else {
        let place = if first {
            at
        } else {
            at + 1
        };
        match operand_at(tokens, place, kinds[0]) {
            None => None,
            Some(operand) => match operands_at(tokens, place + 1, kinds.drop_first(), false) {
                None => None,
                Some((rest, end)) => Some((seq![operand] + rest, end)),
            },
        }
    }
}

/// The statement that starts at `at`, and the place after it.
pub open spec fn statement_at(tokens: Seq<Lexeme>, at: int) -> Option<(Sentence, int)> {
    match tokens[at] {
        Lexeme::Ident(name) => if at + 1 < tokens.len() && tokens[at + 1] is Colon {
            Some((Sentence::Label(name), at + 2))
        } else {
            match code_named(name) {
                None => None,
                Some(code) => match operands_at(tokens, at + 1, code.layout(), true) {
                    None => None,
                    Some((operands, end)) => Some((Sentence::Instruction(code, operands), end)),
                },
            }
        },
        _ => None,
    }
}

/// Operands that were read have the kinds that were asked for, and end
/// after where they start and within the tokens.
pub proof fn lemma_operands_at(tokens: Seq<Lexeme>, at: int, kinds: Seq<FieldKind>, first: bool)
    requires
        0 <= at <= tokens.len(),
        operands_at(tokens, at, kinds, first) is Some,
    ensures
        at <= operands_at(tokens, at, kinds, first)->Some_0.1 <= tokens.len(),
        operands_at(tokens, at, kinds, first)->Some_0.0.len() == kinds.len(),
        forall|i: int|
            0 <= i < kinds.len() ==> (#[trigger] operands_at(
                tokens,
                at,
                kinds,
                first,
            )->Some_0.0[i]).kind() == kinds[i],
    decreases kinds.len(),
{
    if kinds.len() > 0 {
        let place = if first {
            at
        } else {
            at + 1
        };
        lemma_operands_at(tokens, place + 1, kinds.drop_first(), false);
        let rest = operands_at(tokens, place + 1, kinds.drop_first(), false)->Some_0.0;
        let all = operands_at(tokens, at, kinds, first)->Some_0.0;
        assert forall|i: int| 0 <= i < kinds.len() implies (#[trigger] all[i]).kind()
            == kinds[i] by {
            if i > 0 {
                assert(all[i] == rest[i - 1]);
            }
        }
    }
}

/// A statement ends after where it starts and within the tokens.
pub proof fn lemma_statement_at(tokens: Seq<Lexeme>, at: int)
    requires
        0 <= at < tokens.len(),
        statement_at(tokens, at) is Some,
    ensures
        at < statement_at(tokens, at)->Some_0.1 <= tokens.len(),
{
    match tokens[at] {
        Lexeme::Ident(name) => {
            if !(at + 1 < tokens.len() && tokens[at + 1] is Colon) {
                let code = code_named(name)->0;
                lemma_operands_at(tokens, at + 1, code.layout(), true);
            }
        },
        _ => {},
    }
}

/// The statements that the tokens from `at` to their end write; `None`
/// where some tokens on the way are no statement.
pub open spec fn statements_from(tokens: Seq<Lexeme>, at: int) -> Option<Seq<Sentence>>
    decreases tokens.len() - at,
{
    if at < 0 || at >= tokens.len() {
        Some(seq![])
    } else {
        match statement_at(tokens, at) {
            None => None,
            Some((statement, end)) => {
                proof {
                    lemma_statement_at(tokens, at);
                }
                match statements_from(tokens, end) {
                    None => None,
                    Some(rest) => Some(seq![statement] + rest),
                }
            },
        }
    }
}

/// The statements that the tokens write; `None` where some of them are no
/// statement.
pub open spec fn statements(tokens: Seq<Lexeme>) -> Option<Seq<Sentence>> {
    statements_from(tokens, 0)
}

/// Whether two runs of bytes are the same.
pub fn same_bytes(left: &[u8], right: &[u8]) -> (same: bool)
    ensures
        same == (left@ == right@),
{
    if left.len() != right.len() {
        return false;
    }
    let mut i: usize = 0;
    while i < left.len()
        invariant
            i <= left@.len(),
            left@.len() == right@.len(),
            forall|j: int| 0 <= j < i ==> left@[j] == right@[j],
        decreases left@.len() - i,
    {
        if left[i] != right[i] {
            return false;
        }
        i += 1;
    }
    assert(left@ =~= right@);
    true
}

/// Finds the opcode with the mnemonic `name`.
pub fn code_of_name(name: &[u8]) -> (code: Option<OperationCode>)
    ensures
        code == code_named(name@),
{
    let mut number: u8 = 0;
    while number < 14
        invariant
            number <= 14,
            code_named(name@) == code_named_from(name@, number as int),
        decreases 14 - number,
    {
        match OperationCode::from_byte(number) {
            Some(code) => {
                if same_bytes(code.name().as_bytes(), name) {
                    return Some(code);
                }
            },
            None => {},
        }
        number += 1;
    }
    None
}

/// Finds the register with the name `name`.
pub fn register_of_name(name: &[u8]) -> (register: Option<Register>)
    ensures
        register == register_named(name@),
{
    if name.len() == 2 && name[0] == 'r' as u8 && '0' as u8 <= name[1] && name[1] <= '9' as u8 {
        Register::from_byte(name[1] - '0' as u8)
    } else if name.len() == 3 && name[0] == 'r' as u8 && name[1] == '1' as u8 && '0' as u8
        <= name[2] && name[2] <= '5' as u8 {
        Register::from_byte(10 + (name[2] - '0' as u8))
    } else {
        None
    }
}

/// Reads the operand of the given kind that `token` writes.
fn operand_of<'source>(token: Token<'source>, kind: FieldKind) -> (operand: Option<
    Operand<'source>,
>)
    ensures
        match operand_at(seq![token@], 0, kind) {
            Some(argument) => operand is Some && operand->0@ == argument,
            None => operand is None,
        },
{
    match (kind, token) {
        (FieldKind::Register, Token::Ident(name)) => match register_of_name(name.as_bytes()) {
            Some(register) => Some(Operand::Register(register)),
            None => None,
        },
        (FieldKind::Immediate, Token::Number(value)) => Some(Operand::Immediate(value)),
        (FieldKind::Immediate, Token::Ident(name)) => Some(Operand::Label(name)),
        _ => None,
    }
}

/// A result of `operands_at` with the operands `before` put before it.
spec fn operands_preceded_by(
    before: Seq<Argument>,
    rest: Option<(Seq<Argument>, int)>,
) -> Option<(Seq<Argument>, int)> {
    match rest {
        Some((more, end)) => Some((before + more, end)),
        None => None,
    }
}

/// A result of `statements_from` with the statements `before` put before
/// it.
spec fn statements_preceded_by(
    before: Seq<Sentence>,
    rest: Option<Seq<Sentence>>,
) -> Option<Seq<Sentence>> {
    match rest {
        Some(more) => Some(before + more),
        None => None,
    }
}

/// A cursor over the tokens that hands out one statement at a time.
#[derive(Clone, Copy, Debug)]
pub struct Parser<'source> {
    tokens: &'source [Token<'source>],
    current: usize,
}

impl<'source> Parser<'source> {
    /// The tokens that this parser reads.
    pub closed spec fn tokens(&self) -> Seq<Lexeme> {
        lexemes(self.tokens@)
    }

    /// The place among the tokens where this parser stands.
    pub closed spec fn place(&self) -> int {
        self.current as int
    }

    /// A parser at the first of `tokens`.
    pub fn new(tokens: &'source [Token<'source>]) -> (parser: Parser<'source>)
        ensures
            parser.tokens() == lexemes(tokens@),
            parser.place() == 0,
    {
        Parser { tokens, current: 0 }
    }

    /// Reads the operands of an instruction with opcode `code` whose
    /// mnemonic stands just before `from`.
    fn operands(&self, code: OperationCode, from: usize) -> (result: Option<
        (Vec<Operand<'source>>, usize),
    >)
        requires
            from <= self.tokens().len(),
        ensures
            match operands_at(self.tokens(), from as int, code.layout(), true) {
                Some((operands, end)) => result is Some && arguments(result->Some_0.0@)
                    == operands && result->Some_0.1 == end,
                None => result is None,
            },
    {
        let tokens = self.tokens;
        let kinds = code.fields();
        let ghost all = lexemes(tokens@);
        let mut operands: Vec<Operand<'source>> = Vec::new();
        let mut at = from;
        let mut i: usize = 0;
        proof {
            assert(kinds@.skip(0) =~= kinds@);
            match operands_at(all, from as int, kinds@, true) {
                Some((more, end)) => assert(arguments(operands@) + more =~= more),
                None => {},
            }
        }
        while i < kinds.len()
            invariant
                i <= kinds.len(),
                at <= tokens@.len(),
                all == lexemes(tokens@),
                all == self.tokens(),
                kinds@ == code.layout(),
                operands_at(all, from as int, kinds@, true) == operands_preceded_by(
                    arguments(operands@),
                    operands_at(all, at as int, kinds@.skip(i as int), i == 0),
                ),
            decreases kinds.len() - i,
        {
            let ghost before = arguments(operands@);
            proof {
                assert(kinds@.skip(i as int).drop_first() =~= kinds@.skip(i + 1));
            }
            if i > 0 {
                if at < tokens.len() && matches!(tokens[at], Token::Comma) {
                    at += 1;
                } else {
                    return None;
                }
            }
            if at >= tokens.len() {
                return None;
            }
            let token = tokens[at];
            let operand = match operand_of(token, kinds[i]) {
                Some(operand) => operand,
                None => return None,
            };
            operands.push(operand);
            at += 1;
            i += 1;
            proof {
                match operands_at(all, at as int, kinds@.skip(i as int), false) {
                    Some((more, end)) => assert(before + (seq![operand@] + more) =~= before.push(
                        operand@,
                    ) + more),
                    None => {},
                }
            }
        }
        Some((operands, at))
    }

    /// Reads the next statement. Returns `None` at the end of the tokens.
    /// An error ends the stream: the parser then stands at the end of the
    /// tokens.
    pub fn next(&mut self) -> (statement: Option<Result<Statement<'source>, ParsingError>>)
        ensures
            final(self).tokens() == old(self).tokens(),
            ({
                let tokens = old(self).tokens();
                let at = old(self).place();
                if at >= tokens.len() {
                    statement is None && final(self).place() == at
                } else {
                    match statement_at(tokens, at) {
                        Some((sentence, end)) => statement is Some && statement->0 is Ok
                            && statement->0->Ok_0@ == sentence && final(self).place() == end,
                        None => statement == Some(
                            Err::<Statement<'source>, ParsingError>(ParsingError::Undefined),
                        ) && final(self).place() == tokens.len(),
                    }
                }
            }),
    {
        let tokens = self.tokens;
        let at = self.current;
        if at >= tokens.len() {
            return None;
        }
        let found = match tokens[at] {
            Token::Ident(name) => {
                if tokens.len() - at > 1 && matches!(tokens[at + 1], Token::Colon) {
                    Some((Statement::Label(name), at + 2))
                } else {
                    match code_of_name(name.as_bytes()) {
                        Some(code) => match self.operands(code, at + 1) {
                            Some((operands, end)) => Some(
                                (Statement::Instruction(code, operands), end),
                            ),
                            None => None,
                        },
                        None => None,
                    }
                }
            },
            _ => None,
        };
        match found {
            Some((statement, end)) => {
                proof {
                    lemma_statement_at(lexemes(tokens@), at as int);
                }
                self.current = end;
                Some(Ok(statement))
            },
            None => {
                self.current = tokens.len();
                Some(Err(ParsingError::Undefined))
            },
        }
    }
}

/// Reads all the statements that `tokens` write. Fails on the first tokens
/// that are no statement, and then gives no statements at all.
pub fn parse<'source>(tokens: &'source [Token<'source>]) -> (result: Result<
    Vec<Statement<'source>>,
    ParsingError,
>)
    ensures
        match statements(lexemes(tokens@)) {
            Some(all) => result is Ok && sentences(result->Ok_0@) == all,
            None => result == Err::<Vec<Statement<'source>>, ParsingError>(
                ParsingError::Undefined,
            ),
        },
{
    let mut parser = Parser::new(tokens);
    let mut found: Vec<Statement<'source>> = Vec::new();
    let ghost all = lexemes(tokens@);
    proof {
        match statements(all) {
            Some(every) => assert(sentences(found@) + every =~= every),
            None => {},
        }
    }
    loop
        invariant
            0 <= parser.place() <= all.len(),
            all == lexemes(tokens@),
            parser.tokens() == all,
            statements(all) == statements_preceded_by(
                sentences(found@),
                statements_from(all, parser.place()),
            ),
        decreases all.len() - parser.place(),
    {
        let ghost before = sentences(found@);
        let ghost place = parser.place();
        proof {
            if place < all.len() && statement_at(all, place) is Some {
                lemma_statement_at(all, place);
            }
        }
        match parser.next() {
            None => {
                return Ok(found);
            },
            Some(Err(error)) => {
                return Err(error);
            },
            Some(Ok(statement)) => {
                let ghost sentence = statement@;
                found.push(statement);
                proof {
                    match statements_from(all, parser.place()) {
                        Some(more) => assert(before + (seq![sentence] + more) =~= before.push(
                            sentence,
                        ) + more),
                        None => {},
                    }
                }
            },
        }
    }
}

} // verus!
