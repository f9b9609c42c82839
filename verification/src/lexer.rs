//! The lexer: assembly text to tokens. The rules speak of the bytes of the
//! text, which is UTF-8.
//!
//! Whitespace (space, tab, carriage return, line feed, form feed) separates
//! tokens and is skipped. A token is one of `.`, `,`, `:`; an identifier
//! `[a-z_][a-z0-9_]*`; a decimal number `[0-9]+` that fits in 32 bits; or a
//! string in double quotes, in which a backslash is followed by one of
//! `"`, `\`, `b`, `n`, `f`, `r`, `t`, or by `u` and four hexadecimal digits.
//! Every token is the longest that starts where it starts. Anything else is
//! an error, and an error anywhere in the text leaves no tokens at all.
//!
//! [`tokens`] says what the tokens of a text are; [`lex`] computes them, and
//! [`Lexer`] hands them out one at a time.

use vstd::prelude::*;
use vstd::slice::slice_subrange;
use vstd::string::StringSliceAdditionalSpecFns;
use vstd::utf8::{
    encode_utf8_valid_utf8, is_char_boundary, is_char_boundary_iff_not_is_continuation_byte,
    is_char_boundary_start_end_of_seq, length_of_first_scalar, pop_first_scalar, valid_utf8,
    valid_utf8_split,
};

verus! {

/// The byte of `.`.
pub const DOT: u8 = '.' as u8;

/// The byte of `,`.
pub const COMMA: u8 = ',' as u8;

/// The byte of `:`.
pub const COLON: u8 = ':' as u8;

/// The byte of `"`, which opens and closes a string.
pub const QUOTE: u8 = '"' as u8;

/// The byte of `\`, which starts an escape in a string.
pub const BACKSLASH: u8 = '\\' as u8;

/// The byte of the form feed.
pub const FORM_FEED: u8 = 0x0C;

/// The lexer found text that is no token.
#[derive(Clone, Copy, Debug, Default, PartialEq, Eq, Structural)]
pub enum LexingError {
    #[default]
    Undefined,
}

/// A token. Identifiers and strings hold the piece of the source that they
/// were read from; a string holds it as written, with its quotes and its
/// escapes.
#[derive(Clone, Copy, Debug, PartialEq, Eq)]
pub enum Token<'source> {
    Dot,
    Comma,
    Colon,
    Ident(&'source str),
    Number(u32),
    String(&'source str),
}

/// A token as plain values: an identifier and a string as the bytes of
/// their text.
pub ghost enum Lexeme {
    Dot,
    Comma,
    Colon,
    Ident(Seq<u8>),
    Number(u32),
    String(Seq<u8>),
}

impl<'source> View for Token<'source> {
    type V = Lexeme;

    open spec fn view(&self) -> Lexeme {
        match *self {
            Token::Dot => Lexeme::Dot,
            Token::Comma => Lexeme::Comma,
            Token::Colon => Lexeme::Colon,
            Token::Ident(name) => Lexeme::Ident(name.spec_bytes()),
            Token::Number(value) => Lexeme::Number(value),
            Token::String(text) => Lexeme::String(text.spec_bytes()),
        }
    }
}

/// The tokens of a sequence as plain values.
pub open spec fn lexemes(tokens: Seq<Token>) -> Seq<Lexeme> {
    Seq::new(tokens.len(), |i: int| tokens[i]@)
}

/// A class of bytes of which a token, or the space between tokens, holds a
/// run.
#[derive(Clone, Copy, Debug, PartialEq, Eq, Structural)]
pub enum Class {
    /// Space, tab, line feed, form feed, carriage return.
    Space,
    /// `a` to `z`, `0` to `9`, and `_`.
    Word,
    /// `0` to `9`.
    Digit,
}

/// Whether `byte` is a space, a tab, a line feed, a form feed or a
/// carriage return.
pub open spec fn is_space(byte: u8) -> bool {
    byte == ' ' as u8 || byte == '\t' as u8 || byte == '\n' as u8 || byte == FORM_FEED || byte
        == '\r' as u8
}

/// Whether `byte` is a letter from `a` to `z`.
pub open spec fn is_lower(byte: u8) -> bool {
    'a' as u8 <= byte <= 'z' as u8
}

/// Whether `byte` is a digit from `0` to `9`.
pub open spec fn is_digit(byte: u8) -> bool {
    '0' as u8 <= byte <= '9' as u8
}

/// Whether an identifier can start with `byte`: `a` to `z`, or `_`.
pub open spec fn is_word_start(byte: u8) -> bool {
    is_lower(byte) || byte == '_' as u8
}

/// Whether `byte` is a hexadecimal digit, in either case.
pub open spec fn is_hex_digit(byte: u8) -> bool {
    is_digit(byte) || 'a' as u8 <= byte <= 'f' as u8 || 'A' as u8 <= byte <= 'F' as u8
}

/// Whether `byte` can follow a backslash in a string as an escape of one
/// character: one of `"`, `\`, `b`, `n`, `f`, `r`, `t`.
pub open spec fn is_escape(byte: u8) -> bool {
    byte == QUOTE || byte == BACKSLASH || byte == 'b' as u8 || byte == 'n' as u8 || byte
        == 'f' as u8 || byte == 'r' as u8 || byte == 't' as u8
}

impl Class {
    /// Whether `byte` belongs to this class.
    pub open spec fn holds(self, byte: u8) -> bool {
        match self {
            Class::Space => is_space(byte),
            Class::Word => is_word_start(byte) || is_digit(byte),
            Class::Digit => is_digit(byte),
        }
    }

    /// Whether `byte` belongs to this class.
    pub fn accepts(self, byte: u8) -> (accepted: bool)
        ensures
            accepted == self.holds(byte),
    {
        match self {
            Class::Space => byte == ' ' as u8 || byte == '\t' as u8 || byte == '\n' as u8 || byte
                == FORM_FEED || byte == '\r' as u8,
            Class::Word => ('a' as u8 <= byte && byte <= 'z' as u8) || byte == '_' as u8 || ('0'
                as u8 <= byte && byte <= '9' as u8),
            Class::Digit => '0' as u8 <= byte && byte <= '9' as u8,
        }
    }
}

/// The end of the longest run of bytes of `class` that starts at `from`.
pub open spec fn run_end(source: Seq<u8>, from: int, class: Class) -> int
    decreases source.len() - from,
{
    if 0 <= from < source.len() && class.holds(source[from]) {
        run_end(source, from + 1, class)
    } else {
        from
    }
}

/// The end of the run is the first place at or after `from` where the
/// source ends or holds a byte of another class.
pub proof fn lemma_run_end(source: Seq<u8>, from: int, class: Class)
    requires
        0 <= from <= source.len(),
    ensures
        from <= run_end(source, from, class) <= source.len(),
        forall|i: int| from <= i < run_end(source, from, class) ==> class.holds(source[i]),
        run_end(source, from, class) < source.len() ==> !class.holds(
            source[run_end(source, from, class)],
        ),
    decreases source.len() - from,
{
    if from < source.len() && class.holds(source[from]) {
        lemma_run_end(source, from + 1, class);
    }
}

/// A place that the run reaches and that ends it is the end of the run.
pub proof fn lemma_run_end_is(source: Seq<u8>, from: int, class: Class, end: int)
    requires
        0 <= from <= end <= source.len(),
        forall|i: int| from <= i < end ==> class.holds(source[i]),
        end < source.len() ==> !class.holds(source[end]),
    ensures
        run_end(source, from, class) == end,
    decreases end - from,
{
    if from < end {
        lemma_run_end_is(source, from + 1, class, end);
    }
}

/// The number that the decimal digits `digits` write.
pub open spec fn decimal(digits: Seq<u8>) -> nat
    decreases digits.len(),
{
    if digits.len() == 0 {
        0
    } else {
        (decimal(digits.drop_last()) * 10 + (digits.last() - '0' as u8)) as nat
    }
}

/// Where the string whose opening quote stands just before `from` ends: the
/// place after its closing quote. Inside the string a backslash is followed
/// by one escape character or by `u` and four hexadecimal digits; every
/// other byte but a quote stands for itself. A string that the source ends
/// in, or that holds another escape, has no end.
pub open spec fn string_end(source: Seq<u8>, from: int) -> Option<int>
    decreases source.len() - from,
{
    if from < 0 || from >= source.len() {
        None
    } else if source[from] == QUOTE {
        Some(from + 1)
    } else if source[from] != BACKSLASH {
        string_end(source, from + 1)
    } else if from + 1 < source.len() && is_escape(source[from + 1]) {
        string_end(source, from + 2)
    } else if from + 5 < source.len() && source[from + 1] == 'u' as u8 && is_hex_digit(
        source[from + 2],
    ) && is_hex_digit(source[from + 3]) && is_hex_digit(source[from + 4]) && is_hex_digit(
        source[from + 5],
    ) {
        string_end(source, from + 6)
    } else {
        None
    }
}

/// A string ends after where it starts and within the source.
pub proof fn lemma_string_end(source: Seq<u8>, from: int)
    requires
        0 <= from,
        string_end(source, from) is Some,
    ensures
        from < string_end(source, from)->0 <= source.len(),
        source[string_end(source, from)->0 - 1] == QUOTE,
    decreases source.len() - from,
{
    if source[from] == QUOTE {
    } else if source[from] != BACKSLASH {
        lemma_string_end(source, from + 1);
    } else if from + 1 < source.len() && is_escape(source[from + 1]) {
        lemma_string_end(source, from + 2);
    } else {
        lemma_string_end(source, from + 6);
    }
}

/// The token that starts at `from`, where a byte stands that is no space,
/// and the place where it ends. `None` where no token starts or the number
/// does not fit in 32 bits.
pub open spec fn token_at(source: Seq<u8>, from: int) -> Option<(Lexeme, int)> {
    let first = source[from];
    if first == DOT {
        Some((Lexeme::Dot, from + 1))
    } else if first == COMMA {
        Some((Lexeme::Comma, from + 1))
    } else if first == COLON {
        Some((Lexeme::Colon, from + 1))
    } else if is_word_start(first) {
        let end = run_end(source, from + 1, Class::Word);
        Some((Lexeme::Ident(source.subrange(from, end)), end))
    } else if is_digit(first) {
        let end = run_end(source, from + 1, Class::Digit);
        let value = decimal(source.subrange(from, end));
        if value <= u32::MAX {
            Some((Lexeme::Number(value as u32), end))
        } else {
            None
        }
    } else if first == QUOTE {
        match string_end(source, from + 1) {
            Some(end) => Some((Lexeme::String(source.subrange(from, end)), end)),
            None => None,
        }
    } else {
        None
    }
}

/// A token ends after where it starts and within the source.
pub proof fn lemma_token_at(source: Seq<u8>, from: int)
    requires
        0 <= from < source.len(),
        token_at(source, from) is Some,
    ensures
        from < token_at(source, from)->Some_0.1 <= source.len(),
{
    lemma_run_end(source, from + 1, Class::Word);
    lemma_run_end(source, from + 1, Class::Digit);
    if source[from] == QUOTE {
        lemma_string_end(source, from + 1);
    }
}

/// The tokens of the source from `from` to its end; `None` where some text
/// on the way is no token.
pub open spec fn tokens_from(source: Seq<u8>, from: int) -> Option<Seq<Lexeme>>
    decreases source.len() - from,
{
    if from < 0 || from > source.len() {
        None
    } else {
        let start = run_end(source, from, Class::Space);
        if start >= source.len() {
            Some(seq![])
        } else {
            match token_at(source, start) {
                None => None,
                Some((token, end)) => {
                    proof {
                        lemma_run_end(source, from, Class::Space);
                        lemma_token_at(source, start);
                    }
                    match tokens_from(source, end) {
                        None => None,
                        Some(rest) => Some(seq![token] + rest),
                    }
                },
            }
        }
    }
}

/// The tokens of the source; `None` where some text in it is no token.
pub open spec fn tokens(source: Seq<u8>) -> Option<Seq<Lexeme>> {
    tokens_from(source, 0)
}

/// The value of a prefix of a run of digits is at most the value of the
/// whole run.
pub proof fn lemma_decimal_grows(digits: Seq<u8>, count: int)
    requires
        0 <= count <= digits.len(),
        all_digits(digits),
    ensures
        decimal(digits.take(count)) <= decimal(digits),
    decreases digits.len() - count,
{
    if count == digits.len() {
        assert(digits.take(count) =~= digits);
    } else {
        assert(digits.take(count + 1).drop_last() =~= digits.take(count));
        lemma_decimal_grows(digits, count + 1);
    }
}

/// Finds the end of the longest run of bytes of `class` that starts at
/// `from`.
pub fn scan(source: &[u8], from: usize, class: Class) -> (end: usize)
    ensures
        end == run_end(source@, from as int, class),
        from <= end,
        from <= source@.len() ==> end <= source@.len(),
{
    if from > source.len() {
        return from;
    }
    let mut end = from;
    while end < source.len() && class.accepts(source[end])
        invariant
            from <= end <= source@.len(),
            forall|i: int| from <= i < end ==> class.holds(source@[i]),
        decreases source@.len() - end,
    {
        end += 1;
    }
    proof {
        lemma_run_end_is(source@, from as int, class, end as int);
    }
    end
}

/// Whether `byte` is a hexadecimal digit.
fn hex_digit(byte: u8) -> (hex: bool)
    ensures
        hex == is_hex_digit(byte),
{
    ('0' as u8 <= byte && byte <= '9' as u8) || ('a' as u8 <= byte && byte <= 'f' as u8) || ('A'
        as u8 <= byte && byte <= 'F' as u8)
}

/// Whether `byte` is an escape of one character.
fn escape(byte: u8) -> (escape: bool)
    ensures
        escape == is_escape(byte),
{
    byte == QUOTE || byte == BACKSLASH || byte == 'b' as u8 || byte == 'n' as u8 || byte
        == 'f' as u8 || byte == 'r' as u8 || byte == 't' as u8
}

/// Finds the end of the string whose opening quote stands just before
/// `from`.
pub fn scan_string(source: &[u8], from: usize) -> (end: Option<usize>)
    ensures
        match string_end(source@, from as int) {
            Some(place) => end == Some(place as usize) && from < place <= source@.len(),
            None => end is None,
        },
{
    let length = source.len();
    if from > length {
        return None;
    }
    let mut at = from;
    while at < length
        invariant
            length == source@.len(),
            from <= at <= length,
            string_end(source@, from as int) == string_end(source@, at as int),
        decreases length - at,
    {
        let byte = source[at];
        if byte == QUOTE {
            proof {
                lemma_string_end(source@, from as int);
            }
            return Some(at + 1);
        } else if byte != BACKSLASH {
            at += 1;
        } else if length - at > 1 && escape(source[at + 1]) {
            at += 2;
        } else if length - at > 5 && source[at + 1] == 'u' as u8 && hex_digit(source[at + 2])
            && hex_digit(source[at + 3]) && hex_digit(source[at + 4]) && hex_digit(
            source[at + 5],
        ) {
            at += 6;
        } else {
            return None;
        }
    }
    None
}

/// Whether every byte of `digits` is a decimal digit.
pub open spec fn all_digits(digits: Seq<u8>) -> bool {
    forall|i: int| 0 <= i < digits.len() ==> is_digit(#[trigger] digits[i])
}

/// Reads the number that a run of decimal digits writes. Fails when some
/// byte is no digit, or when the number does not fit in 32 bits.
pub fn parse_decimal(digits: &[u8]) -> (value: Option<u32>)
    ensures
        match value {
            Some(number) => all_digits(digits@) && number == decimal(digits@),
            None => !all_digits(digits@) || decimal(digits@) > u32::MAX,
        },
{
    let mut value: u64 = 0;
    let mut count: usize = 0;
    while count < digits.len()
        invariant
            count <= digits@.len(),
            forall|i: int| 0 <= i < count ==> is_digit(#[trigger] digits@[i]),
            value == decimal(digits@.take(count as int)),
            value <= u32::MAX,
        decreases digits@.len() - count,
    {
        let digit = digits[count];
        if !Class::Digit.accepts(digit) {
            return None;
        }
        proof {
            assert(digits@.take(count + 1).drop_last() =~= digits@.take(count as int));
        }
        value = value * 10 + (digit - '0' as u8) as u64;
        count += 1;
        if value > 0xFFFF_FFFF {
            proof {
                if all_digits(digits@) {
                    lemma_decimal_grows(digits@, count as int);
                }
            }
            return None;
        }
    }
    assert(digits@.take(count as int) =~= digits@);
    Some(value as u32)
}

/// In valid UTF-8 an ASCII byte is a character of its own: a character
/// starts at it, and another character, or the end, follows it.
pub proof fn lemma_ascii_is_bounded(bytes: Seq<u8>, index: int)
    requires
        valid_utf8(bytes),
        0 <= index < bytes.len(),
        bytes[index] < 0x80,
    ensures
        is_char_boundary(bytes, index),
        is_char_boundary(bytes, index + 1),
    decreases bytes.len(),
{
    reveal_with_fuel(is_char_boundary, 2);
    if index >= length_of_first_scalar(bytes) {
        lemma_ascii_is_bounded(pop_first_scalar(bytes), index - length_of_first_scalar(bytes));
    }
}

/// A token starts and ends where characters of the text start and end.
pub proof fn lemma_token_is_bounded(source: Seq<u8>, from: int)
    requires
        valid_utf8(source),
        0 <= from < source.len(),
        token_at(source, from) is Some,
    ensures
        is_char_boundary(source, from),
        is_char_boundary(source, token_at(source, from)->Some_0.1),
{
    let end = token_at(source, from)->Some_0.1;
    lemma_token_at(source, from);
    lemma_run_end(source, from + 1, Class::Word);
    lemma_run_end(source, from + 1, Class::Digit);
    if source[from] == QUOTE {
        lemma_string_end(source, from + 1);
    }
    lemma_ascii_is_bounded(source, from);
    lemma_ascii_is_bounded(source, end - 1);
}

/// The piece of `source` between two places where characters start or the
/// text ends.
fn slice<'source>(source: &'source str, from: usize, to: usize) -> (text: &'source str)
    requires
        from <= to <= source.spec_bytes().len(),
        is_char_boundary(source.spec_bytes(), from as int),
        is_char_boundary(source.spec_bytes(), to as int),
    ensures
        text.spec_bytes() == source.spec_bytes().subrange(from as int, to as int),
{
    let ghost bytes = source.spec_bytes();
    proof {
        encode_utf8_valid_utf8(source@);
        valid_utf8_split(bytes, to as int);
    }
    let (head, _) = source.split_at(to);
    proof {
        if from == to {
            is_char_boundary_start_end_of_seq(head.spec_bytes());
        } else if from > 0 {
            is_char_boundary_iff_not_is_continuation_byte(bytes, from as int);
            is_char_boundary_iff_not_is_continuation_byte(head.spec_bytes(), from as int);
        }
    }
    let (_, text) = head.split_at(from);
    text
}

/// A cursor over the source that hands out one token at a time.
#[derive(Clone, Copy, Debug)]
pub struct Lexer<'source> {
    source: &'source str,
    position: usize,
}

impl<'source> Lexer<'source> {
    /// The bytes of the source that this lexer reads.
    pub closed spec fn text(&self) -> Seq<u8> {
        self.source.spec_bytes()
    }

    /// The place in the source, in bytes, where this lexer stands.
    pub closed spec fn place(&self) -> int {
        self.position as int
    }

    /// A lexer at the start of `source`.
    pub fn new(source: &'source str) -> (lexer: Lexer<'source>)
        ensures
            lexer.text() == source.spec_bytes(),
            lexer.place() == 0,
    {
        Lexer { source, position: 0 }
    }

    /// Skips whitespace and reads the next token. Returns `None` at the end
    /// of the source. An error ends the stream: the lexer then stands at
    /// the end of the source.
    pub fn next(&mut self) -> (token: Option<Result<Token<'source>, LexingError>>)
        ensures
            final(self).text() == old(self).text(),
            ({
                let source = old(self).text();
                let start = run_end(source, old(self).place(), Class::Space);
                if start >= source.len() {
                    token is None && final(self).place() == source.len()
                } else {
                    match token_at(source, start) {
                        Some((lexeme, end)) => token is Some && token->0 is Ok && token->0->Ok_0@
                            == lexeme && final(self).place() == end,
                        None => token == Some(
                            Err::<Token<'source>, LexingError>(LexingError::Undefined),
                        ) && final(self).place() == source.len(),
                    }
                }
            }),
    {
        let text = self.source;
        let source = text.as_bytes();
        let start = scan(source, self.position, Class::Space);
        if start >= source.len() {
            self.position = source.len();
            return None;
        }
        let first = source[start];
        let end = if first == DOT || first == COMMA || first == COLON {
            Some(start + 1)
        } else if ('a' as u8 <= first && first <= 'z' as u8) || first == '_' as u8 {
            Some(scan(source, start + 1, Class::Word))
        } else if '0' as u8 <= first && first <= '9' as u8 {
            Some(scan(source, start + 1, Class::Digit))
        } else if first == QUOTE {
            scan_string(source, start + 1)
        } else {
            None
        };
        let token = match end {
            None => None,
            Some(end) => {
                if first == DOT {
                    Some(Token::Dot)
                } else if first == COMMA {
                    Some(Token::Comma)
                } else if first == COLON {
                    Some(Token::Colon)
                } else if '0' as u8 <= first && first <= '9' as u8 {
                    proof {
                        lemma_run_end(source@, start + 1, Class::Digit);
                    }
                    match parse_decimal(slice_subrange(source, start, end)) {
                        Some(value) => Some(Token::Number(value)),
                        None => None,
                    }
                } else {
                    proof {
                        encode_utf8_valid_utf8(text@);
                        lemma_token_is_bounded(source@, start as int);
                    }
                    let piece = slice(text, start, end);
                    if first == QUOTE {
                        Some(Token::String(piece))
                    } else {
                        Some(Token::Ident(piece))
                    }
                }
            },
        };
        match token {
            Some(token) => {
                proof {
                    lemma_token_at(source@, start as int);
                }
                self.position = end.unwrap();
                Some(Ok(token))
            },
            None => {
                self.position = source.len();
                Some(Err(LexingError::Undefined))
            },
        }
    }
}

/// A result of `tokens_from` with the tokens `before` put before it.
spec fn preceded_by(before: Seq<Lexeme>, rest: Option<Seq<Lexeme>>) -> Option<
    Seq<Lexeme>,
> {
    match rest {
        Some(more) => Some(before + more),
        None => None,
    }
}

/// Reads all the tokens of `source`. Fails on the first text that is no
/// token, and then gives no tokens at all.
pub fn lex<'source>(source: &'source str) -> (result: Result<Vec<Token<'source>>, LexingError>)
    ensures
        match tokens(source.spec_bytes()) {
            Some(all) => result is Ok && lexemes(result->Ok_0@) == all,
            None => result == Err::<Vec<Token<'source>>, LexingError>(LexingError::Undefined),
        },
{
    let mut lexer = Lexer::new(source);
    let mut found: Vec<Token<'source>> = Vec::new();
    let ghost text = source.spec_bytes();
    proof {
        match tokens(text) {
            Some(all) => assert(lexemes(found@) + all =~= all),
            None => {},
        }
    }
    loop
        invariant
            text == source.spec_bytes(),
            0 <= lexer.place() <= text.len(),
            lexer.text() == text,
            tokens(text) == preceded_by(lexemes(found@), tokens_from(text, lexer.place())),
        decreases text.len() - lexer.place(),
    {
        let ghost before = lexemes(found@);
        let ghost place = lexer.place();
        proof {
            lemma_run_end(text, place, Class::Space);
            let start = run_end(text, place, Class::Space);
            if start < text.len() && token_at(text, start) is Some {
                lemma_token_at(text, start);
            }
        }
        match lexer.next() {
            None => {
                assert(before + Seq::<Lexeme>::empty() =~= before);
                return Ok(found);
            },
            Some(Err(error)) => {
                return Err(error);
            },
            Some(Ok(token)) => {
                found.push(token);
                proof {
                    assert(lexemes(found@) =~= before.push(token@));
                    match tokens_from(text, lexer.place()) {
                        Some(more) => assert(before + (seq![token@] + more) =~= before.push(
                            token@,
                        ) + more),
                        None => {},
                    }
                }
            },
        }
    }
}

} // verus!
