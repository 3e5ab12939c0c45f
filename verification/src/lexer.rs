//! The reader's lexer: splits source text into tokens, recording the byte
//! span of each so later errors can point back into the source.
use vstd::prelude::*;
use crate::error::{LexError, Span};
use crate::text::{
    byte_len, byte_offset, char_len_utf8, char_utf8_len, digit_value, is_unicode_whitespace,
    is_whitespace, lemma_byte_offset_monotonic, str_chars, string_from_chars, to_digit,
};

verus! {

broadcast use vstd::std_specs::vec::group_vec_axioms;

#[derive(Debug, Clone, PartialEq, Eq)]
pub enum Token {
    LParen,
    RParen,
    Int(i64),
    Bool(bool),
    String(String),
    Symbol(String),
}

#[derive(Debug, Clone, PartialEq, Eq)]
pub struct SpannedToken {
    pub token: Token,
    pub span: Span,
}

/// The mathematical model of a token.
pub enum TokenV {
    LParen,
    RParen,
    Int(i64),
    Bool(bool),
    Str(Seq<char>),
    Symbol(Seq<char>),
}

impl Token {
    pub open spec fn view(&self) -> TokenV {
        match self {
            Token::LParen => TokenV::LParen,
            Token::RParen => TokenV::RParen,
            Token::Int(n) => TokenV::Int(*n),
            Token::Bool(b) => TokenV::Bool(*b),
            Token::String(s) => TokenV::Str(s@),
            Token::Symbol(s) => TokenV::Symbol(s@),
        }
    }
}

impl SpannedToken {
    pub open spec fn view(&self) -> (TokenV, Span) {
        (self.token@, self.span)
    }
}

/// The views of a token list.
pub open spec fn tokens_view(ts: Seq<SpannedToken>) -> Seq<(TokenV, Span)> {
    ts.map_values(|t: SpannedToken| t@)
}

/// The mathematical model of a lexer error.
pub enum LexErrorV {
    UnrecognizedCharacter { ch: char, span: Span },
    InvalidInteger { text: Seq<char>, span: Span },
    IntegerOutOfRange { text: Seq<char>, span: Span },
    MalformedRadixLiteral { text: Seq<char>, span: Span },
    UnterminatedString { span: Span },
    InvalidEscape { ch: char, span: Span },
}

impl LexError {
    pub open spec fn view(&self) -> LexErrorV {
        match self {
            LexError::UnrecognizedCharacter { ch, span } => LexErrorV::UnrecognizedCharacter { ch: *ch, span: *span },
            LexError::InvalidInteger { text, span } => LexErrorV::InvalidInteger { text: text@, span: *span },
            LexError::IntegerOutOfRange { text, span } => LexErrorV::IntegerOutOfRange { text: text@, span: *span },
            LexError::MalformedRadixLiteral { text, span } => LexErrorV::MalformedRadixLiteral { text: text@, span: *span },
            LexError::UnterminatedString { span } => LexErrorV::UnterminatedString { span: *span },
            LexError::InvalidEscape { ch, span } => LexErrorV::InvalidEscape { ch: *ch, span: *span },
        }
    }
}

// ---------------------------------------------------------------------
// The lexical grammar, as spec functions over the source characters.
// ---------------------------------------------------------------------

/// Characters that end an atom.
pub open spec fn is_delimiter_char(c: char) -> bool {
    is_unicode_whitespace(c) || c == '(' || c == ')' || c == ';' || c == '"'
}

/// The span of characters `i..j` of `s`, in bytes.
pub open spec fn char_span(s: Seq<char>, i: int, j: int) -> Span {
    Span { start: byte_offset(s, i) as usize, end: byte_offset(s, j) as usize }
}

/// Index just past the atom that starts at `i`: the first delimiter at or
/// after `i`, or the end of the source.
pub open spec fn atom_end(s: Seq<char>, i: int) -> int
    decreases s.len() - i,
{
    if i >= s.len() || i < 0 {
        s.len() as int
    } else if is_delimiter_char(s[i]) {
        i
    } else {
        atom_end(s, i + 1)
    }
}

pub proof fn lemma_atom_end(s: Seq<char>, i: int)
    requires
        0 <= i <= s.len(),
    ensures
        i <= atom_end(s, i) <= s.len(),
        forall|k: int| i <= k < atom_end(s, i) ==> !is_delimiter_char(#[trigger] s[k]),
        atom_end(s, i) < s.len() ==> is_delimiter_char(s[atom_end(s, i)]),
    decreases s.len() - i,
{
    if i < s.len() && !is_delimiter_char(s[i]) {
        lemma_atom_end(s, i + 1);
    }
}

/// What a string-literal escape character decodes to, if it is valid.
pub open spec fn escape_value(c: char) -> Option<char> {
    if c == '\\' {
        Some('\\')
    } else if c == '"' {
        Some('"')
    } else if c == 'n' {
        Some('\n')
    } else if c == 'r' {
        Some('\r')
    } else if c == 't' {
        Some('\t')
    } else if c == '0' {
        Some('\0')
    } else {
        None
    }
}

/// Decodes the body of a string literal whose opening quote is at `open`,
/// scanning from index `i` with `acc` decoded so far. On success, gives the
/// decoded text and the index just past the closing quote.
pub open spec fn string_body(s: Seq<char>, open: int, i: int, acc: Seq<char>) -> Result<(Seq<char>, int), LexErrorV>
    decreases s.len() - i,
{
    if i >= s.len() || i < 0 {
        Err(LexErrorV::UnterminatedString { span: Span { start: byte_offset(s, open) as usize, end: byte_len(s) as usize } })
    } else if s[i] == '"' {
        Ok((acc, i + 1))
    } else if s[i] == '\\' {
        if i + 1 >= s.len() {
            Err(LexErrorV::UnterminatedString { span: Span { start: byte_offset(s, open) as usize, end: byte_len(s) as usize } })
        } else {
            match escape_value(s[i + 1]) {
                Some(d) => string_body(s, open, i + 2, acc.push(d)),
                None => Err(LexErrorV::InvalidEscape { ch: s[i + 1], span: char_span(s, i, i + 2) }),
            }
        }
    } else {
        string_body(s, open, i + 1, acc.push(s[i]))
    }
}

/// Inside a string literal, a backslash escape stands for one character:
/// `\t` for the tab (U+0009), `\n` for the line feed (U+000A), `\r` for
/// the carriage return (U+000D), `\0` for U+0000, and `\\` and `\"` for
/// the backslash and the quote; decoding goes on after the escape with that
/// character appended. Any other escape is an error at the escape.
pub proof fn law_string_escapes_decode_to_their_characters(s: Seq<char>, open: int, i: int, acc: Seq<char>)
    requires
        0 <= i,
        i + 1 < s.len(),
        s[i] == '\\',
    ensures
        s[i + 1] == 't' ==> string_body(s, open, i, acc) == string_body(s, open, i + 2, acc.push('\u{9}')),
        s[i + 1] == 'n' ==> string_body(s, open, i, acc) == string_body(s, open, i + 2, acc.push('\u{a}')),
        s[i + 1] == 'r' ==> string_body(s, open, i, acc) == string_body(s, open, i + 2, acc.push('\u{d}')),
        s[i + 1] == '0' ==> string_body(s, open, i, acc) == string_body(s, open, i + 2, acc.push('\u{0}')),
        s[i + 1] == '\\' ==> string_body(s, open, i, acc) == string_body(s, open, i + 2, acc.push('\u{5c}')),
        s[i + 1] == '"' ==> string_body(s, open, i, acc) == string_body(s, open, i + 2, acc.push('\u{22}')),
        !(s[i + 1] == 't' || s[i + 1] == 'n' || s[i + 1] == 'r' || s[i + 1] == '0' || s[i + 1] == '\\' || s[i + 1] == '"')
            ==> string_body(s, open, i, acc) == Err::<(Seq<char>, int), LexErrorV>(LexErrorV::InvalidEscape { ch: s[i + 1], span: char_span(s, i, i + 2) }),
{
}

pub proof fn lemma_string_body_advances(s: Seq<char>, open: int, i: int, acc: Seq<char>)
    requires
        0 <= i,
    ensures
        string_body(s, open, i, acc) matches Ok((_, next)) ==> i < next <= s.len(),
    decreases s.len() - i,
{
    if i < s.len() && s[i] != '"' {
        if s[i] == '\\' {
            if i + 1 < s.len() && escape_value(s[i + 1]) is Some {
                lemma_string_body_advances(s, open, i + 2, acc.push(escape_value(s[i + 1])->0));
            }
        } else {
            lemma_string_body_advances(s, open, i + 1, acc.push(s[i]));
        }
    }
}

/// Outcome of reading a digit run.
pub enum DigitScan {
    Run { acc: nat, prev_underscore: bool, saw_digit: bool },
    Malformed,
    OutOfRange,
}

/// One step of the digit scan: `_` separators may not repeat; every other
/// character must be a digit of `radix`, and the running magnitude must
/// stay within `u64`.
pub open spec fn digit_step(st: DigitScan, c: char, radix: u32) -> DigitScan {
    match st {
        DigitScan::Run { acc, prev_underscore, saw_digit } => {
            if c == '_' {
                if prev_underscore {
                    DigitScan::Malformed
                } else {
                    DigitScan::Run { acc, prev_underscore: true, saw_digit }
                }
            } else {
                match digit_value(c, radix) {
                    None => DigitScan::Malformed,
                    Some(d) => {
                        let next = acc * radix + d;
                        if next > u64::MAX {
                            DigitScan::OutOfRange
                        } else {
                            DigitScan::Run { acc: next as nat, prev_underscore: false, saw_digit: true }
                        }
                    },
                }
            }
        },
        other => other,
    }
}

/// The scan state after the first `n` characters of `ds`.
pub open spec fn digit_scan(ds: Seq<char>, radix: u32, n: int) -> DigitScan
    decreases n,
{
    if n <= 0 {
        DigitScan::Run { acc: 0, prev_underscore: false, saw_digit: false }
    } else {
        digit_step(digit_scan(ds, radix, n - 1), ds[n - 1], radix)
    }
}

/// The magnitude a digit run (after any radix prefix) denotes: `_` may
/// appear only between digits.
pub open spec fn digits_magnitude(ds: Seq<char>, radix: u32) -> DigitScan {
    if ds.len() == 0 || ds[0] == '_' || ds[ds.len() - 1] == '_' {
        DigitScan::Malformed
    } else {
        match digit_scan(ds, radix, ds.len() as int) {
            DigitScan::Run { acc, saw_digit, .. } => if saw_digit {
                DigitScan::Run { acc, prev_underscore: false, saw_digit: true }
            } else {
                DigitScan::Malformed
            },
            other => other,
        }
    }
}

/// How an atom reads as an integer literal.
pub enum IntLiteral {
    NotInteger,
    Value(i64),
    Malformed,
    OutOfRange,
}

/// Decimal, binary (`0b`), octal (`0o`) and hexadecimal (`0x`) integer
/// literals, optionally negated with a leading `-`. Text that neither
/// starts with a digit nor with a radix prefix is not an integer at all.
pub open spec fn int_literal(text: Seq<char>) -> IntLiteral {
    let negative = text.len() > 0 && text[0] == '-';
    let u = if negative { text.drop_first() } else { text };
    if u.len() == 0 {
        IntLiteral::NotInteger
    } else {
        let prefixed = u.len() >= 2 && u[0] == '0' && (u[1] == 'b' || u[1] == 'o' || u[1] == 'x');
        if !prefixed && !('0' <= u[0] <= '9') {
            IntLiteral::NotInteger
        } else {
            let radix: u32 = if !prefixed {
                10
            } else if u[1] == 'b' {
                2
            } else if u[1] == 'o' {
                8
            } else {
                16
            };
            let digits = if prefixed { u.skip(2) } else { u };
            match digits_magnitude(digits, radix) {
                DigitScan::Run { acc, .. } => {
                    if negative {
                        if acc > 0x8000_0000_0000_0000 {
                            IntLiteral::OutOfRange
                        } else {
                            IntLiteral::Value((-acc) as i64)
                        }
                    } else {
                        if acc > i64::MAX {
                            IntLiteral::OutOfRange
                        } else {
                            IntLiteral::Value(acc as i64)
                        }
                    }
                },
                DigitScan::Malformed => IntLiteral::Malformed,
                DigitScan::OutOfRange => IntLiteral::OutOfRange,
            }
        }
    }
}

/// A leading `-` negates an integer literal: if `t` (starting with a
/// digit) denotes `v`, then `-t` denotes `-v`; and the radix prefixes
/// `0b`, `0o` and `0x` read the digits after them in base 2, 8 and 16
/// exactly as a bare run of digits is read in base 10.
pub proof fn law_integer_literal_sign_and_radix(t: Seq<char>, ds: Seq<char>)
    ensures
        t.len() > 0 && '0' <= t[0] <= '9' ==> (int_literal(t) matches IntLiteral::Value(v)
            ==> (v > 0 ==> int_literal(seq!['-'] + t) == IntLiteral::Value((-v) as i64))),
        digits_magnitude(ds, 2) is Run && digits_magnitude(ds, 2)->acc <= i64::MAX
            ==> int_literal(seq!['0', 'b'] + ds) == IntLiteral::Value(digits_magnitude(ds, 2)->acc as i64),
        digits_magnitude(ds, 8) is Run && digits_magnitude(ds, 8)->acc <= i64::MAX
            ==> int_literal(seq!['0', 'o'] + ds) == IntLiteral::Value(digits_magnitude(ds, 8)->acc as i64),
        digits_magnitude(ds, 16) is Run && digits_magnitude(ds, 16)->acc <= i64::MAX
            ==> int_literal(seq!['0', 'x'] + ds) == IntLiteral::Value(digits_magnitude(ds, 16)->acc as i64),
        ds.len() > 0 && (forall|k: int| 0 <= k < ds.len() ==> '0' <= #[trigger] ds[k] <= '9') && digits_magnitude(ds, 10) is Run
            && digits_magnitude(ds, 10)->acc <= i64::MAX
            ==> int_literal(ds) == IntLiteral::Value(digits_magnitude(ds, 10)->acc as i64),
{
    assert((seq!['-'] + t).drop_first() =~= t);
    assert((seq!['0', 'b'] + ds).skip(2) =~= ds);
    assert((seq!['0', 'o'] + ds).skip(2) =~= ds);
    assert((seq!['0', 'x'] + ds).skip(2) =~= ds);
    if ds.len() >= 2 && (forall|k: int| 0 <= k < ds.len() ==> '0' <= #[trigger] ds[k] <= '9') {
        assert('0' <= ds[1] <= '9');
    }
}

/// The value of a digit: `0`-`9` are 0 to 9 and the letters `a`-`z` (in
/// either case) 10 to 35, provided the value is below the radix; any other
/// character is no digit.
pub proof fn law_digit_values(c: char, radix: u32)
    ensures
        '0' <= c <= '9' ==> digit_value(c, radix) == (if (c as u32) - 48 < radix { Some(((c as u32) - 48) as u32) } else { None }),
        'a' <= c <= 'z' ==> digit_value(c, radix) == (if (c as u32) - 87 < radix { Some(((c as u32) - 87) as u32) } else { None }),
        'A' <= c <= 'Z' ==> digit_value(c, radix) == (if (c as u32) - 55 < radix { Some(((c as u32) - 55) as u32) } else { None }),
        !('0' <= c <= '9' || 'a' <= c <= 'z' || 'A' <= c <= 'Z') && radix <= 36 ==> digit_value(c, radix) is None,
{
}

/// The token an atom's text denotes.
pub open spec fn classify_atom_spec(text: Seq<char>, span: Span) -> Result<TokenV, LexErrorV> {
    if text == seq!['t', 'r', 'u', 'e'] {
        Ok(TokenV::Bool(true))
    } else if text == seq!['f', 'a', 'l', 's', 'e'] {
        Ok(TokenV::Bool(false))
    } else {
        match int_literal(text) {
            IntLiteral::Value(v) => Ok(TokenV::Int(v)),
            IntLiteral::Malformed => Err(LexErrorV::MalformedRadixLiteral { text, span }),
            IntLiteral::OutOfRange => Err(LexErrorV::IntegerOutOfRange { text, span }),
            IntLiteral::NotInteger => Ok(TokenV::Symbol(text)),
        }
    }
}

/// Prepends `t` to a lexing result.
pub open spec fn cons_token(t: (TokenV, Span), rest: Result<Seq<(TokenV, Span)>, LexErrorV>) -> Result<Seq<(TokenV, Span)>, LexErrorV> {
    match rest {
        Ok(ts) => Ok(seq![t] + ts),
        Err(e) => Err(e),
    }
}

/// The tokens of `s` from index `i` on: whitespace separates tokens, `;`
/// starts a comment running to the end of the line, parentheses and string
/// literals are tokens of their own, and anything else runs to the next
/// delimiter as an atom.
pub open spec fn lex_from(s: Seq<char>, i: int) -> Result<Seq<(TokenV, Span)>, LexErrorV>
    decreases s.len() - i, 1int,
{
    if i >= s.len() || i < 0 {
        Ok(Seq::empty())
    } else {
        let c = s[i];
        if is_unicode_whitespace(c) {
            lex_from(s, i + 1)
        } else if c == ';' {
            lex_comment(s, i + 1)
        } else if c == '(' {
            cons_token((TokenV::LParen, char_span(s, i, i + 1)), lex_from(s, i + 1))
        } else if c == ')' {
            cons_token((TokenV::RParen, char_span(s, i, i + 1)), lex_from(s, i + 1))
        } else if c == '"' {
            proof {
                lemma_string_body_advances(s, i, i + 1, Seq::empty());
            }
            match string_body(s, i, i + 1, Seq::empty()) {
                Err(e) => Err(e),
                Ok((text, next)) => cons_token((TokenV::Str(text), char_span(s, i, next)), lex_from(s, next)),
            }
        } else {
            proof {
                lemma_atom_end(s, i + 1);
            }
            let j = atom_end(s, i + 1);
            let span = char_span(s, i, j);
            match classify_atom_spec(s.subrange(i, j), span) {
                Err(e) => Err(e),
                Ok(t) => cons_token((t, span), lex_from(s, j)),
            }
        }
    }
}

/// Skips a comment up to (not including) the next newline, then lexes on.
pub open spec fn lex_comment(s: Seq<char>, i: int) -> Result<Seq<(TokenV, Span)>, LexErrorV>
    decreases s.len() - i, 2int,
{
    if i >= s.len() || i < 0 {
        Ok(Seq::empty())
    } else if s[i] == '\n' {
        lex_from(s, i)
    } else {
        lex_comment(s, i + 1)
    }
}

/// The tokens of the whole source.
pub open spec fn lex(s: Seq<char>) -> Result<Seq<(TokenV, Span)>, LexErrorV> {
    lex_from(s, 0)
}

// ---------------------------------------------------------------------
// Executable lexer.
// ---------------------------------------------------------------------

fn is_delimiter(c: char) -> (r: bool)
    ensures
        r == is_delimiter_char(c),
{
    is_whitespace(c) || c == '(' || c == ')' || c == ';' || c == '"'
}

/// Byte offsets of every character boundary of `cs`.
fn byte_offsets(cs: &Vec<char>) -> (r: Vec<usize>)
    requires
        byte_len(cs@) <= usize::MAX,
    ensures
        r@.len() == cs@.len() + 1,
        forall|k: int| 0 <= k <= cs@.len() ==> #[trigger] r@[k] == byte_offset(cs@, k),
{
    let mut r: Vec<usize> = Vec::new();
    r.push(0);
    let mut pos: usize = 0;
    let mut i: usize = 0;
    while i < cs.len()
        invariant
            byte_len(cs@) <= usize::MAX,
            i <= cs@.len(),
            r@.len() == i + 1,
            pos == byte_offset(cs@, i as int),
            forall|k: int| 0 <= k <= i ==> #[trigger] r@[k] == byte_offset(cs@, k),
        decreases cs@.len() - i,
    {
        proof {
            lemma_byte_offset_monotonic(cs@, i + 1, cs@.len() as int);
        }
        pos = pos + char_len_utf8(cs[i]);
        i += 1;
        r.push(pos);
    }
    r
}

/// Splits source text into tokens, tracking byte spans for error reporting.
pub fn tokenize(source: &str) -> (r: Result<Vec<SpannedToken>, LexError>)
    requires
        byte_len(source@) <= usize::MAX,
    ensures
        match r {
            Ok(ts) => lex(source@) == Ok::<Seq<(TokenV, Span)>, LexErrorV>(tokens_view(ts@)),
            Err(e) => lex(source@) == Err::<Seq<(TokenV, Span)>, LexErrorV>(e@),
        },
{
    let cs = str_chars(source);
    let offsets = byte_offsets(&cs);
    let ghost s = cs@;
    let mut tokens: Vec<SpannedToken> = Vec::new();
    let mut i: usize = 0;
    while i < cs.len()
        invariant
            s == cs@,
            s == source@,
            offsets@.len() == s.len() + 1,
            forall|k: int| 0 <= k <= s.len() ==> #[trigger] offsets@[k] == byte_offset(s, k),
            i <= s.len(),
            lex(s) == match lex_from(s, i as int) {
                Ok(rest) => Ok::<Seq<(TokenV, Span)>, LexErrorV>(tokens_view(tokens@) + rest),
                Err(e) => Err(e),
            },
        decreases s.len() - i,
    {
        match lex_one(&cs, &offsets, i) {
            Err(e) => {
                return Err(e);
            },
            Ok((None, next)) => {
                i = next;
            },
            Ok((Some(t), next)) => {
                let ghost before = tokens@;
                tokens.push(t);
                proof {
                    assert(tokens_view(tokens@) =~= tokens_view(before) + seq![t@]);
                    match lex_from(s, next as int) {
                        Ok(rest) => {
                            assert(tokens_view(before) + (seq![t@] + rest) =~= tokens_view(tokens@) + rest);
                        },
                        Err(e) => {},
                    }
                }
                i = next;
            },
        }
    }
    proof {
        assert(tokens_view(tokens@) + Seq::<(TokenV, Span)>::empty() =~= tokens_view(tokens@));
    }
    Ok(tokens)
}

/// Reads what starts at index `i`: nothing (whitespace or a comment), one
/// token, or an error. Returns the index where reading continues.
fn lex_one(cs: &Vec<char>, offsets: &Vec<usize>, i: usize) -> (r: Result<(Option<SpannedToken>, usize), LexError>)
    requires
        i < cs@.len(),
        offsets@.len() == cs@.len() + 1,
        forall|k: int| 0 <= k <= cs@.len() ==> #[trigger] offsets@[k] == byte_offset(cs@, k),
    ensures
        match r {
            Ok((None, next)) => i < next <= cs@.len() && lex_from(cs@, i as int) == lex_from(cs@, next as int),
            Ok((Some(t), next)) => i < next <= cs@.len() && lex_from(cs@, i as int) == cons_token(t@, lex_from(cs@, next as int)),
            Err(e) => lex_from(cs@, i as int) == Err::<Seq<(TokenV, Span)>, LexErrorV>(e@),
        },
{
    let ghost s = cs@;
    let len = cs.len();
    assert(i + 1 <= len);
    let c = cs[i];
    if is_whitespace(c) {
        return Ok((None, i + 1));
    }
    if c == ';' {
        let mut j = i + 1;
        while j < cs.len() && cs[j] != '\n'
            invariant
                s == cs@,
                i < j <= s.len(),
                lex_from(s, i as int) == lex_comment(s, j as int),
            decreases s.len() - j,
        {
            j += 1;
        }
        return Ok((None, j));
    }
    if c == '(' {
        return Ok((Some(SpannedToken { token: Token::LParen, span: Span::new(offsets[i], offsets[i + 1]) }), i + 1));
    }
    if c == ')' {
        return Ok((Some(SpannedToken { token: Token::RParen, span: Span::new(offsets[i], offsets[i + 1]) }), i + 1));
    }
    if c == '"' {
        proof {
            lemma_string_body_advances(s, i as int, i + 1, Seq::empty());
        }
        return match lex_string(cs, offsets, i) {
            Err(e) => Err(e),
            Ok((text, next)) => Ok((Some(SpannedToken { token: Token::String(text), span: Span::new(offsets[i], offsets[next]) }), next)),
        };
    }
    // General atom: runs until a delimiter.
    let mut j = i + 1;
    while j < cs.len() && !is_delimiter(cs[j])
        invariant
            s == cs@,
            i < j <= s.len(),
            atom_end(s, i + 1) == atom_end(s, j as int),
        decreases s.len() - j,
    {
        j += 1;
    }
    let span = Span::new(offsets[i], offsets[j]);
    let text = slice_chars(cs, i, j);
    match classify_atom(&text, span) {
        Err(e) => Err(e),
        Ok(token) => Ok((Some(SpannedToken { token, span }), j)),
    }
}

/// The characters `cs[from..to]`.
fn slice_chars(cs: &Vec<char>, from: usize, to: usize) -> (r: Vec<char>)
    requires
        from <= to <= cs@.len(),
    ensures
        r@ == cs@.subrange(from as int, to as int),
{
    let mut r: Vec<char> = Vec::new();
    let mut k = from;
    while k < to
        invariant
            from <= k <= to <= cs@.len(),
            r@ == cs@.subrange(from as int, k as int),
        decreases to - k,
    {
        r.push(cs[k]);
        k += 1;
        assert(r@ =~= cs@.subrange(from as int, k as int));
    }
    r
}

/// Lexes a string literal whose opening `"` is at `cs[start]`. Returns the
/// decoded text and the index of the first character after the closing quote.
fn lex_string(cs: &Vec<char>, offsets: &Vec<usize>, start: usize) -> (r: Result<(String, usize), LexError>)
    requires
        start < cs@.len(),
        cs@[start as int] == '"',
        offsets@.len() == cs@.len() + 1,
        forall|k: int| 0 <= k <= cs@.len() ==> #[trigger] offsets@[k] == byte_offset(cs@, k),
    ensures
        match r {
            Ok((text, next)) => string_body(cs@, start as int, start + 1, Seq::empty()) == Ok::<(Seq<char>, int), LexErrorV>((text@, next as int)),
            Err(e) => string_body(cs@, start as int, start + 1, Seq::empty()) == Err::<(Seq<char>, int), LexErrorV>(e@),
        },
{
    let n = cs.len();
    let open_pos = offsets[start];
    let mut decoded: Vec<char> = Vec::new();
    let mut i = start + 1;
    while i < n
        invariant
            n == cs@.len(),
            offsets@.len() == cs@.len() + 1,
            forall|k: int| 0 <= k <= cs@.len() ==> #[trigger] offsets@[k] == byte_offset(cs@, k),
            open_pos == byte_offset(cs@, start as int),
            start < i,
            string_body(cs@, start as int, start + 1, Seq::empty()) == string_body(cs@, start as int, i as int, decoded@),
        decreases n - i,
    {
        let c = cs[i];
        if c == '"' {
            let s = string_from_chars(decoded.as_slice());
            return Ok((s, i + 1));
        } else if c == '\\' {
            if i + 1 >= n {
                return Err(LexError::UnterminatedString { span: Span::new(open_pos, offsets[n]) });
            }
            let esc = cs[i + 1];
            let d = if esc == '\\' {
                '\\'
            } else if esc == '"' {
                '"'
            } else if esc == 'n' {
                '\n'
            } else if esc == 'r' {
                '\r'
            } else if esc == 't' {
                '\t'
            } else if esc == '0' {
                '\0'
            } else {
                return Err(LexError::InvalidEscape { ch: esc, span: Span::new(offsets[i], offsets[i + 2]) });
            };
            decoded.push(d);
            i += 2;
        } else {
            decoded.push(c);
            i += 1;
        }
    }
    Err(LexError::UnterminatedString { span: Span::new(open_pos, offsets[n]) })
}

/// Whether `text` spells `lit`.
fn chars_are(text: &Vec<char>, lit: &str) -> (r: bool)
    ensures
        r == (text@ == lit@),
{
    let l = str_chars(lit);
    crate::text::chars_eq(text.as_slice(), l.as_slice())
}

fn classify_atom(text: &Vec<char>, span: Span) -> (r: Result<Token, LexError>)
    ensures
        match r {
            Ok(t) => classify_atom_spec(text@, span) == Ok::<TokenV, LexErrorV>(t@),
            Err(e) => classify_atom_spec(text@, span) == Err::<TokenV, LexErrorV>(e@),
        },
{
    proof {
        reveal_strlit("true");
        reveal_strlit("false");
        assert("true"@ =~= seq!['t', 'r', 'u', 'e']);
        assert("false"@ =~= seq!['f', 'a', 'l', 's', 'e']);
    }
    if chars_are(text, "true") {
        assert(text@ == seq!['t', 'r', 'u', 'e']);
        return Ok(Token::Bool(true));
    }
    if chars_are(text, "false") {
        assert(text@ == seq!['f', 'a', 'l', 's', 'e']);
        return Ok(Token::Bool(false));
    }
    assert(text@ != seq!['t', 'r', 'u', 'e']);
    assert(text@ != seq!['f', 'a', 'l', 's', 'e']);
    match parse_int_literal(text) {
        IntLiteralExec::Value(v) => Ok(Token::Int(v)),
        IntLiteralExec::Malformed => Err(LexError::MalformedRadixLiteral { text: string_from_chars(text.as_slice()), span }),
        IntLiteralExec::OutOfRange => Err(LexError::IntegerOutOfRange { text: string_from_chars(text.as_slice()), span }),
        IntLiteralExec::NotInteger => Ok(Token::Symbol(string_from_chars(text.as_slice()))),
    }
}

/// Executable counterpart of `IntLiteral`.
pub enum IntLiteralExec {
    NotInteger,
    Value(i64),
    Malformed,
    OutOfRange,
}

impl IntLiteralExec {
    pub open spec fn view(self) -> IntLiteral {
        match self {
            IntLiteralExec::NotInteger => IntLiteral::NotInteger,
            IntLiteralExec::Value(v) => IntLiteral::Value(v),
            IntLiteralExec::Malformed => IntLiteral::Malformed,
            IntLiteralExec::OutOfRange => IntLiteral::OutOfRange,
        }
    }
}

/// Recognizes decimal, binary, octal and hexadecimal integer literals.
fn parse_int_literal(text: &Vec<char>) -> (r: IntLiteralExec)
    ensures
        r@ == int_literal(text@),
{
    let negative = text.len() > 0 && text[0] == '-';
    let u: Vec<char> = if negative {
        slice_chars(text, 1, text.len())
    } else {
        slice_chars(text, 0, text.len())
    };
    proof {
        if negative {
            assert(u@ =~= text@.drop_first());
        } else {
            assert(u@ =~= text@);
        }
    }
    if u.len() == 0 {
        return IntLiteralExec::NotInteger;
    }
    let prefixed = u.len() >= 2 && u[0] == '0' && (u[1] == 'b' || u[1] == 'o' || u[1] == 'x');
    if !prefixed && !('0' <= u[0] && u[0] <= '9') {
        return IntLiteralExec::NotInteger;
    }
    let radix: u32 = if !prefixed {
        10
    } else if u[1] == 'b' {
        2
    } else if u[1] == 'o' {
        8
    } else {
        16
    };
    let digits: Vec<char> = if prefixed {
        slice_chars(&u, 2, u.len())
    } else {
        slice_chars(&u, 0, u.len())
    };
    proof {
        if prefixed {
            assert(digits@ =~= u@.skip(2));
        } else {
            assert(digits@ =~= u@);
        }
    }
    match parse_digits_with_separators(&digits, radix) {
        Err(true) => IntLiteralExec::Malformed,
        Err(false) => IntLiteralExec::OutOfRange,
        Ok(magnitude) => {
            if negative {
                if magnitude > 0x8000_0000_0000_0000u64 {
                    IntLiteralExec::OutOfRange
                } else if magnitude == 0x8000_0000_0000_0000u64 {
                    IntLiteralExec::Value(i64::MIN)
                } else {
                    IntLiteralExec::Value(-(magnitude as i64))
                }
            } else {
                if magnitude > 0x7fff_ffff_ffff_ffffu64 {
                    IntLiteralExec::OutOfRange
                } else {
                    IntLiteralExec::Value(magnitude as i64)
                }
            }
        },
    }
}

/// Parses a digit run after any radix prefix, allowing `_` only between
/// two digits. `Err(true)` means malformed, `Err(false)` out of range.
fn parse_digits_with_separators(digits: &Vec<char>, radix: u32) -> (r: Result<u64, bool>)
    requires
        radix == 2 || radix == 8 || radix == 10 || radix == 16,
    ensures
        match digits_magnitude(digits@, radix) {
            DigitScan::Run { acc, .. } => r == Ok::<u64, bool>(acc as u64),
            DigitScan::Malformed => r == Err::<u64, bool>(true),
            DigitScan::OutOfRange => r == Err::<u64, bool>(false),
        },
{
    let n = digits.len();
    if n == 0 || digits[0] == '_' || digits[n - 1] == '_' {
        return Err(true);
    }
    let mut magnitude: u64 = 0;
    let mut prev_was_underscore = false;
    let mut saw_digit = false;
    let mut i: usize = 0;
    while i < n
        invariant
            n == digits@.len(),
            n > 0,
            digits@[0] != '_',
            digits@[n - 1] != '_',
            radix == 2 || radix == 8 || radix == 10 || radix == 16,
            i <= n,
            digit_scan(digits@, radix, i as int) == (DigitScan::Run { acc: magnitude as nat, prev_underscore: prev_was_underscore, saw_digit }),
        decreases n - i,
    {
        let ch = digits[i];
        proof {
            assert(digit_scan(digits@, radix, i + 1) == digit_step(digit_scan(digits@, radix, i as int), ch, radix));
        }
        if ch == '_' {
            if prev_was_underscore {
                proof {
                    lemma_digit_scan_absorbs(digits@, radix, i + 1, n as int);
                }
                return Err(true);
            }
            prev_was_underscore = true;
            i += 1;
            continue;
        }
        let digit = match to_digit(ch, radix) {
            None => {
                proof {
                    lemma_digit_scan_absorbs(digits@, radix, i + 1, n as int);
                }
                return Err(true);
            },
            Some(d) => d,
        };
        let next = match magnitude.checked_mul(radix as u64) {
            Some(m) => m.checked_add(digit as u64),
            None => None,
        };
        match next {
            Some(m) => {
                magnitude = m;
            },
            None => {
                proof {
                    assert(magnitude * radix + digit > u64::MAX) by (nonlinear_arith)
                        requires
                            magnitude * radix > u64::MAX || magnitude * radix + digit > u64::MAX,
                    ;
                    assert(digit_value(ch, radix) == Some(digit));
                    assert(digit_scan(digits@, radix, i + 1) == DigitScan::OutOfRange);
                    lemma_digit_scan_absorbs(digits@, radix, i + 1, n as int);
                }
                return Err(false);
            },
        }
        prev_was_underscore = false;
        saw_digit = true;
        i += 1;
    }
    if !saw_digit {
        return Err(true);
    }
    Ok(magnitude)
}

/// Once the scan has failed it stays failed.
proof fn lemma_digit_scan_absorbs(ds: Seq<char>, radix: u32, i: int, n: int)
    requires
        0 <= i <= n,
        !(digit_scan(ds, radix, i) is Run),
    ensures
        digit_scan(ds, radix, n) == digit_scan(ds, radix, i),
    decreases n - i,
{
    if i < n {
        lemma_digit_scan_absorbs(ds, radix, i, n - 1);
    }
}

} // verus!
