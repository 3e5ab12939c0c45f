//! Parsing and rendering of `print` format strings, using a Rust-compatible
//! subset of `{}` placeholder syntax: `{}` and `{n}` placeholders, `{{`/`}}`
//! escapes, and specs `[[fill]align][+][#][0][width][b|o|x|X]`.
use vstd::prelude::*;
use crate::error::FormatError;
use crate::text::{
    int_decimal, push_all, push_i64_decimal, push_radix_digits, push_str, radix_digits,
    str_chars, string_from_chars,
};
use crate::value::{kind_name_v, lemma_values_view_all, values_view_all, Value, ValueV};

verus! {

broadcast use vstd::std_specs::vec::group_vec_axioms;

#[derive(Debug, Clone, Copy, PartialEq, Eq, Structural)]
pub enum Alignment {
    Left,
    Right,
    Center,
}

#[derive(Debug, Clone, Copy, PartialEq, Eq, Structural)]
pub enum FormatType {
    Display,
    Binary,
    Octal,
    LowerHex,
    UpperHex,
}

#[derive(Debug, Clone, PartialEq, Eq, Structural)]
pub struct FormatSpec {
    pub fill: char,
    pub alignment: Option<Alignment>,
    pub show_sign: bool,
    pub alternate: bool,
    pub zero_pad: bool,
    pub width: Option<usize>,
    pub format_type: FormatType,
}

/// The spec every placeholder starts from: space fill, no alignment,
/// no sign, prefix or padding, and Display formatting.
pub open spec fn default_spec() -> FormatSpec {
    FormatSpec {
        fill: ' ',
        alignment: None,
        show_sign: false,
        alternate: false,
        zero_pad: false,
        width: None,
        format_type: FormatType::Display,
    }
}

impl Default for FormatSpec {
    fn default() -> (r: Self)
        ensures
            r == default_spec(),
    {
        FormatSpec {
            fill: ' ',
            alignment: None,
            show_sign: false,
            alternate: false,
            zero_pad: false,
            width: None,
            format_type: FormatType::Display,
        }
    }
}

#[derive(Debug, Clone, Copy, PartialEq, Eq, Structural)]
pub enum ArgumentIndex {
    Implicit,
    Explicit(usize),
}

#[derive(Debug, Clone, PartialEq, Eq)]
pub enum FormatPart {
    Literal(String),
    Placeholder { argument: ArgumentIndex, spec: FormatSpec },
}

/// The mathematical model of a format part.
pub enum FormatPartV {
    Literal(Seq<char>),
    Placeholder { argument: ArgumentIndex, spec: FormatSpec },
}

impl FormatPart {
    pub open spec fn view(&self) -> FormatPartV {
        match self {
            FormatPart::Literal(s) => FormatPartV::Literal(s@),
            FormatPart::Placeholder { argument, spec } => FormatPartV::Placeholder { argument: *argument, spec: *spec },
        }
    }
}

pub open spec fn parts_view(ps: Seq<FormatPart>) -> Seq<FormatPartV> {
    ps.map_values(|p: FormatPart| p@)
}

// ---------------------------------------------------------------------
// Format-string grammar.
// ---------------------------------------------------------------------

pub open spec fn is_alignment_char(c: char) -> bool {
    c == '<' || c == '>' || c == '^'
}

pub open spec fn alignment_of(c: char) -> Alignment {
    if c == '<' {
        Alignment::Left
    } else if c == '>' {
        Alignment::Right
    } else {
        Alignment::Center
    }
}

/// The value of a run of decimal digits.
pub open spec fn decimal_value(ds: Seq<char>) -> nat
    decreases ds.len(),
{
    if ds.len() == 0 {
        0
    } else {
        decimal_value(ds.drop_last()) * 10 + ((ds.last() as u32) - ('0' as u32)) as nat
    }
}

pub open spec fn all_ascii_digits(ds: Seq<char>) -> bool {
    forall|k: int| 0 <= k < ds.len() ==> '0' <= #[trigger] ds[k] <= '9'
}

/// `str::parse::<usize>`: an optional `+`, then one or more decimal digits
/// whose value fits in `usize`.
pub open spec fn parse_usize_spec(t: Seq<char>) -> Option<usize> {
    let ds = if t.len() > 0 && t[0] == '+' { t.drop_first() } else { t };
    if ds.len() == 0 || !all_ascii_digits(ds) || decimal_value(ds) > usize::MAX {
        None
    } else {
        Some(decimal_value(ds) as usize)
    }
}

/// Index of the first `c` in `s` at or after `i`, or `s.len()` if none.
pub open spec fn find_char(s: Seq<char>, i: int, c: char) -> int
    decreases s.len() - i,
{
    if i < 0 || i >= s.len() {
        s.len() as int
    } else if s[i] == c {
        i
    } else {
        find_char(s, i + 1, c)
    }
}

/// End (exclusive) of the run of ASCII digits starting at `i`.
pub open spec fn digit_run_end(s: Seq<char>, i: int) -> int
    decreases s.len() - i,
{
    if i < 0 || i >= s.len() || !('0' <= s[i] <= '9') {
        i
    } else {
        digit_run_end(s, i + 1)
    }
}

/// The body of a spec after `[[fill]align]`: `[+][#][0][width][type]`,
/// starting at index `i` of `cs` with `r` holding what was read so far.
pub open spec fn parse_spec_tail(cs: Seq<char>, i0: int, r0: FormatSpec) -> Result<FormatSpec, FormatError> {
    let (i1, r1) = if i0 < cs.len() && cs[i0] == '+' { (i0 + 1, FormatSpec { show_sign: true, ..r0 }) } else { (i0, r0) };
    let (i2, r2) = if i1 < cs.len() && cs[i1] == '#' { (i1 + 1, FormatSpec { alternate: true, ..r1 }) } else { (i1, r1) };
    let (i3, r3) = if i2 < cs.len() && cs[i2] == '0' { (i2 + 1, FormatSpec { zero_pad: true, ..r2 }) } else { (i2, r2) };
    let i4 = digit_run_end(cs, i3);
    let r4 = if i4 > i3 { FormatSpec { width: parse_usize_spec(cs.subrange(i3, i4)), ..r3 } } else { r3 };
    if i4 < cs.len() {
        let t = cs[i4];
        if t == 'b' || t == 'o' || t == 'x' || t == 'X' {
            let r5 = FormatSpec {
                format_type: if t == 'b' {
                    FormatType::Binary
                } else if t == 'o' {
                    FormatType::Octal
                } else if t == 'x' {
                    FormatType::LowerHex
                } else {
                    FormatType::UpperHex
                },
                ..r4
            };
            if i4 + 1 != cs.len() {
                Err(FormatError::UnsupportedFormatType { type_char: cs[i4 + 1] })
            } else {
                Ok(r5)
            }
        } else {
            Err(FormatError::UnsupportedFormatType { type_char: t })
        }
    } else {
        Ok(r4)
    }
}

/// A spec body (the part after `:`).
pub open spec fn parse_spec(cs: Seq<char>) -> Result<FormatSpec, FormatError> {
    if cs.len() >= 2 && is_alignment_char(cs[1]) {
        parse_spec_tail(cs, 2, FormatSpec { fill: cs[0], alignment: Some(alignment_of(cs[1])), ..default_spec() })
    } else if cs.len() >= 1 && is_alignment_char(cs[0]) {
        parse_spec_tail(cs, 1, FormatSpec { alignment: Some(alignment_of(cs[0])), ..default_spec() })
    } else {
        parse_spec_tail(cs, 0, default_spec())
    }
}

/// The placeholder whose body starts at `start` (just after `{`), and the
/// index just after its closing `}`.
pub open spec fn parse_placeholder_spec(cs: Seq<char>, start: int) -> Result<(FormatPartV, int), FormatError> {
    let close = find_char(cs, start, '}');
    if close >= cs.len() {
        Err(FormatError::UnmatchedOpenBrace)
    } else {
        let body = cs.subrange(start, close);
        let colon = find_char(body, 0, ':');
        let index_part = body.subrange(0, colon);
        let argument = if index_part.len() == 0 {
            Some(ArgumentIndex::Implicit)
        } else {
            match parse_usize_spec(index_part) {
                Some(n) => Some(ArgumentIndex::Explicit(n)),
                None => None,
            }
        };
        match argument {
            None => Err(FormatError::UnmatchedOpenBrace),
            Some(argument) => {
                let spec_part = if colon < body.len() { body.subrange(colon + 1, body.len() as int) } else { Seq::empty() };
                match parse_spec(spec_part) {
                    Err(e) => Err(e),
                    Ok(spec) => Ok((FormatPartV::Placeholder { argument, spec }, close + 1)),
                }
            },
        }
    }
}

pub proof fn lemma_find_char(s: Seq<char>, i: int, c: char)
    requires
        0 <= i <= s.len(),
    ensures
        i <= find_char(s, i, c) <= s.len(),
        find_char(s, i, c) < s.len() ==> s[find_char(s, i, c)] == c,
        forall|k: int| i <= k < find_char(s, i, c) ==> s[k] != c,
    decreases s.len() - i,
{
    if i < s.len() && s[i] != c {
        lemma_find_char(s, i + 1, c);
    }
}

/// A pending literal, as the parts it contributes (none when empty).
pub open spec fn literal_parts(lit: Seq<char>) -> Seq<FormatPartV> {
    if lit.len() == 0 {
        Seq::empty()
    } else {
        seq![FormatPartV::Literal(lit)]
    }
}

/// The parts of `cs` from index `i` on, with `lit` the literal text
/// collected since the last placeholder.
pub open spec fn parse_format_from(cs: Seq<char>, i: int, lit: Seq<char>) -> Result<Seq<FormatPartV>, FormatError>
    decreases cs.len() - i,
{
    if i < 0 || i >= cs.len() {
        Ok(literal_parts(lit))
    } else if cs[i] == '{' && i + 1 < cs.len() && cs[i + 1] == '{' {
        parse_format_from(cs, i + 2, lit.push('{'))
    } else if cs[i] == '}' && i + 1 < cs.len() && cs[i + 1] == '}' {
        parse_format_from(cs, i + 2, lit.push('}'))
    } else if cs[i] == '{' {
        match parse_placeholder_spec(cs, i + 1) {
            Err(e) => Err(e),
            Ok((p, next)) => if i < next <= cs.len() {
                match parse_format_from(cs, next, Seq::empty()) {
                    Err(e) => Err(e),
                    Ok(rest) => Ok(literal_parts(lit) + seq![p] + rest),
                }
            } else {
                Err(FormatError::UnmatchedOpenBrace)
            },
        }
    } else if cs[i] == '}' {
        Err(FormatError::UnmatchedCloseBrace)
    } else {
        parse_format_from(cs, i + 1, lit.push(cs[i]))
    }
}

/// The parts of a whole format string.
pub open spec fn parse_format(cs: Seq<char>) -> Result<Seq<FormatPartV>, FormatError> {
    parse_format_from(cs, 0, Seq::empty())
}

// ---------------------------------------------------------------------
// Format-string parsing.
// ---------------------------------------------------------------------

/// Parses a format string into literal and placeholder parts. Argument
/// indices are resolved later, by `render`.
pub fn parse_format_string(source: &str) -> (r: Result<Vec<FormatPart>, FormatError>)
    ensures
        match r {
            Ok(ps) => parse_format(source@) == Ok::<Seq<FormatPartV>, FormatError>(parts_view(ps@)),
            Err(e) => parse_format(source@) == Err::<Seq<FormatPartV>, FormatError>(e),
        },
{
    let chars = str_chars(source);
    let ghost cs = chars@;
    let mut parts: Vec<FormatPart> = Vec::new();
    let mut literal: Vec<char> = Vec::new();
    let mut i: usize = 0;
    while i < chars.len()
        invariant
            cs == chars@,
            cs == source@,
            i <= cs.len(),
            parse_format(cs) == match parse_format_from(cs, i as int, literal@) {
                Ok(rest) => Ok::<Seq<FormatPartV>, FormatError>(parts_view(parts@) + rest),
                Err(e) => Err(e),
            },
        decreases cs.len() - i,
    {
        let c = chars[i];
        if c == '{' && i + 1 < chars.len() && chars[i + 1] == '{' {
            literal.push('{');
            i += 2;
        } else if c == '}' && i + 1 < chars.len() && chars[i + 1] == '}' {
            literal.push('}');
            i += 2;
        } else if c == '{' {
            match parse_placeholder(&chars, i + 1) {
                Err(e) => {
                    return Err(e);
                },
                Ok((placeholder, next)) => {
                    let ghost before = parts_view(parts@);
                    let ghost lit = literal@;
                    if literal.len() > 0 {
                        parts.push(FormatPart::Literal(string_from_chars(literal.as_slice())));
                    }
                    parts.push(placeholder);
                    literal = Vec::new();
                    proof {
                        assert(parts_view(parts@) =~= before + literal_parts(lit) + seq![placeholder@]);
                        match parse_format_from(cs, next as int, Seq::empty()) {
                            Ok(rest) => {
                                assert(before + (literal_parts(lit) + seq![placeholder@] + rest) =~= parts_view(parts@) + rest);
                            },
                            Err(e) => {},
                        }
                    }
                    i = next;
                },
            }
        } else if c == '}' {
            return Err(FormatError::UnmatchedCloseBrace);
        } else {
            literal.push(c);
            i += 1;
        }
    }
    let ghost before = parts_view(parts@);
    let ghost lit = literal@;
    if literal.len() > 0 {
        parts.push(FormatPart::Literal(string_from_chars(literal.as_slice())));
    }
    proof {
        assert(parts_view(parts@) =~= before + literal_parts(lit));
    }
    Ok(parts)
}

/// Parses `str::parse::<usize>`-style text.
fn parse_usize(t: &[char]) -> (r: Option<usize>)
    ensures
        r == parse_usize_spec(t@),
{
    let start: usize = if t.len() > 0 && t[0] == '+' { 1 } else { 0 };
    let ghost ds = if t@.len() > 0 && t@[0] == '+' { t@.drop_first() } else { t@ };
    if start >= t.len() {
        assert(ds.len() == 0);
        return None;
    }
    assert(ds =~= t@.subrange(start as int, t@.len() as int));
    let mut value: usize = 0;
    let mut i = start;
    let mut overflow = false;
    while i < t.len()
        invariant
            start <= i <= t@.len(),
            start == 0 || start == 1,
            ds == t@.subrange(start as int, t@.len() as int),
            ds == (if t@.len() > 0 && t@[0] == '+' { t@.drop_first() } else { t@ }),
            all_ascii_digits(ds.subrange(0, i - start)),
            !overflow ==> value == decimal_value(ds.subrange(0, i - start)),
            overflow ==> decimal_value(ds.subrange(0, i - start)) > usize::MAX,
        decreases t@.len() - i,
    {
        let c = t[i];
        if !('0' <= c && c <= '9') {
            assert(!all_ascii_digits(ds)) by {
                assert(ds[i - start] == c);
            }
            return None;
        }
        let d = (c as u32) - ('0' as u32);
        let ghost prefix = ds.subrange(0, i - start);
        let ghost next_prefix = ds.subrange(0, i + 1 - start);
        assert(next_prefix.drop_last() =~= prefix);
        assert(next_prefix.last() == c);
        assert(all_ascii_digits(next_prefix)) by {
            assert forall|k: int| 0 <= k < next_prefix.len() implies '0' <= #[trigger] next_prefix[k] <= '9' by {
                if k < prefix.len() {
                    assert(next_prefix[k] == prefix[k]);
                }
            }
        }
        if overflow {
            assert(decimal_value(next_prefix) > usize::MAX) by (nonlinear_arith)
                requires
                    decimal_value(next_prefix) == decimal_value(prefix) * 10 + d,
                    decimal_value(prefix) > usize::MAX,
            ;
        } else {
            match value.checked_mul(10) {
                Some(m) => match m.checked_add(d as usize) {
                    Some(v) => {
                        value = v;
                    },
                    None => {
                        overflow = true;
                    },
                },
                None => {
                    overflow = true;
                    assert(decimal_value(next_prefix) > usize::MAX) by (nonlinear_arith)
                        requires
                            decimal_value(next_prefix) == decimal_value(prefix) * 10 + d,
                            decimal_value(prefix) * 10 > usize::MAX,
                    ;
                },
            }
        }
        i += 1;
    }
    assert(ds.subrange(0, i - start) =~= ds);
    if overflow {
        None
    } else {
        Some(value)
    }
}

/// Index of the first `c` in `cs` at or after `i` (or `cs.len()`).
fn find_char_exec(cs: &[char], i: usize, c: char) -> (r: usize)
    requires
        i <= cs@.len(),
    ensures
        r == find_char(cs@, i as int, c),
{
    let mut j = i;
    while j < cs.len() && cs[j] != c
        invariant
            i <= j <= cs@.len(),
            find_char(cs@, i as int, c) == find_char(cs@, j as int, c),
        decreases cs@.len() - j,
    {
        j += 1;
    }
    j
}

fn sub_chars(cs: &[char], from: usize, to: usize) -> (r: Vec<char>)
    requires
        from <= to <= cs@.len(),
    ensures
        r@ == cs@.subrange(from as int, to as int),
{
    let mut r: Vec<char> = Vec::new();
    let mut k = from;
    while k < to
        invariant
            from <= k <= to <= cs@.len(),
            r@ == cs@.subrange(from as int, k as int),
        decreases to - k,
    {
        r.push(cs[k]);
        k += 1;
        assert(r@ =~= cs@.subrange(from as int, k as int));
    }
    r
}

/// Parses one `{...}` placeholder body starting just after the opening `{`.
fn parse_placeholder(chars: &Vec<char>, start: usize) -> (r: Result<(FormatPart, usize), FormatError>)
    requires
        start <= chars@.len(),
    ensures
        match r {
            Ok((p, next)) => parse_placeholder_spec(chars@, start as int) == Ok::<(FormatPartV, int), FormatError>((p@, next as int)) && start < next <= chars@.len(),
            Err(e) => parse_placeholder_spec(chars@, start as int) == Err::<(FormatPartV, int), FormatError>(e),
        },
{
    let close = find_char_exec(chars.as_slice(), start, '}');
    proof {
        lemma_find_char(chars@, start as int, '}');
    }
    if close >= chars.len() {
        return Err(FormatError::UnmatchedOpenBrace);
    }
    let body = sub_chars(chars.as_slice(), start, close);
    let colon = find_char_exec(body.as_slice(), 0, ':');
    proof {
        lemma_find_char(body@, 0, ':');
    }
    let index_part = sub_chars(body.as_slice(), 0, colon);
    let argument = if index_part.len() == 0 {
        ArgumentIndex::Implicit
    } else {
        match parse_usize(index_part.as_slice()) {
            Some(n) => ArgumentIndex::Explicit(n),
            None => {
                return Err(FormatError::UnmatchedOpenBrace);
            },
        }
    };
    let spec_part: Vec<char> = if colon < body.len() {
        sub_chars(body.as_slice(), colon + 1, body.len())
    } else {
        Vec::new()
    };
    let spec = parse_format_spec(&spec_part)?;
    Ok((FormatPart::Placeholder { argument, spec }, close + 1))
}

/// End of the digit run starting at `i`.
fn digit_run_end_exec(cs: &Vec<char>, i: usize) -> (r: usize)
    requires
        i <= cs@.len(),
    ensures
        r == digit_run_end(cs@, i as int),
        i <= r <= cs@.len(),
{
    let mut j = i;
    while j < cs.len() && '0' <= cs[j] && cs[j] <= '9'
        invariant
            i <= j <= cs@.len(),
            digit_run_end(cs@, i as int) == digit_run_end(cs@, j as int),
        decreases cs@.len() - j,
    {
        j += 1;
    }
    j
}

fn alignment_from_char(c: char) -> (r: Alignment)
    ensures
        r == alignment_of(c),
{
    if c == '<' {
        Alignment::Left
    } else if c == '>' {
        Alignment::Right
    } else {
        Alignment::Center
    }
}

fn is_alignment(c: char) -> (r: bool)
    ensures
        r == is_alignment_char(c),
{
    c == '<' || c == '>' || c == '^'
}

/// Parses a format spec body, following `[[fill]align][sign][#][0][width][type]`.
fn parse_format_spec(chars: &Vec<char>) -> (r: Result<FormatSpec, FormatError>)
    ensures
        match r {
            Ok(s) => parse_spec(chars@) == Ok::<FormatSpec, FormatError>(s),
            Err(e) => parse_spec(chars@) == Err::<FormatSpec, FormatError>(e),
        },
{
    let mut result = FormatSpec::default();
    let mut i: usize = 0;
    if chars.len() >= 2 && is_alignment(chars[1]) {
        result.fill = chars[0];
        result.alignment = Some(alignment_from_char(chars[1]));
        i = 2;
    } else if chars.len() >= 1 && is_alignment(chars[0]) {
        result.alignment = Some(alignment_from_char(chars[0]));
        i = 1;
    }
    let ghost i0 = i;
    let ghost r0 = result;
    assert(parse_spec(chars@) == parse_spec_tail(chars@, i0 as int, r0));
    if i < chars.len() && chars[i] == '+' {
        result.show_sign = true;
        i += 1;
    }
    if i < chars.len() && chars[i] == '#' {
        result.alternate = true;
        i += 1;
    }
    if i < chars.len() && chars[i] == '0' {
        result.zero_pad = true;
        i += 1;
    }
    let width_start = i;
    i = digit_run_end_exec(chars, i);
    if i > width_start {
        let w = sub_chars(chars.as_slice(), width_start, i);
        result.width = parse_usize(w.as_slice());
    }
    if i < chars.len() {
        let type_char = chars[i];
        i += 1;
        result.format_type = if type_char == 'b' {
            FormatType::Binary
        } else if type_char == 'o' {
            FormatType::Octal
        } else if type_char == 'x' {
            FormatType::LowerHex
        } else if type_char == 'X' {
            FormatType::UpperHex
        } else {
            return Err(FormatError::UnsupportedFormatType { type_char });
        };
    }
    if i != chars.len() {
        let type_char = chars[i];
        return Err(FormatError::UnsupportedFormatType { type_char });
    }
    Ok(result)
}

// ---------------------------------------------------------------------
// Rendering.
// ---------------------------------------------------------------------

/// Why rendering failed: a placeholder had no argument, a value cannot be
/// formatted with a placeholder's spec (format label, value type), or an
/// argument was never used.
pub enum RenderErr {
    Missing(usize),
    Mismatch(Seq<char>, Seq<char>),
    Unused(usize),
}

/// How a rendering failure appears as a `FormatError`.
pub open spec fn render_error_is(re: RenderErr, e: FormatError) -> bool {
    match (re, e) {
        (RenderErr::Missing(i), FormatError::MissingArgument { index }) => i == index,
        (RenderErr::Unused(i), FormatError::UnusedArgument { index }) => i == index,
        (RenderErr::Mismatch(a, b), FormatError::TypeMismatch { format_type, value_type }) => a == format_type@ && b == value_type@,
        _ => false,
    }
}

pub open spec fn format_type_label_spec(t: FormatType) -> Seq<char> {
    match t {
        FormatType::Display => seq!['{', '}'],
        FormatType::Binary => seq!['b'],
        FormatType::Octal => seq!['o'],
        FormatType::LowerHex => seq!['x'],
        FormatType::UpperHex => seq!['X'],
    }
}

/// `n` copies of `c`.
pub open spec fn fill_run(c: char, n: nat) -> Seq<char> {
    Seq::new(n, |_k: int| c)
}

/// `body` padded with `pad` fill characters on the side(s) the spec's
/// alignment (or `default`) calls for; center alignment puts the odd
/// character on the right.
pub open spec fn aligned(body: Seq<char>, pad: nat, spec: FormatSpec, default: Alignment) -> Seq<char> {
    let alignment = match spec.alignment {
        Some(a) => a,
        None => default,
    };
    match alignment {
        Alignment::Left => body + fill_run(spec.fill, pad),
        Alignment::Right => fill_run(spec.fill, pad) + body,
        Alignment::Center => fill_run(spec.fill, pad / 2) + body + fill_run(spec.fill, (pad - pad / 2) as nat),
    }
}

/// Text with only width, alignment (default left) and fill applied.
pub open spec fn render_plain_spec(text: Seq<char>, spec: FormatSpec) -> Seq<char> {
    match spec.width {
        Some(w) => if w > text.len() { aligned(text, (w - text.len()) as nat, spec, Alignment::Left) } else { text },
        None => text,
    }
}

/// The two's-complement bit pattern of `v`, as an unsigned number.
pub open spec fn int_bits(v: i64) -> nat {
    if v < 0 {
        (v + 0x1_0000_0000_0000_0000) as nat
    } else {
        v as nat
    }
}

/// Sign, radix prefix and digits of an integer under a spec. Non-decimal
/// radixes print the two's-complement bit pattern, never a `-`.
pub open spec fn int_pieces(v: i64, spec: FormatSpec) -> (Seq<char>, Seq<char>, Seq<char>) {
    match spec.format_type {
        FormatType::Display => {
            let sign = if v < 0 { seq!['-'] } else if spec.show_sign { seq!['+'] } else { Seq::empty() };
            let magnitude: nat = if v < 0 { (-v) as nat } else { v as nat };
            (sign, Seq::empty(), radix_digits(magnitude, 10, false))
        },
        t => {
            let sign = if spec.show_sign { seq!['+'] } else { Seq::empty() };
            let (radix, prefix, upper): (nat, Seq<char>, bool) = match t {
                FormatType::Binary => (2, seq!['0', 'b'], false),
                FormatType::Octal => (8, seq!['0', 'o'], false),
                FormatType::LowerHex => (16, seq!['0', 'x'], false),
                _ => (16, seq!['0', 'x'], true),
            };
            (sign, if spec.alternate { prefix } else { Seq::empty() }, radix_digits(int_bits(v), radix, upper))
        },
    }
}

/// An integer rendered under a spec. Zero-padding without an explicit
/// alignment puts the zeros between sign/prefix and digits; otherwise
/// padding is fill characters, right-aligned by default.
pub open spec fn render_int_spec(v: i64, spec: FormatSpec) -> Seq<char> {
    let (sign, prefix, digits) = int_pieces(v, spec);
    let body = sign + prefix + digits;
    match spec.width {
        Some(w) => if w > body.len() {
            if spec.zero_pad && spec.alignment is None {
                sign + prefix + fill_run('0', (w - body.len()) as nat) + digits
            } else {
                aligned(body, (w - body.len()) as nat, spec, Alignment::Right)
            }
        } else {
            body
        },
        None => body,
    }
}

/// One value rendered under a spec.
pub open spec fn render_value_spec(v: ValueV, spec: FormatSpec) -> Result<Seq<char>, RenderErr> {
    match v {
        ValueV::Int(n) => Ok(render_int_spec(n, spec)),
        ValueV::Bool(b) => Ok(render_plain_spec(if b { seq!['t', 'r', 'u', 'e'] } else { seq!['f', 'a', 'l', 's', 'e'] }, spec)),
        ValueV::String(s) => if spec.format_type != FormatType::Display || spec.show_sign || spec.alternate || spec.zero_pad {
            Err(RenderErr::Mismatch(format_type_label_spec(spec.format_type), seq!['s', 't', 'r', 'i', 'n', 'g']))
        } else {
            Ok(render_plain_spec(s, spec))
        },
        ValueV::Unit => Ok(render_plain_spec(seq!['(', ')'], spec)),
        _ => Err(RenderErr::Mismatch(format_type_label_spec(spec.format_type), kind_name_v(v))),
    }
}

/// Rendering of parts `k..` with implicit-argument cursor `cursor` and
/// `used` marking the arguments referenced so far: the text produced and
/// the final usage marks.
pub open spec fn render_from(parts: Seq<FormatPartV>, args: Seq<ValueV>, k: int, cursor: int, used: Seq<bool>) -> Result<(Seq<char>, Seq<bool>), RenderErr>
    decreases parts.len() - k,
{
    if k < 0 || k >= parts.len() {
        Ok((Seq::empty(), used))
    } else {
        match parts[k] {
            FormatPartV::Literal(t) => match render_from(parts, args, k + 1, cursor, used) {
                Ok((rest, u)) => Ok((t + rest, u)),
                Err(e) => Err(e),
            },
            FormatPartV::Placeholder { argument, spec } => {
                let (index, next_cursor) = match argument {
                    ArgumentIndex::Implicit => (cursor, cursor + 1),
                    ArgumentIndex::Explicit(i) => (i as int, cursor),
                };
                if index >= args.len() {
                    Err(RenderErr::Missing(index as usize))
                } else {
                    match render_value_spec(args[index], spec) {
                        Err(e) => Err(e),
                        Ok(text) => match render_from(parts, args, k + 1, next_cursor, used.update(index, true)) {
                            Ok((rest, u)) => Ok((text + rest, u)),
                            Err(e) => Err(e),
                        },
                    }
                }
            },
        }
    }
}

/// Index of the first unused argument, if any.
pub open spec fn first_unused(used: Seq<bool>) -> Option<int> {
    if exists|i: int| 0 <= i < used.len() && !used[i] {
        Some(choose|i: int| 0 <= i < used.len() && !used[i] && forall|j: int| 0 <= j < i ==> used[j])
    } else {
        None
    }
}

/// Parts rendered against arguments: every placeholder needs an argument
/// (implicit ones take the next in order, explicit ones name an index and
/// leave the implicit order alone), and every argument must be used.
pub open spec fn render_spec(parts: Seq<FormatPartV>, args: Seq<ValueV>) -> Result<Seq<char>, RenderErr> {
    match render_from(parts, args, 0, 0, Seq::new(args.len(), |_i: int| false)) {
        Err(e) => Err(e),
        Ok((text, used)) => match first_unused(used) {
            Some(i) => Err(RenderErr::Unused(i as usize)),
            None => Ok(text),
        },
    }
}

pub proof fn lemma_render_from_used_len(parts: Seq<FormatPartV>, args: Seq<ValueV>, k: int, cursor: int, used: Seq<bool>)
    requires
        used.len() == args.len(),
        cursor >= 0,
    ensures
        render_from(parts, args, k, cursor, used) matches Ok((_, u)) ==> u.len() == used.len(),
    decreases parts.len() - k,
{
    if 0 <= k < parts.len() {
        match parts[k] {
            FormatPartV::Literal(t) => {
                lemma_render_from_used_len(parts, args, k + 1, cursor, used);
            },
            FormatPartV::Placeholder { argument, spec } => {
                let (index, next_cursor) = match argument {
                    ArgumentIndex::Implicit => (cursor, cursor + 1),
                    ArgumentIndex::Explicit(i) => (i as int, cursor),
                };
                if 0 <= index < args.len() {
                    lemma_render_from_used_len(parts, args, k + 1, next_cursor, used.update(index, true));
                }
            },
        }
    }
}

/// Renders parsed format parts against the given argument values.
pub fn render(parts: &[FormatPart], args: &[Value]) -> (r: Result<String, FormatError>)
    ensures
        match r {
            Ok(s) => render_spec(parts_view(parts@), values_view_all(args@)) == Ok::<Seq<char>, RenderErr>(s@),
            Err(e) => render_spec(parts_view(parts@), values_view_all(args@)) matches Err(re) && render_error_is(re, e),
        },
{
    let ghost pv = parts_view(parts@);
    let ghost av = values_view_all(args@);
    proof {
        lemma_values_view_all(args@);
    }
    let mut output: Vec<char> = Vec::new();
    let mut implicit_cursor: usize = 0;
    let mut used: Vec<bool> = Vec::new();
    let mut a: usize = 0;
    while a < args.len()
        invariant
            a <= args@.len(),
            used@ == Seq::new(a as nat, |_i: int| false),
        decreases args@.len() - a,
    {
        used.push(false);
        a += 1;
        assert(used@ =~= Seq::new(a as nat, |_i: int| false));
    }
    let ghost init = used@;
    let mut k: usize = 0;
    while k < parts.len()
        invariant
            pv == parts_view(parts@),
            k <= parts@.len(),
            implicit_cursor <= k,
            used@.len() == args@.len(),
            av == values_view_all(args@),
            av.len() == args@.len(),
            forall|q: int| 0 <= q < args@.len() ==> #[trigger] av[q] == args@[q]@,
            init == Seq::new(args@.len(), |_i: int| false),
            render_from(pv, av, 0, 0, init) == match render_from(pv, av, k as int, implicit_cursor as int, used@) {
                Ok((rest, u)) => Ok::<(Seq<char>, Seq<bool>), RenderErr>((output@ + rest, u)),
                Err(e) => Err(e),
            },
        decreases parts@.len() - k,
    {
        assert(pv[k as int] == parts@[k as int]@);
        match &parts[k] {
            FormatPart::Literal(text) => {
                let ghost before = output@;
                let tc = str_chars(text.as_str());
                push_all(&mut output, tc.as_slice());
                proof {
                    match render_from(pv, av, k + 1, implicit_cursor as int, used@) {
                        Ok((rest, u)) => {
                            assert(before + (text@ + rest) =~= output@ + rest);
                        },
                        Err(e) => {},
                    }
                }
            },
            FormatPart::Placeholder { argument, spec } => {
                let index = match argument {
                    ArgumentIndex::Implicit => {
                        let idx = implicit_cursor;
                        implicit_cursor += 1;
                        idx
                    },
                    ArgumentIndex::Explicit(idx) => *idx,
                };
                if index >= args.len() {
                    return Err(FormatError::MissingArgument { index });
                }
                used.set(index, true);
                let ghost before = output@;
                match render_value(&args[index], spec, &mut output) {
                    Err(e) => {
                        return Err(e);
                    },
                    Ok(()) => {},
                }
                proof {
                    let text = ok_text(render_value_spec(av[index as int], *spec));
                    match render_from(pv, av, k + 1, implicit_cursor as int, used@) {
                        Ok((rest, u)) => {
                            assert(before + (text + rest) =~= output@ + rest);
                        },
                        Err(e) => {},
                    }
                }
            },
        }
        k += 1;
    }
    proof {
        assert(output@ + Seq::<char>::empty() =~= output@);
        lemma_render_from_used_len(pv, av, 0, 0, init);
        assert(render_from(pv, av, 0, 0, init) == Ok::<(Seq<char>, Seq<bool>), RenderErr>((output@, used@)));
    }
    let mut j: usize = 0;
    while j < used.len()
        invariant
            pv == parts_view(parts@),
            init == Seq::new(args@.len(), |_i: int| false),
            av == values_view_all(args@),
            av.len() == args@.len(),
            render_from(pv, av, 0, 0, init) == Ok::<(Seq<char>, Seq<bool>), RenderErr>((output@, used@)),
            j <= used@.len(),
            forall|i: int| 0 <= i < j ==> used@[i],
        decreases used@.len() - j,
    {
        if !used[j] {
            proof {
                assert(!used@[j as int]);
                let c = choose|i: int| 0 <= i < used@.len() && !used@[i] && forall|jj: int| 0 <= jj < i ==> used@[jj];
                assert(c == j) by {
                    if c < j {
                        assert(used@[c]);
                    } else if c > j {
                        assert(used@[j as int]);
                    }
                }
            }
            return Err(FormatError::UnusedArgument { index: j });
        }
        j += 1;
    }
    Ok(string_from_chars(output.as_slice()))
}

/// The text of a successful rendering.
pub open spec fn ok_text(r: Result<Seq<char>, RenderErr>) -> Seq<char> {
    match r {
        Ok(t) => t,
        Err(_) => Seq::empty(),
    }
}

/// Appends one rendered value to `output`.
fn render_value(value: &Value, spec: &FormatSpec, output: &mut Vec<char>) -> (r: Result<(), FormatError>)
    ensures
        match r {
            Ok(()) => render_value_spec(value@, *spec) is Ok && final(output)@ == old(output)@ + ok_text(render_value_spec(value@, *spec)),
            Err(e) => render_value_spec(value@, *spec) matches Err(re) && render_error_is(re, e),
        },
{
    match value {
        Value::Int(n) => {
            render_int(*n, spec, output);
            Ok(())
        },
        Value::Bool(b) => {
            let text: Vec<char> = if *b {
                let v = str_chars("true");
                proof {
                    reveal_strlit("true");
                    assert("true"@ =~= seq!['t', 'r', 'u', 'e']);
                }
                v
            } else {
                let v = str_chars("false");
                proof {
                    reveal_strlit("false");
                    assert("false"@ =~= seq!['f', 'a', 'l', 's', 'e']);
                }
                v
            };
            render_plain(&text, spec, output);
            Ok(())
        },
        Value::String(s) => {
            if spec.format_type != FormatType::Display || spec.show_sign || spec.alternate || spec.zero_pad {
                let label = format_type_label(spec.format_type);
                proof {
                    reveal_strlit("string");
                    assert("string"@ =~= seq!['s', 't', 'r', 'i', 'n', 'g']);
                }
                return Err(FormatError::TypeMismatch { format_type: label, value_type: "string" });
            }
            let text = str_chars(s.as_str());
            render_plain(&text, spec, output);
            Ok(())
        },
        Value::Unit => {
            let mut text: Vec<char> = Vec::new();
            text.push('(');
            text.push(')');
            assert(text@ =~= seq!['(', ')']);
            render_plain(&text, spec, output);
            Ok(())
        },
        _ => Err(FormatError::TypeMismatch { format_type: format_type_label(spec.format_type), value_type: value.kind_name() }),
    }
}

fn format_type_label(t: FormatType) -> (r: &'static str)
    ensures
        r@ == format_type_label_spec(t),
{
    match t {
        FormatType::Display => {
            proof {
                reveal_strlit("{}");
                assert("{}"@ =~= seq!['{', '}']);
            }
            "{}"
        },
        FormatType::Binary => {
            proof {
                reveal_strlit("b");
                assert("b"@ =~= seq!['b']);
            }
            "b"
        },
        FormatType::Octal => {
            proof {
                reveal_strlit("o");
                assert("o"@ =~= seq!['o']);
            }
            "o"
        },
        FormatType::LowerHex => {
            proof {
                reveal_strlit("x");
                assert("x"@ =~= seq!['x']);
            }
            "x"
        },
        FormatType::UpperHex => {
            proof {
                reveal_strlit("X");
                assert("X"@ =~= seq!['X']);
            }
            "X"
        },
    }
}

/// Appends `n` copies of `c`.
fn push_fill(output: &mut Vec<char>, c: char, n: usize)
    ensures
        final(output)@ == old(output)@ + fill_run(c, n as nat),
{
    let mut k: usize = 0;
    while k < n
        invariant
            k <= n,
            output@ == old(output)@ + fill_run(c, k as nat),
        decreases n - k,
    {
        output.push(c);
        k += 1;
        assert(output@ =~= old(output)@ + fill_run(c, k as nat));
    }
}

/// Writes `body` into `output`, distributing `pad` fill characters
/// according to the spec's alignment (or `default_alignment`).
fn push_aligned(output: &mut Vec<char>, body: &Vec<char>, pad: usize, spec: &FormatSpec, default_alignment: Alignment)
    ensures
        final(output)@ == old(output)@ + aligned(body@, pad as nat, *spec, default_alignment),
{
    let alignment = match spec.alignment {
        Some(a) => a,
        None => default_alignment,
    };
    match alignment {
        Alignment::Left => {
            push_all(output, body.as_slice());
            push_fill(output, spec.fill, pad);
            assert(output@ =~= old(output)@ + aligned(body@, pad as nat, *spec, default_alignment));
        },
        Alignment::Right => {
            push_fill(output, spec.fill, pad);
            push_all(output, body.as_slice());
            assert(output@ =~= old(output)@ + aligned(body@, pad as nat, *spec, default_alignment));
        },
        Alignment::Center => {
            let left = pad / 2;
            let right = pad - left;
            push_fill(output, spec.fill, left);
            push_all(output, body.as_slice());
            push_fill(output, spec.fill, right);
            assert(output@ =~= old(output)@ + aligned(body@, pad as nat, *spec, default_alignment));
        },
    }
}

/// Renders text with only width/alignment/fill applied.
fn render_plain(text: &Vec<char>, spec: &FormatSpec, output: &mut Vec<char>)
    ensures
        final(output)@ == old(output)@ + render_plain_spec(text@, *spec),
{
    let len = text.len();
    match spec.width {
        Some(width) => {
            if width > len {
                push_aligned(output, text, width - len, spec, Alignment::Left);
            } else {
                push_all(output, text.as_slice());
            }
        },
        None => {
            push_all(output, text.as_slice());
        },
    }
}

/// Appends an integer rendered under `spec`.
#[verifier::spinoff_prover]
#[verifier::rlimit(40)]
fn render_int(value: i64, spec: &FormatSpec, output: &mut Vec<char>)
    ensures
        final(output)@ == old(output)@ + render_int_spec(value, *spec),
{
    let mut sign: Vec<char> = Vec::new();
    let mut prefix: Vec<char> = Vec::new();
    let mut digits: Vec<char> = Vec::new();
    match spec.format_type {
        FormatType::Display => {
            if value < 0 {
                sign.push('-');
            } else if spec.show_sign {
                sign.push('+');
            }
            let magnitude: u64 = if value == i64::MIN {
                0x8000_0000_0000_0000u64
            } else if value < 0 {
                (-value) as u64
            } else {
                value as u64
            };
            push_radix_digits(magnitude, 10, false, &mut digits);
        },
        _ => {
            if spec.show_sign {
                sign.push('+');
            }
            let bits: u64 = if value < 0 {
                let shifted: i128 = (value as i128) + 0x1_0000_0000_0000_0000i128;
                shifted as u64
            } else {
                value as u64
            };
            let (radix, upper): (u64, bool) = match spec.format_type {
                FormatType::Binary => (2, false),
                FormatType::Octal => (8, false),
                FormatType::LowerHex => (16, false),
                _ => (16, true),
            };
            if spec.alternate {
                prefix.push('0');
                prefix.push(match spec.format_type {
                    FormatType::Binary => 'b',
                    FormatType::Octal => 'o',
                    _ => 'x',
                });
            }
            push_radix_digits(bits, radix, upper, &mut digits);
        },
    }
    let ghost pieces = int_pieces(value, *spec);
    assert(sign@ =~= pieces.0);
    assert(prefix@ =~= pieces.1);
    assert(digits@ =~= pieces.2);
    let mut body: Vec<char> = Vec::new();
    push_all(&mut body, sign.as_slice());
    push_all(&mut body, prefix.as_slice());
    push_all(&mut body, digits.as_slice());
    assert(body@ =~= pieces.0 + pieces.1 + pieces.2);
    let body_len = body.len();
    match spec.width {
        Some(width) => {
            if width > body_len && spec.zero_pad && spec.alignment.is_none() {
                push_all(output, sign.as_slice());
                push_all(output, prefix.as_slice());
                push_fill(output, '0', width - body_len);
                push_all(output, digits.as_slice());
                assert(output@ =~= old(output)@ + render_int_spec(value, *spec));
            } else if width > body_len {
                push_aligned(output, &body, width - body_len, spec, Alignment::Right);
            } else {
                push_all(output, body.as_slice());
            }
        },
        None => {
            push_all(output, body.as_slice());
        },
    }
}

} // verus!
