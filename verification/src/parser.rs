//! The reader's parser: turns tokens into generic S-expressions. It knows
//! only parentheses and atoms; `fn`, `let` and the other forms get their
//! meaning later.
use vstd::prelude::*;
use crate::ast::{exprs_view, lemma_exprs_view_push, Expr, ExprKind, ExprKindV, ExprV};
use crate::error::{LispError, ParseError, Span};
use crate::lexer::{lex, tokenize, tokens_view, LexErrorV, SpannedToken, Token, TokenV};
use crate::text::byte_len;

verus! {

broadcast use vstd::std_specs::vec::group_vec_axioms;

/// Why reading source text failed.
pub enum ReadError {
    Lex(LexErrorV),
    Parse(ParseError),
}

/// The expression a single atom token denotes.
pub open spec fn atom_expr(t: TokenV) -> ExprV {
    ExprV {
        kind: match t {
            TokenV::Int(n) => ExprKindV::Int(n),
            TokenV::Bool(b) => ExprKindV::Bool(b),
            TokenV::Str(s) => ExprKindV::String(s),
            TokenV::Symbol(s) => ExprKindV::Symbol(s),
            _ => ExprKindV::List(Seq::empty()),
        },
        properties: Map::empty(),
    }
}

/// Parses one expression starting at token `pos`; on success gives the
/// expression and the position just after it.
pub open spec fn parse_expr_at(ts: Seq<(TokenV, Span)>, pos: int) -> Result<(ExprV, int), ParseError>
    decreases ts.len() - pos, 0int,
{
    if pos < 0 || pos >= ts.len() {
        Err(ParseError::UnexpectedEof)
    } else {
        match ts[pos].0 {
            TokenV::LParen => parse_list_at(ts, pos + 1, Seq::empty()),
            TokenV::RParen => Err(ParseError::UnmatchedCloseParen { span: ts[pos].1 }),
            t => Ok((atom_expr(t), pos + 1)),
        }
    }
}

/// Parses the rest of a list whose elements so far are `acc`, up to and
/// including its closing parenthesis.
pub open spec fn parse_list_at(ts: Seq<(TokenV, Span)>, pos: int, acc: Seq<ExprV>) -> Result<(ExprV, int), ParseError>
    decreases ts.len() - pos, 1int,
{
    if pos < 0 || pos >= ts.len() {
        Err(ParseError::UnmatchedOpenParen { span: Span { start: 0, end: 0 } })
    } else if ts[pos].0 is RParen {
        Ok((ExprV { kind: ExprKindV::List(acc), properties: Map::empty() }, pos + 1))
    } else {
        match parse_expr_at(ts, pos) {
            Err(e) => Err(e),
            Ok((e, next)) => if pos < next <= ts.len() {
                parse_list_at(ts, next, acc.push(e))
            } else {
                Err(ParseError::UnexpectedEof)
            },
        }
    }
}

/// Every expression from token `pos` to the end.
pub open spec fn parse_all_at(ts: Seq<(TokenV, Span)>, pos: int) -> Result<Seq<ExprV>, ParseError>
    decreases ts.len() - pos,
{
    if pos < 0 || pos >= ts.len() {
        Ok(Seq::empty())
    } else {
        match parse_expr_at(ts, pos) {
            Err(e) => Err(e),
            Ok((e, next)) => if pos < next <= ts.len() {
                match parse_all_at(ts, next) {
                    Ok(rest) => Ok(seq![e] + rest),
                    Err(err) => Err(err),
                }
            } else {
                Err(ParseError::UnexpectedEof)
            },
        }
    }
}

/// Exactly one expression from the token sequence.
pub open spec fn parse_one_tokens(ts: Seq<(TokenV, Span)>) -> Result<ExprV, ParseError> {
    if ts.len() == 0 {
        Err(ParseError::EmptyInput)
    } else {
        match parse_expr_at(ts, 0) {
            Err(e) => Err(e),
            Ok((e, next)) => if next < ts.len() {
                Err(ParseError::ExtraTokensAfterExpression { span: ts[next].1 })
            } else {
                Ok(e)
            },
        }
    }
}

/// What `parse_one` gives for source text.
pub open spec fn read_one(s: Seq<char>) -> Result<ExprV, ReadError> {
    match lex(s) {
        Err(e) => Err(ReadError::Lex(e)),
        Ok(ts) => match parse_one_tokens(ts) {
            Ok(e) => Ok(e),
            Err(e) => Err(ReadError::Parse(e)),
        },
    }
}

/// What `parse_program` gives for source text.
pub open spec fn read_program(s: Seq<char>) -> Result<Seq<ExprV>, ReadError> {
    match lex(s) {
        Err(e) => Err(ReadError::Lex(e)),
        Ok(ts) => match parse_all_at(ts, 0) {
            Ok(es) => Ok(es),
            Err(e) => Err(ReadError::Parse(e)),
        },
    }
}

/// How a reader error appears as a `LispError`.
pub open spec fn read_error_matches(r: ReadError, e: LispError) -> bool {
    match (r, e) {
        (ReadError::Lex(a), LispError::Lex(b)) => a == b@,
        (ReadError::Parse(a), LispError::Parse(b)) => a == b,
        _ => false,
    }
}

pub proof fn lemma_parse_expr_advances(ts: Seq<(TokenV, Span)>, pos: int)
    ensures
        parse_expr_at(ts, pos) matches Ok((_, next)) ==> pos < next <= ts.len(),
    decreases ts.len() - pos, 0int,
{
    if 0 <= pos < ts.len() && ts[pos].0 is LParen {
        lemma_parse_list_advances(ts, pos + 1, Seq::empty());
    }
}

pub proof fn lemma_parse_list_advances(ts: Seq<(TokenV, Span)>, pos: int, acc: Seq<ExprV>)
    ensures
        parse_list_at(ts, pos, acc) matches Ok((_, next)) ==> pos < next <= ts.len(),
    decreases ts.len() - pos, 1int,
{
    if 0 <= pos < ts.len() && !(ts[pos].0 is RParen) {
        lemma_parse_expr_advances(ts, pos);
        if let Ok((e, next)) = parse_expr_at(ts, pos) {
            if next > pos {
                lemma_parse_list_advances(ts, next, acc.push(e));
            }
        }
    }
}

fn token_to_expr(t: &Token) -> (r: Expr)
    requires
        !(t@ is LParen),
        !(t@ is RParen),
    ensures
        r@ == atom_expr(t@),
{
    match t {
        Token::Int(n) => Expr::integer(*n),
        Token::Bool(b) => Expr::bool(*b),
        Token::String(s) => Expr::string(s.as_str()),
        Token::Symbol(s) => Expr::symbol(s.as_str()),
        _ => Expr::list(Vec::new()),
    }
}

/// Parses one expression at token `pos`, returning it and the next position.
fn parse_expr(ts: &Vec<SpannedToken>, pos: usize) -> (r: Result<(Expr, usize), ParseError>)
    ensures
        match r {
            Ok((e, next)) => parse_expr_at(tokens_view(ts@), pos as int) == Ok::<(ExprV, int), ParseError>((e@, next as int)),
            Err(e) => parse_expr_at(tokens_view(ts@), pos as int) == Err::<(ExprV, int), ParseError>(e),
        },
    decreases ts@.len() - pos, 0int,
{
    let ghost tv = tokens_view(ts@);
    if pos >= ts.len() {
        return Err(ParseError::UnexpectedEof);
    }
    assert(tv[pos as int] == ts@[pos as int]@);
    match &ts[pos].token {
        Token::LParen => parse_list(ts, pos + 1),
        Token::RParen => Err(ParseError::UnmatchedCloseParen { span: ts[pos].span }),
        t => Ok((token_to_expr(t), pos + 1)),
    }
}

/// Parses list elements from `start` up to and including the closing parenthesis.
fn parse_list(ts: &Vec<SpannedToken>, start: usize) -> (r: Result<(Expr, usize), ParseError>)
    ensures
        match r {
            Ok((e, next)) => parse_list_at(tokens_view(ts@), start as int, Seq::empty()) == Ok::<(ExprV, int), ParseError>((e@, next as int)),
            Err(e) => parse_list_at(tokens_view(ts@), start as int, Seq::empty()) == Err::<(ExprV, int), ParseError>(e),
        },
    decreases ts@.len() - start, 1int,
{
    let ghost tv = tokens_view(ts@);
    let mut items: Vec<Expr> = Vec::new();
    let mut pos = start;
    while pos < ts.len()
        invariant
            tv == tokens_view(ts@),
            start <= pos,
            parse_list_at(tv, start as int, Seq::empty()) == parse_list_at(tv, pos as int, exprs_view(items@, items@.len() as int)),
        decreases ts@.len() - pos,
    {
        assert(tv[pos as int] == ts@[pos as int]@);
        if let Token::RParen = ts[pos].token {
            let e = Expr::list(items);
            return Ok((e, pos + 1));
        }
        proof {
            lemma_parse_expr_advances(tv, pos as int);
        }
        match parse_expr(ts, pos) {
            Err(e) => {
                return Err(e);
            },
            Ok((e, next)) => {
                proof {
                    lemma_exprs_view_push(items@, e);
                }
                items.push(e);
                pos = next;
            },
        }
    }
    Err(ParseError::UnmatchedOpenParen { span: Span::new(0, 0) })
}

/// Parses exactly one top-level expression. Errors if the input is empty
/// or contains more than one expression.
pub fn parse_one(source: &str) -> (r: Result<Expr, LispError>)
    requires
        byte_len(source@) <= usize::MAX,
    ensures
        match r {
            Ok(e) => read_one(source@) == Ok::<ExprV, ReadError>(e@),
            Err(e) => read_one(source@) matches Err(re) && read_error_matches(re, e),
        },
{
    let tokens = match tokenize(source) {
        Ok(t) => t,
        Err(e) => {
            return Err(LispError::Lex(e));
        },
    };
    if tokens.len() == 0 {
        return Err(LispError::Parse(ParseError::EmptyInput));
    }
    match parse_expr(&tokens, 0) {
        Err(e) => Err(LispError::Parse(e)),
        Ok((expr, next)) => {
            if next < tokens.len() {
                assert(tokens_view(tokens@)[next as int] == tokens@[next as int]@);
                Err(LispError::Parse(ParseError::ExtraTokensAfterExpression { span: tokens[next].span }))
            } else {
                Ok(expr)
            }
        },
    }
}

/// Parses every top-level expression in the source, in order.
pub fn parse_program(source: &str) -> (r: Result<Vec<Expr>, LispError>)
    requires
        byte_len(source@) <= usize::MAX,
    ensures
        match r {
            Ok(es) => read_program(source@) == Ok::<Seq<ExprV>, ReadError>(exprs_view(es@, es@.len() as int)),
            Err(e) => read_program(source@) matches Err(re) && read_error_matches(re, e),
        },
{
    let tokens = match tokenize(source) {
        Ok(t) => t,
        Err(e) => {
            return Err(LispError::Lex(e));
        },
    };
    let ghost tv = tokens_view(tokens@);
    let mut exprs: Vec<Expr> = Vec::new();
    let mut pos: usize = 0;
    while pos < tokens.len()
        invariant
            tv == tokens_view(tokens@),
            lex(source@) == Ok::<Seq<(TokenV, Span)>, LexErrorV>(tv),
            pos <= tokens@.len(),
            parse_all_at(tv, 0) == match parse_all_at(tv, pos as int) {
                Ok(rest) => Ok::<Seq<ExprV>, ParseError>(exprs_view(exprs@, exprs@.len() as int) + rest),
                Err(e) => Err(e),
            },
        decreases tokens@.len() - pos,
    {
        proof {
            lemma_parse_expr_advances(tv, pos as int);
        }
        match parse_expr(&tokens, pos) {
            Err(e) => {
                assert(parse_all_at(tv, pos as int) == Err::<Seq<ExprV>, ParseError>(e));
                return Err(LispError::Parse(e));
            },
            Ok((e, next)) => {
                let ghost before = exprs_view(exprs@, exprs@.len() as int);
                proof {
                    lemma_exprs_view_push(exprs@, e);
                }
                exprs.push(e);
                proof {
                    match parse_all_at(tv, next as int) {
                        Ok(rest) => {
                            assert(before + (seq![e@] + rest) =~= exprs_view(exprs@, exprs@.len() as int) + rest);
                        },
                        Err(err) => {},
                    }
                }
                pos = next;
            },
        }
    }
    proof {
        let v = exprs_view(exprs@, exprs@.len() as int);
        assert(v + Seq::<ExprV>::empty() =~= v);
    }
    Ok(exprs)
}


/// Whether neither `e` nor anything inside it carries a property.
pub open spec fn without_properties(e: ExprV) -> bool
    decreases e,
{
    &&& e.properties == Map::<Seq<char>, crate::property::PropertyValueV>::empty()
    &&& match e.kind {
        ExprKindV::List(items) => forall|k: int| 0 <= k < items.len() ==> without_properties(#[trigger] items[k]),
        _ => true,
    }
}

proof fn lemma_parsed_without_properties(ts: Seq<(TokenV, Span)>, pos: int)
    ensures
        parse_expr_at(ts, pos) matches Ok((e, _)) ==> without_properties(e),
    decreases ts.len() - pos, 0int,
{
    if 0 <= pos < ts.len() && ts[pos].0 is LParen {
        lemma_list_without_properties(ts, pos + 1, Seq::empty());
    }
}

proof fn lemma_list_without_properties(ts: Seq<(TokenV, Span)>, pos: int, acc: Seq<ExprV>)
    requires
        forall|k: int| 0 <= k < acc.len() ==> without_properties(#[trigger] acc[k]),
    ensures
        parse_list_at(ts, pos, acc) matches Ok((e, _)) ==> without_properties(e),
    decreases ts.len() - pos, 1int,
{
    if 0 <= pos < ts.len() && !(ts[pos].0 is RParen) {
        lemma_parsed_without_properties(ts, pos);
        match parse_expr_at(ts, pos) {
            Ok((e, next)) => {
                if pos < next <= ts.len() {
                    assert forall|k: int| 0 <= k < acc.push(e).len() implies without_properties(#[trigger] acc.push(e)[k]) by {
                        if k < acc.len() {
                            assert(acc.push(e)[k] == acc[k]);
                        }
                    }
                    lemma_list_without_properties(ts, next, acc.push(e));
                }
            },
            Err(_) => {},
        }
    }
}

proof fn lemma_all_without_properties(ts: Seq<(TokenV, Span)>, pos: int)
    ensures
        parse_all_at(ts, pos) matches Ok(es) ==> forall|k: int| 0 <= k < es.len() ==> without_properties(#[trigger] es[k]),
    decreases ts.len() - pos,
{
    if 0 <= pos < ts.len() {
        lemma_parsed_without_properties(ts, pos);
        match parse_expr_at(ts, pos) {
            Ok((e, next)) => {
                if pos < next <= ts.len() {
                    lemma_all_without_properties(ts, next);
                    match parse_all_at(ts, next) {
                        Ok(rest) => {
                            assert forall|k: int| 0 <= k < (seq![e] + rest).len() implies without_properties(#[trigger] (seq![e] + rest)[k]) by {
                                if k > 0 {
                                    assert((seq![e] + rest)[k] == rest[k - 1]);
                                }
                            }
                        },
                        Err(_) => {},
                    }
                }
            },
            Err(_) => {},
        }
    }
}

/// The reader attaches no properties: every expression it reads, and
/// everything inside it, has an empty property set.
pub proof fn law_reader_attaches_no_properties(s: Seq<char>)
    ensures
        read_one(s) matches Ok(e) ==> without_properties(e),
        read_program(s) matches Ok(es) ==> forall|k: int| 0 <= k < es.len() ==> without_properties(#[trigger] es[k]),
{
    match lex(s) {
        Ok(ts) => {
            lemma_parsed_without_properties(ts, 0);
            lemma_all_without_properties(ts, 0);
        },
        Err(_) => {},
    }
}

} // verus!
