//! The built-in functions bound in the initial environment: arithmetic,
//! comparisons and `print`.
use vstd::prelude::*;
use crate::error::{EvalError, FormatError};
use crate::format::{
    parse_format, parse_format_string, parts_view, render, render_error_is, render_spec,
    FormatPartV, RenderErr,
};
use crate::text::{str_eq, str_chars, push_all, radix_digits};
use crate::value::{kind_name_v, lemma_values_view_all, values_view_all, Builtin, Value, ValueV};
use std::rc::Rc;

verus! {

broadcast use vstd::std_specs::vec::group_vec_axioms;

/// The mathematical model of an evaluation failure (texts as character
/// sequences).
pub enum EvalFailure {
    WrongArgCount { expected: usize, got: usize },
    NonIntegerArgument,
    ComparisonTypeMismatch { left: Seq<char>, right: Seq<char> },
    UnorderableType(Seq<char>),
    DivisionByZero,
    IntegerOverflow,
    NonStringFormatArgument,
    FormatParse(FormatError),
    FormatRender(RenderErr),
    UndefinedGlobal(u32),
    NotCallable(Seq<char>),
    NonBooleanCondition(Seq<char>),
    NonIntegerLoopBound,
    ZeroLoopStep,
    LoopCounterOverflow,
    CallDepthExceeded,
    CannotConvertToDatum(Seq<char>),
    InvalidGensymPrefix(Seq<char>),
    GensymIdOverflow,
    Internal,
}

/// How an evaluation failure appears as an `EvalError`.
pub open spec fn eval_error_is(f: EvalFailure, e: EvalError) -> bool {
    match (f, e) {
        (EvalFailure::WrongArgCount { expected: a, got: b }, EvalError::WrongArgCount { expected, got }) => a == expected && b == got,
        (EvalFailure::NonIntegerArgument, EvalError::NonIntegerArgument) => true,
        (EvalFailure::ComparisonTypeMismatch { left: a, right: b }, EvalError::ComparisonTypeMismatch { left, right }) => a == left@ && b == right@,
        (EvalFailure::UnorderableType(a), EvalError::UnorderableType(t)) => a == t@,
        (EvalFailure::DivisionByZero, EvalError::DivisionByZero) => true,
        (EvalFailure::IntegerOverflow, EvalError::IntegerOverflow) => true,
        (EvalFailure::NonStringFormatArgument, EvalError::NonStringFormatArgument) => true,
        (EvalFailure::FormatParse(a), EvalError::Format(b)) => a == b,
        (EvalFailure::FormatRender(a), EvalError::Format(b)) => render_error_is(a, b),
        (EvalFailure::UndefinedGlobal(id), EvalError::UndefinedSymbol(t)) => t@ == seq!['@'] + radix_digits(id as nat, 10, false),
        (EvalFailure::NotCallable(a), EvalError::NotCallable(t)) => a == t@,
        (EvalFailure::NonBooleanCondition(a), EvalError::NonBooleanCondition(t)) => a == t@,
        (EvalFailure::NonIntegerLoopBound, EvalError::NonIntegerLoopBound) => true,
        (EvalFailure::ZeroLoopStep, EvalError::ZeroLoopStep) => true,
        (EvalFailure::LoopCounterOverflow, EvalError::LoopCounterOverflow) => true,
        (EvalFailure::CallDepthExceeded, EvalError::CallDepthExceeded) => true,
        (EvalFailure::CannotConvertToDatum(a), EvalError::CannotConvertToDatum(t)) => a == t@,
        (EvalFailure::InvalidGensymPrefix(a), EvalError::InvalidGensymPrefix(t)) => a == t@,
        (EvalFailure::GensymIdOverflow, EvalError::GensymIdOverflow) => true,
        (EvalFailure::Internal, EvalError::Io { .. }) => true,
        _ => false,
    }
}

/// Checked `+`, `-`, `*` on two integers.
pub open spec fn checked_arith(op: Builtin, a: i64, b: i64) -> Option<i64> {
    let v: int = match op {
        Builtin::Add => a + b,
        Builtin::Sub => a - b,
        _ => a * b,
    };
    if i64::MIN <= v <= i64::MAX {
        Some(v as i64)
    } else {
        None
    }
}

/// Truncating division and remainder (the sign follows the dividend),
/// as Rust's `/` and `%` on `i64` compute them.
pub open spec fn trunc_div(a: int, b: int) -> int {
    let q = (if a < 0 { -a } else { a }) / (if b < 0 { -b } else { b });
    if (a < 0) == (b < 0) {
        q
    } else {
        -q
    }
}

pub open spec fn trunc_rem(a: int, b: int) -> int {
    let r = (if a < 0 { -a } else { a }) % (if b < 0 { -b } else { b });
    if a < 0 {
        -r
    } else {
        r
    }
}

/// Result of applying a builtin other than `print` to its arguments.
pub open spec fn builtin_value(b: Builtin, args: Seq<ValueV>) -> Result<ValueV, EvalFailure> {
    if args.len() != 2 {
        Err(EvalFailure::WrongArgCount { expected: 2, got: args.len() as usize })
    } else {
        match b {
            Builtin::Add | Builtin::Sub | Builtin::Mul => match (args[0], args[1]) {
                (ValueV::Int(x), ValueV::Int(y)) => match checked_arith(b, x, y) {
                    Some(v) => Ok(ValueV::Int(v)),
                    None => Err(EvalFailure::IntegerOverflow),
                },
                (ValueV::Int(_), _) => Err(EvalFailure::NonIntegerArgument),
                _ => Err(EvalFailure::NonIntegerArgument),
            },
            Builtin::Div | Builtin::Rem => match (args[0], args[1]) {
                (ValueV::Int(x), ValueV::Int(y)) => if y == 0 {
                    Err(EvalFailure::DivisionByZero)
                } else if x == i64::MIN && y == -1 {
                    Err(EvalFailure::IntegerOverflow)
                } else if b == Builtin::Div {
                    Ok(ValueV::Int(trunc_div(x as int, y as int) as i64))
                } else {
                    Ok(ValueV::Int(trunc_rem(x as int, y as int) as i64))
                },
                _ => Err(EvalFailure::NonIntegerArgument),
            },
            Builtin::Eq | Builtin::Ne => {
                let equal = match (args[0], args[1]) {
                    (ValueV::Int(x), ValueV::Int(y)) => Some(x == y),
                    (ValueV::Bool(x), ValueV::Bool(y)) => Some(x == y),
                    (ValueV::String(x), ValueV::String(y)) => Some(x == y),
                    (ValueV::Unit, ValueV::Unit) => Some(true),
                    (ValueV::Datum(x), ValueV::Datum(y)) => Some(crate::datum::datum_equal(x, y)),
                    _ => None,
                };
                match equal {
                    Some(e) => Ok(ValueV::Bool(if b == Builtin::Eq { e } else { !e })),
                    None => Err(EvalFailure::ComparisonTypeMismatch { left: kind_name_v(args[0]), right: kind_name_v(args[1]) }),
                }
            },
            Builtin::Lt | Builtin::Le | Builtin::Gt | Builtin::Ge => match (args[0], args[1]) {
                (ValueV::Int(x), ValueV::Int(y)) => Ok(ValueV::Bool(match b {
                    Builtin::Lt => x < y,
                    Builtin::Le => x <= y,
                    Builtin::Gt => x > y,
                    _ => x >= y,
                })),
                _ => Err(EvalFailure::UnorderableType(kind_name_v(args[0]))),
            },
            Builtin::Print => Err(EvalFailure::Internal),
        }
    }
}

/// The comparison builtins on two integers are integer order and
/// equality: `<`, `<=`, `>`, `>=`, `=` and `!=` give whether `x < y`,
/// `x <= y`, `x > y`, `x >= y`, `x == y` and `x != y`.
pub proof fn law_integer_comparisons(x: i64, y: i64)
    ensures
        builtin_value(Builtin::Lt, seq![ValueV::Int(x), ValueV::Int(y)]) == Ok::<ValueV, EvalFailure>(ValueV::Bool(x < y)),
        builtin_value(Builtin::Le, seq![ValueV::Int(x), ValueV::Int(y)]) == Ok::<ValueV, EvalFailure>(ValueV::Bool(x <= y)),
        builtin_value(Builtin::Gt, seq![ValueV::Int(x), ValueV::Int(y)]) == Ok::<ValueV, EvalFailure>(ValueV::Bool(x > y)),
        builtin_value(Builtin::Ge, seq![ValueV::Int(x), ValueV::Int(y)]) == Ok::<ValueV, EvalFailure>(ValueV::Bool(x >= y)),
        builtin_value(Builtin::Eq, seq![ValueV::Int(x), ValueV::Int(y)]) == Ok::<ValueV, EvalFailure>(ValueV::Bool(x == y)),
        builtin_value(Builtin::Ne, seq![ValueV::Int(x), ValueV::Int(y)]) == Ok::<ValueV, EvalFailure>(ValueV::Bool(x != y)),
{
}

/// `=` and `!=` on two values of the same kind compare them: booleans,
/// strings and unit by equality; values of different kinds among integers,
/// booleans and strings cannot be compared.
pub proof fn law_equality_of_plain_values(a: bool, b: bool, s: Seq<char>, t: Seq<char>, x: i64)
    ensures
        builtin_value(Builtin::Eq, seq![ValueV::Bool(a), ValueV::Bool(b)]) == Ok::<ValueV, EvalFailure>(ValueV::Bool(a == b)),
        builtin_value(Builtin::Ne, seq![ValueV::Bool(a), ValueV::Bool(b)]) == Ok::<ValueV, EvalFailure>(ValueV::Bool(a != b)),
        builtin_value(Builtin::Eq, seq![ValueV::String(s), ValueV::String(t)]) == Ok::<ValueV, EvalFailure>(ValueV::Bool(s == t)),
        builtin_value(Builtin::Ne, seq![ValueV::String(s), ValueV::String(t)]) == Ok::<ValueV, EvalFailure>(ValueV::Bool(s != t)),
        builtin_value(Builtin::Eq, seq![ValueV::Unit, ValueV::Unit]) == Ok::<ValueV, EvalFailure>(ValueV::Bool(true)),
        builtin_value(Builtin::Eq, seq![ValueV::Int(x), ValueV::Bool(a)]) is Err,
        builtin_value(Builtin::Eq, seq![ValueV::String(s), ValueV::Int(x)]) is Err,
{
}

/// `+`, `-` and `*` on two integers give the sum, difference and product
/// when it fits in an `i64`, and an overflow error when it does not.
pub proof fn law_integer_arithmetic(x: i64, y: i64)
    ensures
        builtin_value(Builtin::Add, seq![ValueV::Int(x), ValueV::Int(y)]) == (if i64::MIN <= x + y <= i64::MAX {
            Ok::<ValueV, EvalFailure>(ValueV::Int((x + y) as i64))
        } else {
            Err(EvalFailure::IntegerOverflow)
        }),
        builtin_value(Builtin::Sub, seq![ValueV::Int(x), ValueV::Int(y)]) == (if i64::MIN <= x - y <= i64::MAX {
            Ok::<ValueV, EvalFailure>(ValueV::Int((x - y) as i64))
        } else {
            Err(EvalFailure::IntegerOverflow)
        }),
        builtin_value(Builtin::Mul, seq![ValueV::Int(x), ValueV::Int(y)]) == (if i64::MIN <= x * y <= i64::MAX {
            Ok::<ValueV, EvalFailure>(ValueV::Int((x * y) as i64))
        } else {
            Err(EvalFailure::IntegerOverflow)
        }),
{
}

/// `/` and `%` on two integers divide with truncation: for a non-zero
/// divisor (and short of the one overflowing quotient), the quotient `q`
/// and the remainder `r` satisfy `x == q * y + r`, the remainder is smaller
/// than the divisor in magnitude and has the sign of `x` (or is zero). A
/// zero divisor is an error.
pub proof fn law_integer_division(x: i64, y: i64)
    ensures
        y == 0 ==> builtin_value(Builtin::Div, seq![ValueV::Int(x), ValueV::Int(y)]) == Err::<ValueV, EvalFailure>(EvalFailure::DivisionByZero)
            && builtin_value(Builtin::Rem, seq![ValueV::Int(x), ValueV::Int(y)]) == Err::<ValueV, EvalFailure>(EvalFailure::DivisionByZero),
        y != 0 && !(x == i64::MIN && y == -1) ==> (
            builtin_value(Builtin::Div, seq![ValueV::Int(x), ValueV::Int(y)]) matches Ok(ValueV::Int(q))
            && builtin_value(Builtin::Rem, seq![ValueV::Int(x), ValueV::Int(y)]) matches Ok(ValueV::Int(r))
            && x == q * y + r
            && (if r < 0 { -(r as int) } else { r as int }) < (if y < 0 { -(y as int) } else { y as int })
            && (r == 0 || (r < 0) == (x < 0))),
{
    if y != 0 && !(x == i64::MIN && y == -1) {
        let n: int = if x < 0 { -x } else { x as int };
        let d: int = if y < 0 { -y } else { y as int };
        let qq = n / d;
        let rr = n % d;
        vstd::arithmetic::div_mod::lemma_fundamental_div_mod(n, d);
        vstd::arithmetic::div_mod::lemma_mod_pos_bound(n, d);
        crate::expand::lemma_trunc_div_range(x as int, y as int);
        crate::expand::lemma_trunc_rem_range(x as int, y as int);
        let q = trunc_div(x as int, y as int);
        let r = trunc_rem(x as int, y as int);
        assert(n == d * qq + rr);
        assert(q == if (x < 0) == (y < 0) { qq } else { -qq });
        assert(r == if x < 0 { -rr } else { rr });
        assert(x == q * y + r) by (nonlinear_arith)
            requires
                n == d * qq + rr,
                n == (if x < 0 { -x } else { x as int }),
                d == (if y < 0 { -y } else { y as int }),
                q == (if (x < 0) == (y < 0) { qq } else { -qq }),
                r == (if x < 0 { -rr } else { rr }),
        ;
    }
}

/// What `print` writes for its arguments, or why it fails.
pub open spec fn print_spec(args: Seq<ValueV>) -> Result<Seq<char>, EvalFailure> {
    if args.len() == 0 {
        Err(EvalFailure::WrongArgCount { expected: 1, got: 0 })
    } else {
        match args[0] {
            ValueV::String(f) => match parse_format(f) {
                Err(e) => Err(EvalFailure::FormatParse(e)),
                Ok(parts) => match render_spec(parts, args.drop_first()) {
                    Err(e) => Err(EvalFailure::FormatRender(e)),
                    Ok(text) => Ok(text),
                },
            },
            _ => Err(EvalFailure::NonStringFormatArgument),
        }
    }
}

/// Applies `builtin` to `args`. Only `print` touches `output`, and only
/// once its whole text has been rendered successfully.
pub fn apply_builtin(builtin: Builtin, args: &[Value], output: &mut String) -> (r: Result<Value, EvalError>)
    ensures
        builtin == Builtin::Print ==> match print_spec(values_view_all(args@)) {
            Ok(text) => r == Ok::<Value, EvalError>(Value::Unit) && final(output)@ == old(output)@ + text,
            Err(f) => r matches Err(e) && eval_error_is(f, e) && final(output)@ == old(output)@,
        },
        builtin != Builtin::Print ==> final(output)@ == old(output)@ && match builtin_value(builtin, values_view_all(args@)) {
            Ok(v) => r matches Ok(x) && x@ == v,
            Err(f) => r matches Err(e) && eval_error_is(f, e),
        },
{
    proof {
        lemma_values_view_all(args@);
    }
    if let Some(expected) = builtin.arity() {
        if args.len() != expected {
            return Err(EvalError::WrongArgCount { expected, got: args.len() });
        }
    }
    match builtin {
        Builtin::Add | Builtin::Sub | Builtin::Mul => arithmetic(builtin, args),
        Builtin::Div => division(args),
        Builtin::Rem => remainder(args),
        Builtin::Eq | Builtin::Ne => equality(builtin, args),
        Builtin::Lt | Builtin::Le | Builtin::Gt | Builtin::Ge => ordering(builtin, args),
        Builtin::Print => print(args, output),
    }
}

fn equality(op: Builtin, args: &[Value]) -> (r: Result<Value, EvalError>)
    requires
        args@.len() == 2,
        op == Builtin::Eq || op == Builtin::Ne,
    ensures
        match builtin_value(op, values_view_all(args@)) {
            Ok(v) => r matches Ok(x) && x@ == v,
            Err(f) => r matches Err(e) && eval_error_is(f, e),
        },
{
    proof {
        lemma_values_view_all(args@);
    }
    let equal = match (&args[0], &args[1]) {
        (Value::Int(a), Value::Int(b)) => *a == *b,
        (Value::Bool(a), Value::Bool(b)) => *a == *b,
        (Value::String(a), Value::String(b)) => str_eq(a.as_str(), b.as_str()),
        (Value::Unit, Value::Unit) => true,
        (Value::Datum(a), Value::Datum(b)) => crate::datum::data_equal(&**a, &**b),
        (a, b) => {
            return Err(EvalError::ComparisonTypeMismatch { left: a.kind_name(), right: b.kind_name() });
        },
    };
    Ok(Value::Bool(if op == Builtin::Eq { equal } else { !equal }))
}

fn ordering(op: Builtin, args: &[Value]) -> (r: Result<Value, EvalError>)
    requires
        args@.len() == 2,
        op == Builtin::Lt || op == Builtin::Le || op == Builtin::Gt || op == Builtin::Ge,
    ensures
        match builtin_value(op, values_view_all(args@)) {
            Ok(v) => r matches Ok(x) && x@ == v,
            Err(f) => r matches Err(e) && eval_error_is(f, e),
        },
{
    proof {
        lemma_values_view_all(args@);
    }
    match (&args[0], &args[1]) {
        (Value::Int(a), Value::Int(b)) => Ok(Value::Bool(match op {
            Builtin::Lt => *a < *b,
            Builtin::Le => *a <= *b,
            Builtin::Gt => *a > *b,
            _ => *a >= *b,
        })),
        _ => Err(EvalError::UnorderableType(args[0].kind_name())),
    }
}

fn as_int(value: &Value) -> (r: Result<i64, EvalError>)
    ensures
        match *value {
            Value::Int(n) => r == Ok::<i64, EvalError>(n),
            _ => r matches Err(EvalError::NonIntegerArgument),
        },
{
    match value {
        Value::Int(n) => Ok(*n),
        _ => Err(EvalError::NonIntegerArgument),
    }
}

fn arithmetic(op: Builtin, args: &[Value]) -> (r: Result<Value, EvalError>)
    requires
        args@.len() == 2,
        op == Builtin::Add || op == Builtin::Sub || op == Builtin::Mul,
    ensures
        match builtin_value(op, values_view_all(args@)) {
            Ok(v) => r matches Ok(x) && x@ == v,
            Err(f) => r matches Err(e) && eval_error_is(f, e),
        },
{
    proof {
        lemma_values_view_all(args@);
    }
    let a = as_int(&args[0])?;
    let b = as_int(&args[1])?;
    let result = match op {
        Builtin::Add => a.checked_add(b),
        Builtin::Sub => a.checked_sub(b),
        _ => a.checked_mul(b),
    };
    match result {
        Some(v) => Ok(Value::Int(v)),
        None => Err(EvalError::IntegerOverflow),
    }
}

fn division(args: &[Value]) -> (r: Result<Value, EvalError>)
    requires
        args@.len() == 2,
    ensures
        match builtin_value(Builtin::Div, values_view_all(args@)) {
            Ok(v) => r matches Ok(x) && x@ == v,
            Err(f) => r matches Err(e) && eval_error_is(f, e),
        },
{
    proof {
        lemma_values_view_all(args@);
    }
    let a = as_int(&args[0])?;
    let b = as_int(&args[1])?;
    if b == 0 {
        return Err(EvalError::DivisionByZero);
    }
    proof {
        let n: int = if a < 0 { -a } else { a as int };
        let d: int = if b < 0 { -b } else { b as int };
        assert(0 <= n / d <= n) by (nonlinear_arith)
            requires
                n >= 0,
                d >= 1,
        ;
        if d == 1 {
            assert(n / d == n) by (nonlinear_arith)
                requires
                    d == 1,
            ;
        } else {
            assert(n / d <= n / 2) by (nonlinear_arith)
                requires
                    n >= 0,
                    d >= 2,
            ;
        }
    }
    match a.checked_div(b) {
        Some(q) => Ok(Value::Int(q)),
        None => Err(EvalError::IntegerOverflow),
    }
}

fn remainder(args: &[Value]) -> (r: Result<Value, EvalError>)
    requires
        args@.len() == 2,
    ensures
        match builtin_value(Builtin::Rem, values_view_all(args@)) {
            Ok(v) => r matches Ok(x) && x@ == v,
            Err(f) => r matches Err(e) && eval_error_is(f, e),
        },
{
    proof {
        lemma_values_view_all(args@);
    }
    let a = as_int(&args[0])?;
    let b = as_int(&args[1])?;
    if b == 0 {
        return Err(EvalError::DivisionByZero);
    }
    match a.checked_rem(b) {
        Some(m) => Ok(Value::Int(m)),
        None => Err(EvalError::IntegerOverflow),
    }
}

/// `(print format-string argument...)`. Builds the entire text first, so
/// a formatting error never causes a partial write.
fn print(args: &[Value], output: &mut String) -> (r: Result<Value, EvalError>)
    ensures
        match print_spec(values_view_all(args@)) {
            Ok(text) => r == Ok::<Value, EvalError>(Value::Unit) && final(output)@ == old(output)@ + text,
            Err(f) => r matches Err(e) && eval_error_is(f, e) && final(output)@ == old(output)@,
        },
{
    proof {
        lemma_values_view_all(args@);
    }
    if args.len() == 0 {
        return Err(EvalError::WrongArgCount { expected: 1, got: 0 });
    }
    let format_string = match &args[0] {
        Value::String(s) => s,
        _ => {
            return Err(EvalError::NonStringFormatArgument);
        },
    };
    let parts = match parse_format_string(format_string.as_str()) {
        Ok(p) => p,
        Err(e) => {
            return Err(EvalError::Format(e));
        },
    };
    let rest = args.split_at(1).1;
    assert(rest@ =~= args@.drop_first());
    proof {
        lemma_values_view_all(rest@);
        assert(values_view_all(rest@) =~= values_view_all(args@).drop_first());
    }
    let rendered = match render(parts.as_slice(), rest) {
        Ok(t) => t,
        Err(e) => {
            return Err(EvalError::Format(e));
        },
    };
    output.append(rendered.as_str());
    Ok(Value::Unit)
}

/// Every builtin, in binding order.
pub open spec fn all_builtins() -> Seq<Builtin> {
    seq![
        Builtin::Add,
        Builtin::Sub,
        Builtin::Mul,
        Builtin::Div,
        Builtin::Rem,
        Builtin::Eq,
        Builtin::Ne,
        Builtin::Lt,
        Builtin::Le,
        Builtin::Gt,
        Builtin::Ge,
        Builtin::Print,
    ]
}

/// Builds the initial environment bindings for all builtins.
pub fn all() -> (r: Vec<(&'static str, Value)>)
    ensures
        r@.len() == all_builtins().len(),
        forall|i: int| 0 <= i < r@.len() ==> (#[trigger] r@[i]).0@ == all_builtins()[i].spec_name() && r@[i].1 == Value::Builtin(all_builtins()[i]),
{
    let order = [
        Builtin::Add,
        Builtin::Sub,
        Builtin::Mul,
        Builtin::Div,
        Builtin::Rem,
        Builtin::Eq,
        Builtin::Ne,
        Builtin::Lt,
        Builtin::Le,
        Builtin::Gt,
        Builtin::Ge,
        Builtin::Print,
    ];
    assert(order@ =~= all_builtins());
    let mut r: Vec<(&'static str, Value)> = Vec::new();
    let mut i: usize = 0;
    while i < 12
        invariant
            order@ == all_builtins(),
            i <= 12,
            r@.len() == i,
            forall|k: int| 0 <= k < i ==> (#[trigger] r@[k]).0@ == all_builtins()[k].spec_name() && r@[k].1 == Value::Builtin(all_builtins()[k]),
        decreases 12 - i,
    {
        let b = order[i];
        r.push((b.name(), Value::Builtin(b)));
        i += 1;
    }
    r
}


} // verus!
