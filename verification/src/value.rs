//! Runtime values of the language.
use std::rc::Rc;
use vstd::prelude::*;
use crate::ids::FunctionId;
use crate::datum::{datum_text, Datum, DatumV};
use crate::text::{int_decimal, push_i64_decimal, push_str, string_from_chars};

verus! {

/// A built-in function. Builtins are ordinary global values, dispatched by tag.
#[derive(Debug, Clone, Copy, PartialEq, Eq, Structural)]
pub enum Builtin {
    Add,
    Sub,
    Mul,
    Div,
    Rem,
    Eq,
    Ne,
    Lt,
    Le,
    Gt,
    Ge,
    Print,
}

impl Builtin {
    /// The global name each builtin is bound to.
    pub open spec fn spec_name(self) -> Seq<char> {
        match self {
            Builtin::Add => seq!['+'],
            Builtin::Sub => seq!['-'],
            Builtin::Mul => seq!['*'],
            Builtin::Div => seq!['/'],
            Builtin::Rem => seq!['%'],
            Builtin::Eq => seq!['='],
            Builtin::Ne => seq!['!', '='],
            Builtin::Lt => seq!['<'],
            Builtin::Le => seq!['<', '='],
            Builtin::Gt => seq!['>'],
            Builtin::Ge => seq!['>', '='],
            Builtin::Print => seq!['p', 'r', 'i', 'n', 't'],
        }
    }

    pub fn name(self) -> (r: &'static str)
        ensures
            r@ == self.spec_name(),
    {
        match self {
            Builtin::Add => {
                proof {
                    reveal_strlit("+");
                }
                "+"
            },
            Builtin::Sub => {
                proof {
                    reveal_strlit("-");
                }
                "-"
            },
            Builtin::Mul => {
                proof {
                    reveal_strlit("*");
                }
                "*"
            },
            Builtin::Div => {
                proof {
                    reveal_strlit("/");
                }
                "/"
            },
            Builtin::Rem => {
                proof {
                    reveal_strlit("%");
                }
                "%"
            },
            Builtin::Eq => {
                proof {
                    reveal_strlit("=");
                }
                "="
            },
            Builtin::Ne => {
                proof {
                    reveal_strlit("!=");
                }
                "!="
            },
            Builtin::Lt => {
                proof {
                    reveal_strlit("<");
                }
                "<"
            },
            Builtin::Le => {
                proof {
                    reveal_strlit("<=");
                }
                "<="
            },
            Builtin::Gt => {
                proof {
                    reveal_strlit(">");
                }
                ">"
            },
            Builtin::Ge => {
                proof {
                    reveal_strlit(">=");
                }
                ">="
            },
            Builtin::Print => {
                proof {
                    reveal_strlit("print");
                }
                "print"
            },
        }
    }

    /// Fixed argument count, or `None` for `print`, which takes a format
    /// string followed by any number of arguments.
    pub open spec fn spec_arity(self) -> Option<usize> {
        match self {
            Builtin::Print => None,
            _ => Some(2),
        }
    }

    pub fn arity(self) -> (r: Option<usize>)
        ensures
            r == self.spec_arity(),
    {
        match self {
            Builtin::Print => None,
            _ => Some(2),
        }
    }
}

/// A runtime closure: which function to call, plus the values it captured
/// at `MakeClosure` time.
#[derive(Debug, PartialEq)]
pub struct Closure {
    pub function: FunctionId,
    pub captures: Vec<Value>,
}

#[derive(Debug, PartialEq)]
pub enum Value {
    Int(i64),
    Bool(bool),
    String(Rc<String>),
    Unit,
    Builtin(Builtin),
    Closure(Rc<Closure>),
    Datum(Rc<Datum>),
}

/// The mathematical model of a runtime value.
pub enum ValueV {
    Int(i64),
    Bool(bool),
    String(Seq<char>),
    Unit,
    Builtin(Builtin),
    Closure { function: FunctionId, captures: Seq<ValueV> },
    Datum(DatumV),
}

/// Views of the first `n` values of `items`.
pub open spec fn values_view(items: Seq<Value>, n: int) -> Seq<ValueV>
    decreases items, n,
{
    if n <= 0 || n > items.len() {
        Seq::empty()
    } else {
        values_view(items, n - 1).push(items[n - 1].view())
    }
}

/// The views of a whole sequence of values.
pub open spec fn values_view_all(items: Seq<Value>) -> Seq<ValueV> {
    values_view(items, items.len() as int)
}

proof fn lemma_values_view_n(items: Seq<Value>, n: int)
    requires
        0 <= n <= items.len(),
    ensures
        values_view(items, n).len() == n,
        forall|k: int| 0 <= k < n ==> #[trigger] values_view(items, n)[k] == items[k]@,
    decreases n,
{
    if n > 0 {
        lemma_values_view_n(items, n - 1);
    }
}

pub proof fn lemma_values_view_all(items: Seq<Value>)
    ensures
        values_view_all(items).len() == items.len(),
        forall|k: int| 0 <= k < items.len() ==> #[trigger] values_view_all(items)[k] == items[k]@,
{
    lemma_values_view_n(items, items.len() as int);
}

pub proof fn lemma_values_view_push(items: Seq<Value>, v: Value)
    ensures
        values_view_all(items.push(v)) == values_view_all(items).push(v@),
{
    lemma_values_view_all(items);
    lemma_values_view_all(items.push(v));
    assert(values_view_all(items.push(v)) =~= values_view_all(items).push(v@));
}

impl Value {
    pub open spec fn view(&self) -> ValueV
        decreases self, 0int,
    {
        match self {
            Value::Int(n) => ValueV::Int(*n),
            Value::Bool(b) => ValueV::Bool(*b),
            Value::String(s) => ValueV::String((**s)@),
            Value::Unit => ValueV::Unit,
            Value::Builtin(b) => ValueV::Builtin(*b),
            Value::Closure(c) => ValueV::Closure { function: c.function, captures: values_view(c.captures@, c.captures@.len() as int) },
            Value::Datum(d) => ValueV::Datum((**d)@),
        }
    }
}

/// The name of a value's type, as error messages report it.
pub open spec fn kind_name_v(v: ValueV) -> Seq<char> {
    match v {
        ValueV::Int(_) => seq!['i', 'n', 't', 'e', 'g', 'e', 'r'],
        ValueV::Bool(_) => seq!['b', 'o', 'o', 'l', 'e', 'a', 'n'],
        ValueV::String(_) => seq!['s', 't', 'r', 'i', 'n', 'g'],
        ValueV::Unit => seq!['u', 'n', 'i', 't'],
        ValueV::Builtin(_) => seq!['b', 'u', 'i', 'l', 't', 'i', 'n'],
        ValueV::Closure { .. } => seq!['f', 'u', 'n', 'c', 't', 'i', 'o', 'n'],
        ValueV::Datum(_) => seq!['d', 'a', 't', 'u', 'm'],
    }
}

pub open spec fn kind_name_of(v: Value) -> Seq<char> {
    kind_name_v(v@)
}

impl Value {
    pub fn kind_name(&self) -> (r: &'static str)
        ensures
            r@ == kind_name_of(*self),
    {
        match self {
            Value::Int(_) => {
                proof {
                    reveal_strlit("integer");
                }
                "integer"
            },
            Value::Bool(_) => {
                proof {
                    reveal_strlit("boolean");
                }
                "boolean"
            },
            Value::String(_) => {
                proof {
                    reveal_strlit("string");
                }
                "string"
            },
            Value::Unit => {
                proof {
                    reveal_strlit("unit");
                }
                "unit"
            },
            Value::Builtin(_) => {
                proof {
                    reveal_strlit("builtin");
                }
                "builtin"
            },
            Value::Closure(_) => {
                proof {
                    reveal_strlit("function");
                }
                "function"
            },
            Value::Datum(_) => {
                proof {
                    reveal_strlit("datum");
                }
                "datum"
            },
        }
    }

    /// A copy sharing the same reference-counted payload.
    pub fn copy(&self) -> (r: Value)
        ensures
            r == *self,
    {
        match self {
            Value::Int(n) => Value::Int(*n),
            Value::Bool(b) => Value::Bool(*b),
            Value::String(s) => Value::String(Rc::clone(s)),
            Value::Unit => Value::Unit,
            Value::Builtin(b) => Value::Builtin(*b),
            Value::Closure(c) => Value::Closure(Rc::clone(c)),
            Value::Datum(d) => Value::Datum(Rc::clone(d)),
        }
    }
}

impl Clone for Value {
    fn clone(&self) -> (r: Self)
        ensures
            r == *self,
    {
        self.copy()
    }
}

/// How a value prints.
pub open spec fn value_text_v(v: ValueV) -> Seq<char> {
    match v {
        ValueV::Int(n) => int_decimal(n as int),
        ValueV::Bool(b) => if b { "true"@ } else { "false"@ },
        ValueV::String(s) => s,
        ValueV::Unit => "()"@,
        ValueV::Builtin(b) => "<builtin:"@ + b.spec_name() + ">"@,
        ValueV::Closure { .. } => "<fn>"@,
        ValueV::Datum(d) => datum_text(d),
    }
}

pub open spec fn value_text(v: Value) -> Seq<char> {
    value_text_v(v@)
}

impl Value {
    /// The printed form of this value.
    pub fn display_text(&self) -> (r: String)
        ensures
            r@ == value_text(*self),
    {
        let mut out: Vec<char> = Vec::new();
        match self {
            Value::Int(n) => push_i64_decimal(*n, &mut out),
            Value::Bool(b) => {
                if *b {
                    push_str(&mut out, "true");
                } else {
                    push_str(&mut out, "false");
                }
            },
            Value::String(s) => push_str(&mut out, s.as_str()),
            Value::Unit => push_str(&mut out, "()"),
            Value::Builtin(b) => {
                push_str(&mut out, "<builtin:");
                push_str(&mut out, b.name());
                push_str(&mut out, ">");
            },
            Value::Closure(_) => push_str(&mut out, "<fn>"),
            Value::Datum(d) => d.push_text(&mut out),
        }
        proof {
            assert(out@ =~= value_text(*self));
        }
        string_from_chars(out.as_slice())
    }
}

} // verus!
