//! Symbols: ordinary interned names, and generated symbols whose identity
//! is their numeric id alone (the hint only affects how they print).
use vstd::prelude::*;
use crate::text::{push_all, push_u64_decimal, radix_digits, str_chars};

verus! {

#[derive(Debug, Clone, Copy, PartialEq, Eq, Structural, PartialOrd, Ord, Hash)]
pub struct GensymId(pub u64);

#[derive(Debug, Clone)]
pub enum Symbol {
    Interned(String),
    Generated { id: GensymId, hint: Option<String> },
}

/// The mathematical model of a symbol.
pub enum SymbolV {
    Interned(Seq<char>),
    Generated { id: GensymId, hint: Option<Seq<char>> },
}

impl Symbol {
    pub open spec fn view(&self) -> SymbolV {
        match self {
            Symbol::Interned(n) => SymbolV::Interned(n@),
            Symbol::Generated { id, hint } => SymbolV::Generated {
                id: *id,
                hint: match hint {
                    Some(h) => Some(h@),
                    None => None,
                },
            },
        }
    }
}

/// Symbol identity: interned symbols are equal when their names are, and
/// generated symbols when their ids are; the two kinds are never equal.
pub open spec fn same_symbol(a: Symbol, b: Symbol) -> bool {
    match (a, b) {
        (Symbol::Interned(x), Symbol::Interned(y)) => x@ == y@,
        (Symbol::Generated { id: x, .. }, Symbol::Generated { id: y, .. }) => x == y,
        _ => false,
    }
}

impl Symbol {
    pub fn interned(name: &str) -> (r: Self)
        ensures
            r matches Symbol::Interned(n) && n@ == name@,
    {
        Symbol::Interned(name.to_owned())
    }

    pub fn generated(id: GensymId, hint: Option<String>) -> (r: Self)
        ensures
            r == (Symbol::Generated { id, hint }),
    {
        Symbol::Generated { id, hint }
    }

    pub fn as_interned(&self) -> (r: Option<&str>)
        ensures
            match *self {
                Symbol::Interned(n) => r matches Some(s) && s@ == n@,
                Symbol::Generated { .. } => r is None,
            },
    {
        match self {
            Symbol::Interned(name) => Some(name.as_str()),
            Symbol::Generated { .. } => None,
        }
    }

    /// The printed form: the name itself, or `hint__gN` (hint defaulting to `g`).
    pub open spec fn spec_text(self) -> Seq<char> {
        match self {
            Symbol::Interned(n) => n@,
            Symbol::Generated { id, hint } => match hint {
                Some(h) => h@ + seq!['_', '_', 'g'] + radix_digits(id.0 as nat, 10, false),
                None => seq!['g', '_', '_', 'g'] + radix_digits(id.0 as nat, 10, false),
            },
        }
    }

    /// Appends the printed form of this symbol to `out`.
    pub fn push_text(&self, out: &mut Vec<char>)
        ensures
            final(out)@ == old(out)@ + self.spec_text(),
    {
        match self {
            Symbol::Interned(name) => {
                let v = str_chars(name.as_str());
                push_all(out, v.as_slice());
            },
            Symbol::Generated { id, hint } => {
                match hint {
                    Some(h) => {
                        let v = str_chars(h.as_str());
                        push_all(out, v.as_slice());
                    },
                    None => {
                        out.push('g');
                    },
                }
                out.push('_');
                out.push('_');
                out.push('g');
                push_u64_decimal(id.0, out);
                assert(out@ =~= old(out)@ + self.spec_text());
            },
        }
    }

    /// Whether two symbols denote the same identity.
    pub fn same(&self, other: &Symbol) -> (r: bool)
        ensures
            r == same_symbol(*self, *other),
    {
        match (self, other) {
            (Symbol::Interned(a), Symbol::Interned(b)) => crate::text::str_eq(a.as_str(), b.as_str()),
            (Symbol::Generated { id: a, .. }, Symbol::Generated { id: b, .. }) => a.0 == b.0,
            _ => false,
        }
    }

    /// Whether two symbols are spelled alike in every part: kind, name or
    /// id, and hint.
    pub fn same_view(&self, other: &Symbol) -> (r: bool)
        ensures
            r == (self@ == other@),
    {
        match (self, other) {
            (Symbol::Interned(a), Symbol::Interned(b)) => {
                let r = crate::text::str_eq(a.as_str(), b.as_str());
                proof {
                    if !r {
                        assert(self@->Interned_0 != other@->Interned_0);
                    }
                }
                r
            },
            (Symbol::Generated { id: a, hint: ha }, Symbol::Generated { id: b, hint: hb }) => {
                if a.0 != b.0 {
                    return false;
                }
                match (ha, hb) {
                    (None, None) => true,
                    (Some(x), Some(y)) => {
                        let r = crate::text::str_eq(x.as_str(), y.as_str());
                        proof {
                            if !r {
                                assert(self@->Generated_hint->Some_0 != other@->Generated_hint->Some_0);
                            }
                        }
                        r
                    },
                    _ => false,
                }
            },
            _ => false,
        }
    }

    /// A copy of this symbol.
    pub fn copy(&self) -> (r: Symbol)
        ensures
            r == *self,
            r@ == self@,
    {
        match self {
            Symbol::Interned(n) => Symbol::Interned(n.clone()),
            Symbol::Generated { id, hint } => Symbol::Generated {
                id: *id,
                hint: match hint {
                    Some(h) => Some(h.clone()),
                    None => None,
                },
            },
        }
    }
}

impl PartialEq for Symbol {
    fn eq(&self, other: &Self) -> (r: bool) {
        match (self, other) {
            (Symbol::Interned(a), Symbol::Interned(b)) => crate::text::str_eq(a.as_str(), b.as_str()),
            (Symbol::Generated { id: a, .. }, Symbol::Generated { id: b, .. }) => a.0 == b.0,
            _ => false,
        }
    }
}

impl vstd::std_specs::cmp::PartialEqSpecImpl for Symbol {
    open spec fn obeys_eq_spec() -> bool {
        true
    }

    open spec fn eq_spec(&self, other: &Self) -> bool {
        same_symbol(*self, *other)
    }
}

impl Eq for Symbol {

}

} // verus!
