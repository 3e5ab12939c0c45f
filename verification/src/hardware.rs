//! Backend-independent hardware IR: lowering from `module` forms, design
//! checks, and conservative SystemVerilog emission.
use vstd::prelude::*;
use crate::ast::{exprs_view, lemma_exprs_view_all, Expr, ExprKind, ExprKindV, ExprV};
use crate::property::{property_value_of, Properties, PropertyValue, PropertyValueV};
use crate::text::{push_str, push_u64_decimal, str_eq};

verus! {

broadcast use vstd::std_specs::vec::group_vec_axioms;

#[derive(Debug, PartialEq, Eq)]
pub enum HardwareError {
    InvalidModule,
    DuplicateModule(String),
    DuplicatePort(String),
    InvalidPort,
    MissingWidth(String),
    InvalidWidth(String),
    InvalidSigned(String),
    UnknownSignal(String),
    InputAssignment(String),
    DuplicateAssignment(String),
    MissingAssignment(String),
    TypeMismatch,
    InvalidCondition,
    UntypedConstant,
    ConstantOutOfRange(i64),
    UnsupportedExpression,
    CombinationalLoop(String),
    InvalidIdentifier(String),
}

/// The mathematical model of a hardware error.
pub enum HwErrorV {
    InvalidModule,
    DuplicateModule(Seq<char>),
    DuplicatePort(Seq<char>),
    InvalidPort,
    MissingWidth(Seq<char>),
    InvalidWidth(Seq<char>),
    InvalidSigned(Seq<char>),
    UnknownSignal(Seq<char>),
    InputAssignment(Seq<char>),
    DuplicateAssignment(Seq<char>),
    MissingAssignment(Seq<char>),
    TypeMismatch,
    InvalidCondition,
    UntypedConstant,
    ConstantOutOfRange(i64),
    UnsupportedExpression,
    CombinationalLoop(Seq<char>),
    InvalidIdentifier(Seq<char>),
}

impl HardwareError {
    pub open spec fn view(&self) -> HwErrorV {
        match self {
            HardwareError::InvalidModule => HwErrorV::InvalidModule,
            HardwareError::DuplicateModule(n) => HwErrorV::DuplicateModule(n@),
            HardwareError::DuplicatePort(n) => HwErrorV::DuplicatePort(n@),
            HardwareError::InvalidPort => HwErrorV::InvalidPort,
            HardwareError::MissingWidth(n) => HwErrorV::MissingWidth(n@),
            HardwareError::InvalidWidth(n) => HwErrorV::InvalidWidth(n@),
            HardwareError::InvalidSigned(n) => HwErrorV::InvalidSigned(n@),
            HardwareError::UnknownSignal(n) => HwErrorV::UnknownSignal(n@),
            HardwareError::InputAssignment(n) => HwErrorV::InputAssignment(n@),
            HardwareError::DuplicateAssignment(n) => HwErrorV::DuplicateAssignment(n@),
            HardwareError::MissingAssignment(n) => HwErrorV::MissingAssignment(n@),
            HardwareError::TypeMismatch => HwErrorV::TypeMismatch,
            HardwareError::InvalidCondition => HwErrorV::InvalidCondition,
            HardwareError::UntypedConstant => HwErrorV::UntypedConstant,
            HardwareError::ConstantOutOfRange(v) => HwErrorV::ConstantOutOfRange(*v),
            HardwareError::UnsupportedExpression => HwErrorV::UnsupportedExpression,
            HardwareError::CombinationalLoop(n) => HwErrorV::CombinationalLoop(n@),
            HardwareError::InvalidIdentifier(n) => HwErrorV::InvalidIdentifier(n@),
        }
    }
}

#[derive(Debug, Clone, Copy, PartialEq, Eq, Structural)]
pub struct HwType {
    pub width: u32,
    pub signed: bool,
}

#[derive(Debug, Clone, Copy, PartialEq, Eq, Structural)]
pub enum HwPortDirection {
    Input,
    Output,
}

#[derive(Debug, Clone, Copy, PartialEq, Eq, Structural, Hash)]
pub struct HwSignalId(pub usize);

#[derive(Debug, Clone, Copy, PartialEq, Eq, Structural)]
pub struct HwSignalRef {
    pub id: HwSignalId,
}

#[derive(Debug, Clone, Copy, PartialEq, Eq, Structural)]
pub enum HwUnaryOp {
    BitNot,
}

#[derive(Debug, Clone, Copy, PartialEq, Eq, Structural)]
pub enum HwBinaryOp {
    Add,
    Sub,
    BitAnd,
    BitOr,
    BitXor,
    Eq,
    Ne,
    Lt,
    Le,
    Gt,
    Ge,
}

#[derive(Debug, PartialEq, Eq)]
pub enum HwExprKind {
    Reference(HwSignalRef),
    Constant(i64),
    Unary { op: HwUnaryOp, operand: Box<HwExpr> },
    Binary { op: HwBinaryOp, lhs: Box<HwExpr>, rhs: Box<HwExpr> },
    Mux { condition: Box<HwExpr>, then_expr: Box<HwExpr>, else_expr: Box<HwExpr> },
}

#[derive(Debug, PartialEq, Eq)]
pub struct HwExpr {
    pub kind: HwExprKind,
    pub ty: HwType,
    pub properties: Properties,
}

#[derive(Debug, PartialEq, Eq)]
pub struct HwPort {
    pub direction: HwPortDirection,
    pub name: String,
    pub ty: HwType,
    pub properties: Properties,
}

/// The mathematical model of a port.
pub struct HwPortV {
    pub direction: HwPortDirection,
    pub name: Seq<char>,
    pub ty: HwType,
    pub properties: Map<Seq<char>, PropertyValueV>,
}

impl HwPort {
    pub open spec fn view(&self) -> HwPortV {
        HwPortV { direction: self.direction, name: self.name@, ty: self.ty, properties: self.properties@ }
    }
}

#[derive(Debug, PartialEq, Eq)]
pub struct HwAssignment {
    pub destination: HwSignalRef,
    pub value: HwExpr,
    pub properties: Properties,
}

#[derive(Debug, Clone, Copy, PartialEq, Eq, Structural)]
pub enum HwEdge {
    Rising,
    Falling,
}

#[derive(Debug, Clone, Copy, PartialEq, Eq, Structural)]
pub enum HwActiveLevel {
    High,
    Low,
}

#[derive(Debug, PartialEq, Eq)]
pub struct HwReset {
    pub signal: HwSignalId,
    pub active_level: HwActiveLevel,
    pub value: HwExpr,
}

#[derive(Debug, PartialEq, Eq)]
pub struct HwRegister {
    pub name: String,
    pub ty: HwType,
    pub clock: HwSignalId,
    pub edge: HwEdge,
    pub reset: Option<HwReset>,
    pub enable: Option<HwExpr>,
    pub next: HwExpr,
}

#[derive(Debug, PartialEq, Eq)]
pub struct HwModule {
    pub name: String,
    pub ports: Vec<HwPort>,
    pub assignments: Vec<HwAssignment>,
    pub registers: Vec<HwRegister>,
    pub properties: Properties,
}

#[derive(Debug, PartialEq, Eq)]
pub struct HwDesign {
    pub modules: Vec<HwModule>,
}

impl Default for HwDesign {
    fn default() -> (r: Self)
        ensures
            r.modules@.len() == 0,
    {
        HwDesign { modules: Vec::new() }
    }
}

pub open spec fn bit1() -> HwType {
    HwType { width: 1, signed: false }
}

/// Whether `name` is an identifier SystemVerilog accepts as is: an ASCII
/// letter, then ASCII letters, digits and underscores.
pub open spec fn is_valid_identifier(name: Seq<char>) -> bool {
    &&& name.len() >= 1
    &&& (('a' <= name[0] <= 'z') || ('A' <= name[0] <= 'Z'))
    &&& forall|i: int| 1 <= i < name.len() ==> {
        let c = #[trigger] name[i];
        ('a' <= c <= 'z') || ('A' <= c <= 'Z') || ('0' <= c <= '9') || c == '_'
    }
}

fn valid_identifier(name: &str) -> (r: bool)
    ensures
        r == is_valid_identifier(name@),
{
    let chars = crate::text::str_chars(name);
    if chars.len() == 0 {
        return false;
    }
    let c0 = chars[0];
    if !(('a' <= c0 && c0 <= 'z') || ('A' <= c0 && c0 <= 'Z')) {
        return false;
    }
    let mut i: usize = 1;
    while i < chars.len()
        invariant
            1 <= i <= chars@.len(),
            chars@ == name@,
            forall|k: int| 1 <= k < i ==> {
                let c = #[trigger] chars@[k];
                ('a' <= c <= 'z') || ('A' <= c <= 'Z') || ('0' <= c <= '9') || c == '_'
            },
        decreases chars@.len() - i,
    {
        let c = chars[i];
        if !(('a' <= c && c <= 'z') || ('A' <= c && c <= 'Z') || ('0' <= c && c <= '9') || c == '_') {
            return false;
        }
        i += 1;
    }
    true
}

/// What is wrong with a signal's type properties.
pub enum TypeProblem {
    MissingWidth,
    InvalidWidth,
    InvalidSigned,
}

/// The type the `width` and `signed` properties give a signal: a width in
/// `1..=u32::MAX` is required, `signed` defaults to false.
pub open spec fn type_of_properties(props: Map<Seq<char>, PropertyValueV>) -> Result<HwType, TypeProblem> {
    if !(props.contains_key("width"@) && props["width"@] is Int) {
        Err(TypeProblem::MissingWidth)
    } else {
        let w = props["width"@]->Int_0;
        if !(1 <= w <= u32::MAX) {
            Err(TypeProblem::InvalidWidth)
        } else if !props.contains_key("signed"@) {
            Ok(HwType { width: w as u32, signed: false })
        } else if props["signed"@] is Bool {
            Ok(HwType { width: w as u32, signed: props["signed"@]->Bool_0 })
        } else {
            Err(TypeProblem::InvalidSigned)
        }
    }
}

pub open spec fn type_problem_is(p: TypeProblem, name: Seq<char>, e: HardwareError) -> bool {
    match (p, e) {
        (TypeProblem::MissingWidth, HardwareError::MissingWidth(n)) => n@ == name,
        (TypeProblem::InvalidWidth, HardwareError::InvalidWidth(n)) => n@ == name,
        (TypeProblem::InvalidSigned, HardwareError::InvalidSigned(n)) => n@ == name,
        _ => false,
    }
}

fn type_from_properties(properties: &Properties, name: &str) -> (r: Result<HwType, HardwareError>)
    ensures
        match type_of_properties(properties@) {
            Ok(t) => r == Ok::<HwType, HardwareError>(t),
            Err(p) => r matches Err(e) && type_problem_is(p, name@, e),
        },
{
    let width = match properties.get("width") {
        Some(PropertyValue::Int(w)) => *w,
        _ => {
            return Err(HardwareError::MissingWidth(name.to_owned()));
        },
    };
    if width < 1 || width > u32::MAX as i64 {
        return Err(HardwareError::InvalidWidth(name.to_owned()));
    }
    let signed = match properties.get("signed") {
        None => false,
        Some(PropertyValue::Bool(b)) => *b,
        _ => {
            return Err(HardwareError::InvalidSigned(name.to_owned()));
        },
    };
    Ok(HwType { width: width as u32, signed })
}

pub open spec fn pow2(n: nat) -> int
    decreases n,
{
    if n == 0 {
        1
    } else {
        2 * pow2((n - 1) as nat)
    }
}

/// Whether a constant fits a type: any value at 63 bits or more, otherwise
/// the two's-complement or unsigned range of the width.
pub open spec fn value_fits(value: i64, ty: HwType) -> bool {
    if ty.width >= 63 {
        true
    } else if ty.signed {
        -pow2((ty.width - 1) as nat) <= value < pow2((ty.width - 1) as nat)
    } else {
        0 <= value < pow2(ty.width as nat)
    }
}

proof fn lemma_pow2_bounds(n: nat)
    ensures
        pow2(n) >= 1,
    decreases n,
{
    if n > 0 {
        lemma_pow2_bounds((n - 1) as nat);
    }
}

proof fn lemma_pow2_monotone(a: nat, b: nat)
    requires
        a <= b,
    ensures
        pow2(a) <= pow2(b),
    decreases b,
{
    if a < b {
        lemma_pow2_monotone(a, (b - 1) as nat);
        lemma_pow2_bounds((b - 1) as nat);
    }
}

proof fn lemma_pow2_matches(n: nat)
    ensures
        pow2(n) == vstd::arithmetic::power2::pow2(n),
    decreases n,
{
    if n > 0 {
        lemma_pow2_matches((n - 1) as nat);
        vstd::arithmetic::power2::lemma_pow2_unfold(n);
    } else {
        vstd::arithmetic::power2::lemma2_to64();
            vstd::arithmetic::power2::lemma2_to64_rest();
    }
}

/// `2^n` for `n < 63`.
fn pow2_exec(n: u32) -> (r: i64)
    requires
        n < 63,
    ensures
        r == pow2(n as nat),
{
    let mut r: i64 = 1;
    let mut i: u32 = 0;
    while i < n
        invariant
            i <= n < 63,
            r == pow2(i as nat),
        decreases n - i,
    {
        proof {
            lemma_pow2_monotone(i as nat + 1, 62);
            lemma_pow2_matches(62);
            vstd::arithmetic::power2::lemma2_to64();
            vstd::arithmetic::power2::lemma2_to64_rest();
            assert(pow2((i + 1) as nat) == 2 * pow2(i as nat));
            lemma_pow2_bounds(i as nat);
        }
        r = r * 2;
        i += 1;
    }
    r
}

fn fits(value: i64, ty: HwType) -> (r: bool)
    requires
        ty.width >= 1,
    ensures
        r == value_fits(value, ty),
{
    proof {
        lemma_pow2_bounds(ty.width as nat);
        lemma_pow2_bounds((ty.width - 1) as nat);
        if ty.width < 63 {
            lemma_pow2_monotone(ty.width as nat, 62);
            lemma_pow2_matches(62);
            vstd::arithmetic::power2::lemma2_to64();
            vstd::arithmetic::power2::lemma2_to64_rest();
        }
    }
    if ty.width >= 63 {
        return true;
    }
    if ty.signed {
        let n = pow2_exec(ty.width - 1);
        -n <= value && value < n
    } else {
        let n = pow2_exec(ty.width);
        value >= 0 && value < n
    }
}

/// The properties a `meta` form's property list gives, in order: each entry
/// is `(key value)` with a symbol key that does not repeat, and its value
/// is kept as inert syntax data.
pub open spec fn meta_properties(entries: Seq<ExprV>, j: int, acc: Map<Seq<char>, PropertyValueV>) -> Option<Map<Seq<char>, PropertyValueV>>
    decreases entries.len() - j,
{
    if j < 0 || j >= entries.len() {
        Some(acc)
    } else if entries[j].kind is List && entries[j].kind->List_0.len() == 2 && entries[j].kind->List_0[0].kind is Symbol
        && !acc.contains_key(entries[j].kind->List_0[0].kind->Symbol_0) {
        meta_properties(entries, j + 1, acc.insert(entries[j].kind->List_0[0].kind->Symbol_0, property_value_of(entries[j].kind->List_0[1])))
    } else {
        None
    }
}

/// `e` with every `(meta (props) inner)` form replaced by `inner` carrying
/// those properties (inner properties win); `None` where a `meta` form is
/// malformed or a `for` form would need unrolling.
pub open spec fn resolve_meta_spec(e: ExprV) -> Option<ExprV>
    decreases e, 1int,
{
    match e.kind {
        ExprKindV::List(items) => {
            if items.len() > 0 && items[0].kind == ExprKindV::Symbol("meta"@) {
                if items.len() != 3 || !(items[1].kind is List) {
                    None
                } else {
                    match meta_properties(items[1].kind->List_0, 0, Map::empty()) {
                        None => None,
                        Some(p) => match resolve_meta_spec(items[2]) {
                            None => None,
                            Some(inner) => Some(ExprV { kind: inner.kind, properties: p.union_prefer_right(inner.properties) }),
                        },
                    }
                }
            } else if items.len() > 0 && items[0].kind == ExprKindV::Symbol("for"@) {
                None
            } else {
                match resolve_meta_all(items, 0) {
                    None => None,
                    Some(rs) => Some(ExprV { kind: ExprKindV::List(rs), properties: e.properties }),
                }
            }
        },
        _ => Some(e),
    }
}

pub open spec fn resolve_meta_all(items: Seq<ExprV>, i: int) -> Option<Seq<ExprV>>
    decreases items, items.len() - i,
{
    if i < 0 || i >= items.len() {
        Some(Seq::empty())
    } else {
        match resolve_meta_spec(items[i]) {
            None => None,
            Some(x) => match resolve_meta_all(items, i + 1) {
                None => None,
                Some(rest) => Some(seq![x] + rest),
            },
        }
    }
}

pub open spec fn prepend_resolved(prefix: Seq<ExprV>, r: Option<Seq<ExprV>>) -> Option<Seq<ExprV>> {
    match r {
        Some(rest) => Some(prefix + rest),
        None => None,
    }
}

/// Reads the property list of a `meta` form.
fn meta_props(entries: &Vec<Expr>) -> (r: Option<Properties>)
    ensures
        match meta_properties(exprs_view(entries@, entries@.len() as int), 0, Map::empty()) {
            Some(m) => r matches Some(p) && p@ == m,
            None => r is None,
        },
{
    let ghost ev = exprs_view(entries@, entries@.len() as int);
    proof {
        lemma_exprs_view_all(entries@);
    }
    let mut props = Properties::new();
    let mut j: usize = 0;
    while j < entries.len()
        invariant
            ev == exprs_view(entries@, entries@.len() as int),
            ev.len() == entries@.len(),
            forall|k: int| 0 <= k < entries@.len() ==> #[trigger] ev[k] == entries@[k]@,
            j <= entries@.len(),
            meta_properties(ev, 0, Map::empty()) == meta_properties(ev, j as int, props@),
        decreases entries@.len() - j,
    {
        let pair = match &entries[j].kind {
            ExprKind::List(p) => p,
            _ => {
                return None;
            },
        };
        proof {
            lemma_exprs_view_all(pair@);
        }
        if pair.len() != 2 {
            return None;
        }
        let key = match &pair[0].kind {
            ExprKind::Symbol(k) => k,
            _ => {
                return None;
            },
        };
        if props.get(key.as_str()).is_some() {
            return None;
        }
        props.insert(key.as_str(), PropertyValue::from_expr(&pair[1]));
        j += 1;
    }
    Some(props)
}

fn is_head(items: &Vec<Expr>, name: &str) -> (r: bool)
    ensures
        r == (items@.len() > 0 && items@[0]@.kind == ExprKindV::Symbol(name@)),
{
    if items.len() == 0 {
        return false;
    }
    match &items[0].kind {
        ExprKind::Symbol(s) => str_eq(s.as_str(), name),
        _ => false,
    }
}

/// Resolves every `meta` form of a hardware expression.
fn resolve_meta(expr: &Expr) -> (r: Option<Expr>)
    ensures
        match resolve_meta_spec(expr@) {
            Some(x) => r matches Some(y) && y@ == x,
            None => r is None,
        },
    decreases expr,
{
    match &expr.kind {
        ExprKind::List(items) => {
            let ghost iv = exprs_view(items@, items@.len() as int);
            proof {
                lemma_exprs_view_all(items@);
                assert(decreases_to!(*expr => expr.kind));
                assert(decreases_to!(expr.kind => (expr.kind)->List_0));
            }
            if is_head(items, "meta") {
                if items.len() != 3 {
                    return None;
                }
                let entries = match &items[1].kind {
                    ExprKind::List(e) => e,
                    _ => {
                        return None;
                    },
                };
                let props = match meta_props(entries) {
                    Some(p) => p,
                    None => {
                        return None;
                    },
                };
                proof {
                    assert(decreases_to!(*items => items[2]));
                }
                let mut inner = match resolve_meta(&items[2]) {
                    Some(x) => x,
                    None => {
                        return None;
                    },
                };
                inner.properties.merge_missing_from(&props);
                return Some(inner);
            }
            if is_head(items, "for") {
                return None;
            }
            let mut out: Vec<Expr> = Vec::new();
            let mut i: usize = 0;
            while i < items.len()
                invariant
                    expr.kind == ExprKind::List(*items),
                    iv == exprs_view(items@, items@.len() as int),
                    iv.len() == items@.len(),
                    forall|k: int| 0 <= k < items@.len() ==> #[trigger] iv[k] == items@[k]@,
                    i <= items@.len(),
                    resolve_meta_all(iv, 0) == prepend_resolved(exprs_view(out@, out@.len() as int), resolve_meta_all(iv, i as int)),
                    !(iv.len() > 0 && iv[0].kind == ExprKindV::Symbol("meta"@)),
                    !(iv.len() > 0 && iv[0].kind == ExprKindV::Symbol("for"@)),
                decreases items@.len() - i,
            {
                proof {
                    assert(decreases_to!(*expr => expr.kind));
                    assert(decreases_to!(expr.kind => (expr.kind)->List_0));
                    assert(decreases_to!(*items => items[i as int]));
                }
                let x = match resolve_meta(&items[i]) {
                    Some(x) => x,
                    None => {
                        return None;
                    },
                };
                let ghost before = exprs_view(out@, out@.len() as int);
                let ghost xv = x@;
                let ghost xe = x;
                let ghost seq_before = out@;
                out.push(x);
                proof {
                    crate::ast::lemma_exprs_view_push(seq_before, xe);
                    assert(out@ == seq_before.push(xe));
                    match resolve_meta_all(iv, i + 1) {
                        Some(rest) => {
                            assert(before + (seq![xv] + rest) =~= before.push(xv) + rest);
                        },
                        None => {},
                    }
                }
                i += 1;
            }
            proof {
                assert(exprs_view(out@, out@.len() as int) + Seq::<ExprV>::empty() =~= exprs_view(out@, out@.len() as int));
            }
            Some(Expr::with_properties(ExprKind::List(out), expr.properties.copy()))
        },
        ExprKind::Int(n) => Some(Expr::with_properties(ExprKind::Int(*n), expr.properties.copy())),
        ExprKind::Bool(b) => Some(Expr::with_properties(ExprKind::Bool(*b), expr.properties.copy())),
        ExprKind::String(s) => Some(Expr::with_properties(ExprKind::String(s.clone()), expr.properties.copy())),
        ExprKind::Symbol(s) => Some(Expr::with_properties(ExprKind::Symbol(s.clone()), expr.properties.copy())),
        ExprKind::GeneratedSymbol(s) => Some(Expr::with_properties(ExprKind::GeneratedSymbol(s.copy()), expr.properties.copy())),
    }
}

/// A signal known to a module: its name, id, type and direction.
pub type SignalEntry = (String, HwSignalId, HwType, HwPortDirection);

pub open spec fn signals_view(s: Seq<SignalEntry>) -> Seq<(Seq<char>, HwSignalId, HwType, HwPortDirection)> {
    s.map_values(|e: SignalEntry| (e.0@, e.1, e.2, e.3))
}

/// The first signal called `name`.
pub open spec fn lookup_signal(s: Seq<(Seq<char>, HwSignalId, HwType, HwPortDirection)>, name: Seq<char>) -> Option<(HwSignalId, HwType, HwPortDirection)>
    decreases s.len(),
{
    if s.len() == 0 {
        None
    } else if s[0].0 == name {
        Some((s[0].1, s[0].2, s[0].3))
    } else {
        lookup_signal(s.drop_first(), name)
    }
}

fn find_signal(signals: &Vec<SignalEntry>, name: &str) -> (r: Option<(HwSignalId, HwType, HwPortDirection)>)
    ensures
        r == lookup_signal(signals_view(signals@), name@),
{
    let mut i: usize = 0;
    proof {
        assert(signals_view(signals@).skip(0) =~= signals_view(signals@));
    }
    while i < signals.len()
        invariant
            i <= signals@.len(),
            lookup_signal(signals_view(signals@), name@) == lookup_signal(signals_view(signals@).skip(i as int), name@),
        decreases signals@.len() - i,
    {
        proof {
            assert(signals_view(signals@).skip(i as int).drop_first() =~= signals_view(signals@).skip(i + 1));
        }
        if str_eq(signals[i].0.as_str(), name) {
            return Some((signals[i].1, signals[i].2, signals[i].3));
        }
        i += 1;
    }
    None
}

/// Why a hardware expression fails to type.
pub enum HwFail {
    UnknownSignal(Seq<char>),
    UntypedConstant,
    ConstantOutOfRange(i64),
    InvalidCondition,
    TypeMismatch,
    UnsupportedExpression,
}

pub open spec fn hw_fail_is(f: HwFail, e: HardwareError) -> bool {
    match (f, e) {
        (HwFail::UnknownSignal(a), HardwareError::UnknownSignal(b)) => a == b@,
        (HwFail::UntypedConstant, HardwareError::UntypedConstant) => true,
        (HwFail::ConstantOutOfRange(a), HardwareError::ConstantOutOfRange(b)) => a == b,
        (HwFail::InvalidCondition, HardwareError::InvalidCondition) => true,
        (HwFail::TypeMismatch, HardwareError::TypeMismatch) => true,
        (HwFail::UnsupportedExpression, HardwareError::UnsupportedExpression) => true,
        _ => false,
    }
}

/// The error a failed hardware expression reports.
pub open spec fn fail_error(f: HwFail) -> HwErrorV {
    match f {
        HwFail::UnknownSignal(n) => HwErrorV::UnknownSignal(n),
        HwFail::UntypedConstant => HwErrorV::UntypedConstant,
        HwFail::ConstantOutOfRange(v) => HwErrorV::ConstantOutOfRange(v),
        HwFail::InvalidCondition => HwErrorV::InvalidCondition,
        HwFail::TypeMismatch => HwErrorV::TypeMismatch,
        HwFail::UnsupportedExpression => HwErrorV::UnsupportedExpression,
    }
}

/// The error a signal called `name` with bad type properties reports.
pub open spec fn type_error(p: TypeProblem, name: Seq<char>) -> HwErrorV {
    match p {
        TypeProblem::MissingWidth => HwErrorV::MissingWidth(name),
        TypeProblem::InvalidWidth => HwErrorV::InvalidWidth(name),
        TypeProblem::InvalidSigned => HwErrorV::InvalidSigned(name),
    }
}



pub open spec fn is_binary_op(name: Seq<char>) -> bool {
    name == "+"@ || name == "-"@ || name == "bit-and"@ || name == "bit-or"@ || name == "bit-xor"@
}

pub open spec fn is_comparison_op(name: Seq<char>) -> bool {
    name == "="@ || name == "!="@ || name == "<"@ || name == "<="@ || name == ">"@ || name == ">="@
}

/// The mathematical model of a lowered hardware expression.
pub enum HwExprKindV {
    Reference(HwSignalId),
    Constant(i64),
    Unary { op: HwUnaryOp, operand: Box<HwExprV> },
    Binary { op: HwBinaryOp, lhs: Box<HwExprV>, rhs: Box<HwExprV> },
    Mux { condition: Box<HwExprV>, then_expr: Box<HwExprV>, else_expr: Box<HwExprV> },
}

pub struct HwExprV {
    pub kind: HwExprKindV,
    pub ty: HwType,
    pub properties: Map<Seq<char>, PropertyValueV>,
}

impl HwExpr {
    pub open spec fn view(&self) -> HwExprV
        decreases self,
    {
        HwExprV {
            kind: match self.kind {
                HwExprKind::Reference(r) => HwExprKindV::Reference(r.id),
                HwExprKind::Constant(v) => HwExprKindV::Constant(v),
                HwExprKind::Unary { op, operand } => HwExprKindV::Unary { op, operand: Box::new(operand.view()) },
                HwExprKind::Binary { op, lhs, rhs } => HwExprKindV::Binary { op, lhs: Box::new(lhs.view()), rhs: Box::new(rhs.view()) },
                HwExprKind::Mux { condition, then_expr, else_expr } => HwExprKindV::Mux {
                    condition: Box::new(condition.view()),
                    then_expr: Box::new(then_expr.view()),
                    else_expr: Box::new(else_expr.view()),
                },
            },
            ty: self.ty,
            properties: self.properties@,
        }
    }
}

/// The operator a binary operator name stands for.
pub open spec fn binary_op_of(name: Seq<char>) -> HwBinaryOp {
    if name == "+"@ {
        HwBinaryOp::Add
    } else if name == "-"@ {
        HwBinaryOp::Sub
    } else if name == "bit-and"@ {
        HwBinaryOp::BitAnd
    } else if name == "bit-or"@ {
        HwBinaryOp::BitOr
    } else {
        HwBinaryOp::BitXor
    }
}

/// The comparison a comparison operator name stands for.
pub open spec fn comparison_op_of(name: Seq<char>) -> HwBinaryOp {
    if name == "="@ {
        HwBinaryOp::Eq
    } else if name == "!="@ {
        HwBinaryOp::Ne
    } else if name == "<"@ {
        HwBinaryOp::Lt
    } else if name == "<="@ {
        HwBinaryOp::Le
    } else if name == ">"@ {
        HwBinaryOp::Gt
    } else {
        HwBinaryOp::Ge
    }
}

/// What a (meta-resolved) hardware expression lowers to, where `hint` is
/// the type the surrounding context expects, if it expects one. A signal
/// becomes a reference to it; an integer a constant of the type its
/// properties give or, when it has no `width`, of the hinted type (and
/// without a hint it is an error); `if` a multiplexer whose condition must
/// be one unsigned bit and whose branches share a type (the hint passes to
/// the branches); `bit-not` a unary; `+ - bit-and bit-or bit-xor` a binary
/// operation on operands of one type; and `= != < <= > >=` a one-bit
/// unsigned comparison of unsigned operands of one type. An operand of a
/// binary operation or comparison is hinted with the type of the other
/// operand when that one has a type on its own, else (for the arithmetic
/// and bitwise operations) with the surrounding hint. Each node keeps its
/// source properties. There are no implicit width conversions.
pub open spec fn hw_lower(e: ExprV, signals: Seq<(Seq<char>, HwSignalId, HwType, HwPortDirection)>, hint: Option<HwType>) -> Result<HwExprV, HwFail>
    decreases e, 1int,
{
    match e.kind {
        ExprKindV::Symbol(name) => match lookup_signal(signals, name) {
            Some(s) => Ok(HwExprV { kind: HwExprKindV::Reference(s.0), ty: s.1, properties: e.properties }),
            None => Err(HwFail::UnknownSignal(name)),
        },
        ExprKindV::Int(v) => {
            let ty = match type_of_properties(e.properties) {
                Ok(t) => Some(t),
                Err(TypeProblem::MissingWidth) => if hint matches Some(t) && t.width >= 1 { hint } else { None },
                Err(_) => None,
            };
            match ty {
                None => Err(HwFail::UntypedConstant),
                Some(t) => if value_fits(v, t) {
                    Ok(HwExprV { kind: HwExprKindV::Constant(v), ty: t, properties: e.properties })
                } else {
                    Err(HwFail::ConstantOutOfRange(v))
                },
            }
        },
        ExprKindV::List(items) => hw_lower_application(items, e.properties, signals, hint),
        _ => Err(HwFail::UnsupportedExpression),
    }
}

/// The hint an operand of a binary form gets: the type its partner has on
/// its own, or else `fallback`.
pub open spec fn operand_hint(partner: ExprV, signals: Seq<(Seq<char>, HwSignalId, HwType, HwPortDirection)>, fallback: Option<HwType>) -> Option<HwType>
    decreases partner, 2int,
{
    match hw_lower(partner, signals, None) {
        Ok(x) => Some(x.ty),
        Err(_) => fallback,
    }
}

pub open spec fn hw_lower_application(
    items: Seq<ExprV>,
    props: Map<Seq<char>, PropertyValueV>,
    signals: Seq<(Seq<char>, HwSignalId, HwType, HwPortDirection)>,
    hint: Option<HwType>,
) -> Result<HwExprV, HwFail>
    decreases items, 0int,
{
    if items.len() == 0 || !(items[0].kind is Symbol) {
        Err(HwFail::UnsupportedExpression)
    } else if items[0].kind->Symbol_0 == "if"@ {
        if items.len() != 4 {
            Err(HwFail::UnsupportedExpression)
        } else {
            match hw_lower(items[1], signals, Some(bit1())) {
                Err(f) => Err(f),
                Ok(c) => match hw_lower(items[2], signals, hint) {
                    Err(f) => Err(f),
                    Ok(t) => match hw_lower(items[3], signals, hint) {
                        Err(f) => Err(f),
                        Ok(u) => if c.ty != bit1() {
                            Err(HwFail::InvalidCondition)
                        } else if t.ty != u.ty {
                            Err(HwFail::TypeMismatch)
                        } else {
                            Ok(HwExprV {
                                kind: HwExprKindV::Mux { condition: Box::new(c), then_expr: Box::new(t), else_expr: Box::new(u) },
                                ty: t.ty,
                                properties: props,
                            })
                        },
                    },
                },
            }
        }
    } else if items[0].kind->Symbol_0 == "bit-not"@ {
        if items.len() != 2 {
            Err(HwFail::UnsupportedExpression)
        } else {
            match hw_lower(items[1], signals, hint) {
                Err(f) => Err(f),
                Ok(x) => Ok(HwExprV { kind: HwExprKindV::Unary { op: HwUnaryOp::BitNot, operand: Box::new(x) }, ty: x.ty, properties: props }),
            }
        }
    } else if items.len() != 3 {
        Err(HwFail::UnsupportedExpression)
    } else {
        let name = items[0].kind->Symbol_0;
        let base = if is_comparison_op(name) { None } else { hint };
        match hw_lower(items[1], signals, operand_hint(items[2], signals, base)) {
            Err(f) => Err(f),
            Ok(l) => match hw_lower(items[2], signals, operand_hint(items[1], signals, base)) {
                Err(f) => Err(f),
                Ok(r) => if l.ty != r.ty {
                    Err(HwFail::TypeMismatch)
                } else if is_comparison_op(name) {
                    if l.ty.signed {
                        Err(HwFail::TypeMismatch)
                    } else {
                        Ok(HwExprV {
                            kind: HwExprKindV::Binary { op: comparison_op_of(name), lhs: Box::new(l), rhs: Box::new(r) },
                            ty: bit1(),
                            properties: props,
                        })
                    }
                } else if !is_binary_op(name) {
                    Err(HwFail::UnsupportedExpression)
                } else {
                    Ok(HwExprV {
                        kind: HwExprKindV::Binary { op: binary_op_of(name), lhs: Box::new(l), rhs: Box::new(r) },
                        ty: l.ty,
                        properties: props,
                    })
                },
            },
        }
    }
}

/// Whether every signal `e` refers to is one of the table's ids.
pub open spec fn refs_from(e: HwExpr, signals: Seq<(Seq<char>, HwSignalId, HwType, HwPortDirection)>) -> bool
    decreases e,
{
    match e.kind {
        HwExprKind::Reference(r) => exists|k: int| 0 <= k < signals.len() && (#[trigger] signals[k]).1 == r.id,
        HwExprKind::Constant(_) => true,
        HwExprKind::Unary { operand, .. } => refs_from(*operand, signals),
        HwExprKind::Binary { lhs, rhs, .. } => refs_from(*lhs, signals) && refs_from(*rhs, signals),
        HwExprKind::Mux { condition, then_expr, else_expr } => refs_from(*condition, signals)
            && refs_from(*then_expr, signals) && refs_from(*else_expr, signals),
    }
}

proof fn lemma_lookup_found(s: Seq<(Seq<char>, HwSignalId, HwType, HwPortDirection)>, name: Seq<char>)
    requires
        lookup_signal(s, name) is Some,
    ensures
        exists|k: int| 0 <= k < s.len() && (#[trigger] s[k]).1 == lookup_signal(s, name)->Some_0.0
            && s[k].2 == lookup_signal(s, name)->Some_0.1 && s[k].3 == lookup_signal(s, name)->Some_0.2
            && s[k].0 == name,
    decreases s.len(),
{
    if s[0].0 != name {
        lemma_lookup_found(s.drop_first(), name);
        let k = choose|k: int| 0 <= k < s.drop_first().len() && (#[trigger] s.drop_first()[k]).1 == lookup_signal(s, name)->Some_0.0
            && s.drop_first()[k].2 == lookup_signal(s, name)->Some_0.1 && s.drop_first()[k].3 == lookup_signal(s, name)->Some_0.2
            && s.drop_first()[k].0 == name;
        assert(s[k + 1] == s.drop_first()[k]);
    } else {
        assert(s[0].1 == lookup_signal(s, name)->Some_0.0);
    }
}

/// Lowers a meta-resolved expression to hardware IR (see [`hw_lower`]).
fn lower_core(core: &Expr, signals: &Vec<SignalEntry>, hint: Option<HwType>) -> (r: Result<HwExpr, HardwareError>)
    ensures
        match hw_lower(core@, signals_view(signals@), hint) {
            Ok(v) => r matches Ok(h) && h@ == v,
            Err(f) => r matches Err(e) && hw_fail_is(f, e),
        },
        r matches Ok(h) ==> refs_from(h, signals_view(signals@)),
    decreases core, 1int,
{
    let props = core.properties.copy();
    match &core.kind {
        ExprKind::Symbol(name) => match find_signal(signals, name.as_str()) {
            Some((id, ty, _)) => {
                proof {
                    lemma_lookup_found(signals_view(signals@), name@);
                }
                Ok(HwExpr { kind: HwExprKind::Reference(HwSignalRef { id }), ty, properties: props })
            },
            None => Err(HardwareError::UnknownSignal(name.clone())),
        },
        ExprKind::Int(value) => {
            let ty = match type_from_properties(&props, "constant") {
                Ok(t) => t,
                Err(HardwareError::MissingWidth(_)) => match hint {
                    Some(t) => {
                        if t.width == 0 {
                            return Err(HardwareError::UntypedConstant);
                        }
                        t
                    },
                    None => {
                        return Err(HardwareError::UntypedConstant);
                    },
                },
                Err(_) => {
                    return Err(HardwareError::UntypedConstant);
                },
            };
            if !fits(*value, ty) {
                return Err(HardwareError::ConstantOutOfRange(*value));
            }
            Ok(HwExpr { kind: HwExprKind::Constant(*value), ty, properties: props })
        },
        ExprKind::List(items) => lower_application(core, items, props, signals, hint),
        _ => Err(HardwareError::UnsupportedExpression),
    }
}

/// The hint for an operand whose partner is `partner` (see [`operand_hint`]).
fn partner_hint(partner: &Expr, signals: &Vec<SignalEntry>, fallback: Option<HwType>) -> (r: Option<HwType>)
    ensures
        r == operand_hint(partner@, signals_view(signals@), fallback),
    decreases partner, 2int,
{
    match lower_core(partner, signals, None) {
        Ok(x) => Some(x.ty),
        Err(_) => fallback,
    }
}

fn lower_application(parent: &Expr, items: &Vec<Expr>, properties: Properties, signals: &Vec<SignalEntry>, hint: Option<HwType>) -> (r: Result<HwExpr, HardwareError>)
    requires
        parent.kind == ExprKind::List(*items),
    ensures
        match hw_lower_application(exprs_view(items@, items@.len() as int), properties@, signals_view(signals@), hint) {
            Ok(v) => r matches Ok(h) && h@ == v,
            Err(f) => r matches Err(e) && hw_fail_is(f, e),
        },
        r matches Ok(h) ==> refs_from(h, signals_view(signals@)),
    decreases parent, 0int,
{
    proof {
        lemma_exprs_view_all(items@);
        assert(decreases_to!(*parent => parent.kind));
        assert(decreases_to!(parent.kind => (parent.kind)->List_0));
    }
    if items.len() == 0 {
        return Err(HardwareError::UnsupportedExpression);
    }
    let name = match &items[0].kind {
        ExprKind::Symbol(n) => n,
        _ => {
            return Err(HardwareError::UnsupportedExpression);
        },
    };
    if str_eq(name.as_str(), "if") {
        if items.len() != 4 {
            return Err(HardwareError::UnsupportedExpression);
        }
        proof {
            assert(decreases_to!(*items => items[1]));
            assert(decreases_to!(*items => items[2]));
            assert(decreases_to!(*items => items[3]));
        }
        let condition = match lower_core(&items[1], signals, Some(HwType { width: 1, signed: false })) {
            Ok(x) => x,
            Err(e) => {
                return Err(e);
            },
        };
        let then_expr = match lower_core(&items[2], signals, hint) {
            Ok(x) => x,
            Err(e) => {
                return Err(e);
            },
        };
        let else_expr = match lower_core(&items[3], signals, hint) {
            Ok(x) => x,
            Err(e) => {
                return Err(e);
            },
        };
        if condition.ty != (HwType { width: 1, signed: false }) {
            return Err(HardwareError::InvalidCondition);
        }
        if then_expr.ty != else_expr.ty {
            return Err(HardwareError::TypeMismatch);
        }
        let ty = then_expr.ty;
        return Ok(HwExpr {
            kind: HwExprKind::Mux { condition: Box::new(condition), then_expr: Box::new(then_expr), else_expr: Box::new(else_expr) },
            ty,
            properties,
        });
    }
    if str_eq(name.as_str(), "bit-not") {
        if items.len() != 2 {
            return Err(HardwareError::UnsupportedExpression);
        }
        proof {
            assert(decreases_to!(*items => items[1]));
        }
        let operand = match lower_core(&items[1], signals, hint) {
            Ok(x) => x,
            Err(e) => {
                return Err(e);
            },
        };
        let ty = operand.ty;
        return Ok(HwExpr { kind: HwExprKind::Unary { op: HwUnaryOp::BitNot, operand: Box::new(operand) }, ty, properties });
    }
    if items.len() != 3 {
        return Err(HardwareError::UnsupportedExpression);
    }
    proof {
        assert(decreases_to!(*items => items[1]));
        assert(decreases_to!(*items => items[2]));
    }
    let comparison = comparison_of(name.as_str());
    let base = match comparison {
        Some(_) => None,
        None => hint,
    };
    let lhs_hint = partner_hint(&items[2], signals, base);
    let rhs_hint = partner_hint(&items[1], signals, base);
    let lhs = match lower_core(&items[1], signals, lhs_hint) {
        Ok(x) => x,
        Err(e) => {
            return Err(e);
        },
    };
    let rhs = match lower_core(&items[2], signals, rhs_hint) {
        Ok(x) => x,
        Err(e) => {
            return Err(e);
        },
    };
    if lhs.ty != rhs.ty {
        return Err(HardwareError::TypeMismatch);
    }
    if let Some(op) = comparison {
        if lhs.ty.signed {
            return Err(HardwareError::TypeMismatch);
        }
        return Ok(HwExpr {
            kind: HwExprKind::Binary { op, lhs: Box::new(lhs), rhs: Box::new(rhs) },
            ty: HwType { width: 1, signed: false },
            properties,
        });
    }
    let op = if str_eq(name.as_str(), "+") {
        HwBinaryOp::Add
    } else if str_eq(name.as_str(), "-") {
        HwBinaryOp::Sub
    } else if str_eq(name.as_str(), "bit-and") {
        HwBinaryOp::BitAnd
    } else if str_eq(name.as_str(), "bit-or") {
        HwBinaryOp::BitOr
    } else if str_eq(name.as_str(), "bit-xor") {
        HwBinaryOp::BitXor
    } else {
        return Err(HardwareError::UnsupportedExpression);
    };
    let ty = lhs.ty;
    Ok(HwExpr { kind: HwExprKind::Binary { op, lhs: Box::new(lhs), rhs: Box::new(rhs) }, ty, properties })
}

/// The comparison an operator name stands for, if it names one.
fn comparison_of(name: &str) -> (r: Option<HwBinaryOp>)
    ensures
        r is Some <==> is_comparison_op(name@),
        r matches Some(op) ==> op == comparison_op_of(name@),
{
    if str_eq(name, "=") {
        Some(HwBinaryOp::Eq)
    } else if str_eq(name, "!=") {
        Some(HwBinaryOp::Ne)
    } else if str_eq(name, "<") {
        Some(HwBinaryOp::Lt)
    } else if str_eq(name, "<=") {
        Some(HwBinaryOp::Le)
    } else if str_eq(name, ">") {
        Some(HwBinaryOp::Gt)
    } else if str_eq(name, ">=") {
        Some(HwBinaryOp::Ge)
    } else {
        None
    }
}

/// What a hardware expression written in source lowers to, in a context
/// that expects `hint`.
pub open spec fn hw_expr_lower(e: ExprV, signals: Seq<(Seq<char>, HwSignalId, HwType, HwPortDirection)>, hint: Option<HwType>) -> Result<HwExprV, HwFail> {
    match resolve_meta_spec(e) {
        None => Err(HwFail::UnsupportedExpression),
        Some(c) => hw_lower(c, signals, hint),
    }
}

fn lower_expr(expr: &Expr, signals: &Vec<SignalEntry>, hint: Option<HwType>) -> (r: Result<HwExpr, HardwareError>)
    ensures
        match hw_expr_lower(expr@, signals_view(signals@), hint) {
            Ok(v) => r matches Ok(h) && h@ == v,
            Err(f) => r matches Err(e) && hw_fail_is(f, e),
        },
        r matches Ok(h) ==> refs_from(h, signals_view(signals@)),
{
    match resolve_meta(expr) {
        Some(core) => lower_core(&core, signals, hint),
        None => Err(HardwareError::UnsupportedExpression),
    }
}

/// The type of a register's reset value (see [`reset_value_lower`]).
pub open spec fn reset_value_type(e: ExprV, signals: Seq<(Seq<char>, HwSignalId, HwType, HwPortDirection)>, ty: HwType) -> Result<HwType, HwFail> {
    match reset_value_lower(e, signals, ty) {
        Ok(v) => Ok(v.ty),
        Err(f) => Err(f),
    }
}

/// What a register's reset value lowers to: an expression in a context
/// that expects the register's type.
pub open spec fn reset_value_lower(e: ExprV, signals: Seq<(Seq<char>, HwSignalId, HwType, HwPortDirection)>, ty: HwType) -> Result<HwExprV, HwFail> {
    hw_expr_lower(e, signals, Some(ty))
}

fn lower_reset_value(expression: &Expr, signals: &Vec<SignalEntry>, ty: HwType) -> (r: Result<HwExpr, HardwareError>)
    requires
        ty.width >= 1,
    ensures
        match reset_value_lower(expression@, signals_view(signals@), ty) {
            Ok(v) => r matches Ok(h) && h@ == v,
            Err(f) => r matches Err(e) && hw_fail_is(f, e),
        },
        match reset_value_type(expression@, signals_view(signals@), ty) {
            Ok(t) => r matches Ok(h) && h.ty == t,
            Err(f) => r matches Err(e) && hw_fail_is(f, e),
        },
        r matches Ok(h) ==> refs_from(h, signals_view(signals@)),
{
    lower_expr(expression, signals, Some(ty))
}

/// Every assignment drives an existing output port of the same type, no
/// port is driven twice, and every port has a non-zero width and, if it is
/// an output, a driver.
pub open spec fn module_drives_ok(m: HwModule) -> bool {
    let ports = m.ports@;
    let asg = m.assignments@;
    &&& forall|i: int| 0 <= i < asg.len() ==> {
        let id = (#[trigger] asg[i]).destination.id.0;
        &&& id < ports.len()
        &&& ports[id as int].direction == HwPortDirection::Output
        &&& asg[i].value.ty == ports[id as int].ty
    }
    &&& forall|i: int, j: int| 0 <= i < j < asg.len() ==> (#[trigger] asg[i]).destination.id != (#[trigger] asg[j]).destination.id
    &&& forall|p: int| 0 <= p < ports.len() ==> (#[trigger] ports[p]).ty.width > 0
    &&& forall|p: int| 0 <= p < ports.len() && ports[p].direction == HwPortDirection::Output
        ==> exists|i: int| 0 <= i < asg.len() && (#[trigger] asg[i]).destination.id.0 == p
}

/// No two modules share a name.
pub open spec fn module_names_distinct(ms: Seq<HwModule>) -> bool {
    forall|i: int, j: int| 0 <= i < j < ms.len() ==> (#[trigger] ms[i]).name@ != (#[trigger] ms[j]).name@
}

/// The references an expression makes, left to right.
pub open spec fn references(e: HwExpr) -> Seq<HwSignalId>
    decreases e,
{
    match e.kind {
        HwExprKind::Reference(r) => seq![r.id],
        HwExprKind::Constant(_) => Seq::empty(),
        HwExprKind::Unary { operand, .. } => references(*operand),
        HwExprKind::Binary { lhs, rhs, .. } => references(*lhs) + references(*rhs),
        HwExprKind::Mux { condition, then_expr, else_expr } => references(*condition) + references(*then_expr) + references(*else_expr),
    }
}

fn collect_references(expr: &HwExpr, refs: &mut Vec<HwSignalId>)
    ensures
        final(refs)@ == old(refs)@ + references(*expr),
    decreases expr,
{
    match &expr.kind {
        HwExprKind::Reference(r) => refs.push(r.id),
        HwExprKind::Constant(_) => {},
        HwExprKind::Unary { operand, .. } => collect_references(operand, refs),
        HwExprKind::Binary { lhs, rhs, .. } => {
            collect_references(lhs, refs);
            collect_references(rhs, refs);
        },
        HwExprKind::Mux { condition, then_expr, else_expr } => {
            collect_references(condition, refs);
            collect_references(then_expr, refs);
            collect_references(else_expr, refs);
        },
    }
    proof {
        assert(refs@ =~= old(refs)@ + references(*expr));
    }
}

/// The assignment driving output `signal`, if any.
fn assignment_of(module: &HwModule, signal: HwSignalId) -> (r: Option<usize>)
    ensures
        r matches Some(i) ==> i < module.assignments@.len() && module.assignments@[i as int].destination.id == signal,
        r is None ==> forall|i: int| 0 <= i < module.assignments@.len() ==> (#[trigger] module.assignments@[i]).destination.id != signal,
{
    let mut i: usize = 0;
    while i < module.assignments.len()
        invariant
            i <= module.assignments@.len(),
            forall|k: int| 0 <= k < i ==> (#[trigger] module.assignments@[k]).destination.id != signal,
        decreases module.assignments@.len() - i,
    {
        if module.assignments[i].destination.id == signal {
            return Some(i);
        }
        i += 1;
    }
    None
}

/// Output `u`'s driver reads output `v`, so `u` depends combinationally
/// on `v`.
pub open spec fn drives(m: HwModule, u: int, v: int) -> bool {
    &&& 0 <= u < m.ports@.len()
    &&& 0 <= v < m.ports@.len()
    &&& m.ports@[v].direction == HwPortDirection::Output
    &&& exists|i: int| 0 <= i < m.assignments@.len() && (#[trigger] m.assignments@[i]).destination.id.0 == u
        && references(m.assignments@[i].value).contains(HwSignalId(v as usize))
}

/// No output depends on itself: some ranking of the signals strictly
/// decreases along every dependency.
pub open spec fn outputs_acyclic(m: HwModule) -> bool {
    exists|rank: spec_fn(int) -> nat| #[trigger] ranks_dependencies(m, rank)
}

/// `rank` strictly decreases along every dependency of `m`.
pub open spec fn ranks_dependencies(m: HwModule, rank: spec_fn(int) -> nat) -> bool {
    forall|u: int, v: int| #[trigger] drives(m, u, v) ==> rank(v) < rank(u)
}

/// `p` is a dependency cycle: each signal drives the next, the last the first.
pub open spec fn is_cycle(m: HwModule, p: Seq<int>) -> bool {
    &&& p.len() >= 1
    &&& forall|i: int| 0 <= i < p.len() - 1 ==> drives(m, #[trigger] p[i], p[i + 1])
    &&& drives(m, p.last(), p[0])
}

proof fn lemma_rank_along_path(m: HwModule, p: Seq<int>, rank: spec_fn(int) -> nat, k: int)
    requires
        forall|i: int| 0 <= i < p.len() - 1 ==> drives(m, #[trigger] p[i], p[i + 1]),
        forall|u: int, v: int| #[trigger] drives(m, u, v) ==> rank(v) < rank(u),
        0 <= k < p.len(),
    ensures
        rank(p[k]) + k <= rank(p[0]),
    decreases k,
{
    if k > 0 {
        lemma_rank_along_path(m, p, rank, k - 1);
        assert(drives(m, p[k - 1], p[k]));
    }
}

/// A module with a dependency cycle has no ranking.
pub proof fn lemma_cycle_not_acyclic(m: HwModule, p: Seq<int>)
    requires
        is_cycle(m, p),
    ensures
        !outputs_acyclic(m),
{
    if outputs_acyclic(m) {
        let rank = choose|rank: spec_fn(int) -> nat| #[trigger] ranks_dependencies(m, rank);
        lemma_rank_along_path(m, p, rank, p.len() - 1);
        assert(drives(m, p.last(), p[0]));
    }
}

/// The finishing ranks of a depth-first search: exactly the completed
/// signals have one, all below `counter`, and a completed signal's
/// dependencies are completed with smaller ranks.
pub open spec fn ranks_ok(m: HwModule, complete: Seq<bool>, pos: Map<int, nat>, counter: nat) -> bool {
    &&& complete.len() == m.ports@.len()
    &&& forall|x: int| 0 <= x < complete.len() ==> (#[trigger] complete[x] <==> pos.dom().contains(x))
    &&& forall|x: int| #[trigger] pos.dom().contains(x) ==> 0 <= x < complete.len() && pos[x] < counter
    &&& forall|u: int, v: int| #[trigger] pos.dom().contains(u) && #[trigger] drives(m, u, v)
        ==> pos.dom().contains(v) && pos[v] < pos[u]
}

/// The search path: distinct signals, each driving the next.
pub open spec fn path_ok(m: HwModule, visiting: Seq<bool>, path: Seq<int>) -> bool {
    &&& visiting.len() == m.ports@.len()
    &&& path.no_duplicates()
    &&& forall|i: int| 0 <= i < path.len() ==> 0 <= #[trigger] path[i] < visiting.len()
    &&& forall|x: int| 0 <= x < visiting.len() ==> (#[trigger] visiting[x] <==> path.contains(x))
    &&& forall|i: int| 0 <= i < path.len() - 1 ==> drives(m, #[trigger] path[i], path[i + 1])
}

pub open spec fn extends_ranks(a: Map<int, nat>, b: Map<int, nat>) -> bool {
    forall|x: int| #[trigger] a.dom().contains(x) ==> b.dom().contains(x) && b[x] == a[x]
}

/// A path of distinct signals fits among the ports.
proof fn lemma_path_fits(path: Seq<int>, n: int)
    requires
        path.no_duplicates(),
        forall|i: int| 0 <= i < path.len() ==> 0 <= #[trigger] path[i] < n,
        n >= 0,
    ensures
        path.len() <= n,
{
    path.unique_seq_to_set();
    vstd::set_lib::lemma_int_range(0, n);
    assert(path.to_set().subset_of(vstd::set_lib::set_int_range(0, n))) by {
        assert forall|x: int| #[trigger] path.to_set().contains(x) implies vstd::set_lib::set_int_range(0, n).contains(x) by {
            let i = choose|i: int| 0 <= i < path.len() && path[i] == x;
        }
    }
    vstd::set_lib::lemma_len_subset(path.to_set(), vstd::set_lib::set_int_range(0, n));
}

/// Depth-first search from `signal` through the outputs its driver reads;
/// meeting a signal already on the current path is a combinational loop.
#[verifier::spinoff_prover]
#[verifier::rlimit(60)]
fn visit(
    signal: HwSignalId,
    module: &HwModule,
    visiting: &mut Vec<bool>,
    complete: &mut Vec<bool>,
    depth: usize,
    Ghost(path): Ghost<Seq<int>>,
    Ghost(pos): Ghost<Map<int, nat>>,
    Ghost(counter): Ghost<nat>,
) -> (r: (Result<(), HardwareError>, Ghost<Map<int, nat>>, Ghost<nat>))
    requires
        module_drives_ok(*module),
        signal.0 < module.ports@.len(),
        depth == path.len(),
        path_ok(*module, old(visiting)@, path),
        path.len() > 0 ==> drives(*module, path.last(), signal.0 as int),
        ranks_ok(*module, old(complete)@, pos, counter),
        forall|i: int| 0 <= i < path.len() ==> !pos.dom().contains(#[trigger] path[i]),
    ensures
        final(visiting)@.len() == module.ports@.len(),
        final(complete)@.len() == module.ports@.len(),
        match r.0 {
            Ok(()) => {
                &&& final(visiting)@ == old(visiting)@
                &&& ranks_ok(*module, final(complete)@, r.1@, r.2@)
                &&& extends_ranks(pos, r.1@)
                &&& r.1@.dom().contains(signal.0 as int)
                &&& forall|i: int| 0 <= i < path.len() ==> !r.1@.dom().contains(#[trigger] path[i])
            },
            Err(e) => e is CombinationalLoop && exists|p: Seq<int>| is_cycle(*module, p),
        },
    decreases module.ports@.len() - depth,
{
    let ghost m = *module;
    let ghost s = signal.0 as int;
    if complete[signal.0] {
        return (Ok(()), Ghost(pos), Ghost(counter));
    }
    if visiting[signal.0] {
        proof {
            let j = choose|j: int| 0 <= j < path.len() && path[j] == s;
            let cyc = path.subrange(j, path.len() as int);
            assert(cyc.last() == path.last());
            assert forall|i: int| 0 <= i < cyc.len() - 1 implies drives(m, #[trigger] cyc[i], cyc[i + 1]) by {
                assert(cyc[i] == path[j + i]);
                assert(cyc[i + 1] == path[j + i + 1]);
            }
            assert(is_cycle(m, cyc));
        }
        return (Err(HardwareError::CombinationalLoop(module.ports[signal.0].name.clone())), Ghost(pos), Ghost(counter));
    }
    let ghost inner_path = path.push(s);
    proof {
        assert(inner_path.no_duplicates()) by {
            assert forall|i: int, k: int| 0 <= i < k < inner_path.len() implies inner_path[i] != inner_path[k] by {
                if k == path.len() {
                    assert(!path.contains(s));
                    assert(path[i] == inner_path[i]);
                }
            }
        }
        lemma_path_fits(inner_path, module.ports@.len() as int);
    }
    visiting.set(signal.0, true);
    let ghost visiting_inside = visiting@;
    proof {
        assert forall|x: int| 0 <= x < visiting@.len() implies (#[trigger] visiting@[x] <==> inner_path.contains(x)) by {
            if x == s {
                assert(inner_path[path.len() as int] == s);
            } else {
                if inner_path.contains(x) {
                    let i = choose|i: int| 0 <= i < inner_path.len() && inner_path[i] == x;
                    assert(path[i] == x);
                }
                if path.contains(x) {
                    let i = choose|i: int| 0 <= i < path.len() && path[i] == x;
                    assert(inner_path[i] == x);
                }
            }
        }
        assert forall|i: int| 0 <= i < inner_path.len() - 1 implies drives(m, #[trigger] inner_path[i], inner_path[i + 1]) by {
            if i == path.len() - 1 {
                assert(inner_path[i] == path.last());
            } else {
                assert(inner_path[i] == path[i]);
                assert(inner_path[i + 1] == path[i + 1]);
            }
        }
        assert(path_ok(m, visiting@, inner_path));
    }
    let mut cur_pos = Ghost(pos);
    let mut cur_counter = Ghost(counter);
    let found = assignment_of(module, signal);
    let mut refs: Vec<HwSignalId> = Vec::new();
    if let Some(a) = found {
        collect_references(&module.assignments[a].value, &mut refs);
        assert(refs@ =~= references(module.assignments@[a as int].value));
    }
    let mut k: usize = 0;
    while k < refs.len()
        invariant
            module_drives_ok(m),
            *module == m,
            s == signal.0,
            s < m.ports@.len(),
            depth + 1 == inner_path.len(),
            inner_path.len() <= m.ports@.len(),
            inner_path == path.push(s),
            visiting@ == visiting_inside,
            path_ok(m, visiting@, inner_path),
            ranks_ok(m, complete@, cur_pos@, cur_counter@),
            extends_ranks(pos, cur_pos@),
            forall|i: int| 0 <= i < inner_path.len() ==> !cur_pos@.dom().contains(#[trigger] inner_path[i]),
            found matches Some(a) ==> (a < m.assignments@.len() && m.assignments@[a as int].destination.id == signal
                && refs@ == references(m.assignments@[a as int].value)),
            found is None ==> refs@.len() == 0,
            k <= refs@.len(),
            forall|q: int| 0 <= q < k ==> (#[trigger] refs@[q]).0 < m.ports@.len()
                && m.ports@[refs@[q].0 as int].direction == HwPortDirection::Output
                ==> cur_pos@.dom().contains(refs@[q].0 as int),
        decreases refs@.len() - k,
    {
        let reference = refs[k];
        if reference.0 < module.ports.len() && module.ports[reference.0].direction == HwPortDirection::Output {
            proof {
                let a = found->Some_0;
                assert(references(m.assignments@[a as int].value)[k as int] == reference);
                assert(HwSignalId((reference.0 as int) as usize) == reference);
                assert(drives(m, s, reference.0 as int));
                assert(inner_path.last() == s);
            }
            let (result, next_pos, next_counter) = visit(reference, module, visiting, complete, depth + 1, Ghost(inner_path), cur_pos, cur_counter);
            match result {
                Ok(()) => {},
                Err(e) => {
                    return (Err(e), next_pos, next_counter);
                },
            }
            proof {
                assert forall|x: int| #[trigger] pos.dom().contains(x) implies next_pos@.dom().contains(x) && next_pos@[x] == pos[x] by {
                    assert(cur_pos@.dom().contains(x));
                }
                assert forall|q: int| 0 <= q < k + 1 && (#[trigger] refs@[q]).0 < m.ports@.len()
                    && m.ports@[refs@[q].0 as int].direction == HwPortDirection::Output
                    implies next_pos@.dom().contains(refs@[q].0 as int) by {
                    if q < k {
                        assert(cur_pos@.dom().contains(refs@[q].0 as int));
                    }
                }
            }
            cur_pos = next_pos;
            cur_counter = next_counter;
        }
        k += 1;
    }
    visiting.set(signal.0, false);
    complete.set(signal.0, true);
    let ghost final_pos = cur_pos@.insert(s, cur_counter@);
    let ghost final_counter = cur_counter@ + 1;
    proof {
        assert(visiting@ =~= old(visiting)@) by {
            assert forall|x: int| 0 <= x < visiting@.len() implies visiting@[x] == old(visiting)@[x] by {
                if x != s {
                    assert(visiting_inside[x] == inner_path.contains(x));
                    assert(old(visiting)@[x] == path.contains(x));
                    if path.contains(x) {
                        let i = choose|i: int| 0 <= i < path.len() && path[i] == x;
                        assert(inner_path[i] == x);
                    }
                    if inner_path.contains(x) {
                        let i = choose|i: int| 0 <= i < inner_path.len() && inner_path[i] == x;
                        assert(path[i] == x);
                    }
                } else {
                    assert(!path.contains(s));
                }
            }
        }
        assert(!cur_pos@.dom().contains(s)) by {
            assert(inner_path[path.len() as int] == s);
        }
        assert forall|u: int, v: int| #[trigger] final_pos.dom().contains(u) && #[trigger] drives(m, u, v)
            implies final_pos.dom().contains(v) && final_pos[v] < final_pos[u] by {
            if u == s {
                let i = choose|i: int| 0 <= i < m.assignments@.len() && (#[trigger] m.assignments@[i]).destination.id.0 == u
                    && references(m.assignments@[i].value).contains(HwSignalId(v as usize));
                match found {
                    Some(a) => {
                        if i != a {
                            if i < a {
                                assert(m.assignments@[i].destination.id != m.assignments@[a as int].destination.id);
                            } else {
                                assert(m.assignments@[a as int].destination.id != m.assignments@[i].destination.id);
                            }
                        }
                        let q = choose|q: int| 0 <= q < refs@.len() && refs@[q] == HwSignalId(v as usize);
                        assert(refs@[q].0 == v);
                        assert(cur_pos@.dom().contains(v));
                    },
                    None => {
                        assert(m.assignments@[i].destination.id != signal);
                        assert(m.assignments@[i].destination.id == signal);
                    },
                }
            } else {
                assert(cur_pos@.dom().contains(u));
            }
        }
        assert forall|x: int| 0 <= x < complete@.len() implies (#[trigger] complete@[x] <==> final_pos.dom().contains(x)) by {
        }
        assert forall|i: int| 0 <= i < path.len() implies !final_pos.dom().contains(#[trigger] path[i]) by {
            assert(inner_path[i] == path[i]);
            assert(path[i] != s) by {
                assert(!path.contains(s));
            }
        }
        assert forall|x: int| #[trigger] pos.dom().contains(x) implies final_pos.dom().contains(x) && final_pos[x] == pos[x] by {
            assert(cur_pos@.dom().contains(x));
        }
    }
    (Ok(()), Ghost(final_pos), Ghost(final_counter))
}

fn name_taken(names: &Vec<String>, name: &String) -> (r: bool)
    ensures
        r == exists|k: int| 0 <= k < names@.len() && names@[k]@ == name@,
{
    let mut i: usize = 0;
    while i < names.len()
        invariant
            i <= names@.len(),
            forall|k: int| 0 <= k < i ==> names@[k]@ != name@,
        decreases names@.len() - i,
    {
        if str_eq(names[i].as_str(), name.as_str()) {
            return true;
        }
        i += 1;
    }
    false
}

/// Checks one module's drivers, types and widths.
/// What is wrong with assignment `i` of `m`, given that the ones before it
/// are sound: a destination that is no port, an input, an output driven
/// before, or a value of another type.
pub open spec fn assignment_problem(m: HwModule, i: int) -> Option<HwErrorV> {
    let ports = m.ports@;
    let asg = m.assignments@;
    let id = asg[i].destination.id.0;
    if id >= ports.len() {
        Some(HwErrorV::InvalidModule)
    } else if ports[id as int].direction != HwPortDirection::Output {
        Some(HwErrorV::InputAssignment(ports[id as int].name@))
    } else if exists|k: int| 0 <= k < i && (#[trigger] asg[k]).destination.id.0 == id {
        Some(HwErrorV::DuplicateAssignment(ports[id as int].name@))
    } else if asg[i].value.ty != ports[id as int].ty {
        Some(HwErrorV::TypeMismatch)
    } else {
        None
    }
}

/// The first problem with the ports of `m` from port `q` on: a zero width,
/// or an output that no assignment drives.
pub open spec fn ports_problem(m: HwModule, q: int) -> Option<HwErrorV>
    decreases m.ports@.len() - q,
{
    let ports = m.ports@;
    if q < 0 || q >= ports.len() {
        None
    } else if ports[q].ty.width == 0 {
        Some(HwErrorV::InvalidWidth(ports[q].name@))
    } else if ports[q].direction == HwPortDirection::Output
        && !(exists|k: int| 0 <= k < m.assignments@.len() && (#[trigger] m.assignments@[k]).destination.id.0 == q) {
        Some(HwErrorV::MissingAssignment(ports[q].name@))
    } else {
        ports_problem(m, q + 1)
    }
}

/// The first problem with how `m` drives its outputs: the assignments are
/// checked in order from `i` on, then the ports.
pub open spec fn drives_problem(m: HwModule, i: int) -> Option<HwErrorV>
    decreases m.assignments@.len() - i,
{
    if i < 0 || i >= m.assignments@.len() {
        ports_problem(m, 0)
    } else {
        match assignment_problem(m, i) {
            Some(e) => Some(e),
            None => drives_problem(m, i + 1),
        }
    }
}

fn check_module_drives(module: &HwModule) -> (r: Result<(), HardwareError>)
    ensures
        r is Ok <==> module_drives_ok(*module),
        r matches Err(e) ==> !(e is CombinationalLoop),
        match drives_problem(*module, 0) {
            None => r is Ok,
            Some(ev) => r matches Err(e) && e@ == ev,
        },
{
    let ports = &module.ports;
    let assignments = &module.assignments;
    let mut assigned: Vec<bool> = Vec::new();
    let mut p: usize = 0;
    while p < ports.len()
        invariant
            p <= ports@.len(),
            assigned@.len() == p,
            forall|q: int| 0 <= q < p ==> !(#[trigger] assigned@[q]),
        decreases ports@.len() - p,
    {
        assigned.push(false);
        p += 1;
    }
    let mut i: usize = 0;
    while i < assignments.len()
        invariant
            i <= assignments@.len(),
            assigned@.len() == ports@.len(),
            ports == &module.ports,
            assignments == &module.assignments,
            forall|k: int| 0 <= k < i ==> {
                let id = (#[trigger] assignments@[k]).destination.id.0;
                &&& id < ports@.len()
                &&& ports@[id as int].direction == HwPortDirection::Output
                &&& assignments@[k].value.ty == ports@[id as int].ty
            },
            forall|k: int, l: int| 0 <= k < l < i ==> (#[trigger] assignments@[k]).destination.id != (#[trigger] assignments@[l]).destination.id,
            forall|q: int| 0 <= q < ports@.len() ==> (#[trigger] assigned@[q] <==> exists|k: int| 0 <= k < i && (#[trigger] assignments@[k]).destination.id.0 == q),
            drives_problem(*module, 0) == drives_problem(*module, i as int),
        decreases assignments@.len() - i,
    {
        let id = assignments[i].destination.id;
        if id.0 >= ports.len() {
            return Err(HardwareError::InvalidModule);
        }
        let port = &ports[id.0];
        if port.direction != HwPortDirection::Output {
            return Err(HardwareError::InputAssignment(port.name.clone()));
        }
        if assigned[id.0] {
            proof {
                let k = choose|k: int| 0 <= k < i && (#[trigger] assignments@[k]).destination.id.0 == id.0;
                assert(assignments@[k].destination.id == assignments@[i as int].destination.id);
                assert(assignment_problem(*module, i as int) == Some(HwErrorV::DuplicateAssignment(port.name@)));
            }
            return Err(HardwareError::DuplicateAssignment(port.name.clone()));
        }
        proof {
            if exists|k: int| 0 <= k < i && (#[trigger] assignments@[k]).destination.id.0 == id.0 {
                assert(assigned@[id.0 as int]);
            }
        }
        if assignments[i].value.ty != port.ty {
            return Err(HardwareError::TypeMismatch);
        }
        proof {
            assert(assignment_problem(*module, i as int) is None);
        }
        assigned.set(id.0, true);
        proof {
            assert forall|q: int| 0 <= q < ports@.len() implies (#[trigger] assigned@[q] <==> exists|k: int| 0 <= k < i + 1 && (#[trigger] assignments@[k]).destination.id.0 == q) by {
                if q == id.0 {
                    assert(assignments@[i as int].destination.id.0 == q);
                }
            }
        }
        i += 1;
    }
    let mut q: usize = 0;
    while q < ports.len()
        invariant
            q <= ports@.len(),
            assigned@.len() == ports@.len(),
            ports == &module.ports,
            assignments == &module.assignments,
            forall|k: int| 0 <= k < assignments@.len() ==> {
                let id = (#[trigger] assignments@[k]).destination.id.0;
                &&& id < ports@.len()
                &&& ports@[id as int].direction == HwPortDirection::Output
                &&& assignments@[k].value.ty == ports@[id as int].ty
            },
            forall|k: int, l: int| 0 <= k < l < assignments@.len() ==> (#[trigger] assignments@[k]).destination.id != (#[trigger] assignments@[l]).destination.id,
            forall|x: int| 0 <= x < ports@.len() ==> (#[trigger] assigned@[x] <==> exists|k: int| 0 <= k < assignments@.len() && (#[trigger] assignments@[k]).destination.id.0 == x),
            forall|x: int| 0 <= x < q ==> (#[trigger] ports@[x]).ty.width > 0,
            forall|x: int| 0 <= x < q && ports@[x].direction == HwPortDirection::Output ==> #[trigger] assigned@[x],
            drives_problem(*module, 0) == ports_problem(*module, q as int),
        decreases ports@.len() - q,
    {
        if ports[q].ty.width == 0 {
            return Err(HardwareError::InvalidWidth(ports[q].name.clone()));
        }
        if ports[q].direction == HwPortDirection::Output && !assigned[q] {
            return Err(HardwareError::MissingAssignment(ports[q].name.clone()));
        }
        proof {
            if ports@[q as int].direction == HwPortDirection::Output {
                assert(assigned@[q as int]);
            }
        }
        q += 1;
    }
    proof {
        assert forall|x: int| 0 <= x < ports@.len() && ports@[x].direction == HwPortDirection::Output
            implies exists|k: int| 0 <= k < assignments@.len() && (#[trigger] assignments@[k]).destination.id.0 == x by {
            assert(assigned@[x]);
        }
    }
    Ok(())
}

/// Searches every output of a module for a combinational loop.
fn check_module_loops(module: &HwModule) -> (r: Result<(), HardwareError>)
    requires
        module_drives_ok(*module),
    ensures
        r is Ok <==> outputs_acyclic(*module),
        r matches Err(e) ==> e is CombinationalLoop,
{
    let mut visiting: Vec<bool> = Vec::new();
    let mut complete: Vec<bool> = Vec::new();
    let mut p: usize = 0;
    while p < module.ports.len()
        invariant
            p <= module.ports@.len(),
            visiting@.len() == p,
            complete@.len() == p,
            forall|x: int| 0 <= x < p ==> !(#[trigger] visiting@[x]),
            forall|x: int| 0 <= x < p ==> !(#[trigger] complete@[x]),
        decreases module.ports@.len() - p,
    {
        visiting.push(false);
        complete.push(false);
        p += 1;
    }
    let ghost mut pos: Map<int, nat> = Map::empty();
    let ghost mut counter: nat = 0;
    proof {
        assert(path_ok(*module, visiting@, Seq::empty()));
        assert(pos.dom() =~= Set::<int>::empty());
        assert forall|x: int| 0 <= x < complete@.len() implies (#[trigger] complete@[x] <==> pos.dom().contains(x)) by {
            assert(!complete@[x]);
        }
        assert(ranks_ok(*module, complete@, pos, counter));
    }
    let mut a: usize = 0;
    while a < module.assignments.len()
        invariant
            module_drives_ok(*module),
            path_ok(*module, visiting@, Seq::empty()),
            ranks_ok(*module, complete@, pos, counter),
            a <= module.assignments@.len(),
            forall|k: int| 0 <= k < a ==> #[trigger] pos.dom().contains(module.assignments@[k].destination.id.0 as int),
        decreases module.assignments@.len() - a,
    {
        let target = module.assignments[a].destination.id;
        let (result, next_pos, next_counter) = visit(target, module, &mut visiting, &mut complete, 0, Ghost(Seq::empty()), Ghost(pos), Ghost(counter));
        match result {
            Ok(()) => {},
            Err(e) => {
                proof {
                    let cyc = choose|p: Seq<int>| is_cycle(*module, p);
                    lemma_cycle_not_acyclic(*module, cyc);
                }
                return Err(e);
            },
        }
        proof {
            assert forall|k: int| 0 <= k < a + 1 implies #[trigger] next_pos@.dom().contains(module.assignments@[k].destination.id.0 as int) by {
                if k < a {
                    assert(pos.dom().contains(module.assignments@[k].destination.id.0 as int));
                }
            }
            pos = next_pos@;
            counter = next_counter@;
        }
        a += 1;
    }
    proof {
        let rank = |x: int| if pos.dom().contains(x) { pos[x] } else { 0nat };
        assert forall|u: int, v: int| #[trigger] drives(*module, u, v) implies rank(v) < rank(u) by {
            let i = choose|i: int| 0 <= i < module.assignments@.len() && (#[trigger] module.assignments@[i]).destination.id.0 == u
                && references(module.assignments@[i].value).contains(HwSignalId(v as usize));
            assert(pos.dom().contains(module.assignments@[i].destination.id.0 as int));
        }
        assert(ranks_dependencies(*module, rank));
    }
    Ok(())
}

/// Every multiplexer in `e` selects on a one-bit unsigned condition.
pub open spec fn muxes_ok(e: HwExpr) -> bool
    decreases e,
{
    match e.kind {
        HwExprKind::Reference(_) => true,
        HwExprKind::Constant(_) => true,
        HwExprKind::Unary { operand, .. } => muxes_ok(*operand),
        HwExprKind::Binary { lhs, rhs, .. } => muxes_ok(*lhs) && muxes_ok(*rhs),
        HwExprKind::Mux { condition, then_expr, else_expr } => condition.ty == bit1() && muxes_ok(*condition)
            && muxes_ok(*then_expr) && muxes_ok(*else_expr),
    }
}

/// Every multiplexer of a module (in its assignments and in its registers'
/// next values, enables and reset values) selects on a one-bit condition.
pub open spec fn module_muxes_ok(m: HwModule) -> bool {
    &&& forall|i: int| 0 <= i < m.assignments@.len() ==> muxes_ok((#[trigger] m.assignments@[i]).value)
    &&& forall|i: int| 0 <= i < m.registers@.len() ==> {
        let r = #[trigger] m.registers@[i];
        &&& muxes_ok(r.next)
        &&& (r.enable matches Some(e) ==> muxes_ok(e))
        &&& (r.reset matches Some(rs) ==> muxes_ok(rs.value))
    }
}

fn check_muxes(e: &HwExpr) -> (r: bool)
    ensures
        r == muxes_ok(*e),
    decreases e,
{
    match &e.kind {
        HwExprKind::Reference(_) => true,
        HwExprKind::Constant(_) => true,
        HwExprKind::Unary { operand, .. } => check_muxes(operand),
        HwExprKind::Binary { lhs, rhs, .. } => check_muxes(lhs) && check_muxes(rhs),
        HwExprKind::Mux { condition, then_expr, else_expr } => {
            condition.ty.width == 1 && !condition.ty.signed && check_muxes(condition) && check_muxes(then_expr)
                && check_muxes(else_expr)
        },
    }
}

fn check_module_muxes(m: &HwModule) -> (r: bool)
    ensures
        r == module_muxes_ok(*m),
{
    let mut i: usize = 0;
    while i < m.assignments.len()
        invariant
            i <= m.assignments@.len(),
            forall|k: int| 0 <= k < i ==> muxes_ok((#[trigger] m.assignments@[k]).value),
        decreases m.assignments@.len() - i,
    {
        if !check_muxes(&m.assignments[i].value) {
            return false;
        }
        i += 1;
    }
    let mut j: usize = 0;
    while j < m.registers.len()
        invariant
            j <= m.registers@.len(),
            forall|k: int| 0 <= k < m.assignments@.len() ==> muxes_ok((#[trigger] m.assignments@[k]).value),
            forall|k: int| 0 <= k < j ==> {
                let r = #[trigger] m.registers@[k];
                &&& muxes_ok(r.next)
                &&& (r.enable matches Some(e) ==> muxes_ok(e))
                &&& (r.reset matches Some(rs) ==> muxes_ok(rs.value))
            },
        decreases m.registers@.len() - j,
    {
        let r = &m.registers[j];
        if !check_muxes(&r.next) {
            return false;
        }
        if let Some(e) = &r.enable {
            if !check_muxes(e) {
                return false;
            }
        }
        if let Some(rs) = &r.reset {
            if !check_muxes(&rs.value) {
                return false;
            }
        }
        j += 1;
    }
    true
}

/// What a design must satisfy: module names are unique, and in every
/// module each output is driven exactly once by a value of its type, every
/// width is non-zero, every multiplexer selects on a one-bit unsigned
/// condition, and no output depends combinationally on itself.
pub open spec fn design_ok(ms: Seq<HwModule>) -> bool {
    &&& module_names_distinct(ms)
    &&& forall|i: int| 0 <= i < ms.len() ==> module_drives_ok(#[trigger] ms[i]) && module_muxes_ok(ms[i]) && outputs_acyclic(ms[i])
}

/// What checking a design finds first.
pub enum DesignVerdict {
    Sound,
    Fails(HwErrorV),
    /// Some output depends combinationally on itself (which output is
    /// named depends on the search order).
    Loop,
}

/// The verdict on a design from module `m` on: modules are checked in
/// order, each for a name used before, then for how it drives its outputs
/// (see [`drives_problem`]), then its multiplexer conditions, then
/// combinational loops.
pub open spec fn design_verdict(ms: Seq<HwModule>, m: int) -> DesignVerdict
    decreases ms.len() - m,
{
    if m < 0 || m >= ms.len() {
        DesignVerdict::Sound
    } else if exists|k: int| 0 <= k < m && (#[trigger] ms[k]).name@ == ms[m].name@ {
        DesignVerdict::Fails(HwErrorV::DuplicateModule(ms[m].name@))
    } else {
        match drives_problem(ms[m], 0) {
            Some(e) => DesignVerdict::Fails(e),
            None => if !module_muxes_ok(ms[m]) {
                DesignVerdict::Fails(HwErrorV::InvalidCondition)
            } else if !outputs_acyclic(ms[m]) {
                DesignVerdict::Loop
            } else {
                design_verdict(ms, m + 1)
            },
        }
    }
}

/// Checks a design (see [`design_ok`]): it is accepted exactly when the
/// design satisfies all of it, and otherwise fails with the first problem
/// [`design_verdict`] finds.
pub fn verify_hardware_design(design: &HwDesign) -> (r: Result<(), HardwareError>)
    ensures
        r is Ok <==> design_ok(design.modules@),
        match design_verdict(design.modules@, 0) {
            DesignVerdict::Sound => r is Ok,
            DesignVerdict::Fails(ev) => r matches Err(e) && e@ == ev,
            DesignVerdict::Loop => r matches Err(HardwareError::CombinationalLoop(_)),
        },
        r matches Err(HardwareError::CombinationalLoop(_)) ==> exists|i: int| 0 <= i < design.modules@.len()
            && !outputs_acyclic(#[trigger] design.modules@[i]),
{
    let mut names: Vec<String> = Vec::new();
    let mut m: usize = 0;
    while m < design.modules.len()
        invariant
            m <= design.modules@.len(),
            names@.len() == m,
            forall|k: int| 0 <= k < m ==> (#[trigger] names@[k])@ == design.modules@[k].name@,
            module_names_distinct(design.modules@.take(m as int)),
            forall|i: int| 0 <= i < m ==> module_drives_ok(#[trigger] design.modules@[i]) && module_muxes_ok(design.modules@[i])
                && outputs_acyclic(design.modules@[i]),
            design_verdict(design.modules@, 0) == design_verdict(design.modules@, m as int),
        decreases design.modules@.len() - m,
    {
        let module = &design.modules[m];
        if name_taken(&names, &module.name) {
            proof {
                let k = choose|k: int| 0 <= k < names@.len() && names@[k]@ == module.name@;
                assert(design.modules@[k].name@ == design.modules@[m as int].name@);
            }
            return Err(HardwareError::DuplicateModule(module.name.clone()));
        }
        proof {
            if exists|k: int| 0 <= k < m && (#[trigger] design.modules@[k]).name@ == design.modules@[m as int].name@ {
                let k = choose|k: int| 0 <= k < m && (#[trigger] design.modules@[k]).name@ == design.modules@[m as int].name@;
                assert(names@[k]@ == module.name@);
            }
        }
        match check_module_drives(module) {
            Ok(()) => {},
            Err(e) => {
                return Err(e);
            },
        }
        if !check_module_muxes(module) {
            return Err(HardwareError::InvalidCondition);
        }
        match check_module_loops(module) {
            Ok(()) => {},
            Err(e) => {
                return Err(e);
            },
        }
        names.push(module.name.clone());
        proof {
            assert forall|i: int, j: int| 0 <= i < j < m + 1 implies (#[trigger] design.modules@.take(m + 1)[i]).name@ != (#[trigger] design.modules@.take(m + 1)[j]).name@ by {
                if j == m {
                    assert(names@[i]@ == design.modules@[i].name@);
                } else {
                    assert(design.modules@.take(m as int)[i] == design.modules@[i]);
                    assert(design.modules@.take(m as int)[j] == design.modules@[j]);
                }
            }
        }
        m += 1;
    }
    proof {
        assert(design.modules@.take(m as int) =~= design.modules@);
    }
    Ok(())
}


/// Whether `id` names a port or a register of `m`.
pub open spec fn signal_known(m: HwModule, id: HwSignalId) -> bool {
    id.0 < m.ports@.len() + m.registers@.len()
}

/// The name of signal `id`: ports come first, then registers.
pub open spec fn signal_name_of(m: HwModule, id: HwSignalId) -> Seq<char> {
    if id.0 < m.ports@.len() {
        m.ports@[id.0 as int].name@
    } else {
        m.registers@[id.0 - m.ports@.len()].name@
    }
}

/// Whether every signal `e` refers to is known to `m`.
pub open spec fn expr_signals_known(m: HwModule, e: HwExpr) -> bool
    decreases e,
{
    match e.kind {
        HwExprKind::Reference(r) => signal_known(m, r.id),
        HwExprKind::Constant(_) => true,
        HwExprKind::Unary { operand, .. } => expr_signals_known(m, *operand),
        HwExprKind::Binary { lhs, rhs, .. } => expr_signals_known(m, *lhs) && expr_signals_known(m, *rhs),
        HwExprKind::Mux { condition, then_expr, else_expr } => expr_signals_known(m, *condition)
            && expr_signals_known(m, *then_expr) && expr_signals_known(m, *else_expr),
    }
}

pub open spec fn register_signals_known(m: HwModule, r: HwRegister) -> bool {
    &&& signal_known(m, r.clock)
    &&& (r.reset matches Some(rs) ==> signal_known(m, rs.signal) && expr_signals_known(m, rs.value))
    &&& (r.enable matches Some(en) ==> expr_signals_known(m, en))
    &&& expr_signals_known(m, r.next)
}

/// Whether every signal the module's assignments and registers mention is
/// one of its ports or registers.
pub open spec fn module_signals_known(m: HwModule) -> bool {
    &&& forall|i: int| 0 <= i < m.assignments@.len() ==> signal_known(m, (#[trigger] m.assignments@[i]).destination.id)
            && expr_signals_known(m, m.assignments@[i].value)
    &&& forall|i: int| 0 <= i < m.registers@.len() ==> register_signals_known(m, #[trigger] m.registers@[i])
}

pub open spec fn opt_text(b: bool, t: Seq<char>) -> Seq<char> {
    if b {
        t
    } else {
        Seq::empty()
    }
}

pub open spec fn dec(n: nat) -> Seq<char> {
    crate::text::radix_digits(n, 10, false)
}

pub open spec fn magnitude(v: i64) -> nat {
    if v < 0 {
        (-(v as int)) as nat
    } else {
        v as nat
    }
}

/// A sized literal: `<width>'d<n>`, `<width>'sd<n>` for signed types, with
/// a leading `-` for negative values.
pub open spec fn constant_text(v: i64, ty: HwType) -> Seq<char> {
    opt_text(v < 0, "-"@) + dec(ty.width as nat) + "'"@ + opt_text(ty.signed, "s"@) + "d"@ + dec(magnitude(v))
}

pub open spec fn binary_op_text(op: HwBinaryOp) -> Seq<char> {
    match op {
        HwBinaryOp::Add => "+"@,
        HwBinaryOp::Sub => "-"@,
        HwBinaryOp::BitAnd => "&"@,
        HwBinaryOp::BitOr => "|"@,
        HwBinaryOp::BitXor => "^"@,
        HwBinaryOp::Eq => "=="@,
        HwBinaryOp::Ne => "!="@,
        HwBinaryOp::Lt => "<"@,
        HwBinaryOp::Le => "<="@,
        HwBinaryOp::Gt => ">"@,
        HwBinaryOp::Ge => ">="@,
    }
}

/// The SystemVerilog text of an expression, fully parenthesised.
pub open spec fn expr_text(e: HwExpr, m: HwModule) -> Seq<char>
    decreases e,
{
    match e.kind {
        HwExprKind::Reference(r) => signal_name_of(m, r.id),
        HwExprKind::Constant(v) => constant_text(v, e.ty),
        HwExprKind::Unary { operand, .. } => "(~"@ + expr_text(*operand, m) + ")"@,
        HwExprKind::Binary { op, lhs, rhs } => "("@ + expr_text(*lhs, m) + " "@ + binary_op_text(op) + " "@
            + expr_text(*rhs, m) + ")"@,
        HwExprKind::Mux { condition, then_expr, else_expr } => "("@ + expr_text(*condition, m) + " ? "@
            + expr_text(*then_expr, m) + " : "@ + expr_text(*else_expr, m) + ")"@,
    }
}

/// SystemVerilog's operator for each hardware binary operation:
/// `+ - & | ^` for addition, subtraction and the bitwise and, or and xor,
/// `== != < <= > >=` for the comparisons. A printed binary expression is
/// its left operand, that operator and its right operand, in this order
/// and parenthesised; a negation is `~` before its operand and a
/// multiplexer `condition ? then : else`, parenthesised.
pub proof fn law_binary_expressions_print_their_operator(e: HwExpr, m: HwModule)
    ensures
        e.kind matches HwExprKind::Binary { op, lhs, rhs } ==> expr_text(e, m) == seq!['('] + expr_text(*lhs, m) + seq![' ']
            + (match op {
                HwBinaryOp::Add => seq!['+'],
                HwBinaryOp::Sub => seq!['-'],
                HwBinaryOp::BitAnd => seq!['&'],
                HwBinaryOp::BitOr => seq!['|'],
                HwBinaryOp::BitXor => seq!['^'],
                HwBinaryOp::Eq => seq!['=', '='],
                HwBinaryOp::Ne => seq!['!', '='],
                HwBinaryOp::Lt => seq!['<'],
                HwBinaryOp::Le => seq!['<', '='],
                HwBinaryOp::Gt => seq!['>'],
                HwBinaryOp::Ge => seq!['>', '='],
            }) + seq![' '] + expr_text(*rhs, m) + seq![')'],
        e.kind matches HwExprKind::Unary { operand, .. } ==> expr_text(e, m) == seq!['(', '~'] + expr_text(*operand, m) + seq![')'],
        e.kind matches HwExprKind::Mux { condition, then_expr, else_expr } ==> expr_text(e, m) == seq!['('] + expr_text(*condition, m)
            + seq![' ', '?', ' '] + expr_text(*then_expr, m) + seq![' ', ':', ' '] + expr_text(*else_expr, m) + seq![')'],
{
    reveal_strlit("(~");
    assert("(~"@ =~= seq!['(', '~']);
    reveal_strlit(" ? ");
    assert(" ? "@ =~= seq![' ', '?', ' ']);
    reveal_strlit(" : ");
    assert(" : "@ =~= seq![' ', ':', ' ']);
    reveal_strlit("+");
    assert("+"@ =~= seq!['+']);
    reveal_strlit("-");
    assert("-"@ =~= seq!['-']);
    reveal_strlit("&");
    assert("&"@ =~= seq!['&']);
    reveal_strlit("|");
    assert("|"@ =~= seq!['|']);
    reveal_strlit("^");
    assert("^"@ =~= seq!['^']);
    reveal_strlit("==");
    assert("=="@ =~= seq!['=', '=']);
    reveal_strlit("!=");
    assert("!="@ =~= seq!['!', '=']);
    reveal_strlit("<");
    assert("<"@ =~= seq!['<']);
    reveal_strlit("<=");
    assert("<="@ =~= seq!['<', '=']);
    reveal_strlit(">");
    assert(">"@ =~= seq!['>']);
    reveal_strlit(">=");
    assert(">="@ =~= seq!['>', '=']);
    reveal_strlit("(");
    assert("("@ =~= seq!['(']);
    reveal_strlit(")");
    assert(")"@ =~= seq![')']);
    reveal_strlit(" ");
    assert(" "@ =~= seq![' ']);
    reveal_strlit("bit-and");
    assert("bit-and"@ =~= seq!['b', 'i', 't', '-', 'a', 'n', 'd']);
    reveal_strlit("bit-or");
    assert("bit-or"@ =~= seq!['b', 'i', 't', '-', 'o', 'r']);
    reveal_strlit("bit-xor");
    assert("bit-xor"@ =~= seq!['b', 'i', 't', '-', 'x', 'o', 'r']);
    reveal_strlit("=");
    assert("="@ =~= seq!['=']);
    if let HwExprKind::Binary { op, lhs, rhs } = e.kind {
        assert(expr_text(e, m) =~= seq!['('] + expr_text(*lhs, m) + seq![' '] + binary_op_text(op) + seq![' '] + expr_text(*rhs, m) + seq![')']);
    }
    if let HwExprKind::Unary { operand, .. } = e.kind {
        assert(expr_text(e, m) =~= seq!['(', '~'] + expr_text(*operand, m) + seq![')']);
    }
    if let HwExprKind::Mux { condition, then_expr, else_expr } = e.kind {
        assert(expr_text(e, m) =~= seq!['('] + expr_text(*condition, m)
            + seq![' ', '?', ' '] + expr_text(*then_expr, m) + seq![' ', ':', ' '] + expr_text(*else_expr, m) + seq![')']);
    }
}

/// The source names of the hardware operators print as the SystemVerilog
/// operators with the same meaning: `bit-and` as `&`, `bit-or` as `|`,
/// `bit-xor` as `^`, `+` and `-` as themselves, and the comparison `=` as
/// `==`, the others as themselves.
pub proof fn law_operator_names_print_as_systemverilog(name: Seq<char>)
    ensures
        name == seq!['b', 'i', 't', '-', 'a', 'n', 'd'] ==> is_binary_op(name) && binary_op_of(name) == HwBinaryOp::BitAnd && binary_op_text(binary_op_of(name)) == seq!['&'],
        name == seq!['b', 'i', 't', '-', 'o', 'r'] ==> is_binary_op(name) && binary_op_of(name) == HwBinaryOp::BitOr && binary_op_text(binary_op_of(name)) == seq!['|'],
        name == seq!['b', 'i', 't', '-', 'x', 'o', 'r'] ==> is_binary_op(name) && binary_op_of(name) == HwBinaryOp::BitXor && binary_op_text(binary_op_of(name)) == seq!['^'],
        name == seq!['+'] ==> is_binary_op(name) && binary_op_text(binary_op_of(name)) == seq!['+'],
        name == seq!['-'] ==> is_binary_op(name) && binary_op_text(binary_op_of(name)) == seq!['-'],
        name == seq!['='] ==> is_comparison_op(name) && binary_op_text(comparison_op_of(name)) == seq!['=', '='],
        name == seq!['!', '='] ==> is_comparison_op(name) && binary_op_text(comparison_op_of(name)) == seq!['!', '='],
        name == seq!['<'] ==> is_comparison_op(name) && binary_op_text(comparison_op_of(name)) == seq!['<'],
        name == seq!['<', '='] ==> is_comparison_op(name) && binary_op_text(comparison_op_of(name)) == seq!['<', '='],
        name == seq!['>'] ==> is_comparison_op(name) && binary_op_text(comparison_op_of(name)) == seq!['>'],
        name == seq!['>', '='] ==> is_comparison_op(name) && binary_op_text(comparison_op_of(name)) == seq!['>', '='],
{
    reveal_strlit("+");
    assert("+"@ =~= seq!['+']);
    reveal_strlit("-");
    assert("-"@ =~= seq!['-']);
    reveal_strlit("&");
    assert("&"@ =~= seq!['&']);
    reveal_strlit("|");
    assert("|"@ =~= seq!['|']);
    reveal_strlit("^");
    assert("^"@ =~= seq!['^']);
    reveal_strlit("==");
    assert("=="@ =~= seq!['=', '=']);
    reveal_strlit("!=");
    assert("!="@ =~= seq!['!', '=']);
    reveal_strlit("<");
    assert("<"@ =~= seq!['<']);
    reveal_strlit("<=");
    assert("<="@ =~= seq!['<', '=']);
    reveal_strlit(">");
    assert(">"@ =~= seq!['>']);
    reveal_strlit(">=");
    assert(">="@ =~= seq!['>', '=']);
    reveal_strlit("(");
    assert("("@ =~= seq!['(']);
    reveal_strlit(")");
    assert(")"@ =~= seq![')']);
    reveal_strlit(" ");
    assert(" "@ =~= seq![' ']);
    reveal_strlit("bit-and");
    assert("bit-and"@ =~= seq!['b', 'i', 't', '-', 'a', 'n', 'd']);
    reveal_strlit("bit-or");
    assert("bit-or"@ =~= seq!['b', 'i', 't', '-', 'o', 'r']);
    reveal_strlit("bit-xor");
    assert("bit-xor"@ =~= seq!['b', 'i', 't', '-', 'x', 'o', 'r']);
    reveal_strlit("=");
    assert("="@ =~= seq!['=']);
    assert(seq!['<'] != seq!['=']) by {
        assert(seq!['<'][0] != seq!['='][0]);
    }
    assert(seq!['>'] != seq!['=']) by {
        assert(seq!['>'][0] != seq!['='][0]);
    }
    assert(seq!['>'] != seq!['<']) by {
        assert(seq!['>'][0] != seq!['<'][0]);
    }
}

fn push_signal_name(out: &mut Vec<char>, m: &HwModule, id: HwSignalId)
    requires
        signal_known(*m, id),
    ensures
        final(out)@ == old(out)@ + signal_name_of(*m, id),
{
    if id.0 < m.ports.len() {
        push_str(out, m.ports[id.0].name.as_str());
    } else {
        push_str(out, m.registers[id.0 - m.ports.len()].name.as_str());
    }
}

fn emit_constant(out: &mut Vec<char>, v: i64, ty: HwType)
    ensures
        final(out)@ == old(out)@ + constant_text(v, ty),
{
    let ghost start = out@;
    if v < 0 {
        push_str(out, "-");
    }
    let ghost a = out@;
    push_u64_decimal(ty.width as u64, out);
    push_str(out, "'");
    let ghost b = out@;
    if ty.signed {
        push_str(out, "s");
    }
    let ghost c = out@;
    push_str(out, "d");
    let mag: u64 = if v == i64::MIN {
        0x8000_0000_0000_0000u64
    } else if v < 0 {
        (-v) as u64
    } else {
        v as u64
    };
    push_u64_decimal(mag, out);
    proof {
        assert(a =~= start + opt_text(v < 0, "-"@));
        assert(c =~= b + opt_text(ty.signed, "s"@));
        assert(mag as nat == magnitude(v));
        assert(out@ =~= start + constant_text(v, ty));
    }
}

fn push_binary_op(out: &mut Vec<char>, op: HwBinaryOp)
    ensures
        final(out)@ == old(out)@ + binary_op_text(op),
{
    match op {
        HwBinaryOp::Add => push_str(out, "+"),
        HwBinaryOp::Sub => push_str(out, "-"),
        HwBinaryOp::BitAnd => push_str(out, "&"),
        HwBinaryOp::BitOr => push_str(out, "|"),
        HwBinaryOp::BitXor => push_str(out, "^"),
        HwBinaryOp::Eq => push_str(out, "=="),
        HwBinaryOp::Ne => push_str(out, "!="),
        HwBinaryOp::Lt => push_str(out, "<"),
        HwBinaryOp::Le => push_str(out, "<="),
        HwBinaryOp::Gt => push_str(out, ">"),
        HwBinaryOp::Ge => push_str(out, ">="),
    }
}

/// Appends the SystemVerilog text of `e`.
fn emit_expr(out: &mut Vec<char>, e: &HwExpr, m: &HwModule)
    requires
        expr_signals_known(*m, *e),
    ensures
        final(out)@ == old(out)@ + expr_text(*e, *m),
    decreases e,
{
    let ghost start = out@;
    match &e.kind {
        HwExprKind::Reference(r) => push_signal_name(out, m, r.id),
        HwExprKind::Constant(v) => emit_constant(out, *v, e.ty),
        HwExprKind::Unary { operand, .. } => {
            push_str(out, "(~");
            emit_expr(out, operand, m);
            push_str(out, ")");
            assert(out@ =~= start + expr_text(*e, *m));
        },
        HwExprKind::Binary { op, lhs, rhs } => {
            push_str(out, "(");
            emit_expr(out, lhs, m);
            push_str(out, " ");
            push_binary_op(out, *op);
            push_str(out, " ");
            emit_expr(out, rhs, m);
            push_str(out, ")");
            assert(out@ =~= start + expr_text(*e, *m));
        },
        HwExprKind::Mux { condition, then_expr, else_expr } => {
            push_str(out, "(");
            emit_expr(out, condition, m);
            push_str(out, " ? ");
            emit_expr(out, then_expr, m);
            push_str(out, " : ");
            emit_expr(out, else_expr, m);
            push_str(out, ")");
            assert(out@ =~= start + expr_text(*e, *m));
        },
    }
}


pub open spec fn type_text(ty: HwType) -> Seq<char> {
    opt_text(ty.signed, " signed"@) + opt_text(ty.width > 1, " ["@ + dec((ty.width - 1) as nat) + ":0]"@)
}

pub open spec fn direction_text(d: HwPortDirection) -> Seq<char> {
    match d {
        HwPortDirection::Input => "input  wire"@,
        HwPortDirection::Output => "output wire"@,
    }
}

/// One port line; every port but the last ends with a comma.
pub open spec fn port_text(p: HwPort, last: bool) -> Seq<char> {
    "    "@ + direction_text(p.direction) + type_text(p.ty) + " "@ + p.name@ + opt_text(!last, ","@) + "\n"@
}

pub open spec fn ports_text(ps: Seq<HwPort>, i: int) -> Seq<char>
    decreases ps.len() - i,
{
    if i < 0 || i >= ps.len() {
        Seq::empty()
    } else {
        port_text(ps[i], i + 1 == ps.len()) + ports_text(ps, i + 1)
    }
}

pub open spec fn register_decl_text(r: HwRegister) -> Seq<char> {
    "logic"@ + type_text(r.ty) + " "@ + r.name@ + ";\n"@
}

pub open spec fn register_decls_text(rs: Seq<HwRegister>, i: int) -> Seq<char>
    decreases rs.len() - i,
{
    if i < 0 || i >= rs.len() {
        Seq::empty()
    } else {
        register_decl_text(rs[i]) + register_decls_text(rs, i + 1)
    }
}

pub open spec fn edge_text(e: HwEdge) -> Seq<char> {
    match e {
        HwEdge::Rising => "posedge"@,
        HwEdge::Falling => "negedge"@,
    }
}

pub open spec fn reset_condition_text(rs: HwReset, m: HwModule) -> Seq<char> {
    match rs.active_level {
        HwActiveLevel::High => signal_name_of(m, rs.signal),
        HwActiveLevel::Low => "!"@ + signal_name_of(m, rs.signal),
    }
}

pub open spec fn update_text(r: HwRegister, m: HwModule) -> Seq<char> {
    r.name@ + " <= "@ + expr_text(r.next, m) + ";\n"@
}

pub open spec fn reset_branch_text(r: HwRegister, rs: HwReset, m: HwModule) -> Seq<char> {
    "    if ("@ + reset_condition_text(rs, m) + ") begin\n        "@ + r.name@ + " <= "@ + expr_text(rs.value, m)
        + ";\n    end"@
}

pub open spec fn else_branch_text(r: HwRegister, m: HwModule) -> Seq<char> {
    match r.enable {
        Some(en) => " else if ("@ + expr_text(en, m) + ") begin\n        "@ + update_text(r, m) + "    end"@,
        None => " else begin\n        "@ + update_text(r, m) + "    end"@,
    }
}

/// The statements inside a register's `always_ff` block: the reset branch
/// first, then the enable condition, then the plain update.
pub open spec fn register_body_text(r: HwRegister, m: HwModule) -> Seq<char> {
    match r.reset {
        Some(rs) => reset_branch_text(r, rs, m) + else_branch_text(r, m) + "\n"@,
        None => match r.enable {
            Some(en) => "    if ("@ + expr_text(en, m) + ") begin\n        "@ + update_text(r, m) + "    end\n"@,
            None => "    "@ + update_text(r, m),
        },
    }
}

pub open spec fn register_block_text(r: HwRegister, m: HwModule) -> Seq<char> {
    "always_ff @("@ + edge_text(r.edge) + " "@ + signal_name_of(m, r.clock) + ") begin\n"@
        + register_body_text(r, m) + "end\n\n"@
}

pub open spec fn register_blocks_text(rs: Seq<HwRegister>, i: int, m: HwModule) -> Seq<char>
    decreases rs.len() - i,
{
    if i < 0 || i >= rs.len() {
        Seq::empty()
    } else {
        register_block_text(rs[i], m) + register_blocks_text(rs, i + 1, m)
    }
}

pub open spec fn assignment_text(a: HwAssignment, m: HwModule) -> Seq<char> {
    "assign "@ + signal_name_of(m, a.destination.id) + " = "@ + expr_text(a.value, m) + ";\n"@
}

pub open spec fn assignments_text(asg: Seq<HwAssignment>, i: int, m: HwModule) -> Seq<char>
    decreases asg.len() - i,
{
    if i < 0 || i >= asg.len() {
        Seq::empty()
    } else {
        assignment_text(asg[i], m) + assignments_text(asg, i + 1, m)
    }
}

/// The SystemVerilog text of one module.
pub open spec fn module_text(m: HwModule) -> Seq<char> {
    "module "@ + m.name@ + " (\n"@ + ports_text(m.ports@, 0) + ");\n\n"@ + register_decls_text(m.registers@, 0)
        + opt_text(m.registers@.len() > 0, "\n"@) + register_blocks_text(m.registers@, 0, m)
        + assignments_text(m.assignments@, 0, m) + "\nendmodule\n"@
}

/// The modules' texts in order, separated by blank lines.
pub open spec fn design_text(ms: Seq<HwModule>, i: int) -> Seq<char>
    decreases ms.len() - i,
{
    if i < 0 || i >= ms.len() {
        Seq::empty()
    } else {
        opt_text(i > 0, "\n"@) + module_text(ms[i]) + design_text(ms, i + 1)
    }
}

#[verifier::spinoff_prover]
fn emit_type(out: &mut Vec<char>, ty: HwType)
    ensures
        final(out)@ == old(out)@ + type_text(ty),
{
    let ghost start = out@;
    if ty.signed {
        push_str(out, " signed");
    }
    let ghost mid = out@;
    if ty.width > 1 {
        push_str(out, " [");
        push_u64_decimal((ty.width - 1) as u64, out);
        push_str(out, ":0]");
    }
    assert(mid =~= start + opt_text(ty.signed, " signed"@));
    assert(out@ =~= start + type_text(ty));
}

fn emit_port(out: &mut Vec<char>, p: &HwPort, last: bool)
    ensures
        final(out)@ == old(out)@ + port_text(*p, last),
{
    let ghost start = out@;
    push_str(out, "    ");
    match p.direction {
        HwPortDirection::Input => push_str(out, "input  wire"),
        HwPortDirection::Output => push_str(out, "output wire"),
    }
    emit_type(out, p.ty);
    push_str(out, " ");
    push_str(out, p.name.as_str());
    let ghost mid = out@;
    if !last {
        push_str(out, ",");
    }
    push_str(out, "\n");
    assert(out@ =~= start + port_text(*p, last));
}

fn emit_register_decl(out: &mut Vec<char>, r: &HwRegister)
    ensures
        final(out)@ == old(out)@ + register_decl_text(*r),
{
    let ghost start = out@;
    push_str(out, "logic");
    emit_type(out, r.ty);
    push_str(out, " ");
    push_str(out, r.name.as_str());
    push_str(out, ";\n");
    assert(out@ =~= start + register_decl_text(*r));
}

fn emit_update(out: &mut Vec<char>, r: &HwRegister, m: &HwModule)
    requires
        expr_signals_known(*m, r.next),
    ensures
        final(out)@ == old(out)@ + update_text(*r, *m),
{
    let ghost start = out@;
    push_str(out, r.name.as_str());
    push_str(out, " <= ");
    emit_expr(out, &r.next, m);
    push_str(out, ";\n");
    assert(out@ =~= start + update_text(*r, *m));
}

fn emit_reset_branch(out: &mut Vec<char>, r: &HwRegister, rs: &HwReset, m: &HwModule)
    requires
        signal_known(*m, rs.signal),
        expr_signals_known(*m, rs.value),
    ensures
        final(out)@ == old(out)@ + reset_branch_text(*r, *rs, *m),
{
    let ghost start = out@;
    push_str(out, "    if (");
    let ghost a = out@;
    match rs.active_level {
        HwActiveLevel::High => push_signal_name(out, m, rs.signal),
        HwActiveLevel::Low => {
            push_str(out, "!");
            push_signal_name(out, m, rs.signal);
        },
    }
    assert(out@ =~= a + reset_condition_text(*rs, *m));
    push_str(out, ") begin\n        ");
    push_str(out, r.name.as_str());
    push_str(out, " <= ");
    emit_expr(out, &rs.value, m);
    push_str(out, ";\n    end");
    assert(out@ =~= start + reset_branch_text(*r, *rs, *m));
}

fn emit_else_branch(out: &mut Vec<char>, r: &HwRegister, m: &HwModule)
    requires
        register_signals_known(*m, *r),
    ensures
        final(out)@ == old(out)@ + else_branch_text(*r, *m),
{
    let ghost start = out@;
    match &r.enable {
        Some(en) => {
            push_str(out, " else if (");
            emit_expr(out, en, m);
            push_str(out, ") begin\n        ");
            emit_update(out, r, m);
            push_str(out, "    end");
        },
        None => {
            push_str(out, " else begin\n        ");
            emit_update(out, r, m);
            push_str(out, "    end");
        },
    }
    assert(out@ =~= start + else_branch_text(*r, *m));
}

fn emit_register_body(out: &mut Vec<char>, r: &HwRegister, m: &HwModule)
    requires
        register_signals_known(*m, *r),
    ensures
        final(out)@ == old(out)@ + register_body_text(*r, *m),
{
    let ghost start = out@;
    match &r.reset {
        Some(rs) => {
            emit_reset_branch(out, r, rs, m);
            emit_else_branch(out, r, m);
            push_str(out, "\n");
            assert(out@ =~= start + register_body_text(*r, *m));
        },
        None => {
            match &r.enable {
                Some(en) => {
                    push_str(out, "    if (");
                    emit_expr(out, en, m);
                    push_str(out, ") begin\n        ");
                    emit_update(out, r, m);
                    push_str(out, "    end\n");
                },
                None => {
                    push_str(out, "    ");
                    emit_update(out, r, m);
                },
            }
            assert(out@ =~= start + register_body_text(*r, *m));
        },
    }
}

fn emit_register_block(out: &mut Vec<char>, r: &HwRegister, m: &HwModule)
    requires
        register_signals_known(*m, *r),
    ensures
        final(out)@ == old(out)@ + register_block_text(*r, *m),
{
    let ghost start = out@;
    push_str(out, "always_ff @(");
    match r.edge {
        HwEdge::Rising => push_str(out, "posedge"),
        HwEdge::Falling => push_str(out, "negedge"),
    }
    push_str(out, " ");
    push_signal_name(out, m, r.clock);
    push_str(out, ") begin\n");
    emit_register_body(out, r, m);
    push_str(out, "end\n\n");
    assert(out@ =~= start + register_block_text(*r, *m));
}

fn emit_assignment(out: &mut Vec<char>, a: &HwAssignment, m: &HwModule)
    requires
        signal_known(*m, a.destination.id),
        expr_signals_known(*m, a.value),
    ensures
        final(out)@ == old(out)@ + assignment_text(*a, *m),
{
    let ghost start = out@;
    push_str(out, "assign ");
    push_signal_name(out, m, a.destination.id);
    push_str(out, " = ");
    emit_expr(out, &a.value, m);
    push_str(out, ";\n");
    assert(out@ =~= start + assignment_text(*a, *m));
}


fn emit_ports(out: &mut Vec<char>, m: &HwModule)
    ensures
        final(out)@ == old(out)@ + ports_text(m.ports@, 0),
{
    let ghost start = out@;
    let mut i: usize = 0;
    while i < m.ports.len()
        invariant
            i <= m.ports@.len(),
            out@ + ports_text(m.ports@, i as int) == start + ports_text(m.ports@, 0),
        decreases m.ports@.len() - i,
    {
        let ghost prev = out@;
        emit_port(out, &m.ports[i], i + 1 == m.ports.len());
        assert(out@ + ports_text(m.ports@, i + 1) =~= prev + ports_text(m.ports@, i as int));
        i += 1;
    }
    assert(out@ =~= start + ports_text(m.ports@, 0));
}

fn emit_register_decls(out: &mut Vec<char>, m: &HwModule)
    ensures
        final(out)@ == old(out)@ + register_decls_text(m.registers@, 0),
{
    let ghost start = out@;
    let mut j: usize = 0;
    while j < m.registers.len()
        invariant
            j <= m.registers@.len(),
            out@ + register_decls_text(m.registers@, j as int) == start + register_decls_text(m.registers@, 0),
        decreases m.registers@.len() - j,
    {
        let ghost prev = out@;
        emit_register_decl(out, &m.registers[j]);
        assert(out@ + register_decls_text(m.registers@, j + 1) =~= prev + register_decls_text(m.registers@, j as int));
        j += 1;
    }
    assert(out@ =~= start + register_decls_text(m.registers@, 0));
}

fn emit_register_blocks(out: &mut Vec<char>, m: &HwModule)
    requires
        module_signals_known(*m),
    ensures
        final(out)@ == old(out)@ + register_blocks_text(m.registers@, 0, *m),
{
    let ghost start = out@;
    let mut k: usize = 0;
    while k < m.registers.len()
        invariant
            k <= m.registers@.len(),
            module_signals_known(*m),
            out@ + register_blocks_text(m.registers@, k as int, *m) == start + register_blocks_text(m.registers@, 0, *m),
        decreases m.registers@.len() - k,
    {
        let ghost prev = out@;
        assert(register_signals_known(*m, m.registers@[k as int]));
        emit_register_block(out, &m.registers[k], m);
        assert(out@ + register_blocks_text(m.registers@, k + 1, *m) =~= prev + register_blocks_text(m.registers@, k as int, *m));
        k += 1;
    }
    assert(out@ =~= start + register_blocks_text(m.registers@, 0, *m));
}

fn emit_assignments(out: &mut Vec<char>, m: &HwModule)
    requires
        module_signals_known(*m),
    ensures
        final(out)@ == old(out)@ + assignments_text(m.assignments@, 0, *m),
{
    let ghost start = out@;
    let mut a: usize = 0;
    while a < m.assignments.len()
        invariant
            a <= m.assignments@.len(),
            module_signals_known(*m),
            out@ + assignments_text(m.assignments@, a as int, *m) == start + assignments_text(m.assignments@, 0, *m),
        decreases m.assignments@.len() - a,
    {
        let ghost prev = out@;
        assert(signal_known(*m, m.assignments@[a as int].destination.id));
        emit_assignment(out, &m.assignments[a], m);
        assert(out@ + assignments_text(m.assignments@, a + 1, *m) =~= prev + assignments_text(m.assignments@, a as int, *m));
        a += 1;
    }
    assert(out@ =~= start + assignments_text(m.assignments@, 0, *m));
}

#[verifier::spinoff_prover]
#[verifier::rlimit(40)]
fn emit_module(out: &mut Vec<char>, m: &HwModule)
    requires
        module_signals_known(*m),
    ensures
        final(out)@ == old(out)@ + module_text(*m),
{
    let ghost start = out@;
    push_str(out, "module ");
    push_str(out, m.name.as_str());
    push_str(out, " (\n");
    emit_ports(out, m);
    push_str(out, ");\n\n");
    emit_register_decls(out, m);
    let ghost before_gap = out@;
    if m.registers.len() > 0 {
        push_str(out, "\n");
    }
    assert(out@ =~= before_gap + opt_text(m.registers@.len() > 0, "\n"@));
    emit_register_blocks(out, m);
    emit_assignments(out, m);
    push_str(out, "\nendmodule\n");
    assert(out@ =~= start + module_text(*m));
}

/// Checks `design` with [`verify_hardware_design`] and renders it as
/// SystemVerilog: ports as `wire`s, registers as `logic` with one
/// `always_ff` block each, and one continuous `assign` per output.
pub fn emit_systemverilog(design: &HwDesign) -> (r: Result<String, HardwareError>)
    requires
        forall|i: int| 0 <= i < design.modules@.len() ==> module_signals_known(#[trigger] design.modules@[i]),
    ensures
        r is Ok <==> design_ok(design.modules@),
        r matches Ok(text) ==> text@ == design_text(design.modules@, 0),
{
    match verify_hardware_design(design) {
        Ok(()) => {},
        Err(e) => {
            return Err(e);
        },
    }
    let mut out: Vec<char> = Vec::new();
    let mut n: usize = 0;
    while n < design.modules.len()
        invariant
            n <= design.modules@.len(),
            forall|i: int| 0 <= i < design.modules@.len() ==> module_signals_known(#[trigger] design.modules@[i]),
            out@ + design_text(design.modules@, n as int) == design_text(design.modules@, 0),
        decreases design.modules@.len() - n,
    {
        let ghost prev = out@;
        if n > 0 {
            push_str(&mut out, "\n");
        }
        let ghost mid = out@;
        emit_module(&mut out, &design.modules[n]);
        assert(mid =~= prev + opt_text(n > 0, "\n"@));
        assert(out@ + design_text(design.modules@, n + 1) =~= prev + design_text(design.modules@, n as int));
        n += 1;
    }
    assert(out@ =~= design_text(design.modules@, 0));
    Ok(crate::text::string_from_chars(out.as_slice()))
}


proof fn lemma_lookup_none(s: Seq<(Seq<char>, HwSignalId, HwType, HwPortDirection)>, name: Seq<char>)
    ensures
        lookup_signal(s, name) is None <==> forall|k: int| 0 <= k < s.len() ==> (#[trigger] s[k]).0 != name,
    decreases s.len(),
{
    if s.len() > 0 {
        lemma_lookup_none(s.drop_first(), name);
        if s[0].0 != name {
            assert forall|k: int| 0 <= k < s.len() && (forall|k2: int| 0 <= k2 < s.drop_first().len() ==> (#[trigger] s.drop_first()[k2]).0 != name)
                implies (#[trigger] s[k]).0 != name by {
                if k > 0 {
                    assert(s[k] == s.drop_first()[k - 1]);
                }
            }
            assert((forall|k: int| 0 <= k < s.len() ==> (#[trigger] s[k]).0 != name) ==> (forall|k2: int| 0 <= k2 < s.drop_first().len() ==> (#[trigger] s.drop_first()[k2]).0 != name)) by {
                if forall|k: int| 0 <= k < s.len() ==> (#[trigger] s[k]).0 != name {
                    assert forall|k2: int| 0 <= k2 < s.drop_first().len() implies (#[trigger] s.drop_first()[k2]).0 != name by {
                        assert(s.drop_first()[k2] == s[k2 + 1]);
                    }
                }
            }
        }
    }
}

/// The type of signal `id`: ports come first, then registers.
pub open spec fn signal_type(m: HwModule, id: HwSignalId) -> HwType {
    if id.0 < m.ports@.len() {
        m.ports@[id.0 as int].ty
    } else {
        m.registers@[id.0 - m.ports@.len()].ty
    }
}

pub open spec fn ascii_lower_char(c: char) -> char {
    if 'A' <= c <= 'Z' {
        ((c as u32) + 32) as char
    } else {
        c
    }
}

/// `s` with ASCII capitals turned into small letters.
pub open spec fn ascii_lower(s: Seq<char>) -> Seq<char> {
    s.map_values(|c: char| ascii_lower_char(c))
}

/// What a lowered register satisfies: a non-zero width, a next value of
/// its own type, a one-bit unsigned input port as clock, a one-bit enable
/// and a reset on a one-bit signal to a value of the register's type.
pub open spec fn register_well_formed(m: HwModule, r: HwRegister) -> bool {
    &&& r.ty.width > 0
    &&& r.next.ty == r.ty
    &&& r.clock.0 < m.ports@.len()
    &&& m.ports@[r.clock.0 as int].direction == HwPortDirection::Input
    &&& m.ports@[r.clock.0 as int].ty == bit1()
    &&& (r.enable matches Some(en) ==> en.ty == bit1())
    &&& (r.reset matches Some(rs) ==> rs.value.ty == r.ty && signal_known(m, rs.signal) && signal_type(m, rs.signal) == bit1())
}

/// What lowering guarantees of a module: valid identifiers, port names
/// distinct ignoring ASCII case, register names distinct from every other
/// signal name, well-formed registers, and assignments that each drive a
/// distinct output port or register with a value of its type; every
/// signal mentioned is one of the module's own.
pub open spec fn module_well_formed(m: HwModule) -> bool {
    let ports = m.ports@;
    let regs = m.registers@;
    let asg = m.assignments@;
    &&& is_valid_identifier(m.name@)
    &&& module_signals_known(m)
    &&& forall|p: int| 0 <= p < ports.len() ==> is_valid_identifier((#[trigger] ports[p]).name@) && ports[p].ty.width > 0
    &&& forall|p: int, q: int| 0 <= p < q < ports.len() ==> ascii_lower((#[trigger] ports[p]).name@) != ascii_lower((#[trigger] ports[q]).name@)
    &&& forall|j: int, p: int| 0 <= j < regs.len() && 0 <= p < ports.len() ==> (#[trigger] regs[j]).name@ != (#[trigger] ports[p]).name@
    &&& forall|j: int, k: int| 0 <= j < k < regs.len() ==> (#[trigger] regs[j]).name@ != (#[trigger] regs[k]).name@
    &&& forall|j: int| 0 <= j < regs.len() ==> register_well_formed(m, #[trigger] regs[j])
    &&& forall|i: int| 0 <= i < asg.len() ==> {
        let d = (#[trigger] asg[i]).destination.id;
        &&& asg[i].value.ty == signal_type(m, d)
        &&& (d.0 < ports.len() ==> ports[d.0 as int].direction == HwPortDirection::Output)
    }
    &&& forall|i: int, j: int| 0 <= i < j < asg.len() ==> (#[trigger] asg[i]).destination.id != (#[trigger] asg[j]).destination.id
}

fn list_of(e: &Expr) -> (r: Result<&Vec<Expr>, HardwareError>)
    ensures
        e.kind is List ==> (r matches Ok(items) && e.kind == ExprKind::List(*items)),
        !(e.kind is List) ==> (r matches Err(x) && x == HardwareError::InvalidModule),
{
    match &e.kind {
        ExprKind::List(items) => Ok(items),
        _ => Err(HardwareError::InvalidModule),
    }
}

fn symbol_of(e: &Expr) -> (r: Result<&String, HardwareError>)
    ensures
        e.kind is Symbol ==> (r matches Ok(s) && e.kind == ExprKind::Symbol(*s)),
        !(e.kind is Symbol) ==> (r matches Err(x) && x == HardwareError::InvalidModule),
{
    match &e.kind {
        ExprKind::Symbol(s) => Ok(s),
        _ => Err(HardwareError::InvalidModule),
    }
}

fn ascii_lowercase(s: &str) -> (r: Vec<char>)
    ensures
        r@ == ascii_lower(s@),
{
    let chars = crate::text::str_chars(s);
    let mut out: Vec<char> = Vec::new();
    let mut i: usize = 0;
    while i < chars.len()
        invariant
            i <= chars@.len(),
            chars@ == s@,
            out@ == ascii_lower(s@).take(i as int),
        decreases chars@.len() - i,
    {
        let c = chars[i];
        let lc = if 'A' <= c && c <= 'Z' {
            crate::text::char_from_u32_ascii((c as u32) + 32)
        } else {
            c
        };
        out.push(lc);
        i += 1;
        assert(out@ =~= ascii_lower(s@).take(i as int));
    }
    assert(ascii_lower(s@).take(i as int) =~= ascii_lower(s@));
    out
}

fn lowered_taken(names: &Vec<Vec<char>>, name: &Vec<char>) -> (r: bool)
    ensures
        r == exists|k: int| 0 <= k < names@.len() && (#[trigger] names@[k])@ == name@,
{
    let mut i: usize = 0;
    while i < names.len()
        invariant
            i <= names@.len(),
            forall|k: int| 0 <= k < i ==> (#[trigger] names@[k])@ != name@,
        decreases names@.len() - i,
    {
        if crate::text::chars_eq(names[i].as_slice(), name.as_slice()) {
            return true;
        }
        i += 1;
    }
    false
}

/// What one `(input|output name)` port definition lowers to, given the
/// ASCII-lowercased names of the ports before it: `name` (after `meta`
/// forms are resolved) must be a valid identifier not equal to an earlier
/// port's ignoring ASCII case, and its properties must give it a type.
pub open spec fn port_spec(def: ExprV, lowered: Seq<Seq<char>>) -> Result<HwPortV, HwErrorV> {
    if !(def.kind is List) {
        Err(HwErrorV::InvalidModule)
    } else {
        let form = def.kind->List_0;
        if form.len() != 2 {
            Err(HwErrorV::InvalidPort)
        } else if !(form[0].kind is Symbol) {
            Err(HwErrorV::InvalidModule)
        } else if form[0].kind->Symbol_0 != "input"@ && form[0].kind->Symbol_0 != "output"@ {
            Err(HwErrorV::InvalidPort)
        } else {
            match resolve_meta_spec(form[1]) {
                None => Err(HwErrorV::InvalidPort),
                Some(c) => if !(c.kind is Symbol) {
                    Err(HwErrorV::InvalidPort)
                } else {
                    let n = c.kind->Symbol_0;
                    if !is_valid_identifier(n) {
                        Err(HwErrorV::InvalidIdentifier(n))
                    } else if lowered.contains(ascii_lower(n)) {
                        Err(HwErrorV::DuplicatePort(n))
                    } else {
                        match type_of_properties(c.properties) {
                            Err(p) => Err(type_error(p, n)),
                            Ok(t) => Ok(HwPortV {
                                direction: if form[0].kind->Symbol_0 == "input"@ { HwPortDirection::Input } else { HwPortDirection::Output },
                                name: n,
                                ty: t,
                                properties: c.properties,
                            }),
                        }
                    }
                },
            }
        }
    }
}

/// The ASCII-lowercased names of `ports`.
pub open spec fn lowered_names(ports: Seq<HwPortV>) -> Seq<Seq<char>> {
    ports.map_values(|p: HwPortV| ascii_lower(p.name))
}

/// The ports of a `(ports ...)` form from definition `i` on, after the
/// already lowered `acc`.
pub open spec fn ports_spec(form: Seq<ExprV>, i: int, acc: Seq<HwPortV>) -> Result<Seq<HwPortV>, HwErrorV>
    decreases form.len() - i,
{
    if i < 0 || i >= form.len() {
        Ok(acc)
    } else {
        match port_spec(form[i], lowered_names(acc)) {
            Err(e) => Err(e),
            Ok(p) => ports_spec(form, i + 1, acc.push(p)),
        }
    }
}

/// The views of `ports`.
pub open spec fn port_views(ports: Seq<HwPort>) -> Seq<HwPortV> {
    ports.map_values(|p: HwPort| p@)
}

/// Lowers one `(input|output port)` definition.
fn lower_port(definition: &Expr, lowered: &Vec<Vec<char>>) -> (r: Result<(HwPort, Vec<char>), HardwareError>)
    ensures
        match port_spec(definition@, lowered@.map_values(|l: Vec<char>| l@)) {
            Ok(pv) => r matches Ok((p, _)) && p@ == pv,
            Err(ev) => r matches Err(e) && e@ == ev,
        },
        r matches Ok((p, low)) ==> {
            &&& is_valid_identifier(p.name@)
            &&& p.ty.width > 0
            &&& low@ == ascii_lower(p.name@)
            &&& forall|k: int| 0 <= k < lowered@.len() ==> (#[trigger] lowered@[k])@ != low@
        },
{
    let form = match list_of(definition) {
        Ok(f) => f,
        Err(e) => {
            return Err(e);
        },
    };
    proof {
        lemma_exprs_view_all(form@);
    }
    if form.len() != 2 {
        return Err(HardwareError::InvalidPort);
    }
    let direction_name = match symbol_of(&form[0]) {
        Ok(s) => s,
        Err(e) => {
            return Err(e);
        },
    };
    let direction = if crate::text::str_eq(direction_name.as_str(), "input") {
        HwPortDirection::Input
    } else if crate::text::str_eq(direction_name.as_str(), "output") {
        HwPortDirection::Output
    } else {
        return Err(HardwareError::InvalidPort);
    };
    let core = match resolve_meta(&form[1]) {
        Some(c) => c,
        None => {
            return Err(HardwareError::InvalidPort);
        },
    };
    let port_name = match &core.kind {
        ExprKind::Symbol(n) => n,
        _ => {
            return Err(HardwareError::InvalidPort);
        },
    };
    if !valid_identifier(port_name.as_str()) {
        return Err(HardwareError::InvalidIdentifier(port_name.clone()));
    }
    let low = ascii_lowercase(port_name.as_str());
    if lowered_taken(lowered, &low) {
        proof {
            let k = choose|k: int| 0 <= k < lowered@.len() && (#[trigger] lowered@[k])@ == low@;
            assert(lowered@.map_values(|l: Vec<char>| l@)[k] == low@);
        }
        return Err(HardwareError::DuplicatePort(port_name.clone()));
    }
    proof {
        let lv = lowered@.map_values(|l: Vec<char>| l@);
        if lv.contains(low@) {
            let k = choose|k: int| 0 <= k < lv.len() && #[trigger] lv[k] == low@;
            assert((#[trigger] lowered@[k])@ == low@);
        }
    }
    let ty = match type_from_properties(&core.properties, port_name.as_str()) {
        Ok(t) => t,
        Err(e) => {
            return Err(e);
        },
    };
    Ok((HwPort { direction, name: port_name.clone(), ty, properties: core.properties.copy() }, low))
}

/// Lowers the definitions of a `(ports ...)` form, in order.
fn lower_ports(form: &Vec<Expr>) -> (r: Result<Vec<HwPort>, HardwareError>)
    requires
        form@.len() >= 1,
    ensures
        match ports_spec(exprs_view(form@, form@.len() as int), 1, Seq::empty()) {
            Ok(pv) => r matches Ok(ports) && port_views(ports@) == pv,
            Err(ev) => r matches Err(e) && e@ == ev,
        },
        r matches Ok(ports) ==> {
            &&& ports@.len() == form@.len() - 1
            &&& forall|p: int| 0 <= p < ports@.len() ==> is_valid_identifier((#[trigger] ports@[p]).name@) && ports@[p].ty.width > 0
            &&& forall|p: int, q: int| 0 <= p < q < ports@.len() ==> ascii_lower((#[trigger] ports@[p]).name@) != ascii_lower((#[trigger] ports@[q]).name@)
        },
{
    let mut ports: Vec<HwPort> = Vec::new();
    let mut lowered: Vec<Vec<char>> = Vec::new();
    let mut i: usize = 1;
    let ghost fv = exprs_view(form@, form@.len() as int);
    proof {
        lemma_exprs_view_all(form@);
        assert(port_views(ports@) =~= Seq::<HwPortV>::empty());
    }
    while i < form.len()
        invariant
            1 <= i <= form@.len(),
            fv == exprs_view(form@, form@.len() as int),
            fv.len() == form@.len(),
            forall|k: int| 0 <= k < form@.len() ==> #[trigger] fv[k] == form@[k]@,
            ports_spec(fv, 1, Seq::empty()) == ports_spec(fv, i as int, port_views(ports@)),
            ports@.len() == i - 1,
            lowered@.len() == ports@.len(),
            forall|k: int| 0 <= k < ports@.len() ==> (#[trigger] lowered@[k])@ == ascii_lower(ports@[k].name@),
            forall|p: int| 0 <= p < ports@.len() ==> is_valid_identifier((#[trigger] ports@[p]).name@) && ports@[p].ty.width > 0,
            forall|p: int, q: int| 0 <= p < q < ports@.len() ==> ascii_lower((#[trigger] ports@[p]).name@) != ascii_lower((#[trigger] ports@[q]).name@),
        decreases form@.len() - i,
    {
        proof {
            assert(lowered@.map_values(|l: Vec<char>| l@) =~= lowered_names(port_views(ports@)));
        }
        let (port, low) = match lower_port(&form[i], &lowered) {
            Ok(x) => x,
            Err(e) => {
                return Err(e);
            },
        };
        proof {
            assert(port_views(ports@.push(port)) =~= port_views(ports@).push(port@));
        }
        let ghost old_ports = ports@;
        let ghost old_lowered = lowered@;
        ports.push(port);
        lowered.push(low);
        proof {
            assert forall|p: int, q: int| 0 <= p < q < ports@.len() implies ascii_lower((#[trigger] ports@[p]).name@) != ascii_lower((#[trigger] ports@[q]).name@) by {
                if q == ports@.len() - 1 {
                    assert(old_lowered[p]@ == ascii_lower(old_ports[p].name@));
                    assert(lowered@[p] == old_lowered[p]);
                }
            }
        }
        i += 1;
    }
    Ok(ports)
}


/// Entry `k` of a module's signal table: ports first, with their own
/// directions, then registers, which are outputs.
pub open spec fn table_entry(ports: Seq<HwPort>, regs: Seq<(Seq<char>, HwType)>, k: int) -> (Seq<char>, HwSignalId, HwType, HwPortDirection) {
    if k < ports.len() {
        (ports[k].name@, HwSignalId(k as usize), ports[k].ty, ports[k].direction)
    } else {
        (regs[k - ports.len()].0, HwSignalId(k as usize), regs[k - ports.len()].1, HwPortDirection::Output)
    }
}

pub open spec fn table_matches(sv: Seq<(Seq<char>, HwSignalId, HwType, HwPortDirection)>, ports: Seq<HwPort>, regs: Seq<(Seq<char>, HwType)>) -> bool {
    &&& sv.len() == ports.len() + regs.len()
    &&& forall|k: int| 0 <= k < sv.len() ==> #[trigger] sv[k] == table_entry(ports, regs, k)
}

pub open spec fn decls_view(d: Seq<(String, HwType)>) -> Seq<(Seq<char>, HwType)> {
    d.map_values(|x: (String, HwType)| (x.0@, x.1))
}

pub open spec fn registers_view(rs: Seq<HwRegister>) -> Seq<(Seq<char>, HwType)> {
    rs.map_values(|r: HwRegister| (r.name@, r.ty))
}

/// The signal table of a module with ports `ports` and registers `regs`:
/// ports first, with their own directions, then registers, as outputs.
pub open spec fn table_v(ports: Seq<HwPortV>, regs: Seq<(Seq<char>, HwType)>) -> Seq<(Seq<char>, HwSignalId, HwType, HwPortDirection)> {
    Seq::new(
        (ports.len() + regs.len()) as nat,
        |k: int| if k < ports.len() {
            (ports[k].name, HwSignalId(k as usize), ports[k].ty, ports[k].direction)
        } else {
            (regs[k - ports.len()].0, HwSignalId(k as usize), regs[k - ports.len()].1, HwPortDirection::Output)
        },
    )
}

proof fn lemma_table_v(sv: Seq<(Seq<char>, HwSignalId, HwType, HwPortDirection)>, ports: Seq<HwPort>, regs: Seq<(Seq<char>, HwType)>)
    requires
        table_matches(sv, ports, regs),
    ensures
        sv == table_v(port_views(ports), regs),
{
    assert forall|k: int| 0 <= k < sv.len() implies #[trigger] sv[k] == table_v(port_views(ports), regs)[k] by {
        assert(sv[k] == table_entry(ports, regs, k));
    }
    assert(sv =~= table_v(port_views(ports), regs));
}

/// The register declarations of a `(registers ...)` form from form `i` on,
/// after the already declared `acc`: each `(register name type ...)` names
/// a register no port or earlier register is called, with a `meta`-typed
/// symbol as its type.
pub open spec fn decls_spec(forms: Seq<ExprV>, i: int, ports: Seq<HwPortV>, acc: Seq<(Seq<char>, HwType)>) -> Result<Seq<(Seq<char>, HwType)>, HwErrorV>
    decreases forms.len() - i,
{
    if i < 0 || i >= forms.len() {
        Ok(acc)
    } else if !(forms[i].kind is List) {
        Err(HwErrorV::InvalidModule)
    } else {
        let f = forms[i].kind->List_0;
        if f.len() < 3 || !(f[0].kind is Symbol) || f[0].kind->Symbol_0 != "register"@ {
            Err(HwErrorV::InvalidModule)
        } else {
            match resolve_meta_spec(f[2]) {
                None => Err(HwErrorV::InvalidPort),
                Some(c) => if !(c.kind is Symbol) {
                    Err(HwErrorV::InvalidPort)
                } else if !(f[1].kind is Symbol) {
                    Err(HwErrorV::InvalidModule)
                } else {
                    let n = f[1].kind->Symbol_0;
                    if lookup_signal(table_v(ports, acc), n) is Some {
                        Err(HwErrorV::DuplicatePort(n))
                    } else {
                        match type_of_properties(c.properties) {
                            Err(p) => Err(type_error(p, n)),
                            Ok(t) => decls_spec(forms, i + 1, ports, acc.push((n, t))),
                        }
                    }
                },
            }
        }
    }
}

/// Declares the registers of a `(registers ...)` form: each is
/// `(register name type attributes...)`, with a name no other signal has.
fn declare_registers(forms: &Vec<Expr>, ports: &Vec<HwPort>, lookup: &mut Vec<SignalEntry>) -> (r: Result<Vec<(String, HwType)>, HardwareError>)
    requires
        forms@.len() >= 1,
        table_matches(signals_view(old(lookup)@), ports@, Seq::empty()),
    ensures
        match decls_spec(exprs_view(forms@, forms@.len() as int), 1, port_views(ports@), Seq::empty()) {
            Ok(dv) => r matches Ok(decls) && decls_view(decls@) == dv,
            Err(ev) => r matches Err(e) && e@ == ev,
        },
        r matches Ok(decls) ==> {
            &&& decls@.len() == forms@.len() - 1
            &&& table_matches(signals_view(final(lookup)@), ports@, decls_view(decls@))
            &&& forall|j: int| 0 <= j < decls@.len() ==> (#[trigger] decls@[j]).1.width > 0
            &&& forall|j: int| 1 <= j < forms@.len() ==> (#[trigger] forms@[j]).kind is List && forms@[j].kind->List_0@.len() >= 3
            &&& forall|j: int, p: int| 0 <= j < decls@.len() && 0 <= p < ports@.len() ==> (#[trigger] decls@[j]).0@ != (#[trigger] ports@[p]).name@
            &&& forall|j: int, k: int| 0 <= j < k < decls@.len() ==> (#[trigger] decls@[j]).0@ != (#[trigger] decls@[k]).0@
        },
{
    let mut decls: Vec<(String, HwType)> = Vec::new();
    let mut i: usize = 1;
    let ghost fv = exprs_view(forms@, forms@.len() as int);
    let ghost pv = port_views(ports@);
    proof {
        lemma_exprs_view_all(forms@);
        assert(decls_view(decls@) =~= Seq::<(Seq<char>, HwType)>::empty());
    }
    while i < forms.len()
        invariant
            1 <= i <= forms@.len(),
            fv == exprs_view(forms@, forms@.len() as int),
            pv == port_views(ports@),
            fv.len() == forms@.len(),
            forall|k: int| 0 <= k < forms@.len() ==> #[trigger] fv[k] == forms@[k]@,
            decls_spec(fv, 1, pv, Seq::empty()) == decls_spec(fv, i as int, pv, decls_view(decls@)),
            decls@.len() == i - 1,
            table_matches(signals_view(lookup@), ports@, decls_view(decls@)),
            forall|j: int| 0 <= j < decls@.len() ==> (#[trigger] decls@[j]).1.width > 0,
            forall|j: int| 1 <= j < i ==> (#[trigger] forms@[j]).kind is List && forms@[j].kind->List_0@.len() >= 3,
            forall|j: int, p: int| 0 <= j < decls@.len() && 0 <= p < ports@.len() ==> (#[trigger] decls@[j]).0@ != (#[trigger] ports@[p]).name@,
            forall|j: int, k: int| 0 <= j < k < decls@.len() ==> (#[trigger] decls@[j]).0@ != (#[trigger] decls@[k]).0@,
        decreases forms@.len() - i,
    {
        let form = match list_of(&forms[i]) {
            Ok(f) => f,
            Err(e) => {
                return Err(e);
            },
        };
        proof {
            lemma_exprs_view_all(form@);
            lemma_table_v(signals_view(lookup@), ports@, decls_view(decls@));
        }
        if form.len() < 3 {
            return Err(HardwareError::InvalidModule);
        }
        let head = match symbol_of(&form[0]) {
            Ok(h) => h,
            Err(e) => {
                return Err(e);
            },
        };
        if !crate::text::str_eq(head.as_str(), "register") {
            return Err(HardwareError::InvalidModule);
        }
        let core = match resolve_meta(&form[2]) {
            Some(c) => c,
            None => {
                return Err(HardwareError::InvalidPort);
            },
        };
        match &core.kind {
            ExprKind::Symbol(_) => {},
            _ => {
                return Err(HardwareError::InvalidPort);
            },
        }
        let name = match symbol_of(&form[1]) {
            Ok(n) => n,
            Err(e) => {
                return Err(e);
            },
        };
        if find_signal(lookup, name.as_str()).is_some() {
            return Err(HardwareError::DuplicatePort(name.clone()));
        }
        proof {
            lemma_lookup_none(signals_view(lookup@), name@);
        }
        let ty = match type_from_properties(&core.properties, name.as_str()) {
            Ok(t) => t,
            Err(e) => {
                return Err(e);
            },
        };
        let ghost old_lookup = lookup@;
        let ghost old_decls = decls@;
        let id = HwSignalId(lookup.len());
        lookup.push((name.clone(), id, ty, HwPortDirection::Output));
        decls.push((name.clone(), ty));
        proof {
            assert(decls_view(decls@) =~= decls_view(old_decls).push((name@, ty)));
            assert forall|k: int| 0 <= k < signals_view(lookup@).len() implies #[trigger] signals_view(lookup@)[k] == table_entry(ports@, decls_view(decls@), k) by {
                if k < old_lookup.len() {
                    assert(signals_view(lookup@)[k] == signals_view(old_lookup)[k]);
                    assert(signals_view(old_lookup)[k] == table_entry(ports@, decls_view(old_decls), k));
                    if k >= ports@.len() {
                        assert(decls_view(decls@)[k - ports@.len()] == decls_view(old_decls)[k - ports@.len()]);
                    }
                } else {
                    assert(decls_view(decls@)[k - ports@.len()] == (name@, ty));
                }
            }
            assert forall|j: int, p: int| 0 <= j < decls@.len() && 0 <= p < ports@.len() implies (#[trigger] decls@[j]).0@ != (#[trigger] ports@[p]).name@ by {
                if j == decls@.len() - 1 {
                    assert(signals_view(old_lookup)[p] == table_entry(ports@, decls_view(old_decls), p));
                }
            }
            assert forall|j: int, k: int| 0 <= j < k < decls@.len() implies (#[trigger] decls@[j]).0@ != (#[trigger] decls@[k]).0@ by {
                if k == decls@.len() - 1 {
                    let at = ports@.len() + j;
                    assert(signals_view(old_lookup)[at] == table_entry(ports@, decls_view(old_decls), at));
                    assert(decls_view(old_decls)[j] == (old_decls[j].0@, old_decls[j].1));
                }
            }
        }
        i += 1;
    }
    Ok(decls)
}


/// The mathematical model of a register's reset.
pub struct HwResetV {
    pub signal: HwSignalId,
    pub active_level: HwActiveLevel,
    pub value: HwExprV,
}

/// The mathematical model of a register.
pub struct HwRegisterV {
    pub name: Seq<char>,
    pub ty: HwType,
    pub clock: HwSignalId,
    pub edge: HwEdge,
    pub reset: Option<HwResetV>,
    pub enable: Option<HwExprV>,
    pub next: HwExprV,
}

impl HwReset {
    pub open spec fn view(&self) -> HwResetV {
        HwResetV { signal: self.signal, active_level: self.active_level, value: self.value@ }
    }
}

pub open spec fn opt_expr_view(o: Option<HwExpr>) -> Option<HwExprV> {
    match o {
        Some(e) => Some(e@),
        None => None,
    }
}

pub open spec fn opt_reset_view(o: Option<HwReset>) -> Option<HwResetV> {
    match o {
        Some(r) => Some(r@),
        None => None,
    }
}

impl HwRegister {
    pub open spec fn view(&self) -> HwRegisterV {
        HwRegisterV {
            name: self.name@,
            ty: self.ty,
            clock: self.clock,
            edge: self.edge,
            reset: opt_reset_view(self.reset),
            enable: opt_expr_view(self.enable),
            next: self.next@,
        }
    }
}

/// What `(clock signal rising|falling)` gives: a one-bit unsigned input
/// and the edge.
pub open spec fn clock_spec(parts: Seq<ExprV>, sv: Seq<(Seq<char>, HwSignalId, HwType, HwPortDirection)>) -> Result<(HwSignalId, HwEdge), HwErrorV> {
    if parts.len() != 3 || !(parts[1].kind is Symbol) {
        Err(HwErrorV::InvalidModule)
    } else {
        let n = parts[1].kind->Symbol_0;
        match lookup_signal(sv, n) {
            None => Err(HwErrorV::UnknownSignal(n)),
            Some((id, ty, dir)) => if dir != HwPortDirection::Input || ty != bit1() {
                Err(HwErrorV::InvalidCondition)
            } else if parts[2].kind == ExprKindV::Symbol("rising"@) {
                Ok((id, HwEdge::Rising))
            } else if parts[2].kind == ExprKindV::Symbol("falling"@) {
                Ok((id, HwEdge::Falling))
            } else {
                Err(HwErrorV::InvalidModule)
            },
        }
    }
}

/// What `(reset sync signal high|low value)` gives for a register of type
/// `ty`: a one-bit signal, its active level and the lowered value.
pub open spec fn reset_spec(parts: Seq<ExprV>, sv: Seq<(Seq<char>, HwSignalId, HwType, HwPortDirection)>, ty: HwType) -> Result<HwResetV, HwErrorV> {
    if parts.len() != 5 || parts[1].kind != ExprKindV::Symbol("sync"@) || !(parts[2].kind is Symbol) {
        Err(HwErrorV::InvalidModule)
    } else {
        let n = parts[2].kind->Symbol_0;
        match lookup_signal(sv, n) {
            None => Err(HwErrorV::UnknownSignal(n)),
            Some((id, sty, _)) => if sty != bit1() {
                Err(HwErrorV::InvalidCondition)
            } else if parts[3].kind != ExprKindV::Symbol("high"@) && parts[3].kind != ExprKindV::Symbol("low"@) {
                Err(HwErrorV::InvalidModule)
            } else {
                match reset_value_lower(parts[4], sv, ty) {
                    Err(f) => Err(fail_error(f)),
                    Ok(v) => Ok(HwResetV {
                        signal: id,
                        active_level: if parts[3].kind == ExprKindV::Symbol("high"@) { HwActiveLevel::High } else { HwActiveLevel::Low },
                        value: v,
                    }),
                }
            },
        }
    }
}

/// The attributes of a register read so far.
pub struct RegisterAttrsV {
    pub clock: Option<(HwSignalId, HwEdge)>,
    pub next: Option<HwExprV>,
    pub reset: Option<HwResetV>,
    pub enable: Option<HwExprV>,
}

/// Reads the attributes of a register form from attribute `a` on: each is
/// a `clock`, `next`, `enable` or `reset` form, none of them twice.
pub open spec fn attrs_spec(
    form: Seq<ExprV>,
    a: int,
    sv: Seq<(Seq<char>, HwSignalId, HwType, HwPortDirection)>,
    ty: HwType,
    st: RegisterAttrsV,
) -> Result<RegisterAttrsV, HwErrorV>
    decreases form.len() - a,
{
    if a < 0 || a >= form.len() {
        Ok(st)
    } else if !(form[a].kind is List) {
        Err(HwErrorV::InvalidModule)
    } else {
        let parts = form[a].kind->List_0;
        if parts.len() == 0 || !(parts[0].kind is Symbol) {
            Err(HwErrorV::InvalidModule)
        } else {
            let head = parts[0].kind->Symbol_0;
            if head == "clock"@ {
                match clock_spec(parts, sv) {
                    Err(e) => Err(e),
                    Ok(c) => if st.clock is Some {
                        Err(HwErrorV::InvalidModule)
                    } else {
                        attrs_spec(form, a + 1, sv, ty, RegisterAttrsV { clock: Some(c), ..st })
                    },
                }
            } else if head == "next"@ || head == "enable"@ {
                if parts.len() != 2 {
                    Err(HwErrorV::InvalidModule)
                } else {
                    match hw_expr_lower(parts[1], sv, if head == "next"@ { Some(ty) } else { Some(bit1()) }) {
                        Err(f) => Err(fail_error(f)),
                        Ok(v) => if head == "next"@ {
                            if st.next is Some {
                                Err(HwErrorV::InvalidModule)
                            } else {
                                attrs_spec(form, a + 1, sv, ty, RegisterAttrsV { next: Some(v), ..st })
                            }
                        } else if st.enable is Some {
                            Err(HwErrorV::InvalidModule)
                        } else {
                            attrs_spec(form, a + 1, sv, ty, RegisterAttrsV { enable: Some(v), ..st })
                        },
                    }
                }
            } else if head == "reset"@ {
                match reset_spec(parts, sv, ty) {
                    Err(e) => Err(e),
                    Ok(rs) => if st.reset is Some {
                        Err(HwErrorV::InvalidModule)
                    } else {
                        attrs_spec(form, a + 1, sv, ty, RegisterAttrsV { reset: Some(rs), ..st })
                    },
                }
            } else {
                Err(HwErrorV::InvalidModule)
            }
        }
    }
}

/// What the register form `(register name type attributes...)` lowers to,
/// given its declared name and type: exactly one clock and one next value
/// of the register's type, at most one one-bit enable and one reset.
pub open spec fn register_spec(form: Seq<ExprV>, name: Seq<char>, ty: HwType, sv: Seq<(Seq<char>, HwSignalId, HwType, HwPortDirection)>) -> Result<HwRegisterV, HwErrorV> {
    match attrs_spec(form, 3, sv, ty, RegisterAttrsV { clock: None, next: None, reset: None, enable: None }) {
        Err(e) => Err(e),
        Ok(st) => match st.clock {
            None => Err(HwErrorV::InvalidModule),
            Some((clock, edge)) => match st.next {
                None => Err(HwErrorV::InvalidModule),
                Some(next) => if next.ty != ty {
                    Err(HwErrorV::TypeMismatch)
                } else if st.enable matches Some(en) && en.ty != bit1() {
                    Err(HwErrorV::InvalidCondition)
                } else if st.reset matches Some(rs) && rs.value.ty != ty {
                    Err(HwErrorV::TypeMismatch)
                } else {
                    Ok(HwRegisterV { name, ty, clock, edge, reset: st.reset, enable: st.enable, next })
                },
            },
        },
    }
}

/// `(clock signal rising|falling)`: the signal must be a one-bit unsigned input.
fn clock_attribute(parts: &Vec<Expr>, lookup: &Vec<SignalEntry>) -> (r: Result<(HwSignalId, HwEdge), HardwareError>)
    ensures
        match clock_spec(exprs_view(parts@, parts@.len() as int), signals_view(lookup@)) {
            Ok(c) => r == Ok::<(HwSignalId, HwEdge), HardwareError>(c),
            Err(ev) => r matches Err(e) && e@ == ev,
        },
        r matches Ok((id, _)) ==> exists|k: int| 0 <= k < lookup@.len() && (#[trigger] signals_view(lookup@)[k]).1 == id
            && signals_view(lookup@)[k].2 == bit1() && signals_view(lookup@)[k].3 == HwPortDirection::Input,
{
    proof {
        lemma_exprs_view_all(parts@);
    }
    if parts.len() != 3 {
        return Err(HardwareError::InvalidModule);
    }
    let signal = match symbol_of(&parts[1]) {
        Ok(s) => s,
        Err(e) => {
            return Err(e);
        },
    };
    let (id, ty, direction) = match find_signal(lookup, signal.as_str()) {
        Some(x) => x,
        None => {
            return Err(HardwareError::UnknownSignal(signal.clone()));
        },
    };
    proof {
        lemma_lookup_found(signals_view(lookup@), signal@);
    }
    if direction != HwPortDirection::Input || ty != (HwType { width: 1, signed: false }) {
        return Err(HardwareError::InvalidCondition);
    }
    let edge_name = match symbol_of(&parts[2]) {
        Ok(s) => s,
        Err(e) => {
            return Err(e);
        },
    };
    let edge = if crate::text::str_eq(edge_name.as_str(), "rising") {
        HwEdge::Rising
    } else if crate::text::str_eq(edge_name.as_str(), "falling") {
        HwEdge::Falling
    } else {
        return Err(HardwareError::InvalidModule);
    };
    Ok((id, edge))
}

/// `(reset sync signal high|low value)`: the signal must be one bit wide;
/// the value is lowered for the register's type.
fn reset_attribute(parts: &Vec<Expr>, lookup: &Vec<SignalEntry>, ty: HwType) -> (r: Result<HwReset, HardwareError>)
    requires
        ty.width >= 1,
    ensures
        match reset_spec(exprs_view(parts@, parts@.len() as int), signals_view(lookup@), ty) {
            Ok(rv) => r matches Ok(rs) && rs@ == rv,
            Err(ev) => r matches Err(e) && e@ == ev,
        },
        r matches Ok(rs) ==> {
            &&& rs.value.ty == reset_value_type(parts@[4]@, signals_view(lookup@), ty)->Ok_0
            &&& reset_value_type(parts@[4]@, signals_view(lookup@), ty) is Ok
            &&& refs_from(rs.value, signals_view(lookup@))
            &&& exists|k: int| 0 <= k < lookup@.len() && (#[trigger] signals_view(lookup@)[k]).1 == rs.signal
                && signals_view(lookup@)[k].2 == bit1()
        },
{
    proof {
        lemma_exprs_view_all(parts@);
    }
    if parts.len() != 5 {
        return Err(HardwareError::InvalidModule);
    }
    let kind = match symbol_of(&parts[1]) {
        Ok(s) => s,
        Err(e) => {
            return Err(e);
        },
    };
    if !crate::text::str_eq(kind.as_str(), "sync") {
        return Err(HardwareError::InvalidModule);
    }
    let signal = match symbol_of(&parts[2]) {
        Ok(s) => s,
        Err(e) => {
            return Err(e);
        },
    };
    let (id, sty, _) = match find_signal(lookup, signal.as_str()) {
        Some(x) => x,
        None => {
            return Err(HardwareError::UnknownSignal(signal.clone()));
        },
    };
    proof {
        lemma_lookup_found(signals_view(lookup@), signal@);
    }
    if sty != (HwType { width: 1, signed: false }) {
        return Err(HardwareError::InvalidCondition);
    }
    let level_name = match symbol_of(&parts[3]) {
        Ok(s) => s,
        Err(e) => {
            return Err(e);
        },
    };
    let active_level = if crate::text::str_eq(level_name.as_str(), "high") {
        HwActiveLevel::High
    } else if crate::text::str_eq(level_name.as_str(), "low") {
        HwActiveLevel::Low
    } else {
        return Err(HardwareError::InvalidModule);
    };
    let value = match lower_reset_value(&parts[4], lookup, ty) {
        Ok(v) => v,
        Err(e) => {
            return Err(e);
        },
    };
    Ok(HwReset { signal: id, active_level, value })
}

/// Lowers the attributes of one register: exactly one clock and one next
/// value, at most one enable and one reset, each checked for its type.
fn lower_register(form: &Vec<Expr>, name: &String, ty: HwType, lookup: &Vec<SignalEntry>) -> (r: Result<HwRegister, HardwareError>)
    requires
        form@.len() >= 3,
        ty.width >= 1,
    ensures
        match register_spec(exprs_view(form@, form@.len() as int), name@, ty, signals_view(lookup@)) {
            Ok(rv) => r matches Ok(reg) && reg@ == rv,
            Err(ev) => r matches Err(e) && e@ == ev,
        },
        r matches Ok(reg) ==> {
            &&& reg.name@ == name@
            &&& reg.ty == ty
            &&& reg.next.ty == ty
            &&& refs_from(reg.next, signals_view(lookup@))
            &&& exists|k: int| 0 <= k < lookup@.len() && (#[trigger] signals_view(lookup@)[k]).1 == reg.clock
                && signals_view(lookup@)[k].2 == bit1() && signals_view(lookup@)[k].3 == HwPortDirection::Input
            &&& (reg.enable matches Some(en) ==> en.ty == bit1() && refs_from(en, signals_view(lookup@)))
            &&& (reg.reset matches Some(rs) ==> rs.value.ty == ty && refs_from(rs.value, signals_view(lookup@))
                && exists|k: int| 0 <= k < lookup@.len() && (#[trigger] signals_view(lookup@)[k]).1 == rs.signal
                    && signals_view(lookup@)[k].2 == bit1())
        },
{
    let ghost sv = signals_view(lookup@);
    let mut clock: Option<(HwSignalId, HwEdge)> = None;
    let mut next: Option<HwExpr> = None;
    let mut reset: Option<HwReset> = None;
    let mut enable: Option<HwExpr> = None;
    let mut a: usize = 3;
    let ghost fv = exprs_view(form@, form@.len() as int);
    proof {
        lemma_exprs_view_all(form@);
    }
    while a < form.len()
        invariant
            3 <= a <= form@.len(),
            fv == exprs_view(form@, form@.len() as int),
            fv.len() == form@.len(),
            forall|k: int| 0 <= k < form@.len() ==> #[trigger] fv[k] == form@[k]@,
            attrs_spec(fv, 3, sv, ty, RegisterAttrsV { clock: None, next: None, reset: None, enable: None })
                == attrs_spec(fv, a as int, sv, ty, RegisterAttrsV {
                    clock: clock,
                    next: opt_expr_view(next),
                    reset: opt_reset_view(reset),
                    enable: opt_expr_view(enable),
                }),
            sv == signals_view(lookup@),
            ty.width >= 1,
            clock matches Some((id, _)) ==> exists|k: int| 0 <= k < lookup@.len() && (#[trigger] sv[k]).1 == id
                && sv[k].2 == bit1() && sv[k].3 == HwPortDirection::Input,
            next matches Some(nx) ==> refs_from(nx, sv),
            enable matches Some(en) ==> refs_from(en, sv),
            reset matches Some(rs) ==> {
                &&& refs_from(rs.value, sv)
                &&& exists|k: int| 0 <= k < lookup@.len() && (#[trigger] sv[k]).1 == rs.signal && sv[k].2 == bit1()
            },
        decreases form@.len() - a,
    {
        let parts = match list_of(&form[a]) {
            Ok(p) => p,
            Err(e) => {
                return Err(e);
            },
        };
        proof {
            lemma_exprs_view_all(parts@);
        }
        if parts.len() == 0 {
            return Err(HardwareError::InvalidModule);
        }
        let head = match symbol_of(&parts[0]) {
            Ok(h) => h,
            Err(e) => {
                return Err(e);
            },
        };
        if crate::text::str_eq(head.as_str(), "clock") {
            let c = match clock_attribute(parts, lookup) {
                Ok(c) => c,
                Err(e) => {
                    return Err(e);
                },
            };
            if clock.is_some() {
                return Err(HardwareError::InvalidModule);
            }
            clock = Some(c);
        } else if crate::text::str_eq(head.as_str(), "next") {
            if parts.len() != 2 {
                return Err(HardwareError::InvalidModule);
            }
            let value = match lower_expr(&parts[1], lookup, Some(ty)) {
                Ok(v) => v,
                Err(e) => {
                    return Err(e);
                },
            };
            if next.is_some() {
                return Err(HardwareError::InvalidModule);
            }
            next = Some(value);
        } else if crate::text::str_eq(head.as_str(), "enable") {
            if parts.len() != 2 {
                return Err(HardwareError::InvalidModule);
            }
            let value = match lower_expr(&parts[1], lookup, Some(HwType { width: 1, signed: false })) {
                Ok(v) => v,
                Err(e) => {
                    return Err(e);
                },
            };
            if enable.is_some() {
                return Err(HardwareError::InvalidModule);
            }
            enable = Some(value);
        } else if crate::text::str_eq(head.as_str(), "reset") {
            let rs = match reset_attribute(parts, lookup, ty) {
                Ok(x) => x,
                Err(e) => {
                    return Err(e);
                },
            };
            if reset.is_some() {
                return Err(HardwareError::InvalidModule);
            }
            reset = Some(rs);
        } else {
            return Err(HardwareError::InvalidModule);
        }
        a += 1;
    }
    let (clock_id, edge) = match clock {
        Some(c) => c,
        None => {
            return Err(HardwareError::InvalidModule);
        },
    };
    let next = match next {
        Some(n) => n,
        None => {
            return Err(HardwareError::InvalidModule);
        },
    };
    if next.ty != ty {
        return Err(HardwareError::TypeMismatch);
    }
    let enable_ok = match &enable {
        Some(en) => en.ty == (HwType { width: 1, signed: false }),
        None => true,
    };
    if !enable_ok {
        return Err(HardwareError::InvalidCondition);
    }
    let reset_ok = match &reset {
        Some(rs) => rs.value.ty == ty,
        None => true,
    };
    if !reset_ok {
        return Err(HardwareError::TypeMismatch);
    }
    Ok(HwRegister { name: name.clone(), ty, clock: clock_id, edge, reset, enable, next })
}


/// The mathematical model of an assignment.
pub struct HwAssignmentV {
    pub destination: HwSignalId,
    pub value: HwExprV,
    pub properties: Map<Seq<char>, PropertyValueV>,
}

impl HwAssignment {
    pub open spec fn view(&self) -> HwAssignmentV {
        HwAssignmentV { destination: self.destination.id, value: self.value@, properties: self.properties@ }
    }
}

pub open spec fn assignment_views(a: Seq<HwAssignment>) -> Seq<HwAssignmentV> {
    a.map_values(|x: HwAssignment| x@)
}

/// The assignments of the statements `items[stmts[s]]`, `items[stmts[s +
/// 1]]`, ... after the already lowered `acc`: each `(assign name value)`
/// drives an output no earlier statement drives, with a value of its type.
pub open spec fn assigns_spec(
    items: Seq<ExprV>,
    stmts: Seq<usize>,
    s: int,
    sv: Seq<(Seq<char>, HwSignalId, HwType, HwPortDirection)>,
    acc: Seq<HwAssignmentV>,
) -> Result<Seq<HwAssignmentV>, HwErrorV>
    decreases stmts.len() - s,
{
    if s < 0 || s >= stmts.len() {
        Ok(acc)
    } else {
        let e = items[stmts[s] as int];
        if !(e.kind is List) {
            Err(HwErrorV::InvalidModule)
        } else {
            let f = e.kind->List_0;
            if f.len() != 3 || f[0].kind != ExprKindV::Symbol("assign"@) || !(f[1].kind is Symbol) {
                Err(HwErrorV::InvalidModule)
            } else {
                let d = f[1].kind->Symbol_0;
                match lookup_signal(sv, d) {
                    None => Err(HwErrorV::UnknownSignal(d)),
                    Some((id, ty, dir)) => if dir != HwPortDirection::Output {
                        Err(HwErrorV::InputAssignment(d))
                    } else if exists|k: int| 0 <= k < acc.len() && (#[trigger] acc[k]).destination == id {
                        Err(HwErrorV::DuplicateAssignment(d))
                    } else {
                        match hw_expr_lower(f[2], sv, Some(ty)) {
                            Err(fl) => Err(fail_error(fl)),
                            Ok(v) => if v.ty != ty {
                                Err(HwErrorV::TypeMismatch)
                            } else {
                                assigns_spec(items, stmts, s + 1, sv, acc.push(HwAssignmentV { destination: id, value: v, properties: Map::empty() }))
                            },
                        }
                    },
                }
            }
        }
    }
}

/// Whether one of `assignments` already drives signal `id`.
fn drives_already(assignments: &Vec<HwAssignment>, id: HwSignalId) -> (r: bool)
    ensures
        r == exists|t: int| 0 <= t < assignments@.len() && (#[trigger] assignments@[t]).destination.id == id,
{
    let mut t: usize = 0;
    while t < assignments.len()
        invariant
            t <= assignments@.len(),
            forall|i: int| 0 <= i < t ==> (#[trigger] assignments@[i]).destination.id != id,
        decreases assignments@.len() - t,
    {
        if assignments[t].destination.id == id {
            return true;
        }
        t += 1;
    }
    false
}

/// Lowers the `(assign output value)` statements, in order: each drives a
/// distinct output (port or register) with a value of its type.
fn lower_assignments(items: &Vec<Expr>, statements: &Vec<usize>, lookup: &Vec<SignalEntry>) -> (r: Result<Vec<HwAssignment>, HardwareError>)
    requires
        forall|k: int| 0 <= k < statements@.len() ==> (#[trigger] statements@[k]) < items@.len(),
    ensures
        match assigns_spec(exprs_view(items@, items@.len() as int), statements@, 0, signals_view(lookup@), Seq::empty()) {
            Ok(av) => r matches Ok(asg) && assignment_views(asg@) == av,
            Err(ev) => r matches Err(e) && e@ == ev,
        },
        r matches Ok(asg) ==> {
            &&& forall|i: int| 0 <= i < asg@.len() ==> exists|k: int| 0 <= k < lookup@.len()
                && (#[trigger] signals_view(lookup@)[k]).1 == (#[trigger] asg@[i]).destination.id
                && signals_view(lookup@)[k].3 == HwPortDirection::Output && asg@[i].value.ty == signals_view(lookup@)[k].2
            &&& forall|i: int| 0 <= i < asg@.len() ==> refs_from((#[trigger] asg@[i]).value, signals_view(lookup@))
            &&& forall|i: int, j: int| 0 <= i < j < asg@.len() ==> (#[trigger] asg@[i]).destination.id != (#[trigger] asg@[j]).destination.id
        },
{
    let ghost sv = signals_view(lookup@);
    let mut assignments: Vec<HwAssignment> = Vec::new();
    let mut s: usize = 0;
    let ghost iv = exprs_view(items@, items@.len() as int);
    proof {
        lemma_exprs_view_all(items@);
        assert(assignment_views(assignments@) =~= Seq::<HwAssignmentV>::empty());
    }
    while s < statements.len()
        invariant
            s <= statements@.len(),
            iv == exprs_view(items@, items@.len() as int),
            iv.len() == items@.len(),
            forall|k: int| 0 <= k < items@.len() ==> #[trigger] iv[k] == items@[k]@,
            assigns_spec(iv, statements@, 0, sv, Seq::empty()) == assigns_spec(iv, statements@, s as int, sv, assignment_views(assignments@)),
            sv == signals_view(lookup@),
            forall|k: int| 0 <= k < statements@.len() ==> (#[trigger] statements@[k]) < items@.len(),
            forall|i: int| 0 <= i < assignments@.len() ==> exists|k: int| 0 <= k < lookup@.len()
                && (#[trigger] sv[k]).1 == (#[trigger] assignments@[i]).destination.id
                && sv[k].3 == HwPortDirection::Output && assignments@[i].value.ty == sv[k].2,
            forall|i: int| 0 <= i < assignments@.len() ==> refs_from((#[trigger] assignments@[i]).value, sv),
            forall|i: int, j: int| 0 <= i < j < assignments@.len() ==> (#[trigger] assignments@[i]).destination.id != (#[trigger] assignments@[j]).destination.id,
        decreases statements@.len() - s,
    {
        let form = match list_of(&items[statements[s]]) {
            Ok(f) => f,
            Err(e) => {
                return Err(e);
            },
        };
        proof {
            lemma_exprs_view_all(form@);
        }
        if form.len() != 3 {
            return Err(HardwareError::InvalidModule);
        }
        let head = match symbol_of(&form[0]) {
            Ok(h) => h,
            Err(e) => {
                return Err(e);
            },
        };
        if !crate::text::str_eq(head.as_str(), "assign") {
            return Err(HardwareError::InvalidModule);
        }
        let destination = match symbol_of(&form[1]) {
            Ok(d) => d,
            Err(e) => {
                return Err(e);
            },
        };
        let (id, ty, direction) = match find_signal(lookup, destination.as_str()) {
            Some(x) => x,
            None => {
                return Err(HardwareError::UnknownSignal(destination.clone()));
            },
        };
        proof {
            lemma_lookup_found(sv, destination@);
        }
        if direction != HwPortDirection::Output {
            return Err(HardwareError::InputAssignment(destination.clone()));
        }
        if drives_already(&assignments, id) {
            proof {
                let t = choose|t: int| 0 <= t < assignments@.len() && (#[trigger] assignments@[t]).destination.id == id;
                assert(assignment_views(assignments@)[t].destination == id);
            }
            return Err(HardwareError::DuplicateAssignment(destination.clone()));
        }
        let value = match lower_expr(&form[2], lookup, Some(ty)) {
            Ok(v) => v,
            Err(e) => {
                return Err(e);
            },
        };
        if value.ty != ty {
            return Err(HardwareError::TypeMismatch);
        }
        proof {
            let av = assignment_views(assignments@);
            assert forall|k: int| 0 <= k < av.len() implies (#[trigger] av[k]).destination != id by {
                assert(av[k].destination == assignments@[k].destination.id);
            }
            assert forall|i: int| 0 <= i < assignments@.len() implies (#[trigger] assignments@[i]).destination.id != id by {
                assert(av[i].destination == assignments@[i].destination.id);
            }
        }
        let ghost before = assignments@;
        assignments.push(HwAssignment { destination: HwSignalRef { id }, value, properties: Properties::new() });
        proof {
            assert(assignment_views(assignments@) =~= assignment_views(before).push(assignments@[before.len() as int]@));
            assert forall|i: int| 0 <= i < assignments@.len() implies exists|k: int| 0 <= k < lookup@.len()
                && (#[trigger] sv[k]).1 == (#[trigger] assignments@[i]).destination.id
                && sv[k].3 == HwPortDirection::Output && assignments@[i].value.ty == sv[k].2 by {
                if i < before.len() {
                    assert(assignments@[i] == before[i]);
                }
            }
            assert forall|i: int| 0 <= i < assignments@.len() implies refs_from((#[trigger] assignments@[i]).value, sv) by {
                if i < before.len() {
                    assert(assignments@[i] == before[i]);
                }
            }
        }
        s += 1;
    }
    Ok(assignments)
}


/// Facts of one lowered register against the signal table `sv`.
pub open spec fn register_lowered(r: HwRegister, sv: Seq<(Seq<char>, HwSignalId, HwType, HwPortDirection)>) -> bool {
    &&& r.next.ty == r.ty
    &&& refs_from(r.next, sv)
    &&& exists|k: int| 0 <= k < sv.len() && (#[trigger] sv[k]).1 == r.clock && sv[k].2 == bit1() && sv[k].3 == HwPortDirection::Input
    &&& (r.enable matches Some(en) ==> en.ty == bit1() && refs_from(en, sv))
    &&& (r.reset matches Some(rs) ==> rs.value.ty == r.ty && refs_from(rs.value, sv)
        && exists|k: int| 0 <= k < sv.len() && (#[trigger] sv[k]).1 == rs.signal && sv[k].2 == bit1())
}

proof fn lemma_refs_known(e: HwExpr, sv: Seq<(Seq<char>, HwSignalId, HwType, HwPortDirection)>, m: HwModule)
    requires
        refs_from(e, sv),
        sv.len() == m.ports@.len() + m.registers@.len(),
        forall|k: int| 0 <= k < sv.len() ==> (#[trigger] sv[k]).1.0 == k,
    ensures
        expr_signals_known(m, e),
    decreases e,
{
    match e.kind {
        HwExprKind::Reference(r) => {
            let k = choose|k: int| 0 <= k < sv.len() && (#[trigger] sv[k]).1 == r.id;
        },
        HwExprKind::Constant(_) => {},
        HwExprKind::Unary { operand, .. } => lemma_refs_known(*operand, sv, m),
        HwExprKind::Binary { lhs, rhs, .. } => {
            lemma_refs_known(*lhs, sv, m);
            lemma_refs_known(*rhs, sv, m);
        },
        HwExprKind::Mux { condition, then_expr, else_expr } => {
            lemma_refs_known(*condition, sv, m);
            lemma_refs_known(*then_expr, sv, m);
            lemma_refs_known(*else_expr, sv, m);
        },
    }
}

proof fn lemma_module_well_formed(m: HwModule, sv: Seq<(Seq<char>, HwSignalId, HwType, HwPortDirection)>)
    requires
        sv.len() <= usize::MAX,
        is_valid_identifier(m.name@),
        table_matches(sv, m.ports@, registers_view(m.registers@)),
        forall|p: int| 0 <= p < m.ports@.len() ==> is_valid_identifier((#[trigger] m.ports@[p]).name@) && m.ports@[p].ty.width > 0,
        forall|p: int, q: int| 0 <= p < q < m.ports@.len() ==> ascii_lower((#[trigger] m.ports@[p]).name@) != ascii_lower((#[trigger] m.ports@[q]).name@),
        forall|j: int, p: int| 0 <= j < m.registers@.len() && 0 <= p < m.ports@.len() ==> (#[trigger] m.registers@[j]).name@ != (#[trigger] m.ports@[p]).name@,
        forall|j: int, k: int| 0 <= j < k < m.registers@.len() ==> (#[trigger] m.registers@[j]).name@ != (#[trigger] m.registers@[k]).name@,
        forall|j: int| 0 <= j < m.registers@.len() ==> (#[trigger] m.registers@[j]).ty.width > 0 && register_lowered(m.registers@[j], sv),
        forall|i: int| 0 <= i < m.assignments@.len() ==> exists|k: int| 0 <= k < sv.len()
            && (#[trigger] sv[k]).1 == (#[trigger] m.assignments@[i]).destination.id
            && sv[k].3 == HwPortDirection::Output && m.assignments@[i].value.ty == sv[k].2,
        forall|i: int| 0 <= i < m.assignments@.len() ==> refs_from((#[trigger] m.assignments@[i]).value, sv),
        forall|i: int, j: int| 0 <= i < j < m.assignments@.len() ==> (#[trigger] m.assignments@[i]).destination.id != (#[trigger] m.assignments@[j]).destination.id,
    ensures
        module_well_formed(m),
{
    let pl = m.ports@.len();
    assert forall|k: int| 0 <= k < sv.len() implies (#[trigger] sv[k]).1.0 == k && sv[k].2 == signal_type(m, sv[k].1)
        && (sv[k].3 == HwPortDirection::Input ==> k < pl)
        && (k < pl ==> sv[k].3 == m.ports@[k].direction) by {
        assert(sv[k] == table_entry(m.ports@, registers_view(m.registers@), k));
        if k >= pl {
            assert(registers_view(m.registers@)[k - pl] == (m.registers@[k - pl].name@, m.registers@[k - pl].ty));
        }
    }
    assert forall|i: int| 0 <= i < m.assignments@.len() implies signal_known(m, (#[trigger] m.assignments@[i]).destination.id)
        && expr_signals_known(m, m.assignments@[i].value) by {
        lemma_refs_known(m.assignments@[i].value, sv, m);
        let k = choose|k: int| 0 <= k < sv.len() && (#[trigger] sv[k]).1 == m.assignments@[i].destination.id
            && sv[k].3 == HwPortDirection::Output && m.assignments@[i].value.ty == sv[k].2;
    }
    assert forall|j: int| 0 <= j < m.registers@.len() implies register_signals_known(m, #[trigger] m.registers@[j])
        && register_well_formed(m, m.registers@[j]) by {
        let r = m.registers@[j];
        lemma_refs_known(r.next, sv, m);
        let kc = choose|k: int| 0 <= k < sv.len() && (#[trigger] sv[k]).1 == r.clock && sv[k].2 == bit1() && sv[k].3 == HwPortDirection::Input;
        match r.enable {
            Some(en) => lemma_refs_known(en, sv, m),
            None => {},
        }
        match r.reset {
            Some(rs) => {
                lemma_refs_known(rs.value, sv, m);
                let kr = choose|k: int| 0 <= k < sv.len() && (#[trigger] sv[k]).1 == rs.signal && sv[k].2 == bit1();
            },
            None => {},
        }
    }
    assert forall|i: int| 0 <= i < m.assignments@.len() implies {
        let d = (#[trigger] m.assignments@[i]).destination.id;
        &&& m.assignments@[i].value.ty == signal_type(m, d)
        &&& (d.0 < pl ==> m.ports@[d.0 as int].direction == HwPortDirection::Output)
    } by {
        let k = choose|k: int| 0 <= k < sv.len() && (#[trigger] sv[k]).1 == m.assignments@[i].destination.id
            && sv[k].3 == HwPortDirection::Output && m.assignments@[i].value.ty == sv[k].2;
    }
}

/// The mathematical model of a module.
pub struct HwModuleV {
    pub name: Seq<char>,
    pub ports: Seq<HwPortV>,
    pub assignments: Seq<HwAssignmentV>,
    pub registers: Seq<HwRegisterV>,
    pub properties: Map<Seq<char>, PropertyValueV>,
}

pub open spec fn register_views(rs: Seq<HwRegister>) -> Seq<HwRegisterV> {
    rs.map_values(|r: HwRegister| r@)
}

impl HwModule {
    pub open spec fn view(&self) -> HwModuleV {
        HwModuleV {
            name: self.name@,
            ports: port_views(self.ports@),
            assignments: assignment_views(self.assignments@),
            registers: register_views(self.registers@),
            properties: self.properties@,
        }
    }
}

/// Sorts the forms of a module from `items[i]` on: the one `(ports ...)`
/// form, at most one `(registers ...)` form, and the statements, in order.
/// Gives the index of the ports form, that of the registers form and
/// those of the statements.
pub open spec fn sections_spec(items: Seq<ExprV>, i: int, ports_at: Option<usize>, registers_at: Option<usize>, stmts: Seq<usize>) -> Result<(usize, Option<usize>, Seq<usize>), HwErrorV>
    decreases items.len() - i,
{
    if i < 0 || i >= items.len() {
        match ports_at {
            None => Err(HwErrorV::InvalidModule),
            Some(p) => Ok((p, registers_at, stmts)),
        }
    } else if !(items[i].kind is List) {
        Err(HwErrorV::InvalidModule)
    } else {
        let f = items[i].kind->List_0;
        if f.len() > 0 && f[0].kind == ExprKindV::Symbol("ports"@) {
            if ports_at is Some {
                Err(HwErrorV::InvalidModule)
            } else {
                sections_spec(items, i + 1, Some(i as usize), registers_at, stmts)
            }
        } else if f.len() > 0 && f[0].kind == ExprKindV::Symbol("registers"@) {
            if registers_at is Some {
                Err(HwErrorV::InvalidModule)
            } else {
                sections_spec(items, i + 1, ports_at, Some(i as usize), stmts)
            }
        } else {
            sections_spec(items, i + 1, ports_at, registers_at, stmts.push(i as usize))
        }
    }
}

/// The registers declared by `decls` from declaration `j` on, each lowered
/// from its form `forms[j + 1]`, after the already lowered `acc`.
pub open spec fn registers_spec(
    forms: Seq<ExprV>,
    decls: Seq<(Seq<char>, HwType)>,
    j: int,
    sv: Seq<(Seq<char>, HwSignalId, HwType, HwPortDirection)>,
    acc: Seq<HwRegisterV>,
) -> Result<Seq<HwRegisterV>, HwErrorV>
    decreases decls.len() - j,
{
    if j < 0 || j >= decls.len() {
        Ok(acc)
    } else {
        match register_spec(forms[j + 1].kind->List_0, decls[j].0, decls[j].1, sv) {
            Err(e) => Err(e),
            Ok(r) => registers_spec(forms, decls, j + 1, sv, acc.push(r)),
        }
    }
}

/// The registers of the `(registers ...)` form at `registers_at`, if there
/// is one, with the signal table they make together with `ports`.
pub open spec fn module_registers_spec(items: Seq<ExprV>, registers_at: Option<usize>, ports: Seq<HwPortV>) -> Result<(Seq<(Seq<char>, HwType)>, Seq<HwRegisterV>), HwErrorV> {
    match registers_at {
        None => Ok((Seq::empty(), Seq::empty())),
        Some(g) => {
            let forms = items[g as int].kind->List_0;
            match decls_spec(forms, 1, ports, Seq::empty()) {
                Err(e) => Err(e),
                Ok(decls) => match registers_spec(forms, decls, 0, table_v(ports, decls), Seq::empty()) {
                    Err(e) => Err(e),
                    Ok(regs) => Ok((decls, regs)),
                },
            }
        },
    }
}

/// What a `(module name (ports ...) (registers ...) (assign ...)...)` form
/// lowers to: its ports, registers and assignments, in source order, with
/// the form's properties.
pub open spec fn module_spec(e: ExprV) -> Result<HwModuleV, HwErrorV> {
    if !(e.kind is List) {
        Err(HwErrorV::InvalidModule)
    } else {
        let items = e.kind->List_0;
        if items.len() < 2 || items[0].kind != ExprKindV::Symbol("module"@) || !(items[1].kind is Symbol) {
            Err(HwErrorV::InvalidModule)
        } else if !is_valid_identifier(items[1].kind->Symbol_0) {
            Err(HwErrorV::InvalidIdentifier(items[1].kind->Symbol_0))
        } else {
            match sections_spec(items, 2, None, None, Seq::empty()) {
                Err(err) => Err(err),
                Ok((p, registers_at, stmts)) => match ports_spec(items[p as int].kind->List_0, 1, Seq::empty()) {
                    Err(err) => Err(err),
                    Ok(ports) => match module_registers_spec(items, registers_at, ports) {
                        Err(err) => Err(err),
                        Ok((decls, regs)) => match assigns_spec(items, stmts, 0, table_v(ports, decls), Seq::empty()) {
                            Err(err) => Err(err),
                            Ok(asg) => Ok(HwModuleV {
                                name: items[1].kind->Symbol_0,
                                ports,
                                assignments: asg,
                                registers: regs,
                                properties: e.properties,
                            }),
                        },
                    },
                },
            }
        }
    }
}

/// Lowers a `(module name (ports ...) (registers ...) (assign ...)...)`
/// form: ports are `(input|output name)` with `meta` type properties,
/// registers are declared before their attributes are read, and every
/// other form is an `assign` statement.
fn lower_module(expr: &Expr) -> (r: Result<HwModule, HardwareError>)
    ensures
        match module_spec(expr@) {
            Ok(mv) => r matches Ok(m) && m@ == mv,
            Err(ev) => r matches Err(e) && e@ == ev,
        },
        r matches Ok(m) ==> {
            &&& module_well_formed(m)
            &&& m.properties@ == expr@.properties
            &&& expr.kind matches ExprKind::List(items) && items@.len() >= 2
                && items@[0]@.kind == ExprKindV::Symbol("module"@) && items@[1]@.kind == ExprKindV::Symbol(m.name@)
        },
        !(expr.kind matches ExprKind::List(items) && items@.len() >= 2 && items@[0].kind is Symbol && items@[1].kind is Symbol)
            ==> r == Err::<HwModule, HardwareError>(HardwareError::InvalidModule),
{
    let items = match list_of(expr) {
        Ok(i) => i,
        Err(e) => {
            return Err(e);
        },
    };
    let ghost iv = exprs_view(items@, items@.len() as int);
    proof {
        lemma_exprs_view_all(items@);
    }
    if items.len() < 2 {
        return Err(HardwareError::InvalidModule);
    }
    let head = match symbol_of(&items[0]) {
        Ok(h) => h,
        Err(e) => {
            return Err(e);
        },
    };
    if !crate::text::str_eq(head.as_str(), "module") {
        return Err(HardwareError::InvalidModule);
    }
    let name = match symbol_of(&items[1]) {
        Ok(n) => n.clone(),
        Err(e) => {
            return Err(e);
        },
    };
    if !valid_identifier(name.as_str()) {
        return Err(HardwareError::InvalidIdentifier(name));
    }
    let mut ports_at: Option<usize> = None;
    let mut registers_at: Option<usize> = None;
    let mut statements: Vec<usize> = Vec::new();
    let mut i: usize = 2;
    while i < items.len()
        invariant
            2 <= i <= items@.len(),
            expr.kind == ExprKind::List(*items),
            items@[0].kind is Symbol && items@[1].kind is Symbol,
            iv == exprs_view(items@, items@.len() as int),
            iv.len() == items@.len(),
            forall|k: int| 0 <= k < items@.len() ==> #[trigger] iv[k] == items@[k]@,
            expr@.kind == ExprKindV::List(iv),
            iv[0].kind == ExprKindV::Symbol("module"@),
            iv[1].kind is Symbol && is_valid_identifier(iv[1].kind->Symbol_0),
            sections_spec(iv, 2, None, None, Seq::empty()) == sections_spec(iv, i as int, ports_at, registers_at, statements@),
            forall|k: int| 0 <= k < statements@.len() ==> (#[trigger] statements@[k]) < items@.len(),
            ports_at matches Some(x) ==> x < items@.len() && (items@[x as int].kind matches ExprKind::List(f) && f@.len() >= 1),
            registers_at matches Some(x) ==> x < items@.len() && (items@[x as int].kind matches ExprKind::List(f) && f@.len() >= 1),
        decreases items@.len() - i,
    {
        let form = match list_of(&items[i]) {
            Ok(f) => f,
            Err(e) => {
                return Err(e);
            },
        };
        proof {
            lemma_exprs_view_all(form@);
        }
        if is_head(form, "ports") {
            if ports_at.is_some() {
                return Err(HardwareError::InvalidModule);
            }
            ports_at = Some(i);
        } else if is_head(form, "registers") {
            if registers_at.is_some() {
                return Err(HardwareError::InvalidModule);
            }
            registers_at = Some(i);
        } else {
            statements.push(i);
        }
        i += 1;
    }
    let ports_index = match ports_at {
        Some(x) => x,
        None => {
            return Err(HardwareError::InvalidModule);
        },
    };
    let ports_form = match list_of(&items[ports_index]) {
        Ok(f) => f,
        Err(e) => {
            return Err(e);
        },
    };
    let ports = match lower_ports(ports_form) {
        Ok(p) => p,
        Err(e) => {
            return Err(e);
        },
    };
    let ghost pv = port_views(ports@);
    let mut lookup: Vec<SignalEntry> = Vec::new();
    let mut k: usize = 0;
    while k < ports.len()
        invariant
            k <= ports@.len(),
            expr.kind == ExprKind::List(*items),
            items@.len() >= 2,
            items@[0].kind is Symbol && items@[1].kind is Symbol,
            table_matches(signals_view(lookup@), ports@.take(k as int), Seq::empty()),
        decreases ports@.len() - k,
    {
        let ghost before = lookup@;
        lookup.push((ports[k].name.clone(), HwSignalId(k), ports[k].ty, ports[k].direction));
        proof {
            assert forall|q: int| 0 <= q < signals_view(lookup@).len() implies #[trigger] signals_view(lookup@)[q]
                == table_entry(ports@.take(k + 1), Seq::empty(), q) by {
                if q < k {
                    assert(signals_view(lookup@)[q] == signals_view(before)[q]);
                    assert(signals_view(before)[q] == table_entry(ports@.take(k as int), Seq::empty(), q));
                }
            }
        }
        k += 1;
    }
    assert(ports@.take(k as int) =~= ports@);
    let mut registers: Vec<HwRegister> = Vec::new();
    let ghost mut decl_view: Seq<(Seq<char>, HwType)> = Seq::empty();
    match registers_at {
        Some(gi) => {
            let forms = match list_of(&items[gi]) {
                Ok(f) => f,
                Err(e) => {
                    return Err(e);
                },
            };
            proof {
                lemma_exprs_view_all(forms@);
            }
            let decls = match declare_registers(forms, &ports, &mut lookup) {
                Ok(d) => d,
                Err(e) => {
                    return Err(e);
                },
            };
            let ghost sv = signals_view(lookup@);
            let ghost fvr = exprs_view(forms@, forms@.len() as int);
            let ghost dv = decls_view(decls@);
            proof {
                lemma_table_v(sv, ports@, dv);
                assert(register_views(registers@) =~= Seq::<HwRegisterV>::empty());
            }
            let mut j: usize = 0;
            while j < decls.len()
                invariant
                    j <= decls@.len(),
                    expr.kind == ExprKind::List(*items),
                    items@.len() >= 2,
                    items@[0].kind is Symbol && items@[1].kind is Symbol,
                    decls@.len() == forms@.len() - 1,
                    sv == signals_view(lookup@),
                    registers@.len() == j,
                    expr@.kind == ExprKindV::List(iv),
                    iv.len() >= 2,
                    iv[0].kind == ExprKindV::Symbol("module"@),
                    iv[1].kind is Symbol && is_valid_identifier(iv[1].kind->Symbol_0),
                    sections_spec(iv, 2, None, None, Seq::empty()) == Ok::<(usize, Option<usize>, Seq<usize>), HwErrorV>((ports_index, registers_at, statements@)),
                    ports_spec(iv[ports_index as int].kind->List_0, 1, Seq::empty()) == Ok::<Seq<HwPortV>, HwErrorV>(pv),
                    pv == port_views(ports@),
                    registers_at == Some(gi),
                    iv[gi as int].kind->List_0 == fvr,
                    decls_spec(fvr, 1, pv, Seq::empty()) == Ok::<Seq<(Seq<char>, HwType)>, HwErrorV>(dv),
                    sv == table_v(pv, dv),
                    fvr == exprs_view(forms@, forms@.len() as int),
                    fvr.len() == forms@.len(),
                    forall|q: int| 0 <= q < forms@.len() ==> #[trigger] fvr[q] == forms@[q]@,
                    dv == decls_view(decls@),
                    registers_spec(fvr, dv, 0, sv, Seq::empty()) == registers_spec(fvr, dv, j as int, sv, register_views(registers@)),
                    forall|q: int| 0 <= q < decls@.len() ==> (#[trigger] decls@[q]).1.width > 0,
                    forall|q: int| 1 <= q < forms@.len() ==> (#[trigger] forms@[q]).kind is List && forms@[q].kind->List_0@.len() >= 3,
                    forall|q: int| 0 <= q < j ==> (#[trigger] registers@[q]).name@ == decls@[q].0@ && registers@[q].ty == decls@[q].1
                        && register_lowered(registers@[q], sv),
                decreases decls@.len() - j,
            {
                let form = match list_of(&forms[j + 1]) {
                    Ok(f) => f,
                    Err(e) => {
                        return Err(e);
                    },
                };
                proof {
                    assert(dv[j as int] == (decls@[j as int].0@, decls@[j as int].1));
                }
                let reg = match lower_register(form, &decls[j].0, decls[j].1, &lookup) {
                    Ok(x) => x,
                    Err(e) => {
                        return Err(e);
                    },
                };
                let ghost before_regs = registers@;
                registers.push(reg);
                proof {
                    assert(register_views(registers@) =~= register_views(before_regs).push(reg@));
                }
                j += 1;
            }
            proof {
                assert(registers_view(registers@) =~= decls_view(decls@));
                decl_view = decls_view(decls@);
                assert forall|j: int, p: int| 0 <= j < registers@.len() && 0 <= p < ports@.len()
                    implies (#[trigger] registers@[j]).name@ != (#[trigger] ports@[p]).name@ by {
                    assert(decls@[j].0@ != ports@[p].name@);
                }
                assert forall|j: int, k: int| 0 <= j < k < registers@.len()
                    implies (#[trigger] registers@[j]).name@ != (#[trigger] registers@[k]).name@ by {
                    assert(decls@[j].0@ != decls@[k].0@);
                }
            }
        },
        None => {
            proof {
                assert(registers_view(registers@) =~= Seq::<(Seq<char>, HwType)>::empty());
                assert(register_views(registers@) =~= Seq::<HwRegisterV>::empty());
                lemma_table_v(signals_view(lookup@), ports@, Seq::empty());
            }
        },
    }
    let assignments = match lower_assignments(items, &statements, &lookup) {
        Ok(a) => a,
        Err(e) => {
            return Err(e);
        },
    };
    let table_len = lookup.len();
    let m = HwModule { name, ports, assignments, registers, properties: expr.properties.copy() };
    proof {
        assert(m.registers@ == registers@);
        assert(m.ports@ == ports@);
        lemma_module_well_formed(m, signals_view(lookup@));
    }
    Ok(m)
}


/// `m` is a well-formed module lowered from the `module` form `e`: it
/// carries the form's name and properties.
pub open spec fn module_lowered_from(m: HwModule, e: ExprV) -> bool {
    &&& module_well_formed(m)
    &&& m.properties@ == e.properties
    &&& e.kind is List
    &&& e.kind->List_0.len() >= 2
    &&& e.kind->List_0[0].kind == ExprKindV::Symbol("module"@)
    &&& e.kind->List_0[1].kind == ExprKindV::Symbol(m.name@)
}

/// The modules the forms `es[i..]` lower to, after the already lowered
/// `acc`; the first form that fails gives the error.
pub open spec fn modules_spec(es: Seq<ExprV>, i: int, acc: Seq<HwModuleV>) -> Result<Seq<HwModuleV>, HwErrorV>
    decreases es.len() - i,
{
    if i < 0 || i >= es.len() {
        Ok(acc)
    } else {
        match module_spec(es[i]) {
            Err(e) => Err(e),
            Ok(m) => modules_spec(es, i + 1, acc.push(m)),
        }
    }
}

pub open spec fn module_views(ms: Seq<HwModule>) -> Seq<HwModuleV> {
    ms.map_values(|m: HwModule| m@)
}

/// Lowers every `module` form, in order, and checks the resulting design
/// with [`verify_hardware_design`]. Fails with the first form's lowering
/// error; once every form lowers, fails only if the lowered modules do not
/// make a sound design.
pub fn lower_hardware_design(expressions: &[Expr]) -> (r: Result<HwDesign, HardwareError>)
    ensures
        match modules_spec(exprs_view(expressions@, expressions@.len() as int), 0, Seq::empty()) {
            Err(ev) => r matches Err(e) && e@ == ev,
            Ok(mvs) => match r {
                Ok(d) => module_views(d.modules@) == mvs && design_ok(d.modules@),
                Err(e) => exists|ms: Seq<HwModule>| #[trigger] module_views(ms) == mvs && !design_ok(ms) && match design_verdict(ms, 0) {
                    DesignVerdict::Sound => false,
                    DesignVerdict::Fails(ev) => e@ == ev,
                    DesignVerdict::Loop => e is CombinationalLoop,
                },
            },
        },
        r matches Ok(d) ==> {
            &&& d.modules@.len() == expressions@.len()
            &&& forall|i: int| 0 <= i < d.modules@.len() ==> module_lowered_from(#[trigger] d.modules@[i], expressions@[i]@)
            &&& design_ok(d.modules@)
        },
{
    let mut design = HwDesign::default();
    let mut i: usize = 0;
    let ghost ev = exprs_view(expressions@, expressions@.len() as int);
    proof {
        lemma_exprs_view_all(expressions@);
        assert(module_views(design.modules@) =~= Seq::<HwModuleV>::empty());
    }
    while i < expressions.len()
        invariant
            i <= expressions@.len(),
            ev == exprs_view(expressions@, expressions@.len() as int),
            ev.len() == expressions@.len(),
            forall|k: int| 0 <= k < expressions@.len() ==> #[trigger] ev[k] == expressions@[k]@,
            modules_spec(ev, 0, Seq::empty()) == modules_spec(ev, i as int, module_views(design.modules@)),
            design.modules@.len() == i,
            forall|k: int| 0 <= k < i ==> module_lowered_from(#[trigger] design.modules@[k], expressions@[k]@),
        decreases expressions@.len() - i,
    {
        let module = match lower_module(&expressions[i]) {
            Ok(m) => m,
            Err(e) => {
                return Err(e);
            },
        };
        proof {
            match expressions@[i as int].kind {
                ExprKind::List(items) => {
                    lemma_exprs_view_all(items@);
                },
                _ => {},
            }
        }
        let ghost before = design.modules@;
        design.modules.push(module);
        proof {
            assert(module_views(design.modules@) =~= module_views(before).push(module@));
        }
        i += 1;
    }
    match verify_hardware_design(&design) {
        Ok(()) => {},
        Err(e) => {
            proof {
                assert(module_views(design.modules@) == module_views(design.modules@) && !design_ok(design.modules@));
            }
            return Err(e);
        },
    }
    Ok(design)
}

} // verus!
