//! Rules of the semantic pass: the bounds of `u32` types with range
//! constraints, the range of an arithmetic result, the built-in traits,
//! ranges read off `where` clauses, and when a value may be assigned to a
//! binding of a given type.
use vstd::prelude::*;
use crate::ast::{BinOp, CallArg, Expr, ExprKind};
use crate::error::{SemanticError, Span};
use crate::range_proof::{out_of_range_message, SmtSolver, Verifier};
use crate::text::str_eq;
use crate::types::{Type, TypeModel, is_subset_range, same_type, same_u64s, type_text};
pub use crate::checker::Checker;

verus! {

/// The largest `u32`.
pub const U32_MAX: u64 = 0xFFFF_FFFF;

/// A type without its range constraints.
pub open spec fn base_model(t: TypeModel) -> TypeModel
    decreases t,
{
    match t {
        TypeModel::ConstrainedRange { base, .. } => base_model(*base),
        other => other,
    }
}

fn base_is_u32(ty: &Type) -> (r: bool)
    ensures
        r == (base_model(ty@) is U32),
    decreases ty,
{
    match ty {
        Type::ConstrainedRange { base, .. } => base_is_u32(base),
        Type::U32 => true,
        _ => false,
    }
}

/// A `u32` type, possibly with range constraints (`is_u32_like`).
pub fn is_u32_like(ty: &Type) -> (r: bool)
    ensures
        r == (base_model(ty@) is U32),
{
    base_is_u32(ty)
}

/// The bounds of `u32` and of `u32` constrained to a range.
pub open spec fn u32_bounds_of(t: TypeModel) -> Option<(u64, u64)> {
    match t {
        TypeModel::U32 => Some((0, U32_MAX)),
        TypeModel::ConstrainedRange { base, lo, hi } => if *base is U32 { Some((lo, hi)) } else { None },
        _ => None,
    }
}

/// The bounds of `u32` and of `u32` constrained to a range.
pub fn u32_bounds(ty: &Type) -> (r: Option<(u64, u64)>)
    ensures
        r == u32_bounds_of(ty@),
{
    proof {
        reveal_with_fuel(crate::types::type_model, 2);
    }
    match ty {
        Type::U32 => Some((0, U32_MAX)),
        Type::ConstrainedRange { base, lo, hi } => match **base {
            Type::U32 => Some((*lo, *hi)),
            _ => None,
        },
        _ => None,
    }
}

/// `u32` constrained to `lo..=hi`, each bound held at `u32::MAX`; plain `u32`
/// when that is the whole range.
pub open spec fn u32_range(lo: u64, hi: u64) -> TypeModel {
    let l = if lo < U32_MAX { lo } else { U32_MAX };
    let h = if hi < U32_MAX { hi } else { U32_MAX };
    if l == 0 && h == U32_MAX {
        TypeModel::U32
    } else {
        TypeModel::ConstrainedRange { base: Box::new(TypeModel::U32), lo: l, hi: h }
    }
}

/// `u32` constrained to `lo..=hi` (see [`u32_range`]).
pub fn mk_u32_range(lo: u64, hi: u64) -> (r: Type)
    ensures
        r@ == u32_range(lo, hi),
{
    proof {
        reveal_with_fuel(crate::types::type_model, 2);
    }
    let lo = if lo < U32_MAX { lo } else { U32_MAX };
    let hi = if hi < U32_MAX { hi } else { U32_MAX };
    if lo == 0 && hi == U32_MAX {
        Type::U32
    } else {
        Type::ConstrainedRange { base: Box::new(Type::U32), lo, hi }
    }
}

/// `a + b`, held at `u64::MAX`.
pub open spec fn sat_add(a: u64, b: u64) -> u64 {
    if a + b > u64::MAX { u64::MAX } else { (a + b) as u64 }
}

/// `a - b`, held at zero.
pub open spec fn sat_sub(a: u64, b: u64) -> u64 {
    if a < b { 0 } else { (a - b) as u64 }
}

/// `a * b`, held at `u64::MAX`.
pub open spec fn sat_mul(a: u64, b: u64) -> u64 {
    if a * b > u64::MAX { u64::MAX } else { (a * b) as u64 }
}

/// The type of `l op r` for `u32` operands with the given types: the range
/// that interval arithmetic gives for `+`, `-`, `*` and `/` (plain `u32` when
/// a divisor may be zero), and plain `u32` otherwise.
pub open spec fn binop_range(op: BinOp, lt: TypeModel, rt: TypeModel) -> TypeModel {
    match (u32_bounds_of(lt), u32_bounds_of(rt)) {
        (Some((a, b)), Some((c, d))) => match op {
            BinOp::Add => u32_range(sat_add(a, c), sat_add(b, d)),
            BinOp::Sub => u32_range(sat_sub(a, d), sat_sub(b, c)),
            BinOp::Mul => u32_range(sat_mul(a, c), sat_mul(b, d)),
            BinOp::Div => if c == 0 {
                TypeModel::U32
            } else {
                u32_range((a / (if d > 1 { d } else { 1 })) as u64, (b / c) as u64)
            },
            _ => TypeModel::U32,
        },
        _ => TypeModel::U32,
    }
}

fn sat_mul_of(a: u64, b: u64) -> (r: u64)
    ensures
        r == sat_mul(a, b),
{
    match a.checked_mul(b) {
        Some(p) => p,
        None => u64::MAX,
    }
}

/// The range type of a `u32` arithmetic result (see [`binop_range`]).
pub fn infer_u32_range_binop(op: &BinOp, lt: &Type, rt: &Type) -> (r: Type)
    ensures
        r@ == binop_range(*op, lt@, rt@),
{
    let (l_lo, l_hi) = match u32_bounds(lt) {
        Some(b) => b,
        None => return Type::U32,
    };
    let (r_lo, r_hi) = match u32_bounds(rt) {
        Some(b) => b,
        None => return Type::U32,
    };
    match op {
        BinOp::Add => mk_u32_range(l_lo.saturating_add(r_lo), l_hi.saturating_add(r_hi)),
        BinOp::Sub => {
            let lo = if l_lo < r_hi { 0 } else { l_lo - r_hi };
            let hi = if l_hi < r_lo { 0 } else { l_hi - r_lo };
            mk_u32_range(lo, hi)
        },
        BinOp::Mul => mk_u32_range(sat_mul_of(l_lo, r_lo), sat_mul_of(l_hi, r_hi)),
        BinOp::Div => {
            if r_lo == 0 {
                return Type::U32;
            }
            let d: u64 = if r_hi > 1 { r_hi } else { 1 };
            mk_u32_range(l_lo / d, l_hi / r_lo)
        },
        _ => Type::U32,
    }
}

/// The built-in traits a type satisfies: `Numeric` for `u32`, `Scalar` for
/// `u32`, `bool`, strings and styles, `Eq` for `u32`, `bool` and strings, each
/// up to range constraints.
pub open spec fn satisfies_trait(t: TypeModel, tr: Seq<char>) -> bool {
    let b = base_model(t);
    if tr == "Numeric"@ {
        b is U32
    } else if tr == "Scalar"@ {
        b is U32 || b is Bool || b is String || b is Style
    } else if tr == "Eq"@ {
        b is U32 || b is Bool || b is String
    } else {
        false
    }
}

fn base_of(ty: &Type) -> (r: &Type)
    ensures
        r@ == base_model(ty@),
    decreases ty,
{
    match ty {
        Type::ConstrainedRange { base, .. } => base_of(base),
        other => other,
    }
}

/// Whether `ty` satisfies the built-in trait `tr` (see [`satisfies_trait`]).
pub fn type_satisfies_trait(ty: &Type, tr: &str) -> (r: bool)
    ensures
        r == satisfies_trait(ty@, tr@),
{
    let b = base_of(ty);
    let is_u32 = match b { Type::U32 => true, _ => false };
    if crate::text::str_eq(tr, "Numeric") {
        is_u32
    } else if crate::text::str_eq(tr, "Scalar") {
        match b {
            Type::U32 | Type::Bool | Type::String | Type::Style => true,
            _ => false,
        }
    } else if crate::text::str_eq(tr, "Eq") {
        match b {
            Type::U32 | Type::Bool | Type::String => true,
            _ => false,
        }
    } else {
        false
    }
}


/// The value of `x op y` where the operation is defined on naturals: a
/// difference only when it is not negative, a quotient only by a positive
/// divisor.
pub open spec fn binop_value(op: BinOp, x: int, y: int) -> Option<int> {
    match op {
        BinOp::Add => Some(x + y),
        BinOp::Sub => if x >= y { Some(x - y) } else { None },
        BinOp::Mul => Some(x * y),
        BinOp::Div => if y > 0 { Some(x / y) } else { None },
        _ => None,
    }
}

/// `v` lies within the bounds of the `u32` type `t`.
pub open spec fn in_u32_type(t: TypeModel, v: int) -> bool {
    match u32_bounds_of(t) {
        Some((lo, hi)) => lo <= v <= hi,
        None => false,
    }
}

proof fn lemma_u32_range_contains(lo: u64, hi: u64, v: int)
    requires
        lo <= v <= hi,
        0 <= v <= U32_MAX,
    ensures
        in_u32_type(u32_range(lo, hi), v),
{
}

/// The range inferred for an arithmetic result holds every value the
/// operation can give on operands within their types, as long as that value
/// fits in a `u32`.
pub proof fn law_binop_range_is_sound(op: BinOp, lt: TypeModel, rt: TypeModel, x: int, y: int)
    requires
        in_u32_type(lt, x),
        in_u32_type(rt, y),
        binop_value(op, x, y) matches Some(v) && 0 <= v <= U32_MAX,
    ensures
        in_u32_type(binop_range(op, lt, rt), binop_value(op, x, y)->0),
{
    let (a, b) = u32_bounds_of(lt)->0;
    let (c, d) = u32_bounds_of(rt)->0;
    let v = binop_value(op, x, y)->0;
    match op {
        BinOp::Add => {
            lemma_u32_range_contains(sat_add(a, c), sat_add(b, d), v);
        },
        BinOp::Sub => {
            lemma_u32_range_contains(sat_sub(a, d), sat_sub(b, c), v);
        },
        BinOp::Mul => {
            vstd::arithmetic::mul::lemma_mul_inequality(a as int, x, c as int);
            vstd::arithmetic::mul::lemma_mul_inequality(c as int, y, x);
            vstd::arithmetic::mul::lemma_mul_inequality(x, b as int, y);
            vstd::arithmetic::mul::lemma_mul_inequality(y, d as int, b as int);
            assert(a * c <= x * y <= b * d) by (nonlinear_arith)
                requires
                    a * c <= x * c,
                    c * x <= y * x,
                    x * y <= b * y,
                    y * b <= d * b,
            ;
            lemma_u32_range_contains(sat_mul(a, c), sat_mul(b, d), v);
        },
        BinOp::Div => {
            if c > 0 {
                vstd::arithmetic::div_mod::lemma_div_is_ordered(a as int, x, y);
                vstd::arithmetic::div_mod::lemma_div_is_ordered_by_denominator(a as int, y, d as int);
                vstd::arithmetic::div_mod::lemma_div_is_ordered(x, b as int, y);
                vstd::arithmetic::div_mod::lemma_div_is_ordered_by_denominator(b as int, c as int, y);
                lemma_u32_range_contains((a / d) as u64, (b / c) as u64, v);
            }
        },
        _ => {},
    }
}


// ---------------------------------------------------------------------------
// Expressions
// ---------------------------------------------------------------------------

/// The value of an integer literal.
pub open spec fn literal_of(e: Expr) -> Option<u64> {
    match e.kind {
        ExprKind::IntLit(n) => Some(n),
        _ => None,
    }
}

/// The value of an integer literal (`const_u64`).
pub fn const_u64(expr: &Expr) -> (r: Option<u64>)
    ensures
        r == literal_of(*expr),
{
    match &expr.kind {
        ExprKind::IntLit(n) => Some(*n),
        _ => None,
    }
}

/// The expression an argument passes.
pub open spec fn arg_value(a: CallArg) -> Expr {
    match a {
        CallArg::Positional(e) => e,
        CallArg::Named { value, .. } => value,
    }
}

/// The expression an argument passes.
pub fn call_arg_value(arg: &CallArg) -> (r: &Expr)
    ensures
        *r == arg_value(*arg),
{
    match arg {
        CallArg::Positional(e) => e,
        CallArg::Named { value, .. } => value,
    }
}

/// The dotted name of a callee: a name, or a member of a callee; anything
/// else is `<unknown>`.
pub open spec fn callee_name(e: Expr) -> Seq<char>
    decreases e,
{
    match e.kind {
        ExprKind::Ident(id) => id.node@,
        ExprKind::Member { base, member } => callee_name(*base) + "."@ + member.node@,
        _ => "<unknown>"@,
    }
}

/// The dotted name of a callee (see [`callee_name`]).
pub fn expr_to_callee_name(expr: &Expr) -> (r: String)
    ensures
        r@ == callee_name(*expr),
    decreases expr,
{
    match &expr.kind {
        ExprKind::Ident(id) => String::from_str(id.node.as_str()),
        ExprKind::Member { base, member } => {
            let mut s = expr_to_callee_name(base);
            s.append(".");
            s.append(member.node.as_str());
            s
        },
        _ => String::from_str("<unknown>"),
    }
}

/// The comparison `op` seen from the other side.
pub open spec fn flipped(op: BinOp) -> BinOp {
    match op {
        BinOp::Lt => BinOp::Gt,
        BinOp::Le => BinOp::Ge,
        BinOp::Gt => BinOp::Lt,
        BinOp::Ge => BinOp::Le,
        other => other,
    }
}

/// The range that one comparison of `var` with a literal allows:
/// `var >= n`, `var > n`, `var <= n`, `var < n` or `var == n`, either way round.
pub open spec fn comparison_range(var: Seq<char>, e: Expr) -> Option<(u64, u64)> {
    match e.kind {
        ExprKind::Binary { left, op, right } => {
            let side = match (left.kind, right.kind) {
                (ExprKind::Ident(id), ExprKind::IntLit(n)) => Some((id, n, op)),
                (ExprKind::IntLit(n), ExprKind::Ident(id)) => Some((id, n, flipped(op))),
                _ => None,
            };
            match side {
                Some((id, n, o)) => if id.node@ != var {
                    None
                } else {
                    match o {
                        BinOp::Ge => Some((n, U32_MAX)),
                        BinOp::Gt => Some((sat_add(n, 1), U32_MAX)),
                        BinOp::Le => Some((0u64, n)),
                        BinOp::Lt => Some((0u64, sat_sub(n, 1))),
                        BinOp::Eq => Some((n, n)),
                        _ => None,
                    }
                },
                None => None,
            }
        },
        _ => None,
    }
}

/// The range of `var` that a `where` clause gives: one comparison, or the
/// intersection of two joined by `&&`.
pub open spec fn where_range(var: Seq<char>, e: Expr) -> Option<(u64, u64)> {
    match e.kind {
        ExprKind::Binary { left, op: BinOp::And, right } => match (
            comparison_range(var, *left),
            comparison_range(var, *right),
        ) {
            (Some((a, b)), Some((c, d))) => Some((if a < c { c } else { a }, if b < d { b } else { d })),
            _ => None,
        },
        _ => comparison_range(var, e),
    }
}

fn one_comparison(var: &str, expr: &Expr) -> (r: Option<(u64, u64)>)
    ensures
        r == comparison_range(var@, *expr),
{
    let (left, op, right) = match &expr.kind {
        ExprKind::Binary { left, op, right } => (left, *op, right),
        _ => return None,
    };
    let (id, n, o) = match (&left.kind, &right.kind) {
        (ExprKind::Ident(id), ExprKind::IntLit(n)) => (id, *n, op),
        (ExprKind::IntLit(n), ExprKind::Ident(id)) => {
            let rop = match op {
                BinOp::Lt => BinOp::Gt,
                BinOp::Le => BinOp::Ge,
                BinOp::Gt => BinOp::Lt,
                BinOp::Ge => BinOp::Le,
                other => other,
            };
            (id, *n, rop)
        },
        _ => return None,
    };
    if !str_eq(id.node.as_str(), var) {
        return None;
    }
    match o {
        BinOp::Ge => Some((n, U32_MAX)),
        BinOp::Gt => Some((n.saturating_add(1), U32_MAX)),
        BinOp::Le => Some((0, n)),
        BinOp::Lt => Some((0, if n == 0 { 0 } else { n - 1 })),
        BinOp::Eq => Some((n, n)),
        _ => None,
    }
}

/// The range of `var` that a `where` clause gives (see [`where_range`]).
pub fn refinement_u32_range_from_where(var: &str, expr: &Expr) -> (r: Option<(u64, u64)>)
    ensures
        r == where_range(var@, *expr),
{
    match &expr.kind {
        ExprKind::Binary { op: BinOp::And, left, right } => {
            let (l_lo, l_hi) = match one_comparison(var, left) {
                Some(b) => b,
                None => return None,
            };
            let (r_lo, r_hi) = match one_comparison(var, right) {
                Some(b) => b,
                None => return None,
            };
            Some((if l_lo < r_lo { r_lo } else { l_lo }, if l_hi < r_hi { l_hi } else { r_hi }))
        },
        _ => one_comparison(var, expr),
    }
}


// ---------------------------------------------------------------------------
// Assignability
// ---------------------------------------------------------------------------

/// The bounds of a `u32` constrained to a range (not of plain `u32`).
pub open spec fn u32_range_target(t: TypeModel) -> Option<(u64, u64)> {
    match t {
        TypeModel::ConstrainedRange { base, lo, hi } => if *base is U32 { Some((lo, hi)) } else { None },
        _ => None,
    }
}

fn range_target(ty: &Type) -> (r: Option<(u64, u64)>)
    ensures
        r == u32_range_target(ty@),
{
    proof {
        reveal_with_fuel(crate::types::type_model, 2);
    }
    match ty {
        Type::ConstrainedRange { base, lo, hi } => match **base {
            Type::U32 => Some((*lo, *hi)),
            _ => None,
        },
        _ => None,
    }
}

/// The message for two types that do not fit.
pub open spec fn mismatch(expected: TypeModel, actual: TypeModel) -> Seq<char> {
    "type mismatch: expected "@ + type_text(expected) + ", got "@ + type_text(actual)
}

/// The message for a plain `u32` assigned where a range is required.
pub open spec fn unproved_range_message() -> Seq<char> {
    "cannot prove range safety for non-literal assignment (SMT stub)"@
}

/// The product of the dimensions, computed left to right, or `None` where
/// a partial product leaves `u64`.
pub open spec fn checked_product(dims: Seq<u64>) -> Option<u64>
    decreases dims.len(),
{
    if dims.len() == 0 {
        Some(1u64)
    } else {
        match checked_product(dims.drop_last()) {
            Some(p) => if p * dims.last() <= u64::MAX {
                Some((p * dims.last()) as u64)
            } else {
                None
            },
            None => None,
        }
    }
}

/// The name under which a call's callee is judged for tensor shapes: any
/// member `infer` counts as `ai.infer`.
pub open spec fn shape_callee(callee: Expr) -> Seq<char> {
    match callee.kind {
        ExprKind::Member { base, member } => if member.node@ == "infer"@ && !(base.kind matches ExprKind::Ident(
            id,
        ) && id.node@ == "ai"@) {
            "ai.infer"@
        } else {
            callee_name(callee)
        },
        _ => callee_name(callee),
    }
}

/// Whether an unshaped tensor computed by `rhs` may take the shape `dims`:
/// `rhs` is a call of `ai.infer`, or of `tensor.new` with one integer
/// literal argument equal to the product of `dims`.
pub open spec fn shaped_by_call(dims: Seq<u64>, rhs: Expr) -> bool {
    match rhs.kind {
        ExprKind::Call { callee, args, .. } => {
            let name = shape_callee(*callee);
            name == "ai.infer"@ || (name == "tensor.new"@ && args.len() == 1 && match literal_of(
                arg_value(args[0]),
            ) {
                Some(n) => checked_product(dims) == Some(n),
                None => false,
            })
        },
        _ => false,
    }
}

/// Whether a tensor type may be assigned to another: the element types
/// agree (`Unknown` matches any), and the shapes agree, or the target has
/// none, or `rhs` gives the value its shape.
pub open spec fn tensor_fits(expected: TypeModel, actual: TypeModel, rhs: Expr) -> bool {
    match (expected, actual) {
        (TypeModel::Tensor { elem: ee, shape: es }, TypeModel::Tensor { elem: ae, shape: ashape }) => {
            let elem_ok = *ee is Unknown || *ae is Unknown || ee == ae;
            let shape_ok = match (es, ashape) {
                (None, _) => true,
                (Some(x), Some(y)) => x == y,
                (Some(x), None) => shaped_by_call(x, rhs),
            };
            elem_ok && shape_ok
        },
        _ => false,
    }
}

/// Whether an argument of a generic type fits: either is `Unknown`, they
/// are equal, or a `u32` range is passed for `u32`.
pub open spec fn arg_fits(e: TypeModel, a: TypeModel) -> bool {
    e is Unknown || a is Unknown || e == a || (e is U32 && u32_range_target(a) is Some)
}

/// Whether the arguments of two applications of one generic type fit.
pub open spec fn args_fit(es: Seq<TypeModel>, acts: Seq<TypeModel>) -> bool {
    es.len() == acts.len() && forall|i: int| 0 <= i < es.len() ==> #[trigger] arg_fits(es[i], acts[i])
}

/// Two applications of one generic type with as many arguments.
pub open spec fn same_application(expected: TypeModel, actual: TypeModel) -> bool {
    match (expected, actual) {
        (TypeModel::Applied { name: en, args: ea }, TypeModel::Applied { name: an, args: aa }) => en == an
            && ea.len() == aa.len(),
        _ => false,
    }
}

/// Two ranges over one base, the actual within the expected.
pub open spec fn sub_range(expected: TypeModel, actual: TypeModel) -> bool {
    match (expected, actual) {
        (
            TypeModel::ConstrainedRange { base: eb, lo: el, hi: eh },
            TypeModel::ConstrainedRange { base: ab, lo: al, hi: ah },
        ) => eb == ab && al >= el && ah <= eh,
        _ => false,
    }
}

/// What assigning `rhs`, of type `actual`, to a binding of type `expected`
/// gives: `None` when it is accepted, else the error's message. With
/// `defer`, range facts about non-literals are left to a later proof.
pub open spec fn assign_error(defer: bool, expected: TypeModel, actual: TypeModel, rhs: Expr) -> Option<
    Seq<char>,
> {
    let mm = Some(mismatch(expected, actual));
    match u32_range_target(expected) {
        Some((lo, hi)) => if defer {
            if base_model(actual) is U32 {
                None
            } else {
                mm
            }
        } else {
            match literal_of(rhs) {
                Some(n) => if n < lo || n > hi {
                    Some(out_of_range_message(n, lo, hi))
                } else {
                    None
                },
                None => None,
            }
        },
        None => if sub_range(expected, actual) {
            None
        } else if expected is Tensor && actual is Tensor {
            if tensor_fits(expected, actual, rhs) {
                None
            } else {
                mm
            }
        } else if same_application(expected, actual) {
            if args_fit(expected->Applied_args, actual->Applied_args) {
                None
            } else {
                mm
            }
        } else if expected == actual {
            None
        } else if expected is U32 && u32_range_target(actual) is Some {
            None
        } else if expected is ConstrainedRange && actual is U32 && !defer {
            Some(unproved_range_message())
        } else {
            mm
        },
    }
}

fn product_checked(dims: &Vec<u64>) -> (r: Option<u64>)
    ensures
        r == checked_product(dims@),
{
    let mut prod: u64 = 1;
    let mut i: usize = 0;
    while i < dims.len()
        invariant
            i <= dims.len(),
            checked_product(dims@.subrange(0, i as int)) == Some(prod),
        decreases dims.len() - i,
    {
        assert(dims@.subrange(0, i + 1).drop_last() == dims@.subrange(0, i as int));
        match prod.checked_mul(dims[i]) {
            Some(v) => prod = v,
            None => {
                proof {
                    lemma_product_stays_none(dims@, i as int + 1);
                }
                assert(dims@.subrange(0, dims@.len() as int) == dims@);
                return None;
            },
        }
        i = i + 1;
    }
    assert(dims@.subrange(0, dims@.len() as int) == dims@);
    Some(prod)
}

proof fn lemma_product_stays_none(dims: Seq<u64>, k: int)
    requires
        0 <= k <= dims.len(),
        checked_product(dims.subrange(0, k)) is None,
    ensures
        checked_product(dims) is None,
    decreases dims.len() - k,
{
    if k < dims.len() {
        assert(dims.subrange(0, k + 1).drop_last() == dims.subrange(0, k));
        lemma_product_stays_none(dims, k + 1);
    } else {
        assert(dims.subrange(0, k) == dims);
    }
}

fn shaped_by_call_exec(dims: &Vec<u64>, rhs: &Expr) -> (r: bool)
    ensures
        r == shaped_by_call(dims@, *rhs),
{
    let (callee, args) = match &rhs.kind {
        ExprKind::Call { callee, args, .. } => (callee, args),
        _ => return false,
    };
    let is_infer_member = match &callee.kind {
        ExprKind::Member { base, member } => str_eq(member.node.as_str(), "infer") && !(match &base.kind {
            ExprKind::Ident(id) => str_eq(id.node.as_str(), "ai"),
            _ => false,
        }),
        _ => false,
    };
    let name = if is_infer_member {
        String::from_str("ai.infer")
    } else {
        expr_to_callee_name(callee)
    };
    proof {
        reveal_strlit("ai.infer");
        reveal_strlit("infer");
        reveal_strlit("ai");
    }
    assert(name@ == shape_callee(**callee));
    if str_eq(name.as_str(), "ai.infer") {
        return true;
    }
    if !str_eq(name.as_str(), "tensor.new") || args.len() != 1 {
        return false;
    }
    match const_u64(call_arg_value(&args[0])) {
        Some(n) => match product_checked(dims) {
            Some(p) => p == n,
            None => false,
        },
        None => false,
    }
}

fn tensor_fits_exec(expected: &Type, actual: &Type, rhs: &Expr) -> (r: bool)
    requires
        expected@ is Tensor,
        actual@ is Tensor,
    ensures
        r == tensor_fits(expected@, actual@, *rhs),
{
    match (expected, actual) {
        (Type::Tensor { elem: ee, shape: es }, Type::Tensor { elem: ae, shape: ashape }) => {
            let elem_ok = matches!(**ee, Type::Unknown) || matches!(**ae, Type::Unknown) || same_type(
                ee,
                ae,
            );
            assert(elem_ok == (ee@ is Unknown || ae@ is Unknown || ee@ == ae@));
            let shape_ok = match (es, ashape) {
                (None, _) => true,
                (Some(x), Some(y)) => same_u64s(x, y),
                (Some(x), None) => shaped_by_call_exec(x, rhs),
            };
            elem_ok && shape_ok
        },
        _ => false,
    }
}

fn args_fit_exec(es: &Vec<Type>, acts: &Vec<Type>) -> (r: bool)
    requires
        es.len() == acts.len(),
    ensures
        r == args_fit(crate::types::models_of(es@), crate::types::models_of(acts@)),
{
    proof {
        crate::types::lemma_models_of(es@);
        crate::types::lemma_models_of(acts@);
    }
    let ghost ms = crate::types::models_of(es@);
    let ghost ma = crate::types::models_of(acts@);
    let mut i: usize = 0;
    while i < es.len()
        invariant
            i <= es.len(),
            es.len() == acts.len(),
            ms == crate::types::models_of(es@),
            ma == crate::types::models_of(acts@),
            ms.len() == es.len(),
            ma.len() == acts.len(),
            forall|j: int| 0 <= j < es.len() ==> ms[j] == es@[j]@,
            forall|j: int| 0 <= j < acts.len() ==> ma[j] == acts@[j]@,
            forall|j: int| 0 <= j < i ==> #[trigger] arg_fits(ms[j], ma[j]),
        decreases es.len() - i,
    {
        let e = &es[i];
        let a = &acts[i];
        let ok = matches!(e, Type::Unknown) || matches!(a, Type::Unknown) || same_type(e, a) || (matches!(
            e,
            Type::U32
        ) && range_target(a).is_some());
        assert(ok == arg_fits(ms[i as int], ma[i as int]));
        if !ok {
            assert(!args_fit(ms, ma));
            return false;
        }
        i = i + 1;
    }
    true
}

/// Whether `rhs`, of type `actual`, may be assigned to a binding of type
/// `expected` (`check_assignable`). `defer` leaves range facts about
/// non-literals to a later proof; otherwise the verifier judges literals.
pub fn check_assignable<S: SmtSolver>(
    defer: bool,
    verifier: &Verifier<S>,
    expected: &Type,
    actual: &Type,
    rhs: &Expr,
) -> (r: Result<(), SemanticError>)
    ensures
        match assign_error(defer, expected@, actual@, *rhs) {
            None => r is Ok,
            Some(m) => r matches Err(e) && e.message@ == m && e.span == rhs.span,
        },
{
    let mismatch_error = |expected: &Type, actual: &Type, span: Span| -> (e: SemanticError)
        ensures
            e.message@ == mismatch(expected@, actual@),
            e.span == span,
        {
            let mut m = String::from_str("type mismatch: expected ");
            m.append(expected.display().as_str());
            m.append(", got ");
            m.append(actual.display().as_str());
            proof {
                reveal_strlit("type mismatch: expected ");
                reveal_strlit(", got ");
            }
            SemanticError { message: m, span }
        };
    if let Some((lo, hi)) = range_target(expected) {
        if defer {
            if is_u32_like(actual) {
                return Ok(());
            }
            return Err(mismatch_error(expected, actual, rhs.span));
        }
        return verifier.prove_u32_in_range(const_u64(rhs), rhs.span, lo, hi);
    }
    match (expected, actual) {
        (
            Type::ConstrainedRange { base: eb, lo: el, hi: eh },
            Type::ConstrainedRange { base: ab, lo: al, hi: ah },
        ) => {
            if same_type(eb, ab) && is_subset_range(*al, *ah, *el, *eh) {
                return Ok(());
            }
        },
        (Type::Tensor { .. }, Type::Tensor { .. }) => {
            if tensor_fits_exec(expected, actual, rhs) {
                return Ok(());
            }
            return Err(mismatch_error(expected, actual, rhs.span));
        },
        (Type::Applied { name: en, args: ea }, Type::Applied { name: an, args: aa }) => {
            proof {
                crate::types::lemma_models_of(ea@);
                crate::types::lemma_models_of(aa@);
            }
            if str_eq(en.as_str(), an.as_str()) && ea.len() == aa.len() {
                if args_fit_exec(ea, aa) {
                    return Ok(());
                }
                return Err(mismatch_error(expected, actual, rhs.span));
            }
        },
        _ => {},
    }
    if same_type(expected, actual) {
        return Ok(());
    }
    if matches!(expected, Type::U32) && range_target(actual).is_some() {
        return Ok(());
    }
    if matches!(expected, Type::ConstrainedRange { .. }) && matches!(actual, Type::U32) && !defer {
        proof {
            reveal_strlit("cannot prove range safety for non-literal assignment (SMT stub)");
        }
        return Err(
            SemanticError {
                message: String::from_str("cannot prove range safety for non-literal assignment (SMT stub)"),
                span: rhs.span,
            },
        );
    }
    Err(mismatch_error(expected, actual, rhs.span))
}

/// A shaped tensor may be assigned where an unshaped tensor of the same
/// element type is expected: the shape is forgotten.
pub proof fn law_tensor_shape_may_be_forgotten(defer: bool, elem: TypeModel, dims: Seq<u64>, rhs: Expr)
    ensures
        assign_error(
            defer,
            TypeModel::Tensor { elem: Box::new(elem), shape: None },
            TypeModel::Tensor { elem: Box::new(elem), shape: Some(dims) },
            rhs,
        ) is None,
{
}

/// An unshaped tensor cannot take a shape, unless the value comes from a
/// call that gives it one (`ai.infer`, or `tensor.new` of the matching
/// length).
pub proof fn law_shape_is_not_invented(defer: bool, elem: TypeModel, dims: Seq<u64>, rhs: Expr)
    ensures
        (assign_error(
            defer,
            TypeModel::Tensor { elem: Box::new(elem), shape: Some(dims) },
            TypeModel::Tensor { elem: Box::new(elem), shape: None },
            rhs,
        ) is None) == shaped_by_call(dims, rhs),
{
}

/// A value of a `u32` range may be used where a plain `u32` is expected.
pub proof fn law_range_fits_its_base(defer: bool, lo: u64, hi: u64, rhs: Expr)
    ensures
        assign_error(
            defer,
            TypeModel::U32,
            TypeModel::ConstrainedRange { base: Box::new(TypeModel::U32), lo, hi },
            rhs,
        ) is None,
{
}

} // verus!
