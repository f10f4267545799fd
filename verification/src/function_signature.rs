//! Linear type rules at function boundaries: signatures that declare how each
//! parameter is passed, and checks of signatures, bodies and call sites.
use vstd::prelude::*;
use crate::control_flow::{ok_or_all, str_texts};
use crate::ownership_enforcement::{append_decimal, quoted};
use crate::text::str_eq;
use crate::types::{Type, TypeModel, same_type, type_text};

verus! {

/// How a parameter is passed.
#[derive(Clone, Copy, Debug, PartialEq, Eq, Structural)]
pub enum ParamMode {
    Owned,
    BorrowedImmut,
    BorrowedMut,
}

impl ParamMode {
    pub open spec fn mode_text(self) -> Seq<char> {
        match self {
            ParamMode::Owned => "owned"@,
            ParamMode::BorrowedImmut => "borrowed (immut)"@,
            ParamMode::BorrowedMut => "borrowed (mut)"@,
        }
    }

    pub fn display(&self) -> (r: &'static str)
        ensures
            r@ == self.mode_text(),
    {
        match self {
            ParamMode::Owned => "owned",
            ParamMode::BorrowedImmut => "borrowed (immut)",
            ParamMode::BorrowedMut => "borrowed (mut)",
        }
    }
}

/// How a value is returned.
#[derive(Clone, Copy, Debug, PartialEq, Eq, Structural)]
pub enum ReturnMode {
    Owned,
    Unit,
    Borrowed,
}

/// A parameter with its linearity and passing mode.
#[derive(Debug)]
pub struct LinearParam {
    pub name: String,
    pub ty: Type,
    pub is_linear: bool,
    pub mode: ParamMode,
}

pub struct ParamModel {
    pub name: Seq<char>,
    pub ty: TypeModel,
    pub is_linear: bool,
    pub mode: ParamMode,
}

impl View for LinearParam {
    type V = ParamModel;

    open spec fn view(&self) -> ParamModel {
        ParamModel { name: self.name@, ty: self.ty@, is_linear: self.is_linear, mode: self.mode }
    }
}

impl LinearParam {
    pub fn new(name: String, ty: Type, is_linear: bool, mode: ParamMode) -> (r: Self)
        ensures
            r@ == (ParamModel { name: name@, ty: ty@, is_linear, mode }),
    {
        LinearParam { name, ty, is_linear, mode }
    }
}

/// The return value with its linearity and mode.
#[derive(Debug)]
pub struct LinearReturn {
    pub ty: Type,
    pub is_linear: bool,
    pub mode: ReturnMode,
}

pub struct ReturnModel {
    pub ty: TypeModel,
    pub is_linear: bool,
    pub mode: ReturnMode,
}

impl View for LinearReturn {
    type V = ReturnModel;

    open spec fn view(&self) -> ReturnModel {
        ReturnModel { ty: self.ty@, is_linear: self.is_linear, mode: self.mode }
    }
}

impl LinearReturn {
    pub fn new(ty: Type, is_linear: bool, mode: ReturnMode) -> (r: Self)
        ensures
            r@ == (ReturnModel { ty: ty@, is_linear, mode }),
    {
        LinearReturn { ty, is_linear, mode }
    }
}

/// A function signature with the linear constraints of its parameters and result.
#[derive(Debug)]
pub struct LinearFunctionSignature {
    pub name: String,
    pub params: Vec<LinearParam>,
    pub ret: LinearReturn,
}

pub struct SignatureModel {
    pub name: Seq<char>,
    pub params: Seq<ParamModel>,
    pub ret: ReturnModel,
}

pub open spec fn params_of(ps: Seq<LinearParam>) -> Seq<ParamModel> {
    ps.map_values(|p: LinearParam| p@)
}

impl View for LinearFunctionSignature {
    type V = SignatureModel;

    open spec fn view(&self) -> SignatureModel {
        SignatureModel { name: self.name@, params: params_of(self.params@), ret: self.ret@ }
    }
}

/// The names of the owned linear parameters (those that must be consumed), in order.
pub open spec fn linear_names(ps: Seq<ParamModel>) -> Seq<Seq<char>>
    decreases ps.len(),
{
    if ps.len() == 0 {
        Seq::empty()
    } else if ps.last().is_linear && ps.last().mode is Owned {
        linear_names(ps.drop_last()).push(ps.last().name)
    } else {
        linear_names(ps.drop_last())
    }
}

/// The names of the borrowed parameters, in order.
pub open spec fn borrowed_names(ps: Seq<ParamModel>) -> Seq<Seq<char>>
    decreases ps.len(),
{
    if ps.len() == 0 {
        Seq::empty()
    } else if ps.last().mode is BorrowedImmut || ps.last().mode is BorrowedMut {
        borrowed_names(ps.drop_last()).push(ps.last().name)
    } else {
        borrowed_names(ps.drop_last())
    }
}

impl LinearFunctionSignature {
    pub fn new(name: String, params: Vec<LinearParam>, ret: LinearReturn) -> (r: Self)
        ensures
            r@ == (SignatureModel { name: name@, params: params_of(params@), ret: ret@ }),
    {
        LinearFunctionSignature { name, params, ret }
    }

    fn names_where(&self, linear: bool) -> (r: Vec<&str>)
        ensures
            linear ==> str_texts(r@) == linear_names(self@.params),
            !linear ==> str_texts(r@) == borrowed_names(self@.params),
    {
        let ghost ps = self@.params;
        let mut out: Vec<&str> = Vec::new();
        let mut k: usize = 0;
        while k < self.params.len()
            invariant
                k <= self.params@.len(),
                ps == self@.params,
                linear ==> str_texts(out@) == linear_names(ps.subrange(0, k as int)),
                !linear ==> str_texts(out@) == borrowed_names(ps.subrange(0, k as int)),
            decreases self.params.len() - k,
        {
            let ghost sub = ps.subrange(0, k + 1);
            assert(sub.drop_last() =~= ps.subrange(0, k as int));
            assert(sub.last() == self.params@[k as int]@);
            let p = &self.params[k];
            let keep = if linear {
                p.is_linear && p.mode == ParamMode::Owned
            } else {
                p.mode == ParamMode::BorrowedImmut || p.mode == ParamMode::BorrowedMut
            };
            let ghost before = out@;
            if keep {
                out.push(p.name.as_str());
                assert(str_texts(out@) =~= str_texts(before).push(p.name@));
            }
            k = k + 1;
        }
        assert(ps.subrange(0, self.params@.len() as int) =~= ps);
        out
    }

    /// The owned linear parameters, which the body must consume.
    pub fn linear_params(&self) -> (r: Vec<&str>)
        ensures
            str_texts(r@) == linear_names(self@.params),
    {
        self.names_where(true)
    }

    /// The borrowed parameters, which the body must not consume.
    pub fn borrowed_params(&self) -> (r: Vec<&str>)
        ensures
            str_texts(r@) == borrowed_names(self@.params),
    {
        self.names_where(false)
    }
}

/// The position of the first parameter named `name`.
pub open spec fn first_named(ps: Seq<ParamModel>, name: Seq<char>) -> Option<int>
    decreases ps.len(),
{
    if ps.len() == 0 {
        None
    } else if ps[0].name == name {
        Some(0)
    } else {
        match first_named(ps.drop_first(), name) {
            Some(i) => Some(i + 1),
            None => None,
        }
    }
}

proof fn lemma_first_named(ps: Seq<ParamModel>, name: Seq<char>)
    ensures
        first_named(ps, name) matches Some(i) ==> 0 <= i < ps.len() && ps[i].name == name
            && forall|j: int| 0 <= j < i ==> ps[j].name != name,
        first_named(ps, name) is None ==> forall|j: int| 0 <= j < ps.len() ==> ps[j].name != name,
    decreases ps.len(),
{
    if ps.len() > 0 {
        lemma_first_named(ps.drop_first(), name);
        assert forall|j: int| 0 < j < ps.len() implies ps[j] == ps.drop_first()[j - 1] by {}
    }
}

pub open spec fn msg_borrowed_return(f: Seq<char>, t: TypeModel) -> Seq<char> {
    "function "@ + quoted(f) + " returns a borrow of linear type "@ + quoted(type_text(t))
        + " - this may create use-after-free"@
}

pub open spec fn msg_param_not_consumed(p: Seq<char>, t: TypeModel) -> Seq<char> {
    "linear parameter "@ + quoted(p) + " of type "@ + quoted(type_text(t)) + " is not consumed"@
}

pub open spec fn msg_return_mismatch(f: Seq<char>, expected: TypeModel, got: TypeModel) -> Seq<char> {
    "function "@ + quoted(f) + " signature expects return type "@ + quoted(type_text(expected)) + " but got "@
        + quoted(type_text(got))
}

pub open spec fn msg_returned_unknown(r: Seq<char>) -> Seq<char> {
    "returned value "@ + quoted(r) + " not found in parameters"@
}

pub open spec fn msg_must_return(f: Seq<char>, t: TypeModel) -> Seq<char> {
    "function "@ + quoted(f) + " must return value of type "@ + quoted(type_text(t))
}

pub open spec fn msg_arg_count(f: Seq<char>, expected: nat, got: nat) -> Seq<char> {
    "function "@ + quoted(f) + " expects "@ + crate::text::nat_decimal(expected) + " arguments, got "@
        + crate::text::nat_decimal(got)
}

pub open spec fn msg_arg_type(i: nat, arg: Seq<char>, expected: TypeModel, got: TypeModel) -> Seq<char> {
    "argument "@ + crate::text::nat_decimal(i) + " ("@ + quoted(arg) + ") type mismatch: expected "@
        + quoted(type_text(expected)) + ", got "@ + quoted(type_text(got))
}

/// The signature's own errors: a linear result returned by borrow.
pub open spec fn signature_errors(sig: SignatureModel) -> Seq<Seq<char>> {
    if sig.ret.is_linear && sig.ret.mode is Borrowed {
        seq![msg_borrowed_return(sig.name, sig.ret.ty)]
    } else {
        Seq::empty()
    }
}

/// For each owned linear parameter in `names` that is neither used nor returned,
/// that it is not consumed (with the type of the first parameter of that name).
pub open spec fn unconsumed_errors(
    ps: Seq<ParamModel>,
    names: Seq<Seq<char>>,
    used: Seq<Seq<char>>,
    returned: Option<Seq<char>>,
) -> Seq<Seq<char>>
    decreases names.len(),
{
    if names.len() == 0 {
        Seq::empty()
    } else {
        let p = names.last();
        let rest = unconsumed_errors(ps, names.drop_last(), used, returned);
        if !used.contains(p) && returned != Some(p) {
            match first_named(ps, p) {
                Some(i) => rest.push(msg_param_not_consumed(p, ps[i].ty)),
                None => rest,
            }
        } else {
            rest
        }
    }
}

/// The errors about the returned value: when the result is not unit, the returned
/// parameter must exist and have the result type, and a function that returns
/// something must return a value.
pub open spec fn return_errors(sig: SignatureModel, returned: Option<Seq<char>>) -> Seq<Seq<char>> {
    if sig.ret.ty is Unit {
        Seq::empty()
    } else {
        match returned {
            Some(r) => match first_named(sig.params, r) {
                Some(i) => if sig.params[i].ty != sig.ret.ty {
                    seq![msg_return_mismatch(sig.name, sig.ret.ty, sig.params[i].ty)]
                } else {
                    Seq::empty()
                },
                None => seq![msg_returned_unknown(r)],
            },
            None => if sig.ret.mode is Unit {
                Seq::empty()
            } else {
                seq![msg_must_return(sig.name, sig.ret.ty)]
            },
        }
    }
}

pub open spec fn body_errors(sig: SignatureModel, used: Seq<Seq<char>>, returned: Option<Seq<char>>) -> Seq<Seq<char>> {
    unconsumed_errors(sig.params, linear_names(sig.params), used, returned) + return_errors(sig, returned)
}

/// An argument of type `got` can be passed for a parameter of type `expected`: the
/// same type, or a constrained range for `u32`.
pub open spec fn arg_compatible(expected: TypeModel, got: TypeModel) -> bool {
    expected == got || (expected is U32 && got is ConstrainedRange)
}

/// The type mismatches of the first `args.len()` arguments.
pub open spec fn arg_errors(ps: Seq<ParamModel>, args: Seq<(Seq<char>, TypeModel)>) -> Seq<Seq<char>>
    decreases args.len(),
{
    if args.len() == 0 {
        Seq::empty()
    } else {
        let i = args.len() - 1;
        let rest = arg_errors(ps, args.drop_last());
        if arg_compatible(ps[i].ty, args[i].1) {
            rest
        } else {
            rest.push(msg_arg_type(i as nat, args[i].0, ps[i].ty, args[i].1))
        }
    }
}

pub open spec fn call_errors(sig: SignatureModel, args: Seq<(Seq<char>, TypeModel)>) -> Seq<Seq<char>> {
    if args.len() != sig.params.len() {
        seq![msg_arg_count(sig.name, sig.params.len(), args.len())]
    } else {
        arg_errors(sig.params, args)
    }
}

pub open spec fn args_of(args: Seq<(String, Type)>) -> Seq<(Seq<char>, TypeModel)> {
    args.map_values(|a: (String, Type)| (a.0@, a.1@))
}

fn str_in(v: &[&str], s: &str) -> (r: bool)
    ensures
        r == str_texts(v@).contains(s@),
{
    let mut k: usize = 0;
    while k < v.len()
        invariant
            k <= v@.len(),
            forall|i: int| 0 <= i < k ==> v@[i]@ != s@,
        decreases v.len() - k,
    {
        if str_eq(v[k], s) {
            assert(str_texts(v@)[k as int] == s@);
            return true;
        }
        k = k + 1;
    }
    assert forall|i: int| 0 <= i < str_texts(v@).len() implies str_texts(v@)[i] != s@ by {
        assert(str_texts(v@)[i] == v@[i]@);
    }
    false
}

fn find_param(ps: &Vec<LinearParam>, name: &str) -> (r: Option<usize>)
    ensures
        r matches Some(i) ==> first_named(params_of(ps@), name@) == Some(i as int) && i < ps@.len(),
        r is None ==> first_named(params_of(ps@), name@) is None,
{
    let ghost m = params_of(ps@);
    proof { lemma_first_named(m, name@); }
    let mut k: usize = 0;
    while k < ps.len()
        invariant
            k <= ps@.len(),
            m == params_of(ps@),
            forall|j: int| 0 <= j < k ==> m[j].name != name@,
        decreases ps.len() - k,
    {
        assert(m[k as int] == ps@[k as int]@);
        if str_eq(ps[k].name.as_str(), name) {
            proof {
                lemma_first_named(m, name@);
                if first_named(m, name@) != Some(k as int) {
                    match first_named(m, name@) {
                        Some(j) => {
                            if j < k {
                            } else {
                                assert(m[k as int].name == name@);
                            }
                        },
                        None => {
                            assert(m[k as int].name == name@);
                        },
                    }
                }
            }
            return Some(k);
        }
        k = k + 1;
    }
    None
}

fn quote_name(out: &mut String, name: &str)
    ensures
        final(out)@ == old(out)@ + quoted(name@),
{
    out.append("'");
    out.append(name);
    out.append("'");
    assert(final(out)@ =~= old(out)@ + quoted(name@));
}

fn append_quoted_type(out: &mut String, t: &Type)
    ensures
        final(out)@ == old(out)@ + quoted(type_text(t@)),
{
    out.append("'");
    let d = t.display();
    out.append(d.as_str());
    out.append("'");
    assert(final(out)@ =~= old(out)@ + quoted(type_text(t@)));
}

fn ok_or_errors(errors: Vec<String>) -> (r: Result<(), Vec<String>>)
    ensures
        ok_or_all(r, crate::control_flow::texts(errors@)),
{
    if errors.len() == 0 {
        Ok(())
    } else {
        Err(errors)
    }
}

/// Checks of signatures, bodies and call sites against the linear rules.
pub struct SignatureValidator;

impl SignatureValidator {
    /// Fails exactly when a linear result is returned by borrow (see
    /// [`signature_errors`]).
    pub fn validate_signature(sig: &LinearFunctionSignature) -> (r: Result<(), Vec<String>>)
        ensures
            ok_or_all(r, signature_errors(sig@)),
    {
        let mut errors: Vec<String> = Vec::new();
        if sig.ret.is_linear && sig.ret.mode == ReturnMode::Borrowed {
            let mut m = String::from_str("function ");
            quote_name(&mut m, sig.name.as_str());
            m.append(" returns a borrow of linear type ");
            append_quoted_type(&mut m, &sig.ret.ty);
            m.append(" - this may create use-after-free");
            errors.push(m);
            assert(crate::control_flow::texts(errors@) =~= signature_errors(sig@));
        } else {
            assert(crate::control_flow::texts(errors@) =~= signature_errors(sig@));
        }
        ok_or_errors(errors)
    }

    /// Checks a body against its signature: every owned linear parameter is used or
    /// returned, and the returned parameter matches the result (see [`body_errors`]).
    /// The borrowed names play no part in the outcome.
    pub fn validate_body(
        sig: &LinearFunctionSignature,
        used_params: &[&str],
        borrowed_params: &[&str],
        returned_param: Option<&str>,
    ) -> (r: Result<(), Vec<String>>)
        ensures
            ok_or_all(r, body_errors(sig@, str_texts(used_params@), match returned_param {
                Some(x) => Some(x@),
                None => None,
            })),
    {
        let ghost returned = match returned_param {
            Some(x) => Some(x@),
            None => None::<Seq<char>>,
        };
        let ghost used = str_texts(used_params@);
        let ghost ps = sig@.params;
        let mut errors: Vec<String> = Vec::new();
        let linear = sig.linear_params();
        let ghost names = str_texts(linear@);
        let mut k: usize = 0;
        while k < linear.len()
            invariant
                k <= linear@.len(),
                names == str_texts(linear@),
                names == linear_names(ps),
                ps == sig@.params,
                used == str_texts(used_params@),
                returned == (match returned_param {
                    Some(x) => Some(x@),
                    None => None::<Seq<char>>,
                }),
                crate::control_flow::texts(errors@) == unconsumed_errors(ps, names.subrange(0, k as int), used, returned),
            decreases linear.len() - k,
        {
            let ghost sub = names.subrange(0, k + 1);
            assert(sub.drop_last() =~= names.subrange(0, k as int));
            assert(sub.last() == linear@[k as int]@);
            let p = linear[k];
            let is_returned = match returned_param {
                Some(x) => str_eq(x, p),
                None => false,
            };
            let ghost before = errors@;
            if !str_in(used_params, p) && !is_returned {
                match find_param(&sig.params, p) {
                    Some(i) => {
                        assert(ps[i as int] == sig.params@[i as int]@);
                        let mut m = String::from_str("linear parameter ");
                        quote_name(&mut m, p);
                        m.append(" of type ");
                        append_quoted_type(&mut m, &sig.params[i].ty);
                        m.append(" is not consumed");
                        assert(m@ =~= msg_param_not_consumed(p@, ps[i as int].ty));
                        errors.push(m);
                        assert(crate::control_flow::texts(errors@) =~= crate::control_flow::texts(before).push(m@));
                    },
                    None => {},
                }
            }
            k = k + 1;
        }
        assert(names.subrange(0, linear@.len() as int) =~= names);
        let ghost mid = errors@;
        if !matches!(sig.ret.ty, Type::Unit) {
            match returned_param {
                Some(returned_name) => {
                    match find_param(&sig.params, returned_name) {
                        Some(i) => {
                            assert(ps[i as int] == sig.params@[i as int]@);
                            if !same_type(&sig.params[i].ty, &sig.ret.ty) {
                                let mut m = String::from_str("function ");
                                quote_name(&mut m, sig.name.as_str());
                                m.append(" signature expects return type ");
                                append_quoted_type(&mut m, &sig.ret.ty);
                                m.append(" but got ");
                                append_quoted_type(&mut m, &sig.params[i].ty);
                                assert(m@ =~= msg_return_mismatch(sig@.name, sig@.ret.ty, ps[i as int].ty));
                                errors.push(m);
                            }
                        },
                        None => {
                            let mut m = String::from_str("returned value ");
                            quote_name(&mut m, returned_name);
                            m.append(" not found in parameters");
                            assert(m@ =~= msg_returned_unknown(returned_name@));
                            errors.push(m);
                        },
                    }
                },
                None => {
                    if sig.ret.mode != ReturnMode::Unit {
                        let mut m = String::from_str("function ");
                        quote_name(&mut m, sig.name.as_str());
                        m.append(" must return value of type ");
                        append_quoted_type(&mut m, &sig.ret.ty);
                        assert(m@ =~= msg_must_return(sig@.name, sig@.ret.ty));
                        errors.push(m);
                    }
                },
            }
        }
        assert(crate::control_flow::texts(errors@) =~= crate::control_flow::texts(mid) + return_errors(sig@, returned));
        ok_or_errors(errors)
    }

    /// Checks the arguments of a call: their number, then each argument's type
    /// against its parameter's (see [`call_errors`]).
    pub fn validate_call(sig: &LinearFunctionSignature, args: &[(String, Type)]) -> (r: Result<(), Vec<String>>)
        ensures
            ok_or_all(r, call_errors(sig@, args_of(args@))),
    {
        let ghost ps = sig@.params;
        let ghost am = args_of(args@);
        let mut errors: Vec<String> = Vec::new();
        if args.len() != sig.params.len() {
            let mut m = String::from_str("function ");
            quote_name(&mut m, sig.name.as_str());
            m.append(" expects ");
            append_decimal(&mut m, sig.params.len() as u64);
            m.append(" arguments, got ");
            append_decimal(&mut m, args.len() as u64);
            assert(m@ =~= msg_arg_count(sig@.name, ps.len(), am.len()));
            errors.push(m);
            assert(crate::control_flow::texts(errors@) =~= call_errors(sig@, am));
            return Err(errors);
        }
        let mut i: usize = 0;
        while i < args.len()
            invariant
                i <= args@.len(),
                args@.len() == sig.params@.len(),
                ps == sig@.params,
                am == args_of(args@),
                crate::control_flow::texts(errors@) == arg_errors(ps, am.subrange(0, i as int)),
            decreases args.len() - i,
        {
            let ghost sub = am.subrange(0, i + 1);
            assert(sub.drop_last() =~= am.subrange(0, i as int));
            assert(sub[i as int] == (args@[i as int].0@, args@[i as int].1@));
            assert(ps[i as int] == sig.params@[i as int]@);
            let param = &sig.params[i];
            let arg = &args[i];
            let compatible = same_type(&param.ty, &arg.1) || (matches!(param.ty, Type::U32)
                && matches!(arg.1, Type::ConstrainedRange { .. }));
            let ghost before = errors@;
            if !compatible {
                let mut m = String::from_str("argument ");
                append_decimal(&mut m, i as u64);
                m.append(" (");
                quote_name(&mut m, arg.0.as_str());
                m.append(") type mismatch: expected ");
                append_quoted_type(&mut m, &param.ty);
                m.append(", got ");
                append_quoted_type(&mut m, &arg.1);
                assert(m@ =~= msg_arg_type(i as nat, arg.0@, ps[i as int].ty, arg.1@));
                errors.push(m);
                assert(crate::control_flow::texts(errors@) =~= crate::control_flow::texts(before).push(m@));
            }
            i = i + 1;
        }
        assert(am.subrange(0, args@.len() as int) =~= am);
        ok_or_errors(errors)
    }
}

/// The position of the first signature named `name`.
pub open spec fn signature_index(ss: Seq<SignatureModel>, name: Seq<char>) -> Option<int>
    decreases ss.len(),
{
    if ss.len() == 0 {
        None
    } else if ss[0].name == name {
        Some(0)
    } else {
        match signature_index(ss.drop_first(), name) {
            Some(i) => Some(i + 1),
            None => None,
        }
    }
}

proof fn lemma_signature_index(ss: Seq<SignatureModel>, name: Seq<char>)
    ensures
        signature_index(ss, name) matches Some(i) ==> 0 <= i < ss.len() && ss[i].name == name
            && forall|j: int| 0 <= j < i ==> ss[j].name != name,
        signature_index(ss, name) is None ==> forall|j: int| 0 <= j < ss.len() ==> ss[j].name != name,
    decreases ss.len(),
{
    if ss.len() > 0 {
        lemma_signature_index(ss.drop_first(), name);
        assert forall|j: int| 0 < j < ss.len() implies ss[j] == ss.drop_first()[j - 1] by {}
    }
}

/// The signatures after registering `sig`: it replaces the signature of the
/// same name, or joins at the end.
pub open spec fn registered(ss: Seq<SignatureModel>, sig: SignatureModel) -> Seq<SignatureModel> {
    match signature_index(ss, sig.name) {
        Some(i) => ss.update(i, sig),
        None => ss.push(sig),
    }
}

proof fn lemma_signature_scan(ss: Seq<SignatureModel>, name: Seq<char>, i: int)
    requires
        0 <= i < ss.len(),
        ss[i].name == name,
        forall|j: int| 0 <= j < i ==> ss[j].name != name,
    ensures
        signature_index(ss, name) == Some(i),
{
    lemma_signature_index(ss, name);
    if let Some(j) = signature_index(ss, name) {
        if j > i {
            assert(ss[i].name != name);
        }
    }
}

/// A registered signature is found under its name, and every other name
/// finds what it found before.
pub proof fn law_registered_signature_is_found(ss: Seq<SignatureModel>, sig: SignatureModel, other: Seq<char>)
    ensures
        signature_index(registered(ss, sig), sig.name) matches Some(i) && registered(ss, sig)[i] == sig,
        other != sig.name ==> signature_index(registered(ss, sig), other) == signature_index(ss, other),
        other != sig.name ==> (signature_index(ss, other) matches Some(i) ==> registered(ss, sig)[i] == ss[i]),
{
    let t = registered(ss, sig);
    lemma_signature_index(ss, sig.name);
    match signature_index(ss, sig.name) {
        Some(i) => {
            lemma_signature_scan(t, sig.name, i);
        },
        None => {
            lemma_signature_scan(t, sig.name, ss.len() as int);
        },
    }
    if other != sig.name {
        lemma_signature_index(ss, other);
        lemma_signature_index(t, other);
        match signature_index(ss, other) {
            Some(i) => {
                assert(t[i] == ss[i]);
                lemma_signature_scan(t, other, i);
            },
            None => {
                if let Some(x) = signature_index(t, other) {
                    assert(t[x].name == other);
                    assert(false);
                }
            },
        }
    }
}

pub open spec fn signatures_of(ss: Seq<LinearFunctionSignature>) -> Seq<SignatureModel> {
    ss.map_values(|s: LinearFunctionSignature| s@)
}

/// The known signatures, one per name, and the one being checked.
#[derive(Debug)]
pub struct SignatureContext {
    pub current_sig: Option<LinearFunctionSignature>,
    /// The registered signatures; a name registered again replaces the earlier one.
    pub signatures: Vec<LinearFunctionSignature>,
}

impl SignatureContext {
    pub fn new() -> (r: Self)
        ensures
            r.current_sig is None,
            r.signatures@.len() == 0,
    {
        SignatureContext { current_sig: None, signatures: Vec::new() }
    }

    fn index_of(&self, name: &str) -> (r: Option<usize>)
        ensures
            r matches Some(i) ==> signature_index(signatures_of(self.signatures@), name@) == Some(i as int)
                && i < self.signatures@.len(),
            r is None ==> signature_index(signatures_of(self.signatures@), name@) is None,
    {
        let ghost m = signatures_of(self.signatures@);
        proof { lemma_signature_index(m, name@); }
        let mut k: usize = 0;
        while k < self.signatures.len()
            invariant
                k <= self.signatures@.len(),
                m == signatures_of(self.signatures@),
                forall|j: int| 0 <= j < k ==> m[j].name != name@,
            decreases self.signatures.len() - k,
        {
            assert(m[k as int] == self.signatures@[k as int]@);
            if str_eq(self.signatures[k].name.as_str(), name) {
                proof {
                    lemma_signature_index(m, name@);
                    if signature_index(m, name@) != Some(k as int) {
                        match signature_index(m, name@) {
                            Some(j) => {
                                if j > k {
                                    assert(m[k as int].name == name@);
                                }
                            },
                            None => {
                                assert(m[k as int].name == name@);
                            },
                        }
                    }
                }
                return Some(k);
            }
            k = k + 1;
        }
        None
    }

    /// Registers `sig`, replacing the signature registered under its name, if any.
    pub fn register_signature(&mut self, sig: LinearFunctionSignature)
        ensures
            final(self).current_sig == old(self).current_sig,
            signatures_of(final(self).signatures@) == registered(signatures_of(old(self).signatures@), sig@),
    {
        let ghost before = self.signatures@;
        let ghost m = sig@;
        match self.index_of(sig.name.as_str()) {
            Some(i) => {
                self.signatures.set(i, sig);
                assert(signatures_of(self.signatures@) =~= signatures_of(before).update(i as int, m));
            },
            None => {
                self.signatures.push(sig);
                assert(signatures_of(self.signatures@) =~= signatures_of(before).push(m));
            },
        }
    }

    /// The signature registered under `name`.
    pub fn get_signature(&self, name: &str) -> (r: Option<&LinearFunctionSignature>)
        ensures
            match signature_index(signatures_of(self.signatures@), name@) {
                Some(i) => r matches Some(s) && s@ == signatures_of(self.signatures@)[i],
                None => r is None,
            },
    {
        match self.index_of(name) {
            Some(i) => Some(&self.signatures[i]),
            None => None,
        }
    }

    pub fn set_current_function(&mut self, sig: LinearFunctionSignature)
        ensures
            final(self).current_sig == Some(sig),
            final(self).signatures == old(self).signatures,
    {
        self.current_sig = Some(sig);
    }

    pub fn current_function(&self) -> (r: Option<&LinearFunctionSignature>)
        ensures
            r == match &self.current_sig {
                Some(s) => Some(s),
                None => None,
            },
    {
        self.current_sig.as_ref()
    }
}

} // verus!
