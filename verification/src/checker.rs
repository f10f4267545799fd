//! The semantic pass over a whole program: name resolution in nested
//! scopes, type checking with `u32` ranges, linear (non-copy) values that
//! are moved at most once, and the capability graph that backs them.
use vstd::prelude::*;
use crate::ast::{BinOp, Block, CallArg, Expr, ExprKind, FlowOp, Ident, MatchArm, Pattern, Stmt, TypeArg, TypeRef, UnaryOp};
use crate::capability::{CapabilityGraph, CapabilityId};
use crate::error::{SemanticError, Span};
use crate::range_proof::{DummySolver, Verifier};
use crate::sema::const_u64;
use crate::text::str_eq;
use crate::types::{Type, TypeModel};

verus! {

broadcast use vstd::std_specs::vec::axiom_vec_decreases_to_view;

// ---------------------------------------------------------------------------
// Keyed tables
// ---------------------------------------------------------------------------

/// The value last entered under `k`: entering a key again replaces it.
pub open spec fn latest<V>(s: Seq<(Seq<char>, V)>, k: Seq<char>) -> Option<V>
    decreases s.len(),
{
    if s.len() == 0 {
        None
    } else if s.last().0 == k {
        Some(s.last().1)
    } else {
        latest(s.drop_last(), k)
    }
}

proof fn lemma_latest_at<V>(s: Seq<(Seq<char>, V)>, k: Seq<char>, i: int)
    requires
        0 <= i < s.len(),
        s[i].0 == k,
        forall|j: int| i < j < s.len() ==> s[j].0 != k,
    ensures
        latest(s, k) == Some(s[i].1),
    decreases s.len(),
{
    if i < s.len() - 1 {
        lemma_latest_at(s.drop_last(), k, i);
    }
}

proof fn lemma_latest_none<V>(s: Seq<(Seq<char>, V)>, k: Seq<char>)
    requires
        forall|j: int| 0 <= j < s.len() ==> s[j].0 != k,
    ensures
        latest(s, k) is None,
    decreases s.len(),
{
    if s.len() > 0 {
        lemma_latest_none(s.drop_last(), k);
    }
}

/// The position of the entry last entered under `key`.
fn find_last<V>(v: &Vec<(String, V)>, key: &str) -> (r: Option<usize>)
    ensures
        match r {
            Some(i) => i < v@.len() && v@[i as int].0@ == key@ && forall|j: int|
                i < j < v@.len() ==> (#[trigger] v@[j]).0@ != key@,
            None => forall|j: int| 0 <= j < v@.len() ==> (#[trigger] v@[j]).0@ != key@,
        },
{
    let mut k: usize = v.len();
    while k > 0
        invariant
            k <= v.len(),
            forall|j: int| k <= j < v@.len() ==> (#[trigger] v@[j]).0@ != key@,
        decreases k,
    {
        if str_eq(v[k - 1].0.as_str(), key) {
            return Some(k - 1);
        }
        k = k - 1;
    }
    None
}

// ---------------------------------------------------------------------------
// Signatures, definitions and written types
// ---------------------------------------------------------------------------

/// The ownership state of a binding.
#[derive(Clone, Copy, Debug, PartialEq, Eq, Structural)]
pub enum OwnershipState {
    /// The value may be moved, borrowed or used.
    Owned,
    /// The value was moved; it may not be used again.
    Consumed,
    /// An immutable borrow of the value exists.
    Borrowed,
    /// The value was handed back to the caller.
    Returned,
}

/// A parameter of a function signature.
pub struct FnParam {
    pub name: String,
    pub ty: Type,
}

/// A function signature.
pub struct FnSig {
    pub params: Vec<FnParam>,
    pub ret: Type,
}

/// The mathematical value of a signature.
pub struct SigModel {
    pub params: Seq<(Seq<char>, TypeModel)>,
    pub ret: TypeModel,
}

impl View for FnSig {
    type V = SigModel;

    open spec fn view(&self) -> SigModel {
        SigModel { params: self.params@.map_values(|p: FnParam| (p.name@, p.ty@)), ret: self.ret@ }
    }
}

/// The names of a signature's parameters.
pub open spec fn param_names(sig: SigModel) -> Seq<Seq<char>> {
    sig.params.map_values(|p: (Seq<char>, TypeModel)| p.0)
}

/// An unshaped tensor of unknown elements.
pub open spec fn any_tensor() -> TypeModel {
    TypeModel::Tensor { elem: Box::new(TypeModel::Unknown), shape: None }
}

/// The functions every program may call.
pub open spec fn builtin_signatures() -> Seq<(Seq<char>, SigModel)> {
    seq![
        ("io.println"@, SigModel { params: seq![("text"@, TypeModel::String)], ret: TypeModel::Unit }),
        ("io.load_tensor"@, SigModel { params: seq![("path"@, TypeModel::String)], ret: any_tensor() }),
        ("io.display"@, SigModel { params: seq![("t"@, any_tensor())], ret: TypeModel::Unit }),
        ("io.read_line"@, SigModel { params: seq![("prompt"@, TypeModel::String)], ret: TypeModel::String }),
        ("io.read_text"@, SigModel { params: seq![("path"@, TypeModel::String)], ret: TypeModel::String }),
        ("io.write_text"@, SigModel { params: seq![("path"@, TypeModel::String), ("text"@, TypeModel::String)], ret: TypeModel::Unit }),
        ("ui.event_text"@, SigModel { params: seq![], ret: TypeModel::String }),
        ("ui.get_text"@, SigModel { params: seq![("key"@, TypeModel::String)], ret: TypeModel::String }),
        ("ui.set_text"@, SigModel { params: seq![("key"@, TypeModel::String), ("value"@, TypeModel::String)], ret: TypeModel::Unit }),
        ("shop.path"@, SigModel { params: seq![], ret: TypeModel::String }),
        ("shop.select"@, SigModel { params: seq![("index"@, TypeModel::U32)], ret: TypeModel::Unit }),
        ("shop.selection_status"@, SigModel { params: seq![], ret: TypeModel::String }),
        ("shop.clear_selection"@, SigModel { params: seq![], ret: TypeModel::Unit }),
        ("shop.has_selection"@, SigModel { params: seq![], ret: TypeModel::Bool }),
        ("shop.selected_index"@, SigModel { params: seq![], ret: TypeModel::U32 }),
        ("shop.status"@, SigModel { params: seq![], ret: TypeModel::String }),
        ("shop.is_pending"@, SigModel { params: seq![], ret: TypeModel::Bool }),
        ("shop.cancel"@, SigModel { params: seq![], ret: TypeModel::Unit }),
        ("shop.begin_add"@, SigModel { params: seq![], ret: TypeModel::Unit }),
        ("shop.begin_edit"@, SigModel { params: seq![("index"@, TypeModel::U32)], ret: TypeModel::Unit }),
        ("shop.load"@, SigModel { params: seq![("path"@, TypeModel::String)], ret: TypeModel::Unit }),
        ("shop.save"@, SigModel { params: seq![("path"@, TypeModel::String)], ret: TypeModel::Unit }),
        ("shop.count"@, SigModel { params: seq![], ret: TypeModel::U32 }),
        ("shop.upsert"@, SigModel { params: seq![("name"@, TypeModel::String), ("qty"@, TypeModel::String), ("notes"@, TypeModel::String)], ret: TypeModel::Unit }),
        ("shop.get_name"@, SigModel { params: seq![("index"@, TypeModel::U32)], ret: TypeModel::String }),
        ("shop.get_qty"@, SigModel { params: seq![("index"@, TypeModel::U32)], ret: TypeModel::String }),
        ("shop.get_notes"@, SigModel { params: seq![("index"@, TypeModel::U32)], ret: TypeModel::String }),
        ("shop.get_done"@, SigModel { params: seq![("index"@, TypeModel::U32)], ret: TypeModel::Bool }),
        ("shop.add"@, SigModel { params: seq![("name"@, TypeModel::String), ("qty"@, TypeModel::String), ("notes"@, TypeModel::String)], ret: TypeModel::Unit }),
        ("shop.edit"@, SigModel { params: seq![("index"@, TypeModel::U32), ("name"@, TypeModel::String), ("qty"@, TypeModel::String), ("notes"@, TypeModel::String)], ret: TypeModel::Unit }),
        ("shop.remove"@, SigModel { params: seq![("index"@, TypeModel::U32)], ret: TypeModel::Unit }),
        ("shop.toggle"@, SigModel { params: seq![("index"@, TypeModel::U32)], ret: TypeModel::Unit }),
        ("shop.clear"@, SigModel { params: seq![], ret: TypeModel::Unit }),
        ("shop.clear_completed"@, SigModel { params: seq![], ret: TypeModel::Unit }),
        ("tensor.new"@, SigModel { params: seq![("len"@, TypeModel::U32)], ret: any_tensor() }),
        ("tensor.len"@, SigModel { params: seq![("t"@, any_tensor())], ret: TypeModel::U32 }),
        ("tensor.get"@, SigModel { params: seq![("t"@, any_tensor()), ("idx"@, TypeModel::U32)], ret: TypeModel::U32 }),
        ("tensor.set"@, SigModel { params: seq![("t"@, any_tensor()), ("idx"@, TypeModel::U32), ("value"@, TypeModel::U32)], ret: TypeModel::Unit }),
        ("collections.vector_new"@, SigModel { params: seq![("len"@, TypeModel::U32)], ret: any_tensor() }),
        ("collections.vector_len"@, SigModel { params: seq![("v"@, any_tensor())], ret: TypeModel::U32 }),
        ("collections.vector_get"@, SigModel { params: seq![("v"@, any_tensor()), ("idx"@, TypeModel::U32)], ret: TypeModel::U32 }),
        ("collections.vector_set"@, SigModel { params: seq![("v"@, any_tensor()), ("idx"@, TypeModel::U32), ("value"@, TypeModel::U32)], ret: TypeModel::Unit }),
        ("ai.load_model"@, SigModel { params: seq![("path"@, TypeModel::String)], ret: TypeModel::Model }),
        ("ai.infer"@, SigModel { params: seq![("model"@, TypeModel::Model), ("input"@, any_tensor())], ret: any_tensor() }),
        ("compute_gradient"@, SigModel { params: seq![("x"@, TypeModel::U32)], ret: any_tensor() }),
    ]
}

fn param(name: &str, ty: Type) -> (r: FnParam)
    ensures
        r.name@ == name@,
        r.ty@ == ty@,
{
    FnParam { name: String::from_str(name), ty }
}

fn sig0(ret: Type) -> (r: FnSig)
    ensures
        r@ == (SigModel { params: seq![], ret: ret@ }),
{
    let r = FnSig { params: Vec::new(), ret };
    assert(r@.params =~= seq![]);
    r
}

fn sig1(a: FnParam, ret: Type) -> (r: FnSig)
    ensures
        r@ == (SigModel { params: seq![(a.name@, a.ty@)], ret: ret@ }),
{
    let ghost pa = (a.name@, a.ty@);
    let r = FnSig { params: vec![a], ret };
    assert(r@.params =~= seq![pa]);
    r
}

fn sig2(a: FnParam, b: FnParam, ret: Type) -> (r: FnSig)
    ensures
        r@ == (SigModel { params: seq![(a.name@, a.ty@), (b.name@, b.ty@)], ret: ret@ }),
{
    let ghost pa = (a.name@, a.ty@);
    let ghost pb = (b.name@, b.ty@);
    let r = FnSig { params: vec![a, b], ret };
    assert(r@.params =~= seq![pa, pb]);
    r
}

fn sig4(a: FnParam, b: FnParam, c: FnParam, d: FnParam, ret: Type) -> (r: FnSig)
    ensures
        r@ == (SigModel {
            params: seq![(a.name@, a.ty@), (b.name@, b.ty@), (c.name@, c.ty@), (d.name@, d.ty@)],
            ret: ret@,
        }),
{
    let ghost pa = (a.name@, a.ty@);
    let ghost pb = (b.name@, b.ty@);
    let ghost pc = (c.name@, c.ty@);
    let ghost pd = (d.name@, d.ty@);
    let r = FnSig { params: vec![a, b, c, d], ret };
    assert(r@.params =~= seq![pa, pb, pc, pd]);
    r
}

fn sig3(a: FnParam, b: FnParam, c: FnParam, ret: Type) -> (r: FnSig)
    ensures
        r@ == (SigModel { params: seq![(a.name@, a.ty@), (b.name@, b.ty@), (c.name@, c.ty@)], ret: ret@ }),
{
    let ghost pa = (a.name@, a.ty@);
    let ghost pb = (b.name@, b.ty@);
    let ghost pc = (c.name@, c.ty@);
    let r = FnSig { params: vec![a, b, c], ret };
    assert(r@.params =~= seq![pa, pb, pc]);
    r
}


/// A range bound as written: its value when it is an integer literal.
#[derive(Clone, Copy)]
pub struct BoundSyntax {
    pub span: Span,
    pub value: Option<u64>,
}

/// A range constraint as written.
#[derive(Clone, Copy)]
pub struct RangeSyntax {
    pub span: Span,
    pub lo: BoundSyntax,
    pub hi: BoundSyntax,
}

/// An argument of a written type.
pub enum ArgSyntax {
    Type(Box<TypeSyntax>),
    Shape(Vec<u64>),
}

/// A type as written, with what resolving it reads.
pub struct TypeSyntax {
    pub span: Span,
    pub name: String,
    pub args: Vec<ArgSyntax>,
    pub range: Option<RangeSyntax>,
}

/// The written form of a type reference of the syntax tree.
pub fn syntax_of(tr: &TypeRef) -> (r: TypeSyntax)
    ensures
        r.span == tr.span,
        r.name@ == tr.name.node@,
        r.args.len() == tr.args.len(),
        r.range is Some == tr.range is Some,
    decreases tr,
{
    let mut args: Vec<ArgSyntax> = Vec::new();
    let mut k: usize = 0;
    while k < tr.args.len()
        invariant
            k <= tr.args.len(),
            args.len() == k,
        decreases tr.args.len() - k,
    {
        let a = match &tr.args[k] {
            TypeArg::Type(t) => {
                proof {
                    assert(decreases_to!(*tr => tr.args));
                    assert(decreases_to!(*tr => tr.args@[k as int]));
                }
                ArgSyntax::Type(Box::new(syntax_of(t)))
            },
            TypeArg::Shape(d) => ArgSyntax::Shape(d.clone()),
        };
        args.push(a);
        k = k + 1;
    }
    let range = match &tr.range {
        Some(rc) => Some(
            RangeSyntax {
                span: rc.span,
                lo: BoundSyntax { span: rc.lo.span, value: const_u64(&rc.lo) },
                hi: BoundSyntax { span: rc.hi.span, value: const_u64(&rc.hi) },
            },
        ),
        None => None,
    };
    TypeSyntax { span: tr.span, name: tr.name.node.clone(), args, range }
}

impl TypeSyntax {
    /// A copy of the written type.
    pub fn copied(&self) -> (r: TypeSyntax)
        ensures
            r.span == self.span,
            r.name@ == self.name@,
            r.args.len() == self.args.len(),
            r.range == self.range,
        decreases self,
    {
        let mut args: Vec<ArgSyntax> = Vec::new();
        let mut k: usize = 0;
        while k < self.args.len()
            invariant
                k <= self.args.len(),
                args.len() == k,
            decreases self.args.len() - k,
        {
            let a = match &self.args[k] {
                ArgSyntax::Type(t) => {
                    proof {
                        assert(decreases_to!(*self => self.args));
                        assert(decreases_to!(*self => self.args@[k as int]));
                    }
                    ArgSyntax::Type(Box::new(t.copied()))
                },
                ArgSyntax::Shape(d) => ArgSyntax::Shape(d.clone()),
            };
            args.push(a);
            k = k + 1;
        }
        TypeSyntax { span: self.span, name: self.name.clone(), args, range: self.range }
    }
}

/// A type parameter of a definition, with its trait bound.
pub struct ParamDef {
    pub name: String,
    pub bound: Option<String>,
}

/// A field of a record definition.
pub struct FieldDef {
    pub name: String,
    pub ty: TypeSyntax,
    pub has_default: bool,
}

/// A record definition.
pub struct RecordInfo {
    pub params: Vec<ParamDef>,
    pub fields: Vec<FieldDef>,
}

/// A variant of an enum definition: its name and the types of its fields.
pub struct VariantInfo {
    pub name: String,
    pub fields: Vec<TypeSyntax>,
}

/// An enum definition.
pub struct EnumInfo {
    pub span: Span,
    pub name: String,
    pub params: Vec<ParamDef>,
    pub variants: Vec<VariantInfo>,
}

/// A generic type alias: its parameters and the type it stands for.
pub struct AliasDef {
    pub params: Vec<ParamDef>,
    pub target: TypeSyntax,
}

/// A type alias: resolved at once when it takes no parameters.
pub enum AliasEntry {
    Mono(Type),
    Generic(AliasDef),
}

fn param_defs(ps: &Vec<crate::ast::TypeParam>) -> (r: Vec<ParamDef>)
    ensures
        r.len() == ps.len(),
{
    let mut out: Vec<ParamDef> = Vec::new();
    let mut k: usize = 0;
    while k < ps.len()
        invariant
            k <= ps.len(),
            out.len() == k,
        decreases ps.len() - k,
    {
        let p = &ps[k];
        let bound = match &p.bound {
            Some(b) => Some(b.node.clone()),
            None => None,
        };
        out.push(ParamDef { name: p.name.node.clone(), bound });
        k = k + 1;
    }
    out
}

fn copy_params(ps: &Vec<ParamDef>) -> (r: Vec<ParamDef>)
    ensures
        r.len() == ps.len(),
{
    let mut out: Vec<ParamDef> = Vec::new();
    let mut k: usize = 0;
    while k < ps.len()
        invariant
            k <= ps.len(),
            out.len() == k,
        decreases ps.len() - k,
    {
        let bound = match &ps[k].bound {
            Some(b) => Some(b.clone()),
            None => None,
        };
        out.push(ParamDef { name: ps[k].name.clone(), bound });
        k = k + 1;
    }
    out
}

// ---------------------------------------------------------------------------
// The checker
// ---------------------------------------------------------------------------

/// The semantic pass: the definitions of a program, nested value scopes
/// with their mutability and ownership states, and the capability graph.
pub struct Checker {
    type_aliases: Vec<(String, AliasEntry)>,
    traits: Vec<String>,
    record_defs: Vec<(String, RecordInfo)>,
    enum_defs: Vec<(String, EnumInfo)>,
    functions: Vec<(String, FnSig)>,
    extern_cells: Vec<(String, bool)>,
    scopes: Vec<Vec<(String, Type)>>,
    mut_scopes: Vec<Vec<String>>,
    ownership_states: Vec<Vec<(String, OwnershipState)>>,
    defer_range_proofs: bool,
    cap: CapabilityGraph,
    cap_next: u32,
    verifier: Verifier<DummySolver>,
    unsafe_depth: u32,
    async_lambda_bases: Vec<usize>,
}

/// The variants of an enum: their names and numbers of fields.
pub open spec fn variants_shape(vs: Seq<VariantInfo>) -> Seq<(Seq<char>, nat)> {
    vs.map_values(|v: VariantInfo| (v.name@, v.fields.len() as nat))
}

impl Checker {
    /// The scope stacks agree and are not empty, and the capability graph is
    /// consistent.
    pub closed spec fn wf(&self) -> bool {
        &&& self.scopes.len() >= 1
        &&& self.mut_scopes.len() == self.scopes.len()
        &&& self.ownership_states.len() == self.scopes.len()
        &&& self.cap.wf()
    }

    /// The number of open scopes.
    pub closed spec fn depth(&self) -> nat {
        self.scopes.len() as nat
    }

    /// The known functions, in the order they were entered.
    pub closed spec fn functions_model(&self) -> Seq<(Seq<char>, SigModel)> {
        self.functions@.map_values(|e: (String, FnSig)| (e.0@, e.1@))
    }

    /// The known enums: for each, its variants' names and field counts.
    pub closed spec fn enums_model(&self) -> Seq<(Seq<char>, Seq<(Seq<char>, nat)>)> {
        self.enum_defs@.map_values(|e: (String, EnumInfo)| (e.0@, variants_shape(e.1.variants@)))
    }

    /// Whether range facts about non-literals are left to a later proof.
    pub closed spec fn defers_range_proofs(&self) -> bool {
        self.defer_range_proofs
    }

    /// Whether no async lambda body is being checked.
    pub closed spec fn outside_async_lambda(&self) -> bool {
        self.async_lambda_bases.len() == 0
    }

    /// A checker that knows the built-in functions and nothing else.
    pub fn new() -> (r: Self)
        ensures
            r.wf(),
            r.depth() == 1,
            r.functions_model() == builtin_signatures(),
            r.enums_model().len() == 0,
            !r.defers_range_proofs(),
            r.outside_async_lambda(),
            forall|n: Seq<char>| #[trigger] r.binding(n) is None,
    {
        let functions: Vec<(String, FnSig)> = vec![
            (String::from_str("io.println"), sig1(param("text", Type::String), Type::Unit)),
            (String::from_str("io.load_tensor"), sig1(param("path", Type::String), Type::tensor_unknown())),
            (String::from_str("io.display"), sig1(param("t", Type::tensor_unknown()), Type::Unit)),
            (String::from_str("io.read_line"), sig1(param("prompt", Type::String), Type::String)),
            (String::from_str("io.read_text"), sig1(param("path", Type::String), Type::String)),
            (String::from_str("io.write_text"), sig2(param("path", Type::String), param("text", Type::String), Type::Unit)),
            (String::from_str("ui.event_text"), sig0(Type::String)),
            (String::from_str("ui.get_text"), sig1(param("key", Type::String), Type::String)),
            (String::from_str("ui.set_text"), sig2(param("key", Type::String), param("value", Type::String), Type::Unit)),
            (String::from_str("shop.path"), sig0(Type::String)),
            (String::from_str("shop.select"), sig1(param("index", Type::U32), Type::Unit)),
            (String::from_str("shop.selection_status"), sig0(Type::String)),
            (String::from_str("shop.clear_selection"), sig0(Type::Unit)),
            (String::from_str("shop.has_selection"), sig0(Type::Bool)),
            (String::from_str("shop.selected_index"), sig0(Type::U32)),
            (String::from_str("shop.status"), sig0(Type::String)),
            (String::from_str("shop.is_pending"), sig0(Type::Bool)),
            (String::from_str("shop.cancel"), sig0(Type::Unit)),
            (String::from_str("shop.begin_add"), sig0(Type::Unit)),
            (String::from_str("shop.begin_edit"), sig1(param("index", Type::U32), Type::Unit)),
            (String::from_str("shop.load"), sig1(param("path", Type::String), Type::Unit)),
            (String::from_str("shop.save"), sig1(param("path", Type::String), Type::Unit)),
            (String::from_str("shop.count"), sig0(Type::U32)),
            (String::from_str("shop.upsert"), sig3(param("name", Type::String), param("qty", Type::String), param("notes", Type::String), Type::Unit)),
            (String::from_str("shop.get_name"), sig1(param("index", Type::U32), Type::String)),
            (String::from_str("shop.get_qty"), sig1(param("index", Type::U32), Type::String)),
            (String::from_str("shop.get_notes"), sig1(param("index", Type::U32), Type::String)),
            (String::from_str("shop.get_done"), sig1(param("index", Type::U32), Type::Bool)),
            (String::from_str("shop.add"), sig3(param("name", Type::String), param("qty", Type::String), param("notes", Type::String), Type::Unit)),
            (String::from_str("shop.edit"), sig4(param("index", Type::U32), param("name", Type::String), param("qty", Type::String), param("notes", Type::String), Type::Unit)),
            (String::from_str("shop.remove"), sig1(param("index", Type::U32), Type::Unit)),
            (String::from_str("shop.toggle"), sig1(param("index", Type::U32), Type::Unit)),
            (String::from_str("shop.clear"), sig0(Type::Unit)),
            (String::from_str("shop.clear_completed"), sig0(Type::Unit)),
            (String::from_str("tensor.new"), sig1(param("len", Type::U32), Type::tensor_unknown())),
            (String::from_str("tensor.len"), sig1(param("t", Type::tensor_unknown()), Type::U32)),
            (String::from_str("tensor.get"), sig2(param("t", Type::tensor_unknown()), param("idx", Type::U32), Type::U32)),
            (String::from_str("tensor.set"), sig3(param("t", Type::tensor_unknown()), param("idx", Type::U32), param("value", Type::U32), Type::Unit)),
            (String::from_str("collections.vector_new"), sig1(param("len", Type::U32), Type::tensor_unknown())),
            (String::from_str("collections.vector_len"), sig1(param("v", Type::tensor_unknown()), Type::U32)),
            (String::from_str("collections.vector_get"), sig2(param("v", Type::tensor_unknown()), param("idx", Type::U32), Type::U32)),
            (String::from_str("collections.vector_set"), sig3(param("v", Type::tensor_unknown()), param("idx", Type::U32), param("value", Type::U32), Type::Unit)),
            (String::from_str("ai.load_model"), sig1(param("path", Type::String), Type::Model)),
            (String::from_str("ai.infer"), sig2(param("model", Type::Model), param("input", Type::tensor_unknown()), Type::tensor_unknown())),
            (String::from_str("compute_gradient"), sig1(param("x", Type::U32), Type::tensor_unknown())),
        ];
        let r = Checker {
            type_aliases: Vec::new(),
            traits: Vec::new(),
            record_defs: Vec::new(),
            enum_defs: Vec::new(),
            functions,
            extern_cells: Vec::new(),
            scopes: vec![Vec::new()],
            mut_scopes: vec![Vec::new()],
            ownership_states: vec![Vec::new()],
            defer_range_proofs: false,
            cap: CapabilityGraph::new(),
            cap_next: 0,
            verifier: Verifier::new(DummySolver),
            unsafe_depth: 0,
            async_lambda_bases: Vec::new(),
        };
        assert(r.functions_model() =~= builtin_signatures());
        assert(r.enums_model() =~= seq![]);
        proof {
            let sv = scopes_view(r.scopes@);
            assert(sv.last() =~= Seq::<(Seq<char>, TypeModel)>::empty());
            assert(sv.drop_last() =~= Seq::<Seq<(Seq<char>, TypeModel)>>::empty());
            assert forall|n: Seq<char>| #[trigger] r.binding(n) is None by {
                assert(latest(sv.last(), n) is None);
                assert(binding_in(sv.drop_last(), n) is None);
            }
        }
        r
    }
}


/// `a`, `b` and `c` one after the other.
fn text3(a: &str, b: &str, c: &str) -> (r: String)
    ensures
        r@ == a@ + b@ + c@,
{
    let mut s = String::from_str(a);
    s.append(b);
    s.append(c);
    s
}

/// `a`, `b`, `c`, `d` and `e` one after the other.
fn text5(a: &str, b: &str, c: &str, d: &str, e: &str) -> (r: String)
    ensures
        r@ == a@ + b@ + c@ + d@ + e@,
{
    let mut s = text3(a, b, c);
    s.append(d);
    s.append(e);
    s
}

fn err(message: String, span: Span) -> (r: SemanticError)
    ensures
        r.message@ == message@,
        r.span == span,
{
    SemanticError { message, span }
}

/// A type without its range constraints (`base_type`).
pub fn base_type(ty: &Type) -> (r: &Type)
    ensures
        r@ == crate::sema::base_model(ty@),
    decreases ty,
{
    match ty {
        Type::ConstrainedRange { base, .. } => base_type(base),
        other => other,
    }
}

/// The names of nominal types whose values are unique resources.
pub open spec fn linear_nominal(name: Seq<char>) -> bool {
    name == "Region"@ || name == "Socket"@ || name == "File"@ || name == "Stream"@ || name == "Vector"@
        || name == "HashMap"@ || name == "collections.Vector"@ || name == "collections.HashMap"@
}

fn is_linear_nominal_name(name: &str) -> (r: bool)
    ensures
        r == linear_nominal(name@),
{
    str_eq(name, "Region") || str_eq(name, "Socket") || str_eq(name, "File") || str_eq(name, "Stream")
        || str_eq(name, "Vector") || str_eq(name, "HashMap") || str_eq(name, "collections.Vector")
        || str_eq(name, "collections.HashMap")
}

/// The prefix of the names given to imported modules.
pub open spec fn module_prefix() -> Seq<char> {
    "<module:"@
}

fn starts_with_module(n: &str) -> (r: bool)
    ensures
        r == (n@.len() >= module_prefix().len() && n@.subrange(0, module_prefix().len() as int) == module_prefix()),
{
    let s = crate::text::chars_of(n);
    let p = crate::text::chars_of("<module:");
    if p.len() > s.len() {
        return false;
    }
    let r = crate::text::matches_at(&s, &p, 0);
    assert(r ==> s@.subrange(0, p@.len() as int) =~= p@);
    assert(s@.subrange(0, p@.len() as int) == p@ ==> crate::text::occurs_at(s@, p@, 0)) by {
        if s@.subrange(0, p@.len() as int) == p@ {
            assert forall|k: int| 0 <= k < p@.len() implies s@[k] == p@[k] by {
                assert(s@.subrange(0, p@.len() as int)[k] == s@[k]);
            }
        }
    }
    r
}

/// Whether values of a type are unique resources that a use moves: tensors,
/// models, styles and the linear nominal types, but not module names.
pub open spec fn non_copy(t: TypeModel) -> bool {
    match crate::sema::base_model(t) {
        TypeModel::Tensor { .. } | TypeModel::Model | TypeModel::Style => true,
        TypeModel::Named(n) => !(n.len() >= module_prefix().len() && n.subrange(0, module_prefix().len() as int)
            == module_prefix()) && linear_nominal(n),
        TypeModel::Applied { name, .. } => linear_nominal(name),
        _ => false,
    }
}

fn is_non_copy_type(ty: &Type) -> (r: bool)
    ensures
        r == non_copy(ty@),
{
    match base_type(ty) {
        Type::Named(n) => {
            if starts_with_module(n.as_str()) {
                false
            } else {
                is_linear_nominal_name(n.as_str())
            }
        },
        Type::Tensor { .. } | Type::Model | Type::Style => true,
        Type::Applied { name, .. } => is_linear_nominal_name(name.as_str()),
        _ => false,
    }
}

/// The ownership state of `name`: the innermost scope that tracks it
/// decides; an untracked name is owned.
pub open spec fn ownership_in(states: Seq<Seq<(Seq<char>, OwnershipState)>>, name: Seq<char>) -> OwnershipState
    decreases states.len(),
{
    if states.len() == 0 {
        OwnershipState::Owned
    } else {
        match latest(states.last(), name) {
            Some(s) => s,
            None => ownership_in(states.drop_last(), name),
        }
    }
}

/// The views of ownership scopes.
pub open spec fn states_view(v: Seq<Vec<(String, OwnershipState)>>) -> Seq<Seq<(Seq<char>, OwnershipState)>> {
    v.map_values(|sc: Vec<(String, OwnershipState)>| sc@.map_values(|e: (String, OwnershipState)| (e.0@, e.1)))
}

/// The message for a second move of a value.
pub open spec fn moved_twice_message(name: Seq<char>) -> Seq<char> {
    "value '"@ + name + "' used after move (was consumed by previous use)"@
}

/// The message for a use of a moved value.
pub open spec fn used_after_move_message(name: Seq<char>) -> Seq<char> {
    "value '"@ + name + "' used after move"@
}

/// The message for a use of a value that was handed back.
pub open spec fn used_after_return_message(name: Seq<char>) -> Seq<char> {
    "value '"@ + name + "' used after return"@
}

impl Checker {
    /// The ownership state of `name`.
    pub closed spec fn ownership(&self, name: Seq<char>) -> OwnershipState {
        ownership_in(states_view(self.ownership_states@), name)
    }

    pub(crate) fn is_void_function(&self, name: &str) -> (r: bool)
        ensures
            r == (latest(self.functions_model(), name@) matches Some(sig) && crate::sema::base_model(sig.ret)
                is Unit),
    {
        match find_last(&self.functions, name) {
            Some(i) => {
                proof {
                    lemma_latest_at(self.functions_model(), name@, i as int);
                }
                matches!(base_type(&self.functions[i].1.ret), Type::Unit)
            },
            None => {
                proof {
                    lemma_latest_none(self.functions_model(), name@);
                }
                false
            },
        }
    }

    pub(crate) fn function_ret_type(&self, name: &str) -> (r: Option<&Type>)
        ensures
            match latest(self.functions_model(), name@) {
                Some(sig) => r matches Some(t) && t@ == sig.ret,
                None => r is None,
            },
    {
        match find_last(&self.functions, name) {
            Some(i) => {
                proof {
                    lemma_latest_at(self.functions_model(), name@, i as int);
                }
                Some(&self.functions[i].1.ret)
            },
            None => {
                proof {
                    lemma_latest_none(self.functions_model(), name@);
                }
                None
            },
        }
    }

    /// The parameter names of a known function, in order.
    pub fn function_param_names(&self, name: &str) -> (r: Option<Vec<String>>)
        ensures
            match latest(self.functions_model(), name@) {
                Some(sig) => r matches Some(v) && v@.map_values(|s: String| s@) == param_names(sig),
                None => r is None,
            },
    {
        match find_last(&self.functions, name) {
            Some(i) => {
                proof {
                    lemma_latest_at(self.functions_model(), name@, i as int);
                }
                let sig = &self.functions[i].1;
                let mut out: Vec<String> = Vec::new();
                let mut k: usize = 0;
                while k < sig.params.len()
                    invariant
                        k <= sig.params.len(),
                        out@.len() == k,
                        forall|j: int| 0 <= j < k ==> (#[trigger] out@[j])@ == sig.params@[j].name@,
                    decreases sig.params.len() - k,
                {
                    out.push(sig.params[k].name.clone());
                    k = k + 1;
                }
                assert(out@.map_values(|s: String| s@) =~= param_names(sig@));
                Some(out)
            },
            None => {
                proof {
                    lemma_latest_none(self.functions_model(), name@);
                }
                None
            },
        }
    }

    /// Leaves range facts about non-literals to a later proof (or not).
    pub fn set_defer_range_proofs(&mut self, defer: bool)
        ensures
            final(self).defers_range_proofs() == defer,
            final(self).wf() == old(self).wf(),
            final(self).depth() == old(self).depth(),
            final(self).functions_model() == old(self).functions_model(),
            final(self).enums_model() == old(self).enums_model(),
    {
        self.defer_range_proofs = defer;
    }

    /// The position of `variant` among the variants of the enum `ty_name`,
    /// and its number of fields.
    pub fn enum_variant_info(&self, ty_name: &str, variant: &str) -> (r: Option<(u32, usize)>)
        ensures
            match latest(self.enums_model(), ty_name@) {
                Some(vs) => match first_named(vs, variant@) {
                    Some(i) => r == Some((i as u32, vs[i].1 as usize)),
                    None => r is None,
                },
                None => r is None,
            },
    {
        let i = match find_last(&self.enum_defs, ty_name) {
            Some(i) => i,
            None => {
                proof {
                    lemma_latest_none(self.enums_model(), ty_name@);
                }
                return None;
            },
        };
        proof {
            lemma_latest_at(self.enums_model(), ty_name@, i as int);
        }
        let vs = &self.enum_defs[i].1.variants;
        let ghost shape = variants_shape(vs@);
        assert(self.enums_model()[i as int].1 == shape);
        let mut k: usize = 0;
        while k < vs.len()
            invariant
                k <= vs.len(),
                shape == variants_shape(vs@),
                latest(self.enums_model(), ty_name@) == Some(shape),
                forall|j: int| 0 <= j < k ==> (#[trigger] vs@[j]).name@ != variant@,
            decreases vs.len() - k,
        {
            if str_eq(vs[k].name.as_str(), variant) {
                proof {
                    lemma_first_named_at(shape, variant@, k as int);
                    assert(shape[k as int] == (vs@[k as int].name@, vs@[k as int].fields.len() as nat));
                }
                return Some((k as u32, vs[k].fields.len()));
            }
            k = k + 1;
        }
        proof {
            lemma_first_named_none(shape, variant@);
        }
        None
    }
}

/// The position of the first entry named `k`.
pub open spec fn first_named<V>(s: Seq<(Seq<char>, V)>, k: Seq<char>) -> Option<int>
    decreases s.len(),
{
    if s.len() == 0 {
        None
    } else if s[0].0 == k {
        Some(0)
    } else {
        match first_named(s.drop_first(), k) {
            Some(i) => Some(i + 1),
            None => None,
        }
    }
}

proof fn lemma_first_named_at<V>(s: Seq<(Seq<char>, V)>, k: Seq<char>, i: int)
    requires
        0 <= i < s.len(),
        s[i].0 == k,
        forall|j: int| 0 <= j < i ==> s[j].0 != k,
    ensures
        first_named(s, k) == Some(i),
    decreases s.len(),
{
    if i > 0 {
        lemma_first_named_at(s.drop_first(), k, i - 1);
    }
}

proof fn lemma_first_named_none<V>(s: Seq<(Seq<char>, V)>, k: Seq<char>)
    requires
        forall|j: int| 0 <= j < s.len() ==> s[j].0 != k,
    ensures
        first_named(s, k) is None,
    decreases s.len(),
{
    if s.len() > 0 {
        lemma_first_named_none(s.drop_first(), k);
    }
}


/// The views of value scopes.
pub open spec fn scopes_view(v: Seq<Vec<(String, Type)>>) -> Seq<Seq<(Seq<char>, TypeModel)>> {
    v.map_values(|sc: Vec<(String, Type)>| sc@.map_values(|e: (String, Type)| (e.0@, e.1@)))
}

/// The placeholder type name of an imported module or a defined type.
pub open spec fn module_type_name(name: Seq<char>) -> Seq<char> {
    "<module:"@ + name + ">"@
}

/// Whether a scope binds `name`.
pub open spec fn scope_binds(sc: Seq<(String, Type)>, name: Seq<char>) -> bool {
    exists|i: int| 0 <= i < sc.len() && (#[trigger] sc[i]).0@ == name
}

/// The type of `name` in the innermost scope that binds it.
pub open spec fn binding_in(scopes: Seq<Seq<(Seq<char>, TypeModel)>>, name: Seq<char>) -> Option<TypeModel>
    decreases scopes.len(),
{
    if scopes.len() == 0 {
        None
    } else {
        match latest(scopes.last(), name) {
            Some(t) => Some(t),
            None => binding_in(scopes.drop_last(), name),
        }
    }
}

/// What every step of the pass keeps: the checker stays consistent and
/// no function it knows is forgotten.
pub open spec fn keeps_functions(old: Seq<(Seq<char>, SigModel)>, new: Seq<(Seq<char>, SigModel)>) -> bool {
    old.len() <= new.len() && forall|i: int| 0 <= i < old.len() ==> (#[trigger] new[i]).0 == old[i].0
}

impl Checker {
    /// The type bound to `name`, innermost scope first.
    pub closed spec fn binding(&self, name: Seq<char>) -> Option<TypeModel> {
        binding_in(scopes_view(self.scopes@), name)
    }

    /// A step from `old` to `self` keeps the checker consistent and its
    /// functions.
    pub open spec fn kept(&self, old: &Checker) -> bool {
        &&& self.wf()
        &&& self.functions_model() == old.functions_model()
        &&& self.defers_range_proofs() == old.defers_range_proofs()
    }

    /// The type of a name that may be read: it is bound, it is not a
    /// non-copy value already moved or handed back, and its capability is
    /// alive.
    pub closed spec fn readable_type(&self, name: Seq<char>) -> Option<TypeModel> {
        match self.binding(name) {
            Some(t) => if !(non_copy(t) && (self.ownership(name) == OwnershipState::Consumed || self.ownership(name)
                == OwnershipState::Returned)) && crate::capability::alive_check(self.cap@, name) is Ok {
                Some(t)
            } else {
                None
            },
            None => None,
        }
    }

    /// The type of an expression built from literals and names, when it is
    /// well typed here: names read as `readable_type` says, literals and
    /// operators as `literal_expr_type` says.
    pub open spec fn term_type(&self, e: Expr) -> Option<TypeModel>
        decreases e,
    {
        match e.kind {
            ExprKind::Ident(id) => self.readable_type(id.node@),
            ExprKind::Unary { op, expr } => match self.term_type(*expr) {
                Some(t) => unary_type(op, t),
                None => None,
            },
            ExprKind::Binary { left, op, right } => match (self.term_type(*left), self.term_type(*right)) {
                (Some(lt), Some(rt)) => binary_type(op, lt, rt),
                _ => None,
            },
            _ => literal_expr_type(e),
        }
    }

    /// For a statement over an expression of literals and names (an
    /// expression statement, a `prop`, a `requires`, `ensures`, `assert` or
    /// `assume`): whether it checks here. The last four need a `bool`.
    pub open spec fn term_stmt(&self, s: Stmt) -> Option<bool> {
        match s {
            Stmt::ExprStmt(x) => if closed_term(x) { Some(self.term_type(x) is Some) } else { None },
            Stmt::Prop(p) => if closed_term(p.expr) { Some(self.term_type(p.expr) is Some) } else { None },
            Stmt::Requires(x) => if closed_term(x.expr) {
                Some(self.term_type(x.expr) == Some(TypeModel::Bool))
            } else {
                None
            },
            Stmt::Ensures(x) => if closed_term(x.expr) {
                Some(self.term_type(x.expr) == Some(TypeModel::Bool))
            } else {
                None
            },
            Stmt::Assert(x) => if closed_term(x.expr) {
                Some(self.term_type(x.expr) == Some(TypeModel::Bool))
            } else {
                None
            },
            Stmt::Assume(x) => if closed_term(x.expr) {
                Some(self.term_type(x.expr) == Some(TypeModel::Bool))
            } else {
                None
            },
            _ => None,
        }
    }

    /// The name of a non-copy value, moved already, that an expression
    /// statement made of that name alone uses.
    pub open spec fn moved_name_used(&self, s: Stmt) -> Option<Seq<char>> {
        match s {
            Stmt::ExprStmt(x) => match x.kind {
                ExprKind::Ident(id) => if self.binding(id.node@) matches Some(t) && non_copy(t) && self.ownership(
                    id.node@,
                ) == OwnershipState::Consumed {
                    Some(id.node@)
                } else {
                    None
                },
                _ => None,
            },
            _ => None,
        }
    }

    /// For a `val` in the fragment the checker decides here (no `where`, an
    /// expression of literals and names that is not a bare name, and no type
    /// or a built-in one): `None` when it is refused, else the type its name
    /// gets. A name bound already, an ill-typed expression, or a value that
    /// does not fit the written type is refused.
    pub open spec fn local_strand(&self, sd: crate::ast::StrandDef) -> Option<Option<TypeModel>> {
        if !(sd.where_clause is None && closed_term(sd.expr) && !(sd.expr.kind is Ident)) {
            None
        } else {
            match sd.ty {
                None => Some(
                    if self.binding(sd.name.node@) is Some {
                        None
                    } else {
                        self.term_type(sd.expr)
                    },
                ),
                Some(annot) => match written_scalar(annot) {
                    None => None,
                    Some(b) => Some(
                        if self.binding(sd.name.node@) is None && (self.term_type(sd.expr) matches Some(a)
                            && crate::sema::assign_error(self.defers_range_proofs(), b, a, sd.expr) is None) {
                            Some(b)
                        } else {
                            None
                        },
                    ),
                },
            }
        }
    }

    /// Where each name of `env` reads as `env` says, an expression of its
    /// names has the type `local_term_type` gives.
    pub proof fn lemma_local_term_type(&self, env: Seq<(Seq<char>, TypeModel)>, e: Expr)
        requires
            forall|n: Seq<char>| latest(env, n) is Some ==> #[trigger] self.readable_type(n) == latest(env, n),
            names_local(env, e),
        ensures
            closed_term(e),
            self.term_type(e) == local_term_type(env, e),
        decreases e,
    {
        match e.kind {
            ExprKind::Unary { expr, .. } => {
                self.lemma_local_term_type(env, *expr);
            },
            ExprKind::Binary { left, right, .. } => {
                self.lemma_local_term_type(env, *left);
                self.lemma_local_term_type(env, *right);
            },
            ExprKind::Ident(id) => {
                assert(self.readable_type(id.node@) == latest(env, id.node@));
            },
            _ => {},
        }
    }

    /// No name that a `val` of block `b` binds is bound already.
    pub open spec fn names_free(&self, b: Block) -> bool {
        forall|k: int|
            0 <= k < b.stmts.len() ==> ((#[trigger] strand_name(b.stmts@[k])) matches Some(n) ==> self.binding(n) is None)
    }

    /// The names a cell's body binds are free, when `s` is a cell.
    pub open spec fn names_free_at_top(&self, s: Stmt) -> bool {
        s matches Stmt::CellDef(c) ==> self.names_free(c.body)
    }

    /// A step from `old` to `self` keeps the checker consistent and may add
    /// functions or change their signatures, but forgets none.
    pub open spec fn grown(&self, old: &Checker) -> bool {
        &&& self.wf()
        &&& keeps_functions(old.functions_model(), self.functions_model())
        &&& self.defers_range_proofs() == old.defers_range_proofs()
    }

    fn push_scope(&mut self)
        requires
            old(self).wf(),
        ensures
            final(self).kept(old(self)),
            final(self).depth() == old(self).depth() + 1,
            final(self).scopes@.drop_last() == old(self).scopes@,
            final(self).scopes@.last()@.len() == 0,
            forall|n: Seq<char>| #[trigger] final(self).binding(n) == old(self).binding(n),
            forall|n: Seq<char>| #[trigger] final(self).readable_type(n) == old(self).readable_type(n),
            final(self).async_lambda_bases == old(self).async_lambda_bases,
            states_view(final(self).ownership_states@).last().len() == 0,
    {
        self.scopes.push(Vec::new());
        self.mut_scopes.push(Vec::new());
        self.ownership_states.push(Vec::new());
        proof {
            let sv = scopes_view(self.scopes@);
            assert(sv.drop_last() =~= scopes_view(old(self).scopes@));
            assert(sv.last() =~= Seq::<(Seq<char>, TypeModel)>::empty());
            assert forall|n: Seq<char>| #[trigger] self.binding(n) == old(self).binding(n) by {
                assert(latest(sv.last(), n) is None);
            }
            let ov = states_view(self.ownership_states@);
            assert(ov.drop_last() =~= states_view(old(self).ownership_states@));
            assert(ov.last() =~= Seq::<(Seq<char>, OwnershipState)>::empty());
            assert forall|n: Seq<char>| #[trigger] self.readable_type(n) == old(self).readable_type(n) by {
                assert(latest(sv.last(), n) is None);
                assert(latest(ov.last(), n) is None);
            }
        }
    }

    fn pop_scope(&mut self)
        requires
            old(self).wf(),
            old(self).depth() >= 2,
        ensures
            final(self).kept(old(self)),
            final(self).depth() == old(self).depth() - 1,
            final(self).scopes@ == old(self).scopes@.drop_last(),
            final(self).async_lambda_bases == old(self).async_lambda_bases,
    {
        let _ = self.scopes.pop();
        let _ = self.mut_scopes.pop();
        let _ = self.ownership_states.pop();
    }

    fn fresh_cap(&mut self, span: Span) -> (r: CapabilityId)
        requires
            old(self).wf(),
        ensures
            final(self).kept(old(self)),
            final(self).depth() == old(self).depth(),
            final(self).ownership_states == old(self).ownership_states,
            final(self).scopes == old(self).scopes,
            final(self).mut_scopes == old(self).mut_scopes,
            final(self).cap == old(self).cap,
            final(self).async_lambda_bases == old(self).async_lambda_bases,
    {
        let id = self.cap_next;
        self.cap_next = self.cap_next.wrapping_add(1);
        id
    }

    /// Binds `name` in the innermost scope: owned, with a fresh root
    /// capability; refused when that scope binds it already.
    fn define_val(&mut self, name: &Ident, ty: Type, mutable: bool) -> (r: Result<(), SemanticError>)
        requires
            old(self).wf(),
        ensures
            final(self).kept(old(self)),
            final(self).depth() == old(self).depth(),
            r is Ok <==> latest(scopes_view(old(self).scopes@).last(), name.node@) is None,
            r is Ok ==> final(self).binding(name.node@) == Some(ty@),
            final(self).scopes@.len() == old(self).scopes@.len(),
            final(self).scopes@.drop_last() == old(self).scopes@.drop_last(),
            forall|n: Seq<char>| n != name.node@ ==> #[trigger] final(self).binding(n) == old(self).binding(n),
            r is Ok ==> final(self).readable_type(name.node@) == Some(ty@),
            r is Ok ==> scopes_view(final(self).scopes@).last() == scopes_view(old(self).scopes@).last().push(
                (name.node@, ty@),
            ),
            r is Ok ==> forall|n: Seq<char>|
                n != name.node@ && old(self).readable_type(n) is Some ==> #[trigger] final(self).readable_type(n)
                    == old(self).readable_type(n),
            final(self).async_lambda_bases == old(self).async_lambda_bases,
    {
        let n = self.scopes.len();
        let ghost sv = scopes_view(self.scopes@);
        assert(sv.last() == self.scopes@[n - 1]@.map_values(|e: (String, Type)| (e.0@, e.1@)));
        match find_last(&self.scopes[n - 1], name.node.as_str()) {
            Some(i) => {
                proof {
                    lemma_latest_at(sv.last(), name.node@, i as int);
                }
                return Err(err(text3("val '", name.node.as_str(), "' already defined in this scope"), name.span));
            },
            None => {
                proof {
                    lemma_latest_none(sv.last(), name.node@);
                }
            },
        }
        let mut top = self.scopes.pop().unwrap();
        top.push((name.node.clone(), ty));
        self.scopes.push(top);
        proof {
            let nv = scopes_view(self.scopes@);
            assert(nv.last() == self.scopes@[n - 1]@.map_values(|e: (String, Type)| (e.0@, e.1@)));
            lemma_latest_at(nv.last(), name.node@, nv.last().len() - 1);
            assert(self.scopes@.drop_last() =~= old(self).scopes@.drop_last());
            assert(nv.drop_last() =~= sv.drop_last());
            assert(nv.last() =~= sv.last().push((name.node@, ty@)));
            assert forall|m: Seq<char>| m != name.node@ implies #[trigger] binding_in(nv, m) == binding_in(sv, m) by {
                assert(nv.last().drop_last() =~= sv.last());
                assert(latest(nv.last(), m) == latest(sv.last(), m));
            }
        }
        if mutable {
            let mut m = self.mut_scopes.pop().unwrap();
            m.push(name.node.clone());
            self.mut_scopes.push(m);
        }
        let ghost ov = states_view(old(self).ownership_states@);
        let no = self.ownership_states.len();
        let mut own = self.ownership_states.pop().unwrap();
        own.push((name.node.clone(), OwnershipState::Owned));
        self.ownership_states.push(own);
        proof {
            let nv = states_view(self.ownership_states@);
            assert(nv.drop_last() =~= ov.drop_last());
            assert(nv.last() =~= ov.last().push((name.node@, OwnershipState::Owned)));
            assert(nv.last().drop_last() =~= ov.last());
            assert(ownership_in(nv, name.node@) == OwnershipState::Owned);
            assert forall|m: Seq<char>| m != name.node@ implies #[trigger] ownership_in(nv, m) == ownership_in(ov, m) by {
                assert(latest(nv.last(), m) == latest(ov.last(), m));
            }
        }
        let ghost g0 = self.cap@;
        let cap_id = self.fresh_cap(name.span);
        self.cap.alloc_root(cap_id, name.node.as_str());
        proof {
            crate::capability::lemma_with_root_alive(g0, cap_id, name.node@, name.node@);
            assert forall|m: Seq<char>|
                m != name.node@ && old(self).readable_type(m) is Some implies #[trigger] self.readable_type(m)
                    == old(self).readable_type(m) by {
                crate::capability::lemma_with_root_alive(g0, cap_id, name.node@, m);
            }
        }
        Ok(())
    }

    /// The type bound to `name`, innermost scope first (`lookup_val`).
    fn lookup_val(&self, name: &str) -> (r: Option<Type>)
        ensures
            match self.binding(name@) {
                Some(t) => r matches Some(u) && u@ == t,
                None => r is None,
            },
    {
        let ghost sv = scopes_view(self.scopes@);
        let mut k: usize = self.scopes.len();
        assert(sv.subrange(0, k as int) =~= sv);
        while k > 0
            invariant
                k <= self.scopes.len(),
                sv == scopes_view(self.scopes@),
                binding_in(sv, name@) == binding_in(sv.subrange(0, k as int), name@),
            decreases k,
        {
            let ghost pre = sv.subrange(0, k as int);
            assert(pre.last() == self.scopes@[k - 1]@.map_values(|e: (String, Type)| (e.0@, e.1@)));
            assert(pre.drop_last() =~= sv.subrange(0, k - 1));
            match find_last(&self.scopes[k - 1], name) {
                Some(i) => {
                    proof {
                        lemma_latest_at(pre.last(), name@, i as int);
                    }
                    return Some(self.scopes[k - 1][i].1.copied());
                },
                None => {
                    proof {
                        lemma_latest_none(pre.last(), name@);
                    }
                },
            }
            k = k - 1;
        }
        None
    }

    /// The innermost scope that binds `name` (`lookup_scope_index`).
    fn lookup_scope_index(&self, name: &str) -> (r: Option<usize>)
        ensures
            match r {
                Some(i) => i < self.scopes.len() && scope_binds(self.scopes@[i as int]@, name@) && forall|j: int|
                    i < j < self.scopes.len() ==> !scope_binds(#[trigger] self.scopes@[j]@, name@),
                None => forall|j: int| 0 <= j < self.scopes.len() ==> !scope_binds(#[trigger] self.scopes@[j]@, name@),
            },
    {
        let mut k: usize = self.scopes.len();
        while k > 0
            invariant
                k <= self.scopes.len(),
                forall|j: int| k <= j < self.scopes.len() ==> !scope_binds(#[trigger] self.scopes@[j]@, name@),
            decreases k,
        {
            if find_last(&self.scopes[k - 1], name).is_some() {
                return Some(k - 1);
            }
            k = k - 1;
        }
        None
    }

    /// Whether some scope marks `name` mutable.
    fn is_mutable(&self, name: &str) -> (r: bool)
        ensures
            r == exists|i: int, j: int|
                0 <= i < self.mut_scopes.len() && 0 <= j < self.mut_scopes@[i]@.len() && (
                #[trigger] self.mut_scopes@[i]@[j])@ == name@,
    {
        let mut k: usize = self.mut_scopes.len();
        while k > 0
            invariant
                k <= self.mut_scopes.len(),
                forall|i: int, j: int|
                    k <= i < self.mut_scopes.len() && 0 <= j < self.mut_scopes@[i]@.len() ==> (
                    #[trigger] self.mut_scopes@[i]@[j])@ != name@,
            decreases k,
        {
            let sc = &self.mut_scopes[k - 1];
            let mut j: usize = 0;
            while j < sc.len()
                invariant
                    0 < k <= self.mut_scopes.len(),
                    *sc == self.mut_scopes@[k - 1],
                    j <= sc.len(),
                    forall|t: int| 0 <= t < j ==> (#[trigger] sc@[t])@ != name@,
                decreases sc.len() - j,
            {
                if str_eq(sc[j].as_str(), name) {
                    assert(self.mut_scopes@[k - 1]@[j as int]@ == name@);
                    return true;
                }
                j = j + 1;
            }
            k = k - 1;
        }
        false
    }

    /// Refuses a use, inside an async lambda, of a mutable binding of a
    /// scope outside it.
    fn check_async_capture(&self, name: &str, span: Span) -> (r: Result<(), SemanticError>)
        ensures
            self.async_lambda_bases.len() == 0 ==> r is Ok,
            r matches Err(e) ==> e.message@ == "async lambda cannot capture mutable binding '"@ + name@
                + "' (would be a data race)"@ && e.span == span,
    {
        let n = self.async_lambda_bases.len();
        if n == 0 {
            return Ok(());
        }
        let base = self.async_lambda_bases[n - 1];
        let def_idx = match self.lookup_scope_index(name) {
            Some(i) => i,
            None => return Ok(()),
        };
        if def_idx < base && def_idx < self.mut_scopes.len() {
            let sc = &self.mut_scopes[def_idx];
            let mut j: usize = 0;
            while j < sc.len()
                invariant
                    self.async_lambda_bases.len() > 0,
                decreases sc.len() - j,
            {
                if str_eq(sc[j].as_str(), name) {
                    return Err(
                        err(text3("async lambda cannot capture mutable binding '", name, "' (would be a data race)"), span),
                    );
                }
                j = j + 1;
            }
        }
        Ok(())
    }

    /// The ownership state of `name`, innermost scope first; owned when no
    /// scope tracks it.
    fn get_ownership(&self, name: &str) -> (r: OwnershipState)
        ensures
            r == self.ownership(name@),
    {
        let ghost sv = states_view(self.ownership_states@);
        let mut k: usize = self.ownership_states.len();
        assert(sv.subrange(0, k as int) =~= sv);
        while k > 0
            invariant
                k <= self.ownership_states.len(),
                sv == states_view(self.ownership_states@),
                ownership_in(sv, name@) == ownership_in(sv.subrange(0, k as int), name@),
            decreases k,
        {
            let ghost pre = sv.subrange(0, k as int);
            assert(pre.last() == self.ownership_states@[k - 1]@.map_values(
                |e: (String, OwnershipState)| (e.0@, e.1),
            ));
            assert(pre.drop_last() =~= sv.subrange(0, k - 1));
            match find_last(&self.ownership_states[k - 1], name) {
                Some(i) => {
                    proof {
                        lemma_latest_at(pre.last(), name@, i as int);
                    }
                    return self.ownership_states[k - 1][i].1;
                },
                None => {
                    proof {
                        lemma_latest_none(pre.last(), name@);
                    }
                },
            }
            k = k - 1;
        }
        OwnershipState::Owned
    }

    /// Sets the ownership state of `name` in the innermost scope.
    fn set_ownership(&mut self, name: &str, state: OwnershipState)
        requires
            old(self).wf(),
        ensures
            final(self).kept(old(self)),
            final(self).depth() == old(self).depth(),
            final(self).ownership(name@) == state,
            final(self).scopes == old(self).scopes,
            final(self).cap == old(self).cap,
    {
        let n = self.ownership_states.len();
        let mut own = self.ownership_states.pop().unwrap();
        own.push((String::from_str(name), state));
        self.ownership_states.push(own);
        proof {
            let sv = states_view(self.ownership_states@);
            assert(sv.last() == self.ownership_states@[n - 1]@.map_values(
                |e: (String, OwnershipState)| (e.0@, e.1),
            ));
            lemma_latest_at(sv.last(), name@, sv.last().len() - 1);
        }
    }

    /// Records that `name` was moved; refused when it was moved already.
    fn mark_consumed(&mut self, name: &str, span: Span) -> (r: Result<(), SemanticError>)
        requires
            old(self).wf(),
        ensures
            final(self).kept(old(self)),
            final(self).depth() == old(self).depth(),
            final(self).scopes == old(self).scopes,
            final(self).cap == old(self).cap,
            match r {
                Ok(()) => old(self).ownership(name@) != OwnershipState::Consumed && final(self).ownership(name@)
                    == OwnershipState::Consumed,
                Err(e) => old(self).ownership(name@) == OwnershipState::Consumed && e.message@
                    == moved_twice_message(name@) && e.span == span,
            },
    {
        if self.get_ownership(name) == OwnershipState::Consumed {
            return Err(err(text3("value '", name, "' used after move (was consumed by previous use)"), span));
        }
        self.set_ownership(name, OwnershipState::Consumed);
        Ok(())
    }

    /// Refuses a use of a value that was moved or handed back.
    fn check_not_consumed(&self, name: &str, span: Span) -> (r: Result<(), SemanticError>)
        ensures
            match self.ownership(name@) {
                OwnershipState::Consumed => r matches Err(e) && e.message@ == used_after_move_message(name@)
                    && e.span == span,
                OwnershipState::Returned => r matches Err(e) && e.message@ == used_after_return_message(name@)
                    && e.span == span,
                _ => r is Ok,
            },
    {
        let current = self.get_ownership(name);
        if current == OwnershipState::Consumed {
            return Err(err(text3("value '", name, "' used after move"), span));
        }
        if current == OwnershipState::Returned {
            return Err(err(text3("value '", name, "' used after return"), span));
        }
        Ok(())
    }

    /// A use of `name`, of type `ty`: refused for a non-copy value that was
    /// moved or handed back.
    fn enforce_linear_use(&self, name: &str, ty: &Type, span: Span) -> (r: Result<(), SemanticError>)
        ensures
            r is Err <==> non_copy(ty@) && (self.ownership(name@) == OwnershipState::Consumed
                || self.ownership(name@) == OwnershipState::Returned),
            (non_copy(ty@) && self.ownership(name@) == OwnershipState::Consumed) ==> (r matches Err(e) && e.message@
                == used_after_move_message(name@) && e.span == span),
    {
        if !is_non_copy_type(ty) {
            return Ok(());
        }
        self.check_not_consumed(name, span)
    }

    /// Moves the value `value_name`: a non-copy value may be moved once;
    /// its capability is consumed.
    fn consume_move_from_value(&mut self, value_name: &str, span: Span) -> (r: Result<(), SemanticError>)
        requires
            old(self).wf(),
        ensures
            final(self).kept(old(self)),
            final(self).depth() == old(self).depth(),
            r is Ok ==> match old(self).binding(value_name@) {
                Some(t) => old(self).ownership(value_name@) != OwnershipState::Consumed && old(self).ownership(
                    value_name@,
                ) != OwnershipState::Returned && (non_copy(t) ==> final(self).ownership(value_name@)
                    == OwnershipState::Consumed),
                None => true,
            },
            ({
                let alive = crate::capability::alive_check(old(self).cap@, value_name@);
                let st = old(self).ownership(value_name@);
                if old(self).binding(value_name@) is Some && st == OwnershipState::Consumed {
                    r matches Err(e) && e.message@ == used_after_move_message(value_name@) && e.span == span
                } else if old(self).binding(value_name@) is Some && st == OwnershipState::Returned {
                    r matches Err(e) && e.message@ == used_after_return_message(value_name@) && e.span == span
                } else {
                    &&& (r is Ok <==> alive is Ok)
                    &&& alive matches Err(m) ==> (r matches Err(e) && e.message@ == m && e.span == span)
                }
            }),
    {
        let ghost before = self.ownership(value_name@);
        match self.lookup_val(value_name) {
            Some(ty) => {
                self.check_not_consumed(value_name, span)?;
                if is_non_copy_type(&ty) {
                    self.mark_consumed(value_name, span)?;
                }
            },
            None => {},
        }
        let ghost mid = self.ownership(value_name@);
        let from = self.cap.ensure_alive(value_name, span)?;
        let to = self.fresh_cap(span);
        self.cap.consume_move(from, to, span);
        assert(self.ownership(value_name@) == mid);
        Ok(())
    }

    /// Binds an imported module's name (or a defined type's name) to a
    /// placeholder type; binding it again is allowed, shadowing another
    /// binding of the innermost scope is not.
    fn define_module_placeholder(&mut self, name: &Ident) -> (r: Result<(), SemanticError>)
        requires
            old(self).wf(),
        ensures
            final(self).kept(old(self)),
            final(self).depth() == old(self).depth(),
            match latest(scopes_view(old(self).scopes@).last(), name.node@) {
                None => r is Ok && final(self).binding(name.node@) == Some(
                    TypeModel::Named(module_type_name(name.node@)),
                ),
                Some(t) => if t == TypeModel::Named(module_type_name(name.node@)) {
                    r is Ok && *final(self) == *old(self)
                } else {
                    r matches Err(e) && e.message@ == "import would shadow existing binding '"@ + name.node@ + "' ("@
                        + crate::types::type_text(t) + ")"@ && e.span == name.span
                },
            },
    {
        let n = self.scopes.len();
        let ghost sv = scopes_view(self.scopes@);
        assert(sv.last() == self.scopes@[n - 1]@.map_values(|e: (String, Type)| (e.0@, e.1@)));
        let mut tn = String::from_str("<module:");
        tn.append(name.node.as_str());
        tn.append(">");
        match find_last(&self.scopes[n - 1], name.node.as_str()) {
            Some(i) => {
                proof {
                    lemma_latest_at(sv.last(), name.node@, i as int);
                }
                let existing = &self.scopes[n - 1][i].1;
                let same = match existing {
                    Type::Named(e) => str_eq(e.as_str(), tn.as_str()),
                    _ => false,
                };
                assert(same == (existing@ == TypeModel::Named(module_type_name(name.node@))));
                if same {
                    return Ok(());
                }
                let shown = existing.display();
                return Err(
                    err(
                        text5("import would shadow existing binding '", name.node.as_str(), "' (", shown.as_str(), ")"),
                        name.span,
                    ),
                );
            },
            None => {
                proof {
                    lemma_latest_none(sv.last(), name.node@);
                }
            },
        }
        let mut top = self.scopes.pop().unwrap();
        top.push((name.node.clone(), Type::Named(tn)));
        self.scopes.push(top);
        proof {
            let nv = scopes_view(self.scopes@);
            assert(nv.last() == self.scopes@[n - 1]@.map_values(|e: (String, Type)| (e.0@, e.1@)));
            lemma_latest_at(nv.last(), name.node@, nv.last().len() - 1);
        }
        let cap_id = self.fresh_cap(name.span);
        self.cap.alloc_root(cap_id, name.node.as_str());
        Ok(())
    }
}


// ---------------------------------------------------------------------------
// Resolving written types
// ---------------------------------------------------------------------------

/// How many generic aliases one type may expand through before it is
/// refused as an alias that refers to itself.
pub const ALIAS_EXPANSION_LIMIT: u32 = 256;

/// The built-in types named without arguments.
pub open spec fn scalar_named(name: Seq<char>) -> Option<TypeModel> {
    if name == "u32"@ || name == "Int"@ {
        Some(TypeModel::U32)
    } else if name == "bool"@ {
        Some(TypeModel::Bool)
    } else if name == "String"@ {
        Some(TypeModel::String)
    } else if name == "Style"@ {
        Some(TypeModel::Style)
    } else if name == "Unit"@ {
        Some(TypeModel::Unit)
    } else if name == "Model"@ {
        Some(TypeModel::Model)
    } else {
        None
    }
}

fn scalar_type(name: &str) -> (r: Option<Type>)
    ensures
        match scalar_named(name@) {
            Some(t) => r matches Some(u) && u@ == t,
            None => r is None,
        },
{
    if str_eq(name, "u32") || str_eq(name, "Int") {
        Some(Type::U32)
    } else if str_eq(name, "bool") {
        Some(Type::Bool)
    } else if str_eq(name, "String") {
        Some(Type::String)
    } else if str_eq(name, "Style") {
        Some(Type::Style)
    } else if str_eq(name, "Unit") {
        Some(Type::Unit)
    } else if str_eq(name, "Model") {
        Some(Type::Model)
    } else {
        None
    }
}

/// What a resolved type owes to its range constraint: a range with the
/// written literal bounds, the lower not above the upper.
pub open spec fn fits_range(range: Option<RangeSyntax>, t: TypeModel) -> bool {
    match range {
        Some(rg) => t matches TypeModel::ConstrainedRange { lo, hi, .. } && rg.lo.value == Some(lo)
            && rg.hi.value == Some(hi) && lo <= hi,
        None => true,
    }
}

/// Wraps a resolved base in the range constraint written after it.
fn apply_range(base: Type, range: &Option<RangeSyntax>) -> (r: Result<Type, SemanticError>)
    ensures
        r matches Ok(t) ==> fits_range(*range, t@),
        range is None ==> (r matches Ok(t) && t@ == base@),
{
    match range {
        Some(rg) => {
            let lo = match rg.lo.value {
                Some(v) => v,
                None => {
                    return Err(err(String::from_str("range lower-bound must be a constant integer"), rg.lo.span));
                },
            };
            let hi = match rg.hi.value {
                Some(v) => v,
                None => {
                    return Err(err(String::from_str("range upper-bound must be a constant integer"), rg.hi.span));
                },
            };
            if lo > hi {
                return Err(err(String::from_str("range lower-bound is greater than upper-bound"), rg.span));
            }
            Ok(Type::ConstrainedRange { base: Box::new(base), lo, hi })
        },
        None => Ok(base),
    }
}

fn has_zero(dims: &Vec<u64>) -> (r: bool)
    ensures
        r == exists|i: int| 0 <= i < dims@.len() && dims@[i] == 0,
{
    let mut k: usize = 0;
    while k < dims.len()
        invariant
            k <= dims.len(),
            forall|i: int| 0 <= i < k ==> dims@[i] != 0,
        decreases dims.len() - k,
    {
        if dims[k] == 0 {
            return true;
        }
        k = k + 1;
    }
    false
}

/// Replaces, in a written type, each bare parameter name by the written
/// type it stands for (`subst_type_ref`).
fn subst_syntax(tr: &TypeSyntax, subst: &Vec<(String, TypeSyntax)>) -> (r: TypeSyntax)
    ensures
        ({
            let bare = tr.args.len() == 0 && tr.range is None;
            let named = exists|j: int| 0 <= j < subst@.len() && (#[trigger] subst@[j]).0@ == tr.name@;
            &&& (bare && named) ==> exists|i: int|
                #![trigger subst@[i]]
                0 <= i < subst@.len() && subst@[i].0@ == tr.name@ && (forall|j: int|
                    i < j < subst@.len() ==> (#[trigger] subst@[j]).0@ != tr.name@) && r.span
                    == subst@[i].1.span && r.name@ == subst@[i].1.name@ && r.args.len()
                    == subst@[i].1.args.len() && r.range == subst@[i].1.range
            &&& !(bare && named) ==> {
                &&& r.span == tr.span
                &&& r.name@ == tr.name@
                &&& r.range == tr.range
                &&& r.args.len() == tr.args.len()
                &&& forall|k: int|
                    0 <= k < tr.args.len() ==> ((#[trigger] r.args@[k]) is Shape <==> tr.args@[k] is Shape)
            }
        }),
    decreases tr,
{
    if tr.args.len() == 0 && tr.range.is_none() {
        if let Some(i) = find_last(subst, tr.name.as_str()) {
            let c = subst[i].1.copied();
            assert(subst@[i as int] == subst@[i as int]);
            return c;
        }
    }
    let mut args: Vec<ArgSyntax> = Vec::new();
    let mut k: usize = 0;
    while k < tr.args.len()
        invariant
            k <= tr.args.len(),
            args.len() == k,
            forall|j: int| 0 <= j < k ==> ((#[trigger] args@[j]) is Shape <==> tr.args@[j] is Shape),
        decreases tr.args.len() - k,
    {
        let a = match &tr.args[k] {
            ArgSyntax::Type(t) => {
                proof {
                    assert(decreases_to!(*tr => tr.args));
                    assert(decreases_to!(*tr => tr.args@[k as int]));
                }
                ArgSyntax::Type(Box::new(subst_syntax(t, subst)))
            },
            ArgSyntax::Shape(d) => ArgSyntax::Shape(d.clone()),
        };
        args.push(a);
        k = k + 1;
    }
    TypeSyntax { span: tr.span, name: tr.name.clone(), args, range: tr.range }
}

impl Checker {
    fn has_trait(&self, name: &str) -> (r: bool)
        ensures
            r == exists|i: int| 0 <= i < self.traits@.len() && (#[trigger] self.traits@[i])@ == name@,
    {
        let mut k: usize = 0;
        while k < self.traits.len()
            invariant
                k <= self.traits.len(),
                forall|i: int| 0 <= i < k ==> (#[trigger] self.traits@[i])@ != name@,
            decreases self.traits.len() - k,
        {
            if str_eq(self.traits[k].as_str(), name) {
                return true;
            }
            k = k + 1;
        }
        false
    }

    /// Resolves `Tensor<Elem>` or `Tensor<Elem, [d0, d1, ...]>`, the element
    /// type resolved with `params` for type parameters when given.
    fn resolve_tensor(
        &self,
        tr: &TypeSyntax,
        params: Option<&Vec<(String, Type)>>,
        fuel: u32,
    ) -> (r: Result<Type, SemanticError>)
        ensures
            r matches Ok(t) ==> t@ is Tensor,
            tr.args.len() == 0 ==> (r matches Ok(t) && t@ == TypeModel::Tensor {
                elem: Box::new(TypeModel::Unknown),
                shape: None,
            }),
            tr.args.len() > 2 ==> (r matches Err(e) && e.span == tr.span && e.message@
                == "Tensor expects `Tensor<Elem>` or `Tensor<Elem, [d0, d1, ...]>`"@),
            (tr.args.len() == 1 && tr.args@[0] is Shape) ==> (r matches Err(e) && e.span == tr.span && e.message@
                == "Tensor first type argument must be an element type"@),
            tr.args.len() == 2 ==> (tr.args@[1] matches ArgSyntax::Shape(dims) ==> (r matches Ok(t) ==> (t@
                matches TypeModel::Tensor { shape, .. } && shape == Some(dims@)))),
        decreases fuel, tr, 0int,
    {
        let n = tr.args.len();
        let mut shape: Option<Vec<u64>> = None;
        let elem = if n == 0 {
            Type::Unknown
        } else {
            proof {
                assert(decreases_to!(*tr => tr.args));
                assert(decreases_to!(*tr => tr.args@[0]));
            }
            match &tr.args[0] {
                ArgSyntax::Type(t) => {
                    if n == 2 {
                        match &tr.args[1] {
                            ArgSyntax::Shape(dims) => {
                                shape = Some(dims.clone());
                            },
                            _ => {
                                return Err(
                                    err(
                                        String::from_str("Tensor expects `Tensor<Elem>` or `Tensor<Elem, [d0, d1, ...]>`"),
                                        tr.span,
                                    ),
                                );
                            },
                        }
                    } else if n > 2 {
                        return Err(
                            err(
                                String::from_str("Tensor expects `Tensor<Elem>` or `Tensor<Elem, [d0, d1, ...]>`"),
                                tr.span,
                            ),
                        );
                    }
                    match params {
                        Some(ps) => self.resolve_with_params(t, ps, fuel)?,
                        None => self.resolve_type_ref(t, fuel)?,
                    }
                },
                ArgSyntax::Shape(_) => {
                    if n == 1 {
                        return Err(err(String::from_str("Tensor first type argument must be an element type"), tr.span));
                    }
                    return Err(
                        err(
                            String::from_str("Tensor expects `Tensor<Elem>` or `Tensor<Elem, [d0, d1, ...]>`"),
                            tr.span,
                        ),
                    );
                },
            }
        };
        if let Some(dims) = &shape {
            if has_zero(dims) {
                return Err(err(String::from_str("Tensor shape dimensions must be > 0"), tr.span));
            }
        }
        proof {
            if n == 0 {
                assert(elem@ == TypeModel::Unknown);
            }
        }
        Ok(Type::Tensor { elem: Box::new(elem), shape })
    }

    /// Resolves a written type (`resolve_type_ref`): the built-in names,
    /// tensors, records and enums, type aliases, and otherwise a named type;
    /// then its range constraint. `fuel` bounds the generic aliases it may
    /// expand through.
    fn resolve_type_ref(&self, tr: &TypeSyntax, fuel: u32) -> (r: Result<Type, SemanticError>)
        ensures
            r matches Ok(t) ==> (fits_range(tr.range, t@) || t@ is Named || t@ is Applied),
            match scalar_named(tr.name@) {
                Some(b) => tr.range is None ==> (r matches Ok(t) && t@ == b),
                None => true,
            },
        decreases fuel, tr, 1int,
    {
        let base = if let Some(b) = scalar_type(tr.name.as_str()) {
            b
        } else if str_eq(tr.name.as_str(), "Tensor") {
            self.resolve_tensor(tr, None, fuel)?
        } else if let Some(i) = find_last(&self.record_defs, tr.name.as_str()) {
            return self.resolve_nominal_type_ref(tr, &self.record_defs[i].1.params, fuel);
        } else if let Some(i) = find_last(&self.enum_defs, tr.name.as_str()) {
            return self.resolve_nominal_type_ref(tr, &self.enum_defs[i].1.params, fuel);
        } else if let Some(i) = find_last(&self.type_aliases, tr.name.as_str()) {
            match &self.type_aliases[i].1 {
                AliasEntry::Mono(ty) => {
                    if tr.args.len() != 0 {
                        return Err(
                            err(text3("type alias '", tr.name.as_str(), "' does not take type arguments"), tr.span),
                        );
                    }
                    ty.copied()
                },
                AliasEntry::Generic(def) => {
                    if fuel == 0 {
                        return Err(err(text3("type alias '", tr.name.as_str(), "' expands without end"), tr.span));
                    }
                    let instantiated = self.instantiate_type_alias(tr, def, fuel)?;
                    self.resolve_type_ref(&instantiated, fuel - 1)?
                },
            }
        } else {
            Type::Named(tr.name.clone())
        };
        apply_range(base, &tr.range)
    }

    /// Resolves a record or enum type with its type arguments, each checked
    /// against the bound of its parameter.
    fn resolve_nominal_type_ref(&self, tr: &TypeSyntax, params: &Vec<ParamDef>, fuel: u32) -> (r: Result<
        Type,
        SemanticError,
    >)
        ensures
            r matches Ok(t) ==> (t@ is Named || t@ is Applied),
            params.len() == 0 ==> (tr.args.len() == 0 <==> r is Ok),
            (params.len() == 0 && tr.args.len() == 0) ==> (r matches Ok(t) && t@ == TypeModel::Named(tr.name@)),
            (params.len() == 0 && tr.args.len() != 0) ==> (r matches Err(e) && e.span == tr.span && e.message@
                == "type '"@ + tr.name@ + "' does not take type arguments"@),
            (params.len() != 0 && tr.args.len() == 0) ==> (r matches Err(e) && e.span == tr.span && e.message@
                == "type '"@ + tr.name@ + "' expects "@ + crate::text::nat_decimal(params.len() as nat)
                + " type arguments"@),
            (params.len() != 0 && tr.args.len() != 0 && tr.args.len() != params.len()) ==> (r matches Err(e)
                && e.span == tr.span && e.message@ == "type '"@ + tr.name@ + "' expects "@
                + crate::text::nat_decimal(params.len() as nat) + " type arguments, got "@
                + crate::text::nat_decimal(tr.args.len() as nat)),
            params.len() != 0 ==> (r matches Ok(t) ==> (t@ matches TypeModel::Applied { name, args } && name
                == tr.name@ && args.len() == params.len())),
        decreases fuel, tr, 0int,
    {
        let name = tr.name.as_str();
        if params.len() == 0 {
            if tr.args.len() != 0 {
                return Err(err(text3("type '", name, "' does not take type arguments"), tr.span));
            }
            return Ok(Type::Named(tr.name.clone()));
        }
        if tr.args.len() == 0 {
            let c = crate::text::u64_to_decimal(params.len() as u64);
            return Err(err(text5("type '", name, "' expects ", c.as_str(), " type arguments"), tr.span));
        }
        if tr.args.len() != params.len() {
            let c = crate::text::u64_to_decimal(params.len() as u64);
            let g = crate::text::u64_to_decimal(tr.args.len() as u64);
            let mut m = text5("type '", name, "' expects ", c.as_str(), " type arguments, got ");
            m.append(g.as_str());
            return Err(err(m, tr.span));
        }
        let mut resolved: Vec<Type> = Vec::new();
        let mut k: usize = 0;
        while k < tr.args.len()
            invariant
                k <= tr.args.len(),
                tr.args.len() == params.len(),
                resolved.len() == k,
            decreases tr.args.len() - k,
        {
            proof {
                assert(decreases_to!(*tr => tr.args));
                assert(decreases_to!(*tr => tr.args@[k as int]));
            }
            match &tr.args[k] {
                ArgSyntax::Type(t) => {
                    if let Some(bound) = &params[k].bound {
                        if !self.has_trait(bound.as_str()) {
                            return Err(
                                err(text3("unknown trait '", bound.as_str(), "' in type parameter constraint"), tr.span),
                            );
                        }
                        let r = self.resolve_type_ref(t, fuel)?;
                        if !crate::sema::type_satisfies_trait(&r, bound.as_str()) {
                            return Err(
                                err(text3("type argument does not satisfy trait bound '", bound.as_str(), "'"), tr.span),
                            );
                        }
                    }
                    resolved.push(self.resolve_type_ref(t, fuel)?);
                },
                ArgSyntax::Shape(_) => {
                    return Err(err(String::from_str("value generics are not supported for nominal types"), tr.span));
                },
            }
            k = k + 1;
        }
        proof {
            crate::types::lemma_models_of(resolved@);
        }
        Ok(Type::Applied { name: tr.name.clone(), args: resolved })
    }

    /// The written type a generic alias stands for, its parameters replaced
    /// by the arguments of `tr`, each checked against its bound.
    fn instantiate_type_alias(&self, tr: &TypeSyntax, def: &AliasDef, fuel: u32) -> (r: Result<
        TypeSyntax,
        SemanticError,
    >)
        ensures
            tr.args.len() != def.params.len() ==> (r matches Err(e) && e.span == def.target.span && e.message@
                == "type alias '"@ + tr.name@ + "' expects "@ + crate::text::nat_decimal(def.params.len() as nat)
                + " type arguments, got "@ + crate::text::nat_decimal(tr.args.len() as nat)),
            r is Ok ==> tr.args.len() == def.params.len(),
            ({
                let tg = def.target;
                let param_target = tg.args.len() == 0 && tg.range is None && exists|j: int|
                    0 <= j < def.params@.len() && (#[trigger] def.params@[j]).name@ == tg.name@;
                &&& !param_target ==> (r matches Ok(t) ==> (t.span == tg.span && t.name@ == tg.name@ && t.args.len()
                    == tg.args.len() && t.range == tg.range))
                &&& param_target ==> (r matches Ok(t) ==> exists|i: int|
                    #![trigger def.params@[i]]
                    0 <= i < def.params@.len() && def.params@[i].name@ == tg.name@ && (forall|j: int|
                        i < j < def.params@.len() ==> (#[trigger] def.params@[j]).name@ != tg.name@)
                        && (tr.args@[i] matches ArgSyntax::Type(a) && t.span == a.span && t.name@ == a.name@))
            }),
        decreases fuel, tr, 0int,
    {
        if tr.args.len() != def.params.len() {
            let c = crate::text::u64_to_decimal(def.params.len() as u64);
            let g = crate::text::u64_to_decimal(tr.args.len() as u64);
            let mut m = text5("type alias '", tr.name.as_str(), "' expects ", c.as_str(), " type arguments, got ");
            m.append(g.as_str());
            return Err(err(m, def.target.span));
        }
        let mut subst: Vec<(String, TypeSyntax)> = Vec::new();
        let mut k: usize = 0;
        while k < tr.args.len()
            invariant
                k <= tr.args.len(),
                tr.args.len() == def.params.len(),
                subst.len() == k,
                forall|j: int|
                    0 <= j < k ==> (#[trigger] subst@[j]).0@ == def.params@[j].name@ && (tr.args@[j] matches ArgSyntax::Type(
                        a,
                    ) && subst@[j].1.span == a.span && subst@[j].1.name@ == a.name@),
            decreases tr.args.len() - k,
        {
            proof {
                assert(decreases_to!(*tr => tr.args));
                assert(decreases_to!(*tr => tr.args@[k as int]));
            }
            match &tr.args[k] {
                ArgSyntax::Type(t) => {
                    if let Some(bound) = &def.params[k].bound {
                        if !self.has_trait(bound.as_str()) {
                            return Err(
                                err(
                                    text3("unknown trait '", bound.as_str(), "' in type parameter constraint"),
                                    def.target.span,
                                ),
                            );
                        }
                        let r = self.resolve_type_ref(t, fuel)?;
                        if !crate::sema::type_satisfies_trait(&r, bound.as_str()) {
                            return Err(
                                err(
                                    text3("type argument does not satisfy trait bound '", bound.as_str(), "'"),
                                    def.target.span,
                                ),
                            );
                        }
                    }
                    subst.push((def.params[k].name.clone(), t.copied()));
                },
                ArgSyntax::Shape(_) => {
                    return Err(
                        err(
                            String::from_str(
                                "generic type arguments must be types; value generics are not supported yet",
                            ),
                            def.target.span,
                        ),
                    );
                },
            }
            k = k + 1;
        }
        let out = subst_syntax(&def.target, &subst);
        proof {
            let tg = def.target;
            if tg.args.len() == 0 && tg.range is None {
                if exists|j: int| 0 <= j < def.params@.len() && (#[trigger] def.params@[j]).name@ == tg.name@ {
                    let j = choose|j: int| 0 <= j < def.params@.len() && (#[trigger] def.params@[j]).name@ == tg.name@;
                    assert(subst@[j].0@ == tg.name@);
                    let i = choose|i: int|
                        #![trigger subst@[i]]
                        0 <= i < subst@.len() && subst@[i].0@ == tg.name@ && (forall|j: int|
                            i < j < subst@.len() ==> (#[trigger] subst@[j]).0@ != tg.name@) && out.span
                            == subst@[i].1.span && out.name@ == subst@[i].1.name@ && out.args.len()
                            == subst@[i].1.args.len() && out.range == subst@[i].1.range;
                    assert(def.params@[i].name@ == tg.name@);
                    assert forall|j: int| i < j < def.params@.len() implies (#[trigger] def.params@[j]).name@ != tg.name@ by {
                        assert(subst@[j].0@ == def.params@[j].name@);
                    }
                } else {
                    assert forall|j: int| 0 <= j < subst@.len() implies (#[trigger] subst@[j]).0@ != tg.name@ by {
                        assert(subst@[j].0@ == def.params@[j].name@);
                    }
                }
            }
        }
        Ok(out)
    }

    /// Resolves a written type in which the type parameters of a generic
    /// definition stand for the given types.
    fn resolve_with_params(&self, tr: &TypeSyntax, params: &Vec<(String, Type)>, fuel: u32) -> (r: Result<
        Type,
        SemanticError,
    >)
        ensures
            r matches Ok(t) ==> (fits_range(tr.range, t@) || t@ is Named || t@ is Applied || (tr.args.len() == 0
                && tr.range is None)),
            ({
                let bare = tr.args.len() == 0 && tr.range is None;
                let given = exists|j: int| 0 <= j < params@.len() && (#[trigger] params@[j]).0@ == tr.name@;
                &&& (bare && given) ==> (r matches Ok(t) && exists|i: int|
                    #![trigger params@[i]]
                    0 <= i < params@.len() && params@[i].0@ == tr.name@ && (forall|j: int|
                        i < j < params@.len() ==> (#[trigger] params@[j]).0@ != tr.name@) && t@ == params@[i].1@)
                &&& (bare && !given && scalar_named(tr.name@) is Some) ==> (r matches Ok(t) && Some(t@) == scalar_named(
                    tr.name@,
                ))
            }),
        decreases fuel, tr, 2int,
    {
        if tr.args.len() == 0 && tr.range.is_none() {
            if let Some(i) = find_last(params, tr.name.as_str()) {
                return Ok(params[i].1.copied());
            }
        }
        let base = if let Some(b) = scalar_type(tr.name.as_str()) {
            b
        } else if str_eq(tr.name.as_str(), "Tensor") {
            self.resolve_tensor(tr, Some(params), fuel)?
        } else if tr.args.len() == 0 {
            return self.resolve_type_ref(tr, fuel);
        } else {
            let mut resolved: Vec<Type> = Vec::new();
            let mut k: usize = 0;
            while k < tr.args.len()
                invariant
                    k <= tr.args.len(),
                decreases tr.args.len() - k,
            {
                proof {
                    assert(decreases_to!(*tr => tr.args));
                    assert(decreases_to!(*tr => tr.args@[k as int]));
                }
                match &tr.args[k] {
                    ArgSyntax::Type(t) => {
                        resolved.push(self.resolve_with_params(t, params, fuel)?);
                    },
                    ArgSyntax::Shape(_) => {
                        return Err(
                            err(String::from_str("value generics are not supported in this context"), tr.span),
                        );
                    },
                }
                k = k + 1;
            }
            Type::Applied { name: tr.name.clone(), args: resolved }
        };
        apply_range(base, &tr.range)
    }
}


// ---------------------------------------------------------------------------
// Copies of definitions
// ---------------------------------------------------------------------------

impl FnSig {
    /// A copy of the signature.
    pub fn copied(&self) -> (r: FnSig)
        ensures
            r@ == self@,
    {
        let mut params: Vec<FnParam> = Vec::new();
        let mut k: usize = 0;
        while k < self.params.len()
            invariant
                k <= self.params.len(),
                params@.len() == k,
                forall|j: int| 0 <= j < k ==> (#[trigger] params@[j]).name@ == self.params@[j].name@
                    && params@[j].ty@ == self.params@[j].ty@,
            decreases self.params.len() - k,
        {
            params.push(FnParam { name: self.params[k].name.clone(), ty: self.params[k].ty.copied() });
            k = k + 1;
        }
        let r = FnSig { params, ret: self.ret.copied() };
        assert(r@.params =~= self@.params);
        r
    }
}

fn copy_syntaxes(v: &Vec<TypeSyntax>) -> (r: Vec<TypeSyntax>)
    ensures
        r.len() == v.len(),
{
    let mut out: Vec<TypeSyntax> = Vec::new();
    let mut k: usize = 0;
    while k < v.len()
        invariant
            k <= v.len(),
            out.len() == k,
        decreases v.len() - k,
    {
        out.push(v[k].copied());
        k = k + 1;
    }
    out
}

impl RecordInfo {
    fn copied(&self) -> (r: RecordInfo)
        ensures
            r.params.len() == self.params.len(),
            r.fields.len() == self.fields.len(),
    {
        let mut fields: Vec<FieldDef> = Vec::new();
        let mut k: usize = 0;
        while k < self.fields.len()
            invariant
                k <= self.fields.len(),
                fields.len() == k,
            decreases self.fields.len() - k,
        {
            let f = &self.fields[k];
            fields.push(FieldDef { name: f.name.clone(), ty: f.ty.copied(), has_default: f.has_default });
            k = k + 1;
        }
        RecordInfo { params: copy_params(&self.params), fields }
    }
}

impl EnumInfo {
    fn copied(&self) -> (r: EnumInfo)
        ensures
            r.params.len() == self.params.len(),
            r.variants.len() == self.variants.len(),
            forall|i: int| 0 <= i < self.variants.len() ==> (#[trigger] r.variants@[i]).name@ == self.variants@[i].name@
                && r.variants@[i].fields.len() == self.variants@[i].fields.len(),
    {
        let mut variants: Vec<VariantInfo> = Vec::new();
        let mut k: usize = 0;
        while k < self.variants.len()
            invariant
                k <= self.variants.len(),
                variants.len() == k,
                forall|i: int| 0 <= i < k ==> (#[trigger] variants@[i]).name@ == self.variants@[i].name@
                    && variants@[i].fields.len() == self.variants@[i].fields.len(),
            decreases self.variants.len() - k,
        {
            let v = &self.variants[k];
            variants.push(VariantInfo { name: v.name.clone(), fields: copy_syntaxes(&v.fields) });
            k = k + 1;
        }
        EnumInfo { span: self.span, name: self.name.clone(), params: copy_params(&self.params), variants }
    }
}

fn variant_index(vs: &Vec<VariantInfo>, name: &str) -> (r: Option<usize>)
    ensures
        match r {
            Some(i) => i < vs.len() && vs@[i as int].name@ == name@ && forall|j: int|
                0 <= j < i ==> (#[trigger] vs@[j]).name@ != name@,
            None => forall|j: int| 0 <= j < vs.len() ==> (#[trigger] vs@[j]).name@ != name@,
        },
{
    let mut k: usize = 0;
    while k < vs.len()
        invariant
            k <= vs.len(),
            forall|j: int| 0 <= j < k ==> (#[trigger] vs@[j]).name@ != name@,
        decreases vs.len() - k,
    {
        if str_eq(vs[k].name.as_str(), name) {
            return Some(k);
        }
        k = k + 1;
    }
    None
}

// ---------------------------------------------------------------------------
// Match arms
// ---------------------------------------------------------------------------

/// The literal of an integer pattern.
pub open spec fn int_pattern(p: Pattern) -> Option<u64> {
    match p {
        Pattern::IntLit { value, .. } => Some(value),
        _ => None,
    }
}

/// The literal of a string pattern.
pub open spec fn string_pattern(p: Pattern) -> Option<Seq<char>> {
    match p {
        Pattern::StringLit { value, .. } => Some(value@),
        _ => None,
    }
}

/// An arm's pattern fits a scrutinee of type `t`: an integer literal needs a
/// `u32`, a string literal a `String`, and a constructor pattern the enum
/// the scrutinee's type names.
pub open spec fn pattern_fits(p: Pattern, t: TypeModel) -> bool {
    match p {
        Pattern::Wildcard { .. } => true,
        Pattern::IntLit { .. } => crate::sema::base_model(t) is U32,
        Pattern::StringLit { .. } => crate::sema::base_model(t) is String,
        Pattern::Ctor { ty, .. } => scrutinee_name(crate::sema::base_model(t)) == Some(ty.node@),
    }
}

/// Every arm's pattern fits a scrutinee of type `t`.
pub open spec fn arms_fit(arms: Seq<MatchArm>, t: TypeModel) -> bool {
    forall|j: int| 0 <= j < arms.len() ==> pattern_fits(#[trigger] arms[j].pat, t)
}

/// An arm with a wildcard, or a literal of the scrutinee's type `t`, and an
/// empty body.
pub open spec fn literal_arm_fits(arm: MatchArm, t: TypeModel) -> bool {
    &&& match arm.pat {
        Pattern::Wildcard { .. } => true,
        Pattern::IntLit { .. } => crate::sema::base_model(t) is U32,
        Pattern::StringLit { .. } => crate::sema::base_model(t) is String,
        Pattern::Ctor { .. } => false,
    }
    &&& arm.body.stmts.len() == 0
    &&& arm.body.yield_expr is None
}

/// The arm rules of a match: at least one arm; exactly one wildcard arm,
/// the last; no integer or string literal in two arms.
pub open spec fn arms_ok(arms: Seq<MatchArm>) -> bool {
    &&& arms.len() > 0
    &&& arms.last().pat is Wildcard
    &&& forall|i: int| 0 <= i < arms.len() - 1 ==> !(#[trigger] arms[i].pat is Wildcard)
    &&& forall|i: int, j: int|
        0 <= i < j < arms.len() && int_pattern(arms[i].pat) is Some ==> int_pattern(arms[i].pat) != int_pattern(
            arms[j].pat,
        )
    &&& forall|i: int, j: int|
        0 <= i < j < arms.len() && string_pattern(arms[i].pat) is Some ==> string_pattern(arms[i].pat)
            != string_pattern(arms[j].pat)
}

// ---------------------------------------------------------------------------
// Names a flow refers to
// ---------------------------------------------------------------------------

fn contains_name(v: &Vec<(String, Span)>, x: &str) -> (r: bool)
    ensures
        r == exists|i: int| 0 <= i < v@.len() && (#[trigger] v@[i]).0@ == x@,
{
    let mut k: usize = 0;
    while k < v.len()
        invariant
            k <= v.len(),
            forall|i: int| 0 <= i < k ==> (#[trigger] v@[i]).0@ != x@,
        decreases v.len() - k,
    {
        if str_eq(v[k].0.as_str(), x) {
            return true;
        }
        k = k + 1;
    }
    false
}

/// `name` is the name of one of `params`.
pub open spec fn names_a_param(name: Seq<char>, params: Seq<ParamDef>) -> bool {
    exists|j: int| 0 <= j < params.len() && (#[trigger] params[j]).name@ == name
}

/// Each entry of `subst` is keyed by the name of one of `params`.
pub open spec fn keyed_by_params<V>(subst: Seq<(String, V)>, params: Seq<ParamDef>) -> bool {
    forall|i: int| 0 <= i < subst.len() ==> names_a_param(#[trigger] subst[i].0@, params)
}

/// `new` holds `old` unchanged at its front.
pub open spec fn keeps_front<A>(old: Seq<A>, new: Seq<A>) -> bool {
    old.len() <= new.len() && forall|i: int| 0 <= i < old.len() ==> #[trigger] new[i] == old[i]
}

/// `new` holds `old` unchanged at its front.
pub open spec fn extends_names(old: Seq<(String, Span)>, new: Seq<(String, Span)>) -> bool {
    old.len() <= new.len() && forall|i: int| 0 <= i < old.len() ==> #[trigger] new[i] == old[i]
}

fn collect_in_fields(fields: &Vec<(Ident, Expr)>, out: &mut Vec<(String, Span)>, Ghost(outer): Ghost<Expr>)
    requires
        decreases_to!(outer => fields),
    ensures
        extends_names(old(out)@, final(out)@),
        fields.len() == 0 ==> final(out)@ == old(out)@,
    decreases outer, 0int,
{
    let mut k: usize = 0;
    while k < fields.len()
        invariant
            decreases_to!(outer => fields),
            k <= fields.len(),
            extends_names(old(out)@, out@),
            k == 0 ==> out@ == old(out)@,
        decreases fields.len() - k,
    {
        proof {
            assert(decreases_to!(outer => fields@[k as int]));
            assert(decreases_to!(outer => fields@[k as int].1));
        }
        collect_value_idents(&fields[k].1, out);
        k = k + 1;
    }
}

fn collect_in_block(b: &Block, out: &mut Vec<(String, Span)>)
    ensures
        extends_names(old(out)@, final(out)@),
        (b.stmts.len() == 0 && b.yield_expr is None) ==> final(out)@ == old(out)@,
    decreases b, 0int,
{
    let mut k: usize = 0;
    while k < b.stmts.len()
        invariant
            k <= b.stmts.len(),
            extends_names(old(out)@, out@),
            k == 0 ==> out@ == old(out)@,
        decreases b.stmts.len() - k,
    {
        if let Stmt::ExprStmt(e) = &b.stmts[k] {
            proof {
                assert(decreases_to!(*b => b.stmts));
                assert(decreases_to!(*b => b.stmts@[k as int]));
            }
            collect_value_idents(e, out);
        }
        k = k + 1;
    }
    if let Some(y) = &b.yield_expr {
        collect_value_idents(y, out);
    }
}

/// The names an expression reads, with their spans, in order; names bound
/// by a quantifier inside it are left out (`collect_value_idents`).
fn collect_value_idents(expr: &Expr, out: &mut Vec<(String, Span)>)
    ensures
        extends_names(old(out)@, final(out)@),
        expr.kind matches ExprKind::Ident(id) ==> final(out)@ == old(out)@.push((id.node, id.span)),
        (expr.kind is IntLit || expr.kind is StringLit) ==> final(out)@ == old(out)@,
    decreases expr, 1int,
{
    match &expr.kind {
        ExprKind::Ident(id) => out.push((id.node.clone(), id.span)),
        ExprKind::StyleLit { fields } => {
            proof {
                assert(decreases_to!(*expr => fields));
            }
            collect_in_fields(fields, out, Ghost(*expr));
        },
        ExprKind::RecordLit { fields, .. } => {
            proof {
                assert(decreases_to!(*expr => fields));
            }
            collect_in_fields(fields, out, Ghost(*expr));
        },
        ExprKind::Unary { expr: inner, .. } => collect_value_idents(inner, out),
        ExprKind::Binary { left, right, .. } | ExprKind::Flow { left, right, .. } => {
            collect_value_idents(left, out);
            collect_value_idents(right, out);
        },
        ExprKind::Member { base, .. } => collect_value_idents(base, out),
        ExprKind::Call { args, trailing, .. } => {
            let mut k: usize = 0;
            proof {
                assert(decreases_to!(*expr => args));
            }
            while k < args.len()
                invariant
                    decreases_to!(*expr => args),
                    extends_names(old(out)@, out@),
                decreases args.len() - k,
            {
                proof {
                    assert(decreases_to!(*expr => args@[k as int]));
                }
                match &args[k] {
                    CallArg::Positional(e) => collect_value_idents(e, out),
                    CallArg::Named { value, .. } => collect_value_idents(value, out),
                }
                k = k + 1;
            }
            if let Some(tb) = trailing {
                collect_in_block(tb, out);
            }
        },
        ExprKind::Lambda { body, .. } => collect_in_block(body, out),
        ExprKind::ForAll { binders, body } | ExprKind::Exists { binders, body } => {
            let mut tmp: Vec<(String, Span)> = Vec::new();
            collect_value_idents(body, &mut tmp);
            let mut k: usize = 0;
            while k < tmp.len()
                invariant
                    extends_names(old(out)@, out@),
                decreases tmp.len() - k,
            {
                let mut bound = false;
                let mut j: usize = 0;
                while j < binders.len()
                    invariant
                        k < tmp.len(),
                    decreases binders.len() - j,
                {
                    if str_eq(binders[j].name.node.as_str(), tmp[k].0.as_str()) {
                        bound = true;
                    }
                    j = j + 1;
                }
                if !bound {
                    out.push((tmp[k].0.clone(), tmp[k].1));
                }
                k = k + 1;
            }
        },
        ExprKind::IntLit(_) | ExprKind::StringLit(_) => {},
    }
}


// ---------------------------------------------------------------------------
// Calls, flows and generic inference
// ---------------------------------------------------------------------------

/// Every argument is given by position.
pub open spec fn all_positional(args: Seq<CallArg>) -> bool {
    forall|i: int| 0 <= i < args.len() ==> #[trigger] args[i] is Positional
}

fn arity_message(expected: usize, got: usize) -> (r: String) {
    let c = crate::text::u64_to_decimal(expected as u64);
    let g = crate::text::u64_to_decimal(got as u64);
    text5("wrong number of arguments: expected ", c.as_str(), ", got ", g.as_str(), "")
}

impl Checker {
    /// Matches the arguments of a call with the parameters of `sig`:
    /// positional ones fill the free parameters in order, named ones the
    /// parameter of that name. The result gives, for each parameter, the
    /// position of its argument.
    fn resolve_call_args_against_sig(&self, call_span: Span, args: &Vec<CallArg>, sig: &FnSig) -> (r: Result<
        Vec<usize>,
        SemanticError,
    >)
        ensures
            r matches Ok(v) ==> v.len() == sig.params.len() && forall|i: int| 0 <= i < v.len() ==> #[trigger] v@[i]
                < args.len(),
            all_positional(args@) ==> ((r is Ok) <==> args.len() == sig.params.len()),
            all_positional(args@) ==> (r matches Ok(v) ==> forall|i: int| 0 <= i < v.len() ==> #[trigger] v@[i] == i),
    {
        let n = sig.params.len();
        let ghost pos = all_positional(args@);
        let mut ordered: Vec<Option<usize>> = Vec::new();
        while ordered.len() < n
            invariant
                ordered.len() <= n,
                forall|i: int| 0 <= i < ordered.len() ==> ((#[trigger] ordered@[i]) matches Some(a) ==> a < args.len()),
                forall|i: int| 0 <= i < ordered.len() ==> (#[trigger] ordered@[i]) is None,
            decreases n - ordered.len(),
        {
            ordered.push(None);
        }
        let mut next_pos: usize = 0;
        let mut k: usize = 0;
        while k < args.len()
            invariant
                k <= args.len(),
                ordered.len() == n,
                n == sig.params.len(),
                forall|i: int| 0 <= i < ordered.len() ==> ((#[trigger] ordered@[i]) matches Some(a) ==> a < args.len()),
                pos == all_positional(args@),
                pos ==> k <= n && next_pos == k,
                pos ==> forall|i: int|
                    0 <= i < n ==> #[trigger] ordered@[i] == (if i < k { Some(i as usize) } else { None::<usize> }),
            decreases args.len() - k,
        {
            match &args[k] {
                CallArg::Positional(_) => {
                    while next_pos < ordered.len() && ordered[next_pos].is_some()
                        invariant
                            ordered.len() == n,
                            pos ==> k <= n && next_pos == k,
                            pos ==> forall|i: int|
                                0 <= i < n ==> #[trigger] ordered@[i] == (if i < k { Some(i as usize) } else { None::<usize> }),
                        decreases ordered.len() - next_pos,
                    {
                        next_pos = next_pos + 1;
                    }
                    if next_pos >= ordered.len() {
                        return Err(err(arity_message(n, args.len()), call_span));
                    }
                    ordered.set(next_pos, Some(k));
                    next_pos = next_pos + 1;
                },
                CallArg::Named { name, .. } => {
                    let mut idx: usize = 0;
                    while idx < n && !str_eq(sig.params[idx].name.as_str(), name.node.as_str())
                        invariant
                            idx <= n,
                            n == sig.params.len(),
                        decreases n - idx,
                    {
                        idx = idx + 1;
                    }
                    if idx >= n {
                        return Err(err(text3("unknown named argument '", name.node.as_str(), "'"), name.span));
                    }
                    if ordered[idx].is_some() {
                        return Err(err(text3("duplicate argument '", name.node.as_str(), "'"), name.span));
                    }
                    ordered.set(idx, Some(k));
                },
            }
            k = k + 1;
        }
        let mut out: Vec<usize> = Vec::new();
        let mut j: usize = 0;
        while j < n
            invariant
                j <= n,
                ordered.len() == n,
                out.len() == j,
                forall|i: int| 0 <= i < ordered.len() ==> ((#[trigger] ordered@[i]) matches Some(a) ==> a < args.len()),
                forall|i: int| 0 <= i < out.len() ==> #[trigger] out@[i] < args.len(),
                pos == all_positional(args@),
                n == sig.params.len(),
                pos ==> k == args.len() && k <= n,
                pos ==> forall|i: int|
                    0 <= i < n ==> #[trigger] ordered@[i] == (if i < k { Some(i as usize) } else { None::<usize> }),
                pos ==> forall|i: int| 0 <= i < out.len() ==> #[trigger] out@[i] == i,
                pos ==> j <= k,
            decreases n - j,
        {
            proof {
                if pos {
                    assert(ordered@[j as int] == (if j < k { Some(j) } else { None::<usize> }));
                }
            }
            match ordered[j] {
                Some(a) => out.push(a),
                None => {
                    return Err(err(arity_message(n, args.len()), call_span));
                },
            }
            j = j + 1;
        }
        Ok(out)
    }

    /// The capability side of a flow `left -> right` (or `~>`): the names
    /// the right side reads must be alive, and a named left side is moved
    /// into the flow; an async flow may not move a mutable binding.
    fn apply_flow_capabilities(&mut self, left: &Expr, right: &Expr, op: FlowOp, span: Span) -> (r: Result<
        (),
        SemanticError,
    >)
        requires
            old(self).wf(),
        ensures
            final(self).kept(old(self)),
            final(self).depth() == old(self).depth(),
            left.kind matches ExprKind::Ident(id) ==> ((op is Async && !module_binding(old(self).binding(id.node@))
                && exists|i: int, j: int|
                0 <= i < old(self).mut_scopes.len() && 0 <= j < old(self).mut_scopes@[i]@.len() && (
                #[trigger] old(self).mut_scopes@[i]@[j])@ == id.node@) ==> r is Err),
            (!(left.kind is Ident) && (right.kind is IntLit || right.kind is StringLit)) ==> r is Ok,
    {
        let mut referenced: Vec<(String, Span)> = Vec::new();
        if let ExprKind::Call { args, .. } = &right.kind {
            let mut k: usize = 0;
            while k < args.len()
                decreases args.len() - k,
            {
                collect_value_idents(crate::sema::call_arg_value(&args[k]), &mut referenced);
                k = k + 1;
            }
        } else {
            collect_value_idents(right, &mut referenced);
        }
        let mut j: usize = 0;
        while j < referenced.len()
            invariant
                self.kept(old(self)),
                self.depth() == old(self).depth(),
                *self == *old(self),
                (right.kind is IntLit || right.kind is StringLit) ==> referenced.len() == 0,
            decreases referenced.len() - j,
        {
            let _ = self.cap.ensure_alive(referenced[j].0.as_str(), referenced[j].1)?;
            j = j + 1;
        }
        if let ExprKind::Ident(id) = &left.kind {
            if let Some(ty) = self.lookup_val(id.node.as_str()) {
                if let Type::Named(n) = &ty {
                    if starts_with_module(n.as_str()) {
                        return Ok(());
                    }
                }
            }
            if op == FlowOp::Async && self.is_mutable(id.node.as_str()) {
                return Err(
                    err(
                        text3(
                            "cannot async-transfer mutable capability '",
                            id.node.as_str(),
                            "' via ~> (must be immutable or moved from an immutable binding)",
                        ),
                        id.span,
                    ),
                );
            }
            let from = self.cap.ensure_alive(id.node.as_str(), id.span)?;
            let to = self.fresh_cap(span);
            self.cap.consume_move(from, to, span);
        }
        Ok(())
    }

    /// Infers type arguments of a generic definition by matching the
    /// written type of a field with the type of the value given for it
    /// (`unify_type_params_in_typeref`).
    fn unify_type_params(
        &self,
        expected: &TypeSyntax,
        actual: &Type,
        params: &Vec<ParamDef>,
        subst: &mut Vec<(String, Type)>,
    ) -> (r: Result<(), SemanticError>)
        ensures
            keeps_front(old(subst)@, final(subst)@),
            forall|i: int|
                old(subst)@.len() <= i < final(subst)@.len() ==> names_a_param(#[trigger] final(subst)@[i].0@, params@),
            ({
                let is_param = exists|j: int| 0 <= j < params@.len() && (#[trigger] params@[j]).name@ == expected.name@;
                let bare = expected.args.len() == 0 && expected.range is None;
                let bound = exists|j: int| 0 <= j < old(subst)@.len() && (#[trigger] old(subst)@[j]).0@ == expected.name@;
                &&& (is_param && bare && !bound) ==> {
                    &&& r is Ok
                    &&& final(subst)@.len() == old(subst)@.len() + 1
                    &&& final(subst)@.last().0@ == expected.name@
                    &&& final(subst)@.last().1@ == actual@
                }
                &&& (!(is_param && bare) && expected.name@ != "Tensor"@) ==> (r is Ok && final(subst)@ == old(subst)@)
            }),
        decreases expected,
    {
        let mut is_param = false;
        let mut k: usize = 0;
        while k < params.len()
            invariant
                k <= params.len(),
                is_param <==> exists|j: int| 0 <= j < k && (#[trigger] params@[j]).name@ == expected.name@,
            decreases params.len() - k,
        {
            if str_eq(params[k].name.as_str(), expected.name.as_str()) {
                is_param = true;
            }
            k = k + 1;
        }
        if is_param && expected.args.len() == 0 && expected.range.is_none() {
            match find_last(subst, expected.name.as_str()) {
                None => {
                    subst.push((expected.name.clone(), actual.copied()));
                    return Ok(());
                },
                Some(i) => {
                    let existing = &subst[i].1;
                    if crate::types::same_type(existing, actual) {
                        return Ok(());
                    }
                    if matches!(existing, Type::Unknown) {
                        subst.push((expected.name.clone(), actual.copied()));
                        return Ok(());
                    }
                    if matches!(actual, Type::Unknown) {
                        return Ok(());
                    }
                    let saw = existing.display();
                    let and = actual.display();
                    let mut m = text5("conflicting type argument inference for '", expected.name.as_str(), "': saw ", saw.as_str(), " and ");
                    m.append(and.as_str());
                    return Err(err(m, expected.span));
                },
            }
        }
        if !str_eq(expected.name.as_str(), "Tensor") {
            return Ok(());
        }
        let (act_elem, act_shape) = match base_type(actual) {
            Type::Tensor { elem, shape } => (elem, shape),
            _ => return Ok(()),
        };
        let n = expected.args.len();
        if n == 0 || n > 2 {
            return Ok(());
        }
        proof {
            assert(decreases_to!(*expected => expected.args));
            assert(decreases_to!(*expected => expected.args@[0]));
        }
        let t = match &expected.args[0] {
            ArgSyntax::Type(t) => t,
            _ => return Ok(()),
        };
        if n == 2 {
            match &expected.args[1] {
                ArgSyntax::Shape(dims) => {
                    if let Some(ad) = act_shape {
                        if !crate::types::same_u64s(ad, dims) {
                            return Err(
                                err(String::from_str("tensor shape mismatch during generic inference"), expected.span),
                            );
                        }
                    }
                },
                _ => return Ok(()),
            }
        }
        self.unify_type_params(t, act_elem, params, subst)
    }
}


// ---------------------------------------------------------------------------
// Expressions
// ---------------------------------------------------------------------------

/// How many generic aliases resolving one written type may expand through.
fn alias_fuel() -> (r: u32) {
    ALIAS_EXPANSION_LIMIT
}

/// The message for an integer literal beyond `u32`.
pub open spec fn literal_too_big_message() -> Seq<char> {
    "integer literal out of range for u32 (max=4294967295)"@
}

/// The built-in calls that only read their receiver.
pub open spec fn reads_receiver(name: Seq<char>) -> bool {
    name == "tensor.len"@ || name == "tensor.get"@ || name == "collections.vector_len"@ || name
        == "collections.vector_get"@
}

/// The built-in calls that write to their receiver.
pub open spec fn writes_receiver(name: Seq<char>) -> bool {
    name == "tensor.set"@ || name == "collections.vector_set"@
}

/// A binding to the placeholder type of an imported module.
pub open spec fn module_binding(b: Option<TypeModel>) -> bool {
    b matches Some(TypeModel::Named(n)) && (n.len() >= module_prefix().len() && n.subrange(
        0,
        module_prefix().len() as int,
    ) == module_prefix())
}

/// The type of a string or integer literal.
pub open spec fn literal_type(e: Expr) -> TypeModel {
    match e.kind {
        ExprKind::IntLit(n) => TypeModel::ConstrainedRange { base: Box::new(TypeModel::U32), lo: n, hi: n },
        _ => TypeModel::String,
    }
}

/// The name of a record or enum type a value has, if it has one.
pub open spec fn scrutinee_name(t: TypeModel) -> Option<Seq<char>> {
    match t {
        TypeModel::Named(n) => Some(n),
        TypeModel::Applied { name, .. } => Some(name),
        _ => None,
    }
}

/// The built-in type a written type names, when it is a bare built-in name
/// without arguments or range.
pub open spec fn written_scalar(t: TypeRef) -> Option<TypeModel> {
    if t.args.len() == 0 && t.range is None {
        scalar_named(t.name.node@)
    } else {
        None
    }
}

/// A callee `T.V` where `T` names one of the known enums.
pub open spec fn names_enum_ctor(callee: Expr, enums: Seq<(String, EnumInfo)>) -> bool {
    callee.kind matches ExprKind::Member { base, .. } && (base.kind matches ExprKind::Ident(ty) && exists|j: int|
        0 <= j < enums.len() && (#[trigger] enums[j]).0@ == ty.node@)
}

/// An expression built from literals by unary and binary operators alone.
pub open spec fn closed_literal(e: Expr) -> bool
    decreases e,
{
    match e.kind {
        ExprKind::IntLit(_) | ExprKind::StringLit(_) => true,
        ExprKind::Unary { expr, .. } => closed_literal(*expr),
        ExprKind::Binary { left, right, .. } => closed_literal(*left) && closed_literal(*right),
        _ => false,
    }
}

/// The type of an expression built from literals, when it is well typed: an
/// integer literal fits in `u32` and has itself as its range, `-` takes a
/// `u32`, `!` a `bool`, arithmetic two `u32`s (the result's range following
/// the operands' ranges), comparison two `u32`s, and `&&`, `||` two `bool`s.
pub open spec fn literal_expr_type(e: Expr) -> Option<TypeModel>
    decreases e,
{
    match e.kind {
        ExprKind::IntLit(n) => if n <= crate::sema::U32_MAX {
            Some(TypeModel::ConstrainedRange { base: Box::new(TypeModel::U32), lo: n, hi: n })
        } else {
            None
        },
        ExprKind::StringLit(_) => Some(TypeModel::String),
        ExprKind::Unary { op, expr } => match literal_expr_type(*expr) {
            Some(t) => match op {
                UnaryOp::Neg => if crate::sema::base_model(t) is U32 { Some(TypeModel::U32) } else { None },
                UnaryOp::Not => if t is Bool { Some(TypeModel::Bool) } else { None },
            },
            None => None,
        },
        ExprKind::Binary { left, op, right } => match (literal_expr_type(*left), literal_expr_type(*right)) {
            (Some(lt), Some(rt)) => match op {
                BinOp::Add | BinOp::Sub | BinOp::Mul | BinOp::Div => if crate::sema::base_model(lt) is U32
                    && crate::sema::base_model(rt) is U32 {
                    Some(crate::sema::binop_range(op, lt, rt))
                } else {
                    None
                },
                BinOp::And | BinOp::Or => if lt is Bool && rt is Bool { Some(TypeModel::Bool) } else { None },
                _ => if crate::sema::base_model(lt) is U32 && crate::sema::base_model(rt) is U32 {
                    Some(TypeModel::Bool)
                } else {
                    None
                },
            },
            _ => None,
        },
        _ => None,
    }
}

/// An expression built from literals and names by unary and binary
/// operators alone.
pub open spec fn closed_term(e: Expr) -> bool
    decreases e,
{
    match e.kind {
        ExprKind::IntLit(_) | ExprKind::StringLit(_) | ExprKind::Ident(_) => true,
        ExprKind::Unary { expr, .. } => closed_term(*expr),
        ExprKind::Binary { left, right, .. } => closed_term(*left) && closed_term(*right),
        _ => false,
    }
}

/// The type of a unary operation on an operand of type `t`, when it is well
/// typed.
pub open spec fn unary_type(op: UnaryOp, t: TypeModel) -> Option<TypeModel> {
    match op {
        UnaryOp::Neg => if crate::sema::base_model(t) is U32 { Some(TypeModel::U32) } else { None },
        UnaryOp::Not => if t is Bool { Some(TypeModel::Bool) } else { None },
    }
}

/// The type of a binary operation on operands of types `lt` and `rt`, when
/// it is well typed.
pub open spec fn binary_type(op: BinOp, lt: TypeModel, rt: TypeModel) -> Option<TypeModel> {
    match op {
        BinOp::Add | BinOp::Sub | BinOp::Mul | BinOp::Div => if crate::sema::base_model(lt) is U32
            && crate::sema::base_model(rt) is U32 {
            Some(crate::sema::binop_range(op, lt, rt))
        } else {
            None
        },
        BinOp::And | BinOp::Or => if lt is Bool && rt is Bool { Some(TypeModel::Bool) } else { None },
        _ => if crate::sema::base_model(lt) is U32 && crate::sema::base_model(rt) is U32 {
            Some(TypeModel::Bool)
        } else {
            None
        },
    }
}

/// An expression of literals and names, each name bound in `env`.
pub open spec fn names_local(env: Seq<(Seq<char>, TypeModel)>, e: Expr) -> bool
    decreases e,
{
    match e.kind {
        ExprKind::IntLit(_) | ExprKind::StringLit(_) => true,
        ExprKind::Ident(id) => latest(env, id.node@) is Some,
        ExprKind::Unary { expr, .. } => names_local(env, *expr),
        ExprKind::Binary { left, right, .. } => names_local(env, *left) && names_local(env, *right),
        _ => false,
    }
}

/// The type of an expression of literals and names, each name having the
/// type `env` gives it last.
pub open spec fn local_term_type(env: Seq<(Seq<char>, TypeModel)>, e: Expr) -> Option<TypeModel>
    decreases e,
{
    match e.kind {
        ExprKind::Ident(id) => latest(env, id.node@),
        ExprKind::Unary { op, expr } => match local_term_type(env, *expr) {
            Some(t) => unary_type(op, t),
            None => None,
        },
        ExprKind::Binary { left, op, right } => match (local_term_type(env, *left), local_term_type(env, *right)) {
            (Some(lt), Some(rt)) => binary_type(op, lt, rt),
            _ => None,
        },
        _ => literal_expr_type(e),
    }
}

/// Whether a statement over an expression of names from `env` checks, for
/// the statements that hold one: an expression or `prop` that is well
/// typed, or a `requires`, `ensures`, `assert` or `assume` of a `bool`.
pub open spec fn local_term_stmt(env: Seq<(Seq<char>, TypeModel)>, s: Stmt) -> Option<bool> {
    match s {
        Stmt::ExprStmt(x) => if names_local(env, x) { Some(local_term_type(env, x) is Some) } else { None },
        Stmt::Prop(p) => if names_local(env, p.expr) { Some(local_term_type(env, p.expr) is Some) } else { None },
        Stmt::Requires(x) => if names_local(env, x.expr) {
            Some(local_term_type(env, x.expr) == Some(TypeModel::Bool))
        } else {
            None
        },
        Stmt::Ensures(x) => if names_local(env, x.expr) {
            Some(local_term_type(env, x.expr) == Some(TypeModel::Bool))
        } else {
            None
        },
        Stmt::Assert(x) => if names_local(env, x.expr) {
            Some(local_term_type(env, x.expr) == Some(TypeModel::Bool))
        } else {
            None
        },
        Stmt::Assume(x) => if names_local(env, x.expr) {
            Some(local_term_type(env, x.expr) == Some(TypeModel::Bool))
        } else {
            None
        },
        _ => None,
    }
}

/// For a `val` whose expression uses only names of `env`: `None` when
/// refused (its name bound in `env` already, an ill-typed expression, or a
/// value that does not fit the written built-in type), else the type its
/// name gets. Outside the fragment (a `where`, a bare name, another written
/// type): no answer.
pub open spec fn local_strand_in(env: Seq<(Seq<char>, TypeModel)>, sd: crate::ast::StrandDef, defer: bool) -> Option<
    Option<TypeModel>,
> {
    if !(sd.where_clause is None && names_local(env, sd.expr) && !(sd.expr.kind is Ident)) {
        None
    } else {
        match sd.ty {
            None => Some(if latest(env, sd.name.node@) is Some { None } else { local_term_type(env, sd.expr) }),
            Some(annot) => match written_scalar(annot) {
                None => None,
                Some(b) => Some(
                    if latest(env, sd.name.node@) is None && (local_term_type(env, sd.expr) matches Some(a)
                        && crate::sema::assign_error(defer, b, a, sd.expr) is None) {
                        Some(b)
                    } else {
                        None
                    },
                ),
            },
        }
    }
}

/// Whether the statements check one after the other, starting with the
/// names of `env` bound and no other name of theirs bound: each statement
/// over names it can see, and each `val` adding its name. `None` when a
/// statement outside this fragment is reached before any is refused.
pub open spec fn local_block(stmts: Seq<Stmt>, env: Seq<(Seq<char>, TypeModel)>, defer: bool) -> Option<bool>
    decreases stmts.len(),
{
    if stmts.len() == 0 {
        Some(true)
    } else {
        match stmts[0] {
            Stmt::StrandDef(sd) => match local_strand_in(env, sd, defer) {
                None => None,
                Some(None) => Some(false),
                Some(Some(t)) => local_block(stmts.drop_first(), env.push((sd.name.node@, t)), defer),
            },
            s => match local_term_stmt(env, s) {
                None => None,
                Some(false) => Some(false),
                Some(true) => local_block(stmts.drop_first(), env, defer),
            },
        }
    }
}

/// A string literal, or an integer literal that fits in `u32`.
pub open spec fn literal_in_range(e: Expr) -> bool {
    match e.kind {
        ExprKind::StringLit(_) => true,
        ExprKind::IntLit(n) => n <= crate::sema::U32_MAX,
        _ => false,
    }
}

/// What the type of an expression is, by the form of the expression alone.
pub open spec fn result_shape(e: Expr, t: TypeModel) -> bool {
    match e.kind {
        ExprKind::IntLit(n) => t == TypeModel::ConstrainedRange { base: Box::new(TypeModel::U32), lo: n, hi: n },
        ExprKind::StringLit(_) => t is String,
        ExprKind::StyleLit { .. } => t is Style,
        ExprKind::Unary { op, .. } => match op {
            UnaryOp::Neg => t is U32,
            UnaryOp::Not => t is Bool,
        },
        ExprKind::Binary { op, .. } => match op {
            BinOp::Add | BinOp::Sub | BinOp::Mul | BinOp::Div => crate::sema::base_model(t) is U32,
            _ => t is Bool,
        },
        ExprKind::ForAll { .. } | ExprKind::Exists { .. } => t is Bool,
        ExprKind::Lambda { .. } => t is Unknown,
        _ => true,
    }
}

proof fn lemma_call_arg_smaller(e: Expr, k: int)
    requires
        e.kind is Call,
        0 <= k < e.kind->args.len(),
    ensures
        decreases_to!(e => crate::sema::arg_value(e.kind->args@[k])),
{
    let args = e.kind->args;
    assert(decreases_to!(e => e.kind));
    assert(decreases_to!(e.kind => args));
    assert(decreases_to!(args => args@));
    assert(decreases_to!(args@ => args@[k]));
    match args@[k] {
        CallArg::Positional(x) => {
            assert(decreases_to!(args@[k] => x));
        },
        CallArg::Named { name, value } => {
            assert(decreases_to!(args@[k] => value));
        },
    }
}

proof fn lemma_receiver_smaller(e: Expr)
    requires
        e.kind is Call,
        e.kind->callee.kind is Member,
    ensures
        decreases_to!(e => *e.kind->callee.kind->base),
{
    let c = *e.kind->callee;
    assert(decreases_to!(e => e.kind));
    assert(decreases_to!(e.kind => e.kind->callee));
    assert(decreases_to!(c => c.kind));
    assert(decreases_to!(c.kind => c.kind->base));
}

/// The ways a call names what it calls: a tensor method `.len`, `.get` or
/// `.set` on a receiver, `.infer` on a receiver, or a plain name.
pub enum CallForm {
    TensorMethod,
    Infer,
    Plain,
}

/// Whether an expression is the bare name `m`.
pub open spec fn names_module(base: Expr, m: Seq<char>) -> bool {
    base.kind matches ExprKind::Ident(id) && id.node@ == m
}

/// The way a call names what it calls: `.len`, `.get` or `.set` on
/// anything but the module `tensor` is a tensor method, `.infer` on
/// anything but the module `ai` is an inference; all else is a plain call.
pub open spec fn call_form_of(callee: Expr) -> CallForm {
    match callee.kind {
        ExprKind::Member { base, member } => if (member.node@ == "len"@ || member.node@ == "get"@ || member.node@
            == "set"@) && !names_module(*base, "tensor"@) {
            CallForm::TensorMethod
        } else if member.node@ == "infer"@ && !names_module(*base, "ai"@) {
            CallForm::Infer
        } else {
            CallForm::Plain
        },
        _ => CallForm::Plain,
    }
}

fn call_form(callee: &Expr) -> (r: CallForm)
    ensures
        r == call_form_of(*callee),
        !(r is Plain) ==> callee.kind is Member,
{
    match &callee.kind {
        ExprKind::Member { base, member } => {
            let m = member.node.as_str();
            let on_module = |module: &str| -> (b: bool)
                ensures
                    b == names_module(**base, module@),
                {
                    match &base.kind {
                        ExprKind::Ident(id) => str_eq(id.node.as_str(), module),
                        _ => false,
                    }
                };
            if (str_eq(m, "len") || str_eq(m, "get") || str_eq(m, "set")) && !on_module("tensor") {
                CallForm::TensorMethod
            } else if str_eq(m, "infer") && !on_module("ai") {
                CallForm::Infer
            } else {
                CallForm::Plain
            }
        },
        _ => CallForm::Plain,
    }
}

/// `arg i: ` before the message of an error about the argument at `i`.
fn arg_error(i: u64, e: SemanticError) -> (r: SemanticError)
    ensures
        r.span == e.span,
        r.message@ == "arg "@ + crate::text::nat_decimal(i as nat) + ": "@ + e.message@,
{
    let mut m = String::from_str("arg ");
    crate::ownership_enforcement::append_decimal(&mut m, i);
    m.append(": ");
    m.append(e.message.as_str());
    SemanticError { message: m, span: e.span }
}

impl Checker {
    fn assignable(&self, expected: &Type, actual: &Type, rhs: &Expr) -> (r: Result<(), SemanticError>)
        ensures
            match crate::sema::assign_error(self.defer_range_proofs, expected@, actual@, *rhs) {
                None => r is Ok,
                Some(m) => r matches Err(e) && e.message@ == m && e.span == rhs.span,
            },
    {
        crate::sema::check_assignable(self.defer_range_proofs, &self.verifier, expected, actual, rhs)
    }

    /// The type of an expression (`infer_expr`), checking it and the moves
    /// and capabilities it implies.
    fn infer_expr(&mut self, expr: &Expr) -> (r: Result<Type, SemanticError>)
        requires
            old(self).wf(),
        ensures
            final(self).kept(old(self)),
            r is Ok ==> final(self).depth() == old(self).depth(),
            r matches Ok(t) ==> result_shape(*expr, t@),
            match expr.kind {
                ExprKind::IntLit(n) => n > crate::sema::U32_MAX ==> (r matches Err(e) && e.message@
                    == literal_too_big_message() && e.span == expr.span),
                _ => true,
            },
            literal_in_range(*expr) ==> (r matches Ok(t) && t@ == literal_type(*expr) && *final(self) == *old(self)),
            closed_literal(*expr) ==> {
                &&& *final(self) == *old(self)
                &&& match literal_expr_type(*expr) {
                    Some(t) => r matches Ok(u) && u@ == t,
                    None => r is Err,
                }
            },
            (closed_term(*expr) && old(self).async_lambda_bases.len() == 0) ==> {
                &&& *final(self) == *old(self)
                &&& match old(self).term_type(*expr) {
                    Some(t) => r matches Ok(u) && u@ == t,
                    None => r is Err,
                }
            },
            expr.kind matches ExprKind::Ident(id) ==> {
                let own = old(self).ownership(id.node@);
                &&& *final(self) == *old(self)
                &&& r matches Ok(u) ==> old(self).binding(id.node@) == Some(u@)
                &&& old(self).async_lambda_bases.len() == 0 ==> match old(self).binding(id.node@) {
                    None => r matches Err(e) && e.span == id.span && e.message@ == "unknown identifier '"@
                        + id.node@ + "'"@,
                    Some(t) => {
                        &&& r is Ok <==> (!(non_copy(t) && (own == OwnershipState::Consumed || own
                            == OwnershipState::Returned)) && crate::capability::alive_check(old(self).cap@, id.node@)
                            is Ok)
                        &&& (non_copy(t) && own == OwnershipState::Consumed) ==> (r matches Err(e) && e.message@
                            == used_after_move_message(id.node@) && e.span == id.span)
                    },
                }
            },
        decreases expr, 3int,
    {
        match &expr.kind {
            ExprKind::IntLit(n) => {
                if *n > crate::sema::U32_MAX {
                    return Err(err(String::from_str("integer literal out of range for u32 (max=4294967295)"), expr.span));
                }
                let t = Type::ConstrainedRange { base: Box::new(Type::U32), lo: *n, hi: *n };
                proof {
                    reveal_with_fuel(crate::types::type_model, 2);
                }
                Ok(t)
            },
            ExprKind::StringLit(_) => Ok(Type::String),
            ExprKind::StyleLit { fields } => {
                let mut k: usize = 0;
                proof {
                    assert(decreases_to!(*expr => fields));
                }
                while k < fields.len()
                    invariant
                        expr.kind is StyleLit,
                        decreases_to!(*expr => fields),
                        self.kept(old(self)),
                        self.depth() == old(self).depth(),
                    decreases fields.len() - k,
                {
                    proof {
                        assert(decreases_to!(*expr => fields@[k as int]));
                        assert(decreases_to!(*expr => fields@[k as int].1));
                    }
                    let v = &fields[k].1;
                    let t = self.infer_expr(v)?;
                    let ok = match base_type(&t) {
                        Type::U32 | Type::Bool | Type::String | Type::Style => true,
                        _ => false,
                    };
                    if !ok {
                        let shown = t.display();
                        return Err(
                            err(
                                text3("style field values must be scalar (u32/bool/String/Style), got ", shown.as_str(), ""),
                                v.span,
                            ),
                        );
                    }
                    k = k + 1;
                }
                Ok(Type::Style)
            },
            ExprKind::RecordLit { .. } => self.infer_record_lit(expr),
            ExprKind::Ident(id) => {
                self.check_async_capture(id.node.as_str(), id.span)?;
                let ty = match self.lookup_val(id.node.as_str()) {
                    Some(t) => t,
                    None => {
                        return Err(err(text3("unknown identifier '", id.node.as_str(), "'"), id.span));
                    },
                };
                self.enforce_linear_use(id.node.as_str(), &ty, id.span)?;
                let _ = self.cap.ensure_alive(id.node.as_str(), id.span)?;
                Ok(ty)
            },
            ExprKind::Unary { op, expr: inner } => {
                let t = self.infer_expr(inner)?;
                match op {
                    UnaryOp::Neg => {
                        if !crate::sema::is_u32_like(&t) {
                            let shown = t.display();
                            return Err(err(text3("unary '-' expects u32, got ", shown.as_str(), ""), inner.span));
                        }
                        Ok(Type::U32)
                    },
                    UnaryOp::Not => {
                        if !matches!(t, Type::Bool) {
                            let shown = t.display();
                            return Err(err(text3("unary '!' expects bool, got ", shown.as_str(), ""), inner.span));
                        }
                        Ok(Type::Bool)
                    },
                }
            },
            ExprKind::Binary { left, op, right } => {
                let lt = self.infer_expr(left)?;
                let rt = self.infer_expr(right)?;
                match op {
                    BinOp::Add | BinOp::Sub | BinOp::Mul | BinOp::Div => {
                        if !crate::sema::is_u32_like(&lt) || !crate::sema::is_u32_like(&rt) {
                            let a = lt.display();
                            let b = rt.display();
                            return Err(err(text5("arithmetic op expects u32,u32; got ", a.as_str(), ",", b.as_str(), ""), expr.span));
                        }
                        let inferred = crate::sema::infer_u32_range_binop(op, &lt, &rt);
                        proof {
                            reveal_with_fuel(crate::sema::base_model, 2);
                        }
                        Ok(inferred)
                    },
                    BinOp::Eq | BinOp::Ne | BinOp::Lt | BinOp::Gt | BinOp::Le | BinOp::Ge => {
                        if !crate::sema::is_u32_like(&lt) || !crate::sema::is_u32_like(&rt) {
                            let a = lt.display();
                            let b = rt.display();
                            return Err(err(text5("comparison op expects u32,u32; got ", a.as_str(), ",", b.as_str(), ""), expr.span));
                        }
                        Ok(Type::Bool)
                    },
                    BinOp::And | BinOp::Or => {
                        if !matches!(lt, Type::Bool) || !matches!(rt, Type::Bool) {
                            let a = lt.display();
                            let b = rt.display();
                            return Err(err(text5("boolean op expects bool,bool; got ", a.as_str(), ",", b.as_str(), ""), expr.span));
                        }
                        Ok(Type::Bool)
                    },
                }
            },
            ExprKind::Member { .. } => self.infer_member(expr),
            ExprKind::Call { .. } => self.infer_call(expr),
            ExprKind::ForAll { binders, body } | ExprKind::Exists { binders, body } => {
                self.push_scope();
                let mut k: usize = 0;
                while k < binders.len()
                    invariant
                        expr.kind is ForAll || expr.kind is Exists,
                        self.kept(old(self)),
                        self.depth() == old(self).depth() + 1,
                    decreases binders.len() - k,
                {
                    let b = &binders[k];
                    let ty = match &b.ty {
                        Some(tr) => self.resolve_type_ref(&syntax_of(tr), alias_fuel())?,
                        None => Type::U32,
                    };
                    self.define_val(&b.name, ty, false)?;
                    k = k + 1;
                }
                let body_ty = self.infer_expr(body)?;
                self.pop_scope();
                if !matches!(body_ty, Type::Bool) {
                    let shown = body_ty.display();
                    return Err(err(text3("quantifier body must be bool, got ", shown.as_str(), ""), body.span));
                }
                Ok(Type::Bool)
            },
            ExprKind::Lambda { op, body } => {
                if *op == FlowOp::Async {
                    let depth = self.scopes.len();
                    self.async_lambda_bases.push(depth);
                    let _ = self.check_block(body)?;
                    let _ = self.async_lambda_bases.pop();
                } else {
                    let _ = self.check_block(body)?;
                }
                Ok(Type::Unknown)
            },
            ExprKind::Flow { .. } => self.infer_flow(expr),
        }
    }
}


impl Checker {
    /// A record literal: every given field is known and fits, every field
    /// left out has a default; a generic record takes the type arguments
    /// the field values show.
    fn infer_record_lit(&mut self, expr: &Expr) -> (r: Result<Type, SemanticError>)
        requires
            old(self).wf(),
            expr.kind is RecordLit,
        ensures
            final(self).kept(old(self)),
            r is Ok ==> final(self).depth() == old(self).depth(),
            expr.kind matches ExprKind::RecordLit { name, .. } ==> {
                &&& (forall|j: int|
                    0 <= j < old(self).record_defs@.len() ==> (#[trigger] old(self).record_defs@[j]).0@ != name.node@)
                    ==> (r matches Err(e) && e.span == name.span && e.message@ == "unknown record type '"@
                    + name.node@ + "'"@)
                &&& r matches Ok(t) ==> (t@ == TypeModel::Named(name.node@) || (t@ matches TypeModel::Applied {
                    name: n,
                    ..
                } && n == name.node@))
            },
        decreases expr, 2int,
    {
        let (name, fields) = match &expr.kind {
            ExprKind::RecordLit { name, fields } => (name, fields),
            _ => return Err(err(String::new(), expr.span)),
        };
        proof {
            assert(decreases_to!(*expr => expr.kind));
            assert(decreases_to!(*expr => *fields));
        }
        let def = match find_last(&self.record_defs, name.node.as_str()) {
            Some(i) => {
                assert(exists|j: int|
                    0 <= j < old(self).record_defs@.len() && (#[trigger] old(self).record_defs@[j]).0@ == name.node@)
                    by {
                    assert(old(self).record_defs@[i as int].0@ == name.node@);
                }
                self.record_defs[i].1.copied()
            },
            None => {
                return Err(err(text3("unknown record type '", name.node.as_str(), "'"), name.span));
            },
        };
        let param_subst = if def.params.len() == 0 {
            Vec::new()
        } else {
            self.infer_type_args_from_record_literal(&def, fields, Ghost(*expr))?
        };
        // The fields still expected: their positions in `def.fields`.
        let mut expected: Vec<usize> = Vec::new();
        let mut f: usize = 0;
        while f < def.fields.len()
            invariant
                f <= def.fields.len(),
                forall|i: int| 0 <= i < expected.len() ==> #[trigger] expected@[i] < def.fields.len(),
            decreases def.fields.len() - f,
        {
            expected.push(f);
            f = f + 1;
        }
        let mut k: usize = 0;
        while k < fields.len()
            invariant
                decreases_to!(*expr => *fields),
                self.kept(old(self)),
                self.depth() == old(self).depth(),
                forall|i: int| 0 <= i < expected.len() ==> #[trigger] expected@[i] < def.fields.len(),
                exists|j: int|
                    0 <= j < old(self).record_defs@.len() && (#[trigger] old(self).record_defs@[j]).0@ == name.node@,
                expr.kind matches ExprKind::RecordLit { name: n, .. } && n == *name,
            decreases fields.len() - k,
        {
            proof {
                assert(decreases_to!(*expr => fields@[k as int]));
                assert(decreases_to!(*expr => fields@[k as int].1));
            }
            let key = &fields[k].0;
            let v = &fields[k].1;
            let mut pos: usize = 0;
            while pos < expected.len() && !str_eq(def.fields[expected[pos]].name.as_str(), key.node.as_str())
                invariant
                    pos <= expected.len(),
                    forall|i: int| 0 <= i < expected.len() ==> #[trigger] expected@[i] < def.fields.len(),
                decreases expected.len() - pos,
            {
                pos = pos + 1;
            }
            if pos >= expected.len() {
                return Err(
                    err(text5("unknown field '", key.node.as_str(), "' for record '", name.node.as_str(), "'"), key.span),
                );
            }
            let fd = &def.fields[expected[pos]];
            let expected_ty = if def.params.len() == 0 {
                self.resolve_type_ref(&fd.ty, alias_fuel())?
            } else {
                self.resolve_with_params(&fd.ty, &param_subst, alias_fuel())?
            };
            let actual_ty = self.infer_expr(v)?;
            if let ExprKind::Ident(src) = &v.kind {
                if is_non_copy_type(&actual_ty) {
                    self.consume_move_from_value(src.node.as_str(), src.span)?;
                }
            }
            self.assignable(&expected_ty, &actual_ty, v)?;
            expected.remove(pos);
            k = k + 1;
        }
        let mut j: usize = 0;
        while j < expected.len()
            invariant
                self.kept(old(self)),
                self.depth() == old(self).depth(),
                forall|i: int| 0 <= i < expected.len() ==> #[trigger] expected@[i] < def.fields.len(),
                exists|j: int|
                    0 <= j < old(self).record_defs@.len() && (#[trigger] old(self).record_defs@[j]).0@ == name.node@,
                expr.kind matches ExprKind::RecordLit { name: n, .. } && n == *name,
            decreases expected.len() - j,
        {
            let fd = &def.fields[expected[j]];
            if !fd.has_default {
                return Err(
                    err(
                        text5("missing required field '", fd.name.as_str(), "' for record '", name.node.as_str(), "'"),
                        expr.span,
                    ),
                );
            }
            j = j + 1;
        }
        if def.params.len() == 0 {
            return Ok(Type::Named(name.node.clone()));
        }
        Ok(Type::Applied { name: name.node.clone(), args: inferred_args(&def.params, &param_subst) })
    }

    /// The type arguments of a generic record that the given field values
    /// show.
    fn infer_type_args_from_record_literal(
        &mut self,
        def: &RecordInfo,
        fields: &Vec<(Ident, Expr)>,
        Ghost(outer): Ghost<Expr>,
    ) -> (r: Result<Vec<(String, Type)>, SemanticError>)
        requires
            old(self).wf(),
            decreases_to!(outer => *fields),
        ensures
            final(self).kept(old(self)),
            r is Ok ==> final(self).depth() == old(self).depth(),
            r matches Ok(v) ==> keyed_by_params(v@, def.params@),
            fields.len() == 0 ==> (r matches Ok(v) && v.len() == 0),
        decreases outer, 0int,
    {
        let mut subst: Vec<(String, Type)> = Vec::new();
        let mut k: usize = 0;
        while k < fields.len()
            invariant
                decreases_to!(outer => *fields),
                self.kept(old(self)),
                self.depth() == old(self).depth(),
                k <= fields.len(),
                keyed_by_params(subst@, def.params@),
                k == 0 ==> subst.len() == 0,
            decreases fields.len() - k,
        {
            proof {
                assert(decreases_to!(outer => fields@[k as int]));
                assert(decreases_to!(outer => fields@[k as int].1));
            }
            let key = &fields[k].0;
            let mut f: usize = 0;
            while f < def.fields.len() && !str_eq(def.fields[f].name.as_str(), key.node.as_str())
                decreases def.fields.len() - f,
            {
                f = f + 1;
            }
            if f < def.fields.len() {
                let actual_ty = self.infer_expr(&fields[k].1)?;
                match self.unify_type_params(&def.fields[f].ty, &actual_ty, &def.params, &mut subst) {
                    Ok(()) => {},
                    Err(e) => {
                        let mut m = text3("field '", key.node.as_str(), "': ");
                        m.append(e.message.as_str());
                        return Err(err(m, e.span));
                    },
                }
            }
            k = k + 1;
        }
        Ok(subst)
    }

    /// The type arguments of a generic enum that the arguments of a
    /// constructor call show.
    fn infer_type_args_from_enum_ctor(
        &mut self,
        def: &EnumInfo,
        variant_name: &str,
        args: &Vec<CallArg>,
        Ghost(outer): Ghost<Expr>,
    ) -> (r: Result<Vec<(String, Type)>, SemanticError>)
        requires
            old(self).wf(),
            outer.kind is Call,
            outer.kind->args == *args,
        ensures
            final(self).kept(old(self)),
            r is Ok ==> final(self).depth() == old(self).depth(),
            r matches Ok(v) ==> keyed_by_params(v@, def.params@),
            (forall|j: int| 0 <= j < def.variants.len() ==> (#[trigger] def.variants@[j]).name@ != variant_name@)
                ==> (r matches Err(e) && e.span == def.span && e.message@ == "unknown variant '"@ + variant_name@
                + "' for enum '"@ + def.name@ + "'"@),
            (args.len() == 0 && exists|j: int|
                0 <= j < def.variants.len() && (#[trigger] def.variants@[j]).name@ == variant_name@) ==> (r matches Ok(
                v,
            ) && v.len() == 0),
        decreases outer, 0int,
    {
        let mut subst: Vec<(String, Type)> = Vec::new();
        let vi = match variant_index(&def.variants, variant_name) {
            Some(i) => i,
            None => {
                return Err(
                    err(text5("unknown variant '", variant_name, "' for enum '", def.name.as_str(), "'"), def.span),
                );
            },
        };
        let fields = &def.variants[vi].fields;
        let mut k: usize = 0;
        while k < fields.len() && k < args.len()
            invariant
                outer.kind is Call,
                outer.kind->args == *args,
                self.kept(old(self)),
                self.depth() == old(self).depth(),
                keyed_by_params(subst@, def.params@),
                args.len() == 0 ==> subst.len() == 0,
                vi < def.variants.len() && def.variants@[vi as int].name@ == variant_name@,
            decreases args.len() - k,
        {
            proof {
                lemma_call_arg_smaller(outer, k as int);
            }
            let actual_ty = self.infer_expr(crate::sema::call_arg_value(&args[k]))?;
            self.unify_type_params(&fields[k], &actual_ty, &def.params, &mut subst)?;
            k = k + 1;
        }
        Ok(subst)
    }

    /// A member of a record value has the type of that field; any other
    /// member is a name resolved where it is called.
    fn infer_member(&mut self, expr: &Expr) -> (r: Result<Type, SemanticError>)
        requires
            old(self).wf(),
            expr.kind is Member,
        ensures
            final(self).kept(old(self)),
            r is Ok ==> final(self).depth() == old(self).depth(),
            expr.kind matches ExprKind::Member { base, member } ==> (literal_in_range(*base) ==> (r matches Ok(t)
                && t@ == TypeModel::Named(member.node@))),
        decreases expr, 2int,
    {
        let (base, member) = match &expr.kind {
            ExprKind::Member { base, member } => (base, member),
            _ => return Err(err(String::new(), expr.span)),
        };
        let base_ty = self.infer_expr(base)?;
        proof {
            if literal_in_range(**base) {
                reveal_with_fuel(crate::sema::base_model, 2);
                assert(crate::sema::base_model(base_ty@) is U32 || crate::sema::base_model(base_ty@) is String);
            }
        }
        let (rec_name, args): (&String, Option<&Vec<Type>>) = match base_type(&base_ty) {
            Type::Applied { name, args } => (name, Some(args)),
            Type::Named(n) => (n, None),
            _ => return Ok(Type::Named(member.node.clone())),
        };
        let di = match find_last(&self.record_defs, rec_name.as_str()) {
            Some(i) => i,
            None => return Ok(Type::Named(member.node.clone())),
        };
        let def = &self.record_defs[di].1;
        let mut f: usize = 0;
        while f < def.fields.len() && !str_eq(def.fields[f].name.as_str(), member.node.as_str())
            decreases def.fields.len() - f,
        {
            f = f + 1;
        }
        if f >= def.fields.len() {
            return Err(
                err(text5("unknown field '", member.node.as_str(), "' for record '", rec_name.as_str(), "'"), member.span),
            );
        }
        if def.params.len() == 0 {
            return self.resolve_type_ref(&def.fields[f].ty, alias_fuel());
        }
        let subst = param_bindings(&def.params, args);
        self.resolve_with_params(&def.fields[f].ty, &subst, alias_fuel())
    }
}

/// The type parameters of a definition bound to the given arguments, in
/// order, as far as both go.
fn param_bindings(params: &Vec<ParamDef>, args: Option<&Vec<Type>>) -> (r: Vec<(String, Type)>)
    ensures
        match args {
            Some(a) => r.len() == (if params.len() < a.len() { params.len() } else { a.len() }) && forall|k: int|
                0 <= k < r.len() ==> (#[trigger] r@[k]).0@ == params@[k].name@ && r@[k].1@ == a@[k]@,
            None => r.len() == 0,
        },
{
    let mut subst: Vec<(String, Type)> = Vec::new();
    if let Some(a) = args {
        let mut k: usize = 0;
        while k < params.len() && k < a.len()
            invariant
                k <= params.len(),
                k <= a.len(),
                subst.len() == k,
                forall|j: int| 0 <= j < k ==> (#[trigger] subst@[j]).0@ == params@[j].name@ && subst@[j].1@ == a@[j]@,
            decreases params.len() - k,
        {
            subst.push((params[k].name.clone(), a[k].copied()));
            k = k + 1;
        }
    }
    subst
}

/// The arguments of a generic definition: what inference found for each
/// parameter, else `Unknown`.
fn inferred_args(params: &Vec<ParamDef>, subst: &Vec<(String, Type)>) -> (r: Vec<Type>)
    ensures
        r.len() == params.len(),
{
    let mut out: Vec<Type> = Vec::new();
    let mut k: usize = 0;
    while k < params.len()
        invariant
            k <= params.len(),
            out.len() == k,
        decreases params.len() - k,
    {
        let t = match find_last(subst, params[k].name.as_str()) {
            Some(i) => subst[i].1.copied(),
            None => Type::Unknown,
        };
        out.push(t);
        k = k + 1;
    }
    out
}


/// The argument at position `j` of a call as the signature sees it: the
/// receiver first where there is one, then the arguments at the given
/// positions.
fn nth_arg<'a>(e: &'a Expr, recv: bool, idxs: &Vec<usize>, j: usize) -> (r: &'a Expr)
    requires
        e.kind is Call,
        recv ==> e.kind->callee.kind is Member,
        forall|i: int| 0 <= i < idxs.len() ==> #[trigger] idxs@[i] < e.kind->args.len(),
        j < idxs.len() + (if recv { 1int } else { 0int }),
    ensures
        decreases_to!(*e => *r),
{
    match &e.kind {
        ExprKind::Call { callee, args, .. } => {
            if recv && j == 0 {
                match &callee.kind {
                    ExprKind::Member { base, .. } => {
                        proof {
                            lemma_receiver_smaller(*e);
                        }
                        base
                    },
                    _ => e,
                }
            } else {
                let p = if recv {
                    idxs[j - 1]
                } else {
                    idxs[j]
                };
                proof {
                    lemma_call_arg_smaller(*e, p as int);
                }
                crate::sema::call_arg_value(&args[p])
            }
        },
        _ => e,
    }
}

impl Checker {
    /// The capability side of passing the non-copy value `src` to the
    /// function `name`: a read or write borrow for the tensor built-ins
    /// (a write only from a mutable binding), else a move.
    fn pass_value(&mut self, name: &str, src: &Ident, at: Span) -> (r: Result<(), SemanticError>)
        requires
            old(self).wf(),
        ensures
            final(self).kept(old(self)),
            final(self).depth() == old(self).depth(),
            ({
                let alive = crate::capability::alive_check(old(self).cap@, src.node@);
                let mutable = exists|i: int, j: int|
                    0 <= i < old(self).mut_scopes.len() && 0 <= j < old(self).mut_scopes@[i]@.len() && (
                    #[trigger] old(self).mut_scopes@[i]@[j])@ == src.node@;
                if reads_receiver(name@) {
                    r is Ok <==> alive is Ok
                } else if writes_receiver(name@) {
                    &&& !mutable ==> (r matches Err(e) && e.span == src.span && e.message@
                        == "cannot pass immutable val '"@ + src.node@ + "' as mutable tensor receiver"@)
                    &&& mutable ==> (r is Ok <==> alive is Ok)
                } else {
                    old(self).binding(src.node@) is Some && old(self).ownership(src.node@)
                        == OwnershipState::Consumed ==> (r matches Err(e) && e.message@ == used_after_move_message(
                        src.node@,
                    ))
                }
            }),
    {
        if str_eq(name, "tensor.len") || str_eq(name, "tensor.get") || str_eq(name, "collections.vector_len")
            || str_eq(name, "collections.vector_get") {
            let from = self.cap.ensure_alive(src.node.as_str(), src.span)?;
            let to = self.fresh_cap(at);
            self.cap.lend_read(from, to, at);
            Ok(())
        } else if str_eq(name, "tensor.set") || str_eq(name, "collections.vector_set") {
            if !self.is_mutable(src.node.as_str()) {
                return Err(
                    err(
                        text3("cannot pass immutable val '", src.node.as_str(), "' as mutable tensor receiver"),
                        src.span,
                    ),
                );
            }
            let from = self.cap.ensure_alive(src.node.as_str(), src.span)?;
            let to = self.fresh_cap(at);
            self.cap.lend_write(from, to, at);
            Ok(())
        } else {
            self.consume_move_from_value(src.node.as_str(), src.span)
        }
    }

    /// The signature of a known function.
    fn signature_of(&self, name: &str) -> (r: Option<FnSig>)
        ensures
            match latest(self.functions_model(), name@) {
                Some(sig) => r matches Some(s) && s@ == sig,
                None => r is None,
            },
    {
        match find_last(&self.functions, name) {
            Some(i) => {
                proof {
                    lemma_latest_at(self.functions_model(), name@, i as int);
                }
                Some(self.functions[i].1.copied())
            },
            None => {
                proof {
                    lemma_latest_none(self.functions_model(), name@);
                }
                None
            },
        }
    }

    /// A call: an enum constructor, a tensor method, `infer` on a model, or
    /// a function; its arguments are checked against the signature, and
    /// non-copy values passed by name are borrowed or moved.
    fn infer_call(&mut self, expr: &Expr) -> (r: Result<Type, SemanticError>)
        requires
            old(self).wf(),
            expr.kind is Call,
        ensures
            final(self).kept(old(self)),
            r is Ok ==> final(self).depth() == old(self).depth(),
            expr.kind matches ExprKind::Call { callee, .. } ==> ((call_form_of(*callee) is Plain && !names_enum_ctor(
                *callee,
                old(self).enum_defs@,
            )) ==> (r matches Ok(t) ==> match latest(old(self).functions_model(), crate::sema::callee_name(*callee)) {
                Some(sig) => t@ == sig.ret,
                None => t@ is Unknown,
            })),
            expr.kind matches ExprKind::Call { callee, args, trailing } ==> ((call_form_of(*callee) is Plain
                && !names_enum_ctor(*callee, old(self).enum_defs@) && args.len() == 0 && trailing is None && (forall|j: int|
                0 <= j < old(self).extern_cells@.len() ==> (#[trigger] old(self).extern_cells@[j]).0@
                != crate::sema::callee_name(*callee)) && match latest(
                old(self).functions_model(),
                crate::sema::callee_name(*callee),
            ) {
                Some(sig) => sig.params.len() == 0,
                None => true,
            }) ==> r is Ok),
        decreases expr, 2int,
    {
        let (callee, args, trailing) = match &expr.kind {
            ExprKind::Call { callee, args, trailing } => (callee, args, trailing),
            _ => return Err(err(String::new(), expr.span)),
        };
        let ghost easy = call_form_of(**callee) is Plain && args.len() == 0 && match latest(
            old(self).functions_model(),
            crate::sema::callee_name(**callee),
        ) {
            Some(sig) => sig.params.len() == 0,
            None => true,
        };
        if let ExprKind::Member { base, member } = &callee.kind {
            if let ExprKind::Ident(ty_id) = &base.kind {
                if let Some(di) = find_last(&self.enum_defs, ty_id.node.as_str()) {
                    return self.infer_enum_ctor(expr, di);
                }
            }
        }
        let form = call_form(callee);
        let recv = !matches!(form, CallForm::Plain);
        let mut name = String::new();
        let mut idxs: Vec<usize> = Vec::new();
        match form {
            CallForm::TensorMethod | CallForm::Infer => {
                if let ExprKind::Member { base, member } = &callee.kind {
                    proof {
                        lemma_receiver_smaller(*expr);
                    }
                    let _recv_ty = self.infer_expr(base)?;
                    name = match form {
                        CallForm::TensorMethod => text3("tensor.", member.node.as_str(), ""),
                        _ => String::from_str("ai.infer"),
                    };
                }
                let mut k: usize = 0;
                while k < args.len()
                    invariant
                        k <= args.len(),
                        forall|i: int| 0 <= i < idxs.len() ==> #[trigger] idxs@[i] < args.len(),
                    decreases args.len() - k,
                {
                    idxs.push(k);
                    k = k + 1;
                }
            },
            CallForm::Plain => {
                name = crate::sema::expr_to_callee_name(callee);
                match self.signature_of(name.as_str()) {
                    Some(sig) => {
                        idxs = self.resolve_call_args_against_sig(expr.span, args, &sig)?;
                    },
                    None => {
                        let mut k: usize = 0;
                        while k < args.len()
                            invariant
                                k <= args.len(),
                                forall|i: int| 0 <= i < idxs.len() ==> #[trigger] idxs@[i] < args.len(),
                            decreases args.len() - k,
                        {
                            idxs.push(k);
                            k = k + 1;
                        }
                    },
                }
            },
        }
        if let Some(tb) = trailing {
            proof {
                assert(decreases_to!(*expr => expr.kind));
                assert(decreases_to!(*expr => **tb));
            }
            let _ = self.check_block(tb)?;
        }
        let sig = self.signature_of(name.as_str());
        if let Some(i) = find_last(&self.extern_cells, name.as_str()) {
            if !self.extern_cells[i].1 && self.unsafe_depth == 0 {
                return Err(
                    err(text3("calling extern cell '", name.as_str(), "' requires an unsafe block"), expr.span),
                );
            }
        }
        if recv {
            proof {
                lemma_receiver_smaller(*expr);
            }
            let _ = self.infer_expr(nth_arg(expr, recv, &idxs, 0))?;
        }
        let mut j: usize = 0;
        while j < idxs.len()
            invariant
                expr.kind is Call,
                expr.kind->args == *args,
                recv ==> expr.kind->callee.kind is Member,
                forall|i: int| 0 <= i < idxs.len() ==> #[trigger] idxs@[i] < expr.kind->args.len(),
                self.kept(old(self)),
                self.depth() == old(self).depth(),
            decreases idxs.len() - j,
        {
            proof {
                lemma_call_arg_smaller(*expr, idxs@[j as int] as int);
            }
            let a = crate::sema::call_arg_value(&args[idxs[j]]);
            let _ = self.infer_expr(a)?;
            j = j + 1;
        }
        let sig = match sig {
            Some(sig) => sig,
            None => return Ok(Type::Unknown),
        };
        let arity_ok = if recv {
            sig.params.len() >= 1 && sig.params.len() - 1 == idxs.len()
        } else {
            sig.params.len() == idxs.len()
        };
        if !arity_ok {
            let c = crate::text::u64_to_decimal(sig.params.len() as u64);
            let given: u64 = if recv { (idxs.len() as u64).saturating_add(1) } else { idxs.len() as u64 };
            let g = crate::text::u64_to_decimal(given);
            let mut m = text5("wrong number of arguments for '", name.as_str(), "': expected ", c.as_str(), ", got ");
            m.append(g.as_str());
            return Err(err(m, expr.span));
        }
        let mut i: usize = 0;
        proof {
            if easy {
                assert(sig.params@.len() == sig@.params.len());
            }
        }
        while i < sig.params.len()
            invariant
                easy ==> sig.params.len() == 0,
                easy == (call_form_of(*expr.kind->callee) is Plain && expr.kind->args.len() == 0 && match latest(
                    old(self).functions_model(),
                    crate::sema::callee_name(*expr.kind->callee),
                ) {
                    Some(sig) => sig.params.len() == 0,
                    None => true,
                }),
                expr.kind is Call,
                recv ==> expr.kind->callee.kind is Member,
                forall|t: int| 0 <= t < idxs.len() ==> #[trigger] idxs@[t] < expr.kind->args.len(),
                sig.params.len() == idxs.len() + (if recv { 1int } else { 0int }),
                self.kept(old(self)),
                self.depth() == old(self).depth(),
            decreases sig.params.len() - i,
        {
            let arg = nth_arg(expr, recv, &idxs, i);
            let actual = self.infer_expr(arg)?;
            match self.assignable(&sig.params[i].ty, &actual, arg) {
                Ok(()) => {},
                Err(e) => return Err(arg_error(i as u64, e)),
            }
            if let ExprKind::Ident(src) = &arg.kind {
                if is_non_copy_type(&actual) {
                    self.pass_value(name.as_str(), src, arg.span)?;
                }
            }
            i = i + 1;
        }
        Ok(sig.ret)
    }

    /// A call of an enum constructor `Type::Variant(...)`: as many
    /// positional arguments as the variant has fields, each fitting its
    /// field; non-copy values passed by name are moved.
    fn infer_enum_ctor(&mut self, expr: &Expr, di: usize) -> (r: Result<Type, SemanticError>)
        requires
            old(self).wf(),
            expr.kind is Call,
            di < old(self).enum_defs.len(),
        ensures
            final(self).kept(old(self)),
            r is Ok ==> final(self).depth() == old(self).depth(),
            expr.kind matches ExprKind::Call { callee, .. } ==> (callee.kind matches ExprKind::Member { base, member }
                ==> (base.kind matches ExprKind::Ident(ty) ==> {
                let vs = old(self).enum_defs@[di as int].1.variants@;
                &&& r matches Ok(t) ==> (t@ == TypeModel::Named(ty.node@) || (t@ matches TypeModel::Applied {
                    name: n,
                    ..
                } && n == ty.node@))
                &&& (forall|j: int| 0 <= j < vs.len() ==> (#[trigger] vs[j]).name@ != member.node@) ==> (r matches Err(
                    e,
                ) && e.span == member.span && e.message@ == "unknown variant '"@ + member.node@ + "' for enum '"@
                    + ty.node@ + "'"@)
                &&& (expr.kind->args.len() == 0 && expr.kind->trailing is None && old(self).enum_defs@[di as int].1.params.len()
                    == 0 && (exists|j: int| 0 <= j < vs.len() && (#[trigger] vs[j]).name@ == member.node@) && (forall|j: int|
                    0 <= j < vs.len() && (#[trigger] vs[j]).name@ == member.node@ ==> vs[j].fields.len() == 0)) ==> (r matches Ok(
                    t,
                ) && t@ == TypeModel::Named(ty.node@))
            })),
        decreases expr, 1int,
    {
        let (callee, args, trailing) = match &expr.kind {
            ExprKind::Call { callee, args, trailing } => (callee, args, trailing),
            _ => return Err(err(String::new(), expr.span)),
        };
        let (ty_name, member) = match &callee.kind {
            ExprKind::Member { base, member } => match &base.kind {
                ExprKind::Ident(id) => (id, member),
                _ => return Err(err(String::new(), expr.span)),
            },
            _ => return Err(err(String::new(), expr.span)),
        };
        let def = self.enum_defs[di].1.copied();
        let vi = match variant_index(&def.variants, member.node.as_str()) {
            Some(i) => i,
            None => {
                proof {
                    let vs = self.enum_defs@[di as int].1.variants@;
                    assert forall|j: int| 0 <= j < vs.len() implies (#[trigger] vs[j]).name@ != member.node@ by {
                        assert(def.variants@[j].name@ != member.node@);
                    }
                }
                return Err(
                    err(
                        text5("unknown variant '", member.node.as_str(), "' for enum '", ty_name.node.as_str(), "'"),
                        member.span,
                    ),
                );
            },
        };
        let nfields = def.variants[vi].fields.len();
        if args.len() != nfields {
            let c = crate::text::u64_to_decimal(nfields as u64);
            let g = crate::text::u64_to_decimal(args.len() as u64);
            let mut m = text5("wrong number of constructor args for '", ty_name.node.as_str(), "::", member.node.as_str(), "': expected ");
            m.append(c.as_str());
            m.append(", got ");
            m.append(g.as_str());
            return Err(err(m, expr.span));
        }
        let param_subst = if def.params.len() == 0 {
            Vec::new()
        } else {
            self.infer_type_args_from_enum_ctor(&def, member.node.as_str(), args, Ghost(*expr))?
        };
        let mut i: usize = 0;
        while i < nfields
            invariant
                expr.kind is Call,
                expr.kind->args == *args,
                args.len() == nfields,
                nfields == def.variants@[vi as int].fields.len(),
                vi < def.variants.len(),
                self.kept(old(self)),
                self.depth() == old(self).depth(),
                expr.kind->callee.kind matches ExprKind::Member { base, member: m } && m == *member && (base.kind matches ExprKind::Ident(
                    t,
                ) && t == *ty_name),
                di < old(self).enum_defs.len(),
                vi < old(self).enum_defs@[di as int].1.variants@.len(),
                old(self).enum_defs@[di as int].1.variants@[vi as int].name@ == member.node@,
            decreases nfields - i,
        {
            proof {
                lemma_call_arg_smaller(*expr, i as int);
            }
            let arg_expr = crate::sema::call_arg_value(&args[i]);
            let field = &def.variants[vi].fields[i];
            let expected_ty = if def.params.len() == 0 {
                self.resolve_type_ref(field, alias_fuel())?
            } else {
                self.resolve_with_params(field, &param_subst, alias_fuel())?
            };
            let actual_ty = self.infer_expr(arg_expr)?;
            match self.assignable(&expected_ty, &actual_ty, arg_expr) {
                Ok(()) => {},
                Err(e) => return Err(arg_error(i as u64, e)),
            }
            if let ExprKind::Ident(src) = &arg_expr.kind {
                if is_non_copy_type(&actual_ty) {
                    self.consume_move_from_value(src.node.as_str(), src.span)?;
                }
            }
            i = i + 1;
        }
        if trailing.is_some() {
            return Err(err(String::from_str("enum constructors do not accept trailing blocks"), expr.span));
        }
        if def.params.len() == 0 {
            return Ok(Type::Named(ty_name.node.clone()));
        }
        Ok(Type::Applied { name: ty_name.node.clone(), args: inferred_args(&def.params, &param_subst) })
    }

    /// A flow `left -> right`: the left value moves into the flow; where
    /// the right side is a call, the left value is its first argument.
    fn infer_flow(&mut self, expr: &Expr) -> (r: Result<Type, SemanticError>)
        requires
            old(self).wf(),
            expr.kind is Flow,
        ensures
            final(self).kept(old(self)),
            r is Ok ==> final(self).depth() == old(self).depth(),
            expr.kind matches ExprKind::Flow { right, .. } ==> match right.kind {
                ExprKind::Call { callee, .. } => call_form_of(*callee) is Plain ==> (r matches Ok(t) ==> match latest(
                    old(self).functions_model(),
                    crate::sema::callee_name(*callee),
                ) {
                    Some(sig) => t@ == sig.ret,
                    None => t@ is Unknown,
                }),
                _ => r matches Ok(t) ==> result_shape(*right, t@),
            },
            expr.kind matches ExprKind::Flow { left, right, .. } ==> ((literal_in_range(*left) && literal_in_range(
                *right,
            )) ==> (r matches Ok(t) && t@ == literal_type(*right))),
        decreases expr, 2int,
    {
        let (left, op, right) = match &expr.kind {
            ExprKind::Flow { left, op, right } => (left, *op, right),
            _ => return Err(err(String::new(), expr.span)),
        };
        proof {
            assert(decreases_to!(*expr => expr.kind));
            assert(decreases_to!(*expr => **right));
        }
        let left_ty = self.infer_expr(left)?;
        self.apply_flow_capabilities(left, right, op, expr.span)?;
        let (callee, args) = match &right.kind {
            ExprKind::Call { callee, args, .. } => (callee, args),
            _ => return self.infer_expr(right),
        };
        let form = call_form(callee);
        let recv = !matches!(form, CallForm::Plain);
        let name = match form {
            CallForm::TensorMethod => match &callee.kind {
                ExprKind::Member { member, .. } => text3("tensor.", member.node.as_str(), ""),
                _ => String::new(),
            },
            CallForm::Infer => String::from_str("ai.infer"),
            CallForm::Plain => crate::sema::expr_to_callee_name(callee),
        };
        let mut idxs: Vec<usize> = Vec::new();
        let mut k: usize = 0;
        while k < args.len()
            invariant
                k <= args.len(),
                forall|i: int| 0 <= i < idxs.len() ==> #[trigger] idxs@[i] < args.len(),
            decreases args.len() - k,
        {
            idxs.push(k);
            k = k + 1;
        }
        let sig = match self.signature_of(name.as_str()) {
            Some(sig) => sig,
            None => return Ok(Type::Unknown),
        };
        let arity_ok = if recv {
            sig.params.len() >= 2 && sig.params.len() - 2 == idxs.len()
        } else {
            sig.params.len() >= 1 && sig.params.len() - 1 == idxs.len()
        };
        if !arity_ok {
            let c = crate::text::u64_to_decimal(sig.params.len() as u64);
            let given: u64 = (idxs.len() as u64).saturating_add(if recv { 2 } else { 1 });
            let g = crate::text::u64_to_decimal(given);
            let mut m = text5("wrong number of arguments for '", name.as_str(), "': expected ", c.as_str(), ", got ");
            m.append(g.as_str());
            return Err(err(m, expr.span));
        }
        match self.assignable(&sig.params[0].ty, &left_ty, left) {
            Ok(()) => {},
            Err(e) => return Err(arg_error(0, e)),
        }
        let mut i: usize = 0;
        while i < sig.params.len() - 1
            invariant
                decreases_to!(*expr => **right),
                expr.kind matches ExprKind::Flow { right: rr, .. } && rr == *right,
                right.kind is Call,
                recv ==> right.kind->callee.kind is Member,
                forall|t: int| 0 <= t < idxs.len() ==> #[trigger] idxs@[t] < right.kind->args.len(),
                sig.params.len() == idxs.len() + (if recv { 2int } else { 1int }),
                self.kept(old(self)),
                self.depth() == old(self).depth(),
            decreases sig.params.len() - 1 - i,
        {
            let arg = nth_arg(right, recv, &idxs, i);
            let actual = self.infer_expr(arg)?;
            match self.assignable(&sig.params[i + 1].ty, &actual, arg) {
                Ok(()) => {},
                Err(e) => return Err(arg_error((i + 1) as u64, e)),
            }
            i = i + 1;
        }
        Ok(sig.ret)
    }
}


// ---------------------------------------------------------------------------
// Statements and blocks
// ---------------------------------------------------------------------------

/// A statement that a block may hold: no macro left unexpanded, no
/// declaration that belongs at top level, every match keeps the arm rules
/// with patterns that fit its scrutinee, and every typed `val` holds a value
/// of its type.
pub open spec fn allowed_in_block(s: Stmt) -> bool {
    match s {
        Stmt::MacroDef(_) | Stmt::MacroCall(_) | Stmt::TraitDef(_) | Stmt::RecordDef(_) | Stmt::EnumDef(_)
        | Stmt::CellDef(_) | Stmt::FlowBlock(_) | Stmt::ExternCell(_) => false,
        Stmt::Match(m) => match_fits(m),
        Stmt::StrandDef(sd) => value_fits_written_type(sd),
        _ => true,
    }
}

/// A match keeps the arm rules, and one type that its scrutinee can have
/// by its form fits every arm's pattern.
pub open spec fn match_fits(m: crate::ast::MatchStmt) -> bool {
    &&& arms_ok(m.arms@)
    &&& exists|t: TypeModel| result_shape(m.scrutinee, t) && #[trigger] arms_fit(m.arms@, t)
}

/// A `val` with a written type holds a value that one type its expression
/// can have by its form is assignable from, to a type that is the written
/// one when that names a built-in type.
pub open spec fn value_fits_written_type(sd: crate::ast::StrandDef) -> bool {
    sd.ty is Some ==> exists|e: TypeModel, a: TypeModel, d: bool|
        #![trigger crate::sema::assign_error(d, e, a, sd.expr)]
        result_shape(sd.expr, a) && crate::sema::assign_error(d, e, a, sd.expr) is None && (written_scalar(
            sd.ty->0,
        ) matches Some(b) ==> e == b)
}

/// Every statement of the block is allowed in a block.
pub open spec fn block_ok(b: Block) -> bool {
    forall|k: int| 0 <= k < b.stmts.len() ==> #[trigger] allowed_in_block(b.stmts@[k])
}

/// The message for a statement of a block that needs bool, got another type.
fn expects_bool(what: &str, ty: &Type, span: Span) -> (r: SemanticError) {
    let shown = ty.display();
    err(text3(what, " expects bool, got ", shown.as_str()), span)
}

impl Checker {
    /// Registers a type alias: one without parameters is resolved at once.
    fn define_alias(&mut self, ta: &crate::ast::TypeAlias) -> (r: Result<(), SemanticError>)
        requires
            old(self).wf(),
        ensures
            final(self).kept(old(self)),
            final(self).depth() == old(self).depth(),
            ta.params.len() > 0 ==> r is Ok,
            r is Ok ==> final(self).type_aliases@ == old(self).type_aliases@.push(final(self).type_aliases@.last())
                && final(self).type_aliases@.last().0@ == ta.name.node@ && (final(self).type_aliases@.last().1 is Generic
                <==> ta.params.len() > 0),
            r is Err ==> final(self).type_aliases@ == old(self).type_aliases@,
    {
        let target = syntax_of(&ta.target);
        let entry = if ta.params.len() == 0 {
            AliasEntry::Mono(self.resolve_type_ref(&target, alias_fuel())?)
        } else {
            AliasEntry::Generic(AliasDef { params: param_defs(&ta.params), target })
        };
        self.type_aliases.push((ta.name.node.clone(), entry));
        Ok(())
    }

    /// Checks a block in a scope of its own (`check_block`); its type is
    /// that of its final expression, else `Unit`.
    fn check_block(&mut self, block: &Block) -> (r: Result<Type, SemanticError>)
        requires
            old(self).wf(),
        ensures
            final(self).kept(old(self)),
            r is Ok ==> final(self).depth() == old(self).depth(),
            r is Ok ==> block_ok(*block),
            block.yield_expr is None ==> (r matches Ok(t) ==> t@ is Unit),
            (block.stmts.len() == 0 && match block.yield_expr {
                Some(e) => literal_in_range(e),
                None => true,
            }) ==> r is Ok,
            (literal_block(*block) && old(self).names_free(*block)) ==> (r is Ok && final(self).scopes@ == old(self).scopes@),
            (old(self).async_lambda_bases.len() == 0 && block.yield_expr is None && old(self).names_free(*block))
                ==> (local_block(block.stmts@, Seq::empty(), old(self).defers_range_proofs()) matches Some(ok) ==> (r is Ok
                <==> ok)),
            (r is Ok && old(self).async_lambda_bases.len() == 0 && block.yield_expr is None && old(self).names_free(*block)
                && local_block(block.stmts@, Seq::empty(), old(self).defers_range_proofs()) is Some) ==> (final(self).scopes@
                == old(self).scopes@ && final(self).async_lambda_bases.len() == 0),
        decreases block, 2int,
    {
        let ghost lits = literal_block(*block) && old(self).names_free(*block);
        let ghost d = old(self).defers_range_proofs();
        let ghost frag = old(self).async_lambda_bases.len() == 0 && block.yield_expr is None && old(self).names_free(*block)
            && local_block(block.stmts@, Seq::empty(), d) is Some;
        let ghost mut env: Seq<(Seq<char>, TypeModel)> = Seq::empty();
        self.push_scope();
        proof {
            assert(block.stmts@.subrange(0, block.stmts@.len() as int) =~= block.stmts@);
        }
        let mut k: usize = 0;
        proof {
            assert(decreases_to!(*block => block.stmts));
        }
        while k < block.stmts.len()
            invariant
                decreases_to!(*block => block.stmts),
                self.kept(old(self)),
                self.depth() == old(self).depth() + 1,
                forall|j: int| 0 <= j < k ==> #[trigger] allowed_in_block(block.stmts@[j]),
                lits == (literal_block(*block) && old(self).names_free(*block)),
                k <= block.stmts.len(),
                lits ==> self.scopes@.len() == old(self).scopes@.len() + 1 && self.scopes@.drop_last() == old(self).scopes@,
                lits ==> forall|j: int|
                    k <= j < block.stmts.len() ==> ((#[trigger] strand_name(block.stmts@[j])) matches Some(n) ==> self.binding(n) is None),
                frag == (old(self).async_lambda_bases.len() == 0 && block.yield_expr is None && old(self).names_free(*block)
                    && local_block(block.stmts@, Seq::empty(), d) is Some),
                d == old(self).defers_range_proofs(),
                frag ==> local_block(block.stmts@, Seq::empty(), d) == local_block(
                    block.stmts@.subrange(k as int, block.stmts@.len() as int),
                    env,
                    d,
                ),
                frag ==> self.scopes@.len() == old(self).scopes@.len() + 1 && self.scopes@.drop_last() == old(self).scopes@,
                frag ==> scopes_view(self.scopes@).last() == env,
                frag ==> forall|n: Seq<char>| latest(env, n) is Some ==> #[trigger] self.readable_type(n) == latest(env, n),
                frag ==> self.async_lambda_bases.len() == 0,
            decreases block.stmts.len() - k,
        {
            let ghost suffix = block.stmts@.subrange(k as int, block.stmts@.len() as int);
            proof {
                if frag {
                    assert(suffix[0] == block.stmts@[k as int]);
                    assert(suffix.drop_first() =~= block.stmts@.subrange(k + 1, block.stmts@.len() as int));
                    let sv = scopes_view(self.scopes@);
                    assert(sv.drop_last() =~= scopes_view(old(self).scopes@));
                    match block.stmts@[k as int] {
                        Stmt::StrandDef(sd) => {
                            assert(strand_name(block.stmts@[k as int]) == Some(sd.name.node@));
                            assert(old(self).binding(sd.name.node@) is None);
                            assert(self.binding(sd.name.node@) == binding_in(sv, sd.name.node@));
                            if names_local(env, sd.expr) {
                                self.lemma_local_term_type(env, sd.expr);
                            }
                            assert(self.local_strand(sd) == local_strand_in(env, sd, d));
                        },
                        Stmt::ExprStmt(x) => {
                            if names_local(env, x) {
                                self.lemma_local_term_type(env, x);
                            }
                        },
                        Stmt::Prop(p) => {
                            if names_local(env, p.expr) {
                                self.lemma_local_term_type(env, p.expr);
                            }
                        },
                        Stmt::Requires(x) => {
                            if names_local(env, x.expr) {
                                self.lemma_local_term_type(env, x.expr);
                            }
                        },
                        Stmt::Ensures(x) => {
                            if names_local(env, x.expr) {
                                self.lemma_local_term_type(env, x.expr);
                            }
                        },
                        Stmt::Assert(x) => {
                            if names_local(env, x.expr) {
                                self.lemma_local_term_type(env, x.expr);
                            }
                        },
                        Stmt::Assume(x) => {
                            if names_local(env, x.expr) {
                                self.lemma_local_term_type(env, x.expr);
                            }
                        },
                        _ => {},
                    }
                }
            }
            proof {
                assert(decreases_to!(*block => block.stmts@[k as int]));
                if lits {
                    assert(literal_block_stmt(block.stmts@[k as int]));
                    if literal_strand(block.stmts@[k as int]) {
                        assert(strand_name(block.stmts@[k as int]) is Some);
                    }
                }
            }
            let ghost before = *self;
            self.check_block_stmt(&block.stmts[k], block.span, Ghost(*block))?;
            proof {
                if frag {
                    if let Stmt::StrandDef(sd) = block.stmts@[k as int] {
                        let t = local_strand_in(env, sd, d)->0->0;
                        let env2 = env.push((sd.name.node@, t));
                        assert forall|n: Seq<char>| latest(env2, n) is Some implies #[trigger] self.readable_type(n)
                            == latest(env2, n) by {
                            assert(env2.drop_last() =~= env);
                            if n != sd.name.node@ {
                                assert(latest(env2, n) == latest(env, n));
                            }
                        }
                        env = env2;
                    }
                }
                if lits {
                    assert forall|j: int|
                        k + 1 <= j < block.stmts.len() implies ((#[trigger] strand_name(block.stmts@[j])) matches Some(n)
                        ==> self.binding(n) is None) by {
                        assert(strand_name(block.stmts@[j]) == strand_name(block.stmts@[j]));
                        if strand_name(block.stmts@[k as int]) is Some && strand_name(block.stmts@[j]) is Some {
                            assert(strand_name(block.stmts@[k as int]) != strand_name(block.stmts@[j]));
                        }
                    }
                }
            }
            k = k + 1;
        }
        proof {
            if frag {
                assert(block.stmts@.subrange(k as int, block.stmts@.len() as int).len() == 0);
            }
        }
        let ret = match &block.yield_expr {
            Some(e) => self.infer_expr(e)?,
            None => Type::Unit,
        };
        self.pop_scope();
        Ok(ret)
    }

    /// One statement of a block.
    fn check_block_stmt(&mut self, stmt: &Stmt, block_span: Span, Ghost(outer): Ghost<Block>) -> (r: Result<
        (),
        SemanticError,
    >)
        requires
            old(self).wf(),
            decreases_to!(outer => *stmt),
        ensures
            final(self).kept(old(self)),
            r is Ok ==> final(self).depth() == old(self).depth(),
            r is Ok ==> allowed_in_block(*stmt),
            match *stmt {
                Stmt::MacroDef(m) => r matches Err(e) && e.span == m.span && e.message@
                    == "macros must be expanded before semantic analysis"@,
                Stmt::MacroCall(m) => r matches Err(e) && e.span == m.span && e.message@
                    == "macros must be expanded before semantic analysis"@,
                Stmt::TraitDef(_) | Stmt::RecordDef(_) | Stmt::EnumDef(_) => r matches Err(e) && e.span == block_span
                    && e.message@ == "type/trait declarations are only allowed at top-level"@,
                Stmt::CellDef(_) | Stmt::FlowBlock(_) => r matches Err(e) && e.span == block_span && e.message@
                    == "nested cell/flow blocks are not supported (yet)"@,
                Stmt::ExternCell(_) => r matches Err(e) && e.span == block_span && e.message@
                    == "extern cell declarations are only allowed at top-level"@,
                Stmt::ExprStmt(x) => literal_in_range(x) ==> r is Ok,
                Stmt::Prop(p) => literal_in_range(p.expr) ==> r is Ok,
                _ => true,
            },
            literal_stmt(*stmt) ==> (r is Ok && *final(self) == *old(self)),
            old(self).async_lambda_bases.len() == 0 ==> (old(self).term_stmt(*stmt) matches Some(ok) ==> ((r is Ok
                <==> ok) && *final(self) == *old(self))),
            old(self).async_lambda_bases.len() == 0 ==> (old(self).moved_name_used(*stmt) matches Some(n) ==> (r matches Err(e)
                && e.message@ == used_after_move_message(n))),
            stmt matches Stmt::StrandDef(sd) ==> (old(self).async_lambda_bases.len() == 0 ==> match old(self).local_strand(*sd) {
                Some(None) => r is Err,
                Some(Some(t)) => {
                    &&& r is Ok
                    &&& scopes_view(final(self).scopes@).last() == scopes_view(old(self).scopes@).last().push(
                        (sd.name.node@, t),
                    )
                    &&& final(self).scopes@.drop_last() == old(self).scopes@.drop_last()
                    &&& final(self).readable_type(sd.name.node@) == Some(t)
                    &&& forall|n: Seq<char>|
                        n != sd.name.node@ && old(self).readable_type(n) is Some ==> #[trigger] final(self).readable_type(n)
                            == old(self).readable_type(n)
                    &&& final(self).async_lambda_bases == old(self).async_lambda_bases
                },
                None => true,
            }),
            (literal_strand(*stmt) && old(self).binding(strand_name(*stmt)->0) is None) ==> {
                &&& r is Ok
                &&& final(self).scopes@.len() == old(self).scopes@.len()
                &&& final(self).scopes@.drop_last() == old(self).scopes@.drop_last()
                &&& forall|n: Seq<char>| n != strand_name(*stmt)->0 ==> #[trigger] final(self).binding(n) == old(self).binding(n)
            },
        decreases outer, 1int,
    {
        match stmt {
            Stmt::Import(i) => self.handle_import(i),
            Stmt::MacroDef(m) => Err(err(String::from_str("macros must be expanded before semantic analysis"), m.span)),
            Stmt::MacroCall(m) => Err(err(String::from_str("macros must be expanded before semantic analysis"), m.span)),
            Stmt::StrandDef(sd) => self.check_strand(sd),
            Stmt::Layout(lb) => self.check_layout_block(lb),
            Stmt::Render(rb) => self.check_render_block(rb),
            Stmt::Prop(p) => {
                let _ = self.infer_expr(&p.expr)?;
                Ok(())
            },
            Stmt::Assign(a) => self.check_assign(a),
            Stmt::If(i) => self.check_if(i),
            Stmt::Match(m) => self.check_match(m),
            Stmt::While(w) => self.check_while(w),
            Stmt::Requires(rq) => {
                let ty = self.infer_expr(&rq.expr)?;
                if !matches!(ty, Type::Bool) {
                    return Err(expects_bool("requires", &ty, rq.span));
                }
                Ok(())
            },
            Stmt::Ensures(en) => {
                let ty = self.infer_expr(&en.expr)?;
                if !matches!(ty, Type::Bool) {
                    return Err(expects_bool("ensures", &ty, en.span));
                }
                Ok(())
            },
            Stmt::Assert(a) => {
                let ty = self.infer_expr(&a.expr)?;
                if !matches!(ty, Type::Bool) {
                    return Err(expects_bool("assert", &ty, a.span));
                }
                Ok(())
            },
            Stmt::Assume(a) => {
                let ty = self.infer_expr(&a.expr)?;
                if !matches!(ty, Type::Bool) {
                    return Err(expects_bool("assume", &ty, a.span));
                }
                Ok(())
            },
            Stmt::ExprStmt(e) => {
                let _ = self.infer_expr(e)?;
                Ok(())
            },
            Stmt::TraitDef(_) | Stmt::RecordDef(_) | Stmt::EnumDef(_) => Err(
                err(String::from_str("type/trait declarations are only allowed at top-level"), block_span),
            ),
            Stmt::TypeAlias(ta) => self.define_alias(ta),
            Stmt::CellDef(_) | Stmt::FlowBlock(_) => Err(
                err(String::from_str("nested cell/flow blocks are not supported (yet)"), block_span),
            ),
            Stmt::ExternCell(_) => Err(
                err(String::from_str("extern cell declarations are only allowed at top-level"), block_span),
            ),
            Stmt::UnsafeBlock(ub) => {
                self.unsafe_depth = self.unsafe_depth.wrapping_add(1);
                let _ = self.check_block(&ub.body)?;
                self.unsafe_depth = self.unsafe_depth.wrapping_sub(1);
                Ok(())
            },
        }
    }

    fn check_layout_block(&mut self, lb: &crate::ast::LayoutBlock) -> (r: Result<(), SemanticError>)
        requires
            old(self).wf(),
        ensures
            final(self).kept(old(self)),
            r is Ok ==> final(self).depth() == old(self).depth(),
        decreases lb, 2int,
    {
        let _ = self.check_block(&lb.body)?;
        Ok(())
    }

    fn check_render_block(&mut self, rb: &crate::ast::RenderBlock) -> (r: Result<(), SemanticError>)
        requires
            old(self).wf(),
        ensures
            final(self).kept(old(self)),
            r is Ok ==> final(self).depth() == old(self).depth(),
        decreases rb, 2int,
    {
        let _ = self.check_block(&rb.body)?;
        Ok(())
    }

    /// An import binds the last name of its path as a module.
    fn handle_import(&mut self, import: &crate::ast::ImportStmt) -> (r: Result<(), SemanticError>)
        requires
            old(self).wf(),
        ensures
            final(self).kept(old(self)),
            final(self).depth() == old(self).depth(),
    {
        let n = import.path.len();
        if n == 0 {
            return Ok(());
        }
        self.define_module_placeholder(&import.path[n - 1])
    }

    /// A `val` binding: not yet bound, its value fits the written type (the
    /// `where` clause narrows a `u32` to a range), and binding from a
    /// non-copy name moves it.
    fn check_strand(&mut self, sd: &crate::ast::StrandDef) -> (r: Result<(), SemanticError>)
        requires
            old(self).wf(),
        ensures
            final(self).kept(old(self)),
            r is Ok ==> final(self).depth() == old(self).depth(),
            r is Ok ==> old(self).binding(sd.name.node@) is None,
            (old(self).binding(sd.name.node@) is None && sd.ty is None && literal_in_range(sd.expr)) ==> (r is Ok
                && final(self).binding(sd.name.node@) == Some(literal_type(sd.expr))),
            (old(self).binding(sd.name.node@) is None && sd.ty is None && typed_literal(sd.expr)) ==> {
                &&& r is Ok
                &&& Some(final(self).binding(sd.name.node@)->0) == literal_expr_type(sd.expr)
                &&& final(self).binding(sd.name.node@) is Some
                &&& final(self).scopes@.len() == old(self).scopes@.len()
                &&& final(self).scopes@.drop_last() == old(self).scopes@.drop_last()
                &&& forall|n: Seq<char>| n != sd.name.node@ ==> #[trigger] final(self).binding(n) == old(self).binding(n)
            },
            old(self).async_lambda_bases.len() == 0 ==> match old(self).local_strand(*sd) {
                Some(None) => r is Err,
                Some(Some(t)) => {
                    &&& r is Ok
                    &&& scopes_view(final(self).scopes@).last() == scopes_view(old(self).scopes@).last().push(
                        (sd.name.node@, t),
                    )
                    &&& final(self).scopes@.drop_last() == old(self).scopes@.drop_last()
                    &&& final(self).readable_type(sd.name.node@) == Some(t)
                    &&& forall|n: Seq<char>|
                        n != sd.name.node@ && old(self).readable_type(n) is Some ==> #[trigger] final(self).readable_type(n)
                            == old(self).readable_type(n)
                    &&& final(self).async_lambda_bases == old(self).async_lambda_bases
                },
                None => true,
            },
            (r is Ok && sd.ty is Some) ==> exists|e: TypeModel, a: TypeModel|
                #![trigger crate::sema::assign_error(old(self).defers_range_proofs(), e, a, sd.expr)]
                result_shape(sd.expr, a) && crate::sema::assign_error(old(self).defers_range_proofs(), e, a, sd.expr)
                    is None && (written_scalar(sd.ty->0) matches Some(b) ==> e == b),
            (old(self).binding(sd.name.node@) is None && old(self).async_lambda_bases.len() == 0 && closed_term(
                sd.expr,
            ) && !(sd.expr.kind is Ident)) ==> match sd.ty {
                None => r is Ok <==> old(self).term_type(sd.expr) is Some,
                Some(annot) => written_scalar(annot) matches Some(b) ==> (r is Ok <==> (old(self).term_type(
                    sd.expr,
                ) matches Some(a) && crate::sema::assign_error(old(self).defers_range_proofs(), b, a, sd.expr)
                    is None)),
            },
        decreases sd, 2int,
    {
        if let Some(existing) = self.lookup_val(sd.name.node.as_str()) {
            let shown = existing.display();
            return Err(
                err(text5("val '", sd.name.node.as_str(), "' already defined as ", shown.as_str(), ""), sd.name.span),
            );
        }
        let expr_ty = self.infer_expr(&sd.expr)?;
        let final_ty = match &sd.ty {
            Some(annot) => {
                let expected = self.resolve_type_ref(&syntax_of(annot), alias_fuel())?;
                let base = base_type(&expected).copied();
                self.assignable(&base, &expr_ty, &sd.expr)?;
                let refined = match &sd.where_clause {
                    Some(w) => crate::sema::refinement_u32_range_from_where(sd.name.node.as_str(), w),
                    None => None,
                };
                match refined {
                    Some((lo, hi)) => Type::ConstrainedRange { base: Box::new(Type::U32), lo, hi },
                    None => expected,
                }
            },
            None => expr_ty,
        };
        if let ExprKind::Ident(src) = &sd.expr.kind {
            if is_non_copy_type(&final_ty) {
                self.consume_move_from_value(src.node.as_str(), src.span)?;
            }
        }
        self.define_val(&sd.name, final_ty, sd.mutable)
    }

    /// An assignment: to a known, alive, mutable binding, of a value that
    /// fits its type; assigning from another non-copy name moves it.
    fn check_assign(&mut self, assign: &crate::ast::AssignStmt) -> (r: Result<(), SemanticError>)
        requires
            old(self).wf(),
        ensures
            final(self).kept(old(self)),
            r is Ok ==> final(self).depth() == old(self).depth(),
            r is Ok ==> old(self).binding(assign.target.node@) is Some,
            ({
                let tgt = assign.target.node@;
                let mutable = exists|i: int, j: int|
                    0 <= i < old(self).mut_scopes.len() && 0 <= j < old(self).mut_scopes@[i]@.len() && (
                    #[trigger] old(self).mut_scopes@[i]@[j])@ == tgt;
                let alive = crate::capability::alive_check(old(self).cap@, tgt);
                match old(self).binding(tgt) {
                    None => r matches Err(e) && e.span == assign.target.span && e.message@ == "unknown identifier '"@
                        + tgt + "'"@,
                    Some(tt) => {
                        &&& alive matches Err(m) ==> (r matches Err(e) && e.message@ == m)
                        &&& (alive is Ok && !mutable) ==> (r matches Err(e) && e.span == assign.target.span
                            && e.message@ == "cannot assign to immutable val '"@ + tgt + "'"@)
                        &&& (alive is Ok && mutable && literal_in_range(assign.expr)) ==> (r is Ok
                            <==> crate::sema::assign_error(
                            old(self).defer_range_proofs,
                            tt,
                            literal_type(assign.expr),
                            assign.expr,
                        ) is None)
                    },
                }
            }),
        decreases assign, 2int,
    {
        let target = assign.target.node.as_str();
        let target_ty = match self.lookup_val(target) {
            Some(t) => t,
            None => {
                return Err(err(text3("unknown identifier '", target, "'"), assign.target.span));
            },
        };
        let _ = self.cap.ensure_alive(target, assign.target.span)?;
        if !self.is_mutable(target) {
            return Err(err(text3("cannot assign to immutable val '", target, "'"), assign.target.span));
        }
        let rhs_ty = self.infer_expr(&assign.expr)?;
        if let ExprKind::Ident(src) = &assign.expr.kind {
            if !str_eq(src.node.as_str(), target) && is_non_copy_type(&rhs_ty) {
                self.consume_move_from_value(src.node.as_str(), src.span)?;
            }
        }
        self.assignable(&target_ty, &rhs_ty, &assign.expr)
    }

    fn check_if(&mut self, if_stmt: &crate::ast::IfStmt) -> (r: Result<(), SemanticError>)
        requires
            old(self).wf(),
        ensures
            final(self).kept(old(self)),
            r is Ok ==> final(self).depth() == old(self).depth(),
            (if_stmt.cond.kind is IntLit || if_stmt.cond.kind is StringLit) ==> r is Err,
            (old(self).async_lambda_bases.len() == 0 && closed_term(if_stmt.cond)) ==> {
                &&& old(self).term_type(if_stmt.cond) != Some(TypeModel::Bool) ==> r is Err
                &&& (old(self).term_type(if_stmt.cond) == Some(TypeModel::Bool) && literal_block(if_stmt.then_block)
                    && old(self).names_free(if_stmt.then_block) && match if_stmt.else_block {
                    Some(b) => literal_block(b) && old(self).names_free(b),
                    None => true,
                }) ==> r is Ok
            },
        decreases if_stmt, 2int,
    {
        let cond_ty = self.infer_expr(&if_stmt.cond)?;
        if !matches!(cond_ty, Type::Bool) {
            let shown = cond_ty.display();
            return Err(err(text3("if condition must be bool, got ", shown.as_str(), ""), if_stmt.cond.span));
        }
        let _ = self.check_block(&if_stmt.then_block)?;
        if let Some(else_block) = &if_stmt.else_block {
            let _ = self.check_block(else_block)?;
        }
        Ok(())
    }

    fn check_while(&mut self, while_stmt: &crate::ast::WhileStmt) -> (r: Result<(), SemanticError>)
        requires
            old(self).wf(),
        ensures
            final(self).kept(old(self)),
            r is Ok ==> final(self).depth() == old(self).depth(),
            (while_stmt.cond.kind is IntLit || while_stmt.cond.kind is StringLit) ==> r is Err,
            (old(self).async_lambda_bases.len() == 0 && closed_term(while_stmt.cond)) ==> {
                &&& old(self).term_type(while_stmt.cond) != Some(TypeModel::Bool) ==> r is Err
                &&& (old(self).term_type(while_stmt.cond) == Some(TypeModel::Bool) && match while_stmt.invariant {
                    Some(i) => closed_term(i) && old(self).term_type(i) == Some(TypeModel::Bool),
                    None => true,
                } && match while_stmt.decreases {
                    Some(d) => closed_term(d) && (old(self).term_type(d) matches Some(t) && crate::sema::base_model(t) is U32),
                    None => true,
                } && literal_block(while_stmt.body) && old(self).names_free(while_stmt.body)) ==> r is Ok
            },
        decreases while_stmt, 2int,
    {
        let cond_ty = self.infer_expr(&while_stmt.cond)?;
        if !matches!(cond_ty, Type::Bool) {
            let shown = cond_ty.display();
            return Err(err(text3("while condition must be bool, got ", shown.as_str(), ""), while_stmt.cond.span));
        }
        if let Some(inv) = &while_stmt.invariant {
            let inv_ty = self.infer_expr(inv)?;
            if !matches!(inv_ty, Type::Bool) {
                let shown = inv_ty.display();
                return Err(err(text3("while invariant must be bool, got ", shown.as_str(), ""), inv.span));
            }
        }
        if let Some(dec) = &while_stmt.decreases {
            let dec_ty = self.infer_expr(dec)?;
            if !crate::sema::is_u32_like(&dec_ty) {
                let shown = dec_ty.display();
                return Err(err(text3("decreases expects integer, got ", shown.as_str(), ""), dec.span));
            }
        }
        let _ = self.check_block(&while_stmt.body)?;
        Ok(())
    }
}


/// The message for a match without arms.
pub open spec fn no_arms_message() -> Seq<char> {
    "match must have at least one arm"@
}

/// Whether an arm before the `k`-th matches the integer `v`.
fn int_seen_before(arms: &Vec<MatchArm>, k: usize, v: u64) -> (r: bool)
    requires
        k <= arms.len(),
    ensures
        r == exists|i: int| 0 <= i < k && #[trigger] int_pattern(arms@[i].pat) == Some(v),
{
    let mut j: usize = 0;
    while j < k
        invariant
            j <= k <= arms.len(),
            forall|i: int| 0 <= i < j ==> #[trigger] int_pattern(arms@[i].pat) != Some(v),
        decreases k - j,
    {
        if let Pattern::IntLit { value, .. } = &arms[j].pat {
            if *value == v {
                assert(int_pattern(arms@[j as int].pat) == Some(v));
                return true;
            }
        }
        j = j + 1;
    }
    false
}

/// Whether an arm before the `k`-th matches the string `v`.
fn string_seen_before(arms: &Vec<MatchArm>, k: usize, v: &str) -> (r: bool)
    requires
        k <= arms.len(),
    ensures
        r == exists|i: int| 0 <= i < k && #[trigger] string_pattern(arms@[i].pat) == Some(v@),
{
    let mut j: usize = 0;
    while j < k
        invariant
            j <= k <= arms.len(),
            forall|i: int| 0 <= i < j ==> #[trigger] string_pattern(arms@[i].pat) != Some(v@),
        decreases k - j,
    {
        if let Pattern::StringLit { value, .. } = &arms[j].pat {
            if str_eq(value.as_str(), v) {
                assert(string_pattern(arms@[j as int].pat) == Some(v@));
                return true;
            }
        }
        j = j + 1;
    }
    false
}

fn first_wildcard(arms: &Vec<MatchArm>) -> (r: Option<usize>)
    ensures
        match r {
            Some(i) => i < arms.len() && arms@[i as int].pat is Wildcard && forall|j: int|
                0 <= j < i ==> !(#[trigger] arms@[j].pat is Wildcard),
            None => forall|j: int| 0 <= j < arms.len() ==> !(#[trigger] arms@[j].pat is Wildcard),
        },
{
    let mut k: usize = 0;
    while k < arms.len()
        invariant
            k <= arms.len(),
            forall|j: int| 0 <= j < k ==> !(#[trigger] arms@[j].pat is Wildcard),
        decreases arms.len() - k,
    {
        if matches!(arms[k].pat, Pattern::Wildcard { .. }) {
            return Some(k);
        }
        k = k + 1;
    }
    None
}

impl Checker {
    /// A match (`check_match`): at least one arm, a single wildcard arm that
    /// comes last, literal patterns that fit the scrutinee and do not
    /// repeat, and constructor patterns of the scrutinee's enum whose
    /// binders are bound in the arm.
    fn check_match(&mut self, m: &crate::ast::MatchStmt) -> (r: Result<(), SemanticError>)
        requires
            old(self).wf(),
        ensures
            final(self).kept(old(self)),
            r is Ok ==> final(self).depth() == old(self).depth(),
            m.arms.len() == 0 ==> (r matches Err(e) && e.message@ == no_arms_message() && e.span == m.span),
            r is Ok ==> arms_ok(m.arms@),
            r is Ok ==> exists|t: TypeModel| result_shape(m.scrutinee, t) && arms_fit(m.arms@, t),
            (r is Ok && closed_term(m.scrutinee) && old(self).async_lambda_bases.len() == 0) ==> (old(self).term_type(
                m.scrutinee,
            ) matches Some(t) && arms_fit(m.arms@, t)),
            (m.arms.len() > 0 && closed_literal(m.scrutinee)) ==> match literal_expr_type(m.scrutinee) {
                None => r is Err,
                Some(t) => {
                    &&& (forall|j: int| 0 <= j < m.arms.len() ==> !(#[trigger] m.arms@[j].pat is Wildcard)) ==> (r matches Err(
                        e,
                    ) && e.span == m.span && e.message@ == "non-exhaustive match; add a final '_' arm"@)
                    &&& (arms_ok(m.arms@) && forall|j: int|
                        0 <= j < m.arms.len() ==> literal_arm_fits(#[trigger] m.arms@[j], t)) ==> r is Ok
                },
            },
        decreases m, 2int,
    {
        let ghost easy = m.arms.len() > 0 && closed_literal(m.scrutinee) && literal_expr_type(m.scrutinee) is Some
            && arms_ok(m.arms@) && forall|j: int|
            0 <= j < m.arms.len() ==> literal_arm_fits(#[trigger] m.arms@[j], literal_expr_type(m.scrutinee)->0);
        if m.arms.len() == 0 {
            return Err(err(String::from_str("match must have at least one arm"), m.span));
        }
        let scrut_ty = self.infer_expr(&m.scrutinee)?;
        match first_wildcard(&m.arms) {
            None => {
                return Err(err(String::from_str("non-exhaustive match; add a final '_' arm"), m.span));
            },
            Some(i) => {
                if i != m.arms.len() - 1 {
                    return Err(err(String::from_str("wildcard '_' arm must be last"), m.arms[i].span));
                }
            },
        }
        let mut k: usize = 0;
        proof {
            assert(decreases_to!(*m => m.arms));
        }
        while k < m.arms.len()
            invariant
                decreases_to!(*m => m.arms),
                k <= m.arms.len(),
                m.arms.len() > 0,
                m.arms@.last().pat is Wildcard,
                forall|j: int| 0 <= j < m.arms.len() - 1 ==> !(#[trigger] m.arms@[j].pat is Wildcard),
                forall|i: int, j: int|
                    0 <= i < j < k && int_pattern(m.arms@[i].pat) is Some ==> int_pattern(m.arms@[i].pat)
                        != int_pattern(m.arms@[j].pat),
                forall|i: int, j: int|
                    0 <= i < j < k && string_pattern(m.arms@[i].pat) is Some ==> string_pattern(m.arms@[i].pat)
                        != string_pattern(m.arms@[j].pat),
                self.kept(old(self)),
                self.depth() == old(self).depth(),
                m.arms@[m.arms.len() - 1].pat is Wildcard,
                easy == (m.arms.len() > 0 && closed_literal(m.scrutinee) && literal_expr_type(m.scrutinee) is Some
                    && arms_ok(m.arms@) && forall|j: int|
                    0 <= j < m.arms.len() ==> literal_arm_fits(#[trigger] m.arms@[j], literal_expr_type(m.scrutinee)->0)),
                easy ==> scrut_ty@ == literal_expr_type(m.scrutinee)->0 && arms_ok(m.arms@) && forall|j: int|
                    0 <= j < m.arms.len() ==> literal_arm_fits(#[trigger] m.arms@[j], scrut_ty@),
                forall|j: int| 0 <= j < k ==> pattern_fits(#[trigger] m.arms@[j].pat, scrut_ty@),
                result_shape(m.scrutinee, scrut_ty@),
                (closed_term(m.scrutinee) && old(self).async_lambda_bases.len() == 0) ==> old(self).term_type(
                    m.scrutinee,
                ) == Some(scrut_ty@),
            decreases m.arms.len() - k,
        {
            proof {
                if easy {
                    assert(literal_arm_fits(m.arms@[k as int], scrut_ty@));
                }
                assert(decreases_to!(*m => m.arms@[k as int]));
                assert(decreases_to!(*m => m.arms@[k as int].body));
            }
            let arm = &m.arms[k];
            match &arm.pat {
                Pattern::Wildcard { .. } => {},
                Pattern::IntLit { span, value } => {
                    if !crate::sema::is_u32_like(&scrut_ty) {
                        let shown = scrut_ty.display();
                        return Err(
                            err(text3("int pattern is not compatible with scrutinee type ", shown.as_str(), ""), *span),
                        );
                    }
                    if int_seen_before(&m.arms, k, *value) {
                        let mut msg = String::from_str("duplicate match arm for literal ");
                        crate::ownership_enforcement::append_decimal(&mut msg, *value);
                        return Err(err(msg, *span));
                    }
                },
                Pattern::StringLit { span, value } => {
                    if !matches!(base_type(&scrut_ty), Type::String) {
                        let shown = scrut_ty.display();
                        return Err(
                            err(text3("string pattern is not compatible with scrutinee type ", shown.as_str(), ""), *span),
                        );
                    }
                    if string_seen_before(&m.arms, k, value.as_str()) {
                        return Err(err(String::from_str("duplicate match arm for string literal"), *span));
                    }
                },
                Pattern::Ctor { span, ty, variant, binders } => {
                    self.bind_ctor_pattern(&scrut_ty, *span, ty, variant, binders)?;
                    let _ = self.check_block(&arm.body)?;
                    self.pop_scope();
                    k = k + 1;
                    continue;
                },
            }
            let _ = self.check_block(&arm.body)?;
            k = k + 1;
        }
        Ok(())
    }

    /// Opens the scope of a constructor arm and binds its binders to the
    /// field types of the variant, the enum's type parameters taken from
    /// the scrutinee's type.
    fn bind_ctor_pattern(
        &mut self,
        scrut_ty: &Type,
        span: Span,
        ty: &Ident,
        variant: &Ident,
        binders: &Vec<Ident>,
    ) -> (r: Result<(), SemanticError>)
        requires
            old(self).wf(),
        ensures
            final(self).kept(old(self)),
            r is Ok ==> final(self).depth() == old(self).depth() + 1,
            match scrutinee_name(crate::sema::base_model(scrut_ty@)) {
                None => r is Err,
                Some(n) => if n != ty.node@ {
                    r matches Err(e) && e.span == span && e.message@ == "ctor pattern expects '"@ + ty.node@
                        + "', but scrutinee is '"@ + n + "'"@
                } else {
                    match latest(old(self).enums_model(), ty.node@) {
                        None => r matches Err(e) && e.span == ty.span && e.message@ == "unknown enum type '"@
                            + ty.node@ + "'"@,
                        Some(vs) => match first_named(vs, variant.node@) {
                            None => r matches Err(e) && e.span == variant.span && e.message@ == "unknown variant '"@
                                + variant.node@ + "' for enum '"@ + ty.node@ + "'"@,
                            Some(vi) => {
                                &&& binders.len() != vs[vi].1 ==> r is Err
                                &&& (binders.len() == 0 && vs[vi].1 == 0) ==> r is Ok
                            },
                        },
                    }
                },
            },
    {
        let (scrut_name, scrut_args): (&String, Option<&Vec<Type>>) = match base_type(scrut_ty) {
            Type::Applied { name, args } => (name, Some(args)),
            Type::Named(n) => (n, None),
            _ => {
                let shown = scrut_ty.display();
                return Err(err(text3("ctor pattern is not compatible with scrutinee type ", shown.as_str(), ""), span));
            },
        };
        if !str_eq(scrut_name.as_str(), ty.node.as_str()) {
            return Err(
                err(
                    text5("ctor pattern expects '", ty.node.as_str(), "', but scrutinee is '", scrut_name.as_str(), "'"),
                    span,
                ),
            );
        }
        let di = match find_last(&self.enum_defs, ty.node.as_str()) {
            Some(i) => {
                proof {
                    lemma_latest_at(self.enums_model(), ty.node@, i as int);
                }
                i
            },
            None => {
                proof {
                    lemma_latest_none(self.enums_model(), ty.node@);
                }
                return Err(err(text3("unknown enum type '", ty.node.as_str(), "'"), ty.span));
            },
        };
        let def = self.enum_defs[di].1.copied();
        let ghost vs = variants_shape(self.enum_defs@[di as int].1.variants@);
        let vi = match variant_index(&def.variants, variant.node.as_str()) {
            Some(i) => {
                proof {
                    assert forall|j: int| 0 <= j < i implies vs[j].0 != variant.node@ by {
                        assert(def.variants@[j].name@ != variant.node@);
                    }
                    lemma_first_named_at(vs, variant.node@, i as int);
                }
                i
            },
            None => {
                proof {
                    assert forall|j: int| 0 <= j < vs.len() implies vs[j].0 != variant.node@ by {
                        assert(def.variants@[j].name@ != variant.node@);
                    }
                    lemma_first_named_none(vs, variant.node@);
                }
                return Err(
                    err(
                        text5("unknown variant '", variant.node.as_str(), "' for enum '", ty.node.as_str(), "'"),
                        variant.span,
                    ),
                );
            },
        };
        let fields = &def.variants[vi].fields;
        if binders.len() != fields.len() {
            let mut msg = text5("wrong number of binders for '", ty.node.as_str(), "::", variant.node.as_str(), "': expected ");
            crate::ownership_enforcement::append_decimal(&mut msg, fields.len() as u64);
            msg.append(", got ");
            crate::ownership_enforcement::append_decimal(&mut msg, binders.len() as u64);
            return Err(err(msg, span));
        }
        self.push_scope();
        let subst = param_bindings(&def.params, scrut_args);
        let mut k: usize = 0;
        while k < binders.len()
            invariant
                binders.len() == fields.len(),
                self.kept(old(self)),
                self.depth() == old(self).depth() + 1,
                scrutinee_name(crate::sema::base_model(scrut_ty@)) == Some(ty.node@),
                latest(old(self).enums_model(), ty.node@) == Some(vs),
                first_named(vs, variant.node@) == Some(vi as int),
                vi < vs.len(),
            decreases binders.len() - k,
        {
            let field_ty = if def.params.len() == 0 {
                self.resolve_type_ref(&fields[k], alias_fuel())?
            } else {
                self.resolve_with_params(&fields[k], &subst, alias_fuel())?
            };
            self.define_val(&binders[k], field_ty, false)?;
            k = k + 1;
        }
        Ok(())
    }
}


// ---------------------------------------------------------------------------
// Programs
// ---------------------------------------------------------------------------

/// The name of the function a top-level statement declares.
pub open spec fn declared_function(s: Stmt) -> Option<Seq<char>> {
    match s {
        Stmt::CellDef(c) => Some(c.name.node@),
        Stmt::ExternCell(x) => Some(x.name.node@),
        _ => None,
    }
}

/// A statement that registers something in the first pass.
pub open spec fn declares_something(s: Stmt) -> bool {
    match s {
        Stmt::Import(_) | Stmt::TraitDef(_) | Stmt::TypeAlias(_) | Stmt::RecordDef(_) | Stmt::EnumDef(_)
        | Stmt::CellDef(_) | Stmt::ExternCell(_) => true,
        _ => false,
    }
}

/// A statement that the second pass leaves alone: declarations, handled in
/// the first pass, and macros.
pub open spec fn declaration_only(s: Stmt) -> bool {
    match s {
        Stmt::TraitDef(_) | Stmt::RecordDef(_) | Stmt::EnumDef(_) | Stmt::TypeAlias(_) | Stmt::ExternCell(_)
        | Stmt::MacroDef(_) | Stmt::MacroCall(_) => true,
        _ => false,
    }
}

/// A statement that neither pass can refuse: a trait declaration or a macro.
pub open spec fn inert_at_top(s: Stmt) -> bool {
    s is TraitDef || s is MacroDef || s is MacroCall
}

/// A well-typed expression built from literals.
pub open spec fn typed_literal(e: Expr) -> bool {
    closed_literal(e) && literal_expr_type(e) is Some
}

/// A well-typed `bool` expression built from literals.
pub open spec fn bool_literal(e: Expr) -> bool {
    closed_literal(e) && literal_expr_type(e) == Some(TypeModel::Bool)
}

/// A statement over literals alone that checks: an expression or a `prop` that
/// is well typed, or a `requires`, `ensures`, `assert` or `assume` of a
/// `bool`.
pub open spec fn literal_stmt(s: Stmt) -> bool {
    match s {
        Stmt::ExprStmt(x) => typed_literal(x),
        Stmt::Prop(p) => typed_literal(p.expr),
        Stmt::Requires(x) => bool_literal(x.expr),
        Stmt::Ensures(x) => bool_literal(x.expr),
        Stmt::Assert(x) => bool_literal(x.expr),
        Stmt::Assume(x) => bool_literal(x.expr),
        _ => false,
    }
}

/// The name a statement binds with `val`.
pub open spec fn strand_name(s: Stmt) -> Option<Seq<char>> {
    match s {
        Stmt::StrandDef(sd) => Some(sd.name.node@),
        _ => None,
    }
}

/// A `val` without a written type, bound to a well-typed expression built
/// from literals.
pub open spec fn literal_strand(s: Stmt) -> bool {
    s matches Stmt::StrandDef(sd) && sd.ty is None && typed_literal(sd.expr)
}

/// A statement over literals, or a `val` bound to one.
pub open spec fn literal_block_stmt(s: Stmt) -> bool {
    literal_stmt(s) || literal_strand(s)
}

/// A block of statements over literals and `val`s bound to them, each
/// name bound once, with no value.
pub open spec fn literal_block(b: Block) -> bool {
    &&& b.yield_expr is None
    &&& forall|k: int| 0 <= k < b.stmts.len() ==> #[trigger] literal_block_stmt(b.stmts@[k])
    &&& forall|i: int, j: int|
        0 <= i < j < b.stmts.len() && (#[trigger] strand_name(b.stmts@[i])) is Some ==> strand_name(b.stmts@[i])
            != #[trigger] strand_name(b.stmts@[j])
}

/// A top-level statement over literals, well typed or not, or one that
/// neither pass can refuse.
pub open spec fn literal_shaped(s: Stmt) -> bool {
    inert_at_top(s) || match s {
        Stmt::ExprStmt(x) => closed_literal(x),
        Stmt::Prop(p) => closed_literal(p.expr),
        Stmt::Requires(x) => closed_literal(x.expr),
        Stmt::Ensures(x) => closed_literal(x.expr),
        Stmt::Assert(x) => closed_literal(x.expr),
        Stmt::Assume(x) => closed_literal(x.expr),
        _ => false,
    }
}

/// Every top-level statement checks, the names each cell's body binds being
/// free in `c`.
pub open spec fn all_check_at_top(c: &Checker, stmts: Seq<Stmt>) -> bool {
    forall|k: int| 0 <= k < stmts.len() ==> #[trigger] checks_at_top(stmts[k]) && c.names_free_at_top(stmts[k])
}

/// A top-level statement that checks whatever came before: a trait
/// declaration, a macro, a statement over literals, or a cell without
/// parameters whose body holds only statements over literals and `val`s
/// bound to them.
pub open spec fn checks_at_top(s: Stmt) -> bool {
    inert_at_top(s) || literal_stmt(s) || (s matches Stmt::CellDef(c) && c.params.len() == 0 && literal_block(c.body))
}

/// A top-level statement whose outcome the checker's rules fix on their
/// own: one over literals, one that neither pass can refuse, or a cell
/// without parameters and without a value whose body `local_block`
/// decides.
pub open spec fn decided_at_top(s: Stmt, defer: bool) -> bool {
    literal_shaped(s) || (s matches Stmt::CellDef(c) && c.params.len() == 0 && c.body.yield_expr is None
        && local_block(c.body.stmts@, Seq::empty(), defer) is Some)
}

/// Whether such a statement checks: a cell when its body's statements
/// check one after the other, any other statement as `checks_at_top` says.
pub open spec fn passes_at_top(s: Stmt, defer: bool) -> bool {
    match s {
        Stmt::CellDef(c) => local_block(c.body.stmts@, Seq::empty(), defer) == Some(true),
        _ => checks_at_top(s),
    }
}

/// Every top-level statement is one whose outcome the checker's rules fix
/// on their own, the names each cell's body binds being free in `c`, and
/// `c` is outside any async lambda.
pub open spec fn decided_program(c: &Checker, stmts: Seq<Stmt>) -> bool {
    &&& c.outside_async_lambda()
    &&& forall|k: int|
        0 <= k < stmts.len() ==> #[trigger] decided_at_top(stmts[k], c.defers_range_proofs()) && c.names_free_at_top(
            stmts[k],
        )
}

/// Every top-level statement passes, as `passes_at_top` says.
pub open spec fn program_passes(stmts: Seq<Stmt>, defer: bool) -> bool {
    forall|k: int| 0 <= k < stmts.len() ==> #[trigger] passes_at_top(stmts[k], defer)
}

/// What a checked program owes at top level: every match keeps the arm
/// rules with patterns that fit its scrutinee, every typed `val` holds a
/// value of its type, and the body of every cell and flow holds only
/// statements allowed in a block.
pub open spec fn top_level_ok(s: Stmt) -> bool {
    match s {
        Stmt::Match(m) => match_fits(m),
        Stmt::StrandDef(sd) => value_fits_written_type(sd),
        Stmt::CellDef(c) => block_ok(c.body),
        Stmt::FlowBlock(f) => block_ok(f.body),
        _ => true,
    }
}

proof fn lemma_latest_has<V>(s: Seq<(Seq<char>, V)>, k: Seq<char>, i: int)
    requires
        0 <= i < s.len(),
        s[i].0 == k,
    ensures
        latest(s, k) is Some,
    decreases s.len(),
{
    if s.last().0 != k {
        lemma_latest_has(s.drop_last(), k, i);
    }
}

fn record_info(r: &crate::ast::RecordDef) -> (out: RecordInfo)
    ensures
        out.params.len() == r.params.len(),
        out.fields.len() == r.fields.len(),
        forall|k: int|
            0 <= k < r.fields.len() ==> (#[trigger] out.fields@[k]).name@ == r.fields@[k].name.node@
                && out.fields@[k].has_default == r.fields@[k].default is Some && out.fields@[k].ty.name@
                == r.fields@[k].ty.name.node@,
{
    let mut fields: Vec<FieldDef> = Vec::new();
    let mut k: usize = 0;
    while k < r.fields.len()
        invariant
            k <= r.fields.len(),
            fields.len() == k,
            forall|j: int|
                0 <= j < k ==> (#[trigger] fields@[j]).name@ == r.fields@[j].name.node@ && fields@[j].has_default
                    == r.fields@[j].default is Some && fields@[j].ty.name@ == r.fields@[j].ty.name.node@,
        decreases r.fields.len() - k,
    {
        let f = &r.fields[k];
        fields.push(FieldDef { name: f.name.node.clone(), ty: syntax_of(&f.ty), has_default: f.default.is_some() });
        k = k + 1;
    }
    RecordInfo { params: param_defs(&r.params), fields }
}

fn enum_info(e: &crate::ast::EnumDef) -> (out: EnumInfo)
    ensures
        out.span == e.span,
        out.name@ == e.name.node@,
        out.params.len() == e.params.len(),
        out.variants.len() == e.variants.len(),
        forall|k: int|
            0 <= k < e.variants.len() ==> (#[trigger] out.variants@[k]).name@ == e.variants@[k].name.node@
                && out.variants@[k].fields.len() == e.variants@[k].fields.len(),
{
    let mut variants: Vec<VariantInfo> = Vec::new();
    let mut k: usize = 0;
    while k < e.variants.len()
        invariant
            k <= e.variants.len(),
            variants.len() == k,
            forall|i: int|
                0 <= i < k ==> (#[trigger] variants@[i]).name@ == e.variants@[i].name.node@ && variants@[i].fields.len()
                    == e.variants@[i].fields.len(),
        decreases e.variants.len() - k,
    {
        let v = &e.variants[k];
        let mut fields: Vec<TypeSyntax> = Vec::new();
        let mut j: usize = 0;
        while j < v.fields.len()
            invariant
                j <= v.fields.len(),
                fields.len() == j,
            decreases v.fields.len() - j,
        {
            fields.push(syntax_of(&v.fields[j].ty));
            j = j + 1;
        }
        variants.push(VariantInfo { name: v.name.node.clone(), fields });
        k = k + 1;
    }
    EnumInfo { span: e.span, name: e.name.node.clone(), params: param_defs(&e.params), variants }
}

impl Checker {
    fn signature_from_params(&self, ps: &Vec<crate::ast::Param>, ret: Type) -> (r: Result<FnSig, SemanticError>)
        ensures
            r matches Ok(sig) ==> sig.params.len() == ps.len() && sig.ret@ == ret@ && forall|k: int|
                0 <= k < ps.len() ==> (#[trigger] sig.params@[k]).name@ == ps@[k].name.node@,
            (forall|k: int|
                0 <= k < ps.len() ==> scalar_named((#[trigger] ps@[k]).ty.name.node@) is Some && ps@[k].ty.range is None)
                ==> r is Ok,
    {
        let mut params: Vec<FnParam> = Vec::new();
        let mut k: usize = 0;
        while k < ps.len()
            invariant
                k <= ps.len(),
                params.len() == k,
                forall|j: int| 0 <= j < k ==> (#[trigger] params@[j]).name@ == ps@[j].name.node@,
            decreases ps.len() - k,
        {
            let ty = self.resolve_type_ref(&syntax_of(&ps[k].ty), alias_fuel())?;
            params.push(FnParam { name: ps[k].name.node.clone(), ty });
            k = k + 1;
        }
        Ok(FnSig { params, ret })
    }

    /// Registers a function under `name`.
    fn register_function(&mut self, name: &String, sig: FnSig)
        requires
            old(self).wf(),
        ensures
            final(self).grown(old(self)),
            final(self).depth() == old(self).depth(),
            latest(final(self).functions_model(), name@) is Some,
            final(self).scopes == old(self).scopes,
            final(self).async_lambda_bases == old(self).async_lambda_bases,
    {
        self.functions.push((name.clone(), sig));
        proof {
            let f = self.functions_model();
            lemma_latest_has(f, name@, f.len() - 1);
        }
    }

    /// The first pass over one top-level statement: registers aliases,
    /// traits, records, enums and function signatures.
    fn declare(&mut self, stmt: &Stmt) -> (r: Result<(), SemanticError>)
        requires
            old(self).wf(),
        ensures
            final(self).grown(old(self)),
            final(self).depth() == old(self).depth(),
            r is Ok ==> (declared_function(*stmt) matches Some(n) ==> latest(final(self).functions_model(), n)
                is Some),
            stmt matches Stmt::TraitDef(t) ==> (r is Ok && final(self).traits@ == old(self).traits@.push(t.name.node)),
            stmt matches Stmt::CellDef(c) ==> (c.params.len() == 0 ==> r is Ok),
            checks_at_top(*stmt) ==> final(self).scopes@ == old(self).scopes@,
            (stmt is CellDef || stmt is TraitDef) ==> (final(self).scopes@ == old(self).scopes@
                && final(self).async_lambda_bases == old(self).async_lambda_bases),
            !declares_something(*stmt) ==> (r is Ok && *final(self) == *old(self)),
    {
        match stmt {
            Stmt::Import(i) => self.handle_import(i),
            Stmt::TraitDef(t) => {
                self.traits.push(t.name.node.clone());
                Ok(())
            },
            Stmt::TypeAlias(ta) => self.define_alias(ta),
            Stmt::RecordDef(rd) => {
                self.record_defs.push((rd.name.node.clone(), record_info(rd)));
                self.define_module_placeholder(&rd.name)
            },
            Stmt::EnumDef(ed) => {
                self.enum_defs.push((ed.name.node.clone(), enum_info(ed)));
                self.define_module_placeholder(&ed.name)
            },
            Stmt::CellDef(cell) => {
                let sig = self.signature_from_params(&cell.params, Type::Unknown)?;
                self.register_function(&cell.name.node, sig);
                Ok(())
            },
            Stmt::ExternCell(ext) => {
                let ret = self.resolve_type_ref(&syntax_of(&ext.ret), alias_fuel())?;
                let sig = self.signature_from_params(&ext.params, ret)?;
                self.register_function(&ext.name.node, sig);
                self.extern_cells.push((ext.name.node.clone(), ext.trusted));
                Ok(())
            },
            _ => Ok(()),
        }
    }

    /// A cell: its parameters bound in a scope of their own, its body
    /// checked; the type of the body becomes the cell's return type.
    fn check_cell(&mut self, cell: &crate::ast::CellDef) -> (r: Result<(), SemanticError>)
        requires
            old(self).wf(),
        ensures
            final(self).grown(old(self)),
            r is Ok ==> final(self).depth() == old(self).depth(),
            r is Ok ==> block_ok(cell.body),
            (cell.params.len() == 0 && cell.body.stmts.len() == 0 && cell.body.yield_expr is None) ==> r is Ok,
            (cell.params.len() == 0 && literal_block(cell.body) && old(self).names_free(cell.body)) ==> (r is Ok
                && final(self).scopes@ == old(self).scopes@),
            (cell.params.len() == 0 && cell.body.yield_expr is None && old(self).async_lambda_bases.len() == 0
                && old(self).names_free(cell.body)) ==> (local_block(
                cell.body.stmts@,
                Seq::empty(),
                old(self).defers_range_proofs(),
            ) matches Some(ok) ==> (r is Ok <==> ok)),
            (r is Ok && cell.params.len() == 0 && cell.body.yield_expr is None && old(self).async_lambda_bases.len()
                == 0 && old(self).names_free(cell.body) && local_block(
                cell.body.stmts@,
                Seq::empty(),
                old(self).defers_range_proofs(),
            ) is Some) ==> (final(self).scopes@ == old(self).scopes@ && final(self).async_lambda_bases.len() == 0),
    {
        self.push_scope();
        let ghost pushed = *self;
        proof {
            if old(self).names_free(cell.body) {
                assert forall|k: int|
                    0 <= k < cell.body.stmts.len() implies ((#[trigger] strand_name(cell.body.stmts@[k])) matches Some(n)
                    ==> self.binding(n) is None) by {
                    if strand_name(cell.body.stmts@[k]) is Some {
                        assert(self.binding(strand_name(cell.body.stmts@[k])->0) == old(self).binding(
                            strand_name(cell.body.stmts@[k])->0,
                        ));
                    }
                }
            }
        }
        let mut k: usize = 0;
        while k < cell.params.len()
            invariant
                self.grown(old(self)),
                self.depth() == old(self).depth() + 1,
                k <= cell.params.len(),
                k == 0 ==> *self == pushed,
                old(self).names_free(cell.body) ==> pushed.names_free(cell.body),
                pushed.scopes@.drop_last() == old(self).scopes@,
            decreases cell.params.len() - k,
        {
            let p = &cell.params[k];
            let ty = self.resolve_type_ref(&syntax_of(&p.ty), alias_fuel())?;
            self.define_val(&p.name, ty, p.mutable)?;
            k = k + 1;
        }
        let ret_ty = self.check_block(&cell.body)?;
        self.pop_scope();
        if let Some(i) = find_last(&self.functions, cell.name.node.as_str()) {
            let ghost f0 = self.functions_model();
            let (n, mut sig) = self.functions.remove(i);
            sig.ret = ret_ty;
            self.functions.insert(i, (n, sig));
            proof {
                assert forall|j: int| 0 <= j < f0.len() implies (#[trigger] self.functions_model()[j]).0 == f0[j].0 by {
                    if j != i {
                        assert(self.functions_model()[j] == f0[j]);
                    }
                }
            }
        }
        Ok(())
    }

    /// Checks a whole program (`check_program`): a first pass registers
    /// what it declares, a second checks cells, flows and statements.
    pub fn check_program(&mut self, program: &crate::ast::Program) -> (r: Result<(), SemanticError>)
        requires
            old(self).wf(),
        ensures
            final(self).wf(),
            r is Ok ==> final(self).depth() == old(self).depth(),
            r is Ok ==> forall|k: int| 0 <= k < program.stmts.len() ==> #[trigger] top_level_ok(program.stmts@[k]),
            r is Ok ==> forall|k: int|
                0 <= k < program.stmts.len() ==> (declared_function(#[trigger] program.stmts@[k]) matches Some(n)
                    ==> latest(final(self).functions_model(), n) is Some),
            all_check_at_top(old(self), program.stmts@) ==> r is Ok,
            (forall|k: int| 0 <= k < program.stmts.len() ==> #[trigger] literal_shaped(program.stmts@[k])) ==> (r is Ok
                <==> forall|k: int| 0 <= k < program.stmts.len() ==> #[trigger] checks_at_top(program.stmts@[k])),
            decided_program(old(self), program.stmts@) ==> (r is Ok <==> program_passes(
                program.stmts@,
                old(self).defers_range_proofs(),
            )),
    {
        let ghost start = *self;
        let ghost d = self.defers_range_proofs();
        let ghost dec = decided_program(old(self), program.stmts@);
        let ghost inert = all_check_at_top(&start, program.stmts@);
        let ghost shaped = forall|k: int| 0 <= k < program.stmts.len() ==> #[trigger] literal_shaped(program.stmts@[k]);
        proof {
            if shaped && forall|k: int| 0 <= k < program.stmts.len() ==> #[trigger] checks_at_top(program.stmts@[k]) {
                assert forall|k: int| 0 <= k < program.stmts.len() implies #[trigger] checks_at_top(program.stmts@[k])
                    && start.names_free_at_top(program.stmts@[k]) by {
                    assert(literal_shaped(program.stmts@[k]));
                }
            }
        }
        let mut k: usize = 0;
        while k < program.stmts.len()
            invariant
                inert == all_check_at_top(&start, program.stmts@),
                shaped == forall|k: int| 0 <= k < program.stmts.len() ==> #[trigger] literal_shaped(program.stmts@[k]),
                start == *old(self),
                inert ==> self.scopes@ == start.scopes@,
                self.grown(&start),
                self.depth() == start.depth(),
                d == start.defers_range_proofs(),
                dec == decided_program(old(self), program.stmts@),
                dec ==> self.scopes@ == start.scopes@ && self.async_lambda_bases.len() == 0,
                forall|j: int|
                    0 <= j < k ==> (declared_function(#[trigger] program.stmts@[j]) matches Some(n) ==> latest(
                        self.functions_model(),
                        n,
                    ) is Some),
            decreases program.stmts.len() - k,
        {
            let ghost before = *self;
            proof {
                if inert {
                    assert(checks_at_top(program.stmts@[k as int]) && start.names_free_at_top(program.stmts@[k as int]));
                    assert forall|n: Seq<char>| #[trigger] self.binding(n) == start.binding(n) by {}
                }
                if shaped {
                    assert(literal_shaped(program.stmts@[k as int]));
                }
                if dec {
                    let s = program.stmts@[k as int];
                    assert(decided_at_top(s, d));
                    assert(!declares_something(s) || s is TraitDef || (s matches Stmt::CellDef(c) && c.params.len() == 0));
                }
            }
            self.declare(&program.stmts[k])?;
            proof {
                assert forall|j: int|
                    0 <= j < k && (declared_function(#[trigger] program.stmts@[j]) matches Some(n)) implies latest(
                    self.functions_model(),
                    declared_function(program.stmts@[j])->0,
                ) is Some by {
                    lemma_kept_functions_stay(before.functions_model(), self.functions_model(), declared_function(program.stmts@[j])->0);
                }
            }
            k = k + 1;
        }
        let ghost mid = *self;
        let mut k: usize = 0;
        while k < program.stmts.len()
            invariant
                inert == all_check_at_top(&start, program.stmts@),
                shaped == forall|k: int| 0 <= k < program.stmts.len() ==> #[trigger] literal_shaped(program.stmts@[k]),
                shaped ==> forall|j: int| 0 <= j < k ==> #[trigger] checks_at_top(program.stmts@[j]),
                k <= program.stmts.len(),
                start == *old(self),
                inert ==> self.scopes@ == start.scopes@,
                self.grown(&mid),
                mid.grown(&start),
                self.depth() == start.depth(),
                forall|j: int| 0 <= j < k ==> #[trigger] top_level_ok(program.stmts@[j]),
                d == start.defers_range_proofs(),
                dec == decided_program(old(self), program.stmts@),
                dec ==> self.scopes@ == start.scopes@ && self.async_lambda_bases.len() == 0,
                dec ==> forall|j: int| 0 <= j < k ==> #[trigger] passes_at_top(program.stmts@[j], d),
            decreases program.stmts.len() - k,
        {
            let ghost before = *self;
            proof {
                if inert {
                    assert(checks_at_top(program.stmts@[k as int]) && start.names_free_at_top(program.stmts@[k as int]));
                    assert forall|n: Seq<char>| #[trigger] self.binding(n) == start.binding(n) by {}
                }
                if shaped {
                    assert(literal_shaped(program.stmts@[k as int]));
                }
                if dec {
                    assert(decided_at_top(program.stmts@[k as int], d));
                    assert(start.names_free_at_top(program.stmts@[k as int]));
                    assert forall|n: Seq<char>| #[trigger] self.binding(n) == start.binding(n) by {}
                    assert(self.names_free_at_top(program.stmts@[k as int]));
                    assert(self.async_lambda_bases.len() == 0);
                    assert(self.defers_range_proofs() == d);
                }
            }
            self.check_top_level(&program.stmts[k])?;
            proof {
                lemma_kept_trans(mid.functions_model(), before.functions_model(), self.functions_model());
            }
            k = k + 1;
        }
        proof {
            assert forall|j: int|
                0 <= j < program.stmts.len() && (declared_function(#[trigger] program.stmts@[j]) matches Some(n)) implies latest(
                self.functions_model(),
                declared_function(program.stmts@[j])->0,
            ) is Some by {
                lemma_kept_functions_stay(mid.functions_model(), self.functions_model(), declared_function(program.stmts@[j])->0);
            }
        }
        Ok(())
    }

    /// The second pass over one top-level statement.
    fn check_top_level(&mut self, stmt: &Stmt) -> (r: Result<(), SemanticError>)
        requires
            old(self).wf(),
        ensures
            final(self).grown(old(self)),
            r is Ok ==> final(self).depth() == old(self).depth(),
            r is Ok ==> top_level_ok(*stmt),
            declaration_only(*stmt) ==> (r is Ok && *final(self) == *old(self)),
            match *stmt {
                Stmt::ExprStmt(x) => literal_in_range(x) ==> r is Ok,
                Stmt::Prop(p) => literal_in_range(p.expr) ==> r is Ok,
                _ => true,
            },
            (checks_at_top(*stmt) && old(self).names_free_at_top(*stmt)) ==> (r is Ok && final(self).scopes@
                == old(self).scopes@),
            (literal_shaped(*stmt) && !checks_at_top(*stmt)) ==> r is Err,
            (old(self).async_lambda_bases.len() == 0 && decided_at_top(*stmt, old(self).defers_range_proofs())
                && old(self).names_free_at_top(*stmt)) ==> (r is Ok <==> passes_at_top(
                *stmt,
                old(self).defers_range_proofs(),
            )),
            (r is Ok && old(self).async_lambda_bases.len() == 0 && decided_at_top(*stmt, old(self).defers_range_proofs())
                && old(self).names_free_at_top(*stmt)) ==> (final(self).scopes@ == old(self).scopes@
                && final(self).async_lambda_bases.len() == 0),
            old(self).async_lambda_bases.len() == 0 ==> (old(self).term_stmt(*stmt) matches Some(ok) ==> ((r is Ok
                <==> ok) && *final(self) == *old(self))),
            old(self).async_lambda_bases.len() == 0 ==> (old(self).moved_name_used(*stmt) matches Some(n) ==> (r matches Err(e)
                && e.message@ == used_after_move_message(n))),
    {
        match stmt {
            Stmt::Import(i) => self.handle_import(i),
            Stmt::CellDef(cell) => self.check_cell(cell),
            Stmt::UnsafeBlock(ub) => {
                self.unsafe_depth = self.unsafe_depth.wrapping_add(1);
                let _ = self.check_block(&ub.body)?;
                self.unsafe_depth = self.unsafe_depth.wrapping_sub(1);
                Ok(())
            },
            Stmt::Layout(lb) => self.check_layout_block(lb),
            Stmt::Render(rb) => self.check_render_block(rb),
            Stmt::Prop(p) => {
                let _ = self.infer_expr(&p.expr)?;
                Ok(())
            },
            Stmt::FlowBlock(fb) => {
                self.push_scope();
                let _ = self.check_block(&fb.body)?;
                self.pop_scope();
                Ok(())
            },
            Stmt::StrandDef(sd) => self.check_strand(sd),
            Stmt::Assign(a) => self.check_assign(a),
            Stmt::If(i) => self.check_if(i),
            Stmt::Match(m) => self.check_match(m),
            Stmt::While(w) => self.check_while(w),
            Stmt::Requires(rq) => {
                let ty = self.infer_expr(&rq.expr)?;
                if !matches!(ty, Type::Bool) {
                    return Err(expects_bool("requires", &ty, rq.span));
                }
                Ok(())
            },
            Stmt::Ensures(en) => {
                let ty = self.infer_expr(&en.expr)?;
                if !matches!(ty, Type::Bool) {
                    return Err(expects_bool("ensures", &ty, en.span));
                }
                Ok(())
            },
            Stmt::Assert(a) => {
                let ty = self.infer_expr(&a.expr)?;
                if !matches!(ty, Type::Bool) {
                    return Err(expects_bool("assert", &ty, a.span));
                }
                Ok(())
            },
            Stmt::Assume(a) => {
                let ty = self.infer_expr(&a.expr)?;
                if !matches!(ty, Type::Bool) {
                    return Err(expects_bool("assume", &ty, a.span));
                }
                Ok(())
            },
            Stmt::ExprStmt(e) => {
                let _ = self.infer_expr(e)?;
                Ok(())
            },
            _ => Ok(()),
        }
    }
}

proof fn lemma_kept_functions_stay(
    old: Seq<(Seq<char>, SigModel)>,
    new: Seq<(Seq<char>, SigModel)>,
    n: Seq<char>,
)
    requires
        keeps_functions(old, new),
        latest(old, n) is Some,
    ensures
        latest(new, n) is Some,
{
    let i = lemma_latest_index(old, n);
    assert(new[i].0 == old[i].0);
    lemma_latest_has(new, n, i);
}

proof fn lemma_latest_index<V>(s: Seq<(Seq<char>, V)>, k: Seq<char>) -> (i: int)
    requires
        latest(s, k) is Some,
    ensures
        0 <= i < s.len(),
        s[i].0 == k,
    decreases s.len(),
{
    if s.last().0 == k {
        s.len() - 1
    } else {
        lemma_latest_index(s.drop_last(), k)
    }
}

proof fn lemma_kept_trans(
    a: Seq<(Seq<char>, SigModel)>,
    b: Seq<(Seq<char>, SigModel)>,
    c: Seq<(Seq<char>, SigModel)>,
)
    requires
        keeps_functions(a, b),
        keeps_functions(b, c),
    ensures
        keeps_functions(a, c),
{
    assert forall|i: int| 0 <= i < a.len() implies (#[trigger] c[i]).0 == a[i].0 by {
        assert(c[i].0 == b[i].0);
    }
}

} // verus!

