//! The types of Aura's semantic layer and their textual form.
use vstd::prelude::*;
use crate::text::nat_decimal;

verus! {

broadcast use vstd::std_specs::vec::axiom_vec_decreases_to_view;

/// A type of the Aura language.
#[derive(Debug)]
pub enum Type {
    Unknown,
    Unit,
    Bool,
    Char,
    U8,
    U16,
    U32,
    U64,
    U128,
    USize,
    I8,
    I16,
    I32,
    I64,
    I128,
    ISize,
    F32,
    F64,
    Str,
    String,
    Style,
    Model,
    Tensor { elem: Box<Type>, shape: Option<Vec<u64>> },
    Ref { mutable: bool, inner: Box<Type>, region: Option<String> },
    Tuple(Vec<Type>),
    Record { name: String, fields: Vec<(String, Type)> },
    Enum { name: String, variants: Vec<(String, Vec<Type>)> },
    Named(String),
    Applied { name: String, args: Vec<Type> },
    ConstrainedRange { base: Box<Type>, lo: u64, hi: u64 },
}


/// The mathematical value of a [`Type`]: the same tree, with sequences in
/// place of vectors and character sequences in place of strings.
pub enum TypeModel {
    Unknown,
    Unit,
    Bool,
    Char,
    U8,
    U16,
    U32,
    U64,
    U128,
    USize,
    I8,
    I16,
    I32,
    I64,
    I128,
    ISize,
    F32,
    F64,
    Str,
    String,
    Style,
    Model,
    Tensor { elem: Box<TypeModel>, shape: Option<Seq<u64>> },
    Ref { mutable: bool, inner: Box<TypeModel>, region: Option<Seq<char>> },
    Tuple(Seq<TypeModel>),
    Record { name: Seq<char>, fields: Seq<(Seq<char>, TypeModel)> },
    Enum { name: Seq<char>, variants: Seq<(Seq<char>, Seq<TypeModel>)> },
    Named(Seq<char>),
    Applied { name: Seq<char>, args: Seq<TypeModel> },
    ConstrainedRange { base: Box<TypeModel>, lo: u64, hi: u64 },
}

/// The models of a list of types.
pub open spec fn models_of(ts: Seq<Type>) -> Seq<TypeModel>
    decreases ts,
{
    if ts.len() == 0 {
        Seq::empty()
    } else {
        models_of(ts.drop_last()).push(type_model(ts.last()))
    }
}

/// `models_of` maps each type to its model, position by position.
pub proof fn lemma_models_of(ts: Seq<Type>)
    ensures
        models_of(ts).len() == ts.len(),
        forall|i: int| 0 <= i < ts.len() ==> #[trigger] models_of(ts)[i] == type_model(ts[i]),
    decreases ts.len(),
{
    if ts.len() > 0 {
        lemma_models_of(ts.drop_last());
    }
}

/// The models of record fields.
pub open spec fn fields_model(fs: Seq<(String, Type)>) -> Seq<(Seq<char>, TypeModel)>
    decreases fs,
{
    if fs.len() == 0 {
        Seq::empty()
    } else {
        fields_model(fs.drop_last()).push((fs.last().0@, type_model(fs.last().1)))
    }
}

/// `fields_model` maps each field to its name and model, position by position.
pub proof fn lemma_fields_model(fs: Seq<(String, Type)>)
    ensures
        fields_model(fs).len() == fs.len(),
        forall|i: int| 0 <= i < fs.len() ==> #[trigger] fields_model(fs)[i] == (fs[i].0@, type_model(fs[i].1)),
    decreases fs.len(),
{
    if fs.len() > 0 {
        lemma_fields_model(fs.drop_last());
    }
}

/// `variants_model` maps each variant to its name and payload models, position by position.
pub proof fn lemma_variants_model(vs: Seq<(String, Vec<Type>)>)
    ensures
        variants_model(vs).len() == vs.len(),
        forall|i: int| 0 <= i < vs.len() ==> #[trigger] variants_model(vs)[i] == (vs[i].0@, models_of(vs[i].1@)),
    decreases vs.len(),
{
    if vs.len() > 0 {
        lemma_variants_model(vs.drop_last());
    }
}

/// The models of enum variants.
pub open spec fn variants_model(vs: Seq<(String, Vec<Type>)>) -> Seq<(Seq<char>, Seq<TypeModel>)>
    decreases vs,
{
    if vs.len() == 0 {
        Seq::empty()
    } else {
        variants_model(vs.drop_last()).push((vs.last().0@, models_of(vs.last().1@)))
    }
}

/// The model of a type.
pub open spec fn type_model(t: Type) -> TypeModel
    decreases t,
{
    match t {
        Type::Unknown => TypeModel::Unknown,
        Type::Unit => TypeModel::Unit,
        Type::Bool => TypeModel::Bool,
        Type::Char => TypeModel::Char,
        Type::U8 => TypeModel::U8,
        Type::U16 => TypeModel::U16,
        Type::U32 => TypeModel::U32,
        Type::U64 => TypeModel::U64,
        Type::U128 => TypeModel::U128,
        Type::USize => TypeModel::USize,
        Type::I8 => TypeModel::I8,
        Type::I16 => TypeModel::I16,
        Type::I32 => TypeModel::I32,
        Type::I64 => TypeModel::I64,
        Type::I128 => TypeModel::I128,
        Type::ISize => TypeModel::ISize,
        Type::F32 => TypeModel::F32,
        Type::F64 => TypeModel::F64,
        Type::Str => TypeModel::Str,
        Type::String => TypeModel::String,
        Type::Style => TypeModel::Style,
        Type::Model => TypeModel::Model,
        Type::Tensor { elem, shape } => TypeModel::Tensor {
            elem: Box::new(type_model(*elem)),
            shape: match shape { Some(d) => Some(d@), None => None },
        },
        Type::Ref { mutable, inner, region } => TypeModel::Ref {
            mutable,
            inner: Box::new(type_model(*inner)),
            region: match region { Some(r) => Some(r@), None => None },
        },
        Type::Tuple(elems) => TypeModel::Tuple(models_of(elems@)),
        Type::Record { name, fields } => TypeModel::Record { name: name@, fields: fields_model(fields@) },
        Type::Enum { name, variants } => TypeModel::Enum { name: name@, variants: variants_model(variants@) },
        Type::Named(n) => TypeModel::Named(n@),
        Type::Applied { name, args } => TypeModel::Applied {
            name: name@,
            args: models_of(args@),
        },
        Type::ConstrainedRange { base, lo, hi } => TypeModel::ConstrainedRange {
            base: Box::new(type_model(*base)), lo, hi,
        },
    }
}

impl View for Type {
    type V = TypeModel;

    open spec fn view(&self) -> TypeModel {
        type_model(*self)
    }
}

/// The elements of `parts` separated by `sep`.
pub open spec fn join_with(parts: Seq<Seq<char>>, sep: Seq<char>) -> Seq<char>
    decreases parts.len(),
{
    if parts.len() == 0 {
        Seq::empty()
    } else if parts.len() == 1 {
        parts[0]
    } else {
        join_with(parts.drop_last(), sep) + sep + parts.last()
    }
}

/// Decimal renderings of a list of dimensions.
pub open spec fn dims_texts(dims: Seq<u64>) -> Seq<Seq<char>> {
    dims.map_values(|d: u64| nat_decimal(d as nat))
}

/// The keyword of a type without components.
pub open spec fn scalar_text(t: TypeModel) -> Seq<char> {
    match t {
        TypeModel::Unknown => "<unknown>"@,
        TypeModel::Unit => "Unit"@,
        TypeModel::Bool => "bool"@,
        TypeModel::Char => "char"@,
        TypeModel::U8 => "u8"@,
        TypeModel::U16 => "u16"@,
        TypeModel::U32 => "u32"@,
        TypeModel::U64 => "u64"@,
        TypeModel::U128 => "u128"@,
        TypeModel::USize => "usize"@,
        TypeModel::I8 => "i8"@,
        TypeModel::I16 => "i16"@,
        TypeModel::I32 => "i32"@,
        TypeModel::I64 => "i64"@,
        TypeModel::I128 => "i128"@,
        TypeModel::ISize => "isize"@,
        TypeModel::F32 => "f32"@,
        TypeModel::F64 => "f64"@,
        TypeModel::Str => "str"@,
        TypeModel::String => "String"@,
        TypeModel::Style => "Style"@,
        TypeModel::Model => "Model"@,
        _ => Seq::empty(),
    }
}

/// The textual form of a type, as shown in diagnostics.
pub open spec fn type_text(t: TypeModel) -> Seq<char>
    decreases t,
{
    match t {
        TypeModel::Tensor { elem, shape } => match shape {
            Some(dims) => "Tensor<"@ + type_text(*elem) + ", ["@ + join_with(dims_texts(dims), ", "@)
                + "]>"@,
            None => "Tensor<"@ + type_text(*elem) + ">"@,
        },
        TypeModel::Ref { mutable, inner, region } => {
            let m = if mutable { "mut "@ } else { Seq::empty() };
            match region {
                Some(r) => "&'"@ + r + " "@ + m + type_text(*inner),
                None => "&"@ + m + type_text(*inner),
            }
        },
        TypeModel::Tuple(elems) => "("@ + list_text(elems) + ")"@,
        TypeModel::Record { name, fields } => name,
        TypeModel::Enum { name, variants } => name,
        TypeModel::Named(n) => n,
        TypeModel::Applied { name, args } => if args.len() == 0 {
            name
        } else {
            name + "<"@ + list_text(args) + ">"@
        },
        TypeModel::ConstrainedRange { base, lo, hi } => type_text(*base) + "["@ + nat_decimal(lo as nat) + ".."@
            + nat_decimal(hi as nat) + "]"@,
        _ => scalar_text(t),
    }
}

/// The texts of a list of types, separated by ", ".
pub open spec fn list_text(ts: Seq<TypeModel>) -> Seq<char>
    decreases ts,
{
    if ts.len() == 0 {
        Seq::empty()
    } else if ts.len() == 1 {
        type_text(ts[0])
    } else {
        list_text(ts.drop_last()) + ", "@ + type_text(ts.last())
    }
}

/// One more element at the end of a joined list.
pub proof fn lemma_join_push(parts: Seq<Seq<char>>, sep: Seq<char>, x: Seq<char>)
    ensures
        join_with(parts.push(x), sep) == if parts.len() == 0 { x } else { join_with(parts, sep) + sep + x },
{
    assert(parts.push(x).drop_last() =~= parts);
}


/// Decimal texts of dimensions, joined by ", ".
fn dims_joined(dims: &Vec<u64>) -> (r: String)
    ensures
        r@ == join_with(dims_texts(dims@), ", "@),
{
    let mut out = String::new();
    let mut k: usize = 0;
    while k < dims.len()
        invariant
            k <= dims.len(),
            out@ == join_with(dims_texts(dims@.subrange(0, k as int)), ", "@),
        decreases dims.len() - k,
    {
        let ghost before = dims_texts(dims@.subrange(0, k as int));
        if k > 0 {
            out.append(", ");
        }
        let d = crate::text::u64_to_decimal(dims[k]);
        out.append(d.as_str());
        proof {
            lemma_join_push(before, ", "@, nat_decimal(dims@[k as int] as nat));
            assert(before.push(nat_decimal(dims@[k as int] as nat)) =~= dims_texts(dims@.subrange(0, k + 1)));
        }
        k = k + 1;
    }
    assert(dims@.subrange(0, dims.len() as int) =~= dims@);
    out
}

impl Type {
    /// The textual form of the type (`Tensor<u32, [2, 3]>`, `&'a mut T`, `u32[0..255]`, ...).
    pub fn display(&self) -> (r: String)
        ensures
            r@ == type_text(self@),
        decreases self,
    {
        match self {
            Type::Unknown => String::from_str("<unknown>"),
            Type::Unit => String::from_str("Unit"),
            Type::Bool => String::from_str("bool"),
            Type::Char => String::from_str("char"),
            Type::U8 => String::from_str("u8"),
            Type::U16 => String::from_str("u16"),
            Type::U32 => String::from_str("u32"),
            Type::U64 => String::from_str("u64"),
            Type::U128 => String::from_str("u128"),
            Type::USize => String::from_str("usize"),
            Type::I8 => String::from_str("i8"),
            Type::I16 => String::from_str("i16"),
            Type::I32 => String::from_str("i32"),
            Type::I64 => String::from_str("i64"),
            Type::I128 => String::from_str("i128"),
            Type::ISize => String::from_str("isize"),
            Type::F32 => String::from_str("f32"),
            Type::F64 => String::from_str("f64"),
            Type::Str => String::from_str("str"),
            Type::String => String::from_str("String"),
            Type::Style => String::from_str("Style"),
            Type::Model => String::from_str("Model"),
            Type::Tensor { elem, shape } => {
                let elem_s = elem.display();
                let mut out = String::from_str("Tensor<");
                out.append(elem_s.as_str());
                match shape {
                    Some(dims) => {
                        out.append(", [");
                        let d = dims_joined(dims);
                        out.append(d.as_str());
                        out.append("]>");
                    },
                    None => {
                        out.append(">");
                    },
                }
                out
            },
            Type::Ref { mutable, inner, region } => {
                let inner_s = inner.display();
                let mut out = String::new();
                match region {
                    Some(r) => {
                        out.append("&'");
                        out.append(r.as_str());
                        out.append(" ");
                    },
                    None => {
                        out.append("&");
                    },
                }
                if *mutable {
                    out.append("mut ");
                }
                out.append(inner_s.as_str());
                out
            },
            Type::Tuple(elems) => {
                let mut out = String::from_str("(");
                let ghost start = out@;
                let ghost models = self@->Tuple_0;
                proof { lemma_models_of(elems@); }
                proof { assert(decreases_to!(*self => elems@)); }
                let mut k: usize = 0;
                while k < elems.len()
                    invariant
                        k <= elems.len(),
                        models.len() == elems@.len(),
                        forall|i: int| 0 <= i < models.len() ==> models[i] == #[trigger] elems@[i]@,
                        decreases_to!(*self => elems@),
                        out@ == start + list_text(models.subrange(0, k as int)),
                    decreases elems.len() - k,
                {

                    if k > 0 {
                        out.append(", ");
                    }
                    proof { assert(decreases_to!(*self => elems@[k as int])); }
                    let piece = elems[k].display();
                    out.append(piece.as_str());
                    proof {
                        assert(models.subrange(0, k + 1).drop_last() =~= models.subrange(0, k as int));
                    }
                    k = k + 1;
                }
                out.append(")");
                proof {
                    assert(models.subrange(0, elems@.len() as int) =~= models);
                }
                out
            },
            Type::Record { name, fields } => String::from_str(name.as_str()),
            Type::Enum { name, variants } => String::from_str(name.as_str()),
            Type::Named(n) => String::from_str(n.as_str()),
            Type::Applied { name, args } => {
                let mut out = String::from_str(name.as_str());
                if args.len() == 0 {
                    proof { lemma_models_of(args@); }
                    return out;
                }
                out.append("<");
                let ghost start = out@;
                let ghost models = self@->args;
                proof { lemma_models_of(args@); }
                proof { assert(decreases_to!(*self => args@)); }
                let mut k: usize = 0;
                while k < args.len()
                    invariant
                        k <= args.len(),
                        models.len() == args@.len(),
                        forall|i: int| 0 <= i < models.len() ==> models[i] == #[trigger] args@[i]@,
                        decreases_to!(*self => args@),
                        out@ == start + list_text(models.subrange(0, k as int)),
                    decreases args.len() - k,
                {

                    if k > 0 {
                        out.append(", ");
                    }
                    proof { assert(decreases_to!(*self => args@[k as int])); }
                    let piece = args[k].display();
                    out.append(piece.as_str());
                    proof {
                        assert(models.subrange(0, k + 1).drop_last() =~= models.subrange(0, k as int));
                    }
                    k = k + 1;
                }
                out.append(">");
                proof {
                    assert(models.subrange(0, args@.len() as int) =~= models);
                }
                out
            },
            Type::ConstrainedRange { base, lo, hi } => {
                let mut out = base.display();
                out.append("[");
                let l = crate::text::u64_to_decimal(*lo);
                out.append(l.as_str());
                out.append("..");
                let h = crate::text::u64_to_decimal(*hi);
                out.append(h.as_str());
                out.append("]");
                out
            },
        }
    }
}

impl Type {
    /// An unsigned or signed integer primitive.
    pub fn is_integer(&self) -> (r: bool)
        ensures
            r == (self.is_unsigned_integer() || self.is_signed_integer()),
    {
        self.is_unsigned_integer() || self.is_signed_integer()
    }

    /// `i8`, `i16`, `i32`, `i64`, `i128` or `isize`.
    #[verifier::when_used_as_spec(spec_is_signed_integer)]
    pub fn is_signed_integer(&self) -> (r: bool)
        ensures
            r == self.spec_is_signed_integer(),
    {
        match self {
            Type::I8 | Type::I16 | Type::I32 | Type::I64 | Type::I128 | Type::ISize => true,
            _ => false,
        }
    }

    /// `u8`, `u16`, `u32`, `u64`, `u128` or `usize`.
    #[verifier::when_used_as_spec(spec_is_unsigned_integer)]
    pub fn is_unsigned_integer(&self) -> (r: bool)
        ensures
            r == self.spec_is_unsigned_integer(),
    {
        match self {
            Type::U8 | Type::U16 | Type::U32 | Type::U64 | Type::U128 | Type::USize => true,
            _ => false,
        }
    }

    /// `f32` or `f64`.
    #[verifier::when_used_as_spec(spec_is_float)]
    pub fn is_float(&self) -> (r: bool)
        ensures
            r == self.spec_is_float(),
    {
        match self {
            Type::F32 | Type::F64 => true,
            _ => false,
        }
    }

    /// An integer or floating-point primitive.
    pub fn is_numeric(&self) -> (r: bool)
        ensures
            r == (self.spec_is_unsigned_integer() || self.spec_is_signed_integer() || self.spec_is_float()),
    {
        self.is_integer() || self.is_float()
    }

    pub open spec fn spec_is_signed_integer(&self) -> bool {
        self is I8 || self is I16 || self is I32 || self is I64 || self is I128 || self is ISize
    }

    pub open spec fn spec_is_unsigned_integer(&self) -> bool {
        self is U8 || self is U16 || self is U32 || self is U64 || self is U128 || self is USize
    }

    pub open spec fn spec_is_float(&self) -> bool {
        self is F32 || self is F64
    }

    /// A tensor of unknown element type and shape.
    pub fn tensor_unknown() -> (r: Type)
        ensures
            r@ == (TypeModel::Tensor { elem: Box::new(TypeModel::Unknown), shape: None }),
    {
        let r = Type::Tensor { elem: Box::new(Type::Unknown), shape: None };
        assert(type_model(Type::Unknown) == TypeModel::Unknown);
        r
    }
}

/// Whether the range `[a_lo, a_hi]` lies within `[b_lo, b_hi]`.
pub fn is_subset_range(a_lo: u64, a_hi: u64, b_lo: u64, b_hi: u64) -> (r: bool)
    ensures
        r == (a_lo >= b_lo && a_hi <= b_hi),
{
    a_lo >= b_lo && a_hi <= b_hi
}

/// Structural equality of two types (what `==` on types means).
#[verifier::loop_isolation(false)]
pub fn same_type(a: &Type, b: &Type) -> (r: bool)
    ensures
        r == (a@ == b@),
    decreases a,
{
    match (a, b) {
        (Type::Unknown, Type::Unknown) => true,
        (Type::Unit, Type::Unit) => true,
        (Type::Bool, Type::Bool) => true,
        (Type::Char, Type::Char) => true,
        (Type::U8, Type::U8) => true,
        (Type::U16, Type::U16) => true,
        (Type::U32, Type::U32) => true,
        (Type::U64, Type::U64) => true,
        (Type::U128, Type::U128) => true,
        (Type::USize, Type::USize) => true,
        (Type::I8, Type::I8) => true,
        (Type::I16, Type::I16) => true,
        (Type::I32, Type::I32) => true,
        (Type::I64, Type::I64) => true,
        (Type::I128, Type::I128) => true,
        (Type::ISize, Type::ISize) => true,
        (Type::F32, Type::F32) => true,
        (Type::F64, Type::F64) => true,
        (Type::Str, Type::Str) => true,
        (Type::String, Type::String) => true,
        (Type::Style, Type::Style) => true,
        (Type::Model, Type::Model) => true,
        (Type::Tensor { elem: e1, shape: s1 }, Type::Tensor { elem: e2, shape: s2 }) => {
            if !same_type(e1, e2) {
                return false;
            }
            match (s1, s2) {
                (None, None) => true,
                (Some(d1), Some(d2)) => {
                    let r = same_u64s(d1, d2);
                    r
                },
                _ => false,
            }
        },
        (Type::Ref { mutable: m1, inner: i1, region: r1 }, Type::Ref { mutable: m2, inner: i2, region: r2 }) => {
            if *m1 != *m2 || !same_type(i1, i2) {
                return false;
            }
            match (r1, r2) {
                (None, None) => true,
                (Some(x), Some(y)) => *x == *y,
                _ => false,
            }
        },
        (Type::Tuple(x), Type::Tuple(y)) => {
            proof { assert(decreases_to!(*a => x@)); }
            same_type_list(x, y, Ghost(*a))
        },
        (Type::Record { name: n1, fields: f1 }, Type::Record { name: n2, fields: f2 }) => {
            assert(a@ == TypeModel::Record { name: n1@, fields: fields_model(f1@) });
            assert(b@ == TypeModel::Record { name: n2@, fields: fields_model(f2@) });
            if !(*n1 == *n2) {
                return false;
            }
            proof {
                lemma_fields_model(f1@);
                lemma_fields_model(f2@);
                assert(decreases_to!(*a => f1@));
            }
            if f1.len() != f2.len() {
                return false;
            }
            let mut k: usize = 0;
            while k < f1.len()
                invariant
                    k <= f1.len(),
                    f1.len() == f2.len(),
                    decreases_to!(*a => f1@),
                    fields_model(f1@).len() == f1@.len(),
                    fields_model(f2@).len() == f2@.len(),
                    forall|i: int| 0 <= i < f1@.len() ==> #[trigger] fields_model(f1@)[i] == (f1@[i].0@, type_model(f1@[i].1)),
                    forall|i: int| 0 <= i < f2@.len() ==> #[trigger] fields_model(f2@)[i] == (f2@[i].0@, type_model(f2@[i].1)),
                    forall|i: int| 0 <= i < k ==> #[trigger] fields_model(f1@)[i] == fields_model(f2@)[i],
                decreases f1.len() - k,
            {
                if !(f1[k].0 == f2[k].0) {
                    assert(fields_model(f1@)[k as int] != fields_model(f2@)[k as int]);
                    return false;
                }
                proof { assert(decreases_to!(*a => f1@[k as int].1)); }
                if !same_type(&f1[k].1, &f2[k].1) {
                    assert(fields_model(f1@)[k as int] != fields_model(f2@)[k as int]);
                    return false;
                }
                k = k + 1;
            }
            assert(fields_model(f1@) =~= fields_model(f2@));
            true
        },
        (Type::Enum { name: n1, variants: v1 }, Type::Enum { name: n2, variants: v2 }) => {
            assert(a@ == TypeModel::Enum { name: n1@, variants: variants_model(v1@) });
            assert(b@ == TypeModel::Enum { name: n2@, variants: variants_model(v2@) });
            if !(*n1 == *n2) {
                return false;
            }
            proof {
                lemma_variants_model(v1@);
                lemma_variants_model(v2@);
                assert(decreases_to!(*a => v1@));
            }
            if v1.len() != v2.len() {
                return false;
            }
            let mut k: usize = 0;
            while k < v1.len()
                invariant
                    k <= v1.len(),
                    v1.len() == v2.len(),
                    decreases_to!(*a => v1@),
                    variants_model(v1@).len() == v1@.len(),
                    variants_model(v2@).len() == v2@.len(),
                    forall|i: int| 0 <= i < v1@.len() ==> #[trigger] variants_model(v1@)[i] == (v1@[i].0@, models_of(v1@[i].1@)),
                    forall|i: int| 0 <= i < v2@.len() ==> #[trigger] variants_model(v2@)[i] == (v2@[i].0@, models_of(v2@[i].1@)),
                    forall|i: int| 0 <= i < k ==> #[trigger] variants_model(v1@)[i] == variants_model(v2@)[i],
                decreases v1.len() - k,
            {
                if !(v1[k].0 == v2[k].0) {
                    assert(variants_model(v1@)[k as int] != variants_model(v2@)[k as int]);
                    return false;
                }
                proof { assert(decreases_to!(*a => v1@[k as int].1)); }
                if !same_type_list(&v1[k].1, &v2[k].1, Ghost(*a)) {
                    assert(variants_model(v1@)[k as int] != variants_model(v2@)[k as int]);
                    return false;
                }
                k = k + 1;
            }
            assert(variants_model(v1@) =~= variants_model(v2@));
            true
        },
        (Type::Named(x), Type::Named(y)) => *x == *y,
        (Type::Applied { name: n1, args: x }, Type::Applied { name: n2, args: y }) => {
            if !(*n1 == *n2) {
                return false;
            }
            proof { assert(decreases_to!(*a => x@)); }
            same_type_list(x, y, Ghost(*a))
        },
        (Type::ConstrainedRange { base: b1, lo: l1, hi: h1 }, Type::ConstrainedRange { base: b2, lo: l2, hi: h2 }) => {
            *l1 == *l2 && *h1 == *h2 && same_type(b1, b2)
        },
        _ => false,
    }
}

pub(crate) fn same_u64s(x: &Vec<u64>, y: &Vec<u64>) -> (r: bool)
    ensures
        r == (x@ == y@),
{
    if x.len() != y.len() {
        return false;
    }
    let mut k: usize = 0;
    while k < x.len()
        invariant
            k <= x.len(),
            x.len() == y.len(),
            forall|i: int| 0 <= i < k ==> x@[i] == y@[i],
        decreases x.len() - k,
    {
        if x[k] != y[k] {
            assert(x@[k as int] != y@[k as int]);
            return false;
        }
        k = k + 1;
    }
    assert(x@ =~= y@);
    true
}

fn same_type_list(x: &Vec<Type>, y: &Vec<Type>, Ghost(outer): Ghost<Type>) -> (r: bool)
    requires
        decreases_to!(outer => x@),
    ensures
        r == (models_of(x@) == models_of(y@)),
    decreases outer, 0int,
{
    proof {
        lemma_models_of(x@);
        lemma_models_of(y@);
    }
    if x.len() != y.len() {
        return false;
    }
    let mut k: usize = 0;
    while k < x.len()
        invariant
            k <= x.len(),
            x.len() == y.len(),
            decreases_to!(outer => x@),
            models_of(x@).len() == x@.len(),
            models_of(y@).len() == y@.len(),
            forall|i: int| 0 <= i < x@.len() ==> #[trigger] models_of(x@)[i] == type_model(x@[i]),
            forall|i: int| 0 <= i < y@.len() ==> #[trigger] models_of(y@)[i] == type_model(y@[i]),
            forall|i: int| 0 <= i < k ==> #[trigger] models_of(x@)[i] == models_of(y@)[i],
        decreases x.len() - k,
    {
        proof { assert(decreases_to!(outer => x@[k as int])); }
        if !same_type(&x[k], &y[k]) {
            assert(models_of(x@)[k as int] != models_of(y@)[k as int]);
            return false;
        }
        k = k + 1;
    }
    assert(models_of(x@) =~= models_of(y@));
    true
}


impl Type {
    /// A copy of the type (what `clone` gives).
    pub fn copied(&self) -> (r: Type)
        ensures
            r@ == self@,
        decreases self,
    {
        match self {
            Type::Unknown => Type::Unknown,
            Type::Unit => Type::Unit,
            Type::Bool => Type::Bool,
            Type::Char => Type::Char,
            Type::U8 => Type::U8,
            Type::U16 => Type::U16,
            Type::U32 => Type::U32,
            Type::U64 => Type::U64,
            Type::U128 => Type::U128,
            Type::USize => Type::USize,
            Type::I8 => Type::I8,
            Type::I16 => Type::I16,
            Type::I32 => Type::I32,
            Type::I64 => Type::I64,
            Type::I128 => Type::I128,
            Type::ISize => Type::ISize,
            Type::F32 => Type::F32,
            Type::F64 => Type::F64,
            Type::Str => Type::Str,
            Type::String => Type::String,
            Type::Style => Type::Style,
            Type::Model => Type::Model,
            Type::Tensor { elem, shape } => {
                let e = elem.copied();
                let s = match shape {
                    Some(d) => Some(d.clone()),
                    None => None,
                };
                Type::Tensor { elem: Box::new(e), shape: s }
            },
            Type::Ref { mutable, inner, region } => {
                let i = inner.copied();
                let g = match region {
                    Some(r) => Some(r.clone()),
                    None => None,
                };
                Type::Ref { mutable: *mutable, inner: Box::new(i), region: g }
            },
            Type::Tuple(elems) => {
                proof { assert(decreases_to!(*self => elems@)); }
                Type::Tuple(copied_list(elems, Ghost(*self)))
            },
            Type::Record { name, fields } => {
                let mut out: Vec<(String, Type)> = Vec::new();
                let mut k: usize = 0;
                proof {
                    lemma_fields_model(fields@);
                    assert(decreases_to!(*self => fields@));
                }
                while k < fields.len()
                    invariant
                        k <= fields.len(),
                        decreases_to!(*self => fields@),
                        out@.len() == k,
                        fields_model(fields@).len() == fields@.len(),
                        forall|i: int| 0 <= i < fields@.len() ==> #[trigger] fields_model(fields@)[i] == (fields@[i].0@, type_model(fields@[i].1)),
                        forall|i: int| 0 <= i < k ==> (#[trigger] out@[i]).0@ == fields@[i].0@ && type_model(out@[i].1) == type_model(fields@[i].1),
                    decreases fields.len() - k,
                {
                    proof {
                        assert(decreases_to!(*self => fields@[k as int]));
                        assert(decreases_to!(*self => fields@[k as int].1));
                    }
                    let f = &fields[k];
                    out.push((f.0.clone(), f.1.copied()));
                    k = k + 1;
                }
                proof {
                    lemma_fields_model(out@);
                    assert(fields_model(out@) =~= fields_model(fields@));
                }
                Type::Record { name: name.clone(), fields: out }
            },
            Type::Enum { name, variants } => {
                let mut out: Vec<(String, Vec<Type>)> = Vec::new();
                let mut k: usize = 0;
                proof {
                    lemma_variants_model(variants@);
                    assert(decreases_to!(*self => variants@));
                }
                while k < variants.len()
                    invariant
                        k <= variants.len(),
                        decreases_to!(*self => variants@),
                        out@.len() == k,
                        variants_model(variants@).len() == variants@.len(),
                        forall|i: int| 0 <= i < variants@.len() ==> #[trigger] variants_model(variants@)[i] == (variants@[i].0@, models_of(variants@[i].1@)),
                        forall|i: int| 0 <= i < k ==> (#[trigger] out@[i]).0@ == variants@[i].0@ && models_of(out@[i].1@) == models_of(variants@[i].1@),
                    decreases variants.len() - k,
                {
                    proof {
                        assert(decreases_to!(*self => variants@[k as int]));
                        assert(decreases_to!(*self => variants@[k as int].1));
                        assert(decreases_to!(*self => variants@[k as int].1@));
                    }
                    let v = &variants[k];
                    let payload = copied_list(&v.1, Ghost(*self));
                    out.push((v.0.clone(), payload));
                    k = k + 1;
                }
                proof {
                    lemma_variants_model(out@);
                    assert(variants_model(out@) =~= variants_model(variants@));
                }
                Type::Enum { name: name.clone(), variants: out }
            },
            Type::Named(n) => Type::Named(n.clone()),
            Type::Applied { name, args } => {
                proof { assert(decreases_to!(*self => args@)); }
                Type::Applied { name: name.clone(), args: copied_list(args, Ghost(*self)) }
            },
            Type::ConstrainedRange { base, lo, hi } => Type::ConstrainedRange {
                base: Box::new(base.copied()),
                lo: *lo,
                hi: *hi,
            },
        }
    }
}

/// Copies of a list of types.
pub fn copied_list(x: &Vec<Type>, Ghost(outer): Ghost<Type>) -> (r: Vec<Type>)
    requires
        decreases_to!(outer => x@),
    ensures
        models_of(r@) == models_of(x@),
        r@.len() == x@.len(),
    decreases outer, 0int,
{
    proof { lemma_models_of(x@); }
    let mut out: Vec<Type> = Vec::new();
    let mut k: usize = 0;
    while k < x.len()
        invariant
            k <= x.len(),
            out@.len() == k,
            decreases_to!(outer => x@),
            forall|i: int| 0 <= i < k ==> type_model(#[trigger] out@[i]) == type_model(x@[i]),
        decreases x.len() - k,
    {
        proof { assert(decreases_to!(outer => x@[k as int])); }
        out.push(x[k].copied());
        k = k + 1;
    }
    proof {
        lemma_models_of(out@);
        assert(models_of(out@) =~= models_of(x@));
    }
    out
}

} // verus!

