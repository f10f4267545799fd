//! The C header bridge: declarations found in headers become `extern cell`
//! declarations of an Aura shim, with C types mapped to Aura types.
use std::path::PathBuf;
use vstd::prelude::*;
use crate::text::{
    Seps, chars_of, matches_at, nat_decimal, occurs_at, push_all, rfind, rfind_of, slice,
    to_string, tokens, tokens_of, trim, trim_of, vec_eq,
};

verus! {

#[verifier::external_type_specification]
#[verifier::external_body]
pub struct ExPathBuf(PathBuf);

// ---------------------------------------------------------------------------
// Type mapping
// ---------------------------------------------------------------------------

/// `s[i..]` with every occurrence of `p`, taken from left to right, removed.
pub open spec fn remove_from(s: Seq<char>, p: Seq<char>, i: int) -> Seq<char>
    decreases s.len() - i,
{
    if i < 0 || i >= s.len() {
        Seq::empty()
    } else if p.len() > 0 && occurs_at(s, p, i) {
        remove_from(s, p, i + p.len())
    } else {
        seq![s[i]] + remove_from(s, p, i + 1)
    }
}

/// `s.replace(p, "")`.
pub open spec fn remove_all(s: Seq<char>, p: Seq<char>) -> Seq<char> {
    remove_from(s, p, 0)
}

fn remove_all_of(s: &Vec<char>, p: &Vec<char>) -> (r: Vec<char>)
    ensures
        r@ == remove_all(s@, p@),
{
    let mut out: Vec<char> = Vec::new();
    let mut i: usize = 0;
    while i < s.len()
        invariant
            i <= s.len(),
            out@ + remove_from(s@, p@, i as int) == remove_all(s@, p@),
        decreases s.len() - i,
    {
        if p.len() > 0 && p.len() <= s.len() - i && matches_at(s, p, i) {
            i = i + p.len();
        } else {
            proof {
                if p.len() > 0 && p.len() > s.len() - i {
                    assert(!occurs_at(s@, p@, i as int));
                }
                assert(out@.push(s@[i as int]) + remove_from(s@, p@, i + 1) =~= out@ + remove_from(
                    s@,
                    p@,
                    i as int,
                ));
            }
            out.push(s[i]);
            i = i + 1;
        }
    }
    assert(out@ =~= remove_all(s@, p@));
    out
}

/// A C type without its `const`, `volatile` and `struct` qualifiers, trimmed.
pub open spec fn strip_qualifiers(ty: Seq<char>) -> Seq<char> {
    trim(remove_all(remove_all(remove_all(ty, "const "@), "volatile "@), "struct "@))
}

fn strip_qualifiers_of(ty: &Vec<char>) -> (r: Vec<char>)
    ensures
        r@ == strip_qualifiers(ty@),
{
    let a = remove_all_of(ty, &chars_of("const "));
    let b = remove_all_of(&a, &chars_of("volatile "));
    let c = remove_all_of(&b, &chars_of("struct "));
    trim_of(&c)
}

/// A C type is a pointer type when it holds a `*`.
pub open spec fn is_pointer_type(ty: Seq<char>) -> bool {
    ty.contains('*')
}

fn is_pointer_type_of(ty: &Vec<char>) -> (r: bool)
    ensures
        r == is_pointer_type(ty@),
{
    let mut i: usize = 0;
    while i < ty.len()
        invariant
            i <= ty.len(),
            forall|k: int| 0 <= k < i ==> ty@[k] != '*',
        decreases ty.len() - i,
    {
        if ty[i] == '*' {
            assert(ty@[i as int] == '*');
            return true;
        }
        i = i + 1;
    }
    false
}

/// The Aura type of a C type. With `refine`, small unsigned types carry a
/// range and pointers become nullable handles.
pub open spec fn aura_type(ty: Seq<char>, refine: bool) -> Seq<char> {
    let t = strip_qualifiers(ty);
    if t == "char*"@ || t == "char *"@ || t == "const char*"@ || t == "const char *"@ {
        "String"@
    } else if refine && is_pointer_type(t) {
        "Option<u32>"@
    } else if t == "void"@ {
        "Unit"@
    } else if t == "uint8_t"@ || t == "unsigned char"@ {
        if refine { "u32[0..255]"@ } else { "u32"@ }
    } else if t == "uint16_t"@ || t == "unsigned short"@ {
        if refine { "u32[0..65535]"@ } else { "u32"@ }
    } else {
        "u32"@
    }
}

/// Without refinement the shim uses plain types only: `String`, `Unit` and
/// `u32`.
pub proof fn law_unrefined_types_are_plain(ty: Seq<char>)
    ensures
        aura_type(ty, false) == "String"@ || aura_type(ty, false) == "Unit"@ || aura_type(ty, false) == "u32"@,
{
}

/// Refinement changes only pointers, which become nullable handles, and the
/// small unsigned types, which get their ranges; strings stay strings.
pub proof fn law_refinement_touches_pointers_and_small_types(ty: Seq<char>)
    ensures
        ({
            let t = strip_qualifiers(ty);
            aura_type(ty, true) != aura_type(ty, false) ==> (is_pointer_type(t) || t == "uint8_t"@
                || t == "unsigned char"@ || t == "uint16_t"@ || t == "unsigned short"@)
        }),
{
}

/// With refinement, an unsigned C type of 8 or 16 bits, qualified or not,
/// gets the range of its width, `0..2^8-1` or `0..2^16-1`, whichever of its
/// two spellings is used; without refinement it is a plain `u32`.
pub proof fn law_small_unsigned_types_get_their_width(ty: Seq<char>)
    ensures
        ({
            let t = strip_qualifiers(ty);
            &&& (t == "uint8_t"@ || t == "unsigned char"@) ==> aura_type(ty, true) == "u32[0.."@ + nat_decimal(
                0xff,
            ) + "]"@
            &&& (t == "uint16_t"@ || t == "unsigned short"@) ==> aura_type(ty, true) == "u32[0.."@ + nat_decimal(
                0xffff,
            ) + "]"@
            &&& (t == "uint8_t"@ || t == "unsigned char"@ || t == "uint16_t"@ || t == "unsigned short"@) ==> aura_type(
                ty,
                false,
            ) == "u32"@
        }),
{
    reveal_strlit("char*");
    reveal_strlit("char *");
    reveal_strlit("const char*");
    reveal_strlit("const char *");
    reveal_strlit("void");
    reveal_strlit("uint8_t");
    reveal_strlit("unsigned char");
    reveal_strlit("uint16_t");
    reveal_strlit("unsigned short");
    reveal_strlit("u32[0..");
    reveal_strlit("]");
    reveal_strlit("u32[0..255]");
    reveal_strlit("u32[0..65535]");
    reveal_with_fuel(nat_decimal, 6);
    assert(nat_decimal(0xff) =~= seq!['2', '5', '5']);
    assert(nat_decimal(0xffff) =~= seq!['6', '5', '5', '3', '5']);
    assert("u32[0..255]"@ =~= "u32[0.."@ + nat_decimal(0xff) + "]"@);
    assert("u32[0..65535]"@ =~= "u32[0.."@ + nat_decimal(0xffff) + "]"@);
    assert(!is_pointer_type("uint8_t"@));
    assert(!is_pointer_type("unsigned char"@));
    assert(!is_pointer_type("uint16_t"@));
    assert(!is_pointer_type("unsigned short"@));
    let t = strip_qualifiers(ty);
    if t == "uint8_t"@ || t == "unsigned char"@ {
        assert(t.len() == 7 || t.len() == 13);
        assert(t != "char*"@ && t != "char *"@ && t != "const char*"@ && t != "const char *"@);
        assert(!is_pointer_type(t));
        assert(t != "void"@);
        assert(aura_type(ty, true) == "u32[0..255]"@);
        assert(aura_type(ty, false) == "u32"@);
    }
    if t == "uint16_t"@ || t == "unsigned short"@ {
        assert(t != "uint8_t"@ && t != "unsigned char"@);
        assert(aura_type(ty, true) == "u32[0..65535]"@);
        assert(aura_type(ty, false) == "u32"@);
    }
}

fn is(t: &Vec<char>, lit: &str) -> (r: bool)
    ensures
        r == (t@ == lit@),
{
    vec_eq(t, &chars_of(lit))
}

fn aura_type_of(ty: &Vec<char>, refine: bool) -> (r: Vec<char>)
    ensures
        r@ == aura_type(ty@, refine),
{
    let t = strip_qualifiers_of(ty);
    if is(&t, "char*") || is(&t, "char *") || is(&t, "const char*") || is(&t, "const char *") {
        chars_of("String")
    } else if refine && is_pointer_type_of(&t) {
        chars_of("Option<u32>")
    } else if is(&t, "void") {
        chars_of("Unit")
    } else if is(&t, "uint8_t") || is(&t, "unsigned char") {
        if refine { chars_of("u32[0..255]") } else { chars_of("u32") }
    } else if is(&t, "uint16_t") || is(&t, "unsigned short") {
        if refine { chars_of("u32[0..65535]") } else { chars_of("u32") }
    } else {
        chars_of("u32")
    }
}

/// Maps a C type to the Aura type of the shim.
pub fn map_c_type_to_aura(ty: &str, refine_types: bool) -> (r: String)
    ensures
        r@ == aura_type(ty@, refine_types),
{
    to_string(&aura_type_of(&chars_of(ty), refine_types))
}


// ---------------------------------------------------------------------------
// Declarations
// ---------------------------------------------------------------------------

/// Words joined by single spaces.
pub open spec fn join_words(ws: Seq<Seq<char>>, n: int) -> Seq<char>
    decreases n,
{
    if n <= 0 || n > ws.len() {
        Seq::empty()
    } else if n == 1 {
        ws[0]
    } else {
        join_words(ws, n - 1) + seq![' '] + ws[n - 1]
    }
}

/// The words of `s` joined by single spaces (`normalize_ws`).
pub open spec fn normalize_ws(s: Seq<char>) -> Seq<char> {
    let ws = tokens(s, Seps::Space);
    join_words(ws, ws.len() as int)
}

fn normalize_ws_of(s: &Vec<char>) -> (r: Vec<char>)
    ensures
        r@ == normalize_ws(s@),
{
    let ws = tokens_of(s, Seps::Space);
    let ghost wm = tokens(s@, Seps::Space);
    let mut out: Vec<char> = Vec::new();
    let mut k: usize = 0;
    while k < ws.len()
        invariant
            k <= ws.len(),
            ws@.len() == wm.len(),
            forall|j: int| 0 <= j < ws@.len() ==> #[trigger] ws@[j]@ == wm[j],
            out@ == join_words(wm, k as int),
        decreases ws.len() - k,
    {
        if k > 0 {
            out.push(' ');
        }
        push_all(&mut out, &ws[k]);
        proof {
            assert(ws@[k as int]@ == wm[k as int]);
            if k == 0 {
                assert(out@ =~= join_words(wm, 1));
            } else {
                assert(out@ =~= join_words(wm, k + 1));
            }
        }
        k = k + 1;
    }
    out
}

/// The pieces of `s[i..]` between occurrences of `c`, empty ones included
/// (`str::split` with a character).
pub open spec fn split_from(s: Seq<char>, c: char, i: int) -> Seq<Seq<char>>
    decreases s.len() + 1 - i,
{
    if i < 0 || i > s.len() {
        Seq::empty()
    } else {
        match crate::text::find_from(s, c, i) {
            Some(e) => {
                proof {
                    crate::text::lemma_find_from(s, c, i);
                }
                if e < i {
                    Seq::empty()
                } else {
                    seq![s.subrange(i, e)] + split_from(s, c, e + 1)
                }
            },
            None => seq![s.subrange(i, s.len() as int)],
        }
    }
}

/// The pieces of `s` between occurrences of `c`.
pub open spec fn split_on(s: Seq<char>, c: char) -> Seq<Seq<char>> {
    split_from(s, c, 0)
}

/// `s` without the `*` and `&` at either end (`sanitize_ident`).
pub open spec fn sanitize_ident(s: Seq<char>) -> Seq<char> {
    let a = mark_skip(s, 0);
    let b = mark_back(s, s.len() as int);
    if a < b { s.subrange(a, b) } else { Seq::empty() }
}

/// A pointer or reference mark.
pub open spec fn is_mark(c: char) -> bool {
    c == '*' || c == '&'
}

/// The position just past the marks that start at `i`.
pub open spec fn mark_skip(s: Seq<char>, i: int) -> int
    decreases s.len() - i,
{
    if 0 <= i < s.len() && is_mark(s[i]) { mark_skip(s, i + 1) } else { i }
}

/// The end of `s[..j]` once the marks before `j` are dropped.
pub open spec fn mark_back(s: Seq<char>, j: int) -> int
    decreases j,
{
    if 0 < j <= s.len() && is_mark(s[j - 1]) { mark_back(s, j - 1) } else { j }
}

fn sanitize_ident_of(s: &Vec<char>) -> (r: Vec<char>)
    ensures
        r@ == sanitize_ident(s@),
{
    let mut a: usize = 0;
    while a < s.len() && (s[a] == '*' || s[a] == '&')
        invariant
            a <= s.len(),
            mark_skip(s@, 0) == mark_skip(s@, a as int),
        decreases s.len() - a,
    {
        a = a + 1;
    }
    let mut b: usize = s.len();
    while b > 0 && (s[b - 1] == '*' || s[b - 1] == '&')
        invariant
            b <= s.len(),
            mark_back(s@, s.len() as int) == mark_back(s@, b as int),
        decreases b,
    {
        b = b - 1;
    }
    if a < b {
        slice(s, a, b)
    } else {
        Vec::new()
    }
}

/// The non-empty pieces of `ps[..n]`, each with its white space normalized.
pub open spec fn kept_pieces(ps: Seq<Seq<char>>, n: int) -> Seq<Seq<char>>
    decreases n,
{
    if n <= 0 || n > ps.len() {
        Seq::empty()
    } else {
        let q = normalize_ws(ps[n - 1]);
        if q.len() > 0 { kept_pieces(ps, n - 1).push(q) } else { kept_pieces(ps, n - 1) }
    }
}

/// The placeholder name of the `i`-th parameter.
pub open spec fn arg_name(i: nat) -> Seq<char> {
    "arg"@ + nat_decimal(i)
}

/// The `i`-th parameter, written `p`: the name after its last space and the
/// type before it, or a placeholder name when `p` has no space.
pub open spec fn param_of(p: Seq<char>, i: nat) -> (Seq<char>, Seq<char>) {
    match rfind(p, ' ') {
        Some(k) => {
            let name = trim(p.subrange(k + 1, p.len() as int));
            let ty = trim(p.subrange(0, k));
            (if name.len() == 0 { arg_name(i) } else { sanitize_ident(name) }, ty)
        },
        None => (arg_name(i), p),
    }
}

/// The parameters of an argument list: `(name, C type)` in order; none for an
/// empty list or `void`.
pub open spec fn params(args: Seq<char>) -> Seq<(Seq<char>, Seq<char>)> {
    let a = trim(args);
    if a.len() == 0 || a == "void"@ {
        Seq::empty()
    } else {
        let ps = kept_pieces(split_on(a, ','), split_on(a, ',').len() as int);
        Seq::new(ps.len(), |i: int| param_of(ps[i], i as nat))
    }
}

/// The model of a list of string pairs.
pub open spec fn pairs_view(v: Seq<(String, String)>) -> Seq<(Seq<char>, Seq<char>)> {
    Seq::new(v.len(), |i: int| (v[i].0@, v[i].1@))
}

fn decimal_of(n: usize) -> (r: Vec<char>)
    ensures
        r@ == nat_decimal(n as nat),
{
    let s = crate::text::u64_to_decimal(n as u64);
    chars_of(s.as_str())
}

fn param_of_exec(p: &Vec<char>, i: usize) -> (r: (String, String))
    ensures
        (r.0@, r.1@) == param_of(p@, i as nat),
{
    match rfind_of(p, ' ') {
        Some(k) => {
            let name = trim_of(&slice(p, k + 1, p.len()));
            let ty = trim_of(&slice(p, 0, k));
            let n = if name.len() == 0 {
                let mut a = chars_of("arg");
                push_all(&mut a, &decimal_of(i));
                a
            } else {
                sanitize_ident_of(&name)
            };
            (to_string(&n), to_string(&ty))
        },
        None => {
            let mut a = chars_of("arg");
            push_all(&mut a, &decimal_of(i));
            (to_string(&a), to_string(p))
        },
    }
}

fn split_on_of(s: &Vec<char>, c: char) -> (r: Vec<Vec<char>>)
    ensures
        r@.len() == split_on(s@, c).len(),
        forall|k: int| 0 <= k < r@.len() ==> #[trigger] r@[k]@ == split_on(s@, c)[k],
{
    let mut r: Vec<Vec<char>> = Vec::new();
    let ghost mut done: Seq<Seq<char>> = Seq::empty();
    let mut i: usize = 0;
    loop
        invariant
            i <= s.len(),
            done + split_from(s@, c, i as int) == split_on(s@, c),
            r@.len() == done.len(),
            forall|k: int| 0 <= k < r@.len() ==> #[trigger] r@[k]@ == done[k],
        decreases s.len() - i,
    {
        let mut e = i;
        while e < s.len() && s[e] != c
            invariant
                i <= e <= s.len(),
                crate::text::find_from(s@, c, i as int) == crate::text::find_from(s@, c, e as int),
            decreases s.len() - e,
        {
            e = e + 1;
        }
        let piece = slice(s, i, e);
        proof {
            assert(done.push(piece@) + split_from(s@, c, e + 1) =~= done + split_from(
                s@,
                c,
                i as int,
            ));
            done = done.push(piece@);
        }
        r.push(piece);
        if e == s.len() {
            proof {
                assert(split_from(s@, c, e + 1) =~= Seq::<Seq<char>>::empty());
                assert(done =~= split_on(s@, c));
            }
            return r;
        }
        i = e + 1;
    }
}

/// The parameters of a C argument list, as `(name, C type)` pairs.
pub fn parse_params(args: &str) -> (r: Vec<(String, String)>)
    ensures
        pairs_view(r@) == params(args@),
{
    let a = trim_of(&chars_of(args));
    if a.len() == 0 || is(&a, "void") {
        let r: Vec<(String, String)> = Vec::new();
        assert(pairs_view(r@) =~= params(args@));
        return r;
    }
    let pieces = split_on_of(&a, ',');
    let ghost pm = split_on(a@, ',');
    let ghost kept = kept_pieces(pm, pm.len() as int);
    // the kept pieces, in order
    let mut ks: Vec<Vec<char>> = Vec::new();
    let mut j: usize = 0;
    while j < pieces.len()
        invariant
            j <= pieces.len(),
            pieces@.len() == pm.len(),
            forall|k: int| 0 <= k < pieces@.len() ==> #[trigger] pieces@[k]@ == pm[k],
            ks@.len() == kept_pieces(pm, j as int).len(),
            forall|k: int| 0 <= k < ks@.len() ==> #[trigger] ks@[k]@ == kept_pieces(pm, j as int)[k],
        decreases pieces.len() - j,
    {
        assert(pieces@[j as int]@ == pm[j as int]);
        let q = normalize_ws_of(&pieces[j]);
        if q.len() > 0 {
            ks.push(q);
        }
        j = j + 1;
    }
    let mut r: Vec<(String, String)> = Vec::new();
    let mut i: usize = 0;
    while i < ks.len()
        invariant
            i <= ks.len(),
            ks@.len() == kept.len(),
            forall|k: int| 0 <= k < ks@.len() ==> #[trigger] ks@[k]@ == kept[k],
            r@.len() == i,
            forall|k: int| 0 <= k < i ==> (#[trigger] r@[k].0@, r@[k].1@) == param_of(kept[k], k as nat),
        decreases ks.len() - i,
    {
        assert(ks@[i as int]@ == kept[i as int]);
        let pr = param_of_exec(&ks[i], i);
        let ghost before = r@;
        r.push(pr);
        assert forall|k: int| 0 <= k < i + 1 implies (#[trigger] r@[k].0@, r@[k].1@) == param_of(kept[k], k as nat) by {
            if k < i {
                assert(r@[k] == before[k]);
            }
        }
        i = i + 1;
    }
    assert(pairs_view(r@) =~= params(args@));
    r
}


/// A function declaration found in a header.
#[derive(Clone, Debug)]
pub struct DiscoveredFn {
    pub name: String,
    pub params: Vec<(String, String)>,
    pub ret: String,
}

/// The model of a declaration: its name, its `(name, C type)` parameters and
/// its C return type.
pub struct FnModel {
    pub name: Seq<char>,
    pub params: Seq<(Seq<char>, Seq<char>)>,
    pub ret: Seq<char>,
}

impl View for DiscoveredFn {
    type V = FnModel;

    open spec fn view(&self) -> FnModel {
        FnModel { name: self.name@, params: pairs_view(self.params@), ret: self.ret@ }
    }
}

/// The models of a list of declarations.
pub open spec fn fns_view(v: Seq<DiscoveredFn>) -> Seq<FnModel> {
    Seq::new(v.len(), |i: int| v[i]@)
}

/// The first line of every shim.
pub open spec fn shim_header() -> Seq<char> {
    "# Auto-generated by aura-bridge (bootstrap)\n"@ + "# NOTE: C/C++ parsing is heuristic in this phase.\n\n"@
}

/// The first `n` parameters in Aura syntax, separated by `, `.
pub open spec fn params_text(ps: Seq<(Seq<char>, Seq<char>)>, refine: bool, n: int) -> Seq<char>
    decreases n,
{
    if n <= 0 || n > ps.len() {
        Seq::empty()
    } else {
        let one = ps[n - 1].0 + ": "@ + aura_type(ps[n - 1].1, refine);
        if n == 1 { one } else { params_text(ps, refine, n - 1) + ", "@ + one }
    }
}

/// The `extern cell` declaration of a function.
pub open spec fn decl_text(f: FnModel, refine: bool) -> Seq<char> {
    "extern cell "@ + f.name + "("@ + params_text(f.params, refine, f.params.len() as int) + "): "@
        + aura_type(f.ret, refine) + "\n\n"@
}

/// The shim for the first `n` declarations.
pub open spec fn shim_text(fs: Seq<FnModel>, refine: bool, n: int) -> Seq<char>
    decreases n,
{
    if n <= 0 || n > fs.len() {
        shim_header()
    } else {
        shim_text(fs, refine, n - 1) + decl_text(fs[n - 1], refine)
    }
}

fn push_str(out: &mut Vec<char>, s: &str)
    ensures
        final(out)@ == old(out)@ + s@,
{
    push_all(out, &chars_of(s));
}

fn push_decl(out: &mut Vec<char>, f: &DiscoveredFn, refine: bool)
    ensures
        final(out)@ == old(out)@ + decl_text(f@, refine),
{
    let ghost ps = pairs_view(f.params@);
    let mut params: Vec<char> = Vec::new();
    let mut i: usize = 0;
    while i < f.params.len()
        invariant
            i <= f.params.len(),
            ps == pairs_view(f.params@),
            params@ == params_text(ps, refine, i as int),
        decreases f.params.len() - i,
    {
        if i > 0 {
            push_str(&mut params, ", ");
        }
        let (name, c_ty) = (&f.params[i].0, &f.params[i].1);
        push_all(&mut params, &chars_of(name.as_str()));
        push_str(&mut params, ": ");
        push_all(&mut params, &aura_type_of(&chars_of(c_ty.as_str()), refine));
        proof {
            assert(ps[i as int] == (name@, c_ty@));
            assert(params@ =~= params_text(ps, refine, i + 1));
        }
        i = i + 1;
    }
    push_str(out, "extern cell ");
    push_all(out, &chars_of(f.name.as_str()));
    push_str(out, "(");
    push_all(out, &params);
    push_str(out, "): ");
    push_all(out, &aura_type_of(&chars_of(f.ret.as_str()), refine));
    push_str(out, "\n\n");
    assert(final(out)@ =~= old(out)@ + decl_text(f@, refine));
}

/// The Aura shim for the declarations: a header comment, then one
/// `extern cell` declaration per function.
pub fn generate_aura_shim(funcs: &[DiscoveredFn], refine_types: bool) -> (r: String)
    ensures
        r@ == shim_text(fns_view(funcs@), refine_types, funcs@.len() as int),
{
    let mut out: Vec<char> = Vec::new();
    push_str(&mut out, "# Auto-generated by aura-bridge (bootstrap)\n");
    push_str(&mut out, "# NOTE: C/C++ parsing is heuristic in this phase.\n\n");
    let ghost fm = fns_view(funcs@);
    let mut i: usize = 0;
    while i < funcs.len()
        invariant
            i <= funcs.len(),
            fm == fns_view(funcs@),
            out@ == shim_text(fm, refine_types, i as int),
        decreases funcs.len() - i,
    {
        push_decl(&mut out, &funcs[i], refine_types);
        assert(fm[i as int] == funcs@[i as int]@);
        i = i + 1;
    }
    to_string(&out)
}

/// The declarations the header pattern matches in `text`, in order: for each
/// match, the return type, the name and the argument list as written.
pub uninterp spec fn header_decls(text: Seq<char>) -> Seq<(Seq<char>, Seq<char>, Seq<char>)>;

/// The model of a list of string triples.
pub open spec fn triples_view(v: Seq<(String, String, String)>) -> Seq<(Seq<char>, Seq<char>, Seq<char>)> {
    Seq::new(v.len(), |i: int| (v[i].0@, v[i].1@, v[i].2@))
}

/// Runs the header pattern of the regex crate (`Regex::captures_iter`) over
/// `text` and returns the `ret`, `name` and `args` groups of every match in
/// order. Claimed: the result is `header_decls(text)`, a function of the
/// text alone; nothing is claimed of what the pattern matches.
#[verifier::external_body]
fn match_header_decls(text: &str) -> (r: Vec<(String, String, String)>)
    ensures
        triples_view(r@) == header_decls(text@),
{
    let re = regex::Regex::new(
        r"(?m)^\s*(?P<ret>[a-zA-Z_][a-zA-Z0-9_\s\*&:<>]*)\s+(?P<name>[a-zA-Z_][a-zA-Z0-9_]*)\s*\((?P<args>[^;\)]*)\)\s*;\s*$",
    ).expect("regex compile");
    let mut out = Vec::new();
    for caps in re.captures_iter(text) {
        out.push((caps["ret"].to_string(), caps["name"].to_string(), caps["args"].to_string()));
    }
    out
}

/// The declaration a pattern match describes.
pub open spec fn decl_of(m: (Seq<char>, Seq<char>, Seq<char>)) -> FnModel {
    FnModel { name: m.1, params: params(m.2), ret: normalize_ws(m.0) }
}

/// The declarations the matches describe.
pub open spec fn decls_of(ms: Seq<(Seq<char>, Seq<char>, Seq<char>)>) -> Seq<FnModel> {
    Seq::new(ms.len(), |i: int| decl_of(ms[i]))
}

/// The declarations described by matches of the header pattern: the name as
/// matched, the return type with its white space normalized, and the
/// parameters parsed from the argument list.
pub fn discovered_from_matches(matches: &Vec<(String, String, String)>) -> (r: Vec<DiscoveredFn>)
    ensures
        fns_view(r@) == decls_of(triples_view(matches@)),
{
    let ghost tm = triples_view(matches@);
    let mut out: Vec<DiscoveredFn> = Vec::new();
    let mut i: usize = 0;
    while i < matches.len()
        invariant
            i <= matches.len(),
            tm == triples_view(matches@),
            out@.len() == i,
            forall|k: int| 0 <= k < i ==> #[trigger] out@[k]@ == decl_of(tm[k]),
        decreases matches.len() - i,
    {
        let (ret, name, args) = (&matches[i].0, &matches[i].1, &matches[i].2);
        let f = DiscoveredFn {
            name: to_string(&chars_of(name.as_str())),
            params: parse_params(args.as_str()),
            ret: to_string(&normalize_ws_of(&chars_of(ret.as_str()))),
        };
        assert(tm[i as int] == (ret@, name@, args@));
        out.push(f);
        i = i + 1;
    }
    assert(fns_view(out@) =~= decls_of(tm));
    out
}

/// The function declarations of a C header: each line of the form
/// `ret name(args);` found by the header pattern.
pub fn parse_header_functions(header_text: &str) -> (r: Vec<DiscoveredFn>)
    ensures
        fns_view(r@) == decls_of(header_decls(header_text@)),
{
    let matches = match_header_decls(header_text);
    discovered_from_matches(&matches)
}

// ---------------------------------------------------------------------------
// Header text

/// The text of `units` as UTF-16: a unit outside the surrogates stands for
/// itself, a high surrogate followed by a low one for the character they
/// encode together, and any other surrogate for U+FFFD.
pub open spec fn utf16_lossy_text(units: Seq<u16>) -> Seq<char>
    decreases units.len(),
{
    if units.len() == 0 {
        Seq::empty()
    } else {
        let u = units[0];
        if u < 0xD800 || u > 0xDFFF {
            seq![u as char] + utf16_lossy_text(units.drop_first())
        } else if u <= 0xDBFF && units.len() >= 2 && 0xDC00 <= units[1] <= 0xDFFF {
            seq![(0x10000 + (u - 0xD800) * 0x400 + (units[1] - 0xDC00)) as char] + utf16_lossy_text(
                units.subrange(2, units.len() as int),
            )
        } else {
            seq!['\u{FFFD}'] + utf16_lossy_text(units.drop_first())
        }
    }
}

/// The text of `bytes` as UTF-8, with each invalid sequence replaced by
/// U+FFFD.
pub uninterp spec fn utf8_lossy_text(bytes: Seq<u8>) -> Seq<char>;

/// `String::from_utf16_lossy`. Claimed: the result is the UTF-16 decoding
/// of `units` with each unpaired surrogate replaced by U+FFFD, as its
/// documentation says (see [`utf16_lossy_text`]).
#[verifier::external_body]
fn from_utf16_lossy(units: &[u16]) -> (r: String)
    ensures
        r@ == utf16_lossy_text(units@),
{
    String::from_utf16_lossy(units)
}

/// `String::from_utf8_lossy`. Claimed: the result is
/// `utf8_lossy_text(bytes)`, a function of the bytes alone; nothing more.
#[verifier::external_body]
fn from_utf8_lossy(bytes: &[u8]) -> (r: String)
    ensures
        r@ == utf8_lossy_text(bytes@),
{
    String::from_utf8_lossy(bytes).to_string()
}

/// The bytes start with the UTF-16LE byte order mark.
pub open spec fn has_bom(b: Seq<u8>) -> bool {
    b.len() >= 2 && b[0] == 0xFF && b[1] == 0xFE
}

/// The bytes look like UTF-16LE: a byte order mark, or a NUL byte among the
/// first 64.
pub open spec fn looks_utf16le(b: Seq<u8>) -> bool {
    has_bom(b) || exists|i: int| 0 <= i < b.len() && i < 64 && b[i] == 0
}

/// The little-endian 16-bit units of `b[start..]`; an odd last byte is
/// dropped.
pub open spec fn le_units(b: Seq<u8>, start: int) -> Seq<u16> {
    Seq::new(((b.len() - start) / 2) as nat, |k: int| (b[start + 2 * k] + 256 * b[start + 2 * k + 1]) as u16)
}

/// The text of a header's bytes (`read_text_any`): UTF-8 when they are valid
/// UTF-8; else UTF-16LE, after the byte order mark, when they look like it;
/// else UTF-8 with invalid sequences replaced.
pub open spec fn header_text(b: Seq<u8>) -> Seq<char> {
    match crate::onnx::utf8_text(b) {
        Some(t) => t,
        None => if looks_utf16le(b) {
            utf16_lossy_text(le_units(b, if has_bom(b) { 2 } else { 0 }))
        } else {
            utf8_lossy_text(b)
        },
    }
}

/// Decodes the bytes of a header file (see [`header_text`]).
pub fn decode_header_text(bytes: &[u8]) -> (r: String)
    ensures
        r@ == header_text(bytes@),
{
    match crate::onnx::from_utf8(bytes) {
        Some(t) => return t,
        None => {},
    }
    let bom = bytes.len() >= 2 && bytes[0] == 0xFF && bytes[1] == 0xFE;
    let mut nul = false;
    let mut i: usize = 0;
    while i < bytes.len() && i < 64
        invariant
            i <= bytes@.len(),
            i <= 64,
            nul == exists|j: int| 0 <= j < i && bytes@[j] == 0,
        decreases bytes@.len() - i,
    {
        if bytes[i] == 0 {
            nul = true;
        }
        proof {
            if nul {
                if bytes@[i as int] == 0 {
                    assert(exists|j: int| 0 <= j < i + 1 && bytes@[j] == 0);
                } else {
                    let j = choose|j: int| 0 <= j < i && bytes@[j] == 0;
                    assert(0 <= j < i + 1 && bytes@[j] == 0);
                }
            }
        }
        i = i + 1;
    }
    proof {
        if !nul {
            assert forall|j: int| 0 <= j < bytes@.len() && j < 64 implies bytes@[j] != 0 by {
                assert(j < i);
            }
        }
    }
    if bom || nul {
        let start: usize = if bom { 2 } else { 0 };
        let ghost want = le_units(bytes@, start as int);
        let mut units: Vec<u16> = Vec::new();
        let mut k: usize = 0;
        while k < (bytes.len() - start) / 2
            invariant
                start <= bytes@.len(),
                k <= (bytes@.len() - start) / 2,
                want == le_units(bytes@, start as int),
                units@ == want.subrange(0, k as int),
            decreases (bytes@.len() - start) / 2 - k,
        {
            let lo = bytes[start + 2 * k] as u16;
            let hi = bytes[start + 2 * k + 1] as u16;
            let u: u16 = lo + hi * 256;
            units.push(u);
            assert(units@ =~= want.subrange(0, k + 1));
            k = k + 1;
        }
        assert(units@ =~= want);
        from_utf16_lossy(units.as_slice())
    } else {
        from_utf8_lossy(bytes)
    }
}

// ---------------------------------------------------------------------------
// Bridge inputs and outputs
// ---------------------------------------------------------------------------

/// An error of the bridge.
#[derive(Debug)]
pub struct BridgeError {
    pub message: String,
}

/// What to bridge: headers, search directories and libraries.
#[derive(Clone, Debug, Default)]
pub struct BridgeConfig {
    pub headers: Vec<PathBuf>,
    pub include_dirs: Vec<PathBuf>,
    pub lib_dirs: Vec<PathBuf>,
    /// Additional libraries to link.
    pub libs: Vec<String>,
    /// Refined types in the shim: ranges for small unsigned C types and
    /// `Option<u32>` for pointers.
    pub refine_types: bool,
}

/// What the final link needs.
#[derive(Clone, Debug, Default)]
pub struct LinkInputs {
    pub lib_dirs: Vec<PathBuf>,
    pub libs: Vec<String>,
    /// Extra C/C++ sources compiled into the final executable.
    pub c_sources: Vec<PathBuf>,
    /// Libraries copied next to the final executable.
    pub runtime_dlls: Vec<PathBuf>,
}

/// What a bridge run produced.
#[derive(Debug)]
pub struct BridgeOutputs {
    pub aura_shim_path: PathBuf,
    pub link: LinkInputs,
    pub discovered: Vec<DiscoveredFn>,
}

} // verus!
