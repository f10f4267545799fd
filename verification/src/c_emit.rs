//! The text pieces of the C backend: C type names, callee names, escaping of
//! string literals, and the lowering of an interpolated `println` to `printf`.
use vstd::prelude::*;
use crate::text::{chars_of, find_from, lemma_find_from, push_char, to_string, nat_decimal};

verus! {

/// A C type of the generated code.
#[derive(Clone, Copy, Debug, PartialEq, Eq, Structural)]
pub enum CType {
    Void,
    Bool,
    Char,
    U8,
    U16,
    U32,
    U64,
    U128,
    USize,
    I8,
    I16,
    I32,
    I64,
    I128,
    ISize,
    F32,
    F64,
    CString,
    Tensor,
}

/// The C spelling of a type in a declaration.
pub fn map_ctype_decl(ct: CType) -> (r: &'static str)
    ensures
        r@ == ctype_decl(ct),
{
    match ct {
        CType::Void => "void",
        CType::Bool => "bool",
        CType::Char => "uint32_t",
        CType::U8 => "uint8_t",
        CType::U16 => "uint16_t",
        CType::U32 => "uint32_t",
        CType::U64 => "uint64_t",
        CType::U128 => "aura_u128_t",
        CType::USize => "size_t",
        CType::I8 => "int8_t",
        CType::I16 => "int16_t",
        CType::I32 => "int32_t",
        CType::I64 => "int64_t",
        CType::I128 => "aura_i128_t",
        CType::ISize => "ptrdiff_t",
        CType::F32 => "float",
        CType::F64 => "double",
        CType::CString => "const char*",
        CType::Tensor => "Tensor",
    }
}

/// The C spelling of a type in a declaration.
pub open spec fn ctype_decl(ct: CType) -> Seq<char> {
    match ct {
        CType::Void => "void"@,
        CType::Bool => "bool"@,
        CType::Char => "uint32_t"@,
        CType::U8 => "uint8_t"@,
        CType::U16 => "uint16_t"@,
        CType::U32 => "uint32_t"@,
        CType::U64 => "uint64_t"@,
        CType::U128 => "aura_u128_t"@,
        CType::USize => "size_t"@,
        CType::I8 => "int8_t"@,
        CType::I16 => "int16_t"@,
        CType::I32 => "int32_t"@,
        CType::I64 => "int64_t"@,
        CType::I128 => "aura_i128_t"@,
        CType::ISize => "ptrdiff_t"@,
        CType::F32 => "float"@,
        CType::F64 => "double"@,
        CType::CString => "const char*"@,
        CType::Tensor => "Tensor"@,
    }
}

/// The signedness and width in bits of each fixed-width integer type.
pub open spec fn int_layout(ct: CType) -> Option<(bool, nat)> {
    match ct {
        CType::U8 => Some((false, 8)),
        CType::U16 => Some((false, 16)),
        CType::U32 => Some((false, 32)),
        CType::U64 => Some((false, 64)),
        CType::I8 => Some((true, 8)),
        CType::I16 => Some((true, 16)),
        CType::I32 => Some((true, 32)),
        CType::I64 => Some((true, 64)),
        _ => None,
    }
}

/// The `<stdint.h>` name of an integer type of the given signedness and
/// width: `int` or `uint`, the width in decimal, `_t`.
pub open spec fn stdint_name(signed: bool, bits: nat) -> Seq<char> {
    (if signed { "int"@ } else { "uint"@ }) + nat_decimal(bits) + "_t"@
}

/// An integer type of the generated code other than `Char`.
pub open spec fn integer_ctype(ct: CType) -> bool {
    int_layout(ct) is Some || ct is U128 || ct is I128 || ct is USize || ct is ISize
}

/// A fixed-width integer type is declared with the `<stdint.h>` type of the
/// same signedness and width.
pub proof fn law_integer_types_keep_their_width(ct: CType)
    ensures
        int_layout(ct) matches Some((signed, bits)) ==> ctype_decl(ct) == stdint_name(signed, bits),
{
    reveal_strlit("int");
    reveal_strlit("uint");
    reveal_strlit("_t");
    reveal_with_fuel(nat_decimal, 3);
    match ct {
        CType::U8 => {
            reveal_strlit("uint8_t");
            assert(ctype_decl(ct) =~= stdint_name(false, 8));
        },
        CType::U16 => {
            reveal_strlit("uint16_t");
            assert(ctype_decl(ct) =~= stdint_name(false, 16));
        },
        CType::U32 => {
            reveal_strlit("uint32_t");
            assert(ctype_decl(ct) =~= stdint_name(false, 32));
        },
        CType::U64 => {
            reveal_strlit("uint64_t");
            assert(ctype_decl(ct) =~= stdint_name(false, 64));
        },
        CType::I8 => {
            reveal_strlit("int8_t");
            assert(ctype_decl(ct) =~= stdint_name(true, 8));
        },
        CType::I16 => {
            reveal_strlit("int16_t");
            assert(ctype_decl(ct) =~= stdint_name(true, 16));
        },
        CType::I32 => {
            reveal_strlit("int32_t");
            assert(ctype_decl(ct) =~= stdint_name(true, 32));
        },
        CType::I64 => {
            reveal_strlit("int64_t");
            assert(ctype_decl(ct) =~= stdint_name(true, 64));
        },
        _ => {},
    }
}

/// Two different integer types are never declared with the same C type.
pub proof fn law_integer_types_are_spelled_apart(a: CType, b: CType)
    requires
        integer_ctype(a),
        integer_ctype(b),
        a != b,
    ensures
        ctype_decl(a) != ctype_decl(b),
{
    reveal_strlit("uint8_t");
    reveal_strlit("uint16_t");
    reveal_strlit("uint32_t");
    reveal_strlit("uint64_t");
    reveal_strlit("aura_u128_t");
    reveal_strlit("size_t");
    reveal_strlit("int8_t");
    reveal_strlit("int16_t");
    reveal_strlit("int32_t");
    reveal_strlit("int64_t");
    reveal_strlit("aura_i128_t");
    reveal_strlit("ptrdiff_t");
    match a {
        CType::U8 => match b {
            CType::U16 => assert("uint8_t"@.len() != "uint16_t"@.len()),
            CType::U32 => assert("uint8_t"@.len() != "uint32_t"@.len()),
            CType::U64 => assert("uint8_t"@.len() != "uint64_t"@.len()),
            CType::U128 => assert("uint8_t"@.len() != "aura_u128_t"@.len()),
            CType::USize => assert("uint8_t"@.len() != "size_t"@.len()),
            CType::I8 => assert("uint8_t"@.len() != "int8_t"@.len()),
            CType::I16 => assert("uint8_t"@[0] != "int16_t"@[0]),
            CType::I32 => assert("uint8_t"@[0] != "int32_t"@[0]),
            CType::I64 => assert("uint8_t"@[0] != "int64_t"@[0]),
            CType::I128 => assert("uint8_t"@.len() != "aura_i128_t"@.len()),
            CType::ISize => assert("uint8_t"@.len() != "ptrdiff_t"@.len()),
            _ => {},
        },
        CType::U16 => match b {
            CType::U8 => assert("uint16_t"@.len() != "uint8_t"@.len()),
            CType::U32 => assert("uint16_t"@[4] != "uint32_t"@[4]),
            CType::U64 => assert("uint16_t"@[4] != "uint64_t"@[4]),
            CType::U128 => assert("uint16_t"@.len() != "aura_u128_t"@.len()),
            CType::USize => assert("uint16_t"@.len() != "size_t"@.len()),
            CType::I8 => assert("uint16_t"@.len() != "int8_t"@.len()),
            CType::I16 => assert("uint16_t"@.len() != "int16_t"@.len()),
            CType::I32 => assert("uint16_t"@.len() != "int32_t"@.len()),
            CType::I64 => assert("uint16_t"@.len() != "int64_t"@.len()),
            CType::I128 => assert("uint16_t"@.len() != "aura_i128_t"@.len()),
            CType::ISize => assert("uint16_t"@.len() != "ptrdiff_t"@.len()),
            _ => {},
        },
        CType::U32 => match b {
            CType::U8 => assert("uint32_t"@.len() != "uint8_t"@.len()),
            CType::U16 => assert("uint32_t"@[4] != "uint16_t"@[4]),
            CType::U64 => assert("uint32_t"@[4] != "uint64_t"@[4]),
            CType::U128 => assert("uint32_t"@.len() != "aura_u128_t"@.len()),
            CType::USize => assert("uint32_t"@.len() != "size_t"@.len()),
            CType::I8 => assert("uint32_t"@.len() != "int8_t"@.len()),
            CType::I16 => assert("uint32_t"@.len() != "int16_t"@.len()),
            CType::I32 => assert("uint32_t"@.len() != "int32_t"@.len()),
            CType::I64 => assert("uint32_t"@.len() != "int64_t"@.len()),
            CType::I128 => assert("uint32_t"@.len() != "aura_i128_t"@.len()),
            CType::ISize => assert("uint32_t"@.len() != "ptrdiff_t"@.len()),
            _ => {},
        },
        CType::U64 => match b {
            CType::U8 => assert("uint64_t"@.len() != "uint8_t"@.len()),
            CType::U16 => assert("uint64_t"@[4] != "uint16_t"@[4]),
            CType::U32 => assert("uint64_t"@[4] != "uint32_t"@[4]),
            CType::U128 => assert("uint64_t"@.len() != "aura_u128_t"@.len()),
            CType::USize => assert("uint64_t"@.len() != "size_t"@.len()),
            CType::I8 => assert("uint64_t"@.len() != "int8_t"@.len()),
            CType::I16 => assert("uint64_t"@.len() != "int16_t"@.len()),
            CType::I32 => assert("uint64_t"@.len() != "int32_t"@.len()),
            CType::I64 => assert("uint64_t"@.len() != "int64_t"@.len()),
            CType::I128 => assert("uint64_t"@.len() != "aura_i128_t"@.len()),
            CType::ISize => assert("uint64_t"@.len() != "ptrdiff_t"@.len()),
            _ => {},
        },
        CType::U128 => match b {
            CType::U8 => assert("aura_u128_t"@.len() != "uint8_t"@.len()),
            CType::U16 => assert("aura_u128_t"@.len() != "uint16_t"@.len()),
            CType::U32 => assert("aura_u128_t"@.len() != "uint32_t"@.len()),
            CType::U64 => assert("aura_u128_t"@.len() != "uint64_t"@.len()),
            CType::USize => assert("aura_u128_t"@.len() != "size_t"@.len()),
            CType::I8 => assert("aura_u128_t"@.len() != "int8_t"@.len()),
            CType::I16 => assert("aura_u128_t"@.len() != "int16_t"@.len()),
            CType::I32 => assert("aura_u128_t"@.len() != "int32_t"@.len()),
            CType::I64 => assert("aura_u128_t"@.len() != "int64_t"@.len()),
            CType::I128 => assert("aura_u128_t"@[5] != "aura_i128_t"@[5]),
            CType::ISize => assert("aura_u128_t"@.len() != "ptrdiff_t"@.len()),
            _ => {},
        },
        CType::USize => match b {
            CType::U8 => assert("size_t"@.len() != "uint8_t"@.len()),
            CType::U16 => assert("size_t"@.len() != "uint16_t"@.len()),
            CType::U32 => assert("size_t"@.len() != "uint32_t"@.len()),
            CType::U64 => assert("size_t"@.len() != "uint64_t"@.len()),
            CType::U128 => assert("size_t"@.len() != "aura_u128_t"@.len()),
            CType::I8 => assert("size_t"@[0] != "int8_t"@[0]),
            CType::I16 => assert("size_t"@.len() != "int16_t"@.len()),
            CType::I32 => assert("size_t"@.len() != "int32_t"@.len()),
            CType::I64 => assert("size_t"@.len() != "int64_t"@.len()),
            CType::I128 => assert("size_t"@.len() != "aura_i128_t"@.len()),
            CType::ISize => assert("size_t"@.len() != "ptrdiff_t"@.len()),
            _ => {},
        },
        CType::I8 => match b {
            CType::U8 => assert("int8_t"@.len() != "uint8_t"@.len()),
            CType::U16 => assert("int8_t"@.len() != "uint16_t"@.len()),
            CType::U32 => assert("int8_t"@.len() != "uint32_t"@.len()),
            CType::U64 => assert("int8_t"@.len() != "uint64_t"@.len()),
            CType::U128 => assert("int8_t"@.len() != "aura_u128_t"@.len()),
            CType::USize => assert("int8_t"@[0] != "size_t"@[0]),
            CType::I16 => assert("int8_t"@.len() != "int16_t"@.len()),
            CType::I32 => assert("int8_t"@.len() != "int32_t"@.len()),
            CType::I64 => assert("int8_t"@.len() != "int64_t"@.len()),
            CType::I128 => assert("int8_t"@.len() != "aura_i128_t"@.len()),
            CType::ISize => assert("int8_t"@.len() != "ptrdiff_t"@.len()),
            _ => {},
        },
        CType::I16 => match b {
            CType::U8 => assert("int16_t"@[0] != "uint8_t"@[0]),
            CType::U16 => assert("int16_t"@.len() != "uint16_t"@.len()),
            CType::U32 => assert("int16_t"@.len() != "uint32_t"@.len()),
            CType::U64 => assert("int16_t"@.len() != "uint64_t"@.len()),
            CType::U128 => assert("int16_t"@.len() != "aura_u128_t"@.len()),
            CType::USize => assert("int16_t"@.len() != "size_t"@.len()),
            CType::I8 => assert("int16_t"@.len() != "int8_t"@.len()),
            CType::I32 => assert("int16_t"@[3] != "int32_t"@[3]),
            CType::I64 => assert("int16_t"@[3] != "int64_t"@[3]),
            CType::I128 => assert("int16_t"@.len() != "aura_i128_t"@.len()),
            CType::ISize => assert("int16_t"@.len() != "ptrdiff_t"@.len()),
            _ => {},
        },
        CType::I32 => match b {
            CType::U8 => assert("int32_t"@[0] != "uint8_t"@[0]),
            CType::U16 => assert("int32_t"@.len() != "uint16_t"@.len()),
            CType::U32 => assert("int32_t"@.len() != "uint32_t"@.len()),
            CType::U64 => assert("int32_t"@.len() != "uint64_t"@.len()),
            CType::U128 => assert("int32_t"@.len() != "aura_u128_t"@.len()),
            CType::USize => assert("int32_t"@.len() != "size_t"@.len()),
            CType::I8 => assert("int32_t"@.len() != "int8_t"@.len()),
            CType::I16 => assert("int32_t"@[3] != "int16_t"@[3]),
            CType::I64 => assert("int32_t"@[3] != "int64_t"@[3]),
            CType::I128 => assert("int32_t"@.len() != "aura_i128_t"@.len()),
            CType::ISize => assert("int32_t"@.len() != "ptrdiff_t"@.len()),
            _ => {},
        },
        CType::I64 => match b {
            CType::U8 => assert("int64_t"@[0] != "uint8_t"@[0]),
            CType::U16 => assert("int64_t"@.len() != "uint16_t"@.len()),
            CType::U32 => assert("int64_t"@.len() != "uint32_t"@.len()),
            CType::U64 => assert("int64_t"@.len() != "uint64_t"@.len()),
            CType::U128 => assert("int64_t"@.len() != "aura_u128_t"@.len()),
            CType::USize => assert("int64_t"@.len() != "size_t"@.len()),
            CType::I8 => assert("int64_t"@.len() != "int8_t"@.len()),
            CType::I16 => assert("int64_t"@[3] != "int16_t"@[3]),
            CType::I32 => assert("int64_t"@[3] != "int32_t"@[3]),
            CType::I128 => assert("int64_t"@.len() != "aura_i128_t"@.len()),
            CType::ISize => assert("int64_t"@.len() != "ptrdiff_t"@.len()),
            _ => {},
        },
        CType::I128 => match b {
            CType::U8 => assert("aura_i128_t"@.len() != "uint8_t"@.len()),
            CType::U16 => assert("aura_i128_t"@.len() != "uint16_t"@.len()),
            CType::U32 => assert("aura_i128_t"@.len() != "uint32_t"@.len()),
            CType::U64 => assert("aura_i128_t"@.len() != "uint64_t"@.len()),
            CType::U128 => assert("aura_i128_t"@[5] != "aura_u128_t"@[5]),
            CType::USize => assert("aura_i128_t"@.len() != "size_t"@.len()),
            CType::I8 => assert("aura_i128_t"@.len() != "int8_t"@.len()),
            CType::I16 => assert("aura_i128_t"@.len() != "int16_t"@.len()),
            CType::I32 => assert("aura_i128_t"@.len() != "int32_t"@.len()),
            CType::I64 => assert("aura_i128_t"@.len() != "int64_t"@.len()),
            CType::ISize => assert("aura_i128_t"@.len() != "ptrdiff_t"@.len()),
            _ => {},
        },
        CType::ISize => match b {
            CType::U8 => assert("ptrdiff_t"@.len() != "uint8_t"@.len()),
            CType::U16 => assert("ptrdiff_t"@.len() != "uint16_t"@.len()),
            CType::U32 => assert("ptrdiff_t"@.len() != "uint32_t"@.len()),
            CType::U64 => assert("ptrdiff_t"@.len() != "uint64_t"@.len()),
            CType::U128 => assert("ptrdiff_t"@.len() != "aura_u128_t"@.len()),
            CType::USize => assert("ptrdiff_t"@.len() != "size_t"@.len()),
            CType::I8 => assert("ptrdiff_t"@.len() != "int8_t"@.len()),
            CType::I16 => assert("ptrdiff_t"@.len() != "int16_t"@.len()),
            CType::I32 => assert("ptrdiff_t"@.len() != "int32_t"@.len()),
            CType::I64 => assert("ptrdiff_t"@.len() != "int64_t"@.len()),
            CType::I128 => assert("ptrdiff_t"@.len() != "aura_i128_t"@.len()),
            _ => {},
        },
        _ => {},
    }
}

/// The return type of a built-in C function: nothing for printing and
/// display, a tensor for the others.
pub fn builtin_return_ctype(c_fn: &str) -> (r: CType)
    ensures
        r == (if c_fn@ == "aura_io_println"@ || c_fn@ == "io_display"@ { CType::Void } else { CType::Tensor }),
{
    if crate::text::str_eq(c_fn, "aura_io_println") || crate::text::str_eq(c_fn, "io_display") {
        CType::Void
    } else {
        CType::Tensor
    }
}

/// `s` with each `.` replaced by `_`.
pub open spec fn dots_to_underscores(s: Seq<char>) -> Seq<char> {
    Seq::new(s.len(), |i: int| if s[i] == '.' { '_' } else { s[i] })
}

/// `s` with each `.` replaced by `_`.
fn underscored(s: &str) -> (r: String)
    ensures
        r@ == dots_to_underscores(s@),
{
    let v = chars_of(s);
    let mut out: Vec<char> = Vec::new();
    let mut i: usize = 0;
    while i < v.len()
        invariant
            i <= v.len(),
            v@ == s@,
            out@ == dots_to_underscores(s@).subrange(0, i as int),
        decreases v.len() - i,
    {
        out.push(if v[i] == '.' { '_' } else { v[i] });
        assert(out@ =~= dots_to_underscores(s@).subrange(0, i + 1));
        i = i + 1;
    }
    assert(out@ =~= dots_to_underscores(s@));
    to_string(&out)
}

/// The C function a callee names: `io.println` is the runtime's printer, and
/// a module path `a.b` becomes `a_b`.
pub fn map_callee(name: &str) -> (r: String)
    ensures
        r@ == (if name@ == "io.println"@ { "aura_io_println"@ } else { dots_to_underscores(name@) }),
{
    if crate::text::str_eq(name, "io.println") {
        String::from_str("aura_io_println")
    } else {
        underscored(name)
    }
}

/// The C identifier of a name: `.` becomes `_`.
pub fn c_ident(name: &str) -> (r: String)
    ensures
        r@ == dots_to_underscores(name@),
{
    underscored(name)
}

/// The C spelling of one character inside a string literal.
pub open spec fn c_char_escaped(c: char) -> Seq<char> {
    if c == '\\' {
        "\\\\"@
    } else if c == '"' {
        "\\\""@
    } else {
        seq![c]
    }
}

/// `s` as the inside of a C string literal: `\` and `"` escaped.
pub open spec fn c_escaped(s: Seq<char>) -> Seq<char>
    decreases s.len(),
{
    if s.len() == 0 {
        Seq::empty()
    } else {
        c_escaped(s.drop_last()) + c_char_escaped(s.last())
    }
}

/// The spelling of one character inside a `printf` format string: `\`, `"`,
/// newline, carriage return and tab escaped, and `%` doubled.
pub open spec fn printf_char(c: char) -> Seq<char> {
    if c == '\\' {
        "\\\\"@
    } else if c == '"' {
        "\\\""@
    } else if c == '\n' {
        "\\n"@
    } else if c == '\r' {
        "\\r"@
    } else if c == '\t' {
        "\\t"@
    } else if c == '%' {
        "%%"@
    } else {
        seq![c]
    }
}

/// `s` as literal text of a `printf` format string.
pub open spec fn printf_escaped(s: Seq<char>) -> Seq<char>
    decreases s.len(),
{
    if s.len() == 0 {
        Seq::empty()
    } else {
        printf_escaped(s.drop_last()) + printf_char(s.last())
    }
}

fn push_text(out: &mut String, t: &str)
    ensures
        final(out)@ == old(out)@ + t@,
{
    out.append(t);
}

/// Appends `s[a..b]` escaped for a C string literal.
fn push_c_escaped(out: &mut String, s: &Vec<char>, a: usize, b: usize)
    requires
        a <= b <= s.len(),
    ensures
        final(out)@ == old(out)@ + c_escaped(s@.subrange(a as int, b as int)),
{
    let mut i = a;
    while i < b
        invariant
            a <= i <= b <= s.len(),
            out@ == old(out)@ + c_escaped(s@.subrange(a as int, i as int)),
        decreases b - i,
    {
        let c = s[i];
        proof {
            assert(s@.subrange(a as int, i + 1).drop_last() =~= s@.subrange(a as int, i as int));
        }
        if c == '\\' {
            push_text(out, "\\\\");
        } else if c == '"' {
            push_text(out, "\\\"");
        } else {
            push_char(out, c);
        }
        i = i + 1;
    }
}

/// `s` escaped for a C string literal (`c_escape_string_literal`).
pub fn c_escape_string_literal(s: &str) -> (r: String)
    ensures
        r@ == c_escaped(s@),
{
    let v = chars_of(s);
    let mut out = String::new();
    push_c_escaped(&mut out, &v, 0, v.len());
    assert(v@.subrange(0, v@.len() as int) =~= s@);
    out
}

/// `s` escaped for a C string literal (`escape_c_string`): each `\` and each
/// `"` gets a `\` before it.
pub fn escape_c_string(s: &str) -> (r: String)
    ensures
        r@ == c_escaped(s@),
{
    c_escape_string_literal(s)
}

/// Appends `s[a..b]` as literal text of a `printf` format string.
fn push_printf_escaped(out: &mut String, s: &Vec<char>, a: usize, b: usize)
    requires
        a <= b <= s.len(),
    ensures
        final(out)@ == old(out)@ + printf_escaped(s@.subrange(a as int, b as int)),
{
    let mut i = a;
    while i < b
        invariant
            a <= i <= b <= s.len(),
            out@ == old(out)@ + printf_escaped(s@.subrange(a as int, i as int)),
        decreases b - i,
    {
        let c = s[i];
        proof {
            assert(s@.subrange(a as int, i + 1).drop_last() =~= s@.subrange(a as int, i as int));
        }
        if c == '\\' {
            push_text(out, "\\\\");
        } else if c == '"' {
            push_text(out, "\\\"");
        } else if c == '\n' {
            push_text(out, "\\n");
        } else if c == '\r' {
            push_text(out, "\\r");
        } else if c == '\t' {
            push_text(out, "\\t");
        } else if c == '%' {
            push_text(out, "%%");
        } else {
            push_char(out, c);
        }
        i = i + 1;
    }
}

/// Appends `text` as literal text of a `printf` format string.
pub fn push_c_printf_literal(out: &mut String, text: &str)
    ensures
        final(out)@ == old(out)@ + printf_escaped(text@),
{
    let v = chars_of(text);
    push_printf_escaped(out, &v, 0, v.len());
    assert(v@.subrange(0, v@.len() as int) =~= text@);
}


/// The `printf` conversion and argument for a value of C type `ct` named
/// `c_name`, for the types that `println` can show.
pub open spec fn printf_replacement(ct: CType, c_name: Seq<char>) -> Option<(Seq<char>, Seq<char>)> {
    match ct {
        CType::U32 => Some(("%u"@, "(unsigned int)("@ + c_name + ")"@)),
        CType::I64 => Some(("%lld"@, "(long long)("@ + c_name + ")"@)),
        CType::F64 => Some(("%f"@, "(double)("@ + c_name + ")"@)),
        CType::Bool => Some(("%s"@, "(("@ + c_name + ") ? \"true\" : \"false\")"@)),
        CType::CString => Some(("%s"@, "("@ + c_name + ")"@)),
        _ => None,
    }
}

/// The named values as plain values.
pub open spec fn named_model(v: Seq<(String, (CType, String))>) -> Seq<(Seq<char>, CType, Seq<char>)> {
    v.map_values(|e: (String, (CType, String))| (e.0@, e.1.0, e.1.1@))
}

/// The C type and C name of the value named `key`.
pub open spec fn named_lookup(named: Seq<(Seq<char>, CType, Seq<char>)>, key: Seq<char>) -> Option<(CType, Seq<char>)>
    decreases named.len(),
{
    if named.len() == 0 {
        None
    } else if named.last().0 == key {
        Some((named.last().1, named.last().2))
    } else {
        named_lookup(named.drop_last(), key)
    }
}

/// The format string, the arguments, and whether any placeholder was
/// replaced, for `t[cur..]`: text outside `{name}` placeholders is kept as
/// literal text; a placeholder naming a value of a type `println` can show
/// becomes a conversion with that value as argument; any other placeholder,
/// and an unclosed `{`, stays as literal text.
pub open spec fn interpolation(t: Seq<char>, cur: int, named: Seq<(Seq<char>, CType, Seq<char>)>) -> (
    Seq<char>,
    Seq<Seq<char>>,
    bool,
)
    decreases t.len() - cur,
{
    if cur < 0 || cur >= t.len() {
        (Seq::empty(), Seq::empty(), false)
    } else {
        match find_from(t, '{', cur) {
            None => (printf_escaped(t.subrange(cur, t.len() as int)), Seq::empty(), false),
            Some(o) => match find_from(t, '}', o + 1) {
                None => (
                    printf_escaped(t.subrange(cur, o)) + printf_escaped(t.subrange(o, t.len() as int)),
                    Seq::empty(),
                    false,
                ),
                Some(c) => {
                    proof {
                        lemma_find_from(t, '{', cur);
                        lemma_find_from(t, '}', o + 1);
                    }
                    let (f, a, rep) = interpolation(t, c + 1, named);
                    match named_lookup(named, t.subrange(o + 1, c)) {
                        Some((ct, n)) => match printf_replacement(ct, n) {
                            Some((conv, arg)) => (printf_escaped(t.subrange(cur, o)) + conv + f, seq![arg] + a, true),
                            None => (printf_escaped(t.subrange(cur, o)) + printf_escaped(t.subrange(o, c + 1)) + f, a, rep),
                        },
                        None => (printf_escaped(t.subrange(cur, o)) + printf_escaped(t.subrange(o, c + 1)) + f, a, rep),
                    }
                },
            },
        }
    }
}

/// `, a` for each argument `a`.
pub open spec fn printf_args(a: Seq<Seq<char>>) -> Seq<char>
    decreases a.len(),
{
    if a.len() == 0 {
        Seq::empty()
    } else {
        printf_args(a.drop_last()) + ", "@ + a.last()
    }
}

/// The `printf` statement for an interpolated `println` of `template`.
pub open spec fn println_statement(template: Seq<char>, named: Seq<(Seq<char>, CType, Seq<char>)>) -> Seq<char> {
    let (f, a, _) = interpolation(template, 0, named);
    "  printf(\""@ + f + "\\n\""@ + printf_args(a) + ");\n"@
}

fn find_from_of(s: &Vec<char>, c: char, i: usize) -> (r: Option<usize>)
    ensures
        match r {
            Some(k) => find_from(s@, c, i as int) == Some(k as int) && k < s.len(),
            None => find_from(s@, c, i as int) is None,
        },
{
    let mut k = i;
    while k < s.len()
        invariant
            i <= k,
            find_from(s@, c, i as int) == find_from(s@, c, k as int),
        decreases s.len() - k,
    {
        if s[k] == c {
            return Some(k);
        }
        k = k + 1;
    }
    None
}

fn lookup_named(named: &Vec<(String, (CType, String))>, key: &Vec<char>) -> (r: Option<usize>)
    ensures
        match named_lookup(named_model(named@), key@) {
            Some(e) => r matches Some(i) && i < named.len() && (named@[i as int].1.0, named@[i as int].1.1@) == e,
            None => r is None,
        },
{
    let ghost m = named_model(named@);
    let mut k = named.len();
    assert(m.subrange(0, k as int) =~= m);
    while k > 0
        invariant
            k <= named.len(),
            m == named_model(named@),
            named_lookup(m, key@) == named_lookup(m.subrange(0, k as int), key@),
        decreases k,
    {
        let ghost sub = m.subrange(0, k as int);
        assert(sub.drop_last() =~= m.subrange(0, k - 1));
        assert(sub.last() == m[k - 1]);
        let name_chars = chars_of(named[k - 1].0.as_str());
        if crate::text::vec_eq(&name_chars, key) {
            return Some(k - 1);
        }
        k = k - 1;
    }
    assert(m.subrange(0, 0) =~= Seq::<(Seq<char>, CType, Seq<char>)>::empty());
    None
}

/// Appends the `printf` of an interpolated `println` of `template`, when
/// at least one of its placeholders names a value of a type `println` can
/// show, and says whether it did; otherwise `out` is left as it was.
pub fn emit_interpolated_println(
    out: &mut String,
    template: &str,
    named_values: &Vec<(String, (CType, String))>,
) -> (r: bool)
    ensures
        r == interpolation(template@, 0, named_model(named_values@)).2,
        r ==> final(out)@ == old(out)@ + println_statement(template@, named_model(named_values@)),
        !r ==> final(out)@ == old(out)@,
{
    let t = chars_of(template);
    let ghost nm = named_model(named_values@);
    let mut fmt = String::new();
    let mut args: Vec<String> = Vec::new();
    let mut replaced = false;
    let mut cursor: usize = 0;
    while cursor < t.len()
        invariant
            t@ == template@,
            nm == named_model(named_values@),
            cursor <= t.len(),
            ({
                let (f, a, rep) = interpolation(t@, cursor as int, nm);
                let (f0, a0, rep0) = interpolation(t@, 0, nm);
                &&& fmt@ + f == f0
                &&& args@.map_values(|x: String| x@) + a == a0
                &&& (replaced || rep) == rep0
            }),
        decreases t.len() - cursor,
    {
        let ghost before_f = fmt@;
        let ghost before_a = args@.map_values(|x: String| x@);
        match find_from_of(&t, '{', cursor) {
            None => {
                push_printf_escaped(&mut fmt, &t, cursor, t.len());
                cursor = t.len();
            },
            Some(open) => {
                proof {
                    lemma_find_from(t@, '{', cursor as int);
                }
                push_printf_escaped(&mut fmt, &t, cursor, open);
                match find_from_of(&t, '}', open + 1) {
                    None => {
                        push_printf_escaped(&mut fmt, &t, open, t.len());
                        cursor = t.len();
                    },
                    Some(close) => {
                        proof {
                            lemma_find_from(t@, '{', cursor as int);
                            lemma_find_from(t@, '}', open + 1);
                        }
                        let key = crate::text::slice(&t, open + 1, close);
                        let mut done = false;
                        match lookup_named(named_values, &key) {
                            Some(i) => {
                                let c_name = named_values[i].1.1.as_str();
                                match named_values[i].1.0 {
                                    CType::U32 => {
                                        push_text(&mut fmt, "%u");
                                        let mut a = String::from_str("(unsigned int)(");
                                        a.append(c_name);
                                        a.append(")");
                                        args.push(a);
                                        done = true;
                                    },
                                    CType::I64 => {
                                        push_text(&mut fmt, "%lld");
                                        let mut a = String::from_str("(long long)(");
                                        a.append(c_name);
                                        a.append(")");
                                        args.push(a);
                                        done = true;
                                    },
                                    CType::F64 => {
                                        push_text(&mut fmt, "%f");
                                        let mut a = String::from_str("(double)(");
                                        a.append(c_name);
                                        a.append(")");
                                        args.push(a);
                                        done = true;
                                    },
                                    CType::Bool => {
                                        push_text(&mut fmt, "%s");
                                        let mut a = String::from_str("((");
                                        a.append(c_name);
                                        a.append(") ? \"true\" : \"false\")");
                                        args.push(a);
                                        done = true;
                                    },
                                    CType::CString => {
                                        push_text(&mut fmt, "%s");
                                        let mut a = String::from_str("(");
                                        a.append(c_name);
                                        a.append(")");
                                        args.push(a);
                                        done = true;
                                    },
                                    _ => {},
                                }
                            },
                            None => {},
                        }
                        if done {
                            replaced = true;
                        } else {
                            push_printf_escaped(&mut fmt, &t, open, close + 1);
                        }
                        cursor = close + 1;
                    },
                }
            },
        }
    }
    if !replaced {
        return false;
    }
    out.append("  printf(\"");
    out.append(fmt.as_str());
    out.append("\\n\"");
    let mut j: usize = 0;
    while j < args.len()
        invariant
            j <= args.len(),
            out@ == old(out)@ + "  printf(\""@ + fmt@ + "\\n\""@ + printf_args(
                args@.map_values(|x: String| x@).subrange(0, j as int),
            ),
        decreases args.len() - j,
    {
        let ghost am = args@.map_values(|x: String| x@);
        proof {
            assert(am.subrange(0, j + 1).drop_last() =~= am.subrange(0, j as int));
            assert(am.subrange(0, j + 1).last() == args@[j as int]@);
        }
        out.append(", ");
        out.append(args[j].as_str());
        j = j + 1;
    }
    out.append(");\n");
    proof {
        let am = args@.map_values(|x: String| x@);
        let (f0, a0, rep0) = interpolation(t@, 0, nm);
        assert(fmt@ + Seq::<char>::empty() =~= fmt@);
        assert(am + Seq::<Seq<char>>::empty() =~= am);
        assert(am.subrange(0, args@.len() as int) =~= am);
    }
    true
}

} // verus!
