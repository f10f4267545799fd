//! Input and output tensor shapes of an ONNX model, read straight from the
//! protobuf wire format of the model bytes.
use vstd::prelude::*;
use vstd::arithmetic::power2::{
    pow2,
    lemma2_to64,
    lemma2_to64_rest,
    lemma_pow2_adds,
    lemma_pow2_pos,
    lemma_pow2_strictly_increases,
};
use vstd::arithmetic::mul::lemma_mul_inequality;
use vstd::arithmetic::div_mod::{lemma_mod_multiples_vanish, lemma_small_mod};
use vstd::bits::lemma_u64_shl_is_mul;

verus! {

// ---------------------------------------------------------------------------
// Varints
// ---------------------------------------------------------------------------

/// The length of the varint that starts `s`, looking at byte `i` on: the
/// first byte without its continuation bit ends it, and at most ten bytes
/// are read.
pub open spec fn varint_len_from(s: Seq<u8>, i: int) -> Option<int>
    decreases s.len() - i,
{
    if i < 0 || i >= s.len() || i >= 10 {
        None
    } else if s[i] < 128 {
        Some(i + 1)
    } else {
        varint_len_from(s, i + 1)
    }
}

/// The value of the first `n` bytes of `s` as base-128 digits, least
/// significant first.
pub open spec fn varint_sum(s: Seq<u8>, n: int) -> nat
    decreases n,
{
    if n <= 0 || n > s.len() {
        0
    } else {
        varint_sum(s, n - 1) + (s[n - 1] % 128) as nat * pow2((7 * (n - 1)) as nat)
    }
}

/// `read_varint`: the value of the varint that starts `s`, reduced to 64
/// bits, and the number of bytes it takes.
pub open spec fn read_varint(s: Seq<u8>) -> Option<(u64, int)> {
    match varint_len_from(s, 0) {
        Some(n) => Some(((varint_sum(s, n) % pow2(64)) as u64, n)),
        None => None,
    }
}

pub proof fn lemma_varint_len_from(s: Seq<u8>, i: int)
    requires
        0 <= i,
    ensures
        varint_len_from(s, i) matches Some(n) ==> i < n <= s.len() && n <= 10,
    decreases s.len() - i,
{
    if i < s.len() && i < 10 && s[i] >= 128 {
        lemma_varint_len_from(s, i + 1);
    }
}

proof fn lemma_varint_sum_bound(s: Seq<u8>, n: int)
    requires
        0 <= n <= s.len(),
    ensures
        varint_sum(s, n) < pow2((7 * n) as nat),
    decreases n,
{
    if n > 0 {
        lemma_varint_sum_bound(s, n - 1);
        let p = pow2((7 * (n - 1)) as nat);
        lemma_pow2_pos((7 * (n - 1)) as nat);
        lemma_pow2_adds((7 * (n - 1)) as nat, 7);
        lemma2_to64();
        lemma_mul_inequality((s[n - 1] % 128) as int, 127, p as int);
        assert(pow2((7 * n) as nat) == p * 128) by {
            assert((7 * (n - 1)) as nat + 7 == (7 * n) as nat);
        }
    } else {
        lemma_pow2_pos(0);
    }
}

proof fn lemma_pow2_le(a: nat, b: nat)
    requires
        a <= b,
    ensures
        pow2(a) <= pow2(b),
{
    if a < b {
        vstd::arithmetic::power2::lemma_pow2_strictly_increases(a, b);
    }
}

/// One more base-128 digit at `shift` joins a value that is below
/// `2^shift`.
proof fn lemma_varint_step(v: u64, low: u64, shift: u64)
    requires
        shift <= 63,
        shift % 7 == 0,
        low < 128,
        (v as nat) < pow2(shift as nat),
    ensures
        (v | (low << shift)) as nat == (v as nat + low as nat * pow2(shift as nat)) % pow2(64),
{
    lemma2_to64();
    lemma2_to64_rest();
    vstd::bits::lemma_u64_pow2_no_overflow(shift as nat);
    lemma_u64_shl_is_mul(1, shift);
    assert((1u64 << shift) as nat == pow2(shift as nat));
    if shift <= 56 {
        assert(pow2(shift as nat) <= pow2(56)) by {
            lemma_pow2_le(shift as nat, 56);
        }
        lemma_mul_inequality(low as int, 127, pow2(shift as nat) as int);
        lemma_u64_shl_is_mul(low, shift);
        assert(v | (low << shift) == v + (low << shift)) by (bit_vector)
            requires
                v < (1u64 << shift),
                low < 128,
                shift <= 56,
        ;
        lemma_small_mod((v as nat + low as nat * pow2(shift as nat)) as nat, pow2(64));
    } else {
        assert(shift == 63);
        let r: u64 = low % 2;
        assert(v | (low << shift) == v + (r << shift)) by (bit_vector)
            requires
                v < (1u64 << shift),
                shift == 63,
                r == low % 2,
        ;
        lemma_u64_shl_is_mul(r, shift);
        let q: int = low as int / 2;
        assert(low as int == 2 * q + r);
        assert(low as nat * pow2(63) == pow2(64) * q + r * pow2(63)) by (nonlinear_arith)
            requires
                low as int == 2 * q + r,
                pow2(64) == 2 * pow2(63),
        ;
        lemma_mod_multiples_vanish(q, (v + r * pow2(63)) as int, pow2(64) as int);
        lemma_small_mod((v + r * pow2(63)) as nat, pow2(64));
    }
}

/// Reads the varint that starts at `lo` in `buf[lo..hi]`, giving its value
/// and the position just past it.
fn read_varint_of(buf: &[u8], lo: usize, hi: usize) -> (r: Option<(u64, usize)>)
    requires
        lo <= hi <= buf@.len(),
    ensures
        match read_varint(buf@.subrange(lo as int, hi as int)) {
            Some((v, n)) => r == Some((v, (lo + n) as usize)),
            None => r is None,
        },
{
    let ghost w = buf@.subrange(lo as int, hi as int);
    let mut value: u64 = 0;
    let mut shift: u64 = 0;
    let mut i = lo;
    proof {
        lemma_varint_len_from(w, 0);
    }
    while i < hi
        invariant
            lo <= i <= hi <= buf@.len(),
            w == buf@.subrange(lo as int, hi as int),
            shift == 7 * (i - lo),
            shift <= 63,
            value as nat == varint_sum(w, i - lo),
            varint_len_from(w, 0) == varint_len_from(w, i - lo),
        decreases hi - i,
    {
        let b = buf[i];
        let low: u64 = (b & 0x7f) as u64;
        assert(b & 0x7f == b % 128) by (bit_vector);
        proof {
            lemma_varint_sum_bound(w, (i - lo) as int);
            lemma_varint_step(value, low, shift);
            assert(w[i - lo] == b);
            lemma2_to64();
            lemma2_to64_rest();
            if shift <= 56 {
                lemma_varint_sum_bound(w, i - lo + 1);
                lemma_pow2_le((7 * (i - lo + 1)) as nat, 63);
                lemma_small_mod(varint_sum(w, i - lo + 1), pow2(64));
            }
        }
        value = value | (low << shift);
        i = i + 1;
        if b & 0x80 == 0 {
            assert(b & 0x80 == 0 ==> b < 128) by (bit_vector);
            return Some((value, i));
        }
        assert(b & 0x80 != 0 ==> b >= 128) by (bit_vector);
        shift = shift + 7;
        if shift > 63 {
            return None;
        }
    }
    None
}


// ---------------------------------------------------------------------------
// Fields
// ---------------------------------------------------------------------------

/// The wire type of a field.
#[derive(Clone, Copy, Debug, PartialEq, Eq, Structural)]
pub enum WireType {
    Varint,
    Len,
    Other(u8),
}

/// The number of bytes that a field of an unknown wire type takes after its
/// key (`skip_unknown`).
pub open spec fn skip_len(s: Seq<u8>, wire: u8) -> Option<int> {
    if wire == 0 {
        match read_varint(s) {
            Some((_v, n)) => Some(n),
            None => None,
        }
    } else if wire == 1 {
        if s.len() < 8 { None } else { Some(8) }
    } else if wire == 2 {
        match read_varint(s) {
            Some((len, n)) => if len > usize::MAX || s.len() - n < len { None } else { Some(n + len) },
            None => None,
        }
    } else if wire == 5 {
        if s.len() < 4 { None } else { Some(4) }
    } else {
        None
    }
}

/// The field that starts `s` (`next_field`): its number, its wire type, the
/// bounds of its value within `s`, and the number of bytes it takes. The
/// value of a varint field is the varint's own bytes; a field of another
/// wire type than varint or length-delimited has an empty value.
pub open spec fn next_field(s: Seq<u8>) -> Option<(u32, WireType, int, int, int)> {
    match read_varint(s) {
        None => None,
        Some((key, n)) => {
            let field = ((key / 8) % 0x1_0000_0000) as u32;
            let wt = (key % 8) as u8;
            let rest = s.subrange(n, s.len() as int);
            if wt == 0 {
                match read_varint(rest) {
                    Some((_v, m)) => Some((field, WireType::Varint, n, n + m, n + m)),
                    None => None,
                }
            } else if wt == 2 {
                match read_varint(rest) {
                    Some((len, m)) => if len > usize::MAX || rest.len() - m < len {
                        None
                    } else {
                        Some((field, WireType::Len, n + m, n + m + len, n + m + len))
                    },
                    None => None,
                }
            } else {
                match skip_len(rest, wt) {
                    Some(c) => Some((field, WireType::Other(wt), n, n, n + c)),
                    None => None,
                }
            }
        },
    }
}

pub proof fn lemma_read_varint(s: Seq<u8>)
    ensures
        read_varint(s) matches Some((_v, n)) ==> 0 < n <= s.len(),
{
    lemma_varint_len_from(s, 0);
}

pub proof fn lemma_next_field(s: Seq<u8>)
    ensures
        next_field(s) matches Some((_f, _w, a, b, c)) ==> 0 < c <= s.len() && 0 <= a <= b <= c,
{
    lemma_read_varint(s);
    if let Some((key, n)) = read_varint(s) {
        let rest = s.subrange(n, s.len() as int);
        lemma_read_varint(rest);
    }
}

/// Skips a field of wire type `wire` whose key ends at `lo`; the position
/// after it.
fn skip_unknown(buf: &[u8], lo: usize, hi: usize, wire: u8) -> (r: Option<usize>)
    requires
        lo <= hi <= buf@.len(),
    ensures
        match skip_len(buf@.subrange(lo as int, hi as int), wire) {
            Some(c) => r == Some((lo + c) as usize),
            None => r is None,
        },
{
    let ghost w = buf@.subrange(lo as int, hi as int);
    if wire == 0 {
        match read_varint_of(buf, lo, hi) {
            Some((_v, e)) => Some(e),
            None => None,
        }
    } else if wire == 1 {
        if hi - lo < 8 { None } else { Some(lo + 8) }
    } else if wire == 2 {
        match read_varint_of(buf, lo, hi) {
            Some((len, e)) => {
                proof {
                    lemma_read_varint(w);
                }
                if len > usize::MAX as u64 || ((hi - e) as u64) < len {
                    None
                } else {
                    Some(e + len as usize)
                }
            },
            None => None,
        }
    } else if wire == 5 {
        if hi - lo < 4 { None } else { Some(lo + 4) }
    } else {
        None
    }
}

/// The field that starts at `lo` in `buf[lo..hi]`: its number, wire type,
/// the bounds of its value and the position after it, all within `buf`.
fn next_field_of(buf: &[u8], lo: usize, hi: usize) -> (r: Option<(u32, WireType, usize, usize, usize)>)
    requires
        lo <= hi <= buf@.len(),
    ensures
        match next_field(buf@.subrange(lo as int, hi as int)) {
            Some((f, wt, a, b, c)) => r == Some((f, wt, (lo + a) as usize, (lo + b) as usize, (lo + c) as usize)),
            None => r is None,
        },
{
    let ghost w = buf@.subrange(lo as int, hi as int);
    proof {
        lemma_read_varint(w);
    }
    let (key, k) = match read_varint_of(buf, lo, hi) {
        Some(t) => t,
        None => return None,
    };
    let field: u32 = (key >> 3) as u32;
    assert(field == ((key / 8) % 0x1_0000_0000) as u32) by (bit_vector)
        requires
            field == (key >> 3) as u32,
    ;
    let wt: u8 = (key & 0x07) as u8;
    assert(wt == (key % 8) as u8) by (bit_vector)
        requires
            wt == (key & 0x07) as u8,
    ;
    let ghost rest = w.subrange(k - lo, w.len() as int);
    assert(rest =~= buf@.subrange(k as int, hi as int));
    proof {
        lemma_read_varint(rest);
    }
    if wt == 0 {
        match read_varint_of(buf, k, hi) {
            Some((_v, e)) => Some((field, WireType::Varint, k, e, e)),
            None => None,
        }
    } else if wt == 2 {
        match read_varint_of(buf, k, hi) {
            Some((len, e)) => {
                if len > usize::MAX as u64 || ((hi - e) as u64) < len {
                    None
                } else {
                    let end = e + len as usize;
                    Some((field, WireType::Len, e, end, end))
                }
            },
            None => None,
        }
    } else {
        match skip_unknown(buf, k, hi, wt) {
            Some(e) => Some((field, WireType::Other(wt), k, k, e)),
            None => None,
        }
    }
}

/// The value of the first length-delimited field numbered `num` in `s[p..]`
/// (`find_len_delimited_field`); the search stops at the first field that
/// cannot be read.
pub open spec fn find_len_from(s: Seq<u8>, num: u32, p: int) -> Option<Seq<u8>>
    decreases s.len() - p,
{
    if p < 0 || p >= s.len() {
        None
    } else {
        proof {
            lemma_next_field(s.subrange(p, s.len() as int));
        }
        match next_field(s.subrange(p, s.len() as int)) {
            None => None,
            Some((f, wt, a, b, c)) => if f == num && wt == WireType::Len {
                Some(s.subrange(p + a, p + b))
            } else if c <= 0 {
                None
            } else {
                find_len_from(s, num, p + c)
            },
        }
    }
}

/// The value of the first length-delimited field numbered `num` in `s`.
pub open spec fn find_len(s: Seq<u8>, num: u32) -> Option<Seq<u8>> {
    find_len_from(s, num, 0)
}

fn find_len_of(buf: &[u8], lo: usize, hi: usize, num: u32) -> (r: Option<(usize, usize)>)
    requires
        lo <= hi <= buf@.len(),
    ensures
        r matches Some((a, b)) ==> lo <= a <= b <= hi && find_len(buf@.subrange(lo as int, hi as int), num)
            == Some(buf@.subrange(a as int, b as int)),
        r is None ==> find_len(buf@.subrange(lo as int, hi as int), num) is None,
{
    let ghost w = buf@.subrange(lo as int, hi as int);
    let mut p = lo;
    while p < hi
        invariant
            lo <= p <= hi <= buf@.len(),
            w == buf@.subrange(lo as int, hi as int),
            find_len(w, num) == find_len_from(w, num, p - lo),
        decreases hi - p,
    {
        let ghost tail = buf@.subrange(p as int, hi as int);
        assert(w.subrange(p - lo, w.len() as int) =~= tail);
        proof {
            lemma_next_field(tail);
        }
        match next_field_of(buf, p, hi) {
            None => {
                return None;
            },
            Some((f, wt, a, b, c)) => {
                if f == num && wt == WireType::Len {
                    assert(w.subrange(p - lo + (a - p), p - lo + (b - p)) =~= buf@.subrange(a as int, b as int));
                    return Some((a, b));
                }
                p = c;
            },
        }
    }
    None
}


// ---------------------------------------------------------------------------
// Dimensions and shapes
// ---------------------------------------------------------------------------

/// One dimension of a tensor shape.
#[derive(Clone, Debug, PartialEq, Eq)]
pub enum OnnxDim {
    Known(i64),
    Symbolic(String),
}

/// The model of a dimension.
pub enum DimModel {
    Known(i64),
    Symbolic(Seq<char>),
}

impl View for OnnxDim {
    type V = DimModel;

    open spec fn view(&self) -> DimModel {
        match self {
            OnnxDim::Known(v) => DimModel::Known(*v),
            OnnxDim::Symbolic(t) => DimModel::Symbolic(t@),
        }
    }
}

/// The models of a list of dimensions.
pub open spec fn dims_view(v: Seq<OnnxDim>) -> Seq<DimModel> {
    Seq::new(v.len(), |i: int| v[i]@)
}

/// The input and output shapes of a model.
#[derive(Clone, Debug, PartialEq, Eq)]
pub struct OnnxIoShapes {
    pub input: Vec<OnnxDim>,
    pub output: Vec<OnnxDim>,
}

/// The text that the bytes encode when they are valid UTF-8.
pub open spec fn utf8_text(bytes: Seq<u8>) -> Option<Seq<char>> {
    if vstd::utf8::valid_utf8(bytes) {
        Some(vstd::utf8::decode_utf8(bytes))
    } else {
        None
    }
}

/// `std::str::from_utf8`. Claimed, as its documentation says: it succeeds
/// exactly on valid UTF-8 (vstd's `valid_utf8`), and then the text is the
/// characters the bytes encode (vstd's `decode_utf8`).
#[verifier::external_body]
pub(crate) fn from_utf8(bytes: &[u8]) -> (r: Option<String>)
    ensures
        r matches Some(t) ==> utf8_text(bytes@) == Some(t@),
        r is None ==> utf8_text(bytes@) is None,
{
    match std::str::from_utf8(bytes) {
        Ok(t) => Some(t.to_string()),
        Err(_) => None,
    }
}

/// The value of a varint that takes all of `s` (`decode_varint`).
pub open spec fn decode_varint(s: Seq<u8>) -> Option<u64> {
    match read_varint(s) {
        Some((v, n)) => if n == s.len() { Some(v) } else { None },
        None => None,
    }
}

/// The canonical varint of `v`: its base-128 digits, least significant
/// first, each but the last with its high bit set.
pub open spec fn varint_of(v: nat) -> Seq<u8>
    decreases v,
{
    if v < 128 {
        seq![v as u8]
    } else {
        seq![(v % 128 + 128) as u8] + varint_of(v / 128)
    }
}

proof fn lemma_varint_of_shape(v: nat)
    ensures
        varint_of(v).len() >= 1,
        varint_of(v)[varint_of(v).len() - 1] < 128,
        forall|j: int| 0 <= j < varint_of(v).len() - 1 ==> #[trigger] varint_of(v)[j] >= 128,
    decreases v,
{
    if v >= 128 {
        lemma_varint_of_shape(v / 128);
        let t = varint_of(v / 128);
        let s = varint_of(v);
        assert(s == seq![(v % 128 + 128) as u8] + t);
        assert forall|j: int| 0 <= j < s.len() - 1 implies #[trigger] s[j] >= 128 by {
            if j > 0 {
                assert(s[j] == t[j - 1]);
            }
        }
        assert(s[s.len() - 1] == t[t.len() - 1]);
    }
}

proof fn lemma_varint_of_len(v: nat, k: nat)
    requires
        1 <= k,
        v < pow2(7 * k),
    ensures
        varint_of(v).len() <= k,
    decreases v,
{
    if v >= 128 {
        lemma2_to64();
        if k == 1 {
            assert(pow2(7) == 128);
        } else {
            let p = pow2((7 * (k - 1)) as nat);
            lemma_pow2_adds(7, (7 * (k - 1)) as nat);
            assert(7 + 7 * (k - 1) == 7 * k) by (nonlinear_arith);
            assert(pow2(7 * k) == 128 * p);
            assert(v / 128 < p) by (nonlinear_arith)
                requires
                    v < 128 * p,
            ;
            lemma_varint_of_len(v / 128, (k - 1) as nat);
        }
    }
}

proof fn lemma_varint_sum_cons(b: u8, t: Seq<u8>, m: int)
    requires
        0 <= m <= t.len(),
    ensures
        varint_sum(seq![b] + t, m + 1) == (b % 128) as nat + 128 * varint_sum(t, m),
    decreases m,
{
    let s = seq![b] + t;
    lemma2_to64();
    if m > 0 {
        lemma_varint_sum_cons(b, t, m - 1);
        assert(s[m] == t[m - 1]);
        lemma_pow2_adds(7, (7 * (m - 1)) as nat);
        assert(7 + 7 * (m - 1) == 7 * m) by (nonlinear_arith);
        let x = (t[m - 1] % 128) as nat;
        let p = pow2((7 * (m - 1)) as nat);
        let q = pow2((7 * m) as nat);
        assert(q == 128 * p);
        assert(varint_sum(s, m + 1) == varint_sum(s, m) + x * q);
        assert(varint_sum(s, m) == (b % 128) as nat + 128 * varint_sum(t, m - 1));
        assert(varint_sum(t, m) == varint_sum(t, m - 1) + x * p);
        assert(x * (128 * p) == 128 * (x * p)) by (nonlinear_arith);
        assert(128 * (varint_sum(t, m - 1) + x * p) == 128 * varint_sum(t, m - 1) + 128 * (x * p))
            by (nonlinear_arith);
    } else {
        assert(s[0] == b);
        assert(varint_sum(s, 1) == varint_sum(s, 0) + (s[0] % 128) as nat * pow2(0));
    }
}

proof fn lemma_varint_of_sum(v: nat)
    ensures
        varint_sum(varint_of(v), varint_of(v).len() as int) == v,
    decreases v,
{
    lemma2_to64();
    if v >= 128 {
        lemma_varint_of_sum(v / 128);
        let t = varint_of(v / 128);
        let b = (v % 128 + 128) as u8;
        lemma_varint_sum_cons(b, t, t.len() as int);
        assert(varint_of(v) == seq![b] + t);
        assert(b % 128 == v % 128);
    } else {
        let e = varint_of(v);
        assert(e[0] == v as u8);
        assert(varint_sum(e, 1) == varint_sum(e, 0) + (e[0] % 128) as nat * pow2(0));
    }
}

proof fn lemma_varint_sum_prefix(s: Seq<u8>, t: Seq<u8>, n: int)
    requires
        0 <= n <= t.len(),
        n <= s.len(),
        forall|j: int| 0 <= j < n ==> s[j] == t[j],
    ensures
        varint_sum(s, n) == varint_sum(t, n),
    decreases n,
{
    if n > 0 {
        lemma_varint_sum_prefix(s, t, n - 1);
    }
}

proof fn lemma_varint_len_at(s: Seq<u8>, m: int, i: int)
    requires
        1 <= m <= s.len(),
        m <= 10,
        0 <= i < m,
        s[m - 1] < 128,
        forall|j: int| 0 <= j < m - 1 ==> #[trigger] s[j] >= 128,
    ensures
        varint_len_from(s, i) == Some(m),
    decreases m - i,
{
    if i < m - 1 {
        lemma_varint_len_at(s, m, i + 1);
    }
}

/// Decoding the canonical varint of a `u64` gives it back, and a varint
/// followed by more bytes is refused: `decode_varint` takes exactly one
/// varint.
pub proof fn law_varint_round_trip(v: u64, rest: Seq<u8>)
    ensures
        decode_varint(varint_of(v as nat)) == Some(v),
        rest.len() > 0 ==> decode_varint(varint_of(v as nat) + rest) is None,
{
    let e = varint_of(v as nat);
    lemma_varint_of_shape(v as nat);
    lemma2_to64();
    lemma2_to64_rest();
    lemma_pow2_strictly_increases(64, 70);
    lemma_varint_of_len(v as nat, 10);
    lemma_varint_of_sum(v as nat);
    assert(v as nat % pow2(64) == v as nat) by {
        lemma_small_mod(v as nat, pow2(64));
    }
    let s = e + rest;
    assert forall|j: int| 0 <= j < e.len() - 1 implies #[trigger] s[j] >= 128 by {
        assert(s[j] == e[j]);
    }
    assert(s[e.len() - 1] == e[e.len() - 1]);
    lemma_varint_len_at(s, e.len() as int, 0);
    lemma_varint_len_at(e, e.len() as int, 0);
    lemma_varint_sum_prefix(s, e, e.len() as int);
}

/// A `u64` read as the `i64` with the same bits.
pub open spec fn as_signed(v: u64) -> i64 {
    if v <= i64::MAX { v as i64 } else { (v - 0x1_0000_0000_0000_0000) as i64 }
}

/// The last value (field 1, a varint) and the last parameter (field 2, UTF-8
/// text) of a dimension message `s[p..]`, starting from `v` and `q`; `None`
/// when a value does not decode or a parameter is not UTF-8.
pub open spec fn dim_scan(s: Seq<u8>, p: int, v: Option<i64>, q: Option<Seq<char>>) -> Option<
    (Option<i64>, Option<Seq<char>>),
>
    decreases s.len() - p,
{
    if p < 0 || p >= s.len() {
        Some((v, q))
    } else {
        proof {
            lemma_next_field(s.subrange(p, s.len() as int));
        }
        match next_field(s.subrange(p, s.len() as int)) {
            None => Some((v, q)),
            Some((f, wt, a, b, c)) => {
                let val = s.subrange(p + a, p + b);
                if c <= 0 {
                    Some((v, q))
                } else if f == 1 && wt == WireType::Varint {
                    match decode_varint(val) {
                        Some(x) => dim_scan(s, p + c, Some(as_signed(x)), q),
                        None => None,
                    }
                } else if f == 2 && wt == WireType::Len {
                    match utf8_text(val) {
                        Some(t) => dim_scan(s, p + c, v, Some(t)),
                        None => None,
                    }
                } else {
                    dim_scan(s, p + c, v, q)
                }
            },
        }
    }
}

/// A dimension message (`parse_dimension`): its value when it has one, else
/// its parameter.
pub open spec fn parse_dim(s: Seq<u8>) -> Option<DimModel> {
    match dim_scan(s, 0, None, None) {
        Some((Some(x), _)) => Some(DimModel::Known(x)),
        Some((None, Some(t))) => Some(DimModel::Symbolic(t)),
        _ => None,
    }
}

/// The dimensions (fields 1 that parse) of a shape message `s[p..]`, in order.
pub open spec fn dims_from(s: Seq<u8>, p: int) -> Seq<DimModel>
    decreases s.len() - p,
{
    if p < 0 || p >= s.len() {
        Seq::empty()
    } else {
        proof {
            lemma_next_field(s.subrange(p, s.len() as int));
        }
        match next_field(s.subrange(p, s.len() as int)) {
            None => Seq::empty(),
            Some((f, wt, a, b, c)) => {
                if c <= 0 {
                    Seq::empty()
                } else if f == 1 && wt == WireType::Len {
                    match parse_dim(s.subrange(p + a, p + b)) {
                        Some(d) => seq![d] + dims_from(s, p + c),
                        None => dims_from(s, p + c),
                    }
                } else {
                    dims_from(s, p + c)
                }
            },
        }
    }
}

/// The shape of a value-info message (`extract_value_info_shape`): its type
/// (field 2), tensor type (field 1), shape (field 2) and the dimensions there.
pub open spec fn value_info_shape(vi: Seq<u8>) -> Option<Seq<DimModel>> {
    match find_len(vi, 2) {
        None => None,
        Some(tp) => match find_len(tp, 1) {
            None => None,
            Some(tt) => match find_len(tt, 2) {
                None => None,
                Some(shape) => Some(dims_from(shape, 0)),
            },
        },
    }
}

fn decode_varint_of(buf: &[u8], lo: usize, hi: usize) -> (r: Option<u64>)
    requires
        lo <= hi <= buf@.len(),
    ensures
        r == decode_varint(buf@.subrange(lo as int, hi as int)),
{
    proof {
        lemma_read_varint(buf@.subrange(lo as int, hi as int));
    }
    match read_varint_of(buf, lo, hi) {
        Some((v, e)) => if e == hi { Some(v) } else { None },
        None => None,
    }
}

fn as_signed_of(v: u64) -> (r: i64)
    ensures
        r == as_signed(v),
{
    if v <= 0x7fff_ffff_ffff_ffffu64 {
        v as i64
    } else {
        let low: i64 = (v - 0x8000_0000_0000_0000u64) as i64;
        low + i64::MIN
    }
}

#[verifier::rlimit(40)]
fn parse_dimension(buf: &[u8], lo: usize, hi: usize) -> (r: Option<OnnxDim>)
    requires
        lo <= hi <= buf@.len(),
    ensures
        match parse_dim(buf@.subrange(lo as int, hi as int)) {
            Some(d) => r matches Some(x) && x@ == d,
            None => r is None,
        },
{
    let ghost w = buf@.subrange(lo as int, hi as int);
    let mut dim_value: Option<i64> = None;
    let mut dim_param: Option<String> = None;
    let mut p = lo;
    while p < hi
        invariant
            lo <= p <= hi <= buf@.len(),
            w == buf@.subrange(lo as int, hi as int),
            dim_scan(w, 0, None, None) == dim_scan(
                w,
                p - lo,
                dim_value,
                match dim_param {
                    Some(t) => Some(t@),
                    None => None::<Seq<char>>,
                },
            ),
        ensures
            dim_scan(
                w,
                p - lo,
                dim_value,
                match dim_param {
                    Some(t) => Some(t@),
                    None => None::<Seq<char>>,
                },
            ) == Some((
                dim_value,
                match dim_param {
                    Some(t) => Some(t@),
                    None => None::<Seq<char>>,
                },
            )),
        decreases hi - p,
    {
        let ghost tail = buf@.subrange(p as int, hi as int);
        assert(w.subrange(p - lo, w.len() as int) =~= tail);
        proof {
            lemma_next_field(tail);
        }
        match next_field_of(buf, p, hi) {
            None => {
                break;
            },
            Some((f, wt, a, b, c)) => {
                assert(w.subrange(p - lo + (a - p), p - lo + (b - p)) =~= buf@.subrange(a as int, b as int));
                if f == 1 && wt == WireType::Varint {
                    match decode_varint_of(buf, a, b) {
                        Some(x) => {
                            dim_value = Some(as_signed_of(x));
                        },
                        None => {
                            return None;
                        },
                    }
                } else if f == 2 && wt == WireType::Len {
                    match from_utf8(&buf[a..b]) {
                        Some(t) => {
                            dim_param = Some(t);
                        },
                        None => {
                            return None;
                        },
                    }
                }
                p = c;
            },
        }
    }
    match dim_value {
        Some(v) => Some(OnnxDim::Known(v)),
        None => match dim_param {
            Some(t) => Some(OnnxDim::Symbolic(t)),
            None => None,
        },
    }
}

#[verifier::rlimit(90)]
fn extract_value_info_shape(buf: &[u8], lo: usize, hi: usize) -> (r: Option<Vec<OnnxDim>>)
    requires
        lo <= hi <= buf@.len(),
    ensures
        match value_info_shape(buf@.subrange(lo as int, hi as int)) {
            Some(ds) => r matches Some(v) && dims_view(v@) == ds,
            None => r is None,
        },
{
    let (t0, t1) = match find_len_of(buf, lo, hi, 2) {
        Some(t) => t,
        None => return None,
    };
    let (u0, u1) = match find_len_of(buf, t0, t1, 1) {
        Some(t) => t,
        None => return None,
    };
    let (s0, s1) = match find_len_of(buf, u0, u1, 2) {
        Some(t) => t,
        None => return None,
    };
    let ghost w = buf@.subrange(s0 as int, s1 as int);
    let mut dims: Vec<OnnxDim> = Vec::new();
    let mut p = s0;
    while p < s1
        invariant
            s0 <= p <= s1 <= buf@.len(),
            w == buf@.subrange(s0 as int, s1 as int),
            dims_view(dims@) + dims_from(w, p - s0) == dims_from(w, 0),
        ensures
            dims_from(w, p - s0) =~= Seq::<DimModel>::empty(),
        decreases s1 - p,
    {
        let ghost tail = buf@.subrange(p as int, s1 as int);
        assert(w.subrange(p - s0, w.len() as int) =~= tail);
        proof {
            lemma_next_field(tail);
        }
        match next_field_of(buf, p, s1) {
            None => {
                assert(dims_from(w, p - s0) =~= Seq::<DimModel>::empty());
                break;
            },
            Some((f, wt, a, b, c)) => {
                if f == 1 && wt == WireType::Len {
                    assert(w.subrange(p - s0 + (a - p), p - s0 + (b - p)) =~= buf@.subrange(a as int, b as int));
                    let ghost before = dims_view(dims@);
                    match parse_dimension(buf, a, b) {
                        Some(d) => {
                            dims.push(d);
                            assert(dims_view(dims@) =~= before.push(d@));
                            assert(dims_view(dims@) + dims_from(w, c - s0) =~= before + dims_from(w, p - s0));
                        },
                        None => {},
                    }
                }
                p = c;
            },
        }
    }
    assert(dims_view(dims@) =~= dims_from(w, 0));
    Some(dims)
}

/// What `onnx_io_shapes` gives for a model: the two shapes, or the message
/// of the first part that is missing.
pub open spec fn io_shapes(bytes: Seq<u8>) -> Result<(Seq<DimModel>, Seq<DimModel>), Seq<char>> {
    match find_len(bytes, 7) {
        None => Err("ONNX model missing graph field"@),
        Some(graph) => match find_len(graph, 11) {
            None => Err("ONNX graph missing input"@),
            Some(input_vi) => match find_len(graph, 12) {
                None => Err("ONNX graph missing output"@),
                Some(output_vi) => match value_info_shape(input_vi) {
                    None => Err("ONNX input type missing tensor shape"@),
                    Some(input) => match value_info_shape(output_vi) {
                        None => Err("ONNX output type missing tensor shape"@),
                        Some(output) => Ok((input, output)),
                    },
                },
            },
        },
    }
}

/// The input and output tensor shapes of an ONNX model: the first input and
/// the first output of its graph.
pub fn onnx_io_shapes(bytes: &[u8]) -> (r: Result<OnnxIoShapes, String>)
    ensures
        match io_shapes(bytes@) {
            Ok((i, o)) => r matches Ok(s) && dims_view(s.input@) == i && dims_view(s.output@) == o,
            Err(m) => r matches Err(e) && e@ == m,
        },
{
    let n = bytes.len();
    assert(bytes@.subrange(0, n as int) =~= bytes@);
    let (g0, g1) = match find_len_of(bytes, 0, n, 7) {
        Some(t) => t,
        None => return Err(String::from_str("ONNX model missing graph field")),
    };
    let (i0, i1) = match find_len_of(bytes, g0, g1, 11) {
        Some(t) => t,
        None => return Err(String::from_str("ONNX graph missing input")),
    };
    let (o0, o1) = match find_len_of(bytes, g0, g1, 12) {
        Some(t) => t,
        None => return Err(String::from_str("ONNX graph missing output")),
    };
    let input = match extract_value_info_shape(bytes, i0, i1) {
        Some(d) => d,
        None => return Err(String::from_str("ONNX input type missing tensor shape")),
    };
    let output = match extract_value_info_shape(bytes, o0, o1) {
        Some(d) => d,
        None => return Err(String::from_str("ONNX output type missing tensor shape")),
    };
    Ok(OnnxIoShapes { input, output })
}

} // verus!
