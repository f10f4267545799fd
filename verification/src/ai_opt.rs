//! Metadata injection for textual LLVM IR: range facts for tensor lengths
//! that are known constants, tags on inference calls, and a metadata footer.
use vstd::prelude::*;
use crate::text::{
    Seps, chars_of, find, find_from, find_of, has_infix, lemma_find_from, nat_decimal, push_all,
    rfind, rfind_of, slice, to_string, tokens, tokens_of, trim, trim_end, trim_end_of, trim_of,
    trim_start, trim_start_of, u64_to_decimal, vec_contains,
};

verus! {

// ---------------------------------------------------------------------------
// Characters and slices
// ---------------------------------------------------------------------------

/// A line split at its first `;`: the code before it and the comment from it on.
pub open spec fn split_comment(line: Seq<char>) -> (Seq<char>, Option<Seq<char>>) {
    match find(line, ';') {
        Some(i) => (line.subrange(0, i), Some(line.subrange(i, line.len() as int))),
        None => (line, None),
    }
}

fn split_comment_of(line: &Vec<char>) -> (r: (Vec<char>, Option<Vec<char>>))
    ensures
        r.0@ == split_comment(line@).0,
        r.1 matches Some(c) ==> split_comment(line@).1 == Some(c@),
        r.1 is None ==> split_comment(line@).1 is None,
{
    match find_of(line, ';') {
        Some(i) => (slice(line, 0, i), Some(slice(line, i, line.len()))),
        None => (slice(line, 0, line.len()), None),
    }
}


// ---------------------------------------------------------------------------
// Tokens and integer literals
// ---------------------------------------------------------------------------

/// `c` is an ASCII decimal digit.
pub open spec fn is_digit(c: char) -> bool {
    '0' <= c <= '9'
}

/// Every character of `d` is a decimal digit.
pub open spec fn all_digits(d: Seq<char>) -> bool {
    forall|k: int| 0 <= k < d.len() ==> is_digit(#[trigger] d[k])
}

/// The value of a decimal digit.
pub open spec fn digit_value(c: char) -> int {
    c as int - '0' as int
}

/// The value of a run of decimal digits.
pub open spec fn digits_value(d: Seq<char>) -> int
    decreases d.len(),
{
    if d.len() == 0 {
        0
    } else {
        10 * digits_value(d.drop_last()) + digit_value(d.last())
    }
}

/// `str::parse::<i64>`: an optional sign, then one or more decimal digits,
/// whose value lies in range.
pub open spec fn parse_i64(t: Seq<char>) -> Option<i64> {
    if t.len() == 0 {
        None
    } else {
        let neg = t[0] == '-';
        let d = if t[0] == '-' || t[0] == '+' { t.drop_first() } else { t };
        let v = if neg { -digits_value(d) } else { digits_value(d) };
        if d.len() == 0 || !all_digits(d) || v < i64::MIN || v > i64::MAX {
            None
        } else {
            Some(v as i64)
        }
    }
}

proof fn lemma_digits_value_nonneg(d: Seq<char>)
    requires
        all_digits(d),
    ensures
        digits_value(d) >= 0,
    decreases d.len(),
{
    if d.len() > 0 {
        assert(is_digit(d[d.len() - 1]));
        assert(all_digits(d.drop_last()));
        lemma_digits_value_nonneg(d.drop_last());
    }
}

proof fn lemma_digits_value_prefix(d: Seq<char>, k: int)
    requires
        all_digits(d),
        0 <= k <= d.len(),
    ensures
        digits_value(d.subrange(0, k)) <= digits_value(d),
    decreases d.len() - k,
{
    if k < d.len() {
        let e = d.subrange(0, k + 1);
        assert(e.drop_last() =~= d.subrange(0, k));
        assert(is_digit(e.last()));
        assert(all_digits(e.drop_last()));
        lemma_digits_value_nonneg(e.drop_last());
        lemma_digits_value_prefix(d, k + 1);
    } else {
        assert(d.subrange(0, k) =~= d);
    }
}

/// Parses a decimal integer as `str::parse::<i64>` does.
fn parse_i64_of(t: &Vec<char>) -> (r: Option<i64>)
    ensures
        r == parse_i64(t@),
{
    if t.len() == 0 {
        return None;
    }
    let neg = t[0] == '-';
    let start: usize = if t[0] == '-' || t[0] == '+' { 1 } else { 0 };
    let ghost d = if t@[0] == '-' || t@[0] == '+' { t@.drop_first() } else { t@ };
    assert(d =~= t@.subrange(start as int, t.len() as int));
    if start == t.len() {
        return None;
    }
    // the magnitude may reach 2^63 for a negative literal
    let limit: u64 = if neg { 0x8000_0000_0000_0000u64 } else { 0x7fff_ffff_ffff_ffffu64 };
    let mut mag: u64 = 0;
    let mut i: usize = start;
    while i < t.len()
        invariant
            start <= i <= t.len(),
            start < t.len(),
            neg == (t@[0] == '-'),
            d == (if t@[0] == '-' || t@[0] == '+' { t@.drop_first() } else { t@ }),
            limit == (if neg { 0x8000_0000_0000_0000u64 } else { 0x7fff_ffff_ffff_ffffu64 }),
            d =~= t@.subrange(start as int, t.len() as int),
            all_digits(d.subrange(0, i - start)),
            mag == digits_value(d.subrange(0, i - start)),
            mag <= limit,
            0x7fff_ffff_ffff_ffffu64 <= limit <= 0x8000_0000_0000_0000u64,
        decreases t.len() - i,
    {
        let c = t[i];
        if !('0' <= c && c <= '9') {
            assert(!is_digit(d[i - start]));
            assert(!all_digits(d));
            return None;
        }
        let dv: u64 = if c == '0' { 0 } else if c == '1' { 1 } else if c == '2' { 2 }
            else if c == '3' { 3 } else if c == '4' { 4 } else if c == '5' { 5 }
            else if c == '6' { 6 } else if c == '7' { 7 } else if c == '8' { 8 } else { 9 };
        assert(dv == digit_value(c));
        let ghost pre = d.subrange(0, i - start);
        let ghost nxt = d.subrange(0, i + 1 - start);
        assert(nxt.drop_last() =~= pre);
        assert(all_digits(nxt));
        if mag > (limit - dv) / 10 {
            proof {
                assert(digits_value(nxt) == 10 * mag + dv);
                assert(digits_value(nxt) > limit) by (nonlinear_arith)
                    requires
                        mag > (limit - dv) / 10,
                        digits_value(nxt) == 10 * mag + dv,
                        dv <= limit,
                ;
                // every longer run of digits is at least as large
                if all_digits(d) {
                    lemma_digits_value_prefix(d, i + 1 - start);
                }
            }
            return None;
        }
        mag = mag * 10 + dv;
        i = i + 1;
    }
    assert(d.subrange(0, t.len() - start) =~= d);
    if neg {
        if mag == 0x8000_0000_0000_0000u64 {
            Some(-0x8000_0000_0000_0000i128 as i64)
        } else {
            let m: i64 = mag as i64;
            Some(-m)
        }
    } else {
        Some(mag as i64)
    }
}

/// A token that reads as an integer literal (`parse_int_token`).
pub open spec fn int_token(tok: Seq<char>) -> Option<i64> {
    let t = trim(tok);
    if t.len() == 0 || t[0] == '%' { None } else { parse_i64(t) }
}

fn int_token_of(tok: &Vec<char>) -> (r: Option<i64>)
    ensures
        r == int_token(tok@),
{
    let t = trim_of(tok);
    if t.len() == 0 || t[0] == '%' {
        None
    } else {
        parse_i64_of(&t)
    }
}

/// An integer type name such as `i32`: `i` followed by one or more digits.
pub open spec fn is_int_type(tok: Seq<char>) -> bool {
    tok.len() >= 2 && tok[0] == 'i' && all_digits(tok.drop_first())
}

fn is_int_type_of(tok: &Vec<char>) -> (r: bool)
    ensures
        r == is_int_type(tok@),
{
    if tok.len() < 2 || tok[0] != 'i' {
        return false;
    }
    let mut i: usize = 1;
    while i < tok.len()
        invariant
            1 <= i <= tok.len(),
            forall|k: int| 0 <= k < i - 1 ==> is_digit(#[trigger] tok@.drop_first()[k]),
        decreases tok.len() - i,
    {
        if !('0' <= tok[i] && tok[i] <= '9') {
            assert(!is_digit(tok@.drop_first()[i - 1]));
            return false;
        }
        i = i + 1;
    }
    true
}

/// The last token of `toks[..n]` that reads as an integer.
pub open spec fn last_int_token(toks: Seq<Seq<char>>, n: int) -> Option<i64>
    decreases n,
{
    if n <= 0 || n > toks.len() {
        None
    } else {
        match int_token(toks[n - 1]) {
            Some(v) => Some(v),
            None => last_int_token(toks, n - 1),
        }
    }
}

/// The integer argument of a call's argument list: the value after a leading
/// integer type, or else the last token that reads as an integer.
pub open spec fn typed_int_literal(args: Seq<char>) -> Option<i64> {
    let toks = tokens(args, Seps::Parens);
    if toks.len() >= 2 && is_int_type(toks[0]) {
        int_token(toks[1])
    } else {
        last_int_token(toks, toks.len() as int)
    }
}

fn typed_int_literal_of(args: &Vec<char>) -> (r: Option<i64>)
    ensures
        r == typed_int_literal(args@),
{
    let toks = tokens_of(args, Seps::Parens);
    let ghost ts = tokens(args@, Seps::Parens);
    if toks.len() >= 2 {
        assert(toks@[0]@ == ts[0] && toks@[1]@ == ts[1]);
    }
    if toks.len() >= 2 && is_int_type_of(&toks[0]) {
        return int_token_of(&toks[1]);
    }
    let mut n: usize = toks.len();
    while n > 0
        invariant
            n <= toks.len(),
            toks@.len() == ts.len(),
            forall|k: int| 0 <= k < toks@.len() ==> #[trigger] toks@[k]@ == ts[k],
            last_int_token(ts, ts.len() as int) == last_int_token(ts, n as int),
            ts == tokens(args@, Seps::Parens),
            !(ts.len() >= 2 && is_int_type(ts[0])),
        decreases n,
    {
        assert(toks@[n - 1]@ == ts[n - 1]);
        let v = int_token_of(&toks[n - 1]);
        if v.is_some() {
            return v;
        }
        n = n - 1;
    }
    None
}

/// The first token of a call's argument list that names an SSA value
/// (`%` followed by at least one more character).
pub open spec fn first_ssa_from(toks: Seq<Seq<char>>, k: int) -> Option<Seq<char>>
    decreases toks.len() - k,
{
    if k < 0 || k >= toks.len() {
        None
    } else if toks[k].len() > 1 && toks[k][0] == '%' {
        Some(toks[k])
    } else {
        first_ssa_from(toks, k + 1)
    }
}

/// `extract_first_ssa_value`.
pub open spec fn first_ssa(args: Seq<char>) -> Option<Seq<char>> {
    first_ssa_from(tokens(args, Seps::Args), 0)
}

fn first_ssa_of(args: &Vec<char>) -> (r: Option<Vec<char>>)
    ensures
        r matches Some(v) ==> first_ssa(args@) == Some(v@),
        r is None ==> first_ssa(args@) is None,
{
    let toks = tokens_of(args, Seps::Args);
    let ghost ts = tokens(args@, Seps::Args);
    let mut k: usize = 0;
    while k < toks.len()
        invariant
            k <= toks.len(),
            toks@.len() == ts.len(),
            forall|j: int| 0 <= j < toks@.len() ==> #[trigger] toks@[j]@ == ts[j],
            first_ssa(args@) == first_ssa_from(ts, k as int),
        decreases toks.len() - k,
    {
        assert(toks@[k as int]@ == ts[k as int]);
        if toks[k].len() > 1 && toks[k][0] == '%' {
            return Some(slice(&toks[k], 0, toks[k].len()));
        }
        k = k + 1;
    }
    None
}


// ---------------------------------------------------------------------------
// Call lines
// ---------------------------------------------------------------------------

/// The code of a line: the part before its comment, trimmed.
pub open spec fn call_code(line: Seq<char>) -> Seq<char> {
    trim(split_comment(line).0)
}

/// The positions of a call line that names `marker`: the `=`, the first `(`
/// and the last `)`, when the destination before the `=` is an SSA value.
pub open spec fn call_marks(line: Seq<char>, marker: Seq<char>) -> Option<(int, int, int)> {
    let code = call_code(line);
    if !has_infix(code, marker) {
        None
    } else {
        match find(code, '=') {
            None => None,
            Some(eq) => {
                let dest = trim(code.subrange(0, eq));
                if !(dest.len() > 0 && dest[0] == '%') {
                    None
                } else {
                    match (find(code, '('), rfind(code, ')')) {
                        (Some(open), Some(close)) => Some((eq, open, close)),
                        _ => None,
                    }
                }
            },
        }
    }
}

/// A recognized call line whose last `)` comes before its first `(`: the
/// argument list cannot be sliced out of it.
pub open spec fn call_malformed(line: Seq<char>, marker: Seq<char>) -> bool {
    call_marks(line, marker) matches Some((eq, open, close)) && open + 1 > close
}

/// The destination and the argument text of a call line that names `marker`.
pub open spec fn call_parts(line: Seq<char>, marker: Seq<char>) -> Option<(Seq<char>, Seq<char>)> {
    let code = call_code(line);
    match call_marks(line, marker) {
        Some((eq, open, close)) => Some((trim(code.subrange(0, eq)), code.subrange(open + 1, close))),
        None => None,
    }
}

fn call_parts_of(line: &Vec<char>, marker: &Vec<char>) -> (r: Option<(Vec<char>, Vec<char>)>)
    requires
        !call_malformed(line@, marker@),
    ensures
        r matches Some(p) ==> call_parts(line@, marker@) == Some((p.0@, p.1@)),
        r is None ==> call_parts(line@, marker@) is None,
{
    let (raw, _comment) = split_comment_of(line);
    let code = trim_of(&raw);
    if !vec_contains(&code, marker) {
        return None;
    }
    let eq = match find_of(&code, '=') {
        Some(k) => k,
        None => return None,
    };
    let head = slice(&code, 0, eq);
    let dest = trim_of(&head);
    if !(dest.len() > 0 && dest[0] == '%') {
        return None;
    }
    let open = match find_of(&code, '(') {
        Some(k) => k,
        None => return None,
    };
    let close = match rfind_of(&code, ')') {
        Some(k) => k,
        None => return None,
    };
    let args = slice(&code, open + 1, close);
    Some((dest, args))
}

fn call_malformed_of(line: &Vec<char>, marker: &Vec<char>) -> (r: bool)
    ensures
        r == call_malformed(line@, marker@),
{
    let (raw, _comment) = split_comment_of(line);
    let code = trim_of(&raw);
    if !vec_contains(&code, marker) {
        return false;
    }
    let eq = match find_of(&code, '=') {
        Some(k) => k,
        None => return false,
    };
    let head = slice(&code, 0, eq);
    let dest = trim_of(&head);
    if !(dest.len() > 0 && dest[0] == '%') {
        return false;
    }
    let open = match find_of(&code, '(') {
        Some(k) => k,
        None => return false,
    };
    let close = match rfind_of(&code, ')') {
        Some(k) => k,
        None => return false,
    };
    open >= close
}

/// `parse_tensor_new_call`: a tensor created with a constant length.
pub open spec fn tensor_new(line: Seq<char>) -> Option<(Seq<char>, i64)> {
    match call_parts(line, "@aura_tensor_new"@) {
        Some((dest, args)) => match typed_int_literal(args) {
            Some(v) => Some((dest, v)),
            None => None,
        },
        None => None,
    }
}

/// `parse_tensor_len_call`: a length query on a tensor value.
pub open spec fn tensor_len(line: Seq<char>) -> Option<(Seq<char>, Seq<char>)> {
    match call_parts(line, "@aura_tensor_len"@) {
        Some((dest, args)) => match first_ssa(args) {
            Some(a) => Some((dest, a)),
            None => None,
        },
        None => None,
    }
}

/// A line on which the recognizers cannot slice out the argument list.
pub open spec fn line_malformed(line: Seq<char>) -> bool {
    call_malformed(line, "@aura_tensor_new"@) || call_malformed(line, "@aura_tensor_len"@)
}

fn tensor_new_of(line: &Vec<char>) -> (r: Option<(Vec<char>, i64)>)
    requires
        !line_malformed(line@),
    ensures
        r matches Some(p) ==> tensor_new(line@) == Some((p.0@, p.1)),
        r is None ==> tensor_new(line@) is None,
{
    let marker = chars_of("@aura_tensor_new");
    match call_parts_of(line, &marker) {
        Some((dest, args)) => match typed_int_literal_of(&args) {
            Some(v) => Some((dest, v)),
            None => None,
        },
        None => None,
    }
}

fn tensor_len_of(line: &Vec<char>) -> (r: Option<(Vec<char>, Vec<char>)>)
    requires
        !line_malformed(line@),
    ensures
        r matches Some(p) ==> tensor_len(line@) == Some((p.0@, p.1@)),
        r is None ==> tensor_len(line@) is None,
{
    let marker = chars_of("@aura_tensor_len");
    match call_parts_of(line, &marker) {
        Some((dest, args)) => match first_ssa_of(&args) {
            Some(a) => Some((dest, a)),
            None => None,
        },
        None => None,
    }
}

/// A line with `md` attached to its code, before its comment
/// (`attach_metadata_before_comment`).
pub open spec fn attach(line: Seq<char>, md: Seq<char>) -> Seq<char> {
    let base = trim_end(split_comment(line).0) + ", "@ + md;
    match split_comment(line).1 {
        Some(c) => base + " "@ + trim_start(c),
        None => base,
    }
}

fn attach_of(line: &Vec<char>, md: &Vec<char>) -> (r: Vec<char>)
    ensures
        r@ == attach(line@, md@),
{
    let (code, comment) = split_comment_of(line);
    let mut out = trim_end_of(&code);
    push_all(&mut out, &chars_of(", "));
    push_all(&mut out, md);
    match comment {
        Some(c) => {
            push_all(&mut out, &chars_of(" "));
            push_all(&mut out, &trim_start_of(&c));
        },
        None => {},
    }
    out
}

// ---------------------------------------------------------------------------
// Metadata numbers already in use
// ---------------------------------------------------------------------------

/// The end of the run of decimal digits that starts at `i`.
pub open spec fn digit_run_end(s: Seq<char>, i: int) -> int
    decreases s.len() - i,
{
    if 0 <= i < s.len() && is_digit(s[i]) { digit_run_end(s, i + 1) } else { i }
}

proof fn lemma_digit_run_end(s: Seq<char>, i: int)
    requires
        0 <= i <= s.len(),
    ensures
        i <= digit_run_end(s, i) <= s.len(),
        all_digits(s.subrange(i, digit_run_end(s, i))),
    decreases s.len() - i,
{
    if i < s.len() && is_digit(s[i]) {
        lemma_digit_run_end(s, i + 1);
        assert forall|k: int| 0 <= k < digit_run_end(s, i) - i implies is_digit(
            #[trigger] s.subrange(i, digit_run_end(s, i))[k],
        ) by {
            if k > 0 {
                assert(s.subrange(i, digit_run_end(s, i))[k] == s.subrange(
                    i + 1,
                    digit_run_end(s, i + 1),
                )[k - 1]);
            }
        }
    }
}

/// The metadata number written at `p`: `!` followed by decimal digits, its
/// value held at `u32::MAX` when larger.
pub open spec fn md_at(s: Seq<char>, p: int) -> Option<int> {
    if 0 <= p && p + 1 < s.len() && s[p] == '!' && is_digit(s[p + 1]) {
        let v = digits_value(s.subrange(p + 1, digit_run_end(s, p + 1)));
        Some(if v > u32::MAX { u32::MAX as int } else { v })
    } else {
        None
    }
}

/// The largest metadata number written before position `n` (`max_metadata_id`
/// over `s[..n]`).
pub open spec fn md_max_before(s: Seq<char>, n: int) -> Option<int>
    decreases n,
{
    if n <= 0 {
        None
    } else {
        match (md_max_before(s, n - 1), md_at(s, n - 1)) {
            (Some(a), Some(b)) => Some(if a < b { b } else { a }),
            (Some(a), None) => Some(a),
            (None, b) => b,
        }
    }
}

/// The largest metadata number written in `s`.
pub open spec fn md_max(s: Seq<char>) -> Option<int> {
    md_max_before(s, s.len() as int)
}

proof fn lemma_md_max_bound(s: Seq<char>, n: int)
    ensures
        md_max_before(s, n) matches Some(m) ==> 0 <= m <= u32::MAX,
    decreases n,
{
    if n > 0 {
        lemma_md_max_bound(s, n - 1);
        if md_at(s, n - 1) is Some {
            lemma_digit_run_end(s, n);
            lemma_digits_value_nonneg(s.subrange(n, digit_run_end(s, n)));
        }
    }
}

proof fn lemma_md_skip(s: Seq<char>, a: int, b: int)
    requires
        0 <= a <= b,
        forall|p: int| a <= p < b ==> md_at(s, p) is None,
    ensures
        md_max_before(s, b) == md_max_before(s, a),
    decreases b - a,
{
    if a < b {
        lemma_md_skip(s, a, b - 1);
    }
}

/// The largest number written after a `!` in `text`.
fn max_metadata_id(text: &Vec<char>) -> (r: Option<u32>)
    ensures
        r matches Some(m) ==> md_max(text@) == Some(m as int),
        r is None ==> md_max(text@) is None,
{
    let ghost s = text@;
    let mut best: Option<u32> = None;
    let mut i: usize = 0;
    while i < text.len()
        invariant
            i <= text.len(),
            s == text@,
            best matches Some(m) ==> md_max_before(s, i as int) == Some(m as int),
            best is None ==> md_max_before(s, i as int) is None,
        decreases text.len() - i,
    {
        if text[i] == '!' {
            let mut j = i + 1;
            let mut n: u32 = 0;
            let mut any = false;
            while j < text.len() && '0' <= text[j] && text[j] <= '9'
                invariant
                    i < j <= text.len(),
                    s == text@,
                    s[i as int] == '!',
                    any == (j > i + 1),
                    all_digits(s.subrange(i + 1, j as int)),
                    digit_run_end(s, i + 1) == digit_run_end(s, j as int),
                    n as int == (if digits_value(s.subrange(i + 1, j as int)) > u32::MAX {
                        u32::MAX as int
                    } else {
                        digits_value(s.subrange(i + 1, j as int))
                    }),
                decreases text.len() - j,
            {
                let c = text[j];
                let dv: u32 = if c == '0' { 0 } else if c == '1' { 1 } else if c == '2' { 2 }
                    else if c == '3' { 3 } else if c == '4' { 4 } else if c == '5' { 5 }
                    else if c == '6' { 6 } else if c == '7' { 7 } else if c == '8' { 8 } else { 9 };
                let ghost pre = s.subrange(i + 1, j as int);
                let ghost nxt = s.subrange(i + 1, j + 1);
                assert(nxt.drop_last() =~= pre);
                assert(nxt.last() == c);
                assert(all_digits(nxt));
                proof {
                    lemma_digits_value_nonneg(pre);
                }
                let tens: u32 = if n > u32::MAX / 10 { u32::MAX } else { n * 10 };
                n = tens.saturating_add(dv);
                any = true;
                j = j + 1;
            }
            proof {
                assert(digit_run_end(s, j as int) == j as int);
            }
            if any {
                best = match best {
                    Some(m) => Some(if m < n { n } else { m }),
                    None => Some(n),
                };
            }
            proof {
                // the digits just read hold no `!`
                assert forall|p: int| i < p < j implies md_at(s, p) is None by {
                    assert(is_digit(s.subrange(i + 1, j as int)[p - i - 1]));
                }
                lemma_md_skip(s, i + 1, j as int);
            }
            i = j;
        } else {
            i = i + 1;
        }
    }
    best
}


// ---------------------------------------------------------------------------
// Lines
// ---------------------------------------------------------------------------

/// A line without the `\r` of a `\r\n` ending.
pub open spec fn strip_cr(l: Seq<char>) -> Seq<char> {
    if l.len() > 0 && l.last() == '\r' { l.drop_last() } else { l }
}

/// `str::lines` on `s[i..]`: the pieces between `\n`s, each without the `\r`
/// of a `\r\n`; a final `\n` opens no further line.
pub open spec fn lines_from(s: Seq<char>, i: int) -> Seq<Seq<char>>
    decreases s.len() - i,
{
    if i < 0 || i >= s.len() {
        Seq::empty()
    } else {
        match find_from(s, '\n', i) {
            Some(e) => {
                proof {
                    lemma_find_from(s, '\n', i);
                }
                if e < i {
                    Seq::empty()
                } else {
                    seq![strip_cr(s.subrange(i, e))] + lines_from(s, e + 1)
                }
            },
            None => seq![s.subrange(i, s.len() as int)],
        }
    }
}

/// The lines of `s`.
pub open spec fn lines(s: Seq<char>) -> Seq<Seq<char>> {
    lines_from(s, 0)
}

pub(crate) fn lines_of(s: &Vec<char>) -> (r: Vec<Vec<char>>)
    ensures
        r@.len() == lines(s@).len(),
        forall|k: int| 0 <= k < r@.len() ==> #[trigger] r@[k]@ == lines(s@)[k],
{
    let mut r: Vec<Vec<char>> = Vec::new();
    let ghost mut done: Seq<Seq<char>> = Seq::empty();
    let mut i: usize = 0;
    while i < s.len()
        invariant
            i <= s.len(),
            done + lines_from(s@, i as int) == lines(s@),
            r@.len() == done.len(),
            forall|k: int| 0 <= k < r@.len() ==> #[trigger] r@[k]@ == done[k],
        decreases s.len() - i,
    {
        let mut e = i;
        while e < s.len() && s[e] != '\n'
            invariant
                i <= e <= s.len(),
                find_from(s@, '\n', i as int) == find_from(s@, '\n', e as int),
            decreases s.len() - e,
        {
            e = e + 1;
        }
        if e == s.len() {
            let l = slice(s, i, e);
            proof {
                assert(lines_from(s@, i as int) == seq![l@]);
                assert(done.push(l@) =~= done + lines_from(s@, i as int));
                done = done.push(l@);
                assert(lines_from(s@, e as int) =~= Seq::<Seq<char>>::empty());
            }
            r.push(l);
            i = e;
        } else {
            let mut l = slice(s, i, e);
            if l.len() > 0 && l[l.len() - 1] == '\r' {
                l.pop();
            }
            proof {
                assert(l@ =~= strip_cr(s@.subrange(i as int, e as int)));
                assert(done.push(l@) + lines_from(s@, e + 1) =~= done + lines_from(s@, i as int));
                done = done.push(l@);
            }
            r.push(l);
            i = e + 1;
        }
    }
    proof {
        assert(done =~= lines(s@));
    }
    r
}

// ---------------------------------------------------------------------------
// Rewriting
// ---------------------------------------------------------------------------

/// The tensors of `ls[..n]` created with a constant length, in order.
pub open spec fn tensor_entries(ls: Seq<Seq<char>>, n: int) -> Seq<(Seq<char>, i64)>
    decreases n,
{
    if n <= 0 || n > ls.len() {
        Seq::empty()
    } else {
        match tensor_new(ls[n - 1]) {
            Some(e) => tensor_entries(ls, n - 1).push(e),
            None => tensor_entries(ls, n - 1),
        }
    }
}

/// The length of the last entry for tensor `name` in `es[..n]`.
pub open spec fn last_len(es: Seq<(Seq<char>, i64)>, name: Seq<char>, n: int) -> Option<i64>
    decreases n,
{
    if n <= 0 || n > es.len() {
        None
    } else if es[n - 1].0 == name {
        Some(es[n - 1].1)
    } else {
        last_len(es, name, n - 1)
    }
}

/// The metadata number of the range node for `[lo, ..)` among `rs[k..]`.
pub open spec fn range_id_from(rs: Seq<(int, i64, i64)>, lo: i64, k: int) -> Option<int>
    decreases rs.len() - k,
{
    if k < 0 || k >= rs.len() {
        None
    } else if rs[k].1 == lo {
        Some(rs[k].0)
    } else {
        range_id_from(rs, lo, k + 1)
    }
}

/// `lo + 1`, held at `i64::MAX`.
pub open spec fn succ_sat(lo: i64) -> i64 {
    if lo == i64::MAX { lo } else { (lo + 1) as i64 }
}

/// The rewriting state: the next free metadata number, the range nodes made
/// so far (number, low, high), and the number of the inference tag if made.
pub type OptState = (int, Seq<(int, i64, i64)>, Option<int>);

/// The metadata number for a value, taken from `st` or allocated there.
pub open spec fn range_alloc(st: OptState, lo: i64) -> (int, OptState) {
    match range_id_from(st.1, lo, 0) {
        Some(id) => (id, st),
        None => (st.0, (st.0 + 1, st.1.push((st.0, lo, succ_sat(lo))), st.2)),
    }
}

/// A length query on a tensor of known length gets a `!range` node.
pub open spec fn range_step(
    line: Seq<char>,
    lens: Seq<(Seq<char>, i64)>,
    st: OptState,
) -> (Seq<char>, OptState) {
    match tensor_len(line) {
        Some((_dest, arg)) => match last_len(lens, arg, lens.len() as int) {
            Some(len) => {
                let (id, st1) = range_alloc(st, len);
                (
                    if has_infix(line, "!range"@) {
                        line
                    } else {
                        attach(line, "!range !"@ + nat_decimal(id as nat))
                    },
                    st1,
                )
            },
            None => (line, st),
        },
        None => (line, st),
    }
}

/// A call of `@aura_ai_infer` gets the inference tag.
pub open spec fn infer_step(l1: Seq<char>, st1: OptState) -> (Seq<char>, OptState) {
    let code = split_comment(l1).0;
    if has_infix(code, "@aura_ai_infer"@) && has_infix(code, "call"@) && !has_infix(
        l1,
        "!aura.ai.infer"@,
    ) {
        let (id, st2) = match st1.2 {
            Some(id) => (id, st1),
            None => (st1.0, (st1.0 + 1, st1.1, Some(st1.0))),
        };
        (attach(l1, "!aura.ai.infer !"@ + nat_decimal(id as nat)), st2)
    } else {
        (l1, st1)
    }
}

/// A line that already carries a `!range` keeps its text through the range
/// step (its length node is still made).
pub proof fn law_ranged_lines_keep_their_text(line: Seq<char>, lens: Seq<(Seq<char>, i64)>, st: OptState)
    requires
        has_infix(line, "!range"@),
    ensures
        range_step(line, lens, st).0 == line,
{
}

/// A line already tagged as an inference call is left as it is, and no tag is
/// made for it.
pub proof fn law_tagged_lines_are_left_alone(l1: Seq<char>, st1: OptState)
    requires
        has_infix(l1, "!aura.ai.infer"@),
    ensures
        infer_step(l1, st1) == (l1, st1),
{
}

/// A line rewritten: a `!range` on a length query of a tensor of known length,
/// then a tag on a call of `@aura_ai_infer`.
pub open spec fn rewrite_line(
    line: Seq<char>,
    lens: Seq<(Seq<char>, i64)>,
    st: OptState,
) -> (Seq<char>, OptState) {
    let (l1, st1) = range_step(line, lens, st);
    infer_step(l1, st1)
}

/// The first `n` lines rewritten in order, and the state after them.
pub open spec fn rewrite_lines(
    ls: Seq<Seq<char>>,
    lens: Seq<(Seq<char>, i64)>,
    st: OptState,
    n: int,
) -> (Seq<Seq<char>>, OptState)
    decreases n,
{
    if n <= 0 || n > ls.len() {
        (Seq::empty(), st)
    } else {
        let (done, mid) = rewrite_lines(ls, lens, st, n - 1);
        let (l, st2) = rewrite_line(ls[n - 1], lens, mid);
        (done.push(l), st2)
    }
}

proof fn lemma_rewrite_line_grows(line: Seq<char>, lens: Seq<(Seq<char>, i64)>, st: OptState)
    ensures
        st.0 <= rewrite_line(line, lens, st).1.0,
{
}

proof fn lemma_rewrite_lines_grows(
    ls: Seq<Seq<char>>,
    lens: Seq<(Seq<char>, i64)>,
    st: OptState,
    a: int,
    b: int,
)
    requires
        0 <= a <= b <= ls.len(),
    ensures
        rewrite_lines(ls, lens, st, a).1.0 <= rewrite_lines(ls, lens, st, b).1.0,
    decreases b - a,
{
    if a < b {
        lemma_rewrite_lines_grows(ls, lens, st, a, b - 1);
        lemma_rewrite_line_grows(ls[b - 1], lens, rewrite_lines(ls, lens, st, b - 1).1);
    }
}

/// The metadata numbers the rewriter has handed out are all at least `base`
/// and below the next free one, and no two are the same.
pub open spec fn ids_fresh(st: OptState, base: int) -> bool {
    &&& base <= st.0
    &&& forall|k: int| 0 <= k < st.1.len() ==> base <= (#[trigger] st.1[k]).0 < st.0
    &&& forall|i: int, j: int| 0 <= i < j < st.1.len() ==> (#[trigger] st.1[i]).0 != (#[trigger] st.1[j]).0
    &&& st.2 matches Some(t) ==> base <= t < st.0 && forall|k: int| 0 <= k < st.1.len() ==> (#[trigger] st.1[k]).0 != t
}

proof fn lemma_rewrite_line_fresh(line: Seq<char>, lens: Seq<(Seq<char>, i64)>, st: OptState, base: int)
    requires
        ids_fresh(st, base),
    ensures
        ids_fresh(rewrite_line(line, lens, st).1, base),
{
    let (l1, st1) = range_step(line, lens, st);
    assert(ids_fresh(st1, base)) by {
        if st1 != st {
            assert(st1.1.drop_last() =~= st.1);
            assert forall|k: int| 0 <= k < st1.1.len() implies base <= (#[trigger] st1.1[k]).0 < st1.0 by {
                if k < st.1.len() {
                    assert(st1.1[k] == st.1[k]);
                }
            }
            assert forall|i: int, j: int| 0 <= i < j < st1.1.len() implies (#[trigger] st1.1[i]).0
                != (#[trigger] st1.1[j]).0 by {
                assert(st1.1[i] == st.1[i]);
                if j < st.1.len() {
                    assert(st1.1[j] == st.1[j]);
                }
            }
            if st1.2 is Some {
                assert forall|k: int| 0 <= k < st1.1.len() implies (#[trigger] st1.1[k]).0 != st1.2->0 by {
                    if k < st.1.len() {
                        assert(st1.1[k] == st.1[k]);
                    }
                }
            }
        }
    }
}

proof fn lemma_rewrite_lines_fresh(ls: Seq<Seq<char>>, lens: Seq<(Seq<char>, i64)>, st: OptState, base: int, n: int)
    requires
        ids_fresh(st, base),
    ensures
        ids_fresh(rewrite_lines(ls, lens, st, n).1, base),
    decreases n,
{
    if 0 < n <= ls.len() {
        lemma_rewrite_lines_fresh(ls, lens, st, base, n - 1);
        lemma_rewrite_line_fresh(ls[n - 1], lens, rewrite_lines(ls, lens, st, n - 1).1, base);
    }
}

/// The metadata numbers `optimize_ll` hands out are fresh: every range node,
/// the inference tag and the two module flags are numbered above every
/// number the input already uses, and no two of them share a number.
pub proof fn law_new_metadata_ids_are_fresh(text: Seq<char>)
    ensures
        md_max(text) matches Some(m) ==> m < first_free(text),
        ids_fresh(rewritten(text).1, first_free(text)),
{
    let ls = lines(text);
    let st0: OptState = (first_free(text), Seq::empty(), None);
    lemma_rewrite_lines_fresh(ls, tensor_entries(ls, ls.len() as int), st0, first_free(text), ls.len() as int);
}

/// The model of the range nodes held by the rewriter.
pub open spec fn ranges_model(r: Seq<(u32, i64, i64)>) -> Seq<(int, i64, i64)> {
    Seq::new(r.len(), |k: int| (r[k].0 as int, r[k].1, r[k].2))
}

/// The model of the tensor entries held by the rewriter.
pub open spec fn lens_model(v: Seq<(Vec<char>, i64)>) -> Seq<(Seq<char>, i64)> {
    Seq::new(v.len(), |k: int| (v[k].0@, v[k].1))
}

/// The model of an optional metadata number.
pub open spec fn id_model(x: Option<u32>) -> Option<int> {
    match x {
        Some(v) => Some(v as int),
        None => None,
    }
}

fn decimal_chars(n: u32) -> (r: Vec<char>)
    ensures
        r@ == nat_decimal(n as nat),
{
    let s = u64_to_decimal(n as u64);
    chars_of(s.as_str())
}

fn last_len_of(lens: &Vec<(Vec<char>, i64)>, name: &Vec<char>) -> (r: Option<i64>)
    ensures
        r == last_len(lens_model(lens@), name@, lens@.len() as int),
{
    let ghost m = lens_model(lens@);
    let mut n: usize = lens.len();
    while n > 0
        invariant
            n <= lens.len(),
            m == lens_model(lens@),
            last_len(m, name@, lens@.len() as int) == last_len(m, name@, n as int),
        decreases n,
    {
        let eq = crate::text::vec_eq(&lens[n - 1].0, name);
        if eq {
            return Some(lens[n - 1].1);
        }
        n = n - 1;
    }
    None
}

fn range_id_of(ranges: &Vec<(u32, i64, i64)>, lo: i64) -> (r: Option<u32>)
    ensures
        id_model(r) == range_id_from(ranges_model(ranges@), lo, 0),
{
    let ghost m = ranges_model(ranges@);
    let mut k: usize = 0;
    while k < ranges.len()
        invariant
            k <= ranges.len(),
            m == ranges_model(ranges@),
            range_id_from(m, lo, 0) == range_id_from(m, lo, k as int),
        decreases ranges.len() - k,
    {
        if ranges[k].1 == lo {
            return Some(ranges[k].0);
        }
        k = k + 1;
    }
    None
}

/// The range step on one line; `None` when it would hand out a metadata
/// number past `u32::MAX`.
fn range_step_of(
    line: &Vec<char>,
    lens: &Vec<(Vec<char>, i64)>,
    next: &mut u32,
    ranges: &mut Vec<(u32, i64, i64)>,
    infer: &Option<u32>,
) -> (r: Option<Vec<char>>)
    requires
        !line_malformed(line@),
    ensures
        r is None <==> range_step(
            line@,
            lens_model(lens@),
            (*old(next) as int, ranges_model(old(ranges)@), id_model(*infer)),
        ).1.0 > u32::MAX,
        r matches Some(l) ==> (l@, (*final(next) as int, ranges_model(final(ranges)@), id_model(*infer)))
            == range_step(
            line@,
            lens_model(lens@),
            (*old(next) as int, ranges_model(old(ranges)@), id_model(*infer)),
        ),
{
    let ghost st0: OptState = (*next as int, ranges_model(ranges@), id_model(*infer));
    match tensor_len_of(line) {
        Some((_dest, arg)) => match last_len_of(lens, &arg) {
            Some(len) => {
                let id: u32 = match range_id_of(ranges, len) {
                    Some(id) => id,
                    None => {
                        if *next == u32::MAX {
                            return None;
                        }
                        let id = *next;
                        let hi: i64 = if len == i64::MAX { len } else { len + 1 };
                        ranges.push((id, len, hi));
                        *next = *next + 1;
                        assert(ranges_model(ranges@) =~= st0.1.push((st0.0, len, succ_sat(len))));
                        id
                    },
                };
                if !vec_contains(line, &chars_of("!range")) {
                    let mut md = chars_of("!range !");
                    push_all(&mut md, &decimal_chars(id));
                    Some(attach_of(line, &md))
                } else {
                    Some(slice(line, 0, line.len()))
                }
            },
            None => Some(slice(line, 0, line.len())),
        },
        None => Some(slice(line, 0, line.len())),
    }
}

/// The inference step on one line; `None` when it would hand out a metadata
/// number past `u32::MAX`.
fn infer_step_of(l1: Vec<char>, next: &mut u32, infer: &mut Option<u32>, Ghost(rs): Ghost<
    Seq<(int, i64, i64)>,
>) -> (r: Option<Vec<char>>)
    ensures
        r is None <==> infer_step(l1@, (*old(next) as int, rs, id_model(*old(infer)))).1.0
            > u32::MAX,
        r matches Some(l) ==> (l@, (*final(next) as int, rs, id_model(*final(infer)))) == infer_step(
            l1@,
            (*old(next) as int, rs, id_model(*old(infer))),
        ),
{
    let (code, _comment) = split_comment_of(&l1);
    if vec_contains(&code, &chars_of("@aura_ai_infer")) && vec_contains(&code, &chars_of("call"))
        && !vec_contains(&l1, &chars_of("!aura.ai.infer")) {
        let id: u32 = match *infer {
            Some(id) => id,
            None => {
                if *next == u32::MAX {
                    return None;
                }
                let id = *next;
                *infer = Some(id);
                *next = *next + 1;
                id
            },
        };
        let mut md = chars_of("!aura.ai.infer !");
        push_all(&mut md, &decimal_chars(id));
        Some(attach_of(&l1, &md))
    } else {
        Some(l1)
    }
}

/// One line rewritten; `None` when it would hand out a metadata number past
/// `u32::MAX`.
fn rewrite_line_of(
    line: &Vec<char>,
    lens: &Vec<(Vec<char>, i64)>,
    next: &mut u32,
    ranges: &mut Vec<(u32, i64, i64)>,
    infer: &mut Option<u32>,
) -> (r: Option<Vec<char>>)
    requires
        !line_malformed(line@),
    ensures
        r is None <==> rewrite_line(
            line@,
            lens_model(lens@),
            (*old(next) as int, ranges_model(old(ranges)@), id_model(*old(infer))),
        ).1.0 > u32::MAX,
        r matches Some(l) ==> (l@, (*final(next) as int, ranges_model(final(ranges)@), id_model(
            *final(infer),
        ))) == rewrite_line(
            line@,
            lens_model(lens@),
            (*old(next) as int, ranges_model(old(ranges)@), id_model(*old(infer))),
        ),
{
    let ghost st0: OptState = (*next as int, ranges_model(ranges@), id_model(*infer));
    let ghost mid = range_step(line@, lens_model(lens@), st0);
    assert(mid.1.0 <= infer_step(mid.0, mid.1).1.0);
    match range_step_of(line, lens, next, ranges, infer) {
        Some(l1) => infer_step_of(l1, next, infer, Ghost(ranges_model(ranges@))),
        None => None,
    }
}

// ---------------------------------------------------------------------------
// The pass
// ---------------------------------------------------------------------------

/// Vector features of the host, recorded in the footer.
#[derive(Clone, Copy, Debug, Default)]
pub struct HostFeatures {
    pub avx512: bool,
    pub amx: bool,
}

/// An error of the optimizer.
#[derive(Debug)]
pub struct AiOptError {
    pub message: String,
}

/// The first metadata number not yet in use in `text`.
pub open spec fn first_free(text: Seq<char>) -> int {
    match md_max(text) {
        Some(m) => m + 1,
        None => 0,
    }
}

/// The lines of `text` rewritten, and the state after the last of them.
pub open spec fn rewritten(text: Seq<char>) -> (Seq<Seq<char>>, OptState) {
    let ls = lines(text);
    rewrite_lines(ls, tensor_entries(ls, ls.len() as int), (first_free(text), Seq::empty(), None), ls.len() as int)
}

/// The inputs the pass handles: every call line has its argument list in
/// order, and every metadata number it hands out, the two module flags
/// included, fits in a `u32`.
pub open spec fn optimizable(text: Seq<char>) -> bool {
    &&& forall|k: int| 0 <= k < lines(text).len() ==> !line_malformed(#[trigger] lines(text)[k])
    &&& rewritten(text).1.0 <= u32::MAX
    &&& !has_infix(text, "!llvm.module.flags"@) ==> rewritten(text).1.0 < u32::MAX
}

/// The first `n` lines, each followed by `\n`.
pub open spec fn joined(ls: Seq<Seq<char>>, n: int) -> Seq<char>
    decreases n,
{
    if n <= 0 || n > ls.len() {
        Seq::empty()
    } else {
        joined(ls, n - 1) + ls[n - 1] + seq!['\n']
    }
}

/// Decimal rendering of an integer, with a `-` when negative.
pub open spec fn int_text(v: int) -> Seq<char> {
    if v < 0 { seq!['-'] + nat_decimal((-v) as nat) } else { nat_decimal(v as nat) }
}

/// The definitions of the first `n` range nodes.
pub open spec fn range_defs(rs: Seq<(int, i64, i64)>, n: int) -> Seq<char>
    decreases n,
{
    if n <= 0 || n > rs.len() {
        Seq::empty()
    } else {
        let (id, lo, hi) = rs[n - 1];
        range_defs(rs, n - 1) + "!"@ + nat_decimal(id as nat) + " = !{i32 "@ + int_text(lo as int)
            + ", i32 "@ + int_text(hi as int) + "}\n"@
    }
}

/// The start of the footer, naming the host's vector features.
pub open spec fn footer_head(host: HostFeatures) -> Seq<char> {
    "\n; === aura-ai-opt metadata footer ===\n"@
        + (if host.avx512 { "; aura.host.avx512 = true\n"@ } else { Seq::empty() })
        + (if host.amx { "; aura.host.amx = true\n"@ } else { Seq::empty() })
}

/// Module flags numbered `id` and `id + 1`, unless `text` has its own: the
/// debug-info version, and the flag that enables loop vectorization.
pub open spec fn footer_flags(text: Seq<char>, id: int) -> Seq<char> {
    if has_infix(text, "!llvm.module.flags"@) {
        Seq::empty()
    } else {
        "!llvm.module.flags = !{!"@ + nat_decimal(id as nat) + ", !"@ + nat_decimal((id + 1) as nat) + "}\n"@
            + "!"@ + nat_decimal(id as nat) + " = !{i32 2, !\"Debug Info Version\", i32 3}\n"@ + "!"@
            + nat_decimal((id + 1) as nat) + " = !{i32 1, !\"llvm.loop.vectorize.enable\", i32 1}\n"@
    }
}

/// The definition of the inference tag, if one was made.
pub open spec fn footer_tag(tag: Option<int>) -> Seq<char> {
    match tag {
        Some(id) => "!"@ + nat_decimal(id as nat) + " = !{!\"aura.ai.infer\"}\n"@,
        None => Seq::empty(),
    }
}

/// The footer: host features, module flags when `text` has none, the range
/// nodes and the inference tag.
pub open spec fn footer(text: Seq<char>, host: HostFeatures, st: OptState) -> Seq<char> {
    footer_head(host) + footer_flags(text, st.0) + range_defs(st.1, st.1.len() as int) + footer_tag(st.2)
}

/// The text `optimize_ll` produces for `text`.
pub open spec fn optimized(text: Seq<char>, host: HostFeatures) -> Seq<char> {
    let (ls, st) = rewritten(text);
    joined(ls, ls.len() as int) + footer(text, host, st)
}

/// The model of a vector of lines.
pub open spec fn lines_model(v: Seq<Vec<char>>) -> Seq<Seq<char>> {
    Seq::new(v.len(), |k: int| v[k]@)
}

fn push_str(out: &mut Vec<char>, s: &str)
    ensures
        final(out)@ == old(out)@ + s@,
{
    push_all(out, &chars_of(s));
}

pub(crate) fn push_int(out: &mut Vec<char>, v: i64)
    ensures
        final(out)@ == old(out)@ + int_text(v as int),
{
    if v < 0 {
        let mag: u64 = if v == i64::MIN { 0x8000_0000_0000_0000u64 } else { (-v) as u64 };
        out.push('-');
        let d = u64_to_decimal(mag);
        push_all(out, &chars_of(d.as_str()));
        assert(final(out)@ =~= old(out)@ + int_text(v as int));
    } else {
        let d = u64_to_decimal(v as u64);
        push_all(out, &chars_of(d.as_str()));
    }
}

fn tensor_lens_of(ls: &Vec<Vec<char>>, Ghost(lsm): Ghost<Seq<Seq<char>>>) -> (lens: Vec<(Vec<char>, i64)>)
    requires
        lines_model(ls@) == lsm,
        forall|k: int| 0 <= k < lsm.len() ==> !line_malformed(#[trigger] lsm[k]),
    ensures
        lens_model(lens@) == tensor_entries(lsm, lsm.len() as int),
{
    let mut lens: Vec<(Vec<char>, i64)> = Vec::new();
    let mut i: usize = 0;
    while i < ls.len()
        invariant
            i <= ls.len(),
            lines_model(ls@) == lsm,
            forall|k: int| 0 <= k < lsm.len() ==> !line_malformed(#[trigger] lsm[k]),
            lens_model(lens@) =~= tensor_entries(lsm, i as int),
        decreases ls.len() - i,
    {
        assert(lsm[i as int] == ls@[i as int]@);
        match tensor_new_of(&ls[i]) {
            Some(e) => {
                lens.push(e);
            },
            None => {},
        }
        i = i + 1;
    }
    lens
}

/// All lines rewritten in order; `None` when the rewriting would hand out a
/// metadata number past `u32::MAX`.
fn rewrite_all(
    ls: &Vec<Vec<char>>,
    lens: &Vec<(Vec<char>, i64)>,
    next: &mut u32,
    Ghost(lsm): Ghost<Seq<Seq<char>>>,
) -> (r: Option<(Vec<Vec<char>>, Vec<(u32, i64, i64)>, Option<u32>)>)
    requires
        lines_model(ls@) == lsm,
        forall|k: int| 0 <= k < lsm.len() ==> !line_malformed(#[trigger] lsm[k]),
    ensures
        r is None <==> rewrite_lines(
            lsm,
            lens_model(lens@),
            (*old(next) as int, Seq::empty(), None),
            lsm.len() as int,
        ).1.0 > u32::MAX,
        r matches Some(t) ==> (lines_model(t.0@), (*final(next) as int, ranges_model(t.1@), id_model(t.2)))
            == rewrite_lines(
            lsm,
            lens_model(lens@),
            (*old(next) as int, Seq::empty(), None),
            lsm.len() as int,
        ),
{
    let ghost st0: OptState = (*next as int, Seq::empty(), None);
    let ghost lm = lens_model(lens@);
    let mut ranges: Vec<(u32, i64, i64)> = Vec::new();
    let mut infer: Option<u32> = None;
    let mut out_lines: Vec<Vec<char>> = Vec::new();
    assert(ranges_model(ranges@) =~= Seq::<(int, i64, i64)>::empty());
    assert(lines_model(out_lines@) =~= Seq::<Seq<char>>::empty());
    let mut i: usize = 0;
    while i < ls.len()
        invariant
            i <= ls.len(),
            lines_model(ls@) == lsm,
            lm == lens_model(lens@),
            st0 == (*old(next) as int, Seq::<(int, i64, i64)>::empty(), None::<int>),
            forall|k: int| 0 <= k < lsm.len() ==> !line_malformed(#[trigger] lsm[k]),
            (lines_model(out_lines@), (*next as int, ranges_model(ranges@), id_model(infer)))
                == rewrite_lines(lsm, lm, st0, i as int),
        decreases ls.len() - i,
    {
        assert(lsm[i as int] == ls@[i as int]@);
        let ghost before = lines_model(out_lines@);
        let ghost cur: OptState = (*next as int, ranges_model(ranges@), id_model(infer));
        assert(rewrite_lines(lsm, lm, st0, i + 1).1 == rewrite_line(lsm[i as int], lm, cur).1);
        match rewrite_line_of(&ls[i], lens, next, &mut ranges, &mut infer) {
            Some(l) => {
                out_lines.push(l);
                assert(lines_model(out_lines@) =~= before.push(l@));
            },
            None => {
                proof {
                    lemma_rewrite_lines_grows(lsm, lm, st0, i + 1, lsm.len() as int);
                }
                return None;
            },
        }
        i = i + 1;
    }
    Some((out_lines, ranges, infer))
}

fn joined_of(ls: &Vec<Vec<char>>) -> (out: Vec<char>)
    ensures
        out@ == joined(lines_model(ls@), ls@.len() as int),
{
    let mut out: Vec<char> = Vec::new();
    let mut k: usize = 0;
    while k < ls.len()
        invariant
            k <= ls.len(),
            out@ == joined(lines_model(ls@), k as int),
        decreases ls.len() - k,
    {
        push_all(&mut out, &ls[k]);
        out.push('\n');
        k = k + 1;
    }
    out
}

fn footer_head_of(out: &mut Vec<char>, host: HostFeatures)
    ensures
        final(out)@ == old(out)@ + footer_head(host),
{
    push_str(out, "\n; === aura-ai-opt metadata footer ===\n");
    if host.avx512 {
        push_str(out, "; aura.host.avx512 = true\n");
    }
    if host.amx {
        push_str(out, "; aura.host.amx = true\n");
    }
    assert(final(out)@ =~= old(out)@ + footer_head(host));
}

#[verifier::rlimit(50)]
fn footer_flags_of(out: &mut Vec<char>, has_module_flags: bool, id: u32, Ghost(text): Ghost<Seq<char>>)
    requires
        has_module_flags == has_infix(text, "!llvm.module.flags"@),
        !has_module_flags ==> id < u32::MAX,
    ensures
        final(out)@ == old(out)@ + footer_flags(text, id as int),
{
    if !has_module_flags {
        let flag_id = decimal_chars(id);
        let vec_id = decimal_chars(id + 1);
        push_str(out, "!llvm.module.flags = !{!");
        push_all(out, &flag_id);
        push_str(out, ", !");
        push_all(out, &vec_id);
        push_str(out, "}\n");
        push_str(out, "!");
        push_all(out, &flag_id);
        push_str(out, " = !{i32 2, !\"Debug Info Version\", i32 3}\n");
        push_str(out, "!");
        push_all(out, &vec_id);
        push_str(out, " = !{i32 1, !\"llvm.loop.vectorize.enable\", i32 1}\n");
    }
    assert(final(out)@ =~= old(out)@ + footer_flags(text, id as int));
}

fn range_def_of(out: &mut Vec<char>, id: u32, lo: i64, hi: i64)
    ensures
        final(out)@ == old(out)@ + ("!"@ + nat_decimal(id as nat) + " = !{i32 "@ + int_text(lo as int)
            + ", i32 "@ + int_text(hi as int) + "}\n"@),
{
    push_str(out, "!");
    push_all(out, &decimal_chars(id));
    push_str(out, " = !{i32 ");
    push_int(out, lo);
    push_str(out, ", i32 ");
    push_int(out, hi);
    push_str(out, "}\n");
    assert(final(out)@ =~= old(out)@ + ("!"@ + nat_decimal(id as nat) + " = !{i32 "@ + int_text(
        lo as int,
    ) + ", i32 "@ + int_text(hi as int) + "}\n"@));
}

fn range_defs_of(out: &mut Vec<char>, ranges: &Vec<(u32, i64, i64)>)
    ensures
        final(out)@ == old(out)@ + range_defs(ranges_model(ranges@), ranges@.len() as int),
{
    let ghost rm = ranges_model(ranges@);
    let mut n: usize = 0;
    while n < ranges.len()
        invariant
            n <= ranges.len(),
            rm == ranges_model(ranges@),
            out@ == old(out)@ + range_defs(rm, n as int),
        decreases ranges.len() - n,
    {
        let (id, lo, hi) = ranges[n];
        assert(rm[n as int] == (id as int, lo, hi));
        range_def_of(out, id, lo, hi);
        assert(out@ =~= old(out)@ + range_defs(rm, n + 1));
        n = n + 1;
    }
}

#[verifier::rlimit(50)]
fn footer_of(
    out: &mut Vec<char>,
    has_module_flags: bool,
    host: HostFeatures,
    next: u32,
    ranges: &Vec<(u32, i64, i64)>,
    infer: Option<u32>,
    Ghost(text): Ghost<Seq<char>>,
)
    requires
        has_module_flags == has_infix(text, "!llvm.module.flags"@),
        !has_module_flags ==> next < u32::MAX,
    ensures
        final(out)@ == old(out)@ + footer(text, host, (next as int, ranges_model(ranges@), id_model(infer))),
{
    footer_head_of(out, host);
    footer_flags_of(out, has_module_flags, next, Ghost(text));
    range_defs_of(out, ranges);
    match infer {
        Some(id) => {
            push_str(out, "!");
            push_all(out, &decimal_chars(id));
            push_str(out, " = !{!\"aura.ai.infer\"}\n");
        },
        None => {},
    }
    assert(final(out)@ =~= old(out)@ + footer(text, host, (next as int, ranges_model(ranges@), id_model(infer))));
}

/// Whether `optimize_ll` handles `input_ll`: every call line has its
/// argument list in order, and the metadata numbers it hands out fit in a
/// `u32`.
pub fn optimizable_input(input_ll: &str) -> (r: bool)
    ensures
        r == optimizable(input_ll@),
{
    let text = chars_of(input_ll);
    let ls = lines_of(&text);
    let ghost lsm = lines(text@);
    assert(lines_model(ls@) =~= lsm);
    let mut i: usize = 0;
    while i < ls.len()
        invariant
            i <= ls.len(),
            lines_model(ls@) == lsm,
            lsm == lines(input_ll@),
            forall|k: int| 0 <= k < i ==> !line_malformed(#[trigger] lsm[k]),
        decreases ls.len() - i,
    {
        assert(lsm[i as int] == ls@[i as int]@);
        let bad = call_malformed_of(&ls[i], &chars_of("@aura_tensor_new"))
            || call_malformed_of(&ls[i], &chars_of("@aura_tensor_len"));
        if bad {
            assert(line_malformed(lines(input_ll@)[i as int]));
            return false;
        }
        i = i + 1;
    }
    let max_md = max_metadata_id(&text);
    let ghost st0: OptState = (first_free(text@), Seq::empty(), None);
    let lens = tensor_lens_of(&ls, Ghost(lsm));
    proof {
        lemma_rewrite_lines_grows(lsm, lens_model(lens@), st0, 0, lsm.len() as int);
    }
    let mut next: u32 = match max_md {
        Some(n) => {
            if n == u32::MAX {
                return false;
            }
            n + 1
        },
        None => 0,
    };
    let has_module_flags = vec_contains(&text, &chars_of("!llvm.module.flags"));
    match rewrite_all(&ls, &lens, &mut next, Ghost(lsm)) {
        Some(_) => has_module_flags || next < u32::MAX,
        None => false,
    }
}

/// Injects LLVM metadata into textual IR: a `!range` on each length query of
/// a tensor created with a constant length, a tag on each inference call,
/// module flags when the module has none (the debug-info version and the
/// flag that enables loop vectorization), and a footer naming the host's
/// vector features.
pub fn optimize_ll(input_ll: &str, host: HostFeatures) -> (r: Result<String, AiOptError>)
    requires
        optimizable(input_ll@),
    ensures
        r matches Ok(out) && out@ == optimized(input_ll@, host),
{
    let text = chars_of(input_ll);
    let ls = lines_of(&text);
    let ghost lsm = lines(text@);
    assert(lines_model(ls@) =~= lsm);
    let max_md = max_metadata_id(&text);
    let ghost st0: OptState = (first_free(text@), Seq::empty(), None);
    let lens = tensor_lens_of(&ls, Ghost(lsm));
    proof {
        lemma_rewrite_lines_grows(lsm, lens_model(lens@), st0, 0, lsm.len() as int);
    }
    let mut next: u32 = match max_md {
        Some(n) => n + 1,
        None => 0,
    };
    let has_module_flags = vec_contains(&text, &chars_of("!llvm.module.flags"));
    let (out_lines, ranges, infer) = match rewrite_all(&ls, &lens, &mut next, Ghost(lsm)) {
        Some(t) => t,
        None => {
            return Err(AiOptError { message: String::from_str("metadata numbers exhausted") });
        },
    };
    let mut out = joined_of(&out_lines);
    footer_of(&mut out, has_module_flags, host, next, &ranges, infer, Ghost(text@));
    Ok(to_string(&out))
}

} // verus!
