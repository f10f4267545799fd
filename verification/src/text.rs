//! Text building blocks shared by the analyses: decimal rendering of
//! integers, character access, substring search, white space and tokens.
use vstd::prelude::*;

verus! {

/// The decimal digit character of a value below ten.
pub open spec fn digit_char(d: nat) -> char {
    if d == 0 { '0' } else if d == 1 { '1' } else if d == 2 { '2' } else if d == 3 { '3' }
    else if d == 4 { '4' } else if d == 5 { '5' } else if d == 6 { '6' } else if d == 7 { '7' }
    else if d == 8 { '8' } else { '9' }
}

/// Decimal rendering of a natural number, without leading zeros.
pub open spec fn nat_decimal(n: nat) -> Seq<char>
    decreases n,
{
    if n < 10 {
        seq![digit_char(n)]
    } else {
        nat_decimal(n / 10).push(digit_char(n % 10))
    }
}

fn digit_of(d: u64) -> (c: char)
    requires
        d < 10,
    ensures
        c == digit_char(d as nat),
{
    if d == 0 { '0' } else if d == 1 { '1' } else if d == 2 { '2' } else if d == 3 { '3' }
    else if d == 4 { '4' } else if d == 5 { '5' } else if d == 6 { '6' } else if d == 7 { '7' }
    else if d == 8 { '8' } else { '9' }
}

/// Renders `n` in decimal.
pub fn u64_to_decimal(n: u64) -> (s: String)
    ensures
        s@ == nat_decimal(n as nat),
{
    let mut digits: Vec<char> = Vec::new();
    let mut m: u64 = n;
    // digits holds the low-order digits, last digit first
    while m >= 10
        invariant
            nat_decimal(n as nat) == nat_decimal(m as nat) + digits@.reverse(),
        decreases m,
    {
        let d = m % 10;
        let ghost old_digits = digits@;
        digits.push(digit_of(d));
        let ghost old_m = m;
        m = m / 10;
        assert(nat_decimal(old_m as nat) == nat_decimal(m as nat).push(digit_char(d as nat)));
        assert(digits@.reverse() =~= seq![digit_char(d as nat)] + old_digits.reverse());
        assert(nat_decimal(n as nat) =~= nat_decimal(m as nat) + digits@.reverse());
    }
    let ghost before = digits@;
    digits.push(digit_of(m));
    assert(digits@.reverse() =~= seq![digit_char(m as nat)] + before.reverse());
    assert(nat_decimal(n as nat) =~= digits@.reverse());
    let mut s = String::new();
    let mut i: usize = digits.len();
    while i > 0
        invariant
            i <= digits.len(),
            s@ =~= digits@.reverse().subrange(0, (digits.len() - i) as int),
        decreases i,
    {
        i = i - 1;
        push_char(&mut s, digits[i]);
    }
    assert(digits@.reverse().subrange(0, digits.len() as int) =~= digits@.reverse());
    s
}

/// The lower-case hexadecimal digit of a value below sixteen.
pub open spec fn hex_char(d: nat) -> char {
    if d < 10 { digit_char(d) } else if d == 10 { 'a' } else if d == 11 { 'b' } else if d == 12 { 'c' }
    else if d == 13 { 'd' } else if d == 14 { 'e' } else { 'f' }
}

/// Lower-case hexadecimal rendering of a natural number, without leading zeros.
pub open spec fn nat_hex(n: nat) -> Seq<char>
    decreases n,
{
    if n < 16 {
        seq![hex_char(n)]
    } else {
        nat_hex(n / 16).push(hex_char(n % 16))
    }
}

fn hex_of(d: u64) -> (c: char)
    requires
        d < 16,
    ensures
        c == hex_char(d as nat),
{
    if d < 10 { digit_of(d) } else if d == 10 { 'a' } else if d == 11 { 'b' } else if d == 12 { 'c' }
    else if d == 13 { 'd' } else if d == 14 { 'e' } else { 'f' }
}

/// Renders `n` in lower-case hexadecimal.
pub fn u64_to_hex(n: u64) -> (s: String)
    ensures
        s@ == nat_hex(n as nat),
{
    let mut digits: Vec<char> = Vec::new();
    let mut m: u64 = n;
    while m >= 16
        invariant
            nat_hex(n as nat) == nat_hex(m as nat) + digits@.reverse(),
        decreases m,
    {
        let d = m % 16;
        let ghost old_digits = digits@;
        digits.push(hex_of(d));
        let ghost old_m = m;
        m = m / 16;
        assert(nat_hex(old_m as nat) == nat_hex(m as nat).push(hex_char(d as nat)));
        assert(digits@.reverse() =~= seq![hex_char(d as nat)] + old_digits.reverse());
        assert(nat_hex(n as nat) =~= nat_hex(m as nat) + digits@.reverse());
    }
    let ghost before = digits@;
    digits.push(hex_of(m));
    assert(digits@.reverse() =~= seq![hex_char(m as nat)] + before.reverse());
    assert(nat_hex(n as nat) =~= digits@.reverse());
    let mut s = String::new();
    let mut i: usize = digits.len();
    while i > 0
        invariant
            i <= digits.len(),
            s@ =~= digits@.reverse().subrange(0, (digits.len() - i) as int),
        decreases i,
    {
        i = i - 1;
        push_char(&mut s, digits[i]);
    }
    assert(digits@.reverse().subrange(0, digits.len() as int) =~= digits@.reverse());
    s
}

/// Appends one character.
#[verifier::external_body]
pub(crate) fn push_char(s: &mut String, c: char)
    ensures
        final(s)@ == old(s)@.push(c),
{
    s.push(c);
}

/// The characters of a string slice.
pub fn chars_of(s: &str) -> (v: Vec<char>)
    ensures
        v@ == s@,
{
    let mut v: Vec<char> = Vec::new();
    for c in it: s.chars()
        invariant
            v@ == it.seq().subrange(0, it.index() as int),
    {
        v.push(c);
    }
    v
}

/// `p` occurs in `s` starting at position `i`.
pub open spec fn occurs_at(s: Seq<char>, p: Seq<char>, i: int) -> bool {
    0 <= i && i + p.len() <= s.len() && s.subrange(i, i + p.len()) == p
}

/// `p` occurs somewhere in `s` as a contiguous run of characters.
pub open spec fn has_infix(s: Seq<char>, p: Seq<char>) -> bool {
    exists|i: int| occurs_at(s, p, i)
}

pub fn matches_at(s: &Vec<char>, p: &Vec<char>, i: usize) -> (r: bool)
    requires
        i + p.len() <= s.len(),
    ensures
        r == occurs_at(s@, p@, i as int),
{
    let mut k: usize = 0;
    while k < p.len()
        invariant
            k <= p.len(),
            i + p.len() <= s.len(),
            forall|j: int| 0 <= j < k ==> s@[i + j] == p@[j],
        decreases p.len() - k,
    {
        if s[i + k] != p[k] {
            assert(s@.subrange(i as int, i + p.len())[k as int] != p@[k as int]);
            return false;
        }
        k = k + 1;
    }
    assert(s@.subrange(i as int, i + p.len()) =~= p@);
    true
}

/// Whether `needle` occurs in `hay` (as `str::contains` with a string pattern).
pub fn contains_str(hay: &str, needle: &str) -> (r: bool)
    ensures
        r == has_infix(hay@, needle@),
{
    let h = chars_of(hay);
    let n = chars_of(needle);
    vec_contains(&h, &n)
}

/// Whether the characters `n` occur contiguously in `h`.
pub fn vec_contains(h: &Vec<char>, n: &Vec<char>) -> (r: bool)
    ensures
        r == has_infix(h@, n@),
{
    if n.len() > h.len() {
        assert forall|i: int| !occurs_at(h@, n@, i) by {}
        return false;
    }
    let last = h.len() - n.len();
    let mut i: usize = 0;
    while i <= last
        invariant
            last == h.len() - n.len(),
            n.len() <= h.len(),
            forall|j: int| 0 <= j < i ==> !occurs_at(h@, n@, j),
        decreases last + 1 - i,
    {
        if matches_at(h, n, i) {
            return true;
        }
        if i == last {
            assert forall|j: int| !occurs_at(h@, n@, j) by {
                if 0 <= j < i {
                }
            }
            return false;
        }
        i = i + 1;
    }
    assert forall|j: int| !occurs_at(h@, n@, j) by {
        if 0 <= j < i {
        }
    }
    false
}

/// Character-wise equality of two string slices.
pub fn str_eq(a: &str, b: &str) -> (r: bool)
    ensures
        r == (a@ == b@),
{
    let x = chars_of(a);
    let y = chars_of(b);
    vec_eq(&x, &y)
}

/// Element-wise equality of two character vectors.
pub fn vec_eq(x: &Vec<char>, y: &Vec<char>) -> (r: bool)
    ensures
        r == (x@ == y@),
{
    if x.len() != y.len() {
        return false;
    }
    let mut i: usize = 0;
    while i < x.len()
        invariant
            x.len() == y.len(),
            forall|j: int| 0 <= j < i ==> x@[j] == y@[j],
        decreases x.len() - i,
    {
        if x[i] != y[i] {
            assert(x@[i as int] != y@[i as int]);
            return false;
        }
        i = i + 1;
    }
    assert(x@ =~= y@);
    true
}

/// `r` is an error whose text is `m`.
pub open spec fn err_text<T>(r: Result<T, String>, m: Seq<char>) -> bool {
    match r {
        Err(e) => e@ == m,
        Ok(_) => false,
    }
}

/// An owned copy of a string slice.
pub fn owned(s: &str) -> (r: String)
    ensures
        r@ == s@,
{
    String::from_str(s)
}

/// Unicode white space, as `char::is_whitespace` defines it.
pub open spec fn is_ws(c: char) -> bool {
    ||| '\t' <= c <= '\r'
    ||| c == ' '
    ||| c == '\u{85}'
    ||| c == '\u{a0}'
    ||| c == '\u{1680}'
    ||| '\u{2000}' <= c <= '\u{200a}'
    ||| c == '\u{2028}'
    ||| c == '\u{2029}'
    ||| c == '\u{202f}'
    ||| c == '\u{205f}'
    ||| c == '\u{3000}'
}

pub fn white(c: char) -> (r: bool)
    ensures
        r == is_ws(c),
{
    ('\t' <= c && c <= '\r') || c == ' ' || c == '\u{85}' || c == '\u{a0}' || c == '\u{1680}'
        || ('\u{2000}' <= c && c <= '\u{200a}') || c == '\u{2028}' || c == '\u{2029}'
        || c == '\u{202f}' || c == '\u{205f}' || c == '\u{3000}'
}

/// A copy of `v[a..b]`.
pub fn slice(v: &Vec<char>, a: usize, b: usize) -> (r: Vec<char>)
    requires
        a <= b <= v.len(),
    ensures
        r@ == v@.subrange(a as int, b as int),
{
    let mut r: Vec<char> = Vec::new();
    let mut i = a;
    while i < b
        invariant
            a <= i <= b <= v.len(),
            r@ == v@.subrange(a as int, i as int),
        decreases b - i,
    {
        r.push(v[i]);
        i = i + 1;
    }
    r
}

/// The characters of `s` as a string.
pub fn to_string(s: &Vec<char>) -> (r: String)
    ensures
        r@ == s@,
{
    let mut r = String::new();
    let mut i: usize = 0;
    while i < s.len()
        invariant
            i <= s.len(),
            r@ == s@.subrange(0, i as int),
        decreases s.len() - i,
    {
        push_char(&mut r, s[i]);
        i = i + 1;
    }
    r
}

pub fn push_all(out: &mut Vec<char>, s: &Vec<char>)
    ensures
        final(out)@ == old(out)@ + s@,
{
    let mut i: usize = 0;
    while i < s.len()
        invariant
            i <= s.len(),
            out@ == old(out)@ + s@.subrange(0, i as int),
        decreases s.len() - i,
    {
        out.push(s[i]);
        i = i + 1;
    }
}

/// The position just past the white space that starts at `i`.
pub open spec fn skip_ws(s: Seq<char>, i: int) -> int
    decreases s.len() - i,
{
    if 0 <= i < s.len() && is_ws(s[i]) { skip_ws(s, i + 1) } else { i }
}

/// The end of `s[..j]` once the white space before `j` is dropped.
pub open spec fn back_ws(s: Seq<char>, j: int) -> int
    decreases j,
{
    if 0 < j <= s.len() && is_ws(s[j - 1]) { back_ws(s, j - 1) } else { j }
}

/// `str::trim_start`.
pub open spec fn trim_start(s: Seq<char>) -> Seq<char> {
    s.subrange(skip_ws(s, 0), s.len() as int)
}

/// `str::trim_end`.
pub open spec fn trim_end(s: Seq<char>) -> Seq<char> {
    s.subrange(0, back_ws(s, s.len() as int))
}

/// `str::trim`.
pub open spec fn trim(s: Seq<char>) -> Seq<char> {
    trim_end(trim_start(s))
}

pub proof fn lemma_skip_ws_bounds(s: Seq<char>, i: int)
    requires
        0 <= i <= s.len(),
    ensures
        i <= skip_ws(s, i) <= s.len(),
    decreases s.len() - i,
{
    if i < s.len() && is_ws(s[i]) {
        lemma_skip_ws_bounds(s, i + 1);
    }
}

pub proof fn lemma_back_ws_bounds(s: Seq<char>, j: int)
    requires
        0 <= j <= s.len(),
    ensures
        0 <= back_ws(s, j) <= j,
    decreases j,
{
    if 0 < j && is_ws(s[j - 1]) {
        lemma_back_ws_bounds(s, j - 1);
    }
}

pub proof fn lemma_skip_ws_stops(s: Seq<char>, i: int)
    requires
        0 <= i <= s.len(),
    ensures
        skip_ws(s, i) == s.len() || !is_ws(s[skip_ws(s, i)]),
    decreases s.len() - i,
{
    if i < s.len() && is_ws(s[i]) {
        lemma_skip_ws_stops(s, i + 1);
    }
}

pub proof fn lemma_back_ws_stops(s: Seq<char>, j: int)
    requires
        0 <= j <= s.len(),
    ensures
        back_ws(s, j) == 0 || !is_ws(s[back_ws(s, j) - 1]),
    decreases j,
{
    if 0 < j && is_ws(s[j - 1]) {
        lemma_back_ws_stops(s, j - 1);
    }
}

/// Trimming twice trims no more than once.
pub proof fn lemma_trim_idempotent(s: Seq<char>)
    ensures
        trim(trim(s)) == trim(s),
{
    lemma_skip_ws_bounds(s, 0);
    lemma_skip_ws_stops(s, 0);
    let t = trim_start(s);
    lemma_back_ws_bounds(t, t.len() as int);
    lemma_back_ws_stops(t, t.len() as int);
    let u = trim(s);
    assert(u == t.subrange(0, back_ws(t, t.len() as int)));
    if u.len() > 0 {
        assert(u[0] == t[0]);
        assert(!is_ws(u[0]));
        assert(skip_ws(u, 0) == 0);
        assert(trim_start(u) =~= u);
        assert(u[u.len() - 1] == t[back_ws(t, t.len() as int) - 1]);
        assert(back_ws(u, u.len() as int) == u.len());
        assert(trim_end(u) =~= u);
    } else {
        assert(trim_start(u) =~= u);
        assert(trim_end(u) =~= u);
    }
}

pub fn trim_start_of(s: &Vec<char>) -> (r: Vec<char>)
    ensures
        r@ == trim_start(s@),
{
    let mut i: usize = 0;
    while i < s.len() && white(s[i])
        invariant
            i <= s.len(),
            skip_ws(s@, 0) == skip_ws(s@, i as int),
        decreases s.len() - i,
    {
        i = i + 1;
    }
    slice(s, i, s.len())
}

pub fn trim_end_of(s: &Vec<char>) -> (r: Vec<char>)
    ensures
        r@ == trim_end(s@),
{
    let mut j: usize = s.len();
    while j > 0 && white(s[j - 1])
        invariant
            j <= s.len(),
            back_ws(s@, s.len() as int) == back_ws(s@, j as int),
        decreases j,
    {
        j = j - 1;
    }
    slice(s, 0, j)
}

pub fn trim_of(s: &Vec<char>) -> (r: Vec<char>)
    ensures
        r@ == trim(s@),
{
    let t = trim_start_of(s);
    trim_end_of(&t)
}

/// The first position at or after `i` that holds `c`.
pub open spec fn find_from(s: Seq<char>, c: char, i: int) -> Option<int>
    decreases s.len() - i,
{
    if i < 0 || i >= s.len() {
        None
    } else if s[i] == c {
        Some(i)
    } else {
        find_from(s, c, i + 1)
    }
}

/// `str::find` with a character pattern.
pub open spec fn find(s: Seq<char>, c: char) -> Option<int> {
    find_from(s, c, 0)
}

/// The last position before `j` that holds `c`.
pub open spec fn rfind_before(s: Seq<char>, c: char, j: int) -> Option<int>
    decreases j,
{
    if j <= 0 || j > s.len() {
        None
    } else if s[j - 1] == c {
        Some(j - 1)
    } else {
        rfind_before(s, c, j - 1)
    }
}

/// `str::rfind` with a character pattern.
pub open spec fn rfind(s: Seq<char>, c: char) -> Option<int> {
    rfind_before(s, c, s.len() as int)
}

pub proof fn lemma_find_from(s: Seq<char>, c: char, i: int)
    requires
        0 <= i,
    ensures
        find_from(s, c, i) matches Some(k) ==> i <= k < s.len() && s[k] == c,
    decreases s.len() - i,
{
    if i < s.len() && s[i] != c {
        lemma_find_from(s, c, i + 1);
    }
}

pub proof fn lemma_rfind_before(s: Seq<char>, c: char, j: int)
    requires
        j <= s.len(),
    ensures
        rfind_before(s, c, j) matches Some(k) ==> 0 <= k < j && s[k] == c,
    decreases j,
{
    if 0 < j && s[j - 1] != c {
        lemma_rfind_before(s, c, j - 1);
    }
}

pub fn find_of(s: &Vec<char>, c: char) -> (r: Option<usize>)
    ensures
        r matches Some(k) ==> find(s@, c) == Some(k as int) && k < s.len(),
        r is None ==> find(s@, c) is None,
{
    let mut i: usize = 0;
    while i < s.len()
        invariant
            i <= s.len(),
            find(s@, c) == find_from(s@, c, i as int),
        decreases s.len() - i,
    {
        if s[i] == c {
            return Some(i);
        }
        i = i + 1;
    }
    None
}

pub fn rfind_of(s: &Vec<char>, c: char) -> (r: Option<usize>)
    ensures
        r matches Some(k) ==> rfind(s@, c) == Some(k as int) && k < s.len(),
        r is None ==> rfind(s@, c) is None,
{
    let mut j: usize = s.len();
    while j > 0
        invariant
            j <= s.len(),
            rfind(s@, c) == rfind_before(s@, c, j as int),
        decreases j,
    {
        if s[j - 1] == c {
            return Some(j - 1);
        }
        j = j - 1;
    }
    None
}

/// Which characters separate tokens.
#[derive(Clone, Copy, Debug, PartialEq, Eq)]
pub enum Seps {
    /// White space alone (`split_whitespace`).
    Space,
    /// White space, `,` and `)`.
    Args,
    /// White space, `,`, `(` and `)`.
    Parens,
}

/// `c` separates tokens of kind `kind`.
pub open spec fn is_sep(c: char, kind: Seps) -> bool {
    match kind {
        Seps::Space => is_ws(c),
        Seps::Args => is_ws(c) || c == ',' || c == ')',
        Seps::Parens => is_ws(c) || c == ',' || c == ')' || c == '(',
    }
}

pub fn sep(c: char, kind: Seps) -> (r: bool)
    ensures
        r == is_sep(c, kind),
{
    match kind {
        Seps::Space => white(c),
        Seps::Args => white(c) || c == ',' || c == ')',
        Seps::Parens => white(c) || c == ',' || c == ')' || c == '(',
    }
}

/// The end of the run of non-separators that starts at `i`.
pub open spec fn run_end(s: Seq<char>, i: int, kind: Seps) -> int
    decreases s.len() - i,
{
    if 0 <= i < s.len() && !is_sep(s[i], kind) { run_end(s, i + 1, kind) } else { i }
}

pub proof fn lemma_run_end(s: Seq<char>, i: int, kind: Seps)
    requires
        0 <= i <= s.len(),
    ensures
        i <= run_end(s, i, kind) <= s.len(),
        i < s.len() && !is_sep(s[i], kind) ==> i < run_end(s, i, kind),
    decreases s.len() - i,
{
    if i < s.len() && !is_sep(s[i], kind) {
        lemma_run_end(s, i + 1, kind);
    }
}

/// The maximal runs of non-separators in `s` from position `i` on, in order.
pub open spec fn tokens_from(s: Seq<char>, i: int, kind: Seps) -> Seq<Seq<char>>
    decreases s.len() - i,
{
    if i < 0 || i >= s.len() {
        Seq::empty()
    } else if is_sep(s[i], kind) {
        tokens_from(s, i + 1, kind)
    } else {
        let e = run_end(s, i, kind);
        proof {
            lemma_run_end(s, i, kind);
        }
        if e <= i {
            Seq::empty()
        } else {
            seq![s.subrange(i, e)] + tokens_from(s, e, kind)
        }
    }
}

/// The tokens of `s`.
pub open spec fn tokens(s: Seq<char>, kind: Seps) -> Seq<Seq<char>> {
    tokens_from(s, 0, kind)
}

pub fn tokens_of(s: &Vec<char>, kind: Seps) -> (r: Vec<Vec<char>>)
    ensures
        r@.len() == tokens(s@, kind).len(),
        forall|k: int| 0 <= k < r@.len() ==> #[trigger] r@[k]@ == tokens(s@, kind)[k],
{
    let mut r: Vec<Vec<char>> = Vec::new();
    let mut i: usize = 0;
    let ghost mut done: Seq<Seq<char>> = Seq::empty();
    while i < s.len()
        invariant
            i <= s.len(),
            done + tokens_from(s@, i as int, kind) == tokens(s@, kind),
            r@.len() == done.len(),
            forall|k: int| 0 <= k < r@.len() ==> #[trigger] r@[k]@ == done[k],
        decreases s.len() - i,
    {
        if sep(s[i], kind) {
            i = i + 1;
        } else {
            let mut e = i;
            while e < s.len() && !sep(s[e], kind)
                invariant
                    i <= e <= s.len(),
                    run_end(s@, i as int, kind) == run_end(s@, e as int, kind),
                decreases s.len() - e,
            {
                e = e + 1;
            }
            proof {
                lemma_run_end(s@, i as int, kind);
            }
            let t = slice(s, i, e);
            proof {
                assert(tokens_from(s@, i as int, kind) == seq![s@.subrange(i as int, e as int)]
                    + tokens_from(s@, e as int, kind));
                assert(done.push(t@) + tokens_from(s@, e as int, kind) =~= done + tokens_from(
                    s@,
                    i as int,
                    kind,
                ));
                done = done.push(t@);
            }
            r.push(t);
            i = e;
        }
    }
    proof {
        assert(done =~= tokens(s@, kind));
    }
    r
}

} // verus!
