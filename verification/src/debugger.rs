//! Debug information for compiled modules: source locations of IR offsets,
//! function and type descriptions, DWARF metadata text, and breakpoints managed
//! for a GDB/LLDB machine interface.
use std::collections::BTreeMap;
use vstd::prelude::*;
use vstd::std_specs::cmp::OrdSpec;
use vstd::std_specs::iter::IteratorSpec;
use crate::ownership_enforcement::append_decimal;
use crate::text::{chars_of, nat_decimal, nat_hex, u64_to_hex};

verus! {

broadcast use {vstd::std_specs::btree::group_btree_axioms, vstd::laws_cmp::group_laws_cmp};

/// The keys of an ordered map, as its iterator yields them, increase.
proof fn lemma_increasing_keys(ks: Seq<u64>)
    requires
        vstd::std_specs::btree::increasing_seq(ks),
    ensures
        forall|i: int, j: int| 0 <= i < j < ks.len() ==> ks[i] < ks[j],
{
    assert forall|i: int, j: int| 0 <= i < j < ks.len() implies ks[i] < ks[j] by {
        assert(ks[i].cmp_spec(&ks[j]) is Less);
    }
}

// ---------------------------------------------------------------------------
// Text order

/// `a` comes before `b` in lexicographic order of characters.
pub open spec fn text_lt(a: Seq<char>, b: Seq<char>) -> bool
    decreases a.len(),
{
    if a.len() == 0 {
        b.len() > 0
    } else if b.len() == 0 {
        false
    } else if a[0] != b[0] {
        a[0] < b[0]
    } else {
        text_lt(a.drop_first(), b.drop_first())
    }
}

pub proof fn lemma_text_lt_irreflexive(a: Seq<char>)
    ensures
        !text_lt(a, a),
    decreases a.len(),
{
    if a.len() > 0 {
        lemma_text_lt_irreflexive(a.drop_first());
    }
}

pub proof fn lemma_text_lt_transitive(a: Seq<char>, b: Seq<char>, c: Seq<char>)
    requires
        text_lt(a, b),
        text_lt(b, c),
    ensures
        text_lt(a, c),
    decreases a.len(),
{
    if a.len() > 0 && b.len() > 0 && c.len() > 0 && a[0] == b[0] && b[0] == c[0] {
        lemma_text_lt_transitive(a.drop_first(), b.drop_first(), c.drop_first());
    }
}

pub proof fn lemma_text_lt_total(a: Seq<char>, b: Seq<char>)
    ensures
        a == b || text_lt(a, b) || text_lt(b, a),
    decreases a.len(),
{
    if a.len() > 0 && b.len() > 0 && a[0] == b[0] {
        lemma_text_lt_total(a.drop_first(), b.drop_first());
        if a.drop_first() == b.drop_first() {
            assert(a =~= seq![a[0]] + a.drop_first());
            assert(b =~= seq![b[0]] + b.drop_first());
        }
    } else if a.len() == 0 && b.len() == 0 {
        assert(a =~= b);
    }
}

/// Whether `a` comes before `b` (see [`text_lt`]).
fn text_less(a: &str, b: &str) -> (r: bool)
    ensures
        r == text_lt(a@, b@),
{
    let x = chars_of(a);
    let y = chars_of(b);
    let mut i: usize = 0;
    assert(a@.subrange(0, a@.len() as int) =~= a@);
    assert(b@.subrange(0, b@.len() as int) =~= b@);
    while i < x.len() && i < y.len()
        invariant
            x@ == a@,
            y@ == b@,
            i <= x@.len(),
            i <= y@.len(),
            text_lt(a@, b@) == text_lt(a@.subrange(i as int, a@.len() as int), b@.subrange(i as int, b@.len() as int)),
        decreases x.len() - i,
    {
        let ghost sa = a@.subrange(i as int, a@.len() as int);
        let ghost sb = b@.subrange(i as int, b@.len() as int);
        assert(sa[0] == x@[i as int] && sb[0] == y@[i as int]);
        if x[i] != y[i] {
            return x[i] < y[i];
        }
        assert(sa.drop_first() =~= a@.subrange(i + 1, a@.len() as int));
        assert(sb.drop_first() =~= b@.subrange(i + 1, b@.len() as int));
        i = i + 1;
    }
    i < y.len()
}

/// The keys of `v` are strictly increasing.
pub open spec fn keys_sorted<V>(v: Seq<(String, V)>) -> bool {
    forall|i: int, j: int| 0 <= i < j < v.len() ==> text_lt(v[i].0@, v[j].0@)
}

/// The number of leading entries of `v` whose key comes before `k`.
pub open spec fn position_of<V>(v: Seq<(String, V)>, k: Seq<char>) -> int
    decreases v.len(),
{
    if v.len() == 0 {
        0
    } else if !text_lt(v[0].0@, k) {
        0
    } else {
        1 + position_of(v.drop_first(), k)
    }
}

/// `v` with `(key, val)` in its place by key order: replacing the entry with that key,
/// or inserted before the first larger key.
pub open spec fn put_sorted<V>(v: Seq<(String, V)>, key: String, val: V) -> Seq<(String, V)> {
    let p = position_of(v, key@);
    if p < v.len() && v[p].0@ == key@ {
        v.update(p, (key, val))
    } else {
        v.insert(p, (key, val))
    }
}

proof fn lemma_position_of<V>(v: Seq<(String, V)>, k: Seq<char>)
    requires
        keys_sorted(v),
    ensures
        0 <= position_of(v, k) <= v.len(),
        forall|i: int| 0 <= i < position_of(v, k) ==> text_lt(#[trigger] v[i].0@, k),
        forall|i: int| position_of(v, k) <= i < v.len() ==> !text_lt(#[trigger] v[i].0@, k),
    decreases v.len(),
{
    if v.len() > 0 {
        let w = v.drop_first();
        assert forall|i: int, j: int| 0 <= i < j < w.len() implies text_lt(w[i].0@, w[j].0@) by {
            assert(w[i] == v[i + 1] && w[j] == v[j + 1]);
        }
        lemma_position_of(w, k);
        if !text_lt(v[0].0@, k) {
            assert forall|i: int| 0 <= i < v.len() implies !text_lt(#[trigger] v[i].0@, k) by {
                if i > 0 && text_lt(v[i].0@, k) {
                    lemma_text_lt_transitive(v[0].0@, v[i].0@, k);
                }
            }
        } else {
            assert forall|i: int| 0 <= i < position_of(v, k) implies text_lt(#[trigger] v[i].0@, k) by {
                if i > 0 {
                    assert(v[i] == w[i - 1]);
                }
            }
            assert forall|i: int| position_of(v, k) <= i < v.len() implies !text_lt(#[trigger] v[i].0@, k) by {
                assert(v[i] == w[i - 1]);
            }
        }
    }
}

fn put_in_order<V>(v: &mut Vec<(String, V)>, key: String, val: V)
    requires
        keys_sorted(old(v)@),
    ensures
        keys_sorted(final(v)@),
        final(v)@ == put_sorted(old(v)@, key, val),
{
    let ghost old_v = v@;
    let ghost k = key@;
    proof { lemma_position_of(old_v, k); }
    let mut p: usize = 0;
    while p < v.len() && text_less(v[p].0.as_str(), key.as_str())
        invariant
            v@ == old_v,
            k == key@,
            p <= v@.len(),
            p <= position_of(old_v, k),
            0 <= position_of(old_v, k) <= old_v.len(),
            forall|i: int| 0 <= i < position_of(old_v, k) ==> text_lt(#[trigger] old_v[i].0@, k),
            forall|i: int| position_of(old_v, k) <= i < old_v.len() ==> !text_lt(#[trigger] old_v[i].0@, k),
        decreases v.len() - p,
    {
        p = p + 1;
    }
    assert(p == position_of(old_v, k)) by {
        if p < position_of(old_v, k) {
            assert(text_lt(old_v[p as int].0@, k));
        }
    }
    if p < v.len() && crate::text::str_eq(v[p].0.as_str(), key.as_str()) {
        v.set(p, (key, val));
        assert forall|i: int, j: int| 0 <= i < j < v@.len() implies text_lt(v@[i].0@, v@[j].0@) by {
            if i == p {
                assert(old_v[i].0@ == k);
            } else if j == p {
                assert(old_v[j].0@ == k);
            }
        }
    } else {
        v.insert(p, (key, val));
        proof {
            if p < old_v.len() {
                assert(!text_lt(old_v[p as int].0@, k));
                lemma_text_lt_total(old_v[p as int].0@, k);
            }
            assert forall|i: int, j: int| 0 <= i < j < v@.len() implies text_lt(v@[i].0@, v@[j].0@) by {
                if j < p {
                    assert(v@[i] == old_v[i] && v@[j] == old_v[j]);
                } else if j == p {
                    assert(v@[i] == old_v[i]);
                } else if i == p {
                    assert(v@[j] == old_v[j - 1]);
                    if j - 1 > p {
                        lemma_text_lt_transitive(k, old_v[p as int].0@, old_v[j - 1].0@);
                    }
                } else if i < p {
                    assert(v@[i] == old_v[i] && v@[j] == old_v[j - 1]);
                } else {
                    assert(v@[i] == old_v[i - 1] && v@[j] == old_v[j - 1]);
                }
            }
        }
    }
}

// ---------------------------------------------------------------------------
// Source locations

/// A position in an Aura source file (line 1-based, column 0-based).
#[derive(Clone, Debug, PartialEq, Eq, PartialOrd, Ord)]
pub struct SourceLocation {
    pub file_path: String,
    pub line: u32,
    pub column: u32,
}

/// The source locations of IR offsets.
#[derive(Clone, Debug)]
pub struct LineNumberMap {
    pub entries: BTreeMap<u64, SourceLocation>,
}

impl LineNumberMap {
    pub fn new() -> (r: Self)
        ensures
            r.entries@ == Map::<u64, SourceLocation>::empty(),
    {
        LineNumberMap { entries: BTreeMap::new() }
    }

    /// Maps `ir_offset` to `loc` (replacing an earlier mapping).
    pub fn add_mapping(&mut self, ir_offset: u64, loc: SourceLocation)
        ensures
            final(self).entries@ == old(self).entries@.insert(ir_offset, loc),
    {
        self.entries.insert(ir_offset, loc);
    }

    /// The location mapped to `ir_offset`.
    pub fn lookup(&self, ir_offset: u64) -> (r: Option<&SourceLocation>)
        ensures
            match r {
                Some(l) => self.entries@.contains_key(ir_offset) && *l == self.entries@[ir_offset],
                None => !self.entries@.contains_key(ir_offset),
            },
    {
        self.entries.get(&ir_offset)
    }
}

/// The debug description of a function.
#[derive(Clone, Debug)]
pub struct FunctionDebugInfo {
    pub name: String,
    pub return_type: String,
    /// Name and type of each parameter.
    pub parameters: Vec<(String, String)>,
    /// Name, type and declaration line of each local variable.
    pub local_vars: Vec<(String, String, u32)>,
    pub start_line: u32,
    pub end_line: u32,
}

/// The debug information of a module, each table ordered by name.
#[derive(Clone, Debug)]
pub struct DwarfDebugInfo {
    /// The line mapping of each source file.
    pub line_maps: Vec<(String, LineNumberMap)>,
    /// The description of each function.
    pub functions: Vec<(String, FunctionDebugInfo)>,
    /// The description of each type.
    pub type_defs: Vec<(String, String)>,
}

/// `!N = !{!"0xN", !"File", !"path"}` for each file, numbered from `first`.
pub open spec fn file_entries(files: Seq<Seq<char>>, first: nat) -> Seq<char>
    decreases files.len(),
{
    if files.len() == 0 {
        Seq::empty()
    } else {
        let n = (first + files.len() - 1) as nat;
        file_entries(files.drop_last(), first) + "!"@ + nat_decimal(n) + " = !{!\"0x"@ + nat_hex(n) + "\", !\"File\", !\""@
            + files.last() + "\"}\n"@
    }
}

/// The module flags, the DWARF version, then one entry per source file.
pub open spec fn dwarf_text(files: Seq<Seq<char>>) -> Seq<char> {
    "!llvm.module.flags = !{\n"@ + "  !0\n"@ + "}\n\n"@ + "!0 = !{i32 2, !\"Dwarf Version\", i32 4}\n"@ + file_entries(files, 1)
}

pub open spec fn file_names(lm: Seq<(String, LineNumberMap)>) -> Seq<Seq<char>> {
    lm.map_values(|e: (String, LineNumberMap)| e.0@)
}

/// `(file, line)` comes before `(file2, line2)`: by file, then by line.
pub open spec fn loc_lt(a: (Seq<char>, u32), b: (Seq<char>, u32)) -> bool {
    text_lt(a.0, b.0) || (a.0 == b.0 && a.1 < b.1)
}

/// Some line mapping of file `f` maps an offset to line `line`.
pub open spec fn has_line(lm: Seq<(String, LineNumberMap)>, f: Seq<char>, line: u32) -> bool {
    exists|i: int, k: u64| 0 <= i < lm.len() && lm[i].0@ == f && #[trigger] lm[i].1.entries@.contains_key(k)
        && lm[i].1.entries@[k].line == line
}

pub open spec fn pairs_view(v: Seq<(String, u32)>) -> Seq<(Seq<char>, u32)> {
    v.map_values(|p: (String, u32)| (p.0@, p.1))
}

/// The pairs are strictly increasing.
pub open spec fn locs_sorted(v: Seq<(Seq<char>, u32)>) -> bool {
    forall|i: int, j: int| 0 <= i < j < v.len() ==> loc_lt(v[i], v[j])
}

proof fn lemma_loc_order(a: (Seq<char>, u32), b: (Seq<char>, u32), c: (Seq<char>, u32))
    ensures
        !loc_lt(a, a),
        loc_lt(a, b) && loc_lt(b, c) ==> loc_lt(a, c),
        a == b || loc_lt(a, b) || loc_lt(b, a),
{
    lemma_text_lt_irreflexive(a.0);
    if loc_lt(a, b) && loc_lt(b, c) {
        if text_lt(a.0, b.0) && text_lt(b.0, c.0) {
            lemma_text_lt_transitive(a.0, b.0, c.0);
        }
    }
    lemma_text_lt_total(a.0, b.0);
}

/// Adds `(f, line)` to a strictly increasing list unless it is there already.
fn add_loc(out: &mut Vec<(String, u32)>, f: &String, line: u32)
    requires
        locs_sorted(pairs_view(old(out)@)),
    ensures
        locs_sorted(pairs_view(final(out)@)),
        pairs_view(final(out)@).contains((f@, line)),
        forall|p: (Seq<char>, u32)| #[trigger] pairs_view(final(out)@).contains(p) ==> pairs_view(old(out)@).contains(p)
            || p == (f@, line),
        forall|p: (Seq<char>, u32)| pairs_view(old(out)@).contains(p) ==> #[trigger] pairs_view(final(out)@).contains(p),
{
    let ghost old_v = pairs_view(out@);
    let ghost q = (f@, line);
    let mut p: usize = 0;
    while p < out.len() && (text_less(out[p].0.as_str(), f.as_str()) || (crate::text::str_eq(out[p].0.as_str(),
        f.as_str()) && out[p].1 < line))
        invariant
            pairs_view(out@) == old_v,
            q == (f@, line),
            locs_sorted(old_v),
            p <= out@.len(),
            forall|i: int| 0 <= i < p ==> loc_lt(#[trigger] old_v[i], q),
        decreases out.len() - p,
    {
        assert(old_v[p as int] == (out@[p as int].0@, out@[p as int].1));
        p = p + 1;
    }
    proof {
        if p < out@.len() {
            assert(old_v[p as int] == (out@[p as int].0@, out@[p as int].1));
            assert(!loc_lt(old_v[p as int], q));
        }
    }
    if p < out.len() && crate::text::str_eq(out[p].0.as_str(), f.as_str()) && out[p].1 == line {
        assert(old_v[p as int] == q);
        return;
    }
    let ghost before = out@;
    out.insert(p, (f.clone(), line));
    proof {
        let nv = pairs_view(out@);
        assert(nv =~= old_v.insert(p as int, q));
        if p < old_v.len() {
            lemma_loc_order(old_v[p as int], q, q);
            assert(loc_lt(q, old_v[p as int]));
        }
        assert forall|i: int, j: int| 0 <= i < j < nv.len() implies loc_lt(nv[i], nv[j]) by {
            if j < p {
            } else if j == p {
            } else if i == p {
                if j - 1 > p {
                    lemma_loc_order(q, old_v[p as int], old_v[j - 1]);
                }
            } else if i < p {
            } else {
            }
        }
        assert(nv[p as int] == q);
        assert forall|x: (Seq<char>, u32)| #[trigger] nv.contains(x) implies old_v.contains(x) || x == q by {
            let i = choose|i: int| 0 <= i < nv.len() && nv[i] == x;
            if i < p {
                assert(old_v[i] == x);
            } else if i > p {
                assert(old_v[i - 1] == x);
            }
        }
        assert forall|x: (Seq<char>, u32)| old_v.contains(x) implies #[trigger] nv.contains(x) by {
            let i = choose|i: int| 0 <= i < old_v.len() && old_v[i] == x;
            if i < p {
                assert(nv[i] == x);
            } else {
                assert(nv[i + 1] == x);
            }
        }
    }
}

impl DwarfDebugInfo {
    /// Every table is ordered by name.
    pub open spec fn wf(&self) -> bool {
        keys_sorted(self.line_maps@) && keys_sorted(self.functions@) && keys_sorted(self.type_defs@)
    }

    pub fn new() -> (r: Self)
        ensures
            r.wf(),
            r.line_maps@.len() == 0,
            r.functions@.len() == 0,
            r.type_defs@.len() == 0,
    {
        DwarfDebugInfo { line_maps: Vec::new(), functions: Vec::new(), type_defs: Vec::new() }
    }

    /// Registers the description of function `func_name` (replacing an earlier one).
    pub fn add_function(&mut self, func_name: String, info: FunctionDebugInfo)
        requires
            old(self).wf(),
        ensures
            final(self).wf(),
            final(self).functions@ == put_sorted(old(self).functions@, func_name, info),
            final(self).line_maps@ == old(self).line_maps@,
            final(self).type_defs@ == old(self).type_defs@,
    {
        put_in_order(&mut self.functions, func_name, info);
    }

    /// Registers the line mapping of `file_path` (replacing an earlier one).
    pub fn add_line_mapping(&mut self, file_path: String, map: LineNumberMap)
        requires
            old(self).wf(),
        ensures
            final(self).wf(),
            final(self).line_maps@ == put_sorted(old(self).line_maps@, file_path, map),
            final(self).functions@ == old(self).functions@,
            final(self).type_defs@ == old(self).type_defs@,
    {
        put_in_order(&mut self.line_maps, file_path, map);
    }

    /// Registers the description of type `ty_name` (replacing an earlier one).
    pub fn add_type_def(&mut self, ty_name: String, description: String)
        requires
            old(self).wf(),
        ensures
            final(self).wf(),
            final(self).type_defs@ == put_sorted(old(self).type_defs@, ty_name, description),
            final(self).line_maps@ == old(self).line_maps@,
            final(self).functions@ == old(self).functions@,
    {
        put_in_order(&mut self.type_defs, ty_name, description);
    }

    /// The DWARF metadata text (see [`dwarf_text`]), files in name order.
    pub fn emit_dwarf_metadata(&self) -> (r: String)
        requires
            self.line_maps@.len() < 0x7fff_ffff,
        ensures
            r@ == dwarf_text(file_names(self.line_maps@)),
    {
        let ghost files = file_names(self.line_maps@);
        let mut output = String::new();
        output.append("!llvm.module.flags = !{\n");
        output.append("  !0\n");
        output.append("}\n\n");
        output.append("!0 = !{i32 2, !\"Dwarf Version\", i32 4}\n");
        let ghost start = output@;
        let mut counter: u64 = 1;
        let mut k: usize = 0;
        while k < self.line_maps.len()
            invariant
                k <= self.line_maps@.len(),
                self.line_maps@.len() < 0x7fff_ffff,
                counter == k + 1,
                files == file_names(self.line_maps@),
                output@ == start + file_entries(files.subrange(0, k as int), 1),
            decreases self.line_maps.len() - k,
        {
            let ghost sub = files.subrange(0, k + 1);
            assert(sub.drop_last() =~= files.subrange(0, k as int));
            assert(sub.last() == self.line_maps@[k as int].0@);
            output.append("!");
            append_decimal(&mut output, counter);
            output.append(" = !{!\"0x");
            let h = u64_to_hex(counter);
            output.append(h.as_str());
            output.append("\", !\"File\", !\"");
            output.append(self.line_maps[k].0.as_str());
            output.append("\"}\n");
            assert(output@ =~= start + file_entries(sub, 1));
            counter = counter + 1;
            k = k + 1;
        }
        assert(files.subrange(0, self.line_maps@.len() as int) =~= files);
        assert(output@ =~= dwarf_text(files));
        output
    }

    /// The `(file, line)` pairs of every mapped offset, in increasing order, each once.
    pub fn get_breakpoint_locations(&self) -> (r: Vec<(String, u32)>)
        ensures
            locs_sorted(pairs_view(r@)),
            forall|p: (Seq<char>, u32)| #[trigger] pairs_view(r@).contains(p) <==> has_line(self.line_maps@, p.0, p.1),
    {
        let ghost lm = self.line_maps@;
        let mut out: Vec<(String, u32)> = Vec::new();
        let mut i: usize = 0;
        while i < self.line_maps.len()
            invariant
                i <= lm.len(),
                lm == self.line_maps@,
                locs_sorted(pairs_view(out@)),
                forall|p: (Seq<char>, u32)| #[trigger] pairs_view(out@).contains(p) ==> has_line(lm, p.0, p.1),
                forall|x: int, k: u64| 0 <= x < i && #[trigger] lm[x].1.entries@.contains_key(k) ==> pairs_view(out@).contains(
                    (lm[x].0@, lm[x].1.entries@[k].line)),
            decreases self.line_maps.len() - i,
        {
            let file = &self.line_maps[i].0;
            let map = &self.line_maps[i].1;
            let iter = map.entries.iter();
            let ghost s = iter.remaining();
            for (key, loc) in it: iter
                invariant
                    i < lm.len(),
                    lm == self.line_maps@,
                    file == &lm[i as int].0,
                    map == &lm[i as int].1,
                    it.seq() == s,
                    s.len() == map.entries@.dom().len(),
                    forall|t: int| 0 <= t < s.len() ==> map.entries@.contains_key(*s[t].0) && map.entries@[*s[t].0] == *s[t].1,
                    forall|k: u64| #[trigger] map.entries@.contains_key(k) ==> s.contains((&k, &map.entries@[k])),
                    locs_sorted(pairs_view(out@)),
                    forall|p: (Seq<char>, u32)| #[trigger] pairs_view(out@).contains(p) ==> has_line(lm, p.0, p.1),
                    forall|x: int, k: u64| 0 <= x < i && #[trigger] lm[x].1.entries@.contains_key(k) ==> pairs_view(out@).contains(
                        (lm[x].0@, lm[x].1.entries@[k].line)),
                    forall|t: int| 0 <= t < it.index() ==> pairs_view(out@).contains((file@, (*s[t].1).line)),
            {
                let ghost t0 = it.index();
                let ghost before = pairs_view(out@);
                add_loc(&mut out, file, loc.line);
                proof {
                    assert(has_line(lm, file@, loc.line)) by {
                        assert(map.entries@.contains_key(*key));
                        assert(lm[i as int].1.entries@.contains_key(*key));
                    }
                    assert forall|t: int| 0 <= t < t0 + 1 implies pairs_view(out@).contains((file@, (*s[t].1).line)) by {
                        if t < t0 {
                            assert(before.contains((file@, (*s[t].1).line)));
                        }
                    }
                }
            }
            proof {
                assert forall|x: int, k: u64| 0 <= x < i + 1 && #[trigger] lm[x].1.entries@.contains_key(k) implies
                    pairs_view(out@).contains((lm[x].0@, lm[x].1.entries@[k].line)) by {
                    if x == i {
                        assert(s.contains((&k, &map.entries@[k])));
                        let t = choose|t: int| 0 <= t < s.len() && s[t] == (&k, &map.entries@[k]);
                        assert((*s[t].1).line == lm[x].1.entries@[k].line);
                    }
                }
            }
            i = i + 1;
        }
        proof {
            assert forall|p: (Seq<char>, u32)| has_line(lm, p.0, p.1) implies #[trigger] pairs_view(out@).contains(p) by {
                let (x, k) = choose|x: int, k: u64| 0 <= x < lm.len() && lm[x].0@ == p.0
                    && #[trigger] lm[x].1.entries@.contains_key(k) && lm[x].1.entries@[k].line == p.1;
                assert(pairs_view(out@).contains((lm[x].0@, lm[x].1.entries@[k].line)));
            }
        }
        out
    }
}

impl Default for DwarfDebugInfo {
    fn default() -> (r: Self)
        ensures
            r.wf(),
            r.line_maps@.len() == 0,
            r.functions@.len() == 0,
            r.type_defs@.len() == 0,
    {
        Self::new()
    }
}

// ---------------------------------------------------------------------------
// Breakpoints

/// The MI description of breakpoint `id` at `file:line`.
pub open spec fn breakpoint_mi(id: u64, file: Seq<char>, line: u32) -> Seq<char> {
    "^done,BreakpointTable={nr_rows=\"1\",nr_cols=\"6\",hdr={width=\"3\",alignment=\"-1\",col_name=\"number\",col_hdr=\"Num\"},body=[bkpt={number=\""@
        + nat_decimal(id as nat) + "\",type=\"breakpoint\",disp=\"keep\",enabled=\"y\",addr=\"0x0\",file=\""@ + file
        + "\",line=\""@ + nat_decimal(line as nat) + "\",times=\"0\"}]}"@
}

/// Breakpoints for a debugger, numbered from 1 in the order they are set.
pub struct DebuggerIntegration {
    breakpoint_counter: u64,
    breakpoints: BTreeMap<u64, (String, u32)>,
    is_stopped: bool,
}

impl DebuggerIntegration {
    /// The active breakpoints by id.
    pub closed spec fn active(&self) -> Map<u64, (String, u32)> {
        self.breakpoints@
    }

    /// The id of the last breakpoint set.
    pub closed spec fn last_id(&self) -> u64 {
        self.breakpoint_counter
    }

    /// Whether execution is stopped at a breakpoint.
    pub closed spec fn stopped(&self) -> bool {
        self.is_stopped
    }

    /// Every active breakpoint has an id that was handed out already.
    pub open spec fn wf(&self) -> bool {
        forall|k: u64| #[trigger] self.active().contains_key(k) ==> k <= self.last_id()
    }

    pub fn new() -> (r: Self)
        ensures
            r.wf(),
            r.active() == Map::<u64, (String, u32)>::empty(),
            r.last_id() == 0,
            !r.stopped(),
    {
        DebuggerIntegration { breakpoint_counter: 0, breakpoints: BTreeMap::new(), is_stopped: false }
    }

    /// Sets a breakpoint at `file:line` under the next id, and returns that id.
    pub fn set_breakpoint(&mut self, file: String, line: u32) -> (r: u64)
        requires
            old(self).last_id() < u64::MAX,
        ensures
            old(self).wf() ==> final(self).wf(),
            r == old(self).last_id() + 1,
            final(self).last_id() == r,
            final(self).active() == old(self).active().insert(r, (file, line)),
            final(self).stopped() == old(self).stopped(),
    {
        self.breakpoint_counter = self.breakpoint_counter + 1;
        let id = self.breakpoint_counter;
        self.breakpoints.insert(id, (file, line));
        proof {
            if old(self).wf() {
                assert forall|k: u64| #[trigger] self.active().contains_key(k) implies k <= self.last_id() by {
                    if k != id {
                        assert(old(self).active().contains_key(k));
                    }
                }
            }
        }
        id
    }

    /// Removes breakpoint `id`; returns whether it was set.
    pub fn remove_breakpoint(&mut self, id: u64) -> (r: bool)
        ensures
            old(self).wf() ==> final(self).wf(),
            r == old(self).active().contains_key(id),
            final(self).active() == old(self).active().remove(id),
            final(self).last_id() == old(self).last_id(),
            final(self).stopped() == old(self).stopped(),
    {
        let r = self.breakpoints.remove(&id).is_some();
        proof {
            if old(self).wf() {
                assert forall|k: u64| #[trigger] self.active().contains_key(k) implies k <= self.last_id() by {
                    assert(old(self).active().contains_key(k));
                }
            }
        }
        r
    }

    /// The active breakpoints as `(id, file, line)`, by increasing id.
    pub fn list_breakpoints(&self) -> (r: Vec<(u64, String, u32)>)
        ensures
            r@.len() == self.active().dom().len(),
            forall|i: int| 0 <= i < r@.len() ==> self.active().contains_key(#[trigger] r@[i].0)
                && self.active()[r@[i].0].0@ == r@[i].1@ && self.active()[r@[i].0].1 == r@[i].2,
            forall|i: int, j: int| 0 <= i < j < r@.len() ==> r@[i].0 < r@[j].0,
            lists_breakpoints(breakpoint_rows(r@), self.active()),
    {
        let mut out: Vec<(u64, String, u32)> = Vec::new();
        let iter = self.breakpoints.iter();
        let ghost s = iter.remaining();
        let ghost ks = s.map_values(|kv: (&u64, &(String, u32))| *kv.0);
        proof { lemma_increasing_keys(ks); }
        for (id, entry) in it: iter
            invariant
                it.seq() == s,
                out@.len() == it.index(),
                forall|i: int| 0 <= i < it.index() ==> (#[trigger] out@[i]).0 == *s[i].0 && out@[i].1@ == s[i].1.0@
                    && out@[i].2 == s[i].1.1,
        {
            out.push((*id, entry.0.clone(), entry.1));
        }
        proof {
            assert forall|i: int, j: int| 0 <= i < j < out@.len() implies out@[i].0 < out@[j].0 by {
                assert(ks[i] == out@[i].0);
                assert(ks[j] == out@[j].0);
            }
            let rows = breakpoint_rows(out@);
            assert forall|k: u64| #[trigger] self.active().contains_key(k) implies exists|i: int|
                0 <= i < rows.len() && rows[i].0 == k by {
                assert(s.contains((&k, &self.active()[k])));
                let i = choose|i: int| 0 <= i < s.len() && s[i] == (&k, &self.active()[k]);
                assert(rows[i].0 == k);
            }
        }
        out
    }

    /// The MI description of breakpoint `id`, if it is set (see [`breakpoint_mi`]).
    pub fn format_breakpoint_mi(&self, id: u64) -> (r: Option<String>)
        ensures
            match r {
                Some(t) => self.active().contains_key(id) && t@ == breakpoint_mi(id, self.active()[id].0@,
                    self.active()[id].1),
                None => !self.active().contains_key(id),
            },
    {
        match self.breakpoints.get(&id) {
            Some(entry) => {
                let mut m = String::from_str(
                    "^done,BreakpointTable={nr_rows=\"1\",nr_cols=\"6\",hdr={width=\"3\",alignment=\"-1\",col_name=\"number\",col_hdr=\"Num\"},body=[bkpt={number=\"");
                append_decimal(&mut m, id);
                m.append("\",type=\"breakpoint\",disp=\"keep\",enabled=\"y\",addr=\"0x0\",file=\"");
                m.append(entry.0.as_str());
                m.append("\",line=\"");
                append_decimal(&mut m, entry.1 as u64);
                m.append("\",times=\"0\"}]}");
                Some(m)
            },
            None => None,
        }
    }

    /// Execution stops at a breakpoint.
    pub fn stop_at_breakpoint(&mut self, breakpoint_id: u64)
        ensures
            final(self).stopped(),
            final(self).active() == old(self).active(),
            final(self).last_id() == old(self).last_id(),
    {
        self.is_stopped = true;
    }

    /// Execution resumes.
    pub fn resume(&mut self)
        ensures
            !final(self).stopped(),
            final(self).active() == old(self).active(),
            final(self).last_id() == old(self).last_id(),
    {
        self.is_stopped = false;
    }
}


/// A call on the breakpoints of a debugger.
pub enum BreakpointCall {
    Add(String, u32),
    Remove(u64),
}

/// The active breakpoints and the last id handed out after `calls`, made on a
/// new debugger, each as the contracts of `set_breakpoint` and
/// `remove_breakpoint` say.
pub open spec fn replay_breakpoints(calls: Seq<BreakpointCall>) -> (Map<u64, (String, u32)>, int)
    decreases calls.len(),
{
    if calls.len() == 0 {
        (Map::empty(), 0)
    } else {
        let (active, last) = replay_breakpoints(calls.drop_last());
        match calls.last() {
            BreakpointCall::Add(file, line) => (active.insert((last + 1) as u64, (file, line)), last + 1),
            BreakpointCall::Remove(id) => (active.remove(id), last),
        }
    }
}

/// The number of `Add` calls among `calls`.
pub open spec fn sets_among(calls: Seq<BreakpointCall>) -> int
    decreases calls.len(),
{
    if calls.len() == 0 {
        0
    } else {
        sets_among(calls.drop_last()) + if calls.last() is Add { 1int } else { 0int }
    }
}

/// After `k` calls of `set_breakpoint` on a new debugger, with any calls of
/// `remove_breakpoint` in between, the last id handed out is `k`, every active
/// breakpoint has an id of at most `k`, and the next `set_breakpoint` hands out
/// `k + 1`, an id that no active breakpoint has: ids are 1, 2, 3, ... in call
/// order and never reused, and each new breakpoint comes last by id.
pub proof fn law_breakpoint_ids_count_the_sets(calls: Seq<BreakpointCall>)
    requires
        sets_among(calls) < u64::MAX,
    ensures
        sets_among(calls) >= 0,
        replay_breakpoints(calls).1 == sets_among(calls),
        forall|k: u64| #[trigger] replay_breakpoints(calls).0.contains_key(k) ==> 1 <= k <= sets_among(calls),
        !replay_breakpoints(calls).0.contains_key((sets_among(calls) + 1) as u64),
    decreases calls.len(),
{
    if calls.len() > 0 {
        law_breakpoint_ids_count_the_sets(calls.drop_last());
        let (active, last) = replay_breakpoints(calls.drop_last());
        match calls.last() {
            BreakpointCall::Add(file, line) => {
                assert forall|k: u64| #[trigger] replay_breakpoints(calls).0.contains_key(k) implies 1 <= k
                    <= sets_among(calls) by {
                    if k != (last + 1) as u64 {
                        assert(active.contains_key(k));
                    }
                }
            },
            BreakpointCall::Remove(id) => {
                assert forall|k: u64| #[trigger] replay_breakpoints(calls).0.contains_key(k) implies 1 <= k
                    <= sets_among(calls) by {
                    assert(active.contains_key(k));
                }
            },
        }
    }
}

/// The rows of a breakpoint listing as plain values.
pub open spec fn breakpoint_rows(v: Seq<(u64, String, u32)>) -> Seq<(u64, Seq<char>, u32)> {
    v.map_values(|e: (u64, String, u32)| (e.0, e.1@, e.2))
}

/// `rows` lists the breakpoints of `active`: by strictly increasing id, each
/// with its file and line, and every active breakpoint among them.
pub open spec fn lists_breakpoints(rows: Seq<(u64, Seq<char>, u32)>, active: Map<u64, (String, u32)>) -> bool {
    &&& forall|i: int, j: int| 0 <= i < j < rows.len() ==> (#[trigger] rows[i]).0 < (#[trigger] rows[j]).0
    &&& forall|i: int|
        0 <= i < rows.len() ==> active.contains_key((#[trigger] rows[i]).0) && active[rows[i].0].0@ == rows[i].1
            && active[rows[i].0].1 == rows[i].2
    &&& forall|k: u64| #[trigger] active.contains_key(k) ==> exists|i: int| 0 <= i < rows.len() && rows[i].0 == k
}

proof fn lemma_listing_unique(x: Seq<(u64, Seq<char>, u32)>, y: Seq<(u64, Seq<char>, u32)>, a: Map<u64, (String, u32)>)
    requires
        lists_breakpoints(x, a),
        lists_breakpoints(y, a),
    ensures
        x == y,
    decreases x.len(),
{
    if x.len() == 0 {
        if y.len() > 0 {
            assert(a.contains_key(y[0].0));
        }
        assert(x =~= y);
    } else {
        assert(a.contains_key(x[0].0));
        assert(y.len() > 0);
        assert(a.contains_key(y[0].0));
        let i = choose|i: int| 0 <= i < x.len() && x[i].0 == y[0].0;
        let j = choose|j: int| 0 <= j < y.len() && y[j].0 == x[0].0;
        if i > 0 {
            assert(x[0].0 < x[i].0);
        }
        if j > 0 {
            assert(y[0].0 < y[j].0);
        }
        let k0 = x[0].0;
        let b = a.remove(k0);
        let xs = x.drop_first();
        let ys = y.drop_first();
        assert forall|k: u64| #[trigger] b.contains_key(k) implies exists|i: int| 0 <= i < xs.len() && xs[i].0 == k by {
            let i = choose|i: int| 0 <= i < x.len() && x[i].0 == k;
            assert(i > 0);
            assert(xs[i - 1] == x[i]);
        }
        assert forall|k: u64| #[trigger] b.contains_key(k) implies exists|i: int| 0 <= i < ys.len() && ys[i].0 == k by {
            let i = choose|i: int| 0 <= i < y.len() && y[i].0 == k;
            assert(i > 0);
            assert(ys[i - 1] == y[i]);
        }
        assert forall|i: int| 0 <= i < xs.len() implies b.contains_key((#[trigger] xs[i]).0) && b[xs[i].0].0@
            == xs[i].1 && b[xs[i].0].1 == xs[i].2 by {
            assert(xs[i] == x[i + 1]);
            assert(x[0].0 < x[i + 1].0);
        }
        assert forall|i: int| 0 <= i < ys.len() implies b.contains_key((#[trigger] ys[i]).0) && b[ys[i].0].0@
            == ys[i].1 && b[ys[i].0].1 == ys[i].2 by {
            assert(ys[i] == y[i + 1]);
            assert(y[0].0 < y[i + 1].0);
        }
        assert forall|i: int, j: int| 0 <= i < j < xs.len() implies (#[trigger] xs[i]).0 < (#[trigger] xs[j]).0 by {
            assert(xs[i] == x[i + 1] && xs[j] == x[j + 1]);
        }
        assert forall|i: int, j: int| 0 <= i < j < ys.len() implies (#[trigger] ys[i]).0 < (#[trigger] ys[j]).0 by {
            assert(ys[i] == y[i + 1] && ys[j] == y[j + 1]);
        }
        lemma_listing_unique(xs, ys, b);
        assert(x =~= y) by {
            assert(x[0] == y[0]);
            assert forall|i: int| 0 < i < x.len() implies x[i] == y[i] by {
                assert(x[i] == xs[i - 1]);
                assert(y[i] == ys[i - 1]);
            }
        }
    }
}

/// Setting a breakpoint appends it to the listing: when every active id is
/// below the new id (as `wf` and `set_breakpoint` give, the new id being one
/// past the last handed out), the listing after the call is the listing
/// before it followed by the new breakpoint.
pub proof fn law_new_breakpoint_is_listed_last(
    before: Seq<(u64, Seq<char>, u32)>,
    after: Seq<(u64, Seq<char>, u32)>,
    active: Map<u64, (String, u32)>,
    id: u64,
    file: String,
    line: u32,
)
    requires
        forall|k: u64| #[trigger] active.contains_key(k) ==> k < id,
        lists_breakpoints(before, active),
        lists_breakpoints(after, active.insert(id, (file, line))),
    ensures
        after == before.push((id, file@, line)),
{
    let a2 = active.insert(id, (file, line));
    let p = before.push((id, file@, line));
    assert forall|i: int, j: int| 0 <= i < j < p.len() implies (#[trigger] p[i]).0 < (#[trigger] p[j]).0 by {
        assert(p[i] == before[i]);
        assert(active.contains_key(before[i].0));
        if j < before.len() {
            assert(p[j] == before[j]);
        }
    }
    assert forall|i: int| 0 <= i < p.len() implies a2.contains_key((#[trigger] p[i]).0) && a2[p[i].0].0@ == p[i].1
        && a2[p[i].0].1 == p[i].2 by {
        if i < before.len() {
            assert(p[i] == before[i]);
            assert(active.contains_key(before[i].0));
        }
    }
    assert forall|k: u64| #[trigger] a2.contains_key(k) implies exists|i: int| 0 <= i < p.len() && p[i].0 == k by {
        if k == id {
            assert(p[before.len() as int].0 == k);
        } else {
            assert(active.contains_key(k));
            let i = choose|i: int| 0 <= i < before.len() && before[i].0 == k;
            assert(p[i] == before[i]);
        }
    }
    lemma_listing_unique(after, p, a2);
}

/// Breakpoint ids are never reused: while every active id is one handed out
/// already (as `wf` says, from `new` on), the id that `set_breakpoint` hands
/// out is not active, and removing that breakpoint again restores the
/// breakpoints that were active before.
pub proof fn law_breakpoint_ids_are_fresh(
    active: Map<u64, (String, u32)>,
    last: u64,
    file: String,
    line: u32,
)
    requires
        last < u64::MAX,
        forall|k: u64| #[trigger] active.contains_key(k) ==> k <= last,
    ensures
        !active.contains_key((last + 1) as u64),
        active.insert((last + 1) as u64, (file, line)).remove((last + 1) as u64) == active,
{
    assert(active.insert((last + 1) as u64, (file, line)).remove((last + 1) as u64) =~= active);
}

} // verus!
