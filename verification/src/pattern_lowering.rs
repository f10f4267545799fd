//! Jump tables for matches on dense integer literals: the literals' span, the
//! table that maps each value of the span to its arm's action, and lookup.
use vstd::prelude::*;

verus! {

/// A value that a match arm matches.
#[derive(Clone, Debug, PartialEq, Eq, PartialOrd, Ord)]
pub enum PatternValue {
    IntLiteral(i64),
    StringLiteral(String),
    Variant(String),
}

/// A match arm: its pattern and the action it selects.
#[derive(Clone, Debug)]
pub struct MatchArm {
    pub pattern: PatternValue,
    pub action_id: u32,
}

/// A value and the action it selects.
#[derive(Clone, Debug)]
pub struct JumpTableEntry {
    pub value: i64,
    pub action_id: u32,
}

/// Dispatch on the values `base .. base + size`: `entries[i]` is the action for
/// `base + i`, if any; other values take the default action.
#[derive(Clone, Debug)]
pub struct JumpTable {
    pub base: i64,
    pub size: usize,
    pub entries: Vec<Option<u32>>,
    pub default_action: u32,
}

/// How a match is lowered: through a jump table, or by comparing the arms in order.
#[derive(Debug)]
pub enum MatchLowering {
    JumpTable(JumpTable),
    CascadeComparisons { arms: Vec<(PatternValue, u32)>, default_action: u32 },
}

/// The integer literals of the arms, in order (repetitions kept).
pub open spec fn literals(arms: Seq<MatchArm>) -> Seq<i64>
    decreases arms.len(),
{
    if arms.len() == 0 {
        Seq::empty()
    } else {
        match arms.last().pattern {
            PatternValue::IntLiteral(v) => literals(arms.drop_last()).push(v),
            _ => literals(arms.drop_last()),
        }
    }
}

/// The action of the last arm whose pattern is the literal `v`.
pub open spec fn last_action(arms: Seq<MatchArm>, v: int) -> Option<u32>
    decreases arms.len(),
{
    if arms.len() == 0 {
        None
    } else {
        match arms.last().pattern {
            PatternValue::IntLiteral(x) => if x == v {
                Some(arms.last().action_id)
            } else {
                last_action(arms.drop_last(), v)
            },
            _ => last_action(arms.drop_last(), v),
        }
    }
}

/// The action a table selects for `value`.
pub open spec fn table_action(entries: Seq<Option<u32>>, base: int, default_action: u32, value: int) -> u32 {
    let d = value - base;
    if 0 <= d < entries.len() {
        match entries[d] {
            Some(a) => a,
            None => default_action,
        }
    } else {
        default_action
    }
}

/// The number of values that have an action.
pub open spec fn filled(entries: Seq<Option<u32>>) -> nat
    decreases entries.len(),
{
    if entries.len() == 0 {
        0
    } else {
        filled(entries.drop_last()) + if entries.last() is Some { 1nat } else { 0nat }
    }
}

proof fn lemma_filled_bound(entries: Seq<Option<u32>>)
    ensures
        filled(entries) <= entries.len(),
    decreases entries.len(),
{
    if entries.len() > 0 {
        lemma_filled_bound(entries.drop_last());
    }
}

impl JumpTable {
    /// The smallest and the largest integer literal of the arms and the number of
    /// distinct ones; `None` when no arm has an integer literal.
    pub fn literal_span(arms: &[MatchArm]) -> (r: Option<(i64, i64, usize)>)
        ensures
            ({
                let lits = literals(arms@);
                match r {
                    None => lits.len() == 0,
                    Some((lo, hi, n)) => {
                        &&& lits.contains(lo)
                        &&& lits.contains(hi)
                        &&& forall|i: int| 0 <= i < lits.len() ==> lo <= #[trigger] lits[i] <= hi
                        &&& n == lits.to_set().len()
                    },
                }
            }),
    {
        let ghost lits = literals(arms@);
        let mut distinct: Vec<i64> = Vec::new();
        let mut lo: i64 = 0;
        let mut hi: i64 = 0;
        let mut k: usize = 0;
        while k < arms.len()
            invariant
                k <= arms@.len(),
                lits == literals(arms@),
                distinct@.no_duplicates(),
                distinct@.to_set() == literals(arms@.subrange(0, k as int)).to_set(),
                distinct@.len() > 0 ==> ({
                    let ls = literals(arms@.subrange(0, k as int));
                    &&& ls.contains(lo)
                    &&& ls.contains(hi)
                    &&& forall|i: int| 0 <= i < ls.len() ==> lo <= #[trigger] ls[i] <= hi
                }),
                distinct@.len() == 0 ==> literals(arms@.subrange(0, k as int)).len() == 0,
            decreases arms.len() - k,
        {
            let ghost prev = literals(arms@.subrange(0, k as int));
            assert(arms@.subrange(0, k + 1).drop_last() =~= arms@.subrange(0, k as int));
            if let PatternValue::IntLiteral(v) = arms[k].pattern {
                let ghost now = prev.push(v);
                assert(literals(arms@.subrange(0, k + 1)) == now);
                if distinct.len() == 0 {
                    lo = v;
                    hi = v;
                } else {
                    if v < lo {
                        lo = v;
                    }
                    if v > hi {
                        hi = v;
                    }
                }
                let mut seen = false;
                let mut j: usize = 0;
                while j < distinct.len()
                    invariant
                        j <= distinct@.len(),
                        seen <==> exists|x: int| 0 <= x < j && distinct@[x] == v,
                    decreases distinct.len() - j,
                {
                    if distinct[j] == v {
                        seen = true;
                    }
                    j = j + 1;
                }
                let ghost before = distinct@;
                if !seen {
                    distinct.push(v);
                    proof {
                        before.lemma_push_to_set_commute(v);
                        prev.lemma_push_to_set_commute(v);
                        assert forall|a: int, b: int| 0 <= a < distinct@.len() && 0 <= b < distinct@.len() && a != b
                            implies distinct@[a] != distinct@[b] by {
                            if b == before.len() {
                                assert(distinct@[a] == before[a]);
                            } else if a == before.len() {
                                assert(distinct@[b] == before[b]);
                            }
                        }
                    }
                } else {
                    proof {
                        let x = choose|x: int| 0 <= x < before.len() && before[x] == v;
                        assert(before.to_set().contains(v));
                        prev.lemma_push_to_set_commute(v);
                        assert(now.to_set() =~= prev.to_set());
                    }
                }
                proof {
                    assert forall|i: int| 0 <= i < now.len() implies lo <= #[trigger] now[i] <= hi by {
                        if i < prev.len() {
                            assert(now[i] == prev[i]);
                        }
                    }
                    assert(now[prev.len() as int] == v);
                    if before.len() > 0 {
                        assert(prev.contains(lo) || lo == v);
                        if prev.contains(lo) {
                            let x = choose|x: int| 0 <= x < prev.len() && prev[x] == lo;
                            assert(now[x] == lo);
                        }
                        if prev.contains(hi) {
                            let x = choose|x: int| 0 <= x < prev.len() && prev[x] == hi;
                            assert(now[x] == hi);
                        }
                    }
                }
            } else {
                assert(literals(arms@.subrange(0, k + 1)) == prev);
            }
            k = k + 1;
        }
        assert(arms@.subrange(0, arms@.len() as int) =~= arms@);
        if distinct.len() == 0 {
            None
        } else {
            proof { distinct@.unique_seq_to_set(); }
            Some((lo, hi, distinct.len()))
        }
    }

    /// The table over `base .. base + size` where each value takes the action of the
    /// last arm with that literal (every literal of the arms lies in the span).
    pub fn fill(arms: &[MatchArm], base: i64, size: usize, default_action: u32) -> (r: JumpTable)
        requires
            size <= i64::MAX,
            forall|i: int| 0 <= i < literals(arms@).len() ==> base <= #[trigger] literals(arms@)[i] < base + size,
        ensures
            r.base == base,
            r.size == size,
            r.default_action == default_action,
            r.entries@.len() == size,
            forall|i: int| 0 <= i < size ==> #[trigger] r.entries@[i] == last_action(arms@, base + i),
    {
        let mut entries: Vec<Option<u32>> = Vec::new();
        let mut n: usize = 0;
        while n < size
            invariant
                n <= size,
                entries@.len() == n,
                forall|i: int| 0 <= i < n ==> entries@[i] is None,
            decreases size - n,
        {
            entries.push(None);
            n = n + 1;
        }
        let mut k: usize = 0;
        while k < arms.len()
            invariant
                k <= arms@.len(),
                size <= i64::MAX,
                entries@.len() == size,
                forall|i: int| 0 <= i < literals(arms@).len() ==> base <= #[trigger] literals(arms@)[i] < base + size,
                forall|i: int| 0 <= i < literals(arms@.subrange(0, k as int)).len() ==> #[trigger] literals(
                    arms@.subrange(0, k as int))[i] == literals(arms@)[i],
                literals(arms@.subrange(0, k as int)).len() <= literals(arms@).len(),
                forall|i: int| 0 <= i < size ==> #[trigger] entries@[i] == last_action(arms@.subrange(0, k as int), base + i),
            decreases arms.len() - k,
        {
            let ghost sub = arms@.subrange(0, k + 1);
            assert(sub.drop_last() =~= arms@.subrange(0, k as int));
            proof { lemma_literals_prefix(arms@, k as int + 1); }
            if let PatternValue::IntLiteral(v) = arms[k].pattern {
                let ghost pos = literals(arms@.subrange(0, k as int)).len();
                assert(literals(sub)[pos as int] == v);
                assert(base <= literals(arms@)[pos as int] < base + size);
                let idx = (v - base) as usize;
                entries.set(idx, Some(arms[k].action_id));
            }
            k = k + 1;
        }
        assert(arms@.subrange(0, arms@.len() as int) =~= arms@);
        JumpTable { base, size, entries, default_action }
    }

    /// The action for `value` (see [`table_action`]).
    pub fn lookup(&self, value: i64) -> (r: u32)
        requires
            i64::MIN <= value - self.base <= i64::MAX,
        ensures
            r == table_action(self.entries@, self.base as int, self.default_action, value as int),
    {
        let d = value - self.base;
        if d < 0 || (d as u64) >= (self.entries.len() as u64) {
            self.default_action
        } else {
            match self.entries[d as usize] {
                Some(a) => a,
                None => self.default_action,
            }
        }
    }

    /// The number of values with an action, the size of the span, and the code size
    /// in bytes of a jump table (a base and eight bytes per value) and of cascading
    /// comparisons (twelve bytes per value with an action).
    pub fn size_metrics(&self) -> (r: (usize, usize, usize, usize))
        requires
            8 + self.size * 8 <= usize::MAX,
            self.entries@.len() * 12 <= usize::MAX,
        ensures
            r.0 == filled(self.entries@),
            r.1 == self.size,
            r.2 == 8 + self.size * 8,
            r.3 == filled(self.entries@) * 12,
    {
        let mut count: usize = 0;
        let mut k: usize = 0;
        while k < self.entries.len()
            invariant
                k <= self.entries@.len(),
                count == filled(self.entries@.subrange(0, k as int)),
                count <= k,
            decreases self.entries.len() - k,
        {
            let ghost sub = self.entries@.subrange(0, k + 1);
            assert(sub.drop_last() =~= self.entries@.subrange(0, k as int));
            if self.entries[k].is_some() {
                count = count + 1;
            }
            k = k + 1;
        }
        assert(self.entries@.subrange(0, self.entries@.len() as int) =~= self.entries@);
        (count, self.size, 8 + self.size * 8, count * 12)
    }
}

proof fn lemma_literals_prefix(arms: Seq<MatchArm>, k: int)
    requires
        0 <= k <= arms.len(),
    ensures
        literals(arms.subrange(0, k)).len() <= literals(arms).len(),
        forall|i: int| 0 <= i < literals(arms.subrange(0, k)).len() ==> #[trigger] literals(arms.subrange(0, k))[i]
            == literals(arms)[i],
    decreases arms.len() - k,
{
    if k < arms.len() {
        lemma_literals_prefix(arms, k + 1);
        let s1 = arms.subrange(0, k);
        let s2 = arms.subrange(0, k + 1);
        assert(s2.drop_last() =~= s1);
        assert forall|i: int| 0 <= i < literals(s1).len() implies #[trigger] literals(s1)[i] == literals(arms)[i] by {
            assert(literals(s1)[i] == literals(s2)[i]);
        }
    } else {
        assert(arms.subrange(0, k) =~= arms);
    }
}


proof fn lemma_last_action_literal(arms: Seq<MatchArm>, v: int)
    ensures
        last_action(arms, v) is Some ==> exists|k: int| 0 <= k < literals(arms).len() && #[trigger] literals(arms)[k] == v,
    decreases arms.len(),
{
    if arms.len() > 0 {
        lemma_last_action_literal(arms.drop_last(), v);
        let rest = literals(arms.drop_last());
        match arms.last().pattern {
            PatternValue::IntLiteral(x) => {
                assert(literals(arms) == rest.push(x));
                if x == v {
                    assert(literals(arms)[rest.len() as int] == v);
                } else if last_action(arms.drop_last(), v) is Some {
                    let k = choose|k: int| 0 <= k < rest.len() && #[trigger] rest[k] == v;
                    assert(literals(arms)[k] == v);
                }
            },
            _ => {
                assert(literals(arms) == rest);
                assert(last_action(arms, v) == last_action(arms.drop_last(), v));
            },
        }
    }
}

/// A jump table filled from the arms dispatches as the arms do: a value gets
/// the action of the last arm with that literal, and a value no arm names
/// gets the default action, inside the table's range or outside it.
pub proof fn law_jump_table_dispatch(
    arms: Seq<MatchArm>,
    base: int,
    entries: Seq<Option<u32>>,
    default_action: u32,
    v: int,
)
    requires
        forall|i: int| 0 <= i < entries.len() ==> #[trigger] entries[i] == last_action(arms, base + i),
        forall|i: int| 0 <= i < literals(arms).len() ==> base <= #[trigger] literals(arms)[i] < base + entries.len(),
    ensures
        table_action(entries, base, default_action, v) == match last_action(arms, v) {
            Some(a) => a,
            None => default_action,
        },
{
    lemma_last_action_literal(arms, v);
    let d = v - base;
    if 0 <= d < entries.len() {
        assert(entries[d] == last_action(arms, base + d));
    } else if last_action(arms, v) is Some {
        let k = choose|k: int| 0 <= k < literals(arms).len() && #[trigger] literals(arms)[k] == v;
        assert(base <= literals(arms)[k] < base + entries.len());
    }
}

} // verus!
