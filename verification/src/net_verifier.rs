//! Safety checks for network code: lock-order cycles (deadlock risk), variables
//! shared between threads without a lock (race risk), and the socket lifecycle.
use vstd::prelude::*;
use vstd::set_lib::{lemma_int_range, lemma_len_subset, set_int_range};
use crate::control_flow::str_texts;
use crate::move_tracking::{add_name, contains_name, names_of};
use crate::ownership_enforcement::{append_decimal, quote_between};
use crate::text::str_eq;

verus! {

// ---------------------------------------------------------------------------
// Cycles in a graph over node indices

/// An edge from `i` to `j` in a graph given by successor lists.
pub open spec fn iedge(adj: Seq<Seq<usize>>, i: int, j: int) -> bool {
    0 <= i < adj.len() && 0 <= j < adj.len() && adj[i].contains(j as usize)
}

/// The step from position `k` of `q` to the next is an edge.
pub open spec fn istep(adj: Seq<Seq<usize>>, q: Seq<int>, k: int) -> bool {
    iedge(adj, q[k], q[k + 1])
}

/// `q` is a closed walk of at least one edge.
pub open spec fn is_icycle(adj: Seq<Seq<usize>>, q: Seq<int>) -> bool {
    &&& q.len() >= 2
    &&& q[0] == q.last()
    &&& forall|k: int| 0 <= k < q.len() - 1 ==> #[trigger] istep(adj, q, k)
}

/// The graph has a cycle.
pub open spec fn has_icycle_spec(adj: Seq<Seq<usize>>) -> bool {
    exists|q: Seq<int>| #[trigger] is_icycle(adj, q)
}

/// The successor lists of a graph.
pub open spec fn adj_model(adj: Seq<Vec<usize>>) -> Seq<Seq<usize>> {
    adj.map_values(|v: Vec<usize>| v@)
}

/// Every successor is a node.
pub open spec fn adj_wf(adj: Seq<Seq<usize>>) -> bool {
    forall|i: int, k: int| 0 <= i < adj.len() && 0 <= k < adj[i].len() ==> (#[trigger] adj[i][k]) < adj.len()
}

/// Removed nodes only lead to removed nodes of lower rank.
pub open spec fn ranked(adj: Seq<Seq<usize>>, removed: Seq<bool>, rank: Seq<int>) -> bool {
    forall|i: int, j: int| 0 <= i < adj.len() && removed[i] && #[trigger] iedge(adj, i, j) ==> removed[j] && rank[j] < rank[i]
}

/// Every node that is left has a successor that is left.
pub open spec fn stuck(adj: Seq<Seq<usize>>, removed: Seq<bool>) -> bool {
    forall|i: int| 0 <= i < adj.len() && !removed[i] ==> exists|j: int| #[trigger] iedge(adj, i, j) && !removed[j]
}

proof fn lemma_rank_path(adj: Seq<Seq<usize>>, removed: Seq<bool>, rank: Seq<int>, q: Seq<int>, k: int)
    requires
        removed.len() == adj.len(),
        ranked(adj, removed, rank),
        forall|m: int| 0 <= m < q.len() - 1 ==> #[trigger] istep(adj, q, m),
        0 <= q[0] < adj.len(),
        removed[q[0]],
        1 <= k < q.len(),
    ensures
        0 <= q[k] < adj.len(),
        removed[q[k]],
        rank[q[k]] < rank[q[0]],
    decreases k,
{
    assert(istep(adj, q, k - 1));
    if k > 1 {
        lemma_rank_path(adj, removed, rank, q, k - 1);
    }
}

/// With every node removed in rank order there is no cycle.
proof fn lemma_all_removed_acyclic(adj: Seq<Seq<usize>>, removed: Seq<bool>, rank: Seq<int>)
    requires
        removed.len() == adj.len(),
        ranked(adj, removed, rank),
        forall|i: int| 0 <= i < adj.len() ==> removed[i],
    ensures
        !has_icycle_spec(adj),
{
    assert forall|q: Seq<int>| !is_icycle(adj, q) by {
        if is_icycle(adj, q) {
            assert(istep(adj, q, 0));
            lemma_rank_path(adj, removed, rank, q, q.len() - 1);
        }
    }
}

/// A successor of `i` that is left.
spec fn succ_left(adj: Seq<Seq<usize>>, removed: Seq<bool>, i: int) -> int {
    choose|j: int| iedge(adj, i, j) && !removed[j]
}

/// The walk of `len` steps from `i0` that always moves to a successor that is left.
spec fn walk_left(adj: Seq<Seq<usize>>, removed: Seq<bool>, i0: int, len: nat) -> Seq<int>
    decreases len,
{
    if len == 0 {
        seq![i0]
    } else {
        let w = walk_left(adj, removed, i0, (len - 1) as nat);
        w.push(succ_left(adj, removed, w.last()))
    }
}

proof fn lemma_walk_left(adj: Seq<Seq<usize>>, removed: Seq<bool>, i0: int, len: nat)
    requires
        removed.len() == adj.len(),
        stuck(adj, removed),
        0 <= i0 < adj.len(),
        !removed[i0],
    ensures
        walk_left(adj, removed, i0, len).len() == len + 1,
        walk_left(adj, removed, i0, len)[0] == i0,
        forall|m: int| 0 <= m <= len ==> 0 <= #[trigger] walk_left(adj, removed, i0, len)[m] < adj.len()
            && !removed[walk_left(adj, removed, i0, len)[m]],
        forall|m: int| 0 <= m < len ==> #[trigger] istep(adj, walk_left(adj, removed, i0, len), m),
    decreases len,
{
    if len > 0 {
        lemma_walk_left(adj, removed, i0, (len - 1) as nat);
        let w = walk_left(adj, removed, i0, (len - 1) as nat);
        let last = w.last();
        assert(0 <= last < adj.len() && !removed[last]);
        let j = succ_left(adj, removed, last);
        assert(iedge(adj, last, j) && !removed[j]);
        let w2 = walk_left(adj, removed, i0, len);
        assert(w2 == w.push(j));
        assert forall|m: int| 0 <= m < len implies #[trigger] istep(adj, w2, m) by {
            if m < len - 1 {
                assert(istep(adj, w, m));
            }
        }
    }
}

/// A sequence of more than `n` values below `n` repeats a value.
proof fn lemma_pigeonhole(w: Seq<int>, n: int)
    requires
        0 <= n,
        w.len() > n,
        forall|m: int| 0 <= m < w.len() ==> 0 <= #[trigger] w[m] < n,
    ensures
        exists|a: int, b: int| 0 <= a < b < w.len() && w[a] == w[b],
{
    if w.no_duplicates() {
        w.unique_seq_to_set();
        lemma_int_range(0, n);
        assert(w.to_set().subset_of(set_int_range(0, n)));
        lemma_len_subset(w.to_set(), set_int_range(0, n));
        assert(false);
    } else {
        let (a, b) = choose|a: int, b: int| 0 <= a < w.len() && 0 <= b < w.len() && a != b && w[a] == w[b];
        if a < b {
            assert(0 <= a < b < w.len() && w[a] == w[b]);
        } else {
            assert(0 <= b < a < w.len() && w[b] == w[a]);
        }
    }
}

/// When every node that is left has a successor that is left, and one is left, there
/// is a cycle.
proof fn lemma_stuck_cyclic(adj: Seq<Seq<usize>>, removed: Seq<bool>, i0: int)
    requires
        removed.len() == adj.len(),
        stuck(adj, removed),
        0 <= i0 < adj.len(),
        !removed[i0],
    ensures
        has_icycle_spec(adj),
{
    let n = adj.len();
    let w = walk_left(adj, removed, i0, n);
    lemma_walk_left(adj, removed, i0, n);
    assert forall|m: int| 0 <= m < w.len() implies 0 <= #[trigger] w[m] < n by {}
    lemma_pigeonhole(w, n as int);
    let (a, b) = choose|a: int, b: int| 0 <= a < b < w.len() && w[a] == w[b];
    let q = w.subrange(a, b + 1);
    assert forall|k: int| 0 <= k < q.len() - 1 implies #[trigger] istep(adj, q, k) by {
        assert(istep(adj, w, a + k));
        assert(q[k] == w[a + k]);
        assert(q[k + 1] == w[a + k + 1]);
    }
    assert(is_icycle(adj, q));
}

/// Whether the graph has a cycle: nodes all of whose successors are removed are
/// removed, pass after pass, until none is; a cycle exists exactly when nodes are left.
fn has_icycle(adj: &Vec<Vec<usize>>) -> (r: bool)
    requires
        adj_wf(adj_model(adj@)),
    ensures
        r == has_icycle_spec(adj_model(adj@)),
{
    let ghost g = adj_model(adj@);
    let n = adj.len();
    let mut removed: Vec<bool> = Vec::new();
    let mut k: usize = 0;
    while k < n
        invariant
            k <= n,
            removed@.len() == k,
            forall|i: int| 0 <= i < k ==> !removed@[i],
        decreases n - k,
    {
        removed.push(false);
        k = k + 1;
    }
    let ghost mut rank: Seq<int> = Seq::new(n as nat, |i: int| 0);
    let ghost mut t: int = 0;
    let ghost mut gone: Set<int> = Set::empty();
    let mut count: usize = 0;
    let mut changed = true;
    proof {
        lemma_int_range(0, n as int);
    }
    while changed
        invariant
            n == adj@.len(),
            g == adj_model(adj@),
            g.len() == n,
            adj_wf(g),
            removed@.len() == n,
            rank.len() == n,
            ranked(g, removed@, rank),
            forall|i: int| 0 <= i < n && removed@[i] ==> rank[i] < t,
            gone.finite(),
            gone.len() == count,
            forall|i: int| gone.contains(i) <==> 0 <= i < n && removed@[i],
            set_int_range(0, n as int).finite(),
            set_int_range(0, n as int).len() == n,
            count <= n,
            !changed ==> stuck(g, removed@),
        decreases n - count + (if changed { 1int } else { 0int }),
    {
        changed = false;
        let ghost count0 = count;
        let mut i: usize = 0;
        while i < n
            invariant
                n == adj@.len(),
                g == adj_model(adj@),
                g.len() == n,
                adj_wf(g),
                removed@.len() == n,
                rank.len() == n,
                ranked(g, removed@, rank),
                forall|x: int| 0 <= x < n && removed@[x] ==> rank[x] < t,
                gone.finite(),
                gone.len() == count,
                forall|x: int| gone.contains(x) <==> 0 <= x < n && removed@[x],
                set_int_range(0, n as int).finite(),
                set_int_range(0, n as int).len() == n,
                count <= n,
                count0 <= count,
                changed ==> count0 < count,
                !changed ==> count == count0,
                i <= n,
                !changed ==> forall|x: int| 0 <= x < i && !removed@[x] ==> exists|j: int|
                    #[trigger] iedge(g, x, j) && !removed@[j],
            decreases n - i,
        {
            if !removed[i] {
                assert(g[i as int] == adj@[i as int]@);
                let succs = &adj[i];
                let mut all_gone = true;
                let mut m: usize = 0;
                while m < succs.len()
                    invariant
                        succs@ == g[i as int],
                        removed@.len() == n,
                        g.len() == n,
                        adj_wf(g),
                        i < n,
                        m <= succs@.len(),
                        all_gone ==> forall|x: int| 0 <= x < m ==> removed@[succs@[x] as int],
                        !all_gone ==> exists|x: int| 0 <= x < succs@.len() && !removed@[succs@[x] as int],
                    decreases succs.len() - m,
                {
                    assert(succs@[m as int] < n);
                    if !removed[succs[m]] {
                        all_gone = false;
                    }
                    m = m + 1;
                }
                if all_gone {
                    proof {
                        assert forall|j: int| #[trigger] iedge(g, i as int, j) implies removed@[j] && rank[j] < t by {
                            let x = g[i as int].index_of(j as usize);
                            assert(succs@[x] == j as usize);
                        }
                        assert(!gone.contains(i as int));
                        assert(gone.insert(i as int).subset_of(set_int_range(0, n as int)));
                        lemma_len_subset(gone.insert(i as int), set_int_range(0, n as int));
                    }
                    let ghost old_removed = removed@;
                    removed.set(i, true);
                    proof {
                        rank = rank.update(i as int, t);
                        t = t + 1;
                        gone = gone.insert(i as int);
                        assert forall|x: int, j: int| 0 <= x < n && removed@[x] && #[trigger] iedge(g, x, j) implies
                            removed@[j] && rank[j] < rank[x] by {
                            if x != i {
                                assert(old_removed[x]);
                            }
                        }
                    }
                    count = count + 1;
                    changed = true;
                } else {
                    proof {
                        let x = choose|x: int| 0 <= x < succs@.len() && !removed@[succs@[x] as int];
                        assert(g[i as int].contains(succs@[x]));
                        assert(iedge(g, i as int, succs@[x] as int));
                    }
                }
            }
            i = i + 1;
        }
    }
    let mut left = false;
    let mut i: usize = 0;
    let mut witness: usize = 0;
    while i < n
        invariant
            removed@.len() == n,
            i <= n,
            left ==> witness < n && !removed@[witness as int],
            !left ==> forall|x: int| 0 <= x < i ==> removed@[x],
        decreases n - i,
    {
        if !removed[i] {
            left = true;
            witness = i;
        }
        i = i + 1;
    }
    proof {
        if left {
            lemma_stuck_cyclic(g, removed@, witness as int);
        } else {
            lemma_all_removed_acyclic(g, removed@, rank);
        }
    }
    left
}


// ---------------------------------------------------------------------------
// Keyed tables

/// The position of the first entry with key `k`.
pub open spec fn first_key<K, V>(s: Seq<(K, V)>, k: K) -> Option<int>
    decreases s.len(),
{
    if s.len() == 0 {
        None
    } else if s[0].0 == k {
        Some(0)
    } else {
        match first_key(s.drop_first(), k) {
            Some(i) => Some(i + 1),
            None => None,
        }
    }
}

pub proof fn lemma_first_key<K, V>(s: Seq<(K, V)>, k: K)
    ensures
        first_key(s, k) matches Some(i) ==> 0 <= i < s.len() && s[i].0 == k && forall|j: int| 0 <= j < i ==> s[j].0 != k,
        first_key(s, k) is None ==> forall|j: int| 0 <= j < s.len() ==> s[j].0 != k,
    decreases s.len(),
{
    if s.len() > 0 {
        lemma_first_key(s.drop_first(), k);
        assert forall|j: int| 0 < j < s.len() implies s[j] == s.drop_first()[j - 1] by {}
    }
}

/// `s` with the entry for `k` set to `v`: in place of the first entry with that key,
/// or added at the end.
pub open spec fn keyed_insert<K, V>(s: Seq<(K, V)>, k: K, v: V) -> Seq<(K, V)> {
    match first_key(s, k) {
        Some(i) => s.update(i, (k, v)),
        None => s.push((k, v)),
    }
}

/// A key present before a keyed insert stays present.
pub(crate) proof fn lemma_keyed_insert_keeps<K, V>(s: Seq<(K, V)>, k: K, v: V, other: K)
    requires
        first_key(s, other) is Some,
    ensures
        first_key(keyed_insert(s, k, v), other) is Some,
{
    lemma_first_key(s, other);
    let i = first_key(s, other)->0;
    let t = keyed_insert(s, k, v);
    lemma_first_key(s, k);
    lemma_first_key(t, other);
    if first_key(t, other) is None {
        assert(t[i].0 != other);
        assert(false);
    }
}

/// The inserted key is present after a keyed insert.
pub(crate) proof fn lemma_keyed_insert_has<K, V>(s: Seq<(K, V)>, k: K, v: V)
    ensures
        first_key(keyed_insert(s, k, v), k) is Some,
{
    let t = keyed_insert(s, k, v);
    lemma_first_key(s, k);
    lemma_first_key(t, k);
    if first_key(t, k) is None {
        match first_key(s, k) {
            Some(i) => {
                assert(t[i].0 == k);
            },
            None => {
                assert(t[s.len() as int].0 == k);
            },
        }
        assert(false);
    }
}

/// After a keyed insert the key is found with the inserted value.
/// A keyed insert leaves the entry of every other key where and as it was.
pub(crate) proof fn lemma_keyed_insert_other<K, V>(s: Seq<(K, V)>, k: K, v: V, o: K)
    requires
        o != k,
    ensures
        first_key(keyed_insert(s, k, v), o) == first_key(s, o),
        first_key(s, o) matches Some(i) ==> keyed_insert(s, k, v)[i] == s[i],
{
    let t = keyed_insert(s, k, v);
    lemma_first_key(s, k);
    lemma_first_key(s, o);
    match first_key(s, k) {
        Some(i) => {
            assert forall|j: int| 0 <= j < s.len() implies #[trigger] s[j].0 == t[j].0 by {}
            lemma_same_keys(s, t, o);
        },
        None => {
            lemma_first_key(t, o);
            match first_key(s, o) {
                Some(i) => {
                    assert forall|j: int| 0 <= j < i implies t[j].0 != o by {
                        assert(t[j] == s[j]);
                    }
                    assert(t[i] == s[i]);
                    lemma_first_key_scan(t, o, i);
                },
                None => {
                    if first_key(t, o) is Some {
                        let j = first_key(t, o)->0;
                        if j < s.len() {
                            assert(t[j] == s[j]);
                        }
                    }
                },
            }
        },
    }
}

pub(crate) proof fn lemma_keyed_insert_finds<K, V>(s: Seq<(K, V)>, k: K, v: V)
    ensures
        first_key(keyed_insert(s, k, v), k) matches Some(i) && keyed_insert(s, k, v)[i] == (k, v),
{
    let t = keyed_insert(s, k, v);
    lemma_first_key(s, k);
    match first_key(s, k) {
        Some(i) => {
            assert forall|j: int| 0 <= j < i implies t[j].0 != k by {}
            lemma_first_key_scan(t, k, i);
        },
        None => {
            assert forall|j: int| 0 <= j < s.len() implies t[j].0 != k by {}
            lemma_first_key_scan(t, k, s.len() as int);
        },
    }
}

/// Two keyed lists with the same keys in the same places find a key at the
/// same place.
pub(crate) proof fn lemma_same_keys<K, V, W>(s: Seq<(K, V)>, t: Seq<(K, W)>, k: K)
    requires
        s.len() == t.len(),
        forall|j: int| 0 <= j < s.len() ==> #[trigger] s[j].0 == t[j].0,
    ensures
        first_key(s, k) == first_key(t, k),
{
    lemma_first_key(s, k);
    lemma_first_key(t, k);
    match first_key(s, k) {
        Some(i) => {
            assert forall|j: int| 0 <= j < i implies t[j].0 != k by {
                assert(s[j].0 == t[j].0);
            }
            assert(s[i].0 == t[i].0);
            lemma_first_key_scan(t, k, i);
        },
        None => {
            if let Some(x) = first_key(t, k) {
                assert(s[x].0 == t[x].0);
            }
        },
    }
}

/// An entry with key `k` that no entry before it shares is the first entry with `k`.
pub(crate) proof fn lemma_first_key_scan<K, V>(s: Seq<(K, V)>, k: K, i: int)
    requires
        0 <= i < s.len(),
        s[i].0 == k,
        forall|j: int| 0 <= j < i ==> s[j].0 != k,
    ensures
        first_key(s, k) == Some(i),
{
    lemma_first_key(s, k);
    match first_key(s, k) {
        Some(x) => {
            if x < i {
            } else if x > i {
            }
        },
        None => {},
    }
}

pub(crate) fn find_str_key<V>(v: &Vec<(String, V)>, key: &str) -> (r: Option<usize>)
    ensures
        r matches Some(i) ==> i < v@.len() && v@[i as int].0@ == key@ && forall|j: int| 0 <= j < i ==> v@[j].0@ != key@,
        r is None ==> forall|j: int| 0 <= j < v@.len() ==> v@[j].0@ != key@,
{
    let mut k: usize = 0;
    while k < v.len()
        invariant
            k <= v@.len(),
            forall|j: int| 0 <= j < k ==> v@[j].0@ != key@,
        decreases v.len() - k,
    {
        if str_eq(v[k].0.as_str(), key) {
            return Some(k);
        }
        k = k + 1;
    }
    None
}

pub(crate) fn find_u32_key<V>(v: &Vec<(u32, V)>, key: u32) -> (r: Option<usize>)
    ensures
        r matches Some(i) ==> first_key(v@, key) == Some(i as int) && i < v@.len(),
        r is None ==> first_key(v@, key) is None,
{
    proof { lemma_first_key(v@, key); }
    let mut k: usize = 0;
    while k < v.len()
        invariant
            k <= v@.len(),
            forall|j: int| 0 <= j < k ==> v@[j].0 != key,
        decreases v.len() - k,
    {
        if v[k].0 == key {
            proof { lemma_first_key_scan(v@, key, k as int); }
            return Some(k);
        }
        k = k + 1;
    }
    None
}

// ---------------------------------------------------------------------------
// Locks

/// A lock `a` is followed by lock `b` in some acquisition order.
pub open spec fn lock_edge(locks: Seq<(Seq<char>, Set<Seq<char>>)>, a: Seq<char>, b: Seq<char>) -> bool {
    exists|i: int| 0 <= i < locks.len() && locks[i].0 == a && #[trigger] locks[i].1.contains(b)
}

pub open spec fn lock_step(locks: Seq<(Seq<char>, Set<Seq<char>>)>, p: Seq<Seq<char>>, k: int) -> bool {
    lock_edge(locks, p[k], p[k + 1])
}

/// `p` is a circular chain of lock orderings: each lock is acquired before the next,
/// and the last is the first.
pub open spec fn is_lock_cycle(locks: Seq<(Seq<char>, Set<Seq<char>>)>, p: Seq<Seq<char>>) -> bool {
    &&& p.len() >= 2
    &&& p[0] == p.last()
    &&& forall|k: int| 0 <= k < p.len() - 1 ==> #[trigger] lock_step(locks, p, k)
}

/// The lock orderings are circular somewhere: the deadlock risk.
pub open spec fn has_lock_cycle(locks: Seq<(Seq<char>, Set<Seq<char>>)>) -> bool {
    exists|p: Seq<Seq<char>>| #[trigger] is_lock_cycle(locks, p)
}

/// The successor lists of the registered locks: lock `j` follows lock `i` when the
/// name of `j` is among the locks recorded after `i`.
pub open spec fn lock_adj_ok(locks: Seq<(Seq<char>, Set<Seq<char>>)>, g: Seq<Seq<usize>>) -> bool {
    &&& g.len() == locks.len()
    &&& adj_wf(g)
    &&& forall|i: int, j: int| 0 <= i < g.len() && 0 <= j < g.len() ==>
        (#[trigger] g[i].contains(j as usize) <==> locks[i].1.contains(locks[j].0))
}

spec fn pick_lock(locks: Seq<(Seq<char>, Set<Seq<char>>)>, p: Seq<Seq<char>>, k: int) -> int {
    choose|i: int| 0 <= i < locks.len() && locks[i].0 == p[k] && #[trigger] locks[i].1.contains(p[k + 1])
}

proof fn lemma_cycles_agree(locks: Seq<(Seq<char>, Set<Seq<char>>)>, g: Seq<Seq<usize>>)
    requires
        lock_adj_ok(locks, g),
    ensures
        has_icycle_spec(g) == has_lock_cycle(locks),
{
    if has_icycle_spec(g) {
        let q = choose|q: Seq<int>| #[trigger] is_icycle(g, q);
        let p = Seq::new(q.len(), |k: int| locks[q[k]].0);
        assert forall|k: int| 0 <= k < p.len() - 1 implies #[trigger] lock_step(locks, p, k) by {
            assert(istep(g, q, k));
            assert(g[q[k]].contains(q[k + 1] as usize));
            assert(locks[q[k]].1.contains(locks[q[k + 1]].0));
        }
        assert(p[0] == p.last()) by {
            assert(q[0] == q.last());
        }
        assert(is_lock_cycle(locks, p));
    }
    if has_lock_cycle(locks) {
        let p = choose|p: Seq<Seq<char>>| #[trigger] is_lock_cycle(locks, p);
        let n = p.len();
        let q = Seq::new(n, |k: int| if k < n - 1 { pick_lock(locks, p, k) } else { pick_lock(locks, p, 0) });
        assert forall|k: int| 0 <= k < n - 1 implies (0 <= #[trigger] pick_lock(locks, p, k) < locks.len()
            && locks[pick_lock(locks, p, k)].0 == p[k] && locks[pick_lock(locks, p, k)].1.contains(p[k + 1])) by {
            assert(lock_step(locks, p, k));
        }
        assert forall|k: int| 0 <= k < q.len() - 1 implies #[trigger] istep(g, q, k) by {
            assert(0 <= pick_lock(locks, p, k) < locks.len());
            if k + 1 < n - 1 {
                assert(0 <= pick_lock(locks, p, k + 1) < locks.len());
            } else {
                assert(0 <= pick_lock(locks, p, 0) < locks.len());
            }
            assert(g[q[k]].contains(q[k + 1] as usize));
        }
        assert(q[0] == q.last());
        assert(is_icycle(g, q));
    }
}

/// The effect of one recorded order `a` then `b`: `b` joins the locks after `a` when
/// `a` is registered.
pub open spec fn add_dep(locks: Seq<(Seq<char>, Set<Seq<char>>)>, a: Seq<char>, b: Seq<char>) -> Seq<(Seq<char>, Set<Seq<char>>)> {
    match first_key(locks, a) {
        Some(i) => locks.update(i, (a, locks[i].1.insert(b))),
        None => locks,
    }
}

/// The effect of recording an acquisition order: each lock is followed by the next.
pub open spec fn record_order(locks: Seq<(Seq<char>, Set<Seq<char>>)>, names: Seq<Seq<char>>) -> Seq<(Seq<char>, Set<Seq<char>>)>
    decreases names.len(),
{
    if names.len() < 2 {
        locks
    } else {
        add_dep(record_order(locks, names.drop_last()), names[names.len() - 2], names.last())
    }
}

// ---------------------------------------------------------------------------
// Shared variables

/// The variables accessed, each once, in order of first access (threads in order).
pub open spec fn accessed_vars(acc: Seq<(u32, Seq<Seq<char>>)>) -> Seq<Seq<char>>
    decreases acc.len(),
{
    if acc.len() == 0 {
        Seq::empty()
    } else {
        add_new(accessed_vars(acc.drop_last()), acc.last().1)
    }
}

/// `d` followed by the values of `s` that are not in it yet, each once.
pub open spec fn add_new(d: Seq<Seq<char>>, s: Seq<Seq<char>>) -> Seq<Seq<char>>
    decreases s.len(),
{
    if s.len() == 0 {
        d
    } else {
        let e = add_new(d, s.drop_last());
        if e.contains(s.last()) { e } else { e.push(s.last()) }
    }
}

/// The number of threads that accessed `v`.
pub open spec fn thread_count(acc: Seq<(u32, Seq<Seq<char>>)>, v: Seq<char>) -> nat
    decreases acc.len(),
{
    if acc.len() == 0 {
        0
    } else {
        thread_count(acc.drop_last(), v) + if acc.last().1.contains(v) { 1nat } else { 0nat }
    }
}

/// `v` is protected by at least one lock.
pub open spec fn is_synchronized(synced: Seq<(Seq<char>, Seq<Seq<char>>)>, v: Seq<char>) -> bool {
    match first_key(synced, v) {
        Some(i) => synced[i].1.len() > 0,
        None => false,
    }
}

pub open spec fn msg_race(v: Seq<char>, n: nat) -> Seq<char> {
    "RACE CONDITION: Variable "@ + crate::ownership_enforcement::quoted(v) + " accessed by "@
        + crate::text::nat_decimal(n) + " threads without synchronization"@
}

/// A race report for each of `vars` accessed by two threads or more without a lock.
pub open spec fn race_msgs(acc: Seq<(u32, Seq<Seq<char>>)>, synced: Seq<(Seq<char>, Seq<Seq<char>>)>, vars: Seq<Seq<char>>) -> Seq<Seq<char>>
    decreases vars.len(),
{
    if vars.len() == 0 {
        Seq::empty()
    } else {
        let rest = race_msgs(acc, synced, vars.drop_last());
        let v = vars.last();
        if thread_count(acc, v) >= 2 && !is_synchronized(synced, v) {
            rest.push(msg_race(v, thread_count(acc, v)))
        } else {
            rest
        }
    }
}

pub open spec fn msg_deadlock() -> Seq<char> {
    "DEADLOCK RISK: Circular lock dependency detected. Locks must be acquired in consistent order."@
}

// ---------------------------------------------------------------------------
// Sockets

/// A network property that the verifier checks.
#[derive(Clone, Copy, Debug, PartialEq, Eq, Structural)]
pub enum NetworkProperty {
    NoDeadlock,
    NoRaceCondition,
    SocketLifecycleValid,
    NoResourceLeak,
}

/// The lifecycle state of a socket.
#[derive(Clone, Copy, Debug, PartialEq, Eq, Structural)]
pub enum SocketState {
    Uninitialized,
    Open,
    Accepting,
    Reading,
    Writing,
    Closed,
}

impl SocketState {
    pub open spec fn name_text(self) -> Seq<char> {
        match self {
            SocketState::Uninitialized => "Uninitialized"@,
            SocketState::Open => "Open"@,
            SocketState::Accepting => "Accepting"@,
            SocketState::Reading => "Reading"@,
            SocketState::Writing => "Writing"@,
            SocketState::Closed => "Closed"@,
        }
    }

    fn name(&self) -> (r: &'static str)
        ensures
            r@ == self.name_text(),
    {
        match self {
            SocketState::Uninitialized => "Uninitialized",
            SocketState::Open => "Open",
            SocketState::Accepting => "Accepting",
            SocketState::Reading => "Reading",
            SocketState::Writing => "Writing",
            SocketState::Closed => "Closed",
        }
    }
}

/// The socket lifecycle: a new socket opens; an open one accepts, reads, writes or
/// closes; an accepting one reads; a reading or writing one keeps doing so or closes.
pub open spec fn socket_transition(from: SocketState, to: SocketState) -> bool {
    ||| from is Uninitialized && to is Open
    ||| from is Open && (to is Accepting || to is Reading || to is Writing || to is Closed)
    ||| from is Accepting && to is Reading
    ||| from is Reading && (to is Reading || to is Closed)
    ||| from is Writing && (to is Writing || to is Closed)
}

/// The state of socket `name` (uninitialized when it is not tracked).
pub open spec fn socket_state(sockets: Seq<(Seq<char>, SocketState)>, name: Seq<char>) -> SocketState {
    match first_key(sockets, name) {
        Some(i) => sockets[i].1,
        None => SocketState::Uninitialized,
    }
}

pub open spec fn msg_socket(from: SocketState, to: SocketState) -> Seq<char> {
    "Invalid socket transition "@ + from.name_text() + " -> "@ + to.name_text()
}

// ---------------------------------------------------------------------------
// The verifier

pub open spec fn deps_set(v: Seq<String>) -> Set<Seq<char>> {
    names_of(v).to_set()
}

pub open spec fn locks_of(l: Seq<(String, Vec<String>)>) -> Seq<(Seq<char>, Set<Seq<char>>)> {
    l.map_values(|e: (String, Vec<String>)| (e.0@, deps_set(e.1@)))
}

pub open spec fn accesses_of(a: Seq<(u32, Vec<String>)>) -> Seq<(u32, Seq<Seq<char>>)> {
    a.map_values(|e: (u32, Vec<String>)| (e.0, names_of(e.1@)))
}

pub open spec fn synced_of(s: Seq<(String, Vec<String>)>) -> Seq<(Seq<char>, Seq<Seq<char>>)> {
    s.map_values(|e: (String, Vec<String>)| (e.0@, names_of(e.1@)))
}

pub open spec fn sockets_of(s: Seq<(String, SocketState)>) -> Seq<(Seq<char>, SocketState)> {
    s.map_values(|e: (String, SocketState)| (e.0@, e.1))
}

/// Lock orders, thread accesses, lock protection and socket states of a program, and
/// the violations found so far.
pub struct NetworkVerifier {
    lock_graph: Vec<(String, Vec<String>)>,
    thread_accesses: Vec<(u32, Vec<String>)>,
    synchronized_vars: Vec<(String, Vec<String>)>,
    socket_states: Vec<(String, SocketState)>,
    violations: Vec<String>,
    next_thread_id: u32,
}

impl NetworkVerifier {
    /// Each registered lock with the locks recorded after it.
    pub closed spec fn locks(&self) -> Seq<(Seq<char>, Set<Seq<char>>)> {
        locks_of(self.lock_graph@)
    }

    /// Each thread with the variables it accessed, in order.
    pub closed spec fn accesses(&self) -> Seq<(u32, Seq<Seq<char>>)> {
        accesses_of(self.thread_accesses@)
    }

    /// Each protected variable with the locks protecting it.
    pub closed spec fn synced(&self) -> Seq<(Seq<char>, Seq<Seq<char>>)> {
        synced_of(self.synchronized_vars@)
    }

    /// Each tracked socket with its state.
    pub closed spec fn sockets(&self) -> Seq<(Seq<char>, SocketState)> {
        sockets_of(self.socket_states@)
    }

    /// The violations found so far, in order.
    pub closed spec fn found(&self) -> Seq<Seq<char>> {
        names_of(self.violations@)
    }

    pub closed spec fn next_thread(&self) -> u32 {
        self.next_thread_id
    }
}

/// What `find_str_key` found over the exec entries is the first key of the model.
pub(crate) proof fn lemma_found_key<V, W>(e: Seq<(String, V)>, m: Seq<(Seq<char>, W)>, key: Seq<char>, r: Option<usize>)
    requires
        m.len() == e.len(),
        forall|j: int| 0 <= j < e.len() ==> #[trigger] m[j].0 == e[j].0@,
        r matches Some(i) ==> i < e.len() && e[i as int].0@ == key && forall|j: int| 0 <= j < i ==> e[j].0@ != key,
        r is None ==> forall|j: int| 0 <= j < e.len() ==> e[j].0@ != key,
    ensures
        match r {
            Some(i) => first_key(m, key) == Some(i as int),
            None => first_key(m, key) is None,
        },
{
    lemma_first_key(m, key);
    match r {
        Some(i) => {
            assert(m[i as int].0 == key);
            assert forall|j: int| 0 <= j < i implies m[j].0 != key by {
                assert(m[j].0 == e[j].0@);
            }
            lemma_first_key_scan(m, key, i as int);
        },
        None => {
            if first_key(m, key) is Some {
                let x = first_key(m, key)->0;
                assert(m[x].0 == e[x].0@);
            }
        },
    }
}

pub(crate) proof fn lemma_push_contains<A>(s: Seq<A>, x: A, y: A)
    ensures
        s.push(x).contains(y) == (s.contains(y) || y == x),
{
    if s.push(x).contains(y) {
        let k = choose|k: int| 0 <= k < s.push(x).len() && s.push(x)[k] == y;
        if k < s.len() {
            assert(s[k] == y);
        }
    }
    if s.contains(y) {
        let k = choose|k: int| 0 <= k < s.len() && s[k] == y;
        assert(s.push(x)[k] == y);
    }
    if y == x {
        assert(s.push(x)[s.len() as int] == y);
    }
}

pub(crate) proof fn lemma_names_push(v: Seq<String>, x: String)
    ensures
        names_of(v.push(x)) == names_of(v).push(x@),
{
    assert(names_of(v.push(x)) =~= names_of(v).push(x@));
}

fn build_successors(locks: &Vec<(String, Vec<String>)>) -> (adj: Vec<Vec<usize>>)
    ensures
        lock_adj_ok(locks_of(locks@), adj_model(adj@)),
{
    let ghost lm = locks_of(locks@);
    let n = locks.len();
    let mut adj: Vec<Vec<usize>> = Vec::new();
    let mut i: usize = 0;
    while i < n
        invariant
            n == locks@.len(),
            lm == locks_of(locks@),
            lm.len() == n,
            i <= n,
            adj@.len() == i,
            forall|x: int, k: int| 0 <= x < i && 0 <= k < adj@[x]@.len() ==> (#[trigger] adj@[x]@[k]) < n,
            forall|x: int, j: int| 0 <= x < i && 0 <= j < n ==>
                (#[trigger] adj@[x]@.contains(j as usize) <==> lm[x].1.contains(lm[j].0)),
        decreases n - i,
    {
        let mut succ: Vec<usize> = Vec::new();
        let mut j: usize = 0;
        while j < n
            invariant
                n == locks@.len(),
                lm == locks_of(locks@),
                lm.len() == n,
                i < n,
                j <= n,
                forall|k: int| 0 <= k < succ@.len() ==> (#[trigger] succ@[k]) < j,
                forall|y: int| 0 <= y < n ==> (#[trigger] succ@.contains(y as usize) <==> y < j && lm[i as int].1.contains(lm[y].0)),
            decreases n - j,
        {
            assert(lm[i as int] == (locks@[i as int].0@, deps_set(locks@[i as int].1@)));
            assert(lm[j as int].0 == locks@[j as int].0@);
            let ghost before = succ@;
            if contains_name(&locks[i].1, locks[j].0.as_str()) {
                succ.push(j);
                assert forall|y: int| 0 <= y < n implies (#[trigger] succ@.contains(y as usize) <==> y < j + 1
                    && lm[i as int].1.contains(lm[y].0)) by {
                    lemma_push_contains(before, j, y as usize);
                }
            } else {
                assert forall|y: int| 0 <= y < n implies (#[trigger] succ@.contains(y as usize) <==> y < j + 1
                    && lm[i as int].1.contains(lm[y].0)) by {
                    if y == j && succ@.contains(y as usize) {
                        let k = succ@.index_of(y as usize);
                        assert(succ@[k] < j);
                    }
                }
            }
            j = j + 1;
        }
        let ghost before = adj@;
        adj.push(succ);
        proof {
            assert forall|x: int, j: int| 0 <= x < i + 1 && 0 <= j < n implies
                (#[trigger] adj@[x]@.contains(j as usize) <==> lm[x].1.contains(lm[j].0)) by {
                if x < i {
                    assert(adj@[x] == before[x]);
                }
            }
            assert forall|x: int, k: int| 0 <= x < i + 1 && 0 <= k < adj@[x]@.len() implies (#[trigger] adj@[x]@[k]) < n by {
                if x < i {
                    assert(adj@[x] == before[x]);
                }
            }
        }
        i = i + 1;
    }
    proof {
        let g = adj_model(adj@);
        assert forall|x: int, k: int| 0 <= x < g.len() && 0 <= k < g[x].len() implies (#[trigger] g[x][k]) < g.len() by {
            assert(g[x] == adj@[x]@);
        }
        assert forall|x: int, j: int| 0 <= x < g.len() && 0 <= j < g.len() implies
            (#[trigger] g[x].contains(j as usize) <==> lm[x].1.contains(lm[j].0)) by {
            assert(g[x] == adj@[x]@);
        }
    }
    adj
}

impl NetworkVerifier {
    /// A verifier with nothing recorded.
    pub fn new() -> (r: Self)
        ensures
            r.locks().len() == 0,
            r.accesses().len() == 0,
            r.synced().len() == 0,
            r.sockets().len() == 0,
            r.found().len() == 0,
            r.next_thread() == 0,
    {
        NetworkVerifier {
            lock_graph: Vec::new(),
            thread_accesses: Vec::new(),
            synchronized_vars: Vec::new(),
            socket_states: Vec::new(),
            violations: Vec::new(),
            next_thread_id: 0,
        }
    }

    /// Registers a lock with no lock recorded after it (forgetting the orders recorded
    /// for an earlier lock of that name).
    pub fn register_lock(&mut self, name: &str)
        ensures
            final(self).locks() == keyed_insert(old(self).locks(), name@, Set::<Seq<char>>::empty()),
            final(self).accesses() == old(self).accesses(),
            final(self).synced() == old(self).synced(),
            final(self).sockets() == old(self).sockets(),
            final(self).found() == old(self).found(),
            final(self).next_thread() == old(self).next_thread(),
    {
        let ghost before = self.lock_graph@;
        let r = find_str_key(&self.lock_graph, name);
        proof { lemma_found_key(before, locks_of(before), name@, r); }
        let entry = (String::from_str(name), Vec::new());
        let ghost em = (entry.0@, deps_set(entry.1@));
        assert(deps_set(entry.1@) =~= Set::<Seq<char>>::empty()) by {
            assert(names_of(entry.1@) =~= Seq::<Seq<char>>::empty());
        }
        match r {
            Some(i) => {
                self.lock_graph.set(i, entry);
                assert(locks_of(self.lock_graph@) =~= locks_of(before).update(i as int, em));
            },
            None => {
                self.lock_graph.push(entry);
                assert(locks_of(self.lock_graph@) =~= locks_of(before).push(em));
            },
        }
    }

    /// Records that, in some function, `locks` are acquired in this order: each
    /// registered lock is followed by the next one in the list.
    pub fn record_lock_order(&mut self, _function: &str, locks: &[&str])
        ensures
            final(self).locks() == record_order(old(self).locks(), str_texts(locks@)),
            final(self).accesses() == old(self).accesses(),
            final(self).synced() == old(self).synced(),
            final(self).sockets() == old(self).sockets(),
            final(self).found() == old(self).found(),
            final(self).next_thread() == old(self).next_thread(),
    {
        let ghost names = str_texts(locks@);
        if locks.len() < 2 {
            return;
        }
        let mut i: usize = 0;
        assert(names.subrange(0, 1).len() < 2);
        while i < locks.len() - 1
            invariant
                locks@.len() >= 2,
                i <= locks@.len() - 1,
                names == str_texts(locks@),
                self.locks() == record_order(old(self).locks(), names.subrange(0, i + 1)),
                self.accesses() == old(self).accesses(),
                self.synced() == old(self).synced(),
                self.sockets() == old(self).sockets(),
                self.found() == old(self).found(),
                self.next_thread() == old(self).next_thread(),
            decreases locks.len() - 1 - i,
        {
            let ghost pre = names.subrange(0, i + 2);
            assert(pre.drop_last() =~= names.subrange(0, i + 1));
            assert(pre[pre.len() - 2] == locks@[i as int]@ && pre.last() == locks@[i + 1]@);
            let ghost before = self.lock_graph@;
            let ghost lm = locks_of(before);
            let r = find_str_key(&self.lock_graph, locks[i]);
            proof { lemma_found_key(before, lm, locks@[i as int]@, r); }
            if let Some(k) = r {
                let mut e = self.lock_graph.remove(k);
                add_name(&mut e.1, locks[i + 1]);
                proof {
                    let old_names = names_of(before[k as int].1@);
                    assert(lm[k as int].1 == old_names.to_set());
                    if old_names.contains(locks@[i + 1]@) {
                        assert(old_names.to_set().insert(locks@[i + 1]@) =~= old_names.to_set());
                    } else {
                        old_names.lemma_push_to_set_commute(locks@[i + 1]@);
                    }
                    assert(deps_set(e.1@) == lm[k as int].1.insert(locks@[i + 1]@));
                }
                let ghost em = (e.0@, deps_set(e.1@));
                self.lock_graph.insert(k, e);
                assert(self.lock_graph@ =~= before.update(k as int, self.lock_graph@[k as int]));
                assert(locks_of(self.lock_graph@) =~= lm.update(k as int, em));
            }
            i = i + 1;
        }
        assert(names.subrange(0, locks@.len() as int) =~= names);
    }

    /// Whether the recorded lock orders are circular (see [`has_lock_cycle`]).
    pub fn has_cycle_in_lock_graph(&self) -> (r: bool)
        ensures
            r == has_lock_cycle(self.locks()),
    {
        let adj = build_successors(&self.lock_graph);
        proof { lemma_cycles_agree(self.locks(), adj_model(adj@)); }
        has_icycle(&adj)
    }

    /// Records that thread `thread_id` accessed `var_name`.
    pub fn record_thread_access(&mut self, thread_id: u32, var_name: &str)
        ensures
            final(self).accesses() == match first_key(old(self).accesses(), thread_id) {
                Some(i) => old(self).accesses().update(i, (thread_id, if old(self).accesses()[i].1.contains(var_name@) {
                    old(self).accesses()[i].1
                } else {
                    old(self).accesses()[i].1.push(var_name@)
                })),
                None => old(self).accesses().push((thread_id, seq![var_name@])),
            },
            final(self).locks() == old(self).locks(),
            final(self).synced() == old(self).synced(),
            final(self).sockets() == old(self).sockets(),
            final(self).found() == old(self).found(),
            final(self).next_thread() == old(self).next_thread(),
    {
        let ghost before = self.thread_accesses@;
        let ghost am = accesses_of(before);
        let r = find_u32_key(&self.thread_accesses, thread_id);
        proof {
            lemma_first_key(before, thread_id);
            lemma_first_key(am, thread_id);
            match r {
                Some(i) => {
                    assert forall|j: int| 0 <= j < i implies am[j].0 != thread_id by {
                        assert(am[j].0 == before[j].0);
                    }
                    assert(am[i as int].0 == thread_id);
                    lemma_first_key_scan(am, thread_id, i as int);
                },
                None => {
                    if first_key(am, thread_id) is Some {
                        let x = first_key(am, thread_id)->0;
                        assert(am[x].0 == before[x].0);
                    }
                },
            }
        }
        match r {
            Some(k) => {
                let mut e = self.thread_accesses.remove(k);
                add_name(&mut e.1, var_name);
                let ghost em = (e.0, names_of(e.1@));
                self.thread_accesses.insert(k, e);
                assert(self.thread_accesses@ =~= before.update(k as int, self.thread_accesses@[k as int]));
                assert(accesses_of(self.thread_accesses@) =~= am.update(k as int, em));
            },
            None => {
                let mut vars: Vec<String> = Vec::new();
                vars.push(String::from_str(var_name));
                let ghost em = (thread_id, names_of(vars@));
                assert(names_of(vars@) =~= seq![var_name@]);
                self.thread_accesses.push((thread_id, vars));
                assert(accesses_of(self.thread_accesses@) =~= am.push(em));
            },
        }
    }

    /// Records that `var_name` is protected by `locks` (replacing what was recorded).
    pub fn record_synchronized_access(&mut self, var_name: &str, locks: &[&str])
        ensures
            final(self).synced() == keyed_insert(old(self).synced(), var_name@, str_texts(locks@)),
            final(self).locks() == old(self).locks(),
            final(self).accesses() == old(self).accesses(),
            final(self).sockets() == old(self).sockets(),
            final(self).found() == old(self).found(),
            final(self).next_thread() == old(self).next_thread(),
    {
        let mut names: Vec<String> = Vec::new();
        let mut k: usize = 0;
        while k < locks.len()
            invariant
                k <= locks@.len(),
                names_of(names@) == str_texts(locks@).subrange(0, k as int),
            decreases locks.len() - k,
        {
            let ghost before = names@;
            let item = String::from_str(locks[k]);
            names.push(item);
            proof {
                lemma_names_push(before, item);
                assert(str_texts(locks@).subrange(0, k + 1) =~= str_texts(locks@).subrange(0, k as int).push(locks@[k as int]@));
            }
            k = k + 1;
        }
        assert(str_texts(locks@).subrange(0, locks@.len() as int) =~= str_texts(locks@));
        let ghost before = self.synchronized_vars@;
        let r = find_str_key(&self.synchronized_vars, var_name);
        proof { lemma_found_key(before, synced_of(before), var_name@, r); }
        let entry = (String::from_str(var_name), names);
        let ghost em = (entry.0@, names_of(entry.1@));
        match r {
            Some(i) => {
                self.synchronized_vars.set(i, entry);
                assert(synced_of(self.synchronized_vars@) =~= synced_of(before).update(i as int, em));
            },
            None => {
                self.synchronized_vars.push(entry);
                assert(synced_of(self.synchronized_vars@) =~= synced_of(before).push(em));
            },
        }
    }

    /// A fresh thread id, whose access record starts empty.
    pub fn new_thread_id(&mut self) -> (r: u32)
        requires
            old(self).next_thread() < u32::MAX,
        ensures
            r == old(self).next_thread(),
            final(self).next_thread() == r + 1,
            final(self).accesses() == keyed_insert(old(self).accesses(), r, Seq::<Seq<char>>::empty()),
            final(self).locks() == old(self).locks(),
            final(self).synced() == old(self).synced(),
            final(self).sockets() == old(self).sockets(),
            final(self).found() == old(self).found(),
    {
        let id = self.next_thread_id;
        self.next_thread_id = self.next_thread_id + 1;
        let ghost before = self.thread_accesses@;
        let ghost am = accesses_of(before);
        let r = find_u32_key(&self.thread_accesses, id);
        proof {
            lemma_first_key(before, id);
            lemma_first_key(am, id);
            match r {
                Some(i) => {
                    assert forall|j: int| 0 <= j < i implies am[j].0 != id by {
                        assert(am[j].0 == before[j].0);
                    }
                    assert(am[i as int].0 == id);
                    lemma_first_key_scan(am, id, i as int);
                },
                None => {
                    if first_key(am, id) is Some {
                        let x = first_key(am, id)->0;
                        assert(am[x].0 == before[x].0);
                    }
                },
            }
        }
        let entry: (u32, Vec<String>) = (id, Vec::new());
        let ghost em = (id, names_of(entry.1@));
        assert(names_of(entry.1@) =~= Seq::<Seq<char>>::empty());
        match r {
            Some(i) => {
                self.thread_accesses.set(i, entry);
                assert(accesses_of(self.thread_accesses@) =~= am.update(i as int, em));
            },
            None => {
                self.thread_accesses.push(entry);
                assert(accesses_of(self.thread_accesses@) =~= am.push(em));
            },
        }
        id
    }

    /// Starts tracking socket `name` as uninitialized.
    pub fn init_socket(&mut self, name: &str)
        ensures
            final(self).sockets() == keyed_insert(old(self).sockets(), name@, SocketState::Uninitialized),
            final(self).locks() == old(self).locks(),
            final(self).accesses() == old(self).accesses(),
            final(self).synced() == old(self).synced(),
            final(self).found() == old(self).found(),
            final(self).next_thread() == old(self).next_thread(),
    {
        self.set_socket(name, SocketState::Uninitialized);
    }

    fn set_socket(&mut self, name: &str, state: SocketState)
        ensures
            final(self).sockets() == keyed_insert(old(self).sockets(), name@, state),
            final(self).locks() == old(self).locks(),
            final(self).accesses() == old(self).accesses(),
            final(self).synced() == old(self).synced(),
            final(self).found() == old(self).found(),
            final(self).next_thread() == old(self).next_thread(),
    {
        let ghost before = self.socket_states@;
        let r = find_str_key(&self.socket_states, name);
        proof { lemma_found_key(before, sockets_of(before), name@, r); }
        let entry = (String::from_str(name), state);
        let ghost em = (entry.0@, state);
        match r {
            Some(i) => {
                self.socket_states.set(i, entry);
                assert(sockets_of(self.socket_states@) =~= sockets_of(before).update(i as int, em));
            },
            None => {
                self.socket_states.push(entry);
                assert(sockets_of(self.socket_states@) =~= sockets_of(before).push(em));
            },
        }
    }

    /// Moves socket `name` to `to_state` when the lifecycle allows it (see
    /// [`socket_transition`]); otherwise records an invalid transition and leaves the
    /// state as it was. Returns whether the transition was allowed.
    pub fn transition_socket(&mut self, name: &str, to_state: SocketState) -> (r: bool)
        ensures
            r == socket_transition(socket_state(old(self).sockets(), name@), to_state),
            r ==> final(self).sockets() == keyed_insert(old(self).sockets(), name@, to_state)
                && final(self).found() == old(self).found(),
            !r ==> final(self).sockets() == old(self).sockets() && final(self).found() == old(self).found().push(
                msg_socket(socket_state(old(self).sockets(), name@), to_state)),
            final(self).locks() == old(self).locks(),
            final(self).accesses() == old(self).accesses(),
            final(self).synced() == old(self).synced(),
            final(self).next_thread() == old(self).next_thread(),
    {
        let ghost before = self.socket_states@;
        let r = find_str_key(&self.socket_states, name);
        proof { lemma_found_key(before, sockets_of(before), name@, r); }
        let current = match r {
            Some(i) => self.socket_states[i].1,
            None => SocketState::Uninitialized,
        };
        let valid = match (current, to_state) {
            (SocketState::Uninitialized, SocketState::Open) => true,
            (SocketState::Open, SocketState::Accepting) => true,
            (SocketState::Open, SocketState::Reading) => true,
            (SocketState::Open, SocketState::Writing) => true,
            (SocketState::Open, SocketState::Closed) => true,
            (SocketState::Accepting, SocketState::Reading) => true,
            (SocketState::Reading, SocketState::Reading) => true,
            (SocketState::Reading, SocketState::Closed) => true,
            (SocketState::Writing, SocketState::Writing) => true,
            (SocketState::Writing, SocketState::Closed) => true,
            _ => false,
        };
        if valid {
            self.set_socket(name, to_state);
            true
        } else {
            let mut m = String::from_str("Invalid socket transition ");
            m.append(current.name());
            m.append(" -> ");
            m.append(to_state.name());
            let ghost vb = self.violations@;
            self.violations.push(m);
            assert(names_of(self.violations@) =~= names_of(vb).push(m@));
            false
        }
    }

    fn race_reports(&self) -> (r: Vec<String>)
        ensures
            names_of(r@) == race_msgs(self.accesses(), self.synced(), accessed_vars(self.accesses())),
    {
        let ghost acc = self.accesses();
        let mut vars: Vec<String> = Vec::new();
        let mut t: usize = 0;
        while t < self.thread_accesses.len()
            invariant
                t <= self.thread_accesses@.len(),
                acc == self.accesses(),
                acc.len() == self.thread_accesses@.len(),
                names_of(vars@) == accessed_vars(acc.subrange(0, t as int)),
            decreases self.thread_accesses.len() - t,
        {
            let ghost pre = acc.subrange(0, t + 1);
            assert(pre.drop_last() =~= acc.subrange(0, t as int));
            let ghost d = accessed_vars(acc.subrange(0, t as int));
            let tv = &self.thread_accesses[t].1;
            assert(pre.last().1 == names_of(tv@));
            let mut m: usize = 0;
            while m < tv.len()
                invariant
                    m <= tv@.len(),
                    names_of(vars@) == add_new(d, names_of(tv@).subrange(0, m as int)),
                decreases tv.len() - m,
            {
                let ghost sub = names_of(tv@).subrange(0, m + 1);
                assert(sub.drop_last() =~= names_of(tv@).subrange(0, m as int));
                add_name(&mut vars, tv[m].as_str());
                m = m + 1;
            }
            assert(names_of(tv@).subrange(0, tv@.len() as int) =~= names_of(tv@));
            t = t + 1;
        }
        assert(acc.subrange(0, self.thread_accesses@.len() as int) =~= acc);
        let ghost all = names_of(vars@);
        let mut out: Vec<String> = Vec::new();
        let mut k: usize = 0;
        while k < vars.len()
            invariant
                k <= vars@.len(),
                acc == self.accesses(),
                acc.len() == self.thread_accesses@.len(),
                all == names_of(vars@),
                names_of(out@) == race_msgs(acc, self.synced(), all.subrange(0, k as int)),
            decreases vars.len() - k,
        {
            let ghost sub = all.subrange(0, k + 1);
            assert(sub.drop_last() =~= all.subrange(0, k as int));
            let v = vars[k].as_str();
            assert(sub.last() == v@);
            let count = self.count_threads(v);
            let synced = self.synchronized(v);
            if count >= 2 && !synced {
                let mut msg = quote_between("RACE CONDITION: Variable ", v, " accessed by ");
                append_decimal(&mut msg, count as u64);
                msg.append(" threads without synchronization");
                let ghost ob = out@;
                out.push(msg);
                assert(names_of(out@) =~= names_of(ob).push(msg_race(v@, count as nat)));
            }
            k = k + 1;
        }
        assert(all.subrange(0, vars@.len() as int) =~= all);
        out
    }

    fn count_threads(&self, v: &str) -> (r: usize)
        ensures
            r == thread_count(self.accesses(), v@),
    {
        let ghost acc = self.accesses();
        let mut count: usize = 0;
        let mut t: usize = 0;
        while t < self.thread_accesses.len()
            invariant
                t <= self.thread_accesses@.len(),
                acc == self.accesses(),
                acc.len() == self.thread_accesses@.len(),
                count == thread_count(acc.subrange(0, t as int), v@),
                count <= t,
            decreases self.thread_accesses.len() - t,
        {
            let ghost pre = acc.subrange(0, t + 1);
            assert(pre.drop_last() =~= acc.subrange(0, t as int));
            assert(pre.last().1 == names_of(self.thread_accesses@[t as int].1@));
            if contains_name(&self.thread_accesses[t].1, v) {
                count = count + 1;
            }
            t = t + 1;
        }
        assert(acc.subrange(0, self.thread_accesses@.len() as int) =~= acc);
        count
    }

    fn synchronized(&self, v: &str) -> (r: bool)
        ensures
            r == is_synchronized(self.synced(), v@),
    {
        let ghost before = self.synchronized_vars@;
        let r = find_str_key(&self.synchronized_vars, v);
        proof { lemma_found_key(before, synced_of(before), v@, r); }
        match r {
            Some(i) => self.synchronized_vars[i].1.len() > 0,
            None => false,
        }
    }

    /// Adds the deadlock risk (when the lock orders are circular) and a race report
    /// for each variable accessed by two threads or more without a lock (in order of
    /// first access) to the violations, and returns all violations.
    pub fn verify_all(&mut self) -> (r: Vec<String>)
        ensures
            final(self).found() == old(self).found() + (if has_lock_cycle(old(self).locks()) {
                seq![msg_deadlock()]
            } else {
                Seq::empty()
            }) + race_msgs(old(self).accesses(), old(self).synced(), accessed_vars(old(self).accesses())),
            names_of(r@) == final(self).found(),
            final(self).locks() == old(self).locks(),
            final(self).accesses() == old(self).accesses(),
            final(self).synced() == old(self).synced(),
            final(self).sockets() == old(self).sockets(),
            final(self).next_thread() == old(self).next_thread(),
    {
        let ghost v0 = self.violations@;
        if self.has_cycle_in_lock_graph() {
            self.violations.push(String::from_str(
                "DEADLOCK RISK: Circular lock dependency detected. Locks must be acquired in consistent order."));
        }
        let ghost v1 = self.violations@;
        assert(names_of(v1) =~= names_of(v0) + (if has_lock_cycle(old(self).locks()) {
            seq![msg_deadlock()]
        } else {
            Seq::empty()
        }));
        let races = self.race_reports();
        let mut k: usize = 0;
        while k < races.len()
            invariant
                k <= races@.len(),
                names_of(self.violations@) == names_of(v1) + names_of(races@).subrange(0, k as int),
                self.locks() == old(self).locks(),
                self.accesses() == old(self).accesses(),
                self.synced() == old(self).synced(),
                self.sockets() == old(self).sockets(),
                self.next_thread() == old(self).next_thread(),
            decreases races.len() - k,
        {
            let ghost vb = self.violations@;
            let item = races[k].clone();
            self.violations.push(item);
            proof {
                lemma_names_push(vb, item);
                assert(names_of(races@)[k as int] == races@[k as int]@);
                assert(names_of(races@).subrange(0, k + 1) =~= names_of(races@).subrange(0, k as int).push(races@[k as int]@));
            }
            assert(names_of(self.violations@) =~= names_of(v1) + names_of(races@).subrange(0, k + 1));
            k = k + 1;
        }
        assert(names_of(races@).subrange(0, races@.len() as int) =~= names_of(races@));
        let mut out: Vec<String> = Vec::new();
        let mut k: usize = 0;
        while k < self.violations.len()
            invariant
                k <= self.violations@.len(),
                names_of(out@) == names_of(self.violations@).subrange(0, k as int),
            decreases self.violations.len() - k,
        {
            let ghost ob = out@;
            let item = self.violations[k].clone();
            out.push(item);
            proof {
                lemma_names_push(ob, item);
                assert(names_of(self.violations@)[k as int] == self.violations@[k as int]@);
                assert(names_of(self.violations@).subrange(0, k + 1)
                    =~= names_of(self.violations@).subrange(0, k as int).push(self.violations@[k as int]@));
            }
            k = k + 1;
        }
        assert(names_of(self.violations@).subrange(0, self.violations@.len() as int) =~= names_of(self.violations@));
        out
    }

    /// The violations found so far.
    pub fn violations(&self) -> (r: &[String])
        ensures
            names_of(r@) == self.found(),
    {
        self.violations.as_slice()
    }

    /// Forgets the violations found so far.
    pub fn clear(&mut self)
        ensures
            final(self).found() == Seq::<Seq<char>>::empty(),
            final(self).locks() == old(self).locks(),
            final(self).accesses() == old(self).accesses(),
            final(self).synced() == old(self).synced(),
            final(self).sockets() == old(self).sockets(),
            final(self).next_thread() == old(self).next_thread(),
    {
        self.violations.clear();
        assert(names_of(self.violations@) =~= Seq::<Seq<char>>::empty());
    }
}

impl Default for NetworkVerifier {
    fn default() -> (r: Self)
        ensures
            r.locks().len() == 0,
            r.accesses().len() == 0,
            r.synced().len() == 0,
            r.sockets().len() == 0,
            r.found().len() == 0,
            r.next_thread() == 0,
    {
        Self::new()
    }
}


/// A closed socket is closed for good: no transition leaves the closed state.
pub proof fn law_closed_socket_is_final(to: SocketState)
    ensures
        !socket_transition(SocketState::Closed, to),
{
}

/// A socket is opened first: the only transition out of the uninitialized
/// state, which an untracked socket is in, is to open.
pub proof fn law_sockets_open_first(to: SocketState)
    ensures
        socket_transition(SocketState::Uninitialized, to) <==> to is Open,
{
}

/// After an allowed transition the socket is in the state it moved to, and
/// every other socket is in the state it was in.
pub proof fn law_transition_sets_state(
    sockets: Seq<(Seq<char>, SocketState)>,
    name: Seq<char>,
    to: SocketState,
    other: Seq<char>,
)
    ensures
        socket_state(keyed_insert(sockets, name, to), name) == to,
        other != name ==> socket_state(keyed_insert(sockets, name, to), other) == socket_state(sockets, other),
{
    lemma_keyed_insert_finds(sockets, name, to);
    if other != name {
        let t = keyed_insert(sockets, name, to);
        lemma_first_key(sockets, other);
        lemma_first_key(sockets, name);
        lemma_first_key(t, other);
        match first_key(sockets, other) {
            Some(i) => {
                assert forall|j: int| 0 <= j < i implies t[j].0 != other by {}
                lemma_first_key_scan(t, other, i);
            },
            None => {
                if let Some(x) = first_key(t, other) {
                    assert(t[x].0 == other);
                    assert(false);
                }
            },
        }
    }
}


/// Every socket that is in use can be closed: an open, reading or writing
/// socket may move to the closed state, and a reading or writing one may also
/// go on reading or writing.
pub proof fn law_busy_sockets_can_close(s: SocketState)
    ensures
        (s is Open || s is Reading || s is Writing) ==> socket_transition(s, SocketState::Closed),
        (s is Reading || s is Writing) ==> socket_transition(s, s),
{
}

} // verus!
