//! Ownership states along control-flow paths: branching, merging, and the
//! consistency checks for if/else, match and loops.
use vstd::prelude::*;
use crate::ownership_enforcement::{OwnershipState, quote_between, append_decimal, quoted};
use crate::text::{nat_decimal};

verus! {

/// The map that a list of entries denotes: later entries win.
pub open spec fn entries_map(es: Seq<(String, OwnershipState)>) -> Map<Seq<char>, OwnershipState>
    decreases es.len(),
{
    if es.len() == 0 {
        Map::empty()
    } else {
        entries_map(es.drop_last()).insert(es.last().0@, es.last().1)
    }
}

/// A map from binding names to ownership states.
#[derive(Clone, Debug)]
pub struct StateMap {
    entries: Vec<(String, OwnershipState)>,
}

impl View for StateMap {
    type V = Map<Seq<char>, OwnershipState>;

    closed spec fn view(&self) -> Map<Seq<char>, OwnershipState> {
        entries_map(self.entries@)
    }
}

pub proof fn lemma_entries_map(es: Seq<(String, OwnershipState)>, k: Seq<char>)
    ensures
        entries_map(es).dom().finite(),
        entries_map(es).contains_key(k) <==> exists|i: int| 0 <= i < es.len() && es[i].0@ == k,
        forall|i: int| 0 <= i < es.len() && es[i].0@ == k && (forall|j: int| i < j < es.len() ==> es[j].0@ != k)
            ==> entries_map(es)[k] == es[i].1,
    decreases es.len(),
{
    if es.len() > 0 {
        lemma_entries_map(es.drop_last(), k);
        if es.last().0@ != k {
            if entries_map(es).contains_key(k) {
                let i = choose|i: int| 0 <= i < es.len() - 1 && es.drop_last()[i].0@ == k;
                assert(es[i].0@ == k);
            }
            assert forall|i: int| 0 <= i < es.len() && es[i].0@ == k implies i < es.len() - 1 by {}
            assert forall|i: int| 0 <= i < es.len() - 1 && es[i].0@ == k implies es.drop_last()[i].0@ == k by {}
        }
    }
}

impl StateMap {
    /// Keys are unique.
    pub closed spec fn wf(&self) -> bool {
        forall|i: int, j: int| 0 <= i < j < self.entries@.len() ==> self.entries@[i].0@ != self.entries@[j].0@
    }

    /// The empty map.
    pub fn new() -> (r: Self)
        ensures
            r.wf(),
            r@ == Map::<Seq<char>, OwnershipState>::empty(),
    {
        StateMap { entries: Vec::new() }
    }

    fn find(&self, name: &str) -> (r: Option<usize>)
        requires
            self.wf(),
        ensures
            r matches Some(i) ==> i < self.entries@.len() && self.entries@[i as int].0@ == name@,
            r is None ==> forall|i: int| 0 <= i < self.entries@.len() ==> self.entries@[i].0@ != name@,
    {
        let mut k: usize = 0;
        while k < self.entries.len()
            invariant
                k <= self.entries@.len(),
                forall|i: int| 0 <= i < k ==> self.entries@[i].0@ != name@,
            decreases self.entries.len() - k,
        {
            if crate::text::str_eq(self.entries[k].0.as_str(), name) {
                return Some(k);
            }
            k = k + 1;
        }
        None
    }

    /// The state of `name`, if it has one.
    pub fn get(&self, name: &str) -> (r: Option<OwnershipState>)
        requires
            self.wf(),
        ensures
            r == if self@.contains_key(name@) { Some(self@[name@]) } else { None::<OwnershipState> },
    {
        proof { lemma_entries_map(self.entries@, name@); }
        match self.find(name) {
            Some(i) => Some(self.entries[i].1),
            None => None,
        }
    }

    /// Sets the state of `name`.
    pub fn insert(&mut self, name: String, state: OwnershipState)
        requires
            old(self).wf(),
        ensures
            final(self).wf(),
            final(self)@ == old(self)@.insert(name@, state),
    {
        let found = self.find(name.as_str());
        let ghost old_e = self.entries@;
        let ghost key = name@;
        match found {
            Some(i) => {
                self.entries.set(i, (name, state));
                proof {
                    assert forall|k: Seq<char>| #![auto] self@.contains_key(k) <==> old(self)@.insert(key, state).contains_key(k) by {
                        lemma_entries_map(self.entries@, k);
                        lemma_entries_map(old_e, k);
                        if k != key {
                            if old(self)@.contains_key(k) {
                                let j = choose|j: int| 0 <= j < old_e.len() && old_e[j].0@ == k;
                                assert(self.entries@[j].0@ == k);
                            }
                            if self@.contains_key(k) {
                                let j = choose|j: int| 0 <= j < self.entries@.len() && self.entries@[j].0@ == k;
                                assert(old_e[j].0@ == k);
                            }
                        } else {
                            assert(self.entries@[i as int].0@ == k);
                        }
                    }
                    assert forall|k: Seq<char>| #![auto] self@.contains_key(k) implies self@[k] == old(self)@.insert(key, state)[k] by {
                        lemma_entries_map(self.entries@, k);
                        lemma_entries_map(old_e, k);
                        if k != key {
                            let j = choose|j: int| 0 <= j < self.entries@.len() && self.entries@[j].0@ == k;
                            assert(old_e[j].0@ == k);
                            assert(self.entries@[j] == old_e[j]);
                        } else {
                            assert(self.entries@[i as int].0@ == k);
                        }
                    }
                    assert(self@ =~= old(self)@.insert(key, state));
                }
            },
            None => {
                self.entries.push((name, state));
                assert(self.entries@.drop_last() =~= old_e);
            },
        }
    }

    /// Number of names with a state.
    pub fn len(&self) -> (r: usize)
        requires
            self.wf(),
        ensures
            r == self@.len(),
    {
        proof { self.lemma_len(); }
        self.entries.len()
    }

    proof fn lemma_len(&self)
        requires
            self.wf(),
        ensures
            self@.len() == self.entries@.len(),
    {
        lemma_unique_len(self.entries@);
    }

    /// A copy with the same contents.
    pub fn duplicate(&self) -> (r: Self)
        requires
            self.wf(),
        ensures
            r.wf(),
            r@ == self@,
    {
        let mut out: Vec<(String, OwnershipState)> = Vec::new();
        let mut k: usize = 0;
        while k < self.entries.len()
            invariant
                k <= self.entries@.len(),
                out@.len() == k,
                forall|i: int| 0 <= i < k ==> out@[i].0@ == self.entries@[i].0@ && out@[i].1 == self.entries@[i].1,
            decreases self.entries.len() - k,
        {
            let name = self.entries[k].0.clone();
            out.push((name, self.entries[k].1));
            k = k + 1;
        }
        let r = StateMap { entries: out };
        proof {
            lemma_same_entries_map(r.entries@, self.entries@);
        }
        r
    }

    /// The names with a state, in insertion order.
    pub closed spec fn names(&self) -> Seq<Seq<char>> {
        self.entries@.map_values(|e: (String, OwnershipState)| e.0@)
    }

    pub proof fn lemma_names(&self)
        requires
            self.wf(),
        ensures
            forall|k: Seq<char>| #![auto] self@.contains_key(k) <==> self.names().contains(k),
    {
        assert forall|k: Seq<char>| #![auto] self@.contains_key(k) <==> self.names().contains(k) by {
            lemma_entries_map(self.entries@, k);
            if self@.contains_key(k) {
                let i = choose|i: int| 0 <= i < self.entries@.len() && self.entries@[i].0@ == k;
                assert(self.names()[i] == k);
            }
            if self.names().contains(k) {
                let i = choose|i: int| 0 <= i < self.names().len() && self.names()[i] == k;
                assert(self.entries@[i].0@ == k);
            }
        }
    }

    /// Number of entries (each name once).
    pub fn key_count(&self) -> (r: usize)
        ensures
            r == self.names().len(),
    {
        self.entries.len()
    }

    /// The `i`-th name in insertion order.
    pub fn key_at(&self, i: usize) -> (r: &String)
        requires
            i < self.names().len(),
        ensures
            r@ == self.names()[i as int],
    {
        &self.entries[i].0
    }
}

proof fn lemma_same_entries_map(a: Seq<(String, OwnershipState)>, b: Seq<(String, OwnershipState)>)
    requires
        a.len() == b.len(),
        forall|i: int| 0 <= i < a.len() ==> a[i].0@ == b[i].0@ && a[i].1 == b[i].1,
    ensures
        entries_map(a) == entries_map(b),
    decreases a.len(),
{
    if a.len() > 0 {
        lemma_same_entries_map(a.drop_last(), b.drop_last());
    }
}

proof fn lemma_unique_len(es: Seq<(String, OwnershipState)>)
    requires
        forall|i: int, j: int| 0 <= i < j < es.len() ==> es[i].0@ != es[j].0@,
    ensures
        entries_map(es).len() == es.len(),
        entries_map(es).dom().finite(),
    decreases es.len(),
{
    if es.len() > 0 {
        lemma_unique_len(es.drop_last());
        lemma_entries_map(es.drop_last(), es.last().0@);
        assert(!entries_map(es.drop_last()).contains_key(es.last().0@)) by {
            if entries_map(es.drop_last()).contains_key(es.last().0@) {
                let i = choose|i: int| 0 <= i < es.len() - 1 && es.drop_last()[i].0@ == es.last().0@;
                assert(es[i].0@ == es[es.len() - 1].0@);
            }
        }
    }
}


/// The mathematical value of a path: its id, its binding states, and whether it is reachable.
pub struct PathModel {
    pub path_id: usize,
    pub bindings: Map<Seq<char>, OwnershipState>,
    pub reachable: bool,
}

/// One control-flow path and the ownership state of each binding along it.
#[derive(Clone, Debug)]
pub struct ControlFlowPath {
    pub path_id: usize,
    pub bindings: StateMap,
    pub reachable: bool,
}

impl View for ControlFlowPath {
    type V = PathModel;

    open spec fn view(&self) -> PathModel {
        PathModel { path_id: self.path_id, bindings: self.bindings@, reachable: self.reachable }
    }
}

/// The paths through the current scope.
#[derive(Clone, Debug)]
pub struct ControlFlowGraph {
    pub paths: Vec<ControlFlowPath>,
    pub next_path_id: usize,
    pub convergence_points: Vec<usize>,
}

/// The states of `k` on the reachable paths that record one, in path order.
pub open spec fn reachable_states(ps: Seq<PathModel>, k: Seq<char>) -> Seq<OwnershipState>
    decreases ps.len(),
{
    if ps.len() == 0 {
        Seq::empty()
    } else {
        let rest = reachable_states(ps.drop_last(), k);
        let p = ps.last();
        if p.reachable && p.bindings.contains_key(k) {
            rest.push(p.bindings[k])
        } else {
            rest
        }
    }
}

pub proof fn lemma_reachable_states(ps: Seq<PathModel>, k: Seq<char>)
    ensures
        reachable_states(ps, k).len() > 0 <==> exists|i: int| 0 <= i < ps.len() && #[trigger] ps[i].reachable && ps[i].bindings.contains_key(k),
    decreases ps.len(),
{
    if ps.len() > 0 {
        lemma_reachable_states(ps.drop_last(), k);
        if reachable_states(ps.drop_last(), k).len() > 0 {
            let i = choose|i: int| 0 <= i < ps.len() - 1 && #[trigger] ps.drop_last()[i].reachable && ps.drop_last()[i].bindings.contains_key(k);
            assert(ps[i].reachable);
        }
        assert forall|i: int| 0 <= i < ps.len() - 1 && #[trigger] ps[i].reachable && ps[i].bindings.contains_key(k)
            implies ps.drop_last()[i].reachable && ps.drop_last()[i].bindings.contains_key(k) by {}
    }
}

/// All states in `s` equal the first.
pub open spec fn all_same(s: Seq<OwnershipState>) -> bool {
    forall|i: int| 0 <= i < s.len() ==> #[trigger] s[i] == s[0]
}

/// How disagreeing states merge at a convergence point: the common state if all
/// agree, else consumed if some path consumed the binding, else owned.
pub open spec fn merged_state(s: Seq<OwnershipState>) -> OwnershipState {
    if all_same(s) {
        s[0]
    } else if s.contains(OwnershipState::Consumed) {
        OwnershipState::Consumed
    } else {
        OwnershipState::Owned
    }
}

/// The merged state of every binding recorded on some reachable path.
pub open spec fn merged_map(ps: Seq<PathModel>) -> Map<Seq<char>, OwnershipState> {
    Map::new(|k: Seq<char>| reachable_states(ps, k).len() > 0, |k: Seq<char>| merged_state(reachable_states(ps, k)))
}

/// The paths after a branch point: each reachable path splits into two copies with
/// fresh ids, numbered from `next` in path order; unreachable paths stay as they are.
/// The second component is the next unused id.
pub open spec fn branched(ps: Seq<PathModel>, next: int) -> (Seq<PathModel>, int)
    decreases ps.len(),
{
    if ps.len() == 0 {
        (Seq::empty(), next)
    } else {
        let (pre, n) = branched(ps.drop_last(), next);
        let p = ps.last();
        if p.reachable {
            (pre.push(PathModel { path_id: n as usize, bindings: p.bindings, reachable: true })
                .push(PathModel { path_id: (n + 1) as usize, bindings: p.bindings, reachable: true }), n + 2)
        } else {
            (pre.push(p), n)
        }
    }
}

pub proof fn lemma_branched_next(ps: Seq<PathModel>, next: int)
    ensures
        next <= branched(ps, next).1 <= next + 2 * ps.len(),
    decreases ps.len(),
{
    if ps.len() > 0 {
        lemma_branched_next(ps.drop_last(), next);
    }
}

/// Some path is reachable.
pub open spec fn any_reachable(ps: Seq<PathModel>) -> bool {
    exists|i: int| 0 <= i < ps.len() && #[trigger] ps[i].reachable
}

/// The state of `k` as the graph reports it: on a single path, whatever that path
/// records; otherwise the common state of the reachable paths that record one,
/// consumed where they disagree, none where no reachable path records one.
pub open spec fn consensus_state(ps: Seq<PathModel>, k: Seq<char>) -> Option<OwnershipState> {
    if ps.len() == 1 {
        if ps[0].bindings.contains_key(k) { Some(ps[0].bindings[k]) } else { None }
    } else {
        let s = reachable_states(ps, k);
        if s.len() == 0 {
            None
        } else if all_same(s) {
            Some(s[0])
        } else {
            Some(OwnershipState::Consumed)
        }
    }
}

/// The number of reachable paths on which `k` is consumed.
pub open spec fn moved_count(ps: Seq<PathModel>, k: Seq<char>) -> nat
    decreases ps.len(),
{
    if ps.len() == 0 {
        0
    } else {
        moved_count(ps.drop_last(), k) + if ps.last().reachable && ps.last().bindings.contains_key(k)
            && ps.last().bindings[k] == OwnershipState::Consumed { 1nat } else { 0nat }
    }
}

/// The number of reachable paths.
pub open spec fn reachable_count(ps: Seq<PathModel>) -> nat
    decreases ps.len(),
{
    if ps.len() == 0 {
        0
    } else {
        reachable_count(ps.drop_last()) + if ps.last().reachable { 1nat } else { 0nat }
    }
}

pub proof fn lemma_counts(ps: Seq<PathModel>, k: Seq<char>)
    ensures
        moved_count(ps, k) <= reachable_count(ps) <= ps.len(),
        reachable_count(ps) > 0 <==> any_reachable(ps),
    decreases ps.len(),
{
    if ps.len() > 0 {
        lemma_counts(ps.drop_last(), k);
        if any_reachable(ps.drop_last()) {
            let i = choose|i: int| 0 <= i < ps.len() - 1 && #[trigger] ps.drop_last()[i].reachable;
            assert(ps[i].reachable);
        }
        if any_reachable(ps) && !ps.last().reachable {
            let i = choose|i: int| 0 <= i < ps.len() && #[trigger] ps[i].reachable;
            assert(ps.drop_last()[i].reachable);
        }
    }
}

pub open spec fn msg_inconsistent(name: Seq<char>, moved: nat, not_moved: nat) -> Seq<char> {
    "binding "@ + quoted(name) + " moved in "@ + nat_decimal(moved) + " but not "@ + nat_decimal(not_moved)
        + " reachable paths"@
}

/// The error messages of `check_consistent_moves` for the listed bindings, in order.
pub open spec fn inconsistent_msgs(ps: Seq<PathModel>, names: Seq<Seq<char>>) -> Seq<Seq<char>>
    decreases names.len(),
{
    if names.len() == 0 {
        Seq::empty()
    } else {
        let rest = inconsistent_msgs(ps, names.drop_last());
        let k = names.last();
        let m = moved_count(ps, k);
        let r = reachable_count(ps);
        if m > 0 && m < r {
            rest.push(msg_inconsistent(k, m, (r - m) as nat))
        } else {
            rest
        }
    }
}

/// The texts of a list of strings.
pub open spec fn texts(v: Seq<String>) -> Seq<Seq<char>> {
    crate::move_tracking::names_of(v)
}

/// The texts of a list of string slices.
pub open spec fn str_texts(v: Seq<&str>) -> Seq<Seq<char>> {
    v.map_values(|s: &str| s@)
}

/// `r` succeeds when `msgs` is empty and otherwise fails with exactly `msgs`.
pub open spec fn ok_or_all(r: Result<(), Vec<String>>, msgs: Seq<Seq<char>>) -> bool {
    match r {
        Ok(_) => msgs.len() == 0,
        Err(es) => msgs.len() > 0 && texts(es@) == msgs,
    }
}

/// The reachable paths, in order.
pub open spec fn reachable_only(ps: Seq<PathModel>) -> Seq<PathModel>
    decreases ps.len(),
{
    if ps.len() == 0 {
        Seq::empty()
    } else if ps.last().reachable {
        reachable_only(ps.drop_last()).push(ps.last())
    } else {
        reachable_only(ps.drop_last())
    }
}

/// The first position at or after `from` of a path with id `id`.
pub open spec fn first_with_id_from(ps: Seq<PathModel>, id: usize, from: int) -> Option<int>
    decreases ps.len() - from,
{
    if from < 0 || from >= ps.len() {
        None
    } else if ps[from].path_id == id {
        Some(from)
    } else {
        first_with_id_from(ps, id, from + 1)
    }
}

/// The first position of a path with id `id`.
pub open spec fn first_with_id(ps: Seq<PathModel>, id: usize) -> Option<int> {
    first_with_id_from(ps, id, 0)
}

/// The merged state of a non-empty list of states.
fn merged_of(states: &Vec<OwnershipState>) -> (r: OwnershipState)
    requires
        states@.len() > 0,
    ensures
        r == merged_state(states@),
{
    let first = states[0];
    let mut same = true;
    let mut consumed = false;
    let mut k: usize = 0;
    while k < states.len()
        invariant
            k <= states.len(),
            first == states@[0],
            same == forall|i: int| 0 <= i < k ==> #[trigger] states@[i] == first,
            consumed == exists|i: int| 0 <= i < k && #[trigger] states@[i] == OwnershipState::Consumed,
        decreases states.len() - k,
    {
        if states[k] != first {
            same = false;
        }
        if states[k] == OwnershipState::Consumed {
            consumed = true;
        }
        k = k + 1;
    }
    if same {
        first
    } else if consumed {
        assert(states@.contains(OwnershipState::Consumed));
        OwnershipState::Consumed
    } else {
        OwnershipState::Owned
    }
}

impl ControlFlowGraph {
    /// Every path's state map is well formed.
    pub open spec fn wf(&self) -> bool {
        forall|i: int| 0 <= i < self.paths@.len() ==> (#[trigger] self.paths@[i]).bindings.wf()
    }

    /// The paths, as models.
    pub open spec fn model(&self) -> Seq<PathModel> {
        self.paths@.map_values(|p: ControlFlowPath| p@)
    }

    /// One reachable path (id 0) with no bindings; the next id is 1.
    pub fn new() -> (r: Self)
        ensures
            r.wf(),
            r.model() == seq![PathModel { path_id: 0, bindings: Map::empty(), reachable: true }],
            r.next_path_id == 1,
            r.convergence_points@.len() == 0,
    {
        let mut paths = Vec::new();
        paths.push(ControlFlowPath { path_id: 0, bindings: StateMap::new(), reachable: true });
        let r = ControlFlowGraph { paths, next_path_id: 1, convergence_points: Vec::new() };
        assert(r.model() =~= seq![PathModel { path_id: 0, bindings: Map::empty(), reachable: true }]);
        r
    }

    /// A branch point: every reachable path splits in two (see [`branched`]).
    pub fn branch(&mut self)
        requires
            old(self).wf(),
            old(self).next_path_id + 2 * old(self).paths@.len() <= usize::MAX,
        ensures
            final(self).wf(),
            final(self).model() == branched(old(self).model(), old(self).next_path_id as int).0,
            final(self).next_path_id == branched(old(self).model(), old(self).next_path_id as int).1,
            final(self).convergence_points == old(self).convergence_points,
    {
        let ghost ps = self.model();
        let ghost start = self.next_path_id as int;
        let mut out: Vec<ControlFlowPath> = Vec::new();
        let mut k: usize = 0;
        while k < self.paths.len()
            invariant
                k <= self.paths@.len(),
                ps == self.model(),
                start == old(self).next_path_id,
                self.paths == old(self).paths,
                self.convergence_points == old(self).convergence_points,
                self.wf(),
                start + 2 * self.paths@.len() <= usize::MAX,
                out@.map_values(|p: ControlFlowPath| p@) == branched(ps.subrange(0, k as int), start).0,
                self.next_path_id == branched(ps.subrange(0, k as int), start).1,
                forall|i: int| 0 <= i < out@.len() ==> (#[trigger] out@[i]).bindings.wf(),
            decreases self.paths.len() - k,
        {
            proof {
                assert(ps.subrange(0, k + 1).drop_last() =~= ps.subrange(0, k as int));
                lemma_branched_next(ps.subrange(0, k as int), start);
            }
            let ghost before = out@;
            if self.paths[k].reachable {
                let id = self.next_path_id;
                let b1 = self.paths[k].bindings.duplicate();
                let b2 = self.paths[k].bindings.duplicate();
                out.push(ControlFlowPath { path_id: id, bindings: b1, reachable: true });
                out.push(ControlFlowPath { path_id: id + 1, bindings: b2, reachable: true });
                self.next_path_id = id + 2;
                assert(out@.map_values(|p: ControlFlowPath| p@) =~= before.map_values(|p: ControlFlowPath| p@)
                    .push(PathModel { path_id: id, bindings: ps[k as int].bindings, reachable: true })
                    .push(PathModel { path_id: (id + 1) as usize, bindings: ps[k as int].bindings, reachable: true }));
            } else {
                let b = self.paths[k].bindings.duplicate();
                out.push(ControlFlowPath { path_id: self.paths[k].path_id, bindings: b, reachable: false });
                assert(out@.map_values(|p: ControlFlowPath| p@) =~= before.map_values(|p: ControlFlowPath| p@).push(ps[k as int]));
            }
            k = k + 1;
        }
        assert(ps.subrange(0, self.paths@.len() as int) =~= ps);
        self.paths = out;
    }

    fn states_for(&self, name: &str) -> (r: Vec<OwnershipState>)
        requires
            self.wf(),
        ensures
            r@ == reachable_states(self.model(), name@),
    {
        let ghost ps = self.model();
        let mut out: Vec<OwnershipState> = Vec::new();
        let mut k: usize = 0;
        while k < self.paths.len()
            invariant
                k <= self.paths@.len(),
                ps == self.model(),
                self.wf(),
                out@ == reachable_states(ps.subrange(0, k as int), name@),
            decreases self.paths.len() - k,
        {
            proof { assert(ps.subrange(0, k + 1).drop_last() =~= ps.subrange(0, k as int)); }
            if self.paths[k].reachable {
                match self.paths[k].bindings.get(name) {
                    Some(st) => out.push(st),
                    None => {},
                }
            }
            k = k + 1;
        }
        assert(ps.subrange(0, self.paths@.len() as int) =~= ps);
        out
    }

    /// Merges all paths at a convergence point. With no paths nothing changes and the
    /// result is empty. Otherwise the result is [`merged_map`] of the paths, and the
    /// paths become one path with the next id, those merged states, and reachable iff
    /// some path was; that id is recorded as a convergence point.
    pub fn merge(&mut self) -> (r: StateMap)
        requires
            old(self).wf(),
            old(self).next_path_id < usize::MAX,
        ensures
            final(self).wf(),
            r.wf(),
            old(self).paths@.len() == 0 ==> *final(self) == *old(self) && r@ == Map::<Seq<char>, OwnershipState>::empty(),
            old(self).paths@.len() > 0 ==> {
                &&& r@ == merged_map(old(self).model())
                &&& final(self).model() == seq![PathModel {
                    path_id: old(self).next_path_id,
                    bindings: merged_map(old(self).model()),
                    reachable: any_reachable(old(self).model()),
                }]
                &&& final(self).next_path_id == old(self).next_path_id + 1
                &&& final(self).convergence_points@ == old(self).convergence_points@.push(old(self).next_path_id)
            },
    {
        if self.paths.len() == 0 {
            return StateMap::new();
        }
        let ghost ps = self.model();
        let mut merged = StateMap::new();
        let mut any = false;
        let mut i: usize = 0;
        while i < self.paths.len()
            invariant
                i <= self.paths@.len(),
                ps == self.model(),
                self.wf(),
                merged.wf(),
                any == exists|p: int| 0 <= p < i && #[trigger] ps[p].reachable,
                forall|k: Seq<char>| #![auto] merged@.contains_key(k) <==>
                    exists|p: int| 0 <= p < i && #[trigger] ps[p].reachable && ps[p].bindings.contains_key(k),
                forall|k: Seq<char>| #![auto] merged@.contains_key(k) ==> merged@[k] == merged_state(reachable_states(ps, k)),
            decreases self.paths.len() - i,
        {
            if self.paths[i].reachable {
                any = true;
                let n = self.paths[i].bindings.key_count();
                proof { self.paths@[i as int].bindings.lemma_names(); }
                let mut j: usize = 0;
                while j < n
                    invariant
                        j <= n,
                        i < self.paths@.len(),
                        n == self.paths@[i as int].bindings.names().len(),
                        ps == self.model(),
                        self.wf(),
                        merged.wf(),
                        ps[i as int].reachable,
                        forall|k: Seq<char>| #![auto] self.paths@[i as int].bindings@.contains_key(k)
                            <==> self.paths@[i as int].bindings.names().contains(k),
                        forall|k: Seq<char>| #![auto] merged@.contains_key(k) <==>
                            (exists|p: int| 0 <= p < i && #[trigger] ps[p].reachable && ps[p].bindings.contains_key(k))
                            || self.paths@[i as int].bindings.names().subrange(0, j as int).contains(k),
                        forall|k: Seq<char>| #![auto] merged@.contains_key(k) ==> merged@[k] == merged_state(reachable_states(ps, k)),
                    decreases n - j,
                {
                    let key = self.paths[i].bindings.key_at(j);
                    let ghost names = self.paths@[i as int].bindings.names();
                    if merged.get(key.as_str()).is_none() {
                        proof {
                            assert(names[j as int] == key@);
                            assert(names.contains(key@));
                            assert(ps[i as int].bindings.contains_key(key@));
                            lemma_reachable_states(ps, key@);
                        }
                        let st = self.states_for(key.as_str());
                        let m = merged_of(&st);
                        merged.insert(key.clone(), m);
                    }
                    proof {
                        assert forall|k: Seq<char>| #![auto] names.subrange(0, j + 1).contains(k)
                            <==> names.subrange(0, j as int).contains(k) || k == names[j as int] by {
                            if names.subrange(0, j + 1).contains(k) {
                                let x = choose|x: int| 0 <= x < j + 1 && #[trigger] names.subrange(0, j + 1)[x] == k;
                                if x < j {
                                    assert(names.subrange(0, j as int)[x] == k);
                                }
                            }
                            if names.subrange(0, j as int).contains(k) {
                                let x = choose|x: int| 0 <= x < j && #[trigger] names.subrange(0, j as int)[x] == k;
                                assert(names.subrange(0, j + 1)[x] == k);
                            }
                            if k == names[j as int] {
                                assert(names.subrange(0, j + 1)[j as int] == k);
                            }
                        }
                    }
                    j = j + 1;
                }
                proof {
                    let names = self.paths@[i as int].bindings.names();
                    assert(names.subrange(0, n as int) =~= names);
                    assert forall|k: Seq<char>| #![auto] merged@.contains_key(k) <==>
                        exists|p: int| 0 <= p < i + 1 && #[trigger] ps[p].reachable && ps[p].bindings.contains_key(k) by {
                        if names.contains(k) {
                            assert(ps[i as int].bindings.contains_key(k));
                        }
                        if exists|p: int| 0 <= p < i + 1 && #[trigger] ps[p].reachable && ps[p].bindings.contains_key(k) {
                            let p = choose|p: int| 0 <= p < i + 1 && #[trigger] ps[p].reachable && ps[p].bindings.contains_key(k);
                            if p == i {
                                assert(names.contains(k));
                            }
                        }
                    }
                }
            } else {
                proof {
                    assert forall|k: Seq<char>| #![auto] merged@.contains_key(k) <==>
                        exists|p: int| 0 <= p < i + 1 && #[trigger] ps[p].reachable && ps[p].bindings.contains_key(k) by {
                        if exists|p: int| 0 <= p < i + 1 && #[trigger] ps[p].reachable && ps[p].bindings.contains_key(k) {
                            let p = choose|p: int| 0 <= p < i + 1 && #[trigger] ps[p].reachable && ps[p].bindings.contains_key(k);
                            assert(p < i);
                        }
                    }
                }
            }
            i = i + 1;
        }
        proof {
            assert forall|k: Seq<char>| #![auto] merged@.contains_key(k) <==> merged_map(ps).contains_key(k) by {
                lemma_reachable_states(ps, k);
            }
            assert(merged@ =~= merged_map(ps));
        }
        let id = self.next_path_id;
        let copy = merged.duplicate();
        self.paths = Vec::new();
        self.paths.push(ControlFlowPath { path_id: id, bindings: copy, reachable: any });
        self.next_path_id = id + 1;
        self.convergence_points.push(id);
        proof {
            assert(self.model() =~= seq![PathModel { path_id: id, bindings: merged_map(ps), reachable: any_reachable(ps) }]);
        }
        merged
    }

    /// Every reachable path records `binding` as consumed.
    pub fn record_move_in_all(&mut self, binding: &str)
        requires
            old(self).wf(),
        ensures
            final(self).wf(),
            final(self).next_path_id == old(self).next_path_id,
            final(self).convergence_points == old(self).convergence_points,
            final(self).model().len() == old(self).model().len(),
            forall|i: int| 0 <= i < old(self).model().len() ==> #[trigger] final(self).model()[i] == if old(self).model()[i].reachable {
                PathModel { bindings: old(self).model()[i].bindings.insert(binding@, OwnershipState::Consumed), ..old(self).model()[i] }
            } else {
                old(self).model()[i]
            },
    {
        self.set_in_reachable(binding, OwnershipState::Consumed);
    }

    /// Every reachable path records `binding` as borrowed (mutably or not).
    pub fn record_borrow_in_all(&mut self, binding: &str, is_mutable: bool)
        requires
            old(self).wf(),
        ensures
            final(self).wf(),
            final(self).next_path_id == old(self).next_path_id,
            final(self).convergence_points == old(self).convergence_points,
            final(self).model().len() == old(self).model().len(),
            forall|i: int| 0 <= i < old(self).model().len() ==> #[trigger] final(self).model()[i] == if old(self).model()[i].reachable {
                PathModel {
                    bindings: old(self).model()[i].bindings.insert(binding@,
                        if is_mutable { OwnershipState::BorrowedMut } else { OwnershipState::BorrowedImmut }),
                    ..old(self).model()[i]
                }
            } else {
                old(self).model()[i]
            },
    {
        let state = if is_mutable { OwnershipState::BorrowedMut } else { OwnershipState::BorrowedImmut };
        self.set_in_reachable(binding, state);
    }

    fn set_in_reachable(&mut self, binding: &str, state: OwnershipState)
        requires
            old(self).wf(),
        ensures
            final(self).wf(),
            final(self).next_path_id == old(self).next_path_id,
            final(self).convergence_points == old(self).convergence_points,
            final(self).model().len() == old(self).model().len(),
            forall|i: int| 0 <= i < old(self).model().len() ==> #[trigger] final(self).model()[i] == if old(self).model()[i].reachable {
                PathModel { bindings: old(self).model()[i].bindings.insert(binding@, state), ..old(self).model()[i] }
            } else {
                old(self).model()[i]
            },
    {
        let ghost ps = self.model();
        let mut k: usize = 0;
        while k < self.paths.len()
            invariant
                k <= self.paths@.len(),
                self.paths@.len() == ps.len(),
                self.wf(),
                self.next_path_id == old(self).next_path_id,
                self.convergence_points == old(self).convergence_points,
                ps == old(self).model(),
                forall|i: int| 0 <= i < k ==> #[trigger] self.model()[i] == if ps[i].reachable {
                    PathModel { bindings: ps[i].bindings.insert(binding@, state), ..ps[i] }
                } else {
                    ps[i]
                },
                forall|i: int| k <= i < ps.len() ==> #[trigger] self.model()[i] == ps[i],
            decreases self.paths.len() - k,
        {
            let ghost before = self.paths@;
            let ghost before_model = self.model();
            assert(before_model[k as int] == ps[k as int]);
            if self.paths[k].reachable {
                let mut p = self.paths.remove(k);
                p.bindings.insert(String::from_str(binding), state);
                self.paths.insert(k, p);
                assert(self.paths@ =~= before.update(k as int, p));
                assert(self.model() =~= before_model.update(k as int, p@));
                assert forall|i: int| 0 <= i < self.paths@.len() implies (#[trigger] self.paths@[i]).bindings.wf() by {
                    if i != k {
                        assert(self.paths@[i] == before[i]);
                    }
                }
            }
            assert(self.model()[k as int] == if ps[k as int].reachable {
                PathModel { bindings: ps[k as int].bindings.insert(binding@, state), ..ps[k as int] }
            } else {
                ps[k as int]
            });
            k = k + 1;
        }
    }

    /// The state of `name` (see [`consensus_state`]).
    #[verifier::loop_isolation(false)]
    pub fn get_binding_state(&self, name: &str) -> (r: Option<OwnershipState>)
        requires
            self.wf(),
        ensures
            r == consensus_state(self.model(), name@),
    {
        assert(self.model().len() == self.paths@.len());
        if self.paths.len() == 1 {
            return self.paths[0].bindings.get(name);
        }
        let states = self.states_for(name);
        if states.len() == 0 {
            return None;
        }
        let first = states[0];
        let mut k: usize = 0;
        while k < states.len()
            invariant
                k <= states.len(),
                first == states@[0],
                forall|i: int| 0 <= i < k ==> states@[i] == first,
            decreases states.len() - k,
        {
            if states[k] != first {
                assert(states@[k as int] != states@[0]);
                assert(!all_same(states@));
                assert(self.model().len() != 1);
                assert(states@ == reachable_states(self.model(), name@));
                return Some(OwnershipState::Consumed);
            }
            k = k + 1;
        }
        Some(first)
    }

    fn counts_for(&self, name: &str) -> (r: (usize, usize))
        requires
            self.wf(),
        ensures
            r.0 == moved_count(self.model(), name@),
            r.1 == reachable_count(self.model()),
    {
        let ghost ps = self.model();
        let mut moved: usize = 0;
        let mut reach: usize = 0;
        let mut k: usize = 0;
        while k < self.paths.len()
            invariant
                k <= self.paths@.len(),
                ps == self.model(),
                self.wf(),
                moved == moved_count(ps.subrange(0, k as int), name@),
                reach == reachable_count(ps.subrange(0, k as int)),
            decreases self.paths.len() - k,
        {
            proof {
                assert(ps.subrange(0, k + 1).drop_last() =~= ps.subrange(0, k as int));
                lemma_counts(ps.subrange(0, k as int), name@);
            }
            if self.paths[k].reachable {
                reach = reach + 1;
                if self.paths[k].bindings.get(name) == Some(OwnershipState::Consumed) {
                    moved = moved + 1;
                }
            }
            k = k + 1;
        }
        assert(ps.subrange(0, self.paths@.len() as int) =~= ps);
        (moved, reach)
    }

    /// Each listed linear binding must be consumed on all reachable paths or on none;
    /// one message per binding consumed on some but not all (see [`inconsistent_msgs`]).
    /// With no reachable path the check passes.
    pub fn check_consistent_moves(&self, linear_bindings: &[&str]) -> (r: Result<(), Vec<String>>)
        requires
            self.wf(),
        ensures
            !any_reachable(self.model()) ==> r is Ok,
            any_reachable(self.model()) ==> ok_or_all(r, inconsistent_msgs(self.model(), str_texts(linear_bindings@))),
    {
        let mut any = false;
        let mut k: usize = 0;
        while k < self.paths.len()
            invariant
                k <= self.paths@.len(),
                any == exists|p: int| 0 <= p < k && #[trigger] self.model()[p].reachable,
            decreases self.paths.len() - k,
        {
            assert(self.model()[k as int].reachable == self.paths@[k as int].reachable);
            if self.paths[k].reachable {
                any = true;
            }
            k = k + 1;
        }
        if !any {
            return Ok(());
        }
        let ghost names = str_texts(linear_bindings@);
        let mut errors: Vec<String> = Vec::new();
        let mut b: usize = 0;
        while b < linear_bindings.len()
            invariant
                b <= linear_bindings@.len(),
                names == str_texts(linear_bindings@),
                self.wf(),
                texts(errors@) == inconsistent_msgs(self.model(), names.subrange(0, b as int)),
            decreases linear_bindings.len() - b,
        {
            proof { assert(names.subrange(0, b + 1).drop_last() =~= names.subrange(0, b as int)); }
            let name = linear_bindings[b];
            let (moved, reach) = self.counts_for(name);
            proof { lemma_counts(self.model(), name@); }
            if moved > 0 && moved < reach {
                let mut msg = quote_between("binding ", name, " moved in ");
                append_decimal(&mut msg, moved as u64);
                msg.append(" but not ");
                append_decimal(&mut msg, (reach - moved) as u64);
                msg.append(" reachable paths");
                let ghost before = errors@;
                errors.push(msg);
                assert(texts(errors@) =~= texts(before).push(msg@));
            }
            b = b + 1;
        }
        assert(names.subrange(0, linear_bindings@.len() as int) =~= names);
        if errors.len() == 0 {
            Ok(())
        } else {
            Err(errors)
        }
    }

    /// The reachable paths, in order.
    pub fn reachable_paths(&self) -> (r: Vec<&ControlFlowPath>)
        ensures
            r@.map_values(|p: &ControlFlowPath| p@) == reachable_only(self.model()),
    {
        let ghost ps = self.model();
        let mut out: Vec<&ControlFlowPath> = Vec::new();
        let mut k: usize = 0;
        while k < self.paths.len()
            invariant
                k <= self.paths@.len(),
                ps == self.model(),
                out@.map_values(|p: &ControlFlowPath| p@) == reachable_only(ps.subrange(0, k as int)),
            decreases self.paths.len() - k,
        {
            proof { assert(ps.subrange(0, k + 1).drop_last() =~= ps.subrange(0, k as int)); }
            let ghost before = out@;
            if self.paths[k].reachable {
                out.push(&self.paths[k]);
                assert(out@.map_values(|p: &ControlFlowPath| p@) =~= before.map_values(|p: &ControlFlowPath| p@).push(ps[k as int]));
            }
            k = k + 1;
        }
        assert(ps.subrange(0, self.paths@.len() as int) =~= ps);
        out
    }

    /// The first path with id `path_id`, if any, becomes unreachable.
    pub fn mark_unreachable(&mut self, path_id: usize)
        requires
            old(self).wf(),
        ensures
            final(self).wf(),
            final(self).next_path_id == old(self).next_path_id,
            final(self).convergence_points == old(self).convergence_points,
            final(self).model() == match first_with_id(old(self).model(), path_id) {
                Some(i) => old(self).model().update(i, PathModel { reachable: false, ..old(self).model()[i] }),
                None => old(self).model(),
            },
    {
        let ghost ps = self.model();
        let mut k: usize = 0;
        while k < self.paths.len()
            invariant
                k <= self.paths@.len(),
                ps == self.model(),
                *self == *old(self),
                self.wf(),
                first_with_id(ps, path_id) == first_with_id_from(ps, path_id, k as int),
            decreases self.paths.len() - k,
        {
            assert(ps[k as int].path_id == self.paths@[k as int].path_id);
            if self.paths[k].path_id == path_id {
                let ghost before = self.paths@;
                let mut p = self.paths.remove(k);
                p.reachable = false;
                self.paths.insert(k, p);
                assert(self.paths@ =~= before.update(k as int, p));
                assert(self.model() =~= ps.update(k as int, PathModel { reachable: false, ..ps[k as int] }));
                assert forall|i: int| 0 <= i < self.paths@.len() implies (#[trigger] self.paths@[i]).bindings.wf() by {
                    if i != k {
                        assert(self.paths@[i] == before[i]);
                    } else {
                        assert(self.paths@[i].bindings == before[i].bindings);
                    }
                }
                return;
            }
            k = k + 1;
        }
    }
}

/// The state after an if/else for a binding recorded in one or both branches: the
/// common state if they agree, consumed if either branch consumed it, else owned;
/// the recorded state where only one branch records it.
pub open spec fn if_else_state(t: Map<Seq<char>, OwnershipState>, e: Map<Seq<char>, OwnershipState>, k: Seq<char>) -> OwnershipState {
    if t.contains_key(k) && e.contains_key(k) {
        if t[k] == e[k] {
            t[k]
        } else if t[k] == OwnershipState::Consumed || e[k] == OwnershipState::Consumed {
            OwnershipState::Consumed
        } else {
            OwnershipState::Owned
        }
    } else if t.contains_key(k) {
        t[k]
    } else {
        e[k]
    }
}

/// The states after an if/else, for every binding recorded in either branch.
pub open spec fn if_else_map(t: Map<Seq<char>, OwnershipState>, e: Map<Seq<char>, OwnershipState>) -> Map<Seq<char>, OwnershipState> {
    Map::new(|k: Seq<char>| t.contains_key(k) || e.contains_key(k), |k: Seq<char>| if_else_state(t, e, k))
}

/// The states of `k` in the match branches that record one, in branch order.
pub open spec fn branch_states(bs: Seq<Map<Seq<char>, OwnershipState>>, k: Seq<char>) -> Seq<OwnershipState>
    decreases bs.len(),
{
    if bs.len() == 0 {
        Seq::empty()
    } else if bs.last().contains_key(k) {
        branch_states(bs.drop_last(), k).push(bs.last()[k])
    } else {
        branch_states(bs.drop_last(), k)
    }
}

/// `k` is recorded in some branch.
pub open spec fn in_some_branch(bs: Seq<Map<Seq<char>, OwnershipState>>, k: Seq<char>) -> bool {
    exists|i: int| 0 <= i < bs.len() && #[trigger] bs[i].contains_key(k)
}

/// The branches disagree on `k`.
pub open spec fn conflicted(bs: Seq<Map<Seq<char>, OwnershipState>>, k: Seq<char>) -> bool {
    in_some_branch(bs, k) && !all_same(branch_states(bs, k))
}

pub proof fn lemma_branch_states(bs: Seq<Map<Seq<char>, OwnershipState>>, k: Seq<char>)
    ensures
        branch_states(bs, k).len() > 0 <==> in_some_branch(bs, k),
    decreases bs.len(),
{
    if bs.len() > 0 {
        lemma_branch_states(bs.drop_last(), k);
        if in_some_branch(bs.drop_last(), k) {
            let i = choose|i: int| 0 <= i < bs.len() - 1 && #[trigger] bs.drop_last()[i].contains_key(k);
            assert(bs[i].contains_key(k));
        }
        if in_some_branch(bs, k) && !bs.last().contains_key(k) {
            let i = choose|i: int| 0 <= i < bs.len() && #[trigger] bs[i].contains_key(k);
            assert(bs.drop_last()[i].contains_key(k));
        }
    }
}

pub open spec fn msg_match_conflict(name: Seq<char>) -> Seq<char> {
    "binding "@ + quoted(name) + " has different ownership states in different match branches"@
}

pub open spec fn msg_loop_not_consumed(name: Seq<char>) -> Seq<char> {
    "linear binding "@ + quoted(name) + " not consumed in loop body"@
}

/// The loop errors for the listed linear bindings, in order: one for each that the
/// loop body leaves owned or does not record.
pub open spec fn loop_msgs(m: Map<Seq<char>, OwnershipState>, names: Seq<Seq<char>>) -> Seq<Seq<char>>
    decreases names.len(),
{
    if names.len() == 0 {
        Seq::empty()
    } else {
        let rest = loop_msgs(m, names.drop_last());
        let k = names.last();
        if !m.contains_key(k) || m[k] == OwnershipState::Owned {
            rest.push(msg_loop_not_consumed(k))
        } else {
            rest
        }
    }
}

/// The models of a list of state maps.
pub open spec fn maps_of(v: Seq<StateMap>) -> Seq<Map<Seq<char>, OwnershipState>> {
    v.map_values(|m: StateMap| m@)
}

/// Ownership analysis of if/else, match and loops.
pub struct OwnershipFlowAnalyzer;

impl OwnershipFlowAnalyzer {
    /// The states after an if/else (see [`if_else_map`]); the condition plays no part.
    pub fn analyze_if_else(condition: &str, then_bindings: StateMap, else_bindings: StateMap) -> (r: StateMap)
        requires
            then_bindings.wf(),
            else_bindings.wf(),
        ensures
            r.wf(),
            r@ == if_else_map(then_bindings@, else_bindings@),
    {
        let ghost t = then_bindings@;
        let ghost e = else_bindings@;
        let mut merged = StateMap::new();
        proof { then_bindings.lemma_names(); else_bindings.lemma_names(); }
        let ghost tn = then_bindings.names();
        let n = then_bindings.key_count();
        let mut j: usize = 0;
        while j < n
            invariant
                j <= n,
                n == tn.len(),
                tn == then_bindings.names(),
                t == then_bindings@,
                e == else_bindings@,
                then_bindings.wf(),
                else_bindings.wf(),
                merged.wf(),
                forall|k: Seq<char>| #[trigger] t.contains_key(k) <==> tn.contains(k),
                forall|k: Seq<char>| #[trigger] merged@.contains_key(k) <==> prefix_has(tn, j as int, k),
                forall|k: Seq<char>| #[trigger] merged@.contains_key(k) ==> merged@[k] == if_else_state(t, e, k),
            decreases n - j,
        {
            let key = then_bindings.key_at(j);
            proof { assert(tn[j as int] == key@); assert(tn.contains(key@)); lemma_prefix_has_step(tn, j as int); }
            let s1 = then_bindings.get(key.as_str()).unwrap();
            let st = match else_bindings.get(key.as_str()) {
                Some(s2) => {
                    if s1 == s2 {
                        s1
                    } else if s1 == OwnershipState::Consumed || s2 == OwnershipState::Consumed {
                        OwnershipState::Consumed
                    } else {
                        OwnershipState::Owned
                    }
                },
                None => s1,
            };
            merged.insert(key.clone(), st);
            j = j + 1;
        }
        proof { lemma_prefix_has_all(tn); }
        let ghost en = else_bindings.names();
        let m = else_bindings.key_count();
        let mut j: usize = 0;
        while j < m
            invariant
                j <= m,
                m == en.len(),
                en == else_bindings.names(),
                t == then_bindings@,
                e == else_bindings@,
                then_bindings.wf(),
                else_bindings.wf(),
                merged.wf(),
                forall|k: Seq<char>| #[trigger] e.contains_key(k) <==> en.contains(k),
                forall|k: Seq<char>| #[trigger] merged@.contains_key(k) <==> t.contains_key(k) || prefix_has(en, j as int, k),
                forall|k: Seq<char>| #[trigger] merged@.contains_key(k) ==> merged@[k] == if_else_state(t, e, k),
            decreases m - j,
        {
            let key = else_bindings.key_at(j);
            proof { assert(en[j as int] == key@); assert(en.contains(key@)); lemma_prefix_has_step(en, j as int); }
            if then_bindings.get(key.as_str()).is_none() {
                let s2 = else_bindings.get(key.as_str()).unwrap();
                merged.insert(key.clone(), s2);
            }
            j = j + 1;
        }
        proof {
            lemma_prefix_has_all(en);
            assert(merged@ =~= if_else_map(t, e));
        }
        merged
    }

    /// The states after a match. When no binding has different states in different
    /// branches, every binding recorded in some branch keeps the state that its
    /// branches record. Otherwise the error holds one message per such binding, in the
    /// order of some enumeration of the recorded names.
    pub fn analyze_match(scrutinee: &str, branch_bindings: Vec<StateMap>) -> (r: Result<StateMap, Vec<String>>)
        requires
            forall|i: int| 0 <= i < branch_bindings@.len() ==> (#[trigger] branch_bindings@[i]).wf(),
        ensures
            ({
                let bs = maps_of(branch_bindings@);
                match r {
                    Ok(m) => m.wf() && (forall|k: Seq<char>| !conflicted(bs, k)) && m@ == Map::new(
                        |k: Seq<char>| in_some_branch(bs, k),
                        |k: Seq<char>| branch_states(bs, k)[0],
                    ),
                    Err(es) => (exists|k: Seq<char>| conflicted(bs, k)) && exists|ns: Seq<Seq<char>>|
                        #[trigger] enumerates(bs, ns) && texts(es@) == conflict_msgs(bs, ns),
                }
            }),
    {
        let ghost bs = maps_of(branch_bindings@);
        let names = collect_names(&branch_bindings);
        let ghost ns = texts(names@);
        let mut merged = StateMap::new();
        let mut errors: Vec<String> = Vec::new();
        let mut i: usize = 0;
        while i < names.len()
            invariant
                i <= names@.len(),
                ns == texts(names@),
                bs == maps_of(branch_bindings@),
                enumerates(bs, ns),
                forall|x: int| 0 <= x < branch_bindings@.len() ==> (#[trigger] branch_bindings@[x]).wf(),
                merged.wf(),
                forall|k: Seq<char>| #[trigger] merged@.contains_key(k) <==> prefix_has(ns, i as int, k) && !conflicted(bs, k),
                forall|k: Seq<char>| #[trigger] merged@.contains_key(k) ==> merged@[k] == branch_states(bs, k)[0],
                texts(errors@) == conflict_msgs(bs, ns.subrange(0, i as int)),
            decreases names.len() - i,
        {
            let key = &names[i];
            proof {
                assert(ns[i as int] == key@);
                assert(ns.contains(key@));
                lemma_prefix_has_step(ns, i as int);
                lemma_branch_states(bs, key@);
                assert(ns.subrange(0, i + 1).drop_last() =~= ns.subrange(0, i as int));
            }
            let states = present_states(&branch_bindings, key.as_str());
            if all_equal(&states) {
                merged.insert(key.clone(), states[0]);
            } else {
                let msg = quote_between("binding ", key.as_str(), " has different ownership states in different match branches");
                let ghost before = errors@;
                errors.push(msg);
                assert(texts(errors@) =~= texts(before).push(msg@));
            }
            i = i + 1;
        }
        proof {
            lemma_prefix_has_all(ns);
            assert(ns.subrange(0, names@.len() as int) =~= ns);
        }
        if errors.len() == 0 {
            proof {
                lemma_conflict_msgs_empty(bs, ns);
                assert(merged@ =~= Map::new(
                    |k: Seq<char>| in_some_branch(bs, k),
                    |k: Seq<char>| branch_states(bs, k)[0],
                ));
            }
            Ok(merged)
        } else {
            proof { lemma_conflict_msgs_nonempty(bs, ns); }
            Err(errors)
        }
    }

    /// Each listed linear binding must be consumed in the loop body (borrowed states
    /// are accepted); one message per binding left owned or not recorded, in order.
    pub fn analyze_loop(loop_bindings: StateMap, linear_bindings: Vec<&str>) -> (r: Result<(), Vec<String>>)
        requires
            loop_bindings.wf(),
        ensures
            ok_or_all(r, loop_msgs(loop_bindings@, str_texts(linear_bindings@))),
    {
        let ghost names = str_texts(linear_bindings@);
        let mut errors: Vec<String> = Vec::new();
        let mut k: usize = 0;
        while k < linear_bindings.len()
            invariant
                k <= linear_bindings@.len(),
                names == str_texts(linear_bindings@),
                loop_bindings.wf(),
                texts(errors@) == loop_msgs(loop_bindings@, names.subrange(0, k as int)),
            decreases linear_bindings.len() - k,
        {
            proof { assert(names.subrange(0, k + 1).drop_last() =~= names.subrange(0, k as int)); }
            let name = linear_bindings[k];
            let st = loop_bindings.get(name);
            let bad = match st {
                Some(OwnershipState::Consumed) => false,
                Some(OwnershipState::Owned) | None => true,
                Some(_) => false,
            };
            if bad {
                let msg = quote_between("linear binding ", name, " not consumed in loop body");
                let ghost before = errors@;
                errors.push(msg);
                assert(texts(errors@) =~= texts(before).push(msg@));
            }
            k = k + 1;
        }
        assert(names.subrange(0, linear_bindings@.len() as int) =~= names);
        if errors.len() == 0 {
            Ok(())
        } else {
            Err(errors)
        }
    }
}

/// `k` occurs among the first `n` elements of `s`.
pub open spec fn prefix_has(s: Seq<Seq<char>>, n: int, k: Seq<char>) -> bool {
    exists|x: int| 0 <= x < n && #[trigger] s[x] == k
}

proof fn lemma_prefix_has_step(s: Seq<Seq<char>>, j: int)
    requires
        0 <= j < s.len(),
    ensures
        forall|k: Seq<char>| #[trigger] prefix_has(s, j + 1, k) <==> prefix_has(s, j, k) || k == s[j],
{
    assert forall|k: Seq<char>| #[trigger] prefix_has(s, j + 1, k) <==> prefix_has(s, j, k) || k == s[j] by {
        if prefix_has(s, j + 1, k) {
            let x = choose|x: int| 0 <= x < j + 1 && #[trigger] s[x] == k;
            if x < j {
                assert(prefix_has(s, j, k));
            }
        }
        if k == s[j] {
            assert(s[j] == k);
        }
    }
}

proof fn lemma_prefix_has_all(s: Seq<Seq<char>>)
    ensures
        forall|k: Seq<char>| #[trigger] prefix_has(s, s.len() as int, k) <==> s.contains(k),
{
}

/// `ns` lists each name recorded in some branch exactly once.
pub open spec fn enumerates(bs: Seq<Map<Seq<char>, OwnershipState>>, ns: Seq<Seq<char>>) -> bool {
    &&& forall|i: int, j: int| 0 <= i < j < ns.len() ==> ns[i] != ns[j]
    &&& forall|k: Seq<char>| #[trigger] ns.contains(k) <==> in_some_branch(bs, k)
}

/// The messages for the conflicting names of `ns`, in order.
pub open spec fn conflict_msgs(bs: Seq<Map<Seq<char>, OwnershipState>>, ns: Seq<Seq<char>>) -> Seq<Seq<char>>
    decreases ns.len(),
{
    if ns.len() == 0 {
        Seq::empty()
    } else if conflicted(bs, ns.last()) {
        conflict_msgs(bs, ns.drop_last()).push(msg_match_conflict(ns.last()))
    } else {
        conflict_msgs(bs, ns.drop_last())
    }
}

proof fn lemma_conflict_msgs_empty(bs: Seq<Map<Seq<char>, OwnershipState>>, ns: Seq<Seq<char>>)
    requires
        conflict_msgs(bs, ns).len() == 0,
    ensures
        forall|k: Seq<char>| ns.contains(k) ==> !conflicted(bs, k),
    decreases ns.len(),
{
    if ns.len() > 0 {
        lemma_conflict_msgs_empty(bs, ns.drop_last());
        assert forall|k: Seq<char>| ns.contains(k) implies !conflicted(bs, k) by {
            let x = choose|x: int| 0 <= x < ns.len() && ns[x] == k;
            if x < ns.len() - 1 {
                assert(ns.drop_last()[x] == k);
            }
        }
    }
}

proof fn lemma_conflict_msgs_nonempty(bs: Seq<Map<Seq<char>, OwnershipState>>, ns: Seq<Seq<char>>)
    requires
        conflict_msgs(bs, ns).len() > 0,
    ensures
        exists|k: Seq<char>| conflicted(bs, k),
    decreases ns.len(),
{
    if ns.len() > 0 {
        if !conflicted(bs, ns.last()) {
            lemma_conflict_msgs_nonempty(bs, ns.drop_last());
        }
    }
}

fn collect_names(bs: &Vec<StateMap>) -> (r: Vec<String>)
    requires
        forall|i: int| 0 <= i < bs@.len() ==> (#[trigger] bs@[i]).wf(),
    ensures
        enumerates(maps_of(bs@), texts(r@)),
{
    let ghost ms = maps_of(bs@);
    let mut out: Vec<String> = Vec::new();
    let mut b: usize = 0;
    while b < bs.len()
        invariant
            b <= bs@.len(),
            ms == maps_of(bs@),
            forall|i: int| 0 <= i < bs@.len() ==> (#[trigger] bs@[i]).wf(),
            forall|i: int, j: int| 0 <= i < j < out@.len() ==> texts(out@)[i] != texts(out@)[j],
            forall|k: Seq<char>| #[trigger] texts(out@).contains(k) <==> in_first(ms, b as int, k),
        decreases bs.len() - b,
    {
        proof { bs@[b as int].lemma_names(); }
        let ghost names = bs@[b as int].names();
        let n = bs[b].key_count();
        let mut j: usize = 0;
        while j < n
            invariant
                j <= n,
                b < bs@.len(),
                n == names.len(),
                names == bs@[b as int].names(),
                ms == maps_of(bs@),
                forall|k: Seq<char>| #[trigger] ms[b as int].contains_key(k) <==> names.contains(k),
                forall|i: int, j: int| 0 <= i < j < out@.len() ==> texts(out@)[i] != texts(out@)[j],
                forall|k: Seq<char>| #[trigger] texts(out@).contains(k) <==> in_first(ms, b as int, k) || prefix_has(names, j as int, k),
            decreases n - j,
        {
            let key = bs[b].key_at(j);
            proof { lemma_prefix_has_step(names, j as int); }
            if !crate::move_tracking::contains_name(&out, key.as_str()) {
                let ghost before = out@;
                out.push(key.clone());
                proof {
                    assert(texts(out@) =~= texts(before).push(key@));
                    assert forall|k: Seq<char>| #[trigger] texts(out@).contains(k) <==> texts(before).contains(k) || k == key@ by {
                        if texts(out@).contains(k) {
                            let x = choose|x: int| 0 <= x < texts(out@).len() && texts(out@)[x] == k;
                            if x < before.len() {
                                assert(texts(before)[x] == k);
                            }
                        }
                        if texts(before).contains(k) {
                            let x = choose|x: int| 0 <= x < texts(before).len() && texts(before)[x] == k;
                            assert(texts(out@)[x] == k);
                        }
                        if k == key@ {
                            assert(texts(out@)[before.len() as int] == k);
                        }
                    }
                }
            }
            j = j + 1;
        }
        proof {
            lemma_prefix_has_all(names);
            assert forall|k: Seq<char>| #[trigger] in_first(ms, b + 1, k) <==> in_first(ms, b as int, k) || ms[b as int].contains_key(k) by {
                if in_first(ms, b + 1, k) {
                    let i = choose|i: int| 0 <= i < b + 1 && #[trigger] ms[i].contains_key(k);
                    if i < b {
                        assert(in_first(ms, b as int, k));
                    }
                }
                if in_first(ms, b as int, k) {
                    let i = choose|i: int| 0 <= i < b && #[trigger] ms[i].contains_key(k);
                    assert(ms[i].contains_key(k));
                }
            }
        }
        b = b + 1;
    }
    proof {
        assert forall|k: Seq<char>| #[trigger] in_first(ms, ms.len() as int, k) <==> in_some_branch(ms, k) by {}
    }
    out
}

/// `k` is recorded in one of the first `n` branches.
pub open spec fn in_first(bs: Seq<Map<Seq<char>, OwnershipState>>, n: int, k: Seq<char>) -> bool {
    exists|i: int| 0 <= i < n && #[trigger] bs[i].contains_key(k)
}

fn present_states(bs: &Vec<StateMap>, name: &str) -> (r: Vec<OwnershipState>)
    requires
        forall|i: int| 0 <= i < bs@.len() ==> (#[trigger] bs@[i]).wf(),
    ensures
        r@ == branch_states(maps_of(bs@), name@),
{
    let ghost ms = maps_of(bs@);
    let mut out: Vec<OwnershipState> = Vec::new();
    let mut k: usize = 0;
    while k < bs.len()
        invariant
            k <= bs@.len(),
            ms == maps_of(bs@),
            forall|i: int| 0 <= i < bs@.len() ==> (#[trigger] bs@[i]).wf(),
            out@ == branch_states(ms.subrange(0, k as int), name@),
        decreases bs.len() - k,
    {
        proof { assert(ms.subrange(0, k + 1).drop_last() =~= ms.subrange(0, k as int)); }
        match bs[k].get(name) {
            Some(st) => out.push(st),
            None => {},
        }
        k = k + 1;
    }
    assert(ms.subrange(0, bs@.len() as int) =~= ms);
    out
}

fn all_equal(states: &Vec<OwnershipState>) -> (r: bool)
    requires
        states@.len() > 0,
    ensures
        r == all_same(states@),
{
    let first = states[0];
    let mut k: usize = 0;
    while k < states.len()
        invariant
            k <= states.len(),
            first == states@[0],
            forall|i: int| 0 <= i < k ==> #[trigger] states@[i] == first,
        decreases states.len() - k,
    {
        if states[k] != first {
            assert(states@[k as int] != states@[0]);
            return false;
        }
        k = k + 1;
    }
    true
}


/// The order of the two branches of an if/else does not matter to the
/// states after it.
pub proof fn law_if_else_is_symmetric(t: Map<Seq<char>, OwnershipState>, e: Map<Seq<char>, OwnershipState>)
    ensures
        if_else_map(t, e) == if_else_map(e, t),
{
    assert(if_else_map(t, e) =~= if_else_map(e, t));
}

/// A binding that either branch of an if/else consumes is consumed after it.
pub proof fn law_if_else_keeps_consumption(
    t: Map<Seq<char>, OwnershipState>,
    e: Map<Seq<char>, OwnershipState>,
    k: Seq<char>,
)
    requires
        (t.contains_key(k) && t[k] == OwnershipState::Consumed) || (e.contains_key(k) && e[k]
            == OwnershipState::Consumed),
    ensures
        if_else_map(t, e).contains_key(k),
        if_else_map(t, e)[k] == OwnershipState::Consumed,
{
}

/// Where paths converge, a binding that some path consumed is consumed.
pub proof fn law_merge_keeps_consumption(s: Seq<OwnershipState>)
    requires
        s.contains(OwnershipState::Consumed),
    ensures
        merged_state(s) == OwnershipState::Consumed,
{
    if all_same(s) {
        let k = choose|k: int| 0 <= k < s.len() && s[k] == OwnershipState::Consumed;
        assert(s[k] == s[0]);
    }
}

} // verus!