//! Detection of concurrency errors from recorded memory accesses, lock operations
//! and frees: data races, use after free and locks never released.
use vstd::prelude::*;
use crate::move_tracking::{add_name, names_of};
use crate::net_verifier::{
    find_str_key, find_u32_key, first_key, keyed_insert, lemma_first_key, lemma_first_key_scan, lemma_found_key,
    lemma_names_push,
};
use crate::ownership_enforcement::{append_decimal, quote_between, quoted};
use crate::text::{nat_decimal, str_eq};

verus! {

/// The kind of a memory access.
#[derive(Clone, Copy, Debug, PartialEq, Eq, Hash, Structural)]
pub enum AccessType {
    Read,
    Write,
    LockAcquire,
    LockRelease,
}

/// One access of a variable by a thread at a source position.
#[derive(Debug)]
pub struct MemoryAccess {
    pub var_name: String,
    pub access_type: AccessType,
    pub thread_id: u32,
    pub line: u32,
    pub col: u32,
}

pub struct AccessModel {
    pub var: Seq<char>,
    pub kind: AccessType,
    pub thread: u32,
    pub line: u32,
    pub col: u32,
}

impl View for MemoryAccess {
    type V = AccessModel;

    open spec fn view(&self) -> AccessModel {
        AccessModel {
            var: self.var_name@,
            kind: self.access_type,
            thread: self.thread_id,
            line: self.line,
            col: self.col,
        }
    }
}

impl MemoryAccess {
    pub fn new(var_name: String, access_type: AccessType, thread_id: u32, line: u32, col: u32) -> (r: Self)
        ensures
            r@ == (AccessModel { var: var_name@, kind: access_type, thread: thread_id, line, col }),
    {
        MemoryAccess { var_name, access_type, thread_id, line, col }
    }

    pub fn is_write(&self) -> (r: bool)
        ensures
            r == (self.access_type is Write),
    {
        self.access_type == AccessType::Write
    }

    pub fn is_lock_op(&self) -> (r: bool)
        ensures
            r == (self.access_type is LockAcquire || self.access_type is LockRelease),
    {
        self.access_type == AccessType::LockAcquire || self.access_type == AccessType::LockRelease
    }
}

/// A concurrency error.
#[derive(Debug)]
pub enum RaceViolation {
    DataRace { var_name: String, thread1: u32, access1: (u32, u32), thread2: u32, access2: (u32, u32) },
    Deadlock { cycle: Vec<(String, String)> },
    UseAfterFree { var_name: String, freed_at: (u32, u32), used_at: (u32, u32) },
    LockLeak { lock_name: String, acquired_at: (u32, u32) },
}

pub enum RaceModel {
    DataRace { var_name: Seq<char>, thread1: u32, access1: (u32, u32), thread2: u32, access2: (u32, u32) },
    Deadlock { cycle: Seq<(Seq<char>, Seq<char>)> },
    UseAfterFree { var_name: Seq<char>, freed_at: (u32, u32), used_at: (u32, u32) },
    LockLeak { lock_name: Seq<char>, acquired_at: (u32, u32) },
}

pub open spec fn pairs_model(c: Seq<(String, String)>) -> Seq<(Seq<char>, Seq<char>)> {
    c.map_values(|p: (String, String)| (p.0@, p.1@))
}

impl View for RaceViolation {
    type V = RaceModel;

    open spec fn view(&self) -> RaceModel {
        match self {
            RaceViolation::DataRace { var_name, thread1, access1, thread2, access2 } => RaceModel::DataRace {
                var_name: var_name@,
                thread1: *thread1,
                access1: *access1,
                thread2: *thread2,
                access2: *access2,
            },
            RaceViolation::Deadlock { cycle } => RaceModel::Deadlock { cycle: pairs_model(cycle@) },
            RaceViolation::UseAfterFree { var_name, freed_at, used_at } => RaceModel::UseAfterFree {
                var_name: var_name@,
                freed_at: *freed_at,
                used_at: *used_at,
            },
            RaceViolation::LockLeak { lock_name, acquired_at } => RaceModel::LockLeak {
                lock_name: lock_name@,
                acquired_at: *acquired_at,
            },
        }
    }
}

pub open spec fn pos_text(p: (u32, u32)) -> Seq<char> {
    nat_decimal(p.0 as nat) + ":"@ + nat_decimal(p.1 as nat)
}

/// `a → b → c → d` for the dependencies `(a, b), (c, d)`.
pub open spec fn cycle_text(c: Seq<(Seq<char>, Seq<char>)>) -> Seq<char>
    decreases c.len(),
{
    if c.len() == 0 {
        Seq::empty()
    } else if c.len() == 1 {
        c[0].0 + " → "@ + c[0].1
    } else {
        cycle_text(c.drop_last()) + " → "@ + c.last().0 + " → "@ + c.last().1
    }
}

pub open spec fn race_text(v: RaceModel) -> Seq<char> {
    match v {
        RaceModel::DataRace { var_name, thread1, access1, thread2, access2 } =>
            "data race on "@ + quoted(var_name) + ": thread "@ + nat_decimal(thread1 as nat) + " accesses at "@
                + pos_text(access1) + ", thread "@ + nat_decimal(thread2 as nat) + " accesses at "@ + pos_text(access2),
        RaceModel::Deadlock { cycle } => "deadlock detected: "@ + cycle_text(cycle),
        RaceModel::UseAfterFree { var_name, freed_at, used_at } =>
            "use after free: "@ + quoted(var_name) + " freed at "@ + pos_text(freed_at) + " but used at "@
                + pos_text(used_at),
        RaceModel::LockLeak { lock_name, acquired_at } =>
            "lock leak: "@ + quoted(lock_name) + " acquired at "@ + pos_text(acquired_at) + " but never released"@,
    }
}

fn append_pos(out: &mut String, p: (u32, u32))
    ensures
        final(out)@ == old(out)@ + pos_text(p),
{
    append_decimal(out, p.0 as u64);
    out.append(":");
    append_decimal(out, p.1 as u64);
    assert(final(out)@ =~= old(out)@ + pos_text(p));
}

impl RaceViolation {
    /// The human-readable message.
    pub fn message(&self) -> (r: String)
        ensures
            r@ == race_text(self@),
    {
        match self {
            RaceViolation::DataRace { var_name, thread1, access1, thread2, access2 } => {
                let mut m = quote_between("data race on ", var_name.as_str(), ": thread ");
                append_decimal(&mut m, *thread1 as u64);
                m.append(" accesses at ");
                append_pos(&mut m, *access1);
                m.append(", thread ");
                append_decimal(&mut m, *thread2 as u64);
                m.append(" accesses at ");
                append_pos(&mut m, *access2);
                m
            },
            RaceViolation::Deadlock { cycle } => {
                let ghost c = pairs_model(cycle@);
                let mut m = String::from_str("deadlock detected: ");
                let ghost start = m@;
                let mut k: usize = 0;
                while k < cycle.len()
                    invariant
                        k <= cycle@.len(),
                        c == pairs_model(cycle@),
                        m@ == start + cycle_text(c.subrange(0, k as int)),
                    decreases cycle.len() - k,
                {
                    let ghost sub = c.subrange(0, k + 1);
                    assert(sub.drop_last() =~= c.subrange(0, k as int));
                    assert(sub.last() == (cycle@[k as int].0@, cycle@[k as int].1@));
                    if k > 0 {
                        m.append(" → ");
                    }
                    m.append(cycle[k].0.as_str());
                    m.append(" → ");
                    m.append(cycle[k].1.as_str());
                    assert(m@ =~= start + cycle_text(sub));
                    k = k + 1;
                }
                assert(c.subrange(0, cycle@.len() as int) =~= c);
                m
            },
            RaceViolation::UseAfterFree { var_name, freed_at, used_at } => {
                let mut m = quote_between("use after free: ", var_name.as_str(), " freed at ");
                append_pos(&mut m, *freed_at);
                m.append(" but used at ");
                append_pos(&mut m, *used_at);
                m
            },
            RaceViolation::LockLeak { lock_name, acquired_at } => {
                let mut m = quote_between("lock leak: ", lock_name.as_str(), " acquired at ");
                append_pos(&mut m, *acquired_at);
                m.append(" but never released");
                m
            },
        }
    }
}

/// A lock: the threads holding it (with where they acquired it) and the locks
/// acquired after it.
#[derive(Debug)]
pub struct LockInfo {
    pub name: String,
    /// Each holding thread once, with the position of its acquisition.
    pub acquired_by: Vec<(u32, (u32, u32))>,
    pub dependencies: Vec<String>,
}

impl LockInfo {
    /// A lock that nobody holds.
    pub fn new(name: String) -> (r: Self)
        ensures
            r.name@ == name@,
            r.acquired_by@.len() == 0,
            r.dependencies@.len() == 0,
    {
        LockInfo { name, acquired_by: Vec::new(), dependencies: Vec::new() }
    }
}

/// Each variable with the locks protecting it, and each thread with the order in which
/// it acquires locks.
#[derive(Debug)]
pub struct SynchronizationInfo {
    pub protection_map: Vec<(String, Vec<String>)>,
    pub lock_order: Vec<(u32, Vec<String>)>,
}

pub open spec fn protection_of(p: Seq<(String, Vec<String>)>) -> Seq<(Seq<char>, Seq<Seq<char>>)> {
    p.map_values(|e: (String, Vec<String>)| (e.0@, names_of(e.1@)))
}

/// `lock` joins the locks protecting `var`.
pub open spec fn protect(p: Seq<(Seq<char>, Seq<Seq<char>>)>, var: Seq<char>, lock: Seq<char>) -> Seq<(Seq<char>, Seq<Seq<char>>)> {
    match first_key(p, var) {
        Some(i) => p.update(i, (var, p[i].1.push(lock))),
        None => p.push((var, seq![lock])),
    }
}

/// Some lock protects `var`.
pub open spec fn is_protected_in(p: Seq<(Seq<char>, Seq<Seq<char>>)>, var: Seq<char>) -> bool {
    match first_key(p, var) {
        Some(i) => p[i].1.len() > 0,
        None => false,
    }
}

impl SynchronizationInfo {
    pub open spec fn protection(&self) -> Seq<(Seq<char>, Seq<Seq<char>>)> {
        protection_of(self.protection_map@)
    }

    pub fn new() -> (r: Self)
        ensures
            r.protection().len() == 0,
            r.lock_order@.len() == 0,
    {
        let r = SynchronizationInfo { protection_map: Vec::new(), lock_order: Vec::new() };
        assert(r.protection() =~= Seq::<(Seq<char>, Seq<Seq<char>>)>::empty());
        r
    }

    /// Records that `lock_name` protects `var_name`.
    pub fn add_protection(&mut self, var_name: String, lock_name: String)
        ensures
            final(self).protection() == protect(old(self).protection(), var_name@, lock_name@),
            final(self).lock_order == old(self).lock_order,
    {
        let ghost before = self.protection_map@;
        let ghost pm = protection_of(before);
        let r = find_str_key(&self.protection_map, var_name.as_str());
        proof { lemma_found_key(before, pm, var_name@, r); }
        match r {
            Some(i) => {
                let mut e = self.protection_map.remove(i);
                let ghost lb = e.1@;
                let ghost lm = lock_name@;
                e.1.push(lock_name);
                proof { lemma_names_push(lb, e.1@.last()); }
                assert(names_of(e.1@) =~= names_of(lb).push(lm));
                let ghost em = (e.0@, names_of(e.1@));
                self.protection_map.insert(i, e);
                assert(self.protection_map@ =~= before.update(i as int, self.protection_map@[i as int]));
                assert(protection_of(self.protection_map@) =~= pm.update(i as int, em));
            },
            None => {
                let ghost vm = var_name@;
                let mut locks: Vec<String> = Vec::new();
                locks.push(lock_name);
                assert(names_of(locks@) =~= seq![locks@[0]@]);
                let ghost em = (vm, names_of(locks@));
                self.protection_map.push((var_name, locks));
                assert(protection_of(self.protection_map@) =~= pm.push(em));
            },
        }
    }

    /// Whether some lock protects `var_name`.
    pub fn is_protected(&self, var_name: &str) -> (r: bool)
        ensures
            r == is_protected_in(self.protection(), var_name@),
    {
        let ghost before = self.protection_map@;
        let r = find_str_key(&self.protection_map, var_name);
        proof { lemma_found_key(before, protection_of(before), var_name@, r); }
        match r {
            Some(i) => self.protection_map[i].1.len() > 0,
            None => false,
        }
    }

    /// The locks protecting `var_name`, if any were recorded.
    pub fn get_protecting_locks(&self, var_name: &str) -> (r: Option<&Vec<String>>)
        ensures
            match first_key(self.protection(), var_name@) {
                Some(i) => r matches Some(v) && names_of(v@) == self.protection()[i].1,
                None => r is None,
            },
    {
        let ghost before = self.protection_map@;
        let r = find_str_key(&self.protection_map, var_name);
        proof { lemma_found_key(before, protection_of(before), var_name@, r); }
        match r {
            Some(i) => Some(&self.protection_map[i].1),
            None => None,
        }
    }
}

impl Default for SynchronizationInfo {
    fn default() -> (r: Self)
        ensures
            r.protection().len() == 0,
            r.lock_order@.len() == 0,
    {
        Self::new()
    }
}

pub open spec fn accs_of(a: Seq<MemoryAccess>) -> Seq<AccessModel> {
    a.map_values(|m: MemoryAccess| m@)
}

pub open spec fn lock_states(l: Seq<LockInfo>) -> Seq<(Seq<char>, Seq<(u32, (u32, u32))>)> {
    l.map_values(|li: LockInfo| (li.name@, li.acquired_by@))
}

pub open spec fn frees_of(v: Seq<(String, u32, u32)>) -> Seq<(Seq<char>, u32, u32)> {
    v.map_values(|t: (String, u32, u32)| (t.0@, t.1, t.2))
}

pub open spec fn freed_of(f: Seq<(u32, Vec<(String, u32, u32)>)>) -> Seq<(u32, Seq<(Seq<char>, u32, u32)>)> {
    f.map_values(|e: (u32, Vec<(String, u32, u32)>)| (e.0, frees_of(e.1@)))
}

pub open spec fn races_of(v: Seq<RaceViolation>) -> Seq<RaceModel> {
    v.map_values(|x: RaceViolation| x@)
}

/// `s` without the first entry for `k`.
pub open spec fn keyed_remove<K, V>(s: Seq<(K, V)>, k: K) -> Seq<(K, V)> {
    match first_key(s, k) {
        Some(i) => s.remove(i),
        None => s,
    }
}

/// The holders of a lock after thread `tid` acquires it at `pos` or releases it.
pub open spec fn holders_after(acq: Seq<(u32, (u32, u32))>, acquired: bool, tid: u32, pos: (u32, u32)) -> Seq<(u32, (u32, u32))> {
    if acquired {
        keyed_insert(acq, tid, pos)
    } else {
        keyed_remove(acq, tid)
    }
}

/// The locks after a lock operation on `name` (a lock first seen is added).
pub open spec fn lock_record(
    l: Seq<(Seq<char>, Seq<(u32, (u32, u32))>)>,
    name: Seq<char>,
    acquired: bool,
    tid: u32,
    pos: (u32, u32),
) -> Seq<(Seq<char>, Seq<(u32, (u32, u32))>)> {
    match first_key(l, name) {
        Some(i) => l.update(i, (name, holders_after(l[i].1, acquired, tid, pos))),
        None => l.push((name, holders_after(Seq::empty(), acquired, tid, pos))),
    }
}

/// The frees after thread `tid` frees `var` at `pos`.
pub open spec fn free_record(f: Seq<(u32, Seq<(Seq<char>, u32, u32)>)>, var: Seq<char>, tid: u32, pos: (u32, u32)) -> Seq<(u32, Seq<(Seq<char>, u32, u32)>)> {
    match first_key(f, tid) {
        Some(i) => f.update(i, (tid, f[i].1.push((var, pos.0, pos.1)))),
        None => f.push((tid, seq![(var, pos.0, pos.1)])),
    }
}

/// The variables accessed, each once, in order of first access.
pub open spec fn var_order(a: Seq<AccessModel>) -> Seq<Seq<char>>
    decreases a.len(),
{
    if a.len() == 0 {
        Seq::empty()
    } else {
        let d = var_order(a.drop_last());
        if d.contains(a.last().var) { d } else { d.push(a.last().var) }
    }
}

/// The accesses of `v`, in order.
pub open spec fn accesses_to(a: Seq<AccessModel>, v: Seq<char>) -> Seq<AccessModel>
    decreases a.len(),
{
    if a.len() == 0 {
        Seq::empty()
    } else if a.last().var == v {
        accesses_to(a.drop_last(), v).push(a.last())
    } else {
        accesses_to(a.drop_last(), v)
    }
}

/// The accesses come from more than one thread.
pub open spec fn several_threads(f: Seq<AccessModel>) -> bool {
    exists|k: int| 0 <= k < f.len() && (#[trigger] f[k]).thread != f[0].thread
}

/// One of the accesses writes.
pub open spec fn some_write(f: Seq<AccessModel>) -> bool {
    exists|k: int| 0 <= k < f.len() && (#[trigger] f[k]).kind is Write
}

/// At `k` stands the first access, after the first one, made by another thread than
/// the first access.
pub open spec fn other_at(f: Seq<AccessModel>, k: int) -> bool {
    &&& 0 < k < f.len()
    &&& f[k].thread != f[0].thread
    &&& forall|j: int| 0 < j < k ==> (#[trigger] f[j]).thread == f[0].thread
}

/// The position of the first access made by another thread than the first access.
pub open spec fn first_other(f: Seq<AccessModel>) -> int {
    choose|k: int| other_at(f, k)
}

proof fn lemma_first_other(f: Seq<AccessModel>, k: int)
    requires
        other_at(f, k),
    ensures
        first_other(f) == k,
{
    let c = first_other(f);
    assert(other_at(f, c));
    if c < k {
        assert(f[c].thread == f[0].thread);
    } else if c > k {
        assert(f[k].thread == f[0].thread);
    }
}

/// For each of `vars` accessed by more than one thread with a write and no protecting
/// lock, a data race between its first access and the first access by another thread.
pub open spec fn data_races(a: Seq<AccessModel>, prot: Seq<(Seq<char>, Seq<Seq<char>>)>, vars: Seq<Seq<char>>) -> Seq<RaceModel>
    decreases vars.len(),
{
    if vars.len() == 0 {
        Seq::empty()
    } else {
        let rest = data_races(a, prot, vars.drop_last());
        let v = vars.last();
        let f = accesses_to(a, v);
        if several_threads(f) && some_write(f) && !is_protected_in(prot, v) {
            rest.push(RaceModel::DataRace {
                var_name: v,
                thread1: f[0].thread,
                access1: (f[0].line, f[0].col),
                thread2: f[first_other(f)].thread,
                access2: (f[first_other(f)].line, f[first_other(f)].col),
            })
        } else {
            rest
        }
    }
}

/// The accesses of a freed variable by the freeing thread on a later line.
pub open spec fn uses_after_free(a: Seq<AccessModel>, tid: u32, fr: (Seq<char>, u32, u32)) -> Seq<RaceModel>
    decreases a.len(),
{
    if a.len() == 0 {
        Seq::empty()
    } else {
        let rest = uses_after_free(a.drop_last(), tid, fr);
        let x = a.last();
        if x.var == fr.0 && x.thread == tid && x.line > fr.1 {
            rest.push(RaceModel::UseAfterFree { var_name: fr.0, freed_at: (fr.1, fr.2), used_at: (x.line, x.col) })
        } else {
            rest
        }
    }
}

pub open spec fn uses_after_frees(a: Seq<AccessModel>, tid: u32, frs: Seq<(Seq<char>, u32, u32)>) -> Seq<RaceModel>
    decreases frs.len(),
{
    if frs.len() == 0 {
        Seq::empty()
    } else {
        uses_after_frees(a, tid, frs.drop_last()) + uses_after_free(a, tid, frs.last())
    }
}

/// Every use after free: threads in order, each thread's frees in order, accesses in
/// order.
pub open spec fn all_uses_after_free(a: Seq<AccessModel>, f: Seq<(u32, Seq<(Seq<char>, u32, u32)>)>) -> Seq<RaceModel>
    decreases f.len(),
{
    if f.len() == 0 {
        Seq::empty()
    } else {
        all_uses_after_free(a, f.drop_last()) + uses_after_frees(a, f.last().0, f.last().1)
    }
}

pub open spec fn holder_leaks(name: Seq<char>, acq: Seq<(u32, (u32, u32))>) -> Seq<RaceModel>
    decreases acq.len(),
{
    if acq.len() == 0 {
        Seq::empty()
    } else {
        holder_leaks(name, acq.drop_last()).push(RaceModel::LockLeak { lock_name: name, acquired_at: acq.last().1 })
    }
}

/// A leak for each lock still held by a thread, locks in order.
pub open spec fn lock_leaks(l: Seq<(Seq<char>, Seq<(u32, (u32, u32))>)>) -> Seq<RaceModel>
    decreases l.len(),
{
    if l.len() == 0 {
        Seq::empty()
    } else {
        lock_leaks(l.drop_last()) + holder_leaks(l.last().0, l.last().1)
    }
}

proof fn lemma_races_push(v: Seq<RaceViolation>, x: RaceViolation)
    ensures
        races_of(v.push(x)) == races_of(v).push(x@),
{
    assert(races_of(v.push(x)) =~= races_of(v).push(x@));
}

fn set_holder(acq: &mut Vec<(u32, (u32, u32))>, acquired: bool, tid: u32, pos: (u32, u32))
    ensures
        final(acq)@ == holders_after(old(acq)@, acquired, tid, pos),
{
    let r = find_u32_key(acq, tid);
    if acquired {
        match r {
            Some(i) => {
                acq.set(i, (tid, pos));
            },
            None => {
                acq.push((tid, pos));
            },
        }
    } else {
        match r {
            Some(i) => {
                acq.remove(i);
            },
            None => {},
        }
    }
}

fn push_uses_after_free(accs: &Vec<MemoryAccess>, out: &mut Vec<RaceViolation>, tid: u32, var: &String, fl: u32, fc: u32)
    ensures
        races_of(final(out)@) == races_of(old(out)@) + uses_after_free(accs_of(accs@), tid, (var@, fl, fc)),
{
    let ghost a = accs_of(accs@);
    let ghost fr = (var@, fl, fc);
    let ghost start = races_of(out@);
    let mut k: usize = 0;
    while k < accs.len()
        invariant
            k <= accs@.len(),
            a == accs_of(accs@),
            fr == (var@, fl, fc),
            races_of(out@) == start + uses_after_free(a.subrange(0, k as int), tid, fr),
        decreases accs.len() - k,
    {
        let ghost sub = a.subrange(0, k + 1);
        assert(sub.drop_last() =~= a.subrange(0, k as int));
        assert(sub.last() == accs@[k as int]@);
        let x = &accs[k];
        if str_eq(x.var_name.as_str(), var.as_str()) && x.thread_id == tid && x.line > fl {
            let v = RaceViolation::UseAfterFree { var_name: var.clone(), freed_at: (fl, fc), used_at: (x.line, x.col) };
            let ghost ob = out@;
            out.push(v);
            proof { lemma_races_push(ob, out@.last()); }
        }
        assert(races_of(out@) =~= start + uses_after_free(sub, tid, fr));
        k = k + 1;
    }
    assert(a.subrange(0, accs@.len() as int) =~= a);
}

fn push_thread_uses_after_free(accs: &Vec<MemoryAccess>, out: &mut Vec<RaceViolation>, tid: u32, frees: &Vec<(String, u32, u32)>)
    ensures
        races_of(final(out)@) == races_of(old(out)@) + uses_after_frees(accs_of(accs@), tid, frees_of(frees@)),
{
    let ghost fm = frees_of(frees@);
    let ghost start = races_of(out@);
    let mut k: usize = 0;
    while k < frees.len()
        invariant
            k <= frees@.len(),
            fm == frees_of(frees@),
            races_of(out@) == start + uses_after_frees(accs_of(accs@), tid, fm.subrange(0, k as int)),
        decreases frees.len() - k,
    {
        let ghost sub = fm.subrange(0, k + 1);
        assert(sub.drop_last() =~= fm.subrange(0, k as int));
        assert(sub.last() == (frees@[k as int].0@, frees@[k as int].1, frees@[k as int].2));
        let fr = &frees[k];
        push_uses_after_free(accs, out, tid, &fr.0, fr.1, fr.2);
        assert(races_of(out@) =~= start + uses_after_frees(accs_of(accs@), tid, sub));
        k = k + 1;
    }
    assert(fm.subrange(0, frees@.len() as int) =~= fm);
}

fn push_holder_leaks(out: &mut Vec<RaceViolation>, name: &String, acq: &Vec<(u32, (u32, u32))>)
    ensures
        races_of(final(out)@) == races_of(old(out)@) + holder_leaks(name@, acq@),
{
    let ghost start = races_of(out@);
    let mut k: usize = 0;
    while k < acq.len()
        invariant
            k <= acq@.len(),
            races_of(out@) == start + holder_leaks(name@, acq@.subrange(0, k as int)),
        decreases acq.len() - k,
    {
        let ghost sub = acq@.subrange(0, k + 1);
        assert(sub.drop_last() =~= acq@.subrange(0, k as int));
        let v = RaceViolation::LockLeak { lock_name: name.clone(), acquired_at: acq[k].1 };
        let ghost ob = out@;
        out.push(v);
        proof { lemma_races_push(ob, out@.last()); }
        assert(races_of(out@) =~= start + holder_leaks(name@, sub));
        k = k + 1;
    }
    assert(acq@.subrange(0, acq@.len() as int) =~= acq@);
}

/// Records accesses, lock operations and frees, and finds the concurrency errors in
/// them.
pub struct RaceDetector {
    accesses: Vec<MemoryAccess>,
    locks: Vec<LockInfo>,
    freed_vars: Vec<(u32, Vec<(String, u32, u32)>)>,
    sync_info: SynchronizationInfo,
    violations: Vec<RaceViolation>,
}

impl RaceDetector {
    /// No lock order is recorded (nothing in the detector records one).
    pub closed spec fn wf(&self) -> bool {
        self.sync_info.lock_order@.len() == 0
    }

    /// The accesses in the order recorded.
    pub closed spec fn accs(&self) -> Seq<AccessModel> {
        accs_of(self.accesses@)
    }

    /// Each lock seen, with the threads holding it.
    pub closed spec fn lock_table(&self) -> Seq<(Seq<char>, Seq<(u32, (u32, u32))>)> {
        lock_states(self.locks@)
    }

    /// Each thread that freed variables, with what it freed and where.
    pub closed spec fn frees(&self) -> Seq<(u32, Seq<(Seq<char>, u32, u32)>)> {
        freed_of(self.freed_vars@)
    }

    /// Each protected variable with its locks.
    pub closed spec fn protection(&self) -> Seq<(Seq<char>, Seq<Seq<char>>)> {
        self.sync_info.protection()
    }

    /// The errors found so far.
    pub closed spec fn found(&self) -> Seq<RaceModel> {
        races_of(self.violations@)
    }

    pub fn new() -> (r: Self)
        ensures
            r.wf(),
            r.accs().len() == 0,
            r.lock_table().len() == 0,
            r.frees().len() == 0,
            r.protection().len() == 0,
            r.found().len() == 0,
    {
        RaceDetector {
            accesses: Vec::new(),
            locks: Vec::new(),
            freed_vars: Vec::new(),
            sync_info: SynchronizationInfo::new(),
            violations: Vec::new(),
        }
    }

    /// Records an access.
    pub fn record_access(&mut self, access: MemoryAccess)
        ensures
            final(self).wf() == old(self).wf(),
            final(self).accs() == old(self).accs().push(access@),
            final(self).lock_table() == old(self).lock_table(),
            final(self).frees() == old(self).frees(),
            final(self).protection() == old(self).protection(),
            final(self).found() == old(self).found(),
    {
        let ghost before = self.accesses@;
        let ghost m = access@;
        self.accesses.push(access);
        assert(accs_of(self.accesses@) =~= accs_of(before).push(m));
    }

    /// Records that thread `thread_id` acquired (or released) `lock_name` at `line:col`.
    pub fn record_lock(&mut self, lock_name: String, acquired: bool, thread_id: u32, line: u32, col: u32)
        ensures
            final(self).wf() == old(self).wf(),
            final(self).lock_table() == lock_record(old(self).lock_table(), lock_name@, acquired, thread_id, (line, col)),
            final(self).accs() == old(self).accs(),
            final(self).frees() == old(self).frees(),
            final(self).protection() == old(self).protection(),
            final(self).found() == old(self).found(),
    {
        let ghost before = self.locks@;
        let ghost lm = lock_states(before);
        let mut found: Option<usize> = None;
        let mut k: usize = 0;
        while k < self.locks.len()
            invariant
                k <= self.locks@.len(),
                before == self.locks@,
                lm == lock_states(before),
                found matches Some(i) ==> i < k && lm[i as int].0 == lock_name@ && forall|j: int| 0 <= j < i ==> lm[j].0 != lock_name@,
                found is None ==> forall|j: int| 0 <= j < k ==> lm[j].0 != lock_name@,
            decreases self.locks.len() - k,
        {
            assert(lm[k as int].0 == self.locks@[k as int].name@);
            if found.is_none() && str_eq(self.locks[k].name.as_str(), lock_name.as_str()) {
                found = Some(k);
            }
            k = k + 1;
        }
        proof {
            lemma_first_key(lm, lock_name@);
            if let Some(i) = found {
                lemma_first_key_scan(lm, lock_name@, i as int);
            }
        }
        match found {
            Some(i) => {
                let mut li = self.locks.remove(i);
                set_holder(&mut li.acquired_by, acquired, thread_id, (line, col));
                let ghost em = (li.name@, li.acquired_by@);
                assert(li.name@ == lock_name@);
                self.locks.insert(i, li);
                assert(self.locks@ =~= before.update(i as int, self.locks@[i as int]));
                assert(lock_states(self.locks@) =~= lm.update(i as int, em));
            },
            None => {
                let mut li = LockInfo::new(lock_name);
                assert(li.acquired_by@ =~= Seq::<(u32, (u32, u32))>::empty());
                set_holder(&mut li.acquired_by, acquired, thread_id, (line, col));
                let ghost em = (li.name@, li.acquired_by@);
                self.locks.push(li);
                assert(lock_states(self.locks@) =~= lm.push(em));
            },
        }
    }

    /// Records that `lock_name` protects `var_name`.
    pub fn add_protection(&mut self, var_name: String, lock_name: String)
        ensures
            final(self).wf() == old(self).wf(),
            final(self).protection() == protect(old(self).protection(), var_name@, lock_name@),
            final(self).accs() == old(self).accs(),
            final(self).lock_table() == old(self).lock_table(),
            final(self).frees() == old(self).frees(),
            final(self).found() == old(self).found(),
    {
        self.sync_info.add_protection(var_name, lock_name);
    }

    /// Records that thread `thread_id` freed `var_name` at `line:col`.
    pub fn record_free(&mut self, var_name: String, thread_id: u32, line: u32, col: u32)
        ensures
            final(self).wf() == old(self).wf(),
            final(self).frees() == free_record(old(self).frees(), var_name@, thread_id, (line, col)),
            final(self).accs() == old(self).accs(),
            final(self).lock_table() == old(self).lock_table(),
            final(self).protection() == old(self).protection(),
            final(self).found() == old(self).found(),
    {
        let ghost before = self.freed_vars@;
        let ghost fm = freed_of(before);
        let r = find_u32_key(&self.freed_vars, thread_id);
        proof {
            lemma_first_key(before, thread_id);
            lemma_first_key(fm, thread_id);
            match r {
                Some(i) => {
                    assert forall|j: int| 0 <= j < i implies fm[j].0 != thread_id by {
                        assert(fm[j].0 == before[j].0);
                    }
                    assert(fm[i as int].0 == thread_id);
                    lemma_first_key_scan(fm, thread_id, i as int);
                },
                None => {
                    if first_key(fm, thread_id) is Some {
                        let x = first_key(fm, thread_id)->0;
                        assert(fm[x].0 == before[x].0);
                    }
                },
            }
        }
        let ghost vm = var_name@;
        match r {
            Some(i) => {
                let mut e = self.freed_vars.remove(i);
                let ghost eb = e.1@;
                e.1.push((var_name, line, col));
                assert(frees_of(e.1@) =~= frees_of(eb).push((vm, line, col)));
                let ghost em = (e.0, frees_of(e.1@));
                self.freed_vars.insert(i, e);
                assert(self.freed_vars@ =~= before.update(i as int, self.freed_vars@[i as int]));
                assert(freed_of(self.freed_vars@) =~= fm.update(i as int, em));
            },
            None => {
                let mut v: Vec<(String, u32, u32)> = Vec::new();
                v.push((var_name, line, col));
                assert(frees_of(v@) =~= seq![(vm, line, col)]);
                let ghost em = (thread_id, frees_of(v@));
                self.freed_vars.push((thread_id, v));
                assert(freed_of(self.freed_vars@) =~= fm.push(em));
            },
        }
    }

    /// A data race for each variable accessed by more than one thread with a write and
    /// no protecting lock, in order of first access (see [`data_races`]).
    pub fn detect_data_races(&mut self)
        ensures
            final(self).found() == old(self).found() + data_races(old(self).accs(), old(self).protection(),
                var_order(old(self).accs())),
            final(self).wf() == old(self).wf(),
            final(self).accs() == old(self).accs(),
            final(self).lock_table() == old(self).lock_table(),
            final(self).frees() == old(self).frees(),
            final(self).protection() == old(self).protection(),
    {
        let ghost a = self.accs();
        let mut vars: Vec<String> = Vec::new();
        let mut k: usize = 0;
        while k < self.accesses.len()
            invariant
                k <= self.accesses@.len(),
                a == accs_of(self.accesses@),
                names_of(vars@) == var_order(a.subrange(0, k as int)),
            decreases self.accesses.len() - k,
        {
            let ghost sub = a.subrange(0, k + 1);
            assert(sub.drop_last() =~= a.subrange(0, k as int));
            assert(sub.last() == self.accesses@[k as int]@);
            add_name(&mut vars, self.accesses[k].var_name.as_str());
            k = k + 1;
        }
        assert(a.subrange(0, self.accesses@.len() as int) =~= a);
        let ghost all = names_of(vars@);
        let ghost start = races_of(self.violations@);
        let mut j: usize = 0;
        while j < vars.len()
            invariant
                j <= vars@.len(),
                all == names_of(vars@),
                a == self.accs(),
                self.wf() == old(self).wf(),
                self.lock_table() == old(self).lock_table(),
                self.frees() == old(self).frees(),
                self.protection() == old(self).protection(),
                races_of(self.violations@) == start + data_races(a, self.protection(), all.subrange(0, j as int)),
            decreases vars.len() - j,
        {
            let ghost sub = all.subrange(0, j + 1);
            assert(sub.drop_last() =~= all.subrange(0, j as int));
            let v = vars[j].as_str();
            assert(sub.last() == v@);
            let (multi, write, i1, i2) = scan_var(&self.accesses, v);
            if multi && write && !self.sync_info.is_protected(v) {
                let a1 = &self.accesses[i1];
                let a2 = &self.accesses[i2];
                let race = RaceViolation::DataRace {
                    var_name: String::from_str(v),
                    thread1: a1.thread_id,
                    access1: (a1.line, a1.col),
                    thread2: a2.thread_id,
                    access2: (a2.line, a2.col),
                };
                let ghost ob = self.violations@;
                self.violations.push(race);
                proof { lemma_races_push(ob, self.violations@.last()); }
            }
            assert(races_of(self.violations@) =~= start + data_races(a, self.protection(), sub));
            j = j + 1;
        }
        assert(all.subrange(0, vars@.len() as int) =~= all);
    }

    /// Lock-order cycles among the recorded lock orders. No lock order is ever recorded
    /// in a detector, so none is found and nothing changes.
    pub fn detect_deadlocks(&mut self)
        requires
            old(self).wf(),
        ensures
            *final(self) == *old(self),
    {
    }

    /// A use after free for each access of a freed variable by the freeing thread on a
    /// later line (see [`all_uses_after_free`]).
    pub fn detect_use_after_free(&mut self)
        ensures
            final(self).found() == old(self).found() + all_uses_after_free(old(self).accs(), old(self).frees()),
            final(self).wf() == old(self).wf(),
            final(self).accs() == old(self).accs(),
            final(self).lock_table() == old(self).lock_table(),
            final(self).frees() == old(self).frees(),
            final(self).protection() == old(self).protection(),
    {
        let ghost fm = self.frees();
        let ghost start = races_of(self.violations@);
        let mut t: usize = 0;
        while t < self.freed_vars.len()
            invariant
                t <= self.freed_vars@.len(),
                fm == self.frees(),
                self.wf() == old(self).wf(),
                self.accs() == old(self).accs(),
                self.lock_table() == old(self).lock_table(),
                self.frees() == old(self).frees(),
                self.protection() == old(self).protection(),
                races_of(self.violations@) == start + all_uses_after_free(self.accs(), fm.subrange(0, t as int)),
            decreases self.freed_vars.len() - t,
        {
            let ghost sub = fm.subrange(0, t + 1);
            assert(sub.drop_last() =~= fm.subrange(0, t as int));
            assert(sub.last() == (self.freed_vars@[t as int].0, frees_of(self.freed_vars@[t as int].1@)));
            let tid = self.freed_vars[t].0;
            push_thread_uses_after_free(&self.accesses, &mut self.violations, tid, &self.freed_vars[t].1);
            assert(races_of(self.violations@) =~= start + all_uses_after_free(self.accs(), sub));
            t = t + 1;
        }
        assert(fm.subrange(0, self.freed_vars@.len() as int) =~= fm);
    }

    /// A lock leak for each lock still held, per holding thread (see [`lock_leaks`]).
    pub fn detect_lock_leaks(&mut self)
        ensures
            final(self).found() == old(self).found() + lock_leaks(old(self).lock_table()),
            final(self).wf() == old(self).wf(),
            final(self).accs() == old(self).accs(),
            final(self).lock_table() == old(self).lock_table(),
            final(self).frees() == old(self).frees(),
            final(self).protection() == old(self).protection(),
    {
        let ghost lm = self.lock_table();
        let ghost start = races_of(self.violations@);
        let mut k: usize = 0;
        while k < self.locks.len()
            invariant
                k <= self.locks@.len(),
                lm == self.lock_table(),
                self.wf() == old(self).wf(),
                self.accs() == old(self).accs(),
                self.lock_table() == old(self).lock_table(),
                self.frees() == old(self).frees(),
                self.protection() == old(self).protection(),
                races_of(self.violations@) == start + lock_leaks(lm.subrange(0, k as int)),
            decreases self.locks.len() - k,
        {
            let ghost sub = lm.subrange(0, k + 1);
            assert(sub.drop_last() =~= lm.subrange(0, k as int));
            assert(sub.last() == (self.locks@[k as int].name@, self.locks@[k as int].acquired_by@));
            push_holder_leaks(&mut self.violations, &self.locks[k].name, &self.locks[k].acquired_by);
            assert(races_of(self.violations@) =~= start + lock_leaks(sub));
            k = k + 1;
        }
        assert(lm.subrange(0, self.locks@.len() as int) =~= lm);
    }

    /// Runs every detection: data races, deadlocks, uses after free, lock leaks.
    pub fn detect_all(&mut self)
        requires
            old(self).wf(),
        ensures
            final(self).found() == old(self).found() + data_races(old(self).accs(), old(self).protection(),
                var_order(old(self).accs())) + all_uses_after_free(old(self).accs(), old(self).frees())
                + lock_leaks(old(self).lock_table()),
            final(self).wf(),
            final(self).accs() == old(self).accs(),
            final(self).lock_table() == old(self).lock_table(),
            final(self).frees() == old(self).frees(),
            final(self).protection() == old(self).protection(),
    {
        self.detect_data_races();
        self.detect_deadlocks();
        self.detect_use_after_free();
        self.detect_lock_leaks();
        assert(self.found() =~= old(self).found() + data_races(old(self).accs(), old(self).protection(),
            var_order(old(self).accs())) + all_uses_after_free(old(self).accs(), old(self).frees())
            + lock_leaks(old(self).lock_table()));
    }

    /// The errors found so far.
    pub fn violations(&self) -> (r: &[RaceViolation])
        ensures
            races_of(r@) == self.found(),
    {
        self.violations.as_slice()
    }

    pub fn has_violations(&self) -> (r: bool)
        ensures
            r == (self.found().len() > 0),
    {
        self.violations.len() > 0
    }
}

impl Default for RaceDetector {
    fn default() -> (r: Self)
        ensures
            r.wf(),
            r.accs().len() == 0,
            r.lock_table().len() == 0,
            r.frees().len() == 0,
            r.protection().len() == 0,
            r.found().len() == 0,
    {
        Self::new()
    }
}

proof fn lemma_several_push(f: Seq<AccessModel>, e: AccessModel)
    ensures
        several_threads(f.push(e)) == (several_threads(f) || (f.len() > 0 && e.thread != f[0].thread)),
{
    let g = f.push(e);
    if f.len() == 0 {
        if several_threads(g) {
            let k = choose|k: int| 0 <= k < g.len() && (#[trigger] g[k]).thread != g[0].thread;
        }
    } else {
        assert(g[0] == f[0]);
        if several_threads(f) {
            let k = choose|k: int| 0 <= k < f.len() && (#[trigger] f[k]).thread != f[0].thread;
            assert(g[k] == f[k]);
        }
        if e.thread != f[0].thread {
            assert(g[f.len() as int] == e);
        }
        if several_threads(g) {
            let k = choose|k: int| 0 <= k < g.len() && (#[trigger] g[k]).thread != g[0].thread;
            if k < f.len() {
                assert(g[k] == f[k]);
            }
        }
    }
}

proof fn lemma_write_push(f: Seq<AccessModel>, e: AccessModel)
    ensures
        some_write(f.push(e)) == (some_write(f) || e.kind is Write),
{
    let g = f.push(e);
    if some_write(f) {
        let k = choose|k: int| 0 <= k < f.len() && (#[trigger] f[k]).kind is Write;
        assert(g[k] == f[k]);
    }
    if e.kind is Write {
        assert(g[f.len() as int] == e);
    }
    if some_write(g) {
        let k = choose|k: int| 0 <= k < g.len() && (#[trigger] g[k]).kind is Write;
        if k < f.len() {
            assert(g[k] == f[k]);
        }
    }
}

/// Over the accesses of `v`: whether they come from several threads, whether one
/// writes, and the positions of the first two.
fn scan_var(accs: &Vec<MemoryAccess>, v: &str) -> (r: (bool, bool, usize, usize))
    ensures
        ({
            let f = accesses_to(accs_of(accs@), v@);
            &&& r.0 == several_threads(f)
            &&& r.1 == some_write(f)
            &&& r.0 ==> f.len() >= 2
            &&& f.len() >= 1 ==> r.2 < accs@.len() && accs@[r.2 as int]@ == f[0]
            &&& r.0 ==> r.3 < accs@.len() && accs@[r.3 as int]@ == f[first_other(f)]
        }),
{
    let ghost a = accs_of(accs@);
    let mut cnt: usize = 0;
    let mut i1: usize = 0;
    let mut i2: usize = 0;
    let mut multi = false;
    let mut write = false;
    let ghost mut p: int = 0;
    let mut k: usize = 0;
    while k < accs.len()
        invariant
            k <= accs@.len(),
            a == accs_of(accs@),
            ({
                let f = accesses_to(a.subrange(0, k as int), v@);
                &&& cnt == f.len()
                &&& cnt <= k
                &&& multi == several_threads(f)
                &&& write == some_write(f)
                &&& multi ==> f.len() >= 2
                &&& cnt >= 1 ==> i1 < k && a[i1 as int] == f[0]
                &&& multi ==> i2 < k && other_at(f, p) && a[i2 as int] == f[p]
            }),
        decreases accs.len() - k,
    {
        let ghost sub = a.subrange(0, k + 1);
        let ghost f = accesses_to(a.subrange(0, k as int), v@);
        assert(sub.drop_last() =~= a.subrange(0, k as int));
        assert(sub.last() == a[k as int]);
        assert(a[k as int] == accs@[k as int]@);
        let x = &accs[k];
        if str_eq(x.var_name.as_str(), v) {
            proof {
                lemma_several_push(f, a[k as int]);
                lemma_write_push(f, a[k as int]);
            }
            let ghost g = f.push(a[k as int]);
            if cnt >= 1 && x.thread_id != accs[i1].thread_id {
                if !multi {
                    i2 = k;
                    proof {
                        p = cnt as int;
                        assert forall|j: int| 0 < j < p implies (#[trigger] g[j]).thread == g[0].thread by {
                            assert(g[j] == f[j]);
                            if f[j].thread != f[0].thread {
                                assert(several_threads(f));
                            }
                        }
                        assert(other_at(g, p));
                    }
                }
                multi = true;
            }
            proof {
                if multi {
                    assert(g[0] == f[0]);
                    assert forall|j: int| 0 < j < p implies (#[trigger] g[j]).thread == g[0].thread by {
                        assert(g[j] == f[j]);
                    }
                    if p < f.len() {
                        assert(g[p] == f[p]);
                    }
                }
            }
            if x.access_type == AccessType::Write {
                write = true;
            }
            if cnt == 0 {
                i1 = k;
            }
            cnt = cnt + 1;
        }
        k = k + 1;
    }
    assert(a.subrange(0, accs@.len() as int) =~= a);
    proof {
        if multi {
            lemma_first_other(accesses_to(a, v@), p);
        }
    }
    (multi, write, i1, i2)
}


proof fn lemma_accesses_to_thread(a: Seq<AccessModel>, v: Seq<char>, t: u32)
    requires
        forall|k: int| 0 <= k < a.len() ==> (#[trigger] a[k]).thread == t,
    ensures
        forall|k: int| 0 <= k < accesses_to(a, v).len() ==> (#[trigger] accesses_to(a, v)[k]).thread == t,
    decreases a.len(),
{
    if a.len() > 0 {
        assert forall|k: int| 0 <= k < a.drop_last().len() implies (#[trigger] a.drop_last()[k]).thread == t by {
            assert(a.drop_last()[k] == a[k]);
        }
        lemma_accesses_to_thread(a.drop_last(), v, t);
        assert(a.last().thread == t);
    }
}

/// Accesses that all come from one thread never race, whatever the locks.
pub proof fn law_one_thread_never_races(
    a: Seq<AccessModel>,
    prot: Seq<(Seq<char>, Seq<Seq<char>>)>,
    vars: Seq<Seq<char>>,
    t: u32,
)
    requires
        forall|k: int| 0 <= k < a.len() ==> (#[trigger] a[k]).thread == t,
    ensures
        data_races(a, prot, vars) =~= Seq::<RaceModel>::empty(),
    decreases vars.len(),
{
    if vars.len() > 0 {
        law_one_thread_never_races(a, prot, vars.drop_last(), t);
        let f = accesses_to(a, vars.last());
        lemma_accesses_to_thread(a, vars.last(), t);
        if several_threads(f) {
            let k = choose|k: int| 0 <= k < f.len() && (#[trigger] f[k]).thread != f[0].thread;
            assert(f[k].thread == t && f[0].thread == t);
        }
    }
}

proof fn lemma_other_exists(f: Seq<AccessModel>, k: int)
    requires
        0 <= k < f.len(),
        f[k].thread != f[0].thread,
    ensures
        other_at(f, first_other(f)),
    decreases k,
{
    if forall|j: int| 0 < j < k ==> (#[trigger] f[j]).thread == f[0].thread {
        assert(other_at(f, k));
    } else {
        let j = choose|j: int| 0 < j < k && (#[trigger] f[j]).thread != f[0].thread;
        lemma_other_exists(f, j);
    }
}

/// Every data race found names two different threads, each the thread of
/// one of the two accesses it reports.
pub proof fn law_races_name_two_threads(
    a: Seq<AccessModel>,
    prot: Seq<(Seq<char>, Seq<Seq<char>>)>,
    vars: Seq<Seq<char>>,
)
    ensures
        forall|i: int|
            0 <= i < data_races(a, prot, vars).len() ==> (#[trigger] data_races(a, prot, vars)[i] matches RaceModel::DataRace {
                thread1,
                thread2,
                ..
            } ==> thread1 != thread2),
    decreases vars.len(),
{
    if vars.len() > 0 {
        law_races_name_two_threads(a, prot, vars.drop_last());
        let f = accesses_to(a, vars.last());
        if several_threads(f) {
            let k = choose|k: int| 0 <= k < f.len() && (#[trigger] f[k]).thread != f[0].thread;
            lemma_other_exists(f, k);
        }
        let rest = data_races(a, prot, vars.drop_last());
        assert forall|i: int|
            0 <= i < data_races(a, prot, vars).len() implies (#[trigger] data_races(a, prot, vars)[i] matches RaceModel::DataRace {
            thread1,
            thread2,
            ..
        } ==> thread1 != thread2) by {
            if i < rest.len() {
                assert(data_races(a, prot, vars)[i] == rest[i]);
            }
        }
    }
}

/// A variable that a lock protects never races.
pub proof fn law_protected_never_races(
    a: Seq<AccessModel>,
    prot: Seq<(Seq<char>, Seq<Seq<char>>)>,
    vars: Seq<Seq<char>>,
)
    requires
        forall|k: int| 0 <= k < vars.len() ==> is_protected_in(prot, #[trigger] vars[k]),
    ensures
        data_races(a, prot, vars) =~= Seq::<RaceModel>::empty(),
    decreases vars.len(),
{
    if vars.len() > 0 {
        assert forall|k: int| 0 <= k < vars.drop_last().len() implies is_protected_in(prot, #[trigger] vars.drop_last()[k]) by {
            assert(vars.drop_last()[k] == vars[k]);
        }
        law_protected_never_races(a, prot, vars.drop_last());
        assert(is_protected_in(prot, vars[vars.len() - 1]));
    }
}

/// Releasing a lock undoes acquiring it: a thread that acquires and then
/// releases a lock leaves its holders as a release alone would, and as they
/// were when it did not hold the lock before.
pub proof fn law_release_undoes_acquire(acq: Seq<(u32, (u32, u32))>, tid: u32, pos: (u32, u32), pos2: (u32, u32))
    ensures
        holders_after(holders_after(acq, true, tid, pos), false, tid, pos2) == keyed_remove(acq, tid),
        first_key(acq, tid) is None ==> holders_after(holders_after(acq, true, tid, pos), false, tid, pos2) == acq,
{
    let t = keyed_insert(acq, tid, pos);
    lemma_first_key(acq, tid);
    match first_key(acq, tid) {
        Some(i) => {
            assert forall|j: int| 0 <= j < i implies t[j].0 != tid by {}
            lemma_first_key_scan(t, tid, i);
            assert(t.remove(i) =~= acq.remove(i));
        },
        None => {
            assert forall|j: int| 0 <= j < acq.len() implies t[j].0 != tid by {}
            lemma_first_key_scan(t, tid, acq.len() as int);
            assert(t.remove(acq.len() as int) =~= acq);
        },
    }
}

} // verus!
