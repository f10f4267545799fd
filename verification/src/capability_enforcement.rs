//! Capabilities for hardware-bound resources (sockets, tensors, memory regions):
//! their state machine, violations, and the per-function context that enforces them.
use vstd::prelude::*;
use crate::text::nat_decimal;
use crate::ownership_enforcement::{quoted, quote_between, append_decimal};

verus! {

/// The resource a capability grants access to.
#[derive(Clone, Copy, Debug, PartialEq, Eq, Structural, Hash)]
pub enum CapabilityKind {
    Socket,
    Tensor,
    Region,
    Concurrent,
}

impl CapabilityKind {
    pub open spec fn kind_text(self) -> Seq<char> {
        match self {
            CapabilityKind::Socket => "socket"@,
            CapabilityKind::Tensor => "tensor"@,
            CapabilityKind::Region => "region"@,
            CapabilityKind::Concurrent => "concurrent"@,
        }
    }

    /// The lower-case name of the kind.
    pub fn display(&self) -> (r: &'static str)
        ensures
            r@ == self.kind_text(),
    {
        match self {
            CapabilityKind::Socket => "socket",
            CapabilityKind::Tensor => "tensor",
            CapabilityKind::Region => "region",
            CapabilityKind::Concurrent => "concurrent",
        }
    }
}

/// The state of a capability.
#[derive(Clone, Copy, Debug, PartialEq, Eq, Structural, Hash)]
pub enum CapabilityState {
    Fresh,
    InUse,
    Suspended,
    Consumed,
    Error,
}

impl CapabilityState {
    pub open spec fn state_text(self) -> Seq<char> {
        match self {
            CapabilityState::Fresh => "fresh"@,
            CapabilityState::InUse => "in-use"@,
            CapabilityState::Suspended => "suspended"@,
            CapabilityState::Consumed => "consumed"@,
            CapabilityState::Error => "error"@,
        }
    }

    /// The name of the state.
    pub fn display(&self) -> (r: &'static str)
        ensures
            r@ == self.state_text(),
    {
        match self {
            CapabilityState::Fresh => "fresh",
            CapabilityState::InUse => "in-use",
            CapabilityState::Suspended => "suspended",
            CapabilityState::Consumed => "consumed",
            CapabilityState::Error => "error",
        }
    }

    pub open spec fn spec_can_use(&self) -> bool {
        *self is Fresh || *self is InUse
    }

    /// A fresh or in-use capability may be used.
    #[verifier::when_used_as_spec(spec_can_use)]
    pub fn can_use(&self) -> (r: bool)
        ensures
            r == self.spec_can_use(),
    {
        matches!(self, CapabilityState::Fresh | CapabilityState::InUse)
    }

    /// A fresh or in-use capability may be shared.
    #[verifier::when_used_as_spec(spec_can_use)]
    pub fn can_share(&self) -> (r: bool)
        ensures
            r == self.spec_can_use(),
    {
        matches!(self, CapabilityState::Fresh | CapabilityState::InUse)
    }
}

/// The legal transitions of the capability state machine: fresh to in-use or
/// consumed, in-use to suspended or consumed, suspended back to in-use, anything to
/// error, and error back to fresh.
pub open spec fn legal_transition(from: CapabilityState, to: CapabilityState) -> bool {
    ||| from is Fresh && to is InUse
    ||| from is Fresh && to is Consumed
    ||| from is InUse && to is Suspended
    ||| from is Suspended && to is InUse
    ||| from is InUse && to is Consumed
    ||| to is Error
    ||| from is Error && to is Fresh
}

/// A broken capability rule.
#[derive(Debug, PartialEq, Eq)]
pub enum CapabilityViolation {
    UseAfterConsumption { var_name: String, consumed_at: (u32, u32) },
    InvalidTransition { var_name: String, from: CapabilityState, to: CapabilityState },
    ConcurrentUseWithoutSync { var_name: String, first_access: (u32, u32), second_access: (u32, u32) },
    ResourceLeak { var_name: String, current_state: CapabilityState },
    ImproperSharing { var_name: String, shared_at: (u32, u32) },
}

/// A violation with the variable name as a character sequence.
pub enum ViolationModel {
    UseAfterConsumption { var_name: Seq<char>, consumed_at: (u32, u32) },
    InvalidTransition { var_name: Seq<char>, from: CapabilityState, to: CapabilityState },
    ConcurrentUseWithoutSync { var_name: Seq<char>, first_access: (u32, u32), second_access: (u32, u32) },
    ResourceLeak { var_name: Seq<char>, current_state: CapabilityState },
    ImproperSharing { var_name: Seq<char>, shared_at: (u32, u32) },
}

impl View for CapabilityViolation {
    type V = ViolationModel;

    open spec fn view(&self) -> ViolationModel {
        match self {
            CapabilityViolation::UseAfterConsumption { var_name, consumed_at } =>
                ViolationModel::UseAfterConsumption { var_name: var_name@, consumed_at: *consumed_at },
            CapabilityViolation::InvalidTransition { var_name, from, to } =>
                ViolationModel::InvalidTransition { var_name: var_name@, from: *from, to: *to },
            CapabilityViolation::ConcurrentUseWithoutSync { var_name, first_access, second_access } =>
                ViolationModel::ConcurrentUseWithoutSync { var_name: var_name@, first_access: *first_access,
                    second_access: *second_access },
            CapabilityViolation::ResourceLeak { var_name, current_state } =>
                ViolationModel::ResourceLeak { var_name: var_name@, current_state: *current_state },
            CapabilityViolation::ImproperSharing { var_name, shared_at } =>
                ViolationModel::ImproperSharing { var_name: var_name@, shared_at: *shared_at },
        }
    }
}

/// `r` is a refusal with violation `v`.
pub open spec fn refused_with(r: Result<(), CapabilityViolation>, v: ViolationModel) -> bool {
    match r {
        Err(e) => e@ == v,
        Ok(_) => false,
    }
}

/// `line:col` in decimal.
pub open spec fn at_text(p: (u32, u32)) -> Seq<char> {
    nat_decimal(p.0 as nat) + ":"@ + nat_decimal(p.1 as nat)
}

/// The message of a violation.
pub open spec fn violation_text(v: ViolationModel) -> Seq<char> {
    match v {
        ViolationModel::UseAfterConsumption { var_name, consumed_at } =>
            "capability "@ + quoted(var_name) + " used after consumption (consumed at "@ + at_text(consumed_at) + ")"@,
        ViolationModel::InvalidTransition { var_name, from, to } =>
            "invalid state transition for capability "@ + quoted(var_name) + ": "@ + from.state_text() + " → "@
                + to.state_text(),
        ViolationModel::ConcurrentUseWithoutSync { var_name, first_access, second_access } =>
            "capability "@ + quoted(var_name) + " used concurrently without synchronization (first at "@
                + at_text(first_access) + ", then at "@ + at_text(second_access) + ")"@,
        ViolationModel::ResourceLeak { var_name, current_state } =>
            "resource leak: capability "@ + quoted(var_name) + " not consumed before scope end (current state: "@
                + current_state.state_text() + ")"@,
        ViolationModel::ImproperSharing { var_name, shared_at } =>
            "capability "@ + quoted(var_name) + " shared without proper synchronization annotation (shared at "@
                + at_text(shared_at) + ")"@,
    }
}

fn append_at(out: &mut String, p: (u32, u32))
    ensures
        final(out)@ == old(out)@ + at_text(p),
{
    append_decimal(out, p.0 as u64);
    out.append(":");
    append_decimal(out, p.1 as u64);
    assert(final(out)@ =~= old(out)@ + at_text(p));
}

impl CapabilityViolation {
    /// The human-readable message.
    pub fn message(&self) -> (r: String)
        ensures
            r@ == violation_text(self@),
    {
        match self {
            CapabilityViolation::UseAfterConsumption { var_name, consumed_at } => {
                let mut m = quote_between("capability ", var_name.as_str(), " used after consumption (consumed at ");
                append_at(&mut m, *consumed_at);
                m.append(")");
                m
            },
            CapabilityViolation::InvalidTransition { var_name, from, to } => {
                let mut m = quote_between("invalid state transition for capability ", var_name.as_str(), ": ");
                m.append(from.display());
                m.append(" → ");
                m.append(to.display());
                m
            },
            CapabilityViolation::ConcurrentUseWithoutSync { var_name, first_access, second_access } => {
                let mut m = quote_between("capability ", var_name.as_str(),
                    " used concurrently without synchronization (first at ");
                append_at(&mut m, *first_access);
                m.append(", then at ");
                append_at(&mut m, *second_access);
                m.append(")");
                m
            },
            CapabilityViolation::ResourceLeak { var_name, current_state } => {
                let mut m = quote_between("resource leak: capability ", var_name.as_str(),
                    " not consumed before scope end (current state: ");
                m.append(current_state.display());
                m.append(")");
                m
            },
            CapabilityViolation::ImproperSharing { var_name, shared_at } => {
                let mut m = quote_between("capability ", var_name.as_str(),
                    " shared without proper synchronization annotation (shared at ");
                append_at(&mut m, *shared_at);
                m.append(")");
                m
            },
        }
    }
}

/// A capability bound to a variable, with its state history and the threads that
/// accessed it.
#[derive(Debug)]
pub struct CapabilityBinding {
    pub name: String,
    pub kind: CapabilityKind,
    pub state: CapabilityState,
    pub defined_at: (u32, u32),
    pub last_change_at: (u32, u32),
    pub history: Vec<(CapabilityState, u32, u32)>,
    pub shareable: bool,
    /// The ids of the threads that accessed the capability, each once.
    pub accessing_threads: Vec<u32>,
}

/// The mathematical value of a capability binding.
pub struct BindingModel {
    pub name: Seq<char>,
    pub kind: CapabilityKind,
    pub state: CapabilityState,
    pub defined_at: (u32, u32),
    pub last_change_at: (u32, u32),
    pub history: Seq<(CapabilityState, u32, u32)>,
    pub shareable: bool,
    pub threads: Set<u32>,
}

impl View for CapabilityBinding {
    type V = BindingModel;

    open spec fn view(&self) -> BindingModel {
        BindingModel {
            name: self.name@,
            kind: self.kind,
            state: self.state,
            defined_at: self.defined_at,
            last_change_at: self.last_change_at,
            history: self.history@,
            shareable: self.shareable,
            threads: self.accessing_threads@.to_set(),
        }
    }
}

fn has_u32(v: &Vec<u32>, t: u32) -> (r: bool)
    ensures
        r == v@.contains(t),
{
    let mut k: usize = 0;
    while k < v.len()
        invariant
            k <= v.len(),
            forall|i: int| 0 <= i < k ==> v@[i] != t,
        decreases v.len() - k,
    {
        if v[k] == t {
            assert(v@[k as int] == t);
            return true;
        }
        k = k + 1;
    }
    false
}

fn insert_thread(v: &mut Vec<u32>, t: u32)
    requires
        old(v)@.no_duplicates(),
    ensures
        final(v)@.no_duplicates(),
        final(v)@.to_set() == old(v)@.to_set().insert(t),
{
    if has_u32(v, t) {
        assert(v@.to_set() =~= v@.to_set().insert(t));
    } else {
        let ghost before = v@;
        v.push(t);
        proof {
            assert(v@ == before.push(t));
            assert forall|x: u32| v@.contains(x) <==> before.contains(x) || x == t by {
                if v@.contains(x) {
                    let i = choose|i: int| 0 <= i < v@.len() && v@[i] == x;
                    if i < before.len() {
                        assert(before[i] == x);
                    }
                }
                if before.contains(x) {
                    let i = choose|i: int| 0 <= i < before.len() && before[i] == x;
                    assert(v@[i] == x);
                }
                if x == t {
                    assert(v@[before.len() as int] == x);
                }
            }
            assert(v@.to_set() =~= before.to_set().insert(t));
        }
    }
}

fn copy_states(h: &Vec<(CapabilityState, u32, u32)>) -> (r: Vec<(CapabilityState, u32, u32)>)
    ensures
        r@ == h@,
{
    let mut out = Vec::new();
    let mut k: usize = 0;
    while k < h.len()
        invariant
            k <= h.len(),
            out@ == h@.subrange(0, k as int),
        decreases h.len() - k,
    {
        out.push(h[k]);
        k = k + 1;
    }
    assert(h@.subrange(0, h.len() as int) =~= h@);
    out
}

fn copy_u32s(h: &Vec<u32>) -> (r: Vec<u32>)
    ensures
        r@ == h@,
{
    let mut out = Vec::new();
    let mut k: usize = 0;
    while k < h.len()
        invariant
            k <= h.len(),
            out@ == h@.subrange(0, k as int),
        decreases h.len() - k,
    {
        out.push(h[k]);
        k = k + 1;
    }
    assert(h@.subrange(0, h.len() as int) =~= h@);
    out
}

impl CapabilityBinding {
    /// The accessing threads are listed without repetition.
    pub open spec fn wf(&self) -> bool {
        self.accessing_threads@.no_duplicates()
    }

    /// A fresh capability defined at `line:col`, whose history starts with that state.
    pub fn new(name: String, kind: CapabilityKind, line: u32, col: u32) -> (r: Self)
        ensures
            r.wf(),
            r@ == (BindingModel {
                name: name@,
                kind: kind,
                state: CapabilityState::Fresh,
                defined_at: (line, col),
                last_change_at: (line, col),
                history: seq![(CapabilityState::Fresh, line, col)],
                shareable: false,
                threads: Set::empty(),
            }),
    {
        let mut history = Vec::new();
        history.push((CapabilityState::Fresh, line, col));
        let r = CapabilityBinding {
            name,
            kind,
            state: CapabilityState::Fresh,
            defined_at: (line, col),
            last_change_at: (line, col),
            history,
            shareable: false,
            accessing_threads: Vec::new(),
        };
        assert(r@.history =~= seq![(CapabilityState::Fresh, line, col)]);
        assert(r@.threads =~= Set::empty());
        r
    }

    /// A copy with the same contents.
    pub fn duplicate(&self) -> (r: Self)
        ensures
            r@ == self@,
            r.wf() == self.wf(),
    {
        CapabilityBinding {
            name: self.name.clone(),
            kind: self.kind,
            state: self.state,
            defined_at: self.defined_at,
            last_change_at: self.last_change_at,
            history: copy_states(&self.history),
            shareable: self.shareable,
            accessing_threads: copy_u32s(&self.accessing_threads),
        }
    }

    /// Moves to `new_state` at `line:col` when the transition is legal (see
    /// [`legal_transition`]), recording it in the history; otherwise refuses with an
    /// invalid-transition violation and changes nothing.
    pub fn transition(&mut self, new_state: CapabilityState, line: u32, col: u32) -> (r: Result<(), CapabilityViolation>)
        ensures
            legal_transition(old(self).state, new_state) ==> r is Ok && final(self)@ == (BindingModel {
                state: new_state,
                last_change_at: (line, col),
                history: old(self)@.history.push((new_state, line, col)),
                ..old(self)@
            }) && final(self).accessing_threads == old(self).accessing_threads,
            !legal_transition(old(self).state, new_state) ==> *final(self) == *old(self) && refused_with(r,
                ViolationModel::InvalidTransition { var_name: old(self)@.name, from: old(self).state, to: new_state }),
    {
        let legal = match (self.state, new_state) {
            (CapabilityState::Fresh, CapabilityState::InUse) => true,
            (CapabilityState::Fresh, CapabilityState::Consumed) => true,
            (CapabilityState::InUse, CapabilityState::Suspended) => true,
            (CapabilityState::Suspended, CapabilityState::InUse) => true,
            (CapabilityState::InUse, CapabilityState::Consumed) => true,
            (_, CapabilityState::Error) => true,
            (CapabilityState::Error, CapabilityState::Fresh) => true,
            _ => false,
        };
        if !legal {
            return Err(CapabilityViolation::InvalidTransition {
                var_name: self.name.clone(),
                from: self.state,
                to: new_state,
            });
        }
        self.state = new_state;
        self.last_change_at = (line, col);
        self.history.push((new_state, line, col));
        Ok(())
    }
}

/// The models of a list of bindings.
pub open spec fn caps_of(bs: Seq<CapabilityBinding>) -> Seq<BindingModel> {
    bs.map_values(|b: CapabilityBinding| b@)
}

/// The position of the capability named `name`.
pub open spec fn find_cap(bs: Seq<BindingModel>, name: Seq<char>) -> Option<int>
    decreases bs.len(),
{
    if bs.len() == 0 {
        None
    } else if bs.last().name == name {
        Some(bs.len() - 1)
    } else {
        find_cap(bs.drop_last(), name)
    }
}

pub proof fn lemma_find_cap(bs: Seq<BindingModel>, name: Seq<char>)
    ensures
        find_cap(bs, name) matches Some(i) ==> 0 <= i < bs.len() && bs[i].name == name,
        find_cap(bs, name) is None ==> forall|i: int| 0 <= i < bs.len() ==> bs[i].name != name,
    decreases bs.len(),
{
    if bs.len() > 0 {
        lemma_find_cap(bs.drop_last(), name);
        assert forall|i: int| 0 <= i < bs.len() - 1 implies bs[i] == bs.drop_last()[i] by {}
    }
}

/// The capabilities that are not consumed, as resource leaks, in order.
pub open spec fn leaks(bs: Seq<BindingModel>) -> Seq<ViolationModel>
    decreases bs.len(),
{
    if bs.len() == 0 {
        Seq::empty()
    } else if bs.last().state is Consumed {
        leaks(bs.drop_last())
    } else {
        leaks(bs.drop_last()).push(ViolationModel::ResourceLeak { var_name: bs.last().name, current_state: bs.last().state })
    }
}

/// The capabilities accessed by more than one thread without being shareable, in order.
pub open spec fn unsynchronized(bs: Seq<BindingModel>) -> Seq<ViolationModel>
    decreases bs.len(),
{
    if bs.len() == 0 {
        Seq::empty()
    } else {
        let b = bs.last();
        if b.threads.len() > 1 && !b.shareable {
            unsynchronized(bs.drop_last()).push(ViolationModel::ConcurrentUseWithoutSync {
                var_name: b.name,
                first_access: b.defined_at,
                second_access: b.last_change_at,
            })
        } else {
            unsynchronized(bs.drop_last())
        }
    }
}

/// The violation a call reports, or `None` when it succeeded.
pub open spec fn outcome(r: Result<(), CapabilityViolation>) -> Option<ViolationModel> {
    match r {
        Ok(_) => None,
        Err(e) => Some(e@),
    }
}

/// Using `name` at `loc` from thread `tid`: the capabilities afterwards and the
/// violation reported, if any. An undefined name is a use after consumption at `loc`;
/// a consumed one, a use after consumption where it was consumed; a suspended one or
/// one in error, an invalid transition to in-use. Otherwise the thread is recorded and
/// a fresh capability moves to in-use.
pub open spec fn use_step(caps: Seq<BindingModel>, name: Seq<char>, loc: (u32, u32), tid: u32)
    -> (Seq<BindingModel>, Option<ViolationModel>)
{
    match find_cap(caps, name) {
        None => (caps, Some(ViolationModel::UseAfterConsumption { var_name: name, consumed_at: loc })),
        Some(i) => {
            let b = caps[i];
            if b.state is Consumed {
                (caps, Some(ViolationModel::UseAfterConsumption { var_name: name, consumed_at: b.last_change_at }))
            } else if !b.state.spec_can_use() {
                (caps, Some(ViolationModel::InvalidTransition { var_name: name, from: b.state, to: CapabilityState::InUse }))
            } else if b.state is InUse {
                (caps.update(i, BindingModel { threads: b.threads.insert(tid), ..b }), None)
            } else {
                (caps.update(i, BindingModel {
                    threads: b.threads.insert(tid),
                    state: CapabilityState::InUse,
                    last_change_at: loc,
                    history: b.history.push((CapabilityState::InUse, loc.0, loc.1)),
                    ..b
                }), None)
            }
        },
    }
}

/// Consuming `name` at `loc` from thread `tid`. An undefined name is a use after
/// consumption at `loc`. Otherwise the thread is recorded, and the capability moves to
/// consumed when that transition is legal; when it is not, the transition is refused.
pub open spec fn consume_step(caps: Seq<BindingModel>, name: Seq<char>, loc: (u32, u32), tid: u32)
    -> (Seq<BindingModel>, Option<ViolationModel>)
{
    match find_cap(caps, name) {
        None => (caps, Some(ViolationModel::UseAfterConsumption { var_name: name, consumed_at: loc })),
        Some(i) => {
            let b = caps[i];
            let seen = BindingModel { threads: b.threads.insert(tid), ..b };
            if legal_transition(b.state, CapabilityState::Consumed) {
                (caps.update(i, BindingModel {
                    state: CapabilityState::Consumed,
                    last_change_at: loc,
                    history: b.history.push((CapabilityState::Consumed, loc.0, loc.1)),
                    ..seen
                }), None)
            } else {
                (caps.update(i, seen), Some(ViolationModel::InvalidTransition {
                    var_name: name, from: b.state, to: CapabilityState::Consumed }))
            }
        },
    }
}

/// Sharing `name` at `loc` from thread `tid`: refused as improper sharing when it is
/// not defined or neither fresh nor in-use; otherwise it becomes shareable and the
/// thread is recorded.
pub open spec fn share_step(caps: Seq<BindingModel>, name: Seq<char>, loc: (u32, u32), tid: u32)
    -> (Seq<BindingModel>, Option<ViolationModel>)
{
    match find_cap(caps, name) {
        None => (caps, Some(ViolationModel::ImproperSharing { var_name: name, shared_at: loc })),
        Some(i) => {
            let b = caps[i];
            if !b.state.spec_can_use() {
                (caps, Some(ViolationModel::ImproperSharing { var_name: name, shared_at: loc }))
            } else {
                (caps.update(i, BindingModel { shareable: true, threads: b.threads.insert(tid), ..b }), None)
            }
        },
    }
}

/// `r` is a refusal whose violation is `v`.
pub open spec fn refused_first(r: Result<Vec<CapabilityViolation>, CapabilityViolation>, v: ViolationModel) -> bool {
    match r {
        Err(e) => e@ == v,
        Ok(_) => false,
    }
}

/// The models of a list of violations.
pub open spec fn violations_of(vs: Seq<CapabilityViolation>) -> Seq<ViolationModel> {
    vs.map_values(|v: CapabilityViolation| v@)
}

fn dup_bindings(bs: &Vec<CapabilityBinding>) -> (r: Vec<CapabilityBinding>)
    ensures
        caps_of(r@) == caps_of(bs@),
        forall|i: int| 0 <= i < r@.len() ==> (#[trigger] r@[i]).wf() == bs@[i].wf(),
{
    let mut out: Vec<CapabilityBinding> = Vec::new();
    let mut k: usize = 0;
    while k < bs.len()
        invariant
            k <= bs.len(),
            out@.len() == k,
            forall|i: int| 0 <= i < k ==> (#[trigger] out@[i])@ == bs@[i]@ && out@[i].wf() == bs@[i].wf(),
        decreases bs.len() - k,
    {
        out.push(bs[k].duplicate());
        k = k + 1;
    }
    assert(caps_of(out@) =~= caps_of(bs@));
    out
}

/// All capabilities of a function: the current bindings, the saved bindings of the
/// enclosing scopes, the shared names, the current location and thread.
#[derive(Debug)]
pub struct CapabilityContext {
    current_location: (u32, u32),
    bindings: Vec<CapabilityBinding>,
    scope_stack: Vec<Vec<CapabilityBinding>>,
    shared_capabilities: Vec<String>,
    current_thread_id: u32,
}

/// Names are unique and every binding is well formed.
pub open spec fn caps_wf(bs: Seq<CapabilityBinding>) -> bool {
    &&& forall|i: int| 0 <= i < bs.len() ==> (#[trigger] bs[i]).wf()
    &&& forall|i: int, j: int| 0 <= i < j < bs.len() ==> bs[i]@.name != bs[j]@.name
}

impl CapabilityContext {
    pub closed spec fn wf(&self) -> bool {
        &&& caps_wf(self.bindings@)
        &&& forall|i: int| 0 <= i < self.scope_stack@.len() ==> caps_wf(#[trigger] self.scope_stack@[i]@)
    }

    /// The current capabilities.
    pub closed spec fn caps(&self) -> Seq<BindingModel> {
        caps_of(self.bindings@)
    }

    /// The capabilities saved on scope entry, outermost first.
    pub closed spec fn saved(&self) -> Seq<Seq<BindingModel>> {
        self.scope_stack@.map_values(|v: Vec<CapabilityBinding>| caps_of(v@))
    }

    /// The names marked as shared, each once.
    pub closed spec fn shared(&self) -> Set<Seq<char>> {
        self.shared_capabilities@.map_values(|s: String| s@).to_set()
    }

    pub closed spec fn location(&self) -> (u32, u32) {
        self.current_location
    }

    pub closed spec fn thread(&self) -> u32 {
        self.current_thread_id
    }

    /// No capabilities, no saved scopes, location 0:0, thread 0.
    pub fn new() -> (r: Self)
        ensures
            r.wf(),
            r.caps().len() == 0,
            r.saved().len() == 0,
            r.shared().len() == 0,
            r.location() == (0u32, 0u32),
            r.thread() == 0,
    {
        let r = CapabilityContext {
            current_location: (0, 0),
            bindings: Vec::new(),
            scope_stack: Vec::new(),
            shared_capabilities: Vec::new(),
            current_thread_id: 0,
        };
        assert(r.caps() =~= Seq::empty());
        assert(r.saved() =~= Seq::empty());
        assert(r.shared() =~= Set::empty());
        r
    }

    /// Sets the location that later records carry.
    pub fn set_location(&mut self, line: u32, col: u32)
        requires
            old(self).wf(),
        ensures
            final(self).wf(),
            final(self).location() == (line, col),
            final(self).caps() == old(self).caps(),
            final(self).saved() == old(self).saved(),
            final(self).shared() == old(self).shared(),
            final(self).thread() == old(self).thread(),
    {
        self.current_location = (line, col);
    }

    /// Sets the thread that later accesses are attributed to.
    pub fn set_current_thread(&mut self, thread_id: u32)
        requires
            old(self).wf(),
        ensures
            final(self).wf(),
            final(self).thread() == thread_id,
            final(self).caps() == old(self).caps(),
            final(self).saved() == old(self).saved(),
            final(self).shared() == old(self).shared(),
            final(self).location() == old(self).location(),
    {
        self.current_thread_id = thread_id;
    }

    fn find(&self, name: &str) -> (r: Option<usize>)
        ensures
            r matches Some(i) ==> find_cap(self.caps(), name@) == Some(i as int),
            r is None ==> find_cap(self.caps(), name@) is None,
    {
        let ghost bs = self.caps();
        assert(bs.subrange(0, bs.len() as int) =~= bs);
        let mut hi: usize = self.bindings.len();
        while hi > 0
            invariant
                hi <= self.bindings@.len(),
                bs == self.caps(),
                find_cap(bs, name@) == find_cap(bs.subrange(0, hi as int), name@),
            decreases hi,
        {
            let ghost sub = bs.subrange(0, hi as int);
            assert(sub.drop_last() =~= bs.subrange(0, hi - 1));
            if crate::text::str_eq(self.bindings[hi - 1].name.as_str(), name) {
                return Some(hi - 1);
            }
            hi = hi - 1;
        }
        None
    }

    /// Defines a fresh capability at the current location; a name already defined is
    /// refused as improper sharing and nothing changes.
    pub fn define_capability(&mut self, name: String, kind: CapabilityKind) -> (r: Result<(), CapabilityViolation>)
        requires
            old(self).wf(),
        ensures
            final(self).wf(),
            find_cap(old(self).caps(), name@) is Some ==> *final(self) == *old(self) && refused_with(r,
                ViolationModel::ImproperSharing { var_name: name@, shared_at: old(self).location() }),
            find_cap(old(self).caps(), name@) is None ==> r is Ok && final(self).caps() == old(self).caps().push(BindingModel {
                name: name@,
                kind: kind,
                state: CapabilityState::Fresh,
                defined_at: old(self).location(),
                last_change_at: old(self).location(),
                history: seq![(CapabilityState::Fresh, old(self).location().0, old(self).location().1)],
                shareable: false,
                threads: Set::empty(),
            }) && final(self).saved() == old(self).saved() && final(self).shared() == old(self).shared()
                && final(self).location() == old(self).location() && final(self).thread() == old(self).thread(),
    {
        if self.find(name.as_str()).is_some() {
            return Err(CapabilityViolation::ImproperSharing { var_name: name, shared_at: self.current_location });
        }
        proof { lemma_find_cap(self.caps(), name@); }
        let b = CapabilityBinding::new(name, kind, self.current_location.0, self.current_location.1);
        let ghost before = self.bindings@;
        self.bindings.push(b);
        proof {
            assert(caps_of(self.bindings@) =~= caps_of(before).push(b@));
            assert forall|i: int, j: int| 0 <= i < j < self.bindings@.len() implies self.bindings@[i]@.name != self.bindings@[j]@.name by {
                if j == before.len() {
                    assert(caps_of(before)[i].name != b@.name);
                }
            }
        }
        Ok(())
    }

    fn take_at(&mut self, i: usize) -> (b: CapabilityBinding)
        requires
            old(self).wf(),
            i < old(self).caps().len(),
        ensures
            b@ == old(self).caps()[i as int],
            b.wf(),
            final(self).bindings@ == old(self).bindings@.remove(i as int),
            final(self).scope_stack == old(self).scope_stack,
            final(self).shared_capabilities == old(self).shared_capabilities,
            final(self).current_location == old(self).current_location,
            final(self).current_thread_id == old(self).current_thread_id,
    {
        self.bindings.remove(i)
    }

    fn put_at(&mut self, i: usize, b: CapabilityBinding, Ghost(orig): Ghost<Seq<CapabilityBinding>>)
        requires
            caps_wf(orig),
            forall|x: int| 0 <= x < orig.len() ==> (#[trigger] orig[x]).wf(),
            forall|x: int| 0 <= x < old(self).scope_stack@.len() ==> caps_wf(#[trigger] old(self).scope_stack@[x]@),
            i < orig.len(),
            old(self).bindings@ == orig.remove(i as int),
            b@.name == orig[i as int]@.name,
            b.wf(),
        ensures
            final(self).wf(),
            final(self).caps() == caps_of(orig).update(i as int, b@),
            final(self).scope_stack == old(self).scope_stack,
            final(self).shared_capabilities == old(self).shared_capabilities,
            final(self).current_location == old(self).current_location,
            final(self).current_thread_id == old(self).current_thread_id,
    {
        self.bindings.insert(i, b);
        proof {
            assert(self.bindings@ =~= orig.update(i as int, b));
            assert(caps_of(self.bindings@) =~= caps_of(orig).update(i as int, b@));
            assert forall|x: int, y: int| 0 <= x < y < self.bindings@.len() implies self.bindings@[x]@.name != self.bindings@[y]@.name by {
                assert(orig[x]@.name != orig[y]@.name);
            }
        }
    }

    /// Uses a capability from the current thread at the current location: refused when
    /// it is not defined (use after consumption at the current location), consumed (use
    /// after consumption where it was consumed), or suspended or in error (invalid
    /// transition to in-use). Otherwise the thread is recorded and a fresh capability
    /// moves to in-use.
    pub fn use_capability(&mut self, name: &str) -> (r: Result<(), CapabilityViolation>)
        requires
            old(self).wf(),
        ensures
            final(self).wf(),
            final(self).saved() == old(self).saved(),
            final(self).shared() == old(self).shared(),
            final(self).location() == old(self).location(),
            final(self).thread() == old(self).thread(),
            final(self).caps() == use_step(old(self).caps(), name@, old(self).location(), old(self).thread()).0,
            outcome(r) == use_step(old(self).caps(), name@, old(self).location(), old(self).thread()).1,
    {
        let found = self.find(name);
        proof { lemma_find_cap(self.caps(), name@); }
        match found {
            None => Err(CapabilityViolation::UseAfterConsumption {
                var_name: String::from_str(name),
                consumed_at: self.current_location,
            }),
            Some(i) => {
                let st = self.bindings[i].state;
                if !st.can_use() {
                    if st == CapabilityState::Consumed {
                        return Err(CapabilityViolation::UseAfterConsumption {
                            var_name: String::from_str(name),
                            consumed_at: self.bindings[i].last_change_at,
                        });
                    }
                    return Err(CapabilityViolation::InvalidTransition {
                        var_name: String::from_str(name),
                        from: st,
                        to: CapabilityState::InUse,
                    });
                }
                let ghost orig = self.bindings@;
                let loc = self.current_location;
                let tid = self.current_thread_id;
                let mut b = self.take_at(i);
                insert_thread(&mut b.accessing_threads, tid);
                if b.state != CapabilityState::InUse {
                    let _ = b.transition(CapabilityState::InUse, loc.0, loc.1);
                }
                self.put_at(i, b, Ghost(orig));
                Ok(())
            },
        }
    }

    /// Consumes a capability from the current thread at the current location: refused
    /// when it is not defined (use after consumption at the current location).
    /// Otherwise the thread is recorded, and the capability moves to consumed when that
    /// transition is legal (from fresh or in-use); when it is not, the transition is
    /// refused and only the thread stays recorded.
    pub fn consume_capability(&mut self, name: &str) -> (r: Result<(), CapabilityViolation>)
        requires
            old(self).wf(),
        ensures
            final(self).wf(),
            final(self).saved() == old(self).saved(),
            final(self).shared() == old(self).shared(),
            final(self).location() == old(self).location(),
            final(self).thread() == old(self).thread(),
            final(self).caps() == consume_step(old(self).caps(), name@, old(self).location(), old(self).thread()).0,
            outcome(r) == consume_step(old(self).caps(), name@, old(self).location(), old(self).thread()).1,
    {
        let found = self.find(name);
        proof { lemma_find_cap(self.caps(), name@); }
        match found {
            None => Err(CapabilityViolation::UseAfterConsumption {
                var_name: String::from_str(name),
                consumed_at: self.current_location,
            }),
            Some(i) => {
                let ghost orig = self.bindings@;
                let loc = self.current_location;
                let tid = self.current_thread_id;
                let mut b = self.take_at(i);
                insert_thread(&mut b.accessing_threads, tid);
                let r = b.transition(CapabilityState::Consumed, loc.0, loc.1);
                self.put_at(i, b, Ghost(orig));
                r
            },
        }
    }

    /// Shares a capability from the current thread: refused as improper sharing when
    /// it is not defined or cannot be shared (neither fresh nor in-use). Otherwise it
    /// becomes shareable, the thread is recorded, and the name is marked shared.
    pub fn share_capability(&mut self, name: &str) -> (r: Result<(), CapabilityViolation>)
        requires
            old(self).wf(),
        ensures
            final(self).wf(),
            final(self).saved() == old(self).saved(),
            final(self).location() == old(self).location(),
            final(self).thread() == old(self).thread(),
            final(self).caps() == share_step(old(self).caps(), name@, old(self).location(), old(self).thread()).0,
            outcome(r) == share_step(old(self).caps(), name@, old(self).location(), old(self).thread()).1,
            final(self).shared() == if outcome(r) is None { old(self).shared().insert(name@) } else { old(self).shared() },
    {
        let found = self.find(name);
        proof { lemma_find_cap(self.caps(), name@); }
        match found {
            None => Err(CapabilityViolation::ImproperSharing {
                var_name: String::from_str(name),
                shared_at: self.current_location,
            }),
            Some(i) => {
                if !self.bindings[i].state.can_share() {
                    return Err(CapabilityViolation::ImproperSharing {
                        var_name: String::from_str(name),
                        shared_at: self.current_location,
                    });
                }
                let ghost orig = self.bindings@;
                let tid = self.current_thread_id;
                let mut b = self.take_at(i);
                b.shareable = true;
                insert_thread(&mut b.accessing_threads, tid);
                self.put_at(i, b, Ghost(orig));
                let ghost before = self.shared_capabilities@;
                if !crate::move_tracking::contains_name(&self.shared_capabilities, name) {
                    self.shared_capabilities.push(String::from_str(name));
                }
                proof {
                    let bt = before.map_values(|s: String| s@);
                    let at = self.shared_capabilities@.map_values(|s: String| s@);
                    if at.len() != bt.len() {
                        assert(at =~= bt.push(name@));
                        assert forall|x: Seq<char>| at.contains(x) <==> bt.contains(x) || x == name@ by {
                            if at.contains(x) {
                                let k = choose|k: int| 0 <= k < at.len() && at[k] == x;
                                if k < bt.len() {
                                    assert(bt[k] == x);
                                }
                            }
                            if bt.contains(x) {
                                let k = choose|k: int| 0 <= k < bt.len() && bt[k] == x;
                                assert(at[k] == x);
                            }
                            if x == name@ {
                                assert(at[bt.len() as int] == x);
                            }
                        }
                    } else {
                        assert(at =~= bt);
                        assert(bt.contains(name@)) by {
                            assert(crate::move_tracking::names_of(before) =~= bt);
                        }
                    }
                    assert(self.shared() =~= before.map_values(|s: String| s@).to_set().insert(name@));
                }
                Ok(())
            },
        }
    }

    /// A capability accessed by more than one thread must be shareable.
    pub fn check_concurrent_access(&self, name: &str) -> (r: Result<(), CapabilityViolation>)
        requires
            self.wf(),
        ensures
            match find_cap(self.caps(), name@) {
                Some(i) => {
                    let b = self.caps()[i];
                    if b.threads.len() > 1 && !b.shareable {
                        refused_with(r, ViolationModel::ConcurrentUseWithoutSync {
                            var_name: name@, first_access: b.defined_at, second_access: b.last_change_at })
                    } else {
                        r is Ok
                    }
                },
                None => r is Ok,
            },
    {
        let found = self.find(name);
        proof { lemma_find_cap(self.caps(), name@); }
        if let Some(i) = found {
            let b = &self.bindings[i];
            proof { b.accessing_threads@.unique_seq_to_set(); }
            if b.accessing_threads.len() > 1 && !b.shareable {
                return Err(CapabilityViolation::ConcurrentUseWithoutSync {
                    var_name: String::from_str(name),
                    first_access: b.defined_at,
                    second_access: b.last_change_at,
                });
            }
        }
        Ok(())
    }

    /// Saves the current capabilities; they come back on scope exit.
    pub fn enter_scope(&mut self)
        requires
            old(self).wf(),
        ensures
            final(self).wf(),
            final(self).caps() == old(self).caps(),
            final(self).saved() == old(self).saved().push(old(self).caps()),
            final(self).shared() == old(self).shared(),
            final(self).location() == old(self).location(),
            final(self).thread() == old(self).thread(),
    {
        let copy = dup_bindings(&self.bindings);
        let ghost cp = copy@;
        let ghost before = self.scope_stack@;
        proof {
            let cc = caps_of(cp);
            let cb = caps_of(self.bindings@);
            assert(cc.len() == cp.len());
            assert forall|i: int, j: int| 0 <= i < j < cp.len() implies cp[i]@.name != cp[j]@.name by {
                assert(cc[i] == cp[i]@);
                assert(cc[j] == cp[j]@);
                assert(cb[i] == self.bindings@[i]@);
                assert(cb[j] == self.bindings@[j]@);
            }
            assert forall|i: int| 0 <= i < cp.len() implies (#[trigger] cp[i]).wf() by {
                assert(cp[i].wf() == self.bindings@[i].wf());
            }
            assert(caps_wf(cp));
        }
        self.scope_stack.push(copy);
        proof {
            assert(self.saved() =~= old(self).saved().push(old(self).caps()));
            assert forall|x: int| 0 <= x < self.scope_stack@.len() implies caps_wf(#[trigger] self.scope_stack@[x]@) by {
                if x < before.len() {
                    assert(self.scope_stack@[x] == before[x]);
                } else {
                    assert(self.scope_stack@[x]@ == cp);
                }
            }
        }
    }

    /// Leaves a scope: every current capability that is not consumed is a resource
    /// leak (in order of definition); the capabilities saved on entry come back (when
    /// there are any). Succeeds with no violation, or fails with the first leak.
    pub fn exit_scope(&mut self) -> (r: Result<Vec<CapabilityViolation>, CapabilityViolation>)
        requires
            old(self).wf(),
        ensures
            final(self).wf(),
            old(self).saved().len() > 0 ==> final(self).caps() == old(self).saved().last()
                && final(self).saved() == old(self).saved().drop_last(),
            old(self).saved().len() == 0 ==> final(self).caps() == old(self).caps() && final(self).saved() == old(self).saved(),
            final(self).shared() == old(self).shared(),
            final(self).location() == old(self).location(),
            final(self).thread() == old(self).thread(),
            leaks(old(self).caps()).len() == 0 ==> (r matches Ok(v) && v@.len() == 0),
            leaks(old(self).caps()).len() > 0 ==> refused_first(r, leaks(old(self).caps())[0]),
    {
        let ghost caps = self.caps();
        let mut violations: Vec<CapabilityViolation> = Vec::new();
        let mut k: usize = 0;
        while k < self.bindings.len()
            invariant
                k <= self.bindings@.len(),
                caps == self.caps(),
                violations_of(violations@) == leaks(caps.subrange(0, k as int)),
            decreases self.bindings.len() - k,
        {
            proof { assert(caps.subrange(0, k + 1).drop_last() =~= caps.subrange(0, k as int)); }
            if self.bindings[k].state != CapabilityState::Consumed {
                let v = CapabilityViolation::ResourceLeak {
                    var_name: self.bindings[k].name.clone(),
                    current_state: self.bindings[k].state,
                };
                let ghost before = violations@;
                violations.push(v);
                assert(violations_of(violations@) =~= violations_of(before).push(v@));
            }
            k = k + 1;
        }
        assert(caps.subrange(0, self.bindings@.len() as int) =~= caps);
        let ghost stack = self.scope_stack@;
        if let Some(prev) = self.scope_stack.pop() {
            self.bindings = prev;
            proof {
                assert(self.saved() =~= old(self).saved().drop_last());
                assert(caps_wf(stack[stack.len() - 1]@));
                assert forall|x: int| 0 <= x < self.scope_stack@.len() implies caps_wf(#[trigger] self.scope_stack@[x]@) by {
                    assert(self.scope_stack@[x] == stack[x]);
                }
            }
        }
        if violations.len() == 0 {
            Ok(violations)
        } else {
            assert(violations_of(violations@)[0] == violations@[0]@);
            Err(violations.remove(0))
        }
    }

    /// The state of the capability named `name`.
    pub fn get_state(&self, name: &str) -> (r: Option<CapabilityState>)
        ensures
            r == match find_cap(self.caps(), name@) {
                Some(i) => Some(self.caps()[i].state),
                None => None,
            },
    {
        proof { lemma_find_cap(self.caps(), name@); }
        match self.find(name) {
            Some(i) => Some(self.bindings[i].state),
            None => None,
        }
    }

    /// Whether a capability named `name` is defined.
    pub fn binding_exists(&self, name: &str) -> (r: bool)
        ensures
            r == find_cap(self.caps(), name@) is Some,
    {
        self.find(name).is_some()
    }

    /// The state history of the capability named `name`.
    pub fn get_history(&self, name: &str) -> (r: Option<Vec<(CapabilityState, u32, u32)>>)
        ensures
            match find_cap(self.caps(), name@) {
                Some(i) => r matches Some(h) && h@ == self.caps()[i].history,
                None => r is None,
            },
    {
        proof { lemma_find_cap(self.caps(), name@); }
        match self.find(name) {
            Some(i) => Some(copy_states(&self.bindings[i].history)),
            None => None,
        }
    }

    /// The capabilities accessed by more than one thread without being shareable, in
    /// order of definition (leaks are reported on scope exit instead).
    pub fn validate_all(&self) -> (r: Vec<CapabilityViolation>)
        requires
            self.wf(),
        ensures
            violations_of(r@) == unsynchronized(self.caps()),
    {
        let ghost caps = self.caps();
        let mut out: Vec<CapabilityViolation> = Vec::new();
        let mut k: usize = 0;
        while k < self.bindings.len()
            invariant
                k <= self.bindings@.len(),
                caps == self.caps(),
                self.wf(),
                violations_of(out@) == unsynchronized(caps.subrange(0, k as int)),
            decreases self.bindings.len() - k,
        {
            proof {
                assert(caps.subrange(0, k + 1).drop_last() =~= caps.subrange(0, k as int));
                self.bindings@[k as int].accessing_threads@.unique_seq_to_set();
            }
            let b = &self.bindings[k];
            if b.accessing_threads.len() > 1 && !b.shareable {
                let v = CapabilityViolation::ConcurrentUseWithoutSync {
                    var_name: b.name.clone(),
                    first_access: b.defined_at,
                    second_access: b.last_change_at,
                };
                let ghost before = out@;
                out.push(v);
                assert(violations_of(out@) =~= violations_of(before).push(v@));
            }
            k = k + 1;
        }
        assert(caps.subrange(0, self.bindings@.len() as int) =~= caps);
        out
    }
}


/// Replacing an entry by one with the same name finds every name where it was.
proof fn lemma_find_cap_update(bs: Seq<BindingModel>, i: int, nb: BindingModel, name: Seq<char>)
    requires
        0 <= i < bs.len(),
        nb.name == bs[i].name,
    ensures
        find_cap(bs.update(i, nb), name) == find_cap(bs, name),
    decreases bs.len(),
{
    let t = bs.update(i, nb);
    if i == bs.len() - 1 {
        assert(t.drop_last() =~= bs.drop_last());
    } else {
        assert(t.drop_last() =~= bs.drop_last().update(i, nb));
        lemma_find_cap_update(bs.drop_last(), i, nb, name);
    }
}

/// A consumed capability stays consumed: the only legal way out of the
/// consumed state is into the error state.
pub proof fn law_consumed_only_fails(to: CapabilityState)
    ensures
        legal_transition(CapabilityState::Consumed, to) <==> to is Error,
{
}

/// Once a capability has been consumed, using it is refused as a use after
/// consumption that names where it was consumed, and nothing changes.
pub proof fn law_no_use_after_consume(
    caps: Seq<BindingModel>,
    name: Seq<char>,
    at: (u32, u32),
    tid: u32,
    later: (u32, u32),
    tid2: u32,
)
    requires
        consume_step(caps, name, at, tid).1 is None,
    ensures
        ({
            let after = consume_step(caps, name, at, tid).0;
            use_step(after, name, later, tid2) == (
                after,
                Some(ViolationModel::UseAfterConsumption { var_name: name, consumed_at: at }),
            )
        }),
{
    lemma_find_cap(caps, name);
    let i = find_cap(caps, name)->0;
    let b = caps[i];
    let after = consume_step(caps, name, at, tid).0;
    lemma_find_cap_update(caps, i, after[i], name);
}

/// A capability cannot be consumed twice: the second consumption is refused
/// as an invalid transition from consumed to consumed.
pub proof fn law_no_double_consume(
    caps: Seq<BindingModel>,
    name: Seq<char>,
    at: (u32, u32),
    tid: u32,
    later: (u32, u32),
    tid2: u32,
)
    requires
        consume_step(caps, name, at, tid).1 is None,
    ensures
        consume_step(consume_step(caps, name, at, tid).0, name, later, tid2).1 == Some(
            ViolationModel::InvalidTransition {
                var_name: name,
                from: CapabilityState::Consumed,
                to: CapabilityState::Consumed,
            },
        ),
{
    lemma_find_cap(caps, name);
    let i = find_cap(caps, name)->0;
    let after = consume_step(caps, name, at, tid).0;
    lemma_find_cap_update(caps, i, after[i], name);
}

/// A consumed capability cannot be shared.
pub proof fn law_no_share_after_consume(
    caps: Seq<BindingModel>,
    name: Seq<char>,
    at: (u32, u32),
    tid: u32,
    later: (u32, u32),
    tid2: u32,
)
    requires
        consume_step(caps, name, at, tid).1 is None,
    ensures
        share_step(consume_step(caps, name, at, tid).0, name, later, tid2).1 == Some(
            ViolationModel::ImproperSharing { var_name: name, shared_at: later },
        ),
{
    lemma_find_cap(caps, name);
    let i = find_cap(caps, name)->0;
    let after = consume_step(caps, name, at, tid).0;
    lemma_find_cap_update(caps, i, after[i], name);
}


/// Suspension is temporary: whatever state a capability can be suspended
/// from, it can resume to, so in use, suspended, in use again is always
/// accepted.
pub proof fn law_suspension_is_undone(s: CapabilityState)
    ensures
        legal_transition(s, CapabilityState::Suspended) ==> legal_transition(CapabilityState::Suspended, s),
        legal_transition(CapabilityState::InUse, CapabilityState::Suspended),
        legal_transition(CapabilityState::Suspended, CapabilityState::InUse),
{
}

} // verus!
