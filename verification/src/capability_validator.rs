//! Capability checking as semantic analysis drives it: bindings of capability types
//! are tracked, everything else passes through, and violations come back as messages.
use vstd::prelude::*;
use crate::capability_enforcement::{
    BindingModel, CapabilityContext, CapabilityKind, CapabilityState, ViolationModel, consume_step, find_cap,
    leaks, share_step, unsynchronized, use_step, violation_text,
};
use crate::text::{contains_str, has_infix};
use crate::types::{Type, TypeModel};

verus! {

/// The kind named by a type name: the first of socket, tensor, region and (when
/// `concurrent` holds) concurrent whose capitalised name occurs in it.
pub open spec fn kind_by_name(n: Seq<char>, concurrent: bool) -> Option<CapabilityKind> {
    if has_infix(n, "Socket"@) {
        Some(CapabilityKind::Socket)
    } else if has_infix(n, "Tensor"@) {
        Some(CapabilityKind::Tensor)
    } else if has_infix(n, "Region"@) {
        Some(CapabilityKind::Region)
    } else if concurrent && has_infix(n, "Concurrent"@) {
        Some(CapabilityKind::Concurrent)
    } else {
        None
    }
}

/// The capability kind a type carries: tensors are tensor capabilities, named types
/// go by their name, applied types by their constructor's name (never concurrent).
pub open spec fn capability_kind(t: TypeModel) -> Option<CapabilityKind> {
    match t {
        TypeModel::Named(n) => kind_by_name(n, true),
        TypeModel::Tensor { .. } => Some(CapabilityKind::Tensor),
        TypeModel::Applied { name, .. } => kind_by_name(name, false),
        _ => None,
    }
}

/// The message a call reports, or `None` when it succeeded.
pub open spec fn message_outcome(r: Result<(), String>) -> Option<Seq<char>> {
    match r {
        Ok(_) => None,
        Err(m) => Some(m@),
    }
}

/// The message of a violation, if there is one.
pub open spec fn message_of(v: Option<ViolationModel>) -> Option<Seq<char>> {
    match v {
        Some(x) => Some(violation_text(x)),
        None => None,
    }
}

/// The messages of a list of violations.
pub open spec fn messages_of(vs: Seq<ViolationModel>) -> Seq<Seq<char>>
    decreases vs.len(),
{
    if vs.len() == 0 {
        Seq::empty()
    } else {
        messages_of(vs.drop_last()).push(violation_text(vs.last()))
    }
}

/// The texts of a list of strings.
pub open spec fn strings_of(v: Seq<String>) -> Seq<Seq<char>>
    decreases v.len(),
{
    if v.len() == 0 {
        Seq::empty()
    } else {
        strings_of(v.drop_last()).push(v.last()@)
    }
}

fn kind_from_name(n: &str, concurrent: bool) -> (r: Option<CapabilityKind>)
    ensures
        r == kind_by_name(n@, concurrent),
{
    if contains_str(n, "Socket") {
        Some(CapabilityKind::Socket)
    } else if contains_str(n, "Tensor") {
        Some(CapabilityKind::Tensor)
    } else if contains_str(n, "Region") {
        Some(CapabilityKind::Region)
    } else if concurrent && contains_str(n, "Concurrent") {
        Some(CapabilityKind::Concurrent)
    } else {
        None
    }
}

/// Capability enforcement for one function under type checking.
pub struct CapabilityValidator {
    context: CapabilityContext,
    strict_mode: bool,
}

impl CapabilityValidator {
    pub closed spec fn wf(&self) -> bool {
        self.context.wf()
    }

    /// The capabilities being tracked.
    pub closed spec fn context(&self) -> CapabilityContext {
        self.context
    }

    /// Whether violations are reported before scope exit.
    pub closed spec fn strict(&self) -> bool {
        self.strict_mode
    }

    /// A validator that tracks nothing yet.
    pub fn new(strict_mode: bool) -> (r: Self)
        ensures
            r.wf(),
            r.strict() == strict_mode,
            r.context().caps().len() == 0,
            r.context().saved().len() == 0,
            r.context().shared().len() == 0,
            r.context().location() == (0u32, 0u32),
            r.context().thread() == 0,
    {
        CapabilityValidator { context: CapabilityContext::new(), strict_mode }
    }

    /// Sets the location that later records carry.
    pub fn set_location(&mut self, line: u32, col: u32)
        requires
            old(self).wf(),
        ensures
            final(self).wf(),
            final(self).strict() == old(self).strict(),
            final(self).context().location() == (line, col),
            final(self).context().caps() == old(self).context().caps(),
            final(self).context().saved() == old(self).context().saved(),
            final(self).context().shared() == old(self).context().shared(),
            final(self).context().thread() == old(self).context().thread(),
    {
        self.context.set_location(line, col);
    }

    /// Tracks `name` when `ty` is a capability type, as a fresh capability of its kind
    /// at the current location; a name already tracked is refused (improper sharing).
    /// Bindings of other types are accepted and not tracked.
    pub fn register_binding(&mut self, name: String, ty: &Type) -> (r: Result<(), String>)
        requires
            old(self).wf(),
        ensures
            final(self).wf(),
            final(self).strict() == old(self).strict(),
            final(self).context().location() == old(self).context().location(),
            final(self).context().thread() == old(self).context().thread(),
            final(self).context().saved() == old(self).context().saved(),
            final(self).context().shared() == old(self).context().shared(),
            match capability_kind(ty@) {
                None => r is Ok && final(self).context().caps() == old(self).context().caps(),
                Some(kind) => if find_cap(old(self).context().caps(), name@) is Some {
                    final(self).context().caps() == old(self).context().caps()
                        && message_outcome(r) == Some(violation_text(ViolationModel::ImproperSharing {
                            var_name: name@, shared_at: old(self).context().location() }))
                } else {
                    r is Ok && final(self).context().caps() == old(self).context().caps().push(BindingModel {
                        name: name@,
                        kind: kind,
                        state: CapabilityState::Fresh,
                        defined_at: old(self).context().location(),
                        last_change_at: old(self).context().location(),
                        history: seq![(CapabilityState::Fresh, old(self).context().location().0,
                            old(self).context().location().1)],
                        shareable: false,
                        threads: Set::empty(),
                    })
                },
            },
    {
        match Self::infer_capability_kind(ty) {
            Some(kind) => match self.context.define_capability(name, kind) {
                Ok(()) => Ok(()),
                Err(v) => Err(v.message()),
            },
            None => Ok(()),
        }
    }

    /// Whether `ty` carries a capability.
    pub fn is_capability_type(ty: &Type) -> (r: bool)
        ensures
            r == capability_kind(ty@) is Some,
    {
        Self::infer_capability_kind(ty).is_some()
    }

    /// The capability kind that `ty` carries (see [`capability_kind`]).
    pub fn infer_capability_kind(ty: &Type) -> (r: Option<CapabilityKind>)
        ensures
            r == capability_kind(ty@),
    {
        match ty {
            Type::Named(name) => kind_from_name(name.as_str(), true),
            Type::Tensor { .. } => Some(CapabilityKind::Tensor),
            Type::Applied { name, .. } => kind_from_name(name.as_str(), false),
            _ => None,
        }
    }

    /// Uses a tracked capability (see [`use_step`]); untracked names are accepted.
    pub fn use_capability(&mut self, name: &str) -> (r: Result<(), String>)
        requires
            old(self).wf(),
        ensures
            final(self).wf(),
            final(self).strict() == old(self).strict(),
            final(self).context().location() == old(self).context().location(),
            final(self).context().thread() == old(self).context().thread(),
            final(self).context().saved() == old(self).context().saved(),
            final(self).context().shared() == old(self).context().shared(),
            ({
                let c = old(self).context();
                let step = use_step(c.caps(), name@, c.location(), c.thread());
                if find_cap(c.caps(), name@) is None {
                    r is Ok && final(self).context().caps() == c.caps()
                } else {
                    final(self).context().caps() == step.0 && message_outcome(r) == message_of(step.1)
                }
            }),
    {
        if !self.context.binding_exists(name) {
            return Ok(());
        }
        match self.context.use_capability(name) {
            Ok(()) => Ok(()),
            Err(v) => Err(v.message()),
        }
    }

    /// Consumes a tracked capability (see [`consume_step`]); untracked names are
    /// accepted.
    pub fn consume_capability(&mut self, name: &str) -> (r: Result<(), String>)
        requires
            old(self).wf(),
        ensures
            final(self).wf(),
            final(self).strict() == old(self).strict(),
            final(self).context().location() == old(self).context().location(),
            final(self).context().thread() == old(self).context().thread(),
            final(self).context().saved() == old(self).context().saved(),
            final(self).context().shared() == old(self).context().shared(),
            ({
                let c = old(self).context();
                let step = consume_step(c.caps(), name@, c.location(), c.thread());
                if find_cap(c.caps(), name@) is None {
                    r is Ok && final(self).context().caps() == c.caps()
                } else {
                    final(self).context().caps() == step.0 && message_outcome(r) == message_of(step.1)
                }
            }),
    {
        if !self.context.binding_exists(name) {
            return Ok(());
        }
        match self.context.consume_capability(name) {
            Ok(()) => Ok(()),
            Err(v) => Err(v.message()),
        }
    }

    /// Shares a tracked capability (see [`share_step`]); untracked names are accepted.
    pub fn share_capability(&mut self, name: &str) -> (r: Result<(), String>)
        requires
            old(self).wf(),
        ensures
            final(self).wf(),
            final(self).strict() == old(self).strict(),
            final(self).context().location() == old(self).context().location(),
            final(self).context().thread() == old(self).context().thread(),
            final(self).context().saved() == old(self).context().saved(),
            ({
                let c = old(self).context();
                let step = share_step(c.caps(), name@, c.location(), c.thread());
                if find_cap(c.caps(), name@) is None {
                    r is Ok && final(self).context().caps() == c.caps() && final(self).context().shared() == c.shared()
                } else {
                    &&& final(self).context().caps() == step.0
                    &&& message_outcome(r) == message_of(step.1)
                    &&& final(self).context().shared() == if step.1 is None {
                        c.shared().insert(name@)
                    } else {
                        c.shared()
                    }
                }
            }),
    {
        if !self.context.binding_exists(name) {
            return Ok(());
        }
        match self.context.share_capability(name) {
            Ok(()) => Ok(()),
            Err(v) => Err(v.message()),
        }
    }

    /// Saves the tracked capabilities; they come back on scope exit.
    pub fn enter_scope(&mut self)
        requires
            old(self).wf(),
        ensures
            final(self).wf(),
            final(self).strict() == old(self).strict(),
            final(self).context().caps() == old(self).context().caps(),
            final(self).context().saved() == old(self).context().saved().push(old(self).context().caps()),
            final(self).context().shared() == old(self).context().shared(),
            final(self).context().location() == old(self).context().location(),
            final(self).context().thread() == old(self).context().thread(),
    {
        self.context.enter_scope();
    }

    /// Leaves a scope: fails with the message of the first capability that is not
    /// consumed, if any; the capabilities saved on entry come back.
    pub fn exit_scope(&mut self) -> (r: Result<(), Vec<String>>)
        requires
            old(self).wf(),
        ensures
            final(self).wf(),
            final(self).strict() == old(self).strict(),
            old(self).context().saved().len() > 0 ==> final(self).context().caps() == old(self).context().saved().last()
                && final(self).context().saved() == old(self).context().saved().drop_last(),
            old(self).context().saved().len() == 0 ==> final(self).context().caps() == old(self).context().caps()
                && final(self).context().saved() == old(self).context().saved(),
            final(self).context().shared() == old(self).context().shared(),
            final(self).context().location() == old(self).context().location(),
            final(self).context().thread() == old(self).context().thread(),
            leaks(old(self).context().caps()).len() == 0 ==> r is Ok,
            leaks(old(self).context().caps()).len() > 0 ==> (r matches Err(ms) && strings_of(ms@)
                == seq![violation_text(leaks(old(self).context().caps())[0])]),
    {
        match self.context.exit_scope() {
            Ok(violations) => {
                if violations.len() == 0 {
                    Ok(())
                } else {
                    let mut out: Vec<String> = Vec::new();
                    let mut k: usize = 0;
                    while k < violations.len()
                        invariant
                            k <= violations.len(),
                            out@.len() == k,
                        decreases violations.len() - k,
                    {
                        out.push(violations[k].message());
                        k = k + 1;
                    }
                    Err(out)
                }
            },
            Err(v) => {
                let mut out: Vec<String> = Vec::new();
                out.push(v.message());
                proof {
                    assert(out@.drop_last() =~= Seq::<String>::empty());
                    assert(strings_of(Seq::<String>::empty()) =~= Seq::<Seq<char>>::empty());
                    assert(strings_of(out@) =~= seq![violation_text(v@)]);
                }
                Err(out)
            },
        }
    }

    /// In strict mode, the messages of the capabilities accessed by more than one
    /// thread without being shareable, in order of definition; otherwise none.
    pub fn validate_all(&self) -> (r: Vec<String>)
        requires
            self.wf(),
        ensures
            strings_of(r@) == if self.strict() {
                messages_of(unsynchronized(self.context().caps()))
            } else {
                Seq::empty()
            },
    {
        if self.strict_mode {
            let vs = self.context.validate_all();
            let mut out: Vec<String> = Vec::new();
            let mut k: usize = 0;
            while k < vs.len()
                invariant
                    k <= vs.len(),
                    crate::capability_enforcement::violations_of(vs@) == unsynchronized(self.context().caps()),
                    strings_of(out@) == messages_of(crate::capability_enforcement::violations_of(vs@).subrange(0, k as int)),
                decreases vs.len() - k,
            {
                let ghost mv = crate::capability_enforcement::violations_of(vs@);
                let m = vs[k].message();
                let ghost before = out@;
                out.push(m);
                proof {
                    assert(mv.subrange(0, k + 1).drop_last() =~= mv.subrange(0, k as int));
                    assert(mv[k as int] == vs@[k as int]@);
                    assert(out@.drop_last() =~= before);
                }
                k = k + 1;
            }
            proof {
                let mv = crate::capability_enforcement::violations_of(vs@);
                assert(mv.subrange(0, vs@.len() as int) =~= mv);
            }
            out
        } else {
            let out: Vec<String> = Vec::new();
            out
        }
    }

    /// The state of the tracked capability named `name`.
    pub fn get_state(&self, name: &str) -> (r: Option<CapabilityState>)
        ensures
            r == match find_cap(self.context().caps(), name@) {
                Some(i) => Some(self.context().caps()[i].state),
                None => None,
            },
    {
        self.context.get_state(name)
    }
}

} // verus!
