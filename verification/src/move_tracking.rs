//! Classification of types as linear or copyable, move/borrow tracking for
//! expressions, and the linear-type rules checked against an ownership context.
use vstd::prelude::*;
use crate::text::{has_infix, contains_str, err_text};
use crate::types::{Type, TypeModel};
use crate::ownership_enforcement::{OwnershipContext, OwnershipState, OwnershipBinding, last_named, lemma_last_named,
    quoted, quote_between, append_decimal, unconsumed, msg_not_consumed};
use crate::text::nat_decimal;

verus! {

/// How a type is treated by the linear-type rules.
#[derive(Clone, Copy, Debug, PartialEq, Eq, Structural)]
pub enum LinearTypeKind {
    /// May be copied freely.
    Copyable,
    /// A resource that must be consumed exactly once.
    Linear,
    /// A borrowed reference.
    Reference,
}

/// The classification of a type: tensors, models and styles are linear, and so are
/// named types whose name mentions a tensor, model, socket, region or capability and
/// applied types whose name mentions a tensor, a vector or a hash map; references are
/// references; a range-constrained type is classified as its base; all else is copyable.
pub open spec fn classify(t: TypeModel) -> LinearTypeKind
    decreases t,
{
    match t {
        TypeModel::Tensor { .. } | TypeModel::Model | TypeModel::Style => LinearTypeKind::Linear,
        TypeModel::Ref { .. } => LinearTypeKind::Reference,
        TypeModel::Named(n) => if has_infix(n, "Tensor"@) || has_infix(n, "Model"@) || has_infix(n, "Socket"@)
            || has_infix(n, "Region"@) || has_infix(n, "Capability"@) {
            LinearTypeKind::Linear
        } else {
            LinearTypeKind::Copyable
        },
        TypeModel::Applied { name, .. } => if has_infix(name, "Tensor"@) || has_infix(name, "Vec"@)
            || has_infix(name, "HashMap"@) {
            LinearTypeKind::Linear
        } else {
            LinearTypeKind::Copyable
        },
        TypeModel::ConstrainedRange { base, .. } => classify(*base),
        _ => LinearTypeKind::Copyable,
    }
}

/// Classifies a type for the linear-type rules.
pub fn classify_type(ty: &Type) -> (r: LinearTypeKind)
    ensures
        r == classify(ty@),
    decreases ty,
{
    match ty {
        Type::Tensor { .. } | Type::Model | Type::Style => LinearTypeKind::Linear,
        Type::Ref { .. } => LinearTypeKind::Reference,
        Type::Named(n) => {
            let n = n.as_str();
            if contains_str(n, "Tensor") || contains_str(n, "Model") || contains_str(n, "Socket")
                || contains_str(n, "Region") || contains_str(n, "Capability") {
                LinearTypeKind::Linear
            } else {
                LinearTypeKind::Copyable
            }
        },
        Type::Applied { name, .. } => {
            let n = name.as_str();
            if contains_str(n, "Tensor") || contains_str(n, "Vec") || contains_str(n, "HashMap") {
                LinearTypeKind::Linear
            } else {
                LinearTypeKind::Copyable
            }
        },
        Type::ConstrainedRange { base, .. } => classify_type(base),
        _ => LinearTypeKind::Copyable,
    }
}

/// The names moved and borrowed within an expression context.
#[derive(Clone, Debug)]
pub struct MoveTracker {
    moved_values: Vec<String>,
    borrowed_values: Vec<String>,
}

/// The character sequences of a list of strings.
pub open spec fn names_of(v: Seq<String>) -> Seq<Seq<char>> {
    v.map_values(|s: String| s@)
}

pub(crate) fn add_name(v: &mut Vec<String>, name: &str)
    ensures
        names_of(final(v)@) == if names_of(old(v)@).contains(name@) {
            names_of(old(v)@)
        } else {
            names_of(old(v)@).push(name@)
        },
{
    if !has_name(v, name) {
        v.push(String::from_str(name));
        assert(names_of(v@) =~= names_of(old(v)@).push(name@));
    }
}

/// Whether `name` is among the strings of `v`.
pub fn contains_name(v: &Vec<String>, name: &str) -> (r: bool)
    ensures
        r == names_of(v@).contains(name@),
{
    has_name(v, name)
}

fn has_name(v: &Vec<String>, name: &str) -> (r: bool)
    ensures
        r == names_of(v@).contains(name@),
{
    let mut k: usize = 0;
    while k < v.len()
        invariant
            k <= v.len(),
            forall|i: int| 0 <= i < k ==> v@[i]@ != name@,
        decreases v.len() - k,
    {
        if crate::text::str_eq(v[k].as_str(), name) {
            assert(names_of(v@)[k as int] == name@);
            return true;
        }
        k = k + 1;
    }
    false
}

impl MoveTracker {
    /// The names moved so far, each once, in order of first move.
    pub closed spec fn moved(&self) -> Seq<Seq<char>> {
        names_of(self.moved_values@)
    }

    /// The names borrowed so far, each once, in order of first borrow.
    pub closed spec fn borrowed(&self) -> Seq<Seq<char>> {
        names_of(self.borrowed_values@)
    }

    /// A tracker with nothing moved or borrowed.
    pub fn new() -> (r: Self)
        ensures
            r.moved().len() == 0,
            r.borrowed().len() == 0,
    {
        let r = MoveTracker { moved_values: Vec::new(), borrowed_values: Vec::new() };
        assert(r.moved() =~= Seq::empty());
        assert(r.borrowed() =~= Seq::empty());
        r
    }

    /// Notes that `name` was moved.
    pub fn record_move(&mut self, name: &str)
        ensures
            final(self).moved() == after_move(old(self).moved(), name@),
            final(self).borrowed() == old(self).borrowed(),
    {
        add_name(&mut self.moved_values, name);
    }

    /// Notes that `name` was borrowed.
    pub fn record_borrow(&mut self, name: &str)
        ensures
            final(self).borrowed() == if old(self).borrowed().contains(name@) {
                old(self).borrowed()
            } else {
                old(self).borrowed().push(name@)
            },
            final(self).moved() == old(self).moved(),
    {
        add_name(&mut self.borrowed_values, name);
    }

    /// Whether `name` was moved.
    pub fn is_moved(&self, name: &str) -> (r: bool)
        ensures
            r == self.moved().contains(name@),
    {
        has_name(&self.moved_values, name)
    }

    /// Whether `name` was borrowed.
    pub fn is_borrowed(&self, name: &str) -> (r: bool)
        ensures
            r == self.borrowed().contains(name@),
    {
        has_name(&self.borrowed_values, name)
    }

    /// Forgets all moves and borrows.
    pub fn clear(&mut self)
        ensures
            final(self).moved().len() == 0,
            final(self).borrowed().len() == 0,
    {
        self.moved_values.clear();
        self.borrowed_values.clear();
        assert(self.moved() =~= Seq::empty());
        assert(self.borrowed() =~= Seq::empty());
    }
}

/// The moves a tracker holds after `record_move(name)`, given those before.
pub open spec fn after_move(moved: Seq<Seq<char>>, name: Seq<char>) -> Seq<Seq<char>> {
    if moved.contains(name) { moved } else { moved.push(name) }
}

/// A recorded move is remembered, and so is every earlier one: after
/// `record_move(name)`, `is_moved(name)` holds, and `is_moved` still holds of
/// every name it held of before.
pub proof fn law_recorded_moves_are_kept(moved: Seq<Seq<char>>, name: Seq<char>, other: Seq<char>)
    ensures
        after_move(moved, name).contains(name),
        moved.contains(other) ==> after_move(moved, name).contains(other),
{
    if !moved.contains(name) {
        assert(moved.push(name)[moved.len() as int] == name);
        if moved.contains(other) {
            let k = choose|k: int| 0 <= k < moved.len() && moved[k] == other;
            assert(moved.push(name)[k] == other);
        }
    }
}

/// The linear-type rules.
pub struct LinearTypeRules;

/// The binding named `name` in a scope, if any.
pub open spec fn in_scope(bs: Seq<OwnershipBinding>, name: Seq<char>) -> Option<OwnershipBinding> {
    match last_named(bs, name, 0, bs.len() as int) {
        Some(j) => Some(bs[j]),
        None => None,
    }
}

fn find_in_scope(bs: &[OwnershipBinding], name: &str) -> (r: Option<usize>)
    ensures
        r matches Some(j) ==> j < bs@.len() && in_scope(bs@, name@) == Some(bs@[j as int]),
        r is None ==> in_scope(bs@, name@) is None,
{
    proof { lemma_last_named(bs@, name@, 0, bs@.len() as int); }
    let mut hi: usize = bs.len();
    while hi > 0
        invariant
            hi <= bs@.len(),
            last_named(bs@, name@, 0, bs@.len() as int) == last_named(bs@, name@, 0, hi as int),
        decreases hi,
    {
        if crate::text::str_eq(bs[hi - 1].name.as_str(), name) {
            return Some(hi - 1);
        }
        hi = hi - 1;
    }
    None
}

pub open spec fn msg_use_after_move_at(name: Seq<char>, line: nat, col: nat) -> Seq<char> {
    "cannot use binding "@ + quoted(name) + " after it was moved at line "@ + nat_decimal(line) + ":"@
        + nat_decimal(col)
}

pub open spec fn msg_moved(name: Seq<char>) -> Seq<char> {
    "cannot use binding "@ + quoted(name) + " after it was moved"@
}

pub open spec fn msg_move_borrowed(name: Seq<char>) -> Seq<char> {
    "cannot move binding "@ + quoted(name) + " while it's borrowed"@
}

pub open spec fn msg_mut_after_immut(name: Seq<char>) -> Seq<char> {
    "cannot take mutable borrow of "@ + quoted(name) + ": already borrowed immutably"@
}

pub open spec fn msg_mut_after_mut(name: Seq<char>) -> Seq<char> {
    "cannot take mutable borrow of "@ + quoted(name) + ": already borrowed mutably"@
}

/// The value of an optional number, or zero.
pub open spec fn or_zero(o: Option<u32>) -> u32 {
    match o {
        Some(v) => v,
        None => 0,
    }
}

impl LinearTypeRules {
    /// A binding of `name` in the innermost scope must not be consumed or returned
    /// (provided `name` has a binding in some scope).
    pub fn check_no_use_after_move(ownership: &OwnershipContext, name: &str, line: u32) -> (r: Result<(), String>)
        requires
            ownership.wf(),
        ensures
            match (ownership.lookup(name@), in_scope(ownership.current_scope(), name@)) {
                (Some(_), Some(b)) => if b.state.spec_allows_use() {
                    r is Ok
                } else {
                    r matches Err(m) && m@ == msg_use_after_move_at(name@, or_zero(b.moved_at_line) as nat,
                        or_zero(b.moved_at_col) as nat)
                },
                _ => r is Ok,
            },
    {
        if ownership.binding_exists(name) {
            let bindings = ownership.current_bindings();
            if let Some(j) = find_in_scope(bindings, name) {
                let binding = &bindings[j];
                if !binding.can_use_at(line) {
                    let mut msg = quote_between("cannot use binding ", name, " after it was moved at line ");
                    append_decimal(&mut msg, match binding.moved_at_line { Some(l) => l, None => 0 } as u64);
                    msg.append(":");
                    append_decimal(&mut msg, match binding.moved_at_col { Some(c) => c, None => 0 } as u64);
                    return Err(msg);
                }
            }
        }
        Ok(())
    }

    /// Every linear binding of the innermost scope must be consumed or returned; the
    /// error lists the messages of those that are not, in order of definition.
    pub fn check_linear_consumed(ownership: &OwnershipContext) -> (r: Result<(), Vec<String>>)
        requires
            ownership.wf(),
        ensures
            unconsumed(ownership.current_scope()).len() == 0 ==> r is Ok,
            unconsumed(ownership.current_scope()).len() > 0 ==> (r matches Err(ms) && ms@.len()
                == unconsumed(ownership.current_scope()).len() && forall|i: int| 0 <= i < ms@.len() ==> {
                let b = #[trigger] unconsumed(ownership.current_scope())[i];
                ms@[i]@ == msg_not_consumed(b.name@, b.ty_name@)
            }),
    {
        let unconsumed_v = ownership.check_linear_resources_consumed();
        if unconsumed_v.len() > 0 {
            let mut errors: Vec<String> = Vec::new();
            let mut k: usize = 0;
            while k < unconsumed_v.len()
                invariant
                    k <= unconsumed_v.len(),
                    errors@.len() == k,
                    forall|i: int| 0 <= i < k ==> errors@[i]@ == unconsumed_v@[i].message@,
                decreases unconsumed_v.len() - k,
            {
                errors.push(String::from_str(unconsumed_v[k].message.as_str()));
                k = k + 1;
            }
            return Err(errors);
        }
        Ok(())
    }

    /// A binding of `name` in the innermost scope must not be borrowed when it is moved.
    pub fn check_no_move_while_borrowed(ownership: &OwnershipContext, name: &str) -> (r: Result<(), String>)
        requires
            ownership.wf(),
        ensures
            match in_scope(ownership.current_scope(), name@) {
                Some(b) => if b.state is BorrowedImmut || b.state is BorrowedMut {
                    err_text(r, msg_move_borrowed(name@))
                } else {
                    r is Ok
                },
                None => r is Ok,
            },
    {
        let bindings = ownership.current_bindings();
        if let Some(j) = find_in_scope(bindings, name) {
                let binding = &bindings[j];
            if matches!(binding.state, OwnershipState::BorrowedImmut | OwnershipState::BorrowedMut) {
                return Err(quote_between("cannot move binding ", name, " while it's borrowed"));
            }
        }
        Ok(())
    }

    /// A moved value must not be used.
    pub fn check_no_use_after_move_simple(is_moved: bool, name: &str) -> (r: Result<(), String>)
        ensures
            is_moved ==> err_text(r, msg_moved(name@)),
            !is_moved ==> r is Ok,
    {
        if is_moved {
            Err(quote_between("cannot use binding ", name, " after it was moved"))
        } else {
            Ok(())
        }
    }

    /// A mutable borrow is refused while a binding of `name` in the innermost scope is
    /// already borrowed.
    pub fn check_borrow_exclusivity(ownership: &OwnershipContext, name: &str, is_mutable: bool) -> (r: Result<(), String>)
        requires
            ownership.wf(),
        ensures
            match in_scope(ownership.current_scope(), name@) {
                Some(b) => if is_mutable && b.state is BorrowedImmut {
                    err_text(r, msg_mut_after_immut(name@))
                } else if is_mutable && b.state is BorrowedMut {
                    err_text(r, msg_mut_after_mut(name@))
                } else {
                    r is Ok
                },
                None => r is Ok,
            },
    {
        let bindings = ownership.current_bindings();
        if let Some(j) = find_in_scope(bindings, name) {
                let binding = &bindings[j];
            if is_mutable && binding.state == OwnershipState::BorrowedImmut {
                return Err(quote_between("cannot take mutable borrow of ", name, ": already borrowed immutably"));
            }
            if is_mutable && binding.state == OwnershipState::BorrowedMut {
                return Err(quote_between("cannot take mutable borrow of ", name, ": already borrowed mutably"));
            }
        }
        Ok(())
    }
}


/// A named type whose name mentions a tensor, a model, a socket, a region or
/// a capability is a linear resource, and so is a generic type whose name
/// mentions a tensor, a vector or a hash map, whatever its arguments.
pub proof fn law_resource_names_are_linear(n: Seq<char>, args: Seq<TypeModel>)
    ensures
        has_infix(n, "Tensor"@) ==> classify(TypeModel::Named(n)) == LinearTypeKind::Linear,
        has_infix(n, "Model"@) ==> classify(TypeModel::Named(n)) == LinearTypeKind::Linear,
        has_infix(n, "Socket"@) ==> classify(TypeModel::Named(n)) == LinearTypeKind::Linear,
        has_infix(n, "Region"@) ==> classify(TypeModel::Named(n)) == LinearTypeKind::Linear,
        has_infix(n, "Capability"@) ==> classify(TypeModel::Named(n)) == LinearTypeKind::Linear,
        has_infix(n, "Tensor"@) ==> classify(TypeModel::Applied { name: n, args }) == LinearTypeKind::Linear,
        has_infix(n, "Vec"@) ==> classify(TypeModel::Applied { name: n, args }) == LinearTypeKind::Linear,
        has_infix(n, "HashMap"@) ==> classify(TypeModel::Applied { name: n, args }) == LinearTypeKind::Linear,
{
}

/// A named type is never a reference, and a named or generic type is copyable
/// exactly when it is not linear.
pub proof fn law_named_types_are_linear_or_copyable(n: Seq<char>, args: Seq<TypeModel>)
    ensures
        classify(TypeModel::Named(n)) is Linear || classify(TypeModel::Named(n)) is Copyable,
        classify(TypeModel::Applied { name: n, args }) is Linear || classify(TypeModel::Applied { name: n, args })
            is Copyable,
{
}

} // verus!
