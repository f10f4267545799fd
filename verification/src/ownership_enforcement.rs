//! Ownership states of variable bindings and the engine that tracks them
//! through uses, moves, borrows and returns in nested scopes.
use vstd::prelude::*;
use crate::text::{nat_decimal, u64_to_decimal};

verus! {

/// Ownership state of a binding.
#[derive(Clone, Copy, Debug, PartialEq, Eq, Structural, Hash)]
pub enum OwnershipState {
    /// Owned: may be moved, borrowed or used.
    Owned,
    /// Consumed by a move: no further use.
    Consumed,
    /// Borrowed immutably.
    BorrowedImmut,
    /// Borrowed mutably.
    BorrowedMut,
    /// Ownership returned to the caller.
    Returned,
}

impl OwnershipState {
    pub open spec fn spec_allows_use(&self) -> bool {
        !(self is Consumed || self is Returned)
    }

    pub open spec fn spec_allows_borrow(&self) -> bool {
        self is Owned || self is BorrowedImmut || self is BorrowedMut
    }

    /// Reading is allowed unless the value was consumed or returned.
    #[verifier::when_used_as_spec(spec_allows_use)]
    pub fn allows_use(&self) -> (r: bool)
        ensures
            r == self.spec_allows_use(),
    {
        !matches!(self, OwnershipState::Consumed | OwnershipState::Returned)
    }

    /// Moving is allowed only from the owned state.
    pub fn allows_move(&self) -> (r: bool)
        ensures
            r == (*self is Owned),
    {
        matches!(self, OwnershipState::Owned)
    }

    /// Borrowing is allowed while owned or already borrowed.
    #[verifier::when_used_as_spec(spec_allows_borrow)]
    pub fn allows_borrow(&self) -> (r: bool)
        ensures
            r == self.spec_allows_borrow(),
    {
        matches!(self, OwnershipState::Owned | OwnershipState::BorrowedImmut | OwnershipState::BorrowedMut)
    }

    /// Mutation is allowed while owned or mutably borrowed.
    pub fn allows_mutate(&self) -> (r: bool)
        ensures
            r == (*self is Owned || *self is BorrowedMut),
    {
        matches!(self, OwnershipState::Owned | OwnershipState::BorrowedMut)
    }

    pub open spec fn state_text(self) -> Seq<char> {
        match self {
            OwnershipState::Owned => "owned"@,
            OwnershipState::Consumed => "consumed"@,
            OwnershipState::BorrowedImmut => "borrowed (immut)"@,
            OwnershipState::BorrowedMut => "borrowed (mut)"@,
            OwnershipState::Returned => "returned"@,
        }
    }

    /// Human-readable name of the state.
    pub fn display(&self) -> (r: &'static str)
        ensures
            r@ == self.state_text(),
    {
        match self {
            OwnershipState::Owned => "owned",
            OwnershipState::Consumed => "consumed",
            OwnershipState::BorrowedImmut => "borrowed (immut)",
            OwnershipState::BorrowedMut => "borrowed (mut)",
            OwnershipState::Returned => "returned",
        }
    }
}

/// A binding with its type, definition site and ownership state.
#[derive(Clone, Debug)]
pub struct OwnershipBinding {
    pub name: String,
    pub ty_name: String,
    pub is_linear: bool,
    pub defined_at_line: u32,
    pub defined_at_col: u32,
    pub state: OwnershipState,
    pub moved_at_line: Option<u32>,
    pub moved_at_col: Option<u32>,
}

impl OwnershipBinding {
    /// A binding in the owned state, defined at `line:col`.
    pub fn new(name: String, ty_name: String, is_linear: bool, line: u32, col: u32) -> (r: Self)
        ensures
            r.name == name,
            r.ty_name == ty_name,
            r.is_linear == is_linear,
            r.defined_at_line == line,
            r.defined_at_col == col,
            r.state == OwnershipState::Owned,
            r.moved_at_line.is_none(),
            r.moved_at_col.is_none(),
    {
        OwnershipBinding {
            name,
            ty_name,
            is_linear,
            defined_at_line: line,
            defined_at_col: col,
            state: OwnershipState::Owned,
            moved_at_line: None,
            moved_at_col: None,
        }
    }

    /// Whether the binding may be read (the line plays no part).
    pub fn can_use_at(&self, _line: u32) -> (r: bool)
        ensures
            r == self.state.spec_allows_use(),
    {
        self.state.allows_use()
    }

    /// Consumes the binding at `line:col`.
    pub fn mark_moved(&mut self, line: u32, col: u32)
        ensures
            *final(self) == (OwnershipBinding {
                state: OwnershipState::Consumed,
                moved_at_line: Some(line),
                moved_at_col: Some(col),
                ..*old(self)
            }),
    {
        self.state = OwnershipState::Consumed;
        self.moved_at_line = Some(line);
        self.moved_at_col = Some(col);
    }

    /// An owned binding becomes immutably borrowed; any other state is kept.
    pub fn mark_borrowed_immut(&mut self)
        ensures
            *final(self) == (OwnershipBinding {
                state: if old(self).state is Owned { OwnershipState::BorrowedImmut } else { old(self).state },
                ..*old(self)
            }),
    {
        if self.state == OwnershipState::Owned {
            self.state = OwnershipState::BorrowedImmut;
        }
    }

    /// An owned or mutably borrowed binding becomes mutably borrowed; any other state is kept.
    pub fn mark_borrowed_mut(&mut self)
        ensures
            *final(self) == (OwnershipBinding {
                state: if old(self).state is Owned || old(self).state is BorrowedMut {
                    OwnershipState::BorrowedMut
                } else {
                    old(self).state
                },
                ..*old(self)
            }),
    {
        if matches!(self.state, OwnershipState::Owned | OwnershipState::BorrowedMut) {
            self.state = OwnershipState::BorrowedMut;
        }
    }
}

/// An ownership rule broken at a source location.
#[derive(Clone, Debug)]
pub struct OwnershipViolation {
    pub binding_name: String,
    pub error_kind: ViolationKind,
    pub at_line: u32,
    pub at_col: u32,
    pub moved_at_line: Option<u32>,
    pub moved_at_col: Option<u32>,
    pub message: String,
}

/// The kind of an ownership violation.
#[derive(Clone, Copy, Debug, PartialEq, Eq, Structural)]
pub enum ViolationKind {
    UseAfterMove,
    DoubleMove,
    BorrowAfterMove,
    MoveAfterBorrow,
    UseNotMoved,
    InvalidOperation,
}

/// `'name'` between single quotes.
pub open spec fn quoted(name: Seq<char>) -> Seq<char> {
    "'"@ + name + "'"@
}

pub open spec fn msg_not_found(name: Seq<char>) -> Seq<char> {
    "binding "@ + quoted(name) + " not found in scope"@
}

pub open spec fn msg_use_after_move(name: Seq<char>, line: nat) -> Seq<char> {
    "cannot use binding "@ + quoted(name) + " after it was moved at line "@ + nat_decimal(line)
}

pub open spec fn msg_move_while_borrowed(name: Seq<char>) -> Seq<char> {
    "cannot move binding "@ + quoted(name) + " while it's borrowed"@
}

pub open spec fn msg_double_move(name: Seq<char>) -> Seq<char> {
    "cannot move binding "@ + quoted(name) + " again: already consumed"@
}

pub open spec fn msg_borrow_after_move(name: Seq<char>, line: nat) -> Seq<char> {
    "cannot borrow "@ + quoted(name) + ": it was moved at line "@ + nat_decimal(line)
}

pub open spec fn msg_mut_borrow_after_move(name: Seq<char>, line: nat) -> Seq<char> {
    "cannot mutably borrow "@ + quoted(name) + ": it was moved at line "@ + nat_decimal(line)
}

pub open spec fn msg_not_consumed(name: Seq<char>, ty_name: Seq<char>) -> Seq<char> {
    "linear resource "@ + quoted(name) + " of type "@ + quoted(ty_name)
        + " must be consumed before function ends"@
}

/// `s` followed by `name` in single quotes, then `tail`.
pub fn quote_between(s: &str, name: &str, tail: &str) -> (r: String)
    ensures
        r@ == s@ + quoted(name@) + tail@,
{
    let mut out = String::from_str(s);
    out.append("'");
    out.append(name);
    out.append("'");
    out.append(tail);
    out
}

/// Appends the decimal form of `n`.
pub fn append_decimal(out: &mut String, n: u64)
    ensures
        final(out)@ == old(out)@ + nat_decimal(n as nat),
{
    let d = u64_to_decimal(n);
    out.append(d.as_str());
}

/// The last index in `bs[lo..hi]` of a binding named `name`.
pub open spec fn last_named(bs: Seq<OwnershipBinding>, name: Seq<char>, lo: int, hi: int) -> Option<int>
    decreases hi - lo,
{
    if hi <= lo {
        None
    } else if bs[hi - 1].name@ == name {
        Some(hi - 1)
    } else {
        last_named(bs, name, lo, hi - 1)
    }
}

pub proof fn lemma_last_named(bs: Seq<OwnershipBinding>, name: Seq<char>, lo: int, hi: int)
    requires
        0 <= lo,
        hi <= bs.len(),
    ensures
        last_named(bs, name, lo, hi) matches Some(j) ==> lo <= j < hi && bs[j].name@ == name
            && forall|k: int| j < k < hi ==> bs[k].name@ != name,
        last_named(bs, name, lo, hi) is None ==> forall|k: int| lo <= k < hi ==> bs[k].name@ != name,
    decreases hi - lo,
{
    if hi > lo {
        lemma_last_named(bs, name, lo, hi - 1);
    }
}

/// The linear bindings of `bs` that are neither consumed nor returned, in order.
pub open spec fn unconsumed(bs: Seq<OwnershipBinding>) -> Seq<OwnershipBinding>
    decreases bs.len(),
{
    if bs.len() == 0 {
        Seq::empty()
    } else {
        let rest = unconsumed(bs.drop_last());
        let b = bs.last();
        if b.is_linear && !(b.state is Consumed || b.state is Returned) {
            rest.push(b)
        } else {
            rest
        }
    }
}

/// Some scope other than the outermost begins after position `a` and at or before `b`.
pub open spec fn separated(starts: Seq<usize>, a: int, b: int) -> bool {
    exists|s: int| 1 <= s < starts.len() && a < #[trigger] starts[s] <= b
}

/// The violation record built by the engine.
pub open spec fn violation_is(
    v: OwnershipViolation,
    name: Seq<char>,
    kind: ViolationKind,
    line: u32,
    col: u32,
    moved_line: Option<u32>,
    moved_col: Option<u32>,
    message: Seq<char>,
) -> bool {
    &&& v.binding_name@ == name
    &&& v.error_kind == kind
    &&& v.at_line == line
    &&& v.at_col == col
    &&& v.moved_at_line == moved_line
    &&& v.moved_at_col == moved_col
    &&& v.message@ == message
}

/// `r` is a refusal with the given violation.
pub open spec fn refused(
    r: Result<(), OwnershipViolation>,
    name: Seq<char>,
    kind: ViolationKind,
    line: u32,
    col: u32,
    moved_line: Option<u32>,
    moved_col: Option<u32>,
    message: Seq<char>,
) -> bool {
    match r {
        Err(v) => violation_is(v, name, kind, line, col, moved_line, moved_col, message),
        Ok(_) => false,
    }
}

fn make_violation(
    name: &str,
    kind: ViolationKind,
    line: u32,
    col: u32,
    moved_line: Option<u32>,
    moved_col: Option<u32>,
    message: String,
) -> (v: OwnershipViolation)
    ensures
        violation_is(v, name@, kind, line, col, moved_line, moved_col, message@),
{
    OwnershipViolation {
        binding_name: String::from_str(name),
        error_kind: kind,
        at_line: line,
        at_col: col,
        moved_at_line: moved_line,
        moved_at_col: moved_col,
        message,
    }
}

/// `c1` is `c0` after a move of `name` that succeeded: the innermost binding
/// of `name` was neither consumed nor borrowed in the innermost scope, and it
/// is now consumed at `c0`'s location; nothing else changed.
pub open spec fn moved_out(c0: OwnershipContext, c1: OwnershipContext, name: Seq<char>) -> bool {
    &&& c0.lookup(name) matches Some(j)
    &&& !(c0.all_bindings()[j].state is Consumed)
    &&& !c0.borrowed_now().contains(name)
    &&& c1.same_except_bindings(&c0)
    &&& c1.all_bindings() == c0.all_bindings().update(
        j,
        OwnershipBinding {
            state: OwnershipState::Consumed,
            moved_at_line: Some(c0.line()),
            moved_at_col: Some(c0.col()),
            ..c0.all_bindings()[j]
        },
    )
}

/// The value an optional line falls back to.
pub open spec fn line_or(o: Option<u32>, d: u32) -> u32 {
    match o {
        Some(l) => l,
        None => d,
    }
}

/// Ownership tracking for one function: bindings in nested scopes, the
/// names borrowed in each scope, and the violations recorded.
///
/// The bindings of all scopes stand in one vector, outermost scope first;
/// `scope_starts[i]` is where scope `i` begins. Within a scope each name
/// occurs once, so the innermost binding of a name is its last occurrence.
#[derive(Clone, Debug)]
pub struct OwnershipContext {
    bindings: Vec<OwnershipBinding>,
    scope_starts: Vec<usize>,
    borrow_scopes: Vec<Vec<String>>,
    violations: Vec<OwnershipViolation>,
    current_line: u32,
    current_col: u32,
}

impl OwnershipContext {
    /// Scopes are well nested and names are unique within each scope.
    pub closed spec fn wf(&self) -> bool {
        &&& self.scope_starts@.len() >= 1
        &&& self.scope_starts@[0] == 0
        &&& self.borrow_scopes@.len() == self.scope_starts@.len()
        &&& forall|i: int, j: int| 0 <= i <= j < self.scope_starts@.len() ==> self.scope_starts@[i] <= self.scope_starts@[j]
        &&& forall|i: int| 0 <= i < self.scope_starts@.len() ==> self.scope_starts@[i] <= self.bindings@.len()
        &&& forall|a: int, b: int| 0 <= a < b < self.bindings@.len() && self.bindings@[a].name@ == self.bindings@[b].name@
            ==> separated(self.scope_starts@, a, b)
    }

    /// All bindings, outermost scope first.
    pub closed spec fn all_bindings(&self) -> Seq<OwnershipBinding> {
        self.bindings@
    }

    /// Where the innermost scope begins.
    pub closed spec fn scope_start(&self) -> int {
        self.scope_starts@.last() as int
    }

    /// Number of open scopes.
    pub closed spec fn depth(&self) -> nat {
        self.scope_starts@.len()
    }

    /// The bindings of the innermost scope.
    pub open spec fn current_scope(&self) -> Seq<OwnershipBinding> {
        self.all_bindings().subrange(self.scope_start(), self.all_bindings().len() as int)
    }

    /// The names borrowed in the innermost scope.
    pub closed spec fn borrowed_now(&self) -> Seq<Seq<char>> {
        self.borrow_scopes@.last()@.map_values(|s: String| s@)
    }

    /// The innermost binding named `name`, as an index into `all_bindings()`.
    pub open spec fn lookup(&self, name: Seq<char>) -> Option<int> {
        last_named(self.all_bindings(), name, 0, self.all_bindings().len() as int)
    }

    pub closed spec fn line(&self) -> u32 {
        self.current_line
    }

    pub closed spec fn col(&self) -> u32 {
        self.current_col
    }

    pub closed spec fn recorded(&self) -> Seq<OwnershipViolation> {
        self.violations@
    }

    /// A fresh context: one empty scope, location 0:0.
    pub fn new() -> (r: Self)
        ensures
            r.wf(),
            r.all_bindings().len() == 0,
            r.depth() == 1,
            r.scope_start() == 0,
            r.borrowed_now().len() == 0,
            r.recorded().len() == 0,
            r.line() == 0,
            r.col() == 0,
    {
        let mut starts = Vec::new();
        starts.push(0);
        let mut borrows: Vec<Vec<String>> = Vec::new();
        borrows.push(Vec::new());
        let r = OwnershipContext {
            bindings: Vec::new(),
            scope_starts: starts,
            borrow_scopes: borrows,
            violations: Vec::new(),
            current_line: 0,
            current_col: 0,
        };
        assert(r.borrowed_now() =~= Seq::empty());
        r
    }


    /// Everything but the bindings is as in `other`.
    pub closed spec fn same_except_bindings(&self, other: &Self) -> bool {
        &&& self.scope_starts == other.scope_starts
        &&& self.borrow_scopes == other.borrow_scopes
        &&& self.violations == other.violations
        &&& self.current_line == other.current_line
        &&& self.current_col == other.current_col
    }

    /// Everything but the bindings and the borrows of the innermost scope is as in `other`.
    pub closed spec fn same_scopes_and_records(&self, other: &Self) -> bool {
        &&& self.scope_starts == other.scope_starts
        &&& self.borrow_scopes@.len() == other.borrow_scopes@.len()
        &&& forall|i: int| 0 <= i < self.borrow_scopes@.len() - 1 ==> self.borrow_scopes@[i] == other.borrow_scopes@[i]
        &&& self.violations == other.violations
        &&& self.current_line == other.current_line
        &&& self.current_col == other.current_col
    }

    fn find_from(&self, name: &str, lo: usize) -> (r: Option<usize>)
        requires
            lo <= self.bindings@.len(),
        ensures
            r matches Some(j) ==> last_named(self.bindings@, name@, lo as int, self.bindings@.len() as int) == Some(j as int),
            r is None ==> last_named(self.bindings@, name@, lo as int, self.bindings@.len() as int) is None,
    {
        let mut hi: usize = self.bindings.len();
        while hi > lo
            invariant
                lo <= hi <= self.bindings@.len(),
                last_named(self.bindings@, name@, lo as int, self.bindings@.len() as int)
                    == last_named(self.bindings@, name@, lo as int, hi as int),
            decreases hi,
        {
            if crate::text::str_eq(self.bindings[hi - 1].name.as_str(), name) {
                return Some(hi - 1);
            }
            hi = hi - 1;
        }
        None
    }

    fn current_start(&self) -> (r: usize)
        requires
            self.wf(),
        ensures
            r == self.scope_start(),
            r <= self.bindings@.len(),
    {
        self.scope_starts[self.scope_starts.len() - 1]
    }

    /// Opens a nested scope.
    pub fn push_scope(&mut self)
        requires
            old(self).wf(),
        ensures
            final(self).wf(),
            final(self).all_bindings() == old(self).all_bindings(),
            final(self).depth() == old(self).depth() + 1,
            final(self).scope_start() == old(self).all_bindings().len(),
            final(self).borrowed_now().len() == 0,
            final(self).recorded() == old(self).recorded(),
            final(self).line() == old(self).line(),
            final(self).col() == old(self).col(),
    {
        let n = self.bindings.len();
        self.scope_starts.push(n);
        self.borrow_scopes.push(Vec::new());
        assert(self.borrowed_now() =~= Seq::empty());
        assert forall|a: int, b: int| 0 <= a < b < self.bindings@.len() && self.bindings@[a].name@ == self.bindings@[b].name@
            implies separated(self.scope_starts@, a, b) by {
            assert(old(self).bindings@[a] == self.bindings@[a]);
            assert(old(self).bindings@[b] == self.bindings@[b]);
            assert(separated(old(self).scope_starts@, a, b));
            let s0 = choose|s: int| 1 <= s < old(self).scope_starts@.len() && a < #[trigger] old(self).scope_starts@[s] <= b;
            assert(self.scope_starts@[s0] == old(self).scope_starts@[s0]);
        }
    }

    /// Closes the innermost scope, dropping its bindings; the outermost scope is never closed.
    pub fn pop_scope(&mut self)
        requires
            old(self).wf(),
        ensures
            final(self).wf(),
            old(self).depth() > 1 ==> final(self).depth() == old(self).depth() - 1
                && final(self).all_bindings() == old(self).all_bindings().subrange(0, old(self).scope_start()),
            old(self).depth() <= 1 ==> *final(self) == *old(self),
            final(self).recorded() == old(self).recorded(),
            final(self).line() == old(self).line(),
            final(self).col() == old(self).col(),
    {
        if self.scope_starts.len() > 1 {
            let start = self.current_start();
            let ghost old_starts = self.scope_starts@;
            let ghost old_bs = self.bindings@;
            self.bindings.truncate(start);
            self.scope_starts.pop();
            self.borrow_scopes.pop();
            assert forall|a: int, b: int| 0 <= a < b < self.bindings@.len() && self.bindings@[a].name@ == self.bindings@[b].name@
                implies separated(self.scope_starts@, a, b) by {
                assert(old_bs[a] == self.bindings@[a]);
                assert(old_bs[b] == self.bindings@[b]);
                assert(separated(old_starts, a, b));
                let s0 = choose|s: int| 1 <= s < old_starts.len() && a < #[trigger] old_starts[s] <= b;
                if s0 == old_starts.len() - 1 {
                    assert(false);
                }
                assert(self.scope_starts@[s0] == old_starts[s0]);
            }
        }
    }

    /// Sets the location that later records carry.
    pub fn set_location(&mut self, line: u32, col: u32)
        requires
            old(self).wf(),
        ensures
            final(self).wf(),
            final(self).line() == line,
            final(self).col() == col,
            final(self).all_bindings() == old(self).all_bindings(),
            final(self).depth() == old(self).depth(),
            final(self).scope_start() == old(self).scope_start(),
            final(self).borrowed_now() == old(self).borrowed_now(),
            final(self).recorded() == old(self).recorded(),
    {
        self.current_line = line;
        self.current_col = col;
    }

    /// Defines `name` in the innermost scope, at the current location and in the owned
    /// state; a binding of that name in the innermost scope is replaced.
    pub fn define_binding(&mut self, name: String, ty_name: String, is_linear: bool)
        requires
            old(self).wf(),
        ensures
            final(self).wf(),
            ({
                let nb = OwnershipBinding {
                    name: name,
                    ty_name: ty_name,
                    is_linear: is_linear,
                    defined_at_line: old(self).line(),
                    defined_at_col: old(self).col(),
                    state: OwnershipState::Owned,
                    moved_at_line: None,
                    moved_at_col: None,
                };
                match last_named(old(self).all_bindings(), name@, old(self).scope_start(), old(self).all_bindings().len() as int) {
                    Some(j) => final(self).all_bindings() == old(self).all_bindings().update(j, nb),
                    None => final(self).all_bindings() == old(self).all_bindings().push(nb),
                }
            }),
            final(self).same_except_bindings(old(self)),
            final(self).depth() == old(self).depth(),
            final(self).scope_start() == old(self).scope_start(),
            final(self).borrowed_now() == old(self).borrowed_now(),
            final(self).recorded() == old(self).recorded(),
            final(self).line() == old(self).line(),
            final(self).col() == old(self).col(),
    {
        let start = self.current_start();
        let found = self.find_from(name.as_str(), start);
        proof { lemma_last_named(self.bindings@, name@, start as int, self.bindings@.len() as int); }
        let line = self.current_line;
        let col = self.current_col;
        let nb = OwnershipBinding::new(name, ty_name, is_linear, line, col);
        let ghost old_b = self.bindings@;
        match found {
            Some(j) => {
                self.bindings.set(j, nb);
                assert forall|a: int, b: int| 0 <= a < b < self.bindings@.len() && self.bindings@[a].name@ == self.bindings@[b].name@
                    implies separated(self.scope_starts@, a, b) by {
                    assert(self.bindings@[a].name@ == old_b[a].name@);
                    assert(self.bindings@[b].name@ == old_b[b].name@);
                }
            },
            None => {
                self.bindings.push(nb);
                assert forall|a: int, b: int| 0 <= a < b < self.bindings@.len() && self.bindings@[a].name@ == self.bindings@[b].name@
                    implies separated(self.scope_starts@, a, b) by {
                    if b == old_b.len() {
                        let last = self.scope_starts@.len() - 1;
                        assert(self.scope_starts@[last] == start);
                        assert(a < start);
                        if last == 0 {
                            assert(false);
                        }
                    } else {
                        assert(self.bindings@[a] == old_b[a]);
                        assert(self.bindings@[b] == old_b[b]);
                    }
                }
            },
        }
    }

    /// A read of `name`: allowed when its innermost binding is neither consumed nor returned.
    pub fn record_use(&mut self, name: &str) -> (r: Result<(), OwnershipViolation>)
        requires
            old(self).wf(),
        ensures
            *final(self) == *old(self),
            match old(self).lookup(name@) {
                None => refused(r, name@, ViolationKind::UseAfterMove,
                    old(self).line(), old(self).col(), None, None, msg_not_found(name@)),
                Some(j) => {
                    let b = old(self).all_bindings()[j];
                    if b.state.spec_allows_use() {
                        r is Ok
                    } else {
                        refused(r, name@, ViolationKind::UseAfterMove,
                            old(self).line(), old(self).col(), b.moved_at_line, b.moved_at_col,
                            msg_use_after_move(name@, line_or(b.moved_at_line, old(self).line()) as nat))
                    }
                },
            },
    {
        let found = self.find_from(name, 0);
        proof { lemma_last_named(self.bindings@, name@, 0, self.bindings@.len() as int); }
        match found {
            Some(j) => {
                let b = &self.bindings[j];
                if !b.can_use_at(self.current_line) {
                    let line = match b.moved_at_line { Some(l) => l, None => self.current_line };
                    let mut msg = quote_between("cannot use binding ", name, " after it was moved at line ");
                    append_decimal(&mut msg, line as u64);
                    return Err(make_violation(name, ViolationKind::UseAfterMove, self.current_line,
                        self.current_col, b.moved_at_line, b.moved_at_col, msg));
                }
                Ok(())
            },
            None => {
                let msg = quote_between("binding ", name, " not found in scope");
                Err(make_violation(name, ViolationKind::UseAfterMove, self.current_line, self.current_col,
                    None, None, msg))
            },
        }
    }

    fn borrowed_in_current(&self, name: &str) -> (r: bool)
        requires
            self.wf(),
        ensures
            r == self.borrowed_now().contains(name@),
    {
        let last = &self.borrow_scopes[self.borrow_scopes.len() - 1];
        let mut k: usize = 0;
        while k < last.len()
            invariant
                k <= last.len(),
                *last == self.borrow_scopes@.last(),
                forall|i: int| 0 <= i < k ==> last@[i]@ != name@,
            decreases last.len() - k,
        {
            if crate::text::str_eq(last[k].as_str(), name) {
                assert(self.borrowed_now()[k as int] == name@);
                return true;
            }
            k = k + 1;
        }
        false
    }

    /// A move of `name`: refused while it is borrowed in the innermost scope, when it
    /// has no binding, or when its binding is already consumed; otherwise the binding
    /// becomes consumed at the current location.
    pub fn record_move(&mut self, name: &str) -> (r: Result<(), OwnershipViolation>)
        requires
            old(self).wf(),
        ensures
            final(self).wf(),
            old(self).borrowed_now().contains(name@) ==> *final(self) == *old(self)
                && refused(r, name@, ViolationKind::MoveAfterBorrow,
                    old(self).line(), old(self).col(), None, None, msg_move_while_borrowed(name@)),
            !old(self).borrowed_now().contains(name@) ==> match old(self).lookup(name@) {
                None => *final(self) == *old(self) && refused(r, name@,
                    ViolationKind::UseAfterMove, old(self).line(), old(self).col(), None, None, msg_not_found(name@)),
                Some(j) => {
                    let b = old(self).all_bindings()[j];
                    if b.state is Consumed {
                        *final(self) == *old(self) && refused(r, name@,
                            ViolationKind::DoubleMove, old(self).line(), old(self).col(), b.moved_at_line,
                            b.moved_at_col, msg_double_move(name@))
                    } else {
                        r is Ok && final(self).same_except_bindings(old(self))
                            && final(self).all_bindings() == old(self).all_bindings().update(j,
                                OwnershipBinding {
                                    state: OwnershipState::Consumed,
                                    moved_at_line: Some(old(self).line()),
                                    moved_at_col: Some(old(self).col()),
                                    ..b
                                })
                    }
                },
            },
            r is Ok ==> moved_out(*old(self), *final(self), name@),
    {
        let line = self.current_line;
        let col = self.current_col;
        if self.borrowed_in_current(name) {
            let msg = quote_between("cannot move binding ", name, " while it's borrowed");
            return Err(make_violation(name, ViolationKind::MoveAfterBorrow, line, col, None, None, msg));
        }
        let found = self.find_from(name, 0);
        proof { lemma_last_named(self.bindings@, name@, 0, self.bindings@.len() as int); }
        match found {
            Some(j) => {
                if self.bindings[j].state == OwnershipState::Consumed {
                    let msg = quote_between("cannot move binding ", name, " again: already consumed");
                    return Err(make_violation(name, ViolationKind::DoubleMove, line, col,
                        self.bindings[j].moved_at_line, self.bindings[j].moved_at_col, msg));
                }
                let ghost old_b = self.bindings@;
                let mut b = self.bindings.remove(j);
                b.mark_moved(line, col);
                self.bindings.insert(j, b);
                assert(self.bindings@ =~= old_b.update(j as int, b));
                assert forall|x: int, y: int| 0 <= x < y < self.bindings@.len() && self.bindings@[x].name@ == self.bindings@[y].name@
                    implies separated(self.scope_starts@, x, y) by {
                    assert(self.bindings@[x].name@ == old_b[x].name@);
                    assert(self.bindings@[y].name@ == old_b[y].name@);
                }
                Ok(())
            },
            None => {
                let msg = quote_between("binding ", name, " not found in scope");
                Err(make_violation(name, ViolationKind::UseAfterMove, line, col, None, None, msg))
            },
        }
    }


    fn note_borrow(&mut self, name: &str)
        requires
            old(self).wf(),
        ensures
            final(self).wf(),
            final(self).bindings == old(self).bindings,
            final(self).scope_starts == old(self).scope_starts,
            final(self).violations == old(self).violations,
            final(self).current_line == old(self).current_line,
            final(self).current_col == old(self).current_col,
            final(self).same_scopes_and_records(old(self)),
            final(self).borrowed_now() == if old(self).borrowed_now().contains(name@) {
                old(self).borrowed_now()
            } else {
                old(self).borrowed_now().push(name@)
            },
    {
        let already = self.borrowed_in_current(name);
        let ghost old_scopes = self.borrow_scopes@;
        let mut last = self.borrow_scopes.pop().unwrap();
        let ghost old_last = last@;
        if !already {
            last.push(String::from_str(name));
        }
        self.borrow_scopes.push(last);
        proof {
            assert(self.borrow_scopes@.last() == last);
            if !already {
                assert(last@.map_values(|x: String| x@) =~= old_last.map_values(|x: String| x@).push(name@));
            }
            assert forall|i: int| 0 <= i < self.borrow_scopes@.len() - 1 implies self.borrow_scopes@[i] == old_scopes[i] by {}
        }
    }

    /// An immutable borrow of `name`: refused when it has no binding or its binding is
    /// consumed or returned; otherwise an owned binding becomes immutably borrowed and
    /// the name is noted as borrowed in the innermost scope.
    pub fn record_borrow_immut(&mut self, name: &str) -> (r: Result<(), OwnershipViolation>)
        requires
            old(self).wf(),
        ensures
            final(self).wf(),
            match old(self).lookup(name@) {
                None => *final(self) == *old(self) && refused(r, name@, ViolationKind::UseAfterMove,
                    old(self).line(), old(self).col(), None, None, msg_not_found(name@)),
                Some(j) => {
                    let b = old(self).all_bindings()[j];
                    if !b.state.spec_allows_borrow() {
                        *final(self) == *old(self) && refused(r, name@, ViolationKind::BorrowAfterMove,
                            old(self).line(), old(self).col(), b.moved_at_line, b.moved_at_col,
                            msg_borrow_after_move(name@, line_or(b.moved_at_line, old(self).line()) as nat))
                    } else {
                        &&& r is Ok
                        &&& final(self).same_scopes_and_records(old(self))
                        &&& final(self).all_bindings() == old(self).all_bindings().update(j, OwnershipBinding {
                            state: if b.state is Owned { OwnershipState::BorrowedImmut } else { b.state },
                            ..b
                        })
                        &&& final(self).borrowed_now() == if old(self).borrowed_now().contains(name@) {
                            old(self).borrowed_now()
                        } else {
                            old(self).borrowed_now().push(name@)
                        }
                    }
                },
            },
    {
        let found = self.find_from(name, 0);
        proof { lemma_last_named(self.bindings@, name@, 0, self.bindings@.len() as int); }
        match found {
            Some(j) => {
                if !self.bindings[j].state.allows_borrow() {
                    let line = match self.bindings[j].moved_at_line { Some(l) => l, None => self.current_line };
                    let mut msg = quote_between("cannot borrow ", name, ": it was moved at line ");
                    append_decimal(&mut msg, line as u64);
                    return Err(make_violation(name, ViolationKind::BorrowAfterMove, self.current_line,
                        self.current_col, self.bindings[j].moved_at_line, self.bindings[j].moved_at_col, msg));
                }
                let ghost old_b = self.bindings@;
                let mut b = self.bindings.remove(j);
                b.mark_borrowed_immut();
                self.bindings.insert(j, b);
                assert(self.bindings@ =~= old_b.update(j as int, b));
                assert forall|x: int, y: int| 0 <= x < y < self.bindings@.len() && self.bindings@[x].name@ == self.bindings@[y].name@
                    implies separated(self.scope_starts@, x, y) by {
                    assert(self.bindings@[x].name@ == old_b[x].name@);
                    assert(self.bindings@[y].name@ == old_b[y].name@);
                }
                self.note_borrow(name);
                Ok(())
            },
            None => {
                let msg = quote_between("binding ", name, " not found in scope");
                Err(make_violation(name, ViolationKind::UseAfterMove, self.current_line, self.current_col,
                    None, None, msg))
            },
        }
    }

    /// A mutable borrow of `name`: refused when it has no binding or its binding is
    /// consumed or returned; otherwise an owned or mutably borrowed binding becomes
    /// mutably borrowed and the name is noted as borrowed in the innermost scope.
    pub fn record_borrow_mut(&mut self, name: &str) -> (r: Result<(), OwnershipViolation>)
        requires
            old(self).wf(),
        ensures
            final(self).wf(),
            match old(self).lookup(name@) {
                None => *final(self) == *old(self) && refused(r, name@, ViolationKind::UseAfterMove,
                    old(self).line(), old(self).col(), None, None, msg_not_found(name@)),
                Some(j) => {
                    let b = old(self).all_bindings()[j];
                    if !b.state.spec_allows_borrow() {
                        *final(self) == *old(self) && refused(r, name@, ViolationKind::BorrowAfterMove,
                            old(self).line(), old(self).col(), b.moved_at_line, b.moved_at_col,
                            msg_mut_borrow_after_move(name@, line_or(b.moved_at_line, old(self).line()) as nat))
                    } else {
                        &&& r is Ok
                        &&& final(self).same_scopes_and_records(old(self))
                        &&& final(self).all_bindings() == old(self).all_bindings().update(j, OwnershipBinding {
                            state: if b.state is Owned || b.state is BorrowedMut { OwnershipState::BorrowedMut } else { b.state },
                            ..b
                        })
                        &&& final(self).borrowed_now() == if old(self).borrowed_now().contains(name@) {
                            old(self).borrowed_now()
                        } else {
                            old(self).borrowed_now().push(name@)
                        }
                    }
                },
            },
    {
        let found = self.find_from(name, 0);
        proof { lemma_last_named(self.bindings@, name@, 0, self.bindings@.len() as int); }
        match found {
            Some(j) => {
                if !self.bindings[j].state.allows_borrow() {
                    let line = match self.bindings[j].moved_at_line { Some(l) => l, None => self.current_line };
                    let mut msg = quote_between("cannot mutably borrow ", name, ": it was moved at line ");
                    append_decimal(&mut msg, line as u64);
                    return Err(make_violation(name, ViolationKind::BorrowAfterMove, self.current_line,
                        self.current_col, self.bindings[j].moved_at_line, self.bindings[j].moved_at_col, msg));
                }
                let ghost old_b = self.bindings@;
                let mut b = self.bindings.remove(j);
                b.mark_borrowed_mut();
                self.bindings.insert(j, b);
                assert(self.bindings@ =~= old_b.update(j as int, b));
                assert forall|x: int, y: int| 0 <= x < y < self.bindings@.len() && self.bindings@[x].name@ == self.bindings@[y].name@
                    implies separated(self.scope_starts@, x, y) by {
                    assert(self.bindings@[x].name@ == old_b[x].name@);
                    assert(self.bindings@[y].name@ == old_b[y].name@);
                }
                self.note_borrow(name);
                Ok(())
            },
            None => {
                let msg = quote_between("binding ", name, " not found in scope");
                Err(make_violation(name, ViolationKind::UseAfterMove, self.current_line, self.current_col,
                    None, None, msg))
            },
        }
    }

    /// A return of `name` to the caller: its innermost binding becomes returned;
    /// refused when it has no binding.
    pub fn record_return(&mut self, name: &str) -> (r: Result<(), OwnershipViolation>)
        requires
            old(self).wf(),
        ensures
            final(self).wf(),
            match old(self).lookup(name@) {
                None => *final(self) == *old(self) && refused(r, name@, ViolationKind::UseAfterMove,
                    old(self).line(), old(self).col(), None, None, msg_not_found(name@)),
                Some(j) => r is Ok && final(self).same_except_bindings(old(self))
                    && final(self).all_bindings() == old(self).all_bindings().update(j, OwnershipBinding {
                        state: OwnershipState::Returned,
                        ..old(self).all_bindings()[j]
                    }),
            },
    {
        let found = self.find_from(name, 0);
        proof { lemma_last_named(self.bindings@, name@, 0, self.bindings@.len() as int); }
        match found {
            Some(j) => {
                let ghost old_b = self.bindings@;
                let mut b = self.bindings.remove(j);
                b.state = OwnershipState::Returned;
                self.bindings.insert(j, b);
                assert(self.bindings@ =~= old_b.update(j as int, b));
                assert forall|x: int, y: int| 0 <= x < y < self.bindings@.len() && self.bindings@[x].name@ == self.bindings@[y].name@
                    implies separated(self.scope_starts@, x, y) by {
                    assert(self.bindings@[x].name@ == old_b[x].name@);
                    assert(self.bindings@[y].name@ == old_b[y].name@);
                }
                Ok(())
            },
            None => {
                let msg = quote_between("binding ", name, " not found in scope");
                Err(make_violation(name, ViolationKind::UseAfterMove, self.current_line, self.current_col,
                    None, None, msg))
            },
        }
    }

    /// For each linear binding of the innermost scope, in order of definition, that is
    /// neither consumed nor returned: a `UseNotMoved` violation at the current location.
    pub fn check_linear_resources_consumed(&self) -> (r: Vec<OwnershipViolation>)
        requires
            self.wf(),
        ensures
            r@.len() == unconsumed(self.current_scope()).len(),
            forall|i: int| 0 <= i < r@.len() ==> {
                let b = #[trigger] unconsumed(self.current_scope())[i];
                violation_is(r@[i], b.name@, ViolationKind::UseNotMoved, self.line(), self.col(),
                    None, None, msg_not_consumed(b.name@, b.ty_name@))
            },
    {
        let mut out: Vec<OwnershipViolation> = Vec::new();
        let start = self.current_start();
        let ghost scope = self.current_scope();
        let mut k: usize = start;
        while k < self.bindings.len()
            invariant
                start <= k <= self.bindings@.len(),
                start == self.scope_start(),
                scope == self.current_scope(),
                out@.len() == unconsumed(scope.subrange(0, k - start)).len(),
                forall|i: int| 0 <= i < out@.len() ==> {
                    let b = #[trigger] unconsumed(scope.subrange(0, k - start))[i];
                    violation_is(out@[i], b.name@, ViolationKind::UseNotMoved, self.line(), self.col(),
                        None, None, msg_not_consumed(b.name@, b.ty_name@))
                },
            decreases self.bindings@.len() - k,
        {
            let ghost prefix = scope.subrange(0, k - start);
            assert(scope.subrange(0, k + 1 - start).drop_last() =~= prefix);
            assert(scope.subrange(0, k + 1 - start).last() == self.bindings@[k as int]);
            let b = &self.bindings[k];
            if b.is_linear && !matches!(b.state, OwnershipState::Consumed | OwnershipState::Returned) {
                let mut msg = quote_between("linear resource ", b.name.as_str(), " of type ");
                msg.append("'");
                msg.append(b.ty_name.as_str());
                msg.append("'");
                msg.append(" must be consumed before function ends");
                assert(msg@ =~= msg_not_consumed(b.name@, b.ty_name@));
                let v = make_violation(b.name.as_str(), ViolationKind::UseNotMoved, self.current_line,
                    self.current_col, None, None, msg);
                out.push(v);
            }
            k = k + 1;
        }
        assert(scope.subrange(0, self.bindings@.len() - start) =~= scope);
        out
    }

    /// Appends a violation to the record.
    pub fn record_violation(&mut self, violation: OwnershipViolation)
        requires
            old(self).wf(),
        ensures
            final(self).wf(),
            final(self).recorded() == old(self).recorded().push(violation),
            final(self).all_bindings() == old(self).all_bindings(),
            final(self).depth() == old(self).depth(),
            final(self).scope_start() == old(self).scope_start(),
            final(self).borrowed_now() == old(self).borrowed_now(),
            final(self).line() == old(self).line(),
            final(self).col() == old(self).col(),
    {
        self.violations.push(violation);
    }

    /// The violations recorded so far.
    pub fn violations(&self) -> (r: &[OwnershipViolation])
        ensures
            r@ == self.recorded(),
    {
        self.violations.as_slice()
    }

    /// The bindings of the innermost scope, in order of definition.
    pub fn current_bindings(&self) -> (r: &[OwnershipBinding])
        requires
            self.wf(),
        ensures
            r@ == self.current_scope(),
    {
        let start = self.current_start();
        vstd::slice::slice_subrange(self.bindings.as_slice(), start, self.bindings.len())
    }

    /// Whether `name` has a binding in some open scope.
    pub fn binding_exists(&self, name: &str) -> (r: bool)
        ensures
            r == self.lookup(name@) is Some,
    {
        self.find_from(name, 0).is_some()
    }

} // impl


/// Replacing a binding by one of the same name finds every name where it was.
proof fn lemma_last_named_update(bs: Seq<OwnershipBinding>, j: int, nb: OwnershipBinding, name: Seq<char>, lo: int, hi: int)
    requires
        0 <= j < bs.len(),
        0 <= lo,
        hi <= bs.len(),
        nb.name@ == bs[j].name@,
    ensures
        last_named(bs.update(j, nb), name, lo, hi) == last_named(bs, name, lo, hi),
    decreases hi - lo,
{
    if hi > lo {
        lemma_last_named_update(bs, j, nb, name, lo, hi - 1);
    }
}

/// After a move of a binding succeeds, the binding is consumed where the move
/// happened: a later use of the name is refused as a use after move, and a
/// later move of it as a double move, as long as it is not rebound.
pub proof fn law_moved_binding_is_consumed(c0: OwnershipContext, c1: OwnershipContext, name: Seq<char>)
    requires
        moved_out(c0, c1, name),
    ensures
        c1.lookup(name) == c0.lookup(name),
        c1.lookup(name) matches Some(j) && ({
            let b = c1.all_bindings()[j];
            &&& b.state is Consumed
            &&& !b.state.spec_allows_use()
            &&& b.moved_at_line == Some(c0.line())
            &&& b.moved_at_col == Some(c0.col())
        }),
        c1.borrowed_now() == c0.borrowed_now(),
        c1.line() == c0.line(),
        c1.col() == c0.col(),
{
    let j = c0.lookup(name)->0;
    let bs = c0.all_bindings();
    lemma_last_named(bs, name, 0, bs.len() as int);
    lemma_last_named_update(bs, j, c1.all_bindings()[j], name, 0, bs.len() as int);
}

} // verus!
