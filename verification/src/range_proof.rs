//! Range proofs for literals, with a pluggable solver for everything else.
use vstd::prelude::*;
use crate::error::{SemanticError, Span};
use crate::text::{nat_decimal, u64_to_decimal};

verus! {

/// A solver that may prove predicates. By default it proves nothing.
pub trait SmtSolver {
    fn prove(&self, predicate: &str) -> bool {
        false
    }
}

/// The solver that proves nothing.
#[derive(Default)]
pub struct DummySolver;

impl SmtSolver for DummySolver {}

/// Proves range facts about expressions.
pub struct Verifier<S: SmtSolver> {
    solver: S,
}

/// The message for a literal outside `lo..hi`.
pub open spec fn out_of_range_message(n: u64, lo: u64, hi: u64) -> Seq<char> {
    "literal "@ + nat_decimal(n as nat) + " is outside required range "@ + nat_decimal(lo as nat) + ".."@
        + nat_decimal(hi as nat)
}

/// The predicate handed to the solver for an expression that must lie in
/// `lo..=hi`.
pub open spec fn range_predicate_text(lo: u64, hi: u64) -> Seq<char> {
    nat_decimal(lo as nat) + " <= <expr> && <expr> <= "@ + nat_decimal(hi as nat)
}

/// Writes the predicate handed to the solver for `lo..=hi`.
pub fn range_predicate(lo: u64, hi: u64) -> (r: String)
    ensures
        r@ == range_predicate_text(lo, hi),
{
    let mut p = u64_to_decimal(lo);
    p.append(" <= <expr> && <expr> <= ");
    p.append(u64_to_decimal(hi).as_str());
    p
}

impl<S: SmtSolver> Verifier<S> {
    /// The solver this verifier consults.
    pub closed spec fn solver(&self) -> S {
        self.solver
    }

    pub fn new(solver: S) -> (r: Self)
        ensures
            r.solver() == solver,
    {
        Self { solver }
    }

    /// Proves that an expression lies in `lo..=hi`. Only integer literals
    /// (`literal` is `Some`) are judged; any other expression is left to the
    /// solver, which is handed `range_predicate(lo, hi)`, and accepted
    /// whatever it answers.
    pub fn prove_u32_in_range(&self, literal: Option<u64>, span: Span, lo: u64, hi: u64) -> (r: Result<
        (),
        SemanticError,
    >)
        ensures
            match literal {
                Some(n) => if n < lo || n > hi {
                    r matches Err(e) && e.message@ == out_of_range_message(n, lo, hi) && e.span == span
                } else {
                    r is Ok
                },
                None => r is Ok,
            },
    {
        match literal {
            Some(n) => {
                if n < lo || n > hi {
                    let mut m = String::from_str("literal ");
                    m.append(u64_to_decimal(n).as_str());
                    m.append(" is outside required range ");
                    m.append(u64_to_decimal(lo).as_str());
                    m.append("..");
                    m.append(u64_to_decimal(hi).as_str());
                    Err(SemanticError { message: m, span })
                } else {
                    Ok(())
                }
            },
            None => {
                let p = range_predicate(lo, hi);
                let _ = self.solver.prove(p.as_str());
                Ok(())
            },
        }
    }
}

} // verus!
