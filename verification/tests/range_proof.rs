use aura_lang::error::Span;
use aura_lang::range_proof::{DummySolver, SmtSolver, Verifier};

fn sp() -> Span {
    Span { offset: 3, len: 2 }
}

#[test]
fn literal_inside_range_is_proved() {
    let v = Verifier::new(DummySolver);
    assert!(v.prove_u32_in_range(Some(5), sp(), 0, 10).is_ok());
    assert!(v.prove_u32_in_range(Some(0), sp(), 0, 10).is_ok());
    assert!(v.prove_u32_in_range(Some(10), sp(), 0, 10).is_ok());
}

#[test]
fn literal_outside_range_is_refused() {
    let v = Verifier::new(DummySolver);
    match v.prove_u32_in_range(Some(11), sp(), 0, 10) {
        Ok(()) => panic!("expected an error"),
        Err(e) => {
            assert_eq!(e.message, "literal 11 is outside required range 0..10");
            assert_eq!(e.span, sp());
        }
    }
    match v.prove_u32_in_range(Some(2), sp(), 3, 255) {
        Ok(()) => panic!("expected an error"),
        Err(e) => assert_eq!(e.message, "literal 2 is outside required range 3..255"),
    }
}

#[test]
fn other_expressions_are_left_to_the_solver() {
    let v = Verifier::new(DummySolver);
    assert!(v.prove_u32_in_range(None, sp(), 5, 1).is_ok());
    assert!(!DummySolver.prove("0 <= <expr> && <expr> <= 1"));
}

#[test]
fn range_predicate_names_both_bounds() {
    assert_eq!(aura_lang::range_proof::range_predicate(3, 17), "3 <= <expr> && <expr> <= 17");
}
