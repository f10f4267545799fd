use aura_lang::capability::CapabilityGraph;
use aura_lang::error::Span;

fn sp(offset: usize, len: usize) -> Span {
    Span { offset, len }
}

fn err_message(g: &CapabilityGraph, name: &str) -> String {
    match g.ensure_alive(name, sp(0, 1)) {
        Ok(id) => panic!("expected an error, got capability {}", id),
        Err(e) => e.message,
    }
}

#[test]
fn fresh_root_is_alive() {
    let mut g = CapabilityGraph::new();
    g.alloc_root(1, "x");
    g.alloc_root(2, "y");
    assert_eq!(g.ensure_alive("x", sp(0, 1)).unwrap(), 1);
    assert_eq!(g.ensure_alive("y", sp(0, 1)).unwrap(), 2);
}

#[test]
fn unknown_value_is_reported_with_its_span() {
    let g = CapabilityGraph::default();
    match g.ensure_alive("ghost", sp(4, 5)) {
        Ok(_) => panic!("expected an error"),
        Err(e) => {
            assert_eq!(e.message, "unknown value 'ghost'");
            assert_eq!(e.span, sp(4, 5));
        }
    }
}

#[test]
fn moved_value_is_dead_and_says_where() {
    let mut g = CapabilityGraph::new();
    g.alloc_root(1, "x");
    g.consume_move(1, 7, sp(10, 3));
    assert_eq!(err_message(&g, "x"), "use after move: 'x' (consumed at byte offset 10 len 3)");
}

#[test]
fn lending_keeps_the_value_alive() {
    let mut g = CapabilityGraph::new();
    g.alloc_root(1, "x");
    g.lend_read(1, 2, sp(0, 1));
    g.lend_write(1, 3, sp(1, 1));
    assert_eq!(g.ensure_alive("x", sp(2, 1)).unwrap(), 1);
}

#[test]
fn rebinding_a_name_gives_a_live_root() {
    let mut g = CapabilityGraph::new();
    g.alloc_root(1, "x");
    g.consume_move(1, 2, sp(0, 4));
    g.alloc_root(3, "x");
    assert_eq!(g.ensure_alive("x", sp(0, 1)).unwrap(), 3);
    // a move of a capability without a node kills nothing
    g.consume_move(9, 10, sp(0, 1));
    assert_eq!(g.ensure_alive("x", sp(0, 1)).unwrap(), 3);
}

#[test]
fn two_names_for_one_capability_die_together() {
    let mut g = CapabilityGraph::new();
    g.alloc_root(5, "a");
    g.alloc_root(5, "b");
    g.consume_move(5, 6, sp(2, 2));
    assert_eq!(err_message(&g, "a"), "use after move: 'a' (consumed at byte offset 2 len 2)");
    assert_eq!(err_message(&g, "b"), "use after move: 'b' (consumed at byte offset 2 len 2)");
}
