use aura_lang::control_flow::{ControlFlowGraph, ControlFlowPath, OwnershipFlowAnalyzer, StateMap};
use aura_lang::ownership_enforcement::OwnershipState;

#[test]
fn test_control_flow_graph_new() {
    let graph = ControlFlowGraph::new();
    assert_eq!(graph.paths.len(), 1);
    assert!(graph.paths[0].reachable);
}

#[test]
fn test_control_flow_branching() {
    let mut graph = ControlFlowGraph::new();
    assert_eq!(graph.paths.len(), 1);

    graph.branch();
    assert_eq!(graph.paths.len(), 2);
    assert!(graph.paths.iter().all(|p| p.reachable));
}

#[test]
fn test_control_flow_merge() {
    let mut graph = ControlFlowGraph::new();
    graph.record_move_in_all("x");
    graph.branch();

    let merged = graph.merge();
    assert_eq!(merged.get("x"), Some(OwnershipState::Consumed));
}

#[test]
fn test_if_else_consistent_moves() {
    let mut then_bindings = StateMap::new();
    then_bindings.insert("x".to_string(), OwnershipState::Consumed);

    let mut else_bindings = StateMap::new();
    else_bindings.insert("x".to_string(), OwnershipState::Consumed);

    let merged = OwnershipFlowAnalyzer::analyze_if_else("cond", then_bindings, else_bindings);
    assert_eq!(merged.get("x"), Some(OwnershipState::Consumed));
}

#[test]
fn test_match_consistent_moves() {
    let mut branch1 = StateMap::new();
    branch1.insert("x".to_string(), OwnershipState::Consumed);

    let mut branch2 = StateMap::new();
    branch2.insert("x".to_string(), OwnershipState::Consumed);

    let result = OwnershipFlowAnalyzer::analyze_match("val", vec![branch1, branch2]);
    assert!(result.is_ok());
    let merged = result.unwrap();
    assert_eq!(merged.get("x"), Some(OwnershipState::Consumed));
}

#[test]
fn test_consistent_moves_check() {
    let mut path1 = ControlFlowPath {
        path_id: 0,
        bindings: StateMap::new(),
        reachable: true,
    };
    path1.bindings.insert("model".to_string(), OwnershipState::Consumed);

    let mut path2 = ControlFlowPath {
        path_id: 1,
        bindings: StateMap::new(),
        reachable: true,
    };
    path2.bindings.insert("model".to_string(), OwnershipState::Consumed);

    let graph = ControlFlowGraph {
        paths: vec![path1, path2],
        next_path_id: 2,
        convergence_points: Vec::new(),
    };

    let result = graph.check_consistent_moves(&["model"]);
    assert!(result.is_ok());
}

#[test]
fn branch_ids_and_merge_point() {
    let mut g = ControlFlowGraph::new();
    g.branch();
    assert_eq!(g.paths[0].path_id, 1);
    assert_eq!(g.paths[1].path_id, 2);
    assert_eq!(g.next_path_id, 3);
    g.mark_unreachable(2);
    assert_eq!(g.reachable_paths().len(), 1);
    g.record_move_in_all("m");
    assert_eq!(g.get_binding_state("m"), Some(OwnershipState::Consumed));
    let merged = g.merge();
    assert_eq!(merged.get("m"), Some(OwnershipState::Consumed));
    assert_eq!(g.paths.len(), 1);
    assert_eq!(g.paths[0].path_id, 3);
    assert_eq!(g.convergence_points, vec![3]);
}

#[test]
fn inconsistent_moves_reported_with_counts() {
    let mut g = ControlFlowGraph::new();
    g.branch();
    g.branch();
    // four reachable paths; consume `t` on one of them only
    g.mark_unreachable(3);
    g.mark_unreachable(4);
    g.mark_unreachable(5);
    g.record_move_in_all("t");
    // bring the other three back as reachable paths without `t`
    g.paths[1].reachable = true;
    g.paths[2].reachable = true;
    let err = g.check_consistent_moves(&["t", "u"]).unwrap_err();
    assert_eq!(err, vec!["binding 't' moved in 1 but not 2 reachable paths".to_string()]);
}

#[test]
fn merge_disagreement_rules() {
    let mut g = ControlFlowGraph::new();
    g.branch();
    g.paths[0].bindings.insert("a".to_string(), OwnershipState::BorrowedImmut);
    g.paths[1].bindings.insert("a".to_string(), OwnershipState::BorrowedMut);
    g.paths[0].bindings.insert("b".to_string(), OwnershipState::Consumed);
    g.paths[1].bindings.insert("b".to_string(), OwnershipState::Owned);
    assert_eq!(g.get_binding_state("a"), Some(OwnershipState::Consumed));
    let merged = g.merge();
    assert_eq!(merged.get("a"), Some(OwnershipState::Owned));
    assert_eq!(merged.get("b"), Some(OwnershipState::Consumed));
    assert_eq!(merged.get("c"), None);
}

#[test]
fn match_and_loop_analysis_errors() {
    let mut b1 = StateMap::new();
    b1.insert("x".to_string(), OwnershipState::Consumed);
    let mut b2 = StateMap::new();
    b2.insert("x".to_string(), OwnershipState::Owned);
    let err = OwnershipFlowAnalyzer::analyze_match("v", vec![b1, b2]).unwrap_err();
    assert_eq!(err, vec!["binding 'x' has different ownership states in different match branches".to_string()]);
    assert_eq!(OwnershipFlowAnalyzer::analyze_match("v", vec![]).unwrap().len(), 0);

    let mut body = StateMap::new();
    body.insert("a".to_string(), OwnershipState::Consumed);
    body.insert("b".to_string(), OwnershipState::BorrowedMut);
    body.insert("c".to_string(), OwnershipState::Owned);
    let err = OwnershipFlowAnalyzer::analyze_loop(body, vec!["a", "b", "c", "d"]).unwrap_err();
    assert_eq!(
        err,
        vec![
            "linear binding 'c' not consumed in loop body".to_string(),
            "linear binding 'd' not consumed in loop body".to_string()
        ]
    );
}

#[test]
fn if_else_merge_rules() {
    let mut t = StateMap::new();
    t.insert("a".to_string(), OwnershipState::Consumed);
    t.insert("b".to_string(), OwnershipState::BorrowedImmut);
    t.insert("only_then".to_string(), OwnershipState::BorrowedMut);
    let mut e = StateMap::new();
    e.insert("a".to_string(), OwnershipState::Owned);
    e.insert("b".to_string(), OwnershipState::BorrowedMut);
    e.insert("only_else".to_string(), OwnershipState::Returned);
    let m = OwnershipFlowAnalyzer::analyze_if_else("c", t, e);
    assert_eq!(m.get("a"), Some(OwnershipState::Consumed));
    assert_eq!(m.get("b"), Some(OwnershipState::Owned));
    assert_eq!(m.get("only_then"), Some(OwnershipState::BorrowedMut));
    assert_eq!(m.get("only_else"), Some(OwnershipState::Returned));
    assert_eq!(m.len(), 4);
}

#[test]
fn if_else_branch_order_does_not_matter() {
    let build = |pairs: &[(&str, OwnershipState)]| {
        let mut m = StateMap::new();
        for (k, v) in pairs {
            m.insert(k.to_string(), *v);
        }
        m
    };
    let t = [("a", OwnershipState::Consumed), ("b", OwnershipState::BorrowedImmut), ("c", OwnershipState::Owned)];
    let e = [("a", OwnershipState::Owned), ("b", OwnershipState::BorrowedMut), ("d", OwnershipState::Returned)];
    let m1 = OwnershipFlowAnalyzer::analyze_if_else("x", build(&t), build(&e));
    let m2 = OwnershipFlowAnalyzer::analyze_if_else("x", build(&e), build(&t));
    for k in ["a", "b", "c", "d", "z"] {
        assert_eq!(m1.get(k), m2.get(k));
    }
    assert_eq!(m1.get("a"), Some(OwnershipState::Consumed));
}
