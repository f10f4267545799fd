use aura_lang::pattern_lowering::{JumpTable, MatchArm, PatternValue};

fn int_arm(v: i64, action_id: u32) -> MatchArm {
    MatchArm { pattern: PatternValue::IntLiteral(v), action_id }
}

#[test]
fn span_and_fill_of_dense_literals() {
    let arms = vec![int_arm(1, 10), int_arm(2, 20), int_arm(5, 50)];
    assert_eq!(JumpTable::literal_span(&arms), Some((1, 5, 3)));
    let table = JumpTable::fill(&arms, 1, 5, 0);
    assert_eq!(table.base, 1);
    assert_eq!(table.size, 5);
    assert_eq!(table.lookup(1), 10);
    assert_eq!(table.lookup(2), 20);
    assert_eq!(table.lookup(3), 0);
    assert_eq!(table.lookup(5), 50);
    assert_eq!(table.lookup(0), 0);
    assert_eq!(table.lookup(6), 0);
    assert_eq!(table.lookup(-7), 0);
}

#[test]
fn metrics_of_full_table() {
    let arms: Vec<MatchArm> = (0..5).map(|i| int_arm(i, i as u32)).collect();
    let table = JumpTable::fill(&arms, 0, 5, 99);
    assert_eq!(table.size_metrics(), (5, 5, 48, 60));
}

#[test]
fn span_ignores_other_patterns_and_repeats() {
    let arms = vec![
        MatchArm { pattern: PatternValue::StringLiteral("a".to_string()), action_id: 1 },
        int_arm(7, 1),
        int_arm(-3, 2),
        int_arm(7, 3),
        MatchArm { pattern: PatternValue::Variant("V".to_string()), action_id: 4 },
    ];
    assert_eq!(JumpTable::literal_span(&arms), Some((-3, 7, 2)));
    let table = JumpTable::fill(&arms, -3, 11, 0);
    assert_eq!(table.lookup(7), 3);
    assert_eq!(table.lookup(-3), 2);
    assert_eq!(table.size_metrics().0, 2);
    let none = vec![MatchArm { pattern: PatternValue::Variant("V".to_string()), action_id: 4 }];
    assert_eq!(JumpTable::literal_span(&none), None);
}

#[test]
fn table_dispatches_like_the_arms() {
    // the last arm for a literal wins, as in the table
    let arms = vec![int_arm(10, 1), int_arm(12, 2), int_arm(10, 3)];
    let table = JumpTable::fill(&arms, 10, 3, 7);
    assert_eq!(table.lookup(10), 3);
    assert_eq!(table.lookup(11), 7);
    assert_eq!(table.lookup(12), 2);
    assert_eq!(table.lookup(13), 7);
    assert_eq!(table.lookup(i64::MIN / 2), 7);
}
