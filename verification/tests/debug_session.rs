use aura_lang::debug::{
    ConditionOutcome, DebugBreakpoint, DebugCommand, DebugState, PerfTimelineEvent, StopDecision, StopReason,
    PROTOCOL_VERSION,
};

fn bp(line: u32, condition: Option<&str>) -> DebugBreakpoint {
    DebugBreakpoint { line, condition: condition.map(|c| c.to_string()) }
}

#[test]
fn protocol_version_is_one() {
    assert_eq!(PROTOCOL_VERSION, 1);
}

#[test]
fn disabled_session_never_stops() {
    let mut s = DebugState::new();
    assert_eq!(s.begin_stop_check(1), StopDecision::Run);
    assert!(!s.must_wait());
}

#[test]
fn pause_and_continue() {
    let mut s = DebugState::new();
    s.apply_command(DebugCommand::Pause);
    assert_eq!(s.begin_stop_check(3), StopDecision::Stop(StopReason::Pause));
    assert!(s.must_wait());
    s.apply_command(DebugCommand::Continue);
    assert!(!s.must_wait());
    assert_eq!(s.begin_stop_check(3), StopDecision::Run);
    assert_eq!(StopReason::Pause.name(), "pause");
}

#[test]
fn step_runs_one_statement() {
    let mut s = DebugState::new();
    s.apply_command(DebugCommand::Step);
    assert_eq!(s.begin_stop_check(1), StopDecision::Run);
    s.note_stmt_executed();
    assert_eq!(s.begin_stop_check(2), StopDecision::Stop(StopReason::Step));
    assert_eq!(StopReason::Step.name(), "step");
}

#[test]
fn breakpoints_with_and_without_conditions() {
    let mut s = DebugState::new();
    s.apply_command(DebugCommand::SetBreakpoints {
        breakpoints: vec![bp(2, Some("x > 1")), bp(2, Some("y")), bp(5, None)],
    });
    assert_eq!(s.begin_stop_check(1), StopDecision::Run);
    assert_eq!(s.begin_stop_check(5), StopDecision::Stop(StopReason::Breakpoint));
    assert!(s.must_wait());
    s.apply_command(DebugCommand::Continue);
    // the first condition does not hold, the second fails to evaluate
    assert_eq!(s.begin_stop_check(2), StopDecision::Evaluate(0));
    assert_eq!(s.resume_stop_check(2, 0, ConditionOutcome::Fails), StopDecision::Evaluate(1));
    assert!(!s.must_wait());
    assert_eq!(
        s.resume_stop_check(2, 1, ConditionOutcome::EvalError("unknown y".to_string())),
        StopDecision::Stop(StopReason::Breakpoint)
    );
    assert!(s.must_wait());
    assert_eq!(s.breakpoint_errors(), vec![(2, "unknown y".to_string())]);
    s.apply_command(DebugCommand::Continue);
    assert_eq!(s.begin_stop_check(2), StopDecision::Evaluate(0));
    assert_eq!(s.resume_stop_check(2, 0, ConditionOutcome::Unparsable), StopDecision::Stop(StopReason::Breakpoint));
    s.apply_command(DebugCommand::Continue);
    assert_eq!(s.begin_stop_check(2), StopDecision::Evaluate(0));
    assert_eq!(s.resume_stop_check(2, 0, ConditionOutcome::Holds), StopDecision::Stop(StopReason::Breakpoint));
}

#[test]
fn terminate_ends_waiting_and_is_taken_once() {
    let mut s = DebugState::new();
    s.apply_command(DebugCommand::Enable { start_paused: true, perf: false });
    assert!(s.must_wait());
    s.apply_command(DebugCommand::Terminate);
    assert!(!s.must_wait());
    s.finish_wait();
    assert!(s.take_terminate_requested());
    assert!(!s.take_terminate_requested());
    assert_eq!(s.begin_stop_check(1), StopDecision::Run);
}

#[test]
fn lines_and_columns() {
    let mut s = DebugState::new();
    assert_eq!(s.line_col(4), (1, 5, String::new()));
    s.set_source("main.aura".to_string(), "ab\ncd\n\nxyz");
    assert_eq!(s.line_col(0), (1, 1, "main.aura".to_string()));
    assert_eq!(s.line_col(1), (1, 2, "main.aura".to_string()));
    assert_eq!(s.line_col(3), (2, 1, "main.aura".to_string()));
    assert_eq!(s.line_col(6), (3, 1, "main.aura".to_string()));
    assert_eq!(s.line_col(9), (4, 3, "main.aura".to_string()));
    assert_eq!(s.line_col(100), (4, 94, "main.aura".to_string()));
    // a pseudo file does not replace a named one
    s.set_source("<repl>".to_string(), "x");
    assert_eq!(s.line_col(0), (1, 1, "main.aura".to_string()));
}

#[test]
fn timings_are_kept_only_when_enabled() {
    let ev = || PerfTimelineEvent { line: 1, col: 2, kind: "Stmt".to_string(), dur_ns: 30 };
    let mut s = DebugState::new();
    s.perf_push(ev());
    assert!(s.perf_take().is_empty());
    s.apply_command(DebugCommand::Enable { start_paused: false, perf: true });
    assert!(s.perf_enabled());
    s.perf_push(ev());
    s.perf_push(ev());
    assert_eq!(s.perf_take().len(), 2);
    assert!(s.perf_take().is_empty());
}
