use xact::executor::{
    bank_outcome, bound_outcome, outcome_succeeded, render_outcome, run_outcome, told_outcome, view_outcome,
    ExecutionOutcome, LifecycleEvent, ProcessOutcome,
};

#[test]
fn raw_results_map_onto_outcomes() {
    assert_eq!(bank_outcome(Ok("/tmp/x".into())), ExecutionOutcome::BankEstablished { path: "/tmp/x".into() });
    assert_eq!(bank_outcome(Err("no".into())), ExecutionOutcome::Failed { message: "no".into() });
    assert_eq!(
        view_outcome("/tmp".into(), "gls", Ok(())),
        ExecutionOutcome::Viewed { path: "/tmp".into(), tool: "gls".into() }
    );
    assert_eq!(
        run_outcome("false".into(), Ok(ProcessOutcome { success: false, code: Some(1), signal: None })),
        ExecutionOutcome::RunCompleted { command_line: "false".into(), success: false, code: Some(1), signal: None }
    );
    assert_eq!(
        bound_outcome("/src".into(), None, Err("boom".into())),
        ExecutionOutcome::Failed { message: "boom".into() }
    );
    assert_eq!(
        told_outcome("m".into(), Some("/out".into()), Ok("hi".into())),
        ExecutionOutcome::Told { model: "m".into(), response: "hi".into(), populated: Some("/out".into()) }
    );
}

#[test]
fn success_follows_the_exit_status_and_failures_never_succeed() {
    assert!(outcome_succeeded(&ExecutionOutcome::BankEstablished { path: "x".into() }));
    assert!(!outcome_succeeded(&ExecutionOutcome::Failed { message: "x".into() }));
    assert!(!outcome_succeeded(&run_outcome(
        "false".into(),
        Ok(ProcessOutcome { success: false, code: Some(1), signal: None })
    )));
    assert!(outcome_succeeded(&run_outcome(
        "true".into(),
        Ok(ProcessOutcome { success: true, code: Some(0), signal: None })
    )));
}

#[test]
fn outcomes_render_as_one_line_per_fact() {
    let run = ExecutionOutcome::RunCompleted { command_line: "sleep 9".into(), success: false, code: None, signal: Some(15) };
    assert_eq!(render_outcome(None, &run), "  ran 'sleep 9' \u{2014} terminated by signal 15");
    let exit = ExecutionOutcome::RunCompleted { command_line: "false".into(), success: false, code: Some(1), signal: None };
    assert_eq!(render_outcome(Some("RUN 'false'"), &exit), "  [RUN 'false'] ran 'false' \u{2014} exited 1");
    let bound = ExecutionOutcome::Bounded { source: "/s".into(), destination: None };
    assert_eq!(render_outcome(None, &bound), "  bound: aggregated /s to the clipboard");
    let told = ExecutionOutcome::Told { model: "m".into(), response: "r".into(), populated: Some("/o".into()) };
    assert_eq!(render_outcome(None, &told), "  m: r\n  (also written to /o)");
}

#[test]
fn lifecycle_events_describe_themselves() {
    assert_eq!(LifecycleEvent::Queued { queue_depth: 3 }.detail(), "queued (depth 3)");
    assert_eq!(LifecycleEvent::Completed { duration_ms: 120 }.detail(), "completed in 120ms");
    assert!(LifecycleEvent::Cancelled { reason: "x".into() }.is_terminal());
    assert!(!LifecycleEvent::Submitted.is_terminal());
}
