//! What running a plan reports, and how each tool's raw result maps onto
//! it. Running the tools themselves is I/O and happens outside this
//! library; here is the part that decides what the results mean.
use vstd::prelude::*;
use vstd::string::*;

use crate::text::{decimal, decimal_text, owned, signed_decimal, signed_decimal_text};

verus! {

/// How a launched process ended.
#[derive(Debug, Clone, Copy, PartialEq, Eq)]
pub struct ProcessOutcome {
    pub success: bool,
    pub code: Option<i32>,
    pub signal: Option<i32>,
}

/// The execution telemetry a concurrent branch reports.
#[derive(Debug, Clone, PartialEq, Eq)]
pub enum LifecycleEvent {
    Submitted,
    Routed { route: String },
    Queued { queue_depth: usize },
    Started { executor: String },
    Completed { duration_ms: u128 },
    Failed { error: String },
    Cancelled { reason: String },
}

pub enum LifecycleEventView {
    Submitted,
    Routed { route: Seq<char> },
    Queued { queue_depth: usize },
    Started { executor: Seq<char> },
    Completed { duration_ms: u128 },
    Failed { error: Seq<char> },
    Cancelled { reason: Seq<char> },
}

impl View for LifecycleEvent {
    type V = LifecycleEventView;

    open spec fn view(&self) -> LifecycleEventView {
        match self {
            LifecycleEvent::Submitted => LifecycleEventView::Submitted,
            LifecycleEvent::Routed { route } => LifecycleEventView::Routed { route: route@ },
            LifecycleEvent::Queued { queue_depth } => LifecycleEventView::Queued { queue_depth: *queue_depth },
            LifecycleEvent::Started { executor } => LifecycleEventView::Started { executor: executor@ },
            LifecycleEvent::Completed { duration_ms } => LifecycleEventView::Completed { duration_ms: *duration_ms },
            LifecycleEvent::Failed { error } => LifecycleEventView::Failed { error: error@ },
            LifecycleEvent::Cancelled { reason } => LifecycleEventView::Cancelled { reason: reason@ },
        }
    }
}

/// The one-line description of a lifecycle event.
pub open spec fn lifecycle_detail_spec(e: LifecycleEventView) -> Seq<char> {
    match e {
        LifecycleEventView::Submitted => "submitted"@,
        LifecycleEventView::Routed { route } => "routed to "@ + route,
        LifecycleEventView::Queued { queue_depth } => "queued (depth "@ + decimal(queue_depth as nat) + ")"@,
        LifecycleEventView::Started { executor } => "started on "@ + executor,
        LifecycleEventView::Completed { duration_ms } => "completed in "@ + decimal(duration_ms as nat) + "ms"@,
        LifecycleEventView::Failed { error } => "failed: "@ + error,
        LifecycleEventView::Cancelled { reason } => "cancelled: "@ + reason,
    }
}

impl LifecycleEvent {
    /// Whether no event follows this one for its branch.
    pub fn is_terminal(&self) -> (r: bool)
        ensures
            r == (self@ is Completed || self@ is Failed || self@ is Cancelled),
    {
        match self {
            LifecycleEvent::Completed { .. } | LifecycleEvent::Failed { .. }
            | LifecycleEvent::Cancelled { .. } => true,
            _ => false,
        }
    }

    /// The one-line description of this event.
    pub fn detail(&self) -> (r: String)
        ensures
            r@ == lifecycle_detail_spec(self@),
    {
        match self {
            LifecycleEvent::Submitted => owned("submitted"),
            LifecycleEvent::Routed { route } => {
                let mut s = String::from_str("routed to ");
                s.append(route.as_str());
                s
            },
            LifecycleEvent::Queued { queue_depth } => {
                let mut s = String::from_str("queued (depth ");
                let digits = decimal_text(*queue_depth as u128);
                s.append(digits.as_str());
                s.append(")");
                s
            },
            LifecycleEvent::Started { executor } => {
                let mut s = String::from_str("started on ");
                s.append(executor.as_str());
                s
            },
            LifecycleEvent::Completed { duration_ms } => {
                let mut s = String::from_str("completed in ");
                let digits = decimal_text(*duration_ms);
                s.append(digits.as_str());
                s.append("ms");
                s
            },
            LifecycleEvent::Failed { error } => {
                let mut s = String::from_str("failed: ");
                s.append(error.as_str());
                s
            },
            LifecycleEvent::Cancelled { reason } => {
                let mut s = String::from_str("cancelled: ");
                s.append(reason.as_str());
                s
            },
        }
    }
}

/// What running a plan actually did.
#[derive(Debug, Clone, PartialEq, Eq)]
pub enum ExecutionOutcome {
    BankEstablished { path: String },
    /// A directory or file was shown; `tool` names the viewer that ran.
    Viewed { path: String, tool: String },
    /// A process ran to completion; a nonzero exit is an outcome, not a
    /// failure to execute. `signal` is set when a signal ended it.
    RunCompleted { command_line: String, success: bool, code: Option<i32>, signal: Option<i32> },
    /// A source set was aggregated; `destination` is `None` for the
    /// clipboard.
    Bounded { source: String, destination: Option<String> },
    /// An agent answered; `populated` names where the answer was written.
    Told { model: String, response: String, populated: Option<String> },
    /// The plan could not be carried out at all.
    Failed { message: String },
}

pub enum ExecutionOutcomeView {
    BankEstablished { path: Seq<char> },
    Viewed { path: Seq<char>, tool: Seq<char> },
    RunCompleted { command_line: Seq<char>, success: bool, code: Option<i32>, signal: Option<i32> },
    Bounded { source: Seq<char>, destination: Option<Seq<char>> },
    Told { model: Seq<char>, response: Seq<char>, populated: Option<Seq<char>> },
    Failed { message: Seq<char> },
}

pub open spec fn opt_text(o: Option<String>) -> Option<Seq<char>> {
    match o {
        Some(s) => Some(s@),
        None => None,
    }
}

impl View for ExecutionOutcome {
    type V = ExecutionOutcomeView;

    open spec fn view(&self) -> ExecutionOutcomeView {
        match self {
            ExecutionOutcome::BankEstablished { path } => ExecutionOutcomeView::BankEstablished { path: path@ },
            ExecutionOutcome::Viewed { path, tool } => ExecutionOutcomeView::Viewed { path: path@, tool: tool@ },
            ExecutionOutcome::RunCompleted { command_line, success, code, signal } => ExecutionOutcomeView::RunCompleted {
                command_line: command_line@,
                success: *success,
                code: *code,
                signal: *signal,
            },
            ExecutionOutcome::Bounded { source, destination } => ExecutionOutcomeView::Bounded {
                source: source@,
                destination: opt_text(*destination),
            },
            ExecutionOutcome::Told { model, response, populated } => ExecutionOutcomeView::Told {
                model: model@,
                response: response@,
                populated: opt_text(*populated),
            },
            ExecutionOutcome::Failed { message } => ExecutionOutcomeView::Failed { message: message@ },
        }
    }
}

/// The outcome of `bank`: the established path, or the failure.
pub fn bank_outcome(result: Result<String, String>) -> (r: ExecutionOutcome)
    ensures
        r@ == match result {
            Ok(path) => ExecutionOutcomeView::BankEstablished { path: path@ },
            Err(message) => ExecutionOutcomeView::Failed { message: message@ },
        },
{
    match result {
        Ok(path) => ExecutionOutcome::BankEstablished { path },
        Err(message) => ExecutionOutcome::Failed { message },
    }
}

/// The outcome of a viewer run on `path`.
pub fn view_outcome(path: String, tool: &str, result: Result<(), String>) -> (r: ExecutionOutcome)
    ensures
        r@ == match result {
            Ok(_) => ExecutionOutcomeView::Viewed { path: path@, tool: tool@ },
            Err(message) => ExecutionOutcomeView::Failed { message: message@ },
        },
{
    match result {
        Ok(()) => ExecutionOutcome::Viewed { path, tool: owned(tool) },
        Err(message) => ExecutionOutcome::Failed { message },
    }
}

/// The outcome of running `command_line`: how it ended, or the failure to
/// launch it.
pub fn run_outcome(command_line: String, result: Result<ProcessOutcome, String>) -> (r: ExecutionOutcome)
    ensures
        r@ == match result {
            Ok(p) => ExecutionOutcomeView::RunCompleted {
                command_line: command_line@,
                success: p.success,
                code: p.code,
                signal: p.signal,
            },
            Err(message) => ExecutionOutcomeView::Failed { message: message@ },
        },
{
    match result {
        Ok(p) => ExecutionOutcome::RunCompleted {
            command_line,
            success: p.success,
            code: p.code,
            signal: p.signal,
        },
        Err(message) => ExecutionOutcome::Failed { message },
    }
}

/// The outcome of aggregating `source` to `destination`.
pub fn bound_outcome(source: String, destination: Option<String>, result: Result<(), String>) -> (r: ExecutionOutcome)
    ensures
        r@ == match result {
            Ok(_) => ExecutionOutcomeView::Bounded { source: source@, destination: opt_text(destination) },
            Err(message) => ExecutionOutcomeView::Failed { message: message@ },
        },
{
    match result {
        Ok(()) => ExecutionOutcome::Bounded { source, destination },
        Err(message) => ExecutionOutcome::Failed { message },
    }
}

/// The outcome of asking `model`.
pub fn told_outcome(model: String, populated: Option<String>, result: Result<String, String>) -> (r: ExecutionOutcome)
    ensures
        r@ == match result {
            Ok(response) => ExecutionOutcomeView::Told {
                model: model@,
                response: response@,
                populated: opt_text(populated),
            },
            Err(message) => ExecutionOutcomeView::Failed { message: message@ },
        },
{
    match result {
        Ok(response) => ExecutionOutcome::Told { model, response, populated },
        Err(message) => ExecutionOutcome::Failed { message },
    }
}

/// Whether an outcome counts as success for `WHEN ... SUCCEEDS`/`FAILS`:
/// a finished process by its own exit status, a failure never, anything
/// else always.
pub open spec fn succeeded_spec(o: ExecutionOutcomeView) -> bool {
    match o {
        ExecutionOutcomeView::RunCompleted { success, .. } => success,
        ExecutionOutcomeView::Failed { .. } => false,
        _ => true,
    }
}

pub fn outcome_succeeded(outcome: &ExecutionOutcome) -> (r: bool)
    ensures
        r == succeeded_spec(outcome@),
{
    match outcome {
        ExecutionOutcome::RunCompleted { success, .. } => *success,
        ExecutionOutcome::Failed { .. } => false,
        _ => true,
    }
}

/// How a finished process is described: its exit, or the signal that
/// ended it.
pub open spec fn exit_status_text(success: bool, code: Option<i32>, signal: Option<i32>) -> Seq<char> {
    if success {
        "exited 0"@
    } else {
        match code {
            Some(c) => "exited "@ + signed_decimal(c as int),
            None => match signal {
                Some(s) => "terminated by signal "@ + signed_decimal(s as int),
                None => "terminated by signal"@,
            },
        }
    }
}

/// The line an outcome is reported as, after `prefix`.
pub open spec fn outcome_line(prefix: Seq<char>, o: ExecutionOutcomeView) -> Seq<char> {
    match o {
        ExecutionOutcomeView::BankEstablished { path } => prefix + "bank: established "@ + path,
        ExecutionOutcomeView::Viewed { path, tool } => prefix + tool + ": displayed "@ + path,
        ExecutionOutcomeView::RunCompleted { command_line, success, code, signal } => prefix
            + "ran '"@ + command_line + "' \u{2014} "@ + exit_status_text(success, code, signal),
        ExecutionOutcomeView::Bounded { source, destination } => match destination {
            Some(d) => prefix + "bound: aggregated "@ + source + " to "@ + d,
            None => prefix + "bound: aggregated "@ + source + " to the clipboard"@,
        },
        ExecutionOutcomeView::Told { model, response, populated } => match populated {
            Some(p) => prefix + model + ": "@ + response + "\n"@ + prefix + "(also written to "@ + p
                + ")"@,
            None => prefix + model + ": "@ + response,
        },
        ExecutionOutcomeView::Failed { message } => prefix + "execution failed: "@ + message,
    }
}

/// The prefix an outcome line starts with: the branch it belongs to, if
/// any.
pub open spec fn outcome_prefix(branch: Option<Seq<char>>) -> Seq<char> {
    match branch {
        Some(d) => "  ["@ + d + "] "@,
        None => "  "@,
    }
}

fn exit_status_string(success: bool, code: Option<i32>, signal: Option<i32>) -> (r: String)
    ensures
        r@ == exit_status_text(success, code, signal),
{
    if success {
        owned("exited 0")
    } else {
        match code {
            Some(c) => {
                let mut s = String::from_str("exited ");
                let digits = signed_decimal_text(c);
                s.append(digits.as_str());
                s
            },
            None => match signal {
                Some(sig) => {
                    let mut s = String::from_str("terminated by signal ");
                    let digits = signed_decimal_text(sig);
                    s.append(digits.as_str());
                    s
                },
                None => owned("terminated by signal"),
            },
        }
    }
}

/// The text an outcome is reported as, for the branch described by
/// `branch` if it ran as one.
pub fn render_outcome(branch: Option<&str>, outcome: &ExecutionOutcome) -> (r: String)
    ensures
        r@ == outcome_line(
            outcome_prefix(
                match branch {
                    Some(d) => Some(d@),
                    None => None,
                },
            ),
            outcome@,
        ),
{
    let prefix = match branch {
        Some(d) => {
            let mut p = String::from_str("  [");
            p.append(d);
            p.append("] ");
            p
        },
        None => owned("  "),
    };
    let mut s = prefix.clone();
    match outcome {
        ExecutionOutcome::BankEstablished { path } => {
            s.append("bank: established ");
            s.append(path.as_str());
        },
        ExecutionOutcome::Viewed { path, tool } => {
            s.append(tool.as_str());
            s.append(": displayed ");
            s.append(path.as_str());
        },
        ExecutionOutcome::RunCompleted { command_line, success, code, signal } => {
            s.append("ran '");
            s.append(command_line.as_str());
            s.append("' \u{2014} ");
            let status = exit_status_string(*success, *code, *signal);
            s.append(status.as_str());
        },
        ExecutionOutcome::Bounded { source, destination } => {
            s.append("bound: aggregated ");
            s.append(source.as_str());
            match destination {
                Some(d) => {
                    s.append(" to ");
                    s.append(d.as_str());
                },
                None => {
                    s.append(" to the clipboard");
                },
            }
        },
        ExecutionOutcome::Told { model, response, populated } => {
            s.append(model.as_str());
            s.append(": ");
            s.append(response.as_str());
            match populated {
                Some(p) => {
                    s.append("\n");
                    s.append(prefix.as_str());
                    s.append("(also written to ");
                    s.append(p.as_str());
                    s.append(")");
                },
                None => {},
            }
        },
        ExecutionOutcome::Failed { message } => {
            s.append("execution failed: ");
            s.append(message.as_str());
        },
    }
    s
}

/// An outcome counts as failed exactly when it is `Failed` or a run whose
/// process did not succeed; every other finished outcome (a path
/// established, viewed or aggregated, an agent's answer, a successful run)
/// counts as success.
pub proof fn law_only_failures_and_unsuccessful_runs_fail(o: ExecutionOutcomeView)
    ensures
        !succeeded_spec(o) <==> (o is Failed || o matches ExecutionOutcomeView::RunCompleted { success: false, .. }),
        o is BankEstablished ==> succeeded_spec(o),
        o is Viewed ==> succeeded_spec(o),
        o is Bounded ==> succeeded_spec(o),
        o is Told ==> succeeded_spec(o),
{
}

} // verus!
