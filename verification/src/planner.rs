//! Execution planning: a validated command becomes an execution plan.
//!
//! This is where operands are resolved into concrete values: `THIS`/`THAT`
//! against the reference context and `~` against the home directory.
//! Only `CREATE` has a plan so far, backed by the `bank` tool; every other
//! verb, and identity declarations, are reported as unsupported rather
//! than silently dropped.
use vstd::prelude::*;
use vstd::string::*;

use crate::ast::{verb_name, Command, CommandView, Operand, OperandView, Verb};
use crate::reference::{ReferenceContext, ResolvedObject, ResolvedObjectView};
use crate::text::{owned, str_chars, string_from_chars};

verus! {

/// What a command executes as.
#[derive(Debug, Clone, PartialEq, Eq)]
pub enum ExecutionPlan {
    /// `CREATE` runs the `bank` tool on a path.
    Bank { path: String },
}

pub enum ExecutionPlanView {
    Bank { path: Seq<char> },
}

impl View for ExecutionPlan {
    type V = ExecutionPlanView;

    open spec fn view(&self) -> ExecutionPlanView {
        match self {
            ExecutionPlan::Bank { path } => ExecutionPlanView::Bank { path: path@ },
        }
    }
}

#[derive(Debug, Clone, PartialEq, Eq)]
pub enum PlanOutcome {
    Plan(ExecutionPlan),
    /// Not implemented yet; the reason names what is missing.
    Unsupported(String),
}

pub enum PlanOutcomeView {
    Plan(ExecutionPlanView),
    Unsupported(Seq<char>),
}

impl View for PlanOutcome {
    type V = PlanOutcomeView;

    open spec fn view(&self) -> PlanOutcomeView {
        match self {
            PlanOutcome::Plan(p) => PlanOutcomeView::Plan(p@),
            PlanOutcome::Unsupported(r) => PlanOutcomeView::Unsupported(r@),
        }
    }
}

/// `base` joined with `rest` as a path: an absolute `rest` replaces
/// `base`; otherwise a separator goes between them unless `base` is empty
/// or already ends in one.
pub open spec fn path_join(base: Seq<char>, rest: Seq<char>) -> Seq<char> {
    if rest.len() > 0 && rest[0] == '/' {
        rest
    } else if base.len() == 0 || base.last() == '/' {
        base + rest
    } else {
        base + seq!['/'] + rest
    }
}

/// `~/rest` and `~` resolved against `home` when it is known; any other
/// path as it is.
pub open spec fn expand_tilde_spec(path: Seq<char>, home: Option<Seq<char>>) -> Seq<char> {
    if path.len() >= 2 && path[0] == '~' && path[1] == '/' {
        match home {
            Some(h) => path_join(h, path.skip(2)),
            None => path,
        }
    } else if path == seq!['~'] {
        match home {
            Some(h) => h,
            None => path,
        }
    } else {
        path
    }
}

/// The text an operand resolves to, if it resolves.
pub open spec fn resolve_path_spec(o: OperandView, references: Option<ResolvedObjectView>) -> Option<Seq<char>> {
    match o {
        OperandView::Owned { path, .. } => Some(path),
        OperandView::Reference { .. } => match references {
            Some(ResolvedObjectView::Path(p)) => Some(p),
            Some(ResolvedObjectView::Text(t)) => Some(t),
            None => None,
        },
        OperandView::StringArg { value, .. } => Some(value),
    }
}

/// The plan for a command.
pub open spec fn plan_spec(
    command: CommandView,
    references: Option<ResolvedObjectView>,
    home: Option<Seq<char>>,
) -> PlanOutcomeView {
    match command {
        CommandView::Identity(_) => PlanOutcomeView::Unsupported(
            "THEY declarations establish identity but have no execution plan."@,
        ),
        CommandView::Imperative(c) => if c.verb == Verb::Create {
            match c.operand {
                None => PlanOutcomeView::Unsupported("CREATE requires a target."@),
                Some(o) => match resolve_path_spec(o, references) {
                    Some(p) => PlanOutcomeView::Plan(
                        ExecutionPlanView::Bank { path: expand_tilde_spec(p, home) },
                    ),
                    None => PlanOutcomeView::Unsupported(
                        "CREATE's target did not resolve to a path."@,
                    ),
                },
            }
        } else {
            PlanOutcomeView::Unsupported(verb_name(c.verb) + " has no execution plan yet."@)
        },
    }
}

fn path_join_string(base: &str, rest: &Vec<char>, from: usize) -> (r: String)
    requires
        from <= rest@.len(),
    ensures
        r@ == path_join(base@, rest@.skip(from as int)),
{
    let tail = string_from_chars(rest, from, rest.len());
    proof {
        assert(tail@ =~= rest@.skip(from as int));
    }
    if from < rest.len() && rest[from] == '/' {
        return tail;
    }
    let b = str_chars(base);
    let mut r = String::from_str(base);
    if b.len() > 0 && b[b.len() - 1] != '/' {
        r.append("/");
        proof {
            reveal_strlit("/");
        }
    }
    r.append(tail.as_str());
    r
}

/// Resolves `~/...` and `~` against `home`.
pub fn expand_tilde(path: &str, home: Option<&str>) -> (r: String)
    ensures
        r@ == expand_tilde_spec(
            path@,
            match home {
                Some(h) => Some(h@),
                None => None,
            },
        ),
{
    let chars = str_chars(path);
    if chars.len() >= 2 && chars[0] == '~' && chars[1] == '/' {
        match home {
            Some(h) => path_join_string(h, &chars, 2),
            None => owned(path),
        }
    } else if chars.len() == 1 && chars[0] == '~' {
        assert(chars@ =~= seq!['~']);
        match home {
            Some(h) => owned(h),
            None => owned(path),
        }
    } else {
        assert(chars@ != seq!['~']);
        owned(path)
    }
}

fn resolve_path(operand: &Operand, references: &ReferenceContext) -> (r: Option<String>)
    ensures
        match r {
            Some(p) => resolve_path_spec(operand@, references@) == Some(p@),
            None => resolve_path_spec(operand@, references@) is None,
        },
{
    match operand {
        Operand::Owned { path, .. } => Some(path.clone()),
        Operand::Reference { kind, .. } => match references.resolve(*kind) {
            Some(ResolvedObject::Path(p)) => Some(p.clone()),
            Some(ResolvedObject::Text(t)) => Some(t.clone()),
            None => None,
        },
        Operand::StringArg { value, .. } => Some(value.clone()),
    }
}

/// Plans a command; `home` is the home directory `~` expands to, if known.
pub fn plan(command: &Command, references: &ReferenceContext, home: Option<&str>) -> (r: PlanOutcome)
    ensures
        r@ == plan_spec(
            command@,
            references@,
            match home {
                Some(h) => Some(h@),
                None => None,
            },
        ),
{
    let cmd = match command {
        Command::Imperative(cmd) => cmd,
        Command::Identity(_) => {
            return PlanOutcome::Unsupported(
                owned("THEY declarations establish identity but have no execution plan."),
            );
        },
    };
    match cmd.verb {
        Verb::Create => {
            let operand = match &cmd.operand {
                Some(o) => o,
                None => {
                    return PlanOutcome::Unsupported(owned("CREATE requires a target."));
                },
            };
            match resolve_path(operand, references) {
                Some(path) => PlanOutcome::Plan(
                    ExecutionPlan::Bank { path: expand_tilde(path.as_str(), home) },
                ),
                None => PlanOutcome::Unsupported(owned("CREATE's target did not resolve to a path.")),
            }
        },
        other => {
            let mut m = String::from_str(other.as_str());
            m.append(" has no execution plan yet.");
            PlanOutcome::Unsupported(m)
        },
    }
}

/// A `CREATE` plans the `bank` tool on the text its target resolves to,
/// with a leading `~` resolved against home, whatever the target's form or
/// ownership: an owned path or a quoted string by its own text, `THIS` or
/// `THAT` by the object most recently established.
pub proof fn law_create_banks_the_expanded_target(
    c: crate::ast::ImperativeCommandView,
    references: Option<ResolvedObjectView>,
    home: Option<Seq<char>>,
)
    requires
        c.verb == Verb::Create,
    ensures
        c.operand matches Some(OperandView::Owned { path, .. }) ==> plan_spec(CommandView::Imperative(c), references, home)
            == PlanOutcomeView::Plan(ExecutionPlanView::Bank { path: expand_tilde_spec(path, home) }),
        c.operand matches Some(OperandView::StringArg { value, .. }) ==> plan_spec(
            CommandView::Imperative(c),
            references,
            home,
        ) == PlanOutcomeView::Plan(ExecutionPlanView::Bank { path: expand_tilde_spec(value, home) }),
        c.operand matches Some(OperandView::Reference { .. }) ==> match references {
            Some(ResolvedObjectView::Path(p)) => plan_spec(CommandView::Imperative(c), references, home)
                == PlanOutcomeView::Plan(ExecutionPlanView::Bank { path: expand_tilde_spec(p, home) }),
            Some(ResolvedObjectView::Text(p)) => plan_spec(CommandView::Imperative(c), references, home)
                == PlanOutcomeView::Plan(ExecutionPlanView::Bank { path: expand_tilde_spec(p, home) }),
            None => plan_spec(CommandView::Imperative(c), references, home) is Unsupported,
        },
{
}

/// Who owns a `CREATE` target does not change its plan: the same path
/// plans alike under `MY`, `OUR` and `THEIR`.
pub proof fn law_create_plan_ignores_ownership(
    c: crate::ast::ImperativeCommandView,
    k1: crate::ast::OwnershipKind,
    k2: crate::ast::OwnershipKind,
    path: Seq<char>,
    s1: crate::ast::Span,
    s2: crate::ast::Span,
    references: Option<ResolvedObjectView>,
    home: Option<Seq<char>>,
)
    requires
        c.verb == Verb::Create,
    ensures
        plan_spec(
            CommandView::Imperative(
                crate::ast::ImperativeCommandView { operand: Some(OperandView::Owned { kind: k1, path, span: s1 }), ..c },
            ),
            references,
            home,
        ) == plan_spec(
            CommandView::Imperative(
                crate::ast::ImperativeCommandView { operand: Some(OperandView::Owned { kind: k2, path, span: s2 }), ..c },
            ),
            references,
            home,
        ),
{
}

/// Resolving `~` against a known home: `~/rest` becomes home joined with
/// `rest`, and `~` alone becomes home.
pub proof fn law_tilde_resolves_against_home(rest: Seq<char>, h: Seq<char>)
    ensures
        expand_tilde_spec(seq!['~', '/'] + rest, Some(h)) == path_join(h, rest),
        expand_tilde_spec(seq!['~'], Some(h)) == h,
{
    assert((seq!['~', '/'] + rest).skip(2) =~= rest);
}

} // verus!
