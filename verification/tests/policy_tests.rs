use xact::ast::{PolicyArgs, PolicyOperator, PolicyStatement, ResourceQuota, Span};
use xact::policy::{apply, PolicyContext};

fn capability(op: PolicyOperator, name: &str) -> PolicyStatement {
    PolicyStatement {
        operator: op,
        operator_span: Span::default(),
        args: PolicyArgs::Capability { name: name.to_string(), span: Span::default() },
    }
}

fn schedule(op: PolicyOperator) -> PolicyStatement {
    PolicyStatement { operator: op, operator_span: Span::default(), args: PolicyArgs::NoArgs }
}

fn quotas(op: PolicyOperator, entries: &[(u32, &str)]) -> PolicyStatement {
    PolicyStatement {
        operator: op,
        operator_span: Span::default(),
        args: PolicyArgs::Quotas(
            entries
                .iter()
                .map(|(percent, resource)| ResourceQuota {
                    percent: *percent,
                    resource: resource.to_string(),
                    span: Span::default(),
                })
                .collect(),
        ),
    }
}

#[test]
fn concurrently_then_consecutively_conflicts() {
    let mut ctx = PolicyContext::new();
    assert!(apply(schedule(PolicyOperator::Concurrently), &mut ctx).is_ok());
    assert!(apply(schedule(PolicyOperator::Consecutively), &mut ctx).is_err());
}

#[test]
fn restating_same_schedule_is_fine() {
    let mut ctx = PolicyContext::new();
    assert!(apply(schedule(PolicyOperator::Concurrently), &mut ctx).is_ok());
    assert!(apply(schedule(PolicyOperator::Concurrently), &mut ctx).is_ok());
}

#[test]
fn with_and_without_same_capability_conflicts() {
    let mut ctx = PolicyContext::new();
    assert!(apply(capability(PolicyOperator::With, "network"), &mut ctx).is_ok());
    assert!(apply(capability(PolicyOperator::Without, "network"), &mut ctx).is_err());
}

#[test]
fn prefer_cannot_override_existing_without() {
    let mut ctx = PolicyContext::new();
    assert!(apply(capability(PolicyOperator::Without, "gpu"), &mut ctx).is_ok());
    assert!(apply(capability(PolicyOperator::Prefer, "gpu"), &mut ctx).is_err());
}

#[test]
fn without_cannot_be_added_after_prefer_for_same_capability() {
    let mut ctx = PolicyContext::new();
    assert!(apply(capability(PolicyOperator::Prefer, "gpu"), &mut ctx).is_ok());
    assert!(apply(capability(PolicyOperator::Without, "gpu"), &mut ctx).is_err());
}

#[test]
fn prefer_and_dodge_same_capability_conflicts() {
    let mut ctx = PolicyContext::new();
    assert!(apply(capability(PolicyOperator::Prefer, "gpu"), &mut ctx).is_ok());
    assert!(apply(capability(PolicyOperator::Dodge, "gpu"), &mut ctx).is_err());
}

#[test]
fn independent_capabilities_do_not_conflict() {
    let mut ctx = PolicyContext::new();
    assert!(apply(capability(PolicyOperator::With, "network"), &mut ctx).is_ok());
    assert!(apply(capability(PolicyOperator::Without, "gpu"), &mut ctx).is_ok());
}

#[test]
fn spend_then_save_same_resource_conflicts() {
    let mut ctx = PolicyContext::new();
    assert!(apply(quotas(PolicyOperator::Spend, &[(10, "RAM")]), &mut ctx).is_ok());
    assert!(apply(quotas(PolicyOperator::Save, &[(10, "RAM")]), &mut ctx).is_err());
}

#[test]
fn filter_suggestions_drops_schedule_after_established() {
    let mut ctx = PolicyContext::new();
    apply(schedule(PolicyOperator::Concurrently), &mut ctx).unwrap();
    let filtered = ctx.filter_suggestions(vec!["CONCURRENTLY".into(), "CONSECUTIVELY".into(), "WITH".into()]);
    assert_eq!(filtered, vec!["WITH".to_string()]);
}

#[test]
fn spend_out_of_range_percent_rejected() {
    let mut ctx = PolicyContext::new();
    assert!(apply(quotas(PolicyOperator::Spend, &[(0, "CPU")]), &mut ctx).is_err());
    assert!(apply(quotas(PolicyOperator::Spend, &[(101, "CPU")]), &mut ctx).is_err());
    assert!(apply(quotas(PolicyOperator::Spend, &[(150, "CPU")]), &mut ctx).is_err());
}

#[test]
fn save_out_of_range_percent_rejected() {
    let mut ctx = PolicyContext::new();
    assert!(apply(quotas(PolicyOperator::Save, &[(0, "RAM")]), &mut ctx).is_err());
    assert!(apply(quotas(PolicyOperator::Save, &[(200, "RAM")]), &mut ctx).is_err());
}

#[test]
fn resource_budget_translates_spend_directly_and_save_as_the_complement() {
    let mut ctx = PolicyContext::new();
    apply(quotas(PolicyOperator::Spend, &[(40, "CPU")]), &mut ctx).unwrap();
    apply(quotas(PolicyOperator::Save, &[(10, "RAM")]), &mut ctx).unwrap();

    let budget = ctx.resource_budget();

    assert_eq!(budget.cpu_percent, Some(40));
    assert_eq!(budget.ram_percent, Some(90));
    assert!(budget.unenforceable.is_empty());
}

#[test]
fn resource_budget_reports_unrecognized_resources_instead_of_dropping_them() {
    let mut ctx = PolicyContext::new();
    apply(quotas(PolicyOperator::Spend, &[(50, "GPU")]), &mut ctx).unwrap();

    let budget = ctx.resource_budget();

    assert_eq!(budget.cpu_percent, None);
    assert_eq!(budget.unenforceable, vec!["GPU".to_string()]);
}

#[test]
fn resource_budget_is_empty_with_no_quotas_stated() {
    let ctx = PolicyContext::new();
    assert!(ctx.resource_budget().is_empty());
}

#[test]
fn rejected_statement_leaves_the_context_unchanged() {
    let mut ctx = PolicyContext::new();
    apply(quotas(PolicyOperator::Spend, &[(10, "RAM")]), &mut ctx).unwrap();
    assert!(apply(quotas(PolicyOperator::Save, &[(20, "CPU"), (10, "RAM")]), &mut ctx).is_err());
    assert_eq!(ctx.quotas().len(), 1);
    let budget = ctx.resource_budget();
    assert_eq!(budget.cpu_percent, None);
    assert_eq!(budget.ram_percent, Some(10));
}

#[test]
fn capability_keys_ignore_case() {
    let mut ctx = PolicyContext::new();
    assert!(apply(capability(PolicyOperator::With, "Network"), &mut ctx).is_ok());
    assert!(apply(capability(PolicyOperator::Dodge, "NETWORK"), &mut ctx).is_err());
}

#[test]
fn rejection_messages_name_both_operators() {
    let mut ctx = PolicyContext::new();
    apply(schedule(PolicyOperator::Concurrently), &mut ctx).unwrap();
    let err = apply(schedule(PolicyOperator::Consecutively), &mut ctx).unwrap_err();
    assert_eq!(err.message, "CONSECUTIVELY conflicts with CONCURRENTLY, already established for this block.");
    assert!(err.expected.is_empty());

    let err = apply(quotas(PolicyOperator::Spend, &[(150, "CPU")]), &mut ctx).unwrap_err();
    assert_eq!(err.message, "SPEND 150%CPU is not a valid percentage \u{2014} must be between 1 and 100.");

    apply(quotas(PolicyOperator::Spend, &[(10, "RAM")]), &mut ctx).unwrap();
    let err = apply(quotas(PolicyOperator::Save, &[(30, "RAM")]), &mut ctx).unwrap_err();
    assert_eq!(err.message, "SAVE 30% conflicts with SPEND already set for RAM.");
}

#[test]
fn later_statements_on_the_same_resource_win_and_other_resources_are_listed_once() {
    let mut ctx = PolicyContext::new();
    apply(quotas(PolicyOperator::Save, &[(10, "CPU"), (5, "GPU")]), &mut ctx).unwrap();
    apply(quotas(PolicyOperator::Save, &[(30, "CPU"), (5, "gpu")]), &mut ctx).unwrap();
    let budget = ctx.resource_budget();
    assert_eq!(budget.cpu_percent, Some(70));
    assert_eq!(budget.unenforceable, vec!["GPU".to_string()]);
}

#[test]
fn schedule_is_none_until_stated() {
    let mut ctx = PolicyContext::new();
    assert_eq!(ctx.schedule(), None);
    apply(schedule(PolicyOperator::Consecutively), &mut ctx).unwrap();
    assert_eq!(ctx.schedule(), Some(PolicyOperator::Consecutively));
    let kept = ctx.filter_suggestions(vec!["WITH".into()]);
    assert_eq!(kept, vec!["WITH".to_string()]);
}

#[test]
fn the_last_quota_on_a_resource_decides_its_cap() {
    let mut ctx = PolicyContext::new();
    apply(quotas(PolicyOperator::Spend, &[(40, "CPU"), (5, "gpu")]), &mut ctx).unwrap();
    apply(quotas(PolicyOperator::Spend, &[(70, "cpu"), (6, "GPU")]), &mut ctx).unwrap();
    let budget = ctx.resource_budget();
    assert_eq!(budget.cpu_percent, Some(70));
    assert_eq!(budget.ram_percent, None);
    assert_eq!(budget.unenforceable, vec!["GPU".to_string()]);
    assert!(PolicyContext::new().resource_budget().is_empty());
}

#[test]
fn a_conflict_anywhere_earlier_in_the_block_rejects_a_capability() {
    let mut ctx = PolicyContext::new();
    apply(capability(PolicyOperator::With, "Network"), &mut ctx).unwrap();
    apply(capability(PolicyOperator::Prefer, "disk"), &mut ctx).unwrap();
    apply(quotas(PolicyOperator::Spend, &[(40, "CPU")]), &mut ctx).unwrap();
    assert!(apply(capability(PolicyOperator::Without, "network"), &mut ctx).is_err());
    assert!(apply(capability(PolicyOperator::Without, "DISK"), &mut ctx).is_err());
    assert!(apply(capability(PolicyOperator::Dodge, "network"), &mut ctx).is_err());
    assert!(apply(capability(PolicyOperator::Without, "gpu"), &mut ctx).is_ok());
}

#[test]
fn a_resource_claimed_earlier_by_spend_cannot_be_saved() {
    let mut ctx = PolicyContext::new();
    apply(quotas(PolicyOperator::Spend, &[(40, "CPU")]), &mut ctx).unwrap();
    apply(quotas(PolicyOperator::Save, &[(10, "RAM")]), &mut ctx).unwrap();
    assert!(apply(quotas(PolicyOperator::Save, &[(20, "DISK"), (30, "CPU")]), &mut ctx).is_err());
    assert!(apply(quotas(PolicyOperator::Save, &[(20, "DISK")]), &mut ctx).is_ok());
    assert!(apply(quotas(PolicyOperator::Spend, &[(50, "CPU"), (5, "RAM")]), &mut ctx).is_err());
}
