//! Policy evaluation: accumulates the `!` statements established so far in
//! the current block and keeps them consistent.
//!
//! - a soft preference never overrides a hard constraint on the same
//!   capability, and no two contradictory constraints coexist;
//! - `CONCURRENTLY` and `CONSECUTIVELY` are singletons and exclude each
//!   other for a block;
//! - `SPEND`/`SAVE` percentages lie in `1..=100`, and a resource is never
//!   both spent and saved.
//!
//! These facts are the context's type invariant: every operation keeps it,
//! and a rejected statement leaves the context exactly as it was.
use vstd::prelude::*;
use vstd::string::*;

use crate::ast::{
    policy_name, quotas_view, strings_view, PolicyArgs, PolicyArgsView, PolicyOperator, PolicyStatement,
    PolicyStatementView, ResourceBudget, ResourceBudgetView, ResourceQuota, ResourceQuotaView, Span,
};
use crate::diagnostics::{diagnostic_view, Diagnostic, DiagnosticKind, DiagnosticView};
use crate::text::{chars_eq_str, decimal, decimal_string, lower, str_chars, to_lower, to_upper, upper};

verus! {

broadcast use vstd::seq_lib::group_seq_properties;

/// The policy statements accumulated for the current block.
#[derive(Debug)]
pub struct PolicyContext {
    schedule: Option<PolicyOperator>,
    hard_with: Vec<String>,
    hard_without: Vec<String>,
    soft_prefer: Vec<String>,
    soft_dodge: Vec<String>,
    quotas: Vec<(PolicyOperator, ResourceQuota)>,
    conditions: Vec<(PolicyOperator, String)>,
}

/// The mathematical content of a [`PolicyContext`]: capability keys as
/// sets, quotas and conditions in the order they were stated.
#[verifier::ext_equal]
pub struct PolicyContextView {
    pub schedule: Option<PolicyOperator>,
    pub hard_with: Set<Seq<char>>,
    pub hard_without: Set<Seq<char>>,
    pub soft_prefer: Set<Seq<char>>,
    pub soft_dodge: Set<Seq<char>>,
    pub quotas: Seq<(PolicyOperator, ResourceQuotaView)>,
    pub conditions: Seq<(PolicyOperator, Seq<char>)>,
}

pub open spec fn key_set(v: Seq<String>) -> Set<Seq<char>> {
    strings_view(v).to_set()
}

pub open spec fn quota_pairs_view(v: Seq<(PolicyOperator, ResourceQuota)>) -> Seq<
    (PolicyOperator, ResourceQuotaView),
> {
    v.map_values(|p: (PolicyOperator, ResourceQuota)| (p.0, p.1@))
}

pub open spec fn condition_pairs_view(v: Seq<(PolicyOperator, String)>) -> Seq<
    (PolicyOperator, Seq<char>),
> {
    v.map_values(|p: (PolicyOperator, String)| (p.0, p.1@))
}

impl View for PolicyContext {
    type V = PolicyContextView;

    closed spec fn view(&self) -> PolicyContextView {
        PolicyContextView {
            schedule: self.schedule,
            hard_with: key_set(self.hard_with@),
            hard_without: key_set(self.hard_without@),
            soft_prefer: key_set(self.soft_prefer@),
            soft_dodge: key_set(self.soft_dodge@),
            quotas: quota_pairs_view(self.quotas@),
            conditions: condition_pairs_view(self.conditions@),
        }
    }
}

/// The empty context of a fresh block.
pub open spec fn empty_policy() -> PolicyContextView {
    PolicyContextView {
        schedule: None,
        hard_with: Set::empty(),
        hard_without: Set::empty(),
        soft_prefer: Set::empty(),
        soft_dodge: Set::empty(),
        quotas: Seq::empty(),
        conditions: Seq::empty(),
    }
}

pub open spec fn is_quota_operator(op: PolicyOperator) -> bool {
    op == PolicyOperator::Spend || op == PolicyOperator::Save
}

pub open spec fn valid_percent(p: u32) -> bool {
    1 <= p <= 100
}

/// What every reachable context satisfies.
pub open spec fn policy_wf(c: PolicyContextView) -> bool {
    &&& (c.schedule matches Some(op) ==> op == PolicyOperator::Concurrently || op
        == PolicyOperator::Consecutively)
    &&& c.hard_with.disjoint(c.hard_without)
    &&& c.hard_with.disjoint(c.soft_dodge)
    &&& c.hard_without.disjoint(c.soft_prefer)
    &&& c.soft_prefer.disjoint(c.soft_dodge)
    &&& forall|i: int|
        0 <= i < c.quotas.len() ==> is_quota_operator(#[trigger] c.quotas[i].0) && valid_percent(
            c.quotas[i].1.percent,
        )
    &&& forall|i: int, j: int|
        0 <= i < c.quotas.len() && 0 <= j < c.quotas.len() && #[trigger] c.quotas[i].1.resource
            == #[trigger] c.quotas[j].1.resource ==> c.quotas[i].0 == c.quotas[j].0
    &&& forall|i: int| 0 <= i < c.conditions.len() ==> #[trigger] c.conditions[i].0 == PolicyOperator::When
}

/// The operator that already claimed `resource`, if any.
pub open spec fn quota_owner(q: Seq<(PolicyOperator, ResourceQuotaView)>, resource: Seq<char>) -> Option<
    PolicyOperator,
>
    decreases q.len(),
{
    if q.len() == 0 {
        None
    } else if q.last().1.resource == resource {
        Some(q.last().0)
    } else {
        quota_owner(q.drop_last(), resource)
    }
}

pub open spec fn rejection(message: Seq<char>, span: Span) -> DiagnosticView {
    diagnostic_view(DiagnosticKind::Invalid, message, span, Seq::empty())
}

/// The rejection of the first quota of a `SPEND`/`SAVE` statement that
/// cannot be accepted against the quotas already stated, if any.
pub open spec fn quota_error(
    existing: Seq<(PolicyOperator, ResourceQuotaView)>,
    op: PolicyOperator,
    qs: Seq<ResourceQuotaView>,
) -> Option<DiagnosticView>
    decreases qs.len(),
{
    if qs.len() == 0 {
        None
    } else {
        let q = qs[0];
        if !valid_percent(q.percent) {
            Some(
                rejection(
                    policy_name(op) + " "@ + decimal(q.percent as nat) + "%"@ + q.resource
                        + " is not a valid percentage \u{2014} must be between 1 and 100."@,
                    q.span,
                ),
            )
        } else {
            match quota_owner(existing, q.resource) {
                Some(owner) => if owner != op {
                    Some(
                        rejection(
                            policy_name(op) + " "@ + decimal(q.percent as nat) + "% conflicts with "@
                                + policy_name(owner) + " already set for "@ + q.resource + "."@,
                            q.span,
                        ),
                    )
                } else {
                    quota_error(existing, op, qs.drop_first())
                },
                None => quota_error(existing, op, qs.drop_first()),
            }
        }
    }
}

/// The quotas of one statement, each paired with its operator.
pub open spec fn tag_quotas(op: PolicyOperator, qs: Seq<ResourceQuotaView>) -> Seq<
    (PolicyOperator, ResourceQuotaView),
> {
    qs.map_values(|q: ResourceQuotaView| (op, q))
}

/// The key a capability is tracked under: its name, lower-cased.
pub open spec fn capability_key_of(args: PolicyArgsView) -> Seq<char> {
    match args {
        PolicyArgsView::Capability { name, .. } => lower(name),
        _ => Seq::empty(),
    }
}

/// Two constraints of the same strength on the same capability.
pub open spec fn same_capability_conflict(s: PolicyStatementView, other: PolicyOperator) -> DiagnosticView {
    rejection(
        policy_name(s.operator) + " contradicts "@ + policy_name(other)
            + ", already established for the same capability in this block."@,
        s.operator_span,
    )
}

/// A soft preference against an established opposite hard constraint.
pub open spec fn overridden_by_hard(s: PolicyStatementView, hard: PolicyOperator) -> DiagnosticView {
    rejection(
        policy_name(s.operator) + " cannot override the hard constraint "@ + policy_name(hard)
            + " already established for this capability."@,
        s.operator_span,
    )
}

/// A hard constraint against an established opposite soft preference.
pub open spec fn overrides_hard(s: PolicyStatementView, soft: PolicyOperator) -> DiagnosticView {
    rejection(
        policy_name(s.operator) + " contradicts the already-established "@ + policy_name(soft)
            + " for this capability."@,
        s.operator_span,
    )
}

/// The arguments the parser gives each operator.
pub open spec fn statement_fits(s: PolicyStatementView) -> bool {
    match s.operator {
        PolicyOperator::With | PolicyOperator::Without | PolicyOperator::Prefer
        | PolicyOperator::Dodge => s.args is Capability,
        PolicyOperator::Spend | PolicyOperator::Save => s.args is Quotas,
        PolicyOperator::When => s.args is Condition,
        _ => true,
    }
}

pub open spec fn with_schedule(c: PolicyContextView, op: PolicyOperator) -> PolicyContextView {
    PolicyContextView { schedule: Some(op), ..c }
}

/// What accepting `s` into `c` gives, or the diagnostic rejecting it.
pub open spec fn apply_spec(c: PolicyContextView, s: PolicyStatementView) -> Result<
    PolicyContextView,
    DiagnosticView,
> {
    let op = s.operator;
    let key = capability_key_of(s.args);
    match op {
        PolicyOperator::Concurrently | PolicyOperator::Consecutively => match c.schedule {
            Some(existing) => if existing != op {
                Err(
                    rejection(
                        policy_name(op) + " conflicts with "@ + policy_name(existing)
                            + ", already established for this block."@,
                        s.operator_span,
                    ),
                )
            } else {
                Ok(with_schedule(c, op))
            },
            None => Ok(with_schedule(c, op)),
        },
        PolicyOperator::With => if c.hard_without.contains(key) {
            Err(same_capability_conflict(s, PolicyOperator::Without))
        } else if c.soft_dodge.contains(key) {
            Err(overrides_hard(s, PolicyOperator::Dodge))
        } else {
            Ok(PolicyContextView { hard_with: c.hard_with.insert(key), ..c })
        },
        PolicyOperator::Without => if c.hard_with.contains(key) {
            Err(same_capability_conflict(s, PolicyOperator::With))
        } else if c.soft_prefer.contains(key) {
            Err(overrides_hard(s, PolicyOperator::Prefer))
        } else {
            Ok(PolicyContextView { hard_without: c.hard_without.insert(key), ..c })
        },
        PolicyOperator::Prefer => if c.hard_without.contains(key) {
            Err(overridden_by_hard(s, PolicyOperator::Without))
        } else if c.soft_dodge.contains(key) {
            Err(same_capability_conflict(s, PolicyOperator::Dodge))
        } else {
            Ok(PolicyContextView { soft_prefer: c.soft_prefer.insert(key), ..c })
        },
        PolicyOperator::Dodge => if c.hard_with.contains(key) {
            Err(overridden_by_hard(s, PolicyOperator::With))
        } else if c.soft_prefer.contains(key) {
            Err(same_capability_conflict(s, PolicyOperator::Prefer))
        } else {
            Ok(PolicyContextView { soft_dodge: c.soft_dodge.insert(key), ..c })
        },
        PolicyOperator::Spend | PolicyOperator::Save => match s.args {
            PolicyArgsView::Quotas(qs) => match quota_error(c.quotas, op, qs) {
                Some(d) => Err(d),
                None => Ok(
                    PolicyContextView {
                        quotas: c.quotas + tag_quotas(op, qs),
                        ..c
                    },
                ),
            },
            _ => Ok(c),
        },
        PolicyOperator::When => match s.args {
            PolicyArgsView::Condition { text, .. } => Ok(
                PolicyContextView { conditions: c.conditions.push((op, text)), ..c },
            ),
            _ => Ok(c),
        },
    }
}

// ---------------------------------------------------------------------------
// Resource budget and completion filtering
// ---------------------------------------------------------------------------
/// The cap a quota puts on the workload: `SPEND N%` caps it at `N`, `SAVE
/// N%` reserves `N` for the system and caps it at `100 - N`.
pub open spec fn cap_of(op: PolicyOperator, percent: u32) -> u32 {
    if op == PolicyOperator::Spend {
        percent
    } else {
        (100 - percent) as u32
    }
}

pub open spec fn empty_budget() -> ResourceBudgetView {
    ResourceBudgetView { cpu_percent: None, ram_percent: None, unenforceable: Seq::empty() }
}

/// The budget the quotas resolve to: the last statement on CPU or RAM
/// wins; every other resource is named once, in first-mention order.
pub open spec fn budget_of(q: Seq<(PolicyOperator, ResourceQuotaView)>) -> ResourceBudgetView
    decreases q.len(),
{
    if q.len() == 0 {
        empty_budget()
    } else {
        let b = budget_of(q.drop_last());
        let op = q.last().0;
        let quota = q.last().1;
        let cap = cap_of(op, quota.percent);
        let name = upper(quota.resource);
        if name == "CPU"@ {
            ResourceBudgetView { cpu_percent: Some(cap), ..b }
        } else if name == "RAM"@ {
            ResourceBudgetView { ram_percent: Some(cap), ..b }
        } else if b.unenforceable.contains(name) {
            b
        } else {
            ResourceBudgetView { unenforceable: b.unenforceable.push(name), ..b }
        }
    }
}

pub open spec fn is_schedule_keyword(s: Seq<char>) -> bool {
    s == policy_name(PolicyOperator::Concurrently) || s == policy_name(
        PolicyOperator::Consecutively,
    )
}

/// Keeps a suggestion unless it names a scheduling operator.
pub open spec fn not_schedule_keyword() -> spec_fn(Seq<char>) -> bool {
    |s: Seq<char>| !is_schedule_keyword(s)
}

// ---------------------------------------------------------------------------
// Lemmas
// ---------------------------------------------------------------------------
proof fn lemma_quota_owner(q: Seq<(PolicyOperator, ResourceQuotaView)>, r: Seq<char>)
    ensures
        quota_owner(q, r) is None ==> forall|i: int| 0 <= i < q.len() ==> #[trigger] q[i].1.resource != r,
        quota_owner(q, r) matches Some(o) ==> exists|i: int|
            0 <= i < q.len() && #[trigger] q[i].1.resource == r && q[i].0 == o,
    decreases q.len(),
{
    if q.len() > 0 {
        lemma_quota_owner(q.drop_last(), r);
        if q.last().1.resource != r {
            assert forall|i: int| 0 <= i < q.len() - 1 implies #[trigger] q[i] == q.drop_last()[i] by {}
            if let Some(o) = quota_owner(q, r) {
                let i = choose|i: int|
                    0 <= i < q.drop_last().len() && #[trigger] q.drop_last()[i].1.resource == r
                        && q.drop_last()[i].0 == o;
                assert(q[i] == q.drop_last()[i]);
            }
        } else {
            assert(q[q.len() - 1].1.resource == r);
        }
    }
}

proof fn lemma_quota_error_none(
    e: Seq<(PolicyOperator, ResourceQuotaView)>,
    op: PolicyOperator,
    qs: Seq<ResourceQuotaView>,
)
    requires
        quota_error(e, op, qs) is None,
    ensures
        forall|k: int|
            0 <= k < qs.len() ==> valid_percent(#[trigger] qs[k].percent) && (quota_owner(
                e,
                qs[k].resource,
            ) matches Some(o) ==> o == op),
    decreases qs.len(),
{
    if qs.len() > 0 {
        lemma_quota_error_none(e, op, qs.drop_first());
        assert forall|k: int| 0 < k < qs.len() implies #[trigger] qs[k] == qs.drop_first()[k - 1] by {}
    }
}

proof fn lemma_strings_push(v: Seq<String>, s: String)
    ensures
        strings_view(v.push(s)) == strings_view(v).push(s@),
{
    assert(strings_view(v.push(s)) =~= strings_view(v).push(s@));
}

// ---------------------------------------------------------------------------
// Executable helpers
// ---------------------------------------------------------------------------
fn has_key(v: &Vec<String>, k: &String) -> (r: bool)
    ensures
        r == key_set(v@).contains(k@),
{
    let mut i: usize = 0;
    while i < v.len()
        invariant
            0 <= i <= v@.len(),
            forall|j: int| 0 <= j < i ==> (#[trigger] v@[j])@ != k@,
        decreases v@.len() - i,
    {
        if v[i] == *k {
            assert(strings_view(v@)[i as int] == k@);
            return true;
        }
        i += 1;
    }
    assert forall|j: int| 0 <= j < strings_view(v@).len() implies #[trigger] strings_view(v@)[j] != k@ by {
        assert(strings_view(v@)[j] == v@[j]@);
    }
    false
}

fn add_key(v: &mut Vec<String>, k: String)
    ensures
        key_set(final(v)@) == key_set(old(v)@).insert(k@),
{
    if has_key(v, &k) {
        assert(key_set(v@) =~= key_set(v@).insert(k@));
    } else {
        proof {
            lemma_strings_push(v@, k);
            strings_view(v@).lemma_push_to_set_commute(k@);
        }
        v.push(k);
    }
}

fn owner_of(q: &Vec<(PolicyOperator, ResourceQuota)>, resource: &String) -> (r: Option<PolicyOperator>)
    ensures
        r == quota_owner(quota_pairs_view(q@), resource@),
{
    let ghost qv = quota_pairs_view(q@);
    let mut i = q.len();
    assert(qv.take(i as int) =~= qv);
    while i > 0
        invariant
            i <= q@.len(),
            qv == quota_pairs_view(q@),
            quota_owner(qv, resource@) == quota_owner(qv.take(i as int), resource@),
        decreases i,
    {
        let ghost t = qv.take(i as int);
        assert(t.last() == qv[i - 1]);
        assert(t.drop_last() =~= qv.take(i - 1));
        if q[i - 1].1.resource == *resource {
            return Some(q[i - 1].0);
        }
        i -= 1;
    }
    None
}

fn capability_key(args: &PolicyArgs) -> (r: String)
    requires
        args is Capability,
    ensures
        r@ == capability_key_of(args@),
{
    match args {
        PolicyArgs::Capability { name, .. } => to_lower(name.as_str()),
        _ => String::new(),
    }
}

fn rejection_out(message: String, span: Span) -> (d: Diagnostic)
    ensures
        d@ == rejection(message@, span),
{
    let d = Diagnostic::invalid(message, span, Vec::new());
    assert(strings_view(Seq::<String>::empty()) =~= Seq::<Seq<char>>::empty());
    d
}

// ---------------------------------------------------------------------------
// The context
// ---------------------------------------------------------------------------
impl PolicyContext {
    #[verifier::type_invariant]
    spec fn inv(&self) -> bool {
        policy_wf(self@)
    }

    /// A fresh, empty context.
    pub fn new() -> (r: Self)
        ensures
            r@ == empty_policy(),
    {
        let r = PolicyContext {
            schedule: None,
            hard_with: Vec::new(),
            hard_without: Vec::new(),
            soft_prefer: Vec::new(),
            soft_dodge: Vec::new(),
            quotas: Vec::new(),
            conditions: Vec::new(),
        };
        assert(r@ =~= empty_policy()) by {
            assert(key_set(Seq::<String>::empty()) =~= Set::<Seq<char>>::empty());
            assert(quota_pairs_view(Seq::empty()) =~= Seq::empty());
            assert(condition_pairs_view(Seq::empty()) =~= Seq::empty());
        }
        r
    }

    /// The scheduling operator established for this block, if any.
    pub fn schedule(&self) -> (r: Option<PolicyOperator>)
        ensures
            r == self@.schedule,
    {
        self.schedule
    }

    /// The `SPEND`/`SAVE` quotas stated so far, in order.
    pub fn quotas(&self) -> (r: &[(PolicyOperator, ResourceQuota)])
        ensures
            quota_pairs_view(r@) == self@.quotas,
    {
        self.quotas.as_slice()
    }

    /// Resolves the accumulated `SPEND`/`SAVE` statements into the caps to
    /// enforce. Every cap is a percentage.
    pub fn resource_budget(&self) -> (b: ResourceBudget)
        ensures
            b@ == budget_of(self@.quotas),
            b.cpu_percent matches Some(p) ==> p <= 100,
            b.ram_percent matches Some(p) ==> p <= 100,
    {
        proof {
            use_type_invariant(self);
        }
        let ghost qv = quota_pairs_view(self.quotas@);
        let mut budget = ResourceBudget::default();
        assert(budget@ =~= budget_of(qv.take(0))) by {
            assert(strings_view(budget.unenforceable@) =~= Seq::<Seq<char>>::empty());
        }
        let mut i: usize = 0;
        while i < self.quotas.len()
            invariant
                0 <= i <= self.quotas@.len(),
                qv == quota_pairs_view(self.quotas@),
                policy_wf(self@),
                budget@ == budget_of(qv.take(i as int)),
                budget.cpu_percent matches Some(p) ==> p <= 100,
                budget.ram_percent matches Some(p) ==> p <= 100,
            decreases self.quotas@.len() - i,
        {
            let op = self.quotas[i].0;
            let quota = &self.quotas[i].1;
            proof {
                assert(qv[i as int] == (op, quota@));
                assert(self@.quotas == qv);
                assert(is_quota_operator(qv[i as int].0) && valid_percent(qv[i as int].1.percent));
                assert(qv.take(i + 1).drop_last() =~= qv.take(i as int));
                assert(qv.take(i + 1).last() == qv[i as int]);
            }
            let cap = if op == PolicyOperator::Spend {
                quota.percent
            } else {
                100 - quota.percent
            };
            let name = to_upper(quota.resource.as_str());
            let chars = str_chars(name.as_str());
            if chars_eq_str(&chars, "CPU") {
                budget.cpu_percent = Some(cap);
            } else if chars_eq_str(&chars, "RAM") {
                budget.ram_percent = Some(cap);
            } else if !has_key(&budget.unenforceable, &name) {
                proof {
                    lemma_strings_push(budget.unenforceable@, name);
                }
                budget.unenforceable.push(name);
            }
            i += 1;
        }
        assert(qv.take(i as int) =~= qv);
        budget
    }

    /// Drops the scheduling operators from completion suggestions once one
    /// is established for the block; they are singletons.
    pub fn filter_suggestions(&self, suggestions: Vec<String>) -> (r: Vec<String>)
        ensures
            strings_view(r@) == if self@.schedule is None {
                strings_view(suggestions@)
            } else {
                strings_view(suggestions@).filter(not_schedule_keyword())
            },
    {
        if self.schedule.is_none() {
            return suggestions;
        }
        let ghost sv = strings_view(suggestions@);
        let mut r: Vec<String> = Vec::new();
        let mut i: usize = 0;
        assert(strings_view(r@) =~= sv.take(0).filter(not_schedule_keyword())) by {
            reveal(Seq::filter);
        }
        while i < suggestions.len()
            invariant
                0 <= i <= suggestions@.len(),
                sv == strings_view(suggestions@),
                strings_view(r@) == sv.take(i as int).filter(not_schedule_keyword()),
            decreases suggestions@.len() - i,
        {
            let s = &suggestions[i];
            let chars = str_chars(s.as_str());
            let schedule_word = chars_eq_str(&chars, PolicyOperator::Concurrently.as_str())
                || chars_eq_str(&chars, PolicyOperator::Consecutively.as_str());
            proof {
                assert(sv.take(i + 1) =~= sv.take(i as int).push(sv[i as int]));
                sv.take(i as int).lemma_filter_push(sv[i as int], not_schedule_keyword());
                assert(sv[i as int] == s@);
            }
            if !schedule_word {
                let kept = s.clone();
                proof {
                    lemma_strings_push(r@, kept);
                }
                r.push(kept);
            }
            i += 1;
        }
        assert(sv.take(i as int) =~= sv);
        r
    }
}

impl Default for PolicyContext {
    fn default() -> (r: Self)
        ensures
            r@ == empty_policy(),
    {
        PolicyContext::new()
    }
}

// ---------------------------------------------------------------------------
// Accepting a statement
// ---------------------------------------------------------------------------
fn conflict_message(op: PolicyOperator, middle: &str, other: PolicyOperator, tail: &str) -> (r: String)
    ensures
        r@ == policy_name(op) + middle@ + policy_name(other) + tail@,
{
    let mut m = String::from_str(op.as_str());
    m.append(middle);
    m.append(other.as_str());
    m.append(tail);
    m
}

/// Accepts `stmt` into `context`, or rejects it and leaves the context
/// exactly as it was. Either way the context stays consistent.
pub fn apply(stmt: PolicyStatement, context: &mut PolicyContext) -> (r: Result<PolicyStatement, Diagnostic>)
    requires
        statement_fits(stmt@),
    ensures
        match r {
            Ok(s) => s@ == stmt@ && apply_spec(old(context)@, stmt@) == Ok::<
                PolicyContextView,
                DiagnosticView,
            >(final(context)@),
            Err(d) => apply_spec(old(context)@, stmt@) == Err::<PolicyContextView, DiagnosticView>(
                d@,
            ) && final(context)@ == old(context)@,
        },
        policy_wf(old(context)@),
        policy_wf(final(context)@),
{
    proof {
        use_type_invariant(&*context);
    }
    let r = apply_checked(stmt, context);
    proof {
        use_type_invariant(&*context);
    }
    r
}

fn apply_checked(stmt: PolicyStatement, context: &mut PolicyContext) -> (r: Result<PolicyStatement, Diagnostic>)
    requires
        statement_fits(stmt@),
    ensures
        match r {
            Ok(s) => s@ == stmt@ && apply_spec(old(context)@, stmt@) == Ok::<
                PolicyContextView,
                DiagnosticView,
            >(final(context)@),
            Err(d) => apply_spec(old(context)@, stmt@) == Err::<PolicyContextView, DiagnosticView>(
                d@,
            ) && final(context)@ == old(context)@,
        },
{
    proof {
        use_type_invariant(&*context);
    }
    let op = stmt.operator;
    let span = stmt.operator_span;
    match op {
        PolicyOperator::Concurrently | PolicyOperator::Consecutively => {
            if let Some(existing) = context.schedule {
                if existing != op {
                    let m = conflict_message(
                        op,
                        " conflicts with ",
                        existing,
                        ", already established for this block.",
                    );
                    return Err(rejection_out(m, span));
                }
            }
            context.schedule = Some(op);
            assert(context@ =~= with_schedule(old(context)@, op));
            Ok(stmt)
        },
        PolicyOperator::With => {
            let key = capability_key(&stmt.args);
            if has_key(&context.hard_without, &key) {
                let m = conflict_message(
                    op,
                    " contradicts ",
                    PolicyOperator::Without,
                    ", already established for the same capability in this block.",
                );
                return Err(rejection_out(m, span));
            }
            if has_key(&context.soft_dodge, &key) {
                let m = conflict_message(
                    op,
                    " contradicts the already-established ",
                    PolicyOperator::Dodge,
                    " for this capability.",
                );
                return Err(rejection_out(m, span));
            }
            insert_hard_with(context, key);
            assert(context@ =~= apply_spec(old(context)@, stmt@).get_Ok_0());
            Ok(stmt)
        },
        PolicyOperator::Without => {
            let key = capability_key(&stmt.args);
            if has_key(&context.hard_with, &key) {
                let m = conflict_message(
                    op,
                    " contradicts ",
                    PolicyOperator::With,
                    ", already established for the same capability in this block.",
                );
                return Err(rejection_out(m, span));
            }
            if has_key(&context.soft_prefer, &key) {
                let m = conflict_message(
                    op,
                    " contradicts the already-established ",
                    PolicyOperator::Prefer,
                    " for this capability.",
                );
                return Err(rejection_out(m, span));
            }
            insert_hard_without(context, key);
            assert(context@ =~= apply_spec(old(context)@, stmt@).get_Ok_0());
            Ok(stmt)
        },
        PolicyOperator::Prefer => {
            let key = capability_key(&stmt.args);
            if has_key(&context.hard_without, &key) {
                let m = conflict_message(
                    op,
                    " cannot override the hard constraint ",
                    PolicyOperator::Without,
                    " already established for this capability.",
                );
                return Err(rejection_out(m, span));
            }
            if has_key(&context.soft_dodge, &key) {
                let m = conflict_message(
                    op,
                    " contradicts ",
                    PolicyOperator::Dodge,
                    ", already established for the same capability in this block.",
                );
                return Err(rejection_out(m, span));
            }
            insert_soft_prefer(context, key);
            assert(context@ =~= apply_spec(old(context)@, stmt@).get_Ok_0());
            Ok(stmt)
        },
        PolicyOperator::Dodge => {
            let key = capability_key(&stmt.args);
            if has_key(&context.hard_with, &key) {
                let m = conflict_message(
                    op,
                    " cannot override the hard constraint ",
                    PolicyOperator::With,
                    " already established for this capability.",
                );
                return Err(rejection_out(m, span));
            }
            if has_key(&context.soft_prefer, &key) {
                let m = conflict_message(
                    op,
                    " contradicts ",
                    PolicyOperator::Prefer,
                    ", already established for the same capability in this block.",
                );
                return Err(rejection_out(m, span));
            }
            insert_soft_dodge(context, key);
            assert(context@ =~= apply_spec(old(context)@, stmt@).get_Ok_0());
            Ok(stmt)
        },
        PolicyOperator::Spend | PolicyOperator::Save => {
            match &stmt.args {
                PolicyArgs::Quotas(quotas) => {
                    match accept_quotas(op, quotas, context) {
                        Ok(()) => {
                            assert(context@ =~= apply_spec(old(context)@, stmt@).get_Ok_0());
                        },
                        Err(d) => {
                            return Err(d);
                        },
                    }
                },
                _ => {},
            }
            Ok(stmt)
        },
        PolicyOperator::When => {
            match &stmt.args {
                PolicyArgs::Condition { text, .. } => {
                    let ghost before = context.conditions@;
                    let mut conditions: Vec<(PolicyOperator, String)> = Vec::new();
                    assert(condition_pairs_view(conditions@) =~= Seq::empty());
                    std::mem::swap(&mut conditions, &mut context.conditions);
                    conditions.push((op, text.clone()));
                    assert(condition_pairs_view(conditions@) =~= condition_pairs_view(before).push(
                        (op, text@),
                    ));
                    context.conditions = conditions;
                    assert(context@ =~= apply_spec(old(context)@, stmt@).get_Ok_0());
                },
                _ => {},
            }
            Ok(stmt)
        },
    }
}

proof fn lemma_extend_wf(c: PolicyContextView, op: PolicyOperator, qs: Seq<ResourceQuotaView>, j: int)
    requires
        policy_wf(c),
        is_quota_operator(op),
        0 <= j <= qs.len(),
        forall|k: int|
            0 <= k < qs.len() ==> valid_percent(#[trigger] qs[k].percent) && (quota_owner(
                c.quotas,
                qs[k].resource,
            ) matches Some(o) ==> o == op),
    ensures
        policy_wf(PolicyContextView { quotas: c.quotas + tag_quotas(op, qs.take(j)), ..c }),
{
    let e = c.quotas;
    let n = e + tag_quotas(op, qs.take(j));
    assert forall|i: int| 0 <= i < n.len() implies is_quota_operator(#[trigger] n[i].0)
        && valid_percent(n[i].1.percent) by {
        if i >= e.len() {
            assert(n[i] == (op, qs[i - e.len()]));
            assert(valid_percent(qs[i - e.len()].percent));
        } else {
            assert(n[i] == e[i]);
            assert(is_quota_operator(c.quotas[i].0) && valid_percent(c.quotas[i].1.percent));
        }
    }
    assert forall|a: int, b: int|
        0 <= a < n.len() && 0 <= b < n.len() && #[trigger] n[a].1.resource
            == #[trigger] n[b].1.resource implies n[a].0 == n[b].0 by {
        let r = n[a].1.resource;
        lemma_quota_owner(e, r);
        if a < e.len() && b >= e.len() {
            assert(n[a] == e[a]);
            assert(n[b] == (op, qs[b - e.len()]));
            assert(qs[b - e.len()].resource == r);
            assert(quota_owner(e, r) is Some);
            let o = quota_owner(e, r)->0;
            let w = choose|w: int| 0 <= w < e.len() && #[trigger] e[w].1.resource == r && e[w].0 == o;
            assert(e[w].1.resource == e[a].1.resource);
        } else if b < e.len() && a >= e.len() {
            assert(n[b] == e[b]);
            assert(n[a] == (op, qs[a - e.len()]));
            assert(qs[a - e.len()].resource == r);
            assert(quota_owner(e, r) is Some);
            let o = quota_owner(e, r)->0;
            let w = choose|w: int| 0 <= w < e.len() && #[trigger] e[w].1.resource == r && e[w].0 == o;
            assert(e[w].1.resource == e[b].1.resource);
        } else if a < e.len() && b < e.len() {
            assert(n[a] == e[a]);
            assert(n[b] == e[b]);
        } else {
            assert(n[a] == (op, qs[a - e.len()]));
            assert(n[b] == (op, qs[b - e.len()]));
        }
    }
}

/// Accepts the quotas of one `SPEND`/`SAVE` statement, or rejects the
/// first that cannot be accepted and changes nothing.
fn accept_quotas(op: PolicyOperator, quotas: &Vec<ResourceQuota>, context: &mut PolicyContext) -> (r: Result<(), Diagnostic>)
    requires
        is_quota_operator(op),
    ensures
        match r {
            Ok(_) => quota_error(old(context)@.quotas, op, quotas_view(quotas@)) is None
                && final(context)@ == (PolicyContextView {
                quotas: old(context)@.quotas + tag_quotas(op, quotas_view(quotas@)),
                ..old(context)@
            }),
            Err(d) => quota_error(old(context)@.quotas, op, quotas_view(quotas@)) == Some(d@)
                && final(context)@ == old(context)@,
        },
{
    proof {
        use_type_invariant(&*context);
    }
    let ghost qs = quotas_view(quotas@);
    let ghost c0 = context@;
    let ghost e = c0.quotas;
    let mut i: usize = 0;
    assert(qs.skip(0) =~= qs);
    while i < quotas.len()
        invariant
            0 <= i <= quotas@.len(),
            qs == quotas_view(quotas@),
            e == c0.quotas,
            context@ == c0,
            quota_error(e, op, qs) == quota_error(e, op, qs.skip(i as int)),
        decreases quotas@.len() - i,
    {
        let q = &quotas[i];
        proof {
            assert(qs.skip(i as int)[0] == q@);
            assert(qs.skip(i as int).drop_first() =~= qs.skip(i + 1));
        }
        if !(1 <= q.percent && q.percent <= 100) {
            let mut m = String::from_str(op.as_str());
            m.append(" ");
            let digits = decimal_string(q.percent);
            m.append(digits.as_str());
            m.append("%");
            m.append(q.resource.as_str());
            m.append(" is not a valid percentage \u{2014} must be between 1 and 100.");
            return Err(rejection_out(m, q.span));
        }
        match owner_of(&context.quotas, &q.resource) {
            Some(owner) => {
                if owner != op {
                    let mut m = String::from_str(op.as_str());
                    m.append(" ");
                    let digits = decimal_string(q.percent);
                    m.append(digits.as_str());
                    m.append("% conflicts with ");
                    m.append(owner.as_str());
                    m.append(" already set for ");
                    m.append(q.resource.as_str());
                    m.append(".");
                    return Err(rejection_out(m, q.span));
                }
            },
            None => {},
        }
        i += 1;
    }
    proof {
        assert(qs.skip(i as int).len() == 0);
        lemma_quota_error_none(e, op, qs);
    }
    let mut j: usize = 0;
    let mut added: Vec<(PolicyOperator, ResourceQuota)> = Vec::new();
    assert(quota_pairs_view(added@) =~= Seq::empty());
    std::mem::swap(&mut added, &mut context.quotas);
    assert(quota_pairs_view(added@) =~= e + tag_quotas(op, qs.take(0)));
    while j < quotas.len()
        invariant
            0 <= j <= quotas@.len(),
            qs == quotas_view(quotas@),
            e == c0.quotas,
            policy_wf(c0),
            is_quota_operator(op),
            quota_error(e, op, qs) is None,
            forall|k: int|
                0 <= k < qs.len() ==> valid_percent(#[trigger] qs[k].percent) && (quota_owner(
                    e,
                    qs[k].resource,
                ) matches Some(o) ==> o == op),
            quota_pairs_view(added@) == e + tag_quotas(op, qs.take(j as int)),
        decreases quotas@.len() - j,
    {
        let entry = (op, quotas[j].duplicate());
        proof {
            assert(entry.1@ == qs[j as int]);
            assert(quota_pairs_view(added@.push(entry)) =~= quota_pairs_view(added@).push(
                (op, qs[j as int]),
            ));
            assert(qs.take(j + 1) =~= qs.take(j as int).push(qs[j as int]));
            assert(tag_quotas(op, qs.take(j + 1)) =~= tag_quotas(op, qs.take(j as int)).push(
                (op, qs[j as int]),
            ));
            assert(quota_pairs_view(added@.push(entry)) =~= e + tag_quotas(op, qs.take(j + 1)));
        }
        added.push(entry);
        j += 1;
    }
    assert(qs.take(j as int) =~= qs);
    proof {
        lemma_extend_wf(c0, op, qs, qs.len() as int);
    }
    context.quotas = added;
    assert(context@ =~= PolicyContextView { quotas: e + tag_quotas(op, qs), ..c0 });
    Ok(())
}

fn insert_hard_with(context: &mut PolicyContext, key: String)
    requires
        !old(context)@.hard_without.contains(key@),
        !old(context)@.soft_dodge.contains(key@),
    ensures
        final(context)@ == (PolicyContextView { hard_with: old(context)@.hard_with.insert(key@), ..old(context)@ }),
{
    proof {
        use_type_invariant(&*context);
    }
    let mut keys: Vec<String> = Vec::new();
    assert(key_set(keys@) =~= Set::empty());
    std::mem::swap(&mut keys, &mut context.hard_with);
    add_key(&mut keys, key);
    context.hard_with = keys;
    assert(context@ =~= PolicyContextView { hard_with: old(context)@.hard_with.insert(key@), ..old(context)@ });
}

fn insert_hard_without(context: &mut PolicyContext, key: String)
    requires
        !old(context)@.hard_with.contains(key@),
        !old(context)@.soft_prefer.contains(key@),
    ensures
        final(context)@ == (PolicyContextView { hard_without: old(context)@.hard_without.insert(key@), ..old(context)@ }),
{
    proof {
        use_type_invariant(&*context);
    }
    let mut keys: Vec<String> = Vec::new();
    assert(key_set(keys@) =~= Set::empty());
    std::mem::swap(&mut keys, &mut context.hard_without);
    add_key(&mut keys, key);
    context.hard_without = keys;
    assert(context@ =~= PolicyContextView { hard_without: old(context)@.hard_without.insert(key@), ..old(context)@ });
}

fn insert_soft_prefer(context: &mut PolicyContext, key: String)
    requires
        !old(context)@.hard_without.contains(key@),
        !old(context)@.soft_dodge.contains(key@),
    ensures
        final(context)@ == (PolicyContextView { soft_prefer: old(context)@.soft_prefer.insert(key@), ..old(context)@ }),
{
    proof {
        use_type_invariant(&*context);
    }
    let mut keys: Vec<String> = Vec::new();
    assert(key_set(keys@) =~= Set::empty());
    std::mem::swap(&mut keys, &mut context.soft_prefer);
    add_key(&mut keys, key);
    context.soft_prefer = keys;
    assert(context@ =~= PolicyContextView { soft_prefer: old(context)@.soft_prefer.insert(key@), ..old(context)@ });
}

fn insert_soft_dodge(context: &mut PolicyContext, key: String)
    requires
        !old(context)@.hard_with.contains(key@),
        !old(context)@.soft_prefer.contains(key@),
    ensures
        final(context)@ == (PolicyContextView { soft_dodge: old(context)@.soft_dodge.insert(key@), ..old(context)@ }),
{
    proof {
        use_type_invariant(&*context);
    }
    let mut keys: Vec<String> = Vec::new();
    assert(key_set(keys@) =~= Set::empty());
    std::mem::swap(&mut keys, &mut context.soft_dodge);
    add_key(&mut keys, key);
    context.soft_dodge = keys;
    assert(context@ =~= PolicyContextView { soft_dodge: old(context)@.soft_dodge.insert(key@), ..old(context)@ });
}

// ---------------------------------------------------------------------------
// Laws
// ---------------------------------------------------------------------------
pub open spec fn capability_statement(op: PolicyOperator, name: Seq<char>, span: Span) -> PolicyStatementView {
    PolicyStatementView {
        operator: op,
        operator_span: span,
        args: PolicyArgsView::Capability { name, span },
    }
}

/// `CONCURRENTLY` and `CONSECUTIVELY` exclude each other for a block:
/// once one is accepted, the other is rejected, while restating the same
/// one is accepted.
pub proof fn law_schedule_exclusive(c: PolicyContextView, s1: PolicyStatementView, s2: PolicyStatementView)
    requires
        s1.operator == PolicyOperator::Concurrently || s1.operator == PolicyOperator::Consecutively,
        s2.operator == PolicyOperator::Concurrently || s2.operator == PolicyOperator::Consecutively,
        apply_spec(c, s1) is Ok,
    ensures
        s2.operator != s1.operator ==> apply_spec(apply_spec(c, s1)->Ok_0, s2) is Err,
        s2.operator == s1.operator ==> apply_spec(apply_spec(c, s1)->Ok_0, s2) is Ok,
{
}

/// Once a capability is required (`WITH`), forbidding it (`WITHOUT`) or
/// preferring to avoid it (`DODGE`) is rejected; once it is forbidden,
/// requiring it or preferring it (`PREFER`) is rejected. No soft preference
/// overrides a hard constraint, in either order.
pub proof fn law_capability_constraints_exclusive(
    c: PolicyContextView,
    name: Seq<char>,
    other: Seq<char>,
    span: Span,
)
    requires
        lower(other) == lower(name),
    ensures
        apply_spec(c, capability_statement(PolicyOperator::With, name, span)) matches Ok(c1) ==> {
            &&& apply_spec(c1, capability_statement(PolicyOperator::Without, other, span)) is Err
            &&& apply_spec(c1, capability_statement(PolicyOperator::Dodge, other, span)) is Err
        },
        apply_spec(c, capability_statement(PolicyOperator::Without, name, span)) matches Ok(c1) ==> {
            &&& apply_spec(c1, capability_statement(PolicyOperator::With, other, span)) is Err
            &&& apply_spec(c1, capability_statement(PolicyOperator::Prefer, other, span)) is Err
        },
        apply_spec(c, capability_statement(PolicyOperator::Prefer, name, span)) matches Ok(c1) ==> {
            &&& apply_spec(c1, capability_statement(PolicyOperator::Without, other, span)) is Err
            &&& apply_spec(c1, capability_statement(PolicyOperator::Dodge, other, span)) is Err
        },
        apply_spec(c, capability_statement(PolicyOperator::Dodge, name, span)) matches Ok(c1) ==> {
            &&& apply_spec(c1, capability_statement(PolicyOperator::With, other, span)) is Err
            &&& apply_spec(c1, capability_statement(PolicyOperator::Prefer, other, span)) is Err
        },
{
}

proof fn lemma_owner_after_tagged(
    e: Seq<(PolicyOperator, ResourceQuotaView)>,
    op: PolicyOperator,
    qs: Seq<ResourceQuotaView>,
    k: int,
)
    requires
        0 <= k < qs.len(),
    ensures
        quota_owner(e + tag_quotas(op, qs), qs[k].resource) == Some(op),
    decreases qs.len(),
{
    let r = qs[k].resource;
    let all = e + tag_quotas(op, qs);
    assert(all.last() == (op, qs.last()));
    if qs.last().resource != r {
        assert(all.drop_last() =~= e + tag_quotas(op, qs.drop_last()));
        assert(qs.drop_last()[k] == qs[k]);
        lemma_owner_after_tagged(e, op, qs.drop_last(), k);
    }
}

/// A resource cannot be both spent and saved in one block: once a `SPEND`
/// on a resource is accepted, a `SAVE` on the same resource is rejected,
/// and the other way round.
pub proof fn law_spend_save_exclusive(
    c: PolicyContextView,
    s1: PolicyStatementView,
    s2: PolicyStatementView,
    k: int,
)
    requires
        is_quota_operator(s1.operator),
        is_quota_operator(s2.operator),
        s1.operator != s2.operator,
        s1.args is Quotas,
        s2.args is Quotas,
        0 <= k < s1.args->Quotas_0.len(),
        s2.args->Quotas_0.len() > 0,
        s2.args->Quotas_0[0].resource == s1.args->Quotas_0[k].resource,
        apply_spec(c, s1) is Ok,
    ensures
        apply_spec(apply_spec(c, s1)->Ok_0, s2) is Err,
{
    let qs = s1.args->Quotas_0;
    let c1 = apply_spec(c, s1)->Ok_0;
    assert(c1.quotas == c.quotas + tag_quotas(s1.operator, qs));
    lemma_owner_after_tagged(c.quotas, s1.operator, qs, k);
}

/// The index of the last quota on resource `name` (compared upper-cased).
pub open spec fn last_quota_on(q: Seq<(PolicyOperator, ResourceQuotaView)>, name: Seq<char>) -> Option<int>
    decreases q.len(),
{
    if q.len() == 0 {
        None
    } else if upper(q.last().1.resource) == name {
        Some(q.len() - 1)
    } else {
        last_quota_on(q.drop_last(), name)
    }
}

proof fn lemma_last_quota_in_range(q: Seq<(PolicyOperator, ResourceQuotaView)>, name: Seq<char>)
    ensures
        last_quota_on(q, name) matches Some(i) ==> 0 <= i < q.len(),
    decreases q.len(),
{
    if q.len() > 0 {
        lemma_last_quota_in_range(q.drop_last(), name);
    }
}

/// The cap the last quota on `name` sets, if any quota names it.
pub open spec fn last_cap_on(q: Seq<(PolicyOperator, ResourceQuotaView)>, name: Seq<char>) -> Option<u32> {
    match last_quota_on(q, name) {
        Some(i) => Some(cap_of(q[i].0, q[i].1.percent)),
        None => None,
    }
}

/// The last `SPEND`/`SAVE` quota on CPU, and on RAM, decides its cap;
/// every other resource named is reported once as unenforceable; and a
/// budget asks for nothing exactly when no quota was given.
pub proof fn law_last_quota_decides(q: Seq<(PolicyOperator, ResourceQuotaView)>)
    ensures
        budget_of(q).cpu_percent == last_cap_on(q, "CPU"@),
        budget_of(q).ram_percent == last_cap_on(q, "RAM"@),
        forall|n: Seq<char>|
            budget_of(q).unenforceable.contains(n) <==> (n != "CPU"@ && n != "RAM"@ && exists|i: int|
                0 <= i < q.len() && upper(#[trigger] q[i].1.resource) == n),
        budget_of(q).unenforceable.no_duplicates(),
        (budget_of(q) == empty_budget()) <==> q.len() == 0,
    decreases q.len(),
{
    if q.len() > 0 {
        let p = q.drop_last();
        law_last_quota_decides(p);
        let name = upper(q.last().1.resource);
        let b = budget_of(p);
        assert(q.last() == q[q.len() - 1]);
        reveal_strlit("CPU");
        reveal_strlit("RAM");
        assert("CPU"@[0] != "RAM"@[0]);
        if let Some(i) = last_quota_on(p, "CPU"@) {
            lemma_last_quota_in_range(p, "CPU"@);
            assert(q[i] == p[i]);
        }
        if let Some(i) = last_quota_on(p, "RAM"@) {
            lemma_last_quota_in_range(p, "RAM"@);
            assert(q[i] == p[i]);
        }
        assert forall|n: Seq<char>|
            budget_of(q).unenforceable.contains(n) <==> (n != "CPU"@ && n != "RAM"@ && exists|i: int|
                0 <= i < q.len() && upper(#[trigger] q[i].1.resource) == n) by {
            if n != "CPU"@ && n != "RAM"@ {
                if exists|i: int| 0 <= i < q.len() && upper(#[trigger] q[i].1.resource) == n {
                    let i = choose|i: int| 0 <= i < q.len() && upper(#[trigger] q[i].1.resource) == n;
                    if i < p.len() {
                        assert(p[i] == q[i]);
                    } else if name != "CPU"@ && name != "RAM"@ && !b.unenforceable.contains(name) {
                        assert(b.unenforceable.push(name)[b.unenforceable.len() as int] == name);
                    }
                }
                if budget_of(q).unenforceable.contains(n) {
                    if b.unenforceable.contains(n) {
                        let i = choose|i: int| 0 <= i < p.len() && upper(#[trigger] p[i].1.resource) == n;
                        assert(q[i] == p[i]);
                    } else {
                        assert(n == name);
                        assert(upper(q[q.len() - 1].1.resource) == n);
                    }
                }
            } else {
                if budget_of(q).unenforceable.contains(n) {
                    assert(b.unenforceable.contains(n));
                }
            }
        }
        if budget_of(q) == empty_budget() {
            if name == "CPU"@ {
            } else if name == "RAM"@ {
            } else if b.unenforceable.contains(name) {
            } else {
                assert(budget_of(q).unenforceable.len() > 0);
            }
        }
    } else {
        assert(budget_of(q).unenforceable =~= Seq::<Seq<char>>::empty());
    }
}

// ---------------------------------------------------------------------------
// Laws over a whole history of statements
// ---------------------------------------------------------------------------
/// The context after offering the statements of `h`, in order, to a fresh
/// context: an accepted statement updates it, a rejected one leaves it.
pub open spec fn replay(h: Seq<PolicyStatementView>) -> PolicyContextView
    decreases h.len(),
{
    if h.len() == 0 {
        empty_policy()
    } else {
        let p = replay(h.drop_last());
        match apply_spec(p, h.last()) {
            Ok(n) => n,
            Err(_) => p,
        }
    }
}

/// Whether `h[j]` was accepted when it was offered.
pub open spec fn accepted_at(h: Seq<PolicyStatementView>, j: int) -> bool {
    apply_spec(replay(h.take(j)), h[j]) is Ok
}

/// Some statement of `h` with operator `op` on the capability with key
/// `key` was accepted.
pub open spec fn established(h: Seq<PolicyStatementView>, op: PolicyOperator, key: Seq<char>) -> bool {
    exists|j: int|
        0 <= j < h.len() && #[trigger] accepted_at(h, j) && h[j].operator == op && capability_key_of(h[j].args)
            == key
}

/// Some accepted statement of `h` on the capability with key `key`
/// conflicts with a new statement with operator `op`.
pub open spec fn conflict_established(h: Seq<PolicyStatementView>, op: PolicyOperator, key: Seq<char>) -> bool {
    match op {
        PolicyOperator::With => established(h, PolicyOperator::Without, key) || established(
            h,
            PolicyOperator::Dodge,
            key,
        ),
        PolicyOperator::Without => established(h, PolicyOperator::With, key) || established(
            h,
            PolicyOperator::Prefer,
            key,
        ),
        PolicyOperator::Prefer => established(h, PolicyOperator::Without, key) || established(
            h,
            PolicyOperator::Dodge,
            key,
        ),
        PolicyOperator::Dodge => established(h, PolicyOperator::With, key) || established(
            h,
            PolicyOperator::Prefer,
            key,
        ),
        _ => false,
    }
}

proof fn lemma_accepted_prefix(h: Seq<PolicyStatementView>, j: int)
    requires
        0 <= j < h.len() - 1,
    ensures
        accepted_at(h, j) == accepted_at(h.drop_last(), j),
{
    assert(h.take(j) =~= h.drop_last().take(j));
}

proof fn lemma_established_step(h: Seq<PolicyStatementView>, op: PolicyOperator, key: Seq<char>)
    requires
        h.len() > 0,
    ensures
        established(h, op, key) <==> (established(h.drop_last(), op, key) || (accepted_at(h, h.len() - 1)
            && h.last().operator == op && capability_key_of(h.last().args) == key)),
{
    let p = h.drop_last();
    if established(h, op, key) {
        let j = choose|j: int|
            0 <= j < h.len() && #[trigger] accepted_at(h, j) && h[j].operator == op && capability_key_of(h[j].args)
                == key;
        if j < h.len() - 1 {
            lemma_accepted_prefix(h, j);
            assert(p[j] == h[j]);
        }
    }
    if established(p, op, key) {
        let j = choose|j: int|
            0 <= j < p.len() && #[trigger] accepted_at(p, j) && p[j].operator == op && capability_key_of(p[j].args)
                == key;
        lemma_accepted_prefix(h, j);
        assert(p[j] == h[j]);
    }
}

/// The capability keys a context holds are those of the accepted
/// statements of its history, by operator.
proof fn lemma_replay_keys(h: Seq<PolicyStatementView>, key: Seq<char>)
    ensures
        replay(h).hard_with.contains(key) == established(h, PolicyOperator::With, key),
        replay(h).hard_without.contains(key) == established(h, PolicyOperator::Without, key),
        replay(h).soft_prefer.contains(key) == established(h, PolicyOperator::Prefer, key),
        replay(h).soft_dodge.contains(key) == established(h, PolicyOperator::Dodge, key),
    decreases h.len(),
{
    if h.len() > 0 {
        let p = h.drop_last();
        lemma_replay_keys(p, key);
        lemma_established_step(h, PolicyOperator::With, key);
        lemma_established_step(h, PolicyOperator::Without, key);
        lemma_established_step(h, PolicyOperator::Prefer, key);
        lemma_established_step(h, PolicyOperator::Dodge, key);
        assert(h.take(h.len() - 1) =~= p);
        assert(h[h.len() - 1] == h.last());
    }
}

/// A capability statement is rejected exactly when an accepted statement
/// earlier in the block conflicts with it on the same capability, names
/// compared lower-cased: `WITH` with `WITHOUT` or `DODGE`, `WITHOUT` with
/// `WITH` or `PREFER`, `PREFER` with `WITHOUT` or `DODGE`, `DODGE` with
/// `WITH` or `PREFER`. A rejected statement leaves no trace.
pub proof fn law_capability_conflicts_over_history(h: Seq<PolicyStatementView>, s: PolicyStatementView)
    requires
        s.operator == PolicyOperator::With || s.operator == PolicyOperator::Without || s.operator
            == PolicyOperator::Prefer || s.operator == PolicyOperator::Dodge,
    ensures
        apply_spec(replay(h), s) is Err <==> conflict_established(h, s.operator, capability_key_of(s.args)),
        apply_spec(replay(h), s) is Err ==> replay(h.push(s)) == replay(h),
{
    lemma_replay_keys(h, capability_key_of(s.args));
    assert(h.push(s).drop_last() =~= h);
}

/// Whether `s` is a `SPEND`/`SAVE` statement with a quota on `resource`.
pub open spec fn carries_quota(s: PolicyStatementView, resource: Seq<char>) -> bool {
    is_quota_operator(s.operator) && match s.args {
        PolicyArgsView::Quotas(qs) => exists|i: int| 0 <= i < qs.len() && #[trigger] qs[i].resource == resource,
        _ => false,
    }
}

/// Some accepted `SPEND`/`SAVE` statement of `h` with operator `op` put a
/// quota on `resource`.
pub open spec fn claimed(h: Seq<PolicyStatementView>, resource: Seq<char>, op: PolicyOperator) -> bool {
    exists|j: int|
        0 <= j < h.len() && #[trigger] accepted_at(h, j) && h[j].operator == op && carries_quota(h[j], resource)
}

proof fn lemma_insert_disjoint(a: Set<Seq<char>>, b: Set<Seq<char>>, k: Seq<char>)
    requires
        a.disjoint(b),
        !b.contains(k),
    ensures
        a.insert(k).disjoint(b),
        b.disjoint(a.insert(k)),
{
    assert forall|x: Seq<char>| a.insert(k).contains(x) implies !b.contains(x) by {
        if x != k {
            assert(a.contains(x));
        }
    }
    assert forall|x: Seq<char>| b.contains(x) implies !a.insert(k).contains(x) by {
        if x != k {
            assert(!a.contains(x));
        }
    }
}

proof fn lemma_apply_wf(c: PolicyContextView, s: PolicyStatementView)
    requires
        policy_wf(c),
    ensures
        apply_spec(c, s) matches Ok(n) ==> policy_wf(n),
{
    let key = capability_key_of(s.args);
    match s.operator {
        PolicyOperator::Spend | PolicyOperator::Save => {
            if let PolicyArgsView::Quotas(qs) = s.args {
                if quota_error(c.quotas, s.operator, qs) is None {
                    lemma_quota_error_none(c.quotas, s.operator, qs);
                    assert(qs.take(qs.len() as int) =~= qs);
                    lemma_extend_wf(c, s.operator, qs, qs.len() as int);
                }
            }
        },
        PolicyOperator::When => {
            if let PolicyArgsView::Condition { text, .. } = s.args {
                let n = c.conditions.push((s.operator, text));
                assert forall|i: int| 0 <= i < n.len() implies #[trigger] n[i].0 == PolicyOperator::When by {
                    if i < c.conditions.len() {
                        assert(n[i] == c.conditions[i]);
                    }
                }
            }
        },
        PolicyOperator::With => {
            if !c.hard_without.contains(key) && !c.soft_dodge.contains(key) {
                lemma_insert_disjoint(c.hard_with, c.hard_without, key);
                lemma_insert_disjoint(c.hard_with, c.soft_dodge, key);
            }
        },
        PolicyOperator::Without => {
            if !c.hard_with.contains(key) && !c.soft_prefer.contains(key) {
                lemma_insert_disjoint(c.hard_without, c.hard_with, key);
                lemma_insert_disjoint(c.hard_without, c.soft_prefer, key);
            }
        },
        PolicyOperator::Prefer => {
            if !c.hard_without.contains(key) && !c.soft_dodge.contains(key) {
                lemma_insert_disjoint(c.soft_prefer, c.hard_without, key);
                lemma_insert_disjoint(c.soft_prefer, c.soft_dodge, key);
            }
        },
        PolicyOperator::Dodge => {
            if !c.hard_with.contains(key) && !c.soft_prefer.contains(key) {
                lemma_insert_disjoint(c.soft_dodge, c.hard_with, key);
                lemma_insert_disjoint(c.soft_dodge, c.soft_prefer, key);
            }
        },
        _ => {},
    }
}

proof fn lemma_replay_wf(h: Seq<PolicyStatementView>)
    ensures
        policy_wf(replay(h)),
    decreases h.len(),
{
    if h.len() > 0 {
        lemma_replay_wf(h.drop_last());
        lemma_apply_wf(replay(h.drop_last()), h.last());
    }
}

/// Some quota of `q` is on `resource` under `op`.
pub open spec fn holds_claim(q: Seq<(PolicyOperator, ResourceQuotaView)>, resource: Seq<char>, op: PolicyOperator) -> bool {
    exists|i: int| 0 <= i < q.len() && #[trigger] q[i].1.resource == resource && q[i].0 == op
}

proof fn lemma_claim_concat(
    e: Seq<(PolicyOperator, ResourceQuotaView)>,
    o: PolicyOperator,
    qs: Seq<ResourceQuotaView>,
    r: Seq<char>,
    op: PolicyOperator,
)
    ensures
        holds_claim(e + tag_quotas(o, qs), r, op) <==> (holds_claim(e, r, op) || (o == op && exists|k: int|
            0 <= k < qs.len() && #[trigger] qs[k].resource == r)),
{
    let n = e + tag_quotas(o, qs);
    if holds_claim(n, r, op) {
        let i = choose|i: int| 0 <= i < n.len() && #[trigger] n[i].1.resource == r && n[i].0 == op;
        if i < e.len() {
            assert(n[i] == e[i]);
        } else {
            assert(n[i] == (o, qs[i - e.len()]));
            assert(qs[i - e.len()].resource == r);
        }
    }
    if holds_claim(e, r, op) {
        let i = choose|i: int| 0 <= i < e.len() && #[trigger] e[i].1.resource == r && e[i].0 == op;
        assert(n[i] == e[i]);
        assert(n[i].1.resource == r && n[i].0 == op);
    }
    if o == op && exists|k: int| 0 <= k < qs.len() && #[trigger] qs[k].resource == r {
        let k = choose|k: int| 0 <= k < qs.len() && #[trigger] qs[k].resource == r;
        assert(n[e.len() + k] == (o, qs[k]));
        assert(n[e.len() + k].1.resource == r && n[e.len() + k].0 == op);
    }
}

proof fn lemma_claimed_step(h: Seq<PolicyStatementView>, r: Seq<char>, op: PolicyOperator)
    requires
        h.len() > 0,
    ensures
        claimed(h, r, op) <==> (claimed(h.drop_last(), r, op) || (accepted_at(h, h.len() - 1)
            && h.last().operator == op && carries_quota(h.last(), r))),
{
    let p = h.drop_last();
    assert(h[h.len() - 1] == h.last());
    if claimed(h, r, op) {
        let j = choose|j: int|
            0 <= j < h.len() && #[trigger] accepted_at(h, j) && h[j].operator == op && carries_quota(h[j], r);
        if j < h.len() - 1 {
            lemma_accepted_prefix(h, j);
            assert(p[j] == h[j]);
        }
    }
    if claimed(p, r, op) {
        let j = choose|j: int|
            0 <= j < p.len() && #[trigger] accepted_at(p, j) && p[j].operator == op && carries_quota(p[j], r);
        lemma_accepted_prefix(h, j);
        assert(p[j] == h[j]);
    }
}

/// The quotas a context holds are those of the accepted `SPEND`/`SAVE`
/// statements of its history.
proof fn lemma_replay_quotas(h: Seq<PolicyStatementView>, r: Seq<char>, op: PolicyOperator)
    ensures
        holds_claim(replay(h).quotas, r, op) <==> claimed(h, r, op),
    decreases h.len(),
{
    if h.len() > 0 {
        let p = h.drop_last();
        lemma_replay_quotas(p, r, op);
        lemma_claimed_step(h, r, op);
        assert(h.take(h.len() - 1) =~= p);
        let last = h.last();
        let e = replay(p).quotas;
        if is_quota_operator(last.operator) && last.args is Quotas && apply_spec(replay(p), last) is Ok {
            let qs = last.args->Quotas_0;
            assert(replay(h).quotas == e + tag_quotas(last.operator, qs));
            lemma_claim_concat(e, last.operator, qs, r, op);
        } else {
            assert(replay(h).quotas == e);
        }
    }
}

/// A quota that cannot join `existing` under `op`.
pub open spec fn bad_quota(existing: Seq<(PolicyOperator, ResourceQuotaView)>, op: PolicyOperator, q: ResourceQuotaView) -> bool {
    !valid_percent(q.percent) || (quota_owner(existing, q.resource) matches Some(o) && o != op)
}

/// A rejected `SPEND`/`SAVE` names a quota that cannot be accepted.
proof fn lemma_quota_error_some(
    e: Seq<(PolicyOperator, ResourceQuotaView)>,
    op: PolicyOperator,
    qs: Seq<ResourceQuotaView>,
)
    requires
        quota_error(e, op, qs) is Some,
    ensures
        exists|k: int| 0 <= k < qs.len() && bad_quota(e, op, #[trigger] qs[k]),
    decreases qs.len(),
{
    if bad_quota(e, op, qs[0]) {
    } else {
        lemma_quota_error_some(e, op, qs.drop_first());
        let k = choose|k: int| 0 <= k < qs.drop_first().len() && bad_quota(e, op, #[trigger] qs.drop_first()[k]);
        assert(qs[k + 1] == qs.drop_first()[k]);
    }
}

/// A quota of a statement that the block cannot accept: its percentage
/// lies outside `1..=100`, or its resource was already claimed by the
/// other of `SPEND` and `SAVE`.
pub open spec fn quota_refused(h: Seq<PolicyStatementView>, op: PolicyOperator, q: ResourceQuotaView) -> bool {
    !valid_percent(q.percent) || exists|o: PolicyOperator| o != op && #[trigger] claimed(h, q.resource, o)
}

/// A `SPEND`/`SAVE` statement is rejected exactly when one of its quotas
/// has a percentage outside `1..=100`, or names a resource that an
/// accepted statement earlier in the block gave to the other operator. A
/// rejected statement leaves no trace.
pub proof fn law_quota_ownership_over_history(h: Seq<PolicyStatementView>, s: PolicyStatementView)
    requires
        is_quota_operator(s.operator),
        s.args is Quotas,
    ensures
        apply_spec(replay(h), s) is Err <==> exists|k: int|
            0 <= k < s.args->Quotas_0.len() && quota_refused(h, s.operator, #[trigger] s.args->Quotas_0[k]),
        apply_spec(replay(h), s) is Err ==> replay(h.push(s)) == replay(h),
{
    let qs = s.args->Quotas_0;
    let op = s.operator;
    let c = replay(h);
    let e = c.quotas;
    lemma_replay_wf(h);
    assert(h.push(s).drop_last() =~= h);
    assert forall|k: int| 0 <= k < qs.len() implies (quota_refused(h, op, #[trigger] qs[k]) <==> (!valid_percent(
        qs[k].percent,
    ) || (quota_owner(e, qs[k].resource) matches Some(o) && o != op))) by {
        let r = qs[k].resource;
        lemma_quota_owner(e, r);
        if let Some(o) = quota_owner(e, r) {
            lemma_replay_quotas(h, r, o);
            let i = choose|i: int| 0 <= i < e.len() && #[trigger] e[i].1.resource == r && e[i].0 == o;
            assert(holds_claim(e, r, o));
            if o != op {
                assert(claimed(h, r, o));
            }
            if exists|o2: PolicyOperator| o2 != op && #[trigger] claimed(h, r, o2) {
                let o2 = choose|o2: PolicyOperator| o2 != op && #[trigger] claimed(h, r, o2);
                lemma_replay_quotas(h, r, o2);
                let i2 = choose|i2: int| 0 <= i2 < e.len() && #[trigger] e[i2].1.resource == r && e[i2].0 == o2;
                assert(e[i].1.resource == e[i2].1.resource);
            }
        } else {
            if exists|o2: PolicyOperator| o2 != op && #[trigger] claimed(h, r, o2) {
                let o2 = choose|o2: PolicyOperator| o2 != op && #[trigger] claimed(h, r, o2);
                lemma_replay_quotas(h, r, o2);
                let i2 = choose|i2: int| 0 <= i2 < e.len() && #[trigger] e[i2].1.resource == r && e[i2].0 == o2;
            }
        }
    }
    if quota_error(e, op, qs) is Some {
        lemma_quota_error_some(e, op, qs);
    } else {
        lemma_quota_error_none(e, op, qs);
    }
}

} // verus!
