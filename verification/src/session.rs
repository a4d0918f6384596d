//! Session state that ties the pipeline together: lex, parse, semantic and
//! policy validation, then the identity, reference and policy updates.
//!
//! A session stops at validation: an accepted command is grammatically and
//! semantically valid and ready to plan. Whatever is not accepted leaves
//! the session exactly as it was.
use vstd::prelude::*;

use crate::agent;
use crate::agent::clauses_diagnostics;
use crate::ast::{copy_strings, strings_view, AgentBlock, AgentBlockView, Command, CommandView, DependencyClause, Line, LineView, OperandView, OwnershipKind, PolicyOperator, PolicyStatement, PolicyStatementView, ResourceBudget, SuccessCondition};
use crate::completion::{complete, complete_spec};
use crate::diagnostics::{diagnostics_view, Diagnostic, DiagnosticView};
use crate::lexer::TokenView;
use crate::parser::{parse_line, parse_line_spec, parse_spec, quotas_spec, ParseOutcome, ParseOutcomeView};
use crate::policy::{apply, apply_spec, budget_of, not_schedule_keyword, statement_fits, PolicyContext, PolicyContextView};
use crate::reference::{ReferenceContext, ResolvedObjectView};
use crate::semantic::{validate, validate_spec, IdentityContext};

verus! {

/// What submitting one line to a session gives.
#[derive(Debug, Clone)]
pub enum SessionOutcome {
    /// A grammatically and semantically valid command, ready to plan.
    Accepted(Command),
    /// A consistent policy statement, now part of the session's policy.
    PolicyAccepted(PolicyStatement),
    /// A validated agent block, ready to plan.
    AgentAccepted(AgentBlock),
    /// A valid prefix that needs more input.
    Incomplete(Diagnostic),
    /// Cannot be accepted as typed.
    Rejected(Vec<Diagnostic>),
}

pub enum SessionOutcomeView {
    Accepted(CommandView),
    PolicyAccepted(PolicyStatementView),
    AgentAccepted(AgentBlockView),
    Incomplete(DiagnosticView),
    Rejected(Seq<DiagnosticView>),
}

impl View for SessionOutcome {
    type V = SessionOutcomeView;

    open spec fn view(&self) -> SessionOutcomeView {
        match self {
            SessionOutcome::Accepted(c) => SessionOutcomeView::Accepted(c@),
            SessionOutcome::PolicyAccepted(p) => SessionOutcomeView::PolicyAccepted(p@),
            SessionOutcome::AgentAccepted(b) => SessionOutcomeView::AgentAccepted(b@),
            SessionOutcome::Incomplete(d) => SessionOutcomeView::Incomplete(d@),
            SessionOutcome::Rejected(ds) => SessionOutcomeView::Rejected(diagnostics_view(ds@)),
        }
    }
}

/// The identity, reference and policy contexts of a session, and whether
/// the most recent execution succeeded.
#[derive(Debug)]
pub struct Session {
    identity: IdentityContext,
    references: ReferenceContext,
    policy: PolicyContext,
    last_success: Option<bool>,
}

#[verifier::ext_equal]
pub struct SessionView {
    pub identity: Seq<Seq<char>>,
    pub references: Option<ResolvedObjectView>,
    pub policy: PolicyContextView,
    pub last_success: Option<bool>,
}

impl View for Session {
    type V = SessionView;

    closed spec fn view(&self) -> SessionView {
        SessionView {
            identity: self.identity@,
            references: self.references@,
            policy: self.policy@,
            last_success: self.last_success,
        }
    }
}

/// The state after `input` is submitted in state `s`, and the outcome.
pub open spec fn submit_spec(s: SessionView, input: Seq<char>) -> (SessionView, SessionOutcomeView) {
    match parse_line_spec(input) {
        ParseOutcomeView::Complete(LineView::Command(c)) => match validate_spec(
            c,
            s.identity,
            s.references,
        ) {
            Ok(v) => {
                let identity = match v.command {
                    CommandView::Identity(d) => d.members,
                    _ => s.identity,
                };
                let references = match v.establishes {
                    Some(o) => Some(o),
                    None => s.references,
                };
                (
                    SessionView { identity, references, ..s },
                    SessionOutcomeView::Accepted(v.command),
                )
            },
            Err(ds) => (s, SessionOutcomeView::Rejected(ds)),
        },
        ParseOutcomeView::Complete(LineView::Policy(p)) => match apply_spec(s.policy, p) {
            Ok(policy) => (SessionView { policy, ..s }, SessionOutcomeView::PolicyAccepted(p)),
            Err(d) => (s, SessionOutcomeView::Rejected(seq![d])),
        },
        ParseOutcomeView::Complete(LineView::Agent(b)) => {
            let ds = clauses_diagnostics(b.clauses, s.identity, s.references);
            if ds.len() == 0 {
                (s, SessionOutcomeView::AgentAccepted(b))
            } else {
                (s, SessionOutcomeView::Rejected(ds))
            }
        },
        ParseOutcomeView::Incomplete(d) => (s, SessionOutcomeView::Incomplete(d)),
        ParseOutcomeView::Invalid(d) => (s, SessionOutcomeView::Rejected(seq![d])),
    }
}

/// The suggestions a session offers for `input`: the parser's, without the
/// scheduling operators once one is established.
pub open spec fn session_complete_spec(s: SessionView, input: Seq<char>) -> Seq<Seq<char>> {
    if s.policy.schedule is None {
        complete_spec(input)
    } else {
        complete_spec(input).filter(not_schedule_keyword())
    }
}

/// Whether a `WHEN` dependency holds given the most recent result: never
/// before anything has run.
pub open spec fn dependency_holds(last_success: Option<bool>, dep: DependencyClause) -> bool {
    match last_success {
        Some(success) => match dep.condition {
            SuccessCondition::Succeeds => success,
            SuccessCondition::Fails => !success,
        },
        None => false,
    }
}

// ---------------------------------------------------------------------------
// What the parser guarantees of a policy statement
// ---------------------------------------------------------------------------
proof fn lemma_quotas_fit(
    t: Seq<TokenView>,
    idx: int,
    op: PolicyOperator,
    span: crate::ast::Span,
    acc: Seq<crate::ast::ResourceQuotaView>,
)
    ensures
        quotas_spec(t, idx, op, span, acc) matches ParseOutcomeView::Complete(l) ==> (
        l matches LineView::Policy(s) && s.operator == op && s.args is Quotas),
    decreases t.len() - idx,
{
    if 0 <= idx < t.len() {
        match t[idx].kind {
            crate::lexer::TokenKindView::Word(w) => match crate::parser::quota_spec(w, t[idx].span) {
                Ok(q) => lemma_quotas_fit(t, idx + 1, op, span, acc.push(q)),
                Err(_) => {},
            },
            _ => {},
        }
    }
}

proof fn lemma_agent_clauses_not_policy(
    t: Seq<TokenView>,
    idx: int,
    verb: crate::ast::AgentVerb,
    verb_span: crate::ast::Span,
    target: Seq<char>,
    target_span: crate::ast::Span,
    clauses: Seq<crate::ast::AgentClauseView>,
)
    ensures
        crate::parser::agent_clauses_spec(t, idx, verb, verb_span, target, target_span, clauses) matches ParseOutcomeView::Complete(
            l,
        ) ==> l is Agent,
    decreases t.len() - idx,
{
    if 0 <= idx < t.len() {
        if let crate::lexer::TokenKindView::Word(w) = t[idx].kind {
            if let Some(kind) = crate::ast::clause_kind_from_name(crate::text::upper(w)) {
                if let Ok((clause, next)) = crate::parser::clause_arg_spec(t, idx + 1, kind, t[idx].span) {
                    if idx < next <= t.len() {
                        lemma_agent_clauses_not_policy(
                            t,
                            next,
                            verb,
                            verb_span,
                            target,
                            target_span,
                            clauses.push(clause),
                        );
                    }
                }
            }
        }
    }
}

proof fn lemma_parsed_policy_fits(t: Seq<TokenView>)
    ensures
        parse_spec(t) matches ParseOutcomeView::Complete(LineView::Policy(s)) ==> statement_fits(s),
{
    match t[0].kind {
        crate::lexer::TokenKindView::Bang => {
            let tok = t[1];
            if let crate::lexer::TokenKindView::Word(w) = tok.kind {
                if let Some(op) = crate::ast::policy_from_name(crate::text::upper(w)) {
                    lemma_quotas_fit(t, 2, op, tok.span, Seq::empty());
                }
            }
        },
        crate::lexer::TokenKindView::At => {
            let tok = t[1];
            if let crate::lexer::TokenKindView::Word(w) = tok.kind {
                if let Some(verb) = crate::ast::agent_verb_from_name(crate::text::upper(w)) {
                    let target_tok = t[2];
                    match target_tok.kind {
                        crate::lexer::TokenKindView::Word(x) => lemma_agent_clauses_not_policy(
                            t,
                            3,
                            verb,
                            tok.span,
                            x,
                            target_tok.span,
                            Seq::empty(),
                        ),
                        crate::lexer::TokenKindView::StringLit(x) => lemma_agent_clauses_not_policy(
                            t,
                            3,
                            verb,
                            tok.span,
                            x,
                            target_tok.span,
                            Seq::empty(),
                        ),
                        _ => {},
                    }
                }
            }
        },
        crate::lexer::TokenKindView::Pound => {
            assert(!(crate::parser::after_pound_spec(t, 1) matches ParseOutcomeView::Complete(
                LineView::Policy(_),
            )));
        },
        _ => {},
    }
}

impl Session {
    /// A fresh session: no identity, nothing to refer to, no policy, no
    /// result yet.
    pub fn new() -> (r: Self)
        ensures
            r@.identity.len() == 0,
            r@.references is None,
            r@.policy == crate::policy::empty_policy(),
            r@.last_success is None,
            r@ == initial_session(),
    {
        let r = Session {
            identity: IdentityContext::new(),
            references: ReferenceContext::new(),
            policy: PolicyContext::new(),
            last_success: None,
        };
        assert(r@.identity =~= Seq::<Seq<char>>::empty());
        r
    }

    /// Submits one input line.
    pub fn submit(&mut self, input: &str) -> (r: SessionOutcome)
        ensures
            (final(self)@, r@) == submit_spec(old(self)@, input@),
    {
        proof {
            lemma_parsed_policy_fits(crate::lexer::lex(input@));
        }
        match parse_line(input) {
            ParseOutcome::Complete(Line::Command(command)) => {
                match validate(command, &self.identity, &self.references) {
                    Ok(validated) => {
                        if let Command::Identity(decl) = &validated.command {
                            let members = copy_strings(&decl.members);
                            self.identity.set(members);
                        }
                        if let Some(object) = &validated.establishes {
                            self.references.record(object.duplicate());
                        }
                        assert(self@ =~= submit_spec(old(self)@, input@).0);
                        SessionOutcome::Accepted(validated.command)
                    },
                    Err(diagnostics) => SessionOutcome::Rejected(diagnostics),
                }
            },
            ParseOutcome::Complete(Line::Policy(stmt)) => match apply(stmt, &mut self.policy) {
                Ok(applied) => {
                    assert(self@ =~= submit_spec(old(self)@, input@).0);
                    SessionOutcome::PolicyAccepted(applied)
                },
                Err(diagnostic) => {
                    let mut ds: Vec<Diagnostic> = Vec::new();
                    ds.push(diagnostic);
                    assert(diagnostics_view(ds@) =~= seq![ds@[0]@]);
                    assert(self@ =~= old(self)@);
                    SessionOutcome::Rejected(ds)
                },
            },
            ParseOutcome::Complete(Line::Agent(block)) => {
                match agent::validate(block, &self.identity, &self.references) {
                    Ok(validated) => SessionOutcome::AgentAccepted(validated.block),
                    Err(diagnostics) => SessionOutcome::Rejected(diagnostics),
                }
            },
            ParseOutcome::Incomplete(d) => SessionOutcome::Incomplete(d),
            ParseOutcome::Invalid(d) => {
                let mut ds: Vec<Diagnostic> = Vec::new();
                ds.push(d);
                assert(diagnostics_view(ds@) =~= seq![ds@[0]@]);
                SessionOutcome::Rejected(ds)
            },
        }
    }

    /// The valid next tokens for a draft input, without the scheduling
    /// operators once one is established in this session.
    pub fn complete(&self, input: &str) -> (r: Vec<String>)
        ensures
            strings_view(r@) == session_complete_spec(self@, input@),
    {
        self.policy.filter_suggestions(complete(input))
    }

    /// Records whether the most recent execution succeeded.
    pub fn record_outcome(&mut self, success: bool)
        ensures
            final(self)@ == (SessionView { last_success: Some(success), ..old(self)@ }),
    {
        self.last_success = Some(success);
        assert(self@ =~= SessionView { last_success: Some(success), ..old(self)@ });
    }

    /// Whether a `WHEN` dependency is satisfied by the most recent result.
    pub fn dependency_satisfied(&self, dependency: &DependencyClause) -> (r: bool)
        ensures
            r == dependency_holds(self@.last_success, *dependency),
    {
        match self.last_success {
            Some(success) => dependency.condition.is_satisfied_by(success),
            None => false,
        }
    }

    /// The reference context later `THIS`/`THAT` resolve against.
    pub fn references(&self) -> (r: &ReferenceContext)
        ensures
            r@ == self@.references,
    {
        &self.references
    }

    /// The resource caps the session's policy resolves to.
    pub fn resource_budget(&self) -> (b: ResourceBudget)
        ensures
            b@ == budget_of(self@.policy.quotas),
    {
        self.policy.resource_budget()
    }

    /// The scheduling operator established for the session, if any.
    pub fn schedule(&self) -> (r: Option<PolicyOperator>)
        ensures
            r == self@.policy.schedule,
    {
        self.policy.schedule()
    }
}

impl Default for Session {
    fn default() -> (r: Self)
        ensures
            r@.identity.len() == 0,
            r@.references is None,
            r@.policy == crate::policy::empty_policy(),
            r@.last_success is None,
    {
        Session::new()
    }
}

// ---------------------------------------------------------------------------
// Laws
// ---------------------------------------------------------------------------
proof fn lemma_parsed_identity_nonempty(t: Seq<TokenView>)
    ensures
        parse_spec(t) matches ParseOutcomeView::Complete(LineView::Command(CommandView::Identity(d)))
            ==> d.members.len() > 0,
{
    match t[0].kind {
        crate::lexer::TokenKindView::Bang => {
            let tok = t[1];
            if let crate::lexer::TokenKindView::Word(w) = tok.kind {
                if let Some(op) = crate::ast::policy_from_name(crate::text::upper(w)) {
                    lemma_quotas_fit(t, 2, op, tok.span, Seq::empty());
                }
            }
        },
        crate::lexer::TokenKindView::At => {
            let tok = t[1];
            if let crate::lexer::TokenKindView::Word(w) = tok.kind {
                if let Some(verb) = crate::ast::agent_verb_from_name(crate::text::upper(w)) {
                    let target_tok = t[2];
                    match target_tok.kind {
                        crate::lexer::TokenKindView::Word(x) => lemma_agent_clauses_not_policy(
                            t,
                            3,
                            verb,
                            tok.span,
                            x,
                            target_tok.span,
                            Seq::empty(),
                        ),
                        crate::lexer::TokenKindView::StringLit(x) => lemma_agent_clauses_not_policy(
                            t,
                            3,
                            verb,
                            tok.span,
                            x,
                            target_tok.span,
                            Seq::empty(),
                        ),
                        _ => {},
                    }
                }
            }
        },
        _ => {},
    }
}

/// A submission that is not accepted (incomplete or rejected) leaves the
/// session exactly as it was.
pub proof fn law_unaccepted_input_changes_nothing(s: SessionView, input: Seq<char>)
    ensures
        submit_spec(s, input).1 is Rejected ==> submit_spec(s, input).0 == s,
        submit_spec(s, input).1 is Incomplete ==> submit_spec(s, input).0 == s,
{
}

/// `THEIR` is rejected until an identity is established.
pub proof fn law_their_needs_identity(s: SessionView, input: Seq<char>)
    requires
        s.identity.len() == 0,
        parse_line_spec(input) matches ParseOutcomeView::Complete(
            LineView::Command(CommandView::Imperative(c)),
        ) && c.operand matches Some(OperandView::Owned { kind, .. }) && kind == OwnershipKind::Their,
    ensures
        submit_spec(s, input).1 is Rejected,
        submit_spec(s, input).0 == s,
{
}

/// An accepted `THEY are "..."` declaration establishes exactly its
/// members as the identity, and there is at least one, so `THEIR` is
/// accepted from then on.
pub proof fn law_identity_declaration_establishes(s: SessionView, input: Seq<char>)
    ensures
        submit_spec(s, input).1 matches SessionOutcomeView::Accepted(CommandView::Identity(d)) ==> {
            &&& submit_spec(s, input).0.identity == d.members
            &&& d.members.len() > 0
        },
{
    lemma_parsed_identity_nonempty(crate::lexer::lex(input));
}

/// After an accepted command that establishes an object, `THIS` and `THAT`
/// resolve to that object.
pub proof fn law_accepted_command_is_referable(s: SessionView, input: Seq<char>, kind: crate::ast::ReferenceKind)
    ensures
        parse_line_spec(input) matches ParseOutcomeView::Complete(LineView::Command(c)) ==> (
        validate_spec(c, s.identity, s.references) matches Ok(v) ==> (v.establishes matches Some(o)
            ==> crate::reference::resolve_spec(submit_spec(s, input).0.references, kind) == Some(o))),
{
}

/// Completion in a session offers what the parser expects, except that
/// once a schedule (`CONCURRENTLY` or `CONSECUTIVELY`) is established for
/// the block neither scheduling keyword is offered again; every other
/// suggestion stays.
pub proof fn law_completion_hides_an_established_schedule(s: SessionView, input: Seq<char>)
    ensures
        s.policy.schedule is None ==> session_complete_spec(s, input) == complete_spec(input),
        s.policy.schedule is Some ==> forall|k: int|
            0 <= k < session_complete_spec(s, input).len() ==> !crate::policy::is_schedule_keyword(
                #[trigger] session_complete_spec(s, input)[k],
            ) && complete_spec(input).contains(session_complete_spec(s, input)[k]),
        s.policy.schedule is Some ==> forall|i: int|
            0 <= i < complete_spec(input).len() && !crate::policy::is_schedule_keyword(
                #[trigger] complete_spec(input)[i],
            ) ==> session_complete_spec(s, input).contains(complete_spec(input)[i]),
{
    let c = complete_spec(input);
    if s.policy.schedule is Some {
        let f = c.filter(not_schedule_keyword());
        assert forall|k: int| 0 <= k < f.len() implies !crate::policy::is_schedule_keyword(#[trigger] f[k])
            && c.contains(f[k]) by {
            c.filter_lemma(not_schedule_keyword());
            assert(f.contains(f[k]));
            c.lemma_filter_contains_rev(not_schedule_keyword(), f[k]);
        }
        assert forall|i: int| 0 <= i < c.len() && !crate::policy::is_schedule_keyword(#[trigger] c[i]) implies f.contains(
            c[i],
        ) by {
            c.lemma_filter_contains(not_schedule_keyword(), i);
        }
    }
}

/// A fresh session's view.
pub open spec fn initial_session() -> SessionView {
    SessionView {
        identity: Seq::empty(),
        references: None,
        policy: crate::policy::empty_policy(),
        last_success: None,
    }
}

/// The session after submitting `inputs`, in order, to a fresh one.
pub open spec fn session_after(inputs: Seq<Seq<char>>) -> SessionView
    decreases inputs.len(),
{
    if inputs.len() == 0 {
        initial_session()
    } else {
        submit_spec(session_after(inputs.drop_last()), inputs.last()).0
    }
}

/// The complete policy statements among `inputs`, in order.
pub open spec fn policy_statements(inputs: Seq<Seq<char>>) -> Seq<PolicyStatementView>
    decreases inputs.len(),
{
    if inputs.len() == 0 {
        Seq::empty()
    } else {
        let earlier = policy_statements(inputs.drop_last());
        match parse_line_spec(inputs.last()) {
            ParseOutcomeView::Complete(LineView::Policy(st)) => earlier.push(st),
            _ => earlier,
        }
    }
}

/// Over any run of a session, its policy is what offering the policy
/// statements typed so far, in order, to a fresh context gives: commands,
/// agent blocks and unparsable lines leave it alone, and a rejected
/// statement leaves no trace. The history laws of the policy module hence
/// hold of every session.
pub proof fn law_session_policy_is_its_history(inputs: Seq<Seq<char>>)
    ensures
        session_after(inputs).policy == crate::policy::replay(policy_statements(inputs)),
    decreases inputs.len(),
{
    if inputs.len() > 0 {
        let earlier = inputs.drop_last();
        law_session_policy_is_its_history(earlier);
        let h = policy_statements(inputs);
        if let ParseOutcomeView::Complete(LineView::Policy(st)) = parse_line_spec(inputs.last()) {
            assert(h.drop_last() =~= policy_statements(earlier));
            assert(h.last() == st);
        }
    }
}

/// What submitting the `j`-th of `inputs`, after the ones before it, gave.
pub open spec fn outcome_at(inputs: Seq<Seq<char>>, j: int) -> SessionOutcomeView {
    submit_spec(session_after(inputs.take(j)), inputs[j]).1
}

/// Some earlier input was accepted as a `THEY` declaration.
pub open spec fn identity_declared(inputs: Seq<Seq<char>>) -> bool {
    exists|j: int|
        0 <= j < inputs.len() && #[trigger] outcome_at(inputs, j) matches SessionOutcomeView::Accepted(
            CommandView::Identity(_),
        )
}

/// Some earlier input was accepted as an imperative command.
pub open spec fn command_accepted(inputs: Seq<Seq<char>>) -> bool {
    exists|j: int|
        0 <= j < inputs.len() && #[trigger] outcome_at(inputs, j) matches SessionOutcomeView::Accepted(
            CommandView::Imperative(_),
        )
}

pub open spec fn is_their(o: Option<OperandView>) -> bool {
    o matches Some(OperandView::Owned { kind, .. }) && kind == OwnershipKind::Their
}

pub open spec fn is_reference(o: Option<OperandView>) -> bool {
    o matches Some(OperandView::Reference { .. })
}

/// A command whose operand or destination is a `THEIR` path.
pub open spec fn uses_their(c: CommandView) -> bool {
    c matches CommandView::Imperative(ic) && (is_their(ic.operand) || is_their(ic.destination))
}

/// A command whose operand or destination is `THIS` or `THAT`.
pub open spec fn uses_reference(c: CommandView) -> bool {
    c matches CommandView::Imperative(ic) && (is_reference(ic.operand) || is_reference(ic.destination))
}

proof fn lemma_outcome_prefix(inputs: Seq<Seq<char>>, j: int)
    requires
        0 <= j < inputs.len() - 1,
    ensures
        outcome_at(inputs, j) == outcome_at(inputs.drop_last(), j),
{
    assert(inputs.take(j) =~= inputs.drop_last().take(j));
}

proof fn lemma_history_explains_state(inputs: Seq<Seq<char>>)
    ensures
        session_after(inputs).identity.len() > 0 ==> identity_declared(inputs),
        session_after(inputs).references is Some ==> command_accepted(inputs),
    decreases inputs.len(),
{
    if inputs.len() > 0 {
        let p = inputs.drop_last();
        lemma_history_explains_state(p);
        let n = inputs.len() - 1;
        assert(inputs.take(n) =~= p);
        assert(inputs[n] == inputs.last());
        let before = session_after(p);
        let after = session_after(inputs);
        let last = outcome_at(inputs, n);
        if after.identity.len() > 0 {
            if last matches SessionOutcomeView::Accepted(CommandView::Identity(_)) {
            } else {
                assert(after.identity == before.identity);
                let j = choose|j: int|
                    0 <= j < p.len() && #[trigger] outcome_at(p, j) matches SessionOutcomeView::Accepted(
                        CommandView::Identity(_),
                    );
                lemma_outcome_prefix(inputs, j);
            }
        }
        if after.references is Some {
            if last matches SessionOutcomeView::Accepted(CommandView::Imperative(_)) {
            } else {
                assert(after.references == before.references);
                let j = choose|j: int|
                    0 <= j < p.len() && #[trigger] outcome_at(p, j) matches SessionOutcomeView::Accepted(
                        CommandView::Imperative(_),
                    );
                lemma_outcome_prefix(inputs, j);
            }
        }
    }
}

/// Over any run of a session, a command that uses `THEIR` is accepted only
/// after a `THEY` declaration was accepted, and one that uses `THIS` or
/// `THAT` only after an imperative command was accepted.
pub proof fn law_their_and_references_need_history(inputs: Seq<Seq<char>>, input: Seq<char>)
    ensures
        submit_spec(session_after(inputs), input).1 matches SessionOutcomeView::Accepted(c) ==> (
            (uses_their(c) ==> identity_declared(inputs)) && (uses_reference(c) ==> command_accepted(
            inputs,
        ))),
{
    lemma_history_explains_state(inputs);
}

} // verus!
