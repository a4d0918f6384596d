//! Grammatical parsing of Xact input lines into a typed syntax tree.
//!
//! The parser is the single source of truth for what may legally come
//! next: diagnostics and completion both read the `expected` list off a
//! [`ParseOutcome`] rather than keeping a grammar of their own.
//!
//! The grammar is stated once, as the spec functions below, over the
//! views of the tokens; every parsing function is proved to compute
//! exactly what its spec function says.
use vstd::prelude::*;
use vstd::string::*;

use crate::ast::{
    agent_verb_from_name, agent_verb_name, all_policy_operators, all_verbs, clause_kind_from_name,
    clause_kind_name, clause_kind_of, clauses_view, condition_from_name, condition_name,
    operand_span, ownership_from_name, ownership_name, policy_arg_kind, policy_from_name,
    policy_name, quotas_view, reference_from_name, reference_name, strings_view, verb_from_name,
    verb_name, AgentBlock, AgentBlockView, AgentClause, AgentClauseKind, AgentClauseView, AgentVerb,
    Command, CommandView, DependencyClause, IdentityDeclaration, IdentityDeclarationView,
    ImperativeCommand, ImperativeCommandView, Line, LineView, Operand, OperandView, OwnershipKind,
    PolicyArgKind, PolicyArgs, PolicyArgsView, PolicyOperator, PolicyStatement,
    PolicyStatementView, ReferenceKind, ResourceQuota, ResourceQuotaView, Span, SuccessCondition,
    Verb,
};
use crate::completion::{filter_by_prefix, is_placeholder_spec, keeps};
use crate::diagnostics::{diagnostic_view, Diagnostic, DiagnosticKind, DiagnosticView};
use crate::lexer::{lex, tokenize, tokens_view, Token, TokenKind, TokenKindView, TokenView};
use crate::text::{eq_ignore_ascii_case, eq_ignore_case, find_char, first_index_of, lemma_first_index_of, owned, parse_u32, parse_u32_spec, split_on, string_from_chars, str_chars, to_upper, trim, trimmed, upper};

verus! {

/// What parsing one line gives: a complete line, a valid prefix that
/// needs more, or input that no continuation can repair.
#[derive(Debug, Clone, PartialEq, Eq)]
pub enum ParseOutcome {
    /// A grammatically complete line.
    Complete(Line),
    /// A valid prefix that needs more input.
    Incomplete(Diagnostic),
    /// Input that cannot be completed without changing what was typed.
    Invalid(Diagnostic),
}

pub enum ParseOutcomeView {
    Complete(LineView),
    Incomplete(DiagnosticView),
    Invalid(DiagnosticView),
}

impl View for ParseOutcome {
    type V = ParseOutcomeView;

    open spec fn view(&self) -> ParseOutcomeView {
        match self {
            ParseOutcome::Complete(l) => ParseOutcomeView::Complete(l@),
            ParseOutcome::Incomplete(d) => ParseOutcomeView::Incomplete(d@),
            ParseOutcome::Invalid(d) => ParseOutcomeView::Invalid(d@),
        }
    }
}

// ---------------------------------------------------------------------------
// The grammar, as spec functions over token views
// ---------------------------------------------------------------------------
pub open spec fn incomplete(msg: Seq<char>, span: Span, expected: Seq<Seq<char>>) -> ParseOutcomeView {
    ParseOutcomeView::Incomplete(diagnostic_view(DiagnosticKind::Incomplete, msg, span, expected))
}

pub open spec fn invalid(msg: Seq<char>, span: Span, expected: Seq<Seq<char>>) -> ParseOutcomeView {
    ParseOutcomeView::Invalid(diagnostic_view(DiagnosticKind::Invalid, msg, span, expected))
}

pub open spec fn pound_str() -> Seq<char> {
    "\u{a3}"@
}

pub open spec fn quoted_placeholder() -> Seq<char> {
    "'...'"@
}

/// Every verb keyword, in declaration order.
pub open spec fn verb_names() -> Seq<Seq<char>> {
    all_verbs().map_values(|v: Verb| verb_name(v))
}

/// `!`, every verb, then `THEY`.
pub open spec fn top_level_expected() -> Seq<Seq<char>> {
    seq!["!"@] + verb_names() + seq!["THEY"@]
}

/// Every ownership keyword, every reference keyword, then a string.
pub open spec fn operand_expected() -> Seq<Seq<char>> {
    seq![
        ownership_name(OwnershipKind::My),
        ownership_name(OwnershipKind::Our),
        ownership_name(OwnershipKind::Their),
        reference_name(ReferenceKind::This),
        reference_name(ReferenceKind::That),
        quoted_placeholder(),
    ]
}

/// Every policy operator keyword, in declaration order.
pub open spec fn policy_operator_expected() -> Seq<Seq<char>> {
    all_policy_operators().map_values(|op: PolicyOperator| policy_name(op))
}

pub open spec fn agent_verb_expected() -> Seq<Seq<char>> {
    seq![agent_verb_name(AgentVerb::Tell), agent_verb_name(AgentVerb::Team)]
}

pub open spec fn clause_used(used: Seq<AgentClauseView>, k: AgentClauseKind) -> bool {
    exists|i: int| 0 <= i < used.len() && clause_kind_of(#[trigger] used[i]) == k
}

/// The keyword of `k` if no clause of that kind was given yet.
pub open spec fn if_unused(used: Seq<AgentClauseView>, k: AgentClauseKind) -> Seq<Seq<char>> {
    if clause_used(used, k) {
        Seq::empty()
    } else {
        seq![clause_kind_name(k)]
    }
}

/// Every clause keyword not used yet, in declaration order, then the
/// instruction string that closes the block.
pub open spec fn agent_continuation_expected(used: Seq<AgentClauseView>) -> Seq<Seq<char>> {
    if_unused(used, AgentClauseKind::Be) + if_unused(used, AgentClauseKind::Reading) + if_unused(
        used,
        AgentClauseKind::Populating,
    ) + if_unused(used, AgentClauseKind::Think) + seq![quoted_placeholder()]
}

pub open spec fn dependency_reference_expected() -> Seq<Seq<char>> {
    seq![reference_name(ReferenceKind::This), reference_name(ReferenceKind::That)]
}

pub open spec fn dependency_condition_expected() -> Seq<Seq<char>> {
    seq![condition_name(SuccessCondition::Succeeds), condition_name(SuccessCondition::Fails)]
}

pub open spec fn is_eof(t: TokenView) -> bool {
    t.kind is Eof
}

/// Some token at or after `idx` is `Eof`: parsing from `idx` stays in bounds.
pub open spec fn eof_from(t: Seq<TokenView>, idx: int) -> bool {
    exists|k: int| idx <= k < t.len() && is_eof(#[trigger] t[k])
}

/// Some candidate in `c` is a keyword rather than a placeholder.
pub open spec fn has_keyword(c: Seq<Seq<char>>) -> bool {
    exists|i: int| 0 <= i < c.len() && !is_placeholder_spec(#[trigger] c[i])
}

/// What an unrecognised word `w` at `idx` gives, where `expected` lists
/// what may stand there. If `w` is the last thing typed and, ignoring
/// case, still the start of an expected keyword, the line is a valid
/// prefix that needs more input: it is incomplete, and the candidates
/// are those `w` can still become. Otherwise no continuation repairs it
/// and the line is invalid with `msg`.
pub open spec fn word_outcome(
    t: Seq<TokenView>,
    idx: int,
    w: Seq<char>,
    span: Span,
    msg: Seq<char>,
    expected: Seq<Seq<char>>,
) -> ParseOutcomeView {
    if is_eof(t[idx + 1]) && has_keyword(expected.filter(keeps(w))) {
        incomplete("'"@ + w + "' is not complete yet."@, span, expected.filter(keeps(w)))
    } else {
        invalid(msg, span, expected)
    }
}

/// The whole line's parse.
pub open spec fn parse_spec(t: Seq<TokenView>) -> ParseOutcomeView {
    let first = t[0];
    match first.kind {
        TokenKindView::Eof => incomplete(
            "Expected a command."@,
            first.span,
            seq![pound_str()],
        ),
        TokenKindView::Pound => after_pound_spec(t, 1),
        TokenKindView::Bang => policy_spec(t, 1),
        TokenKindView::At => agent_spec(t, 1),
        _ => invalid(
            "Commands must begin with \u{a3}, !, or @."@,
            first.span,
            seq![pound_str(), "!"@, "@"@],
        ),
    }
}

pub open spec fn after_pound_spec(t: Seq<TokenView>, idx: int) -> ParseOutcomeView {
    let tok = t[idx];
    match tok.kind {
        TokenKindView::Eof => incomplete("\u{a3} requires a command."@, tok.span, top_level_expected()),
        TokenKindView::Word(w) => if eq_ignore_ascii_case(w, "THEY"@) {
            identity_spec(t, idx, tok.span)
        } else {
            match verb_from_name(upper(w)) {
                Some(verb) => imperative_spec(t, idx + 1, verb, tok.span),
                None => word_outcome(t, idx, w, tok.span, "Unknown command '"@ + w + "'."@, top_level_expected()),
            }
        },
        _ => invalid("Expected a command after \u{a3}."@, tok.span, top_level_expected()),
    }
}

/// The trimmed, non-empty pieces of a member list.
pub open spec fn members_of(pieces: Seq<Seq<char>>) -> Seq<Seq<char>>
    decreases pieces.len(),
{
    if pieces.len() == 0 {
        Seq::empty()
    } else {
        let m = trim(pieces[0]);
        let rest = members_of(pieces.drop_first());
        if m.len() > 0 {
            seq![m] + rest
        } else {
            rest
        }
    }
}

/// `"alice, bob"` → `["alice", "bob"]`: split on commas, trimmed, empty
/// members dropped.
pub open spec fn member_list(s: Seq<char>) -> Seq<Seq<char>> {
    members_of(split_on(s, ','))
}

pub open spec fn identity_spec(t: Seq<TokenView>, they_idx: int, they_span: Span) -> ParseOutcomeView {
    let are_tok = t[they_idx + 1];
    match are_tok.kind {
        TokenKindView::Eof => incomplete(
            "THEY requires 'are' and a member list."@,
            are_tok.span,
            seq!["are"@],
        ),
        TokenKindView::Word(w) => if eq_ignore_ascii_case(w, "are"@) {
            let list_tok = t[they_idx + 2];
            match list_tok.kind {
                TokenKindView::Eof => incomplete(
                    "Expected a quoted member list after 'are'."@,
                    list_tok.span,
                    seq![quoted_placeholder()],
                ),
                TokenKindView::StringLit(s) => {
                    let after = t[they_idx + 3];
                    if !is_eof(after) {
                        invalid(
                            "Unexpected input after identity declaration."@,
                            after.span,
                            Seq::empty(),
                        )
                    } else if member_list(s).len() == 0 {
                        invalid(
                            "Identity declaration requires at least one member."@,
                            list_tok.span,
                            Seq::empty(),
                        )
                    } else {
                        ParseOutcomeView::Complete(
                            LineView::Command(
                                CommandView::Identity(
                                    IdentityDeclarationView {
                                        members: member_list(s),
                                        span: Span { start: they_span.start, end: list_tok.span.end },
                                    },
                                ),
                            ),
                        )
                    }
                },
                _ => invalid(
                    "Expected a quoted member list (e.g. \"alice,bob\") after 'are'."@,
                    list_tok.span,
                    seq![quoted_placeholder()],
                ),
            }
        } else {
            word_outcome(t, they_idx + 1, w, are_tok.span, "Expected 'are' after THEY."@, seq!["are"@])
        },
        _ => invalid("Expected 'are' after THEY."@, are_tok.span, seq!["are"@]),
    }
}

/// One operand at `idx` and the index after it, or the outcome that ends
/// the parse. `context` names what requires the operand.
pub open spec fn operand_spec(t: Seq<TokenView>, idx: int, context: Seq<char>) -> Result<
    (OperandView, int),
    ParseOutcomeView,
> {
    let tok = t[idx];
    match tok.kind {
        TokenKindView::Eof => Err(
            incomplete(context + " requires a target."@, tok.span, operand_expected()),
        ),
        TokenKindView::Word(w) => {
            let up = upper(w);
            match ownership_from_name(up) {
                Some(kind) => {
                    let path_tok = t[idx + 1];
                    match path_tok.kind {
                        TokenKindView::Eof => Err(
                            incomplete(up + " requires a path."@, path_tok.span, seq!["<path>"@]),
                        ),
                        TokenKindView::Word(p) => Ok(
                            (
                                OperandView::Owned {
                                    kind,
                                    path: p,
                                    span: Span { start: tok.span.start, end: path_tok.span.end },
                                },
                                idx + 2,
                            ),
                        ),
                        TokenKindView::StringLit(p) => Ok(
                            (
                                OperandView::Owned {
                                    kind,
                                    path: p,
                                    span: Span { start: tok.span.start, end: path_tok.span.end },
                                },
                                idx + 2,
                            ),
                        ),
                        _ => Err(
                            invalid(
                                "Expected a path after '"@ + up + "'."@,
                                path_tok.span,
                                seq!["<path>"@],
                            ),
                        ),
                    }
                },
                None => match reference_from_name(up) {
                    Some(kind) => Ok((OperandView::Reference { kind, span: tok.span }, idx + 1)),
                    None => Err(
                        word_outcome(
                            t,
                            idx,
                            w,
                            tok.span,
                            "'"@ + w + "' is not a valid target for "@ + context + "."@,
                            operand_expected(),
                        ),
                    ),
                },
            }
        },
        TokenKindView::StringLit(s) => Ok((OperandView::StringArg { value: s, span: tok.span }, idx + 1)),
        _ => Err(invalid(context + " requires a target."@, tok.span, operand_expected())),
    }
}

pub open spec fn imperative_view(
    verb: Verb,
    verb_span: Span,
    operand: OperandView,
    destination: Option<OperandView>,
    dependency: Option<DependencyClause>,
) -> ParseOutcomeView {
    ParseOutcomeView::Complete(
        LineView::Command(
            CommandView::Imperative(
                ImperativeCommandView {
                    verb,
                    verb_span,
                    operand: Some(operand),
                    destination,
                    dependency,
                },
            ),
        ),
    )
}

pub open spec fn imperative_spec(t: Seq<TokenView>, idx: int, verb: Verb, verb_span: Span) -> ParseOutcomeView {
    match operand_spec(t, idx, verb_name(verb)) {
        Err(o) => o,
        Ok((operand, next)) => after_operand_spec(t, next, verb, verb_span, operand),
    }
}

pub open spec fn after_operand_spec(
    t: Seq<TokenView>,
    idx: int,
    verb: Verb,
    verb_span: Span,
    operand: OperandView,
) -> ParseOutcomeView {
    let tok = t[idx];
    match tok.kind {
        TokenKindView::Eof => imperative_view(verb, verb_span, operand, None, None),
        TokenKindView::Word(w) => if eq_ignore_ascii_case(w, "to"@) {
            match operand_spec(t, idx + 1, "'to'"@) {
                Err(o) => o,
                Ok((destination, end)) => after_destination_spec(
                    t,
                    end,
                    verb,
                    verb_span,
                    operand,
                    destination,
                ),
            }
        } else if eq_ignore_ascii_case(w, "when"@) {
            dependency_spec(t, idx + 1, verb, verb_span, operand, None)
        } else {
            word_outcome(
                t,
                idx,
                w,
                tok.span,
                "Unexpected input; expected end of command, 'to', or 'WHEN'."@,
                seq!["to"@, "WHEN"@],
            )
        },
        _ => invalid(
            "Unexpected input; expected end of command, 'to', or 'WHEN'."@,
            tok.span,
            seq!["to"@, "WHEN"@],
        ),
    }
}

pub open spec fn after_destination_spec(
    t: Seq<TokenView>,
    idx: int,
    verb: Verb,
    verb_span: Span,
    operand: OperandView,
    destination: OperandView,
) -> ParseOutcomeView {
    let tok = t[idx];
    match tok.kind {
        TokenKindView::Eof => imperative_view(verb, verb_span, operand, Some(destination), None),
        TokenKindView::Word(w) => if eq_ignore_ascii_case(w, "when"@) {
            dependency_spec(t, idx + 1, verb, verb_span, operand, Some(destination))
        } else {
            word_outcome(
                t,
                idx,
                w,
                tok.span,
                "Unexpected input after destination; expected end of command or 'WHEN'."@,
                seq!["WHEN"@],
            )
        },
        _ => invalid(
            "Unexpected input after destination; expected end of command or 'WHEN'."@,
            tok.span,
            seq!["WHEN"@],
        ),
    }
}

pub open spec fn dependency_spec(
    t: Seq<TokenView>,
    idx: int,
    verb: Verb,
    verb_span: Span,
    operand: OperandView,
    destination: Option<OperandView>,
) -> ParseOutcomeView {
    let ref_tok = t[idx];
    match ref_tok.kind {
        TokenKindView::Eof => incomplete(
            "WHEN requires THIS or THAT."@,
            ref_tok.span,
            dependency_reference_expected(),
        ),
        TokenKindView::Word(w) => match reference_from_name(upper(w)) {
            None => word_outcome(
                t,
                idx,
                w,
                ref_tok.span,
                "Unknown reference '"@ + w + "' after WHEN."@,
                dependency_reference_expected(),
            ),
            Some(reference) => {
                let rn = reference_name(reference);
                let cond_tok = t[idx + 1];
                match cond_tok.kind {
                    TokenKindView::Eof => incomplete(
                        "WHEN "@ + rn + " requires SUCCEEDS or FAILS."@,
                        cond_tok.span,
                        dependency_condition_expected(),
                    ),
                    TokenKindView::Word(c) => match condition_from_name(upper(c)) {
                        None => word_outcome(
                            t,
                            idx + 1,
                            c,
                            cond_tok.span,
                            "Unknown condition '"@ + c + "' after WHEN "@ + rn + "."@,
                            dependency_condition_expected(),
                        ),
                        Some(condition) => {
                            let trailing = t[idx + 2];
                            if !is_eof(trailing) {
                                invalid(
                                    "Unexpected input after WHEN clause."@,
                                    trailing.span,
                                    Seq::empty(),
                                )
                            } else {
                                imperative_view(
                                    verb,
                                    verb_span,
                                    operand,
                                    destination,
                                    Some(
                                        DependencyClause {
                                            reference,
                                            reference_span: ref_tok.span,
                                            condition,
                                            condition_span: cond_tok.span,
                                        },
                                    ),
                                )
                            }
                        },
                    },
                    _ => invalid(
                        "WHEN "@ + rn + " requires SUCCEEDS or FAILS."@,
                        cond_tok.span,
                        dependency_condition_expected(),
                    ),
                }
            },
        },
        _ => invalid("WHEN requires THIS or THAT."@, ref_tok.span, dependency_reference_expected()),
    }
}

pub open spec fn policy_view(op: PolicyOperator, op_span: Span, args: PolicyArgsView) -> ParseOutcomeView {
    ParseOutcomeView::Complete(
        LineView::Policy(PolicyStatementView { operator: op, operator_span: op_span, args }),
    )
}

pub open spec fn policy_spec(t: Seq<TokenView>, idx: int) -> ParseOutcomeView {
    let tok = t[idx];
    match tok.kind {
        TokenKindView::Eof => incomplete(
            "! requires a policy operator."@,
            tok.span,
            policy_operator_expected(),
        ),
        TokenKindView::Word(w) => match policy_from_name(upper(w)) {
            Some(op) => policy_args_spec(t, idx + 1, op, tok.span),
            None => word_outcome(
                t,
                idx,
                w,
                tok.span,
                "Unknown policy operator '"@ + w + "'."@,
                policy_operator_expected(),
            ),
        },
        _ => invalid("Expected a policy operator after !."@, tok.span, policy_operator_expected()),
    }
}

pub open spec fn policy_args_spec(t: Seq<TokenView>, idx: int, op: PolicyOperator, op_span: Span) -> ParseOutcomeView {
    let tok = t[idx];
    let name = policy_name(op);
    match policy_arg_kind(op) {
        PolicyArgKind::NoArgs => if !is_eof(tok) {
            invalid(name + " takes no arguments."@, tok.span, Seq::empty())
        } else {
            policy_view(op, op_span, PolicyArgsView::NoArgs)
        },
        PolicyArgKind::Capability => match tok.kind {
            TokenKindView::Eof => incomplete(
                name + " requires a capability."@,
                tok.span,
                seq!["<capability>"@],
            ),
            TokenKindView::Word(x) => capability_tail_spec(t, idx, op, op_span, x),
            TokenKindView::StringLit(x) => capability_tail_spec(t, idx, op, op_span, x),
            _ => invalid(name + " requires a capability."@, tok.span, seq!["<capability>"@]),
        },
        PolicyArgKind::Condition => match tok.kind {
            TokenKindView::Eof => incomplete(
                name + " requires a condition."@,
                tok.span,
                seq!["<condition>"@],
            ),
            TokenKindView::Word(x) => condition_tail_spec(t, idx, op, op_span, x),
            TokenKindView::StringLit(x) => condition_tail_spec(t, idx, op, op_span, x),
            _ => invalid(name + " requires a condition."@, tok.span, seq!["<condition>"@]),
        },
        PolicyArgKind::Quotas => quotas_spec(t, idx, op, op_span, Seq::empty()),
    }
}

pub open spec fn capability_tail_spec(
    t: Seq<TokenView>,
    idx: int,
    op: PolicyOperator,
    op_span: Span,
    name: Seq<char>,
) -> ParseOutcomeView {
    let after = t[idx + 1];
    if !is_eof(after) {
        invalid("Unexpected input after policy capability."@, after.span, Seq::empty())
    } else {
        policy_view(op, op_span, PolicyArgsView::Capability { name, span: t[idx].span })
    }
}

pub open spec fn condition_tail_spec(
    t: Seq<TokenView>,
    idx: int,
    op: PolicyOperator,
    op_span: Span,
    text: Seq<char>,
) -> ParseOutcomeView {
    let after = t[idx + 1];
    if !is_eof(after) {
        invalid("Unexpected input after policy condition."@, after.span, Seq::empty())
    } else {
        policy_view(op, op_span, PolicyArgsView::Condition { text, span: t[idx].span })
    }
}

pub open spec fn quota_placeholder() -> Seq<Seq<char>> {
    seq!["<percent>%<resource>"@]
}

/// One `N%RESOURCE` quota, or the message rejecting the word.
pub open spec fn quota_spec(word: Seq<char>, span: Span) -> Result<ResourceQuotaView, Seq<char>> {
    let p = first_index_of(word, '%');
    if p >= word.len() {
        Err("'"@ + word + "' is not a resource quota (expected e.g. 20%RAM)."@)
    } else {
        let percent_str = word.take(p);
        let resource = word.skip(p + 1);
        match parse_u32_spec(percent_str) {
            None => Err(
                "'"@ + percent_str + "' is not a valid percentage in '"@ + word + "'."@,
            ),
            Some(percent) => if resource.len() == 0 {
                Err("'"@ + word + "' is missing a resource name (expected e.g. 20%RAM)."@)
            } else {
                Ok(ResourceQuotaView { percent, resource: upper(resource), span })
            },
        }
    }
}

/// The quota list starting at `idx`, after the quotas `acc` already read.
pub open spec fn quotas_spec(
    t: Seq<TokenView>,
    idx: int,
    op: PolicyOperator,
    op_span: Span,
    acc: Seq<ResourceQuotaView>,
) -> ParseOutcomeView
    decreases t.len() - idx,
{
    if idx < 0 || idx >= t.len() {
        invalid(Seq::empty(), op_span, Seq::empty())
    } else {
        let tok = t[idx];
        match tok.kind {
            TokenKindView::Eof => if acc.len() == 0 {
                incomplete(
                    policy_name(op) + " requires at least one resource quota, e.g. 20%RAM."@,
                    tok.span,
                    quota_placeholder(),
                )
            } else {
                policy_view(op, op_span, PolicyArgsView::Quotas(acc))
            },
            TokenKindView::Word(w) => match quota_spec(w, tok.span) {
                Ok(q) => quotas_spec(t, idx + 1, op, op_span, acc.push(q)),
                Err(m) => invalid(m, tok.span, quota_placeholder()),
            },
            _ => invalid("Expected a resource quota, e.g. 20%RAM."@, tok.span, quota_placeholder()),
        }
    }
}

pub open spec fn agent_spec(t: Seq<TokenView>, idx: int) -> ParseOutcomeView {
    let tok = t[idx];
    match tok.kind {
        TokenKindView::Eof => incomplete("@ requires TELL or TEAM."@, tok.span, agent_verb_expected()),
        TokenKindView::Word(w) => match agent_verb_from_name(upper(w)) {
            Some(verb) => agent_target_spec(t, idx + 1, verb, tok.span),
            None => word_outcome(t, idx, w, tok.span, "Unknown agent verb '"@ + w + "'."@, agent_verb_expected()),
        },
        _ => invalid("Expected TELL or TEAM after @."@, tok.span, agent_verb_expected()),
    }
}

pub open spec fn agent_target_spec(t: Seq<TokenView>, idx: int, verb: AgentVerb, verb_span: Span) -> ParseOutcomeView {
    let tok = t[idx];
    let msg = agent_verb_name(verb) + " requires a target agent name."@;
    match tok.kind {
        TokenKindView::Eof => incomplete(msg, tok.span, seq![quoted_placeholder()]),
        TokenKindView::Word(x) => agent_clauses_spec(t, idx + 1, verb, verb_span, x, tok.span, Seq::empty()),
        TokenKindView::StringLit(x) => agent_clauses_spec(
            t,
            idx + 1,
            verb,
            verb_span,
            x,
            tok.span,
            Seq::empty(),
        ),
        _ => invalid(msg, tok.span, seq![quoted_placeholder()]),
    }
}

pub open spec fn block_close_msg() -> Seq<char> {
    "Expected a clause or the instruction to close this @ block."@
}

/// The rest of an agent block from `idx`, after the clauses already read.
pub open spec fn agent_clauses_spec(
    t: Seq<TokenView>,
    idx: int,
    verb: AgentVerb,
    verb_span: Span,
    target: Seq<char>,
    target_span: Span,
    clauses: Seq<AgentClauseView>,
) -> ParseOutcomeView
    decreases t.len() - idx,
{
    if idx < 0 || idx >= t.len() {
        invalid(Seq::empty(), verb_span, Seq::empty())
    } else {
        let tok = t[idx];
        match tok.kind {
            TokenKindView::Eof => incomplete(
                block_close_msg(),
                tok.span,
                agent_continuation_expected(clauses),
            ),
            TokenKindView::StringLit(s) => {
                let after = t[idx + 1];
                if !is_eof(after) {
                    invalid(
                        "Unexpected input after the @ block's instruction."@,
                        after.span,
                        Seq::empty(),
                    )
                } else {
                    ParseOutcomeView::Complete(
                        LineView::Agent(
                            AgentBlockView {
                                verb,
                                verb_span,
                                target,
                                target_span,
                                clauses,
                                instruction: s,
                                instruction_span: tok.span,
                            },
                        ),
                    )
                }
            },
            TokenKindView::Word(w) => match clause_kind_from_name(upper(w)) {
                None => word_outcome(
                    t,
                    idx,
                    w,
                    tok.span,
                    "Unknown clause '"@ + w + "'."@,
                    agent_continuation_expected(clauses),
                ),
                Some(kind) => if clause_used(clauses, kind) {
                    invalid(
                        clause_kind_name(kind) + " was already given for this @ block."@,
                        tok.span,
                        Seq::empty(),
                    )
                } else {
                    match clause_arg_spec(t, idx + 1, kind, tok.span) {
                        Err(o) => o,
                        Ok((clause, next)) => if next <= idx || next > t.len() {
                            invalid(Seq::empty(), verb_span, Seq::empty())
                        } else {
                            agent_clauses_spec(
                                t,
                                next,
                                verb,
                                verb_span,
                                target,
                                target_span,
                                clauses.push(clause),
                            )
                        },
                    }
                },
            },
            _ => invalid(block_close_msg(), tok.span, agent_continuation_expected(clauses)),
        }
    }
}

pub open spec fn clause_arg_spec(t: Seq<TokenView>, idx: int, kind: AgentClauseKind, kind_span: Span) -> Result<
    (AgentClauseView, int),
    ParseOutcomeView,
> {
    let tok = t[idx];
    match kind {
        AgentClauseKind::Be => {
            let msg = "BE requires a persona description."@;
            match tok.kind {
                TokenKindView::Eof => Err(incomplete(msg, tok.span, seq![quoted_placeholder()])),
                TokenKindView::Word(x) => Ok(
                    (
                        AgentClauseView::Be {
                            persona: x,
                            span: Span { start: kind_span.start, end: tok.span.end },
                        },
                        idx + 1,
                    ),
                ),
                TokenKindView::StringLit(x) => Ok(
                    (
                        AgentClauseView::Be {
                            persona: x,
                            span: Span { start: kind_span.start, end: tok.span.end },
                        },
                        idx + 1,
                    ),
                ),
                _ => Err(invalid(msg, tok.span, seq![quoted_placeholder()])),
            }
        },
        AgentClauseKind::Reading => match operand_spec(t, idx, clause_kind_name(kind)) {
            Err(o) => Err(o),
            Ok((operand, next)) => Ok(
                (
                    AgentClauseView::Reading {
                        operand,
                        span: Span { start: kind_span.start, end: operand_span(operand).end },
                    },
                    next,
                ),
            ),
        },
        AgentClauseKind::Populating => match operand_spec(t, idx, clause_kind_name(kind)) {
            Err(o) => Err(o),
            Ok((operand, next)) => Ok(
                (
                    AgentClauseView::Populating {
                        operand,
                        span: Span { start: kind_span.start, end: operand_span(operand).end },
                    },
                    next,
                ),
            ),
        },
        AgentClauseKind::Think => {
            let msg = "THINK requires a numeric budget, e.g. THINK 80."@;
            match tok.kind {
                TokenKindView::Eof => Err(incomplete(msg, tok.span, seq!["<number>"@])),
                TokenKindView::Word(w) => match parse_u32_spec(w) {
                    Some(budget) => Ok(
                        (
                            AgentClauseView::Think {
                                budget,
                                span: Span { start: kind_span.start, end: tok.span.end },
                            },
                            idx + 1,
                        ),
                    ),
                    None => Err(
                        invalid(
                            "'"@ + w + "' is not a valid THINK budget (expected a number)."@,
                            tok.span,
                            seq!["<number>"@],
                        ),
                    ),
                },
                _ => Err(invalid(msg, tok.span, seq!["<number>"@])),
            }
        },
    }
}

/// The parse of an input line.
pub open spec fn parse_line_spec(input: Seq<char>) -> ParseOutcomeView {
    parse_spec(lex(input))
}

// ---------------------------------------------------------------------------
// Proof helpers
// ---------------------------------------------------------------------------
proof fn lemma_eof_step(t: Seq<TokenView>, idx: int)
    requires
        eof_from(t, idx),
        !is_eof(t[idx]),
    ensures
        eof_from(t, idx + 1),
{
    let k = choose|k: int| idx <= k < t.len() && is_eof(#[trigger] t[k]);
    assert(k != idx);
    assert(idx + 1 <= k < t.len() && is_eof(t[k]));
}

proof fn lemma_strings_push(v: Seq<String>, s: String)
    ensures
        strings_view(v.push(s)) == strings_view(v).push(s@),
{
    assert(strings_view(v.push(s)) =~= strings_view(v).push(s@));
}

// ---------------------------------------------------------------------------
// Building messages, expected lists and outcomes
// ---------------------------------------------------------------------------
fn cat2(a: &str, b: &str) -> (r: String)
    ensures
        r@ == a@ + b@,
{
    let mut r = String::from_str(a);
    r.append(b);
    r
}

fn cat3(a: &str, b: &str, c: &str) -> (r: String)
    ensures
        r@ == a@ + b@ + c@,
{
    let mut r = String::from_str(a);
    r.append(b);
    r.append(c);
    r
}

fn cat5(a: &str, b: &str, c: &str, d: &str, e: &str) -> (r: String)
    ensures
        r@ == a@ + b@ + c@ + d@ + e@,
{
    let mut r = String::from_str(a);
    r.append(b);
    r.append(c);
    r.append(d);
    r.append(e);
    r
}

fn expect_none() -> (r: Vec<String>)
    ensures
        strings_view(r@) == Seq::<Seq<char>>::empty(),
{
    let r: Vec<String> = Vec::new();
    assert(strings_view(r@) =~= Seq::<Seq<char>>::empty());
    r
}

fn expect_one(a: &str) -> (r: Vec<String>)
    ensures
        strings_view(r@) == seq![a@],
{
    let mut r: Vec<String> = Vec::new();
    r.push(owned(a));
    assert(strings_view(r@) =~= seq![a@]);
    r
}

fn expect_two(a: &str, b: &str) -> (r: Vec<String>)
    ensures
        strings_view(r@) == seq![a@, b@],
{
    let mut r: Vec<String> = Vec::new();
    r.push(owned(a));
    r.push(owned(b));
    assert(strings_view(r@) =~= seq![a@, b@]);
    r
}

fn expect_three(a: &str, b: &str, c: &str) -> (r: Vec<String>)
    ensures
        strings_view(r@) == seq![a@, b@, c@],
{
    let mut r: Vec<String> = Vec::new();
    r.push(owned(a));
    r.push(owned(b));
    r.push(owned(c));
    assert(strings_view(r@) =~= seq![a@, b@, c@]);
    r
}

fn incomplete_out(message: String, span: Span, expected: Vec<String>) -> (r: ParseOutcome)
    ensures
        r@ == incomplete(message@, span, strings_view(expected@)),
{
    ParseOutcome::Incomplete(Diagnostic::incomplete(message, span, expected))
}

fn invalid_out(message: String, span: Span, expected: Vec<String>) -> (r: ParseOutcome)
    ensures
        r@ == invalid(message@, span, strings_view(expected@)),
{
    ParseOutcome::Invalid(Diagnostic::invalid(message, span, expected))
}

fn top_level_expected_vec() -> (r: Vec<String>)
    ensures
        strings_view(r@) == top_level_expected(),
{
    let mut r: Vec<String> = Vec::new();
    r.push(owned("!"));
    let verbs = Verb::all();
    let mut i: usize = 0;
    assert(strings_view(r@) =~= seq!["!"@] + verb_names().take(0));
    while i < verbs.len()
        invariant
            verbs@ == all_verbs(),
            0 <= i <= verbs@.len(),
            strings_view(r@) == seq!["!"@] + verb_names().take(i as int),
        decreases verbs@.len() - i,
    {
        let name = owned(verbs[i].as_str());
        proof {
            lemma_strings_push(r@, name);
            assert(verb_names().take(i + 1) =~= verb_names().take(i as int).push(verb_names()[i as int]));
        }
        r.push(name);
        i += 1;
    }
    let they = owned("THEY");
    proof {
        lemma_strings_push(r@, they);
        assert(verb_names().take(i as int) =~= verb_names());
    }
    r.push(they);
    assert(strings_view(r@) =~= top_level_expected());
    r
}

fn operand_expected_vec() -> (r: Vec<String>)
    ensures
        strings_view(r@) == operand_expected(),
{
    let mut r: Vec<String> = Vec::new();
    r.push(owned(OwnershipKind::My.as_str()));
    r.push(owned(OwnershipKind::Our.as_str()));
    r.push(owned(OwnershipKind::Their.as_str()));
    r.push(owned(ReferenceKind::This.as_str()));
    r.push(owned(ReferenceKind::That.as_str()));
    r.push(owned("'...'"));
    assert(strings_view(r@) =~= operand_expected());
    r
}

fn policy_operator_expected_vec() -> (r: Vec<String>)
    ensures
        strings_view(r@) == policy_operator_expected(),
{
    let mut r: Vec<String> = Vec::new();
    let ops = PolicyOperator::all();
    let mut i: usize = 0;
    assert(strings_view(r@) =~= policy_operator_expected().take(0));
    while i < ops.len()
        invariant
            ops@ == all_policy_operators(),
            0 <= i <= ops@.len(),
            strings_view(r@) == policy_operator_expected().take(i as int),
        decreases ops@.len() - i,
    {
        let name = owned(ops[i].as_str());
        proof {
            lemma_strings_push(r@, name);
            assert(policy_operator_expected().take(i + 1) =~= policy_operator_expected().take(
                i as int,
            ).push(policy_operator_expected()[i as int]));
        }
        r.push(name);
        i += 1;
    }
    assert(policy_operator_expected().take(i as int) =~= policy_operator_expected());
    r
}

fn agent_verb_expected_vec() -> (r: Vec<String>)
    ensures
        strings_view(r@) == agent_verb_expected(),
{
    expect_two(AgentVerb::Tell.as_str(), AgentVerb::Team.as_str())
}

fn dependency_reference_expected_vec() -> (r: Vec<String>)
    ensures
        strings_view(r@) == dependency_reference_expected(),
{
    expect_two(ReferenceKind::This.as_str(), ReferenceKind::That.as_str())
}

fn dependency_condition_expected_vec() -> (r: Vec<String>)
    ensures
        strings_view(r@) == dependency_condition_expected(),
{
    expect_two(SuccessCondition::Succeeds.as_str(), SuccessCondition::Fails.as_str())
}

/// Whether a clause of kind `k` was already given.
fn clause_given(used: &Vec<AgentClause>, k: AgentClauseKind) -> (r: bool)
    ensures
        r == clause_used(clauses_view(used@), k),
{
    let mut i: usize = 0;
    while i < used.len()
        invariant
            0 <= i <= used@.len(),
            forall|j: int| 0 <= j < i ==> clause_kind_of(#[trigger] used@[j]@) != k,
        decreases used@.len() - i,
    {
        if used[i].kind() == k {
            assert(clauses_view(used@)[i as int] == used@[i as int]@);
            return true;
        }
        i += 1;
    }
    assert forall|j: int| 0 <= j < clauses_view(used@).len() implies clause_kind_of(
        #[trigger] clauses_view(used@)[j],
    ) != k by {
        assert(clauses_view(used@)[j] == used@[j]@);
    }
    false
}

fn push_if_unused(r: &mut Vec<String>, used: &Vec<AgentClause>, k: AgentClauseKind)
    ensures
        strings_view(final(r)@) == strings_view(old(r)@) + if_unused(clauses_view(used@), k),
{
    if !clause_given(used, k) {
        let name = owned(k.as_str());
        proof {
            lemma_strings_push(r@, name);
        }
        r.push(name);
        assert(strings_view(r@) =~= strings_view(old(r)@) + if_unused(clauses_view(used@), k));
    } else {
        assert(strings_view(r@) =~= strings_view(old(r)@) + if_unused(clauses_view(used@), k));
    }
}

fn agent_continuation_expected_vec(used: &Vec<AgentClause>) -> (r: Vec<String>)
    ensures
        strings_view(r@) == agent_continuation_expected(clauses_view(used@)),
{
    let mut r: Vec<String> = Vec::new();
    assert(strings_view(r@) =~= Seq::<Seq<char>>::empty());
    push_if_unused(&mut r, used, AgentClauseKind::Be);
    push_if_unused(&mut r, used, AgentClauseKind::Reading);
    push_if_unused(&mut r, used, AgentClauseKind::Populating);
    push_if_unused(&mut r, used, AgentClauseKind::Think);
    let closing = owned("'...'");
    proof {
        lemma_strings_push(r@, closing);
    }
    r.push(closing);
    let ghost u = clauses_view(used@);
    assert(strings_view(r@) =~= agent_continuation_expected(u));
    r
}

fn at_eof(tok: &Token) -> (r: bool)
    ensures
        r == is_eof(tok@),
{
    match tok.kind {
        TokenKind::Eof => true,
        _ => false,
    }
}

fn has_keyword_vec(v: &Vec<String>) -> (r: bool)
    ensures
        r == has_keyword(strings_view(v@)),
{
    let ghost sv = strings_view(v@);
    let mut i: usize = 0;
    while i < v.len()
        invariant
            sv == strings_view(v@),
            0 <= i <= v@.len(),
            forall|j: int| 0 <= j < i ==> is_placeholder_spec(#[trigger] sv[j]),
        decreases v@.len() - i,
    {
        let chars = str_chars(v[i].as_str());
        assert(sv[i as int] == v@[i as int]@);
        if !(chars.len() > 0 && (chars[0] == '<' || chars[0] == '\'')) {
            return true;
        }
        i += 1;
    }
    false
}

/// The outcome for an unrecognised word at `idx`; see `word_outcome`.
fn unknown_word(
    tokens: &[Token],
    idx: usize,
    w: &String,
    span: Span,
    message: String,
    expected: Vec<String>,
) -> (r: ParseOutcome)
    requires
        idx + 1 < tokens@.len(),
    ensures
        r@ == word_outcome(tokens_view(tokens@), idx as int, w@, span, message@, strings_view(expected@)),
{
    let ghost t = tokens_view(tokens@);
    let n = tokens.len();
    assert(t[idx + 1] == tokens@[idx + 1]@);
    if idx < n - 1 && at_eof(&tokens[idx + 1]) {
        let kept = filter_by_prefix(&expected, w.as_str());
        if has_keyword_vec(&kept) {
            return incomplete_out(cat3("'", w.as_str(), "' is not complete yet."), span, kept);
        }
    }
    invalid_out(message, span, expected)
}

// ---------------------------------------------------------------------------
// Parsing
// ---------------------------------------------------------------------------
/// Parses one input line.
pub fn parse_line(input: &str) -> (r: ParseOutcome)
    ensures
        r@ == parse_line_spec(input@),
{
    let tokens = tokenize(input);
    proof {
        crate::lexer::lemma_lex_ends_with_eof(input@, 0);
        let t = tokens_view(tokens@);
        assert(is_eof(t[t.len() - 1]));
    }
    parse_tokens(tokens.as_slice())
}

/// Parses a token sequence that ends in `Eof`, as `tokenize` yields it.
pub fn parse_tokens(tokens: &[Token]) -> (r: ParseOutcome)
    requires
        eof_from(tokens_view(tokens@), 0),
    ensures
        r@ == parse_spec(tokens_view(tokens@)),
{
    let ghost t = tokens_view(tokens@);
    let first = &tokens[0];
    match &first.kind {
        TokenKind::Eof => incomplete_out(
            owned("Expected a command."),
            first.span,
            expect_one("\u{a3}"),
        ),
        TokenKind::Pound => {
            proof {
                lemma_eof_step(t, 0);
            }
            parse_after_pound(tokens, 1)
        },
        TokenKind::Bang => {
            proof {
                lemma_eof_step(t, 0);
            }
            parse_policy(tokens, 1)
        },
        TokenKind::At => {
            proof {
                lemma_eof_step(t, 0);
            }
            parse_agent(tokens, 1)
        },
        _ => invalid_out(
            owned("Commands must begin with \u{a3}, !, or @."),
            first.span,
            expect_three("\u{a3}", "!", "@"),
        ),
    }
}

fn parse_after_pound(tokens: &[Token], idx: usize) -> (r: ParseOutcome)
    requires
        eof_from(tokens_view(tokens@), idx as int),
    ensures
        r@ == after_pound_spec(tokens_view(tokens@), idx as int),
{
    let ghost t = tokens_view(tokens@);
    let tok = &tokens[idx];
    match &tok.kind {
        TokenKind::Eof => incomplete_out(
            owned("\u{a3} requires a command."),
            tok.span,
            top_level_expected_vec(),
        ),
        TokenKind::Word(w) => {
            proof {
                lemma_eof_step(t, idx as int);
            }
            if eq_ignore_case(w, "THEY") {
                parse_identity(tokens, idx, tok.span)
            } else {
                let up = to_upper(w.as_str());
                match Verb::from_str(up.as_str()) {
                    Some(verb) => parse_imperative(tokens, idx + 1, verb, tok.span),
                    None => unknown_word(
                        tokens,
                        idx,
                        w,
                        tok.span,
                        cat3("Unknown command '", w.as_str(), "'."),
                        top_level_expected_vec(),
                    ),
                }
            }
        },
        _ => invalid_out(
            owned("Expected a command after \u{a3}."),
            tok.span,
            top_level_expected_vec(),
        ),
    }
}

/// The trimmed, non-empty pieces of a comma-separated member list.
fn split_members(s: &String) -> (r: Vec<String>)
    ensures
        strings_view(r@) == member_list(s@),
{
    let chars = str_chars(s.as_str());
    let n = chars.len();
    let mut r: Vec<String> = Vec::new();
    let mut start: usize = 0;
    assert(chars@.subrange(0, n as int) =~= s@);
    assert(strings_view(r@) =~= Seq::<Seq<char>>::empty());
    loop
        invariant
            chars@ == s@,
            n == chars@.len(),
            0 <= start <= n,
            strings_view(r@) + member_list(chars@.subrange(start as int, n as int)) == member_list(s@),
        decreases n - start,
    {
        let ghost u = chars@.subrange(start as int, n as int);
        let p = find_char(&chars, start, n, ',');
        proof {
            lemma_first_index_of(u, ',');
        }
        let piece = trimmed(&chars, start, start + p);
        proof {
            assert(chars@.subrange(start as int, start + p) =~= u.take(p as int));
        }
        let ghost before = strings_view(r@);
        let keep = !piece.as_str().is_empty();
        if keep {
            proof {
                lemma_strings_push(r@, piece);
            }
            r.push(piece);
        }
        if start + p == n {
            proof {
                assert(split_on(u, ',') == seq![u]);
                assert(u.take(p as int) =~= u);
                assert(split_on(u, ',').drop_first() =~= Seq::<Seq<char>>::empty());
                let pieces = split_on(u, ',');
                assert(pieces[0] == u);
                assert(members_of(pieces.drop_first()) == Seq::<Seq<char>>::empty());
                assert(strings_view(r@) =~= before + member_list(u));
            }
            return r;
        }
        proof {
            let rest = u.skip(p + 1);
            assert(rest =~= chars@.subrange(start + p + 1, n as int));
            assert(split_on(u, ',') == seq![u.take(p as int)] + split_on(rest, ','));
            assert((seq![u.take(p as int)] + split_on(rest, ',')).drop_first() =~= split_on(rest, ','));
            assert((seq![u.take(p as int)] + split_on(rest, ','))[0] == u.take(p as int));
            if keep {
                assert(strings_view(r@) + member_list(rest) =~= before + member_list(u));
            } else {
                assert(strings_view(r@) + member_list(rest) =~= before + member_list(u));
            }
        }
        start = start + p + 1;
    }
}

fn parse_identity(tokens: &[Token], they_idx: usize, they_span: Span) -> (r: ParseOutcome)
    requires
        eof_from(tokens_view(tokens@), they_idx as int + 1),
    ensures
        r@ == identity_spec(tokens_view(tokens@), they_idx as int, they_span),
{
    let ghost t = tokens_view(tokens@);
    let are_idx = they_idx + 1;
    let are_tok = &tokens[are_idx];
    match &are_tok.kind {
        TokenKind::Eof => incomplete_out(
            owned("THEY requires 'are' and a member list."),
            are_tok.span,
            expect_one("are"),
        ),
        TokenKind::Word(w) => {
            if eq_ignore_case(w, "are") {
                proof {
                    lemma_eof_step(t, are_idx as int);
                }
                let list_idx = are_idx + 1;
                let list_tok = &tokens[list_idx];
                match &list_tok.kind {
                    TokenKind::Eof => incomplete_out(
                        owned("Expected a quoted member list after 'are'."),
                        list_tok.span,
                        expect_one("'...'"),
                    ),
                    TokenKind::StringLit(s) => {
                        proof {
                            lemma_eof_step(t, list_idx as int);
                        }
                        let after = &tokens[list_idx + 1];
                        if !at_eof(after) {
                            return invalid_out(
                                owned("Unexpected input after identity declaration."),
                                after.span,
                                expect_none(),
                            );
                        }
                        let members = split_members(s);
                        if members.len() == 0 {
                            return invalid_out(
                                owned("Identity declaration requires at least one member."),
                                list_tok.span,
                                expect_none(),
                            );
                        }
                        ParseOutcome::Complete(
                            Line::Command(
                                Command::Identity(
                                    IdentityDeclaration {
                                        members,
                                        span: Span::new(they_span.start, list_tok.span.end),
                                    },
                                ),
                            ),
                        )
                    },
                    _ => invalid_out(
                        owned("Expected a quoted member list (e.g. \"alice,bob\") after 'are'."),
                        list_tok.span,
                        expect_one("'...'"),
                    ),
                }
            } else {
                proof {
                    lemma_eof_step(t, are_idx as int);
                }
                unknown_word(tokens, are_idx, w, are_tok.span, owned("Expected 'are' after THEY."), expect_one("are"))
            }
        },
        _ => invalid_out(owned("Expected 'are' after THEY."), are_tok.span, expect_one("are")),
    }
}

/// Parses one operand starting at `idx`; `context` names what requires it.
fn parse_operand(tokens: &[Token], idx: usize, context: &str) -> (r: Result<(Operand, usize), ParseOutcome>)
    requires
        eof_from(tokens_view(tokens@), idx as int),
    ensures
        match r {
            Ok((o, n)) => {
                &&& operand_spec(tokens_view(tokens@), idx as int, context@) == Ok::<
                    (OperandView, int),
                    ParseOutcomeView,
                >((o@, n as int))
                &&& idx < n
                &&& eof_from(tokens_view(tokens@), n as int)
            },
            Err(e) => operand_spec(tokens_view(tokens@), idx as int, context@) == Err::<
                (OperandView, int),
                ParseOutcomeView,
            >(e@),
        },
{
    let ghost t = tokens_view(tokens@);
    let tok = &tokens[idx];
    match &tok.kind {
        TokenKind::Eof => Err(
            incomplete_out(cat2(context, " requires a target."), tok.span, operand_expected_vec()),
        ),
        TokenKind::Word(w) => {
            proof {
                lemma_eof_step(t, idx as int);
            }
            let up = to_upper(w.as_str());
            match OwnershipKind::from_str(up.as_str()) {
                Some(kind) => {
                    let path_idx = idx + 1;
                    let path_tok = &tokens[path_idx];
                    match &path_tok.kind {
                        TokenKind::Eof => Err(
                            incomplete_out(
                                cat2(up.as_str(), " requires a path."),
                                path_tok.span,
                                expect_one("<path>"),
                            ),
                        ),
                        TokenKind::Word(p) => {
                            proof {
                                lemma_eof_step(t, path_idx as int);
                            }
                            Ok(
                                (
                                    Operand::Owned {
                                        kind,
                                        path: p.clone(),
                                        span: Span::new(tok.span.start, path_tok.span.end),
                                    },
                                    path_idx + 1,
                                ),
                            )
                        },
                        TokenKind::StringLit(p) => {
                            proof {
                                lemma_eof_step(t, path_idx as int);
                            }
                            Ok(
                                (
                                    Operand::Owned {
                                        kind,
                                        path: p.clone(),
                                        span: Span::new(tok.span.start, path_tok.span.end),
                                    },
                                    path_idx + 1,
                                ),
                            )
                        },
                        _ => Err(
                            invalid_out(
                                cat3("Expected a path after '", up.as_str(), "'."),
                                path_tok.span,
                                expect_one("<path>"),
                            ),
                        ),
                    }
                },
                None => match ReferenceKind::from_str(up.as_str()) {
                    Some(kind) => Ok((Operand::Reference { kind, span: tok.span }, idx + 1)),
                    None => {
                        proof {
                            lemma_eof_step(t, idx as int);
                        }
                        Err(
                            unknown_word(
                                tokens,
                                idx,
                                w,
                                tok.span,
                                cat5("'", w.as_str(), "' is not a valid target for ", context, "."),
                                operand_expected_vec(),
                            ),
                        )
                    },
                },
            }
        },
        TokenKind::StringLit(s) => {
            proof {
                lemma_eof_step(t, idx as int);
            }
            Ok((Operand::StringArg { value: s.clone(), span: tok.span }, idx + 1))
        },
        _ => Err(
            invalid_out(cat2(context, " requires a target."), tok.span, operand_expected_vec()),
        ),
    }
}

fn parse_imperative(tokens: &[Token], idx: usize, verb: Verb, verb_span: Span) -> (r: ParseOutcome)
    requires
        eof_from(tokens_view(tokens@), idx as int),
    ensures
        r@ == imperative_spec(tokens_view(tokens@), idx as int, verb, verb_span),
{
    match parse_operand(tokens, idx, verb.as_str()) {
        Ok((operand, next)) => parse_after_operand(tokens, next, verb, verb_span, operand),
        Err(outcome) => outcome,
    }
}

fn imperative_out(
    verb: Verb,
    verb_span: Span,
    operand: Operand,
    destination: Option<Operand>,
    dependency: Option<DependencyClause>,
) -> (r: ParseOutcome)
    ensures
        r@ == imperative_view(
            verb,
            verb_span,
            operand@,
            match destination {
                Some(d) => Some(d@),
                None => None,
            },
            dependency,
        ),
{
    ParseOutcome::Complete(
        Line::Command(
            Command::Imperative(
                ImperativeCommand {
                    verb,
                    verb_span,
                    operand: Some(operand),
                    destination,
                    dependency,
                },
            ),
        ),
    )
}

fn parse_after_operand(
    tokens: &[Token],
    idx: usize,
    verb: Verb,
    verb_span: Span,
    operand: Operand,
) -> (r: ParseOutcome)
    requires
        eof_from(tokens_view(tokens@), idx as int),
    ensures
        r@ == after_operand_spec(tokens_view(tokens@), idx as int, verb, verb_span, operand@),
{
    let ghost t = tokens_view(tokens@);
    let tok = &tokens[idx];
    match &tok.kind {
        TokenKind::Eof => imperative_out(verb, verb_span, operand, None, None),
        TokenKind::Word(w) => {
            proof {
                lemma_eof_step(t, idx as int);
            }
            if eq_ignore_case(w, "to") {
                match parse_operand(tokens, idx + 1, "'to'") {
                    Ok((destination, end)) => parse_after_destination(
                        tokens,
                        end,
                        verb,
                        verb_span,
                        operand,
                        destination,
                    ),
                    Err(outcome) => outcome,
                }
            } else if eq_ignore_case(w, "when") {
                finish_with_dependency(tokens, idx + 1, verb, verb_span, operand, None)
            } else {
                unknown_word(
                    tokens,
                    idx,
                    w,
                    tok.span,
                    owned("Unexpected input; expected end of command, 'to', or 'WHEN'."),
                    expect_two("to", "WHEN"),
                )
            }
        },
        _ => invalid_out(
            owned("Unexpected input; expected end of command, 'to', or 'WHEN'."),
            tok.span,
            expect_two("to", "WHEN"),
        ),
    }
}

fn parse_after_destination(
    tokens: &[Token],
    idx: usize,
    verb: Verb,
    verb_span: Span,
    operand: Operand,
    destination: Operand,
) -> (r: ParseOutcome)
    requires
        eof_from(tokens_view(tokens@), idx as int),
    ensures
        r@ == after_destination_spec(
            tokens_view(tokens@),
            idx as int,
            verb,
            verb_span,
            operand@,
            destination@,
        ),
{
    let ghost t = tokens_view(tokens@);
    let tok = &tokens[idx];
    match &tok.kind {
        TokenKind::Eof => imperative_out(verb, verb_span, operand, Some(destination), None),
        TokenKind::Word(w) => {
            if eq_ignore_case(w, "when") {
                proof {
                    lemma_eof_step(t, idx as int);
                }
                finish_with_dependency(tokens, idx + 1, verb, verb_span, operand, Some(destination))
            } else {
                proof {
                    lemma_eof_step(t, idx as int);
                }
                unknown_word(
                    tokens,
                    idx,
                    w,
                    tok.span,
                    owned("Unexpected input after destination; expected end of command or 'WHEN'."),
                    expect_one("WHEN"),
                )
            }
        },
        _ => invalid_out(
            owned("Unexpected input after destination; expected end of command or 'WHEN'."),
            tok.span,
            expect_one("WHEN"),
        ),
    }
}

/// Parses `THIS`/`THAT` `SUCCEEDS`/`FAILS` right after `WHEN` and, on
/// success, assembles the whole command.
fn finish_with_dependency(
    tokens: &[Token],
    idx: usize,
    verb: Verb,
    verb_span: Span,
    operand: Operand,
    destination: Option<Operand>,
) -> (r: ParseOutcome)
    requires
        eof_from(tokens_view(tokens@), idx as int),
    ensures
        r@ == dependency_spec(
            tokens_view(tokens@),
            idx as int,
            verb,
            verb_span,
            operand@,
            match destination {
                Some(d) => Some(d@),
                None => None,
            },
        ),
{
    let ghost t = tokens_view(tokens@);
    let ref_tok = &tokens[idx];
    let w = match &ref_tok.kind {
        TokenKind::Eof => {
            return incomplete_out(
                owned("WHEN requires THIS or THAT."),
                ref_tok.span,
                dependency_reference_expected_vec(),
            );
        },
        TokenKind::Word(w) => w,
        _ => {
            return invalid_out(
                owned("WHEN requires THIS or THAT."),
                ref_tok.span,
                dependency_reference_expected_vec(),
            );
        },
    };
    let up = to_upper(w.as_str());
    let reference = match ReferenceKind::from_str(up.as_str()) {
        Some(kind) => kind,
        None => {
            proof {
                lemma_eof_step(t, idx as int);
            }
            return unknown_word(
                tokens,
                idx,
                w,
                ref_tok.span,
                cat3("Unknown reference '", w.as_str(), "' after WHEN."),
                dependency_reference_expected_vec(),
            );
        },
    };
    proof {
        lemma_eof_step(t, idx as int);
    }
    let rn = reference.as_str();
    let cond_idx = idx + 1;
    let cond_tok = &tokens[cond_idx];
    let c = match &cond_tok.kind {
        TokenKind::Eof => {
            return incomplete_out(
                cat3("WHEN ", rn, " requires SUCCEEDS or FAILS."),
                cond_tok.span,
                dependency_condition_expected_vec(),
            );
        },
        TokenKind::Word(c) => c,
        _ => {
            return invalid_out(
                cat3("WHEN ", rn, " requires SUCCEEDS or FAILS."),
                cond_tok.span,
                dependency_condition_expected_vec(),
            );
        },
    };
    let cup = to_upper(c.as_str());
    let condition = match SuccessCondition::from_str(cup.as_str()) {
        Some(condition) => condition,
        None => {
            let m = cat5("Unknown condition '", c.as_str(), "' after WHEN ", rn, ".");
            proof {
                lemma_eof_step(t, cond_idx as int);
            }
            return unknown_word(tokens, cond_idx, c, cond_tok.span, m, dependency_condition_expected_vec());
        },
    };
    proof {
        lemma_eof_step(t, cond_idx as int);
    }
    let trailing = &tokens[cond_idx + 1];
    if !at_eof(trailing) {
        return invalid_out(
            owned("Unexpected input after WHEN clause."),
            trailing.span,
            expect_none(),
        );
    }
    imperative_out(
        verb,
        verb_span,
        operand,
        destination,
        Some(
            DependencyClause {
                reference,
                reference_span: ref_tok.span,
                condition,
                condition_span: cond_tok.span,
            },
        ),
    )
}

fn parse_policy(tokens: &[Token], idx: usize) -> (r: ParseOutcome)
    requires
        eof_from(tokens_view(tokens@), idx as int),
    ensures
        r@ == policy_spec(tokens_view(tokens@), idx as int),
{
    let ghost t = tokens_view(tokens@);
    let tok = &tokens[idx];
    match &tok.kind {
        TokenKind::Eof => incomplete_out(
            owned("! requires a policy operator."),
            tok.span,
            policy_operator_expected_vec(),
        ),
        TokenKind::Word(w) => {
            let up = to_upper(w.as_str());
            match PolicyOperator::from_str(up.as_str()) {
                Some(op) => {
                    proof {
                        lemma_eof_step(t, idx as int);
                    }
                    parse_policy_args(tokens, idx + 1, op, tok.span)
                },
                None => {
                    proof {
                        lemma_eof_step(t, idx as int);
                    }
                    unknown_word(
                        tokens,
                        idx,
                        w,
                        tok.span,
                        cat3("Unknown policy operator '", w.as_str(), "'."),
                        policy_operator_expected_vec(),
                    )
                },
            }
        },
        _ => invalid_out(
            owned("Expected a policy operator after !."),
            tok.span,
            policy_operator_expected_vec(),
        ),
    }
}

fn policy_out(op: PolicyOperator, op_span: Span, args: PolicyArgs) -> (r: ParseOutcome)
    ensures
        r@ == policy_view(op, op_span, args@),
{
    ParseOutcome::Complete(
        Line::Policy(PolicyStatement { operator: op, operator_span: op_span, args }),
    )
}

fn parse_policy_args(tokens: &[Token], idx: usize, op: PolicyOperator, op_span: Span) -> (r: ParseOutcome)
    requires
        eof_from(tokens_view(tokens@), idx as int),
    ensures
        r@ == policy_args_spec(tokens_view(tokens@), idx as int, op, op_span),
{
    let ghost t = tokens_view(tokens@);
    let tok = &tokens[idx];
    let name = op.as_str();
    match op.arg_kind() {
        PolicyArgKind::NoArgs => {
            if !at_eof(tok) {
                return invalid_out(cat2(name, " takes no arguments."), tok.span, expect_none());
            }
            policy_out(op, op_span, PolicyArgs::NoArgs)
        },
        PolicyArgKind::Capability => {
            let x = match &tok.kind {
                TokenKind::Eof => {
                    return incomplete_out(
                        cat2(name, " requires a capability."),
                        tok.span,
                        expect_one("<capability>"),
                    );
                },
                TokenKind::Word(w) => w.clone(),
                TokenKind::StringLit(w) => w.clone(),
                _ => {
                    return invalid_out(
                        cat2(name, " requires a capability."),
                        tok.span,
                        expect_one("<capability>"),
                    );
                },
            };
            proof {
                lemma_eof_step(t, idx as int);
            }
            let after = &tokens[idx + 1];
            if !at_eof(after) {
                return invalid_out(
                    owned("Unexpected input after policy capability."),
                    after.span,
                    expect_none(),
                );
            }
            policy_out(op, op_span, PolicyArgs::Capability { name: x, span: tok.span })
        },
        PolicyArgKind::Condition => {
            let x = match &tok.kind {
                TokenKind::Eof => {
                    return incomplete_out(
                        cat2(name, " requires a condition."),
                        tok.span,
                        expect_one("<condition>"),
                    );
                },
                TokenKind::Word(w) => w.clone(),
                TokenKind::StringLit(w) => w.clone(),
                _ => {
                    return invalid_out(
                        cat2(name, " requires a condition."),
                        tok.span,
                        expect_one("<condition>"),
                    );
                },
            };
            proof {
                lemma_eof_step(t, idx as int);
            }
            let after = &tokens[idx + 1];
            if !at_eof(after) {
                return invalid_out(
                    owned("Unexpected input after policy condition."),
                    after.span,
                    expect_none(),
                );
            }
            policy_out(op, op_span, PolicyArgs::Condition { text: x, span: tok.span })
        },
        PolicyArgKind::Quotas => parse_quotas(tokens, idx, op, op_span),
    }
}

/// Reads one `N%RESOURCE` quota, or says why the word is not one.
fn parse_quota(word: &String, span: Span) -> (r: Result<ResourceQuota, String>)
    ensures
        match r {
            Ok(q) => quota_spec(word@, span) == Ok::<ResourceQuotaView, Seq<char>>(q@),
            Err(m) => quota_spec(word@, span) == Err::<ResourceQuotaView, Seq<char>>(m@),
        },
{
    let chars = str_chars(word.as_str());
    let n = chars.len();
    let p = find_char(&chars, 0, n, '%');
    proof {
        assert(chars@.subrange(0, n as int) =~= word@);
        lemma_first_index_of(word@, '%');
    }
    if p >= n {
        return Err(cat3("'", word.as_str(), "' is not a resource quota (expected e.g. 20%RAM)."));
    }
    let percent_str = string_from_chars(&chars, 0, p);
    proof {
        assert(chars@.subrange(0, p as int) =~= word@.take(p as int));
    }
    let percent = match parse_u32(&chars, 0, p) {
        Some(v) => v,
        None => {
            return Err(
                cat5(
                    "'",
                    percent_str.as_str(),
                    "' is not a valid percentage in '",
                    word.as_str(),
                    "'.",
                ),
            );
        },
    };
    let resource = string_from_chars(&chars, p + 1, n);
    proof {
        assert(chars@.subrange(p + 1, n as int) =~= word@.skip(p + 1));
    }
    if resource.as_str().is_empty() {
        return Err(
            cat3("'", word.as_str(), "' is missing a resource name (expected e.g. 20%RAM)."),
        );
    }
    Ok(ResourceQuota { percent, resource: to_upper(resource.as_str()), span })
}

fn parse_quotas(tokens: &[Token], idx0: usize, op: PolicyOperator, op_span: Span) -> (r: ParseOutcome)
    requires
        eof_from(tokens_view(tokens@), idx0 as int),
    ensures
        r@ == quotas_spec(tokens_view(tokens@), idx0 as int, op, op_span, Seq::empty()),
{
    let ghost t = tokens_view(tokens@);
    let mut quotas: Vec<ResourceQuota> = Vec::new();
    let mut idx = idx0;
    assert(quotas_view(quotas@) =~= Seq::<ResourceQuotaView>::empty());
    loop
        invariant
            t == tokens_view(tokens@),
            eof_from(t, idx as int),
            quotas_spec(t, idx as int, op, op_span, quotas_view(quotas@)) == quotas_spec(
                t,
                idx0 as int,
                op,
                op_span,
                Seq::empty(),
            ),
        decreases tokens@.len() - idx,
    {
        let tok = &tokens[idx];
        match &tok.kind {
            TokenKind::Eof => {
                if quotas.len() == 0 {
                    return incomplete_out(
                        cat2(op.as_str(), " requires at least one resource quota, e.g. 20%RAM."),
                        tok.span,
                        expect_one("<percent>%<resource>"),
                    );
                }
                return policy_out(op, op_span, PolicyArgs::Quotas(quotas));
            },
            TokenKind::Word(w) => match parse_quota(w, tok.span) {
                Ok(quota) => {
                    proof {
                        lemma_eof_step(t, idx as int);
                        assert(quotas_view(quotas@.push(quota)) =~= quotas_view(quotas@).push(
                            quota@,
                        ));
                    }
                    quotas.push(quota);
                    idx += 1;
                },
                Err(message) => {
                    return invalid_out(message, tok.span, expect_one("<percent>%<resource>"));
                },
            },
            _ => {
                return invalid_out(
                    owned("Expected a resource quota, e.g. 20%RAM."),
                    tok.span,
                    expect_one("<percent>%<resource>"),
                );
            },
        }
    }
}

fn parse_agent(tokens: &[Token], idx: usize) -> (r: ParseOutcome)
    requires
        eof_from(tokens_view(tokens@), idx as int),
    ensures
        r@ == agent_spec(tokens_view(tokens@), idx as int),
{
    let ghost t = tokens_view(tokens@);
    let tok = &tokens[idx];
    match &tok.kind {
        TokenKind::Eof => incomplete_out(
            owned("@ requires TELL or TEAM."),
            tok.span,
            agent_verb_expected_vec(),
        ),
        TokenKind::Word(w) => {
            let up = to_upper(w.as_str());
            match AgentVerb::from_str(up.as_str()) {
                Some(verb) => {
                    proof {
                        lemma_eof_step(t, idx as int);
                    }
                    parse_agent_target(tokens, idx + 1, verb, tok.span)
                },
                None => {
                    proof {
                        lemma_eof_step(t, idx as int);
                    }
                    unknown_word(
                        tokens,
                        idx,
                        w,
                        tok.span,
                        cat3("Unknown agent verb '", w.as_str(), "'."),
                        agent_verb_expected_vec(),
                    )
                },
            }
        },
        _ => invalid_out(
            owned("Expected TELL or TEAM after @."),
            tok.span,
            agent_verb_expected_vec(),
        ),
    }
}

fn parse_agent_target(tokens: &[Token], idx: usize, verb: AgentVerb, verb_span: Span) -> (r: ParseOutcome)
    requires
        eof_from(tokens_view(tokens@), idx as int),
    ensures
        r@ == agent_target_spec(tokens_view(tokens@), idx as int, verb, verb_span),
{
    let ghost t = tokens_view(tokens@);
    let tok = &tokens[idx];
    let target = match &tok.kind {
        TokenKind::Eof => {
            return incomplete_out(
                cat2(verb.as_str(), " requires a target agent name."),
                tok.span,
                expect_one("'...'"),
            );
        },
        TokenKind::Word(w) => w.clone(),
        TokenKind::StringLit(w) => w.clone(),
        _ => {
            return invalid_out(
                cat2(verb.as_str(), " requires a target agent name."),
                tok.span,
                expect_one("'...'"),
            );
        },
    };
    proof {
        lemma_eof_step(t, idx as int);
    }
    parse_agent_clauses(tokens, idx + 1, verb, verb_span, target, tok.span)
}

fn parse_agent_clauses(
    tokens: &[Token],
    idx0: usize,
    verb: AgentVerb,
    verb_span: Span,
    target: String,
    target_span: Span,
) -> (r: ParseOutcome)
    requires
        eof_from(tokens_view(tokens@), idx0 as int),
    ensures
        r@ == agent_clauses_spec(
            tokens_view(tokens@),
            idx0 as int,
            verb,
            verb_span,
            target@,
            target_span,
            Seq::empty(),
        ),
{
    let ghost t = tokens_view(tokens@);
    let ghost target_view = target@;
    let mut clauses: Vec<AgentClause> = Vec::new();
    let mut idx = idx0;
    assert(clauses_view(clauses@) =~= Seq::<AgentClauseView>::empty());
    loop
        invariant
            t == tokens_view(tokens@),
            target@ == target_view,
            eof_from(t, idx as int),
            agent_clauses_spec(
                t,
                idx as int,
                verb,
                verb_span,
                target_view,
                target_span,
                clauses_view(clauses@),
            ) == agent_clauses_spec(
                t,
                idx0 as int,
                verb,
                verb_span,
                target_view,
                target_span,
                Seq::empty(),
            ),
        decreases tokens@.len() - idx,
    {
        let tok = &tokens[idx];
        match &tok.kind {
            TokenKind::Eof => {
                return incomplete_out(
                    owned("Expected a clause or the instruction to close this @ block."),
                    tok.span,
                    agent_continuation_expected_vec(&clauses),
                );
            },
            TokenKind::StringLit(s) => {
                proof {
                    lemma_eof_step(t, idx as int);
                }
                let after = &tokens[idx + 1];
                if !at_eof(after) {
                    return invalid_out(
                        owned("Unexpected input after the @ block's instruction."),
                        after.span,
                        expect_none(),
                    );
                }
                return ParseOutcome::Complete(
                    Line::Agent(
                        AgentBlock {
                            verb,
                            verb_span,
                            target,
                            target_span,
                            clauses,
                            instruction: s.clone(),
                            instruction_span: tok.span,
                        },
                    ),
                );
            },
            TokenKind::Word(w) => {
                let up = to_upper(w.as_str());
                let kind = match AgentClauseKind::from_str(up.as_str()) {
                    Some(kind) => kind,
                    None => {
                        proof {
                            lemma_eof_step(t, idx as int);
                        }
                        return unknown_word(
                            tokens,
                            idx,
                            w,
                            tok.span,
                            cat3("Unknown clause '", w.as_str(), "'."),
                            agent_continuation_expected_vec(&clauses),
                        );
                    },
                };
                if clause_given(&clauses, kind) {
                    return invalid_out(
                        cat2(kind.as_str(), " was already given for this @ block."),
                        tok.span,
                        expect_none(),
                    );
                }
                proof {
                    lemma_eof_step(t, idx as int);
                }
                match parse_agent_clause_arg(tokens, idx + 1, kind, tok.span) {
                    Ok((clause, next)) => {
                        proof {
                            assert(clauses_view(clauses@.push(clause)) =~= clauses_view(
                                clauses@,
                            ).push(clause@));
                        }
                        clauses.push(clause);
                        idx = next;
                    },
                    Err(outcome) => {
                        return outcome;
                    },
                }
            },
            _ => {
                return invalid_out(
                    owned("Expected a clause or the instruction to close this @ block."),
                    tok.span,
                    agent_continuation_expected_vec(&clauses),
                );
            },
        }
    }
}

fn parse_agent_clause_arg(tokens: &[Token], idx: usize, kind: AgentClauseKind, kind_span: Span) -> (r: Result<
    (AgentClause, usize),
    ParseOutcome,
>)
    requires
        eof_from(tokens_view(tokens@), idx as int),
    ensures
        match r {
            Ok((c, n)) => {
                &&& clause_arg_spec(tokens_view(tokens@), idx as int, kind, kind_span) == Ok::<
                    (AgentClauseView, int),
                    ParseOutcomeView,
                >((c@, n as int))
                &&& idx < n
                &&& eof_from(tokens_view(tokens@), n as int)
            },
            Err(e) => clause_arg_spec(tokens_view(tokens@), idx as int, kind, kind_span) == Err::<
                (AgentClauseView, int),
                ParseOutcomeView,
            >(e@),
        },
{
    let ghost t = tokens_view(tokens@);
    let tok = &tokens[idx];
    match kind {
        AgentClauseKind::Be => {
            let persona = match &tok.kind {
                TokenKind::Eof => {
                    return Err(
                        incomplete_out(
                            owned("BE requires a persona description."),
                            tok.span,
                            expect_one("'...'"),
                        ),
                    );
                },
                TokenKind::Word(x) => x.clone(),
                TokenKind::StringLit(x) => x.clone(),
                _ => {
                    return Err(
                        invalid_out(
                            owned("BE requires a persona description."),
                            tok.span,
                            expect_one("'...'"),
                        ),
                    );
                },
            };
            proof {
                lemma_eof_step(t, idx as int);
            }
            Ok(
                (
                    AgentClause::Be { persona, span: Span::new(kind_span.start, tok.span.end) },
                    idx + 1,
                ),
            )
        },
        AgentClauseKind::Reading => match parse_operand(tokens, idx, kind.as_str()) {
            Ok((operand, next)) => {
                let span = Span::new(kind_span.start, operand.span().end);
                Ok((AgentClause::Reading { operand, span }, next))
            },
            Err(outcome) => Err(outcome),
        },
        AgentClauseKind::Populating => match parse_operand(tokens, idx, kind.as_str()) {
            Ok((operand, next)) => {
                let span = Span::new(kind_span.start, operand.span().end);
                Ok((AgentClause::Populating { operand, span }, next))
            },
            Err(outcome) => Err(outcome),
        },
        AgentClauseKind::Think => {
            let w = match &tok.kind {
                TokenKind::Eof => {
                    return Err(
                        incomplete_out(
                            owned("THINK requires a numeric budget, e.g. THINK 80."),
                            tok.span,
                            expect_one("<number>"),
                        ),
                    );
                },
                TokenKind::Word(w) => w,
                _ => {
                    return Err(
                        invalid_out(
                            owned("THINK requires a numeric budget, e.g. THINK 80."),
                            tok.span,
                            expect_one("<number>"),
                        ),
                    );
                },
            };
            let chars = str_chars(w.as_str());
            proof {
                assert(chars@.subrange(0, chars@.len() as int) =~= w@);
            }
            match parse_u32(&chars, 0, chars.len()) {
                Some(budget) => {
                    proof {
                        lemma_eof_step(t, idx as int);
                    }
                    Ok(
                        (
                            AgentClause::Think {
                                budget,
                                span: Span::new(kind_span.start, tok.span.end),
                            },
                            idx + 1,
                        ),
                    )
                },
                None => Err(
                    invalid_out(
                        cat3("'", w.as_str(), "' is not a valid THINK budget (expected a number)."),
                        tok.span,
                        expect_one("<number>"),
                    ),
                ),
            }
        },
    }
}

/// A clause kind already given in an agent block is never suggested
/// again; every kind not given yet is, and so is the closing instruction.
pub proof fn law_given_clauses_are_not_suggested(used: Seq<AgentClauseView>, k: AgentClauseKind)
    ensures
        clause_used(used, k) ==> !agent_continuation_expected(used).contains(clause_kind_name(k)),
        !clause_used(used, k) ==> agent_continuation_expected(used).contains(clause_kind_name(k)),
        agent_continuation_expected(used).contains(quoted_placeholder()),
{
    reveal_strlit("'...'");
    let e = agent_continuation_expected(used);
    assert(e.last() == quoted_placeholder());
    assert(e[e.len() - 1] == quoted_placeholder());
    if clause_used(used, k) {
        if e.contains(clause_kind_name(k)) {
            let i = choose|i: int| 0 <= i < e.len() && e[i] == clause_kind_name(k);
            assert(clause_kind_name(k).len() != quoted_placeholder().len() || clause_kind_name(k)
                != quoted_placeholder());
            assert(false);
        }
    } else {
        let w = if_unused(used, AgentClauseKind::Be) + if_unused(used, AgentClauseKind::Reading)
            + if_unused(used, AgentClauseKind::Populating) + if_unused(used, AgentClauseKind::Think);
        assert(e == w + seq![quoted_placeholder()]);
        match k {
            AgentClauseKind::Be => assert(e[0] == clause_kind_name(k)),
            AgentClauseKind::Reading => {
                let j = if_unused(used, AgentClauseKind::Be).len() as int;
                assert(e[j] == clause_kind_name(k));
            },
            AgentClauseKind::Populating => {
                let j = (if_unused(used, AgentClauseKind::Be).len() + if_unused(
                    used,
                    AgentClauseKind::Reading,
                ).len()) as int;
                assert(e[j] == clause_kind_name(k));
            },
            AgentClauseKind::Think => {
                let j = (if_unused(used, AgentClauseKind::Be).len() + if_unused(
                    used,
                    AgentClauseKind::Reading,
                ).len() + if_unused(used, AgentClauseKind::Populating).len()) as int;
                assert(e[j] == clause_kind_name(k));
            },
        }
    }
}

/// The arguments a statement carries have the shape its operator takes:
/// none, a capability, a non-empty list of quotas, or a condition.
pub open spec fn args_fit_kind(kind: PolicyArgKind, args: PolicyArgsView) -> bool {
    match kind {
        PolicyArgKind::NoArgs => args is NoArgs,
        PolicyArgKind::Capability => args is Capability,
        PolicyArgKind::Quotas => args matches PolicyArgsView::Quotas(qs) && qs.len() > 0,
        PolicyArgKind::Condition => args is Condition,
    }
}

proof fn lemma_quotas_shape(
    t: Seq<TokenView>,
    idx: int,
    op: PolicyOperator,
    op_span: Span,
    acc: Seq<ResourceQuotaView>,
)
    ensures
        quotas_spec(t, idx, op, op_span, acc) matches ParseOutcomeView::Complete(l) ==> (l matches LineView::Policy(
            st,
        ) && st.operator == op && st.operator_span == op_span && args_fit_kind(PolicyArgKind::Quotas, st.args)),
    decreases t.len() - idx,
{
    if 0 <= idx < t.len() {
        match t[idx].kind {
            TokenKindView::Word(w) => match quota_spec(w, t[idx].span) {
                Ok(q) => lemma_quotas_shape(t, idx + 1, op, op_span, acc.push(q)),
                Err(_) => {},
            },
            _ => {},
        }
    }
}

/// A complete policy statement has the operator and span it was parsed
/// with, and arguments of the shape its operator takes; an operator that
/// takes no arguments is complete exactly when nothing follows it.
pub proof fn law_policy_args_fit_their_operator(t: Seq<TokenView>, idx: int, op: PolicyOperator, op_span: Span)
    ensures
        policy_args_spec(t, idx, op, op_span) matches ParseOutcomeView::Complete(l) ==> (l matches LineView::Policy(
            st,
        ) && st.operator == op && st.operator_span == op_span && args_fit_kind(policy_arg_kind(op), st.args)),
        policy_arg_kind(op) == PolicyArgKind::NoArgs ==> (policy_args_spec(t, idx, op, op_span) is Complete
            <==> is_eof(t[idx])),
{
    if policy_arg_kind(op) == PolicyArgKind::Quotas {
        lemma_quotas_shape(t, idx, op, op_span, Seq::empty());
    }
}

/// No two clauses of a block share a kind.
pub open spec fn clause_kinds_distinct(clauses: Seq<AgentClauseView>) -> bool {
    forall|i: int, j: int|
        0 <= i < j < clauses.len() ==> clause_kind_of(#[trigger] clauses[i]) != clause_kind_of(
            #[trigger] clauses[j],
        )
}

proof fn lemma_clause_arg_kind(t: Seq<TokenView>, idx: int, kind: AgentClauseKind, kind_span: Span)
    ensures
        clause_arg_spec(t, idx, kind, kind_span) matches Ok((c, _)) ==> clause_kind_of(c) == kind,
{
}

proof fn lemma_agent_clauses_distinct(
    t: Seq<TokenView>,
    idx: int,
    verb: AgentVerb,
    verb_span: Span,
    target: Seq<char>,
    target_span: Span,
    clauses: Seq<AgentClauseView>,
)
    requires
        clause_kinds_distinct(clauses),
    ensures
        agent_clauses_spec(t, idx, verb, verb_span, target, target_span, clauses) matches ParseOutcomeView::Complete(
            LineView::Agent(b),
        ) ==> clause_kinds_distinct(b.clauses),
    decreases t.len() - idx,
{
    if 0 <= idx < t.len() {
        if let TokenKindView::Word(w) = t[idx].kind {
            if let Some(kind) = clause_kind_from_name(upper(w)) {
                if !clause_used(clauses, kind) {
                    if let Ok((clause, next)) = clause_arg_spec(t, idx + 1, kind, t[idx].span) {
                        if idx < next <= t.len() {
                            lemma_clause_arg_kind(t, idx + 1, kind, t[idx].span);
                            let n = clauses.push(clause);
                            assert forall|a: int, b: int| 0 <= a < b < n.len() implies clause_kind_of(
                                #[trigger] n[a],
                            ) != clause_kind_of(#[trigger] n[b]) by {
                                if b == clauses.len() {
                                    assert(n[a] == clauses[a]);
                                    if clause_kind_of(clauses[a]) == kind {
                                        assert(clause_used(clauses, kind));
                                    }
                                } else {
                                    assert(n[a] == clauses[a] && n[b] == clauses[b]);
                                }
                            }
                            lemma_agent_clauses_distinct(t, next, verb, verb_span, target, target_span, n);
                        }
                    }
                }
            }
        }
    }
}

/// The clauses of a complete agent block are of pairwise distinct kinds:
/// each of `BE`, `READING`, `POPULATING` and `THINK` is given at most once.
pub proof fn law_agent_clause_kinds_are_distinct(input: Seq<char>)
    ensures
        parse_line_spec(input) matches ParseOutcomeView::Complete(LineView::Agent(b)) ==> clause_kinds_distinct(
            b.clauses,
        ),
{
    law_parsed_agent_clause_kinds_are_distinct(lex(input));
}

/// The same for any token list, lexed or not: a complete agent block that
/// `parse_tokens` builds has clauses of pairwise distinct kinds.
#[verifier::rlimit(40)]
pub proof fn law_parsed_agent_clause_kinds_are_distinct(t: Seq<TokenView>)
    ensures
        parse_spec(t) matches ParseOutcomeView::Complete(LineView::Agent(b)) ==> clause_kinds_distinct(b.clauses),
{
    match t[0].kind {
        TokenKindView::At => {
            let tok = t[1];
            if let TokenKindView::Word(w) = tok.kind {
                if let Some(verb) = agent_verb_from_name(upper(w)) {
                    let target_tok = t[2];
                    match target_tok.kind {
                        TokenKindView::Word(x) => lemma_agent_clauses_distinct(
                            t,
                            3,
                            verb,
                            tok.span,
                            x,
                            target_tok.span,
                            Seq::empty(),
                        ),
                        TokenKindView::StringLit(x) => lemma_agent_clauses_distinct(
                            t,
                            3,
                            verb,
                            tok.span,
                            x,
                            target_tok.span,
                            Seq::empty(),
                        ),
                        _ => {},
                    }
                }
            }
        },
        TokenKindView::Bang => {
            let tok = t[1];
            if let TokenKindView::Word(w) = tok.kind {
                if let Some(op) = policy_from_name(upper(w)) {
                    lemma_quotas_shape(t, 2, op, tok.span, Seq::empty());
                }
            }
        },
        TokenKindView::Pound => lemma_pound_not_agent(t),
        _ => {},
    }
}

#[verifier::rlimit(40)]
proof fn lemma_pound_not_agent(t: Seq<TokenView>)
    ensures
        !(after_pound_spec(t, 1) matches ParseOutcomeView::Complete(LineView::Agent(_))),
{
}

/// A quoted path after an ownership word is accepted exactly like a bare
/// one: the operand is owned with that word's kind, its path is the
/// literal's text, and it spans both tokens.
pub proof fn law_quoted_path_is_accepted_like_a_bare_one(
    t: Seq<TokenView>,
    idx: int,
    context: Seq<char>,
    w: Seq<char>,
    kind: OwnershipKind,
    p: Seq<char>,
)
    requires
        0 <= idx,
        idx + 1 < t.len(),
        t[idx].kind == TokenKindView::Word(w),
        ownership_from_name(upper(w)) == Some(kind),
        t[idx + 1].kind == TokenKindView::StringLit(p),
    ensures
        operand_spec(t, idx, context) == Ok::<(OperandView, int), ParseOutcomeView>(
            (
                OperandView::Owned { kind, path: p, span: Span { start: t[idx].span.start, end: t[idx + 1].span.end } },
                idx + 2,
            ),
        ),
        operand_spec(t.update(idx + 1, TokenView { kind: TokenKindView::Word(p), span: t[idx + 1].span }), idx, context)
            == operand_spec(t, idx, context),
{
    let u = t.update(idx + 1, TokenView { kind: TokenKindView::Word(p), span: t[idx + 1].span });
    assert(u[idx] == t[idx]);
    assert(u[idx + 1].span == t[idx + 1].span);
}

/// `£ VERB OWNER 'path'` is a complete command whose operand is the owned,
/// quoted path.
pub proof fn law_quoted_owned_path_command(
    t: Seq<TokenView>,
    v: Seq<char>,
    verb: Verb,
    o: Seq<char>,
    kind: OwnershipKind,
    p: Seq<char>,
)
    requires
        t.len() == 5,
        t[0].kind == TokenKindView::Pound,
        t[1].kind == TokenKindView::Word(v),
        !eq_ignore_ascii_case(v, "THEY"@),
        verb_from_name(upper(v)) == Some(verb),
        t[2].kind == TokenKindView::Word(o),
        ownership_from_name(upper(o)) == Some(kind),
        t[3].kind == TokenKindView::StringLit(p),
        t[4].kind == TokenKindView::Eof,
    ensures
        parse_spec(t) == ParseOutcomeView::Complete(
            LineView::Command(
                CommandView::Imperative(
                    ImperativeCommandView {
                        verb,
                        verb_span: t[1].span,
                        operand: Some(
                            OperandView::Owned { kind, path: p, span: Span { start: t[2].span.start, end: t[3].span.end } },
                        ),
                        destination: None,
                        dependency: None,
                    },
                ),
            ),
        ),
{
    law_quoted_path_is_accepted_like_a_bare_one(t, 2, verb_name(verb), o, kind, p);
}

} // verus!
