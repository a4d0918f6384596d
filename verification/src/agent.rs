//! Agent blocks: validates an `@ TELL`/`@ TEAM` block into an intent.
//!
//! `READING`/`POPULATING` clauses carry the same operands imperative
//! commands use, and get the same ownership and reference validation.
use vstd::prelude::*;

use crate::ast::{clauses_view, AgentBlock, AgentClause, AgentClauseView, OperandView};
use crate::diagnostics::{diagnostics_view, Diagnostic, DiagnosticView};
use crate::reference::{ReferenceContext, ResolvedObjectView};
use crate::semantic::{check_operand, operand_diagnostics, operand_resolved, IdentityContext};

verus! {

/// An agent block whose `READING`/`POPULATING` clauses passed ownership
/// and reference validation.
#[derive(Debug, Clone)]
pub struct ValidatedAgentBlock {
    pub block: AgentBlock,
}

/// The operand a clause carries, if it carries one.
pub open spec fn clause_operand(c: AgentClauseView) -> Option<OperandView> {
    match c {
        AgentClauseView::Reading { operand, .. } => Some(operand),
        AgentClauseView::Populating { operand, .. } => Some(operand),
        _ => None,
    }
}

/// The diagnostics of the clauses, in order.
pub open spec fn clauses_diagnostics(
    cs: Seq<AgentClauseView>,
    identity: Seq<Seq<char>>,
    references: Option<ResolvedObjectView>,
) -> Seq<DiagnosticView>
    decreases cs.len(),
{
    if cs.len() == 0 {
        Seq::empty()
    } else {
        clauses_diagnostics(cs.drop_last(), identity, references) + operand_diagnostics(
            clause_operand(cs.last()),
            identity,
            references,
        )
    }
}

proof fn lemma_no_diagnostics_resolved(
    cs: Seq<AgentClauseView>,
    identity: Seq<Seq<char>>,
    references: Option<ResolvedObjectView>,
)
    requires
        clauses_diagnostics(cs, identity, references).len() == 0,
    ensures
        forall|i: int|
            0 <= i < cs.len() ==> operand_resolved(clause_operand(#[trigger] cs[i]), identity, references),
    decreases cs.len(),
{
    if cs.len() > 0 {
        lemma_no_diagnostics_resolved(cs.drop_last(), identity, references);
        assert forall|i: int| 0 <= i < cs.len() implies operand_resolved(
            clause_operand(#[trigger] cs[i]),
            identity,
            references,
        ) by {
            if i < cs.len() - 1 {
                assert(cs[i] == cs.drop_last()[i]);
            }
        }
    }
}

/// Validates the operands of the block's clauses. On success every
/// `READING`/`POPULATING` operand is resolved; on failure every diagnostic
/// is returned, and there is at least one.
pub fn validate(block: AgentBlock, identity: &IdentityContext, references: &ReferenceContext) -> (r: Result<
    ValidatedAgentBlock,
    Vec<Diagnostic>,
>)
    ensures
        match r {
            Ok(v) => v.block@ == block@ && clauses_diagnostics(
                clauses_view(block.clauses@),
                identity@,
                references@,
            ).len() == 0,
            Err(ds) => diagnostics_view(ds@) == clauses_diagnostics(
                clauses_view(block.clauses@),
                identity@,
                references@,
            ) && ds@.len() > 0,
        },
        r is Ok ==> forall|i: int|
            0 <= i < block.clauses@.len() ==> operand_resolved(
                clause_operand(#[trigger] clauses_view(block.clauses@)[i]),
                identity@,
                references@,
            ),
{
    let ghost cs = clauses_view(block.clauses@);
    let mut diagnostics: Vec<Diagnostic> = Vec::new();
    let mut i: usize = 0;
    assert(diagnostics_view(diagnostics@) =~= clauses_diagnostics(cs.take(0), identity@, references@));
    while i < block.clauses.len()
        invariant
            0 <= i <= block.clauses@.len(),
            cs == clauses_view(block.clauses@),
            diagnostics_view(diagnostics@) == clauses_diagnostics(cs.take(i as int), identity@, references@),
        decreases block.clauses@.len() - i,
    {
        proof {
            assert(cs.take(i + 1).drop_last() =~= cs.take(i as int));
            assert(cs.take(i + 1).last() == block.clauses@[i as int]@);
        }
        match &block.clauses[i] {
            AgentClause::Reading { operand, .. } => {
                check_operand(Some(operand), identity, references, &mut diagnostics);
            },
            AgentClause::Populating { operand, .. } => {
                check_operand(Some(operand), identity, references, &mut diagnostics);
            },
            _ => {
                assert(diagnostics_view(diagnostics@) =~= diagnostics_view(diagnostics@) + Seq::<
                    DiagnosticView,
                >::empty());
            },
        }
        i += 1;
    }
    assert(cs.take(i as int) =~= cs);
    if diagnostics.len() > 0 {
        return Err(diagnostics);
    }
    proof {
        lemma_no_diagnostics_resolved(cs, identity@, references@);
    }
    Ok(ValidatedAgentBlock { block })
}

} // verus!
