//! The one-line descriptions an accepted command, policy statement or
//! agent block is echoed back as.
use vstd::prelude::*;
use vstd::string::*;

use crate::ast::{agent_verb_name, clauses_view, condition_name, ownership_name, policy_name, quotas_view, reference_name, strings_view, verb_name, AgentBlock, AgentBlockView, AgentClause, AgentClauseView, Command, CommandView, Operand, OperandView, PolicyArgs, PolicyArgsView, PolicyStatement, PolicyStatementView, ResourceQuotaView};
use crate::text::{decimal, decimal_string, owned};

verus! {

/// How `{:?}` writes one string: quoted, with its special characters
/// escaped.
pub uninterp spec fn debug_text(s: Seq<char>) -> Seq<char>;

/// Calls `format!("{:?}", s)` on a `&str`; its result is named
/// `debug_text` of the characters of `s`. The escaping rules of `Debug`
/// for strings are not stated.
#[verifier::external_body]
fn debug_str(s: &str) -> (r: String)
    ensures
        r@ == debug_text(s@),
{
    format!("{:?}", s)
}

/// The entries of a list as `{:?}` writes them, separated by `, `.
pub open spec fn debug_entries(items: Seq<Seq<char>>) -> Seq<char>
    decreases items.len(),
{
    if items.len() == 0 {
        Seq::empty()
    } else if items.len() == 1 {
        debug_text(items[0])
    } else {
        debug_entries(items.drop_last()) + ", "@ + debug_text(items.last())
    }
}

/// How `{:?}` writes a list of strings: the entries in brackets.
pub open spec fn debug_list(items: Seq<Seq<char>>) -> Seq<char> {
    "["@ + debug_entries(items) + "]"@
}

/// Writes `items` as `{:?}` writes a `Vec<String>`.
fn debug_strings(items: &Vec<String>) -> (r: String)
    ensures
        r@ == debug_list(strings_view(items@)),
{
    let ghost v = strings_view(items@);
    let mut r = String::from_str("[");
    let mut i: usize = 0;
    while i < items.len()
        invariant
            0 <= i <= items@.len(),
            v == strings_view(items@),
            r@ == "["@ + debug_entries(v.take(i as int)),
        decreases items@.len() - i,
    {
        if i > 0 {
            r.append(", ");
        }
        let d = debug_str(items[i].as_str());
        r.append(d.as_str());
        proof {
            assert(v.take(i + 1).drop_last() =~= v.take(i as int));
            assert(v[i as int] == items@[i as int]@);
            if i == 0 {
                assert(v.take(0) =~= Seq::<Seq<char>>::empty());
            }
        }
        i += 1;
    }
    r.append("]");
    assert(v.take(i as int) =~= v);
    r
}

pub open spec fn describe_operand_spec(o: OperandView) -> Seq<char> {
    match o {
        OperandView::Owned { kind, path, .. } => ownership_name(kind) + " "@ + path,
        OperandView::Reference { kind, .. } => reference_name(kind),
        OperandView::StringArg { value, .. } => "'"@ + value + "'"@,
    }
}

pub open spec fn describe_spec(c: CommandView) -> Seq<char> {
    match c {
        CommandView::Imperative(cmd) => {
            let with_operand = match cmd.operand {
                Some(o) => verb_name(cmd.verb) + " "@ + describe_operand_spec(o),
                None => verb_name(cmd.verb),
            };
            let with_destination = match cmd.destination {
                Some(d) => with_operand + " to "@ + describe_operand_spec(d),
                None => with_operand,
            };
            match cmd.dependency {
                Some(dep) => with_destination + " WHEN "@ + reference_name(dep.reference) + " "@
                    + condition_name(dep.condition),
                None => with_destination,
            }
        },
        CommandView::Identity(d) => "THEY are "@ + debug_list(d.members),
    }
}

/// ` N%RESOURCE` for each quota, in order.
pub open spec fn describe_quotas(qs: Seq<ResourceQuotaView>) -> Seq<char>
    decreases qs.len(),
{
    if qs.len() == 0 {
        Seq::empty()
    } else {
        describe_quotas(qs.drop_last()) + " "@ + decimal(qs.last().percent as nat) + "%"@
            + qs.last().resource
    }
}

pub open spec fn describe_policy_spec(s: PolicyStatementView) -> Seq<char> {
    policy_name(s.operator) + match s.args {
        PolicyArgsView::NoArgs => Seq::empty(),
        PolicyArgsView::Capability { name, .. } => " '"@ + name + "'"@,
        PolicyArgsView::Quotas(qs) => describe_quotas(qs),
        PolicyArgsView::Condition { text, .. } => " "@ + text,
    }
}

pub open spec fn describe_clause(c: AgentClauseView) -> Seq<char> {
    match c {
        AgentClauseView::Be { persona, .. } => "BE \""@ + persona + "\""@,
        AgentClauseView::Reading { operand, .. } => "READING "@ + describe_operand_spec(operand),
        AgentClauseView::Populating { operand, .. } => "POPULATING "@ + describe_operand_spec(operand),
        AgentClauseView::Think { budget, .. } => "THINK "@ + decimal(budget as nat),
    }
}

/// ` CLAUSE` for each clause, in order.
pub open spec fn describe_clauses(cs: Seq<AgentClauseView>) -> Seq<char>
    decreases cs.len(),
{
    if cs.len() == 0 {
        Seq::empty()
    } else {
        describe_clauses(cs.drop_last()) + " "@ + describe_clause(cs.last())
    }
}

pub open spec fn describe_agent_spec(b: AgentBlockView) -> Seq<char> {
    agent_verb_name(b.verb) + " '"@ + b.target + "'"@ + describe_clauses(b.clauses) + " \""@
        + b.instruction + "\""@
}

pub fn describe_operand(operand: &Operand) -> (r: String)
    ensures
        r@ == describe_operand_spec(operand@),
{
    match operand {
        Operand::Owned { kind, path, .. } => {
            let mut s = String::from_str(kind.as_str());
            s.append(" ");
            s.append(path.as_str());
            s
        },
        Operand::Reference { kind, .. } => owned(kind.as_str()),
        Operand::StringArg { value, .. } => {
            let mut s = String::from_str("'");
            s.append(value.as_str());
            s.append("'");
            s
        },
    }
}

/// The description of an accepted command.
pub fn describe(command: &Command) -> (r: String)
    ensures
        r@ == describe_spec(command@),
{
    match command {
        Command::Imperative(cmd) => {
            let mut s = String::from_str(cmd.verb.as_str());
            if let Some(op) = &cmd.operand {
                s.append(" ");
                let d = describe_operand(op);
                s.append(d.as_str());
            }
            if let Some(dest) = &cmd.destination {
                s.append(" to ");
                let d = describe_operand(dest);
                s.append(d.as_str());
            }
            if let Some(dep) = &cmd.dependency {
                s.append(" WHEN ");
                s.append(dep.reference.as_str());
                s.append(" ");
                s.append(dep.condition.as_str());
            }
            s
        },
        Command::Identity(decl) => {
            let mut s = String::from_str("THEY are ");
            let list = debug_strings(&decl.members);
            s.append(list.as_str());
            s
        },
    }
}

/// The description of an accepted policy statement.
pub fn describe_policy(stmt: &PolicyStatement) -> (r: String)
    ensures
        r@ == describe_policy_spec(stmt@),
{
    let mut s = String::from_str(stmt.operator.as_str());
    let ghost head = s@;
    match &stmt.args {
        PolicyArgs::NoArgs => {
            assert(s@ =~= head + Seq::<char>::empty());
        },
        PolicyArgs::Capability { name, .. } => {
            s.append(" '");
            s.append(name.as_str());
            s.append("'");
        },
        PolicyArgs::Quotas(quotas) => {
            let ghost qs = quotas_view(quotas@);
            let mut i: usize = 0;
            assert(s@ =~= head + describe_quotas(qs.take(0)));
            while i < quotas.len()
                invariant
                    0 <= i <= quotas@.len(),
                    qs == quotas_view(quotas@),
                    s@ == head + describe_quotas(qs.take(i as int)),
                decreases quotas@.len() - i,
            {
                let q = &quotas[i];
                proof {
                    assert(qs.take(i + 1).drop_last() =~= qs.take(i as int));
                    assert(qs.take(i + 1).last() == q@);
                }
                s.append(" ");
                let digits = decimal_string(q.percent);
                s.append(digits.as_str());
                s.append("%");
                s.append(q.resource.as_str());
                i += 1;
            }
            assert(qs.take(i as int) =~= qs);
        },
        PolicyArgs::Condition { text, .. } => {
            s.append(" ");
            s.append(text.as_str());
        },
    }
    s
}

fn describe_agent_clause(clause: &AgentClause) -> (r: String)
    ensures
        r@ == describe_clause(clause@),
{
    match clause {
        AgentClause::Be { persona, .. } => {
            let mut s = String::from_str("BE \"");
            s.append(persona.as_str());
            s.append("\"");
            s
        },
        AgentClause::Reading { operand, .. } => {
            let mut s = String::from_str("READING ");
            let d = describe_operand(operand);
            s.append(d.as_str());
            s
        },
        AgentClause::Populating { operand, .. } => {
            let mut s = String::from_str("POPULATING ");
            let d = describe_operand(operand);
            s.append(d.as_str());
            s
        },
        AgentClause::Think { budget, .. } => {
            let mut s = String::from_str("THINK ");
            let digits = decimal_string(*budget);
            s.append(digits.as_str());
            s
        },
    }
}

/// The description of an accepted agent block.
pub fn describe_agent(block: &AgentBlock) -> (r: String)
    ensures
        r@ == describe_agent_spec(block@),
{
    let mut s = String::from_str(block.verb.as_str());
    s.append(" '");
    s.append(block.target.as_str());
    s.append("'");
    let ghost head = s@;
    let ghost cs = clauses_view(block.clauses@);
    let mut i: usize = 0;
    assert(s@ =~= head + describe_clauses(cs.take(0)));
    while i < block.clauses.len()
        invariant
            0 <= i <= block.clauses@.len(),
            cs == clauses_view(block.clauses@),
            s@ == head + describe_clauses(cs.take(i as int)),
        decreases block.clauses@.len() - i,
    {
        proof {
            assert(cs.take(i + 1).drop_last() =~= cs.take(i as int));
            assert(cs.take(i + 1).last() == block.clauses@[i as int]@);
        }
        s.append(" ");
        let d = describe_agent_clause(&block.clauses[i]);
        s.append(d.as_str());
        i += 1;
    }
    assert(cs.take(i as int) =~= cs);
    s.append(" \"");
    s.append(block.instruction.as_str());
    s.append("\"");
    s
}

} // verus!
