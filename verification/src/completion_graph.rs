//! Dynamic completion: live candidates for the operand being typed, from
//! what it resolves against (installed binaries or filesystem entries).
//! Listing them is I/O and happens outside this library; here is the part
//! that decides whether anything is listed, and what.
use vstd::prelude::*;
use vstd::string::*;

use crate::ast::{
    CommandView, ImperativeCommand, ImperativeCommandView, LineView, Operand, OperandView,
    OwnershipKind, Verb, operand_span,
};
use crate::parser::{parse_line, parse_line_spec, ParseOutcome, ParseOutcomeView};
use crate::resolve::{resolvers_for, resolvers_spec, ResolverKind};
use crate::text::{is_whitespace, is_ws, str_chars, utf8_len};

verus! {

/// What the live candidates for an operand come from.
#[derive(Debug, Clone, PartialEq, Eq)]
pub enum DynamicQuery {
    /// Nothing is listed.
    NoCandidates,
    /// Installed binaries whose names start with `prefix`, searched as
    /// `domain` searches.
    Binaries { prefix: String, domain: OwnershipKind },
    /// Filesystem entries matching a partial path.
    PathEntries { partial: String },
}

pub enum DynamicQueryView {
    NoCandidates,
    Binaries { prefix: Seq<char>, domain: OwnershipKind },
    PathEntries { partial: Seq<char> },
}

impl View for DynamicQuery {
    type V = DynamicQueryView;

    open spec fn view(&self) -> DynamicQueryView {
        match self {
            DynamicQuery::NoCandidates => DynamicQueryView::NoCandidates,
            DynamicQuery::Binaries { prefix, domain } => DynamicQueryView::Binaries {
                prefix: prefix@,
                domain: *domain,
            },
            DynamicQuery::PathEntries { partial } => DynamicQueryView::PathEntries { partial: partial@ },
        }
    }
}

/// The operand that ends exactly where the input ends: the destination if
/// it does, else the operand.
pub open spec fn trailing_operand_spec(c: ImperativeCommandView, input_len: int) -> Option<OperandView> {
    match c.destination {
        Some(d) if operand_span(d).end == input_len => Some(d),
        _ => match c.operand {
            Some(o) if operand_span(o).end == input_len => Some(o),
            _ => None,
        },
    }
}

/// The verb and the operand being typed at the end of `input`, when the
/// input is a complete command that does not end in white space.
pub open spec fn trailing_target_spec(input: Seq<char>) -> Option<(Verb, OperandView)> {
    if input.len() == 0 || is_ws(input.last()) {
        None
    } else {
        match parse_line_spec(input) {
            ParseOutcomeView::Complete(LineView::Command(CommandView::Imperative(c))) => match trailing_operand_spec(
                c,
                utf8_len(input) as int,
            ) {
                Some(o) => Some((c.verb, o)),
                None => None,
            },
            _ => None,
        }
    }
}

/// What to list for an operand, given the resolvers its verb uses.
pub open spec fn dynamic_query_spec(o: OperandView, resolvers: Seq<ResolverKind>) -> DynamicQueryView {
    match o {
        OperandView::Owned { kind, path, .. } => if resolvers.contains(ResolverKind::InstalledBinary) {
            DynamicQueryView::Binaries { prefix: path, domain: kind }
        } else if resolvers.contains(ResolverKind::FilesystemPath) {
            DynamicQueryView::PathEntries { partial: path }
        } else {
            DynamicQueryView::NoCandidates
        },
        OperandView::StringArg { value, .. } => if resolvers.contains(ResolverKind::InstalledBinary) {
            if exists|i: int| 0 <= i < value.len() && is_ws(#[trigger] value[i]) {
                DynamicQueryView::NoCandidates
            } else {
                DynamicQueryView::Binaries { prefix: value, domain: OwnershipKind::My }
            }
        } else {
            DynamicQueryView::NoCandidates
        },
        _ => DynamicQueryView::NoCandidates,
    }
}

fn trailing_operand(cmd: &ImperativeCommand, input_len: usize) -> (r: Option<&Operand>)
    ensures
        match r {
            Some(o) => trailing_operand_spec(cmd@, input_len as int) == Some(o@),
            None => trailing_operand_spec(cmd@, input_len as int) is None,
        },
{
    if let Some(dest) = &cmd.destination {
        if dest.span().end == input_len {
            return Some(dest);
        }
    }
    if let Some(op) = &cmd.operand {
        if op.span().end == input_len {
            return Some(op);
        }
    }
    None
}

/// The verb and the operand being typed at the end of `input`, if the
/// input is a complete command whose last operand is still being typed.
pub fn trailing_target(input: &str) -> (r: Option<(Verb, Operand)>)
    ensures
        match r {
            Some((v, o)) => trailing_target_spec(input@) == Some((v, o@)),
            None => trailing_target_spec(input@) is None,
        },
{
    let chars = str_chars(input);
    if chars.len() == 0 || is_whitespace(chars[chars.len() - 1]) {
        return None;
    }
    let n = input.as_bytes().len();
    proof {
        assert(utf8_len(input@) == n);
    }
    match parse_line(input) {
        ParseOutcome::Complete(crate::ast::Line::Command(crate::ast::Command::Imperative(cmd))) => {
            match trailing_operand(&cmd, n) {
                Some(o) => Some((cmd.verb, o.duplicate())),
                None => None,
            }
        },
        _ => None,
    }
}

fn has_resolver(resolvers: &Vec<ResolverKind>, k: ResolverKind) -> (r: bool)
    ensures
        r == resolvers@.contains(k),
{
    let mut i: usize = 0;
    while i < resolvers.len()
        invariant
            0 <= i <= resolvers@.len(),
            forall|j: int| 0 <= j < i ==> resolvers@[j] != k,
        decreases resolvers@.len() - i,
    {
        if resolvers[i] == k {
            return true;
        }
        i += 1;
    }
    false
}

fn has_whitespace(s: &String) -> (r: bool)
    ensures
        r == exists|i: int| 0 <= i < s@.len() && is_ws(#[trigger] s@[i]),
{
    let chars = str_chars(s.as_str());
    let mut i: usize = 0;
    while i < chars.len()
        invariant
            chars@ == s@,
            0 <= i <= chars@.len(),
            forall|j: int| 0 <= j < i ==> !is_ws(#[trigger] chars@[j]),
        decreases chars@.len() - i,
    {
        if is_whitespace(chars[i]) {
            return true;
        }
        i += 1;
    }
    false
}

/// What to list for the operand being typed, given its verb's resolvers:
/// binaries for a binary-taking verb (a quoted command only while its
/// program name is typed, before any argument), filesystem entries for a
/// path-taking one, else nothing.
pub fn dynamic_query(operand: &Operand, resolvers: &Vec<ResolverKind>) -> (r: DynamicQuery)
    ensures
        r@ == dynamic_query_spec(operand@, resolvers@),
{
    match operand {
        Operand::Owned { kind, path, .. } => {
            if has_resolver(resolvers, ResolverKind::InstalledBinary) {
                DynamicQuery::Binaries { prefix: path.clone(), domain: *kind }
            } else if has_resolver(resolvers, ResolverKind::FilesystemPath) {
                DynamicQuery::PathEntries { partial: path.clone() }
            } else {
                DynamicQuery::NoCandidates
            }
        },
        Operand::StringArg { value, .. } => {
            if has_resolver(resolvers, ResolverKind::InstalledBinary) {
                if has_whitespace(value) {
                    DynamicQuery::NoCandidates
                } else {
                    DynamicQuery::Binaries { prefix: value.clone(), domain: OwnershipKind::My }
                }
            } else {
                DynamicQuery::NoCandidates
            }
        },
        _ => DynamicQuery::NoCandidates,
    }
}

/// What to list for `input` as it stands: nothing unless a complete
/// command's last operand is still being typed, else what that operand's
/// verb resolves against asks for.
pub open spec fn dynamic_request_spec(input: Seq<char>) -> DynamicQueryView {
    match trailing_target_spec(input) {
        Some((verb, o)) => dynamic_query_spec(o, resolvers_spec(verb)),
        None => DynamicQueryView::NoCandidates,
    }
}

/// The listing that dynamic completion of `input` needs.
pub fn dynamic_request(input: &str) -> (r: DynamicQuery)
    ensures
        r@ == dynamic_request_spec(input@),
{
    match trailing_target(input) {
        Some((verb, operand)) => dynamic_query(&operand, &resolvers_for(verb)),
        None => DynamicQuery::NoCandidates,
    }
}

} // verus!
