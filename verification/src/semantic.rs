//! Semantic validation: ownership and reference resolution.
//!
//! A grammatically complete command can still be invalid: `THEIR` before
//! any identity is established, or `THIS`/`THAT` before anything has been
//! established to refer to. A command that passes validation holds no
//! unresolved ownership expression and no unresolved reference.
use vstd::prelude::*;
use vstd::string::*;

use crate::ast::{strings_view, Command, CommandView, ImperativeCommand, ImperativeCommandView, Operand, OperandView, OwnershipKind, reference_name};
use crate::diagnostics::{diagnostic_view, diagnostics_view, Diagnostic, DiagnosticKind, DiagnosticView};
use crate::reference::{opt_object_view, ReferenceContext, ResolvedObject, ResolvedObjectView};

verus! {

/// The identity context `THEIR` resolves against, established by
/// `£ THEY are "alice,bob"`.
#[derive(Debug, Clone)]
pub struct IdentityContext {
    members: Vec<String>,
}

impl View for IdentityContext {
    type V = Seq<Seq<char>>;

    closed spec fn view(&self) -> Seq<Seq<char>> {
        strings_view(self.members@)
    }
}

impl IdentityContext {
    /// A context with no identity established.
    pub fn new() -> (r: Self)
        ensures
            r@ == Seq::<Seq<char>>::empty(),
    {
        let r = IdentityContext { members: Vec::new() };
        assert(r@ =~= Seq::<Seq<char>>::empty());
        r
    }

    /// Whether an identity is established: at least one member is known.
    pub fn established(&self) -> (r: bool)
        ensures
            r == (self@.len() > 0),
    {
        self.members.len() > 0
    }

    /// Establishes `members` as the identity.
    pub fn set(&mut self, members: Vec<String>)
        ensures
            final(self)@ == strings_view(members@),
    {
        self.members = members;
    }

    /// The members of the identity.
    pub fn members(&self) -> (r: &[String])
        ensures
            strings_view(r@) == self@,
    {
        self.members.as_slice()
    }
}

impl Default for IdentityContext {
    fn default() -> (r: Self)
        ensures
            r@ == Seq::<Seq<char>>::empty(),
    {
        IdentityContext::new()
    }
}

/// A command that passed ownership and reference validation, with the
/// object it establishes for a later `THIS`/`THAT`.
#[derive(Debug, Clone)]
pub struct ValidatedCommand {
    pub command: Command,
    pub establishes: Option<ResolvedObject>,
}

pub struct ValidatedCommandView {
    pub command: CommandView,
    pub establishes: Option<ResolvedObjectView>,
}

impl View for ValidatedCommand {
    type V = ValidatedCommandView;

    open spec fn view(&self) -> ValidatedCommandView {
        ValidatedCommandView { command: self.command@, establishes: opt_object_view(self.establishes) }
    }
}

pub open spec fn their_message() -> Seq<char> {
    "THEIR cannot be used before an identity is established (e.g. \u{a3} THEY are \"alice,bob\")."@
}

/// The diagnostics one operand raises: `THEIR` with no identity, or a
/// reference that resolves to nothing.
pub open spec fn operand_diagnostics(
    operand: Option<OperandView>,
    identity: Seq<Seq<char>>,
    references: Option<ResolvedObjectView>,
) -> Seq<DiagnosticView> {
    match operand {
        Some(OperandView::Owned { kind, span, .. }) => if kind == OwnershipKind::Their
            && identity.len() == 0 {
            seq![diagnostic_view(DiagnosticKind::Invalid, their_message(), span, Seq::empty())]
        } else {
            Seq::empty()
        },
        Some(OperandView::Reference { kind, span }) => if references is None {
            seq![
                diagnostic_view(
                    DiagnosticKind::Invalid,
                    reference_name(kind) + " does not refer to anything yet."@,
                    span,
                    Seq::empty(),
                ),
            ]
        } else {
            Seq::empty()
        },
        _ => Seq::empty(),
    }
}

/// Whether an operand is resolved: `THEIR` only with an identity, a
/// reference only when something was established.
pub open spec fn operand_resolved(
    operand: Option<OperandView>,
    identity: Seq<Seq<char>>,
    references: Option<ResolvedObjectView>,
) -> bool {
    match operand {
        Some(OperandView::Owned { kind, .. }) => kind == OwnershipKind::Their ==> identity.len() > 0,
        Some(OperandView::Reference { .. }) => references is Some,
        _ => true,
    }
}

/// What a command establishes for a later `THIS`/`THAT`: its destination
/// if it has one, else its operand.
pub open spec fn established_by(
    c: ImperativeCommandView,
    references: Option<ResolvedObjectView>,
) -> Option<ResolvedObjectView> {
    let target = match c.destination {
        Some(d) => Some(d),
        None => c.operand,
    };
    match target {
        None => None,
        Some(OperandView::Owned { path, .. }) => Some(ResolvedObjectView::Path(path)),
        Some(OperandView::Reference { .. }) => references,
        Some(OperandView::StringArg { value, .. }) => Some(ResolvedObjectView::Text(value)),
    }
}

/// The validation of `command` against the identity and reference
/// contexts: the command with what it establishes, or every diagnostic.
pub open spec fn validate_spec(
    command: CommandView,
    identity: Seq<Seq<char>>,
    references: Option<ResolvedObjectView>,
) -> Result<ValidatedCommandView, Seq<DiagnosticView>> {
    match command {
        CommandView::Identity(_) => Ok(ValidatedCommandView { command, establishes: None }),
        CommandView::Imperative(c) => {
            let diags = operand_diagnostics(c.operand, identity, references) + operand_diagnostics(
                c.destination,
                identity,
                references,
            );
            if diags.len() > 0 {
                Err(diags)
            } else {
                Ok(ValidatedCommandView { command, establishes: established_by(c, references) })
            }
        },
    }
}

/// Appends the diagnostics `operand` raises to `diagnostics`.
pub fn check_operand(
    operand: Option<&Operand>,
    identity: &IdentityContext,
    references: &ReferenceContext,
    diagnostics: &mut Vec<Diagnostic>,
)
    ensures
        diagnostics_view(final(diagnostics)@) == diagnostics_view(old(diagnostics)@)
            + operand_diagnostics(
            match operand {
                Some(o) => Some(o@),
                None => None,
            },
            identity@,
            references@,
        ),
{
    let ghost before = diagnostics_view(diagnostics@);
    match operand {
        None => {
            assert(diagnostics_view(diagnostics@) =~= before + Seq::<DiagnosticView>::empty());
        },
        Some(o) => match o {
            Operand::Owned { kind, span, .. } => {
                if *kind == OwnershipKind::Their && !identity.established() {
                    let d = Diagnostic::invalid(
                        String::from_str(
                            "THEIR cannot be used before an identity is established (e.g. \u{a3} THEY are \"alice,bob\").",
                        ),
                        *span,
                        Vec::new(),
                    );
                    assert(strings_view(Seq::<String>::empty()) =~= Seq::<Seq<char>>::empty());
                    diagnostics.push(d);
                    assert(diagnostics_view(diagnostics@) =~= before + seq![d@]);
                } else {
                    assert(diagnostics_view(diagnostics@) =~= before + Seq::<DiagnosticView>::empty());
                }
            },
            Operand::Reference { kind, span } => {
                if references.resolve(*kind).is_none() {
                    let mut m = String::from_str(kind.as_str());
                    m.append(" does not refer to anything yet.");
                    let d = Diagnostic::invalid(m, *span, Vec::new());
                    assert(strings_view(Seq::<String>::empty()) =~= Seq::<Seq<char>>::empty());
                    diagnostics.push(d);
                    assert(diagnostics_view(diagnostics@) =~= before + seq![d@]);
                } else {
                    assert(diagnostics_view(diagnostics@) =~= before + Seq::<DiagnosticView>::empty());
                }
            },
            Operand::StringArg { .. } => {
                assert(diagnostics_view(diagnostics@) =~= before + Seq::<DiagnosticView>::empty());
            },
        },
    }
}

/// What `cmd` establishes as the new object for a later `THIS`/`THAT`.
pub fn resolve_established(cmd: &ImperativeCommand, references: &ReferenceContext) -> (r: Option<
    ResolvedObject,
>)
    ensures
        opt_object_view(r) == established_by(cmd@, references@),
{
    let target = match &cmd.destination {
        Some(d) => d,
        None => match &cmd.operand {
            Some(o) => o,
            None => {
                return None;
            },
        },
    };
    match target {
        Operand::Owned { path, .. } => Some(ResolvedObject::Path(path.clone())),
        Operand::Reference { kind, .. } => match references.resolve(*kind) {
            Some(o) => Some(o.duplicate()),
            None => None,
        },
        Operand::StringArg { value, .. } => Some(ResolvedObject::Text(value.clone())),
    }
}

/// Validates ownership and references of `command`. On success no operand
/// is unresolved; on failure every diagnostic is returned, and there is at
/// least one.
pub fn validate(command: Command, identity: &IdentityContext, references: &ReferenceContext) -> (r: Result<
    ValidatedCommand,
    Vec<Diagnostic>,
>)
    ensures
        match r {
            Ok(v) => validate_spec(command@, identity@, references@) == Ok::<
                ValidatedCommandView,
                Seq<DiagnosticView>,
            >(v@),
            Err(ds) => validate_spec(command@, identity@, references@) == Err::<
                ValidatedCommandView,
                Seq<DiagnosticView>,
            >(diagnostics_view(ds@)),
        },
        r is Err ==> r->Err_0@.len() > 0,
        r is Ok ==> match command@ {
            CommandView::Imperative(c) => operand_resolved(c.operand, identity@, references@)
                && operand_resolved(c.destination, identity@, references@),
            CommandView::Identity(_) => true,
        },
{
    match &command {
        Command::Identity(_) => Ok(ValidatedCommand { command, establishes: None }),
        Command::Imperative(cmd) => {
            let mut diagnostics: Vec<Diagnostic> = Vec::new();
            assert(diagnostics_view(diagnostics@) =~= Seq::<DiagnosticView>::empty());
            check_operand(cmd.operand.as_ref(), identity, references, &mut diagnostics);
            check_operand(cmd.destination.as_ref(), identity, references, &mut diagnostics);
            if diagnostics.len() > 0 {
                return Err(diagnostics);
            }
            let establishes = resolve_established(cmd, references);
            Ok(ValidatedCommand { command, establishes })
        },
    }
}

} // verus!
