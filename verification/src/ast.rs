//! Typed syntax tree for the `£` imperative language, the ownership and
//! reference vocabulary, the `!` policy language and the `@` agent language.
//!
//! Every type that holds text has a mathematical view in which each
//! `String` is its sequence of characters; the contracts of the lexer,
//! parser and validators are stated over those views.
use vstd::prelude::*;
use vstd::string::*;

use crate::text::{chars_eq_str, str_chars};

verus! {

/// A byte range `start..end` of the input line.
#[derive(Debug, Clone, Copy, PartialEq, Eq, Structural)]
pub struct Span {
    pub start: usize,
    pub end: usize,
}

impl Span {
    pub fn new(start: usize, end: usize) -> (s: Self)
        ensures
            s.start == start,
            s.end == end,
    {
        Span { start, end }
    }
}

impl Default for Span {
    fn default() -> (s: Self)
        ensures
            s.start == 0,
            s.end == 0,
    {
        Span { start: 0, end: 0 }
    }
}

// ---------------------------------------------------------------------------
// Verbs
// ---------------------------------------------------------------------------
#[derive(Debug, Clone, Copy, PartialEq, Eq, Structural)]
pub enum Verb {
    See,
    Edit,
    Move,
    Copy,
    Paste,
    Cut,
    Delete,
    Run,
    /// `£ CREATE MY ~/project/` — establish a file or directory.
    Create,
    /// `£ BOUND MY ~/project/ to MY ~/bundle.txt` — aggregate a source set.
    Bound,
}

/// The keyword that spells `v`.
pub open spec fn verb_name(v: Verb) -> Seq<char> {
    match v {
        Verb::See => seq!['S', 'E', 'E'],
        Verb::Edit => seq!['E', 'D', 'I', 'T'],
        Verb::Move => seq!['M', 'O', 'V', 'E'],
        Verb::Copy => seq!['C', 'O', 'P', 'Y'],
        Verb::Paste => seq!['P', 'A', 'S', 'T', 'E'],
        Verb::Cut => seq!['C', 'U', 'T'],
        Verb::Delete => seq!['D', 'E', 'L', 'E', 'T', 'E'],
        Verb::Run => seq!['R', 'U', 'N'],
        Verb::Create => seq!['C', 'R', 'E', 'A', 'T', 'E'],
        Verb::Bound => seq!['B', 'O', 'U', 'N', 'D'],
    }
}

/// Every verb, in declaration order.
pub open spec fn all_verbs() -> Seq<Verb> {
    seq![
        Verb::See,
        Verb::Edit,
        Verb::Move,
        Verb::Copy,
        Verb::Paste,
        Verb::Cut,
        Verb::Delete,
        Verb::Run,
        Verb::Create,
        Verb::Bound,
    ]
}

/// The verb spelled exactly `name`, if any.
pub open spec fn verb_from_name(name: Seq<char>) -> Option<Verb> {
    if name == verb_name(Verb::See) {
        Some(Verb::See)
    } else if name == verb_name(Verb::Edit) {
        Some(Verb::Edit)
    } else if name == verb_name(Verb::Move) {
        Some(Verb::Move)
    } else if name == verb_name(Verb::Copy) {
        Some(Verb::Copy)
    } else if name == verb_name(Verb::Paste) {
        Some(Verb::Paste)
    } else if name == verb_name(Verb::Cut) {
        Some(Verb::Cut)
    } else if name == verb_name(Verb::Delete) {
        Some(Verb::Delete)
    } else if name == verb_name(Verb::Run) {
        Some(Verb::Run)
    } else if name == verb_name(Verb::Create) {
        Some(Verb::Create)
    } else if name == verb_name(Verb::Bound) {
        Some(Verb::Bound)
    } else {
        None
    }
}

impl Verb {
    /// Every verb, in declaration order.
    pub fn all() -> (r: Vec<Verb>)
        ensures
            r@ == all_verbs(),
    {
        let r = vec![
            Verb::See,
            Verb::Edit,
            Verb::Move,
            Verb::Copy,
            Verb::Paste,
            Verb::Cut,
            Verb::Delete,
            Verb::Run,
            Verb::Create,
            Verb::Bound,
        ];
        assert(r@ =~= all_verbs());
        r
    }

    pub fn as_str(&self) -> (s: &'static str)
        ensures
            s@ == verb_name(*self),
    {
        match self {
            Verb::See => {
                proof { reveal_strlit("SEE"); }
                "SEE"
            },
            Verb::Edit => {
                proof { reveal_strlit("EDIT"); }
                "EDIT"
            },
            Verb::Move => {
                proof { reveal_strlit("MOVE"); }
                "MOVE"
            },
            Verb::Copy => {
                proof { reveal_strlit("COPY"); }
                "COPY"
            },
            Verb::Paste => {
                proof { reveal_strlit("PASTE"); }
                "PASTE"
            },
            Verb::Cut => {
                proof { reveal_strlit("CUT"); }
                "CUT"
            },
            Verb::Delete => {
                proof { reveal_strlit("DELETE"); }
                "DELETE"
            },
            Verb::Run => {
                proof { reveal_strlit("RUN"); }
                "RUN"
            },
            Verb::Create => {
                proof { reveal_strlit("CREATE"); }
                "CREATE"
            },
            Verb::Bound => {
                proof { reveal_strlit("BOUND"); }
                "BOUND"
            },
        }
    }

    /// The verb spelled exactly by the characters `name` (case-sensitive).
    pub fn from_chars(name: &Vec<char>) -> (r: Option<Self>)
        ensures
            r == verb_from_name(name@),
    {
        if chars_eq_str(name, Verb::See.as_str()) {
            Some(Verb::See)
        } else if chars_eq_str(name, Verb::Edit.as_str()) {
            Some(Verb::Edit)
        } else if chars_eq_str(name, Verb::Move.as_str()) {
            Some(Verb::Move)
        } else if chars_eq_str(name, Verb::Copy.as_str()) {
            Some(Verb::Copy)
        } else if chars_eq_str(name, Verb::Paste.as_str()) {
            Some(Verb::Paste)
        } else if chars_eq_str(name, Verb::Cut.as_str()) {
            Some(Verb::Cut)
        } else if chars_eq_str(name, Verb::Delete.as_str()) {
            Some(Verb::Delete)
        } else if chars_eq_str(name, Verb::Run.as_str()) {
            Some(Verb::Run)
        } else if chars_eq_str(name, Verb::Create.as_str()) {
            Some(Verb::Create)
        } else if chars_eq_str(name, Verb::Bound.as_str()) {
            Some(Verb::Bound)
        } else {
            None
        }
    }

    /// The verb spelled exactly `s` (case-sensitive).
    pub fn from_str(s: &str) -> (r: Option<Self>)
        ensures
            r == verb_from_name(s@),
    {
        Self::from_chars(&str_chars(s))
    }

    /// Whether this verb accepts a `to <ownership> <path>` destination clause.
    pub fn accepts_destination(&self) -> (r: bool)
        ensures
            r == (*self == Verb::Move || *self == Verb::Copy || *self == Verb::Paste || *self
                == Verb::Cut || *self == Verb::Bound),
    {
        match self {
            Verb::Move | Verb::Copy | Verb::Paste | Verb::Cut | Verb::Bound => true,
            _ => false,
        }
    }
}

// ---------------------------------------------------------------------------
// Ownership
// ---------------------------------------------------------------------------
#[derive(Debug, Clone, Copy, PartialEq, Eq, Structural)]
pub enum OwnershipKind {
    My,
    Our,
    Their,
}

pub open spec fn ownership_name(k: OwnershipKind) -> Seq<char> {
    match k {
        OwnershipKind::My => seq!['M', 'Y'],
        OwnershipKind::Our => seq!['O', 'U', 'R'],
        OwnershipKind::Their => seq!['T', 'H', 'E', 'I', 'R'],
    }
}

pub open spec fn ownership_from_name(name: Seq<char>) -> Option<OwnershipKind> {
    if name == ownership_name(OwnershipKind::My) {
        Some(OwnershipKind::My)
    } else if name == ownership_name(OwnershipKind::Our) {
        Some(OwnershipKind::Our)
    } else if name == ownership_name(OwnershipKind::Their) {
        Some(OwnershipKind::Their)
    } else {
        None
    }
}

impl OwnershipKind {
    pub fn as_str(&self) -> (s: &'static str)
        ensures
            s@ == ownership_name(*self),
    {
        match self {
            OwnershipKind::My => {
                proof { reveal_strlit("MY"); }
                "MY"
            },
            OwnershipKind::Our => {
                proof { reveal_strlit("OUR"); }
                "OUR"
            },
            OwnershipKind::Their => {
                proof { reveal_strlit("THEIR"); }
                "THEIR"
            },
        }
    }

    pub fn from_chars(name: &Vec<char>) -> (r: Option<Self>)
        ensures
            r == ownership_from_name(name@),
    {
        if chars_eq_str(name, OwnershipKind::My.as_str()) {
            Some(OwnershipKind::My)
        } else if chars_eq_str(name, OwnershipKind::Our.as_str()) {
            Some(OwnershipKind::Our)
        } else if chars_eq_str(name, OwnershipKind::Their.as_str()) {
            Some(OwnershipKind::Their)
        } else {
            None
        }
    }

    pub fn from_str(s: &str) -> (r: Option<Self>)
        ensures
            r == ownership_from_name(s@),
    {
        Self::from_chars(&str_chars(s))
    }
}

// ---------------------------------------------------------------------------
// References
// ---------------------------------------------------------------------------
#[derive(Debug, Clone, Copy, PartialEq, Eq, Structural)]
pub enum ReferenceKind {
    This,
    That,
}

pub open spec fn reference_name(k: ReferenceKind) -> Seq<char> {
    match k {
        ReferenceKind::This => seq!['T', 'H', 'I', 'S'],
        ReferenceKind::That => seq!['T', 'H', 'A', 'T'],
    }
}

pub open spec fn reference_from_name(name: Seq<char>) -> Option<ReferenceKind> {
    if name == reference_name(ReferenceKind::This) {
        Some(ReferenceKind::This)
    } else if name == reference_name(ReferenceKind::That) {
        Some(ReferenceKind::That)
    } else {
        None
    }
}

impl ReferenceKind {
    pub fn as_str(&self) -> (s: &'static str)
        ensures
            s@ == reference_name(*self),
    {
        match self {
            ReferenceKind::This => {
                proof { reveal_strlit("THIS"); }
                "THIS"
            },
            ReferenceKind::That => {
                proof { reveal_strlit("THAT"); }
                "THAT"
            },
        }
    }

    pub fn from_chars(name: &Vec<char>) -> (r: Option<Self>)
        ensures
            r == reference_from_name(name@),
    {
        if chars_eq_str(name, ReferenceKind::This.as_str()) {
            Some(ReferenceKind::This)
        } else if chars_eq_str(name, ReferenceKind::That.as_str()) {
            Some(ReferenceKind::That)
        } else {
            None
        }
    }

    pub fn from_str(s: &str) -> (r: Option<Self>)
        ensures
            r == reference_from_name(s@),
    {
        Self::from_chars(&str_chars(s))
    }
}

// ---------------------------------------------------------------------------
// Operands
// ---------------------------------------------------------------------------
/// A target for an imperative command. `Reference` operands stay unresolved
/// until semantic validation resolves them against a reference context.
#[derive(Debug, Clone, PartialEq, Eq)]
pub enum Operand {
    Owned { kind: OwnershipKind, path: String, span: Span },
    Reference { kind: ReferenceKind, span: Span },
    StringArg { value: String, span: Span },
}

pub enum OperandView {
    Owned { kind: OwnershipKind, path: Seq<char>, span: Span },
    Reference { kind: ReferenceKind, span: Span },
    StringArg { value: Seq<char>, span: Span },
}

impl View for Operand {
    type V = OperandView;

    open spec fn view(&self) -> OperandView {
        match self {
            Operand::Owned { kind, path, span } => OperandView::Owned {
                kind: *kind,
                path: path@,
                span: *span,
            },
            Operand::Reference { kind, span } => OperandView::Reference { kind: *kind, span: *span },
            Operand::StringArg { value, span } => OperandView::StringArg {
                value: value@,
                span: *span,
            },
        }
    }
}

pub open spec fn operand_span(o: OperandView) -> Span {
    match o {
        OperandView::Owned { span, .. } => span,
        OperandView::Reference { span, .. } => span,
        OperandView::StringArg { span, .. } => span,
    }
}

pub open spec fn opt_operand_view(o: Option<Operand>) -> Option<OperandView> {
    match o {
        Some(x) => Some(x@),
        None => None,
    }
}

impl Operand {
    pub fn span(&self) -> (s: Span)
        ensures
            s == operand_span(self@),
    {
        match self {
            Operand::Owned { span, .. } => *span,
            Operand::Reference { span, .. } => *span,
            Operand::StringArg { span, .. } => *span,
        }
    }

    /// A copy of this operand with the same view.
    pub fn duplicate(&self) -> (r: Operand)
        ensures
            r@ == self@,
    {
        match self {
            Operand::Owned { kind, path, span } => Operand::Owned {
                kind: *kind,
                path: path.clone(),
                span: *span,
            },
            Operand::Reference { kind, span } => Operand::Reference { kind: *kind, span: *span },
            Operand::StringArg { value, span } => Operand::StringArg {
                value: value.clone(),
                span: *span,
            },
        }
    }
}

// ---------------------------------------------------------------------------
// Dependencies
// ---------------------------------------------------------------------------
/// `£ RUN 'test' WHEN THAT SUCCEEDS` — the condition a dependency waits for.
#[derive(Debug, Clone, Copy, PartialEq, Eq, Structural)]
pub enum SuccessCondition {
    Succeeds,
    Fails,
}

pub open spec fn condition_name(c: SuccessCondition) -> Seq<char> {
    match c {
        SuccessCondition::Succeeds => seq!['S', 'U', 'C', 'C', 'E', 'E', 'D', 'S'],
        SuccessCondition::Fails => seq!['F', 'A', 'I', 'L', 'S'],
    }
}

pub open spec fn condition_from_name(name: Seq<char>) -> Option<SuccessCondition> {
    if name == condition_name(SuccessCondition::Succeeds) {
        Some(SuccessCondition::Succeeds)
    } else if name == condition_name(SuccessCondition::Fails) {
        Some(SuccessCondition::Fails)
    } else {
        None
    }
}

impl SuccessCondition {
    pub fn as_str(&self) -> (s: &'static str)
        ensures
            s@ == condition_name(*self),
    {
        match self {
            SuccessCondition::Succeeds => {
                proof { reveal_strlit("SUCCEEDS"); }
                "SUCCEEDS"
            },
            SuccessCondition::Fails => {
                proof { reveal_strlit("FAILS"); }
                "FAILS"
            },
        }
    }

    pub fn from_chars(name: &Vec<char>) -> (r: Option<Self>)
        ensures
            r == condition_from_name(name@),
    {
        if chars_eq_str(name, SuccessCondition::Succeeds.as_str()) {
            Some(SuccessCondition::Succeeds)
        } else if chars_eq_str(name, SuccessCondition::Fails.as_str()) {
            Some(SuccessCondition::Fails)
        } else {
            None
        }
    }

    pub fn from_str(s: &str) -> (r: Option<Self>)
        ensures
            r == condition_from_name(s@),
    {
        Self::from_chars(&str_chars(s))
    }

    /// Whether a real execution outcome of `success` satisfies this condition.
    pub fn is_satisfied_by(&self, success: bool) -> (r: bool)
        ensures
            r == (if *self == SuccessCondition::Succeeds {
                success
            } else {
                !success
            }),
    {
        match self {
            SuccessCondition::Succeeds => success,
            SuccessCondition::Fails => !success,
        }
    }
}

#[derive(Debug, Clone, Copy, PartialEq, Eq, Structural)]
pub struct DependencyClause {
    pub reference: ReferenceKind,
    pub reference_span: Span,
    pub condition: SuccessCondition,
    pub condition_span: Span,
}

// ---------------------------------------------------------------------------
// Commands
// ---------------------------------------------------------------------------
#[derive(Debug, Clone, PartialEq, Eq)]
pub struct ImperativeCommand {
    pub verb: Verb,
    pub verb_span: Span,
    pub operand: Option<Operand>,
    /// `COPY THAT to OUR ~/backup` — the `to` clause destination.
    pub destination: Option<Operand>,
    /// `RUN 'test' WHEN THAT SUCCEEDS` — the `WHEN` clause dependency.
    pub dependency: Option<DependencyClause>,
}

pub struct ImperativeCommandView {
    pub verb: Verb,
    pub verb_span: Span,
    pub operand: Option<OperandView>,
    pub destination: Option<OperandView>,
    pub dependency: Option<DependencyClause>,
}

impl View for ImperativeCommand {
    type V = ImperativeCommandView;

    open spec fn view(&self) -> ImperativeCommandView {
        ImperativeCommandView {
            verb: self.verb,
            verb_span: self.verb_span,
            operand: opt_operand_view(self.operand),
            destination: opt_operand_view(self.destination),
            dependency: self.dependency,
        }
    }
}

/// `£ THEY are "alice,bob"` — establishes the identity context that `THEIR`
/// resolves against.
#[derive(Debug, Clone, PartialEq, Eq)]
pub struct IdentityDeclaration {
    pub members: Vec<String>,
    pub span: Span,
}

pub struct IdentityDeclarationView {
    pub members: Seq<Seq<char>>,
    pub span: Span,
}

/// The character views of a vector of strings.
pub open spec fn strings_view(v: Seq<String>) -> Seq<Seq<char>> {
    v.map_values(|s: String| s@)
}

/// A copy of a list of strings, with the same views.
pub fn copy_strings(v: &Vec<String>) -> (r: Vec<String>)
    ensures
        strings_view(r@) == strings_view(v@),
{
    let mut r: Vec<String> = Vec::new();
    let mut i: usize = 0;
    while i < v.len()
        invariant
            0 <= i <= v@.len(),
            strings_view(r@) == strings_view(v@).take(i as int),
        decreases v@.len() - i,
    {
        let s = v[i].clone();
        proof {
            assert(strings_view(r@.push(s)) =~= strings_view(r@).push(s@));
            assert(strings_view(v@).take(i + 1) =~= strings_view(v@).take(i as int).push(v@[i as int]@));
        }
        r.push(s);
        i += 1;
    }
    assert(strings_view(v@).take(i as int) =~= strings_view(v@));
    r
}

impl View for IdentityDeclaration {
    type V = IdentityDeclarationView;

    open spec fn view(&self) -> IdentityDeclarationView {
        IdentityDeclarationView { members: strings_view(self.members@), span: self.span }
    }
}

#[derive(Debug, Clone, PartialEq, Eq)]
pub enum Command {
    Imperative(ImperativeCommand),
    Identity(IdentityDeclaration),
}

pub enum CommandView {
    Imperative(ImperativeCommandView),
    Identity(IdentityDeclarationView),
}

impl View for Command {
    type V = CommandView;

    open spec fn view(&self) -> CommandView {
        match self {
            Command::Imperative(c) => CommandView::Imperative(c@),
            Command::Identity(d) => CommandView::Identity(d@),
        }
    }
}

// ---------------------------------------------------------------------------
// Policy language
// ---------------------------------------------------------------------------
/// The `!` policy operators.
#[derive(Debug, Clone, Copy, PartialEq, Eq, Structural)]
pub enum PolicyOperator {
    With,
    Without,
    Prefer,
    Dodge,
    Spend,
    Save,
    Concurrently,
    Consecutively,
    When,
}

/// What shape of argument a policy operator takes.
#[derive(Debug, Clone, Copy, PartialEq, Eq, Structural)]
pub enum PolicyArgKind {
    /// `CONCURRENTLY` / `CONSECUTIVELY` — no arguments.
    NoArgs,
    /// `WITH`/`WITHOUT`/`PREFER`/`DODGE` — one named capability.
    Capability,
    /// `SPEND`/`SAVE` — one or more resource quotas such as `20%RAM`.
    Quotas,
    /// `WHEN` — a condition, kept as opaque text.
    Condition,
}

pub open spec fn policy_name(op: PolicyOperator) -> Seq<char> {
    match op {
        PolicyOperator::With => seq!['W', 'I', 'T', 'H'],
        PolicyOperator::Without => seq!['W', 'I', 'T', 'H', 'O', 'U', 'T'],
        PolicyOperator::Prefer => seq!['P', 'R', 'E', 'F', 'E', 'R'],
        PolicyOperator::Dodge => seq!['D', 'O', 'D', 'G', 'E'],
        PolicyOperator::Spend => seq!['S', 'P', 'E', 'N', 'D'],
        PolicyOperator::Save => seq!['S', 'A', 'V', 'E'],
        PolicyOperator::Concurrently => seq![
            'C',
            'O',
            'N',
            'C',
            'U',
            'R',
            'R',
            'E',
            'N',
            'T',
            'L',
            'Y',
        ],
        PolicyOperator::Consecutively => seq![
            'C',
            'O',
            'N',
            'S',
            'E',
            'C',
            'U',
            'T',
            'I',
            'V',
            'E',
            'L',
            'Y',
        ],
        PolicyOperator::When => seq!['W', 'H', 'E', 'N'],
    }
}

pub open spec fn all_policy_operators() -> Seq<PolicyOperator> {
    seq![
        PolicyOperator::With,
        PolicyOperator::Without,
        PolicyOperator::Prefer,
        PolicyOperator::Dodge,
        PolicyOperator::Spend,
        PolicyOperator::Save,
        PolicyOperator::Concurrently,
        PolicyOperator::Consecutively,
        PolicyOperator::When,
    ]
}

pub open spec fn policy_from_name(name: Seq<char>) -> Option<PolicyOperator> {
    if name == policy_name(PolicyOperator::With) {
        Some(PolicyOperator::With)
    } else if name == policy_name(PolicyOperator::Without) {
        Some(PolicyOperator::Without)
    } else if name == policy_name(PolicyOperator::Prefer) {
        Some(PolicyOperator::Prefer)
    } else if name == policy_name(PolicyOperator::Dodge) {
        Some(PolicyOperator::Dodge)
    } else if name == policy_name(PolicyOperator::Spend) {
        Some(PolicyOperator::Spend)
    } else if name == policy_name(PolicyOperator::Save) {
        Some(PolicyOperator::Save)
    } else if name == policy_name(PolicyOperator::Concurrently) {
        Some(PolicyOperator::Concurrently)
    } else if name == policy_name(PolicyOperator::Consecutively) {
        Some(PolicyOperator::Consecutively)
    } else if name == policy_name(PolicyOperator::When) {
        Some(PolicyOperator::When)
    } else {
        None
    }
}

pub open spec fn policy_arg_kind(op: PolicyOperator) -> PolicyArgKind {
    match op {
        PolicyOperator::Concurrently | PolicyOperator::Consecutively => PolicyArgKind::NoArgs,
        PolicyOperator::With
        | PolicyOperator::Without
        | PolicyOperator::Prefer
        | PolicyOperator::Dodge => PolicyArgKind::Capability,
        PolicyOperator::Spend | PolicyOperator::Save => PolicyArgKind::Quotas,
        PolicyOperator::When => PolicyArgKind::Condition,
    }
}

impl PolicyOperator {
    pub fn all() -> (r: Vec<PolicyOperator>)
        ensures
            r@ == all_policy_operators(),
    {
        let r = vec![
            PolicyOperator::With,
            PolicyOperator::Without,
            PolicyOperator::Prefer,
            PolicyOperator::Dodge,
            PolicyOperator::Spend,
            PolicyOperator::Save,
            PolicyOperator::Concurrently,
            PolicyOperator::Consecutively,
            PolicyOperator::When,
        ];
        assert(r@ =~= all_policy_operators());
        r
    }

    pub fn as_str(&self) -> (s: &'static str)
        ensures
            s@ == policy_name(*self),
    {
        match self {
            PolicyOperator::With => {
                proof { reveal_strlit("WITH"); }
                "WITH"
            },
            PolicyOperator::Without => {
                proof { reveal_strlit("WITHOUT"); }
                "WITHOUT"
            },
            PolicyOperator::Prefer => {
                proof { reveal_strlit("PREFER"); }
                "PREFER"
            },
            PolicyOperator::Dodge => {
                proof { reveal_strlit("DODGE"); }
                "DODGE"
            },
            PolicyOperator::Spend => {
                proof { reveal_strlit("SPEND"); }
                "SPEND"
            },
            PolicyOperator::Save => {
                proof { reveal_strlit("SAVE"); }
                "SAVE"
            },
            PolicyOperator::Concurrently => {
                proof { reveal_strlit("CONCURRENTLY"); }
                "CONCURRENTLY"
            },
            PolicyOperator::Consecutively => {
                proof { reveal_strlit("CONSECUTIVELY"); }
                "CONSECUTIVELY"
            },
            PolicyOperator::When => {
                proof { reveal_strlit("WHEN"); }
                "WHEN"
            },
        }
    }

    pub fn from_chars(name: &Vec<char>) -> (r: Option<Self>)
        ensures
            r == policy_from_name(name@),
    {
        if chars_eq_str(name, PolicyOperator::With.as_str()) {
            Some(PolicyOperator::With)
        } else if chars_eq_str(name, PolicyOperator::Without.as_str()) {
            Some(PolicyOperator::Without)
        } else if chars_eq_str(name, PolicyOperator::Prefer.as_str()) {
            Some(PolicyOperator::Prefer)
        } else if chars_eq_str(name, PolicyOperator::Dodge.as_str()) {
            Some(PolicyOperator::Dodge)
        } else if chars_eq_str(name, PolicyOperator::Spend.as_str()) {
            Some(PolicyOperator::Spend)
        } else if chars_eq_str(name, PolicyOperator::Save.as_str()) {
            Some(PolicyOperator::Save)
        } else if chars_eq_str(name, PolicyOperator::Concurrently.as_str()) {
            Some(PolicyOperator::Concurrently)
        } else if chars_eq_str(name, PolicyOperator::Consecutively.as_str()) {
            Some(PolicyOperator::Consecutively)
        } else if chars_eq_str(name, PolicyOperator::When.as_str()) {
            Some(PolicyOperator::When)
        } else {
            None
        }
    }

    pub fn from_str(s: &str) -> (r: Option<Self>)
        ensures
            r == policy_from_name(s@),
    {
        Self::from_chars(&str_chars(s))
    }

    pub fn arg_kind(&self) -> (k: PolicyArgKind)
        ensures
            k == policy_arg_kind(*self),
    {
        match self {
            PolicyOperator::Concurrently | PolicyOperator::Consecutively => PolicyArgKind::NoArgs,
            PolicyOperator::With
            | PolicyOperator::Without
            | PolicyOperator::Prefer
            | PolicyOperator::Dodge => PolicyArgKind::Capability,
            PolicyOperator::Spend | PolicyOperator::Save => PolicyArgKind::Quotas,
            PolicyOperator::When => PolicyArgKind::Condition,
        }
    }

    /// Hard constraints are evaluated before preferences, and a soft
    /// preference may never override one.
    pub fn is_hard_constraint(&self) -> (r: bool)
        ensures
            r == (*self == PolicyOperator::With || *self == PolicyOperator::Without || *self
                == PolicyOperator::Spend || *self == PolicyOperator::Save),
    {
        match self {
            PolicyOperator::With | PolicyOperator::Without | PolicyOperator::Spend
            | PolicyOperator::Save => true,
            _ => false,
        }
    }

    /// The scheduling mode is chosen once per block.
    pub fn is_singleton(&self) -> (r: bool)
        ensures
            r == (*self == PolicyOperator::Concurrently || *self == PolicyOperator::Consecutively),
    {
        match self {
            PolicyOperator::Concurrently | PolicyOperator::Consecutively => true,
            _ => false,
        }
    }

    /// The operator this one mutually excludes from the same block, if any.
    pub fn excludes(&self) -> (r: Option<PolicyOperator>)
        ensures
            r == (if *self == PolicyOperator::Concurrently {
                Some(PolicyOperator::Consecutively)
            } else if *self == PolicyOperator::Consecutively {
                Some(PolicyOperator::Concurrently)
            } else {
                None
            }),
    {
        match self {
            PolicyOperator::Concurrently => Some(PolicyOperator::Consecutively),
            PolicyOperator::Consecutively => Some(PolicyOperator::Concurrently),
            _ => None,
        }
    }
}

#[derive(Debug, Clone, PartialEq, Eq)]
pub struct ResourceQuota {
    pub percent: u32,
    pub resource: String,
    pub span: Span,
}

pub struct ResourceQuotaView {
    pub percent: u32,
    pub resource: Seq<char>,
    pub span: Span,
}

impl View for ResourceQuota {
    type V = ResourceQuotaView;

    open spec fn view(&self) -> ResourceQuotaView {
        ResourceQuotaView { percent: self.percent, resource: self.resource@, span: self.span }
    }
}

impl ResourceQuota {
    pub fn duplicate(&self) -> (r: ResourceQuota)
        ensures
            r@ == self@,
    {
        ResourceQuota { percent: self.percent, resource: self.resource.clone(), span: self.span }
    }
}

/// The effective resource constraint that a session's accumulated
/// `SPEND`/`SAVE` statements resolve to. `cpu_percent` is a percentage of
/// one CPU core, `ram_percent` of total system RAM; `unenforceable` names
/// every other resource the policy mentions, in first-mention order.
#[derive(Debug, Clone, PartialEq, Eq)]
pub struct ResourceBudget {
    pub cpu_percent: Option<u32>,
    pub ram_percent: Option<u32>,
    pub unenforceable: Vec<String>,
}

pub struct ResourceBudgetView {
    pub cpu_percent: Option<u32>,
    pub ram_percent: Option<u32>,
    pub unenforceable: Seq<Seq<char>>,
}

impl View for ResourceBudget {
    type V = ResourceBudgetView;

    open spec fn view(&self) -> ResourceBudgetView {
        ResourceBudgetView {
            cpu_percent: self.cpu_percent,
            ram_percent: self.ram_percent,
            unenforceable: strings_view(self.unenforceable@),
        }
    }
}

impl Default for ResourceBudget {
    fn default() -> (b: Self)
        ensures
            b.cpu_percent is None,
            b.ram_percent is None,
            b.unenforceable@.len() == 0,
    {
        ResourceBudget { cpu_percent: None, ram_percent: None, unenforceable: Vec::new() }
    }
}

impl ResourceBudget {
    /// No constraint at all.
    pub fn is_empty(&self) -> (r: bool)
        ensures
            r == (self.cpu_percent is None && self.ram_percent is None
                && self.unenforceable@.len() == 0),
    {
        self.cpu_percent.is_none() && self.ram_percent.is_none() && self.unenforceable.len() == 0
    }
}

#[derive(Debug, Clone, PartialEq, Eq)]
pub enum PolicyArgs {
    NoArgs,
    Capability { name: String, span: Span },
    Quotas(Vec<ResourceQuota>),
    Condition { text: String, span: Span },
}

pub enum PolicyArgsView {
    NoArgs,
    Capability { name: Seq<char>, span: Span },
    Quotas(Seq<ResourceQuotaView>),
    Condition { text: Seq<char>, span: Span },
}

pub open spec fn quotas_view(q: Seq<ResourceQuota>) -> Seq<ResourceQuotaView> {
    q.map_values(|x: ResourceQuota| x@)
}

impl View for PolicyArgs {
    type V = PolicyArgsView;

    open spec fn view(&self) -> PolicyArgsView {
        match self {
            PolicyArgs::NoArgs => PolicyArgsView::NoArgs,
            PolicyArgs::Capability { name, span } => PolicyArgsView::Capability {
                name: name@,
                span: *span,
            },
            PolicyArgs::Quotas(q) => PolicyArgsView::Quotas(quotas_view(q@)),
            PolicyArgs::Condition { text, span } => PolicyArgsView::Condition {
                text: text@,
                span: *span,
            },
        }
    }
}

#[derive(Debug, Clone, PartialEq, Eq)]
pub struct PolicyStatement {
    pub operator: PolicyOperator,
    pub operator_span: Span,
    pub args: PolicyArgs,
}

pub struct PolicyStatementView {
    pub operator: PolicyOperator,
    pub operator_span: Span,
    pub args: PolicyArgsView,
}

impl View for PolicyStatement {
    type V = PolicyStatementView;

    open spec fn view(&self) -> PolicyStatementView {
        PolicyStatementView {
            operator: self.operator,
            operator_span: self.operator_span,
            args: self.args@,
        }
    }
}

// ---------------------------------------------------------------------------
// Agent language
// ---------------------------------------------------------------------------
/// The `@` agent primitives that head a block.
#[derive(Debug, Clone, Copy, PartialEq, Eq, Structural)]
pub enum AgentVerb {
    Tell,
    Team,
}

pub open spec fn agent_verb_name(v: AgentVerb) -> Seq<char> {
    match v {
        AgentVerb::Tell => seq!['T', 'E', 'L', 'L'],
        AgentVerb::Team => seq!['T', 'E', 'A', 'M'],
    }
}

pub open spec fn agent_verb_from_name(name: Seq<char>) -> Option<AgentVerb> {
    if name == agent_verb_name(AgentVerb::Tell) {
        Some(AgentVerb::Tell)
    } else if name == agent_verb_name(AgentVerb::Team) {
        Some(AgentVerb::Team)
    } else {
        None
    }
}

impl AgentVerb {
    pub fn as_str(&self) -> (s: &'static str)
        ensures
            s@ == agent_verb_name(*self),
    {
        match self {
            AgentVerb::Tell => {
                proof { reveal_strlit("TELL"); }
                "TELL"
            },
            AgentVerb::Team => {
                proof { reveal_strlit("TEAM"); }
                "TEAM"
            },
        }
    }

    pub fn from_chars(name: &Vec<char>) -> (r: Option<Self>)
        ensures
            r == agent_verb_from_name(name@),
    {
        if chars_eq_str(name, AgentVerb::Tell.as_str()) {
            Some(AgentVerb::Tell)
        } else if chars_eq_str(name, AgentVerb::Team.as_str()) {
            Some(AgentVerb::Team)
        } else {
            None
        }
    }

    pub fn from_str(s: &str) -> (r: Option<Self>)
        ensures
            r == agent_verb_from_name(s@),
    {
        Self::from_chars(&str_chars(s))
    }
}

/// The clause keywords that configure an agent block.
#[derive(Debug, Clone, Copy, PartialEq, Eq, Structural)]
pub enum AgentClauseKind {
    Be,
    Reading,
    Populating,
    Think,
}

pub open spec fn clause_kind_name(k: AgentClauseKind) -> Seq<char> {
    match k {
        AgentClauseKind::Be => seq!['B', 'E'],
        AgentClauseKind::Reading => seq!['R', 'E', 'A', 'D', 'I', 'N', 'G'],
        AgentClauseKind::Populating => seq!['P', 'O', 'P', 'U', 'L', 'A', 'T', 'I', 'N', 'G'],
        AgentClauseKind::Think => seq!['T', 'H', 'I', 'N', 'K'],
    }
}

pub open spec fn all_clause_kinds() -> Seq<AgentClauseKind> {
    seq![
        AgentClauseKind::Be,
        AgentClauseKind::Reading,
        AgentClauseKind::Populating,
        AgentClauseKind::Think,
    ]
}

pub open spec fn clause_kind_from_name(name: Seq<char>) -> Option<AgentClauseKind> {
    if name == clause_kind_name(AgentClauseKind::Be) {
        Some(AgentClauseKind::Be)
    } else if name == clause_kind_name(AgentClauseKind::Reading) {
        Some(AgentClauseKind::Reading)
    } else if name == clause_kind_name(AgentClauseKind::Populating) {
        Some(AgentClauseKind::Populating)
    } else if name == clause_kind_name(AgentClauseKind::Think) {
        Some(AgentClauseKind::Think)
    } else {
        None
    }
}

impl AgentClauseKind {
    pub fn all() -> (r: Vec<AgentClauseKind>)
        ensures
            r@ == all_clause_kinds(),
    {
        let r = vec![
            AgentClauseKind::Be,
            AgentClauseKind::Reading,
            AgentClauseKind::Populating,
            AgentClauseKind::Think,
        ];
        assert(r@ =~= all_clause_kinds());
        r
    }

    pub fn as_str(&self) -> (s: &'static str)
        ensures
            s@ == clause_kind_name(*self),
    {
        match self {
            AgentClauseKind::Be => {
                proof { reveal_strlit("BE"); }
                "BE"
            },
            AgentClauseKind::Reading => {
                proof { reveal_strlit("READING"); }
                "READING"
            },
            AgentClauseKind::Populating => {
                proof { reveal_strlit("POPULATING"); }
                "POPULATING"
            },
            AgentClauseKind::Think => {
                proof { reveal_strlit("THINK"); }
                "THINK"
            },
        }
    }

    pub fn from_chars(name: &Vec<char>) -> (r: Option<Self>)
        ensures
            r == clause_kind_from_name(name@),
    {
        if chars_eq_str(name, AgentClauseKind::Be.as_str()) {
            Some(AgentClauseKind::Be)
        } else if chars_eq_str(name, AgentClauseKind::Reading.as_str()) {
            Some(AgentClauseKind::Reading)
        } else if chars_eq_str(name, AgentClauseKind::Populating.as_str()) {
            Some(AgentClauseKind::Populating)
        } else if chars_eq_str(name, AgentClauseKind::Think.as_str()) {
            Some(AgentClauseKind::Think)
        } else {
            None
        }
    }

    pub fn from_str(s: &str) -> (r: Option<Self>)
        ensures
            r == clause_kind_from_name(s@),
    {
        Self::from_chars(&str_chars(s))
    }
}

/// One configured clause of an `@` agent block; each kind may appear at
/// most once per block.
#[derive(Debug, Clone, PartialEq, Eq)]
pub enum AgentClause {
    Be { persona: String, span: Span },
    Reading { operand: Operand, span: Span },
    Populating { operand: Operand, span: Span },
    Think { budget: u32, span: Span },
}

pub enum AgentClauseView {
    Be { persona: Seq<char>, span: Span },
    Reading { operand: OperandView, span: Span },
    Populating { operand: OperandView, span: Span },
    Think { budget: u32, span: Span },
}

impl View for AgentClause {
    type V = AgentClauseView;

    open spec fn view(&self) -> AgentClauseView {
        match self {
            AgentClause::Be { persona, span } => AgentClauseView::Be {
                persona: persona@,
                span: *span,
            },
            AgentClause::Reading { operand, span } => AgentClauseView::Reading {
                operand: operand@,
                span: *span,
            },
            AgentClause::Populating { operand, span } => AgentClauseView::Populating {
                operand: operand@,
                span: *span,
            },
            AgentClause::Think { budget, span } => AgentClauseView::Think {
                budget: *budget,
                span: *span,
            },
        }
    }
}

pub open spec fn clause_kind_of(c: AgentClauseView) -> AgentClauseKind {
    match c {
        AgentClauseView::Be { .. } => AgentClauseKind::Be,
        AgentClauseView::Reading { .. } => AgentClauseKind::Reading,
        AgentClauseView::Populating { .. } => AgentClauseKind::Populating,
        AgentClauseView::Think { .. } => AgentClauseKind::Think,
    }
}

pub open spec fn clauses_view(c: Seq<AgentClause>) -> Seq<AgentClauseView> {
    c.map_values(|x: AgentClause| x@)
}

impl AgentClause {
    pub fn kind(&self) -> (k: AgentClauseKind)
        ensures
            k == clause_kind_of(self@),
    {
        match self {
            AgentClause::Be { .. } => AgentClauseKind::Be,
            AgentClause::Reading { .. } => AgentClauseKind::Reading,
            AgentClause::Populating { .. } => AgentClauseKind::Populating,
            AgentClause::Think { .. } => AgentClauseKind::Think,
        }
    }
}

/// `@ TELL '<model>' BE "..." READING MY ~/project/ THINK 80 "..."`.
#[derive(Debug, Clone, PartialEq, Eq)]
pub struct AgentBlock {
    pub verb: AgentVerb,
    pub verb_span: Span,
    pub target: String,
    pub target_span: Span,
    pub clauses: Vec<AgentClause>,
    pub instruction: String,
    pub instruction_span: Span,
}

pub struct AgentBlockView {
    pub verb: AgentVerb,
    pub verb_span: Span,
    pub target: Seq<char>,
    pub target_span: Span,
    pub clauses: Seq<AgentClauseView>,
    pub instruction: Seq<char>,
    pub instruction_span: Span,
}

impl View for AgentBlock {
    type V = AgentBlockView;

    open spec fn view(&self) -> AgentBlockView {
        AgentBlockView {
            verb: self.verb,
            verb_span: self.verb_span,
            target: self.target@,
            target_span: self.target_span,
            clauses: clauses_view(self.clauses@),
            instruction: self.instruction@,
            instruction_span: self.instruction_span,
        }
    }
}

/// The index of the first clause of kind `k` in `cs`, if any.
pub open spec fn first_clause_index(cs: Seq<AgentClauseView>, k: AgentClauseKind) -> Option<int>
    decreases cs.len(),
{
    if cs.len() == 0 {
        None
    } else if clause_kind_of(cs[0]) == k {
        Some(0)
    } else {
        match first_clause_index(cs.drop_first(), k) {
            Some(i) => Some(i + 1),
            None => None,
        }
    }
}

impl AgentBlock {
    /// The first clause of the given kind.
    pub fn clause(&self, kind: AgentClauseKind) -> (r: Option<&AgentClause>)
        ensures
            match first_clause_index(clauses_view(self.clauses@), kind) {
                Some(i) => r is Some && r->0@ == clauses_view(self.clauses@)[i],
                None => r is None,
            },
    {
        let mut i: usize = 0;
        let ghost cs = clauses_view(self.clauses@);
        assert(cs.skip(0) =~= cs);
        while i < self.clauses.len()
            invariant
                0 <= i <= self.clauses@.len(),
                cs == clauses_view(self.clauses@),
                first_clause_index(cs, kind) == (match first_clause_index(cs.skip(i as int), kind) {
                    Some(j) => Some(j + i),
                    None => None::<int>,
                }),
            decreases self.clauses@.len() - i,
        {
            assert(cs.skip(i as int).drop_first() =~= cs.skip(i + 1));
            if self.clauses[i].kind() == kind {
                return Some(&self.clauses[i]);
            }
            i += 1;
        }
        assert(cs.skip(i as int).len() == 0);
        None
    }
}

/// One parsed input line: a policy statement, a command, or an agent block.
#[derive(Debug, Clone, PartialEq, Eq)]
pub enum Line {
    Policy(PolicyStatement),
    Command(Command),
    Agent(AgentBlock),
}

pub enum LineView {
    Policy(PolicyStatementView),
    Command(CommandView),
    Agent(AgentBlockView),
}

impl View for Line {
    type V = LineView;

    open spec fn view(&self) -> LineView {
        match self {
            Line::Policy(p) => LineView::Policy(p@),
            Line::Command(c) => LineView::Command(c@),
            Line::Agent(a) => LineView::Agent(a@),
        }
    }
}

} // verus!
