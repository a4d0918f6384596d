//! Contextual, actionable diagnostics. The `expected` continuation list a
//! diagnostic carries is also exactly what completion offers.
use vstd::prelude::*;
use vstd::string::*;

use crate::ast::{strings_view, Span};

verus! {

#[derive(Debug, Clone, Copy, PartialEq, Eq, Structural)]
pub enum DiagnosticKind {
    /// A valid prefix of some program that is not complete yet.
    Incomplete,
    /// Input that can never be completed into a valid, executable program.
    Invalid,
}

#[derive(Debug, Clone, PartialEq, Eq)]
pub struct Diagnostic {
    pub kind: DiagnosticKind,
    pub message: String,
    pub span: Span,
    /// The deterministic valid next tokens.
    pub expected: Vec<String>,
}

pub struct DiagnosticView {
    pub kind: DiagnosticKind,
    pub message: Seq<char>,
    pub span: Span,
    pub expected: Seq<Seq<char>>,
}

impl View for Diagnostic {
    type V = DiagnosticView;

    open spec fn view(&self) -> DiagnosticView {
        DiagnosticView {
            kind: self.kind,
            message: self.message@,
            span: self.span,
            expected: strings_view(self.expected@),
        }
    }
}

pub open spec fn diagnostic_view(
    kind: DiagnosticKind,
    message: Seq<char>,
    span: Span,
    expected: Seq<Seq<char>>,
) -> DiagnosticView {
    DiagnosticView { kind, message, span, expected }
}

/// The text a diagnostic is shown as: its message on a line, then, if any
/// continuations are expected, a blank line, a heading, and one indented
/// line per continuation.
pub open spec fn render_view(d: DiagnosticView) -> Seq<char> {
    d.message + seq!['\n'] + if d.expected.len() == 0 {
        Seq::<char>::empty()
    } else {
        seq!['\n'] + "Valid continuations:"@ + seq!['\n'] + render_lines(d.expected)
    }
}

pub open spec fn render_lines(lines: Seq<Seq<char>>) -> Seq<char>
    decreases lines.len(),
{
    if lines.len() == 0 {
        Seq::<char>::empty()
    } else {
        render_lines(lines.drop_last()) + seq![' ', ' '] + lines.last() + seq!['\n']
    }
}

impl Diagnostic {
    pub fn incomplete(message: String, span: Span, expected: Vec<String>) -> (d: Self)
        ensures
            d@ == diagnostic_view(DiagnosticKind::Incomplete, message@, span, strings_view(expected@)),
    {
        Diagnostic { kind: DiagnosticKind::Incomplete, message, span, expected }
    }

    pub fn invalid(message: String, span: Span, expected: Vec<String>) -> (d: Self)
        ensures
            d@ == diagnostic_view(DiagnosticKind::Invalid, message@, span, strings_view(expected@)),
    {
        Diagnostic { kind: DiagnosticKind::Invalid, message, span, expected }
    }

    /// Every diagnostic blocks execution; the kinds differ only in whether
    /// more input could still resolve it.
    pub fn blocks_execution(&self) -> (r: bool)
        ensures
            r,
    {
        true
    }

    /// The text this diagnostic is displayed as.
    pub fn render(&self) -> (s: String)
        ensures
            s@ == render_view(self@),
    {
        let mut s = self.message.clone();
        s.append("\n");
        proof {
            reveal_strlit("\n");
        }
        if self.expected.len() > 0 {
            s.append("\n");
            s.append("Valid continuations:");
            s.append("\n");
            let ghost head = s@;
            let mut i: usize = 0;
            while i < self.expected.len()
                invariant
                    0 <= i <= self.expected@.len(),
                    s@ == head + render_lines(strings_view(self.expected@).take(i as int)),
                decreases self.expected@.len() - i,
            {
                proof {
                    reveal_strlit("  ");
                    reveal_strlit("\n");
                    let lines = strings_view(self.expected@);
                    assert(lines.take(i as int + 1).drop_last() =~= lines.take(i as int));
                }
                s.append("  ");
                s.append(self.expected[i].as_str());
                s.append("\n");
                proof {
                    let lines = strings_view(self.expected@);
                    assert(lines.take(i as int + 1).last() == self.expected@[i as int]@);
                    assert(s@ =~= head + render_lines(lines.take(i as int + 1)));
                }
                i += 1;
            }
            proof {
                assert(strings_view(self.expected@).take(i as int) =~= strings_view(
                    self.expected@,
                ));
            }
        }
        s
    }
}

/// The views of a list of diagnostics.
pub open spec fn diagnostics_view(v: Seq<Diagnostic>) -> Seq<DiagnosticView> {
    v.map_values(|d: Diagnostic| d@)
}

} // verus!
