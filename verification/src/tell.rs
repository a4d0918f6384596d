//! `@ TELL`: the prompt sent to an agent provider, built from the block's
//! clauses. Reading files, running the provider and writing its answer
//! are I/O and happen outside this library.
use vstd::prelude::*;
use vstd::string::*;

use crate::text::{decimal, decimal_string};

verus! {

/// Everything an agent run needs.
#[derive(Debug, Clone, PartialEq, Eq, Default)]
pub struct TellRequest {
    pub model: String,
    pub persona: Option<String>,
    pub reading: Option<String>,
    pub instruction: String,
    pub think: Option<u32>,
}

/// Why an agent run failed.
#[derive(Debug)]
pub struct TellError(pub String);

impl TellError {
    /// The text of the error.
    pub fn message(&self) -> (r: &str)
        ensures
            r@ == self.0@,
    {
        self.0.as_str()
    }
}

/// The prompt: the persona, the context and the think budget when stated,
/// each in its own paragraph and in that order, then the instruction.
pub open spec fn prompt_spec(
    persona: Option<Seq<char>>,
    context: Option<Seq<char>>,
    instruction: Seq<char>,
    think: Option<u32>,
) -> Seq<char> {
    let p = match persona {
        Some(x) => "You are: "@ + x + "\n\n"@,
        None => Seq::empty(),
    };
    let c = match context {
        Some(x) => "Context:\n"@ + x + "\n\n"@,
        None => Seq::empty(),
    };
    let t = match think {
        Some(n) => "(Think budget: "@ + decimal(n as nat) + ".)\n\n"@,
        None => Seq::empty(),
    };
    p + c + t + instruction
}

pub open spec fn opt_str(o: Option<&str>) -> Option<Seq<char>> {
    match o {
        Some(s) => Some(s@),
        None => None,
    }
}

/// Builds the prompt for an agent run.
pub fn build_prompt(persona: Option<&str>, context: Option<&str>, instruction: &str, think: Option<u32>) -> (r: String)
    ensures
        r@ == prompt_spec(opt_str(persona), opt_str(context), instruction@, think),
{
    let mut prompt = String::new();
    if let Some(persona) = persona {
        prompt.append("You are: ");
        prompt.append(persona);
        prompt.append("\n\n");
    }
    let ghost after_persona = prompt@;
    if let Some(context) = context {
        prompt.append("Context:\n");
        prompt.append(context);
        prompt.append("\n\n");
    }
    let ghost after_context = prompt@;
    if let Some(think) = think {
        prompt.append("(Think budget: ");
        let digits = decimal_string(think);
        prompt.append(digits.as_str());
        prompt.append(".)\n\n");
    }
    prompt.append(instruction);
    assert(prompt@ =~= prompt_spec(opt_str(persona), opt_str(context), instruction@, think));
    prompt
}

/// `piece` occurs somewhere in `s`.
pub open spec fn contains_text(s: Seq<char>, piece: Seq<char>) -> bool {
    exists|i: int| 0 <= i && i + piece.len() <= s.len() && #[trigger] s.subrange(i, i + piece.len()) == piece
}

/// Each stated part of an agent run appears in its prompt whatever else is
/// stated: the prompt opens with the persona when one is given, holds the
/// context when one is given, holds the think budget when one is given,
/// and ends with the instruction.
pub proof fn law_prompt_holds_every_stated_part(
    persona: Option<Seq<char>>,
    context: Option<Seq<char>>,
    instruction: Seq<char>,
    think: Option<u32>,
)
    ensures
        persona matches Some(x) ==> ("You are: "@ + x).is_prefix_of(prompt_spec(persona, context, instruction, think)),
        context matches Some(x) ==> contains_text(prompt_spec(persona, context, instruction, think), "Context:\n"@ + x),
        think matches Some(n) ==> contains_text(
            prompt_spec(persona, context, instruction, think),
            "(Think budget: "@ + decimal(n as nat) + ".)"@,
        ),
        instruction.len() <= prompt_spec(persona, context, instruction, think).len(),
        prompt_spec(persona, context, instruction, think).skip(
            prompt_spec(persona, context, instruction, think).len() - instruction.len(),
        ) == instruction,
{
    let r = prompt_spec(persona, context, instruction, think);
    let p = match persona {
        Some(x) => "You are: "@ + x + "\n\n"@,
        None => Seq::empty(),
    };
    let c = match context {
        Some(x) => "Context:\n"@ + x + "\n\n"@,
        None => Seq::empty(),
    };
    let t = match think {
        Some(n) => "(Think budget: "@ + decimal(n as nat) + ".)\n\n"@,
        None => Seq::empty(),
    };
    assert(r == p + c + t + instruction);
    if let Some(x) = persona {
        let piece = "You are: "@ + x;
        assert(r.subrange(0, piece.len() as int) =~= piece);
    }
    if let Some(x) = context {
        let piece = "Context:\n"@ + x;
        let i = p.len() as int;
        assert(r.subrange(i, i + piece.len()) =~= piece);
    }
    if let Some(n) = think {
        let piece = "(Think budget: "@ + decimal(n as nat) + ".)"@;
        reveal_strlit(".)");
        reveal_strlit(".)\n\n");
        assert(t =~= piece + "\n\n"@) by {
            reveal_strlit("\n\n");
        }
        let i = (p.len() + c.len()) as int;
        assert(r.subrange(i, i + piece.len()) =~= piece);
    }
    assert(r.skip(r.len() - instruction.len()) =~= instruction);
}

} // verus!
