//! Deterministic completion.
//!
//! There is no separate completion grammar: completion reads the same
//! `expected` continuation list that the parser attaches to a diagnostic,
//! so every suggestion is one the parser itself considers valid.
//!
//! The list is narrowed by the word being typed at the end of the input,
//! when that word is still partial: the input is parsed again without the
//! word, and if the candidates do not change the parser never consumed it,
//! so the candidates are filtered by it (case-insensitively; placeholders
//! such as `<path>` and `'...'` always stay).
use vstd::prelude::*;
use vstd::string::*;

use crate::ast::strings_view;
use crate::parser::{parse_line, parse_line_spec, ParseOutcome, ParseOutcomeView};
use crate::text::{is_whitespace, is_ws, str_chars, string_from_chars, to_upper, upper};

verus! {

broadcast use vstd::seq_lib::group_seq_properties;

/// The parser's candidates after `o`, or `None` for a complete line.
pub open spec fn expected_of(o: ParseOutcomeView) -> Option<Seq<Seq<char>>> {
    match o {
        ParseOutcomeView::Complete(_) => None,
        ParseOutcomeView::Incomplete(d) => Some(d.expected),
        ParseOutcomeView::Invalid(d) => Some(d.expected),
    }
}

pub open spec fn expected_after_spec(input: Seq<char>) -> Option<Seq<Seq<char>>> {
    expected_of(parse_line_spec(input))
}

/// The index just past the last white-space character of `s`, or 0.
pub open spec fn last_ws_end(s: Seq<char>) -> int
    decreases s.len(),
{
    if s.len() == 0 {
        0
    } else if is_ws(s.last()) {
        s.len() as int
    } else {
        last_ws_end(s.drop_last())
    }
}

/// The word being typed at the very end of `s`, if `s` is not empty and
/// does not end in white space.
pub open spec fn trailing_partial(s: Seq<char>) -> Option<Seq<char>> {
    if s.len() == 0 || is_ws(s.last()) {
        None
    } else {
        Some(s.skip(last_ws_end(s)))
    }
}

/// A placeholder stands for free-form input: `<...>` or `'...'`.
pub open spec fn is_placeholder_spec(s: Seq<char>) -> bool {
    s.len() > 0 && (s[0] == '<' || s[0] == '\'')
}

/// Keeps placeholders and the candidates that start with `prefix`,
/// ignoring case.
pub open spec fn keeps(prefix: Seq<char>) -> spec_fn(Seq<char>) -> bool {
    |s: Seq<char>| is_placeholder_spec(s) || upper(prefix).is_prefix_of(upper(s))
}

/// The suggestions for `input`.
pub open spec fn complete_spec(input: Seq<char>) -> Seq<Seq<char>> {
    match expected_after_spec(input) {
        None => Seq::empty(),
        Some(suggestions) => match trailing_partial(input) {
            None => suggestions,
            Some(partial) => {
                let stripped = input.take(input.len() - partial.len());
                if expected_after_spec(stripped) == Some(suggestions) {
                    suggestions.filter(keeps(partial))
                } else {
                    suggestions
                }
            },
        },
    }
}

proof fn lemma_last_ws_end(s: Seq<char>)
    ensures
        0 <= last_ws_end(s) <= s.len(),
        forall|k: int| last_ws_end(s) <= k < s.len() ==> !is_ws(#[trigger] s[k]),
        last_ws_end(s) > 0 ==> is_ws(s[last_ws_end(s) - 1]),
    decreases s.len(),
{
    if s.len() > 0 && !is_ws(s.last()) {
        lemma_last_ws_end(s.drop_last());
        assert forall|k: int| last_ws_end(s) <= k < s.len() implies !is_ws(#[trigger] s[k]) by {
            if k < s.len() - 1 {
                assert(s[k] == s.drop_last()[k]);
            }
        }
        if last_ws_end(s) > 0 {
            assert(s[last_ws_end(s) - 1] == s.drop_last()[last_ws_end(s) - 1]);
        }
    }
}

/// The parser's own candidates for `input`, or `None` once the input is a
/// complete command.
fn expected_after(input: &str) -> (r: Option<Vec<String>>)
    ensures
        match r {
            Some(v) => expected_after_spec(input@) == Some(strings_view(v@)),
            None => expected_after_spec(input@) is None,
        },
{
    match parse_line(input) {
        ParseOutcome::Complete(_) => None,
        ParseOutcome::Incomplete(d) => Some(d.expected),
        ParseOutcome::Invalid(d) => Some(d.expected),
    }
}

/// The index where the word being typed at the end of `chars` starts, if
/// there is such a word.
fn trailing_partial_start(chars: &Vec<char>) -> (r: Option<usize>)
    ensures
        match r {
            Some(i) => trailing_partial(chars@) == Some(chars@.skip(i as int)) && i < chars@.len()
                && i == last_ws_end(chars@),
            None => trailing_partial(chars@) is None,
        },
{
    let n = chars.len();
    if n == 0 || is_whitespace(chars[n - 1]) {
        return None;
    }
    let mut i = n;
    proof {
        assert(chars@.take(n as int) =~= chars@);
    }
    while i > 0 && !is_whitespace(chars[i - 1])
        invariant
            0 <= i <= n,
            n == chars@.len(),
            last_ws_end(chars@) == last_ws_end(chars@.take(i as int)),
        decreases i,
    {
        proof {
            assert(chars@.take(i as int).drop_last() =~= chars@.take(i - 1));
        }
        i -= 1;
    }
    proof {
        lemma_last_ws_end(chars@);
        if i > 0 {
            assert(chars@.take(i as int).last() == chars@[i - 1]);
        }
    }
    Some(i)
}

/// Whether `s` is a placeholder rather than a keyword.
fn is_placeholder(s: &Vec<char>) -> (r: bool)
    ensures
        r == is_placeholder_spec(s@),
{
    s.len() > 0 && (s[0] == '<' || s[0] == '\'')
}

/// Whether `p` is a prefix of `s`.
fn chars_prefix(p: &Vec<char>, s: &Vec<char>) -> (r: bool)
    ensures
        r == p@.is_prefix_of(s@),
{
    if p.len() > s.len() {
        return false;
    }
    let mut i: usize = 0;
    while i < p.len()
        invariant
            p@.len() <= s@.len(),
            0 <= i <= p@.len(),
            forall|j: int| 0 <= j < i ==> p@[j] == s@[j],
        decreases p@.len() - i,
    {
        if p[i] != s[i] {
            return false;
        }
        i += 1;
    }
    assert(p@ =~= s@.subrange(0, p@.len() as int));
    true
}

/// Narrows `suggestions` to the placeholders and the candidates that
/// start with `prefix`, ignoring case.
pub(crate) fn filter_by_prefix(suggestions: &Vec<String>, prefix: &str) -> (r: Vec<String>)
    ensures
        strings_view(r@) == strings_view(suggestions@).filter(keeps(prefix@)),
{
    let ghost sv = strings_view(suggestions@);
    let up = to_upper(prefix);
    let p = str_chars(up.as_str());
    let mut r: Vec<String> = Vec::new();
    let mut i: usize = 0;
    assert(strings_view(r@) =~= sv.take(0).filter(keeps(prefix@))) by {
        reveal(Seq::filter);
    }
    while i < suggestions.len()
        invariant
            0 <= i <= suggestions@.len(),
            sv == strings_view(suggestions@),
            p@ == upper(prefix@),
            strings_view(r@) == sv.take(i as int).filter(keeps(prefix@)),
        decreases suggestions@.len() - i,
    {
        let s = &suggestions[i];
        let chars = str_chars(s.as_str());
        let su = to_upper(s.as_str());
        let su_chars = str_chars(su.as_str());
        let keep = is_placeholder(&chars) || chars_prefix(&p, &su_chars);
        proof {
            assert(sv[i as int] == s@);
            assert(sv.take(i + 1) =~= sv.take(i as int).push(sv[i as int]));
            sv.take(i as int).lemma_filter_push(sv[i as int], keeps(prefix@));
        }
        if keep {
            let kept = s.clone();
            assert(strings_view(r@.push(kept)) =~= strings_view(r@).push(kept@));
            r.push(kept);
        }
        i += 1;
    }
    assert(sv.take(i as int) =~= sv);
    r
}

/// Whether two string lists hold the same strings in the same order.
fn same_strings(a: &Vec<String>, b: &Vec<String>) -> (r: bool)
    ensures
        r == (strings_view(a@) == strings_view(b@)),
{
    if a.len() != b.len() {
        assert(strings_view(a@).len() != strings_view(b@).len());
        return false;
    }
    let mut i: usize = 0;
    while i < a.len()
        invariant
            a@.len() == b@.len(),
            0 <= i <= a@.len(),
            forall|j: int| 0 <= j < i ==> (#[trigger] a@[j])@ == b@[j]@,
        decreases a@.len() - i,
    {
        if a[i] != b[i] {
            assert(strings_view(a@)[i as int] != strings_view(b@)[i as int]);
            return false;
        }
        i += 1;
    }
    assert(strings_view(a@) =~= strings_view(b@)) by {
        assert forall|j: int| 0 <= j < a@.len() implies strings_view(a@)[j] == strings_view(b@)[j] by {
            assert(a@[j]@ == b@[j]@);
        }
    }
    true
}

/// The valid next tokens for a (possibly incomplete) input, narrowed by
/// the partial word being typed at its end. Empty once the input is a
/// complete command.
pub fn complete(input: &str) -> (r: Vec<String>)
    ensures
        strings_view(r@) == complete_spec(input@),
{
    let suggestions = match expected_after(input) {
        Some(v) => v,
        None => {
            let r: Vec<String> = Vec::new();
            assert(strings_view(r@) =~= Seq::<Seq<char>>::empty());
            return r;
        },
    };
    let chars = str_chars(input);
    let start = match trailing_partial_start(&chars) {
        Some(i) => i,
        None => {
            return suggestions;
        },
    };
    let partial = string_from_chars(&chars, start, chars.len());
    let stripped = string_from_chars(&chars, 0, start);
    proof {
        assert(partial@ =~= input@.skip(start as int));
        assert(stripped@ =~= input@.take(input@.len() - partial@.len()));
    }
    let same = match expected_after(stripped.as_str()) {
        Some(again) => same_strings(&again, &suggestions),
        None => false,
    };
    if same {
        filter_by_prefix(&suggestions, partial.as_str())
    } else {
        suggestions
    }
}

// ---------------------------------------------------------------------------
// Laws
// ---------------------------------------------------------------------------
/// Every suggestion is a continuation the parser itself expects at that
/// point, and a complete command gets no suggestion.
pub proof fn law_suggestions_come_from_parser(input: Seq<char>)
    ensures
        expected_after_spec(input) is None ==> complete_spec(input).len() == 0,
        expected_after_spec(input) matches Some(e) ==> forall|i: int|
            0 <= i < complete_spec(input).len() ==> e.contains(#[trigger] complete_spec(input)[i]),
{
    if let Some(e) = expected_after_spec(input) {
        let c = complete_spec(input);
        assert forall|i: int| 0 <= i < c.len() implies e.contains(#[trigger] c[i]) by {
            if c == e {
                assert(e[i] == c[i]);
            } else {
                let partial = trailing_partial(input)->0;
                assert(c == e.filter(keeps(partial)));
                assert(c.contains(c[i]));
                e.lemma_filter_contains_rev(keeps(partial), c[i]);
            }
        }
    }
}

/// Placeholders (`<path>`, `'...'`, ...) are never narrowed away: every
/// placeholder the parser expects is suggested.
pub proof fn law_placeholders_are_always_suggested(input: Seq<char>)
    ensures
        expected_after_spec(input) matches Some(e) ==> forall|i: int|
            0 <= i < e.len() && is_placeholder_spec(#[trigger] e[i]) ==> complete_spec(input).contains(
                e[i],
            ),
{
    if let Some(e) = expected_after_spec(input) {
        assert forall|i: int| 0 <= i < e.len() && is_placeholder_spec(#[trigger] e[i]) implies complete_spec(
            input,
        ).contains(e[i]) by {
            if complete_spec(input) == e {
            } else {
                let partial = trailing_partial(input)->0;
                e.filter_lemma(keeps(partial));
            }
        }
    }
}

} // verus!
