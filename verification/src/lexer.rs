//! Lexical analysis of Xact command lines: deterministic, character by
//! character. Spans are byte offsets into the UTF-8 encoding of the line.
use vstd::prelude::*;

use crate::ast::Span;
use crate::text::{
    char_len_utf8, is_whitespace, is_ws, lemma_utf8_len_prefix, lemma_utf8_len_step, push_char,
    str_chars, utf8_len,
};

verus! {

#[derive(Debug, Clone, PartialEq, Eq)]
pub enum TokenKind {
    /// `£` — command sigil.
    Pound,
    /// `!` — policy sigil.
    Bang,
    /// `@` — agent sigil.
    At,
    /// Any bareword; the parser decides its meaning from its position.
    Word(String),
    /// A `'...'` or `"..."` string literal, without its quotes.
    StringLit(String),
    Eof,
}

#[derive(Debug, Clone, PartialEq, Eq)]
pub struct Token {
    pub kind: TokenKind,
    pub span: Span,
}

pub enum TokenKindView {
    Pound,
    Bang,
    At,
    Word(Seq<char>),
    StringLit(Seq<char>),
    Eof,
}

pub struct TokenView {
    pub kind: TokenKindView,
    pub span: Span,
}

impl View for TokenKind {
    type V = TokenKindView;

    open spec fn view(&self) -> TokenKindView {
        match self {
            TokenKind::Pound => TokenKindView::Pound,
            TokenKind::Bang => TokenKindView::Bang,
            TokenKind::At => TokenKindView::At,
            TokenKind::Word(w) => TokenKindView::Word(w@),
            TokenKind::StringLit(s) => TokenKindView::StringLit(s@),
            TokenKind::Eof => TokenKindView::Eof,
        }
    }
}

impl View for Token {
    type V = TokenView;

    open spec fn view(&self) -> TokenView {
        TokenView { kind: self.kind@, span: self.span }
    }
}

pub open spec fn tokens_view(ts: Seq<Token>) -> Seq<TokenView> {
    ts.map_values(|t: Token| t@)
}

pub open spec fn pound_char() -> char {
    '\u{a3}'
}

/// Characters that end a bareword.
pub open spec fn is_stop(c: char) -> bool {
    is_ws(c) || c == pound_char() || c == '!' || c == '@' || c == '\'' || c == '"'
}

/// The byte offset of character index `i` of `s`.
pub open spec fn byte_at(s: Seq<char>, i: int) -> usize {
    utf8_len(s.take(i)) as usize
}

/// The index of the first stop character at or after `i`, or `s.len()`.
pub open spec fn word_end(s: Seq<char>, i: int) -> int
    decreases s.len() - i,
{
    if i >= s.len() || i < 0 {
        i
    } else if is_stop(s[i]) {
        i
    } else {
        word_end(s, i + 1)
    }
}

/// The index of the first `q` at or after `i`, or `s.len()`.
pub open spec fn quote_close(s: Seq<char>, i: int, q: char) -> int
    decreases s.len() - i,
{
    if i >= s.len() || i < 0 {
        i
    } else if s[i] == q {
        i
    } else {
        quote_close(s, i + 1, q)
    }
}

pub open spec fn symbol_token(k: TokenKindView, s: Seq<char>, i: int) -> TokenView {
    TokenView { kind: k, span: Span { start: byte_at(s, i), end: byte_at(s, i + 1) } }
}

/// The tokens of `s` from character index `i` on, ending with `Eof`.
pub open spec fn lex_from(s: Seq<char>, i: int) -> Seq<TokenView>
    decreases s.len() - i,
{
    if i >= s.len() || i < 0 {
        let n = utf8_len(s) as usize;
        seq![TokenView { kind: TokenKindView::Eof, span: Span { start: n, end: n } }]
    } else if is_ws(s[i]) {
        lex_from(s, i + 1)
    } else if s[i] == pound_char() {
        seq![symbol_token(TokenKindView::Pound, s, i)] + lex_from(s, i + 1)
    } else if s[i] == '!' {
        seq![symbol_token(TokenKindView::Bang, s, i)] + lex_from(s, i + 1)
    } else if s[i] == '@' {
        seq![symbol_token(TokenKindView::At, s, i)] + lex_from(s, i + 1)
    } else if s[i] == '\'' || s[i] == '"' {
        let j = quote_close(s, i + 1, s[i]);
        let end = if j < s.len() {
            j + 1
        } else {
            s.len() as int
        };
        if end <= i {
            seq![]
        } else {
            seq![
                TokenView {
                    kind: TokenKindView::StringLit(s.subrange(i + 1, j)),
                    span: Span { start: byte_at(s, i), end: byte_at(s, end) },
                },
            ] + lex_from(s, end)
        }
    } else {
        let j = word_end(s, i);
        if j <= i || j > s.len() {
            seq![]
        } else {
            seq![
                TokenView {
                    kind: TokenKindView::Word(s.subrange(i, j)),
                    span: Span { start: byte_at(s, i), end: byte_at(s, j) },
                },
            ] + lex_from(s, j)
        }
    }
}

/// The tokens of the character sequence `s`.
pub open spec fn lex(s: Seq<char>) -> Seq<TokenView> {
    lex_from(s, 0)
}

proof fn lemma_word_end_bounds(s: Seq<char>, i: int)
    requires
        0 <= i <= s.len(),
    ensures
        i <= word_end(s, i) <= s.len(),
        forall|k: int| i <= k < word_end(s, i) ==> !is_stop(#[trigger] s[k]),
        word_end(s, i) < s.len() ==> is_stop(s[word_end(s, i)]),
    decreases s.len() - i,
{
    if i < s.len() && !is_stop(s[i]) {
        lemma_word_end_bounds(s, i + 1);
    }
}

proof fn lemma_quote_close_bounds(s: Seq<char>, i: int, q: char)
    requires
        0 <= i <= s.len(),
    ensures
        i <= quote_close(s, i, q) <= s.len(),
        quote_close(s, i, q) < s.len() ==> s[quote_close(s, i, q)] == q,
    decreases s.len() - i,
{
    if i < s.len() && s[i] != q {
        lemma_quote_close_bounds(s, i + 1, q);
    }
}

/// The lexed tokens always end with exactly one `Eof`, spanning the end of
/// the input, and hold no other `Eof`.
pub proof fn lemma_lex_ends_with_eof(s: Seq<char>, i: int)
    requires
        0 <= i <= s.len(),
    ensures
        lex_from(s, i).len() > 0,
        lex_from(s, i).last().kind is Eof,
        lex_from(s, i).last().span == (Span {
            start: utf8_len(s) as usize,
            end: utf8_len(s) as usize,
        }),
        forall|k: int|
            0 <= k < lex_from(s, i).len() - 1 ==> !(#[trigger] lex_from(s, i)[k].kind is Eof),
    decreases s.len() - i,
{
    if i < s.len() {
        if is_ws(s[i]) || s[i] == pound_char() || s[i] == '!' || s[i] == '@' {
            lemma_lex_ends_with_eof(s, i + 1);
        } else if s[i] == '\'' || s[i] == '"' {
            lemma_quote_close_bounds(s, i + 1, s[i]);
            let j = quote_close(s, i + 1, s[i]);
            let end = if j < s.len() {
                j + 1
            } else {
                s.len() as int
            };
            lemma_lex_ends_with_eof(s, end);
        } else {
            lemma_word_end_bounds(s, i);
            lemma_lex_ends_with_eof(s, word_end(s, i));
        }
    }
}

/// A bareword is never empty and holds no white space, sigil or quote.
pub open spec fn word_ok(tk: TokenView) -> bool {
    tk.kind matches TokenKindView::Word(w) ==> w.len() > 0 && forall|c: int| 0 <= c < w.len() ==> !is_stop(#[trigger] w[c])
}

/// The spans of `t` lie within `lo..=hi`, in order and without overlap;
/// every token but `Eof` covers at least one byte; every word is well
/// formed.
pub open spec fn spans_ordered(t: Seq<TokenView>, lo: int, hi: int) -> bool {
    &&& forall|k: int| 0 <= k < t.len() ==> lo <= (#[trigger] t[k]).span.start <= t[k].span.end <= hi
    &&& forall|k: int| 0 <= k < t.len() - 1 ==> (#[trigger] t[k]).span.end <= t[k + 1].span.start
    &&& forall|k: int| 0 <= k < t.len() && !((#[trigger] t[k]).kind is Eof) ==> t[k].span.start < t[k].span.end
    &&& forall|k: int| 0 <= k < t.len() ==> word_ok(#[trigger] t[k])
}

proof fn lemma_prepend_ordered(x: TokenView, rest: Seq<TokenView>, lo: int, mid: int, hi: int)
    requires
        lo <= x.span.start < x.span.end <= mid,
        word_ok(x),
        spans_ordered(rest, mid, hi),
        rest.len() > 0,
    ensures
        spans_ordered(seq![x] + rest, lo, hi),
{
    let t = seq![x] + rest;
    assert forall|k: int| 0 <= k < t.len() implies lo <= (#[trigger] t[k]).span.start <= t[k].span.end <= hi by {
        if k > 0 {
            assert(t[k] == rest[k - 1]);
        } else {
            assert(rest[0].span.end <= hi);
        }
    }
    assert forall|k: int| 0 <= k < t.len() - 1 implies (#[trigger] t[k]).span.end <= t[k + 1].span.start by {
        assert(t[k + 1] == rest[k]);
        if k > 0 {
            assert(t[k] == rest[k - 1]);
        }
    }
    assert forall|k: int| 0 <= k < t.len() && !((#[trigger] t[k]).kind is Eof) implies t[k].span.start
        < t[k].span.end by {
        if k > 0 {
            assert(t[k] == rest[k - 1]);
        }
    }
    assert forall|k: int| 0 <= k < t.len() implies word_ok(#[trigger] t[k]) by {
        if k > 0 {
            assert(t[k] == rest[k - 1]);
        }
    }
}

proof fn lemma_lex_spans(s: Seq<char>, i: int)
    requires
        0 <= i <= s.len(),
        utf8_len(s) <= usize::MAX,
    ensures
        spans_ordered(lex_from(s, i), utf8_len(s.take(i)) as int, utf8_len(s) as int),
    decreases s.len() - i,
{
    lemma_lex_ends_with_eof(s, i);
    lemma_utf8_len_prefix(s, i, i);
    if i >= s.len() {
        assert(s.take(i) =~= s);
    } else if is_ws(s[i]) {
        lemma_lex_spans(s, i + 1);
        lemma_utf8_len_prefix(s, i, i + 1);
    } else if s[i] == pound_char() || s[i] == '!' || s[i] == '@' {
        lemma_lex_spans(s, i + 1);
        lemma_utf8_len_prefix(s, i, i + 1);
        lemma_lex_ends_with_eof(s, i + 1);
        let k = if s[i] == pound_char() {
            TokenKindView::Pound
        } else if s[i] == '!' {
            TokenKindView::Bang
        } else {
            TokenKindView::At
        };
        lemma_prepend_ordered(
            symbol_token(k, s, i),
            lex_from(s, i + 1),
            utf8_len(s.take(i)) as int,
            utf8_len(s.take(i + 1)) as int,
            utf8_len(s) as int,
        );
    } else if s[i] == '\'' || s[i] == '"' {
        lemma_quote_close_bounds(s, i + 1, s[i]);
        let j = quote_close(s, i + 1, s[i]);
        let end = if j < s.len() {
            j + 1
        } else {
            s.len() as int
        };
        lemma_lex_spans(s, end);
        lemma_utf8_len_prefix(s, i, end);
        lemma_lex_ends_with_eof(s, end);
        lemma_prepend_ordered(
            TokenView {
                kind: TokenKindView::StringLit(s.subrange(i + 1, j)),
                span: Span { start: byte_at(s, i), end: byte_at(s, end) },
            },
            lex_from(s, end),
            utf8_len(s.take(i)) as int,
            utf8_len(s.take(end)) as int,
            utf8_len(s) as int,
        );
    } else {
        lemma_word_end_bounds(s, i);
        let j = word_end(s, i);
        assert(!is_stop(s[i]));
        assert(j > i);
        lemma_lex_spans(s, j);
        lemma_utf8_len_prefix(s, i, j);
        lemma_lex_ends_with_eof(s, j);
        let w = s.subrange(i, j);
        assert forall|c: int| 0 <= c < w.len() implies !is_stop(#[trigger] w[c]) by {
            assert(w[c] == s[i + c]);
        }
        lemma_prepend_ordered(
            TokenView { kind: TokenKindView::Word(w), span: Span { start: byte_at(s, i), end: byte_at(s, j) } },
            lex_from(s, j),
            utf8_len(s.take(i)) as int,
            utf8_len(s.take(j)) as int,
            utf8_len(s) as int,
        );
    }
}

/// The bytes of characters `i..j` of `s`.
pub open spec fn char_span(s: Seq<char>, i: int, j: int) -> Span {
    Span { start: byte_at(s, i), end: byte_at(s, j) }
}

/// What a token is of the line `s` it came from: a sigil covers exactly
/// its character; a word is exactly the characters its span covers; a
/// string literal covers its quotes and holds what lies between them (to
/// the end of the line if it is never closed); `Eof` sits at the end.
pub open spec fn token_of(s: Seq<char>, tk: TokenView) -> bool {
    match tk.kind {
        TokenKindView::Pound => exists|i: int|
            0 <= i < s.len() && s[i] == pound_char() && tk.span == #[trigger] char_span(s, i, i + 1),
        TokenKindView::Bang => exists|i: int|
            0 <= i < s.len() && s[i] == '!' && tk.span == #[trigger] char_span(s, i, i + 1),
        TokenKindView::At => exists|i: int|
            0 <= i < s.len() && s[i] == '@' && tk.span == #[trigger] char_span(s, i, i + 1),
        TokenKindView::Word(w) => exists|i: int, j: int|
            0 <= i < j <= s.len() && w == s.subrange(i, j) && tk.span == #[trigger] char_span(s, i, j),
        TokenKindView::StringLit(v) => exists|i: int, e: int|
            0 <= i < e <= s.len() && (s[i] == '\'' || s[i] == '"') && tk.span == #[trigger] char_span(s, i, e)
                && ((e - 1 > i && s[e - 1] == s[i] && v == s.subrange(i + 1, e - 1)) || (e == s.len()
                && v == s.subrange(i + 1, e))),
        TokenKindView::Eof => tk.span == char_span(s, s.len() as int, s.len() as int),
    }
}

/// Character `c` of `s` lies within the span of some token of `t`.
pub open spec fn covered(s: Seq<char>, t: Seq<TokenView>, c: int) -> bool {
    exists|k: int| 0 <= k < t.len() && (#[trigger] t[k]).span.start <= byte_at(s, c) < t[k].span.end
}

proof fn lemma_cover_shift(s: Seq<char>, x: TokenView, rest: Seq<TokenView>, c: int)
    requires
        covered(s, rest, c),
    ensures
        covered(s, seq![x] + rest, c),
{
    let t = seq![x] + rest;
    let k = choose|k: int| 0 <= k < rest.len() && (#[trigger] rest[k]).span.start <= byte_at(s, c) < rest[k].span.end;
    assert(t[k + 1] == rest[k]);
}

proof fn lemma_lex_tokens(s: Seq<char>, i: int)
    requires
        0 <= i <= s.len(),
        utf8_len(s) <= usize::MAX,
    ensures
        forall|k: int| 0 <= k < lex_from(s, i).len() ==> token_of(s, #[trigger] lex_from(s, i)[k]),
        forall|c: int| i <= c < s.len() && !is_ws(s[c]) ==> #[trigger] covered(s, lex_from(s, i), c),
    decreases s.len() - i,
{
    let t = lex_from(s, i);
    if i >= s.len() {
        assert(s.take(s.len() as int) =~= s);
        assert(t.len() == 1);
        assert(token_of(s, t[0]));
        assert forall|k: int| 0 <= k < t.len() implies token_of(s, #[trigger] t[k]) by {
            assert(k == 0);
        }
    } else if is_ws(s[i]) {
        lemma_lex_tokens(s, i + 1);
        assert(t == lex_from(s, i + 1));
        assert forall|c: int| i <= c < s.len() && !is_ws(s[c]) implies #[trigger] covered(s, t, c) by {
            assert(c != i);
            assert(covered(s, lex_from(s, i + 1), c));
        }
    } else {
        let (first, next) = if s[i] == pound_char() || s[i] == '!' || s[i] == '@' {
            (t[0], i + 1)
        } else if s[i] == '\'' || s[i] == '"' {
            lemma_quote_close_bounds(s, i + 1, s[i]);
            let j = quote_close(s, i + 1, s[i]);
            (t[0], if j < s.len() { j + 1 } else { s.len() as int })
        } else {
            lemma_word_end_bounds(s, i);
            assert(!is_stop(s[i]));
            (t[0], word_end(s, i))
        };
        lemma_lex_tokens(s, next);
        let rest = lex_from(s, next);
        assert(t == seq![first] + rest);
        assert(first.span == char_span(s, i, next));
        // the first token
        if s[i] == pound_char() || s[i] == '!' || s[i] == '@' {
            assert(token_of(s, first));
        } else if s[i] == '\'' || s[i] == '"' {
            let j = quote_close(s, i + 1, s[i]);
            if j < s.len() {
                assert(s[next - 1] == s[i]);
            }
            assert(token_of(s, first));
        } else {
            assert(token_of(s, first));
        }
        assert forall|k: int| 0 <= k < t.len() implies token_of(s, #[trigger] t[k]) by {
            if k > 0 {
                assert(t[k] == rest[k - 1]);
            }
        }
        assert forall|c: int| i <= c < s.len() && !is_ws(s[c]) implies #[trigger] covered(s, t, c) by {
            if c < next {
                lemma_utf8_len_prefix(s, i, c);
                lemma_utf8_len_prefix(s, c, next);
                lemma_utf8_len_prefix(s, next, s.len() as int);
                assert(t[0].span.start <= byte_at(s, c) < t[0].span.end);
            } else {
                lemma_cover_shift(s, first, rest, c);
            }
        }
    }
}

/// The tokens of a line end with a single `Eof` at the end of its bytes;
/// their spans lie within its bytes, in order and without overlap; every
/// token but `Eof` covers at least one byte; every word is non-empty and
/// holds no white space, sigil or quote; every character that is not
/// white space lies in some token's span; a sigil's span is exactly its
/// character; and a word is exactly the characters its span covers.
pub proof fn law_token_spans(s: Seq<char>)
    requires
        utf8_len(s) <= usize::MAX,
    ensures
        lex(s).len() > 0,
        lex(s).last().kind is Eof,
        lex(s).last().span == (Span { start: utf8_len(s) as usize, end: utf8_len(s) as usize }),
        forall|k: int| 0 <= k < lex(s).len() - 1 ==> !(#[trigger] lex(s)[k].kind is Eof),
        spans_ordered(lex(s), 0, utf8_len(s) as int),
        forall|k: int| 0 <= k < lex(s).len() ==> token_of(s, #[trigger] lex(s)[k]),
        forall|c: int| 0 <= c < s.len() && !is_ws(s[c]) ==> #[trigger] covered(s, lex(s), c),
{
    lemma_lex_ends_with_eof(s, 0);
    lemma_lex_spans(s, 0);
    lemma_lex_tokens(s, 0);
    assert(s.take(0) =~= Seq::<char>::empty());
    assert(vstd::utf8::encode_utf8(Seq::<char>::empty()) =~= Seq::<u8>::empty());
}

pub fn is_stop_char(c: char) -> (r: bool)
    ensures
        r == is_stop(c),
{
    is_whitespace(c) || c == '\u{a3}' || c == '!' || c == '@' || c == '\'' || c == '"'
}

/// Tokenizes a line given as characters.
pub fn tokenize_chars(s: &Vec<char>) -> (tokens: Vec<Token>)
    requires
        utf8_len(s@) <= usize::MAX,
    ensures
        tokens_view(tokens@) == lex(s@),
{
    let len = s.len();
    let mut tokens: Vec<Token> = Vec::new();
    let mut i: usize = 0;
    let mut b: usize = 0;
    proof {
        assert(s@.take(0) =~= Seq::<char>::empty());
        assert(tokens_view(tokens@) =~= Seq::<TokenView>::empty());
    }
    while i < len
        invariant
            len == s@.len(),
            utf8_len(s@) <= usize::MAX,
            0 <= i <= len,
            b == utf8_len(s@.take(i as int)),
            tokens_view(tokens@) + lex_from(s@, i as int) == lex(s@),
        decreases len - i,
    {
        proof {
            lemma_utf8_len_prefix(s@, i as int, i as int + 1);
            lemma_utf8_len_step(s@, i as int);
        }
        let ghost prev = tokens_view(tokens@);
        let c = s[i];
        let w = char_len_utf8(c);
        if is_whitespace(c) {
            i += 1;
            b += w;
        } else if c == '\u{a3}' || c == '!' || c == '@' {
            let kind = if c == '\u{a3}' {
                TokenKind::Pound
            } else if c == '!' {
                TokenKind::Bang
            } else {
                TokenKind::At
            };
            tokens.push(Token { kind, span: Span::new(b, b + w) });
            proof {
                assert(tokens_view(tokens@) =~= prev.push(tokens@.last()@));
                assert(prev.push(tokens@.last()@) + lex_from(s@, i + 1) =~= prev + (seq![
                    tokens@.last()@,
                ] + lex_from(s@, i + 1)));
            }
            i += 1;
            b += w;
        } else if c == '\'' || c == '"' {
            let start = b;
            let ghost i0 = i as int;
            i += 1;
            b += w;
            let content_start = i;
            let mut text = String::new();
            proof {
                assert(s@.subrange(i as int, i as int) =~= Seq::<char>::empty());
            }
            while i < len && s[i] != c
                invariant
                    len == s@.len(),
                    utf8_len(s@) <= usize::MAX,
                    content_start == i0 + 1,
                    content_start <= i <= len,
                    b == utf8_len(s@.take(i as int)),
                    text@ == s@.subrange(content_start as int, i as int),
                    quote_close(s@, i as int, c) == quote_close(s@, i0 + 1, c),
                decreases len - i,
            {
                proof {
                    lemma_utf8_len_prefix(s@, i as int, i as int + 1);
                    lemma_utf8_len_step(s@, i as int);
                }
                let d = s[i];
                push_char(&mut text, d);
                proof {
                    assert(text@ =~= s@.subrange(content_start as int, i as int + 1));
                }
                b += char_len_utf8(d);
                i += 1;
            }
            let ghost j = i as int;
            assert(quote_close(s@, j, c) == j);
            if i < len {
                proof {
                    lemma_utf8_len_prefix(s@, i as int, i as int + 1);
                    lemma_utf8_len_step(s@, i as int);
                }
                b += char_len_utf8(s[i]);
                i += 1;
            }
            tokens.push(Token { kind: TokenKind::StringLit(text), span: Span::new(start, b) });
            proof {
                assert(s@[i0] == c);
                assert(tokens_view(tokens@) =~= prev.push(tokens@.last()@));
                assert(prev.push(tokens@.last()@) + lex_from(s@, i as int) =~= prev + (seq![
                    tokens@.last()@,
                ] + lex_from(s@, i as int)));
            }
        } else {
            let start = b;
            let ghost i0 = i as int;
            let mut text = String::new();
            proof {
                assert(s@.subrange(i as int, i as int) =~= Seq::<char>::empty());
                assert(!is_ws(c));
            }
            while i < len && !is_stop_char(s[i])
                invariant
                    len == s@.len(),
                    utf8_len(s@) <= usize::MAX,
                    0 <= i0 <= i <= len,
                    b == utf8_len(s@.take(i as int)),
                    text@ == s@.subrange(i0, i as int),
                    word_end(s@, i as int) == word_end(s@, i0),
                decreases len - i,
            {
                proof {
                    lemma_utf8_len_prefix(s@, i as int, i as int + 1);
                    lemma_utf8_len_step(s@, i as int);
                }
                let d = s[i];
                push_char(&mut text, d);
                proof {
                    assert(text@ =~= s@.subrange(i0, i as int + 1));
                }
                b += char_len_utf8(d);
                i += 1;
            }
            assert(i == len || is_stop(s@[i as int]));
            assert(word_end(s@, i as int) == i);
            tokens.push(Token { kind: TokenKind::Word(text), span: Span::new(start, b) });
            proof {
                assert(tokens_view(tokens@) =~= prev.push(tokens@.last()@));
                assert(prev.push(tokens@.last()@) + lex_from(s@, i as int) =~= prev + (seq![
                    tokens@.last()@,
                ] + lex_from(s@, i as int)));
            }
        }
    }
    proof {
        assert(s@.take(len as int) =~= s@);
    }
    let ghost prev = tokens_view(tokens@);
    tokens.push(Token { kind: TokenKind::Eof, span: Span::new(b, b) });
    proof {
        assert(tokens_view(tokens@) =~= prev.push(tokens@.last()@));
        assert(tokens_view(tokens@) =~= lex(s@));
    }
    tokens
}

/// Tokenizes an input line. The result always ends with a single `Eof`
/// whose span is the input's byte length.
pub fn tokenize(input: &str) -> (tokens: Vec<Token>)
    ensures
        tokens_view(tokens@) == lex(input@),
{
    let chars = str_chars(input);
    let bytes = input.as_bytes();
    let n = bytes.len();
    proof {
        assert(utf8_len(input@) == n);
    }
    tokenize_chars(&chars)
}

} // verus!
