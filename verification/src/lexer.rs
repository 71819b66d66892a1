//! The lexer: turns source text into tokens, one at a time.

use vstd::prelude::*;
use vstd::std_specs::iter::IteratorSpec;
use crate::text::push_char;
use crate::token::{eof_token, illegal_token, keyword_kind, lookup_ident, SpecToken, Token, TokenType};

verus! {

broadcast use vstd::string::group_string_axioms;

/// Characters that may appear in an identifier or keyword.
pub open spec fn letter(c: char) -> bool {
    ('a' <= c && c <= 'z') || ('A' <= c && c <= 'Z') || c == '_' || c == '?' || c == '!'
}

/// ASCII decimal digits.
pub open spec fn digit(c: char) -> bool {
    '0' <= c && c <= '9'
}

/// The characters with the Unicode `White_Space` property, which
/// `char::is_whitespace` recognises.
pub open spec fn white_space(c: char) -> bool {
    ('\u{9}' <= c && c <= '\u{d}') || c == ' ' || c == '\u{85}' || c == '\u{a0}'
        || c == '\u{1680}' || ('\u{2000}' <= c && c <= '\u{200a}') || c == '\u{2028}'
        || c == '\u{2029}' || c == '\u{202f}' || c == '\u{205f}' || c == '\u{3000}'
}

/// The first position at or after `p` that does not hold white space.
pub open spec fn skip_white_space(s: Seq<char>, p: nat) -> nat
    decreases s.len() - p,
{
    if p < s.len() && white_space(s[p as int]) {
        skip_white_space(s, p + 1)
    } else {
        p
    }
}

/// The first position at or after `p` that does not hold a letter.
pub open spec fn end_of_word(s: Seq<char>, p: nat) -> nat
    decreases s.len() - p,
{
    if p < s.len() && letter(s[p as int]) {
        end_of_word(s, p + 1)
    } else {
        p
    }
}

/// The first position at or after `p` that does not hold a digit.
pub open spec fn end_of_number(s: Seq<char>, p: nat) -> nat
    decreases s.len() - p,
{
    if p < s.len() && digit(s[p as int]) {
        end_of_number(s, p + 1)
    } else {
        p
    }
}

/// The first position at or after `p` that holds a double quote, or the end.
pub open spec fn end_of_string(s: Seq<char>, p: nat) -> nat
    decreases s.len() - p,
{
    if p < s.len() && s[p as int] != '"' {
        end_of_string(s, p + 1)
    } else {
        p
    }
}

/// The kind of a token made of one character alone, if that character makes one.
pub open spec fn single_char_kind(c: char) -> Option<TokenType> {
    if c == ';' {
        Some(TokenType::Semicolon)
    } else if c == '(' {
        Some(TokenType::LParen)
    } else if c == ')' {
        Some(TokenType::RParen)
    } else if c == '{' {
        Some(TokenType::LBrace)
    } else if c == '}' {
        Some(TokenType::RBrace)
    } else if c == '[' {
        Some(TokenType::LBracket)
    } else if c == ']' {
        Some(TokenType::RBracket)
    } else if c == '+' {
        Some(TokenType::Plus)
    } else if c == '-' {
        Some(TokenType::Minus)
    } else if c == '*' {
        Some(TokenType::Asterisk)
    } else if c == '/' {
        Some(TokenType::Slash)
    } else if c == ',' {
        Some(TokenType::Comma)
    } else if c == ':' {
        Some(TokenType::Colon)
    } else if c == '<' {
        Some(TokenType::Lt)
    } else if c == '>' {
        Some(TokenType::Gt)
    } else {
        None
    }
}

/// One step of the lexer on text `s` at position `p`: the token that starts
/// there (after white space) and the position just after it.
///
/// At the end of the text the token is `Eof`. An unknown character gives an
/// `Illegal` token and the position stays on that character.
pub open spec fn lex_step(s: Seq<char>, p: nat) -> (SpecToken, nat) {
    let q = skip_white_space(s, p);
    if q >= s.len() {
        (eof_token(), q)
    } else {
        let c = s[q as int];
        if c == '=' {
            if q + 1 < s.len() && s[q as int + 1] == '=' {
                (SpecToken { kind: TokenType::Eq, literal: seq!['=', '='] }, q + 2)
            } else {
                (SpecToken { kind: TokenType::Assign, literal: seq!['='] }, q + 1)
            }
        } else if c == '!' {
            if q + 1 < s.len() && s[q as int + 1] == '=' {
                (SpecToken { kind: TokenType::NotEq, literal: seq!['!', '='] }, q + 2)
            } else {
                (SpecToken { kind: TokenType::Bang, literal: seq!['!'] }, q + 1)
            }
        } else if letter(c) {
            let e = end_of_word(s, q);
            let w = s.subrange(q as int, e as int);
            (SpecToken { kind: keyword_kind(w), literal: w }, e)
        } else if digit(c) {
            let e = end_of_number(s, q);
            (SpecToken { kind: TokenType::Int, literal: s.subrange(q as int, e as int) }, e)
        } else if c == '"' {
            let e = end_of_string(s, q + 1);
            (
                SpecToken { kind: TokenType::String, literal: s.subrange(q as int + 1, e as int) },
                if e < s.len() { (e + 1) as nat } else { e },
            )
        } else {
            match single_char_kind(c) {
                Some(k) => (SpecToken { kind: k, literal: seq![c] }, q + 1),
                None => (illegal_token(), q),
            }
        }
    }
}

pub proof fn lemma_skip_white_space(s: Seq<char>, p: nat)
    ensures
        p <= skip_white_space(s, p),
        p <= s.len() ==> skip_white_space(s, p) <= s.len(),
        skip_white_space(s, p) < s.len() ==> !white_space(s[skip_white_space(s, p) as int]),
    decreases s.len() - p,
{
    if p < s.len() && white_space(s[p as int]) {
        lemma_skip_white_space(s, p + 1);
    }
}

pub proof fn lemma_end_of_word(s: Seq<char>, p: nat)
    ensures
        p <= end_of_word(s, p),
        p <= s.len() ==> end_of_word(s, p) <= s.len(),
    decreases s.len() - p,
{
    if p < s.len() && letter(s[p as int]) {
        lemma_end_of_word(s, p + 1);
    }
}

pub proof fn lemma_end_of_number(s: Seq<char>, p: nat)
    ensures
        p <= end_of_number(s, p),
        p <= s.len() ==> end_of_number(s, p) <= s.len(),
    decreases s.len() - p,
{
    if p < s.len() && digit(s[p as int]) {
        lemma_end_of_number(s, p + 1);
    }
}

pub proof fn lemma_end_of_string(s: Seq<char>, p: nat)
    ensures
        p <= end_of_string(s, p),
        p <= s.len() ==> end_of_string(s, p) <= s.len(),
    decreases s.len() - p,
{
    if p < s.len() && s[p as int] != '"' {
        lemma_end_of_string(s, p + 1);
    }
}

/// A step never moves backwards nor past the end, and it moves forward
/// whenever the token is neither `Eof` nor `Illegal`.
pub proof fn lemma_lex_step(s: Seq<char>, p: nat)
    requires
        p <= s.len(),
    ensures
        p <= lex_step(s, p).1 <= s.len(),
        lex_step(s, p).0.kind != TokenType::Eof && lex_step(s, p).0.kind != TokenType::Illegal
            ==> p < lex_step(s, p).1,
        lex_step(s, p).0.kind == TokenType::Eof ==> lex_step(s, p).1 == s.len(),
        lex_step(s, p).0.kind == TokenType::Illegal ==> lex_step(s, p).1 < s.len(),
{
    let q = skip_white_space(s, p);
    lemma_skip_white_space(s, p);
    if q < s.len() {
        lemma_end_of_word(s, q);
        lemma_end_of_word(s, q + 1);
        lemma_end_of_number(s, q);
        lemma_end_of_number(s, q + 1);
        lemma_end_of_string(s, q + 1);
    }
}

/// A step at the end of the text gives `Eof` and stays at the end.
pub proof fn lemma_lex_step_at_end(s: Seq<char>)
    ensures
        lex_step(s, s.len()) == (eof_token(), s.len()),
{
}

/// The tokens a lexer hands out, one call after another, when it starts on
/// text `input` at position `start`.
pub struct TokenSource {
    pub input: Seq<char>,
    pub start: nat,
}

impl TokenSource {
    /// The lexer's position before it hands out its `k`-th token (counting from 0).
    pub open spec fn pos(self, k: nat) -> nat
        decreases k,
    {
        if k == 0 {
            self.start
        } else {
            lex_step(self.input, self.pos((k - 1) as nat)).1
        }
    }

    /// The `k`-th token handed out (counting from 0).
    pub open spec fn tok(self, k: nat) -> SpecToken {
        lex_step(self.input, self.pos(k)).0
    }

    /// How many tokens come before the first `Eof` or `Illegal` one.
    pub open spec fn count(self) -> nat {
        tokens_before_end(self.input, self.start)
    }

    /// The text from `start` on lexes into tokens that end with `Eof`, with no
    /// `Illegal` token on the way (a lexer that meets an unknown character
    /// hands out `Illegal` from there on, for ever).
    pub open spec fn clean(self) -> bool {
        self.start <= self.input.len() && self.tok(self.count()).kind == TokenType::Eof
    }

    /// A measure of the tokens left before the end, from the `k`-th on.
    pub open spec fn remaining(self, k: nat) -> nat {
        if k < self.count() {
            (self.count() - k) as nat
        } else {
            0
        }
    }
}

/// The number of tokens the lexer hands out from position `p` before it hands
/// out `Eof` or `Illegal`.
pub open spec fn tokens_before_end(s: Seq<char>, p: nat) -> nat
    decreases s.len() - p,
{
    let (t, q) = lex_step(s, p);
    if t.kind == TokenType::Eof || t.kind == TokenType::Illegal || q <= p || q > s.len() {
        0
    } else {
        1 + tokens_before_end(s, q)
    }
}

proof fn lemma_source_prefix(src: TokenSource, j: nat)
    requires
        src.start <= src.input.len(),
        j <= src.count(),
    ensures
        src.pos(j) <= src.input.len(),
        tokens_before_end(src.input, src.pos(j)) == src.count() - j,
    decreases j,
{
    if j > 0 {
        lemma_source_prefix(src, (j - 1) as nat);
        lemma_lex_step(src.input, src.pos((j - 1) as nat));
    }
}

proof fn lemma_source_after_end(src: TokenSource, k: nat)
    requires
        src.clean(),
        k >= src.count(),
    ensures
        src.pos(k) <= src.input.len(),
        src.tok(k).kind == TokenType::Eof,
    decreases k,
{
    if k == src.count() {
        lemma_source_prefix(src, k);
    } else {
        lemma_source_after_end(src, (k - 1) as nat);
        lemma_lex_step(src.input, src.pos((k - 1) as nat));
        lemma_lex_step_at_end(src.input);
    }
}

/// On clean text the `k`-th token is `Eof` exactly when `k` is at or past the
/// count, and no token is `Illegal`.
pub proof fn lemma_clean_source(src: TokenSource, k: nat)
    requires
        src.clean(),
    ensures
        src.pos(k) <= src.input.len(),
        (src.tok(k).kind == TokenType::Eof) == (k >= src.count()),
        src.tok(k).kind != TokenType::Illegal,
{
    if k >= src.count() {
        lemma_source_after_end(src, k);
    } else {
        lemma_source_prefix(src, k);
        lemma_lex_step(src.input, src.pos(k));
    }
}

/// Once the lexer hands out `Eof` it hands out `Eof` for ever, and once it
/// hands out `Illegal` it hands out `Illegal` for ever (it does not move past
/// an unknown character).
pub proof fn law_end_tokens_repeat(src: TokenSource, k: nat, j: nat)
    requires
        src.start <= src.input.len(),
        k <= j,
    ensures
        src.tok(k).kind == TokenType::Eof ==> src.tok(j) == eof_token(),
        src.tok(k).kind == TokenType::Illegal ==> src.tok(j) == illegal_token(),
    decreases j - k,
{
    lemma_source_positions(src, k);
    if k < j {
        lemma_lex_step(src.input, src.pos(k));
        lemma_lex_step_repeat(src.input, src.pos(k));
        assert(src.pos((k + 1) as nat) == lex_step(src.input, src.pos(k)).1);
        law_end_tokens_repeat(src, k + 1, j);
    } else {
        lemma_lex_step(src.input, src.pos(k));
    }
}

proof fn lemma_lex_step_repeat(s: Seq<char>, p: nat)
    requires
        p <= s.len(),
    ensures
        lex_step(s, p).0.kind == TokenType::Eof ==> lex_step(s, lex_step(s, p).1).0 == eof_token(),
        lex_step(s, p).0.kind == TokenType::Illegal ==> lex_step(s, lex_step(s, p).1).0 == illegal_token(),
{
    lemma_lex_step(s, p);
    let q = skip_white_space(s, p);
    lemma_skip_white_space(s, p);
    if lex_step(s, p).0.kind == TokenType::Illegal {
        assert(lex_step(s, p).1 == q);
        assert(skip_white_space(s, q) == q);
    }
}

/// Every position the lexer reaches lies within the text.
pub proof fn lemma_source_positions(src: TokenSource, k: nat)
    requires
        src.start <= src.input.len(),
    ensures
        src.pos(k) <= src.input.len(),
    decreases k,
{
    if k > 0 {
        lemma_source_positions(src, (k - 1) as nat);
        lemma_lex_step(src.input, src.pos((k - 1) as nat));
    }
}

// ---------------------------------------------------------------------------
// The tokens of a text and the text they are made of
// ---------------------------------------------------------------------------

/// Characters that are white space or belong to a token other than a string:
/// letters, digits, `=`, `!` and the characters that make a token alone.
pub open spec fn plain_char(c: char) -> bool {
    white_space(c) || letter(c) || digit(c) || c == '=' || c == '!' || single_char_kind(c) is Some
}

/// The tokens the lexer hands out from position `p`, before the first `Eof`
/// or `Illegal` one.
pub open spec fn tokens_from(s: Seq<char>, p: nat) -> Seq<SpecToken>
    decreases s.len() - p,
{
    let (t, q) = lex_step(s, p);
    if t.kind == TokenType::Eof || t.kind == TokenType::Illegal || q <= p || q > s.len() {
        Seq::empty()
    } else {
        seq![t] + tokens_from(s, q)
    }
}

/// The literals of the tokens, one after another.
pub open spec fn literals(ts: Seq<SpecToken>) -> Seq<char>
    decreases ts.len(),
{
    if ts.len() == 0 {
        Seq::empty()
    } else {
        ts[0].literal + literals(ts.drop_first())
    }
}

/// The characters of `s` from position `p` on that are not white space.
pub open spec fn non_white_from(s: Seq<char>, p: nat) -> Seq<char>
    decreases s.len() - p,
{
    if p >= s.len() {
        Seq::empty()
    } else if white_space(s[p as int]) {
        non_white_from(s, p + 1)
    } else {
        seq![s[p as int]] + non_white_from(s, p + 1)
    }
}

proof fn lemma_skip_white_space_all(s: Seq<char>, p: nat)
    ensures
        forall|i: int| p <= i < skip_white_space(s, p) ==> white_space(#[trigger] s[i]),
    decreases s.len() - p,
{
    if p < s.len() && white_space(s[p as int]) {
        lemma_skip_white_space_all(s, p + 1);
    }
}

proof fn lemma_end_of_word_all(s: Seq<char>, p: nat)
    ensures
        forall|i: int| p <= i < end_of_word(s, p) ==> letter(#[trigger] s[i]),
    decreases s.len() - p,
{
    if p < s.len() && letter(s[p as int]) {
        lemma_end_of_word_all(s, p + 1);
    }
}

proof fn lemma_end_of_number_all(s: Seq<char>, p: nat)
    ensures
        forall|i: int| p <= i < end_of_number(s, p) ==> digit(#[trigger] s[i]),
    decreases s.len() - p,
{
    if p < s.len() && digit(s[p as int]) {
        lemma_end_of_number_all(s, p + 1);
    }
}

/// White space adds nothing to the non-white characters.
proof fn lemma_non_white_skip(s: Seq<char>, p: nat, q: nat)
    requires
        p <= q <= s.len(),
        forall|i: int| p <= i < q ==> white_space(#[trigger] s[i]),
    ensures
        non_white_from(s, p) == non_white_from(s, q),
    decreases q - p,
{
    if p < q {
        lemma_non_white_skip(s, p + 1, q);
    }
}

/// A stretch without white space stands as it is among the non-white characters.
proof fn lemma_non_white_keep(s: Seq<char>, p: nat, e: nat)
    requires
        p <= e <= s.len(),
        forall|i: int| p <= i < e ==> !white_space(#[trigger] s[i]),
    ensures
        non_white_from(s, p) == s.subrange(p as int, e as int) + non_white_from(s, e),
    decreases e - p,
{
    if p < e {
        lemma_non_white_keep(s, p + 1, e);
        assert(s.subrange(p as int, e as int) =~= seq![s[p as int]] + s.subrange(p as int + 1, e as int));
        assert(seq![s[p as int]] + (s.subrange(p as int + 1, e as int) + non_white_from(s, e)) =~= seq![
            s[p as int],
        ] + s.subrange(p as int + 1, e as int) + non_white_from(s, e));
    } else {
        assert(s.subrange(p as int, e as int) =~= Seq::<char>::empty());
    }
}

/// Starting one token later is lexing from where the first token ends.
proof fn lemma_source_shift(s: Seq<char>, p: nat, i: nat)
    ensures
        (TokenSource { input: s, start: p }).pos(i + 1) == (TokenSource {
            input: s,
            start: lex_step(s, p).1,
        }).pos(i),
    decreases i,
{
    let a = TokenSource { input: s, start: p };
    let b = TokenSource { input: s, start: lex_step(s, p).1 };
    if i > 0 {
        lemma_source_shift(s, p, (i - 1) as nat);
        assert(a.pos(i + 1) == lex_step(s, a.pos(i)).1);
        assert(b.pos(i) == lex_step(s, b.pos((i - 1) as nat)).1);
    } else {
        assert(a.pos(0) == p);
        assert(a.pos(1) == lex_step(s, a.pos(0)).1);
    }
}

/// On plain text, a step that is not at the end gives a token whose literal is
/// the stretch of text it covers after the white space, and that stretch
/// holds no white space.
proof fn lemma_plain_step(s: Seq<char>, p: nat)
    requires
        p <= s.len(),
        forall|i: int| p <= i < s.len() ==> plain_char(#[trigger] s[i]),
    ensures
        lex_step(s, p).0.kind != TokenType::Illegal,
        lex_step(s, p).0.kind != TokenType::Eof ==> {
            let q0 = skip_white_space(s, p);
            let e = lex_step(s, p).1;
            &&& p <= q0 < e <= s.len()
            &&& lex_step(s, p).0.literal == s.subrange(q0 as int, e as int)
            &&& forall|i: int| q0 <= i < e ==> !white_space(#[trigger] s[i])
            &&& forall|i: int| p <= i < q0 ==> white_space(#[trigger] s[i])
        },
        lex_step(s, p).0.kind == TokenType::Eof ==> forall|i: int|
            p <= i < s.len() ==> white_space(#[trigger] s[i]),
{
    lemma_lex_step(s, p);
    lemma_skip_white_space(s, p);
    lemma_skip_white_space_all(s, p);
    let q0 = skip_white_space(s, p);
    if q0 < s.len() {
        let c = s[q0 as int];
        assert(plain_char(c));
        assert(!white_space(c));
        lemma_end_of_word_all(s, q0);
        lemma_end_of_number_all(s, q0);
        lemma_end_of_word(s, q0);
        lemma_end_of_number(s, q0);
        lemma_end_of_word(s, q0 + 1);
        lemma_end_of_number(s, q0 + 1);
        if c == '=' || c == '!' {
            if q0 + 1 < s.len() && s[q0 as int + 1] == '=' {
                assert(lex_step(s, p).0.literal =~= s.subrange(q0 as int, q0 as int + 2));
            } else {
                assert(lex_step(s, p).0.literal =~= s.subrange(q0 as int, q0 as int + 1));
            }
        } else if letter(c) {
            assert(lex_step(s, p).0.literal == s.subrange(q0 as int, lex_step(s, p).1 as int));
            assert(q0 < lex_step(s, p).1);
        } else if digit(c) {
            assert(lex_step(s, p).0.literal == s.subrange(q0 as int, lex_step(s, p).1 as int));
            assert(q0 < lex_step(s, p).1);
        } else {
            assert(single_char_kind(c) is Some);
            assert(lex_step(s, p).0.literal =~= s.subrange(q0 as int, q0 as int + 1));
        }
    }
}

proof fn lemma_plain_tokens(s: Seq<char>, p: nat)
    requires
        p <= s.len(),
        forall|i: int| p <= i < s.len() ==> plain_char(#[trigger] s[i]),
    ensures
        literals(tokens_from(s, p)) == non_white_from(s, p),
        tokens_from(s, p).len() == tokens_before_end(s, p),
        forall|i: int| 0 <= i < tokens_from(s, p).len() ==> {
            &&& #[trigger] tokens_from(s, p)[i] == (TokenSource { input: s, start: p }).tok(i as nat)
            &&& tokens_from(s, p)[i].kind != TokenType::Illegal
            &&& tokens_from(s, p)[i].literal.len() > 0
        },
        (TokenSource { input: s, start: p }).tok(tokens_from(s, p).len()).kind == TokenType::Eof,
    decreases s.len() - p,
{
    lemma_plain_step(s, p);
    lemma_lex_step(s, p);
    let (t, q) = lex_step(s, p);
    let src = TokenSource { input: s, start: p };
    if t.kind == TokenType::Eof {
        lemma_non_white_skip(s, p, s.len());
        assert(src.tok(0) == t);
    } else {
        let q0 = skip_white_space(s, p);
        lemma_plain_tokens(s, q);
        lemma_non_white_skip(s, p, q0);
        lemma_non_white_keep(s, q0, q);
        let rest = tokens_from(s, q);
        let all = tokens_from(s, p);
        assert(all == seq![t] + rest);
        assert(all.drop_first() =~= rest);
        let nsrc = TokenSource { input: s, start: q };
        assert forall|i: int| 0 <= i < all.len() implies {
            &&& #[trigger] all[i] == src.tok(i as nat)
            &&& all[i].kind != TokenType::Illegal
            &&& all[i].literal.len() > 0
        } by {
            if i == 0 {
                assert(src.tok(0) == t);
            } else {
                lemma_source_shift(s, p, (i - 1) as nat);
                assert(all[i] == rest[i - 1]);
                assert(rest[i - 1] == nsrc.tok((i - 1) as nat));
            }
        }
        lemma_source_shift(s, p, rest.len());
        assert(src.tok(all.len()) == nsrc.tok(rest.len()));
    }
}

/// On text made of plain characters (no string literal, no character the
/// language does not know), the lexer hands out tokens up to `Eof` with no
/// `Illegal` one; none of them has an empty literal; and their literals, one
/// after another, are the text without its white space.
pub proof fn law_tokens_rebuild_text(s: Seq<char>, p: nat)
    requires
        p <= s.len(),
        forall|i: int| p <= i < s.len() ==> plain_char(#[trigger] s[i]),
    ensures
        (TokenSource { input: s, start: p }).clean(),
        tokens_from(s, p).len() == (TokenSource { input: s, start: p }).count(),
        forall|i: int| 0 <= i < tokens_from(s, p).len() ==> {
            &&& #[trigger] tokens_from(s, p)[i] == (TokenSource { input: s, start: p }).tok(i as nat)
            &&& tokens_from(s, p)[i].kind != TokenType::Illegal
            &&& tokens_from(s, p)[i].literal.len() > 0
        },
        literals(tokens_from(s, p)) == non_white_from(s, p),
{
    lemma_plain_tokens(s, p);
}

/// Lexes Monkey source text.
pub struct Lexer {
    input: Vec<char>,
    position: usize,
}

impl View for Lexer {
    type V = (Seq<char>, nat);

    /// The text being lexed and the position of the next character to read.
    closed spec fn view(&self) -> (Seq<char>, nat) {
        (self.input@, self.position as nat)
    }
}

impl Lexer {
    /// The lexer's invariant: its position lies within the text.
    pub open spec fn wf(&self) -> bool {
        self@.1 <= self@.0.len()
    }

    pub fn new(input: &str) -> (r: Lexer)
        ensures
            r.wf(),
            r@ == (input@, 0nat),
    {
        let mut chars: Vec<char> = Vec::new();
        let mut it = input.chars();
        loop
            invariant
                it.obeys_prophetic_iter_laws(),
                it.remaining() == input@.skip(chars@.len() as int),
                chars@ == input@.take(chars@.len() as int),
                chars@.len() <= input@.len(),
            ensures
                chars@ == input@,
            decreases input@.len() - chars@.len(),
        {
            match it.next() {
                Some(c) => {
                    assert(input@.take(chars@.len() as int + 1) == input@.take(chars@.len() as int).push(c));
                    chars.push(c);
                },
                None => {
                    assert(input@.skip(chars@.len() as int).len() == 0);
                    assert(input@.take(input@.len() as int) =~= input@);
                    break ;
                },
            }
        }
        Lexer { input: chars, position: 0 }
    }

    /// Whether the text left to this lexer lexes into tokens that end with
    /// `Eof`, with no `Illegal` token on the way: the texts on which a parser
    /// built on this lexer reaches the end of its input.
    pub fn is_clean(&self) -> (r: bool)
        requires
            self.wf(),
        ensures
            r == (TokenSource { input: self@.0, start: self@.1 }).clean(),
    {
        let ghost src = TokenSource { input: self@.0, start: self@.1 };
        let mut probe = Lexer { input: self.input.clone(), position: self.position };
        assert(probe.input@ =~= self.input@);
        let ghost mut k: nat = 0;
        loop
            invariant
                src == (TokenSource { input: self@.0, start: self@.1 }),
                probe.wf(),
                probe@.0 == src.input,
                src.start <= src.input.len(),
                k <= src.count(),
                probe@.1 == src.pos(k),
            decreases src.input.len() - probe@.1,
        {
            proof {
                lemma_source_prefix(src, k);
                lemma_lex_step(src.input, src.pos(k));
            }
            let t = probe.next_token();
            if t.token_type == TokenType::Eof || t.token_type == TokenType::Illegal {
                return t.token_type == TokenType::Eof;
            }
            proof {
                k = k + 1;
            }
        }
    }

    pub fn next_token(&mut self) -> (t: Token)
        requires
            old(self).wf(),
        ensures
            final(self).wf(),
            final(self)@.0 == old(self)@.0,
            (t@, final(self)@.1) == lex_step(old(self)@.0, old(self)@.1),
    {
        let ghost s = self.input@;
        let ghost p = self.position as nat;
        self.skip_whitespace();
        proof {
            lemma_skip_white_space(s, p);
        }
        if self.position >= self.input.len() {
            return Token::eof();
        }
        let ch = self.input[self.position];
        if ch == '=' {
            self.handle_equals()
        } else if ch == '!' {
            self.handle_bang()
        } else if is_letter(ch) {
            self.read_identifier()
        } else if is_digit(ch) {
            self.read_number()
        } else if ch == '"' {
            self.read_string()
        } else {
            let kind = if ch == ';' {
                TokenType::Semicolon
            } else if ch == '(' {
                TokenType::LParen
            } else if ch == ')' {
                TokenType::RParen
            } else if ch == '{' {
                TokenType::LBrace
            } else if ch == '}' {
                TokenType::RBrace
            } else if ch == '[' {
                TokenType::LBracket
            } else if ch == ']' {
                TokenType::RBracket
            } else if ch == '+' {
                TokenType::Plus
            } else if ch == '-' {
                TokenType::Minus
            } else if ch == '*' {
                TokenType::Asterisk
            } else if ch == '/' {
                TokenType::Slash
            } else if ch == ',' {
                TokenType::Comma
            } else if ch == ':' {
                TokenType::Colon
            } else if ch == '<' {
                TokenType::Lt
            } else if ch == '>' {
                TokenType::Gt
            } else {
                return Token::illegal();
            };
            let mut literal = String::new();
            push_char(&mut literal, ch);
            self.advance();
            Token::from_string(kind, literal)
        }
    }

    fn advance(&mut self)
        requires
            old(self).wf(),
        ensures
            final(self).wf(),
            final(self).input == old(self).input,
            final(self).position == if old(self).position < old(self).input@.len() {
                old(self).position + 1
            } else {
                old(self).position as int
            },
    {
        if self.position < self.input.len() {
            self.position = self.position + 1;
        }
    }

    fn advance_steps(&mut self, step: usize)
        requires
            old(self).wf(),
        ensures
            final(self).wf(),
            final(self).input == old(self).input,
            final(self).position == if old(self).position + step <= old(self).input@.len() {
                old(self).position + step
            } else {
                old(self).input@.len() as int
            },
    {
        let mut i: usize = 0;
        while i < step
            invariant
                self.wf(),
                self.input == old(self).input,
                i <= step,
                self.position == if old(self).position + i <= old(self).input@.len() {
                    old(self).position + i
                } else {
                    old(self).input@.len() as int
                },
            decreases step - i,
        {
            self.advance();
            i = i + 1;
        }
    }

    fn peek(&self) -> (r: Option<char>)
        requires
            self.wf(),
        ensures
            r == if self.position + 1 < self.input@.len() {
                Some(self.input@[self.position + 1])
            } else {
                None::<char>
            },
    {
        if self.position < self.input.len() && self.input.len() - self.position >= 2 {
            Some(self.input[self.position + 1])
        } else {
            None
        }
    }

    fn read_number(&mut self) -> (t: Token)
        requires
            old(self).wf(),
        ensures
            final(self).wf(),
            final(self).input == old(self).input,
            final(self).position == end_of_number(old(self)@.0, old(self)@.1),
            t@ == (SpecToken {
                kind: TokenType::Int,
                literal: old(self)@.0.subrange(old(self).position as int, final(self).position as int),
            }),
    {
        let ghost s = self.input@;
        let start = self.position;
        let mut number = String::new();
        while self.position < self.input.len() && is_digit(self.input[self.position])
            invariant
                self.wf(),
                self.input == old(self).input,
                self.input@ == s,
                start <= self.position,
                end_of_number(s, self.position as nat) == end_of_number(s, start as nat),
                number@ == s.subrange(start as int, self.position as int),
            decreases self.input@.len() - self.position,
        {
            let ch = self.input[self.position];
            push_char(&mut number, ch);
            assert(s.subrange(start as int, self.position + 1) == s.subrange(start as int, self.position as int).push(ch));
            self.advance();
        }
        Token::from_string(TokenType::Int, number)
    }

    fn read_identifier(&mut self) -> (t: Token)
        requires
            old(self).wf(),
        ensures
            final(self).wf(),
            final(self).input == old(self).input,
            final(self).position == end_of_word(old(self)@.0, old(self)@.1),
            t@ == ({
                let w = old(self)@.0.subrange(old(self).position as int, final(self).position as int);
                SpecToken { kind: keyword_kind(w), literal: w }
            }),
    {
        let ghost s = self.input@;
        let start = self.position;
        let mut identifier = String::new();
        while self.position < self.input.len() && is_letter(self.input[self.position])
            invariant
                self.wf(),
                self.input == old(self).input,
                self.input@ == s,
                start <= self.position,
                end_of_word(s, self.position as nat) == end_of_word(s, start as nat),
                identifier@ == s.subrange(start as int, self.position as int),
            decreases self.input@.len() - self.position,
        {
            let ch = self.input[self.position];
            push_char(&mut identifier, ch);
            assert(s.subrange(start as int, self.position + 1) == s.subrange(start as int, self.position as int).push(ch));
            self.advance();
        }
        let kind = lookup_ident(identifier.as_str());
        Token::from_string(kind, identifier)
    }

    /// Reads a string literal; the position is on its opening quote. The
    /// literal ends at the next quote, which is consumed, or at the end.
    fn read_string(&mut self) -> (t: Token)
        requires
            old(self).wf(),
            old(self).position < old(self).input@.len(),
        ensures
            final(self).wf(),
            final(self).input == old(self).input,
            ({
                let s = old(self)@.0;
                let e = end_of_string(s, old(self)@.1 + 1);
                &&& t@ == (SpecToken {
                    kind: TokenType::String,
                    literal: s.subrange(old(self).position + 1, e as int),
                })
                &&& final(self).position == if e < s.len() { e + 1 } else { e + 0 }
            }),
    {
        let ghost s = self.input@;
        self.advance();
        let start = self.position;
        let mut value = String::new();
        while self.position < self.input.len() && self.input[self.position] != '"'
            invariant
                self.wf(),
                self.input == old(self).input,
                self.input@ == s,
                start <= self.position,
                end_of_string(s, self.position as nat) == end_of_string(s, start as nat),
                value@ == s.subrange(start as int, self.position as int),
            decreases self.input@.len() - self.position,
        {
            let ch = self.input[self.position];
            push_char(&mut value, ch);
            assert(s.subrange(start as int, self.position + 1) == s.subrange(start as int, self.position as int).push(ch));
            self.advance();
        }
        self.advance();
        Token::from_string(TokenType::String, value)
    }

    fn skip_whitespace(&mut self)
        requires
            old(self).wf(),
        ensures
            final(self).wf(),
            final(self).input == old(self).input,
            final(self).position == skip_white_space(old(self)@.0, old(self)@.1),
    {
        let ghost s = self.input@;
        let ghost p = self.position as nat;
        while self.position < self.input.len() && is_white_space(self.input[self.position])
            invariant
                self.wf(),
                self.input == old(self).input,
                self.input@ == s,
                skip_white_space(s, self.position as nat) == skip_white_space(s, p),
            decreases self.input@.len() - self.position,
        {
            self.advance();
        }
    }

    /// The position is on `=`: reads `==` or `=`.
    fn handle_equals(&mut self) -> (t: Token)
        requires
            old(self).wf(),
            old(self).position < old(self).input@.len(),
        ensures
            final(self).wf(),
            final(self).input == old(self).input,
            ({
                let s = old(self)@.0;
                let q = old(self).position as int;
                if q + 1 < s.len() && s[q as int + 1] == '=' {
                    t@ == (SpecToken { kind: TokenType::Eq, literal: seq!['=', '='] })
                        && final(self).position == q + 2
                } else {
                    t@ == (SpecToken { kind: TokenType::Assign, literal: seq!['='] })
                        && final(self).position == q + 1
                }
            }),
    {
        proof {
            reveal_strlit("==");
            reveal_strlit("=");
            assert("=="@ =~= seq!['=', '=']);
            assert("="@ =~= seq!['=']);
        }
        let peeked = self.peek();
        if let Some('=') = peeked {
            self.advance_steps(2);
            Token::new(TokenType::Eq, "==")
        } else {
            self.advance();
            Token::new(TokenType::Assign, "=")
        }
    }

    /// The position is on `!`: reads `!=` or `!`.
    fn handle_bang(&mut self) -> (t: Token)
        requires
            old(self).wf(),
            old(self).position < old(self).input@.len(),
        ensures
            final(self).wf(),
            final(self).input == old(self).input,
            ({
                let s = old(self)@.0;
                let q = old(self).position as int;
                if q + 1 < s.len() && s[q as int + 1] == '=' {
                    t@ == (SpecToken { kind: TokenType::NotEq, literal: seq!['!', '='] })
                        && final(self).position == q + 2
                } else {
                    t@ == (SpecToken { kind: TokenType::Bang, literal: seq!['!'] })
                        && final(self).position == q + 1
                }
            }),
    {
        proof {
            reveal_strlit("!=");
            reveal_strlit("!");
            assert("!="@ =~= seq!['!', '=']);
            assert("!"@ =~= seq!['!']);
        }
        if let Some('=') = self.peek() {
            self.advance_steps(2);
            Token::new(TokenType::NotEq, "!=")
        } else {
            self.advance();
            Token::new(TokenType::Bang, "!")
        }
    }
}

fn is_letter(ch: char) -> (r: bool)
    ensures
        r == letter(ch),
{
    ('a' <= ch && ch <= 'z') || ('A' <= ch && ch <= 'Z') || ch == '_' || ch == '?' || ch == '!'
}

fn is_digit(ch: char) -> (r: bool)
    ensures
        r == digit(ch),
{
    '0' <= ch && ch <= '9'
}

fn is_white_space(c: char) -> (r: bool)
    ensures
        r == white_space(c),
{
    ('\u{9}' <= c && c <= '\u{d}') || c == ' ' || c == '\u{85}' || c == '\u{a0}'
        || c == '\u{1680}' || ('\u{2000}' <= c && c <= '\u{200a}') || c == '\u{2028}'
        || c == '\u{2029}' || c == '\u{202f}' || c == '\u{205f}' || c == '\u{3000}'
}

} // verus!
