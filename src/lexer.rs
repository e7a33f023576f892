//! Splitting import source text into tokens.
use vstd::prelude::*;
use crate::ascii::{
    BACKSLASH, CARRIAGE_RETURN, CLOSE_PAREN, DIGIT_NINE, DIGIT_ZERO, LINE_FEED, LOWER_A, LOWER_Z,
    OPEN_PAREN, QUOTE, SEMICOLON, SLASH, SPACE, TAB, UNDERSCORE, UPPER_A, UPPER_Z,
};

verus! {

/// The kinds of token in import source text.
#[derive(Clone, Copy, Debug, PartialEq, Eq, Structural)]
pub enum TokenKind {
    /// A word of letters, digits and `_` that starts with a letter or `_`.
    Ident,
    /// A string literal without escapes, quotes included.
    Str,
    /// A string literal that holds a backslash or is never closed; it runs to the end of the text.
    BadStr,
    /// A numeric literal.
    Number,
    /// `;`
    Semi,
    /// `(`
    OpenParen,
    /// `)`
    CloseParen,
    /// Any other byte.
    Punct,
}

/// A token: its kind and the byte range `start..end` it covers in the text.
#[derive(Clone, Copy, Debug, PartialEq, Eq, Structural)]
pub struct Token {
    pub kind: TokenKind,
    pub start: usize,
    pub end: usize,
}

pub open spec fn is_ident_start(b: u8) -> bool {
    (UPPER_A <= b <= UPPER_Z) || (LOWER_A <= b <= LOWER_Z) || b == UNDERSCORE
}

pub open spec fn is_ident_continue(b: u8) -> bool {
    is_ident_start(b) || (DIGIT_ZERO <= b <= DIGIT_NINE)
}

pub open spec fn is_space(b: u8) -> bool {
    b == SPACE || b == TAB || b == LINE_FEED || b == CARRIAGE_RETURN
}

pub open spec fn is_digit(b: u8) -> bool {
    DIGIT_ZERO <= b <= DIGIT_NINE
}

/// The end of the run of identifier bytes that starts at `j`.
pub open spec fn word_end(s: Seq<u8>, j: int) -> int
    decreases s.len() - j,
{
    if 0 <= j < s.len() && is_ident_continue(s[j]) {
        word_end(s, j + 1)
    } else {
        j
    }
}

/// The position of the first quote or backslash at or after `j`, or the end of the text.
pub open spec fn string_end(s: Seq<u8>, j: int) -> int
    decreases s.len() - j,
{
    if 0 <= j < s.len() && s[j] != QUOTE && s[j] != BACKSLASH {
        string_end(s, j + 1)
    } else {
        j
    }
}

/// The position of the first line feed at or after `j`, or the end of the text.
pub open spec fn line_end(s: Seq<u8>, j: int) -> int
    decreases s.len() - j,
{
    if 0 <= j < s.len() && s[j] != LINE_FEED {
        line_end(s, j + 1)
    } else {
        j
    }
}

/// The token that starts at `i`, which holds no space and no comment.
pub open spec fn token_at(s: Seq<u8>, i: int) -> Token {
    let b = s[i];
    if is_ident_start(b) {
        Token { kind: TokenKind::Ident, start: i as usize, end: word_end(s, i + 1) as usize }
    } else if is_digit(b) {
        Token { kind: TokenKind::Number, start: i as usize, end: word_end(s, i + 1) as usize }
    } else if b == QUOTE {
        let e = string_end(s, i + 1);
        if e < s.len() && s[e] == QUOTE {
            Token { kind: TokenKind::Str, start: i as usize, end: (e + 1) as usize }
        } else {
            Token { kind: TokenKind::BadStr, start: i as usize, end: s.len() as usize }
        }
    } else if b == SEMICOLON {
        Token { kind: TokenKind::Semi, start: i as usize, end: (i + 1) as usize }
    } else if b == OPEN_PAREN {
        Token { kind: TokenKind::OpenParen, start: i as usize, end: (i + 1) as usize }
    } else if b == CLOSE_PAREN {
        Token { kind: TokenKind::CloseParen, start: i as usize, end: (i + 1) as usize }
    } else {
        Token { kind: TokenKind::Punct, start: i as usize, end: (i + 1) as usize }
    }
}

proof fn lemma_word_end_bounds(s: Seq<u8>, j: int)
    requires
        0 <= j <= s.len(),
    ensures
        j <= word_end(s, j) <= s.len(),
    decreases s.len() - j,
{
    if j < s.len() && is_ident_continue(s[j]) {
        lemma_word_end_bounds(s, j + 1);
    }
}

proof fn lemma_string_end_bounds(s: Seq<u8>, j: int)
    requires
        0 <= j <= s.len(),
    ensures
        j <= string_end(s, j) <= s.len(),
    decreases s.len() - j,
{
    if j < s.len() && s[j] != QUOTE && s[j] != BACKSLASH {
        lemma_string_end_bounds(s, j + 1);
    }
}

proof fn lemma_line_end_bounds(s: Seq<u8>, j: int)
    requires
        0 <= j <= s.len(),
    ensures
        j <= line_end(s, j) <= s.len(),
    decreases s.len() - j,
{
    if j < s.len() && s[j] != LINE_FEED {
        lemma_line_end_bounds(s, j + 1);
    }
}

proof fn lemma_token_at_bounds(s: Seq<u8>, i: int)
    requires
        0 <= i < s.len() <= usize::MAX,
    ensures
        token_at(s, i).start == i,
        i < token_at(s, i).end <= s.len(),
        token_in(s, token_at(s, i)),
{
    lemma_word_end_bounds(s, i + 1);
    lemma_string_end_bounds(s, i + 1);
}

/// A token lies inside the text, and a string literal covers both its quotes.
pub open spec fn token_in(s: Seq<u8>, t: Token) -> bool {
    &&& t.start < t.end <= s.len()
    &&& t.kind == TokenKind::Str ==> t.start + 2 <= t.end
}

/// The tokens of `s[i..]`; spaces and `//` line comments separate tokens.
/// Positions are `usize`, so only texts whose length fits one have tokens.
pub open spec fn lex_from(s: Seq<u8>, i: int) -> Seq<Token>
    decreases s.len() - i,
{
    if i < 0 || i >= s.len() || s.len() > usize::MAX {
        Seq::empty()
    } else if is_space(s[i]) {
        lex_from(s, i + 1)
    } else if s[i] == SLASH && i + 1 < s.len() && s[i + 1] == SLASH {
        let e = line_end(s, i + 2);
        if e <= i || e > s.len() {
            Seq::empty()
        } else {
            lex_from(s, e)
        }
    } else {
        let t = token_at(s, i);
        if t.end <= i || t.end > s.len() {
            Seq::empty()
        } else {
            seq![t] + lex_from(s, t.end as int)
        }
    }
}

/// The tokens of `s`.
pub open spec fn lex(s: Seq<u8>) -> Seq<Token> {
    lex_from(s, 0)
}

proof fn lemma_lex_from_in(s: Seq<u8>, i: int)
    ensures
        forall|k: int| 0 <= k < lex_from(s, i).len() ==> token_in(s, #[trigger] lex_from(s, i)[k]),
    decreases s.len() - i,
{
    if i < 0 || i >= s.len() || s.len() > usize::MAX {
    } else if is_space(s[i]) {
        lemma_lex_from_in(s, i + 1);
        assert(lex_from(s, i) == lex_from(s, i + 1));
    } else if s[i] == SLASH && i + 1 < s.len() && s[i + 1] == SLASH {
        let e = line_end(s, i + 2);
        if !(e <= i || e > s.len()) {
            lemma_lex_from_in(s, e);
            assert(lex_from(s, i) == lex_from(s, e));
        }
    } else {
        let t = token_at(s, i);
        lemma_token_at_bounds(s, i);
        lemma_lex_from_in(s, t.end as int);
        let rest = lex_from(s, t.end as int);
        assert(lex_from(s, i) == seq![t] + rest);
        assert forall|k: int| 0 <= k < lex_from(s, i).len() implies token_in(s, #[trigger] lex_from(s, i)[k]) by {
            if k > 0 {
                assert(lex_from(s, i)[k] == rest[k - 1]);
            }
        }
    }
}

/// Every token of a text lies inside it.
pub proof fn lex_tokens_in(s: Seq<u8>)
    ensures
        forall|k: int| 0 <= k < lex(s).len() ==> token_in(s, #[trigger] lex(s)[k]),
{
    lemma_lex_from_in(s, 0);
}

proof fn lemma_word_end_push(s: Seq<u8>, j: int)
    requires
        0 <= j <= s.len(),
    ensures
        word_end(s.push(SEMICOLON), j) == word_end(s, j),
    decreases s.len() - j,
{
    let s2 = s.push(SEMICOLON);
    if j < s.len() {
        assert(s2[j] == s[j]);
        if is_ident_continue(s[j]) {
            lemma_word_end_push(s, j + 1);
        }
    } else {
        assert(s2[j] == SEMICOLON);
    }
}

proof fn lemma_string_end_push(s: Seq<u8>, j: int)
    requires
        0 <= j <= s.len(),
        string_end(s, j) < s.len(),
    ensures
        string_end(s.push(SEMICOLON), j) == string_end(s, j),
    decreases s.len() - j,
{
    let s2 = s.push(SEMICOLON);
    assert(s2[j] == s[j]);
    if s[j] != QUOTE && s[j] != BACKSLASH {
        lemma_string_end_push(s, j + 1);
    }
}

proof fn lemma_line_end_push(s: Seq<u8>, j: int)
    requires
        0 <= j <= s.len(),
        line_end(s, j) < s.len(),
    ensures
        line_end(s.push(SEMICOLON), j) == line_end(s, j),
    decreases s.len() - j,
{
    let s2 = s.push(SEMICOLON);
    assert(s2[j] == s[j]);
    if s[j] != LINE_FEED {
        lemma_line_end_push(s, j + 1);
    }
}

/// The `;` token at position `p`.
pub open spec fn semi_at(p: int) -> Token {
    Token { kind: TokenKind::Semi, start: p as usize, end: (p + 1) as usize }
}

proof fn lemma_token_at_push(s: Seq<u8>, i: int)
    requires
        0 <= i < s.len() < usize::MAX,
        token_at(s, i).end < s.len() || token_at(s, i).kind != TokenKind::BadStr,
    ensures
        token_at(s.push(SEMICOLON), i) == token_at(s, i),
{
    let s2 = s.push(SEMICOLON);
    assert(s2[i] == s[i]);
    lemma_word_end_push(s, i + 1);
    lemma_string_end_bounds(s, i + 1);
    let e = string_end(s, i + 1);
    if s[i] == QUOTE && e < s.len() {
        lemma_string_end_push(s, i + 1);
        assert(s2[e] == s[e]);
    }
}

/// Lexing from `i` runs into the end of the text inside a `//` line comment.
pub open spec fn ends_in_comment(s: Seq<u8>, i: int) -> bool
    decreases s.len() - i,
{
    if i < 0 || i >= s.len() || s.len() > usize::MAX {
        false
    } else if is_space(s[i]) {
        ends_in_comment(s, i + 1)
    } else if s[i] == SLASH && i + 1 < s.len() && s[i + 1] == SLASH {
        let e = line_end(s, i + 2);
        if e <= i || e >= s.len() {
            true
        } else {
            ends_in_comment(s, e)
        }
    } else {
        let t = token_at(s, i);
        if t.end <= i || t.end > s.len() {
            false
        } else {
            ends_in_comment(s, t.end as int)
        }
    }
}

proof fn lemma_line_end_push_open(s: Seq<u8>, j: int)
    requires
        0 <= j <= s.len(),
        line_end(s, j) == s.len(),
    ensures
        line_end(s.push(SEMICOLON), j) == s.len() + 1,
    decreases s.len() + 1 - j,
{
    let s2 = s.push(SEMICOLON);
    if j < s.len() {
        assert(s2[j] == s[j]);
        lemma_line_end_push_open(s, j + 1);
    } else {
        assert(s2[j] == SEMICOLON);
        assert(line_end(s2, j + 1) == j + 1);
    }
}

proof fn lemma_lex_from_push(s: Seq<u8>, i: int)
    requires
        0 <= i <= s.len() < usize::MAX,
        lex_from(s, i).len() > 0 ==> lex_from(s, i).last().kind != TokenKind::BadStr,
    ensures
        lex_from(s.push(SEMICOLON), i) == if ends_in_comment(s, i) {
            lex_from(s, i)
        } else {
            lex_from(s, i).push(semi_at(s.len() as int))
        },
    decreases s.len() - i,
{
    let s2 = s.push(SEMICOLON);
    let n = s.len() as int;
    if i == n {
        assert(s2[n] == SEMICOLON);
        assert(token_at(s2, n) == semi_at(n));
        assert(lex_from(s2, n + 1) =~= Seq::<Token>::empty());
        assert(lex_from(s2, n) =~= seq![semi_at(n)]);
        assert(lex_from(s, n).push(semi_at(n)) =~= seq![semi_at(n)]);
        return;
    }
    assert(s2[i] == s[i]);
    if is_space(s[i]) {
        assert(lex_from(s, i) == lex_from(s, i + 1));
        assert(lex_from(s2, i) == lex_from(s2, i + 1));
        lemma_lex_from_push(s, i + 1);
    } else if s[i] == SLASH && i + 1 < s.len() && s[i + 1] == SLASH {
        assert(s2[i + 1] == s[i + 1]);
        lemma_line_end_bounds(s, i + 2);
        let e = line_end(s, i + 2);
        assert(lex_from(s, i) == lex_from(s, e));
        if e < n {
            lemma_line_end_push(s, i + 2);
            assert(lex_from(s2, i) == lex_from(s2, e));
            lemma_lex_from_push(s, e);
        } else {
            lemma_line_end_push_open(s, i + 2);
            assert(lex_from(s2, i) == lex_from(s2, n + 1));
        }
    } else {
        if i + 1 == s.len() {
            assert(s2[i + 1] == SEMICOLON);
        }
        let t = token_at(s, i);
        lemma_token_at_bounds(s, i);
        lemma_token_at_bounds(s2, i);
        let rest = lex_from(s, t.end as int);
        assert(lex_from(s, i) == seq![t] + rest);
        if rest.len() > 0 {
            assert((seq![t] + rest).last() == rest.last());
        } else {
            assert((seq![t] + rest).last() == t);
        }
        lemma_token_at_push(s, i);
        assert(lex_from(s2, i) == seq![t] + lex_from(s2, t.end as int));
        lemma_lex_from_push(s, t.end as int);
        assert(lex_from(s2, i) =~= (if ends_in_comment(s, i) {
            lex_from(s, i)
        } else {
            lex_from(s, i).push(semi_at(s.len() as int))
        }));
    }
}

/// Appending `;` to a text whose last token is not an unclosed string literal
/// appends one `;` token to its tokens, unless the text ends inside a line
/// comment, where the `;` changes nothing.
pub proof fn lex_push_terminator(s: Seq<u8>)
    requires
        s.len() < usize::MAX,
        lex(s).len() > 0 ==> lex(s).last().kind != TokenKind::BadStr,
    ensures
        lex(s.push(SEMICOLON)) == if ends_in_comment(s, 0) {
            lex(s)
        } else {
            lex(s).push(semi_at(s.len() as int))
        },
{
    lemma_lex_from_push(s, 0);
}

fn is_ident_start_byte(b: u8) -> (r: bool)
    ensures
        r == is_ident_start(b),
{
    (UPPER_A <= b && b <= UPPER_Z) || (LOWER_A <= b && b <= LOWER_Z) || b == UNDERSCORE
}

fn is_ident_continue_byte(b: u8) -> (r: bool)
    ensures
        r == is_ident_continue(b),
{
    is_ident_start_byte(b) || (DIGIT_ZERO <= b && b <= DIGIT_NINE)
}

fn word_end_of(s: &[u8], j: usize) -> (r: usize)
    requires
        j <= s@.len(),
    ensures
        r == word_end(s@, j as int),
{
    let mut k: usize = j;
    while k < s.len() && is_ident_continue_byte(s[k])
        invariant
            j <= k <= s@.len(),
            word_end(s@, j as int) == word_end(s@, k as int),
        decreases s@.len() - k,
    {
        k = k + 1;
    }
    k
}

fn string_end_of(s: &[u8], j: usize) -> (r: usize)
    requires
        j <= s@.len(),
    ensures
        r == string_end(s@, j as int),
{
    let mut k: usize = j;
    while k < s.len() && s[k] != QUOTE && s[k] != BACKSLASH
        invariant
            j <= k <= s@.len(),
            string_end(s@, j as int) == string_end(s@, k as int),
        decreases s@.len() - k,
    {
        k = k + 1;
    }
    k
}

fn line_end_of(s: &[u8], j: usize) -> (r: usize)
    requires
        j <= s@.len(),
    ensures
        r == line_end(s@, j as int),
{
    let mut k: usize = j;
    while k < s.len() && s[k] != LINE_FEED
        invariant
            j <= k <= s@.len(),
            line_end(s@, j as int) == line_end(s@, k as int),
        decreases s@.len() - k,
    {
        k = k + 1;
    }
    k
}

fn token_at_of(s: &[u8], i: usize) -> (t: Token)
    requires
        i < s@.len(),
        !is_space(s@[i as int]),
    ensures
        t == token_at(s@, i as int),
{
    let b = s[i];
    if is_ident_start_byte(b) {
        Token { kind: TokenKind::Ident, start: i, end: word_end_of(s, i + 1) }
    } else if DIGIT_ZERO <= b && b <= DIGIT_NINE {
        Token { kind: TokenKind::Number, start: i, end: word_end_of(s, i + 1) }
    } else if b == QUOTE {
        let e = string_end_of(s, i + 1);
        proof {
            lemma_string_end_bounds(s@, i + 1);
        }
        if e < s.len() && s[e] == QUOTE {
            Token { kind: TokenKind::Str, start: i, end: e + 1 }
        } else {
            Token { kind: TokenKind::BadStr, start: i, end: s.len() }
        }
    } else if b == SEMICOLON {
        Token { kind: TokenKind::Semi, start: i, end: i + 1 }
    } else if b == OPEN_PAREN {
        Token { kind: TokenKind::OpenParen, start: i, end: i + 1 }
    } else if b == CLOSE_PAREN {
        Token { kind: TokenKind::CloseParen, start: i, end: i + 1 }
    } else {
        Token { kind: TokenKind::Punct, start: i, end: i + 1 }
    }
}

/// Splits `s` into tokens; spaces and `//` line comments separate tokens.
pub fn tokenize(s: &[u8]) -> (r: Vec<Token>)
    ensures
        r@ == lex(s@),
        forall|k: int| 0 <= k < r@.len() ==> token_in(s@, #[trigger] r@[k]),
{
    let mut toks: Vec<Token> = Vec::new();
    let mut i: usize = 0;
    while i < s.len()
        invariant
            i <= s@.len(),
            lex(s@) == toks@ + lex_from(s@, i as int),
            forall|k: int| 0 <= k < toks@.len() ==> token_in(s@, #[trigger] toks@[k]),
        decreases s@.len() - i,
    {
        let b = s[i];
        if b == SPACE || b == TAB || b == LINE_FEED || b == CARRIAGE_RETURN {
            i = i + 1;
        } else if b == SLASH && i + 1 < s.len() && s[i + 1] == SLASH {
            proof {
                lemma_line_end_bounds(s@, i + 2);
            }
            i = line_end_of(s, i + 2);
        } else {
            let t = token_at_of(s, i);
            proof {
                lemma_token_at_bounds(s@, i as int);
            }
            let ghost before = toks@;
            toks.push(t);
            assert(toks@ + lex_from(s@, t.end as int) =~= before + (seq![t] + lex_from(s@, t.end as int)));
            i = t.end;
        }
    }
    assert(toks@ + lex_from(s@, i as int) =~= toks@);
    toks
}

} // verus!
