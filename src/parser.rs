//! Parsing a `;`-separated list of import statements:
//! `[visibility] "//gn/path:target" [as alias]`.
use vstd::prelude::*;
use crate::bytes::{append_range, range_equals};
use crate::path::{is_rust_identifier, parses_as_identifier};
use crate::ascii::SEMICOLON;
use crate::lexer::{ends_in_comment, lex, lex_push_terminator, lex_tokens_in, semi_at, token_in, tokenize, Token, TokenKind};

verus! {

/// The visibility written in front of an import.
#[derive(Clone, Copy, Debug, PartialEq, Eq, Structural)]
pub enum Visibility {
    Private,
    Public,
    PublicCrate,
    PublicSuper,
}

/// A byte range `start..end` of the source text.
#[derive(Clone, Copy, Debug, PartialEq, Eq, Structural)]
pub struct Span {
    pub start: usize,
    pub end: usize,
}

/// One parsed import statement. `path` covers the contents of the string
/// literal, which starts at `path_pos`; `alias` covers the identifier after `as`.
#[derive(Clone, Copy, Debug, PartialEq, Eq, Structural)]
pub struct Import {
    pub visibility: Visibility,
    pub path: Span,
    pub path_pos: usize,
    pub alias: Option<Span>,
}

/// What went wrong while parsing an import list.
#[derive(Clone, Copy, Debug, PartialEq, Eq, Structural)]
pub enum ParseErrorKind {
    /// No string literal where the GN path belongs.
    ExpectedPathLiteral,
    /// `as` is not followed by an identifier.
    ExpectedAliasIdentifier,
    /// A statement is followed by something other than `;`.
    UnterminatedImportList,
}

/// A parse error and the position in the text of the token it concerns.
#[derive(Clone, Copy, Debug, PartialEq, Eq, Structural)]
pub struct ParseError {
    pub kind: ParseErrorKind,
    pub pos: usize,
}

/// `pub`
pub open spec fn word_pub() -> Seq<u8> {
    seq![112u8, 117, 98]
}

/// `crate`
pub open spec fn word_crate() -> Seq<u8> {
    seq![99u8, 114, 97, 116, 101]
}

/// `super`
pub open spec fn word_super() -> Seq<u8> {
    seq![115u8, 117, 112, 101, 114]
}

/// `as`
pub open spec fn word_as() -> Seq<u8> {
    seq![97u8, 115]
}

/// The bytes of `s` in `span`.
pub open spec fn span_text(s: Seq<u8>, span: Span) -> Seq<u8> {
    s.subrange(span.start as int, span.end as int)
}

/// Token `j` exists and has kind `k`.
pub open spec fn has_kind(ts: Seq<Token>, j: int, k: TokenKind) -> bool {
    0 <= j < ts.len() && ts[j].kind == k
}

/// Token `j` is the identifier `w`.
pub open spec fn is_word(s: Seq<u8>, ts: Seq<Token>, j: int, w: Seq<u8>) -> bool {
    has_kind(ts, j, TokenKind::Ident) && s.subrange(ts[j].start as int, ts[j].end as int) == w
}

/// Token `j` is a word that may name a crate: an identifier, not a keyword.
pub open spec fn is_alias(s: Seq<u8>, ts: Seq<Token>, j: int) -> bool {
    has_kind(ts, j, TokenKind::Ident) && is_rust_identifier(s.subrange(ts[j].start as int, ts[j].end as int))
}

/// Where an error at token `j` is reported: the token's start, or the end of the text.
pub open spec fn pos_at(s: Seq<u8>, ts: Seq<Token>, j: int) -> usize {
    if 0 <= j < ts.len() {
        ts[j].start
    } else {
        s.len() as usize
    }
}

/// The visibility at token `i` and the index of the token after it.
pub open spec fn parse_visibility(s: Seq<u8>, ts: Seq<Token>, i: int) -> (Visibility, int) {
    if is_word(s, ts, i, word_pub()) {
        if has_kind(ts, i + 1, TokenKind::OpenParen) && has_kind(ts, i + 3, TokenKind::CloseParen)
            && is_word(s, ts, i + 2, word_crate()) {
            (Visibility::PublicCrate, i + 4)
        } else if has_kind(ts, i + 1, TokenKind::OpenParen) && has_kind(
            ts,
            i + 3,
            TokenKind::CloseParen,
        ) && is_word(s, ts, i + 2, word_super()) {
            (Visibility::PublicSuper, i + 4)
        } else {
            (Visibility::Public, i + 1)
        }
    } else {
        (Visibility::Private, i)
    }
}

/// The statement at token `i` and the index of the token after it.
pub open spec fn parse_statement(s: Seq<u8>, ts: Seq<Token>, i: int) -> Result<(Import, int), ParseError> {
    let (vis, j) = parse_visibility(s, ts, i);
    if !has_kind(ts, j, TokenKind::Str) {
        Err(ParseError { kind: ParseErrorKind::ExpectedPathLiteral, pos: pos_at(s, ts, j) })
    } else {
        let path = Span { start: (ts[j].start + 1) as usize, end: (ts[j].end - 1) as usize };
        if is_word(s, ts, j + 1, word_as()) {
            if is_alias(s, ts, j + 2) {
                let alias = Span { start: ts[j + 2].start, end: ts[j + 2].end };
                Ok(
                    (
                        Import { visibility: vis, path, path_pos: ts[j].start, alias: Some(alias) },
                        j + 3,
                    ),
                )
            } else {
                Err(
                    ParseError {
                        kind: ParseErrorKind::ExpectedAliasIdentifier,
                        pos: pos_at(s, ts, j + 2),
                    },
                )
            }
        } else {
            Ok((Import { visibility: vis, path, path_pos: ts[j].start, alias: None }, j + 1))
        }
    }
}

/// `Ok(v + rest)` for `Ok(rest)`; errors pass through.
pub open spec fn prepend(v: Seq<Import>, r: Result<Seq<Import>, ParseError>) -> Result<
    Seq<Import>,
    ParseError,
> {
    match r {
        Ok(rest) => Ok(v + rest),
        Err(e) => Err(e),
    }
}

/// The statements from token `i` on: each but the last must be followed by
/// `;`, and the last may be.
pub open spec fn parse_list(s: Seq<u8>, ts: Seq<Token>, i: int) -> Result<Seq<Import>, ParseError>
    decreases ts.len() - i,
{
    if i < 0 || i >= ts.len() {
        Ok(Seq::empty())
    } else {
        match parse_statement(s, ts, i) {
            Err(e) => Err(e),
            Ok((imp, j)) => if j >= ts.len() {
                Ok(seq![imp])
            } else if ts[j].kind == TokenKind::Semi && j > i {
                // A statement covers at least one token, so `j > i` always holds;
                // stating it bounds the recursion.
                prepend(seq![imp], parse_list(s, ts, j + 1))
            } else {
                Err(ParseError { kind: ParseErrorKind::UnterminatedImportList, pos: ts[j].start })
            },
        }
    }
}

/// The import statements of a source text.
pub open spec fn parse_text(s: Seq<u8>) -> Result<Seq<Import>, ParseError> {
    parse_list(s, lex(s), 0)
}

/// The spans of an import lie inside the text.
pub open spec fn import_in(s: Seq<u8>, imp: Import) -> bool {
    &&& imp.path.start <= imp.path.end <= s.len()
    &&& imp.alias matches Some(a) ==> a.start <= a.end <= s.len()
}

proof fn lemma_statement_ignores_terminator(s: Seq<u8>, ts: Seq<Token>, t: Token, i: int)
    requires
        0 <= i < ts.len(),
        t.kind == TokenKind::Semi,
        parse_statement(s, ts, i) is Ok,
    ensures
        parse_statement(s, ts.push(t), i) == parse_statement(s, ts, i),
        parse_statement(s, ts, i)->Ok_0.1 <= ts.len(),
{
    let ts2 = ts.push(t);
    assert forall|k: int, kind: TokenKind| kind != TokenKind::Semi implies has_kind(ts2, k, kind) == has_kind(ts, k, kind) by {
        if 0 <= k < ts.len() {
            assert(ts2[k] == ts[k]);
        }
    }
    assert forall|k: int, w: Seq<u8>| is_word(s, ts2, k, w) == is_word(s, ts, k, w) by {
        if 0 <= k < ts.len() {
            assert(ts2[k] == ts[k]);
        }
    }
    let (vis, j) = parse_visibility(s, ts, i);
    assert(parse_visibility(s, ts2, i) == (vis, j));
    assert(ts2[j] == ts[j]);
}

proof fn lemma_list_ignores_terminator(s: Seq<u8>, ts: Seq<Token>, t: Token, i: int)
    requires
        0 <= i < ts.len(),
        t.kind == TokenKind::Semi,
        ts.last().kind != TokenKind::Semi,
        parse_list(s, ts, i) is Ok,
    ensures
        parse_list(s, ts.push(t), i) == parse_list(s, ts, i),
    decreases ts.len() - i,
{
    let ts2 = ts.push(t);
    lemma_statement_ignores_terminator(s, ts, t, i);
    let (imp, j) = parse_statement(s, ts, i)->Ok_0;
    if j >= ts.len() {
        assert(ts2[j] == t);
        assert(parse_list(s, ts2, j + 1) == Ok::<Seq<Import>, ParseError>(Seq::empty()));
        assert(seq![imp] + Seq::<Import>::empty() =~= seq![imp]);
    } else {
        assert(ts2[j] == ts[j]);
        if j + 1 < ts.len() {
            lemma_list_ignores_terminator(s, ts, t, j + 1);
        } else {
            assert(ts.last() == ts[j]);
        }
    }
}

/// A terminator after the last statement is optional: appending a `;` token
/// to a token list that parses to at least one statement, and does not end
/// in `;` already, leaves the parsed statements as they were.
pub proof fn trailing_terminator_is_optional(s: Seq<u8>, ts: Seq<Token>, t: Token)
    requires
        parse_list(s, ts, 0) is Ok,
        parse_list(s, ts, 0)->Ok_0.len() > 0,
        ts.last().kind != TokenKind::Semi,
        t.kind == TokenKind::Semi,
    ensures
        parse_list(s, ts.push(t), 0) == parse_list(s, ts, 0),
{
    lemma_list_ignores_terminator(s, ts, t, 0);
}

proof fn lemma_list_ends_in_statement(s: Seq<u8>, ts: Seq<Token>, i: int)
    requires
        0 <= i < ts.len(),
        ts.last().kind != TokenKind::Semi,
        parse_list(s, ts, i) is Ok,
    ensures
        ts.last().kind == TokenKind::Str || ts.last().kind == TokenKind::Ident,
    decreases ts.len() - i,
{
    let (imp, j) = parse_statement(s, ts, i)->Ok_0;
    if j < ts.len() {
        if j + 1 < ts.len() {
            lemma_list_ends_in_statement(s, ts, j + 1);
        } else {
            assert(ts.last() == ts[j]);
        }
    } else {
        let (vis, k) = parse_visibility(s, ts, i);
        if j == k + 1 {
            assert(ts.last() == ts[k]);
        } else {
            assert(ts.last() == ts[k + 2]);
        }
    }
}

proof fn lemma_list_ignores_appended_text(s: Seq<u8>, ts: Seq<Token>, i: int)
    requires
        0 <= i,
        forall|k: int| has_kind(ts, k, TokenKind::Ident) ==> ts[k].start <= ts[k].end <= s.len(),
        parse_list(s, ts, i) is Ok,
    ensures
        parse_list(s.push(SEMICOLON), ts, i) == parse_list(s, ts, i),
    decreases ts.len() - i,
{
    let s2 = s.push(SEMICOLON);
    if i < ts.len() {
        assert forall|k: int, w: Seq<u8>| is_word(s2, ts, k, w) == is_word(s, ts, k, w) by {
            if has_kind(ts, k, TokenKind::Ident) {
                assert(s2.subrange(ts[k].start as int, ts[k].end as int) =~= s.subrange(
                    ts[k].start as int,
                    ts[k].end as int,
                ));
            }
        }
        assert forall|k: int| is_alias(s2, ts, k) == is_alias(s, ts, k) by {
            if has_kind(ts, k, TokenKind::Ident) {
                assert(s2.subrange(ts[k].start as int, ts[k].end as int) =~= s.subrange(
                    ts[k].start as int,
                    ts[k].end as int,
                ));
            }
        }
        let (vis, k) = parse_visibility(s, ts, i);
        assert(parse_visibility(s2, ts, i) == (vis, k));
        assert(parse_statement(s2, ts, i) == parse_statement(s, ts, i));
        let (imp, j) = parse_statement(s, ts, i)->Ok_0;
        if j < ts.len() && j + 1 < ts.len() {
            lemma_list_ignores_appended_text(s, ts, j + 1);
        }
    }
}

/// The terminator after the last statement of a text is optional: when the
/// text parses to at least one statement and its last token is not `;`,
/// appending `;` leaves the parsed statements as they were.
pub proof fn trailing_terminator_in_text_is_optional(s: Seq<u8>)
    requires
        s.len() < usize::MAX,
        parse_text(s) is Ok,
        parse_text(s)->Ok_0.len() > 0,
        lex(s).last().kind != TokenKind::Semi,
    ensures
        parse_text(s.push(SEMICOLON)) == parse_text(s),
{
    let ts = lex(s);
    lemma_list_ends_in_statement(s, ts, 0);
    lex_push_terminator(s);
    lex_tokens_in(s);
    if ends_in_comment(s, 0) {
        assert forall|k: int| has_kind(ts, k, TokenKind::Ident) implies ts[k].start <= ts[k].end <= s.len() by {
            assert(token_in(s, ts[k]));
        }
        lemma_list_ignores_appended_text(s, ts, 0);
    } else {
        let ts2 = ts.push(semi_at(s.len() as int));
        trailing_terminator_is_optional(s, ts, semi_at(s.len() as int));
        assert forall|k: int| has_kind(ts2, k, TokenKind::Ident) implies ts2[k].start <= ts2[k].end <= s.len() by {
            assert(ts2[k] == ts[k]);
            assert(token_in(s, ts[k]));
        }
        lemma_list_ignores_appended_text(s, ts2, 0);
    }
}

/// Every token lies inside the text.
pub open spec fn tokens_in(s: Seq<u8>, ts: Seq<Token>) -> bool {
    forall|k: int| 0 <= k < ts.len() ==> token_in(s, #[trigger] ts[k])
}

fn is_word_at(s: &[u8], ts: &Vec<Token>, j: usize, w: &[u8]) -> (r: bool)
    requires
        tokens_in(s@, ts@),
    ensures
        r == is_word(s@, ts@, j as int, w@),
{
    if j < ts.len() && ts[j].kind == TokenKind::Ident {
        assert(token_in(s@, ts@[j as int]));
        range_equals(s, ts[j].start, ts[j].end, w)
    } else {
        false
    }
}

fn is_alias_at(s: &[u8], ts: &Vec<Token>, j: usize) -> (r: bool)
    requires
        tokens_in(s@, ts@),
    ensures
        r == is_alias(s@, ts@, j as int),
{
    if j < ts.len() && ts[j].kind == TokenKind::Ident {
        assert(token_in(s@, ts@[j as int]));
        let mut word: Vec<u8> = Vec::new();
        append_range(&mut word, s, ts[j].start, ts[j].end);
        parses_as_identifier(word.as_slice())
    } else {
        false
    }
}

fn has_kind_at(ts: &Vec<Token>, j: usize, k: TokenKind) -> (r: bool)
    ensures
        r == has_kind(ts@, j as int, k),
{
    j < ts.len() && ts[j].kind == k
}

fn pos_at_of(s: &[u8], ts: &Vec<Token>, j: usize) -> (r: usize)
    ensures
        r == pos_at(s@, ts@, j as int),
{
    if j < ts.len() {
        ts[j].start
    } else {
        s.len()
    }
}

fn parse_visibility_at(s: &[u8], ts: &Vec<Token>, i: usize) -> (r: (Visibility, usize))
    requires
        tokens_in(s@, ts@),
        i < ts@.len(),
    ensures
        (r.0, r.1 as int) == parse_visibility(s@, ts@, i as int),
        i <= r.1 <= ts@.len(),
{
    let word_pub: [u8; 3] = [112u8, 117, 98];
    let word_crate: [u8; 5] = [99u8, 114, 97, 116, 101];
    let word_super: [u8; 5] = [115u8, 117, 112, 101, 114];
    assert(word_pub@ =~= crate::parser::word_pub());
    assert(word_crate@ =~= crate::parser::word_crate());
    assert(word_super@ =~= crate::parser::word_super());
    if is_word_at(s, ts, i, &word_pub) {
        let parens = ts.len() - i > 3 && has_kind_at(ts, i + 1, TokenKind::OpenParen) && has_kind_at(
            ts,
            i + 3,
            TokenKind::CloseParen,
        );
        if parens && is_word_at(s, ts, i + 2, &word_crate) {
            (Visibility::PublicCrate, i + 4)
        } else if parens && is_word_at(s, ts, i + 2, &word_super) {
            (Visibility::PublicSuper, i + 4)
        } else {
            (Visibility::Public, i + 1)
        }
    } else {
        (Visibility::Private, i)
    }
}

fn parse_statement_at(s: &[u8], ts: &Vec<Token>, i: usize) -> (r: Result<(Import, usize), ParseError>)
    requires
        tokens_in(s@, ts@),
        i < ts@.len(),
    ensures
        match parse_statement(s@, ts@, i as int) {
            Ok((imp, j)) => r == Ok::<(Import, usize), ParseError>((imp, j as usize)) && i < j <= ts@.len()
                && import_in(s@, imp),
            Err(e) => r == Err::<(Import, usize), ParseError>(e),
        },
{
    let (vis, j) = parse_visibility_at(s, ts, i);
    if !(j < ts.len() && ts[j].kind == TokenKind::Str) {
        return Err(ParseError { kind: ParseErrorKind::ExpectedPathLiteral, pos: pos_at_of(s, ts, j) });
    }
    assert(token_in(s@, ts@[j as int]));
    let lit = ts[j];
    let path = Span { start: lit.start + 1, end: lit.end - 1 };
    let word_as: [u8; 2] = [97u8, 115];
    assert(word_as@ =~= crate::parser::word_as());
    if is_word_at(s, ts, j + 1, &word_as) {
        if is_alias_at(s, ts, j + 2) {
            assert(token_in(s@, ts@[j + 2]));
            let alias = Span { start: ts[j + 2].start, end: ts[j + 2].end };
            Ok((Import { visibility: vis, path, path_pos: lit.start, alias: Some(alias) }, j + 3))
        } else {
            Err(ParseError { kind: ParseErrorKind::ExpectedAliasIdentifier, pos: pos_at_of(s, ts, j + 2) })
        }
    } else {
        Ok((Import { visibility: vis, path, path_pos: lit.start, alias: None }, j + 1))
    }
}

/// Parses the statements of a token list.
pub fn parse_tokens(s: &[u8], ts: &Vec<Token>) -> (r: Result<Vec<Import>, ParseError>)
    requires
        tokens_in(s@, ts@),
    ensures
        match parse_list(s@, ts@, 0) {
            Ok(v) => r matches Ok(w) && w@ == v,
            Err(e) => r == Err::<Vec<Import>, ParseError>(e),
        },
        r matches Ok(w) ==> forall|k: int| 0 <= k < w@.len() ==> import_in(s@, #[trigger] w@[k]),
{
    let mut out: Vec<Import> = Vec::new();
    let mut i: usize = 0;
    while i < ts.len()
        invariant
            i <= ts@.len(),
            tokens_in(s@, ts@),
            parse_list(s@, ts@, 0) == prepend(out@, parse_list(s@, ts@, i as int)),
            forall|k: int| 0 <= k < out@.len() ==> import_in(s@, #[trigger] out@[k]),
        decreases ts@.len() - i,
    {
        let ghost before = out@;
        match parse_statement_at(s, ts, i) {
            Err(e) => {
                return Err(e);
            },
            Ok((imp, j)) => {
                out.push(imp);
                if j >= ts.len() {
                    assert(out@ =~= before + seq![imp]);
                    return Ok(out);
                } else if ts[j].kind == TokenKind::Semi {
                    assert(out@ =~= before + seq![imp]);
                    assert(prepend(before, prepend(seq![imp], parse_list(s@, ts@, j + 1))) == prepend(
                        out@,
                        parse_list(s@, ts@, j + 1),
                    )) by {
                        match parse_list(s@, ts@, j + 1) {
                            Ok(rest) => {
                                assert(before + (seq![imp] + rest) =~= out@ + rest);
                            },
                            Err(e) => {},
                        }
                    }
                    i = j + 1;
                } else {
                    return Err(ParseError { kind: ParseErrorKind::UnterminatedImportList, pos: ts[j].start });
                }
            },
        }
    }
    assert(out@ + Seq::<Import>::empty() =~= out@);
    Ok(out)
}

/// Parses an import list from source text.
pub fn parse_imports(s: &[u8]) -> (r: Result<Vec<Import>, ParseError>)
    ensures
        match parse_text(s@) {
            Ok(v) => r matches Ok(w) && w@ == v,
            Err(e) => r == Err::<Vec<Import>, ParseError>(e),
        },
        r matches Ok(w) ==> forall|k: int| 0 <= k < w@.len() ==> import_in(s@, #[trigger] w@[k]),
{
    let ts = tokenize(s);
    parse_tokens(s, &ts)
}

} // verus!
