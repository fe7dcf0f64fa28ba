//! Tokenizer for the rule-scripting language.
//!
//! The input is a raw byte buffer. It is processed one source line at a
//! time; each line is stripped of leading and trailing whitespace and
//! semicolons, cut into classified tokens, and terminated by exactly one
//! newline token. A token records whether whitespace separated it from
//! the previous token of its line, so that captured free-form spans can
//! be re-joined later with single spaces where the source had spacing.

use vstd::prelude::*;

verus! {

/// A classified token of one source line.
#[derive(Debug, Clone, PartialEq, Eq)]
pub enum Token {
    KeywordSet,
    KeywordProc,
    KeywordIf,
    KeywordElseIf,
    KeywordElse,
    KeywordSwitch,
    KeywordLog,
    KeywordSnat,
    KeywordNode,
    KeywordPool,
    KeywordSnatPool,
    KeywordReturn,
    KeywordWhen,
    DoubleColon,
    Colon,
    LCurlyBracket,
    RCurlyBracket,
    LSquareBracket,
    RSquareBracket,
    LParen,
    RParen,
    LAngleBracket,
    RAngleBracket,
    Dollar,
    Quote,
    Hash,
    Minus,
    Plus,
    Equals,
    Modulo,
    Star,
    Bang,
    Ampersand,
    Newline,
    /// A maximal run of alphanumeric bytes, `_` or `.`.
    Identifier(Vec<u8>),
    /// A free-form text span captured as it stands.
    Other(Vec<u8>),
}

/// The mathematical value of a token: the same shape with byte sequences
/// in place of byte vectors.
pub enum TokenV {
    KeywordSet,
    KeywordProc,
    KeywordIf,
    KeywordElseIf,
    KeywordElse,
    KeywordSwitch,
    KeywordLog,
    KeywordSnat,
    KeywordNode,
    KeywordPool,
    KeywordSnatPool,
    KeywordReturn,
    KeywordWhen,
    DoubleColon,
    Colon,
    LCurlyBracket,
    RCurlyBracket,
    LSquareBracket,
    RSquareBracket,
    LParen,
    RParen,
    LAngleBracket,
    RAngleBracket,
    Dollar,
    Quote,
    Hash,
    Minus,
    Plus,
    Equals,
    Modulo,
    Star,
    Bang,
    Ampersand,
    Newline,
    Identifier(Seq<u8>),
    Other(Seq<u8>),
}

impl View for Token {
    type V = TokenV;

    open spec fn view(&self) -> TokenV {
        match self {
            Token::KeywordSet => TokenV::KeywordSet,
            Token::KeywordProc => TokenV::KeywordProc,
            Token::KeywordIf => TokenV::KeywordIf,
            Token::KeywordElseIf => TokenV::KeywordElseIf,
            Token::KeywordElse => TokenV::KeywordElse,
            Token::KeywordSwitch => TokenV::KeywordSwitch,
            Token::KeywordLog => TokenV::KeywordLog,
            Token::KeywordSnat => TokenV::KeywordSnat,
            Token::KeywordNode => TokenV::KeywordNode,
            Token::KeywordPool => TokenV::KeywordPool,
            Token::KeywordSnatPool => TokenV::KeywordSnatPool,
            Token::KeywordReturn => TokenV::KeywordReturn,
            Token::KeywordWhen => TokenV::KeywordWhen,
            Token::DoubleColon => TokenV::DoubleColon,
            Token::Colon => TokenV::Colon,
            Token::LCurlyBracket => TokenV::LCurlyBracket,
            Token::RCurlyBracket => TokenV::RCurlyBracket,
            Token::LSquareBracket => TokenV::LSquareBracket,
            Token::RSquareBracket => TokenV::RSquareBracket,
            Token::LParen => TokenV::LParen,
            Token::RParen => TokenV::RParen,
            Token::LAngleBracket => TokenV::LAngleBracket,
            Token::RAngleBracket => TokenV::RAngleBracket,
            Token::Dollar => TokenV::Dollar,
            Token::Quote => TokenV::Quote,
            Token::Hash => TokenV::Hash,
            Token::Minus => TokenV::Minus,
            Token::Plus => TokenV::Plus,
            Token::Equals => TokenV::Equals,
            Token::Modulo => TokenV::Modulo,
            Token::Star => TokenV::Star,
            Token::Bang => TokenV::Bang,
            Token::Ampersand => TokenV::Ampersand,
            Token::Newline => TokenV::Newline,
            Token::Identifier(data) => TokenV::Identifier(data@),
            Token::Other(data) => TokenV::Other(data@),
        }
    }
}

/// A token together with a flag telling whether whitespace (or a
/// semicolon) stood between it and the previous token of its line.
#[derive(Debug, Clone, PartialEq, Eq)]
pub struct SpacedToken {
    pub space_before: bool,
    pub token: Token,
}

/// The mathematical value of a spaced token.
pub struct SpacedTokenV {
    pub space_before: bool,
    pub token: TokenV,
}

impl View for SpacedToken {
    type V = SpacedTokenV;

    open spec fn view(&self) -> SpacedTokenV {
        SpacedTokenV { space_before: self.space_before, token: self.token@ }
    }
}

/// The mathematical value of a token sequence.
pub open spec fn toks_view(ts: Seq<SpacedToken>) -> Seq<SpacedTokenV> {
    ts.map_values(|t: SpacedToken| t@)
}

/// The literal text a token stands for.
pub open spec fn token_text(t: TokenV) -> Seq<u8> {
    match t {
        TokenV::KeywordSet => seq![115u8, 101u8, 116u8],  // set
        TokenV::KeywordProc => seq![112u8, 114u8, 111u8, 99u8],  // proc
        TokenV::KeywordIf => seq![105u8, 102u8],  // if
        TokenV::KeywordElseIf => seq![101u8, 108u8, 115u8, 101u8, 105u8, 102u8],  // elseif
        TokenV::KeywordElse => seq![101u8, 108u8, 115u8, 101u8],  // else
        TokenV::KeywordSwitch => seq![115u8, 119u8, 105u8, 116u8, 99u8, 104u8],  // switch
        TokenV::KeywordLog => seq![108u8, 111u8, 103u8],  // log
        TokenV::KeywordSnat => seq![115u8, 110u8, 97u8, 116u8],  // snat
        TokenV::KeywordNode => seq![110u8, 111u8, 100u8, 101u8],  // node
        TokenV::KeywordPool => seq![112u8, 111u8, 111u8, 108u8],  // pool
        TokenV::KeywordSnatPool => seq![
            115u8,
            110u8,
            97u8,
            116u8,
            112u8,
            111u8,
            111u8,
            108u8,
        ],  // snatpool
        TokenV::KeywordReturn => seq![114u8, 101u8, 116u8, 117u8, 114u8, 110u8],  // return
        TokenV::KeywordWhen => seq![119u8, 104u8, 101u8, 110u8],  // when
        TokenV::DoubleColon => seq![58u8, 58u8],  // ::
        TokenV::Colon => seq![58u8],  // :
        TokenV::LCurlyBracket => seq![123u8],  // {
        TokenV::RCurlyBracket => seq![125u8],  // }
        TokenV::LSquareBracket => seq![91u8],  // [
        TokenV::RSquareBracket => seq![93u8],  // ]
        TokenV::LParen => seq![40u8],  // (
        TokenV::RParen => seq![41u8],  // )
        TokenV::LAngleBracket => seq![60u8],  // <
        TokenV::RAngleBracket => seq![62u8],  // >
        TokenV::Dollar => seq![36u8],  // $
        TokenV::Quote => seq![34u8],  // "
        TokenV::Hash => seq![35u8],  // #
        TokenV::Minus => seq![45u8],  // -
        TokenV::Plus => seq![43u8],  // +
        TokenV::Equals => seq![61u8],  // =
        TokenV::Modulo => seq![37u8],  // %
        TokenV::Star => seq![42u8],  // *
        TokenV::Bang => seq![33u8],  // !
        TokenV::Ampersand => seq![38u8],  // &
        TokenV::Newline => seq![10u8],  // \n
        TokenV::Identifier(data) => data,
        TokenV::Other(data) => data,
    }
}

/// A byte that separates tokens on a line: space, tab, or semicolon
/// (statement separators are treated as whitespace).
pub open spec fn is_sep(c: u8) -> bool {
    c == 32 || c == 9 || c == 59
}

/// A byte that may stand in an identifier: alphanumeric, `_` or `.`.
pub open spec fn is_ident_byte(c: u8) -> bool {
    (48 <= c && c <= 57) || (65 <= c && c <= 90) || (97 <= c && c <= 122) || c == 95 || c == 46
}

/// Whether `symbol` is whitespace or a semicolon.
pub fn is_whitespace_or_semicolon(symbol: u8) -> (r: bool)
    ensures
        r == is_sep(symbol),
{
    match symbol {
        32 | 9 | 59 => true,
        _ => false,
    }
}

/// The sequence without its leading separator bytes.
pub open spec fn lstrip(s: Seq<u8>) -> Seq<u8>
    decreases s.len(),
{
    if s.len() > 0 && is_sep(s[0]) {
        lstrip(s.drop_first())
    } else {
        s
    }
}

/// The sequence without its trailing separator bytes.
pub open spec fn rstrip(s: Seq<u8>) -> Seq<u8>
    decreases s.len(),
{
    if s.len() > 0 && is_sep(s.last()) {
        rstrip(s.drop_last())
    } else {
        s
    }
}

/// A line stripped of leading and trailing separators.
pub open spec fn norm(s: Seq<u8>) -> Seq<u8> {
    lstrip(rstrip(s))
}

/// A line without its trailing carriage return, if it has one.
pub open spec fn strip_cr(s: Seq<u8>) -> Seq<u8> {
    if s.len() > 0 && s.last() == 13 {
        s.drop_last()
    } else {
        s
    }
}

/// The number of separator bytes at the head of `s`.
pub open spec fn sep_count(s: Seq<u8>) -> nat
    decreases s.len(),
{
    if s.len() > 0 && is_sep(s[0]) {
        1 + sep_count(s.drop_first())
    } else {
        0
    }
}

/// The length of the identifier run at the head of `s`.
pub open spec fn ident_len(s: Seq<u8>) -> nat
    decreases s.len(),
{
    if s.len() > 0 && is_ident_byte(s[0]) {
        1 + ident_len(s.drop_first())
    } else {
        0
    }
}

/// The number of bytes at the head of `s` before the first double quote.
pub open spec fn qfree_len(s: Seq<u8>) -> nat
    decreases s.len(),
{
    if s.len() > 0 && s[0] != 34 {
        1 + qfree_len(s.drop_first())
    } else {
        0
    }
}

/// Whether `s` begins with the keyword text `kw`, followed by a
/// separator or the end of the line — a keyword never matches as a
/// substring of a longer identifier.
pub open spec fn kw_match(s: Seq<u8>, kw: Seq<u8>) -> bool {
    kw.len() <= s.len() && s.take(kw.len() as int) == kw && (s.len() == kw.len() || is_sep(
        s[kw.len() as int],
    ))
}

/// The keyword standing at the head of `s`, if any, tried
/// longest-prefix-first.
#[verifier::opaque]
pub open spec fn spec_keyword(s: Seq<u8>) -> Option<TokenV> {
    if kw_match(s, token_text(TokenV::KeywordSnatPool)) {
        Some(TokenV::KeywordSnatPool)
    } else if kw_match(s, token_text(TokenV::KeywordSwitch)) {
        Some(TokenV::KeywordSwitch)
    } else if kw_match(s, token_text(TokenV::KeywordReturn)) {
        Some(TokenV::KeywordReturn)
    } else if kw_match(s, token_text(TokenV::KeywordElseIf)) {
        Some(TokenV::KeywordElseIf)
    } else if kw_match(s, token_text(TokenV::KeywordElse)) {
        Some(TokenV::KeywordElse)
    } else if kw_match(s, token_text(TokenV::KeywordPool)) {
        Some(TokenV::KeywordPool)
    } else if kw_match(s, token_text(TokenV::KeywordNode)) {
        Some(TokenV::KeywordNode)
    } else if kw_match(s, token_text(TokenV::KeywordProc)) {
        Some(TokenV::KeywordProc)
    } else if kw_match(s, token_text(TokenV::KeywordSnat)) {
        Some(TokenV::KeywordSnat)
    } else if kw_match(s, token_text(TokenV::KeywordWhen)) {
        Some(TokenV::KeywordWhen)
    } else if kw_match(s, token_text(TokenV::KeywordLog)) {
        Some(TokenV::KeywordLog)
    } else if kw_match(s, token_text(TokenV::KeywordSet)) {
        Some(TokenV::KeywordSet)
    } else if kw_match(s, token_text(TokenV::KeywordIf)) {
        Some(TokenV::KeywordIf)
    } else {
        None
    }
}

/// The single-character token for byte `c`, if there is one.
pub open spec fn spec_single(c: u8) -> Option<TokenV> {
    if c == 91 {
        Some(TokenV::LSquareBracket)
    } else if c == 93 {
        Some(TokenV::RSquareBracket)
    } else if c == 123 {
        Some(TokenV::LCurlyBracket)
    } else if c == 125 {
        Some(TokenV::RCurlyBracket)
    } else if c == 40 {
        Some(TokenV::LParen)
    } else if c == 41 {
        Some(TokenV::RParen)
    } else if c == 60 {
        Some(TokenV::LAngleBracket)
    } else if c == 62 {
        Some(TokenV::RAngleBracket)
    } else if c == 35 {
        Some(TokenV::Hash)
    } else if c == 36 {
        Some(TokenV::Dollar)
    } else if c == 34 {
        Some(TokenV::Quote)
    } else if c == 45 {
        Some(TokenV::Minus)
    } else if c == 43 {
        Some(TokenV::Plus)
    } else if c == 61 {
        Some(TokenV::Equals)
    } else if c == 37 {
        Some(TokenV::Modulo)
    } else if c == 42 {
        Some(TokenV::Star)
    } else if c == 33 {
        Some(TokenV::Bang)
    } else if c == 38 {
        Some(TokenV::Ampersand)
    } else if c == 58 {
        Some(TokenV::Colon)
    } else {
        None
    }
}

/// The token at the head of `s` and the number of bytes it covers.
/// `s` must be non-empty and must not begin with a separator. The match
/// order is: keyword table, `::`, single characters, identifier run,
/// and finally the whole remainder of the line as an opaque span.
#[verifier::opaque]
pub open spec fn spec_next_token(s: Seq<u8>) -> (TokenV, nat)
    recommends
        s.len() > 0,
        !is_sep(s[0]),
{
    match spec_keyword(s) {
        Some(t) => (t, token_text(t).len()),
        None => {
            if s.len() >= 2 && s[0] == 58 && s[1] == 58 {
                (TokenV::DoubleColon, 2)
            } else {
                match spec_single(s[0]) {
                    Some(t) => (t, 1),
                    None => {
                        if ident_len(s) > 0 {
                            (TokenV::Identifier(s.take(ident_len(s) as int)), ident_len(s))
                        } else {
                            (TokenV::Other(s), s.len())
                        }
                    },
                }
            }
        },
    }
}

/// A double-quoted string at the head of `s` (after leading
/// separators): the captured text includes both quotes; the count is the
/// total number of bytes covered, separators included. `None` when no
/// terminated string stands there.
pub open spec fn spec_extract_string(s: Seq<u8>) -> Option<(Seq<u8>, nat)> {
    let w = sep_count(s);
    let r = s.skip(w as int);
    if r.len() > 0 && r[0] == 34 {
        let q = qfree_len(r.drop_first());
        if q + 1 < r.len() {
            Some((r.take(q as int + 2), (w + q + 2) as nat))
        } else {
            None
        }
    } else {
        None
    }
}

proof fn lemma_sep_count_le(s: Seq<u8>)
    ensures
        sep_count(s) <= s.len(),
        s.len() > 0 && !is_sep(s[0]) ==> sep_count(s) == 0,
        sep_count(s) < s.len() ==> !is_sep(s[sep_count(s) as int]),
    decreases s.len(),
{
    if s.len() > 0 && is_sep(s[0]) {
        lemma_sep_count_le(s.drop_first());
    }
}

proof fn lemma_ident_len_le(s: Seq<u8>)
    ensures
        ident_len(s) <= s.len(),
    decreases s.len(),
{
    if s.len() > 0 && is_ident_byte(s[0]) {
        lemma_ident_len_le(s.drop_first());
    }
}

proof fn lemma_qfree_len_le(s: Seq<u8>)
    ensures
        qfree_len(s) <= s.len(),
        qfree_len(s) < s.len() ==> s[qfree_len(s) as int] == 34,
    decreases s.len(),
{
    if s.len() > 0 && s[0] != 34 {
        lemma_qfree_len_le(s.drop_first());
    }
}

proof fn lemma_next_token_hash(s: Seq<u8>)
    requires
        spec_next_token(s).0 == TokenV::Hash,
    ensures
        spec_next_token(s).1 == 1,
{
    reveal(spec_next_token);
    reveal(spec_keyword);
}

/// The token at the head of a line covers at least one byte and no more
/// than the line holds.
pub proof fn lemma_next_token_len(s: Seq<u8>)
    requires
        s.len() > 0,
    ensures
        1 <= spec_next_token(s).1 <= s.len(),
{
    reveal(spec_next_token);
    reveal(spec_keyword);
    lemma_ident_len_le(s);
}

/// Tokens of one normalized line, starting at offset `i`. `after_log`
/// tells whether the previous token was the `log` keyword; immediately
/// after `log` and a bucket identifier, the next content must be a
/// double-quoted string, captured whole as one opaque token. A `#` token
/// ends the line early: the rest is captured whole, left-stripped.
/// `None` means the quoted string after `log` was missing or
/// unterminated.
pub open spec fn spec_lex_line(s: Seq<u8>, i: nat, after_log: bool) -> Option<Seq<SpacedTokenV>>
    decreases s.len() - i,
    when i <= s.len()
    via spec_lex_line_decreases
{
    let w = sep_count(s.skip(i as int));
    let j = i + w;
    if j >= s.len() {
        Some(Seq::empty())
    } else {
        let r = s.skip(j as int);
        let (t, n) = spec_next_token(r);
        let sp = w > 0;
        if t == TokenV::Hash {
            let rest = r.drop_first();
            Some(
                seq![
                    SpacedTokenV { space_before: sp, token: TokenV::Hash },
                    SpacedTokenV {
                        space_before: sep_count(rest) > 0,
                        token: TokenV::Other(lstrip(rest)),
                    },
                ],
            )
        } else if after_log && (t matches TokenV::Identifier(_)) {
            match spec_extract_string(r.skip(n as int)) {
                None => None,
                Some((txt, m)) => {
                    match spec_lex_line(s, j + n + m, false) {
                        None => None,
                        Some(ts) => Some(
                            seq![
                                SpacedTokenV { space_before: sp, token: t },
                                SpacedTokenV {
                                    space_before: sep_count(r.skip(n as int)) > 0,
                                    token: TokenV::Other(txt),
                                },
                            ] + ts,
                        ),
                    }
                },
            }
        } else {
            match spec_lex_line(s, j + n, t == TokenV::KeywordLog) {
                None => None,
                Some(ts) => Some(
                    seq![SpacedTokenV { space_before: sp, token: t }] + ts,
                ),
            }
        }
    }
}

#[via_fn]
proof fn spec_lex_line_decreases(s: Seq<u8>, i: nat, after_log: bool) {
    let w = sep_count(s.skip(i as int));
    let j = i + w;
    lemma_sep_count_le(s.skip(i as int));
    if j < s.len() {
        let r = s.skip(j as int);
        let (t, n) = spec_next_token(r);
        lemma_next_token_len(r);
        if t == TokenV::Hash {
        } else if after_log && (t matches TokenV::Identifier(_)) {
            match spec_extract_string(r.skip(n as int)) {
                None => {},
                Some((txt, m)) => {
                    let u = r.skip(n as int);
                    lemma_sep_count_le(u);
                    let ww = sep_count(u);
                    let rr = u.skip(ww as int);
                    if rr.len() > 0 && rr[0] == 34 {
                        lemma_qfree_len_le(rr.drop_first());
                    }
                },
            }
        } else {
        }
    }
}

/// The offset of the first newline byte at or after `i`, or the end of
/// the buffer.
pub open spec fn line_end(s: Seq<u8>, i: nat) -> nat
    decreases s.len() - i,
    when i <= s.len()
{
    if i < s.len() && s[i as int] != 10 {
        line_end(s, i + 1)
    } else {
        i
    }
}

/// Tokens of the whole buffer, starting at offset `i`: each source line
/// is normalized and tokenized, and contributes exactly one newline
/// token, blank lines included. `None` when some line fails.
pub open spec fn spec_lex(s: Seq<u8>, i: nat) -> Option<Seq<SpacedTokenV>>
    decreases s.len() - i,
    when i <= s.len()
    via spec_lex_decreases
{
    if i >= s.len() {
        Some(Seq::empty())
    } else {
        let e = line_end(s, i);
        let line = norm(strip_cr(s.subrange(i as int, e as int)));
        match spec_lex_line(line, 0, false) {
            None => None,
            Some(ts) => {
                let rest = if e < s.len() {
                    spec_lex(s, e + 1)
                } else {
                    Some(Seq::empty())
                };
                match rest {
                    None => None,
                    Some(ts2) => Some(
                        ts + seq![SpacedTokenV { space_before: false, token: TokenV::Newline }]
                            + ts2,
                    ),
                }
            },
        }
    }
}

#[via_fn]
proof fn spec_lex_decreases(s: Seq<u8>, i: nat) {
    if i < s.len() {
        lemma_line_end(s, i);
    }
}

/// The end of a line lies between its start and the end of the buffer,
/// and a newline byte stands there unless the buffer ends first.
pub proof fn lemma_line_end(s: Seq<u8>, i: nat)
    requires
        i <= s.len(),
    ensures
        i <= line_end(s, i) <= s.len(),
        line_end(s, i) < s.len() ==> s[line_end(s, i) as int] == 10,
        forall|k: int| i <= k < line_end(s, i) ==> s[k] != 10,
    decreases s.len() - i,
{
    if i < s.len() && s[i as int] != 10 {
        lemma_line_end(s, i + 1);
    }
}

proof fn lemma_sep_count_index(s: Seq<u8>, n: nat)
    requires
        n <= s.len(),
        forall|k: int| 0 <= k < n ==> is_sep(s[k]),
        n == s.len() || !is_sep(s[n as int]),
    ensures
        sep_count(s) == n,
    decreases n,
{
    if n > 0 {
        lemma_sep_count_index(s.drop_first(), (n - 1) as nat);
    }
}

proof fn lemma_ident_len_index(s: Seq<u8>, n: nat)
    requires
        n <= s.len(),
        forall|k: int| 0 <= k < n ==> is_ident_byte(s[k]),
        n == s.len() || !is_ident_byte(s[n as int]),
    ensures
        ident_len(s) == n,
    decreases n,
{
    if n > 0 {
        lemma_ident_len_index(s.drop_first(), (n - 1) as nat);
    }
}

proof fn lemma_qfree_len_index(s: Seq<u8>, n: nat)
    requires
        n <= s.len(),
        forall|k: int| 0 <= k < n ==> s[k] != 34,
        n == s.len() || s[n as int] == 34,
    ensures
        qfree_len(s) == n,
    decreases n,
{
    if n > 0 {
        lemma_qfree_len_index(s.drop_first(), (n - 1) as nat);
    }
}

proof fn lemma_lstrip_skip(s: Seq<u8>)
    ensures
        lstrip(s) == s.skip(sep_count(s) as int),
    decreases s.len(),
{
    if s.len() > 0 && is_sep(s[0]) {
        lemma_lstrip_skip(s.drop_first());
        let c = sep_count(s.drop_first()) as int;
        lemma_sep_count_le(s.drop_first());
        assert(sep_count(s) == c + 1);
        assert(s.drop_first().skip(c) =~= s.skip(c + 1));
    } else {
        assert(s.skip(0) =~= s);
    }
}

proof fn lemma_rstrip_index(s: Seq<u8>, e: nat)
    requires
        e <= s.len(),
        forall|k: int| e <= k < s.len() ==> is_sep(s[k]),
        e == 0 || !is_sep(s[e - 1]),
    ensures
        rstrip(s) == s.take(e as int),
    decreases s.len(),
{
    if e == s.len() {
        assert(s.take(e as int) =~= s);
    } else {
        assert(is_sep(s.last()));
        lemma_rstrip_index(s.drop_last(), e);
        assert(s.drop_last().take(e as int) =~= s.take(e as int));
    }
}

proof fn lemma_lstrip_index(s: Seq<u8>, b: nat)
    requires
        b <= s.len(),
        forall|k: int| 0 <= k < b ==> is_sep(s[k]),
        b == s.len() || !is_sep(s[b as int]),
    ensures
        lstrip(s) == s.skip(b as int),
{
    lemma_sep_count_index(s, b);
    lemma_lstrip_skip(s);
}

fn is_ident_byte_x(c: u8) -> (r: bool)
    ensures
        r == is_ident_byte(c),
{
    (48 <= c && c <= 57) || (65 <= c && c <= 90) || (97 <= c && c <= 122) || c == 95 || c == 46
}

/// Whether the keyword text `kw` stands at offset `i` of `line`,
/// followed by a separator or the end of the line.
fn kw_at(line: &[u8], i: usize, kw: &Vec<u8>) -> (r: bool)
    requires
        i <= line@.len(),
    ensures
        r == kw_match(line@.skip(i as int), kw@),
{
    let n: usize = kw.len();
    if line.len() - i < n {
        return false;
    }
    let mut j: usize = 0;
    while j < n
        invariant
            0 <= j <= n,
            i + n <= line@.len(),
            line@.len() <= usize::MAX,
            n == kw@.len(),
            forall|k: int| 0 <= k < j ==> line@.skip(i as int)[k] == kw@[k],
        decreases n - j,
    {
        if line[i + j] != kw[j] {
            return false;
        }
        j += 1;
    }
    assert(line@.skip(i as int).take(n as int) =~= kw@);
    if line.len() - i == n {
        true
    } else {
        is_whitespace_or_semicolon(line[i + n])
    }
}

/// The identifier run length at offset `i` of `line`.
fn ident_run(line: &[u8], i: usize) -> (n: usize)
    requires
        i <= line@.len(),
    ensures
        n == ident_len(line@.skip(i as int)),
        i + n <= line@.len(),
{
    let mut j: usize = i;
    while j < line.len() && is_ident_byte_x(line[j])
        invariant
            i <= j <= line@.len(),
            forall|k: int| i <= k < j ==> is_ident_byte(line@[k]),
        decreases line@.len() - j,
    {
        j += 1;
    }
    proof {
        lemma_ident_len_index(line@.skip(i as int), (j - i) as nat);
    }
    j - i
}

/// The number of separator bytes at offset `i` of `line`.
fn sep_run(line: &[u8], i: usize) -> (n: usize)
    requires
        i <= line@.len(),
    ensures
        n == sep_count(line@.skip(i as int)),
        i + n <= line@.len(),
        i + n < line@.len() ==> !is_sep(line@[i + n]),
    decreases line@.len() - i,
{
    let mut j: usize = i;
    while j < line.len() && is_whitespace_or_semicolon(line[j])
        invariant
            i <= j <= line@.len(),
            forall|k: int| i <= k < j ==> is_sep(line@[k]),
        decreases line@.len() - j,
    {
        j += 1;
    }
    proof {
        lemma_sep_count_index(line@.skip(i as int), (j - i) as nat);
    }
    j - i
}

/// The failure a tokenizer run can end in.
#[derive(Debug, Clone, PartialEq, Eq)]
pub enum LexerFail {
    /// A `log` statement's quoted value is missing or lacks a closing
    /// quote.
    UnterminatedString,
}

/// The tokenizer. It accumulates the tokens of the lines it has read.
pub struct Lexer {
    tokens: Vec<SpacedToken>,
}

impl View for Lexer {
    type V = Seq<SpacedTokenV>;

    closed spec fn view(&self) -> Seq<SpacedTokenV> {
        toks_view(self.tokens@)
    }
}

proof fn lemma_toks_view_push(ts: Seq<SpacedToken>, x: SpacedToken)
    ensures
        toks_view(ts.push(x)) == toks_view(ts) + seq![x@],
{
    assert(toks_view(ts.push(x)) =~= toks_view(ts) + seq![x@]);
}

impl Lexer {
    /// A tokenizer holding no tokens yet.
    pub fn new() -> (r: Self)
        ensures
            r@ == Seq::<SpacedTokenV>::empty(),
    {
        let r = Self { tokens: Vec::new() };
        proof {
            assert(toks_view(r.tokens@) =~= Seq::<SpacedTokenV>::empty());
        }
        r
    }

    fn push_st(&mut self, st: SpacedToken)
        ensures
            final(self)@ == old(self)@ + seq![st@],
    {
        proof {
            lemma_toks_view_push(self.tokens@, st);
        }
        self.tokens.push(st);
    }

    /// A line stripped of leading and trailing whitespace and
    /// semicolons.
    fn normalize(line: &[u8]) -> (r: Vec<u8>)
        ensures
            r@ == norm(line@),
    {
        let mut e: usize = line.len();
        while e > 0 && is_whitespace_or_semicolon(line[e - 1])
            invariant
                e <= line@.len(),
                forall|k: int| e <= k < line@.len() ==> is_sep(line@[k]),
            decreases e,
        {
            e -= 1;
        }
        proof {
            lemma_rstrip_index(line@, e as nat);
        }
        let mut b: usize = 0;
        while b < e && is_whitespace_or_semicolon(line[b])
            invariant
                0 <= b <= e,
                e <= line@.len(),
                forall|k: int| 0 <= k < b ==> is_sep(line@[k]),
            decreases e - b,
        {
            b += 1;
        }
        proof {
            lemma_lstrip_index(line@.take(e as int), b as nat);
            assert(line@.take(e as int).skip(b as int) =~= line@.subrange(b as int, e as int));
        }
        vstd::slice::slice_to_vec(vstd::slice::slice_subrange(line, b, e))
    }

    /// A maximal identifier run at the head of the left-stripped line.
    fn extract_identifier(line: &[u8]) -> (r: Vec<u8>)
        ensures
            r@ == line@.take(ident_len(line@) as int),
    {
        let n: usize = ident_run(line, 0);
        proof {
            assert(line@.skip(0) =~= line@);
        }
        vstd::slice::slice_to_vec(vstd::slice::slice_subrange(line, 0, n))
    }

    /// A double-quoted string at the head of `data`, after leading
    /// separators: the text with its quotes, and the bytes covered.
    fn extract_string(data: &[u8]) -> (r: Option<(Vec<u8>, usize)>)
        ensures
            match spec_extract_string(data@) {
                Some(p) => r matches Some(q) && q.0@ == p.0 && q.1 == p.1,
                None => r is None,
            },
    {
        proof {
            assert(data@.skip(0) =~= data@);
        }
        let w: usize = sep_run(data, 0);
        if w == data.len() {
            return None;
        }
        if data[w] != 34 {
            return None;
        }
        let mut j: usize = w + 1;
        while j < data.len() && data[j] != 34
            invariant
                w + 1 <= j <= data@.len(),
                forall|k: int| w + 1 <= k < j ==> data@[k] != 34,
            decreases data@.len() - j,
        {
            j += 1;
        }
        proof {
            let r = data@.skip(w as int);
            assert(r.drop_first() =~= data@.skip(w as int + 1));
            lemma_qfree_len_index(r.drop_first(), (j - w - 1) as nat);
        }
        if j == data.len() {
            return None;
        }
        proof {
            assert(data@.skip(w as int).take(j + 1 - w as int) =~= data@.subrange(
                w as int,
                j + 1 as int,
            ));
        }
        Some((vstd::slice::slice_to_vec(vstd::slice::slice_subrange(data, w, j + 1)), j + 1))
    }
}

fn single_token(c: u8) -> (r: Option<Token>)
    ensures
        match spec_single(c) {
            Some(t) => r matches Some(x) && x@ == t,
            None => r is None,
        },
{
    match c {
        91 => Some(Token::LSquareBracket),
        93 => Some(Token::RSquareBracket),
        123 => Some(Token::LCurlyBracket),
        125 => Some(Token::RCurlyBracket),
        40 => Some(Token::LParen),
        41 => Some(Token::RParen),
        60 => Some(Token::LAngleBracket),
        62 => Some(Token::RAngleBracket),
        35 => Some(Token::Hash),
        36 => Some(Token::Dollar),
        34 => Some(Token::Quote),
        45 => Some(Token::Minus),
        43 => Some(Token::Plus),
        61 => Some(Token::Equals),
        37 => Some(Token::Modulo),
        42 => Some(Token::Star),
        33 => Some(Token::Bang),
        38 => Some(Token::Ampersand),
        58 => Some(Token::Colon),
        _ => None,
    }
}

fn match_keyword(line: &[u8], i: usize) -> (r: Option<(Token, usize)>)
    requires
        i <= line@.len(),
    ensures
        match spec_keyword(line@.skip(i as int)) {
            Some(t) => r matches Some(p) && p.0@ == t && p.1 == token_text(t).len(),
            None => r is None,
        },
{
    proof {
        reveal(spec_keyword);
    }
    let kw: Vec<u8> = vec![115u8, 110u8, 97u8, 116u8, 112u8, 111u8, 111u8, 108u8];
    proof {
        assert(kw@ =~= token_text(TokenV::KeywordSnatPool));
    }
    if kw_at(line, i, &kw) {
        return Some((Token::KeywordSnatPool, 8));
    }
    let kw: Vec<u8> = vec![115u8, 119u8, 105u8, 116u8, 99u8, 104u8];
    proof {
        assert(kw@ =~= token_text(TokenV::KeywordSwitch));
    }
    if kw_at(line, i, &kw) {
        return Some((Token::KeywordSwitch, 6));
    }
    let kw: Vec<u8> = vec![114u8, 101u8, 116u8, 117u8, 114u8, 110u8];
    proof {
        assert(kw@ =~= token_text(TokenV::KeywordReturn));
    }
    if kw_at(line, i, &kw) {
        return Some((Token::KeywordReturn, 6));
    }
    let kw: Vec<u8> = vec![101u8, 108u8, 115u8, 101u8, 105u8, 102u8];
    proof {
        assert(kw@ =~= token_text(TokenV::KeywordElseIf));
    }
    if kw_at(line, i, &kw) {
        return Some((Token::KeywordElseIf, 6));
    }
    let kw: Vec<u8> = vec![101u8, 108u8, 115u8, 101u8];
    proof {
        assert(kw@ =~= token_text(TokenV::KeywordElse));
    }
    if kw_at(line, i, &kw) {
        return Some((Token::KeywordElse, 4));
    }
    let kw: Vec<u8> = vec![112u8, 111u8, 111u8, 108u8];
    proof {
        assert(kw@ =~= token_text(TokenV::KeywordPool));
    }
    if kw_at(line, i, &kw) {
        return Some((Token::KeywordPool, 4));
    }
    let kw: Vec<u8> = vec![110u8, 111u8, 100u8, 101u8];
    proof {
        assert(kw@ =~= token_text(TokenV::KeywordNode));
    }
    if kw_at(line, i, &kw) {
        return Some((Token::KeywordNode, 4));
    }
    let kw: Vec<u8> = vec![112u8, 114u8, 111u8, 99u8];
    proof {
        assert(kw@ =~= token_text(TokenV::KeywordProc));
    }
    if kw_at(line, i, &kw) {
        return Some((Token::KeywordProc, 4));
    }
    let kw: Vec<u8> = vec![115u8, 110u8, 97u8, 116u8];
    proof {
        assert(kw@ =~= token_text(TokenV::KeywordSnat));
    }
    if kw_at(line, i, &kw) {
        return Some((Token::KeywordSnat, 4));
    }
    let kw: Vec<u8> = vec![119u8, 104u8, 101u8, 110u8];
    proof {
        assert(kw@ =~= token_text(TokenV::KeywordWhen));
    }
    if kw_at(line, i, &kw) {
        return Some((Token::KeywordWhen, 4));
    }
    let kw: Vec<u8> = vec![108u8, 111u8, 103u8];
    proof {
        assert(kw@ =~= token_text(TokenV::KeywordLog));
    }
    if kw_at(line, i, &kw) {
        return Some((Token::KeywordLog, 3));
    }
    let kw: Vec<u8> = vec![115u8, 101u8, 116u8];
    proof {
        assert(kw@ =~= token_text(TokenV::KeywordSet));
    }
    if kw_at(line, i, &kw) {
        return Some((Token::KeywordSet, 3));
    }
    let kw: Vec<u8> = vec![105u8, 102u8];
    proof {
        assert(kw@ =~= token_text(TokenV::KeywordIf));
    }
    if kw_at(line, i, &kw) {
        return Some((Token::KeywordIf, 2));
    }
    None
}

impl Lexer {
    /// The next token of `line` at or after offset `i`, together with
    /// the count of bytes covered, leading separators included. `None`
    /// when only separators remain.
    fn try_lex(&self, line: &[u8], i: usize) -> (r: Option<(SpacedToken, usize)>)
        requires
            i <= line@.len(),
        ensures
            ({
                let w = sep_count(line@.skip(i as int));
                match r {
                    None => i + w == line@.len(),
                    Some(p) => {
                        let tn = spec_next_token(line@.skip(i + w as int));
                        &&& i + w < line@.len()
                        &&& p.0@.token == tn.0
                        &&& p.0@.space_before == (w > 0)
                        &&& p.1 == w + tn.1
                        &&& 1 <= tn.1
                        &&& i + p.1 <= line@.len()
                    },
                }
            }),
    {
        proof {
            reveal(spec_next_token);
        }
        let llen: usize = line.len();
        let w: usize = sep_run(line, i);
        let j: usize = i + w;
        if j == llen {
            return None;
        }
        let ghost rest = line@.skip(j as int);
        proof {
            lemma_next_token_len(rest);
        }
        let sp: bool = w > 0;
        match match_keyword(line, j) {
            Some(p) => {
                return Some((SpacedToken { space_before: sp, token: p.0 }, w + p.1 ));
            },
            None => {},
        }
        if line[j] == 58 && j + 1 < line.len() && line[j + 1] == 58 {
            return Some((SpacedToken { space_before: sp, token: Token::DoubleColon }, w + 2));
        }
        match single_token(line[j]) {
            Some(t) => {
                return Some((SpacedToken { space_before: sp, token: t }, w + 1));
            },
            None => {},
        }
        let n: usize = ident_run(line, j);
        if n > 0 {
            let id: Vec<u8> = vstd::slice::slice_to_vec(
                vstd::slice::slice_subrange(line, j, j + n),
            );
            proof {
                assert(line@.subrange(j as int, j + n as int) =~= rest.take(n as int));
            }
            return Some((SpacedToken { space_before: sp, token: Token::Identifier(id) }, w + n));
        }
        let txt: Vec<u8> = vstd::slice::slice_to_vec(
            vstd::slice::slice_subrange(line, j, line.len()),
        );
        proof {
            assert(line@.subrange(j as int, line@.len() as int) =~= rest);
        }
        Some((SpacedToken { space_before: sp, token: Token::Other(txt) }, line.len() - i))
    }

    /// Tokenizes one normalized line, appending its tokens (without the
    /// terminating newline token).
    #[verifier::rlimit(100)]
    fn lex_line(&mut self, line: &[u8]) -> (r: Result<(), LexerFail>)
        ensures
            match spec_lex_line(line@, 0, false) {
                Some(ts) => r is Ok && final(self)@ == old(self)@ + ts,
                None => r == Err::<(), LexerFail>(LexerFail::UnterminatedString),
            },
    {
        let mut i: usize = 0;
        let llen: usize = line.len();
        let ghost mut done: Seq<SpacedTokenV> = Seq::empty();
        let mut alog: bool = false;
        proof {
            assert(line@.skip(0) =~= line@);
            assert(old(self)@ + done =~= old(self)@);
        }
        loop
            invariant
                i <= line@.len(),
                line@.len() <= usize::MAX,
                self@ == old(self)@ + done,
                spec_lex_line(line@, 0, false) == (match spec_lex_line(line@, i as nat, alog) {
                    None => None::<Seq<SpacedTokenV>>,
                    Some(ts2) => Some(done + ts2),
                }),
            decreases line@.len() - i,
        {
            let ghost w = sep_count(line@.skip(i as int));
            match self.try_lex(line, i) {
                None => {
                    proof {
                        assert(spec_lex_line(line@, i as nat, alog) == Some(
                            Seq::<SpacedTokenV>::empty(),
                        ));
                        assert(done + Seq::<SpacedTokenV>::empty() =~= done);
                    }
                    return Ok(());
                },
                Some((st, c)) => {
                    let ghost j = i + w;
                    let ghost rest = line@.skip(j as int);
                    let ghost tn = spec_next_token(rest);
                    let ghost stv = st@;
                    let is_hash = match &st.token {
                        Token::Hash => true,
                        _ => false,
                    };
                    let is_ident = match &st.token {
                        Token::Identifier(_) => true,
                        _ => false,
                    };
                    let is_log = match &st.token {
                        Token::KeywordLog => true,
                        _ => false,
                    };
                    if is_hash {
                        proof {
                            assert(tn.0 == TokenV::Hash);
                            lemma_next_token_hash(rest);
                        }
                        self.push_st(st);
                        let after: usize = i + c;
                        proof {
                            assert(rest.drop_first() =~= line@.skip(after as int));
                        }
                        let w2: usize = sep_run(line, after);
                        let txt: Vec<u8> = vstd::slice::slice_to_vec(
                            vstd::slice::slice_subrange(line, after + w2, line.len()),
                        );
                        let ot = SpacedToken { space_before: w2 > 0, token: Token::Other(txt) };
                        let ghost otv = ot@;
                        self.push_st(ot);
                        proof {
                            lemma_lstrip_skip(line@.skip(after as int));
                            assert(line@.skip(after as int).skip(w2 as int) =~= line@.subrange(
                                after + w2 as int,
                                line@.len() as int,
                            ));
                            let ts2 = spec_lex_line(line@, i as nat, alog).unwrap();
                            assert(ts2 =~= seq![stv, otv]);
                            assert((old(self)@ + done) + seq![stv] + seq![otv] =~= old(self)@ + (
                            done + ts2));
                        }
                        return Ok(());
                    } else if alog && is_ident {
                        self.push_st(st);
                        let after: usize = i + c;
                        proof {
                            assert(rest.skip(tn.1 as int) =~= line@.skip(after as int));
                            assert(line@.subrange(after as int, line@.len() as int) =~= line@.skip(
                                after as int,
                            ));
                        }
                        let w2: usize = sep_run(line, after);
                        match Lexer::extract_string(
                            vstd::slice::slice_subrange(line, after, line.len()),
                        ) {
                            None => {
                                proof {
                                    assert(spec_lex_line(line@, i as nat, alog) is None);
                                }
                                return Err(LexerFail::UnterminatedString);
                            },
                            Some((txt, m)) => {
                                let ot = SpacedToken {
                                    space_before: w2 > 0,
                                    token: Token::Other(txt),
                                };
                                let ghost otv = ot@;
                                self.push_st(ot);
                                proof {
                                    let two = seq![stv, otv];
                                    let nxt = spec_lex_line(line@, (after + m) as nat, false);
                                    if nxt is Some {
                                        let ts3 = nxt.unwrap();
                                        assert(spec_lex_line(line@, i as nat, alog) == Some(
                                            two + ts3,
                                        ));
                                        assert((done + two) + ts3 =~= done + (two + ts3));
                                    }
                                    assert((old(self)@ + done) + seq![stv] + seq![otv] =~= old(
                                        self,
                                    )@ + (done + two));
                                    done = done + seq![stv, otv];
                                }
                                i = after + m;
                                alog = false;
                            },
                        }
                    } else {
                        self.push_st(st);
                        proof {
                            let one = seq![stv];
                            let nxt = spec_lex_line(line@, (i + c) as nat, tn.0
                                == TokenV::KeywordLog);
                            if nxt is Some {
                                let ts3 = nxt.unwrap();
                                assert(spec_lex_line(line@, i as nat, alog) == Some(one + ts3));
                                assert((done + one) + ts3 =~= done + (one + ts3));
                            }
                            done = done + seq![stv];
                        }
                        i = i + c;
                        alog = is_log;
                        proof {
                            assert(alog == (tn.0 == TokenV::KeywordLog));
                        }
                    }
                },
            }
        }
    }
}

impl Lexer {
    /// Tokenizes a whole byte buffer, one source line at a time; every
    /// line contributes exactly one newline token, blank lines
    /// included. The result extends whatever tokens the tokenizer
    /// already held.
    pub fn lex(self, buf: Vec<u8>) -> (r: Result<Vec<SpacedToken>, LexerFail>)
        ensures
            match spec_lex(buf@, 0) {
                Some(ts) => r matches Ok(v) && toks_view(v@) == self@ + ts,
                None => r == Err::<Vec<SpacedToken>, LexerFail>(LexerFail::UnterminatedString),
            },
    {
        let mut me = self;
        let len: usize = buf.len();
        let mut pos: usize = 0;
        let ghost mut done: Seq<SpacedTokenV> = Seq::empty();
        proof {
            assert(self@ + done =~= self@);
        }
        while pos < len
            invariant
                pos <= len,
                len == buf@.len(),
                me@ == self@ + done,
                spec_lex(buf@, 0) == (match spec_lex(buf@, pos as nat) {
                    None => None::<Seq<SpacedTokenV>>,
                    Some(ts2) => Some(done + ts2),
                }),
            decreases len - pos,
        {
            let mut e: usize = pos;
            while e < len && buf[e] != 10
                invariant
                    pos <= e <= len,
                    len == buf@.len(),
                    forall|k: int| pos <= k < e ==> buf@[k] != 10,
                decreases len - e,
            {
                e += 1;
            }
            proof {
                lemma_line_end(buf@, pos as nat);
                let le = line_end(buf@, pos as nat);
                if e < le {
                    assert(buf@[e as int] != 10);
                    assert(false);
                }
                if le < e {
                    assert(buf@[le as int] != 10);
                    assert(false);
                }
            }
            let mut e2: usize = e;
            if e2 > pos && buf[e2 - 1] == 13 {
                e2 -= 1;
            }
            let ghost raw = buf@.subrange(pos as int, e as int);
            proof {
                if raw.len() > 0 && raw.last() == 13 {
                    assert(e2 == e - 1);
                    assert(raw.drop_last() =~= buf@.subrange(pos as int, e as int - 1));
                } else {
                    assert(e2 == e);
                }
                assert(strip_cr(raw) == buf@.subrange(pos as int, e2 as int));
            }
            let line: Vec<u8> = Lexer::normalize(
                vstd::slice::slice_subrange(buf.as_slice(), pos, e2),
            );
            let ghost lineseq = norm(strip_cr(raw));
            match me.lex_line(line.as_slice()) {
                Err(f) => {
                    proof {
                        assert(spec_lex(buf@, pos as nat) is None);
                    }
                    return Err(f);
                },
                Ok(_) => {},
            }
            me.push_st(SpacedToken { space_before: false, token: Token::Newline });
            proof {
                let lts = spec_lex_line(lineseq, 0, false).unwrap();
                let nl = seq![SpacedTokenV { space_before: false, token: TokenV::Newline }];
                let nxt = if e < len {
                    spec_lex(buf@, (e + 1) as nat)
                } else {
                    Some(Seq::<SpacedTokenV>::empty())
                };
                if nxt is Some {
                    let ts3 = nxt.unwrap();
                    assert(spec_lex(buf@, pos as nat) == Some((lts + nl) + ts3));
                    assert(done + ((lts + nl) + ts3) =~= ((done + lts) + nl) + ts3);
                    assert(ts3 + Seq::<SpacedTokenV>::empty() =~= ts3);
                }
                assert(((self@ + done) + lts) + nl =~= self@ + ((done + lts) + nl));
                done = (done + lts) + nl;
            }
            if e < len {
                pos = e + 1;
            } else {
                pos = len;
            }
            proof {
                if pos == len {
                    assert(spec_lex(buf@, len as nat) == Some(Seq::<SpacedTokenV>::empty()));
                    assert(done + Seq::<SpacedTokenV>::empty() =~= done);
                }
            }
        }
        proof {
            assert(spec_lex(buf@, pos as nat) == Some(Seq::<SpacedTokenV>::empty()));
            assert(done + Seq::<SpacedTokenV>::empty() =~= done);
        }
        Ok(me.tokens)
    }
}

impl Token {
    /// Whether this token is one of the language's keywords.
    pub fn is_keyword(&self) -> (r: bool)
        ensures
            r == (self@ matches TokenV::KeywordSet || self@ matches TokenV::KeywordProc
                || self@ matches TokenV::KeywordIf || self@ matches TokenV::KeywordElseIf
                || self@ matches TokenV::KeywordElse || self@ matches TokenV::KeywordSwitch
                || self@ matches TokenV::KeywordLog || self@ matches TokenV::KeywordSnat
                || self@ matches TokenV::KeywordNode || self@ matches TokenV::KeywordPool
                || self@ matches TokenV::KeywordSnatPool || self@ matches TokenV::KeywordReturn
                || self@ matches TokenV::KeywordWhen),
    {
        match self {
            Token::KeywordSet
            | Token::KeywordProc
            | Token::KeywordIf
            | Token::KeywordElseIf
            | Token::KeywordElse
            | Token::KeywordSwitch
            | Token::KeywordLog
            | Token::KeywordSnat
            | Token::KeywordNode
            | Token::KeywordPool
            | Token::KeywordSnatPool
            | Token::KeywordReturn
            | Token::KeywordWhen => true,
            _ => false,
        }
    }

    /// Whether this token is an operator.
    pub fn is_operator(&self) -> (r: bool)
        ensures
            r == (self@ matches TokenV::DoubleColon || self@ matches TokenV::Minus
                || self@ matches TokenV::Plus || self@ matches TokenV::Equals
                || self@ matches TokenV::Modulo || self@ matches TokenV::Star
                || self@ matches TokenV::Ampersand),
    {
        match self {
            Token::DoubleColon
            | Token::Minus
            | Token::Plus
            | Token::Equals
            | Token::Modulo
            | Token::Star
            | Token::Ampersand => true,
            _ => false,
        }
    }

    /// Whether this token is a bare symbol.
    pub fn is_symbol(&self) -> (r: bool)
        ensures
            r == (self@ matches TokenV::Colon || self@ matches TokenV::Dollar
                || self@ matches TokenV::Quote || self@ matches TokenV::Bang),
    {
        match self {
            Token::Colon | Token::Dollar | Token::Quote | Token::Bang => true,
            _ => false,
        }
    }

    /// Whether this token is a bracket.
    pub fn is_bracket(&self) -> (r: bool)
        ensures
            r == (self@ matches TokenV::LCurlyBracket || self@ matches TokenV::RCurlyBracket
                || self@ matches TokenV::LSquareBracket || self@ matches TokenV::RSquareBracket
                || self@ matches TokenV::LParen || self@ matches TokenV::RParen
                || self@ matches TokenV::LAngleBracket || self@ matches TokenV::RAngleBracket),
    {
        match self {
            Token::LCurlyBracket
            | Token::RCurlyBracket
            | Token::LSquareBracket
            | Token::RSquareBracket
            | Token::LParen
            | Token::RParen
            | Token::LAngleBracket
            | Token::RAngleBracket => true,
            _ => false,
        }
    }

    /// The literal text this token stands for.
    pub fn text(&self) -> (r: Vec<u8>)
        ensures
            r@ == token_text(self@),
    {
        let r: Vec<u8> = match self {
            Token::KeywordSet => vec![115u8, 101u8, 116u8],
            Token::KeywordProc => vec![112u8, 114u8, 111u8, 99u8],
            Token::KeywordIf => vec![105u8, 102u8],
            Token::KeywordElseIf => vec![101u8, 108u8, 115u8, 101u8, 105u8, 102u8],
            Token::KeywordElse => vec![101u8, 108u8, 115u8, 101u8],
            Token::KeywordSwitch => vec![115u8, 119u8, 105u8, 116u8, 99u8, 104u8],
            Token::KeywordLog => vec![108u8, 111u8, 103u8],
            Token::KeywordSnat => vec![115u8, 110u8, 97u8, 116u8],
            Token::KeywordNode => vec![110u8, 111u8, 100u8, 101u8],
            Token::KeywordPool => vec![112u8, 111u8, 111u8, 108u8],
            Token::KeywordSnatPool => vec![
                115u8,
                110u8,
                97u8,
                116u8,
                112u8,
                111u8,
                111u8,
                108u8,
            ],
            Token::KeywordReturn => vec![114u8, 101u8, 116u8, 117u8, 114u8, 110u8],
            Token::KeywordWhen => vec![119u8, 104u8, 101u8, 110u8],
            Token::DoubleColon => vec![58u8, 58u8],
            Token::Colon => vec![58u8],
            Token::LCurlyBracket => vec![123u8],
            Token::RCurlyBracket => vec![125u8],
            Token::LSquareBracket => vec![91u8],
            Token::RSquareBracket => vec![93u8],
            Token::LParen => vec![40u8],
            Token::RParen => vec![41u8],
            Token::LAngleBracket => vec![60u8],
            Token::RAngleBracket => vec![62u8],
            Token::Dollar => vec![36u8],
            Token::Quote => vec![34u8],
            Token::Hash => vec![35u8],
            Token::Minus => vec![45u8],
            Token::Plus => vec![43u8],
            Token::Equals => vec![61u8],
            Token::Modulo => vec![37u8],
            Token::Star => vec![42u8],
            Token::Bang => vec![33u8],
            Token::Ampersand => vec![38u8],
            Token::Newline => vec![10u8],
            Token::Identifier(data) => vstd::slice::slice_to_vec(data.as_slice()),
            Token::Other(data) => vstd::slice::slice_to_vec(data.as_slice()),
        };
        proof {
            assert(r@ =~= token_text(self@));
        }
        r
    }
}

} // verus!
