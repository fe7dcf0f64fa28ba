//! Recursive-descent structural parser: from the flat token sequence to
//! the script tree. Blocks are delimited by depth-counted brace
//! matching; every sub-parse returns its result together with the exact
//! count of tokens it consumed, so a caller advances its cursor without
//! backtracking. The first failure aborts the whole parse.

use vstd::prelude::*;

use crate::ast::Ast;
use crate::ast::AstV;
use crate::ast::Statement;
use crate::ast::StatementV;
use crate::lexer::SpacedToken;
use crate::lexer::SpacedTokenV;
use crate::lexer::Token;
use crate::lexer::TokenV;
use crate::lexer::token_text;
use crate::lexer::toks_view;

verus! {

/// The failure a parse can end in.
#[derive(Debug, Clone, PartialEq, Eq)]
pub enum ParserFail {
    /// A recursive `elseif` parse returned a node that is not a
    /// conditional chain — an internal-consistency failure.
    ElseIfChainShape,
    /// A switch body matched none of the recognized arm shapes.
    SwitchArmShape,
    /// A `node` or `snat` argument is neither an identifier nor a
    /// recognized substitution span, or trailing tokens follow the two
    /// expected expressions.
    ExpectedExpression,
    /// Unbalanced brackets while extracting a block.
    BracketMismatch,
    /// A rest-of-line capture ran off the end of the token stream
    /// without finding its terminating newline.
    MissingTrailingNewline,
    /// No production's lookahead matched at a parse point.
    UnrecognizedConstruct,
}

/// The literal text of a token span: each token's text, with a single
/// space before those that whitespace separated from their predecessor.
/// The first token never gets a leading space.
pub open spec fn join_tokens(s: Seq<SpacedTokenV>) -> Seq<u8>
    decreases s.len(),
{
    if s.len() == 0 {
        Seq::empty()
    } else {
        token_text(s[0].token) + join_rest(s.skip(1))
    }
}

/// The tail of a joined span: every token text, each preceded by a
/// space where its flag asks for one.
pub open spec fn join_rest(s: Seq<SpacedTokenV>) -> Seq<u8>
    decreases s.len(),
{
    if s.len() == 0 {
        Seq::empty()
    } else {
        (if s[0].space_before {
            seq![32u8]
        } else {
            Seq::empty()
        }) + token_text(s[0].token) + join_rest(s.skip(1))
    }
}

/// What a token does to the curly-brace depth counter.
pub open spec fn curly_delta(t: TokenV) -> int {
    if t == TokenV::LCurlyBracket {
        1
    } else if t == TokenV::RCurlyBracket {
        -1
    } else {
        0
    }
}

/// What a token does to the square-bracket depth counter.
pub open spec fn square_delta(t: TokenV) -> int {
    if t == TokenV::LSquareBracket {
        1
    } else if t == TokenV::RSquareBracket {
        -1
    } else {
        0
    }
}

/// The first position at or after `i` where the running curly depth,
/// starting from `depth`, returns to zero.
pub open spec fn curly_end(s: Seq<SpacedTokenV>, i: nat, depth: int) -> Option<nat>
    decreases s.len() - i,
    when i <= s.len()
{
    if i >= s.len() {
        None
    } else {
        let d = depth + curly_delta(s[i as int].token);
        if d == 0 {
            Some(i)
        } else {
            curly_end(s, i + 1, d)
        }
    }
}

/// The first position at or after `i` where the running square-bracket
/// depth, starting from `depth`, returns to zero.
pub open spec fn square_end(s: Seq<SpacedTokenV>, i: nat, depth: int) -> Option<nat>
    decreases s.len() - i,
    when i <= s.len()
{
    if i >= s.len() {
        None
    } else {
        let d = depth + square_delta(s[i as int].token);
        if d == 0 {
            Some(i)
        } else {
            square_end(s, i + 1, d)
        }
    }
}

/// A matched position lies within the sequence, at or after the start.
pub proof fn lemma_curly_end_bounds(s: Seq<SpacedTokenV>, i: nat, depth: int)
    requires
        i <= s.len(),
    ensures
        curly_end(s, i, depth) matches Some(k) ==> i <= k < s.len(),
    decreases s.len() - i,
{
    if i < s.len() {
        let d = depth + curly_delta(s[i as int].token);
        if d != 0 {
            lemma_curly_end_bounds(s, i + 1, d);
        }
    }
}

/// A matched position lies within the sequence, at or after the start.
pub proof fn lemma_square_end_bounds(s: Seq<SpacedTokenV>, i: nat, depth: int)
    requires
        i <= s.len(),
    ensures
        square_end(s, i, depth) matches Some(k) ==> i <= k < s.len(),
    decreases s.len() - i,
{
    if i < s.len() {
        let d = depth + square_delta(s[i as int].token);
        if d != 0 {
            lemma_square_end_bounds(s, i + 1, d);
        }
    }
}

/// The curly-brace depth of the first `i` tokens of `s`: opening braces
/// count one up, closing braces one down.
pub open spec fn curly_depth(s: Seq<SpacedTokenV>, i: int) -> int
    decreases i,
{
    if i <= 0 {
        0
    } else {
        curly_depth(s, i - 1) + curly_delta(s[i - 1].token)
    }
}

proof fn lemma_curly_end_iff(s: Seq<SpacedTokenV>, i: nat)
    requires
        i <= s.len(),
    ensures
        (curly_end(s, i, curly_depth(s, i as int)) is Some) <==> (exists|k: int|
            i <= k < s.len() && #[trigger] curly_depth(s, k + 1) == 0),
    decreases s.len() - i,
{
    if i < s.len() {
        assert(curly_depth(s, i as int + 1) == curly_depth(s, i as int) + curly_delta(
            s[i as int].token,
        ));
        if curly_depth(s, i as int + 1) == 0 {
            assert(i as int <= i as int && (i as int) < s.len() && curly_depth(s, i as int + 1)
                == 0);
        } else {
            lemma_curly_end_iff(s, i + 1);
            if exists|k: int| i <= k < s.len() && #[trigger] curly_depth(s, k + 1) == 0 {
                let k = choose|k: int| i <= k < s.len() && #[trigger] curly_depth(s, k + 1) == 0;
                assert(k != i);
                assert(i + 1 <= k < s.len() && curly_depth(s, k + 1) == 0);
            }
        }
    }
}

/// Bracket balance: on a slice that opens with a curly brace, block
/// extraction succeeds exactly when some prefix of the slice balances
/// that brace — the running depth returns to zero — and reports a
/// bracket mismatch exactly when no prefix ever does.
pub proof fn lemma_bracket_balance(s: Seq<SpacedTokenV>)
    requires
        s.len() > 0,
        s[0].token == TokenV::LCurlyBracket,
    ensures
        (spec_extract_block(s) is Ok) <==> (exists|k: int|
            0 < k < s.len() && #[trigger] curly_depth(s, k + 1) == 0),
        (spec_extract_block(s) is Err) <==> (forall|k: int|
            0 < k < s.len() ==> #[trigger] curly_depth(s, k + 1) != 0),
{
    assert(curly_depth(s, 0) == 0);
    lemma_curly_end_iff(s, 0);
    assert(curly_depth(s, 1) == curly_delta(s[0].token));
    if exists|k: int| 0 <= k < s.len() && #[trigger] curly_depth(s, k + 1) == 0 {
        let k = choose|k: int| 0 <= k < s.len() && #[trigger] curly_depth(s, k + 1) == 0;
        assert(k != 0);
        assert(0 < k < s.len() && curly_depth(s, k + 1) == 0);
    }
}

/// A slice whose curly braces balance over its whole length, opening
/// with a brace, always extracts a block: the mismatch failure cannot
/// arise.
pub proof fn lemma_balanced_input_extracts(s: Seq<SpacedTokenV>)
    requires
        s.len() > 0,
        s[0].token == TokenV::LCurlyBracket,
        curly_depth(s, s.len() as int) == 0,
    ensures
        spec_extract_block(s) is Ok,
{
    lemma_bracket_balance(s);
    assert(curly_depth(s, 0) == 0);
    assert(curly_depth(s, 1) == 1);
    assert(s.len() >= 2);
    assert(0 < s.len() - 1 < s.len() && curly_depth(s, (s.len() - 1) + 1) == 0);
}

/// An extracted block is strictly shorter than the slice it came from:
/// its two braces stand outside the content.
pub proof fn lemma_extract_block_len(s: Seq<SpacedTokenV>)
    ensures
        spec_extract_block(s) matches Ok(b) ==> s.len() >= 2 && b.len() + 2 <= s.len() && b
            == s.subrange(1, b.len() as int + 1),
{
    if s.len() > 0 && s[0].token == TokenV::LCurlyBracket {
        lemma_curly_end_bounds(s, 1, 1);
    }
}

/// An extracted square-bracket block is strictly shorter than the slice
/// it came from.
pub proof fn lemma_extract_square_block_len(s: Seq<SpacedTokenV>)
    ensures
        spec_extract_square_block(s) matches Ok(b) ==> s.len() >= 2 && b.len() + 2 <= s.len() && b
            == s.subrange(1, b.len() as int + 1),
{
    if s.len() > 0 && s[0].token == TokenV::LSquareBracket {
        lemma_square_end_bounds(s, 1, 1);
    }
}

/// The content of the curly-brace block that opens at the head of `s`:
/// the tokens strictly between the opening brace and the brace where
/// the depth counter first returns to zero.
pub open spec fn spec_extract_block(s: Seq<SpacedTokenV>) -> Result<Seq<SpacedTokenV>, ParserFail> {
    if s.len() == 0 || s[0].token != TokenV::LCurlyBracket {
        Err(ParserFail::BracketMismatch)
    } else {
        match curly_end(s, 0, 0) {
            Some(k) => Ok(s.subrange(1, k as int)),
            None => Err(ParserFail::BracketMismatch),
        }
    }
}

/// The content of the square-bracket block that opens at the head of
/// `s`.
pub open spec fn spec_extract_square_block(s: Seq<SpacedTokenV>) -> Result<
    Seq<SpacedTokenV>,
    ParserFail,
> {
    if s.len() == 0 || s[0].token != TokenV::LSquareBracket {
        Err(ParserFail::BracketMismatch)
    } else {
        match square_end(s, 0, 0) {
            Some(k) => Ok(s.subrange(1, k as int)),
            None => Err(ParserFail::BracketMismatch),
        }
    }
}

/// The position of the first newline token at or after `i`.
pub open spec fn nl_index(s: Seq<SpacedTokenV>, i: nat) -> Option<nat>
    decreases s.len() - i,
    when i <= s.len()
{
    if i >= s.len() {
        None
    } else if s[i as int].token == TokenV::Newline {
        Some(i)
    } else {
        nl_index(s, i + 1)
    }
}

/// A found newline lies within the sequence, and no newline stands
/// before it.
pub proof fn lemma_nl_index_bounds(s: Seq<SpacedTokenV>, i: nat)
    requires
        i <= s.len(),
    ensures
        nl_index(s, i) matches Some(k) ==> i <= k < s.len() && s[k as int].token
            == TokenV::Newline,
    decreases s.len() - i,
{
    if i < s.len() && s[i as int].token != TokenV::Newline {
        lemma_nl_index_bounds(s, i + 1);
    }
}

/// The tokens before the first newline of `s`; the newline itself is
/// not part of the capture and is not consumed.
pub open spec fn spec_extract_until_newline(s: Seq<SpacedTokenV>) -> Result<
    Seq<SpacedTokenV>,
    ParserFail,
> {
    match nl_index(s, 0) {
        Some(k) => Ok(s.take(k as int)),
        None => Err(ParserFail::MissingTrailingNewline),
    }
}

/// An address-like expression at the head of `s`: a bare identifier, a
/// `[...]` command substitution, or a `${...}` variable substitution;
/// the two spans are captured verbatim, depth-matched. The result is
/// the captured text and the count of tokens covered.
pub open spec fn spec_parse_expression(s: Seq<SpacedTokenV>) -> Result<(Seq<u8>, nat), ParserFail> {
    if s.len() > 0 && (s[0].token matches TokenV::Identifier(d)) {
        Ok((s[0].token->Identifier_0, 1))
    } else if s.len() > 0 && s[0].token == TokenV::LSquareBracket {
        match spec_extract_square_block(s) {
            Err(e) => Err(e),
            Ok(b) => Ok((join_tokens(s.take(b.len() as int + 2)), b.len() + 2)),
        }
    } else if s.len() >= 2 && s[0].token == TokenV::Dollar && s[1].token
        == TokenV::LCurlyBracket {
        match spec_extract_block(s.skip(1)) {
            Err(e) => Err(e),
            Ok(b) => Ok((join_tokens(s.take(b.len() as int + 3)), b.len() + 3)),
        }
    } else {
        Err(ParserFail::ExpectedExpression)
    }
}

/// The byte sequence `UDP`.
pub open spec fn udp_bytes() -> Seq<u8> {
    seq![85u8, 68u8, 80u8]
}

/// The byte sequence `GTP`.
pub open spec fn gtp_bytes() -> Seq<u8> {
    seq![71u8, 84u8, 80u8]
}

/// The byte sequence `default`.
pub open spec fn default_bytes() -> Seq<u8> {
    seq![100u8, 101u8, 102u8, 97u8, 117u8, 108u8, 116u8]
}

/// Parses a whole token slice as a block: statement-starting
/// productions are tried in a fixed priority order until the slice is
/// exhausted. The result is the ordered child list.
pub open spec fn spec_parse_block(s: Seq<SpacedTokenV>) -> Result<Seq<AstV>, ParserFail>
    decreases s.len(), 2int,
{
    match spec_parse_one(s) {
        Err(e) => Err(e),
        Ok(r) => {
            let c = if r.1 > s.len() {
                s.len()
            } else {
                r.1
            };
            if c == 0 {
                match r.0 {
                    None => Ok(Seq::empty()),
                    Some(a) => Ok(seq![a]),
                }
            } else {
                match r.0 {
                    None => spec_parse_block(s.skip(c as int)),
                    Some(a) => match spec_parse_block(s.skip(c as int)) {
                        Err(e) => Err(e),
                        Ok(ts) => Ok(seq![a] + ts),
                    },
                }
            }
        },
    }
}

/// One step of the block loop: the node the lookahead selects (`None`
/// for a consumed stray newline or the end of the slice) and the exact
/// count of tokens consumed. The priority order is: comment,
/// conditional, when, set, node, snat, log, switch, qualified opaque
/// statement, bare return, blank line, stray newline.
pub open spec fn spec_parse_one(s: Seq<SpacedTokenV>) -> Result<(Option<AstV>, nat), ParserFail>
    decreases s.len(), 1int,
{
    if s.len() == 0 {
        Ok((None, 0))
    } else if s.len() >= 3 && s[0].token == TokenV::Hash && (s[1].token matches TokenV::Other(_))
        && s[2].token == TokenV::Newline {
        Ok((Some(AstV::Comment(s[1].token->Other_0)), 2))
    } else if s.len() >= 2 && s[0].token == TokenV::KeywordIf && s[1].token
        == TokenV::LCurlyBracket {
        match spec_parse_if(s) {
            Err(e) => Err(e),
            Ok((a, c)) => Ok((Some(a), c)),
        }
    } else if s.len() >= 3 && s[0].token == TokenV::KeywordWhen && (s[1].token matches
        TokenV::Identifier(_)) && s[2].token == TokenV::LCurlyBracket {
        match spec_parse_when(s) {
            Err(e) => Err(e),
            Ok((a, c)) => Ok((Some(a), c)),
        }
    } else if s.len() >= 2 && s[0].token == TokenV::KeywordSet && (s[1].token matches
        TokenV::Identifier(_)) {
        match spec_parse_set(s) {
            Err(e) => Err(e),
            Ok((a, c)) => Ok((Some(a), c)),
        }
    } else if s[0].token == TokenV::KeywordNode {
        match spec_parse_node(s) {
            Err(e) => Err(e),
            Ok((a, c)) => Ok((Some(a), c)),
        }
    } else if s[0].token == TokenV::KeywordSnat {
        match spec_parse_snat(s) {
            Err(e) => Err(e),
            Ok((a, c)) => Ok((Some(a), c)),
        }
    } else if s.len() >= 3 && s[0].token == TokenV::KeywordLog && (s[1].token matches
        TokenV::Identifier(_)) && (s[2].token matches TokenV::Other(_)) {
        Ok(
            (
                Some(
                    AstV::Statement(
                        StatementV::Log {
                            bucket: s[1].token->Identifier_0,
                            value: s[2].token->Other_0,
                        },
                    ),
                ),
                3,
            ),
        )
    } else if s.len() >= 4 && s[0].token == TokenV::KeywordSwitch && s[1].token == TokenV::Dollar
        && (s[2].token matches TokenV::Identifier(_)) && s[3].token == TokenV::LCurlyBracket {
        match spec_parse_switch(s) {
            Err(e) => Err(e),
            Ok((a, c)) => Ok((Some(a), c)),
        }
    } else if s.len() >= 3 && (s[0].token matches TokenV::Identifier(_)) && s[1].token
        == TokenV::DoubleColon && (s[2].token matches TokenV::Identifier(_)) && (
    s[0].token->Identifier_0 == udp_bytes() || s[0].token->Identifier_0 == gtp_bytes()) {
        match spec_extract_until_newline(s) {
            Err(e) => Err(e),
            Ok(rest) => Ok(
                (Some(AstV::Statement(StatementV::Other { data: join_tokens(rest) })), rest.len()),
            ),
        }
    } else if s.len() >= 2 && s[0].token == TokenV::KeywordReturn && s[1].token
        == TokenV::Newline {
        Ok((Some(AstV::Statement(StatementV::Return { value: None })), 1))
    } else if s.len() >= 2 && s[0].token == TokenV::Newline && s[1].token == TokenV::Newline {
        Ok((Some(AstV::EmptyLine), 1))
    } else if s[0].token == TokenV::Newline {
        Ok((None, 1))
    } else {
        Err(ParserFail::UnrecognizedConstruct)
    }
}

/// Parses a conditional chain beginning at the `if` (or, in a recursive
/// call, `elseif`) keyword: the keyword, a braced condition, a braced
/// body, then either a further `elseif` chain — whose clauses are
/// spliced into this one — or a trailing `else` body, or nothing.
pub open spec fn spec_parse_if(s: Seq<SpacedTokenV>) -> Result<(AstV, nat), ParserFail>
    decreases s.len(), 0int,
    via spec_parse_if_decreases
{
    if s.len() == 0 {
        Err(ParserFail::UnrecognizedConstruct)
    } else {
        let t1 = s.skip(1);
        match spec_extract_block(t1) {
        Err(e) => Err(e),
        Ok(cond) => {
            let t2 = t1.skip(cond.len() as int + 2);
            match spec_extract_block(t2) {
                Err(e) => Err(e),
                Ok(body) => match spec_parse_block(body) {
                    Err(e) => Err(e),
                    Ok(children) => {
                        let consumed = 5 + cond.len() + body.len();
                        let clause = (join_tokens(cond), AstV::Block(children));
                        let t3 = t2.skip(body.len() as int + 2);
                        if t3.len() >= 2 && t3[0].token == TokenV::KeywordElseIf && t3[1].token
                            == TokenV::LCurlyBracket {
                            match spec_parse_if(t3) {
                                Err(e) => Err(e),
                                Ok((a2, c2)) => match a2 {
                                    AstV::If {
                                        condition_body_clauses: cl2,
                                        maybe_block_if_false: e2,
                                    } => Ok(
                                        (
                                            AstV::If {
                                                condition_body_clauses: seq![clause] + cl2,
                                                maybe_block_if_false: e2,
                                            },
                                            consumed + c2,
                                        ),
                                    ),
                                    _ => Err(ParserFail::ElseIfChainShape),
                                },
                            }
                        } else if t3.len() >= 2 && t3[0].token == TokenV::KeywordElse && t3[1].token
                            == TokenV::LCurlyBracket {
                            match spec_extract_block(t3.skip(1)) {
                                Err(e) => Err(e),
                                Ok(eb) => match spec_parse_block(eb) {
                                    Err(e) => Err(e),
                                    Ok(ech) => Ok(
                                        (
                                            AstV::If {
                                                condition_body_clauses: seq![clause],
                                                maybe_block_if_false: Some(
                                                    Box::new(AstV::Block(ech)),
                                                ),
                                            },
                                            consumed + 3 + eb.len(),
                                        ),
                                    ),
                                },
                            }
                        } else {
                            Ok(
                                (
                                    AstV::If {
                                        condition_body_clauses: seq![clause],
                                        maybe_block_if_false: None,
                                    },
                                    consumed,
                                ),
                            )
                        }
                    },
                },
            }
        },
        }
    }
}

#[via_fn]
proof fn spec_parse_if_decreases(s: Seq<SpacedTokenV>) {
    if s.len() >= 1 {
        let t1 = s.skip(1);
        lemma_extract_block_len(t1);
        if spec_extract_block(t1) is Ok {
            let cond = spec_extract_block(t1).unwrap();
            let t2 = t1.skip(cond.len() as int + 2);
            lemma_extract_block_len(t2);
            if spec_extract_block(t2) is Ok {
                let body = spec_extract_block(t2).unwrap();
                let t3 = t2.skip(body.len() as int + 2);
                if t3.len() >= 2 {
                    lemma_extract_block_len(t3.skip(1));
                }
            }
        }
    }
}

/// Parses `when <event> { <body> }` beginning at the `when` keyword.
pub open spec fn spec_parse_when(s: Seq<SpacedTokenV>) -> Result<(AstV, nat), ParserFail>
    decreases s.len(), 0int,
    via spec_parse_when_decreases
{
    if s.len() >= 2 && (s[1].token matches TokenV::Identifier(_)) {
        match spec_extract_block(s.skip(2)) {
            Err(e) => Err(e),
            Ok(body) => match spec_parse_block(body) {
                Err(e) => Err(e),
                Ok(children) => Ok(
                    (
                        AstV::When {
                            event_name: s[1].token->Identifier_0,
                            body: Box::new(AstV::Block(children)),
                        },
                        4 + body.len(),
                    ),
                ),
            },
        }
    } else {
        Err(ParserFail::UnrecognizedConstruct)
    }
}

#[via_fn]
proof fn spec_parse_when_decreases(s: Seq<SpacedTokenV>) {
    if s.len() >= 2 {
        lemma_extract_block_len(s.skip(2));
    }
}

/// Parses `set <identifier> <rest-of-line>` beginning at the `set`
/// keyword: the value is the rest of the line, re-joined token for
/// token.
pub open spec fn spec_parse_set(s: Seq<SpacedTokenV>) -> Result<(AstV, nat), ParserFail> {
    if s.len() >= 2 && (s[1].token matches TokenV::Identifier(_)) {
        match spec_extract_until_newline(s.skip(2)) {
            Err(e) => Err(e),
            Ok(rest) => Ok(
                (
                    AstV::Statement(
                        StatementV::SetVar {
                            identifier: s[1].token->Identifier_0,
                            value: join_tokens(rest),
                        },
                    ),
                    2 + rest.len(),
                ),
            ),
        }
    } else {
        Err(ParserFail::UnrecognizedConstruct)
    }
}

/// Parses `node <address> <port>` beginning at the `node` keyword:
/// exactly two expressions must fill the rest of the line.
pub open spec fn spec_parse_node(s: Seq<SpacedTokenV>) -> Result<(AstV, nat), ParserFail> {
    match spec_node_args(s) {
        Err(e) => Err(e),
        Ok(r) => Ok(
            (AstV::Statement(StatementV::Node { ip_address: r.0, port: r.1 }), r.2),
        ),
    }
}

/// Parses `snat <address> <port>` beginning at the `snat` keyword:
/// exactly two expressions must fill the rest of the line.
pub open spec fn spec_parse_snat(s: Seq<SpacedTokenV>) -> Result<(AstV, nat), ParserFail> {
    match spec_node_args(s) {
        Err(e) => Err(e),
        Ok(r) => Ok(
            (AstV::Statement(StatementV::Snat { ip_address: r.0, port: r.1 }), r.2),
        ),
    }
}

/// The two address-like arguments of a `node` or `snat` statement and
/// the count of tokens consumed, keyword included.
pub open spec fn spec_node_args(s: Seq<SpacedTokenV>) -> Result<(Seq<u8>, Seq<u8>, nat), ParserFail> {
    match spec_extract_until_newline(s.skip(1)) {
        Err(e) => Err(e),
        Ok(rest) => match spec_parse_expression(rest) {
            Err(e) => Err(e),
            Ok((a1, n1)) => match spec_parse_expression(rest.skip(n1 as int)) {
                Err(e) => Err(e),
                Ok((a2, n2)) => if n1 + n2 == rest.len() {
                    Ok((a1, a2, 1 + rest.len()))
                } else {
                    Err(ParserFail::ExpectedExpression)
                },
            },
        },
    }
}

/// Parses `switch $<identifier> { <arms> }` beginning at the `switch`
/// keyword.
pub open spec fn spec_parse_switch(s: Seq<SpacedTokenV>) -> Result<(AstV, nat), ParserFail>
    decreases s.len(), 0int,
    via spec_parse_switch_decreases
{
    if s.len() >= 3 && (s[2].token matches TokenV::Identifier(_)) {
        match spec_extract_block(s.skip(3)) {
            Err(e) => Err(e),
            Ok(content) => match spec_parse_arms(content) {
                Err(e) => Err(e),
                Ok(arms) => Ok(
                    (
                        AstV::Switch {
                            condition: seq![36u8] + s[2].token->Identifier_0,
                            value_block_or_fallthrough_vec: arms,
                        },
                        5 + content.len(),
                    ),
                ),
            },
        }
    } else {
        Err(ParserFail::UnrecognizedConstruct)
    }
}

#[via_fn]
proof fn spec_parse_switch_decreases(s: Seq<SpacedTokenV>) {
    if s.len() >= 3 {
        lemma_extract_block_len(s.skip(3));
    }
}

/// Parses the arms inside a switch block, in source order: a quoted
/// case value followed by `-` and a newline is a fallthrough arm
/// without a body; a quoted case value followed by a braced block, or
/// the case keyword `default` followed by a braced block, is a terminal
/// arm. Newlines between arms are skipped.
pub open spec fn spec_parse_arms(s: Seq<SpacedTokenV>) -> Result<
    Seq<(Seq<u8>, Option<AstV>)>,
    ParserFail,
>
    decreases s.len(), 1int,
    via spec_parse_arms_decreases
{
    if s.len() == 0 {
        Ok(Seq::empty())
    } else if s[0].token == TokenV::Newline {
        spec_parse_arms(s.skip(1))
    } else if s.len() >= 5 && s[0].token == TokenV::Quote && (s[1].token matches
        TokenV::Identifier(_)) && s[2].token == TokenV::Quote && s[3].token == TokenV::Minus
        && s[4].token == TokenV::Newline {
        match spec_parse_arms(s.skip(5)) {
            Err(e) => Err(e),
            Ok(rest) => Ok(seq![(join_tokens(s.take(3)), None)] + rest),
        }
    } else if s.len() >= 4 && s[0].token == TokenV::Quote && (s[1].token matches
        TokenV::Identifier(_)) && s[2].token == TokenV::Quote && s[3].token
        == TokenV::LCurlyBracket {
        match spec_extract_block(s.skip(3)) {
            Err(e) => Err(e),
            Ok(body) => match spec_parse_block(body) {
                Err(e) => Err(e),
                Ok(children) => match spec_parse_arms(s.skip(body.len() as int + 5)) {
                    Err(e) => Err(e),
                    Ok(rest) => Ok(
                        seq![(join_tokens(s.take(3)), Some(AstV::Block(children)))] + rest,
                    ),
                },
            },
        }
    } else if s.len() >= 2 && (s[0].token matches TokenV::Identifier(_))
        && s[0].token->Identifier_0 == default_bytes() && s[1].token == TokenV::LCurlyBracket {
        match spec_extract_block(s.skip(1)) {
            Err(e) => Err(e),
            Ok(body) => match spec_parse_block(body) {
                Err(e) => Err(e),
                Ok(children) => match spec_parse_arms(s.skip(body.len() as int + 3)) {
                    Err(e) => Err(e),
                    Ok(rest) => Ok(
                        seq![(s[0].token->Identifier_0, Some(AstV::Block(children)))] + rest,
                    ),
                },
            },
        }
    } else {
        Err(ParserFail::SwitchArmShape)
    }
}

#[via_fn]
proof fn spec_parse_arms_decreases(s: Seq<SpacedTokenV>) {
    if s.len() >= 4 {
        lemma_extract_block_len(s.skip(3));
    }
    if s.len() >= 2 {
        lemma_extract_block_len(s.skip(1));
    }
}

/// A run of `m` newline tokens.
pub open spec fn nl_run(m: nat) -> Seq<SpacedTokenV>
    decreases m,
{
    if m == 0 {
        Seq::empty()
    } else {
        seq![SpacedTokenV { space_before: false, token: TokenV::Newline }] + nl_run((m - 1) as nat)
    }
}

/// Blank-line pairing: `k` blank source lines stand in the token stream
/// as `k + 1` consecutive newline tokens — the previous line's
/// terminator and one per blank line — and parse to exactly `k`
/// blank-line nodes; the final stray newline is consumed silently.
pub proof fn lemma_blank_lines_parse(k: nat)
    ensures
        spec_parse_block(nl_run(k + 1)) == Ok::<Seq<AstV>, ParserFail>(
            crate::formatter::blank_nodes(k),
        ),
    decreases k,
{
    let nl = nl_run(k + 1);
    assert(nl[0] == SpacedTokenV { space_before: false, token: TokenV::Newline });
    assert(nl.skip(1) =~= nl_run(k));
    if k == 0 {
        assert(nl.len() == 1);
        assert(spec_parse_one(nl) == Ok::<(Option<AstV>, nat), ParserFail>((None, 1)));
        assert(nl_run(0) =~= Seq::<SpacedTokenV>::empty());
        assert(spec_parse_one(Seq::<SpacedTokenV>::empty()) == Ok::<
            (Option<AstV>, nat),
            ParserFail,
        >((None, 0)));
        assert(spec_parse_block(nl_run(0)) == Ok::<Seq<AstV>, ParserFail>(Seq::empty()));
        assert(crate::formatter::blank_nodes(0) =~= Seq::<AstV>::empty());
    } else {
        assert(nl_run(k)[0] == SpacedTokenV { space_before: false, token: TokenV::Newline });
        assert(nl[1] == nl.skip(1)[0]);
        assert(spec_parse_one(nl) == Ok::<(Option<AstV>, nat), ParserFail>(
            (Some(AstV::EmptyLine), 1),
        ));
        lemma_blank_lines_parse((k - 1) as nat);
        assert(seq![AstV::EmptyLine] + crate::formatter::blank_nodes((k - 1) as nat)
            =~= crate::formatter::blank_nodes(k));
    }
}

/// Parses a whole token sequence into one `Block` tree.
pub open spec fn spec_parse(s: Seq<SpacedTokenV>) -> Result<AstV, ParserFail> {
    match spec_parse_block(s) {
        Err(e) => Err(e),
        Ok(children) => Ok(AstV::Block(children)),
    }
}

proof fn lemma_toks_view_subrange(ts: Seq<SpacedToken>, i: int, j: int)
    requires
        0 <= i <= j <= ts.len(),
    ensures
        toks_view(ts.subrange(i, j)) == toks_view(ts).subrange(i, j),
{
    assert(toks_view(ts.subrange(i, j)) =~= toks_view(ts).subrange(i, j));
}

proof fn lemma_asts_view_push(ts: Seq<Ast>, a: Ast)
    ensures
        crate::ast::asts_view(ts.push(a)) == crate::ast::asts_view(ts).push(crate::ast::ast_view(a)),
{
    assert(ts.push(a).drop_last() =~= ts);
}

proof fn lemma_clauses_view_push(ts: Seq<(Vec<u8>, Ast)>, x: (Vec<u8>, Ast))
    ensures
        crate::ast::clauses_view(ts.push(x)) == crate::ast::clauses_view(ts).push(
            (x.0@, crate::ast::ast_view(x.1)),
        ),
{
    assert(ts.push(x).drop_last() =~= ts);
}

proof fn lemma_arms_view_push(ts: Seq<(Vec<u8>, Option<Ast>)>, x: (Vec<u8>, Option<Ast>))
    ensures
        crate::ast::arms_view(ts.push(x)) == crate::ast::arms_view(ts).push(
            (
                x.0@,
                match x.1 {
                    Some(a) => Some(crate::ast::ast_view(a)),
                    None => None,
                },
            ),
        ),
{
    assert(ts.push(x).drop_last() =~= ts);
}

proof fn lemma_clauses_view_concat(a: Seq<(Vec<u8>, Ast)>, b: Seq<(Vec<u8>, Ast)>)
    ensures
        crate::ast::clauses_view(a + b) == crate::ast::clauses_view(a) + crate::ast::clauses_view(
            b,
        ),
    decreases b.len(),
{
    if b.len() == 0 {
        assert(a + b =~= a);
        assert(crate::ast::clauses_view(a) + crate::ast::clauses_view(b) =~= crate::ast::clauses_view(
            a,
        ));
    } else {
        assert((a + b).drop_last() =~= a + b.drop_last());
        lemma_clauses_view_concat(a, b.drop_last());
        assert((a + b).len() > 0);
        assert((a + b).last() == b.last());
        assert(crate::ast::clauses_view(a) + crate::ast::clauses_view(b) =~= (
        crate::ast::clauses_view(a) + crate::ast::clauses_view(b.drop_last())).push(
            (b.last().0@, crate::ast::ast_view(b.last().1)),
        ));
    }
}

/// Whether two byte vectors hold the same bytes.
fn eq_bytes(a: &Vec<u8>, b: &Vec<u8>) -> (r: bool)
    ensures
        r == (a@ == b@),
{
    if a.len() != b.len() {
        proof {
            assert(a@ != b@);
        }
        return false;
    }
    let n: usize = a.len();
    let mut i: usize = 0;
    while i < n
        invariant
            0 <= i <= n,
            n == a@.len() && n == b@.len(),
            forall|k: int| 0 <= k < i ==> a@[k] == b@[k],
        decreases n - i,
    {
        if a[i] != b[i] {
            return false;
        }
        i += 1;
    }
    proof {
        assert(a@ =~= b@);
    }
    true
}

/// The structural parser. It holds no state of its own; one call parses
/// one token sequence.
pub struct Parser {}

impl Parser {
    /// A parser, ready to run.
    pub fn new() -> (r: Self) {
        Self {  }
    }

    /// The literal text of a token span, re-joined: each token's text,
    /// with a single space before those that whitespace separated from
    /// their predecessor on the source line.
    fn parse_vec(tokens: &[SpacedToken]) -> (r: Vec<u8>)
        ensures
            r@ == join_tokens(toks_view(tokens@)),
    {
        let ghost v = toks_view(tokens@);
        let mut r: Vec<u8> = Vec::new();
        let n: usize = tokens.len();
        if n == 0 {
            proof {
                assert(r@ =~= join_tokens(v));
            }
            return r;
        }
        let mut t: Vec<u8> = tokens[0].token.text();
        r.append(&mut t);
        let mut i: usize = 1;
        proof {
            assert(Seq::<u8>::empty() + token_text(v[0].token) =~= token_text(v[0].token));
        }
        while i < n
            invariant
                1 <= i <= n,
                n == tokens@.len(),
                v == toks_view(tokens@),
                join_tokens(v) == r@ + join_rest(v.skip(i as int)),
            decreases n - i,
        {
            let ghost r0 = r@;
            let ghost rest = v.skip(i as int);
            if tokens[i].space_before {
                r.push(32);
            }
            let mut t: Vec<u8> = tokens[i].token.text();
            r.append(&mut t);
            proof {
                let sp: Seq<u8> = if v[i as int].space_before {
                    seq![32u8]
                } else {
                    Seq::empty()
                };
                assert(r@ =~= r0 + sp + token_text(v[i as int].token));
                assert(v.skip(i as int).skip(1) =~= v.skip(i as int + 1));
                assert(join_rest(rest) == sp + token_text(v[i as int].token) + join_rest(
                    v.skip(i as int + 1),
                ));
                assert(r0 + join_rest(rest) =~= r@ + join_rest(v.skip(i as int + 1)));
            }
            i += 1;
        }
        proof {
            assert(join_rest(v.skip(n as int)) =~= Seq::<u8>::empty());
            assert(r@ + Seq::<u8>::empty() =~= r@);
        }
        r
    }

    /// The tokens strictly between the curly brace that opens at the
    /// head of the slice and the brace where the depth counter first
    /// returns to zero.
    fn try_extract_block<'a>(tokens: &'a [SpacedToken]) -> (r: Result<&'a [SpacedToken], ParserFail>)
        ensures
            match spec_extract_block(toks_view(tokens@)) {
                Ok(b) => r matches Ok(v) && toks_view(v@) == b,
                Err(e) => r matches Err(e2) && e2 == e,
            },
    {
        let ghost v = toks_view(tokens@);
        let n: usize = tokens.len();
        let head_open = n > 0 && (match &tokens[0].token {
            Token::LCurlyBracket => true,
            _ => false,
        });
        if !head_open {
            return Err(ParserFail::BracketMismatch);
        }
        let mut i: usize = 0;
        let mut depth: i128 = 0;
        while i < n
            invariant
                0 <= i <= n,
                n == tokens@.len(),
                v == toks_view(tokens@),
                n > 0 && v[0].token == TokenV::LCurlyBracket,
                -(i as int) <= depth as int <= i as int,
                curly_end(v, 0, 0) == curly_end(v, i as nat, depth as int),
            decreases n - i,
        {
            let d: i128 = match &tokens[i].token {
                Token::LCurlyBracket => 1,
                Token::RCurlyBracket => -1,
                _ => 0,
            };
            let depth2: i128 = depth + d;
            if depth2 == 0 {
                proof {
                    assert(curly_end(v, 0, 0) == Some(i as nat));
                    lemma_toks_view_subrange(tokens@, 1, i as int);
                }
                return Ok(vstd::slice::slice_subrange(tokens, 1, i));
            }
            depth = depth2;
            i += 1;
        }
        proof {
            assert(curly_end(v, 0, 0) is None);
        }
        Err(ParserFail::BracketMismatch)
    }

    /// The tokens strictly between the square bracket that opens at the
    /// head of the slice and its depth-matched closing bracket.
    fn try_extract_square_block<'a>(tokens: &'a [SpacedToken]) -> (r: Result<
        &'a [SpacedToken],
        ParserFail,
    >)
        ensures
            match spec_extract_square_block(toks_view(tokens@)) {
                Ok(b) => r matches Ok(v) && toks_view(v@) == b,
                Err(e) => r matches Err(e2) && e2 == e,
            },
    {
        let ghost v = toks_view(tokens@);
        let n: usize = tokens.len();
        let head_open = n > 0 && (match &tokens[0].token {
            Token::LSquareBracket => true,
            _ => false,
        });
        if !head_open {
            return Err(ParserFail::BracketMismatch);
        }
        let mut i: usize = 0;
        let mut depth: i128 = 0;
        while i < n
            invariant
                0 <= i <= n,
                n == tokens@.len(),
                v == toks_view(tokens@),
                n > 0 && v[0].token == TokenV::LSquareBracket,
                -(i as int) <= depth as int <= i as int,
                square_end(v, 0, 0) == square_end(v, i as nat, depth as int),
            decreases n - i,
        {
            let d: i128 = match &tokens[i].token {
                Token::LSquareBracket => 1,
                Token::RSquareBracket => -1,
                _ => 0,
            };
            let depth2: i128 = depth + d;
            if depth2 == 0 {
                proof {
                    assert(square_end(v, 0, 0) == Some(i as nat));
                    lemma_toks_view_subrange(tokens@, 1, i as int);
                }
                return Ok(vstd::slice::slice_subrange(tokens, 1, i));
            }
            depth = depth2;
            i += 1;
        }
        proof {
            assert(square_end(v, 0, 0) is None);
        }
        Err(ParserFail::BracketMismatch)
    }

    /// The tokens before the first newline of the slice; the newline is
    /// left in place.
    fn try_extract_until_newline<'a>(tokens: &'a [SpacedToken]) -> (r: Result<
        &'a [SpacedToken],
        ParserFail,
    >)
        ensures
            match spec_extract_until_newline(toks_view(tokens@)) {
                Ok(b) => r matches Ok(v) && toks_view(v@) == b && v@.len() < tokens@.len(),
                Err(e) => r matches Err(e2) && e2 == e,
            },
    {
        let ghost v = toks_view(tokens@);
        let n: usize = tokens.len();
        let mut i: usize = 0;
        while i < n
            invariant
                0 <= i <= n,
                n == tokens@.len(),
                v == toks_view(tokens@),
                nl_index(v, 0) == nl_index(v, i as nat),
            decreases n - i,
        {
            let is_nl = match &tokens[i].token {
                Token::Newline => true,
                _ => false,
            };
            if is_nl {
                proof {
                    assert(nl_index(v, 0) == Some(i as nat));
                    lemma_toks_view_subrange(tokens@, 0, i as int);
                    assert(v.subrange(0, i as int) =~= v.take(i as int));
                }
                return Ok(vstd::slice::slice_subrange(tokens, 0, i));
            }
            i += 1;
        }
        proof {
            assert(nl_index(v, 0) is None);
        }
        Err(ParserFail::MissingTrailingNewline)
    }
}

impl Parser {
    /// An address-like expression at the head of the slice: a bare
    /// identifier, a `[...]` span, or a `${...}` span, captured
    /// verbatim.
    fn try_parse_expression(tokens: &[SpacedToken]) -> (r: Result<(Vec<u8>, usize), ParserFail>)
        ensures
            match spec_parse_expression(toks_view(tokens@)) {
                Ok(p) => r matches Ok(q) && q.0@ == p.0 && q.1 == p.1 && p.1 <= tokens@.len(),
                Err(e) => r matches Err(e2) && e2 == e,
            },
    {
        let ghost v = toks_view(tokens@);
        let n: usize = tokens.len();
        if n > 0 {
            match &tokens[0].token {
                Token::Identifier(d) => {
                    return Ok((vstd::slice::slice_to_vec(d.as_slice()), 1));
                },
                _ => {},
            }
            let head_square = match &tokens[0].token {
                Token::LSquareBracket => true,
                _ => false,
            };
            if head_square {
                match Self::try_extract_square_block(tokens) {
                    Err(e) => {
                        return Err(e);
                    },
                    Ok(b) => {
                        proof {
                            lemma_extract_square_block_len(v);
                        }
                        let m: usize = b.len() + 2;
                        proof {
                            lemma_toks_view_subrange(tokens@, 0, m as int);
                            assert(v.subrange(0, m as int) =~= v.take(m as int));
                        }
                        let txt = Self::parse_vec(vstd::slice::slice_subrange(tokens, 0, m));
                        return Ok((txt, m));
                    },
                }
            }
            let head_dollar = n >= 2 && (match &tokens[0].token {
                Token::Dollar => true,
                _ => false,
            }) && (match &tokens[1].token {
                Token::LCurlyBracket => true,
                _ => false,
            });
            if head_dollar {
                proof {
                    lemma_toks_view_subrange(tokens@, 1, n as int);
                }
                match Self::try_extract_block(vstd::slice::slice_subrange(tokens, 1, n)) {
                    Err(e) => {
                        return Err(e);
                    },
                    Ok(b) => {
                        proof {
                            lemma_extract_block_len(v.skip(1));
                        }
                        let m: usize = b.len() + 3;
                        proof {
                            lemma_toks_view_subrange(tokens@, 0, m as int);
                            assert(v.subrange(0, m as int) =~= v.take(m as int));
                        }
                        let txt = Self::parse_vec(vstd::slice::slice_subrange(tokens, 0, m));
                        return Ok((txt, m));
                    },
                }
            }
        }
        Err(ParserFail::ExpectedExpression)
    }

    /// The two address-like arguments of a `node` or `snat` line, and
    /// the count of tokens consumed, keyword included.
    fn node_args(tokens: &[SpacedToken]) -> (r: Result<(Vec<u8>, Vec<u8>, usize), ParserFail>)
        requires
            tokens@.len() >= 1,
        ensures
            match spec_node_args(toks_view(tokens@)) {
                Ok(p) => r matches Ok(q) && q.0@ == p.0 && q.1@ == p.1 && q.2 == p.2 && p.2
                    <= tokens@.len(),
                Err(e) => r matches Err(e2) && e2 == e,
            },
    {
        let ghost v = toks_view(tokens@);
        let n: usize = tokens.len();
        proof {
            lemma_toks_view_subrange(tokens@, 1, n as int);
        }
        match Self::try_extract_until_newline(vstd::slice::slice_subrange(tokens, 1, n)) {
            Err(e) => Err(e),
            Ok(rest) => {
                let m: usize = rest.len();
                match Self::try_parse_expression(rest) {
                    Err(e) => Err(e),
                    Ok((a1, n1)) => {
                        proof {
                            lemma_toks_view_subrange(rest@, n1 as int, m as int);
                            assert(toks_view(rest@).subrange(n1 as int, m as int)
                                =~= toks_view(rest@).skip(n1 as int));
                        }
                        match Self::try_parse_expression(
                            vstd::slice::slice_subrange(rest, n1, m),
                        ) {
                            Err(e) => Err(e),
                            Ok((a2, n2)) => {
                                if n1 + n2 == m {
                                    Ok((a1, a2, 1 + m))
                                } else {
                                    Err(ParserFail::ExpectedExpression)
                                }
                            },
                        }
                    },
                }
            },
        }
    }

    /// Parses `node <address> <port>`: exactly two expressions must
    /// fill the rest of the line.
    fn try_parse_node(tokens: &[SpacedToken]) -> (r: Result<(Ast, usize), ParserFail>)
        requires
            tokens@.len() >= 1,
        ensures
            match spec_parse_node(toks_view(tokens@)) {
                Ok(p) => r matches Ok(q) && q.0@ == p.0 && q.1 == p.1 && p.1 <= tokens@.len(),
                Err(e) => r matches Err(e2) && e2 == e,
            },
    {
        match Self::node_args(tokens) {
            Err(e) => Err(e),
            Ok((a1, a2, c)) => Ok((Ast::Statement(Statement::Node { ip_address: a1, port: a2 }), c)),
        }
    }

    /// Parses `snat <address> <port>`: exactly two expressions must
    /// fill the rest of the line.
    fn try_parse_snat(tokens: &[SpacedToken]) -> (r: Result<(Ast, usize), ParserFail>)
        requires
            tokens@.len() >= 1,
        ensures
            match spec_parse_snat(toks_view(tokens@)) {
                Ok(p) => r matches Ok(q) && q.0@ == p.0 && q.1 == p.1 && p.1 <= tokens@.len(),
                Err(e) => r matches Err(e2) && e2 == e,
            },
    {
        match Self::node_args(tokens) {
            Err(e) => Err(e),
            Ok((a1, a2, c)) => Ok((Ast::Statement(Statement::Snat { ip_address: a1, port: a2 }), c)),
        }
    }

    /// Parses `set <identifier> <rest-of-line>`: the value is the rest
    /// of the line, re-joined token for token.
    fn try_parse_set(tokens: &[SpacedToken]) -> (r: Result<(Ast, usize), ParserFail>)
        requires
            tokens@.len() >= 2,
            toks_view(tokens@)[1].token matches TokenV::Identifier(_),
        ensures
            match spec_parse_set(toks_view(tokens@)) {
                Ok(p) => r matches Ok(q) && q.0@ == p.0 && q.1 == p.1 && p.1 <= tokens@.len(),
                Err(e) => r matches Err(e2) && e2 == e,
            },
    {
        let ghost v = toks_view(tokens@);
        let n: usize = tokens.len();
        match &tokens[1].token {
            Token::Identifier(d) => {
                let id: Vec<u8> = vstd::slice::slice_to_vec(d.as_slice());
                proof {
                    lemma_toks_view_subrange(tokens@, 2, n as int);
                }
                match Self::try_extract_until_newline(vstd::slice::slice_subrange(tokens, 2, n)) {
                    Err(e) => Err(e),
                    Ok(rest) => {
                        let value = Self::parse_vec(rest);
                        Ok(
                            (
                                Ast::Statement(Statement::SetVar { identifier: id, value }),
                                2 + rest.len(),
                            ),
                        )
                    },
                }
            },
            _ => {
                proof {
                    assert(false);
                }
                Err(ParserFail::UnrecognizedConstruct)
            },
        }
    }

    /// Parses `log <bucket> "<value>"`: the value is the quoted string
    /// the tokenizer captured.
    fn try_parse_log(tokens: &[SpacedToken]) -> (r: Result<(Ast, usize), ParserFail>)
        requires
            tokens@.len() >= 3,
            toks_view(tokens@)[1].token matches TokenV::Identifier(_),
            toks_view(tokens@)[2].token matches TokenV::Other(_),
        ensures
            r matches Ok(q) && q.0@ == AstV::Statement(
                StatementV::Log {
                    bucket: toks_view(tokens@)[1].token->Identifier_0,
                    value: toks_view(tokens@)[2].token->Other_0,
                },
            ) && q.1 == 3,
    {
        match (&tokens[1].token, &tokens[2].token) {
            (Token::Identifier(b), Token::Other(c)) => {
                let bucket: Vec<u8> = vstd::slice::slice_to_vec(b.as_slice());
                let value: Vec<u8> = vstd::slice::slice_to_vec(c.as_slice());
                Ok((Ast::Statement(Statement::Log { bucket, value }), 3))
            },
            _ => {
                proof {
                    assert(false);
                }
                Err(ParserFail::UnrecognizedConstruct)
            },
        }
    }

    /// Parses a line the grammar does not model, capturing it verbatim
    /// up to its newline.
    fn try_parse_statement(tokens: &[SpacedToken]) -> (r: Result<(Ast, usize), ParserFail>)
        ensures
            match spec_extract_until_newline(toks_view(tokens@)) {
                Ok(rest) => r matches Ok(q) && q.0@ == AstV::Statement(
                    StatementV::Other { data: join_tokens(rest) },
                ) && q.1 == rest.len() && q.1 <= tokens@.len(),
                Err(e) => r matches Err(e2) && e2 == e,
            },
    {
        match Self::try_extract_until_newline(tokens) {
            Err(e) => Err(e),
            Ok(rest) => {
                let data = Self::parse_vec(rest);
                Ok((Ast::Statement(Statement::Other { data }), rest.len()))
            },
        }
    }
}

impl Parser {
    /// Parses `when <event> { <body> }`.
    fn try_parse_when(tokens: &[SpacedToken]) -> (r: Result<(Ast, usize), ParserFail>)
        requires
            tokens@.len() >= 2,
            toks_view(tokens@)[1].token matches TokenV::Identifier(_),
        ensures
            match spec_parse_when(toks_view(tokens@)) {
                Ok(p) => r matches Ok(q) && q.0@ == p.0 && q.1 == p.1 && p.1 <= tokens@.len(),
                Err(e) => r matches Err(e2) && e2 == e,
            },
        decreases tokens@.len(), 0int,
    {
        let ghost v = toks_view(tokens@);
        let n: usize = tokens.len();
        match &tokens[1].token {
            Token::Identifier(d) => {
                let name: Vec<u8> = vstd::slice::slice_to_vec(d.as_slice());
                proof {
                    lemma_toks_view_subrange(tokens@, 2, n as int);
                }
                match Self::try_extract_block(vstd::slice::slice_subrange(tokens, 2, n)) {
                    Err(e) => Err(e),
                    Ok(body_toks) => {
                        proof {
                            lemma_extract_block_len(v.skip(2));
                        }
                        match Self::try_parse(body_toks) {
                            Err(e) => Err(e),
                            Ok((body_ast, _)) => {
                                let c: usize = 4 + body_toks.len();
                                Ok((Ast::When { event_name: name, body: Box::new(body_ast) }, c))
                            },
                        }
                    },
                }
            },
            _ => {
                proof {
                    assert(false);
                }
                Err(ParserFail::UnrecognizedConstruct)
            },
        }
    }

    /// Parses the arms inside a switch block, in source order.
    #[verifier::rlimit(100)]
    fn parse_arms(tokens: &[SpacedToken]) -> (r: Result<Vec<(Vec<u8>, Option<Ast>)>, ParserFail>)
        ensures
            match spec_parse_arms(toks_view(tokens@)) {
                Ok(arms) => r matches Ok(q) && crate::ast::arms_view(q@) == arms,
                Err(e) => r matches Err(e2) && e2 == e,
            },
        decreases tokens@.len(), 1int,
    {
        let ghost v = toks_view(tokens@);
        let n: usize = tokens.len();
        let mut arms: Vec<(Vec<u8>, Option<Ast>)> = Vec::new();
        let mut i: usize = 0;
        proof {
            assert(crate::ast::arms_view(arms@) =~= Seq::<(Seq<u8>, Option<AstV>)>::empty());
            assert(v.skip(0) =~= v);
            let nxt = spec_parse_arms(v);
            if nxt is Ok {
                assert(crate::ast::arms_view(arms@) + nxt.unwrap() =~= nxt.unwrap());
            }
        }
        loop
            invariant
                0 <= i <= n,
                n == tokens@.len(),
                v == toks_view(tokens@),
                spec_parse_arms(v) == (match spec_parse_arms(v.skip(i as int)) {
                    Err(e) => Err(e),
                    Ok(rest) => Ok(crate::ast::arms_view(arms@) + rest),
                }),
            decreases n - i,
        {
            let ghost rem = v.skip(i as int);
            if i == n {
                proof {
                    assert(spec_parse_arms(rem) == Ok::<_, ParserFail>(
                        Seq::<(Seq<u8>, Option<AstV>)>::empty(),
                    ));
                    assert(crate::ast::arms_view(arms@) + Seq::<(Seq<u8>, Option<AstV>)>::empty()
                        =~= crate::ast::arms_view(arms@));
                }
                return Ok(arms);
            }
            let is_nl = match &tokens[i].token {
                Token::Newline => true,
                _ => false,
            };
            if is_nl {
                proof {
                    assert(rem[0].token == TokenV::Newline);
                    assert(spec_parse_arms(rem) == spec_parse_arms(rem.skip(1)));
                    assert(rem.skip(1) =~= v.skip(i as int + 1));
                }
                i += 1;
                continue ;
            }
            let q0 = match &tokens[i].token {
                Token::Quote => true,
                _ => false,
            };
            let fall = q0 && n - i > 4 && (match &tokens[i + 1].token {
                Token::Identifier(_) => true,
                _ => false,
            }) && (match &tokens[i + 2].token {
                Token::Quote => true,
                _ => false,
            }) && (match &tokens[i + 3].token {
                Token::Minus => true,
                _ => false,
            }) && (match &tokens[i + 4].token {
                Token::Newline => true,
                _ => false,
            });
            if fall {
                proof {
                    lemma_toks_view_subrange(tokens@, i as int, i as int + 3);
                    assert(v.subrange(i as int, i as int + 3) =~= rem.take(3));
                }
                let value = Self::parse_vec(vstd::slice::slice_subrange(tokens, i, i + 3));
                let ghost xv = value@;
                let ghost arms0 = arms@;
                arms.push((value, None));
                proof {
                    let x = (join_tokens(rem.take(3)), None::<AstV>);
                    lemma_arms_view_push(arms0, arms@.last());
                    assert(crate::ast::arms_view(arms@) =~= crate::ast::arms_view(arms0) + seq![
                        x,
                    ]);
                    let nxt = spec_parse_arms(v.skip(i as int + 5));
                    assert(rem.skip(5) =~= v.skip(i as int + 5));
                    assert(spec_parse_arms(rem) == (match nxt {
                        Err(e) => Err::<Seq<(Seq<u8>, Option<AstV>)>, ParserFail>(e),
                        Ok(rest2) => Ok(seq![x] + rest2),
                    }));
                    if nxt is Ok {
                        let rest2 = nxt.unwrap();
                        assert(crate::ast::arms_view(arms0) + (seq![x] + rest2) =~= (
                        crate::ast::arms_view(arms0) + seq![x]) + rest2);
                    }
                }
                i += 5;
                continue ;
            }
            let barm = q0 && n - i > 3 && (match &tokens[i + 1].token {
                Token::Identifier(_) => true,
                _ => false,
            }) && (match &tokens[i + 2].token {
                Token::Quote => true,
                _ => false,
            }) && (match &tokens[i + 3].token {
                Token::LCurlyBracket => true,
                _ => false,
            });
            if barm {
                proof {
                    lemma_toks_view_subrange(tokens@, i as int, i as int + 3);
                    assert(v.subrange(i as int, i as int + 3) =~= rem.take(3));
                    lemma_toks_view_subrange(tokens@, i as int + 3, n as int);
                    assert(v.subrange(i as int + 3, n as int) =~= rem.skip(3));
                }
                let value = Self::parse_vec(vstd::slice::slice_subrange(tokens, i, i + 3));
                match Self::try_extract_block(vstd::slice::slice_subrange(tokens, i + 3, n)) {
                    Err(e) => {
                        return Err(e);
                    },
                    Ok(body_toks) => {
                        proof {
                            lemma_extract_block_len(rem.skip(3));
                        }
                        match Self::try_parse(body_toks) {
                            Err(e) => {
                                return Err(e);
                            },
                            Ok((body_ast, _)) => {
                                let ghost bav = body_ast@;
                                let ghost arms0 = arms@;
                                let step: usize = body_toks.len() + 5;
                                arms.push((value, Some(body_ast)));
                                proof {
                                    let x = (join_tokens(rem.take(3)), Some(AstV::Block(
                                        spec_parse_block(toks_view(body_toks@)).unwrap(),
                                    )));
                                    lemma_arms_view_push(arms0, arms@.last());
                                    assert(crate::ast::arms_view(arms@)
                                        =~= crate::ast::arms_view(arms0) + seq![x]);
                                    assert(rem.skip(toks_view(body_toks@).len() as int + 5)
                                        =~= v.skip(i as int + step));
                                    let nxt = spec_parse_arms(v.skip(i as int + step));
                                    assert(spec_parse_arms(rem) == (match nxt {
                                        Err(e) => Err::<Seq<(Seq<u8>, Option<AstV>)>, ParserFail>(
                                            e,
                                        ),
                                        Ok(rest2) => Ok(seq![x] + rest2),
                                    }));
                                    if nxt is Ok {
                                        let rest2 = nxt.unwrap();
                                        assert(crate::ast::arms_view(arms0) + (seq![x] + rest2)
                                            =~= (crate::ast::arms_view(arms0) + seq![x]) + rest2);
                                    }
                                }
                                i += step;
                                continue ;
                            },
                        }
                    },
                }
            }
            let darm = n - i > 1 && (match &tokens[i].token {
                Token::Identifier(_) => true,
                _ => false,
            }) && (match &tokens[i + 1].token {
                Token::LCurlyBracket => true,
                _ => false,
            });
            if darm {
                let dv: Vec<u8> = vec![100u8, 101u8, 102u8, 97u8, 117u8, 108u8, 116u8];
                proof {
                    assert(dv@ =~= default_bytes());
                }
                let matches_default = match &tokens[i].token {
                    Token::Identifier(g) => eq_bytes(g, &dv),
                    _ => false,
                };
                if matches_default {
                    let value: Vec<u8> = match &tokens[i].token {
                        Token::Identifier(g) => vstd::slice::slice_to_vec(g.as_slice()),
                        _ => Vec::new(),
                    };
                    proof {
                        lemma_toks_view_subrange(tokens@, i as int + 1, n as int);
                        assert(v.subrange(i as int + 1, n as int) =~= rem.skip(1));
                    }
                    match Self::try_extract_block(vstd::slice::slice_subrange(tokens, i + 1, n)) {
                        Err(e) => {
                            return Err(e);
                        },
                        Ok(body_toks) => {
                            proof {
                                lemma_extract_block_len(rem.skip(1));
                            }
                            match Self::try_parse(body_toks) {
                                Err(e) => {
                                    return Err(e);
                                },
                                Ok((body_ast, _)) => {
                                    let ghost bav = body_ast@;
                                    let ghost arms0 = arms@;
                                    let step: usize = body_toks.len() + 3;
                                    arms.push((value, Some(body_ast)));
                                    proof {
                                        let x = (rem[0].token->Identifier_0, Some(AstV::Block(
                                            spec_parse_block(toks_view(body_toks@)).unwrap(),
                                        )));
                                        lemma_arms_view_push(arms0, arms@.last());
                                        assert(crate::ast::arms_view(arms@)
                                            =~= crate::ast::arms_view(arms0) + seq![x]);
                                        assert(rem.skip(toks_view(body_toks@).len() as int + 3)
                                            =~= v.skip(i as int + step));
                                        let nxt = spec_parse_arms(v.skip(i as int + step));
                                        assert(spec_parse_arms(rem) == (match nxt {
                                            Err(e) => Err::<
                                                Seq<(Seq<u8>, Option<AstV>)>,
                                                ParserFail,
                                            >(e),
                                            Ok(rest2) => Ok(seq![x] + rest2),
                                        }));
                                        if nxt is Ok {
                                            let rest2 = nxt.unwrap();
                                            assert(crate::ast::arms_view(arms0) + (seq![x] + rest2)
                                                =~= (crate::ast::arms_view(arms0) + seq![x])
                                                + rest2);
                                        }
                                    }
                                    i += step;
                                    continue ;
                                },
                            }
                        },
                    }
                }
            }
            return Err(ParserFail::SwitchArmShape);
        }
    }

    /// Parses `switch $<identifier> { <arms> }`.
    fn try_parse_switch(tokens: &[SpacedToken]) -> (r: Result<(Ast, usize), ParserFail>)
        requires
            tokens@.len() >= 3,
            toks_view(tokens@)[2].token matches TokenV::Identifier(_),
        ensures
            match spec_parse_switch(toks_view(tokens@)) {
                Ok(p) => r matches Ok(q) && q.0@ == p.0 && q.1 == p.1 && p.1 <= tokens@.len(),
                Err(e) => r matches Err(e2) && e2 == e,
            },
        decreases tokens@.len(), 0int,
    {
        let ghost v = toks_view(tokens@);
        let n: usize = tokens.len();
        match &tokens[2].token {
            Token::Identifier(d) => {
                let mut condition: Vec<u8> = vec![36u8];
                let mut dv: Vec<u8> = vstd::slice::slice_to_vec(d.as_slice());
                condition.append(&mut dv);
                proof {
                    assert(condition@ =~= seq![36u8] + v[2].token->Identifier_0);
                    lemma_toks_view_subrange(tokens@, 3, n as int);
                }
                match Self::try_extract_block(vstd::slice::slice_subrange(tokens, 3, n)) {
                    Err(e) => Err(e),
                    Ok(content) => {
                        proof {
                            lemma_extract_block_len(v.skip(3));
                        }
                        match Self::parse_arms(content) {
                            Err(e) => Err(e),
                            Ok(arms) => Ok(
                                (
                                    Ast::Switch {
                                        condition,
                                        value_block_or_fallthrough_vec: arms,
                                    },
                                    5 + content.len(),
                                ),
                            ),
                        }
                    },
                }
            },
            _ => {
                proof {
                    assert(false);
                }
                Err(ParserFail::UnrecognizedConstruct)
            },
        }
    }
}

impl Parser {
    /// Parses a conditional chain beginning at the `if` (or, in a
    /// recursive call, `elseif`) keyword: a braced condition, a braced
    /// body, then a spliced `elseif` chain, a trailing `else` body, or
    /// nothing.
    #[verifier::rlimit(100)]
    fn try_parse_if(tokens: &[SpacedToken]) -> (r: Result<(Ast, usize), ParserFail>)
        requires
            tokens@.len() >= 1,
        ensures
            match spec_parse_if(toks_view(tokens@)) {
                Ok(p) => r matches Ok(q) && q.0@ == p.0 && q.1 == p.1 && p.1 <= tokens@.len(),
                Err(e) => r matches Err(e2) && e2 == e,
            },
        decreases tokens@.len(), 0int,
    {
        let ghost v = toks_view(tokens@);
        let n: usize = tokens.len();
        proof {
            lemma_toks_view_subrange(tokens@, 1, n as int);
        }
        match Self::try_extract_block(vstd::slice::slice_subrange(tokens, 1, n)) {
            Err(e) => Err(e),
            Ok(cond_toks) => {
                proof {
                    lemma_extract_block_len(v.skip(1));
                }
                let cond = Self::parse_vec(cond_toks);
                let p2: usize = 3 + cond_toks.len();
                proof {
                    lemma_toks_view_subrange(tokens@, p2 as int, n as int);
                    assert(v.skip(1).skip(toks_view(cond_toks@).len() as int + 2) =~= v.subrange(
                        p2 as int,
                        n as int,
                    ));
                }
                match Self::try_extract_block(vstd::slice::slice_subrange(tokens, p2, n)) {
                    Err(e) => Err(e),
                    Ok(body_toks) => {
                        proof {
                            lemma_extract_block_len(v.skip(1).skip(
                                toks_view(cond_toks@).len() as int + 2,
                            ));
                        }
                        match Self::try_parse(body_toks) {
                            Err(e) => Err(e),
                            Ok((body_ast, _)) => {
                                let ghost bav = body_ast@;
                                let consumed: usize = p2 + body_toks.len() + 2;
                                let ghost t3 = v.skip(1).skip(toks_view(cond_toks@).len() as int
                                    + 2).skip(toks_view(body_toks@).len() as int + 2);
                                proof {
                                    assert(t3 =~= v.skip(consumed as int));
                                }
                                let has_elseif = consumed < n && n - consumed > 1 && (match &tokens[consumed].token {
                                    Token::KeywordElseIf => true,
                                    _ => false,
                                }) && (match &tokens[consumed + 1].token {
                                    Token::LCurlyBracket => true,
                                    _ => false,
                                });
                                let has_else = !has_elseif && consumed < n && n - consumed > 1 && (match &tokens[consumed].token {
                                    Token::KeywordElse => true,
                                    _ => false,
                                }) && (match &tokens[consumed + 1].token {
                                    Token::LCurlyBracket => true,
                                    _ => false,
                                });
                                if has_elseif {
                                    proof {
                                        lemma_toks_view_subrange(tokens@, consumed as int, n as int);
                                    }
                                    match Self::try_parse_if(
                                        vstd::slice::slice_subrange(tokens, consumed, n),
                                    ) {
                                        Err(e) => Err(e),
                                        Ok((rec_ast, c2)) => match rec_ast {
                                            Ast::If {
                                                condition_body_clauses: cl2,
                                                maybe_block_if_false: e2,
                                            } => {
                                                let ghost cl2v = cl2@;
                                                let mut clauses: Vec<(Vec<u8>, Ast)> = Vec::new();
                                                clauses.push((cond, body_ast));
                                                let ghost one = clauses@;
                                                let mut cl2m = cl2;
                                                clauses.append(&mut cl2m);
                                                proof {
                                                    lemma_clauses_view_push(
                                                        Seq::<(Vec<u8>, Ast)>::empty(),
                                                        one.last(),
                                                    );
                                                    assert(Seq::<(Vec<u8>, Ast)>::empty().push(
                                                        one.last(),
                                                    ) =~= one);
                                                    lemma_clauses_view_concat(one, cl2v);
                                                    assert(crate::ast::clauses_view(
                                                        Seq::<(Vec<u8>, Ast)>::empty(),
                                                    ).push((cond@, bav)) =~= seq![(cond@, bav)]);
                                                    assert(seq![(cond@, bav)] + crate::ast::clauses_view(cl2v)
                                                        =~= crate::ast::clauses_view(clauses@));
                                                }
                                                Ok(
                                                    (
                                                        Ast::If {
                                                            condition_body_clauses: clauses,
                                                            maybe_block_if_false: e2,
                                                        },
                                                        consumed + c2,
                                                    ),
                                                )
                                            },
                                            _ => Err(ParserFail::ElseIfChainShape),
                                        },
                                    }
                                } else if has_else {
                                    proof {
                                        lemma_toks_view_subrange(
                                            tokens@,
                                            consumed as int + 1,
                                            n as int,
                                        );
                                        assert(v.subrange(consumed as int + 1, n as int) =~= t3.skip(
                                            1,
                                        ));
                                    }
                                    match Self::try_extract_block(
                                        vstd::slice::slice_subrange(tokens, consumed + 1, n),
                                    ) {
                                        Err(e) => Err(e),
                                        Ok(eb_toks) => {
                                            proof {
                                                lemma_extract_block_len(t3.skip(1));
                                            }
                                            match Self::try_parse(eb_toks) {
                                                Err(e) => Err(e),
                                                Ok((else_ast, _)) => {
                                                    let mut clauses: Vec<(Vec<u8>, Ast)> =
                                                        Vec::new();
                                                    clauses.push((cond, body_ast));
                                                    proof {
                                                        lemma_clauses_view_push(
                                                            Seq::<(Vec<u8>, Ast)>::empty(),
                                                            clauses@.last(),
                                                        );
                                                        assert(crate::ast::clauses_view(clauses@)
                                                            =~= seq![(cond@, bav)]);
                                                    }
                                                    Ok(
                                                        (
                                                            Ast::If {
                                                                condition_body_clauses: clauses,
                                                                maybe_block_if_false: Some(
                                                                    Box::new(else_ast),
                                                                ),
                                                            },
                                                            consumed + 3 + eb_toks.len(),
                                                        ),
                                                    )
                                                },
                                            }
                                        },
                                    }
                                } else {
                                    let mut clauses: Vec<(Vec<u8>, Ast)> = Vec::new();
                                    clauses.push((cond, body_ast));
                                    proof {
                                        lemma_clauses_view_push(
                                            Seq::<(Vec<u8>, Ast)>::empty(),
                                            clauses@.last(),
                                        );
                                        assert(crate::ast::clauses_view(clauses@) =~= seq![
                                            (cond@, bav),
                                        ]);
                                    }
                                    Ok(
                                        (
                                            Ast::If {
                                                condition_body_clauses: clauses,
                                                maybe_block_if_false: None,
                                            },
                                            consumed,
                                        ),
                                    )
                                }
                            },
                        }
                    },
                }
            },
        }
    }

    /// One step of the block loop: the node the lookahead selects, or
    /// `None` for a stray newline or the end of the slice, with the
    /// exact count of tokens consumed.
    #[verifier::rlimit(100)]
    fn try_parse_one(tokens: &[SpacedToken]) -> (r: Result<(Option<Ast>, usize), ParserFail>)
        ensures
            match spec_parse_one(toks_view(tokens@)) {
                Ok(p) => r matches Ok(q) && (match p.0 {
                    Some(a) => q.0 matches Some(b) && b@ == a && p.1 >= 1,
                    None => q.0 is None,
                }) && q.1 == p.1 && p.1 <= tokens@.len(),
                Err(e) => r matches Err(e2) && e2 == e,
            },
        decreases tokens@.len(), 1int,
    {
        let ghost v = toks_view(tokens@);
        let n: usize = tokens.len();
        if n == 0 {
            return Ok((None, 0));
        }
        let comment = n >= 3 && (match &tokens[0].token {
            Token::Hash => true,
            _ => false,
        }) && (match &tokens[1].token {
            Token::Other(_) => true,
            _ => false,
        }) && (match &tokens[2].token {
            Token::Newline => true,
            _ => false,
        });
        if comment {
            match &tokens[1].token {
                Token::Other(c) => {
                    return Ok((Some(Ast::Comment(vstd::slice::slice_to_vec(c.as_slice()))), 2));
                },
                _ => {
                    proof {
                        assert(false);
                    }
                    return Err(ParserFail::UnrecognizedConstruct);
                },
            }
        }
        let if_head = n >= 2 && (match &tokens[0].token {
            Token::KeywordIf => true,
            _ => false,
        }) && (match &tokens[1].token {
            Token::LCurlyBracket => true,
            _ => false,
        });
        if if_head {
            return match Self::try_parse_if(tokens) {
                Err(e) => Err(e),
                Ok((a, c)) => Ok((Some(a), c)),
            };
        }
        let when_head = n >= 3 && (match &tokens[0].token {
            Token::KeywordWhen => true,
            _ => false,
        }) && (match &tokens[1].token {
            Token::Identifier(_) => true,
            _ => false,
        }) && (match &tokens[2].token {
            Token::LCurlyBracket => true,
            _ => false,
        });
        if when_head {
            return match Self::try_parse_when(tokens) {
                Err(e) => Err(e),
                Ok((a, c)) => Ok((Some(a), c)),
            };
        }
        let set_head = n >= 2 && (match &tokens[0].token {
            Token::KeywordSet => true,
            _ => false,
        }) && (match &tokens[1].token {
            Token::Identifier(_) => true,
            _ => false,
        });
        if set_head {
            return match Self::try_parse_set(tokens) {
                Err(e) => Err(e),
                Ok((a, c)) => Ok((Some(a), c)),
            };
        }
        let node_head = match &tokens[0].token {
            Token::KeywordNode => true,
            _ => false,
        };
        if node_head {
            return match Self::try_parse_node(tokens) {
                Err(e) => Err(e),
                Ok((a, c)) => Ok((Some(a), c)),
            };
        }
        let snat_head = match &tokens[0].token {
            Token::KeywordSnat => true,
            _ => false,
        };
        if snat_head {
            return match Self::try_parse_snat(tokens) {
                Err(e) => Err(e),
                Ok((a, c)) => Ok((Some(a), c)),
            };
        }
        let log_head = n >= 3 && (match &tokens[0].token {
            Token::KeywordLog => true,
            _ => false,
        }) && (match &tokens[1].token {
            Token::Identifier(_) => true,
            _ => false,
        }) && (match &tokens[2].token {
            Token::Other(_) => true,
            _ => false,
        });
        if log_head {
            return match Self::try_parse_log(tokens) {
                Err(e) => Err(e),
                Ok((a, c)) => Ok((Some(a), c)),
            };
        }
        let switch_head = n >= 4 && (match &tokens[0].token {
            Token::KeywordSwitch => true,
            _ => false,
        }) && (match &tokens[1].token {
            Token::Dollar => true,
            _ => false,
        }) && (match &tokens[2].token {
            Token::Identifier(_) => true,
            _ => false,
        }) && (match &tokens[3].token {
            Token::LCurlyBracket => true,
            _ => false,
        });
        if switch_head {
            return match Self::try_parse_switch(tokens) {
                Err(e) => Err(e),
                Ok((a, c)) => Ok((Some(a), c)),
            };
        }
        let qual_shape = n >= 3 && (match &tokens[0].token {
            Token::Identifier(_) => true,
            _ => false,
        }) && (match &tokens[1].token {
            Token::DoubleColon => true,
            _ => false,
        }) && (match &tokens[2].token {
            Token::Identifier(_) => true,
            _ => false,
        });
        if qual_shape {
            let udp: Vec<u8> = vec![85u8, 68u8, 80u8];
            let gtp: Vec<u8> = vec![71u8, 84u8, 80u8];
            proof {
                assert(udp@ =~= udp_bytes());
                assert(gtp@ =~= gtp_bytes());
            }
            let qual_group = match &tokens[0].token {
                Token::Identifier(g) => eq_bytes(g, &udp) || eq_bytes(g, &gtp),
                _ => false,
            };
            if qual_group {
                return match Self::try_parse_statement(tokens) {
                    Err(e) => Err(e),
                    Ok((a, c)) => {
                        proof {
                            lemma_nl_index_bounds(v, 1);
                        }
                        Ok((Some(a), c))
                    },
                };
            }
        }
        let return_head = n >= 2 && (match &tokens[0].token {
            Token::KeywordReturn => true,
            _ => false,
        }) && (match &tokens[1].token {
            Token::Newline => true,
            _ => false,
        });
        if return_head {
            return Ok((Some(Ast::Statement(Statement::Return { value: None })), 1));
        }
        let nl0 = match &tokens[0].token {
            Token::Newline => true,
            _ => false,
        };
        let blank = n >= 2 && nl0 && (match &tokens[1].token {
            Token::Newline => true,
            _ => false,
        });
        if blank {
            return Ok((Some(Ast::EmptyLine), 1));
        }
        if nl0 {
            return Ok((None, 1));
        }
        Err(ParserFail::UnrecognizedConstruct)
    }

    /// Parses a whole token slice as a block, looping over the
    /// statement-starting productions until the slice is exhausted. The
    /// result is the block node and the count of tokens consumed.
    fn try_parse(tokens: &[SpacedToken]) -> (r: Result<(Ast, usize), ParserFail>)
        ensures
            match spec_parse_block(toks_view(tokens@)) {
                Ok(children) => r matches Ok(p) && p.0@ == AstV::Block(children) && p.1
                    <= tokens@.len(),
                Err(e) => r matches Err(e2) && e2 == e,
            },
        decreases tokens@.len(), 2int,
    {
        let ghost v = toks_view(tokens@);
        let n: usize = tokens.len();
        let mut trees: Vec<Ast> = Vec::new();
        let mut i: usize = 0;
        proof {
            assert(crate::ast::asts_view(trees@) =~= Seq::<AstV>::empty());
            assert(v.skip(0) =~= v);
        }
        loop
            invariant
                0 <= i <= n,
                n == tokens@.len(),
                v == toks_view(tokens@),
                spec_parse_block(v) == (match spec_parse_block(v.skip(i as int)) {
                    Err(e) => Err(e),
                    Ok(ts) => Ok(crate::ast::asts_view(trees@) + ts),
                }),
            decreases n - i,
        {
            let ghost rem = v.skip(i as int);
            proof {
                lemma_toks_view_subrange(tokens@, i as int, n as int);
            }
            match Self::try_parse_one(vstd::slice::slice_subrange(tokens, i, n)) {
                Err(e) => {
                    return Err(e);
                },
                Ok((opt, c)) => {
                    match opt {
                        None => {
                            if c == 0 {
                                proof {
                                    assert(spec_parse_block(rem) == Ok::<_, ParserFail>(
                                        spec_parse_block(rem).unwrap(),
                                    ));
                                    assert(crate::ast::asts_view(trees@) + spec_parse_block(
                                        rem,
                                    ).unwrap() =~= crate::ast::asts_view(trees@));
                                }
                                return Ok((Ast::Block(trees), i));
                            } else {
                                proof {
                                    assert(rem.skip(c as int) =~= v.skip(i as int + c as int));
                                }
                                i += c;
                            }
                        },
                        Some(a) => {
                            let ghost av = a@;
                            let ghost trees0 = trees@;
                            trees.push(a);
                            proof {
                                lemma_asts_view_push(trees0, trees@.last());
                                assert(rem.skip(c as int) =~= v.skip(i as int + c as int));
                                let nxt = spec_parse_block(v.skip(i as int + c as int));
                                if nxt is Ok {
                                    let ts2 = nxt.unwrap();
                                    assert(crate::ast::asts_view(trees0) + (seq![av] + ts2) =~= (
                                    crate::ast::asts_view(trees0) + seq![av]) + ts2);
                                    assert(crate::ast::asts_view(trees0) + seq![av]
                                        =~= crate::ast::asts_view(trees@));
                                }
                            }
                            i += c;
                        },
                    }
                },
            }
        }
    }

    /// Parses a whole token sequence into one `Block` tree.
    pub fn parse(self, tokens: &[SpacedToken]) -> (r: Result<Ast, ParserFail>)
        ensures
            match spec_parse(toks_view(tokens@)) {
                Ok(a) => r matches Ok(t) && t@ == a,
                Err(e) => r matches Err(e2) && e2 == e,
            },
    {
        match Self::try_parse(tokens) {
            Err(e) => Err(e),
            Ok((a, _)) => Ok(a),
        }
    }
}

} // verus!
