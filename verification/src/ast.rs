//! The tree model of a rule script: a tagged-variant tree whose shape
//! mirrors the language's block and clause structure. Each composite
//! node exclusively owns its children; the parser builds one tree per
//! file and the printer consumes it.

use vstd::prelude::*;

verus! {

/// A single statement line.
#[derive(Debug, Clone, PartialEq, Eq)]
pub enum Statement {
    /// `set <identifier> <rest-of-line>`.
    SetVar { identifier: Vec<u8>, value: Vec<u8> },
    /// `log <bucket> "<value>"`; the value keeps its quotes.
    Log { bucket: Vec<u8>, value: Vec<u8> },
    /// `snat <address> <port>`.
    Snat { ip_address: Vec<u8>, port: Vec<u8> },
    /// `node <address> <port>`.
    Node { ip_address: Vec<u8>, port: Vec<u8> },
    /// `pool <identifier>`.
    Pool { identifier: Vec<u8> },
    /// `snatpool <identifier>`.
    SnatPool { identifier: Vec<u8> },
    /// `return`, with or without a trailing value.
    Return { value: Option<Vec<u8>> },
    /// Any line the grammar does not model, preserved verbatim.
    Other { data: Vec<u8> },
}

/// The mathematical value of a statement.
pub enum StatementV {
    SetVar { identifier: Seq<u8>, value: Seq<u8> },
    Log { bucket: Seq<u8>, value: Seq<u8> },
    Snat { ip_address: Seq<u8>, port: Seq<u8> },
    Node { ip_address: Seq<u8>, port: Seq<u8> },
    Pool { identifier: Seq<u8> },
    SnatPool { identifier: Seq<u8> },
    Return { value: Option<Seq<u8>> },
    Other { data: Seq<u8> },
}

impl View for Statement {
    type V = StatementV;

    open spec fn view(&self) -> StatementV {
        match self {
            Statement::SetVar { identifier, value } => StatementV::SetVar {
                identifier: identifier@,
                value: value@,
            },
            Statement::Log { bucket, value } => StatementV::Log { bucket: bucket@, value: value@ },
            Statement::Snat { ip_address, port } => StatementV::Snat {
                ip_address: ip_address@,
                port: port@,
            },
            Statement::Node { ip_address, port } => StatementV::Node {
                ip_address: ip_address@,
                port: port@,
            },
            Statement::Pool { identifier } => StatementV::Pool { identifier: identifier@ },
            Statement::SnatPool { identifier } => StatementV::SnatPool { identifier: identifier@ },
            Statement::Return { value } => StatementV::Return {
                value: match value {
                    Some(v) => Some(v@),
                    None => None,
                },
            },
            Statement::Other { data } => StatementV::Other { data: data@ },
        }
    }
}

/// A node of the script tree.
#[derive(Debug)]
pub enum Ast {
    /// An ordered sequence of statements and clauses.
    Block(Vec<Ast>),
    /// The text after `#`, to the end of the line.
    Comment(Vec<u8>),
    /// `proc <name> { <parameters> } { <body> }`.
    Procedure { name: Vec<u8>, parameters: Vec<Vec<u8>>, body: Box<Ast> },
    /// A conditional chain: the ordered `(condition, body)` clauses —
    /// the first is the `if`, the rest are `elseif`s in source order —
    /// and an optional trailing else body. The clause list is never
    /// empty for a parsed script.
    If { condition_body_clauses: Vec<(Vec<u8>, Ast)>, maybe_block_if_false: Option<Box<Ast>> },
    /// `switch $<identifier> { ... }` with its arms in source order; an
    /// arm without a body is a fallthrough arm.
    Switch { condition: Vec<u8>, value_block_or_fallthrough_vec: Vec<(Vec<u8>, Option<Ast>)> },
    /// `when <event> { <body> }`.
    When { event_name: Vec<u8>, body: Box<Ast> },
    /// A single statement line.
    Statement(Statement),
    /// A blank source line.
    EmptyLine,
}

/// The mathematical value of a tree node.
pub enum AstV {
    Block(Seq<AstV>),
    Comment(Seq<u8>),
    Procedure { name: Seq<u8>, parameters: Seq<Seq<u8>>, body: Box<AstV> },
    If { condition_body_clauses: Seq<(Seq<u8>, AstV)>, maybe_block_if_false: Option<Box<AstV>> },
    Switch { condition: Seq<u8>, value_block_or_fallthrough_vec: Seq<(Seq<u8>, Option<AstV>)> },
    When { event_name: Seq<u8>, body: Box<AstV> },
    Statement(StatementV),
    EmptyLine,
}

/// The mathematical value of a tree.
pub open spec fn ast_view(a: Ast) -> AstV
    decreases a,
{
    match a {
        Ast::Block(trees) => AstV::Block(asts_view(trees@)),
        Ast::Comment(data) => AstV::Comment(data@),
        Ast::Procedure { name, parameters, body } => AstV::Procedure {
            name: name@,
            parameters: parameters@.map_values(|p: Vec<u8>| p@),
            body: Box::new(ast_view(*body)),
        },
        Ast::If { condition_body_clauses, maybe_block_if_false } => AstV::If {
            condition_body_clauses: clauses_view(condition_body_clauses@),
            maybe_block_if_false: match maybe_block_if_false {
                Some(b) => Some(Box::new(ast_view(*b))),
                None => None,
            },
        },
        Ast::Switch { condition, value_block_or_fallthrough_vec } => AstV::Switch {
            condition: condition@,
            value_block_or_fallthrough_vec: arms_view(value_block_or_fallthrough_vec@),
        },
        Ast::When { event_name, body } => AstV::When {
            event_name: event_name@,
            body: Box::new(ast_view(*body)),
        },
        Ast::Statement(s) => AstV::Statement(s@),
        Ast::EmptyLine => AstV::EmptyLine,
    }
}

/// The mathematical value of a sequence of trees.
pub open spec fn asts_view(s: Seq<Ast>) -> Seq<AstV>
    decreases s,
{
    if s.len() == 0 {
        Seq::empty()
    } else {
        asts_view(s.drop_last()).push(ast_view(s.last()))
    }
}

/// The mathematical value of a sequence of conditional clauses.
pub open spec fn clauses_view(s: Seq<(Vec<u8>, Ast)>) -> Seq<(Seq<u8>, AstV)>
    decreases s,
{
    if s.len() == 0 {
        Seq::empty()
    } else {
        clauses_view(s.drop_last()).push((s.last().0@, ast_view(s.last().1)))
    }
}

/// The mathematical value of a sequence of switch arms.
pub open spec fn arms_view(s: Seq<(Vec<u8>, Option<Ast>)>) -> Seq<(Seq<u8>, Option<AstV>)>
    decreases s,
{
    if s.len() == 0 {
        Seq::empty()
    } else {
        arms_view(s.drop_last()).push(
            (
                s.last().0@,
                match s.last().1 {
                    Some(a) => Some(ast_view(a)),
                    None => None,
                },
            ),
        )
    }
}

impl View for Ast {
    type V = AstV;

    open spec fn view(&self) -> AstV {
        ast_view(*self)
    }
}

/// A tree list and its mathematical value line up element by element.
pub proof fn lemma_asts_view_index(s: Seq<Ast>, i: int)
    ensures
        asts_view(s).len() == s.len(),
        0 <= i < s.len() ==> asts_view(s)[i] == ast_view(s[i]),
    decreases s,
{
    if s.len() > 0 {
        lemma_asts_view_index(s.drop_last(), i);
    }
}

/// A clause list and its mathematical value line up element by element.
pub proof fn lemma_clauses_view_index(s: Seq<(Vec<u8>, Ast)>, i: int)
    ensures
        clauses_view(s).len() == s.len(),
        0 <= i < s.len() ==> clauses_view(s)[i] == (s[i].0@, ast_view(s[i].1)),
    decreases s,
{
    if s.len() > 0 {
        lemma_clauses_view_index(s.drop_last(), i);
    }
}

/// An arm list and its mathematical value line up element by element.
pub proof fn lemma_arms_view_index(s: Seq<(Vec<u8>, Option<Ast>)>, i: int)
    ensures
        arms_view(s).len() == s.len(),
        0 <= i < s.len() ==> arms_view(s)[i] == (
            s[i].0@,
            match s[i].1 {
                Some(a) => Some(ast_view(a)),
                None => None,
            },
        ),
    decreases s,
{
    if s.len() > 0 {
        lemma_arms_view_index(s.drop_last(), i);
    }
}

} // verus!
