//! Canonical printer: walks the tree and re-emits text with four spaces
//! of indentation per nesting level, normalized brace placement, and
//! blank-line compaction. Rendering a well-formed tree cannot fail.

use vstd::prelude::*;

use crate::ast::Ast;
use crate::ast::AstV;
use crate::ast::Statement;
use crate::ast::StatementV;
use crate::ast::lemma_arms_view_index;
use crate::ast::lemma_asts_view_index;
use crate::ast::lemma_clauses_view_index;
use crate::lexer::TokenV;
use crate::lexer::token_text;

verus! {

/// The indentation of a line at nesting depth `depth`: four spaces per
/// level.
pub open spec fn indent_text(depth: nat) -> Seq<u8>
    decreases depth,
{
    if depth == 0 {
        Seq::empty()
    } else {
        indent_text((depth - 1) as nat) + seq![32u8, 32u8, 32u8, 32u8]
    }
}

/// The closing line of a block: its indentation and a lone brace.
pub open spec fn close_text(depth: nat) -> Seq<u8> {
    indent_text(depth) + seq![125u8, 10u8]
}

/// A space followed by each parameter of a procedure header, in order.
pub open spec fn params_text(ps: Seq<Seq<u8>>) -> Seq<u8>
    decreases ps.len(),
{
    if ps.len() == 0 {
        Seq::empty()
    } else {
        seq![32u8] + ps[0] + params_text(ps.skip(1))
    }
}

/// The text of one statement line, without indentation or newline: the
/// keyword and its zero, one or two arguments, single-space separated.
/// An opaque statement is its captured text alone.
pub open spec fn spec_statement_text(s: StatementV) -> Seq<u8> {
    match s {
        StatementV::SetVar { identifier, value } => token_text(TokenV::KeywordSet) + seq![32u8]
            + identifier + seq![32u8] + value,
        StatementV::Log { bucket, value } => token_text(TokenV::KeywordLog) + seq![32u8] + bucket
            + seq![32u8] + value,
        StatementV::Snat { ip_address, port } => token_text(TokenV::KeywordSnat) + seq![32u8]
            + ip_address + seq![32u8] + port,
        StatementV::Node { ip_address, port } => token_text(TokenV::KeywordNode) + seq![32u8]
            + ip_address + seq![32u8] + port,
        StatementV::Pool { identifier } => token_text(TokenV::KeywordPool) + seq![32u8]
            + identifier,
        StatementV::SnatPool { identifier } => token_text(TokenV::KeywordSnatPool) + seq![32u8]
            + identifier,
        StatementV::Return { value } => match value {
            Some(v) => token_text(TokenV::KeywordReturn) + seq![32u8] + v,
            None => token_text(TokenV::KeywordReturn),
        },
        StatementV::Other { data } => data,
    }
}

/// How much deeper than its own line the rendering of a node nests.
pub open spec fn ast_depth(a: AstV) -> nat
    decreases a,
{
    match a {
        AstV::Block(items) => list_depth(items),
        AstV::Comment(_) => 0,
        AstV::Procedure { body, .. } => 1 + ast_depth(*body),
        AstV::If { condition_body_clauses, maybe_block_if_false } => {
            let cd = clauses_depth(condition_body_clauses);
            match maybe_block_if_false {
                Some(b) => {
                    let ed = 1 + ast_depth(*b);
                    if cd >= ed {
                        cd
                    } else {
                        ed
                    }
                },
                None => cd,
            }
        },
        AstV::Switch { value_block_or_fallthrough_vec, .. } => 1 + arms_depth(
            value_block_or_fallthrough_vec,
        ),
        AstV::When { body, .. } => 1 + ast_depth(*body),
        AstV::Statement(_) => 0,
        AstV::EmptyLine => 0,
    }
}

/// The greatest nesting depth of any node of a list.
pub open spec fn list_depth(items: Seq<AstV>) -> nat
    decreases items,
{
    if items.len() == 0 {
        0
    } else {
        let h = ast_depth(items[0]);
        let t = list_depth(items.skip(1));
        if h >= t {
            h
        } else {
            t
        }
    }
}

/// The greatest nesting depth of any conditional clause body.
pub open spec fn clauses_depth(clauses: Seq<(Seq<u8>, AstV)>) -> nat
    decreases clauses,
{
    if clauses.len() == 0 {
        0
    } else {
        let h = 1 + ast_depth(clauses[0].1);
        let t = clauses_depth(clauses.skip(1));
        if h >= t {
            h
        } else {
            t
        }
    }
}

/// The greatest nesting depth of any switch arm body.
pub open spec fn arms_depth(arms: Seq<(Seq<u8>, Option<AstV>)>) -> nat
    decreases arms,
{
    if arms.len() == 0 {
        0
    } else {
        let h: nat = match arms[0].1 {
            Some(b) => 1 + ast_depth(b),
            None => 0,
        };
        let t = arms_depth(arms.skip(1));
        if h >= t {
            h
        } else {
            t
        }
    }
}

/// The consecutive-blank-line count after one more blank line, held at
/// three: every count past the compaction threshold behaves alike.
pub open spec fn bump_consec(consec: nat) -> nat {
    if consec + 1 > 3 {
        3
    } else {
        consec + 1
    }
}

/// The number of nodes of a tree, bodies and clauses included; the
/// printer's recursion descends along strictly smaller subtrees.
pub open spec fn ast_size(a: AstV) -> nat
    decreases a,
{
    match a {
        AstV::Block(items) => 1 + list_size(items),
        AstV::Comment(_) => 1,
        AstV::Procedure { body, .. } => 1 + ast_size(*body),
        AstV::If { condition_body_clauses, maybe_block_if_false } => 1 + clauses_size(
            condition_body_clauses,
        ) + (match maybe_block_if_false {
            Some(b) => ast_size(*b),
            None => 0,
        }),
        AstV::Switch { value_block_or_fallthrough_vec, .. } => 1 + arms_size(
            value_block_or_fallthrough_vec,
        ),
        AstV::When { body, .. } => 1 + ast_size(*body),
        AstV::Statement(_) => 1,
        AstV::EmptyLine => 1,
    }
}

/// The total size of the nodes of a list.
pub open spec fn list_size(items: Seq<AstV>) -> nat
    decreases items,
{
    if items.len() == 0 {
        0
    } else {
        ast_size(items[0]) + list_size(items.skip(1))
    }
}

/// The total size of the bodies of a clause list.
pub open spec fn clauses_size(clauses: Seq<(Seq<u8>, AstV)>) -> nat
    decreases clauses,
{
    if clauses.len() == 0 {
        0
    } else {
        ast_size(clauses[0].1) + clauses_size(clauses.skip(1))
    }
}

/// The total size of the bodies of an arm list.
pub open spec fn arms_size(arms: Seq<(Seq<u8>, Option<AstV>)>) -> nat
    decreases arms,
{
    if arms.len() == 0 {
        0
    } else {
        (match arms[0].1 {
            Some(b) => ast_size(b),
            None => 0,
        }) + arms_size(arms.skip(1))
    }
}

/// Every node of a list is no larger than the whole list.
proof fn lemma_list_size_at(items: Seq<AstV>, i: int)
    requires
        0 <= i < items.len(),
    ensures
        ast_size(items[i]) <= list_size(items),
    decreases items.len(),
{
    if i > 0 {
        lemma_list_size_at(items.skip(1), i - 1);
    }
}

/// Every clause body is no larger than the whole clause list.
proof fn lemma_clauses_size_at(clauses: Seq<(Seq<u8>, AstV)>, i: int)
    requires
        0 <= i < clauses.len(),
    ensures
        ast_size(clauses[i].1) <= clauses_size(clauses),
    decreases clauses.len(),
{
    if i > 0 {
        lemma_clauses_size_at(clauses.skip(1), i - 1);
    }
}

/// Every arm body is no larger than the whole arm list.
proof fn lemma_arms_size_at(arms: Seq<(Seq<u8>, Option<AstV>)>, i: int)
    requires
        0 <= i < arms.len(),
    ensures
        arms[i].1 matches Some(b) ==> ast_size(b) <= arms_size(arms),
    decreases arms.len(),
{
    if i > 0 {
        lemma_arms_size_at(arms.skip(1), i - 1);
    }
}

/// A run of `k` blank-line nodes.
pub open spec fn blank_nodes(k: nat) -> Seq<AstV>
    decreases k,
{
    if k == 0 {
        Seq::empty()
    } else {
        seq![AstV::EmptyLine] + blank_nodes((k - 1) as nat)
    }
}

/// `k` newline bytes.
pub open spec fn newlines(k: nat) -> Seq<u8>
    decreases k,
{
    if k == 0 {
        Seq::empty()
    } else {
        seq![10u8] + newlines((k - 1) as nat)
    }
}

/// The text a node renders to at nesting depth `depth`, together with
/// the consecutive-blank-line count after it. `consec` counts the blank
/// lines rendered just before this node; a run of blank lines is
/// written out only up to the second.
pub open spec fn spec_render(a: AstV, depth: nat, consec: nat) -> (Seq<u8>, nat)
    decreases a,
{
    match a {
        AstV::EmptyLine => {
            let c2 = bump_consec(consec);
            (
                if c2 <= 2 {
                    seq![10u8]
                } else {
                    Seq::empty()
                },
                c2,
            )
        },
        AstV::Block(items) => spec_render_list(items, depth, 0),
        AstV::Comment(data) => (indent_text(depth) + seq![35u8, 32u8] + data + seq![10u8], 0),
        AstV::Procedure { name, parameters, body } => {
            let br = spec_render(*body, depth + 1, 0);
            (
                indent_text(depth) + token_text(TokenV::KeywordProc) + seq![32u8] + name + seq![
                    32u8,
                    123u8,
                ] + params_text(parameters) + seq![32u8, 125u8, 32u8, 123u8, 10u8] + br.0
                    + close_text(depth),
                br.1,
            )
        },
        AstV::If { condition_body_clauses, maybe_block_if_false } => {
            let cr = spec_render_clauses(condition_body_clauses, depth, true, 0);
            match maybe_block_if_false {
                None => (cr.0 + close_text(depth), cr.1),
                Some(b) => {
                    let er = spec_render(*b, depth + 1, cr.1);
                    (
                        cr.0 + indent_text(depth) + seq![
                            125u8,
                            32u8,
                            101u8,
                            108u8,
                            115u8,
                            101u8,
                            32u8,
                            123u8,
                            10u8,
                        ] + er.0 + close_text(depth),
                        er.1,
                    )
                },
            }
        },
        AstV::Switch { condition, value_block_or_fallthrough_vec } => {
            let ar = spec_render_arms(value_block_or_fallthrough_vec, depth + 1, 0);
            (
                indent_text(depth) + token_text(TokenV::KeywordSwitch) + seq![32u8] + condition
                    + seq![32u8, 123u8, 10u8] + ar.0 + close_text(depth),
                ar.1,
            )
        },
        AstV::When { event_name, body } => {
            let br = spec_render(*body, depth + 1, 0);
            (
                indent_text(depth) + token_text(TokenV::KeywordWhen) + seq![32u8] + event_name
                    + seq![32u8, 123u8, 10u8] + br.0 + close_text(depth),
                br.1,
            )
        },
        AstV::Statement(s) => (indent_text(depth) + spec_statement_text(s) + seq![10u8], 0),
    }
}

/// The text of a node list, each node rendered in turn, threading the
/// consecutive-blank-line count through.
pub open spec fn spec_render_list(items: Seq<AstV>, depth: nat, consec: nat) -> (Seq<u8>, nat)
    decreases items,
{
    if items.len() == 0 {
        (Seq::empty(), consec)
    } else {
        let hr = spec_render(items[0], depth, consec);
        let tr = spec_render_list(items.skip(1), depth, hr.1);
        (hr.0 + tr.0, tr.1)
    }
}

/// The text of a conditional chain's clauses: the first opens with
/// `if`, each later one closes the previous body and opens with
/// `elseif` on the same line; each body nests one level deeper. The
/// chain's final closing brace is the conditional node's own.
pub open spec fn spec_render_clauses(
    clauses: Seq<(Seq<u8>, AstV)>,
    depth: nat,
    first: bool,
    consec: nat,
) -> (Seq<u8>, nat)
    decreases clauses,
{
    if clauses.len() == 0 {
        (Seq::empty(), consec)
    } else {
        let kw: Seq<u8> = if first {
            seq![105u8, 102u8, 32u8, 123u8, 32u8]
        } else {
            seq![125u8, 32u8, 101u8, 108u8, 115u8, 101u8, 105u8, 102u8, 32u8, 123u8, 32u8]
        };
        let br = spec_render(clauses[0].1, depth + 1, consec);
        let head = indent_text(depth) + kw + clauses[0].0 + seq![32u8, 125u8, 32u8, 123u8, 10u8]
            + br.0;
        let tr = spec_render_clauses(clauses.skip(1), depth, false, br.1);
        (head + tr.0, tr.1)
    }
}

/// The text of a switch's arms, in source order: a terminal arm renders
/// its value, a braced body one level deeper, and a closing brace; a
/// fallthrough arm renders its value and a trailing dash on one line.
pub open spec fn spec_render_arms(
    arms: Seq<(Seq<u8>, Option<AstV>)>,
    depth: nat,
    consec: nat,
) -> (Seq<u8>, nat)
    decreases arms,
{
    if arms.len() == 0 {
        (Seq::empty(), consec)
    } else {
        match arms[0].1 {
            Some(b) => {
                let br = spec_render(b, depth + 1, consec);
                let head = indent_text(depth) + arms[0].0 + seq![32u8, 123u8, 10u8] + br.0
                    + close_text(depth);
                let tr = spec_render_arms(arms.skip(1), depth, br.1);
                (head + tr.0, tr.1)
            },
            None => {
                let head = indent_text(depth) + arms[0].0 + seq![32u8, 45u8, 10u8];
                let tr = spec_render_arms(arms.skip(1), depth, consec);
                (head + tr.0, tr.1)
            },
        }
    }
}

/// Every node of a list nests no deeper than the list's bound.
proof fn lemma_list_depth_at(items: Seq<AstV>, i: int)
    requires
        0 <= i < items.len(),
    ensures
        ast_depth(items[i]) <= list_depth(items),
    decreases items.len(),
{
    if i > 0 {
        lemma_list_depth_at(items.skip(1), i - 1);
    }
}

/// Every clause body of a chain nests no deeper than the chain's bound.
proof fn lemma_clauses_depth_at(clauses: Seq<(Seq<u8>, AstV)>, i: int)
    requires
        0 <= i < clauses.len(),
    ensures
        1 + ast_depth(clauses[i].1) <= clauses_depth(clauses),
    decreases clauses.len(),
{
    if i > 0 {
        lemma_clauses_depth_at(clauses.skip(1), i - 1);
    }
}

/// Every arm body of a switch nests no deeper than the arms' bound.
proof fn lemma_arms_depth_at(arms: Seq<(Seq<u8>, Option<AstV>)>, i: int)
    requires
        0 <= i < arms.len(),
    ensures
        arms[i].1 matches Some(b) ==> 1 + ast_depth(b) <= arms_depth(arms),
    decreases arms.len(),
{
    if i > 0 {
        lemma_arms_depth_at(arms.skip(1), i - 1);
    }
}

proof fn lemma_blanks_suppressed(k: nat, depth: nat, consec: nat)
    requires
        consec >= 2,
    ensures
        spec_render_list(blank_nodes(k), depth, consec).0 == Seq::<u8>::empty(),
        spec_render_list(blank_nodes(k), depth, consec).1 >= 2,
    decreases k,
{
    if k > 0 {
        let items = blank_nodes(k);
        assert(items[0] == AstV::EmptyLine);
        assert(items.skip(1) =~= blank_nodes((k - 1) as nat));
        let c2 = bump_consec(consec);
        assert(c2 == 3);
        let hr = spec_render(items[0], depth, consec);
        assert(hr.0 == Seq::<u8>::empty());
        assert(hr.1 == 3);
        lemma_blanks_suppressed((k - 1) as nat, depth, 3);
        let tr = spec_render_list(items.skip(1), depth, 3);
        assert(tr.0 == Seq::<u8>::empty());
        assert(spec_render_list(items, depth, consec).0 == hr.0 + tr.0);
        assert(hr.0 + tr.0 =~= Seq::<u8>::empty());
    } else {
        assert(blank_nodes(0) == Seq::<AstV>::empty());
    }
}

/// Blank-line compaction: a run of `k` blank-line nodes that begins a
/// fresh run renders exactly `k` blank output lines while `k` is at
/// most two, and exactly two blank lines for any longer run.
pub proof fn lemma_blank_line_compaction(k: nat, depth: nat)
    ensures
        spec_render_list(blank_nodes(k), depth, 0).0 == newlines(
            if k >= 2 {
                2
            } else {
                k
            },
        ),
{
    if k == 0 {
    } else {
        let items = blank_nodes(k);
        assert(items[0] == AstV::EmptyLine);
        assert(items.skip(1) =~= blank_nodes((k - 1) as nat));
        let hr = spec_render(items[0], depth, 0);
        assert(hr.0 == seq![10u8]);
        assert(hr.1 == 1);
        if k == 1 {
            assert(blank_nodes(0) == Seq::<AstV>::empty());
            let tr = spec_render_list(items.skip(1), depth, 1);
            assert(tr.0 == Seq::<u8>::empty());
            assert(newlines(1) == seq![10u8] + newlines(0));
            assert(newlines(0) == Seq::<u8>::empty());
            assert(hr.0 + tr.0 =~= newlines(1));
        } else {
            let items2 = blank_nodes((k - 1) as nat);
            assert(items2[0] == AstV::EmptyLine);
            assert(items2.skip(1) =~= blank_nodes((k - 2) as nat));
            let hr2 = spec_render(items2[0], depth, 1);
            assert(hr2.0 == seq![10u8]);
            assert(hr2.1 == 2);
            lemma_blanks_suppressed((k - 2) as nat, depth, 2);
            let tr2 = spec_render_list(items2.skip(1), depth, 2);
            assert(tr2.0 == Seq::<u8>::empty());
            assert(spec_render_list(items2, depth, 1).0 == hr2.0 + tr2.0);
            assert(spec_render_list(items, depth, 0).0 == hr.0 + (hr2.0 + tr2.0));
            assert(newlines(2) == seq![10u8] + newlines(1));
            assert(newlines(1) == seq![10u8] + newlines(0));
            assert(newlines(0) == Seq::<u8>::empty());
            assert(hr.0 + (hr2.0 + tr2.0) =~= newlines(2));
        }
    }
}

/// The mathematical value of the printer's state: its nesting depth,
/// its count of blank lines just rendered, and the text written so far.
pub struct FormatterV {
    pub depth: nat,
    pub consec: nat,
    pub text: Seq<u8>,
}

/// The canonical printer. It holds the nesting depth, the running count
/// of consecutive blank lines, and the output buffer.
pub struct Formatter {
    depth: usize,
    consecutive_empty_lines: usize,
    buf: Vec<u8>,
}

impl View for Formatter {
    type V = FormatterV;

    closed spec fn view(&self) -> FormatterV {
        FormatterV {
            depth: self.depth as nat,
            consec: self.consecutive_empty_lines as nat,
            text: self.buf@,
        }
    }
}

impl Formatter {
    /// A printer at depth zero with an empty buffer.
    pub fn new() -> (r: Self)
        ensures
            r@.depth == 0,
            r@.consec == 0,
            r@.text == Seq::<u8>::empty(),
    {
        Self { depth: 0, consecutive_empty_lines: 0, buf: Vec::new() }
    }

    /// Renders a whole tree after whatever the printer already wrote.
    pub fn format(self, ast: Ast) -> (r: Vec<u8>)
        requires
            self@.depth + ast_depth(ast@) <= usize::MAX,
        ensures
            r@ == self@.text + spec_render(ast@, self@.depth, self@.consec).0,
    {
        let mut me = self;
        me.run(&ast);
        me.buf
    }

    /// Appends raw bytes to the output.
    fn write(&mut self, slice: &[u8])
        ensures
            final(self)@.text == old(self)@.text + slice@,
            final(self)@.depth == old(self)@.depth,
            final(self)@.consec == old(self)@.consec,
    {
        let mut v: Vec<u8> = vstd::slice::slice_to_vec(slice);
        self.buf.append(&mut v);
    }

    /// Appends raw bytes and ends the line.
    fn writeline(&mut self, slice: &[u8])
        ensures
            final(self)@.text == old(self)@.text + slice@ + seq![10u8],
            final(self)@.depth == old(self)@.depth,
            final(self)@.consec == old(self)@.consec,
    {
        self.write(slice);
        self.newline();
    }

    /// Ends the current output line.
    fn newline(&mut self)
        ensures
            final(self)@.text == old(self)@.text + seq![10u8],
            final(self)@.depth == old(self)@.depth,
            final(self)@.consec == old(self)@.consec,
    {
        self.buf.push(10);
        proof {
            assert(self.buf@ =~= old(self)@.text + seq![10u8]);
        }
    }

    /// Writes the closing line of a block: indentation and a lone
    /// brace.
    fn close_block(&mut self)
        ensures
            final(self)@.text == old(self)@.text + close_text(old(self)@.depth),
            final(self)@.depth == old(self)@.depth,
            final(self)@.consec == old(self)@.consec,
    {
        self.indent();
        let b: Vec<u8> = vec![125u8, 10u8];
        self.write(b.as_slice());
        proof {
            assert(old(self)@.text + indent_text(old(self)@.depth) + b@ =~= old(self)@.text
                + close_text(old(self)@.depth));
        }
    }

    /// Writes four spaces for each nesting level.
    fn indent(&mut self)
        ensures
            final(self)@.text == old(self)@.text + indent_text(old(self)@.depth),
            final(self)@.depth == old(self)@.depth,
            final(self)@.consec == old(self)@.consec,
    {
        let n: usize = self.depth;
        let mut j: usize = 0;
        proof {
            assert(old(self)@.text + indent_text(0) =~= old(self)@.text);
        }
        while j < n
            invariant
                0 <= j <= n,
                self@.depth == old(self)@.depth,
                n == old(self)@.depth,
                self@.consec == old(self)@.consec,
                self@.text == old(self)@.text + indent_text(j as nat),
            decreases n - j,
        {
            let ghost t0 = self@.text;
            let sp: Vec<u8> = vec![32u8, 32u8, 32u8, 32u8];
            self.write(sp.as_slice());
            proof {
                assert(t0 + sp@ =~= old(self)@.text + indent_text(j as nat + 1));
            }
            j += 1;
        }
    }

    /// Writes one statement line: keyword, arguments, newline.
    fn write_statement(&mut self, s: &Statement)
        ensures
            final(self)@.text == old(self)@.text + spec_statement_text(s@) + seq![10u8],
            final(self)@.depth == old(self)@.depth,
            final(self)@.consec == old(self)@.consec,
    {
        let ghost t0 = self@.text;
        match s {
            Statement::SetVar { identifier, value } => {
                let kw: Vec<u8> = vec![115u8, 101u8, 116u8, 32u8];
                self.write(kw.as_slice());
                self.write(identifier.as_slice());
                let sp: Vec<u8> = vec![32u8];
                self.write(sp.as_slice());
                self.write(value.as_slice());
                self.newline();
                proof {
                    assert(final(self)@.text =~= t0 + spec_statement_text(s@) + seq![10u8]);
                }
            },
            Statement::Log { bucket, value } => {
                let kw: Vec<u8> = vec![108u8, 111u8, 103u8, 32u8];
                self.write(kw.as_slice());
                self.write(bucket.as_slice());
                let sp: Vec<u8> = vec![32u8];
                self.write(sp.as_slice());
                self.write(value.as_slice());
                self.newline();
                proof {
                    assert(final(self)@.text =~= t0 + spec_statement_text(s@) + seq![10u8]);
                }
            },
            Statement::Snat { ip_address, port } => {
                let kw: Vec<u8> = vec![115u8, 110u8, 97u8, 116u8, 32u8];
                self.write(kw.as_slice());
                self.write(ip_address.as_slice());
                let sp: Vec<u8> = vec![32u8];
                self.write(sp.as_slice());
                self.write(port.as_slice());
                self.newline();
                proof {
                    assert(final(self)@.text =~= t0 + spec_statement_text(s@) + seq![10u8]);
                }
            },
            Statement::Node { ip_address, port } => {
                let kw: Vec<u8> = vec![110u8, 111u8, 100u8, 101u8, 32u8];
                self.write(kw.as_slice());
                self.write(ip_address.as_slice());
                let sp: Vec<u8> = vec![32u8];
                self.write(sp.as_slice());
                self.write(port.as_slice());
                self.newline();
                proof {
                    assert(final(self)@.text =~= t0 + spec_statement_text(s@) + seq![10u8]);
                }
            },
            Statement::Pool { identifier } => {
                let kw: Vec<u8> = vec![112u8, 111u8, 111u8, 108u8, 32u8];
                self.write(kw.as_slice());
                self.write(identifier.as_slice());
                self.newline();
                proof {
                    assert(final(self)@.text =~= t0 + spec_statement_text(s@) + seq![10u8]);
                }
            },
            Statement::SnatPool { identifier } => {
                let kw: Vec<u8> = vec![115u8, 110u8, 97u8, 116u8, 112u8, 111u8, 111u8, 108u8, 32u8];
                self.write(kw.as_slice());
                self.write(identifier.as_slice());
                self.newline();
                proof {
                    assert(final(self)@.text =~= t0 + spec_statement_text(s@) + seq![10u8]);
                }
            },
            Statement::Return { value } => {
                let kw: Vec<u8> = vec![114u8, 101u8, 116u8, 117u8, 114u8, 110u8];
                self.write(kw.as_slice());
                match value {
                    Some(v) => {
                        let sp: Vec<u8> = vec![32u8];
                        self.write(sp.as_slice());
                        self.write(v.as_slice());
                    },
                    None => {},
                }
                self.newline();
                proof {
                    assert(final(self)@.text =~= t0 + spec_statement_text(s@) + seq![10u8]);
                }
            },
            Statement::Other { data } => {
                self.write(data.as_slice());
                self.newline();
                proof {
                    assert(final(self)@.text =~= t0 + spec_statement_text(s@) + seq![10u8]);
                }
            },
        }
    }
}

impl Formatter {
    /// Renders one node at the current depth, tracking the run of blank
    /// lines: a blank line is written only while the running count is
    /// at most two, so longer runs compact to two.
    #[verifier::rlimit(100)]
    fn run(&mut self, ast: &Ast)
        requires
            old(self)@.depth + ast_depth(ast@) <= usize::MAX,
        ensures
            final(self)@.text == old(self)@.text + spec_render(
                ast@,
                old(self)@.depth,
                old(self)@.consec,
            ).0,
            final(self)@.consec == spec_render(ast@, old(self)@.depth, old(self)@.consec).1,
            final(self)@.depth == old(self)@.depth,
        decreases ast_size(ast@), 0int,
    {
        let ghost d = old(self)@.depth;
        let ghost c0 = old(self)@.consec;
        let ghost t0 = old(self)@.text;
        let is_blank = match ast {
            Ast::EmptyLine => true,
            _ => false,
        };
        if is_blank {
            let ce: usize = self.consecutive_empty_lines;
            let c2: usize = if ce <= 2 {
                ce + 1
            } else {
                3
            };
            self.consecutive_empty_lines = c2;
            if c2 <= 2 {
                self.newline();
            } else {
                proof {
                    assert(t0 + Seq::<u8>::empty() =~= t0);
                }
            }
            return ;
        }
        self.consecutive_empty_lines = 0;
        match ast {
            Ast::Block(trees) => {
                let ghost av = crate::ast::asts_view(trees@);
                let ghost full = spec_render_list(av, d, 0);
                let n: usize = trees.len();
                let mut i: usize = 0;
                let ghost mut done: Seq<u8> = Seq::empty();
                proof {
                    lemma_asts_view_index(trees@, 0);
                    assert(av.skip(0) =~= av);
                    assert(t0 + done =~= t0);
                }
                while i < n
                    invariant
                        0 <= i <= n,
                        n == trees@.len(),
                        av == crate::ast::asts_view(trees@),
                        av.len() == n,
                        ast_size(ast@) >= 1 + list_size(av),
                        self@.depth == d,
                        d + list_depth(av) <= usize::MAX,
                        self@.text == t0 + done,
                        full == spec_render_list(av, d, 0),
                        full.0 == done + spec_render_list(av.skip(i as int), d, self@.consec).0,
                        full.1 == spec_render_list(av.skip(i as int), d, self@.consec).1,
                    decreases n - i,
                {
                    let ghost c_in = self@.consec;
                    proof {
                        lemma_asts_view_index(trees@, i as int);
                        lemma_list_depth_at(av, i as int);
                        assert(av.skip(i as int)[0] == av[i as int]);
                    }
                    proof {
                        lemma_list_size_at(av, i as int);
                    }
                    self.run(&trees[i]);
                    proof {
                        let rem = av.skip(i as int);
                        let hr = spec_render(av[i as int], d, c_in);
                        assert(rem.skip(1) =~= av.skip(i as int + 1));
                        assert((t0 + done) + hr.0 =~= t0 + (done + hr.0));
                        assert(done + (hr.0 + spec_render_list(
                            av.skip(i as int + 1),
                            d,
                            self@.consec,
                        ).0) =~= (done + hr.0) + spec_render_list(
                            av.skip(i as int + 1),
                            d,
                            self@.consec,
                        ).0);
                        done = done + hr.0;
                    }
                    i += 1;
                }
                proof {
                    assert(av.skip(n as int) =~= Seq::<AstV>::empty());
                    assert(done + Seq::<u8>::empty() =~= done);
                }
            },
            Ast::Comment(data) => {
                self.indent();
                let kw: Vec<u8> = vec![35u8, 32u8];
                self.write(kw.as_slice());
                self.write(data.as_slice());
                self.newline();
                proof {
                    assert(final(self)@.text =~= t0 + spec_render(ast@, d, c0).0);
                }
            },
            Ast::Procedure { name, parameters, body } => {
                self.indent();
                let kw: Vec<u8> = vec![112u8, 114u8, 111u8, 99u8, 32u8];
                self.write(kw.as_slice());
                self.write(name.as_slice());
                let ob: Vec<u8> = vec![32u8, 123u8];
                self.write(ob.as_slice());
                let ghost pv = parameters@.map_values(|p: Vec<u8>| p@);
                let ghost tp = self@.text;
                let np: usize = parameters.len();
                let mut k: usize = 0;
                let ghost mut done: Seq<u8> = Seq::empty();
                proof {
                    assert(pv.skip(0) =~= pv);
                    assert(tp + done =~= tp);
                }
                while k < np
                    invariant
                        0 <= k <= np,
                        np == parameters@.len(),
                        pv == parameters@.map_values(|p: Vec<u8>| p@),
                        self@.depth == d,
                        self@.consec == 0,
                        self@.text == tp + done,
                        params_text(pv) == done + params_text(pv.skip(k as int)),
                    decreases np - k,
                {
                    let ghost d0 = done;
                    let sp: Vec<u8> = vec![32u8];
                    self.write(sp.as_slice());
                    self.write(parameters[k].as_slice());
                    proof {
                        let rem = pv.skip(k as int);
                        assert(rem.skip(1) =~= pv.skip(k as int + 1));
                        assert(rem[0] == pv[k as int]);
                        assert((tp + d0) + seq![32u8] + pv[k as int] =~= tp + (d0 + (seq![32u8]
                            + pv[k as int])));
                        assert(d0 + (seq![32u8] + pv[k as int] + params_text(
                            pv.skip(k as int + 1),
                        )) =~= (d0 + (seq![32u8] + pv[k as int])) + params_text(
                            pv.skip(k as int + 1),
                        ));
                        done = d0 + (seq![32u8] + pv[k as int]);
                    }
                    k += 1;
                }
                let cb: Vec<u8> = vec![32u8, 125u8, 32u8, 123u8];
                self.writeline(cb.as_slice());
                self.run_nested(body);
                self.close_block();
                proof {
                    assert(params_text(pv.skip(np as int)) =~= Seq::<u8>::empty());
                    assert(done + Seq::<u8>::empty() =~= done);
                    assert(final(self)@.text =~= t0 + spec_render(ast@, d, c0).0);
                }
            },
            Ast::If { condition_body_clauses: clauses, maybe_block_if_false } => {
                let ghost cv = crate::ast::clauses_view(clauses@);
                let ghost full = spec_render_clauses(cv, d, true, 0);
                let n: usize = clauses.len();
                let mut j: usize = 0;
                let ghost mut done: Seq<u8> = Seq::empty();
                proof {
                    lemma_clauses_view_index(clauses@, 0);
                    assert(cv.skip(0) =~= cv);
                    assert(t0 + done =~= t0);
                }
                while j < n
                    invariant
                        0 <= j <= n,
                        n == clauses@.len(),
                        cv == crate::ast::clauses_view(clauses@),
                        cv.len() == n,
                        ast_size(ast@) >= 1 + clauses_size(cv),
                        self@.depth == d,
                        d + clauses_depth(cv) <= usize::MAX,
                        self@.text == t0 + done,
                        full == spec_render_clauses(cv, d, true, 0),
                        full.0 == done + spec_render_clauses(
                            cv.skip(j as int),
                            d,
                            j == 0,
                            self@.consec,
                        ).0,
                        full.1 == spec_render_clauses(cv.skip(j as int), d, j == 0, self@.consec).1,
                    decreases n - j,
                {
                    let ghost c_in = self@.consec;
                    let ghost td = self@.text;
                    proof {
                        lemma_clauses_view_index(clauses@, j as int);
                        lemma_clauses_depth_at(cv, j as int);
                        assert(cv.skip(j as int)[0] == cv[j as int]);
                    }
                    self.indent();
                    if j == 0 {
                        let kw: Vec<u8> = vec![105u8, 102u8, 32u8, 123u8, 32u8];
                        self.write(kw.as_slice());
                    } else {
                        let kw: Vec<u8> = vec![
                            125u8,
                            32u8,
                            101u8,
                            108u8,
                            115u8,
                            101u8,
                            105u8,
                            102u8,
                            32u8,
                            123u8,
                            32u8,
                        ];
                        self.write(kw.as_slice());
                    }
                    self.write(clauses[j].0.as_slice());
                    let ob: Vec<u8> = vec![32u8, 125u8, 32u8, 123u8];
                    self.writeline(ob.as_slice());
                    proof {
                        lemma_clauses_size_at(cv, j as int);
                    }
                    self.run_nested(&clauses[j].1);
                    proof {
                        let rem = cv.skip(j as int);
                        let kws: Seq<u8> = if j == 0 {
                            seq![105u8, 102u8, 32u8, 123u8, 32u8]
                        } else {
                            seq![
                                125u8,
                                32u8,
                                101u8,
                                108u8,
                                115u8,
                                101u8,
                                105u8,
                                102u8,
                                32u8,
                                123u8,
                                32u8,
                            ]
                        };
                        let br = spec_render(cv[j as int].1, d + 1, c_in);
                        let head = indent_text(d) + kws + cv[j as int].0 + seq![
                            32u8,
                            125u8,
                            32u8,
                            123u8,
                            10u8,
                        ] + br.0;
                        assert(rem.skip(1) =~= cv.skip(j as int + 1));
                        assert(self@.text =~= td + head);
                        assert((t0 + done) + head =~= t0 + (done + head));
                        assert(done + (head + spec_render_clauses(
                            cv.skip(j as int + 1),
                            d,
                            false,
                            self@.consec,
                        ).0) =~= (done + head) + spec_render_clauses(
                            cv.skip(j as int + 1),
                            d,
                            false,
                            self@.consec,
                        ).0);
                        done = done + head;
                    }
                    j += 1;
                }
                proof {
                    assert(cv.skip(n as int) =~= Seq::<(Seq<u8>, AstV)>::empty());
                    assert(done + Seq::<u8>::empty() =~= done);
                }
                match maybe_block_if_false {
                    Some(b) => {
                        let ghost ce = self@.consec;
                        self.indent();
                        let kw: Vec<u8> = vec![125u8, 32u8, 101u8, 108u8, 115u8, 101u8, 32u8, 123u8];
                        self.writeline(kw.as_slice());
                        self.run_nested(b);
                        self.close_block();
                        proof {
                            assert(final(self)@.text =~= t0 + spec_render(ast@, d, c0).0);
                        }
                    },
                    None => {
                        self.close_block();
                        proof {
                            assert(final(self)@.text =~= t0 + spec_render(ast@, d, c0).0);
                        }
                    },
                }
            },
            Ast::Switch { condition, value_block_or_fallthrough_vec: arms } => {
                self.indent();
                let kw: Vec<u8> = vec![115u8, 119u8, 105u8, 116u8, 99u8, 104u8, 32u8];
                self.write(kw.as_slice());
                self.write(condition.as_slice());
                let ob: Vec<u8> = vec![32u8, 123u8];
                self.writeline(ob.as_slice());
                self.depth = self.depth + 1;
                let ghost av = crate::ast::arms_view(arms@);
                let ghost full = spec_render_arms(av, d + 1, 0);
                let ghost ta = self@.text;
                let n: usize = arms.len();
                let mut i: usize = 0;
                let ghost mut done: Seq<u8> = Seq::empty();
                proof {
                    lemma_arms_view_index(arms@, 0);
                    assert(av.skip(0) =~= av);
                    assert(ta + done =~= ta);
                }
                while i < n
                    invariant
                        0 <= i <= n,
                        n == arms@.len(),
                        av == crate::ast::arms_view(arms@),
                        av.len() == n,
                        ast_size(ast@) >= 1 + arms_size(av),
                        self@.depth == d + 1,
                        d + 1 + arms_depth(av) <= usize::MAX,
                        self@.text == ta + done,
                        full == spec_render_arms(av, d + 1, 0),
                        full.0 == done + spec_render_arms(av.skip(i as int), d + 1, self@.consec).0,
                        full.1 == spec_render_arms(av.skip(i as int), d + 1, self@.consec).1,
                    decreases n - i,
                {
                    let ghost c_in = self@.consec;
                    let ghost td = self@.text;
                    proof {
                        lemma_arms_view_index(arms@, i as int);
                        lemma_arms_depth_at(av, i as int);
                        assert(av.skip(i as int)[0] == av[i as int]);
                    }
                    self.indent();
                    self.write(arms[i].0.as_slice());
                    match &arms[i].1 {
                        Some(block) => {
                            let ob2: Vec<u8> = vec![32u8, 123u8];
                            self.writeline(ob2.as_slice());
                            proof {
                                lemma_arms_size_at(av, i as int);
                            }
                            self.run_nested(block);
                            self.close_block();
                            proof {
                                let br = spec_render(av[i as int].1.unwrap(), d + 2, c_in);
                                let head = indent_text(d + 1) + av[i as int].0 + seq![
                                    32u8,
                                    123u8,
                                    10u8,
                                ] + br.0 + close_text(d + 1);
                                assert(av.skip(i as int).skip(1) =~= av.skip(i as int + 1));
                                assert(self@.text =~= td + head);
                                assert((ta + done) + head =~= ta + (done + head));
                                assert(done + (head + spec_render_arms(
                                    av.skip(i as int + 1),
                                    d + 1,
                                    self@.consec,
                                ).0) =~= (done + head) + spec_render_arms(
                                    av.skip(i as int + 1),
                                    d + 1,
                                    self@.consec,
                                ).0);
                                done = done + head;
                            }
                        },
                        None => {
                            let dash: Vec<u8> = vec![32u8, 45u8];
                            self.writeline(dash.as_slice());
                            proof {
                                let head = indent_text(d + 1) + av[i as int].0 + seq![
                                    32u8,
                                    45u8,
                                    10u8,
                                ];
                                assert(av.skip(i as int).skip(1) =~= av.skip(i as int + 1));
                                assert(self@.text =~= td + head);
                                assert((ta + done) + head =~= ta + (done + head));
                                assert(done + (head + spec_render_arms(
                                    av.skip(i as int + 1),
                                    d + 1,
                                    self@.consec,
                                ).0) =~= (done + head) + spec_render_arms(
                                    av.skip(i as int + 1),
                                    d + 1,
                                    self@.consec,
                                ).0);
                                done = done + head;
                            }
                        },
                    }
                    i += 1;
                }
                proof {
                    assert(av.skip(n as int) =~= Seq::<(Seq<u8>, Option<AstV>)>::empty());
                    assert(done + Seq::<u8>::empty() =~= done);
                }
                self.depth = self.depth - 1;
                self.close_block();
                proof {
                    assert(final(self)@.text =~= t0 + spec_render(ast@, d, c0).0);
                }
            },
            Ast::When { event_name, body } => {
                self.indent();
                let kw: Vec<u8> = vec![119u8, 104u8, 101u8, 110u8, 32u8];
                self.write(kw.as_slice());
                self.write(event_name.as_slice());
                let ob: Vec<u8> = vec![32u8, 123u8];
                self.writeline(ob.as_slice());
                self.run_nested(body);
                self.close_block();
                proof {
                    assert(final(self)@.text =~= t0 + spec_render(ast@, d, c0).0);
                }
            },
            Ast::Statement(s) => {
                self.indent();
                self.write_statement(s);
                proof {
                    assert(final(self)@.text =~= t0 + spec_render(ast@, d, c0).0);
                }
            },
            Ast::EmptyLine => {
                proof {
                    assert(false);
                }
            },
        }
    }

    /// Renders one node one level deeper than the current depth.
    fn run_nested(&mut self, ast: &Ast)
        requires
            old(self)@.depth + 1 + ast_depth(ast@) <= usize::MAX,
        ensures
            final(self)@.text == old(self)@.text + spec_render(
                ast@,
                old(self)@.depth + 1,
                old(self)@.consec,
            ).0,
            final(self)@.consec == spec_render(ast@, old(self)@.depth + 1, old(self)@.consec).1,
            final(self)@.depth == old(self)@.depth,
        decreases ast_size(ast@), 1int,
    {
        self.depth = self.depth + 1;
        self.run(ast);
        self.depth = self.depth - 1;
    }
}

} // verus!
