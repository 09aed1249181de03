//! The parser: a recursive descent over the token stream, producing the
//! program's statement nodes. The grammar is stated as specification
//! functions over the abstract token sequence, and the executable
//! parser is proved to return exactly what they denote.
//!
//! The grammar: a program is a non-empty sequence of top-level
//! statements. A statement is an assignment `name = expr ;`, a
//! `print expr ;`, a comment, a braced block of statements, a
//! `proc name block`, a `call name ;`, or an `if ( expr ) block` with
//! an optional `else block`. An expression is a literal — number,
//! string or identifier — alone or followed by one of
//! `+ - * / == != > <` and a further expression (so chains associate to
//! the right and carry no precedence), or a parenthesized expression,
//! which cannot stand on the left of an operator.

use vstd::prelude::*;
use crate::ast::Node;
use crate::ast::NodeAbs;
use crate::ast::expr_form;
use crate::ast::lemma_nodes_abs;
use crate::ast::lemma_stmts_form;
use crate::ast::node_abs;
use crate::ast::nodes_abs;
use crate::ast::stmt_form;
use crate::ast::stmts_form;
use crate::lexer::LexOut;
use crate::lexer::ParseError;
use crate::lexer::Tok;
use crate::lexer::TokAbs;
use crate::lexer::TokenMatcher;
use crate::lexer::lemma_pairs_abs;
use crate::lexer::lex_from;
use crate::lexer::pairs_abs;
use crate::text::chars_of;

verus! {

/// The token matcher for this language's fixed token definitions.
pub fn new_builder() -> TokenMatcher {
    TokenMatcher {  }
}

/// What parsing one form yields: the node and the index one past its
/// last token, or the first error met.
pub enum PRes {
    Got(NodeAbs, int),
    Bad(ParseError),
}

/// What parsing a run of statements yields: the nodes and the index one
/// past them, or the first error met.
pub enum ItemsRes {
    Items(Seq<NodeAbs>, int),
    Bad(ParseError),
}

/// The error for the token at `i`: its position, or the input's end.
pub open spec fn err_abs(ts: Seq<(TokAbs, int)>, i: int) -> ParseError {
    if 0 <= i < ts.len() {
        ParseError::UnrecognizedToken { at: ts[i].1 as usize }
    } else {
        ParseError::UnrecognizedEof
    }
}

/// Whether a token is one of the eight binary operators.
pub open spec fn is_op(t: TokAbs) -> bool {
    ||| t is Plus
    ||| t is Minus
    ||| t is Star
    ||| t is Slash
    ||| t is EqEq
    ||| t is NotEq
    ||| t is Gt
    ||| t is Lt
}

/// The literal node a literal token denotes.
pub open spec fn lit_node(t: TokAbs) -> NodeAbs {
    match t {
        TokAbs::Num(tx) => NodeAbs::Num(tx),
        TokAbs::StrLit(tx) => NodeAbs::Str(tx),
        TokAbs::Ident(tx) => NodeAbs::Identifier(tx),
        _ => NodeAbs::Num(Seq::empty()),
    }
}

/// The binary node an operator token builds from two sides.
pub open spec fn op_node(t: TokAbs, l: NodeAbs, r: NodeAbs) -> NodeAbs {
    match t {
        TokAbs::Plus => NodeAbs::Add(Box::new(l), Box::new(r)),
        TokAbs::Minus => NodeAbs::Sub(Box::new(l), Box::new(r)),
        TokAbs::Star => NodeAbs::Mul(Box::new(l), Box::new(r)),
        TokAbs::Slash => NodeAbs::Div(Box::new(l), Box::new(r)),
        TokAbs::EqEq => NodeAbs::Eq(Box::new(l), Box::new(r)),
        TokAbs::NotEq => NodeAbs::NotEq(Box::new(l), Box::new(r)),
        TokAbs::Gt => NodeAbs::Gt(Box::new(l), Box::new(r)),
        _ => NodeAbs::Lt(Box::new(l), Box::new(r)),
    }
}

/// The text an identifier token carries.
pub open spec fn ident_text(t: TokAbs) -> Seq<char> {
    match t {
        TokAbs::Ident(tx) => tx,
        _ => Seq::empty(),
    }
}

/// One expression from token `i`: a parenthesized expression, or a
/// literal possibly followed by an operator and a further expression.
pub open spec fn p_expr(ts: Seq<(TokAbs, int)>, i: int) -> PRes
    decreases ts.len() - i, 0int,
{
    if i < 0 || i >= ts.len() {
        PRes::Bad(ParseError::UnrecognizedEof)
    } else if ts[i].0 is LParen {
        match p_expr(ts, i + 1) {
            PRes::Bad(e) => PRes::Bad(e),
            PRes::Got(inner, j) => if 0 <= j < ts.len() && ts[j].0 is RParen {
                PRes::Got(inner, j + 1)
            } else {
                PRes::Bad(err_abs(ts, j))
            },
        }
    } else if !(ts[i].0 is Num) && !(ts[i].0 is StrLit) && !(ts[i].0 is Ident) {
        PRes::Bad(err_abs(ts, i))
    } else {
        let lit = lit_node(ts[i].0);
        if i + 1 >= ts.len() {
            PRes::Got(lit, i + 1)
        } else if !is_op(ts[i + 1].0) {
            PRes::Got(lit, i + 1)
        } else {
            match p_expr(ts, i + 2) {
                PRes::Bad(e) => PRes::Bad(e),
                PRes::Got(rhs, j) => PRes::Got(op_node(ts[i + 1].0, lit, rhs), j),
            }
        }
    }
}

/// The statements of a braced block from token `j` up to the closing
/// brace. The progress guard can never be met — a statement always
/// consumes at least one token — and only keeps the definition well
/// founded.
pub open spec fn p_items(ts: Seq<(TokAbs, int)>, j: int) -> ItemsRes
    decreases ts.len() - j, 3int,
{
    if j < 0 || j >= ts.len() {
        ItemsRes::Bad(ParseError::UnrecognizedEof)
    } else if ts[j].0 is RBrace {
        ItemsRes::Items(Seq::empty(), j + 1)
    } else {
        match p_top(ts, j) {
            PRes::Bad(e) => ItemsRes::Bad(e),
            PRes::Got(n, j2) => if j2 <= j || j2 > ts.len() {
                ItemsRes::Bad(ParseError::UnrecognizedEof)
            } else {
                match p_items(ts, j2) {
                    ItemsRes::Bad(e) => ItemsRes::Bad(e),
                    ItemsRes::Items(rest, end) => ItemsRes::Items(seq![n] + rest, end),
                }
            },
        }
    }
}

/// One braced block from token `i`.
pub open spec fn p_block(ts: Seq<(TokAbs, int)>, i: int) -> PRes
    decreases ts.len() - i, 1int,
{
    if i < 0 || i >= ts.len() || !(ts[i].0 is LBrace) {
        PRes::Bad(err_abs(ts, i))
    } else {
        match p_items(ts, i + 1) {
            ItemsRes::Bad(e) => PRes::Bad(e),
            ItemsRes::Items(ns, end) => PRes::Got(NodeAbs::Block(ns), end),
        }
    }
}

/// One top-level statement from token `i`. The progress guards can
/// never be met — every sub-parse advances — and only keep the
/// definition well founded.
pub open spec fn p_top(ts: Seq<(TokAbs, int)>, i: int) -> PRes
    decreases ts.len() - i, 2int,
{
    if i < 0 || i >= ts.len() {
        PRes::Bad(ParseError::UnrecognizedEof)
    } else {
        match ts[i].0 {
            TokAbs::Ident(name) => if i + 1 >= ts.len() || !(ts[i + 1].0 is Assign) {
                PRes::Bad(err_abs(ts, i + 1))
            } else {
                match p_expr(ts, i + 2) {
                    PRes::Bad(e) => PRes::Bad(e),
                    PRes::Got(value, j) => if j >= ts.len() || j < 0 || !(ts[j].0 is Semi) {
                        PRes::Bad(err_abs(ts, j))
                    } else {
                        PRes::Got(
                            NodeAbs::Assign(
                                Box::new(NodeAbs::Identifier(name)),
                                Box::new(value),
                            ),
                            j + 1,
                        )
                    },
                }
            },
            TokAbs::KwPrint => match p_expr(ts, i + 1) {
                PRes::Bad(e) => PRes::Bad(e),
                PRes::Got(value, j) => if j >= ts.len() || j < 0 || !(ts[j].0 is Semi) {
                    PRes::Bad(err_abs(ts, j))
                } else {
                    PRes::Got(NodeAbs::Print(Box::new(value)), j + 1)
                },
            },
            TokAbs::Comment(text) => PRes::Got(NodeAbs::Comment(text), i + 1),
            TokAbs::LBrace => p_block(ts, i),
            TokAbs::KwProc => if i + 1 >= ts.len() {
                PRes::Bad(ParseError::UnrecognizedEof)
            } else if !(ts[i + 1].0 is Ident) {
                PRes::Bad(err_abs(ts, i + 1))
            } else {
                match p_block(ts, i + 2) {
                    PRes::Bad(e) => PRes::Bad(e),
                    PRes::Got(body, j) => PRes::Got(
                        NodeAbs::Proc(
                            Box::new(NodeAbs::Identifier(ident_text(ts[i + 1].0))),
                            Box::new(body),
                        ),
                        j,
                    ),
                }
            },
            TokAbs::KwCall => if i + 1 >= ts.len() {
                PRes::Bad(ParseError::UnrecognizedEof)
            } else if !(ts[i + 1].0 is Ident) {
                PRes::Bad(err_abs(ts, i + 1))
            } else if i + 2 >= ts.len() || !(ts[i + 2].0 is Semi) {
                PRes::Bad(err_abs(ts, i + 2))
            } else {
                PRes::Got(
                    NodeAbs::Call(Box::new(NodeAbs::Identifier(ident_text(ts[i + 1].0)))),
                    i + 3,
                )
            },
            TokAbs::KwIf => if i + 1 >= ts.len() || !(ts[i + 1].0 is LParen) {
                PRes::Bad(err_abs(ts, i + 1))
            } else {
                match p_expr(ts, i + 2) {
                    PRes::Bad(e) => PRes::Bad(e),
                    PRes::Got(cond, j) => if j >= ts.len() || j < 0 || !(ts[j].0 is RParen) {
                        PRes::Bad(err_abs(ts, j))
                    } else if j <= i {
                        PRes::Bad(ParseError::UnrecognizedEof)
                    } else {
                        match p_block(ts, j + 1) {
                            PRes::Bad(e) => PRes::Bad(e),
                            PRes::Got(then_body, j2) => if 0 <= j2 < ts.len() && ts[j2].0
                                is KwElse {
                                if j2 <= i {
                                    PRes::Bad(ParseError::UnrecognizedEof)
                                } else {
                                    match p_block(ts, j2 + 1) {
                                        PRes::Bad(e) => PRes::Bad(e),
                                        PRes::Got(else_body, j3) => PRes::Got(
                                            NodeAbs::IfElse(
                                                Box::new(cond),
                                                Box::new(then_body),
                                                Box::new(else_body),
                                            ),
                                            j3,
                                        ),
                                    }
                                }
                            } else {
                                PRes::Got(NodeAbs::If(Box::new(cond), Box::new(then_body)), j2)
                            },
                        }
                    },
                }
            },
            _ => PRes::Bad(err_abs(ts, i)),
        }
    }
}

/// The top-level statements from token `i` to the input's end. The
/// progress guard can never be met — a statement always consumes at
/// least one token — and only keeps the definition well founded.
pub open spec fn p_tops(ts: Seq<(TokAbs, int)>, i: int) -> ItemsRes
    decreases ts.len() - i, 3int,
{
    if i < 0 {
        ItemsRes::Bad(ParseError::UnrecognizedEof)
    } else if i >= ts.len() {
        ItemsRes::Items(Seq::empty(), i)
    } else {
        match p_top(ts, i) {
            PRes::Bad(e) => ItemsRes::Bad(e),
            PRes::Got(n, j2) => if j2 <= i || j2 > ts.len() {
                ItemsRes::Bad(ParseError::UnrecognizedEof)
            } else {
                p_items_join(p_tops(ts, j2), n)
            },
        }
    }
}

/// Joins one leading statement onto a run's result.
pub open spec fn p_items_join(r: ItemsRes, n: NodeAbs) -> ItemsRes {
    match r {
        ItemsRes::Bad(e) => ItemsRes::Bad(e),
        ItemsRes::Items(rest, end) => ItemsRes::Items(seq![n] + rest, end),
    }
}

/// What parsing whole source text yields.
pub enum ParseAbs {
    Prog(Seq<NodeAbs>),
    Bad(ParseError),
}

/// The program a source text denotes: its tokens parsed as a non-empty
/// run of top-level statements, or the first lexical or grammatical
/// error met.
pub open spec fn parse_of(s: Seq<char>) -> ParseAbs {
    match lex_from(s, 0) {
        LexOut::Bad(p) => ParseAbs::Bad(ParseError::InvalidToken { at: p as usize }),
        LexOut::Tokens(ts) => if ts.len() == 0 {
            ParseAbs::Bad(ParseError::UnrecognizedEof)
        } else {
            match p_tops(ts, 0) {
                ItemsRes::Bad(e) => ParseAbs::Bad(e),
                ItemsRes::Items(ns, _end) => ParseAbs::Prog(ns),
            }
        },
    }
}

/// Joins already-parsed statements onto the parse of the rest.
pub open spec fn items_prepend(pre: Seq<NodeAbs>, r: ItemsRes) -> ItemsRes {
    match r {
        ItemsRes::Bad(e) => ItemsRes::Bad(e),
        ItemsRes::Items(rest, end) => ItemsRes::Items(pre + rest, end),
    }
}

/// Prepending nothing changes nothing.
proof fn items_prepend_neutral(r: ItemsRes)
    ensures
        items_prepend(Seq::empty(), r) == r,
{
    match r {
        ItemsRes::Items(rest, _end) => {
            assert(Seq::<NodeAbs>::empty() + rest =~= rest);
        },
        ItemsRes::Bad(_) => {},
    }
}

/// Prepending twice is prepending the joined prefix.
proof fn items_prepend_join(a: Seq<NodeAbs>, b: Seq<NodeAbs>, r: ItemsRes)
    ensures
        items_prepend(a, items_prepend(b, r)) == items_prepend(a + b, r),
{
    match r {
        ItemsRes::Items(rest, _end) => {
            assert(a + (b + rest) =~= (a + b) + rest);
        },
        ItemsRes::Bad(_) => {},
    }
}

/// Where an expression may end: the index one past its last token.
type Parsed = Result<(Node, usize), ParseError>;

/// The position of the token at `i`, for a diagnostic; the input's end
/// is its own diagnostic.
fn err_at(toks: &Vec<(Tok, usize)>, i: usize) -> (e: ParseError)
    ensures
        e == err_abs(pairs_abs(toks@), i as int),
{
    proof {
        lemma_pairs_abs(toks@);
    }
    if i < toks.len() {
        ParseError::UnrecognizedToken { at: toks[i].1 }
    } else {
        ParseError::UnrecognizedEof
    }
}

/// One expression, starting at token `i`.
fn parse_expr(toks: &Vec<(Tok, usize)>, i: usize) -> (r: Parsed)
    requires
        i <= toks@.len(),
    ensures
        match r {
            Ok(p) => i < p.1 <= toks@.len() && expr_form(node_abs(p.0)) && p_expr(
                pairs_abs(toks@),
                i as int,
            ) == PRes::Got(node_abs(p.0), p.1 as int),
            Err(e) => p_expr(pairs_abs(toks@), i as int) == PRes::Bad(e),
        },
    decreases toks@.len() - i, 0int,
{
    proof {
        lemma_pairs_abs(toks@);
    }
    if i >= toks.len() {
        return Err(ParseError::UnrecognizedEof);
    }
    if matches!(&toks[i].0, Tok::LParen) {
        let (inner, j) = match parse_expr(toks, i + 1) {
            Ok(p) => p,
            Err(e) => {
                return Err(e);
            },
        };
        if j < toks.len() && matches!(&toks[j].0, Tok::RParen) {
            return Ok((inner, j + 1));
        }
        return Err(err_at(toks, j));
    }
    let lit = match &toks[i].0 {
        Tok::Num(s) => {
            let n = Node::Num(s.clone());
            proof {
                assert(expr_form(node_abs(n)));
                assert(node_abs(n) == lit_node(pairs_abs(toks@)[i as int].0));
            }
            n
        },
        Tok::StrLit(s) => {
            let n = Node::Str(s.clone());
            proof {
                assert(expr_form(node_abs(n)));
                assert(node_abs(n) == lit_node(pairs_abs(toks@)[i as int].0));
            }
            n
        },
        Tok::Ident(s) => {
            let n = Node::Identifier(s.clone());
            proof {
                assert(expr_form(node_abs(n)));
                assert(node_abs(n) == lit_node(pairs_abs(toks@)[i as int].0));
            }
            n
        },
        _ => {
            return Err(err_at(toks, i));
        },
    };
    proof {
        assert(expr_form(node_abs(lit)));
        assert(node_abs(lit) == lit_node(pairs_abs(toks@)[i as int].0));
    }
    if i + 1 >= toks.len() {
        return Ok((lit, i + 1));
    }
    let op_here = matches!(
        &toks[i + 1].0,
        Tok::Plus | Tok::Minus | Tok::Star | Tok::Slash | Tok::EqEq | Tok::NotEq | Tok::Gt | Tok::Lt
    );
    if !op_here {
        return Ok((lit, i + 1));
    }
    let (rhs, j) = match parse_expr(toks, i + 2) {
        Ok(p) => p,
        Err(e) => {
            return Err(e);
        },
    };
    let node = match &toks[i + 1].0 {
        Tok::Plus => Node::Add(Box::new(lit), Box::new(rhs)),
        Tok::Minus => Node::Sub(Box::new(lit), Box::new(rhs)),
        Tok::Star => Node::Mul(Box::new(lit), Box::new(rhs)),
        Tok::Slash => Node::Div(Box::new(lit), Box::new(rhs)),
        Tok::EqEq => Node::Eq(Box::new(lit), Box::new(rhs)),
        Tok::NotEq => Node::NotEq(Box::new(lit), Box::new(rhs)),
        Tok::Gt => Node::Gt(Box::new(lit), Box::new(rhs)),
        _ => Node::Lt(Box::new(lit), Box::new(rhs)),
    };
    proof {
        assert(node_abs(node) == op_node(
            pairs_abs(toks@)[i + 1].0,
            node_abs(lit),
            node_abs(rhs),
        ));
    }
    Ok((node, j))
}

/// One braced block, starting at the opening brace at `i`.
fn parse_block(toks: &Vec<(Tok, usize)>, i: usize) -> (r: Parsed)
    requires
        i <= toks@.len(),
    ensures
        match r {
            Ok(p) => i < p.1 <= toks@.len() && node_abs(p.0) is Block && stmt_form(node_abs(p.0))
                && p_block(pairs_abs(toks@), i as int) == PRes::Got(node_abs(p.0), p.1 as int),
            Err(e) => p_block(pairs_abs(toks@), i as int) == PRes::Bad(e),
        },
    decreases toks@.len() - i, 1int,
{
    proof {
        lemma_pairs_abs(toks@);
    }
    let ghost ts = pairs_abs(toks@);
    if i >= toks.len() || !matches!(&toks[i].0, Tok::LBrace) {
        return Err(err_at(toks, i));
    }
    let mut items: Vec<Node> = Vec::new();
    let mut j = i + 1;
    proof {
        items_prepend_neutral(p_items(ts, i + 1));
    }
    while j < toks.len() && !matches!(&toks[j].0, Tok::RBrace)
        invariant
            i < j <= toks@.len(),
            ts == pairs_abs(toks@),
            i < toks@.len() && toks@[i as int].0 is LBrace,
            forall|k: int| 0 <= k < items@.len() ==> stmt_form(#[trigger] node_abs(items@[k])),
            p_items(ts, i + 1) == items_prepend(nodes_abs(items@), p_items(ts, j as int)),
        decreases toks@.len() - j,
    {
        proof {
            lemma_pairs_abs(toks@);
        }
        let ghost j0 = j as int;
        let (stmt, j2) = match parse_top(toks, j) {
            Ok(p) => p,
            Err(e) => {
                proof {
                    assert(p_items(ts, j0) == ItemsRes::Bad(e));
                }
                return Err(e);
            },
        };
        proof {
            assert(p_items(ts, j0) == p_items_join(p_items(ts, j2 as int), node_abs(stmt)));
            assert(items_prepend(nodes_abs(items@), p_items(ts, j0)) == items_prepend(
                nodes_abs(items@) + seq![node_abs(stmt)],
                p_items(ts, j2 as int),
            )) by {
                match p_items(ts, j2 as int) {
                    ItemsRes::Items(rest, _end) => {
                        assert(nodes_abs(items@) + (seq![node_abs(stmt)] + rest) =~= (nodes_abs(
                            items@,
                        ) + seq![node_abs(stmt)]) + rest);
                    },
                    ItemsRes::Bad(_) => {},
                }
            }
            lemma_nodes_push(items@, stmt);
        }
        items.push(stmt);
        j = j2;
    }
    if j >= toks.len() {
        proof {
            assert(p_items(ts, j as int) == ItemsRes::Bad(ParseError::UnrecognizedEof));
        }
        return Err(ParseError::UnrecognizedEof);
    }
    let ghost items_s = items@;
    proof {
        lemma_pairs_abs(toks@);
        lemma_nodes_abs(items_s);
        lemma_stmts_form(nodes_abs(items_s));
        assert(ts[j as int].0 is RBrace);
        assert(p_items(ts, j as int) == ItemsRes::Items(Seq::<NodeAbs>::empty(), j + 1));
        assert(nodes_abs(items_s) + Seq::<NodeAbs>::empty() =~= nodes_abs(items_s));
        assert(p_items(ts, i + 1) == ItemsRes::Items(nodes_abs(items_s), j + 1));
        assert(ts[i as int].0 is LBrace);
        assert(p_block(ts, i as int) == PRes::Got(NodeAbs::Block(nodes_abs(items_s)), j + 1));
    }
    let node = Node::Block(items);
    proof {
        assert(node_abs(node) == NodeAbs::Block(nodes_abs(items_s)));
        assert(stmt_form(node_abs(node)));
        assert(p_block(pairs_abs(toks@), i as int) == PRes::Got(node_abs(node), j + 1));
    }
    Ok((node, j + 1))
}

/// Abstraction of a pushed node.
proof fn lemma_nodes_push(s: Seq<Node>, n: Node)
    ensures
        nodes_abs(s.push(n)) == nodes_abs(s) + seq![node_abs(n)],
    decreases s.len(),
{
    if s.len() == 0 {
        assert(s.push(n)[0] == n);
        assert(s.push(n).drop_first() =~= Seq::<Node>::empty());
        assert(nodes_abs(s.push(n).drop_first()) == Seq::<NodeAbs>::empty());
        assert(nodes_abs(s.push(n)) =~= nodes_abs(s) + seq![node_abs(n)]);
    } else {
        assert(s.push(n)[0] == s[0]);
        assert(s.push(n).drop_first() =~= s.drop_first().push(n));
        lemma_nodes_push(s.drop_first(), n);
        assert(nodes_abs(s.push(n)) =~= nodes_abs(s) + seq![node_abs(n)]);
    }
}

/// One top-level statement, starting at token `i`.
#[verifier::rlimit(100)]
fn parse_top(toks: &Vec<(Tok, usize)>, i: usize) -> (r: Parsed)
    requires
        i <= toks@.len(),
    ensures
        match r {
            Ok(p) => i < p.1 <= toks@.len() && stmt_form(node_abs(p.0)) && p_top(
                pairs_abs(toks@),
                i as int,
            ) == PRes::Got(node_abs(p.0), p.1 as int),
            Err(e) => p_top(pairs_abs(toks@), i as int) == PRes::Bad(e),
        },
    decreases toks@.len() - i, 2int,
{
    proof {
        lemma_pairs_abs(toks@);
    }
    if i >= toks.len() {
        return Err(ParseError::UnrecognizedEof);
    }
    match &toks[i].0 {
        Tok::Ident(name) => {
            // name = Expr ;
            if i + 1 >= toks.len() || !matches!(&toks[i + 1].0, Tok::Assign) {
                return Err(err_at(toks, i + 1));
            }
            let (value, j) = match parse_expr(toks, i + 2) {
                Ok(p) => p,
                Err(e) => {
                    return Err(e);
                },
            };
            if j >= toks.len() || !matches!(&toks[j].0, Tok::Semi) {
                return Err(err_at(toks, j));
            }
            let target = Node::Identifier(name.clone());
            proof {
                assert(node_abs(target) is Identifier);
            }
            let node = Node::Assign(Box::new(target), Box::new(value));
            proof {
                assert(stmt_form(node_abs(node)));
            }
            Ok((node, j + 1))
        },
        Tok::KwPrint => {
            let (value, j) = match parse_expr(toks, i + 1) {
                Ok(p) => p,
                Err(e) => {
                    return Err(e);
                },
            };
            if j >= toks.len() || !matches!(&toks[j].0, Tok::Semi) {
                return Err(err_at(toks, j));
            }
            let node = Node::Print(Box::new(value));
            proof {
                assert(stmt_form(node_abs(node)));
            }
            Ok((node, j + 1))
        },
        Tok::Comment(text) => Ok((Node::Comment(text.clone()), i + 1)),
        Tok::LBrace => parse_block(toks, i),
        Tok::KwProc => {
            if i + 1 >= toks.len() {
                return Err(ParseError::UnrecognizedEof);
            }
            let name = match &toks[i + 1].0 {
                Tok::Ident(s) => {
                    let n = Node::Identifier(s.clone());
                    proof {
                        assert(node_abs(n) is Identifier);
                        assert(node_abs(n) == NodeAbs::Identifier(
                            ident_text(pairs_abs(toks@)[i + 1].0),
                        ));
                    }
                    n
                },
                _ => {
                    return Err(err_at(toks, i + 1));
                },
            };
            let (body, j) = match parse_block(toks, i + 2) {
                Ok(p) => p,
                Err(e) => {
                    return Err(e);
                },
            };
            let node = Node::Proc(Box::new(name), Box::new(body));
            proof {
                assert(stmt_form(node_abs(node)));
            }
            Ok((node, j))
        },
        Tok::KwCall => {
            if i + 1 >= toks.len() {
                return Err(ParseError::UnrecognizedEof);
            }
            let name = match &toks[i + 1].0 {
                Tok::Ident(s) => {
                    let n = Node::Identifier(s.clone());
                    proof {
                        assert(node_abs(n) is Identifier);
                        assert(node_abs(n) == NodeAbs::Identifier(
                            ident_text(pairs_abs(toks@)[i + 1].0),
                        ));
                    }
                    n
                },
                _ => {
                    return Err(err_at(toks, i + 1));
                },
            };
            if i + 2 >= toks.len() || !matches!(&toks[i + 2].0, Tok::Semi) {
                return Err(err_at(toks, i + 2));
            }
            let node = Node::Call(Box::new(name));
            proof {
                assert(stmt_form(node_abs(node)));
            }
            Ok((node, i + 3))
        },
        Tok::KwIf => {
            if i + 1 >= toks.len() || !matches!(&toks[i + 1].0, Tok::LParen) {
                return Err(err_at(toks, i + 1));
            }
            let (cond, j) = match parse_expr(toks, i + 2) {
                Ok(p) => p,
                Err(e) => {
                    return Err(e);
                },
            };
            if j >= toks.len() || !matches!(&toks[j].0, Tok::RParen) {
                return Err(err_at(toks, j));
            }
            let (then_body, j2) = match parse_block(toks, j + 1) {
                Ok(p) => p,
                Err(e) => {
                    return Err(e);
                },
            };
            if j2 < toks.len() && matches!(&toks[j2].0, Tok::KwElse) {
                let (else_body, j3) = match parse_block(toks, j2 + 1) {
                    Ok(p) => p,
                    Err(e) => {
                        return Err(e);
                    },
                };
                let node = Node::IfElse(
                    Box::new(cond),
                    Box::new(then_body),
                    Box::new(else_body),
                );
                proof {
                    assert(stmt_form(node_abs(node)));
                }
                Ok((node, j3))
            } else {
                let node = Node::If(Box::new(cond), Box::new(then_body));
                proof {
                    assert(stmt_form(node_abs(node)));
                }
                Ok((node, j2))
            }
        },
        _ => Err(err_at(toks, i)),
    }
}

/// The parser for whole programs.
pub struct ProgramParser {}

impl ProgramParser {
    /// A parser instance.
    pub fn new() -> ProgramParser {
        ProgramParser {  }
    }

    /// Parses source text into the ordered sequence of its top-level
    /// statement nodes, exactly as the grammar denotes, or the first
    /// error met: the program a text yields is a function of the text.
    /// Every returned node is a well-formed statement: assignment
    /// targets and called names are identifier nodes, procedure and
    /// conditional bodies are blocks, and expressions hold only
    /// literals and binary operations.
    #[verifier::rlimit(100)]
    pub fn parse(&self, input: &str) -> (r: Result<Vec<Node>, ParseError>)
        ensures
            match r {
                Ok(prog) => parse_of(input@) == ParseAbs::Prog(nodes_abs(prog@)) && stmts_form(
                    nodes_abs(prog@),
                ),
                Err(e) => parse_of(input@) == ParseAbs::Bad(e),
            },
    {
        let src = chars_of(input);
        let toks = match new_builder().tokenize(&src) {
            Ok(t) => t,
            Err(e) => {
                return Err(e);
            },
        };
        proof {
            lemma_pairs_abs(toks@);
        }
        let ghost ts = pairs_abs(toks@);
        if toks.len() == 0 {
            return Err(ParseError::UnrecognizedEof);
        }
        let mut prog: Vec<Node> = Vec::new();
        let mut i: usize = 0;
        proof {
            items_prepend_neutral(p_tops(ts, 0));
        }
        while i < toks.len()
            invariant
                i <= toks@.len(),
                ts == pairs_abs(toks@),
                lex_from(input@, 0) == LexOut::Tokens(ts),
                toks@.len() > 0,
                forall|k: int| 0 <= k < prog@.len() ==> stmt_form(#[trigger] node_abs(prog@[k])),
                p_tops(ts, 0) == items_prepend(nodes_abs(prog@), p_tops(ts, i as int)),
            decreases toks@.len() - i,
        {
            proof {
                lemma_pairs_abs(toks@);
            }
            let ghost i0 = i as int;
            let (stmt, j) = match parse_top(&toks, i) {
                Ok(p) => p,
                Err(e) => {
                    proof {
                        assert(p_tops(ts, i0) == ItemsRes::Bad(e));
                    }
                    return Err(e);
                },
            };
            proof {
                assert(p_tops(ts, i0) == p_items_join(p_tops(ts, j as int), node_abs(stmt)));
                assert(items_prepend(nodes_abs(prog@), p_tops(ts, i0)) == items_prepend(
                    nodes_abs(prog@) + seq![node_abs(stmt)],
                    p_tops(ts, j as int),
                )) by {
                    match p_tops(ts, j as int) {
                        ItemsRes::Items(rest, _end) => {
                            assert(nodes_abs(prog@) + (seq![node_abs(stmt)] + rest) =~= (nodes_abs(
                                prog@,
                            ) + seq![node_abs(stmt)]) + rest);
                        },
                        ItemsRes::Bad(_) => {},
                    }
                }
                lemma_nodes_push(prog@, stmt);
            }
            prog.push(stmt);
            i = j;
        }
        proof {
            lemma_nodes_abs(prog@);
            lemma_stmts_form(nodes_abs(prog@));
            assert(p_tops(ts, i as int) == ItemsRes::Items(Seq::<NodeAbs>::empty(), i as int));
            assert(nodes_abs(prog@) + Seq::<NodeAbs>::empty() =~= nodes_abs(prog@));
        }
        Ok(prog)
    }
}

} // verus!
