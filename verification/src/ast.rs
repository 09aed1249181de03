//! The statement and expression tree of the language, together with its
//! mathematical abstraction used throughout the contracts.

use vstd::prelude::*;

verus! {

/// The tag half of a resolved value.
#[derive(Debug)]
pub enum Type {
    Num,
    Nothing,
    Str,
    Identifier,
    Ptr(Box<Type>),
    Invalid,
    Block,
}

impl Clone for Type {
    fn clone(&self) -> (res: Self)
        ensures
            res == *self,
        decreases self,
    {
        match self {
            Type::Num => Type::Num,
            Type::Nothing => Type::Nothing,
            Type::Str => Type::Str,
            Type::Identifier => Type::Identifier,
            Type::Ptr(t) => Type::Ptr(Box::new((**t).clone())),
            Type::Invalid => Type::Invalid,
            Type::Block => Type::Block,
        }
    }
}

impl Type {
    /// Whether this tag is the numeric one.
    pub fn is_num(&self) -> (r: bool)
        ensures
            r == (*self is Num),
    {
        matches!(self, Type::Num)
    }

    /// Whether this tag is the textual one.
    pub fn is_str(&self) -> (r: bool)
        ensures
            r == (*self is Str),
    {
        matches!(self, Type::Str)
    }

    /// Whether this tag is the deferred identifier one.
    pub fn is_identifier(&self) -> (r: bool)
        ensures
            r == (*self is Identifier),
    {
        matches!(self, Type::Identifier)
    }

    /// Whether this tag marks a block.
    pub fn is_block(&self) -> (r: bool)
        ensures
            r == (*self is Block),
    {
        matches!(self, Type::Block)
    }

    /// Whether this tag marks a statement-only form.
    pub fn is_invalid(&self) -> (r: bool)
        ensures
            r == (*self is Invalid),
    {
        matches!(self, Type::Invalid)
    }

    /// Deep equality test on type tags.
    pub fn same(&self, other: &Type) -> (r: bool)
        ensures
            r == (*self == *other),
        decreases self,
    {
        match (self, other) {
            (Type::Num, Type::Num) => true,
            (Type::Nothing, Type::Nothing) => true,
            (Type::Str, Type::Str) => true,
            (Type::Identifier, Type::Identifier) => true,
            (Type::Ptr(a), Type::Ptr(b)) => a.same(b),
            (Type::Invalid, Type::Invalid) => true,
            (Type::Block, Type::Block) => true,
            _ => false,
        }
    }
}

/// One element of the parsed program tree.
#[derive(Debug)]
pub enum Node {
    Num(String),
    Str(String),
    Identifier(String),
    Add(Box<Node>, Box<Node>),
    Sub(Box<Node>, Box<Node>),
    Mul(Box<Node>, Box<Node>),
    Div(Box<Node>, Box<Node>),
    Eq(Box<Node>, Box<Node>),
    NotEq(Box<Node>, Box<Node>),
    Gt(Box<Node>, Box<Node>),
    Lt(Box<Node>, Box<Node>),
    Assign(Box<Node>, Box<Node>),
    Print(Box<Node>),
    Comment(String),
    Block(Vec<Node>),
    Proc(Box<Node>, Box<Node>),
    Call(Box<Node>),
    If(Box<Node>, Box<Node>),
    IfElse(Box<Node>, Box<Node>, Box<Node>),
}

/// The mathematical shape of a `Node`: strings become character sequences
/// and child vectors become sequences, so that contracts can speak of a
/// tree's content without regard to ownership.
pub enum NodeAbs {
    Num(Seq<char>),
    Str(Seq<char>),
    Identifier(Seq<char>),
    Add(Box<NodeAbs>, Box<NodeAbs>),
    Sub(Box<NodeAbs>, Box<NodeAbs>),
    Mul(Box<NodeAbs>, Box<NodeAbs>),
    Div(Box<NodeAbs>, Box<NodeAbs>),
    Eq(Box<NodeAbs>, Box<NodeAbs>),
    NotEq(Box<NodeAbs>, Box<NodeAbs>),
    Gt(Box<NodeAbs>, Box<NodeAbs>),
    Lt(Box<NodeAbs>, Box<NodeAbs>),
    Assign(Box<NodeAbs>, Box<NodeAbs>),
    Print(Box<NodeAbs>),
    Comment(Seq<char>),
    Block(Seq<NodeAbs>),
    Proc(Box<NodeAbs>, Box<NodeAbs>),
    Call(Box<NodeAbs>),
    If(Box<NodeAbs>, Box<NodeAbs>),
    IfElse(Box<NodeAbs>, Box<NodeAbs>, Box<NodeAbs>),
}

/// The abstraction of one node.
pub open spec fn node_abs(n: Node) -> NodeAbs
    decreases n,
{
    match n {
        Node::Num(s) => NodeAbs::Num(s@),
        Node::Str(s) => NodeAbs::Str(s@),
        Node::Identifier(s) => NodeAbs::Identifier(s@),
        Node::Add(l, r) => NodeAbs::Add(Box::new(node_abs(*l)), Box::new(node_abs(*r))),
        Node::Sub(l, r) => NodeAbs::Sub(Box::new(node_abs(*l)), Box::new(node_abs(*r))),
        Node::Mul(l, r) => NodeAbs::Mul(Box::new(node_abs(*l)), Box::new(node_abs(*r))),
        Node::Div(l, r) => NodeAbs::Div(Box::new(node_abs(*l)), Box::new(node_abs(*r))),
        Node::Eq(l, r) => NodeAbs::Eq(Box::new(node_abs(*l)), Box::new(node_abs(*r))),
        Node::NotEq(l, r) => NodeAbs::NotEq(Box::new(node_abs(*l)), Box::new(node_abs(*r))),
        Node::Gt(l, r) => NodeAbs::Gt(Box::new(node_abs(*l)), Box::new(node_abs(*r))),
        Node::Lt(l, r) => NodeAbs::Lt(Box::new(node_abs(*l)), Box::new(node_abs(*r))),
        Node::Assign(l, r) => NodeAbs::Assign(Box::new(node_abs(*l)), Box::new(node_abs(*r))),
        Node::Print(e) => NodeAbs::Print(Box::new(node_abs(*e))),
        Node::Comment(s) => NodeAbs::Comment(s@),
        Node::Block(v) => NodeAbs::Block(nodes_abs(v@)),
        Node::Proc(l, r) => NodeAbs::Proc(Box::new(node_abs(*l)), Box::new(node_abs(*r))),
        Node::Call(e) => NodeAbs::Call(Box::new(node_abs(*e))),
        Node::If(l, r) => NodeAbs::If(Box::new(node_abs(*l)), Box::new(node_abs(*r))),
        Node::IfElse(c, t, e) => NodeAbs::IfElse(
            Box::new(node_abs(*c)),
            Box::new(node_abs(*t)),
            Box::new(node_abs(*e)),
        ),
    }
}

/// Whether an abstract node is one of the grammar's expression forms: a
/// literal, or a binary operation over expression forms.
pub open spec fn expr_form(n: NodeAbs) -> bool
    decreases n,
{
    match n {
        NodeAbs::Num(_) => true,
        NodeAbs::Str(_) => true,
        NodeAbs::Identifier(_) => true,
        NodeAbs::Add(l, r) => expr_form(*l) && expr_form(*r),
        NodeAbs::Sub(l, r) => expr_form(*l) && expr_form(*r),
        NodeAbs::Mul(l, r) => expr_form(*l) && expr_form(*r),
        NodeAbs::Div(l, r) => expr_form(*l) && expr_form(*r),
        NodeAbs::Eq(l, r) => expr_form(*l) && expr_form(*r),
        NodeAbs::NotEq(l, r) => expr_form(*l) && expr_form(*r),
        NodeAbs::Gt(l, r) => expr_form(*l) && expr_form(*r),
        NodeAbs::Lt(l, r) => expr_form(*l) && expr_form(*r),
        _ => false,
    }
}

/// Whether an abstract node is one of the grammar's statement forms:
/// assignment targets and called names are identifiers, procedure and
/// conditional bodies are blocks, and every nested statement is itself
/// well formed.
pub open spec fn stmt_form(n: NodeAbs) -> bool
    decreases n,
{
    match n {
        NodeAbs::Assign(target, value) => *target is Identifier && expr_form(*value),
        NodeAbs::Print(e) => expr_form(*e),
        NodeAbs::Comment(_) => true,
        NodeAbs::Block(items) => stmts_form(items),
        NodeAbs::Proc(name, body) => *name is Identifier && *body is Block && stmt_form(*body),
        NodeAbs::Call(name) => *name is Identifier,
        NodeAbs::If(cond, body) => expr_form(*cond) && *body is Block && stmt_form(*body),
        NodeAbs::IfElse(cond, then_body, else_body) => expr_form(*cond) && *then_body is Block
            && stmt_form(*then_body) && *else_body is Block && stmt_form(*else_body),
        _ => false,
    }
}

/// Whether every node of a sequence is a statement form.
pub open spec fn stmts_form(s: Seq<NodeAbs>) -> bool
    decreases s,
{
    if s.len() == 0 {
        true
    } else {
        stmt_form(s[0]) && stmts_form(s.drop_first())
    }
}

/// `stmts_form` holds exactly when it holds of each node.
pub proof fn lemma_stmts_form(s: Seq<NodeAbs>)
    ensures
        stmts_form(s) <==> (forall|i: int| 0 <= i < s.len() ==> stmt_form(#[trigger] s[i])),
    decreases s.len(),
{
    if s.len() > 0 {
        lemma_stmts_form(s.drop_first());
        if stmts_form(s) {
            assert forall|i: int| 0 <= i < s.len() implies stmt_form(#[trigger] s[i]) by {
                if i > 0 {
                    assert(s.drop_first()[i - 1] == s[i]);
                }
            }
        }
        if forall|i: int| 0 <= i < s.len() ==> stmt_form(#[trigger] s[i]) {
            assert forall|i: int|
                0 <= i < s.drop_first().len() implies stmt_form(#[trigger] s.drop_first()[i]) by {
                assert(s.drop_first()[i] == s[i + 1]);
            }
            assert(stmt_form(s[0]));
        }
    }
}

/// The abstraction of a sequence of nodes, element by element.
pub open spec fn nodes_abs(s: Seq<Node>) -> Seq<NodeAbs>
    decreases s,
{
    if s.len() == 0 {
        Seq::empty()
    } else {
        seq![node_abs(s[0])] + nodes_abs(s.drop_first())
    }
}

/// `nodes_abs` maps the sequence element by element.
pub proof fn lemma_nodes_abs(s: Seq<Node>)
    ensures
        nodes_abs(s).len() == s.len(),
        forall|i: int| 0 <= i < s.len() ==> nodes_abs(s)[i] == node_abs(s[i]),
    decreases s.len(),
{
    if s.len() > 0 {
        lemma_nodes_abs(s.drop_first());
    }
}

impl Clone for Node {
    /// Cloning preserves a node's abstraction.
    fn clone(&self) -> (res: Self)
        ensures
            node_abs(res) == node_abs(*self),
        decreases self,
    {
        match self {
            Node::Num(s) => Node::Num(s.clone()),
            Node::Str(s) => Node::Str(s.clone()),
            Node::Identifier(s) => Node::Identifier(s.clone()),
            Node::Add(l, r) => Node::Add(Box::new((**l).clone()), Box::new((**r).clone())),
            Node::Sub(l, r) => Node::Sub(Box::new((**l).clone()), Box::new((**r).clone())),
            Node::Mul(l, r) => Node::Mul(Box::new((**l).clone()), Box::new((**r).clone())),
            Node::Div(l, r) => Node::Div(Box::new((**l).clone()), Box::new((**r).clone())),
            Node::Eq(l, r) => Node::Eq(Box::new((**l).clone()), Box::new((**r).clone())),
            Node::NotEq(l, r) => Node::NotEq(Box::new((**l).clone()), Box::new((**r).clone())),
            Node::Gt(l, r) => Node::Gt(Box::new((**l).clone()), Box::new((**r).clone())),
            Node::Lt(l, r) => Node::Lt(Box::new((**l).clone()), Box::new((**r).clone())),
            Node::Assign(l, r) => Node::Assign(Box::new((**l).clone()), Box::new((**r).clone())),
            Node::Print(e) => Node::Print(Box::new((**e).clone())),
            Node::Comment(s) => Node::Comment(s.clone()),
            Node::Block(v) => Node::Block(clone_nodes(v)),
            Node::Proc(l, r) => Node::Proc(Box::new((**l).clone()), Box::new((**r).clone())),
            Node::Call(e) => Node::Call(Box::new((**e).clone())),
            Node::If(l, r) => Node::If(Box::new((**l).clone()), Box::new((**r).clone())),
            Node::IfElse(c, t, e) => Node::IfElse(
                Box::new((**c).clone()),
                Box::new((**t).clone()),
                Box::new((**e).clone()),
            ),
        }
    }
}

/// Clones every node of a vector, preserving the abstraction of the sequence.
pub fn clone_nodes(v: &Vec<Node>) -> (res: Vec<Node>)
    ensures
        nodes_abs(res@) == nodes_abs(v@),
    decreases v,
{
    let mut res: Vec<Node> = Vec::new();
    let mut i: usize = 0;
    while i < v.len()
        invariant
            i <= v.len(),
            res@.len() == i,
            forall|j: int| 0 <= j < i ==> node_abs(res@[j]) == node_abs(v@[j]),
        decreases v.len() - i,
    {
        proof {
            broadcast use vstd::std_specs::vec::group_vec_axioms;
        }
        res.push(v[i].clone());
        i = i + 1;
    }
    proof {
        lemma_nodes_abs(res@);
        lemma_nodes_abs(v@);
        assert(nodes_abs(res@) =~= nodes_abs(v@));
    }
    res
}

} // verus!
