//! The syntax tree and the recursive-descent parser that builds it.

use vstd::prelude::*;
use crate::machine::{gen_spec, ops_of, Instr, Op};
use crate::token::{consume, is_reserved, Token, TokenIter, TokenKind};

verus! {

/// The kind of a tree node: a binary operator, or a number.
#[derive(Debug, Clone, Copy, PartialEq, Eq, Structural)]
pub enum NodeKind {
    NdADD,
    NdSub,
    NdMul,
    NdDiv,
    NdEq,
    NdNe,
    NdLt,
    NdLe,
    NdNum,
}

/// The mathematical form of a syntax tree: a number with its digits, or a
/// binary operator over two subtrees.
pub enum Ast {
    Num(Seq<char>),
    Bin(NodeKind, Box<Ast>, Box<Ast>),
}

impl Ast {
    pub open spec fn kind(self) -> NodeKind {
        match self {
            Ast::Num(_) => NodeKind::NdNum,
            Ast::Bin(k, _, _) => k,
        }
    }

    /// Number of operator nodes.
    pub open spec fn internal_count(self) -> nat
        decreases self,
    {
        match self {
            Ast::Num(_) => 0,
            Ast::Bin(_, l, r) => 1 + l.internal_count() + r.internal_count(),
        }
    }

    /// Number of nodes.
    pub open spec fn size(self) -> nat
        decreases self,
    {
        match self {
            Ast::Num(_) => 1,
            Ast::Bin(_, l, r) => 1 + l.size() + r.size(),
        }
    }
}

/// A node of the syntax tree. A number node holds its digits and no
/// children; an operator node holds its two operands and no digits.
#[derive(Debug)]
pub struct Node {
    node_kind: NodeKind,
    lhs: Option<Box<Node>>,
    rhs: Option<Box<Node>>,
    val: Option<String>,
}

impl Node {
    /// The node has the shape its kind asks for, and so do all below it.
    pub closed spec fn wf(&self) -> bool
        decreases self,
    {
        if self.node_kind == NodeKind::NdNum {
            self.lhs is None && self.rhs is None && self.val is Some
        } else {
            match (self.lhs, self.rhs) {
                (Some(l), Some(r)) => self.val is None && l.wf() && r.wf(),
                _ => false,
            }
        }
    }

    /// The tree below this node, as a value.
    pub closed spec fn ast(&self) -> Ast
        decreases self,
    {
        if self.node_kind == NodeKind::NdNum {
            match self.val {
                Some(v) => Ast::Num(v@),
                None => Ast::Num(Seq::empty()),
            }
        } else {
            match (self.lhs, self.rhs) {
                (Some(l), Some(r)) => Ast::Bin(self.node_kind, Box::new(l.ast()), Box::new(r.ast())),
                _ => Ast::Num(Seq::empty()),
            }
        }
    }

    fn new_binary(node_kind: NodeKind, lhs: Box<Node>, rhs: Box<Node>) -> (r: Node)
        requires
            node_kind != NodeKind::NdNum,
            lhs.wf(),
            rhs.wf(),
        ensures
            r.wf(),
            r.ast() == Ast::Bin(node_kind, Box::new(lhs.ast()), Box::new(rhs.ast())),
    {
        Node { node_kind, lhs: Some(lhs), rhs: Some(rhs), val: None }
    }

    fn new_binary_with_box(node_kind: NodeKind, lhs: Box<Node>, rhs: Box<Node>) -> (r: Box<Node>)
        requires
            node_kind != NodeKind::NdNum,
            lhs.wf(),
            rhs.wf(),
        ensures
            r.wf(),
            r.ast() == Ast::Bin(node_kind, Box::new(lhs.ast()), Box::new(rhs.ast())),
    {
        Box::new(Node::new_binary(node_kind, lhs, rhs))
    }

    fn new_num_node(val: String) -> (r: Node)
        ensures
            r.wf(),
            r.ast() == Ast::Num(val@),
    {
        Node { node_kind: NodeKind::NdNum, lhs: None, rhs: None, val: Some(val) }
    }

    fn new_num_node_with_box(val: String) -> (r: Box<Node>)
        ensures
            r.wf(),
            r.ast() == Ast::Num(val@),
    {
        Box::new(Node::new_num_node(val))
    }

    /// A copy of the tree below this node.
    fn copy_tree(&self) -> (r: Box<Node>)
        requires
            self.wf(),
        ensures
            r.wf(),
            r.ast() == self.ast(),
        decreases self,
    {
        match (&self.lhs, &self.rhs, &self.val) {
            (Some(l), Some(r), _) => {
                let lc = l.copy_tree();
                let rc = r.copy_tree();
                Node::new_binary_with_box(self.node_kind, lc, rc)
            },
            (_, _, Some(v)) => Node::new_num_node_with_box(v.clone()),
            _ => Node::new_num_node_with_box(String::new()),
        }
    }

    pub fn kind(&self) -> (r: &NodeKind)
        requires
            self.wf(),
        ensures
            *r == self.ast().kind(),
    {
        &self.node_kind
    }

    /// The digits of a number node; `None` for an operator node.
    pub fn val(&self) -> (r: Option<String>)
        requires
            self.wf(),
        ensures
            match self.ast() {
                Ast::Num(d) => r is Some && r->0@ == d,
                Ast::Bin(..) => r is None,
            },
    {
        match &self.val {
            Some(v) => Some(v.clone()),
            None => None,
        }
    }

    /// A copy of the right operand; `None` for a number node.
    pub fn rhs(&self) -> (r: Option<Box<Node>>)
        requires
            self.wf(),
        ensures
            match self.ast() {
                Ast::Num(_) => r is None,
                Ast::Bin(_, _, b) => r is Some && r->0.wf() && r->0.ast() == *b,
            },
    {
        match &self.rhs {
            Some(b) => Some(b.copy_tree()),
            None => None,
        }
    }

    /// A copy of the left operand; `None` for a number node.
    pub fn lhs(&self) -> (r: Option<Box<Node>>)
        requires
            self.wf(),
        ensures
            match self.ast() {
                Ast::Num(_) => r is None,
                Ast::Bin(_, a, _) => r is Some && r->0.wf() && r->0.ast() == *a,
            },
    {
        match &self.lhs {
            Some(b) => Some(b.copy_tree()),
            None => None,
        }
    }
}

/// What the parser looked for where it failed.
#[derive(Debug, Clone, Copy, PartialEq, Eq, Structural)]
pub enum Expected {
    /// A number or an opening parenthesis.
    Operand,
    /// The parenthesis that closes a group.
    CloseParen,
    /// The end of input, after a whole expression.
    End,
}

/// A token sequence, as the parser sees it.
pub type Toks = Seq<(TokenKind, Seq<char>)>;

/// The outcome of parsing from a position: the tree and the position after
/// it, or the position of the failure and what was expected there.
pub type Parsed = Result<(Ast, int), (int, Expected)>;

/// The token at `pos` is the operator `op`.
pub open spec fn tok_is(toks: Toks, pos: int, op: Seq<char>) -> bool {
    0 <= pos < toks.len() && is_reserved(toks[pos], op)
}

/// A construct parsed from `start` ended at `end`, inside the tokens.
/// Parsing never moves back (`lemma_parse_advances`); the test makes that
/// visible to the termination check of the grammar below.
pub open spec fn within(toks: Toks, start: int, end: int) -> bool {
    start <= end <= toks.len()
}

/// The literal zero that unary minus subtracts from.
pub open spec fn zero_digits() -> Seq<char> {
    seq!['0']
}

/// `expr = equality`
pub open spec fn parse_expr(toks: Toks, pos: int) -> Parsed
    decreases toks.len() - pos, 10int,
{
    parse_equality(toks, pos)
}

/// `equality = relational ("==" relational | "!=" relational)*`
pub open spec fn parse_equality(toks: Toks, pos: int) -> Parsed
    decreases toks.len() - pos, 9int,
{
    match parse_relational(toks, pos) {
        Ok((l, q)) => if within(toks, pos, q) {
            equality_rest(toks, l, q)
        } else {
            Err((q, Expected::Operand))
        },
        Err(f) => Err(f),
    }
}

/// The repeated part of `equality`, with `acc` parsed up to `pos`.
pub open spec fn equality_rest(toks: Toks, acc: Ast, pos: int) -> Parsed
    decreases toks.len() - pos, 8int,
{
    if tok_is(toks, pos, "=="@) || tok_is(toks, pos, "!="@) {
        let k = if tok_is(toks, pos, "=="@) { NodeKind::NdEq } else { NodeKind::NdNe };
        match parse_relational(toks, pos + 1) {
            Ok((r, q)) => if within(toks, pos + 1, q) {
                equality_rest(toks, Ast::Bin(k, Box::new(acc), Box::new(r)), q)
            } else {
                Err((q, Expected::Operand))
            },
            Err(f) => Err(f),
        }
    } else {
        Ok((acc, pos))
    }
}

/// `relational = add ("<" add | "<=" add | ">" add | ">=" add)*`, where
/// `a > b` is read as `b < a` and `a >= b` as `b <= a`.
pub open spec fn parse_relational(toks: Toks, pos: int) -> Parsed
    decreases toks.len() - pos, 7int,
{
    match parse_add(toks, pos) {
        Ok((l, q)) => if within(toks, pos, q) {
            relational_rest(toks, l, q)
        } else {
            Err((q, Expected::Operand))
        },
        Err(f) => Err(f),
    }
}

/// The repeated part of `relational`, with `acc` parsed up to `pos`.
pub open spec fn relational_rest(toks: Toks, acc: Ast, pos: int) -> Parsed
    decreases toks.len() - pos, 6int,
{
    let lt = tok_is(toks, pos, "<"@);
    let le = tok_is(toks, pos, "<="@);
    let gt = tok_is(toks, pos, ">"@);
    let ge = tok_is(toks, pos, ">="@);
    if lt || le || gt || ge {
        let k = if lt || gt { NodeKind::NdLt } else { NodeKind::NdLe };
        match parse_add(toks, pos + 1) {
            Ok((r, q)) => if within(toks, pos + 1, q) {
                let node = if lt || le {
                    Ast::Bin(k, Box::new(acc), Box::new(r))
                } else {
                    Ast::Bin(k, Box::new(r), Box::new(acc))
                };
                relational_rest(toks, node, q)
            } else {
                Err((q, Expected::Operand))
            },
            Err(f) => Err(f),
        }
    } else {
        Ok((acc, pos))
    }
}

/// `add = mul ("+" mul | "-" mul)*`
pub open spec fn parse_add(toks: Toks, pos: int) -> Parsed
    decreases toks.len() - pos, 5int,
{
    match parse_mul(toks, pos) {
        Ok((l, q)) => if within(toks, pos, q) {
            add_rest(toks, l, q)
        } else {
            Err((q, Expected::Operand))
        },
        Err(f) => Err(f),
    }
}

/// The repeated part of `add`, with `acc` parsed up to `pos`.
pub open spec fn add_rest(toks: Toks, acc: Ast, pos: int) -> Parsed
    decreases toks.len() - pos, 4int,
{
    if tok_is(toks, pos, "+"@) || tok_is(toks, pos, "-"@) {
        let k = if tok_is(toks, pos, "+"@) { NodeKind::NdADD } else { NodeKind::NdSub };
        match parse_mul(toks, pos + 1) {
            Ok((r, q)) => if within(toks, pos + 1, q) {
                add_rest(toks, Ast::Bin(k, Box::new(acc), Box::new(r)), q)
            } else {
                Err((q, Expected::Operand))
            },
            Err(f) => Err(f),
        }
    } else {
        Ok((acc, pos))
    }
}

/// `mul = unary ("*" unary | "/" unary)*`
pub open spec fn parse_mul(toks: Toks, pos: int) -> Parsed
    decreases toks.len() - pos, 3int,
{
    match parse_unary(toks, pos) {
        Ok((l, q)) => if within(toks, pos, q) {
            mul_rest(toks, l, q)
        } else {
            Err((q, Expected::Operand))
        },
        Err(f) => Err(f),
    }
}

/// The repeated part of `mul`, with `acc` parsed up to `pos`.
pub open spec fn mul_rest(toks: Toks, acc: Ast, pos: int) -> Parsed
    decreases toks.len() - pos, 2int,
{
    if tok_is(toks, pos, "*"@) || tok_is(toks, pos, "/"@) {
        let k = if tok_is(toks, pos, "*"@) { NodeKind::NdMul } else { NodeKind::NdDiv };
        match parse_unary(toks, pos + 1) {
            Ok((r, q)) => if within(toks, pos + 1, q) {
                mul_rest(toks, Ast::Bin(k, Box::new(acc), Box::new(r)), q)
            } else {
                Err((q, Expected::Operand))
            },
            Err(f) => Err(f),
        }
    } else {
        Ok((acc, pos))
    }
}

/// `unary = ("+" | "-")? primary`, where `-x` is read as `0 - x`.
pub open spec fn parse_unary(toks: Toks, pos: int) -> Parsed
    decreases toks.len() - pos, 1int,
{
    if tok_is(toks, pos, "+"@) {
        parse_primary(toks, pos + 1)
    } else if tok_is(toks, pos, "-"@) {
        match parse_primary(toks, pos + 1) {
            Ok((r, q)) => Ok(
                (Ast::Bin(NodeKind::NdSub, Box::new(Ast::Num(zero_digits())), Box::new(r)), q),
            ),
            Err(f) => Err(f),
        }
    } else {
        parse_primary(toks, pos)
    }
}

/// `primary = NUMBER | "(" expr ")"`
pub open spec fn parse_primary(toks: Toks, pos: int) -> Parsed
    decreases toks.len() - pos, 0int,
{
    if tok_is(toks, pos, "("@) {
        match parse_expr(toks, pos + 1) {
            Ok((e, q)) => if tok_is(toks, q, ")"@) {
                Ok((e, q + 1))
            } else {
                Err((q, Expected::CloseParen))
            },
            Err(f) => Err(f),
        }
    } else if 0 <= pos < toks.len() && toks[pos].0 == TokenKind::TkNum {
        Ok((Ast::Num(toks[pos].1), pos + 1))
    } else {
        Err((pos, Expected::Operand))
    }
}

/// A syntax error: the token or the end of input where the parser stopped,
/// and what it expected there.
#[derive(Debug, Clone, PartialEq, Eq)]
pub enum ParseError {
    UnexpectedToken { position: usize, token: Token, expected: Expected },
    UnexpectedEnd { position: usize, expected: Expected },
}

impl ParseError {
    /// The error reports the failure `f` on `toks`, with the token found
    /// there, or at the end of input.
    pub open spec fn describes(&self, toks: Toks, f: (int, Expected)) -> bool {
        match self {
            ParseError::UnexpectedToken { position, token, expected } => f == (
                *position as int,
                *expected,
            ) && *position < toks.len() && token@ == toks[*position as int],
            ParseError::UnexpectedEnd { position, expected } => f == (*position as int, *expected)
                && *position == toks.len(),
        }
    }
}

/// `r` is the exec form of the parse outcome `p`, with the cursor left at
/// `end` on success.
pub open spec fn parse_matches(r: Result<Box<Node>, ParseError>, toks: Toks, p: Parsed, end: int) -> bool {
    match r {
        Ok(n) => n.wf() && p == Ok::<(Ast, int), (int, Expected)>((n.ast(), end)),
        Err(e) => match p {
            Err(f) => e.describes(toks, f),
            Ok(_) => false,
        },
    }
}

fn fail(tokenizer: &TokenIter, expected: Expected) -> (r: ParseError)
    requires
        tokenizer.wf(),
    ensures
        r.describes(tokenizer.toks(), (tokenizer.pos(), expected)),
{
    let position = tokenizer.position();
    match tokenizer.peek() {
        Some(t) => ParseError::UnexpectedToken { position, token: t.duplicate(), expected },
        None => ParseError::UnexpectedEnd { position, expected },
    }
}

pub fn expr(tokenizer: &mut TokenIter) -> (r: Result<Box<Node>, ParseError>)
    requires
        old(tokenizer).wf(),
    ensures
        final(tokenizer).wf(),
        final(tokenizer).toks() == old(tokenizer).toks(),
        parse_matches(r, old(tokenizer).toks(), parse_expr(old(tokenizer).toks(), old(tokenizer).pos()), final(tokenizer).pos()),
        r is Ok ==> old(tokenizer).pos() < final(tokenizer).pos(),
    decreases old(tokenizer).toks().len() - old(tokenizer).pos(), 10int,
{
    equaility(tokenizer)
}

pub fn equaility(tokenizer: &mut TokenIter) -> (r: Result<Box<Node>, ParseError>)
    requires
        old(tokenizer).wf(),
    ensures
        final(tokenizer).wf(),
        final(tokenizer).toks() == old(tokenizer).toks(),
        parse_matches(r, old(tokenizer).toks(), parse_equality(old(tokenizer).toks(), old(tokenizer).pos()), final(tokenizer).pos()),
        r is Ok ==> old(tokenizer).pos() < final(tokenizer).pos(),
    decreases old(tokenizer).toks().len() - old(tokenizer).pos(), 9int,
{
    let ghost toks = tokenizer.toks();
    let ghost start = tokenizer.pos();
    let mut node = match relational(tokenizer) {
        Ok(n) => n,
        Err(e) => return Err(e),
    };
    loop
        invariant
            tokenizer.wf(),
            tokenizer.toks() == toks,
            toks == old(tokenizer).toks(),
            start == old(tokenizer).pos(),
            node.wf(),
            start < tokenizer.pos(),
            parse_equality(toks, start) == equality_rest(toks, node.ast(), tokenizer.pos()),
        decreases toks.len() - tokenizer.pos(),
    {
        if consume("==", tokenizer) {
            let rhs = match relational(tokenizer) {
                Ok(n) => n,
                Err(e) => return Err(e),
            };
            node = Node::new_binary_with_box(NodeKind::NdEq, node, rhs);
        } else if consume("!=", tokenizer) {
            let rhs = match relational(tokenizer) {
                Ok(n) => n,
                Err(e) => return Err(e),
            };
            node = Node::new_binary_with_box(NodeKind::NdNe, node, rhs);
        } else {
            return Ok(node);
        }
    }
}

pub fn relational(tokenizer: &mut TokenIter) -> (r: Result<Box<Node>, ParseError>)
    requires
        old(tokenizer).wf(),
    ensures
        final(tokenizer).wf(),
        final(tokenizer).toks() == old(tokenizer).toks(),
        parse_matches(r, old(tokenizer).toks(), parse_relational(old(tokenizer).toks(), old(tokenizer).pos()), final(tokenizer).pos()),
        r is Ok ==> old(tokenizer).pos() < final(tokenizer).pos(),
    decreases old(tokenizer).toks().len() - old(tokenizer).pos(), 7int,
{
    let ghost toks = tokenizer.toks();
    let ghost start = tokenizer.pos();
    let mut node = match crate::node::add(tokenizer) {
        Ok(n) => n,
        Err(e) => return Err(e),
    };
    loop
        invariant
            tokenizer.wf(),
            tokenizer.toks() == toks,
            toks == old(tokenizer).toks(),
            start == old(tokenizer).pos(),
            node.wf(),
            start < tokenizer.pos(),
            parse_relational(toks, start) == relational_rest(toks, node.ast(), tokenizer.pos()),
        decreases toks.len() - tokenizer.pos(),
    {
        // The four comparison spellings differ, so at most one of them matches.
        proof {
            reveal_strlit("<");
            reveal_strlit("<=");
            reveal_strlit(">");
            reveal_strlit(">=");
            assert("<"@.len() == 1);
            assert("<="@.len() == 2);
            assert("<"@[0] == '<');
        }
        if consume("<", tokenizer) {
            let rhs = match crate::node::add(tokenizer) {
                Ok(n) => n,
                Err(e) => return Err(e),
            };
            node = Node::new_binary_with_box(NodeKind::NdLt, node, rhs);
        } else if consume("<=", tokenizer) {
            let rhs = match crate::node::add(tokenizer) {
                Ok(n) => n,
                Err(e) => return Err(e),
            };
            node = Node::new_binary_with_box(NodeKind::NdLe, node, rhs);
        } else if consume(">", tokenizer) {
            let lhs = match crate::node::add(tokenizer) {
                Ok(n) => n,
                Err(e) => return Err(e),
            };
            node = Node::new_binary_with_box(NodeKind::NdLt, lhs, node);
        } else if consume(">=", tokenizer) {
            let lhs = match crate::node::add(tokenizer) {
                Ok(n) => n,
                Err(e) => return Err(e),
            };
            node = Node::new_binary_with_box(NodeKind::NdLe, lhs, node);
        } else {
            return Ok(node);
        }
    }
}

pub fn add(tokenizer: &mut TokenIter) -> (r: Result<Box<Node>, ParseError>)
    requires
        old(tokenizer).wf(),
    ensures
        final(tokenizer).wf(),
        final(tokenizer).toks() == old(tokenizer).toks(),
        parse_matches(r, old(tokenizer).toks(), parse_add(old(tokenizer).toks(), old(tokenizer).pos()), final(tokenizer).pos()),
        r is Ok ==> old(tokenizer).pos() < final(tokenizer).pos(),
    decreases old(tokenizer).toks().len() - old(tokenizer).pos(), 5int,
{
    let ghost toks = tokenizer.toks();
    let ghost start = tokenizer.pos();
    let mut node = match crate::node::mul(tokenizer) {
        Ok(n) => n,
        Err(e) => return Err(e),
    };
    loop
        invariant
            tokenizer.wf(),
            tokenizer.toks() == toks,
            toks == old(tokenizer).toks(),
            start == old(tokenizer).pos(),
            node.wf(),
            start < tokenizer.pos(),
            parse_add(toks, start) == add_rest(toks, node.ast(), tokenizer.pos()),
        decreases toks.len() - tokenizer.pos(),
    {
        if consume("+", tokenizer) {
            let rhs = match crate::node::mul(tokenizer) {
                Ok(n) => n,
                Err(e) => return Err(e),
            };
            node = Node::new_binary_with_box(NodeKind::NdADD, node, rhs);
        } else if consume("-", tokenizer) {
            let rhs = match crate::node::mul(tokenizer) {
                Ok(n) => n,
                Err(e) => return Err(e),
            };
            node = Node::new_binary_with_box(NodeKind::NdSub, node, rhs);
        } else {
            return Ok(node);
        }
    }
}

pub fn mul(tokenizer: &mut TokenIter) -> (r: Result<Box<Node>, ParseError>)
    requires
        old(tokenizer).wf(),
    ensures
        final(tokenizer).wf(),
        final(tokenizer).toks() == old(tokenizer).toks(),
        parse_matches(r, old(tokenizer).toks(), parse_mul(old(tokenizer).toks(), old(tokenizer).pos()), final(tokenizer).pos()),
        r is Ok ==> old(tokenizer).pos() < final(tokenizer).pos(),
    decreases old(tokenizer).toks().len() - old(tokenizer).pos(), 3int,
{
    let ghost toks = tokenizer.toks();
    let ghost start = tokenizer.pos();
    let mut node = match unary(tokenizer) {
        Ok(n) => n,
        Err(e) => return Err(e),
    };
    loop
        invariant
            tokenizer.wf(),
            tokenizer.toks() == toks,
            toks == old(tokenizer).toks(),
            start == old(tokenizer).pos(),
            node.wf(),
            start < tokenizer.pos(),
            parse_mul(toks, start) == mul_rest(toks, node.ast(), tokenizer.pos()),
        decreases toks.len() - tokenizer.pos(),
    {
        if consume("*", tokenizer) {
            let rhs = match unary(tokenizer) {
                Ok(n) => n,
                Err(e) => return Err(e),
            };
            node = Node::new_binary_with_box(NodeKind::NdMul, node, rhs);
        } else if consume("/", tokenizer) {
            let rhs = match unary(tokenizer) {
                Ok(n) => n,
                Err(e) => return Err(e),
            };
            node = Node::new_binary_with_box(NodeKind::NdDiv, node, rhs);
        } else {
            return Ok(node);
        }
    }
}

pub fn unary(tokenizer: &mut TokenIter) -> (r: Result<Box<Node>, ParseError>)
    requires
        old(tokenizer).wf(),
    ensures
        final(tokenizer).wf(),
        final(tokenizer).toks() == old(tokenizer).toks(),
        parse_matches(r, old(tokenizer).toks(), parse_unary(old(tokenizer).toks(), old(tokenizer).pos()), final(tokenizer).pos()),
        r is Ok ==> old(tokenizer).pos() < final(tokenizer).pos(),
    decreases old(tokenizer).toks().len() - old(tokenizer).pos(), 1int,
{
    if consume("+", tokenizer) {
        return primary(tokenizer);
    }
    if consume("-", tokenizer) {
        let rhs = match primary(tokenizer) {
            Ok(n) => n,
            Err(e) => return Err(e),
        };
        let zero = Node::new_num_node_with_box(String::from_str("0"));
        proof {
            reveal_strlit("0");
            assert("0"@ =~= zero_digits());
        }
        return Ok(Node::new_binary_with_box(NodeKind::NdSub, zero, rhs));
    }
    primary(tokenizer)
}

pub fn primary(tokenizer: &mut TokenIter) -> (r: Result<Box<Node>, ParseError>)
    requires
        old(tokenizer).wf(),
    ensures
        final(tokenizer).wf(),
        final(tokenizer).toks() == old(tokenizer).toks(),
        parse_matches(r, old(tokenizer).toks(), parse_primary(old(tokenizer).toks(), old(tokenizer).pos()), final(tokenizer).pos()),
        r is Ok ==> old(tokenizer).pos() < final(tokenizer).pos(),
    decreases old(tokenizer).toks().len() - old(tokenizer).pos(), 0int,
{
    if consume("(", tokenizer) {
        let node = match expr(tokenizer) {
            Ok(n) => n,
            Err(e) => return Err(e),
        };
        if consume(")", tokenizer) {
            return Ok(node);
        }
        return Err(fail(tokenizer, Expected::CloseParen));
    }
    let is_num = match tokenizer.peek() {
        Some(t) => t.token_kind == TokenKind::TkNum,
        None => false,
    };
    if is_num {
        match tokenizer.next() {
            Some(t) => Ok(Node::new_num_node_with_box(t.val)),
            None => Err(fail(tokenizer, Expected::Operand)),
        }
    } else {
        Err(fail(tokenizer, Expected::Operand))
    }
}

fn gen_into(node: &Node, out: &mut Vec<Instr>)
    requires
        node.wf(),
    ensures
        ops_of(final(out)@) == ops_of(old(out)@) + gen_spec(node.ast()),
    decreases node,
{
    match (&node.lhs, &node.rhs) {
        (Some(l), Some(r)) => {
            let ghost start = ops_of(out@);
            gen_into(l, out);
            gen_into(r, out);
            let ghost mid = ops_of(out@);
            out.push(Instr::PopSecondary);
            out.push(Instr::PopPrimary);
            out.push(Instr::Apply(node.node_kind));
            out.push(Instr::PushPrimary);
            proof {
                let tail = seq![Op::PopSecondary, Op::PopPrimary, Op::Apply(node.node_kind), Op::PushPrimary];
                assert(ops_of(out@) =~= mid + tail);
                assert(gen_spec(node.ast()) == gen_spec(l.ast()) + gen_spec(r.ast()) + tail);
                assert(start + (gen_spec(l.ast()) + gen_spec(r.ast()) + tail) =~= start + gen_spec(l.ast()) + gen_spec(r.ast()) + tail);
            }
        },
        _ => {
            match &node.val {
                Some(v) => {
                    let ghost start = ops_of(out@);
                    out.push(Instr::Push(v.clone()));
                    assert(ops_of(out@) =~= start + seq![Op::Push(v@)]);
                },
                None => {},
            }
        },
    }
}

/// The stack-machine code for the tree: post-order, left operand first.
pub fn gen(node: &Box<Node>) -> (r: Vec<Instr>)
    requires
        node.wf(),
    ensures
        ops_of(r@) == gen_spec(node.ast()),
{
    let mut out: Vec<Instr> = Vec::new();
    gen_into(node, &mut out);
    assert(ops_of(out@) =~= gen_spec(node.ast()));
    out
}

/// The label of a node: a name for an operator, the digits for a number.
pub open spec fn label_of(a: Ast) -> Seq<char> {
    match a {
        Ast::Num(d) => d,
        Ast::Bin(k, _, _) => match k {
            NodeKind::NdADD => "plus"@,
            NodeKind::NdSub => "sub"@,
            NodeKind::NdDiv => "div"@,
            NodeKind::NdMul => "mul"@,
            NodeKind::NdEq => "eq"@,
            NodeKind::NdNe => "ne"@,
            NodeKind::NdLe => "le"@,
            NodeKind::NdLt => "lt"@,
            NodeKind::NdNum => Seq::empty(),
        },
    }
}

/// The label of the node.
pub fn get_val(node: &Node) -> (r: String)
    requires
        node.wf(),
    ensures
        r@ == label_of(node.ast()),
{
    match node.kind() {
        NodeKind::NdADD => String::from_str("plus"),
        NodeKind::NdSub => String::from_str("sub"),
        NodeKind::NdDiv => String::from_str("div"),
        NodeKind::NdMul => String::from_str("mul"),
        NodeKind::NdEq => String::from_str("eq"),
        NodeKind::NdNe => String::from_str("ne"),
        NodeKind::NdLe => String::from_str("le"),
        NodeKind::NdLt => String::from_str("lt"),
        NodeKind::NdNum => match node.val() {
            Some(v) => v,
            None => String::new(),
        },
    }
}

impl Ast {
    /// A binary tree has one more number than it has operators.
    pub proof fn lemma_size(self)
        ensures
            self.size() == 2 * self.internal_count() + 1,
        decreases self,
    {
        if let Ast::Bin(_, l, r) = self {
            l.lemma_size();
            r.lemma_size();
        }
    }
}

/// The token is a parenthesis.
pub open spec fn is_paren(t: (TokenKind, Seq<char>)) -> bool {
    is_reserved(t, "("@) || is_reserved(t, ")"@)
}

/// The number of tokens in `[i, j)` that are not parentheses.
pub open spec fn weight(toks: Toks, i: int, j: int) -> int
    decreases j - i,
{
    if j <= i {
        0
    } else {
        weight(toks, i, j - 1) + if is_paren(toks[j - 1]) {
            0int
        } else {
            1int
        }
    }
}

/// An operand may start at `i`: it is the first token, or follows an
/// operator other than a closing parenthesis.
pub open spec fn operand_pos(toks: Toks, i: int) -> bool {
    i == 0 || (toks[i - 1].0 == TokenKind::TkReserved && toks[i - 1].1 != ")"@)
}

/// No `+` or `-` stands where an operand may start, so every sign in the
/// tokens is a binary operator.
pub open spec fn no_unary_sign(toks: Toks) -> bool {
    forall|i: int|
        0 <= i < toks.len() && operand_pos(toks, i) ==> !is_reserved(#[trigger] toks[i], "+"@)
            && !is_reserved(toks[i], "-"@)
}

proof fn lemma_weight_split(toks: Toks, i: int, j: int, k: int)
    requires
        i <= j <= k,
    ensures
        weight(toks, i, k) == weight(toks, i, j) + weight(toks, j, k),
    decreases k - j,
{
    if j < k {
        lemma_weight_split(toks, i, j, k - 1);
    }
}

proof fn lemma_vocab_distinct()
    ensures
        "("@ != ")"@,
        "+"@ != ")"@ && "+"@ != "("@,
        "-"@ != ")"@ && "-"@ != "("@,
        "*"@ != ")"@ && "*"@ != "("@,
        "/"@ != ")"@ && "/"@ != "("@,
        "=="@ != ")"@ && "=="@ != "("@,
        "!="@ != ")"@ && "!="@ != "("@,
        "<"@ != ")"@ && "<"@ != "("@,
        "<="@ != ")"@ && "<="@ != "("@,
        ">"@ != ")"@ && ">"@ != "("@,
        ">="@ != ")"@ && ">="@ != "("@,
{
    reveal_strlit("(");
    reveal_strlit(")");
    reveal_strlit("+");
    reveal_strlit("-");
    reveal_strlit("*");
    reveal_strlit("/");
    reveal_strlit("==");
    reveal_strlit("!=");
    reveal_strlit("<");
    reveal_strlit("<=");
    reveal_strlit(">");
    reveal_strlit(">=");
    assert("("@[0] != ")"@[0]);
    assert("+"@[0] != ")"@[0] && "+"@[0] != "("@[0]);
    assert("-"@[0] != ")"@[0] && "-"@[0] != "("@[0]);
    assert("*"@[0] != ")"@[0] && "*"@[0] != "("@[0]);
    assert("/"@[0] != ")"@[0] && "/"@[0] != "("@[0]);
    assert("=="@.len() != ")"@.len() && "!="@.len() != "("@.len());
    assert("<"@[0] != ")"@[0] && "<"@[0] != "("@[0]);
    assert("<="@.len() != ")"@.len() && ">="@.len() != "("@.len());
    assert(">"@[0] != ")"@[0] && ">"@[0] != "("@[0]);
}

/// A parse from `pos` that succeeds ends after `pos`, inside the tokens.
pub open spec fn advances(toks: Toks, pos: int, r: Parsed) -> bool {
    r matches Ok((a, q)) ==> pos < q <= toks.len()
}

/// A parse from `pos` that succeeds ends inside the tokens, not before `pos`.
pub open spec fn stays_within(toks: Toks, pos: int, r: Parsed) -> bool {
    r matches Ok((a, q)) ==> pos <= q <= toks.len()
}

/// A parse from `pos` that succeeds, started from a tree of size `base`,
/// ends at `q` with a tree of `base` plus one node per token in `[pos, q)`
/// that is not a parenthesis.
pub open spec fn counted(toks: Toks, pos: int, r: Parsed, base: int) -> bool {
    r matches Ok((a, q)) ==> pos <= q <= toks.len() && a.size() == base + weight(toks, pos, q)
}

proof fn lemma_op_step(toks: Toks, pos: int, op: Seq<char>, acc: Ast, r: Ast, q: int)
    requires
        0 <= pos < toks.len(),
        is_reserved(toks[pos], op),
        op != "("@,
        op != ")"@,
        pos + 1 <= q,
        r.size() == weight(toks, pos + 1, q),
    ensures
        operand_pos(toks, pos + 1),
        1 + acc.size() + r.size() == acc.size() + weight(toks, pos, q),
{
    lemma_weight_split(toks, pos, pos + 1, q);
    assert(weight(toks, pos, pos) == 0);
}

proof fn lemma_size_expr(toks: Toks, pos: int)
    requires
        0 <= pos <= toks.len(),
    ensures
        advances(toks, pos, parse_expr(toks, pos)),
        operand_pos(toks, pos) && no_unary_sign(toks) ==> counted(toks, pos, parse_expr(toks, pos), 0),
    decreases toks.len() - pos, 10int,
{
    lemma_size_equality(toks, pos);
}

proof fn lemma_size_equality(toks: Toks, pos: int)
    requires
        0 <= pos <= toks.len(),
    ensures
        advances(toks, pos, parse_equality(toks, pos)),
        operand_pos(toks, pos) && no_unary_sign(toks) ==> counted(toks, pos, parse_equality(toks, pos), 0),
    decreases toks.len() - pos, 9int,
{
    lemma_size_relational(toks, pos);
    if let Ok((l, q)) = parse_relational(toks, pos) {
        if within(toks, pos, q) {
            lemma_size_equality_rest(toks, l, q);
            if let Ok((a, q2)) = equality_rest(toks, l, q) {
                lemma_weight_split(toks, pos, q, q2);
            }
        }
    }
}

proof fn lemma_size_equality_rest(toks: Toks, acc: Ast, pos: int)
    requires
        0 <= pos <= toks.len(),
    ensures
        stays_within(toks, pos, equality_rest(toks, acc, pos)),
        no_unary_sign(toks) ==> counted(toks, pos, equality_rest(toks, acc, pos), acc.size() as int),
    decreases toks.len() - pos, 8int,
{
    lemma_vocab_distinct();
    assert(weight(toks, pos, pos) == 0);
    if tok_is(toks, pos, "=="@) || tok_is(toks, pos, "!="@) {
        let k = if tok_is(toks, pos, "=="@) { NodeKind::NdEq } else { NodeKind::NdNe };
        let op = if tok_is(toks, pos, "=="@) { "=="@ } else { "!="@ };
        assert(is_reserved(toks[pos], op));
        assert(operand_pos(toks, pos + 1));
        lemma_size_relational(toks, pos + 1);
        if let Ok((r, q)) = parse_relational(toks, pos + 1) {
            if within(toks, pos + 1, q) {
                if no_unary_sign(toks) {
                    lemma_op_step(toks, pos, op, acc, r, q);
                }
                let node = Ast::Bin(k, Box::new(acc), Box::new(r));
                lemma_size_equality_rest(toks, node, q);
                if let Ok((a, q2)) = equality_rest(toks, node, q) {
                    lemma_weight_split(toks, pos, q, q2);
                }
            }
        }
    }
}

proof fn lemma_size_relational(toks: Toks, pos: int)
    requires
        0 <= pos <= toks.len(),
    ensures
        advances(toks, pos, parse_relational(toks, pos)),
        operand_pos(toks, pos) && no_unary_sign(toks) ==> counted(toks, pos, parse_relational(toks, pos), 0),
    decreases toks.len() - pos, 7int,
{
    lemma_size_add(toks, pos);
    if let Ok((l, q)) = parse_add(toks, pos) {
        if within(toks, pos, q) {
            lemma_size_relational_rest(toks, l, q);
            if let Ok((a, q2)) = relational_rest(toks, l, q) {
                lemma_weight_split(toks, pos, q, q2);
            }
        }
    }
}

proof fn lemma_size_relational_rest(toks: Toks, acc: Ast, pos: int)
    requires
        0 <= pos <= toks.len(),
    ensures
        stays_within(toks, pos, relational_rest(toks, acc, pos)),
        no_unary_sign(toks) ==> counted(toks, pos, relational_rest(toks, acc, pos), acc.size() as int),
    decreases toks.len() - pos, 6int,
{
    lemma_vocab_distinct();
    assert(weight(toks, pos, pos) == 0);
    let lt = tok_is(toks, pos, "<"@);
    let le = tok_is(toks, pos, "<="@);
    let gt = tok_is(toks, pos, ">"@);
    let ge = tok_is(toks, pos, ">="@);
    if lt || le || gt || ge {
        let k = if lt || gt { NodeKind::NdLt } else { NodeKind::NdLe };
        let op = if lt { "<"@ } else if le { "<="@ } else if gt { ">"@ } else { ">="@ };
        assert(is_reserved(toks[pos], op));
        assert(operand_pos(toks, pos + 1));
        lemma_size_add(toks, pos + 1);
        if let Ok((r, q)) = parse_add(toks, pos + 1) {
            if within(toks, pos + 1, q) {
                if no_unary_sign(toks) {
                    lemma_op_step(toks, pos, op, acc, r, q);
                }
                let node = if lt || le {
                    Ast::Bin(k, Box::new(acc), Box::new(r))
                } else {
                    Ast::Bin(k, Box::new(r), Box::new(acc))
                };
                lemma_size_relational_rest(toks, node, q);
                if let Ok((a, q2)) = relational_rest(toks, node, q) {
                    lemma_weight_split(toks, pos, q, q2);
                }
            }
        }
    }
}

proof fn lemma_size_add(toks: Toks, pos: int)
    requires
        0 <= pos <= toks.len(),
    ensures
        advances(toks, pos, parse_add(toks, pos)),
        operand_pos(toks, pos) && no_unary_sign(toks) ==> counted(toks, pos, parse_add(toks, pos), 0),
    decreases toks.len() - pos, 5int,
{
    lemma_size_mul(toks, pos);
    if let Ok((l, q)) = parse_mul(toks, pos) {
        if within(toks, pos, q) {
            lemma_size_add_rest(toks, l, q);
            if let Ok((a, q2)) = add_rest(toks, l, q) {
                lemma_weight_split(toks, pos, q, q2);
            }
        }
    }
}

proof fn lemma_size_add_rest(toks: Toks, acc: Ast, pos: int)
    requires
        0 <= pos <= toks.len(),
    ensures
        stays_within(toks, pos, add_rest(toks, acc, pos)),
        no_unary_sign(toks) ==> counted(toks, pos, add_rest(toks, acc, pos), acc.size() as int),
    decreases toks.len() - pos, 4int,
{
    lemma_vocab_distinct();
    assert(weight(toks, pos, pos) == 0);
    if tok_is(toks, pos, "+"@) || tok_is(toks, pos, "-"@) {
        let k = if tok_is(toks, pos, "+"@) { NodeKind::NdADD } else { NodeKind::NdSub };
        let op = if tok_is(toks, pos, "+"@) { "+"@ } else { "-"@ };
        assert(is_reserved(toks[pos], op));
        assert(operand_pos(toks, pos + 1));
        lemma_size_mul(toks, pos + 1);
        if let Ok((r, q)) = parse_mul(toks, pos + 1) {
            if within(toks, pos + 1, q) {
                if no_unary_sign(toks) {
                    lemma_op_step(toks, pos, op, acc, r, q);
                }
                let node = Ast::Bin(k, Box::new(acc), Box::new(r));
                lemma_size_add_rest(toks, node, q);
                if let Ok((a, q2)) = add_rest(toks, node, q) {
                    lemma_weight_split(toks, pos, q, q2);
                }
            }
        }
    }
}

proof fn lemma_size_mul(toks: Toks, pos: int)
    requires
        0 <= pos <= toks.len(),
    ensures
        advances(toks, pos, parse_mul(toks, pos)),
        operand_pos(toks, pos) && no_unary_sign(toks) ==> counted(toks, pos, parse_mul(toks, pos), 0),
    decreases toks.len() - pos, 3int,
{
    lemma_size_unary(toks, pos);
    if let Ok((l, q)) = parse_unary(toks, pos) {
        if within(toks, pos, q) {
            lemma_size_mul_rest(toks, l, q);
            if let Ok((a, q2)) = mul_rest(toks, l, q) {
                lemma_weight_split(toks, pos, q, q2);
            }
        }
    }
}

proof fn lemma_size_mul_rest(toks: Toks, acc: Ast, pos: int)
    requires
        0 <= pos <= toks.len(),
    ensures
        stays_within(toks, pos, mul_rest(toks, acc, pos)),
        no_unary_sign(toks) ==> counted(toks, pos, mul_rest(toks, acc, pos), acc.size() as int),
    decreases toks.len() - pos, 2int,
{
    lemma_vocab_distinct();
    assert(weight(toks, pos, pos) == 0);
    if tok_is(toks, pos, "*"@) || tok_is(toks, pos, "/"@) {
        let k = if tok_is(toks, pos, "*"@) { NodeKind::NdMul } else { NodeKind::NdDiv };
        let op = if tok_is(toks, pos, "*"@) { "*"@ } else { "/"@ };
        assert(is_reserved(toks[pos], op));
        assert(operand_pos(toks, pos + 1));
        lemma_size_unary(toks, pos + 1);
        if let Ok((r, q)) = parse_unary(toks, pos + 1) {
            if within(toks, pos + 1, q) {
                if no_unary_sign(toks) {
                    lemma_op_step(toks, pos, op, acc, r, q);
                }
                let node = Ast::Bin(k, Box::new(acc), Box::new(r));
                lemma_size_mul_rest(toks, node, q);
                if let Ok((a, q2)) = mul_rest(toks, node, q) {
                    lemma_weight_split(toks, pos, q, q2);
                }
            }
        }
    }
}

proof fn lemma_size_unary(toks: Toks, pos: int)
    requires
        0 <= pos <= toks.len(),
    ensures
        advances(toks, pos, parse_unary(toks, pos)),
        operand_pos(toks, pos) && no_unary_sign(toks) ==> counted(toks, pos, parse_unary(toks, pos), 0),
    decreases toks.len() - pos, 1int,
{
    lemma_size_primary(toks, pos);
    if tok_is(toks, pos, "+"@) || tok_is(toks, pos, "-"@) {
        lemma_size_primary(toks, pos + 1);
    }
}

proof fn lemma_size_primary(toks: Toks, pos: int)
    requires
        0 <= pos <= toks.len(),
    ensures
        advances(toks, pos, parse_primary(toks, pos)),
        operand_pos(toks, pos) && no_unary_sign(toks) ==> counted(toks, pos, parse_primary(toks, pos), 0),
    decreases toks.len() - pos, 0int,
{
    lemma_vocab_distinct();
    if tok_is(toks, pos, "("@) {
        assert(operand_pos(toks, pos + 1));
        lemma_size_expr(toks, pos + 1);
        if let Ok((e, q)) = parse_expr(toks, pos + 1) {
            if tok_is(toks, q, ")"@) {
                lemma_weight_split(toks, pos, pos + 1, q);
                lemma_weight_split(toks, pos, q, q + 1);
                assert(weight(toks, pos, pos) == 0);
                assert(weight(toks, q, q) == 0);
            }
        }
    } else if 0 <= pos < toks.len() && toks[pos].0 == TokenKind::TkNum {
        assert(weight(toks, pos, pos) == 0);
        assert(!is_paren(toks[pos]));
    }
}

/// When no sign stands where an operand may start, the tree of a whole
/// token sequence has one node per token that is not a parenthesis.
pub proof fn lemma_tree_size_counts_tokens(toks: Toks, a: Ast)
    requires
        no_unary_sign(toks),
        parse_expr(toks, 0) == Ok::<(Ast, int), (int, Expected)>((a, toks.len() as int)),
    ensures
        a.size() == weight(toks, 0, toks.len() as int),
{
    lemma_size_expr(toks, 0);
}

/// Parsing never moves back: an expression parsed from `pos` ends after
/// `pos` and inside the tokens. So the `within` tests of the grammar always
/// hold, and only make its termination visible.
pub proof fn lemma_parse_advances(toks: Toks, pos: int)
    requires
        0 <= pos <= toks.len(),
    ensures
        advances(toks, pos, parse_expr(toks, pos)),
{
    lemma_size_expr(toks, pos);
}

} // verus!
