//! A debugging view of a syntax tree as a graph description: one line per
//! node, with its label, and one line per edge from parent to child.

use vstd::prelude::*;
use crate::compile::parse_full;
use crate::node::{get_val, label_of, lemma_tree_size_counts_tokens, no_unary_sign, weight, Ast, Expected, Node, Toks};

verus! {

pub open spec fn digit_char(d: nat) -> char {
    if d == 0 {
        '0'
    } else if d == 1 {
        '1'
    } else if d == 2 {
        '2'
    } else if d == 3 {
        '3'
    } else if d == 4 {
        '4'
    } else if d == 5 {
        '5'
    } else if d == 6 {
        '6'
    } else if d == 7 {
        '7'
    } else if d == 8 {
        '8'
    } else {
        '9'
    }
}

/// The decimal digits of `n`, most significant first, without sign or
/// leading zeros.
pub open spec fn decimal(n: nat) -> Seq<char>
    decreases n,
{
    if n < 10 {
        seq![digit_char(n)]
    } else {
        decimal(n / 10).push(digit_char(n % 10))
    }
}

/// Relies on `ToString::to_string` through `usize`'s `Display`, which writes
/// the number in decimal, with no sign, padding or leading zeros.
#[verifier::external_body]
fn decimal_text(n: usize) -> (r: String)
    ensures
        r@ == decimal(n as nat),
{
    n.to_string()
}

pub open spec fn node_line(id: nat, label: Seq<char>) -> Seq<char> {
    "  "@ + decimal(id) + " [ label = "@ + label + " ];"@
}

pub open spec fn edge_line(from: nat, to: nat) -> Seq<char> {
    "  "@ + decimal(from) + " -> "@ + decimal(to) + ";"@
}

/// The node lines and edge lines for the children of `a`, whose own number
/// is `parent`, and the counter after them. The right child takes the next
/// number and the left the one after; the right subtree is walked first.
pub open spec fn walk(a: Ast, parent: nat, counter: nat) -> (Seq<Seq<char>>, Seq<Seq<char>>, nat)
    decreases a,
{
    match a {
        Ast::Num(_) => (Seq::empty(), Seq::empty(), counter),
        Ast::Bin(_, l, r) => {
            let rc = counter + 1;
            let lc = counter + 2;
            let here_nodes = seq![node_line(lc, label_of(*l)), node_line(rc, label_of(*r))];
            let here_edges = seq![edge_line(parent, rc), edge_line(parent, lc)];
            let right = walk(*r, rc, lc);
            let left = walk(*l, lc, right.2);
            (here_nodes + right.0 + left.0, here_edges + right.1 + left.1, left.2)
        },
    }
}

/// The walk adds two nodes and two edges per operator, and moves the
/// counter by two per operator.
pub proof fn lemma_walk_counts(a: Ast, parent: nat, counter: nat)
    ensures
        walk(a, parent, counter).0.len() == 2 * a.internal_count(),
        walk(a, parent, counter).1.len() == 2 * a.internal_count(),
        walk(a, parent, counter).2 == counter + 2 * a.internal_count(),
    decreases a,
{
    if let Ast::Bin(_, l, r) = a {
        lemma_walk_counts(*r, counter + 1, counter + 2);
        lemma_walk_counts(*l, counter + 2, counter + 2 + 2 * r.internal_count());
    }
}

/// The lines joined with newlines between them.
pub open spec fn join_lines(lines: Seq<Seq<char>>) -> Seq<char>
    decreases lines.len(),
{
    if lines.len() == 0 {
        Seq::empty()
    } else if lines.len() == 1 {
        lines[0]
    } else {
        join_lines(lines.drop_last()) + "\n"@ + lines.last()
    }
}

/// The whole graph description.
pub open spec fn dot_text(nodes: Seq<Seq<char>>, edges: Seq<Seq<char>>) -> Seq<char> {
    join_lines(seq!["digraph ast_tree {"@, join_lines(nodes), join_lines(edges), "}"@])
}

pub open spec fn texts_of(v: Seq<String>) -> Seq<Seq<char>> {
    v.map_values(|s: String| s@)
}

fn make_dot_node(node_cnt: usize, node_val: String) -> (r: String)
    ensures
        r@ == node_line(node_cnt as nat, node_val@),
{
    let mut s = String::from_str("  ");
    let id = decimal_text(node_cnt);
    s.append(id.as_str());
    s.append(" [ label = ");
    s.append(node_val.as_str());
    s.append(" ];");
    s
}

fn make_dot_edge(source_cnt: usize, target_cnt: usize) -> (r: String)
    ensures
        r@ == edge_line(source_cnt as nat, target_cnt as nat),
{
    let mut s = String::from_str("  ");
    let from = decimal_text(source_cnt);
    let to = decimal_text(target_cnt);
    s.append(from.as_str());
    s.append(" -> ");
    s.append(to.as_str());
    s.append(";");
    s
}

fn join(lines: &Vec<String>) -> (r: String)
    ensures
        r@ == join_lines(texts_of(lines@)),
{
    let ghost ls = texts_of(lines@);
    let mut out = String::new();
    let mut i: usize = 0;
    assert(ls.take(0) =~= Seq::<Seq<char>>::empty());
    while i < lines.len()
        invariant
            ls == texts_of(lines@),
            i <= lines.len(),
            out@ == join_lines(ls.take(i as int)),
        decreases lines.len() - i,
    {
        assert(ls.take(i + 1).drop_last() =~= ls.take(i as int));
        assert(ls.take(i + 1).last() == lines@[i as int]@);
        if i > 0 {
            out.append("\n");
        } else {
            assert(out@ =~= Seq::<char>::empty());
            assert(Seq::<char>::empty() + lines@[0]@ =~= lines@[0]@);
        }
        out.append(lines[i].as_str());
        i += 1;
    }
    assert(ls.take(lines.len() as int) =~= ls);
    out
}

/// A graph description under construction: the numbers given out so far,
/// and the node and edge lines.
pub struct Dot {
    counter: usize,
    node_vec: Vec<String>,
    edge_vec: Vec<String>,
}

impl Dot {
    /// The last number given out.
    pub closed spec fn counter(&self) -> nat {
        self.counter as nat
    }

    pub closed spec fn nodes(&self) -> Seq<Seq<char>> {
        texts_of(self.node_vec@)
    }

    pub closed spec fn edges(&self) -> Seq<Seq<char>> {
        texts_of(self.edge_vec@)
    }

    pub fn new() -> (r: Self)
        ensures
            r.counter() == 0,
            r.nodes() == Seq::<Seq<char>>::empty(),
            r.edges() == Seq::<Seq<char>>::empty(),
    {
        let r = Dot { counter: 0, node_vec: Vec::new(), edge_vec: Vec::new() };
        assert(r.nodes() =~= Seq::<Seq<char>>::empty());
        assert(r.edges() =~= Seq::<Seq<char>>::empty());
        r
    }

    fn push_node(&mut self, line: String)
        ensures
            final(self).nodes() == old(self).nodes().push(line@),
            final(self).edges() == old(self).edges(),
            final(self).counter() == old(self).counter(),
    {
        self.node_vec.push(line);
        assert(self.nodes() =~= old(self).nodes().push(line@));
    }

    fn push_edge(&mut self, line: String)
        ensures
            final(self).edges() == old(self).edges().push(line@),
            final(self).nodes() == old(self).nodes(),
            final(self).counter() == old(self).counter(),
    {
        self.edge_vec.push(line);
        assert(self.edges() =~= old(self).edges().push(line@));
    }

    fn _rec_write(&mut self, node: &Box<Node>, pre_node_cnt: usize)
        requires
            node.wf(),
            old(self).counter() + 2 * node.ast().internal_count() <= usize::MAX,
        ensures
            final(self).nodes() == old(self).nodes() + walk(node.ast(), pre_node_cnt as nat, old(self).counter()).0,
            final(self).edges() == old(self).edges() + walk(node.ast(), pre_node_cnt as nat, old(self).counter()).1,
            final(self).counter() == walk(node.ast(), pre_node_cnt as nat, old(self).counter()).2,
        decreases node.ast(),
    {
        let lhs = node.lhs();
        let rhs = node.rhs();
        match (lhs, rhs) {
            (Some(lhs), Some(rhs)) => {
                let ghost a = node.ast();
                let ghost start_nodes = self.nodes();
                let ghost start_edges = self.edges();
                self.counter = self.counter + 1;
                let rhs_val = get_val(&rhs);
                let rhs_cnt = self.counter;
                let rhs_dot = make_dot_node(rhs_cnt, rhs_val);

                self.counter = self.counter + 1;
                let lhs_val = get_val(&lhs);
                let lhs_cnt = self.counter;
                let lhs_dot = make_dot_node(lhs_cnt, lhs_val);

                self.push_node(lhs_dot);
                self.push_node(rhs_dot);

                let edge_rhs = make_dot_edge(pre_node_cnt, rhs_cnt);
                let edge_lhs = make_dot_edge(pre_node_cnt, lhs_cnt);
                self.push_edge(edge_rhs);
                self.push_edge(edge_lhs);

                let ghost mid_nodes = self.nodes();
                let ghost mid_edges = self.edges();
                proof {
                    lemma_walk_counts(rhs.ast(), rhs_cnt as nat, lhs_cnt as nat);
                }
                self._rec_write(&rhs, rhs_cnt);
                let ghost right_nodes = self.nodes();
                let ghost right_edges = self.edges();
                self._rec_write(&lhs, lhs_cnt);
                proof {
                    let w = walk(a, pre_node_cnt as nat, old(self).counter());
                    let here_nodes = seq![node_line(lhs_cnt as nat, label_of(lhs.ast())), node_line(rhs_cnt as nat, label_of(rhs.ast()))];
                    let here_edges = seq![edge_line(pre_node_cnt as nat, rhs_cnt as nat), edge_line(pre_node_cnt as nat, lhs_cnt as nat)];
                    let right = walk(rhs.ast(), rhs_cnt as nat, lhs_cnt as nat);
                    let left = walk(lhs.ast(), lhs_cnt as nat, right.2);
                    assert(mid_nodes =~= start_nodes + here_nodes);
                    assert(mid_edges =~= start_edges + here_edges);
                    assert(self.nodes() =~= start_nodes + (here_nodes + right.0 + left.0));
                    assert(self.edges() =~= start_edges + (here_edges + right.1 + left.1));
                }
            },
            _ => {},
        }
    }

    /// The graph description of the tree: the root's line (when no node
    /// has been written yet), then the lines of the walk from the root.
    pub fn write(&mut self, node: &Box<Node>) -> (r: String)
        requires
            node.wf(),
            old(self).counter() + 2 * node.ast().internal_count() <= usize::MAX,
        ensures
            final(self).nodes() == old(self).nodes() + (if old(self).nodes().len() == 0 {
                seq![node_line(old(self).counter(), label_of(node.ast()))]
            } else {
                Seq::empty()
            }) + walk(node.ast(), old(self).counter(), old(self).counter()).0,
            final(self).edges() == old(self).edges() + walk(node.ast(), old(self).counter(), old(self).counter()).1,
            final(self).counter() == walk(node.ast(), old(self).counter(), old(self).counter()).2,
            r@ == dot_text(final(self).nodes(), final(self).edges()),
    {
        let ghost start_nodes = self.nodes();
        let root = self.counter;
        if self.node_vec.len() == 0 {
            let root_val = get_val(node);
            let root_dot = make_dot_node(root, root_val);
            self.push_node(root_dot);
        } else {
            assert(start_nodes + Seq::<Seq<char>>::empty() =~= start_nodes);
        }
        self._rec_write(node, root);
        let mut res: Vec<String> = Vec::new();
        res.push(String::from_str("digraph ast_tree {"));
        res.push(join(&self.node_vec));
        res.push(join(&self.edge_vec));
        res.push(String::from_str("}"));
        proof {
            assert(texts_of(res@) =~= seq!["digraph ast_tree {"@, join_lines(self.nodes()), join_lines(self.edges()), "}"@]);
            let ls = if start_nodes.len() == 0 {
                seq![node_line(old(self).counter(), label_of(node.ast()))]
            } else {
                Seq::empty()
            };
            assert(self.nodes() =~= start_nodes + ls + walk(node.ast(), old(self).counter(), old(self).counter()).0);
        }
        join(&res)
    }
}

/// The description of a tree by a fresh `Dot` has one node line per node
/// of the tree and two edge lines per operator.
pub proof fn lemma_dot_counts(a: Ast)
    ensures
        (seq![node_line(0, label_of(a))] + walk(a, 0, 0).0).len() == a.size(),
        walk(a, 0, 0).1.len() == 2 * a.internal_count(),
{
    lemma_walk_counts(a, 0, 0);
    a.lemma_size();
}

/// For an expression in which every `+` and `-` is a binary operator, a
/// fresh `Dot` writes one node line per token that is not a parenthesis,
/// and two edge lines per operator node.
pub proof fn lemma_dot_counts_tokens(toks: Toks, a: Ast)
    requires
        no_unary_sign(toks),
        parse_full(toks) == Ok::<Ast, (int, Expected)>(a),
    ensures
        (seq![node_line(0, label_of(a))] + walk(a, 0, 0).0).len() == weight(toks, 0, toks.len() as int),
        walk(a, 0, 0).1.len() == 2 * a.internal_count(),
{
    lemma_dot_counts(a);
    lemma_tree_size_counts_tokens(toks, a);
}

} // verus!
