//! The whole pipeline on one expression: scan, parse, generate code, and
//! run or render it.

use vstd::prelude::*;
use crate::machine::{eval, gen_spec, lemma_gen_matches_eval, ops_of, render, render_spec, run, texts_of, Fault, Instr};
use crate::node::{expr, gen, parse_expr, Ast, Expected, Node, ParseError, Toks};
use crate::token::{scan_spec, standard_words, tokenize_str, LexError};

verus! {

/// Why an expression could not be compiled or evaluated.
#[derive(Debug, Clone, PartialEq, Eq)]
pub enum ExprError {
    Lex(LexError),
    Parse(ParseError),
    Fault(Fault),
}

/// The tree for a whole token sequence: one expression that takes every
/// token.
pub open spec fn parse_full(toks: Toks) -> Result<Ast, (int, Expected)> {
    match parse_expr(toks, 0) {
        Ok((a, q)) => if q == toks.len() {
            Ok(a)
        } else {
            Err((q, Expected::End))
        },
        Err(f) => Err(f),
    }
}

/// `r` is what the front end gives on the text `s`: the tree, or the
/// scanner's error, or the parser's.
pub open spec fn front_matches(r: Result<Ast, ExprError>, s: Seq<char>) -> bool {
    let scanned = scan_spec(standard_words(), s);
    match r {
        Ok(a) => scanned is Ok && parse_full(scanned->Ok_0) == Ok::<Ast, (int, Expected)>(a),
        Err(ExprError::Lex(e)) => scanned == Err::<Toks, nat>(e.position as nat),
        Err(ExprError::Parse(e)) => scanned is Ok && match parse_full(scanned->Ok_0) {
            Err(f) => e.describes(scanned->Ok_0, f),
            Ok(_) => false,
        },
        Err(ExprError::Fault(_)) => false,
    }
}

pub open spec fn tree_of(r: Result<Box<Node>, ExprError>) -> Result<Ast, ExprError> {
    match r {
        Ok(n) => Ok(n.ast()),
        Err(e) => Err(e),
    }
}

/// Scans and parses `s`, which must be one whole expression.
pub fn parse_program(s: &str) -> (r: Result<Box<Node>, ExprError>)
    ensures
        front_matches(tree_of(r), s@),
        r matches Ok(n) ==> n.wf(),
{
    let mut it = match tokenize_str(s) {
        Ok(it) => it,
        Err(e) => return Err(ExprError::Lex(e)),
    };
    let node = match expr(&mut it) {
        Ok(n) => n,
        Err(e) => return Err(ExprError::Parse(e)),
    };
    match it.peek() {
        Some(t) => Err(
            ExprError::Parse(
                ParseError::UnexpectedToken {
                    position: it.position(),
                    token: t.duplicate(),
                    expected: Expected::End,
                },
            ),
        ),
        None => Ok(node),
    }
}

/// The stack-machine code for the expression `s`.
pub fn compile(s: &str) -> (r: Result<Vec<Instr>, ExprError>)
    ensures
        match r {
            Ok(code) => exists|a: Ast| front_matches(Ok(a), s@) && ops_of(code@) == gen_spec(a),
            Err(e) => front_matches(Err(e), s@),
        },
{
    match parse_program(s) {
        Ok(n) => {
            let code = gen(&n);
            assert(front_matches(Ok(n.ast()), s@));
            Ok(code)
        },
        Err(e) => Err(e),
    }
}

/// The assembly lines for the expression `s`, without the program's
/// entry and exit.
pub fn assemble(s: &str) -> (r: Result<Vec<String>, ExprError>)
    ensures
        match r {
            Ok(lines) => exists|a: Ast| front_matches(Ok(a), s@) && texts_of(lines@) == render_spec(gen_spec(a)),
            Err(e) => front_matches(Err(e), s@),
        },
{
    match parse_program(s) {
        Ok(n) => {
            let code = gen(&n);
            let lines = render(&code);
            assert(front_matches(Ok(n.ast()), s@));
            Ok(lines)
        },
        Err(e) => Err(e),
    }
}

/// The value of the expression `s`, found by running its generated code.
pub fn evaluate(s: &str) -> (r: Result<i64, ExprError>)
    ensures
        match r {
            Ok(v) => exists|a: Ast| front_matches(Ok(a), s@) && eval(a) == Ok::<int, Fault>(v as int),
            Err(ExprError::Fault(f)) => exists|a: Ast| front_matches(Ok(a), s@) && eval(a) == Err::<int, Fault>(f),
            Err(e) => front_matches(Err(e), s@),
        },
{
    match parse_program(s) {
        Ok(n) => {
            let code = gen(&n);
            proof {
                lemma_gen_matches_eval(n.ast());
            }
            assert(front_matches(Ok(n.ast()), s@));
            match run(&code) {
                Ok(v) => Ok(v),
                Err(f) => Err(ExprError::Fault(f)),
            }
        },
        Err(e) => Err(e),
    }
}

} // verus!
