//! The stack machine the compiler targets: its instructions, what running
//! them does, and an interpreter for them.

use vstd::prelude::*;
use crate::node::{Ast, NodeKind};
use crate::token::{char_is_digit, is_digit};

verus! {

/// Why a run of the machine stops without a result.
#[derive(Debug, Clone, Copy, PartialEq, Eq, Structural)]
pub enum Fault {
    /// A division whose divisor is zero.
    DivideByZero,
    /// A value that does not fit in a signed 64-bit register.
    Overflow,
    /// A pop from an empty stack.
    StackUnderflow,
    /// A constant that is not a string of decimal digits.
    BadLiteral,
    /// An operation on the number kind, which names no operator.
    BadOperator,
    /// The program ended with other than exactly one value on the stack.
    StackImbalance,
}

/// One machine instruction. The machine has an operand stack and two
/// registers, the primary and the secondary.
#[derive(Debug, Clone, PartialEq, Eq)]
pub enum Instr {
    /// Push the constant with these decimal digits.
    Push(String),
    /// Pop into the secondary register.
    PopSecondary,
    /// Pop into the primary register.
    PopPrimary,
    /// Combine primary and secondary, in that order, into the primary.
    Apply(NodeKind),
    /// Push the primary register.
    PushPrimary,
}

/// The mathematical form of an instruction.
pub enum Op {
    Push(Seq<char>),
    PopSecondary,
    PopPrimary,
    Apply(NodeKind),
    PushPrimary,
}

impl View for Instr {
    type V = Op;

    open spec fn view(&self) -> Op {
        match self {
            Instr::Push(d) => Op::Push(d@),
            Instr::PopSecondary => Op::PopSecondary,
            Instr::PopPrimary => Op::PopPrimary,
            Instr::Apply(k) => Op::Apply(*k),
            Instr::PushPrimary => Op::PushPrimary,
        }
    }
}

pub open spec fn ops_of(v: Seq<Instr>) -> Seq<Op> {
    v.map_values(|i: Instr| i@)
}

/// A nonempty string of decimal digits.
pub open spec fn is_numeral(d: Seq<char>) -> bool {
    d.len() > 0 && forall|j: int| 0 <= j < d.len() ==> is_digit(#[trigger] d[j])
}

pub open spec fn digit_value(c: char) -> int {
    c as int - '0' as int
}

/// The number that the decimal digits `d` write.
pub open spec fn numeral_value(d: Seq<char>) -> int
    decreases d.len(),
{
    if d.len() == 0 {
        0
    } else {
        numeral_value(d.drop_last()) * 10 + digit_value(d.last())
    }
}

/// The value fits in a signed 64-bit register.
pub open spec fn fits(v: int) -> bool {
    i64::MIN <= v <= i64::MAX
}

/// The value of a constant with the digits `d`.
pub open spec fn literal_value(d: Seq<char>) -> Result<int, Fault> {
    if !is_numeral(d) {
        Err(Fault::BadLiteral)
    } else if !fits(numeral_value(d)) {
        Err(Fault::Overflow)
    } else {
        Ok(numeral_value(d))
    }
}

pub open spec fn abs(a: int) -> int {
    if a < 0 {
        -a
    } else {
        a
    }
}

/// Division whose quotient is rounded toward zero.
pub open spec fn trunc_div(a: int, b: int) -> int {
    if (a < 0) == (b < 0) {
        abs(a) / abs(b)
    } else {
        -(abs(a) / abs(b))
    }
}

/// The operator `k` on `a` and `b`; comparisons give 1 for true and 0 for
/// false.
pub open spec fn apply_op(k: NodeKind, a: int, b: int) -> Result<int, Fault> {
    let v = match k {
        NodeKind::NdADD => a + b,
        NodeKind::NdSub => a - b,
        NodeKind::NdMul => a * b,
        NodeKind::NdDiv => if b == 0 { 0 } else { trunc_div(a, b) },
        NodeKind::NdEq => if a == b { 1 } else { 0 },
        NodeKind::NdNe => if a != b { 1 } else { 0 },
        NodeKind::NdLt => if a < b { 1 } else { 0 },
        NodeKind::NdLe => if a <= b { 1 } else { 0 },
        NodeKind::NdNum => 0,
    };
    if k == NodeKind::NdNum {
        Err(Fault::BadOperator)
    } else if k == NodeKind::NdDiv && b == 0 {
        Err(Fault::DivideByZero)
    } else if !fits(v) {
        Err(Fault::Overflow)
    } else {
        Ok(v)
    }
}

/// The value of a tree on 64-bit signed integers: left operand first, then
/// right, then the operator; the first fault met is the outcome.
pub open spec fn eval(a: Ast) -> Result<int, Fault>
    decreases a,
{
    match a {
        Ast::Num(d) => literal_value(d),
        Ast::Bin(k, l, r) => match eval(*l) {
            Err(f) => Err(f),
            Ok(x) => match eval(*r) {
                Err(f) => Err(f),
                Ok(y) => apply_op(k, x, y),
            },
        },
    }
}

/// The machine's state: the stack, bottom first, and the two registers.
pub struct MState {
    pub stack: Seq<int>,
    pub primary: int,
    pub secondary: int,
}

pub open spec fn initial_state() -> MState {
    MState { stack: Seq::empty(), primary: 0, secondary: 0 }
}

/// One step of the machine.
pub open spec fn step(st: MState, op: Op) -> Result<MState, Fault> {
    match op {
        Op::Push(d) => match literal_value(d) {
            Ok(v) => Ok(MState { stack: st.stack.push(v), ..st }),
            Err(f) => Err(f),
        },
        Op::PopSecondary => if st.stack.len() == 0 {
            Err(Fault::StackUnderflow)
        } else {
            Ok(MState { stack: st.stack.drop_last(), secondary: st.stack.last(), ..st })
        },
        Op::PopPrimary => if st.stack.len() == 0 {
            Err(Fault::StackUnderflow)
        } else {
            Ok(MState { stack: st.stack.drop_last(), primary: st.stack.last(), ..st })
        },
        Op::Apply(k) => match apply_op(k, st.primary, st.secondary) {
            Ok(v) => Ok(MState { primary: v, ..st }),
            Err(f) => Err(f),
        },
        Op::PushPrimary => Ok(MState { stack: st.stack.push(st.primary), ..st }),
    }
}

/// Runs the instructions of `ops` from index `i` on, from the state `st`.
pub open spec fn exec_from(ops: Seq<Op>, i: int, st: MState) -> Result<MState, Fault>
    decreases ops.len() - i,
{
    if i < 0 || i >= ops.len() {
        Ok(st)
    } else {
        match step(st, ops[i]) {
            Ok(next) => exec_from(ops, i + 1, next),
            Err(f) => Err(f),
        }
    }
}

/// The outcome of running a whole program from the empty machine: the one
/// value left on the stack.
pub open spec fn run_spec(ops: Seq<Op>) -> Result<int, Fault> {
    match exec_from(ops, 0, initial_state()) {
        Ok(st) => if st.stack.len() == 1 {
            Ok(st.stack[0])
        } else {
            Err(Fault::StackImbalance)
        },
        Err(f) => Err(f),
    }
}

/// The code for a tree, in post-order: the left operand's code, the right
/// operand's, then pop the right value into the secondary register and the
/// left into the primary, apply the operator, and push the result.
pub open spec fn gen_spec(a: Ast) -> Seq<Op>
    decreases a,
{
    match a {
        Ast::Num(d) => seq![Op::Push(d)],
        Ast::Bin(k, l, r) => gen_spec(*l) + gen_spec(*r) + seq![
            Op::PopSecondary,
            Op::PopPrimary,
            Op::Apply(k),
            Op::PushPrimary,
        ],
    }
}

/// Running `x + y` runs `x`, then `y` from where `x` left the machine.
pub proof fn lemma_exec_concat(x: Seq<Op>, y: Seq<Op>, i: int, st: MState)
    requires
        0 <= i <= x.len(),
    ensures
        exec_from(x + y, i, st) == match exec_from(x, i, st) {
            Ok(mid) => exec_from(y, 0, mid),
            Err(f) => Err(f),
        },
    decreases x.len() - i,
{
    if i < x.len() {
        assert((x + y)[i] == x[i]);
        match step(st, x[i]) {
            Ok(next) => lemma_exec_concat(x, y, i + 1, next),
            Err(_) => {},
        }
    } else {
        lemma_exec_shift(x, y, 0, st);
    }
}

proof fn lemma_exec_shift(x: Seq<Op>, y: Seq<Op>, j: int, st: MState)
    requires
        0 <= j <= y.len(),
    ensures
        exec_from(x + y, x.len() + j, st) == exec_from(y, j, st),
    decreases y.len() - j,
{
    if j < y.len() {
        assert((x + y)[x.len() + j] == y[j]);
        match step(st, y[j]) {
            Ok(next) => lemma_exec_shift(x, y, j + 1, next),
            Err(_) => {},
        }
    }
}

proof fn lemma_gen_literal(d: Seq<char>, st: MState)
    ensures
        literal_value(d) is Ok ==> exec_from(seq![Op::Push(d)], 0, st) is Ok && exec_from(seq![Op::Push(d)], 0, st)->Ok_0.stack
            == st.stack.push(literal_value(d)->Ok_0),
        literal_value(d) is Err ==> exec_from(seq![Op::Push(d)], 0, st) == Err::<MState, Fault>(literal_value(d)->Err_0),
{
    let ops = seq![Op::Push(d)];
    assert(ops[0] == Op::Push(d));
    match step(st, Op::Push(d)) {
        Ok(next) => {
            assert(exec_from(ops, 1, next) == Ok::<MState, Fault>(next));
        },
        Err(f) => {},
    }
}

/// Running the code of `a` on any state pushes the value of `a`, and keeps
/// the stack below it; or stops with the fault that evaluating `a` meets.
pub proof fn lemma_gen_pushes_value(a: Ast, st: MState)
    ensures
        eval(a) is Ok ==> exec_from(gen_spec(a), 0, st) is Ok && exec_from(gen_spec(a), 0, st)->Ok_0.stack
            == st.stack.push(eval(a)->Ok_0),
        eval(a) is Err ==> exec_from(gen_spec(a), 0, st) == Err::<MState, Fault>(eval(a)->Err_0),
    decreases a,
{
    match a {
        Ast::Num(d) => {
            lemma_gen_literal(d, st);
        },
        Ast::Bin(k, l, r) => {
            let gl = gen_spec(*l);
            let gr = gen_spec(*r);
            let tail = seq![Op::PopSecondary, Op::PopPrimary, Op::Apply(k), Op::PushPrimary];
            lemma_exec_concat(gl + gr, tail, 0, st);
            lemma_exec_concat(gl, gr, 0, st);
            lemma_gen_pushes_value(*l, st);
            assert(gen_spec(a) == gl + gr + tail);
            match eval(*l) {
                Err(_) => {},
                Ok(x) => {
                    let s1 = exec_from(gl, 0, st)->Ok_0;
                    lemma_gen_pushes_value(*r, s1);
                    match eval(*r) {
                        Err(_) => {},
                        Ok(y) => {
                            let s2 = exec_from(gr, 0, s1)->Ok_0;
                            assert(exec_from(gl + gr, 0, st) == Ok::<MState, Fault>(s2));
                            assert(tail.len() == 4);
                            assert(s2.stack.last() == y);
                            assert(s2.stack.drop_last().last() == x);
                            let s3 = MState { stack: s2.stack.drop_last(), secondary: y, ..s2 };
                            let s4 = MState { stack: s3.stack.drop_last(), primary: x, ..s3 };
                            assert(step(s2, tail[0]) == Ok::<MState, Fault>(s3));
                            assert(step(s3, tail[1]) == Ok::<MState, Fault>(s4));
                            assert(s4.stack =~= st.stack);
                            match apply_op(k, x, y) {
                                Ok(v) => {
                                    let s5 = MState { primary: v, ..s4 };
                                    let s6 = MState { stack: s5.stack.push(v), ..s5 };
                                    assert(step(s4, tail[2]) == Ok::<MState, Fault>(s5));
                                    assert(step(s5, tail[3]) == Ok::<MState, Fault>(s6));
                                    assert(exec_from(tail, 4, s6) == Ok::<MState, Fault>(s6));
                                    assert(exec_from(tail, 3, s5) == Ok::<MState, Fault>(s6));
                                    assert(exec_from(tail, 2, s4) == Ok::<MState, Fault>(s6));
                                    assert(exec_from(tail, 1, s3) == Ok::<MState, Fault>(s6));
                                    assert(exec_from(tail, 0, s2) == Ok::<MState, Fault>(s6));
                                },
                                Err(f) => {
                                    assert(step(s4, tail[2]) == Err::<MState, Fault>(f));
                                    assert(exec_from(tail, 2, s4) == Err::<MState, Fault>(f));
                                    assert(exec_from(tail, 1, s3) == Err::<MState, Fault>(f));
                                    assert(exec_from(tail, 0, s2) == Err::<MState, Fault>(f));
                                },
                            }
                        },
                    }
                },
            }
        },
    }
}

/// The generated code computes what the tree evaluates to: running it from
/// the empty machine leaves exactly the tree's value, and a fault in the
/// run is the fault that evaluation meets.
pub proof fn lemma_gen_matches_eval(a: Ast)
    ensures
        run_spec(gen_spec(a)) == eval(a),
{
    lemma_gen_pushes_value(a, initial_state());
    match eval(a) {
        Ok(v) => {
            let st = exec_from(gen_spec(a), 0, initial_state())->Ok_0;
            assert(st.stack =~= seq![v]);
        },
        Err(_) => {},
    }
}

proof fn lemma_numeral_prefix_grows(d: Seq<char>, j: int, k: int)
    requires
        0 <= j <= k <= d.len(),
        forall|i: int| 0 <= i < d.len() ==> is_digit(#[trigger] d[i]),
    ensures
        numeral_value(d.take(j)) <= numeral_value(d.take(k)),
        0 <= numeral_value(d.take(j)),
    decreases k,
{
    if j < k {
        lemma_numeral_prefix_grows(d, j, k - 1);
        assert(d.take(k).drop_last() =~= d.take(k - 1));
        assert(d.take(k).last() == d[k - 1]);
    } else if k > 0 {
        lemma_numeral_prefix_grows(d, k - 1, k - 1);
        assert(d.take(k).drop_last() =~= d.take(k - 1));
        assert(d.take(k).last() == d[k - 1]);
    }
}

/// The value of the constant with the digits `d`.
fn literal(d: &String) -> (r: Result<i64, Fault>)
    ensures
        match r {
            Ok(v) => literal_value(d@) == Ok::<int, Fault>(v as int),
            Err(f) => literal_value(d@) == Err::<int, Fault>(f),
        },
{
    let s = d.as_str();
    let n = s.unicode_len();
    if n == 0 {
        return Err(Fault::BadLiteral);
    }
    let mut i: usize = 0;
    while i < n
        invariant
            n == s@.len(),
            s@ == d@,
            i <= n,
            forall|j: int| 0 <= j < i ==> is_digit(#[trigger] s@[j]),
        decreases n - i,
    {
        if !char_is_digit(s.get_char(i)) {
            return Err(Fault::BadLiteral);
        }
        i += 1;
    }
    let mut acc: i64 = 0;
    i = 0;
    while i < n
        invariant
            n == s@.len(),
            s@ == d@,
            i <= n,
            is_numeral(s@),
            acc as int == numeral_value(s@.take(i as int)),
        decreases n - i,
    {
        let c = s.get_char(i);
        let dv = (c as u32 - '0' as u32) as i64;
        assert(s@.take(i + 1).drop_last() =~= s@.take(i as int));
        assert(s@.take(i + 1).last() == c);
        proof {
            lemma_numeral_prefix_grows(s@, i + 1, n as int);
            assert(s@.take(n as int) =~= s@);
        }
        match acc.checked_mul(10) {
            Some(m) => match m.checked_add(dv) {
                Some(v) => {
                    acc = v;
                },
                None => {
                    return Err(Fault::Overflow);
                },
            },
            None => {
                proof {
                    lemma_numeral_prefix_grows(s@, i as int, i + 1);
                }
                return Err(Fault::Overflow);
            },
        }
        i += 1;
    }
    assert(s@.take(n as int) =~= s@);
    Ok(acc)
}

/// The operator `k` on `a` and `b`, on 64-bit registers.
fn apply_exec(k: NodeKind, a: i64, b: i64) -> (r: Result<i64, Fault>)
    ensures
        match r {
            Ok(v) => apply_op(k, a as int, b as int) == Ok::<int, Fault>(v as int),
            Err(f) => apply_op(k, a as int, b as int) == Err::<int, Fault>(f),
        },
{
    match k {
        NodeKind::NdADD => match a.checked_add(b) {
            Some(v) => Ok(v),
            None => Err(Fault::Overflow),
        },
        NodeKind::NdSub => match a.checked_sub(b) {
            Some(v) => Ok(v),
            None => Err(Fault::Overflow),
        },
        NodeKind::NdMul => match a.checked_mul(b) {
            Some(v) => Ok(v),
            None => Err(Fault::Overflow),
        },
        NodeKind::NdDiv => {
            if b == 0 {
                Err(Fault::DivideByZero)
            } else {
                match a.checked_div(b) {
                    Some(v) => Ok(v),
                    None => Err(Fault::Overflow),
                }
            }
        },
        NodeKind::NdEq => Ok(if a == b { 1 } else { 0 }),
        NodeKind::NdNe => Ok(if a != b { 1 } else { 0 }),
        NodeKind::NdLt => Ok(if a < b { 1 } else { 0 }),
        NodeKind::NdLe => Ok(if a <= b { 1 } else { 0 }),
        NodeKind::NdNum => Err(Fault::BadOperator),
    }
}

pub open spec fn ints_of(v: Seq<i64>) -> Seq<int> {
    v.map_values(|x: i64| x as int)
}

/// Runs the program from the empty machine and returns the one value it
/// leaves on the stack, or the fault that stopped it.
pub fn run(program: &Vec<Instr>) -> (r: Result<i64, Fault>)
    ensures
        match r {
            Ok(v) => run_spec(ops_of(program@)) == Ok::<int, Fault>(v as int),
            Err(f) => run_spec(ops_of(program@)) == Err::<int, Fault>(f),
        },
{
    let ghost ops = ops_of(program@);
    let mut stack: Vec<i64> = Vec::new();
    let mut primary: i64 = 0;
    let mut secondary: i64 = 0;
    let mut i: usize = 0;
    assert(ints_of(stack@) =~= Seq::<int>::empty());
    while i < program.len()
        invariant
            ops == ops_of(program@),
            i <= program.len(),
            exec_from(ops, 0, initial_state()) == exec_from(
                ops,
                i as int,
                MState { stack: ints_of(stack@), primary: primary as int, secondary: secondary as int },
            ),
        decreases program.len() - i,
    {
        let ghost st = MState { stack: ints_of(stack@), primary: primary as int, secondary: secondary as int };
        assert(ops[i as int] == program@[i as int]@);
        match &program[i] {
            Instr::Push(d) => match literal(d) {
                Ok(v) => {
                    stack.push(v);
                    assert(ints_of(stack@) =~= st.stack.push(v as int));
                },
                Err(f) => {
                    return Err(f);
                },
            },
            Instr::PopSecondary => match stack.pop() {
                Some(v) => {
                    secondary = v;
                    assert(ints_of(stack@) =~= st.stack.drop_last());
                },
                None => {
                    return Err(Fault::StackUnderflow);
                },
            },
            Instr::PopPrimary => match stack.pop() {
                Some(v) => {
                    primary = v;
                    assert(ints_of(stack@) =~= st.stack.drop_last());
                },
                None => {
                    return Err(Fault::StackUnderflow);
                },
            },
            Instr::Apply(k) => match apply_exec(*k, primary, secondary) {
                Ok(v) => {
                    primary = v;
                },
                Err(f) => {
                    return Err(f);
                },
            },
            Instr::PushPrimary => {
                stack.push(primary);
                assert(ints_of(stack@) =~= st.stack.push(primary as int));
            },
        }
        i += 1;
    }
    let ghost fin = MState { stack: ints_of(stack@), primary: primary as int, secondary: secondary as int };
    assert(exec_from(ops, i as int, fin) == Ok::<MState, Fault>(fin));
    if stack.len() == 1 {
        Ok(stack[0])
    } else {
        Err(Fault::StackImbalance)
    }
}

/// The assembly lines of one instruction. The primary register is `rax` and
/// the secondary `rdi`; division sign-extends `rax` into `rdx:rax` first,
/// and a comparison sets `rax` to 1 or 0.
pub open spec fn asm_of(op: Op) -> Seq<Seq<char>> {
    match op {
        Op::Push(d) => seq!["  push "@ + d],
        Op::PopSecondary => seq!["  pop rdi"@],
        Op::PopPrimary => seq!["  pop rax"@],
        Op::PushPrimary => seq!["  push rax"@],
        Op::Apply(k) => match k {
            NodeKind::NdADD => seq!["  add rax, rdi"@],
            NodeKind::NdSub => seq!["  sub rax, rdi"@],
            NodeKind::NdMul => seq!["  imul rax, rdi"@],
            NodeKind::NdDiv => seq!["  cqo"@, "  idiv rdi"@],
            NodeKind::NdEq => seq!["  cmp rax, rdi"@, "  sete al"@, "  movzb rax, al"@],
            NodeKind::NdNe => seq!["  cmp rax, rdi"@, "  setne al"@, "  movzb rax, al"@],
            NodeKind::NdLt => seq!["  cmp rax, rdi"@, "  setl al"@, "  movzb rax, al"@],
            NodeKind::NdLe => seq!["  cmp rax, rdi"@, "  setle al"@, "  movzb rax, al"@],
            NodeKind::NdNum => Seq::empty(),
        },
    }
}

/// The assembly lines of a program, instruction after instruction.
pub open spec fn render_spec(ops: Seq<Op>) -> Seq<Seq<char>>
    decreases ops.len(),
{
    if ops.len() == 0 {
        Seq::empty()
    } else {
        render_spec(ops.drop_last()) + asm_of(ops.last())
    }
}

pub open spec fn texts_of(v: Seq<String>) -> Seq<Seq<char>> {
    v.map_values(|s: String| s@)
}

fn push_line(out: &mut Vec<String>, line: &str)
    ensures
        texts_of(final(out)@) == texts_of(old(out)@).push(line@),
{
    let ghost before = texts_of(out@);
    out.push(String::from_str(line));
    assert(texts_of(out@) =~= before.push(line@));
}

fn push_compare(out: &mut Vec<String>, set: &str)
    ensures
        texts_of(final(out)@) == texts_of(old(out)@) + seq!["  cmp rax, rdi"@, set@, "  movzb rax, al"@],
{
    let ghost before = texts_of(out@);
    push_line(out, "  cmp rax, rdi");
    push_line(out, set);
    push_line(out, "  movzb rax, al");
    assert(texts_of(out@) =~= before + seq!["  cmp rax, rdi"@, set@, "  movzb rax, al"@]);
}

impl Instr {
    /// Appends the assembly lines of the instruction to `out`.
    pub fn write_asm(&self, out: &mut Vec<String>)
        ensures
            texts_of(final(out)@) == texts_of(old(out)@) + asm_of(self@),
    {
        let ghost before = texts_of(out@);
        match self {
            Instr::Push(d) => {
                let mut line = String::from_str("  push ");
                line.append(d.as_str());
                out.push(line);
            },
            Instr::PopSecondary => push_line(out, "  pop rdi"),
            Instr::PopPrimary => push_line(out, "  pop rax"),
            Instr::PushPrimary => push_line(out, "  push rax"),
            Instr::Apply(k) => match k {
                NodeKind::NdADD => push_line(out, "  add rax, rdi"),
                NodeKind::NdSub => push_line(out, "  sub rax, rdi"),
                NodeKind::NdMul => push_line(out, "  imul rax, rdi"),
                NodeKind::NdDiv => {
                    push_line(out, "  cqo");
                    push_line(out, "  idiv rdi");
                },
                NodeKind::NdEq => push_compare(out, "  sete al"),
                NodeKind::NdNe => push_compare(out, "  setne al"),
                NodeKind::NdLt => push_compare(out, "  setl al"),
                NodeKind::NdLe => push_compare(out, "  setle al"),
                NodeKind::NdNum => {},
            },
        }
        assert(texts_of(out@) =~= before + asm_of(self@));
    }
}

/// The assembly text of a program, one line per element.
pub fn render(program: &Vec<Instr>) -> (r: Vec<String>)
    ensures
        texts_of(r@) == render_spec(ops_of(program@)),
{
    let ghost ops = ops_of(program@);
    let mut out: Vec<String> = Vec::new();
    let mut i: usize = 0;
    assert(texts_of(out@) =~= render_spec(ops.take(0)));
    while i < program.len()
        invariant
            ops == ops_of(program@),
            i <= program.len(),
            texts_of(out@) == render_spec(ops.take(i as int)),
        decreases program.len() - i,
    {
        program[i].write_asm(&mut out);
        assert(ops.take(i + 1).drop_last() =~= ops.take(i as int));
        assert(ops.take(i + 1).last() == program@[i as int]@);
        i += 1;
    }
    assert(ops.take(program.len() as int) =~= ops);
    out
}

} // verus!
