use rs9cc::compile::{assemble, compile, evaluate, ExprError};
use rs9cc::machine::{render, run, Fault, Instr};
use rs9cc::node::NodeKind;

#[test]
fn precedence() {
    assert_eq!(evaluate("2+3*4"), Ok(14));
}

#[test]
fn left_associativity() {
    assert_eq!(evaluate("10-3-2"), Ok(5));
}

#[test]
fn parenthesization() {
    assert_eq!(evaluate("(1+2)*3"), Ok(9));
}

#[test]
fn truncating_division() {
    assert_eq!(evaluate("10/3"), Ok(3));
    assert_eq!(evaluate("-10/3"), Ok(-3));
    assert_eq!(evaluate("10/-3"), Ok(-3));
    assert_eq!(evaluate("10/(-3)"), Ok(-3));
    assert_eq!(evaluate("(-10)/(-3)"), Ok(3));
    assert_eq!(evaluate("7/7"), Ok(1));
}

#[test]
fn unary_minus() {
    assert_eq!(evaluate("-5+3"), Ok(-2));
    assert_eq!(evaluate("+5+3"), Ok(8));
    assert_eq!(evaluate("-(2*3)"), Ok(-6));
}

#[test]
fn comparisons_give_one_or_zero() {
    assert_eq!(evaluate("1<2"), Ok(1));
    assert_eq!(evaluate("2<1"), Ok(0));
    assert_eq!(evaluate("2<=2"), Ok(1));
    assert_eq!(evaluate("2>1"), Ok(1));
    assert_eq!(evaluate("1>2"), Ok(0));
    assert_eq!(evaluate("3>=4"), Ok(0));
    assert_eq!(evaluate("4>=4"), Ok(1));
    assert_eq!(evaluate("1==1"), Ok(1));
    assert_eq!(evaluate("1!=1"), Ok(0));
    assert_eq!(evaluate("9+(-1+2)==10"), Ok(1));
    assert_eq!(evaluate("1<2==1"), Ok(1));
}

#[test]
fn division_by_zero_is_a_run_fault() {
    assert_eq!(evaluate("1/0"), Err(ExprError::Fault(Fault::DivideByZero)));
    assert!(compile("1/0").is_ok());
}

#[test]
fn overflow_is_a_run_fault() {
    assert_eq!(evaluate("9223372036854775807"), Ok(i64::MAX));
    assert_eq!(evaluate("9223372036854775807+1"), Err(ExprError::Fault(Fault::Overflow)));
    assert_eq!(evaluate("9223372036854775808"), Err(ExprError::Fault(Fault::Overflow)));
    assert_eq!(evaluate("99999999999999999999"), Err(ExprError::Fault(Fault::Overflow)));
    assert_eq!(evaluate("0-9223372036854775807-1"), Ok(i64::MIN));
    assert_eq!(evaluate("(0-9223372036854775807-1)/(0-1)"), Err(ExprError::Fault(Fault::Overflow)));
    assert_eq!(evaluate("4294967296*4294967296"), Err(ExprError::Fault(Fault::Overflow)));
}

#[test]
fn lex_errors_come_through() {
    assert!(matches!(evaluate("1 @ 2"), Err(ExprError::Lex(_))));
}

#[test]
fn machine_faults() {
    assert_eq!(run(&vec![Instr::PopPrimary]), Err(Fault::StackUnderflow));
    assert_eq!(run(&vec![]), Err(Fault::StackImbalance));
    assert_eq!(run(&vec![Instr::Push("1".to_string()), Instr::Push("2".to_string())]), Err(Fault::StackImbalance));
    assert_eq!(run(&vec![Instr::Push("1a".to_string())]), Err(Fault::BadLiteral));
    assert_eq!(run(&vec![Instr::Push("".to_string())]), Err(Fault::BadLiteral));
    assert_eq!(run(&vec![Instr::Apply(NodeKind::NdNum), Instr::PushPrimary]), Err(Fault::BadOperator));
    assert_eq!(run(&vec![Instr::Push("007".to_string())]), Ok(7));
}

#[test]
fn rendered_assembly() {
    let lines = assemble("1+2").unwrap();
    assert_eq!(
        lines,
        vec!["  push 1", "  push 2", "  pop rdi", "  pop rax", "  add rax, rdi", "  push rax"]
    );
    let lines = assemble("8/2").unwrap();
    assert_eq!(&lines[4..6], &["  cqo".to_string(), "  idiv rdi".to_string()]);
    let lines = assemble("1<2").unwrap();
    assert_eq!(&lines[4..7], &["  cmp rax, rdi".to_string(), "  setl al".to_string(), "  movzb rax, al".to_string()]);
    let lines = render(&vec![Instr::Apply(NodeKind::NdMul), Instr::Apply(NodeKind::NdNe), Instr::Apply(NodeKind::NdLe), Instr::Apply(NodeKind::NdEq)]);
    assert_eq!(lines[0], "  imul rax, rdi");
    assert_eq!(lines[2], "  setne al");
    assert_eq!(lines[5], "  setle al");
    assert_eq!(lines[8], "  sete al");
}
