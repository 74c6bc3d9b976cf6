use rs9cc::compile::{parse_program, ExprError};
use rs9cc::machine::{render, run, Instr};
use rs9cc::node::{expr, gen, get_val, Expected, NodeKind, ParseError};
use rs9cc::token::{tokenize_str, Token, TokenExt, TokenKind};

#[test]
fn test_node() {
    let s = "1 + 2 * (3 - 1)".to_string();
    let mut tokenizer = s.tokenize().unwrap();

    let node = expr(&mut tokenizer);
    println!("{:?}", node);
    assert!(node.is_ok());
}

#[test]
fn test_gen() {
    let s = "-2*3+4*5".to_string();
    let mut tokenizer = s.tokenize().unwrap();

    let node = expr(&mut tokenizer).unwrap();

    let code = gen(&node);
    for line in render(&code) {
        println!("{}", line);
    }
    assert_eq!(run(&code), Ok(14));
}

#[test]
fn test_unary_node() {
    let s = "- - 10".to_string();
    let mut tokenizer = s.tokenize().unwrap();
    let node = expr(&mut tokenizer);
    println!("{:?}", node);
    assert!(node.is_err());
}

#[test]
fn test_eq() {
    let s = "9+(-1+2)==10".to_string();
    let mut tokenizer = s.tokenize().unwrap();
    let mut all = s.tokenize().unwrap();
    while let Some(t) = all.next() {
        println!("{:?}", t);
    }
    let node = expr(&mut tokenizer).unwrap();
    println!("{:?}", &node);
    assert_eq!(*node.kind(), NodeKind::NdEq);
}

#[test]
fn tree_shape_follows_precedence() {
    let node = parse_program("1+2*3").unwrap();
    assert_eq!(*node.kind(), NodeKind::NdADD);
    assert_eq!(node.val(), None);
    let l = node.lhs().unwrap();
    assert_eq!(*l.kind(), NodeKind::NdNum);
    assert_eq!(l.val(), Some("1".to_string()));
    assert!(l.lhs().is_none() && l.rhs().is_none());
    let r = node.rhs().unwrap();
    assert_eq!(*r.kind(), NodeKind::NdMul);
    assert_eq!(get_val(&r), "mul");
    assert_eq!(get_val(&r.rhs().unwrap()), "3");
}

#[test]
fn subtraction_folds_left() {
    let node = parse_program("10-3-2").unwrap();
    assert_eq!(*node.kind(), NodeKind::NdSub);
    assert_eq!(node.rhs().unwrap().val(), Some("2".to_string()));
    assert_eq!(*node.lhs().unwrap().kind(), NodeKind::NdSub);
}

#[test]
fn greater_than_swaps_operands() {
    let node = parse_program("1>2").unwrap();
    assert_eq!(*node.kind(), NodeKind::NdLt);
    assert_eq!(node.lhs().unwrap().val(), Some("2".to_string()));
    assert_eq!(node.rhs().unwrap().val(), Some("1".to_string()));
    let node = parse_program("1>=2").unwrap();
    assert_eq!(*node.kind(), NodeKind::NdLe);
    assert_eq!(node.lhs().unwrap().val(), Some("2".to_string()));
}

#[test]
fn unary_minus_is_zero_minus() {
    let node = parse_program("-5").unwrap();
    assert_eq!(*node.kind(), NodeKind::NdSub);
    assert_eq!(node.lhs().unwrap().val(), Some("0".to_string()));
    assert_eq!(node.rhs().unwrap().val(), Some("5".to_string()));
    let node = parse_program("+5").unwrap();
    assert_eq!(*node.kind(), NodeKind::NdNum);
}

#[test]
fn parser_stops_after_the_expression() {
    let mut it = tokenize_str("1+2 3").unwrap();
    let node = expr(&mut it).unwrap();
    assert_eq!(*node.kind(), NodeKind::NdADD);
    assert_eq!(it.position(), 3);
}

#[test]
fn missing_operand_at_end() {
    let e = parse_program("1+").err().unwrap();
    assert_eq!(e, ExprError::Parse(ParseError::UnexpectedEnd { position: 2, expected: Expected::Operand }));
}

#[test]
fn missing_close_paren() {
    let e = parse_program("(1+2").err().unwrap();
    assert_eq!(e, ExprError::Parse(ParseError::UnexpectedEnd { position: 4, expected: Expected::CloseParen }));
    let e = parse_program("(1+2 3)").err().unwrap();
    assert_eq!(
        e,
        ExprError::Parse(ParseError::UnexpectedToken {
            position: 4,
            token: Token::new(TokenKind::TkNum, "3".to_string()),
            expected: Expected::CloseParen,
        })
    );
}

#[test]
fn operator_where_operand_expected() {
    let e = parse_program("*3").err().unwrap();
    assert_eq!(
        e,
        ExprError::Parse(ParseError::UnexpectedToken {
            position: 0,
            token: Token::new(TokenKind::TkReserved, "*".to_string()),
            expected: Expected::Operand,
        })
    );
    assert!(parse_program(")").is_err());
    assert!(parse_program("").is_err());
}

#[test]
fn trailing_tokens_are_refused() {
    let e = parse_program("1 2").err().unwrap();
    assert_eq!(
        e,
        ExprError::Parse(ParseError::UnexpectedToken {
            position: 1,
            token: Token::new(TokenKind::TkNum, "2".to_string()),
            expected: Expected::End,
        })
    );
}

#[test]
fn generated_code_is_post_order() {
    let node = parse_program("1-2").unwrap();
    let code = gen(&node);
    assert_eq!(
        code,
        vec![
            Instr::Push("1".to_string()),
            Instr::Push("2".to_string()),
            Instr::PopSecondary,
            Instr::PopPrimary,
            Instr::Apply(NodeKind::NdSub),
            Instr::PushPrimary,
        ]
    );
}
