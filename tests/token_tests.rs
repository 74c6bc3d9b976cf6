use rs9cc::token::{consume, scan, tokenize_str, LexError, OpWords, TokenExt, TokenKind};

fn texts(s: &str) -> Vec<String> {
    let mut it = tokenize_str(s).unwrap();
    let mut out = vec![];
    while let Some(t) = it.next() {
        out.push(t.val);
    }
    out
}

#[test]
fn test_op_words() {
    let op_words: OpWords = Default::default();
    assert!(op_words.contains("*"));
    assert!(op_words.contains("("));
    assert!(op_words.contains("("));
    assert!(!op_words.contains("!=)"));
}

#[test]
fn test_tokenizer() {
    let s = "13 + 2 - 3".to_string();
    let vals = vec!["13", "+", "2", "-", "3"].iter().map(|x| x.to_string()).collect::<Vec<String>>();
    let kinds = vec![TokenKind::TkNum, TokenKind::TkReserved, TokenKind::TkNum, TokenKind::TkReserved, TokenKind::TkNum];

    let mut dvals = vec![];
    let mut dkinds = vec![];
    let mut it = s.tokenize().unwrap();
    while let Some(t) = it.next() {
        dvals.push(t.val);
        dkinds.push(t.token_kind)
    }

    assert_eq!(vals, dvals);
    assert_eq!(kinds, dkinds);
}

#[test]
fn digit_string_is_one_number_token() {
    for s in ["0", "7", "42", "0012", "98765432109876543210"] {
        let mut it = tokenize_str(s).unwrap();
        let t = it.next().unwrap();
        assert_eq!(t.token_kind, TokenKind::TkNum);
        assert_eq!(t.val, s);
        assert!(it.next().is_none());
    }
}

#[test]
fn longest_match_takes_two_character_operators() {
    assert_eq!(texts("1<=2"), vec!["1", "<=", "2"]);
    assert_eq!(texts("1>=2"), vec!["1", ">=", "2"]);
    assert_eq!(texts("1==2"), vec!["1", "==", "2"]);
    assert_eq!(texts("1!=2"), vec!["1", "!=", "2"]);
}

#[test]
fn operator_runs_are_cut_into_words() {
    assert_eq!(texts("1<-2"), vec!["1", "<", "-", "2"]);
    assert_eq!(texts("(-1)!=)"), vec!["(", "-", "1", ")", "!=", ")"]);
    assert_eq!(texts("--+"), vec!["-", "-", "+"]);
}

#[test]
fn whitespace_is_skipped() {
    assert_eq!(texts("  \t12 \n*\r3  "), vec!["12", "*", "3"]);
    assert!(texts("").is_empty());
    assert!(texts("   ").is_empty());
}

#[test]
fn unknown_operator_is_a_lex_error() {
    let e = tokenize_str("1 $ 2").err().unwrap();
    assert_eq!(e, LexError { position: 2, text: "$".to_string() });
    let e = tokenize_str("3 = 4").err().unwrap();
    assert_eq!(e, LexError { position: 2, text: "=".to_string() });
    let e = tokenize_str("1+!2").err().unwrap();
    assert_eq!(e, LexError { position: 2, text: "!".to_string() });
}

#[test]
fn custom_vocabulary() {
    let ops = OpWords::new(vec!["+", "++", "+++"]);
    let toks = scan("1++++2", &ops).unwrap();
    let vals: Vec<String> = toks.into_iter().map(|t| t.val).collect();
    assert_eq!(vals, vec!["1", "+++", "+", "2"]);
    let e = scan("1-2", &ops).err().unwrap();
    assert_eq!(e.position, 1);
    assert_eq!(e.text, "-");
}

#[test]
fn ops_by_length() {
    let ops = OpWords::default();
    assert_eq!(ops.ops(2), vec!["==", "!=", "<=", ">="]);
    assert_eq!(ops.ops(3), Vec::<String>::new());
    assert_eq!(ops.ops(1).len(), 8);
}

#[test]
fn consume_moves_only_on_a_match() {
    let mut it = tokenize_str("( 1").unwrap();
    assert!(!consume(")", &mut it));
    assert_eq!(it.position(), 0);
    assert!(consume("(", &mut it));
    assert_eq!(it.position(), 1);
    assert!(!consume("1", &mut it));
    assert_eq!(it.peek().unwrap().val, "1");
    assert_eq!(it.next().unwrap().val, "1");
    assert!(!consume("(", &mut it));
    assert!(it.peek().is_none());
}
