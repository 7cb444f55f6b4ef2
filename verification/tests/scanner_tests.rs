use xparse::scanner::{invalid_token, is_id_start, is_keyword, is_num_start, is_op_start, Scanner};
use xparse::token::TokenType;
use xparse::token::TokenType::{FLOATCONSTANT, INTCONSTANT, INVALID, KEYWORD, OPERATOR, VARIABLE};

fn scan_all(src: &str) -> Vec<(String, TokenType, i32, i32)> {
    let mut s = Scanner::new(src);
    let mut out = Vec::new();
    for _ in 0..1000 {
        match s.get_next_token() {
            Some(t) => out.push((
                t.get_text().to_string(),
                t.get_type(),
                t.get_line_number(),
                t.get_char_pos(),
            )),
            None => return out,
        }
    }
    panic!("the scanner did not come to an end");
}

fn tok(text: &str, k: TokenType, line: i32, col: i32) -> (String, TokenType, i32, i32) {
    (text.to_string(), k, line, col)
}

#[test]
fn identifier_start_characters() {
    assert!(is_id_start('_'));
    assert!(is_id_start('a'));
    assert!(is_id_start('Z'));
    assert!(is_id_start('é'));
    assert!(!is_id_start('1'));
    assert!(!is_id_start('-'));
    assert!(!is_id_start(' '));
}

#[test]
fn number_start_characters() {
    assert!(is_num_start('0'));
    assert!(is_num_start('9'));
    assert!(!is_num_start('a'));
    assert!(!is_num_start('.'));
    assert!(!is_num_start('-'));
}

#[test]
fn operator_start_characters() {
    for c in ['(', ',', ')', '{', '}', '=', '<', '>', '!', '+', '*', '/', ';'] {
        assert!(is_op_start(c));
    }
    assert!(!is_op_start('-'));
    assert!(!is_op_start('.'));
    assert!(!is_op_start('a'));
}

#[test]
fn keywords() {
    for k in [
        "unsigned", "char", "short", "int", "long", "float", "double", "while", "if", "return",
        "void", "main",
    ] {
        assert!(is_keyword(k));
    }
    assert!(!is_keyword("Int"));
    assert!(!is_keyword(""));
    assert!(!is_keyword("whiles"));
    assert!(!is_keyword("x"));
}

#[test]
fn invalid_token_has_the_text_and_place() {
    let t = invalid_token("@#", 3, 4).unwrap();
    assert_eq!(t.get_text(), "@#");
    assert_eq!(t.get_type(), INVALID);
    assert_eq!(t.get_line_number(), 3);
    assert_eq!(t.get_char_pos(), 4);
}

#[test]
fn declaration_tokens() {
    assert_eq!(
        scan_all("int x = 5;"),
        vec![
            tok("int", KEYWORD, 1, 1),
            tok("x", VARIABLE, 1, 5),
            tok("=", OPERATOR, 1, 7),
            tok("5", INTCONSTANT, 1, 9),
            tok(";", OPERATOR, 1, 10),
        ]
    );
}

#[test]
fn numbers_with_points() {
    assert_eq!(
        scan_all("3.14 1.2.3"),
        vec![tok("3.14", FLOATCONSTANT, 1, 1), tok("1.2.", INVALID, 1, 6), tok("3", INTCONSTANT, 1, 10)]
    );
    assert_eq!(scan_all("7."), vec![tok("7.", FLOATCONSTANT, 1, 1)]);
}

#[test]
fn minus_after_an_operand_is_an_operator() {
    assert_eq!(
        scan_all("a-1"),
        vec![tok("a", VARIABLE, 1, 1), tok("-", OPERATOR, 1, 2), tok("1", INTCONSTANT, 1, 3)]
    );
    assert_eq!(
        scan_all("5 -3"),
        vec![tok("5", INTCONSTANT, 1, 1), tok("-", OPERATOR, 1, 3), tok("3", INTCONSTANT, 1, 4)]
    );
}

#[test]
fn minus_elsewhere_signs_a_number() {
    assert_eq!(
        scan_all("x = -1"),
        vec![tok("x", VARIABLE, 1, 1), tok("=", OPERATOR, 1, 3), tok("-1", INTCONSTANT, 1, 5)]
    );
    assert_eq!(scan_all("-2.5"), vec![tok("-2.5", FLOATCONSTANT, 1, 1)]);
    assert_eq!(scan_all("-x"), vec![tok("-", OPERATOR, 1, 1), tok("x", VARIABLE, 1, 2)]);
    assert_eq!(
        scan_all("while -1"),
        vec![tok("while", KEYWORD, 1, 1), tok("-1", INTCONSTANT, 1, 7)]
    );
}

#[test]
fn two_character_operators() {
    assert_eq!(
        scan_all("a<=b!=c==d>=e<f>g"),
        vec![
            tok("a", VARIABLE, 1, 1),
            tok("<=", OPERATOR, 1, 2),
            tok("b", VARIABLE, 1, 4),
            tok("!=", OPERATOR, 1, 5),
            tok("c", VARIABLE, 1, 7),
            tok("==", OPERATOR, 1, 8),
            tok("d", VARIABLE, 1, 10),
            tok(">=", OPERATOR, 1, 11),
            tok("e", VARIABLE, 1, 13),
            tok("<", OPERATOR, 1, 14),
            tok("f", VARIABLE, 1, 15),
            tok(">", OPERATOR, 1, 16),
            tok("g", VARIABLE, 1, 17),
        ]
    );
}

#[test]
fn lone_bang_is_invalid() {
    assert_eq!(scan_all("!x"), vec![tok("!", INVALID, 1, 1), tok("x", VARIABLE, 1, 2)]);
    assert_eq!(scan_all("=!"), vec![tok("=", OPERATOR, 1, 1), tok("!", INVALID, 1, 2)]);
    assert_eq!(scan_all("!"), vec![tok("!", INVALID, 1, 1)]);
}

#[test]
fn single_character_operators() {
    assert_eq!(
        scan_all("(,){}+*/;"),
        vec![
            tok("(", OPERATOR, 1, 1),
            tok(",", OPERATOR, 1, 2),
            tok(")", OPERATOR, 1, 3),
            tok("{", OPERATOR, 1, 4),
            tok("}", OPERATOR, 1, 5),
            tok("+", OPERATOR, 1, 6),
            tok("*", OPERATOR, 1, 7),
            tok("/", OPERATOR, 1, 8),
            tok(";", OPERATOR, 1, 9),
        ]
    );
}

#[test]
fn blanks_move_lines_and_columns() {
    assert_eq!(
        scan_all("\tx\n  y\r\nz"),
        vec![tok("x", VARIABLE, 1, 5), tok("y", VARIABLE, 2, 3), tok("z", VARIABLE, 3, 1)]
    );
}

#[test]
fn keywords_and_identifiers() {
    assert_eq!(
        scan_all("while whilex _a1 b_2 πr"),
        vec![
            tok("while", KEYWORD, 1, 1),
            tok("whilex", VARIABLE, 1, 7),
            tok("_a1", VARIABLE, 1, 14),
            tok("b_2", VARIABLE, 1, 18),
            tok("πr", VARIABLE, 1, 22),
        ]
    );
}

#[test]
fn only_blanks_give_no_token() {
    assert_eq!(scan_all(""), vec![]);
    assert_eq!(scan_all("  \t\n\r\n "), vec![]);
    let mut s = Scanner::new(" x ");
    assert!(s.get_next_token().is_some());
    assert!(s.get_next_token().is_none());
    assert!(s.get_next_token().is_none());
}

#[test]
fn unknown_character_is_invalid_and_consumed() {
    let mut s = Scanner::new("  @x");
    let t = s.get_next_token().unwrap();
    assert_eq!(t.get_text(), "@");
    assert_eq!(t.get_type(), INVALID);
    assert_eq!(t.get_line_number(), 1);
    assert_eq!(t.get_char_pos(), 3);
    assert_eq!(s.position(), 3);
    let t2 = s.get_next_token().unwrap();
    assert_eq!(t2.get_text(), "x");
    assert_eq!(t2.get_type(), VARIABLE);
    assert_eq!(t2.get_char_pos(), 4);
    assert!(s.get_next_token().is_none());
}

#[test]
fn every_unknown_character_is_one_token() {
    let toks = scan_all("#.\"@");
    let texts: Vec<&str> = toks.iter().map(|t| t.0.as_str()).collect();
    assert_eq!(texts, vec!["#", ".", "\"", "@"]);
    assert!(toks.iter().all(|t| t.1 == INVALID));
}

#[test]
fn at_most_one_token_per_character() {
    let src = "a@b#(1)";
    let toks = scan_all(src);
    assert_eq!(toks.len(), 7);
    assert!(toks.len() <= src.chars().count());
}

#[test]
fn non_ascii_letters_start_identifiers() {
    let toks = scan_all("\u{e9}t\u{e9} \u{3c0}2");
    assert_eq!(toks[0].0, "\u{e9}t\u{e9}");
    assert_eq!(toks[0].1, VARIABLE);
    assert_eq!(toks[1].0, "\u{3c0}2");
    assert_eq!(toks[1].1, VARIABLE);
}

#[test]
fn token_texts_are_the_consumed_text() {
    let src = "foo(12,x)<=3.5;";
    let joined: String = scan_all(src).into_iter().map(|t| t.0).collect();
    assert_eq!(joined, src);
}
