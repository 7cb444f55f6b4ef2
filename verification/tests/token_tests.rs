use xparse::token::{Token, TokenType};

#[test]
fn token_keeps_what_it_was_made_with() {
    let t = Token::new("abc".to_string(), TokenType::VARIABLE, 3, 7);
    assert_eq!(t.get_text(), "abc");
    assert_eq!(t.get_type(), TokenType::VARIABLE);
    assert_eq!(t.get_line_number(), 3);
    assert_eq!(t.get_char_pos(), 7);
}

#[test]
fn set_type_changes_only_the_type() {
    let mut t = Token::new("f".to_string(), TokenType::VARIABLE, 2, 4);
    t.set_type(TokenType::FUNCTION);
    assert_eq!(t.get_type(), TokenType::FUNCTION);
    assert_eq!(t.get_text(), "f");
    assert_eq!(t.get_line_number(), 2);
    assert_eq!(t.get_char_pos(), 4);
}

#[test]
fn identifiers_are_variables_and_functions() {
    let kinds = [
        (TokenType::INTCONSTANT, false, true),
        (TokenType::FLOATCONSTANT, false, true),
        (TokenType::OPERATOR, false, false),
        (TokenType::KEYWORD, false, false),
        (TokenType::VARIABLE, true, false),
        (TokenType::FUNCTION, true, false),
        (TokenType::INVALID, false, false),
    ];
    for (k, ident, constant) in kinds {
        let t = Token::new("t".to_string(), k, 1, 1);
        assert_eq!(t.is_identifier(), ident);
        assert_eq!(t.is_constant(), constant);
    }
}
