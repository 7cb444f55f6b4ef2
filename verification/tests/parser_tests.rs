use xparse::parser::Parser;
use xparse::token::TokenType;
use xparse::token::TokenType::{FUNCTION, INTCONSTANT, INVALID, KEYWORD, OPERATOR, VARIABLE};

fn parsed(src: &str) -> Parser {
    let mut p = Parser::new(src);
    assert!(p.can_parse());
    p.parse();
    p
}

fn kinds(p: &Parser) -> Vec<TokenType> {
    p.tokens().iter().map(|t| t.get_type()).collect()
}

fn texts(p: &Parser) -> Vec<String> {
    p.tokens().iter().map(|t| t.get_text().to_string()).collect()
}

#[test]
fn parse_reads_all_tokens() {
    let p = parsed("void main() { }");
    assert_eq!(texts(&p), vec!["void", "main", "(", ")", "{", "}"]);
}

#[test]
fn parse_twice_adds_nothing() {
    let mut p = parsed("int x;\n");
    assert_eq!(p.tokens().len(), 3);
    p.parse();
    assert_eq!(p.tokens().len(), 3);
}

#[test]
fn can_parse_within_bounds() {
    assert!(Parser::new("int x;").can_parse());
    assert!(Parser::new("").can_parse());
    assert!(Parser::new("int x @ y;").can_parse());
    assert!(Parser::new("1.5.").can_parse());
}

#[test]
fn unknown_characters_are_read_as_invalid_tokens() {
    let p = parsed("int x @ y;");
    assert_eq!(texts(&p), vec!["int", "x", "@", "y", ";"]);
    assert_eq!(p.tokens()[2].get_type(), INVALID);
    let mut p = Parser::new("void main() { # }");
    assert_eq!(p.check(), "Panic");
    assert_eq!(p.tokens().len(), 7);
    assert_eq!(p.tokens()[5].get_text(), "#");
}

#[test]
fn parse_gives_at_most_one_token_per_character() {
    let src = "@@@ x";
    let p = parsed(src);
    assert_eq!(p.tokens().len(), 4);
    assert!(p.tokens().len() <= src.chars().count());
}

#[test]
fn smallest_program_is_ok() {
    let mut p = Parser::new("void main() { }");
    assert_eq!(p.check(), "OK!");
}

#[test]
fn program_with_declarations_is_ok() {
    let mut p = Parser::new("int x; float y = 1.5; void main() { x = 1; }");
    assert_eq!(p.check(), "OK!");
    let t = p.tokens();
    assert_eq!(t[1].get_text(), "x");
    assert_eq!(t[1].get_type(), VARIABLE);
    assert_eq!(t[4].get_text(), "y");
    assert_eq!(t[4].get_type(), VARIABLE);
}

#[test]
fn program_without_main_panics() {
    let mut p = Parser::new("int x;");
    assert_eq!(p.check(), "Panic");
    let mut p = Parser::new("");
    assert_eq!(p.check(), "Panic");
}

#[test]
fn functions_are_marked() {
    let src = "int f(int a, float b); void main() { return f(a, 2); } int f(int a, float b) { return a + b; }";
    let mut p = Parser::new(src);
    assert_eq!(p.check(), "OK!");
    let t = p.tokens();
    assert_eq!(t[1].get_type(), FUNCTION);
    assert_eq!(t[16].get_text(), "f");
    assert_eq!(t[16].get_type(), FUNCTION);
    assert_eq!(t[25].get_text(), "f");
    assert_eq!(t[25].get_type(), FUNCTION);
    assert_eq!(t[18].get_text(), "a");
    assert_eq!(t[18].get_type(), VARIABLE);
}

#[test]
fn loops_and_conditionals_are_ok() {
    let src = "void main() { while (x < 10) { x = x + 1; } if (x == 10) { return x * 2; } g(1); }";
    let mut p = Parser::new(src);
    assert_eq!(p.check(), "OK!");
    let t = p.tokens();
    let g = t.iter().position(|tk| tk.get_text() == "g").unwrap();
    assert_eq!(t[g].get_type(), FUNCTION);
}

#[test]
fn unsigned_types_are_accepted() {
    let mut p = Parser::new("unsigned int n; unsigned char c = 3; void main() { }");
    assert_eq!(p.check(), "OK!");
}

#[test]
fn bad_statement_panics() {
    let mut p = Parser::new("void main() { x = ; }");
    assert_eq!(p.check(), "Panic");
}

#[test]
fn check_only_retypes_identifiers() {
    let src = "int f(); void main() { f(1); x = 1; }";
    let mut p = parsed(src);
    let before = kinds(&p);
    let before_texts = texts(&p);
    assert_eq!(p.check(), "OK!");
    let after = kinds(&p);
    assert_eq!(texts(&p), before_texts);
    for (b, a) in before.iter().zip(after.iter()) {
        let b_ident = *b == VARIABLE || *b == FUNCTION;
        let a_ident = *a == VARIABLE || *a == FUNCTION;
        assert_eq!(b_ident, a_ident);
        if !b_ident {
            assert_eq!(a, b);
        }
    }
}

#[test]
fn operators_are_recognised() {
    let mut p = parsed("== < > <= >= != = + - * /");
    for i in 0..6 {
        assert_eq!(p.check_relation_operator(i), Some(i + 1));
    }
    assert_eq!(p.check_relation_operator(6), None);
    assert_eq!(p.check_relation_operator(11), None);
    assert_eq!(p.check_add_operator(7), Some(8));
    assert_eq!(p.check_add_operator(8), Some(9));
    assert_eq!(p.check_add_operator(9), None);
    assert_eq!(p.check_mult_operator(9), Some(10));
    assert_eq!(p.check_mult_operator(10), Some(11));
    assert_eq!(p.check_mult_operator(0), None);
}

#[test]
fn constants_and_types() {
    let mut p = parsed("5 2.5 x unsigned long unsigned float double");
    assert_eq!(p.check_constant(0), Some(1));
    assert_eq!(p.check_constant(1), Some(2));
    assert_eq!(p.check_constant(2), None);
    assert_eq!(p.check_constant(99), None);
    assert_eq!(p.check_integer_type(3), Some(5));
    assert_eq!(p.check_integer_type(4), Some(5));
    assert_eq!(p.check_integer_type(5), None);
    assert_eq!(p.check_float_type(6), Some(7));
    assert_eq!(p.check_float_type(7), Some(8));
    assert_eq!(p.check_float_type(3), None);
    assert_eq!(p.check_data_type(4), Some(5));
    assert_eq!(p.check_data_type(7), Some(8));
    assert_eq!(p.check_data_type(2), None);
    let mut q = parsed("unsigned");
    assert_eq!(q.check_integer_type(0), None);
}

#[test]
fn typed_identifiers() {
    let mut p = parsed("int x int 5 float y");
    assert_eq!(p.check_declaration_type(0), Some(2));
    assert_eq!(p.check_declaration_type(2), None);
    assert_eq!(p.check_parameter(4), Some(6));
    assert_eq!(p.check_parameter(1), None);
}

#[test]
fn variable_declarations() {
    let mut p = parsed("= 5 ; ; = x ; =");
    assert_eq!(p.check_variable_declaration(0), Some(3));
    assert_eq!(p.check_variable_declaration(3), Some(4));
    assert_eq!(p.check_variable_declaration(4), None);
    assert_eq!(p.check_variable_declaration(7), None);
    assert_eq!(p.check_variable_declaration(8), None);
}

#[test]
fn parameter_blocks() {
    let mut p = parsed("f ( int a , float b )");
    assert_eq!(p.check_parameter_block(1), Some(8));
    assert_eq!(p.tokens()[0].get_type(), FUNCTION);
    let mut p = parsed("f ( )");
    assert_eq!(p.check_parameter_block(1), Some(3));
    let mut p = parsed("f ( int a , )");
    assert_eq!(p.check_parameter_block(1), None);
    assert_eq!(p.tokens()[0].get_type(), VARIABLE);
    let mut p = parsed("f ( int a");
    assert_eq!(p.check_parameter_block(1), None);
    let mut p = parsed("5 ( )");
    assert_eq!(p.check_parameter_block(1), Some(3));
    assert_eq!(p.tokens()[0].get_type(), INTCONSTANT);
}

#[test]
fn declarations() {
    let mut p = parsed("g ( ) ; int x ; int h ( int a ) ; int y = 2 ; int z ( ;");
    assert_eq!(p.check_function_declaration(1), Some(4));
    assert_eq!(p.check_declaration(4), Some(7));
    assert_eq!(p.tokens()[5].get_type(), VARIABLE);
    assert_eq!(p.check_declaration(7), Some(14));
    assert_eq!(p.tokens()[8].get_type(), FUNCTION);
    assert_eq!(p.check_declaration(14), Some(19));
    assert_eq!(p.tokens()[15].get_type(), VARIABLE);
    assert_eq!(p.check_declaration(19), None);
}

#[test]
fn expressions() {
    let mut p = parsed("a + b * c < d ;");
    assert_eq!(p.check_expression(0), Some(7));
    assert_eq!(p.check_simple_expression(0), Some(5));
    assert_eq!(p.check_term(0), Some(1));
    assert_eq!(p.check_term(2), Some(5));
    assert_eq!(p.check_factor(6), Some(7));
    let mut p = parsed("( a + 1 ) * f ( x , 2 ) ;");
    assert_eq!(p.check_expression(0), Some(12));
    assert_eq!(p.tokens()[6].get_type(), FUNCTION);
    let mut p = parsed("a < ;");
    assert_eq!(p.check_expression(0), None);
    let mut p = parsed("a + ;");
    assert_eq!(p.check_simple_expression(0), None);
}

#[test]
fn identifier_as_last_token_is_a_factor() {
    let mut p = parsed("x");
    assert_eq!(p.check_factor(0), Some(1));
    assert_eq!(p.tokens()[0].get_type(), VARIABLE);
    let mut p = parsed("x ;");
    assert_eq!(p.check_factor(0), Some(1));
    let mut p = parsed("a * b");
    assert_eq!(p.check_term(0), Some(3));
}

#[test]
fn unclosed_parenthesis_is_no_factor() {
    let mut p = parsed("( a 5");
    assert_eq!(p.check_factor(0), None);
    let mut p = parsed("( a b c");
    assert_eq!(p.check_factor(0), None);
    let mut p = parsed("( a b");
    assert_eq!(p.check_factor(0), None);
    let mut p = parsed("( a");
    assert_eq!(p.check_factor(0), None);
    let mut p = parsed("( a )");
    assert_eq!(p.check_factor(0), Some(3));
}

#[test]
fn call_arguments() {
    let mut p = parsed("f ( ) ;");
    assert_eq!(p.check_factor(0), Some(3));
    assert_eq!(p.tokens()[0].get_type(), FUNCTION);
    let mut p = parsed("f ( ;");
    assert_eq!(p.check_factor(0), None);
    assert_eq!(p.tokens()[0].get_type(), VARIABLE);
    let mut p = parsed("f ( 1 , 2 , 3 ) ;");
    assert_eq!(p.check_factor(0), Some(8));
    assert_eq!(p.tokens()[0].get_type(), FUNCTION);
    let mut p = parsed("f ( 1 , 2");
    assert_eq!(p.check_factor(0), None);
    assert_eq!(p.tokens()[0].get_type(), VARIABLE);
}

#[test]
fn statements() {
    let mut p = parsed("a = b = c ; return 0 ; a = b");
    assert_eq!(p.check_assignment(0), Some(6));
    assert_eq!(p.check_statement(0), Some(6));
    assert_eq!(p.check_return_statement(6), Some(9));
    assert_eq!(p.check_statement(6), Some(9));
    assert_eq!(p.check_assignment(9), None);
    assert_eq!(p.check_statement(9), None);
    let mut p = parsed("while ( x ) { } if ( y ) { x = 1 ; }");
    assert_eq!(p.check_while_loop(0), Some(6));
    assert_eq!(p.check_statement(0), Some(6));
    assert_eq!(p.check_if_statement(6), Some(16));
    assert_eq!(p.check_while_loop(6), None);
    assert_eq!(p.check_if_statement(0), None);
}

#[test]
fn blocks_and_definitions() {
    let mut p = parsed("{ int x ; x = 1 ; } int f ( ) { } void main ( ) { }");
    assert_eq!(p.check_block(0), Some(9));
    assert_eq!(p.check_function_definition(9), Some(15));
    assert_eq!(p.tokens()[10].get_type(), FUNCTION);
    assert_eq!(p.check_main_declaration(15), Some(21));
    assert_eq!(p.check_main_declaration(9), None);
    assert_eq!(p.check_block(1), None);
    assert_eq!(p.check_program(0), None);
    assert_eq!(p.check_program(9), None);
    assert_eq!(p.check_program(15), Some(21));
}

#[test]
fn call_without_arguments_is_a_statement() {
    let mut p = Parser::new("int f(); void main() { f(); }");
    assert_eq!(p.check(), "OK!");
    assert_eq!(p.tokens()[10].get_text(), "f");
    assert_eq!(p.tokens()[10].get_type(), FUNCTION);
}

#[test]
fn keyword_kinds_stay() {
    let p = parsed("void main");
    assert_eq!(kinds(&p), vec![KEYWORD, KEYWORD]);
    let p = parsed("( )");
    assert_eq!(kinds(&p), vec![OPERATOR, OPERATOR]);
}

const HEADER: &str = "<!DOCTYPE html PUBLIC \"-//W3C//DTD XHTML 1.0 Transitional//EN\" \"http://www.w3.org/TR/xhtml1/DTD/xhtml1\n        -transitional.dtd\">\n<html xmlns=\"http://www.w3.org/1999/xhtml\" xml:lang=\"en\">\n<head>\n<title>\nX Formatted file</title>\n</head>\n<body bgcolor=\"navy\" text=\"yellow\" link=\"yellow\" vlink=\"yellow\"><font face=\"Courier New\">\n";

#[test]
fn xhtml_page_of_a_program() {
    let mut p = Parser::new("void main() {\n  x = 1;\n}");
    assert_eq!(p.check(), "OK!");
    let expected = String::from(HEADER)
        + "<font color=\"white\"><b>void</b></font>&nbsp;"
        + "<font color=\"white\"><b>main</b></font>"
        + "<font color=\"white\"><b>(</b></font>"
        + "<font color=\"white\"><b>)</b></font>&nbsp;"
        + "<font color=\"white\"><b>{</b></font><br />\n&nbsp;&nbsp;"
        + "<font color=\"yellow\">x</font>&nbsp;"
        + "<font color=\"white\"><b>=</b></font>&nbsp;"
        + "<font color=\"aqua\"><b>1</b></font>"
        + "<font color=\"white\"><b>;</b></font><br />\n"
        + "<font color=\"white\"><b>}</b></font>";
    assert_eq!(p.to_xhtml(), expected);
}

#[test]
fn xhtml_colours_functions_and_invalid_tokens() {
    let mut p = Parser::new("int f(int a); !");
    p.check();
    let expected = String::from(HEADER)
        + "<font color=\"white\"><b>int</b></font>&nbsp;"
        + "<font color=\"orange\">f</font>"
        + "<font color=\"white\"><b>(</b></font>"
        + "<font color=\"white\"><b>int</b></font>&nbsp;"
        + "<font color=\"yellow\">a</font>"
        + "<font color=\"white\"><b>)</b></font>"
        + "<font color=\"white\"><b>;</b></font>&nbsp;"
        + "<font color=\"white\">!</font>";
    assert_eq!(p.to_xhtml(), expected);
}

#[test]
fn xhtml_counts_multibyte_text_in_bytes() {
    let p = parsed("é   x");
    let expected = String::from(HEADER)
        + "<font color=\"yellow\">é</font>&nbsp;&nbsp;"
        + "<font color=\"yellow\">x</font>";
    assert_eq!(p.to_xhtml(), expected);
}

#[test]
fn xhtml_of_no_tokens_is_the_header() {
    let p = Parser::new("");
    assert_eq!(p.to_xhtml(), HEADER);
}

#[test]
fn can_render_scanned_tokens() {
    let mut p = Parser::new("int x;\n  void main() { x = 2; }");
    assert_eq!(p.check(), "OK!");
    assert!(p.can_render());
    assert!(Parser::new("").can_render());
}

#[test]
fn if_and_while_are_checked_alike() {
    let srcs = [
        ("( f ( x ) ) { g ( ) ; }", Some(13)),
        ("( x ) { return f ( ) ; }", Some(11)),
        ("( x ) { y", None),
        ("x ) { }", None),
    ];
    for (rest, expected) in srcs.iter() {
        let mut w = parsed(&format!("while {}", rest));
        let mut i = parsed(&format!("if {}", rest));
        assert_eq!(w.check_while_loop(0), *expected);
        assert_eq!(i.check_if_statement(0), *expected);
        assert_eq!(kinds(&w)[1..], kinds(&i)[1..]);
        assert_eq!(i.check_while_loop(0), None);
        assert_eq!(w.check_if_statement(0), None);
    }
}
