use vstd::prelude::*;

verus! {

/// The category that the scanner, and later the parser, gives a token.
#[allow(non_camel_case_types)]
#[derive(Clone, Copy, Debug, PartialEq, Eq, Structural)]
pub enum TokenType {
    INTCONSTANT,
    FLOATCONSTANT,
    OPERATOR,
    KEYWORD,
    VARIABLE,
    FUNCTION,
    INVALID,
}

/// Identifiers are the tokens that name a variable or a function.
pub open spec fn is_identifier_kind(k: TokenType) -> bool {
    k == TokenType::VARIABLE || k == TokenType::FUNCTION
}

/// Constants are the integer and floating-point literals.
pub open spec fn is_constant_kind(k: TokenType) -> bool {
    k == TokenType::INTCONSTANT || k == TokenType::FLOATCONSTANT
}

/// What a token is, as a mathematical value.
pub struct TokenView {
    pub text: Seq<char>,
    pub kind: TokenType,
    pub line: i32,
    pub col: i32,
}

/// The texts of the tokens `v`.
pub open spec fn texts_of(v: Seq<TokenView>) -> Seq<Seq<char>> {
    v.map_values(|t: TokenView| t.text)
}

/// The kinds of the tokens `v`.
pub open spec fn kinds_of(v: Seq<TokenView>) -> Seq<TokenType> {
    v.map_values(|t: TokenView| t.kind)
}

/// The tokens `v` with the kinds `k` in place of their own.
pub open spec fn with_kinds(v: Seq<TokenView>, k: Seq<TokenType>) -> Seq<TokenView> {
    Seq::new(v.len(), |i: int| TokenView { kind: k[i], ..v[i] })
}

/// `after` differs from `before` only in the kinds of identifiers, which stay identifiers.
pub open spec fn only_identifiers_marked(before: Seq<TokenType>, after: Seq<TokenType>) -> bool {
    &&& before.len() == after.len()
    &&& forall|i: int|
        #![trigger before[i]]
        #![trigger after[i]]
        0 <= i < before.len() ==> {
            &&& is_identifier_kind(after[i]) == is_identifier_kind(before[i])
            &&& !is_identifier_kind(before[i]) ==> after[i] == before[i]
        }
}

/// A token: its text, its category and where it starts (line and column, both from 1).
pub struct Token {
    text: String,
    token_type: TokenType,
    line_number: i32,
    char_pos: i32,
}

impl View for Token {
    type V = TokenView;

    closed spec fn view(&self) -> TokenView {
        TokenView {
            text: self.text@,
            kind: self.token_type,
            line: self.line_number,
            col: self.char_pos,
        }
    }
}

impl Token {
    pub fn new(text: String, token_type: TokenType, line_number: i32, char_pos: i32) -> (t: Token)
        ensures
            t@ == (TokenView { text: text@, kind: token_type, line: line_number, col: char_pos }),
    {
        Token { text, token_type, line_number, char_pos }
    }

    pub fn get_text(&self) -> (s: &str)
        ensures
            s@ == self@.text,
    {
        self.text.as_str()
    }

    pub fn get_type(&self) -> (k: TokenType)
        ensures
            k == self@.kind,
    {
        self.token_type
    }

    pub fn set_type(&mut self, token_type: TokenType)
        ensures
            final(self)@ == (TokenView { kind: token_type, ..old(self)@ }),
    {
        self.token_type = token_type;
    }

    pub fn get_line_number(&self) -> (n: i32)
        ensures
            n == self@.line,
    {
        self.line_number
    }

    pub fn get_char_pos(&self) -> (n: i32)
        ensures
            n == self@.col,
    {
        self.char_pos
    }

    pub fn is_identifier(&self) -> (b: bool)
        ensures
            b == is_identifier_kind(self@.kind),
    {
        match self.token_type {
            TokenType::VARIABLE | TokenType::FUNCTION => true,
            _ => false,
        }
    }

    pub fn is_constant(&self) -> (b: bool)
        ensures
            b == is_constant_kind(self@.kind),
    {
        match self.token_type {
            TokenType::INTCONSTANT | TokenType::FLOATCONSTANT => true,
            _ => false,
        }
    }
}

} // verus!
