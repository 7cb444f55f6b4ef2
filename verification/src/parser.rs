use crate::grammar::{self, constant_at, ident_at, text_is};
use crate::lexical::{
    counters_fit, law_scan_ends, law_second_read_reads_nothing, lemma_bounds_fit, scan, scan_end, scanned_tokens, within_bounds,
    ScanState,
};
use crate::render;
use crate::scanner::{token_placed, Scanner};
use crate::text::same_text;
use crate::token::{
    kinds_of, only_identifiers_marked, texts_of, with_kinds, Token, TokenType, TokenView,
};
use vstd::prelude::*;
use vstd::string::StringExecFns;

verus! {

/// A position given back by a parsing function, as an integer.
pub open spec fn at(r: Option<usize>) -> Option<int> {
    match r {
        Some(p) => Some(p as int),
        None => None,
    }
}

/// A recursive-descent parser over the tokens of a program. Each `check_*` function tries one
/// rule of the grammar at a token position and gives back the position after what it matched,
/// or `None`. Along the way it marks identifiers as variables or functions.
pub struct Parser {
    scanner: Scanner,
    tokens: Vec<Token>,
}

impl Parser {
    /// The tokens, as values.
    pub closed spec fn views(&self) -> Seq<TokenView> {
        self.tokens@.map_values(|t: Token| t@)
    }

    /// The scanner that the tokens come from.
    pub closed spec fn scanner_part(&self) -> Scanner {
        self.scanner
    }

    pub open spec fn texts(&self) -> Seq<Seq<char>> {
        texts_of(self.views())
    }

    pub open spec fn kinds(&self) -> Seq<TokenType> {
        kinds_of(self.views())
    }

    /// `self` and `other` differ at most in the kinds of their tokens.
    pub open spec fn same_but_kinds(&self, other: &Parser) -> bool {
        &&& self.scanner_part() == other.scanner_part()
        &&& self.views().len() == other.views().len()
        &&& forall|i: int|
            0 <= i < self.views().len() ==> {
                &&& #[trigger] self.views()[i].text == other.views()[i].text
                &&& self.views()[i].line == other.views()[i].line
                &&& self.views()[i].col == other.views()[i].col
            }
    }

    fn text_at(&self, pos: usize, lit: &str) -> (b: bool)
        ensures
            b == text_is(self.texts(), pos as int, lit@),
            self.texts().len() == self.kinds().len() <= usize::MAX,
    {
        pos < self.tokens.len() && same_text(self.tokens[pos].get_text(), lit)
    }

    fn identifier_at(&self, pos: usize) -> (b: bool)
        ensures
            b == ident_at(self.kinds(), pos as int),
            self.texts().len() == self.kinds().len() <= usize::MAX,
    {
        pos < self.tokens.len() && self.tokens[pos].is_identifier()
    }

    fn constant_token_at(&self, pos: usize) -> (b: bool)
        ensures
            b == constant_at(self.kinds(), pos as int),
            self.texts().len() == self.kinds().len() <= usize::MAX,
    {
        pos < self.tokens.len() && self.tokens[pos].is_constant()
    }

    fn len(&self) -> (n: usize)
        ensures
            n == self.texts().len(),
            n == self.kinds().len(),
    {
        self.tokens.len()
    }

    /// Gives token `i` the kind `ty`.
    fn mark(&mut self, i: usize, ty: TokenType)
        requires
            ident_at(old(self).kinds(), i as int),
            ty == TokenType::VARIABLE || ty == TokenType::FUNCTION,
        ensures
            only_identifiers_marked(old(self).kinds(), final(self).kinds()),
            final(self).same_but_kinds(old(self)),
            final(self).texts() == old(self).texts(),
            final(self).kinds() == old(self).kinds().update(i as int, ty),
    {
        self.tokens[i].set_type(ty);
        assert(self.views() =~= old(self).views().update(
            i as int,
            TokenView { kind: ty, ..old(self).views()[i as int] },
        ));
        assert(self.texts() =~= old(self).texts());
        assert(self.kinds() =~= old(self).kinds().update(i as int, ty));
    }

    /// RelationOperator: `==`, `<`, `>`, `<=`, `>=` or `!=` at `pos`.
    pub fn check_relation_operator(&mut self, pos: usize) -> (r: Option<usize>)
        ensures
            *final(self) == *old(self),
            at(r) == grammar::relation_operator(old(self).texts(), pos as int),
    {
        if self.text_at(pos, "==") || self.text_at(pos, "<") || self.text_at(pos, ">")
            || self.text_at(pos, "<=") || self.text_at(pos, ">=") || self.text_at(pos, "!=") {
            Some(pos + 1)
        } else {
            None
        }
    }

    /// AddOperator: `+` or `-` at `pos`.
    pub fn check_add_operator(&mut self, pos: usize) -> (r: Option<usize>)
        ensures
            *final(self) == *old(self),
            at(r) == grammar::add_operator(old(self).texts(), pos as int),
    {
        if self.text_at(pos, "+") || self.text_at(pos, "-") {
            Some(pos + 1)
        } else {
            None
        }
    }

    /// MultOperator: `*` or `/` at `pos`.
    pub fn check_mult_operator(&mut self, pos: usize) -> (r: Option<usize>)
        ensures
            *final(self) == *old(self),
            at(r) == grammar::mult_operator(old(self).texts(), pos as int),
    {
        if self.text_at(pos, "*") || self.text_at(pos, "/") {
            Some(pos + 1)
        } else {
            None
        }
    }

    /// Constant: an integer or floating-point constant at `pos`.
    pub fn check_constant(&mut self, pos: usize) -> (r: Option<usize>)
        ensures
            *final(self) == *old(self),
            at(r) == grammar::constant(old(self).kinds(), pos as int),
    {
        if self.constant_token_at(pos) {
            Some(pos + 1)
        } else {
            None
        }
    }

    /// IntegerType: an optional `unsigned`, then `char`, `short`, `int` or `long`.
    pub fn check_integer_type(&mut self, pos: usize) -> (r: Option<usize>)
        ensures
            *final(self) == *old(self),
            at(r) == grammar::integer_type(old(self).texts(), pos as int),
    {
        if pos >= self.len() {
            return None;
        }
        let mut pos = pos;
        if self.text_at(pos, "unsigned") {
            pos += 1;
        }
        if self.text_at(pos, "char") || self.text_at(pos, "short") || self.text_at(pos, "int")
            || self.text_at(pos, "long") {
            Some(pos + 1)
        } else {
            None
        }
    }

    /// FloatType: `float` or `double`.
    pub fn check_float_type(&mut self, pos: usize) -> (r: Option<usize>)
        ensures
            *final(self) == *old(self),
            at(r) == grammar::float_type(old(self).texts(), pos as int),
    {
        if self.text_at(pos, "float") || self.text_at(pos, "double") {
            Some(pos + 1)
        } else {
            None
        }
    }

    /// DataType: an integer type, else a floating-point type.
    pub fn check_data_type(&mut self, pos: usize) -> (r: Option<usize>)
        ensures
            *final(self) == *old(self),
            at(r) == grammar::data_type(old(self).texts(), pos as int),
    {
        match self.check_integer_type(pos) {
            Some(next_pos) => {
                return Some(next_pos);
            },
            None => {},
        }
        self.check_float_type(pos)
    }

    /// DeclarationType: a data type followed by an identifier.
    pub fn check_declaration_type(&mut self, pos: usize) -> (r: Option<usize>)
        ensures
            *final(self) == *old(self),
            at(r) == grammar::typed_identifier(old(self).texts(), old(self).kinds(), pos as int),
    {
        match self.check_data_type(pos) {
            Some(next_pos) => if self.identifier_at(next_pos) {
                Some(next_pos + 1)
            } else {
                None
            },
            None => None,
        }
    }

    /// Parameter: a data type followed by an identifier.
    pub fn check_parameter(&mut self, pos: usize) -> (r: Option<usize>)
        ensures
            *final(self) == *old(self),
            at(r) == grammar::typed_identifier(old(self).texts(), old(self).kinds(), pos as int),
    {
        match self.check_data_type(pos) {
            Some(next_pos) => if self.identifier_at(next_pos) {
                Some(next_pos + 1)
            } else {
                None
            },
            None => None,
        }
    }

    /// VariableDeclaration: an optional `=` and constant, then `;`.
    pub fn check_variable_declaration(&mut self, pos: usize) -> (r: Option<usize>)
        ensures
            *final(self) == *old(self),
            at(r) == grammar::variable_declaration(old(self).texts(), old(self).kinds(), pos as int),
    {
        if pos >= self.len() {
            return None;
        }
        let mut pos = pos;
        if self.text_at(pos, "=") {
            match self.check_constant(pos + 1) {
                Some(next_pos) => {
                    pos = next_pos;
                },
                None => {
                    return None;
                },
            }
        }
        if self.text_at(pos, ";") {
            Some(pos + 1)
        } else {
            None
        }
    }

    /// ParameterBlock: `(`, an optional comma-separated list of parameters, `)`. On success, an
    /// identifier just before the `(` is marked as a function.
    pub fn check_parameter_block(&mut self, pos: usize) -> (r: Option<usize>)
        requires
            pos >= 1,
        ensures
            final(self).same_but_kinds(old(self)),
            final(self).texts() == old(self).texts(),
            only_identifiers_marked(old(self).kinds(), final(self).kinds()),
            (at(r), final(self).kinds()) == grammar::parameter_block(
                old(self).texts(),
                old(self).kinds(),
                pos as int,
            ),
            r matches Some(p) ==> pos < p <= old(self).texts().len(),
    {
        let last_token_pos = pos - 1;
        if !self.text_at(pos, "(") {
            return None;
        }
        let mut cur = pos + 1;
        let ghost list_end = match grammar::typed_identifier(self.texts(), self.kinds(), cur as int) {
            Some(p) => grammar::more_parameters(self.texts(), self.kinds(), p),
            None => Some(cur as int),
        };
        match self.check_parameter(cur) {
            Some(next_pos) => {
                cur = next_pos;
                loop
                    invariant
                        *self == *old(self),
                        last_token_pos < cur <= self.texts().len(),
                        last_token_pos + 1 == pos,
                        list_end == grammar::more_parameters(self.texts(), self.kinds(), cur as int),
                        text_is(self.texts(), last_token_pos + 1, "("@),
                        list_end == match grammar::typed_identifier(
                            self.texts(),
                            self.kinds(),
                            last_token_pos + 2,
                        ) {
                            Some(p) => grammar::more_parameters(self.texts(), self.kinds(), p),
                            None => Some(last_token_pos + 2),
                        },
                    ensures
                        *self == *old(self),
                        last_token_pos < cur <= self.texts().len(),
                        list_end == Some(cur as int),
                    decreases self.texts().len() - cur,
                {
                    if cur >= self.len() {
                        return None;
                    }
                    if self.text_at(cur, ",") {
                        cur += 1;
                        match self.check_parameter(cur) {
                            Some(next_pos) => {
                                cur = next_pos;
                            },
                            None => {
                                return None;
                            },
                        }
                    } else {
                        break ;
                    }
                }
            },
            None => {},
        }
        if self.text_at(cur, ")") {
            if self.identifier_at(last_token_pos) {
                self.mark(last_token_pos, TokenType::FUNCTION);
            }
            Some(cur + 1)
        } else {
            None
        }
    }

    /// FunctionDeclaration: a parameter block, then `;`.
    pub fn check_function_declaration(&mut self, pos: usize) -> (r: Option<usize>)
        requires
            pos >= 1,
        ensures
            final(self).same_but_kinds(old(self)),
            final(self).texts() == old(self).texts(),
            only_identifiers_marked(old(self).kinds(), final(self).kinds()),
            (at(r), final(self).kinds()) == grammar::function_declaration(
                old(self).texts(),
                old(self).kinds(),
                pos as int,
            ),
            r matches Some(p) ==> pos < p <= old(self).texts().len(),
    {
        match self.check_parameter_block(pos) {
            Some(next_pos) => if self.text_at(next_pos, ";") {
                Some(next_pos + 1)
            } else {
                None
            },
            None => None,
        }
    }

    /// Declaration: a declaration type, then a variable declaration or a function declaration.
    /// The declared identifier is marked as a variable or as a function.
    pub fn check_declaration(&mut self, pos: usize) -> (r: Option<usize>)
        ensures
            final(self).same_but_kinds(old(self)),
            final(self).texts() == old(self).texts(),
            only_identifiers_marked(old(self).kinds(), final(self).kinds()),
            (at(r), final(self).kinds()) == grammar::declaration(
                old(self).texts(),
                old(self).kinds(),
                pos as int,
            ),
            r matches Some(p) ==> pos < p <= old(self).texts().len(),
    {
        match self.check_declaration_type(pos) {
            Some(next_pos) => {
                match self.check_variable_declaration(next_pos) {
                    Some(end) => {
                        self.mark(next_pos - 1, TokenType::VARIABLE);
                        return Some(end);
                    },
                    None => {},
                }
                match self.check_function_declaration(next_pos) {
                    Some(end) => {
                        self.mark(next_pos - 1, TokenType::FUNCTION);
                        Some(end)
                    },
                    None => None,
                }
            },
            None => None,
        }
    }

    /// Expression: a simple expression, optionally followed by a relation operator and a
    /// second simple expression.
    pub fn check_expression(&mut self, pos: usize) -> (r: Option<usize>)
        ensures
            final(self).same_but_kinds(old(self)),
            final(self).texts() == old(self).texts(),
            only_identifiers_marked(old(self).kinds(), final(self).kinds()),
            (at(r), final(self).kinds()) == grammar::expression(
                old(self).texts(),
                old(self).kinds(),
                pos as int,
            ),
            r matches Some(p) ==> pos < p <= old(self).texts().len(),
        decreases old(self).texts().len() - pos, 4int,
    {
        match self.check_simple_expression(pos) {
            Some(next_pos) => {
                match self.check_relation_operator(next_pos) {
                    Some(after_op) => self.check_simple_expression(after_op),
                    None => Some(next_pos),
                }
            },
            None => None,
        }
    }

    /// SimpleExpression: terms separated by `+` or `-`.
    pub fn check_simple_expression(&mut self, pos: usize) -> (r: Option<usize>)
        ensures
            final(self).same_but_kinds(old(self)),
            final(self).texts() == old(self).texts(),
            only_identifiers_marked(old(self).kinds(), final(self).kinds()),
            (at(r), final(self).kinds()) == grammar::simple_expression(
                old(self).texts(),
                old(self).kinds(),
                pos as int,
            ),
            r matches Some(p) ==> pos < p <= old(self).texts().len(),
        decreases old(self).texts().len() - pos, 3int,
    {
        match self.check_term(pos) {
            Some(next_pos) => {
                let mut cur = next_pos;
                let ghost goal = grammar::more_terms(self.texts(), self.kinds(), cur as int);
                loop
                    invariant
                        self.same_but_kinds(old(self)),
                        self.texts() == old(self).texts(),
                        only_identifiers_marked(old(self).kinds(), self.kinds()),
                        pos < cur <= self.texts().len(),
                        goal == grammar::more_terms(self.texts(), self.kinds(), cur as int),
                        grammar::simple_expression(old(self).texts(), old(self).kinds(), pos as int)
                            == goal,
                    ensures
                        self.same_but_kinds(old(self)),
                        self.texts() == old(self).texts(),
                        only_identifiers_marked(old(self).kinds(), self.kinds()),
                        pos < cur <= self.texts().len(),
                        goal == (Some(cur as int), self.kinds()),
                        grammar::simple_expression(old(self).texts(), old(self).kinds(), pos as int)
                            == goal,
                    decreases self.texts().len() - cur,
                {
                    match self.check_add_operator(cur) {
                        Some(after_op) => match self.check_term(after_op) {
                            Some(after_term) => {
                                cur = after_term;
                            },
                            None => {
                                return None;
                            },
                        },
                        None => {
                            break ;
                        },
                    }
                }
                Some(cur)
            },
            None => None,
        }
    }

    /// Term: factors separated by `*` or `/`.
    pub fn check_term(&mut self, pos: usize) -> (r: Option<usize>)
        ensures
            final(self).same_but_kinds(old(self)),
            final(self).texts() == old(self).texts(),
            only_identifiers_marked(old(self).kinds(), final(self).kinds()),
            (at(r), final(self).kinds()) == grammar::term(
                old(self).texts(),
                old(self).kinds(),
                pos as int,
            ),
            r matches Some(p) ==> pos < p <= old(self).texts().len(),
        decreases old(self).texts().len() - pos, 2int,
    {
        match self.check_factor(pos) {
            Some(next_pos) => {
                let mut cur = next_pos;
                let ghost goal = grammar::more_factors(self.texts(), self.kinds(), cur as int);
                loop
                    invariant
                        self.same_but_kinds(old(self)),
                        self.texts() == old(self).texts(),
                        only_identifiers_marked(old(self).kinds(), self.kinds()),
                        pos < cur <= self.texts().len(),
                        goal == grammar::more_factors(self.texts(), self.kinds(), cur as int),
                        grammar::term(old(self).texts(), old(self).kinds(), pos as int) == goal,
                    ensures
                        self.same_but_kinds(old(self)),
                        self.texts() == old(self).texts(),
                        only_identifiers_marked(old(self).kinds(), self.kinds()),
                        pos < cur <= self.texts().len(),
                        goal == (Some(cur as int), self.kinds()),
                        grammar::term(old(self).texts(), old(self).kinds(), pos as int) == goal,
                    decreases self.texts().len() - cur,
                {
                    match self.check_mult_operator(cur) {
                        Some(after_op) => match self.check_factor(after_op) {
                            Some(after_factor) => {
                                cur = after_factor;
                            },
                            None => {
                                return None;
                            },
                        },
                        None => {
                            break ;
                        },
                    }
                }
                Some(cur)
            },
            None => None,
        }
    }

    /// Factor: a parenthesised expression, a constant, or an identifier with an optional
    /// argument list, which may be empty. An identifier with an argument list is marked as
    /// a function.
    pub fn check_factor(&mut self, pos: usize) -> (r: Option<usize>)
        ensures
            final(self).same_but_kinds(old(self)),
            final(self).texts() == old(self).texts(),
            only_identifiers_marked(old(self).kinds(), final(self).kinds()),
            (at(r), final(self).kinds()) == grammar::factor(
                old(self).texts(),
                old(self).kinds(),
                pos as int,
            ),
            r matches Some(p) ==> pos < p <= old(self).texts().len(),
        decreases old(self).texts().len() - pos, 1int,
    {
        if pos >= self.len() {
            return None;
        }
        if self.text_at(pos, "(") {
            return match self.check_expression(pos + 1) {
                Some(next_pos) => {
                    if next_pos < self.len() && self.text_at(next_pos, ")") {
                        Some(next_pos + 1)
                    } else {
                        None
                    }
                },
                None => None,
            };
        }
        match self.check_constant(pos) {
            Some(next_pos) => {
                return Some(next_pos);
            },
            None => {},
        }
        if !self.identifier_at(pos) {
            return None;
        }
        let mut cur = pos + 1;
        if cur >= self.len() || !self.text_at(cur, "(") {
            return Some(cur);
        }
        cur += 1;
        let ghost k_call = self.kinds();
        let first = self.check_expression(cur);
        let ghost goal = match first {
            Some(p) => grammar::arguments(self.texts(), self.kinds(), p as int),
            None => (Some(cur as int), self.kinds()),
        };
        let ghost outcome = match goal.0 {
            Some(q) => if text_is(old(self).texts(), q, ")"@) {
                (Some(q + 1), goal.1.update(pos as int, TokenType::FUNCTION))
            } else {
                (None, goal.1)
            },
            None => (None, goal.1),
        };
        assert(grammar::factor(old(self).texts(), old(self).kinds(), pos as int) == outcome);
        match first {
            Some(next_pos) => {
                cur = next_pos;
                loop
                    invariant
                        self.same_but_kinds(old(self)),
                        self.texts() == old(self).texts(),
                        only_identifiers_marked(old(self).kinds(), self.kinds()),
                        pos < cur <= self.texts().len(),
                        goal == grammar::arguments(self.texts(), self.kinds(), cur as int),
                        grammar::factor(old(self).texts(), old(self).kinds(), pos as int)
                            == outcome,
                        outcome == match goal.0 {
                            Some(q) => if text_is(old(self).texts(), q, ")"@) {
                                (Some(q + 1), goal.1.update(pos as int, TokenType::FUNCTION))
                            } else {
                                (None, goal.1)
                            },
                            None => (None, goal.1),
                        },
                    ensures
                        self.same_but_kinds(old(self)),
                        self.texts() == old(self).texts(),
                        only_identifiers_marked(old(self).kinds(), self.kinds()),
                        pos < cur <= self.texts().len(),
                        goal == (Some(cur as int), self.kinds()),
                    decreases self.texts().len() - cur,
                {
                    if cur >= self.len() {
                        return None;
                    }
                    if self.text_at(cur, ",") {
                        match self.check_expression(cur + 1) {
                            Some(next_pos) => {
                                cur = next_pos;
                            },
                            None => {
                                return None;
                            },
                        }
                    } else {
                        break ;
                    }
                }
            },
            None => {},
        }
        if self.text_at(cur, ")") {
            self.mark(pos, TokenType::FUNCTION);
            Some(cur + 1)
        } else {
            None
        }
    }

    /// Assignment: an identifier, `=`, further `identifier =` pairs, an expression and `;`.
    pub fn check_assignment(&mut self, pos: usize) -> (r: Option<usize>)
        ensures
            final(self).same_but_kinds(old(self)),
            final(self).texts() == old(self).texts(),
            only_identifiers_marked(old(self).kinds(), final(self).kinds()),
            (at(r), final(self).kinds()) == grammar::assignment(
                old(self).texts(),
                old(self).kinds(),
                pos as int,
            ),
            r matches Some(p) ==> pos < p <= old(self).texts().len(),
    {
        if !(self.identifier_at(pos) && self.text_at(pos + 1, "=")) {
            return None;
        }
        let mut cur = pos + 2;
        let ghost targets = grammar::assignment_targets(self.texts(), self.kinds(), cur as int);
        loop
            invariant
                *self == *old(self),
                pos < cur <= self.texts().len(),
                targets == grammar::assignment_targets(self.texts(), self.kinds(), cur as int),
                ident_at(self.kinds(), pos as int) && text_is(self.texts(), pos + 1, "="@),
                targets == grammar::assignment_targets(self.texts(), self.kinds(), pos + 2),
            ensures
                *self == *old(self),
                pos < cur <= self.texts().len(),
                targets == Some(cur as int),
                ident_at(self.kinds(), pos as int) && text_is(self.texts(), pos + 1, "="@),
                targets == grammar::assignment_targets(self.texts(), self.kinds(), pos + 2),
            decreases self.texts().len() - cur,
        {
            if cur >= self.len() {
                return None;
            }
            if self.identifier_at(cur) {
                if cur + 1 >= self.len() {
                    return None;
                }
                if self.text_at(cur + 1, "=") {
                    cur += 2;
                } else {
                    break ;
                }
            } else {
                break ;
            }
        }
        match self.check_expression(cur) {
            Some(next_pos) => if self.text_at(next_pos, ";") {
                Some(next_pos + 1)
            } else {
                None
            },
            None => None,
        }
    }

    /// WhileLoop: `while`, `(`, an expression, `)` and a block.
    pub fn check_while_loop(&mut self, pos: usize) -> (r: Option<usize>)
        ensures
            final(self).same_but_kinds(old(self)),
            final(self).texts() == old(self).texts(),
            only_identifiers_marked(old(self).kinds(), final(self).kinds()),
            (at(r), final(self).kinds()) == grammar::while_loop(
                old(self).texts(),
                old(self).kinds(),
                pos as int,
            ),
            r matches Some(p) ==> pos < p <= old(self).texts().len(),
        decreases old(self).texts().len() - pos, 1int,
    {
        if !(self.text_at(pos, "while") && self.text_at(pos + 1, "(")) {
            return None;
        }
        match self.check_expression(pos + 2) {
            Some(next_pos) => if self.text_at(next_pos, ")") {
                self.check_block(next_pos + 1)
            } else {
                None
            },
            None => None,
        }
    }

    /// IfStatement: `if`, `(`, an expression, `)` and a block.
    pub fn check_if_statement(&mut self, pos: usize) -> (r: Option<usize>)
        ensures
            final(self).same_but_kinds(old(self)),
            final(self).texts() == old(self).texts(),
            only_identifiers_marked(old(self).kinds(), final(self).kinds()),
            (at(r), final(self).kinds()) == grammar::if_statement(
                old(self).texts(),
                old(self).kinds(),
                pos as int,
            ),
            r matches Some(p) ==> pos < p <= old(self).texts().len(),
        decreases old(self).texts().len() - pos, 1int,
    {
        if !(self.text_at(pos, "if") && self.text_at(pos + 1, "(")) {
            return None;
        }
        match self.check_expression(pos + 2) {
            Some(next_pos) => if self.text_at(next_pos, ")") {
                self.check_block(next_pos + 1)
            } else {
                None
            },
            None => None,
        }
    }

    /// ReturnStatement: `return`, an expression and `;`.
    pub fn check_return_statement(&mut self, pos: usize) -> (r: Option<usize>)
        ensures
            final(self).same_but_kinds(old(self)),
            final(self).texts() == old(self).texts(),
            only_identifiers_marked(old(self).kinds(), final(self).kinds()),
            (at(r), final(self).kinds()) == grammar::return_statement(
                old(self).texts(),
                old(self).kinds(),
                pos as int,
            ),
            r matches Some(p) ==> pos < p <= old(self).texts().len(),
    {
        if !self.text_at(pos, "return") {
            return None;
        }
        match self.check_expression(pos + 1) {
            Some(next_pos) => if self.text_at(next_pos, ";") {
                Some(next_pos + 1)
            } else {
                None
            },
            None => None,
        }
    }

    /// Statement: an assignment, a while loop, an if statement, a return statement, or an
    /// expression followed by `;`, tried in this order.
    pub fn check_statement(&mut self, pos: usize) -> (r: Option<usize>)
        ensures
            final(self).same_but_kinds(old(self)),
            final(self).texts() == old(self).texts(),
            only_identifiers_marked(old(self).kinds(), final(self).kinds()),
            (at(r), final(self).kinds()) == grammar::statement(
                old(self).texts(),
                old(self).kinds(),
                pos as int,
            ),
            r matches Some(p) ==> pos < p <= old(self).texts().len(),
        decreases old(self).texts().len() - pos, 2int,
    {
        match self.check_assignment(pos) {
            Some(next_pos) => {
                return Some(next_pos);
            },
            None => {},
        }
        match self.check_while_loop(pos) {
            Some(next_pos) => {
                return Some(next_pos);
            },
            None => {},
        }
        match self.check_if_statement(pos) {
            Some(next_pos) => {
                return Some(next_pos);
            },
            None => {},
        }
        match self.check_return_statement(pos) {
            Some(next_pos) => {
                return Some(next_pos);
            },
            None => {},
        }
        match self.check_expression(pos) {
            Some(next_pos) => if self.text_at(next_pos, ";") {
                Some(next_pos + 1)
            } else {
                None
            },
            None => None,
        }
    }

    /// Block: `{`, declarations, statements, function definitions, `}`.
    pub fn check_block(&mut self, pos: usize) -> (r: Option<usize>)
        ensures
            final(self).same_but_kinds(old(self)),
            final(self).texts() == old(self).texts(),
            only_identifiers_marked(old(self).kinds(), final(self).kinds()),
            (at(r), final(self).kinds()) == grammar::block(
                old(self).texts(),
                old(self).kinds(),
                pos as int,
            ),
            r matches Some(p) ==> pos < p <= old(self).texts().len(),
        decreases old(self).texts().len() - pos, 0int,
    {
        if !self.text_at(pos, "{") {
            return None;
        }
        let mut cur = pos + 1;
        let ghost decls = grammar::declarations(self.texts(), self.kinds(), cur as int);
        loop
            invariant_except_break
                decls == grammar::declarations(self.texts(), self.kinds(), cur as int),
            invariant
                self.same_but_kinds(old(self)),
                self.texts() == old(self).texts(),
                only_identifiers_marked(old(self).kinds(), self.kinds()),
                pos < cur <= self.texts().len(),
            ensures
                self.same_but_kinds(old(self)),
                self.texts() == old(self).texts(),
                only_identifiers_marked(old(self).kinds(), self.kinds()),
                pos < cur <= self.texts().len(),
                decls == (cur as int, self.kinds()),
            decreases self.texts().len() - cur,
        {
            match self.check_declaration(cur) {
                Some(next_pos) => {
                    cur = next_pos;
                },
                None => {
                    break ;
                },
            }
        }
        let ghost stmts = grammar::statements(self.texts(), self.kinds(), cur as int);
        loop
            invariant_except_break
                stmts == grammar::statements(self.texts(), self.kinds(), cur as int),
            invariant
                self.same_but_kinds(old(self)),
                self.texts() == old(self).texts(),
                only_identifiers_marked(old(self).kinds(), self.kinds()),
                pos < cur <= self.texts().len(),
            ensures
                self.same_but_kinds(old(self)),
                self.texts() == old(self).texts(),
                only_identifiers_marked(old(self).kinds(), self.kinds()),
                pos < cur <= self.texts().len(),
                stmts == (cur as int, self.kinds()),
            decreases self.texts().len() - cur,
        {
            match self.check_statement(cur) {
                Some(next_pos) => {
                    cur = next_pos;
                },
                None => {
                    break ;
                },
            }
        }
        let ghost defs = grammar::definitions(self.texts(), self.kinds(), cur as int);
        loop
            invariant_except_break
                defs == grammar::definitions(self.texts(), self.kinds(), cur as int),
            invariant
                self.same_but_kinds(old(self)),
                self.texts() == old(self).texts(),
                only_identifiers_marked(old(self).kinds(), self.kinds()),
                pos < cur <= self.texts().len(),
            ensures
                self.same_but_kinds(old(self)),
                self.texts() == old(self).texts(),
                only_identifiers_marked(old(self).kinds(), self.kinds()),
                pos < cur <= self.texts().len(),
                defs == (cur as int, self.kinds()),
            decreases self.texts().len() - cur,
        {
            match self.check_function_definition(cur) {
                Some(next_pos) => {
                    cur = next_pos;
                },
                None => {
                    break ;
                },
            }
        }
        if self.text_at(cur, "}") {
            Some(cur + 1)
        } else {
            None
        }
    }

    /// FunctionDefinition: a declaration type, a parameter block and a block. The defined
    /// identifier is marked as a function.
    pub fn check_function_definition(&mut self, pos: usize) -> (r: Option<usize>)
        ensures
            final(self).same_but_kinds(old(self)),
            final(self).texts() == old(self).texts(),
            only_identifiers_marked(old(self).kinds(), final(self).kinds()),
            (at(r), final(self).kinds()) == grammar::function_definition(
                old(self).texts(),
                old(self).kinds(),
                pos as int,
            ),
            r matches Some(p) ==> pos < p <= old(self).texts().len(),
        decreases old(self).texts().len() - pos, 1int,
    {
        match self.check_declaration_type(pos) {
            Some(next_pos) => match self.check_parameter_block(next_pos) {
                Some(next_pos2) => match self.check_block(next_pos2) {
                    Some(next_pos3) => {
                        self.mark(next_pos - 1, TokenType::FUNCTION);
                        Some(next_pos3)
                    },
                    None => None,
                },
                None => None,
            },
            None => None,
        }
    }

    /// MainDeclaration: `void`, `main`, `(`, `)` and a block.
    pub fn check_main_declaration(&mut self, pos: usize) -> (r: Option<usize>)
        ensures
            final(self).same_but_kinds(old(self)),
            final(self).texts() == old(self).texts(),
            only_identifiers_marked(old(self).kinds(), final(self).kinds()),
            (at(r), final(self).kinds()) == grammar::main_declaration(
                old(self).texts(),
                old(self).kinds(),
                pos as int,
            ),
            r matches Some(p) ==> pos < p <= old(self).texts().len(),
    {
        if self.text_at(pos, "void") && self.text_at(pos + 1, "main") && self.text_at(pos + 2, "(")
            && self.text_at(pos + 3, ")") {
            self.check_block(pos + 4)
        } else {
            None
        }
    }

    /// Program: declarations, the main declaration, then function definitions.
    pub fn check_program(&mut self, pos: usize) -> (r: Option<usize>)
        ensures
            final(self).same_but_kinds(old(self)),
            final(self).texts() == old(self).texts(),
            only_identifiers_marked(old(self).kinds(), final(self).kinds()),
            (at(r), final(self).kinds()) == grammar::program(
                old(self).texts(),
                old(self).kinds(),
                pos as int,
            ),
            r matches Some(p) ==> pos < p <= old(self).texts().len(),
    {
        let mut cur = pos;
        let ghost decls = grammar::declarations(self.texts(), self.kinds(), cur as int);
        loop
            invariant_except_break
                decls == grammar::declarations(self.texts(), self.kinds(), cur as int),
            invariant
                self.same_but_kinds(old(self)),
                self.texts() == old(self).texts(),
                only_identifiers_marked(old(self).kinds(), self.kinds()),
                pos <= cur,
                cur == pos || cur <= self.texts().len(),
            ensures
                self.same_but_kinds(old(self)),
                self.texts() == old(self).texts(),
                only_identifiers_marked(old(self).kinds(), self.kinds()),
                pos <= cur,
                cur == pos || cur <= self.texts().len(),
                decls == (cur as int, self.kinds()),
            decreases self.texts().len() - cur,
        {
            match self.check_declaration(cur) {
                Some(next_pos) => {
                    cur = next_pos;
                },
                None => {
                    break ;
                },
            }
        }
        match self.check_main_declaration(cur) {
            Some(next_pos) => {
                cur = next_pos;
            },
            None => {
                return None;
            },
        }
        let ghost defs = grammar::definitions(self.texts(), self.kinds(), cur as int);
        loop
            invariant_except_break
                defs == grammar::definitions(self.texts(), self.kinds(), cur as int),
            invariant
                self.same_but_kinds(old(self)),
                self.texts() == old(self).texts(),
                only_identifiers_marked(old(self).kinds(), self.kinds()),
                pos < cur <= self.texts().len(),
            ensures
                self.same_but_kinds(old(self)),
                self.texts() == old(self).texts(),
                only_identifiers_marked(old(self).kinds(), self.kinds()),
                pos < cur <= self.texts().len(),
                defs == (cur as int, self.kinds()),
            decreases self.texts().len() - cur,
        {
            match self.check_function_definition(cur) {
                Some(next_pos) => {
                    cur = next_pos;
                },
                None => {
                    break ;
                },
            }
        }
        Some(cur)
    }

    /// The program text that the tokens are read from.
    pub closed spec fn source(&self) -> Seq<char> {
        self.scanner.text()
    }

    /// Where the scanning of the program text stands.
    pub closed spec fn scan_state(&self) -> ScanState {
        self.scanner.state()
    }

    /// The scanner is well formed, and every token starts on a line and at a column numbered
    /// from 1.
    pub closed spec fn wf(&self) -> bool {
        &&& self.scanner.wf()
        &&& forall|i: int| 0 <= i < self.views().len() ==> token_placed(#[trigger] self.views()[i])
    }

    /// In a well-formed parser the scanner stands within the program text, on a line and a
    /// column numbered from 1.
    pub proof fn lemma_wf(&self)
        requires
            self.wf(),
        ensures
            0 <= self.scan_state().pos <= self.source().len(),
            1 <= self.scan_state().line,
            1 <= self.scan_state().col,
    {
        self.scanner.lemma_wf();
    }

    /// A parser over the program text `source`, with no tokens read yet.
    pub fn new(source: &str) -> (p: Parser)
        ensures
            p.wf(),
            p.views() == Seq::<TokenView>::empty(),
            p.source() == source@,
            p.scan_state() == (ScanState { pos: 0, line: 1, col: 1, preceded: false }),
    {
        let scan = Scanner::new(source);
        let p = Parser { scanner: scan, tokens: Vec::new() };
        assert(p.views() =~= Seq::<TokenView>::empty());
        p
    }

    /// Reads all the remaining tokens of the program text and appends them to the token list.
    /// No line or column number may overflow an `i32` on the way (`can_parse` tests a bound
    /// that ensures it).
    pub fn parse(&mut self)
        requires
            old(self).wf(),
            counters_fit(old(self).source(), old(self).scan_state()),
        ensures
            final(self).wf(),
            final(self).source() == old(self).source(),
            final(self).views() == old(self).views() + scanned_tokens(old(self).source(), old(self).scan_state()),
            final(self).scan_state() == scan_end(old(self).source(), old(self).scan_state()),
            counters_fit(final(self).source(), final(self).scan_state()),
            scanned_tokens(final(self).source(), final(self).scan_state()) == Seq::<TokenView>::empty(),
            scan_end(final(self).source(), final(self).scan_state()) == final(self).scan_state(),
    {
        proof {
            self.scanner.lemma_wf();
            law_second_read_reads_nothing(self.source(), self.scan_state());
        }
        let ghost all = (
            scanned_tokens(self.source(), self.scan_state()),
            scan_end(self.source(), self.scan_state()),
        );
        proof {
            self.scanner.lemma_wf();
            law_scan_ends(self.source(), self.scan_state());
        }
        loop
            invariant
                self.wf(),
                self.source() == old(self).source(),
                counters_fit(self.source(), self.scan_state()),
                scan(self.source(), self.scan_state()) is Some,
                self.views() + scanned_tokens(self.source(), self.scan_state()) == old(self).views()
                    + all.0,
                scan_end(self.source(), self.scan_state()) == all.1,
            ensures
                self.wf(),
                self.source() == old(self).source(),
                self.views() == old(self).views() + all.0,
                self.scan_state() == all.1,
            decreases self.source().len() - self.scan_state().pos,
        {
            let ghost before = self.views();
            let ghost rest = scanned_tokens(self.source(), self.scan_state());
            match self.scanner.get_next_token() {
                Some(token) => {
                    let ghost tk = token@;
                    self.tokens.push(token);
                    assert(self.views() =~= before.push(tk));
                    assert(rest =~= seq![tk] + scanned_tokens(self.source(), self.scan_state()));
                    assert(self.views() + scanned_tokens(self.source(), self.scan_state()) =~= before
                        + rest);
                    proof {
                        self.scanner.lemma_wf();
                        law_scan_ends(self.source(), self.scan_state());
                    }
                },
                None => {
                    assert(rest =~= Seq::<TokenView>::empty());
                    assert(self.views() =~= self.views() + rest);
                    break ;
                },
            }
        }
    }

    /// Reads the remaining tokens, then checks them against the grammar's Program rule from
    /// the first token on, marking identifiers as variables or functions on the way. Gives
    /// back "OK!" when the tokens start with a program and "Panic" otherwise.
    pub fn check(&mut self) -> (verdict: &str)
        requires
            old(self).wf(),
            counters_fit(old(self).source(), old(self).scan_state()),
        ensures
            ({
                let tokens = old(self).views() + scanned_tokens(old(self).source(), old(self).scan_state());
                let (result, kinds) = grammar::program(texts_of(tokens), kinds_of(tokens), 0);
                &&& final(self).views() == with_kinds(tokens, kinds)
                &&& only_identifiers_marked(kinds_of(tokens), kinds)
                &&& verdict@ == if result is Some {
                    "OK!"@
                } else {
                    "Panic"@
                }
            }),
            final(self).wf(),
            final(self).source() == old(self).source(),
            final(self).scan_state() == scan_end(old(self).source(), old(self).scan_state()),
            counters_fit(final(self).source(), final(self).scan_state()),
            scanned_tokens(final(self).source(), final(self).scan_state()) == Seq::<TokenView>::empty(),
    {
        self.parse();
        let ghost parsed = *self;
        let result = self.check_program(0);
        assert forall|i: int| 0 <= i < self.views().len() implies self.views()[i] == (TokenView {
            kind: self.kinds()[i],
            ..parsed.views()[i]
        }) by {
            assert(self.views()[i].text == parsed.views()[i].text);
        }
        assert(self.views() =~= with_kinds(parsed.views(), self.kinds()));
        match result {
            Some(_) => "OK!",
            None => "Panic",
        }
    }

    /// The XHTML page that shows the tokens in colour, laid out on their lines and columns.
    pub fn to_xhtml(&self) -> (page: String)
        requires
            self.wf(),
            render::renderable(self.views()),
        ensures
            page@ == render::page(self.views()),
    {
        let mut out = String::new();
        out.append(
            "<!DOCTYPE html PUBLIC \"-//W3C//DTD XHTML 1.0 Transitional//EN\" \"http://www.w3.org/TR/xhtml1/DTD/xhtml1\n        -transitional.dtd\">\n",
        );
        out.append("<html xmlns=\"http://www.w3.org/1999/xhtml\" xml:lang=\"en\">\n");
        out.append(
            "<head>\n<title>\nX Formatted file</title>\n</head>\n<body bgcolor=\"navy\" text=\"yellow\" link=\"yellow\" vlink=\"yellow\">",
        );
        out.append("<font face=\"Courier New\">\n");
        let ghost v = self.views();
        let mut i: usize = 0;
        while i < self.tokens.len()
            invariant
                v == self.views(),
                self.wf(),
                render::renderable(v),
                0 <= i <= v.len(),
                v.len() == self.tokens@.len(),
                out@ == render::page_header() + render::page_body(v, i as int),
            decreases v.len() - i,
        {
            let token = &self.tokens[i];
            let text = token.get_text();
            push_token_markup(&mut out, token);
            let ghost with_markup = out@;
            assert(with_markup =~= render::page_header() + render::page_body(v, i as int)
                + render::token_markup(v[i as int]));
            if i + 1 < self.tokens.len() {
                let next = &self.tokens[i + 1];
                assert(token_placed(v[i as int]) && token_placed(v[i + 1]));
                let space_num: i32;
                if next.get_line_number() > token.get_line_number() {
                    out.append("<br />\n");
                    space_num = next.get_char_pos() - 1;
                } else {
                    assert(i32::MIN <= render::space_count(v, i as int) <= i32::MAX);
                    space_num = next.get_char_pos() - token.get_char_pos() - (text.len() as i32);
                }
                push_spaces(&mut out, space_num);
                assert(out@ =~= with_markup + render::gap(v, i as int));
            } else {
                assert(out@ =~= with_markup + render::gap(v, i as int));
            }
            assert(out@ =~= render::page_header() + render::page_body(v, i + 1));
            i += 1;
        }
        out
    }

    /// True when the rest of the program text is short enough that no line or column number
    /// can overflow while it is read: each character moves the column at most four places and
    /// the line at most one. `parse` and `check` may then be called.
    pub fn can_parse(&self) -> (b: bool)
        requires
            self.wf(),
        ensures
            b == within_bounds(self.source(), self.scan_state()),
            b ==> counters_fit(self.source(), self.scan_state()),
    {
        let b = self.scanner.within_bounds();
        proof {
            if b {
                lemma_bounds_fit(self.source(), self.scan_state());
            }
        }
        b
    }

    /// Whether `to_xhtml` may be called: counting the spaces between tokens on one line
    /// overflows no `i32`.
    pub fn can_render(&self) -> (b: bool)
        requires
            self.wf(),
        ensures
            b == render::renderable(self.views()),
    {
        let ghost v = self.views();
        let n = self.tokens.len();
        let mut i: usize = 0;
        while i < n
            invariant
                v == self.views(),
                n == v.len() == self.tokens@.len(),
                0 <= i <= n,
                forall|j: int|
                    0 <= j < i && j + 1 < v.len() && !(v[j + 1].line > v[j].line) ==> i32::MIN
                        <= #[trigger] render::space_count(v, j) <= i32::MAX,
            decreases n - i,
        {
            if i + 1 < n {
                let this = &self.tokens[i];
                let next = &self.tokens[i + 1];
                assert(this@ == v[i as int] && next@ == v[i + 1]);
                if !(next.get_line_number() > this.get_line_number()) {
                    let count = (next.get_char_pos() as i64) - (this.get_char_pos() as i64) - ((
                    this.get_text().len() as i32) as i64);
                    assert(count == render::space_count(v, i as int));
                    if count < -0x8000_0000 || count > 0x7fff_ffff {
                        return false;
                    }
                }
            }
            i += 1;
        }
        true
    }

    /// The tokens read so far.
    pub fn tokens(&self) -> (v: &[Token])
        ensures
            v@.map_values(|t: Token| t@) == self.views(),
    {
        self.tokens.as_slice()
    }
}

/// Appends a token's markup in its colour.
fn push_token_markup(out: &mut String, token: &Token)
    ensures
        final(out)@ == old(out)@ + render::token_markup(token@),
{
    let text = token.get_text();
    let color: &str;
    match token.get_type() {
        TokenType::FLOATCONSTANT | TokenType::INTCONSTANT => {
            color = "aqua";
            out.append("<font color=\"");
            out.append(color);
            out.append("\"><b>");
            out.append(text);
            out.append("</b></font>");
        },
        TokenType::FUNCTION => {
            color = "orange";
            out.append("<font color=\"");
            out.append(color);
            out.append("\">");
            out.append(text);
            out.append("</font>");
        },
        TokenType::VARIABLE => {
            color = "yellow";
            out.append("<font color=\"");
            out.append(color);
            out.append("\">");
            out.append(text);
            out.append("</font>");
        },
        TokenType::OPERATOR | TokenType::KEYWORD => {
            color = "white";
            out.append("<font color=\"");
            out.append(color);
            out.append("\"><b>");
            out.append(text);
            out.append("</b></font>");
        },
        _ => {
            color = "white";
            out.append("<font color=\"");
            out.append(color);
            out.append("\">");
            out.append(text);
            out.append("</font>");
        },
    }
}

/// Appends `space_num` non-breaking spaces (none when it is not positive).
fn push_spaces(out: &mut String, space_num: i32)
    ensures
        final(out)@ == old(out)@ + render::spaces(space_num as int),
{
    let ghost start = out@;
    let mut j: i32 = 0;
    while j < space_num
        invariant
            0 <= j,
            j <= space_num || j == 0,
            out@ == start + render::spaces(j as int),
        decreases space_num - j,
    {
        out.append("&nbsp;");
        j += 1;
        assert(out@ =~= start + render::spaces(j as int));
    }
    assert(render::spaces(j as int) =~= render::spaces(space_num as int));
}

} // verus!
