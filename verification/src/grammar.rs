//! The grammar that the parser checks, as spec functions over the token texts and kinds.
//!
//! Each rule takes the texts of the tokens (which never change), the current kinds of the tokens
//! (which the parser rewrites as it learns which identifiers name functions and which name
//! variables), and the position at which the rule is tried. A rule gives back the position just
//! after what it matched (`None` when it does not match) together with the kinds after the
//! attempt: a failed attempt may already have marked some identifiers.
//!
//! Some rules carry a bound such as `pos < p <= t.len()` on a position that a sub-rule gave
//! back. Every sub-rule only ever gives back such positions (see the parser's contracts), so the
//! bound always holds; it is written down so that the recursion visibly makes progress.
use crate::token::{is_constant_kind, is_identifier_kind, TokenType};
use vstd::prelude::*;

verus! {

/// The texts of the tokens, in order.
pub type Texts = Seq<Seq<char>>;

/// The kinds of the tokens, in order.
pub type Kinds = Seq<TokenType>;

pub open spec fn text_is(t: Texts, pos: int, lit: Seq<char>) -> bool {
    0 <= pos < t.len() && t[pos] == lit
}

pub open spec fn ident_at(k: Kinds, pos: int) -> bool {
    0 <= pos < k.len() && is_identifier_kind(k[pos])
}

pub open spec fn constant_at(k: Kinds, pos: int) -> bool {
    0 <= pos < k.len() && is_constant_kind(k[pos])
}

pub open spec fn is_relation_op(s: Seq<char>) -> bool {
    s == "=="@ || s == "<"@ || s == ">"@ || s == "<="@ || s == ">="@ || s == "!="@
}

pub open spec fn is_add_op(s: Seq<char>) -> bool {
    s == "+"@ || s == "-"@
}

pub open spec fn is_mult_op(s: Seq<char>) -> bool {
    s == "*"@ || s == "/"@
}

pub open spec fn is_integer_name(s: Seq<char>) -> bool {
    s == "char"@ || s == "short"@ || s == "int"@ || s == "long"@
}

pub open spec fn is_float_name(s: Seq<char>) -> bool {
    s == "float"@ || s == "double"@
}

/// RelationOperator := `==` | `<` | `>` | `<=` | `>=` | `!=`
pub open spec fn relation_operator(t: Texts, pos: int) -> Option<int> {
    if 0 <= pos < t.len() && is_relation_op(t[pos]) {
        Some(pos + 1)
    } else {
        None
    }
}

/// AddOperator := `+` | `-`
pub open spec fn add_operator(t: Texts, pos: int) -> Option<int> {
    if 0 <= pos < t.len() && is_add_op(t[pos]) {
        Some(pos + 1)
    } else {
        None
    }
}

/// MultOperator := `*` | `/`
pub open spec fn mult_operator(t: Texts, pos: int) -> Option<int> {
    if 0 <= pos < t.len() && is_mult_op(t[pos]) {
        Some(pos + 1)
    } else {
        None
    }
}

/// Constant := an integer or floating-point constant token
pub open spec fn constant(k: Kinds, pos: int) -> Option<int> {
    if constant_at(k, pos) {
        Some(pos + 1)
    } else {
        None
    }
}

/// IntegerType := [`unsigned`] (`char` | `short` | `int` | `long`)
pub open spec fn integer_type(t: Texts, pos: int) -> Option<int> {
    if !(0 <= pos < t.len()) {
        None
    } else {
        let p = if t[pos] == "unsigned"@ {
            pos + 1
        } else {
            pos
        };
        if 0 <= p < t.len() && is_integer_name(t[p]) {
            Some(p + 1)
        } else {
            None
        }
    }
}

/// FloatType := `float` | `double`
pub open spec fn float_type(t: Texts, pos: int) -> Option<int> {
    if 0 <= pos < t.len() && is_float_name(t[pos]) {
        Some(pos + 1)
    } else {
        None
    }
}

/// DataType := IntegerType | FloatType
pub open spec fn data_type(t: Texts, pos: int) -> Option<int> {
    match integer_type(t, pos) {
        Some(p) => Some(p),
        None => float_type(t, pos),
    }
}

/// DataType Identifier: both a DeclarationType and a Parameter.
pub open spec fn typed_identifier(t: Texts, k: Kinds, pos: int) -> Option<int> {
    match data_type(t, pos) {
        Some(p) => if ident_at(k, p) {
            Some(p + 1)
        } else {
            None
        },
        None => None,
    }
}

/// VariableDeclaration := [`=` Constant] `;`
pub open spec fn variable_declaration(t: Texts, k: Kinds, pos: int) -> Option<int> {
    if !(0 <= pos < t.len()) {
        None
    } else {
        let after = if t[pos] == "="@ {
            constant(k, pos + 1)
        } else {
            Some(pos)
        };
        match after {
            Some(p) => if text_is(t, p, ";"@) {
                Some(p + 1)
            } else {
                None
            },
            None => None,
        }
    }
}

/// The rest of a parameter list after its first parameter: { `,` Parameter }.
/// It fails when the tokens run out.
pub open spec fn more_parameters(t: Texts, k: Kinds, pos: int) -> Option<int>
    decreases t.len() - pos,
{
    if !(0 <= pos < t.len()) {
        None
    } else if t[pos] == ","@ {
        match typed_identifier(t, k, pos + 1) {
            Some(p) => if pos < p <= t.len() {
                more_parameters(t, k, p)
            } else {
                None
            },
            None => None,
        }
    } else {
        Some(pos)
    }
}

/// ParameterBlock := `(` [Parameter { `,` Parameter }] `)`
/// On success, an identifier just before the `(` is marked as a function.
pub open spec fn parameter_block(t: Texts, k: Kinds, pos: int) -> (Option<int>, Kinds) {
    if !text_is(t, pos, "("@) {
        (None, k)
    } else {
        let list_end = match typed_identifier(t, k, pos + 1) {
            Some(p) => more_parameters(t, k, p),
            None => Some(pos + 1),
        };
        match list_end {
            Some(q) => if text_is(t, q, ")"@) {
                (Some(q + 1), if ident_at(k, pos - 1) {
                    k.update(pos - 1, TokenType::FUNCTION)
                } else {
                    k
                })
            } else {
                (None, k)
            },
            None => (None, k),
        }
    }
}

/// FunctionDeclaration := ParameterBlock `;`
pub open spec fn function_declaration(t: Texts, k: Kinds, pos: int) -> (Option<int>, Kinds) {
    let (r, k1) = parameter_block(t, k, pos);
    match r {
        Some(p) => if text_is(t, p, ";"@) {
            (Some(p + 1), k1)
        } else {
            (None, k1)
        },
        None => (None, k1),
    }
}

/// Declaration := DeclarationType (VariableDeclaration | FunctionDeclaration)
/// The declared identifier is marked as a variable or as a function.
pub open spec fn declaration(t: Texts, k: Kinds, pos: int) -> (Option<int>, Kinds) {
    match typed_identifier(t, k, pos) {
        None => (None, k),
        Some(p) => match variable_declaration(t, k, p) {
            Some(q) => (Some(q), k.update(p - 1, TokenType::VARIABLE)),
            None => {
                let (r, k1) = function_declaration(t, k, p);
                match r {
                    Some(q) => (Some(q), k1.update(p - 1, TokenType::FUNCTION)),
                    None => (None, k1),
                }
            },
        },
    }
}

/// { Declaration }: as many declarations as match, from `pos` on.
pub open spec fn declarations(t: Texts, k: Kinds, pos: int) -> (int, Kinds)
    decreases t.len() - pos,
{
    let (r, k1) = declaration(t, k, pos);
    match r {
        Some(p) => if pos < p <= t.len() {
            declarations(t, k1, p)
        } else {
            (pos, k1)
        },
        None => (pos, k1),
    }
}

/// Expression := SimpleExpression [RelationOperator SimpleExpression]
pub open spec fn expression(t: Texts, k: Kinds, pos: int) -> (Option<int>, Kinds)
    decreases t.len() - pos, 4int,
{
    let (r, k1) = simple_expression(t, k, pos);
    match r {
        None => (None, k1),
        Some(p) => if pos < p < t.len() && is_relation_op(t[p]) {
            simple_expression(t, k1, p + 1)
        } else {
            (Some(p), k1)
        },
    }
}

/// SimpleExpression := Term { AddOperator Term }
pub open spec fn simple_expression(t: Texts, k: Kinds, pos: int) -> (Option<int>, Kinds)
    decreases t.len() - pos, 3int,
{
    let (r, k1) = term(t, k, pos);
    match r {
        None => (None, k1),
        Some(p) => if pos < p <= t.len() {
            more_terms(t, k1, p)
        } else {
            (None, k1)
        },
    }
}

/// { AddOperator Term }
pub open spec fn more_terms(t: Texts, k: Kinds, pos: int) -> (Option<int>, Kinds)
    decreases t.len() - pos, 0int,
{
    if 0 <= pos < t.len() && is_add_op(t[pos]) {
        let (r, k1) = term(t, k, pos + 1);
        match r {
            None => (None, k1),
            Some(p) => if pos < p <= t.len() {
                more_terms(t, k1, p)
            } else {
                (None, k1)
            },
        }
    } else {
        (Some(pos), k)
    }
}

/// Term := Factor { MultOperator Factor }
pub open spec fn term(t: Texts, k: Kinds, pos: int) -> (Option<int>, Kinds)
    decreases t.len() - pos, 2int,
{
    let (r, k1) = factor(t, k, pos);
    match r {
        None => (None, k1),
        Some(p) => if pos < p <= t.len() {
            more_factors(t, k1, p)
        } else {
            (None, k1)
        },
    }
}

/// { MultOperator Factor }
pub open spec fn more_factors(t: Texts, k: Kinds, pos: int) -> (Option<int>, Kinds)
    decreases t.len() - pos, 0int,
{
    if 0 <= pos < t.len() && is_mult_op(t[pos]) {
        let (r, k1) = factor(t, k, pos + 1);
        match r {
            None => (None, k1),
            Some(p) => if pos < p <= t.len() {
                more_factors(t, k1, p)
            } else {
                (None, k1)
            },
        }
    } else {
        (Some(pos), k)
    }
}

/// Factor := `(` Expression `)` | Constant | Identifier [`(` [Expression { `,` Expression }] `)`]
pub open spec fn factor(t: Texts, k: Kinds, pos: int) -> (Option<int>, Kinds)
    decreases t.len() - pos, 1int,
{
    if !(0 <= pos < t.len()) {
        (None, k)
    } else if t[pos] == "("@ {
        let (r, k1) = expression(t, k, pos + 1);
        match r {
            Some(p) => if pos < p < t.len() && t[p] == ")"@ {
                (Some(p + 1), k1)
            } else {
                (None, k1)
            },
            None => (None, k1),
        }
    } else {
        operand(t, k, pos)
    }
}

/// Constant | Identifier [`(` [Expression { `,` Expression }] `)`]
/// An identifier with an argument list, empty or not, is marked as a function.
pub open spec fn operand(t: Texts, k: Kinds, pos: int) -> (Option<int>, Kinds)
    decreases t.len() - pos, 0int,
{
    if constant_at(k, pos) {
        (Some(pos + 1), k)
    } else if !(0 <= pos < t.len()) || !ident_at(k, pos) {
        (None, k)
    } else if !(pos + 1 < t.len()) || t[pos + 1] != "("@ {
        (Some(pos + 1), k)
    } else {
        let (r, k1) = expression(t, k, pos + 2);
        let (r2, k2) = match r {
            None => (Some(pos + 2), k1),
            Some(p) => if pos < p <= t.len() {
                arguments(t, k1, p)
            } else {
                (None, k1)
            },
        };
        match r2 {
            Some(q) => if text_is(t, q, ")"@) {
                (Some(q + 1), k2.update(pos, TokenType::FUNCTION))
            } else {
                (None, k2)
            },
            None => (None, k2),
        }
    }
}

/// { `,` Expression }: the rest of an argument list. It fails when the tokens run out.
pub open spec fn arguments(t: Texts, k: Kinds, pos: int) -> (Option<int>, Kinds)
    decreases t.len() - pos, 0int,
{
    if !(0 <= pos < t.len()) {
        (None, k)
    } else if t[pos] == ","@ {
        let (r, k1) = expression(t, k, pos + 1);
        match r {
            None => (None, k1),
            Some(p) => if pos < p <= t.len() {
                arguments(t, k1, p)
            } else {
                (None, k1)
            },
        }
    } else {
        (Some(pos), k)
    }
}

/// { Identifier `=` }: the chain of targets after the first one of an assignment.
/// It fails when the tokens run out.
pub open spec fn assignment_targets(t: Texts, k: Kinds, pos: int) -> Option<int>
    decreases t.len() - pos,
{
    if !(0 <= pos < t.len()) {
        None
    } else if ident_at(k, pos) {
        if !(pos + 1 < t.len()) {
            None
        } else if t[pos + 1] == "="@ {
            assignment_targets(t, k, pos + 2)
        } else {
            Some(pos)
        }
    } else {
        Some(pos)
    }
}

/// Assignment := Identifier `=` { Identifier `=` } Expression `;`
pub open spec fn assignment(t: Texts, k: Kinds, pos: int) -> (Option<int>, Kinds) {
    if !(ident_at(k, pos) && text_is(t, pos + 1, "="@)) {
        (None, k)
    } else {
        match assignment_targets(t, k, pos + 2) {
            None => (None, k),
            Some(p) => {
                let (r, k1) = expression(t, k, p);
                match r {
                    Some(q) => if text_is(t, q, ";"@) {
                        (Some(q + 1), k1)
                    } else {
                        (None, k1)
                    },
                    None => (None, k1),
                }
            },
        }
    }
}

/// ReturnStatement := `return` Expression `;`
pub open spec fn return_statement(t: Texts, k: Kinds, pos: int) -> (Option<int>, Kinds) {
    if !text_is(t, pos, "return"@) {
        (None, k)
    } else {
        let (r, k1) = expression(t, k, pos + 1);
        match r {
            Some(p) => if text_is(t, p, ";"@) {
                (Some(p + 1), k1)
            } else {
                (None, k1)
            },
            None => (None, k1),
        }
    }
}

/// Block := `{` { Declaration } { Statement } { FunctionDefinition } `}`
pub open spec fn block(t: Texts, k: Kinds, pos: int) -> (Option<int>, Kinds)
    decreases t.len() - pos, 0int,
{
    if !text_is(t, pos, "{"@) {
        (None, k)
    } else {
        let (p1, k1) = declarations(t, k, pos + 1);
        let (p2, k2) = if pos < p1 <= t.len() {
            statements(t, k1, p1)
        } else {
            (p1, k1)
        };
        let (p3, k3) = if pos < p2 <= t.len() {
            definitions(t, k2, p2)
        } else {
            (p2, k2)
        };
        if text_is(t, p3, "}"@) {
            (Some(p3 + 1), k3)
        } else {
            (None, k3)
        }
    }
}

/// { Statement }
pub open spec fn statements(t: Texts, k: Kinds, pos: int) -> (int, Kinds)
    decreases t.len() - pos, 3int,
{
    let (r, k1) = statement(t, k, pos);
    match r {
        Some(p) => if pos < p <= t.len() {
            statements(t, k1, p)
        } else {
            (pos, k1)
        },
        None => (pos, k1),
    }
}

/// Statement := Assignment | WhileLoop | IfStatement | ReturnStatement | Expression `;`
/// The alternatives are tried in this order; the first that matches is taken.
pub open spec fn statement(t: Texts, k: Kinds, pos: int) -> (Option<int>, Kinds)
    decreases t.len() - pos, 2int,
{
    let (r1, k1) = assignment(t, k, pos);
    if r1 is Some {
        (r1, k1)
    } else {
        let (r2, k2) = while_loop(t, k1, pos);
        if r2 is Some {
            (r2, k2)
        } else {
            let (r3, k3) = if_statement(t, k2, pos);
            if r3 is Some {
                (r3, k3)
            } else {
                let (r4, k4) = return_statement(t, k3, pos);
                if r4 is Some {
                    (r4, k4)
                } else {
                    let (r5, k5) = expression(t, k4, pos);
                    match r5 {
                        Some(p) => if text_is(t, p, ";"@) {
                            (Some(p + 1), k5)
                        } else {
                            (None, k5)
                        },
                        None => (None, k5),
                    }
                }
            }
        }
    }
}

/// WhileLoop := `while` `(` Expression `)` Block
pub open spec fn while_loop(t: Texts, k: Kinds, pos: int) -> (Option<int>, Kinds)
    decreases t.len() - pos, 1int,
{
    guarded_block(t, k, pos, "while"@)
}

/// IfStatement := `if` `(` Expression `)` Block
pub open spec fn if_statement(t: Texts, k: Kinds, pos: int) -> (Option<int>, Kinds)
    decreases t.len() - pos, 1int,
{
    guarded_block(t, k, pos, "if"@)
}

/// `keyword` `(` Expression `)` Block
pub open spec fn guarded_block(t: Texts, k: Kinds, pos: int, keyword: Seq<char>) -> (Option<int>, Kinds)
    decreases t.len() - pos, 0int,
{
    if !(text_is(t, pos, keyword) && text_is(t, pos + 1, "("@)) {
        (None, k)
    } else {
        let (r, k1) = expression(t, k, pos + 2);
        match r {
            None => (None, k1),
            Some(p) => if pos < p && text_is(t, p, ")"@) {
                block(t, k1, p + 1)
            } else {
                (None, k1)
            },
        }
    }
}

/// FunctionDefinition := DeclarationType ParameterBlock Block
/// The defined identifier is marked as a function.
pub open spec fn function_definition(t: Texts, k: Kinds, pos: int) -> (Option<int>, Kinds)
    decreases t.len() - pos, 1int,
{
    match typed_identifier(t, k, pos) {
        None => (None, k),
        Some(p) => {
            let (r, k1) = parameter_block(t, k, p);
            match r {
                None => (None, k1),
                Some(p2) => if pos < p2 <= t.len() {
                    let (r3, k2) = block(t, k1, p2);
                    match r3 {
                        Some(p3) => (Some(p3), k2.update(p - 1, TokenType::FUNCTION)),
                        None => (None, k2),
                    }
                } else {
                    (None, k1)
                },
            }
        },
    }
}

/// { FunctionDefinition }
pub open spec fn definitions(t: Texts, k: Kinds, pos: int) -> (int, Kinds)
    decreases t.len() - pos, 2int,
{
    let (r, k1) = function_definition(t, k, pos);
    match r {
        Some(p) => if pos < p <= t.len() {
            definitions(t, k1, p)
        } else {
            (pos, k1)
        },
        None => (pos, k1),
    }
}

/// MainDeclaration := `void` `main` `(` `)` Block
pub open spec fn main_declaration(t: Texts, k: Kinds, pos: int) -> (Option<int>, Kinds) {
    if text_is(t, pos, "void"@) && text_is(t, pos + 1, "main"@) && text_is(t, pos + 2, "("@)
        && text_is(t, pos + 3, ")"@) {
        block(t, k, pos + 4)
    } else {
        (None, k)
    }
}

/// Program := { Declaration } MainDeclaration { FunctionDefinition }
pub open spec fn program(t: Texts, k: Kinds, pos: int) -> (Option<int>, Kinds) {
    let (p1, k1) = declarations(t, k, pos);
    let (r, k2) = main_declaration(t, k1, p1);
    match r {
        None => (None, k2),
        Some(p2) => {
            let (p3, k3) = definitions(t, k2, p2);
            (Some(p3), k3)
        },
    }
}

/// The two token texts hold the same tokens from `start` on.
pub open spec fn agree_from(t: Texts, u: Texts, start: int) -> bool {
    &&& t.len() == u.len()
    &&& forall|i: int| start <= i < t.len() ==> #[trigger] t[i] == u[i]
}

/// Agreement from `start` on is agreement from any later position on, and fixes the tokens
/// at the given positions.
proof fn lemma_agree(t: Texts, u: Texts, start: int, i: int)
    requires
        agree_from(t, u, start),
        start <= i,
    ensures
        agree_from(t, u, i),
        0 <= i < t.len() ==> t[i] == u[i],
        0 <= i + 1 < t.len() ==> t[i + 1] == u[i + 1],
        0 <= i + 2 < t.len() ==> t[i + 2] == u[i + 2],
{
}

/// Whether `r` is `None` or a position from `pos` on.
pub open spec fn onward(r: Option<int>, pos: int) -> bool {
    r matches Some(q) ==> pos <= q
}

proof fn lemma_frame_typed_identifier(t: Texts, u: Texts, k: Kinds, pos: int)
    requires
        agree_from(t, u, pos),
    ensures
        typed_identifier(t, k, pos) == typed_identifier(u, k, pos),
        onward(typed_identifier(t, k, pos), pos + 1),
        variable_declaration(t, k, pos) == variable_declaration(u, k, pos),
        onward(variable_declaration(t, k, pos), pos),
{
    lemma_agree(t, u, pos, pos);
}

proof fn lemma_frame_more_parameters(t: Texts, u: Texts, k: Kinds, pos: int)
    requires
        agree_from(t, u, pos),
    ensures
        more_parameters(t, k, pos) == more_parameters(u, k, pos),
        onward(more_parameters(t, k, pos), pos),
    decreases t.len() - pos,
{
    lemma_agree(t, u, pos, pos);
    if 0 <= pos < t.len() && t[pos] == ","@ {
        lemma_frame_typed_identifier(t, u, k, pos + 1);
        match typed_identifier(t, k, pos + 1) {
            Some(p) => if pos < p <= t.len() {
                lemma_agree(t, u, pos, p);
                lemma_frame_more_parameters(t, u, k, p);
            },
            None => {},
        }
    }
}

proof fn lemma_frame_parameter_block(t: Texts, u: Texts, k: Kinds, pos: int)
    requires
        agree_from(t, u, pos),
    ensures
        parameter_block(t, k, pos) == parameter_block(u, k, pos),
        onward(parameter_block(t, k, pos).0, pos),
        function_declaration(t, k, pos) == function_declaration(u, k, pos),
        onward(function_declaration(t, k, pos).0, pos),
{
    lemma_agree(t, u, pos, pos);
    if text_is(t, pos, "("@) {
        lemma_frame_typed_identifier(t, u, k, pos + 1);
        let list_end = match typed_identifier(t, k, pos + 1) {
            Some(p) => {
                lemma_agree(t, u, pos, p);
                lemma_frame_more_parameters(t, u, k, p);
                more_parameters(t, k, p)
            },
            None => Some(pos + 1),
        };
        if let Some(q) = list_end {
            lemma_agree(t, u, pos, q);
            if text_is(t, q, ")"@) {
                lemma_agree(t, u, pos, q + 1);
            }
        }
    }
}

proof fn lemma_frame_declaration(t: Texts, u: Texts, k: Kinds, pos: int)
    requires
        agree_from(t, u, pos),
    ensures
        declaration(t, k, pos) == declaration(u, k, pos),
        onward(declaration(t, k, pos).0, pos),
{
    lemma_frame_typed_identifier(t, u, k, pos);
    if let Some(p) = typed_identifier(t, k, pos) {
        lemma_agree(t, u, pos, p);
        lemma_frame_typed_identifier(t, u, k, p);
        lemma_frame_parameter_block(t, u, k, p);
    }
}

proof fn lemma_frame_declarations(t: Texts, u: Texts, k: Kinds, pos: int)
    requires
        agree_from(t, u, pos),
    ensures
        declarations(t, k, pos) == declarations(u, k, pos),
        pos <= declarations(t, k, pos).0,
    decreases t.len() - pos,
{
    lemma_frame_declaration(t, u, k, pos);
    let (r, k1) = declaration(t, k, pos);
    if let Some(p) = r {
        if pos < p <= t.len() {
            lemma_agree(t, u, pos, p);
            lemma_frame_declarations(t, u, k1, p);
        }
    }
}

proof fn lemma_frame_assignment_targets(t: Texts, u: Texts, k: Kinds, pos: int)
    requires
        agree_from(t, u, pos),
    ensures
        assignment_targets(t, k, pos) == assignment_targets(u, k, pos),
        onward(assignment_targets(t, k, pos), pos),
    decreases t.len() - pos,
{
    lemma_agree(t, u, pos, pos);
    if 0 <= pos < t.len() && ident_at(k, pos) && pos + 1 < t.len() && t[pos + 1] == "="@ {
        lemma_agree(t, u, pos, pos + 2);
        lemma_frame_assignment_targets(t, u, k, pos + 2);
    }
}

proof fn lemma_frame_expression(t: Texts, u: Texts, k: Kinds, pos: int)
    requires
        agree_from(t, u, pos),
    ensures
        expression(t, k, pos) == expression(u, k, pos),
        onward(expression(t, k, pos).0, pos),
    decreases t.len() - pos, 4int,
{
    lemma_frame_simple_expression(t, u, k, pos);
    let (r, k1) = simple_expression(t, k, pos);
    if let Some(p) = r {
        lemma_agree(t, u, pos, p);
        if pos < p < t.len() {
            lemma_agree(t, u, pos, p + 1);
            lemma_frame_simple_expression(t, u, k1, p + 1);
        }
    }
}

proof fn lemma_frame_simple_expression(t: Texts, u: Texts, k: Kinds, pos: int)
    requires
        agree_from(t, u, pos),
    ensures
        simple_expression(t, k, pos) == simple_expression(u, k, pos),
        onward(simple_expression(t, k, pos).0, pos),
    decreases t.len() - pos, 3int,
{
    lemma_frame_term(t, u, k, pos);
    let (r, k1) = term(t, k, pos);
    if let Some(p) = r {
        if pos < p <= t.len() {
            lemma_agree(t, u, pos, p);
            lemma_frame_more_terms(t, u, k1, p);
        }
    }
}

proof fn lemma_frame_more_terms(t: Texts, u: Texts, k: Kinds, pos: int)
    requires
        agree_from(t, u, pos),
    ensures
        more_terms(t, k, pos) == more_terms(u, k, pos),
        onward(more_terms(t, k, pos).0, pos),
    decreases t.len() - pos, 0int,
{
    lemma_agree(t, u, pos, pos);
    if 0 <= pos < t.len() && is_add_op(t[pos]) {
        lemma_agree(t, u, pos, pos + 1);
        lemma_frame_term(t, u, k, pos + 1);
        let (r, k1) = term(t, k, pos + 1);
        if let Some(p) = r {
            if pos < p <= t.len() {
                lemma_agree(t, u, pos, p);
                lemma_frame_more_terms(t, u, k1, p);
            }
        }
    }
}

proof fn lemma_frame_term(t: Texts, u: Texts, k: Kinds, pos: int)
    requires
        agree_from(t, u, pos),
    ensures
        term(t, k, pos) == term(u, k, pos),
        onward(term(t, k, pos).0, pos),
    decreases t.len() - pos, 2int,
{
    lemma_frame_factor(t, u, k, pos);
    let (r, k1) = factor(t, k, pos);
    if let Some(p) = r {
        if pos < p <= t.len() {
            lemma_agree(t, u, pos, p);
            lemma_frame_more_factors(t, u, k1, p);
        }
    }
}

proof fn lemma_frame_more_factors(t: Texts, u: Texts, k: Kinds, pos: int)
    requires
        agree_from(t, u, pos),
    ensures
        more_factors(t, k, pos) == more_factors(u, k, pos),
        onward(more_factors(t, k, pos).0, pos),
    decreases t.len() - pos, 0int,
{
    lemma_agree(t, u, pos, pos);
    if 0 <= pos < t.len() && is_mult_op(t[pos]) {
        lemma_agree(t, u, pos, pos + 1);
        lemma_frame_factor(t, u, k, pos + 1);
        let (r, k1) = factor(t, k, pos + 1);
        if let Some(p) = r {
            if pos < p <= t.len() {
                lemma_agree(t, u, pos, p);
                lemma_frame_more_factors(t, u, k1, p);
            }
        }
    }
}

proof fn lemma_frame_factor(t: Texts, u: Texts, k: Kinds, pos: int)
    requires
        agree_from(t, u, pos),
    ensures
        factor(t, k, pos) == factor(u, k, pos),
        onward(factor(t, k, pos).0, pos),
    decreases t.len() - pos, 1int,
{
    lemma_agree(t, u, pos, pos);
    if 0 <= pos < t.len() {
        if t[pos] == "("@ {
            lemma_agree(t, u, pos, pos + 1);
            lemma_frame_expression(t, u, k, pos + 1);
            let (r, k1) = expression(t, k, pos + 1);
            if let Some(p) = r {
                lemma_agree(t, u, pos, p);
            }
        } else {
            lemma_frame_operand(t, u, k, pos);
        }
    }
}

proof fn lemma_frame_operand(t: Texts, u: Texts, k: Kinds, pos: int)
    requires
        agree_from(t, u, pos),
    ensures
        operand(t, k, pos) == operand(u, k, pos),
        onward(operand(t, k, pos).0, pos),
    decreases t.len() - pos, 0int,
{
    lemma_agree(t, u, pos, pos);
    if !constant_at(k, pos) && 0 <= pos && pos + 1 < t.len() && ident_at(k, pos) && t[pos + 1]
        == "("@ {
        lemma_agree(t, u, pos, pos + 2);
        lemma_frame_expression(t, u, k, pos + 2);
        let (r, k1) = expression(t, k, pos + 2);
        let r2 = match r {
            None => Some(pos + 2),
            Some(p) => if pos < p <= t.len() {
                lemma_agree(t, u, pos, p);
                lemma_frame_arguments(t, u, k1, p);
                arguments(t, k1, p).0
            } else {
                None
            },
        };
        if let Some(q) = r2 {
            lemma_agree(t, u, pos, q);
        }
    }
}

proof fn lemma_frame_arguments(t: Texts, u: Texts, k: Kinds, pos: int)
    requires
        agree_from(t, u, pos),
    ensures
        arguments(t, k, pos) == arguments(u, k, pos),
        onward(arguments(t, k, pos).0, pos),
    decreases t.len() - pos, 0int,
{
    lemma_agree(t, u, pos, pos);
    if 0 <= pos < t.len() && t[pos] == ","@ {
        lemma_agree(t, u, pos, pos + 1);
        lemma_frame_expression(t, u, k, pos + 1);
        let (r, k1) = expression(t, k, pos + 1);
        if let Some(p) = r {
            if pos < p <= t.len() {
                lemma_agree(t, u, pos, p);
                lemma_frame_arguments(t, u, k1, p);
            }
        }
    }
}

proof fn lemma_frame_assignment(t: Texts, u: Texts, k: Kinds, pos: int)
    requires
        agree_from(t, u, pos),
    ensures
        assignment(t, k, pos) == assignment(u, k, pos),
        onward(assignment(t, k, pos).0, pos),
{
    lemma_agree(t, u, pos, pos);
    if ident_at(k, pos) && text_is(t, pos + 1, "="@) {
        lemma_agree(t, u, pos, pos + 2);
        lemma_frame_assignment_targets(t, u, k, pos + 2);
        if let Some(p) = assignment_targets(t, k, pos + 2) {
            lemma_agree(t, u, pos, p);
            lemma_frame_expression(t, u, k, p);
            if let Some(q) = expression(t, k, p).0 {
                lemma_agree(t, u, pos, q);
            }
        }
    }
}

proof fn lemma_frame_return_statement(t: Texts, u: Texts, k: Kinds, pos: int)
    requires
        agree_from(t, u, pos),
    ensures
        return_statement(t, k, pos) == return_statement(u, k, pos),
        onward(return_statement(t, k, pos).0, pos),
{
    lemma_agree(t, u, pos, pos);
    if text_is(t, pos, "return"@) {
        lemma_agree(t, u, pos, pos + 1);
        lemma_frame_expression(t, u, k, pos + 1);
        if let Some(q) = expression(t, k, pos + 1).0 {
            lemma_agree(t, u, pos, q);
        }
    }
}

proof fn lemma_frame_block(t: Texts, u: Texts, k: Kinds, pos: int)
    requires
        agree_from(t, u, pos),
    ensures
        block(t, k, pos) == block(u, k, pos),
        onward(block(t, k, pos).0, pos),
    decreases t.len() - pos, 0int,
{
    lemma_agree(t, u, pos, pos);
    if text_is(t, pos, "{"@) {
        lemma_agree(t, u, pos, pos + 1);
        lemma_frame_declarations(t, u, k, pos + 1);
        let (p1, k1) = declarations(t, k, pos + 1);
        lemma_agree(t, u, pos, p1);
        if pos < p1 <= t.len() {
            lemma_frame_statements(t, u, k1, p1);
        }
        let (p2, k2) = if pos < p1 <= t.len() {
            statements(t, k1, p1)
        } else {
            (p1, k1)
        };
        lemma_agree(t, u, pos, p2);
        if pos < p2 <= t.len() {
            lemma_frame_definitions(t, u, k2, p2);
        }
        let (p3, k3) = if pos < p2 <= t.len() {
            definitions(t, k2, p2)
        } else {
            (p2, k2)
        };
        lemma_agree(t, u, pos, p3);
    }
}

proof fn lemma_frame_statements(t: Texts, u: Texts, k: Kinds, pos: int)
    requires
        agree_from(t, u, pos),
    ensures
        statements(t, k, pos) == statements(u, k, pos),
        pos <= statements(t, k, pos).0,
    decreases t.len() - pos, 3int,
{
    lemma_frame_statement(t, u, k, pos);
    let (r, k1) = statement(t, k, pos);
    if let Some(p) = r {
        if pos < p <= t.len() {
            lemma_agree(t, u, pos, p);
            lemma_frame_statements(t, u, k1, p);
        }
    }
}

proof fn lemma_frame_statement(t: Texts, u: Texts, k: Kinds, pos: int)
    requires
        agree_from(t, u, pos),
    ensures
        statement(t, k, pos) == statement(u, k, pos),
        onward(statement(t, k, pos).0, pos),
    decreases t.len() - pos, 2int,
{
    lemma_frame_assignment(t, u, k, pos);
    let (r1, k1) = assignment(t, k, pos);
    lemma_frame_guarded_block(t, u, k1, pos, "while"@);
    let (r2, k2) = while_loop(t, k1, pos);
    lemma_frame_guarded_block(t, u, k2, pos, "if"@);
    let (r3, k3) = if_statement(t, k2, pos);
    lemma_frame_return_statement(t, u, k3, pos);
    let (r4, k4) = return_statement(t, k3, pos);
    lemma_frame_expression(t, u, k4, pos);
    if let Some(q) = expression(t, k4, pos).0 {
        lemma_agree(t, u, pos, q);
    }
}

proof fn lemma_frame_guarded_block(t: Texts, u: Texts, k: Kinds, pos: int, keyword: Seq<char>)
    requires
        agree_from(t, u, pos),
    ensures
        guarded_block(t, k, pos, keyword) == guarded_block(u, k, pos, keyword),
        onward(guarded_block(t, k, pos, keyword).0, pos),
    decreases t.len() - pos, 1int,
{
    lemma_agree(t, u, pos, pos);
    if text_is(t, pos, keyword) && text_is(t, pos + 1, "("@) {
        lemma_agree(t, u, pos, pos + 2);
        lemma_frame_expression(t, u, k, pos + 2);
        let (r, k1) = expression(t, k, pos + 2);
        if let Some(p) = r {
            lemma_agree(t, u, pos, p);
            if pos < p && text_is(t, p, ")"@) {
                lemma_agree(t, u, pos, p + 1);
                lemma_frame_block(t, u, k1, p + 1);
            }
        }
    }
}

proof fn lemma_frame_definitions(t: Texts, u: Texts, k: Kinds, pos: int)
    requires
        agree_from(t, u, pos),
    ensures
        definitions(t, k, pos) == definitions(u, k, pos),
        pos <= definitions(t, k, pos).0,
    decreases t.len() - pos, 2int,
{
    lemma_frame_function_definition(t, u, k, pos);
    let (r, k1) = function_definition(t, k, pos);
    if let Some(p) = r {
        if pos < p <= t.len() {
            lemma_agree(t, u, pos, p);
            lemma_frame_definitions(t, u, k1, p);
        }
    }
}

proof fn lemma_frame_function_definition(t: Texts, u: Texts, k: Kinds, pos: int)
    requires
        agree_from(t, u, pos),
    ensures
        function_definition(t, k, pos) == function_definition(u, k, pos),
        onward(function_definition(t, k, pos).0, pos),
    decreases t.len() - pos, 1int,
{
    lemma_frame_typed_identifier(t, u, k, pos);
    if let Some(p) = typed_identifier(t, k, pos) {
        lemma_agree(t, u, pos, p);
        lemma_frame_parameter_block(t, u, k, p);
        let (r, k1) = parameter_block(t, k, p);
        if let Some(p2) = r {
            if pos < p2 <= t.len() {
                lemma_agree(t, u, pos, p2);
                lemma_frame_block(t, u, k1, p2);
            }
        }
    }
}

/// Law: an if statement is checked as a while loop is. Where the token at `pos` is `if`, the
/// if statement matches, and marks identifiers, exactly as a while loop does on the same
/// tokens with that one token reading `while` (and the other way round); where the token is
/// not `if`, no if statement starts there and no kind changes.
pub proof fn law_if_is_while_with_another_keyword(t: Texts, k: Kinds, pos: int)
    ensures
        text_is(t, pos, "if"@) ==> if_statement(t, k, pos) == while_loop(
            t.update(pos, "while"@),
            k,
            pos,
        ),
        text_is(t, pos, "while"@) ==> while_loop(t, k, pos) == if_statement(
            t.update(pos, "if"@),
            k,
            pos,
        ),
        !text_is(t, pos, "if"@) ==> if_statement(t, k, pos) == (None::<int>, k),
        !text_is(t, pos, "while"@) ==> while_loop(t, k, pos) == (None::<int>, k),
{
    if text_is(t, pos, "if"@) {
        lemma_keyword_swap(t, k, pos, "if"@, "while"@);
    }
    if text_is(t, pos, "while"@) {
        lemma_keyword_swap(t, k, pos, "while"@, "if"@);
    }
}

proof fn lemma_keyword_swap(t: Texts, k: Kinds, pos: int, from: Seq<char>, to: Seq<char>)
    requires
        text_is(t, pos, from),
    ensures
        guarded_block(t, k, pos, from) == guarded_block(t.update(pos, to), k, pos, to),
{
    let u = t.update(pos, to);
    assert(agree_from(t, u, pos + 1));
    lemma_agree(t, u, pos + 1, pos + 1);
    if text_is(t, pos + 1, "("@) {
        lemma_frame_expression(t, u, k, pos + 2);
        let (r, k1) = expression(t, k, pos + 2);
        if let Some(p) = r {
            lemma_agree(t, u, pos + 1, p);
            if pos < p && text_is(t, p, ")"@) {
                lemma_agree(t, u, pos + 1, p + 1);
                lemma_frame_block(t, u, k1, p + 1);
            }
        }
    }
}

/// A factor that matches takes at least one token.
proof fn lemma_factor_progress(t: Texts, k: Kinds, pos: int)
    ensures
        factor(t, k, pos).0 matches Some(q) ==> pos < q,
{
    if 0 <= pos < t.len() && t[pos] != "("@ && !constant_at(k, pos) && ident_at(k, pos) && pos
        + 1 < t.len() && t[pos + 1] == "("@ {
        let (r, k1) = expression(t, k, pos + 2);
        if let Some(p) = r {
            if pos < p <= t.len() {
                lemma_frame_arguments(t, t, k1, p);
            }
        }
    }
}

/// A term that matches takes at least one token.
proof fn lemma_term_progress(t: Texts, k: Kinds, pos: int)
    ensures
        term(t, k, pos).0 matches Some(q) ==> pos < q,
{
    lemma_factor_progress(t, k, pos);
    let (r, k1) = factor(t, k, pos);
    if let Some(p) = r {
        if pos < p <= t.len() {
            lemma_frame_more_factors(t, t, k1, p);
        }
    }
}

/// A simple expression that matches takes at least one token.
proof fn lemma_simple_expression_progress(t: Texts, k: Kinds, pos: int)
    ensures
        simple_expression(t, k, pos).0 matches Some(q) ==> pos < q,
{
    lemma_term_progress(t, k, pos);
    let (r, k1) = term(t, k, pos);
    if let Some(p) = r {
        if pos < p <= t.len() {
            lemma_frame_more_terms(t, t, k1, p);
        }
    }
}

/// Law: an expression is a simple expression, optionally followed by a relation operator and
/// a second simple expression. Where the tokens from `pos` on match a simple expression up to
/// `q`, token `q` is a relation operator, and the tokens from `q + 1` on match a simple
/// expression up to `e`, the expression at `pos` ends at `e` (with the kinds that second
/// simple expression leaves). Where no relation operator follows the first simple
/// expression, the expression ends where it ends; where no simple expression starts at `pos`,
/// there is no expression.
pub proof fn law_expression_is_relation_of_simple_expressions(t: Texts, k: Kinds, pos: int)
    ensures
        ({
            let (r1, k1) = simple_expression(t, k, pos);
            match r1 {
                None => expression(t, k, pos).0 is None,
                Some(q) => if 0 <= q < t.len() && is_relation_op(t[q]) {
                    simple_expression(t, k1, q + 1).0 is Some ==> expression(t, k, pos)
                        == simple_expression(t, k1, q + 1)
                } else {
                    expression(t, k, pos) == (Some(q), k1)
                },
            }
        }),
{
    lemma_simple_expression_progress(t, k, pos);
}

/// Law: the integer types are `char`, `short`, `int` and `long`, each alone or after
/// `unsigned`. At a token holding one of the four names the integer type takes that one
/// token; after `unsigned` it takes both; and an integer type that matches is one of these.
pub proof fn law_integer_type_names(t: Texts, pos: int, name: Seq<char>)
    requires
        name == "char"@ || name == "short"@ || name == "int"@ || name == "long"@,
    ensures
        text_is(t, pos, name) ==> integer_type(t, pos) == Some(pos + 1),
        text_is(t, pos, "unsigned"@) && text_is(t, pos + 1, name) ==> integer_type(t, pos) == Some(
            pos + 2,
        ),
        integer_type(t, pos) == Some(pos + 1) ==> (text_is(t, pos, "char"@) || text_is(
            t,
            pos,
            "short"@,
        ) || text_is(t, pos, "int"@) || text_is(t, pos, "long"@)),
        integer_type(t, pos) == Some(pos + 2) ==> text_is(t, pos, "unsigned"@),
{
    reveal_strlit("char");
    reveal_strlit("short");
    reveal_strlit("int");
    reveal_strlit("long");
    reveal_strlit("unsigned");
    assert(name.len() < "unsigned"@.len());
    assert(name != "unsigned"@);
}

/// Law: the operator classes and the floating-point type names. A relation operator is one
/// of `==`, `<`, `>`, `<=`, `>=`, `!=`; an adding operator `+` or `-`; a multiplying operator
/// `*` or `/`; a floating-point type `float` or `double`. Each takes one token.
pub proof fn law_operator_and_type_names(t: Texts, pos: int)
    ensures
        relation_operator(t, pos) == (if text_is(t, pos, "=="@) || text_is(t, pos, "<"@)
            || text_is(t, pos, ">"@) || text_is(t, pos, "<="@) || text_is(t, pos, ">="@)
            || text_is(t, pos, "!="@) {
            Some(pos + 1)
        } else {
            None
        }),
        add_operator(t, pos) == (if text_is(t, pos, "+"@) || text_is(t, pos, "-"@) {
            Some(pos + 1)
        } else {
            None
        }),
        mult_operator(t, pos) == (if text_is(t, pos, "*"@) || text_is(t, pos, "/"@) {
            Some(pos + 1)
        } else {
            None
        }),
        float_type(t, pos) == (if text_is(t, pos, "float"@) || text_is(t, pos, "double"@) {
            Some(pos + 1)
        } else {
            None
        }),
{
}

} // verus!
