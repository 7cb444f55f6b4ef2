//! What the scanner does, as spec functions over the program text and the scanner's state.
use crate::text::{alphabetic, is_ascii_letter};
use crate::token::{TokenType, TokenView};
use vstd::prelude::*;

verus! {

/// Where the scanner stands: the index of the next character, the line and column of that
/// character (both from 1), and whether the last token was an identifier or a constant (after
/// which a `-` is a minus operator rather than the sign of a number).
pub struct ScanState {
    pub pos: int,
    pub line: int,
    pub col: int,
    pub preceded: bool,
}

pub open spec fn is_digit_char(c: char) -> bool {
    '0' <= c && c <= '9'
}

/// A letter: on ASCII characters the ASCII letters, elsewhere what Unicode calls alphabetic.
pub open spec fn is_letter(c: char) -> bool {
    if c <= '\u{7f}' {
        is_ascii_letter(c)
    } else {
        alphabetic(c)
    }
}

pub open spec fn is_id_start_char(c: char) -> bool {
    c == '_' || is_letter(c)
}

pub open spec fn is_id_char(c: char) -> bool {
    c == '_' || is_digit_char(c) || is_letter(c)
}

pub open spec fn is_op_start_char(c: char) -> bool {
    c == '(' || c == ',' || c == ')' || c == '{' || c == '}' || c == '=' || c == '<' || c == '>'
        || c == '!' || c == '+' || c == '*' || c == '/' || c == ';'
}

/// The operators that are one character long whatever follows them.
pub open spec fn is_single_op_char(c: char) -> bool {
    c == '(' || c == ',' || c == ')' || c == '{' || c == '}' || c == '+' || c == '-' || c == '*'
        || c == '/' || c == ';'
}

/// The operators that may be followed by `=`.
pub open spec fn is_compare_start_char(c: char) -> bool {
    c == '=' || c == '<' || c == '>' || c == '!'
}

pub open spec fn is_keyword_text(s: Seq<char>) -> bool {
    s == "unsigned"@ || s == "char"@ || s == "short"@ || s == "int"@ || s == "long"@ || s
        == "float"@ || s == "double"@ || s == "while"@ || s == "if"@ || s == "return"@ || s
        == "void"@ || s == "main"@
}

/// The token with the given text and kind, starting where `s` stands.
pub open spec fn token_at(s: ScanState, text: Seq<char>, kind: TokenType) -> TokenView {
    TokenView { text, kind, line: s.line as i32, col: s.col as i32 }
}

/// Skips blanks: a space moves one column on, a tab four, a newline starts the next line, a
/// carriage return only consumes itself.
pub open spec fn skip_spaces(t: Seq<char>, s: ScanState) -> ScanState
    decreases t.len() - s.pos,
{
    if 0 <= s.pos < t.len() {
        let c = t[s.pos];
        if c == ' ' {
            skip_spaces(t, ScanState { pos: s.pos + 1, col: s.col + 1, ..s })
        } else if c == '\t' {
            skip_spaces(t, ScanState { pos: s.pos + 1, col: s.col + 4, ..s })
        } else if c == '\n' {
            skip_spaces(t, ScanState { pos: s.pos + 1, line: s.line + 1, col: 1, ..s })
        } else if c == '\r' {
            skip_spaces(t, ScanState { pos: s.pos + 1, ..s })
        } else {
            s
        }
    } else {
        s
    }
}

/// How many identifier characters follow one another from index `i` on.
pub open spec fn id_run(t: Seq<char>, i: int) -> int
    decreases t.len() - i,
{
    if 0 <= i < t.len() && is_id_char(t[i]) {
        1 + id_run(t, i + 1)
    } else {
        0
    }
}

/// An identifier or keyword: the longest run of identifier characters.
pub open spec fn scan_identifier(t: Seq<char>, s: ScanState) -> (TokenView, ScanState) {
    let n = id_run(t, s.pos);
    let text = t.subrange(s.pos, s.pos + n);
    let keyword = is_keyword_text(text);
    (
        token_at(
            s,
            text,
            if keyword {
                TokenType::KEYWORD
            } else {
                TokenType::VARIABLE
            },
        ),
        ScanState { pos: s.pos + n, col: s.col + n, preceded: !keyword, ..s },
    )
}

/// The run of digits and points from index `i` on, given whether a point was seen before it:
/// the index where the number ends, whether it ends on a second point, and whether it holds a
/// point.
pub open spec fn number_run(t: Seq<char>, i: int, seen_point: bool) -> (int, bool, bool)
    decreases t.len() - i,
{
    if 0 <= i < t.len() && (t[i] == '.' || is_digit_char(t[i])) {
        if t[i] == '.' {
            if seen_point {
                (i + 1, true, true)
            } else {
                number_run(t, i + 1, true)
            }
        } else {
            number_run(t, i + 1, seen_point)
        }
    } else {
        (i, false, seen_point)
    }
}

/// A number: an optional `-`, then digits and at most one point. A second point ends the
/// token, which is then invalid.
pub open spec fn scan_number(t: Seq<char>, s: ScanState) -> (TokenView, ScanState) {
    let start = if 0 <= s.pos < t.len() && t[s.pos] == '-' {
        s.pos + 1
    } else {
        s.pos
    };
    let (end, second_point, has_point) = number_run(t, start, false);
    let kind = if second_point {
        TokenType::INVALID
    } else if has_point {
        TokenType::FLOATCONSTANT
    } else {
        TokenType::INTCONSTANT
    };
    (
        token_at(s, t.subrange(s.pos, end), kind),
        ScanState { pos: end, col: s.col + (end - s.pos), preceded: !second_point, ..s },
    )
}

/// An operator: one character, or two for `==`, `<=`, `>=` and `!=`. A `!` alone is invalid.
pub open spec fn scan_operator(t: Seq<char>, s: ScanState) -> (Option<TokenView>, ScanState) {
    let s0 = ScanState { preceded: false, ..s };
    if !(0 <= s.pos < t.len()) {
        (None, s0)
    } else {
        let c = t[s.pos];
        if is_single_op_char(c) {
            (
                Some(token_at(s, seq![c], TokenType::OPERATOR)),
                ScanState { pos: s.pos + 1, col: s.col + 1, ..s0 },
            )
        } else if is_compare_start_char(c) {
            if s.pos + 1 < t.len() && t[s.pos + 1] == '=' {
                (
                    Some(token_at(s, seq![c, '='], TokenType::OPERATOR)),
                    ScanState { pos: s.pos + 2, col: s.col + 2, ..s0 },
                )
            } else if c == '!' {
                (
                    Some(token_at(s, seq![c], TokenType::INVALID)),
                    ScanState { pos: s.pos + 1, col: s.col + 1, ..s0 },
                )
            } else {
                (
                    Some(token_at(s, seq![c], TokenType::OPERATOR)),
                    ScanState { pos: s.pos + 1, col: s.col + 1, ..s0 },
                )
            }
        } else {
            (
                Some(token_at(s, seq![c], TokenType::INVALID)),
                ScanState { pos: s.pos + 1, col: s.col + 1, ..s0 },
            )
        }
    }
}

/// The next token, and where the scanner stands after it; `None` when only blanks are left.
/// A character that can start no token gives an invalid token of that one character, which
/// is consumed.
pub open spec fn next_token(t: Seq<char>, s: ScanState) -> (Option<TokenView>, ScanState) {
    let s1 = skip_spaces(t, s);
    if !(0 <= s1.pos < t.len()) {
        (None, s1)
    } else {
        let c = t[s1.pos];
        if is_id_start_char(c) {
            let (tk, s2) = scan_identifier(t, s1);
            (Some(tk), s2)
        } else if is_digit_char(c) {
            let (tk, s2) = scan_number(t, s1);
            (Some(tk), s2)
        } else if is_op_start_char(c) {
            scan_operator(t, s1)
        } else if c == '-' {
            if s1.pos + 1 < t.len() && is_digit_char(t[s1.pos + 1]) && !s1.preceded {
                let (tk, s2) = scan_number(t, s1);
                (Some(tk), s2)
            } else {
                scan_operator(t, s1)
            }
        } else {
            (
                Some(token_at(s1, seq![c], TokenType::INVALID)),
                ScanState { pos: s1.pos + 1, col: s1.col + 1, ..s1 },
            )
        }
    }
}

/// All the tokens from where `s` stands to the end of the text, and the state at the end.
/// Every token moves the scanner on (`law_scan_ends`), so this is never `None` for a state
/// within the text.
pub open spec fn scan(t: Seq<char>, s: ScanState) -> Option<(Seq<TokenView>, ScanState)>
    decreases t.len() - s.pos,
{
    let (r, s1) = next_token(t, s);
    match r {
        None => Some((Seq::empty(), s1)),
        Some(tk) => if s.pos < s1.pos <= t.len() {
            match scan(t, s1) {
                Some((rest, s2)) => Some((seq![tk] + rest, s2)),
                None => None,
            }
        } else {
            None
        },
    }
}

/// The tokens that `scan` gives.
pub open spec fn scanned_tokens(t: Seq<char>, s: ScanState) -> Seq<TokenView> {
    match scan(t, s) {
        Some((v, _)) => v,
        None => Seq::empty(),
    }
}

/// Where `scan` leaves the scanner.
pub open spec fn scan_end(t: Seq<char>, s: ScanState) -> ScanState {
    match scan(t, s) {
        Some((_, e)) => e,
        None => s,
    }
}

/// The line and column numbers of `s` fit in an `i32`.
pub open spec fn state_fits(s: ScanState) -> bool {
    s.line <= i32::MAX && s.col <= i32::MAX
}

/// No line or column number that skipping blanks from `s` passes through overflows an `i32`.
pub open spec fn skip_fits(t: Seq<char>, s: ScanState) -> bool
    decreases t.len() - s.pos,
{
    if 0 <= s.pos < t.len() {
        let c = t[s.pos];
        if c == ' ' {
            s.col + 1 <= i32::MAX && skip_fits(t, ScanState { pos: s.pos + 1, col: s.col + 1, ..s })
        } else if c == '\t' {
            s.col + 4 <= i32::MAX && skip_fits(t, ScanState { pos: s.pos + 1, col: s.col + 4, ..s })
        } else if c == '\n' {
            s.line + 1 <= i32::MAX && skip_fits(
                t,
                ScanState { pos: s.pos + 1, line: s.line + 1, col: 1, ..s },
            )
        } else if c == '\r' {
            skip_fits(t, ScanState { pos: s.pos + 1, ..s })
        } else {
            true
        }
    } else {
        true
    }
}

/// Reading the next token makes no line or column number overflow an `i32`. (Within a token
/// the column only grows, so it is enough that it fits at the end.)
pub open spec fn step_fits(t: Seq<char>, s: ScanState) -> bool {
    skip_fits(t, s) && state_fits(next_token(t, s).1)
}

/// Reading the rest of the text makes no line or column number overflow an `i32`.
pub open spec fn counters_fit(t: Seq<char>, s: ScanState) -> bool
    decreases t.len() - s.pos,
{
    let (r, s1) = next_token(t, s);
    step_fits(t, s) && match r {
        None => true,
        Some(_) => s.pos < s1.pos <= t.len() && counters_fit(t, s1),
    }
}

/// A text short enough that no line or column number can overflow while it is read: each
/// character moves the column at most four places and the line at most one.
pub open spec fn within_bounds(t: Seq<char>, s: ScanState) -> bool {
    &&& 0 <= s.pos <= t.len()
    &&& 1 <= s.line
    &&& s.line + (t.len() - s.pos) <= i32::MAX
    &&& 1 <= s.col
    &&& s.col + 4 * (t.len() - s.pos) <= i32::MAX
}

pub open spec fn is_blank(c: char) -> bool {
    c == ' ' || c == '\t' || c == '\n' || c == '\r'
}

/// Skipping blanks stops at the first character from `s.pos` on that is not a blank, or at
/// the end of the text.
pub proof fn lemma_skip_spaces(t: Seq<char>, s: ScanState)
    requires
        0 <= s.pos,
    ensures
        s.pos <= skip_spaces(t, s).pos,
        s.pos <= t.len() ==> skip_spaces(t, s).pos <= t.len(),
        skip_spaces(t, s).pos < t.len() ==> !is_blank(t[skip_spaces(t, s).pos]),
        forall|i: int| s.pos <= i < skip_spaces(t, s).pos ==> is_blank(#[trigger] t[i]),
        skip_spaces(t, s).preceded == s.preceded,
    decreases t.len() - s.pos,
{
    if 0 <= s.pos < t.len() {
        let c = t[s.pos];
        if c == ' ' {
            lemma_skip_spaces(t, ScanState { pos: s.pos + 1, col: s.col + 1, ..s });
        } else if c == '\t' {
            lemma_skip_spaces(t, ScanState { pos: s.pos + 1, col: s.col + 4, ..s });
        } else if c == '\n' {
            lemma_skip_spaces(t, ScanState { pos: s.pos + 1, line: s.line + 1, col: 1, ..s });
        } else if c == '\r' {
            lemma_skip_spaces(t, ScanState { pos: s.pos + 1, ..s });
        }
    }
}

pub proof fn lemma_id_run(t: Seq<char>, i: int)
    requires
        0 <= i,
    ensures
        0 <= id_run(t, i),
        i < t.len() && is_id_char(t[i]) ==> 1 <= id_run(t, i),
        i <= t.len() ==> i + id_run(t, i) <= t.len(),
    decreases t.len() - i,
{
    if 0 <= i < t.len() && is_id_char(t[i]) {
        lemma_id_run(t, i + 1);
    }
}

pub proof fn lemma_number_run(t: Seq<char>, i: int, seen_point: bool)
    requires
        0 <= i <= t.len(),
    ensures
        i <= number_run(t, i, seen_point).0 <= t.len(),
        i < t.len() && (t[i] == '.' || is_digit_char(t[i])) ==> i < number_run(t, i, seen_point).0,
    decreases t.len() - i,
{
    if 0 <= i < t.len() && (t[i] == '.' || is_digit_char(t[i])) {
        if t[i] != '.' || !seen_point {
            lemma_number_run(t, i + 1, seen_point || t[i] == '.');
        }
    }
}

/// Law: the scanner never moves back, and every token moves it on: a token is exactly the
/// text it moved over after the blanks, and starts on the line and column where the blanks
/// end.
pub proof fn law_token_is_the_text_consumed(t: Seq<char>, s: ScanState)
    requires
        0 <= s.pos <= t.len(),
    ensures
        ({
            let s0 = skip_spaces(t, s);
            let (r, s1) = next_token(t, s);
            &&& s.pos <= s0.pos <= s1.pos <= t.len()
            &&& r matches Some(tk) ==> {
                &&& s0.pos < s1.pos
                &&& tk.text == t.subrange(s0.pos, s1.pos)
                &&& tk.line == s0.line as i32
                &&& tk.col == s0.col as i32
            }
        }),
{
    lemma_skip_spaces(t, s);
    let s0 = skip_spaces(t, s);
    if 0 <= s0.pos < t.len() {
        let c = t[s0.pos];
        lemma_id_run(t, s0.pos);
        lemma_number_run(t, s0.pos, false);
        if s0.pos + 1 <= t.len() {
            lemma_number_run(t, s0.pos + 1, false);
        }
        if is_id_start_char(c) {
        } else if is_digit_char(c) {
        } else if is_compare_start_char(c) && s0.pos + 1 < t.len() && t[s0.pos + 1] == '=' {
            assert(t.subrange(s0.pos, s0.pos + 2) =~= seq![c, '=']);
        } else if c == '-' && s0.pos + 1 < t.len() && is_digit_char(t[s0.pos + 1])
            && !s0.preceded {
        } else {
            assert(t.subrange(s0.pos, s0.pos + 1) =~= seq![c]);
        }
    }
}

/// Law: reading a text from any place in it comes to an end.
pub proof fn law_scan_ends(t: Seq<char>, s: ScanState)
    requires
        0 <= s.pos <= t.len(),
    ensures
        scan(t, s) is Some,
    decreases t.len() - s.pos,
{
    law_token_is_the_text_consumed(t, s);
    let (r, s1) = next_token(t, s);
    if r is Some {
        law_scan_ends(t, s1);
    }
}

/// Law: reading the rest of a text gives at most one token per character left.
pub proof fn law_scan_length(t: Seq<char>, s: ScanState)
    requires
        0 <= s.pos <= t.len(),
    ensures
        scanned_tokens(t, s).len() <= t.len() - s.pos,
    decreases t.len() - s.pos,
{
    law_scan_ends(t, s);
    law_token_is_the_text_consumed(t, s);
    let (r, s1) = next_token(t, s);
    if r is Some {
        law_scan_length(t, s1);
        law_scan_ends(t, s1);
    }
}

/// Law: the scanner gives no more tokens exactly when only blanks are left.
pub proof fn law_no_token_iff_only_blanks(t: Seq<char>, s: ScanState)
    requires
        0 <= s.pos <= t.len(),
    ensures
        next_token(t, s).0 is None <==> forall|i: int| s.pos <= i < t.len() ==> is_blank(#[trigger] t[i]),
{
    lemma_skip_spaces(t, s);
}

/// Law: once all the tokens have been read, reading again gives none and leaves the scanner
/// where it is.
pub proof fn law_scan_exhausts(t: Seq<char>, s: ScanState)
    requires
        0 <= s.pos <= t.len(),
    ensures
        scan(t, scan_end(t, s)) == Some((Seq::<TokenView>::empty(), scan_end(t, s))),
    decreases t.len() - s.pos,
{
    law_scan_ends(t, s);
    law_token_is_the_text_consumed(t, s);
    lemma_skip_spaces(t, s);
    let (r, s1) = next_token(t, s);
    match r {
        None => {
            let e = s1;
            lemma_skip_spaces(t, e);
        },
        Some(tk) => {
            law_scan_exhausts(t, s1);
        },
    }
}

/// Law: once the rest of a text has been read without overflow, reading again is allowed,
/// gives no token and leaves the scanner where it is (so a second `parse` adds nothing).
pub proof fn law_second_read_reads_nothing(t: Seq<char>, s: ScanState)
    requires
        0 <= s.pos <= t.len(),
        counters_fit(t, s),
    ensures
        counters_fit(t, scan_end(t, s)),
        scanned_tokens(t, scan_end(t, s)) == Seq::<TokenView>::empty(),
        scan_end(t, scan_end(t, s)) == scan_end(t, s),
    decreases t.len() - s.pos,
{
    law_scan_exhausts(t, s);
    law_scan_ends(t, s);
    law_token_is_the_text_consumed(t, s);
    lemma_skip_spaces(t, s);
    let (r, s1) = next_token(t, s);
    match r {
        None => {
            lemma_skip_spaces(t, s1);
            assert(skip_spaces(t, s1) == s1);
        },
        Some(_) => {
            law_second_read_reads_nothing(t, s1);
        },
    }
}

/// Law: after a constant, integer or floating point, or after a variable name, a `-` that is
/// followed by a digit is the one-character minus operator, not the sign of a number; so
/// `2.5-1` and `x-1` are read as three tokens.
pub proof fn law_minus_after_operand_is_operator(t: Seq<char>, s: ScanState)
    requires
        0 <= s.pos <= t.len(),
    ensures
        ({
            let (r, s1) = next_token(t, s);
            (r matches Some(tk) && (tk.kind == TokenType::INTCONSTANT || tk.kind
                == TokenType::FLOATCONSTANT || tk.kind == TokenType::VARIABLE) && s1.pos + 1
                < t.len() && t[s1.pos] == '-' && is_digit_char(t[s1.pos + 1])) ==> next_token(
                t,
                s1,
            ) == (
                Some(token_at(s1, seq!['-'], TokenType::OPERATOR)),
                ScanState { pos: s1.pos + 1, col: s1.col + 1, preceded: false, ..s1 },
            )
        }),
{
    law_token_is_the_text_consumed(t, s);
}

/// Law: where the scanner does not follow a constant or a variable name (at the start of the
/// text, or after an operator or a keyword), a `-` followed by a digit starts a number, which
/// keeps the sign in its text.
pub proof fn law_minus_before_digit_is_a_sign(t: Seq<char>, s: ScanState)
    requires
        0 <= s.pos,
        s.pos + 1 < t.len(),
        t[s.pos] == '-',
        is_digit_char(t[s.pos + 1]),
        !s.preceded,
    ensures
        ({
            let (r, s1) = next_token(t, s);
            &&& r matches Some(tk)
            &&& (tk.kind == TokenType::INTCONSTANT || tk.kind == TokenType::FLOATCONSTANT
                || tk.kind == TokenType::INVALID)
            &&& tk.text[0] == '-'
            &&& s.pos + 1 < s1.pos
        }),
{
    lemma_number_run(t, s.pos + 1, false);
}

/// How many points `s` holds.
pub open spec fn count_points(s: Seq<char>) -> nat
    decreases s.len(),
{
    if s.len() == 0 {
        0
    } else {
        (if s[0] == '.' {
            1nat
        } else {
            0nat
        }) + count_points(s.drop_first())
    }
}

proof fn lemma_number_run_points(t: Seq<char>, i: int, seen_point: bool)
    requires
        0 <= i <= t.len(),
    ensures
        i <= number_run(t, i, seen_point).0 <= t.len(),
        !number_run(t, i, seen_point).1 ==> number_run(t, i, seen_point).2 == (seen_point
            || count_points(t.subrange(i, number_run(t, i, seen_point).0)) == 1),
        !number_run(t, i, seen_point).1 ==> count_points(
            t.subrange(i, number_run(t, i, seen_point).0),
        ) + (if seen_point {
            1int
        } else {
            0int
        }) <= 1,
        number_run(t, i, seen_point).1 ==> count_points(
            t.subrange(i, number_run(t, i, seen_point).0),
        ) + (if seen_point {
            1int
        } else {
            0int
        }) == 2,
        number_run(t, i, seen_point).1 ==> i < number_run(t, i, seen_point).0 && t[number_run(
            t,
            i,
            seen_point,
        ).0 - 1] == '.',
    decreases t.len() - i,
{
    lemma_number_run(t, i, seen_point);
    let (end, second_point, has_point) = number_run(t, i, seen_point);
    if 0 <= i < t.len() && (t[i] == '.' || is_digit_char(t[i])) {
        if t[i] == '.' && seen_point {
            assert(t.subrange(i, end).drop_first() =~= Seq::<char>::empty());
            assert(count_points(t.subrange(i, end).drop_first()) == 0);
        } else {
            lemma_number_run_points(t, i + 1, seen_point || t[i] == '.');
            assert(t.subrange(i, end).drop_first() =~= t.subrange(i + 1, end));
        }
    } else {
        assert(t.subrange(i, end) =~= Seq::<char>::empty());
    }
}

/// Law: an integer constant holds no point, a floating-point constant exactly one; a number
/// that reaches a second point is invalid and ends on it.
pub proof fn law_number_points(t: Seq<char>, s: ScanState)
    requires
        0 <= s.pos <= t.len(),
    ensures
        ({
            let (tk, _) = scan_number(t, s);
            &&& tk.kind == TokenType::INTCONSTANT ==> count_points(tk.text) == 0
            &&& tk.kind == TokenType::FLOATCONSTANT ==> count_points(tk.text) == 1
            &&& tk.kind == TokenType::INVALID ==> count_points(tk.text) == 2 && tk.text.last()
                == '.'
        }),
{
    let start = if 0 <= s.pos < t.len() && t[s.pos] == '-' {
        s.pos + 1
    } else {
        s.pos
    };
    lemma_number_run_points(t, start, false);
    let (end, second_point, has_point) = number_run(t, start, false);
    if start == s.pos + 1 {
        assert(t.subrange(s.pos, end).drop_first() =~= t.subrange(start, end));
    }
}

proof fn lemma_bounds_skip(t: Seq<char>, s: ScanState)
    requires
        within_bounds(t, s),
    ensures
        skip_fits(t, s),
        within_bounds(t, skip_spaces(t, s)),
        skip_spaces(t, s).pos <= t.len(),
    decreases t.len() - s.pos,
{
    if 0 <= s.pos < t.len() {
        let c = t[s.pos];
        if c == ' ' {
            lemma_bounds_skip(t, ScanState { pos: s.pos + 1, col: s.col + 1, ..s });
        } else if c == '\t' {
            lemma_bounds_skip(t, ScanState { pos: s.pos + 1, col: s.col + 4, ..s });
        } else if c == '\n' {
            lemma_bounds_skip(t, ScanState { pos: s.pos + 1, line: s.line + 1, col: 1, ..s });
        } else if c == '\r' {
            lemma_bounds_skip(t, ScanState { pos: s.pos + 1, ..s });
        }
    }
}

/// A text within bounds can be read one token on without overflow, and stays within bounds.
pub proof fn lemma_bounds_step(t: Seq<char>, s: ScanState)
    requires
        within_bounds(t, s),
    ensures
        step_fits(t, s),
        within_bounds(t, next_token(t, s).1),
{
    lemma_bounds_skip(t, s);
    let s0 = skip_spaces(t, s);
    if 0 <= s0.pos < t.len() {
        lemma_id_run(t, s0.pos);
        lemma_number_run(t, s0.pos, false);
        if s0.pos + 1 <= t.len() {
            lemma_number_run(t, s0.pos + 1, false);
        }
    }
}

/// Reading a text within bounds never overflows a counter.
pub proof fn lemma_bounds_fit(t: Seq<char>, s: ScanState)
    requires
        within_bounds(t, s),
    ensures
        counters_fit(t, s),
    decreases t.len() - s.pos,
{
    lemma_bounds_step(t, s);
    law_token_is_the_text_consumed(t, s);
    let (r, s1) = next_token(t, s);
    if r is Some {
        lemma_bounds_fit(t, s1);
    }
}

} // verus!
