//! The XHTML page that shows a token list in colour, as spec functions.
use crate::token::{TokenType, TokenView};
use vstd::prelude::*;
use vstd::utf8::encode_utf8;

verus! {

/// The length of `s` in bytes, as `str::len` gives it: the length of its UTF-8 encoding.
pub open spec fn byte_len(s: Seq<char>) -> usize {
    encode_utf8(s).len() as usize
}

/// The start of the page, up to where the tokens begin.
pub open spec fn page_header() -> Seq<char> {
    "<!DOCTYPE html PUBLIC \"-//W3C//DTD XHTML 1.0 Transitional//EN\" \"http://www.w3.org/TR/xhtml1/DTD/xhtml1\n        -transitional.dtd\">\n"@
        + "<html xmlns=\"http://www.w3.org/1999/xhtml\" xml:lang=\"en\">\n"@
        + "<head>\n<title>\nX Formatted file</title>\n</head>\n<body bgcolor=\"navy\" text=\"yellow\" link=\"yellow\" vlink=\"yellow\">"@
        + "<font face=\"Courier New\">\n"@
}

/// A token in its colour: constants in bold aqua, functions in orange, variables in yellow,
/// operators and keywords in bold white, anything else in white.
pub open spec fn token_markup(v: TokenView) -> Seq<char> {
    match v.kind {
        TokenType::FLOATCONSTANT | TokenType::INTCONSTANT => "<font color=\""@ + "aqua"@
            + "\"><b>"@ + v.text + "</b></font>"@,
        TokenType::FUNCTION => "<font color=\""@ + "orange"@ + "\">"@ + v.text + "</font>"@,
        TokenType::VARIABLE => "<font color=\""@ + "yellow"@ + "\">"@ + v.text + "</font>"@,
        TokenType::OPERATOR | TokenType::KEYWORD => "<font color=\""@ + "white"@ + "\"><b>"@
            + v.text + "</b></font>"@,
        _ => "<font color=\""@ + "white"@ + "\">"@ + v.text + "</font>"@,
    }
}

/// `n` non-breaking spaces (none when `n` is not positive).
pub open spec fn spaces(n: int) -> Seq<char>
    decreases n,
{
    if n <= 0 {
        Seq::empty()
    } else {
        spaces(n - 1) + "&nbsp;"@
    }
}

/// How many spaces stand before token `i + 1`: its column less one when it starts a new line,
/// else the distance from the end of token `i`, counting the text of token `i` in bytes.
pub open spec fn space_count(v: Seq<TokenView>, i: int) -> int {
    if v[i + 1].line > v[i].line {
        v[i + 1].col - 1
    } else {
        v[i + 1].col - v[i].col - byte_len(v[i].text) as i32
    }
}

/// Counting the spaces between tokens on one line overflows no `i32`. (The byte length is
/// cut down to an `i32` first, as the count does.)
pub open spec fn renderable(v: Seq<TokenView>) -> bool {
    forall|i: int|
        0 <= i && i + 1 < v.len() && !(v[i + 1].line > v[i].line) ==> i32::MIN <= #[trigger] space_count(
            v,
            i,
        ) <= i32::MAX
}

/// What stands between token `i` and the next one: a line break when the next token is on a
/// later line, then the spaces before it.
pub open spec fn gap(v: Seq<TokenView>, i: int) -> Seq<char> {
    if i + 1 < v.len() {
        if v[i + 1].line > v[i].line {
            "<br />\n"@ + spaces(space_count(v, i))
        } else {
            spaces(space_count(v, i))
        }
    } else {
        Seq::empty()
    }
}

/// The markup of the first `n` tokens, each followed by its gap.
pub open spec fn page_body(v: Seq<TokenView>, n: int) -> Seq<char>
    decreases n,
{
    if n <= 0 {
        Seq::empty()
    } else {
        page_body(v, n - 1) + token_markup(v[n - 1]) + gap(v, n - 1)
    }
}

/// The whole page for the tokens `v`.
pub open spec fn page(v: Seq<TokenView>) -> Seq<char> {
    page_header() + page_body(v, v.len() as int)
}

/// Law: every constant, integer or floating point alike, is shown in bold aqua: its markup is
/// `<font color="aqua"><b>`, its text and `</b></font>`; and no other kind of token is shown
/// in aqua.
pub proof fn law_constants_in_bold_aqua(v: TokenView)
    ensures
        (v.kind == TokenType::INTCONSTANT || v.kind == TokenType::FLOATCONSTANT) ==> token_markup(v)
            == "<font color=\"aqua\"><b>"@ + v.text + "</b></font>"@,
        token_markup(TokenView { kind: TokenType::FLOATCONSTANT, ..v }) == token_markup(
            TokenView { kind: TokenType::INTCONSTANT, ..v },
        ),
        !(v.kind == TokenType::INTCONSTANT || v.kind == TokenType::FLOATCONSTANT) ==> token_markup(v)
            != "<font color=\"aqua\"><b>"@ + v.text + "</b></font>"@,
{
    reveal_strlit("<font color=\"");
    reveal_strlit("aqua");
    reveal_strlit("\"><b>");
    reveal_strlit("</b></font>");
    reveal_strlit("<font color=\"aqua\"><b>");
    reveal_strlit("orange");
    reveal_strlit("yellow");
    reveal_strlit("white");
    reveal_strlit("\">");
    reveal_strlit("</font>");
    let aqua = "<font color=\"aqua\"><b>"@ + v.text + "</b></font>"@;
    let m = token_markup(v);
    assert("<font color=\""@ + "aqua"@ + "\"><b>"@ =~= "<font color=\"aqua\"><b>"@);
    if v.kind == TokenType::INTCONSTANT || v.kind == TokenType::FLOATCONSTANT {
        assert(m =~= aqua);
    } else {
        // The character after `<font color="` tells the colours apart.
        assert(aqua[13] == 'a');
        assert(m[13] != 'a');
    }
}

/// Law: the colour of each kind of token: functions in orange, variables in yellow,
/// operators and keywords in bold white, invalid tokens in plain white.
pub proof fn law_token_colours(v: TokenView)
    ensures
        v.kind == TokenType::FUNCTION ==> token_markup(v) == "<font color=\"orange\">"@ + v.text
            + "</font>"@,
        v.kind == TokenType::VARIABLE ==> token_markup(v) == "<font color=\"yellow\">"@ + v.text
            + "</font>"@,
        (v.kind == TokenType::OPERATOR || v.kind == TokenType::KEYWORD) ==> token_markup(v)
            == "<font color=\"white\"><b>"@ + v.text + "</b></font>"@,
        v.kind == TokenType::INVALID ==> token_markup(v) == "<font color=\"white\">"@ + v.text
            + "</font>"@,
{
    reveal_strlit("<font color=\"");
    reveal_strlit("orange");
    reveal_strlit("yellow");
    reveal_strlit("white");
    reveal_strlit("\">");
    reveal_strlit("\"><b>");
    reveal_strlit("</font>");
    reveal_strlit("</b></font>");
    reveal_strlit("<font color=\"orange\">");
    reveal_strlit("<font color=\"yellow\">");
    reveal_strlit("<font color=\"white\"><b>");
    reveal_strlit("<font color=\"white\">");
    assert("<font color=\""@ + "orange"@ + "\">"@ =~= "<font color=\"orange\">"@);
    assert("<font color=\""@ + "yellow"@ + "\">"@ =~= "<font color=\"yellow\">"@);
    assert("<font color=\""@ + "white"@ + "\"><b>"@ =~= "<font color=\"white\"><b>"@);
    assert("<font color=\""@ + "white"@ + "\">"@ =~= "<font color=\"white\">"@);
    assert(token_markup(v) =~= match v.kind {
        TokenType::FUNCTION => "<font color=\"orange\">"@ + v.text + "</font>"@,
        TokenType::VARIABLE => "<font color=\"yellow\">"@ + v.text + "</font>"@,
        TokenType::OPERATOR | TokenType::KEYWORD => "<font color=\"white\"><b>"@ + v.text
            + "</b></font>"@,
        TokenType::INVALID => "<font color=\"white\">"@ + v.text + "</font>"@,
        _ => token_markup(v),
    });
}

} // verus!
