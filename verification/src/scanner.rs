use crate::character_stream::{stream_peek, CharStream, StreamView};
use crate::lexical::{
    id_run, is_digit_char, is_id_start_char, is_keyword_text, lemma_id_run, lemma_number_run,
    next_token, number_run, scan_identifier, scan_number, scan_operator, skip_fits, skip_spaces,
    state_fits, step_fits, within_bounds, ScanState,
};
use crate::text::{is_alphabetic, push_char, same_text};
use crate::token::{Token, TokenType, TokenView};
use vstd::prelude::*;

verus! {

/// Whether `c` can start an identifier or a keyword.
pub fn is_id_start(c: char) -> (b: bool)
    ensures
        b == is_id_start_char(c),
{
    c == '_' || is_alphabetic(c)
}

/// Whether `c` can start a number: a decimal digit.
pub fn is_num_start(c: char) -> (b: bool)
    ensures
        b == is_digit_char(c),
{
    '0' <= c && c <= '9'
}

/// Whether `c` can start an operator (a `-` is decided by what surrounds it).
pub fn is_op_start(c: char) -> (b: bool)
    ensures
        b == crate::lexical::is_op_start_char(c),
{
    match c {
        '(' | ',' | ')' | '{' | '}' | '=' | '<' | '>' | '!' | '+' | '*' | '/' | ';' => true,
        _ => false,
    }
}

/// Whether `name` is one of the language's keywords.
pub fn is_keyword(name: &str) -> (b: bool)
    ensures
        b == is_keyword_text(name@),
{
    same_text(name, "unsigned") || same_text(name, "char") || same_text(name, "short")
        || same_text(name, "int") || same_text(name, "long") || same_text(name, "float")
        || same_text(name, "double") || same_text(name, "while") || same_text(name, "if")
        || same_text(name, "return") || same_text(name, "void") || same_text(name, "main")
}

/// An invalid token with the given text and place.
pub fn invalid_token(text: &str, line_num: i32, char_pos: i32) -> (r: Option<Token>)
    ensures
        r matches Some(tk) && tk@ == (TokenView {
            text: text@,
            kind: TokenType::INVALID,
            line: line_num,
            col: char_pos,
        }),
{
    Some(Token::new(text.to_owned(), TokenType::INVALID, line_num, char_pos))
}

/// The text of one character.
fn char_text(c: char) -> (s: String)
    ensures
        s@ == seq![c],
{
    let mut s = String::new();
    push_char(&mut s, c);
    s
}

/// A token that the scanner gives starts on a line and at a column numbered from 1.
pub open spec fn token_placed(tk: TokenView) -> bool {
    1 <= tk.line && 1 <= tk.col
}

/// Turns program text into tokens, one at a time.
pub struct Scanner {
    stream: CharStream,
    line_num: i32,
    char_pos: i32,
    preceded_by_id_or_constant: bool,
}

impl Scanner {
    /// The program text.
    pub closed spec fn text(&self) -> Seq<char> {
        self.stream@.chars
    }

    /// Where the scanner stands in the text.
    pub closed spec fn state(&self) -> ScanState {
        ScanState {
            pos: self.stream@.pos,
            line: self.line_num as int,
            col: self.char_pos as int,
            preceded: self.preceded_by_id_or_constant,
        }
    }

    /// The stream is well formed, and lines and columns are numbered from 1.
    pub closed spec fn wf(&self) -> bool {
        &&& self.stream.wf()
        &&& 1 <= self.state().line
        &&& 1 <= self.state().col
    }

    /// A scanner at the start of the program text `source`.
    pub fn new(source: &str) -> (s: Scanner)
        ensures
            s.wf(),
            s.text() == source@,
            s.state() == (ScanState { pos: 0, line: 1, col: 1, preceded: false }),
    {
        let cs = CharStream::from_str(source);
        Scanner { stream: cs, line_num: 1, char_pos: 1, preceded_by_id_or_constant: false }
    }

    /// A well-formed scanner stands within its text, on a line and at a column numbered from 1.
    pub proof fn lemma_wf(&self)
        requires
            self.wf(),
        ensures
            0 <= self.state().pos <= self.text().len(),
            1 <= self.state().line,
            1 <= self.state().col,
    {
        self.stream.lemma_wf();
    }

    proof fn lemma_stream(&self)
        requires
            self.wf(),
        ensures
            0 <= self.stream@.pos <= self.stream@.chars.len(),
            forall|k: int|
                #![trigger stream_peek(self.stream@, k)]
                0 <= k ==> stream_peek(self.stream@, k) == if self.state().pos + k < self.text().len() {
                    Some(self.text()[self.state().pos + k])
                } else {
                    None::<char>
                },
    {
        self.stream.lemma_wf();
    }

    fn skip_spaces(&mut self)
        requires
            old(self).wf(),
            skip_fits(old(self).text(), old(self).state()),
        ensures
            final(self).wf(),
            final(self).text() == old(self).text(),
            final(self).state() == skip_spaces(old(self).text(), old(self).state()),
    {
        loop
            invariant
                self.wf(),
                self.text() == old(self).text(),
                skip_spaces(self.text(), self.state()) == skip_spaces(
                    old(self).text(),
                    old(self).state(),
                ),
                skip_fits(self.text(), self.state()),
            ensures
                self.wf(),
                self.text() == old(self).text(),
                self.state() == skip_spaces(old(self).text(), old(self).state()),
            decreases self.text().len() - self.state().pos,
        {
            proof {
                self.lemma_stream();
            }
            match self.stream.peek_next_char() {
                Some(c) => {
                    match c {
                        ' ' => {
                            self.stream.get_next_char();
                            self.char_pos += 1;
                        },
                        '\t' => {
                            self.stream.get_next_char();
                            self.char_pos += 4;
                        },
                        '\n' => {
                            self.stream.get_next_char();
                            self.line_num += 1;
                            self.char_pos = 1;
                        },
                        '\r' => {
                            self.stream.get_next_char();
                        },
                        _ => {
                            break ;
                        },
                    };
                },
                None => {
                    break ;
                },
            }
        }
    }

    /// A keyword or an identifier, from the current character on.
    fn handle_identifier(&mut self) -> (r: Option<Token>)
        requires
            old(self).wf(),
            state_fits(scan_identifier(old(self).text(), old(self).state()).1),
        ensures
            final(self).wf(),
            final(self).text() == old(self).text(),
            r matches Some(tk) && (tk@, final(self).state()) == scan_identifier(
                old(self).text(),
                old(self).state(),
            ) && token_placed(tk@),
    {
        self.preceded_by_id_or_constant = false;
        let mut text = String::new();
        let line_num = self.line_num;
        let char_pos = self.char_pos;
        let ghost start = self.state().pos;
        proof {
            self.lemma_wf();
        }
        loop
            invariant
                self.wf(),
                self.text() == old(self).text(),
                start == old(self).state().pos,
                0 <= start <= self.state().pos <= self.text().len(),
                state_fits(scan_identifier(self.text(), old(self).state()).1),
                self.state().pos == start + text@.len(),
                self.line_num == line_num == old(self).line_num,
                self.char_pos == char_pos + text@.len(),
                char_pos == old(self).char_pos,
                1 <= char_pos && 1 <= line_num,
                !self.preceded_by_id_or_constant,
                text@ == self.text().subrange(start, self.state().pos),
                id_run(self.text(), start) == text@.len() + id_run(self.text(), self.state().pos),
            decreases self.text().len() - self.state().pos,
        {
            proof {
                self.lemma_stream();
            }
            let next = self.stream.peek_next_char();
            let take = match next {
                Some(c) => c == '_' || is_num_start(c) || is_alphabetic(c),
                None => false,
            };
            if take {
                let c = next.unwrap();
                proof {
                    lemma_id_run(self.text(), self.state().pos);
                }
                self.stream.get_next_char();
                push_char(&mut text, c);
                self.char_pos += 1;
                assert(text@ =~= self.text().subrange(start, self.state().pos));
            } else {
                if is_keyword(text.as_str()) {
                    return Some(Token::new(text, TokenType::KEYWORD, line_num, char_pos));
                } else {
                    self.preceded_by_id_or_constant = true;
                    return Some(Token::new(text, TokenType::VARIABLE, line_num, char_pos));
                }
            }
        }
    }

    /// A number, from the current character on: an optional `-`, then digits and points.
    fn handle_number(&mut self) -> (r: Option<Token>)
        requires
            old(self).wf(),
            state_fits(scan_number(old(self).text(), old(self).state()).1),
        ensures
            final(self).wf(),
            final(self).text() == old(self).text(),
            r matches Some(tk) && (tk@, final(self).state()) == scan_number(
                old(self).text(),
                old(self).state(),
            ) && token_placed(tk@),
    {
        self.preceded_by_id_or_constant = false;
        let mut text = String::new();
        let line_num = self.line_num;
        let char_pos = self.char_pos;
        let mut is_float = false;
        let ghost start0 = self.state().pos;
        proof {
            self.lemma_stream();
            let start = if 0 <= start0 < self.text().len() && self.text()[start0] == '-' {
                start0 + 1
            } else {
                start0
            };
            lemma_number_run(self.text(), start, false);
        }
        match self.stream.peek_next_char() {
            Some(c) => {
                if c == '-' {
                    self.stream.get_next_char();
                    push_char(&mut text, c);
                    self.char_pos += 1;
                    assert(text@ =~= self.text().subrange(start0, self.state().pos));
                }
            },
            None => {},
        }
        let ghost start = self.state().pos;
        assert(text@ =~= self.text().subrange(start0, self.state().pos));
        loop
            invariant
                self.wf(),
                self.text() == old(self).text(),
                start0 == old(self).state().pos,
                0 <= start0 <= start <= self.state().pos <= self.text().len(),
                start == if 0 <= start0 < self.text().len() && self.text()[start0] == '-' {
                    start0 + 1
                } else {
                    start0
                },
                state_fits(scan_number(self.text(), old(self).state()).1),
                self.state().pos == start0 + text@.len(),
                self.line_num == line_num == old(self).line_num,
                self.char_pos == char_pos + text@.len(),
                char_pos == old(self).char_pos,
                1 <= char_pos && 1 <= line_num,
                !self.preceded_by_id_or_constant,
                text@ == self.text().subrange(start0, self.state().pos),
                number_run(self.text(), start, false) == number_run(
                    self.text(),
                    self.state().pos,
                    is_float,
                ),
            decreases self.text().len() - self.state().pos,
        {
            proof {
                self.lemma_stream();
            }
            let next = self.stream.peek_next_char();
            let take = match next {
                Some(c) => c == '.' || is_num_start(c),
                None => false,
            };
            if take {
                let c = next.unwrap();
                proof {
                    lemma_number_run(self.text(), self.state().pos, is_float);
                }
                self.stream.get_next_char();
                push_char(&mut text, c);
                self.char_pos += 1;
                assert(text@ =~= self.text().subrange(start0, self.state().pos));
                if c == '.' {
                    if is_float {
                        return invalid_token(text.as_str(), line_num, char_pos);
                    } else {
                        is_float = true;
                    }
                }
            } else {
                self.preceded_by_id_or_constant = true;
                if is_float {
                    return Some(Token::new(text, TokenType::FLOATCONSTANT, line_num, char_pos));
                } else {
                    return Some(Token::new(text, TokenType::INTCONSTANT, line_num, char_pos));
                }
            }
        }
    }

    /// An operator, from the current character on.
    fn handle_operator(&mut self) -> (r: Option<Token>)
        requires
            old(self).wf(),
            state_fits(scan_operator(old(self).text(), old(self).state()).1),
        ensures
            final(self).wf(),
            final(self).text() == old(self).text(),
            (r matches Some(tk) ==> token_placed(tk@)),
            (match r {
                Some(tk) => Some(tk@),
                None => None,
            }, final(self).state()) == scan_operator(old(self).text(), old(self).state()),
    {
        self.preceded_by_id_or_constant = false;
        let line_num = self.line_num;
        let char_pos = self.char_pos;
        proof {
            self.lemma_stream();
        }
        match self.stream.peek_next_char() {
            Some(c) => {
                match c {
                    '(' | ',' | ')' | '{' | '}' | '+' | '-' | '*' | '/' | ';' => {
                        self.stream.get_next_char();
                        self.char_pos += 1;
                        Some(Token::new(char_text(c), TokenType::OPERATOR, line_num, char_pos))
                    },
                    '=' | '<' | '>' | '!' => {
                        let mut text = char_text(c);
                        self.stream.get_next_char();
                        self.char_pos += 1;
                        proof {
                            self.lemma_stream();
                        }
                        match self.stream.peek_next_char() {
                            Some(c2) => {
                                if c2 == '=' {
                                    self.stream.get_next_char();
                                    self.char_pos += 1;
                                    push_char(&mut text, c2);
                                    assert(text@ =~= seq![c, '=']);
                                } else if c == '!' {
                                    proof {
                                        reveal_strlit("!");
                                        assert("!"@ =~= seq![c]);
                                    }
                                    return invalid_token("!", line_num, char_pos);
                                }
                            },
                            None => {
                                if c == '!' {
                                    proof {
                                        reveal_strlit("!");
                                        assert("!"@ =~= seq![c]);
                                    }
                                    return invalid_token("!", line_num, char_pos);
                                }
                            },
                        }
                        Some(Token::new(text, TokenType::OPERATOR, line_num, char_pos))
                    },
                    _ => {
                        self.stream.get_next_char();
                        self.char_pos += 1;
                        invalid_token(char_text(c).as_str(), line_num, char_pos)
                    },
                }
            },
            None => None,
        }
    }

    /// The next token, consumed; `None` when only blanks are left. A character that can start
    /// no token gives an invalid token of that one character. No line or column number may
    /// overflow an `i32` while the token is read.
    pub fn get_next_token(&mut self) -> (r: Option<Token>)
        requires
            old(self).wf(),
            step_fits(old(self).text(), old(self).state()),
        ensures
            final(self).wf(),
            final(self).text() == old(self).text(),
            (r matches Some(tk) ==> token_placed(tk@)),
            (match r {
                Some(tk) => Some(tk@),
                None => None,
            }, final(self).state()) == next_token(old(self).text(), old(self).state()),
    {
        self.skip_spaces();
        proof {
            self.lemma_stream();
        }
        match self.stream.peek_next_char() {
            Some(c) => {
                if is_id_start(c) {
                    self.handle_identifier()
                } else if is_num_start(c) {
                    self.handle_number()
                } else if is_op_start(c) {
                    self.handle_operator()
                } else if c == '-' {
                    match self.stream.peek_ahead_char(1) {
                        Some(c2) => {
                            if is_num_start(c2) {
                                if !self.preceded_by_id_or_constant {
                                    self.handle_number()
                                } else {
                                    self.handle_operator()
                                }
                            } else {
                                self.handle_operator()
                            }
                        },
                        None => self.handle_operator(),
                    }
                } else {
                    let line_num = self.line_num;
                    let char_pos = self.char_pos;
                    self.stream.get_next_char();
                    self.char_pos += 1;
                    invalid_token(char_text(c).as_str(), line_num, char_pos)
                }
            },
            None => None,
        }
    }

    /// A scanner over the same text, standing at the same place.
    pub fn duplicate(&self) -> (s: Scanner)
        requires
            self.wf(),
        ensures
            s.wf(),
            s.text() == self.text(),
            s.state() == self.state(),
    {
        Scanner {
            stream: self.stream.duplicate(),
            line_num: self.line_num,
            char_pos: self.char_pos,
            preceded_by_id_or_constant: self.preceded_by_id_or_constant,
        }
    }

    /// How many characters of the text have been consumed.
    pub fn position(&self) -> (n: usize)
        ensures
            n == self.state().pos,
    {
        self.stream.position()
    }

    /// Whether the rest of the text is short enough that no line or column number can overflow
    /// while it is read.
    pub fn within_bounds(&self) -> (b: bool)
        requires
            self.wf(),
        ensures
            b == within_bounds(self.text(), self.state()),
    {
        proof {
            self.lemma_wf();
        }
        let rest = self.stream.remaining();
        if rest > 0x7fff_ffff {
            return false;
        }
        let rest = rest as i64;
        (self.line_num as i64) + rest <= 0x7fff_ffff && (self.char_pos as i64) + 4 * rest
            <= 0x7fff_ffff
    }
}

} // verus!
