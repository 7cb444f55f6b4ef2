use vstd::prelude::*;

verus! {

/// What a character stream is: the characters it holds and how many of them have been consumed.
pub struct StreamView {
    pub chars: Seq<char>,
    pub pos: int,
}

/// The character at `k` places ahead of the current position, if there is one.
pub open spec fn stream_peek(s: StreamView, k: int) -> Option<char> {
    if 0 <= k && s.pos + k < s.chars.len() {
        Some(s.chars[s.pos + k])
    } else {
        None
    }
}

/// Law: more characters are available exactly when peeking at the next one gives a character.
pub proof fn law_more_available_iff_peek(s: StreamView)
    requires
        0 <= s.pos,
    ensures
        (s.pos < s.chars.len()) == stream_peek(s, 0) is Some,
{
}

/// A stream of characters, read from the front. Characters are consumed one at a time and
/// the position never moves back.
pub struct CharStream {
    contents: Vec<char>,
    curr_pos: usize,
    end_pos: usize,
}

impl View for CharStream {
    type V = StreamView;

    closed spec fn view(&self) -> StreamView {
        StreamView { chars: self.contents@.take(self.end_pos as int), pos: self.curr_pos as int }
    }
}

impl CharStream {
    /// The position lies within the characters that the stream holds.
    pub closed spec fn wf(&self) -> bool {
        self.curr_pos <= self.end_pos <= self.contents@.len()
    }

    pub proof fn lemma_wf(&self)
        requires
            self.wf(),
        ensures
            0 <= self@.pos <= self@.chars.len(),
    {
    }

    /// A stream over the characters of `s`, positioned at its first character.
    pub fn from_str(s: &str) -> (cs: CharStream)
        ensures
            cs.wf(),
            cs@ == (StreamView { chars: s@, pos: 0 }),
    {
        let mut contents: Vec<char> = Vec::new();
        for c in it: s.chars()
            invariant
                contents@ == it.seq().take(it.index() as int),
        {
            contents.push(c);
        }
        assert(contents@ == s@);
        let end_pos = contents.len();
        CharStream { contents, curr_pos: 0, end_pos }
    }

    /// True if more characters are available, false otherwise.
    pub fn more_available(&self) -> (b: bool)
        requires
            self.wf(),
        ensures
            b == (self@.pos < self@.chars.len()),
    {
        if self.curr_pos < self.end_pos {
            true
        } else {
            false
        }
    }

    /// The next character, without consuming it; `None` when no more characters are available.
    pub fn peek_next_char(&self) -> (c: Option<char>)
        requires
            self.wf(),
        ensures
            c == stream_peek(self@, 0),
    {
        self.peek_ahead_char(0)
    }

    /// The `k`th character ahead in the stream, without consuming it. `peek_ahead_char(0)` is
    /// the character that `peek_next_char()` returns. `None` when the stream holds no character
    /// at that place. `k` cannot be negative.
    pub fn peek_ahead_char(&self, k: i32) -> (c: Option<char>)
        requires
            self.wf(),
            k >= 0,
        ensures
            c == stream_peek(self@, k as int),
    {
        let mut ret = None;
        let k_usize = k as usize;
        if k_usize < self.end_pos - self.curr_pos {
            ret = Some(self.contents[self.curr_pos + k_usize]);
        }
        ret
    }

    /// The next character, consumed; `None`, with nothing consumed, when no more characters
    /// are available.
    pub fn get_next_char(&mut self) -> (c: Option<char>)
        requires
            old(self).wf(),
        ensures
            final(self).wf(),
            c == stream_peek(old(self)@, 0),
            final(self)@.chars == old(self)@.chars,
            final(self)@.pos == if c is Some {
                old(self)@.pos + 1
            } else {
                old(self)@.pos
            },
    {
        let mut ret = None;
        if self.curr_pos < self.end_pos {
            ret = Some(self.contents[self.curr_pos]);
            self.curr_pos += 1;
        }
        ret
    }

    /// A stream with the same characters, at the same position.
    pub fn duplicate(&self) -> (cs: CharStream)
        requires
            self.wf(),
        ensures
            cs.wf(),
            cs@ == self@,
    {
        CharStream { contents: self.contents.clone(), curr_pos: self.curr_pos, end_pos: self.end_pos }
    }

    /// How many characters have been consumed.
    pub fn position(&self) -> (n: usize)
        ensures
            n == self@.pos,
    {
        self.curr_pos
    }

    /// How many characters are left to consume.
    pub fn remaining(&self) -> (n: usize)
        requires
            self.wf(),
        ensures
            n == self@.chars.len() - self@.pos,
    {
        self.end_pos - self.curr_pos
    }
}

} // verus!
