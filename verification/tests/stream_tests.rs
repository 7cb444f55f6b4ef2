use xparse::character_stream::CharStream;

#[test]
fn stream_reads_characters_in_order() {
    let mut s = CharStream::from_str("ab");
    assert!(s.more_available());
    assert_eq!(s.peek_next_char(), Some('a'));
    assert_eq!(s.peek_ahead_char(1), Some('b'));
    assert_eq!(s.peek_ahead_char(2), None);
    assert_eq!(s.get_next_char(), Some('a'));
    assert_eq!(s.get_next_char(), Some('b'));
    assert!(!s.more_available());
    assert_eq!(s.get_next_char(), None);
    assert_eq!(s.peek_next_char(), None);
}

#[test]
fn peek_ahead_zero_is_peek_next() {
    let mut s = CharStream::from_str("xyz");
    for _ in 0..4 {
        assert_eq!(s.peek_ahead_char(0), s.peek_next_char());
        s.get_next_char();
    }
}

#[test]
fn more_available_exactly_when_peek_gives_a_character() {
    let mut s = CharStream::from_str("q\n");
    for _ in 0..3 {
        assert_eq!(s.more_available(), s.peek_next_char().is_some());
        s.get_next_char();
    }
}

#[test]
fn peeking_does_not_consume() {
    let mut s = CharStream::from_str("pq");
    assert_eq!(s.peek_ahead_char(1), Some('q'));
    assert_eq!(s.peek_next_char(), Some('p'));
    assert_eq!(s.position(), 0);
    assert_eq!(s.get_next_char(), Some('p'));
    assert_eq!(s.position(), 1);
    assert_eq!(s.peek_ahead_char(0), Some('q'));
}

#[test]
fn empty_stream_has_nothing() {
    let mut s = CharStream::from_str("");
    assert!(!s.more_available());
    assert_eq!(s.peek_next_char(), None);
    assert_eq!(s.peek_ahead_char(0), None);
    assert_eq!(s.get_next_char(), None);
    assert_eq!(s.position(), 0);
}

#[test]
fn stream_counts_characters_not_bytes() {
    let mut s = CharStream::from_str("é€x");
    assert_eq!(s.get_next_char(), Some('é'));
    assert_eq!(s.get_next_char(), Some('€'));
    assert_eq!(s.peek_next_char(), Some('x'));
    assert_eq!(s.peek_ahead_char(1), None);
}

#[test]
fn duplicate_stands_at_the_same_place() {
    let mut s = CharStream::from_str("mn");
    s.get_next_char();
    let mut d = s.duplicate();
    assert_eq!(d.position(), 1);
    assert_eq!(d.get_next_char(), Some('n'));
    assert_eq!(s.peek_next_char(), Some('n'));
}
