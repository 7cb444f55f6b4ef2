use vstd::prelude::*;
use vstd::std_specs::iter::IteratorSpec;

verus! {

/// Whether `c` has Unicode's Alphabetic property, as `char::is_alphabetic` reports it.
pub uninterp spec fn alphabetic(c: char) -> bool;

/// An ASCII letter: `a` to `z` or `A` to `Z`.
pub open spec fn is_ascii_letter(c: char) -> bool {
    ('a' <= c && c <= 'z') || ('A' <= c && c <= 'Z')
}

/// Calls `char::is_alphabetic`. Trusted: the result is `alphabetic(c)`, a name for what that
/// std method returns, and on an ASCII character it is true exactly for the ASCII letters
/// (Unicode's Alphabetic property holds no other ASCII character). Which other characters
/// are alphabetic is not stated.
#[verifier::external_body]
pub fn is_alphabetic(c: char) -> (b: bool)
    ensures
        b == alphabetic(c),
        c <= '\u{7f}' ==> (b <==> is_ascii_letter(c)),
{
    c.is_alphabetic()
}

/// Whether the two strings hold the same characters, compared one by one.
pub fn same_text(a: &str, b: &str) -> (r: bool)
    ensures
        r == (a@ == b@),
{
    broadcast use vstd::string::axiom_spec_iter, vstd::string::next_postcondition;

    let mut ia = a.chars();
    let mut ib = b.chars();
    let ghost mut i: int = 0;
    loop
        invariant
            0 <= i <= a@.len(),
            i <= b@.len(),
            ia.obeys_prophetic_iter_laws(),
            ib.obeys_prophetic_iter_laws(),
            ia.remaining() == a@.skip(i),
            ib.remaining() == b@.skip(i),
            a@.take(i) == b@.take(i),
        decreases a@.len() - i,
    {
        let ca = ia.next();
        let cb = ib.next();
        match ca {
            Some(x) => match cb {
                Some(y) => {
                    if x != y {
                        assert(a@[i] != b@[i]);
                        return false;
                    }
                    proof {
                        assert(a@.take(i + 1) =~= a@.take(i).push(x));
                        assert(b@.take(i + 1) =~= b@.take(i).push(y));
                        i = i + 1;
                    }
                },
                None => {
                    assert(b@.len() == i);
                    return false;
                },
            },
            None => {
                assert(a@.len() == i);
                if cb.is_some() {
                    return false;
                }
                assert(a@ =~= a@.take(i));
                assert(b@ =~= b@.take(i));
                return true;
            },
        }
    }
}

/// Calls `String::push`. Trusted: the character is appended at the end of the string.
#[verifier::external_body]
pub fn push_char(s: &mut String, c: char)
    ensures
        final(s)@ == old(s)@.push(c),
{
    s.push(c)
}

} // verus!
