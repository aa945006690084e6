use vstd::prelude::*;

use crate::error::ClientError;
use vstd::std_specs::iter::IteratorSpec;

verus! {

/// A control character: Unicode general category `Cc`.
pub open spec fn is_control(c: char) -> bool {
    ('\u{0}' <= c && c <= '\u{1f}') || ('\u{7f}' <= c && c <= '\u{9f}')
}

/// The first control character of `s`, if any.
pub open spec fn first_control(s: Seq<char>) -> Option<char>
    decreases s.len(),
{
    if s.len() == 0 {
        None
    } else if is_control(s[0]) {
        Some(s[0])
    } else {
        first_control(s.drop_first())
    }
}

/// Decides whether chat content is acceptable: it must be non-empty, at most
/// `max_length` characters long and free of control characters.
#[derive(Debug, Clone, Copy, PartialEq, Eq, Structural)]
pub struct Validator {
    pub max_length: usize,
}

impl Validator {
    /// The verdict on `content`, checked in this order: empty, too long,
    /// first disallowed character.
    pub open spec fn verdict(self, content: Seq<char>) -> Result<(), ClientError> {
        if content.len() == 0 {
            Err(ClientError::EmptyMessage)
        } else if content.len() > self.max_length {
            Err(ClientError::MessageTooLong)
        } else {
            match first_control(content) {
                Some(c) => Err(ClientError::InvalidCharacter(c)),
                None => Ok(()),
            }
        }
    }

    pub fn new(max_length: usize) -> (r: Validator)
        ensures
            r.max_length == max_length,
    {
        Validator { max_length }
    }

    pub fn validate(&self, content: &str) -> (r: Result<(), ClientError>)
        ensures
            r == self.verdict(content@),
    {
        let chars = char_vec(content);
        if chars.len() == 0 {
            return Err(ClientError::EmptyMessage);
        }
        if chars.len() > self.max_length {
            return Err(ClientError::MessageTooLong);
        }
        let mut i: usize = 0;
        assert(chars@.skip(0) =~= chars@);
        while i < chars.len()
            invariant
                0 <= i <= chars@.len(),
                chars@ == content@,
                0 < content@.len() <= self.max_length,
                first_control(chars@) == first_control(chars@.skip(i as int)),
            decreases chars@.len() - i,
        {
            let c = chars[i];
            proof {
                assert(chars@.skip(i as int).drop_first() =~= chars@.skip(i + 1));
                assert(chars@.skip(i as int)[0] == c);
            }
            if is_control_char(c) {
                return Err(ClientError::InvalidCharacter(c));
            }
            i = i + 1;
        }
        proof {
            assert(chars@.skip(i as int) =~= Seq::<char>::empty());
        }
        Ok(())
    }
}

pub fn is_control_char(c: char) -> (r: bool)
    ensures
        r == is_control(c),
{
    ('\u{0}' <= c && c <= '\u{1f}') || ('\u{7f}' <= c && c <= '\u{9f}')
}

/// The characters of `s`, in order.
pub fn char_vec(s: &str) -> (r: Vec<char>)
    ensures
        r@ == s@,
{
    broadcast use vstd::string::group_string_axioms;
    let mut chars = s.chars();
    let mut out: Vec<char> = Vec::new();
    loop
        invariant
            out@ + chars.remaining() == s@,
            chars.decrease() is Some,
        decreases chars.decrease()->0,
    {
        match chars.next() {
            Some(c) => {
                proof {
                    assert(out@.push(c) + chars.remaining() =~= s@);
                }
                out.push(c);
            },
            None => {
                assert(out@ =~= s@);
                return out;
            },
        }
    }
}

} // verus!
