//! Lower-case hexadecimal text for byte strings.

use vstd::prelude::*;

verus! {

/// The lower-case hexadecimal digit for `n`, where `n` is below sixteen.
pub open spec fn hex_digit(n: int) -> char {
    if n < 10 {
        (0x30 + n) as u8 as char
    } else {
        (0x61 + n - 10) as u8 as char
    }
}

/// Two digits for each byte, the high half first.
pub open spec fn hex_chars(bytes: Seq<u8>) -> Seq<char> {
    Seq::new(
        2 * bytes.len(),
        |i: int|
            if i % 2 == 0 {
                hex_digit(bytes[i / 2] as int / 16)
            } else {
                hex_digit(bytes[i / 2] as int % 16)
            },
    )
}

/// The lower-case hexadecimal digit for `n`.
fn digit(n: u8) -> (c: char)
    requires
        n < 16,
    ensures
        c == hex_digit(n as int),
{
    if n < 10 {
        (0x30 + n) as char
    } else {
        (0x61 + (n - 10)) as char
    }
}

/// Walks a byte string and hands out its hexadecimal digits one by one.
pub struct BytesToHexChars<'a> {
    inner: &'a [u8],
    position: usize,
    next: Option<char>,
}

impl<'a> BytesToHexChars<'a> {
    /// The position never leaves the byte string.
    pub closed spec fn wf(&self) -> bool {
        self.position <= self.inner@.len()
    }

    /// The digits that are still to come.
    pub closed spec fn remaining(&self) -> Seq<char> {
        let rest = hex_chars(self.inner@.skip(self.position as int));
        match self.next {
            Some(low) => seq![low] + rest,
            None => rest,
        }
    }

    /// Starts at the first byte of `inner`.
    pub fn new(inner: &'a [u8]) -> (chars: BytesToHexChars<'a>)
        ensures
            chars.wf(),
            chars.remaining() == hex_chars(inner@),
    {
        assert(inner@.skip(0) == inner@);
        BytesToHexChars { inner, position: 0, next: None }
    }

    /// Hands out the next digit, if there is one.
    pub fn next(&mut self) -> (item: Option<char>)
        requires
            old(self).wf(),
        ensures
            final(self).wf(),
            old(self).remaining().len() == 0 ==> item is None && final(self).remaining()
                == old(self).remaining(),
            old(self).remaining().len() > 0 ==> item == Some(old(self).remaining()[0])
                && final(self).remaining() == old(self).remaining().drop_first(),
    {
        match self.next {
            Some(current) => {
                self.next = None;
                assert(self.remaining() == old(self).remaining().drop_first());
                Some(current)
            },
            None => {
                if self.position < self.inner.len() {
                    let byte: u8 = self.inner[self.position];
                    let ghost before = self.inner@.skip(self.position as int);
                    self.next = Some(digit(byte % 16));
                    self.position += 1;
                    proof {
                        let after = self.inner@.skip(self.position as int);
                        assert(after == before.skip(1));
                        assert(before[0] == byte);
                        assert forall|i: int| 0 <= i < hex_chars(after).len() implies hex_chars(
                            after,
                        )[i] == hex_chars(before)[i + 2] by {
                            assert((i + 2) / 2 == i / 2 + 1);
                            assert((i + 2) % 2 == i % 2);
                        }
                        assert(self.remaining() == hex_chars(before).drop_first());
                    }
                    Some(digit(byte / 16))
                } else {
                    None
                }
            },
        }
    }

    /// The number of digits that are still to come.
    pub fn len(&self) -> (length: usize)
        requires
            self.wf(),
            self.remaining().len() <= usize::MAX,
        ensures
            length == self.remaining().len(),
    {
        let mut length: usize = (self.inner.len() - self.position) * 2;
        if self.next.is_some() {
            length += 1;
        }
        length
    }

    /// The bounds on the number of digits still to come: both are exact.
    pub fn size_hint(&self) -> (bounds: (usize, Option<usize>))
        requires
            self.wf(),
            self.remaining().len() <= usize::MAX,
        ensures
            bounds.0 == self.remaining().len(),
            bounds.1 == Some(bounds.0),
    {
        let length: usize = self.len();
        (length, Some(length))
    }
}

/// The bytes of `slice` in lower-case hexadecimal.
pub fn encode(slice: &[u8]) -> (text: String)
    ensures
        text@ == hex_chars(slice@),
{
    let mut chars = BytesToHexChars::new(slice);
    let mut text = String::new();
    loop
        invariant
            chars.wf(),
            text@ + chars.remaining() == hex_chars(slice@),
        decreases chars.remaining().len(),
    {
        let ghost before = chars.remaining();
        match chars.next() {
            Some(c) => {
                text.push(c);
                assert(before == seq![c] + before.drop_first());
            },
            None => {
                return text;
            },
        }
    }
}

} // verus!
