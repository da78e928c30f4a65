//! Reading tokens and texts one after the other.

use crate::ace_serialize::{
    deepest, escaped_byte, lemma_deepest_at_least, text_at, text_end, token_at, unescape,
    CONTROL, ESCAPE,
};
use crate::error::CodecError;
use vstd::prelude::*;
use vstd::slice::slice_subrange;
use vstd::string::StringSliceAdditionalSpecFns;

verus! {

/// A place in legacy text, from which tokens and texts are read one after
/// the other.
pub struct StrReader<'s> {
    pub slice: &'s [u8],
    pub index: usize,
}

impl<'s> StrReader<'s> {
    /// The place lies in the text or at its end.
    pub open spec fn wf(&self) -> bool {
        self.index <= self.slice@.len()
    }

    /// A reader at the start of the text.
    pub fn new(slice: &'s str) -> (reader: Self)
        ensures
            reader.wf(),
            reader.slice@ == slice.spec_bytes(),
            reader.index == 0,
    {
        StrReader { slice: slice.as_bytes(), index: 0 }
    }

    /// The second byte of the control token at the place of the reader, which
    /// stays where it is. Where no token stands, that is `InvalidIdentifier`.
    pub fn peek_identifier(&self) -> (r: Result<u8, CodecError>)
        requires
            self.wf(),
        ensures
            match token_at(self.slice@, self.index as nat) {
                Some(token) => r == Ok::<u8, CodecError>(token),
                None => r == Err::<u8, CodecError>(CodecError::InvalidIdentifier),
            },
    {
        if self.slice.len() - self.index < 2 || self.slice[self.index] != CONTROL {
            Err(CodecError::InvalidIdentifier)
        } else {
            Ok(self.slice[self.index + 1])
        }
    }

    /// The second byte of the control token at the place of the reader, which
    /// moves behind the token. Where no token stands, that is
    /// `InvalidIdentifier`, and the reader stays where it is.
    pub fn read_identifier(&mut self) -> (r: Result<u8, CodecError>)
        requires
            old(self).wf(),
        ensures
            final(self).wf(),
            final(self).slice == old(self).slice,
            match token_at(old(self).slice@, old(self).index as nat) {
                Some(token) => r == Ok::<u8, CodecError>(token) && final(self).index == old(self).index
                    + 2,
                None => r == Err::<u8, CodecError>(CodecError::InvalidIdentifier) && final(self).index
                    == old(self).index,
            },
    {
        let len: usize = self.slice.len();
        match self.peek_identifier() {
            Ok(token) => {
                assert(self.index + 2 <= len);
                self.index = self.index + 2;
                Ok(token)
            },
            Err(e) => Err(e),
        }
    }

    /// The text from the place of the reader to the next `^` or the end of the
    /// input. The reader moves behind the text.
    pub fn read_until_next(&mut self) -> (text: &'s [u8])
        requires
            old(self).wf(),
        ensures
            final(self).wf(),
            final(self).slice == old(self).slice,
            text@ == text_at(old(self).slice@, old(self).index as nat),
            final(self).index == text_end(old(self).slice@, old(self).index as nat),
            final(self).index == old(self).index + text@.len(),
    {
        let start: usize = self.index;
        let mut end: usize = start;
        while end < self.slice.len() && self.slice[end] != CONTROL
            invariant
                start <= end <= self.slice@.len(),
                self.slice == old(self).slice,
                text_end(self.slice@, end as nat) == text_end(self.slice@, start as nat),
            decreases self.slice@.len() - end,
        {
            end = end + 1;
        }
        self.index = end;
        slice_subrange(self.slice, start, end)
    }

    /// The string at the place of the reader: its text up to the next `^` or
    /// the end of the input, with every escape replaced by its byte. The
    /// reader moves behind the text.
    pub fn parse_str(&mut self) -> (r: Result<Vec<u8>, CodecError>)
        requires
            old(self).wf(),
        ensures
            final(self).wf(),
            final(self).slice == old(self).slice,
            final(self).index == text_end(old(self).slice@, old(self).index as nat),
            final(self).index == old(self).index + text_at(
                old(self).slice@,
                old(self).index as nat,
            ).len(),
            match unescape(text_at(old(self).slice@, old(self).index as nat), 0, Seq::empty()) {
                Ok(text) => r is Ok && r.unwrap()@ == text,
                Err(e) => r == Err::<Vec<u8>, CodecError>(e),
            },
    {
        let raw: &[u8] = self.read_until_next();
        let mut text: Vec<u8> = Vec::with_capacity(raw.len());
        let mut at: usize = 0;
        while at < raw.len()
            invariant
                at <= raw.len(),
                self.wf(),
                self.slice == old(self).slice,
                self.index == text_end(old(self).slice@, old(self).index as nat),
                self.index == old(self).index + raw@.len(),
                raw@ == text_at(old(self).slice@, old(self).index as nat),
                unescape(raw@, at as nat, text@) == unescape(raw@, 0, Seq::empty()),
            decreases raw.len() - at,
        {
            let byte: u8 = raw[at];
            if byte != ESCAPE {
                text.push(byte);
                at = at + 1;
            } else {
                if raw.len() - at < 2 {
                    return Err(CodecError::InvalidEscape);
                }
                match unescape_byte(raw[at + 1]) {
                    Some(plain) => {
                        text.push(plain);
                        at = at + 2;
                    },
                    None => {
                        return Err(CodecError::InvalidEscape);
                    },
                }
            }
        }
        Ok(text)
    }
}

/// The byte that an escape stands for, by the byte behind its `~`.
pub fn unescape_byte(c: u8) -> (r: Option<u8>)
    ensures
        r == escaped_byte(c),
{
    if 0x40 <= c && c <= 0x79 {
        Some(c - 0x40)
    } else if c == 0x7a {
        Some(0x1e)
    } else if c == 0x7b {
        Some(0x7f)
    } else if c == 0x7c {
        Some(0x7e)
    } else if c == 0x7d {
        Some(0x5e)
    } else {
        None
    }
}

/// The greater of two numbers.
pub open spec fn greater_of(a: nat, b: nat) -> nat {
    if a > b {
        a
    } else {
        b
    }
}

/// The most tables that are open at once in the text, as `deepest` counts
/// them: a text whose nesting is no more than the reader allows is not refused
/// for its depth.
pub fn nesting(s: &[u8]) -> (most: usize)
    ensures
        most == deepest(s@, 0, 0),
{
    let len: usize = s.len();
    let mut pos: usize = 0;
    let mut open: usize = 0;
    let mut most: usize = 0;
    while len - pos >= 2
        invariant
            len == s.len(),
            pos <= len,
            open <= most <= pos,
            deepest(s@, 0, 0) == greater_of(most as nat, deepest(s@, pos as nat, open as nat)),
        decreases len - pos,
    {
        if s[pos] != CONTROL {
            pos = pos + 1;
        } else {
            let token: u8 = s[pos + 1];
            if token == 0x54 {
                proof {
                    lemma_deepest_at_least(s@, (pos + 2) as nat, (open + 1) as nat);
                }
                open = open + 1;
                if open > most {
                    most = open;
                }
            } else if token == 0x74 && open > 0 {
                open = open - 1;
            }
            pos = pos + 2;
        }
    }
    most
}

} // verus!
