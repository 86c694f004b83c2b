//! The token cursor over an array frame: commands pull typed tokens —
//! strings, byte strings, integers — off it one by one.
use vstd::prelude::*;
use vstd::string::StrSliceExecFns;
use vstd::string::StringExecFns;
use vstd::utf8::{decode_utf8, encode_utf8, valid_utf8};

use crate::digits::{all_digits, dec_value, u64_from_digits};
use crate::frame::{frames_view, lemma_frames_view_index, Frame, FrameV};
use crate::text::string_from_utf8;

verus! {

/// Why a token could not be pulled off the cursor.
///
/// `EndOfStream` is recoverable at the call site: it encodes an optional
/// argument. `Other` is a protocol error that terminates the connection.
#[derive(Debug)]
pub enum ParseError {
    /// The frame was fully consumed.
    EndOfStream,
    /// The token had the wrong shape; the message says which.
    Other(String),
}

impl ParseError {
    /// The error as text.
    pub fn message(&self) -> (r: String)
        ensures
            match self {
                ParseError::EndOfStream => r@ == "protocol error; unexpected end of stream"@,
                ParseError::Other(s) => r@ == s@,
            },
    {
        match self {
            ParseError::EndOfStream => String::from_str("protocol error; unexpected end of stream"),
            ParseError::Other(s) => s.clone(),
        }
    }
}

/// The text a token carries: a simple line carries its own text, a bulk
/// string carries its bytes decoded as UTF-8, nothing else is text.
pub open spec fn str_token(t: FrameV) -> Option<Seq<char>> {
    match t {
        FrameV::Simple(s) => Some(s),
        FrameV::Bulk(b) => if valid_utf8(b) {
            Some(decode_utf8(b))
        } else {
            None
        },
        _ => None,
    }
}

/// The bytes a token carries: a simple line carries its UTF-8 bytes, a bulk
/// string its bytes, nothing else carries bytes.
pub open spec fn bytes_token(t: FrameV) -> Option<Seq<u8>> {
    match t {
        FrameV::Simple(s) => Some(encode_utf8(s)),
        FrameV::Bulk(b) => Some(b),
        _ => None,
    }
}

/// The number a run of decimal digit bytes denotes, when it fits a `u64`.
pub open spec fn dec_of_bytes(b: Seq<u8>) -> Option<u64> {
    if all_digits(b) && b.len() > 0 && dec_value(b) <= u64::MAX {
        Some(dec_value(b) as u64)
    } else {
        None
    }
}

/// The number a token carries: an integer frame carries its value, a simple
/// line or bulk string carries the number its digit bytes denote.
pub open spec fn int_token(t: FrameV) -> Option<u64> {
    match t {
        FrameV::Integer(n) => Some(n),
        FrameV::Simple(s) => dec_of_bytes(encode_utf8(s)),
        FrameV::Bulk(b) => dec_of_bytes(b),
        _ => None,
    }
}

/// A cursor over the entries of an array frame.
pub struct Parse {
    /// The entries not yet consumed, in reverse order, so the next one can
    /// be taken off the back.
    rev: Vec<Frame>,
}

impl Parse {
    /// The tokens not yet consumed, first next.
    pub closed spec fn remaining(&self) -> Seq<FrameV> {
        frames_view(self.rev@.reverse())
    }

    /// Builds a cursor over the entries of `frame`; any other frame shape is
    /// a protocol error.
    pub fn new(frame: Frame) -> (r: Result<Parse, ParseError>)
        ensures
            match r {
                Ok(p) => frame@ matches FrameV::Array(items) && p.remaining() == items,
                Err(e) => !(frame@ is Array) && e is Other,
            },
    {
        let mut items = match frame {
            Frame::Array(items) => items,
            _ => {
                return Err(
                    ParseError::Other(String::from_str("protocol error; expected array frame")),
                );
            },
        };
        let ghost orig = items@;
        let mut rev: Vec<Frame> = Vec::new();
        while items.len() > 0
            invariant
                rev@.len() + items@.len() == orig.len(),
                items@ == orig.subrange(0, items@.len() as int),
                forall|j: int| 0 <= j < rev@.len() ==> #[trigger] rev@[j] == orig[orig.len() - 1
                    - j],
            decreases items@.len(),
        {
            let f = match items.pop() {
                Some(f) => f,
                None => {
                    proof {
                        assert(false);
                    }
                    return Err(ParseError::Other(String::new()));
                },
            };
            proof {
                assert(orig.subrange(0, items@.len() as int + 1).last() == orig[items@.len()
                    as int]);
                assert(orig.subrange(0, items@.len() as int + 1).drop_last() =~= orig.subrange(
                    0,
                    items@.len() as int,
                ));
            }
            rev.push(f);
        }
        proof {
            assert(rev@.reverse() =~= orig);
            lemma_frames_view_index(orig);
        }
        Ok(Parse { rev })
    }

    /// Takes the next entry, or reports the frame fully consumed.
    pub fn next(&mut self) -> (r: Result<Frame, ParseError>)
        ensures
            match r {
                Ok(f) => old(self).remaining().len() > 0 && f@ == old(self).remaining()[0]
                    && final(self).remaining() == old(self).remaining().drop_first(),
                Err(e) => e is EndOfStream && old(self).remaining().len() == 0 && *final(self)
                    == *old(self),
            },
    {
        proof {
            lemma_frames_view_index(self.rev@.reverse());
        }
        if self.rev.len() == 0 {
            return Err(ParseError::EndOfStream);
        }
        match self.rev.pop() {
            Some(f) => {
                proof {
                    let o = old(self).rev@;
                    let n = self.rev@;
                    assert(n == o.drop_last());
                    assert(o.reverse()[0] == o.last());
                    assert(n.reverse() =~= o.reverse().drop_first());
                    lemma_frames_view_index(n.reverse());
                    lemma_frames_view_index(o.reverse());
                    assert(final(self).remaining() =~= old(self).remaining().drop_first());
                }
                Ok(f)
            },
            None => {
                proof {
                    assert(false);
                }
                Err(ParseError::EndOfStream)
            },
        }
    }

    /// Takes the next entry as text.
    pub fn next_string(&mut self) -> (r: Result<String, ParseError>)
        ensures
            match r {
                Ok(s) => old(self).remaining().len() > 0 && str_token(old(self).remaining()[0])
                    == Some(s@) && final(self).remaining() == old(self).remaining().drop_first(),
                Err(e) => match e {
                    ParseError::EndOfStream => old(self).remaining().len() == 0 && *final(self)
                        == *old(self),
                    ParseError::Other(_) => old(self).remaining().len() > 0 && str_token(
                        old(self).remaining()[0],
                    ) is None && final(self).remaining() == old(self).remaining().drop_first(),
                },
            },
    {
        match self.next()? {
            Frame::Simple(s) => Ok(s),
            Frame::Bulk(b) => match string_from_utf8(&b) {
                Some(s) => Ok(s),
                None => Err(ParseError::Other(String::from_str("protocol error; invalid string"))),
            },
            _ => Err(
                ParseError::Other(
                    String::from_str("protocol error; expected simple frame or bulk frame"),
                ),
            ),
        }
    }

    /// Takes the next entry as raw bytes.
    pub fn next_bytes(&mut self) -> (r: Result<Vec<u8>, ParseError>)
        ensures
            match r {
                Ok(b) => old(self).remaining().len() > 0 && bytes_token(old(self).remaining()[0])
                    == Some(b@) && final(self).remaining() == old(self).remaining().drop_first(),
                Err(e) => match e {
                    ParseError::EndOfStream => old(self).remaining().len() == 0 && *final(self)
                        == *old(self),
                    ParseError::Other(_) => old(self).remaining().len() > 0 && bytes_token(
                        old(self).remaining()[0],
                    ) is None && final(self).remaining() == old(self).remaining().drop_first(),
                },
            },
    {
        match self.next()? {
            Frame::Simple(s) => Ok(s.as_str().as_bytes_vec()),
            Frame::Bulk(b) => Ok(b),
            _ => Err(
                ParseError::Other(
                    String::from_str("protocol error; expected simple frame or bulk frame"),
                ),
            ),
        }
    }

    /// Takes the next entry as an unsigned 64-bit integer.
    pub fn next_int(&mut self) -> (r: Result<u64, ParseError>)
        ensures
            match r {
                Ok(n) => old(self).remaining().len() > 0 && int_token(old(self).remaining()[0])
                    == Some(n) && final(self).remaining() == old(self).remaining().drop_first(),
                Err(e) => match e {
                    ParseError::EndOfStream => old(self).remaining().len() == 0 && *final(self)
                        == *old(self),
                    ParseError::Other(_) => old(self).remaining().len() > 0 && int_token(
                        old(self).remaining()[0],
                    ) is None && final(self).remaining() == old(self).remaining().drop_first(),
                },
            },
    {
        let digits: Vec<u8> = match self.next()? {
            Frame::Integer(n) => {
                return Ok(n);
            },
            Frame::Simple(s) => s.as_str().as_bytes_vec(),
            Frame::Bulk(b) => b,
            _ => {
                return Err(
                    ParseError::Other(String::from_str("protocol error; expected int frame")),
                );
            },
        };
        proof {
            assert(digits@.subrange(0, digits@.len() as int) =~= digits@);
        }
        match u64_from_digits(&digits, 0, digits.len()) {
            Some(n) => Ok(n),
            None => Err(ParseError::Other(String::from_str("protocol error; invalid number"))),
        }
    }

    /// Errors unless every entry has been consumed; consumes one entry when
    /// one remains.
    pub fn check_done(&mut self) -> (r: Result<(), ParseError>)
        ensures
            match r {
                Ok(()) => old(self).remaining().len() == 0 && *final(self) == *old(self),
                Err(e) => e is Other && old(self).remaining().len() > 0 && final(self).remaining()
                    == old(self).remaining().drop_first(),
            },
    {
        match self.next() {
            Err(ParseError::EndOfStream) => Ok(()),
            _ => Err(
                ParseError::Other(String::from_str("protocol error; expected end of frame")),
            ),
        }
    }
}

} // verus!
