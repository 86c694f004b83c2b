//! Decoding RESP frames from a byte buffer: the byte-level grammar as a
//! specification, a fast structural `check` pass, a full `parse` pass, and
//! the incremental [`FrameBuffer`] that a connection feeds as bytes arrive.
use vstd::prelude::*;
use vstd::utf8::{decode_utf8, valid_utf8};

use crate::digits::{all_digits, dec_value, u64_from_digits};
use crate::frame::{frames_view, lemma_frames_view_snoc, Frame, FrameV};
use crate::text::string_from_utf8;

verus! {

/// Why a frame could not be decoded from the front of a buffer.
///
/// `Incomplete` is recoverable: more bytes may complete the frame.
/// `Invalid` is not: the bytes can never begin a well-formed frame.
#[derive(Debug, PartialEq, Eq, Structural, Clone, Copy)]
pub enum FrameError {
    Incomplete,
    Invalid,
}

/// True when a CRLF pair sits at index `j` of `s`.
pub open spec fn crlf_at(s: Seq<u8>, j: int) -> bool {
    0 <= j && j + 2 <= s.len() && s[j] == 13 && s[j + 1] == 10
}

/// The least index `i >= pos` holding a CRLF pair, if any.
pub open spec fn find_crlf(s: Seq<u8>, pos: int) -> Option<int>
    recommends
        0 <= pos <= s.len(),
    decreases s.len() - pos,
{
    if pos < 0 || pos + 2 > s.len() {
        None
    } else if s[pos] == 13 && s[pos + 1] == 10 {
        Some(pos)
    } else {
        find_crlf(s, pos + 1)
    }
}

/// What `find_crlf` returns: the first CRLF pair at or after `pos`.
pub proof fn lemma_find_crlf(s: Seq<u8>, pos: int)
    requires
        0 <= pos <= s.len(),
    ensures
        match find_crlf(s, pos) {
            Some(i) => pos <= i && crlf_at(s, i) && forall|j: int|
                pos <= j < i ==> !#[trigger] crlf_at(s, j),
            None => forall|j: int| pos <= j ==> !#[trigger] crlf_at(s, j),
        },
    decreases s.len() - pos,
{
    if pos + 2 > s.len() {
    } else if s[pos] == 13 && s[pos + 1] == 10 {
    } else {
        lemma_find_crlf(s, pos + 1);
    }
}

/// The outcome of reading one frame from `pos`: more bytes needed, a
/// malformed prefix, or a frame value together with the position just past
/// its encoding.
pub enum FrameStep {
    Incomplete,
    Invalid,
    Done(FrameV, int),
}

/// The outcome of reading a run of frames: more bytes needed, a malformed
/// prefix, or the frame values together with the position just past them.
pub enum ElemsStep {
    Incomplete,
    Invalid,
    Done(Seq<FrameV>, int),
}

/// Reads one frame from `b` starting at `pos`.
///
/// A text line runs to the first CRLF pair and must be valid UTF-8; an
/// integer or length line must be a non-empty run of decimal digits whose
/// value fits in a `u64`; the bulk line `-1` denotes the explicit nil; any
/// other tag byte is malformed.
pub open spec fn frame_at(b: Seq<u8>, pos: int) -> FrameStep
    recommends
        0 <= pos <= b.len(),
    decreases b.len() - pos, 0int,
{
    if pos < 0 || pos >= b.len() {
        FrameStep::Incomplete
    } else {
        let tag = b[pos];
        match find_crlf(b, pos + 1) {
            None => if tag == 43 || tag == 45 || tag == 58 || tag == 36 || tag == 42 {
                FrameStep::Incomplete
            } else {
                FrameStep::Invalid
            },
            Some(i) => {
                let line = b.subrange(pos + 1, i);
                if tag == 43 || tag == 45 {
                    if valid_utf8(line) {
                        if tag == 43 {
                            FrameStep::Done(FrameV::Simple(decode_utf8(line)), i + 2)
                        } else {
                            FrameStep::Done(FrameV::Error(decode_utf8(line)), i + 2)
                        }
                    } else {
                        FrameStep::Invalid
                    }
                } else if tag == 58 {
                    if all_digits(line) && line.len() > 0 && dec_value(line) <= u64::MAX {
                        FrameStep::Done(FrameV::Integer(dec_value(line) as u64), i + 2)
                    } else {
                        FrameStep::Invalid
                    }
                } else if tag == 36 {
                    if line == seq![45u8, 49u8] {
                        FrameStep::Done(FrameV::Null, i + 2)
                    } else if all_digits(line) && line.len() > 0 && dec_value(line)
                        <= u64::MAX {
                        let n = dec_value(line);
                        if i + 2 + n + 2 > b.len() {
                            FrameStep::Incomplete
                        } else if b[i + 2 + n] == 13 && b[i + 2 + n + 1] == 10 {
                            FrameStep::Done(
                                FrameV::Bulk(b.subrange(i + 2, i + 2 + n)),
                                i + 2 + n + 2,
                            )
                        } else {
                            FrameStep::Invalid
                        }
                    } else {
                        FrameStep::Invalid
                    }
                } else if tag == 42 {
                    if all_digits(line) && line.len() > 0 && dec_value(line) <= u64::MAX {
                        proof {
                            lemma_find_crlf(b, pos + 1);
                        }
                        match elems_at(b, i + 2, dec_value(line) as nat) {
                            ElemsStep::Incomplete => FrameStep::Incomplete,
                            ElemsStep::Invalid => FrameStep::Invalid,
                            ElemsStep::Done(items, end) => FrameStep::Done(
                                FrameV::Array(items),
                                end,
                            ),
                        }
                    } else {
                        FrameStep::Invalid
                    }
                } else {
                    FrameStep::Invalid
                }
            },
        }
    }
}

/// Reads `n` frames in a row from `b` starting at `pos`.
pub open spec fn elems_at(b: Seq<u8>, pos: int, n: nat) -> ElemsStep
    recommends
        0 <= pos,
    decreases b.len() - pos, n + 1,
{
    if n == 0 {
        ElemsStep::Done(Seq::empty(), pos)
    } else {
        match frame_at(b, pos) {
            FrameStep::Incomplete => ElemsStep::Incomplete,
            FrameStep::Invalid => ElemsStep::Invalid,
            FrameStep::Done(f, pos2) => if pos < pos2 <= b.len() {
                match elems_at(b, pos2, (n - 1) as nat) {
                    ElemsStep::Incomplete => ElemsStep::Incomplete,
                    ElemsStep::Invalid => ElemsStep::Invalid,
                    ElemsStep::Done(rest, end) => ElemsStep::Done(seq![f] + rest, end),
                }
            } else {
                // A frame consumes at least one byte and never runs past the
                // buffer, so this branch is unreachable.
                ElemsStep::Invalid
            },
        }
    }
}

/// A frame, when read, ends strictly after `pos` and within the buffer.
pub proof fn lemma_frame_at_bounds(b: Seq<u8>, pos: int)
    requires
        0 <= pos <= b.len(),
    ensures
        frame_at(b, pos) matches FrameStep::Done(_, end) ==> pos < end <= b.len(),
    decreases b.len() - pos, 0int,
{
    if pos < b.len() {
        lemma_find_crlf(b, pos + 1);
        if let Some(i) = find_crlf(b, pos + 1) {
            let line = b.subrange(pos + 1, i);
            if all_digits(line) {
                crate::digits::lemma_dec_value_nonneg(line);
            }
            if b[pos] == 42 {
                if all_digits(line) && line.len() > 0 && dec_value(line) <= u64::MAX {
                    lemma_elems_at_bounds(b, i + 2, dec_value(line) as nat);
                }
            }
        }
    }
}

/// A run of frames, when read, ends at or after `pos` and within the buffer.
pub proof fn lemma_elems_at_bounds(b: Seq<u8>, pos: int, n: nat)
    requires
        0 <= pos <= b.len(),
    ensures
        elems_at(b, pos, n) matches ElemsStep::Done(items, end) ==> pos <= end <= b.len()
            && items.len() == n,
    decreases b.len() - pos, n + 1,
{
    if n > 0 {
        lemma_frame_at_bounds(b, pos);
        if let FrameStep::Done(f, pos2) = frame_at(b, pos) {
            if pos < pos2 <= b.len() {
                lemma_elems_at_bounds(b, pos2, (n - 1) as nat);
            }
        }
    }
}

/// Finds the first CRLF pair in `buf` at or after `pos`.
pub fn find_crlf_from(buf: &Vec<u8>, pos: usize) -> (r: Option<usize>)
    requires
        pos <= buf@.len(),
    ensures
        match r {
            Some(i) => find_crlf(buf@, pos as int) == Some(i as int),
            None => find_crlf(buf@, pos as int) is None,
        },
{
    if buf.len() < 2 {
        proof {
            lemma_find_crlf_none_short(buf@, pos as int);
        }
        return None;
    }
    let mut i: usize = pos;
    while i <= buf.len() - 2
        invariant
            pos <= i <= buf@.len(),
            buf@.len() >= 2,
            find_crlf(buf@, pos as int) == find_crlf(buf@, i as int),
        decreases buf@.len() - i,
    {
        if buf[i] == 13 && buf[i + 1] == 10 {
            return Some(i);
        }
        i = i + 1;
    }
    None
}

proof fn lemma_find_crlf_none_short(s: Seq<u8>, pos: int)
    requires
        0 <= pos,
        s.len() < pos + 2 || s.len() < 2,
    ensures
        find_crlf(s, pos) is None,
    decreases s.len() - pos,
{
    if !(pos < 0 || pos + 2 > s.len()) {
        lemma_find_crlf_none_short(s, pos + 1);
    }
}

/// Copies `buf[start..end]` into a fresh byte string.
pub fn copy_range(buf: &Vec<u8>, start: usize, end: usize) -> (r: Vec<u8>)
    requires
        start <= end <= buf@.len(),
    ensures
        r@ == buf@.subrange(start as int, end as int),
{
    let mut out: Vec<u8> = Vec::new();
    let mut i: usize = start;
    while i < end
        invariant
            start <= i <= end <= buf@.len(),
            out@ == buf@.subrange(start as int, i as int),
        decreases end - i,
    {
        out.push(buf[i]);
        proof {
            assert(buf@.subrange(start as int, i + 1) =~= buf@.subrange(start as int, i as int)
                + seq![buf@[i as int]]);
        }
        i = i + 1;
    }
    out
}

/// The structural scan: advances past one complete frame without building it
/// and without decoding text, exactly as the grammar reads bytes.
///
/// A successful scan ends where the grammar ends. The scan does not decode
/// text, so on a frame whose text is not valid UTF-8 it may still advance,
/// or report it incomplete while a later part is missing; the full
/// [`parse_at`] pass surfaces such a frame as `Invalid`. A frame the grammar
/// accepts is always scanned to its exact end, and a frame the grammar finds
/// incomplete is always reported incomplete.
pub fn check_at(buf: &Vec<u8>, pos: usize) -> (r: Result<usize, FrameError>)
    requires
        pos <= buf@.len(),
    ensures
        match r {
            Ok(end) => pos < end <= buf@.len() && (match frame_at(buf@, pos as int) {
                FrameStep::Done(_, e) => e == end,
                FrameStep::Invalid => true,
                FrameStep::Incomplete => false,
            }),
            Err(FrameError::Incomplete) => frame_at(buf@, pos as int) is Incomplete
                || frame_at(buf@, pos as int) is Invalid,
            Err(FrameError::Invalid) => frame_at(buf@, pos as int) is Invalid,
        },
    decreases buf@.len() - pos,
{
    let ghost b = buf@;
    if pos >= buf.len() {
        return Err(FrameError::Incomplete);
    }
    let tag = buf[pos];
    let known_tag = tag == 43 || tag == 45 || tag == 58 || tag == 36 || tag == 42;
    let line_end_opt = find_crlf_from(buf, pos + 1);
    let i = match line_end_opt {
        None => {
            if known_tag {
                return Err(FrameError::Incomplete);
            }
            return Err(FrameError::Invalid);
        },
        Some(i) => i,
    };
    proof {
        lemma_find_crlf(b, pos + 1);
    }
    let ghost line = b.subrange(pos + 1, i as int);
    if tag == 43 || tag == 45 {
        // Text line: the scan does not decode it.
        Ok(i + 2)
    } else if tag == 58 {
        match u64_from_digits(buf, pos + 1, i) {
            Some(_) => Ok(i + 2),
            None => Err(FrameError::Invalid),
        }
    } else if tag == 36 {
        if i - pos - 1 == 2 && buf[pos + 1] == 45 && buf[pos + 2] == 49 {
            proof {
                assert(line =~= seq![45u8, 49u8]);
            }
            return Ok(i + 2);
        }
        proof {
            if line == seq![45u8, 49u8] {
                assert(line.len() == 2 && line[0] == 45 && line[1] == 49);
                assert(buf@[pos + 1] == 45 && buf@[pos + 2] == 49);
            }
        }
        let n = match u64_from_digits(buf, pos + 1, i) {
            Some(n) => n,
            None => {
                return Err(FrameError::Invalid);
            },
        };
        let remaining = (buf.len() - i - 2) as u64;
        if remaining < 2 || n > remaining - 2 {
            return Err(FrameError::Incomplete);
        }
        let data_end = i + 2 + (n as usize);
        if buf[data_end] == 13 && buf[data_end + 1] == 10 {
            Ok(data_end + 2)
        } else {
            Err(FrameError::Invalid)
        }
    } else if tag == 42 {
        let n = match u64_from_digits(buf, pos + 1, i) {
            Some(n) => n,
            None => {
                return Err(FrameError::Invalid);
            },
        };
        let mut cur: usize = i + 2;
        let mut j: u64 = 0;
        while j < n
            invariant
                0 <= j <= n,
                pos < cur <= b.len(),
                b == buf@,
                frame_at(b, pos as int) is Invalid || (match elems_at(
                    b,
                    cur as int,
                    (n - j) as nat,
                ) {
                    ElemsStep::Incomplete => frame_at(b, pos as int) is Incomplete,
                    ElemsStep::Invalid => frame_at(b, pos as int) is Invalid,
                    ElemsStep::Done(rest, e2) => frame_at(b, pos as int) matches FrameStep::Done(
                        _,
                        e,
                    ) && e == e2,
                }),
            decreases n - j,
        {
            let step = check_at(buf, cur);
            match step {
                Ok(end) => {
                    cur = end;
                },
                Err(e) => {
                    return Err(e);
                },
            }
            j = j + 1;
        }
        Ok(cur)
    } else {
        Err(FrameError::Invalid)
    }
}

/// The full pass: reads one frame from `buf` at `pos`, exactly as the
/// grammar does.
pub fn parse_at(buf: &Vec<u8>, pos: usize) -> (r: Result<(Frame, usize), FrameError>)
    requires
        pos <= buf@.len(),
    ensures
        match r {
            Ok(p) => pos < p.1 <= buf@.len() && frame_at(buf@, pos as int) == FrameStep::Done(
                p.0@,
                p.1 as int,
            ),
            Err(FrameError::Incomplete) => frame_at(buf@, pos as int) is Incomplete,
            Err(FrameError::Invalid) => frame_at(buf@, pos as int) is Invalid,
        },
    decreases buf@.len() - pos,
{
    let ghost b = buf@;
    if pos >= buf.len() {
        return Err(FrameError::Incomplete);
    }
    let tag = buf[pos];
    let known_tag = tag == 43 || tag == 45 || tag == 58 || tag == 36 || tag == 42;
    let line_end_opt = find_crlf_from(buf, pos + 1);
    let i = match line_end_opt {
        None => {
            if known_tag {
                return Err(FrameError::Incomplete);
            }
            return Err(FrameError::Invalid);
        },
        Some(i) => i,
    };
    proof {
        lemma_find_crlf(b, pos + 1);
    }
    let ghost line = b.subrange(pos + 1, i as int);
    if tag == 43 || tag == 45 {
        let text = copy_range(buf, pos + 1, i);
        match string_from_utf8(&text) {
            Some(s) => {
                if tag == 43 {
                    Ok((Frame::Simple(s), i + 2))
                } else {
                    Ok((Frame::Error(s), i + 2))
                }
            },
            None => Err(FrameError::Invalid),
        }
    } else if tag == 58 {
        match u64_from_digits(buf, pos + 1, i) {
            Some(v) => Ok((Frame::Integer(v), i + 2)),
            None => Err(FrameError::Invalid),
        }
    } else if tag == 36 {
        if i - pos - 1 == 2 && buf[pos + 1] == 45 && buf[pos + 2] == 49 {
            proof {
                assert(line =~= seq![45u8, 49u8]);
            }
            return Ok((Frame::Null, i + 2));
        }
        proof {
            if line == seq![45u8, 49u8] {
                assert(line.len() == 2 && line[0] == 45 && line[1] == 49);
                assert(buf@[pos + 1] == 45 && buf@[pos + 2] == 49);
            }
        }
        let n = match u64_from_digits(buf, pos + 1, i) {
            Some(n) => n,
            None => {
                return Err(FrameError::Invalid);
            },
        };
        let remaining = (buf.len() - i - 2) as u64;
        if remaining < 2 || n > remaining - 2 {
            return Err(FrameError::Incomplete);
        }
        let data_end = i + 2 + (n as usize);
        if buf[data_end] == 13 && buf[data_end + 1] == 10 {
            let data = copy_range(buf, i + 2, data_end);
            Ok((Frame::Bulk(data), data_end + 2))
        } else {
            Err(FrameError::Invalid)
        }
    } else if tag == 42 {
        let n = match u64_from_digits(buf, pos + 1, i) {
            Some(n) => n,
            None => {
                return Err(FrameError::Invalid);
            },
        };
        let mut items: Vec<Frame> = Vec::new();
        let mut cur: usize = i + 2;
        let mut j: u64 = 0;
        proof {
            assert(frames_view(items@) =~= Seq::<FrameV>::empty());
        }
        while j < n
            invariant
                0 <= j <= n,
                pos < cur <= b.len(),
                b == buf@,
                match elems_at(b, cur as int, (n - j) as nat) {
                    ElemsStep::Incomplete => frame_at(b, pos as int) is Incomplete,
                    ElemsStep::Invalid => frame_at(b, pos as int) is Invalid,
                    ElemsStep::Done(rest, e2) => frame_at(b, pos as int) == FrameStep::Done(
                        FrameV::Array(frames_view(items@) + rest),
                        e2,
                    ),
                },
            decreases n - j,
        {
            let step = parse_at(buf, cur);
            match step {
                Ok((f, end)) => {
                    proof {
                        lemma_frames_view_snoc(items@, f);
                        if let ElemsStep::Done(rest, e2) = elems_at(b, cur as int, (n - j) as nat) {
                            if let ElemsStep::Done(rest2, e3) = elems_at(
                                b,
                                end as int,
                                (n - j - 1) as nat,
                            ) {
                                assert(rest =~= seq![f@] + rest2);
                                assert(frames_view(items@) + rest =~= (frames_view(items@)
                                    + seq![f@]) + rest2);
                            }
                        }
                    }
                    items.push(f);
                    cur = end;
                },
                Err(e) => {
                    return Err(e);
                },
            }
            j = j + 1;
        }
        proof {
            assert(frames_view(items@) + Seq::<FrameV>::empty() =~= frames_view(items@));
        }
        Ok((Frame::Array(items), cur))
    } else {
        Err(FrameError::Invalid)
    }
}

/// The growable read buffer of a connection: bytes are fed in as they arrive
/// from the transport, and complete frames are taken off the front.
pub struct FrameBuffer {
    buf: Vec<u8>,
}

impl View for FrameBuffer {
    type V = Seq<u8>;

    closed spec fn view(&self) -> Seq<u8> {
        self.buf@
    }
}

impl FrameBuffer {
    /// An empty buffer.
    pub fn new() -> (r: FrameBuffer)
        ensures
            r@ == Seq::<u8>::empty(),
    {
        FrameBuffer { buf: Vec::new() }
    }

    /// Appends freshly received bytes.
    pub fn feed(&mut self, chunk: &[u8])
        ensures
            final(self)@ == old(self)@ + chunk@,
    {
        self.buf.extend_from_slice(chunk);
    }

    /// The number of buffered bytes.
    pub fn len(&self) -> (r: usize)
        ensures
            r == self@.len(),
    {
        self.buf.len()
    }

    /// True when no bytes are buffered.
    pub fn is_empty(&self) -> (r: bool)
        ensures
            r == (self@.len() == 0),
    {
        self.buf.is_empty()
    }

    /// Tries to take one frame off the front of the buffer.
    ///
    /// A complete frame is removed and returned; an incomplete one leaves the
    /// buffer unchanged and yields `Ok(None)` so the caller can read more
    /// bytes. Malformed bytes yield `Err`; a frame that is malformed only by
    /// text that is not valid UTF-8 may be reported `Ok(None)` until its
    /// structure is complete, because the quick scan does not decode text.
    pub fn try_parse(&mut self) -> (r: Result<Option<Frame>, FrameError>)
        ensures
            match frame_at(old(self)@, 0) {
                FrameStep::Done(fv, end) => final(self)@ == old(self)@.subrange(
                    end,
                    old(self)@.len() as int,
                ) && (r matches Ok(f2) && f2 matches Some(f) && f@ == fv),
                FrameStep::Incomplete => r matches Ok(f2) && f2 is None && final(self)@ == old(
                    self,
                )@,
                FrameStep::Invalid => final(self)@ == old(self)@ && (r == Err::<
                    Option<Frame>,
                    FrameError,
                >(FrameError::Invalid) || (r matches Ok(f2) && f2 is None)),
            },
    {
        match check_at(&self.buf, 0) {
            Err(FrameError::Incomplete) => Ok(None),
            Err(FrameError::Invalid) => Err(FrameError::Invalid),
            Ok(_end) => {
                match parse_at(&self.buf, 0) {
                    Ok((f, end)) => {
                        let rest = self.buf.split_off(end);
                        self.buf = rest;
                        Ok(Some(f))
                    },
                    Err(FrameError::Invalid) => Err(FrameError::Invalid),
                    Err(FrameError::Incomplete) => {
                        // The scan accepted the frame, so the grammar cannot
                        // call it incomplete.
                        Ok(None)
                    },
                }
            },
        }
    }
}

} // verus!
