//! The RESP frame: the wire-visible value type, its mathematical view, the
//! byte-level encoding, and the executable encoder.
//!
//! Wire format (line terminator CRLF = 0x0D 0x0A):
//! `+text\r\n` simple, `-text\r\n` error, `:n\r\n` integer,
//! `$len\r\n<bytes>\r\n` bulk (`$-1\r\n` is the explicit nil),
//! `*count\r\n<frames>` array.
use vstd::prelude::*;
use vstd::string::StrSliceExecFns;
use vstd::utf8::encode_utf8;

use crate::digits::{dec_bytes, push_decimal};

verus! {

/// One self-delimited RESP value.
#[derive(Debug)]
pub enum Frame {
    /// A status line of UTF-8 text.
    Simple(String),
    /// A protocol error line of UTF-8 text.
    Error(String),
    /// An unsigned 64-bit integer.
    Integer(u64),
    /// A binary-safe, length-prefixed byte string.
    Bulk(Vec<u8>),
    /// The explicit nil value.
    Null,
    /// An ordered, possibly empty sequence of frames.
    Array(Vec<Frame>),
}

/// The mathematical value of a [`Frame`]: text as character sequences, byte
/// strings as byte sequences, arrays as sequences of frame values.
pub enum FrameV {
    Simple(Seq<char>),
    Error(Seq<char>),
    Integer(u64),
    Bulk(Seq<u8>),
    Null,
    Array(Seq<FrameV>),
}

impl View for Frame {
    type V = FrameV;

    open spec fn view(&self) -> FrameV
        decreases self, 1int,
    {
        match self {
            Frame::Simple(s) => FrameV::Simple(s@),
            Frame::Error(s) => FrameV::Error(s@),
            Frame::Integer(n) => FrameV::Integer(*n),
            Frame::Bulk(b) => FrameV::Bulk(b@),
            Frame::Null => FrameV::Null,
            Frame::Array(items) => {
                proof {
                    assert(decreases_to!(self => items));
                    assert(decreases_to!(items => items@));
                }
                FrameV::Array(frames_view(items@))
            },
        }
    }
}

/// The views of a sequence of frames, element by element.
pub open spec fn frames_view(s: Seq<Frame>) -> Seq<FrameV>
    decreases s, 0int,
{
    if s.len() == 0 {
        Seq::empty()
    } else {
        seq![s[0]@] + frames_view(s.drop_first())
    }
}

/// `frames_view` is pointwise `view`.
pub proof fn lemma_frames_view_index(s: Seq<Frame>)
    ensures
        frames_view(s).len() == s.len(),
        forall|i: int| 0 <= i < s.len() ==> #[trigger] frames_view(s)[i] == s[i]@,
    decreases s.len(),
{
    if s.len() > 0 {
        lemma_frames_view_index(s.drop_first());
        let head = seq![s[0]@];
        let tail = frames_view(s.drop_first());
        assert(frames_view(s) == head + tail);
        assert(tail.len() == s.len() - 1);
        assert forall|i: int| 0 <= i < s.len() implies #[trigger] frames_view(s)[i] == s[i]@ by {
            if i > 0 {
                assert((head + tail)[i] == tail[i - 1]);
                assert(s.drop_first()[i - 1] == s[i]);
            } else {
                assert((head + tail)[0] == s[0]@);
            }
        }
    }
}

/// The CRLF line terminator.
pub open spec fn crlf() -> Seq<u8> {
    seq![13u8, 10u8]
}

/// The byte encoding of a frame value.
pub open spec fn frame_enc(f: FrameV) -> Seq<u8>
    decreases f, 0int,
{
    match f {
        FrameV::Simple(s) => seq![43u8] + encode_utf8(s) + crlf(),
        FrameV::Error(s) => seq![45u8] + encode_utf8(s) + crlf(),
        FrameV::Integer(n) => seq![58u8] + dec_bytes(n as nat) + crlf(),
        FrameV::Bulk(b) => seq![36u8] + dec_bytes(b.len()) + crlf() + b + crlf(),
        FrameV::Null => seq![36u8, 45u8, 49u8, 13u8, 10u8],
        FrameV::Array(items) => seq![42u8] + dec_bytes(items.len()) + crlf() + elems_enc(items),
    }
}

/// The concatenated encodings of a sequence of frame values.
pub open spec fn elems_enc(items: Seq<FrameV>) -> Seq<u8>
    decreases items, 1int,
{
    if items.len() == 0 {
        Seq::empty()
    } else {
        frame_enc(items[0]) + elems_enc(items.drop_first())
    }
}

/// True when a text line can travel inside a frame: its UTF-8 bytes hold no
/// carriage return and no line feed, so the line ends exactly where the
/// encoder puts the CRLF.
pub open spec fn line_ok(s: Seq<char>) -> bool {
    forall|i: int|
        0 <= i < encode_utf8(s).len() ==> encode_utf8(s)[i] != 13 && #[trigger] encode_utf8(
            s,
        )[i] != 10
}

/// True when a frame value round-trips through the wire: every text line is
/// clean and every length fits the wire's unsigned 64-bit decimals.
pub open spec fn frame_wf(f: FrameV) -> bool
    decreases f, 0int,
{
    match f {
        FrameV::Simple(s) => line_ok(s),
        FrameV::Error(s) => line_ok(s),
        FrameV::Integer(_) => true,
        FrameV::Bulk(b) => b.len() <= u64::MAX,
        FrameV::Null => true,
        FrameV::Array(items) => items.len() <= u64::MAX && elems_wf(items),
    }
}

/// True when every frame value in the sequence is well formed.
pub open spec fn elems_wf(items: Seq<FrameV>) -> bool
    decreases items, 1int,
{
    forall|i: int| 0 <= i < items.len() ==> frame_wf(#[trigger] items[i])
}

/// Appending one frame appends its view.
pub proof fn lemma_frames_view_snoc(s: Seq<Frame>, f: Frame)
    ensures
        frames_view(s.push(f)) == frames_view(s) + seq![f@],
{
    lemma_frames_view_index(s);
    lemma_frames_view_index(s.push(f));
    assert(frames_view(s.push(f)) =~= frames_view(s) + seq![f@]);
}

impl Frame {
    /// Appends the wire encoding of this frame to `out`.
    pub fn encode(&self, out: &mut Vec<u8>)
        ensures
            final(out)@ == old(out)@ + frame_enc(self@),
        decreases self,
    {
        match self {
            Frame::Simple(s) => {
                out.push(43);
                let mut body = s.as_str().as_bytes_vec();
                out.append(&mut body);
                out.push(13);
                out.push(10);
                proof {
                    assert(final(out)@ =~= old(out)@ + frame_enc(self@));
                }
            },
            Frame::Error(s) => {
                out.push(45);
                let mut body = s.as_str().as_bytes_vec();
                out.append(&mut body);
                out.push(13);
                out.push(10);
                proof {
                    assert(final(out)@ =~= old(out)@ + frame_enc(self@));
                }
            },
            Frame::Integer(n) => {
                out.push(58);
                push_decimal(out, *n);
                out.push(13);
                out.push(10);
                proof {
                    assert(final(out)@ =~= old(out)@ + frame_enc(self@));
                }
            },
            Frame::Bulk(b) => {
                out.push(36);
                push_decimal(out, b.len() as u64);
                out.push(13);
                out.push(10);
                let mut body = b.clone();
                out.append(&mut body);
                out.push(13);
                out.push(10);
                proof {
                    assert(final(out)@ =~= old(out)@ + frame_enc(self@));
                }
            },
            Frame::Null => {
                out.push(36);
                out.push(45);
                out.push(49);
                out.push(13);
                out.push(10);
                proof {
                    assert(final(out)@ =~= old(out)@ + frame_enc(self@));
                }
            },
            Frame::Array(items) => {
                let ghost itemsv = frames_view(items@);
                out.push(42);
                push_decimal(out, items.len() as u64);
                out.push(13);
                out.push(10);
                let ghost header = old(out)@ + seq![42u8] + dec_bytes(items@.len() as nat)
                    + crlf();
                proof {
                    lemma_frames_view_index(items@);
                    assert(out@ =~= header);
                    assert(elems_enc(itemsv.subrange(0, 0)) =~= Seq::<u8>::empty());
                    assert(out@ =~= header + elems_enc(itemsv.subrange(0, 0)));
                }
                let mut i: usize = 0;
                #[verifier::loop_isolation(false)]
                while i < items.len()
                    invariant
                        i <= items@.len(),
                        out@ == header + elems_enc(itemsv.subrange(0, i as int)),
                    decreases items@.len() - i,
                {
                    proof {
                        assert(decreases_to!(*self => self->Array_0));
                        assert(decreases_to!(*items => items@[i as int]));
                    }
                    items[i].encode(out);
                    proof {
                        lemma_elems_enc_snoc(itemsv.subrange(0, i as int), items@[i as int]@);
                        assert(itemsv.subrange(0, i + 1) =~= itemsv.subrange(0, i as int).push(
                            itemsv[i as int],
                        ));
                        assert(out@ =~= header + elems_enc(itemsv.subrange(0, i + 1)));
                    }
                    i = i + 1;
                }
                proof {
                    assert(itemsv.subrange(0, itemsv.len() as int) =~= itemsv);
                    assert(final(out)@ =~= old(out)@ + frame_enc(self@));
                }
            },
        }
    }

    /// The wire encoding of this frame as a fresh byte string.
    pub fn to_bytes(&self) -> (r: Vec<u8>)
        ensures
            r@ == frame_enc(self@),
    {
        let mut out: Vec<u8> = Vec::new();
        self.encode(&mut out);
        proof {
            assert(out@ =~= frame_enc(self@));
        }
        out
    }
}

/// Appending one frame to a sequence appends its encoding to the sequence's.
pub proof fn lemma_elems_enc_snoc(items: Seq<FrameV>, f: FrameV)
    ensures
        elems_enc(items.push(f)) == elems_enc(items) + frame_enc(f),
    decreases items.len(),
{
    let whole = items.push(f);
    if items.len() == 0 {
        assert(whole.drop_first() =~= Seq::<FrameV>::empty());
        assert(elems_enc(whole.drop_first()) =~= Seq::<u8>::empty());
        assert(whole[0] == f);
        assert(elems_enc(whole) =~= frame_enc(f));
        assert(elems_enc(items) =~= Seq::<u8>::empty());
        assert(elems_enc(items) + frame_enc(f) =~= frame_enc(f));
    } else {
        assert(whole.drop_first() =~= items.drop_first().push(f));
        lemma_elems_enc_snoc(items.drop_first(), f);
        assert(whole[0] == items[0]);
        assert(elems_enc(whole) =~= elems_enc(items) + frame_enc(f));
    }
}

} // verus!
