//! The laws tying the encoder to the decoder: a well-formed frame's encoding
//! parses back to the same frame, and every proper prefix of that encoding is
//! reported incomplete, never invalid and never as some other frame.
use vstd::prelude::*;
use vstd::utf8::{encode_utf8, encode_utf8_decode_utf8, encode_utf8_valid_utf8};

use crate::codec::{crlf_at, elems_at, find_crlf, frame_at, lemma_find_crlf, ElemsStep, FrameStep};
use crate::digits::{all_digits, dec_bytes, dec_value, lemma_dec_bytes_value};
use crate::frame::{crlf, elems_enc, elems_wf, frame_enc, frame_wf, line_ok, FrameV};

verus! {

/// The first CRLF pair at or after `pos` is the one that is there.
proof fn lemma_find_crlf_is(b: Seq<u8>, pos: int, m: int)
    requires
        0 <= pos <= m,
        m + 2 <= b.len(),
        crlf_at(b, m),
        forall|j: int| pos <= j < m ==> !#[trigger] crlf_at(b, j),
    ensures
        find_crlf(b, pos) == Some(m),
{
    lemma_find_crlf(b, pos);
    match find_crlf(b, pos) {
        Some(i) => {
            if i < m {
                assert(crlf_at(b, i));
            } else if i > m {
                assert(!crlf_at(b, m));
            }
        },
        None => {
            assert(!crlf_at(b, m));
        },
    }
}

/// When no CRLF pair exists at or after `pos`, the scan finds none.
proof fn lemma_find_crlf_is_none(b: Seq<u8>, pos: int)
    requires
        0 <= pos <= b.len(),
        forall|j: int| pos <= j ==> !#[trigger] crlf_at(b, j),
    ensures
        find_crlf(b, pos) is None,
{
    lemma_find_crlf(b, pos);
    if let Some(i) = find_crlf(b, pos) {
        assert(!crlf_at(b, i));
    }
}

/// A buffer segment equal to `seg` agrees with `seg` byte for byte.
proof fn lemma_segment_pointwise(b: Seq<u8>, pos: int, seg: Seq<u8>)
    requires
        0 <= pos,
        pos + seg.len() <= b.len(),
        b.subrange(pos, pos + seg.len()) == seg,
    ensures
        forall|k: int| 0 <= k < seg.len() ==> b[pos + k] == #[trigger] seg[k],
{
    assert(forall|k: int|
        0 <= k < seg.len() ==> b.subrange(pos, pos + seg.len())[k] == #[trigger] seg[k]);
}

/// A slice of a buffer segment is the matching slice of `seg`.
proof fn lemma_sub_segment(b: Seq<u8>, pos: int, seg: Seq<u8>, lo: int, hi: int)
    requires
        0 <= pos,
        pos + seg.len() <= b.len(),
        b.subrange(pos, pos + seg.len()) == seg,
        0 <= lo <= hi <= seg.len(),
    ensures
        b.subrange(pos + lo, pos + hi) == seg.subrange(lo, hi),
{
    lemma_segment_pointwise(b, pos, seg);
    assert(b.subrange(pos + lo, pos + hi) =~= seg.subrange(lo, hi));
}

/// The shape of a line-frame encoding `[tag] + line + CRLF`.
proof fn lemma_line_enc_shape(tag: u8, line: Seq<u8>)
    ensures
        ({
            let e = seq![tag] + line + crlf();
            &&& e.len() == line.len() + 3
            &&& e[0] == tag
            &&& forall|k: int| 0 <= k < line.len() ==> e[1 + k] == #[trigger] line[k]
            &&& e[1 + line.len() as int] == 13
            &&& e[1 + line.len() as int + 1] == 10
        }),
{
    let e = seq![tag] + line + crlf();
    assert forall|k: int| 0 <= k < line.len() implies e[1 + k] == #[trigger] line[k] by {
        assert((seq![tag] + line)[1 + k] == line[k]);
    }
}

/// With tag `tag` at `pos` and a clean `line` after it, terminated by CRLF,
/// the scan finds the terminator exactly past the line, and the line region
/// of the buffer is `line`.
proof fn lemma_parse_encoded_line(b: Seq<u8>, pos: int, tag: u8, line: Seq<u8>)
    requires
        0 <= pos,
        pos + 1 + line.len() + 2 <= b.len(),
        b[pos] == tag,
        forall|k: int| 0 <= k < line.len() ==> #[trigger] b[pos + 1 + k] == line[k],
        forall|k: int| 0 <= k < line.len() ==> line[k] != 13 && #[trigger] line[k] != 10,
        b[pos + 1 + line.len()] == 13,
        b[pos + 1 + line.len() + 1] == 10,
    ensures
        find_crlf(b, pos + 1) == Some(pos + 1 + line.len()),
        b.subrange(pos + 1, pos + 1 + line.len()) == line,
{
    let m = pos + 1 + line.len();
    assert(crlf_at(b, m));
    assert forall|j: int| pos + 1 <= j < m implies !#[trigger] crlf_at(b, j) by {
        let k = j - pos - 1;
        assert(b[pos + 1 + k] == line[k]);
        assert(line[k] != 13);
        assert(b[j] != 13);
    }
    lemma_find_crlf_is(b, pos + 1, m);
    assert forall|k: int| 0 <= k < line.len() implies #[trigger] b.subrange(pos + 1, m)[k]
        == line[k] by {
        assert(b[pos + 1 + k] == line[k]);
    }
    assert(b.subrange(pos + 1, m) =~= line);
}

/// Digit lines contain no CR and no LF.
proof fn lemma_digits_clean(s: Seq<u8>)
    requires
        all_digits(s),
    ensures
        forall|k: int| 0 <= k < s.len() ==> s[k] != 13 && #[trigger] s[k] != 10,
{
}

/// Every frame encoding is at least three bytes long.
pub proof fn lemma_frame_enc_len(f: FrameV)
    ensures
        frame_enc(f).len() >= 3,
{
}

/// Reading one frame where a well-formed frame's encoding sits yields exactly
/// that frame and stops exactly past it.
pub proof fn lemma_parse_encoded_at(b: Seq<u8>, pos: int, f: FrameV)
    requires
        frame_wf(f),
        0 <= pos,
        pos + frame_enc(f).len() <= b.len(),
        b.subrange(pos, pos + frame_enc(f).len()) == frame_enc(f),
    ensures
        frame_at(b, pos) == FrameStep::Done(f, pos + frame_enc(f).len()),
    decreases f, 0int,
{
    let enc = frame_enc(f);
    lemma_segment_pointwise(b, pos, enc);
    match f {
        FrameV::Simple(s) => {
            let line = encode_utf8(s);
            lemma_line_enc_shape(43, line);
            assert(line_ok(s));
            lemma_parse_encoded_line(b, pos, 43, line);
            encode_utf8_valid_utf8(s);
            encode_utf8_decode_utf8(s);
        },
        FrameV::Error(s) => {
            let line = encode_utf8(s);
            lemma_line_enc_shape(45, line);
            lemma_parse_encoded_line(b, pos, 45, line);
            encode_utf8_valid_utf8(s);
            encode_utf8_decode_utf8(s);
        },
        FrameV::Integer(n) => {
            let line = dec_bytes(n as nat);
            lemma_dec_bytes_value(n as nat);
            lemma_digits_clean(line);
            lemma_line_enc_shape(58, line);
            lemma_parse_encoded_line(b, pos, 58, line);
        },
        FrameV::Null => {
            let line = seq![45u8, 49u8];
            assert(enc =~= seq![36u8] + line + crlf());
            lemma_line_enc_shape(36, line);
            lemma_parse_encoded_line(b, pos, 36, line);
        },
        FrameV::Bulk(data) => {
            let digits = dec_bytes(data.len());
            let n = data.len() as int;
            lemma_dec_bytes_value(data.len());
            lemma_digits_clean(digits);
            let head = seq![36u8] + digits + crlf();
            assert(enc =~= head + data + crlf());
            lemma_line_enc_shape(36, digits);
            assert forall|k: int| 0 <= k < head.len() implies b[pos + k] == #[trigger] head[k] by {
                assert(enc[k] == ((head + data) + crlf())[k]);
                assert(((head + data) + crlf())[k] == head[k]);
            }
            lemma_parse_encoded_line(b, pos, 36, digits);
            let i = pos + 1 + digits.len();
            let line = b.subrange(pos + 1, i);
            assert(line != seq![45u8, 49u8]) by {
                assert(crate::digits::is_digit(digits[0]));
            }
            assert(dec_value(line) == n);
            assert(b[i + 2 + n] == 13 && b[i + 2 + n + 1] == 10) by {
                assert(enc[head.len() + n] == 13) by {
                    assert(((head + data) + crlf())[head.len() + n] == crlf()[0]);
                }
                assert(enc[head.len() + n + 1] == 10) by {
                    assert(((head + data) + crlf())[head.len() + n + 1] == crlf()[1]);
                }
            }
            assert forall|k: int|
                0 <= k < n implies #[trigger] b.subrange(i + 2, i + 2 + n)[k] == data[k] by {
                assert(b[pos + (head.len() + k)] == enc[head.len() as int + k]);
                assert(enc[head.len() as int + k] == ((head + data) + crlf())[head.len() as int
                    + k]);
                assert(((head + data) + crlf())[head.len() as int + k] == (head + data)[head.len()
                    as int + k]);
                assert((head + data)[head.len() as int + k] == data[k]);
            }
            assert(b.subrange(i + 2, i + 2 + n) =~= data);
            assert(i + 2 + n + 2 == pos + enc.len());
        },
        FrameV::Array(items) => {
            let digits = dec_bytes(items.len());
            lemma_dec_bytes_value(items.len());
            lemma_digits_clean(digits);
            let head = seq![42u8] + digits + crlf();
            let body = elems_enc(items);
            assert(enc =~= head + body);
            lemma_line_enc_shape(42, digits);
            assert forall|k: int| 0 <= k < head.len() implies b[pos + k] == #[trigger] head[k] by {
                assert(enc[k] == (head + body)[k]);
            }
            lemma_parse_encoded_line(b, pos, 42, digits);
            let i = pos + 1 + digits.len();
            assert(dec_value(b.subrange(pos + 1, i)) == items.len());
            assert forall|k: int|
                0 <= k < body.len() implies #[trigger] b.subrange(i + 2, i + 2 + body.len())[k]
                == body[k] by {
                assert(b[pos + (head.len() + k)] == enc[head.len() as int + k]);
                assert(enc[head.len() as int + k] == (head + body)[head.len() as int + k]);
                assert((head + body)[head.len() as int + k] == body[k]);
            }
            assert(b.subrange(i + 2, i + 2 + body.len()) =~= body);
            assert(decreases_to!(f => items));
            lemma_parse_encoded_elems(b, i + 2, items);
            assert(i + 2 + body.len() == pos + enc.len());
        },
    }
}

/// Reading a run of `items.len()` frames where the encodings of `items` sit
/// yields exactly `items` and stops exactly past them.
pub proof fn lemma_parse_encoded_elems(b: Seq<u8>, pos: int, items: Seq<FrameV>)
    requires
        elems_wf(items),
        0 <= pos,
        pos + elems_enc(items).len() <= b.len(),
        b.subrange(pos, pos + elems_enc(items).len()) == elems_enc(items),
    ensures
        elems_at(b, pos, items.len()) == ElemsStep::Done(items, pos + elems_enc(items).len()),
    decreases items, 1int,
{
    if items.len() == 0 {
        assert(elems_at(b, pos, 0) == ElemsStep::Done(Seq::<FrameV>::empty(), pos));
        assert(items =~= Seq::<FrameV>::empty());
    } else {
        let f0 = items[0];
        let rest = items.drop_first();
        let enc0 = frame_enc(f0);
        let encr = elems_enc(rest);
        let total = elems_enc(items);
        assert(total == enc0 + encr);
        lemma_sub_segment(b, pos, total, 0, enc0.len() as int);
        assert(total.subrange(0, enc0.len() as int) =~= enc0);
        assert(frame_wf(items[0]));
        lemma_parse_encoded_at(b, pos, f0);
        let p2 = pos + enc0.len();
        lemma_frame_enc_len(f0);
        lemma_sub_segment(b, pos, total, enc0.len() as int, total.len() as int);
        assert(total.subrange(enc0.len() as int, total.len() as int) =~= encr);
        assert forall|i: int| 0 <= i < rest.len() implies frame_wf(#[trigger] rest[i]) by {
            assert(rest[i] == items[i + 1]);
            assert(frame_wf(items[i + 1]));
        }
        assert(elems_wf(rest));
        lemma_parse_encoded_elems(b, p2, rest);
        assert(seq![f0] + rest =~= items);
    }
}

/// When a line frame's header is cut off before its CRLF, the scan finds no
/// terminator.
proof fn lemma_prefix_line_no_crlf(b: Seq<u8>, pos: int, line: Seq<u8>)
    requires
        0 <= pos < b.len(),
        b.len() < pos + 1 + line.len() + 2,
        forall|k: int|
            0 <= k < line.len() && pos + 1 + k < b.len() ==> #[trigger] b[pos + 1 + k] == line[k],
        forall|k: int| 0 <= k < line.len() ==> line[k] != 13 && #[trigger] line[k] != 10,
    ensures
        find_crlf(b, pos + 1) is None,
{
    assert forall|j: int| pos + 1 <= j implies !#[trigger] crlf_at(b, j) by {
        if crlf_at(b, j) {
            if j < pos + 1 + line.len() {
                let k = j - pos - 1;
                assert(b[pos + 1 + k] == line[k]);
                assert(line[k] != 13);
            }
        }
    }
    lemma_find_crlf_is_none(b, pos + 1);
}

/// Reading one frame where only a proper prefix of a well-formed frame's
/// encoding is available reports it incomplete.
pub proof fn lemma_prefix_incomplete_at(b: Seq<u8>, pos: int, f: FrameV)
    requires
        frame_wf(f),
        0 <= pos <= b.len(),
        b.len() < pos + frame_enc(f).len(),
        b.subrange(pos, b.len() as int) == frame_enc(f).subrange(0, b.len() - pos),
    ensures
        frame_at(b, pos) is Incomplete,
    decreases f, 0int,
{
    let enc = frame_enc(f);
    let avail = b.len() - pos;
    let part = enc.subrange(0, avail);
    lemma_segment_pointwise(b, pos, part);
    assert forall|k: int| 0 <= k < avail implies b[pos + k] == #[trigger] enc[k] by {
        assert(part[k] == enc[k]);
        assert(b[pos + k] == part[k]);
    }
    if avail == 0 {
        return ;
    }
    let line: Seq<u8> = match f {
        FrameV::Simple(s) => encode_utf8(s),
        FrameV::Error(s) => encode_utf8(s),
        FrameV::Integer(n) => dec_bytes(n as nat),
        FrameV::Null => seq![45u8, 49u8],
        FrameV::Bulk(data) => dec_bytes(data.len()),
        FrameV::Array(items) => dec_bytes(items.len()),
    };
    let tag: u8 = match f {
        FrameV::Simple(_) => 43,
        FrameV::Error(_) => 45,
        FrameV::Integer(_) => 58,
        FrameV::Null => 36,
        FrameV::Bulk(_) => 36,
        FrameV::Array(_) => 42,
    };
    match f {
        FrameV::Simple(_) | FrameV::Error(_) | FrameV::Integer(_) | FrameV::Null => {
            assert(enc =~= seq![tag] + line + crlf());
        },
        _ => {
        },
    }
    if let FrameV::Integer(n) = f {
        lemma_dec_bytes_value(n as nat);
        lemma_digits_clean(line);
    }
    if let FrameV::Bulk(data) = f {
        lemma_dec_bytes_value(data.len());
        lemma_digits_clean(line);
    }
    if let FrameV::Array(items) = f {
        lemma_dec_bytes_value(items.len());
        lemma_digits_clean(line);
    }
    lemma_line_enc_shape(tag, line);
    assert(enc[0] == tag) by {
        match f {
            FrameV::Bulk(data) => {
                let head = seq![36u8] + line + crlf();
                assert(enc =~= head + data + crlf());
                assert(((head + data) + crlf())[0] == head[0]);
            },
            FrameV::Array(items) => {
                let head = seq![42u8] + line + crlf();
                assert(enc =~= head + elems_enc(items));
                assert((head + elems_enc(items))[0] == head[0]);
            },
            _ => {},
        }
    }
    assert(b[pos + 0] == enc[0]);
    assert(b[pos] == tag);
    if avail < 1 + line.len() + 2 {
        // The line or its terminator is cut off.
        assert forall|k: int|
            0 <= k < line.len() && pos + 1 + k < b.len() implies #[trigger] b[pos + 1 + k]
            == line[k] by {
            match f {
                FrameV::Bulk(data) => {
                    let head = seq![36u8] + line + crlf();
                    assert(enc =~= head + data + crlf());
                    assert(enc[1 + k] == head[1 + k]);
                },
                FrameV::Array(items) => {
                    let head = seq![42u8] + line + crlf();
                    assert(enc =~= head + elems_enc(items));
                    assert(enc[1 + k] == head[1 + k]);
                },
                _ => {},
            }
        }
        match f {
            FrameV::Simple(s) => {
                assert(line_ok(s));
            },
            _ => {},
        }
        lemma_prefix_line_no_crlf(b, pos, line);
    } else {
        // The header is whole; what follows it is cut off, which can only
        // happen for a bulk or an array.
        assert forall|k: int| 0 <= k < line.len() implies #[trigger] b[pos + 1 + k] == line[k] by {
            match f {
                FrameV::Bulk(data) => {
                    let head = seq![36u8] + line + crlf();
                    assert(enc =~= head + data + crlf());
                    assert(enc[1 + k] == head[1 + k]);
                },
                FrameV::Array(items) => {
                    let head = seq![42u8] + line + crlf();
                    assert(enc =~= head + elems_enc(items));
                    assert(enc[1 + k] == head[1 + k]);
                },
                _ => {},
            }
        }
        assert(b[pos + 1 + line.len()] == 13 && b[pos + 1 + line.len() + 1] == 10) by {
            match f {
                FrameV::Bulk(data) => {
                    let head = seq![36u8] + line + crlf();
                    assert(enc =~= head + data + crlf());
                    assert(enc[1 + line.len() as int] == head[1 + line.len() as int]);
                    assert(enc[1 + line.len() as int + 1] == head[1 + line.len() as int + 1]);
                },
                FrameV::Array(items) => {
                    let head = seq![42u8] + line + crlf();
                    assert(enc =~= head + elems_enc(items));
                    assert(enc[1 + line.len() as int] == head[1 + line.len() as int]);
                    assert(enc[1 + line.len() as int + 1] == head[1 + line.len() as int + 1]);
                },
                _ => {},
            }
        }
        lemma_parse_encoded_line(b, pos, tag, line);
        let i = pos + 1 + line.len();
        match f {
            FrameV::Bulk(data) => {
                let n = data.len() as int;
                assert(b.subrange(pos + 1, i) != seq![45u8, 49u8]) by {
                    assert(crate::digits::is_digit(line[0]));
                }
                assert(i + 2 + n + 2 > b.len());
            },
            FrameV::Array(items) => {
                let body = elems_enc(items);
                let head = seq![42u8] + line + crlf();
                assert(enc =~= head + body);
                let rem = b.len() - (i + 2);
                assert forall|k: int|
                    0 <= k < rem implies #[trigger] b.subrange(i + 2, b.len() as int)[k]
                    == body.subrange(0, rem)[k] by {
                    assert(b[pos + (head.len() + k)] == enc[head.len() as int + k]);
                    assert(enc[head.len() as int + k] == (head + body)[head.len() as int + k]);
                }
                assert(b.subrange(i + 2, b.len() as int) =~= body.subrange(0, rem));
                assert(decreases_to!(f => items));
                lemma_prefix_incomplete_elems(b, i + 2, items);
            },
            _ => {
                // A line frame's whole encoding is its header, so a proper
                // prefix cannot contain the whole header.
                assert(false);
            },
        }
    }
}

/// Reading a run of frames where only a proper prefix of the encodings of
/// `items` is available reports it incomplete.
pub proof fn lemma_prefix_incomplete_elems(b: Seq<u8>, pos: int, items: Seq<FrameV>)
    requires
        elems_wf(items),
        0 <= pos <= b.len(),
        b.len() < pos + elems_enc(items).len(),
        b.subrange(pos, b.len() as int) == elems_enc(items).subrange(0, b.len() - pos),
    ensures
        elems_at(b, pos, items.len()) is Incomplete,
    decreases items, 1int,
{
    let total = elems_enc(items);
    let avail = b.len() - pos;
    assert(items.len() > 0);
    let f0 = items[0];
    let rest = items.drop_first();
    let enc0 = frame_enc(f0);
    let encr = elems_enc(rest);
    assert(total == enc0 + encr);
    assert(frame_wf(items[0]));
    let part = total.subrange(0, avail);
    lemma_segment_pointwise(b, pos, part);
    assert forall|k: int| 0 <= k < avail implies b[pos + k] == #[trigger] total[k] by {
        assert(part[k] == total[k]);
        assert(b[pos + k] == part[k]);
    }
    if avail < enc0.len() {
        assert forall|k: int|
            0 <= k < avail implies #[trigger] b.subrange(pos, b.len() as int)[k]
            == enc0.subrange(0, avail)[k] by {
            assert(b[pos + k] == total[k]);
            assert(total[k] == enc0[k]);
        }
        assert(b.subrange(pos, b.len() as int) =~= enc0.subrange(0, avail));
        lemma_prefix_incomplete_at(b, pos, f0);
    } else {
        assert forall|k: int|
            0 <= k < enc0.len() implies #[trigger] b.subrange(pos, pos + enc0.len())[k]
            == enc0[k] by {
            assert(b[pos + k] == total[k]);
            assert(total[k] == enc0[k]);
        }
        assert(b.subrange(pos, pos + enc0.len()) =~= enc0);
        lemma_parse_encoded_at(b, pos, f0);
        let p2 = pos + enc0.len();
        lemma_frame_enc_len(f0);
        assert forall|k: int|
            0 <= k < b.len() - p2 implies #[trigger] b.subrange(p2, b.len() as int)[k]
            == encr.subrange(0, b.len() - p2)[k] by {
            assert(b[pos + (enc0.len() + k)] == total[enc0.len() as int + k]);
            assert(total[enc0.len() as int + k] == encr[k]);
        }
        assert(b.subrange(p2, b.len() as int) =~= encr.subrange(0, b.len() - p2));
        assert forall|i: int| 0 <= i < rest.len() implies frame_wf(#[trigger] rest[i]) by {
            assert(rest[i] == items[i + 1]);
            assert(frame_wf(items[i + 1]));
        }
        assert(elems_wf(rest));
        lemma_prefix_incomplete_elems(b, p2, rest);
    }
}

/// Incremental parsing: a proper prefix of a well-formed frame's encoding is
/// reported incomplete — never invalid, never as some other frame — and the
/// whole encoding parses back to the frame with no byte left over.
pub proof fn lemma_incremental_parse(f: FrameV, k: int)
    requires
        frame_wf(f),
        0 <= k < frame_enc(f).len(),
    ensures
        frame_at(frame_enc(f).subrange(0, k), 0) is Incomplete,
        frame_at(frame_enc(f), 0) == FrameStep::Done(f, frame_enc(f).len() as int),
{
    let enc = frame_enc(f);
    let b = enc.subrange(0, k);
    assert(b.subrange(0, k) =~= enc.subrange(0, k));
    lemma_prefix_incomplete_at(b, 0, f);
    lemma_frame_round_trip(f);
}

/// Round trip: a well-formed frame's encoding, standing alone, parses back
/// to exactly that frame, consuming every byte.
pub proof fn lemma_frame_round_trip(f: FrameV)
    requires
        frame_wf(f),
    ensures
        frame_at(frame_enc(f), 0) == FrameStep::Done(f, frame_enc(f).len() as int),
{
    let enc = frame_enc(f);
    assert(enc.subrange(0, enc.len() as int) =~= enc);
    lemma_parse_encoded_at(enc, 0, f);
}

} // verus!
