//! The client side of each operation: what a request looks like and how the
//! server's reply frame is read. The transport that carries the frames lives
//! outside; these functions judge the frames alone.
use vstd::prelude::*;
use vstd::string::StrSliceExecFns;
use vstd::string::StringExecFns;
use vstd::utf8::{decode_utf8, encode_utf8, valid_utf8};

use crate::cmd::subscribe::remove_channel;
use crate::frame::{Frame, FrameV};
use crate::parse::{bytes_token, str_token};
use crate::text::{bytes_eq, str_eq, string_from_utf8};

verus! {

/// A message received on a subscribed channel.
pub struct Message {
    pub channel: String,
    pub content: Vec<u8>,
}

/// True when the frame carries the text `s`: a simple line with that text,
/// or a bulk string holding its UTF-8 bytes.
fn frame_is_str(f: &Frame, s: &str) -> (r: bool)
    ensures
        r == (str_token(f@) == Some(s@)),
{
    match f {
        Frame::Simple(x) => str_eq(x.as_str(), s),
        Frame::Bulk(b) => {
            let sb = s.as_bytes_vec();
            let r = bytes_eq(b, &sb);
            proof {
                vstd::utf8::encode_utf8_valid_utf8(s@);
                vstd::utf8::encode_utf8_decode_utf8(s@);
                if valid_utf8(b@) && decode_utf8(b@) == s@ {
                    vstd::utf8::decode_utf8_encode_utf8(b@);
                }
            }
            r
        },
        _ => false,
    }
}

/// Reads a PING reply: a simple line or bulk string is the echoed payload;
/// anything else is a protocol error.
pub fn ping_response(frame: Frame) -> (r: Result<Vec<u8>, String>)
    ensures
        match r {
            Ok(b) => bytes_token(frame@) == Some(b@),
            Err(_) => bytes_token(frame@) is None,
        },
{
    match frame {
        Frame::Simple(s) => Ok(s.as_str().as_bytes_vec()),
        Frame::Bulk(b) => Ok(b),
        _ => Err(String::from_str("protocol error; unexpected frame")),
    }
}

/// Reads a GET reply: nil means the key is absent, a simple line or bulk
/// string is the value; anything else is a protocol error.
pub fn get_response(frame: Frame) -> (r: Result<Option<Vec<u8>>, String>)
    ensures
        match r {
            Ok(v) => match v {
                Some(b) => bytes_token(frame@) == Some(b@),
                None => frame@ is Null,
            },
            Err(_) => !(frame@ is Null) && bytes_token(frame@) is None,
        },
{
    match frame {
        Frame::Simple(s) => Ok(Some(s.as_str().as_bytes_vec())),
        Frame::Bulk(b) => Ok(Some(b)),
        Frame::Null => Ok(None),
        _ => Err(String::from_str("protocol error; unexpected frame")),
    }
}

/// Reads a SET reply: only the simple line `OK` is success.
pub fn set_response(frame: Frame) -> (r: Result<(), String>)
    ensures
        match r {
            Ok(()) => frame@ == FrameV::Simple("OK"@),
            Err(_) => frame@ != FrameV::Simple("OK"@),
        },
{
    match frame {
        Frame::Simple(s) => {
            if str_eq(s.as_str(), "OK") {
                Ok(())
            } else {
                Err(String::from_str("protocol error; unexpected frame"))
            }
        },
        _ => Err(String::from_str("protocol error; unexpected frame")),
    }
}

/// Reads a PUBLISH reply: an integer frame carrying the receiver count.
pub fn publish_response(frame: Frame) -> (r: Result<u64, String>)
    ensures
        match r {
            Ok(n) => frame@ == FrameV::Integer(n),
            Err(_) => !(frame@ is Integer),
        },
{
    match frame {
        Frame::Integer(n) => Ok(n),
        _ => Err(String::from_str("protocol error; unexpected frame")),
    }
}

/// Checks one SUBSCRIBE confirmation: an array opening with the text
/// `subscribe` and the confirmed channel's name.
pub fn subscribe_response(frame: &Frame, channel: &str) -> (r: Result<(), String>)
    ensures
        match r {
            Ok(()) => frame@ matches FrameV::Array(items) && items.len() >= 2 && str_token(
                items[0],
            ) == Some("subscribe"@) && str_token(items[1]) == Some(channel@),
            Err(_) => !(frame@ matches FrameV::Array(items) && items.len() >= 2 && str_token(
                items[0],
            ) == Some("subscribe"@) && str_token(items[1]) == Some(channel@)),
        },
{
    match frame {
        Frame::Array(items) => {
            if items.len() >= 2 && frame_is_str(&items[0], "subscribe") && frame_is_str(
                &items[1],
                channel,
            ) {
                proof {
                    crate::frame::lemma_frames_view_index(items@);
                }
                Ok(())
            } else {
                proof {
                    crate::frame::lemma_frames_view_index(items@);
                }
                Err(String::from_str("protocol error; unexpected frame"))
            }
        },
        _ => Err(String::from_str("protocol error; unexpected frame")),
    }
}

/// Reads one subscribed-mode frame as a channel message:
/// `["message", channel, payload]`.
pub fn message_from_frame(frame: &Frame) -> (r: Result<Message, String>)
    ensures
        match r {
            Ok(m) => frame@ matches FrameV::Array(items) && items.len() == 3 && str_token(
                items[0],
            ) == Some("message"@) && str_token(items[1]) == Some(m.channel@) && bytes_token(
                items[2],
            ) == Some(m.content@),
            Err(_) => !(frame@ matches FrameV::Array(items) && items.len() == 3 && str_token(
                items[0],
            ) == Some("message"@) && str_token(items[1]) is Some && bytes_token(
                items[2],
            ) is Some),
        },
{
    match frame {
        Frame::Array(items) => {
            proof {
                crate::frame::lemma_frames_view_index(items@);
            }
            if items.len() == 3 && frame_is_str(&items[0], "message") {
                let channel = match &items[1] {
                    Frame::Simple(s) => s.clone(),
                    Frame::Bulk(b) => match string_from_utf8(b) {
                        Some(s) => s,
                        None => {
                            return Err(String::from_str("protocol error; unexpected frame"));
                        },
                    },
                    _ => {
                        return Err(String::from_str("protocol error; unexpected frame"));
                    },
                };
                let content = match &items[2] {
                    Frame::Simple(s) => s.as_str().as_bytes_vec(),
                    Frame::Bulk(b) => b.clone(),
                    _ => {
                        return Err(String::from_str("protocol error; unexpected frame"));
                    },
                };
                proof {
                    assert(items@[2]@ matches FrameV::Bulk(bb) ==> content@ == bb);
                }
                Ok(Message { channel, content })
            } else {
                Err(String::from_str("protocol error; unexpected frame"))
            }
        },
        _ => Err(String::from_str("protocol error; unexpected frame")),
    }
}

/// True when the frame is an UNSUBSCRIBE confirmation the client must
/// accept against its channel set: an array opening with the text
/// `unsubscribe` and naming a channel that occurs exactly once in
/// `channels`, so that dropping it shrinks the set by exactly one.
pub open spec fn valid_unsubscribe(f: FrameV, channels: Seq<Seq<char>>) -> bool {
    match f {
        FrameV::Array(items) => items.len() >= 2 && str_token(items[0]) == Some("unsubscribe"@)
            && (match str_token(items[1]) {
                Some(ch) => remove_channel(channels, ch).len() == channels.len() - 1,
                None => false,
            }),
        _ => false,
    }
}

/// Checks one UNSUBSCRIBE confirmation against the channels the client
/// believes it is subscribed to: the frame must name a channel the client
/// holds exactly once, and exactly that channel is dropped from the set. Any
/// other frame — a confirmation for a channel the client never subscribed to
/// included — is an error and leaves the set alone.
pub fn apply_unsubscribe(channels: &mut Vec<String>, frame: &Frame) -> (r: Result<(), String>)
    ensures
        match r {
            Ok(()) => valid_unsubscribe(frame@, old(channels).deep_view()) && (match frame@ {
                FrameV::Array(items) => str_token(items[1]) matches Some(ch)
                    && final(channels).deep_view() == remove_channel(
                    old(channels).deep_view(),
                    ch,
                ),
                _ => false,
            }),
            Err(_) => !valid_unsubscribe(frame@, old(channels).deep_view()) && *final(channels)
                == *old(channels),
        },
{
    let items = match frame {
        Frame::Array(items) => items,
        _ => {
            return Err(String::from_str("protocol error; unexpected frame"));
        },
    };
    proof {
        crate::frame::lemma_frames_view_index(items@);
    }
    let ghost fitems = crate::frame::frames_view(items@);
    if !(items.len() >= 2 && frame_is_str(&items[0], "unsubscribe")) {
        return Err(String::from_str("protocol error; unexpected frame"));
    }
    let ch = match &items[1] {
        Frame::Simple(s) => s.clone(),
        Frame::Bulk(b) => match string_from_utf8(b) {
            Some(s) => s,
            None => {
                proof {
                    assert(str_token(fitems[1]) is None);
                }
                return Err(String::from_str("protocol error; unexpected frame"));
            },
        },
        _ => {
            proof {
                assert(str_token(fitems[1]) is None);
            }
            return Err(String::from_str("protocol error; unexpected frame"));
        },
    };
    proof {
        assert(str_token(fitems[1]) == Some(ch@));
    }
    if channels.len() == 0 {
        proof {
            assert(channels.deep_view().len() == 0);
            assert(remove_channel(channels.deep_view(), ch@).len() == 0);
        }
        return Err(String::from_str("protocol error; unexpected frame"));
    }
    let before = channels.len();
    let mut kept: Vec<String> = Vec::new();
    let ghost whole = channels.deep_view();
    let mut i: usize = 0;
    proof {
        assert(whole.skip(0) =~= whole);
        assert(kept.deep_view() =~= Seq::<Seq<char>>::empty());
        assert(Seq::<Seq<char>>::empty() + remove_channel(whole, ch@) =~= remove_channel(
            whole,
            ch@,
        ));
    }
    while i < channels.len()
        invariant
            *channels == *old(channels),
            whole == channels.deep_view(),
            i <= channels@.len(),
            remove_channel(whole, ch@) == kept.deep_view() + remove_channel(
                whole.skip(i as int),
                ch@,
            ),
        decreases channels@.len() - i,
    {
        proof {
            assert(whole.skip(i as int)[0] == whole[i as int]);
            assert(whole.skip(i as int).drop_first() =~= whole.skip(i + 1));
        }
        if !crate::text::str_eq(channels[i].as_str(), ch.as_str()) {
            let ghost preraw = kept@;
            let ghost pred = kept.deep_view();
            let c = crate::text::clone_string(&channels[i]);
            let ghost cv = c@;
            kept.push(c);
            proof {
                assert(pred.len() == preraw.len());
                assert(kept@ == preraw.push(kept@[preraw.len() as int]));
                assert forall|j: int|
                    0 <= j < kept@.len() implies #[trigger] kept.deep_view()[j] == pred.push(
                    whole[i as int],
                )[j] by {
                    if j < preraw.len() {
                        assert(kept@[j] == preraw[j]);
                        assert(pred[j] == preraw[j].deep_view());
                    } else {
                        assert(kept@[j]@ == cv);
                        assert(cv == channels@[i as int]@);
                        assert(whole[i as int] == channels@[i as int].deep_view());
                    }
                }
                assert(kept.deep_view() =~= pred.push(whole[i as int]));
                assert((pred + seq![whole[i as int]]) + remove_channel(whole.skip(i + 1), ch@)
                    =~= pred + (seq![whole[i as int]] + remove_channel(whole.skip(i + 1), ch@)));
                assert(pred + seq![whole[i as int]] =~= pred.push(whole[i as int]));
            }
        }
        i = i + 1;
    }
    proof {
        assert(whole.skip(channels@.len() as int).len() == 0);
        assert(remove_channel(whole.skip(channels@.len() as int), ch@)
            =~= Seq::<Seq<char>>::empty());
        assert(kept.deep_view() + Seq::<Seq<char>>::empty() =~= kept.deep_view());
    }
    proof {
        assert(kept.deep_view().len() == kept@.len());
        assert(remove_channel(channels.deep_view(), ch@).len() == kept@.len());
    }
    if !(kept.len() < before && kept.len() == before - 1) {
        // Zero or several entries matched: the server acknowledged a channel
        // the client did not hold exactly once.
        return Err(String::from_str("protocol error; unexpected frame"));
    }
    *channels = kept;
    Ok(())
}

} // verus!
