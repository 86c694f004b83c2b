//! Set a key to a value, optionally with a time-to-live.
use vstd::prelude::*;
use vstd::string::StrSliceExecFns;
use vstd::string::StringExecFns;
use vstd::utf8::encode_utf8;

use crate::cmd::{secs_to_ms, set_rest};
use crate::db::{db_set, expire_instant, Db};
use crate::frame::{Frame, FrameV};
use crate::parse::{Parse, ParseError};

verus! {

/// The mathematical value of a SET command: key, value, and the optional
/// time-to-live in milliseconds.
pub struct SetV {
    pub key: Seq<char>,
    pub value: Seq<u8>,
    pub expire: Option<u64>,
}

/// SET `key` to `value`. A previous value, and any previous time-to-live,
/// is discarded. `EX seconds` or `PX milliseconds` give the new entry a
/// time-to-live.
pub struct SetCmd {
    key: String,
    value: Vec<u8>,
    expire: Option<u64>,
}

impl View for SetCmd {
    type V = SetV;

    closed spec fn view(&self) -> SetV {
        SetV { key: self.key@, value: self.value@, expire: self.expire }
    }
}

impl SetCmd {
    /// A SET command; `expire` is the time-to-live in milliseconds.
    pub fn new(key: String, value: Vec<u8>, expire: Option<u64>) -> (s: SetCmd)
        ensures
            s@ == (SetV { key: key@, value: value@, expire }),
    {
        SetCmd { key, value, expire }
    }

    /// The key to write.
    pub fn key(&self) -> (r: &str)
        ensures
            r@ == self@.key,
    {
        self.key.as_str()
    }

    /// The value to store.
    pub fn value(&self) -> (r: &Vec<u8>)
        ensures
            r@ == self@.value,
    {
        &self.value
    }

    /// The time-to-live in milliseconds, when one was given.
    pub fn expire(&self) -> (r: Option<u64>)
        ensures
            r == self@.expire,
    {
        self.expire
    }

    /// Decodes the arguments after the command name: a key, a value, and
    /// optionally `EX seconds` or `PX milliseconds`; any other option is
    /// rejected.
    pub fn parse_frames(parse: &mut Parse) -> (r: Result<SetCmd, ParseError>)
        ensures
            match r {
                Ok(s) => set_rest(old(parse).remaining()) matches Some(p) && p.0 == s@
                    && final(parse).remaining() == old(parse).remaining().skip(p.1),
                Err(_) => set_rest(old(parse).remaining()) is None,
            },
    {
        let ghost rest = parse.remaining();
        let key = parse.next_string()?;
        let value = parse.next_bytes()?;
        let mut expire: Option<u64> = None;
        match parse.next_string() {
            Ok(option) => {
                if crate::text::str_eq_ignore_ascii_case(option.as_str(), "ex") {
                    let secs = parse.next_int()?;
                    expire = Some(
                        if secs <= u64::MAX / 1000 {
                            secs * 1000
                        } else {
                            u64::MAX
                        },
                    );
                    proof {
                        assert(expire == Some(secs_to_ms(secs)));
                        assert(final(parse).remaining() =~= rest.skip(4));
                    }
                } else if crate::text::str_eq_ignore_ascii_case(option.as_str(), "px") {
                    let ms = parse.next_int()?;
                    expire = Some(ms);
                    proof {
                        assert(final(parse).remaining() =~= rest.skip(4));
                    }
                } else {
                    return Err(
                        ParseError::Other(
                            String::from_str("currently `SET` only supports the expiration option"),
                        ),
                    );
                }
            },
            Err(ParseError::EndOfStream) => {
                proof {
                    assert(final(parse).remaining() =~= rest.skip(2));
                }
            },
            Err(e) => {
                return Err(e);
            },
        }
        Ok(SetCmd { key, value, expire })
    }

    /// Writes the entry into the store; the reply is `+OK`, and the returned
    /// flag says whether the expirer must be woken for an earlier deadline.
    pub fn apply(self, db: &mut Db, now: u64) -> (r: (Frame, bool))
        requires
            old(db).wf(),
        ensures
            final(db).wf(),
            final(db)@ == db_set(old(db)@, self@.key, self@.value, self@.expire, now),
            r.0@ == FrameV::Simple("OK"@),
            r.1 == match self@.expire {
                Some(ms) => match old(db).next_deadline() {
                    Some(e) => e > expire_instant(now, ms),
                    None => true,
                },
                None => false,
            },
    {
        let notify = db.set(self.key, self.value, self.expire, now);
        (Frame::Simple(String::from_str("OK")), notify)
    }

    /// The request frame a client sends for this command; a time-to-live is
    /// sent as `px` with the milliseconds.
    pub fn into_frame(self) -> (f: Frame)
        ensures
            f@ == FrameV::Array(
                match self@.expire {
                    None => seq![
                        FrameV::Bulk(encode_utf8("set"@)),
                        FrameV::Bulk(encode_utf8(self@.key)),
                        FrameV::Bulk(self@.value),
                    ],
                    Some(ms) => seq![
                        FrameV::Bulk(encode_utf8("set"@)),
                        FrameV::Bulk(encode_utf8(self@.key)),
                        FrameV::Bulk(self@.value),
                        FrameV::Bulk(encode_utf8("px"@)),
                        FrameV::Integer(ms),
                    ],
                },
            ),
    {
        let ghost me = self@;
        let mut items: Vec<Frame> = Vec::new();
        items.push(Frame::Bulk("set".as_bytes_vec()));
        items.push(Frame::Bulk(self.key.as_str().as_bytes_vec()));
        items.push(Frame::Bulk(self.value));
        match self.expire {
            Some(ms) => {
                items.push(Frame::Bulk("px".as_bytes_vec()));
                items.push(Frame::Integer(ms));
            },
            None => {},
        }
        proof {
            crate::frame::lemma_frames_view_index(items@);
            match me.expire {
                None => {
                    assert(crate::frame::frames_view(items@) =~= seq![
                        FrameV::Bulk(encode_utf8("set"@)),
                        FrameV::Bulk(encode_utf8(me.key)),
                        FrameV::Bulk(me.value),
                    ]);
                },
                Some(ms) => {
                    assert(crate::frame::frames_view(items@) =~= seq![
                        FrameV::Bulk(encode_utf8("set"@)),
                        FrameV::Bulk(encode_utf8(me.key)),
                        FrameV::Bulk(me.value),
                        FrameV::Bulk(encode_utf8("px"@)),
                        FrameV::Integer(ms),
                    ]);
                },
            }
        }
        Frame::Array(items)
    }
}

} // verus!
