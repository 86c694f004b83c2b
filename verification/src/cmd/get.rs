//! Get the value of a key.
use vstd::prelude::*;
use vstd::string::StrSliceExecFns;
use vstd::utf8::encode_utf8;

use crate::db::{db_get, Db};
use crate::frame::{Frame, FrameV};
use crate::parse::{str_token, Parse, ParseError};

verus! {

/// Get the value of `key`. If the key does not exist, the reply is the
/// explicit nil.
pub struct Get {
    key: String,
}

impl View for Get {
    type V = Seq<char>;

    closed spec fn view(&self) -> Seq<char> {
        self.key@
    }
}

impl Get {
    /// A GET command for `key`.
    pub fn new(key: String) -> (g: Get)
        ensures
            g@ == key@,
    {
        Get { key }
    }

    /// The key to look up.
    pub fn key(&self) -> (r: &str)
        ensures
            r@ == self@,
    {
        self.key.as_str()
    }

    /// Decodes the arguments after the command name: exactly one key token.
    pub fn parse_frames(parse: &mut Parse) -> (r: Result<Get, ParseError>)
        ensures
            match r {
                Ok(g) => old(parse).remaining().len() >= 1 && str_token(old(parse).remaining()[0])
                    == Some(g@) && final(parse).remaining() == old(parse).remaining().drop_first(),
                Err(_) => old(parse).remaining().len() == 0 || str_token(
                    old(parse).remaining()[0],
                ) is None,
            },
    {
        let key = parse.next_string()?;
        Ok(Get { key })
    }

    /// Looks the key up in the store: its value as a bulk frame, or nil.
    pub fn apply(self, db: &Db) -> (resp: Frame)
        requires
            db.wf(),
        ensures
            resp@ == match db_get(db@, self@) {
                Some(v) => FrameV::Bulk(v),
                None => FrameV::Null,
            },
    {
        match db.get(self.key.as_str()) {
            Some(value) => Frame::Bulk(value),
            None => Frame::Null,
        }
    }

    /// The request frame a client sends for this command.
    pub fn into_frame(self) -> (f: Frame)
        ensures
            f@ == FrameV::Array(
                seq![
                    FrameV::Bulk(encode_utf8("get"@)),
                    FrameV::Bulk(encode_utf8(self@)),
                ],
            ),
    {
        let mut items: Vec<Frame> = Vec::new();
        items.push(Frame::Bulk("get".as_bytes_vec()));
        items.push(Frame::Bulk(self.key.as_str().as_bytes_vec()));
        proof {
            crate::frame::lemma_frames_view_index(items@);
            assert(crate::frame::frames_view(items@) =~= seq![
                FrameV::Bulk(encode_utf8("get"@)),
                FrameV::Bulk(encode_utf8(self@)),
            ]);
        }
        Frame::Array(items)
    }
}

} // verus!
