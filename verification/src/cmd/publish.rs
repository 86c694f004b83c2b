//! Send a message into a channel.
use vstd::prelude::*;
use vstd::string::StrSliceExecFns;
use vstd::utf8::encode_utf8;

use crate::cmd::PublishV;
use crate::db::Db;
use crate::frame::{Frame, FrameV};
use crate::parse::{bytes_token, str_token, Parse, ParseError};

verus! {

/// PUBLISH a message on a channel; subscribers of the channel receive it.
pub struct Publish {
    channel: String,
    message: Vec<u8>,
}

impl View for Publish {
    type V = PublishV;

    closed spec fn view(&self) -> PublishV {
        PublishV { channel: self.channel@, message: self.message@ }
    }
}

impl Publish {
    /// A PUBLISH command for `message` on `channel`.
    pub fn new(channel: String, message: Vec<u8>) -> (p: Publish)
        ensures
            p@ == (PublishV { channel: channel@, message: message@ }),
    {
        Publish { channel, message }
    }

    /// Decodes the arguments after the command name: a channel and a message.
    pub fn parse_frames(parse: &mut Parse) -> (r: Result<Publish, ParseError>)
        ensures
            match r {
                Ok(p) => old(parse).remaining().len() >= 2 && str_token(old(parse).remaining()[0])
                    == Some(p@.channel) && bytes_token(old(parse).remaining()[1]) == Some(
                    p@.message,
                ) && final(parse).remaining() == old(parse).remaining().skip(2),
                Err(_) => old(parse).remaining().len() == 0 || str_token(
                    old(parse).remaining()[0],
                ) is None || old(parse).remaining().len() == 1 || bytes_token(
                    old(parse).remaining()[1],
                ) is None,
            },
    {
        let channel = parse.next_string()?;
        let message = parse.next_bytes()?;
        proof {
            assert(final(parse).remaining() =~= old(parse).remaining().skip(2));
        }
        Ok(Publish { channel, message })
    }

    /// Delivers the message through the channel's broadcaster and replies
    /// with the receiver count it reports; with no broadcaster the count is
    /// zero.
    pub fn apply(self, db: &Db) -> (resp: Frame)
        ensures
            resp@ matches FrameV::Integer(n) && (!db@.channels.contains(self@.channel) ==> n == 0),
    {
        let n = db.publish(self.channel.as_str(), self.message);
        Frame::Integer(n as u64)
    }

    /// The request frame a client sends for this command.
    pub fn into_frame(self) -> (f: Frame)
        ensures
            f@ == FrameV::Array(
                seq![
                    FrameV::Bulk(encode_utf8("publish"@)),
                    FrameV::Bulk(encode_utf8(self@.channel)),
                    FrameV::Bulk(self@.message),
                ],
            ),
    {
        let ghost me = self@;
        let mut items: Vec<Frame> = Vec::new();
        items.push(Frame::Bulk("publish".as_bytes_vec()));
        items.push(Frame::Bulk(self.channel.as_str().as_bytes_vec()));
        items.push(Frame::Bulk(self.message));
        proof {
            crate::frame::lemma_frames_view_index(items@);
            assert(crate::frame::frames_view(items@) =~= seq![
                FrameV::Bulk(encode_utf8("publish"@)),
                FrameV::Bulk(encode_utf8(me.channel)),
                FrameV::Bulk(me.message),
            ]);
        }
        Frame::Array(items)
    }
}

} // verus!
