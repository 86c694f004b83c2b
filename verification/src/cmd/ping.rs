//! Test that the connection is alive.
use vstd::prelude::*;
use vstd::string::StrSliceExecFns;
use vstd::string::StringExecFns;
use vstd::utf8::encode_utf8;

use crate::frame::{Frame, FrameV};
use crate::parse::{bytes_token, Parse, ParseError};

verus! {

/// PING, optionally with a message to echo. With no message the reply is
/// `PONG`; with one, the reply is the message as a bulk frame.
pub struct Ping {
    echo: Option<Vec<u8>>,
}

impl View for Ping {
    type V = Option<Seq<u8>>;

    closed spec fn view(&self) -> Option<Seq<u8>> {
        match self.echo {
            Some(ref m) => Some(m@),
            None => None,
        }
    }
}

impl Ping {
    /// A PING command, echoing `echo` when given.
    pub fn new(echo: Option<Vec<u8>>) -> (p: Ping)
        ensures
            p@ == match echo {
                Some(m) => Some(m@),
                None => None::<Seq<u8>>,
            },
    {
        Ping { echo }
    }

    /// Decodes the arguments after the command name: an optional message.
    pub fn parse_frames(parse: &mut Parse) -> (r: Result<Ping, ParseError>)
        ensures
            match r {
                Ok(p) => if old(parse).remaining().len() == 0 {
                    p@ is None && final(parse).remaining() == old(parse).remaining()
                } else {
                    bytes_token(old(parse).remaining()[0]) matches Some(m) && p@ == Some(m)
                        && final(parse).remaining() == old(parse).remaining().drop_first()
                },
                Err(_) => old(parse).remaining().len() > 0 && bytes_token(
                    old(parse).remaining()[0],
                ) is None,
            },
    {
        match parse.next_bytes() {
            Ok(m) => Ok(Ping { echo: Some(m) }),
            Err(ParseError::EndOfStream) => Ok(Ping { echo: None }),
            Err(e) => Err(e),
        }
    }

    /// The reply: `PONG`, or the echoed message.
    pub fn apply(self) -> (resp: Frame)
        ensures
            resp@ == match self@ {
                None => FrameV::Simple("PONG"@),
                Some(m) => FrameV::Bulk(m),
            },
    {
        match self.echo {
            None => Frame::Simple(String::from_str("PONG")),
            Some(m) => Frame::Bulk(m),
        }
    }

    /// The request frame a client sends for this command.
    pub fn into_frame(self) -> (f: Frame)
        ensures
            f@ == FrameV::Array(
                match self@ {
                    None => seq![FrameV::Bulk(encode_utf8("ping"@))],
                    Some(m) => seq![FrameV::Bulk(encode_utf8("ping"@)), FrameV::Bulk(m)],
                },
            ),
    {
        let mut items: Vec<Frame> = Vec::new();
        items.push(Frame::Bulk("ping".as_bytes_vec()));
        match self.echo {
            Some(m) => {
                items.push(Frame::Bulk(m));
            },
            None => {},
        }
        proof {
            crate::frame::lemma_frames_view_index(items@);
            match self@ {
                None => {
                    assert(crate::frame::frames_view(items@) =~= seq![
                        FrameV::Bulk(encode_utf8("ping"@)),
                    ]);
                },
                Some(m) => {
                    assert(crate::frame::frames_view(items@) =~= seq![
                        FrameV::Bulk(encode_utf8("ping"@)),
                        FrameV::Bulk(m),
                    ]);
                },
            }
        }
        Frame::Array(items)
    }
}

} // verus!
