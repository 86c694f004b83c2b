//! Subscribing to channels, leaving them, and the subscribed-mode state a
//! connection keeps once it has subscribed.
//!
//! In subscribed mode only SUBSCRIBE and UNSUBSCRIBE act; any other command
//! is answered with an unknown-command error and the mode is kept. The
//! runtime drives the mode: it waits on the channel receivers, the client's
//! frames, and the shutdown signal, and hands each event to the state here.
use vstd::prelude::*;
use vstd::string::StrSliceExecFns;
use vstd::string::StringExecFns;
use vstd::utf8::encode_utf8;

use crate::cmd::{cmd_name, command_of, str_tokens, Command, CommandV};
use crate::frame::{frames_view, Frame, FrameV};
use crate::parse::{Parse, ParseError};

verus! {

/// SUBSCRIBE to one or more channels.
pub struct Subscribe {
    channels: Vec<String>,
}

/// UNSUBSCRIBE from the named channels, or from every channel when none is
/// named. Valid only inside subscribed mode.
pub struct Unsubscribe {
    channels: Vec<String>,
}

impl View for Subscribe {
    type V = Seq<Seq<char>>;

    closed spec fn view(&self) -> Seq<Seq<char>> {
        self.channels.deep_view()
    }
}

impl View for Unsubscribe {
    type V = Seq<Seq<char>>;

    closed spec fn view(&self) -> Seq<Seq<char>> {
        self.channels.deep_view()
    }
}

/// Reads channel-name tokens until the frame is exhausted, appending them to
/// `channels`.
fn parse_channels(parse: &mut Parse, channels: &mut Vec<String>) -> (r: Result<(), ParseError>)
    ensures
        match r {
            Ok(()) => str_tokens(old(parse).remaining()) matches Some(list)
                && final(channels).deep_view() == old(channels).deep_view() + list
                && final(parse).remaining().len() == 0,
            Err(e) => e is Other && str_tokens(old(parse).remaining()) is None,
        },
{
    let ghost rest0 = parse.remaining();
    proof {
        if let Some(all) = str_tokens(rest0) {
            assert(old(channels).deep_view() + all =~= channels.deep_view() + all);
        }
    }
    loop
        invariant
            rest0 == old(parse).remaining(),
            match str_tokens(parse.remaining()) {
                Some(tail) => match str_tokens(rest0) {
                    Some(all) => old(channels).deep_view() + all == channels.deep_view() + tail,
                    None => false,
                },
                None => str_tokens(rest0) is None,
            },
        decreases parse.remaining().len(),
    {
        let ghost pre = parse.remaining();
        let ghost cur = channels.deep_view();
        match parse.next_string() {
            Ok(s) => {
                let ghost sv = s@;
                channels.push(s);
                proof {
                    assert(channels.deep_view() =~= cur.push(sv));
                    if let Some(tail) = str_tokens(parse.remaining()) {
                        assert(str_tokens(pre) == Some(seq![sv] + tail));
                        assert(cur + (seq![sv] + tail) =~= cur.push(sv) + tail);
                    }
                }
            },
            Err(ParseError::EndOfStream) => {
                proof {
                    assert(str_tokens(parse.remaining()) == Some(Seq::<Seq<char>>::empty()));
                    if let Some(all) = str_tokens(rest0) {
                        assert(old(channels).deep_view() + all =~= channels.deep_view()
                            + Seq::<Seq<char>>::empty());
                        assert(channels.deep_view() + Seq::<Seq<char>>::empty()
                            =~= channels.deep_view());
                    }
                }
                return Ok(());
            },
            Err(e) => {
                return Err(e);
            },
        }
    }
}

impl Subscribe {
    /// A SUBSCRIBE command for these channels.
    pub fn new(channels: Vec<String>) -> (s: Subscribe)
        ensures
            s@ == channels.deep_view(),
    {
        Subscribe { channels }
    }

    /// The channels, in command order.
    pub fn into_channels(self) -> (r: Vec<String>)
        ensures
            r.deep_view() == self@,
    {
        self.channels
    }

    /// Decodes the arguments after the command name: one channel, then any
    /// number more.
    pub fn parse_frames(parse: &mut Parse) -> (r: Result<Subscribe, ParseError>)
        ensures
            match r {
                Ok(s) => old(parse).remaining().len() >= 1 && str_tokens(old(parse).remaining())
                    == Some(s@) && final(parse).remaining().len() == 0,
                Err(_) => old(parse).remaining().len() == 0 || str_tokens(
                    old(parse).remaining(),
                ) is None,
            },
    {
        let first = parse.next_string()?;
        let ghost rest0 = old(parse).remaining();
        let ghost firstv = first@;
        let mut channels: Vec<String> = Vec::new();
        channels.push(first);
        parse_channels(parse, &mut channels)?;
        proof {
            assert(rest0.drop_first() =~= rest0.skip(1));
            if let Some(list) = str_tokens(rest0.drop_first()) {
                assert(str_tokens(rest0) == Some(seq![firstv] + list));
                assert(channels.deep_view() =~= seq![firstv] + list);
            }
        }
        Ok(Subscribe { channels })
    }

    /// The request frame a client sends for this command.
    pub fn into_frame(self) -> (f: Frame)
        ensures
            f@ == FrameV::Array(seq![FrameV::Bulk(encode_utf8("subscribe"@))] + bulk_strs(self@)),
    {
        frame_of_channels("subscribe".as_bytes_vec(), Ghost("subscribe"@), self.channels)
    }
}

impl Unsubscribe {
    /// An UNSUBSCRIBE command for these channels; none means all.
    pub fn new(channels: Vec<String>) -> (u: Unsubscribe)
        ensures
            u@ == channels.deep_view(),
    {
        Unsubscribe { channels }
    }

    /// The channels, in command order.
    pub fn into_channels(self) -> (r: Vec<String>)
        ensures
            r.deep_view() == self@,
    {
        self.channels
    }

    /// Decodes the arguments after the command name: any number of channels.
    pub fn parse_frames(parse: &mut Parse) -> (r: Result<Unsubscribe, ParseError>)
        ensures
            match r {
                Ok(u) => str_tokens(old(parse).remaining()) == Some(u@)
                    && final(parse).remaining().len() == 0,
                Err(_) => str_tokens(old(parse).remaining()) is None,
            },
    {
        let mut channels: Vec<String> = Vec::new();
        parse_channels(parse, &mut channels)?;
        proof {
            if let Some(list) = str_tokens(old(parse).remaining()) {
                assert(channels.deep_view() =~= list);
            }
        }
        Ok(Unsubscribe { channels })
    }

    /// The request frame a client sends for this command.
    pub fn into_frame(self) -> (f: Frame)
        ensures
            f@ == FrameV::Array(
                seq![FrameV::Bulk(encode_utf8("unsubscribe"@))] + bulk_strs(self@),
            ),
    {
        frame_of_channels("unsubscribe".as_bytes_vec(), Ghost("unsubscribe"@), self.channels)
    }
}

/// The given texts as bulk frames.
pub open spec fn bulk_strs(chs: Seq<Seq<char>>) -> Seq<FrameV> {
    Seq::new(chs.len(), |i: int| FrameV::Bulk(encode_utf8(chs[i])))
}

/// Builds `[name, ch1, ch2, ...]` with every element a bulk frame.
fn frame_of_channels(name: Vec<u8>, Ghost(namev): Ghost<Seq<char>>, channels: Vec<String>) -> (f:
    Frame)
    requires
        name@ == encode_utf8(namev),
    ensures
        f@ == FrameV::Array(seq![FrameV::Bulk(encode_utf8(namev))] + bulk_strs(
            channels.deep_view(),
        )),
{
    let ghost chs = channels.deep_view();
    let mut items: Vec<Frame> = Vec::new();
    items.push(Frame::Bulk(name));
    let mut i: usize = 0;
    let n = channels.len();

    proof {
        assert(frames_view(items@) =~= seq![FrameV::Bulk(encode_utf8(namev))] + bulk_strs(
            chs.subrange(0, 0),
        )) by {
            crate::frame::lemma_frames_view_index(items@);
            assert(bulk_strs(chs.subrange(0, 0)) =~= Seq::<FrameV>::empty());
        }
    }
    while i < n
        invariant
            n == channels.len(),
            chs == channels.deep_view(),
            i <= n,
            frames_view(items@) == seq![FrameV::Bulk(encode_utf8(namev))] + bulk_strs(
                chs.subrange(0, i as int),
            ),
        decreases n - i,
    {
        let ghost pre_items = items@;
        let s = channels[i].as_str().as_bytes_vec();
        let ghost fv = FrameV::Bulk(encode_utf8(chs[i as int]));
        proof {
            assert(chs[i as int] == channels@[i as int]@);
        }
        items.push(Frame::Bulk(s));
        proof {
            crate::frame::lemma_frames_view_snoc(pre_items, Frame::Bulk(s));
            assert(pre_items.push(Frame::Bulk(s)) =~= items@);
            assert(frames_view(items@) =~= (seq![FrameV::Bulk(encode_utf8(namev))] + bulk_strs(
                chs.subrange(0, i as int),
            )) + seq![fv]);
            assert(bulk_strs(chs.subrange(0, i + 1)) =~= bulk_strs(chs.subrange(0, i as int))
                + seq![fv]);
            assert((seq![FrameV::Bulk(encode_utf8(namev))] + bulk_strs(chs.subrange(0, i as int)))
                + seq![fv] =~= seq![FrameV::Bulk(encode_utf8(namev))] + (bulk_strs(
                chs.subrange(0, i as int),
            ) + seq![fv]));
            assert(frames_view(items@) =~= seq![FrameV::Bulk(encode_utf8(namev))] + bulk_strs(
                chs.subrange(0, i + 1),
            ));
        }
        i = i + 1;
    }
    proof {
        assert(chs.subrange(0, chs.len() as int) =~= chs);
    }
    Frame::Array(items)
}

/// The confirmation the server sends for one newly subscribed channel.
pub open spec fn subscribe_frame_v(ch: Seq<char>, n: u64) -> FrameV {
    FrameV::Array(
        seq![
            FrameV::Bulk(encode_utf8("subscribe"@)),
            FrameV::Bulk(encode_utf8(ch)),
            FrameV::Integer(n),
        ],
    )
}

/// The confirmation the server sends for one channel left.
pub open spec fn unsubscribe_frame_v(ch: Seq<char>, n: u64) -> FrameV {
    FrameV::Array(
        seq![
            FrameV::Bulk(encode_utf8("unsubscribe"@)),
            FrameV::Bulk(encode_utf8(ch)),
            FrameV::Integer(n),
        ],
    )
}

/// The frame carrying one published message to a subscriber.
pub open spec fn message_frame_v(ch: Seq<char>, payload: Seq<u8>) -> FrameV {
    FrameV::Array(
        seq![
            FrameV::Bulk(encode_utf8("message"@)),
            FrameV::Bulk(encode_utf8(ch)),
            FrameV::Bulk(payload),
        ],
    )
}

/// Builds the frame for one message received on a subscribed channel.
pub fn make_message_frame(channel: String, msg: Vec<u8>) -> (f: Frame)
    ensures
        f@ == message_frame_v(channel@, msg@),
{
    let mut items: Vec<Frame> = Vec::new();
    items.push(Frame::Bulk("message".as_bytes_vec()));
    items.push(Frame::Bulk(channel.as_str().as_bytes_vec()));
    items.push(Frame::Bulk(msg));
    proof {
        crate::frame::lemma_frames_view_index(items@);
        assert(frames_view(items@) =~= message_frame_v(channel@, msg@)->Array_0);
    }
    Frame::Array(items)
}

fn make_subscribe_frame(channel: String, n: u64) -> (f: Frame)
    ensures
        f@ == subscribe_frame_v(channel@, n),
{
    let mut items: Vec<Frame> = Vec::new();
    items.push(Frame::Bulk("subscribe".as_bytes_vec()));
    items.push(Frame::Bulk(channel.as_str().as_bytes_vec()));
    items.push(Frame::Integer(n));
    proof {
        crate::frame::lemma_frames_view_index(items@);
        assert(frames_view(items@) =~= subscribe_frame_v(channel@, n)->Array_0);
    }
    Frame::Array(items)
}

fn make_unsubscribe_frame(channel: String, n: u64) -> (f: Frame)
    ensures
        f@ == unsubscribe_frame_v(channel@, n),
{
    let mut items: Vec<Frame> = Vec::new();
    items.push(Frame::Bulk("unsubscribe".as_bytes_vec()));
    items.push(Frame::Bulk(channel.as_str().as_bytes_vec()));
    items.push(Frame::Integer(n));
    proof {
        crate::frame::lemma_frames_view_index(items@);
        assert(frames_view(items@) =~= unsubscribe_frame_v(channel@, n)->Array_0);
    }
    Frame::Array(items)
}

/// The subscriptions left, and the confirmations sent, after leaving each
/// target channel in order; each confirmation carries the count left after
/// it.
pub open spec fn unsub_steps(channels: Seq<Seq<char>>, targets: Seq<Seq<char>>) -> (
    Seq<Seq<char>>,
    Seq<FrameV>,
)
    decreases targets.len(),
{
    if targets.len() == 0 {
        (channels, Seq::empty())
    } else {
        let after = remove_channel(channels, targets[0]);
        let rest = unsub_steps(after, targets.drop_first());
        (rest.0, seq![unsubscribe_frame_v(targets[0], after.len() as u64)] + rest.1)
    }
}

/// The channel list without `ch`, order kept.
pub open spec fn remove_channel(channels: Seq<Seq<char>>, ch: Seq<char>) -> Seq<Seq<char>>
    decreases channels.len(),
{
    if channels.len() == 0 {
        Seq::empty()
    } else {
        let rest = remove_channel(channels.drop_first(), ch);
        if channels[0] == ch {
            rest
        } else {
            seq![channels[0]] + rest
        }
    }
}

/// The per-connection state of subscribed mode: the channels currently
/// subscribed — the authority for the mode — and the queue of channels a
/// mid-session SUBSCRIBE has asked for but the runtime has not yet
/// installed.
pub struct SubscribedState {
    channels: Vec<String>,
    pending: Vec<String>,
}

impl SubscribedState {
    /// The channels currently subscribed, in subscription order.
    pub closed spec fn channels(&self) -> Seq<Seq<char>> {
        self.channels.deep_view()
    }

    /// The channels asked for but not yet installed.
    pub closed spec fn pending(&self) -> Seq<Seq<char>> {
        self.pending.deep_view()
    }

    /// A fresh subscribed mode, about to subscribe to `initial`.
    pub fn new(initial: Vec<String>) -> (s: SubscribedState)
        ensures
            s.channels().len() == 0,
            s.pending() == initial.deep_view(),
    {
        SubscribedState { channels: Vec::new(), pending: initial }
    }

    /// True when the channel is currently subscribed.
    pub fn holds(&self, channel: &str) -> (r: bool)
        ensures
            r == self.channels().contains(channel@),
    {
        let mut i: usize = 0;
        while i < self.channels.len()
            invariant
                i <= self.channels@.len(),
                forall|j: int| 0 <= j < i ==> self.channels()[j] != channel@,
            decreases self.channels@.len() - i,
        {
            if crate::text::str_eq(self.channels[i].as_str(), channel) {
                proof {
                    assert(self.channels()[i as int] == channel@);
                }
                return true;
            }
            proof {
                assert(self.channels()[i as int] == self.channels@[i as int]@);
            }
            i = i + 1;
        }
        proof {
            if self.channels().contains(channel@) {
                let j = choose|j: int|
                    0 <= j < self.channels().len() && self.channels()[j] == channel@;
                assert(self.channels()[j] != channel@);
            }
        }
        false
    }

    /// Takes the next channel waiting to be installed, if any.
    pub fn next_pending(&mut self) -> (r: Option<String>)
        ensures
            match r {
                Some(ch) => old(self).pending().len() > 0 && ch@ == old(self).pending()[0]
                    && final(self).pending() == old(self).pending().drop_first()
                    && final(self).channels() == old(self).channels(),
                None => old(self).pending().len() == 0 && *final(self) == *old(self),
            },
    {
        if self.pending.len() == 0 {
            None
        } else {
            let ch = self.pending.remove(0);
            proof {
                assert(final(self).pending() =~= old(self).pending().drop_first());
            }
            Some(ch)
        }
    }

    /// Records one channel as subscribed — the runtime has just installed
    /// its receiver — and builds the confirmation to send, carrying the
    /// number now subscribed. Subscribing again to a subscribed channel
    /// replaces its receiver and leaves the count alone.
    pub fn confirm_subscribe(&mut self, channel: String) -> (f: Frame)
        ensures
            final(self).channels() == if old(self).channels().contains(channel@) {
                old(self).channels()
            } else {
                old(self).channels().push(channel@)
            },
            final(self).pending() == old(self).pending(),
            f@ == subscribe_frame_v(
                channel@,
                final(self).channels().len() as u64,
            ),
    {
        let mut i: usize = 0;
        let mut found = false;
        while i < self.channels.len()
            invariant
                *self == *old(self),
                i <= self.channels@.len(),
                found == exists|j: int| 0 <= j < i && old(self).channels()[j] == channel@,
            decreases self.channels@.len() - i,
        {
            if crate::text::str_eq(self.channels[i].as_str(), channel.as_str()) {
                proof {
                    assert(old(self).channels()[i as int] == channel@);
                }
                found = true;
            }
            i = i + 1;
        }
        if !found {
            self.channels.push(channel.clone());
            proof {
                assert(final(self).channels() =~= old(self).channels().push(channel@));
                if old(self).channels().contains(channel@) {
                    let j = choose|j: int|
                        0 <= j < old(self).channels().len() && old(self).channels()[j] == channel@;
                    assert(false);
                }
            }
        } else {
            proof {
                let j = choose|j: int|
                    0 <= j < old(self).channels().len() && old(self).channels()[j] == channel@;
                assert(old(self).channels().contains(channel@));
            }
        }
        let n = self.channels.len() as u64;
        make_subscribe_frame(channel, n)
    }

    /// Handles one frame the client sent while in subscribed mode: SUBSCRIBE
    /// queues its channels for installation; UNSUBSCRIBE — with no channels,
    /// for every subscribed channel — drops each target and yields one
    /// confirmation per target; any other command yields the unknown-command
    /// error and changes nothing, leaving the mode intact; a malformed frame
    /// is an error that ends the connection.
    pub fn on_frame(&mut self, frame: Frame) -> (r: Result<Vec<Frame>, ParseError>)
        ensures
            match command_of(frame@) {
                Some(c) => match c {
                    CommandV::Subscribe(chs) => (r matches Ok(v) && v@.len() == 0)
                        && final(self).channels() == old(self).channels()
                        && final(self).pending() == old(self).pending() + chs,
                    CommandV::Unsubscribe(chs) => ({
                        let targets = if chs.len() == 0 {
                            old(self).channels()
                        } else {
                            chs
                        };
                        let out = unsub_steps(old(self).channels(), targets);
                        &&& r matches Ok(v) && frames_view(v@) == out.1
                        &&& final(self).channels() == out.0
                        &&& final(self).pending() == old(self).pending()
                    }),
                    _ => *final(self) == *old(self) && (r matches Ok(v) && frames_view(v@) == seq![
                        FrameV::Error("ERR unknown command '"@ + cmd_name(c) + "'"@),
                    ]),
                },
                None => r is Err,
            },
    {
        let cmd = Command::from_frame(frame)?;
        match cmd {
            Command::Subscribe(sub) => {
                let mut chs = sub.into_channels();
                self.pending.append(&mut chs);
                proof {
                    assert(final(self).pending() =~= old(self).pending() + sub@);
                }
                Ok(Vec::new())
            },
            Command::Unsubscribe(unsub) => {
                let ghost chs = unsub@;
                let mut targets = unsub.into_channels();
                if targets.len() == 0 {
                    targets = clone_channels(&self.channels);
                }
                let ghost targetsv = targets.deep_view();
                let ghost chans0 = self.channels();
                let mut frames: Vec<Frame> = Vec::new();
                let mut i: usize = 0;
                let n = targets.len();
                proof {
                    assert(frames_view(frames@) =~= Seq::<FrameV>::empty());
                    assert(targetsv.skip(0) =~= targetsv);
                    assert(frames_view(frames@) + unsub_steps(self.channels(), targetsv).1
                        =~= unsub_steps(chans0, targetsv).1);
                }
                while i < n
                    invariant
                        n == targets@.len(),
                        targetsv == targets.deep_view(),
                        i <= n,
                        self.pending() == old(self).pending(),
                        unsub_steps(chans0, targetsv).0 == unsub_steps(
                            self.channels(),
                            targetsv.skip(i as int),
                        ).0,
                        unsub_steps(chans0, targetsv).1 == frames_view(frames@) + unsub_steps(
                            self.channels(),
                            targetsv.skip(i as int),
                        ).1,
                    decreases n - i,
                {
                    let ghost cur = self.channels();
                    let ghost tail = targetsv.skip(i as int);
                    let ch = crate::text::clone_string(&targets[i]);
                    proof {
                        assert(ch@ == targetsv[i as int]);
                        assert(tail[0] == targetsv[i as int]);
                        assert(tail.drop_first() =~= targetsv.skip(i + 1));
                    }
                    remove_channel_exec(&mut self.channels, ch.as_str());
                    let count = self.channels.len() as u64;
                    let f = make_unsubscribe_frame(ch, count);
                    let ghost fv = unsubscribe_frame_v(targetsv[i as int], count);
                    let ghost pre_frames = frames@;
                    frames.push(f);
                    proof {
                        assert(self.channels() == remove_channel(cur, targetsv[i as int]));
                        assert(count as nat == self.channels().len());
                        assert(unsub_steps(cur, tail).1 == seq![fv] + unsub_steps(
                            self.channels(),
                            targetsv.skip(i + 1),
                        ).1);
                        crate::frame::lemma_frames_view_snoc(pre_frames, f);
                        assert(pre_frames.push(f) =~= frames@);
                        assert((frames_view(pre_frames) + seq![fv]) + unsub_steps(
                            self.channels(),
                            targetsv.skip(i + 1),
                        ).1 =~= frames_view(pre_frames) + (seq![fv] + unsub_steps(
                            self.channels(),
                            targetsv.skip(i + 1),
                        ).1));
                    }
                    i = i + 1;
                }
                proof {
                    assert(targetsv.skip(n as int).len() == 0);
                    assert(unsub_steps(self.channels(), targetsv.skip(n as int)).1
                        =~= Seq::<FrameV>::empty());
                    assert(frames_view(frames@) + unsub_steps(
                        self.channels(),
                        targetsv.skip(n as int),
                    ).1 =~= frames_view(frames@));
                }
                Ok(frames)
            },
            other => {
                let name = String::from_str(other.get_name());
                let mut out: Vec<Frame> = Vec::new();
                let text = String::from_str("ERR unknown command '").concat(name.as_str()).concat(
                    "'",
                );
                out.push(Frame::Error(text));
                proof {
                    crate::frame::lemma_frames_view_index(out@);
                    assert(frames_view(out@) =~= seq![
                        FrameV::Error("ERR unknown command '"@ + cmd_name(other@) + "'"@),
                    ]);
                }
                Ok(out)
            },
        }
    }
}

/// A copy of a channel list.
fn clone_channels(channels: &Vec<String>) -> (r: Vec<String>)
    ensures
        r.deep_view() == channels.deep_view(),
{
    let mut out: Vec<String> = Vec::new();
    let mut i: usize = 0;
    while i < channels.len()
        invariant
            i <= channels@.len(),
            out.deep_view() == channels.deep_view().subrange(0, i as int),
        decreases channels@.len() - i,
    {
        let ghost preraw = out@;
        let ghost pred = out.deep_view();
        let c = crate::text::clone_string(&channels[i]);
        let ghost cv = c@;
        out.push(c);
        proof {
            assert(pred.len() == preraw.len());
            assert(pred.len() == i);
            assert(out@ == preraw.push(out@[preraw.len() as int]));
            assert forall|j: int|
                0 <= j < i + 1 implies #[trigger] out.deep_view()[j] == channels.deep_view().subrange(
                0,
                i + 1,
            )[j] by {
                if j < i {
                    assert(out@[j] == preraw[j]);
                    assert(pred[j] == preraw[j].deep_view());
                    assert(pred[j] == channels.deep_view().subrange(0, i as int)[j]);
                } else {
                    assert(out@[j]@ == cv);
                    assert(cv == channels@[i as int]@);
                    assert(channels.deep_view()[i as int] == channels@[i as int].deep_view());
                }
            }
            assert(out.deep_view() =~= channels.deep_view().subrange(0, i + 1));
        }
        i = i + 1;
    }
    proof {
        assert(channels.deep_view().subrange(0, channels.deep_view().len() as int)
            =~= channels.deep_view());
    }
    out
}

/// Drops every occurrence of `ch` from the channel list, keeping the order.
fn remove_channel_exec(channels: &mut Vec<String>, ch: &str)
    ensures
        final(channels).deep_view() == remove_channel(old(channels).deep_view(), ch@),
{
    let ghost whole = channels.deep_view();
    let mut out: Vec<String> = Vec::new();
    let mut i: usize = 0;
    let n = channels.len();
    proof {
        assert(whole.skip(0) =~= whole);
        assert(out.deep_view() =~= Seq::<Seq<char>>::empty());
        assert(Seq::<Seq<char>>::empty() + remove_channel(whole, ch@) =~= remove_channel(
            whole,
            ch@,
        ));
    }
    while i < n
        invariant
            n == channels@.len(),
            whole == channels.deep_view(),
            i <= n,
            remove_channel(whole, ch@) == out.deep_view() + remove_channel(
                whole.skip(i as int),
                ch@,
            ),
        decreases n - i,
    {
        proof {
            assert(whole.skip(i as int)[0] == whole[i as int]);
            assert(whole.skip(i as int).drop_first() =~= whole.skip(i + 1));
        }
        if !crate::text::str_eq(channels[i].as_str(), ch) {
            let ghost preraw = out@;
            let ghost pred = out.deep_view();
            let c = crate::text::clone_string(&channels[i]);
            let ghost cv = c@;
            out.push(c);
            proof {
                assert forall|j: int|
                    0 <= j < out@.len() implies #[trigger] out.deep_view()[j] == pred.push(
                    whole[i as int],
                )[j] by {
                    if j < preraw.len() {
                        assert(out@[j] == preraw[j]);
                        assert(pred[j] == preraw[j].deep_view());
                    } else {
                        assert(out@[j]@ == cv);
                        assert(cv == channels@[i as int]@);
                        assert(whole[i as int] == channels@[i as int].deep_view());
                    }
                }
                assert(out.deep_view() =~= pred.push(whole[i as int]));
                assert((pred + seq![whole[i as int]]) + remove_channel(whole.skip(i + 1), ch@)
                    =~= pred + (seq![whole[i as int]] + remove_channel(whole.skip(i + 1), ch@)));
                assert(pred + seq![whole[i as int]] =~= pred.push(whole[i as int]));
            }
        }
        i = i + 1;
    }
    proof {
        assert(whole.skip(n as int).len() == 0);
        assert(remove_channel(whole.skip(n as int), ch@) =~= Seq::<Seq<char>>::empty());
        assert(out.deep_view() + Seq::<Seq<char>>::empty() =~= out.deep_view());
    }
    *channels = out;
}

} // verus!
