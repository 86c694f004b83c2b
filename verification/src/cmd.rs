//! The command layer: tagged dispatch from an array frame to one of the
//! supported commands, each owning its decode and its effect on the store.
use vstd::prelude::*;
use vstd::string::StringExecFns;

use crate::db::{db_get, db_set, expire_instant, Db};
use crate::frame::{Frame, FrameV};
use crate::parse::{bytes_token, int_token, str_token, Parse, ParseError};
use crate::text::eq_ignore_ascii_case;

pub mod get;
pub mod ping;
pub mod publish;
pub mod set;
pub mod subscribe;
pub mod unknown;

use get::Get;
use ping::Ping;
use publish::Publish;
use set::{SetCmd, SetV};
use subscribe::{Subscribe, Unsubscribe};
use unknown::Unknown;

verus! {

/// The mathematical value of a publish command.
pub struct PublishV {
    pub channel: Seq<char>,
    pub message: Seq<u8>,
}

/// The mathematical value of a command.
pub enum CommandV {
    Ping(Option<Seq<u8>>),
    Get(Seq<char>),
    SetCmd(SetV),
    Publish(PublishV),
    Subscribe(Seq<Seq<char>>),
    Unsubscribe(Seq<Seq<char>>),
    Unknown(Seq<char>),
}

/// The texts the tokens carry, when every token carries one.
pub open spec fn str_tokens(items: Seq<FrameV>) -> Option<Seq<Seq<char>>>
    decreases items.len(),
{
    if items.len() == 0 {
        Some(Seq::empty())
    } else {
        match str_token(items[0]) {
            Some(s) => match str_tokens(items.drop_first()) {
                Some(rest) => Some(seq![s] + rest),
                None => None,
            },
            None => None,
        }
    }
}

/// What PING decodes from the tokens after its name, and how many it takes.
pub open spec fn ping_rest(rest: Seq<FrameV>) -> Option<(Option<Seq<u8>>, int)> {
    if rest.len() == 0 {
        Some((None, 0))
    } else {
        match bytes_token(rest[0]) {
            Some(m) => Some((Some(m), 1)),
            None => None,
        }
    }
}

/// What SET decodes from the tokens after its name, and how many it takes:
/// a key, a value, and optionally `EX seconds` or `PX milliseconds`, matched
/// without regard to ASCII case.
pub open spec fn set_rest(rest: Seq<FrameV>) -> Option<(SetV, int)> {
    if rest.len() < 2 {
        None
    } else {
        match (str_token(rest[0]), bytes_token(rest[1])) {
            (Some(k), Some(v)) => if rest.len() == 2 {
                Some((SetV { key: k, value: v, expire: None }, 2))
            } else {
                match str_token(rest[2]) {
                    Some(o) => if eq_ignore_ascii_case(o, "ex"@) || eq_ignore_ascii_case(
                        o,
                        "px"@,
                    ) {
                        if rest.len() >= 4 {
                            match int_token(rest[3]) {
                                Some(n) => Some(
                                    (
                                        SetV {
                                            key: k,
                                            value: v,
                                            expire: Some(
                                                if eq_ignore_ascii_case(o, "ex"@) {
                                                    secs_to_ms(n)
                                                } else {
                                                    n
                                                },
                                            ),
                                        },
                                        4,
                                    ),
                                ),
                                None => None,
                            }
                        } else {
                            None
                        }
                    } else {
                        None
                    },
                    None => None,
                }
            },
            _ => None,
        }
    }
}

/// Seconds as milliseconds, saturating at the largest representable span.
pub open spec fn secs_to_ms(secs: u64) -> u64 {
    if secs * 1000 <= u64::MAX {
        (secs * 1000) as u64
    } else {
        u64::MAX
    }
}

/// The command an array frame denotes: the first token names it without
/// regard to ASCII case, the rest are its arguments, and trailing tokens are
/// rejected. An unrecognised name is the Unknown command; a frame that is
/// not an array, or arguments of the wrong shape, denote no command at all.
pub open spec fn command_of(f: FrameV) -> Option<CommandV> {
    match f {
        FrameV::Array(items) => {
            if items.len() == 0 {
                None
            } else {
                match str_token(items[0]) {
                    None => None,
                    Some(name) => {
                        let rest = items.drop_first();
                        if eq_ignore_ascii_case(name, "ping"@) {
                            match ping_rest(rest) {
                                Some(p) => if rest.len() == p.1 {
                                    Some(CommandV::Ping(p.0))
                                } else {
                                    None
                                },
                                None => None,
                            }
                        } else if eq_ignore_ascii_case(name, "get"@) {
                            if rest.len() == 1 {
                                match str_token(rest[0]) {
                                    Some(k) => Some(CommandV::Get(k)),
                                    None => None,
                                }
                            } else {
                                None
                            }
                        } else if eq_ignore_ascii_case(name, "set"@) {
                            match set_rest(rest) {
                                Some(p) => if rest.len() == p.1 {
                                    Some(CommandV::SetCmd(p.0))
                                } else {
                                    None
                                },
                                None => None,
                            }
                        } else if eq_ignore_ascii_case(name, "publish"@) {
                            if rest.len() == 2 {
                                match (str_token(rest[0]), bytes_token(rest[1])) {
                                    (Some(c), Some(m)) => Some(
                                        CommandV::Publish(PublishV { channel: c, message: m }),
                                    ),
                                    _ => None,
                                }
                            } else {
                                None
                            }
                        } else if eq_ignore_ascii_case(name, "subscribe"@) {
                            if rest.len() == 0 {
                                None
                            } else {
                                match str_tokens(rest) {
                                    Some(chs) => Some(CommandV::Subscribe(chs)),
                                    None => None,
                                }
                            }
                        } else if eq_ignore_ascii_case(name, "unsubscribe"@) {
                            match str_tokens(rest) {
                                Some(chs) => Some(CommandV::Unsubscribe(chs)),
                                None => None,
                            }
                        } else {
                            Some(CommandV::Unknown(name))
                        }
                    },
                }
            }
        },
        _ => None,
    }
}

/// A parsed command, ready to apply.
pub enum Command {
    Ping(Ping),
    Get(Get),
    SetCmd(SetCmd),
    Publish(Publish),
    Subscribe(Subscribe),
    Unsubscribe(Unsubscribe),
    Unknown(Unknown),
}

impl View for Command {
    type V = CommandV;

    open spec fn view(&self) -> CommandV {
        match self {
            Command::Ping(c) => CommandV::Ping(c@),
            Command::Get(c) => CommandV::Get(c@),
            Command::SetCmd(c) => CommandV::SetCmd(c@),
            Command::Publish(c) => CommandV::Publish(c@),
            Command::Subscribe(c) => CommandV::Subscribe(c@),
            Command::Unsubscribe(c) => CommandV::Unsubscribe(c@),
            Command::Unknown(c) => CommandV::Unknown(c@),
        }
    }
}

/// What the connection does after applying one command.
pub enum Action {
    /// Write the frame back; when `notify` is set, wake the expirer, whose
    /// earliest deadline moved up.
    Reply { frame: Frame, notify: bool },
    /// Enter subscribed mode on these channels.
    EnterSubscribed(Vec<String>),
    /// A command that cannot stand outside subscribed mode: terminate the
    /// connection with this message.
    Terminate(String),
}

impl Command {
    /// Decodes one client request frame into the command it denotes.
    pub fn from_frame(frame: Frame) -> (r: Result<Command, ParseError>)
        ensures
            match r {
                Ok(c) => command_of(frame@) == Some(c@),
                Err(_) => command_of(frame@) is None,
            },
    {
        let mut parse = Parse::new(frame)?;
        let name = match parse.next_string() {
            Ok(s) => s,
            Err(e) => {
                return Err(e);
            },
        };
        let cmd = if crate::text::str_eq_ignore_ascii_case(name.as_str(), "ping") {
            Command::Ping(Ping::parse_frames(&mut parse)?)
        } else if crate::text::str_eq_ignore_ascii_case(name.as_str(), "get") {
            Command::Get(Get::parse_frames(&mut parse)?)
        } else if crate::text::str_eq_ignore_ascii_case(name.as_str(), "set") {
            Command::SetCmd(SetCmd::parse_frames(&mut parse)?)
        } else if crate::text::str_eq_ignore_ascii_case(name.as_str(), "publish") {
            Command::Publish(Publish::parse_frames(&mut parse)?)
        } else if crate::text::str_eq_ignore_ascii_case(name.as_str(), "subscribe") {
            Command::Subscribe(Subscribe::parse_frames(&mut parse)?)
        } else if crate::text::str_eq_ignore_ascii_case(name.as_str(), "unsubscribe") {
            Command::Unsubscribe(Unsubscribe::parse_frames(&mut parse)?)
        } else {
            return Ok(Command::Unknown(Unknown::new(name)));
        };
        parse.check_done()?;
        Ok(cmd)
    }

    /// The command's canonical lower-case name.
    pub fn get_name(&self) -> (r: &str)
        ensures
            r@ == cmd_name(self@),
    {
        match self {
            Command::Ping(_) => "ping",
            Command::Get(_) => "get",
            Command::SetCmd(_) => "set",
            Command::Publish(_) => "publish",
            Command::Subscribe(_) => "subscribe",
            Command::Unsubscribe(_) => "unsubscribe",
            Command::Unknown(c) => c.get_name(),
        }
    }

    /// Applies the command to the store and decides what the connection does
    /// next: PING, GET, SET, PUBLISH and Unknown each produce one reply
    /// frame; SUBSCRIBE enters subscribed mode; UNSUBSCRIBE outside
    /// subscribed mode terminates the connection.
    pub fn apply(self, db: &mut Db, now: u64) -> (a: Action)
        requires
            old(db).wf(),
        ensures
            final(db).wf(),
            match self@ {
                CommandV::Get(k) => final(db)@ == old(db)@ && (a matches Action::Reply {
                    frame,
                    notify,
                } && !notify && frame@ == match db_get(old(db)@, k) {
                    Some(v) => FrameV::Bulk(v),
                    None => FrameV::Null,
                }),
                CommandV::SetCmd(s) => final(db)@ == db_set(old(db)@, s.key, s.value, s.expire, now)
                    && (a matches Action::Reply { frame, notify } && frame@ == FrameV::Simple(
                    "OK"@,
                ) && notify == (match s.expire {
                    Some(ms) => match old(db).next_deadline() {
                        Some(e) => e > expire_instant(now, ms),
                        None => true,
                    },
                    None => false,
                })),
                CommandV::Ping(e) => final(db)@ == old(db)@ && (a matches Action::Reply {
                    frame,
                    notify,
                } && !notify && frame@ == match e {
                    None => FrameV::Simple("PONG"@),
                    Some(m) => FrameV::Bulk(m),
                }),
                CommandV::Publish(p) => final(db)@ == old(db)@ && (a matches Action::Reply {
                    frame,
                    notify,
                } && !notify && (match frame@ {
                    FrameV::Integer(n) => !old(db)@.channels.contains(p.channel) ==> n == 0,
                    _ => false,
                })),
                CommandV::Subscribe(chs) => final(db)@ == old(db)@ && (a
                    matches Action::EnterSubscribed(v) && v.deep_view() == chs),
                CommandV::Unsubscribe(_) => final(db)@ == old(db)@ && a is Terminate,
                CommandV::Unknown(name) => final(db)@ == old(db)@ && (a matches Action::Reply {
                    frame,
                    notify,
                } && !notify && frame@ == FrameV::Error(
                    "ERR unknown command '"@ + name + "'"@,
                )),
            },
    {
        match self {
            Command::Ping(c) => Action::Reply { frame: c.apply(), notify: false },
            Command::Get(c) => Action::Reply { frame: c.apply(db), notify: false },
            Command::SetCmd(c) => {
                let (frame, notify) = c.apply(db, now);
                Action::Reply { frame, notify }
            },
            Command::Publish(c) => Action::Reply { frame: c.apply(db), notify: false },
            Command::Subscribe(c) => Action::EnterSubscribed(c.into_channels()),
            Command::Unsubscribe(_) => Action::Terminate(
                String::from_str("`Unsubscribe` is only permitted in subscribed mode"),
            ),
            Command::Unknown(c) => Action::Reply { frame: c.apply(), notify: false },
        }
    }
}

/// The canonical lower-case name of a command value.
pub open spec fn cmd_name(c: CommandV) -> Seq<char> {
    match c {
        CommandV::Ping(_) => "ping"@,
        CommandV::Get(_) => "get"@,
        CommandV::SetCmd(_) => "set"@,
        CommandV::Publish(_) => "publish"@,
        CommandV::Subscribe(_) => "subscribe"@,
        CommandV::Unsubscribe(_) => "unsubscribe"@,
        CommandV::Unknown(name) => name,
    }
}

} // verus!
