//! The command layer end to end: decoding request frames, applying commands
//! to a store, and subscribed mode, all the way to the exact reply bytes.
use mini_redis::client;
use mini_redis::cmd::subscribe::SubscribedState;
use mini_redis::cmd::{Action, Command};
use mini_redis::codec::FrameBuffer;
use mini_redis::db::Db;
use mini_redis::frame::Frame;
use mini_redis::cmd::get::Get;
use mini_redis::cmd::ping::Ping;
use mini_redis::cmd::set::SetCmd;
use mini_redis::cmd::subscribe::Subscribe;
use mini_redis::parse::{Parse, ParseError};

fn frame_from(bytes: &[u8]) -> Frame {
    let mut buf = FrameBuffer::new();
    buf.feed(bytes);
    let frame = buf.try_parse().expect("valid").expect("complete");
    assert!(buf.is_empty());
    frame
}

fn reply_bytes(db: &mut Db, request: &[u8], now: u64) -> Vec<u8> {
    let frame = frame_from(request);
    let cmd = Command::from_frame(frame).expect("a command");
    match cmd.apply(db, now) {
        Action::Reply { frame, .. } => frame.to_bytes(),
        _ => panic!("expected a reply, got a different action"),
    }
}

#[test]
fn get_missing_replies_nil() {
    let mut db = Db::new();
    let reply = reply_bytes(&mut db, b"*2\r\n$3\r\nGET\r\n$3\r\nfoo\r\n", 0);
    assert_eq!(reply, b"$-1\r\n");
}

#[test]
fn set_then_get_over_the_wire() {
    let mut db = Db::new();
    let reply = reply_bytes(&mut db, b"*3\r\n$3\r\nSET\r\n$5\r\nhello\r\n$5\r\nworld\r\n", 0);
    assert_eq!(reply, b"+OK\r\n");
    let reply = reply_bytes(&mut db, b"*2\r\n$3\r\nGET\r\n$5\r\nhello\r\n", 0);
    assert_eq!(reply, b"$5\r\nworld\r\n");
}

#[test]
fn set_with_px_expires() {
    let mut db = Db::new();
    let reply = reply_bytes(&mut db, b"*5\r\n$3\r\nSET\r\n$1\r\nk\r\n$1\r\nv\r\n$2\r\nPX\r\n$2\r\n50\r\n", 0);
    assert_eq!(reply, b"+OK\r\n");
    let reply = reply_bytes(&mut db, b"*2\r\n$3\r\nGET\r\n$1\r\nk\r\n", 20);
    assert_eq!(reply, b"$1\r\nv\r\n");
    db.purge_expired_keys(150);
    let reply = reply_bytes(&mut db, b"*2\r\n$3\r\nGET\r\n$1\r\nk\r\n", 150);
    assert_eq!(reply, b"$-1\r\n");
}

#[test]
fn set_with_ex_converts_seconds() {
    let mut db = Db::new();
    let reply = reply_bytes(&mut db, b"*5\r\n$3\r\nSET\r\n$1\r\nk\r\n$1\r\nv\r\n$2\r\nEX\r\n$1\r\n2\r\n", 0);
    assert_eq!(reply, b"+OK\r\n");
    assert_eq!(db.next_expiration(), Some(2000));
}

#[test]
fn set_with_unknown_option_is_rejected() {
    let frame = frame_from(b"*5\r\n$3\r\nSET\r\n$1\r\nk\r\n$1\r\nv\r\n$2\r\nXX\r\n$1\r\n2\r\n");
    assert!(Command::from_frame(frame).is_err());
}

#[test]
fn ping_echoes() {
    let mut db = Db::new();
    let reply = reply_bytes(&mut db, b"*2\r\n$4\r\nPING\r\n$2\r\nhi\r\n", 0);
    assert_eq!(reply, b"$2\r\nhi\r\n");
    let reply = reply_bytes(&mut db, b"*1\r\n$4\r\nPING\r\n", 0);
    assert_eq!(reply, b"+PONG\r\n");
}

#[test]
fn command_names_match_any_ascii_case() {
    let mut db = Db::new();
    let reply = reply_bytes(&mut db, b"*1\r\n$4\r\npInG\r\n", 0);
    assert_eq!(reply, b"+PONG\r\n");
}

#[test]
fn unknown_command_replies_error() {
    let mut db = Db::new();
    let reply = reply_bytes(&mut db, b"*1\r\n$5\r\nHELLO\r\n", 0);
    assert_eq!(reply, b"-ERR unknown command 'HELLO'\r\n");
}

#[test]
fn trailing_tokens_are_rejected() {
    let frame = frame_from(b"*3\r\n$3\r\nGET\r\n$3\r\nfoo\r\n$3\r\nbar\r\n");
    assert!(Command::from_frame(frame).is_err());
}

#[test]
fn non_array_request_is_rejected() {
    assert!(Command::from_frame(Frame::Simple("GET".to_string())).is_err());
    assert!(Parse::new(Frame::Integer(7)).is_err());
}

#[test]
fn publish_replies_receiver_count() {
    let mut db = Db::new();
    let _rx = db.subscribe("foo".to_string());
    let reply = reply_bytes(&mut db, b"*3\r\n$7\r\nPUBLISH\r\n$3\r\nfoo\r\n$3\r\nbar\r\n", 0);
    assert_eq!(reply, b":1\r\n");
}

#[test]
fn subscribe_enters_subscribed_mode() {
    let mut db = Db::new();
    let frame = frame_from(b"*2\r\n$9\r\nSUBSCRIBE\r\n$3\r\nfoo\r\n");
    let cmd = Command::from_frame(frame).unwrap();
    match cmd.apply(&mut db, 0) {
        Action::EnterSubscribed(channels) => assert_eq!(channels, vec!["foo".to_string()]),
        _ => panic!("SUBSCRIBE must enter subscribed mode"),
    }
}

#[test]
fn unsubscribe_outside_subscribed_mode_terminates() {
    let mut db = Db::new();
    let frame = frame_from(b"*1\r\n$11\r\nUNSUBSCRIBE\r\n");
    let cmd = Command::from_frame(frame).unwrap();
    assert!(matches!(cmd.apply(&mut db, 0), Action::Terminate(_)));
}

#[test]
fn subscribe_confirmation_frame() {
    let mut st = SubscribedState::new(vec!["foo".to_string()]);
    let ch = st.next_pending().unwrap();
    assert_eq!(ch, "foo");
    let frame = st.confirm_subscribe(ch);
    assert_eq!(frame.to_bytes(), b"*3\r\n$9\r\nsubscribe\r\n$3\r\nfoo\r\n:1\r\n");
    assert!(st.next_pending().is_none());
}

#[test]
fn get_in_subscribed_mode_is_unknown_and_keeps_the_mode() {
    let mut st = SubscribedState::new(vec!["foo".to_string()]);
    let ch = st.next_pending().unwrap();
    st.confirm_subscribe(ch);
    let replies = st.on_frame(frame_from(b"*2\r\n$3\r\nGET\r\n$3\r\nfoo\r\n")).unwrap();
    assert_eq!(replies.len(), 1);
    assert_eq!(replies[0].to_bytes(), b"-ERR unknown command 'get'\r\n");
    // The mode is intact: a further unsubscribe still sees the channel.
    let replies = st.on_frame(frame_from(b"*1\r\n$11\r\nUNSUBSCRIBE\r\n")).unwrap();
    assert_eq!(replies.len(), 1);
    assert_eq!(replies[0].to_bytes(), b"*3\r\n$11\r\nunsubscribe\r\n$3\r\nfoo\r\n:0\r\n");
}

#[test]
fn subscribe_mid_session_queues_channels() {
    let mut st = SubscribedState::new(vec!["a".to_string()]);
    let ch = st.next_pending().unwrap();
    st.confirm_subscribe(ch);
    let replies = st.on_frame(frame_from(b"*3\r\n$9\r\nSUBSCRIBE\r\n$1\r\nb\r\n$1\r\nc\r\n")).unwrap();
    assert!(replies.is_empty());
    let ch = st.next_pending().unwrap();
    assert_eq!(ch, "b");
    let frame = st.confirm_subscribe(ch);
    assert_eq!(frame.to_bytes(), b"*3\r\n$9\r\nsubscribe\r\n$1\r\nb\r\n:2\r\n");
    let ch = st.next_pending().unwrap();
    assert_eq!(ch, "c");
    let frame = st.confirm_subscribe(ch);
    assert_eq!(frame.to_bytes(), b"*3\r\n$9\r\nsubscribe\r\n$1\r\nc\r\n:3\r\n");
}

#[test]
fn unsubscribe_named_channels_in_order() {
    let mut st = SubscribedState::new(Vec::new());
    st.confirm_subscribe("a".to_string());
    st.confirm_subscribe("b".to_string());
    st.confirm_subscribe("c".to_string());
    let replies = st.on_frame(frame_from(b"*3\r\n$11\r\nUNSUBSCRIBE\r\n$1\r\nb\r\n$1\r\na\r\n")).unwrap();
    assert_eq!(replies.len(), 2);
    assert_eq!(replies[0].to_bytes(), b"*3\r\n$11\r\nunsubscribe\r\n$1\r\nb\r\n:2\r\n");
    assert_eq!(replies[1].to_bytes(), b"*3\r\n$11\r\nunsubscribe\r\n$1\r\na\r\n:1\r\n");
}

#[test]
fn message_frame_bytes() {
    let frame = mini_redis::cmd::subscribe::make_message_frame("foo".to_string(), b"bar".to_vec());
    assert_eq!(frame.to_bytes(), b"*3\r\n$7\r\nmessage\r\n$3\r\nfoo\r\n$3\r\nbar\r\n");
}

#[test]
fn malformed_frame_in_subscribed_mode_errors() {
    let mut st = SubscribedState::new(Vec::new());
    assert!(st.on_frame(Frame::Integer(3)).is_err());
}

#[test]
fn client_reads_replies() {
    assert_eq!(client::ping_response(frame_from(b"+PONG\r\n")).unwrap(), b"PONG".to_vec());
    assert_eq!(
        client::get_response(frame_from(b"$5\r\nworld\r\n")).unwrap(),
        Some(b"world".to_vec())
    );
    assert_eq!(client::get_response(frame_from(b"$-1\r\n")).unwrap(), None);
    assert!(client::set_response(frame_from(b"+OK\r\n")).is_ok());
    assert!(client::set_response(frame_from(b"+NO\r\n")).is_err());
    assert_eq!(client::publish_response(frame_from(b":2\r\n")).unwrap(), 2);
    assert!(client::publish_response(frame_from(b"+OK\r\n")).is_err());
}

#[test]
fn client_checks_subscription_confirmations() {
    let ok = frame_from(b"*3\r\n$9\r\nsubscribe\r\n$3\r\nfoo\r\n:1\r\n");
    assert!(client::subscribe_response(&ok, "foo").is_ok());
    assert!(client::subscribe_response(&ok, "bar").is_err());

    let msg = frame_from(b"*3\r\n$7\r\nmessage\r\n$3\r\nfoo\r\n$3\r\nbar\r\n");
    let m = client::message_from_frame(&msg).unwrap();
    assert_eq!(m.channel, "foo");
    assert_eq!(m.content, b"bar".to_vec());
}

#[test]
fn client_unsubscribe_removes_exactly_one() {
    let mut channels = vec!["a".to_string(), "b".to_string()];
    let conf = frame_from(b"*3\r\n$11\r\nunsubscribe\r\n$1\r\na\r\n:1\r\n");
    assert!(client::apply_unsubscribe(&mut channels, &conf).is_ok());
    assert_eq!(channels, vec!["b".to_string()]);
    // A confirmation for a channel the client does not hold is an error.
    let bogus = frame_from(b"*3\r\n$11\r\nunsubscribe\r\n$1\r\nz\r\n:1\r\n");
    assert!(client::apply_unsubscribe(&mut channels, &bogus).is_err());
    assert_eq!(channels, vec!["b".to_string()]);
}

#[test]
fn client_request_frames() {
    assert_eq!(
        Get::new("foo".to_string()).into_frame().to_bytes(),
        b"*2\r\n$3\r\nget\r\n$3\r\nfoo\r\n"
    );
    assert_eq!(Ping::new(None).into_frame().to_bytes(), b"*1\r\n$4\r\nping\r\n");
    assert_eq!(
        SetCmd::new("k".to_string(), b"v".to_vec(), Some(50)).into_frame().to_bytes(),
        b"*5\r\n$3\r\nset\r\n$1\r\nk\r\n$1\r\nv\r\n$2\r\npx\r\n:50\r\n"
    );
    assert_eq!(
        Subscribe::new(vec!["foo".to_string()]).into_frame().to_bytes(),
        b"*2\r\n$9\r\nsubscribe\r\n$3\r\nfoo\r\n"
    );
}

#[test]
fn parse_cursor_reads_typed_tokens() {
    let frame = frame_from(b"*3\r\n$1\r\na\r\n:42\r\n$2\r\n17\r\n");
    let mut parse = Parse::new(frame).unwrap();
    assert_eq!(parse.next_string().unwrap(), "a");
    assert_eq!(parse.next_int().unwrap(), 42);
    assert_eq!(parse.next_int().unwrap(), 17);
    assert!(parse.check_done().is_ok());
    assert!(matches!(parse.next(), Err(ParseError::EndOfStream)));
}

#[test]
fn duration_from_reads_milliseconds() {
    assert_eq!(mini_redis::duration_from("250"), Some(250));
    assert_eq!(mini_redis::duration_from(""), None);
    assert_eq!(mini_redis::duration_from("12x"), None);
}

#[test]
fn backoff_doubles_then_gives_up() {
    let mut backoff = mini_redis::server::INITIAL_BACKOFF_SECS;
    let mut delays = Vec::new();
    loop {
        match mini_redis::server::backoff_step(backoff) {
            Some(next) => {
                delays.push(backoff);
                backoff = next;
            }
            None => break,
        }
    }
    assert_eq!(delays, vec![1, 2, 4, 8, 16, 32]);
}
