use tiny::conn::{Conn, HandshakeStatus, Phase, Step};
use tiny::wire::{decode, join, privmsg, quit, Cmd, EncodeError, Msg, ParseError, Pfx, Receiver};

#[test]
fn decode_privmsg_to_channel() {
    let m = decode("PRIVMSG #chan :hello world").unwrap();
    assert_eq!(m.pfx, None);
    assert_eq!(
        m.cmd,
        Cmd::PRIVMSG {
            receivers: Receiver::Chan("#chan".to_string()),
            contents: "hello world".to_string()
        }
    );
}

#[test]
fn decode_prefix_and_terminator() {
    let m = decode(":bob!b@host.org PRIVMSG me :hi there\r\n").unwrap();
    assert_eq!(
        m.pfx,
        Some(Pfx::User { nick: "bob".to_string(), user: "b".to_string(), host: "host.org".to_string() })
    );
    assert_eq!(
        m.cmd,
        Cmd::PRIVMSG { receivers: Receiver::User("me".to_string()), contents: "hi there".to_string() }
    );
    let m = decode(":irc.x.org 001 me :Welcome\n").unwrap();
    assert_eq!(m.pfx, Some(Pfx::Server("irc.x.org".to_string())));
    assert_eq!(m.cmd, Cmd::Reply { num: 1, params: vec!["me".to_string(), "Welcome".to_string()] });
}

#[test]
fn decode_numeric_keeps_positions() {
    let m = decode(":s 353 me = #chan :@alice bob").unwrap();
    assert_eq!(
        m.cmd,
        Cmd::Reply {
            num: 353,
            params: vec!["me".to_string(), "=".to_string(), "#chan".to_string(), "@alice bob".to_string()]
        }
    );
}

#[test]
fn decode_unrecognized_verb() {
    let m = decode(":s FOO a :b c").unwrap();
    assert_eq!(m.cmd, Cmd::Other { cmd: "FOO".to_string(), params: vec!["a".to_string(), "b c".to_string()] });
    let m = decode(":s 12a x").unwrap();
    assert_eq!(m.cmd, Cmd::Other { cmd: "12a".to_string(), params: vec!["x".to_string()] });
}

#[test]
fn decode_errors() {
    assert_eq!(decode("\r\n"), Err(ParseError::Empty));
    assert_eq!(decode(":prefixonly"), Err(ParseError::NoCommand));
    assert_eq!(decode(":p  JOIN #a"), Err(ParseError::NoCommand));
    assert_eq!(decode("PRIVMSG #a"), Err(ParseError::BadParams));
    assert_eq!(decode("JOIN"), Err(ParseError::BadParams));
}

#[test]
fn decode_other_commands() {
    let m = decode(":a!b@c PART #x :bye").unwrap();
    assert_eq!(m.cmd, Cmd::PART { chan: "#x".to_string(), msg: Some("bye".to_string()) });
    let m = decode(":a!b@c QUIT").unwrap();
    assert_eq!(m.cmd, Cmd::QUIT { msg: None });
    let m = decode(":a!b@c NICK newa").unwrap();
    assert_eq!(m.cmd, Cmd::NICK { nick: "newa".to_string() });
    let m = decode(":s NOTICE * :Looking up").unwrap();
    assert_eq!(m.cmd, Cmd::NOTICE { nick: "*".to_string(), msg: "Looking up".to_string() });
}

#[test]
fn encoders_round_trip() {
    let l = join("#rust").unwrap();
    assert_eq!(l, "JOIN #rust\r\n");
    assert_eq!(decode(&l).unwrap(), Msg { pfx: None, cmd: Cmd::JOIN { chan: "#rust".to_string() } });
    let l = privmsg("bob", "hi there :)").unwrap();
    assert_eq!(l, "PRIVMSG bob :hi there :)\r\n");
    assert_eq!(
        decode(&l).unwrap().cmd,
        Cmd::PRIVMSG { receivers: Receiver::User("bob".to_string()), contents: "hi there :)".to_string() }
    );
    let l = quit("bye all").unwrap();
    assert_eq!(l, "QUIT :bye all\r\n");
    assert_eq!(decode(&l).unwrap().cmd, Cmd::QUIT { msg: Some("bye all".to_string()) });
}

#[test]
fn encoders_reject() {
    assert_eq!(join("#a b"), Err(EncodeError::InvalidArgument));
    assert_eq!(join(""), Err(EncodeError::InvalidArgument));
    assert_eq!(join(":x"), Err(EncodeError::InvalidArgument));
    assert_eq!(privmsg("#a", "x\ny"), Err(EncodeError::InvalidArgument));
    assert_eq!(quit("a\rb"), Err(EncodeError::InvalidArgument));
    let long = "x".repeat(510);
    assert_eq!(privmsg("#a", &long), Err(EncodeError::TooLong));
    // "QUIT :" and "\r\n" take 8 bytes: 504 more make exactly 512
    assert!(quit(&"y".repeat(504)).is_ok());
    assert_eq!(quit(&"y".repeat(505)), Err(EncodeError::TooLong));
}

fn conn() -> Conn {
    Conn::new("irc.x.org:6697", "irc.x.org", "me", "host", "Me", 7)
}

#[test]
fn two_lines_in_one_read_keep_order() {
    let mut c = conn();
    let r = c.on_readable(b":a!b@c JOIN #x\r\n:a!b@c PART #x\r\n");
    assert!(!r.closed);
    assert_eq!(r.msgs.len(), 2);
    assert_eq!(r.msgs[0].cmd, Cmd::JOIN { chan: "#x".to_string() });
    assert_eq!(r.msgs[1].cmd, Cmd::PART { chan: "#x".to_string(), msg: None });
}

#[test]
fn partial_line_waits_and_bad_line_is_dropped() {
    let mut c = conn();
    let r = c.on_readable(b"\r\n:a!b@c NICK n1\r\n:a!b@c NI");
    assert_eq!(r.dropped, 1);
    assert_eq!(r.msgs.len(), 1);
    assert_eq!(r.msgs[0].cmd, Cmd::NICK { nick: "n1".to_string() });
    let r = c.on_readable(b"CK n2\n");
    assert_eq!(r.dropped, 0);
    assert_eq!(r.msgs.len(), 1);
    assert_eq!(r.msgs[0].cmd, Cmd::NICK { nick: "n2".to_string() });
    let r = c.on_readable(b"");
    assert!(r.closed);
    assert!(r.msgs.is_empty());
}

#[test]
fn partial_write_keeps_suffix() {
    let mut c = conn();
    c.queue("JOIN #a\r\n");
    c.queue("JOIN #b\r\n");
    assert_eq!(c.outgoing().as_slice(), b"JOIN #a\r\nJOIN #b\r\n");
    c.on_written(5);
    assert_eq!(c.outgoing().as_slice(), b"#a\r\nJOIN #b\r\n");
    c.on_written(0);
    assert_eq!(c.outgoing().as_slice(), b"#a\r\nJOIN #b\r\n");
    c.on_written(13);
    assert!(c.outgoing().is_empty());
}

#[test]
fn reconnect_keeps_identity() {
    let mut c = conn();
    c.queue("JOIN #a\r\n");
    let _ = c.on_readable(b"partial");
    assert_eq!(c.advance_handshake(HandshakeStatus::Connected), Step::Established);
    c.reconnect(9);
    assert_eq!(c.serv_name(), "irc.x.org");
    assert_eq!(c.serv_addr(), "irc.x.org:6697");
    assert_eq!(c.nick(), "me");
    assert_eq!(c.socket(), 9);
    assert_eq!(c.phase(), Phase::Connecting);
    assert!(c.outgoing().is_empty());
    // the old partial line is gone: " line" alone has no command
    let r = c.on_readable(b" line\n");
    assert!(r.msgs.is_empty());
}

#[test]
fn handshake_steps() {
    let mut c = conn();
    assert_eq!(c.advance_handshake(HandshakeStatus::WantWrite), Step::WantWrite);
    assert_eq!(c.advance_handshake(HandshakeStatus::WantRead), Step::WantRead);
    assert_eq!(c.advance_handshake(HandshakeStatus::Failed), Step::Failed);
    assert_eq!(c.phase(), Phase::Disconnected);
}

#[test]
fn established_channel_sends_registration() {
    let mut c = conn();
    c.queue("X\r\n");
    assert_eq!(c.advance_handshake(HandshakeStatus::WantRead), Step::WantRead);
    assert_eq!(c.outgoing().as_slice(), b"X\r\n");
    assert_eq!(c.advance_handshake(HandshakeStatus::Connected), Step::Established);
    assert_eq!(c.outgoing().as_slice(), b"X\r\nNICK me\r\nUSER host 8 * :Me\r\n");
}

#[test]
fn registration_encoders_reject() {
    assert_eq!(tiny::wire::nick("a b"), Err(EncodeError::InvalidArgument));
    assert_eq!(tiny::wire::user("h", "x\ny"), Err(EncodeError::InvalidArgument));
    assert_eq!(tiny::wire::user("h", "Real Name").unwrap(), "USER h 8 * :Real Name\r\n");
}

#[test]
fn channel_marks_and_nick_round_trip() {
    for t in ["#a", "&a", "+a", "!a"] {
        let l = privmsg(t, "x").unwrap();
        assert_eq!(decode(&l).unwrap().cmd, Cmd::PRIVMSG { receivers: Receiver::Chan(t.to_string()), contents: "x".to_string() });
    }
    let l = tiny::wire::nick("newme").unwrap();
    assert_eq!(decode(&l).unwrap(), Msg { pfx: None, cmd: Cmd::NICK { nick: "newme".to_string() } });
    let l = tiny::wire::user("h", "Real Name").unwrap();
    assert_eq!(
        decode(&l).unwrap().cmd,
        Cmd::Other {
            cmd: "USER".to_string(),
            params: vec!["h".to_string(), "8".to_string(), "*".to_string(), "Real Name".to_string()]
        }
    );
}
