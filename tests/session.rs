use tiny::conn::HandshakeStatus;
use tiny::session::{drop_port, interpret, words, Effect, Interest, MsgKind, Session};
use tiny::target::{MsgSource, MsgTarget};
use tiny::wire::decode;

fn s(x: &str) -> String {
    x.to_string()
}

fn effects_of(line: &str) -> Vec<Effect> {
    interpret(&s("irc.x"), &s("me"), &decode(line).unwrap())
}

#[test]
fn names_reply_strips_operator_mark() {
    let es = effects_of(":irc.x 353 me = #chan :@alice bob");
    let chan = MsgTarget::Chan { serv_name: s("irc.x"), chan_name: s("#chan") };
    assert_eq!(
        es,
        vec![
            Effect::AddNick { nick: s("alice"), target: chan.clone(), timestamped: false },
            Effect::AddNick { nick: s("bob"), target: chan, timestamped: false },
        ]
    );
}

#[test]
fn quit_removes_nick_from_server_tabs() {
    let es = effects_of(":bob!b@h QUIT :gone");
    assert_eq!(
        es,
        vec![Effect::RemoveNick {
            nick: s("bob"),
            target: MsgTarget::AllUserTabs { serv_name: s("irc.x"), nick: s("bob") },
            timestamped: true
        }]
    );
}

#[test]
fn unrecognized_command_is_only_logged() {
    let es = effects_of(":irc.x FOO bar");
    assert_eq!(es.len(), 1);
    assert!(matches!(es[0], Effect::Debug { .. }));
    let es = effects_of("PING :x");
    assert_eq!(es.len(), 1);
    assert!(matches!(es[0], Effect::Debug { .. }));
}

#[test]
fn chat_and_membership_table() {
    let es = effects_of(":bob!b@h PRIVMSG #c :hello world");
    assert_eq!(
        es,
        vec![
            Effect::Log { serv_name: s("irc.x"), chan_name: s("#c"), line: s("PRIVMSG: hello world") },
            Effect::Privmsg {
                sender: s("bob"),
                text: s("hello world"),
                target: MsgTarget::Chan { serv_name: s("irc.x"), chan_name: s("#c") }
            },
        ]
    );
    let es = effects_of(":bob!b@h PRIVMSG me :psst");
    assert_eq!(
        es,
        vec![Effect::Privmsg {
            sender: s("bob"),
            text: s("psst"),
            target: MsgTarget::User { serv_name: s("irc.x"), nick: s("bob") }
        }]
    );
    let es = effects_of(":me!m@h JOIN #c");
    assert_eq!(es[1], Effect::NewChanTab { serv_name: s("irc.x"), chan_name: s("#c") });
    let es = effects_of(":bob!b@h JOIN #c");
    assert_eq!(
        es[1],
        Effect::AddNick {
            nick: s("bob"),
            target: MsgTarget::Chan { serv_name: s("irc.x"), chan_name: s("#c") },
            timestamped: true
        }
    );
    let es = effects_of(":bob!b@h PART #c");
    assert_eq!(
        es[1],
        Effect::RemoveNick {
            nick: s("bob"),
            target: MsgTarget::Chan { serv_name: s("irc.x"), chan_name: s("#c") },
            timestamped: true
        }
    );
    let es = effects_of(":bob!b@h NICK rob");
    assert_eq!(
        es,
        vec![Effect::RenameNick {
            old_nick: s("bob"),
            new_nick: s("rob"),
            target: MsgTarget::AllUserTabs { serv_name: s("irc.x"), nick: s("bob") },
            timestamped: true
        }]
    );
    let es = effects_of("PRIVMSG #c :no prefix");
    assert!(matches!(es[0], Effect::Debug { .. }));
}

fn server_msg(text: &str) -> Effect {
    Effect::Show { text: s(text), target: MsgTarget::Server { serv_name: s("irc.x") }, kind: MsgKind::Plain }
}

#[test]
fn numeric_reply_table() {
    assert_eq!(effects_of(":irc.x 001 me :Welcome"), vec![server_msg("Welcome")]);
    assert_eq!(effects_of(":irc.x 004 me irc.x v1 o"), vec![server_msg("me irc.x v1 o")]);
    assert_eq!(effects_of(":irc.x 265 me 1 2 :Current users"), vec![server_msg("Current users")]);
    assert_eq!(
        effects_of(":irc.x 332 me #c :the topic"),
        vec![Effect::ShowTopic {
            topic: s("the topic"),
            target: MsgTarget::Chan { serv_name: s("irc.x"), chan_name: s("#c") }
        }]
    );
    assert_eq!(
        effects_of(":irc.x 332 #c :the topic"),
        vec![Effect::ShowTopic {
            topic: s("the topic"),
            target: MsgTarget::Chan { serv_name: s("irc.x"), chan_name: s("#c") }
        }]
    );
    assert_eq!(effects_of(":irc.x 366 me #c :End"), vec![]);
    assert_eq!(
        effects_of(":irc.x 433 * me :Nickname is already in use"),
        vec![Effect::Show {
            text: s("Nick already in use: \"me\""),
            target: MsgTarget::Server { serv_name: s("irc.x") },
            kind: MsgKind::Error
        }]
    );
    assert_eq!(
        effects_of(":irc.x 433 * a\"b\\c :in use"),
        vec![Effect::Show {
            text: s("Nick already in use: \"a\\\"b\\\\c\""),
            target: MsgTarget::Server { serv_name: s("irc.x") },
            kind: MsgKind::Error
        }]
    );
    assert!(matches!(effects_of(":irc.x 999 me x")[0], Effect::Debug { .. }));
    assert_eq!(
        effects_of(":irc.x NOTICE * :Looking up"),
        vec![server_msg("Looking up")]
    );
}

#[test]
fn addresses_and_words() {
    assert_eq!(drop_port("irc.x.org:6667"), Some(s("irc.x.org")));
    assert_eq!(drop_port("a:b:1"), Some(s("a:b")));
    assert_eq!(drop_port("irc.x.org"), None);
    assert_eq!(drop_port(":6667"), None);
    assert_eq!(drop_port("x:"), None);
    assert_eq!(drop_port("x:123456"), None);
    assert_eq!(drop_port("x:12a"), None);
    assert_eq!(drop_port("x:65535"), Some(s("x")));
    assert_eq!(drop_port("x:65536"), None);
    assert_eq!(drop_port("x:99999"), None);
    assert_eq!(words("  join   #a "), vec![s("join"), s("#a")]);
}

fn serv_tab() -> MsgSource {
    MsgSource::Serv { serv_name: s("irc.x") }
}

fn session_with_conn() -> Session {
    let mut ses = Session::new("me", "host", "Me");
    let es = ses.register_connection("irc.x:6667", "irc.x", 3);
    assert_eq!(es.len(), 4);
    assert_eq!(es[3], Effect::Register { socket: 3, interest: Interest::ReadWrite });
    ses
}

#[test]
fn commands() {
    let mut ses = session_with_conn();
    assert_eq!(
        ses.handle_input(&serv_tab(), "/connect irc.y:6697"),
        vec![Effect::Connect { serv_addr: s("irc.y:6697"), serv_name: s("irc.y") }]
    );
    assert!(matches!(
        &ses.handle_input(&serv_tab(), "/connect irc.y")[0],
        Effect::Show { kind: MsgKind::ClientErr, .. }
    ));
    assert_eq!(ses.handle_input(&serv_tab(), "/join #rust"), vec![]);
    assert_eq!(ses.conn(0).outgoing().as_slice(), b"JOIN #rust\r\n");
    assert_eq!(
        ses.handle_input(&MsgSource::Serv { serv_name: s("other") }, "/join #rust"),
        vec![Effect::Show {
            text: s("Can't JOIN: Not connected to server other"),
            target: MsgTarget::CurrentTab,
            kind: MsgKind::ClientErr
        }]
    );
    assert_eq!(ses.handle_input(&serv_tab(), "/quit"), vec![Effect::Quit]);
    assert_eq!(
        ses.handle_input(&serv_tab(), "/frob x"),
        vec![Effect::Show { text: s("Unsupported command: frob"), target: MsgTarget::CurrentTab, kind: MsgKind::ClientErr }]
    );
    assert_eq!(
        ses.register_connection("irc.x:6667", "irc.x", 4),
        vec![Effect::Show { text: s("Already connected to irc.x"), target: MsgTarget::CurrentTab, kind: MsgKind::ClientErr }]
    );
    assert_eq!(ses.num_conns(), 1);
}

#[test]
fn sending_text() {
    let mut ses = session_with_conn();
    let chan = MsgSource::Chan { serv_name: s("irc.x"), chan_name: s("#c") };
    assert_eq!(
        ses.handle_input(&chan, "hello"),
        vec![Effect::Privmsg {
            sender: s("me"),
            text: s("hello"),
            target: MsgTarget::Chan { serv_name: s("irc.x"), chan_name: s("#c") }
        }]
    );
    assert_eq!(ses.outgoing(3).unwrap().as_slice(), b"PRIVMSG #c :hello\r\n");
    assert!(ses.on_written(3, 8));
    assert_eq!(ses.outgoing(3).unwrap().as_slice(), b"#c :hello\r\n");
    assert!(!ses.on_written(3, 100));
    let user = MsgSource::User { serv_name: s("irc.x"), nick: s("bob") };
    assert_eq!(ses.handle_input(&user, "hi").len(), 1);
    assert_eq!(
        ses.handle_input(&serv_tab(), "hello"),
        vec![Effect::Show { text: s("Can't send PRIVMSG to a server."), target: MsgTarget::CurrentTab, kind: MsgKind::ClientErr }]
    );
    assert_eq!(
        ses.handle_input(&MsgSource::Serv { serv_name: s("") }, "hello"),
        vec![Effect::Show {
            text: s("Use `/connect <server>` to connect to a server"),
            target: MsgTarget::CurrentTab,
            kind: MsgKind::ClientErr
        }]
    );
}

#[test]
fn socket_events() {
    let mut ses = session_with_conn();
    assert_eq!(
        ses.on_handshake(3, HandshakeStatus::WantWrite, ""),
        vec![Effect::SetInterest { socket: 3, interest: Interest::ReadWrite }]
    );
    assert_eq!(
        ses.on_handshake(3, HandshakeStatus::Connected, ""),
        vec![Effect::SetInterest { socket: 3, interest: Interest::Read }]
    );
    let es = ses.on_read(3, b":irc.x 001 me :Welcome\r\n:irc.x 002 me :Host\r\n");
    assert_eq!(es, vec![server_msg("Welcome"), server_msg("Host")]);
    let es = ses.on_read(3, b"JOIN\r\n:irc.x 003 me :Created\r\n");
    assert_eq!(
        es,
        vec![server_msg("Created"), Effect::Debug { line: s("Dropped lines that do not decode") }]
    );
    let es = ses.on_read(3, b"");
    assert_eq!(es, vec![Effect::Reconnect { socket: 3 }]);
    let es = ses.handle_disconnect(3, 5);
    assert_eq!(
        es,
        vec![
            Effect::Show { text: s("Disconnected."), target: MsgTarget::AllServTabs { serv_name: s("irc.x") }, kind: MsgKind::Error },
            Effect::Deregister { socket: 3 },
            Effect::Show { text: s("Connecting..."), target: MsgTarget::Server { serv_name: s("irc.x") }, kind: MsgKind::Client },
            Effect::Register { socket: 5, interest: Interest::ReadWrite },
        ]
    );
    assert_eq!(ses.num_conns(), 1);
    assert_eq!(ses.conn(0).serv_name(), "irc.x");
    assert_eq!(ses.conn(0).socket(), 5);
    assert!(matches!(ses.on_read(3, b"x\n")[0], Effect::Debug { .. }));
    let es = ses.on_handshake(5, HandshakeStatus::Failed, "TLS handshake failed: bad certificate");
    assert_eq!(
        es,
        vec![
            Effect::Show {
                text: s("TLS handshake failed: bad certificate"),
                target: MsgTarget::Server { serv_name: s("irc.x") },
                kind: MsgKind::Error
            },
            Effect::Deregister { socket: 5 },
        ]
    );
    assert_eq!(ses.num_conns(), 0);
}
