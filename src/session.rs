use vstd::prelude::*;

use crate::conn::{Conn, ConnView};
use crate::target::{MsgSource, MsgTarget, TargetV};
use crate::utils::{white, is_white, string_of, chars_of};
use crate::wire::{Cmd, CmdV, Msg, MsgV, Pfx, PfxV, Receiver, ReceiverV, strings_view};

verus! {

/// How a shown message is presented.
#[derive(Clone, Copy, Debug, PartialEq, Eq, Structural)]
pub enum MsgKind {
    /// Text from the server.
    Plain,
    /// An error.
    Error,
    /// Text of the client's own.
    Client,
    /// An error of the client's own.
    ClientErr,
}

/// Which readiness a socket is registered for.
#[derive(Clone, Copy, Debug, PartialEq, Eq, Structural)]
pub enum Interest {
    Read,
    ReadWrite,
}

/// One thing for the user interface, the logs or the event loop to do, in
/// the order given.
#[derive(Clone, Debug, PartialEq, Eq)]
pub enum Effect {
    Show { text: String, target: MsgTarget, kind: MsgKind },
    Privmsg { sender: String, text: String, target: MsgTarget },
    NewServerTab { serv_name: String },
    CloseServerTab { serv_name: String },
    NewChanTab { serv_name: String, chan_name: String },
    AddNick { nick: String, target: MsgTarget, timestamped: bool },
    RemoveNick { nick: String, target: MsgTarget, timestamped: bool },
    RenameNick { old_nick: String, new_nick: String, target: MsgTarget, timestamped: bool },
    ShowTopic { topic: String, target: MsgTarget },
    /// A line for the log of a channel of a server.
    Log { serv_name: String, chan_name: String, line: String },
    /// A line for the diagnostic log.
    Debug { line: String },
    /// Open a socket to `serv_addr` and hand it to `register_connection`.
    Connect { serv_addr: String, serv_name: String },
    /// Watch a socket.
    Register { socket: u64, interest: Interest },
    /// Change what a watched socket is watched for.
    SetInterest { socket: u64, interest: Interest },
    /// Stop watching a socket.
    Deregister { socket: u64 },
    /// Open a new socket for the connection on `socket` and hand both to
    /// `handle_disconnect`.
    Reconnect { socket: u64 },
    /// End the program.
    Quit,
}

pub ghost enum EffectV {
    Show { text: Seq<char>, target: TargetV, kind: MsgKind },
    Privmsg { sender: Seq<char>, text: Seq<char>, target: TargetV },
    NewServerTab { serv: Seq<char> },
    CloseServerTab { serv: Seq<char> },
    NewChanTab { serv: Seq<char>, chan: Seq<char> },
    AddNick { nick: Seq<char>, target: TargetV, timestamped: bool },
    RemoveNick { nick: Seq<char>, target: TargetV, timestamped: bool },
    RenameNick { old_nick: Seq<char>, new_nick: Seq<char>, target: TargetV, timestamped: bool },
    ShowTopic { topic: Seq<char>, target: TargetV },
    Log { serv: Seq<char>, chan: Seq<char>, line: Seq<char> },
    Debug { line: Seq<char> },
    Connect { addr: Seq<char>, serv: Seq<char> },
    Register { socket: u64, interest: Interest },
    SetInterest { socket: u64, interest: Interest },
    Deregister { socket: u64 },
    Reconnect { socket: u64 },
    Quit,
}

impl View for Effect {
    type V = EffectV;

    open spec fn view(&self) -> EffectV {
        match self {
            Effect::Show { text, target, kind } => EffectV::Show {
                text: text@,
                target: target@,
                kind: *kind,
            },
            Effect::Privmsg { sender, text, target } => EffectV::Privmsg {
                sender: sender@,
                text: text@,
                target: target@,
            },
            Effect::NewServerTab { serv_name } => EffectV::NewServerTab { serv: serv_name@ },
            Effect::CloseServerTab { serv_name } => EffectV::CloseServerTab { serv: serv_name@ },
            Effect::NewChanTab { serv_name, chan_name } => EffectV::NewChanTab {
                serv: serv_name@,
                chan: chan_name@,
            },
            Effect::AddNick { nick, target, timestamped } => EffectV::AddNick {
                nick: nick@,
                target: target@,
                timestamped: *timestamped,
            },
            Effect::RemoveNick { nick, target, timestamped } => EffectV::RemoveNick {
                nick: nick@,
                target: target@,
                timestamped: *timestamped,
            },
            Effect::RenameNick { old_nick, new_nick, target, timestamped } => EffectV::RenameNick {
                old_nick: old_nick@,
                new_nick: new_nick@,
                target: target@,
                timestamped: *timestamped,
            },
            Effect::ShowTopic { topic, target } => EffectV::ShowTopic {
                topic: topic@,
                target: target@,
            },
            Effect::Log { serv_name, chan_name, line } => EffectV::Log {
                serv: serv_name@,
                chan: chan_name@,
                line: line@,
            },
            Effect::Debug { line } => EffectV::Debug { line: line@ },
            Effect::Connect { serv_addr, serv_name } => EffectV::Connect {
                addr: serv_addr@,
                serv: serv_name@,
            },
            Effect::Register { socket, interest } => EffectV::Register {
                socket: *socket,
                interest: *interest,
            },
            Effect::SetInterest { socket, interest } => EffectV::SetInterest {
                socket: *socket,
                interest: *interest,
            },
            Effect::Deregister { socket } => EffectV::Deregister { socket: *socket },
            Effect::Reconnect { socket } => EffectV::Reconnect { socket: *socket },
            Effect::Quit => EffectV::Quit,
        }
    }
}

pub open spec fn effects_view(v: Seq<Effect>) -> Seq<EffectV> {
    v.map_values(|e: Effect| e@)
}

/// Whether an effect changes nothing but the diagnostic log.
pub open spec fn is_diagnostic(e: EffectV) -> bool {
    e is Debug
}

// ---------------------------------------------------------------------------
// The event table
/// Where text from `pfx` belongs on server `serv`: the server tab for a
/// server, the conversation with a user for a user.
pub open spec fn pfx_target(pfx: PfxV, serv: Seq<char>) -> TargetV {
    match pfx {
        PfxV::Server(_) => TargetV::Server { serv },
        PfxV::User { nick, .. } => TargetV::User { serv, nick },
    }
}

/// The words of `s[i..]`, separated by white space, each without one
/// leading `@`.
pub open spec fn names_from(s: Seq<char>, i: int) -> Seq<Seq<char>>
    decreases s.len() - i,
{
    if i < 0 || i >= s.len() {
        Seq::empty()
    } else if white(s[i]) {
        names_from(s, i + 1)
    } else if white_from(s, i) <= i || white_from(s, i) > s.len() {
        Seq::empty()
    } else {
        seq![strip_op(s.subrange(i, white_from(s, i)))] + names_from(s, white_from(s, i))
    }
}

/// First white space at or after `i`, or the length.
pub open spec fn white_from(s: Seq<char>, i: int) -> int
    decreases s.len() - i,
{
    if i < 0 || i >= s.len() {
        s.len() as int
    } else if white(s[i]) {
        i
    } else {
        white_from(s, i + 1)
    }
}

/// A nick without its operator mark.
pub open spec fn strip_op(w: Seq<char>) -> Seq<char> {
    if w.len() > 0 && w[0] == '@' {
        w.drop_first()
    } else {
        w
    }
}

/// The parameters joined by single spaces.
pub open spec fn joined(ps: Seq<Seq<char>>) -> Seq<char>
    decreases ps.len(),
{
    if ps.len() == 0 {
        Seq::empty()
    } else if ps.len() == 1 {
        ps[0]
    } else {
        joined(ps.drop_last()) + " "@ + ps.last()
    }
}

pub open spec fn debug(line: Seq<char>) -> Seq<EffectV> {
    seq![EffectV::Debug { line }]
}

pub open spec fn to_server(text: Seq<char>, serv: Seq<char>, kind: MsgKind) -> Seq<EffectV> {
    seq![EffectV::Show { text, target: TargetV::Server { serv }, kind }]
}

/// What a numeric reply does, on server `serv`.
pub open spec fn reply_effects(serv: Seq<char>, num: u16, ps: Seq<Seq<char>>) -> Seq<EffectV> {
    if num <= 3 || num == 251 || num == 255 || num == 372 || num == 375 || num == 376 {
        if ps.len() >= 2 {
            to_server(ps[1], serv, MsgKind::Plain)
        } else {
            debug("Reply without its text"@)
        }
    } else if num == 4 || num == 5 || (252 <= num && num <= 254) {
        to_server(joined(ps), serv, MsgKind::Plain)
    } else if num == 265 || num == 266 || num == 250 {
        if ps.len() >= 1 {
            to_server(ps.last(), serv, MsgKind::Plain)
        } else {
            debug("Reply without its text"@)
        }
    } else if num == 332 {
        if ps.len() == 2 || ps.len() == 3 {
            seq![
                EffectV::ShowTopic {
                    topic: ps[ps.len() - 1],
                    target: TargetV::Chan { serv, chan: ps[ps.len() - 2] },
                },
            ]
        } else {
            debug("Topic reply with unexpected parameters"@)
        }
    } else if num == 353 {
        if ps.len() >= 4 {
            names_from(ps[3], 0).map_values(
                |n: Seq<char>|
                    EffectV::AddNick {
                        nick: n,
                        target: TargetV::Chan { serv, chan: ps[2] },
                        timestamped: false,
                    },
            )
        } else {
            debug("Names reply with unexpected parameters"@)
        }
    } else if num == 433 {
        if ps.len() >= 2 {
            to_server("Nick already in use: "@ + debug_text(ps[1]), serv, MsgKind::Error)
        } else {
            to_server("Nick already in use"@, serv, MsgKind::Error)
        }
    } else if num == 366 {
        Seq::empty()
    } else {
        debug("Ignoring numeric reply"@)
    }
}

/// What a message does, received on server `serv` by a user called `our`.
pub open spec fn effects_of(serv: Seq<char>, our: Seq<char>, m: MsgV) -> Seq<EffectV> {
    match m.pfx {
        None => debug("Ignoring message without a prefix"@),
        Some(pfx) => match m.cmd {
            CmdV::PRIVMSG { receivers, contents } => {
                let sender = match pfx {
                    PfxV::Server(_) => serv,
                    PfxV::User { nick, .. } => nick,
                };
                match receivers {
                    ReceiverV::Chan(chan) => seq![
                        EffectV::Log { serv, chan, line: "PRIVMSG: "@ + contents },
                        EffectV::Privmsg {
                            sender,
                            text: contents,
                            target: TargetV::Chan { serv, chan },
                        },
                    ],
                    ReceiverV::User(_) => seq![
                        EffectV::Privmsg { sender, text: contents, target: pfx_target(pfx, serv) },
                    ],
                }
            },
            CmdV::JOIN { chan } => match pfx {
                PfxV::Server(_) => debug("Ignoring JOIN from a server"@),
                PfxV::User { nick, .. } => seq![
                    EffectV::Log { serv, chan, line: "JOIN: "@ + nick },
                    if nick == our {
                        EffectV::NewChanTab { serv, chan }
                    } else {
                        EffectV::AddNick {
                            nick,
                            target: TargetV::Chan { serv, chan },
                            timestamped: true,
                        }
                    },
                ],
            },
            CmdV::PART { chan, .. } => match pfx {
                PfxV::Server(_) => debug("Ignoring PART from a server"@),
                PfxV::User { nick, .. } => seq![
                    EffectV::Log { serv, chan, line: "PART: "@ + nick },
                    EffectV::RemoveNick {
                        nick,
                        target: TargetV::Chan { serv, chan },
                        timestamped: true,
                    },
                ],
            },
            CmdV::QUIT { .. } => match pfx {
                PfxV::Server(_) => debug("Ignoring QUIT from a server"@),
                PfxV::User { nick, .. } => seq![
                    EffectV::RemoveNick {
                        nick,
                        target: TargetV::AllUserTabs { serv, nick },
                        timestamped: true,
                    },
                ],
            },
            CmdV::NOTICE { nick, msg } => if nick == "*"@ || nick == our {
                seq![EffectV::Show { text: msg, target: pfx_target(pfx, serv), kind: MsgKind::Plain }]
            } else {
                debug("Ignoring NOTICE to another nick"@)
            },
            CmdV::NICK { nick: new_nick } => match pfx {
                PfxV::Server(_) => debug("Ignoring NICK from a server"@),
                PfxV::User { nick, .. } => seq![
                    EffectV::RenameNick {
                        old_nick: nick,
                        new_nick,
                        target: TargetV::AllUserTabs { serv, nick },
                        timestamped: true,
                    },
                ],
            },
            CmdV::Reply { num, params } => reply_effects(serv, num, params),
            CmdV::Other { .. } => debug("Ignoring message"@),
        },
    }
}

fn lit(s: &str) -> (r: String)
    ensures
        r@ == s@,
{
    String::from_str(s)
}

fn cat(a: &str, b: &str) -> (r: String)
    ensures
        r@ == a@ + b@,
{
    let mut r = String::from_str(a);
    r.append(b);
    r
}

fn debug_effect(line: &str) -> (r: Vec<Effect>)
    ensures
        effects_view(r@) == debug(line@),
{
    let mut r: Vec<Effect> = Vec::new();
    r.push(Effect::Debug { line: lit(line) });
    assert(effects_view(r@) =~= debug(line@));
    r
}

fn server_effect(text: String, serv: &String, kind: MsgKind) -> (r: Vec<Effect>)
    ensures
        effects_view(r@) == to_server(text@, serv@, kind),
{
    let mut r: Vec<Effect> = Vec::new();
    r.push(Effect::Show { text, target: MsgTarget::Server { serv_name: serv.clone() }, kind });
    assert(effects_view(r@) =~= to_server(text@, serv@, kind));
    r
}

/// What the debug form of a string is: the text in double quotes, with
/// quotes, backslashes and characters that do not print escaped.
pub uninterp spec fn debug_text(s: Seq<char>) -> Seq<char>;

/// Relies on the `Debug` formatting of `str`: the result depends on the
/// characters alone.
#[verifier::external_body]
fn debug_quoted(s: &str) -> (r: String)
    ensures
        r@ == debug_text(s@),
{
    format!("{:?}", s)
}

/// The error shown on server `serv` when the nick asked for is taken, where
/// `quoted` is the debug form of that nick.
pub fn nick_in_use_effect(serv: &String, quoted: &str) -> (r: Vec<Effect>)
    ensures
        effects_view(r@) == to_server("Nick already in use: "@ + quoted@, serv@, MsgKind::Error),
{
    server_effect(cat("Nick already in use: ", quoted), serv, MsgKind::Error)
}

pub fn pfx_to_target(pfx: &Pfx, serv: &String) -> (r: MsgTarget)
    ensures
        r@ == pfx_target(pfx@, serv@),
{
    match pfx {
        Pfx::Server(_) => MsgTarget::Server { serv_name: serv.clone() },
        Pfx::User { nick, .. } => MsgTarget::User { serv_name: serv.clone(), nick: nick.clone() },
    }
}

fn joined_params(ps: &Vec<String>) -> (r: String)
    ensures
        r@ == joined(strings_view(ps@)),
{
    let ghost sv = strings_view(ps@);
    let mut r = String::new();
    let mut i: usize = 0;
    while i < ps.len()
        invariant
            i <= ps@.len(),
            sv == strings_view(ps@),
            r@ == joined(sv.take(i as int)),
        decreases ps@.len() - i,
    {
        if i > 0 {
            r.append(" ");
        }
        r.append(ps[i].as_str());
        assert(sv.take(i + 1).drop_last() =~= sv.take(i as int));
        i = i + 1;
    }
    assert(sv.take(i as int) =~= sv);
    r
}

proof fn lemma_white_from(s: Seq<char>, i: int)
    requires
        0 <= i <= s.len(),
    ensures
        i <= white_from(s, i) <= s.len(),
        white_from(s, i) < s.len() ==> white(s[white_from(s, i)]),
        forall|k: int| i <= k < white_from(s, i) ==> !white(s[k]),
    decreases s.len() - i,
{
    if i < s.len() && !white(s[i]) {
        lemma_white_from(s, i + 1);
    }
}

/// The nicks of a names reply, in order.
fn names(s: &String) -> (r: Vec<String>)
    ensures
        strings_view(r@) == names_from(s@, 0),
{
    let v = chars_of(s.as_str());
    let ghost t = v@;
    let n = v.len();
    let mut r: Vec<String> = Vec::new();
    let mut i: usize = 0;
    while i < n
        invariant
            t == v@,
            t == s@,
            n == t.len(),
            i <= n,
            strings_view(r@) + names_from(t, i as int) == names_from(t, 0),
        decreases n - i,
    {
        if is_white(v[i]) {
            i = i + 1;
        } else {
            let mut e = i;
            while e < n && !is_white(v[e])
                invariant
                    i <= e <= n,
                    n == t.len(),
                    t == v@,
                    white_from(t, i as int) == white_from(t, e as int),
                decreases n - e,
            {
                e = e + 1;
            }
            proof {
                lemma_white_from(t, i as int);
            }
            let from = if v[i] == '@' {
                i + 1
            } else {
                i
            };
            let w = string_of(&v, from, e);
            assert(w@ =~= strip_op(t.subrange(i as int, e as int)));
            let ghost before = strings_view(r@);
            r.push(w);
            assert(strings_view(r@) =~= before.push(w@));
            assert(names_from(t, i as int) =~= seq![w@] + names_from(t, e as int));
            assert(before + names_from(t, i as int) =~= strings_view(r@) + names_from(t, e as int));
            i = e;
        }
    }
    assert(names_from(t, i as int) =~= Seq::<Seq<char>>::empty());
    assert(strings_view(r@) =~= strings_view(r@) + names_from(t, i as int));
    r
}

fn one(e: Effect) -> (r: Vec<Effect>)
    ensures
        effects_view(r@) == seq![e@],
{
    let mut r: Vec<Effect> = Vec::new();
    r.push(e);
    assert(effects_view(r@) =~= seq![e@]);
    r
}

fn two(a: Effect, b: Effect) -> (r: Vec<Effect>)
    ensures
        effects_view(r@) == seq![a@, b@],
{
    let mut r: Vec<Effect> = Vec::new();
    r.push(a);
    r.push(b);
    assert(effects_view(r@) =~= seq![a@, b@]);
    r
}

/// What a numeric reply does, on server `serv`.
pub fn interpret_reply(serv: &String, num: u16, ps: &Vec<String>) -> (r: Vec<Effect>)
    ensures
        effects_view(r@) == reply_effects(serv@, num, strings_view(ps@)),
{
    let ghost sv = strings_view(ps@);
    let n = ps.len();
    assert(sv.len() == n);
    if num <= 3 || num == 251 || num == 255 || num == 372 || num == 375 || num == 376 {
        if n >= 2 {
            server_effect(ps[1].clone(), serv, MsgKind::Plain)
        } else {
            debug_effect("Reply without its text")
        }
    } else if num == 4 || num == 5 || (252 <= num && num <= 254) {
        server_effect(joined_params(ps), serv, MsgKind::Plain)
    } else if num == 265 || num == 266 || num == 250 {
        if n >= 1 {
            server_effect(ps[n - 1].clone(), serv, MsgKind::Plain)
        } else {
            debug_effect("Reply without its text")
        }
    } else if num == 332 {
        if n == 2 || n == 3 {
            one(
                Effect::ShowTopic {
                    topic: ps[n - 1].clone(),
                    target: MsgTarget::Chan { serv_name: serv.clone(), chan_name: ps[n - 2].clone() },
                },
            )
        } else {
            debug_effect("Topic reply with unexpected parameters")
        }
    } else if num == 353 {
        if n >= 4 {
            let nicks = names(&ps[3]);
            let ghost nv = strings_view(nicks@);
            let ghost expected = reply_effects(serv@, num, sv);
            let mut r: Vec<Effect> = Vec::new();
            let mut i: usize = 0;
            while i < nicks.len()
                invariant
                    i <= nicks@.len(),
                    nv == strings_view(nicks@),
                    nv == names_from(sv[3], 0),
                    n == sv.len(),
                    n >= 4,
                    sv == strings_view(ps@),
                    expected == nv.map_values(
                        |x: Seq<char>|
                            EffectV::AddNick {
                                nick: x,
                                target: TargetV::Chan { serv: serv@, chan: sv[2] },
                                timestamped: false,
                            },
                    ),
                    effects_view(r@) == expected.take(i as int),
                decreases nicks@.len() - i,
            {
                let ghost before = effects_view(r@);
                assert(nv[i as int] == nicks@[i as int]@);
                assert(expected[i as int] == (EffectV::AddNick {
                    nick: nv[i as int],
                    target: TargetV::Chan { serv: serv@, chan: sv[2] },
                    timestamped: false,
                }));
                assert(sv[2] == ps@[2]@);
                r.push(
                    Effect::AddNick {
                        nick: nicks[i].clone(),
                        target: MsgTarget::Chan { serv_name: serv.clone(), chan_name: ps[2].clone() },
                        timestamped: false,
                    },
                );
                assert(effects_view(r@) =~= before.push(expected[i as int]));
                assert(expected.take(i + 1) =~= expected.take(i as int).push(expected[i as int]));
                i = i + 1;
            }
            assert(expected.take(i as int) =~= expected);
            r
        } else {
            debug_effect("Names reply with unexpected parameters")
        }
    } else if num == 433 {
        if n >= 2 {
            let quoted = debug_quoted(ps[1].as_str());
            nick_in_use_effect(serv, quoted.as_str())
        } else {
            server_effect(lit("Nick already in use"), serv, MsgKind::Error)
        }
    } else if num == 366 {
        let r: Vec<Effect> = Vec::new();
        assert(effects_view(r@) =~= Seq::<EffectV>::empty());
        r
    } else {
        debug_effect("Ignoring numeric reply")
    }
}

/// What a message does, received on server `serv` by a user called `our`.
pub fn interpret(serv: &String, our: &String, msg: &Msg) -> (r: Vec<Effect>)
    ensures
        effects_view(r@) == effects_of(serv@, our@, msg@),
{
    let pfx = match &msg.pfx {
        None => {
            return debug_effect("Ignoring message without a prefix");
        },
        Some(p) => p,
    };
    match &msg.cmd {
        Cmd::PRIVMSG { receivers, contents } => {
            let sender = match pfx {
                Pfx::Server(_) => serv.clone(),
                Pfx::User { nick, .. } => nick.clone(),
            };
            match receivers {
                Receiver::Chan(chan) => two(
                    Effect::Log {
                        serv_name: serv.clone(),
                        chan_name: chan.clone(),
                        line: cat("PRIVMSG: ", contents.as_str()),
                    },
                    Effect::Privmsg {
                        sender,
                        text: contents.clone(),
                        target: MsgTarget::Chan { serv_name: serv.clone(), chan_name: chan.clone() },
                    },
                ),
                Receiver::User(_) => one(
                    Effect::Privmsg {
                        sender,
                        text: contents.clone(),
                        target: pfx_to_target(pfx, serv),
                    },
                ),
            }
        },
        Cmd::JOIN { chan } => match pfx {
            Pfx::Server(_) => debug_effect("Ignoring JOIN from a server"),
            Pfx::User { nick, .. } => {
                let log = Effect::Log {
                    serv_name: serv.clone(),
                    chan_name: chan.clone(),
                    line: cat("JOIN: ", nick.as_str()),
                };
                if *nick == *our {
                    two(log, Effect::NewChanTab { serv_name: serv.clone(), chan_name: chan.clone() })
                } else {
                    two(
                        log,
                        Effect::AddNick {
                            nick: nick.clone(),
                            target: MsgTarget::Chan {
                                serv_name: serv.clone(),
                                chan_name: chan.clone(),
                            },
                            timestamped: true,
                        },
                    )
                }
            },
        },
        Cmd::PART { chan, .. } => match pfx {
            Pfx::Server(_) => debug_effect("Ignoring PART from a server"),
            Pfx::User { nick, .. } => two(
                Effect::Log {
                    serv_name: serv.clone(),
                    chan_name: chan.clone(),
                    line: cat("PART: ", nick.as_str()),
                },
                Effect::RemoveNick {
                    nick: nick.clone(),
                    target: MsgTarget::Chan { serv_name: serv.clone(), chan_name: chan.clone() },
                    timestamped: true,
                },
            ),
        },
        Cmd::QUIT { .. } => match pfx {
            Pfx::Server(_) => debug_effect("Ignoring QUIT from a server"),
            Pfx::User { nick, .. } => one(
                Effect::RemoveNick {
                    nick: nick.clone(),
                    target: MsgTarget::AllUserTabs { serv_name: serv.clone(), nick: nick.clone() },
                    timestamped: true,
                },
            ),
        },
        Cmd::NOTICE { nick, msg } => {
            let star = lit("*");
            if *nick == star || *nick == *our {
                one(
                    Effect::Show {
                        text: msg.clone(),
                        target: pfx_to_target(pfx, serv),
                        kind: MsgKind::Plain,
                    },
                )
            } else {
                debug_effect("Ignoring NOTICE to another nick")
            }
        },
        Cmd::NICK { nick: new_nick } => match pfx {
            Pfx::Server(_) => debug_effect("Ignoring NICK from a server"),
            Pfx::User { nick, .. } => one(
                Effect::RenameNick {
                    old_nick: nick.clone(),
                    new_nick: new_nick.clone(),
                    target: MsgTarget::AllUserTabs { serv_name: serv.clone(), nick: nick.clone() },
                    timestamped: true,
                },
            ),
        },
        Cmd::Reply { num, params } => interpret_reply(serv, *num, params),
        Cmd::Other { .. } => debug_effect("Ignoring message"),
    }
}

// ---------------------------------------------------------------------------
// User input
/// The words of `s[i..]`, separated by white space.
pub open spec fn words_from(s: Seq<char>, i: int) -> Seq<Seq<char>>
    decreases s.len() - i,
{
    if i < 0 || i >= s.len() {
        Seq::empty()
    } else if white(s[i]) {
        words_from(s, i + 1)
    } else if white_from(s, i) <= i || white_from(s, i) > s.len() {
        Seq::empty()
    } else {
        seq![s.subrange(i, white_from(s, i))] + words_from(s, white_from(s, i))
    }
}

/// The words of a command line.
pub fn words(s: &str) -> (r: Vec<String>)
    ensures
        strings_view(r@) == words_from(s@, 0),
{
    let v = chars_of(s);
    let ghost t = v@;
    let n = v.len();
    let mut r: Vec<String> = Vec::new();
    let mut i: usize = 0;
    while i < n
        invariant
            t == v@,
            t == s@,
            n == t.len(),
            i <= n,
            strings_view(r@) + words_from(t, i as int) == words_from(t, 0),
        decreases n - i,
    {
        if is_white(v[i]) {
            i = i + 1;
        } else {
            let mut e = i;
            while e < n && !is_white(v[e])
                invariant
                    i <= e <= n,
                    n == t.len(),
                    t == v@,
                    white_from(t, i as int) == white_from(t, e as int),
                decreases n - e,
            {
                e = e + 1;
            }
            proof {
                lemma_white_from(t, i as int);
            }
            let w = string_of(&v, i, e);
            let ghost before = strings_view(r@);
            r.push(w);
            assert(strings_view(r@) =~= before.push(w@));
            assert(words_from(t, i as int) =~= seq![w@] + words_from(t, e as int));
            assert(before + words_from(t, i as int) =~= strings_view(r@) + words_from(t, e as int));
            i = e;
        }
    }
    assert(words_from(t, i as int) =~= Seq::<Seq<char>>::empty());
    assert(strings_view(r@) =~= strings_view(r@) + words_from(t, i as int));
    r
}

/// The number that decimal digits stand for.
pub open spec fn digits_value(d: Seq<char>) -> int
    decreases d.len(),
{
    if d.len() == 0 {
        0
    } else {
        digits_value(d.drop_last()) * 10 + crate::wire::digit(d.last())
    }
}

/// The host of a `host:port` address: text before the last `:`, not empty,
/// with a port of one to five decimal digits up to 65535 after it.
pub open spec fn host_of(addr: Seq<char>) -> Option<Seq<char>> {
    let c = last_colon(addr, addr.len() as int);
    let port = addr.subrange(c + 1, addr.len() as int);
    if c < 0 || c == 0 || port.len() == 0 || port.len() > 5 || (exists|k: int|
        0 <= k < port.len() && !crate::wire::is_digit(#[trigger] port[k])) || digits_value(port)
        > 65535 {
        None
    } else {
        Some(addr.subrange(0, c))
    }
}

/// Last position before `end` that holds `:`, or -1.
pub open spec fn last_colon(s: Seq<char>, end: int) -> int
    decreases end,
{
    if end <= 0 || end > s.len() {
        -1
    } else if s[end - 1] == ':' {
        end - 1
    } else {
        last_colon(s, end - 1)
    }
}

/// The server name of an address, when it has the form `host:port`.
pub fn drop_port(addr: &str) -> (r: Option<String>)
    ensures
        match r {
            Some(h) => host_of(addr@) == Some(h@),
            None => host_of(addr@) is None,
        },
{
    let v = chars_of(addr);
    let n = v.len();
    let mut end = n;
    while end > 0 && v[end - 1] != ':'
        invariant
            end <= n,
            n == v@.len(),
            v@ == addr@,
            last_colon(v@, n as int) == last_colon(v@, end as int),
        decreases end,
    {
        end = end - 1;
    }
    if end <= 1 {
        return None;
    }
    let c = end - 1;
    let ghost port = v@.subrange(c + 1, n as int);
    assert(last_colon(addr@, addr@.len() as int) == c);
    if n - (c + 1) == 0 || n - (c + 1) > 5 {
        return None;
    }
    let mut k = c + 1;
    let mut value: u32 = 0;
    while k < n
        invariant
            c + 1 <= k <= n,
            n - (c + 1) <= 5,
            n == v@.len(),
            v@ == addr@,
            c == last_colon(addr@, addr@.len() as int),
            port == v@.subrange(c + 1, n as int),
            forall|j: int| 0 <= j < k - (c + 1) ==> crate::wire::is_digit(#[trigger] port[j]),
            value == digits_value(port.take(k - (c + 1))),
            value < 100000 && (k - (c + 1) <= 4 ==> value < 10000) && (k - (c + 1) <= 3 ==> value
                < 1000) && (k - (c + 1) <= 2 ==> value < 100) && (k - (c + 1) <= 1 ==> value < 10)
                && (k - (c + 1) == 0 ==> value == 0),
        decreases n - k,
    {
        if !('0' <= v[k] && v[k] <= '9') {
            let ghost j = k - (c + 1);
            assert(addr@.subrange(c + 1, addr@.len() as int)[j] == v@[k as int]);
            assert(!crate::wire::is_digit(addr@.subrange(c + 1, addr@.len() as int)[j]));
            return None;
        }
        let ghost i = k - (c + 1);
        assert(port.take(i + 1).drop_last() =~= port.take(i));
        assert(port.take(i + 1).last() == v@[k as int]);
        value = value * 10 + (v[k] as u32 - '0' as u32);
        k = k + 1;
    }
    assert(port.take(n - (c + 1)) =~= port);
    if value > 65535 {
        return None;
    }
    Some(string_of(&v, 0, c))
}

// ---------------------------------------------------------------------------
// The session
/// Effects of the messages `ms`, one message after the other.
pub open spec fn all_effects(serv: Seq<char>, our: Seq<char>, ms: Seq<MsgV>) -> Seq<EffectV>
    decreases ms.len(),
{
    if ms.len() == 0 {
        Seq::empty()
    } else {
        all_effects(serv, our, ms.drop_last()) + effects_of(serv, our, ms.last())
    }
}

/// The live connections and who we are.
pub struct Session {
    conns: Vec<Conn>,
    nick: String,
    hostname: String,
    realname: String,
}

impl Session {
    pub closed spec fn conns(&self) -> Seq<ConnView> {
        self.conns@.map_values(|c: Conn| c@)
    }

    pub closed spec fn nick_spec(&self) -> Seq<char> {
        self.nick@
    }

    pub closed spec fn hostname_spec(&self) -> Seq<char> {
        self.hostname@
    }

    pub closed spec fn realname_spec(&self) -> Seq<char> {
        self.realname@
    }

    /// Who we are: nick, host name and real name.
    pub open spec fn user_spec(&self) -> (Seq<char>, Seq<char>, Seq<char>) {
        (self.nick_spec(), self.hostname_spec(), self.realname_spec())
    }

    /// At most one connection per server name and per socket.
    pub open spec fn wf(&self) -> bool {
        &&& forall|i: int, j: int|
            0 <= i < j < self.conns().len() ==> #[trigger] self.conns()[i].serv_name
                != #[trigger] self.conns()[j].serv_name
        &&& forall|i: int, j: int|
            0 <= i < j < self.conns().len() ==> #[trigger] self.conns()[i].socket
                != #[trigger] self.conns()[j].socket
    }

    /// Index of the connection to the server called `name`.
    pub open spec fn index_of_serv(&self, name: Seq<char>) -> Option<int> {
        if exists|i: int| 0 <= i < self.conns().len() && #[trigger] self.conns()[i].serv_name == name {
            Some(choose|i: int| 0 <= i < self.conns().len() && #[trigger] self.conns()[i].serv_name == name)
        } else {
            None
        }
    }

    pub fn new(nick: &str, hostname: &str, realname: &str) -> (r: Session)
        ensures
            r.wf(),
            r.conns().len() == 0,
            r.nick_spec() == nick@,
            r.hostname_spec() == hostname@,
            r.realname_spec() == realname@,
    {
        let r = Session {
            conns: Vec::new(),
            nick: String::from_str(nick),
            hostname: String::from_str(hostname),
            realname: String::from_str(realname),
        };
        assert(r.conns() =~= Seq::<ConnView>::empty());
        r
    }

    pub fn num_conns(&self) -> (r: usize)
        ensures
            r == self.conns().len(),
    {
        self.conns.len()
    }

    pub fn conn(&self, i: usize) -> (r: &Conn)
        requires
            i < self.conns().len(),
        ensures
            r@ == self.conns()[i as int],
    {
        &self.conns[i]
    }

    /// The connection to the server called `serv_name`.
    pub fn find_conn(&self, serv_name: &str) -> (r: Option<usize>)
        ensures
            match r {
                Some(i) => i < self.conns().len() && self.conns()[i as int].serv_name == serv_name@,
                None => forall|i: int|
                    0 <= i < self.conns().len() ==> #[trigger] self.conns()[i].serv_name
                        != serv_name@,
            },
    {
        let mut i: usize = 0;
        while i < self.conns.len()
            invariant
                i <= self.conns@.len(),
                forall|k: int| 0 <= k < i ==> #[trigger] self.conns()[k].serv_name != serv_name@,
            decreases self.conns@.len() - i,
        {
            if crate::utils::str_eq(self.conns[i].serv_name().as_str(), serv_name) {
                return Some(i);
            }
            i = i + 1;
        }
        None
    }

    /// The connection that uses `socket`.
    pub fn find_fd_conn(&self, socket: u64) -> (r: Option<usize>)
        ensures
            match r {
                Some(i) => i < self.conns().len() && self.conns()[i as int].socket == socket,
                None => forall|i: int|
                    0 <= i < self.conns().len() ==> #[trigger] self.conns()[i].socket != socket,
            },
    {
        let mut i: usize = 0;
        while i < self.conns.len()
            invariant
                i <= self.conns@.len(),
                forall|k: int| 0 <= k < i ==> #[trigger] self.conns()[k].socket != socket,
            decreases self.conns@.len() - i,
        {
            if self.conns[i].socket() == socket {
                return Some(i);
            }
            i = i + 1;
        }
        None
    }
}

/// An error of the client's own, shown in the current tab.
pub open spec fn client_err(text: Seq<char>) -> Seq<EffectV> {
    seq![EffectV::Show { text, target: TargetV::CurrentTab, kind: MsgKind::ClientErr }]
}

/// What an event for a socket that no connection uses does.
pub open spec fn unknown_socket(socket: u64) -> Seq<EffectV> {
    seq![EffectV::Debug { line: "Event for an unknown socket"@ }, EffectV::Deregister { socket }]
}

/// A connection with `bytes` queued for sending.
pub open spec fn queued(c: ConnView, bytes: Seq<u8>) -> ConnView {
    ConnView { out_buf: c.out_buf + bytes, ..c }
}

fn client_err_effect(text: String) -> (r: Vec<Effect>)
    ensures
        effects_view(r@) == client_err(text@),
{
    one(Effect::Show { text, target: MsgTarget::CurrentTab, kind: MsgKind::ClientErr })
}

fn unknown_socket_effect(socket: u64) -> (r: Vec<Effect>)
    ensures
        effects_view(r@) == unknown_socket(socket),
{
    two(Effect::Debug { line: lit("Event for an unknown socket") }, Effect::Deregister { socket })
}

impl Session {
    /// Takes the connection at `i` out, leaving a placeholder.
    fn take_conn(&mut self, i: usize) -> (r: Conn)
        requires
            i < old(self).conns().len(),
        ensures
            r@ == old(self).conns()[i as int],
            final(self).conns().len() == old(self).conns().len(),
            forall|k: int|
                0 <= k < old(self).conns().len() && k != i ==> final(self).conns()[k] == old(
                    self,
                ).conns()[k],
            final(self).user_spec() == old(self).user_spec(),
    {
        let mut c = Conn::new("", "", "", "", "", 0);
        self.conns.set_and_swap(i, &mut c);
        c
    }

    /// Puts a connection back at `i`.
    fn put_conn(&mut self, i: usize, c: Conn)
        requires
            i < old(self).conns().len(),
        ensures
            final(self).conns() == old(self).conns().update(i as int, c@),
            final(self).user_spec() == old(self).user_spec(),
    {
        let mut c = c;
        self.conns.set_and_swap(i, &mut c);
        assert(self.conns() =~= old(self).conns().update(i as int, self.conns@[i as int]@));
    }

    /// Adds a connection to `serv_name` at `serv_addr` that uses `socket`,
    /// and asks for its tab and for read and write readiness of the socket.
    /// A second connection to the same server is refused.
    pub fn register_connection(&mut self, serv_addr: &str, serv_name: &str, socket: u64) -> (r: Vec<
        Effect,
    >)
        requires
            old(self).wf(),
        ensures
            final(self).wf(),
            final(self).user_spec() == old(self).user_spec(),
            (exists|i: int|
                0 <= i < old(self).conns().len() && #[trigger] old(self).conns()[i].serv_name
                    == serv_name@) ==> final(self).conns() == old(self).conns() && effects_view(r@)
                == client_err("Already connected to "@ + serv_name@),
            (forall|i: int|
                0 <= i < old(self).conns().len() ==> #[trigger] old(self).conns()[i].serv_name
                    != serv_name@) && (exists|i: int|
                0 <= i < old(self).conns().len() && #[trigger] old(self).conns()[i].socket
                    == socket) ==> final(self).conns() == old(self).conns() && effects_view(r@)
                == seq![EffectV::Debug { line: "Socket already in use"@ }],
            (forall|i: int|
                0 <= i < old(self).conns().len() ==> #[trigger] old(self).conns()[i].serv_name
                    != serv_name@ && old(self).conns()[i].socket != socket) ==> {
                &&& final(self).conns().len() == old(self).conns().len() + 1
                &&& final(self).conns().drop_last() == old(self).conns()
                &&& final(self).conns().last().serv_addr == serv_addr@
                &&& final(self).conns().last().serv_name == serv_name@
                &&& final(self).conns().last().nick == old(self).nick_spec()
                &&& final(self).conns().last().hostname == old(self).hostname_spec()
                &&& final(self).conns().last().realname == old(self).realname_spec()
                &&& final(self).conns().last().socket == socket
                &&& final(self).conns().last().phase == crate::conn::Phase::Connecting
                &&& final(self).conns().last().in_buf.len() == 0
                &&& final(self).conns().last().out_buf.len() == 0
                &&& effects_view(r@) == seq![
                    EffectV::NewServerTab { serv: serv_name@ },
                    EffectV::CloseServerTab { serv: Seq::empty() },
                    EffectV::Show {
                        text: "Connecting..."@,
                        target: TargetV::Server { serv: serv_name@ },
                        kind: MsgKind::Client,
                    },
                    EffectV::Register { socket, interest: Interest::ReadWrite },
                ]
            },
    {
        if let Some(_) = self.find_conn(serv_name) {
            return client_err_effect(cat("Already connected to ", serv_name));
        }
        if let Some(j) = self.find_fd_conn(socket) {
            assert(self.conns()[j as int].serv_name != serv_name@);
            return one(Effect::Debug { line: lit("Socket already in use") });
        }
        let c = Conn::new(serv_addr, serv_name, self.nick.as_str(), self.hostname.as_str(),
            self.realname.as_str(), socket);
        let ghost before = self.conns();
        self.conns.push(c);
        assert(self.conns() =~= before.push(c@));
        assert(self.conns().drop_last() =~= before);
        let mut r: Vec<Effect> = Vec::new();
        r.push(Effect::NewServerTab { serv_name: lit(serv_name) });
        r.push(Effect::CloseServerTab { serv_name: String::new() });
        r.push(
            Effect::Show {
                text: lit("Connecting..."),
                target: MsgTarget::Server { serv_name: lit(serv_name) },
                kind: MsgKind::Client,
            },
        );
        r.push(Effect::Register { socket, interest: Interest::ReadWrite });
        assert(effects_view(r@) =~= seq![
            EffectV::NewServerTab { serv: serv_name@ },
            EffectV::CloseServerTab { serv: Seq::empty() },
            EffectV::Show {
                text: "Connecting..."@,
                target: TargetV::Server { serv: serv_name@ },
                kind: MsgKind::Client,
            },
            EffectV::Register { socket, interest: Interest::ReadWrite },
        ]);
        r
    }

    /// Drops the connection on `socket` after an error it cannot recover
    /// from: the error goes to its server tab and the socket is no longer
    /// watched.
    pub fn handle_fatal(&mut self, socket: u64, detail: &str) -> (r: Vec<Effect>)
        requires
            old(self).wf(),
        ensures
            final(self).wf(),
            final(self).user_spec() == old(self).user_spec(),
            (forall|i: int|
                0 <= i < old(self).conns().len() ==> #[trigger] old(self).conns()[i].socket
                    != socket) ==> final(self).conns() == old(self).conns() && effects_view(r@)
                == unknown_socket(socket),
            forall|i: int|
                0 <= i < old(self).conns().len() && #[trigger] old(self).conns()[i].socket
                    == socket ==> final(self).conns() == old(self).conns().remove(i)
                    && effects_view(r@) == seq![
                    EffectV::Show {
                        text: detail@,
                        target: TargetV::Server { serv: old(self).conns()[i].serv_name },
                        kind: MsgKind::Error,
                    },
                    EffectV::Deregister { socket },
                ],
    {
        match self.find_fd_conn(socket) {
            None => unknown_socket_effect(socket),
            Some(i) => {
                let ghost before = self.conns();
                let c = self.conns.remove(i);
                assert(self.conns() =~= before.remove(i as int));
                two(
                    Effect::Show {
                        text: lit(detail),
                        target: MsgTarget::Server { serv_name: c.serv_name().clone() },
                        kind: MsgKind::Error,
                    },
                    Effect::Deregister { socket },
                )
            },
        }
    }

    /// Takes one step of the handshake of the connection on `socket` into
    /// account, and asks for write readiness only while the negotiation
    /// waits to write. A failed negotiation drops the connection, with
    /// `detail` shown on its server tab.
    pub fn on_handshake(
        &mut self,
        socket: u64,
        status: crate::conn::HandshakeStatus,
        detail: &str,
    ) -> (r: Vec<Effect>)
        requires
            old(self).wf(),
        ensures
            final(self).wf(),
            final(self).user_spec() == old(self).user_spec(),
            (forall|i: int|
                0 <= i < old(self).conns().len() ==> #[trigger] old(self).conns()[i].socket
                    != socket) ==> final(self).conns() == old(self).conns() && effects_view(r@)
                == unknown_socket(socket),
            forall|i: int|
                0 <= i < old(self).conns().len() && #[trigger] old(self).conns()[i].socket
                    == socket ==> if status == crate::conn::HandshakeStatus::Failed {
                    final(self).conns() == old(self).conns().remove(i) && effects_view(r@) == seq![
                        EffectV::Show {
                            text: detail@,
                            target: TargetV::Server { serv: old(self).conns()[i].serv_name },
                            kind: MsgKind::Error,
                        },
                        EffectV::Deregister { socket },
                    ]
                } else {
                    &&& final(self).conns().len() == old(self).conns().len()
                    &&& forall|k: int|
                        0 <= k < old(self).conns().len() && k != i ==> final(self).conns()[k]
                            == old(self).conns()[k]
                    &&& crate::conn::same_identity(final(self).conns()[i], old(self).conns()[i])
                    &&& final(self).conns()[i].socket == socket
                    &&& final(self).conns()[i].phase == match status {
                        crate::conn::HandshakeStatus::WantRead => crate::conn::Phase::Handshaking(
                            crate::conn::Want::Read,
                        ),
                        crate::conn::HandshakeStatus::WantWrite => crate::conn::Phase::Handshaking(
                            crate::conn::Want::Write,
                        ),
                        _ => crate::conn::Phase::Established,
                    }
                    &&& effects_view(r@) == seq![
                        EffectV::SetInterest {
                            socket,
                            interest: if status == crate::conn::HandshakeStatus::WantWrite {
                                Interest::ReadWrite
                            } else {
                                Interest::Read
                            },
                        },
                    ]
                },
    {
        match self.find_fd_conn(socket) {
            None => unknown_socket_effect(socket),
            Some(i) => {
                if status == crate::conn::HandshakeStatus::Failed {
                    return self.handle_fatal(socket, detail);
                }
                let mut c = self.take_conn(i);
                let step = c.advance_handshake(status);
                self.put_conn(i, c);
                let interest = if step == crate::conn::Step::WantWrite {
                    Interest::ReadWrite
                } else {
                    Interest::Read
                };
                one(Effect::SetInterest { socket, interest })
            },
        }
    }
}

impl Session {
    /// Hands the bytes of one read on `socket` to its connection, and turns
    /// the messages of the completed lines into effects, message after
    /// message in the order of the lines. Lines that do not decode are
    /// noted in the diagnostic log. Where the peer closed the connection, a
    /// reconnect is asked for last.
    pub fn on_read(&mut self, socket: u64, data: &[u8]) -> (r: Vec<Effect>)
        requires
            old(self).wf(),
        ensures
            final(self).wf(),
            final(self).user_spec() == old(self).user_spec(),
            (forall|i: int|
                0 <= i < old(self).conns().len() ==> #[trigger] old(self).conns()[i].socket
                    != socket) ==> final(self).conns() == old(self).conns() && effects_view(r@)
                == unknown_socket(socket),
            forall|i: int|
                0 <= i < old(self).conns().len() && #[trigger] old(self).conns()[i].socket
                    == socket ==> {
                    let c = old(self).conns()[i];
                    let buf = c.in_buf + data@;
                    let msgs = crate::conn::decoded(crate::conn::lines_from(buf, 0));
                    &&& final(self).conns() == old(self).conns().update(
                        i,
                        ConnView { in_buf: buf.skip(crate::conn::rest_start(buf, 0)), ..c },
                    )
                    &&& effects_view(r@) == all_effects(c.serv_name, old(self).nick_spec(), msgs)
                        + if crate::conn::undecodable(crate::conn::lines_from(buf, 0)) > 0 {
                        seq![EffectV::Debug { line: "Dropped lines that do not decode"@ }]
                    } else {
                        Seq::empty()
                    } + if data@.len() == 0 {
                        seq![EffectV::Reconnect { socket }]
                    } else {
                        Seq::empty()
                    }
                },
    {
        let i = match self.find_fd_conn(socket) {
            None => {
                return unknown_socket_effect(socket);
            },
            Some(i) => i,
        };
        let ghost old_c = self.conns()[i as int];
        let mut c = self.take_conn(i);
        let received = c.on_readable(data);
        let serv = c.serv_name().clone();
        assert(c@ == (ConnView { in_buf: c@.in_buf, ..old_c }));
        self.put_conn(i, c);
        assert(self.conns() =~= old(self).conns().update(i as int, self.conns()[i as int]));
        let ghost ms = crate::conn::msgs_view(received.msgs@);
        let mut r: Vec<Effect> = Vec::new();
        let mut k: usize = 0;
        while k < received.msgs.len()
            invariant
                k <= received.msgs@.len(),
                ms == crate::conn::msgs_view(received.msgs@),
                effects_view(r@) == all_effects(serv@, self.nick@, ms.take(k as int)),
            decreases received.msgs@.len() - k,
        {
            let es = interpret(&serv, &self.nick, &received.msgs[k]);
            let ghost before = effects_view(r@);
            let mut j: usize = 0;
            while j < es.len()
                invariant
                    j <= es@.len(),
                    effects_view(r@) == before + effects_view(es@).take(j as int),
                decreases es@.len() - j,
            {
                let ghost prev = effects_view(r@);
                let e = es[j].clone_effect();
                r.push(e);
                assert(effects_view(r@) =~= prev.push(e@));
                assert(effects_view(es@).take(j + 1) =~= effects_view(es@).take(j as int).push(
                    es@[j as int]@,
                ));
                j = j + 1;
                assert(effects_view(r@) =~= before + effects_view(es@).take(j as int));
            }
            assert(effects_view(es@).take(j as int) =~= effects_view(es@));
            assert(ms.take(k + 1).drop_last() =~= ms.take(k as int));
            k = k + 1;
        }
        assert(ms.take(k as int) =~= ms);
        let ghost after_msgs = effects_view(r@);
        if received.dropped > 0 {
            r.push(Effect::Debug { line: lit("Dropped lines that do not decode") });
            assert(effects_view(r@) =~= after_msgs + seq![
                EffectV::Debug { line: "Dropped lines that do not decode"@ },
            ]);
        } else {
            assert(effects_view(r@) =~= after_msgs + Seq::<EffectV>::empty());
        }
        if received.closed {
            let ghost before = effects_view(r@);
            r.push(Effect::Reconnect { socket });
            assert(effects_view(r@) =~= before + seq![EffectV::Reconnect { socket }]);
        } else {
            assert(effects_view(r@) =~= effects_view(r@) + Seq::<EffectV>::empty());
        }
        r
    }

    /// Moves the connection on `old_socket` over to `new_socket` after the
    /// peer closed it: the disconnection is shown on every tab of its
    /// server, the old socket stops being watched before the new one is,
    /// and the connection keeps its server, its identity and its place.
    pub fn handle_disconnect(&mut self, old_socket: u64, new_socket: u64) -> (r: Vec<Effect>)
        requires
            old(self).wf(),
        ensures
            final(self).wf(),
            final(self).user_spec() == old(self).user_spec(),
            final(self).conns().len() == old(self).conns().len(),
            forall|k: int|
                0 <= k < old(self).conns().len() ==> crate::conn::same_identity(
                    #[trigger] final(self).conns()[k],
                    old(self).conns()[k],
                ),
            (forall|i: int|
                0 <= i < old(self).conns().len() ==> #[trigger] old(self).conns()[i].socket
                    != old_socket) ==> final(self).conns() == old(self).conns() && effects_view(r@)
                == unknown_socket(old_socket),
            forall|i: int|
                0 <= i < old(self).conns().len() && #[trigger] old(self).conns()[i].socket
                    == old_socket ==> {
                    let serv = old(self).conns()[i].serv_name;
                    if exists|j: int|
                        0 <= j < old(self).conns().len() && j != i && #[trigger] old(
                            self,
                        ).conns()[j].socket == new_socket {
                        final(self).conns() == old(self).conns() && effects_view(r@) == seq![
                            EffectV::Debug { line: "Socket already in use"@ },
                        ]
                    } else {
                        &&& forall|k: int|
                            0 <= k < old(self).conns().len() && k != i ==> final(self).conns()[k]
                                == old(self).conns()[k]
                        &&& final(self).conns()[i].socket == new_socket
                        &&& final(self).conns()[i].phase == crate::conn::Phase::Connecting
                        &&& final(self).conns()[i].in_buf.len() == 0
                        &&& final(self).conns()[i].out_buf.len() == 0
                        &&& effects_view(r@) == seq![
                            EffectV::Show {
                                text: "Disconnected."@,
                                target: TargetV::AllServTabs { serv },
                                kind: MsgKind::Error,
                            },
                            EffectV::Deregister { socket: old_socket },
                            EffectV::Show {
                                text: "Connecting..."@,
                                target: TargetV::Server { serv },
                                kind: MsgKind::Client,
                            },
                            EffectV::Register { socket: new_socket, interest: Interest::ReadWrite },
                        ]
                    }
                },
    {
        let i = match self.find_fd_conn(old_socket) {
            None => {
                return unknown_socket_effect(old_socket);
            },
            Some(i) => i,
        };
        let mut j: usize = 0;
        while j < self.conns.len()
            invariant
                j <= self.conns@.len(),
                i < self.conns@.len(),
                *self == *old(self),
                self.wf(),
                self.conns()[i as int].socket == old_socket,
                forall|k: int|
                    0 <= k < j && k != i ==> #[trigger] self.conns()[k].socket != new_socket,
            decreases self.conns@.len() - j,
        {
            if j != i && self.conns[j].socket() == new_socket {
                assert(self.conns()[i as int].socket == old_socket);
                assert(old(self).conns()[j as int].socket == new_socket);
                return one(Effect::Debug { line: lit("Socket already in use") });
            }
            j = j + 1;
        }
        let mut c = self.take_conn(i);
        let serv = c.serv_name().clone();
        c.reconnect(new_socket);
        self.put_conn(i, c);
        let mut r: Vec<Effect> = Vec::new();
        r.push(
            Effect::Show {
                text: lit("Disconnected."),
                target: MsgTarget::AllServTabs { serv_name: serv.clone() },
                kind: MsgKind::Error,
            },
        );
        r.push(Effect::Deregister { socket: old_socket });
        r.push(
            Effect::Show {
                text: lit("Connecting..."),
                target: MsgTarget::Server { serv_name: serv.clone() },
                kind: MsgKind::Client,
            },
        );
        r.push(Effect::Register { socket: new_socket, interest: Interest::ReadWrite });
        let ghost sv = serv@;
        assert(effects_view(r@) =~= seq![
            EffectV::Show {
                text: "Disconnected."@,
                target: TargetV::AllServTabs { serv: sv },
                kind: MsgKind::Error,
            },
            EffectV::Deregister { socket: old_socket },
            EffectV::Show {
                text: "Connecting..."@,
                target: TargetV::Server { serv: sv },
                kind: MsgKind::Client,
            },
            EffectV::Register { socket: new_socket, interest: Interest::ReadWrite },
        ]);
        r
    }

    /// Bytes waiting to be sent on `socket`.
    pub fn outgoing(&self, socket: u64) -> (r: Option<&Vec<u8>>)
        ensures
            match r {
                Some(b) => exists|i: int|
                    0 <= i < self.conns().len() && #[trigger] self.conns()[i].socket == socket
                        && b@ == self.conns()[i].out_buf,
                None => forall|i: int|
                    0 <= i < self.conns().len() ==> #[trigger] self.conns()[i].socket != socket,
            },
    {
        match self.find_fd_conn(socket) {
            None => None,
            Some(i) => Some(self.conns[i].outgoing()),
        }
    }

    /// Takes note that `socket` accepted the first `n` waiting bytes; the
    /// rest waits, in order. Returns whether a connection uses `socket`
    /// and had that many bytes waiting.
    pub fn on_written(&mut self, socket: u64, n: usize) -> (r: bool)
        requires
            old(self).wf(),
        ensures
            final(self).wf(),
            final(self).user_spec() == old(self).user_spec(),
            r == exists|i: int|
                0 <= i < old(self).conns().len() && #[trigger] old(self).conns()[i].socket == socket
                    && n <= old(self).conns()[i].out_buf.len(),
            !r ==> final(self).conns() == old(self).conns(),
            forall|i: int|
                0 <= i < old(self).conns().len() && #[trigger] old(self).conns()[i].socket == socket
                    && n <= old(self).conns()[i].out_buf.len() ==> final(self).conns() == old(
                    self,
                ).conns().update(
                    i,
                    ConnView {
                        out_buf: old(self).conns()[i].out_buf.skip(n as int),
                        ..old(self).conns()[i]
                    },
                ),
    {
        match self.find_fd_conn(socket) {
            None => false,
            Some(i) => {
                if n > self.conns[i].outgoing().len() {
                    return false;
                }
                let ghost old_c = self.conns()[i as int];
                let mut c = self.take_conn(i);
                c.on_written(n);
                assert(c@ == (ConnView { out_buf: old_c.out_buf.skip(n as int), ..old_c }));
                self.put_conn(i, c);
                true
            },
        }
    }
}

impl Effect {
    pub fn clone_effect(&self) -> (r: Effect)
        ensures
            r@ == self@,
    {
        match self {
            Effect::Show { text, target, kind } => Effect::Show {
                text: text.clone(),
                target: target.clone_target(),
                kind: *kind,
            },
            Effect::Privmsg { sender, text, target } => Effect::Privmsg {
                sender: sender.clone(),
                text: text.clone(),
                target: target.clone_target(),
            },
            Effect::NewServerTab { serv_name } => Effect::NewServerTab { serv_name: serv_name.clone() },
            Effect::CloseServerTab { serv_name } => Effect::CloseServerTab {
                serv_name: serv_name.clone(),
            },
            Effect::NewChanTab { serv_name, chan_name } => Effect::NewChanTab {
                serv_name: serv_name.clone(),
                chan_name: chan_name.clone(),
            },
            Effect::AddNick { nick, target, timestamped } => Effect::AddNick {
                nick: nick.clone(),
                target: target.clone_target(),
                timestamped: *timestamped,
            },
            Effect::RemoveNick { nick, target, timestamped } => Effect::RemoveNick {
                nick: nick.clone(),
                target: target.clone_target(),
                timestamped: *timestamped,
            },
            Effect::RenameNick { old_nick, new_nick, target, timestamped } => Effect::RenameNick {
                old_nick: old_nick.clone(),
                new_nick: new_nick.clone(),
                target: target.clone_target(),
                timestamped: *timestamped,
            },
            Effect::ShowTopic { topic, target } => Effect::ShowTopic {
                topic: topic.clone(),
                target: target.clone_target(),
            },
            Effect::Log { serv_name, chan_name, line } => Effect::Log {
                serv_name: serv_name.clone(),
                chan_name: chan_name.clone(),
                line: line.clone(),
            },
            Effect::Debug { line } => Effect::Debug { line: line.clone() },
            Effect::Connect { serv_addr, serv_name } => Effect::Connect {
                serv_addr: serv_addr.clone(),
                serv_name: serv_name.clone(),
            },
            Effect::Register { socket, interest } => Effect::Register {
                socket: *socket,
                interest: *interest,
            },
            Effect::SetInterest { socket, interest } => Effect::SetInterest {
                socket: *socket,
                interest: *interest,
            },
            Effect::Deregister { socket } => Effect::Deregister { socket: *socket },
            Effect::Reconnect { socket } => Effect::Reconnect { socket: *socket },
            Effect::Quit => Effect::Quit,
        }
    }
}

/// What running the command line `cmd` typed into `src` does: how the
/// connections go from `pre` to `new`, and the effects `r`.
pub open spec fn command_done(
    pre: Session,
    post: Session,
    src: MsgSource,
    cmd: Seq<char>,
    r: Seq<EffectV>,
) -> bool {
    ({
        let ws = words_from(cmd, 0);
        let serv = src.serv_spec();
        if ws.len() == 0 {
            post.conns() == pre.conns() && r == client_err(
                "Unsupported command: "@,
            )
        } else if ws[0] == "connect"@ {
            post.conns() == pre.conns() && r == if ws.len()
                >= 2 && host_of(ws[1]) is Some {
                seq![EffectV::Connect { addr: ws[1], serv: host_of(ws[1])->Some_0 }]
            } else {
                client_err("connect: Need a <host>:<port>"@)
            }
        } else if ws[0] == "join"@ {
            if ws.len() < 2 {
                post.conns() == pre.conns() && r == client_err(
                    "join: Need a channel"@,
                )
            } else if forall|i: int|
                0 <= i < pre.conns().len() ==> #[trigger] pre.conns()[i].serv_name != serv {
                post.conns() == pre.conns() && r == client_err(
                    "Can't JOIN: Not connected to server "@ + serv,
                )
            } else {
                forall|i: int|
                    0 <= i < pre.conns().len() && #[trigger] pre.conns()[i].serv_name == serv ==> match crate::wire::join_spec(ws[1]) {
                        Ok(line) => post.conns() == pre.conns().update(
                            i,
                            queued(pre.conns()[i], vstd::utf8::encode_utf8(line)),
                        ) && r == Seq::<EffectV>::empty(),
                        Err(_) => post.conns() == pre.conns()
                            && r == client_err(
                            "Can't JOIN: invalid channel name"@,
                        ),
                    }
            }
        } else if ws[0] == "quit"@ {
            post.conns() == pre.conns() && r == seq![
                EffectV::Quit,
            ]
        } else {
            post.conns() == pre.conns() && r == client_err(
                "Unsupported command: "@ + ws[0],
            )
        }
    })
}

/// What sending the text `text` typed into `src` does: how the connections
/// go from `pre` to `new`, and the effects `r`.
pub open spec fn send_done(
    pre: Session,
    post: Session,
    src: MsgSource,
    text: Seq<char>,
    r: Seq<EffectV>,
) -> bool {
    match src {
        MsgSource::Serv { serv_name } => post.conns() == pre.conns()
            && r == client_err(
            if serv_name@.len() == 0 {
                "Use `/connect <server>` to connect to a server"@
            } else {
                "Can't send PRIVMSG to a server."@
            },
        ),
        _ => {
            let serv = src.serv_spec();
            let (to, target) = match src {
                MsgSource::Chan { serv_name, chan_name } => (
                    chan_name@,
                    TargetV::Chan { serv: serv_name@, chan: chan_name@ },
                ),
                MsgSource::User { serv_name, nick } => (
                    nick@,
                    TargetV::User { serv: serv_name@, nick: nick@ },
                ),
                _ => (Seq::empty(), TargetV::CurrentTab),
            };
            &&& (forall|i: int|
                0 <= i < pre.conns().len() ==> #[trigger] pre.conns()[i].serv_name != serv) ==> post.conns() == pre.conns()
                && r == client_err("Not connected to server "@ + serv)
            &&& forall|i: int|
                0 <= i < pre.conns().len() && #[trigger] pre.conns()[i].serv_name
                    == serv ==> match crate::wire::privmsg_spec(to, text) {
                    Ok(line) => post.conns() == pre.conns().update(
                        i,
                        queued(pre.conns()[i], vstd::utf8::encode_utf8(line)),
                    ) && r == seq![
                        EffectV::Privmsg {
                            sender: pre.nick_spec(),
                            text: text,
                            target,
                        },
                    ],
                    Err(_) => post.conns() == pre.conns() && r
                        == client_err("Can't send the message: invalid target or text"@),
                }
        },
    }
}

impl Session {
    /// Queues `line` on the connection at `i`.
    fn queue_on(&mut self, i: usize, line: &String)
        requires
            i < old(self).conns().len(),
            old(self).wf(),
        ensures
            final(self).wf(),
            final(self).user_spec() == old(self).user_spec(),
            final(self).conns() == old(self).conns().update(
                i as int,
                queued(old(self).conns()[i as int], vstd::utf8::encode_utf8(line@)),
            ),
    {
        let mut c = self.take_conn(i);
        c.queue(line.as_str());
        self.put_conn(i, c);
        assert(self.conns()[i as int].serv_name == old(self).conns()[i as int].serv_name);
    }

    /// Runs a command line, the text after the command prefix: `connect`
    /// with a `host:port` address asks to open a connection, `join` with a
    /// channel sends a join on the connection of the current tab's server,
    /// `quit` ends the program; anything else is an error in the current
    /// tab.
    pub fn handle_command(&mut self, src: &MsgSource, cmd: &str) -> (r: Vec<Effect>)
        requires
            old(self).wf(),
        ensures
            final(self).wf(),
            final(self).user_spec() == old(self).user_spec(),
            command_done(*old(self), *final(self), *src, cmd@, effects_view(r@)),
    {
        let ws = words(cmd);
        let ghost wv = strings_view(ws@);
        if ws.len() == 0 {
            return client_err_effect(lit("Unsupported command: "));
        }
        assert(wv[0] == ws@[0]@);
        let verb = ws[0].as_str();
        if crate::utils::str_eq(verb, "connect") {
            if ws.len() >= 2 {
                assert(wv[1] == ws@[1]@);
                match drop_port(ws[1].as_str()) {
                    Some(host) => {
                        return one(Effect::Connect { serv_addr: ws[1].clone(), serv_name: host });
                    },
                    None => {},
                }
            }
            client_err_effect(lit("connect: Need a <host>:<port>"))
        } else if crate::utils::str_eq(verb, "join") {
            if ws.len() < 2 {
                return client_err_effect(lit("join: Need a channel"));
            }
            assert(wv[1] == ws@[1]@);
            let serv = src.serv_name();
            match self.find_conn(serv.as_str()) {
                None => client_err_effect(cat("Can't JOIN: Not connected to server ", serv.as_str())),
                Some(i) => match crate::wire::join(ws[1].as_str()) {
                    Ok(line) => {
                        self.queue_on(i, &line);
                        let r: Vec<Effect> = Vec::new();
                        assert(effects_view(r@) =~= Seq::<EffectV>::empty());
                        r
                    },
                    Err(_) => client_err_effect(lit("Can't JOIN: invalid channel name")),
                },
            }
        } else if crate::utils::str_eq(verb, "quit") {
            one(Effect::Quit)
        } else {
            client_err_effect(cat("Unsupported command: ", verb))
        }
    }

    /// Sends text typed into a tab: to the channel of a channel tab, or to
    /// the nick of a conversation tab, where it is also shown as sent by us.
    /// A server tab has no one to send to.
    pub fn send_msg(&mut self, src: &MsgSource, text: &str) -> (r: Vec<Effect>)
        requires
            old(self).wf(),
        ensures
            final(self).wf(),
            final(self).user_spec() == old(self).user_spec(),
            send_done(*old(self), *final(self), *src, text@, effects_view(r@)),
    {
        let (serv, to, target) = match src {
            MsgSource::Serv { serv_name } => {
                if serv_name.as_str().unicode_len() == 0 {
                    return client_err_effect(lit("Use `/connect <server>` to connect to a server"));
                } else {
                    return client_err_effect(lit("Can't send PRIVMSG to a server."));
                }
            },
            MsgSource::Chan { serv_name, chan_name } => (
                serv_name,
                chan_name,
                MsgTarget::Chan { serv_name: serv_name.clone(), chan_name: chan_name.clone() },
            ),
            MsgSource::User { serv_name, nick } => (
                serv_name,
                nick,
                MsgTarget::User { serv_name: serv_name.clone(), nick: nick.clone() },
            ),
        };
        match self.find_conn(serv.as_str()) {
            None => client_err_effect(cat("Not connected to server ", serv.as_str())),
            Some(i) => match crate::wire::privmsg(to.as_str(), text) {
                Ok(line) => {
                    self.queue_on(i, &line);
                    one(Effect::Privmsg { sender: self.nick.clone(), text: lit(text), target })
                },
                Err(_) => client_err_effect(lit("Can't send the message: invalid target or text")),
            },
        }
    }

    /// Handles a line typed into a tab: a command where it starts with `/`,
    /// text to send otherwise.
    pub fn handle_input(&mut self, src: &MsgSource, input: &str) -> (r: Vec<Effect>)
        requires
            old(self).wf(),
        ensures
            final(self).wf(),
            final(self).user_spec() == old(self).user_spec(),
            if input@.len() > 0 && input@[0] == '/' {
                command_done(*old(self), *final(self), *src, input@.drop_first(), effects_view(r@))
            } else {
                send_done(*old(self), *final(self), *src, input@, effects_view(r@))
            },
    {
        let n = input.unicode_len();
        if n > 0 && input.get_char(0) == '/' {
            let rest = input.substring_char(1, n);
            assert(rest@ =~= input@.drop_first());
            self.handle_command(src, rest)
        } else {
            self.send_msg(src, input)
        }
    }
}

// ---------------------------------------------------------------------------
// Laws of the event table
/// A quit by `nick` on server `serv` takes the nick off every tab of that
/// server that shows it, and leaves the tabs of other servers as they were.
pub proof fn lemma_quit_scoped(
    serv: Seq<char>,
    our: Seq<char>,
    nick: Seq<char>,
    user: Seq<char>,
    host: Seq<char>,
    msg: Option<Seq<char>>,
    tabs: Seq<crate::target::TabV>,
)
    ensures
        ({
            let m = MsgV {
                pfx: Some(PfxV::User { nick, user, host }),
                cmd: CmdV::QUIT { msg },
            };
            let target = TargetV::AllUserTabs { serv, nick };
            let after = crate::target::remove_nick(tabs, nick, target);
            &&& effects_of(serv, our, m) == seq![
                EffectV::RemoveNick { nick, target, timestamped: true },
            ]
            &&& after.len() == tabs.len()
            &&& forall|i: int|
                0 <= i < tabs.len() && tabs[i].serv == serv ==> !(#[trigger] after[i]).nicks.contains(
                    nick,
                )
            &&& forall|i: int|
                0 <= i < tabs.len() && tabs[i].serv != serv ==> #[trigger] after[i] == tabs[i]
        }),
{
}

/// A command this client does not interpret does nothing but write to the
/// diagnostic log.
pub proof fn lemma_unrecognized_is_diagnostic(
    serv: Seq<char>,
    our: Seq<char>,
    pfx: Option<PfxV>,
    cmd: Seq<char>,
    params: Seq<Seq<char>>,
)
    ensures
        ({
            let es = effects_of(serv, our, MsgV { pfx, cmd: CmdV::Other { cmd, params } });
            es.len() == 1 && is_diagnostic(es[0])
        }),
{
}

/// A names reply adds each listed nick, without its operator mark, to the
/// channel's participants, in the order listed.
pub proof fn lemma_names_reply(serv: Seq<char>, ps: Seq<Seq<char>>)
    requires
        ps.len() >= 4,
    ensures
        reply_effects(serv, 353, ps).len() == names_from(ps[3], 0).len(),
        forall|k: int|
            0 <= k < names_from(ps[3], 0).len() ==> #[trigger] reply_effects(serv, 353, ps)[k]
                == (EffectV::AddNick {
                nick: names_from(ps[3], 0)[k],
                target: TargetV::Chan { serv, chan: ps[2] },
                timestamped: false,
            }),
{
}

/// Two complete lines that arrive in one read on an empty buffer: the
/// effects of the first line's message all come before those of the
/// second's, each once, and nothing is left in the buffer.
pub proof fn lemma_two_lines_effects_in_order(
    serv: Seq<char>,
    our: Seq<char>,
    a: Seq<u8>,
    b: Seq<u8>,
    ma: MsgV,
    mb: MsgV,
)
    requires
        forall|k: int| 0 <= k < a.len() ==> a[k] != 10,
        forall|k: int| 0 <= k < b.len() ==> b[k] != 10,
        crate::wire::decode_spec(crate::conn::lossy_text(a)) == Ok::<MsgV, crate::wire::ParseError>(
            ma,
        ),
        crate::wire::decode_spec(crate::conn::lossy_text(b)) == Ok::<MsgV, crate::wire::ParseError>(
            mb,
        ),
    ensures
        ({
            let buf = Seq::<u8>::empty() + a.push(10) + b.push(10);
            let lines = crate::conn::lines_from(buf, 0);
            &&& all_effects(serv, our, crate::conn::decoded(lines)) == effects_of(serv, our, ma)
                + effects_of(serv, our, mb)
            &&& crate::conn::undecodable(lines) == 0
            &&& buf.skip(crate::conn::rest_start(buf, 0)).len() == 0
        }),
{
    let buf = Seq::<u8>::empty() + a.push(10) + b.push(10);
    assert(buf =~= a.push(10) + b.push(10));
    crate::conn::lemma_lines_in_order(a, b);
    let e = Seq::<Seq<u8>>::empty();
    assert(seq![a].drop_first() =~= e);
    assert(seq![b].drop_first() =~= e);
    assert(seq![a, b].drop_first() =~= seq![b]);
    assert(seq![a][0] == a);
    assert(seq![b][0] == b);
    assert(crate::conn::decoded(e) =~= Seq::<MsgV>::empty());
    assert(crate::conn::decoded(seq![a]) =~= seq![ma]);
    assert(crate::conn::decoded(seq![b]) =~= seq![mb]);
    let ms = seq![ma] + seq![mb];
    assert(ms.drop_last() =~= seq![ma]);
    assert(seq![ma].drop_last() =~= Seq::<MsgV>::empty());
    assert(seq![ma].last() == ma);
    assert(ms.last() == mb);
    assert(all_effects(serv, our, Seq::<MsgV>::empty()) =~= Seq::<EffectV>::empty());
    assert(all_effects(serv, our, seq![ma]) =~= effects_of(serv, our, ma));
    assert(crate::conn::decoded(crate::conn::lines_from(buf, 0)) =~= ms);
    assert(all_effects(serv, our, ms) == all_effects(serv, our, seq![ma]) + effects_of(serv, our, mb));
    assert(seq![a, b][0] == a);
    assert(crate::conn::undecodable(e) == 0);
    assert(crate::conn::undecodable(seq![b]) == 0);
    assert(crate::conn::undecodable(seq![a, b]) == crate::conn::undecodable(seq![b]));
    assert(buf.skip(buf.len() as int).len() == 0);
}

} // verus!
