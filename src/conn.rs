use vstd::prelude::*;

use vstd::string::StringSliceAdditionalSpecFns;

use crate::wire::{decode, decode_spec, Msg, MsgV};

verus! {

/// What the secure channel negotiation waits for.
#[derive(Clone, Copy, Debug, PartialEq, Eq, Structural)]
pub enum Want {
    Read,
    Write,
}

/// Where a connection stands in its handshake.
#[derive(Clone, Copy, Debug, PartialEq, Eq, Structural)]
pub enum Phase {
    Disconnected,
    Connecting,
    Handshaking(Want),
    Established,
}

/// What one step of the negotiation reported.
#[derive(Clone, Copy, Debug, PartialEq, Eq, Structural)]
pub enum HandshakeStatus {
    WantRead,
    WantWrite,
    Connected,
    Failed,
}

/// What a handshake step asks of the caller.
#[derive(Clone, Copy, Debug, PartialEq, Eq, Structural)]
pub enum Step {
    /// Keep read interest only.
    WantRead,
    /// Add write interest.
    WantWrite,
    /// The channel is up: keep read interest only.
    Established,
    /// The negotiation failed.
    Failed,
}

/// What the text of a received line is: its bytes decoded as UTF-8, with
/// each invalid sequence replaced.
pub uninterp spec fn lossy_text(b: Seq<u8>) -> Seq<char>;

/// Relies on `String::from_utf8_lossy`: the text depends on the bytes alone,
/// and valid UTF-8 comes back as the text it encodes.
#[verifier::external_body]
fn text_of(b: &[u8]) -> (r: String)
    ensures
        r@ == lossy_text(b@),
        vstd::utf8::valid_utf8(b@) ==> r@ == vstd::utf8::decode_utf8(b@),
{
    String::from_utf8_lossy(b).into_owned()
}

/// First position at or after `from` that holds `c`, or the length.
pub open spec fn byte_index(s: Seq<u8>, c: u8, from: int) -> int
    decreases s.len() - from,
{
    if from < 0 || from >= s.len() {
        s.len() as int
    } else if s[from] == c {
        from
    } else {
        byte_index(s, c, from + 1)
    }
}

/// The complete lines of `s[i..]`, without their `\n`.
pub open spec fn lines_from(s: Seq<u8>, i: int) -> Seq<Seq<u8>>
    decreases s.len() - i,
{
    if i < 0 || i >= s.len() || byte_index(s, 10, i) >= s.len() || byte_index(s, 10, i) < i {
        Seq::empty()
    } else {
        seq![s.subrange(i, byte_index(s, 10, i))] + lines_from(s, byte_index(s, 10, i) + 1)
    }
}

/// Where the incomplete last line of `s[i..]` starts.
pub open spec fn rest_start(s: Seq<u8>, i: int) -> int
    decreases s.len() - i,
{
    if i < 0 || i >= s.len() || byte_index(s, 10, i) >= s.len() || byte_index(s, 10, i) < i {
        i
    } else {
        rest_start(s, byte_index(s, 10, i) + 1)
    }
}

/// The messages that `lines` decode to, in order; lines that do not decode
/// are left out.
pub open spec fn decoded(lines: Seq<Seq<u8>>) -> Seq<MsgV>
    decreases lines.len(),
{
    if lines.len() == 0 {
        Seq::empty()
    } else {
        match decode_spec(lossy_text(lines[0])) {
            Ok(m) => seq![m] + decoded(lines.drop_first()),
            Err(_) => decoded(lines.drop_first()),
        }
    }
}

/// How many of `lines` do not decode.
pub open spec fn undecodable(lines: Seq<Seq<u8>>) -> nat
    decreases lines.len(),
{
    if lines.len() == 0 {
        0
    } else {
        match decode_spec(lossy_text(lines[0])) {
            Ok(_) => undecodable(lines.drop_first()),
            Err(_) => 1 + undecodable(lines.drop_first()),
        }
    }
}

proof fn lemma_undecodable_bound(lines: Seq<Seq<u8>>)
    ensures
        undecodable(lines) <= lines.len(),
    decreases lines.len(),
{
    if lines.len() > 0 {
        lemma_undecodable_bound(lines.drop_first());
    }
}

proof fn lemma_lines_bound(s: Seq<u8>, i: int)
    requires
        0 <= i <= s.len(),
    ensures
        lines_from(s, i).len() <= s.len() - i,
    decreases s.len() - i,
{
    if i < s.len() && byte_index(s, 10, i) < s.len() && byte_index(s, 10, i) >= i {
        lemma_lines_bound(s, byte_index(s, 10, i) + 1);
    }
}

pub open spec fn msgs_view(v: Seq<Msg>) -> Seq<MsgV> {
    v.map_values(|m: Msg| m@)
}

/// What a read hands back: the messages of the lines completed, in order,
/// how many completed lines did not decode, and whether the peer closed
/// the connection.
pub struct Received {
    pub msgs: Vec<Msg>,
    pub dropped: usize,
    pub closed: bool,
}

/// One connection to a server: who we are there, and the state of its
/// socket.
pub struct Conn {
    serv_addr: String,
    serv_name: String,
    nick: String,
    hostname: String,
    realname: String,
    socket: u64,
    phase: Phase,
    in_buf: Vec<u8>,
    out_buf: Vec<u8>,
}

pub ghost struct ConnView {
    pub serv_addr: Seq<char>,
    pub serv_name: Seq<char>,
    pub nick: Seq<char>,
    pub hostname: Seq<char>,
    pub realname: Seq<char>,
    pub socket: u64,
    pub phase: Phase,
    pub in_buf: Seq<u8>,
    pub out_buf: Seq<u8>,
}

impl View for Conn {
    type V = ConnView;

    closed spec fn view(&self) -> ConnView {
        ConnView {
            serv_addr: self.serv_addr@,
            serv_name: self.serv_name@,
            nick: self.nick@,
            hostname: self.hostname@,
            realname: self.realname@,
            socket: self.socket,
            phase: self.phase,
            in_buf: self.in_buf@,
            out_buf: self.out_buf@,
        }
    }
}

/// The bytes of a line that could be encoded, or none.
pub open spec fn line_bytes(l: Result<Seq<char>, crate::wire::EncodeError>) -> Seq<u8> {
    match l {
        Ok(line) => vstd::utf8::encode_utf8(line),
        Err(_) => Seq::empty(),
    }
}

/// What is sent once the channel is up: the nick, then the host and real
/// name.
pub open spec fn registration(nick: Seq<char>, hostname: Seq<char>, realname: Seq<char>) -> Seq<u8> {
    line_bytes(crate::wire::nick_spec(nick)) + line_bytes(crate::wire::user_spec(hostname, realname))
}

/// Two states of a connection to the same server as the same user.
pub open spec fn same_identity(a: ConnView, b: ConnView) -> bool {
    &&& a.serv_addr == b.serv_addr
    &&& a.serv_name == b.serv_name
    &&& a.nick == b.nick
    &&& a.hostname == b.hostname
    &&& a.realname == b.realname
}

proof fn lemma_byte_index(s: Seq<u8>, c: u8, from: int)
    requires
        0 <= from <= s.len(),
    ensures
        from <= byte_index(s, c, from) <= s.len(),
        byte_index(s, c, from) < s.len() ==> s[byte_index(s, c, from)] == c,
        forall|k: int| from <= k < byte_index(s, c, from) ==> s[k] != c,
    decreases s.len() - from,
{
    if from < s.len() && s[from] != c {
        lemma_byte_index(s, c, from + 1);
    }
}

fn copy_range(v: &Vec<u8>, from: usize, to: usize) -> (r: Vec<u8>)
    requires
        from <= to <= v@.len(),
    ensures
        r@ == v@.subrange(from as int, to as int),
{
    let mut r: Vec<u8> = Vec::new();
    let mut i = from;
    while i < to
        invariant
            from <= i <= to <= v@.len(),
            r@ == v@.subrange(from as int, i as int),
        decreases to - i,
    {
        r.push(v[i]);
        i = i + 1;
        assert(r@ =~= v@.subrange(from as int, i as int));
    }
    r
}

impl Conn {
    /// A connection about to connect through `socket`, with empty buffers.
    pub fn new(
        serv_addr: &str,
        serv_name: &str,
        nick: &str,
        hostname: &str,
        realname: &str,
        socket: u64,
    ) -> (r: Conn)
        ensures
            r@.serv_addr == serv_addr@,
            r@.serv_name == serv_name@,
            r@.nick == nick@,
            r@.hostname == hostname@,
            r@.realname == realname@,
            r@.socket == socket,
            r@.phase == Phase::Connecting,
            r@.in_buf.len() == 0,
            r@.out_buf.len() == 0,
    {
        Conn {
            serv_addr: String::from_str(serv_addr),
            serv_name: String::from_str(serv_name),
            nick: String::from_str(nick),
            hostname: String::from_str(hostname),
            realname: String::from_str(realname),
            socket,
            phase: Phase::Connecting,
            in_buf: Vec::new(),
            out_buf: Vec::new(),
        }
    }

    pub fn serv_name(&self) -> (r: &String)
        ensures
            r@ == self@.serv_name,
    {
        &self.serv_name
    }

    pub fn serv_addr(&self) -> (r: &String)
        ensures
            r@ == self@.serv_addr,
    {
        &self.serv_addr
    }

    pub fn nick(&self) -> (r: &String)
        ensures
            r@ == self@.nick,
    {
        &self.nick
    }

    pub fn socket(&self) -> (r: u64)
        ensures
            r == self@.socket,
    {
        self.socket
    }

    pub fn phase(&self) -> (r: Phase)
        ensures
            r == self@.phase,
    {
        self.phase
    }

    /// Bytes waiting to be sent, in order.
    pub fn outgoing(&self) -> (r: &Vec<u8>)
        ensures
            r@ == self@.out_buf,
    {
        &self.out_buf
    }

    /// Takes one negotiation step's outcome into account.
    pub fn advance_handshake(&mut self, status: HandshakeStatus) -> (r: Step)
        ensures
            same_identity(final(self)@, old(self)@),
            final(self)@.socket == old(self)@.socket,
            final(self)@.in_buf == old(self)@.in_buf,
            final(self)@.out_buf == if status == HandshakeStatus::Connected {
                old(self)@.out_buf + registration(
                    old(self)@.nick,
                    old(self)@.hostname,
                    old(self)@.realname,
                )
            } else {
                old(self)@.out_buf
            },
            match status {
                HandshakeStatus::WantRead => r == Step::WantRead && final(self)@.phase
                    == Phase::Handshaking(Want::Read),
                HandshakeStatus::WantWrite => r == Step::WantWrite && final(self)@.phase
                    == Phase::Handshaking(Want::Write),
                HandshakeStatus::Connected => r == Step::Established && final(self)@.phase
                    == Phase::Established,
                HandshakeStatus::Failed => r == Step::Failed && final(self)@.phase
                    == Phase::Disconnected,
            },
    {
        match status {
            HandshakeStatus::WantRead => {
                self.phase = Phase::Handshaking(Want::Read);
                Step::WantRead
            },
            HandshakeStatus::WantWrite => {
                self.phase = Phase::Handshaking(Want::Write);
                Step::WantWrite
            },
            HandshakeStatus::Connected => {
                self.phase = Phase::Established;
                let ghost before = self@.out_buf;
                match crate::wire::nick(self.nick.as_str()) {
                    Ok(l) => self.queue(l.as_str()),
                    Err(_) => {},
                }
                let ghost mid = self@.out_buf;
                match crate::wire::user(self.hostname.as_str(), self.realname.as_str()) {
                    Ok(l) => self.queue(l.as_str()),
                    Err(_) => {},
                }
                assert(self@.out_buf =~= before + registration(
                    old(self)@.nick,
                    old(self)@.hostname,
                    old(self)@.realname,
                ));
                Step::Established
            },
            HandshakeStatus::Failed => {
                self.phase = Phase::Disconnected;
                Step::Failed
            },
        }
    }

    /// Takes in the bytes of one read. Each complete line in the inbound
    /// buffer is decoded, in order; lines that do not decode are dropped,
    /// and an incomplete last line stays in the buffer. An empty read means
    /// that the peer closed the connection.
    pub fn on_readable(&mut self, data: &[u8]) -> (r: Received)
        ensures
            same_identity(final(self)@, old(self)@),
            final(self)@.socket == old(self)@.socket,
            final(self)@.phase == old(self)@.phase,
            final(self)@.out_buf == old(self)@.out_buf,
            r.closed == (data@.len() == 0),
            msgs_view(r.msgs@) == decoded(lines_from(old(self)@.in_buf + data@, 0)),
            r.dropped == undecodable(lines_from(old(self)@.in_buf + data@, 0)),
            final(self)@.in_buf == (old(self)@.in_buf + data@).skip(
                rest_start(old(self)@.in_buf + data@, 0),
            ),
    {
        let mut i: usize = 0;
        while i < data.len()
            invariant
                i <= data@.len(),
                self@.in_buf == old(self)@.in_buf + data@.subrange(0, i as int),
                same_identity(self@, old(self)@),
                self@.socket == old(self)@.socket,
                self@.phase == old(self)@.phase,
                self@.out_buf == old(self)@.out_buf,
            decreases data@.len() - i,
        {
            self.in_buf.push(data[i]);
            i = i + 1;
            assert(self@.in_buf =~= old(self)@.in_buf + data@.subrange(0, i as int));
        }
        assert(data@.subrange(0, data@.len() as int) =~= data@);
        let ghost s = self.in_buf@;
        let n = self.in_buf.len();
        let mut msgs: Vec<Msg> = Vec::new();
        let mut dropped: usize = 0;
        let mut start: usize = 0;
        proof {
            lemma_undecodable_bound(lines_from(s, 0));
            lemma_lines_bound(s, 0);
        }
        loop
            invariant
                s == self.in_buf@,
                n == s.len(),
                start <= n,
                msgs_view(msgs@) + decoded(lines_from(s, start as int)) == decoded(
                    lines_from(s, 0),
                ),
                dropped + undecodable(lines_from(s, start as int)) == undecodable(
                    lines_from(s, 0),
                ),
                undecodable(lines_from(s, 0)) <= n,
                rest_start(s, start as int) == rest_start(s, 0),
            ensures
                s == self.in_buf@,
                n == s.len(),
                start <= n,
                msgs_view(msgs@) == decoded(lines_from(s, 0)),
                dropped == undecodable(lines_from(s, 0)),
                start == rest_start(s, 0),
            decreases n - start,
        {
            let mut e = start;
            while e < n && self.in_buf[e] != 10
                invariant
                    start <= e <= n,
                    n == s.len(),
                    s == self.in_buf@,
                    byte_index(s, 10, start as int) == byte_index(s, 10, e as int),
                decreases n - e,
            {
                e = e + 1;
            }
            proof {
                lemma_byte_index(s, 10, start as int);
            }
            if e >= n {
                assert(lines_from(s, start as int) =~= Seq::<Seq<u8>>::empty());
                assert(msgs_view(msgs@) =~= msgs_view(msgs@) + decoded(lines_from(s, start as int)));
                assert(undecodable(lines_from(s, start as int)) == 0);
                break;
            }
            let line = copy_range(&self.in_buf, start, e);
            let text = text_of(line.as_slice());
            let ghost before = msgs_view(msgs@);
            assert(lines_from(s, start as int) =~= seq![line@] + lines_from(s, e + 1));
            assert((seq![line@] + lines_from(s, e + 1)).drop_first() =~= lines_from(s, e + 1));
            match decode(text.as_str()) {
                Ok(m) => {
                    msgs.push(m);
                    assert(msgs_view(msgs@) =~= before.push(m@));
                    assert(before + decoded(lines_from(s, start as int)) =~= msgs_view(msgs@)
                        + decoded(lines_from(s, e + 1)));
                },
                Err(_) => {
                    proof {
                        lemma_undecodable_bound(lines_from(s, e + 1));
                    }
                    dropped = dropped + 1;
                },
            }
            start = e + 1;
        }
        let rest = copy_range(&self.in_buf, start, n);
        self.in_buf = rest;
        assert(self@.in_buf =~= s.skip(start as int));
        Received { msgs, dropped, closed: data.len() == 0 }
    }

    /// Queues the bytes of `line` for sending.
    pub fn queue(&mut self, line: &str)
        ensures
            same_identity(final(self)@, old(self)@),
            final(self)@.socket == old(self)@.socket,
            final(self)@.phase == old(self)@.phase,
            final(self)@.in_buf == old(self)@.in_buf,
            final(self)@.out_buf == old(self)@.out_buf + line.spec_bytes(),
    {
        let b = line.as_bytes();
        let mut i: usize = 0;
        while i < b.len()
            invariant
                i <= b@.len(),
                b@ == line.spec_bytes(),
                self@.out_buf == old(self)@.out_buf + b@.subrange(0, i as int),
                same_identity(self@, old(self)@),
                self@.socket == old(self)@.socket,
                self@.phase == old(self)@.phase,
                self@.in_buf == old(self)@.in_buf,
            decreases b@.len() - i,
        {
            self.out_buf.push(b[i]);
            i = i + 1;
            assert(self@.out_buf =~= old(self)@.out_buf + b@.subrange(0, i as int));
        }
        assert(b@.subrange(0, b@.len() as int) =~= b@);
    }

    /// Takes note that the socket accepted the first `n` bytes of the
    /// outbound buffer: the rest stays, in order, for the next write.
    pub fn on_written(&mut self, n: usize)
        requires
            n <= old(self)@.out_buf.len(),
        ensures
            same_identity(final(self)@, old(self)@),
            final(self)@.socket == old(self)@.socket,
            final(self)@.phase == old(self)@.phase,
            final(self)@.in_buf == old(self)@.in_buf,
            final(self)@.out_buf == old(self)@.out_buf.skip(n as int),
    {
        let rest = copy_range(&self.out_buf, n, self.out_buf.len());
        self.out_buf = rest;
        assert(self@.out_buf =~= old(self)@.out_buf.skip(n as int));
    }

    /// Starts over on a new socket: buffers and handshake state go, who we
    /// are on which server stays.
    pub fn reconnect(&mut self, socket: u64)
        ensures
            same_identity(final(self)@, old(self)@),
            final(self)@.socket == socket,
            final(self)@.phase == Phase::Connecting,
            final(self)@.in_buf.len() == 0,
            final(self)@.out_buf.len() == 0,
    {
        self.socket = socket;
        self.phase = Phase::Connecting;
        self.in_buf = Vec::new();
        self.out_buf = Vec::new();
    }
}

proof fn lemma_byte_index_at(s: Seq<u8>, c: u8, from: int, m: int)
    requires
        0 <= from <= m < s.len(),
        s[m] == c,
        forall|k: int| from <= k < m ==> s[k] != c,
    ensures
        byte_index(s, c, from) == m,
    decreases m - from,
{
    if from < m {
        lemma_byte_index_at(s, c, from + 1, m);
    }
}

/// Two complete lines that arrive together come out as two lines, in the
/// order in which they arrived, and nothing is left over; so their
/// messages come out in that order too.
pub proof fn lemma_lines_in_order(a: Seq<u8>, b: Seq<u8>)
    requires
        forall|k: int| 0 <= k < a.len() ==> a[k] != 10,
        forall|k: int| 0 <= k < b.len() ==> b[k] != 10,
    ensures
        lines_from(a.push(10) + b.push(10), 0) == seq![a, b],
        rest_start(a.push(10) + b.push(10), 0) == a.len() + b.len() + 2,
        decoded(lines_from(a.push(10) + b.push(10), 0)) == decoded(seq![a]) + decoded(seq![b]),
{
    let s = a.push(10) + b.push(10);
    let la = a.len() as int;
    let n = s.len() as int;
    assert forall|k: int| 0 <= k < la implies s[k] != 10 by {
        assert(s[k] == a[k]);
    }
    lemma_byte_index_at(s, 10, 0, la);
    assert forall|k: int| la + 1 <= k < n - 1 implies s[k] != 10 by {
        assert(s[k] == b[k - la - 1]);
    }
    lemma_byte_index_at(s, 10, la + 1, n - 1);
    assert(s.subrange(0, la) =~= a);
    assert(s.subrange(la + 1, n - 1) =~= b);
    assert(lines_from(s, n) =~= Seq::<Seq<u8>>::empty());
    assert(lines_from(s, la + 1) =~= seq![b]);
    assert(lines_from(s, 0) =~= seq![a, b]);
    assert(seq![a, b].drop_first() =~= seq![b]);
    assert(seq![a].drop_first() =~= Seq::<Seq<u8>>::empty());
    assert(seq![b].drop_first() =~= Seq::<Seq<u8>>::empty());
    assert(rest_start(s, n) == n);
    assert(rest_start(s, la + 1) == n);
    assert(decoded(seq![b]) == decoded(seq![a, b].drop_first()));
    assert(decoded(Seq::<Seq<u8>>::empty()) =~= Seq::<MsgV>::empty());
    match decode_spec(lossy_text(a)) {
        Ok(m) => {
            assert(decoded(seq![a]) =~= seq![m]);
            assert(decoded(seq![a, b]) =~= decoded(seq![a]) + decoded(seq![b]));
        },
        Err(_) => {
            assert(decoded(seq![a]) =~= Seq::<MsgV>::empty());
            assert(decoded(seq![a, b]) =~= decoded(seq![a]) + decoded(seq![b]));
        },
    }
}

/// After a write that took `n` of the waiting bytes, the bytes sent and the
/// bytes still waiting make up exactly what was waiting: none lost, none
/// repeated, none out of order.
pub proof fn lemma_partial_write(out_buf: Seq<u8>, n: int)
    requires
        0 <= n <= out_buf.len(),
    ensures
        out_buf.take(n) + out_buf.skip(n) == out_buf,
{
    assert(out_buf.take(n) + out_buf.skip(n) =~= out_buf);
}

} // verus!
