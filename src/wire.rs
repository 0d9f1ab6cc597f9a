use vstd::prelude::*;

use crate::utils::{byte_len, string_of, chars_of};

verus! {

/// Where a message comes from.
#[derive(Clone, Debug, PartialEq, Eq)]
pub enum Pfx {
    Server(String),
    User { nick: String, user: String, host: String },
}

/// Whom a chat message is for.
#[derive(Clone, Debug, PartialEq, Eq)]
pub enum Receiver {
    Chan(String),
    User(String),
}

/// A decoded command with its parameters.
#[derive(Clone, Debug, PartialEq, Eq)]
pub enum Cmd {
    PRIVMSG { receivers: Receiver, contents: String },
    JOIN { chan: String },
    PART { chan: String, msg: Option<String> },
    QUIT { msg: Option<String> },
    NOTICE { nick: String, msg: String },
    NICK { nick: String },
    /// A numeric reply: a three-digit code and the parameters in order.
    Reply { num: u16, params: Vec<String> },
    /// A verb this client does not interpret, kept with its parameters.
    Other { cmd: String, params: Vec<String> },
}

/// A message decoded from one line.
#[derive(Clone, Debug, PartialEq, Eq)]
pub struct Msg {
    pub pfx: Option<Pfx>,
    pub cmd: Cmd,
}

#[derive(Clone, Copy, Debug, PartialEq, Eq, Structural)]
pub enum ParseError {
    /// The line holds nothing but its terminator.
    Empty,
    /// No command follows the prefix.
    NoCommand,
    /// A known command with parameters it cannot have.
    BadParams,
}

#[derive(Clone, Copy, Debug, PartialEq, Eq, Structural)]
pub enum EncodeError {
    /// An argument holds a line terminator, is empty where a word is
    /// needed, or holds a space where one word is needed.
    InvalidArgument,
    /// The line would pass the protocol's length limit.
    TooLong,
}

pub ghost enum PfxV {
    Server(Seq<char>),
    User { nick: Seq<char>, user: Seq<char>, host: Seq<char> },
}

pub ghost enum ReceiverV {
    Chan(Seq<char>),
    User(Seq<char>),
}

pub ghost enum CmdV {
    PRIVMSG { receivers: ReceiverV, contents: Seq<char> },
    JOIN { chan: Seq<char> },
    PART { chan: Seq<char>, msg: Option<Seq<char>> },
    QUIT { msg: Option<Seq<char>> },
    NOTICE { nick: Seq<char>, msg: Seq<char> },
    NICK { nick: Seq<char> },
    Reply { num: u16, params: Seq<Seq<char>> },
    Other { cmd: Seq<char>, params: Seq<Seq<char>> },
}

pub ghost struct MsgV {
    pub pfx: Option<PfxV>,
    pub cmd: CmdV,
}

pub open spec fn strings_view(v: Seq<String>) -> Seq<Seq<char>> {
    v.map_values(|s: String| s@)
}

pub open spec fn opt_view(o: Option<String>) -> Option<Seq<char>> {
    match o {
        Some(s) => Some(s@),
        None => None,
    }
}

impl View for Pfx {
    type V = PfxV;

    open spec fn view(&self) -> PfxV {
        match self {
            Pfx::Server(s) => PfxV::Server(s@),
            Pfx::User { nick, user, host } => PfxV::User { nick: nick@, user: user@, host: host@ },
        }
    }
}

impl View for Receiver {
    type V = ReceiverV;

    open spec fn view(&self) -> ReceiverV {
        match self {
            Receiver::Chan(s) => ReceiverV::Chan(s@),
            Receiver::User(s) => ReceiverV::User(s@),
        }
    }
}

impl View for Cmd {
    type V = CmdV;

    open spec fn view(&self) -> CmdV {
        match self {
            Cmd::PRIVMSG { receivers, contents } => CmdV::PRIVMSG {
                receivers: receivers@,
                contents: contents@,
            },
            Cmd::JOIN { chan } => CmdV::JOIN { chan: chan@ },
            Cmd::PART { chan, msg } => CmdV::PART { chan: chan@, msg: opt_view(*msg) },
            Cmd::QUIT { msg } => CmdV::QUIT { msg: opt_view(*msg) },
            Cmd::NOTICE { nick, msg } => CmdV::NOTICE { nick: nick@, msg: msg@ },
            Cmd::NICK { nick } => CmdV::NICK { nick: nick@ },
            Cmd::Reply { num, params } => CmdV::Reply { num: *num, params: strings_view(params@) },
            Cmd::Other { cmd, params } => CmdV::Other { cmd: cmd@, params: strings_view(params@) },
        }
    }
}

impl View for Msg {
    type V = MsgV;

    open spec fn view(&self) -> MsgV {
        MsgV {
            pfx: match self.pfx {
                Some(p) => Some(p@),
                None => None,
            },
            cmd: self.cmd@,
        }
    }
}

// ---------------------------------------------------------------------------
// The grammar
/// First position at or after `from` that holds `c`, or the length.
pub open spec fn index_of(s: Seq<char>, c: char, from: int) -> int
    decreases s.len() - from,
{
    if from < 0 || from >= s.len() {
        s.len() as int
    } else if s[from] == c {
        from
    } else {
        index_of(s, c, from + 1)
    }
}

/// The line without a final `\n`, and then without a final `\r`.
pub open spec fn strip_terminator(line: Seq<char>) -> Seq<char> {
    let s = if line.len() > 0 && line.last() == '\n' {
        line.drop_last()
    } else {
        line
    };
    if s.len() > 0 && s.last() == '\r' {
        s.drop_last()
    } else {
        s
    }
}

/// The parameters in `s[i..]`: words separated by spaces, the last of which
/// may be introduced by `:` and then runs to the end, spaces included.
pub open spec fn params_from(s: Seq<char>, i: int) -> Seq<Seq<char>>
    decreases s.len() - i,
{
    if i < 0 || i >= s.len() {
        Seq::empty()
    } else if s[i] == ' ' {
        params_from(s, i + 1)
    } else if s[i] == ':' {
        seq![s.subrange(i + 1, s.len() as int)]
    } else if index_of(s, ' ', i) <= i || index_of(s, ' ', i) > s.len() {
        Seq::empty()
    } else {
        seq![s.subrange(i, index_of(s, ' ', i))] + params_from(s, index_of(s, ' ', i))
    }
}

/// The origin named by a prefix: `nick!user@host` is a user, anything
/// without `!` a server.
pub open spec fn pfx_of(p: Seq<char>) -> PfxV {
    let b = index_of(p, '!', 0);
    if b >= p.len() {
        PfxV::Server(p)
    } else {
        let a = index_of(p, '@', b + 1);
        PfxV::User {
            nick: p.subrange(0, b),
            user: p.subrange(b + 1, a),
            host: if a < p.len() {
                p.subrange(a + 1, p.len() as int)
            } else {
                Seq::empty()
            },
        }
    }
}

pub open spec fn is_digit(c: char) -> bool {
    '0' <= c && c <= '9'
}

pub open spec fn digit(c: char) -> int {
    c as int - '0' as int
}

/// A numeric command: exactly three decimal digits.
pub open spec fn is_numeric(cmd: Seq<char>) -> bool {
    cmd.len() == 3 && is_digit(cmd[0]) && is_digit(cmd[1]) && is_digit(cmd[2])
}

pub open spec fn numeric_value(cmd: Seq<char>) -> int {
    digit(cmd[0]) * 100 + digit(cmd[1]) * 10 + digit(cmd[2])
}

/// A target that names a channel: it starts with one of the channel marks.
pub open spec fn is_chan_name(s: Seq<char>) -> bool {
    s.len() > 0 && (s[0] == '#' || s[0] == '&' || s[0] == '+' || s[0] == '!')
}

pub open spec fn receiver_of(s: Seq<char>) -> ReceiverV {
    if is_chan_name(s) {
        ReceiverV::Chan(s)
    } else {
        ReceiverV::User(s)
    }
}

pub open spec fn opt_param(ps: Seq<Seq<char>>, i: int) -> Option<Seq<char>> {
    if 0 <= i < ps.len() {
        Some(ps[i])
    } else {
        None
    }
}

/// The command that a verb and its parameters make.
#[verifier::opaque]
pub open spec fn cmd_of(cmd: Seq<char>, ps: Seq<Seq<char>>) -> Result<CmdV, ParseError> {
    if cmd == "PRIVMSG"@ {
        if ps.len() == 2 {
            Ok(CmdV::PRIVMSG { receivers: receiver_of(ps[0]), contents: ps[1] })
        } else {
            Err(ParseError::BadParams)
        }
    } else if cmd == "JOIN"@ {
        if ps.len() >= 1 {
            Ok(CmdV::JOIN { chan: ps[0] })
        } else {
            Err(ParseError::BadParams)
        }
    } else if cmd == "PART"@ {
        if ps.len() >= 1 {
            Ok(CmdV::PART { chan: ps[0], msg: opt_param(ps, 1) })
        } else {
            Err(ParseError::BadParams)
        }
    } else if cmd == "QUIT"@ {
        Ok(CmdV::QUIT { msg: opt_param(ps, 0) })
    } else if cmd == "NOTICE"@ {
        if ps.len() == 2 {
            Ok(CmdV::NOTICE { nick: ps[0], msg: ps[1] })
        } else {
            Err(ParseError::BadParams)
        }
    } else if cmd == "NICK"@ {
        if ps.len() >= 1 {
            Ok(CmdV::NICK { nick: ps[0] })
        } else {
            Err(ParseError::BadParams)
        }
    } else if is_numeric(cmd) {
        Ok(CmdV::Reply { num: numeric_value(cmd) as u16, params: ps })
    } else {
        Ok(CmdV::Other { cmd, params: ps })
    }
}

/// Where the command starts: after the prefix and its space, if there is a
/// prefix.
pub open spec fn cmd_start(s: Seq<char>) -> int {
    if s.len() > 0 && s[0] == ':' {
        index_of(s, ' ', 1) + 1
    } else {
        0
    }
}

/// The message that one line decodes to:
/// `[":" prefix " "] command *(" " middle) [" :" trailing]`.
pub open spec fn decode_spec(line: Seq<char>) -> Result<MsgV, ParseError> {
    let s = strip_terminator(line);
    if s.len() == 0 {
        Err(ParseError::Empty)
    } else if s[0] == ':' && index_of(s, ' ', 1) >= s.len() {
        Err(ParseError::NoCommand)
    } else {
        let start = cmd_start(s);
        let end = index_of(s, ' ', start);
        let pfx = if s[0] == ':' {
            Some(pfx_of(s.subrange(1, start - 1)))
        } else {
            None
        };
        if end == start {
            Err(ParseError::NoCommand)
        } else {
            match cmd_of(s.subrange(start, end), params_from(s, end)) {
                Ok(cmd) => Ok(MsgV { pfx, cmd }),
                Err(e) => Err(e),
            }
        }
    }
}

// ---------------------------------------------------------------------------
// Decoding
proof fn lemma_index_of(s: Seq<char>, c: char, from: int)
    requires
        0 <= from <= s.len(),
    ensures
        from <= index_of(s, c, from) <= s.len(),
        index_of(s, c, from) < s.len() ==> s[index_of(s, c, from)] == c,
        forall|k: int| from <= k < index_of(s, c, from) ==> s[k] != c,
    decreases s.len() - from,
{
    if from < s.len() && s[from] != c {
        lemma_index_of(s, c, from + 1);
    }
}

/// First position in `v[from..end]` that holds `c`, or `end`.
fn find(v: &Vec<char>, end: usize, c: char, from: usize) -> (r: usize)
    requires
        from <= end <= v@.len(),
    ensures
        r == index_of(v@.subrange(0, end as int), c, from as int),
        from <= r <= end,
{
    let ghost s = v@.subrange(0, end as int);
    let mut i = from;
    while i < end && v[i] != c
        invariant
            from <= i <= end <= v@.len(),
            s == v@.subrange(0, end as int),
            index_of(s, c, from as int) == index_of(s, c, i as int),
        decreases end - i,
    {
        i = i + 1;
    }
    i
}

/// Whether `v[from..to]` holds the characters of `lit`.
fn eq_lit(v: &Vec<char>, from: usize, to: usize, lit: &str) -> (r: bool)
    requires
        from <= to <= v@.len(),
    ensures
        r == (v@.subrange(from as int, to as int) == lit@),
{
    let n = lit.unicode_len();
    if n != to - from {
        return false;
    }
    let mut i: usize = 0;
    while i < n
        invariant
            n == lit@.len() == to - from,
            from <= to <= v@.len(),
            i <= n,
            v@.subrange(from as int, from + i) == lit@.subrange(0, i as int),
        decreases n - i,
    {
        if v[from + i] != lit.get_char(i) {
            assert(v@.subrange(from as int, to as int)[i as int] != lit@[i as int]);
            return false;
        }
        assert(v@.subrange(from as int, from + i + 1) =~= v@.subrange(from as int, from + i).push(
            v@[from + i],
        ));
        assert(lit@.subrange(0, i + 1) =~= lit@.subrange(0, i as int).push(lit@[i as int]));
        i = i + 1;
    }
    assert(lit@ =~= lit@.subrange(0, n as int));
    true
}

/// The parameters in `v[from..end]`.
fn split_params(v: &Vec<char>, end: usize, from: usize) -> (r: Vec<String>)
    requires
        from <= end <= v@.len(),
    ensures
        strings_view(r@) == params_from(v@.subrange(0, end as int), from as int),
{
    let ghost s = v@.subrange(0, end as int);
    let mut r: Vec<String> = Vec::new();
    let mut i = from;
    while i < end
        invariant
            from <= i <= end <= v@.len(),
            s == v@.subrange(0, end as int),
            strings_view(r@) + params_from(s, i as int) == params_from(s, from as int),
        decreases end - i,
    {
        if v[i] == ' ' {
            i = i + 1;
        } else if v[i] == ':' {
            let t = string_of(v, i + 1, end);
            assert(t@ == s.subrange(i + 1, s.len() as int));
            let ghost before = strings_view(r@);
            r.push(t);
            assert(strings_view(r@) =~= before.push(t@));
            assert(params_from(s, i as int) =~= seq![t@]);
            assert(params_from(s, end as int) =~= Seq::<Seq<char>>::empty());
            assert(before + params_from(s, i as int) =~= strings_view(r@) + params_from(s, end as int));
            i = end;
        } else {
            let e = find(v, end, ' ', i);
            proof {
                lemma_index_of(s, ' ', i as int);
            }
            let t = string_of(v, i, e);
            assert(t@ =~= s.subrange(i as int, e as int));
            let ghost before = strings_view(r@);
            r.push(t);
            assert(strings_view(r@) =~= before.push(t@));
            assert(params_from(s, i as int) =~= seq![t@] + params_from(s, e as int));
            assert(before + params_from(s, i as int) =~= strings_view(r@) + params_from(s, e as int));
            i = e;
        }
    }
    assert(params_from(s, i as int) =~= Seq::<Seq<char>>::empty());
    assert(strings_view(r@) =~= strings_view(r@) + params_from(s, i as int));
    r
}

fn parse_pfx(v: &Vec<char>, from: usize, to: usize) -> (r: Pfx)
    requires
        from <= to <= v@.len(),
    ensures
        r@ == pfx_of(v@.subrange(from as int, to as int)),
{
    let mut p: Vec<char> = Vec::new();
    let mut i = from;
    while i < to
        invariant
            from <= i <= to <= v@.len(),
            p@ == v@.subrange(from as int, i as int),
        decreases to - i,
    {
        p.push(v[i]);
        i = i + 1;
        assert(p@ =~= v@.subrange(from as int, i as int));
    }
    let n = p.len();
    assert(p@.subrange(0, n as int) =~= p@);
    let b = find(&p, n, '!', 0);
    if b >= n {
        Pfx::Server(string_of(&p, 0, n))
    } else {
        let a = find(&p, n, '@', b + 1);
        let host = if a < n {
            string_of(&p, a + 1, n)
        } else {
            String::new()
        };
        Pfx::User { nick: string_of(&p, 0, b), user: string_of(&p, b + 1, a), host }
    }
}

fn is_chan(s: &String) -> (r: bool)
    ensures
        r == is_chan_name(s@),
{
    let t = s.as_str();
    if t.unicode_len() == 0 {
        false
    } else {
        let c = t.get_char(0);
        c == '#' || c == '&' || c == '+' || c == '!'
    }
}

fn param(ps: &Vec<String>, i: usize) -> (r: Option<String>)
    ensures
        opt_view(r) == opt_param(strings_view(ps@), i as int),
{
    if i < ps.len() {
        Some(ps[i].clone())
    } else {
        None
    }
}

/// The command that the verb `v[from..to]` and the parameters `ps` make.
fn make_cmd(v: &Vec<char>, from: usize, to: usize, ps: Vec<String>) -> (r: Result<Cmd, ParseError>)
    requires
        from <= to <= v@.len(),
    ensures
        match r {
            Ok(c) => cmd_of(v@.subrange(from as int, to as int), strings_view(ps@)) == Ok::<
                CmdV,
                ParseError,
            >(c@),
            Err(e) => cmd_of(v@.subrange(from as int, to as int), strings_view(ps@)) == Err::<
                CmdV,
                ParseError,
            >(e),
        },
{
    let ghost cmd = v@.subrange(from as int, to as int);
    let ghost sv = strings_view(ps@);
    reveal(cmd_of);
    let n = ps.len();
    assert(sv.len() == n);
    if eq_lit(v, from, to, "PRIVMSG") {
        if n == 2 {
            let t = ps[0].clone();
            let receivers = if is_chan(&t) {
                Receiver::Chan(t)
            } else {
                Receiver::User(t)
            };
            Ok(Cmd::PRIVMSG { receivers, contents: ps[1].clone() })
        } else {
            Err(ParseError::BadParams)
        }
    } else if eq_lit(v, from, to, "JOIN") {
        if n >= 1 {
            Ok(Cmd::JOIN { chan: ps[0].clone() })
        } else {
            Err(ParseError::BadParams)
        }
    } else if eq_lit(v, from, to, "PART") {
        if n >= 1 {
            Ok(Cmd::PART { chan: ps[0].clone(), msg: param(&ps, 1) })
        } else {
            Err(ParseError::BadParams)
        }
    } else if eq_lit(v, from, to, "QUIT") {
        Ok(Cmd::QUIT { msg: param(&ps, 0) })
    } else if eq_lit(v, from, to, "NOTICE") {
        if n == 2 {
            Ok(Cmd::NOTICE { nick: ps[0].clone(), msg: ps[1].clone() })
        } else {
            Err(ParseError::BadParams)
        }
    } else if eq_lit(v, from, to, "NICK") {
        if n >= 1 {
            Ok(Cmd::NICK { nick: ps[0].clone() })
        } else {
            Err(ParseError::BadParams)
        }
    } else if to - from == 3 && '0' <= v[from] && v[from] <= '9' && '0' <= v[from + 1] && v[
        from + 1] <= '9' && '0' <= v[from + 2] && v[from + 2] <= '9' {
        let num = (v[from] as u32 - '0' as u32) * 100 + (v[from + 1] as u32 - '0' as u32) * 10 + (
        v[from + 2] as u32 - '0' as u32);
        assert(sv =~= strings_view(ps@));
        Ok(Cmd::Reply { num: num as u16, params: ps })
    } else {
        Ok(Cmd::Other { cmd: string_of(v, from, to), params: ps })
    }
}

/// Decodes one line, with or without its terminator.
pub fn decode(line: &str) -> (r: Result<Msg, ParseError>)
    ensures
        match r {
            Ok(m) => decode_spec(line@) == Ok::<MsgV, ParseError>(m@),
            Err(e) => decode_spec(line@) == Err::<MsgV, ParseError>(e),
        },
{
    let v = chars_of(line);
    let mut end = v.len();
    if end > 0 && v[end - 1] == '\n' {
        end = end - 1;
    }
    if end > 0 && v[end - 1] == '\r' {
        end = end - 1;
    }
    let ghost s = v@.subrange(0, end as int);
    assert(s =~= strip_terminator(line@));
    if end == 0 {
        return Err(ParseError::Empty);
    }
    let mut start: usize = 0;
    let mut pfx: Option<Pfx> = None;
    if v[0] == ':' {
        let e = find(&v, end, ' ', 1);
        if e >= end {
            return Err(ParseError::NoCommand);
        }
        pfx = Some(parse_pfx(&v, 1, e));
        assert(v@.subrange(1, e as int) =~= s.subrange(1, e as int));
        start = e + 1;
    }
    let cend = find(&v, end, ' ', start);
    if cend == start {
        return Err(ParseError::NoCommand);
    }
    let params = split_params(&v, end, cend);
    assert(v@.subrange(start as int, cend as int) =~= s.subrange(start as int, cend as int));
    match make_cmd(&v, start, cend, params) {
        Ok(cmd) => Ok(Msg { pfx, cmd }),
        Err(e) => Err(e),
    }
}

// ---------------------------------------------------------------------------
// Encoding
/// Longest line, terminator included, in bytes.
pub const MAX_LINE_BYTES: usize = 512;

/// An argument that stands as one word: not empty, no space, no line
/// terminator, and not taken for a trailing parameter.
pub open spec fn valid_word(s: Seq<char>) -> bool {
    &&& s.len() > 0
    &&& s[0] != ':'
    &&& forall|i: int| 0 <= i < s.len() ==> #[trigger] s[i] != ' ' && s[i] != '\r' && s[i] != '\n'
}

/// An argument that may end a line: no line terminator in it.
pub open spec fn valid_text(s: Seq<char>) -> bool {
    forall|i: int| 0 <= i < s.len() ==> #[trigger] s[i] != '\r' && s[i] != '\n'
}

/// The line itself when it fits the length limit.
pub open spec fn limited(line: Seq<char>) -> Result<Seq<char>, EncodeError> {
    if byte_len(line) > MAX_LINE_BYTES {
        Err(EncodeError::TooLong)
    } else {
        Ok(line)
    }
}

pub open spec fn join_spec(chan: Seq<char>) -> Result<Seq<char>, EncodeError> {
    if !valid_word(chan) {
        Err(EncodeError::InvalidArgument)
    } else {
        limited("JOIN "@ + chan + "\r\n"@)
    }
}

pub open spec fn privmsg_spec(target: Seq<char>, text: Seq<char>) -> Result<Seq<char>, EncodeError> {
    if !valid_word(target) || !valid_text(text) {
        Err(EncodeError::InvalidArgument)
    } else {
        limited("PRIVMSG "@ + target + " :"@ + text + "\r\n"@)
    }
}

pub open spec fn nick_spec(nick: Seq<char>) -> Result<Seq<char>, EncodeError> {
    if !valid_word(nick) {
        Err(EncodeError::InvalidArgument)
    } else {
        limited("NICK "@ + nick + "\r\n"@)
    }
}

pub open spec fn user_spec(hostname: Seq<char>, realname: Seq<char>) -> Result<
    Seq<char>,
    EncodeError,
> {
    if !valid_word(hostname) || !valid_text(realname) {
        Err(EncodeError::InvalidArgument)
    } else {
        limited("USER "@ + hostname + " 8 * :"@ + realname + "\r\n"@)
    }
}

pub open spec fn quit_spec(text: Seq<char>) -> Result<Seq<char>, EncodeError> {
    if !valid_text(text) {
        Err(EncodeError::InvalidArgument)
    } else {
        limited("QUIT :"@ + text + "\r\n"@)
    }
}

fn check_chars(s: &str, word: bool) -> (r: bool)
    ensures
        r == if word {
            valid_word(s@)
        } else {
            valid_text(s@)
        },
{
    let n = s.unicode_len();
    if word && (n == 0 || s.get_char(0) == ':') {
        return false;
    }
    let mut i: usize = 0;
    while i < n
        invariant
            n == s@.len(),
            i <= n,
            forall|k: int| 0 <= k < i ==> #[trigger] s@[k] != '\r' && s@[k] != '\n' && (!word
                || s@[k] != ' '),
        decreases n - i,
    {
        let c = s.get_char(i);
        if c == '\r' || c == '\n' || (word && c == ' ') {
            return false;
        }
        i = i + 1;
    }
    true
}

fn check_length(line: String) -> (r: Result<String, EncodeError>)
    ensures
        match r {
            Ok(l) => limited(line@) == Ok::<Seq<char>, EncodeError>(l@),
            Err(e) => limited(line@) == Err::<Seq<char>, EncodeError>(e),
        },
{
    let t = line.as_str();
    let n = t.unicode_len();
    let mut total: usize = 0;
    let mut i: usize = 0;
    while i < n
        invariant
            n == line@.len(),
            t@ == line@,
            i <= n,
            total == byte_len(line@.take(i as int)),
            total <= MAX_LINE_BYTES,
        decreases n - i,
    {
        proof {
            crate::utils::lemma_byte_len_step(line@, i as int);
        }
        total = total + crate::utils::char_width(t.get_char(i));
        if total > MAX_LINE_BYTES {
            return Err(EncodeError::TooLong);
        }
        i = i + 1;
    }
    assert(line@.take(n as int) =~= line@);
    Ok(line)
}

/// The line that joins a channel.
pub fn join(chan: &str) -> (r: Result<String, EncodeError>)
    ensures
        match r {
            Ok(l) => join_spec(chan@) == Ok::<Seq<char>, EncodeError>(l@),
            Err(e) => join_spec(chan@) == Err::<Seq<char>, EncodeError>(e),
        },
{
    if !check_chars(chan, true) {
        return Err(EncodeError::InvalidArgument);
    }
    let mut l = String::from_str("JOIN ");
    l.append(chan);
    l.append("\r\n");
    check_length(l)
}

/// The line that sends `text` to a channel or a nick.
pub fn privmsg(target: &str, text: &str) -> (r: Result<String, EncodeError>)
    ensures
        match r {
            Ok(l) => privmsg_spec(target@, text@) == Ok::<Seq<char>, EncodeError>(l@),
            Err(e) => privmsg_spec(target@, text@) == Err::<Seq<char>, EncodeError>(e),
        },
{
    if !check_chars(target, true) || !check_chars(text, false) {
        return Err(EncodeError::InvalidArgument);
    }
    let mut l = String::from_str("PRIVMSG ");
    l.append(target);
    l.append(" :");
    l.append(text);
    l.append("\r\n");
    check_length(l)
}

/// The line that asks for a nick.
pub fn nick(name: &str) -> (r: Result<String, EncodeError>)
    ensures
        match r {
            Ok(l) => nick_spec(name@) == Ok::<Seq<char>, EncodeError>(l@),
            Err(e) => nick_spec(name@) == Err::<Seq<char>, EncodeError>(e),
        },
{
    if !check_chars(name, true) {
        return Err(EncodeError::InvalidArgument);
    }
    let mut l = String::from_str("NICK ");
    l.append(name);
    l.append("\r\n");
    check_length(l)
}

/// The line that registers the user's host and real name.
pub fn user(hostname: &str, realname: &str) -> (r: Result<String, EncodeError>)
    ensures
        match r {
            Ok(l) => user_spec(hostname@, realname@) == Ok::<Seq<char>, EncodeError>(l@),
            Err(e) => user_spec(hostname@, realname@) == Err::<Seq<char>, EncodeError>(e),
        },
{
    if !check_chars(hostname, true) || !check_chars(realname, false) {
        return Err(EncodeError::InvalidArgument);
    }
    let mut l = String::from_str("USER ");
    l.append(hostname);
    l.append(" 8 * :");
    l.append(realname);
    l.append("\r\n");
    check_length(l)
}

/// The line that leaves the server with a message.
pub fn quit(text: &str) -> (r: Result<String, EncodeError>)
    ensures
        match r {
            Ok(l) => quit_spec(text@) == Ok::<Seq<char>, EncodeError>(l@),
            Err(e) => quit_spec(text@) == Err::<Seq<char>, EncodeError>(e),
        },
{
    if !check_chars(text, false) {
        return Err(EncodeError::InvalidArgument);
    }
    let mut l = String::from_str("QUIT :");
    l.append(text);
    l.append("\r\n");
    check_length(l)
}

// ---------------------------------------------------------------------------
// Round trips
proof fn lemma_index_of_at(s: Seq<char>, c: char, from: int, m: int)
    requires
        0 <= from <= m <= s.len(),
        m < s.len() ==> s[m] == c,
        forall|k: int| from <= k < m ==> s[k] != c,
    ensures
        index_of(s, c, from) == m,
    decreases m - from,
{
    if from < m {
        lemma_index_of_at(s, c, from + 1, m);
    }
}

proof fn lemma_strip_crlf(s: Seq<char>)
    ensures
        strip_terminator(s + "\r\n"@) == s,
{
    reveal_strlit("\r\n");
    let line = s + "\r\n"@;
    assert(line.drop_last() =~= s.push('\r'));
    assert(line.drop_last().drop_last() =~= s);
}

/// A word argument followed by the rest of the line: its parameters are
/// the word, then the parameters after it.
proof fn lemma_word_param(s: Seq<char>, i: int, w: Seq<char>)
    requires
        valid_word(w),
        0 <= i,
        i + w.len() <= s.len(),
        s.subrange(i, i + w.len()) == w,
        i + w.len() < s.len() ==> s[i + w.len()] == ' ',
    ensures
        params_from(s, i) == seq![w] + params_from(s, i + w.len()),
{
    assert forall|k: int| i <= k < i + w.len() implies s[k] != ' ' by {
        assert(s[k] == w[k - i]);
    }
    lemma_index_of_at(s, ' ', i, i + w.len());
    assert(s[i] == w[0]);
}

/// Decoding a join line gives back the channel.
pub proof fn lemma_join_round_trip(chan: Seq<char>)
    requires
        join_spec(chan) is Ok,
    ensures
        decode_spec(join_spec(chan)->Ok_0) == Ok::<MsgV, ParseError>(
            MsgV { pfx: None, cmd: CmdV::JOIN { chan } },
        ),
{
    reveal_strlit("JOIN ");
    reveal_strlit("JOIN");
    reveal_strlit("PRIVMSG");
    reveal(cmd_of);
    let s = "JOIN "@ + chan;
    assert("JOIN "@ + chan + "\r\n"@ =~= s + "\r\n"@);
    lemma_strip_crlf(s);
    lemma_index_of_at(s, ' ', 0, 4);
    assert(s.subrange(0, 4) =~= "JOIN"@);
    assert(s.subrange(5, 5 + chan.len() as int) =~= chan);
    lemma_word_param(s, 5, chan);
    assert(params_from(s, 4) == params_from(s, 5));
    assert(params_from(s, 5 + chan.len() as int) =~= Seq::<Seq<char>>::empty());
    assert(params_from(s, 4) =~= seq![chan]);
}

/// Decoding a chat line gives back the target and the text.
pub proof fn lemma_privmsg_round_trip(target: Seq<char>, text: Seq<char>)
    requires
        privmsg_spec(target, text) is Ok,
    ensures
        decode_spec(privmsg_spec(target, text)->Ok_0) == Ok::<MsgV, ParseError>(
            MsgV { pfx: None, cmd: CmdV::PRIVMSG { receivers: receiver_of(target), contents: text } },
        ),
{
    reveal_strlit("PRIVMSG ");
    reveal_strlit("PRIVMSG");
    reveal_strlit(" :");
    reveal(cmd_of);
    let s = "PRIVMSG "@ + target + " :"@ + text;
    let t = target.len() as int;
    assert("PRIVMSG "@ + target + " :"@ + text + "\r\n"@ =~= s + "\r\n"@);
    lemma_strip_crlf(s);
    lemma_index_of_at(s, ' ', 0, 7);
    assert(s.subrange(0, 7) =~= "PRIVMSG"@);
    assert(s.subrange(8, 8 + t) =~= target);
    lemma_word_param(s, 8, target);
    assert(params_from(s, 7) == params_from(s, 8));
    assert(s[8 + t] == ' ');
    assert(params_from(s, 8 + t) == params_from(s, 9 + t));
    assert(s[9 + t] == ':');
    assert(s.subrange(10 + t, s.len() as int) =~= text);
    assert(params_from(s, 7) =~= seq![target, text]);
}

/// Decoding a quit line gives back its message.
pub proof fn lemma_quit_round_trip(text: Seq<char>)
    requires
        quit_spec(text) is Ok,
    ensures
        decode_spec(quit_spec(text)->Ok_0) == Ok::<MsgV, ParseError>(
            MsgV { pfx: None, cmd: CmdV::QUIT { msg: Some(text) } },
        ),
{
    reveal_strlit("QUIT :");
    reveal_strlit("QUIT");
    reveal_strlit("PRIVMSG");
    reveal_strlit("JOIN");
    reveal_strlit("PART");
    reveal(cmd_of);
    let s = "QUIT :"@ + text;
    assert("QUIT :"@ + text + "\r\n"@ =~= s + "\r\n"@);
    lemma_strip_crlf(s);
    lemma_index_of_at(s, ' ', 0, 4);
    assert(s.subrange(0, 4) =~= "QUIT"@);
    assert(params_from(s, 4) == params_from(s, 5));
    assert(s.subrange(6, s.len() as int) =~= text);
    assert(params_from(s, 4) =~= seq![text]);
}

/// Decoding a nick line gives back the nick.
pub proof fn lemma_nick_round_trip(name: Seq<char>)
    requires
        nick_spec(name) is Ok,
    ensures
        decode_spec(nick_spec(name)->Ok_0) == Ok::<MsgV, ParseError>(
            MsgV { pfx: None, cmd: CmdV::NICK { nick: name } },
        ),
{
    reveal_strlit("NICK ");
    reveal_strlit("NICK");
    reveal_strlit("PRIVMSG");
    reveal_strlit("JOIN");
    reveal_strlit("PART");
    reveal_strlit("QUIT");
    reveal_strlit("NOTICE");
    reveal(cmd_of);
    let s = "NICK "@ + name;
    assert("NICK "@ + name + "\r\n"@ =~= s + "\r\n"@);
    lemma_strip_crlf(s);
    lemma_index_of_at(s, ' ', 0, 4);
    assert(s.subrange(0, 4) =~= "NICK"@);
    assert(s.subrange(5, 5 + name.len() as int) =~= name);
    lemma_word_param(s, 5, name);
    assert(params_from(s, 4) == params_from(s, 5));
    assert(params_from(s, 5 + name.len() as int) =~= Seq::<Seq<char>>::empty());
    assert(params_from(s, 4) =~= seq![name]);
}

/// Decoding a user line gives back its verb and its parameters: the host,
/// the mode, the unused field and the real name.
pub proof fn lemma_user_round_trip(hostname: Seq<char>, realname: Seq<char>)
    requires
        user_spec(hostname, realname) is Ok,
    ensures
        decode_spec(user_spec(hostname, realname)->Ok_0) == Ok::<MsgV, ParseError>(
            MsgV {
                pfx: None,
                cmd: CmdV::Other { cmd: "USER"@, params: seq![hostname, "8"@, "*"@, realname] },
            },
        ),
{
    reveal_strlit("USER ");
    reveal_strlit("USER");
    reveal_strlit(" 8 * :");
    reveal_strlit("8");
    reveal_strlit("*");
    reveal_strlit("PRIVMSG");
    reveal_strlit("JOIN");
    reveal_strlit("PART");
    reveal_strlit("QUIT");
    reveal_strlit("NOTICE");
    reveal_strlit("NICK");
    reveal(cmd_of);
    let s = "USER "@ + hostname + " 8 * :"@ + realname;
    let h = hostname.len() as int;
    assert("USER "@ + hostname + " 8 * :"@ + realname + "\r\n"@ =~= s + "\r\n"@);
    lemma_strip_crlf(s);
    lemma_index_of_at(s, ' ', 0, 4);
    assert(s.subrange(0, 4) =~= "USER"@);
    assert(s.subrange(5, 5 + h) =~= hostname);
    lemma_word_param(s, 5, hostname);
    assert(params_from(s, 4) == params_from(s, 5));
    assert(params_from(s, 5 + h) == params_from(s, 6 + h));
    lemma_index_of_at(s, ' ', 6 + h, 7 + h);
    assert(s.subrange(6 + h, 7 + h) =~= "8"@);
    assert(params_from(s, 6 + h) =~= seq!["8"@] + params_from(s, 7 + h));
    assert(params_from(s, 7 + h) == params_from(s, 8 + h));
    lemma_index_of_at(s, ' ', 8 + h, 9 + h);
    assert(s.subrange(8 + h, 9 + h) =~= "*"@);
    assert(params_from(s, 8 + h) =~= seq!["*"@] + params_from(s, 9 + h));
    assert(params_from(s, 9 + h) == params_from(s, 10 + h));
    assert(s.subrange(11 + h, s.len() as int) =~= realname);
    assert(params_from(s, 10 + h) =~= seq![realname]);
    assert(params_from(s, 4) =~= seq![hostname, "8"@, "*"@, realname]);
    assert(!is_numeric("USER"@));
}

} // verus!
