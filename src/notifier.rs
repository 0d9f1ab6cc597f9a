use vstd::prelude::*;

use crate::target::MsgTarget;
use crate::utils::{chars_of, str_eq};

verus! {

/// When a desktop notification is shown for an incoming chat message.
#[derive(Clone, Copy, Debug, PartialEq, Eq, Structural)]
pub enum Notifier {
    Off,
    Mentions,
    Messages,
}

/// A desktop notification to show.
#[derive(Clone, Debug, PartialEq, Eq)]
pub struct Notification {
    pub summary: String,
    pub body: String,
}

/// The notification, if any, for a chat message from `sender` with text
/// `msg` to `target`.
pub open spec fn privmsg_notification(
    mode: Notifier,
    sender: Seq<char>,
    msg: Seq<char>,
    target: MsgTarget,
    our_nick: Seq<char>,
    mention: bool,
) -> Option<(Seq<char>, Seq<char>)> {
    if our_nick == sender {
        None
    } else {
        match target {
            MsgTarget::Chan { chan_name, .. } => if mode == Notifier::Messages || (mode
                == Notifier::Mentions && mention) {
                Some((sender + " in "@ + chan_name@, msg))
            } else {
                None
            },
            MsgTarget::User { nick, .. } => if mode != Notifier::Off {
                Some((nick@ + " sent a private message"@, msg))
            } else {
                None
            },
            _ => None,
        }
    }
}

impl Notifier {
    /// Decides whether a chat message gets a notification, and what it says.
    /// Messages of our own never do; a channel message does in `Messages`
    /// mode, or in `Mentions` mode where it mentions us; a direct message
    /// does unless notifications are off.
    pub fn notify_privmsg(
        &mut self,
        sender: &str,
        msg: &str,
        target: &MsgTarget,
        our_nick: &str,
        mention: bool,
    ) -> (r: Option<Notification>)
        ensures
            *final(self) == *old(self),
            match privmsg_notification(*old(self), sender@, msg@, *target, our_nick@, mention) {
                None => r is None,
                Some((summary, body)) => r matches Some(n) && n.summary@ == summary && n.body@
                    == body,
            },
    {
        if str_eq(our_nick, sender) {
            return None;
        }
        match target {
            MsgTarget::Chan { chan_name, .. } => {
                if *self == Notifier::Messages || (*self == Notifier::Mentions && mention) {
                    let mut summary = String::from_str(sender);
                    summary.append(" in ");
                    summary.append(chan_name.as_str());
                    Some(Notification { summary, body: String::from_str(msg) })
                } else {
                    None
                }
            },
            MsgTarget::User { nick, .. } => {
                if *self != Notifier::Off {
                    let mut summary = nick.clone();
                    summary.append(" sent a private message");
                    Some(Notification { summary, body: String::from_str(msg) })
                } else {
                    None
                }
            },
            _ => None,
        }
    }
}

/// Whether `nick` occurs in `text`.
pub open spec fn mentioned(text: Seq<char>, nick: Seq<char>) -> bool {
    exists|i: int| 0 <= i <= text.len() - nick.len() && #[trigger] text.subrange(i, i + nick.len()) == nick
}

/// Whether a message mentions the nick `nick`.
pub fn mentions(text: &str, nick: &str) -> (r: bool)
    ensures
        r == mentioned(text@, nick@),
{
    let t = chars_of(text);
    let n = chars_of(nick);
    if n.len() > t.len() {
        return false;
    }
    let tl = t.len();
    let last = tl - n.len();
    let mut i: usize = 0;
    while i <= last
        invariant
            t@ == text@,
            n@ == nick@,
            n@.len() <= t@.len(),
            tl == t@.len(),
            last == t@.len() - n@.len(),
            forall|j: int| 0 <= j < i ==> #[trigger] t@.subrange(j, j + n@.len()) != n@,
        decreases last + 1 - i,
    {
        let mut k: usize = 0;
        while k < n.len() && t[i + k] == n[k]
            invariant
                i <= last,
                last == t@.len() - n@.len(),
                n@.len() <= t@.len(),
                tl == t@.len(),
                i + n@.len() <= t@.len(),
                k <= n@.len(),
                forall|m: int| 0 <= m < k ==> t@[i + m] == n@[m],
            decreases n@.len() - k,
        {
            k = k + 1;
        }
        if k == n.len() {
            assert(t@.subrange(i as int, i + n@.len()) =~= n@);
            return true;
        }
        assert(t@.subrange(i as int, i + n@.len())[k as int] != n@[k as int]);
        i = i + 1;
    }
    false
}

} // verus!
