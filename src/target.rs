use vstd::prelude::*;

verus! {

/// Where a message or a change of the tab set goes.
#[derive(Clone, Debug, PartialEq, Eq)]
pub enum MsgTarget {
    /// The tab of a server.
    Server { serv_name: String },
    /// The tab of a channel of a server.
    Chan { serv_name: String, chan_name: String },
    /// The tab of a direct conversation with a nick on a server.
    User { serv_name: String, nick: String },
    /// Every tab of a server.
    AllServTabs { serv_name: String },
    /// Every tab of a server whose participants include a nick.
    AllUserTabs { serv_name: String, nick: String },
    /// The tab the user is looking at.
    CurrentTab,
}

impl MsgTarget {
    pub fn clone_target(&self) -> (r: MsgTarget)
        ensures
            r@ == self@,
    {
        match self {
            MsgTarget::Server { serv_name } => MsgTarget::Server { serv_name: serv_name.clone() },
            MsgTarget::Chan { serv_name, chan_name } => MsgTarget::Chan {
                serv_name: serv_name.clone(),
                chan_name: chan_name.clone(),
            },
            MsgTarget::User { serv_name, nick } => MsgTarget::User {
                serv_name: serv_name.clone(),
                nick: nick.clone(),
            },
            MsgTarget::AllServTabs { serv_name } => MsgTarget::AllServTabs {
                serv_name: serv_name.clone(),
            },
            MsgTarget::AllUserTabs { serv_name, nick } => MsgTarget::AllUserTabs {
                serv_name: serv_name.clone(),
                nick: nick.clone(),
            },
            MsgTarget::CurrentTab => MsgTarget::CurrentTab,
        }
    }
}

pub ghost enum TargetV {
    Server { serv: Seq<char> },
    Chan { serv: Seq<char>, chan: Seq<char> },
    User { serv: Seq<char>, nick: Seq<char> },
    AllServTabs { serv: Seq<char> },
    AllUserTabs { serv: Seq<char>, nick: Seq<char> },
    CurrentTab,
}

impl View for MsgTarget {
    type V = TargetV;

    open spec fn view(&self) -> TargetV {
        match self {
            MsgTarget::Server { serv_name } => TargetV::Server { serv: serv_name@ },
            MsgTarget::Chan { serv_name, chan_name } => TargetV::Chan {
                serv: serv_name@,
                chan: chan_name@,
            },
            MsgTarget::User { serv_name, nick } => TargetV::User { serv: serv_name@, nick: nick@ },
            MsgTarget::AllServTabs { serv_name } => TargetV::AllServTabs { serv: serv_name@ },
            MsgTarget::AllUserTabs { serv_name, nick } => TargetV::AllUserTabs {
                serv: serv_name@,
                nick: nick@,
            },
            MsgTarget::CurrentTab => TargetV::CurrentTab,
        }
    }
}

/// The tab the user typed into.
#[derive(Clone, Debug, PartialEq, Eq)]
pub enum MsgSource {
    Serv { serv_name: String },
    Chan { serv_name: String, chan_name: String },
    User { serv_name: String, nick: String },
}

impl MsgSource {
    pub open spec fn serv_spec(&self) -> Seq<char> {
        match self {
            MsgSource::Serv { serv_name } => serv_name@,
            MsgSource::Chan { serv_name, .. } => serv_name@,
            MsgSource::User { serv_name, .. } => serv_name@,
        }
    }

    pub fn serv_name(&self) -> (r: &String)
        ensures
            r@ == self.serv_spec(),
    {
        match self {
            MsgSource::Serv { serv_name } => serv_name,
            MsgSource::Chan { serv_name, .. } => serv_name,
            MsgSource::User { serv_name, .. } => serv_name,
        }
    }
}

/// What a tab shows of a conversation: the server it belongs to, what it is
/// for, and who takes part.
pub ghost struct TabV {
    pub serv: Seq<char>,
    pub name: Option<Seq<char>>,
    pub nicks: Set<Seq<char>>,
}

/// Whether a target names the tab `t`, where `t` holds `nick` for the
/// targets that select tabs by participant.
pub open spec fn selects(target: TargetV, t: TabV) -> bool {
    match target {
        TargetV::Server { serv } => t.serv == serv && t.name is None,
        TargetV::Chan { serv, chan } => t.serv == serv && t.name == Some(chan),
        TargetV::User { serv, nick } => t.serv == serv && t.name == Some(nick),
        TargetV::AllServTabs { serv } => t.serv == serv,
        TargetV::AllUserTabs { serv, nick } => t.serv == serv && (t.nicks.contains(nick)
            || t.name == Some(nick)),
        TargetV::CurrentTab => false,
    }
}

/// The tabs after `nick` is taken off every tab that `target` selects.
pub open spec fn remove_nick(tabs: Seq<TabV>, nick: Seq<char>, target: TargetV) -> Seq<TabV> {
    tabs.map_values(
        |t: TabV|
            if selects(target, t) {
                TabV { nicks: t.nicks.remove(nick), ..t }
            } else {
                t
            },
    )
}

} // verus!
