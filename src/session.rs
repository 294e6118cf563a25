//! The coordinator of one connection: it holds the client's identity,
//! turns what arrives from the client, the room and the clock into the
//! actions that the transport and the room are to carry out.

use crate::game::{ConnId, Error};
use crate::messages::{outbound_json, outbound_text, InboundMessage, Outbound, OutboundMessage, UserStatus};
use crate::vote::Vote;
use vstd::prelude::*;

verus! {

/// The framing of a connection, chosen when it opens.
#[derive(Clone, Copy, Debug, PartialEq, Eq, Structural)]
pub enum Mode {
    Json,
    Text,
}

/// The query of the upgrade request.
#[derive(Clone, Copy, Debug, PartialEq, Eq)]
pub struct QueryParams {
    pub mode: Option<Mode>,
}

/// The close code for a policy violation.
pub const POLICY_VIOLATION: u16 = 1008;

/// How often the session pings the client, in milliseconds.
pub const HEARTBEAT_INTERVAL_MS: u64 = 5000;

/// How long the client may stay silent, in milliseconds.
pub const CLIENT_TIMEOUT_MS: u64 = 10000;

/// The code and text of a close frame.
#[derive(Clone, Debug, PartialEq)]
pub struct CloseReason {
    pub code: u16,
    pub description: Option<String>,
}

/// What the coordinator asks the transport or the room to do.
#[derive(Clone, Debug, PartialEq)]
pub enum Action {
    /// Ask the room to admit the client under this nickname, and report
    /// the answer with `on_connect_reply`.
    Connect { nickname: String },
    Vote { conn_id: ConnId, vote: Vote },
    SetStatus { conn_id: ConnId, status: UserStatus },
    Disconnect { conn_id: ConnId },
    /// Write a text frame.
    Send(String),
    Ping,
    Pong(Vec<u8>),
    /// Send a close frame and stop.
    Close(Option<CloseReason>),
}

/// What an `Action` holds, with strings as their characters.
pub enum ActionView {
    Connect(Seq<char>),
    Vote(ConnId, Vote),
    SetStatus(ConnId, UserStatus),
    Disconnect(ConnId),
    Send(Seq<char>),
    Ping,
    Pong(Seq<u8>),
    Close(Option<(u16, Option<Seq<char>>)>),
}

pub open spec fn reason_view(r: Option<CloseReason>) -> Option<(u16, Option<Seq<char>>)> {
    match r {
        Some(c) => Some(
            (
                c.code,
                match c.description {
                    Some(d) => Some(d@),
                    None => None,
                },
            ),
        ),
        None => None,
    }
}

impl View for Action {
    type V = ActionView;

    open spec fn view(&self) -> ActionView {
        match self {
            Action::Connect { nickname } => ActionView::Connect(nickname@),
            Action::Vote { conn_id, vote } => ActionView::Vote(*conn_id, *vote),
            Action::SetStatus { conn_id, status } => ActionView::SetStatus(*conn_id, *status),
            Action::Disconnect { conn_id } => ActionView::Disconnect(*conn_id),
            Action::Send(t) => ActionView::Send(t@),
            Action::Ping => ActionView::Ping,
            Action::Pong(b) => ActionView::Pong(b@),
            Action::Close(r) => ActionView::Close(reason_view(*r)),
        }
    }
}

pub open spec fn actions(v: Seq<Action>) -> Seq<ActionView> {
    v.map_values(|a: Action| a@)
}

/// The text frame that carries `m` in the given framing; JSON when the
/// mode is `Json`, line text otherwise.
pub open spec fn framed(mode: Option<Mode>, m: Outbound) -> Seq<char> {
    if mode == Some(Mode::Json) {
        outbound_json(m)
    } else {
        outbound_text(m)
    }
}

/// The state of one connection.
#[derive(Debug)]
pub struct Session {
    pub mode: Option<Mode>,
    /// The nickname the client asked for, while the room has not answered.
    pub requested: Option<String>,
    /// The nickname under which the client was admitted.
    pub nickname: Option<String>,
    pub conn_id: Option<ConnId>,
    /// When the client was last heard from, in milliseconds.
    pub last_heartbeat: u64,
    pub closed: bool,
}

/// The actions that end a session: leave the room if it was joined, then
/// close with `reason`.
pub open spec fn closing(
    conn_id: Option<ConnId>,
    reason: Option<(u16, Option<Seq<char>>)>,
) -> Seq<ActionView> {
    match conn_id {
        Some(id) => seq![ActionView::Disconnect(id), ActionView::Close(reason)],
        None => seq![ActionView::Close(reason)],
    }
}

impl Session {
    /// A connection that has just opened, at time `now`.
    pub fn new(mode: Option<Mode>, now: u64) -> (r: Session)
        ensures
            r.mode == mode,
            r.requested is None,
            r.nickname is None,
            r.conn_id is None,
            r.last_heartbeat == now,
            !r.closed,
    {
        Session { mode, requested: None, nickname: None, conn_id: None, last_heartbeat: now, closed: false }
    }

    /// Whether the room has admitted the client.
    pub fn is_identified(&self) -> (r: bool)
        ensures
            r == self.conn_id is Some,
    {
        self.conn_id.is_some()
    }

    /// Ends the session with `reason`.
    fn finish(&mut self, reason: Option<CloseReason>) -> (r: Vec<Action>)
        ensures
            final(self).closed,
            final(self).mode == old(self).mode,
            final(self).requested == old(self).requested,
            final(self).nickname == old(self).nickname,
            final(self).conn_id == old(self).conn_id,
            final(self).last_heartbeat == old(self).last_heartbeat,
            actions(r@) == closing(old(self).conn_id, reason_view(reason)),
    {
        self.closed = true;
        let mut r: Vec<Action> = Vec::new();
        if let Some(id) = self.conn_id {
            r.push(Action::Disconnect { conn_id: id });
        }
        let ghost rv = reason_view(reason);
        r.push(Action::Close(reason));
        assert(actions(r@) =~= closing(old(self).conn_id, rv));
        r
    }

    /// A message from the client. Before it is admitted the client may
    /// only ask to join; after, it may vote and set its status.
    pub fn on_text(&mut self, msg: InboundMessage) -> (r: Vec<Action>)
        ensures
            final(self).mode == old(self).mode,
            final(self).nickname == old(self).nickname,
            final(self).conn_id == old(self).conn_id,
            final(self).last_heartbeat == old(self).last_heartbeat,
            final(self).closed == old(self).closed,
            if old(self).closed {
                actions(r@) == Seq::<ActionView>::empty() && final(self).requested == old(
                    self,
                ).requested
            } else {
                match old(self).conn_id {
                    None => if (msg is Connect && old(self).requested is None) {
                        actions(r@) == seq![ActionView::Connect(msg->nickname@)]
                            && final(self).requested == Some(msg->nickname)
                    } else {
                        actions(r@) == Seq::<ActionView>::empty() && final(self).requested
                            == old(self).requested
                    },
                    Some(id) => final(self).requested == old(self).requested && match msg {
                        InboundMessage::Vote { value } => actions(r@) == seq![
                            ActionView::Vote(id, value),
                        ],
                        InboundMessage::SetStatus(s) => actions(r@) == seq![
                            ActionView::SetStatus(id, s),
                        ],
                        _ => actions(r@) == Seq::<ActionView>::empty(),
                    },
                }
            },
    {
        let mut r: Vec<Action> = Vec::new();
        if self.closed {
            assert(actions(r@) =~= Seq::<ActionView>::empty());
            return r;
        }
        match self.conn_id {
            None => {
                if self.requested.is_none() {
                    if let InboundMessage::Connect { nickname } = msg {
                        let ghost n = nickname;
                        self.requested = Some(nickname.clone());
                        r.push(Action::Connect { nickname });
                        assert(actions(r@) =~= seq![ActionView::Connect(n@)]);
                        return r;
                    }
                }
            },
            Some(id) => match msg {
                InboundMessage::Vote { value } => {
                    r.push(Action::Vote { conn_id: id, vote: value });
                    assert(actions(r@) =~= seq![ActionView::Vote(id, value)]);
                    return r;
                },
                InboundMessage::SetStatus(s) => {
                    r.push(Action::SetStatus { conn_id: id, status: s });
                    assert(actions(r@) =~= seq![ActionView::SetStatus(id, s)]);
                    return r;
                },
                _ => {},
            },
        }
        assert(actions(r@) =~= Seq::<ActionView>::empty());
        r
    }

    /// The room's answer to a `Connect`: the client is admitted, or the
    /// session closes with a policy violation that carries the error.
    pub fn on_connect_reply(&mut self, reply: Result<ConnId, Error>) -> (r: Vec<Action>)
        ensures
            final(self).mode == old(self).mode,
            final(self).last_heartbeat == old(self).last_heartbeat,
            old(self).closed ==> actions(r@) == Seq::<ActionView>::empty() && *final(self) == *old(
                self,
            ),
            !old(self).closed ==> match reply {
                Ok(id) => {
                    &&& actions(r@) == Seq::<ActionView>::empty()
                    &&& final(self).conn_id == Some(id)
                    &&& final(self).nickname == old(self).requested
                    &&& final(self).requested is None
                    &&& !final(self).closed
                },
                Err(e) => {
                    &&& final(self).closed
                    &&& final(self).conn_id == old(self).conn_id
                    &&& final(self).nickname == old(self).nickname
                    &&& final(self).requested == old(self).requested
                    &&& actions(r@) == closing(
                        old(self).conn_id,
                        Some((POLICY_VIOLATION, Some(e.text()))),
                    )
                },
            },
    {
        if self.closed {
            let r: Vec<Action> = Vec::new();
            assert(actions(r@) =~= Seq::<ActionView>::empty());
            return r;
        }
        match reply {
            Ok(id) => {
                self.nickname = self.requested.take();
                self.conn_id = Some(id);
                let r: Vec<Action> = Vec::new();
                assert(actions(r@) =~= Seq::<ActionView>::empty());
                r
            },
            Err(e) => {
                let text = e.to_string();
                let reason = CloseReason { code: POLICY_VIOLATION, description: Some(text) };
                self.finish(Some(reason))
            },
        }
    }

    /// The frame that carries a message from the room to this client.
    pub fn encode(&self, m: &OutboundMessage) -> (r: String)
        ensures
            r@ == framed(self.mode, m@),
    {
        match self.mode {
            Some(Mode::Json) => m.to_json(),
            _ => m.to_string(),
        }
    }

    /// A message from the room: it is written to the client.
    pub fn on_outbound(&self, m: &OutboundMessage) -> (r: Vec<Action>)
        ensures
            self.closed ==> actions(r@) == Seq::<ActionView>::empty(),
            !self.closed ==> actions(r@) == seq![ActionView::Send(framed(self.mode, m@))],
    {
        let mut r: Vec<Action> = Vec::new();
        if !self.closed {
            let t = self.encode(m);
            let ghost tv = t@;
            r.push(Action::Send(t));
            assert(actions(r@) =~= seq![ActionView::Send(tv)]);
        } else {
            assert(actions(r@) =~= Seq::<ActionView>::empty());
        }
        r
    }

    /// A request that the room could not take: the client is told, in the
    /// JSON framing, and the session goes on; a join that failed so is no
    /// longer pending.
    pub fn on_command_failed(&mut self, message: String) -> (r: Vec<Action>)
        ensures
            old(self).closed ==> actions(r@) == Seq::<ActionView>::empty() && *final(self) == *old(
                self,
            ),
            !old(self).closed ==> actions(r@) == seq![
                ActionView::Send(outbound_json(Outbound::Error(message@))),
            ] && *final(self) == (Session { requested: None, ..*old(self) }),
    {
        let mut r: Vec<Action> = Vec::new();
        if !self.closed {
            self.requested = None;
            let m = OutboundMessage::Error(message);
            let t = m.to_json();
            let ghost tv = t@;
            r.push(Action::Send(t));
            assert(actions(r@) =~= seq![ActionView::Send(tv)]);
        } else {
            assert(actions(r@) =~= Seq::<ActionView>::empty());
        }
        r
    }

    /// A keepalive ping from the client at time `now`: answered with a pong.
    pub fn on_ping(&mut self, bytes: Vec<u8>, now: u64) -> (r: Vec<Action>)
        ensures
            old(self).closed ==> actions(r@) == Seq::<ActionView>::empty() && *final(self) == *old(
                self,
            ),
            !old(self).closed ==> actions(r@) == seq![ActionView::Pong(bytes@)] && *final(self)
                == (Session { last_heartbeat: now, ..*old(self) }),
    {
        let mut r: Vec<Action> = Vec::new();
        if self.closed {
            assert(actions(r@) =~= Seq::<ActionView>::empty());
            return r;
        }
        self.last_heartbeat = now;
        let ghost bv = bytes@;
        r.push(Action::Pong(bytes));
        assert(actions(r@) =~= seq![ActionView::Pong(bv)]);
        r
    }

    /// A keepalive pong from the client at time `now`.
    pub fn on_pong(&mut self, now: u64)
        ensures
            old(self).closed ==> *final(self) == *old(self),
            !old(self).closed ==> *final(self) == (Session { last_heartbeat: now, ..*old(self) }),
    {
        if !self.closed {
            self.last_heartbeat = now;
        }
    }

    /// The heartbeat at time `now`: a client silent for longer than the
    /// timeout is dropped, any other is pinged.
    pub fn on_tick(&mut self, now: u64) -> (r: Vec<Action>)
        ensures
            old(self).closed ==> actions(r@) == Seq::<ActionView>::empty() && *final(self) == *old(
                self,
            ),
            !old(self).closed && now > old(self).last_heartbeat + CLIENT_TIMEOUT_MS ==> {
                &&& final(self).closed
                &&& actions(r@) == closing(old(self).conn_id, None)
            },
            !old(self).closed && now <= old(self).last_heartbeat + CLIENT_TIMEOUT_MS ==> {
                &&& actions(r@) == seq![ActionView::Ping]
                &&& *final(self) == *old(self)
            },
    {
        if self.closed {
            let r: Vec<Action> = Vec::new();
            assert(actions(r@) =~= Seq::<ActionView>::empty());
            return r;
        }
        if now > self.last_heartbeat && now - self.last_heartbeat > CLIENT_TIMEOUT_MS {
            return self.finish(None);
        }
        let mut r: Vec<Action> = Vec::new();
        r.push(Action::Ping);
        assert(actions(r@) =~= seq![ActionView::Ping]);
        r
    }

    /// A close frame from the client.
    pub fn on_close(&mut self, reason: Option<CloseReason>) -> (r: Vec<Action>)
        ensures
            old(self).closed ==> actions(r@) == Seq::<ActionView>::empty() && *final(self) == *old(
                self,
            ),
            !old(self).closed ==> final(self).closed && actions(r@) == closing(
                old(self).conn_id,
                reason_view(reason),
            ),
    {
        if self.closed {
            let r: Vec<Action> = Vec::new();
            assert(actions(r@) =~= Seq::<ActionView>::empty());
            return r;
        }
        self.finish(reason)
    }

    /// The client's stream failed or ended.
    pub fn on_stream_end(&mut self) -> (r: Vec<Action>)
        ensures
            old(self).closed ==> actions(r@) == Seq::<ActionView>::empty() && *final(self) == *old(
                self,
            ),
            !old(self).closed ==> final(self).closed && actions(r@) == closing(old(self).conn_id, None),
    {
        self.on_close(None)
    }
}

} // verus!
