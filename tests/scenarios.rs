use planning_poker::{
    release_session, try_acquire_session, Action, AdmissionError, CloseReason, Command, Delivery,
    GameServer, InboundMessage, Limit, Mode, Reply, Session, UserStatus, Vote,
};
use std::collections::VecDeque;

struct Net {
    server: GameServer,
    limit: Limit,
    sessions: Vec<Session>,
    inbox: Vec<VecDeque<String>>,
    closed: Vec<Option<Option<CloseReason>>>,
}

fn net(max: usize) -> Net {
    Net {
        server: GameServer::new(),
        limit: Limit::new(max),
        sessions: Vec::new(),
        inbox: Vec::new(),
        closed: Vec::new(),
    }
}

fn open(n: &mut Net) -> Result<usize, AdmissionError> {
    try_acquire_session(&mut n.limit)?;
    n.sessions.push(Session::new(Some(Mode::Json), 0));
    n.inbox.push(VecDeque::new());
    n.closed.push(None);
    Ok(n.sessions.len() - 1)
}

fn deliver(n: &mut Net, out: Vec<Delivery>) {
    for d in out {
        if let Some(s) = n.sessions.iter().position(|x| x.conn_id == Some(d.to)) {
            let acts = n.sessions[s].on_outbound(&d.message);
            run(n, s, acts);
        }
    }
}

fn run(n: &mut Net, s: usize, acts: Vec<Action>) {
    for a in acts {
        match a {
            Action::Connect { nickname } => {
                let mut out = Vec::new();
                let r = n
                    .server
                    .process_command(&Command::Connect { nickname }, &mut out);
                if let Reply::Connected(res) = r {
                    let acts = n.sessions[s].on_connect_reply(res);
                    run(n, s, acts);
                }
                deliver(n, out);
            }
            Action::Vote { conn_id, vote } => {
                let mut out = Vec::new();
                n.server.process_command(&Command::Vote { conn_id, vote }, &mut out);
                deliver(n, out);
            }
            Action::SetStatus { conn_id, status } => {
                let mut out = Vec::new();
                n.server
                    .process_command(&Command::SetStatus { conn_id, status }, &mut out);
                deliver(n, out);
            }
            Action::Disconnect { conn_id } => {
                let mut out = Vec::new();
                n.server
                    .process_command(&Command::Disconnect { conn_id }, &mut out);
                deliver(n, out);
            }
            Action::Send(t) => n.inbox[s].push_back(t),
            Action::Close(r) => n.closed[s] = Some(r),
            Action::Ping | Action::Pong(_) => {}
        }
    }
}

fn send(n: &mut Net, s: usize, msg: InboundMessage) {
    let acts = n.sessions[s].on_text(msg);
    run(n, s, acts);
}

fn close(n: &mut Net, s: usize) {
    let acts = n.sessions[s].on_close(None);
    run(n, s, acts);
    release_session(&mut n.limit);
}

fn recv(n: &mut Net, s: usize) -> String {
    n.inbox[s].pop_front().expect("a message")
}

fn connect(nickname: &str) -> InboundMessage {
    InboundMessage::Connect {
        nickname: nickname.into(),
    }
}

fn vote(v: &str) -> InboundMessage {
    InboundMessage::Vote {
        value: Vote::from(v),
    }
}

fn two_players() -> Net {
    let mut n = net(15);
    let s1 = open(&mut n).unwrap();
    let s2 = open(&mut n).unwrap();
    send(&mut n, s1, connect("Player1"));
    send(&mut n, s2, connect("Player2"));
    n.inbox[s1].clear();
    n.inbox[s2].clear();
    n
}

#[test]
fn scenario_join_sequence() {
    let mut n = net(15);
    let s1 = open(&mut n).unwrap();
    let s2 = open(&mut n).unwrap();
    send(&mut n, s1, connect("Player1"));
    assert_eq!(recv(&mut n, s1), r#"{"user_list":["Player1"]}"#);
    send(&mut n, s2, connect("Player2"));
    assert_eq!(recv(&mut n, s1), r#"{"user_list":["Player1","Player2"]}"#);
    assert_eq!(recv(&mut n, s2), r#"{"user_list":["Player1","Player2"]}"#);
}

#[test]
fn scenario_partial_then_complete_vote_then_invalid_vote() {
    let mut n = two_players();
    send(&mut n, 0, vote("1"));
    assert_eq!(recv(&mut n, 0), r#"{"your_vote":"1"}"#);
    let status = r#"{"votes_status":[["Player1","voted"],["Player2","not voted"]]}"#;
    assert_eq!(recv(&mut n, 0), status);
    assert_eq!(recv(&mut n, 1), status);
    send(&mut n, 1, vote("2"));
    assert_eq!(recv(&mut n, 1), r#"{"your_vote":"2"}"#);
    let result = r#"{"votes_result":[["Player1","1"],["Player2","2"]]}"#;
    assert_eq!(recv(&mut n, 0), result);
    assert_eq!(recv(&mut n, 1), result);
    send(&mut n, 0, vote("4"));
    assert_eq!(recv(&mut n, 0), r#"{"your_vote":"not voted"}"#);
    let status = r#"{"votes_status":[["Player1","not voted"],["Player2","not voted"]]}"#;
    assert_eq!(recv(&mut n, 0), status);
    assert_eq!(recv(&mut n, 1), status);
}

#[test]
fn scenario_disconnect() {
    let mut n = two_players();
    close(&mut n, 0);
    assert_eq!(recv(&mut n, 1), r#"{"user_list":["Player2"]}"#);
    assert!(n.inbox[0].is_empty());
}

#[test]
fn scenario_duplicate_nickname() {
    let mut n = net(15);
    let s1 = open(&mut n).unwrap();
    let s2 = open(&mut n).unwrap();
    send(&mut n, s1, connect("Player1"));
    n.inbox[s1].clear();
    send(&mut n, s2, connect("Player1"));
    assert_eq!(
        n.closed[s2],
        Some(Some(CloseReason {
            code: 1008,
            description: Some("Nickname Player1 is already in use".into()),
        }))
    );
    assert!(n.inbox[s1].is_empty());
    assert!(n.inbox[s2].is_empty());
}

#[test]
fn scenario_away() {
    let mut n = two_players();
    send(&mut n, 0, InboundMessage::SetStatus(UserStatus::Away));
    assert_eq!(recv(&mut n, 0), r#"{"your_status":"Away"}"#);
    assert_eq!(recv(&mut n, 0), r#"{"user_list":["Player2"]}"#);
    assert_eq!(recv(&mut n, 1), r#"{"user_list":["Player2"]}"#);
    send(&mut n, 1, vote("2"));
    assert_eq!(recv(&mut n, 1), r#"{"your_vote":"2"}"#);
    assert_eq!(recv(&mut n, 0), r#"{"votes_result":[["Player2","2"]]}"#);
    assert_eq!(recv(&mut n, 1), r#"{"votes_result":[["Player2","2"]]}"#);
}

#[test]
fn scenario_admission_cap() {
    let mut n = net(15);
    for _ in 0..15 {
        assert!(open(&mut n).is_ok());
    }
    assert_eq!(open(&mut n), Err(AdmissionError::TooManyRequests));
    assert_eq!(n.sessions.len(), 15);
    assert_eq!(n.server.len(), 0);
    assert_eq!(n.limit.count, 15);
}

#[test]
fn scenario_text_framing() {
    let mut n = net(15);
    n.sessions.push(Session::new(None, 0));
    n.inbox.push(VecDeque::new());
    n.closed.push(None);
    n.sessions.push(Session::new(Some(Mode::Text), 0));
    n.inbox.push(VecDeque::new());
    n.closed.push(None);
    send(&mut n, 0, InboundMessage::from_string("/join Player1"));
    assert_eq!(recv(&mut n, 0), "Users: Player1");
    send(&mut n, 1, InboundMessage::from_string("/join Player2"));
    assert_eq!(recv(&mut n, 0), "Users: Player1, Player2");
    assert_eq!(recv(&mut n, 1), "Users: Player1, Player2");
    send(&mut n, 0, InboundMessage::from_string("1"));
    assert_eq!(recv(&mut n, 0), "You voted: 1");
    assert_eq!(recv(&mut n, 0), "Votes: Player1: voted, Player2: not voted");
    assert_eq!(recv(&mut n, 1), "Votes: Player1: voted, Player2: not voted");
    send(&mut n, 1, InboundMessage::from_string("2"));
    assert_eq!(recv(&mut n, 1), "You voted: 2");
    assert_eq!(recv(&mut n, 0), "Votes: Player1: 1, Player2: 2");
    assert_eq!(recv(&mut n, 1), "Votes: Player1: 1, Player2: 2");
    send(&mut n, 0, InboundMessage::from_string("/setaway"));
    assert_eq!(recv(&mut n, 0), "You are away");
    assert_eq!(recv(&mut n, 0), "Users: Player2");
    send(&mut n, 0, InboundMessage::from_string("/setback"));
    assert_eq!(recv(&mut n, 0), "You are active");
    assert_eq!(recv(&mut n, 0), "Users: Player1, Player2");
}

fn text_pair() -> Net {
    let mut n = net(15);
    for _ in 0..2 {
        n.sessions.push(Session::new(None, 0));
        n.inbox.push(VecDeque::new());
        n.closed.push(None);
    }
    n
}

fn line(n: &mut Net, s: usize, text: &str) {
    send(n, s, InboundMessage::from_string(text));
}

#[test]
fn planning_poker() {
    let mut n = text_pair();
    line(&mut n, 0, "/join Player1");
    assert_eq!(recv(&mut n, 0), "Users: Player1");
    line(&mut n, 1, "/join Player2");
    assert_eq!(recv(&mut n, 0), "Users: Player1, Player2");
    line(&mut n, 0, "1");
    assert_eq!(recv(&mut n, 0), "You voted: 1");
    assert_eq!(recv(&mut n, 0), "Votes: Player1: voted, Player2: not voted");
    line(&mut n, 1, "2");
    assert_eq!(recv(&mut n, 0), "Votes: Player1: 1, Player2: 2");
    line(&mut n, 0, "4");
    assert_eq!(recv(&mut n, 0), "You voted: not voted");
    assert_eq!(recv(&mut n, 0), "Votes: Player1: not voted, Player2: not voted");
    line(&mut n, 0, "?");
    assert_eq!(recv(&mut n, 0), "You voted: ?");
    assert_eq!(recv(&mut n, 0), "Votes: Player1: voted, Player2: not voted");
    close(&mut n, 0);
    assert_eq!(recv(&mut n, 1), "Users: Player1, Player2");
    assert_eq!(recv(&mut n, 1), "Votes: Player1: voted, Player2: not voted");
    assert_eq!(recv(&mut n, 1), "You voted: 2");
    assert_eq!(recv(&mut n, 1), "Votes: Player1: 1, Player2: 2");
    assert_eq!(recv(&mut n, 1), "Votes: Player1: not voted, Player2: not voted");
    assert_eq!(recv(&mut n, 1), "Votes: Player1: voted, Player2: not voted");
    assert_eq!(recv(&mut n, 1), "Users: Player2");
}

#[test]
fn test_away() {
    let mut n = text_pair();
    line(&mut n, 0, "/join Player1");
    assert_eq!(recv(&mut n, 0), "Users: Player1");
    line(&mut n, 1, "/join Player2");
    assert_eq!(recv(&mut n, 0), "Users: Player1, Player2");
    line(&mut n, 0, "/setaway");
    assert_eq!(recv(&mut n, 0), "You are away");
    assert_eq!(recv(&mut n, 0), "Users: Player2");
    line(&mut n, 1, "2");
    assert_eq!(recv(&mut n, 0), "Votes: Player2: 2");
    line(&mut n, 0, "/setback");
    assert_eq!(recv(&mut n, 0), "You are active");
    assert_eq!(recv(&mut n, 0), "Users: Player1, Player2");
    line(&mut n, 0, "1");
    assert_eq!(recv(&mut n, 0), "You voted: 1");
    assert_eq!(recv(&mut n, 0), "Votes: Player1: voted, Player2: not voted");
    line(&mut n, 1, "1");
    assert_eq!(recv(&mut n, 0), "Votes: Player1: 1, Player2: 1");
}
