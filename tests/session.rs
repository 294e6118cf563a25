use planning_poker::{
    release_session, try_acquire_session, Action, AdmissionError, CloseReason, ConnId, Error,
    InboundMessage, Limit, Mode, OutboundMessage, Session, UserStatus, Vote,
};

#[test]
fn session_ignores_commands_before_joining() {
    let mut s = Session::new(Some(Mode::Json), 0);
    assert!(s.on_text(InboundMessage::Vote { value: Vote::Option(1) }).is_empty());
    assert!(s.on_text(InboundMessage::SetStatus(UserStatus::Away)).is_empty());
    assert!(s.on_text(InboundMessage::Unknown).is_empty());
    let acts = s.on_text(InboundMessage::Connect { nickname: "p".into() });
    assert_eq!(acts, vec![Action::Connect { nickname: "p".into() }]);
    // a second join while the room has not answered is ignored
    assert!(s.on_text(InboundMessage::Connect { nickname: "q".into() }).is_empty());
    assert!(s.on_connect_reply(Ok(ConnId(9))).is_empty());
    assert!(s.is_identified());
    assert_eq!(s.nickname, Some("p".to_string()));
    assert_eq!(
        s.on_text(InboundMessage::Vote { value: Vote::Option(1) }),
        vec![Action::Vote { conn_id: ConnId(9), vote: Vote::Option(1) }]
    );
    assert_eq!(
        s.on_text(InboundMessage::SetStatus(UserStatus::Away)),
        vec![Action::SetStatus { conn_id: ConnId(9), status: UserStatus::Away }]
    );
    assert!(s.on_text(InboundMessage::Connect { nickname: "r".into() }).is_empty());
}

#[test]
fn session_closes_on_nickname_error() {
    let mut s = Session::new(None, 0);
    s.on_text(InboundMessage::Connect { nickname: "".into() });
    let acts = s.on_connect_reply(Err(Error::NicknameCannotBeEmpty));
    assert_eq!(
        acts,
        vec![Action::Close(Some(CloseReason {
            code: 1008,
            description: Some("Nickname cannot be empty".into())
        }))]
    );
    assert!(s.closed);
    assert!(s.on_text(InboundMessage::Vote { value: Vote::Unknown }).is_empty());
}

#[test]
fn session_heartbeat() {
    let mut s = Session::new(None, 1000);
    assert_eq!(s.on_tick(6000), vec![Action::Ping]);
    assert_eq!(s.on_ping(vec![1, 2], 7000), vec![Action::Pong(vec![1, 2])]);
    assert_eq!(s.last_heartbeat, 7000);
    s.on_pong(9000);
    assert_eq!(s.on_tick(19000), vec![Action::Ping]);
    assert_eq!(s.on_tick(19001), vec![Action::Close(None)]);
    assert!(s.closed);
}

#[test]
fn session_leaves_room_on_close() {
    let mut s = Session::new(None, 0);
    s.on_text(InboundMessage::Connect { nickname: "p".into() });
    s.on_connect_reply(Ok(ConnId(3)));
    let acts = s.on_close(Some(CloseReason { code: 1000, description: None }));
    assert_eq!(
        acts,
        vec![
            Action::Disconnect { conn_id: ConnId(3) },
            Action::Close(Some(CloseReason { code: 1000, description: None }))
        ]
    );
    assert!(s.on_stream_end().is_empty());
}

#[test]
fn session_join_can_be_retried_after_a_failed_request() {
    let mut s = Session::new(None, 0);
    s.on_text(InboundMessage::Connect { nickname: "p".into() });
    s.on_command_failed("Failed to send command".into());
    assert_eq!(s.requested, None);
    assert_eq!(
        s.on_text(InboundMessage::Connect { nickname: "p".into() }),
        vec![Action::Connect { nickname: "p".into() }]
    );
}

#[test]
fn session_stream_end_closes() {
    let mut s = Session::new(None, 0);
    assert_eq!(s.on_stream_end(), vec![Action::Close(None)]);
}

#[test]
fn session_encodes_per_mode() {
    let m = OutboundMessage::UserList(vec!["a".into()]);
    let json = Session::new(Some(Mode::Json), 0);
    let mut text = Session::new(Some(Mode::Text), 0);
    assert_eq!(json.on_outbound(&m), vec![Action::Send(r#"{"user_list":["a"]}"#.into())]);
    assert_eq!(text.on_outbound(&m), vec![Action::Send("Users: a".into())]);
    assert_eq!(
        text.on_command_failed("oops".into()),
        vec![Action::Send(r#"{"error":"oops"}"#.into())]
    );
}

#[test]
fn limit_counts_sessions() {
    let mut l = Limit::new(2);
    assert!(!l.is_reached());
    assert_eq!(try_acquire_session(&mut l), Ok(()));
    assert_eq!(try_acquire_session(&mut l), Ok(()));
    assert!(l.is_reached());
    assert_eq!(try_acquire_session(&mut l), Err(AdmissionError::TooManyRequests));
    assert_eq!(l.to_string(), "2/2");
    release_session(&mut l);
    assert_eq!(l.count, 1);
    release_session(&mut l);
    release_session(&mut l);
    assert_eq!(l.count, 0);
    l.increment();
    l.decrement();
    assert_eq!(l.count, 0);
}

#[test]
fn limit_parse_and_default() {
    assert_eq!(Limit::default(), Limit::new(15));
    assert_eq!(Limit::parse("3"), Limit::new(3));
    assert_eq!(Limit::parse("x"), Limit::new(15));
    assert_eq!(Limit::parse(""), Limit::new(15));
}
