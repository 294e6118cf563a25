use planning_poker::{
    Command, ConnId, Delivery, Error, GameServer, OutboundMessage, Reply, UserStatus, Vote,
    VoteStatus,
};

fn join(server: &mut GameServer, nickname: &str) -> ConnId {
    let mut out = Vec::new();
    server.connect(nickname, &mut out).expect("join")
}

fn messages_for(out: &[Delivery], id: ConnId) -> Vec<OutboundMessage> {
    out.iter()
        .filter(|d| d.to == id)
        .map(|d| d.message.clone())
        .collect()
}

#[test]
fn game_test_user_connection() {
    let mut server = GameServer::new();
    let conn_id = join(&mut server, "Player1");
    assert!(server.contains(&conn_id));
    assert_eq!(
        server.users_summary(),
        OutboundMessage::UserList(vec!["Player1".into()])
    );
}

#[test]
fn game_test_user_disconnection() {
    let mut server = GameServer::new();
    let conn_id = join(&mut server, "Player1");
    let mut out = Vec::new();
    server.process_command(&Command::Disconnect { conn_id }, &mut out);
    assert!(!server.contains(&conn_id));
    assert_eq!(server.users_summary(), OutboundMessage::UserList(vec![]));
}

#[test]
fn game_test_voting() {
    let mut server = GameServer::new();
    let conn_id = join(&mut server, "Player1");
    let _ = join(&mut server, "Player2");
    let mut out = Vec::new();
    server.process_command(
        &Command::Vote {
            conn_id,
            vote: Vote::Option(2),
        },
        &mut out,
    );
    assert_eq!(server.user(&conn_id).unwrap().vote, Vote::Option(2));
    assert_eq!(
        server.votes_summary(),
        OutboundMessage::VotesStatus(vec![
            ("Player1".into(), VoteStatus::Voted),
            ("Player2".into(), VoteStatus::NotVoted),
        ])
    );
}

#[test]
fn connect_rejects_empty_and_duplicate_nicknames() {
    let mut server = GameServer::new();
    let mut out = Vec::new();
    assert_eq!(
        server.connect("   ", &mut out),
        Err(Error::NicknameCannotBeEmpty)
    );
    join(&mut server, "Player1");
    let mut out = Vec::new();
    let r = server.connect("  Player1 ", &mut out);
    assert_eq!(r, Err(Error::NicknameAlreadyInUse("Player1".into())));
    assert!(out.is_empty());
    assert_eq!(server.len(), 1);
    assert_eq!(
        Error::NicknameAlreadyInUse("Player1".into()).to_string(),
        "Nickname Player1 is already in use"
    );
    assert_eq!(
        Error::NicknameCannotBeEmpty.to_string(),
        "Nickname cannot be empty"
    );
}

#[test]
fn connect_trims_and_truncates() {
    let mut server = GameServer::new();
    let id = join(&mut server, "  abcdefghijklmnopqrstuvwxyz  ");
    assert_eq!(server.user(&id).unwrap().nickname, "abcdefghijklmnopqrst");
    let mut out = Vec::new();
    let r = server.connect("abcdefghijklmnopqrstXYZ", &mut out);
    assert_eq!(
        r,
        Err(Error::NicknameAlreadyInUse("abcdefghijklmnopqrst".into()))
    );
}

#[test]
fn connect_broadcasts_user_list_and_ongoing_votes() {
    let mut server = GameServer::new();
    let a = join(&mut server, "b_user");
    let _c = join(&mut server, "c_user");
    let mut out = Vec::new();
    server.vote(&a, &Vote::Option(3), &mut out);
    assert!(server.anyone_voted());
    let mut out = Vec::new();
    let b = server.connect("a_user", &mut out).unwrap();
    let to_b = messages_for(&out, b);
    assert_eq!(
        to_b,
        vec![
            OutboundMessage::UserList(vec!["a_user".into(), "b_user".into(), "c_user".into()]),
            OutboundMessage::VotesStatus(vec![
                ("b_user".into(), VoteStatus::Voted),
                ("a_user".into(), VoteStatus::NotVoted),
                ("c_user".into(), VoteStatus::NotVoted),
            ]),
        ]
    );
    assert_eq!(messages_for(&out, a).len(), 2);
}

#[test]
fn connect_with_taken_id_replaces_the_user() {
    let mut server = GameServer::new();
    let mut out = Vec::new();
    let id = ConnId(7);
    assert_eq!(server.connect_with_id("one", id, &mut out), Ok(id));
    assert_eq!(server.connect_with_id("two", id, &mut out), Ok(id));
    assert_eq!(server.len(), 1);
    assert_eq!(server.user(&id).unwrap().nickname, "two");
}

#[test]
fn vote_orders_by_time_and_resets_round() {
    let mut server = GameServer::new();
    let a = join(&mut server, "a");
    let b = join(&mut server, "b");
    let c = join(&mut server, "c");
    let mut out = Vec::new();
    server.vote(&c, &Vote::Option(5), &mut out);
    server.vote(&a, &Vote::Unknown, &mut out);
    assert_eq!(
        server.votes_summary(),
        OutboundMessage::VotesStatus(vec![
            ("c".into(), VoteStatus::Voted),
            ("a".into(), VoteStatus::Voted),
            ("b".into(), VoteStatus::NotVoted),
        ])
    );
    // re-voting moves c to the end
    server.vote(&c, &Vote::Option(8), &mut out);
    assert_eq!(server.user(&c).unwrap().ord, 3);
    let mut out = Vec::new();
    server.vote(&b, &Vote::Option(1), &mut out);
    assert_eq!(
        messages_for(&out, b),
        vec![
            OutboundMessage::YourVote(Vote::Option(1)),
            OutboundMessage::VotesResult(vec![
                ("a".into(), Vote::Unknown),
                ("c".into(), Vote::Option(8)),
                ("b".into(), Vote::Option(1)),
            ]),
        ]
    );
    for id in [a, b, c] {
        let u = server.user(&id).unwrap();
        assert_eq!(u.vote, Vote::Null);
        assert_eq!(u.ord, 0);
    }
}

#[test]
fn invalid_vote_clears_and_keeps_the_place() {
    let mut server = GameServer::new();
    let a = join(&mut server, "a");
    let _b = join(&mut server, "b");
    let mut out = Vec::new();
    server.vote(&a, &Vote::parse("4"), &mut out);
    assert_eq!(messages_for(&out, a)[0], OutboundMessage::YourVote(Vote::Null));
    assert_eq!(server.user(&a).unwrap().ord, 0);
    assert_eq!(
        server.votes_summary(),
        OutboundMessage::VotesStatus(vec![
            ("a".into(), VoteStatus::NotVoted),
            ("b".into(), VoteStatus::NotVoted),
        ])
    );
    server.vote(&a, &Vote::Option(5), &mut out);
    assert_eq!(server.user(&a).unwrap().ord, 1);
    server.vote(&a, &Vote::parse("7"), &mut out);
    assert_eq!(server.user(&a).unwrap().vote, Vote::Null);
    assert_eq!(server.user(&a).unwrap().ord, 1);
}

#[test]
fn unknown_ids_are_ignored() {
    let mut server = GameServer::new();
    let a = join(&mut server, "a");
    let ghost = ConnId(a.0.wrapping_add(1));
    let mut out = Vec::new();
    server.vote(&ghost, &Vote::Option(1), &mut out);
    server.set_status(&ghost, &UserStatus::Away, &mut out);
    assert!(out.is_empty());
    let r = server.process_command(&Command::Disconnect { conn_id: ghost }, &mut out);
    assert_eq!(r, Reply::Done);
    assert_eq!(out.len(), 1);
    assert_eq!(server.len(), 1);
}

#[test]
fn away_users_are_hidden_and_not_awaited() {
    let mut server = GameServer::new();
    let a = join(&mut server, "Player1");
    let b = join(&mut server, "Player2");
    let mut out = Vec::new();
    server.set_status(&a, &UserStatus::Away, &mut out);
    assert_eq!(
        messages_for(&out, a),
        vec![
            OutboundMessage::YourStatus(UserStatus::Away),
            OutboundMessage::UserList(vec!["Player2".into()]),
        ]
    );
    let mut out = Vec::new();
    server.vote(&b, &Vote::Option(2), &mut out);
    assert_eq!(
        messages_for(&out, a),
        vec![OutboundMessage::VotesResult(vec![(
            "Player2".into(),
            Vote::Option(2)
        )])]
    );
    // the round completed and was reset, so Player2 is waiting again
    assert!(!server.all_voted());
}

#[test]
fn empty_room_has_everyone_voted() {
    let server = GameServer::new();
    assert!(server.all_voted());
    assert!(!server.anyone_voted());
    assert_eq!(server.votes_summary(), OutboundMessage::VotesResult(vec![]));
}

#[test]
fn user_list_is_sorted() {
    let mut server = GameServer::new();
    for n in ["mike", "Zed", "alice", "bob"] {
        join(&mut server, n);
    }
    assert_eq!(
        server.users_summary(),
        OutboundMessage::UserList(vec!["Zed".into(), "alice".into(), "bob".into(), "mike".into()])
    );
}

#[test]
fn process_command_connect_replies() {
    let mut server = GameServer::new();
    let mut out = Vec::new();
    let r = server.process_command(
        &Command::Connect {
            nickname: "x".into(),
        },
        &mut out,
    );
    match r {
        Reply::Connected(Ok(id)) => assert!(server.contains(&id)),
        other => panic!("unexpected {:?}", other),
    }
}

#[test]
fn connect_gives_each_user_its_own_id() {
    let mut server = GameServer::new();
    let mut ids = Vec::new();
    for n in ["p1", "p2", "p3", "p4"] {
        let id = join(&mut server, n);
        assert!(!ids.contains(&id));
        ids.push(id);
    }
    assert_eq!(server.len(), 4);
}
