use planning_poker::{Vote, VoteStatus};

#[test]
fn vote_test_vote_from_str() {
    assert_eq!(Vote::from("?"), Vote::Unknown);
    assert_eq!(Vote::from("1"), Vote::Option(1));
    assert_eq!(Vote::from("2"), Vote::Option(2));
    assert_eq!(Vote::from("3"), Vote::Option(3));
    assert_eq!(Vote::from("5"), Vote::Option(5));
    assert_eq!(Vote::from("8"), Vote::Option(8));
    assert_eq!(Vote::from("13"), Vote::Option(13));
    assert_eq!(Vote::from("21"), Vote::Null);
    assert_eq!(Vote::from("invalid"), Vote::Null);
}

#[test]
fn vote_test_vote_new() {
    assert_eq!(Vote::new(1), Vote::Option(1));
    assert_eq!(Vote::new(2), Vote::Option(2));
    assert_eq!(Vote::new(3), Vote::Option(3));
    assert_eq!(Vote::new(5), Vote::Option(5));
    assert_eq!(Vote::new(8), Vote::Option(8));
    assert_eq!(Vote::new(13), Vote::Option(13));
    assert_eq!(Vote::new(21), Vote::Null);
}

#[test]
fn vote_test_vote_status() {
    assert_eq!(Vote::Null.status().to_string(), "not voted");
    assert_eq!(Vote::Unknown.status().to_string(), "voted");
    assert_eq!(Vote::Option(1).status().to_string(), "voted");
}

#[test]
fn vote_test_vote_display() {
    assert_eq!(Vote::Null.to_string(), "not voted");
    assert_eq!(Vote::Unknown.to_string(), "?");
    assert_eq!(Vote::Option(1).to_string(), "1");
    assert_eq!(Vote::Option(8).to_string(), "8");
}

#[test]
fn vote_test_vote_is_valid() {
    assert!(!Vote::Null.is_valid_vote());
    assert!(Vote::Unknown.is_valid_vote());
    assert!(Vote::Option(1).is_valid_vote());
}

#[test]
fn test_vote_from_str() {
    assert_eq!(Vote::from("?"), Vote::Unknown);
    assert_eq!(Vote::from("1"), Vote::Option(1));
    assert_eq!(Vote::from("2"), Vote::Option(2));
    assert_eq!(Vote::from("3"), Vote::Option(3));
    assert_eq!(Vote::from("5"), Vote::Option(5));
    assert_eq!(Vote::from("8"), Vote::Option(8));
    assert_eq!(Vote::from("13"), Vote::Option(13));
    assert_eq!(Vote::from("21"), Vote::Null);
    assert_eq!(Vote::from("invalid"), Vote::Null);
}

#[test]
fn test_vote_new() {
    assert_eq!(Vote::new(1), Vote::Option(1));
    assert_eq!(Vote::new(2), Vote::Option(2));
    assert_eq!(Vote::new(3), Vote::Option(3));
    assert_eq!(Vote::new(5), Vote::Option(5));
    assert_eq!(Vote::new(8), Vote::Option(8));
    assert_eq!(Vote::new(13), Vote::Option(13));
    assert_eq!(Vote::new(21), Vote::Null);
}

#[test]
fn test_vote_status() {
    assert_eq!(Vote::Null.status().to_string(), "not voted");
    assert_eq!(Vote::Unknown.status().to_string(), "voted");
    assert_eq!(Vote::Option(1).status().to_string(), "voted");
}

#[test]
fn test_vote_display() {
    assert_eq!(Vote::Null.to_string(), "not voted");
    assert_eq!(Vote::Unknown.to_string(), "?");
    assert_eq!(Vote::Option(1).to_string(), "1");
    assert_eq!(Vote::Option(8).to_string(), "8");
}

#[test]
fn test_vote_is_valid() {
    assert!(!Vote::Null.is_valid_vote());
    assert!(Vote::Unknown.is_valid_vote());
    assert!(Vote::Option(1).is_valid_vote());
}

#[test]
fn vote_parse_trims_and_reads_usize() {
    assert_eq!(Vote::parse(" 5 "), Vote::Option(5));
    assert_eq!(Vote::parse("\t13\n"), Vote::Option(13));
    assert_eq!(Vote::parse("+8"), Vote::Option(8));
    assert_eq!(Vote::parse("003"), Vote::Option(3));
    assert_eq!(Vote::parse(" ?"), Vote::Unknown);
    assert_eq!(Vote::from(" ? "), Vote::Unknown);
    assert_eq!(Vote::parse("??"), Vote::Null);
    assert_eq!(Vote::parse(""), Vote::Null);
    assert_eq!(Vote::parse("4"), Vote::Null);
    assert_eq!(Vote::parse("0"), Vote::Null);
    assert_eq!(Vote::parse("-1"), Vote::Null);
    assert_eq!(Vote::parse("99999999999999999999999"), Vote::Null);
    assert_eq!(Vote::from(String::from("2")), Vote::Option(2));
    assert_eq!(Vote::from(13usize), Vote::Option(13));
    assert_eq!(Vote::from(4usize), Vote::Null);
}

#[test]
fn vote_render_then_parse_gives_back_the_vote() {
    for v in [Vote::Unknown, Vote::Option(1), Vote::Option(2), Vote::Option(3), Vote::Option(5), Vote::Option(8), Vote::Option(13)] {
        assert_eq!(Vote::parse(&v.to_string()), v);
    }
}

#[test]
fn vote_render_large_number() {
    assert_eq!(Vote::Option(1234567890).to_string(), "1234567890");
    assert_eq!(Vote::Option(0).to_string(), "0");
}

#[test]
fn vote_status_parse() {
    assert_eq!(VoteStatus::parse("not voted"), VoteStatus::NotVoted);
    assert_eq!(VoteStatus::parse("voted"), VoteStatus::Voted);
    assert_eq!(VoteStatus::from("anything"), VoteStatus::Voted);
    assert_eq!(VoteStatus::Voted.to_string(), "voted");
}
