//! The messages exchanged with a client, and their two framings: JSON and
//! line text.

use crate::text::{
    chars_eq, chars_of, join_words, joined_words, skip_spaces, skip_word, string_of, sub_chars,
    trim_start, word_len,
};
use crate::vote::{Vote, VoteStatus};
use vstd::prelude::*;

verus! {

/// A user's presence in the room.
#[derive(Clone, Copy, Debug, PartialEq, Eq, Structural)]
pub enum UserStatus {
    Active,
    Away,
}

impl UserStatus {
    /// The name of the variant, as the JSON framing carries it.
    pub open spec fn name(self) -> Seq<char> {
        match self {
            UserStatus::Active => "Active"@,
            UserStatus::Away => "Away"@,
        }
    }
}

/// A message from the room to one client.
#[derive(Clone, Debug, PartialEq)]
pub enum OutboundMessage {
    UserList(Vec<String>),
    VotesResult(Vec<(String, Vote)>),
    VotesStatus(Vec<(String, VoteStatus)>),
    YourVote(Vote),
    YourStatus(UserStatus),
    Unknown,
    Error(String),
}

/// What an `OutboundMessage` holds, with each string as its characters.
pub enum Outbound {
    UserList(Seq<Seq<char>>),
    VotesResult(Seq<(Seq<char>, Vote)>),
    VotesStatus(Seq<(Seq<char>, VoteStatus)>),
    YourVote(Vote),
    YourStatus(UserStatus),
    Unknown,
    Error(Seq<char>),
}

pub open spec fn string_views(v: Seq<String>) -> Seq<Seq<char>> {
    v.map_values(|s: String| s@)
}

impl View for OutboundMessage {
    type V = Outbound;

    open spec fn view(&self) -> Outbound {
        match self {
            OutboundMessage::UserList(v) => Outbound::UserList(string_views(v@)),
            OutboundMessage::VotesResult(v) => Outbound::VotesResult(
                v@.map_values(|e: (String, Vote)| (e.0@, e.1)),
            ),
            OutboundMessage::VotesStatus(v) => Outbound::VotesStatus(
                v@.map_values(|e: (String, VoteStatus)| (e.0@, e.1)),
            ),
            OutboundMessage::YourVote(v) => Outbound::YourVote(*v),
            OutboundMessage::YourStatus(s) => Outbound::YourStatus(*s),
            OutboundMessage::Unknown => Outbound::Unknown,
            OutboundMessage::Error(e) => Outbound::Error(e@),
        }
    }
}

/// `parts` joined with `sep` between neighbours, as `join` gives it.
pub open spec fn join(parts: Seq<Seq<char>>, sep: Seq<char>) -> Seq<char>
    decreases parts.len(),
{
    if parts.len() == 0 {
        Seq::empty()
    } else if parts.len() == 1 {
        parts[0]
    } else {
        join(parts.drop_last(), sep) + sep + parts.last()
    }
}

/// `name: value`, one entry of a votes line.
pub open spec fn entry_text(name: Seq<char>, value: Seq<char>) -> Seq<char> {
    name + ": "@ + value
}

/// The line-text framing of an outbound message.
pub open spec fn outbound_text(m: Outbound) -> Seq<char> {
    match m {
        Outbound::UserList(names) => if names.len() == 0 {
            "Users: nobody is active"@
        } else {
            "Users: "@ + join(names, ", "@)
        },
        Outbound::VotesResult(votes) => "Votes: "@ + join(
            votes.map_values(|e: (Seq<char>, Vote)| entry_text(e.0, e.1.text())),
            ", "@,
        ),
        Outbound::VotesStatus(st) => "Votes: "@ + join(
            st.map_values(|e: (Seq<char>, VoteStatus)| entry_text(e.0, e.1.text())),
            ", "@,
        ),
        Outbound::YourStatus(s) => match s {
            UserStatus::Active => "You are active"@,
            UserStatus::Away => "You are away"@,
        },
        Outbound::YourVote(v) => "You voted: "@ + v.text(),
        _ => "Unknown message"@,
    }
}

/// A lowercase hexadecimal digit.
pub open spec fn hex_digit(d: nat) -> char {
    if d < 10 {
        (d + 48) as char
    } else {
        (d + 87) as char
    }
}

/// How one character stands inside a JSON string: the quote, the
/// backslash and the control characters below U+0020 are escaped, in the
/// short form where JSON has one and as `u00` and two hex digits otherwise;
/// any other character stands as it is.
pub open spec fn json_escape_char(c: char) -> Seq<char> {
    let u = c as u32;
    if c == '"' {
        seq!['\\', '"']
    } else if c == '\\' {
        seq!['\\', '\\']
    } else if u == 0x08 {
        seq!['\\', 'b']
    } else if u == 0x09 {
        seq!['\\', 't']
    } else if u == 0x0a {
        seq!['\\', 'n']
    } else if u == 0x0c {
        seq!['\\', 'f']
    } else if u == 0x0d {
        seq!['\\', 'r']
    } else if u < 0x20 {
        seq!['\\', 'u', '0', '0', hex_digit((u / 16) as nat), hex_digit((u % 16) as nat)]
    } else {
        seq![c]
    }
}

/// The characters of `s`, each escaped.
pub open spec fn json_escaped(s: Seq<char>) -> Seq<char>
    decreases s.len(),
{
    if s.len() == 0 {
        s
    } else {
        json_escaped(s.drop_last()) + json_escape_char(s.last())
    }
}

/// The JSON string literal that stands for `s`: a quote, the escaped
/// characters, a quote.
pub open spec fn json_quoted(s: Seq<char>) -> Seq<char> {
    seq!['"'] + json_escaped(s) + seq!['"']
}

/// Relies on `serde_json::to_string` on a `str`: the JSON string literal
/// for the text, escaped as `format_escaped_str` does. Serialising a `str`
/// into memory does not fail.
#[verifier::external_body]
fn json_string(s: &str) -> (r: String)
    ensures
        r@ == json_quoted(s@),
{
    serde_json::to_string(s).unwrap_or_default()
}

/// A JSON array of already encoded items.
pub open spec fn json_array(items: Seq<Seq<char>>) -> Seq<char> {
    "["@ + join(items, ","@) + "]"@
}

/// A JSON object with one member, whose value is already encoded.
pub open spec fn json_member(key: Seq<char>, value: Seq<char>) -> Seq<char> {
    "{"@ + json_quoted(key) + ":"@ + value + "}"@
}

/// A pair as a JSON array of two strings.
pub open spec fn json_pair(a: Seq<char>, b: Seq<char>) -> Seq<char> {
    json_array(seq![json_quoted(a), json_quoted(b)])
}

/// The JSON framing of an outbound message: an object keyed by the
/// variant's snake_case name, or the bare string `"unknown"`.
pub open spec fn outbound_json(m: Outbound) -> Seq<char> {
    match m {
        Outbound::UserList(names) => json_member(
            "user_list"@,
            json_array(names.map_values(|n: Seq<char>| json_quoted(n))),
        ),
        Outbound::VotesResult(votes) => json_member(
            "votes_result"@,
            json_array(votes.map_values(|e: (Seq<char>, Vote)| json_pair(e.0, e.1.text()))),
        ),
        Outbound::VotesStatus(st) => json_member(
            "votes_status"@,
            json_array(st.map_values(|e: (Seq<char>, VoteStatus)| json_pair(e.0, e.1.text()))),
        ),
        Outbound::YourVote(v) => json_member("your_vote"@, json_quoted(v.text())),
        Outbound::YourStatus(s) => json_member("your_status"@, json_quoted(s.name())),
        Outbound::Unknown => json_quoted("unknown"@),
        Outbound::Error(e) => json_member("error"@, json_quoted(e)),
    }
}

/// Appends `parts` joined by `sep` to `out`.
fn append_joined(out: &mut String, parts: &Vec<String>, sep: &str)
    ensures
        final(out)@ == old(out)@ + join(string_views(parts@), sep@),
{
    let ghost start = out@;
    let mut i: usize = 0;
    while i < parts.len()
        invariant
            i <= parts@.len(),
            out@ == start + join(string_views(parts@.take(i as int)), sep@),
        decreases parts@.len() - i,
    {
        let ghost before = string_views(parts@.take(i as int));
        let ghost after = string_views(parts@.take(i + 1));
        assert(after.drop_last() =~= before);
        assert(after.last() == parts@[i as int]@);
        if i > 0 {
            out.append(sep);
        } else {
            assert(before.len() == 0);
        }
        out.append(parts[i].as_str());
        i += 1;
    }
    assert(parts@.take(parts@.len() as int) =~= parts@);
}

/// Each entry as `name: value`.
fn entry_texts(names: &Vec<String>, values: &Vec<String>) -> (r: Vec<String>)
    requires
        names@.len() == values@.len(),
    ensures
        r@.len() == names@.len(),
        forall|i: int|
            0 <= i < r@.len() ==> #[trigger] r@[i]@ == entry_text(names@[i]@, values@[i]@),
{
    let mut r: Vec<String> = Vec::new();
    let mut i: usize = 0;
    while i < names.len()
        invariant
            i <= names@.len() == values@.len(),
            r@.len() == i,
            forall|k: int|
                0 <= k < i ==> #[trigger] r@[k]@ == entry_text(names@[k]@, values@[k]@),
        decreases names@.len() - i,
    {
        let mut s = names[i].clone();
        s.append(": ");
        s.append(values[i].as_str());
        r.push(s);
        i += 1;
    }
    r
}

/// Each item as a JSON string literal.
fn quoted_all(items: &Vec<String>) -> (r: Vec<String>)
    ensures
        string_views(r@) == string_views(items@).map_values(|n: Seq<char>| json_quoted(n)),
{
    let mut r: Vec<String> = Vec::new();
    let mut i: usize = 0;
    while i < items.len()
        invariant
            i <= items@.len(),
            r@.len() == i,
            forall|k: int| 0 <= k < i ==> #[trigger] r@[k]@ == json_quoted(items@[k]@),
        decreases items@.len() - i,
    {
        r.push(json_string(items[i].as_str()));
        i += 1;
    }
    assert(string_views(r@) =~= string_views(items@).map_values(|n: Seq<char>| json_quoted(n)));
    r
}

/// Each pair as a JSON array of two strings.
fn json_pairs(names: &Vec<String>, values: &Vec<String>) -> (r: Vec<String>)
    requires
        names@.len() == values@.len(),
    ensures
        r@.len() == names@.len(),
        forall|i: int|
            0 <= i < r@.len() ==> #[trigger] r@[i]@ == json_pair(names@[i]@, values@[i]@),
{
    let mut r: Vec<String> = Vec::new();
    let mut i: usize = 0;
    while i < names.len()
        invariant
            i <= names@.len() == values@.len(),
            r@.len() == i,
            forall|k: int|
                0 <= k < i ==> #[trigger] r@[k]@ == json_pair(names@[k]@, values@[k]@),
        decreases names@.len() - i,
    {
        let mut s = String::from_str("[");
        let items = vec![json_string(names[i].as_str()), json_string(values[i].as_str())];
        append_joined(&mut s, &items, ",");
        s.append("]");
        proof {
            reveal_strlit("[");
            reveal_strlit("]");
            let q = seq![json_quoted(names@[i as int]@), json_quoted(values@[i as int]@)];
            assert(string_views(items@) =~= q);
        }
        r.push(s);
        i += 1;
    }
    r
}

/// `"[" + items joined by "," + "]"`.
fn json_array_of(items: &Vec<String>) -> (r: String)
    ensures
        r@ == json_array(string_views(items@)),
{
    let mut s = String::from_str("[");
    append_joined(&mut s, items, ",");
    s.append("]");
    s
}

/// A one-member JSON object.
fn json_member_of(key: &str, value: &String) -> (r: String)
    ensures
        r@ == json_member(key@, value@),
{
    let mut s = String::from_str("{");
    let k = json_string(key);
    s.append(k.as_str());
    s.append(":");
    s.append(value.as_str());
    s.append("}");
    s
}

impl OutboundMessage {
    /// A copy of the message.
    pub fn duplicate(&self) -> (r: OutboundMessage)
        ensures
            r@ == self@,
    {
        match self {
            OutboundMessage::UserList(v) => {
                let mut c: Vec<String> = Vec::new();
                let mut i: usize = 0;
                while i < v.len()
                    invariant
                        i <= v@.len(),
                        c@ == v@.take(i as int),
                    decreases v@.len() - i,
                {
                    c.push(v[i].clone());
                    assert(c@ =~= v@.take(i + 1));
                    i += 1;
                }
                assert(v@.take(v@.len() as int) =~= v@);
                OutboundMessage::UserList(c)
            },
            OutboundMessage::VotesResult(v) => {
                let mut c: Vec<(String, Vote)> = Vec::new();
                let mut i: usize = 0;
                while i < v.len()
                    invariant
                        i <= v@.len(),
                        c@.len() == i,
                        forall|k: int|
                            0 <= k < i ==> (#[trigger] c@[k]).0@ == v@[k].0@ && c@[k].1 == v@[k].1,
                    decreases v@.len() - i,
                {
                    c.push((v[i].0.clone(), v[i].1));
                    i += 1;
                }
                let r = OutboundMessage::VotesResult(c);
                assert(c@.map_values(|e: (String, Vote)| (e.0@, e.1)) =~= v@.map_values(
                    |e: (String, Vote)| (e.0@, e.1),
                ));
                r
            },
            OutboundMessage::VotesStatus(v) => {
                let mut c: Vec<(String, VoteStatus)> = Vec::new();
                let mut i: usize = 0;
                while i < v.len()
                    invariant
                        i <= v@.len(),
                        c@.len() == i,
                        forall|k: int|
                            0 <= k < i ==> (#[trigger] c@[k]).0@ == v@[k].0@ && c@[k].1 == v@[k].1,
                    decreases v@.len() - i,
                {
                    c.push((v[i].0.clone(), v[i].1));
                    i += 1;
                }
                let r = OutboundMessage::VotesStatus(c);
                assert(c@.map_values(|e: (String, VoteStatus)| (e.0@, e.1)) =~= v@.map_values(
                    |e: (String, VoteStatus)| (e.0@, e.1),
                ));
                r
            },
            OutboundMessage::YourVote(v) => OutboundMessage::YourVote(*v),
            OutboundMessage::YourStatus(s) => OutboundMessage::YourStatus(*s),
            OutboundMessage::Unknown => OutboundMessage::Unknown,
            OutboundMessage::Error(e) => OutboundMessage::Error(e.clone()),
        }
    }

    /// The message in the line-text framing.
    pub fn to_string(&self) -> (r: String)
        ensures
            r@ == outbound_text(self@),
    {
        match self {
            OutboundMessage::UserList(users) => {
                if users.len() == 0 {
                    String::from_str("Users: nobody is active")
                } else {
                    let mut s = String::from_str("Users: ");
                    append_joined(&mut s, users, ", ");
                    s
                }
            },
            OutboundMessage::VotesResult(votes) => {
                let (names, values) = split_votes(votes);
                let parts = entry_texts(&names, &values);
                let mut s = String::from_str("Votes: ");
                append_joined(&mut s, &parts, ", ");
                assert(string_views(parts@) =~= self@->VotesResult_0.map_values(
                    |e: (Seq<char>, Vote)| entry_text(e.0, e.1.text()),
                ));
                s
            },
            OutboundMessage::VotesStatus(statuses) => {
                let (names, values) = split_statuses(statuses);
                let parts = entry_texts(&names, &values);
                let mut s = String::from_str("Votes: ");
                append_joined(&mut s, &parts, ", ");
                assert(string_views(parts@) =~= self@->VotesStatus_0.map_values(
                    |e: (Seq<char>, VoteStatus)| entry_text(e.0, e.1.text()),
                ));
                s
            },
            OutboundMessage::YourStatus(status) => match status {
                UserStatus::Active => String::from_str("You are active"),
                UserStatus::Away => String::from_str("You are away"),
            },
            OutboundMessage::YourVote(vote) => {
                let mut s = String::from_str("You voted: ");
                let v = vote.to_string();
                s.append(v.as_str());
                s
            },
            _ => String::from_str("Unknown message"),
        }
    }

    /// The message in the JSON framing.
    pub fn to_json(&self) -> (r: String)
        ensures
            r@ == outbound_json(self@),
    {
        match self {
            OutboundMessage::UserList(users) => {
                let q = quoted_all(users);
                let a = json_array_of(&q);
                json_member_of("user_list", &a)
            },
            OutboundMessage::VotesResult(votes) => {
                let (names, values) = split_votes(votes);
                let pairs = json_pairs(&names, &values);
                let a = json_array_of(&pairs);
                assert(string_views(pairs@) =~= self@->VotesResult_0.map_values(
                    |e: (Seq<char>, Vote)| json_pair(e.0, e.1.text()),
                ));
                json_member_of("votes_result", &a)
            },
            OutboundMessage::VotesStatus(statuses) => {
                let (names, values) = split_statuses(statuses);
                let pairs = json_pairs(&names, &values);
                let a = json_array_of(&pairs);
                assert(string_views(pairs@) =~= self@->VotesStatus_0.map_values(
                    |e: (Seq<char>, VoteStatus)| json_pair(e.0, e.1.text()),
                ));
                json_member_of("votes_status", &a)
            },
            OutboundMessage::YourVote(vote) => {
                let v = vote.to_string();
                let q = json_string(v.as_str());
                json_member_of("your_vote", &q)
            },
            OutboundMessage::YourStatus(status) => {
                let name = match status {
                    UserStatus::Active => "Active",
                    UserStatus::Away => "Away",
                };
                let q = json_string(name);
                json_member_of("your_status", &q)
            },
            OutboundMessage::Unknown => json_string("unknown"),
            OutboundMessage::Error(e) => {
                let q = json_string(e.as_str());
                json_member_of("error", &q)
            },
        }
    }
}

/// The names and the rendered votes of a result list.
fn split_votes(votes: &Vec<(String, Vote)>) -> (r: (Vec<String>, Vec<String>))
    ensures
        r.0@.len() == votes@.len(),
        r.1@.len() == votes@.len(),
        forall|i: int|
            0 <= i < votes@.len() ==> #[trigger] r.0@[i]@ == votes@[i].0@ && r.1@[i]@
                == votes@[i].1.text(),
{
    let mut names: Vec<String> = Vec::new();
    let mut values: Vec<String> = Vec::new();
    let mut i: usize = 0;
    while i < votes.len()
        invariant
            i <= votes@.len(),
            names@.len() == i,
            values@.len() == i,
            forall|k: int| 0 <= k < i ==> #[trigger] names@[k]@ == votes@[k].0@,
            forall|k: int| 0 <= k < i ==> #[trigger] values@[k]@ == votes@[k].1.text(),
        decreases votes@.len() - i,
    {
        let name = votes[i].0.clone();
        let value = votes[i].1.to_string();
        names.push(name);
        values.push(value);
        i += 1;
    }
    (names, values)
}

/// The names and the rendered statuses of a status list.
fn split_statuses(statuses: &Vec<(String, VoteStatus)>) -> (r: (Vec<String>, Vec<String>))
    ensures
        r.0@.len() == statuses@.len(),
        r.1@.len() == statuses@.len(),
        forall|i: int|
            0 <= i < statuses@.len() ==> #[trigger] r.0@[i]@ == statuses@[i].0@ && r.1@[i]@
                == statuses@[i].1.text(),
{
    let mut names: Vec<String> = Vec::new();
    let mut values: Vec<String> = Vec::new();
    let mut i: usize = 0;
    while i < statuses.len()
        invariant
            i <= statuses@.len(),
            names@.len() == i,
            values@.len() == i,
            forall|k: int| 0 <= k < i ==> #[trigger] names@[k]@ == statuses@[k].0@,
            forall|k: int| 0 <= k < i ==> #[trigger] values@[k]@ == statuses@[k].1.text(),
        decreases statuses@.len() - i,
    {
        let name = statuses[i].0.clone();
        let value = statuses[i].1.to_string();
        names.push(name);
        values.push(value);
        i += 1;
    }
    (names, values)
}


/// A message from a client to the room.
#[derive(Clone, Debug, PartialEq)]
pub enum InboundMessage {
    Connect { nickname: String },
    Vote { value: Vote },
    SetStatus(UserStatus),
    Unknown,
}

/// The first whitespace-separated word of `s`.
pub open spec fn first_word(s: Seq<char>) -> Seq<char> {
    trim_start(s).take(word_len(trim_start(s)) as int)
}

/// What follows the first word of `s`.
pub open spec fn after_first_word(s: Seq<char>) -> Seq<char> {
    trim_start(s).skip(word_len(trim_start(s)) as int)
}

impl InboundMessage {
    /// The line-text framing: `/join <nickname>`, `/setaway`, `/setback`,
    /// and otherwise a vote given by the first word.
    pub open spec fn reads_text(self, s: Seq<char>) -> bool {
        let w = first_word(s);
        if w.len() == 0 {
            self is Unknown
        } else if w == "/join"@ {
            self matches InboundMessage::Connect { nickname } && nickname@ == joined_words(
                after_first_word(s),
            )
        } else if w == "/setaway"@ {
            self == InboundMessage::SetStatus(UserStatus::Away)
        } else if w == "/setback"@ {
            self == InboundMessage::SetStatus(UserStatus::Active)
        } else {
            self == InboundMessage::Vote { value: Vote::of_text(w) }
        }
    }

    /// Reads one line of the line-text framing.
    pub fn from_string(text: &str) -> (r: InboundMessage)
        ensures
            r.reads_text(text@),
    {
        let t = chars_of(text);
        let n = t.len();
        assert(t@.subrange(0, n as int) =~= t@);
        let i = skip_spaces(&t, 0);
        let j = skip_word(&t, i);
        let w = sub_chars(&t, i, j);
        assert(w@ =~= first_word(text@));
        if w.len() == 0 {
            return InboundMessage::Unknown;
        }
        if chars_eq(&w, "/join") {
            let rest = sub_chars(&t, j, n);
            assert(rest@ =~= after_first_word(text@));
            let nick = join_words(&rest);
            InboundMessage::Connect { nickname: string_of(&nick) }
        } else if chars_eq(&w, "/setaway") {
            InboundMessage::SetStatus(UserStatus::Away)
        } else if chars_eq(&w, "/setback") {
            InboundMessage::SetStatus(UserStatus::Active)
        } else {
            InboundMessage::Vote { value: Vote::from_chars(&w) }
        }
    }
}

} // verus!
