//! The room: its users, the rules of a round, and the messages that each
//! change sends. The actor that owns it runs one command at a time.

use crate::messages::{Outbound, OutboundMessage, UserStatus};
use crate::text::{
    chars_of, fitting_prefix, lemma_fitting_prefix_bounds, lemma_lex_irreflexive, lemma_lex_total,
    lemma_lex_transitive, lex_less, lex_lt, string_of, trim, trim_chars, truncate_to_bytes,
};
use crate::vote::{Vote, VoteStatus};
use vstd::prelude::*;
use vstd::set_lib::{lemma_int_range, lemma_len_subset, set_int_range};

verus! {

/// The identifier of one connection, a 128-bit number.
#[derive(Clone, Copy, Debug, PartialEq, Eq, Hash, Structural)]
pub struct ConnId(pub u128);

/// Relies on `uuid::Uuid::new_v4` and `Uuid::as_u128`: a random version-4
/// UUID, as a number. Nothing is known of the value.
#[verifier::external_body]
fn random_u128() -> u128 {
    uuid::Uuid::new_v4().as_u128()
}

impl ConnId {
    /// A fresh random identifier.
    pub fn new() -> (r: ConnId) {
        ConnId(random_u128())
    }
}

/// One participant of the room.
#[derive(Clone, Debug)]
pub struct User {
    pub id: ConnId,
    pub nickname: String,
    pub vote: Vote,
    pub status: UserStatus,
    pub ord: usize,
}

impl User {
    /// Replaces the user's vote; nothing else changes.
    pub fn vote(&mut self, vote: Vote)
        ensures
            final(self).vote == vote,
            final(self).id == old(self).id,
            final(self).nickname == old(self).nickname,
            final(self).status == old(self).status,
            final(self).ord == old(self).ord,
    {
        self.vote = vote;
    }
}

/// A display order of users.
#[derive(Clone, Copy, Debug, PartialEq, Eq, Structural)]
pub enum Order {
    /// By nickname.
    ByName,
    /// Valid votes first by `ord`, then the others by nickname.
    ByStatus,
    /// By `ord`.
    ByOrd,
}

/// The user is present, not away.
pub open spec fn is_active(u: User) -> bool {
    u.status is Active
}

pub open spec fn name_lt(a: User, b: User) -> bool {
    lex_lt(a.nickname@, b.nickname@)
}

/// By `ord`; equal `ord`s by nickname.
pub open spec fn ord_lt(a: User, b: User) -> bool {
    a.ord < b.ord || (a.ord == b.ord && name_lt(a, b))
}

/// Whether `a` is shown before `b` in the given order.
pub open spec fn precedes(key: Order, a: User, b: User) -> bool {
    match key {
        Order::ByName => name_lt(a, b),
        Order::ByOrd => ord_lt(a, b),
        Order::ByStatus => if a.vote.valid() && b.vote.valid() {
            ord_lt(a, b)
        } else if a.vote.valid() {
            true
        } else if b.vote.valid() {
            false
        } else {
            name_lt(a, b)
        },
    }
}

/// Each display order is strict, transitive, and total on users with
/// different nicknames.
pub proof fn lemma_precedes_order(key: Order, a: User, b: User, c: User)
    ensures
        !precedes(key, a, a),
        precedes(key, a, b) && precedes(key, b, c) ==> precedes(key, a, c),
        a.nickname@ != b.nickname@ ==> precedes(key, a, b) || precedes(key, b, a),
{
    lemma_lex_irreflexive(a.nickname@);
    if a.nickname@ != b.nickname@ {
        lemma_lex_total(a.nickname@, b.nickname@);
    }
    if lex_lt(a.nickname@, b.nickname@) && lex_lt(b.nickname@, c.nickname@) {
        lemma_lex_transitive(a.nickname@, b.nickname@, c.nickname@);
    }
}

/// `idx` lists each active user once, in the given order.
pub open spec fn arranged(users: Seq<User>, idx: Seq<usize>, key: Order) -> bool {
    &&& forall|k: int|
        0 <= k < idx.len() ==> (#[trigger] idx[k] as int) < users.len() && is_active(
            users[idx[k] as int],
        )
    &&& forall|i: int| 0 <= i < users.len() && is_active(#[trigger] users[i]) ==> idx.contains(i as usize)
    &&& forall|a: int, b: int|
        0 <= a < b < idx.len() ==> precedes(key, #[trigger] users[idx[a] as int], #[trigger] users[idx[b] as int])
}

/// Every user has voted or is away; true of the empty room.
pub open spec fn all_voted(users: Seq<User>) -> bool {
    forall|i: int| 0 <= i < users.len() ==> (#[trigger] users[i]).vote.valid() || users[i].status is Away
}

/// Some active user holds a valid vote.
pub open spec fn anyone_voted(users: Seq<User>) -> bool {
    exists|i: int| 0 <= i < users.len() && (#[trigger] users[i]).vote.valid() && is_active(users[i])
}

pub open spec fn names_at(users: Seq<User>, idx: Seq<usize>) -> Seq<Seq<char>> {
    idx.map_values(|i: usize| users[i as int].nickname@)
}

pub open spec fn votes_at(users: Seq<User>, idx: Seq<usize>) -> Seq<(Seq<char>, Vote)> {
    idx.map_values(|i: usize| (users[i as int].nickname@, users[i as int].vote))
}

pub open spec fn statuses_at(users: Seq<User>, idx: Seq<usize>) -> Seq<(Seq<char>, VoteStatus)> {
    idx.map_values(|i: usize| (users[i as int].nickname@, users[i as int].vote.status_of()))
}

/// `m` is the user list summary: the active nicknames in ascending order.
pub open spec fn is_user_list(users: Seq<User>, m: Outbound) -> bool {
    m matches Outbound::UserList(names) && exists|idx: Seq<usize>|
        arranged(users, idx, Order::ByName) && names == names_at(users, idx)
}

/// `m` is the votes summary: the result once everyone has voted, the
/// status of each active user before.
pub open spec fn is_votes_summary(users: Seq<User>, m: Outbound) -> bool {
    if all_voted(users) {
        m matches Outbound::VotesResult(v) && exists|idx: Seq<usize>|
            arranged(users, idx, Order::ByOrd) && v == votes_at(users, idx)
    } else {
        m matches Outbound::VotesStatus(v) && exists|idx: Seq<usize>|
            arranged(users, idx, Order::ByStatus) && v == statuses_at(users, idx)
    }
}

/// `m` sent to every user, in the room's order.
pub open spec fn broadcast(users: Seq<User>, m: Outbound) -> Seq<(ConnId, Outbound)> {
    users.map_values(|u: User| (u.id, m))
}

/// A message for one user.
#[derive(Clone, Debug)]
pub struct Delivery {
    pub to: ConnId,
    pub message: OutboundMessage,
}

impl View for Delivery {
    type V = (ConnId, Outbound);

    open spec fn view(&self) -> (ConnId, Outbound) {
        (self.to, self.message@)
    }
}

pub open spec fn sent(out: Seq<Delivery>) -> Seq<(ConnId, Outbound)> {
    out.map_values(|d: Delivery| d@)
}

/// Why a user could not join.
#[derive(Clone, Debug, PartialEq)]
pub enum Error {
    NicknameCannotBeEmpty,
    NicknameAlreadyInUse(String),
}

impl Error {
    pub open spec fn text(self) -> Seq<char> {
        match self {
            Error::NicknameCannotBeEmpty => "Nickname cannot be empty"@,
            Error::NicknameAlreadyInUse(n) => "Nickname "@ + n@ + " is already in use"@,
        }
    }

    /// The message that closes the connection.
    pub fn to_string(&self) -> (r: String)
        ensures
            r@ == self.text(),
    {
        match self {
            Error::NicknameCannotBeEmpty => String::from_str("Nickname cannot be empty"),
            Error::NicknameAlreadyInUse(n) => {
                let mut s = String::from_str("Nickname ");
                s.append(n.as_str());
                s.append(" is already in use");
                s
            },
        }
    }
}

/// The longest nickname, in bytes.
pub const MAX_NICKNAME_BYTES: usize = 20;

/// The nickname that a user who asks for `s` gets: `s` trimmed, then cut
/// to the longest prefix of at most `MAX_NICKNAME_BYTES` bytes.
pub open spec fn nickname_for(s: Seq<char>) -> Seq<char> {
    trim(s).take(fitting_prefix(trim(s), MAX_NICKNAME_BYTES as nat) as int)
}

/// The room holds a user with identifier `id`.
pub open spec fn has_user(users: Seq<User>, id: ConnId) -> bool {
    exists|i: int| 0 <= i < users.len() && (#[trigger] users[i]).id == id
}

/// Where the user with identifier `id` stands.
pub open spec fn pos_of(users: Seq<User>, id: ConnId) -> int {
    choose|i: int| 0 <= i < users.len() && (#[trigger] users[i]).id == id
}

/// Some user of the room is called `n`.
pub open spec fn name_taken(users: Seq<User>, n: Seq<char>) -> bool {
    exists|i: int| 0 <= i < users.len() && (#[trigger] users[i]).nickname@ == n
}

/// The room after `u` is stored under its identifier: it takes the place
/// of a user with that identifier, or joins at the end.
pub open spec fn placed(users: Seq<User>, u: User) -> Seq<User> {
    if has_user(users, u.id) {
        users.update(pos_of(users, u.id), u)
    } else {
        users.push(u)
    }
}

/// The largest `ord` in the room; 0 for the empty room.
pub open spec fn max_ord(users: Seq<User>) -> nat
    decreases users.len(),
{
    if users.len() == 0 {
        0
    } else {
        let m = max_ord(users.drop_last());
        if users.last().ord > m {
            users.last().ord as nat
        } else {
            m
        }
    }
}

/// The place in the voting order that the next vote takes.
pub open spec fn next_ord(users: Seq<User>) -> usize {
    if max_ord(users) < usize::MAX {
        (max_ord(users) + 1) as usize
    } else {
        usize::MAX
    }
}

/// The `ord` a user holds after casting `vote`: a valid vote takes the next
/// place in the voting order, any other leaves the place as it was.
pub open spec fn ord_after_vote(users: Seq<User>, u: User, vote: Vote) -> usize {
    if vote.valid() {
        next_ord(users)
    } else {
        u.ord
    }
}

pub open spec fn with_vote(u: User, vote: Vote, ord: usize) -> User {
    User { id: u.id, nickname: u.nickname, vote: vote, status: u.status, ord: ord }
}

pub open spec fn with_status(u: User, status: UserStatus) -> User {
    User { id: u.id, nickname: u.nickname, vote: u.vote, status: status, ord: u.ord }
}

/// Every vote cleared and every place in the voting order given up.
pub open spec fn reset(users: Seq<User>) -> Seq<User> {
    users.map_values(|u: User| with_vote(u, Vote::Null, 0))
}

/// What `Connect` does with a free identifier `id`.
pub open spec fn connect_post(
    before: Seq<User>,
    after: Seq<User>,
    nickname: Seq<char>,
    id: ConnId,
    r: Result<ConnId, Error>,
    sent_before: Seq<(ConnId, Outbound)>,
    sent_after: Seq<(ConnId, Outbound)>,
) -> bool {
    if trim(nickname).len() == 0 {
        &&& r == Err::<ConnId, Error>(Error::NicknameCannotBeEmpty)
        &&& after == before
        &&& sent_after == sent_before
    } else if name_taken(before, nickname_for(nickname)) {
        &&& r matches Err(Error::NicknameAlreadyInUse(n)) && n@ == nickname_for(nickname)
        &&& after == before
        &&& sent_after == sent_before
    } else {
        &&& r == Ok::<ConnId, Error>(id)
        &&& exists|u: User|
            {
                &&& u.id == id
                &&& u.nickname@ == nickname_for(nickname)
                &&& u.vote is Null
                &&& u.status is Active
                &&& u.ord == 0
                &&& after == placed(before, u)
            }
        &&& exists|m1: Outbound|
            {
                &&& is_user_list(after, m1)
                &&& if anyone_voted(after) {
                    exists|m2: Outbound|
                        is_votes_summary(after, m2) && sent_after == sent_before + broadcast(
                            after,
                            m1,
                        ) + broadcast(after, m2)
                } else {
                    sent_after == sent_before + broadcast(after, m1)
                }
            }
    }
}

/// The room that `Connect` leaves behind.
pub open spec fn connect_state(before: Seq<User>, after: Seq<User>, nickname: Seq<char>, id: ConnId) -> bool {
    if trim(nickname).len() == 0 || name_taken(before, nickname_for(nickname)) {
        after == before
    } else {
        exists|u: User|
            {
                &&& u.id == id
                &&& u.nickname@ == nickname_for(nickname)
                &&& u.vote is Null
                &&& u.status is Active
                &&& u.ord == 0
                &&& after == placed(before, u)
            }
    }
}

/// The room that `Disconnect` leaves behind.
pub open spec fn disconnect_state(before: Seq<User>, after: Seq<User>, id: ConnId) -> bool {
    after == if has_user(before, id) {
        before.remove(pos_of(before, id))
    } else {
        before
    }
}

/// The room that `Vote` leaves behind.
pub open spec fn vote_state(before: Seq<User>, after: Seq<User>, id: ConnId, vote: Vote) -> bool {
    if has_user(before, id) {
        let i = pos_of(before, id);
        let voted = before.update(i, with_vote(before[i], vote, ord_after_vote(before, before[i], vote)));
        after == if all_voted(voted) {
            reset(voted)
        } else {
            voted
        }
    } else {
        after == before
    }
}

/// The room that `SetStatus` leaves behind.
pub open spec fn status_state(before: Seq<User>, after: Seq<User>, id: ConnId, status: UserStatus) -> bool {
    if has_user(before, id) {
        let i = pos_of(before, id);
        after == before.update(i, with_status(before[i], status))
    } else {
        after == before
    }
}

/// What `Disconnect` does.
pub open spec fn disconnect_post(
    before: Seq<User>,
    after: Seq<User>,
    id: ConnId,
    sent_before: Seq<(ConnId, Outbound)>,
    sent_after: Seq<(ConnId, Outbound)>,
) -> bool {
    &&& after == if has_user(before, id) {
        before.remove(pos_of(before, id))
    } else {
        before
    }
    &&& exists|m: Outbound| is_user_list(after, m) && sent_after == sent_before + broadcast(after, m)
}

/// What `Vote` does: the ballot is recorded, a valid one taking the next
/// place in the voting order and any other keeping the voter's place; the
/// voter hears of it, everyone gets the votes summary, and a round that is
/// complete starts over.
pub open spec fn vote_post(
    before: Seq<User>,
    after: Seq<User>,
    id: ConnId,
    vote: Vote,
    sent_before: Seq<(ConnId, Outbound)>,
    sent_after: Seq<(ConnId, Outbound)>,
) -> bool {
    if has_user(before, id) {
        let i = pos_of(before, id);
        let voted = before.update(i, with_vote(before[i], vote, ord_after_vote(before, before[i], vote)));
        &&& after == if all_voted(voted) {
            reset(voted)
        } else {
            voted
        }
        &&& exists|m: Outbound|
            is_votes_summary(voted, m) && sent_after == sent_before + seq![
                (id, Outbound::YourVote(vote)),
            ] + broadcast(voted, m)
    } else {
        after == before && sent_after == sent_before
    }
}

/// What `SetStatus` does.
pub open spec fn status_post(
    before: Seq<User>,
    after: Seq<User>,
    id: ConnId,
    status: UserStatus,
    sent_before: Seq<(ConnId, Outbound)>,
    sent_after: Seq<(ConnId, Outbound)>,
) -> bool {
    if has_user(before, id) {
        let i = pos_of(before, id);
        &&& after == before.update(i, with_status(before[i], status))
        &&& exists|m: Outbound|
            is_user_list(after, m) && sent_after == sent_before + seq![
                (id, Outbound::YourStatus(status)),
            ] + broadcast(after, m)
    } else {
        after == before && sent_after == sent_before
    }
}

/// A request to the room, as the actor receives it.
#[derive(Clone, Debug)]
pub enum Command {
    Connect { nickname: String },
    Disconnect { conn_id: ConnId },
    Vote { conn_id: ConnId, vote: Vote },
    SetStatus { conn_id: ConnId, status: UserStatus },
}

/// What the actor answers to a command.
#[derive(Debug, PartialEq)]
pub enum Reply {
    Connected(Result<ConnId, Error>),
    Done,
}

/// No two users share a nickname.
pub open spec fn nicknames_distinct(users: Seq<User>) -> bool {
    forall|i: int, j: int|
        0 <= i < j < users.len() ==> (#[trigger] users[i]).nickname@ != (#[trigger] users[j]).nickname@
}

/// Every user with a valid vote holds a place in the voting order.
pub open spec fn voters_placed(users: Seq<User>) -> bool {
    forall|i: int| 0 <= i < users.len() ==> (#[trigger] users[i]).vote.valid() ==> users[i].ord > 0
}

/// The `ord` of the user called `nick`.
pub open spec fn ord_of(users: Seq<User>, nick: Seq<char>) -> usize {
    users[choose|i: int| 0 <= i < users.len() && (#[trigger] users[i]).nickname@ == nick].ord
}

/// The room.
pub struct GameServer {
    users: Vec<User>,
}

impl GameServer {
    /// The users of the room, in the room's order.
    pub closed spec fn users_view(&self) -> Seq<User> {
        self.users@
    }

    /// Identifiers are unique, nicknames are non-empty and unique, and a
    /// user with a valid vote has a place in the voting order.
    pub open spec fn wf(&self) -> bool {
        let u = self.users_view();
        &&& forall|i: int, j: int|
            0 <= i < j < u.len() ==> (#[trigger] u[i]).id != (#[trigger] u[j]).id
        &&& nicknames_distinct(u)
        &&& forall|i: int| 0 <= i < u.len() ==> (#[trigger] u[i]).nickname@.len() > 0
        &&& voters_placed(u)
    }

    /// The empty room.
    pub fn new() -> (r: GameServer)
        ensures
            r.wf(),
            r.users_view() == Seq::<User>::empty(),
    {
        GameServer { users: Vec::new() }
    }

    /// The number of users in the room.
    pub fn len(&self) -> (r: usize)
        ensures
            r == self.users_view().len(),
    {
        self.users.len()
    }

    /// Whether a user with identifier `id` is in the room.
    pub fn contains(&self, id: &ConnId) -> (r: bool)
        ensures
            r == has_user(self.users_view(), *id),
    {
        self.find(id).is_some()
    }

    /// The user with identifier `id`, if any.
    pub fn user(&self, id: &ConnId) -> (r: Option<&User>)
        requires
            self.wf(),
        ensures
            has_user(self.users_view(), *id) ==> r == Some(
                &self.users_view()[pos_of(self.users_view(), *id)],
            ),
            !has_user(self.users_view(), *id) ==> r is None,
    {
        match self.find(id) {
            Some(i) => Some(&self.users[i]),
            None => None,
        }
    }

    fn find(&self, id: &ConnId) -> (r: Option<usize>)
        ensures
            r matches Some(i) ==> i < self.users@.len() && self.users@[i as int].id == *id,
            r is None ==> !has_user(self.users@, *id),
            r is Some <==> has_user(self.users@, *id),
            self.wf() && r is Some ==> r->0 == pos_of(self.users@, *id),
    {
        let mut i: usize = 0;
        while i < self.users.len()
            invariant
                i <= self.users@.len(),
                forall|k: int| 0 <= k < i ==> (#[trigger] self.users@[k]).id != *id,
            decreases self.users@.len() - i,
        {
            if self.users[i].id == *id {
                proof {
                    if self.wf() {
                        let p = pos_of(self.users@, *id);
                        assert(self.users@[p].id == *id);
                        assert(p == i as int) by {
                            if p < i {
                                assert(self.users@[p].id != self.users@[i as int].id);
                            } else if p > i {
                                assert(self.users@[i as int].id != self.users@[p].id);
                            }
                        }
                    }
                }
                return Some(i);
            }
            i += 1;
        }
        None
    }

    /// Whether everyone has voted or is away.
    pub fn all_voted(&self) -> (r: bool)
        ensures
            r == all_voted(self.users_view()),
    {
        let mut i: usize = 0;
        while i < self.users.len()
            invariant
                i <= self.users@.len(),
                forall|k: int|
                    0 <= k < i ==> (#[trigger] self.users@[k]).vote.valid()
                        || self.users@[k].status is Away,
            decreases self.users@.len() - i,
        {
            let u = &self.users[i];
            if !u.vote.is_valid_vote() && matches!(u.status, UserStatus::Active) {
                return false;
            }
            i += 1;
        }
        true
    }

    /// Whether some active user holds a valid vote.
    pub fn anyone_voted(&self) -> (r: bool)
        ensures
            r == anyone_voted(self.users_view()),
    {
        let mut i: usize = 0;
        while i < self.users.len()
            invariant
                i <= self.users@.len(),
                forall|k: int|
                    0 <= k < i ==> !((#[trigger] self.users@[k]).vote.valid() && is_active(
                        self.users@[k],
                    )),
            decreases self.users@.len() - i,
        {
            let u = &self.users[i];
            if u.vote.is_valid_vote() && matches!(u.status, UserStatus::Active) {
                return true;
            }
            i += 1;
        }
        false
    }

    fn max_ord(&self) -> (m: usize)
        ensures
            m == max_ord(self.users@),
    {
        let mut m: usize = 0;
        let mut i: usize = 0;
        while i < self.users.len()
            invariant
                i <= self.users@.len(),
                m == max_ord(self.users@.take(i as int)),
            decreases self.users@.len() - i,
        {
            assert(self.users@.take(i + 1).drop_last() =~= self.users@.take(i as int));
            if self.users[i].ord > m {
                m = self.users[i].ord;
            }
            i += 1;
        }
        assert(self.users@.take(self.users@.len() as int) =~= self.users@);
        m
    }

    /// The user list summary: the active nicknames in ascending order.
    pub fn users_summary(&self) -> (r: OutboundMessage)
        requires
            self.wf(),
        ensures
            is_user_list(self.users_view(), r@),
    {
        let idx = self.arrange(Order::ByName);
        let mut names: Vec<String> = Vec::new();
        let mut k: usize = 0;
        while k < idx.len()
            invariant
                arranged(self.users@, idx@, Order::ByName),
                k <= idx@.len(),
                names@.len() == k,
                forall|j: int|
                    0 <= j < k ==> (#[trigger] names@[j])@ == self.users@[idx@[j] as int].nickname@,
            decreases idx@.len() - k,
        {
            names.push(self.users[idx[k]].nickname.clone());
            k += 1;
        }
        let r = OutboundMessage::UserList(names);
        assert(r@->UserList_0 =~= names_at(self.users@, idx@));
        r
    }

    fn vote_result_summary(&self) -> (r: OutboundMessage)
        requires
            self.wf(),
        ensures
            r@ matches Outbound::VotesResult(v) && exists|idx: Seq<usize>|
                arranged(self.users_view(), idx, Order::ByOrd) && v == votes_at(self.users_view(), idx),
    {
        let idx = self.arrange(Order::ByOrd);
        let mut votes: Vec<(String, Vote)> = Vec::new();
        let mut k: usize = 0;
        while k < idx.len()
            invariant
                arranged(self.users@, idx@, Order::ByOrd),
                k <= idx@.len(),
                votes@.len() == k,
                forall|j: int|
                    0 <= j < k ==> (#[trigger] votes@[j]).0@ == self.users@[idx@[j] as int].nickname@
                        && votes@[j].1 == self.users@[idx@[j] as int].vote,
            decreases idx@.len() - k,
        {
            let u = &self.users[idx[k]];
            votes.push((u.nickname.clone(), u.vote));
            k += 1;
        }
        let r = OutboundMessage::VotesResult(votes);
        assert(r@->VotesResult_0 =~= votes_at(self.users@, idx@));
        r
    }

    fn vote_status_summary(&self) -> (r: OutboundMessage)
        requires
            self.wf(),
        ensures
            r@ matches Outbound::VotesStatus(v) && exists|idx: Seq<usize>|
                arranged(self.users_view(), idx, Order::ByStatus) && v == statuses_at(self.users_view(), idx),
    {
        let idx = self.arrange(Order::ByStatus);
        let mut statuses: Vec<(String, VoteStatus)> = Vec::new();
        let mut k: usize = 0;
        while k < idx.len()
            invariant
                arranged(self.users@, idx@, Order::ByStatus),
                k <= idx@.len(),
                statuses@.len() == k,
                forall|j: int|
                    0 <= j < k ==> (#[trigger] statuses@[j]).0@ == self.users@[idx@[j] as int].nickname@
                        && statuses@[j].1 == self.users@[idx@[j] as int].vote.status_of(),
            decreases idx@.len() - k,
        {
            let u = &self.users[idx[k]];
            statuses.push((u.nickname.clone(), u.vote.status()));
            k += 1;
        }
        let r = OutboundMessage::VotesStatus(statuses);
        assert(r@->VotesStatus_0 =~= statuses_at(self.users@, idx@));
        r
    }

    /// The votes summary: the final reveal once everyone has voted, each
    /// active user's status before.
    pub fn votes_summary(&self) -> (r: OutboundMessage)
        requires
            self.wf(),
        ensures
            is_votes_summary(self.users_view(), r@),
            r@ matches Outbound::VotesStatus(v) ==> {
                &&& forall|a: int, b: int|
                    0 <= a < b < v.len() && (#[trigger] v[a]).1 is NotVoted ==> (#[trigger] v[b]).1 is NotVoted
                &&& forall|a: int, b: int|
                    0 <= a < b < v.len() && (#[trigger] v[a]).1 is Voted && (#[trigger] v[b]).1 is Voted
                        ==> ord_of(self.users_view(), v[a].0) <= ord_of(self.users_view(), v[b].0)
                &&& forall|a: int, b: int|
                    0 <= a < b < v.len() && (#[trigger] v[a]).1 is NotVoted && (#[trigger] v[b]).1 is NotVoted
                        ==> lex_lt(v[a].0, v[b].0)
            },
    {
        if self.all_voted() {
            self.vote_result_summary()
        } else {
            let r = self.vote_status_summary();
            proof {
                lemma_status_list_order(self.users@, r@);
            }
            r
        }
    }

    /// Queues `m` for every user.
    pub fn broadcast(&self, m: &OutboundMessage, out: &mut Vec<Delivery>)
        ensures
            sent(final(out)@) == sent(old(out)@) + broadcast(self.users_view(), m@),
    {
        let ghost start = sent(out@);
        let mut k: usize = 0;
        while k < self.users.len()
            invariant
                k <= self.users@.len(),
                sent(out@) == start + broadcast(self.users@.take(k as int), m@),
            decreases self.users@.len() - k,
        {
            let d = Delivery { to: self.users[k].id, message: m.duplicate() };
            let ghost prev = out@;
            out.push(d);
            assert(sent(out@) =~= sent(prev).push(d@));
            assert(broadcast(self.users@.take(k + 1), m@) =~= broadcast(self.users@.take(k as int), m@).push(d@));
            k += 1;
        }
        assert(self.users@.take(self.users@.len() as int) =~= self.users@);
    }

    /// Queues `m` for the user with identifier `id`.
    pub fn send_message(&self, id: &ConnId, m: OutboundMessage, out: &mut Vec<Delivery>)
        ensures
            sent(final(out)@) == sent(old(out)@).push((*id, m@)),
    {
        let ghost prev = out@;
        out.push(Delivery { to: *id, message: m });
        assert(sent(out@) =~= sent(prev).push((*id, m@)));
    }

    /// The nickname that `nickname` gives, or why it cannot be used.
    pub fn validate_nickname(&self, nickname: &str) -> (r: Result<String, Error>)
        requires
            self.wf(),
        ensures
            trim(nickname@).len() == 0 ==> r == Err::<String, Error>(Error::NicknameCannotBeEmpty),
            trim(nickname@).len() > 0 && name_taken(self.users_view(), nickname_for(nickname@)) ==> (
            r matches Err(Error::NicknameAlreadyInUse(n)) && n@ == nickname_for(nickname@)),
            trim(nickname@).len() > 0 && !name_taken(self.users_view(), nickname_for(nickname@))
                ==> (r matches Ok(n) && n@ == nickname_for(nickname@) && n@.len() > 0),
    {
        let ghost before = self.users@;
        let cs = chars_of(nickname);
        let t = trim_chars(&cs);
        if t.len() == 0 {
            return Err(Error::NicknameCannotBeEmpty);
        }
        let nick_chars = truncate_to_bytes(&t, MAX_NICKNAME_BYTES);
        let nick = string_of(&nick_chars);
        assert(nick@ == nickname_for(nickname@));
        assert(nick@.len() > 0) by {
            lemma_fitting_prefix_bounds(t@, MAX_NICKNAME_BYTES as nat);
        }
        let mut k: usize = 0;
        while k < self.users.len()
            invariant
                self.users@ == before,
                nick@ == nickname_for(nickname@),
                trim(nickname@).len() > 0,
                k <= before.len(),
                forall|j: int| 0 <= j < k ==> (#[trigger] before[j]).nickname@ != nick@,
            decreases before.len() - k,
        {
            if self.users[k].nickname == nick {
                assert(before[k as int].nickname@ == nick@);
                return Err(Error::NicknameAlreadyInUse(nick));
            }
            k += 1;
        }
        Ok(nick)
    }

    /// Adds a user under identifier `id`, which a user already holding it
    /// gives up.
    #[verifier::rlimit(40)]
    pub fn connect_with_id(&mut self, nickname: &str, id: ConnId, out: &mut Vec<Delivery>) -> (r:
        Result<ConnId, Error>)
        requires
            old(self).wf(),
        ensures
            final(self).wf(),
            connect_post(
                old(self).users_view(),
                final(self).users_view(),
                nickname@,
                id,
                r,
                sent(old(out)@),
                sent(final(out)@),
            ),
    {
        let ghost before = self.users@;
        let nick = match self.validate_nickname(nickname) {
            Ok(n) => n,
            Err(e) => return Err(e),
        };
        let user = User { id, nickname: nick, vote: Vote::Null, status: UserStatus::Active, ord: 0 };
        let ghost gu = user;
        match self.find(&id) {
            Some(i) => {
                self.users.set(i, user);
            },
            None => {
                self.users.push(user);
            },
        }
        let ghost after = self.users@;
        assert(after == placed(before, gu));
        proof {
            assert forall|i: int, j: int| 0 <= i < j < after.len() implies (#[trigger] after[i]).id
                != (#[trigger] after[j]).id && after[i].nickname@ != after[j].nickname@ by {
                if has_user(before, id) {
                    let p = pos_of(before, id);
                    if i == p {
                        assert(before[j].id != before[p].id);
                    } else if j == p {
                        assert(before[i].id != before[p].id);
                    }
                } else {
                    if j == before.len() {
                        assert(before[i].id != id);
                    }
                }
            }
        }
        let m1 = self.users_summary();
        self.broadcast(&m1, out);
        if self.anyone_voted() {
            let m2 = self.votes_summary();
            self.broadcast(&m2, out);
        }
        Ok(id)
    }

    /// An identifier that no user holds: `drawn` when it is free, otherwise
    /// the smallest free number.
    fn fresh_id(&self, drawn: ConnId) -> (r: ConnId)
        ensures
            !has_user(self.users_view(), r),
            !has_user(self.users_view(), drawn) ==> r == drawn,
    {
        if self.find(&drawn).is_none() {
            return drawn;
        }
        let n = self.users.len() as u128;
        let mut c: u128 = 0;
        while c <= n
            invariant
                n == self.users@.len(),
                n <= usize::MAX,
                has_user(self.users@, drawn),
                c <= n + 1,
                forall|k: int| 0 <= k < c ==> #[trigger] has_user(self.users@, ConnId(k as u128)),
            decreases n + 1 - c,
        {
            let id = ConnId(c);
            if self.find(&id).is_none() {
                return id;
            }
            c += 1;
        }
        proof {
            lemma_some_id_free(self.users@);
            let k = choose|k: int| 0 <= k <= self.users@.len() && !#[trigger] has_user(self.users@, ConnId(k as u128));
            assert(k < c);
        }
        drawn
    }

    /// Adds a user under a fresh identifier: a random one, or the smallest
    /// free number should the random one be taken.
    #[verifier::rlimit(40)]
    pub fn connect(&mut self, nickname: &str, out: &mut Vec<Delivery>) -> (r: Result<ConnId, Error>)
        requires
            old(self).wf(),
        ensures
            final(self).wf(),
            exists|id: ConnId|
                !has_user(old(self).users_view(), id) && connect_post(
                    old(self).users_view(),
                    final(self).users_view(),
                    nickname@,
                    id,
                    r,
                    sent(old(out)@),
                    sent(final(out)@),
                ),
            r matches Ok(id) ==> !has_user(old(self).users_view(), id),
    {
        let drawn = ConnId::new();
        let id = self.fresh_id(drawn);
        let r = self.connect_with_id(nickname, id, out);
        proof {
            if r is Ok {
                assert(trim(nickname@).len() > 0);
            }
        }
        r
    }

    /// Removes the user with identifier `id`, if present, and sends the
    /// user list to those who stay.
    #[verifier::rlimit(40)]
    pub fn disconnect(&mut self, id: &ConnId, out: &mut Vec<Delivery>)
        requires
            old(self).wf(),
        ensures
            final(self).wf(),
            disconnect_post(
                old(self).users_view(),
                final(self).users_view(),
                *id,
                sent(old(out)@),
                sent(final(out)@),
            ),
    {
        let ghost before = self.users@;
        match self.find(id) {
            Some(i) => {
                self.users.remove(i);
                proof {
                    let after = self.users@;
                    assert forall|a: int, b: int| 0 <= a < b < after.len() implies (#[trigger] after[a]).id
                        != (#[trigger] after[b]).id && after[a].nickname@ != after[b].nickname@ by {
                        let a1 = if a < i { a } else { a + 1 };
                        let b1 = if b < i { b } else { b + 1 };
                        assert(after[a] == before[a1] && after[b] == before[b1]);
                    }
                    assert forall|a: int| 0 <= a < after.len() implies (#[trigger] after[a]).nickname@.len() > 0
                        && (after[a].vote.valid() ==> after[a].ord > 0) by {
                        let a1 = if a < i { a } else { a + 1 };
                        assert(after[a] == before[a1]);
                    }
                }
            },
            None => {},
        }
        let m = self.users_summary();
        self.broadcast(&m, out);
    }

    /// Clears every vote and every place in the voting order.
    pub fn reset_votes(&mut self)
        requires
            old(self).wf(),
        ensures
            final(self).wf(),
            final(self).users_view() == reset(old(self).users_view()),
    {
        let ghost before = self.users@;
        let mut k: usize = 0;
        while k < self.users.len()
            invariant
                k <= self.users@.len() == before.len(),
                forall|j: int| 0 <= j < k ==> #[trigger] self.users@[j] == with_vote(before[j], Vote::Null, 0),
                forall|j: int| k <= j < before.len() ==> #[trigger] self.users@[j] == before[j],
            decreases before.len() - k,
        {
            let u = &self.users[k];
            let nu = User {
                id: u.id,
                nickname: u.nickname.clone(),
                vote: Vote::Null,
                status: u.status,
                ord: 0,
            };
            self.users.set(k, nu);
            k += 1;
        }
        assert(self.users@ =~= reset(before));
    }

    /// Records `vote` for the user with identifier `id`, tells the voter,
    /// sends everyone the votes summary, and starts a new round once the
    /// current one is complete. An unknown `id` changes nothing.
    #[verifier::rlimit(40)]
    pub fn vote(&mut self, id: &ConnId, vote: &Vote, out: &mut Vec<Delivery>)
        requires
            old(self).wf(),
        ensures
            final(self).wf(),
            vote_post(
                old(self).users_view(),
                final(self).users_view(),
                *id,
                *vote,
                sent(old(out)@),
                sent(final(out)@),
            ),
    {
        let ghost before = self.users@;
        match self.find(id) {
            None => {},
            Some(i) => {
                let u = &self.users[i];
                let ord = if vote.is_valid_vote() {
                    let m = self.max_ord();
                    if m < usize::MAX {
                        m + 1
                    } else {
                        usize::MAX
                    }
                } else {
                    u.ord
                };
                let nu = User {
                    id: u.id,
                    nickname: u.nickname.clone(),
                    vote: *vote,
                    status: u.status,
                    ord,
                };
                self.users.set(i, nu);
                let ghost voted = self.users@;
                assert(voted == before.update(i as int, with_vote(before[i as int], *vote, ord_after_vote(before, before[i as int], *vote))));
                let ghost start = sent(out@);
                self.send_message(id, OutboundMessage::YourVote(*vote), out);
                let summary = self.votes_summary();
                self.broadcast(&summary, out);
                assert(sent(out@) =~= sent(old(out)@) + seq![(*id, Outbound::YourVote(*vote))] + broadcast(voted, summary@));
                if self.all_voted() {
                    self.reset_votes();
                }
            },
        }
    }

    /// Sets the status of the user with identifier `id`, tells that user,
    /// and sends everyone the user list. An unknown `id` changes nothing.
    #[verifier::rlimit(40)]
    pub fn set_status(&mut self, id: &ConnId, status: &UserStatus, out: &mut Vec<Delivery>)
        requires
            old(self).wf(),
        ensures
            final(self).wf(),
            status_post(
                old(self).users_view(),
                final(self).users_view(),
                *id,
                *status,
                sent(old(out)@),
                sent(final(out)@),
            ),
    {
        let ghost before = self.users@;
        match self.find(id) {
            None => {},
            Some(i) => {
                let u = &self.users[i];
                let nu = User {
                    id: u.id,
                    nickname: u.nickname.clone(),
                    vote: u.vote,
                    status: *status,
                    ord: u.ord,
                };
                self.users.set(i, nu);
                let ghost after = self.users@;
                assert(after == before.update(i as int, with_status(before[i as int], *status)));
                self.send_message(id, OutboundMessage::YourStatus(*status), out);
                let summary = self.users_summary();
                self.broadcast(&summary, out);
                assert(sent(out@) =~= sent(old(out)@) + seq![(*id, Outbound::YourStatus(*status))] + broadcast(after, summary@));
            },
        }
    }

    /// Runs one command; the messages it sends are appended to `out`, in
    /// the order in which they are to be delivered.
    #[verifier::rlimit(40)]
    pub fn process_command(&mut self, cmd: &Command, out: &mut Vec<Delivery>) -> (r: Reply)
        requires
            old(self).wf(),
        ensures
            final(self).wf(),
            match *cmd {
                Command::Connect { nickname } => r matches Reply::Connected(res) && exists|id: ConnId|
                    connect_post(
                        old(self).users_view(),
                        final(self).users_view(),
                        nickname@,
                        id,
                        res,
                        sent(old(out)@),
                        sent(final(out)@),
                    ),
                Command::Disconnect { conn_id } => r is Done && disconnect_post(
                    old(self).users_view(),
                    final(self).users_view(),
                    conn_id,
                    sent(old(out)@),
                    sent(final(out)@),
                ),
                Command::Vote { conn_id, vote } => r is Done && vote_post(
                    old(self).users_view(),
                    final(self).users_view(),
                    conn_id,
                    vote,
                    sent(old(out)@),
                    sent(final(out)@),
                ),
                Command::SetStatus { conn_id, status } => r is Done && status_post(
                    old(self).users_view(),
                    final(self).users_view(),
                    conn_id,
                    status,
                    sent(old(out)@),
                    sent(final(out)@),
                ),
            },
    {
        match cmd {
            Command::Connect { nickname } => Reply::Connected(self.connect(nickname.as_str(), out)),
            Command::Disconnect { conn_id } => {
                self.disconnect(conn_id, out);
                Reply::Done
            },
            Command::Vote { conn_id, vote } => {
                self.vote(conn_id, vote, out);
                Reply::Done
            },
            Command::SetStatus { conn_id, status } => {
                self.set_status(conn_id, status, out);
                Reply::Done
            },
        }
    }

    fn precedes_at(&self, key: Order, i: usize, j: usize) -> (r: bool)
        requires
            i < self.users@.len(),
            j < self.users@.len(),
        ensures
            r == precedes(key, self.users@[i as int], self.users@[j as int]),
    {
        let a = &self.users[i];
        let b = &self.users[j];
        let name_less = lex_less(&chars_of(a.nickname.as_str()), &chars_of(b.nickname.as_str()));
        let ord_less = a.ord < b.ord || (a.ord == b.ord && name_less);
        match key {
            Order::ByName => name_less,
            Order::ByOrd => ord_less,
            Order::ByStatus => {
                let va = a.vote.is_valid_vote();
                let vb = b.vote.is_valid_vote();
                if va && vb {
                    ord_less
                } else if va {
                    true
                } else if vb {
                    false
                } else {
                    name_less
                }
            },
        }
    }

    /// The active users, in the given order.
    #[verifier::rlimit(40)]
    pub fn arrange(&self, key: Order) -> (idx: Vec<usize>)
        requires
            self.wf(),
        ensures
            arranged(self.users_view(), idx@, key),
    {
        let ghost u = self.users@;
        let n = self.users.len();
        let mut idx: Vec<usize> = Vec::new();
        let mut i: usize = 0;
        while i < n
            invariant
                n == u.len(),
                u == self.users@,
                self.wf(),
                i <= n,
                forall|k: int|
                    0 <= k < idx@.len() ==> (#[trigger] idx@[k]) < i && is_active(u[idx@[k] as int]),
                forall|j: int| 0 <= j < i && is_active(#[trigger] u[j]) ==> idx@.contains(j as usize),
                forall|a: int, b: int|
                    0 <= a < b < idx@.len() ==> precedes(key, #[trigger] u[idx@[a] as int], #[trigger] u[idx@[b] as int]),
            decreases n - i,
        {
            if matches!(self.users[i].status, UserStatus::Active) {
                let mut p: usize = 0;
                while p < idx.len() && !self.precedes_at(key, i, idx[p])
                    invariant
                        n == u.len(),
                        u == self.users@,
                        self.wf(),
                        i < n,
                        p <= idx@.len(),
                        forall|k: int|
                            0 <= k < idx@.len() ==> (#[trigger] idx@[k]) < i && is_active(u[idx@[k] as int]),
                        forall|q: int| 0 <= q < p ==> precedes(key, #[trigger] u[idx@[q] as int], u[i as int]),
                    decreases idx@.len() - p,
                {
                    proof {
                        let j = idx@[p as int] as int;
                        assert(u[j].nickname@ != u[i as int].nickname@);
                        lemma_precedes_order(key, u[i as int], u[j], u[j]);
                    }
                    p += 1;
                }
                let ghost old_idx = idx@;
                idx.insert(p, i);
                proof {
                    let s = idx@;
                    assert(s == old_idx.insert(p as int, i));
                    assert forall|a: int, b: int| 0 <= a < b < s.len() implies precedes(
                        key,
                        #[trigger] u[s[a] as int],
                        #[trigger] u[s[b] as int],
                    ) by {
                        if b < p {
                        } else if a < p && b == p {
                        } else if a < p {
                            assert(old_idx[a] == s[a] && old_idx[b - 1] == s[b]);
                        } else if a == p {
                            if b - 1 > p {
                                lemma_precedes_order(key, u[i as int], u[old_idx[p as int] as int], u[s[b] as int]);
                            }
                        } else {
                            assert(old_idx[a - 1] == s[a] && old_idx[b - 1] == s[b]);
                        }
                    }
                    assert forall|j: int| 0 <= j < i + 1 && is_active(#[trigger] u[j]) implies s.contains(j as usize) by {
                        if j == i {
                            assert(s[p as int] == i);
                        } else {
                            let k = choose|k: int| 0 <= k < old_idx.len() && old_idx[k] == j as usize;
                            if k < p {
                                assert(s[k] == j as usize);
                            } else {
                                assert(s[k + 1] == j as usize);
                            }
                        }
                    }
                }
            }
            i += 1;
        }
        idx
    }
}


/// A user whose vote is valid holds a place in the voting order.
pub proof fn lemma_valid_vote_has_place(server: &GameServer, i: int)
    requires
        server.wf(),
        0 <= i < server.users_view().len(),
        server.users_view()[i].vote.valid(),
    ensures
        server.users_view()[i].ord > 0,
{
}

/// The room after `vote` is recorded for the user with identifier `id`.
pub open spec fn voted_room(before: Seq<User>, id: ConnId, vote: Vote) -> Seq<User> {
    before.update(pos_of(before, id), with_vote(before[pos_of(before, id)], vote, ord_after_vote(before, before[pos_of(before, id)], vote)))
}

proof fn lemma_max_ord_bounds(users: Seq<User>)
    ensures
        forall|i: int| 0 <= i < users.len() ==> (#[trigger] users[i]).ord <= max_ord(users),
    decreases users.len(),
{
    if users.len() > 0 {
        lemma_max_ord_bounds(users.drop_last());
        assert forall|i: int| 0 <= i < users.len() implies (#[trigger] users[i]).ord <= max_ord(users) by {
            if i < users.len() - 1 {
                assert(users.drop_last()[i] == users[i]);
            }
        }
    }
}

/// A valid vote that does not end the round puts the voter last in the
/// voting order: its `ord` is one more than the largest before, so above
/// every other user's, while the largest is below `usize::MAX`; no one else
/// changes.
pub proof fn lemma_vote_goes_last(
    before: Seq<User>,
    after: Seq<User>,
    id: ConnId,
    vote: Vote,
    sent_before: Seq<(ConnId, Outbound)>,
    sent_after: Seq<(ConnId, Outbound)>,
)
    requires
        vote_post(before, after, id, vote, sent_before, sent_after),
        has_user(before, id),
        vote.valid(),
        max_ord(before) < usize::MAX,
        !all_voted(voted_room(before, id, vote)),
    ensures
        after[pos_of(before, id)].vote == vote,
        after[pos_of(before, id)].ord == max_ord(before) + 1,
        forall|j: int|
            0 <= j < after.len() && j != pos_of(before, id) ==> #[trigger] after[j] == before[j]
                && after[j].ord < after[pos_of(before, id)].ord,
{
    lemma_max_ord_bounds(before);
}

/// A vote that is not valid, and does not end the round, clears the
/// voter's vote and leaves the whole voting order as it was: a user who had
/// not voted keeps `ord == 0`.
pub proof fn lemma_invalid_vote_keeps_place(
    before: Seq<User>,
    after: Seq<User>,
    id: ConnId,
    vote: Vote,
    sent_before: Seq<(ConnId, Outbound)>,
    sent_after: Seq<(ConnId, Outbound)>,
)
    requires
        vote_post(before, after, id, vote, sent_before, sent_after),
        has_user(before, id),
        !vote.valid(),
        !all_voted(voted_room(before, id, vote)),
    ensures
        after[pos_of(before, id)].vote is Null,
        forall|j: int| 0 <= j < after.len() ==> (#[trigger] after[j]).ord == before[j].ord,
{
}

/// When a vote completes the round, every user is left with no vote and
/// no place in the voting order.
pub proof fn lemma_round_reset(
    before: Seq<User>,
    after: Seq<User>,
    id: ConnId,
    vote: Vote,
    sent_before: Seq<(ConnId, Outbound)>,
    sent_after: Seq<(ConnId, Outbound)>,
)
    requires
        vote_post(before, after, id, vote, sent_before, sent_after),
        has_user(before, id),
        all_voted(
            before.update(
                pos_of(before, id),
                with_vote(before[pos_of(before, id)], vote, ord_after_vote(before, before[pos_of(before, id)], vote)),
            ),
        ),
    ensures
        forall|i: int| 0 <= i < after.len() ==> (#[trigger] after[i]).ord == 0 && after[i].vote is Null,
{
}

/// Everyone has voted in the empty room.
pub proof fn lemma_all_voted_empty()
    ensures
        all_voted(Seq::<User>::empty()),
{
}

/// While an active user has no vote, the votes summary is a status list,
/// never the result.
pub proof fn lemma_pending_vote_gives_status(users: Seq<User>, m: Outbound, i: int)
    requires
        is_votes_summary(users, m),
        0 <= i < users.len(),
        is_active(users[i]),
        users[i].vote is Null,
    ensures
        m is VotesStatus,
{
}

/// The user list names exactly the active users, in ascending order.
pub proof fn lemma_user_list_order(users: Seq<User>, m: Outbound)
    requires
        users.len() <= usize::MAX,
        is_user_list(users, m),
    ensures
        m matches Outbound::UserList(names) && {
            &&& forall|a: int, b: int| 0 <= a < b < names.len() ==> lex_lt(#[trigger] names[a], #[trigger] names[b])
            &&& forall|n: Seq<char>|
                names.contains(n) <==> exists|i: int|
                    0 <= i < users.len() && is_active(#[trigger] users[i]) && users[i].nickname@ == n
        },
{
    let names = m->UserList_0;
    let idx = choose|idx: Seq<usize>| arranged(users, idx, Order::ByName) && names == names_at(users, idx);
    assert forall|n: Seq<char>| names.contains(n) implies exists|i: int|
        0 <= i < users.len() && is_active(#[trigger] users[i]) && users[i].nickname@ == n by {
        let k = choose|k: int| 0 <= k < names.len() && names[k] == n;
        assert(idx[k] < users.len() && is_active(users[idx[k] as int]));
    }
    assert forall|n: Seq<char>| (exists|i: int|
        0 <= i < users.len() && is_active(#[trigger] users[i]) && users[i].nickname@ == n) implies names.contains(n) by {
        let i = choose|i: int| 0 <= i < users.len() && is_active(#[trigger] users[i]) && users[i].nickname@ == n;
        assert(idx.contains(i as usize));
        let k = choose|k: int| 0 <= k < idx.len() && idx[k] == i as usize;
        assert(names[k] == n);
    }
}

/// In a status list, every user who voted comes before every user who did
/// not; those who voted by ascending `ord`, the others by nickname.
pub proof fn lemma_status_list_order(users: Seq<User>, m: Outbound)
    requires
        nicknames_distinct(users),
        is_votes_summary(users, m),
        !all_voted(users),
    ensures
        m matches Outbound::VotesStatus(v) && {
            &&& forall|a: int, b: int|
                0 <= a < b < v.len() && (#[trigger] v[a]).1 is NotVoted ==> (#[trigger] v[b]).1 is NotVoted
            &&& forall|a: int, b: int|
                0 <= a < b < v.len() && (#[trigger] v[a]).1 is Voted && (#[trigger] v[b]).1 is Voted
                    ==> ord_of(users, v[a].0) <= ord_of(users, v[b].0)
            &&& forall|a: int, b: int|
                0 <= a < b < v.len() && (#[trigger] v[a]).1 is NotVoted && (#[trigger] v[b]).1 is NotVoted
                    ==> lex_lt(v[a].0, v[b].0)
        },
{
    let v = m->VotesStatus_0;
    let idx = choose|idx: Seq<usize>| arranged(users, idx, Order::ByStatus) && v == statuses_at(users, idx);
    assert forall|k: int| 0 <= k < v.len() implies ord_of(users, #[trigger] v[k].0) == users[idx[k] as int].ord by {
        let j = idx[k] as int;
        let c = choose|i: int| 0 <= i < users.len() && (#[trigger] users[i]).nickname@ == v[k].0;
        assert(users[j].nickname@ == v[k].0);
        if c != j {
            if c < j {
                assert(users[c].nickname@ != users[j].nickname@);
            } else {
                assert(users[j].nickname@ != users[c].nickname@);
            }
        }
    }
    assert forall|a: int, b: int|
        0 <= a < b < v.len() && (#[trigger] v[a]).1 is NotVoted implies (#[trigger] v[b]).1 is NotVoted by {
        assert(precedes(Order::ByStatus, users[idx[a] as int], users[idx[b] as int]));
    }
    assert forall|a: int, b: int|
        0 <= a < b < v.len() && (#[trigger] v[a]).1 is Voted && (#[trigger] v[b]).1 is Voted
            implies ord_of(users, v[a].0) <= ord_of(users, v[b].0) by {
        assert(precedes(Order::ByStatus, users[idx[a] as int], users[idx[b] as int]));
    }
    assert forall|a: int, b: int|
        0 <= a < b < v.len() && (#[trigger] v[a]).1 is NotVoted && (#[trigger] v[b]).1 is NotVoted
            implies lex_lt(v[a].0, v[b].0) by {
        assert(precedes(Order::ByStatus, users[idx[a] as int], users[idx[b] as int]));
    }
}


/// A room cannot hold every identifier from 0 to its size.
proof fn lemma_some_id_free(users: Seq<User>)
    requires
        users.len() <= usize::MAX,
    ensures
        exists|k: int| 0 <= k <= users.len() && !#[trigger] has_user(users, ConnId(k as u128)),
{
    if forall|k: int| 0 <= k <= users.len() ==> #[trigger] has_user(users, ConnId(k as u128)) {
        let ids = users.map_values(|u: User| u.id.0 as int);
        let held = ids.to_set();
        let range = set_int_range(0, users.len() as int + 1);
        ids.lemma_cardinality_of_set();
        lemma_int_range(0, users.len() as int + 1);
        assert(range.subset_of(held)) by {
            assert forall|k: int| range.contains(k) implies held.contains(k) by {
                assert(has_user(users, ConnId(k as u128)));
                let i = choose|i: int| 0 <= i < users.len() && (#[trigger] users[i]).id == ConnId(k as u128);
                assert(ids[i] == k);
            }
        }
        lemma_len_subset(range, held);
        assert(false);
    }
}

/// Two strictly ordered listings of the same indices are the same listing.
proof fn lemma_listing_unique(users: Seq<User>, key: Order, a: Seq<usize>, b: Seq<usize>)
    requires
        forall|x: int, y: int|
            0 <= x < y < a.len() ==> precedes(key, #[trigger] users[a[x] as int], #[trigger] users[a[y] as int]),
        forall|x: int, y: int|
            0 <= x < y < b.len() ==> precedes(key, #[trigger] users[b[x] as int], #[trigger] users[b[y] as int]),
        forall|v: usize| a.contains(v) <==> b.contains(v),
    ensures
        a == b,
    decreases a.len(),
{
    if a.len() == 0 {
        if b.len() > 0 {
            assert(b.contains(b[0]));
        }
        assert(a =~= b);
    } else {
        assert(a.contains(a[0]));
        assert(b.len() > 0);
        assert(b.contains(b[0]));
        let j = choose|j: int| 0 <= j < b.len() && b[j] == a[0];
        let i = choose|i: int| 0 <= i < a.len() && a[i] == b[0];
        if a[0] != b[0] {
            assert(j > 0 && i > 0);
            let (x, y) = (users[a[0] as int], users[b[0] as int]);
            assert(precedes(key, y, x));
            assert(precedes(key, x, y));
            lemma_precedes_order(key, x, y, x);
        }
        let (ra, rb) = (a.drop_first(), b.drop_first());
        assert forall|v: usize| ra.contains(v) <==> rb.contains(v) by {
            if ra.contains(v) {
                let k = choose|k: int| 0 <= k < ra.len() && ra[k] == v;
                assert(a[k + 1] == v);
                assert(b.contains(v));
                let m = choose|m: int| 0 <= m < b.len() && b[m] == v;
                if m == 0 {
                    lemma_precedes_order(key, users[a[0] as int], users[a[0] as int], users[a[0] as int]);
                    assert(precedes(key, users[a[0] as int], users[a[k + 1] as int]));
                } else {
                    assert(rb[m - 1] == v);
                }
            }
            if rb.contains(v) {
                let k = choose|k: int| 0 <= k < rb.len() && rb[k] == v;
                assert(b[k + 1] == v);
                assert(a.contains(v));
                let m = choose|m: int| 0 <= m < a.len() && a[m] == v;
                if m == 0 {
                    lemma_precedes_order(key, users[b[0] as int], users[b[0] as int], users[b[0] as int]);
                    assert(precedes(key, users[b[0] as int], users[b[k + 1] as int]));
                } else {
                    assert(ra[m - 1] == v);
                }
            }
        }
        lemma_listing_unique(users, key, ra, rb);
        assert(a =~= seq![a[0]] + ra);
        assert(b =~= seq![b[0]] + rb);
    }
}

/// Two listings that `arranged` admits are the same: each order is strict.
pub proof fn lemma_arranged_unique(users: Seq<User>, key: Order, a: Seq<usize>, b: Seq<usize>)
    requires
        arranged(users, a, key),
        arranged(users, b, key),
    ensures
        a == b,
{
    assert forall|v: usize| a.contains(v) <==> b.contains(v) by {
        if a.contains(v) {
            let k = choose|k: int| 0 <= k < a.len() && a[k] == v;
            assert(is_active(users[v as int]));
            assert(b.contains((v as int) as usize));
        }
        if b.contains(v) {
            let k = choose|k: int| 0 <= k < b.len() && b[k] == v;
            assert(is_active(users[v as int]));
            assert(a.contains((v as int) as usize));
        }
    }
    lemma_listing_unique(users, key, a, b);
}

/// The user list summary of a room is one message: no two differ.
pub proof fn lemma_user_list_unique(users: Seq<User>, m1: Outbound, m2: Outbound)
    requires
        is_user_list(users, m1),
        is_user_list(users, m2),
    ensures
        m1 == m2,
{
    let a = choose|idx: Seq<usize>| arranged(users, idx, Order::ByName) && m1->UserList_0 == names_at(users, idx);
    let b = choose|idx: Seq<usize>| arranged(users, idx, Order::ByName) && m2->UserList_0 == names_at(users, idx);
    lemma_arranged_unique(users, Order::ByName, a, b);
}

/// The votes summary of a room is one message: no two differ.
pub proof fn lemma_votes_summary_unique(users: Seq<User>, m1: Outbound, m2: Outbound)
    requires
        is_votes_summary(users, m1),
        is_votes_summary(users, m2),
    ensures
        m1 == m2,
{
    if all_voted(users) {
        let a = choose|idx: Seq<usize>| arranged(users, idx, Order::ByOrd) && m1->VotesResult_0 == votes_at(users, idx);
        let b = choose|idx: Seq<usize>| arranged(users, idx, Order::ByOrd) && m2->VotesResult_0 == votes_at(users, idx);
        lemma_arranged_unique(users, Order::ByOrd, a, b);
    } else {
        let a = choose|idx: Seq<usize>| arranged(users, idx, Order::ByStatus) && m1->VotesStatus_0 == statuses_at(users, idx);
        let b = choose|idx: Seq<usize>| arranged(users, idx, Order::ByStatus) && m2->VotesStatus_0 == statuses_at(users, idx);
        lemma_arranged_unique(users, Order::ByStatus, a, b);
    }
}


/// `after` is what one command makes of the room `before`, whatever the
/// identifier it minted and whatever it sent.
pub open spec fn command_step(before: Seq<User>, after: Seq<User>, cmd: Command) -> bool {
    match cmd {
        Command::Connect { nickname } => exists|
            id: ConnId,
            r: Result<ConnId, Error>,
            s0: Seq<(ConnId, Outbound)>,
            s1: Seq<(ConnId, Outbound)>,
        | connect_post(before, after, nickname@, id, r, s0, s1),
        Command::Disconnect { conn_id } => exists|
            s0: Seq<(ConnId, Outbound)>,
            s1: Seq<(ConnId, Outbound)>,
        | disconnect_post(before, after, conn_id, s0, s1),
        Command::Vote { conn_id, vote } => exists|
            s0: Seq<(ConnId, Outbound)>,
            s1: Seq<(ConnId, Outbound)>,
        | vote_post(before, after, conn_id, vote, s0, s1),
        Command::SetStatus { conn_id, status } => exists|
            s0: Seq<(ConnId, Outbound)>,
            s1: Seq<(ConnId, Outbound)>,
        | status_post(before, after, conn_id, status, s0, s1),
    }
}

/// Rewriting users in place while keeping each nickname keeps them distinct.
proof fn lemma_same_names_distinct(before: Seq<User>, after: Seq<User>)
    requires
        nicknames_distinct(before),
        after.len() == before.len(),
        forall|i: int| 0 <= i < before.len() ==> (#[trigger] after[i]).nickname == before[i].nickname,
    ensures
        nicknames_distinct(after),
{
    assert forall|i: int, j: int| 0 <= i < j < after.len() implies (#[trigger] after[i]).nickname@
        != (#[trigger] after[j]).nickname@ by {
        assert(before[i].nickname@ != before[j].nickname@);
    }
}

proof fn lemma_connect_keeps_distinct(
    before: Seq<User>,
    after: Seq<User>,
    nickname: Seq<char>,
    id: ConnId,
)
    requires
        nicknames_distinct(before),
        connect_state(before, after, nickname, id),
    ensures
        nicknames_distinct(after),
{
    if trim(nickname).len() > 0 && !name_taken(before, nickname_for(nickname)) {
        let u = choose|u: User|
            {
                &&& u.id == id
                &&& u.nickname@ == nickname_for(nickname)
                &&& u.vote is Null
                &&& u.status is Active
                &&& u.ord == 0
                &&& after == placed(before, u)
            };
        assert forall|i: int, j: int| 0 <= i < j < after.len() implies (#[trigger] after[i]).nickname@
            != (#[trigger] after[j]).nickname@ by {
            if has_user(before, u.id) {
                let p = pos_of(before, u.id);
                if i != p && j != p {
                    assert(before[i].nickname@ != before[j].nickname@);
                } else if i == p {
                    assert(before[j].nickname@ != nickname_for(nickname));
                } else {
                    assert(before[i].nickname@ != nickname_for(nickname));
                }
            } else if j == before.len() {
                assert(before[i].nickname@ != nickname_for(nickname));
            } else {
                assert(before[i].nickname@ != before[j].nickname@);
            }
        }
    }
}

proof fn lemma_disconnect_keeps_distinct(
    before: Seq<User>,
    after: Seq<User>,
    id: ConnId,
)
    requires
        nicknames_distinct(before),
        disconnect_state(before, after, id),
    ensures
        nicknames_distinct(after),
{
    if has_user(before, id) {
        let p = pos_of(before, id);
        assert forall|i: int, j: int| 0 <= i < j < after.len() implies (#[trigger] after[i]).nickname@
            != (#[trigger] after[j]).nickname@ by {
            let i1 = if i < p { i } else { i + 1 };
            let j1 = if j < p { j } else { j + 1 };
            assert(after[i] == before[i1] && after[j] == before[j1]);
            assert(before[i1].nickname@ != before[j1].nickname@);
        }
    }
}

proof fn lemma_vote_keeps_distinct(
    before: Seq<User>,
    after: Seq<User>,
    id: ConnId,
    vote: Vote,
)
    requires
        nicknames_distinct(before),
        vote_state(before, after, id, vote),
    ensures
        nicknames_distinct(after),
{
    if has_user(before, id) {
        let p = pos_of(before, id);
        let voted = before.update(p, with_vote(before[p], vote, ord_after_vote(before, before[p], vote)));
        lemma_same_names_distinct(before, voted);
        if all_voted(voted) {
            lemma_same_names_distinct(voted, reset(voted));
        }
    }
}

proof fn lemma_status_keeps_distinct(
    before: Seq<User>,
    after: Seq<User>,
    id: ConnId,
    status: UserStatus,
)
    requires
        nicknames_distinct(before),
        status_state(before, after, id, status),
    ensures
        nicknames_distinct(after),
{
    if has_user(before, id) {
        let p = pos_of(before, id);
        lemma_same_names_distinct(before, before.update(p, with_status(before[p], status)));
    }
}

#[verifier::rlimit(40)]
proof fn lemma_step_keeps_distinct(before: Seq<User>, after: Seq<User>, cmd: Command)
    requires
        nicknames_distinct(before),
        command_step(before, after, cmd),
    ensures
        nicknames_distinct(after),
{
    match cmd {
        Command::Connect { nickname } => {
            let (id, r, s0, s1) = choose|
                id: ConnId,
                r: Result<ConnId, Error>,
                s0: Seq<(ConnId, Outbound)>,
                s1: Seq<(ConnId, Outbound)>,
            | connect_post(before, after, nickname@, id, r, s0, s1);
            lemma_connect_keeps_distinct(before, after, nickname@, id);
        },
        Command::Disconnect { conn_id } => {
            let (s0, s1) = choose|s0: Seq<(ConnId, Outbound)>, s1: Seq<(ConnId, Outbound)>|
                disconnect_post(before, after, conn_id, s0, s1);
            lemma_disconnect_keeps_distinct(before, after, conn_id);
        },
        Command::Vote { conn_id, vote } => {
            let (s0, s1) = choose|s0: Seq<(ConnId, Outbound)>, s1: Seq<(ConnId, Outbound)>|
                vote_post(before, after, conn_id, vote, s0, s1);
            lemma_vote_keeps_distinct(before, after, conn_id, vote);
        },
        Command::SetStatus { conn_id, status } => {
            let (s0, s1) = choose|s0: Seq<(ConnId, Outbound)>, s1: Seq<(ConnId, Outbound)>|
                status_post(before, after, conn_id, status, s0, s1);
            lemma_status_keeps_distinct(before, after, conn_id, status);
        },
    }
}

/// Whatever commands the room runs from empty, nicknames stay pairwise
/// distinct after each of them.
pub proof fn lemma_nicknames_stay_distinct(states: Seq<Seq<User>>, cmds: Seq<Command>)
    requires
        states.len() == cmds.len() + 1,
        states[0] == Seq::<User>::empty(),
        forall|k: int| 0 <= k < cmds.len() ==> command_step(states[k], states[k + 1], #[trigger] cmds[k]),
    ensures
        forall|k: int| 0 <= k < states.len() ==> nicknames_distinct(#[trigger] states[k]),
    decreases cmds.len(),
{
    if cmds.len() > 0 {
        let n = cmds.len() as int;
        lemma_nicknames_stay_distinct(states.take(n), cmds.take(n - 1));
        assert(states.take(n)[n - 1] == states[n - 1]);
        lemma_step_keeps_distinct(states[n - 1], states[n], cmds[n - 1]);
        assert forall|k: int| 0 <= k < states.len() implies nicknames_distinct(#[trigger] states[k]) by {
            if k < n {
                assert(states.take(n)[k] == states[k]);
            }
        }
    }
}


proof fn lemma_connect_keeps_voters_placed(
    before: Seq<User>,
    after: Seq<User>,
    nickname: Seq<char>,
    id: ConnId,
)
    requires
        voters_placed(before),
        connect_state(before, after, nickname, id),
    ensures
        voters_placed(after),
{
    if trim(nickname).len() > 0 && !name_taken(before, nickname_for(nickname)) {
        let u = choose|u: User|
            {
                &&& u.id == id
                &&& u.nickname@ == nickname_for(nickname)
                &&& u.vote is Null
                &&& u.status is Active
                &&& u.ord == 0
                &&& after == placed(before, u)
            };
        assert forall|i: int| 0 <= i < after.len() && (#[trigger] after[i]).vote.valid() implies after[i].ord
            > 0 by {
            if i < before.len() && after[i] != u {
                assert(after[i] == before[i]);
            }
        }
    }
}

proof fn lemma_disconnect_keeps_voters_placed(before: Seq<User>, after: Seq<User>, id: ConnId)
    requires
        voters_placed(before),
        disconnect_state(before, after, id),
    ensures
        voters_placed(after),
{
    if has_user(before, id) {
        let p = pos_of(before, id);
        assert forall|i: int| 0 <= i < after.len() && (#[trigger] after[i]).vote.valid() implies after[i].ord
            > 0 by {
            let i1 = if i < p { i } else { i + 1 };
            assert(after[i] == before[i1]);
        }
    }
}

proof fn lemma_vote_keeps_voters_placed(
    before: Seq<User>,
    after: Seq<User>,
    id: ConnId,
    vote: Vote,
)
    requires
        voters_placed(before),
        vote_state(before, after, id, vote),
    ensures
        voters_placed(after),
{
    if has_user(before, id) {
        let p = pos_of(before, id);
        let voted = before.update(p, with_vote(before[p], vote, ord_after_vote(before, before[p], vote)));
        assert(voters_placed(voted));
        if all_voted(voted) {
            assert(voters_placed(reset(voted)));
        }
    }
}

proof fn lemma_status_keeps_voters_placed(
    before: Seq<User>,
    after: Seq<User>,
    id: ConnId,
    status: UserStatus,
)
    requires
        voters_placed(before),
        status_state(before, after, id, status),
    ensures
        voters_placed(after),
{
    if has_user(before, id) {
        let p = pos_of(before, id);
        assert(voters_placed(before.update(p, with_status(before[p], status))));
    }
}

#[verifier::rlimit(40)]
proof fn lemma_step_keeps_voters_placed(before: Seq<User>, after: Seq<User>, cmd: Command)
    requires
        voters_placed(before),
        command_step(before, after, cmd),
    ensures
        voters_placed(after),
{
    match cmd {
        Command::Connect { nickname } => {
            let (id, r, s0, s1) = choose|
                id: ConnId,
                r: Result<ConnId, Error>,
                s0: Seq<(ConnId, Outbound)>,
                s1: Seq<(ConnId, Outbound)>,
            | connect_post(before, after, nickname@, id, r, s0, s1);
            lemma_connect_keeps_voters_placed(before, after, nickname@, id);
        },
        Command::Disconnect { conn_id } => {
            let (s0, s1) = choose|s0: Seq<(ConnId, Outbound)>, s1: Seq<(ConnId, Outbound)>|
                disconnect_post(before, after, conn_id, s0, s1);
            lemma_disconnect_keeps_voters_placed(before, after, conn_id);
        },
        Command::Vote { conn_id, vote } => {
            let (s0, s1) = choose|s0: Seq<(ConnId, Outbound)>, s1: Seq<(ConnId, Outbound)>|
                vote_post(before, after, conn_id, vote, s0, s1);
            lemma_vote_keeps_voters_placed(before, after, conn_id, vote);
        },
        Command::SetStatus { conn_id, status } => {
            let (s0, s1) = choose|s0: Seq<(ConnId, Outbound)>, s1: Seq<(ConnId, Outbound)>|
                status_post(before, after, conn_id, status, s0, s1);
            lemma_status_keeps_voters_placed(before, after, conn_id, status);
        },
    }
}

/// Whatever commands the room runs from empty, after each of them every
/// user whose vote is valid has a place (`ord > 0`) in the voting order.
pub proof fn lemma_voters_stay_placed(states: Seq<Seq<User>>, cmds: Seq<Command>)
    requires
        states.len() == cmds.len() + 1,
        states[0] == Seq::<User>::empty(),
        forall|k: int| 0 <= k < cmds.len() ==> command_step(states[k], states[k + 1], #[trigger] cmds[k]),
    ensures
        forall|k: int| 0 <= k < states.len() ==> voters_placed(#[trigger] states[k]),
    decreases cmds.len(),
{
    if cmds.len() > 0 {
        let n = cmds.len() as int;
        lemma_voters_stay_placed(states.take(n), cmds.take(n - 1));
        assert(states.take(n)[n - 1] == states[n - 1]);
        lemma_step_keeps_voters_placed(states[n - 1], states[n], cmds[n - 1]);
        assert forall|k: int| 0 <= k < states.len() implies voters_placed(#[trigger] states[k]) by {
            if k < n {
                assert(states.take(n)[k] == states[k]);
            }
        }
    }
}

} // verus!
