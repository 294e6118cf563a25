//! The admission counter: how many sessions are live, and how many may be.

use crate::text::{chars_of, decimal_chars, parse_usize, parse_usize_chars, string_of};
use vstd::prelude::*;

verus! {

/// The number of sessions allowed when nothing else is said.
pub const DEFAULT_MAX_SESSIONS: usize = 15;

/// Live sessions (`count`) and the most that may be live (`max`).
#[derive(Clone, Copy, Debug, PartialEq, Eq, Structural)]
pub struct Limit {
    pub count: usize,
    pub max: usize,
}

/// Why a session was not admitted.
#[derive(Clone, Copy, Debug, PartialEq, Eq, Structural)]
pub enum AdmissionError {
    TooManyRequests,
}

/// The counter after a session asks to start (`acquire`) or ends.
pub open spec fn step(l: Limit, acquire: bool) -> Limit {
    if acquire {
        if l.count < l.max {
            Limit { count: (l.count + 1) as usize, max: l.max }
        } else {
            l
        }
    } else if l.count > 0 {
        Limit { count: (l.count - 1) as usize, max: l.max }
    } else {
        l
    }
}

/// The counter after each of `ops` in turn.
pub open spec fn after_ops(l: Limit, ops: Seq<bool>) -> Limit
    decreases ops.len(),
{
    if ops.len() == 0 {
        l
    } else {
        step(after_ops(l, ops.drop_last()), ops.last())
    }
}

impl Limit {
    /// The count never exceeds the bound.
    pub open spec fn wf(self) -> bool {
        self.count <= self.max
    }

    /// No live session, at most `max`.
    pub fn new(max: usize) -> (r: Limit)
        ensures
            r.count == 0,
            r.max == max,
            r.wf(),
    {
        Limit { count: 0, max }
    }

    /// Whether no further session may start.
    pub fn is_reached(&self) -> (r: bool)
        ensures
            r == (self.count >= self.max),
    {
        self.count >= self.max
    }

    /// One more live session.
    pub fn increment(&mut self)
        requires
            old(self).count < old(self).max,
        ensures
            final(self).count == old(self).count + 1,
            final(self).max == old(self).max,
    {
        self.count += 1;
    }

    /// One live session fewer.
    pub fn decrement(&mut self)
        requires
            old(self).count > 0,
        ensures
            final(self).count == old(self).count - 1,
            final(self).max == old(self).max,
    {
        self.count -= 1;
    }

    /// The bound written in `text` as a decimal `usize`; the default bound
    /// when the text is not one.
    pub fn parse(text: &str) -> (r: Limit)
        ensures
            r.count == 0,
            r.max == match parse_usize(text@) {
                Some(n) => n,
                None => DEFAULT_MAX_SESSIONS,
            },
    {
        let cs = chars_of(text);
        match parse_usize_chars(&cs) {
            Some(max) => Limit::new(max),
            None => Limit::default(),
        }
    }

    /// `count/max`.
    pub fn to_string(&self) -> (r: String)
        ensures
            r@ == crate::text::decimal(self.count as nat) + "/"@ + crate::text::decimal(
                self.max as nat,
            ),
    {
        let mut s = string_of(&decimal_chars(self.count));
        s.append("/");
        let m = string_of(&decimal_chars(self.max));
        s.append(m.as_str());
        s
    }
}

impl Default for Limit {
    fn default() -> (r: Limit)
        ensures
            r.count == 0,
            r.max == DEFAULT_MAX_SESSIONS,
    {
        Limit::new(DEFAULT_MAX_SESSIONS)
    }
}

/// Admits a session if one more may be live.
pub fn try_acquire_session(limit: &mut Limit) -> (r: Result<(), AdmissionError>)
    requires
        old(limit).wf(),
    ensures
        final(limit).wf(),
        *final(limit) == step(*old(limit), true),
        r is Ok <==> old(limit).count < old(limit).max,
{
    if limit.is_reached() {
        return Err(AdmissionError::TooManyRequests);
    }
    limit.increment();
    Ok(())
}

/// Gives back the place of a session that ended.
pub fn release_session(limit: &mut Limit)
    requires
        old(limit).wf(),
    ensures
        final(limit).wf(),
        *final(limit) == step(*old(limit), false),
{
    if limit.count > 0 {
        limit.decrement();
    }
}

/// Whatever sessions start and end, no more than `max` are live at once.
pub proof fn lemma_sessions_bounded(max: usize, ops: Seq<bool>)
    ensures
        forall|k: int|
            0 <= k <= ops.len() ==> (#[trigger] after_ops(Limit { count: 0, max }, ops.take(k))).count
                <= max,
{
    assert forall|k: int| 0 <= k <= ops.len() implies (#[trigger] after_ops(
        Limit { count: 0, max },
        ops.take(k),
    )).count <= max by {
        lemma_ops_keep_bound(Limit { count: 0, max }, ops.take(k));
    }
}

proof fn lemma_ops_keep_bound(l: Limit, ops: Seq<bool>)
    requires
        l.wf(),
    ensures
        after_ops(l, ops).wf(),
        after_ops(l, ops).max == l.max,
    decreases ops.len(),
{
    if ops.len() > 0 {
        lemma_ops_keep_bound(l, ops.drop_last());
    }
}

} // verus!
