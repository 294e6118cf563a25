//! A single user's ballot: parsed from text, classified and rendered.

use crate::text::{
    chars_eq, chars_of, decimal, decimal_chars, is_digit, is_space,
    lemma_decimal_parses, parse_usize, parse_usize_chars, string_of, trim, trim_chars, trim_end,
    trim_start, unsigned_digits,
};
use vstd::prelude::*;

verus! {

/// A ballot: none, the "?" card, or one of the Fibonacci cards.
#[derive(Clone, Copy, Debug, PartialEq, Eq, Structural)]
pub enum Vote {
    Null,
    Unknown,
    Option(usize),
}

/// Whether a user holds a valid ballot.
#[derive(Clone, Copy, Debug, PartialEq, Eq, Structural)]
pub enum VoteStatus {
    NotVoted,
    Voted,
}

/// The values of the cards in the deck.
pub open spec fn is_card(n: nat) -> bool {
    n == 1 || n == 2 || n == 3 || n == 5 || n == 8 || n == 13
}

impl Vote {
    /// A vote built by this library: an `Option` holds a card's value.
    pub open spec fn wf(self) -> bool {
        self matches Vote::Option(n) ==> is_card(n as nat)
    }

    /// A valid vote is any vote but `Null`.
    pub open spec fn valid(self) -> bool {
        !(self is Null)
    }

    pub open spec fn status_of(self) -> VoteStatus {
        if self.valid() {
            VoteStatus::Voted
        } else {
            VoteStatus::NotVoted
        }
    }

    pub open spec fn of_number(n: usize) -> Vote {
        if is_card(n as nat) {
            Vote::Option(n)
        } else {
            Vote::Null
        }
    }

    /// The text is trimmed; then `"?"` is the unknown card, and anything
    /// else is read as a `usize`, where what is not a card's value is no vote.
    pub open spec fn of_text(s: Seq<char>) -> Vote {
        if trim(s) == "?"@ {
            Vote::Unknown
        } else {
            match parse_usize(trim(s)) {
                Some(n) => Vote::of_number(n),
                None => Vote::Null,
            }
        }
    }

    /// `"not voted"`, `"?"` or the card's number.
    pub open spec fn text(self) -> Seq<char> {
        match self {
            Vote::Null => "not voted"@,
            Vote::Unknown => "?"@,
            Vote::Option(n) => decimal(n as nat),
        }
    }

    /// The card with this value, or no vote.
    pub fn new(value: usize) -> (r: Vote)
        ensures
            r == Vote::of_number(value),
            r.wf(),
    {
        match value {
            1 | 2 | 3 | 5 | 8 | 13 => Vote::Option(value),
            _ => Vote::Null,
        }
    }

    /// Reads a vote from text.
    pub fn parse(text: &str) -> (r: Vote)
        ensures
            r == Vote::of_text(text@),
            r.wf(),
    {
        let cs = chars_of(text);
        Vote::from_chars(&cs)
    }

    /// `parse`, on the characters of the text.
    pub fn from_chars(cs: &Vec<char>) -> (r: Vote)
        ensures
            r == Vote::of_text(cs@),
            r.wf(),
    {
        let t = trim_chars(cs);
        if chars_eq(&t, "?") {
            return Vote::Unknown;
        }
        match parse_usize_chars(&t) {
            Some(n) => Vote::new(n),
            None => Vote::Null,
        }
    }

    /// `Voted` for a valid vote, `NotVoted` otherwise.
    pub fn status(&self) -> (r: VoteStatus)
        ensures
            r == self.status_of(),
    {
        match self {
            Vote::Null => VoteStatus::NotVoted,
            _ => VoteStatus::Voted,
        }
    }

    /// Whether this is a valid vote.
    pub fn is_valid_vote(&self) -> (r: bool)
        ensures
            r == self.valid(),
    {
        !matches!(self, Vote::Null)
    }

    /// The vote as it is shown and sent.
    pub fn to_string(&self) -> (r: String)
        ensures
            r@ == self.text(),
    {
        match self {
            Vote::Null => String::from_str("not voted"),
            Vote::Unknown => String::from_str("?"),
            Vote::Option(n) => {
                let d = decimal_chars(*n);
                string_of(&d)
            },
        }
    }
}

impl VoteStatus {
    pub open spec fn text(self) -> Seq<char> {
        match self {
            VoteStatus::NotVoted => "not voted"@,
            VoteStatus::Voted => "voted"@,
        }
    }

    /// `"not voted"` reads as `NotVoted`, any other text as `Voted`.
    pub open spec fn of_text(s: Seq<char>) -> VoteStatus {
        if s == "not voted"@ {
            VoteStatus::NotVoted
        } else {
            VoteStatus::Voted
        }
    }

    /// Reads a status from text.
    pub fn parse(text: &str) -> (r: VoteStatus)
        ensures
            r == VoteStatus::of_text(text@),
    {
        let cs = chars_of(text);
        if chars_eq(&cs, "not voted") {
            VoteStatus::NotVoted
        } else {
            VoteStatus::Voted
        }
    }

    /// The status as it is shown and sent.
    pub fn to_string(&self) -> (r: String)
        ensures
            r@ == self.text(),
    {
        match self {
            VoteStatus::NotVoted => String::from_str("not voted"),
            VoteStatus::Voted => String::from_str("voted"),
        }
    }
}

impl<'a> From<&'a str> for Vote {
    fn from(value: &'a str) -> (r: Vote) {
        Vote::parse(value)
    }
}

impl<'a> vstd::std_specs::convert::FromSpecImpl<&'a str> for Vote {
    open spec fn obeys_from_spec() -> bool {
        true
    }

    open spec fn from_spec(v: &'a str) -> Vote {
        Vote::of_text(v@)
    }
}

impl From<String> for Vote {
    fn from(value: String) -> (r: Vote) {
        Vote::parse(value.as_str())
    }
}

impl vstd::std_specs::convert::FromSpecImpl<String> for Vote {
    open spec fn obeys_from_spec() -> bool {
        true
    }

    open spec fn from_spec(v: String) -> Vote {
        Vote::of_text(v@)
    }
}

impl From<usize> for Vote {
    fn from(value: usize) -> (r: Vote) {
        Vote::new(value)
    }
}

impl vstd::std_specs::convert::FromSpecImpl<usize> for Vote {
    open spec fn obeys_from_spec() -> bool {
        true
    }

    open spec fn from_spec(v: usize) -> Vote {
        Vote::of_number(v)
    }
}

impl<'a> From<&'a str> for VoteStatus {
    fn from(value: &'a str) -> (r: VoteStatus) {
        VoteStatus::parse(value)
    }
}

impl<'a> vstd::std_specs::convert::FromSpecImpl<&'a str> for VoteStatus {
    open spec fn obeys_from_spec() -> bool {
        true
    }

    open spec fn from_spec(v: &'a str) -> VoteStatus {
        VoteStatus::of_text(v@)
    }
}

/// A valid vote survives rendering and parsing: `parse(render(v)) == v`.
pub proof fn lemma_parse_render(v: Vote)
    requires
        v.wf(),
        v.valid(),
    ensures
        Vote::of_text(v.text()) == v,
{
    reveal_strlit("?");
    if let Vote::Option(n) = v {
        let s = decimal(n as nat);
        lemma_decimal_parses(n as nat);
        assert(is_digit(s[0]));
        assert(s != "?"@);
        assert(!is_space(s[0]));
        assert(!is_space(s.last()));
        assert(trim_start(s) == s);
        assert(trim_end(s) == s);
        assert(trim(s) == s);
        assert(unsigned_digits(s) == s);
        assert(parse_usize(s) == Some(n));
    } else {
        let q = "?"@;
        assert(!is_space(q[0]));
        assert(trim_start(q) == q);
        assert(trim_end(q) == q);
    }
}

} // verus!
