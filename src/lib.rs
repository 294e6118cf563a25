//! A realtime Planning Poker room: vote values, the message codec, the
//! game actor's state machine, the per-connection session coordinator and
//! the admission counter.

pub mod game;
pub mod limit;
pub mod messages;
pub mod session;
pub mod text;
pub mod vote;

pub use game::{Command, ConnId, Delivery, Error, GameServer, Reply, User};
pub use limit::{release_session, try_acquire_session, AdmissionError, Limit};
pub use messages::{InboundMessage, OutboundMessage, UserStatus};
pub use session::{Action, CloseReason, Mode, QueryParams, Session};
pub use vote::{Vote, VoteStatus};
