//! Where trade identifiers and trade times come from.
//!
//! An engine that serves traffic draws a random identifier for each trade
//! and reads the clock. For a run that must be reproducible, the identifiers
//! are counted up from a chosen number and the time is set by the caller.

use vstd::prelude::*;
use crate::types::Trade;

verus! {

/// The identifier that `uuid` writes for the number `number`.
pub uninterp spec fn sequence_id_text(number: int) -> Seq<char>;

/// The number of characters of an identifier as `uuid` writes it: thirty-two
/// hexadecimal digits in five groups, with four hyphens between them.
pub const ID_LENGTH: usize = 36;

/// A fresh trade identifier: `uuid::Uuid::new_v4`, written out by its
/// `to_string`. The identifier is random, so only its length is claimed.
/// (`uuid` gives up where the operating system has no randomness to give.)
#[verifier::external_body]
fn random_trade_id() -> (id: String)
    ensures
        id@.len() == ID_LENGTH,
{
    uuid::Uuid::new_v4().to_string()
}

/// The trade identifier for a number: `uuid::Uuid::from_u128`, written out
/// by its `to_string`, which gives every identifier the same length.
#[verifier::external_body]
fn sequence_trade_id(number: u128) -> (id: String)
    ensures
        id@ == sequence_id_text(number as int),
        id@.len() == ID_LENGTH,
{
    uuid::Uuid::from_u128(number).to_string()
}

/// The current time in milliseconds since the Unix epoch: `chrono::Utc::now`
/// read by `timestamp_millis`. Nothing is claimed of the value. (`chrono`
/// gives up on a machine whose clock is set before 1970.)
#[verifier::external_body]
fn system_time_millis() -> (now: i64) {
    chrono::Utc::now().timestamp_millis()
}

/// Where trade identifiers come from.
#[derive(Clone, Copy, Debug, PartialEq, Eq, Structural)]
pub enum IdSource {
    /// A random identifier for each trade.
    Random,
    /// The identifiers of the numbers from `next` on, one after the other;
    /// after the greatest number comes zero.
    Sequence { next: u128 },
}

/// Where trade times come from.
#[derive(Clone, Copy, Debug, PartialEq, Eq, Structural)]
pub enum Clock {
    /// The clock of the machine.
    System,
    /// The time `now`, in milliseconds since the Unix epoch.
    Fixed { now: i64 },
}

/// What stamps each trade with its identifier and its time.
#[derive(Clone, Copy, Debug, PartialEq, Eq, Structural)]
pub struct Stamper {
    pub ids: IdSource,
    pub clock: Clock,
}

impl Stamper {
    /// The stamper after it has stamped one trade.
    pub open spec fn step(self) -> Stamper {
        match self.ids {
            IdSource::Random => self,
            IdSource::Sequence { next } => Stamper {
                ids: IdSource::Sequence {
                    next: if next == u128::MAX {
                        0
                    } else {
                        (next + 1) as u128
                    },
                },
                clock: self.clock,
            },
        }
    }

    /// The stamper after it has stamped `count` trades.
    pub open spec fn after(self, count: nat) -> Stamper
        decreases count,
    {
        if count == 0 {
            self
        } else {
            self.after((count - 1) as nat).step()
        }
    }

    /// Whether `trade` bears the stamp that this stamper gives next. Of a
    /// random identifier only the length is known, and the time of the
    /// machine's clock can be anything.
    pub open spec fn marks(self, trade: Trade) -> bool {
        &&& trade.id@.len() == ID_LENGTH
        &&& self.ids matches IdSource::Sequence { next } ==> trade.id@ == sequence_id_text(
            next as int,
        )
        &&& self.clock matches Clock::Fixed { now } ==> trade.timestamp == now
    }

    /// Whether the stamps of this stamper are determined by its value.
    pub open spec fn is_reproducible(self) -> bool {
        self.ids is Sequence && self.clock is Fixed
    }

    /// Random identifiers and the clock of the machine.
    pub fn system() -> (stamper: Stamper)
        ensures
            stamper == (Stamper { ids: IdSource::Random, clock: Clock::System }),
    {
        Stamper { ids: IdSource::Random, clock: Clock::System }
    }

    /// Identifiers counted up from `first`, and the time `now`.
    pub fn reproducible(first: u128, now: i64) -> (stamper: Stamper)
        ensures
            stamper == (Stamper {
                ids: IdSource::Sequence { next: first },
                clock: Clock::Fixed { now },
            }),
    {
        Stamper { ids: IdSource::Sequence { next: first }, clock: Clock::Fixed { now } }
    }

    /// The identifier for the next trade.
    fn next_id(&mut self) -> (id: String)
        ensures
            *final(self) == old(self).step(),
            id@.len() == ID_LENGTH,
            old(self).ids matches IdSource::Sequence { next } ==> id@ == sequence_id_text(
                next as int,
            ),
    {
        match self.ids {
            IdSource::Random => random_trade_id(),
            IdSource::Sequence { next } => {
                let id = sequence_trade_id(next);
                self.ids = IdSource::Sequence {
                    next: if next == u128::MAX {
                        0
                    } else {
                        next + 1
                    },
                };
                id
            },
        }
    }

    /// The time for the next trade.
    fn time(&self) -> (time: i64)
        ensures
            self.clock matches Clock::Fixed { now } ==> time == now,
    {
        match self.clock {
            Clock::System => system_time_millis(),
            Clock::Fixed { now } => now,
        }
    }

    /// The identifier and the time for the next trade.
    pub(crate) fn draw(&mut self) -> (stamp: (String, i64))
        ensures
            *final(self) == old(self).step(),
            stamp.0@.len() == ID_LENGTH,
            old(self).ids matches IdSource::Sequence { next } ==> stamp.0@ == sequence_id_text(
                next as int,
            ),
            old(self).clock matches Clock::Fixed { now } ==> stamp.1 == now,
    {
        let time = self.time();
        let id = self.next_id();
        (id, time)
    }
}

/// Stamping `a` trades and then `b` more is stamping `a + b` trades.
pub proof fn lemma_after_after(stamper: Stamper, a: nat, b: nat)
    ensures
        stamper.after(a).after(b) == stamper.after(a + b),
    decreases b,
{
    if b > 0 {
        lemma_after_after(stamper, a, (b - 1) as nat);
    }
}

} // verus!
