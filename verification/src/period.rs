//! The period of a distribution: the rule that a helper processes each
//! period at most once and in rising order, and the stages that a period
//! runs through.

use crate::error::Error;
use vstd::prelude::*;

verus! {

/// Whether a period identifier is stale: not later than the last processed
/// period.
pub open spec fn stale(id: u16, last_period: u16) -> bool {
    id <= last_period
}

/// Refuses a period that is not later than the last processed one.
pub fn check_period(id: u16, last_period: u16) -> (r: Result<(), Error>)
    ensures
        r == (if stale(id, last_period) {
            Err::<(), Error>(Error::StalePeriod)
        } else {
            Ok::<(), Error>(())
        }),
{
    if id <= last_period {
        Err(Error::StalePeriod)
    } else {
        Ok(())
    }
}

/// The helper's memory of the last period that it processed.
#[derive(Clone, Copy, Debug, PartialEq, Eq)]
pub struct PeriodClock {
    last_period: u16,
}

impl View for PeriodClock {
    type V = u16;

    closed spec fn view(&self) -> u16 {
        self.last_period
    }
}

impl PeriodClock {
    /// A clock whose last processed period is `last_period`.
    pub fn new(last_period: u16) -> (r: PeriodClock)
        ensures
            r@ == last_period,
    {
        PeriodClock { last_period }
    }

    /// The last period that was processed.
    pub fn last_period(&self) -> (r: u16)
        ensures
            r == self@,
    {
        self.last_period
    }

    /// Refuses a period that is not later than the last processed one.
    pub fn check(&self, id: u16) -> (r: Result<(), Error>)
        ensures
            r == (if stale(id, self@) {
                Err::<(), Error>(Error::StalePeriod)
            } else {
                Ok::<(), Error>(())
            }),
    {
        check_period(id, self.last_period)
    }

    /// Records that the period `id` was processed. A stale period is refused
    /// and leaves the clock as it was.
    pub fn advance(&mut self, id: u16) -> (r: Result<(), Error>)
        ensures
            r == (if stale(id, old(self)@) {
                Err::<(), Error>(Error::StalePeriod)
            } else {
                Ok::<(), Error>(())
            }),
            final(self)@ == (if stale(id, old(self)@) {
                old(self)@
            } else {
                id
            }),
    {
        if id <= self.last_period {
            Err(Error::StalePeriod)
        } else {
            self.last_period = id;
            Ok(())
        }
    }
}

/// A period that was recorded is stale from then on, and so is every
/// period before it: no period is processed twice.
pub proof fn lemma_recorded_period_is_stale(id: u16, earlier: u16)
    requires
        earlier <= id,
    ensures
        stale(id, id),
        stale(earlier, id),
{
}

/// The stages of a period.
#[derive(Clone, Copy, Debug, PartialEq, Eq, Structural)]
pub enum Stage {
    /// No period is running.
    Idle,
    /// Recipients submit their envelopes.
    Collecting,
    /// The auditor has admitted the tags and signed what it forwards.
    AuditorReady,
    /// The helper evaluates and signs.
    HelperProcessing,
    /// Committee members compute first-round partial decryptions.
    Committee1,
    /// The distribution station recombines the first round.
    Distribution1,
    /// Committee members compute second-round partial decryptions.
    Committee2,
    /// The distribution station recombines and recovers the plaintexts.
    Distribution2,
    /// The result is published.
    Published,
}

/// The stage that follows `stage`, if any. The auditor's stage is passed
/// over where the adversary is honest but curious; the first distribution
/// round and the second committee round are passed over where the scheme
/// has a single level.
pub open spec fn stage_after(stage: Stage, malicious: bool, two_level: bool) -> Option<Stage> {
    match stage {
        Stage::Idle => Some(Stage::Collecting),
        Stage::Collecting => if malicious {
            Some(Stage::AuditorReady)
        } else {
            Some(Stage::HelperProcessing)
        },
        Stage::AuditorReady => Some(Stage::HelperProcessing),
        Stage::HelperProcessing => Some(Stage::Committee1),
        Stage::Committee1 => if two_level {
            Some(Stage::Distribution1)
        } else {
            Some(Stage::Distribution2)
        },
        Stage::Distribution1 => Some(Stage::Committee2),
        Stage::Committee2 => Some(Stage::Distribution2),
        Stage::Distribution2 => Some(Stage::Published),
        Stage::Published => None,
    }
}

/// The stage that follows `stage`, if any.
pub fn next_stage(stage: Stage, malicious: bool, two_level: bool) -> (r: Option<Stage>)
    ensures
        r == stage_after(stage, malicious, two_level),
{
    match stage {
        Stage::Idle => Some(Stage::Collecting),
        Stage::Collecting => if malicious {
            Some(Stage::AuditorReady)
        } else {
            Some(Stage::HelperProcessing)
        },
        Stage::AuditorReady => Some(Stage::HelperProcessing),
        Stage::HelperProcessing => Some(Stage::Committee1),
        Stage::Committee1 => if two_level {
            Some(Stage::Distribution1)
        } else {
            Some(Stage::Distribution2)
        },
        Stage::Distribution1 => Some(Stage::Committee2),
        Stage::Committee2 => Some(Stage::Distribution2),
        Stage::Distribution2 => Some(Stage::Published),
        Stage::Published => None,
    }
}

/// The stage after a period is abandoned. A period can be abandoned at any
/// stage before it is published; a published period stays published.
pub fn abandon(stage: Stage) -> (r: Stage)
    ensures
        r == (if stage == Stage::Published {
            Stage::Published
        } else {
            Stage::Idle
        }),
{
    match stage {
        Stage::Published => Stage::Published,
        _ => Stage::Idle,
    }
}

} // verus!
