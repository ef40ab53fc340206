//! When the bot may be started again after it has stopped, and whom it
//! listens to.

use vstd::prelude::*;
use crate::accounting::moment::Moment;
use crate::config::Config;
use crate::error::AppError;

verus! {

/// The nanoseconds from `from` to `to`.
pub open spec fn nanoseconds_between(from: Moment, to: Moment) -> int {
    (to.seconds - from.seconds) * 1_000_000_000 + (to.nanoseconds - from.nanoseconds)
}

/// Whether more than ten whole seconds lie between `from` and `to`.
pub open spec fn rested(from: Moment, to: Moment) -> bool {
    nanoseconds_between(from, to) >= 11_000_000_000
}

/// The count of the bot's launches: a run of launches that follow each other
/// within ten seconds may not reach the allowed number.
#[derive(Debug, Clone, Copy, PartialEq, Eq, Structural)]
pub struct Launches {
    pub latest_start: Moment,
    pub number_of_tries: i32,
    pub max_number_of_tries: i32,
}

impl Launches {
    /// No launch yet, counted from `now`, with the allowed number of
    /// `config`.
    pub fn new(config: &Config, now: Moment) -> (launches: Launches)
        ensures
            launches.latest_start == now,
            launches.number_of_tries == 0,
            launches.max_number_of_tries == config.max_number_of_tries,
    {
        Launches {
            latest_start: now,
            number_of_tries: 0,
            max_number_of_tries: config.max_number_of_tries,
        }
    }

    /// Counts a launch at `now`. After more than ten seconds without a
    /// launch the count starts again, from `now`. The launch is refused when
    /// the count reaches the allowed number.
    pub fn start(&mut self, now: Moment) -> (result: Result<(), AppError>)
        requires
            !rested(old(self).latest_start, now) ==> old(self).number_of_tries < i32::MAX,
        ensures
            final(self).max_number_of_tries == old(self).max_number_of_tries,
            final(self).latest_start == if rested(old(self).latest_start, now) {
                now
            } else {
                old(self).latest_start
            },
            final(self).number_of_tries == if rested(old(self).latest_start, now) {
                1
            } else {
                old(self).number_of_tries + 1
            },
            result is Err <==> final(self).number_of_tries == final(self).max_number_of_tries,
            result matches Err(error) ==> error matches AppError::NumberOfLauchesExeeded,
    {
        let seconds: i128 = now.seconds as i128 - self.latest_start.seconds as i128;
        let nanoseconds: i128 = now.nanoseconds as i128 - self.latest_start.nanoseconds as i128;
        assert(-0x1_0000_0000_0000_0000 <= seconds <= 0x1_0000_0000_0000_0000);
        assert(seconds * 1_000_000_000 <= 0x1_0000_0000_0000_0000 * 1_000_000_000
            && seconds * 1_000_000_000 >= -0x1_0000_0000_0000_0000 * 1_000_000_000)
            by (nonlinear_arith)
            requires
                -0x1_0000_0000_0000_0000 <= seconds <= 0x1_0000_0000_0000_0000,
        ;
        if seconds * 1_000_000_000 + nanoseconds >= 11_000_000_000 {
            self.latest_start = now;
            self.number_of_tries = 0;
        }
        self.number_of_tries = self.number_of_tries + 1;
        if self.number_of_tries == self.max_number_of_tries {
            return Err(AppError::NumberOfLauchesExeeded);
        }
        Ok(())
    }
}

/// Whether the bot listens to the Telegram user `author`: whether `author`
/// is among `allowed`.
pub fn is_allowed(allowed: &Vec<i64>, author: i64) -> (result: bool)
    ensures
        result == allowed@.contains(author),
{
    let mut index: usize = 0;
    while index < allowed.len()
        invariant
            index <= allowed.len(),
            forall|i: int| 0 <= i < index ==> allowed@[i] != author,
        decreases allowed.len() - index,
    {
        if allowed[index] == author {
            return true;
        }
        index = index + 1;
    }
    false
}

} // verus!
