//! When the cats take a step and when the relay is told of them.

use vstd::prelude::*;

verus! {

/// The cats take a step once in so many nanoseconds.
pub const FRAME_INTERVAL: u128 = 100_000_000;

/// The relay is told once in so many nanoseconds.
pub const NET_INTERVAL: u128 = 33_000_000;

/// What is due.
#[derive(Clone, Copy, Debug, PartialEq, Eq, Structural)]
pub struct Due {
    /// To tell the relay.
    pub net: bool,
    /// To let the cats take a step.
    pub frame: bool,
}

/// When the cats took a step and when the relay was told last, in nanoseconds of a
/// steady clock. At the start neither has happened.
#[derive(Clone, Copy, Debug, PartialEq, Eq)]
pub struct Pace {
    pub last_frame: u128,
    pub last_net: Option<u128>,
}

/// What is due at `now`: the relay is told at once and then at its interval, the
/// cats wait for theirs from the start.
pub open spec fn due_at(pace: Pace, now: u128) -> Due {
    Due {
        net: match pace.last_net {
            Some(last) => now - last >= NET_INTERVAL,
            None => true,
        },
        frame: now - pace.last_frame >= FRAME_INTERVAL,
    }
}

/// The pace when what was due at `now` is done.
pub open spec fn polled(pace: Pace, now: u128) -> Pace {
    Pace {
        last_frame: if due_at(pace, now).frame {
            now
        } else {
            pace.last_frame
        },
        last_net: if due_at(pace, now).net {
            Some(now)
        } else {
            pace.last_net
        },
    }
}

impl Pace {
    /// The pace of a program that starts at `now`.
    pub fn new(now: u128) -> (r: Pace)
        ensures
            r == (Pace { last_frame: now, last_net: None }),
    {
        Pace { last_frame: now, last_net: None }
    }

    /// Tells what is due at `now`, and notes that it is done.
    pub fn poll(&mut self, now: u128) -> (r: Due)
        ensures
            r == due_at(*old(self), now),
            *final(self) == polled(*old(self), now),
            *final(self) == (Pace {
                last_frame: if r.frame {
                    now
                } else {
                    old(self).last_frame
                },
                last_net: if r.net {
                    Some(now)
                } else {
                    old(self).last_net
                },
            }),
    {
        let net = match self.last_net {
            Some(last) => now >= last && now - last >= NET_INTERVAL,
            None => true,
        };
        let frame = now >= self.last_frame && now - self.last_frame >= FRAME_INTERVAL;
        if net {
            self.last_net = Some(now);
        }
        if frame {
            self.last_frame = now;
        }
        Due { net, frame }
    }
}

/// Steps are at least a tenth of a second apart, and the relay is told at most once in
/// 33 milliseconds; as soon as that much has passed, they are due. What is not due is
/// not put off by asking, and the one does not wait for the other.
pub proof fn law_what_is_due_comes_in_time(pace: Pace, now: u128, later: u128)
    ensures
        ({
            let due = due_at(pace, now);
            let after = polled(pace, now);
            &&& due.frame ==> due_at(after, later).frame == (later - now >= 100_000_000)
            &&& due.net ==> due_at(after, later).net == (later - now >= 33_000_000)
            &&& !due.frame ==> due_at(after, later).frame == due_at(pace, later).frame
            &&& !due.net ==> due_at(after, later).net == due_at(pace, later).net
            &&& due.frame == (now - pace.last_frame >= 100_000_000)
            &&& pace.last_net matches Some(last) ==> due.net == (now - last >= 33_000_000)
            &&& pace.last_net is None ==> due.net
        }),
{
}

} // verus!
