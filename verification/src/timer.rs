//! Bookkeeping for host timers that cannot be cancelled: which armed timer is the live
//! one, and which older ones are still outstanding and must be ignored when they fire.
//! Durations are counted in nanoseconds.

use vstd::prelude::*;

verus! {

/// Padding added to every requested refresh so that it fires after the boundary it waits for.
pub const TIMER_BOUNDARY_PADDING: u128 = 10_000_000;

/// The largest duration std's `Duration` holds, in nanoseconds.
pub const MAX_DURATION_NANOS: u128 = 18_446_744_073_709_551_615_999_999_999;

/// The live timer, and the earlier timers it superseded that have not fired yet.
#[derive(Debug)]
pub struct RefreshTimer {
    pub active: Option<u128>,
    pub superseded: Vec<u128>,
}

/// Number of armed timers that have not fired yet.
pub open spec fn outstanding(active: Option<u128>, superseded: Seq<u128>) -> nat {
    superseded.len() + if active is Some { 1nat } else { 0nat }
}

/// How far a timer's delay is from an elapsed time.
pub open spec fn distance(a: u128, b: u128) -> nat {
    if a >= b { (a - b) as nat } else { (b - a) as nat }
}

/// Whether `i` is the first index of `s` whose delay is nearest to `elapsed`.
pub open spec fn is_first_nearest(s: Seq<u128>, elapsed: u128, i: int) -> bool {
    &&& 0 <= i < s.len()
    &&& forall|j: int| 0 <= j < s.len() ==> distance(#[trigger] s[j], elapsed) >= distance(s[i], elapsed)
    &&& forall|j: int| 0 <= j < i ==> distance(#[trigger] s[j], elapsed) > distance(s[i], elapsed)
}

/// `s` without its element at `i`, the last element moved into its place (std `swap_remove`).
pub open spec fn swap_removed(s: Seq<u128>, i: int) -> Seq<u128> {
    s.update(i, s.last()).drop_last()
}

fn abs_diff(a: u128, b: u128) -> (r: u128)
    ensures
        r == distance(a, b),
{
    if a >= b { a - b } else { b - a }
}

fn first_nearest(s: &Vec<u128>, elapsed: u128) -> (r: Option<usize>)
    ensures
        match r {
            Some(i) => is_first_nearest(s@, elapsed, i as int),
            None => s@.len() == 0,
        },
{
    if s.len() == 0 {
        return None;
    }
    let mut best: usize = 0;
    let mut best_d = abs_diff(s[0], elapsed);
    let mut j: usize = 1;
    while j < s.len()
        invariant
            1 <= j <= s@.len(),
            best < j,
            best_d == distance(s@[best as int], elapsed),
            forall|k: int| 0 <= k < j ==> distance(#[trigger] s@[k], elapsed) >= best_d,
            forall|k: int| 0 <= k < best ==> distance(#[trigger] s@[k], elapsed) > best_d,
        decreases s@.len() - j,
    {
        let d = abs_diff(s[j], elapsed);
        if d < best_d {
            best = j;
            best_d = d;
        }
        j += 1;
    }
    Some(best)
}

impl RefreshTimer {
    /// A timer bookkeeper with nothing armed.
    pub fn new() -> (r: RefreshTimer)
        ensures
            r.active is None,
            r.superseded@.len() == 0,
    {
        RefreshTimer { active: None, superseded: Vec::new() }
    }

    /// Whether a requested refresh plus the boundary padding is still a duration.
    pub fn can_schedule(requested: Option<u128>) -> (r: bool)
        ensures
            r == (requested matches Some(d) ==> d + TIMER_BOUNDARY_PADDING <= MAX_DURATION_NANOS),
    {
        match requested {
            Some(d) => d <= MAX_DURATION_NANOS - TIMER_BOUNDARY_PADDING,
            None => true,
        }
    }

    /// Records a requested refresh. Returns the delay to arm a host timer with (the request
    /// plus the boundary padding) when nothing is armed or the request is sooner than the
    /// live timer, which it then supersedes; returns `None` otherwise, changing nothing.
    pub fn schedule(&mut self, requested: Option<u128>) -> (r: Option<u128>)
        requires
            requested matches Some(d) ==> d + TIMER_BOUNDARY_PADDING <= MAX_DURATION_NANOS,
        ensures
            match requested {
                None => r is None && *final(self) == *old(self),
                Some(d) => {
                    let p = (d + TIMER_BOUNDARY_PADDING) as u128;
                    match old(self).active {
                        None => r == Some(p) && final(self).active == Some(p)
                            && final(self).superseded@ == old(self).superseded@,
                        Some(a) => if p < a {
                            r == Some(p) && final(self).active == Some(p)
                                && final(self).superseded@ == old(self).superseded@.push(a)
                        } else {
                            r is None && final(self).active == old(self).active
                                && final(self).superseded@ == old(self).superseded@
                        },
                    }
                },
            },
            outstanding(final(self).active, final(self).superseded@)
                == outstanding(old(self).active, old(self).superseded@) + if r is Some { 1nat } else { 0nat },
            r matches Some(p) ==> final(self).active == Some(p),
    {
        let d = match requested {
            None => return None,
            Some(d) => d,
        };
        let p = d + TIMER_BOUNDARY_PADDING;
        match self.active {
            None => {
                self.active = Some(p);
                Some(p)
            },
            Some(a) => if p < a {
                self.superseded.push(a);
                self.active = Some(p);
                Some(p)
            } else {
                None
            },
        }
    }

    /// Accounts for a host timer that fired after `elapsed` (`None` when the elapsed time is
    /// not a valid duration, which changes nothing). A superseded timer whose delay is
    /// nearer to `elapsed` than the live one's is taken to be the one that fired and is
    /// dropped; otherwise the live timer expires and `true` is returned. With no live timer,
    /// the nearest superseded timer is dropped.
    pub fn expired(&mut self, elapsed: Option<u128>) -> (r: bool)
        ensures
            elapsed is None ==> !r && final(self).active == old(self).active
                && final(self).superseded@ == old(self).superseded@,
            r ==> old(self).active is Some && final(self).active is None
                && final(self).superseded@ == old(self).superseded@,
            elapsed matches Some(e) ==> match old(self).active {
                None => !r && final(self).active is None && (if old(self).superseded@.len() == 0 {
                    final(self).superseded@ == old(self).superseded@
                } else {
                    exists|i: int| is_first_nearest(old(self).superseded@, e, i)
                        && final(self).superseded@ == swap_removed(old(self).superseded@, i)
                }),
                Some(a) => if exists|i: int| #[trigger] is_first_nearest(old(self).superseded@, e, i)
                    && distance(old(self).superseded@[i], e) < distance(a, e) {
                    !r && final(self).active == old(self).active && exists|i: int|
                        is_first_nearest(old(self).superseded@, e, i) && final(self).superseded@
                            == swap_removed(old(self).superseded@, i)
                } else {
                    r
                },
            },
            elapsed is Some && outstanding(old(self).active, old(self).superseded@) > 0
                ==> outstanding(final(self).active, final(self).superseded@) + 1
                    == outstanding(old(self).active, old(self).superseded@),
    {
        let e = match elapsed {
            None => return false,
            Some(e) => e,
        };
        let stale = first_nearest(&self.superseded, e);
        match self.active {
            None => {
                match stale {
                    Some(i) => {
                        proof {
                            assert(is_first_nearest(old(self).superseded@, e, i as int));
                        }
                        self.superseded.swap_remove(i);
                        proof {
                            assert(self.superseded@ == swap_removed(old(self).superseded@, i as int));
                        }
                    },
                    None => {},
                }
                false
            },
            Some(a) => {
                let active_distance = abs_diff(a, e);
                match stale {
                    Some(i) => {
                        let d = abs_diff(self.superseded[i], e);
                        if d < active_distance {
                            proof {
                                assert(is_first_nearest(old(self).superseded@, e, i as int));
                            }
                            self.superseded.swap_remove(i);
                            proof {
                                assert(self.superseded@ == swap_removed(old(self).superseded@, i as int));
                            }
                            return false;
                        }
                        proof {
                            assert forall|k: int| #[trigger] is_first_nearest(old(self).superseded@, e, k)
                                implies !(distance(old(self).superseded@[k], e) < distance(a, e)) by {
                                assert(distance(old(self).superseded@[k], e) == distance(old(self).superseded@[i as int], e));
                            }
                        }
                    },
                    None => {},
                }
                self.active = None;
                true
            },
        }
    }
}

} // verus!
