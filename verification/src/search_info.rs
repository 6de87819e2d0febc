//! Limits of a search: its depth and the clock.
use vstd::prelude::*;
use std::time::{Duration, Instant};
use crate::defs::Player;

verus! {

/// Maximum depth of a search, in plies from the root.
pub const MAX_SEARCH_DEPTH: usize = 100;

#[verifier::external_type_specification]
#[verifier::external_body]
pub struct ExInstant(Instant);

/// `Instant::now`: the current time of the monotonic clock. Nothing is claimed of it.
#[verifier::external_body]
fn instant_now() -> (r: Instant) {
    Instant::now()
}

/// `Instant` comparison with `<`: is `a` earlier than `b`? The result depends on the
/// two clock readings, which are opaque here, so nothing is claimed of it.
#[verifier::external_body]
fn instant_before(a: &Instant, b: &Instant) -> (r: bool) {
    *a < *b
}

/// `Duration::from_millis`: a span of `ms` milliseconds. The value is opaque here, so
/// nothing is claimed of it.
#[verifier::external_body]
fn duration_from_millis(ms: u64) -> (r: Duration) {
    Duration::from_millis(ms)
}

/// `Instant::checked_add`: the instant `d` after `start`, `None` where the platform
/// cannot represent it. The reading is opaque here, so nothing is claimed of it.
#[verifier::external_body]
fn instant_checked_add(start: &Instant, d: Duration) -> (r: Option<Instant>) {
    start.checked_add(d)
}

/// The depth and time limits of a search, with when it started and when it must stop.
#[derive(Clone, Copy, Debug)]
pub struct SearchInfo {
    pub depth: usize,
    pub w_time: Option<usize>,
    pub b_time: Option<usize>,
    pub w_inc: Option<usize>,
    pub b_inc: Option<usize>,
    pub move_time: Option<usize>,
    pub time_set: bool,
    pub started: Instant,
    pub stop_time: Instant,
}

impl SearchInfo {
    /// No time limit and the maximum depth.
    pub fn new() -> (r: Self)
        ensures
            r.depth == MAX_SEARCH_DEPTH,
            r.w_time.is_none() && r.b_time.is_none() && r.w_inc.is_none() && r.b_inc.is_none(),
            r.move_time.is_none(),
            !r.time_set,
    {
        SearchInfo {
            depth: MAX_SEARCH_DEPTH,
            w_time: None,
            b_time: None,
            w_inc: None,
            b_inc: None,
            move_time: None,
            time_set: false,
            started: instant_now(),
            stop_time: instant_now(),
        }
    }

    /// No time limit, searching `depth` plies.
    pub fn with_depth(depth: usize) -> (r: Self)
        ensures
            r.depth == depth,
            r.w_time.is_none() && r.b_time.is_none() && r.w_inc.is_none() && r.b_inc.is_none(),
            r.move_time.is_none(),
            !r.time_set,
    {
        let mut info = SearchInfo::new();
        info.depth = depth;
        info
    }

    /// The clock time left to `side`.
    pub fn my_time(&self, side: Player) -> (r: Option<usize>)
        ensures
            r == (if side == Player::White { self.w_time } else { self.b_time }),
    {
        match side {
            Player::White => self.w_time,
            Player::Black => self.b_time,
        }
    }

    /// May the search go on? Always without a time limit; otherwise until the stop time.
    pub fn has_time(&self) -> (r: bool)
        ensures
            !self.time_set ==> r,
    {
        if !self.time_set {
            true
        } else {
            instant_before(&instant_now(), &self.stop_time)
        }
    }

    /// Starts the clock for a search by `side`: with a time limit, it stops after the
    /// move time, or else after a thirtieth of the time left.
    pub fn start(&mut self, side: Player)
        requires
            old(self).time_set ==> old(self).move_time.is_some() || (if side == Player::White {
                old(self).w_time } else { old(self).b_time }).is_some(),
        ensures
            final(self).depth == old(self).depth,
            final(self).w_time == old(self).w_time,
            final(self).b_time == old(self).b_time,
            final(self).w_inc == old(self).w_inc,
            final(self).b_inc == old(self).b_inc,
            final(self).move_time == old(self).move_time,
            final(self).time_set ==> old(self).time_set,
            !old(self).time_set ==> !final(self).time_set,
    {
        self.started = instant_now();
        if self.time_set {
            let search_time: u64 = match self.move_time {
                Some(move_time) => move_time as u64,
                None => {
                    let my_time = self.my_time(side).unwrap();
                    (my_time / 30) as u64
                },
            };
            match instant_checked_add(&instant_now(), duration_from_millis(search_time)) {
                Some(stop) => {
                    self.stop_time = stop;
                },
                // A deadline beyond what the clock can represent is no deadline.
                None => {
                    self.time_set = false;
                },
            }
        }
    }
}

} // verus!
