//! A chess clock with increment. Elapsed time is always recomputed from the
//! timestamp of the last move, never accumulated.
use vstd::prelude::*;
use crate::types::{TimeControl, Turn};

verus! {

#[derive(Debug, Clone, Copy, PartialEq, Eq, Structural, Default)]
pub struct Clock {
    pub initial_time_ms: u64,
    pub increment_ms: u64,
    pub red_time_ms: u64,
    pub black_time_ms: u64,
    pub last_move_at: u64,
    pub active_player: Option<Turn>,
}

impl Clock {
    /// A clock for `tc` that has not started.
    pub open spec fn fresh(tc: TimeControl) -> Clock {
        Clock {
            initial_time_ms: tc.initial_spec(),
            increment_ms: tc.increment_spec(),
            red_time_ms: tc.initial_spec(),
            black_time_ms: tc.initial_spec(),
            last_move_at: 0,
            active_player: None,
        }
    }

    /// Milliseconds since the last move; zero for a time before it.
    pub open spec fn elapsed(self, now: u64) -> u64 {
        if now >= self.last_move_at {
            (now - self.last_move_at) as u64
        } else {
            0
        }
    }

    pub open spec fn time_of(self, side: Turn) -> u64 {
        match side {
            Turn::Red => self.red_time_ms,
            Turn::Black => self.black_time_ms,
        }
    }

    /// The side whose flag has fallen at `now`, if any.
    pub open spec fn flag_fallen(self, now: u64) -> Option<Turn> {
        match self.active_player {
            Some(side) => if self.elapsed(now) >= self.time_of(side) {
                Some(side)
            } else {
                None
            },
            None => None,
        }
    }

    /// The clock after the active side completes a move at `now`, without flag fall.
    pub open spec fn after_move(self, side: Turn, now: u64) -> Clock {
        let left = (self.time_of(side) - self.elapsed(now) + self.increment_ms) as u64;
        match side {
            Turn::Red => Clock {
                red_time_ms: left,
                active_player: Some(Turn::Black),
                last_move_at: now,
                ..self
            },
            Turn::Black => Clock {
                black_time_ms: left,
                active_player: Some(Turn::Red),
                last_move_at: now,
                ..self
            },
        }
    }

    pub fn new(time_control: TimeControl) -> (c: Clock)
        ensures
            c.initial_time_ms == time_control.initial_spec(),
            c.increment_ms == time_control.increment_spec(),
            c.red_time_ms == time_control.initial_spec(),
            c.black_time_ms == time_control.initial_spec(),
            c.last_move_at == 0,
            c.active_player.is_none(),
    {
        let initial = time_control.initial_time_ms();
        let increment = time_control.increment_ms();
        Clock {
            initial_time_ms: initial,
            increment_ms: increment,
            red_time_ms: initial,
            black_time_ms: initial,
            last_move_at: 0,
            active_player: None,
        }
    }

    /// Starts Red's clock at `current_time_ms`.
    pub fn start(&mut self, current_time_ms: u64)
        ensures
            *final(self) == (Clock {
                last_move_at: current_time_ms,
                active_player: Some(Turn::Red),
                ..*old(self)
            }),
    {
        self.last_move_at = current_time_ms;
        self.active_player = Some(Turn::Red);
    }

    /// The side whose time has run out at `current_time_ms`; reads only.
    pub fn timed_out(&self, current_time_ms: u64) -> (r: Option<Turn>)
        ensures
            r == self.flag_fallen(current_time_ms),
    {
        match self.active_player {
            Some(Turn::Red) => {
                let elapsed = current_time_ms.saturating_sub(self.last_move_at);
                if elapsed >= self.red_time_ms {
                    Some(Turn::Red)
                } else {
                    None
                }
            },
            Some(Turn::Black) => {
                let elapsed = current_time_ms.saturating_sub(self.last_move_at);
                if elapsed >= self.black_time_ms {
                    Some(Turn::Black)
                } else {
                    None
                }
            },
            None => None,
        }
    }

    /// Records a move completed at `current_time_ms` by the active side.
    /// Returns false, with that side's time set to zero, when its time had run
    /// out; false with nothing changed when no clock runs.
    pub fn make_move(&mut self, current_time_ms: u64) -> (ok: bool)
        requires
            match old(self).active_player {
                Some(side) => old(self).elapsed(current_time_ms) >= old(self).time_of(side)
                    || old(self).time_of(side) - old(self).elapsed(current_time_ms)
                    + old(self).increment_ms <= u64::MAX,
                None => true,
            },
        ensures
            match old(self).active_player {
                None => !ok && *final(self) == *old(self),
                Some(side) => if old(self).elapsed(current_time_ms) >= old(self).time_of(side) {
                    !ok && *final(self) == match side {
                        Turn::Red => Clock { red_time_ms: 0, ..*old(self) },
                        Turn::Black => Clock { black_time_ms: 0, ..*old(self) },
                    }
                } else {
                    ok && *final(self) == old(self).after_move(side, current_time_ms)
                },
            },
    {
        let active = match self.active_player {
            Some(a) => a,
            None => {
                return false;
            },
        };
        let elapsed = current_time_ms.saturating_sub(self.last_move_at);
        match active {
            Turn::Red => {
                if elapsed >= self.red_time_ms {
                    self.red_time_ms = 0;
                    return false;
                }
                self.red_time_ms = self.red_time_ms.saturating_sub(elapsed) + self.increment_ms;
                self.active_player = Some(Turn::Black);
            },
            Turn::Black => {
                if elapsed >= self.black_time_ms {
                    self.black_time_ms = 0;
                    return false;
                }
                self.black_time_ms = self.black_time_ms.saturating_sub(elapsed) + self.increment_ms;
                self.active_player = Some(Turn::Red);
            },
        }
        self.last_move_at = current_time_ms;
        true
    }

    /// Time left to `player` at `current_time_ms`; the stored time unless that
    /// side's clock is running.
    pub fn get_remaining(&self, player: Turn, current_time_ms: u64) -> (r: u64)
        ensures
            r == if self.active_player == Some(player) {
                if self.elapsed(current_time_ms) >= self.time_of(player) {
                    0
                } else {
                    (self.time_of(player) - self.elapsed(current_time_ms)) as u64
                }
            } else {
                self.time_of(player)
            },
    {
        let base_time = match player {
            Turn::Red => self.red_time_ms,
            Turn::Black => self.black_time_ms,
        };
        let running = match self.active_player {
            Some(side) => side == player,
            None => false,
        };
        if running {
            let elapsed = current_time_ms.saturating_sub(self.last_move_at);
            base_time.saturating_sub(elapsed)
        } else {
            base_time
        }
    }
}

} // verus!
