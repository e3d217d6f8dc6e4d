use vstd::prelude::*;

verus! {

/// The kinds of event whose last occurrence the game loop paces itself by.
#[derive(Clone, Copy, Debug, PartialEq, Eq, Hash, Structural)]
pub enum Event {
    GravityDrop,
    UserMove,
    GameOver,
}

/// When each kind of event last happened, in milliseconds on the caller's clock.
pub struct EventLog {
    gravity_drop: Option<u64>,
    user_move: Option<u64>,
    game_over: Option<u64>,
}

impl EventLog {
    /// When `event` last happened, if it ever did.
    pub closed spec fn last(&self, event: Event) -> Option<u64> {
        match event {
            Event::GravityDrop => self.gravity_drop,
            Event::UserMove => self.user_move,
            Event::GameOver => self.game_over,
        }
    }

    /// A log in which nothing has happened.
    pub fn new() -> (r: Self)
        ensures
            forall|e: Event| #[trigger] r.last(e) is None,
    {
        EventLog { gravity_drop: None, user_move: None, game_over: None }
    }

    /// Whether `event` has ever happened.
    pub fn did_happen(&self, event: Event) -> (r: bool)
        ensures
            r == self.last(event) is Some,
    {
        match event {
            Event::GravityDrop => self.gravity_drop.is_some(),
            Event::UserMove => self.user_move.is_some(),
            Event::GameOver => self.game_over.is_some(),
        }
    }

    /// Records that `event` happened at time `now`.
    pub fn register_event(&mut self, event: Event, now: u64)
        ensures
            final(self).last(event) == Some(now),
            forall|e: Event| e != event ==> #[trigger] final(self).last(e) == old(self).last(e),
    {
        match event {
            Event::GravityDrop => self.gravity_drop = Some(now),
            Event::UserMove => self.user_move = Some(now),
            Event::GameOver => self.game_over = Some(now),
        }
    }

    /// Whether at least `delay` milliseconds separate the last `event` from
    /// `now`; true if it never happened. A clock that went back counts as no
    /// time elapsed.
    pub fn elapsed_since(&self, event: Event, delay: u64, now: u64) -> (r: bool)
        ensures
            r == match self.last(event) {
                None => true,
                Some(t) => if now >= t {
                    now - t >= delay
                } else {
                    delay == 0
                },
            },
    {
        let last = match event {
            Event::GravityDrop => self.gravity_drop,
            Event::UserMove => self.user_move,
            Event::GameOver => self.game_over,
        };
        match last {
            None => true,
            Some(t) => {
                let elapsed = if now >= t {
                    now - t
                } else {
                    0
                };
                elapsed >= delay
            },
        }
    }
}

} // verus!
