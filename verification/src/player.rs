//! The player: a square that slides along the floor of the screen.

use vstd::prelude::*;

use crate::scale::{clamped, is_extent, lemma_product_within, PER_SECOND, UNIT};

verus! {

/// Side of the player's square, in distance ticks.
pub const PLAYER_SIZE: i64 = 40 * UNIT;

/// What a held key adds to the speed: screen units per second, each second.
/// Times a duration in milliseconds this is a change in velocity ticks.
pub const PLAYER_ACCEL: i64 = 500;

/// The speed the player never exceeds, in velocity ticks.
pub const PLAYER_MAX_SPEED: i64 = 800 * PER_SECOND;

/// A square standing on the floor line. `x` and `y` are its top left corner.
#[derive(Clone, Copy, Debug, PartialEq, Eq, Structural)]
pub struct Player {
    pub x: i64,
    pub y: i64,
    pub size: i64,
    /// Signed horizontal velocity; positive is to the right.
    pub vel: i64,
    pub accl: i64,
    pub max_speed: i64,
}

/// What one frame brings to the player: its length, the keys that are held,
/// and the size of the screen.
pub struct Steering {
    pub dt: u32,
    pub left: bool,
    pub right: bool,
    pub screen_width: i64,
    pub screen_height: i64,
}

/// Where the left edge of a square of side `size` lies when the square is
/// centred on a screen `width` wide, rounded down to a whole tick.
pub open spec fn centered(width: int, size: int) -> int {
    (width - size) / 2
}

/// The velocity after a key was held for `dt` milliseconds, before the speed
/// limit applies. Left wins over right; a player moving against the held key
/// first stops dead; with no key held the player stands still.
pub open spec fn steered(vel: int, accl: int, dt: int, left: bool, right: bool) -> int {
    if left {
        (if vel > 0 { 0 } else { vel }) - accl * dt
    } else if right {
        (if vel < 0 { 0 } else { vel }) + accl * dt
    } else {
        0
    }
}

impl Player {
    /// The sizes and limits are magnitudes.
    pub open spec fn wf(self) -> bool {
        &&& 0 <= self.size
        &&& 0 <= self.accl
        &&& 0 <= self.max_speed
    }

    /// A player at rest, centred on the floor of a screen of the given size.
    pub open spec fn fresh(screen_width: i64, screen_height: i64) -> Player {
        Player {
            x: centered(screen_width as int, PLAYER_SIZE as int) as i64,
            y: (screen_height - PLAYER_SIZE) as i64,
            size: PLAYER_SIZE,
            vel: 0,
            accl: PLAYER_ACCEL,
            max_speed: PLAYER_MAX_SPEED,
        }
    }

    /// The velocity after one frame.
    pub open spec fn next_vel(self, dt: u32, left: bool, right: bool) -> int {
        clamped(
            steered(self.vel as int, self.accl as int, dt as int, left, right),
            -self.max_speed,
            self.max_speed as int,
        )
    }

    /// The left edge after one frame on a screen `screen_width` wide: the
    /// player travels at the new velocity and stops at the screen's edges.
    pub open spec fn next_x(self, dt: u32, left: bool, right: bool, screen_width: i64) -> int {
        clamped(self.x + self.next_vel(dt, left, right) * dt, 0, screen_width - self.size)
    }

    /// The player after one frame of `dt` milliseconds.
    pub open spec fn moved(
        self,
        dt: u32,
        left: bool,
        right: bool,
        screen_width: i64,
        screen_height: i64,
    ) -> Player {
        Player {
            x: self.next_x(dt, left, right, screen_width) as i64,
            y: (screen_height - self.size) as i64,
            vel: self.next_vel(dt, left, right) as i64,
            ..self
        }
    }

    /// The player after the frames of `frames`, first to last.
    pub open spec fn moved_through(self, frames: Seq<Steering>) -> Player
        decreases frames.len(),
    {
        if frames.len() == 0 {
            self
        } else {
            let f = frames.last();
            self.moved_through(frames.drop_last()).moved(
                f.dt,
                f.left,
                f.right,
                f.screen_width,
                f.screen_height,
            )
        }
    }

    /// Whether the sizes and limits of this player are magnitudes.
    pub fn is_valid(&self) -> (ok: bool)
        ensures
            ok == self.wf(),
    {
        0 <= self.size && 0 <= self.accl && 0 <= self.max_speed
    }

    /// A player at rest, centred on the floor of the screen.
    pub fn new(screen_width: i64, screen_height: i64) -> (player: Player)
        requires
            is_extent(screen_width),
            is_extent(screen_height),
        ensures
            player == Player::fresh(screen_width, screen_height),
            player.wf(),
            player.x == centered(screen_width as int, PLAYER_SIZE as int),
            player.y == screen_height - PLAYER_SIZE,
    {
        Player {
            x: half_floor(screen_width - PLAYER_SIZE),
            y: screen_height - PLAYER_SIZE,
            size: PLAYER_SIZE,
            vel: 0,
            accl: PLAYER_ACCEL,
            max_speed: PLAYER_MAX_SPEED,
        }
    }

    /// Advances the player by one frame of `dt` milliseconds.
    ///
    /// The player is put back on the floor line of the screen as it is now,
    /// steered by the keys, held to the speed limit, moved, and stopped at
    /// the screen's edges.
    pub fn update(
        &mut self,
        dt: u32,
        left: bool,
        right: bool,
        screen_width: i64,
        screen_height: i64,
    )
        requires
            old(self).wf(),
            is_extent(screen_width),
            is_extent(screen_height),
            old(self).size <= screen_width,
        ensures
            *final(self) == old(self).moved(dt, left, right, screen_width, screen_height),
            final(self).wf(),
            final(self).x == old(self).next_x(dt, left, right, screen_width),
            final(self).vel == old(self).next_vel(dt, left, right),
            final(self).y == screen_height - old(self).size,
            0 <= final(self).x <= screen_width - final(self).size,
            -final(self).max_speed <= final(self).vel <= final(self).max_speed,
    {
        self.y = screen_height - self.size;

        proof {
            lemma_product_within(self.accl as int, dt as int, i64::MAX as int, u32::MAX as int);
        }
        let push: i128 = self.accl as i128 * dt as i128;
        let mut vel: i128 = self.vel as i128;
        if left {
            if vel > 0 {
                vel = 0;
            }
            vel = vel - push;
        } else if right {
            if vel < 0 {
                vel = 0;
            }
            vel = vel + push;
        }
        if !left && !right {
            vel = 0;
        }
        let limit: i128 = self.max_speed as i128;
        if vel < -limit {
            vel = -limit;
        } else if vel > limit {
            vel = limit;
        }

        proof {
            lemma_product_within(vel as int, dt as int, i64::MAX as int, u32::MAX as int);
        }
        let mut x: i128 = self.x as i128 + vel * dt as i128;
        let right_edge: i128 = (screen_width - self.size) as i128;
        if x < 0 {
            x = 0;
        } else if x > right_edge {
            x = right_edge;
        }

        self.vel = vel as i64;
        self.x = x as i64;
    }
}

/// Whatever keys are held and however long the frames are, after every frame
/// the player is on the screen of that frame, from its left edge to its
/// right edge, on its floor line, and within its speed limit.
pub proof fn lemma_player_stays_on_screen(player: Player, frames: Seq<Steering>)
    requires
        player.wf(),
        frames.len() > 0,
        forall|i: int|
            0 <= i < frames.len() ==> {
                &&& is_extent((#[trigger] frames[i]).screen_width)
                &&& is_extent(frames[i].screen_height)
                &&& player.size <= frames[i].screen_width
            },
    ensures
        player.moved_through(frames).size == player.size,
        0 <= player.moved_through(frames).x <= frames.last().screen_width - player.size,
        player.moved_through(frames).y == frames.last().screen_height - player.size,
        -player.max_speed <= player.moved_through(frames).vel <= player.max_speed,
{
    lemma_moved_through_keeps_limits(player, frames.drop_last());
    assert(is_extent(frames[frames.len() - 1].screen_width));
}

/// The frames change neither the player's size nor its limits.
pub proof fn lemma_moved_through_keeps_limits(player: Player, frames: Seq<Steering>)
    ensures
        player.moved_through(frames).size == player.size,
        player.moved_through(frames).accl == player.accl,
        player.moved_through(frames).max_speed == player.max_speed,
    decreases frames.len(),
{
    if frames.len() > 0 {
        lemma_moved_through_keeps_limits(player, frames.drop_last());
    }
}

/// Half of `v`, rounded down.
pub fn half_floor(v: i64) -> (half: i64)
    ensures
        half == v as int / 2,
{
    if v >= 0 {
        v / 2
    } else {
        let up: i64 = (-(v + 1)) / 2;
        -up - 1
    }
}

} // verus!
