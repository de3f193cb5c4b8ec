//! The obstacles: circles that fall straight down.

use vstd::prelude::*;

use crate::chance::draw_between;
use crate::player::Player;
use crate::scale::{
    clamped, is_extent, lemma_product_within, PER_SECOND, SCREEN_LIMIT, UNIT,
};

verus! {

/// Radius of a circle spawned at score zero, in distance ticks.
pub const BASE_RADIUS: i64 = 40 * UNIT;

/// Fall speed of a circle spawned at score zero, in velocity ticks.
pub const BASE_SPEED: i64 = 200 * PER_SECOND;

/// Height at which a circle enters, above the top edge of the screen.
pub const START_Y: i64 = -50 * UNIT;

/// What each point of score adds to the radius of a new circle.
pub const RADIUS_STEP: i64 = 2 * UNIT;

/// What each point of score adds to the fall speed of a new circle.
pub const SPEED_STEP: i64 = 10 * PER_SECOND;

/// The largest radius a spawned circle can have: that at the highest score.
pub const RADIUS_LIMIT: i64 = BASE_RADIUS + 0xffff_ffff * RADIUS_STEP;

/// The largest fall speed a spawned circle can have.
pub const SPEED_LIMIT: i64 = BASE_SPEED + 0xffff_ffff * SPEED_STEP;

/// A falling circle. `x` and `y` are its centre.
#[derive(Clone, Copy, Debug, PartialEq, Eq, Structural)]
pub struct FallingCircle {
    pub x: i64,
    pub y: i64,
    pub radius: i64,
    pub speed: i64,
}

/// Radius of a circle spawned at `score`.
pub open spec fn spawn_radius(score: nat) -> int {
    BASE_RADIUS + score * RADIUS_STEP
}

/// Fall speed of a circle spawned at `score`.
pub open spec fn spawn_speed(score: nat) -> int {
    BASE_SPEED + score * SPEED_STEP
}

/// Whether a new circle can enter at `x` on a screen `width` wide: a base
/// radius away from both side edges. On a screen too narrow for that, the
/// two bounds swap roles.
pub open spec fn in_spawn_band(x: int, width: int) -> bool {
    let near: int = BASE_RADIUS as int;
    let far: int = width - BASE_RADIUS;
    near <= x <= far || far <= x <= near
}

/// The horizontal position given to a new circle on a screen `width` wide
/// when the generator came up with `drawn`: `drawn` itself where a circle
/// can enter, else the nearest such position.
pub open spec fn spawn_x(drawn: int, width: int) -> int {
    let near: int = BASE_RADIUS as int;
    let far: int = width - BASE_RADIUS;
    if near <= far {
        clamped(drawn, near, far)
    } else {
        clamped(drawn, far, near)
    }
}

impl FallingCircle {
    /// A circle the game can carry: its radius and speed are magnitudes no
    /// larger than a spawn can give, and it has not sunk below the largest
    /// screen.
    pub open spec fn wf(self) -> bool {
        &&& 0 <= self.radius <= RADIUS_LIMIT
        &&& 0 <= self.speed <= SPEED_LIMIT
        &&& self.y - self.radius <= SCREEN_LIMIT
    }

    /// The circle as it enters play at score zero.
    pub open spec fn base(x: i64) -> FallingCircle {
        FallingCircle { x, y: START_Y, radius: BASE_RADIUS, speed: BASE_SPEED }
    }

    /// The circle made as hard as `score` asks for.
    pub open spec fn toughened(self, score: nat) -> FallingCircle {
        FallingCircle {
            radius: (self.radius + score * RADIUS_STEP) as i64,
            speed: (self.speed + score * SPEED_STEP) as i64,
            ..self
        }
    }

    /// The circle after falling for `dt` milliseconds.
    pub open spec fn fallen(self, dt: u32) -> FallingCircle {
        FallingCircle { y: (self.y + self.speed * dt) as i64, ..self }
    }

    /// Whether the whole circle is below a screen `screen_height` tall.
    pub open spec fn off_screen(self, screen_height: i64) -> bool {
        self.y - self.radius > screen_height
    }

    /// Squared distance from the circle's centre to the point of the
    /// player's square that is nearest to it.
    pub open spec fn gap_squared(self, player: Player) -> int {
        let dx: int = self.x - clamped(self.x as int, player.x as int, player.x + player.size);
        let dy: int = self.y - clamped(self.y as int, player.y as int, player.y + player.size);
        dx * dx + dy * dy
    }

    /// Whether the circle overlaps the player's square. A circle that only
    /// touches the square does not.
    pub open spec fn hits(self, player: Player) -> bool {
        self.gap_squared(player) < self.radius * self.radius
    }

    /// Whether a game can carry this circle.
    pub fn is_valid(&self) -> (ok: bool)
        ensures
            ok == self.wf(),
    {
        0 <= self.radius && self.radius <= RADIUS_LIMIT && 0 <= self.speed && self.speed
            <= SPEED_LIMIT && self.y as i128 - self.radius as i128 <= SCREEN_LIMIT as i128
    }

    /// The base circle for a screen `screen_width` wide, where the
    /// generator came up with `drawn` for its horizontal position.
    pub fn placed(drawn: i64, screen_width: i64) -> (circle: FallingCircle)
        requires
            is_extent(screen_width),
        ensures
            circle == FallingCircle::base(circle.x),
            circle.x == spawn_x(drawn as int, screen_width as int),
            in_spawn_band(circle.x as int, screen_width as int),
            circle.wf(),
    {
        let near: i64 = BASE_RADIUS;
        let far: i64 = screen_width - BASE_RADIUS;
        let x: i64 = if near <= far {
            within(drawn, near, far)
        } else {
            within(drawn, far, near)
        };
        FallingCircle { x, y: START_Y, radius: BASE_RADIUS, speed: BASE_SPEED }
    }

    /// A new base circle above the screen, at a horizontal position drawn by
    /// chance.
    pub fn new(screen_width: i64) -> (circle: FallingCircle)
        requires
            is_extent(screen_width),
        ensures
            circle == FallingCircle::base(circle.x),
            in_spawn_band(circle.x as int, screen_width as int),
            circle.wf(),
    {
        let drawn: i64 = draw_between(BASE_RADIUS, screen_width - BASE_RADIUS);
        FallingCircle::placed(drawn, screen_width)
    }

    /// Makes the circle larger and faster by what `score` asks for.
    pub fn toughen(&mut self, score: u32)
        requires
            old(self).radius + score * RADIUS_STEP <= i64::MAX,
            old(self).speed + score * SPEED_STEP <= i64::MAX,
        ensures
            *final(self) == old(self).toughened(score as nat),
            final(self).radius == old(self).radius + score * RADIUS_STEP,
            final(self).speed == old(self).speed + score * SPEED_STEP,
    {
        let more_radius: i128 = score as i128 * RADIUS_STEP as i128;
        let more_speed: i128 = score as i128 * SPEED_STEP as i128;
        self.radius = (self.radius as i128 + more_radius) as i64;
        self.speed = (self.speed as i128 + more_speed) as i64;
    }

    /// Lets the circle fall for `dt` milliseconds.
    pub fn update(&mut self, dt: u32)
        requires
            i64::MIN <= old(self).y + old(self).speed * dt <= i64::MAX,
        ensures
            *final(self) == old(self).fallen(dt),
            final(self).y == old(self).y + old(self).speed * dt,
    {
        proof {
            lemma_product_within(self.speed as int, dt as int, i64::MAX as int + 1, u32::MAX as int);
        }
        let drop: i128 = self.speed as i128 * dt as i128;
        self.y = (self.y as i128 + drop) as i64;
    }

    /// Whether the whole circle has passed below the bottom of the screen.
    pub fn is_off_screen(&self, screen_height: i64) -> (gone: bool)
        ensures
            gone == self.off_screen(screen_height),
    {
        self.y as i128 - self.radius as i128 > screen_height as i128
    }

    /// Whether the circle overlaps the player's square.
    ///
    /// The point of the square nearest to the centre is found one axis at a
    /// time; the circle overlaps when that point is strictly inside it.
    pub fn collides_with_player(&self, player: &Player) -> (hit: bool)
        requires
            0 <= player.size,
        ensures
            hit == self.hits(*player),
            hit <==> self.gap_squared(*player) < self.radius * self.radius,
    {
        let dx: i128 = apart(self.x, player.x, player.size);
        let dy: i128 = apart(self.y, player.y, player.size);
        let reach: i128 = if self.radius < 0 {
            -(self.radius as i128)
        } else {
            self.radius as i128
        };
        proof {
            let sx: int = self.x - clamped(self.x as int, player.x as int, player.x + player.size);
            let sy: int = self.y - clamped(self.y as int, player.y as int, player.y + player.size);
            lemma_square_of_magnitude(self.radius as int, reach as int);
            lemma_square_of_magnitude(sx, dx as int);
            lemma_square_of_magnitude(sy, dy as int);
            lemma_square_of_nearer(0, dx as int);
            lemma_square_of_nearer(0, dy as int);
        }
        if dx >= reach {
            proof {
                lemma_square_of_nearer(reach as int, dx as int);
            }
            false
        } else if dy >= reach {
            proof {
                lemma_square_of_nearer(reach as int, dy as int);
            }
            false
        } else {
            proof {
                lemma_square_of_nearer(dx as int, 0x7fff_ffff_ffff_ffff);
                lemma_square_of_nearer(dy as int, 0x7fff_ffff_ffff_ffff);
                lemma_square_of_nearer(reach as int, 0x8000_0000_0000_0000);
            }
            dx * dx + dy * dy < reach * reach
        }
    }
}

/// `v` brought into `[lo, hi]`.
pub fn within(v: i64, lo: i64, hi: i64) -> (r: i64)
    requires
        lo <= hi,
    ensures
        r == clamped(v as int, lo as int, hi as int),
{
    if v < lo {
        lo
    } else if v > hi {
        hi
    } else {
        v
    }
}

/// How far `v` lies outside the stretch of length `len` that starts at
/// `start`; zero inside it.
fn apart(v: i64, start: i64, len: i64) -> (d: i128)
    requires
        0 <= len,
    ensures
        0 <= d <= 0x1_0000_0000_0000_0000,
        ({
            let nearest: int = clamped(v as int, start as int, start + len);
            d == v - nearest || d == nearest - v
        }),
{
    let end: i128 = start as i128 + len as i128;
    if (v as i128) < (start as i128) {
        start as i128 - v as i128
    } else if v as i128 > end {
        v as i128 - end
    } else {
        0
    }
}

/// The point that `gap_squared` measures to is the point of the player's
/// square nearest to the circle's centre: no point `(qx, qy)` of the square
/// is nearer.
pub proof fn lemma_gap_is_nearest(circle: FallingCircle, player: Player, qx: int, qy: int)
    requires
        player.x <= qx <= player.x + player.size,
        player.y <= qy <= player.y + player.size,
    ensures
        ({
            let dx: int = circle.x - qx;
            let dy: int = circle.y - qy;
            circle.gap_squared(player) <= dx * dx + dy * dy
        }),
{
    let nx: int = clamped(circle.x as int, player.x as int, player.x + player.size);
    let ny: int = clamped(circle.y as int, player.y as int, player.y + player.size);
    lemma_square_of_nearer(circle.x - nx, circle.x - qx);
    lemma_square_of_nearer(circle.y - ny, circle.y - qy);
}

/// A circle whose edge only touches the nearest point of the square does
/// not hit the player.
pub proof fn lemma_touching_misses(circle: FallingCircle, player: Player)
    requires
        circle.gap_squared(player) == circle.radius * circle.radius,
    ensures
        !circle.hits(player),
{
}

/// A circle whose centre is inside the player's square hits the player,
/// whatever its radius, unless the radius is zero.
pub proof fn lemma_centre_inside_hits(circle: FallingCircle, player: Player)
    requires
        player.x <= circle.x <= player.x + player.size,
        player.y <= circle.y <= player.y + player.size,
        circle.radius != 0,
    ensures
        circle.gap_squared(player) == 0,
        circle.hits(player),
{
    let dx: int = circle.x - clamped(circle.x as int, player.x as int, player.x + player.size);
    let dy: int = circle.y - clamped(circle.y as int, player.y as int, player.y + player.size);
    assert(dx == 0 && dy == 0);
    assert(dx * dx + dy * dy == 0) by (nonlinear_arith)
        requires
            dx == 0,
            dy == 0,
    ;
    assert(circle.radius * circle.radius > 0) by (nonlinear_arith)
        requires
            circle.radius != 0,
    ;
}

/// A higher score never gives a smaller or slower circle.
pub proof fn lemma_harder_with_score(lower: nat, higher: nat)
    requires
        lower <= higher,
    ensures
        spawn_radius(lower) <= spawn_radius(higher),
        spawn_speed(lower) <= spawn_speed(higher),
        BASE_RADIUS <= spawn_radius(lower),
        BASE_SPEED <= spawn_speed(lower),
{
}

/// Of two offsets of one sign the one of smaller magnitude has the smaller
/// square.
pub proof fn lemma_square_of_nearer(near: int, far: int)
    by (nonlinear_arith)
    requires
        0 <= near <= far || far <= near <= 0,
    ensures
        near * near <= far * far,
{
}

/// A number and its magnitude have the same square.
pub proof fn lemma_square_of_magnitude(v: int, m: int)
    by (nonlinear_arith)
    requires
        m == v || m == -v,
    ensures
        m * m == v * v,
{
}

} // verus!
