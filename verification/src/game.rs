//! The game: one player, the circles in play, the score, and the rules that
//! take the whole from one frame to the next.

use vstd::prelude::*;

use crate::chance::draw_between;
use crate::circle::{
    in_spawn_band, spawn_radius, spawn_speed, spawn_x, within, FallingCircle, RADIUS_STEP,
    SPEED_LIMIT, SPEED_STEP, START_Y,
};
use crate::player::{centered, half_floor, Player};
use crate::scale::{clamped, is_extent, lemma_product_within, FRAME_LIMIT};

verus! {

/// The shortest wait between two spawns, in milliseconds.
pub const INTERVAL_MIN: u32 = 800;

/// The longest wait between two spawns, in milliseconds.
pub const INTERVAL_MAX: u32 = 1200;

/// The wait before the first spawn, in milliseconds.
pub const INTERVAL_START: u32 = 1000;

/// The state of a game.
#[derive(Debug, PartialEq, Eq)]
pub struct Game {
    pub player: Player,
    /// The circles in play, oldest first.
    pub circles: Vec<FallingCircle>,
    /// How many circles the player has let pass.
    pub score: u32,
    pub game_over: bool,
    /// Milliseconds since the last spawn.
    pub spawn_timer: u32,
    /// Milliseconds from one spawn to the next.
    pub spawn_interval: u32,
}

/// A game as a mathematical value: the circles are a sequence and the
/// counters are unbounded.
pub struct GameView {
    pub player: Player,
    pub circles: Seq<FallingCircle>,
    pub score: nat,
    pub game_over: bool,
    pub spawn_timer: nat,
    pub spawn_interval: nat,
}

impl View for Game {
    type V = GameView;

    open spec fn view(&self) -> GameView {
        GameView {
            player: self.player,
            circles: self.circles@,
            score: self.score as nat,
            game_over: self.game_over,
            spawn_timer: self.spawn_timer as nat,
            spawn_interval: self.spawn_interval as nat,
        }
    }
}

/// Every circle after falling for `dt` milliseconds.
pub open spec fn all_fallen(circles: Seq<FallingCircle>, dt: u32) -> Seq<FallingCircle> {
    Seq::new(circles.len(), |i: int| circles[i].fallen(dt))
}

/// Whether one of the circles overlaps the player.
pub open spec fn any_hit(circles: Seq<FallingCircle>, player: Player) -> bool {
    exists|i: int| 0 <= i < circles.len() && (#[trigger] circles[i]).hits(player)
}

/// The circles that are still on a screen `screen_height` tall, in their
/// order.
pub open spec fn remaining(circles: Seq<FallingCircle>, screen_height: i64) -> Seq<FallingCircle> {
    circles.filter(|c: FallingCircle| !c.off_screen(screen_height))
}

/// How many of the circles have left a screen `screen_height` tall.
pub open spec fn retired(circles: Seq<FallingCircle>, screen_height: i64) -> nat {
    (circles.len() - remaining(circles, screen_height).len()) as nat
}

/// The wait until the next spawn when the generator came up with `drawn`.
pub open spec fn spawn_wait(drawn: int) -> nat {
    clamped(drawn, INTERVAL_MIN as int, INTERVAL_MAX as int) as nat
}

impl GameView {
    /// What holds of a game between two frames.
    pub open spec fn wf(self) -> bool {
        &&& self.player.wf()
        &&& forall|i: int| 0 <= i < self.circles.len() ==> (#[trigger] self.circles[i]).wf()
        &&& INTERVAL_MIN <= self.spawn_interval <= INTERVAL_MAX
        &&& self.spawn_timer < self.spawn_interval
    }

    /// A fresh game on a screen of the given size.
    pub open spec fn initial(screen_width: i64, screen_height: i64) -> GameView {
        GameView {
            player: Player::fresh(screen_width, screen_height),
            circles: Seq::empty(),
            score: 0,
            game_over: false,
            spawn_timer: 0,
            spawn_interval: INTERVAL_START as nat,
        }
    }

    /// The circles fall for `dt` milliseconds; the game is over once one of
    /// them, where it now is, overlaps the player. In a game that is over
    /// already no circle moves.
    pub open spec fn collided(self, dt: u32) -> GameView {
        if self.game_over {
            self
        } else {
            let fallen = all_fallen(self.circles, dt);
            GameView { circles: fallen, game_over: any_hit(fallen, self.player), ..self }
        }
    }

    /// The circles that left the screen are taken out, and each counts one
    /// point.
    pub open spec fn scored(self, screen_height: i64) -> GameView {
        GameView {
            circles: remaining(self.circles, screen_height),
            score: self.score + retired(self.circles, screen_height),
            ..self
        }
    }

    /// `circle` enters play as hard as the score asks for, and the wait
    /// until the next spawn is set from `drawn_wait`.
    pub open spec fn entered(self, circle: FallingCircle, drawn_wait: i64) -> GameView {
        GameView {
            circles: self.circles.push(circle.toughened(self.score)),
            spawn_interval: spawn_wait(drawn_wait as int),
            ..self
        }
    }

    /// A spawn on a screen `screen_width` wide for which the generator came
    /// up with `drawn_x` and `drawn_wait`.
    pub open spec fn spawned(self, screen_width: i64, drawn_x: i64, drawn_wait: i64) -> GameView {
        self.entered(
            FallingCircle::base(spawn_x(drawn_x as int, screen_width as int) as i64),
            drawn_wait,
        )
    }

    /// Whether a frame of `dt` milliseconds ends with a spawn.
    pub open spec fn spawn_due(self, dt: u32) -> bool {
        self.spawn_timer + dt >= self.spawn_interval
    }

    /// A frame of a running game up to the spawn: the player moves, the
    /// circles fall and are tested against the player, those that left are
    /// scored, and the spawn timer runs on.
    pub open spec fn advanced(
        self,
        dt: u32,
        left: bool,
        right: bool,
        screen_width: i64,
        screen_height: i64,
    ) -> GameView {
        let moved = GameView {
            player: self.player.moved(dt, left, right, screen_width, screen_height),
            ..self
        };
        let run = moved.collided(dt).scored(screen_height);
        GameView { spawn_timer: self.spawn_timer + dt as nat, ..run }
    }

    /// A whole frame. A game that is over stays exactly as it is: nothing
    /// moves, nothing is scored and nothing spawns. A running game advances,
    /// and the two drawn numbers matter only when the frame ends with a
    /// spawn.
    pub open spec fn after_frame(
        self,
        dt: u32,
        left: bool,
        right: bool,
        screen_width: i64,
        screen_height: i64,
        drawn_x: i64,
        drawn_wait: i64,
    ) -> GameView {
        if self.game_over {
            self
        } else {
            let run = self.advanced(dt, left, right, screen_width, screen_height);
            if self.spawn_due(dt) {
                GameView { spawn_timer: 0, ..run.spawned(screen_width, drawn_x, drawn_wait) }
            } else {
                run
            }
        }
    }

    /// What a frame of `dt` milliseconds on a screen of the given size asks
    /// of a running game, so that every number of the frame can be counted:
    /// the player fits on the screen, the frame is no longer than the frame
    /// limit, and the score has room for the circles that leave.
    pub open spec fn can_advance(self, dt: u32, screen_width: i64, screen_height: i64) -> bool {
        &&& is_extent(screen_width)
        &&& is_extent(screen_height)
        &&& self.player.size <= screen_width
        &&& dt <= FRAME_LIMIT
        &&& self.score + retired(all_fallen(self.circles, dt), screen_height) <= u32::MAX
    }

    /// The game put back to its start on a screen `screen_width` wide. The
    /// player keeps its velocity, and the wait between spawns stays as it
    /// last was.
    pub open spec fn reset(self, screen_width: i64) -> GameView {
        GameView {
            player: Player {
                x: centered(screen_width as int, self.player.size as int) as i64,
                ..self.player
            },
            circles: Seq::empty(),
            score: 0,
            game_over: false,
            spawn_timer: 0,
            ..self
        }
    }

    /// A frame of a game that is over: nothing moves, and only the restart
    /// key starts the game anew.
    pub open spec fn restarted(self, restart: bool, screen_width: i64) -> GameView {
        if self.game_over && restart {
            self.reset(screen_width)
        } else {
            self
        }
    }
}

impl Game {
    /// What holds of a game between two frames.
    pub open spec fn wf(&self) -> bool {
        self@.wf()
    }

    /// Whether this game is as a game is between two frames.
    pub fn is_valid(&self) -> (ok: bool)
        ensures
            ok == self.wf(),
    {
        let count: usize = self.circles.len();
        let mut i: usize = 0;
        while i < count
            invariant
                i <= count,
                count == self.circles.len(),
                forall|j: int| 0 <= j < i ==> (#[trigger] self.circles[j]).wf(),
            decreases count - i,
        {
            if !self.circles[i].is_valid() {
                assert(!self@.circles[i as int].wf());
                return false;
            }
            i += 1;
        }
        self.player.is_valid() && INTERVAL_MIN <= self.spawn_interval && self.spawn_interval
            <= INTERVAL_MAX && self.spawn_timer < self.spawn_interval
    }

    /// A fresh game on a screen of the given size.
    pub fn new(screen_width: i64, screen_height: i64) -> (game: Game)
        requires
            is_extent(screen_width),
            is_extent(screen_height),
        ensures
            game@ == GameView::initial(screen_width, screen_height),
            game.wf(),
    {
        Game {
            player: Player::new(screen_width, screen_height),
            circles: Vec::new(),
            score: 0,
            game_over: false,
            spawn_timer: 0,
            spawn_interval: INTERVAL_START,
        }
    }

    /// Lets every circle fall for `dt` milliseconds, then ends the game if
    /// one of them overlaps the player. A game that is over stays as it is.
    pub fn check_collision(&mut self, dt: u32)
        requires
            !old(self).game_over ==> 0 <= old(self).player.size,
            !old(self).game_over ==> forall|i: int|
                0 <= i < old(self).circles.len() ==> i64::MIN <= (#[trigger] old(self).circles[i]).y
                    + old(self).circles[i].speed * dt <= i64::MAX,
        ensures
            final(self)@ == old(self)@.collided(dt),
            old(self).game_over ==> final(self)@ == old(self)@,
    {
        if self.game_over {
            return ;
        }
        let ghost before = self@;
        let count: usize = self.circles.len();
        let mut i: usize = 0;
        while i < count
            invariant
                i <= count,
                count == self.circles.len(),
                count == before.circles.len(),
                self@ == (GameView { circles: self.circles@, ..before }),
                forall|j: int| 0 <= j < i ==> self.circles[j] == before.circles[j].fallen(dt),
                forall|j: int| i <= j < count ==> self.circles[j] == before.circles[j],
                forall|j: int|
                    0 <= j < count ==> i64::MIN <= (#[trigger] before.circles[j]).y
                        + before.circles[j].speed * dt <= i64::MAX,
            decreases count - i,
        {
            assert(self.circles[i as int] == before.circles[i as int]);
            self.circles[i].update(dt);
            i += 1;
        }
        assert(self.circles@ =~= all_fallen(before.circles, dt));

        let mut hit: bool = false;
        let mut k: usize = 0;
        while k < count
            invariant
                k <= count,
                count == self.circles.len(),
                0 <= self.player.size,
                hit == any_hit(self.circles@.take(k as int), self.player),
            decreases count - k,
        {
            let here: bool = self.circles[k].collides_with_player(&self.player);
            proof {
                let seen = self.circles@.take(k as int);
                let more = self.circles@.take(k + 1);
                if here {
                    assert(more[k as int].hits(self.player));
                } else if any_hit(more, self.player) {
                    let w = choose|w: int| 0 <= w < more.len() && (#[trigger] more[w]).hits(self.player);
                    assert(seen[w].hits(self.player));
                }
                if hit {
                    let w = choose|w: int| 0 <= w < seen.len() && (#[trigger] seen[w]).hits(self.player);
                    assert(more[w].hits(self.player));
                }
            }
            hit = hit || here;
            k += 1;
        }
        assert(self.circles@.take(count as int) =~= self.circles@);
        if hit {
            self.game_over = true;
        }
    }

    /// Takes the circles that left the screen out of play and adds one point
    /// to the score for each.
    pub fn update_score(&mut self, screen_height: i64)
        requires
            old(self).score + retired(old(self).circles@, screen_height) <= u32::MAX,
        ensures
            final(self)@ == old(self)@.scored(screen_height),
            final(self).score - old(self).score
                == old(self).circles.len() - final(self).circles.len(),
    {
        let before: usize = self.circles.len();
        let mut kept: Vec<FallingCircle> = Vec::new();
        let mut i: usize = 0;
        while i < before
            invariant
                i <= before,
                before == self.circles.len(),
                kept@ == remaining(self.circles@.take(i as int), screen_height),
            decreases before - i,
        {
            let circle: FallingCircle = self.circles[i];
            proof {
                lemma_remaining_push(self.circles@.take(i as int), circle, screen_height);
                assert(self.circles@.take(i + 1) =~= self.circles@.take(i as int).push(circle));
            }
            if !circle.is_off_screen(screen_height) {
                kept.push(circle);
            }
            i += 1;
        }
        proof {
            assert(self.circles@.take(before as int) =~= self.circles@);
            self.circles@.lemma_filter_len(|c: FallingCircle| !c.off_screen(screen_height));
        }
        self.circles = kept;
        let after: usize = self.circles.len();

        let increment: u32 = (before - after) as u32;
        self.score += increment;
    }

    /// Puts `circle` into play, made as hard as the score asks for, and sets
    /// the wait until the next spawn from `drawn_wait`.
    pub fn enter(&mut self, circle: FallingCircle, drawn_wait: i64)
        requires
            circle.radius + old(self).score * RADIUS_STEP <= i64::MAX,
            circle.speed + old(self).score * SPEED_STEP <= i64::MAX,
        ensures
            final(self)@ == old(self)@.entered(circle, drawn_wait),
    {
        let mut circle: FallingCircle = circle;
        circle.toughen(self.score);
        self.circles.push(circle);
        self.spawn_interval = within(drawn_wait, INTERVAL_MIN as i64, INTERVAL_MAX as i64) as u32;
    }

    /// Spawns a circle: a new one enters above the screen, at a place drawn
    /// by chance and as hard as the score asks for, and the wait until the
    /// next spawn is drawn anew.
    pub fn spawn_circle(&mut self, screen_width: i64)
        requires
            is_extent(screen_width),
        ensures
            exists|drawn_x: i64, drawn_wait: i64|
                final(self)@ == #[trigger] old(self)@.spawned(screen_width, drawn_x, drawn_wait),
            final(self).circles@.len() == old(self).circles@.len() + 1,
            final(self).circles@.last().radius == spawn_radius(old(self).score as nat),
            final(self).circles@.last().speed == spawn_speed(old(self).score as nat),
            final(self).circles@.last().y == START_Y,
            in_spawn_band(final(self).circles@.last().x as int, screen_width as int),
            INTERVAL_MIN <= final(self).spawn_interval <= INTERVAL_MAX,
    {
        let circle: FallingCircle = FallingCircle::new(screen_width);
        let drawn_wait: i64 = draw_between(INTERVAL_MIN as i64, INTERVAL_MAX as i64);
        let ghost before = self@;
        self.enter(circle, drawn_wait);
        proof {
            assert(spawn_x(circle.x as int, screen_width as int) == circle.x);
            assert(self@ == before.spawned(screen_width, circle.x, drawn_wait));
        }
    }

    /// Puts the game back to its start: no circles, no score, a running
    /// game, and the player in the middle of the floor. The wait between
    /// spawns stays as it last was.
    pub fn reset(&mut self, screen_width: i64)
        requires
            0 <= old(self).player.size,
            is_extent(screen_width),
        ensures
            final(self)@ == old(self)@.reset(screen_width),
            final(self).circles@.len() == 0,
            final(self).score == 0,
            !final(self).game_over,
            final(self).spawn_timer == 0,
            final(self).player.x == centered(screen_width as int, old(self).player.size as int),
            old(self).wf() ==> final(self).wf(),
    {
        self.circles.clear();
        self.score = 0;
        self.game_over = false;
        self.spawn_timer = 0;
        self.player.x = half_floor(screen_width - self.player.size);
    }

    /// Starts the game anew if it is over and the restart key is held.
    pub fn restart(&mut self, restart: bool, screen_width: i64)
        requires
            0 <= old(self).player.size,
            is_extent(screen_width),
        ensures
            final(self)@ == old(self)@.restarted(restart, screen_width),
            old(self).wf() ==> final(self).wf(),
    {
        if self.game_over && restart {
            self.reset(screen_width);
        }
    }

    /// The part of a frame that chance has no say in: the player moves, the
    /// circles fall and are tested against the player, those that left the
    /// screen are scored, and the spawn timer runs on. Says whether a spawn
    /// is due.
    fn advance(
        &mut self,
        dt: u32,
        left: bool,
        right: bool,
        screen_width: i64,
        screen_height: i64,
    ) -> (due: bool)
        requires
            old(self).wf(),
            !old(self).game_over,
            old(self)@.can_advance(dt, screen_width, screen_height),
        ensures
            final(self)@ == old(self)@.advanced(dt, left, right, screen_width, screen_height),
            due == old(self)@.spawn_due(dt),
    {
        self.player.update(dt, left, right, screen_width, screen_height);
        proof {
            lemma_circles_can_fall(old(self)@, dt);
            assert(self.circles@ == old(self)@.circles);
        }
        self.check_collision(dt);
        self.update_score(screen_height);
        self.spawn_timer += dt;
        self.spawn_timer >= self.spawn_interval
    }

    /// Advances the game by one frame of `dt` milliseconds.
    ///
    /// A game that is over stays exactly as it is. In a running game the
    /// player moves as the keys say; every circle falls; the game is over if
    /// a circle now overlaps the player; the circles that left the screen
    /// are taken out and counted; and when the wait since the last spawn is
    /// over, a new circle is spawned by chance.
    pub fn update(
        &mut self,
        dt: u32,
        left: bool,
        right: bool,
        screen_width: i64,
        screen_height: i64,
    )
        requires
            old(self).wf(),
            !old(self).game_over ==> old(self)@.can_advance(dt, screen_width, screen_height),
        ensures
            old(self).game_over ==> final(self)@ == old(self)@,
            exists|drawn_x: i64, drawn_wait: i64|
                final(self)@ == #[trigger] old(self)@.after_frame(
                    dt,
                    left,
                    right,
                    screen_width,
                    screen_height,
                    drawn_x,
                    drawn_wait,
                ),
            final(self).wf(),
            !old(self).game_over ==> 0 <= final(self).player.x
                <= screen_width - final(self).player.size,
    {
        let ghost before = self@;
        if self.game_over {
            assert(self@ == before.after_frame(dt, left, right, screen_width, screen_height, 0, 0));
            return ;
        }
        let due: bool = self.advance(dt, left, right, screen_width, screen_height);
        if due {
            let ghost run = self@;
            self.spawn_circle(screen_width);
            self.spawn_timer = 0;
            proof {
                let (drawn_x, drawn_wait) = choose|drawn_x: i64, drawn_wait: i64|
                    (GameView { spawn_timer: run.spawn_timer, ..self@ }) == #[trigger] run.spawned(
                        screen_width,
                        drawn_x,
                        drawn_wait,
                    );
                assert(self@ == before.after_frame(
                    dt,
                    left,
                    right,
                    screen_width,
                    screen_height,
                    drawn_x,
                    drawn_wait,
                ));
                lemma_frame_keeps_wf(
                    before,
                    dt,
                    left,
                    right,
                    screen_width,
                    screen_height,
                    drawn_x,
                    drawn_wait,
                );
            }
        } else {
            proof {
                assert(self@ == before.after_frame(dt, left, right, screen_width, screen_height, 0, 0));
                lemma_frame_keeps_wf(before, dt, left, right, screen_width, screen_height, 0, 0);
            }
        }
    }

    /// Advances the game by one frame, as `update` does, with the two
    /// numbers that a spawn takes from chance given by the caller. A game
    /// that is over stays exactly as it is.
    pub fn update_with(
        &mut self,
        dt: u32,
        left: bool,
        right: bool,
        screen_width: i64,
        screen_height: i64,
        drawn_x: i64,
        drawn_wait: i64,
    )
        requires
            old(self).wf(),
            !old(self).game_over ==> old(self)@.can_advance(dt, screen_width, screen_height),
        ensures
            old(self).game_over ==> final(self)@ == old(self)@,
            final(self)@ == old(self)@.after_frame(
                dt,
                left,
                right,
                screen_width,
                screen_height,
                drawn_x,
                drawn_wait,
            ),
            final(self).wf(),
            !old(self).game_over ==> 0 <= final(self).player.x
                <= screen_width - final(self).player.size,
    {
        let ghost before = self@;
        if self.game_over {
            return ;
        }
        let due: bool = self.advance(dt, left, right, screen_width, screen_height);
        if due {
            self.enter(FallingCircle::placed(drawn_x, screen_width), drawn_wait);
            self.spawn_timer = 0;
        }
        proof {
            lemma_frame_keeps_wf(
                before,
                dt,
                left,
                right,
                screen_width,
                screen_height,
                drawn_x,
                drawn_wait,
            );
        }
    }

    /// One turn of the game loop. A running game advances by a frame; a game
    /// that is over stands still until the restart key is held.
    pub fn frame(
        &mut self,
        dt: u32,
        left: bool,
        right: bool,
        restart: bool,
        screen_width: i64,
        screen_height: i64,
    )
        requires
            old(self).wf(),
            is_extent(screen_width),
            !old(self).game_over ==> old(self)@.can_advance(dt, screen_width, screen_height),
        ensures
            old(self).game_over ==> final(self)@ == old(self)@.restarted(restart, screen_width),
            old(self).game_over && !restart ==> final(self)@ == old(self)@,
            !old(self).game_over ==> exists|drawn_x: i64, drawn_wait: i64|
                final(self)@ == #[trigger] old(self)@.after_frame(
                    dt,
                    left,
                    right,
                    screen_width,
                    screen_height,
                    drawn_x,
                    drawn_wait,
                ),
            final(self).wf(),
    {
        if !self.game_over {
            self.update(dt, left, right, screen_width, screen_height);
        } else {
            self.restart(restart, screen_width);
        }
    }
}

/// Whether the next circle stays in play decides alone whether it is among
/// those that remain.
pub proof fn lemma_remaining_push(
    circles: Seq<FallingCircle>,
    circle: FallingCircle,
    screen_height: i64,
)
    ensures
        remaining(circles.push(circle), screen_height) == if circle.off_screen(screen_height) {
            remaining(circles, screen_height)
        } else {
            remaining(circles, screen_height).push(circle)
        },
{
    reveal(Seq::filter);
    assert(circles.push(circle).drop_last() =~= circles);
}

/// Every circle that remains was among the circles and is on the screen.
pub proof fn lemma_remaining_were_there(circles: Seq<FallingCircle>, screen_height: i64)
    ensures
        forall|j: int|
            0 <= j < remaining(circles, screen_height).len() ==> {
                &&& circles.contains(#[trigger] remaining(circles, screen_height)[j])
                &&& !remaining(circles, screen_height)[j].off_screen(screen_height)
            },
    decreases circles.len(),
{
    if circles.len() == 0 {
        reveal(Seq::filter);
    } else {
        let front = circles.drop_last();
        let last = circles.last();
        lemma_remaining_were_there(front, screen_height);
        lemma_remaining_push(front, last, screen_height);
        assert(front.push(last) =~= circles);
        let kept = remaining(circles, screen_height);
        let kept_front = remaining(front, screen_height);
        assert forall|j: int| 0 <= j < kept.len() implies circles.contains(#[trigger] kept[j])
            && !kept[j].off_screen(screen_height) by {
            if j < kept_front.len() {
                assert(kept[j] == kept_front[j]);
                assert(front.contains(kept_front[j]));
                let i = choose|i: int| 0 <= i < front.len() && front[i] == kept_front[j];
                assert(circles[i] == kept[j]);
            } else {
                assert(circles[circles.len() - 1] == kept[j]);
            }
        }
    }
}

/// Within the frame limit every circle of a well-formed game can fall
/// without leaving the range of its coordinates.
pub proof fn lemma_circles_can_fall(game: GameView, dt: u32)
    requires
        game.wf(),
        dt <= FRAME_LIMIT,
    ensures
        forall|i: int|
            0 <= i < game.circles.len() ==> i64::MIN <= (#[trigger] game.circles[i]).y
                + game.circles[i].speed * dt <= i64::MAX,
{
    assert forall|i: int| 0 <= i < game.circles.len() implies {
        let c = #[trigger] game.circles[i];
        i64::MIN <= c.y + c.speed * dt <= i64::MAX
    } by {
        let c = game.circles[i];
        assert(c.wf());
        lemma_product_within(c.speed as int, dt as int, SPEED_LIMIT as int, FRAME_LIMIT as int);
    }
}

/// A frame takes a well-formed game to a well-formed game.
pub proof fn lemma_frame_keeps_wf(
    game: GameView,
    dt: u32,
    left: bool,
    right: bool,
    screen_width: i64,
    screen_height: i64,
    drawn_x: i64,
    drawn_wait: i64,
)
    requires
        game.wf(),
        !game.game_over ==> game.can_advance(dt, screen_width, screen_height),
    ensures
        game.after_frame(dt, left, right, screen_width, screen_height, drawn_x, drawn_wait).wf(),
{
    if !game.game_over {
        let fallen = all_fallen(game.circles, dt);
        let kept = remaining(fallen, screen_height);
        let run = game.advanced(dt, left, right, screen_width, screen_height);
        let next = game.after_frame(dt, left, right, screen_width, screen_height, drawn_x, drawn_wait);
        lemma_circles_can_fall(game, dt);
        lemma_remaining_were_there(fallen, screen_height);
        assert forall|j: int| 0 <= j < kept.len() implies (#[trigger] kept[j]).wf() by {
            assert(fallen.contains(kept[j]));
            let i = choose|i: int| 0 <= i < fallen.len() && fallen[i] == kept[j];
            assert(game.circles[i].wf());
            assert(fallen[i] == game.circles[i].fallen(dt));
        }
        assert(run.circles == kept);
        if game.spawn_due(dt) {
            let fresh = FallingCircle::base(
                spawn_x(drawn_x as int, screen_width as int) as i64,
            ).toughened(run.score);
            assert(fresh.wf());
            assert(next.circles == kept.push(fresh));
            assert forall|j: int| 0 <= j < next.circles.len() implies (#[trigger] next.circles[j]).wf() by {
                if j < kept.len() {
                    assert(next.circles[j] == kept[j]);
                }
            }
        }
    }
}

/// The circles that leave the screen and those that remain are all the
/// circles: `retired` counts exactly the circles that are off the screen.
pub proof fn lemma_retired_counts_off_screen(circles: Seq<FallingCircle>, screen_height: i64)
    ensures
        retired(circles, screen_height) == circles.filter(
            |c: FallingCircle| c.off_screen(screen_height),
        ).len(),
        retired(circles, screen_height) <= circles.len(),
    decreases circles.len(),
{
    reveal(Seq::filter);
    if circles.len() > 0 {
        let front = circles.drop_last();
        lemma_retired_counts_off_screen(front, screen_height);
        lemma_remaining_push(front, circles.last(), screen_height);
        assert(front.push(circles.last()) =~= circles);
    }
}

/// The indices of the circles that are still on a screen `screen_height`
/// tall, in rising order.
pub open spec fn on_screen_indices(circles: Seq<FallingCircle>, screen_height: i64) -> Seq<int>
    decreases circles.len(),
{
    if circles.len() == 0 {
        Seq::empty()
    } else {
        let front = on_screen_indices(circles.drop_last(), screen_height);
        if circles.last().off_screen(screen_height) {
            front
        } else {
            front.push(circles.len() - 1)
        }
    }
}

/// Taking out the circles that left the screen keeps exactly the others,
/// each as it was and in the order they had: the circles that remain are
/// the circles at the on-screen indices, these rise, each points at a
/// circle on the screen, and no circle on the screen is passed over.
pub proof fn lemma_remaining_is_exact(circles: Seq<FallingCircle>, screen_height: i64)
    ensures
        ({
            let kept = remaining(circles, screen_height);
            let at = on_screen_indices(circles, screen_height);
            &&& at.len() == kept.len()
            &&& forall|j: int|
                0 <= j < at.len() ==> {
                    &&& 0 <= (#[trigger] at[j]) < circles.len()
                    &&& kept[j] == circles[at[j]]
                    &&& !circles[at[j]].off_screen(screen_height)
                }
            &&& forall|j: int, k: int| 0 <= j < k < at.len() ==> at[j] < at[k]
            &&& forall|i: int|
                0 <= i < circles.len() && !(#[trigger] circles[i]).off_screen(screen_height)
                    ==> at.contains(i)
        }),
    decreases circles.len(),
{
    let kept = remaining(circles, screen_height);
    let at = on_screen_indices(circles, screen_height);
    if circles.len() == 0 {
        reveal(Seq::filter);
    } else {
        let front = circles.drop_last();
        let last = circles.last();
        let kept_front = remaining(front, screen_height);
        let at_front = on_screen_indices(front, screen_height);
        lemma_remaining_is_exact(front, screen_height);
        lemma_remaining_push(front, last, screen_height);
        assert(front.push(last) =~= circles);
        assert forall|j: int| 0 <= j < at.len() implies {
            &&& 0 <= (#[trigger] at[j]) < circles.len()
            &&& kept[j] == circles[at[j]]
            &&& !circles[at[j]].off_screen(screen_height)
        } by {
            if j < at_front.len() {
                assert(at[j] == at_front[j]);
                assert(kept[j] == kept_front[j]);
                assert(front[at_front[j]] == circles[at_front[j]]);
            }
        }
        assert forall|j: int, k: int| 0 <= j < k < at.len() implies at[j] < at[k] by {
            assert(at[j] == at_front[j]);
            if k < at_front.len() {
                assert(at[k] == at_front[k]);
            }
        }
        assert forall|i: int|
            0 <= i < circles.len() && !(#[trigger] circles[i]).off_screen(
                screen_height,
            ) implies at.contains(i) by {
            if i < front.len() {
                assert(front[i] == circles[i]);
                assert(at_front.contains(i));
                let j = choose|j: int| 0 <= j < at_front.len() && at_front[j] == i;
                assert(at[j] == i);
            } else {
                assert(at[at.len() - 1] == i);
            }
        }
    }
}

/// A game that is over stands still: a frame leaves it exactly as it is,
/// whatever the keys, the length of the frame and the size of the screen,
/// and so does every turn of the game loop in which the restart key is not
/// held. Only a restart ends it: after any frame it is still over.
pub proof fn lemma_game_over_stands_still(
    game: GameView,
    dt: u32,
    left: bool,
    right: bool,
    screen_width: i64,
    screen_height: i64,
    drawn_x: i64,
    drawn_wait: i64,
)
    requires
        game.game_over,
    ensures
        game.after_frame(dt, left, right, screen_width, screen_height, drawn_x, drawn_wait)
            == game,
        game.collided(dt) == game,
        game.restarted(false, screen_width) == game,
{
}

/// In a frame of a running game the score goes up by exactly the number of
/// circles that, where they have fallen to, are off the screen: these are
/// the circles taken out of play. Nothing else adds to the score, and no
/// frame takes from it.
pub proof fn lemma_frame_scores_retired(
    game: GameView,
    dt: u32,
    left: bool,
    right: bool,
    screen_width: i64,
    screen_height: i64,
    drawn_x: i64,
    drawn_wait: i64,
)
    ensures
        ({
            let next = game.after_frame(
                dt,
                left,
                right,
                screen_width,
                screen_height,
                drawn_x,
                drawn_wait,
            );
            let fallen = all_fallen(game.circles, dt);
            let gone = fallen.filter(|c: FallingCircle| c.off_screen(screen_height));
            let spawns: int = if game.spawn_due(dt) { 1 } else { 0 };
            &&& next.score >= game.score
            &&& game.game_over ==> next.score == game.score
            &&& !game.game_over ==> next.score == game.score + gone.len()
            &&& !game.game_over ==> next.score - game.score == game.circles.len() + spawns
                - next.circles.len()
        }),
{
    let fallen = all_fallen(game.circles, dt);
    lemma_retired_counts_off_screen(fallen, screen_height);
}

/// The circle that a frame spawns is as large and as fast as the score at
/// the end of that frame asks for, and starts above the screen.
pub proof fn lemma_spawn_follows_score(
    game: GameView,
    dt: u32,
    left: bool,
    right: bool,
    screen_width: i64,
    screen_height: i64,
    drawn_x: i64,
    drawn_wait: i64,
)
    requires
        !game.game_over,
        game.spawn_due(dt),
        is_extent(screen_width),
        game.score + retired(all_fallen(game.circles, dt), screen_height) <= u32::MAX,
    ensures
        ({
            let next = game.after_frame(
                dt,
                left,
                right,
                screen_width,
                screen_height,
                drawn_x,
                drawn_wait,
            );
            &&& next.circles.len() > 0
            &&& next.circles.last().radius == spawn_radius(next.score)
            &&& next.circles.last().speed == spawn_speed(next.score)
            &&& next.circles.last().y == START_Y
            &&& next.circles.last().x == spawn_x(drawn_x as int, screen_width as int)
            &&& next.spawn_timer == 0
            &&& next.spawn_interval == spawn_wait(drawn_wait as int)
            &&& INTERVAL_MIN <= next.spawn_interval <= INTERVAL_MAX
        }),
{
}

} // verus!
