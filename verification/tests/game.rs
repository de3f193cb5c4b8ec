use dodger::circle::{FallingCircle, BASE_RADIUS, BASE_SPEED, START_Y};
use dodger::game::{Game, INTERVAL_MAX, INTERVAL_MIN, INTERVAL_START};
use dodger::player::{Player, PLAYER_SIZE};
use dodger::scale::{FRAME_LIMIT, PER_SECOND, SCREEN_LIMIT, UNIT};

const WIDTH: i64 = 800 * UNIT;
const HEIGHT: i64 = 600 * UNIT;

fn circle(x: i64, y: i64) -> FallingCircle {
    FallingCircle { x, y, radius: BASE_RADIUS, speed: BASE_SPEED }
}

fn copy_of(g: &Game) -> Game {
    Game {
        player: g.player,
        circles: g.circles.clone(),
        score: g.score,
        game_over: g.game_over,
        spawn_timer: g.spawn_timer,
        spawn_interval: g.spawn_interval,
    }
}

#[test]
fn scale_limits() {
    assert_eq!(UNIT, 1_000_000);
    assert_eq!(PER_SECOND, 1_000);
    assert_eq!(SCREEN_LIMIT, 1_000_000_000_000);
    assert_eq!(FRAME_LIMIT, 60_000);
    assert_eq!(INTERVAL_MIN, 800);
    assert_eq!(INTERVAL_MAX, 1200);
    assert_eq!(INTERVAL_START, 1000);
}

#[test]
fn new_game_is_running_and_empty() {
    let g = Game::new(WIDTH, HEIGHT);
    assert_eq!(g.player, Player::new(WIDTH, HEIGHT));
    assert!(g.circles.is_empty());
    assert_eq!(g.score, 0);
    assert!(!g.game_over);
    assert_eq!(g.spawn_timer, 0);
    assert_eq!(g.spawn_interval, 1000);
    assert!(g.is_valid());
}

#[test]
fn check_collision_moves_every_circle() {
    let mut g = Game::new(WIDTH, HEIGHT);
    g.circles.push(circle(100 * UNIT, 0));
    g.circles.push(FallingCircle { x: 200 * UNIT, y: 10 * UNIT, radius: 50 * UNIT, speed: 250 * PER_SECOND });
    g.check_collision(100);
    assert_eq!(g.circles, vec![
        circle(100 * UNIT, 20 * UNIT),
        FallingCircle { x: 200 * UNIT, y: 35 * UNIT, radius: 50 * UNIT, speed: 250 * PER_SECOND },
    ]);
    assert!(!g.game_over);
    assert_eq!(g.score, 0);
    assert_eq!(g.player, Player::new(WIDTH, HEIGHT));
    assert_eq!(g.spawn_timer, 0);
}

#[test]
fn circle_with_centre_inside_the_player_ends_the_game() {
    let mut g = Game::new(WIDTH, HEIGHT);
    let inside = circle(g.player.x + 20 * UNIT, g.player.y + 20 * UNIT);
    assert!(inside.collides_with_player(&g.player));
    g.circles.push(inside);
    assert!(!g.game_over);
    g.check_collision(0);
    assert!(g.game_over);
}

#[test]
fn collision_is_tested_where_the_circle_has_fallen_to() {
    // Right above the player, 40 units of air between: touching after 200 ms
    // at 200 units per second, overlapping a millisecond later.
    let mut g = Game::new(WIDTH, HEIGHT);
    g.circles.push(circle(400 * UNIT, 480 * UNIT));
    g.check_collision(200);
    assert_eq!(g.circles[0].y, 520 * UNIT);
    assert!(!g.game_over);
    g.check_collision(1);
    assert!(g.game_over);
}

#[test]
fn one_hit_among_many_ends_the_game() {
    let mut g = Game::new(WIDTH, HEIGHT);
    g.circles.push(circle(100 * UNIT, 100 * UNIT));
    g.circles.push(circle(400 * UNIT, 560 * UNIT));
    g.circles.push(circle(700 * UNIT, 0));
    g.check_collision(0);
    assert!(g.game_over);
    let mut h = Game::new(WIDTH, HEIGHT);
    h.circles.push(circle(100 * UNIT, 100 * UNIT));
    h.circles.push(circle(700 * UNIT, 0));
    h.check_collision(0);
    assert!(!h.game_over);
}

#[test]
fn check_collision_leaves_a_game_that_is_over_as_it_is() {
    let mut g = Game::new(WIDTH, HEIGHT);
    g.game_over = true;
    g.circles.push(circle(100 * UNIT, 100 * UNIT));
    g.circles.push(circle(400 * UNIT, 560 * UNIT));
    let before = copy_of(&g);
    g.check_collision(10);
    assert!(g.game_over);
    assert_eq!(g, before);
    g.check_collision(u32::MAX);
    assert_eq!(g, before);
}

#[test]
fn update_leaves_a_game_that_is_over_as_it_is() {
    let mut g = Game::new(WIDTH, HEIGHT);
    g.game_over = true;
    g.score = 6;
    g.spawn_timer = 999;
    g.player.x = 200 * UNIT;
    g.player.vel = 300 * PER_SECOND;
    g.circles.push(circle(100 * UNIT, 100 * UNIT));
    g.circles.push(circle(300 * UNIT, 900 * UNIT));
    g.circles.push(circle(400 * UNIT, 560 * UNIT));
    let before = copy_of(&g);
    for (dt, left, right) in [
        (0u32, false, false),
        (1, true, false),
        (16, false, true),
        (1000, true, true),
        (60_000, true, false),
    ] {
        g.update(dt, left, right, WIDTH, HEIGHT);
        assert_eq!(g, before);
        g.update(dt, left, right, 500 * UNIT, 300 * UNIT);
        assert_eq!(g, before);
    }
    assert!(g.game_over);
    assert_eq!(g.player.x, 200 * UNIT);
    assert_eq!(g.circles[0].y, 100 * UNIT);
    assert_eq!(g.circles.len(), 3);
    assert_eq!(g.score, 6);
    assert_eq!(g.spawn_timer, 999);
}

#[test]
fn update_with_leaves_a_game_that_is_over_as_it_is() {
    let mut g = Game::new(WIDTH, HEIGHT);
    g.game_over = true;
    g.spawn_timer = 999;
    g.player.x = 200 * UNIT;
    g.circles.push(circle(100 * UNIT, 100 * UNIT));
    g.circles.push(circle(300 * UNIT, 900 * UNIT));
    let before = copy_of(&g);
    g.update_with(1, true, false, WIDTH, HEIGHT, 300 * UNIT, 900);
    assert_eq!(g, before);
    g.update_with(2000, false, true, WIDTH, HEIGHT, 0, 0);
    assert_eq!(g, before);
}

#[test]
fn a_game_driven_by_update_alone_stops_at_the_hit() {
    let mut g = Game::new(WIDTH, HEIGHT);
    g.circles.push(circle(400 * UNIT, 500 * UNIT));
    let mut frames = 0;
    while !g.game_over {
        g.update_with(10, false, false, WIDTH, HEIGHT, 100 * UNIT, 1000);
        frames += 1;
        assert!(frames < 1000);
    }
    // 20 units of air at 200 units per second: touching after 100 ms,
    // overlapping in the frame after.
    assert_eq!(frames, 11);
    let stopped = copy_of(&g);
    assert_eq!(stopped.circles[0].y, 522 * UNIT);
    for _ in 0..500 {
        g.update(10, true, false, WIDTH, HEIGHT);
        assert_eq!(g, stopped);
    }
}

#[test]
fn update_score_counts_the_circles_that_left() {
    let mut g = Game::new(WIDTH, HEIGHT);
    g.score = 7;
    g.circles.push(circle(1, 700 * UNIT));
    g.circles.push(circle(2, 100 * UNIT));
    g.circles.push(circle(3, 640 * UNIT + 1));
    g.circles.push(circle(4, 640 * UNIT));
    g.circles.push(circle(5, 900 * UNIT));
    g.update_score(HEIGHT);
    assert_eq!(g.score, 10);
    assert_eq!(g.circles, vec![circle(2, 100 * UNIT), circle(4, 640 * UNIT)]);
}

#[test]
fn update_score_without_leavers_changes_nothing() {
    let mut g = Game::new(WIDTH, HEIGHT);
    g.circles.push(circle(1, 0));
    g.circles.push(circle(2, 100 * UNIT));
    let before = copy_of(&g);
    g.update_score(HEIGHT);
    assert_eq!(g, before);
    let mut e = Game::new(WIDTH, HEIGHT);
    e.update_score(HEIGHT);
    assert_eq!(e, Game::new(WIDTH, HEIGHT));
}

#[test]
fn update_score_reaches_the_highest_score() {
    let mut g = Game::new(WIDTH, HEIGHT);
    g.score = u32::MAX - 2;
    g.circles.push(circle(1, 700 * UNIT));
    g.circles.push(circle(2, 700 * UNIT));
    g.circles.push(circle(3, 0));
    g.update_score(HEIGHT);
    assert_eq!(g.score, u32::MAX);
    assert_eq!(g.circles, vec![circle(3, 0)]);
}

#[test]
fn enter_toughens_the_circle_by_the_score() {
    let mut g = Game::new(WIDTH, HEIGHT);
    g.score = 5;
    g.circles.push(circle(1, 0));
    g.enter(FallingCircle::placed(300 * UNIT, WIDTH), 950);
    assert_eq!(g.circles.len(), 2);
    assert_eq!(g.circles[0], circle(1, 0));
    assert_eq!(
        g.circles[1],
        FallingCircle { x: 300 * UNIT, y: START_Y, radius: 50 * UNIT, speed: 250 * PER_SECOND }
    );
    assert_eq!(g.spawn_interval, 950);
    assert_eq!(g.score, 5);
}

#[test]
fn enter_keeps_the_wait_inside_its_band() {
    let mut g = Game::new(WIDTH, HEIGHT);
    for (drawn, wait) in [
        (i64::MIN, 800u32),
        (-1, 800),
        (0, 800),
        (799, 800),
        (800, 800),
        (801, 801),
        (1199, 1199),
        (1200, 1200),
        (1201, 1200),
        (i64::MAX, 1200),
    ] {
        g.enter(FallingCircle::placed(0, WIDTH), drawn);
        assert_eq!(g.spawn_interval, wait);
    }
    assert_eq!(g.circles.len(), 10);
}

#[test]
fn spawned_circles_follow_the_score() {
    for score in [0u32, 1, 5, 40, 1000, u32::MAX] {
        let mut g = Game::new(WIDTH, HEIGHT);
        g.score = score;
        g.spawn_circle(WIDTH);
        assert_eq!(g.circles.len(), 1);
        let c = g.circles[0];
        assert_eq!(c.radius, (40 + 2 * score as i64) * UNIT);
        assert_eq!(c.speed, (200 + 10 * score as i64) * PER_SECOND);
        assert_eq!(c.y, -50 * UNIT);
        assert!(40 * UNIT <= c.x && c.x <= 760 * UNIT);
        assert!(800 <= g.spawn_interval && g.spawn_interval <= 1200);
        assert_eq!(g.score, score);
        assert!(c.is_valid());
    }
}

#[test]
fn spawns_vary_in_place_and_wait() {
    let mut g = Game::new(WIDTH, HEIGHT);
    let mut waits = Vec::new();
    for _ in 0..50 {
        g.spawn_circle(WIDTH);
        waits.push(g.spawn_interval);
    }
    assert_eq!(g.circles.len(), 50);
    assert!(g.circles.iter().any(|c| c.x != g.circles[0].x));
    assert!(g.circles.iter().any(|c| c.x != BASE_RADIUS));
    assert!(waits.iter().any(|w| *w != waits[0]));
    assert!(waits.iter().any(|w| *w != INTERVAL_MIN));
    assert!(waits.iter().all(|w| INTERVAL_MIN <= *w && *w <= INTERVAL_MAX));
    assert!(g.circles.iter().all(|c| 40 * UNIT <= c.x && c.x <= 760 * UNIT));
}

#[test]
fn reset_puts_the_game_back_to_its_start() {
    let mut g = Game::new(WIDTH, HEIGHT);
    g.circles.push(circle(1, 2));
    g.circles.push(circle(3, 4));
    g.score = 12;
    g.game_over = true;
    g.spawn_timer = 555;
    g.spawn_interval = 1111;
    g.player.x = 3 * UNIT;
    g.reset(WIDTH);
    assert!(g.circles.is_empty());
    assert_eq!(g.score, 0);
    assert!(!g.game_over);
    assert_eq!(g.spawn_timer, 0);
    assert_eq!(g.player.x, (WIDTH - PLAYER_SIZE) / 2);
    assert_eq!(g.player.x, 380 * UNIT);
    assert!(g.is_valid());
}

#[test]
fn reset_leaves_the_wait_and_the_velocity_as_they_were() {
    let mut g = Game::new(WIDTH, HEIGHT);
    g.spawn_interval = 1111;
    g.player.vel = -123;
    g.player.y = 77;
    g.game_over = true;
    g.reset(1000 * UNIT);
    assert_eq!(g.spawn_interval, 1111);
    assert_eq!(g.player.vel, -123);
    assert_eq!(g.player.y, 77);
    assert_eq!(g.player.x, 480 * UNIT);
    assert_eq!(g.player.size, PLAYER_SIZE);
}

#[test]
fn restart_needs_a_game_that_is_over_and_the_key() {
    let mut played = Game::new(WIDTH, HEIGHT);
    played.circles.push(circle(1, 2));
    played.score = 3;
    played.spawn_timer = 10;
    played.player.x = 5;

    let mut g = copy_of(&played);
    g.restart(true, WIDTH);
    assert_eq!(g, played);
    g.restart(false, WIDTH);
    assert_eq!(g, played);

    played.game_over = true;
    let mut h = copy_of(&played);
    h.restart(false, WIDTH);
    assert_eq!(h, played);
    h.restart(true, WIDTH);
    assert!(!h.game_over);
    assert!(h.circles.is_empty());
    assert_eq!(h.score, 0);
    assert_eq!(h.spawn_timer, 0);
    assert_eq!(h.player.x, 380 * UNIT);
    assert_eq!(h.spawn_interval, played.spawn_interval);
}

#[test]
fn frame_without_spawn() {
    let mut g = Game::new(WIDTH, HEIGHT);
    g.circles.push(circle(100 * UNIT, 0));
    g.update_with(16, false, true, WIDTH, HEIGHT, 0, 0);
    assert_eq!(g.player.vel, 8 * PER_SECOND);
    assert_eq!(g.player.x, 380 * UNIT + 128_000);
    assert_eq!(g.circles, vec![circle(100 * UNIT, 3_200_000)]);
    assert_eq!(g.score, 0);
    assert!(!g.game_over);
    assert_eq!(g.spawn_timer, 16);
    assert_eq!(g.spawn_interval, 1000);
    assert!(g.is_valid());
}

#[test]
fn spawn_comes_when_the_wait_is_over() {
    let mut g = Game::new(WIDTH, HEIGHT);
    g.update_with(999, false, false, WIDTH, HEIGHT, 300 * UNIT, 900);
    assert!(g.circles.is_empty());
    assert_eq!(g.spawn_timer, 999);
    assert_eq!(g.spawn_interval, 1000);
    g.update_with(1, false, false, WIDTH, HEIGHT, 300 * UNIT, 900);
    assert_eq!(g.circles, vec![circle(300 * UNIT, START_Y)]);
    assert_eq!(g.spawn_timer, 0);
    assert_eq!(g.spawn_interval, 900);
    g.update_with(899, false, false, WIDTH, HEIGHT, 500 * UNIT, 5000);
    assert_eq!(g.circles.len(), 1);
    assert_eq!(g.spawn_timer, 899);
    g.update_with(500, false, false, WIDTH, HEIGHT, 5, 5000);
    assert_eq!(g.circles.len(), 2);
    assert_eq!(g.circles[1].x, 40 * UNIT);
    assert_eq!(g.circles[1].y, START_Y);
    assert_eq!(g.spawn_timer, 0);
    assert_eq!(g.spawn_interval, 1200);
    assert!(g.is_valid());
}

#[test]
fn spawn_uses_the_score_of_the_same_frame() {
    let mut g = Game::new(WIDTH, HEIGHT);
    g.score = 4;
    g.spawn_timer = 990;
    // leaves the screen in this frame: 640 units is the last height in view
    g.circles.push(circle(100 * UNIT, 639 * UNIT));
    g.circles.push(circle(200 * UNIT, 0));
    g.update_with(10, false, false, WIDTH, HEIGHT, 300 * UNIT, 1000);
    assert_eq!(g.score, 5);
    assert_eq!(
        g.circles,
        vec![
            circle(200 * UNIT, 2 * UNIT),
            FallingCircle { x: 300 * UNIT, y: START_Y, radius: 50 * UNIT, speed: 250 * PER_SECOND },
        ]
    );
    assert!(g.is_valid());
}

#[test]
fn score_goes_up_by_the_number_of_circles_taken_out() {
    let mut g = Game::new(WIDTH, HEIGHT);
    g.circles.push(circle(100 * UNIT, 630 * UNIT));
    g.circles.push(circle(200 * UNIT, 100 * UNIT));
    g.circles.push(circle(300 * UNIT, 635 * UNIT));
    g.circles.push(circle(700 * UNIT, 640 * UNIT));
    let mut total = 0;
    for _ in 0..40 {
        let before = g.circles.len() as u32;
        let score = g.score;
        g.update_with(1, false, false, WIDTH, HEIGHT, 0, 0);
        let taken = before - g.circles.len() as u32;
        assert_eq!(g.score, score + taken);
        total += taken;
    }
    // after 40 ms each has fallen 8 units
    assert_eq!(total, 2);
    assert_eq!(g.score, 2);
    assert_eq!(g.circles, vec![circle(100 * UNIT, 638 * UNIT), circle(200 * UNIT, 108 * UNIT)]);
}

#[test]
fn the_frame_of_the_hit_still_scores_and_spawns() {
    let mut g = Game::new(WIDTH, HEIGHT);
    g.spawn_timer = 999;
    g.circles.push(circle(400 * UNIT, 560 * UNIT));
    g.circles.push(circle(100 * UNIT, 640 * UNIT));
    g.update_with(1, false, false, WIDTH, HEIGHT, 300 * UNIT, 1000);
    assert!(g.game_over);
    assert_eq!(g.score, 1);
    assert_eq!(g.circles.len(), 2);
    assert_eq!(g.circles[0], circle(400 * UNIT, 560 * UNIT + 200_000));
    assert_eq!(g.circles[1], FallingCircle { x: 300 * UNIT, y: START_Y, radius: 42 * UNIT, speed: 210 * PER_SECOND });
}

#[test]
fn the_player_moves_before_the_circles_are_tested() {
    // The circle hangs beside the player, touching its left side; the player
    // steps left into it within the frame.
    let mut g = Game::new(WIDTH, HEIGHT);
    g.circles.push(FallingCircle { x: 340 * UNIT, y: 580 * UNIT, radius: BASE_RADIUS, speed: 0 });
    let mut still = copy_of(&g);
    still.update_with(10, false, false, WIDTH, HEIGHT, 0, 0);
    assert!(!still.game_over);
    g.update_with(10, true, false, WIDTH, HEIGHT, 0, 0);
    assert_eq!(g.player.x, 380 * UNIT - 50_000);
    assert!(g.game_over);
}

#[test]
fn game_over_freezes_everything_until_restart() {
    let mut g = Game::new(WIDTH, HEIGHT);
    g.circles.push(circle(400 * UNIT, 560 * UNIT));
    g.frame(16, false, false, false, WIDTH, HEIGHT);
    assert!(g.game_over);
    let frozen = copy_of(&g);
    for _ in 0..10 {
        g.frame(16, true, false, false, WIDTH, HEIGHT);
        assert_eq!(g, frozen);
        g.frame(2000, false, true, false, 400 * UNIT, 300 * UNIT);
        assert_eq!(g, frozen);
    }
    g.frame(16, true, false, true, WIDTH, HEIGHT);
    assert!(!g.game_over);
    assert!(g.circles.is_empty());
    assert_eq!(g.score, 0);
    assert_eq!(g.spawn_timer, 0);
    assert_eq!(g.player.x, 380 * UNIT);
    assert_eq!(g.spawn_interval, frozen.spawn_interval);
    // the restart frame itself moves nothing
    assert_eq!(g.player.vel, frozen.player.vel);
    g.frame(16, true, false, true, WIDTH, HEIGHT);
    assert_eq!(g.player.vel, -8 * PER_SECOND);
    assert_eq!(g.spawn_timer, 16);
}

#[test]
fn a_running_game_ignores_the_restart_key() {
    let mut g = Game::new(WIDTH, HEIGHT);
    g.score = 9;
    g.frame(16, false, false, true, WIDTH, HEIGHT);
    assert_eq!(g.score, 9);
    assert_eq!(g.spawn_timer, 16);
}

#[test]
fn a_long_game_by_chance_keeps_its_shape() {
    let mut g = Game::new(WIDTH, HEIGHT);
    let mut spawned = 0u32;
    let mut seed: u64 = 0x9e37_79b9_7f4a_7c15;
    for _ in 0..20_000 {
        seed ^= seed << 13;
        seed ^= seed >> 7;
        seed ^= seed << 17;
        let before = g.circles.len();
        let score = g.score;
        let over = g.game_over;
        let due = g.spawn_timer + 16 >= g.spawn_interval;
        g.frame(16, seed & 1 == 1, seed & 2 == 2, seed & 12 == 12, WIDTH, HEIGHT);
        assert!(g.is_valid());
        assert!(0 <= g.player.x && g.player.x <= WIDTH - PLAYER_SIZE);
        if !over {
            let taken = (g.score - score) as usize;
            assert_eq!(g.circles.len() + taken, before + usize::from(due));
            if due {
                spawned += 1;
                let c = g.circles[g.circles.len() - 1];
                assert_eq!(c.radius, (40 + 2 * g.score as i64) * UNIT);
                assert_eq!(c.speed, (200 + 10 * g.score as i64) * PER_SECOND);
                assert_eq!(c.y, START_Y);
                assert!(40 * UNIT <= c.x && c.x <= 760 * UNIT);
                assert_eq!(g.spawn_timer, 0);
            }
        }
        for c in g.circles.iter() {
            assert!(c.y - c.radius <= HEIGHT || g.game_over && over);
        }
    }
    assert!(spawned > 100);
}

#[test]
fn update_by_chance_spawns_like_update_with() {
    let mut g = Game::new(WIDTH, HEIGHT);
    g.score = 3;
    g.spawn_timer = 999;
    g.circles.push(circle(100 * UNIT, 0));
    g.update(1, false, false, WIDTH, HEIGHT);
    assert_eq!(g.circles.len(), 2);
    assert_eq!(g.circles[0], circle(100 * UNIT, 200_000));
    let c = g.circles[1];
    assert_eq!(c.radius, 46 * UNIT);
    assert_eq!(c.speed, 230 * PER_SECOND);
    assert_eq!(c.y, START_Y);
    assert!(40 * UNIT <= c.x && c.x <= 760 * UNIT);
    assert_eq!(g.spawn_timer, 0);
    assert!(800 <= g.spawn_interval && g.spawn_interval <= 1200);
    let mut same = copy_of(&g);
    same.circles.pop();
    same.spawn_timer = 999;
    same.circles[0] = circle(100 * UNIT, 0);
    same.spawn_interval = 1000;
    same.update_with(1, false, false, WIDTH, HEIGHT, c.x, g.spawn_interval as i64);
    assert_eq!(same, g);
}

#[test]
fn invalid_games_are_told_apart() {
    let mut g = Game::new(WIDTH, HEIGHT);
    assert!(g.is_valid());
    g.spawn_timer = 1000;
    assert!(!g.is_valid());
    g.spawn_timer = 999;
    assert!(g.is_valid());
    g.spawn_interval = 1201;
    assert!(!g.is_valid());
    g.spawn_interval = 1200;
    assert!(g.is_valid());
    g.spawn_interval = 799;
    g.spawn_timer = 0;
    assert!(!g.is_valid());
    g.spawn_interval = 800;
    assert!(g.is_valid());
    g.circles.push(circle(0, 0));
    g.circles.push(FallingCircle { x: 0, y: 0, radius: -1, speed: 0 });
    g.circles.push(circle(0, 0));
    assert!(!g.is_valid());
    g.circles.remove(1);
    assert!(g.is_valid());
    g.player.size = -1;
    assert!(!g.is_valid());
}
