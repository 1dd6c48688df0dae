use rogue_core::enemy::{EnemyBuilder, RAT_ACTION_TIME};
use rogue_core::field::{Field, FieldCell};
use rogue_core::player::{Player, MOVE_TIME};
use rogue_core::pos::{Dir, Pos};
use rogue_core::state::{with_actors, ActorId, State, StepperStatus, ENEMY_COUNT};

fn open_room(w: usize, h: usize) -> Field {
    Field::new(w, h)
}

#[test]
fn blocked_player_keeps_the_turn_and_the_clock() {
    // player at (5,5), wall immediately north at (5,4), key pressed: up
    let mut f = open_room(10, 10);
    f.set_cell(5, 4, FieldCell::Wall);
    let player = Player::new(Pos { x: 5, y: 5 }, 8);
    let mut s = with_actors(f, player, Vec::new());
    let (actor, status) = s.tick(Some(Dir::North));
    assert!(matches!(actor, ActorId::PlayerActor));
    assert!(matches!(status, StepperStatus::Pending));
    assert_eq!(s.player.pos(), Pos { x: 5, y: 5 });
    assert_eq!(s.player.clock(), 0);
    // the scheduler still waits on the player next tick
    assert!(s.is_player_current_stepper());
    let (actor2, _) = s.tick(None);
    assert!(matches!(actor2, ActorId::PlayerActor));
}

#[test]
fn nearby_enemy_steps_toward_the_player() {
    // a single enemy at distance 3, not stuck: its turn is exactly one
    // axis-aligned step toward the player, along the larger component of
    // the direct vector (here y), with the wander draws neutral
    let f = open_room(20, 20);
    let player = Player::new(Pos { x: 5, y: 5 }, 8);
    let rat = EnemyBuilder::rat().pos(Pos { x: 5, y: 8 }).build();
    let mut s = with_actors(f, player, vec![rat]);
    let status = s.process_enemy(0, 500, 500);
    assert!(matches!(status, StepperStatus::Finished));
    assert_eq!(s.enemies[0].pos(), Pos { x: 5, y: 7 });
    assert_eq!(s.enemies[0].clock(), 500);
    assert_eq!(s.enemies[0].staying_steps, 0);
}

#[test]
fn distant_enemy_idles_but_still_pays_its_turn() {
    // distance 15 is past the spot threshold: no movement, stay counter
    // untouched, clock still advanced by the enemy's action time
    let f = open_room(30, 30);
    let player = Player::new(Pos { x: 5, y: 5 }, 8);
    let rat = EnemyBuilder::rat().pos(Pos { x: 5, y: 20 }).build();
    let mut s = with_actors(f, player, vec![rat]);
    let status = s.process_enemy(0, 500, 500);
    assert!(matches!(status, StepperStatus::Finished));
    assert_eq!(s.enemies[0].pos(), Pos { x: 5, y: 20 });
    assert_eq!(s.enemies[0].staying_steps, 0);
    assert_eq!(s.enemies[0].clock(), 500);
}

#[test]
fn adjacent_enemy_attacks_instead_of_moving() {
    let f = open_room(20, 20);
    let player = Player::new(Pos { x: 5, y: 5 }, 8);
    let mut rat = EnemyBuilder::rat().pos(Pos { x: 5, y: 6 }).build();
    rat.move_intent = (400, -400);
    let mut s = with_actors(f, player, vec![rat]);
    let status = s.process_enemy(0, 500, 500);
    assert!(matches!(status, StepperStatus::Finished));
    assert_eq!(s.enemies[0].pos(), Pos { x: 5, y: 6 });
    // the attack branch resets the wander intent
    assert_eq!(s.enemies[0].move_intent, (0, 0));
    assert_eq!(s.enemies[0].clock(), 500);
}

#[test]
fn blocked_enemy_gains_a_stay_count() {
    // the only free-path step is walled off; the rat's move is rejected
    let mut f = open_room(20, 20);
    f.set_cell(5, 7, FieldCell::Wall);
    let player = Player::new(Pos { x: 5, y: 5 }, 8);
    let rat = EnemyBuilder::rat().pos(Pos { x: 5, y: 8 }).build();
    let mut s = with_actors(f, player, vec![rat]);
    s.process_enemy(0, 500, 500);
    assert_eq!(s.enemies[0].pos(), Pos { x: 5, y: 8 });
    assert_eq!(s.enemies[0].staying_steps, 1);
    assert_eq!(s.enemies[0].clock(), 500);
}

#[test]
fn enemy_does_not_move_onto_another_enemy() {
    let f = open_room(20, 20);
    let player = Player::new(Pos { x: 5, y: 5 }, 8);
    let mover = EnemyBuilder::rat().pos(Pos { x: 5, y: 8 }).build();
    let blocker = EnemyBuilder::rat().pos(Pos { x: 5, y: 7 }).build();
    let mut s = with_actors(f, player, vec![mover, blocker]);
    s.process_enemy(0, 500, 500);
    assert_eq!(s.enemies[0].pos(), Pos { x: 5, y: 8 });
    assert_eq!(s.enemies[0].staying_steps, 1);
    assert_eq!(s.enemies[1].pos(), Pos { x: 5, y: 7 });
}

#[test]
fn accepted_move_brings_the_stay_count_down() {
    let f = open_room(20, 20);
    let player = Player::new(Pos { x: 5, y: 5 }, 8);
    let mut rat = EnemyBuilder::rat().pos(Pos { x: 5, y: 8 }).build();
    rat.staying_steps = 3;
    let mut s = with_actors(f, player, vec![rat]);
    // wander draws at the midpoint contribute nothing whatever the scale
    s.process_enemy(0, 500, 500);
    assert_eq!(s.enemies[0].pos(), Pos { x: 5, y: 7 });
    assert_eq!(s.enemies[0].staying_steps, 2);
}

#[test]
fn cancelled_intent_holds_position_yet_counts_as_an_accepted_move() {
    // the carried residual exactly cancels the pull toward the player, so
    // the normalised intent is zero and the "step" lands on the enemy's own
    // free cell: accepted, and the stay counter comes down
    let f = open_room(20, 20);
    let player = Player::new(Pos { x: 5, y: 5 }, 8);
    let mut rat = EnemyBuilder::rat().pos(Pos { x: 5, y: 8 }).build();
    rat.move_intent = (0, 1000);
    rat.staying_steps = 2;
    let mut s = with_actors(f, player, vec![rat]);
    s.process_enemy(0, 500, 500);
    assert_eq!(s.enemies[0].pos(), Pos { x: 5, y: 8 });
    assert_eq!(s.enemies[0].staying_steps, 1);
    assert_eq!(s.enemies[0].move_intent, (0, 0));
}

#[test]
fn scheduler_picks_the_smallest_clock_and_player_wins_ties() {
    let f = open_room(20, 20);
    let player = Player::new(Pos { x: 5, y: 5 }, 8);
    let a = EnemyBuilder::rat().pos(Pos { x: 10, y: 10 }).build();
    let b = EnemyBuilder::rat().pos(Pos { x: 11, y: 10 }).build();
    let s = with_actors(f, player, vec![a, b]);
    // everyone starts at clock 0: the player wins the tie
    assert!(matches!(s.next_stepper(), ActorId::PlayerActor));
    let mut s2 = s;
    s2.player.clock = 700;
    // both enemies tie at 0: the first in arena order is chosen
    assert!(matches!(s2.next_stepper(), ActorId::EnemyActor(0)));
    s2.enemies[0].clock = 500;
    s2.enemies[1].clock = 200;
    assert!(matches!(s2.next_stepper(), ActorId::EnemyActor(1)));
    s2.enemies[1].clock = 800;
    assert!(matches!(s2.next_stepper(), ActorId::EnemyActor(0)));
}

#[test]
fn finished_turns_alternate_by_clock() {
    // player moves (clock 1000), then the rat acts twice (500, 1000),
    // then the player again: rats at half the action time act twice as often
    let f = open_room(20, 20);
    let player = Player::new(Pos { x: 5, y: 5 }, 8);
    let rat = EnemyBuilder::rat().pos(Pos { x: 15, y: 15 }).build();
    let mut s = with_actors(f, player, vec![rat]);
    let (a1, st1) = s.tick(Some(Dir::East));
    assert!(matches!(a1, ActorId::PlayerActor));
    assert!(matches!(st1, StepperStatus::Finished));
    assert_eq!(s.player.clock(), MOVE_TIME);
    let (a2, _) = s.tick(None);
    assert!(matches!(a2, ActorId::EnemyActor(0)));
    assert_eq!(s.enemies[0].clock(), 500);
    let (a3, _) = s.tick(None);
    assert!(matches!(a3, ActorId::EnemyActor(0)));
    assert_eq!(s.enemies[0].clock(), 1000);
    // at 1000 vs 1000 the tie goes to the player
    let (a4, st4) = s.tick(Some(Dir::West));
    assert!(matches!(a4, ActorId::PlayerActor));
    assert!(matches!(st4, StepperStatus::Finished));
    assert_eq!(s.player.clock(), 2 * MOVE_TIME);
    let (a5, _) = s.tick(None);
    assert!(matches!(a5, ActorId::EnemyActor(0)));
    assert_eq!(s.enemies[0].clock(), 1500);
}

#[test]
fn fov_is_kept_while_the_player_stands_still() {
    let f = open_room(20, 20);
    let player = Player::new(Pos { x: 5, y: 5 }, 4);
    let rat = EnemyBuilder::rat().pos(Pos { x: 15, y: 15 }).build();
    let mut s = with_actors(f, player, vec![rat]);
    let before = s.fov.clone();
    // a tick in which only the enemy acts leaves the view untouched
    s.player.clock = 9000;
    s.tick(None);
    assert_eq!(s.fov, before);
}

#[test]
fn fov_follows_the_player_after_a_move() {
    let f = open_room(20, 20);
    let player = Player::new(Pos { x: 5, y: 5 }, 3);
    let mut s = with_actors(f, player, Vec::new());
    assert!(s.fov.contains(&Pos { x: 5, y: 5 }));
    assert!(s.fov.contains(&Pos { x: 8, y: 5 }));
    assert!(!s.fov.contains(&Pos { x: 9, y: 5 }));
    let (_, st) = s.tick(Some(Dir::East));
    assert!(matches!(st, StepperStatus::Finished));
    assert_eq!(s.prev_player_pos, Pos { x: 6, y: 5 });
    assert!(s.fov.contains(&Pos { x: 9, y: 5 }));
    assert!(!s.fov.contains(&Pos { x: 2, y: 5 }));
}

#[test]
fn recomputing_fov_from_the_same_origin_gives_the_same_set() {
    let mut f = open_room(20, 20);
    f.set_cell(7, 5, FieldCell::Wall);
    f.set_cell(7, 6, FieldCell::Wall);
    let first = rogue_core::fov::compute_fov(&f, Pos { x: 5, y: 5 }, 6);
    let second = rogue_core::fov::compute_fov(&f, Pos { x: 5, y: 5 }, 6);
    assert_eq!(first, second);
}

#[test]
fn walls_occlude_the_cells_behind_them() {
    let mut f = open_room(20, 20);
    f.set_cell(7, 5, FieldCell::Wall);
    let fov = rogue_core::fov::compute_fov(&f, Pos { x: 5, y: 5 }, 8);
    // the wall itself is lit, the cells straight behind it are not
    assert!(fov.contains(&Pos { x: 6, y: 5 }));
    assert!(fov.contains(&Pos { x: 7, y: 5 }));
    assert!(!fov.contains(&Pos { x: 8, y: 5 }));
    assert!(!fov.contains(&Pos { x: 9, y: 5 }));
}

#[test]
fn fov_is_bounded_by_the_radius() {
    let f = open_room(30, 30);
    let fov = rogue_core::fov::compute_fov(&f, Pos { x: 15, y: 15 }, 5);
    for p in &fov {
        let dx = (p.x - 15) as i64;
        let dy = (p.y - 15) as i64;
        assert!(dx * dx + dy * dy <= 25);
    }
    assert!(fov.contains(&Pos { x: 15, y: 10 }));
    assert!(!fov.contains(&Pos { x: 15, y: 9 }));
}

#[test]
fn populate_fails_exactly_when_the_field_is_too_full() {
    // a fully open 5x5 room has 25 empty cells: one too few for the player
    // and the 25 rats
    assert!(State::populate(Field::new(5, 5)).is_none());
    // 6x5 gives 30 empty cells: enough
    let s = State::populate(Field::new(6, 5)).expect("30 empty cells hold 26 actors");
    assert_eq!(s.enemies.len(), ENEMY_COUNT);
    assert_eq!(s.player.clock(), 0);
}

#[test]
fn new_level_spawns_the_full_population() {
    let s = State::new(80, 25).expect("a 60% open 80x25 cave holds plenty of free cells");
    assert_eq!(s.enemies.len(), ENEMY_COUNT);
    assert_eq!(s.player.clock(), 0);
    assert!(!s.field.is_wall(s.player.pos().x, s.player.pos().y));
    for e in &s.enemies {
        assert!(!s.field.is_wall(e.pos().x, e.pos().y));
        assert_ne!(e.pos(), s.player.pos());
        assert_eq!(e.clock(), 0);
        assert_eq!(e.action_time, RAT_ACTION_TIME);
        assert_eq!(e.draw_char, 'r');
        assert_eq!(e.move_intent, (0, 0));
        assert_eq!(e.staying_steps, 0);
    }
    for i in 0..s.enemies.len() {
        for j in (i + 1)..s.enemies.len() {
            assert_ne!(s.enemies[i].pos(), s.enemies[j].pos());
        }
    }
    assert!(s.can_tick());
}

#[test]
fn can_tick_spots_a_clock_near_the_limit() {
    let f = open_room(10, 10);
    let player = Player::new(Pos { x: 5, y: 5 }, 4);
    let mut s = with_actors(f, player, Vec::new());
    assert!(s.can_tick());
    s.player.clock = u64::MAX - 1;
    assert!(!s.can_tick());
}

#[test]
fn stay_count_saturates_instead_of_wrapping() {
    // walled in on all four sides, already at the counter's ceiling:
    // the rejected move must not wrap the counter around
    let mut f = open_room(20, 20);
    f.set_cell(10, 9, FieldCell::Wall);
    f.set_cell(10, 11, FieldCell::Wall);
    f.set_cell(9, 10, FieldCell::Wall);
    f.set_cell(11, 10, FieldCell::Wall);
    let player = Player::new(Pos { x: 7, y: 10 }, 4);
    let mut rat = EnemyBuilder::rat().pos(Pos { x: 10, y: 10 }).build();
    rat.staying_steps = u32::MAX;
    let mut s = with_actors(f, player, vec![rat]);
    s.process_enemy(0, 500, 500);
    assert_eq!(s.enemies[0].pos(), Pos { x: 10, y: 10 });
    assert_eq!(s.enemies[0].staying_steps, u32::MAX);
}

#[test]
fn pending_player_tick_changes_nothing_visible() {
    let f = open_room(20, 20);
    let player = Player::new(Pos { x: 5, y: 5 }, 4);
    let mut s = with_actors(f, player, Vec::new());
    let before_fov = s.fov.clone();
    let (_, st) = s.tick(None);
    assert!(matches!(st, StepperStatus::Pending));
    assert_eq!(s.player.pos(), Pos { x: 5, y: 5 });
    assert_eq!(s.player.clock(), 0);
    assert_eq!(s.fov, before_fov);
}
