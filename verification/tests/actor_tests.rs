use rogue_core::enemy::{Enemy, EnemyBuilder, RAT_ACTION_TIME};
use rogue_core::field::{Field, FieldCell};
use rogue_core::fixmath::FP;
use rogue_core::player::{Player, MOVE_TIME};
use rogue_core::pos::{Dir, Pos};
use rogue_core::state::StepperStatus;

#[test]
fn rat_builder_fills_the_species_parameters() {
    let rat = EnemyBuilder::rat().pos(Pos { x: 3, y: 4 }).build();
    assert_eq!(rat.pos(), Pos { x: 3, y: 4 });
    assert_eq!(rat.clock(), 0);
    assert_eq!(rat.action_time, RAT_ACTION_TIME);
    assert_eq!(rat.draw_char, 'r');
    assert_eq!(rat.move_intent, (0, 0));
    assert_eq!(rat.staying_steps, 0);
}

#[test]
fn enemy_new_sets_fields() {
    let e = Enemy::new('T', 5000, Pos { x: 1, y: 2 });
    assert_eq!(e.draw_char, 'T');
    assert_eq!(e.action_time, 5000);
    assert_eq!(e.pos(), Pos { x: 1, y: 2 });
    assert_eq!(e.clock(), 0);
}

#[test]
fn player_moves_and_pays_move_time() {
    let f = Field::new(10, 10);
    let mut p = Player::new(Pos { x: 5, y: 5 }, 8);
    assert_eq!(p.clock(), 0);
    let st = p.process(&f, Some(Dir::East));
    assert!(matches!(st, StepperStatus::Finished));
    assert_eq!(p.pos(), Pos { x: 6, y: 5 });
    assert_eq!(p.clock(), MOVE_TIME);
}

#[test]
fn player_without_input_stays_pending() {
    let f = Field::new(10, 10);
    let mut p = Player::new(Pos { x: 5, y: 5 }, 8);
    let st = p.process(&f, None);
    assert!(matches!(st, StepperStatus::Pending));
    assert_eq!(p.pos(), Pos { x: 5, y: 5 });
    assert_eq!(p.clock(), 0);
}

#[test]
fn player_rejects_a_move_into_a_wall() {
    let mut f = Field::new(10, 10);
    f.set_cell(5, 4, FieldCell::Wall);
    let mut p = Player::new(Pos { x: 5, y: 5 }, 8);
    let st = p.process(&f, Some(Dir::North));
    assert!(matches!(st, StepperStatus::Pending));
    assert_eq!(p.pos(), Pos { x: 5, y: 5 });
    assert_eq!(p.clock(), 0);
}

#[test]
fn player_rejects_a_move_off_the_field() {
    let f = Field::new(10, 10);
    let mut p = Player::new(Pos { x: 0, y: 0 }, 8);
    let st = p.process(&f, Some(Dir::West));
    assert!(matches!(st, StepperStatus::Pending));
    assert_eq!(p.pos(), Pos { x: 0, y: 0 });
}

#[test]
fn chase_step_heads_straight_for_the_player() {
    // player due north at distance 3, no carried intent, not stuck:
    // the step is one cell north and the residual comes back to zero
    let e = EnemyBuilder::rat().pos(Pos { x: 5, y: 8 }).build();
    let (intent, target) = e.chase_step(Pos { x: 5, y: 5 }, 500, 500);
    assert_eq!(target, Pos { x: 5, y: 7 });
    assert_eq!(intent, (0, 0));
}

#[test]
fn chase_step_picks_the_larger_axis() {
    // player at (5,5), enemy at (8,6): the direct vector is (-3,-1),
    // so the step goes along x
    let e = EnemyBuilder::rat().pos(Pos { x: 8, y: 6 }).build();
    let (intent, target) = e.chase_step(Pos { x: 5, y: 5 }, 500, 500);
    assert_eq!(target, Pos { x: 7, y: 6 });
    // the y residual keeps the southward leaning for later turns
    assert!(intent.1 < 0);
    assert!(-FP <= intent.0 && intent.0 <= FP);
}

#[test]
fn chase_step_ties_go_to_the_x_axis() {
    let e = EnemyBuilder::rat().pos(Pos { x: 7, y: 7 }).build();
    let (_, target) = e.chase_step(Pos { x: 5, y: 5 }, 500, 500);
    assert_eq!(target, Pos { x: 6, y: 7 });
}
