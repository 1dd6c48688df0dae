//! The world aggregate and its turn scheduler: the field, the player, the
//! enemies, the memoised field of view, and the per-tick selection of the
//! actor with the smallest logical clock.

use vstd::prelude::*;

use crate::enemy::{Enemy, EnemyBuilder, ATTACK_DISTANCE2, RAT_ACTION_TIME, SPOT_DISTANCE2};
use crate::field::{Field, FieldCell, MAX_FIELD_SIDE};
use crate::fov::{compute_fov, fov_chars};
use crate::fixmath::FP;
use crate::player::{Player, MOVE_TIME};
use crate::pos::{Dir, Pos};
use crate::rng::random_below;

verus! {

/// Whether a scheduled actor finished its turn or must be retried next tick.
#[derive(Clone, Copy, PartialEq, Eq, Structural, Debug)]
pub enum StepperStatus {
    Finished,
    Pending,
}

/// A stable handle into the world's actors: the player, or the enemy at an
/// index of the enemy arena.
#[derive(Clone, Copy, PartialEq, Eq, Structural, Debug)]
pub enum ActorId {
    PlayerActor,
    EnemyActor(usize),
}

pub struct State {
    pub field: Field,
    pub fov: Vec<Pos>,
    pub player: Player,
    pub prev_player_pos: Pos,
    pub enemies: Vec<Enemy>,
    pub current_stepper: Option<ActorId>,
}

impl State {
    /// The structural world invariant: a well-formed field; a well-formed
    /// player standing on a free on-field cell; well-formed enemies, each on
    /// a free on-field cell, no two on the same cell; a current-stepper
    /// handle that points at an existing actor; and a field of view that is
    /// exactly the visible set from `prev_player_pos`.
    pub open spec fn wf(self) -> bool {
        &&& self.field.wf()
        &&& self.player.wf()
        &&& !self.field.wall_at(self.player.pos.x as int, self.player.pos.y as int)
        &&& forall|i: int| 0 <= i < self.enemies@.len() ==> (#[trigger] self.enemies@[i]).wf()
        &&& forall|i: int| 0 <= i < self.enemies@.len() ==> !self.field.wall_at(
            (#[trigger] self.enemies@[i]).pos.x as int, self.enemies@[i].pos.y as int)
        &&& forall|i: int, j: int|
            0 <= i < j < self.enemies@.len()
                ==> (#[trigger] self.enemies@[i]).pos != (#[trigger] self.enemies@[j]).pos
        &&& match self.current_stepper {
            Option::Some(ActorId::EnemyActor(i)) => i < self.enemies@.len(),
            _ => true,
        }
        &&& self.prev_player_pos.in_range()
        &&& fov_chars(self.field, self.prev_player_pos, self.player.view_radius as int, self.fov@)
        &&& forall|k: int| 0 <= k < self.fov@.len() ==> (#[trigger] self.fov@[k]).in_range()
    }

    /// The memoisation trigger is clean: the stored field of view was
    /// computed from the player's current position. Holds between ticks;
    /// inside a tick it may lapse until the tick's own recomputation.
    pub open spec fn fov_current(self) -> bool {
        self.prev_player_pos == self.player.pos
    }

    /// Whether a handle names an actor of this world.
    pub open spec fn valid_actor(self, a: ActorId) -> bool {
        match a {
            ActorId::PlayerActor => true,
            ActorId::EnemyActor(i) => i < self.enemies@.len(),
        }
    }

    /// The named actor's clock.
    pub open spec fn clock_of(self, a: ActorId) -> int {
        match a {
            ActorId::PlayerActor => self.player.clock as int,
            ActorId::EnemyActor(i) => self.enemies@[i as int].clock as int,
        }
    }

    /// The scheduler's tie-break order: the player first, then the enemies
    /// in arena order.
    pub open spec fn actor_order(a: ActorId) -> int {
        match a {
            ActorId::PlayerActor => 0,
            ActorId::EnemyActor(i) => i + 1,
        }
    }

    /// No actor's clock is close enough to the counter limit for one more
    /// turn to overflow it.
    pub open spec fn clocks_ok(self) -> bool {
        &&& self.player.clock + MOVE_TIME <= u64::MAX
        &&& forall|i: int| 0 <= i < self.enemies@.len()
            ==> (#[trigger] self.enemies@[i]).clock + self.enemies@[i].action_time <= u64::MAX
    }

    /// Run-time check for `clocks_ok`, so an unverified caller can test the
    /// tick precondition before calling.
    pub fn can_tick(&self) -> (r: bool)
        ensures
            r == self.clocks_ok(),
    {
        if !(self.player.clock <= u64::MAX - MOVE_TIME) {
            return false;
        }
        let mut i: usize = 0;
        while i < self.enemies.len()
            invariant
                i <= self.enemies@.len(),
                self.player.clock + MOVE_TIME <= u64::MAX,
                forall|j: int| 0 <= j < i
                    ==> (#[trigger] self.enemies@[j]).clock + self.enemies@[j].action_time
                        <= u64::MAX,
            decreases self.enemies@.len() - i,
        {
            let e = &self.enemies[i];
            if !(e.clock <= u64::MAX - e.action_time) {
                return false;
            }
            i = i + 1;
        }
        true
    }

    /// Whether some enemy other than the one at index `i` occupies (x, y).
    pub open spec fn occupied_by_other(self, i: int, x: int, y: int) -> bool {
        exists|j: int|
            0 <= j < self.enemies@.len() && j != i && (#[trigger] self.enemies@[j]).pos == (Pos {
                x: x as i32,
                y: y as i32,
            })
    }

    /// Whether the enemy at index `i` may move onto (x, y): no wall there
    /// and no other enemy there. The player's cell is the attack branch's
    /// business, not movement's.
    pub open spec fn enemy_can_move(self, i: int, x: int, y: int) -> bool {
        !self.field.wall_at(x, y) && !self.occupied_by_other(i, x, y)
    }

    /// Run-time check for `enemy_can_move`.
    fn enemy_can_move_exec(&self, i: usize, target: Pos) -> (r: bool)
        requires
            self.wf(),
            i < self.enemies@.len(),
        ensures
            r == self.enemy_can_move(i as int, target.x as int, target.y as int),
    {
        if self.field.is_wall(target.x, target.y) {
            return false;
        }
        let mut j: usize = 0;
        while j < self.enemies.len()
            invariant
                self.wf(),
                i < self.enemies@.len(),
                j <= self.enemies@.len(),
                forall|m: int|
                    0 <= m < j && m != i ==> (#[trigger] self.enemies@[m]).pos != target,
            decreases self.enemies@.len() - j,
        {
            if j != i {
                let p = self.enemies[j].pos;
                if p.x == target.x && p.y == target.y {
                    proof {
                        assert(self.enemies@[j as int].pos == target);
                    }
                    return false;
                }
            }
            j = j + 1;
        }
        true
    }

    /// One enemy turn, as a function of the world, the enemy's index and the
    /// two wander draws. The clock always advances by the enemy's own action
    /// time. In attack range the wander intent resets and combat is left to
    /// a collaborator; in spot range the enemy chases, its step accepted
    /// only onto a free cell, the stay counter falling toward zero on
    /// acceptance and rising on rejection; further away it idles.
    pub open spec fn enemy_turn_spec(self, i: int, rx: int, ry: int) -> Enemy {
        let e = self.enemies@[i];
        let nc = (e.clock + e.action_time) as u64;
        let d2 = e.pos.dist2_spec(self.player.pos);
        if d2 <= ATTACK_DISTANCE2 {
            Enemy { clock: nc, move_intent: (0i64, 0i64), ..e }
        } else if d2 < SPOT_DISTANCE2 {
            let r = e.chase_spec(self.player.pos, rx, ry);
            let ni = (r.0.0 as i64, r.0.1 as i64);
            let tx = r.1.0;
            let ty = r.1.1;
            if self.enemy_can_move(i, tx, ty) {
                Enemy {
                    clock: nc,
                    pos: Pos { x: tx as i32, y: ty as i32 },
                    move_intent: ni,
                    staying_steps: if e.staying_steps > 0 {
                        (e.staying_steps - 1) as u32
                    } else {
                        0
                    },
                    ..e
                }
            } else {
                Enemy {
                    clock: nc,
                    move_intent: ni,
                    staying_steps: if e.staying_steps < u32::MAX {
                        (e.staying_steps + 1) as u32
                    } else {
                        e.staying_steps
                    },
                    ..e
                }
            }
        } else {
            Enemy { clock: nc, ..e }
        }
    }

    /// One enemy turn at run time, with the wander draws passed in, so the
    /// outcome is a function of its arguments and scenarios can be replayed
    /// exactly. Always finishes; the spec function `enemy_turn_spec` says
    /// precisely what the enemy becomes.
    pub fn process_enemy(&mut self, i: usize, rx: i64, ry: i64) -> (status: StepperStatus)
        requires
            old(self).wf(),
            i < old(self).enemies@.len(),
            old(self).enemies@[i as int].clock + old(self).enemies@[i as int].action_time
                <= u64::MAX,
            0 <= rx <= FP,
            0 <= ry <= FP,
        ensures
            final(self).wf(),
            status == StepperStatus::Finished,
            final(self).enemies@ == old(self).enemies@.update(
                i as int, old(self).enemy_turn_spec(i as int, rx as int, ry as int)),
            final(self).field == old(self).field,
            final(self).player == old(self).player,
            final(self).fov == old(self).fov,
            final(self).prev_player_pos == old(self).prev_player_pos,
            final(self).current_stepper == old(self).current_stepper,
            final(self).enemies@[i as int].clock == old(self).enemies@[i as int].clock + old(
                self).enemies@[i as int].action_time,
    {
        let e = self.enemies[i];
        let nc: u64 = e.clock + e.action_time;
        let d2 = e.pos.dist2(self.player.pos);
        let e2: Enemy = if d2 <= ATTACK_DISTANCE2 {
            Enemy { clock: nc, move_intent: (0, 0), ..e }
        } else if d2 < SPOT_DISTANCE2 {
            let r = e.chase_step(self.player.pos, rx, ry);
            let ni = r.0;
            let target = r.1;
            if self.enemy_can_move_exec(i, target) {
                Enemy {
                    clock: nc,
                    pos: target,
                    move_intent: ni,
                    staying_steps: if e.staying_steps > 0 {
                        e.staying_steps - 1
                    } else {
                        0
                    },
                    ..e
                }
            } else {
                Enemy {
                    clock: nc,
                    move_intent: ni,
                    staying_steps: if e.staying_steps < u32::MAX {
                        e.staying_steps + 1
                    } else {
                        e.staying_steps
                    },
                    ..e
                }
            }
        } else {
            Enemy { clock: nc, ..e }
        };
        self.enemies.set(i, e2);
        proof {
            lemma_enemy_turn_preserves_wf(*old(self), *self, i as int, rx as int, ry as int);
        }
        StepperStatus::Finished
    }

    /// Select the actor that acts next: the first actor, in tie-break
    /// order, whose clock is the global minimum.
    pub fn next_stepper(&self) -> (a: ActorId)
        ensures
            self.valid_actor(a),
            forall|b: ActorId| self.valid_actor(b) ==> self.clock_of(a) <= self.clock_of(b),
            forall|b: ActorId|
                self.valid_actor(b) && State::actor_order(b) < State::actor_order(a)
                    ==> self.clock_of(b) > self.clock_of(a),
    {
        let mut best: ActorId = ActorId::PlayerActor;
        let mut min_clock: u64 = self.player.clock;
        let mut i: usize = 0;
        while i < self.enemies.len()
            invariant
                i <= self.enemies@.len(),
                self.valid_actor(best),
                min_clock == self.clock_of(best),
                State::actor_order(best) <= i,
                forall|b: ActorId|
                    self.valid_actor(b) && State::actor_order(b) <= i
                        ==> self.clock_of(best) <= self.clock_of(b),
                forall|b: ActorId|
                    self.valid_actor(b) && State::actor_order(b) < State::actor_order(best)
                        ==> self.clock_of(b) > self.clock_of(best),
            decreases self.enemies@.len() - i,
        {
            let clock = self.enemies[i].clock;
            if clock < min_clock {
                min_clock = clock;
                best = ActorId::EnemyActor(i);
            }
            i = i + 1;
        }
        best
    }
}

impl State {
    /// How much the named actor's clock advances when it finishes a turn.
    pub open spec fn period_of(self, a: ActorId) -> int {
        match a {
            ActorId::PlayerActor => MOVE_TIME as int,
            ActorId::EnemyActor(i) => self.enemies@[i as int].action_time as int,
        }
    }

    /// One player turn at run time; `Player::turn_spec` says exactly what
    /// happens for every input.
    pub fn process_player(&mut self, input: Option<Dir>) -> (status: StepperStatus)
        requires
            old(self).wf(),
            old(self).player.clock + MOVE_TIME <= u64::MAX,
        ensures
            final(self).wf(),
            Player::turn_spec(old(self).player, final(self).player, old(self).field, input,
                status),
            final(self).field == old(self).field,
            final(self).enemies == old(self).enemies,
            final(self).fov == old(self).fov,
            final(self).prev_player_pos == old(self).prev_player_pos,
            final(self).current_stepper == old(self).current_stepper,
    {
        let status = self.player.process(&self.field, input);
        status
    }

    /// What one scheduler step does, leaving the field of view aside: the
    /// acted actor is the cached selection or, when none is cached, the
    /// first actor holding the globally minimal clock; a finished turn
    /// clears the cache and advances the actor's clock by exactly its own
    /// period; a pending turn keeps the actor selected and changes nothing
    /// else. The enemy's wander draws are existentially quantified: the
    /// relation holds whatever the generator returned.
    pub open spec fn stepped_rel(pre: State, post: State, input: Option<Dir>, a: ActorId,
        status: StepperStatus) -> bool {
        &&& pre.valid_actor(a)
        &&& (pre.current_stepper matches Option::Some(c) ==> a == c)
        &&& (pre.current_stepper is None ==> forall|b: ActorId|
            pre.valid_actor(b) ==> pre.clock_of(a) <= pre.clock_of(b))
        &&& (pre.current_stepper is None ==> forall|b: ActorId|
            pre.valid_actor(b) && State::actor_order(b) < State::actor_order(a)
                ==> pre.clock_of(b) > pre.clock_of(a))
        &&& post.current_stepper == (if status == StepperStatus::Finished {
            Option::<ActorId>::None
        } else {
            Option::Some(a)
        })
        &&& match a {
            ActorId::PlayerActor => Player::turn_spec(pre.player, post.player, pre.field, input,
                status) && post.enemies == pre.enemies,
            ActorId::EnemyActor(i) => status == StepperStatus::Finished && post.player
                == pre.player && exists|rx: int, ry: int|
                0 <= rx <= FP && 0 <= ry <= FP && post.enemies@ == pre.enemies@.update(
                    i as int, #[trigger] pre.enemy_turn_spec(i as int, rx, ry)),
        }
        &&& (status == StepperStatus::Finished ==> post.clock_of(a) == pre.clock_of(a)
            + pre.period_of(a))
        &&& (status == StepperStatus::Pending ==> post.clock_of(a) == pre.clock_of(a)
            && post.player == pre.player && post.enemies == pre.enemies)
        &&& post.field == pre.field
        &&& post.enemies@.len() == pre.enemies@.len()
        &&& post.player.view_radius == pre.player.view_radius
    }

    /// One scheduler step: select the lowest-clock actor if none is cached,
    /// let it act once, and clear the cache when it finished. Returns the
    /// actor that acted and its status.
    pub fn process_stepper(&mut self, input: Option<Dir>) -> (r: (ActorId, StepperStatus))
        requires
            old(self).wf(),
            old(self).clocks_ok(),
        ensures
            final(self).wf(),
            State::stepped_rel(*old(self), *final(self), input, r.0, r.1),
            final(self).fov == old(self).fov,
            final(self).prev_player_pos == old(self).prev_player_pos,
    {
        let a: ActorId = match self.current_stepper {
            Option::Some(c) => c,
            Option::None => self.next_stepper(),
        };
        let status = match a {
            ActorId::PlayerActor => self.process_player(input),
            ActorId::EnemyActor(i) => {
                let rx = random_below(1001) as i64;
                let ry = random_below(1001) as i64;
                self.process_enemy(i, rx, ry)
            }
        };
        match status {
            StepperStatus::Finished => {
                self.current_stepper = Option::None;
            }
            StepperStatus::Pending => {
                self.current_stepper = Option::Some(a);
            }
        }
        (a, status)
    }

    /// Recompute the field of view from the player's current position and
    /// remember that position as the one the stored view belongs to.
    pub fn update_fov(&mut self)
        requires
            old(self).wf(),
        ensures
            final(self).wf(),
            final(self).fov_current(),
            final(self).field == old(self).field,
            final(self).player == old(self).player,
            final(self).enemies == old(self).enemies,
            final(self).current_stepper == old(self).current_stepper,
    {
        let radius = self.player.view_radius;
        let origin = self.player.pos;
        let fov = compute_fov(&self.field, origin, radius);
        self.fov = fov;
        self.prev_player_pos = origin;
    }

    /// Whether the player is the actor the scheduler is currently waiting
    /// on; a renderer shows a wait marker while it is not.
    pub fn is_player_current_stepper(&self) -> (r: bool)
        ensures
            r == (self.current_stepper == Option::Some(ActorId::PlayerActor)),
    {
        match self.current_stepper {
            Option::Some(ActorId::PlayerActor) => true,
            _ => false,
        }
    }

    /// One whole tick: one scheduler step, then, exactly when the player's
    /// position changed, a recomputation of the field of view — so the view
    /// always reflects the player's current position by the time a renderer
    /// reads it, and is left untouched on every tick in which the player
    /// did not move.
    pub fn tick(&mut self, input: Option<Dir>) -> (r: (ActorId, StepperStatus))
        requires
            old(self).wf(),
            old(self).fov_current(),
            old(self).clocks_ok(),
        ensures
            final(self).wf(),
            final(self).fov_current(),
            State::stepped_rel(*old(self), *final(self), input, r.0, r.1),
            old(self).player.pos == final(self).player.pos ==> final(self).fov == old(self).fov,
            fov_chars(final(self).field, final(self).player.pos,
                final(self).player.view_radius as int, final(self).fov@),
    {
        let r = self.process_stepper(input);
        let moved = {
            let p = self.player.pos;
            let q = self.prev_player_pos;
            p.x != q.x || p.y != q.y
        };
        if moved {
            self.update_fov();
        }
        r
    }
}

/// A free cell: an in-range position the map oracle reports no wall at.
pub open spec fn free_cell(field: Field, p: Pos) -> bool {
    !field.wall_at(p.x as int, p.y as int) && p.in_range()
}

/// No position occurs twice.
pub open spec fn distinct_posns(s: Seq<Pos>) -> bool {
    forall|i: int, j: int| 0 <= i < j < s.len() ==> s[i] != s[j]
}

/// Take a uniformly chosen element out of a vector: some element leaves and
/// the rest keep their order.
pub fn remove_random<E>(v: &mut Vec<E>) -> (e: E)
    requires
        1 <= old(v)@.len() < u32::MAX,
    ensures
        exists|k: int|
            0 <= k < old(v)@.len() && e == old(v)@[k] && final(v)@ == #[trigger] old(v)@.remove(
                k),
{
    let idx = random_below(v.len() as u32) as usize;
    v.remove(idx)
}

/// What `remove_random` leaves of a duplicate-free pool: one copy fewer, the
/// taken element was in the pool and is in the rest no longer, the rest is
/// still duplicate-free and drawn wholly from the pool.
pub proof fn lemma_pool_after_removal(pool: Seq<Pos>, rest: Seq<Pos>, p: Pos)
    requires
        distinct_posns(pool),
        exists|k: int| 0 <= k < pool.len() && p == pool[k] && rest == #[trigger] pool.remove(k),
    ensures
        rest.len() == pool.len() - 1,
        distinct_posns(rest),
        pool.contains(p),
        forall|m: int| 0 <= m < rest.len() ==> pool.contains(#[trigger] rest[m]) && rest[m] != p,
{
    let k = choose|k: int| 0 <= k < pool.len() && p == pool[k] && rest == #[trigger] pool.remove(k);
    pool.remove_ensures(k);
    assert(pool.contains(p));
    assert forall|m: int| 0 <= m < rest.len()
        implies pool.contains(#[trigger] rest[m]) && rest[m] != p by {
        if m < k {
            assert(rest[m] == pool[m]);
        } else {
            assert(rest[m] == pool[m + 1]);
        }
    }
    assert forall|m1: int, m2: int| 0 <= m1 < m2 < rest.len()
        implies rest[m1] != rest[m2] by {
        if m2 < k {
        } else if m1 < k {
            assert(rest[m1] == pool[m1] && rest[m2] == pool[m2 + 1]);
        } else {
            assert(rest[m1] == pool[m1 + 1] && rest[m2] == pool[m2 + 1]);
        }
    }
}

/// Spawn `n` rats, each at a cell taken out of the pool: the rats stand on
/// pairwise distinct former pool cells, and what is left of the pool is
/// distinct, drawn from the old pool, and disjoint from the rats.
pub fn create_enemies(cells: &mut Vec<Pos>, n: usize) -> (es: Vec<Enemy>)
    requires
        n <= old(cells)@.len() < u32::MAX,
        distinct_posns(old(cells)@),
    ensures
        es@.len() == n,
        forall|i: int| 0 <= i < n ==> {
            let e = #[trigger] es@[i];
            e.draw_char == 'r' && e.action_time == RAT_ACTION_TIME && e.clock == 0
                && e.move_intent == (0i64, 0i64) && e.staying_steps == 0
        },
        forall|i: int| 0 <= i < n ==> old(cells)@.contains((#[trigger] es@[i]).pos),
        forall|i: int, j: int| 0 <= i < j < n ==> (#[trigger] es@[i]).pos
            != (#[trigger] es@[j]).pos,
        final(cells)@.len() == old(cells)@.len() - n,
        distinct_posns(final(cells)@),
        forall|m: int| 0 <= m < final(cells)@.len()
            ==> old(cells)@.contains(#[trigger] final(cells)@[m]),
{
    let mut es: Vec<Enemy> = Vec::new();
    let mut i: usize = 0;
    while i < n
        invariant
            i <= n,
            n <= old(cells)@.len() < u32::MAX,
            cells@.len() == old(cells)@.len() - i,
            distinct_posns(cells@),
            forall|m: int| 0 <= m < cells@.len()
                ==> old(cells)@.contains(#[trigger] cells@[m]),
            es@.len() == i,
            forall|a: int| 0 <= a < i ==> {
                let e = #[trigger] es@[a];
                e.draw_char == 'r' && e.action_time == RAT_ACTION_TIME && e.clock == 0
                    && e.move_intent == (0i64, 0i64) && e.staying_steps == 0
            },
            forall|a: int| 0 <= a < i ==> old(cells)@.contains((#[trigger] es@[a]).pos),
            forall|a: int, b: int| 0 <= a < b < i ==> (#[trigger] es@[a]).pos
                != (#[trigger] es@[b]).pos,
            forall|a: int, m: int|
                0 <= a < i && 0 <= m < cells@.len() ==> (#[trigger] es@[a]).pos
                    != #[trigger] cells@[m],
        decreases n - i,
    {
        let ghost pool = cells@;
        let pos = remove_random(cells);
        proof {
            lemma_pool_after_removal(pool, cells@, pos);
            assert(old(cells)@.contains(pos)) by {
                let k = choose|k: int| 0 <= k < pool.len() && pool[k] == pos;
                assert(old(cells)@.contains(pool[k]));
            }
            assert forall|m: int| 0 <= m < cells@.len()
                implies old(cells)@.contains(#[trigger] cells@[m]) by {
                let k = choose|k: int| 0 <= k < pool.len() && pool[k] == cells@[m];
                assert(old(cells)@.contains(pool[k]));
            }
            assert forall|a: int, m: int|
                0 <= a < es@.len() && 0 <= m < cells@.len()
                implies (#[trigger] es@[a]).pos != #[trigger] cells@[m] by {
                let k = choose|k: int| 0 <= k < pool.len() && pool[k] == cells@[m];
                assert(es@[a].pos != pool[k]);
            }
        }
        let rat = EnemyBuilder::rat().pos(pos).build();
        es.push(rat);
        i = i + 1;
    }
    es
}

/// Assemble a world from a field and actors already placed on it, computing
/// the initial field of view from the player's position. This is the
/// deterministic end of world construction; `State::new` feeds it randomly
/// chosen spawn cells.
pub fn with_actors(field: Field, player: Player, enemies: Vec<Enemy>) -> (s: State)
    requires
        field.wf(),
        player.wf(),
        free_cell(field, player.pos),
        forall|i: int| 0 <= i < enemies@.len() ==> (#[trigger] enemies@[i]).wf(),
        forall|i: int| 0 <= i < enemies@.len()
            ==> free_cell(field, (#[trigger] enemies@[i]).pos),
        forall|i: int, j: int|
            0 <= i < j < enemies@.len() ==> (#[trigger] enemies@[i]).pos
                != (#[trigger] enemies@[j]).pos,
    ensures
        s.wf(),
        s.fov_current(),
        s.field == field,
        s.player == player,
        s.enemies == enemies,
        s.current_stepper is None,
{
    let origin = player.pos;
    let radius = player.view_radius;
    let fov = compute_fov(&field, origin, radius);
    State {
        field,
        fov,
        player,
        prev_player_pos: origin,
        enemies,
        current_stepper: Option::None,
    }
}

/// How many rats a fresh level holds.
pub const ENEMY_COUNT: usize = 25;

/// The view radius a fresh level gives the player.
pub const PLAYER_VIEW_RADIUS: i32 = 8;

/// In thousandths, the chance the random cave fill leaves a cell empty.
pub const CAVE_EMPTY_PROB_MILLI: u32 = 600;

/// How many smoothing passes the cave generator runs.
pub const CAVE_SMOOTH_REPEATS: usize = 1;

impl State {
    /// Build a fresh level: generate a cave, then place the player and the
    /// rats on distinct randomly chosen empty cells. The cave is random, so
    /// it may come out with fewer than the needed number of empty cells;
    /// then no world can be populated and `None` is returned.
    pub fn new(width: usize, height: usize) -> (r: Option<State>)
        requires
            1 <= width <= MAX_FIELD_SIDE,
            1 <= height <= MAX_FIELD_SIDE,
        ensures
            r matches Option::Some(s) ==> s.wf() && s.fov_current() && s.current_stepper
                is None && s.enemies@.len() == ENEMY_COUNT && s.field.width_spec() == width
                && s.field.height_spec() == height && s.player.clock == 0
                && s.player.view_radius == PLAYER_VIEW_RADIUS,
            r matches Option::Some(s) ==> forall|i: int|
                0 <= i < s.enemies@.len() ==> (#[trigger] s.enemies@[i]).pos != s.player.pos,
            r matches Option::Some(s) ==> forall|i: int| 0 <= i < s.enemies@.len() ==> {
                let e = #[trigger] s.enemies@[i];
                e.clock == 0 && e.action_time == RAT_ACTION_TIME && e.draw_char == 'r'
                    && e.move_intent == (0i64, 0i64) && e.staying_steps == 0
            },
    {
        let field = Field::cave(width, height, CAVE_EMPTY_PROB_MILLI, CAVE_SMOOTH_REPEATS);
        State::populate(field)
    }

    /// Place the player and the rats on distinct randomly chosen empty
    /// cells of an existing field. This fails exactly when the field holds
    /// fewer than `ENEMY_COUNT + 1` empty cells -- one for the player and
    /// one for each rat; with enough room, which cells the actors land on
    /// is up to the random draws, but everything else about the fresh world
    /// is pinned below.
    pub fn populate(field: Field) -> (r: Option<State>)
        requires
            field.wf(),
        ensures
            r is None <==> field.empty_count_spec() < ENEMY_COUNT + 1,
            r matches Option::Some(s) ==> s.wf() && s.fov_current() && s.current_stepper
                is None && s.enemies@.len() == ENEMY_COUNT && s.field == field
                && s.player.clock == 0 && s.player.view_radius == PLAYER_VIEW_RADIUS,
            r matches Option::Some(s) ==> forall|i: int|
                0 <= i < s.enemies@.len() ==> (#[trigger] s.enemies@[i]).pos != s.player.pos,
            r matches Option::Some(s) ==> forall|i: int| 0 <= i < s.enemies@.len() ==> {
                let e = #[trigger] s.enemies@[i];
                e.clock == 0 && e.action_time == RAT_ACTION_TIME && e.draw_char == 'r'
                    && e.move_intent == (0i64, 0i64) && e.staying_steps == 0
            },
    {
        let mut cells = field.empty_cells();
        if cells.len() < ENEMY_COUNT + 1 {
            return Option::None;
        }
        proof {
            assert(field.width_spec() * field.height_spec()
                <= MAX_FIELD_SIDE * MAX_FIELD_SIDE) by (nonlinear_arith)
                requires
                    1 <= field.width_spec() <= MAX_FIELD_SIDE,
                    1 <= field.height_spec() <= MAX_FIELD_SIDE;
        }
        proof {
            assert forall|k1: int, k2: int| 0 <= k1 < k2 < cells@.len()
                implies cells@[k1] != cells@[k2] by {
                assert(cells@[k1].y < cells@[k2].y || (cells@[k1].y == cells@[k2].y
                    && cells@[k1].x < cells@[k2].x));
            }
            assert forall|m: int| 0 <= m < cells@.len()
                implies free_cell(field, #[trigger] cells@[m]) by {
                assert(field.cell_at(cells@[m].x as int, cells@[m].y as int)
                    == FieldCell::Empty);
            }
        }
        let ghost pool0 = cells@;
        let ppos = remove_random(&mut cells);
        proof {
            lemma_pool_after_removal(pool0, cells@, ppos);
        }
        let player = Player::new(ppos, PLAYER_VIEW_RADIUS);
        let ghost pool1 = cells@;
        let enemies = create_enemies(&mut cells, ENEMY_COUNT);
        proof {
            assert forall|i: int| 0 <= i < enemies@.len()
                implies (#[trigger] enemies@[i]).wf()
                    && free_cell(field, enemies@[i].pos)
                    && enemies@[i].pos != player.pos by {
                let p = enemies@[i].pos;
                let m = choose|m: int| 0 <= m < pool1.len() && pool1[m] == p;
                assert(pool0.contains(pool1[m]));
                assert(free_cell(field, p));
            }
        }
        Option::Some(with_actors(field, player, enemies))
    }
}

/// An enemy never moves onto a wall cell or a cell occupied by another
/// enemy: whatever the wander draws, one enemy turn either leaves the enemy
/// where it was or puts it on a cell that held no wall and no other enemy.
pub proof fn lemma_enemy_move_legal(s: State, i: int, rx: int, ry: int)
    requires
        s.wf(),
        0 <= i < s.enemies@.len(),
    ensures
        ({
            let e2 = s.enemy_turn_spec(i, rx, ry);
            ||| e2.pos == s.enemies@[i].pos
            ||| s.enemy_can_move(i, e2.pos.x as int, e2.pos.y as int)
        }),
{
    let e = s.enemies@[i];
    let e2 = s.enemy_turn_spec(i, rx, ry);
    let d2 = e.pos.dist2_spec(s.player.pos);
    if ATTACK_DISTANCE2 < d2 < SPOT_DISTANCE2 {
        let r = e.chase_spec(s.player.pos, rx, ry);
        if s.enemy_can_move(i, r.1.0, r.1.1) {
            e.lemma_chase_spec_bounds(s.player.pos, rx, ry);
            assert(e2.pos.x as int == r.1.0 && e2.pos.y as int == r.1.1);
        }
    }
}

/// The stay counter moves exactly with the acceptance of a chase step: it
/// strictly rises only when a chase step was rejected (by one, until it
/// saturates), and strictly falls only when a chase step was accepted (by
/// one, toward zero). In the attack and idle branches it never changes, and
/// as an unsigned counter it can never go below zero.
pub proof fn lemma_stay_count_changes(s: State, i: int, rx: int, ry: int)
    requires
        s.wf(),
        0 <= i < s.enemies@.len(),
    ensures
        ({
            let e = s.enemies@[i];
            let e2 = s.enemy_turn_spec(i, rx, ry);
            let d2 = e.pos.dist2_spec(s.player.pos);
            let t = e.chase_spec(s.player.pos, rx, ry).1;
            &&& (e2.staying_steps > e.staying_steps ==> ATTACK_DISTANCE2 < d2 < SPOT_DISTANCE2
                && !s.enemy_can_move(i, t.0, t.1) && e2.staying_steps == e.staying_steps + 1)
            &&& (e2.staying_steps < e.staying_steps ==> ATTACK_DISTANCE2 < d2 < SPOT_DISTANCE2
                && s.enemy_can_move(i, t.0, t.1) && e2.staying_steps == e.staying_steps - 1)
            &&& (ATTACK_DISTANCE2 < d2 < SPOT_DISTANCE2 && s.enemy_can_move(i, t.0, t.1)
                ==> e2.staying_steps == if e.staying_steps > 0 {
                    (e.staying_steps - 1) as u32
                } else {
                    0
                })
            &&& (ATTACK_DISTANCE2 < d2 < SPOT_DISTANCE2 && !s.enemy_can_move(i, t.0, t.1)
                && e.staying_steps < u32::MAX ==> e2.staying_steps == e.staying_steps + 1)
            &&& (!(ATTACK_DISTANCE2 < d2 < SPOT_DISTANCE2)
                ==> e2.staying_steps == e.staying_steps)
        }),
{
}

/// One enemy turn keeps the world invariant: the changed enemy stays well
/// formed, stands on a free cell, and collides with no other enemy.
proof fn lemma_enemy_turn_preserves_wf(pre: State, post: State, i: int, rx: int, ry: int)
    requires
        pre.wf(),
        0 <= i < pre.enemies@.len(),
        pre.enemies@[i].clock + pre.enemies@[i].action_time <= u64::MAX,
        0 <= rx <= FP,
        0 <= ry <= FP,
        post.enemies@ == pre.enemies@.update(i, pre.enemy_turn_spec(i, rx, ry)),
        post.field == pre.field,
        post.player == pre.player,
        post.fov == pre.fov,
        post.prev_player_pos == pre.prev_player_pos,
        post.current_stepper == pre.current_stepper,
    ensures
        post.wf(),
{
    let e = pre.enemies@[i];
    let e2 = pre.enemy_turn_spec(i, rx, ry);
    e.lemma_chase_spec_bounds(pre.player.pos, rx, ry);
    let d2 = e.pos.dist2_spec(pre.player.pos);
    if ATTACK_DISTANCE2 < d2 < SPOT_DISTANCE2 {
        let r = e.chase_spec(pre.player.pos, rx, ry);
        if pre.enemy_can_move(i, r.1.0, r.1.1) {
            assert(!pre.field.wall_at(r.1.0, r.1.1));
            assert(pre.field.on_field(r.1.0, r.1.1));
            assert(e2.pos.in_range());
            assert forall|j: int| 0 <= j < post.enemies@.len() && j != i
                implies (#[trigger] post.enemies@[j]).pos != e2.pos by {
                assert(!pre.occupied_by_other(i, r.1.0, r.1.1));
                assert(pre.enemies@[j].pos != (Pos { x: r.1.0 as i32, y: r.1.1 as i32 }));
            }
        }
    }
    assert(e2.wf());
    assert(!post.field.wall_at(e2.pos.x as int, e2.pos.y as int));
    assert forall|a: int, b: int| 0 <= a < b < post.enemies@.len()
        implies (#[trigger] post.enemies@[a]).pos != (#[trigger] post.enemies@[b]).pos by {
        if a != i && b != i {
            assert(post.enemies@[a] == pre.enemies@[a]);
            assert(post.enemies@[b] == pre.enemies@[b]);
        }
    }
}

} // verus!
