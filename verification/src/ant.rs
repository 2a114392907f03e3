//! A single ant: its state, its short memory and its movement rules.

use crate::config::FULL_INTENSITY;
use crate::environment::Environment;
use crate::frame::{pixel, Paint, RenderError, Viewport};
use crate::geometry::{
    aligned, clamp_into, clamped, direction_between, distance, lemma_walk_approaches,
    lemma_walk_composes, offset_between, step_toward, visits, waypoint,
};
use crate::random::{sample_inclusive, sample_ratio};
use vstd::prelude::*;

verus! {

/// Number of positions an ant remembers.
pub const MEMORY_DEPTH: usize = 3;

/// Number of random steps an ant tries before it gives up for the tick.
pub const WANDER_ATTEMPTS: usize = 10;

/// An ant wanders in one of `WANDER_ODDS` ticks on which nothing else moves it.
pub const WANDER_ODDS: u32 = 10;

/// One forager of the colony.
#[derive(Clone, Copy, Debug)]
pub struct Ant {
    x: usize,
    y: usize,
    last_positions: [(usize, usize); MEMORY_DEPTH],
    carrying_food: bool,
}

/// The mathematical model of an ant.
pub struct AntView {
    /// The cell the ant stands on.
    pub position: (usize, usize),
    /// The last positions visited, oldest first.
    pub memory: Seq<(usize, usize)>,
    /// Whether the ant is returning to the nest with food.
    pub carrying_food: bool,
}

impl AntView {
    /// The memory holds `MEMORY_DEPTH` positions, the newest of which is the
    /// cell the ant stands on.
    pub open spec fn wf(self) -> bool {
        self.memory.len() == MEMORY_DEPTH && self.memory[MEMORY_DEPTH - 1] == self.position
    }

    /// Whether the ant stands on the grid of `env`.
    pub open spec fn within(self, env: &Environment) -> bool {
        env.in_bounds(self.position.0 as int, self.position.1 as int)
    }

    /// Whether the ant remembers the cell `p`.
    pub open spec fn remembers(self, p: (usize, usize)) -> bool {
        self.memory.contains(p)
    }

    /// The memory after a move to `p`: the oldest position is forgotten, `p`
    /// is the newest.
    pub open spec fn memory_after(self, p: (usize, usize)) -> Seq<(usize, usize)> {
        self.memory.drop_first().push(p)
    }

    /// The ant after a move to `p`.
    pub open spec fn moved_to(self, p: (usize, usize)) -> AntView {
        AntView { position: p, memory: self.memory_after(p), carrying_food: self.carrying_food }
    }

    /// The ant after the first `steps` steps of a straight walk from `from`
    /// to `to`, each of which is a move.
    pub open spec fn walked(self, from: (usize, usize), to: (usize, usize), steps: int) -> AntView
        decreases steps,
    {
        if steps <= 0 {
            self
        } else {
            self.walked(from, to, steps - 1).moved_to(waypoint(from, to, steps))
        }
    }

    /// The cell that a step by `(dx, dy)` leads to: the sum, clamped to the
    /// grid of `env`.
    pub open spec fn candidate(self, env: &Environment, dx: int, dy: int) -> (usize, usize) {
        (
            clamped(self.position.0 as int + dx, 0, env.width as int - 1) as usize,
            clamped(self.position.1 as int + dy, 0, env.height as int - 1) as usize,
        )
    }

    /// What shows the ant: one paint while it carries food, another while
    /// it forages.
    pub open spec fn paint(self) -> Paint {
        if self.carrying_food {
            Paint::Carrying
        } else {
            Paint::Foraging
        }
    }

    /// The vector from the nest of `env` to the ant.
    pub open spec fn heading(self, env: &Environment) -> (int, int) {
        offset_between(env.nest_position, self.position)
    }

    /// The heading as a direction, as it is stored in the pheromone field.
    pub open spec fn heading_direction(self, env: &Environment) -> (i32, i32) {
        (self.heading(env).0 as i32, self.heading(env).1 as i32)
    }

    /// The `k`-th cell of the neighborhood, for `k` from 0 to 8: columns from
    /// left to right, each from top to bottom, clamped to the grid. The
    /// fifth, `k == 4`, is the ant's own cell.
    pub open spec fn neighbor(self, env: &Environment, k: int) -> (usize, usize) {
        self.candidate(env, k / 3 - 1, k % 3 - 1)
    }

    /// The intensity of the pheromone at the `k`-th neighbor, zero if the
    /// cell is empty.
    pub open spec fn lure(self, env: &Environment, k: int) -> u64 {
        match env.cell_at(self.neighbor(env, k).0 as int, self.neighbor(env, k).1 as int) {
            Some((intensity, _)) => intensity,
            None => 0,
        }
    }

    /// Whether the `k`-th neighbor draws the ant: it is not the ant's own
    /// offset, holds a pheromone above the trail threshold whose direction
    /// agrees with the ant's heading, and is not remembered.
    pub open spec fn attracted(self, env: &Environment, k: int) -> bool {
        &&& k != 4
        &&& !self.remembers(self.neighbor(env, k))
        &&& match env.cell_at(self.neighbor(env, k).0 as int, self.neighbor(env, k).1 as int) {
            Some((intensity, direction)) => intensity > env.trail_threshold && aligned(
                self.heading_direction(env),
                direction,
            ),
            None => false,
        }
    }

    /// Whether the `k`-th neighbor is the one to follow: it draws the ant
    /// with an intensity that no other neighbor exceeds, and is the last in
    /// the scan among those that match it.
    pub open spec fn favors(self, env: &Environment, k: int) -> bool {
        &&& 0 <= k < 9
        &&& self.attracted(env, k)
        &&& forall|j: int|
            0 <= j < 9 && #[trigger] self.attracted(env, j) ==> self.lure(env, j) < self.lure(
                env,
                k,
            ) || (self.lure(env, j) == self.lure(env, k) && j <= k)
    }

    /// What a random walk may make of the ant: it stays as it is, or it has
    /// moved to a neighbor that it did not remember.
    pub open spec fn wanders_to(self, env: &Environment, after: AntView) -> bool {
        after == self || exists|k: int|
            0 <= k < 9 && !self.remembers(#[trigger] self.neighbor(env, k)) && after
                == self.moved_to(self.neighbor(env, k))
    }

    /// What following a trail may make of the ant: it has moved to the
    /// favored neighbor, or, where no neighbor draws it, it has wandered.
    pub open spec fn follows_to(self, env: &Environment, after: AntView) -> bool {
        &&& forall|k: int| #[trigger] self.favors(env, k) ==> after == self.moved_to(self.neighbor(env, k))
        &&& (forall|k: int| 0 <= k < 9 ==> !#[trigger] self.attracted(env, k)) ==> self.wanders_to(
            env,
            after,
        )
    }
}

/// Whether `after` is `before` with a fresh trail from `from` to the nest:
/// every cell the walk enters holds a pheromone of full intensity pointing
/// from the nest to `from`, and nothing else has changed.
pub open spec fn trail_laid(before: &Environment, after: &Environment, from: (usize, usize)) -> bool {
    &&& after.same_but_field(before)
    &&& forall|x: int, y: int|
        #![trigger after.cell_at(x, y)]
        after.cell_at(x, y) == if visits(
            from,
            before.nest_position,
            distance(from, before.nest_position),
            x,
            y,
        ) {
            Some(
                (
                    FULL_INTENSITY,
                    (
                        offset_between(before.nest_position, from).0 as i32,
                        offset_between(before.nest_position, from).1 as i32,
                    ),
                ),
            )
        } else {
            before.cell_at(x, y)
        }
}

/// Whether `after` is `before` without the first food item at `p`.
pub open spec fn food_taken(before: &Environment, after: &Environment, p: (usize, usize)) -> bool {
    &&& *after == (Environment { food_positions: after.food_positions, ..*before })
    &&& exists|index: int| #[trigger]
        before.first_food_at(index, p) && after.food_positions@ == before.food_positions@.remove(
            index,
        )
}

/// Whether `after` is `before` with one more delivery counted.
pub open spec fn food_delivered(before: &Environment, after: &Environment) -> bool {
    &&& *after == (Environment { food_delivered: after.food_delivered, ..*before })
    &&& after.food_delivered == if before.food_delivered == u64::MAX {
        u64::MAX
    } else {
        (before.food_delivered + 1) as u64
    }
}

/// The outcomes of one tick of one ant. A carrying ant delivers at the nest
/// or else walks there, laying a trail. A foraging ant picks up the food it
/// stands on; without food it follows a trail if its cell holds a
/// significant pheromone; otherwise it wanders or stays.
pub open spec fn ticked(
    ant: AntView,
    env: &Environment,
    ant_after: AntView,
    env_after: &Environment,
) -> bool {
    if ant.carrying_food {
        if ant.position == env.nest_position {
            &&& ant_after == (AntView { carrying_food: false, ..ant })
            &&& food_delivered(env, env_after)
        } else {
            &&& ant_after == ant.walked(
                ant.position,
                env.nest_position,
                distance(ant.position, env.nest_position),
            )
            &&& trail_laid(env, env_after, ant.position)
        }
    } else if env.food_positions@.contains(ant.position) {
        &&& ant_after == (AntView { carrying_food: true, ..ant })
        &&& food_taken(env, env_after, ant.position)
    } else {
        &&& *env_after == *env
        &&& if env.cell_at(ant.position.0 as int, ant.position.1 as int) matches Some(
            (intensity, _),
        ) && intensity > env.decay_threshold {
            ant.follows_to(env, ant_after)
        } else {
            ant.wanders_to(env, ant_after)
        }
    }
}

impl View for Ant {
    type V = AntView;

    closed spec fn view(&self) -> AntView {
        AntView {
            position: (self.x, self.y),
            memory: self.last_positions@,
            carrying_food: self.carrying_food,
        }
    }
}

impl Ant {
    /// An ant at `(x, y)` that carries nothing and remembers only its
    /// starting cell.
    pub fn new(x: usize, y: usize) -> (ant: Self)
        ensures
            ant@.position == (x, y),
            ant@.memory == seq![(x, y), (x, y), (x, y)],
            !ant@.carrying_food,
            ant@.wf(),
    {
        Self { x, y, last_positions: [(x, y), (x, y), (x, y)], carrying_food: false }
    }

    /// The cell the ant stands on.
    pub fn position(&self) -> (p: (usize, usize))
        ensures
            p == self@.position,
    {
        (self.x, self.y)
    }

    /// Whether the ant carries food.
    pub fn is_carrying_food(&self) -> (r: bool)
        ensures
            r == self@.carrying_food,
    {
        self.carrying_food
    }

    /// The remembered positions, oldest first.
    pub fn last_positions(&self) -> (r: [(usize, usize); MEMORY_DEPTH])
        ensures
            r@ == self@.memory,
    {
        self.last_positions
    }

    /// Pushes `(new_x, new_y)` into the memory and evicts the oldest entry.
    fn update_position_memory(&mut self, new_x: usize, new_y: usize)
        ensures
            final(self)@.memory == old(self)@.memory_after((new_x, new_y)),
            final(self)@.position == old(self)@.position,
            final(self)@.carrying_food == old(self)@.carrying_food,
    {
        self.last_positions[0] = self.last_positions[1];
        self.last_positions[1] = self.last_positions[2];
        self.last_positions[2] = (new_x, new_y);
        assert(self.last_positions@ =~= old(self).last_positions@.drop_first().push((new_x, new_y)));
    }

    /// Whether `(x, y)` is one of the remembered positions.
    pub fn is_position_in_memory(&self, x: usize, y: usize) -> (r: bool)
        ensures
            r == self@.remembers((x, y)),
    {
        let mut i: usize = 0;
        while i < MEMORY_DEPTH
            invariant
                i <= MEMORY_DEPTH,
                forall|j: int| 0 <= j < i ==> self.last_positions@[j] != (x, y),
            decreases MEMORY_DEPTH - i,
        {
            let p = self.last_positions[i];
            if p.0 == x && p.1 == y {
                return true;
            }
            i += 1;
        }
        false
    }

    /// Moves the ant to `(x, y)` and remembers the move.
    fn move_to(&mut self, x: usize, y: usize)
        ensures
            final(self)@ == old(self)@.moved_to((x, y)),
            final(self)@.wf(),
    {
        self.update_position_memory(x, y);
        self.x = x;
        self.y = y;
    }

    /// Tries the step `(dx, dy)`: the target is clamped to the grid, and the
    /// ant moves there unless it remembers the cell. Returns whether it moved.
    pub fn try_step(&mut self, environment: &Environment, dx: i32, dy: i32) -> (moved: bool)
        requires
            old(self)@.wf(),
            environment.wf(),
            old(self)@.within(environment),
        ensures
            final(self)@.wf(),
            final(self)@.within(environment),
            moved == !old(self)@.remembers(old(self)@.candidate(environment, dx as int, dy as int)),
            moved ==> final(self)@ == old(self)@.moved_to(
                old(self)@.candidate(environment, dx as int, dy as int),
            ),
            !moved ==> final(self)@ == old(self)@,
    {
        let nx = clamp_into(self.x, dx, 0, environment.width - 1);
        let ny = clamp_into(self.y, dy, 0, environment.height - 1);
        if self.is_position_in_memory(nx, ny) {
            false
        } else {
            self.move_to(nx, ny);
            true
        }
    }

    /// Walks up to `steps` cells straight toward `(target_x, target_y)`,
    /// stopping on arrival. Every cell entered is remembered.
    pub fn move_toward(&mut self, target_x: usize, target_y: usize, steps: usize)
        requires
            old(self)@.wf(),
        ensures
            final(self)@.wf(),
            final(self)@ == old(self)@.walked(
                old(self)@.position,
                (target_x, target_y),
                if steps <= distance(old(self)@.position, (target_x, target_y)) {
                    steps as int
                } else {
                    distance(old(self)@.position, (target_x, target_y))
                },
            ),
    {
        let ghost from = self@.position;
        let ghost to = (target_x, target_y);
        let mut taken: usize = 0;
        while taken < steps && (self.x != target_x || self.y != target_y)
            invariant
                self@.wf(),
                taken <= steps,
                taken <= distance(from, to),
                from == old(self)@.position,
                to == (target_x, target_y),
                self@.position == waypoint(from, to, taken as int),
                self@ == old(self)@.walked(from, to, taken as int),
            decreases steps - taken,
        {
            proof {
                lemma_walk_approaches(from, to, taken as int);
                lemma_walk_composes(from, to, taken as int);
            }
            let nx = step_toward(self.x, target_x);
            let ny = step_toward(self.y, target_y);
            self.move_to(nx, ny);
            taken += 1;
        }
        proof {
            lemma_walk_approaches(from, to, taken as int);
        }
    }

    /// Whether a pheromone direction agrees with the ant's own heading away
    /// from the nest: the cosine of the angle between the two exceeds 3/4.
    pub fn is_direction_valid(&self, ant_dir: (i32, i32), pheromone_dir: (i32, i32)) -> (r: bool)
        ensures
            r == aligned(ant_dir, pheromone_dir),
    {
        let a0 = ant_dir.0 as i128;
        let a1 = ant_dir.1 as i128;
        let b0 = pheromone_dir.0 as i128;
        let b1 = pheromone_dir.1 as i128;
        proof {
            lemma_product_bounded(a0 as int, b0 as int);
            lemma_product_bounded(a1 as int, b1 as int);
            lemma_product_bounded(a0 as int, a0 as int);
            lemma_product_bounded(a1 as int, a1 as int);
            lemma_product_bounded(b0 as int, b0 as int);
            lemma_product_bounded(b1 as int, b1 as int);
        }
        let d: i128 = a0 * b0 + a1 * b1;
        if d <= 0 {
            return false;
        }
        let na: i128 = a0 * a0 + a1 * a1;
        let nb: i128 = b0 * b0 + b1 * b1;
        proof {
            lemma_wide_product_bounded(d as int, d as int);
            lemma_wide_product_bounded(na as int, nb as int);
        }
        let lhs: i128 = d * d;
        let rhs: i128 = na * nb;
        // 16 * lhs > 9 * rhs, decided on quotients and remainders so that
        // neither side has to be computed.
        let q1 = lhs / 9;
        let r1 = lhs % 9;
        let q2 = rhs / 16;
        let r2 = rhs % 16;
        q1 > q2 || (q1 == q2 && 16 * r1 > 9 * r2)
    }

    /// The vector from the nest to the ant.
    pub fn calculate_direction_from_nest(&self, environment: &Environment) -> (r: (i32, i32))
        requires
            environment.wf(),
            self@.within(environment),
        ensures
            (r.0 as int, r.1 as int) == self@.heading(environment),
    {
        direction_between(environment.nest_position, (self.x, self.y))
    }

    /// Draws the ant onto a frame: the block of its cell gets the ant's
    /// color, every other pixel keeps what it showed. A buffer of the wrong
    /// length is reported and left as it is.
    pub fn render(&self, frame: &mut [u8], view: &Viewport) -> (r: Result<(), RenderError>)
        requires
            view.wf(),
        ensures
            final(frame)@.len() == old(frame)@.len(),
            match r {
                Ok(()) => {
                    &&& old(frame)@.len() == view.frame_length()
                    &&& forall|p: int|
                        0 <= p < view.pixel_count() ==> #[trigger] pixel(final(frame)@, p)
                            == if view.cell_of(p) == (
                            self@.position.0 as int,
                            self@.position.1 as int,
                        ) {
                            self@.paint().rgba()
                        } else {
                            pixel(old(frame)@, p)
                        }
                },
                Err(_) => old(frame)@.len() != view.frame_length() && final(frame)@ == old(frame)@,
            },
    {
        if frame.len() != view.frame_len() {
            return Err(RenderError::FrameLength);
        }
        let paint = if self.carrying_food {
            Paint::Carrying
        } else {
            Paint::Foraging
        };
        view.fill_cell(frame, self.x, self.y, paint.color());
        Ok(())
    }

    /// Deposits a pheromone on the cell the ant stands on.
    fn lay_pheromone(&self, environment: &mut Environment, direction: (i32, i32), intensity: u64)
        ensures
            final(environment).same_but_field(old(environment)),
            forall|cx: int, cy: int|
                #![trigger final(environment).cell_at(cx, cy)]
                final(environment).cell_at(cx, cy) == if cx == self@.position.0 && cy
                    == self@.position.1 && old(environment).has_cell(cx, cy) {
                    Some((intensity, direction))
                } else {
                    old(environment).cell_at(cx, cy)
                },
    {
        environment.add_pheromone(self.x, self.y, direction, intensity);
    }

    /// Walks the ant to the nest within one call, one cell per step, and
    /// lays a pheromone of full intensity on every cell it enters. The
    /// pheromones point from the nest to the cell where the walk began.
    /// Returns the number of steps taken.
    pub fn return_to_nest(&mut self, environment: &mut Environment) -> (steps: usize)
        requires
            old(self)@.wf(),
            old(environment).wf(),
            old(self)@.within(old(environment)),
        ensures
            steps == distance(old(self)@.position, old(environment).nest_position),
            final(self)@ == old(self)@.walked(
                old(self)@.position,
                old(environment).nest_position,
                steps as int,
            ),
            final(self)@.position == old(environment).nest_position,
            final(self)@.carrying_food == old(self)@.carrying_food,
            trail_laid(old(environment), final(environment), old(self)@.position),
            final(self)@.wf(),
            final(environment).wf(),
            final(self)@.within(final(environment)),
    {
        let direction = self.calculate_direction_from_nest(environment);
        let nest = environment.nest_position;
        let ghost from = self@.position;
        let mut steps: usize = 0;
        while self.x != nest.0 || self.y != nest.1
            invariant
                self@.wf(),
                environment.wf(),
                self@.within(environment),
                environment.same_but_field(old(environment)),
                nest == old(environment).nest_position,
                from == old(self)@.position,
                old(environment).wf(),
                old(self)@.within(old(environment)),
                (direction.0 as int, direction.1 as int) == offset_between(nest, from),
                steps <= distance(from, nest),
                self@.position == waypoint(from, nest, steps as int),
                self@ == old(self)@.walked(from, nest, steps as int),
                self@.carrying_food == old(self)@.carrying_food,
                forall|x: int, y: int|
                    #![trigger environment.cell_at(x, y)]
                    environment.cell_at(x, y) == if visits(from, nest, steps as int, x, y) {
                        Some((FULL_INTENSITY, direction))
                    } else {
                        old(environment).cell_at(x, y)
                    },
            decreases distance(from, nest) - steps,
        {
            proof {
                lemma_walk_composes(from, nest, steps as int);
                reveal_with_fuel(AntView::walked, 2);
            }
            self.move_toward(nest.0, nest.1, 1);
            self.lay_pheromone(environment, direction, FULL_INTENSITY);
            steps += 1;
            proof {
                assert forall|x: int, y: int|
                    #![trigger environment.cell_at(x, y)]
                    environment.cell_at(x, y) == if visits(from, nest, steps as int, x, y) {
                        Some((FULL_INTENSITY, direction))
                    } else {
                        old(environment).cell_at(x, y)
                    } by {
                    lemma_visits_grows(from, nest, steps as int - 1, x, y);
                }
            }
        }
        steps
    }

    /// Tries up to `WANDER_ATTEMPTS` random steps, each to a cell of the
    /// neighborhood drawn uniformly, and takes the first that leads to a
    /// cell the ant does not remember. If none does, the ant stays.
    pub fn move_randomly(&mut self, environment: &Environment, rng: &mut rand::rngs::StdRng)
        requires
            old(self)@.wf(),
            environment.wf(),
            old(self)@.within(environment),
        ensures
            old(self)@.wanders_to(environment, final(self)@),
            final(self)@.wf(),
            final(self)@.within(environment),
    {
        let mut attempt: usize = 0;
        while attempt < WANDER_ATTEMPTS
            invariant
                self@ == old(self)@,
                self@.wf(),
                environment.wf(),
                self@.within(environment),
            decreases WANDER_ATTEMPTS - attempt,
        {
            let dx = sample_inclusive(rng, -1, 1);
            let dy = sample_inclusive(rng, -1, 1);
            if self.try_step(environment, dx, dy) {
                proof {
                    let k = (dx + 1) * 3 + (dy + 1);
                    assert(k / 3 - 1 == dx && k % 3 - 1 == dy);
                    assert(old(self)@.neighbor(environment, k) == old(self)@.candidate(
                        environment,
                        dx as int,
                        dy as int,
                    ));
                }
                return ;
            }
            attempt += 1;
        }
    }

    /// Follows the trail: among the eight neighbors that hold a pheromone
    /// above the trail threshold, are not remembered, and whose direction
    /// agrees with the ant's heading, the ant moves to the one of highest
    /// intensity, the last such in the scan. Without any it moves randomly.
    pub fn move_toward_food(&mut self, environment: &Environment, rng: &mut rand::rngs::StdRng)
        requires
            old(self)@.wf(),
            environment.wf(),
            old(self)@.within(environment),
        ensures
            old(self)@.follows_to(environment, final(self)@),
            final(self)@.wf(),
            final(self)@.within(environment),
    {
        let heading = self.calculate_direction_from_nest(environment);
        let mut best: Option<(u64, usize, usize)> = None;
        let ghost mut best_k: int = 0;
        let mut k: usize = 0;
        while k < 9
            invariant
                k <= 9,
                self@ == old(self)@,
                self@.wf(),
                environment.wf(),
                self@.within(environment),
                heading == self@.heading_direction(environment),
                best is None ==> forall|j: int| 0 <= j < k ==> !#[trigger] self@.attracted(environment, j),
                best matches Some((intensity, nx, ny)) ==> {
                    &&& 0 <= best_k < k
                    &&& self@.attracted(environment, best_k)
                    &&& self@.lure(environment, best_k) == intensity
                    &&& self@.neighbor(environment, best_k) == (nx, ny)
                    &&& forall|j: int|
                        0 <= j < k && #[trigger] self@.attracted(environment, j) ==> self@.lure(
                            environment,
                            j,
                        ) < intensity || (self@.lure(environment, j) == intensity && j <= best_k)
                },
            decreases 9 - k,
        {
            if k != 4 {
                let dx: i32 = (k / 3) as i32 - 1;
                let dy: i32 = (k % 3) as i32 - 1;
                let nx = clamp_into(self.x, dx, 0, environment.width - 1);
                let ny = clamp_into(self.y, dy, 0, environment.height - 1);
                if let Some((intensity, direction)) = environment.pheromone_at(nx, ny) {
                    if intensity > environment.trail_threshold && !self.is_position_in_memory(nx, ny) {
                        if self.is_direction_valid(heading, direction) {
                            let better = match best {
                                Some((leader, _, _)) => intensity >= leader,
                                None => true,
                            };
                            if better {
                                best = Some((intensity, nx, ny));
                                proof {
                                    best_k = k as int;
                                }
                            }
                        }
                    }
                }
            }
            k += 1;
        }
        match best {
            Some((_, nx, ny)) => {
                self.move_to(nx, ny);
                proof {
                    assert forall|j: int| #[trigger] old(self)@.favors(environment, j) implies self@
                        == old(self)@.moved_to(old(self)@.neighbor(environment, j)) by {
                        assert(j == best_k);
                    }
                }
            },
            None => {
                self.move_randomly(environment, rng);
                proof {
                    assert forall|j: int| #[trigger] old(self)@.favors(environment, j) implies self@
                        == old(self)@.moved_to(old(self)@.neighbor(environment, j)) by {
                        assert(!old(self)@.attracted(environment, j));
                    }
                }
            },
        }
    }

    /// One tick of the ant. A carrying ant delivers its food if it stands on
    /// the nest, and otherwise walks to the nest, laying a trail. A foraging
    /// ant picks up the food on its cell, if any, which ends its tick. Else,
    /// on a cell with a significant pheromone it follows the trail, and on
    /// any other cell it wanders with probability one in `WANDER_ODDS`.
    pub fn update(&mut self, environment: &mut Environment, rng: &mut rand::rngs::StdRng)
        requires
            old(self)@.wf(),
            old(environment).wf(),
            old(self)@.within(old(environment)),
        ensures
            ticked(old(self)@, old(environment), final(self)@, final(environment)),
            final(self)@.wf(),
            final(environment).wf(),
            final(self)@.within(final(environment)),
    {
        if self.carrying_food {
            if self.x == environment.nest_position.0 && self.y == environment.nest_position.1 {
                self.carrying_food = false;
                environment.add_food_to_nest();
            } else {
                let _ = self.return_to_nest(environment);
            }
        } else {
            if let Some(index) = environment.find_food_near(self.x, self.y) {
                self.carrying_food = true;
                let _ = environment.remove_food(index);
            } else if environment.has_significant_pheromones(self.x, self.y) {
                self.move_toward_food(environment, rng);
            } else if sample_ratio(rng, 1, WANDER_ODDS) {
                self.move_randomly(environment, rng);
            }
        }
    }
}

/// The number of food items that an ant holds: one if it carries food.
pub open spec fn load(ant: AntView) -> int {
    if ant.carrying_food {
        1
    } else {
        0
    }
}

/// Food is neither made nor lost: whatever a tick of an ant does, the food
/// on the ground, the food the ant carries and the food delivered add up to
/// what they added up to before, as long as the delivery count has not
/// reached its ceiling.
pub proof fn lemma_tick_conserves_food(
    ant: AntView,
    env: &Environment,
    ant_after: AntView,
    env_after: &Environment,
)
    requires
        ant.wf(),
        ticked(ant, env, ant_after, env_after),
        env.food_delivered < u64::MAX,
    ensures
        env_after.food_positions@.len() + load(ant_after) + env_after.food_delivered
            == env.food_positions@.len() + load(ant) + env.food_delivered,
{
    if ant.carrying_food {
        if ant.position != env.nest_position {
            lemma_walk_keeps_load(
                ant,
                ant.position,
                env.nest_position,
                distance(ant.position, env.nest_position),
            );
        }
    } else if !env.food_positions@.contains(ant.position) {
        if exists|j: int| 0 <= j < 9 && ant.attracted(env, j) {
            let k = lemma_some_neighbor_is_favored(ant, env, 9);
            assert(ant.favors(env, k));
        }
    }
}

/// A tick of an ant keeps ant and world sound: whatever it does, the ant
/// is well-formed and on the grid afterwards, the world is well-formed, and
/// grid, nest and decay parameters are what they were.
pub proof fn lemma_tick_keeps_sound(
    ant: AntView,
    env: &Environment,
    ant_after: AntView,
    env_after: &Environment,
)
    requires
        ant.wf(),
        env.wf(),
        ant.within(env),
        ticked(ant, env, ant_after, env_after),
    ensures
        ant_after.wf(),
        env_after.wf(),
        ant_after.within(env_after),
        env_after.width == env.width,
        env_after.height == env.height,
        env_after.nest_position == env.nest_position,
        env_after.decay_per_mille == env.decay_per_mille,
        env_after.decay_threshold == env.decay_threshold,
        env_after.trail_threshold == env.trail_threshold,
{
    if ant.carrying_food {
        if ant.position == env.nest_position {
            assert forall|y: int| #[trigger] env_after.row_length(y) == env.row_length(y) by {}
        } else {
            let far = distance(ant.position, env.nest_position);
            lemma_walk_keeps_load(ant, ant.position, env.nest_position, far);
            lemma_walk_approaches(ant.position, env.nest_position, far);
        }
    } else if env.food_positions@.contains(ant.position) {
        let index = choose|index: int| #[trigger]
            env.first_food_at(index, ant.position) && env_after.food_positions@
                == env.food_positions@.remove(index);
        assert forall|y: int| #[trigger] env_after.row_length(y) == env.row_length(y) by {}
        assert forall|i: int| 0 <= i < env_after.food_positions@.len() implies env_after.in_bounds(
            (#[trigger] env_after.food_positions@[i]).0 as int,
            env_after.food_positions@[i].1 as int,
        ) by {
            assert(env_after.food_positions@[i] == env.food_positions@[if i < index {
                i
            } else {
                i + 1
            }]);
        }
    } else {
        if exists|j: int| 0 <= j < 9 && ant.attracted(env, j) {
            let k = lemma_some_neighbor_is_favored(ant, env, 9);
            assert(ant.favors(env, k));
        }
    }
}

/// Where one of the first `n` neighbors draws the ant, one of them is the
/// leader: it draws the ant at least as strongly as each of the others,
/// and is the last in the scan to do so.
pub proof fn lemma_some_neighbor_is_favored(ant: AntView, env: &Environment, n: int) -> (k: int)
    requires
        0 <= n <= 9,
        exists|j: int| 0 <= j < n && ant.attracted(env, j),
    ensures
        0 <= k < n,
        ant.attracted(env, k),
        forall|j: int|
            0 <= j < n && #[trigger] ant.attracted(env, j) ==> ant.lure(env, j) < ant.lure(env, k)
                || (ant.lure(env, j) == ant.lure(env, k) && j <= k),
    decreases n,
{
    if exists|j: int| 0 <= j < n - 1 && ant.attracted(env, j) {
        let leader = lemma_some_neighbor_is_favored(ant, env, n - 1);
        if ant.attracted(env, n - 1) && ant.lure(env, n - 1) >= ant.lure(env, leader) {
            n - 1
        } else {
            leader
        }
    } else {
        n - 1
    }
}

/// A walk changes neither whether the ant carries food nor that its memory
/// ends where it stands; it ends on the last waypoint.
pub proof fn lemma_walk_keeps_load(ant: AntView, from: (usize, usize), to: (usize, usize), steps: int)
    requires
        ant.wf(),
        ant.position == from,
        0 <= steps,
    ensures
        ant.walked(from, to, steps).carrying_food == ant.carrying_food,
        ant.walked(from, to, steps).wf(),
        ant.walked(from, to, steps).position == waypoint(from, to, steps),
    decreases steps,
{
    if steps > 0 {
        lemma_walk_keeps_load(ant, from, to, steps - 1);
    }
}

/// Extending a walk by a step adds the cell of that step to the cells it
/// enters, and no other.
proof fn lemma_visits_grows(from: (usize, usize), to: (usize, usize), steps: int, x: int, y: int)
    requires
        0 <= steps,
    ensures
        visits(from, to, steps + 1, x, y) <==> visits(from, to, steps, x, y) || (waypoint(
            from,
            to,
            steps + 1,
        ).0 == x && waypoint(from, to, steps + 1).1 == y),
{
    if visits(from, to, steps + 1, x, y) {
        let k = choose|k: int|
            1 <= k <= steps + 1 && (#[trigger] waypoint(from, to, k)).0 == x && waypoint(
                from,
                to,
                k,
            ).1 == y;
        if k <= steps {
            assert(visits(from, to, steps, x, y));
        }
    }
    if visits(from, to, steps, x, y) {
        let k = choose|k: int|
            1 <= k <= steps && (#[trigger] waypoint(from, to, k)).0 == x && waypoint(from, to, k).1
                == y;
        assert(1 <= k <= steps + 1);
    }
}

/// The product of two numbers of magnitude up to `2^31` has magnitude up to
/// `2^62`, and a square is not negative.
proof fn lemma_product_bounded(x: int, y: int)
    requires
        -0x8000_0000 <= x <= 0x8000_0000,
        -0x8000_0000 <= y <= 0x8000_0000,
    ensures
        -0x4000_0000_0000_0000 <= x * y <= 0x4000_0000_0000_0000,
        x == y ==> 0 <= x * y,
{
    assert(-0x4000_0000_0000_0000 <= x * y <= 0x4000_0000_0000_0000) by (nonlinear_arith)
        requires
            -0x8000_0000 <= x <= 0x8000_0000,
            -0x8000_0000 <= y <= 0x8000_0000,
    ;
    assert(x == y ==> 0 <= x * y) by (nonlinear_arith);
}

/// The product of two non-negative numbers up to `2^63` is at most `2^126`.
proof fn lemma_wide_product_bounded(x: int, y: int)
    requires
        0 <= x <= 0x8000_0000_0000_0000,
        0 <= y <= 0x8000_0000_0000_0000,
    ensures
        0 <= x * y <= 0x4000_0000_0000_0000_0000_0000_0000_0000,
{
    assert(0 <= x * y <= 0x4000_0000_0000_0000_0000_0000_0000_0000) by (nonlinear_arith)
        requires
            0 <= x <= 0x8000_0000_0000_0000,
            0 <= y <= 0x8000_0000_0000_0000,
    ;
}

} // verus!
