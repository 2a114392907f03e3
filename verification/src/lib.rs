//! A colony of foraging ants on a grid, coupled through a decaying pheromone
//! field.
//!
//! Ants leave the nest, wander until they stand on food, and carry it home
//! in one straight walk, laying a trail of pheromone that points from the
//! nest to where the food was. Other ants follow such trails outward. The
//! field decays every tick. All ants act in a fixed order on one shared
//! environment, so that each sees what those before it did in the same tick.

use vstd::prelude::*;

pub mod ant;
pub mod config;
pub mod environment;
pub mod frame;
pub mod geometry;
pub mod random;

use crate::ant::{
    lemma_tick_conserves_food, lemma_tick_keeps_sound, load, ticked, Ant, AntView,
};
use crate::config::{Config, ConfigError};
use crate::environment::{decayed_cell, lemma_decay_weakens, Environment};
use crate::frame::{pixel, Paint, RenderError, Rgba, Viewport};

verus! {

/// The simulation: the environment, the ants, the geometry of the frame
/// that shows them, and the random source that drives them.
pub struct Simulation {
    environment: Environment,
    ants: Vec<Ant>,
    viewport: Viewport,
    rng: rand::rngs::StdRng,
}

/// The mathematical model of a simulation. The random source is no part of
/// it: nothing is known of what it will give.
pub struct SimulationView {
    /// The shared world.
    pub environment: Environment,
    /// The ants, in the order in which they act.
    pub ants: Seq<AntView>,
    /// The geometry of the frame.
    pub viewport: Viewport,
}

/// Whether `after` is the field of `before` one tick of decay later, with
/// nothing else changed.
pub open spec fn decayed(before: &Environment, after: &Environment) -> bool {
    &&& after.same_but_field(before)
    &&& forall|x: int, y: int|
        #![trigger after.cell_at(x, y)]
        after.cell_at(x, y) == decayed_cell(
            before.cell_at(x, y),
            before.decay_per_mille,
            before.decay_threshold,
        )
}

/// What the ants show at the cell `(x, y)`, drawn in order over a pixel
/// that showed `under`: the last ant on the cell hides all before it.
pub open spec fn ants_over(ants: Seq<AntView>, x: int, y: int, under: Rgba) -> Rgba
    decreases ants.len(),
{
    if ants.len() == 0 {
        under
    } else if ants.last().position.0 == x && ants.last().position.1 == y {
        ants.last().paint().rgba()
    } else {
        ants_over(ants.drop_last(), x, y, under)
    }
}

/// The number of food items that the first `n` of the ants hold.
pub open spec fn carried(ants: Seq<AntView>, n: int) -> int
    decreases n,
{
    if n <= 0 {
        0
    } else {
        carried(ants, n - 1) + load(ants[n - 1])
    }
}

impl SimulationView {
    /// The parts fit together: the world is well-formed, every ant is
    /// well-formed and stands on the grid, and the viewport shows the whole
    /// grid.
    pub open spec fn coherent(self) -> bool {
        &&& self.environment.wf()
        &&& self.viewport.wf()
        &&& self.viewport.columns == self.environment.width
        &&& self.viewport.rows == self.environment.height
        &&& forall|i: int|
            0 <= i < self.ants.len() ==> (#[trigger] self.ants[i]).wf() && self.ants[i].within(
                &self.environment,
            )
    }

    /// The state between two ticks: the parts fit together, and every
    /// pheromone of the field is stronger than the decay threshold.
    pub open spec fn wf(self) -> bool {
        self.coherent() && self.environment.all_significant()
    }

    /// All the food there is: on the ground, held by ants, and delivered.
    pub open spec fn food_total(self) -> int {
        self.environment.food_positions@.len() + carried(self.ants, self.ants.len() as int)
            + self.environment.food_delivered
    }

    /// Whether this is the simulation that `config` describes before the
    /// first tick: the world founded on it, and all ants fresh at the nest.
    pub open spec fn founded_on(self, config: &Config) -> bool {
        &&& self.wf()
        &&& self.environment.founded_on(config)
        &&& self.viewport == config.viewport()
        &&& self.ants.len() == config.ant_count
        &&& forall|i: int|
            0 <= i < self.ants.len() ==> #[trigger] self.ants[i] == (AntView {
                position: config.nest_position,
                memory: seq![config.nest_position, config.nest_position, config.nest_position],
                carrying_food: false,
            })
    }

    /// What the frame shows at the cell `(x, y)`: the cleared background,
    /// the world drawn over it, and the ants drawn over the world.
    pub open spec fn shows(self, x: int, y: int) -> Rgba {
        ants_over(self.ants, x, y, self.environment.shade(x, y, Paint::Background.rgba()))
    }

    /// Whether `after` is one tick later than this state. The ants act in
    /// order, each on the world as the ant before it left it; `stages[i]`
    /// is the world that the `i`-th ant finds. When the last has acted, the
    /// field decays.
    pub open spec fn advances_to(self, after: SimulationView) -> bool {
        &&& after.viewport == self.viewport
        &&& after.ants.len() == self.ants.len()
        &&& exists|stages: Seq<Environment>|
            {
                &&& stages.len() == self.ants.len() + 1
                &&& stages[0] == self.environment
                &&& forall|i: int|
                    0 <= i < self.ants.len() ==> #[trigger] ticked(
                        self.ants[i],
                        &stages[i],
                        after.ants[i],
                        &stages[i + 1],
                    )
                &&& decayed(&stages[self.ants.len() as int], &after.environment)
            }
    }
}

/// Whether `states` is a run of the simulation: each state but the last is
/// followed by the state one tick later.
pub open spec fn run(states: Seq<SimulationView>) -> bool {
    forall|t: int| 0 <= t < states.len() - 1 ==> #[trigger] states[t].advances_to(states[t + 1])
}

/// While the ants act, world and ants stay sound: when the first `n` have
/// acted on `stages[0]`, leaving `stages[n]`, that world is well-formed and
/// has the grid it had, and each of those ants is well-formed and on it.
proof fn lemma_ants_keep_sound(
    before: Seq<AntView>,
    after: Seq<AntView>,
    stages: Seq<Environment>,
    n: int,
)
    requires
        0 <= n <= before.len(),
        after.len() == before.len(),
        stages.len() == before.len() + 1,
        stages[0].wf(),
        forall|i: int|
            0 <= i < before.len() ==> (#[trigger] before[i]).wf() && before[i].within(&stages[0]),
        forall|i: int|
            0 <= i < before.len() ==> #[trigger] ticked(
                before[i],
                &stages[i],
                after[i],
                &stages[i + 1],
            ),
    ensures
        stages[n].wf(),
        stages[n].width == stages[0].width,
        stages[n].height == stages[0].height,
        forall|i: int| 0 <= i < n ==> (#[trigger] after[i]).wf() && after[i].within(&stages[0]),
    decreases n,
{
    if n > 0 {
        lemma_ants_keep_sound(before, after, stages, n - 1);
        assert(before[n - 1].wf() && before[n - 1].within(&stages[0]));
        assert(ticked(before[n - 1], &stages[n - 1], after[n - 1], &stages[n - 1 + 1]));
        lemma_tick_keeps_sound(before[n - 1], &stages[n - 1], after[n - 1], &stages[n]);
    }
}

/// A tick leads from a sound state to a sound state: afterwards the world
/// is well-formed with the grid it had, every ant is well-formed and stands
/// on the grid, and every pheromone is stronger than the decay threshold.
pub proof fn lemma_tick_keeps_wf(before: SimulationView, after: SimulationView)
    requires
        before.wf(),
        before.advances_to(after),
    ensures
        after.wf(),
        after.environment.width == before.environment.width,
        after.environment.height == before.environment.height,
{
    let stages = choose|stages: Seq<Environment>|
        {
            &&& stages.len() == before.ants.len() + 1
            &&& stages[0] == before.environment
            &&& forall|i: int|
                0 <= i < before.ants.len() ==> #[trigger] ticked(
                    before.ants[i],
                    &stages[i],
                    after.ants[i],
                    &stages[i + 1],
                )
            &&& decayed(&stages[before.ants.len() as int], &after.environment)
        };
    let n = before.ants.len() as int;
    lemma_ants_keep_sound(before.ants, after.ants, stages, n);
    let acted = stages[n];
    assert forall|y: int| 0 <= y < after.environment.height implies #[trigger] after.environment.row_length(
        y,
    ) == after.environment.width by {
        assert(acted.row_length(y) == acted.width);
    }
    assert forall|x: int, y: int| (#[trigger] after.environment.cell_at(x, y)) is Some implies after.environment.cell_at(
        x,
        y,
    ).unwrap().0 > after.environment.decay_threshold by {
        if let Some((intensity, _)) = acted.cell_at(x, y) {
            lemma_decay_weakens(intensity, acted.decay_per_mille);
        }
    }
    assert forall|i: int| 0 <= i < after.ants.len() implies (#[trigger] after.ants[i]).wf()
        && after.ants[i].within(&after.environment) by {
        assert(after.ants[i].within(&stages[0]));
    }
}

/// Every state of a run that starts in a sound state is sound, and has the
/// grid that the first had.
pub proof fn lemma_run_keeps_wf(states: Seq<SimulationView>, t: int)
    requires
        run(states),
        0 <= t < states.len(),
        states[0].wf(),
    ensures
        states[t].wf(),
        states[t].environment.width == states[0].environment.width,
        states[t].environment.height == states[0].environment.height,
    decreases t,
{
    if t > 0 {
        lemma_run_keeps_wf(states, t - 1);
        assert(states[t - 1].advances_to(states[t - 1 + 1]));
        lemma_tick_keeps_wf(states[t - 1], states[t]);
    }
}

/// However many ticks pass, every ant stands on the grid: in every state
/// of a run that starts in a sound state, each ant's position lies within
/// the width and the height of the grid.
pub proof fn lemma_ants_stay_on_grid(states: Seq<SimulationView>, t: int, i: int)
    requires
        run(states),
        0 <= t < states.len(),
        states[0].wf(),
        0 <= i < states[t].ants.len(),
    ensures
        states[t].ants[i].position.0 < states[0].environment.width,
        states[t].ants[i].position.1 < states[0].environment.height,
{
    lemma_run_keeps_wf(states, t);
    assert(states[t].ants[i].within(&states[t].environment));
}

/// While the ants act, the food on the ground, in their hold and at the
/// nest adds up to what it was: after the first `n` ants have acted on
/// `stages[0]`, leaving `stages[n]`, the total is unchanged, and the
/// delivery count has grown by at most `n`.
proof fn lemma_ants_conserve_food(
    before: Seq<AntView>,
    after: Seq<AntView>,
    stages: Seq<Environment>,
    n: int,
)
    requires
        0 <= n <= before.len(),
        after.len() == before.len(),
        stages.len() == before.len() + 1,
        stages[0].food_delivered + before.len() < u64::MAX,
        forall|i: int| 0 <= i < before.len() ==> (#[trigger] before[i]).wf(),
        forall|i: int|
            0 <= i < before.len() ==> #[trigger] ticked(
                before[i],
                &stages[i],
                after[i],
                &stages[i + 1],
            ),
    ensures
        stages[n].food_delivered <= stages[0].food_delivered + n,
        stages[n].food_positions@.len() + stages[n].food_delivered + carried(after, n) - carried(
            before,
            n,
        ) == stages[0].food_positions@.len() + stages[0].food_delivered,
    decreases n,
{
    if n > 0 {
        lemma_ants_conserve_food(before, after, stages, n - 1);
        assert(before[n - 1].wf());
        assert(ticked(before[n - 1], &stages[n - 1], after[n - 1], &stages[n - 1 + 1]));
        lemma_tick_conserves_food(before[n - 1], &stages[n - 1], after[n - 1], &stages[n]);
    }
}

/// Food is neither made nor lost in a tick: the food on the ground, the
/// food that ants hold and the food delivered add up to the same total
/// before and after, as long as the delivery count stays below its ceiling.
pub proof fn lemma_tick_conserves_total(before: SimulationView, after: SimulationView)
    requires
        before.wf(),
        before.advances_to(after),
        before.environment.food_delivered + before.ants.len() < u64::MAX,
    ensures
        after.food_total() == before.food_total(),
{
    let stages = choose|stages: Seq<Environment>|
        {
            &&& stages.len() == before.ants.len() + 1
            &&& stages[0] == before.environment
            &&& forall|i: int|
                0 <= i < before.ants.len() ==> #[trigger] ticked(
                    before.ants[i],
                    &stages[i],
                    after.ants[i],
                    &stages[i + 1],
                )
            &&& decayed(&stages[before.ants.len() as int], &after.environment)
        };
    lemma_ants_conserve_food(before.ants, after.ants, stages, before.ants.len() as int);
}

impl View for Simulation {
    type V = SimulationView;

    closed spec fn view(&self) -> SimulationView {
        SimulationView {
            environment: self.environment,
            ants: self.ants@.map_values(|ant: Ant| ant@),
            viewport: self.viewport,
        }
    }
}

impl Simulation {
    /// Builds the simulation that `config` describes, with all ants at the
    /// nest. An invalid configuration is reported with its first defect.
    pub fn new(config: Config, rng: rand::rngs::StdRng) -> (r: Result<Simulation, ConfigError>)
        ensures
            match r {
                Ok(simulation) => config.valid() && simulation@.founded_on(&config),
                Err(e) => config.first_error() == Some(e),
            },
    {
        let mut rng = rng;
        let environment = match Environment::new(&config, &mut rng) {
            Ok(environment) => environment,
            Err(e) => {
                return Err(e);
            },
        };
        let viewport = match Viewport::new(
            config.width,
            config.height,
            config.scale_x,
            config.scale_y,
        ) {
            Some(viewport) => viewport,
            None => {
                return Err(ConfigError::FrameTooLarge);
            },
        };
        let mut ants: Vec<Ant> = Vec::new();
        let mut i: usize = 0;
        while i < config.ant_count
            invariant
                i <= config.ant_count,
                ants@.len() == i,
                forall|j: int|
                    0 <= j < i ==> (#[trigger] ants@[j])@ == (AntView {
                        position: config.nest_position,
                        memory: seq![
                            config.nest_position,
                            config.nest_position,
                            config.nest_position,
                        ],
                        carrying_food: false,
                    }),
            decreases config.ant_count - i,
        {
            ants.push(Ant::new(config.nest_position.0, config.nest_position.1));
            i += 1;
        }
        let simulation = Simulation { environment, ants, viewport, rng };
        proof {
            assert forall|j: int| 0 <= j < simulation@.ants.len() implies #[trigger] simulation@.ants[j]
                == (AntView {
                position: config.nest_position,
                memory: seq![config.nest_position, config.nest_position, config.nest_position],
                carrying_food: false,
            }) by {
                assert(simulation@.ants[j] == simulation.ants@[j]@);
            }
        }
        Ok(simulation)
    }

    /// The shared world.
    pub fn environment(&self) -> (environment: &Environment)
        ensures
            *environment == self@.environment,
    {
        &self.environment
    }

    /// The ants, in the order in which they act.
    pub fn ants(&self) -> (ants: &Vec<Ant>)
        ensures
            ants@.len() == self@.ants.len(),
            forall|i: int| 0 <= i < ants@.len() ==> (#[trigger] ants@[i])@ == self@.ants[i],
    {
        &self.ants
    }

    /// The geometry of the frame that `render` fills.
    pub fn viewport(&self) -> (viewport: Viewport)
        ensures
            viewport == self@.viewport,
    {
        self.viewport
    }

    /// Advances the simulation by one tick: every ant acts once, in order,
    /// on the shared world, and then the pheromone field decays once.
    pub fn update(&mut self)
        requires
            old(self)@.wf(),
        ensures
            final(self)@.wf(),
            old(self)@.advances_to(final(self)@),
    {
        let count = self.ants.len();
        let ghost mut stages: Seq<Environment> = seq![self.environment];
        let mut i: usize = 0;
        while i < count
            invariant
                i <= count,
                count == self.ants@.len(),
                count == old(self).ants@.len(),
                self.viewport == old(self).viewport,
                old(self)@.coherent(),
                self@.coherent(),
                stages.len() == i + 1,
                stages[0] == old(self).environment,
                stages[i as int] == self.environment,
                forall|j: int| i <= j < count ==> self.ants@[j] == old(self).ants@[j],
                forall|j: int|
                    0 <= j < i ==> #[trigger] ticked(
                        old(self).ants@[j]@,
                        &stages[j],
                        self.ants@[j]@,
                        &stages[j + 1],
                    ),
            decreases count - i,
        {
            let ghost before = *self;
            assert(self@.ants[i as int] == self.ants@[i as int]@);
            let mut ant = self.ants[i];
            ant.update(&mut self.environment, &mut self.rng);
            self.ants.set(i, ant);
            proof {
                stages = stages.push(self.environment);
                assert forall|j: int| 0 <= j < self@.ants.len() implies (#[trigger] self@.ants[j]).wf()
                    && self@.ants[j].within(&self.environment) by {
                    if j != i {
                        assert(self@.ants[j] == before@.ants[j]);
                        assert(before@.ants[j].within(&before.environment));
                    }
                }
            }
            i += 1;
        }
        let ghost acted = self@;
        self.environment.update_pheromones();
        proof {
            assert forall|j: int| 0 <= j < self@.ants.len() implies (#[trigger] self@.ants[j]).wf()
                && self@.ants[j].within(&self.environment) by {
                assert(acted.ants[j].wf() && acted.ants[j].within(&acted.environment));
            }
            assert forall|j: int| 0 <= j < old(self)@.ants.len() implies #[trigger] ticked(
                old(self)@.ants[j],
                &stages[j],
                self@.ants[j],
                &stages[j + 1],
            ) by {
                assert(ticked(old(self).ants@[j]@, &stages[j], self.ants@[j]@, &stages[j + 1]));
            }
        }
    }

    /// Fills `frame` with the picture of the current state: the cleared
    /// background, then food, nest and pheromones, then the ants in order.
    /// A buffer of the wrong length is reported and left as it is.
    pub fn render(&self, frame: &mut [u8]) -> (r: Result<(), RenderError>)
        requires
            self@.wf(),
        ensures
            final(frame)@.len() == old(frame)@.len(),
            match r {
                Ok(()) => {
                    &&& old(frame)@.len() == self@.viewport.frame_length()
                    &&& forall|p: int|
                        0 <= p < self@.viewport.pixel_count() ==> #[trigger] pixel(final(frame)@, p)
                            == self@.shows(
                            self@.viewport.cell_of(p).0,
                            self@.viewport.cell_of(p).1,
                        )
                },
                Err(_) => old(frame)@.len() != self@.viewport.frame_length() && final(frame)@
                    == old(frame)@,
            },
    {
        let length = self.viewport.frame_len();
        if frame.len() != length {
            return Err(RenderError::FrameLength);
        }
        let mut at: usize = 0;
        while at < length
            invariant
                at <= length,
                length == frame@.len(),
                forall|k: int| 0 <= k < at ==> #[trigger] frame@[k] == 0,
            decreases length - at,
        {
            frame[at] = 0;
            at += 1;
        }
        let ghost cleared = frame@;
        let _ = self.environment.render(frame, &self.viewport);
        let ghost view = self@.viewport;
        proof {
            assert forall|p: int| 0 <= p < view.pixel_count() implies #[trigger] pixel(frame@, p)
                == self@.environment.shade(
                view.cell_of(p).0,
                view.cell_of(p).1,
                Paint::Background.rgba(),
            ) by {
                assert(pixel(cleared, p) == Paint::Background.rgba());
            }
        }
        let count = self.ants.len();
        let mut i: usize = 0;
        while i < count
            invariant
                i <= count,
                count == self.ants@.len(),
                view == self@.viewport,
                view == self.viewport,
                view.wf(),
                frame@.len() == view.frame_length(),
                forall|p: int|
                    0 <= p < view.pixel_count() ==> #[trigger] pixel(frame@, p) == ants_over(
                        self@.ants.take(i as int),
                        view.cell_of(p).0,
                        view.cell_of(p).1,
                        self@.environment.shade(
                            view.cell_of(p).0,
                            view.cell_of(p).1,
                            Paint::Background.rgba(),
                        ),
                    ),
            decreases count - i,
        {
            let ghost before = frame@;
            let _ = self.ants[i].render(frame, &self.viewport);
            proof {
                let drawn = self@.ants.take(i as int + 1);
                assert(drawn.drop_last() == self@.ants.take(i as int));
                assert forall|p: int| 0 <= p < view.pixel_count() implies #[trigger] pixel(frame@, p)
                    == ants_over(
                    drawn,
                    view.cell_of(p).0,
                    view.cell_of(p).1,
                    self@.environment.shade(
                        view.cell_of(p).0,
                        view.cell_of(p).1,
                        Paint::Background.rgba(),
                    ),
                ) by {
                    assert(pixel(before, p) == ants_over(
                        self@.ants.take(i as int),
                        view.cell_of(p).0,
                        view.cell_of(p).1,
                        self@.environment.shade(
                            view.cell_of(p).0,
                            view.cell_of(p).1,
                            Paint::Background.rgba(),
                        ),
                    ));
                }
            }
            i += 1;
        }
        proof {
            assert(self@.ants.take(count as int) == self@.ants);
        }
        Ok(())
    }
}

} // verus!
