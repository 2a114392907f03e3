//! The shared world of the colony: grid, pheromone field, food and nest.
//!
//! Intensities are fixed-point numbers with `FULL_INTENSITY` standing for 1.0;
//! directions are integer vectors between grid cells.

use crate::config::{Config, ConfigError, MAX_DIMENSION};
use crate::frame::{opacity, pixel, trail_opacity, Paint, RenderError, Rgba, Viewport};
use crate::geometry::{clamp_into, clamped, distance, gap};
use crate::random::sample_inclusive;
use vstd::prelude::*;

verus! {

/// The state that all ants of a colony share and mutate in turn.
pub struct Environment {
    /// Grid width in cells.
    pub width: usize,
    /// Grid height in cells.
    pub height: usize,
    /// Cells that hold a food item; a cell may occur more than once.
    pub food_positions: Vec<(usize, usize)>,
    /// The nest cell, where ants spawn and deliver food.
    pub nest_position: (usize, usize),
    /// The pheromone field, one row per `y`: intensity and direction, or nothing.
    pub pheromones: Vec<Vec<Option<(u64, (i32, i32))>>>,
    /// Number of food items delivered to the nest so far.
    pub food_delivered: u64,
    /// Decay factor per tick, in thousandths.
    pub decay_per_mille: u64,
    /// Intensity at or below which a decayed pheromone is cleared.
    pub decay_threshold: u64,
    /// Intensity a neighboring pheromone must exceed to be followed.
    pub trail_threshold: u64,
}

/// The intensity that is left of `intensity` after one tick of decay.
pub open spec fn decayed_intensity(intensity: u64, per_mille: u64) -> int {
    intensity * per_mille / 1000
}

/// What one tick of decay makes of a cell: an absent cell stays absent, a
/// present one keeps its direction and loses intensity, and is cleared once
/// the decayed intensity is at or below the threshold.
pub open spec fn decayed_cell(
    cell: Option<(u64, (i32, i32))>,
    per_mille: u64,
    threshold: u64,
) -> Option<(u64, (i32, i32))> {
    match cell {
        None => None,
        Some((intensity, direction)) => if decayed_intensity(intensity, per_mille) <= threshold {
            None
        } else {
            Some((decayed_intensity(intensity, per_mille) as u64, direction))
        },
    }
}

/// What `ticks` ticks of decay make of a cell.
pub open spec fn decayed_cell_after(
    cell: Option<(u64, (i32, i32))>,
    per_mille: u64,
    threshold: u64,
    ticks: nat,
) -> Option<(u64, (i32, i32))>
    decreases ticks,
{
    if ticks == 0 {
        cell
    } else {
        decayed_cell(
            decayed_cell_after(cell, per_mille, threshold, (ticks - 1) as nat),
            per_mille,
            threshold,
        )
    }
}

/// Decay never strengthens a pheromone: with a factor of at most one the
/// decayed intensity lies between zero and the intensity before.
pub proof fn lemma_decay_weakens(intensity: u64, per_mille: u64)
    requires
        per_mille <= 1000,
    ensures
        0 <= decayed_intensity(intensity, per_mille) <= intensity,
        intensity * per_mille <= intensity * 1000,
{
    assert(0 <= intensity * per_mille <= intensity * 1000) by (nonlinear_arith)
        requires
            per_mille <= 1000,
    ;
}

/// A cell that survives a tick of decay keeps its direction, is stronger
/// than the threshold, and holds the intensity it had times the decay
/// factor, rounded down to the fixed-point resolution. A cell that does not
/// survive was at or below the threshold after scaling.
pub proof fn lemma_decay_scales(
    intensity: u64,
    direction: (i32, i32),
    per_mille: u64,
    threshold: u64,
)
    requires
        per_mille <= 1000,
    ensures
        match decayed_cell(Some((intensity, direction)), per_mille, threshold) {
            Some((next, kept)) => {
                &&& kept == direction
                &&& next > threshold
                &&& 1000 * next <= intensity * per_mille < 1000 * next + 1000
            },
            None => intensity * per_mille < 1000 * (threshold + 1),
        },
{
    lemma_decay_weakens(intensity, per_mille);
}

/// A cell at or below the threshold is absent after the next tick of decay
/// and after every later one, and so is a cell that is absent already.
pub proof fn lemma_weak_cell_stays_absent(
    cell: Option<(u64, (i32, i32))>,
    per_mille: u64,
    threshold: u64,
    ticks: nat,
)
    requires
        per_mille <= 1000,
        ticks >= 1,
        cell matches Some((intensity, _)) ==> intensity <= threshold,
    ensures
        decayed_cell_after(cell, per_mille, threshold, ticks) is None,
    decreases ticks,
{
    if ticks == 1 {
        assert(decayed_cell_after(cell, per_mille, threshold, 0) == cell);
        if let Some((intensity, _)) = cell {
            lemma_decay_weakens(intensity, per_mille);
        }
    } else {
        lemma_weak_cell_stays_absent(cell, per_mille, threshold, (ticks - 1) as nat);
    }
}

/// Applies one tick of decay to a single cell.
pub fn decay_cell(cell: Option<(u64, (i32, i32))>, per_mille: u64, threshold: u64) -> (r: Option<
    (u64, (i32, i32)),
>)
    requires
        per_mille <= 1000,
    ensures
        r == decayed_cell(cell, per_mille, threshold),
{
    match cell {
        None => None,
        Some((intensity, direction)) => {
            proof {
                lemma_decay_weakens(intensity, per_mille);
            }
            let wide: u128 = intensity as u128 * per_mille as u128 / 1000;
            let next: u64 = wide as u64;
            if next <= threshold {
                None
            } else {
                Some((next, direction))
            }
        },
    }
}

/// Whether `p` lies between the margins that `config` keeps free of food.
pub open spec fn within_margins(config: &Config, p: (usize, usize)) -> bool {
    &&& config.padding <= p.0 < config.width - config.padding
    &&& config.padding <= p.1 < config.height - config.padding
}

/// The cell of a food item: the clump center displaced by `(dx, dy)` and
/// clamped between the margins.
pub open spec fn scattered(config: &Config, center: (usize, usize), dx: int, dy: int) -> (
    usize,
    usize,
) {
    (
        clamped(center.0 + dx, config.padding as int, config.width - config.padding - 1) as usize,
        clamped(center.1 + dy, config.padding as int, config.height - config.padding - 1) as usize,
    )
}

/// Whether the `i`-th item of `food` belongs to its clump: it lies between
/// the margins and no further than the clump radius from the center of the
/// clump that its index falls in.
pub open spec fn placed(
    config: &Config,
    centers: Seq<(usize, usize)>,
    food: Seq<(usize, usize)>,
    i: int,
) -> bool {
    &&& within_margins(config, food[i])
    &&& 0 <= i / config.food_per_clump() < centers.len()
    &&& distance(food[i], centers[i / config.food_per_clump()]) <= config.clump_radius
}

/// Whether `food` is laid out in clumps around `centers`: every center lies
/// between the margins, and the items come clump by clump, each placed
/// around its center.
pub open spec fn clumped(config: &Config, centers: Seq<(usize, usize)>, food: Seq<(usize, usize)>) -> bool {
    &&& centers.len() == config.clump_count
    &&& food.len() == config.clump_count * config.food_per_clump()
    &&& forall|c: int| 0 <= c < centers.len() ==> within_margins(config, #[trigger] centers[c])
    &&& forall|i: int| 0 <= i < food.len() ==> #[trigger] placed(config, centers, food, i)
}

/// Places one food item of a clump: the center displaced by `(dx, dy)`,
/// clamped between the margins.
pub fn scatter(config: &Config, center: (usize, usize), dx: i32, dy: i32) -> (p: (usize, usize))
    requires
        config.valid(),
        within_margins(config, center),
    ensures
        p == scattered(config, center, dx as int, dy as int),
        within_margins(config, p),
        gap(p.0 as int, center.0 as int) <= gap(0, dx as int),
        gap(p.1 as int, center.1 as int) <= gap(0, dy as int),
{
    (
        clamp_into(center.0, dx, config.padding, config.width - config.padding - 1),
        clamp_into(center.1, dy, config.padding, config.height - config.padding - 1),
    )
}

/// A field row of `width` empty cells.
fn empty_row(width: usize) -> (row: Vec<Option<(u64, (i32, i32))>>)
    ensures
        row@.len() == width,
        forall|x: int| 0 <= x < width ==> row@[x] is None,
{
    let mut row: Vec<Option<(u64, (i32, i32))>> = Vec::new();
    let mut x: usize = 0;
    while x < width
        invariant
            x <= width,
            row@.len() == x,
            forall|i: int| 0 <= i < x ==> row@[i] is None,
        decreases width - x,
    {
        row.push(None);
        x += 1;
    }
    row
}

/// A field of `height` rows of `width` empty cells.
fn empty_field(width: usize, height: usize) -> (field: Vec<Vec<Option<(u64, (i32, i32))>>>)
    ensures
        field@.len() == height,
        forall|y: int| 0 <= y < height ==> (#[trigger] field@[y])@.len() == width,
        forall|x: int, y: int| 0 <= y < height && 0 <= x < width ==> (#[trigger] field@[y]@[x]) is None,
{
    let mut field: Vec<Vec<Option<(u64, (i32, i32))>>> = Vec::new();
    let mut y: usize = 0;
    while y < height
        invariant
            y <= height,
            field@.len() == y,
            forall|j: int| 0 <= j < y ==> (#[trigger] field@[j])@.len() == width,
            forall|i: int, j: int| 0 <= j < y && 0 <= i < width ==> (#[trigger] field@[j]@[i]) is None,
        decreases height - y,
    {
        field.push(empty_row(width));
        y += 1;
    }
    field
}

impl Environment {
    /// Whether this is the world that `config` describes before the first
    /// tick: its grid, nest and decay parameters, no pheromone, nothing
    /// delivered, and food in clumps.
    pub open spec fn founded_on(&self, config: &Config) -> bool {
        &&& self.wf()
        &&& self.width == config.width
        &&& self.height == config.height
        &&& self.nest_position == config.nest_position
        &&& self.decay_per_mille == config.decay_per_mille
        &&& self.decay_threshold == config.decay_threshold
        &&& self.trail_threshold == config.trail_threshold
        &&& self.food_delivered == 0
        &&& forall|x: int, y: int| #[trigger] self.cell_at(x, y) is None
        &&& exists|centers: Seq<(usize, usize)>| #[trigger]
            clumped(config, centers, self.food_positions@)
    }

    /// Builds the world that `config` describes. Each clump gets a center
    /// drawn uniformly between the margins, and each of its items an offset
    /// drawn uniformly within the clump radius on both axes. An invalid
    /// configuration is reported with its first defect, before anything is
    /// drawn.
    pub fn new(config: &Config, rng: &mut rand::rngs::StdRng) -> (r: Result<
        Environment,
        ConfigError,
    >)
        ensures
            match r {
                Ok(environment) => config.valid() && environment.founded_on(config),
                Err(e) => config.first_error() == Some(e),
            },
    {
        if let Err(e) = config.validate() {
            return Err(e);
        }
        let per_clump = config.food_count / config.clump_count;
        let low_x = config.padding as i32;
        let high_x = (config.width - config.padding - 1) as i32;
        let low_y = config.padding as i32;
        let high_y = (config.height - config.padding - 1) as i32;
        let radius = config.clump_radius as i32;
        let mut food_positions: Vec<(usize, usize)> = Vec::new();
        let ghost mut centers: Seq<(usize, usize)> = Seq::empty();
        let mut clump: usize = 0;
        while clump < config.clump_count
            invariant
                config.valid(),
                clump <= config.clump_count,
                per_clump == config.food_per_clump(),
                low_x == config.padding,
                high_x == config.width - config.padding - 1,
                low_y == config.padding,
                high_y == config.height - config.padding - 1,
                radius == config.clump_radius,
                centers.len() == clump,
                food_positions@.len() == clump * per_clump,
                forall|c: int| 0 <= c < clump ==> within_margins(config, #[trigger] centers[c]),
                forall|i: int|
                    0 <= i < food_positions@.len() ==> #[trigger] placed(
                        config,
                        centers,
                        food_positions@,
                        i,
                    ),
            decreases config.clump_count - clump,
        {
            let center = (
                sample_inclusive(rng, low_x, high_x) as usize,
                sample_inclusive(rng, low_y, high_y) as usize,
            );
            proof {
                let ghost founded = centers;
                centers = centers.push(center);
                lemma_clump_sizes(
                    clump as int,
                    per_clump as int,
                    config.clump_count as int,
                    config.food_count as int,
                );
                assert forall|i: int| 0 <= i < food_positions@.len() implies #[trigger] placed(
                    config,
                    centers,
                    food_positions@,
                    i,
                ) by {
                    assert(placed(config, founded, food_positions@, i));
                }
            }
            let mut item: usize = 0;
            while item < per_clump
                invariant
                    config.valid(),
                    clump < config.clump_count,
                    per_clump == config.food_per_clump(),
                    radius == config.clump_radius,
                    item <= per_clump,
                    centers.len() == clump + 1,
                    centers[clump as int] == center,
                    within_margins(config, center),
                    clump * per_clump + per_clump <= usize::MAX,
                    food_positions@.len() == clump * per_clump + item,
                    forall|i: int|
                        0 <= i < food_positions@.len() ==> #[trigger] placed(
                            config,
                            centers,
                            food_positions@,
                            i,
                        ),
                decreases per_clump - item,
            {
                let dx = sample_inclusive(rng, -radius, radius);
                let dy = sample_inclusive(rng, -radius, radius);
                let p = scatter(config, center, dx, dy);
                let ghost gathered = food_positions@;
                food_positions.push(p);
                proof {
                    lemma_clump_of_item(clump as int, per_clump as int, item as int);
                    assert forall|i: int| 0 <= i < food_positions@.len() implies #[trigger] placed(
                        config,
                        centers,
                        food_positions@,
                        i,
                    ) by {
                        if i < gathered.len() {
                            assert(placed(config, centers, gathered, i));
                        }
                    }
                }
                item += 1;
            }
            proof {
                assert(clump * per_clump + per_clump == (clump + 1) * per_clump) by (nonlinear_arith);
            }
            clump += 1;
        }
        let environment = Environment {
            width: config.width,
            height: config.height,
            food_positions,
            nest_position: config.nest_position,
            pheromones: empty_field(config.width, config.height),
            food_delivered: 0,
            decay_per_mille: config.decay_per_mille,
            decay_threshold: config.decay_threshold,
            trail_threshold: config.trail_threshold,
        };
        proof {
            assert(clumped(config, centers, environment.food_positions@));
            assert forall|y: int| 0 <= y < environment.height implies #[trigger] environment.row_length(y)
                == environment.width by {
                assert(environment.pheromones@[y]@.len() == environment.width);
            }
            assert forall|i: int| 0 <= i < environment.food_positions@.len() implies environment.in_bounds(
                (#[trigger] environment.food_positions@[i]).0 as int,
                environment.food_positions@[i].1 as int,
            ) by {
                assert(placed(config, centers, environment.food_positions@, i));
            }
            assert forall|x: int, y: int| #[trigger] environment.cell_at(x, y) is None by {
                if 0 <= y < environment.height && 0 <= x < environment.width {
                    assert(environment.pheromones@[y]@[x] is None);
                }
            }
        }
        Ok(environment)
    }

    /// Whether `(x, y)` names a cell of the grid.
    pub open spec fn in_bounds(&self, x: int, y: int) -> bool {
        0 <= x < self.width && 0 <= y < self.height
    }

    /// Well-formedness: the grid is non-empty and no larger than
    /// `MAX_DIMENSION` per axis, the field has one entry per cell, nest and
    /// food lie on the grid, and the decay factor is at most one.
    pub open spec fn wf(&self) -> bool {
        &&& 0 < self.width <= MAX_DIMENSION
        &&& 0 < self.height <= MAX_DIMENSION
        &&& self.pheromones@.len() == self.height
        &&& forall|y: int| 0 <= y < self.height ==> #[trigger] self.row_length(y) == self.width
        &&& self.in_bounds(self.nest_position.0 as int, self.nest_position.1 as int)
        &&& forall|i: int|
            0 <= i < self.food_positions@.len() ==> self.in_bounds(
                (#[trigger] self.food_positions@[i]).0 as int,
                self.food_positions@[i].1 as int,
            )
        &&& self.decay_per_mille <= 1000
    }

    /// The pheromone stored at `(x, y)`; `None` for an empty cell and for any
    /// coordinate outside the field.
    pub open spec fn cell_at(&self, x: int, y: int) -> Option<(u64, (i32, i32))> {
        if 0 <= y < self.pheromones@.len() && 0 <= x < self.pheromones@[y]@.len() {
            self.pheromones@[y]@[x]
        } else {
            None
        }
    }

    /// The number of entries in row `y` of the field; zero where the field
    /// has no such row.
    pub open spec fn row_length(&self, y: int) -> int {
        if 0 <= y < self.pheromones@.len() {
            self.pheromones@[y]@.len() as int
        } else {
            0
        }
    }

    /// Whether the field has an entry, empty or not, for `(x, y)`.
    pub open spec fn has_cell(&self, x: int, y: int) -> bool {
        0 <= x < self.row_length(y)
    }

    /// Whether the food item with the given index is the first at the cell
    /// `p`.
    pub open spec fn first_food_at(&self, index: int, p: (usize, usize)) -> bool {
        &&& 0 <= index < self.food_positions@.len()
        &&& self.food_positions@[index] == p
        &&& forall|j: int| 0 <= j < index ==> self.food_positions@[j] != p
    }

    /// Whether every pheromone of the field is stronger than the decay
    /// threshold.
    pub open spec fn all_significant(&self) -> bool {
        forall|x: int, y: int|
            (#[trigger] self.cell_at(x, y)) matches Some((intensity, _)) ==> intensity
                > self.decay_threshold
    }

    /// Whether `other` is this environment with, at most, other pheromones
    /// in the same cells: everything but the contents of the field agrees.
    pub open spec fn same_but_field(&self, other: &Environment) -> bool {
        &&& self.width == other.width
        &&& self.height == other.height
        &&& self.food_positions == other.food_positions
        &&& self.nest_position == other.nest_position
        &&& self.food_delivered == other.food_delivered
        &&& self.decay_per_mille == other.decay_per_mille
        &&& self.decay_threshold == other.decay_threshold
        &&& self.trail_threshold == other.trail_threshold
        &&& self.pheromones@.len() == other.pheromones@.len()
        &&& forall|y: int| #[trigger] self.row_length(y) == other.row_length(y)
    }

    /// Reads the pheromone at `(x, y)`.
    pub fn pheromone_at(&self, x: usize, y: usize) -> (r: Option<(u64, (i32, i32))>)
        ensures
            r == self.cell_at(x as int, y as int),
    {
        if y < self.pheromones.len() {
            if x < self.pheromones[y].len() {
                return self.pheromones[y][x];
            }
        }
        None
    }

    /// Reads the direction of the pheromone at `(x, y)`, if there is one.
    pub fn get_pheromone_direction(&self, x: usize, y: usize) -> (r: Option<(i32, i32)>)
        ensures
            r == match self.cell_at(x as int, y as int) {
                Some((_, direction)) => Some(direction),
                None => None,
            },
    {
        match self.pheromone_at(x, y) {
            Some((_, direction)) => Some(direction),
            None => None,
        }
    }

    /// Whether `(x, y)` holds a pheromone stronger than the decay threshold.
    /// Never fails: a coordinate outside the field holds nothing.
    pub fn has_significant_pheromones(&self, x: usize, y: usize) -> (r: bool)
        ensures
            r == (self.cell_at(x as int, y as int) matches Some((intensity, _)) && intensity
                > self.decay_threshold),
    {
        match self.pheromone_at(x, y) {
            Some((intensity, _)) => intensity > self.decay_threshold,
            None => false,
        }
    }

    /// Deposits a pheromone at `(x, y)`, replacing whatever the cell held.
    /// Outside the field nothing happens.
    pub fn add_pheromone(&mut self, x: usize, y: usize, direction: (i32, i32), intensity: u64)
        ensures
            final(self).same_but_field(old(self)),
            forall|cx: int, cy: int|
                #![trigger final(self).cell_at(cx, cy)]
                final(self).cell_at(cx, cy) == if cx == x && cy == y && old(self).has_cell(cx, cy) {
                    Some((intensity, direction))
                } else {
                    old(self).cell_at(cx, cy)
                },
            old(self).wf() ==> final(self).wf(),
    {
        if y < self.pheromones.len() {
            if x < self.pheromones[y].len() {
                self.pheromones[y][x] = Some((intensity, direction));
            }
        }
    }

    /// Lets every pheromone of the field decay by one tick. Each cell is
    /// visited once; directions are kept.
    pub fn update_pheromones(&mut self)
        requires
            old(self).decay_per_mille <= 1000,
        ensures
            final(self).same_but_field(old(self)),
            forall|x: int, y: int|
                #![trigger final(self).cell_at(x, y)]
                final(self).cell_at(x, y) == decayed_cell(
                    old(self).cell_at(x, y),
                    old(self).decay_per_mille,
                    old(self).decay_threshold,
                ),
            final(self).all_significant(),
            old(self).wf() ==> final(self).wf(),
    {
        let rows = self.pheromones.len();
        let per_mille = self.decay_per_mille;
        let threshold = self.decay_threshold;
        let mut y: usize = 0;
        while y < rows
            invariant
                y <= rows,
                rows == self.pheromones@.len(),
                per_mille == self.decay_per_mille,
                threshold == self.decay_threshold,
                per_mille <= 1000,
                self.same_but_field(old(self)),
                forall|cx: int, cy: int|
                    #![trigger self.cell_at(cx, cy)]
                    self.cell_at(cx, cy) == if cy < y {
                        decayed_cell(old(self).cell_at(cx, cy), per_mille, threshold)
                    } else {
                        old(self).cell_at(cx, cy)
                    },
            decreases rows - y,
        {
            let columns = self.pheromones[y].len();
            let mut x: usize = 0;
            while x < columns
                invariant
                    y < rows,
                    x <= columns,
                    rows == self.pheromones@.len(),
                    columns == self.pheromones@[y as int]@.len(),
                    per_mille == self.decay_per_mille,
                    threshold == self.decay_threshold,
                    per_mille <= 1000,
                    self.same_but_field(old(self)),
                    forall|cx: int, cy: int|
                        #![trigger self.cell_at(cx, cy)]
                        self.cell_at(cx, cy) == if cy < y || (cy == y && cx < x) {
                            decayed_cell(old(self).cell_at(cx, cy), per_mille, threshold)
                        } else {
                            old(self).cell_at(cx, cy)
                        },
                decreases columns - x,
            {
                let cell = self.pheromones[y][x];
                let ghost before = *self;
                self.pheromones[y][x] = decay_cell(cell, per_mille, threshold);
                proof {
                    assert forall|cy: int| #[trigger] self.row_length(cy) == before.row_length(cy) by {}
                    assert forall|cx: int, cy: int|
                        #![trigger self.cell_at(cx, cy)]
                        self.cell_at(cx, cy) == if cx == x && cy == y {
                            decayed_cell(cell, per_mille, threshold)
                        } else {
                            before.cell_at(cx, cy)
                        } by {}
                }
                x += 1;
            }
            y += 1;
        }
        proof {
            assert forall|x: int, y: int| (#[trigger] self.cell_at(x, y)) is Some implies self.cell_at(
                x,
                y,
            ).unwrap().0 > self.decay_threshold by {
                if let Some((before, _)) = old(self).cell_at(x, y) {
                    lemma_decay_weakens(before, per_mille);
                }
            }
        }
    }

    /// Whether one of the first `n` food items lies at `(x, y)`.
    pub open spec fn food_among(&self, n: int, x: int, y: int) -> bool {
        exists|i: int|
            0 <= i < n && i < self.food_positions@.len() && (#[trigger] self.food_positions@[i]).0
                == x && self.food_positions@[i].1 == y
    }

    /// Whether a food item lies at `(x, y)`.
    pub open spec fn food_at(&self, x: int, y: int) -> bool {
        self.food_among(self.food_positions@.len() as int, x, y)
    }

    /// What the world shows at the cell `(x, y)`, drawn over a pixel that
    /// showed `under`: a pheromone hides the nest, which hides food.
    pub open spec fn shade(&self, x: int, y: int, under: Rgba) -> Rgba {
        match self.cell_at(x, y) {
            Some((intensity, _)) => Paint::Trail(opacity(intensity)).rgba(),
            None => if self.nest_position.0 == x && self.nest_position.1 == y {
                Paint::Nest.rgba()
            } else if self.food_at(x, y) {
                Paint::Food.rgba()
            } else {
                under
            },
        }
    }

    /// What the world shows at `(x, y)` before the pheromones are drawn.
    pub open spec fn ground(&self, x: int, y: int, under: Rgba) -> Rgba {
        if self.nest_position.0 == x && self.nest_position.1 == y {
            Paint::Nest.rgba()
        } else if self.food_at(x, y) {
            Paint::Food.rgba()
        } else {
            under
        }
    }

    /// Draws the world onto a frame: first the food, then the nest, then
    /// the pheromones, each with an opacity that shows its intensity.
    /// Pixels of cells that hold none of these keep what they showed. A
    /// buffer of the wrong length is reported and left as it is.
    pub fn render(&self, frame: &mut [u8], view: &Viewport) -> (r: Result<(), RenderError>)
        requires
            view.wf(),
        ensures
            final(frame)@.len() == old(frame)@.len(),
            match r {
                Ok(()) => {
                    &&& old(frame)@.len() == view.frame_length()
                    &&& forall|p: int|
                        0 <= p < view.pixel_count() ==> #[trigger] pixel(final(frame)@, p)
                            == self.shade(view.cell_of(p).0, view.cell_of(p).1, pixel(old(frame)@, p))
                },
                Err(_) => old(frame)@.len() != view.frame_length() && final(frame)@ == old(frame)@,
            },
    {
        if frame.len() != view.frame_len() {
            return Err(RenderError::FrameLength);
        }
        let mut i: usize = 0;
        while i < self.food_positions.len()
            invariant
                view.wf(),
                i <= self.food_positions@.len(),
                frame@.len() == view.frame_length(),
                forall|p: int|
                    0 <= p < view.pixel_count() ==> #[trigger] pixel(frame@, p) == if self.food_among(
                        i as int,
                        view.cell_of(p).0,
                        view.cell_of(p).1,
                    ) {
                        Paint::Food.rgba()
                    } else {
                        pixel(old(frame)@, p)
                    },
            decreases self.food_positions@.len() - i,
        {
            let item = self.food_positions[i];
            let ghost before = frame@;
            view.fill_cell(frame, item.0, item.1, Paint::Food.color());
            proof {
                assert forall|p: int| 0 <= p < view.pixel_count() implies #[trigger] pixel(frame@, p)
                    == if self.food_among(i as int + 1, view.cell_of(p).0, view.cell_of(p).1) {
                    Paint::Food.rgba()
                } else {
                    pixel(old(frame)@, p)
                } by {
                    self.lemma_food_among_grows(i as int, view.cell_of(p).0, view.cell_of(p).1);
                    assert(pixel(before, p) == if self.food_among(
                        i as int,
                        view.cell_of(p).0,
                        view.cell_of(p).1,
                    ) {
                        Paint::Food.rgba()
                    } else {
                        pixel(old(frame)@, p)
                    });
                }
            }
            i += 1;
        }
        let ghost fed = frame@;
        view.fill_cell(frame, self.nest_position.0, self.nest_position.1, Paint::Nest.color());
        proof {
            assert forall|p: int| 0 <= p < view.pixel_count() implies #[trigger] pixel(frame@, p)
                == self.ground(view.cell_of(p).0, view.cell_of(p).1, pixel(old(frame)@, p)) by {
                assert(pixel(fed, p) == if self.food_at(view.cell_of(p).0, view.cell_of(p).1) {
                    Paint::Food.rgba()
                } else {
                    pixel(old(frame)@, p)
                });
            }
        }
        let rows = self.pheromones.len();
        let mut y: usize = 0;
        while y < rows
            invariant
                view.wf(),
                y <= rows,
                rows == self.pheromones@.len(),
                frame@.len() == view.frame_length(),
                forall|p: int|
                    0 <= p < view.pixel_count() ==> #[trigger] pixel(frame@, p) == if view.cell_of(p).1
                        < y {
                        self.shade(view.cell_of(p).0, view.cell_of(p).1, pixel(old(frame)@, p))
                    } else {
                        self.ground(view.cell_of(p).0, view.cell_of(p).1, pixel(old(frame)@, p))
                    },
            decreases rows - y,
        {
            let columns = self.pheromones[y].len();
            let mut x: usize = 0;
            while x < columns
                invariant
                    view.wf(),
                    y < rows,
                    x <= columns,
                    rows == self.pheromones@.len(),
                    columns == self.pheromones@[y as int]@.len(),
                    frame@.len() == view.frame_length(),
                    forall|p: int|
                        0 <= p < view.pixel_count() ==> #[trigger] pixel(frame@, p) == if view.cell_of(
                            p,
                        ).1 < y || (view.cell_of(p).1 == y && view.cell_of(p).0 < x) {
                            self.shade(view.cell_of(p).0, view.cell_of(p).1, pixel(old(frame)@, p))
                        } else {
                            self.ground(view.cell_of(p).0, view.cell_of(p).1, pixel(old(frame)@, p))
                        },
                decreases columns - x,
            {
                let ghost before = frame@;
                if let Some((intensity, _)) = self.pheromones[y][x] {
                    view.fill_cell(frame, x, y, Paint::Trail(trail_opacity(intensity)).color());
                }
                proof {
                    assert forall|p: int| 0 <= p < view.pixel_count() implies #[trigger] pixel(
                        frame@,
                        p,
                    ) == if view.cell_of(p).1 < y || (view.cell_of(p).1 == y && view.cell_of(p).0 < x
                        + 1) {
                        self.shade(view.cell_of(p).0, view.cell_of(p).1, pixel(old(frame)@, p))
                    } else {
                        self.ground(view.cell_of(p).0, view.cell_of(p).1, pixel(old(frame)@, p))
                    } by {
                        assert(pixel(before, p) == if view.cell_of(p).1 < y || (view.cell_of(p).1 == y
                            && view.cell_of(p).0 < x) {
                            self.shade(view.cell_of(p).0, view.cell_of(p).1, pixel(old(frame)@, p))
                        } else {
                            self.ground(view.cell_of(p).0, view.cell_of(p).1, pixel(old(frame)@, p))
                        });
                    }
                }
                x += 1;
            }
            proof {
                assert forall|p: int| 0 <= p < view.pixel_count() implies #[trigger] pixel(frame@, p)
                    == if view.cell_of(p).1 < y + 1 {
                    self.shade(view.cell_of(p).0, view.cell_of(p).1, pixel(old(frame)@, p))
                } else {
                    self.ground(view.cell_of(p).0, view.cell_of(p).1, pixel(old(frame)@, p))
                } by {
                    view.lemma_pixel_in_grid(p);
                }
            }
            y += 1;
        }
        proof {
            assert forall|p: int| 0 <= p < view.pixel_count() implies #[trigger] pixel(frame@, p)
                == self.shade(view.cell_of(p).0, view.cell_of(p).1, pixel(old(frame)@, p)) by {
                view.lemma_pixel_in_grid(p);
            }
        }
        Ok(())
    }

    /// One more food item considered adds its own cell to those that hold
    /// food, and no other.
    proof fn lemma_food_among_grows(&self, n: int, x: int, y: int)
        requires
            0 <= n < self.food_positions@.len(),
        ensures
            self.food_among(n + 1, x, y) <==> self.food_among(n, x, y) || (self.food_positions@[n].0
                == x && self.food_positions@[n].1 == y),
    {
        if self.food_among(n + 1, x, y) {
            let i = choose|i: int|
                0 <= i < n + 1 && i < self.food_positions@.len() && (
                #[trigger] self.food_positions@[i]).0 == x && self.food_positions@[i].1 == y;
            if i < n {
                assert(self.food_among(n, x, y));
            }
        }
        if self.food_among(n, x, y) {
            let i = choose|i: int|
                0 <= i < n && i < self.food_positions@.len() && (
                #[trigger] self.food_positions@[i]).0 == x && self.food_positions@[i].1 == y;
            assert(0 <= i < n + 1);
        }
    }

    /// Looks for food at exactly `(x, y)` and returns the index of the first
    /// item there.
    pub fn find_food_near(&self, x: usize, y: usize) -> (r: Option<usize>)
        ensures
            match r {
                Some(index) => self.first_food_at(index as int, (x, y)),
                None => !self.food_positions@.contains((x, y)),
            },
    {
        let mut i: usize = 0;
        while i < self.food_positions.len()
            invariant
                i <= self.food_positions@.len(),
                forall|j: int| 0 <= j < i ==> self.food_positions@[j] != (x, y),
            decreases self.food_positions@.len() - i,
        {
            let item = self.food_positions[i];
            if item.0 == x && item.1 == y {
                return Some(i);
            }
            i += 1;
        }
        None
    }

    /// Takes the food item with the given index out of the world and returns
    /// its cell; the items behind it move up by one. An index that names no
    /// item changes nothing.
    pub fn remove_food(&mut self, index: usize) -> (r: Option<(usize, usize)>)
        ensures
            index < old(self).food_positions@.len() ==> r == Some(
                old(self).food_positions@[index as int],
            ) && *final(self) == (Environment {
                food_positions: final(self).food_positions,
                ..*old(self)
            }) && final(self).food_positions@ == old(self).food_positions@.remove(index as int),
            index >= old(self).food_positions@.len() ==> r is None && *final(self) == *old(self),
            old(self).wf() ==> final(self).wf(),
    {
        if index < self.food_positions.len() {
            let item = self.food_positions.remove(index);
            proof {
                assert forall|y: int| #[trigger] self.row_length(y) == old(self).row_length(y) by {}
                assert forall|i: int| 0 <= i < self.food_positions@.len() implies (
                #[trigger] self.food_positions@[i]) == old(self).food_positions@[if i < index {
                    i
                } else {
                    i + 1
                }] by {}
            }
            Some(item)
        } else {
            None
        }
    }

    /// Counts one more food item as delivered to the nest. The count
    /// saturates at `u64::MAX`.
    pub fn add_food_to_nest(&mut self)
        ensures
            *final(self) == (Environment {
                food_delivered: final(self).food_delivered,
                ..*old(self)
            }),
            final(self).food_delivered == if old(self).food_delivered == u64::MAX {
                u64::MAX
            } else {
                (old(self).food_delivered + 1) as u64
            },
            old(self).wf() ==> final(self).wf(),
    {
        self.food_delivered = self.food_delivered.saturating_add(1);
        proof {
            assert forall|y: int| #[trigger] self.row_length(y) == old(self).row_length(y) by {}
        }
    }
}

/// The items of the clumps filled so far and of the next one stay within
/// the total food count.
proof fn lemma_clump_sizes(clump: int, per_clump: int, clump_count: int, food_count: int)
    requires
        0 <= clump < clump_count,
        0 <= food_count,
        per_clump == food_count / clump_count,
    ensures
        0 <= clump * per_clump,
        clump * per_clump + per_clump <= food_count,
{
    assert(0 <= per_clump && per_clump * clump_count <= food_count) by (nonlinear_arith)
        requires
            0 < clump_count,
            0 <= food_count,
            per_clump == food_count / clump_count,
    ;
    assert(0 <= clump * per_clump && clump * per_clump + per_clump <= per_clump * clump_count)
        by (nonlinear_arith)
        requires
            0 <= clump < clump_count,
            0 <= per_clump,
    ;
}

/// The `item`-th item of the `clump`-th clump stands at an index whose
/// quotient by the clump size is `clump`.
proof fn lemma_clump_of_item(clump: int, per_clump: int, item: int)
    requires
        0 <= clump,
        0 <= item < per_clump,
    ensures
        (clump * per_clump + item) / per_clump == clump,
{
    vstd::arithmetic::div_mod::lemma_fundamental_div_mod_converse(
        clump * per_clump + item,
        per_clump,
        clump,
        item,
    );
}

} // verus!
