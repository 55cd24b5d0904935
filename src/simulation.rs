use vstd::prelude::*;
use rand::Rng;
use crate::agents::{move_agents, next_position};
use crate::config::{Config, COEF_DENOM, MAX_AGENTS, TEMP_SCALE};
use crate::diffusion::{agents_on, diffuse, tick_temp};
use crate::grid::{Coord, Grid, GridModel, MAX_DIM, MAX_TEMP};

verus! {

/// Width of the reference grid.
pub const GRID_WIDTH: usize = 25;

/// Height of the reference grid.
pub const GRID_HEIGHT: usize = 25;

/// Number of agents in the reference run.
pub const BUG_COUNT: usize = 30;

/// Initial temperatures are drawn from `[0, INIT_TEMP_MAX)`: 0 to 5 degrees.
pub const INIT_TEMP_MAX: i64 = 5 * TEMP_SCALE;

/// Relies on `rand::Rng::random_range` on the generator of `rand::rng()`:
/// a value in `[lo, hi)`. It panics on an empty range, hence `lo < hi`.
#[verifier::external_body]
fn random_in(lo: i64, hi: i64) -> (r: i64)
    requires
        lo < hi,
    ensures
        lo <= r < hi,
{
    rand::rng().random_range(lo..hi)
}

/// Mathematical model of a simulation.
pub struct SimModel {
    pub grid: GridModel,
    pub agents: Seq<Coord>,
    pub config: Config,
}

impl SimModel {
    pub open spec fn wf(&self) -> bool {
        &&& self.grid.wf()
        &&& agents_on(self.grid, self.agents)
        &&& self.agents.len() <= MAX_AGENTS
        &&& self.config.wf()
    }
}

/// `after` is `before` advanced by one tick: diffusion with heat injection,
/// then one relocation pass on the new field.
pub open spec fn tick_done(before: SimModel, after: SimModel) -> bool {
    &&& after.config == before.config
    &&& after.grid.width == before.grid.width
    &&& after.grid.height == before.grid.height
    &&& forall|x: int, y: int|
        before.grid.contains(x, y) ==> #[trigger] after.grid.temp_at(x, y) == tick_temp(
            before.grid,
            before.config,
            before.agents,
            x,
            y,
        )
    &&& after.agents.len() == before.agents.len()
    &&& forall|i: int|
        0 <= i < after.agents.len() ==> (#[trigger] after.agents[i].x as int, after.agents[i].y as int)
            == next_position(
            after.grid,
            before.config,
            before.agents[i].x as int,
            before.agents[i].y as int,
        )
}

/// The grid, the agents on it, and the constants of the run.
pub struct Simulation {
    grid: Grid,
    agents: Vec<Coord>,
    config: Config,
}

impl View for Simulation {
    type V = SimModel;

    closed spec fn view(&self) -> SimModel {
        SimModel { grid: self.grid@, agents: self.agents@, config: self.config }
    }
}

impl Config {
    /// Whether the coefficients lie in `[0, COEF_DENOM]` and the heat per
    /// agent within `[-MAX_TEMP, MAX_TEMP]`.
    pub fn is_valid(&self) -> (r: bool)
        ensures
            r == self.wf(),
    {
        0 <= self.decay && self.decay <= COEF_DENOM && 0 <= self.diffusion && self.diffusion
            <= COEF_DENOM && -MAX_TEMP <= self.bug_heat && self.bug_heat <= MAX_TEMP
    }
}

/// Whether every agent stands on a cell of `grid`.
fn all_on_grid(grid: &Grid, agents: &Vec<Coord>) -> (r: bool)
    requires
        grid.wf(),
    ensures
        r == agents_on(grid@, agents@),
{
    let mut i: usize = 0;
    while i < agents.len()
        invariant
            i <= agents.len(),
            forall|k: int| 0 <= k < i ==> grid@.contains(#[trigger] agents@[k].x as int, agents@[k].y as int),
        decreases agents.len() - i,
    {
        if agents[i].x >= grid.width() || agents[i].y >= grid.height() {
            return false;
        }
        i = i + 1;
    }
    true
}

impl Simulation {
    pub open spec fn wf(&self) -> bool {
        self@.wf()
    }

    /// A simulation from a grid, agent positions and constants. `None` when an
    /// agent stands off the grid, there are more than `MAX_AGENTS` agents, or
    /// the constants are out of range.
    pub fn new(grid: Grid, agents: Vec<Coord>, config: Config) -> (r: Option<Simulation>)
        requires
            grid.wf(),
        ensures
            r is Some <==> (agents_on(grid@, agents@) && agents.len() <= MAX_AGENTS && config.wf()),
            r matches Some(s) ==> s.wf() && s@ == (SimModel { grid: grid@, agents: agents@, config }),
    {
        if agents.len() > MAX_AGENTS || !config.is_valid() || !all_on_grid(&grid, &agents) {
            None
        } else {
            Some(Simulation { grid, agents, config })
        }
    }

    /// A simulation whose cells start at random temperatures in
    /// `[0, INIT_TEMP_MAX)` and whose `bug_count` agents start on random cells.
    pub fn random(width: usize, height: usize, bug_count: usize, config: Config) -> (r: Simulation)
        requires
            1 <= width <= MAX_DIM,
            1 <= height <= MAX_DIM,
            bug_count <= MAX_AGENTS,
            config.wf(),
        ensures
            r.wf(),
            r@.grid.width == width,
            r@.grid.height == height,
            r@.agents.len() == bug_count,
            r@.config == config,
            forall|i: int| 0 <= i < r@.grid.temps.len() ==> 0 <= #[trigger] r@.grid.temps[i] < INIT_TEMP_MAX,
    {
        proof {
            assert(width * height <= MAX_DIM * MAX_DIM) by (nonlinear_arith)
                requires 1 <= width <= MAX_DIM, 1 <= height <= MAX_DIM;
        }
        let n: usize = width * height;
        let mut temps: Vec<i64> = Vec::new();
        let mut i: usize = 0;
        while i < n
            invariant
                i <= n,
                temps.len() == i,
                forall|k: int| 0 <= k < i ==> 0 <= #[trigger] temps@[k] < INIT_TEMP_MAX,
            decreases n - i,
        {
            temps.push(random_in(0, INIT_TEMP_MAX));
            i = i + 1;
        }
        let ghost ts = temps@;
        let grid = Grid::from_temperatures(width, height, temps).unwrap();
        let mut agents: Vec<Coord> = Vec::new();
        let mut j: usize = 0;
        while j < bug_count
            invariant
                j <= bug_count,
                agents.len() == j,
                grid.wf(),
                grid@.width == width,
                grid@.height == height,
                agents_on(grid@, agents@),
            decreases bug_count - j,
        {
            let x = random_in(0, width as i64) as usize;
            let y = random_in(0, height as i64) as usize;
            agents.push(Coord { x, y });
            j = j + 1;
        }
        proof {
            assert forall|k: int| 0 <= k < grid@.temps.len() implies 0 <= #[trigger] grid@.temps[k] < INIT_TEMP_MAX by {
                assert(grid@.temps[k] == ts[k] as int);
            }
        }
        Simulation { grid, agents, config }
    }

    /// One tick: a diffusion pass with heat injection, then a relocation pass
    /// that reads the new field.
    pub fn tick(&mut self)
        requires
            old(self).wf(),
            old(self)@.grid.bounded(),
        ensures
            final(self).wf(),
            tick_done(old(self)@, final(self)@),
    {
        diffuse(&mut self.grid, &self.agents, &self.config);
        move_agents(&self.grid, &mut self.agents, &self.config);
    }

    /// Runs a tick when every temperature lies within `[-MAX_TEMP, MAX_TEMP]`
    /// and says whether it did; otherwise leaves the simulation as it is.
    pub fn try_tick(&mut self) -> (r: bool)
        requires
            old(self).wf(),
        ensures
            final(self).wf(),
            r == old(self)@.grid.bounded(),
            r ==> tick_done(old(self)@, final(self)@),
            !r ==> final(self)@ == old(self)@,
    {
        if self.grid.is_bounded() {
            self.tick();
            true
        } else {
            false
        }
    }

    /// The temperature of the cell at `c`.
    pub fn temperature(&self, c: Coord) -> (r: i64)
        requires
            self.wf(),
            self@.grid.contains(c.x as int, c.y as int),
        ensures
            r as int == self@.grid.temp_at(c.x as int, c.y as int),
    {
        self.grid.get_temperature(c)
    }

    /// The positions of all agents, in order.
    pub fn agent_positions(&self) -> (r: Vec<Coord>)
        ensures
            r@ == self@.agents,
    {
        let mut r: Vec<Coord> = Vec::new();
        let mut i: usize = 0;
        while i < self.agents.len()
            invariant
                i <= self.agents.len(),
                r@ == self@.agents.take(i as int),
            decreases self.agents.len() - i,
        {
            r.push(self.agents[i]);
            i = i + 1;
            proof {
                assert(r@ =~= self@.agents.take(i as int));
            }
        }
        proof {
            assert(r@ =~= self@.agents);
        }
        r
    }

    pub fn grid(&self) -> (r: &Grid)
        ensures
            r@ == self@.grid,
    {
        &self.grid
    }

    pub fn config(&self) -> (r: Config)
        ensures
            r == self@.config,
    {
        self.config
    }
}

} // verus!
