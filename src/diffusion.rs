use vstd::prelude::*;
use crate::config::{Config, COEF_DENOM, MAX_AGENTS};
use crate::grid::{
    lemma_index_injective, lemma_neighbor_in_grid, lemma_wrap_in_range, lemma_wrap_inverse, wrap, Coord,
    Grid, GridModel, MAX_TEMP,
};
use vstd::arithmetic::div_mod::lemma_div_multiples_vanish;

verus! {

/// The share of its own heat that a cell keeps: `1 - decay - 8 * diffusion`.
pub open spec fn self_factor(cfg: Config) -> int {
    COEF_DENOM - cfg.decay - 8 * cfg.diffusion
}

/// The temperature of `(x, y)` after decay and diffusion, computed from the
/// field `m` alone, rounded down to a whole unit.
pub open spec fn diffused_at(m: GridModel, cfg: Config, x: int, y: int) -> int {
    (m.temp_at(x, y) * self_factor(cfg) + cfg.diffusion * m.neighbor_sum(x, y)) / (COEF_DENOM as int)
}

/// How many of `agents` stand on `(x, y)`.
pub open spec fn occupancy(agents: Seq<Coord>, x: int, y: int) -> int
    decreases agents.len(),
{
    if agents.len() == 0 {
        0
    } else {
        occupancy(agents.drop_last(), x, y) + (if agents.last().x == x && agents.last().y == y {
            1int
        } else {
            0int
        })
    }
}

/// The temperature of `(x, y)` after one tick: diffused, then heated by each
/// agent on it.
pub open spec fn tick_temp(m: GridModel, cfg: Config, agents: Seq<Coord>, x: int, y: int) -> int {
    diffused_at(m, cfg, x, y) + cfg.bug_heat * occupancy(agents, x, y)
}

/// Every agent stands on a cell of `m`.
pub open spec fn agents_on(m: GridModel, agents: Seq<Coord>) -> bool {
    forall|i: int| 0 <= i < agents.len() ==> m.contains(#[trigger] agents[i].x as int, agents[i].y as int)
}

pub proof fn lemma_occupancy_bounds(agents: Seq<Coord>, x: int, y: int)
    ensures
        0 <= occupancy(agents, x, y) <= agents.len(),
    decreases agents.len(),
{
    if agents.len() > 0 {
        lemma_occupancy_bounds(agents.drop_last(), x, y);
    }
}

proof fn lemma_occupancy_step(agents: Seq<Coord>, j: int, x: int, y: int)
    requires
        0 <= j < agents.len(),
    ensures
        occupancy(agents.take(j + 1), x, y) == occupancy(agents.take(j), x, y) + (if agents[j].x == x
            && agents[j].y == y {
            1int
        } else {
            0int
        }),
{
    assert(agents.take(j + 1).drop_last() =~= agents.take(j));
}

/// A uniform field stays uniform: with every cell at `k` and no agents, every
/// cell holds `k * (1 - decay)` after a tick, rounded down, and exactly `k`
/// when there is no decay.
pub proof fn lemma_uniform_field_is_steady(m: GridModel, cfg: Config, k: int, x: int, y: int)
    requires
        m.wf(),
        m.contains(x, y),
        forall|i: int| 0 <= i < m.temps.len() ==> #[trigger] m.temps[i] == k,
    ensures
        tick_temp(m, cfg, Seq::empty(), x, y) == (k * (COEF_DENOM - cfg.decay)) / (COEF_DENOM as int),
        cfg.decay == 0 ==> tick_temp(m, cfg, Seq::empty(), x, y) == k,
{
    assert forall|dx: int, dy: int| -1 <= dx <= 1 && -1 <= dy <= 1 implies #[trigger] m.temp_near(
        x,
        y,
        dx,
        dy,
    ) == k by {
        lemma_neighbor_in_grid(m, x, y, dx, dy);
        crate::grid::lemma_index_in_range(m, wrap(x, dx, m.width as int), wrap(y, dy, m.height as int));
    }
    crate::grid::lemma_index_in_range(m, x, y);
    let f = self_factor(cfg);
    assert(k * f + cfg.diffusion * (8 * k) == k * (COEF_DENOM - cfg.decay)) by (nonlinear_arith)
        requires f == COEF_DENOM - cfg.decay - 8 * cfg.diffusion;
    if cfg.decay == 0 {
        lemma_div_multiples_vanish(k, COEF_DENOM as int);
        assert(k * (COEF_DENOM - cfg.decay) == COEF_DENOM * k) by (nonlinear_arith)
            requires cfg.decay == 0;
    }
}

/// Heat moves one cell per tick: with one hot cell at `(hx, hy)`, every other
/// cell at 0 and no agents, a cell outside the 3x3 block around the hot cell
/// is still 0 after a tick.
pub proof fn lemma_heat_spreads_one_step(m: GridModel, cfg: Config, hx: int, hy: int, x: int, y: int)
    requires
        m.wf(),
        m.contains(hx, hy),
        m.contains(x, y),
        forall|a: int, b: int| #[trigger] m.contains(a, b) && (a != hx || b != hy) ==> m.temp_at(a, b) == 0,
        forall|dx: int, dy: int|
            #![trigger wrap(hx, dx, m.width as int), wrap(hy, dy, m.height as int)]
            -1 <= dx <= 1 && -1 <= dy <= 1 ==> x != wrap(hx, dx, m.width as int) || y != wrap(
                hy,
                dy,
                m.height as int,
            ),
    ensures
        tick_temp(m, cfg, Seq::empty(), x, y) == 0,
{
    let w = m.width as int;
    let h = m.height as int;
    assert forall|dx: int, dy: int| -1 <= dx <= 1 && -1 <= dy <= 1 implies #[trigger] m.temp_near(
        x,
        y,
        dx,
        dy,
    ) == 0 by {
        lemma_neighbor_in_grid(m, x, y, dx, dy);
        lemma_wrap_inverse(x, dx, w);
        lemma_wrap_inverse(y, dy, h);
        if wrap(x, dx, w) == hx && wrap(y, dy, h) == hy {
            assert(x == wrap(hx, -dx, w) && y == wrap(hy, -dy, h));
            assert(false);
        }
        assert(m.contains(wrap(x, dx, w), wrap(y, dy, h)));
    }
    lemma_wrap_in_range(x, 0, w);
    lemma_wrap_in_range(y, 0, h);
    assert(m.temp_at(x, y) == m.temp_near(x, y, 0, 0));
    assert(m.temp_at(x, y) * self_factor(cfg) == 0);
    assert(m.neighbor_sum(x, y) == 0);
    assert(cfg.diffusion * m.neighbor_sum(x, y) == 0);
    assert(diffused_at(m, cfg, x, y) == 0);
    assert(occupancy(Seq::empty(), x, y) == 0);
}

/// Agents heat their own cell: with neither decay nor diffusion, a cell ends
/// the tick at its old temperature plus `bug_heat` for each agent on it.
pub proof fn lemma_heat_injection(m: GridModel, cfg: Config, agents: Seq<Coord>, x: int, y: int)
    requires
        cfg.decay == 0,
        cfg.diffusion == 0,
    ensures
        tick_temp(m, cfg, agents, x, y) == m.temp_at(x, y) + cfg.bug_heat * occupancy(agents, x, y),
{
    lemma_div_multiples_vanish(m.temp_at(x, y), COEF_DENOM as int);
    assert(m.temp_at(x, y) * self_factor(cfg) == COEF_DENOM * m.temp_at(x, y)) by (nonlinear_arith)
        requires self_factor(cfg) == COEF_DENOM;
}

/// The temperature of the cell at offset `(dx, dy)` from `c`.
fn temp_near(g: &Grid, c: Coord, dx: i8, dy: i8) -> (r: i64)
    requires
        g.wf(),
        g@.bounded(),
        g@.contains(c.x as int, c.y as int),
        -1 <= dx <= 1,
        -1 <= dy <= 1,
    ensures
        r as int == g@.temp_near(c.x as int, c.y as int, dx as int, dy as int),
        -MAX_TEMP <= r <= MAX_TEMP,
{
    let n = g.neighbor(c, dx, dy);
    proof {
        crate::grid::lemma_index_in_range(g@, n.x as int, n.y as int);
    }
    g.get_temperature(n)
}

/// The temperature of `c` after decay and diffusion, from the snapshot `prev`.
fn diffused_cell(prev: &Grid, c: Coord, cfg: &Config) -> (r: i64)
    requires
        prev.wf(),
        prev@.bounded(),
        prev@.contains(c.x as int, c.y as int),
        cfg.wf(),
    ensures
        r as int == diffused_at(prev@, *cfg, c.x as int, c.y as int),
        -17 * MAX_TEMP <= r <= 17 * MAX_TEMP,
{
    let ghost m = prev@;
    let ghost x: int = c.x as int;
    let ghost y: int = c.y as int;
    proof {
        crate::grid::lemma_index_in_range(m, x, y);
    }
    let own = prev.get_temperature(c);
    let mut sum: i64 = 0;
    sum = sum + temp_near(prev, c, -1, -1);
    sum = sum + temp_near(prev, c, -1, 0);
    sum = sum + temp_near(prev, c, -1, 1);
    sum = sum + temp_near(prev, c, 0, -1);
    sum = sum + temp_near(prev, c, 0, 1);
    sum = sum + temp_near(prev, c, 1, -1);
    sum = sum + temp_near(prev, c, 1, 0);
    sum = sum + temp_near(prev, c, 1, 1);
    assert(sum as int == m.neighbor_sum(x, y));
    let keep: i64 = COEF_DENOM - cfg.decay - 8 * cfg.diffusion;
    proof {
        assert(-9 * COEF_DENOM <= keep <= COEF_DENOM);
        assert(-9 * COEF_DENOM * MAX_TEMP <= own * keep <= 9 * COEF_DENOM * MAX_TEMP) by (nonlinear_arith)
            requires -9 * COEF_DENOM <= keep <= COEF_DENOM, -MAX_TEMP <= own <= MAX_TEMP;
        assert(-8 * COEF_DENOM * MAX_TEMP <= sum * cfg.diffusion <= 8 * COEF_DENOM * MAX_TEMP) by (nonlinear_arith)
            requires 0 <= cfg.diffusion <= COEF_DENOM, -8 * MAX_TEMP <= sum <= 8 * MAX_TEMP;
    }
    let total: i64 = own * keep + cfg.diffusion * sum;
    proof {
        let t = total as int;
        assert(-17 * MAX_TEMP <= t / (COEF_DENOM as int) <= 17 * MAX_TEMP) by (nonlinear_arith)
            requires -17 * COEF_DENOM * MAX_TEMP <= t <= 17 * COEF_DENOM * MAX_TEMP;
    }
    total.checked_div_euclid(COEF_DENOM).unwrap()
}

/// One diffusion pass followed by heat injection: every cell takes the value
/// that decay and diffusion give from the field as it stood before the pass,
/// then each agent adds `bug_heat` to the cell it stands on.
pub fn diffuse(grid: &mut Grid, agents: &Vec<Coord>, cfg: &Config)
    requires
        old(grid).wf(),
        old(grid)@.bounded(),
        agents_on(old(grid)@, agents@),
        agents.len() <= MAX_AGENTS,
        cfg.wf(),
    ensures
        final(grid).wf(),
        final(grid)@.width == old(grid)@.width,
        final(grid)@.height == old(grid)@.height,
        forall|x: int, y: int|
            old(grid)@.contains(x, y) ==> #[trigger] final(grid)@.temp_at(x, y) == tick_temp(
                old(grid)@,
                *cfg,
                agents@,
                x,
                y,
            ),
{
    let prev = grid.snapshot();
    let w = grid.width();
    let h = grid.height();
    let mut cx: usize = 0;
    let mut cy: usize = 0;
    while cy < h
        invariant
            prev.wf(),
            prev@.bounded(),
            grid.wf(),
            grid@.width == prev@.width,
            grid@.height == prev@.height,
            w == prev@.width,
            h == prev@.height,
            cx < w,
            cy <= h,
            cy == h ==> cx == 0,
            cfg.wf(),
            forall|x: int, y: int|
                #![trigger grid@.temp_at(x, y)]
                prev@.contains(x, y) && (y < cy || (y == cy && x < cx)) ==> grid@.temp_at(x, y)
                    == diffused_at(prev@, *cfg, x, y) && -17 * MAX_TEMP <= grid@.temp_at(x, y) <= 17
                    * MAX_TEMP,
        decreases h - cy, w - cx,
    {
        let c = Coord { x: cx, y: cy };
        let t = diffused_cell(&prev, c, cfg);
        let ghost before = grid@;
        grid.set_temperature(c, t);
        proof {
            crate::grid::lemma_index_in_range(before, cx as int, cy as int);
            assert forall|x: int, y: int|
                prev@.contains(x, y) && (y < cy || (y == cy && x <= cx)) implies grid@.temp_at(x, y)
                    == diffused_at(prev@, *cfg, x, y) && -17 * MAX_TEMP <= grid@.temp_at(x, y) <= 17
                    * MAX_TEMP by {
                if x != cx || y != cy {
                    crate::grid::lemma_index_in_range(before, x, y);
                    if before.index(x, y) == before.index(cx as int, cy as int) {
                        lemma_index_injective(before, x, y, cx as int, cy as int);
                    }
                    assert(before.temp_at(x, y) == grid@.temp_at(x, y));
                }
            }
        }
        if cx + 1 < w {
            cx = cx + 1;
        } else {
            cx = 0;
            cy = cy + 1;
        }
    }
    let mut j: usize = 0;
    while j < agents.len()
        invariant
            prev.wf(),
            grid.wf(),
            grid@.width == prev@.width,
            grid@.height == prev@.height,
            j <= agents.len(),
            agents.len() <= MAX_AGENTS,
            agents_on(prev@, agents@),
            cfg.wf(),
            forall|x: int, y: int|
                #![trigger grid@.temp_at(x, y)]
                prev@.contains(x, y) ==> grid@.temp_at(x, y) == diffused_at(prev@, *cfg, x, y)
                    + cfg.bug_heat * occupancy(agents@.take(j as int), x, y) && -17 * MAX_TEMP
                    <= diffused_at(prev@, *cfg, x, y) <= 17 * MAX_TEMP,
        decreases agents.len() - j,
    {
        let a = agents[j];
        assert(prev@.contains(a.x as int, a.y as int));
        let old_t = grid.get_temperature(a);
        proof {
            let ghost x = a.x as int;
            let ghost y = a.y as int;
            let occ = occupancy(agents@.take(j as int), x, y);
            lemma_occupancy_bounds(agents@.take(j as int), x, y);
            let e = cfg.bug_heat * occ;
            assert(-MAX_TEMP * MAX_AGENTS <= e <= MAX_TEMP * MAX_AGENTS) by (nonlinear_arith)
                requires e == cfg.bug_heat * occ, 0 <= occ <= MAX_AGENTS, -MAX_TEMP <= cfg.bug_heat <= MAX_TEMP;
            assert(grid@.temp_at(x, y) == old_t);
        }
        let ghost before = grid@;
        grid.set_temperature(a, old_t + cfg.bug_heat);
        proof {
            crate::grid::lemma_index_in_range(before, a.x as int, a.y as int);
            assert forall|x: int, y: int| prev@.contains(x, y) implies #[trigger] grid@.temp_at(x, y)
                == diffused_at(prev@, *cfg, x, y) + cfg.bug_heat * occupancy(
                agents@.take(j + 1),
                x,
                y,
            ) && -17 * MAX_TEMP <= diffused_at(prev@, *cfg, x, y) <= 17 * MAX_TEMP by {
                lemma_occupancy_step(agents@, j as int, x, y);
                assert(before.temp_at(x, y) == diffused_at(prev@, *cfg, x, y) + cfg.bug_heat
                    * occupancy(agents@.take(j as int), x, y));
                if x != a.x || y != a.y {
                    crate::grid::lemma_index_in_range(before, x, y);
                    if before.index(x, y) == before.index(a.x as int, a.y as int) {
                        lemma_index_injective(before, x, y, a.x as int, a.y as int);
                    }
                    assert(before.temp_at(x, y) == grid@.temp_at(x, y));
                } else {
                    assert(cfg.bug_heat * occupancy(agents@.take(j + 1), x, y) == cfg.bug_heat
                        * occupancy(agents@.take(j as int), x, y) + cfg.bug_heat) by (nonlinear_arith)
                        requires occupancy(agents@.take(j + 1), x, y) == occupancy(agents@.take(j as int), x, y) + 1;
                }
            }
        }
        j = j + 1;
    }
    proof {
        assert(agents@.take(agents.len() as int) =~= agents@);
    }
}

} // verus!
