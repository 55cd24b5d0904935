use vstd::prelude::*;
use crate::config::Config;
use crate::grid::{center_slot, lemma_wrap_in_range, scan_dx, scan_dy, wrap, Coord, Grid, GridModel};

verus! {

/// Whether `t` lies in the comfort band `[bug_min, bug_max]`.
pub open spec fn in_band(cfg: Config, t: int) -> bool {
    cfg.bug_min <= t <= cfg.bug_max
}

pub open spec fn abs(v: int) -> int {
    if v < 0 { -v } else { v }
}

/// Distance from `t` to the nearer edge of the comfort band.
pub open spec fn closeness(cfg: Config, t: int) -> int {
    let a = abs(t - cfg.bug_min);
    let b = abs(t - cfg.bug_max);
    if a <= b { a } else { b }
}

/// Whether a candidate at temperature `tn` replaces the best so far, at `tb`:
/// in band beats out of band; within the band the one farther from an edge
/// wins; outside it the one nearer to an edge wins. Ties never replace.
pub open spec fn beats(cfg: Config, tn: int, tb: int) -> bool {
    if in_band(cfg, tn) {
        !in_band(cfg, tb) || closeness(cfg, tn) > closeness(cfg, tb)
    } else {
        !in_band(cfg, tb) && closeness(cfg, tn) < closeness(cfg, tb)
    }
}

/// The slot of the 3x3 scan that is best after the first `k` slots were
/// scanned, starting from the centre.
pub open spec fn best_slot(cfg: Config, ts: Seq<int>, k: nat) -> int
    decreases k,
{
    if k == 0 {
        center_slot()
    } else {
        let b = best_slot(cfg, ts, (k - 1) as nat);
        if beats(cfg, ts[k - 1], ts[b]) {
            k - 1
        } else {
            b
        }
    }
}

/// The temperatures of the 3x3 block around `(x, y)`, in scan order.
pub open spec fn scan_temps(m: GridModel, x: int, y: int) -> Seq<int> {
    Seq::new(9, |k: int| m.temp_near(x, y, scan_dx(k), scan_dy(k)))
}

/// Where an agent at `(x, y)` goes: nowhere if its cell is in the band, else
/// to the best slot of the scan around it.
pub open spec fn next_position(m: GridModel, cfg: Config, x: int, y: int) -> (int, int) {
    if in_band(cfg, m.temp_at(x, y)) {
        (x, y)
    } else {
        let s = best_slot(cfg, scan_temps(m, x, y), 9);
        (wrap(x, scan_dx(s), m.width as int), wrap(y, scan_dy(s), m.height as int))
    }
}

pub proof fn lemma_best_slot_range(cfg: Config, ts: Seq<int>, k: nat)
    ensures
        best_slot(cfg, ts, k) == center_slot() || 0 <= best_slot(cfg, ts, k) < k,
    decreases k,
{
    if k > 0 {
        lemma_best_slot_range(cfg, ts, (k - 1) as nat);
    }
}

/// An agent whose cell is in the comfort band stays where it is.
pub proof fn lemma_comfortable_agent_stays(m: GridModel, cfg: Config, x: int, y: int)
    requires
        in_band(cfg, m.temp_at(x, y)),
    ensures
        next_position(m, cfg, x, y) == (x, y),
{
}

proof fn lemma_single_closer_prefix(cfg: Config, ts: Seq<int>, j: int, k: nat)
    requires
        ts.len() == 9,
        0 <= j < 9,
        j != center_slot(),
        k <= 9,
        forall|i: int| 0 <= i < 9 ==> !in_band(cfg, #[trigger] ts[i]),
        closeness(cfg, ts[j]) < closeness(cfg, ts[center_slot()]),
        forall|i: int|
            0 <= i < 9 && i != j ==> closeness(cfg, #[trigger] ts[i]) >= closeness(cfg, ts[center_slot()]),
    ensures
        best_slot(cfg, ts, k) == (if k <= j { center_slot() } else { j }),
    decreases k,
{
    if k > 0 {
        lemma_single_closer_prefix(cfg, ts, j, (k - 1) as nat);
    }
}

/// An uncomfortable agent below the band, with no cell of its 3x3 block in
/// the band and exactly one neighbour strictly nearer to the band than its own
/// cell, moves to that neighbour.
pub proof fn lemma_single_closer_neighbor_wins(cfg: Config, ts: Seq<int>, j: int)
    requires
        ts.len() == 9,
        0 <= j < 9,
        j != center_slot(),
        ts[center_slot()] < cfg.bug_min,
        forall|i: int| 0 <= i < 9 ==> !in_band(cfg, #[trigger] ts[i]),
        closeness(cfg, ts[j]) < closeness(cfg, ts[center_slot()]),
        forall|i: int|
            0 <= i < 9 && i != j ==> closeness(cfg, #[trigger] ts[i]) >= closeness(cfg, ts[center_slot()]),
    ensures
        best_slot(cfg, ts, 9) == j,
{
    lemma_single_closer_prefix(cfg, ts, j, 9);
}

proof fn lemma_beats_chain(cfg: Config, a: int, b: int, c: int)
    requires
        !beats(cfg, a, b),
        beats(cfg, c, b),
    ensures
        !beats(cfg, a, c),
{
}

proof fn lemma_best_dominates_scanned(cfg: Config, ts: Seq<int>, k: nat)
    requires
        ts.len() == 9,
        k <= 9,
    ensures
        forall|m: int| 0 <= m < k ==> !beats(cfg, #[trigger] ts[m], ts[best_slot(cfg, ts, k)]),
    decreases k,
{
    if k > 0 {
        let p = (k - 1) as nat;
        lemma_best_dominates_scanned(cfg, ts, p);
        lemma_best_slot_range(cfg, ts, p);
        let b = best_slot(cfg, ts, p);
        if beats(cfg, ts[k - 1], ts[b]) {
            assert forall|m: int| 0 <= m < k implies !beats(cfg, #[trigger] ts[m], ts[best_slot(cfg, ts, k)]) by {
                if m < k - 1 {
                    lemma_beats_chain(cfg, ts[m], ts[b], ts[k - 1]);
                }
            }
        }
    }
}

proof fn lemma_best_slot_sticks(cfg: Config, ts: Seq<int>, j: int, k: nat)
    requires
        j < k,
        best_slot(cfg, ts, k) == j,
    ensures
        best_slot(cfg, ts, (j + 1) as nat) == j,
    decreases k,
{
    if k > j + 1 {
        lemma_best_slot_sticks(cfg, ts, j, (k - 1) as nat);
    }
}

/// Ties go to the first in scan order: of two neighbours at the same
/// temperature, the one scanned later is never the destination.
pub proof fn lemma_tie_goes_to_first(cfg: Config, ts: Seq<int>, i: int, j: int)
    requires
        ts.len() == 9,
        0 <= i < j < 9,
        i != center_slot(),
        j != center_slot(),
        ts[i] == ts[j],
    ensures
        best_slot(cfg, ts, 9) != j,
{
    if best_slot(cfg, ts, 9) == j {
        lemma_best_slot_sticks(cfg, ts, j, 9);
        lemma_best_slot_range(cfg, ts, j as nat);
        lemma_best_dominates_scanned(cfg, ts, j as nat);
        assert(!beats(cfg, ts[i], ts[best_slot(cfg, ts, j as nat)]));
    }
}

/// Distance from `t` to the nearer edge of the band.
pub fn closeness_of(cfg: &Config, t: i64) -> (r: i128)
    ensures
        r == closeness(*cfg, t as int),
{
    let a: i128 = if (t as i128) < cfg.bug_min as i128 {
        cfg.bug_min as i128 - t as i128
    } else {
        t as i128 - cfg.bug_min as i128
    };
    let b: i128 = if (t as i128) < cfg.bug_max as i128 {
        cfg.bug_max as i128 - t as i128
    } else {
        t as i128 - cfg.bug_max as i128
    };
    if a <= b { a } else { b }
}

/// Whether `t` lies in the comfort band.
pub fn is_comfortable(cfg: &Config, t: i64) -> (r: bool)
    ensures
        r == in_band(*cfg, t as int),
{
    cfg.bug_min <= t && t <= cfg.bug_max
}

/// Whether a candidate at `tn` replaces the best so far, at `tb`.
pub fn candidate_wins(cfg: &Config, tn: i64, tb: i64) -> (r: bool)
    ensures
        r == beats(*cfg, tn as int, tb as int),
{
    if is_comfortable(cfg, tn) {
        !is_comfortable(cfg, tb) || closeness_of(cfg, tn) > closeness_of(cfg, tb)
    } else {
        !is_comfortable(cfg, tb) && closeness_of(cfg, tn) < closeness_of(cfg, tb)
    }
}

/// The cell that an agent at `c` moves to in this tick.
pub fn choose_move(grid: &Grid, c: Coord, cfg: &Config) -> (r: Coord)
    requires
        grid.wf(),
        grid@.contains(c.x as int, c.y as int),
    ensures
        (r.x as int, r.y as int) == next_position(grid@, *cfg, c.x as int, c.y as int),
        grid@.contains(r.x as int, r.y as int),
{
    let t = grid.get_temperature(c);
    if is_comfortable(cfg, t) {
        return c;
    }
    let ghost ts = scan_temps(grid@, c.x as int, c.y as int);
    proof {
        lemma_wrap_in_range(c.x as int, 0, grid@.width as int);
        lemma_wrap_in_range(c.y as int, 0, grid@.height as int);
    }
    let mut best = c;
    let mut best_t = t;
    let mut k: i8 = 0;
    while k < 9
        invariant
            grid.wf(),
            grid@.contains(c.x as int, c.y as int),
            0 <= k <= 9,
            ts == scan_temps(grid@, c.x as int, c.y as int),
            best_t as int == ts[best_slot(*cfg, ts, k as nat)],
            best.x as int == wrap(c.x as int, scan_dx(best_slot(*cfg, ts, k as nat)), grid@.width as int),
            best.y as int == wrap(c.y as int, scan_dy(best_slot(*cfg, ts, k as nat)), grid@.height as int),
            grid@.contains(best.x as int, best.y as int),
        decreases 9 - k,
    {
        let n = grid.neighbor(c, k / 3 - 1, k % 3 - 1);
        let tn = grid.get_temperature(n);
        assert(tn as int == ts[k as int]);
        if candidate_wins(cfg, tn, best_t) {
            best = n;
            best_t = tn;
        }
        k = k + 1;
    }
    best
}

/// One relocation pass: each agent moves to the cell that `choose_move` picks
/// for it on `grid`.
pub fn move_agents(grid: &Grid, agents: &mut Vec<Coord>, cfg: &Config)
    requires
        grid.wf(),
        forall|i: int|
            0 <= i < old(agents).len() ==> grid@.contains(
                #[trigger] old(agents)@[i].x as int,
                old(agents)@[i].y as int,
            ),
    ensures
        final(agents).len() == old(agents).len(),
        forall|i: int|
            0 <= i < final(agents).len() ==> (#[trigger] final(agents)@[i].x as int,
                final(agents)@[i].y as int) == next_position(
                grid@,
                *cfg,
                old(agents)@[i].x as int,
                old(agents)@[i].y as int,
            ),
        forall|i: int|
            0 <= i < final(agents).len() ==> grid@.contains(
                #[trigger] final(agents)@[i].x as int,
                final(agents)@[i].y as int,
            ),
{
    let ghost start = agents@;
    let mut i: usize = 0;
    while i < agents.len()
        invariant
            grid.wf(),
            agents.len() == start.len(),
            i <= agents.len(),
            forall|k: int|
                i <= k < agents.len() ==> #[trigger] agents@[k] == start[k],
            forall|k: int|
                0 <= k < start.len() ==> grid@.contains(#[trigger] start[k].x as int, start[k].y as int),
            forall|k: int|
                0 <= k < i ==> (#[trigger] agents@[k].x as int, agents@[k].y as int) == next_position(
                    grid@,
                    *cfg,
                    start[k].x as int,
                    start[k].y as int,
                ) && grid@.contains(agents@[k].x as int, agents@[k].y as int),
        decreases agents.len() - i,
    {
        let c = agents[i];
        let n = choose_move(grid, c, cfg);
        agents.set(i, n);
        i = i + 1;
    }
}

} // verus!
