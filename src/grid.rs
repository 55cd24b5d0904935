use vstd::prelude::*;
use vstd::arithmetic::div_mod::{lemma_small_mod, lemma_mod_add_multiples_vanish};

verus! {

/// Largest width or height of a grid.
pub const MAX_DIM: usize = 4096;

/// Largest magnitude of a cell temperature that a tick accepts as input.
pub const MAX_TEMP: i64 = 1_099_511_627_776;

/// A cell coordinate `(x, y)` with `x < width` and `y < height`.
#[derive(Clone, Copy, Debug, PartialEq, Eq, Hash, Structural)]
pub struct Coord {
    pub x: usize,
    pub y: usize,
}

/// Toroidal wraparound: `v + d` taken modulo `n`.
pub open spec fn wrap(v: int, d: int, n: int) -> int {
    (v + d + n) % n
}

/// The offset along x of the `k`-th entry of the 3x3 scan (x outer, y inner).
pub open spec fn scan_dx(k: int) -> int {
    k / 3 - 1
}

/// The offset along y of the `k`-th entry of the 3x3 scan (x outer, y inner).
pub open spec fn scan_dy(k: int) -> int {
    k % 3 - 1
}

/// The index of the centre `(0, 0)` in the 3x3 scan.
pub open spec fn center_slot() -> int {
    4
}

/// Mathematical model of a grid: its size and one temperature per cell, row-major.
pub struct GridModel {
    pub width: nat,
    pub height: nat,
    pub temps: Seq<int>,
}

impl GridModel {
    pub open spec fn wf(&self) -> bool {
        &&& 1 <= self.width <= MAX_DIM
        &&& 1 <= self.height <= MAX_DIM
        &&& self.temps.len() == self.width * self.height
    }

    pub open spec fn contains(&self, x: int, y: int) -> bool {
        0 <= x < self.width && 0 <= y < self.height
    }

    pub open spec fn index(&self, x: int, y: int) -> int {
        y * self.width + x
    }

    pub open spec fn temp_at(&self, x: int, y: int) -> int {
        self.temps[self.index(x, y)]
    }

    /// Temperature of the cell at offset `(dx, dy)` from `(x, y)`, wrapped.
    pub open spec fn temp_near(&self, x: int, y: int, dx: int, dy: int) -> int {
        self.temp_at(wrap(x, dx, self.width as int), wrap(y, dy, self.height as int))
    }

    /// Sum of the temperatures of the eight Moore neighbours of `(x, y)`.
    pub open spec fn neighbor_sum(&self, x: int, y: int) -> int {
        self.temp_near(x, y, -1, -1) + self.temp_near(x, y, -1, 0) + self.temp_near(x, y, -1, 1)
            + self.temp_near(x, y, 0, -1) + self.temp_near(x, y, 0, 1)
            + self.temp_near(x, y, 1, -1) + self.temp_near(x, y, 1, 0)
            + self.temp_near(x, y, 1, 1)
    }

    /// Every temperature lies within `[-MAX_TEMP, MAX_TEMP]`.
    pub open spec fn bounded(&self) -> bool {
        forall|i: int| 0 <= i < self.temps.len() ==> -MAX_TEMP <= #[trigger] self.temps[i] <= MAX_TEMP
    }
}

/// Wrapping stays on the torus.
pub proof fn lemma_wrap_in_range(v: int, d: int, n: int)
    requires
        0 <= v < n,
        -1 <= d <= 1,
    ensures
        0 <= wrap(v, d, n) < n,
        wrap(v, d, n) == (if v + d < 0 { v + d + n } else if v + d >= n { v + d - n } else { v + d }),
{
    if v + d + n < n {
        lemma_small_mod((v + d + n) as nat, n as nat);
    } else {
        lemma_mod_add_multiples_vanish(v + d, n);
        if v + d < n {
            lemma_small_mod((v + d) as nat, n as nat);
        } else {
            lemma_mod_add_multiples_vanish(v + d - n, n);
            lemma_small_mod((v + d - n) as nat, n as nat);
        }
    }
}

/// Every offset in `{-1, 0, 1}` along each axis leads from a cell of the
/// grid to a cell of the grid.
pub proof fn lemma_neighbor_in_grid(m: GridModel, x: int, y: int, dx: int, dy: int)
    requires
        m.wf(),
        m.contains(x, y),
        -1 <= dx <= 1,
        -1 <= dy <= 1,
    ensures
        m.contains(wrap(x, dx, m.width as int), wrap(y, dy, m.height as int)),
{
    lemma_wrap_in_range(x, dx, m.width as int);
    lemma_wrap_in_range(y, dy, m.height as int);
}

/// Stepping by `d` and then by `-d` comes back to the start.
pub proof fn lemma_wrap_inverse(v: int, d: int, n: int)
    requires
        0 <= v < n,
        -1 <= d <= 1,
    ensures
        wrap(wrap(v, d, n), -d, n) == v,
{
    lemma_wrap_in_range(v, d, n);
    lemma_wrap_in_range(wrap(v, d, n), -d, n);
}

pub proof fn lemma_index_in_range(m: GridModel, x: int, y: int)
    requires
        m.wf(),
        m.contains(x, y),
    ensures
        0 <= m.index(x, y) < m.temps.len(),
        m.index(x, y) < MAX_DIM * MAX_DIM,
{
    let w = m.width as int;
    let h = m.height as int;
    assert(y * w + x < w * h) by (nonlinear_arith)
        requires 0 <= x < w, 0 <= y < h;
    assert(w * h <= MAX_DIM * MAX_DIM) by (nonlinear_arith)
        requires 1 <= w <= MAX_DIM, 1 <= h <= MAX_DIM;
    assert(0 <= y * w) by (nonlinear_arith)
        requires 0 <= y, 0 <= w;
}

/// Different cells have different indices.
pub proof fn lemma_index_injective(m: GridModel, x1: int, y1: int, x2: int, y2: int)
    requires
        m.wf(),
        m.contains(x1, y1),
        m.contains(x2, y2),
        m.index(x1, y1) == m.index(x2, y2),
    ensures
        x1 == x2 && y1 == y2,
{
    let w = m.width as int;
    if y1 < y2 {
        assert(y1 * w + w <= y2 * w) by (nonlinear_arith)
            requires y1 < y2, 0 < w;
    } else if y2 < y1 {
        assert(y2 * w + w <= y1 * w) by (nonlinear_arith)
            requires y2 < y1, 0 < w;
    }
}

/// Steps `v` by `d` in `{-1, 0, 1}` around a ring of size `n`.
pub fn wrap_step(v: usize, d: i8, n: usize) -> (r: usize)
    requires
        v < n,
        n <= MAX_DIM,
        -1 <= d <= 1,
    ensures
        r as int == wrap(v as int, d as int, n as int),
        r < n,
{
    proof {
        lemma_wrap_in_range(v as int, d as int, n as int);
    }
    if d < 0 {
        if v == 0 { n - 1 } else { v - 1 }
    } else if d == 0 {
        v
    } else {
        if v + 1 == n { 0 } else { v + 1 }
    }
}

/// A dense toroidal grid of cell temperatures.
pub struct Grid {
    width: usize,
    height: usize,
    temps: Vec<i64>,
}

impl View for Grid {
    type V = GridModel;

    closed spec fn view(&self) -> GridModel {
        GridModel {
            width: self.width as nat,
            height: self.height as nat,
            temps: self.temps@.map_values(|t: i64| t as int),
        }
    }
}

impl Grid {
    pub open spec fn wf(&self) -> bool {
        self@.wf()
    }

    /// A grid of the given size with every cell at temperature `t`.
    pub fn filled(width: usize, height: usize, t: i64) -> (g: Grid)
        requires
            1 <= width <= MAX_DIM,
            1 <= height <= MAX_DIM,
        ensures
            g.wf(),
            g@.width == width,
            g@.height == height,
            forall|i: int| 0 <= i < g@.temps.len() ==> #[trigger] g@.temps[i] == t,
    {
        proof {
            assert(width * height <= MAX_DIM * MAX_DIM) by (nonlinear_arith)
                requires 1 <= width <= MAX_DIM, 1 <= height <= MAX_DIM;
        }
        let n: usize = width * height;
        let mut temps: Vec<i64> = Vec::new();
        let mut i: usize = 0;
        while i < n
            invariant
                i <= n,
                temps.len() == i,
                forall|k: int| 0 <= k < i ==> #[trigger] temps@[k] == t,
            decreases n - i,
        {
            temps.push(t);
            i = i + 1;
        }
        Grid { width, height, temps }
    }

    /// A grid from row-major temperatures (the cell `(x, y)` at `y * width + x`).
    /// `None` when a size lies outside `[1, MAX_DIM]` or the count of
    /// temperatures is not `width * height`.
    pub fn from_temperatures(width: usize, height: usize, temps: Vec<i64>) -> (r: Option<Grid>)
        ensures
            r is Some <==> (1 <= width <= MAX_DIM && 1 <= height <= MAX_DIM
                && temps.len() == width * height),
            r matches Some(g) ==> g.wf() && g@ == (GridModel {
                width: width as nat,
                height: height as nat,
                temps: temps@.map_values(|t: i64| t as int),
            }),
    {
        if width < 1 || width > MAX_DIM || height < 1 || height > MAX_DIM {
            return None;
        }
        proof {
            assert(width * height <= MAX_DIM * MAX_DIM) by (nonlinear_arith)
                requires 1 <= width <= MAX_DIM, 1 <= height <= MAX_DIM;
        }
        if temps.len() != width * height {
            return None;
        }
        Some(Grid { width, height, temps })
    }

    /// A copy of the grid that later writes to `self` do not reach.
    pub fn snapshot(&self) -> (r: Grid)
        requires
            self.wf(),
        ensures
            r.wf(),
            r@ == self@,
    {
        let mut temps: Vec<i64> = Vec::new();
        let mut i: usize = 0;
        while i < self.temps.len()
            invariant
                i <= self.temps.len(),
                temps@ == self.temps@.take(i as int),
            decreases self.temps.len() - i,
        {
            temps.push(self.temps[i]);
            i = i + 1;
            proof {
                assert(temps@ =~= self.temps@.take(i as int));
            }
        }
        proof {
            assert(temps@ =~= self.temps@);
        }
        Grid { width: self.width, height: self.height, temps }
    }

    pub fn width(&self) -> (r: usize)
        ensures
            r == self@.width,
    {
        self.width
    }

    pub fn height(&self) -> (r: usize)
        ensures
            r == self@.height,
    {
        self.height
    }

    fn index_of(&self, c: Coord) -> (r: usize)
        requires
            self.wf(),
            self@.contains(c.x as int, c.y as int),
        ensures
            r == self@.index(c.x as int, c.y as int),
            r < self.temps.len(),
    {
        proof {
            lemma_index_in_range(self@, c.x as int, c.y as int);
        }
        c.y * self.width + c.x
    }

    /// The temperature of the cell at `c`.
    pub fn get_temperature(&self, c: Coord) -> (r: i64)
        requires
            self.wf(),
            self@.contains(c.x as int, c.y as int),
        ensures
            r as int == self@.temp_at(c.x as int, c.y as int),
    {
        let i = self.index_of(c);
        self.temps[i]
    }

    /// Sets the temperature of the cell at `c`; every other cell keeps its own.
    pub fn set_temperature(&mut self, c: Coord, t: i64)
        requires
            old(self).wf(),
            old(self)@.contains(c.x as int, c.y as int),
        ensures
            final(self).wf(),
            final(self)@.width == old(self)@.width,
            final(self)@.height == old(self)@.height,
            final(self)@.temps == old(self)@.temps.update(
                old(self)@.index(c.x as int, c.y as int),
                t as int,
            ),
    {
        let i = self.index_of(c);
        self.temps.set(i, t);
        proof {
            assert(self@.temps =~= old(self)@.temps.update(i as int, t as int));
        }
    }

    /// The cell at offset `(dx, dy)` from `c`, wrapped around the torus.
    pub fn neighbor(&self, c: Coord, dx: i8, dy: i8) -> (r: Coord)
        requires
            self.wf(),
            self@.contains(c.x as int, c.y as int),
            -1 <= dx <= 1,
            -1 <= dy <= 1,
        ensures
            r.x as int == wrap(c.x as int, dx as int, self@.width as int),
            r.y as int == wrap(c.y as int, dy as int, self@.height as int),
            self@.contains(r.x as int, r.y as int),
    {
        Coord { x: wrap_step(c.x, dx, self.width), y: wrap_step(c.y, dy, self.height) }
    }

    /// The eight Moore neighbours of `c`, in scan order (x outer, y inner),
    /// without `c` itself.
    pub fn neighbors(&self, c: Coord) -> (r: Vec<Coord>)
        requires
            self.wf(),
            self@.contains(c.x as int, c.y as int),
        ensures
            r.len() == 8,
            forall|k: int| 0 <= k < 8 ==> {
                let s = if k < center_slot() { k } else { k + 1 };
                &&& (#[trigger] r@[k]).x as int == wrap(c.x as int, scan_dx(s), self@.width as int)
                &&& r@[k].y as int == wrap(c.y as int, scan_dy(s), self@.height as int)
            },
    {
        let mut r: Vec<Coord> = Vec::new();
        let mut s: i8 = 0;
        while s < 9
            invariant
                self.wf(),
                self@.contains(c.x as int, c.y as int),
                0 <= s <= 9,
                r.len() == (if s <= center_slot() { s as int } else { s - 1 }),
                forall|k: int| 0 <= k < r.len() ==> {
                    let t = if k < center_slot() { k } else { k + 1 };
                    &&& (#[trigger] r@[k]).x as int == wrap(c.x as int, scan_dx(t), self@.width as int)
                    &&& r@[k].y as int == wrap(c.y as int, scan_dy(t), self@.height as int)
                },
            decreases 9 - s,
        {
            if s != 4 {
                let n = self.neighbor(c, s / 3 - 1, s % 3 - 1);
                r.push(n);
            }
            s = s + 1;
        }
        r
    }

    /// Whether every temperature lies within `[-MAX_TEMP, MAX_TEMP]`.
    pub fn is_bounded(&self) -> (r: bool)
        requires
            self.wf(),
        ensures
            r == self@.bounded(),
    {
        let mut i: usize = 0;
        while i < self.temps.len()
            invariant
                i <= self.temps.len(),
                forall|k: int| 0 <= k < i ==> -MAX_TEMP <= #[trigger] self.temps@[k] <= MAX_TEMP,
            decreases self.temps.len() - i,
        {
            if self.temps[i] < -MAX_TEMP || self.temps[i] > MAX_TEMP {
                proof {
                    assert(self@.temps[i as int] == self.temps@[i as int] as int);
                }
                return false;
            }
            i = i + 1;
        }
        proof {
            assert forall|k: int| 0 <= k < self@.temps.len() implies
                -MAX_TEMP <= #[trigger] self@.temps[k] <= MAX_TEMP by {
                assert(self@.temps[k] == self.temps@[k] as int);
            }
        }
        true
    }
}

} // verus!
