//! Grid state: cells, empires, dimensions, tick counter.

use vstd::prelude::*;

verus! {

/// One grid cell: an owning empire (`0` means unclaimed) and a troop count.
///
/// Invariant (see [`cell_ok`]): `owner == 0` exactly when `troops == 0`,
/// and `troops` never exceeds the grid's troop ceiling.
#[derive(Default, Clone, Copy, Debug, PartialEq, Eq, Structural, Hash)]
pub struct Cell {
    /// Owning empire id; `0` means unclaimed.
    pub owner: u16,
    /// Troop strength stationed in this cell.
    pub troops: u16,
}

/// A faction: a positive id and a display color (RGBA, 8 bits per channel).
#[derive(Clone, Copy, Debug, PartialEq, Eq, Hash)]
pub struct Empire {
    /// Empire id, assigned from 1 in insertion order.
    pub id: u16,
    /// Display color, used only when a frame is rendered.
    pub color: (u8, u8, u8, u8),
}

/// What a coordinate outside `[0, width) x [0, height)` means to `get`.
#[derive(Clone, Copy, Debug, PartialEq, Eq, Structural, Hash)]
pub enum Boundary {
    /// Out-of-range coordinates have no cell: `get` returns `None`.
    Clamped,
    /// Coordinates wrap modulo the grid dimensions: `get` always returns a
    /// cell (unless the grid is empty).
    Toroidal,
}

/// The cell invariant: ownership and troop count are mutually consistent,
/// and the troop count respects the ceiling `max`.
pub open spec fn cell_ok(c: Cell, max: u16) -> bool {
    &&& (c.owner == 0 <==> c.troops == 0)
    &&& c.troops <= max
}

/// The whole simulation state: a `width x height` grid of cells in row-major
/// order, the empire registry, the generation counter, the troop ceiling and
/// the boundary policy.
pub struct World {
    /// Flat cell array, row-major: the cell at `(x, y)` is `cells[y * width + x]`.
    pub cells: Vec<Cell>,
    /// Grid width, fixed between resizes.
    pub width: usize,
    /// Grid height, fixed between resizes.
    pub height: usize,
    /// Empire registry; `empires[k].id == k + 1`.
    pub empires: Vec<Empire>,
    /// Generation counter, incremented once per `update`.
    pub tick: usize,
    /// Troop ceiling: every cell's troop count stays in `[0, max_troops]`.
    pub max_troops: u16,
    /// How coordinates outside the grid are treated by `get`.
    pub boundary: Boundary,
}

impl World {
    /// The dimensions are coherent: the flat array has exactly
    /// `width * height` cells, and both dimensions fit in `isize` so that
    /// signed coordinate arithmetic cannot overflow.
    pub open spec fn dims_ok(self) -> bool {
        &&& self.cells@.len() == self.width * self.height
        &&& self.width <= isize::MAX
        &&& self.height <= isize::MAX
    }

    /// The empire registry assigns ids by 1-based insertion order.
    pub open spec fn empires_ok(self) -> bool {
        &&& self.empires@.len() <= u16::MAX
        &&& forall|k: int|
            0 <= k < self.empires@.len() ==> self.empires@[k].id == k + 1
    }

    /// Every cell satisfies the cell invariant and names an empire that is
    /// actually registered (or is unclaimed).
    pub open spec fn cells_ok(self) -> bool {
        forall|i: int|
            0 <= i < self.cells@.len() ==> {
                &&& cell_ok(#[trigger] self.cells@[i], self.max_troops)
                &&& self.cells@[i].owner <= self.empires@.len()
            }
    }

    /// Well-formedness of the whole state.
    pub open spec fn wf(self) -> bool {
        &&& self.dims_ok()
        &&& self.empires_ok()
        &&& self.cells_ok()
        &&& self.max_troops >= 1
    }

    /// Create an all-unclaimed `width x height` world: no empires, tick 0,
    /// the full `u16` troop range, toroidal boundaries.
    pub fn new(width: usize, height: usize) -> (w: World)
        requires
            width * height <= usize::MAX,
            width <= isize::MAX,
            height <= isize::MAX,
        ensures
            w.wf(),
            w.width == width,
            w.height == height,
            w.empires@.len() == 0,
            w.tick == 0,
            w.max_troops == u16::MAX,
            w.boundary == Boundary::Toroidal,
            forall|i: int| 0 <= i < w.cells@.len() ==> #[trigger] w.cells@[i] == (Cell { owner: 0, troops: 0 }),
    {
        World {
            cells: blank_cells(width, height),
            width,
            height,
            empires: Vec::new(),
            tick: 0,
            max_troops: u16::MAX,
            boundary: Boundary::Toroidal,
        }
    }
}

impl World {
    /// The cell visible at integer coordinates `(x, y)` under this world's
    /// boundary policy, as a mathematical function of the state.
    ///
    /// Clamped: coordinates outside `[0, width) x [0, height)` see no cell.
    /// Toroidal: coordinates wrap modulo the dimensions (Euclidean, so
    /// negative coordinates wrap backwards from the far edge); only an empty
    /// grid sees no cell.
    pub open spec fn spec_get(self, x: int, y: int) -> Option<Cell> {
        match self.boundary {
            Boundary::Clamped => if 0 <= x < self.width && 0 <= y < self.height {
                Some(self.cells@[y * self.width + x])
            } else {
                None
            },
            Boundary::Toroidal => if self.width > 0 && self.height > 0 {
                Some(
                    self.cells@[(y % (self.height as int)) * self.width + (x % (self.width as int))],
                )
            } else {
                None
            },
        }
    }

    /// Bounds-checked read of the cell at `(x, y)` under the boundary policy.
    ///
    /// The result is a pure function of the state and the coordinates
    /// ([`World::spec_get`]); two calls without an intervening mutation
    /// return identical values.
    pub fn get(&self, x: isize, y: isize) -> (r: Option<&Cell>)
        requires
            self.dims_ok(),
        ensures
            match r {
                Some(c) => self.spec_get(x as int, y as int) == Some(*c),
                None => self.spec_get(x as int, y as int) is None,
            },
    {
        match self.boundary {
            Boundary::Clamped => {
                if 0 <= x && x < self.width as isize && 0 <= y && y < self.height as isize {
                    // Materializes the cell count as a `usize`, so the
                    // verifier knows the row-major index fits the machine.
                    let _n = self.cells.len();
                    proof {
                        lemma_row_major_in_bounds(x as int, y as int, self.width as int, self.height as int);
                    }
                    let i = (y as usize) * self.width + (x as usize);
                    Some(&self.cells[i])
                } else {
                    None
                }
            },
            Boundary::Toroidal => {
                if self.width > 0 && self.height > 0 {
                    let _n = self.cells.len();
                    let xi = wrap_coord(x, self.width);
                    let yi = wrap_coord(y, self.height);
                    proof {
                        lemma_row_major_in_bounds(xi as int, yi as int, self.width as int, self.height as int);
                    }
                    let i = yi * self.width + xi;
                    Some(&self.cells[i])
                } else {
                    None
                }
            },
        }
    }
}

impl World {
    /// Bounds-checked write of the cell at `(x, y)`.
    ///
    /// Out-of-range coordinates are a caller error and are excluded by the
    /// precondition, as is a cell value that breaks the cell invariant or
    /// names an unregistered empire. Used by external painting only, never
    /// by the update engine.
    pub fn set(&mut self, x: isize, y: isize, val: Cell)
        requires
            old(self).wf(),
            0 <= x < old(self).width,
            0 <= y < old(self).height,
            cell_ok(val, old(self).max_troops),
            val.owner <= old(self).empires@.len(),
        ensures
            final(self).wf(),
            final(self).cells@ == old(self).cells@.update(
                y as int * old(self).width + x as int,
                val,
            ),
            final(self).width == old(self).width,
            final(self).height == old(self).height,
            final(self).empires == old(self).empires,
            final(self).tick == old(self).tick,
            final(self).max_troops == old(self).max_troops,
            final(self).boundary == old(self).boundary,
    {
        let _n = self.cells.len();
        proof {
            lemma_row_major_in_bounds(x as int, y as int, self.width as int, self.height as int);
        }
        let i = (y as usize) * self.width + (x as usize);
        self.cells[i] = val;
    }

    /// Append a new empire with the given display color; its id is its
    /// 1-based position in the registry, and the returned value.
    pub fn add_empire(&mut self, color: (u8, u8, u8, u8)) -> (id: u16)
        requires
            old(self).wf(),
            old(self).empires@.len() < u16::MAX,
        ensures
            final(self).wf(),
            id == old(self).empires@.len() + 1,
            final(self).empires@ == old(self).empires@.push(Empire { id, color }),
            final(self).cells == old(self).cells,
            final(self).width == old(self).width,
            final(self).height == old(self).height,
            final(self).tick == old(self).tick,
            final(self).max_troops == old(self).max_troops,
            final(self).boundary == old(self).boundary,
    {
        let id = (self.empires.len() as u16) + 1;
        self.empires.push(Empire { id, color });
        id
    }

    /// Reallocate the grid to `new_width x new_height`, all cells unclaimed.
    /// The tick counter, the empire registry, the troop ceiling and the
    /// boundary policy are preserved; prior cell content is discarded.
    pub fn resize(&mut self, new_width: usize, new_height: usize)
        requires
            old(self).wf(),
            new_width * new_height <= usize::MAX,
            new_width <= isize::MAX,
            new_height <= isize::MAX,
        ensures
            final(self).wf(),
            final(self).width == new_width,
            final(self).height == new_height,
            forall|i: int|
                0 <= i < final(self).cells@.len() ==> #[trigger] final(self).cells@[i] == (Cell {
                    owner: 0,
                    troops: 0,
                }),
            final(self).empires == old(self).empires,
            final(self).tick == old(self).tick,
            final(self).max_troops == old(self).max_troops,
            final(self).boundary == old(self).boundary,
    {
        self.cells = blank_cells(new_width, new_height);
        self.width = new_width;
        self.height = new_height;
    }
}

/// How many cells of `s` empire `id` owns.
pub open spec fn count_matching(s: Seq<Cell>, id: u16) -> int
    decreases s.len(),
{
    if s.len() == 0 {
        0
    } else {
        count_matching(s.drop_last(), id) + if s.last().owner == id {
            1int
        } else {
            0int
        }
    }
}

/// The total troop strength on the cells of `s` that empire `id` owns.
pub open spec fn sum_troops(s: Seq<Cell>, id: u16) -> int
    decreases s.len(),
{
    if s.len() == 0 {
        0
    } else {
        sum_troops(s.drop_last(), id) + if s.last().owner == id {
            s.last().troops as int
        } else {
            0int
        }
    }
}

/// Empire `id` owns no more cells of `s` than `s` has.
pub proof fn lemma_count_le_len(s: Seq<Cell>, id: u16)
    ensures
        0 <= count_matching(s, id) <= s.len(),
    decreases s.len(),
{
    if s.len() > 0 {
        lemma_count_le_len(s.drop_last(), id);
    }
}

/// Empire `id` owns a cell of `s` exactly when its count is positive.
pub proof fn lemma_count_pos(s: Seq<Cell>, id: u16)
    ensures
        count_matching(s, id) > 0 <==> exists|k: int|
            0 <= k < s.len() && (#[trigger] s[k]).owner == id,
    decreases s.len(),
{
    if s.len() > 0 {
        lemma_count_pos(s.drop_last(), id);
        lemma_count_le_len(s.drop_last(), id);
        let d = s.drop_last();
        if count_matching(s, id) > 0 {
            if s.last().owner == id {
                assert(s[s.len() - 1].owner == id);
            } else {
                assert(count_matching(d, id) > 0);
                let k = choose|k: int| 0 <= k < d.len() && (#[trigger] d[k]).owner == id;
                assert(s[k].owner == id);
            }
            assert(exists|k: int| 0 <= k < s.len() && (#[trigger] s[k]).owner == id);
        }
        if exists|k: int| 0 <= k < s.len() && (#[trigger] s[k]).owner == id {
            let k = choose|k: int| 0 <= k < s.len() && (#[trigger] s[k]).owner == id;
            if k == s.len() - 1 {
                assert(s.last().owner == id);
            } else {
                assert(d[k].owner == id);
                assert(count_matching(d, id) > 0);
            }
            assert(count_matching(s, id) > 0);
        }
    }
}

impl World {
    /// How many cells empire `id` currently owns — one of the aggregate
    /// read accessors the summary panel consumes.
    pub fn empire_cells(&self, id: u16) -> (n: usize)
        ensures
            n == count_matching(self.cells@, id),
    {
        let mut n: usize = 0;
        let mut i: usize = 0;
        while i < self.cells.len()
            invariant
                i <= self.cells@.len(),
                n == count_matching(self.cells@.take(i as int), id),
            decreases self.cells@.len() - i,
        {
            proof {
                assert(self.cells@.take(i + 1).drop_last() =~= self.cells@.take(i as int));
                assert(self.cells@.take(i + 1).last() == self.cells@[i as int]);
                lemma_count_le_len(self.cells@.take(i as int), id);
            }
            if self.cells[i].owner == id {
                n += 1;
            }
            i += 1;
        }
        proof {
            assert(self.cells@.take(self.cells@.len() as int) =~= self.cells@);
        }
        n
    }

    /// The total troop strength of empire `id` — the other aggregate read
    /// accessor the summary panel consumes. The machine-width bound on the
    /// cell count keeps the 64-bit total from overflowing.
    pub fn empire_troops(&self, id: u16) -> (t: u64)
        requires
            self.cells@.len() * (u16::MAX as int) <= u64::MAX,
        ensures
            t == sum_troops(self.cells@, id),
    {
        let mut t: u64 = 0;
        let mut i: usize = 0;
        while i < self.cells.len()
            invariant
                i <= self.cells@.len(),
                self.cells@.len() * (u16::MAX as int) <= u64::MAX,
                t == sum_troops(self.cells@.take(i as int), id),
                t <= i * (u16::MAX as int),
            decreases self.cells@.len() - i,
        {
            proof {
                assert(self.cells@.take(i + 1).drop_last() =~= self.cells@.take(i as int));
                assert(self.cells@.take(i + 1).last() == self.cells@[i as int]);
                vstd::arithmetic::mul::lemma_mul_inequality(
                    i + 1,
                    self.cells@.len() as int,
                    u16::MAX as int,
                );
            }
            if self.cells[i].owner == id {
                t += self.cells[i].troops as u64;
            }
            i += 1;
        }
        proof {
            assert(self.cells@.take(self.cells@.len() as int) =~= self.cells@);
        }
        t
    }
}

/// The RGBA pixel shown for a cell: the owning empire's color scaled by the
/// cell's troop fraction `troops / max` (integer arithmetic, rounding down;
/// alpha is kept as-is), or an opaque black background for unclaimed cells.
pub open spec fn pixel_of(c: Cell, empires: Seq<Empire>, max: u16) -> (u8, u8, u8, u8) {
    if c.owner != 0 {
        let col = empires[c.owner - 1].color;
        (
            ((col.0 * c.troops) / (max as int)) as u8,
            ((col.1 * c.troops) / (max as int)) as u8,
            ((col.2 * c.troops) / (max as int)) as u8,
            col.3,
        )
    } else {
        (0, 0, 0, 255)
    }
}

impl World {
    /// Render the grid to an RGBA frame, four bytes per cell in row-major
    /// order, each pixel as given by [`pixel_of`].
    ///
    /// Assumes the consumer treats the bytes as `Rgba8UnormSrgb` texture data.
    pub fn draw(&self) -> (frame: Vec<u8>)
        requires
            self.wf(),
        ensures
            frame@.len() == 4 * self.cells@.len(),
            forall|i: int|
                0 <= i < self.cells@.len() ==> {
                    let p = pixel_of(#[trigger] self.cells@[i], self.empires@, self.max_troops);
                    &&& frame@[4 * i] == p.0
                    &&& frame@[4 * i + 1] == p.1
                    &&& frame@[4 * i + 2] == p.2
                    &&& frame@[4 * i + 3] == p.3
                },
    {
        let n = self.cells.len();
        let mut frame: Vec<u8> = Vec::new();
        let mut i: usize = 0;
        while i < n
            invariant
                self.wf(),
                i <= n,
                n == self.cells@.len(),
                frame@.len() == 4 * i,
                forall|k: int|
                    0 <= k < i ==> {
                        let p = pixel_of(#[trigger] self.cells@[k], self.empires@, self.max_troops);
                        &&& frame@[4 * k] == p.0
                        &&& frame@[4 * k + 1] == p.1
                        &&& frame@[4 * k + 2] == p.2
                        &&& frame@[4 * k + 3] == p.3
                    },
            decreases n - i,
        {
            let c = self.cells[i];
            let p = self.pixel(c);
            frame.push(p.0);
            frame.push(p.1);
            frame.push(p.2);
            frame.push(p.3);
            i += 1;
        }
        frame
    }

    /// The pixel for one cell, as [`pixel_of`] describes it.
    fn pixel(&self, c: Cell) -> (p: (u8, u8, u8, u8))
        requires
            self.wf(),
            cell_ok(c, self.max_troops),
            c.owner <= self.empires@.len(),
        ensures
            p == pixel_of(c, self.empires@, self.max_troops),
    {
        if c.owner != 0 {
            let col = self.empires[(c.owner - 1) as usize].color;
            (
                scale_channel(col.0, c.troops, self.max_troops),
                scale_channel(col.1, c.troops, self.max_troops),
                scale_channel(col.2, c.troops, self.max_troops),
                col.3,
            )
        } else {
            (0, 0, 0, 255)
        }
    }
}

/// One color channel scaled by the troop fraction `t / max`, rounding down.
fn scale_channel(ch: u8, t: u16, max: u16) -> (r: u8)
    requires
        1 <= max,
        t <= max,
    ensures
        r == (ch * t) / (max as int),
{
    proof {
        lemma_scale_bounded(ch as int, t as int, max as int);
        vstd::arithmetic::mul::lemma_mul_upper_bound(ch as int, 255, t as int, 65535);
    }
    ((ch as u32 * t as u32) / max as u32) as u8
}

/// Scaling a channel by a fraction no greater than one cannot exceed the
/// channel value itself.
pub(crate) proof fn lemma_scale_bounded(ch: int, t: int, max: int)
    requires
        0 <= ch,
        0 <= t <= max,
        1 <= max,
    ensures
        0 <= (ch * t) / max <= ch,
{
    vstd::arithmetic::mul::lemma_mul_inequality(t, max, ch);
    vstd::arithmetic::div_mod::lemma_div_is_ordered(t * ch, max * ch, max);
    vstd::arithmetic::div_mod::lemma_div_multiples_vanish(ch, max);
    vstd::arithmetic::div_mod::lemma_div_pos_is_pos(ch * t, max);
    assert(t * ch == ch * t) by (nonlinear_arith);
    assert(max * ch == ch * max) by (nonlinear_arith);
}

/// A row-major index built from in-range coordinates lies inside the grid.
pub(crate) proof fn lemma_row_major_in_bounds(x: int, y: int, w: int, h: int)
    requires
        0 <= x < w,
        0 <= y < h,
    ensures
        0 <= y * w + x < w * h,
{
    assert(0 <= y * w + x < w * h) by (nonlinear_arith)
        requires
            0 <= x < w,
            0 <= y < h,
    ;
}

/// Euclidean reduction of a signed coordinate into `[0, m)`.
fn wrap_coord(v: isize, m: usize) -> (r: usize)
    requires
        1 <= m <= isize::MAX,
    ensures
        r < m,
        r == (v as int) % (m as int),
{
    if v >= 0 {
        (v as usize) % m
    } else {
        let q = ((-(v + 1)) as usize) % m;
        proof {
            lemma_wrap_negative(v as int, m as int, q as int);
        }
        m - 1 - q
    }
}

/// For a negative coordinate `v`, the Euclidean remainder modulo `m` is
/// `m - 1 - ((-v - 1) % m)`.
proof fn lemma_wrap_negative(v: int, m: int, q: int)
    requires
        m >= 1,
        v < 0,
        q == (-v - 1) % m,
    ensures
        0 <= m - 1 - q < m,
        m - 1 - q == v % m,
{
    let a = -v - 1;
    vstd::arithmetic::div_mod::lemma_fundamental_div_mod(a, m);
    vstd::arithmetic::div_mod::lemma_mod_bound(a, m);
    let d = a / m;
    assert(v == (-d - 1) * m + (m - 1 - q)) by (nonlinear_arith)
        requires
            a == m * d + q,
            v == -a - 1,
    ;
    vstd::arithmetic::div_mod::lemma_fundamental_div_mod_converse_mod(v, m, -d - 1, m - 1 - q);
}

/// An all-unclaimed row-major cell array for a `width x height` grid.
fn blank_cells(width: usize, height: usize) -> (cells: Vec<Cell>)
    requires
        width * height <= usize::MAX,
    ensures
        cells@.len() == width * height,
        forall|i: int| 0 <= i < cells@.len() ==> #[trigger] cells@[i] == (Cell { owner: 0, troops: 0 }),
{
    let n = width * height;
    let mut cells: Vec<Cell> = Vec::new();
    let mut i: usize = 0;
    while i < n
        invariant
            i <= n,
            cells@.len() == i,
            forall|k: int| 0 <= k < i ==> #[trigger] cells@[k] == (Cell { owner: 0, troops: 0 }),
        decreases n - i,
    {
        cells.push(Cell { owner: 0, troops: 0 });
        i += 1;
    }
    cells
}

} // verus!
