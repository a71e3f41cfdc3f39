//! The update engine: one generation of the conquest rule.
//!
//! Each generation reads one immutable snapshot of the grid and produces the
//! next one; no cell ever observes a neighbor's already-updated value. Per
//! cell the rule is: gather the Moore neighborhood under the grid's boundary
//! policy, count friendly support, apply periodic attrition, then let the
//! neighboring empires contend for the cell — most-represented empire first,
//! ties broken in favor of the earlier-registered empire — and finally reset
//! ownership of an emptied cell.
//!
//! Randomness (the representative neighbor drawn per contending empire and
//! the troop multiplier applied on a takeover) is non-reproducible; the
//! contracts here state what holds of every outcome of those draws.

use rand::Rng;
use vstd::prelude::*;

use crate::world::{
    cell_ok, count_matching, lemma_count_le_len, lemma_count_pos, lemma_row_major_in_bounds, Cell,
    World,
};

verus! {

/// Attrition period: the cell at flat index `i` decays on generations where
/// `(tick + i) % DECAY_PERIOD == 0`.
pub const DECAY_PERIOD: usize = 5;

/// Some cell of `cells` is owned by empire `id`.
pub open spec fn in_owners(cells: Seq<Cell>, id: u16) -> bool {
    exists|j: int| 0 <= j < cells.len() && (#[trigger] cells[j]).owner == id
}

/// Every owned cell of `new_cells` belongs to an empire that already held
/// some cell of `old_cells`: one generation never puts an empire on the
/// board that was not on it before.
pub open spec fn owners_drawn_from(old_cells: Seq<Cell>, new_cells: Seq<Cell>) -> bool {
    forall|i: int|
        0 <= i < new_cells.len() ==> ((#[trigger] new_cells[i]).owner == 0 || in_owners(
            old_cells,
            new_cells[i].owner,
        ))
}

/// `c` is one of the cells of `cells`.
pub open spec fn from_grid(cells: Seq<Cell>, c: Cell) -> bool {
    exists|j: int| 0 <= j < cells.len() && #[trigger] cells[j] == c
}

/// The cell of an optional lookup as a sequence: one element if present,
/// none otherwise.
pub open spec fn opt_seq(o: Option<Cell>) -> Seq<Cell> {
    match o {
        Some(c) => seq![c],
        None => Seq::empty(),
    }
}

/// The Moore neighborhood of `(x, y)` as the sequence of present neighbors,
/// in the fixed gathering order of the engine.
pub open spec fn neighbor_seq(w: World, x: int, y: int) -> Seq<Cell> {
    opt_seq(w.spec_get(x - 1, y)) + opt_seq(w.spec_get(x + 1, y)) + opt_seq(w.spec_get(x, y - 1))
        + opt_seq(w.spec_get(x, y + 1)) + opt_seq(w.spec_get(x - 1, y - 1)) + opt_seq(
        w.spec_get(x + 1, y - 1),
    ) + opt_seq(w.spec_get(x - 1, y + 1)) + opt_seq(w.spec_get(x + 1, y + 1))
}

/// The Moore neighborhood of the cell at flat index `i`.
pub open spec fn neighbor_seq_at(w: World, i: int) -> Seq<Cell> {
    neighbor_seq(w, i % (w.width as int), i / (w.width as int))
}

/// Some Moore neighbor of the cell at flat index `i` is owned by empire `id`.
pub open spec fn has_neighbor_owner(w: World, i: int, id: u16) -> bool {
    exists|k: int|
        0 <= k < neighbor_seq_at(w, i).len() && (#[trigger] neighbor_seq_at(w, i)[k]).owner == id
}

/// Some Moore neighbor of the cell at flat index `i` is owned at all.
pub open spec fn has_owned_neighbor(w: World, i: int) -> bool {
    exists|k: int|
        0 <= k < neighbor_seq_at(w, i).len() && (#[trigger] neighbor_seq_at(w, i)[k]).owner != 0
}

/// Every owned Moore neighbor of the cell at flat index `i` has at least two
/// troops — enough that a takeover's downscaled troop grant cannot vanish.
pub open spec fn owned_neighbors_strong(w: World, i: int) -> bool {
    forall|k: int|
        0 <= k < neighbor_seq_at(w, i).len() && (#[trigger] neighbor_seq_at(w, i)[k]).owner != 0
            ==> neighbor_seq_at(w, i)[k].troops >= 2
}

/// Some cell of `s` is owned by empire `id` and holds exactly `t` troops.
pub open spec fn troops_of_owner(s: Seq<Cell>, id: u16, t: u16) -> bool {
    exists|k: int| 0 <= k < s.len() && (#[trigger] s[k]).owner == id && s[k].troops == t
}

/// Relies on `rand::Rng::gen_range` over `rand::thread_rng` with the range
/// `0..n`: the documentation promises a value inside the given range and a
/// panic only on an empty range. Nothing more is assumed of the draw; in
/// particular two calls on the same bound may differ.
#[verifier::external_body]
fn rand_below(n: usize) -> (r: usize)
    requires
        n >= 1,
    ensures
        r < n,
{
    rand::thread_rng().gen_range(0..n)
}

/// Every present Moore neighbor is a cell of the grid.
proof fn lemma_neighbor_seq_in_grid(w: World, x: int, y: int)
    requires
        w.dims_ok(),
    ensures
        forall|k: int|
            0 <= k < neighbor_seq(w, x, y).len() ==> from_grid(
                w.cells@,
                #[trigger] neighbor_seq(w, x, y)[k],
            ),
{
    if w.spec_get(x - 1, y) is Some {
        lemma_spec_get_from_grid(w, x - 1, y);
    }
    if w.spec_get(x + 1, y) is Some {
        lemma_spec_get_from_grid(w, x + 1, y);
    }
    if w.spec_get(x, y - 1) is Some {
        lemma_spec_get_from_grid(w, x, y - 1);
    }
    if w.spec_get(x, y + 1) is Some {
        lemma_spec_get_from_grid(w, x, y + 1);
    }
    if w.spec_get(x - 1, y - 1) is Some {
        lemma_spec_get_from_grid(w, x - 1, y - 1);
    }
    if w.spec_get(x + 1, y - 1) is Some {
        lemma_spec_get_from_grid(w, x + 1, y - 1);
    }
    if w.spec_get(x - 1, y + 1) is Some {
        lemma_spec_get_from_grid(w, x - 1, y + 1);
    }
    if w.spec_get(x + 1, y + 1) is Some {
        lemma_spec_get_from_grid(w, x + 1, y + 1);
    }
}

/// An owner seen among the Moore neighbors of index `i` owns a cell of the
/// grid.
proof fn lemma_neighbor_owner_in_grid(w: World, i: int, id: u16)
    requires
        w.dims_ok(),
        has_neighbor_owner(w, i, id),
    ensures
        in_owners(w.cells@, id),
{
    let x = i % (w.width as int);
    let y = i / (w.width as int);
    lemma_neighbor_seq_in_grid(w, x, y);
    let k = choose|k: int|
        0 <= k < neighbor_seq_at(w, i).len() && (#[trigger] neighbor_seq_at(w, i)[k]).owner == id;
    let j = choose|j: int| 0 <= j < w.cells@.len() && #[trigger] w.cells@[j] == neighbor_seq_at(w, i)[k];
    assert(w.cells@[j].owner == id);
}

/// A cell returned by `spec_get` is a cell of the grid.
proof fn lemma_spec_get_from_grid(w: World, x: int, y: int)
    requires
        w.dims_ok(),
        w.spec_get(x, y) is Some,
    ensures
        from_grid(w.cells@, w.spec_get(x, y).unwrap()),
{
    match w.boundary {
        crate::world::Boundary::Clamped => {
            let i = y * w.width + x;
            lemma_row_major_in_bounds(x, y, w.width as int, w.height as int);
            assert(0 <= i < w.cells@.len() && w.cells@[i] == w.spec_get(x, y).unwrap());
        },
        crate::world::Boundary::Toroidal => {
            let xi = x % (w.width as int);
            let yi = y % (w.height as int);
            vstd::arithmetic::div_mod::lemma_mod_bound(x, w.width as int);
            vstd::arithmetic::div_mod::lemma_mod_bound(y, w.height as int);
            let i = yi * w.width + xi;
            lemma_row_major_in_bounds(xi, yi, w.width as int, w.height as int);
            assert(0 <= i < w.cells@.len() && w.cells@[i] == w.spec_get(x, y).unwrap());
        },
    }
}

impl World {
    /// Append the cell seen at `(x, y)`, if any, to the working neighbor set.
    fn push_neighbor(&self, nbrs: &mut Vec<Cell>, x: isize, y: isize)
        requires
            self.dims_ok(),
        ensures
            final(nbrs)@ == old(nbrs)@ + opt_seq(self.spec_get(x as int, y as int)),
            forall|k: int|
                old(nbrs)@.len() <= k < final(nbrs)@.len() ==> from_grid(
                    self.cells@,
                    #[trigger] final(nbrs)@[k],
                ),
    {
        match self.get(x, y) {
            Some(c) => {
                let cc = *c;
                proof {
                    lemma_spec_get_from_grid(*self, x as int, y as int);
                }
                nbrs.push(cc);
                proof {
                    assert(nbrs@ =~= old(nbrs)@ + opt_seq(self.spec_get(x as int, y as int)));
                }
            },
            None => {
                proof {
                    assert(nbrs@ =~= old(nbrs)@ + opt_seq(self.spec_get(x as int, y as int)));
                }
            },
        }
    }

    /// The up-to-8 Moore neighbors of the cell at `(x, y)`, under this
    /// world's boundary policy; absent neighbors are dropped.
    fn moore_neighbors(&self, x: isize, y: isize) -> (nbrs: Vec<Cell>)
        requires
            self.dims_ok(),
            0 <= x < self.width,
            0 <= y < self.height,
        ensures
            nbrs@.len() <= 8,
            nbrs@ == neighbor_seq(*self, x as int, y as int),
            forall|k: int| 0 <= k < nbrs@.len() ==> from_grid(self.cells@, #[trigger] nbrs@[k]),
    {
        let mut nbrs: Vec<Cell> = Vec::new();
        self.push_neighbor(&mut nbrs, x - 1, y);
        self.push_neighbor(&mut nbrs, x + 1, y);
        self.push_neighbor(&mut nbrs, x, y - 1);
        self.push_neighbor(&mut nbrs, x, y + 1);
        self.push_neighbor(&mut nbrs, x - 1, y - 1);
        self.push_neighbor(&mut nbrs, x + 1, y - 1);
        self.push_neighbor(&mut nbrs, x - 1, y + 1);
        self.push_neighbor(&mut nbrs, x + 1, y + 1);
        proof {
            assert(nbrs@ =~= neighbor_seq(*self, x as int, y as int));
        }
        nbrs
    }
}

/// The troop counts of the cells of `nbrs` that empire `id` owns, in order.
fn collect_matching(nbrs: &Vec<Cell>, id: u16) -> (v: Vec<u16>)
    ensures
        v@.len() == count_matching(nbrs@, id),
        forall|q: int| 0 <= q < v@.len() ==> troops_of_owner(nbrs@, id, #[trigger] v@[q]),
{
    let mut v: Vec<u16> = Vec::new();
    let mut i: usize = 0;
    while i < nbrs.len()
        invariant
            i <= nbrs@.len(),
            v@.len() == count_matching(nbrs@.take(i as int), id),
            forall|q: int| 0 <= q < v@.len() ==> troops_of_owner(nbrs@, id, #[trigger] v@[q]),
        decreases nbrs@.len() - i,
    {
        proof {
            assert(nbrs@.take(i + 1).drop_last() =~= nbrs@.take(i as int));
            assert(nbrs@.take(i + 1).last() == nbrs@[i as int]);
        }
        if nbrs[i].owner == id {
            v.push(nbrs[i].troops);
        }
        i += 1;
    }
    proof {
        assert(nbrs@.take(nbrs@.len() as int) =~= nbrs@);
    }
    v
}

/// One empire contending for a cell: its id, the troop count of the
/// representative neighbor drawn for it, and how many neighbors it owns.
#[derive(Clone, Copy)]
struct Contender {
    id: u16,
    rep_troops: u16,
    count: usize,
}

/// A contender names a registered empire, and its representative's troop
/// count was read off one of that empire's cells in the working neighbor
/// set.
spec fn contender_ok(w: World, nbrs: Seq<Cell>, c: Contender) -> bool {
    &&& 1 <= c.id <= w.empires@.len()
    &&& troops_of_owner(nbrs, c.id, c.rep_troops)
}

/// In-range coordinates of a flat row-major index.
proof fn lemma_flat_index_coords(i: int, w: int, h: int)
    requires
        0 <= i < w * h,
        1 <= w,
    ensures
        0 <= i % w < w,
        0 <= i / w < h,
{
    vstd::arithmetic::div_mod::lemma_mod_bound(i, w);
    vstd::arithmetic::div_mod::lemma_div_pos_is_pos(i, w);
    vstd::arithmetic::div_mod::lemma_multiply_divide_lt(i, w, h);
}

/// `c` is one of the entries of `src`.
spec fn drawn_from(src: Seq<Contender>, c: Contender) -> bool {
    exists|s: int| 0 <= s < src.len() && #[trigger] src[s] == c
}

impl World {
    /// The empires with at least one neighbor in the working set, each with
    /// a representative neighbor drawn uniformly at random among its
    /// neighbors and with its neighbor count, in registry order.
    ///
    /// There are contenders exactly when some neighbor is owned: every
    /// owned neighbor names a registered empire, and that empire enters the
    /// contest.
    fn gather_contenders(&self, nbrs: &Vec<Cell>) -> (v: Vec<Contender>)
        requires
            self.wf(),
            forall|k: int| 0 <= k < nbrs@.len() ==> from_grid(self.cells@, #[trigger] nbrs@[k]),
        ensures
            forall|t: int| 0 <= t < v@.len() ==> contender_ok(*self, nbrs@, #[trigger] v@[t]),
            (exists|k: int| 0 <= k < nbrs@.len() && (#[trigger] nbrs@[k]).owner != 0) ==> v@.len()
                > 0,
            v@.len() > 0 ==> exists|k: int|
                0 <= k < nbrs@.len() && (#[trigger] nbrs@[k]).owner != 0,
    {
        let mut v: Vec<Contender> = Vec::new();
        let mut k: usize = 0;
        while k < self.empires.len()
            invariant
                self.wf(),
                k <= self.empires@.len(),
                forall|q: int| 0 <= q < nbrs@.len() ==> from_grid(self.cells@, #[trigger] nbrs@[q]),
                forall|t: int| 0 <= t < v@.len() ==> contender_ok(*self, nbrs@, #[trigger] v@[t]),
                (exists|q: int|
                    0 <= q < nbrs@.len() && 1 <= (#[trigger] nbrs@[q]).owner <= k) ==> v@.len() > 0,
            decreases self.empires@.len() - k,
        {
            let id = self.empires[k].id;
            let matching = collect_matching(nbrs, id);
            if matching.len() > 0 {
                let idx = rand_below(matching.len());
                let rep = matching[idx];
                proof {
                    assert(troops_of_owner(nbrs@, id, matching@[idx as int]));
                }
                v.push(Contender { id, rep_troops: rep, count: matching.len() });
            } else {
                proof {
                    lemma_count_pos(nbrs@, id);
                    assert forall|q: int|
                        0 <= q < nbrs@.len() && 1 <= (#[trigger] nbrs@[q]).owner <= k
                            + 1 implies v@.len() > 0 by {
                        assert(nbrs@[q].owner != id);
                        assert(1 <= nbrs@[q].owner <= k);
                    }
                }
            }
            k += 1;
        }
        proof {
            // Every neighbor's owner is a registered empire id, so an owned
            // neighbor implies a contender; and each contender's
            // representative was read off an owned neighbor.
            assert forall|q: int|
                0 <= q < nbrs@.len() && (#[trigger] nbrs@[q]).owner != 0 implies 1 <= nbrs@[q].owner
                <= self.empires@.len() by {
                let j = choose|j: int|
                    0 <= j < self.cells@.len() && #[trigger] self.cells@[j] == nbrs@[q];
            }
            if v@.len() > 0 {
                let c = v@[0];
                let kk = choose|kk: int|
                    0 <= kk < nbrs@.len() && (#[trigger] nbrs@[kk]).owner == c.id && nbrs@[kk].troops
                        == c.rep_troops;
                assert(nbrs@[kk].owner != 0);
            }
        }
        v
    }

    /// The troop count granted by a takeover or reinforcement: the
    /// representative's troops scaled by a random multiplier drawn from
    /// `[0.970, 1.030)` (in thousandths), clamped to the troop ceiling.
    /// Whatever the draw, at least two troops never scale down to nothing.
    fn scale_troops(&self, t: u16) -> (r: u16)
        requires
            self.max_troops >= 1,
        ensures
            r <= self.max_troops,
            t >= 2 ==> r >= 1,
    {
        let m = 970 + rand_below(60);
        proof {
            vstd::arithmetic::mul::lemma_mul_upper_bound(t as int, 65535, m as int, 1029);
            vstd::arithmetic::div_mod::lemma_div_pos_is_pos((t * m) as int, 1000);
            if t >= 2 {
                assert(t as int * m as int >= 1940) by (nonlinear_arith)
                    requires
                        t >= 2,
                        m >= 970,
                ;
                vstd::arithmetic::div_mod::lemma_div_is_ordered(
                    1940,
                    t as int * m as int,
                    1000,
                );
            }
        }
        let v = ((t as u64) * (m as u64)) / 1000;
        if v > self.max_troops as u64 {
            self.max_troops
        } else {
            v as u16
        }
    }
}

/// Order the contenders by neighbor count, most-represented first; among
/// equal counts the earlier entry (the earlier-registered empire) keeps its
/// place. Every entry of the result is an entry of the input.
fn rank_contenders(v: Vec<Contender>) -> (out: Vec<Contender>)
    ensures
        out@.len() == v@.len(),
        forall|a: int, b: int|
            0 <= a <= b < out@.len() ==> (#[trigger] out@[a]).count >= (#[trigger] out@[b]).count,
        forall|t: int| 0 <= t < out@.len() ==> drawn_from(v@, #[trigger] out@[t]),
{
    let ghost orig = v@;
    let mut rest = v;
    let mut out: Vec<Contender> = Vec::new();
    proof {
        assert forall|t: int| 0 <= t < rest@.len() implies drawn_from(orig, #[trigger] rest@[t]) by {
            assert(orig[t] == rest@[t]);
        }
    }
    while rest.len() > 0
        invariant
            out@.len() + rest@.len() == orig.len(),
            forall|a: int, b: int|
                0 <= a <= b < out@.len() ==> (#[trigger] out@[a]).count >= (
                #[trigger] out@[b]).count,
            forall|a: int, b: int|
                0 <= a < out@.len() && 0 <= b < rest@.len() ==> (#[trigger] out@[a]).count
                    >= (#[trigger] rest@[b]).count,
            forall|t: int| 0 <= t < out@.len() ==> drawn_from(orig, #[trigger] out@[t]),
            forall|t: int| 0 <= t < rest@.len() ==> drawn_from(orig, #[trigger] rest@[t]),
        decreases rest@.len(),
    {
        let mut best: usize = 0;
        let mut m: usize = 1;
        while m < rest.len()
            invariant
                rest@.len() > 0,
                best < m <= rest@.len(),
                forall|q: int| 0 <= q < m ==> (#[trigger] rest@[q]).count <= rest@[best as int].count,
            decreases rest@.len() - m,
        {
            if rest[m].count > rest[best].count {
                best = m;
            }
            m += 1;
        }
        let ghost prev = rest@;
        let c = rest.remove(best);
        proof {
            prev.remove_ensures(best as int);
            assert forall|t: int| 0 <= t < rest@.len() implies drawn_from(
                orig,
                #[trigger] rest@[t],
            ) by {
                if t < best {
                    assert(rest@[t] == prev[t]);
                } else {
                    assert(rest@[t] == prev[t + 1]);
                }
            }
            assert forall|b: int| 0 <= b < rest@.len() implies c.count >= (
            #[trigger] rest@[b]).count by {
                if b < best {
                    assert(rest@[b] == prev[b]);
                } else {
                    assert(rest@[b] == prev[b + 1]);
                }
            }
        }
        out.push(c);
    }
    out
}

impl World {
    /// The next-generation value of the cell at flat index `i`, computed
    /// entirely from the current snapshot.
    ///
    /// In order: Moore-neighbor gather, friendly-support count, periodic
    /// attrition, ranked conquest contention (at most one rule fires), and
    /// extinction — a cell left without troops becomes unclaimed. The result
    /// satisfies the cell invariant, and its owner, if any, already owns a
    /// cell of the snapshot.
    fn step_cell(&self, i: usize) -> (c: Cell)
        requires
            self.wf(),
            i < self.cells@.len(),
        ensures
            cell_ok(c, self.max_troops),
            c.owner <= self.empires@.len(),
            c.owner == 0 || c.owner == self.cells@[i as int].owner || has_neighbor_owner(
                *self,
                i as int,
                c.owner,
            ),
            self.cells@[i as int].owner == 0 && !has_owned_neighbor(*self, i as int) ==> c
                == self.cells@[i as int],
            self.cells@[i as int].owner == 0 && has_owned_neighbor(*self, i as int)
                && owned_neighbors_strong(*self, i as int) ==> c.owner != 0,
            self.cells@[i as int].owner != 0 && !has_owned_neighbor(*self, i as int) ==> c == (
            if (self.tick + i) % (DECAY_PERIOD as int) == 0 {
                Cell { owner: 0, troops: 0 }
            } else {
                self.cells@[i as int]
            }),
    {
        proof {
            if self.width == 0 {
                assert(self.width * self.height == 0);
            }
            lemma_flat_index_coords(i as int, self.width as int, self.height as int);
        }
        let x = (i % self.width) as isize;
        let y = (i / self.width) as isize;
        let mut cell = self.cells[i];
        let ghost orig = self.cells@[i as int];

        let nbrs = self.moore_neighbors(x, y);
        proof {
            assert(nbrs@ == neighbor_seq_at(*self, i as int));
        }

        let friendlies: usize = if cell.owner == 0 {
            0
        } else {
            proof {
                lemma_count_le_len(nbrs@, cell.owner);
            }
            collect_matching(&nbrs, cell.owner).len()
        };

        proof {
            // The overflow-safe phase computation below decays exactly the
            // cells with (tick + i) % DECAY_PERIOD == 0.
            vstd::arithmetic::div_mod::lemma_add_mod_noop(
                self.tick as int,
                i as int,
                DECAY_PERIOD as int,
            );
            if cell.owner != 0 && !has_owned_neighbor(*self, i as int) {
                // Without an owned neighbor the cell has no friendly
                // support at all.
                lemma_count_pos(nbrs@, cell.owner);
            }
        }

        // Attrition: on every DECAY_PERIOD-th generation for this index,
        // troops are scaled by friendlies / 10 — isolated cells lose
        // everything, well-supported cells keep most of their strength.
        let phase = (self.tick % DECAY_PERIOD) + (i % DECAY_PERIOD);
        if phase % DECAY_PERIOD == 0 {
            proof {
                vstd::arithmetic::mul::lemma_mul_upper_bound(
                    cell.troops as int,
                    65535,
                    friendlies as int,
                    8,
                );
                crate::world::lemma_scale_bounded(cell.troops as int, friendlies as int, 10);
            }
            cell.troops = (((cell.troops as u32) * (friendlies as u32)) / 10) as u16;
        }

        let contenders = self.gather_contenders(&nbrs);
        let ghost cs = contenders@;
        let ranked = rank_contenders(contenders);
        proof {
            assert forall|t: int| 0 <= t < ranked@.len() implies contender_ok(
                *self,
                nbrs@,
                #[trigger] ranked@[t],
            ) by {
                let s = choose|s: int| 0 <= s < cs.len() && cs[s] == ranked@[t];
            }
            if ranked@.len() > 0 {
                assert(cs.len() > 0);
            }
        }

        // Contention: walk the ranked empires and apply the first one whose
        // takeover predicate holds; afterwards the cell is settled for this
        // generation. An unclaimed cell has no friendly support, so the
        // first contender always takes it.
        let ghost pre_walk = cell;
        let mut t: usize = 0;
        let mut fired = false;
        while t < ranked.len() && !fired
            invariant
                self.wf(),
                t <= ranked@.len(),
                t == 0 ==> !fired,
                !fired ==> cell == pre_walk,
                orig == self.cells@[i as int],
                nbrs@ == neighbor_seq_at(*self, i as int),
                cell.owner == 0 ==> cell.troops == 0,
                cell.troops <= self.max_troops,
                cell.owner <= self.empires@.len(),
                orig.owner == 0 ==> friendlies == 0,
                cell.owner == 0 || cell.owner == orig.owner || has_neighbor_owner(
                    *self,
                    i as int,
                    cell.owner,
                ),
                !fired ==> cell.owner == orig.owner,
                t > 0 && orig.owner == 0 ==> fired,
                fired && orig.owner == 0 && owned_neighbors_strong(*self, i as int) ==> cell.owner
                    != 0 && cell.troops >= 1,
                forall|q: int|
                    0 <= q < ranked@.len() ==> contender_ok(*self, nbrs@, #[trigger] ranked@[q]),
            decreases ranked@.len() - t,
        {
            let e = ranked[t];
            proof {
                if orig.owner == 0 && owned_neighbors_strong(*self, i as int) {
                    let kk = choose|kk: int|
                        0 <= kk < nbrs@.len() && (#[trigger] nbrs@[kk]).owner == e.id
                            && nbrs@[kk].troops == e.rep_troops;
                    assert(nbrs@[kk].troops >= 2);
                }
            }
            if e.id == cell.owner && e.rep_troops > cell.troops {
                // Reinforcement: the cell's own empire backs it up in place.
                cell.troops = self.scale_troops(e.rep_troops);
                fired = true;
            } else if friendlies < 2 || e.rep_troops > cell.troops {
                // Capture: a poorly supported or outnumbered cell falls.
                cell.owner = e.id;
                cell.troops = self.scale_troops(e.rep_troops);
                fired = true;
                proof {
                    let kk = choose|kk: int|
                        0 <= kk < nbrs@.len() && (#[trigger] nbrs@[kk]).owner == e.id
                            && nbrs@[kk].troops == e.rep_troops;
                    assert(neighbor_seq_at(*self, i as int)[kk].owner == cell.owner);
                }
            }
            t += 1;
        }

        proof {
            if orig.owner == 0 && has_owned_neighbor(*self, i as int) {
                assert(ranked@.len() > 0);
            }
        }

        // Extinction: a cell without troops is unclaimed.
        if cell.troops == 0 {
            cell.owner = 0;
        }
        cell
    }

    /// Advance the simulation by one generation.
    ///
    /// Every cell's transition is computed from the same snapshot of the
    /// previous generation; the new cell array replaces the old one as a
    /// single unit. Whatever the random draws did:
    /// - dimensions, empire registry, troop ceiling and boundary policy are
    ///   untouched, the tick counter grows by exactly one, and the
    ///   well-formedness invariant is preserved;
    /// - ownership only spreads: a cell's new owner is nobody, its old
    ///   owner, or the owner of one of its Moore neighbors — so no empire
    ///   appears on the board that was not on it before
    ///   ([`owners_drawn_from`]);
    /// - an unclaimed cell with no owned neighbor is left exactly as it was;
    /// - an unclaimed cell with an owned neighbor is taken, and when every
    ///   owned neighbor has at least two troops the conquest cannot decay
    ///   into extinction, so the cell ends the generation owned;
    /// - an owned cell with no owned neighbor changes deterministically: it
    ///   is wiped out by attrition on its decay generation and untouched on
    ///   every other.
    pub fn update(&mut self)
        requires
            old(self).wf(),
            old(self).tick < usize::MAX,
        ensures
            final(self).wf(),
            final(self).tick == old(self).tick + 1,
            final(self).width == old(self).width,
            final(self).height == old(self).height,
            final(self).empires == old(self).empires,
            final(self).max_troops == old(self).max_troops,
            final(self).boundary == old(self).boundary,
            final(self).cells@.len() == old(self).cells@.len(),
            owners_drawn_from(old(self).cells@, final(self).cells@),
            forall|i: int|
                0 <= i < final(self).cells@.len() ==> ((#[trigger] final(self).cells@[i]).owner == 0
                    || final(self).cells@[i].owner == old(self).cells@[i].owner
                    || has_neighbor_owner(*old(self), i, final(self).cells@[i].owner)),
            forall|i: int|
                0 <= i < final(self).cells@.len() && old(self).cells@[i].owner == 0
                    && !has_owned_neighbor(*old(self), i) ==> #[trigger] final(self).cells@[i]
                    == old(self).cells@[i],
            forall|i: int|
                0 <= i < final(self).cells@.len() && old(self).cells@[i].owner == 0
                    && has_owned_neighbor(*old(self), i) && owned_neighbors_strong(*old(self), i)
                    ==> (#[trigger] final(self).cells@[i]).owner != 0,
            forall|i: int|
                0 <= i < final(self).cells@.len() && old(self).cells@[i].owner != 0
                    && !has_owned_neighbor(*old(self), i) ==> #[trigger] final(self).cells@[i] == (
                if (old(self).tick + i) % (DECAY_PERIOD as int) == 0 {
                    Cell { owner: 0, troops: 0 }
                } else {
                    old(self).cells@[i]
                }),
    {
        let n = self.cells.len();
        let mut buf: Vec<Cell> = Vec::new();
        let mut i: usize = 0;
        while i < n
            invariant
                *self == *old(self),
                self.wf(),
                n == self.cells@.len(),
                i <= n,
                buf@.len() == i,
                forall|k: int|
                    0 <= k < i ==> {
                        &&& cell_ok(#[trigger] buf@[k], self.max_troops)
                        &&& buf@[k].owner <= self.empires@.len()
                        &&& (buf@[k].owner == 0 || buf@[k].owner == self.cells@[k].owner
                            || has_neighbor_owner(*self, k, buf@[k].owner))
                        &&& (self.cells@[k].owner == 0 && !has_owned_neighbor(*self, k)
                            ==> buf@[k] == self.cells@[k])
                        &&& (self.cells@[k].owner == 0 && has_owned_neighbor(*self, k)
                            && owned_neighbors_strong(*self, k) ==> buf@[k].owner != 0)
                        &&& (self.cells@[k].owner != 0 && !has_owned_neighbor(*self, k)
                            ==> buf@[k] == (
                        if (self.tick + k) % (DECAY_PERIOD as int) == 0 {
                            Cell { owner: 0, troops: 0 }
                        } else {
                            self.cells@[k]
                        }))
                    },
            decreases n - i,
        {
            let c = self.step_cell(i);
            buf.push(c);
            i += 1;
        }
        proof {
            assert forall|k: int| 0 <= k < buf@.len() implies ((#[trigger] buf@[k]).owner == 0
                || in_owners(self.cells@, buf@[k].owner)) by {
                if buf@[k].owner != 0 && buf@[k].owner != self.cells@[k].owner {
                    lemma_neighbor_owner_in_grid(*self, k, buf@[k].owner);
                }
            }
        }
        self.cells = buf;
        self.tick = self.tick + 1;
    }
}

} // verus!
