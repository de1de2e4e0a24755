use vstd::prelude::*;

use crate::cell_type::CellType;
use crate::position::Position;
use crate::rng::src_next;
use crate::rng::RandomSource;
use crate::world::cell_positions;
use crate::world::good_for_base;
use crate::world::good_for_tree;
use crate::world::in_bounds;
use crate::world::neighbor_positions;
use crate::world::positions_of;
use crate::world::set_at;
use crate::world::GridView;
use crate::world::World;

verus! {

/// How many workers each base receives at most.
pub const WORKERS_PER_BASE: usize = 2;

/// How many random slots are tried for one base before giving up.
pub const BASE_SPAWN_ATTEMPTS: usize = 100;

/// The one way generation can fail: the grid cannot take the requested
/// bases within the attempt budget.
#[derive(Clone, Copy, PartialEq, Eq, Structural, Debug)]
pub enum PlacementError {
    CapacityExhausted,
}

/// Up to `attempts` draws of a random position; the first one whose closed
/// neighborhood is all `Empty` is committed as `Base`.
pub open spec fn place_base_attempts(g: GridView, r: RandomSource, attempts: nat) -> (
    GridView,
    RandomSource,
    bool,
)
    decreases attempts,
{
    if attempts == 0 {
        (g, r, false)
    } else {
        let (vx, r1) = src_next(r, g.len());
        let (vy, r2) = src_next(r1, g.len());
        let p = Position { x: vx, y: vy };
        if good_for_base(g, p) {
            (set_at(g, p, CellType::Base), r2, true)
        } else {
            place_base_attempts(g, r2, (attempts - 1) as nat)
        }
    }
}

/// `count` bases in turn, each by bounded rejection sampling; stops at the
/// first failure.
pub open spec fn spawn_bases_rec(g: GridView, r: RandomSource, count: nat) -> (
    GridView,
    RandomSource,
    bool,
)
    decreases count,
{
    if count == 0 {
        (g, r, true)
    } else {
        let (g1, r1, ok) = place_base_attempts(g, r, BASE_SPAWN_ATTEMPTS as nat);
        if ok {
            spawn_bases_rec(g1, r1, (count - 1) as nat)
        } else {
            (g1, r1, false)
        }
    }
}

/// The base phase: on an empty-sized grid nothing can be drawn, so any
/// positive request fails outright.
pub open spec fn spawn_bases_spec(g: GridView, r: RandomSource, count: nat) -> (
    GridView,
    RandomSource,
    bool,
) {
    if count > 0 && g.len() == 0 {
        (g, r, false)
    } else {
        spawn_bases_rec(g, r, count)
    }
}

/// The first `k` cells of row `y` visited in order: each eligible one takes a
/// tree at once, visible to the checks that follow.
pub open spec fn trees_row(g: GridView, y: int, k: nat) -> GridView
    decreases k,
{
    if k == 0 {
        g
    } else {
        let g1 = trees_row(g, y, (k - 1) as nat);
        let p = Position { x: (k - 1) as usize, y: y as usize };
        if good_for_tree(g1, p) {
            set_at(g1, p, CellType::Tree)
        } else {
            g1
        }
    }
}

/// The tree pass over the first `rows` rows, row-major.
pub open spec fn trees_upto(g: GridView, rows: nat) -> GridView
    decreases rows,
{
    if rows == 0 {
        g
    } else {
        let g1 = trees_upto(g, (rows - 1) as nat);
        trees_row(g1, rows - 1, g1[rows - 1].len())
    }
}

/// The whole tree phase.
pub open spec fn spawn_trees_spec(g: GridView) -> GridView {
    trees_upto(g, g.len())
}

/// Up to `left` draws without replacement from `cands`; each drawn position
/// is overwritten with `Worker`, whatever it held.
pub open spec fn pick_workers(g: GridView, r: RandomSource, cands: Seq<Position>, left: nat) -> (
    GridView,
    RandomSource,
)
    decreases left,
{
    if left == 0 || cands.len() == 0 {
        (g, r)
    } else {
        let (v, r1) = src_next(r, cands.len());
        let p = cands[v as int];
        pick_workers(set_at(g, p, CellType::Worker), r1, cands.remove(v as int), (left - 1) as nat)
    }
}

/// The worker phase over a list of base positions, in order.
pub open spec fn workers_rec(g: GridView, r: RandomSource, bases: Seq<Position>) -> (
    GridView,
    RandomSource,
)
    decreases bases.len(),
{
    if bases.len() == 0 {
        (g, r)
    } else {
        let (g1, r1) = pick_workers(
            g,
            r,
            neighbor_positions(g.len() as int, bases[0], false),
            WORKERS_PER_BASE as nat,
        );
        workers_rec(g1, r1, bases.skip(1))
    }
}

/// The whole worker phase: each base, in row-major order, draws up to
/// `WORKERS_PER_BASE` distinct neighbor positions.
pub open spec fn spawn_workers_spec(g: GridView, r: RandomSource) -> (GridView, RandomSource) {
    workers_rec(g, r, positions_of(g, CellType::Base))
}

/// All three phases in their fixed order; `false` reports that the base
/// phase ran out of attempts, in which case the later phases do not run.
pub open spec fn initialize_spec(g: GridView, r: RandomSource, count: nat) -> (
    GridView,
    RandomSource,
    bool,
) {
    let (g1, r1, ok) = spawn_bases_spec(g, r, count);
    if ok {
        let g2 = spawn_trees_spec(g1);
        let (g3, r3) = spawn_workers_spec(g2, r1);
        (g3, r3, true)
    } else {
        (g1, r1, false)
    }
}

impl World {
    /// A uniformly drawn position of the grid: x first, then y.
    pub fn get_random_position(&self, rng: &mut RandomSource) -> (r: Position)
        requires
            self@.len() > 0,
        ensures
            ({
                let (vx, r1) = src_next(*old(rng), self@.len());
                let (vy, r2) = src_next(r1, self@.len());
                r == (Position { x: vx, y: vy }) && *final(rng) == r2
            }),
            in_bounds(self@, r),
    {
        let n = self.grid.len();
        proof {
            assert(n == self@.len());
        }
        let x = rng.next_below(n);
        let y = rng.next_below(n);
        Position::new(x, y)
    }

    /// One base by rejection sampling: up to `BASE_SPAWN_ATTEMPTS` uniform
    /// draws, committing the first position whose closed neighborhood is all
    /// `Empty`. Reports whether a base was placed.
    fn try_place_base(&mut self, rng: &mut RandomSource) -> (r: bool)
        requires
            old(self).wf(),
            old(self)@.len() > 0,
        ensures
            final(self).wf(),
            final(self)@.len() == old(self)@.len(),
            ({
                let (g2, r2, ok) = place_base_attempts(
                    old(self)@,
                    *old(rng),
                    BASE_SPAWN_ATTEMPTS as nat,
                );
                final(self)@ == g2 && *final(rng) == r2 && r == ok
            }),
    {
        let n = self.grid.len();
        proof {
            assert(n == self@.len());
        }
        let mut attempt: usize = 0;
        while attempt < BASE_SPAWN_ATTEMPTS
            invariant
                self.wf(),
                n == self@.len(),
                n > 0,
                attempt <= BASE_SPAWN_ATTEMPTS,
                self@ == old(self)@,
                place_base_attempts(old(self)@, *old(rng), BASE_SPAWN_ATTEMPTS as nat)
                    == place_base_attempts(
                    self@,
                    *rng,
                    (BASE_SPAWN_ATTEMPTS - attempt) as nat,
                ),
            decreases BASE_SPAWN_ATTEMPTS - attempt,
        {
            let p = self.get_random_position(rng);
            if self.is_cell_good_for_base(p) {
                self.set_cell_type(p, CellType::Base);
                return true;
            }
            attempt = attempt + 1;
        }
        false
    }

    /// Place `count` bases, each committed only where its whole closed
    /// neighborhood is `Empty`, so no two bases touch, not even diagonally.
    /// Fails with a capacity error when a base finds no slot within the
    /// attempt budget.
    pub fn spawn_bases(&mut self, count: usize, rng: &mut RandomSource) -> (r: Result<
        (),
        PlacementError,
    >)
        requires
            old(self).wf(),
        ensures
            final(self).wf(),
            final(self)@.len() == old(self)@.len(),
            ({
                let (g2, r2, ok) = spawn_bases_spec(old(self)@, *old(rng), count as nat);
                final(self)@ == g2 && *final(rng) == r2 && r == (if ok {
                    Ok::<(), PlacementError>(())
                } else {
                    Err::<(), PlacementError>(PlacementError::CapacityExhausted)
                })
            }),
    {
        let n = self.grid.len();
        proof {
            assert(n == self@.len());
        }
        if count > 0 && n == 0 {
            return Err(PlacementError::CapacityExhausted);
        }
        let mut placed: usize = 0;
        while placed < count
            invariant
                self.wf(),
                n == self@.len(),
                n == old(self)@.len(),
                placed <= count,
                placed < count ==> n > 0,
                spawn_bases_rec(old(self)@, *old(rng), count as nat) == spawn_bases_rec(
                    self@,
                    *rng,
                    (count - placed) as nat,
                ),
                spawn_bases_spec(old(self)@, *old(rng), count as nat) == spawn_bases_rec(
                    old(self)@,
                    *old(rng),
                    count as nat,
                ),
            decreases count - placed,
        {
            if !self.try_place_base(rng) {
                return Err(PlacementError::CapacityExhausted);
            }
            placed = placed + 1;
        }
        Ok(())
    }

    /// One row-major pass: every position whose closed neighborhood holds
    /// only `Empty` or `Tree` takes a tree at once, so earlier trees are seen
    /// by later checks of the same pass.
    pub fn spawn_trees(&mut self)
        requires
            old(self).wf(),
        ensures
            final(self).wf(),
            final(self)@.len() == old(self)@.len(),
            final(self)@ == spawn_trees_spec(old(self)@),
    {
        let n = self.grid.len();
        proof {
            assert(n == self@.len());
        }
        let mut y: usize = 0;
        while y < n
            invariant
                self.wf(),
                n == self@.len(),
                y <= n,
                self@ == trees_upto(old(self)@, y as nat),
            decreases n - y,
        {
            let ghost gy = trees_upto(old(self)@, y as nat);
            let mut x: usize = 0;
            while x < n
                invariant
                    self.wf(),
                    n == self@.len(),
                    y < n,
                    x <= n,
                    gy == trees_upto(old(self)@, y as nat),
                    gy.len() == n,
                    self@ == trees_row(gy, y as int, x as nat),
                decreases n - x,
            {
                let p = Position::new(x, y);
                if self.is_cell_good_for_tree(p) {
                    self.set_cell_type(p, CellType::Tree);
                }
                x = x + 1;
            }
            proof {
                assert(trees_upto(old(self)@, (y + 1) as nat) == trees_row(gy, y as int, n as nat));
            }
            y = y + 1;
        }
    }

    /// For each base, in row-major order, draw up to `WORKERS_PER_BASE`
    /// distinct neighbor positions without replacement and overwrite each
    /// with `Worker` - possibly over a tree of the previous phase.
    pub fn spawn_workers(&mut self, rng: &mut RandomSource)
        requires
            old(self).wf(),
        ensures
            final(self).wf(),
            final(self)@.len() == old(self)@.len(),
            ({
                let (g2, r2) = spawn_workers_spec(old(self)@, *old(rng));
                final(self)@ == g2 && *final(rng) == r2
            }),
    {
        let mut bases: Vec<Position> = Vec::new();
        let base_cells = self.get_cells_of_type(CellType::Base);
        let mut i: usize = 0;
        while i < base_cells.len()
            invariant
                i <= base_cells@.len(),
                cell_positions(base_cells@) == positions_of(self@, CellType::Base),
                bases@ == positions_of(self@, CellType::Base).take(i as int),
            decreases base_cells@.len() - i,
        {
            bases.push(base_cells[i].position);
            proof {
                assert(cell_positions(base_cells@)[i as int] == base_cells@[i as int].position);
                assert(bases@ =~= positions_of(self@, CellType::Base).take(i + 1));
            }
            i = i + 1;
        }
        proof {
            assert(bases@ =~= positions_of(self@, CellType::Base));
        }
        let ghost g0 = self@;
        let ghost r0 = *rng;
        let mut b: usize = 0;
        while b < bases.len()
            invariant
                self.wf(),
                self@.len() == g0.len(),
                bases@ == positions_of(g0, CellType::Base),
                b <= bases@.len(),
                workers_rec(g0, r0, bases@) == workers_rec(self@, *rng, bases@.skip(b as int)),
            decreases bases@.len() - b,
        {
            let bp = bases[b];
            let mut cands = self.get_adjacent_cells_positions(bp, false);
            let ghost gb = self@;
            let ghost rb = *rng;
            let ghost cands0 = cands@;
            proof {
                assert(bases@.skip(b as int)[0] == bp);
                assert(bases@.skip(b as int).skip(1) =~= bases@.skip(b + 1));
            }
            let mut placed: usize = 0;
            while placed < WORKERS_PER_BASE && cands.len() > 0
                invariant
                    self.wf(),
                    self@.len() == g0.len(),
                    placed <= WORKERS_PER_BASE,
                    pick_workers(gb, rb, cands0, WORKERS_PER_BASE as nat) == pick_workers(
                        self@,
                        *rng,
                        cands@,
                        (WORKERS_PER_BASE - placed) as nat,
                    ),
                decreases WORKERS_PER_BASE - placed,
            {
                let idx = rng.next_below(cands.len());
                let p = cands.remove(idx);
                self.set_cell_type(p, CellType::Worker);
                placed = placed + 1;
            }
            b = b + 1;
        }
        proof {
            assert(bases@.skip(bases@.len() as int) =~= Seq::<Position>::empty());
        }
    }

    /// Run the three generation phases in their fixed order: bases, then
    /// trees, then workers. A capacity failure of the base phase is reported
    /// and stops the run before trees and workers.
    pub fn initialize(&mut self, bases_count: usize, rng: &mut RandomSource) -> (r: Result<
        (),
        PlacementError,
    >)
        requires
            old(self).wf(),
        ensures
            final(self).wf(),
            final(self)@.len() == old(self)@.len(),
            ({
                let (g2, r2, ok) = initialize_spec(old(self)@, *old(rng), bases_count as nat);
                final(self)@ == g2 && *final(rng) == r2 && r == (if ok {
                    Ok::<(), PlacementError>(())
                } else {
                    Err::<(), PlacementError>(PlacementError::CapacityExhausted)
                })
            }),
    {
        match self.spawn_bases(bases_count, rng) {
            Err(e) => Err(e),
            Ok(()) => {
                self.spawn_trees();
                self.spawn_workers(rng);
                Ok(())
            },
        }
    }
}

} // verus!
