use vstd::prelude::*;

use crate::cell_type::CellType;
use crate::position::abs_diff;
use crate::position::Position;
use crate::world::cell_at;
use crate::world::count_of;
use crate::world::grid_square;
use crate::world::in_bounds;
use crate::world::nb_one;
use crate::world::neighbor_positions;
use crate::world::positions_in_row_prefix;
use crate::world::positions_of;
use crate::world::positions_upto_row;
use crate::world::set_at;
use crate::world::GridView;

verus! {

/// The Chebyshev distance of two positions: the larger coordinate gap.
pub open spec fn chebyshev_distance(p: Position, q: Position) -> int {
    if abs_diff(p.x as int, q.x as int) >= abs_diff(p.y as int, q.y as int) {
        abs_diff(p.x as int, q.x as int)
    } else {
        abs_diff(p.y as int, q.y as int)
    }
}

/// No two distinct bases touch, not even diagonally.
pub open spec fn bases_apart(g: GridView) -> bool {
    forall|p: Position, q: Position|
        in_bounds(g, p) && in_bounds(g, q) && #[trigger] cell_at(g, p) is Base
            && #[trigger] cell_at(g, q) is Base && p != q ==> chebyshev_distance(p, q) >= 2
}

/// Membership in the clipped neighbor sequence is exactly: in bounds, within
/// Chebyshev distance 1, and (without the middle) distinct from the middle.
pub proof fn lemma_neighbor_contains(n: int, p: Position, include_middle: bool, q: Position)
    requires
        0 <= n <= usize::MAX,
    ensures
        neighbor_positions(n, p, include_middle).contains(q) <==> (0 <= q.x < n && 0 <= q.y < n
            && chebyshev_distance(p, q) <= 1 && (include_middle || q != p)),
{
    broadcast use vstd::seq_lib::lemma_seq_concat_contains_all_elements;

    let x = p.x as int;
    let y = p.y as int;
    let am = if include_middle {
        nb_one(n, x, y)
    } else {
        Seq::<Position>::empty()
    };
    let s = neighbor_positions(n, p, include_middle);
    if s.contains(q) {
        assert(nb_one(n, x - 1, y - 1).contains(q) || nb_one(n, x, y - 1).contains(q) || nb_one(
            n,
            x + 1,
            y - 1,
        ).contains(q) || nb_one(n, x - 1, y).contains(q) || am.contains(q) || nb_one(
            n,
            x + 1,
            y,
        ).contains(q) || nb_one(n, x - 1, y + 1).contains(q) || nb_one(n, x, y + 1).contains(q)
            || nb_one(n, x + 1, y + 1).contains(q));
    }
    if 0 <= q.x < n && 0 <= q.y < n && chebyshev_distance(p, q) <= 1 && (include_middle || q != p) {
        let qx = q.x as int;
        let qy = q.y as int;
        assert(x - 1 <= qx <= x + 1 && y - 1 <= qy <= y + 1);
        if qx == x && qy == y {
            assert(include_middle);
            assert(nb_one(n, x, y)[0] == q);
            assert(am.contains(q));
        } else if qy == y - 1 {
            if qx == x - 1 {
                assert(nb_one(n, x - 1, y - 1)[0] == q);
                assert(nb_one(n, x - 1, y - 1).contains(q));
            } else if qx == x {
                assert(nb_one(n, x, y - 1)[0] == q);
                assert(nb_one(n, x, y - 1).contains(q));
            } else {
                assert(nb_one(n, x + 1, y - 1)[0] == q);
                assert(nb_one(n, x + 1, y - 1).contains(q));
            }
        } else if qy == y {
            if qx == x - 1 {
                assert(nb_one(n, x - 1, y)[0] == q);
                assert(nb_one(n, x - 1, y).contains(q));
            } else {
                assert(nb_one(n, x + 1, y)[0] == q);
                assert(nb_one(n, x + 1, y).contains(q));
            }
        } else {
            if qx == x - 1 {
                assert(nb_one(n, x - 1, y + 1)[0] == q);
                assert(nb_one(n, x - 1, y + 1).contains(q));
            } else if qx == x {
                assert(nb_one(n, x, y + 1)[0] == q);
                assert(nb_one(n, x, y + 1).contains(q));
            } else {
                assert(nb_one(n, x + 1, y + 1)[0] == q);
                assert(nb_one(n, x + 1, y + 1).contains(q));
            }
        }
        assert(s.contains(q));
    }
}

/// Membership in a row prefix of `positions_of` is exactly: same row, column
/// below `k`, tag `t`.
proof fn lemma_row_prefix_contains(g: GridView, t: CellType, y: int, k: nat, q: Position)
    requires
        0 <= y <= usize::MAX,
        k <= usize::MAX,
    ensures
        positions_in_row_prefix(g, t, y, k).contains(q) <==> (q.y == y && q.x < k && g[y][q.x
            as int] == t),
    decreases k,
{
    broadcast use vstd::seq_lib::lemma_seq_concat_contains_all_elements;

    if k > 0 {
        lemma_row_prefix_contains(g, t, y, (k - 1) as nat, q);
        let tail = if g[y][k - 1] == t {
            seq![Position { x: (k - 1) as usize, y: y as usize }]
        } else {
            Seq::<Position>::empty()
        };
        if q.y == y && q.x < k && g[y][q.x as int] == t && !(q.x < k - 1) {
            assert(q.x == k - 1);
            assert(tail[0] == q);
            assert(tail.contains(q));
        }
    }
}

/// Membership in the first `rows` rows of `positions_of`.
proof fn lemma_upto_contains(g: GridView, t: CellType, rows: nat, q: Position)
    requires
        grid_square(g),
        rows <= g.len(),
        g.len() <= usize::MAX,
    ensures
        positions_upto_row(g, t, rows).contains(q) <==> (q.y < rows && q.x < g.len() && cell_at(
            g,
            q,
        ) == t),
    decreases rows,
{
    broadcast use vstd::seq_lib::lemma_seq_concat_contains_all_elements;

    if rows > 0 {
        lemma_upto_contains(g, t, (rows - 1) as nat, q);
        lemma_row_prefix_contains(g, t, rows - 1, g[rows - 1].len(), q);
    }
}

/// A position stands in `positions_of(g, t)` exactly when it is in bounds and
/// holds `t`.
pub proof fn lemma_positions_of_contains(g: GridView, t: CellType, q: Position)
    requires
        grid_square(g),
        g.len() <= usize::MAX,
    ensures
        positions_of(g, t).contains(q) <==> (in_bounds(g, q) && cell_at(g, q) == t),
{
    lemma_upto_contains(g, t, g.len(), q);
}

/// A tag counted zero times is nowhere on the grid, and the other way round.
pub proof fn lemma_count_zero(g: GridView, t: CellType)
    requires
        grid_square(g),
        g.len() <= usize::MAX,
    ensures
        count_of(g, t) == 0 <==> (forall|q: Position|
            in_bounds(g, q) ==> #[trigger] cell_at(g, q) != t),
{
    let s = positions_of(g, t);
    if s.len() == 0 {
        assert forall|q: Position| in_bounds(g, q) implies #[trigger] cell_at(g, q) != t by {
            lemma_positions_of_contains(g, t, q);
        }
    } else {
        let q = s[0];
        assert(s.contains(q));
        lemma_positions_of_contains(g, t, q);
    }
}

/// A write at `p` leaves the row prefixes of every other row as they were.
proof fn lemma_row_prefix_set_other(
    g: GridView,
    p: Position,
    tn: CellType,
    t: CellType,
    y: int,
    k: nat,
)
    requires
        0 <= y < g.len(),
        p.y != y || !in_bounds(g, p),
    ensures
        positions_in_row_prefix(set_at(g, p, tn), t, y, k) == positions_in_row_prefix(g, t, y, k),
    decreases k,
{
    if k > 0 {
        lemma_row_prefix_set_other(g, p, tn, t, y, (k - 1) as nat);
        assert(set_at(g, p, tn)[y] == g[y]);
    }
}

/// How a write at `p` changes the length of its own row's prefix.
proof fn lemma_row_prefix_set_same(g: GridView, p: Position, tn: CellType, t: CellType, k: nat)
    requires
        in_bounds(g, p),
        p.x < g[p.y as int].len(),
        k <= g[p.y as int].len(),
    ensures
        positions_in_row_prefix(set_at(g, p, tn), t, p.y as int, k).len() as int
            == positions_in_row_prefix(g, t, p.y as int, k).len() + (if p.x < k {
            (if tn == t {
                1int
            } else {
                0int
            }) - (if cell_at(g, p) == t {
                1int
            } else {
                0int
            })
        } else {
            0int
        }),
    decreases k,
{
    if k > 0 {
        lemma_row_prefix_set_same(g, p, tn, t, (k - 1) as nat);
        let y = p.y as int;
        let g2 = set_at(g, p, tn);
        if k - 1 == p.x {
            assert(g2[y][k - 1] == tn);
        } else {
            assert(g2[y][k - 1] == g[y][k - 1]);
        }
    }
}

/// How a write at `p` changes the count over the first `rows` rows.
proof fn lemma_upto_set(g: GridView, p: Position, tn: CellType, t: CellType, rows: nat)
    requires
        grid_square(g),
        rows <= g.len(),
    ensures
        positions_upto_row(set_at(g, p, tn), t, rows).len() as int == positions_upto_row(
            g,
            t,
            rows,
        ).len() + (if in_bounds(g, p) && p.y < rows && p.x < g.len() {
            (if tn == t {
                1int
            } else {
                0int
            }) - (if cell_at(g, p) == t {
                1int
            } else {
                0int
            })
        } else {
            0int
        }),
    decreases rows,
{
    if rows > 0 {
        lemma_upto_set(g, p, tn, t, (rows - 1) as nat);
        let g2 = set_at(g, p, tn);
        assert(g2.len() == g.len());
        assert(g2[rows - 1].len() == g[rows - 1].len());
        if in_bounds(g, p) && p.y == rows - 1 {
            assert(p.x < g[p.y as int].len());
            lemma_row_prefix_set_same(g, p, tn, t, g[rows - 1].len());
        } else {
            lemma_row_prefix_set_other(g, p, tn, t, rows - 1, g[rows - 1].len());
        }
    }
}

/// How one write changes the count of each tag: writing `tn` over a cell
/// holding `old` raises the count of `tn` by one and lowers the count of
/// `old` by one, when they differ and the write lands on the grid.
pub proof fn lemma_count_set_at(g: GridView, p: Position, tn: CellType, t: CellType)
    requires
        grid_square(g),
    ensures
        count_of(set_at(g, p, tn), t) as int == count_of(g, t) + (if in_bounds(g, p) {
            (if tn == t {
                1int
            } else {
                0int
            }) - (if cell_at(g, p) == t {
                1int
            } else {
                0int
            })
        } else {
            0int
        }),
{
    lemma_upto_set(g, p, tn, t, g.len());
    assert(set_at(g, p, tn).len() == g.len());
    if in_bounds(g, p) {
        assert(p.x < g.len());
    }
}

/// One write changes exactly one cell: the grid stays square and every other
/// in-bounds cell keeps its tag.
pub proof fn lemma_cells_set_at(g: GridView, p: Position, t: CellType)
    requires
        grid_square(g),
    ensures
        set_at(g, p, t).len() == g.len(),
        grid_square(set_at(g, p, t)),
        forall|q: Position|
            in_bounds(g, q) ==> #[trigger] cell_at(set_at(g, p, t), q) == (if q == p && in_bounds(
                g,
                p,
            ) {
                t
            } else {
                cell_at(g, q)
            }),
{
    let g2 = set_at(g, p, t);
    assert forall|y: int| 0 <= y < g2.len() implies (#[trigger] g2[y]).len() == g2.len() by {
        assert(g[y].len() == g.len());
    }
    assert forall|q: Position| in_bounds(g, q) implies #[trigger] cell_at(g2, q) == (if q == p
        && in_bounds(g, p) {
        t
    } else {
        cell_at(g, q)
    }) by {
        if in_bounds(g, p) {
            if q.y == p.y {
                assert(g2[q.y as int] == g[p.y as int].update(p.x as int, t));
            } else {
                assert(g2[q.y as int] == g[q.y as int]);
            }
        }
    }
}

/// Where a base may be committed, every in-bounds cell within Chebyshev
/// distance 1 is `Empty`.
proof fn lemma_good_base_cell(g: GridView, p: Position, q: Position)
    requires
        g.len() <= usize::MAX,
        crate::world::good_for_base(g, p),
        in_bounds(g, q),
        chebyshev_distance(p, q) <= 1,
    ensures
        cell_at(g, q) is Empty,
{
    lemma_neighbor_contains(g.len() as int, p, true, q);
    let ns = neighbor_positions(g.len() as int, p, true);
    assert(ns.contains(q));
    let i = choose|i: int| 0 <= i < ns.len() && ns[i] == q;
    assert(cell_at(g, ns[i]) is Empty);
}

/// Where a tree may be committed, every in-bounds cell within Chebyshev
/// distance 1 is `Empty` or `Tree`.
proof fn lemma_good_tree_cell(g: GridView, p: Position, q: Position)
    requires
        g.len() <= usize::MAX,
        crate::world::good_for_tree(g, p),
        in_bounds(g, q),
        chebyshev_distance(p, q) <= 1,
    ensures
        crate::world::empty_or_tree(cell_at(g, q)),
{
    lemma_neighbor_contains(g.len() as int, p, true, q);
    let ns = neighbor_positions(g.len() as int, p, true);
    assert(ns.contains(q));
    let i = choose|i: int| 0 <= i < ns.len() && ns[i] == q;
    assert(crate::world::empty_or_tree(cell_at(g, ns[i])));
}

/// The bounded search for one base slot keeps the grid square, keeps all
/// bases mutually apart, and on success adds exactly one base.
proof fn lemma_place_base_props(g: GridView, r: crate::rng::RandomSource, a: nat)
    requires
        grid_square(g),
        0 < g.len() <= usize::MAX,
        bases_apart(g),
    ensures
        ({
            let (g2, r2, ok) = crate::placement::place_base_attempts(g, r, a);
            &&& grid_square(g2)
            &&& g2.len() == g.len()
            &&& bases_apart(g2)
            &&& (ok ==> count_of(g2, CellType::Base) == count_of(g, CellType::Base) + 1)
            &&& (!ok ==> g2 == g)
        }),
    decreases a,
{
    if a > 0 {
        let (vx, r1) = crate::rng::src_next(r, g.len());
        let (vy, r2) = crate::rng::src_next(r1, g.len());
        let p = Position { x: vx, y: vy };
        if crate::world::good_for_base(g, p) {
            assert(in_bounds(g, p));
            lemma_good_base_cell(g, p, p);
            let g2 = set_at(g, p, CellType::Base);
            lemma_cells_set_at(g, p, CellType::Base);
            lemma_count_set_at(g, p, CellType::Base, CellType::Base);
            assert forall|b1: Position, b2: Position|
                in_bounds(g2, b1) && in_bounds(g2, b2) && #[trigger] cell_at(g2, b1) is Base
                    && #[trigger] cell_at(g2, b2) is Base && b1 != b2 implies chebyshev_distance(
                b1,
                b2,
            ) >= 2 by {
                assert(in_bounds(g, b1) && in_bounds(g, b2));
                if b1 == p {
                    assert(cell_at(g, b2) is Base);
                    if chebyshev_distance(p, b2) <= 1 {
                        lemma_good_base_cell(g, p, b2);
                    }
                } else if b2 == p {
                    assert(cell_at(g, b1) is Base);
                    if chebyshev_distance(p, b1) <= 1 {
                        lemma_good_base_cell(g, p, b1);
                    }
                } else {
                    assert(cell_at(g, b1) is Base && cell_at(g, b2) is Base);
                }
            }
        } else {
            lemma_place_base_props(g, r2, (a - 1) as nat);
        }
    }
}

/// The base phase, run on a grid whose bases are mutually apart, keeps them
/// apart and on success adds exactly `count` bases.
proof fn lemma_spawn_bases_rec_props(g: GridView, r: crate::rng::RandomSource, count: nat)
    requires
        grid_square(g),
        0 < g.len() <= usize::MAX,
        bases_apart(g),
    ensures
        ({
            let (g2, r2, ok) = crate::placement::spawn_bases_rec(g, r, count);
            &&& grid_square(g2)
            &&& g2.len() == g.len()
            &&& bases_apart(g2)
            &&& (ok ==> count_of(g2, CellType::Base) == count_of(g, CellType::Base) + count)
        }),
    decreases count,
{
    if count > 0 {
        lemma_place_base_props(g, r, crate::placement::BASE_SPAWN_ATTEMPTS as nat);
        let (g1, r1, ok) = crate::placement::place_base_attempts(
            g,
            r,
            crate::placement::BASE_SPAWN_ATTEMPTS as nat,
        );
        if ok {
            lemma_spawn_bases_rec_props(g1, r1, (count - 1) as nat);
        }
    }
}

/// When the base phase succeeds on a grid without bases, the grid holds
/// exactly the requested number of bases, and every pair of distinct bases
/// is at Chebyshev distance at least 2.
pub proof fn lemma_spawn_bases_exclusion(g: GridView, r: crate::rng::RandomSource, count: nat)
    requires
        grid_square(g),
        g.len() <= usize::MAX,
        count_of(g, CellType::Base) == 0,
    ensures
        ({
            let (g2, r2, ok) = crate::placement::spawn_bases_spec(g, r, count);
            ok ==> count_of(g2, CellType::Base) == count && bases_apart(g2)
        }),
{
    lemma_count_zero(g, CellType::Base);
    assert(bases_apart(g));
    if count > 0 && g.len() == 0 {
    } else if g.len() == 0 {
        assert(crate::placement::spawn_bases_rec(g, r, 0) == (g, r, true));
    } else {
        lemma_spawn_bases_rec_props(g, r, count);
    }
}

/// Around every tree, every in-bounds cell within Chebyshev distance 1 holds
/// `Empty` or `Tree` - never a base or a worker.
pub open spec fn trees_safe(g: GridView) -> bool {
    forall|p: Position, q: Position|
        in_bounds(g, p) && in_bounds(g, q) && #[trigger] cell_at(g, p) is Tree
            && chebyshev_distance(p, q) <= 1 ==> crate::world::empty_or_tree(
            #[trigger] cell_at(g, q),
        )
}

/// One partial row of the tree pass keeps the grid square and keeps every
/// tree's neighborhood clear of bases and workers.
proof fn lemma_trees_row_safe(g: GridView, y: int, k: nat)
    requires
        grid_square(g),
        g.len() <= usize::MAX,
        trees_safe(g),
    ensures
        ({
            let g2 = crate::placement::trees_row(g, y, k);
            &&& grid_square(g2)
            &&& g2.len() == g.len()
            &&& trees_safe(g2)
        }),
    decreases k,
{
    if k > 0 {
        lemma_trees_row_safe(g, y, (k - 1) as nat);
        let g1 = crate::placement::trees_row(g, y, (k - 1) as nat);
        let p = Position { x: (k - 1) as usize, y: y as usize };
        if crate::world::good_for_tree(g1, p) {
            let g2 = set_at(g1, p, CellType::Tree);
            if in_bounds(g1, p) {
                lemma_cells_set_at(g1, p, CellType::Tree);
                assert forall|p2: Position, q2: Position|
                    in_bounds(g2, p2) && in_bounds(g2, q2) && #[trigger] cell_at(g2, p2) is Tree
                        && chebyshev_distance(p2, q2) <= 1 implies crate::world::empty_or_tree(
                    #[trigger] cell_at(g2, q2),
                ) by {
                    assert(in_bounds(g1, p2) && in_bounds(g1, q2));
                    if p2 == p {
                        lemma_good_tree_cell(g1, p, q2);
                    } else {
                        assert(cell_at(g1, p2) is Tree);
                        assert(crate::world::empty_or_tree(cell_at(g1, q2)));
                    }
                }
            } else {
                assert(g2 == g1);
            }
        }
    }
}

/// The tree pass over any number of whole rows keeps every tree's
/// neighborhood clear of bases and workers.
proof fn lemma_trees_upto_safe(g: GridView, rows: nat)
    requires
        grid_square(g),
        g.len() <= usize::MAX,
        rows <= g.len(),
        trees_safe(g),
    ensures
        ({
            let g2 = crate::placement::trees_upto(g, rows);
            &&& grid_square(g2)
            &&& g2.len() == g.len()
            &&& trees_safe(g2)
        }),
    decreases rows,
{
    if rows > 0 {
        lemma_trees_upto_safe(g, (rows - 1) as nat);
        let g1 = crate::placement::trees_upto(g, (rows - 1) as nat);
        lemma_trees_row_safe(g1, rows - 1, g1[rows - 1].len());
    }
}

/// After the tree phase on a grid that held no tree, every tree's whole
/// in-bounds neighborhood, itself included, holds only `Empty` or `Tree`.
pub proof fn lemma_spawn_trees_safe(g: GridView)
    requires
        grid_square(g),
        g.len() <= usize::MAX,
        forall|q: Position| in_bounds(g, q) ==> !(#[trigger] cell_at(g, q) is Tree),
    ensures
        ({
            let g2 = crate::placement::spawn_trees_spec(g);
            &&& grid_square(g2)
            &&& g2.len() == g.len()
            &&& trees_safe(g2)
        }),
{
    assert(trees_safe(g));
    lemma_trees_upto_safe(g, g.len());
}

/// Whatever a sequence contains after one removal, it contained before.
proof fn lemma_remove_contains(s: Seq<Position>, i: int, q: Position)
    requires
        0 <= i < s.len(),
        s.remove(i).contains(q),
    ensures
        s.contains(q),
{
    broadcast use vstd::seq_lib::lemma_seq_concat_contains_all_elements;

    if s.subrange(0, i).contains(q) {
        let j = choose|j: int| 0 <= j < i && s.subrange(0, i)[j] == q;
        assert(s[j] == q);
    } else {
        let sub = s.subrange(i + 1, s.len() as int);
        let j = choose|j: int| 0 <= j < sub.len() && sub[j] == q;
        assert(s[i + 1 + j] == q);
    }
}

/// Drawing up to `left` worker slots keeps the grid square, raises the
/// worker count by at most `left`, and places workers only on candidate
/// positions.
proof fn lemma_pick_workers_props(
    g: GridView,
    r: crate::rng::RandomSource,
    cands: Seq<Position>,
    left: nat,
)
    requires
        grid_square(g),
        g.len() <= usize::MAX,
    ensures
        ({
            let (g2, r2) = crate::placement::pick_workers(g, r, cands, left);
            &&& grid_square(g2)
            &&& g2.len() == g.len()
            &&& count_of(g2, CellType::Worker) as int <= count_of(g, CellType::Worker) + left
            &&& forall|q: Position|
                in_bounds(g, q) && #[trigger] cell_at(g2, q) is Worker ==> cell_at(g, q) is Worker
                    || cands.contains(q)
        }),
    decreases left,
{
    if left > 0 && cands.len() > 0 {
        let (v, r1) = crate::rng::src_next(r, cands.len());
        let p = cands[v as int];
        let g1 = set_at(g, p, CellType::Worker);
        lemma_cells_set_at(g, p, CellType::Worker);
        lemma_count_set_at(g, p, CellType::Worker, CellType::Worker);
        lemma_pick_workers_props(g1, r1, cands.remove(v as int), (left - 1) as nat);
        let (g2, r2) = crate::placement::pick_workers(g, r, cands, left);
        assert(cands.contains(p));
        assert forall|q: Position|
            in_bounds(g, q) && #[trigger] cell_at(g2, q) is Worker implies cell_at(
            g,
            q,
        ) is Worker || cands.contains(q) by {
            assert(in_bounds(g1, q));
            if cell_at(g1, q) is Worker {
                if q != p {
                    assert(cell_at(g, q) is Worker);
                }
            } else {
                assert(cands.remove(v as int).contains(q));
                lemma_remove_contains(cands, v as int, q);
            }
        }
    }
}

/// The worker phase over a list of bases raises the worker count by at most
/// two per base, and places workers only next to listed bases.
proof fn lemma_workers_rec_props(g: GridView, r: crate::rng::RandomSource, bases: Seq<Position>)
    requires
        grid_square(g),
        g.len() <= usize::MAX,
    ensures
        ({
            let (g2, r2) = crate::placement::workers_rec(g, r, bases);
            &&& grid_square(g2)
            &&& g2.len() == g.len()
            &&& count_of(g2, CellType::Worker) as int <= count_of(g, CellType::Worker) + 2
                * bases.len()
            &&& forall|q: Position|
                in_bounds(g, q) && #[trigger] cell_at(g2, q) is Worker ==> cell_at(g, q) is Worker
                    || exists|i: int|
                    0 <= i < bases.len() && neighbor_positions(
                        g.len() as int,
                        #[trigger] bases[i],
                        false,
                    ).contains(q)
        }),
    decreases bases.len(),
{
    if bases.len() > 0 {
        let cands = neighbor_positions(g.len() as int, bases[0], false);
        lemma_pick_workers_props(g, r, cands, crate::placement::WORKERS_PER_BASE as nat);
        let (g1, r1) = crate::placement::pick_workers(
            g,
            r,
            cands,
            crate::placement::WORKERS_PER_BASE as nat,
        );
        lemma_workers_rec_props(g1, r1, bases.skip(1));
        let (g2, r2) = crate::placement::workers_rec(g, r, bases);
        assert forall|q: Position|
            in_bounds(g, q) && #[trigger] cell_at(g2, q) is Worker implies cell_at(
            g,
            q,
        ) is Worker || exists|i: int|
            0 <= i < bases.len() && neighbor_positions(
                g.len() as int,
                #[trigger] bases[i],
                false,
            ).contains(q) by {
            assert(in_bounds(g1, q));
            if cell_at(g1, q) is Worker {
                if !(cell_at(g, q) is Worker) {
                    assert(cands.contains(q));
                    assert(0 <= 0 < bases.len() && neighbor_positions(
                        g.len() as int,
                        bases[0],
                        false,
                    ).contains(q));
                }
            } else {
                let i = choose|i: int|
                    0 <= i < bases.skip(1).len() && neighbor_positions(
                        g1.len() as int,
                        #[trigger] bases.skip(1)[i],
                        false,
                    ).contains(q);
                assert(bases.skip(1)[i] == bases[i + 1]);
                assert(0 <= i + 1 < bases.len() && neighbor_positions(
                    g.len() as int,
                    bases[i + 1],
                    false,
                ).contains(q));
            }
        }
    }
}

/// After the worker phase on a grid without workers, there are at most two
/// workers per base, and every worker stands in bounds next to a base of the
/// grid as the phase found it - on a neighbor position, never on the base
/// itself.
pub proof fn lemma_spawn_workers_bound(g: GridView, r: crate::rng::RandomSource)
    requires
        grid_square(g),
        g.len() <= usize::MAX,
        forall|q: Position| in_bounds(g, q) ==> !(#[trigger] cell_at(g, q) is Worker),
    ensures
        ({
            let (g2, r2) = crate::placement::spawn_workers_spec(g, r);
            &&& count_of(g2, CellType::Worker) <= 2 * count_of(g, CellType::Base)
            &&& forall|q: Position|
                in_bounds(g, q) && #[trigger] cell_at(g2, q) is Worker ==> exists|b: Position|
                    in_bounds(g, b) && cell_at(g, b) is Base && chebyshev_distance(b, q) <= 1 && q
                        != b
        }),
{
    lemma_count_zero(g, CellType::Worker);
    let bases = positions_of(g, CellType::Base);
    lemma_workers_rec_props(g, r, bases);
    let (g2, r2) = crate::placement::spawn_workers_spec(g, r);
    assert forall|q: Position|
        in_bounds(g, q) && #[trigger] cell_at(g2, q) is Worker implies exists|b: Position|
        in_bounds(g, b) && cell_at(g, b) is Base && chebyshev_distance(b, q) <= 1 && q != b by {
        assert(!(cell_at(g, q) is Worker));
        let i = choose|i: int|
            0 <= i < bases.len() && neighbor_positions(
                g.len() as int,
                #[trigger] bases[i],
                false,
            ).contains(q);
        let b = bases[i];
        assert(bases.contains(b));
        lemma_positions_of_contains(g, CellType::Base, b);
        lemma_neighbor_contains(g.len() as int, b, false, q);
        assert(in_bounds(g, b) && cell_at(g, b) is Base && chebyshev_distance(b, q) <= 1 && q
            != b);
    }
}

/// Generation is a function of the starting grid and the injected random
/// source alone: two runs from equal grids and equal sources end in equal
/// grids, equal sources, and the same verdict.
pub proof fn lemma_initialize_deterministic(
    g1: GridView,
    r1: crate::rng::RandomSource,
    g2: GridView,
    r2: crate::rng::RandomSource,
    count: nat,
)
    requires
        g1 == g2,
        r1 == r2,
    ensures
        crate::placement::initialize_spec(g1, r1, count) == crate::placement::initialize_spec(
            g2,
            r2,
            count,
        ),
{
}

} // verus!
