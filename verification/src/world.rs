use vstd::prelude::*;

use crate::cell::Cell;
use crate::cell_type::CellType;
use crate::position::Position;

verus! {

/// The contents of a grid as mathematics: one sequence of occupancy tags per
/// row, in row-major order.
pub type GridView = Seq<Seq<CellType>>;

/// Every row is as long as there are rows: the grid is square.
pub open spec fn grid_square(g: GridView) -> bool {
    forall|y: int| 0 <= y < g.len() ==> (#[trigger] g[y]).len() == g.len()
}

/// Both coordinates of `p` lie in `[0, size)`.
pub open spec fn in_bounds(g: GridView, p: Position) -> bool {
    p.x < g.len() && p.y < g.len()
}

/// The tag held at `p`.
pub open spec fn cell_at(g: GridView, p: Position) -> CellType {
    g[p.y as int][p.x as int]
}

/// The grid with `t` at `p`; unchanged when `p` is out of bounds.
pub open spec fn set_at(g: GridView, p: Position, t: CellType) -> GridView {
    if in_bounds(g, p) {
        g.update(p.y as int, g[p.y as int].update(p.x as int, t))
    } else {
        g
    }
}

/// The singleton holding `(x, y)` when both lie in `[0, n)`, else empty.
pub open spec fn nb_one(n: int, x: int, y: int) -> Seq<Position> {
    if 0 <= x < n && 0 <= y < n {
        seq![Position { x: x as usize, y: y as usize }]
    } else {
        Seq::empty()
    }
}

/// The neighbor positions of `p` on an `n`-by-`n` grid, clipped to bounds, in
/// a fixed order: relative y then relative x, both ascending, with `p` itself
/// in the middle when `include_middle` is set.
pub open spec fn neighbor_positions(n: int, p: Position, include_middle: bool) -> Seq<Position> {
    let x = p.x as int;
    let y = p.y as int;
    nb_one(n, x - 1, y - 1) + nb_one(n, x, y - 1) + nb_one(n, x + 1, y - 1) + nb_one(n, x - 1, y)
        + (if include_middle {
        nb_one(n, x, y)
    } else {
        Seq::empty()
    }) + nb_one(n, x + 1, y) + nb_one(n, x - 1, y + 1) + nb_one(n, x, y + 1) + nb_one(
        n,
        x + 1,
        y + 1,
    )
}

/// The tag may sit under a tree: nothing there yet, or a tree already.
pub open spec fn empty_or_tree(t: CellType) -> bool {
    t is Empty || t is Tree
}

/// Every in-bounds cell of the closed neighborhood of `p` is `Empty` or
/// `Tree`.
pub open spec fn good_for_tree(g: GridView, p: Position) -> bool {
    forall|i: int|
        0 <= i < neighbor_positions(g.len() as int, p, true).len() ==> empty_or_tree(
            cell_at(g, #[trigger] neighbor_positions(g.len() as int, p, true)[i]),
        )
}

/// Every in-bounds cell of the closed neighborhood of `p` is `Empty`.
pub open spec fn good_for_base(g: GridView, p: Position) -> bool {
    forall|i: int|
        0 <= i < neighbor_positions(g.len() as int, p, true).len() ==> cell_at(
            g,
            #[trigger] neighbor_positions(g.len() as int, p, true)[i],
        ) is Empty
}

/// The positions among the first `k` cells of row `y` that hold `t`, in
/// ascending x order.
pub open spec fn positions_in_row_prefix(g: GridView, t: CellType, y: int, k: nat) -> Seq<Position>
    decreases k,
{
    if k == 0 {
        Seq::empty()
    } else {
        positions_in_row_prefix(g, t, y, (k - 1) as nat) + (if g[y][k - 1] == t {
            seq![Position { x: (k - 1) as usize, y: y as usize }]
        } else {
            Seq::empty()
        })
    }
}

/// The positions in the first `rows` rows that hold `t`, row-major.
pub open spec fn positions_upto_row(g: GridView, t: CellType, rows: nat) -> Seq<Position>
    decreases rows,
{
    if rows == 0 {
        Seq::empty()
    } else {
        positions_upto_row(g, t, (rows - 1) as nat) + positions_in_row_prefix(
            g,
            t,
            rows - 1,
            g[rows - 1].len(),
        )
    }
}

/// All positions holding `t`, in row-major order: y ascending, then x
/// ascending.
pub open spec fn positions_of(g: GridView, t: CellType) -> Seq<Position> {
    positions_upto_row(g, t, g.len())
}

/// How many cells hold `t`.
pub open spec fn count_of(g: GridView, t: CellType) -> nat {
    positions_of(g, t).len()
}

/// The text of one rendered row: a `|`, then the character of each cell
/// followed by `|`.
pub open spec fn line_chars(row: Seq<CellType>) -> Seq<char>
    decreases row.len(),
{
    if row.len() == 0 {
        seq!['|']
    } else {
        line_chars(row.drop_last()) + seq![crate::cell_type::char_of(row.last()), '|']
    }
}

/// The full rendered text: one line per row, each ended by a newline.
pub open spec fn render_chars(g: GridView) -> Seq<char>
    decreases g.len(),
{
    if g.len() == 0 {
        Seq::empty()
    } else {
        render_chars(g.drop_last()) + line_chars(g.last()) + seq!['\n']
    }
}

/// The positions of a sequence of borrowed cells, in the same order.
pub open spec fn cell_positions(s: Seq<&Cell>) -> Seq<Position> {
    s.map_values(|c: &Cell| c.position)
}

/// An owned, fixed-size square matrix of cells with bounds-checked access.
pub struct World {
    pub grid: Vec<Vec<Cell>>,
}

impl View for World {
    type V = GridView;

    open spec fn view(&self) -> GridView {
        self.grid@.map_values(|row: Vec<Cell>| row@.map_values(|c: Cell| c.cell_type))
    }
}

impl World {
    /// The matrix is square and every cell records its own coordinate.
    pub open spec fn wf(&self) -> bool {
        &&& forall|y: int|
            0 <= y < self.grid@.len() ==> (#[trigger] self.grid@[y])@.len() == self.grid@.len()
        &&& forall|y: int, x: int|
            0 <= y < self.grid@.len() && 0 <= x < self.grid@.len() ==> (#[trigger] self.grid@[y]@[x]).position
                == (Position { x: x as usize, y: y as usize })
    }

    /// A `grid_size` by `grid_size` grid, every cell `Empty`.
    pub fn new(grid_size: usize) -> (r: World)
        ensures
            r.wf(),
            r@.len() == grid_size,
            grid_square(r@),
            forall|p: Position| in_bounds(r@, p) ==> #[trigger] cell_at(r@, p) == CellType::Empty,
    {
        let mut grid: Vec<Vec<Cell>> = Vec::new();
        let mut y: usize = 0;
        while y < grid_size
            invariant
                y <= grid_size,
                grid@.len() == y,
                forall|yy: int| 0 <= yy < y ==> (#[trigger] grid@[yy])@.len() == grid_size,
                forall|yy: int, xx: int|
                    0 <= yy < y && 0 <= xx < grid_size ==> #[trigger] grid@[yy]@[xx] == (Cell {
                        position: Position { x: xx as usize, y: yy as usize },
                        cell_type: CellType::Empty,
                    }),
            decreases grid_size - y,
        {
            let mut row: Vec<Cell> = Vec::new();
            let mut x: usize = 0;
            while x < grid_size
                invariant
                    x <= grid_size,
                    row@.len() == x,
                    forall|xx: int|
                        0 <= xx < x ==> #[trigger] row@[xx] == (Cell {
                            position: Position { x: xx as usize, y: y as usize },
                            cell_type: CellType::Empty,
                        }),
                decreases grid_size - x,
            {
                row.push(Cell::new(Position::new(x, y), CellType::Empty));
                x = x + 1;
            }
            grid.push(row);
            y = y + 1;
        }
        let w = World { grid };
        proof {
            assert forall|p: Position| in_bounds(w@, p) implies #[trigger] cell_at(w@, p)
                == CellType::Empty by {
                assert(w@[p.y as int] == w.grid@[p.y as int]@.map_values(|c: Cell| c.cell_type));
            }
        }
        w
    }

    /// The cell at `position`: absent when either coordinate is out of range.
    pub fn get(&self, position: Position) -> (r: Option<&Cell>)
        requires
            self.wf(),
        ensures
            in_bounds(self@, position) ==> (r matches Some(c) && c.cell_type == cell_at(
                self@,
                position,
            ) && c.position == position),
            !in_bounds(self@, position) ==> r is None,
    {
        if position.y < self.grid.len() {
            let row: &Vec<Cell> = &self.grid[position.y];
            if position.x < row.len() {
                Some(&row[position.x])
            } else {
                None
            }
        } else {
            None
        }
    }

    /// A mutable borrow of the cell at `position`: absent when either
    /// coordinate is out of range, in which case nothing changes.
    pub fn get_mut(&mut self, position: Position) -> (r: Option<&mut Cell>)
        requires
            old(self).wf(),
        ensures
            !in_bounds(old(self)@, position) ==> r is None && *final(self) == *old(self),
            in_bounds(old(self)@, position) ==> (r matches Some(c) && *c == old(self).grid@[position.y as int]@[position.x as int]
                && final(self).grid@.len() == old(self).grid@.len() && (forall|i: int|
                0 <= i < old(self).grid@.len() && i != position.y ==> final(self).grid@[i]
                    == old(self).grid@[i]) && final(self).grid@[position.y as int]@ == old(
                self,
            ).grid@[position.y as int]@.update(position.x as int, *final(c))),
    {
        if position.y < self.grid.len() {
            let row_len = self.grid[position.y].len();
            if position.x < row_len {
                let row: &mut Vec<Cell> = &mut self.grid[position.y];
                Some(&mut row[position.x])
            } else {
                None
            }
        } else {
            None
        }
    }

    /// Overwrite the tag at `position`, whatever was there; out of range, do
    /// nothing.
    pub fn set_cell_type(&mut self, position: Position, new_cell_type: CellType)
        requires
            old(self).wf(),
        ensures
            final(self).wf(),
            final(self)@ == set_at(old(self)@, position, new_cell_type),
            final(self)@.len() == old(self)@.len(),
    {
        if position.y < self.grid.len() {
            let row: &mut Vec<Cell> = &mut self.grid[position.y];
            if position.x < row.len() {
                let c: &mut Cell = &mut row[position.x];
                c.cell_type = new_cell_type;
            }
        }
        proof {
            assert(self@ =~~= set_at(old(self)@, position, new_cell_type));
        }
    }

    /// The valid neighbor positions of `position`, in the fixed order of
    /// `neighbor_positions`.
    pub fn get_adjacent_cells_positions(&self, position: Position, include_middle: bool) -> (r:
        Vec<Position>)
        ensures
            r@ == neighbor_positions(self@.len() as int, position, include_middle),
    {
        let n = self.grid.len();
        let xi = position.x as i128;
        let yi = position.y as i128;
        let mut out: Vec<Position> = Vec::new();
        push_in_bounds(&mut out, n, xi - 1, yi - 1);
        push_in_bounds(&mut out, n, xi, yi - 1);
        push_in_bounds(&mut out, n, xi + 1, yi - 1);
        push_in_bounds(&mut out, n, xi - 1, yi);
        if include_middle {
            push_in_bounds(&mut out, n, xi, yi);
        }
        push_in_bounds(&mut out, n, xi + 1, yi);
        push_in_bounds(&mut out, n, xi - 1, yi + 1);
        push_in_bounds(&mut out, n, xi, yi + 1);
        push_in_bounds(&mut out, n, xi + 1, yi + 1);
        proof {
            assert(out@ =~= neighbor_positions(self@.len() as int, position, include_middle));
        }
        out
    }

    /// The cells at the valid neighbor positions of `position`, in the same
    /// order.
    pub fn get_adjacent_cells(&self, position: Position, include_middle: bool) -> (r: Vec<&Cell>)
        requires
            self.wf(),
        ensures
            r@.len() == neighbor_positions(self@.len() as int, position, include_middle).len(),
            forall|i: int|
                0 <= i < r@.len() ==> r@[i].position == neighbor_positions(
                    self@.len() as int,
                    position,
                    include_middle,
                )[i] && r@[i].cell_type == cell_at(
                    self@,
                    #[trigger] neighbor_positions(self@.len() as int, position, include_middle)[i],
                ),
    {
        let n = self.grid.len();
        proof {
            assert(n == self@.len());
        }
        let positions = self.get_adjacent_cells_positions(position, include_middle);
        let ghost ns = neighbor_positions(self@.len() as int, position, include_middle);
        let mut out: Vec<&Cell> = Vec::new();
        let mut i: usize = 0;
        while i < positions.len()
            invariant
                self.wf(),
                n == self@.len(),
                ns == neighbor_positions(self@.len() as int, position, include_middle),
                positions@ == ns,
                i <= positions@.len(),
                out@.len() == i,
                forall|j: int|
                    0 <= j < i ==> out@[j].position == ns[j] && out@[j].cell_type == cell_at(
                        self@,
                        #[trigger] ns[j],
                    ),
            decreases positions@.len() - i,
        {
            proof {
                lemma_neighbor_elem(self@.len() as int, position, include_middle, i as int);
            }
            let p = positions[i];
            match self.get(p) {
                Some(c) => { out.push(c) },
                None => {
                    proof {
                        assert(false);
                    }
                },
            }
            i = i + 1;
        }
        out
    }

    /// Whether a tree may be committed at `position`: its whole in-bounds
    /// neighborhood, itself included, holds only `Empty` or `Tree`.
    pub fn is_cell_good_for_tree(&self, position: Position) -> (r: bool)
        requires
            self.wf(),
        ensures
            r == good_for_tree(self@, position),
    {
        let cells = self.get_adjacent_cells(position, true);
        let ghost ns = neighbor_positions(self@.len() as int, position, true);
        let mut i: usize = 0;
        while i < cells.len()
            invariant
                ns == neighbor_positions(self@.len() as int, position, true),
                cells@.len() == ns.len(),
                i <= cells@.len(),
                forall|j: int|
                    0 <= j < cells@.len() ==> cells@[j].cell_type == cell_at(
                        self@,
                        #[trigger] ns[j],
                    ),
                forall|j: int| 0 <= j < i ==> empty_or_tree(cell_at(self@, #[trigger] ns[j])),
            decreases cells@.len() - i,
        {
            let t = cells[i].cell_type;
            if !(t == CellType::Empty || t == CellType::Tree) {
                proof {
                    assert(!empty_or_tree(
                        cell_at(
                            self@,
                            neighbor_positions(self@.len() as int, position, true)[i as int],
                        ),
                    ));
                }
                return false;
            }
            i = i + 1;
        }
        true
    }

    /// Whether a base may be committed at `position`: its whole in-bounds
    /// neighborhood, itself included, holds only `Empty`.
    pub fn is_cell_good_for_base(&self, position: Position) -> (r: bool)
        requires
            self.wf(),
        ensures
            r == good_for_base(self@, position),
    {
        let cells = self.get_adjacent_cells(position, true);
        let ghost ns = neighbor_positions(self@.len() as int, position, true);
        let mut i: usize = 0;
        while i < cells.len()
            invariant
                ns == neighbor_positions(self@.len() as int, position, true),
                cells@.len() == ns.len(),
                i <= cells@.len(),
                forall|j: int|
                    0 <= j < cells@.len() ==> cells@[j].cell_type == cell_at(
                        self@,
                        #[trigger] ns[j],
                    ),
                forall|j: int| 0 <= j < i ==> cell_at(self@, #[trigger] ns[j]) is Empty,
            decreases cells@.len() - i,
        {
            let t = cells[i].cell_type;
            if !(t == CellType::Empty) {
                proof {
                    assert(!(cell_at(
                        self@,
                        neighbor_positions(self@.len() as int, position, true)[i as int],
                    ) is Empty));
                }
                return false;
            }
            i = i + 1;
        }
        true
    }

    /// References to all cells holding `cell_type`, in row-major order.
    pub fn get_cells_of_type(&self, cell_type: CellType) -> (r: Vec<&Cell>)
        requires
            self.wf(),
        ensures
            r@.len() == positions_of(self@, cell_type).len(),
            cell_positions(r@) == positions_of(self@, cell_type),
            forall|i: int|
                0 <= i < r@.len() ==> r@[i].position == positions_of(self@, cell_type)[i]
                    && r@[i].cell_type == cell_type,
    {
        let n = self.grid.len();
        let mut out: Vec<&Cell> = Vec::new();
        let mut y: usize = 0;
        while y < n
            invariant
                self.wf(),
                n == self@.len(),
                y <= n,
                cell_positions(out@) == positions_upto_row(self@, cell_type, y as nat),
                forall|j: int| 0 <= j < out@.len() ==> (#[trigger] out@[j]).cell_type == cell_type,
            decreases n - y,
        {
            let ghost before = positions_upto_row(self@, cell_type, y as nat);
            proof {
                assert(cell_positions(out@) =~= before + positions_in_row_prefix(
                    self@,
                    cell_type,
                    y as int,
                    0 as nat,
                ));
            }
            let mut x: usize = 0;
            while x < n
                invariant
                    self.wf(),
                    n == self@.len(),
                    y < n,
                    x <= n,
                    before == positions_upto_row(self@, cell_type, y as nat),
                    cell_positions(out@) == before + positions_in_row_prefix(
                        self@,
                        cell_type,
                        y as int,
                        x as nat,
                    ),
                    forall|j: int|
                        0 <= j < out@.len() ==> (#[trigger] out@[j]).cell_type == cell_type,
                decreases n - x,
            {
                let row: &Vec<Cell> = &self.grid[y];
                let c: &Cell = &row[x];
                proof {
                    assert(self@[y as int] == self.grid@[y as int]@.map_values(
                        |cc: Cell| cc.cell_type,
                    ));
                    assert(self@[y as int][x as int] == c.cell_type);
                    assert(c.position == (Position { x, y }));
                }
                let ghost pfx = positions_in_row_prefix(self@, cell_type, y as int, x as nat);
                let ghost pfx1 = positions_in_row_prefix(
                    self@,
                    cell_type,
                    y as int,
                    (x + 1) as nat,
                );
                if c.cell_type == cell_type {
                    let ghost prev = out@;
                    out.push(c);
                    proof {
                        assert(pfx1 == pfx + seq![Position { x, y }]);
                        assert(out@ == prev.push(c));
                        assert(cell_positions(prev).len() == prev.len());
                        assert(prev.len() == before.len() + pfx.len());
                        assert(pfx1.len() == pfx.len() + 1);
                        assert forall|j: int| 0 <= j < out@.len() implies cell_positions(out@)[j]
                            == (before + pfx1)[j] by {
                            assert(cell_positions(out@)[j] == out@[j].position);
                            if j < prev.len() {
                                assert(out@[j] == prev[j]);
                                assert(prev[j].position == cell_positions(prev)[j]);
                                assert(cell_positions(prev)[j] == (before + pfx)[j]);
                                assert((before + pfx1)[j] == (before + pfx)[j]);
                            } else {
                                assert(out@[j] == c);
                                assert((before + pfx1)[j] == pfx1[j - before.len()]);
                                assert(pfx1[pfx.len() as int] == (Position { x, y }));
                            }
                        }
                        assert(cell_positions(out@) =~= before + pfx1);
                    }
                } else {
                    proof {
                        assert(pfx1 == pfx);
                    }
                }
                x = x + 1;
            }
            proof {
                assert(self@[y as int].len() == n);
                assert(positions_upto_row(self@, cell_type, (y + 1) as nat) == before
                    + positions_in_row_prefix(self@, cell_type, y as int, n as nat));
            }
            y = y + 1;
        }
        proof {
            assert forall|i: int| 0 <= i < out@.len() implies out@[i].position == positions_of(
                self@,
                cell_type,
            )[i] && out@[i].cell_type == cell_type by {
                assert(cell_positions(out@)[i] == out@[i].position);
            }
        }
        out
    }

    /// The one base cell of the grid.
    pub fn get_base(&self) -> (r: &Cell)
        requires
            self.wf(),
            count_of(self@, CellType::Base) == 1,
        ensures
            r.position == positions_of(self@, CellType::Base)[0],
            r.cell_type == CellType::Base,
    {
        let bases = self.get_cells_of_type(CellType::Base);
        bases[0]
    }

    /// The grid as text, row by row.
    pub fn render(&self) -> (r: String)
        requires
            self.wf(),
        ensures
            r@ == render_chars(self@),
    {
        let n = self.grid.len();
        let mut out: Vec<char> = Vec::new();
        let mut y: usize = 0;
        while y < n
            invariant
                self.wf(),
                n == self@.len(),
                y <= n,
                out@ == render_chars(self@.take(y as int)),
            decreases n - y,
        {
            let ghost gpre = render_chars(self@.take(y as int));
            let ghost rowv = self@[y as int];
            out.push('|');
            proof {
                assert(line_chars(rowv.take(0)) == seq!['|']) by {
                    assert(rowv.take(0).len() == 0);
                }
                assert(out@ =~= gpre + line_chars(rowv.take(0)));
            }
            let mut x: usize = 0;
            while x < n
                invariant
                    self.wf(),
                    n == self@.len(),
                    y < n,
                    x <= n,
                    gpre == render_chars(self@.take(y as int)),
                    rowv == self@[y as int],
                    rowv.len() == n,
                    out@ == gpre + line_chars(rowv.take(x as int)),
                decreases n - x,
            {
                let row: &Vec<Cell> = &self.grid[y];
                let c: &Cell = &row[x];
                proof {
                    assert(self@[y as int] == self.grid@[y as int]@.map_values(
                        |cc: Cell| cc.cell_type,
                    ));
                    assert(rowv[x as int] == c.cell_type);
                }
                out.push(c.cell_type.to_char());
                out.push('|');
                proof {
                    assert(rowv.take(x + 1).drop_last() =~= rowv.take(x as int));
                    assert(rowv.take(x + 1).last() == rowv[x as int]);
                    assert(line_chars(rowv.take(x + 1)) == line_chars(rowv.take(x as int))
                        + seq![crate::cell_type::char_of(rowv[x as int]), '|']);
                    assert(out@ =~= gpre + line_chars(rowv.take(x + 1)));
                }
                x = x + 1;
            }
            out.push('\n');
            proof {
                assert(rowv.take(n as int) =~= rowv);
                assert(self@.take(y + 1).drop_last() =~= self@.take(y as int));
                assert(self@.take(y + 1).last() == rowv);
                assert(render_chars(self@.take(y + 1)) == gpre + line_chars(rowv) + seq!['\n']);
                assert(out@ =~= render_chars(self@.take(y + 1)));
            }
            y = y + 1;
        }
        proof {
            assert(self@.take(n as int) =~= self@);
        }
        string_from_chars(out)
    }
}

/// Relies on String's FromIterator implementation over char: collecting
/// characters yields a string holding exactly that character sequence.
#[verifier::external_body]
fn string_from_chars(cs: Vec<char>) -> (r: String)
    ensures
        r@ == cs@,
{
    cs.into_iter().collect()
}

/// Append `(x, y)` to `out` when both coordinates lie in `[0, n)`.
fn push_in_bounds(out: &mut Vec<Position>, n: usize, x: i128, y: i128)
    ensures
        final(out)@ == old(out)@ + nb_one(n as int, x as int, y as int),
{
    if 0 <= x && x < n as i128 && 0 <= y && y < n as i128 {
        out.push(Position::new(x as usize, y as usize));
    }
    proof {
        assert(out@ =~= old(out)@ + nb_one(n as int, x as int, y as int));
    }
}

/// An element of the clipped neighbor sequence lies in bounds and within
/// Chebyshev distance 1 of the middle; without the middle it differs from it.
pub proof fn lemma_neighbor_elem(n: int, p: Position, include_middle: bool, i: int)
    requires
        n <= usize::MAX,
        0 <= i < neighbor_positions(n, p, include_middle).len(),
    ensures
        ({
            let q = neighbor_positions(n, p, include_middle)[i];
            &&& 0 <= q.x < n
            &&& 0 <= q.y < n
            &&& crate::position::abs_diff(q.x as int, p.x as int) <= 1
            &&& crate::position::abs_diff(q.y as int, p.y as int) <= 1
            &&& (!include_middle ==> q != p)
        }),
{
    broadcast use vstd::seq_lib::lemma_seq_concat_contains_all_elements;

    let x = p.x as int;
    let y = p.y as int;
    let a1 = nb_one(n, x - 1, y - 1);
    let a2 = nb_one(n, x, y - 1);
    let a3 = nb_one(n, x + 1, y - 1);
    let a4 = nb_one(n, x - 1, y);
    let am = if include_middle {
        nb_one(n, x, y)
    } else {
        Seq::<Position>::empty()
    };
    let a6 = nb_one(n, x + 1, y);
    let a7 = nb_one(n, x - 1, y + 1);
    let a8 = nb_one(n, x, y + 1);
    let a9 = nb_one(n, x + 1, y + 1);
    let s = neighbor_positions(n, p, include_middle);
    let q = s[i];
    assert(s.contains(q));
    assert(a1.contains(q) || a2.contains(q) || a3.contains(q) || a4.contains(q) || am.contains(q)
        || a6.contains(q) || a7.contains(q) || a8.contains(q) || a9.contains(q));
}

} // verus!
