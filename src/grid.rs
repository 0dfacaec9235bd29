use crate::object::Object;
use vstd::prelude::*;

verus! {

/// A fixed-size grid of cells, `width` columns by `height` rows, each empty
/// or holding one particle. Cell (x, y) is stored at `x * height + y`, so the
/// storage order is column by column, top to bottom within a column.
pub struct Grid {
    cells: Vec<Option<Object>>,
    columns: usize,
    rows: usize,
}

/// The storage position of cell (x, y) in a grid of `h` rows.
pub open spec fn cell_index(x: int, y: int, h: int) -> int {
    x * h + y
}

pub proof fn lemma_cell_index(x: int, y: int, w: int, h: int)
    requires
        0 <= x < w,
        0 <= y < h,
    ensures
        0 <= cell_index(x, y, h) < w * h,
        cell_index(x, y, h) / h == x,
        cell_index(x, y, h) % h == y,
{
    assert(0 <= x * h + y < w * h) by (nonlinear_arith)
        requires 0 <= x < w, 0 <= y < h;
    vstd::arithmetic::div_mod::lemma_fundamental_div_mod_converse(x * h + y, h, x, y);
}

pub proof fn lemma_cell_of_index(k: int, w: int, h: int)
    requires
        0 <= k < w * h,
        0 < h,
    ensures
        0 <= k / h < w,
        0 <= k % h < h,
        cell_index(k / h, k % h, h) == k,
{
    vstd::arithmetic::div_mod::lemma_fundamental_div_mod(k, h);
    assert(h * (k / h) == (k / h) * h) by (nonlinear_arith);
    assert(0 <= k / h < w) by (nonlinear_arith)
        requires 0 <= k < w * h, 0 < h, k == (k / h) * h + k % h, 0 <= k % h < h;
}

impl Grid {
    pub closed spec fn width(&self) -> nat {
        self.columns as nat
    }

    pub closed spec fn height(&self) -> nat {
        self.rows as nat
    }

    /// The cells in storage order.
    pub closed spec fn contents(&self) -> Seq<Option<Object>> {
        self.cells@
    }

    pub closed spec fn wf(&self) -> bool {
        &&& self.cells@.len() == self.columns * self.rows
        &&& self.columns * self.rows <= usize::MAX
    }

    pub proof fn lemma_dims(&self)
        requires
            self.wf(),
        ensures
            self.contents().len() == self.width() * self.height(),
            self.width() <= usize::MAX,
            self.height() <= usize::MAX,
    {
    }

    pub open spec fn in_bounds(&self, x: int, y: int) -> bool {
        0 <= x < self.width() && 0 <= y < self.height()
    }

    /// The content of cell (x, y).
    pub open spec fn at(&self, x: int, y: int) -> Option<Object> {
        self.contents()[cell_index(x, y, self.height() as int)]
    }

    /// What a read of cell (x, y) gives: its content, or nothing outside the grid.
    pub open spec fn get_spec(&self, x: int, y: int) -> Option<Object> {
        if self.in_bounds(x, y) {
            self.at(x, y)
        } else {
            None
        }
    }

    pub open spec fn is_empty(&self) -> bool {
        forall|k: int| 0 <= k < self.contents().len() ==> #[trigger] self.contents()[k] is None
    }

    /// A grid of `columns` by `rows` empty cells.
    pub fn new(columns: usize, rows: usize) -> (g: Grid)
        requires
            columns * rows <= usize::MAX,
        ensures
            g.wf(),
            g.width() == columns,
            g.height() == rows,
            g.contents().len() == columns * rows,
            g.is_empty(),
    {
        let n: usize = columns * rows;
        let mut cells: Vec<Option<Object>> = Vec::new();
        let mut k: usize = 0;
        while k < n
            invariant
                k <= n,
                cells@.len() == k,
                forall|i: int| 0 <= i < k ==> #[trigger] cells@[i] is None,
            decreases n - k,
        {
            cells.push(None);
            k = k + 1;
        }
        Grid { cells, columns, rows }
    }

    /// The number of cells.
    pub fn size(&self) -> (n: usize)
        requires
            self.wf(),
        ensures
            n == self.contents().len(),
            n == self.width() * self.height(),
    {
        self.cells.len()
    }

    pub fn columns(&self) -> (c: usize)
        ensures
            c == self.width(),
    {
        self.columns
    }

    pub fn rows(&self) -> (r: usize)
        ensures
            r == self.height(),
    {
        self.rows
    }

    /// The storage position of cell (x, y).
    pub fn index_of(&self, x: usize, y: usize) -> (k: usize)
        requires
            self.wf(),
            self.in_bounds(x as int, y as int),
        ensures
            k == cell_index(x as int, y as int, self.height() as int),
            k < self.contents().len(),
    {
        proof {
            lemma_cell_index(x as int, y as int, self.columns as int, self.rows as int);
            assert(0 <= x * self.rows <= x * self.rows + y) by (nonlinear_arith)
                requires 0 <= x, 0 <= y, 0 <= self.rows;
        }
        x * self.rows + y
    }

    /// Reads cell (x, y); a cell outside the grid reads as empty.
    pub fn get(&self, x: i64, y: i64) -> (r: Option<Object>)
        requires
            self.wf(),
        ensures
            r == self.get_spec(x as int, y as int),
    {
        if x < 0 || y < 0 || x as u64 >= self.columns as u64 || y as u64 >= self.rows as u64 {
            return None;
        }
        let k = self.index_of(x as usize, y as usize);
        self.cells[k]
    }

    /// Reads the cell at storage position `k`.
    pub fn get_at(&self, k: usize) -> (r: Option<Object>)
        requires
            k < self.contents().len(),
        ensures
            r == self.contents()[k as int],
    {
        self.cells[k]
    }

    /// Writes the cell at storage position `k`.
    pub fn set_at(&mut self, k: usize, v: Option<Object>)
        requires
            old(self).wf(),
            k < old(self).contents().len(),
        ensures
            final(self).wf(),
            final(self).width() == old(self).width(),
            final(self).height() == old(self).height(),
            final(self).contents() == old(self).contents().update(k as int, v),
    {
        self.cells.set(k, v);
    }

    /// Writes cell (x, y); a write outside the grid changes nothing.
    pub fn set(&mut self, x: i64, y: i64, v: Option<Object>)
        requires
            old(self).wf(),
        ensures
            final(self).wf(),
            final(self).width() == old(self).width(),
            final(self).height() == old(self).height(),
            old(self).in_bounds(x as int, y as int) ==> final(self).contents() == old(
                self,
            ).contents().update(cell_index(x as int, y as int, old(self).height() as int), v),
            !old(self).in_bounds(x as int, y as int) ==> final(self).contents() == old(
                self,
            ).contents(),
    {
        if x < 0 || y < 0 || x as u64 >= self.columns as u64 || y as u64 >= self.rows as u64 {
            return;
        }
        let k = self.index_of(x as usize, y as usize);
        self.set_at(k, v);
    }

    /// Exchanges the contents of two cells of the grid.
    pub fn swap(&mut self, x1: usize, y1: usize, x2: usize, y2: usize)
        requires
            old(self).wf(),
            old(self).in_bounds(x1 as int, y1 as int),
            old(self).in_bounds(x2 as int, y2 as int),
        ensures
            final(self).wf(),
            final(self).width() == old(self).width(),
            final(self).height() == old(self).height(),
            final(self).contents() == old(self).contents().update(
                cell_index(x1 as int, y1 as int, old(self).height() as int),
                old(self).at(x2 as int, y2 as int),
            ).update(
                cell_index(x2 as int, y2 as int, old(self).height() as int),
                old(self).at(x1 as int, y1 as int),
            ),
    {
        let k1 = self.index_of(x1, y1);
        let k2 = self.index_of(x2, y2);
        let a = self.cells[k1];
        let b = self.cells[k2];
        self.set_at(k1, b);
        self.set_at(k2, a);
    }

    /// Empties every cell.
    pub fn clear(&mut self)
        requires
            old(self).wf(),
        ensures
            final(self).wf(),
            final(self).width() == old(self).width(),
            final(self).height() == old(self).height(),
            final(self).contents().len() == old(self).contents().len(),
            final(self).is_empty(),
    {
        let n = self.cells.len();
        let mut k: usize = 0;
        while k < n
            invariant
                self.wf(),
                self.width() == old(self).width(),
                self.height() == old(self).height(),
                self.contents().len() == n,
                k <= n,
                forall|i: int| 0 <= i < k ==> #[trigger] self.contents()[i] is None,
            decreases n - k,
        {
            self.set_at(k, None);
            k = k + 1;
        }
    }
}

} // verus!
