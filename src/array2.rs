//! A fixed-size two-dimensional grid stored row by row in one vector.
use vstd::arithmetic::div_mod::lemma_fundamental_div_mod_converse;
use vstd::prelude::*;

verus! {

/// The position of cell `(col, row)` in the row-major storage of a grid
/// `width` cells wide.
pub open spec fn row_major_index(width: int, col: int, row: int) -> int {
    row * width + col
}

/// `n` rounded down to an even number.
pub open spec fn even_floor(n: int) -> int {
    n - n % 2
}

/// Trimming a dimension makes it even, drops at most one, and leaves an even
/// dimension as it is.
pub proof fn lemma_even_floor(n: int)
    requires
        0 <= n,
    ensures
        even_floor(n) % 2 == 0,
        n - 1 <= even_floor(n) <= n,
        n % 2 == 0 ==> even_floor(n) == n,
{
}

/// The cell at `(col, row)` lies inside a `width` by `height` grid.
pub proof fn lemma_cell_in_grid(width: int, height: int, col: int, row: int)
    requires
        0 <= col < width,
        0 <= row < height,
    ensures
        0 <= row_major_index(width, col, row) < width * height,
{
    assert(0 <= row * width + col < width * height) by (nonlinear_arith)
        requires
            0 <= col < width,
            0 <= row < height,
    ;
}

/// Column and row of a cell are recovered from its row-major position.
pub proof fn lemma_cell_of_index(width: int, col: int, row: int)
    requires
        0 <= col < width,
        0 <= row,
    ensures
        row_major_index(width, col, row) % width == col,
        row_major_index(width, col, row) / width == row,
{
    lemma_fundamental_div_mod_converse(row * width + col, width, row, col);
}

/// A grid of `width` columns and `height` rows over a vector of cells. A
/// well-formed grid holds exactly `width * height` cells, the cell at
/// `(col, row)` standing at `row * width + col`.
#[derive(Debug, Clone)]
pub struct Array2<T> {
    pub data: Vec<T>,
    pub width: usize,
    pub height: usize,
}

impl<T> Array2<T> {
    /// The storage holds one cell for each column and row.
    pub open spec fn wf(&self) -> bool {
        self.data@.len() == self.width * self.height
    }

    /// The cell at `(col, row)` of a well-formed grid.
    pub open spec fn cell(&self, col: int, row: int) -> T {
        self.data@[row_major_index(self.width as int, col, row)]
    }

    /// An empty grid, zero wide and zero high.
    pub fn new() -> (r: Self)
        ensures
            r.data@ == Seq::<T>::empty(),
            r.width == 0,
            r.height == 0,
            r.wf(),
    {
        Array2 { data: Vec::new(), width: 0, height: 0 }
    }

    /// A grid whose storage is `orig_vec` as it stands, read row by row.
    pub fn from_row_major(width: usize, height: usize, orig_vec: Vec<T>) -> (r: Self)
        ensures
            r.data@ == orig_vec@,
            r.width == width,
            r.height == height,
            orig_vec@.len() == width * height ==> r.wf(),
    {
        Array2 { data: orig_vec, width, height }
    }

    /// The storage position of `(c, r)`, when the cell lies in the grid.
    fn get_index(&self, c: usize, r: usize) -> (i: Option<usize>)
        requires
            self.wf(),
        ensures
            i.is_some() == (c < self.width && r < self.height),
            i.is_some() ==> i.unwrap() == row_major_index(self.width as int, c as int, r as int),
            i.is_some() ==> i.unwrap() < self.data@.len(),
    {
        if c < self.width && r < self.height {
            proof {
                lemma_cell_in_grid(self.width as int, self.height as int, c as int, r as int);
                assert(self.data@.len() == self.data.len());
            }
            Some(r * self.width + c)
        } else {
            None
        }
    }

    /// The cell at column `c` and row `r`, or `None` outside the grid.
    pub fn get(&self, c: usize, r: usize) -> (v: Option<&T>)
        requires
            self.wf(),
        ensures
            v.is_some() == (c < self.width && r < self.height),
            v.is_some() ==> *v.unwrap() == self.cell(c as int, r as int),
    {
        match self.get_index(c, r) {
            Some(index) => Some(&self.data[index]),
            None => None,
        }
    }

    /// A mutable reference to the cell at column `c` and row `r`, or `None`
    /// outside the grid.
    pub fn get_mut(&mut self, c: usize, r: usize) -> (v: Option<&mut T>)
        requires
            old(self).wf(),
        ensures
            v.is_some() == (c < old(self).width && r < old(self).height),
            v.is_some() ==> *v.unwrap() == old(self).cell(c as int, r as int),
            v.is_some() ==> final(self).data@ == old(self).data@.update(
                row_major_index(old(self).width as int, c as int, r as int),
                *final(v.unwrap()),
            ),
            v.is_none() ==> final(self).data@ == old(self).data@,
            final(self).width == old(self).width,
            final(self).height == old(self).height,
    {
        match self.get_index(c, r) {
            Some(index) => Some(&mut self.data[index]),
            None => None,
        }
    }

    /// The number of cells, `width * height`.
    pub fn size(&self) -> (n: usize)
        requires
            self.width * self.height <= usize::MAX,
        ensures
            n == self.width * self.height,
    {
        self.width * self.height
    }

    /// The number of rows.
    pub fn get_height(&self) -> (h: usize)
        ensures
            h == self.height,
    {
        self.height
    }

    /// The number of columns.
    pub fn get_width(&self) -> (w: usize)
        ensures
            w == self.width,
    {
        self.width
    }

    /// Sets the width and height, leaving the storage as it is.
    pub fn set_dimensions(&mut self, width: usize, height: usize)
        ensures
            final(self).data@ == old(self).data@,
            final(self).width == width,
            final(self).height == height,
    {
        self.width = width;
        self.height = height;
    }
}

impl<T: Copy> Array2<T> {
    /// Every cell with its column and row, rows in order from the top and,
    /// within a row, columns from the left.
    pub fn iter_row_major(&self) -> (cells: Vec<(usize, usize, T)>)
        requires
            self.wf(),
        ensures
            cells@.len() == self.data@.len(),
            forall|k: int|
                0 <= k < cells@.len() ==> #[trigger] cells@[k] == (
                    (k % self.width as int) as usize,
                    (k / self.width as int) as usize,
                    self.data@[k],
                ),
    {
        let mut cells: Vec<(usize, usize, T)> = Vec::new();
        let mut row: usize = 0;
        while row < self.height
            invariant
                self.wf(),
                row <= self.height,
                cells@.len() == row * self.width,
                forall|k: int|
                    0 <= k < cells@.len() ==> #[trigger] cells@[k] == (
                        (k % self.width as int) as usize,
                        (k / self.width as int) as usize,
                        self.data@[k],
                    ),
            decreases self.height - row,
        {
            let mut c: usize = 0;
            while c < self.width
                invariant
                    self.wf(),
                    row < self.height,
                    c <= self.width,
                    cells@.len() == row * self.width + c,
                    forall|k: int|
                        0 <= k < cells@.len() ==> #[trigger] cells@[k] == (
                            (k % self.width as int) as usize,
                            (k / self.width as int) as usize,
                            self.data@[k],
                        ),
                decreases self.width - c,
            {
                proof {
                    lemma_cell_in_grid(self.width as int, self.height as int, c as int, row as int);
                    lemma_cell_of_index(self.width as int, c as int, row as int);
                    assert(self.data@.len() == self.data.len());
                }
                cells.push((c, row, self.data[row * self.width + c]));
                c += 1;
            }
            proof {
                assert((row + 1) * self.width == row * self.width + self.width) by (nonlinear_arith);
            }
            row += 1;
        }
        proof {
            assert(self.height * self.width == self.width * self.height) by (nonlinear_arith);
        }
        cells
    }

    /// Every cell with its column and row, columns in order from the left
    /// and, within a column, rows from the top.
    pub fn iter_col_major(&self) -> (cells: Vec<(usize, usize, T)>)
        requires
            self.wf(),
        ensures
            cells@.len() == self.data@.len(),
            forall|k: int|
                0 <= k < cells@.len() ==> #[trigger] cells@[k] == (
                    (k / self.height as int) as usize,
                    (k % self.height as int) as usize,
                    self.cell(k / self.height as int, k % self.height as int),
                ),
    {
        let mut cells: Vec<(usize, usize, T)> = Vec::new();
        let mut c: usize = 0;
        while c < self.width
            invariant
                self.wf(),
                c <= self.width,
                cells@.len() == c * self.height,
                forall|k: int|
                    0 <= k < cells@.len() ==> #[trigger] cells@[k] == (
                        (k / self.height as int) as usize,
                        (k % self.height as int) as usize,
                        self.cell(k / self.height as int, k % self.height as int),
                    ),
            decreases self.width - c,
        {
            let mut row: usize = 0;
            while row < self.height
                invariant
                    self.wf(),
                    c < self.width,
                    row <= self.height,
                    cells@.len() == c * self.height + row,
                    forall|k: int|
                        0 <= k < cells@.len() ==> #[trigger] cells@[k] == (
                            (k / self.height as int) as usize,
                            (k % self.height as int) as usize,
                            self.cell(k / self.height as int, k % self.height as int),
                        ),
                decreases self.height - row,
            {
                proof {
                    lemma_cell_in_grid(self.width as int, self.height as int, c as int, row as int);
                    lemma_cell_of_index(self.height as int, row as int, c as int);
                    assert(self.data@.len() == self.data.len());
                }
                cells.push((c, row, self.data[row * self.width + c]));
                row += 1;
            }
            proof {
                assert((c + 1) * self.height == c * self.height + self.height) by (nonlinear_arith);
            }
            c += 1;
        }
        cells
    }

    /// A grid of the given dimensions over `orig_vec` read column by column:
    /// for each column `c` in turn, the cells at `c, c + width, c + 2 * width,
    /// ...` of `orig_vec` are appended in that order.
    pub fn from_col_major(width: usize, height: usize, orig_vec: Vec<T>) -> (r: Self)
        requires
            orig_vec@.len() == width * height,
        ensures
            r.width == width,
            r.height == height,
            r.wf(),
            forall|k: int|
                0 <= k < r.data@.len() ==> #[trigger] r.data@[k] == orig_vec@[row_major_index(
                    width as int,
                    k / height as int,
                    k % height as int,
                )],
    {
        let mut temp: Vec<T> = Vec::new();
        let mut c: usize = 0;
        while c < width
            invariant
                orig_vec@.len() == width * height,
                c <= width,
                temp@.len() == c * height,
                forall|k: int|
                    0 <= k < temp@.len() ==> #[trigger] temp@[k] == orig_vec@[row_major_index(
                        width as int,
                        k / height as int,
                        k % height as int,
                    )],
            decreases width - c,
        {
            let mut row: usize = 0;
            while row < height
                invariant
                    orig_vec@.len() == width * height,
                    c < width,
                    row <= height,
                    temp@.len() == c * height + row,
                    forall|k: int|
                        0 <= k < temp@.len() ==> #[trigger] temp@[k] == orig_vec@[row_major_index(
                            width as int,
                            k / height as int,
                            k % height as int,
                        )],
                decreases height - row,
            {
                proof {
                    lemma_cell_in_grid(width as int, height as int, c as int, row as int);
                    lemma_cell_of_index(height as int, row as int, c as int);
                    assert(orig_vec@.len() == orig_vec.len());
                }
                temp.push(orig_vec[row * width + c]);
                row += 1;
            }
            proof {
                assert((c + 1) * height == c * height + height) by (nonlinear_arith);
            }
            c += 1;
        }
        proof {
            assert(width * height == height * width) by (nonlinear_arith);
        }
        Array2 { data: temp, width, height }
    }

    /// A grid over `orig_vec`, read row by row as `width` by `height`, with
    /// the last column left out when `width` is odd and the last row left
    /// out when `height` is odd; both dimensions become even.
    pub fn from_even_dimension(width: usize, height: usize, orig_vec: Vec<T>) -> (r: Self)
        requires
            orig_vec@.len() == width * height,
        ensures
            r.width == even_floor(width as int),
            r.height == even_floor(height as int),
            r.wf(),
            forall|k: int|
                0 <= k < r.data@.len() ==> #[trigger] r.data@[k] == orig_vec@[row_major_index(
                    width as int,
                    k % r.width as int,
                    k / r.width as int,
                )],
    {
        let new_width: usize = width - width % 2;
        let new_height: usize = height - height % 2;
        let mut temp: Vec<T> = Vec::new();
        let mut row: usize = 0;
        while row < new_height
            invariant
                orig_vec@.len() == width * height,
                new_width == even_floor(width as int),
                new_height == even_floor(height as int),
                row <= new_height,
                temp@.len() == row * new_width,
                forall|k: int|
                    0 <= k < temp@.len() ==> #[trigger] temp@[k] == orig_vec@[row_major_index(
                        width as int,
                        k % new_width as int,
                        k / new_width as int,
                    )],
            decreases new_height - row,
        {
            let mut c: usize = 0;
            while c < new_width
                invariant
                    orig_vec@.len() == width * height,
                    new_width == even_floor(width as int),
                    new_height == even_floor(height as int),
                    row < new_height,
                    c <= new_width,
                    temp@.len() == row * new_width + c,
                    forall|k: int|
                        0 <= k < temp@.len() ==> #[trigger] temp@[k] == orig_vec@[row_major_index(
                            width as int,
                            k % new_width as int,
                            k / new_width as int,
                        )],
                decreases new_width - c,
            {
                proof {
                    lemma_cell_in_grid(width as int, height as int, c as int, row as int);
                    lemma_cell_of_index(new_width as int, c as int, row as int);
                    assert(orig_vec@.len() == orig_vec.len());
                }
                temp.push(orig_vec[row * width + c]);
                c += 1;
            }
            proof {
                assert((row + 1) * new_width == row * new_width + new_width) by (nonlinear_arith);
            }
            row += 1;
        }
        proof {
            assert(new_height * new_width == new_width * new_height) by (nonlinear_arith);
        }
        Array2 { data: temp, width: new_width, height: new_height }
    }
}

} // verus!
