use vstd::prelude::*;

verus! {

/// A rectangular grid of `width` x `height` values, stored in row-major order.
#[derive(Debug, Clone, PartialEq, Eq)]
pub struct Array2<T: Clone> {
    width: usize,
    height: usize,
    data: Vec<T>,
}

/// Row-major position of (x, y) in a grid of the given width.
pub open spec fn row_major_index(x: int, y: int, width: int) -> int {
    y * width + x
}

/// Column `col` and row `row` of a `width` x `height` grid give a position inside it.
pub proof fn lemma_index_in_bounds(col: int, row: int, width: int, height: int)
    requires
        0 <= col < width,
        0 <= row < height,
    ensures
        0 <= row * width <= row * width + col < width * height,
        0 <= col * height <= col * height + row < width * height,
{
    assert(0 <= row * width <= row * width + col < width * height) by (nonlinear_arith)
        requires
            0 <= col < width,
            0 <= row < height,
    ;
    assert(0 <= col * height <= col * height + row < width * height) by (nonlinear_arith)
        requires
            0 <= col < width,
            0 <= row < height,
    ;
}

/// A position below `width * height` splits into a column below `width` and a row below `height`.
pub proof fn lemma_split_index(k: int, width: int, height: int)
    requires
        0 <= k < width * height,
        width >= 0,
        height >= 0,
    ensures
        width > 0,
        height > 0,
        0 <= k % width < width,
        0 <= k / width < height,
        width * (k / width) + k % width == k,
        0 <= k % height < height,
        0 <= k / height < width,
        height * (k / height) + k % height == k,
{
    assert(width > 0 && height > 0) by (nonlinear_arith)
        requires
            0 <= k < width * height,
            width >= 0,
            height >= 0,
    ;
    vstd::arithmetic::div_mod::lemma_fundamental_div_mod(k, width);
    vstd::arithmetic::div_mod::lemma_fundamental_div_mod(k, height);
    vstd::arithmetic::div_mod::lemma_mod_bound(k, width);
    vstd::arithmetic::div_mod::lemma_mod_bound(k, height);
    assert(0 <= k / width < height) by (nonlinear_arith)
        requires
            0 <= k < width * height,
            width > 0,
            width * (k / width) + k % width == k,
            0 <= k % width < width,
    ;
    assert(0 <= k / height < width) by (nonlinear_arith)
        requires
            0 <= k < width * height,
            height > 0,
            height * (k / height) + k % height == k,
            0 <= k % height < height,
    ;
}

impl<T: Clone> Array2<T> {
    /// Number of columns.
    pub closed spec fn spec_width(&self) -> nat {
        self.width as nat
    }

    /// Number of rows.
    pub closed spec fn spec_height(&self) -> nat {
        self.height as nat
    }

    /// All cells in row-major order.
    pub closed spec fn cells(&self) -> Seq<T> {
        self.data@
    }

    /// The cell store holds exactly one value per (column, row) pair.
    pub open spec fn wf(&self) -> bool {
        &&& self.cells().len() == self.spec_width() * self.spec_height()
        &&& self.spec_width() * self.spec_height() <= usize::MAX
    }

    /// True iff (x, y) names a cell of the grid.
    pub open spec fn in_bounds(&self, x: int, y: int) -> bool {
        0 <= x < self.spec_width() && 0 <= y < self.spec_height()
    }

    /// Both dimensions are machine-sized.
    pub proof fn lemma_dims_fit(&self)
        ensures
            self.spec_width() <= usize::MAX,
            self.spec_height() <= usize::MAX,
    {
    }

    /// The value at column `x`, row `y`.
    pub open spec fn at(&self, x: int, y: int) -> T {
        self.cells()[row_major_index(x, y, self.spec_width() as int)]
    }

    /// Creates a `width` x `height` grid holding copies of `data`.
    pub fn new(width: usize, height: usize, data: T) -> (r: Self)
        requires
            width * height <= usize::MAX,
        ensures
            r.wf(),
            r.spec_width() == width,
            r.spec_height() == height,
            forall|i: int| 0 <= i < r.cells().len() ==> cloned(data, #[trigger] r.cells()[i]),
    {
        let data = vec![data; width * height];
        Array2 { width, height, data }
    }

    /// The height.
    pub fn height(&self) -> (r: usize)
        ensures
            r == self.spec_height(),
    {
        self.height
    }

    /// The width.
    pub fn width(&self) -> (r: usize)
        ensures
            r == self.spec_width(),
    {
        self.width
    }

    /// Position of (c, r) in the cell store, or `None` if it is outside the grid.
    fn get_index(&self, c: usize, r: usize) -> (i: Option<usize>)
        requires
            self.wf(),
        ensures
            match i {
                Some(k) => self.in_bounds(c as int, r as int) && k == row_major_index(
                    c as int,
                    r as int,
                    self.spec_width() as int,
                ) && k < self.cells().len(),
                None => !self.in_bounds(c as int, r as int),
            },
    {
        if c < self.width && r < self.height {
            proof {
                lemma_index_in_bounds(c as int, r as int, self.width as int, self.height as int);
            }
            Some(r * self.width + c)
        } else {
            None
        }
    }

    /// The element at column `c`, row `r`, or `None` if that is outside the grid.
    pub fn get(&self, c: usize, r: usize) -> (v: Option<&T>)
        requires
            self.wf(),
        ensures
            match v {
                Some(e) => self.in_bounds(c as int, r as int) && *e == self.at(c as int, r as int),
                None => !self.in_bounds(c as int, r as int),
            },
    {
        match self.get_index(c, r) {
            Some(i) => Some(&self.data[i]),
            None => None,
        }
    }

    /// Replaces the element at column `x`, row `y`.
    pub fn set(&mut self, x: usize, y: usize, value: T)
        requires
            old(self).wf(),
            old(self).in_bounds(x as int, y as int),
        ensures
            final(self).wf(),
            final(self).spec_width() == old(self).spec_width(),
            final(self).spec_height() == old(self).spec_height(),
            final(self).cells() == old(self).cells().update(
                row_major_index(x as int, y as int, old(self).spec_width() as int),
                value,
            ),
    {
        proof {
            lemma_index_in_bounds(x as int, y as int, self.width as int, self.height as int);
        }
        let i = y * self.width + x;
        self.data.set(i, value);
    }

    /// A mutable reference to the element at column `c`, row `r`, or `None` if
    /// that is outside the grid.
    pub fn get_mut(&mut self, c: usize, r: usize) -> (v: Option<&mut T>)
        requires
            old(self).wf(),
        ensures
            match v {
                Some(e) => old(self).in_bounds(c as int, r as int) && *e == old(self).at(
                    c as int,
                    r as int,
                ) && final(self).spec_width() == old(self).spec_width() && final(self).spec_height()
                    == old(self).spec_height() && final(self).cells() == old(self).cells().update(
                    row_major_index(c as int, r as int, old(self).spec_width() as int),
                    *final(e),
                ),
                None => !old(self).in_bounds(c as int, r as int) && *final(self) == *old(self),
            },
    {
        match self.get_index(c, r) {
            Some(i) => Some(&mut self.data[i]),
            None => None,
        }
    }

    /// Every cell with its column and row, visiting all columns of row 0, then row 1, and so on.
    pub fn iter_row_major(&self) -> (v: Vec<(usize, usize, &T)>)
        requires
            self.wf(),
        ensures
            v@.len() == self.cells().len(),
            forall|k: int|
                0 <= k < v@.len() ==> {
                    let (x, y, e) = #[trigger] v@[k];
                    &&& x == k % self.spec_width() as int
                    &&& y == k / self.spec_width() as int
                    &&& *e == self.at(x as int, y as int)
                },
    {
        let mut v: Vec<(usize, usize, &T)> = Vec::new();
        let n = self.data.len();
        let mut k: usize = 0;
        while k < n
            invariant
                self.wf(),
                n == self.cells().len(),
                k <= n,
                v@.len() == k,
                forall|j: int|
                    0 <= j < k ==> {
                        let (x, y, e) = #[trigger] v@[j];
                        &&& x == j % self.spec_width() as int
                        &&& y == j / self.spec_width() as int
                        &&& *e == self.at(x as int, y as int)
                    },
            decreases n - k,
        {
            proof {
                lemma_split_index(k as int, self.width as int, self.height as int);
            }
            let x = k % self.width;
            let y = k / self.width;
            proof {
                vstd::arithmetic::mul::lemma_mul_is_commutative(y as int, self.width as int);
                assert(row_major_index(x as int, y as int, self.width as int) == k);
            }
            v.push((x, y, &self.data[k]));
            k = k + 1;
        }
        v
    }

    /// Every cell with its column and row, visiting all rows of column 0, then column 1, and so on.
    pub fn iter_col_major(&self) -> (v: Vec<(usize, usize, &T)>)
        requires
            self.wf(),
        ensures
            v@.len() == self.cells().len(),
            forall|k: int|
                0 <= k < v@.len() ==> {
                    let (x, y, e) = #[trigger] v@[k];
                    &&& x == k / self.spec_height() as int
                    &&& y == k % self.spec_height() as int
                    &&& *e == self.at(x as int, y as int)
                },
    {
        let mut v: Vec<(usize, usize, &T)> = Vec::new();
        let n = self.data.len();
        let mut k: usize = 0;
        while k < n
            invariant
                self.wf(),
                n == self.cells().len(),
                k <= n,
                v@.len() == k,
                forall|j: int|
                    0 <= j < k ==> {
                        let (x, y, e) = #[trigger] v@[j];
                        &&& x == j / self.spec_height() as int
                        &&& y == j % self.spec_height() as int
                        &&& *e == self.at(x as int, y as int)
                    },
            decreases n - k,
        {
            proof {
                lemma_split_index(k as int, self.width as int, self.height as int);
                lemma_index_in_bounds(
                    k as int / self.height as int,
                    k as int % self.height as int,
                    self.width as int,
                    self.height as int,
                );
            }
            let x = k / self.height;
            let y = k % self.height;
            v.push((x, y, &self.data[y * self.width + x]));
            k = k + 1;
        }
        v
    }

    /// A `width` x `height` grid whose row-major cells are `elements`.
    pub fn from_row_major(width: usize, height: usize, elements: &Vec<T>) -> (r: Self)
        requires
            elements@.len() == width * height,
        ensures
            r.wf(),
            r.spec_width() == width,
            r.spec_height() == height,
            r.cells().len() == elements@.len(),
            forall|i: int| 0 <= i < elements@.len() ==> cloned(elements@[i], #[trigger] r.cells()[i]),
    {
        Self { width, height, data: elements.clone() }
    }

    /// A `width` x `height` grid built from `elements` in column-major order: the
    /// element at position `col * height + row` lands at column `col`, row `row`.
    pub fn from_col_major(width: usize, height: usize, elements: &Vec<T>) -> (r: Self)
        requires
            elements@.len() == width * height,
        ensures
            r.wf(),
            r.spec_width() == width,
            r.spec_height() == height,
            forall|x: int, y: int|
                0 <= x < width && 0 <= y < height ==> cloned(
                    elements@[x * height + y],
                    #[trigger] r.at(x, y),
                ),
    {
        let n = elements.len();
        let mut data: Vec<T> = Vec::with_capacity(n);
        let mut k: usize = 0;
        while k < n
            invariant
                n == elements@.len(),
                n == width * height,
                k <= n,
                data@.len() == k,
                forall|j: int|
                    0 <= j < k ==> cloned(
                        elements@[(j % width as int) * height + j / width as int],
                        #[trigger] data@[j],
                    ),
            decreases n - k,
        {
            proof {
                lemma_split_index(k as int, width as int, height as int);
                lemma_index_in_bounds(
                    k as int % width as int,
                    k as int / width as int,
                    width as int,
                    height as int,
                );
            }
            let row = k / width;
            let col = k % width;
            data.push(elements[col * height + row].clone());
            k = k + 1;
        }
        let r = Self { width, height, data };
        assert forall|x: int, y: int| 0 <= x < width && 0 <= y < height implies cloned(
            elements@[x * height + y],
            #[trigger] r.at(x, y),
        ) by {
            let j = y * width + x;
            lemma_index_in_bounds(x, y, width as int, height as int);
            vstd::arithmetic::div_mod::lemma_fundamental_div_mod_converse(j, width as int, y, x);
        }
        r
    }
}

} // verus!
