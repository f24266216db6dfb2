use vstd::prelude::*;

use std::ops::{Index, IndexMut};

verus! {

/// A two-dimensional array of `height` rows by `width` columns, stored row-major.
#[derive(Debug)]
pub struct Array2D<T> {
    data: Vec<T>,
    height: usize,
    width: usize,
}

impl<T> Array2D<T> {
    /// The array holds exactly `height * width` elements.
    pub closed spec fn wf(self) -> bool {
        self.data@.len() == self.height * self.width
    }

    /// Number of rows.
    pub closed spec fn height_spec(self) -> nat {
        self.height as nat
    }

    /// Number of columns.
    pub closed spec fn width_spec(self) -> nat {
        self.width as nat
    }

    /// The element in row `row` and column `column`.
    pub open spec fn cell(self, row: int, column: int) -> T {
        self@[row * self.width_spec() + column]
    }

    /// Number of rows.
    pub fn get_height(&self) -> (r: usize)
        ensures
            r == self.height_spec(),
    {
        self.height
    }

    /// Number of columns.
    pub fn get_width(&self) -> (r: usize)
        ensures
            r == self.width_spec(),
    {
        self.width
    }

    /// All elements in one slice, row after row.
    pub fn as_slice(&self) -> (r: &[T])
        ensures
            r@ == self@,
    {
        self.data.as_slice()
    }

    /// A well-formed array holds `height * width` elements.
    pub proof fn lemma_len(&self)
        requires
            self.wf(),
        ensures
            self@.len() == self.height_spec() * self.width_spec(),
    {
    }

    /// The element in row `row` and column `column`.
    pub fn get(&self, row: usize, column: usize) -> (r: &T)
        requires
            self.wf(),
            row < self.height_spec(),
            column < self.width_spec(),
        ensures
            *r == self.cell(row as int, column as int),
    {
        // The length of `data` is a `usize`, which bounds the index arithmetic below.
        let _len = self.data.len();
        proof {
            lemma_cell_in_bounds(row as int, column as int, self.height as int, self.width as int);
        }
        &self.data[row * self.width + column]
    }

    /// Replaces the element in row `row` and column `column` by `value`.
    pub fn set(&mut self, row: usize, column: usize, value: T)
        requires
            old(self).wf(),
            row < old(self).height_spec(),
            column < old(self).width_spec(),
        ensures
            final(self).wf(),
            final(self).height_spec() == old(self).height_spec(),
            final(self).width_spec() == old(self).width_spec(),
            final(self)@ == old(self)@.update(row * old(self).width_spec() + column, value),
            forall|r: int, c: int|
                0 <= r < old(self).height_spec() && 0 <= c < old(self).width_spec()
                    ==> #[trigger] final(self).cell(r, c) == if r == row && c == column {
                    value
                } else {
                    old(self).cell(r, c)
                },
    {
        // The length of `data` is a `usize`, which bounds the index arithmetic below.
        let _len = self.data.len();
        proof {
            lemma_cell_in_bounds(row as int, column as int, self.height as int, self.width as int);
        }
        let index = row * self.width + column;
        self.data[index] = value;
        proof {
            assert forall|r: int, c: int|
                0 <= r < old(self).height_spec() && 0 <= c < old(self).width_spec()
                    implies #[trigger] self.cell(r, c) == if r == row && c == column {
                    value
                } else {
                    old(self).cell(r, c)
                } by {
                lemma_cell_index_unique(r, c, row as int, column as int, self.width as int);
                lemma_cell_in_bounds(r, c, self.height as int, self.width as int);
            }
        }
    }
}

impl<T> View for Array2D<T> {
    type V = Seq<T>;

    /// The elements, row after row.
    closed spec fn view(&self) -> Seq<T> {
        self.data@
    }
}

impl<T: Default + Clone> Array2D<T> {
    /// Creates an array of `height` rows and `width` columns, every element a
    /// default value of `T`.
    pub fn new(height: usize, width: usize) -> (r: Array2D<T>)
        requires
            height * width <= usize::MAX,
        ensures
            r.wf(),
            r.height_spec() == height,
            r.width_spec() == width,
            r@.len() == height * width,
            forall|i: int| 0 <= i < r@.len() ==> call_ensures(T::default, (), #[trigger] r@[i]),
    {
        let n = height * width;
        let mut data: Vec<T> = Vec::new();
        while data.len() < n
            invariant
                data@.len() <= n,
                forall|i: int| 0 <= i < data@.len() ==> call_ensures(T::default, (), #[trigger] data@[i]),
            decreases n - data@.len(),
        {
            data.push(T::default());
        }
        Array2D { data, height, width }
    }

    /// Resets every element to a default value of `T`, keeping the dimensions.
    pub fn clear(&mut self)
        requires
            old(self).wf(),
        ensures
            final(self).wf(),
            final(self).height_spec() == old(self).height_spec(),
            final(self).width_spec() == old(self).width_spec(),
            final(self)@.len() == old(self)@.len(),
            final(self)@.len() == final(self).height_spec() * final(self).width_spec(),
            forall|i: int|
                0 <= i < final(self)@.len() ==> call_ensures(T::default, (), #[trigger] final(self)@[i]),
    {
        let n = self.data.len();
        let mut i: usize = 0;
        while i < n
            invariant
                n == self.data@.len(),
                n == self.height * self.width,
                self.height == old(self).height,
                self.width == old(self).width,
                i <= n,
                forall|k: int| 0 <= k < i ==> call_ensures(T::default, (), #[trigger] self.data@[k]),
            decreases n - i,
        {
            self.data[i] = T::default();
            i = i + 1;
        }
    }
}

impl<T: Copy> Array2D<T> {
    /// Creates an array of `height` rows and `width` columns, every element `value`.
    pub fn from_elem(height: usize, width: usize, value: T) -> (r: Array2D<T>)
        requires
            height * width <= usize::MAX,
        ensures
            r.wf(),
            r.height_spec() == height,
            r.width_spec() == width,
            r@ == Seq::new((height * width) as nat, |i: int| value),
    {
        let n = height * width;
        let mut data: Vec<T> = Vec::new();
        while data.len() < n
            invariant
                data@.len() <= n,
                data@ == Seq::new(data@.len(), |i: int| value),
            decreases n - data@.len(),
        {
            data.push(value);
            proof {
                assert(data@ =~= Seq::new(data@.len(), |i: int| value));
            }
        }
        Array2D { data, height, width }
    }

    /// Copies `source` into this array with its top-left element at
    /// `start_row`, `start_column`; elements outside that block are unchanged.
    pub fn update_block(&mut self, start_row: usize, start_column: usize, source: &Array2D<T>)
        requires
            old(self).wf(),
            source.wf(),
            start_row + source.height_spec() <= old(self).height_spec(),
            start_column + source.width_spec() <= old(self).width_spec(),
        ensures
            final(self).wf(),
            final(self).height_spec() == old(self).height_spec(),
            final(self).width_spec() == old(self).width_spec(),
            final(self)@.len() == old(self)@.len(),
            forall|r: int, c: int|
                0 <= r < old(self).height_spec() && 0 <= c < old(self).width_spec()
                    ==> #[trigger] final(self).cell(r, c) == if start_row <= r < start_row
                    + source.height_spec() && start_column <= c < start_column
                    + source.width_spec() {
                    source.cell(r - start_row, c - start_column)
                } else {
                    old(self).cell(r, c)
                },
    {
        let sh = source.height;
        let sw = source.width;
        let w = self.width;
        let n = self.data.len();
        let sn = source.data.len();
        let ghost h = self.height as int;
        let ghost sr = start_row as int;
        let ghost sc = start_column as int;
        let mut i: usize = 0;
        while i < sh
            invariant
                self.height == old(self).height,
                h == self.height,
                sr == start_row,
                sc == start_column,
                self.width == w,
                self.data@.len() == old(self).data@.len(),
                self.data@.len() == self.height * self.width,
                n == self.data@.len(),
                sn == source@.len(),
                sh == source.height_spec(),
                sw == source.width_spec(),
                source@.len() == sh * sw,
                start_row + sh <= self.height,
                start_column + sw <= w,
                i <= sh,
                forall|r: int, c: int|
                    0 <= r < h && 0 <= c < w ==> #[trigger] self.cell(r, c) == if sr <= r < sr
                        + i && sc <= c < sc + sw {
                        source.cell(r - sr, c - sc)
                    } else {
                        old(self).cell(r, c)
                    },
            decreases sh - i,
        {
            let mut j: usize = 0;
            while j < sw
                invariant
                    self.height == old(self).height,
                    h == self.height,
                    sr == start_row,
                    sc == start_column,
                    self.width == w,
                    self.data@.len() == old(self).data@.len(),
                    self.data@.len() == self.height * self.width,
                    n == self.data@.len(),
                    sn == source@.len(),
                    sh == source.height_spec(),
                    sw == source.width_spec(),
                    source@.len() == sh * sw,
                    start_row + sh <= self.height,
                    start_column + sw <= w,
                    i < sh,
                    j <= sw,
                    forall|r: int, c: int|
                        0 <= r < h && 0 <= c < w ==> #[trigger] self.cell(r, c) == if (sr <= r
                            < sr + i && sc <= c < sc + sw) || (r == sr + i && sc <= c < sc + j) {
                            source.cell(r - sr, c - sc)
                        } else {
                            old(self).cell(r, c)
                        },
                decreases sw - j,
            {
                let ghost row = sr + i;
                let ghost col = sc + j;
                proof {
                    lemma_cell_in_bounds(row, col, h, w as int);
                    lemma_cell_in_bounds(i as int, j as int, sh as int, sw as int);
                }
                let target = (start_row + i) * w + (start_column + j);
                let value = source.data[i * sw + j];
                let ghost prev = *self;
                proof {
                    assert(value == source.cell(i as int, j as int));
                    assert(target == row * w + col);
                }
                self.data[target] = value;
                proof {
                    assert forall|r: int, c: int| 0 <= r < h && 0 <= c < w implies #[trigger] self.cell(
                        r,
                        c,
                    ) == if (sr <= r < sr + i && sc <= c < sc + sw) || (r == sr + i && sc <= c < sc
                        + j + 1) {
                        source.cell(r - sr, c - sc)
                    } else {
                        old(self).cell(r, c)
                    } by {
                        lemma_cell_index_unique(r, c, row, col, w as int);
                        lemma_cell_in_bounds(r, c, h, w as int);
                        assert(self.cell(r, c) == self.data@[r * w + c]);
                        assert(prev.cell(r, c) == prev.data@[r * w + c]);
                    }
                }
                j = j + 1;
            }
            i = i + 1;
        }
    }
}

impl<T> Index<usize> for Array2D<T> {
    type Output = [T];

    /// Row `index`, as a slice of `width` elements.
    fn index(&self, index: usize) -> (r: &[T])
        ensures
            r@ == self@.subrange(
                index * self.width_spec(),
                index * self.width_spec() + self.width_spec(),
            ),
    {
        // The length of `data` is a `usize`, which bounds the index arithmetic below.
        let _len = self.data.len();
        proof {
            assert(0 <= index * self.width && index * self.width + self.width <= self.height
                * self.width) by (nonlinear_arith)
                requires
                    index < self.height,
            ;
        }
        let start = index * self.width;
        let end = start + self.width;
        &self.data.as_slice()[start..end]
    }
}

impl<T> vstd::std_specs::core::IndexSpecImpl<usize> for Array2D<T> {
    open spec fn index_req(&self, index: &usize) -> bool {
        self.wf() && *index < self.height_spec()
    }
}

impl<T> IndexMut<usize> for Array2D<T> {
    /// Row `index`, as a mutable slice of `width` elements.
    fn index_mut(&mut self, index: usize) -> (r: &mut [T])
        ensures
            old(self).wf() && index < old(self).height_spec() ==> {
                let start = index * old(self).width_spec();
                let end = start + old(self).width_spec();
                &&& r@ == old(self)@.subrange(start, end)
                &&& final(self)@ == old(self)@.subrange(0, start) + final(r)@ + old(self)@.subrange(
                    end,
                    old(self)@.len() as int,
                )
            },
            final(self).height_spec() == old(self).height_spec(),
            final(self).width_spec() == old(self).width_spec(),
    {
        let w = self.width;
        let n = self.data.len();
        proof {
            if self.wf() && w > 0 {
                assert(n == self.height * w);
                vstd::arithmetic::div_mod::lemma_fundamental_div_mod_converse(
                    n as int,
                    w as int,
                    self.height as int,
                    0,
                );
            }
            if self.wf() && w == 0 {
                assert(n == 0) by (nonlinear_arith)
                    requires
                        n == self.height * w,
                        w == 0,
                ;
                assert(index * w == 0) by (nonlinear_arith)
                    requires
                        w == 0,
                ;
            }
        }
        let start = if w > 0 && index < n / w {
            proof {
                vstd::arithmetic::div_mod::lemma_fundamental_div_mod(n as int, w as int);
                assert(index * w + w <= n) by (nonlinear_arith)
                    requires
                        index < n / w,
                        n == w * (n / w) + n % w,
                        n % w >= 0,
                        w > 0,
                ;
            }
            index * w
        } else {
            n
        };
        let len = if n - start >= w {
            w
        } else {
            0
        };
        let (_, rest) = self.data.as_mut_slice().split_at_mut(start);
        let (row, _) = rest.split_at_mut(len);
        row
    }
}

/// A cell inside a `height` x `width` grid has a row-major index inside the grid.
proof fn lemma_cell_in_bounds(row: int, column: int, height: int, width: int)
    requires
        0 <= row < height,
        0 <= column < width,
    ensures
        0 <= row * width,
        row * width + column < height * width,
        row * width <= height * width,
{
    assert(0 <= row * width) by (nonlinear_arith)
        requires
            0 <= row,
            0 <= width,
    ;
    assert(row * width + width <= height * width) by (nonlinear_arith)
        requires
            row + 1 <= height,
            0 <= width,
    ;
}

/// Two cells have the same row-major index only if they are the same cell.
proof fn lemma_cell_index_unique(r1: int, c1: int, r2: int, c2: int, width: int)
    requires
        0 <= c1 < width,
        0 <= c2 < width,
    ensures
        (r1 * width + c1 == r2 * width + c2) <==> (r1 == r2 && c1 == c2),
{
    if r1 * width + c1 == r2 * width + c2 {
        vstd::arithmetic::div_mod::lemma_fundamental_div_mod_converse(
            r1 * width + c1,
            width,
            r1,
            c1,
        );
        vstd::arithmetic::div_mod::lemma_fundamental_div_mod_converse(
            r2 * width + c2,
            width,
            r2,
            c2,
        );
    }
}

} // verus!
