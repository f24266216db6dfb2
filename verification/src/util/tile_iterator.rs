use vstd::prelude::*;

use vstd::arithmetic::div_mod::{lemma_fundamental_div_mod, lemma_fundamental_div_mod_converse};

verus! {

/// A rectangular block of pixels: columns `start_column..end_column` of rows
/// `start_row..end_row`.
#[derive(Copy, Clone, Debug)]
pub struct Tile {
    pub start_column: usize,
    pub end_column: usize,
    pub start_row: usize,
    pub end_row: usize,
}

impl Tile {
    /// The pixel at `row`, `column` lies in the tile.
    pub open spec fn contains_spec(self, row: int, column: int) -> bool {
        &&& self.start_row <= row < self.end_row
        &&& self.start_column <= column < self.end_column
    }

    /// Number of columns in the tile.
    pub fn width(&self) -> (r: usize)
        requires
            self.start_column <= self.end_column,
        ensures
            r == self.end_column - self.start_column,
    {
        self.end_column - self.start_column
    }

    /// Number of rows in the tile.
    pub fn height(&self) -> (r: usize)
        requires
            self.start_row <= self.end_row,
        ensures
            r == self.end_row - self.start_row,
    {
        self.end_row - self.start_row
    }
}

/// Number of tile columns across an image `width` pixels wide: at least one,
/// so that an image of no width still yields one (empty) tile per tile row.
pub open spec fn tile_columns(width: int, tile_size: int) -> int {
    if width <= 0 {
        1
    } else {
        (width - 1) / tile_size + 1
    }
}

/// Number of tile rows down an image `height` pixels high.
pub open spec fn tile_rows(height: int, tile_size: int) -> int {
    if height <= 0 {
        0
    } else {
        (height - 1) / tile_size + 1
    }
}

/// The smaller of two integers.
pub open spec fn min_int(a: int, b: int) -> int {
    if a <= b {
        a
    } else {
        b
    }
}

/// The tile in tile row `i` and tile column `j` of a `width` x `height`
/// image cut into squares of side `tile_size`; tiles on the right and
/// bottom edges are clipped to the image.
pub open spec fn grid_tile(width: int, height: int, tile_size: int, i: int, j: int) -> Tile {
    Tile {
        start_column: (j * tile_size) as usize,
        end_column: min_int(width, j * tile_size + tile_size) as usize,
        start_row: (i * tile_size) as usize,
        end_row: min_int(height, i * tile_size + tile_size) as usize,
    }
}

/// The `k`-th tile in row-major order: tile rows from the top, and within a
/// tile row, tiles from the left.
pub open spec fn tile_at(width: int, height: int, tile_size: int, k: int) -> Tile {
    let columns = tile_columns(width, tile_size);
    grid_tile(width, height, tile_size, k / columns, k % columns)
}

/// All tiles of a `width` x `height` image, in the order the iterator yields them.
pub open spec fn tiles_spec(width: int, height: int, tile_size: int) -> Seq<Tile> {
    Seq::new(
        (tile_rows(height, tile_size) * tile_columns(width, tile_size)) as nat,
        |k: int| tile_at(width, height, tile_size, k),
    )
}

/// `x` lies in the block of `tile_size` values that starts at `q * tile_size`.
proof fn lemma_block_of(x: int, tile_size: int, q: int)
    requires
        tile_size > 0,
        q * tile_size <= x < q * tile_size + tile_size,
    ensures
        x / tile_size == q,
{
    lemma_fundamental_div_mod_converse(x, tile_size, q, x - q * tile_size);
}

/// A multiple of `tile_size` is `tile_size` times its quotient.
proof fn lemma_multiple(x: int, tile_size: int)
    requires
        tile_size > 0,
        x % tile_size == 0,
    ensures
        (x / tile_size) * tile_size == x,
        (x + tile_size) / tile_size == x / tile_size + 1,
        (x + tile_size) % tile_size == 0,
{
    lemma_fundamental_div_mod(x, tile_size);
    assert((x / tile_size) * tile_size == tile_size * (x / tile_size)) by (nonlinear_arith);
    assert((x / tile_size + 1) * tile_size == (x / tile_size) * tile_size + tile_size)
        by (nonlinear_arith);
    lemma_fundamental_div_mod_converse(x + tile_size, tile_size, x / tile_size + 1, 0);
}

/// The index `q * columns + j` splits back into `q` and `j`.
proof fn lemma_grid_index(q: int, j: int, columns: int)
    requires
        columns > 0,
        0 <= j < columns,
    ensures
        (q * columns + j) / columns == q,
        (q * columns + j) % columns == j,
{
    lemma_fundamental_div_mod_converse(q * columns + j, columns, q, j);
}

/// The block that starts at multiple `x` of `tile_size` below `limit` is the
/// last one before `limit` exactly when it reaches `limit`.
proof fn lemma_last_block(x: int, limit: int, tile_size: int)
    requires
        tile_size > 0,
        0 <= x < limit,
        x % tile_size == 0,
    ensures
        x / tile_size <= (limit - 1) / tile_size,
        (x + tile_size >= limit) <==> (x / tile_size == (limit - 1) / tile_size),
{
    lemma_multiple(x, tile_size);
    let q = x / tile_size;
    lemma_fundamental_div_mod(limit - 1, tile_size);
    let p = (limit - 1) / tile_size;
    assert(tile_size * p == p * tile_size) by (nonlinear_arith);
    assert(q <= p) by {
        if q > p {
            assert(q * tile_size >= (p + 1) * tile_size) by (nonlinear_arith)
                requires
                    q >= p + 1,
                    tile_size > 0,
            ;
            assert((p + 1) * tile_size == p * tile_size + tile_size) by (nonlinear_arith);
        }
    }
    if x + tile_size >= limit {
        lemma_block_of(limit - 1, tile_size, q);
    }
    if q == p {
        assert(x + tile_size >= limit);
    }
}


/// `x` lies in the block of `tile_size` values starting at `q * tile_size`
/// exactly when `q` is the quotient of `x` by `tile_size`.
proof fn lemma_block_iff(x: int, tile_size: int, q: int)
    requires
        tile_size > 0,
        x >= 0,
    ensures
        (q * tile_size <= x < q * tile_size + tile_size) <==> x / tile_size == q,
{
    if q * tile_size <= x < q * tile_size + tile_size {
        lemma_block_of(x, tile_size, q);
    }
    if x / tile_size == q {
        lemma_fundamental_div_mod(x, tile_size);
        assert(tile_size * q == q * tile_size) by (nonlinear_arith);
    }
}

/// The grid position of the `k`-th tile lies inside the grid, and the tile's
/// edges lie inside the image.
proof fn lemma_tile_position(width: int, height: int, tile_size: int, k: int)
    requires
        tile_size > 0,
        width >= 0,
        height >= 0,
        0 <= k < tile_rows(height, tile_size) * tile_columns(width, tile_size),
    ensures
        0 <= k / tile_columns(width, tile_size) < tile_rows(height, tile_size),
        0 <= k % tile_columns(width, tile_size) < tile_columns(width, tile_size),
        (k / tile_columns(width, tile_size)) * tile_size < height,
        width == 0 ==> k % tile_columns(width, tile_size) == 0,
        width > 0 ==> (k % tile_columns(width, tile_size)) * tile_size < width,
        (k / tile_columns(width, tile_size)) * tile_size >= 0,
        (k % tile_columns(width, tile_size)) * tile_size >= 0,
{
    let columns = tile_columns(width, tile_size);
    let rows = tile_rows(height, tile_size);
    let i = k / columns;
    let j = k % columns;
    lemma_fundamental_div_mod(k, columns);
    assert(columns * i == i * columns) by (nonlinear_arith);
    assert(i < rows) by {
        if i >= rows {
            assert(i * columns >= rows * columns) by (nonlinear_arith)
                requires
                    i >= rows,
                    columns > 0,
            ;
        }
    }
    assert(i >= 0) by {
        if i < 0 {
            assert(i * columns <= -columns) by (nonlinear_arith)
                requires
                    i <= -1,
                    columns > 0,
            ;
        }
    }
    assert(i * tile_size >= 0 && j * tile_size >= 0) by (nonlinear_arith)
        requires
            i >= 0,
            j >= 0,
            tile_size > 0,
    ;
    lemma_fundamental_div_mod(height - 1, tile_size);
    assert(i * tile_size <= ((height - 1) / tile_size) * tile_size) by (nonlinear_arith)
        requires
            i <= (height - 1) / tile_size,
            tile_size > 0,
    ;
    assert(tile_size * ((height - 1) / tile_size) == ((height - 1) / tile_size) * tile_size)
        by (nonlinear_arith);
    if width > 0 {
        lemma_fundamental_div_mod(width - 1, tile_size);
        assert(j * tile_size <= ((width - 1) / tile_size) * tile_size) by (nonlinear_arith)
            requires
                j <= (width - 1) / tile_size,
                tile_size > 0,
        ;
        assert(tile_size * ((width - 1) / tile_size) == ((width - 1) / tile_size) * tile_size)
            by (nonlinear_arith);
    }
}

/// Every tile is at most `tile_size` by `tile_size` pixels, lies inside the
/// image, and holds at least one pixel unless the image has no width.
pub proof fn lemma_tiles_are_bounded(width: usize, height: usize, tile_size: usize, k: int)
    requires
        tile_size > 0,
        0 <= k < tiles_spec(width as int, height as int, tile_size as int).len(),
    ensures
        ({
            let t = tiles_spec(width as int, height as int, tile_size as int)[k];
            &&& t.start_column <= t.end_column <= width
            &&& t.start_row < t.end_row <= height
            &&& t.end_column - t.start_column <= tile_size
            &&& t.end_row - t.start_row <= tile_size
            &&& width > 0 ==> t.start_column < t.end_column
        }),
{
    let w = width as int;
    let h = height as int;
    let ts = tile_size as int;
    lemma_tile_position(w, h, ts, k);
    let columns = tile_columns(w, ts);
    let i = k / columns;
    let j = k % columns;
    let t = tiles_spec(w, h, ts)[k];
    assert(t == grid_tile(w, h, ts, i, j));
    if w == 0 {
        assert(j * ts == 0) by (nonlinear_arith)
            requires
                j == 0,
        ;
    }
    assert(0 <= j * ts <= usize::MAX);
    assert(0 <= i * ts <= usize::MAX);
    assert(t.start_column == j * ts);
    assert(t.end_column == min_int(w, j * ts + ts));
    assert(t.start_row == i * ts);
    assert(t.end_row == min_int(h, i * ts + ts));
}

/// The tiles partition the image: a pixel inside the image lies in the `k`-th
/// tile exactly when `k` is the index of the tile covering its block, an index
/// that exists; and no tile holds a pixel outside the image.
pub proof fn lemma_tiles_cover_each_pixel_once(
    width: usize,
    height: usize,
    tile_size: usize,
    row: int,
    column: int,
    k: int,
)
    requires
        tile_size > 0,
        0 <= k < tiles_spec(width as int, height as int, tile_size as int).len(),
    ensures
        ({
            let tiles = tiles_spec(width as int, height as int, tile_size as int);
            let owner = (row / tile_size as int) * tile_columns(width as int, tile_size as int) + column
                / tile_size as int;
            &&& tiles[k].contains_spec(row, column) ==> 0 <= row < height && 0 <= column < width
            &&& (0 <= row < height && 0 <= column < width) ==> {
                &&& 0 <= owner < tiles.len()
                &&& tiles[k].contains_spec(row, column) <==> k == owner
            }
        }),
{
    let w = width as int;
    let h = height as int;
    let ts = tile_size as int;
    let columns = tile_columns(w, ts);
    let rows = tile_rows(h, ts);
    lemma_tile_position(w, h, ts, k);
    let i = k / columns;
    let j = k % columns;
    if 0 <= row < h && 0 <= column < w {
        let qi = row / ts;
        let qj = column / ts;
        lemma_last_block_of_value(row, h, ts);
        lemma_last_block_of_value(column, w, ts);
        assert(0 <= qi * columns + qj < rows * columns) by (nonlinear_arith)
            requires
                0 <= qi < rows,
                0 <= qj < columns,
        ;
        lemma_block_iff(row, ts, i);
        lemma_block_iff(column, ts, j);
        lemma_grid_index(i, j, columns);
        lemma_grid_index(qi, qj, columns);
        lemma_fundamental_div_mod(k, columns);
        assert(columns * i == i * columns) by (nonlinear_arith);
    }
}

/// The block of any value below `limit` is a block that the grid has.
proof fn lemma_last_block_of_value(x: int, limit: int, tile_size: int)
    requires
        tile_size > 0,
        0 <= x < limit,
    ensures
        0 <= x / tile_size <= (limit - 1) / tile_size,
{
    vstd::arithmetic::div_mod::lemma_div_is_ordered(x, limit - 1, tile_size);
    vstd::arithmetic::div_mod::lemma_div_pos_is_pos(x, tile_size);
}

/// Iterates over the tiles that cover a `total_width` x `total_height` image:
/// squares of side `tile_size`, clipped at the right and bottom edges, tile
/// rows from the top and tiles within a row from the left.
pub struct TileIterator {
    tile_size: usize,
    total_height: usize,
    total_width: usize,
    current_column: usize,
    current_row: usize,
}

impl TileIterator {
    #[verifier::type_invariant]
    spec fn wf(self) -> bool {
        &&& self.tile_size > 0
        &&& self.tile_size * 2 < usize::MAX
        &&& self.current_column % self.tile_size == 0
        &&& (self.current_column < self.total_width || self.current_column == 0)
        &&& (self.current_row == self.total_height || (self.current_row < self.total_height
            && self.current_row % self.tile_size == 0))
    }

    /// Index, in `tiles_spec`, of the next tile to be yielded.
    closed spec fn position(self) -> int {
        if self.current_row >= self.total_height {
            tile_rows(self.total_height as int, self.tile_size as int) * tile_columns(
                self.total_width as int,
                self.tile_size as int,
            )
        } else {
            (self.current_row / self.tile_size) * tile_columns(
                self.total_width as int,
                self.tile_size as int,
            ) + self.current_column / self.tile_size
        }
    }

    /// All the tiles of the image, those already yielded included.
    pub closed spec fn all_tiles(self) -> Seq<Tile> {
        tiles_spec(self.total_width as int, self.total_height as int, self.tile_size as int)
    }

    /// Creates an iterator over the tiles of a `total_width` x `total_height`
    /// image, cut into squares of side `tile_size`.
    pub fn new(total_width: usize, total_height: usize, tile_size: usize) -> (r: TileIterator)
        requires
            tile_size > 0,
            tile_size * 2 < usize::MAX,
        ensures
            r@ == tiles_spec(total_width as int, total_height as int, tile_size as int),
            r.all_tiles() == r@,
    {
        proof {
            lemma_fundamental_div_mod_converse(0, tile_size as int, 0, 0);
        }
        let r = TileIterator {
            tile_size,
            total_width,
            total_height,
            current_column: 0,
            current_row: 0,
        };
        proof {
            let columns = tile_columns(total_width as int, tile_size as int);
            assert(0 * columns == 0) by (nonlinear_arith);
            assert(r.position() == 0);
            assert(r@ =~= r.all_tiles());
        }
        r
    }

    /// Yields the next tile, or `None` once every tile has been yielded.
    pub fn next(&mut self) -> (r: Option<Tile>)
        ensures
            final(self).all_tiles() == old(self).all_tiles(),
            match r {
                None => old(self)@.len() == 0 && final(self)@ == old(self)@,
                Some(tile) => {
                    &&& old(self)@.len() > 0
                    &&& tile == old(self)@[0]
                    &&& final(self)@ == old(self)@.drop_first()
                },
            },
    {
        proof {
            use_type_invariant(&*self);
        }
        let ts = self.tile_size;
        let w = self.total_width;
        let h = self.total_height;
        let cc = self.current_column;
        let cr = self.current_row;
        let ghost columns = tile_columns(w as int, ts as int);
        let ghost rows = tile_rows(h as int, ts as int);
        let ghost n = rows * columns;
        let ghost all = tiles_spec(w as int, h as int, ts as int);
        if cr >= h {
            proof {
                assert(self@.len() == 0);
            }
            return None;
        }
        let end_column = if w - cc <= ts {
            w
        } else {
            cc + ts
        };
        let end_row = if h - cr <= ts {
            h
        } else {
            cr + ts
        };
        let tile = Tile { start_column: cc, end_column, start_row: cr, end_row };
        let ghost qr: int = (cr / ts) as int;
        let ghost qc: int = (cc / ts) as int;
        proof {
            lemma_multiple(cc as int, ts as int);
            lemma_multiple(cr as int, ts as int);
            lemma_fundamental_div_mod_converse(0, ts as int, 0, 0);
            lemma_last_block(cr as int, h as int, ts as int);
            if w > 0 {
                lemma_last_block(cc as int, w as int, ts as int);
            }
            assert(0 <= qc < columns);
            assert(0 <= qr < rows);
            lemma_grid_index(qr, qc, columns);
            assert(qr * columns + qc < n) by (nonlinear_arith)
                requires
                    0 <= qr < rows,
                    0 <= qc < columns,
                    n == rows * columns,
            ;
            assert(self.position() == qr * columns + qc);
            assert(tile == all[qr * columns + qc]);
        }
        if w - cc <= ts {
            let next_row = if h - cr <= ts {
                h
            } else {
                cr + ts
            };
            *self = TileIterator {
                tile_size: ts,
                total_height: h,
                total_width: w,
                current_column: 0,
                current_row: next_row,
            };
            proof {
                assert(qc == columns - 1);
                assert((qr + 1) * columns == qr * columns + qc + 1) by (nonlinear_arith)
                    requires
                        qc == columns - 1,
                ;
                if next_row < h {
                    assert(self.position() == (qr + 1) * columns);
                } else {
                    assert(qr == rows - 1);
                }
            }
        } else {
            *self = TileIterator {
                tile_size: ts,
                total_height: h,
                total_width: w,
                current_column: cc + ts,
                current_row: cr,
            };
            proof {
                assert(self.position() == qr * columns + qc + 1);
            }
        }
        proof {
            assert(self@ =~= old(self)@.drop_first());
        }
        Some(tile)
    }

    /// Number of tiles not yet yielded; consumes the iterator.
    pub fn count(self) -> (r: usize)
        requires
            self@.len() <= usize::MAX,
        ensures
            r == self@.len(),
    {
        let mut iter = self;
        let mut n: usize = 0;
        loop
            invariant
                n + iter@.len() == self@.len(),
                self@.len() <= usize::MAX,
            ensures
                n == self@.len(),
            decreases iter@.len(),
        {
            match iter.next() {
                None => break,
                Some(_) => {
                    n = n + 1;
                },
            }
        }
        n
    }
}

impl Clone for TileIterator {
    fn clone(&self) -> (r: Self)
        ensures
            r@ == self@,
            r.all_tiles() == self.all_tiles(),
    {
        proof {
            use_type_invariant(self);
        }
        TileIterator {
            tile_size: self.tile_size,
            total_height: self.total_height,
            total_width: self.total_width,
            current_column: self.current_column,
            current_row: self.current_row,
        }
    }
}

impl View for TileIterator {
    type V = Seq<Tile>;

    /// The tiles still to be yielded, in order.
    closed spec fn view(&self) -> Seq<Tile> {
        self.all_tiles().subrange(self.position(), self.all_tiles().len() as int)
    }
}

} // verus!
