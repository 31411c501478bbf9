use vstd::prelude::*;

use crate::error::DemError;

verus! {

/// A grid of `height` rows of `width` cells, stored row by row.
pub struct FlatGrid<T> {
    pub height: usize,
    pub width: usize,
    pub values: Vec<T>,
}

/// True when `values` holds the cells of `rows` row by row: the cell in row
/// `r` and column `c` at position `r * width + c`.
pub open spec fn is_row_major_of<T>(values: Seq<T>, rows: Seq<Vec<T>>, width: nat) -> bool {
    &&& values.len() == rows.len() * width
    &&& forall|r: int, c: int|
        0 <= r < rows.len() && 0 <= c < width ==> #[trigger] values[r * width + c]
            == rows[r]@[c]
}

/// The cell in row `r` and column `c` of a grid of `h` rows of `w` cells sits
/// before the end of the grid.
proof fn lemma_cell_offset_bound(r: int, c: int, w: int, h: int)
    by (nonlinear_arith)
    requires
        0 <= r < h,
        0 <= c < w,
    ensures
        0 <= r * w <= r * w + c < h * w,
        r * w + c < (r + 1) * w,
{
}

/// Laying out a rectangular grid row by row is concatenating its rows in
/// order: the row-major sequence is the flattening of the rows.
pub proof fn lemma_row_major_is_concatenation<T>(values: Seq<T>, rows: Seq<Vec<T>>, width: nat)
    requires
        all_rows_have_width(rows, width),
        is_row_major_of(values, rows, width),
    ensures
        values == rows.map_values(|r: Vec<T>| r@).flatten(),
    decreases rows.len(),
{
    let views = rows.map_values(|r: Vec<T>| r@);
    if rows.len() == 0 {
        assert(values =~= Seq::<T>::empty());
    } else {
        let rest = rows.drop_first();
        let tail = values.subrange(width as int, values.len() as int);
        assert(values.len() == width + rest.len() * width) by (nonlinear_arith)
            requires
                values.len() == rows.len() * width,
                rest.len() == rows.len() - 1,
        ;
        assert forall|r: int, c: int| 0 <= r < rest.len() && 0 <= c < width implies #[trigger] tail[r
            * width + c] == rest[r]@[c] by {
            lemma_cell_offset_bound(r, c, width as int, rest.len() as int);
            assert((r + 1) * width + c == r * width + c + width) by (nonlinear_arith);
            assert(values[(r + 1) * width + c] == rows[r + 1]@[c]);
        }
        assert forall|r: int| 0 <= r < rest.len() implies #[trigger] rest[r]@.len() == width by {
            assert(rows[r + 1]@.len() == width);
        }
        lemma_row_major_is_concatenation(tail, rest, width);
        assert(rest.map_values(|r: Vec<T>| r@) =~= views.drop_first());
        assert forall|c: int| 0 <= c < width implies values[c] == rows[0]@[c] by {
            assert(values[0 * width + c] == rows[0]@[c]);
        }
        assert(values =~= views.first() + views.drop_first().flatten());
    }
}

/// True when every row of `rows` has `width` cells.
pub open spec fn all_rows_have_width<T>(rows: Seq<Vec<T>>, width: nat) -> bool {
    forall|r: int| 0 <= r < rows.len() ==> #[trigger] rows[r]@.len() == width
}

/// Checks that `rows` forms a rectangular grid of at least one cell and lays
/// its cells out row by row.
///
/// An empty list of rows, or an empty first row, is `Empty`; otherwise a row
/// whose length differs from the first row's is `NonRectangular`.
pub fn flatten_rows<T: Copy>(rows: Vec<Vec<T>>) -> (r: Result<FlatGrid<T>, DemError>)
    ensures
        rows@.len() == 0 || rows@[0]@.len() == 0 ==> r matches Err(DemError::Empty),
        rows@.len() > 0 && rows@[0]@.len() > 0 && !all_rows_have_width(rows@, rows@[0]@.len())
            ==> r matches Err(DemError::NonRectangular),
        rows@.len() > 0 && rows@[0]@.len() > 0 && all_rows_have_width(rows@, rows@[0]@.len())
            ==> (r matches Ok(g) && g.height == rows@.len() && g.width == rows@[0]@.len()
            && is_row_major_of(g.values@, rows@, g.width as nat)),
{
    let height = rows.len();
    if height == 0 {
        return Err(DemError::Empty);
    }
    let width = rows[0].len();
    if width == 0 {
        return Err(DemError::Empty);
    }
    let mut i: usize = 0;
    while i < height
        invariant
            height == rows@.len(),
            width == rows@[0]@.len(),
            i <= height,
            width > 0,
            all_rows_have_width(rows@.take(i as int), width as nat),
        decreases height - i,
    {
        if rows[i].len() != width {
            proof {
                assert(!all_rows_have_width(rows@, width as nat)) by {
                    assert(rows@[i as int]@.len() != width);
                }
            }
            return Err(DemError::NonRectangular);
        }
        proof {
            assert forall|r: int| 0 <= r < i + 1 implies #[trigger] rows@.take(i + 1)[r]@.len()
                == width by {
                if r < i {
                    assert(rows@.take(i as int)[r] == rows@[r]);
                }
            }
        }
        i = i + 1;
    }
    proof {
        assert(rows@.take(height as int) =~= rows@);
    }
    let mut values: Vec<T> = Vec::new();
    proof {
        assert(rows@.take(0).len() == 0);
    }
    let mut r: usize = 0;
    while r < height
        invariant
            height == rows@.len(),
            width == rows@[0]@.len(),
            all_rows_have_width(rows@, width as nat),
            r <= height,
            is_row_major_of(values@, rows@.take(r as int), width as nat),
        decreases height - r,
    {
        let row = &rows[r];
        let mut c: usize = 0;
        while c < width
            invariant
                height == rows@.len(),
                width == rows@[0]@.len(),
                all_rows_have_width(rows@, width as nat),
                r < height,
                *row == rows@[r as int],
                c <= width,
                values@.len() == r * width + c,
                forall|q: int, j: int|
                    0 <= q < r && 0 <= j < width ==> #[trigger] values@[q * width + j]
                        == rows@[q]@[j],
                forall|j: int| 0 <= j < c ==> #[trigger] values@[r * width + j] == rows@[r as int]@[j],
            decreases width - c,
        {
            let ghost before = values@;
            values.push(row[c]);
            proof {
                assert forall|q: int, j: int|
                    0 <= q < r && 0 <= j < width implies #[trigger] values@[q * width + j]
                    == rows@[q]@[j] by {
                    lemma_cell_offset_bound(q, j, width as int, r as int);
                    assert(values@[q * width + j] == before[q * width + j]);
                }
            }
            c = c + 1;
        }
        proof {
            assert forall|q: int, j: int|
                0 <= q < r + 1 && 0 <= j < width implies #[trigger] values@[q * width + j]
                == rows@.take(r + 1)[q]@[j] by {
                lemma_cell_offset_bound(q, j, width as int, r + 1);
                assert(rows@.take(r + 1)[q] == rows@[q]);
            }
            assert(values@.len() == (r + 1) * width) by (nonlinear_arith)
                requires values@.len() == r * width + width;
        }
        r = r + 1;
    }
    proof {
        assert(rows@.take(height as int) =~= rows@);
    }
    Ok(FlatGrid { height, width, values })
}

/// The cell at row-major position `k` of a grid `w` cells wide, as
/// `(row, column)`.
pub open spec fn cell_at(k: int, w: int) -> (int, int) {
    (k / w, k % w)
}

/// Position `r * w + c` and cell `(r, c)` name each other: in a grid of `h`
/// rows of `w` cells, the row-major positions `0 .. w * h` are exactly the
/// cells of the grid, each one once.
pub proof fn lemma_row_major_bijection(w: int, h: int)
    requires
        w > 0,
        h >= 0,
    ensures
        forall|k: int|
            0 <= k < w * h ==> {
                let (r, c) = #[trigger] cell_at(k, w);
                &&& 0 <= r < h
                &&& 0 <= c < w
                &&& r * w + c == k
            },
        forall|r: int, c: int|
            0 <= r < h && 0 <= c < w ==> #[trigger] cell_at(r * w + c, w) == (r, c),
{
    assert forall|k: int| 0 <= k < w * h implies {
        let (r, c) = #[trigger] cell_at(k, w);
        &&& 0 <= r < h
        &&& 0 <= c < w
        &&& r * w + c == k
    } by {
        let q = k / w;
        let c = k % w;
        vstd::arithmetic::div_mod::lemma_fundamental_div_mod(k, w);
        vstd::arithmetic::div_mod::lemma_mod_pos_bound(k, w);
        assert(0 <= q < h && q * w + c == k) by (nonlinear_arith)
            requires
                w > 0,
                k == w * q + c,
                0 <= c < w,
                0 <= k < w * h,
        ;
    }
    assert forall|r: int, c: int| 0 <= r < h && 0 <= c < w implies #[trigger] cell_at(
        r * w + c,
        w,
    ) == (r, c) by {
        vstd::arithmetic::div_mod::lemma_fundamental_div_mod_converse(r * w + c, w, r, c);
    }
}

/// A position in the row-major walk over the cells of a grid of `height`
/// rows of `width` cells.
pub struct GridCursor {
    width: usize,
    height: usize,
    row: usize,
    col: usize,
}

impl GridCursor {
    #[verifier::type_invariant]
    spec fn inv(self) -> bool {
        &&& self.width > 0
        &&& self.width * self.height <= usize::MAX
        &&& self.col < self.width
        &&& self.row <= self.height
        &&& (self.row == self.height ==> self.col == 0)
    }

    /// Cells per row.
    pub closed spec fn width_of(self) -> nat {
        self.width as nat
    }

    /// Number of rows.
    pub closed spec fn height_of(self) -> nat {
        self.height as nat
    }

    /// How many cells the walk has handed out so far.
    pub closed spec fn position(self) -> nat {
        (self.row * self.width + self.col) as nat
    }

    /// A walk that has not handed out any cell yet.
    pub fn new(width: usize, height: usize) -> (c: Self)
        requires
            width > 0,
            width * height <= usize::MAX,
        ensures
            c.width_of() == width,
            c.height_of() == height,
            c.position() == 0,
    {
        GridCursor { width, height, row: 0, col: 0 }
    }

    /// Hands out the next cell, row by row and left to right within a row,
    /// as `(row, column)`; `None` once every cell has been handed out.
    pub fn next_cell(&mut self) -> (r: Option<(usize, usize)>)
        ensures
            final(self).width_of() == old(self).width_of(),
            final(self).height_of() == old(self).height_of(),
            final(self).position() <= final(self).width_of() * final(self).height_of(),
            old(self).position() < old(self).width_of() * old(self).height_of() ==> {
                &&& r matches Some((row, col))
                &&& (row as int, col as int) == cell_at(
                    old(self).position() as int,
                    old(self).width_of() as int,
                )
                &&& final(self).position() == old(self).position() + 1
            },
            old(self).position() >= old(self).width_of() * old(self).height_of() ==> {
                &&& r is None
                &&& final(self).position() == old(self).position()
            },
    {
        proof {
            use_type_invariant(&*self);
        }
        let ghost w = self.width as int;
        let ghost h = self.height as int;
        let ghost k = self.row * self.width + self.col;
        if self.row >= self.height {
            proof {
                assert(k == h * w) by (nonlinear_arith)
                    requires
                        k == self.row * w + self.col,
                        self.row == h,
                        self.col == 0,
                ;
            }
            return None;
        }
        let row = self.row;
        let col = self.col;
        proof {
            lemma_cell_offset_bound(row as int, col as int, w, h);
            vstd::arithmetic::mul::lemma_mul_is_commutative(w, h);
            vstd::arithmetic::div_mod::lemma_fundamental_div_mod_converse(k, w, row as int, col as int);
        }
        if col + 1 >= self.width {
            self.col = 0;
            self.row = row + 1;
            proof {
                assert((row + 1) * w == row * w + w) by (nonlinear_arith);
            }
        } else {
            self.col = col + 1;
        }
        Some((row, col))
    }
}

/// The far corner of the bilinear interpolation cell whose near corner is
/// `(x0, y0)`: one step further along each axis, held at the last column and
/// the last row.
pub fn far_corner(x0: usize, y0: usize, width: usize, height: usize) -> (r: (usize, usize))
    requires
        x0 < width,
        y0 < height,
    ensures
        r.0 == if x0 + 1 < width { x0 + 1 } else { width - 1 },
        r.1 == if y0 + 1 < height { y0 + 1 } else { height - 1 },
{
    let x1 = if x0 + 1 < width { x0 + 1 } else { width - 1 };
    let y1 = if y0 + 1 < height { y0 + 1 } else { height - 1 };
    (x1, y1)
}

} // verus!
