//! The two-dimensional cosine transform of a grid of intensities.
//!
//! The transform is computed in whole numbers. Cosines and scale factors
//! are not computed here: they come in a table, each as a multiple of
//! `1 / UNIT`, and the coefficients that come out are multiples of
//! `1 / UNIT` too. What is stated of a coefficient is stated of the table
//! that was handed in, whatever it holds.

use vstd::prelude::*;
use crate::phash::is_grid;

verus! {

/// The number of parts that one is divided into, for cosines, scale factors
/// and coefficients alike.
pub const UNIT: i64 = 1048576;

/// The most that one intensity can add to a sum: 255 times `UNIT` squared.
pub const TERM_MAX: i64 = 280375465082880;

/// `UNIT` to the third power.
pub const UNIT_CUBED: i128 = 1152921504606846976;

/// Whether `table` is `n` by `n` and holds nothing outside `-UNIT ..= UNIT`.
pub open spec fn is_cosine_table(table: Seq<Seq<i64>>, n: int) -> bool {
    &&& is_grid(table, n, n)
    &&& forall|i: int, k: int|
        0 <= i < n && 0 <= k < n ==> -UNIT <= (#[trigger] table[i][k]) <= UNIT
}

/// Whether both scale factors lie in `0 ..= UNIT`.
pub open spec fn is_scale_pair(scales: [i64; 2]) -> bool {
    0 <= scales[0] <= UNIT && 0 <= scales[1] <= UNIT
}

/// Tells whether a table is `n` by `n` and within range.
fn check_cosine_table(table: &Vec<Vec<i64>>, n: usize) -> (ok: bool)
    ensures
        ok == is_cosine_table(table.deep_view(), n as int),
{
    let ghost model = table.deep_view();
    if table.len() != n {
        return false;
    }
    let mut i: usize = 0;
    while i < n
        invariant
            0 <= i <= n,
            model == table.deep_view(),
            model.len() == n,
            forall|a: int| 0 <= a < i ==> (#[trigger] model[a]).len() == n,
            forall|a: int, k: int|
                0 <= a < i && 0 <= k < n ==> -UNIT <= (#[trigger] model[a][k]) <= UNIT,
        decreases n - i,
    {
        assert(model[i as int] =~= table@[i as int]@);
        if table[i].len() != n {
            return false;
        }
        let mut k: usize = 0;
        while k < n
            invariant
                0 <= i < n,
                0 <= k <= n,
                model == table.deep_view(),
                model.len() == n,
                model[i as int] == table@[i as int]@,
                model[i as int].len() == n,
                forall|b: int| 0 <= b < k ==> -UNIT <= (#[trigger] model[i as int][b]) <= UNIT,
            decreases n - k,
        {
            let value: i64 = table[i][k];
            if value < -UNIT || value > UNIT {
                return false;
            }
            k += 1;
        }
        i += 1;
    }
    true
}

/// `a / d` rounded towards zero, for positive `d`.
pub open spec fn toward_zero(a: int, d: int) -> int {
    if a >= 0 {
        a / d
    } else {
        -((-a) / d)
    }
}

/// The table that a transform of `x_max` by `y_max` intensities works with.
///
/// `x_cosines[i][x]` stands for `cos((2i + 1) x pi / (2 x_max))` and
/// `y_cosines[j][y]` for `cos((2j + 1) y pi / (2 y_max))`. The first scale
/// factor of a pair is for the coefficient of index zero and stands for
/// `sqrt(1 / n)`; the second is for every other index and stands for
/// `sqrt(2 / n)`.
#[derive(Debug)]
pub struct DctPoint {
    pub x_max: usize,
    pub y_max: usize,
    pub x_scales: [i64; 2],
    pub y_scales: [i64; 2],
    pub x_cosines: Vec<Vec<i64>>,
    pub y_cosines: Vec<Vec<i64>>,
}

impl DctPoint {
    /// Whether the table is of the shape and range that its sizes call for.
    /// The grid may have `u32::MAX` cells at most, which keeps every sum
    /// within 128 bits and every coefficient within 64.
    pub open spec fn wf(&self) -> bool {
        &&& self.x_max * self.y_max <= u32::MAX
        &&& is_cosine_table(self.x_cosines.deep_view(), self.x_max as int)
        &&& is_cosine_table(self.y_cosines.deep_view(), self.y_max as int)
        &&& is_scale_pair(self.x_scales)
        &&& is_scale_pair(self.y_scales)
    }

    /// What the intensity at `(i, j)` adds to the coefficient at `(x, y)`.
    pub open spec fn term(&self, image: Seq<Seq<u8>>, x: int, y: int, i: int, j: int) -> int {
        image[i][j] * self.x_cosines.deep_view()[i][x] * self.y_cosines.deep_view()[j][y]
    }

    /// The terms of the first `n` intensities of column `i`, added up.
    pub open spec fn column_sum(&self, image: Seq<Seq<u8>>, x: int, y: int, i: int, n: int) -> int
        decreases n,
    {
        if n <= 0 {
            0
        } else {
            self.column_sum(image, x, y, i, n - 1) + self.term(image, x, y, i, n - 1)
        }
    }

    /// The terms of all intensities of the first `m` columns, added up.
    pub open spec fn grid_sum(&self, image: Seq<Seq<u8>>, x: int, y: int, m: int) -> int
        decreases m,
    {
        if m <= 0 {
            0
        } else {
            self.grid_sum(image, x, y, m - 1) + self.column_sum(
                image,
                x,
                y,
                m - 1,
                self.y_max as int,
            )
        }
    }

    /// The product of the scale factors that belong to `x` and to `y`.
    pub open spec fn scale_factor(&self, x: int, y: int) -> int {
        (if x == 0 {
            self.x_scales[0]
        } else {
            self.x_scales[1]
        }) * (if y == 0 {
            self.y_scales[0]
        } else {
            self.y_scales[1]
        })
    }

    /// The coefficient at `(x, y)`: the sum over all intensities of the
    /// intensity times the two cosines, times the scale factor, brought back
    /// to multiples of `1 / UNIT` and rounded towards zero.
    pub open spec fn coefficient(&self, image: Seq<Seq<u8>>, x: int, y: int) -> int {
        toward_zero(
            self.grid_sum(image, x, y, self.x_max as int) * self.scale_factor(x, y),
            UNIT_CUBED as int,
        )
    }

    /// The transform of a grid: the coefficient at every `(x, y)`.
    pub open spec fn transform(&self, image: Seq<Seq<u8>>) -> Seq<Seq<i64>> {
        Seq::new(
            self.x_max as nat,
            |x: int| Seq::new(self.y_max as nat, |y: int| self.coefficient(image, x, y) as i64),
        )
    }

    proof fn lemma_term_bound(&self, image: Seq<Seq<u8>>, x: int, y: int, i: int, j: int)
        requires
            self.wf(),
            is_grid(image, self.x_max as int, self.y_max as int),
            0 <= x < self.x_max,
            0 <= y < self.y_max,
            0 <= i < self.x_max,
            0 <= j < self.y_max,
        ensures
            -TERM_MAX <= self.term(image, x, y, i, j) <= TERM_MAX,
    {
        let v = image[i][j] as int;
        let a = self.x_cosines.deep_view()[i][x] as int;
        let b = self.y_cosines.deep_view()[j][y] as int;
        assert(-280375465082880 <= v * a * b <= 280375465082880) by (nonlinear_arith)
            requires
                0 <= v <= 255,
                -0x10_0000 <= a <= 0x10_0000,
                -0x10_0000 <= b <= 0x10_0000,
        ;
    }

    proof fn lemma_column_bound(&self, image: Seq<Seq<u8>>, x: int, y: int, i: int, n: int)
        requires
            self.wf(),
            is_grid(image, self.x_max as int, self.y_max as int),
            0 <= x < self.x_max,
            0 <= y < self.y_max,
            0 <= i < self.x_max,
            0 <= n <= self.y_max,
        ensures
            -n * TERM_MAX <= self.column_sum(image, x, y, i, n) <= n * TERM_MAX,
        decreases n,
    {
        if n > 0 {
            self.lemma_column_bound(image, x, y, i, n - 1);
            self.lemma_term_bound(image, x, y, i, n - 1);
        }
    }

    /// Tells whether the table is of the shape and range that its sizes call
    /// for, which is what every computation with it asks.
    pub fn is_usable(&self) -> (ok: bool)
        ensures
            ok == self.wf(),
    {
        let wide: u128 = self.x_max as u128;
        let high: u128 = self.y_max as u128;
        assert(wide * high <= 0xffff_ffff_ffff_ffff * 0xffff_ffff_ffff_ffff) by (nonlinear_arith)
            requires
                0 <= wide <= 0xffff_ffff_ffff_ffff,
                0 <= high <= 0xffff_ffff_ffff_ffff,
        ;
        let cells: u128 = wide * high;
        cells <= 0xffff_ffff && check_cosine_table(&self.x_cosines, self.x_max)
            && check_cosine_table(&self.y_cosines, self.y_max) && 0 <= self.x_scales[0]
            && self.x_scales[0] <= UNIT && 0 <= self.x_scales[1] && self.x_scales[1] <= UNIT && 0
            <= self.y_scales[0] && self.y_scales[0] <= UNIT && 0 <= self.y_scales[1]
            && self.y_scales[1] <= UNIT
    }

    /// The scale factor of a coefficient.
    pub fn find_scale_factor(&self, x: usize, y: usize) -> (factor: i64)
        requires
            is_scale_pair(self.x_scales),
            is_scale_pair(self.y_scales),
        ensures
            factor == self.scale_factor(x as int, y as int),
            0 <= factor <= UNIT * UNIT,
    {
        let mut x_scale_factor: i64 = self.x_scales[1];
        if x == 0 {
            x_scale_factor = self.x_scales[0];
        }
        let mut y_scale_factor: i64 = self.y_scales[1];
        if y == 0 {
            y_scale_factor = self.y_scales[0];
        }
        assert(0 <= x_scale_factor * y_scale_factor <= 0x10_0000 * 0x10_0000) by (nonlinear_arith)
            requires
                0 <= x_scale_factor <= 0x10_0000,
                0 <= y_scale_factor <= 0x10_0000,
        ;
        x_scale_factor * y_scale_factor
    }

    /// Computes one coefficient of the transform of a grid.
    pub fn calculate(&self, image_data: &Vec<Vec<u8>>, x: usize, y: usize) -> (value: i64)
        requires
            self.wf(),
            is_grid(image_data.deep_view(), self.x_max as int, self.y_max as int),
            x < self.x_max,
            y < self.y_max,
        ensures
            value == self.coefficient(image_data.deep_view(), x as int, y as int),
    {
        let ghost image = image_data.deep_view();
        let ghost bound: int = TERM_MAX as int;
        let mut sum: i128 = 0;
        let mut i: usize = 0;
        let ghost mut done: int = 0;
        while i < self.x_max
            invariant
                self.wf(),
                is_grid(image, self.x_max as int, self.y_max as int),
                image == image_data.deep_view(),
                x < self.x_max,
                y < self.y_max,
                0 <= i <= self.x_max,
                bound == 280375465082880,
                done == i * self.y_max,
                sum == self.grid_sum(image, x as int, y as int, i as int),
                -done * bound <= sum <= done * bound,
            decreases self.x_max - i,
        {
            let ghost before = sum;
            let mut j: usize = 0;
            proof {
                assert(i * self.y_max + self.y_max <= self.x_max * self.y_max) by (nonlinear_arith)
                    requires
                        i < self.x_max,
                        0 <= self.y_max,
                ;
                assert(self.x_cosines.deep_view()[i as int] =~= self.x_cosines@[i as int]@);
            }
            let from_x: i128 = self.x_cosines[i][x] as i128;
            while j < self.y_max
                invariant
                    self.wf(),
                    is_grid(image, self.x_max as int, self.y_max as int),
                    image == image_data.deep_view(),
                    image[i as int] == image_data@[i as int]@,
                    x < self.x_max,
                    y < self.y_max,
                    0 <= i < self.x_max,
                    0 <= j <= self.y_max,
                    bound == 280375465082880,
                    0 <= done,
                    done + self.y_max <= u32::MAX,
                    from_x == self.x_cosines.deep_view()[i as int][x as int],
                    -done * bound <= before <= done * bound,
                    sum == before + self.column_sum(image, x as int, y as int, i as int, j as int),
                decreases self.y_max - j,
            {
                proof {
                    self.lemma_column_bound(image, x as int, y as int, i as int, j as int);
                    self.lemma_term_bound(image, x as int, y as int, i as int, j as int);
                }
                let image_value: i128 = image_data[i][j] as i128;
                let from_y: i128 = self.y_cosines[j][y] as i128;
                assert(-255 * 0x10_0000 <= image_value * from_x <= 255 * 0x10_0000)
                    by (nonlinear_arith)
                    requires
                        0 <= image_value <= 255,
                        -0x10_0000 <= from_x <= 0x10_0000,
                ;
                sum = sum + image_value * from_x * from_y;
                j += 1;
            }
            proof {
                self.lemma_column_bound(image, x as int, y as int, i as int, self.y_max as int);
                assert((i + 1) * self.y_max == i * self.y_max + self.y_max) by (nonlinear_arith);
                done = done + self.y_max;
            }
            i += 1;
        }
        let factor: i128 = self.find_scale_factor(x, y) as i128;
        proof {
            assert(-1324035698618104961273546124401049600 <= sum * factor
                <= 1324035698618104961273546124401049600) by (nonlinear_arith)
                requires
                    -1204203452851384064409600 <= sum <= 1204203452851384064409600,
                    0 <= factor <= 1099511627776,
            ;
        }
        let scaled: i128 = sum * factor;
        let value: i128 = if scaled >= 0 {
            scaled / UNIT_CUBED
        } else {
            -((-scaled) / UNIT_CUBED)
        };
        value as i64
    }
}

/// Computes the transform of a grid of intensities with the table given.
pub fn find_dct_matrix(matrix: &Vec<Vec<u8>>, dct_point: &DctPoint) -> (dct_matrix: Vec<Vec<i64>>)
    requires
        dct_point.wf(),
        is_grid(matrix.deep_view(), dct_point.x_max as int, dct_point.y_max as int),
    ensures
        dct_matrix.deep_view() == dct_point.transform(matrix.deep_view()),
{
    let ghost image = matrix.deep_view();
    let ghost all = dct_point.transform(image);
    let mut dct_matrix: Vec<Vec<i64>> = Vec::new();
    let mut x: usize = 0;
    while x < dct_point.x_max
        invariant
            dct_point.wf(),
            is_grid(image, dct_point.x_max as int, dct_point.y_max as int),
            image == matrix.deep_view(),
            all == dct_point.transform(image),
            0 <= x <= dct_point.x_max,
            dct_matrix.deep_view() == all.take(x as int),
        decreases dct_point.x_max - x,
    {
        let mut row: Vec<i64> = Vec::new();
        let mut y: usize = 0;
        while y < dct_point.y_max
            invariant
                dct_point.wf(),
                is_grid(image, dct_point.x_max as int, dct_point.y_max as int),
                image == matrix.deep_view(),
                all == dct_point.transform(image),
                0 <= x < dct_point.x_max,
                0 <= y <= dct_point.y_max,
                row@ == all[x as int].take(y as int),
            decreases dct_point.y_max - y,
        {
            let value: i64 = dct_point.calculate(matrix, x, y);
            row.push(value);
            proof {
                assert(all[x as int].take(y + 1) =~= all[x as int].take(y as int).push(
                    all[x as int][y as int],
                ));
            }
            y += 1;
        }
        proof {
            assert(all[x as int].take(dct_point.y_max as int) =~= all[x as int]);
            assert(row.deep_view() =~= row@);
        }
        dct_matrix.push(row);
        proof {
            assert(all.take(x + 1) =~= all.take(x as int).push(all[x as int]));
        }
        x += 1;
    }
    dct_matrix
}

} // verus!
