//! From a block of transform coefficients to the fingerprint.
//!
//! Coefficients are whole numbers on a scale that all coefficients of a
//! block share. The mean of a block is kept as an exact fraction, so that
//! "greater than the mean" is decided without rounding.

use vstd::prelude::*;
use vstd::string::StringExecFns;
use vstd::arithmetic::div_mod::lemma_fundamental_div_mod_converse;
use crate::phash::is_grid;

verus! {

/// The side of the square that an image is brought to before the transform.
pub const IMAGE_SIZE: u32 = 32;

/// The side of the block of low-frequency coefficients that a fingerprint is
/// read from; a fingerprint has the square of it in symbols.
pub const HASH_SIZE: i64 = 8;

/// Why a block gives no fingerprint.
#[derive(Clone, Copy, Debug, PartialEq, Eq, Structural)]
pub enum ConfigError {
    /// The block holds fewer than two coefficients, so that no coefficient is
    /// left to take a mean of once the first is set aside.
    Degenerate,
    /// The block is not smaller than the grid that it is cut from.
    BlockTooLarge,
    /// The table of the transform is not square, or not of the shape and
    /// range that its sizes call for.
    Table,
}

/// Says whether fingerprints can be taken with these sizes: the block of
/// coefficients must hold at least two of them to a side, and it must be
/// smaller than the grid that the image is brought to.
pub fn check_sizes(image_size: u32, hash_size: i64) -> (checked: Result<(), ConfigError>)
    ensures
        hash_size < 2 ==> checked == Err::<(), ConfigError>(ConfigError::Degenerate),
        2 <= hash_size && image_size <= hash_size ==> checked == Err::<(), ConfigError>(
            ConfigError::BlockTooLarge,
        ),
        2 <= hash_size < image_size ==> checked == Ok::<(), ConfigError>(()),
{
    if hash_size < 2 {
        Err(ConfigError::Degenerate)
    } else if hash_size >= image_size as i64 {
        Err(ConfigError::BlockTooLarge)
    } else {
        Ok(())
    }
}

/// A mean as the fraction `total / count`.
#[derive(Clone, Copy, Debug, PartialEq, Eq, Structural)]
pub struct Mean {
    pub total: i128,
    pub count: u64,
}

/// The sum of the first `n` entries of a row.
pub open spec fn row_sum(row: Seq<i64>, n: int) -> int
    decreases n,
{
    if n <= 0 {
        0
    } else {
        row_sum(row, n - 1) + row[n - 1]
    }
}

/// The sum of all entries of the first `m` rows of a block.
pub open spec fn block_sum(block: Seq<Seq<i64>>, m: int) -> int
    decreases m,
{
    if m <= 0 {
        0
    } else {
        block_sum(block, m - 1) + row_sum(block[m - 1], block[m - 1].len() as int)
    }
}

/// The number of coefficients of a block of equal rows.
pub open spec fn coefficient_count(block: Seq<Seq<i64>>) -> nat {
    if block.len() == 0 {
        0
    } else {
        block.len() * block[0].len()
    }
}

/// The mean of a block: the sum of all its coefficients but the first of the
/// first row, over their number. The first coefficient carries the overall
/// brightness and takes no part.
pub open spec fn mean_of(block: Seq<Seq<i64>>) -> Mean {
    Mean {
        total: (block_sum(block, block.len() as int) - block[0][0]) as i128,
        count: (coefficient_count(block) - 1) as u64,
    }
}

/// Whether a coefficient is strictly greater than a mean. With a count of
/// at least one this is `value > total / count` over the rationals.
pub open spec fn exceeds(value: i64, mean: Mean) -> bool {
    value * mean.count > mean.total
}

/// The symbol that stands for one bit of a fingerprint.
pub open spec fn bit(set: bool) -> char {
    if set {
        '1'
    } else {
        '0'
    }
}

/// The fingerprint of a block against a mean: one symbol for each
/// coefficient, row after row, `1` where the coefficient exceeds the mean
/// and `0` where it does not.
pub open spec fn fingerprint(block: Seq<Seq<i64>>, mean: Mean) -> Seq<char> {
    Seq::new(
        coefficient_count(block),
        |k: int| bit(exceeds(block[k / (block[0].len() as int)][k % (block[0].len() as int)], mean)),
    )
}

/// A sum of `n` entries lies within `n` times the range of one entry.
proof fn lemma_row_sum_bounds(row: Seq<i64>, n: int)
    requires
        0 <= n <= row.len(),
    ensures
        -n * 0x8000_0000_0000_0000 <= row_sum(row, n) <= n * 0x8000_0000_0000_0000,
    decreases n,
{
    if n > 0 {
        lemma_row_sum_bounds(row, n - 1);
    }
}

/// Cuts the top left corner of `size` by `size` entries out of a grid.
pub fn reduce_matrix<T: Copy>(dct_matrix: Vec<Vec<T>>, size: i64) -> (new_matrix: Vec<Vec<T>>)
    requires
        size <= dct_matrix@.len(),
        forall|x: int| 0 <= x < size ==> size <= (#[trigger] dct_matrix@[x])@.len(),
    ensures
        new_matrix@.len() == if size < 0 {
            0
        } else {
            size as int
        },
        forall|x: int|
            0 <= x < size ==> (#[trigger] new_matrix@[x])@ == dct_matrix@[x]@.take(size as int),
{
    let mut new_matrix: Vec<Vec<T>> = Vec::new();
    let mut x: i64 = 0;
    while x < size
        invariant
            0 <= x,
            x <= size || (size < 0 && x == 0),
            size <= dct_matrix@.len(),
            forall|x: int| 0 <= x < size ==> size <= (#[trigger] dct_matrix@[x])@.len(),
            new_matrix@.len() == x,
            forall|k: int|
                0 <= k < x ==> (#[trigger] new_matrix@[k])@ == dct_matrix@[k]@.take(size as int),
        decreases size - x,
    {
        let mut row: Vec<T> = Vec::new();
        let mut y: i64 = 0;
        while y < size
            invariant
                0 <= x < size,
                0 <= y <= size,
                size <= dct_matrix@.len(),
                size <= dct_matrix@[x as int]@.len(),
                row@ == dct_matrix@[x as int]@.take(y as int),
            decreases size - y,
        {
            row.push(dct_matrix[x as usize][y as usize]);
            proof {
                assert(dct_matrix@[x as int]@.take(y + 1) =~= dct_matrix@[x as int]@.take(
                    y as int,
                ).push(dct_matrix@[x as int]@[y as int]));
            }
            y += 1;
        }
        new_matrix.push(row);
        x += 1;
    }
    new_matrix
}

/// Takes the mean of a block of coefficients, the first coefficient set
/// aside. A block of fewer than two coefficients has no such mean. The
/// number of coefficients must fit in 63 bits, as it does for every block
/// that fits in memory.
pub fn calculate_mean_value(dct_matrix: &Vec<Vec<i64>>) -> (mean: Result<Mean, ConfigError>)
    requires
        dct_matrix@.len() > 0 ==> is_grid(
            dct_matrix.deep_view(),
            dct_matrix@.len() as int,
            dct_matrix@[0]@.len() as int,
        ),
        coefficient_count(dct_matrix.deep_view()) <= i64::MAX,
    ensures
        coefficient_count(dct_matrix.deep_view()) < 2 ==> mean == Err::<Mean, ConfigError>(
            ConfigError::Degenerate,
        ),
        coefficient_count(dct_matrix.deep_view()) >= 2 ==> mean == Ok::<Mean, ConfigError>(
            mean_of(dct_matrix.deep_view()),
        ),
{
    let ghost block = dct_matrix.deep_view();
    let rows: usize = dct_matrix.len();
    if rows == 0 {
        return Err(ConfigError::Degenerate);
    }
    let cols: usize = dct_matrix[0].len();
    if cols == 0 || (rows == 1 && cols == 1) {
        proof {
            assert(rows * cols < 2) by (nonlinear_arith)
                requires
                    cols == 0 || (rows == 1 && cols == 1),
            ;
        }
        return Err(ConfigError::Degenerate);
    }
    proof {
        assert(rows * cols >= 2) by (nonlinear_arith)
            requires
                rows >= 1,
                cols >= 1,
                !(rows == 1 && cols == 1),
        ;
    }
    let mut total: i128 = 0;
    let mut x: usize = 0;
    let ghost mut done: int = 0;
    while x < rows
        invariant
            0 <= x <= rows,
            rows == dct_matrix@.len(),
            block == dct_matrix.deep_view(),
            is_grid(block, rows as int, cols as int),
            rows * cols <= i64::MAX,
            total == block_sum(block, x as int),
            done == x * cols,
            -done * 0x8000_0000_0000_0000 <= total <= done * 0x8000_0000_0000_0000,
        decreases rows - x,
    {
        let ghost before = total;
        let ghost row = block[x as int];
        let mut y: usize = 0;
        proof {
            assert(x * cols + cols <= rows * cols) by (nonlinear_arith)
                requires
                    x < rows,
                    0 <= cols,
            ;
        }
        while y < cols
            invariant
                0 <= x < rows,
                0 <= y <= cols,
                rows == dct_matrix@.len(),
                cols == row.len(),
                row == dct_matrix@[x as int]@,
                done + cols <= i64::MAX,
                0 <= done,
                -done * 0x8000_0000_0000_0000 <= before <= done * 0x8000_0000_0000_0000,
                total == before + row_sum(row, y as int),
            decreases cols - y,
        {
            proof {
                lemma_row_sum_bounds(row, y as int);
            }
            total = total + dct_matrix[x][y] as i128;
            y += 1;
        }
        proof {
            lemma_row_sum_bounds(row, cols as int);
            assert((x + 1) * cols == x * cols + cols) by (nonlinear_arith);
            done = done + cols;
        }
        x += 1;
    }
    let first: i128 = dct_matrix[0][0] as i128;
    let count: u64 = (rows as u64) * (cols as u64) - 1;
    Ok(Mean { total: total - first, count })
}

/// Writes the fingerprint of a block against a mean: for each coefficient,
/// row after row, `1` if it is strictly greater than the mean and `0` if it
/// is not.
pub fn build_hash(dct_matrix: Vec<Vec<i64>>, dct_mean_value: Mean) -> (hash: String)
    requires
        dct_matrix@.len() > 0,
        is_grid(dct_matrix.deep_view(), dct_matrix@.len() as int, dct_matrix@[0]@.len() as int),
    ensures
        hash@ == fingerprint(dct_matrix.deep_view(), dct_mean_value),
        hash@.len() == coefficient_count(dct_matrix.deep_view()),
        forall|k: int| 0 <= k < hash@.len() ==> hash@[k] == '0' || hash@[k] == '1',
{
    let ghost block = dct_matrix.deep_view();
    let mut hash = String::new();
    let x_size: usize = dct_matrix.len();
    let y_size: usize = dct_matrix[0].len();
    let count: i128 = dct_mean_value.count as i128;
    let mut x: usize = 0;
    proof {
        reveal_strlit("1");
        reveal_strlit("0");
    }
    while x < x_size
        invariant
            0 <= x <= x_size,
            x_size == dct_matrix@.len(),
            block == dct_matrix.deep_view(),
            is_grid(block, x_size as int, y_size as int),
            count == dct_mean_value.count,
            "1"@ == seq!['1'],
            "0"@ == seq!['0'],
            hash@ == fingerprint(block, dct_mean_value).take(x * y_size),
        decreases x_size - x,
    {
        let mut y: usize = 0;
        proof {
            assert(block[x as int] =~= dct_matrix@[x as int]@);
            assert((x + 1) * y_size == x * y_size + y_size) by (nonlinear_arith);
            assert((x + 1) * y_size <= x_size * y_size) by (nonlinear_arith)
                requires
                    x < x_size,
                    0 <= y_size,
            ;
        }
        while y < y_size
            invariant
                0 <= x < x_size,
                0 <= y <= y_size,
                x_size == dct_matrix@.len(),
                y_size == dct_matrix@[x as int]@.len(),
                block[x as int] == dct_matrix@[x as int]@,
                block[0].len() == y_size,
                coefficient_count(block) == x_size * y_size,
                x * y_size + y_size <= x_size * y_size,
                0 <= x * y_size,
                count == dct_mean_value.count,
                "1"@ == seq!['1'],
                "0"@ == seq!['0'],
                hash@ == fingerprint(block, dct_mean_value).take(x * y_size + y),
            decreases y_size - y,
        {
            let value: i128 = dct_matrix[x][y] as i128;
            proof {
                lemma_fundamental_div_mod_converse(
                    x * y_size + y,
                    y_size as int,
                    x as int,
                    y as int,
                );
                assert(-0x8000_0000_0000_0000 * 0xffff_ffff_ffff_ffff <= value * count
                    <= 0x8000_0000_0000_0000 * 0xffff_ffff_ffff_ffff) by (nonlinear_arith)
                    requires
                        -0x8000_0000_0000_0000 <= value <= 0x8000_0000_0000_0000,
                        0 <= count <= 0xffff_ffff_ffff_ffff,
                ;
            }
            if value * count > dct_mean_value.total {
                hash.append("1");
            } else {
                hash.append("0");
            }
            y += 1;
        }
        x += 1;
    }
    hash
}

/// The top left corner of `size` by `size` entries of a grid.
pub open spec fn corner(grid: Seq<Seq<i64>>, size: int) -> Seq<Seq<i64>> {
    Seq::new(size as nat, |x: int| grid[x].take(size))
}

/// Reads a fingerprint off the coefficients of a transform: the corner of
/// `size` by `size` coefficients of lowest frequency is cut out, its mean is
/// taken with the first coefficient set aside, and each coefficient of the
/// corner gives one symbol, `1` if it exceeds that mean. A `size` below two
/// leaves nothing to take a mean of.
pub fn block_hash(dct_matrix: Vec<Vec<i64>>, size: i64) -> (hash: Result<String, ConfigError>)
    requires
        size <= dct_matrix@.len(),
        forall|x: int| 0 <= x < size ==> size <= (#[trigger] dct_matrix@[x])@.len(),
        size * size <= i64::MAX,
    ensures
        size < 2 ==> hash == Err::<String, ConfigError>(ConfigError::Degenerate),
        size >= 2 ==> hash is Ok && hash->Ok_0@ == fingerprint(
            corner(dct_matrix.deep_view(), size as int),
            mean_of(corner(dct_matrix.deep_view(), size as int)),
        ) && hash->Ok_0@.len() == size * size,
{
    let ghost grid = dct_matrix.deep_view();
    let block = reduce_matrix(dct_matrix, size);
    proof {
        if size > 0 {
            assert forall|x: int| 0 <= x < size implies (#[trigger] block.deep_view()[x]) == corner(
                grid,
                size as int,
            )[x] by {
            }
            assert(block.deep_view() =~= corner(grid, size as int));
        }
        if size >= 2 {
            assert(size * size >= 2) by (nonlinear_arith)
                requires
                    size >= 2,
            ;
        } else if size == 1 {
            assert(size * size == 1) by (nonlinear_arith)
                requires
                    size == 1,
            ;
        }
    }
    match calculate_mean_value(&block) {
        Err(e) => Err(e),
        Ok(mean) => Ok(build_hash(block, mean)),
    }
}

} // verus!
