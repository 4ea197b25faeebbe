//! Fingerprints of images and the distance between them.
//!
//! A fingerprint is taken in four steps: the image is decoded and brought to
//! a small grey square ([`raster`]), the square is transformed ([`dct`]), and
//! the fingerprint is read off the low-frequency corner of the transform
//! ([`bits`]). [`find_hash`] goes through all of them.

pub mod bits;
pub mod dct;
pub mod raster;

pub use bits::{build_hash, calculate_mean_value, reduce_matrix};
pub use dct::{find_dct_matrix, DctPoint};
pub use raster::find_image_matrix;

use vstd::prelude::*;
use vstd::std_specs::iter::IteratorSpec;
use crate::index::ImageKind;
use image::{DynamicImage, ImageError};
use crate::phash::bits::{block_hash, corner, fingerprint, mean_of, ConfigError, HASH_SIZE};
use crate::phash::raster::{
    decode, decoded_as, fits, intensities, intensities_of, is_empty_image, is_normal_form,
    HashError,
};

verus! {

/// Whether `grid` has `width` rows of `height` entries each. The first index
/// of a grid of intensities is the column of the image, the second its row.
pub open spec fn is_grid<T>(grid: Seq<Seq<T>>, width: int, height: int) -> bool {
    &&& grid.len() == width
    &&& forall|x: int| 0 <= x < width ==> (#[trigger] grid[x]).len() == height
}

/// Length of the prefix that two fingerprints have in common positions.
pub open spec fn common_len(a: Seq<char>, b: Seq<char>) -> nat {
    if a.len() <= b.len() {
        a.len()
    } else {
        b.len()
    }
}

/// The positions below `n` at which `a` and `b` hold different symbols.
pub open spec fn differing_below(a: Seq<char>, b: Seq<char>, n: int) -> Set<int> {
    Set::new(|i: int| 0 <= i < n && a[i] != b[i])
}

/// Hamming distance of two fingerprints: the number of positions at which
/// they differ. Fingerprints of unequal length are compared over their
/// common prefix only; the surplus of the longer one is ignored.
pub open spec fn hamming(a: Seq<char>, b: Seq<char>) -> nat {
    differing_below(a, b, common_len(a, b) as int).len()
}

/// Counting position by position: the set of differing positions is finite,
/// no larger than the prefix it ranges over, and grows by one exactly when
/// the next position differs.
proof fn lemma_differing_step(a: Seq<char>, b: Seq<char>, n: int)
    requires
        0 <= n,
    ensures
        differing_below(a, b, n).finite(),
        differing_below(a, b, n).len() <= n,
        differing_below(a, b, n + 1).finite(),
        differing_below(a, b, n + 1).len() == differing_below(a, b, n).len() + (if a[n] != b[n] {
            1nat
        } else {
            0nat
        }),
    decreases n,
{
    let cur = differing_below(a, b, n);
    let next = differing_below(a, b, n + 1);
    if n == 0 {
        assert(cur =~= Set::empty());
    } else {
        lemma_differing_step(a, b, n - 1);
    }
    if a[n] != b[n] {
        assert(next =~= cur.insert(n));
    } else {
        assert(next =~= cur);
    }
}

/// A longer prefix has at least as many differing positions.
proof fn lemma_differing_grows(a: Seq<char>, b: Seq<char>, n: int, m: int)
    requires
        0 <= n <= m,
    ensures
        differing_below(a, b, n).len() <= differing_below(a, b, m).len(),
{
    lemma_differing_step(a, b, m);
    vstd::set_lib::lemma_len_subset(differing_below(a, b, n), differing_below(a, b, m));
}

/// The distance can be counted symbol by symbol: nothing is at distance
/// zero from the empty fingerprint, and a further symbol on both of two
/// fingerprints of one length adds one to their distance if the two symbols
/// differ, and nothing if they agree.
pub proof fn lemma_distance_by_symbol(a: Seq<char>, b: Seq<char>, x: char, y: char)
    requires
        a.len() == b.len(),
    ensures
        hamming(Seq::empty(), b) == 0,
        hamming(a, Seq::empty()) == 0,
        hamming(a.push(x), b.push(y)) == hamming(a, b) + (if x != y {
            1nat
        } else {
            0nat
        }),
{
    let n = a.len() as int;
    lemma_differing_step(Seq::empty(), b, 0);
    lemma_differing_step(a, Seq::empty(), 0);
    lemma_differing_step(a.push(x), b.push(y), n);
    assert(differing_below(a.push(x), b.push(y), n) =~= differing_below(a, b, n));
}

/// The distance never exceeds the number of positions compared.
pub proof fn lemma_distance_bounded(a: Seq<char>, b: Seq<char>)
    ensures
        hamming(a, b) <= common_len(a, b),
{
    lemma_differing_step(a, b, common_len(a, b) as int);
}

/// The distance does not depend on the order of its arguments.
pub proof fn lemma_distance_symmetric(a: Seq<char>, b: Seq<char>)
    ensures
        hamming(a, b) == hamming(b, a),
{
    let n = common_len(a, b) as int;
    assert(differing_below(a, b, n) =~= differing_below(b, a, n));
}

/// Fingerprints of one length are at distance zero exactly when they are
/// the same fingerprint.
pub proof fn lemma_distance_zero_iff_equal(a: Seq<char>, b: Seq<char>)
    requires
        a.len() == b.len(),
    ensures
        hamming(a, b) == 0 <==> a == b,
{
    let n = a.len() as int;
    let d = differing_below(a, b, n);
    lemma_differing_step(a, b, n);
    if a == b {
    }
    if hamming(a, b) == 0 {
        assert(d =~= Set::empty()) by {
            if !d.is_empty() {
                d.lemma_len0_is_empty();
            }
        }
        assert forall|i: int| 0 <= i < n implies a[i] == b[i] by {
            assert(!d.contains(i));
        }
        assert(a =~= b);
    }
}

/// Fingerprints of one length that differ at every position are as far apart
/// as their length.
pub proof fn lemma_distance_of_opposites(a: Seq<char>, b: Seq<char>)
    requires
        a.len() == b.len(),
        forall|i: int| 0 <= i < a.len() ==> a[i] != b[i],
    ensures
        hamming(a, b) == a.len(),
{
    let n = a.len() as int;
    vstd::set_lib::lemma_int_range(0, n);
    assert(differing_below(a, b, n) =~= vstd::set_lib::set_int_range(0, n));
}

/// Counts the positions at which two fingerprints differ. Where one is
/// longer than the other, only the positions that both have are compared.
/// The count must fit the result: the shorter fingerprint may have
/// `i32::MAX` symbols at most.
pub fn find_distance(hash1: &str, hash2: &str) -> (distance: i32)
    requires
        common_len(hash1@, hash2@) <= i32::MAX,
    ensures
        distance == hamming(hash1@, hash2@),
        0 <= distance <= common_len(hash1@, hash2@),
{
    broadcast use vstd::string::group_string_axioms;

    let mut left = hash1.chars();
    let mut right = hash2.chars();
    let mut distance: i32 = 0;
    let ghost mut n: int = 0;
    proof {
        lemma_differing_step(hash1@, hash2@, 0);
    }
    loop
        invariant_except_break
            0 <= n <= common_len(hash1@, hash2@) <= i32::MAX,
            left.remaining() == hash1@.skip(n),
            right.remaining() == hash2@.skip(n),
            distance == differing_below(hash1@, hash2@, n).len(),
            distance <= n,
        ensures
            distance == hamming(hash1@, hash2@),
            0 <= distance <= common_len(hash1@, hash2@),
        decreases common_len(hash1@, hash2@) - n,
    {
        let a = left.next();
        let b = right.next();
        match (a, b) {
            (Some(a), Some(b)) => {
                proof {
                    lemma_differing_step(hash1@, hash2@, n);
                    n = n + 1;
                }
                if a != b {
                    distance += 1;
                }
            },
            _ => {
                break ;
            },
        }
    }
    distance
}

/// Whether two fingerprints are closer than `limit`. This is
/// `find_distance(hash1, hash2) < limit` for fingerprints of any length: the
/// count stops at `limit` and so always fits.
pub fn is_closer(hash1: &str, hash2: &str, limit: i32) -> (closer: bool)
    ensures
        closer == (hamming(hash1@, hash2@) < limit),
{
    broadcast use vstd::string::group_string_axioms;

    if limit <= 0 {
        return false;
    }
    let mut left = hash1.chars();
    let mut right = hash2.chars();
    let mut distance: i32 = 0;
    let ghost mut n: int = 0;
    proof {
        lemma_differing_step(hash1@, hash2@, 0);
    }
    loop
        invariant_except_break
            0 <= n <= common_len(hash1@, hash2@),
            left.remaining() == hash1@.skip(n),
            right.remaining() == hash2@.skip(n),
            distance == differing_below(hash1@, hash2@, n).len(),
            0 <= distance < limit,
        ensures
            0 <= distance <= limit,
            (distance < limit) == (hamming(hash1@, hash2@) < limit),
        decreases common_len(hash1@, hash2@) - n,
    {
        let a = left.next();
        let b = right.next();
        match (a, b) {
            (Some(a), Some(b)) => {
                proof {
                    lemma_differing_step(hash1@, hash2@, n);
                    n = n + 1;
                }
                if a != b {
                    distance += 1;
                    if distance == limit {
                        proof {
                            lemma_differing_grows(hash1@, hash2@, n, common_len(hash1@, hash2@) as int);
                        }
                        break ;
                    }
                }
            },
            _ => {
                break ;
            },
        }
    }
    distance < limit
}

/// The fingerprint of a grid of intensities under a table: the grid is
/// transformed, and the fingerprint is read off the corner of `size` by
/// `size` coefficients against the mean of that corner.
pub open spec fn grid_fingerprint(image: Seq<Seq<u8>>, point: DctPoint, size: int) -> Seq<char> {
    let block = corner(point.transform(image), size);
    fingerprint(block, mean_of(block))
}

/// Whether a fingerprint is made of the symbols `0` and `1` alone.
pub open spec fn is_bit_string(hash: Seq<char>) -> bool {
    forall|k: int| 0 <= k < hash.len() ==> hash[k] == '0' || hash[k] == '1'
}

/// Takes the fingerprint of a grid of intensities. The corner that is read
/// must hold at least two coefficients to a side and be smaller than the
/// grid on both sides.
pub fn grid_hash(grid: &Vec<Vec<u8>>, point: &DctPoint, size: i64) -> (hash: Result<
    String,
    ConfigError,
>)
    requires
        point.wf(),
        is_grid(grid.deep_view(), point.x_max as int, point.y_max as int),
    ensures
        size < 2 ==> hash == Err::<String, ConfigError>(ConfigError::Degenerate),
        2 <= size && (point.x_max <= size || point.y_max <= size) ==> hash == Err::<
            String,
            ConfigError,
        >(ConfigError::BlockTooLarge),
        2 <= size < point.x_max && size < point.y_max ==> hash is Ok && hash->Ok_0@
            == grid_fingerprint(grid.deep_view(), *point, size as int) && hash->Ok_0@.len() == size
            * size && is_bit_string(hash->Ok_0@),
{
    if size < 2 {
        return Err(ConfigError::Degenerate);
    }
    if point.x_max as u64 <= size as u64 || point.y_max as u64 <= size as u64 {
        return Err(ConfigError::BlockTooLarge);
    }
    let dct_matrix = find_dct_matrix(grid, point);
    proof {
        let all = point.transform(grid.deep_view());
        assert(dct_matrix.deep_view().len() == dct_matrix@.len());
        assert forall|x: int| 0 <= x < size implies size <= (#[trigger] dct_matrix@[x])@.len() by {
            assert(all[x].len() == point.y_max);
        }
        assert(size * size <= point.x_max * point.y_max) by (nonlinear_arith)
            requires
                0 <= size < point.x_max,
                size < point.y_max,
        ;
    }
    block_hash(dct_matrix, size)
}

/// Whether fingerprints can be taken with a table: it is well formed and
/// made for square grids.
pub open spec fn is_square_table(point: DctPoint) -> bool {
    point.wf() && point.x_max == point.y_max
}

/// Whether `hash` is a fingerprint of the image `img` under a table: `img`
/// has a normal form as large as the table, a grey square that came of
/// resampling it, and `hash` is the fingerprint of that square's intensities.
/// Symbol `HASH_SIZE * x + y` is then `1` exactly where the coefficient at
/// `(x, y)` of the square's transform exceeds the mean of the corner, the
/// first coefficient set aside.
pub open spec fn is_fingerprint_of(hash: Seq<char>, img: DynamicImage, point: DctPoint) -> bool {
    exists|grid: Seq<Seq<u8>>| #[trigger]
        is_normal_form(img, point.x_max as u32, grid) && is_grid(
            grid,
            point.x_max as int,
            point.x_max as int,
        ) && hash == grid_fingerprint(grid, point, HASH_SIZE as int)
}

/// Two fingerprints of one image differ only as far as its normal forms do:
/// where resampling gives an image but one normal form of the table's size,
/// the image has but one fingerprint under the table.
pub proof fn lemma_one_normal_form_one_fingerprint(
    img: DynamicImage,
    point: DctPoint,
    first: Seq<char>,
    second: Seq<char>,
)
    requires
        is_fingerprint_of(first, img, point),
        is_fingerprint_of(second, img, point),
        forall|a: Seq<Seq<u8>>, b: Seq<Seq<u8>>|
            #![trigger is_normal_form(img, point.x_max as u32, a), is_normal_form(img, point.x_max as u32, b)]
            is_normal_form(img, point.x_max as u32, a) && is_normal_form(
                img,
                point.x_max as u32,
                b,
            ) ==> a == b,
    ensures
        first == second,
{
    let side = point.x_max as u32;
    let a = choose|grid: Seq<Seq<u8>>| #[trigger]
        is_normal_form(img, side, grid) && is_grid(grid, point.x_max as int, point.x_max as int)
            && first == grid_fingerprint(grid, point, HASH_SIZE as int);
    let b = choose|grid: Seq<Seq<u8>>| #[trigger]
        is_normal_form(img, side, grid) && is_grid(grid, point.x_max as int, point.x_max as int)
            && second == grid_fingerprint(grid, point, HASH_SIZE as int);
    assert(a == b);
}

/// The outcome that is owed for the image `img`, once the table is found
/// fit: an image without pixels, or one too wide to be resampled on this
/// machine, is refused; any other gives a fingerprint of the image, which
/// has the square of [`HASH_SIZE`] in symbols, each `0` or `1`.
pub open spec fn is_outcome_for(hash: Result<String, HashError>, img: DynamicImage, point: DctPoint)
    -> bool {
    if is_empty_image(img) {
        hash == Err::<String, HashError>(HashError::Empty)
    } else if !fits(img, point.x_max as u32) {
        hash == Err::<String, HashError>(HashError::TooLarge)
    } else {
        &&& hash is Ok
        &&& is_fingerprint_of(hash->Ok_0@, img, point)
        &&& hash->Ok_0@.len() == HASH_SIZE * HASH_SIZE
        &&& is_bit_string(hash->Ok_0@)
    }
}

/// Whether `hash` is the outcome that is owed for some image of the
/// intensities `grid`.
pub open spec fn is_outcome_for_grid(
    hash: Result<String, HashError>,
    grid: Seq<Seq<u8>>,
    point: DctPoint,
) -> bool {
    exists|img: DynamicImage| #[trigger] intensities(img) == grid && is_outcome_for(hash, img, point)
}

/// What follows decoding, for each outcome of it. A table that is unusable,
/// or too small for a corner of [`HASH_SIZE`] coefficients to a side, is
/// refused first, and only then. A failure to decode is passed on with its
/// reason. An image that was decoded gives the outcome that
/// [`is_outcome_for`] describes for it.
pub fn hash_of_decoded(decoded: Result<DynamicImage, ImageError>, point: &DctPoint) -> (hash:
    Result<String, HashError>)
    ensures
        !is_square_table(*point) ==> hash == Err::<String, HashError>(
            HashError::Config(ConfigError::Table),
        ),
        is_square_table(*point) && point.x_max <= HASH_SIZE ==> hash == Err::<String, HashError>(
            HashError::Config(ConfigError::BlockTooLarge),
        ),
        is_square_table(*point) && point.x_max > HASH_SIZE ==> match decoded {
            Err(_) => hash is Err && hash->Err_0 is Decode,
            Ok(img) => is_outcome_for(hash, img, *point),
        },
{
    if !point.is_usable() || point.x_max != point.y_max {
        return Err(HashError::Config(ConfigError::Table));
    }
    if point.x_max as u64 <= HASH_SIZE as u64 {
        return Err(HashError::Config(ConfigError::BlockTooLarge));
    }
    proof {
        assert(point.x_max <= point.x_max * point.y_max) by (nonlinear_arith)
            requires
                point.x_max == point.y_max,
                0 <= point.x_max,
        ;
    }
    let side: u32 = point.x_max as u32;
    match intensities_of(decoded, side) {
        Err(e) => Err(e),
        Ok(grid) => match grid_hash(&grid, point, HASH_SIZE) {
            Err(e) => Err(HashError::Config(e)),
            Ok(hash) => {
                proof {
                    assert(is_normal_form(decoded->Ok_0, side, grid.deep_view()));
                }
                Ok(hash)
            },
        },
    }
}

/// Finds the fingerprint of an image from the bytes of its file. The image
/// is decoded as the format `kind`, brought to a grey square as large as the
/// table of `point`, transformed, and read off a corner of [`HASH_SIZE`]
/// coefficients to a side.
///
/// A table that is unusable, or too small for such a corner, is refused
/// first, and only then. Bytes that do not decode are refused with the
/// decoder's reason. Bytes that decode give the outcome that
/// [`is_outcome_for`] describes for the image they hold.
pub fn find_hash(bytes: &[u8], kind: ImageKind, point: &DctPoint) -> (hash: Result<
    String,
    HashError,
>)
    ensures
        !is_square_table(*point) ==> hash == Err::<String, HashError>(
            HashError::Config(ConfigError::Table),
        ),
        is_square_table(*point) && point.x_max <= HASH_SIZE ==> hash == Err::<String, HashError>(
            HashError::Config(ConfigError::BlockTooLarge),
        ),
        is_square_table(*point) && point.x_max > HASH_SIZE ==> match decoded_as(bytes@, kind) {
            None => hash is Err && hash->Err_0 is Decode,
            Some(grid) => is_outcome_for_grid(hash, grid, *point),
        },
{
    let decoded = decode(bytes, kind);
    let ghost held = decoded;
    let hash = hash_of_decoded(decoded, point);
    proof {
        if held is Ok {
            assert(intensities(held->Ok_0) == decoded_as(bytes@, kind)->Some_0);
        }
    }
    hash
}

} // verus!
