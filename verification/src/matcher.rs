//! The search for near-duplicate pictures within one group.

use vstd::prelude::*;
use crate::phash::{hamming, is_closer, lemma_distance_zero_iff_equal};
use crate::pic::Pic;

verus! {

/// Two pictures are near-duplicates when their fingerprints are closer than
/// this.
pub const MIN_DISTANCE: i32 = 3;

/// Whether the fingerprints of `a` and `b` are closer than [`MIN_DISTANCE`].
pub open spec fn near(a: Pic, b: Pic) -> bool {
    hamming(a.hash@, b.hash@) < MIN_DISTANCE
}

/// Pictures of one fingerprint are near, whatever their names and sizes:
/// copies of one image are always found.
pub proof fn lemma_same_content_is_near(a: Pic, b: Pic)
    requires
        a.hash@ == b.hash@,
    ensures
        near(a, b),
{
    lemma_distance_zero_iff_equal(a.hash@, b.hash@);
}

/// Whether the entries at `i` and `j` form a duplicate pair: `i` comes before
/// `j`, both entries hold a picture, and the two pictures are near.
pub open spec fn is_duplicate_pair(pics: Seq<Option<Pic>>, i: int, j: int) -> bool {
    &&& 0 <= i < j < pics.len()
    &&& pics[i] is Some
    &&& pics[j] is Some
    &&& near(pics[i]->0, pics[j]->0)
}

/// The duplicate pairs whose first member stands at `i` and whose second
/// member stands below `n`, by rising position of the second member.
pub open spec fn row_pairs(pics: Seq<Option<Pic>>, i: int, n: int) -> Seq<(Pic, Pic)>
    decreases n,
{
    if n <= 0 || n <= i + 1 {
        Seq::empty()
    } else if is_duplicate_pair(pics, i, n - 1) {
        row_pairs(pics, i, n - 1).push((pics[i]->0, pics[n - 1]->0))
    } else {
        row_pairs(pics, i, n - 1)
    }
}

/// The duplicate pairs whose first member stands below `m`, by rising
/// position of the first member and then of the second.
pub open spec fn pairs_below(pics: Seq<Option<Pic>>, m: int) -> Seq<(Pic, Pic)>
    decreases m,
{
    if m <= 0 {
        Seq::empty()
    } else {
        pairs_below(pics, m - 1) + row_pairs(pics, m - 1, pics.len() as int)
    }
}

/// Every duplicate pair of a group, each once, in the order in which the
/// pairs of positions `(i, j)` with `i < j` are read row by row.
pub open spec fn duplicate_pairs(pics: Seq<Option<Pic>>) -> Seq<(Pic, Pic)> {
    pairs_below(pics, pics.len() as int)
}

/// A row that starts at an empty entry holds no pair.
proof fn lemma_row_of_none(pics: Seq<Option<Pic>>, i: int, n: int)
    requires
        0 <= i < pics.len(),
        pics[i] is None,
    ensures
        row_pairs(pics, i, n) == Seq::<(Pic, Pic)>::empty(),
    decreases n,
{
    if n > 0 && n > i + 1 {
        lemma_row_of_none(pics, i, n - 1);
    }
}

/// Every member of a row is a duplicate pair that starts at the row's
/// position.
proof fn lemma_row_sound(pics: Seq<Option<Pic>>, i: int, n: int, k: int)
    requires
        0 <= k < row_pairs(pics, i, n).len(),
    ensures
        exists|j: int|
            j < n && #[trigger] is_duplicate_pair(pics, i, j) && row_pairs(pics, i, n)[k] == (
                pics[i]->0,
                pics[j]->0,
            ),
    decreases n,
{
    if is_duplicate_pair(pics, i, n - 1) && k == row_pairs(pics, i, n - 1).len() {
    } else {
        lemma_row_sound(pics, i, n - 1, k);
    }
}

/// A row holds each duplicate pair that starts at its position and ends
/// below its bound.
proof fn lemma_row_complete(pics: Seq<Option<Pic>>, i: int, n: int, j: int)
    requires
        is_duplicate_pair(pics, i, j),
        j < n,
    ensures
        row_pairs(pics, i, n).contains((pics[i]->0, pics[j]->0)),
    decreases n,
{
    let pair = (pics[i]->0, pics[j]->0);
    if j == n - 1 {
        let row = row_pairs(pics, i, n);
        assert(row[row.len() - 1] == pair);
    } else {
        lemma_row_complete(pics, i, n - 1, j);
        let shorter = row_pairs(pics, i, n - 1);
        let at = choose|at: int| 0 <= at < shorter.len() && shorter[at] == pair;
        assert(row_pairs(pics, i, n)[at] == pair);
    }
}

proof fn lemma_below_sound(pics: Seq<Option<Pic>>, m: int, k: int)
    requires
        0 <= k < pairs_below(pics, m).len(),
    ensures
        exists|i: int, j: int|
            i < m && #[trigger] is_duplicate_pair(pics, i, j) && pairs_below(pics, m)[k] == (
                pics[i]->0,
                pics[j]->0,
            ),
    decreases m,
{
    let earlier = pairs_below(pics, m - 1);
    if k < earlier.len() {
        lemma_below_sound(pics, m - 1, k);
    } else {
        lemma_row_sound(pics, m - 1, pics.len() as int, k - earlier.len());
        let j = choose|j: int|
            j < pics.len() && #[trigger] is_duplicate_pair(pics, m - 1, j) && row_pairs(
                pics,
                m - 1,
                pics.len() as int,
            )[k - earlier.len()] == (pics[m - 1]->0, pics[j]->0);
    }
}

proof fn lemma_below_complete(pics: Seq<Option<Pic>>, m: int, i: int, j: int)
    requires
        is_duplicate_pair(pics, i, j),
        i < m,
    ensures
        pairs_below(pics, m).contains((pics[i]->0, pics[j]->0)),
    decreases m,
{
    let pair = (pics[i]->0, pics[j]->0);
    let earlier = pairs_below(pics, m - 1);
    let row = row_pairs(pics, m - 1, pics.len() as int);
    if i == m - 1 {
        lemma_row_complete(pics, i, pics.len() as int, j);
        let at = choose|at: int| 0 <= at < row.len() && row[at] == pair;
        assert((earlier + row)[earlier.len() + at] == pair);
    } else {
        lemma_below_complete(pics, m - 1, i, j);
        let at = choose|at: int| 0 <= at < earlier.len() && earlier[at] == pair;
        assert((earlier + row)[at] == pair);
    }
}

/// Nothing is reported that is not a duplicate pair: each reported pair
/// consists of the pictures at two positions `i < j` of the group, both
/// present and closer than the threshold.
pub proof fn lemma_reported_pairs_are_duplicates(pics: Seq<Option<Pic>>, k: int)
    requires
        0 <= k < duplicate_pairs(pics).len(),
    ensures
        exists|i: int, j: int| #[trigger]
            is_duplicate_pair(pics, i, j) && duplicate_pairs(pics)[k] == (pics[i]->0, pics[j]->0),
{
    lemma_below_sound(pics, pics.len() as int, k);
}

/// No duplicate pair is lost: whenever the pictures at `i < j` are near,
/// the pair is reported, however many other partners either of them has.
pub proof fn lemma_duplicates_are_reported(pics: Seq<Option<Pic>>, i: int, j: int)
    requires
        is_duplicate_pair(pics, i, j),
    ensures
        duplicate_pairs(pics).contains((pics[i]->0, pics[j]->0)),
{
    lemma_below_complete(pics, pics.len() as int, i, j);
}

/// Two copies of one image, alone in a group, give exactly one pair, the
/// first with the second, and their fingerprints are at distance zero.
pub proof fn lemma_two_copies_give_one_pair(a: Pic, b: Pic)
    requires
        a.hash@ == b.hash@,
    ensures
        duplicate_pairs(seq![Some(a), Some(b)]) == seq![(a, b)],
        hamming(a.hash@, b.hash@) == 0,
{
    let pics = seq![Some(a), Some(b)];
    lemma_distance_zero_iff_equal(a.hash@, b.hash@);
    reveal_with_fuel(pairs_below, 3);
    reveal_with_fuel(row_pairs, 3);
    assert(is_duplicate_pair(pics, 0, 1));
    assert(row_pairs(pics, 0, 2) =~= seq![(a, b)]);
    assert(row_pairs(pics, 1, 2) =~= Seq::<(Pic, Pic)>::empty());
    assert(duplicate_pairs(pics) =~= seq![(a, b)]);
}

/// A group of fewer than two entries gives no pair.
pub proof fn lemma_fewer_than_two_give_no_pair(pics: Seq<Option<Pic>>)
    requires
        pics.len() < 2,
    ensures
        duplicate_pairs(pics) == Seq::<(Pic, Pic)>::empty(),
{
    reveal_with_fuel(pairs_below, 2);
    reveal_with_fuel(row_pairs, 2);
    assert(duplicate_pairs(pics) =~= Seq::<(Pic, Pic)>::empty());
}

/// Finds the near-duplicates among the pictures of one group. Entries
/// without a picture stand for files that gave no fingerprint and take part
/// in no pair. Each pair is reported with full copies of both pictures, and
/// a picture that is near to several others appears in a pair with each.
pub fn find_duplicates(pics: &[Option<Pic>]) -> (result: Vec<(Pic, Pic)>)
    ensures
        result@ == duplicate_pairs(pics@),
{
    let mut result: Vec<(Pic, Pic)> = Vec::new();
    let mut i: usize = 0;
    while i < pics.len()
        invariant
            0 <= i <= pics@.len(),
            result@ == pairs_below(pics@, i as int),
        decreases pics@.len() - i,
    {
        let ghost before = result@;
        match &pics[i] {
            Some(p) => {
                let mut j: usize = i + 1;
                while j < pics.len()
                    invariant
                        0 <= i < j <= pics@.len(),
                        pics@[i as int] == Some(*p),
                        result@ == before + row_pairs(pics@, i as int, j as int),
                    decreases pics@.len() - j,
                {
                    match &pics[j] {
                        Some(comp) => {
                            if is_closer(p.hash.as_str(), comp.hash.as_str(), MIN_DISTANCE) {
                                result.push((p.clone(), comp.clone()));
                            }
                        },
                        None => {},
                    }
                    j += 1;
                }
            },
            None => {
                proof {
                    lemma_row_of_none(pics@, i as int, pics@.len() as int);
                }
            },
        }
        i += 1;
    }
    result
}

} // verus!
