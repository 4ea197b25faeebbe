//! What is said of a group once it was searched, and what is removed.

use vstd::prelude::*;
use vstd::string::StringExecFns;
use crate::matcher::{duplicate_pairs, find_duplicates};
use crate::pic::{size_label, size_text, Pic};

verus! {

/// The member of a duplicate pair that is given up: the one with the
/// strictly smaller file, and the second where the files are of one size.
pub open spec fn victim(pair: (Pic, Pic)) -> Pic {
    if pair.0.size < pair.1.size {
        pair.0
    } else {
        pair.1
    }
}

/// The member of a duplicate pair that stays.
pub open spec fn survivor(pair: (Pic, Pic)) -> Pic {
    if pair.0.size < pair.1.size {
        pair.1
    } else {
        pair.0
    }
}

/// The names of the files to remove for a list of pairs: the victim of each
/// pair, in the order of the pairs. A file that loses in several pairs is
/// named once for each.
pub open spec fn victims(pairs: Seq<(Pic, Pic)>) -> Seq<Seq<char>> {
    pairs.map_values(|pair: (Pic, Pic)| victim(pair).name@)
}

/// The line of a report that shows one pair.
pub open spec fn pair_line(pair: (Pic, Pic)) -> Seq<char> {
    "\t"@ + pair.0.name@ + ", "@ + size_text(pair.0.size) + " -- "@ + pair.1.name@ + ", "@
        + size_text(pair.1.size)
}

/// The lines of a report, each on a line of its own below what precedes it.
pub open spec fn pair_lines(pairs: Seq<(Pic, Pic)>) -> Seq<char>
    decreases pairs.len(),
{
    if pairs.len() == 0 {
        Seq::empty()
    } else {
        pair_lines(pairs.drop_last()) + "\n"@ + pair_line(pairs.last())
    }
}

/// The report on one group: its label, and either the remark that nothing
/// was found or one line for each duplicate pair.
pub open spec fn report_text(label: Seq<char>, pairs: Seq<(Pic, Pic)>) -> Seq<char> {
    if pairs.len() == 0 {
        label + ": no duplicates found"@
    } else {
        label + ":"@ + pair_lines(pairs)
    }
}

/// The picture of a pair that is given up when duplicates are removed. The
/// file that stays is never smaller than the one that goes.
pub fn discard<'a>(first: &'a Pic, second: &'a Pic) -> (loser: &'a Pic)
    ensures
        *loser == victim((*first, *second)),
        loser.size <= survivor((*first, *second)).size,
{
    if first.size < second.size {
        first
    } else {
        second
    }
}

/// Writes the report on one group.
pub fn report(label: &str, pairs: &Vec<(Pic, Pic)>) -> (text: String)
    ensures
        text@ == report_text(label@, pairs@),
{
    let mut text = String::from_str(label);
    if pairs.len() == 0 {
        text.append(": no duplicates found");
        return text;
    }
    text.append(":");
    let mut i: usize = 0;
    while i < pairs.len()
        invariant
            0 <= i <= pairs@.len(),
            text@ == label@ + ":"@ + pair_lines(pairs@.take(i as int)),
        decreases pairs@.len() - i,
    {
        let first = &pairs[i].0;
        let second = &pairs[i].1;
        text.append("\n");
        text.append("\t");
        text.append(first.name.as_str());
        text.append(", ");
        text.append(size_label(first.size).as_str());
        text.append(" -- ");
        text.append(second.name.as_str());
        text.append(", ");
        text.append(size_label(second.size).as_str());
        proof {
            assert(pairs@.take(i + 1).drop_last() =~= pairs@.take(i as int));
        }
        i += 1;
    }
    proof {
        assert(pairs@.take(pairs@.len() as int) =~= pairs@);
    }
    text
}

/// The names of the files that the pairs give up, pair by pair.
pub fn removals(pairs: &Vec<(Pic, Pic)>) -> (names: Vec<String>)
    ensures
        names.deep_view() == victims(pairs@),
{
    let mut names: Vec<String> = Vec::new();
    let mut i: usize = 0;
    while i < pairs.len()
        invariant
            0 <= i <= pairs@.len(),
            names.deep_view() == victims(pairs@.take(i as int)),
        decreases pairs@.len() - i,
    {
        let loser = discard(&pairs[i].0, &pairs[i].1);
        names.push(loser.name.clone());
        proof {
            assert(victims(pairs@.take(i + 1)) =~= victims(pairs@.take(i as int)).push(
                victim(pairs@[i as int]).name@,
            ));
        }
        i += 1;
    }
    names
}

/// What the search of one group leads to.
pub struct Processed {
    /// The duplicate pairs that were found.
    pub pairs: Vec<(Pic, Pic)>,
    /// The files to remove, in the order in which to remove them.
    pub removals: Vec<String>,
    /// The report to print.
    pub report: String,
}

/// Searches one group for duplicates and says what to print and, where
/// removal was asked for, which files to remove. Nothing is removed here.
pub fn process_pics(dir: &str, pics: &[Option<Pic>], rm: bool) -> (done: Processed)
    ensures
        done.pairs@ == duplicate_pairs(pics@),
        done.report@ == report_text(dir@, duplicate_pairs(pics@)),
        done.removals.deep_view() == if rm {
            victims(duplicate_pairs(pics@))
        } else {
            Seq::empty()
        },
{
    let pairs = find_duplicates(pics);
    let text = report(dir, &pairs);
    let removals = if rm {
        removals(&pairs)
    } else {
        let none: Vec<String> = Vec::new();
        none
    };
    Processed { pairs, removals, report: text }
}

/// How a run ended.
#[derive(Clone, Copy, Debug, PartialEq, Eq, Structural)]
pub enum Outcome {
    /// Every directory was read and no duplicate was found.
    Clean,
    /// Every directory was read and duplicates were found.
    Duplicates,
    /// A directory could not be read.
    Aborted,
}

/// The outcome of a run from what it counted.
pub open spec fn outcome_of(pairs: nat, unreadable: nat) -> Outcome {
    if unreadable > 0 {
        Outcome::Aborted
    } else if pairs > 0 {
        Outcome::Duplicates
    } else {
        Outcome::Clean
    }
}

/// The exit status that stands for an outcome.
pub open spec fn status_of(outcome: Outcome) -> u8 {
    match outcome {
        Outcome::Clean => 0,
        Outcome::Duplicates => 1,
        Outcome::Aborted => 2,
    }
}

/// Decides how a run ended from the number of duplicate pairs it found and
/// the number of directories it could not read.
pub fn outcome(pairs: usize, unreadable: usize) -> (result: Outcome)
    ensures
        result == outcome_of(pairs as nat, unreadable as nat),
{
    if unreadable > 0 {
        Outcome::Aborted
    } else if pairs > 0 {
        Outcome::Duplicates
    } else {
        Outcome::Clean
    }
}

/// The exit status of a run. No two outcomes share one.
pub fn exit_status(outcome: Outcome) -> (status: u8)
    ensures
        status == status_of(outcome),
        forall|other: Outcome| status_of(other) == status ==> other == outcome,
{
    match outcome {
        Outcome::Clean => 0,
        Outcome::Duplicates => 1,
        Outcome::Aborted => 2,
    }
}

} // verus!
