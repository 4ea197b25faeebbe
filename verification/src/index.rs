//! Which files are candidates, and which of them are compared with which.
//!
//! A walk over a directory tree is kept as a list of directories still to be
//! read. The caller reads the next directory and hands its entries back; the
//! walk decides what becomes of them.

use vstd::prelude::*;

verus! {

/// How far a walk goes below its root, and how it groups what it finds.
#[derive(Clone, Copy, Debug, PartialEq, Eq, Structural)]
pub enum Recursive {
    /// Only the root directory is read.
    Non,
    /// Subdirectories are read; each directory is a group of its own.
    Segmented,
    /// Subdirectories are read; all files form one group, named by the root.
    Flat,
}

/// The image formats that a file name can announce.
#[derive(Clone, Copy, Debug, PartialEq, Eq, Structural)]
pub enum ImageKind {
    Png,
    Jpeg,
}

/// Whether `name` ends in a dot and `ext`, with something before the dot.
/// For an `ext` without a dot this says that the extension of the file name
/// is `ext`: what follows the last dot, where that dot is not the first
/// symbol of the name.
pub open spec fn has_extension(name: Seq<char>, ext: Seq<char>) -> bool {
    &&& name.len() > ext.len() + 1
    &&& name[name.len() - ext.len() - 1] == '.'
    &&& name.subrange(name.len() - ext.len(), name.len() as int) == ext
}

/// The format that a file name announces by its extension, if any. Only
/// `png`, `jpg` and `jpeg` count, in lower case.
pub open spec fn kind_of_name(name: Seq<char>) -> Option<ImageKind> {
    if has_extension(name, seq!['p', 'n', 'g']) {
        Some(ImageKind::Png)
    } else if has_extension(name, seq!['j', 'p', 'g']) || has_extension(
        name,
        seq!['j', 'p', 'e', 'g'],
    ) {
        Some(ImageKind::Jpeg)
    } else {
        None
    }
}

/// The symbols of `text`, one by one.
fn symbols_of(text: &str) -> (symbols: Vec<char>)
    ensures
        symbols@ == text@,
{
    let mut symbols: Vec<char> = Vec::new();
    for c in it: text.chars()
        invariant
            it.seq() == text@,
            symbols@ == text@.take(it.index() as int),
    {
        symbols.push(c);
    }
    symbols
}

/// Tells from a file name whether the file is a candidate image, and of
/// which format.
pub fn image_kind(name: &str) -> (kind: Option<ImageKind>)
    ensures
        kind == kind_of_name(name@),
{
    let s = symbols_of(name);
    let n: usize = s.len();
    if n > 4 && s[n - 4] == '.' {
        let a: char = s[n - 3];
        let b: char = s[n - 2];
        let c: char = s[n - 1];
        proof {
            assert(s@.subrange(n - 3, n as int) =~= seq![a, b, c]);
        }
        if a == 'p' && b == 'n' && c == 'g' {
            Some(ImageKind::Png)
        } else if a == 'j' && b == 'p' && c == 'g' {
            Some(ImageKind::Jpeg)
        } else {
            None
        }
    } else if n > 5 && s[n - 5] == '.' {
        let a: char = s[n - 4];
        let b: char = s[n - 3];
        let c: char = s[n - 2];
        let d: char = s[n - 1];
        proof {
            assert(s@.subrange(n - 4, n as int) =~= seq![a, b, c, d]);
        }
        if a == 'j' && b == 'p' && c == 'e' && d == 'g' {
            Some(ImageKind::Jpeg)
        } else {
            None
        }
    } else {
        None
    }
}

} // verus!
