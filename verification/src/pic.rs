//! The record kept for one picture, and the text of its size.

use vstd::prelude::*;
use vstd::string::StringExecFns;

verus! {

/// One image file that was fingerprinted.
///
/// `name` identifies the file in reports and is the path that a removal
/// acts on; `hash` is its fingerprint; `size` is the length of the file in
/// bytes when it was scanned.
#[derive(Debug)]
pub struct Pic {
    pub name: String,
    pub hash: String,
    pub size: u64,
}

/// The bytes of a kilobyte.
pub const KB: u64 = 1024;

/// The bytes of a megabyte.
pub const MB: u64 = 1024 * 1024;

/// The bytes of a gigabyte.
pub const GB: u64 = 1024 * 1024 * 1024;

/// The bytes of a terabyte.
pub const TB: u64 = 1024 * 1024 * 1024 * 1024;

/// The decimal digit that stands for `d`, for `d` below ten.
pub open spec fn digit(d: int) -> char {
    seq!['0', '1', '2', '3', '4', '5', '6', '7', '8', '9'][d]
}

/// Decimal notation of `n`, most significant digit first, without leading
/// zeros.
pub open spec fn decimal(n: nat) -> Seq<char>
    decreases n,
{
    if n < 10 {
        seq![digit(n as int)]
    } else {
        decimal(n / 10).push(digit((n % 10) as int))
    }
}

/// A size in bytes as a reader sees it: whole bytes below a kilobyte, else
/// whole kilobytes, megabytes or gigabytes, each quotient rounded down. From
/// a terabyte on the size is given in bytes again.
pub open spec fn size_text(size: u64) -> Seq<char> {
    if size < KB {
        decimal(size as nat) + "b"@
    } else if size < MB {
        decimal((size / KB) as nat) + "kb"@
    } else if size < GB {
        decimal((size / MB) as nat) + "mb"@
    } else if size < TB {
        decimal((size / GB) as nat) + "gb"@
    } else {
        decimal(size as nat) + "b"@
    }
}

/// The text of one decimal digit.
fn digit_text(d: u64) -> (text: &'static str)
    requires
        d < 10,
    ensures
        text@ == seq![digit(d as int)],
{
    proof {
        reveal_strlit("0");
        reveal_strlit("1");
        reveal_strlit("2");
        reveal_strlit("3");
        reveal_strlit("4");
        reveal_strlit("5");
        reveal_strlit("6");
        reveal_strlit("7");
        reveal_strlit("8");
        reveal_strlit("9");
    }
    if d == 0 {
        "0"
    } else if d == 1 {
        "1"
    } else if d == 2 {
        "2"
    } else if d == 3 {
        "3"
    } else if d == 4 {
        "4"
    } else if d == 5 {
        "5"
    } else if d == 6 {
        "6"
    } else if d == 7 {
        "7"
    } else if d == 8 {
        "8"
    } else {
        "9"
    }
}

/// Writes `n` in decimal notation.
pub fn decimal_text(n: u64) -> (text: String)
    ensures
        text@ == decimal(n as nat),
    decreases n,
{
    if n < 10 {
        String::from_str(digit_text(n))
    } else {
        let mut text = decimal_text(n / 10);
        text.append(digit_text(n % 10));
        text
    }
}

/// Writes a size in bytes as a reader sees it.
pub fn size_label(size: u64) -> (text: String)
    ensures
        text@ == size_text(size),
{
    if size < KB {
        decimal_text(size).concat("b")
    } else if size < MB {
        decimal_text(size / KB).concat("kb")
    } else if size < GB {
        decimal_text(size / MB).concat("mb")
    } else if size < TB {
        decimal_text(size / GB).concat("gb")
    } else {
        decimal_text(size).concat("b")
    }
}

impl Clone for Pic {
    fn clone(&self) -> (copy: Self)
        ensures
            copy == *self,
    {
        Pic { name: self.name.clone(), hash: self.hash.clone(), size: self.size }
    }
}

impl Pic {
    /// Whether two pictures hold the same image content: their fingerprints
    /// agree symbol for symbol. Names and sizes play no part, so this is not
    /// an identity of files.
    pub fn same_content(&self, other: &Pic) -> (same: bool)
        ensures
            same == (self.hash@ == other.hash@),
    {
        self.hash == other.hash
    }

    /// The size of the file as it is shown in a report.
    pub fn find_size(self) -> (text: String)
        ensures
            text@ == size_text(self.size),
    {
        size_label(self.size)
    }
}

} // verus!
