//! What is needed to apply a hierarchy to the file system: the names and paths of its nodes and
//! the errors that applying meets.

use vstd::prelude::*;
use vstd::string::StringExecFns;
use std::path::PathBuf;
use crate::common::concat;
use crate::hierarchy::lazy::GroupRef;

verus! {

/// An error of input or output.
#[verifier::external_type_specification]
#[verifier::external_body]
pub struct ExIoError(std::io::Error);

/// Leaf data of a hiearchy to be applied
pub struct ApplyLeaf {
    /// What should the file be renamed to
    pub target_name: String,
    pub original_path: PathBuf,
}

/// Node data of a hierarchy to be applied.
pub struct NodeData {
    /// How to name the node, without its extension
    /// Will be sanitised
    pub target_name: String,
}

/// Leaf data of a hierarchy to be applied.
pub struct LeafData {
    /// Where is the original file
    pub original_path: PathBuf,
}

/// A lazy hierarchy that can be applied to the file system.
pub trait LZForApply: GroupRef<
    NodeMetadata = Result<NodeData, <Self as LZForApply>::Err>,
    LeafMetadata = Result<LeafData, <Self as LZForApply>::Err>,
    StructureErr = <Self as LZForApply>::Err,
> {
    type Err;
}

/// Why applying a hierarchy failed.
pub enum ApplyError<E> {
    /// Transferring the file (first path) to the second path failed.
    FileIoError(PathBuf, PathBuf, std::io::Error),
    /// Creating the directory failed.
    MkDirError(PathBuf, std::io::Error),
    HierarchyError(E),
}

/// What `sanitise_file_name::sanitise` makes of a name: a name suitable for a file.
pub uninterp spec fn sanitised(name: Seq<char>) -> Seq<char>;

/// `sanitise_file_name::sanitise`: the name made suitable for a file (with the crate's default
/// options). The crate documents that the result is never empty.
#[verifier::external_body]
fn sanitise_name(name: &str) -> (r: String)
    ensures
        r@ == sanitised(name@),
        r@.len() >= 1,
{
    sanitise_file_name::sanitise(name)
}

/// The decimal digits of `n`.
pub open spec fn decimal(n: nat) -> Seq<char>
    decreases n,
{
    if n < 10 {
        seq![(48 + n) as char]
    } else {
        decimal(n / 10).push((48 + n % 10) as char)
    }
}

/// The decimal digits of `n`, with zeros before them up to `width` characters.
pub open spec fn zero_padded(n: nat, width: nat) -> Seq<char> {
    let d = decimal(n);
    if d.len() >= width {
        d
    } else {
        Seq::new((width - d.len()) as nat, |i: int| '0') + d
    }
}

/// The decimal digit `d` as text.
fn digit_text(d: usize) -> (r: &'static str)
    requires
        d < 10,
    ensures
        r@ == seq![(48 + d) as char],
{
    proof {
        reveal_strlit("0");
        reveal_strlit("1");
        reveal_strlit("2");
        reveal_strlit("3");
        reveal_strlit("4");
        reveal_strlit("5");
        reveal_strlit("6");
        reveal_strlit("7");
        reveal_strlit("8");
        reveal_strlit("9");
    }
    match d {
        0 => "0",
        1 => "1",
        2 => "2",
        3 => "3",
        4 => "4",
        5 => "5",
        6 => "6",
        7 => "7",
        8 => "8",
        _ => "9",
    }
}

/// `n` in decimal.
fn decimal_text(n: usize) -> (r: String)
    ensures
        r@ == decimal(n as nat),
    decreases n,
{
    if n < 10 {
        digit_text(n).to_owned()
    } else {
        let mut s = decimal_text(n / 10);
        s.append(digit_text(n % 10));
        s
    }
}

proof fn lemma_decimal_nonempty(n: nat)
    ensures
        decimal(n).len() >= 1,
    decreases n,
{
    if n >= 10 {
        lemma_decimal_nonempty(n / 10);
    }
}

/// `_` followed by `idx` in decimal, zero-padded to four digits.
fn index_suffix(idx: usize) -> (r: String)
    ensures
        r@ == seq!['_'] + zero_padded(idx as nat, 4),
{
    let digits = decimal_text(idx);
    let zeros: usize = if idx < 10 {
        3
    } else if idx < 100 {
        2
    } else if idx < 1000 {
        1
    } else {
        0
    };
    let ghost d = decimal(idx as nat);
    proof {
        reveal_strlit("_");
        reveal_strlit("0");
        let n = idx as nat;
        lemma_decimal_nonempty(n / 1000);
        if n >= 10 {
            assert(decimal(n).len() == decimal(n / 10).len() + 1);
        }
        if n >= 100 {
            assert(decimal(n / 10).len() == decimal(n / 10 / 10).len() + 1);
            assert(n / 10 / 10 == n / 100);
        }
        if n >= 1000 {
            assert(decimal(n / 100).len() == decimal(n / 100 / 10).len() + 1);
            assert(n / 100 / 10 == n / 1000);
        }
        assert(zeros == 0 ==> d.len() >= 4);
        assert(zeros > 0 ==> d.len() + zeros == 4);
    }
    let mut r = "_".to_owned();
    let mut j: usize = 0;
    while j < zeros
        invariant
            j <= zeros,
            r@ == seq!['_'] + Seq::new(j as nat, |i: int| '0'),
        decreases zeros - j,
    {
        let ghost before = r@;
        r.append("0");
        proof {
            reveal_strlit("0");
            assert(r@ == before + seq!['0']);
            assert(Seq::new((j + 1) as nat, |i: int| '0') =~= Seq::new(j as nat, |i: int| '0').push('0'));
            assert(r@ =~= seq!['_'] + Seq::new((j + 1) as nat, |i: int| '0'));
        }
        j = j + 1;
    }
    r.append(digits.as_str());
    proof {
        if d.len() >= 4 {
            assert(Seq::new(0nat, |i: int| '0') =~= Seq::<char>::empty());
            assert(r@ =~= seq!['_'] + d);
        } else {
            assert(r@ =~= seq!['_'] + (Seq::new((4 - d.len()) as nat, |i: int| '0') + d));
        }
    }
    r
}

/// What follows the name of a file: a dot and the extension of the original file, if it has one.
pub open spec fn extension_suffix(extension: Option<Seq<char>>) -> Seq<char> {
    match extension {
        Some(e) => seq!['.'] + e,
        None => Seq::empty(),
    }
}

/// The name under which a node named `target_name` is applied: the name, sanitised; then, for
/// the `attempt`-th retry after a name was taken, `_` and the attempt zero-padded to four digits;
/// then the extension of the original file (for files).
pub open spec fn candidate_name(target_name: Seq<char>, extension: Option<Seq<char>>, attempt: Option<usize>) -> Seq<char> {
    let base = sanitised(target_name);
    let numbered = match attempt {
        Some(i) => base + seq!['_'] + zero_padded(i as nat, 4),
        None => base,
    };
    numbered + extension_suffix(extension)
}

/// The view of an optional string slice.
pub open spec fn opt_str_view(s: Option<&str>) -> Option<Seq<char>> {
    match s {
        Some(t) => Some(t@),
        None => None,
    }
}

/// The file name under which a node named `target_name` is applied (see [`candidate_name`]).
pub fn target_file_name(target_name: &str, extension: Option<&str>, attempt: Option<usize>) -> (r: String)
    ensures
        r@ == candidate_name(target_name@, opt_str_view(extension), attempt),
{
    let base = sanitise_name(target_name);
    let numbered = match attempt {
        Some(i) => {
            let suffix = index_suffix(i);
            concat(base.as_str(), suffix.as_str())
        },
        None => base,
    };
    let ext = match extension {
        Some(e) => {
            proof {
                reveal_strlit(".");
            }
            concat(".", e)
        },
        None => String::new(),
    };
    let r = concat(numbered.as_str(), ext.as_str());
    proof {
        let b = sanitised(target_name@);
        match attempt {
            Some(i) => {
                assert(numbered@ == b + (seq!['_'] + zero_padded(i as nat, 4)));
                assert(b + (seq!['_'] + zero_padded(i as nat, 4)) =~= b + seq!['_'] + zero_padded(i as nat, 4));
            },
            None => {},
        }
        match extension {
            Some(e) => {
                assert("."@ =~= seq!['.']);
            },
            None => {},
        }
    }
    r
}

} // verus!
