//! The records that a directory scan hands to the library, as plain values.

use vstd::prelude::*;
use vstd::string::*;

verus! {

/// What the file system knows of one node, where it could be read.
#[derive(Debug, Clone, Copy, PartialEq, Eq)]
pub struct Metadata {
    /// Length in bytes.
    pub len: u64,
    /// Whether the node is a directory.
    pub is_dir: bool,
    /// Unix mode bits, where the platform has them.
    pub mode: Option<u32>,
    /// Last access, in nanoseconds since the Unix epoch.
    pub accessed: Option<i128>,
    /// Last modification, in nanoseconds since the Unix epoch.
    pub modified: Option<i128>,
    /// Creation, in nanoseconds since the Unix epoch.
    pub created: Option<i128>,
}

/// One file or directory found by a scan.
#[derive(Debug)]
pub struct RawRecord {
    /// Full path of the node.
    pub path: String,
    /// Path of the containing directory, if the path has one.
    pub parent: Option<String>,
    /// Final component of the path.
    pub file_name: String,
    /// The path as seen from the scan root, where the node lies below it.
    pub relative: Option<String>,
    /// Distance from the scan root; the root's direct children have depth 1.
    pub depth: usize,
    /// Whether the node is a directory.
    pub is_dir: bool,
    /// Metadata, absent where it could not be read.
    pub metadata: Option<Metadata>,
}

/// The characters of an optional string.
pub open spec fn opt_view(s: Option<String>) -> Option<Seq<char>> {
    match s {
        Some(t) => Some(t@),
        None => None,
    }
}

/// Copies an optional string.
pub fn clone_opt_string(s: &Option<String>) -> (copy: Option<String>)
    ensures
        copy == *s,
{
    match s {
        Some(t) => Some(t.clone()),
        None => None,
    }
}

impl RawRecord {
    /// The size that the record contributes: its length if it is a file whose
    /// metadata could be read, else 0.
    pub open spec fn own_size(self) -> u64 {
        match self.metadata {
            Some(m) => if self.is_dir {
                0
            } else {
                m.len
            },
            None => 0,
        }
    }

    /// Computes `own_size`.
    pub fn file_size(&self) -> (size: u64)
        ensures
            size == self.own_size(),
    {
        match self.metadata {
            Some(m) => if self.is_dir {
                0
            } else {
                m.len
            },
            None => 0,
        }
    }

    /// A copy of the record, equal to it in every field.
    pub fn duplicate(&self) -> (copy: RawRecord)
        ensures
            copy == *self,
    {
        RawRecord {
            path: self.path.clone(),
            parent: clone_opt_string(&self.parent),
            file_name: self.file_name.clone(),
            relative: clone_opt_string(&self.relative),
            depth: self.depth,
            is_dir: self.is_dir,
            metadata: self.metadata,
        }
    }
}

/// Position of the last full stop in `name`, or -1 if it has none.
pub open spec fn last_dot(name: Seq<char>) -> int
    decreases name.len(),
{
    if name.len() == 0 {
        -1
    } else if name.last() == '.' {
        name.len() - 1
    } else {
        last_dot(name.drop_last())
    }
}

/// The extension of a file name: what follows its last full stop, unless the
/// name has none, has its only one in front, or is `..`.
pub open spec fn extension(name: Seq<char>) -> Option<Seq<char>> {
    let dot = last_dot(name);
    if dot <= 0 || name == seq!['.', '.'] {
        None
    } else {
        Some(name.skip(dot + 1))
    }
}

/// The characters of a string, one element each.
pub fn chars_of(s: &str) -> (chars: Vec<char>)
    ensures
        chars@ == s@,
{
    let mut chars: Vec<char> = Vec::new();
    for c in it: s.chars()
        invariant
            chars@ == it.seq().take(it.index() as int),
            it.seq() == s@,
    {
        chars.push(c);
    }
    chars
}

/// Computes the extension of a file name.
pub fn extension_of(name: &str) -> (ext: Option<String>)
    ensures
        opt_view(ext) == extension(name@),
{
    let chars = chars_of(name);
    let n: usize = chars.len();
    let mut i: usize = n;
    assert(chars@.take(n as int) =~= chars@);
    while i > 0 && chars[i - 1] != '.'
        invariant
            i <= n,
            n == chars@.len(),
            chars@ == name@,
            last_dot(chars@) == last_dot(chars@.take(i as int)),
        decreases i,
    {
        proof {
            assert(chars@.take(i as int).drop_last() =~= chars@.take(i - 1));
        }
        i -= 1;
    }
    // `i` is one past the last full stop, or 0 where there is none.
    if i <= 1 || (n == 2 && chars[0] == '.') {
        proof {
            if n == 2 && chars[0] == '.' && i == 2 {
                assert(chars@ =~= seq!['.', '.']);
            }
        }
        None
    } else {
        Some(String::from_str(name.substring_char(i, n)))
    }
}

} // verus!
