//! The lines of the printed tree: what stands before each name and after it.

use crate::aggregate::{add_clamped, clamp};
use crate::config::Args;
use crate::format::{decimal, push_decimal, size, size_text};
use crate::record::opt_view;
use crate::text::text_equals;
use crate::tree::{last_connector, EntryView, Tree, TreeEntry};
use vstd::prelude::*;
use vstd::string::*;

verus! {

/// One printed line, column by column.
#[derive(Debug)]
pub struct TreeLine {
    pub permissions: String,
    /// The vertical lines of the directories that the entry lies in.
    pub prefix: String,
    pub connector: String,
    pub icon: String,
    pub name: String,
    pub path: String,
    pub is_directory: bool,
    /// Size and counts, as the options ask for them.
    pub info: String,
}

/// A printed line with its strings as character sequences.
pub struct LineView {
    pub permissions: Seq<char>,
    pub prefix: Seq<char>,
    pub connector: Seq<char>,
    pub icon: Seq<char>,
    pub name: Seq<char>,
    pub path: Seq<char>,
    pub is_directory: bool,
    pub info: Seq<char>,
}

impl View for TreeLine {
    type V = LineView;

    open spec fn view(&self) -> LineView {
        LineView {
            permissions: self.permissions@,
            prefix: self.prefix@,
            connector: self.connector@,
            icon: self.icon@,
            name: self.name@,
            path: self.path@,
            is_directory: self.is_directory,
            info: self.info@,
        }
    }
}

/// The lines of a tree with the totals printed below it.
#[derive(Debug)]
pub struct Printout {
    pub lines: Vec<TreeLine>,
    pub dir_count: usize,
    pub file_count: usize,
    /// Sum of the sizes of the entries of depth 1.
    pub root_size: u64,
}

/// How many levels enclose an entry of the given depth.
pub open spec fn levels_above(depth: usize) -> int {
    if depth == 0 {
        0
    } else {
        depth - 1
    }
}

/// For each level down to the entry before position `upto`, whether the
/// entry on that level was the last of its siblings.
pub open spec fn last_flags(entries: Seq<TreeEntry>, upto: int) -> Seq<bool>
    decreases upto,
{
    if upto <= 0 {
        Seq::empty()
    } else {
        let before = last_flags(entries, upto - 1);
        let keep = levels_above(entries[upto - 1].depth);
        let cut = if before.len() <= keep {
            before
        } else {
            before.take(keep)
        };
        cut.push(entries[upto - 1].connector@ == last_connector())
    }
}

/// The flags of the levels that enclose the entry at `i`.
pub open spec fn flags_before(entries: Seq<TreeEntry>, i: int) -> Seq<bool> {
    last_flags(entries, i + 1).drop_last()
}

/// What is drawn for the enclosing levels: blank below a last sibling, a
/// vertical line below any other.
pub open spec fn prefix_text(flags: Seq<bool>) -> Seq<char>
    decreases flags.len(),
{
    if flags.len() == 0 {
        Seq::empty()
    } else {
        prefix_text(flags.drop_last()) + if flags.last() {
            "    "@
        } else {
            "│   "@
        }
    }
}

/// The number of an optional count, 0 where there is none.
pub open spec fn count_or_zero(n: Option<u64>) -> nat {
    match n {
        Some(v) => v as nat,
        None => 0,
    }
}

/// What follows the name: with `info` the size, and for a directory its
/// counts; else with `size` the size of a file; else nothing.
pub open spec fn info_text(entry: EntryView, args: Args) -> Seq<char> {
    if args.info {
        if entry.is_directory {
            "  [ "@ + size_text(count_or_zero(entry.size) as u64) + "  "@ + decimal(
                count_or_zero(entry.dirs),
            ) + " dirs, "@ + decimal(count_or_zero(entry.files)) + " files ]"@
        } else {
            "  [ "@ + size_text(count_or_zero(entry.size) as u64) + " ]"@
        }
    } else if args.size && !entry.is_directory {
        match entry.size {
            Some(s) => " ("@ + size_text(s) + ")"@,
            None => Seq::empty(),
        }
    } else {
        Seq::empty()
    }
}

/// The text of an optional string, empty where there is none.
pub open spec fn text_or_empty(s: Option<Seq<char>>) -> Seq<char> {
    match s {
        Some(t) => t,
        None => Seq::empty(),
    }
}

/// The printed line of the entry at `i`.
pub open spec fn line_at(entries: Seq<TreeEntry>, args: Args, i: int) -> LineView {
    let entry = entries[i]@;
    LineView {
        permissions: text_or_empty(entry.permissions),
        prefix: prefix_text(flags_before(entries, i)),
        connector: entry.connector,
        icon: text_or_empty(entry.icon),
        name: entry.name,
        path: entry.path,
        is_directory: entry.is_directory,
        info: info_text(entry, args),
    }
}

/// Number of directories among the first `upto` entries.
pub open spec fn dirs_upto(entries: Seq<TreeEntry>, upto: int) -> nat
    decreases upto,
{
    if upto <= 0 {
        0
    } else {
        dirs_upto(entries, upto - 1) + if entries[upto - 1].is_directory {
            1nat
        } else {
            0nat
        }
    }
}

/// Sum of the sizes of the entries of depth 1 among the first `upto`.
pub open spec fn top_size_upto(entries: Seq<TreeEntry>, upto: int) -> nat
    decreases upto,
{
    if upto <= 0 {
        0
    } else {
        top_size_upto(entries, upto - 1) + if entries[upto - 1].depth == 1 {
            count_or_zero(entries[upto - 1].size)
        } else {
            0nat
        }
    }
}

fn push_prefix(out: &mut String, flags: &Vec<bool>, upto: usize)
    requires
        upto <= flags@.len(),
    ensures
        final(out)@ == old(out)@ + prefix_text(flags@.take(upto as int)),
{
    let mut k: usize = 0;
    while k < upto
        invariant
            k <= upto <= flags@.len(),
            out@ == old(out)@ + prefix_text(flags@.take(k as int)),
        decreases upto - k,
    {
        if flags[k] {
            out.append("    ");
        } else {
            out.append("│   ");
        }
        proof {
            let next = flags@.take(k + 1);
            assert(next.drop_last() =~= flags@.take(k as int));
        }
        k += 1;
    }
}

fn number_of(n: Option<u64>) -> (v: u64)
    ensures
        v == count_or_zero(n),
{
    match n {
        Some(v) => v,
        None => 0,
    }
}

fn info_of_entry(entry: &TreeEntry, args: &Args) -> (text: String)
    ensures
        text@ == info_text(entry@, *args),
{
    let mut text = String::new();
    if args.info {
        text.append("  [ ");
        let formatted = size(number_of(entry.size));
        text.append(formatted.as_str());
        if entry.is_directory {
            text.append("  ");
            push_decimal(&mut text, number_of(entry.dirs) as u128);
            text.append(" dirs, ");
            push_decimal(&mut text, number_of(entry.files) as u128);
            text.append(" files ]");
        } else {
            text.append(" ]");
        }
    } else if args.size && !entry.is_directory {
        if let Some(s) = entry.size {
            text.append(" (");
            let formatted = size(s);
            text.append(formatted.as_str());
            text.append(")");
        }
    }
    text
}

fn text_of(s: &Option<String>) -> (text: String)
    ensures
        text@ == text_or_empty(opt_view(*s)),
{
    match s {
        Some(t) => t.clone(),
        None => String::new(),
    }
}

/// Lays out the lines of the tree and counts what it lists.
pub fn print_tree(tree: &Tree, args: &Args) -> (out: Printout)
    ensures
        out.lines@.len() == tree.tree_info@.len(),
        forall|i: int|
            0 <= i < out.lines@.len() ==> (#[trigger] out.lines@[i])@ == line_at(
                tree.tree_info@,
                *args,
                i,
            ),
        out.dir_count == dirs_upto(tree.tree_info@, tree.tree_info@.len() as int),
        out.dir_count + out.file_count == tree.tree_info@.len(),
        out.root_size == clamp(top_size_upto(tree.tree_info@, tree.tree_info@.len() as int)),
{
    let count: usize = tree.tree_info.len();
    let mut lines: Vec<TreeLine> = Vec::new();
    let mut flags: Vec<bool> = Vec::new();
    let mut dir_count: usize = 0;
    let mut file_count: usize = 0;
    let mut root_size: u64 = 0;
    let mut i: usize = 0;
    while i < count
        invariant
            i <= count,
            count == tree.tree_info@.len(),
            lines@.len() == i,
            flags@ == last_flags(tree.tree_info@, i as int),
            forall|j: int|
                0 <= j < i ==> (#[trigger] lines@[j])@ == line_at(tree.tree_info@, *args, j),
            dir_count == dirs_upto(tree.tree_info@, i as int),
            dir_count + file_count == i,
            root_size == clamp(top_size_upto(tree.tree_info@, i as int)),
        decreases count - i,
    {
        let entry = &tree.tree_info[i];
        let keep: usize = if entry.depth == 0 {
            0
        } else {
            entry.depth - 1
        };
        flags.truncate(keep);
        let ghost cut = flags@;
        flags.push(text_equals(entry.connector.as_str(), "└──"));
        proof {
            assert(flags@.take(cut.len() as int) =~= flags_before(tree.tree_info@, i as int));
        }
        let mut prefix = String::new();
        push_prefix(&mut prefix, &flags, flags.len() - 1);
        if entry.is_directory {
            dir_count += 1;
        } else {
            file_count += 1;
        }
        if entry.depth == 1 {
            root_size = add_clamped(root_size, number_of(entry.size));
        }
        lines.push(
            TreeLine {
                permissions: text_of(&entry.permissions),
                prefix,
                connector: entry.connector.clone(),
                icon: text_of(&entry.icon),
                name: entry.name.clone(),
                path: entry.path.clone(),
                is_directory: entry.is_directory,
                info: info_of_entry(entry, args),
            },
        );
        i += 1;
    }
    Printout { lines, dir_count, file_count, root_size }
}

} // verus!
