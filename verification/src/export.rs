//! The nodes that an export writes, one per listed entry.

use crate::config::Args;
use crate::dir::{get_permission, permission_line};
use crate::hierarchy::{children_of, lemma_children_below, ChildIndex};
use crate::order::all_below;
use crate::record::{opt_view, Metadata, RawRecord};
use crate::text::{lowercase, text_equals, to_lowercase};
use crate::tree::{Tree, TreeEntry};
use vstd::prelude::*;
use vstd::string::*;

verus! {

/// One exported file or directory.
#[derive(Debug)]
pub struct ExportNode {
    pub name: String,
    pub path: String,
    pub is_dir: bool,
    pub size: Option<u64>,
    pub dir_count: Option<u64>,
    pub file_count: Option<u64>,
    pub permissions: String,
    pub children: Option<Vec<ExportNode>>,
}

/// The format of an export.
#[derive(Debug, Clone, Copy, PartialEq, Eq, Structural)]
pub enum OutputFormat {
    Json,
    Xml,
    Csv,
}

/// The format that a name stands for, case set aside.
pub open spec fn format_named(name: Option<Seq<char>>) -> Option<OutputFormat> {
    match name {
        Some(n) => if lowercase(n) == "json"@ {
            Some(OutputFormat::Json)
        } else if lowercase(n) == "xml"@ {
            Some(OutputFormat::Xml)
        } else if lowercase(n) == "csv"@ {
            Some(OutputFormat::Csv)
        } else {
            None
        },
        None => None,
    }
}

impl OutputFormat {
    /// Reads the format from its name: `json`, `xml` or `csv` in any case.
    pub fn from_str(s: &Option<String>) -> (format: Option<Self>)
        ensures
            format == format_named(opt_view(*s)),
    {
        match s {
            Some(name) => {
                let lower = to_lowercase(name.as_str());
                if text_equals(lower.as_str(), "json") {
                    Some(OutputFormat::Json)
                } else if text_equals(lower.as_str(), "xml") {
                    Some(OutputFormat::Xml)
                } else if text_equals(lower.as_str(), "csv") {
                    Some(OutputFormat::Csv)
                } else {
                    None
                }
            },
            None => None,
        }
    }
}

/// The path that an export shows for a record: `./root` and what follows
/// the root where the record lies below it, else the record's own path.
pub open spec fn display_path(record: RawRecord, root_name: Seq<char>) -> Seq<char> {
    match record.relative {
        Some(rel) => if rel@.len() == 0 {
            "./"@ + root_name
        } else {
            "./"@ + root_name + "/"@ + rel@
        },
        None => record.path@,
    }
}

/// What a flat export shows of a listed record.
pub struct FlatNode {
    pub name: Seq<char>,
    pub path: Seq<char>,
    pub is_dir: bool,
    pub size: Option<u64>,
    pub dir_count: Option<u64>,
    pub file_count: Option<u64>,
    pub permissions: Seq<char>,
}

/// The flat node of a record with its tree entry.
pub open spec fn flat_node(record: RawRecord, info: TreeEntry, args: Args, root_name: Seq<char>) -> FlatNode {
    FlatNode {
        name: record.file_name@,
        path: display_path(record, root_name),
        is_dir: record.is_dir,
        size: info.size,
        dir_count: info.dirs,
        file_count: info.files,
        permissions: if args.permissions {
            permission_line(record.metadata)
        } else {
            Seq::empty()
        },
    }
}

/// What a node shows, without its children.
pub open spec fn shown(node: ExportNode) -> FlatNode {
    FlatNode {
        name: node.name@,
        path: node.path@,
        is_dir: node.is_dir,
        size: node.size,
        dir_count: node.dir_count,
        file_count: node.file_count,
        permissions: node.permissions@,
    }
}

/// Whether a flat export lists a record: always, but files are left out
/// where only directories are wanted.
pub open spec fn is_exported(record: RawRecord, args: Args) -> bool {
    !(args.dirs_only && !record.is_dir)
}

/// The flat nodes of the first `upto` entries of a tree.
pub open spec fn flat_upto(tree: Tree, args: Args, root_name: Seq<char>, upto: int) -> Seq<FlatNode>
    decreases upto,
{
    if upto <= 0 {
        Seq::empty()
    } else {
        let before = flat_upto(tree, args, root_name, upto - 1);
        if is_exported(tree.entries@[upto - 1], args) {
            before.push(flat_node(tree.entries@[upto - 1], tree.tree_info@[upto - 1], args, root_name))
        } else {
            before
        }
    }
}

/// The nodes with what each shows.
pub open spec fn shown_all(nodes: Seq<ExportNode>) -> Seq<FlatNode> {
    Seq::new(nodes.len(), |i: int| shown(nodes[i]))
}

fn shown_path(record: &RawRecord, root_name: &str) -> (path: String)
    ensures
        path@ == display_path(*record, root_name@),
{
    match &record.relative {
        Some(rel) => {
            let mut path = String::from_str("./");
            path.append(root_name);
            if !rel.as_str().is_empty() {
                path.append("/");
                path.append(rel.as_str());
            }
            path
        },
        None => record.path.clone(),
    }
}

/// Exports the tree as a flat list: one node without children per listed entry.
pub fn build_export_flat_list(tree: &Tree, args: &Args, root_name: &str) -> (nodes: Vec<ExportNode>)
    requires
        tree.wf(),
    ensures
        shown_all(nodes@) == flat_upto(*tree, *args, root_name@, tree.entries@.len() as int),
        forall|i: int| 0 <= i < nodes@.len() ==> (#[trigger] nodes@[i]).children is None,
{
    let mut nodes: Vec<ExportNode> = Vec::new();
    let mut idx: usize = 0;
    while idx < tree.entries.len()
        invariant
            idx <= tree.entries@.len(),
            tree.wf(),
            shown_all(nodes@) == flat_upto(*tree, *args, root_name@, idx as int),
            forall|i: int| 0 <= i < nodes@.len() ==> (#[trigger] nodes@[i]).children is None,
        decreases tree.entries@.len() - idx,
    {
        let entry = &tree.entries[idx];
        if !(args.dirs_only && !entry.is_dir) {
            let info = &tree.tree_info[idx];
            let permissions = if args.permissions {
                get_permission(entry.metadata)
            } else {
                String::new()
            };
            let node = ExportNode {
                name: entry.file_name.clone(),
                path: shown_path(entry, root_name),
                is_dir: entry.is_dir,
                size: info.size,
                dir_count: info.dirs,
                file_count: info.files,
                permissions,
                children: None,
            };
            nodes.push(node);
        }
        idx += 1;
    }
    nodes
}

/// The size that a hierarchical export shows: the length that the file
/// system reports, where sizes are asked for and it is known.
pub open spec fn node_size(metadata: Option<Metadata>, args: Args) -> Option<u64> {
    if args.size || args.info {
        match metadata {
            Some(m) => Some(m.len),
            None => None,
        }
    } else {
        None
    }
}

/// What a hierarchical export shows of a record.
pub open spec fn tree_node(record: RawRecord, args: Args, root_name: Seq<char>) -> FlatNode {
    FlatNode {
        name: record.file_name@,
        path: display_path(record, root_name),
        is_dir: record.is_dir,
        size: node_size(record.metadata, args),
        dir_count: None,
        file_count: None,
        permissions: if args.permissions {
            permission_line(record.metadata)
        } else {
            Seq::empty()
        },
    }
}

/// What a hierarchical export shows of the scan root.
pub open spec fn root_node(root_name: Seq<char>, metadata: Option<Metadata>, args: Args) -> FlatNode {
    FlatNode {
        name: root_name,
        path: "./"@ + root_name,
        is_dir: match metadata {
            Some(m) => m.is_dir,
            None => false,
        },
        size: node_size(metadata, args),
        dir_count: None,
        file_count: None,
        permissions: if args.permissions {
            permission_line(metadata)
        } else {
            Seq::empty()
        },
    }
}

/// Those among the first `upto` positions of `kids` that are exported.
pub open spec fn exported_upto(records: Seq<RawRecord>, args: Args, kids: Seq<usize>, upto: int) -> Seq<
    usize,
>
    decreases upto,
{
    if upto <= 0 {
        Seq::empty()
    } else {
        let before = exported_upto(records, args, kids, upto - 1);
        if is_exported(records[kids[upto - 1] as int], args) {
            before.push(kids[upto - 1])
        } else {
            before
        }
    }
}

/// The exported records that lie directly in the directory `path`.
pub open spec fn exported_children(records: Seq<RawRecord>, args: Args, path: Seq<char>) -> Seq<usize> {
    exported_upto(
        records,
        args,
        children_of(records, path),
        children_of(records, path).len() as int,
    )
}

/// Whether `node` is the exported subtree of the record at `i`, down to
/// `levels` levels below it.
pub open spec fn is_subtree(
    node: ExportNode,
    records: Seq<RawRecord>,
    args: Args,
    root_name: Seq<char>,
    i: int,
    levels: nat,
) -> bool
    decreases levels, 1nat,
{
    shown(node) == tree_node(records[i], args, root_name) && are_children(
        node.children,
        records,
        args,
        root_name,
        exported_children(records, args, records[i].path@),
        levels,
    )
}

/// Whether `children` are the exported subtrees of the records at `kids`:
/// none where there are no such records or no level is left.
pub open spec fn are_children(
    children: Option<Vec<ExportNode>>,
    records: Seq<RawRecord>,
    args: Args,
    root_name: Seq<char>,
    kids: Seq<usize>,
    levels: nat,
) -> bool
    decreases levels, 0nat,
{
    if levels == 0 || kids.len() == 0 {
        children is None
    } else {
        &&& children is Some
        &&& children->0@.len() == kids.len()
        &&& forall|k: int|
            0 <= k < kids.len() ==> is_subtree(
                #[trigger] children->0@[k],
                records,
                args,
                root_name,
                kids[k] as int,
                (levels - 1) as nat,
            )
    }
}

fn size_of_node(metadata: Option<Metadata>, args: &Args) -> (size: Option<u64>)
    ensures
        size == node_size(metadata, *args),
{
    if args.size || args.info {
        match metadata {
            Some(m) => Some(m.len),
            None => None,
        }
    } else {
        None
    }
}

fn permissions_of_node(metadata: Option<Metadata>, args: &Args) -> (text: String)
    ensures
        text@ == if args.permissions {
            permission_line(metadata)
        } else {
            Seq::empty()
        },
{
    if args.permissions {
        get_permission(metadata)
    } else {
        String::new()
    }
}

/// Builds the exported subtrees of the records that lie directly in `path`.
fn build_children(
    entries: &Vec<RawRecord>,
    index: &ChildIndex,
    args: &Args,
    root_name: &str,
    path: &str,
    levels: usize,
) -> (children: Option<Vec<ExportNode>>)
    requires
        index.groups_upto(entries@, entries@.len() as int),
    ensures
        are_children(
            children,
            entries@,
            *args,
            root_name@,
            exported_children(entries@, *args, path@),
            levels as nat,
        ),
    decreases levels, 0nat,
{
    let count: usize = entries.len();
    proof {
        lemma_children_below(entries@, path@, entries@.len() as int);
    }
    if levels == 0 {
        return None;
    }
    let ghost all = children_of(entries@, path@);
    let kids: &Vec<usize> = match index.slot_of.get(path) {
        Some(slot) => &index.groups[*slot],
        None => {
            return None;
        },
    };
    let mut nodes: Vec<ExportNode> = Vec::new();
    let mut k: usize = 0;
    while k < kids.len()
        invariant
            k <= kids@.len(),
            levels > 0,
            kids@ == all,
            all_below(all, entries@.len()),
            index.groups_upto(entries@, entries@.len() as int),
            nodes@.len() == exported_upto(entries@, *args, all, k as int).len(),
            forall|j: int|
                0 <= j < nodes@.len() ==> is_subtree(
                    #[trigger] nodes@[j],
                    entries@,
                    *args,
                    root_name@,
                    exported_upto(entries@, *args, all, k as int)[j] as int,
                    (levels - 1) as nat,
                ),
        decreases kids@.len() - k,
    {
        let at: usize = kids[k];
        if !(args.dirs_only && !entries[at].is_dir) {
            let node = build_node(entries, index, args, root_name, at, levels - 1);
            nodes.push(node);
        }
        k += 1;
    }
    if nodes.len() == 0 {
        None
    } else {
        Some(nodes)
    }
}

/// Builds the exported subtree of the record at `i`.
fn build_node(
    entries: &Vec<RawRecord>,
    index: &ChildIndex,
    args: &Args,
    root_name: &str,
    i: usize,
    levels: usize,
) -> (node: ExportNode)
    requires
        i < entries@.len(),
        index.groups_upto(entries@, entries@.len() as int),
    ensures
        is_subtree(node, entries@, *args, root_name@, i as int, levels as nat),
    decreases levels, 1nat,
{
    let entry = &entries[i];
    let children = build_children(entries, index, args, root_name, entry.path.as_str(), levels);
    ExportNode {
        name: entry.file_name.clone(),
        path: shown_path(entry, root_name),
        is_dir: entry.is_dir,
        size: size_of_node(entry.metadata, args),
        dir_count: None,
        file_count: None,
        permissions: permissions_of_node(entry.metadata, args),
        children,
    }
}

/// Exports the tree as one node for the scan root with the listed entries
/// nested below it, each under the directory that contains it.
pub fn build_export_tree(
    tree: &Tree,
    args: &Args,
    root_path: &str,
    root_name: &str,
    root_metadata: Option<Metadata>,
) -> (root: ExportNode)
    ensures
        shown(root) == root_node(root_name@, root_metadata, *args),
        are_children(
            root.children,
            tree.entries@,
            *args,
            root_name@,
            exported_children(tree.entries@, *args, root_path@),
            tree.entries@.len(),
        ),
{
    let index = ChildIndex::group(&tree.entries);
    let children = build_children(
        &tree.entries,
        &index,
        args,
        root_name,
        root_path,
        tree.entries.len(),
    );
    let mut path = String::from_str("./");
    path.append(root_name);
    ExportNode {
        name: String::from_str(root_name),
        path,
        is_dir: match root_metadata {
            Some(m) => m.is_dir,
            None => false,
        },
        size: size_of_node(root_metadata, args),
        dir_count: None,
        file_count: None,
        permissions: permissions_of_node(root_metadata, args),
        children,
    }
}

} // verus!
