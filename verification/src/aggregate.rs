//! Recursive totals per directory: the size, the number of directories and
//! the number of files of all that lies below each path.

use crate::record::RawRecord;
use vstd::hash_map::StringHashMap;
use vstd::prelude::*;
use vstd::string::*;

verus! {

/// Totals as mathematical numbers.
pub struct Totals {
    pub size: nat,
    pub dirs: nat,
    pub files: nat,
}

/// Totals as the tree records them; a total too large for 64 bits is held
/// at the largest value.
#[derive(Debug, Clone, Copy, PartialEq, Eq)]
pub struct AggregatedInfo {
    pub size: u64,
    pub dirs: u64,
    pub files: u64,
}

/// `n`, or the largest 64-bit value if `n` is beyond it.
pub open spec fn clamp(n: nat) -> u64 {
    if n > u64::MAX {
        u64::MAX
    } else {
        n as u64
    }
}

/// The recorded form of totals.
pub open spec fn info_of(totals: Totals) -> AggregatedInfo {
    AggregatedInfo { size: clamp(totals.size), dirs: clamp(totals.dirs), files: clamp(totals.files) }
}

/// No size, no directories, no files.
pub open spec fn nothing() -> Totals {
    Totals { size: 0, dirs: 0, files: 0 }
}

/// The sum of two totals.
pub open spec fn plus(a: Totals, b: Totals) -> Totals {
    Totals { size: a.size + b.size, dirs: a.dirs + b.dirs, files: a.files + b.files }
}

/// The totals that `totals` holds for `path`: nothing where it holds none.
pub open spec fn totals_at(totals: Map<Seq<char>, Totals>, path: Seq<char>) -> Totals {
    if totals.contains_key(path) {
        totals[path]
    } else {
        nothing()
    }
}

/// What a record by itself amounts to: a file is one file of its size, a
/// directory is empty.
pub open spec fn own_totals(record: RawRecord) -> Totals {
    if record.is_dir {
        nothing()
    } else {
        Totals { size: record.own_size() as nat, dirs: 0, files: 1 }
    }
}

/// The totals before anything is summed: the root and every directory among
/// the first `upto` records start empty, every file as itself.
pub open spec fn seeded(records: Seq<RawRecord>, root: Seq<char>, upto: int) -> Map<Seq<char>, Totals>
    decreases upto,
{
    if upto <= 0 {
        Map::empty().insert(root, nothing())
    } else {
        let before = seeded(records, root, upto - 1);
        let record = records[upto - 1];
        if record.is_dir && before.contains_key(record.path@) {
            before
        } else {
            before.insert(record.path@, own_totals(record))
        }
    }
}

/// What a record adds to the directory that contains it: all that it holds
/// itself and, if it is a directory, one directory more.
pub open spec fn contribution(held: Totals, record: RawRecord) -> Totals {
    Totals {
        size: held.size,
        dirs: held.dirs + if record.is_dir {
            1nat
        } else {
            0nat
        },
        files: held.files,
    }
}

/// The totals once the records from `from` on have been added to their
/// parents, last record first: when a record is added, all that follows it,
/// and so all that lies below it in a depth-first scan, has been added to it.
pub open spec fn folded(records: Seq<RawRecord>, root: Seq<char>, from: int) -> Map<Seq<char>, Totals>
    decreases records.len() - from,
{
    if from >= records.len() {
        seeded(records, root, records.len() as int)
    } else {
        let after = folded(records, root, from + 1);
        let record = records[from];
        match record.parent {
            Some(parent) => after.insert(
                parent@,
                plus(totals_at(after, parent@), contribution(totals_at(after, record.path@), record)),
            ),
            None => after,
        }
    }
}

/// The recursive totals of every path that a scan from `root` names.
pub open spec fn aggregated(records: Seq<RawRecord>, root: Seq<char>) -> Map<Seq<char>, Totals> {
    folded(records, root, 0)
}

/// The recorded totals agree with the mathematical ones, path by path.
pub open spec fn mirrors(recorded: Map<Seq<char>, AggregatedInfo>, totals: Map<Seq<char>, Totals>) -> bool {
    &&& forall|p: Seq<char>| recorded.contains_key(p) <==> totals.contains_key(p)
    &&& forall|p: Seq<char>| #[trigger]
        recorded.contains_key(p) ==> recorded[p] == info_of(totals[p])
}

/// Adds two recorded numbers, holding the sum at the largest value.
pub fn add_clamped(a: u64, b: u64) -> (sum: u64)
    ensures
        sum == clamp((a + b) as nat),
{
    if a > u64::MAX - b {
        u64::MAX
    } else {
        a + b
    }
}

fn lookup(recorded: &StringHashMap<AggregatedInfo>, path: &str) -> (info: AggregatedInfo)
    ensures
        info == if recorded@.contains_key(path@) {
            recorded@[path@]
        } else {
            info_of(nothing())
        },
{
    match recorded.get(path) {
        Some(info) => *info,
        None => AggregatedInfo { size: 0, dirs: 0, files: 0 },
    }
}

/// Computes the recursive totals of every path in two passes over the records.
pub fn aggregate(entries: &Vec<RawRecord>, root: &str) -> (recorded: StringHashMap<AggregatedInfo>)
    ensures
        mirrors(recorded@, aggregated(entries@, root@)),
{
    let n: usize = entries.len();
    let mut recorded: StringHashMap<AggregatedInfo> = StringHashMap::new();
    recorded.insert(String::from_str(root), AggregatedInfo { size: 0, dirs: 0, files: 0 });
    let mut i: usize = 0;
    while i < n
        invariant
            i <= n,
            n == entries@.len(),
            mirrors(recorded@, seeded(entries@, root@, i as int)),
        decreases n - i,
    {
        let entry = &entries[i];
        if !(entry.is_dir && recorded.contains_key(entry.path.as_str())) {
            let size = entry.file_size();
            let own = if entry.is_dir {
                AggregatedInfo { size: 0, dirs: 0, files: 0 }
            } else {
                AggregatedInfo { size, dirs: 0, files: 1 }
            };
            recorded.insert(entry.path.clone(), own);
        }
        i += 1;
    }
    let mut k: usize = n;
    while k > 0
        invariant
            k <= n,
            n == entries@.len(),
            mirrors(recorded@, folded(entries@, root@, k as int)),
        decreases k,
    {
        k -= 1;
        let entry = &entries[k];
        match &entry.parent {
            Some(parent) => {
                let held = lookup(&recorded, entry.path.as_str());
                let target = lookup(&recorded, parent.as_str());
                let dirs = if entry.is_dir {
                    add_clamped(held.dirs, 1)
                } else {
                    held.dirs
                };
                let sum = AggregatedInfo {
                    size: add_clamped(target.size, held.size),
                    dirs: add_clamped(target.dirs, dirs),
                    files: add_clamped(target.files, held.files),
                };
                recorded.insert(parent.clone(), sum);
            },
            None => {},
        }
    }
    recorded
}

} // verus!
