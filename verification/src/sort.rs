//! Ordering of scan records: the comparison of two records under a set of
//! options, and the flat and the hierarchical sort built on it.

use crate::hierarchy::{hierarchical_positions, hierarchical_result, pick_copies};
use crate::order::{identity, key_views, sort_indices, sorted_order};
use crate::permute::{apply_permutation, is_permutation, lemma_picked_permutes, picked};
use crate::record::{extension, extension_of, opt_view, RawRecord};
use crate::text::{
    is_dot_name, lex_sign, lex_sign_of, lowercase, natural_compare, natural_order, starts_with_dot,
    to_lowercase,
};
use std::cmp::Ordering;
use vstd::prelude::*;
use vstd::string::*;
use vstd::utf8::encode_utf8;

verus! {

/// The attribute by which records are ordered.
#[derive(Debug, Clone, Copy, PartialEq, Eq, Hash, Structural)]
pub enum SortType {
    Name,
    Size,
    Accessed,
    Created,
    Modified,
    Extension,
}

impl Default for SortType {
    fn default() -> (kind: Self)
        ensures
            kind == SortType::Name,
    {
        SortType::Name
    }
}

/// How records are ordered.
#[derive(Debug, Clone, Copy)]
pub struct SortOptions {
    pub sort_type: SortType,
    pub directories_first: bool,
    pub case_sensitive: bool,
    pub natural_sort: bool,
    pub reverse: bool,
    pub dotfiles_first: bool,
}

impl Default for SortOptions {
    fn default() -> (options: Self)
        ensures
            options.sort_type == SortType::Name,
            !options.directories_first,
            !options.case_sensitive,
            !options.natural_sort,
            !options.reverse,
            !options.dotfiles_first,
    {
        SortOptions {
            sort_type: SortType::Name,
            directories_first: false,
            case_sensitive: false,
            natural_sort: false,
            reverse: false,
            dotfiles_first: false,
        }
    }
}

/// What a comparison reads of a record.
pub struct SortKey {
    pub is_dir: bool,
    pub is_dotfile: bool,
    pub size: u64,
    pub accessed: Option<i128>,
    pub created: Option<i128>,
    pub modified: Option<i128>,
    pub extension: Option<Seq<char>>,
    pub name: Seq<char>,
}

/// The sort key of a record, computed once before sorting.
#[derive(Debug)]
pub struct EntryCache {
    pub is_dir: bool,
    pub is_dotfile: bool,
    pub size: u64,
    pub accessed: Option<i128>,
    pub created: Option<i128>,
    pub modified: Option<i128>,
    pub extension: Option<String>,
    pub cached_name: String,
}

impl View for EntryCache {
    type V = SortKey;

    open spec fn view(&self) -> SortKey {
        SortKey {
            is_dir: self.is_dir,
            is_dotfile: self.is_dotfile,
            size: self.size,
            accessed: self.accessed,
            created: self.created,
            modified: self.modified,
            extension: opt_view(self.extension),
            name: self.cached_name@,
        }
    }
}

/// The key under which `record` is sorted: the extension is read only when
/// records are ordered by it, and a directory counts as size 0.
pub open spec fn sort_key(record: RawRecord, options: SortOptions) -> SortKey {
    SortKey {
        is_dir: record.is_dir,
        is_dotfile: is_dot_name(record.file_name@),
        size: record.own_size(),
        accessed: match record.metadata {
            Some(m) => m.accessed,
            None => None,
        },
        created: match record.metadata {
            Some(m) => m.created,
            None => None,
        },
        modified: match record.metadata {
            Some(m) => m.modified,
            None => None,
        },
        extension: if options.sort_type == SortType::Extension {
            extension(record.file_name@)
        } else {
            None
        },
        name: record.file_name@,
    }
}

impl EntryCache {
    /// Reads the sort key of a record.
    pub fn new(entry: &RawRecord, options: &SortOptions) -> (cache: EntryCache)
        ensures
            cache@ == sort_key(*entry, *options),
    {
        let is_dotfile = starts_with_dot(entry.file_name.as_str());
        let size = entry.file_size();
        let (accessed, modified, created) = match entry.metadata {
            Some(m) => (m.accessed, m.modified, m.created),
            None => (None, None, None),
        };
        let extension = if options.sort_type == SortType::Extension {
            extension_of(entry.file_name.as_str())
        } else {
            None
        };
        EntryCache {
            is_dir: entry.is_dir,
            is_dotfile,
            size,
            accessed,
            created,
            modified,
            extension,
            cached_name: entry.file_name.clone(),
        }
    }
}

/// The three-way result that a sign stands for.
pub open spec fn sign_order(sign: int) -> Ordering {
    if sign < 0 {
        Ordering::Less
    } else if sign == 0 {
        Ordering::Equal
    } else {
        Ordering::Greater
    }
}

/// The opposite result.
pub open spec fn flip(order: Ordering) -> Ordering {
    match order {
        Ordering::Less => Ordering::Greater,
        Ordering::Equal => Ordering::Equal,
        Ordering::Greater => Ordering::Less,
    }
}

/// Order of two strings by their UTF-8 bytes, which is their order by code point.
pub open spec fn text_order(a: Seq<char>, b: Seq<char>) -> Ordering {
    sign_order(lex_sign(encode_utf8(a), encode_utf8(b)))
}

/// Compares two strings by their bytes.
pub fn compare_text(a: &str, b: &str) -> (order: Ordering)
    ensures
        order == text_order(a@, b@),
{
    let sign: i8 = lex_sign_of(a.as_bytes(), b.as_bytes());
    if sign < 0 {
        Ordering::Less
    } else if sign == 0 {
        Ordering::Equal
    } else {
        Ordering::Greater
    }
}

/// Rank of a record's category when dotfiles go first: hidden directories,
/// then directories, then hidden files, then files.
pub open spec fn category_rank(is_dotfile: bool, is_dir: bool) -> nat {
    if is_dir {
        if is_dotfile {
            0
        } else {
            1
        }
    } else if is_dotfile {
        2
    } else {
        3
    }
}

/// What the category of two records decides: with `dotfiles_first` the rank
/// of each, else with `directories_first` directories before files, else
/// nothing. `None` where it decides nothing or the two are level.
pub open spec fn category_order(a: SortKey, b: SortKey, options: SortOptions) -> Option<Ordering> {
    if options.dotfiles_first {
        let ra = category_rank(a.is_dotfile, a.is_dir);
        let rb = category_rank(b.is_dotfile, b.is_dir);
        if ra < rb {
            Some(Ordering::Less)
        } else if ra > rb {
            Some(Ordering::Greater)
        } else {
            None
        }
    } else if options.directories_first {
        if a.is_dir && !b.is_dir {
            Some(Ordering::Less)
        } else if !a.is_dir && b.is_dir {
            Some(Ordering::Greater)
        } else {
            None
        }
    } else {
        None
    }
}

fn priority(is_dotfile: bool, is_dir: bool) -> (rank: u8)
    ensures
        rank == category_rank(is_dotfile, is_dir),
{
    match (is_dotfile, is_dir) {
        (true, true) => 0,
        (false, true) => 1,
        (true, false) => 2,
        (false, false) => 3,
    }
}

/// Orders two records by category, where the options ask for it.
pub fn compare_file_categories(
    cache_a: &EntryCache,
    cache_b: &EntryCache,
    options: &SortOptions,
) -> (order: Option<Ordering>)
    ensures
        order == category_order(cache_a@, cache_b@, *options),
{
    if options.dotfiles_first {
        let priority_a = priority(cache_a.is_dotfile, cache_a.is_dir);
        let priority_b = priority(cache_b.is_dotfile, cache_b.is_dir);
        if priority_a < priority_b {
            Some(Ordering::Less)
        } else if priority_a > priority_b {
            Some(Ordering::Greater)
        } else {
            None
        }
    } else if options.directories_first {
        if cache_a.is_dir && !cache_b.is_dir {
            Some(Ordering::Less)
        } else if !cache_a.is_dir && cache_b.is_dir {
            Some(Ordering::Greater)
        } else {
            None
        }
    } else {
        None
    }
}

/// Order of two names: natural order where asked for, else byte order, on
/// the names as they are if `case_sensitive`, else on their lowercase forms.
pub open spec fn name_order(
    a: Seq<char>,
    b: Seq<char>,
    natural: bool,
    case_sensitive: bool,
) -> Ordering {
    if natural {
        natural_order(a, b)
    } else if case_sensitive {
        text_order(a, b)
    } else {
        text_order(lowercase(a), lowercase(b))
    }
}

/// Compares two names.
pub fn compare_by_cached_name(name_a: &str, name_b: &str, natural: bool, case_sensitive: bool) -> (order:
    Ordering)
    ensures
        order == name_order(name_a@, name_b@, natural, case_sensitive),
{
    if natural {
        natural_compare(name_a, name_b)
    } else if case_sensitive {
        compare_text(name_a, name_b)
    } else {
        let lower_a = to_lowercase(name_a);
        let lower_b = to_lowercase(name_b);
        compare_text(lower_a.as_str(), lower_b.as_str())
    }
}

/// Order of two timestamps, most recent first; a missing one comes after
/// every present one, and two missing ones are level.
pub open spec fn time_order(a: Option<i128>, b: Option<i128>) -> Ordering {
    match (a, b) {
        (Some(x), Some(y)) => if x > y {
            Ordering::Less
        } else if x == y {
            Ordering::Equal
        } else {
            Ordering::Greater
        },
        (Some(_), None) => Ordering::Less,
        (None, Some(_)) => Ordering::Greater,
        (None, None) => Ordering::Equal,
    }
}

/// Compares two timestamps, most recent first.
pub fn compare_by_time(time_a: &Option<i128>, time_b: &Option<i128>) -> (order: Ordering)
    ensures
        order == time_order(*time_a, *time_b),
{
    match (time_a, time_b) {
        (Some(a), Some(b)) => if *a > *b {
            Ordering::Less
        } else if *a == *b {
            Ordering::Equal
        } else {
            Ordering::Greater
        },
        (Some(_), None) => Ordering::Less,
        (None, Some(_)) => Ordering::Greater,
        (None, None) => Ordering::Equal,
    }
}

/// The extension that a comparison uses: the empty string where there is none.
pub open spec fn extension_or_empty(key: SortKey) -> Seq<char> {
    match key.extension {
        Some(e) => e,
        None => Seq::empty(),
    }
}

/// Order of two records by extension, then by name.
pub open spec fn extension_order(a: SortKey, b: SortKey, options: SortOptions) -> Ordering {
    let by_extension = if options.case_sensitive {
        text_order(extension_or_empty(a), extension_or_empty(b))
    } else {
        text_order(lowercase(extension_or_empty(a)), lowercase(extension_or_empty(b)))
    };
    if by_extension == Ordering::Equal {
        name_order(a.name, b.name, options.natural_sort, options.case_sensitive)
    } else {
        by_extension
    }
}

/// Order of two records before any reversal: the category decides first, then
/// the chosen attribute.
pub open spec fn entry_order(a: SortKey, b: SortKey, options: SortOptions) -> Ordering {
    match category_order(a, b, options) {
        Some(order) => order,
        None => match options.sort_type {
            SortType::Name => name_order(a.name, b.name, options.natural_sort, options.case_sensitive),
            SortType::Size => if a.size < b.size {
                Ordering::Less
            } else if a.size == b.size {
                Ordering::Equal
            } else {
                Ordering::Greater
            },
            SortType::Accessed => time_order(a.accessed, b.accessed),
            SortType::Created => time_order(a.created, b.created),
            SortType::Modified => time_order(a.modified, b.modified),
            SortType::Extension => extension_order(a, b, options),
        },
    }
}

fn extension_text(cache: &EntryCache) -> (ext: &str)
    ensures
        ext@ == extension_or_empty(cache@),
{
    match &cache.extension {
        Some(e) => e.as_str(),
        None => {
            proof {
                reveal_strlit("");
            }
            ""
        },
    }
}

/// Compares two records by category and then by the chosen attribute.
pub fn compare_entries_cached(
    cache_a: &EntryCache,
    cache_b: &EntryCache,
    options: &SortOptions,
) -> (order: Ordering)
    ensures
        order == entry_order(cache_a@, cache_b@, *options),
{
    if let Some(order) = compare_file_categories(cache_a, cache_b, options) {
        return order;
    }
    match options.sort_type {
        SortType::Name => compare_by_cached_name(
            cache_a.cached_name.as_str(),
            cache_b.cached_name.as_str(),
            options.natural_sort,
            options.case_sensitive,
        ),
        SortType::Size => if cache_a.size < cache_b.size {
            Ordering::Less
        } else if cache_a.size == cache_b.size {
            Ordering::Equal
        } else {
            Ordering::Greater
        },
        SortType::Accessed => compare_by_time(&cache_a.accessed, &cache_b.accessed),
        SortType::Created => compare_by_time(&cache_a.created, &cache_b.created),
        SortType::Modified => compare_by_time(&cache_a.modified, &cache_b.modified),
        SortType::Extension => {
            let ext_a = extension_text(cache_a);
            let ext_b = extension_text(cache_b);
            let by_extension = if options.case_sensitive {
                compare_text(ext_a, ext_b)
            } else {
                let lower_a = to_lowercase(ext_a);
                let lower_b = to_lowercase(ext_b);
                compare_text(lower_a.as_str(), lower_b.as_str())
            };
            match by_extension {
                Ordering::Equal => compare_by_cached_name(
                    cache_a.cached_name.as_str(),
                    cache_b.cached_name.as_str(),
                    options.natural_sort,
                    options.case_sensitive,
                ),
                Ordering::Less => Ordering::Less,
                Ordering::Greater => Ordering::Greater,
            }
        },
    }
}

/// Whether a sorted sequence may hold `a` directly before `b`: the order of
/// the two, reversed where the options say so, is not `Greater`.
pub open spec fn precedes(a: SortKey, b: SortKey, options: SortOptions) -> bool {
    if options.reverse {
        entry_order(a, b, options) != Ordering::Less
    } else {
        entry_order(a, b, options) != Ordering::Greater
    }
}

/// Byte order is antisymmetric.
pub proof fn lemma_text_order_flip(a: Seq<char>, b: Seq<char>)
    ensures
        text_order(b, a) == flip(text_order(a, b)),
{
    crate::text::lemma_lex_sign_flip(encode_utf8(a), encode_utf8(b));
}

/// The order of two records is antisymmetric wherever the natural order of
/// their names is: swapping the records flips the result.
pub proof fn lemma_entry_order_flip(a: SortKey, b: SortKey, options: SortOptions)
    requires
        options.natural_sort ==> natural_order(b.name, a.name) == flip(
            natural_order(a.name, b.name),
        ),
    ensures
        entry_order(b, a, options) == flip(entry_order(a, b, options)),
{
    lemma_text_order_flip(a.name, b.name);
    lemma_text_order_flip(lowercase(a.name), lowercase(b.name));
    lemma_text_order_flip(extension_or_empty(a), extension_or_empty(b));
    lemma_text_order_flip(lowercase(extension_or_empty(a)), lowercase(extension_or_empty(b)));
}

/// Without natural order, one of two records may always stand before the other.
pub proof fn lemma_precedes_total(a: SortKey, b: SortKey, options: SortOptions)
    requires
        !options.natural_sort,
    ensures
        precedes(a, b, options) || precedes(b, a, options),
{
    lemma_entry_order_flip(a, b, options);
}

proof fn lemma_text_order_chain(a: Seq<char>, b: Seq<char>, c: Seq<char>)
    ensures
        text_order(a, b) != Ordering::Greater && text_order(b, c) != Ordering::Greater
            ==> text_order(a, c) != Ordering::Greater,
        text_order(a, b) == Ordering::Less && text_order(b, c) != Ordering::Greater
            ==> text_order(a, c) == Ordering::Less,
        text_order(a, b) != Ordering::Greater && text_order(b, c) == Ordering::Less
            ==> text_order(a, c) == Ordering::Less,
        text_order(a, b) == Ordering::Equal && text_order(b, c) == Ordering::Equal
            ==> text_order(a, c) == Ordering::Equal,
{
    crate::text::lemma_lex_sign_chain(encode_utf8(a), encode_utf8(b), encode_utf8(c));
    crate::text::lemma_lex_sign_chain(encode_utf8(c), encode_utf8(b), encode_utf8(a));
    crate::text::lemma_lex_sign_flip(encode_utf8(a), encode_utf8(b));
    crate::text::lemma_lex_sign_flip(encode_utf8(b), encode_utf8(c));
    crate::text::lemma_lex_sign_flip(encode_utf8(a), encode_utf8(c));
}

/// Without natural order and without reversal, "may stand before" is transitive.
proof fn lemma_forward_transitive(a: SortKey, b: SortKey, c: SortKey, options: SortOptions)
    requires
        !options.natural_sort,
        entry_order(a, b, options) != Ordering::Greater,
        entry_order(b, c, options) != Ordering::Greater,
    ensures
        entry_order(a, c, options) != Ordering::Greater,
{
    lemma_text_order_chain(a.name, b.name, c.name);
    lemma_text_order_chain(lowercase(a.name), lowercase(b.name), lowercase(c.name));
    lemma_text_order_chain(extension_or_empty(a), extension_or_empty(b), extension_or_empty(c));
    lemma_text_order_chain(
        lowercase(extension_or_empty(a)),
        lowercase(extension_or_empty(b)),
        lowercase(extension_or_empty(c)),
    );
}

/// Without natural order, whatever may stand before a record that may stand
/// before a third may stand before the third.
pub proof fn lemma_precedes_transitive(a: SortKey, b: SortKey, c: SortKey, options: SortOptions)
    requires
        !options.natural_sort,
        precedes(a, b, options),
        precedes(b, c, options),
    ensures
        precedes(a, c, options),
{
    if options.reverse {
        lemma_entry_order_flip(a, b, options);
        lemma_entry_order_flip(b, c, options);
        lemma_entry_order_flip(a, c, options);
        lemma_forward_transitive(c, b, a, options);
    } else {
        lemma_forward_transitive(a, b, c, options);
    }
}

/// With `dotfiles_first` set, `directories_first` changes nothing: the rank
/// of the categories decides alone.
pub proof fn lemma_dotfiles_first_wins(a: SortKey, b: SortKey, options: SortOptions)
    requires
        options.dotfiles_first,
    ensures
        category_order(a, b, options) == category_order(
            a,
            b,
            SortOptions { directories_first: !options.directories_first, ..options },
        ),
        category_rank(a.is_dotfile, a.is_dir) < category_rank(b.is_dotfile, b.is_dir)
            ==> entry_order(a, b, options) == Ordering::Less,
        category_rank(a.is_dotfile, a.is_dir) > category_rank(b.is_dotfile, b.is_dir)
            ==> entry_order(a, b, options) == Ordering::Greater,
{
}

/// Decides `precedes` for two records.
pub fn entry_precedes(cache_a: &EntryCache, cache_b: &EntryCache, options: &SortOptions) -> (before:
    bool)
    ensures
        before == precedes(cache_a@, cache_b@, *options),
{
    match compare_entries_cached(cache_a, cache_b, options) {
        Ordering::Less => !options.reverse,
        Ordering::Equal => true,
        Ordering::Greater => options.reverse,
    }
}

/// The sort keys of a list of records, one for one.
pub open spec fn record_keys(records: Seq<RawRecord>, options: SortOptions) -> Seq<SortKey> {
    Seq::new(records.len(), |i: int| sort_key(records[i], options))
}

/// The positions of `records` in the order in which a flat sort leaves them.
pub open spec fn flat_order(records: Seq<RawRecord>, options: SortOptions) -> Seq<usize> {
    sorted_order(record_keys(records, options), options, identity(records.len()))
}

/// Reads the sort key of every record.
pub fn build_keys(entries: &Vec<RawRecord>, options: &SortOptions) -> (keys: Vec<EntryCache>)
    ensures
        keys@.len() == entries@.len(),
        key_views(keys@) == record_keys(entries@, *options),
{
    let mut keys: Vec<EntryCache> = Vec::new();
    let mut i: usize = 0;
    while i < entries.len()
        invariant
            i <= entries@.len(),
            keys@.len() == i,
            forall|j: int| 0 <= j < i ==> (#[trigger] keys@[j])@ == sort_key(entries@[j], *options),
        decreases entries@.len() - i,
    {
        keys.push(EntryCache::new(&entries[i], options));
        i += 1;
    }
    keys
}

/// Sorts the records in place: afterwards they stand in `flat_order`, which
/// holds each of them once.
pub fn sort_entries(entries: &mut Vec<RawRecord>, options: &SortOptions)
    ensures
        final(entries)@ == picked(old(entries)@, flat_order(old(entries)@, *options)),
        is_permutation(flat_order(old(entries)@, *options), old(entries)@.len()),
        final(entries)@.to_multiset() == old(entries)@.to_multiset(),
{
    let keys = build_keys(entries, options);
    let order = sort_indices(&keys, options);
    proof {
        lemma_picked_permutes(entries@, order@);
    }
    apply_permutation(entries, &order);
}

/// Sorts the records hierarchically: siblings are ordered among themselves
/// and every record is directly followed by what lies below it. Records that
/// are neither of depth 1 nor below a record of the list are left out.
pub fn sort_entries_hierarchically(entries: &mut Vec<RawRecord>, options: &SortOptions)
    ensures
        final(entries)@ == hierarchical_result(old(entries)@, *options),
{
    if entries.len() <= 1 {
        return ;
    }
    let keys = build_keys(entries, options);
    let order = hierarchical_positions(entries, &keys, options);
    let sorted = pick_copies(entries, &order);
    *entries = sorted;
}

} // verus!
