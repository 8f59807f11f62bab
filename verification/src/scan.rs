//! What a directory holds, and how much space it takes.

use vstd::prelude::*;

use crate::order;
use crate::path;

verus! {

/// What an item of a directory is; a symbolic link is not followed.
#[derive(Clone, Copy, Debug, PartialEq, Eq, Structural)]
pub enum Kind {
    Dir,
    File,
    Symlink,
    Other,
    /// It could not be told.
    Unknown,
}

/// An item of a directory as the system reports it.
#[derive(Debug)]
pub struct Item {
    /// The name as text.
    pub name: String,
    /// The name as the system has it.
    pub file_name: Vec<u8>,
    pub kind: Kind,
    /// Of a directory the size of its whole tree, of a file its length; none if it could not be
    /// told.
    pub size: Option<u64>,
}

/// A file or a subdirectory of the directory that is shown.
#[derive(Debug, Clone)]
pub struct FileEntry {
    pub name: String,
    pub path: Vec<u8>,
    pub is_dir: bool,
    /// Of a subdirectory the size of its whole tree, of a file its own size.
    pub size: u64,
}

/// What was met on the way through a tree.
#[derive(Clone, Copy, Debug, PartialEq, Eq, Structural)]
pub enum Found {
    /// Something that could not be read.
    Unreadable,
    /// A file, with its length if that could be told.
    File(Option<u64>),
    /// Something else than a file.
    Other,
}

/// What an entry holds.
pub struct Entry {
    pub name: Seq<char>,
    pub path: Seq<u8>,
    pub is_dir: bool,
    pub size: u64,
}

impl View for FileEntry {
    type V = Entry;

    open spec fn view(&self) -> Entry {
        Entry { name: self.name@, path: self.path@, is_dir: self.is_dir, size: self.size }
    }
}

/// What the entries hold.
pub open spec fn entries_of(entries: Seq<FileEntry>) -> Seq<Entry> {
    entries.map_values(|e: FileEntry| e@)
}

/// How much space one thing on the way takes.
pub open spec fn length_of(f: Found) -> nat {
    match f {
        Found::File(Some(n)) => n as nat,
        _ => 0,
    }
}

/// How much space a tree takes: its files together.
pub open spec fn tree_size(found: Seq<Found>) -> nat
    decreases found.len(),
{
    if found.len() == 0 {
        0
    } else {
        tree_size(found.drop_last()) + length_of(found.last())
    }
}

/// Whether an item is listed.
pub open spec fn is_listed(item: Item) -> bool {
    item.kind == Kind::Dir || item.kind == Kind::File
}

/// The entry of an item of a directory.
pub open spec fn entry_of(dir: Seq<u8>, item: Item) -> Entry {
    Entry {
        name: item.name@,
        path: path::joined(dir, item.file_name@),
        is_dir: item.kind == Kind::Dir,
        size: match item.size {
            Some(n) => n,
            None => 0,
        },
    }
}

/// The entries of the items, as they come.
pub open spec fn unsorted(dir: Seq<u8>, items: Seq<Item>) -> Seq<Entry>
    decreases items.len(),
{
    if items.len() == 0 {
        Seq::empty()
    } else if is_listed(items.last()) {
        unsorted(dir, items.drop_last()).push(entry_of(dir, items.last()))
    } else {
        unsorted(dir, items.drop_last())
    }
}

/// The keys that put the greatest size first.
pub open spec fn size_keys(entries: Seq<Entry>) -> Seq<u64> {
    entries.map_values(|e: Entry| (u64::MAX - e.size) as u64)
}

/// The entries taken from their places.
pub open spec fn taken(entries: Seq<Entry>, places: Seq<usize>) -> Seq<Entry> {
    places.map_values(|p: usize| entries[p as int])
}

/// Whether a listing is what the entries are when they are put in order of their size, the
/// greatest first, with the same sizes as they came.
pub open spec fn is_listing(listing: Seq<Entry>, entries: Seq<Entry>) -> bool {
    exists|places: Seq<usize>| #[trigger]
        order::orders(places, size_keys(entries)) && listing == taken(entries, places)
}

/// Every entry of a directory has a path that the directory's path and the name of an item make.
pub proof fn law_entries_are_children(dir: Seq<u8>, items: Seq<Item>, i: int) -> (k: int)
    requires
        0 <= i < unsorted(dir, items).len(),
    ensures
        0 <= k < items.len(),
        is_listed(items[k]),
        unsorted(dir, items)[i] == entry_of(dir, items[k]),
    decreases items.len(),
{
    let before = unsorted(dir, items.drop_last());
    if items.len() == 0 {
        0
    } else if i < before.len() {
        law_entries_are_children(dir, items.drop_last(), i)
    } else {
        items.len() - 1
    }
}

/// Whether an entry is the one of an item of a directory: it has the name of the item, its path below
/// the directory, and its size, which is nothing where none could be told.
pub open spec fn is_entry_of(e: Entry, dir: Seq<u8>, item: Item) -> bool {
    &&& e.name == item.name@
    &&& e.path == path::joined(dir, item.file_name@)
    &&& e.is_dir <==> item.kind is Dir
    &&& e.size == match item.size {
        Some(n) => n,
        None => 0u64,
    }
}

/// How many of the items are directories and files.
pub open spec fn dirs_and_files(items: Seq<Item>) -> nat
    decreases items.len(),
{
    if items.len() == 0 {
        0
    } else {
        dirs_and_files(items.drop_last()) + match items.last().kind {
            Kind::Dir => 1nat,
            Kind::File => 1nat,
            Kind::Symlink => 0nat,
            Kind::Other => 0nat,
            Kind::Unknown => 0nat,
        }
    }
}

/// Every directory and every file among the items, whatever its name, has its entry in the listing;
/// there is no other entry, and the listing is as long as there are such items.
pub proof fn law_every_dir_and_file_is_listed(
    dir: Seq<u8>,
    items: Seq<Item>,
    listing: Seq<Entry>,
)
    requires
        is_listing(listing, unsorted(dir, items)),
    ensures
        listing.len() == dirs_and_files(items),
        forall|i: int|
            0 <= i < items.len() && ((#[trigger] items[i]).kind is Dir || items[i].kind is File)
                ==> exists|k: int|
                0 <= k < listing.len() && is_entry_of(#[trigger] listing[k], dir, items[i]),
        forall|k: int|
            0 <= k < listing.len() ==> exists|i: int|
                0 <= i < items.len() && (items[i].kind is Dir || items[i].kind is File)
                    && is_entry_of(#[trigger] listing[k], dir, #[trigger] items[i]),
{
    let all = unsorted(dir, items);
    law_listing_is_complete(listing, all);
    lemma_unsorted(dir, items);
    assert forall|i: int|
        0 <= i < items.len() && ((#[trigger] items[i]).kind is Dir || items[i].kind
            is File) implies exists|k: int|
        0 <= k < listing.len() && is_entry_of(#[trigger] listing[k], dir, items[i]) by {
        let e = entry_of(dir, items[i]);
        assert(listing.contains(e));
        let k = listing.index_of(e);
        assert(is_entry_of(listing[k], dir, items[i]));
    }
    assert forall|k: int| 0 <= k < listing.len() implies exists|i: int|
        0 <= i < items.len() && (items[i].kind is Dir || items[i].kind is File) && is_entry_of(
            #[trigger] listing[k],
            dir,
            #[trigger] items[i],
        ) by {
        assert(listing.contains(listing[k]));
        let m = all.index_of(listing[k]);
        let i = law_entries_are_children(dir, items, m);
        assert(is_entry_of(listing[k], dir, items[i]));
    }
}

/// The entries of items, before they are put in order.
proof fn lemma_unsorted(dir: Seq<u8>, items: Seq<Item>)
    ensures
        unsorted(dir, items).len() == dirs_and_files(items),
        forall|i: int|
            0 <= i < items.len() && ((#[trigger] items[i]).kind is Dir || items[i].kind is File)
                ==> unsorted(dir, items).contains(entry_of(dir, items[i])),
    decreases items.len(),
{
    if items.len() > 0 {
        let before = items.drop_last();
        lemma_unsorted(dir, before);
        assert forall|i: int|
            0 <= i < items.len() && ((#[trigger] items[i]).kind is Dir || items[i].kind
                is File) implies unsorted(dir, items).contains(entry_of(dir, items[i])) by {
            if i < items.len() - 1 {
                assert(before[i] == items[i]);
            }
            order::lemma_push_contains(
                unsorted(dir, before),
                entry_of(dir, items.last()),
                entry_of(dir, items[i]),
            );
        }
    }
}

/// Entries of the same size are listed as their items came.
pub proof fn law_listing_keeps_ties(listing: Seq<Entry>, entries: Seq<Entry>, i: int, j: int)
    requires
        is_listing(listing, entries),
        0 <= i < j < entries.len(),
        entries[i].size == entries[j].size,
    ensures
        exists|p: int, q: int|
            0 <= p < q < listing.len() && #[trigger] listing[p] == entries[i]
                && #[trigger] listing[q] == entries[j],
{
    let places = choose|places: Seq<usize>| #[trigger]
        order::orders(places, size_keys(entries)) && listing == taken(entries, places);
    let keys = size_keys(entries);
    let (p, q) = order::law_ties_stay(places, keys, i, j);
    assert(listing[p] == entries[i]);
    assert(listing[q] == entries[j]);
}

/// The items that come before others keep coming first among the entries.
pub proof fn law_items_keep_their_order(dir: Seq<u8>, items: Seq<Item>, more: Seq<Item>)
    ensures
        unsorted(dir, items + more) == unsorted(dir, items) + unsorted(dir, more),
    decreases more.len(),
{
    if more.len() == 0 {
        assert(items + more =~= items);
        assert(unsorted(dir, items) + unsorted(dir, more) =~= unsorted(dir, items));
    } else {
        assert((items + more).drop_last() =~= items + more.drop_last());
        law_items_keep_their_order(dir, items, more.drop_last());
        assert(unsorted(dir, items + more) =~= unsorted(dir, items) + unsorted(dir, more));
    }
}

/// An entry holds what its fields say, and so do entries one by one.
pub proof fn law_entries_hold_their_fields(entries: Seq<FileEntry>, i: int)
    requires
        0 <= i < entries.len(),
    ensures
        entries_of(entries).len() == entries.len(),
        entries_of(entries)[i].name == entries[i].name@,
        entries_of(entries)[i].path == entries[i].path@,
        entries_of(entries)[i].is_dir == entries[i].is_dir,
        entries_of(entries)[i].size == entries[i].size,
{
}

/// In a listing no entry is greater than one before it.
pub proof fn law_listing_descends(listing: Seq<Entry>, entries: Seq<Entry>, i: int, j: int)
    requires
        is_listing(listing, entries),
        0 <= i < j < listing.len(),
    ensures
        listing[i].size >= listing[j].size,
{
    let places = choose|places: Seq<usize>| #[trigger]
        order::orders(places, size_keys(entries)) && listing == taken(entries, places);
    assert(order::before(size_keys(entries), places[i] as int, places[j] as int));
}

/// A listing holds the entries that there are and no others, and is as long.
pub proof fn law_listing_is_complete(listing: Seq<Entry>, entries: Seq<Entry>)
    requires
        is_listing(listing, entries),
    ensures
        listing.len() == entries.len(),
        forall|e: Entry| #[trigger] listing.contains(e) <==> entries.contains(e),
{
    let places = choose|places: Seq<usize>| #[trigger]
        order::orders(places, size_keys(entries)) && listing == taken(entries, places);
    assert forall|e: Entry| #[trigger] listing.contains(e) <==> entries.contains(e) by {
        if listing.contains(e) {
            let k = listing.index_of(e);
            assert(entries[places[k] as int] == e);
        }
        if entries.contains(e) {
            let k = entries.index_of(e);
            assert(places.contains(k as usize));
            let p = places.index_of(k as usize);
            assert(listing[p] == e);
        }
    }
}

/// Only files add to the size of a tree, each by its length where that could be told.
pub proof fn law_files_make_up_a_tree(found: Seq<Found>, n: u64)
    ensures
        tree_size(Seq::<Found>::empty()) == 0,
        tree_size(found.push(Found::File(Some(n)))) == tree_size(found) + n,
        tree_size(found.push(Found::File(None))) == tree_size(found),
        tree_size(found.push(Found::Other)) == tree_size(found),
        tree_size(found.push(Found::Unreadable)) == tree_size(found),
{
    assert(found.push(Found::File(Some(n))).drop_last() =~= found);
    assert(found.push(Found::File(None)).drop_last() =~= found);
    assert(found.push(Found::Other).drop_last() =~= found);
    assert(found.push(Found::Unreadable).drop_last() =~= found);
}

/// The size of a tree does not depend on the order in which its parts are met.
pub proof fn law_tree_size_adds_up(first: Seq<Found>, second: Seq<Found>)
    ensures
        tree_size(first + second) == tree_size(first) + tree_size(second),
        tree_size(second + first) == tree_size(first + second),
{
    lemma_tree_size_adds(first, second);
    lemma_tree_size_adds(second, first);
}

/// The size of two parts is the sum of their sizes.
proof fn lemma_tree_size_adds(first: Seq<Found>, second: Seq<Found>)
    ensures
        tree_size(first + second) == tree_size(first) + tree_size(second),
    decreases second.len(),
{
    if second.len() == 0 {
        assert(first + second == first);
    } else {
        lemma_tree_size_adds(first, second.drop_last());
        assert((first + second).drop_last() == first + second.drop_last());
    }
}

/// The size of a part is no more than that of the whole.
proof fn lemma_tree_size_grows(found: Seq<Found>, n: int)
    requires
        0 <= n <= found.len(),
    ensures
        tree_size(found.take(n)) <= tree_size(found),
{
    lemma_tree_size_adds(found.take(n), found.skip(n));
    assert(found.take(n) + found.skip(n) == found);
}

/// Adds up the files of a tree; none where the sum does not fit.
pub fn dir_size(found: &Vec<Found>) -> (r: Option<u64>)
    ensures
        r is Some <==> tree_size(found@) <= u64::MAX,
        r matches Some(n) ==> n == tree_size(found@),
{
    let mut sum: u64 = 0;
    for i in 0..found.len()
        invariant
            sum == tree_size(found@.take(i as int)),
    {
        assert(found@.take(i + 1).drop_last() == found@.take(i as int));
        proof {
            lemma_tree_size_grows(found@, i + 1);
        }
        if let Found::File(Some(n)) = found[i] {
            if n > u64::MAX - sum {
                return None;
            }
            sum += n;
        }
    }
    assert(found@.take(found@.len() as int) == found@);
    Some(sum)
}

/// Makes an entry of an item.
fn make_entry(dir: &[u8], item: &Item) -> (e: FileEntry)
    ensures
        e@ == entry_of(dir@, *item),
{
    FileEntry {
        name: item.name.clone(),
        path: path::join(dir, item.file_name.as_slice()),
        is_dir: matches!(item.kind, Kind::Dir),
        size: match item.size {
            Some(n) => n,
            None => 0,
        },
    }
}

/// Lists the files and subdirectories among the items of a directory, the greatest first; without
/// items, where the directory could not be read, there is nothing to list.
pub fn list_directory(dir: &[u8], items: Option<&Vec<Item>>) -> (listing: Vec<FileEntry>)
    ensures
        match items {
            Some(v) => is_listing(entries_of(listing@), unsorted(dir@, v@)),
            None => listing@.len() == 0,
        },
{
    let mut listing: Vec<FileEntry> = Vec::new();
    let items: &Vec<Item> = match items {
        Some(v) => v,
        None => {
            return listing;
        },
    };
    let mut keys: Vec<u64> = Vec::new();
    let mut sources: Vec<usize> = Vec::new();
    let ghost all = unsorted(dir@, items@);
    for i in 0..items.len()
        invariant
            keys@ == size_keys(unsorted(dir@, items@.take(i as int))),
            sources@.len() == keys@.len(),
            forall|k: int|
                0 <= k < sources@.len() ==> (#[trigger] sources@[k]) < items@.len() && unsorted(
                    dir@,
                    items@.take(i as int),
                )[k] == entry_of(dir@, items@[sources@[k] as int]),
    {
        let ghost done = items@.take(i as int);
        assert(items@.take(i + 1).drop_last() == done);
        assert(items@.take(i + 1).last() == items@[i as int]);
        let item: &Item = &items[i];
        if matches!(item.kind, Kind::Dir) || matches!(item.kind, Kind::File) {
            let size: u64 = match item.size {
                Some(n) => n,
                None => 0,
            };
            keys.push(u64::MAX - size);
            sources.push(i);
            assert(keys@ =~= size_keys(unsorted(dir@, items@.take(i + 1))));
        }
    }
    assert(items@.take(items@.len() as int) == items@);
    let places: Vec<usize> = order::order_by(&keys);
    for i in 0..places.len()
        invariant
            all == unsorted(dir@, items@),
            keys@ == size_keys(all),
            sources@.len() == keys@.len(),
            forall|k: int|
                0 <= k < sources@.len() ==> (#[trigger] sources@[k]) < items@.len() && all[k]
                    == entry_of(dir@, items@[sources@[k] as int]),
            order::orders(places@, keys@),
            entries_of(listing@) == taken(all, places@).take(i as int),
    {
        let ghost so_far = entries_of(listing@);
        let entry = make_entry(dir, &items[sources[places[i]]]);
        assert(entry@ == taken(all, places@)[i as int]);
        listing.push(entry);
        assert(entries_of(listing@) =~= so_far.push(entry@));
        assert(taken(all, places@).take(i + 1) =~= so_far.push(entry@));
    }
    assert(entries_of(listing@) =~= taken(all, places@));
    listing
}

} // verus!
