//! Directory listings as the file browser shows them, and the roots it
//! offers as locations.

use vstd::prelude::*;
use crate::ordering::{KeyView, SortKey, is_stable_order, key_views, stable_order, goes_before, lemma_key_order, lemma_stable_order_unique};
use crate::paths::{PathStyle, paths_equal, same_path};
use vstd::std_specs::cmp::PartialEqSpecImpl;
use crate::text::{chars_of, lower_text, push_char, same_text, to_lower_text, lex_less};

verus! {

/// One line of a directory listing. `modified` is the last modification
/// time, where the file system reports one, as whole seconds since the Unix
/// epoch and the nanoseconds past that second.
#[derive(Debug)]
pub struct FileEntry {
    pub name: String,
    pub path: String,
    pub is_dir: bool,
    pub size: u64,
    pub modified: Option<(i64, u32)>,
}

impl Clone for FileEntry {
    fn clone(&self) -> (r: Self)
        ensures
            r == *self,
    {
        FileEntry {
            name: self.name.clone(),
            path: self.path.clone(),
            is_dir: self.is_dir,
            size: self.size,
            modified: self.modified,
        }
    }
}

impl PartialEq for FileEntry {
    fn eq(&self, other: &Self) -> (r: bool) {
        self.name == other.name && paths_equal(self.path.as_str(), other.path.as_str(), PathStyle::Unix)
            && self.is_dir == other.is_dir && self.size == other.size && self.modified
            == other.modified
    }
}

impl PartialEqSpecImpl for FileEntry {
    open spec fn obeys_eq_spec() -> bool {
        true
    }

    /// Two entries are equal when their names are equal, their paths are the
    /// same path component by component (read in the Unix style), and the
    /// rest agrees.
    open spec fn eq_spec(&self, other: &FileEntry) -> bool {
        &&& self.name@ == other.name@
        &&& same_path(PathStyle::Unix, self.path@, other.path@)
        &&& self.is_dir == other.is_dir
        &&& self.size == other.size
        &&& self.modified == other.modified
    }
}

/// Where an entry goes in a listing: the link to the parent directory
/// first, then directories, then files.
pub open spec fn listing_rank(e: FileEntry) -> int {
    if e.name@ == ".."@ {
        0
    } else if e.is_dir {
        1
    } else {
        2
    }
}

/// The key by which a listing is sorted: the rank, then the name in lower
/// case.
pub open spec fn listing_key(e: FileEntry) -> KeyView {
    (listing_rank(e), lower_text(e.name@))
}

/// The keys of a sequence of entries.
pub open spec fn listing_keys(s: Seq<FileEntry>) -> Seq<KeyView> {
    s.map_values(|e: FileEntry| listing_key(e))
}

/// `e` is the entry that leads to the parent directory `parent`.
pub open spec fn is_parent_link(e: FileEntry, parent: String) -> bool {
    &&& e.name@ == ".."@
    &&& e.path == parent
    &&& e.is_dir
    &&& e.size == 0
    &&& e.modified is None
}

/// `all` is `entries`, preceded by the link to `parent` where there is one.
pub open spec fn with_parent_link(
    parent: Option<String>,
    entries: Seq<FileEntry>,
    all: Seq<FileEntry>,
) -> bool {
    match parent {
        None => all == entries,
        Some(p) => all.len() == entries.len() + 1 && is_parent_link(all[0], p) && all.skip(1)
            == entries,
    }
}

/// `listing` is `all` in the order of a stable sort by listing key.
pub open spec fn is_sorted_listing(all: Seq<FileEntry>, listing: Seq<FileEntry>) -> bool {
    exists|order: Seq<usize>|
        {
            &&& is_stable_order(listing_keys(all), order)
            &&& listing.len() == all.len()
            &&& forall|k: int| 0 <= k < listing.len() ==> #[trigger] listing[k] == all[order[k] as int]
        }
}

/// `listing` is what the browser shows for a directory whose parent is
/// `parent` (none for a root) and whose entries are `entries`.
pub open spec fn is_listing_of(
    parent: Option<String>,
    entries: Seq<FileEntry>,
    listing: Seq<FileEntry>,
) -> bool {
    exists|all: Seq<FileEntry>| with_parent_link(parent, entries, all) && is_sorted_listing(all, listing)
}

/// The sort key of one entry.
fn sort_key(e: &FileEntry) -> (k: SortKey)
    ensures
        k@ == listing_key(*e),
{
    let rank: u8 = if same_text(e.name.as_str(), "..") {
        0
    } else if e.is_dir {
        1
    } else {
        2
    };
    let lower = to_lower_text(e.name.as_str());
    SortKey { rank, text: chars_of(lower.as_str()) }
}

/// Builds the listing of a directory from the entries read from it: a link
/// to the parent directory when there is one, then the entries, sorted with
/// the parent link first, directories before files, and by lower-case name
/// within each group; entries that compare equal keep their order.
pub fn browse_directory(parent: Option<String>, entries: Vec<FileEntry>) -> (listing: Vec<FileEntry>)
    ensures
        is_listing_of(parent, entries@, listing@),
{
    let mut all: Vec<FileEntry> = Vec::new();
    match &parent {
        Some(p) => {
            all.push(
                FileEntry {
                    name: String::from_str(".."),
                    path: p.clone(),
                    is_dir: true,
                    size: 0,
                    modified: None,
                },
            );
        },
        None => {},
    }
    let ghost head = all@;
    let mut rest = entries;
    let ghost entries_view = rest@;
    all.append(&mut rest);
    assert(all@ == head + entries_view);
    proof {
        match parent {
            Some(p) => {
                assert(all@.skip(1) =~= entries_view);
            },
            None => {
                assert(all@ =~= entries_view);
            },
        }
    }
    let mut keys: Vec<SortKey> = Vec::new();
    let mut i: usize = 0;
    while i < all.len()
        invariant
            i <= all@.len(),
            keys@.len() == i,
            forall|k: int| 0 <= k < i ==> #[trigger] keys@[k]@ == listing_key(all@[k]),
        decreases all@.len() - i,
    {
        let k = sort_key(&all[i]);
        keys.push(k);
        i = i + 1;
    }
    assert(key_views(keys@) =~= listing_keys(all@));
    let order = stable_order(&keys);
    let mut listing: Vec<FileEntry> = Vec::new();
    let mut j: usize = 0;
    while j < order.len()
        invariant
            is_stable_order(listing_keys(all@), order@),
            j <= order@.len(),
            listing@.len() == j,
            forall|k: int| 0 <= k < j ==> #[trigger] listing@[k] == all@[order@[k] as int],
        decreases order@.len() - j,
    {
        let e = all[order[j]].clone();
        listing.push(e);
        j = j + 1;
    }
    assert(is_sorted_listing(all@, listing@));
    listing
}

/// In a listing, the parent link comes first, directories before files,
/// and within each group the lower-case names never decrease.
pub proof fn lemma_listing_grouped_and_alphabetical(
    parent: Option<String>,
    entries: Seq<FileEntry>,
    listing: Seq<FileEntry>,
    a: int,
    b: int,
)
    requires
        is_listing_of(parent, entries, listing),
        0 <= a < b < listing.len(),
    ensures
        listing_rank(listing[a]) <= listing_rank(listing[b]),
        listing_rank(listing[a]) == listing_rank(listing[b]) ==> !lex_less(
            lower_text(listing[b].name@),
            lower_text(listing[a].name@),
        ),
{
    let all = choose|all: Seq<FileEntry>|
        with_parent_link(parent, entries, all) && is_sorted_listing(all, listing);
    let order = choose|order: Seq<usize>|
        {
            &&& is_stable_order(listing_keys(all), order)
            &&& listing.len() == all.len()
            &&& forall|k: int| 0 <= k < listing.len() ==> #[trigger] listing[k] == all[order[k] as int]
        };
    let keys = listing_keys(all);
    assert(listing[a] == all[order[a] as int]);
    assert(listing[b] == all[order[b] as int]);
    assert(goes_before(keys, order[a] as int, order[b] as int));
    let ka = keys[order[a] as int];
    let kb = keys[order[b] as int];
    assert(ka == listing_key(listing[a]));
    assert(kb == listing_key(listing[b]));
    lemma_key_order(ka, kb, ka);
}

/// The roots that the file browser offers as locations on a system with a
/// single root: "/".
pub fn list_drives() -> (drives: Vec<String>)
    ensures
        drives@.len() == 1,
        drives@[0]@ == "/"@,
{
    let mut drives: Vec<String> = Vec::new();
    drives.push(String::from_str("/"));
    drives
}

/// Bit `i` of `mask` is set.
pub open spec fn bit_set(mask: u32, i: u32) -> bool {
    (mask >> i) & 1u32 == 1u32
}

/// The root of the drive with letter number `i` (0 for A): "A:\" and so on.
pub open spec fn drive_root(i: nat) -> Seq<char> {
    seq![(65 + i) as char, ':', '\\']
}

/// The roots of the drives whose bits are set in `mask`, from bit `i` up.
pub open spec fn drive_roots_from(mask: u32, i: nat) -> Seq<Seq<char>>
    decreases 32 - i,
{
    if i >= 32 {
        seq![]
    } else {
        (if bit_set(mask, i as u32) {
            seq![drive_root(i)]
        } else {
            seq![]
        }) + drive_roots_from(mask, i + 1)
    }
}

/// The roots of the drives named by a logical-drive bit mask, where bit `i`
/// stands for the drive with letter A + `i`, in letter order.
pub fn drives_from_mask(mask: u32) -> (drives: Vec<String>)
    ensures
        drives@.map_values(|s: String| s@) == drive_roots_from(mask, 0),
{
    let mut drives: Vec<String> = Vec::new();
    let mut i: u32 = 0;
    while i < 32
        invariant
            i <= 32,
            drives@.map_values(|s: String| s@) + drive_roots_from(mask, i as nat)
                == drive_roots_from(mask, 0),
        decreases 32 - i,
    {
        let ghost before = drives@.map_values(|s: String| s@);
        if (mask >> i) & 1u32 == 1u32 {
            let mut root = String::new();
            let letter: u8 = 65u8 + (i as u8);
            push_char(&mut root, letter as char);
            push_char(&mut root, ':');
            push_char(&mut root, '\\');
            assert(root@ =~= drive_root(i as nat));
            drives.push(root);
            assert(drives@.map_values(|s: String| s@) =~= before.push(drive_root(i as nat)));
        } else {
            assert(drives@.map_values(|s: String| s@) =~= before);
        }
        assert(drives@.map_values(|s: String| s@) + drive_roots_from(mask, (i + 1) as nat)
            =~= before + drive_roots_from(mask, i as nat));
        i = i + 1;
    }
    assert(drives@.map_values(|s: String| s@) =~= drives@.map_values(|s: String| s@)
        + drive_roots_from(mask, 32));
    drives
}

/// A directory's entries have exactly one listing: two sorted listings of
/// the same entries are equal.
pub proof fn lemma_sorted_listing_unique(all: Seq<FileEntry>, l1: Seq<FileEntry>, l2: Seq<FileEntry>)
    requires
        is_sorted_listing(all, l1),
        is_sorted_listing(all, l2),
    ensures
        l1 == l2,
{
    let o1 = choose|order: Seq<usize>|
        {
            &&& is_stable_order(listing_keys(all), order)
            &&& l1.len() == all.len()
            &&& forall|k: int| 0 <= k < l1.len() ==> #[trigger] l1[k] == all[order[k] as int]
        };
    let o2 = choose|order: Seq<usize>|
        {
            &&& is_stable_order(listing_keys(all), order)
            &&& l2.len() == all.len()
            &&& forall|k: int| 0 <= k < l2.len() ==> #[trigger] l2[k] == all[order[k] as int]
        };
    lemma_stable_order_unique(listing_keys(all), o1, o2);
    assert(l1 =~= l2);
}

} // verus!
