//! Laws of the tree walk.

use crate::catalog::{EntryModel, ROOT_FOLDER_CNID};
use crate::walk::PathModel;
use vstd::prelude::*;

verus! {

/// Whether `folders` holds the folder `cnid`, under some path.
pub open spec fn has_folder(folders: Seq<(u32, Seq<char>)>, cnid: u32) -> bool {
    exists|i: int| 0 <= i < folders.len() && (#[trigger] folders[i]).0 == cnid
}

/// Whether no two of `folders` are the same folder.
pub open spec fn distinct_folders(folders: Seq<(u32, Seq<char>)>) -> bool {
    forall|i: int, j: int|
        0 <= i < j < folders.len() ==> (#[trigger] folders[i]).0 != (#[trigger] folders[j]).0
}

/// The new folders of a listing are distinct, were not seen before, are seen
/// after, and are all that was added.
proof fn lemma_new_folders(entries: Seq<EntryModel>, path: Seq<char>, seen: Set<u32>)
    ensures
        distinct_folders(crate::walk::new_folders(entries, path, seen)),
        forall|i: int|
            0 <= i < crate::walk::new_folders(entries, path, seen).len() ==> !seen.contains(
                (#[trigger] crate::walk::new_folders(entries, path, seen)[i]).0,
            ),
        forall|c: u32| #[trigger]
            crate::walk::seen_with(entries, seen).contains(c) <==> seen.contains(c) || has_folder(
                crate::walk::new_folders(entries, path, seen),
                c,
            ),
    decreases entries.len(),
{
    let new = crate::walk::new_folders(entries, path, seen);
    if entries.len() > 0 {
        let entry = entries[0];
        let rest = entries.drop_first();
        if entry.is_dir && !seen.contains(entry.cnid) {
            let tail = crate::walk::new_folders(rest, path, seen.insert(entry.cnid));
            lemma_new_folders(rest, path, seen.insert(entry.cnid));
            assert(forall|i: int| 0 < i < new.len() ==> #[trigger] new[i] == tail[i - 1]);
            assert forall|c: u32| #[trigger]
                crate::walk::seen_with(entries, seen).contains(c) <==> seen.contains(c)
                    || has_folder(new, c) by {
                assert(crate::walk::seen_with(rest, seen.insert(entry.cnid)).contains(c) <==> (
                seen.insert(entry.cnid).contains(c) || has_folder(tail, c)));
                if has_folder(tail, c) {
                    let k = choose|k: int| 0 <= k < tail.len() && (#[trigger] tail[k]).0 == c;
                    assert(new[k + 1].0 == c);
                }
                if c == entry.cnid {
                    assert(new[0].0 == c);
                }
                if has_folder(new, c) && c != entry.cnid {
                    let k = choose|k: int| 0 <= k < new.len() && (#[trigger] new[k]).0 == c;
                    assert(tail[k - 1].0 == c);
                }
            }
        } else {
            if entry.is_dir {
                assert(seen.insert(entry.cnid) =~= seen);
            }
            lemma_new_folders(rest, path, seen);
            assert forall|c: u32| #[trigger]
                crate::walk::seen_with(entries, seen).contains(c) <==> seen.contains(c)
                    || has_folder(new, c) by {
                assert(crate::walk::seen_with(rest, seen).contains(c) <==> (seen.contains(c)
                    || has_folder(new, c)));
            }
        }
    }
}

/// Every folder entry is seen after its listing.
proof fn lemma_entries_seen(entries: Seq<EntryModel>, seen: Set<u32>, entry: EntryModel)
    requires
        entries.contains(entry),
        entry.is_dir,
    ensures
        crate::walk::seen_with(entries, seen).contains(entry.cnid),
    decreases entries.len(),
{
    let k = choose|k: int| 0 <= k < entries.len() && entries[k] == entry;
    let rest = entries.drop_first();
    if k == 0 {
        lemma_new_folders(rest, Seq::empty(), seen.insert(entry.cnid));
        assert(crate::walk::seen_with(rest, seen.insert(entry.cnid)).contains(entry.cnid));
    } else {
        assert(rest[k - 1] == entry);
        if entries[0].is_dir {
            lemma_entries_seen(rest, seen.insert(entries[0].cnid), entry);
        } else {
            lemma_entries_seen(rest, seen, entry);
        }
    }
}

/// Each new folder is one of the entries, under its joined path.
proof fn lemma_new_folder_origin(
    entries: Seq<EntryModel>,
    path: Seq<char>,
    seen: Set<u32>,
    k: int,
) -> (entry: EntryModel)
    requires
        0 <= k < crate::walk::new_folders(entries, path, seen).len(),
    ensures
        entries.contains(entry),
        entry.is_dir,
        crate::walk::new_folders(entries, path, seen)[k] == (
            entry.cnid,
            crate::walk::joined(path, entry.name),
        ),
    decreases entries.len(),
{
    let entry = entries[0];
    let rest = entries.drop_first();
    let fresh = entry.is_dir && !seen.contains(entry.cnid);
    if fresh && k == 0 {
        assert(entries[0] == entry);
        entry
    } else {
        let found = if fresh {
            lemma_new_folder_origin(rest, path, seen.insert(entry.cnid), k - 1)
        } else {
            lemma_new_folder_origin(rest, path, seen, k)
        };
        let i = choose|i: int| 0 <= i < rest.len() && rest[i] == found;
        assert(entries[i + 1] == found);
        found
    }
}

/// What makes a state of the walk sound: the folders that wait are distinct, and
/// have been seen.
spec fn sound_state(waiting: Seq<(u32, Seq<char>)>, seen: Set<u32>) -> bool {
    &&& distinct_folders(waiting)
    &&& forall|i: int| 0 <= i < waiting.len() ==> seen.contains((#[trigger] waiting[i]).0)
}

/// One step of the walk leads from a sound state to a sound one.
proof fn lemma_step_sound(
    entries: Seq<EntryModel>,
    waiting: Seq<(u32, Seq<char>)>,
    seen: Set<u32>,
)
    requires
        waiting.len() > 0,
        sound_state(waiting, seen),
    ensures
        sound_state(
            waiting.drop_last() + crate::walk::new_folders(entries, waiting.last().1, seen),
            crate::walk::seen_with(entries, seen),
        ),
        !has_folder(
            waiting.drop_last() + crate::walk::new_folders(entries, waiting.last().1, seen),
            waiting.last().0,
        ),
{
    let path = waiting.last().1;
    let new = crate::walk::new_folders(entries, path, seen);
    let next = waiting.drop_last() + new;
    let after = crate::walk::seen_with(entries, seen);
    lemma_new_folders(entries, path, seen);
    let old_len = waiting.len() - 1;
    assert(forall|i: int| 0 <= i < old_len ==> #[trigger] next[i] == waiting[i]);
    assert(forall|i: int| old_len <= i < next.len() ==> #[trigger] next[i] == new[i - old_len]);
    assert forall|i: int| 0 <= i < next.len() implies after.contains((#[trigger] next[i]).0) by {
        if i >= old_len {
            assert(new[i - old_len].0 == next[i].0);
            assert(has_folder(new, next[i].0));
        }
    }
    assert forall|i: int, j: int| 0 <= i < j < next.len() implies (#[trigger] next[i]).0 != (
    #[trigger] next[j]).0 by {
        if i < old_len && j >= old_len {
            assert(seen.contains(waiting[i].0));
            assert(!seen.contains(new[j - old_len].0));
        } else if i >= old_len {
            assert(new[i - old_len].0 != new[j - old_len].0);
        }
    }
}

/// From a sound state, each folder is listed once, and those that are listed
/// were waiting or had not been seen.
proof fn lemma_order_distinct(
    records: Seq<Seq<u8>>,
    waiting: Seq<(u32, Seq<char>)>,
    seen: Set<u32>,
)
    requires
        sound_state(waiting, seen),
    ensures
        distinct_folders(crate::walk::visit_order(records, waiting, seen)),
        forall|i: int|
            0 <= i < crate::walk::visit_order(records, waiting, seen).len() ==> {
                let cnid = (#[trigger] crate::walk::visit_order(records, waiting, seen)[i]).0;
                has_folder(waiting, cnid) || !seen.contains(cnid)
            },
    decreases crate::walk::unseen(seen).len(), waiting.len(),
{
    if waiting.len() > 0 {
        let (folder, path) = waiting.last();
        let entries = crate::catalog::children(records, folder);
        crate::walk::lemma_visit_decreases(entries, path, seen);
        lemma_step_sound(entries, waiting, seen);
        lemma_new_folders(entries, path, seen);
        let new = crate::walk::new_folders(entries, path, seen);
        let next = waiting.drop_last() + new;
        let after = crate::walk::seen_with(entries, seen);
        lemma_order_distinct(records, next, after);
        let order = crate::walk::visit_order(records, waiting, seen);
        let rest = crate::walk::visit_order(records, next, after);
        assert(forall|i: int| 0 < i < order.len() ==> #[trigger] order[i] == rest[i - 1]);
        assert forall|i: int| 0 <= i < order.len() implies {
            let cnid = (#[trigger] order[i]).0;
            has_folder(waiting, cnid) || !seen.contains(cnid)
        } by {
            if i == 0 {
                assert(waiting[waiting.len() - 1].0 == order[0].0);
            } else {
                let cnid = rest[i - 1].0;
                if has_folder(next, cnid) {
                    let k = choose|k: int| 0 <= k < next.len() && (#[trigger] next[k]).0 == cnid;
                    if k < waiting.len() - 1 {
                        assert(waiting[k].0 == cnid);
                    } else {
                        assert(new[k - (waiting.len() - 1)].0 == cnid);
                    }
                }
            }
        }
        assert forall|i: int, j: int| 0 <= i < j < order.len() implies (#[trigger] order[i]).0 != (
        #[trigger] order[j]).0 by {
            if i == 0 {
                assert(seen.contains(waiting[waiting.len() - 1].0));
                assert(order[j] == rest[j - 1]);
            } else {
                assert(order[i] == rest[i - 1] && order[j] == rest[j - 1]);
            }
        }
    }
}

/// Every folder that waits is listed, and every folder entry of a listed folder
/// had been seen or is listed.
proof fn lemma_order_closed(
    records: Seq<Seq<u8>>,
    waiting: Seq<(u32, Seq<char>)>,
    seen: Set<u32>,
)
    ensures
        forall|i: int|
            0 <= i < waiting.len() ==> crate::walk::visit_order(records, waiting, seen).contains(
                #[trigger] waiting[i],
            ),
        forall|i: int, entry: EntryModel|
            #![trigger
                crate::walk::visit_order(records, waiting, seen)[i],
                crate::catalog::children(
                    records,
                    crate::walk::visit_order(records, waiting, seen)[i].0,
                ).contains(entry)]
            0 <= i < crate::walk::visit_order(records, waiting, seen).len()
                && crate::catalog::children(
                records,
                crate::walk::visit_order(records, waiting, seen)[i].0,
            ).contains(entry) && entry.is_dir ==> seen.contains(entry.cnid) || has_folder(
                crate::walk::visit_order(records, waiting, seen),
                entry.cnid,
            ),
    decreases crate::walk::unseen(seen).len(), waiting.len(),
{
    if waiting.len() > 0 {
        let (folder, path) = waiting.last();
        let entries = crate::catalog::children(records, folder);
        crate::walk::lemma_visit_decreases(entries, path, seen);
        lemma_new_folders(entries, path, seen);
        let new = crate::walk::new_folders(entries, path, seen);
        let next = waiting.drop_last() + new;
        let after = crate::walk::seen_with(entries, seen);
        lemma_order_closed(records, next, after);
        let order = crate::walk::visit_order(records, waiting, seen);
        let rest = crate::walk::visit_order(records, next, after);
        assert(order.drop_first() =~= rest);
        assert forall|i: int| 0 <= i < waiting.len() implies order.contains(
            #[trigger] waiting[i],
        ) by {
            if i == waiting.len() - 1 {
                assert(order[0] == waiting[i]);
            } else {
                assert(next[i] == waiting[i]);
                let k = choose|k: int| 0 <= k < rest.len() && rest[k] == next[i];
                assert(order[k + 1] == waiting[i]);
            }
        }
        assert forall|i: int, entry: EntryModel|
            #![trigger order[i], crate::catalog::children(records, order[i].0).contains(entry)]
            0 <= i < order.len() && crate::catalog::children(records, order[i].0).contains(entry)
                && entry.is_dir implies seen.contains(entry.cnid) || has_folder(
            order,
            entry.cnid,
        ) by {
            if i == 0 {
                lemma_entries_seen(entries, seen, entry);
            } else {
                assert(order[i] == rest[i - 1]);
                assert(crate::catalog::children(records, rest[i - 1].0).contains(entry));
            }
            assert(after.contains(entry.cnid) || has_folder(rest, entry.cnid));
            if has_folder(rest, entry.cnid) {
                let k = choose|k: int| 0 <= k < rest.len() && (#[trigger] rest[k]).0 == entry.cnid;
                assert(order[k + 1].0 == entry.cnid);
            } else if !seen.contains(entry.cnid) {
                let k = choose|k: int| 0 <= k < new.len() && (#[trigger] new[k]).0 == entry.cnid;
                assert(next[waiting.len() - 1 + k] == new[k]);
                let m = choose|m: int|
                    0 <= m < rest.len() && rest[m] == next[waiting.len() - 1 + k];
                assert(order[m + 1].0 == entry.cnid);
            }
        }
    }
}

/// Whether the folder at `k` of `folders` is an entry of a folder at `i`, under
/// the path that joins the two.
pub open spec fn folder_of(
    records: Seq<Seq<u8>>,
    folders: Seq<(u32, Seq<char>)>,
    i: int,
    k: int,
    entry: EntryModel,
) -> bool {
    &&& 0 <= i < folders.len()
    &&& crate::catalog::children(records, folders[i].0).contains(entry)
    &&& entry.is_dir
    &&& folders[k] == (entry.cnid, crate::walk::joined(folders[i].1, entry.name))
}

/// Every folder that is listed was waiting, or is an entry of another one that
/// is listed.
proof fn lemma_order_origin(
    records: Seq<Seq<u8>>,
    waiting: Seq<(u32, Seq<char>)>,
    seen: Set<u32>,
    k: int,
)
    requires
        0 <= k < crate::walk::visit_order(records, waiting, seen).len(),
    ensures
        waiting.contains(crate::walk::visit_order(records, waiting, seen)[k]) || exists|
            i: int,
            entry: EntryModel,
        |
            #[trigger]
            folder_of(records, crate::walk::visit_order(records, waiting, seen), i, k, entry),
    decreases crate::walk::unseen(seen).len(), waiting.len(),
{
    let (folder, path) = waiting.last();
    let entries = crate::catalog::children(records, folder);
    crate::walk::lemma_visit_decreases(entries, path, seen);
    let new = crate::walk::new_folders(entries, path, seen);
    let next = waiting.drop_last() + new;
    let after = crate::walk::seen_with(entries, seen);
    let order = crate::walk::visit_order(records, waiting, seen);
    let rest = crate::walk::visit_order(records, next, after);
    assert(order.drop_first() =~= rest);
    if k == 0 {
        assert(waiting[waiting.len() - 1] == order[0]);
    } else {
        lemma_order_origin(records, next, after, k - 1);
        assert(order[k] == rest[k - 1]);
        if next.contains(rest[k - 1]) {
            let m = choose|m: int| 0 <= m < next.len() && next[m] == rest[k - 1];
            if m < waiting.len() - 1 {
                assert(waiting[m] == order[k]);
            } else {
                let entry = lemma_new_folder_origin(
                    entries,
                    path,
                    seen,
                    m - (waiting.len() - 1),
                );
                assert(order[0] == (folder, path));
                assert(folder_of(records, order, 0, k, entry));
            }
        } else {
            let (i, entry) = choose|i: int, entry: EntryModel| #[trigger]
                folder_of(records, rest, i, k - 1, entry);
            assert(order[i + 1] == rest[i]);
            assert(folder_of(records, order, i + 1, k, entry));
        }
    }
}

/// Each folder is listed once: no two of the folders that a walk lists are the
/// same, whatever cycles the catalog holds.
pub proof fn law_folders_listed_once(records: Seq<Seq<u8>>)
    ensures
        distinct_folders(crate::walk::folders(records)),
{
    lemma_order_distinct(
        records,
        seq![(ROOT_FOLDER_CNID, Seq::<char>::empty())],
        Set::empty().insert(ROOT_FOLDER_CNID),
    );
}

/// Every folder is listed: the root, and every folder that is an entry of a
/// listed folder.
pub proof fn law_folders_complete(records: Seq<Seq<u8>>, i: int, entry: EntryModel)
    requires
        0 <= i < crate::walk::folders(records).len(),
        crate::catalog::children(records, crate::walk::folders(records)[i].0).contains(entry),
        entry.is_dir,
    ensures
        crate::walk::folders(records).contains((ROOT_FOLDER_CNID, Seq::<char>::empty())),
        has_folder(crate::walk::folders(records), entry.cnid),
{
    let waiting = seq![(ROOT_FOLDER_CNID, Seq::<char>::empty())];
    let seen = Set::empty().insert(ROOT_FOLDER_CNID);
    let order = crate::walk::folders(records);
    lemma_order_closed(records, waiting, seen);
    assert(order.contains(waiting[0]));
    assert(order == crate::walk::visit_order(records, waiting, seen));
    if seen.contains(entry.cnid) {
        let k = choose|k: int| 0 <= k < order.len() && order[k] == waiting[0];
        assert(order[k].0 == entry.cnid);
    }
}

/// Every listed folder but the root is an entry of a listed folder, and its path
/// is that folder's path joined with its name.
pub proof fn law_folder_paths(records: Seq<Seq<u8>>, k: int)
    requires
        0 <= k < crate::walk::folders(records).len(),
    ensures
        crate::walk::folders(records)[k] == (ROOT_FOLDER_CNID, Seq::<char>::empty()) || exists|
            i: int,
            entry: EntryModel,
        |
            #[trigger] folder_of(records, crate::walk::folders(records), i, k, entry),
{
    let waiting = seq![(ROOT_FOLDER_CNID, Seq::<char>::empty())];
    lemma_order_origin(records, waiting, Set::empty().insert(ROOT_FOLDER_CNID), k);
}

/// Whether `item` is the entry `entry` of the folder at `i` of `folders`, with
/// its path.
pub open spec fn item_of(
    records: Seq<Seq<u8>>,
    folders: Seq<(u32, Seq<char>)>,
    item: PathModel,
    i: int,
    entry: EntryModel,
) -> bool {
    &&& 0 <= i < folders.len()
    &&& crate::catalog::children(records, folders[i].0).contains(entry)
    &&& item == crate::walk::located(folders[i].1, entry)
}

/// The listings of folders hold an item if and only if it is an entry of one of
/// them.
proof fn lemma_listings_exact(
    records: Seq<Seq<u8>>,
    folders: Seq<(u32, Seq<char>)>,
    item: PathModel,
)
    ensures
        crate::walk::listings(records, folders).contains(item) <==> exists|
            i: int,
            entry: EntryModel,
        |
            #[trigger] item_of(records, folders, item, i, entry),
    decreases folders.len(),
{
    let all = crate::walk::listings(records, folders);
    if folders.len() > 0 {
        let rest = folders.drop_first();
        let entries = crate::catalog::children(records, folders[0].0);
        let head = crate::walk::listed(entries, folders[0].1);
        let tail = crate::walk::listings(records, rest);
        lemma_listings_exact(records, rest, item);
        if all.contains(item) {
            let k = choose|k: int| 0 <= k < all.len() && all[k] == item;
            if k < head.len() {
                assert(entries.contains(entries[k]));
                assert(item_of(records, folders, item, 0, entries[k]));
            } else {
                assert(tail[k - head.len()] == item);
                let (i, entry) = choose|i: int, entry: EntryModel| #[trigger]
                    item_of(records, rest, item, i, entry);
                assert(folders[i + 1] == rest[i]);
                assert(item_of(records, folders, item, i + 1, entry));
            }
        }
        if exists|i: int, entry: EntryModel| #[trigger]
            item_of(records, folders, item, i, entry) {
            let (i, entry) = choose|i: int, entry: EntryModel| #[trigger]
                item_of(records, folders, item, i, entry);
            if i == 0 {
                let k = choose|k: int| 0 <= k < entries.len() && entries[k] == entry;
                assert(head[k] == item);
                assert(all[k] == item);
            } else {
                assert(rest[i - 1] == folders[i]);
                assert(item_of(records, rest, item, i - 1, entry));
                let k = choose|k: int| 0 <= k < tail.len() && tail[k] == item;
                assert(all[head.len() + k] == item);
            }
        }
    }
}

/// The tree of a volume holds an item if and only if it is an entry of one of
/// the listed folders, under that folder's path.
pub proof fn law_tree_exact(volume: Seq<u8>, records: Seq<Seq<u8>>, item: PathModel)
    requires
        crate::catalog::catalog_records(volume) == Some(records),
    ensures
        crate::walk::tree(volume) matches Some(items) && (items.contains(item) <==> exists|
            i: int,
            entry: EntryModel,
        |
            #[trigger] item_of(records, crate::walk::folders(records), item, i, entry)),
{
    lemma_listings_exact(records, crate::walk::folders(records), item);
}

/// Every entry of the root folder is in the tree, under its own name.
pub proof fn law_root_entries_in_tree(volume: Seq<u8>, entry: EntryModel)
    requires
        crate::catalog::directory(volume, ROOT_FOLDER_CNID) matches Some(entries)
            && entries.contains(entry),
    ensures
        crate::walk::tree(volume) matches Some(items) && items.contains(
            PathModel { path: entry.name, is_dir: entry.is_dir, cnid: entry.cnid },
        ),
{
    let records = crate::catalog::catalog_records(volume)->0;
    let root = (ROOT_FOLDER_CNID, Seq::<char>::empty());
    let folders = crate::walk::folders(records);
    lemma_order_closed(records, seq![root], Set::empty().insert(ROOT_FOLDER_CNID));
    assert(seq![root][0] == root);
    assert(folders.contains(root));
    let i = choose|i: int| 0 <= i < folders.len() && folders[i] == root;
    let item = PathModel { path: entry.name, is_dir: entry.is_dir, cnid: entry.cnid };
    law_tree_exact(volume, records, item);
    assert(item_of(records, folders, item, i, entry));
}

// ---- The items of the tree, field by field ----

/// Whether `path` is `name` behind `prefix` and a slash, or `name` alone behind
/// the empty path.
pub open spec fn joins(prefix: Seq<char>, name: Seq<char>, path: Seq<char>) -> bool {
    if prefix.len() == 0 {
        path == name
    } else {
        &&& path.len() == prefix.len() + 1 + name.len()
        &&& forall|i: int| 0 <= i < prefix.len() ==> #[trigger] path[i] == prefix[i]
        &&& path[prefix.len() as int] == '/'
        &&& forall|i: int|
            0 <= i < name.len() ==> path[prefix.len() + 1 + i] == #[trigger] name[i]
    }
}

/// A path is joined with one slash, and the root has the empty path.
pub proof fn law_paths(prefix: Seq<char>, name: Seq<char>)
    ensures
        joins(prefix, name, crate::walk::joined(prefix, name)),
{
    reveal_strlit("/");
}

/// Whether `item` stands for `entry` of the folder with the path `prefix`: the
/// same kind and the same CNID, under the joined path.
pub open spec fn stands_for(item: PathModel, prefix: Seq<char>, entry: EntryModel) -> bool {
    &&& item.is_dir == entry.is_dir
    &&& item.cnid == entry.cnid
    &&& joins(prefix, entry.name, item.path)
}

/// Whether `items` are the entries of `folders`, all of them, folder by folder
/// and in the order of the listings: `places` gives the folder and the entry of
/// each.
pub open spec fn items_of(
    records: Seq<Seq<u8>>,
    folders: Seq<(u32, Seq<char>)>,
    places: Seq<(int, int)>,
    items: Seq<PathModel>,
) -> bool {
    &&& crate::laws::layout::in_order(places)
    &&& items.len() == places.len()
    &&& forall|i: int, k: int| #[trigger]
        places.contains((i, k)) <==> 0 <= i < folders.len() && 0 <= k < crate::catalog::children(
            records,
            folders[i].0,
        ).len()
    &&& forall|j: int|
        0 <= j < items.len() ==> stands_for(
            #[trigger] items[j],
            folders[places[j].0].1,
            crate::catalog::children(records, folders[places[j].0].0)[places[j].1],
        )
}

proof fn lemma_items(records: Seq<Seq<u8>>, folders: Seq<(u32, Seq<char>)>) -> (places: Seq<
    (int, int),
>)
    ensures
        items_of(records, folders, places, crate::walk::listings(records, folders)),
    decreases folders.len(),
{
    let items = crate::walk::listings(records, folders);
    if folders.len() == 0 {
        Seq::empty()
    } else {
        let rest = folders.drop_first();
        let entries = crate::catalog::children(records, folders[0].0);
        let head = crate::walk::listed(entries, folders[0].1);
        let tail = crate::walk::listings(records, rest);
        let later = lemma_items(records, rest);
        let n = entries.len();
        let places = Seq::new(
            n + later.len(),
            |j: int|
                if j < n {
                    (0int, j)
                } else {
                    (later[j - n].0 + 1, later[j - n].1)
                },
        );
        assert(forall|i: int| 0 <= i < rest.len() ==> #[trigger] rest[i] == folders[i + 1]);
        assert forall|j: int| n <= j < places.len() implies {
            let at = #[trigger] places[j];
            &&& 1 <= at.0 < folders.len()
            &&& folders[at.0] == rest[later[j - n].0]
        } by {
            assert(later.contains(later[j - n]));
            assert(later.contains((later[j - n].0, later[j - n].1)));
            assert(rest[later[j - n].0] == folders[later[j - n].0 + 1]);
        }
        assert forall|a: int, b: int|
            0 <= a < b < places.len() implies crate::laws::layout::before(
            #[trigger] places[a],
            #[trigger] places[b],
        ) by {
            if a >= n {
                assert(crate::laws::layout::before(later[a - n], later[b - n]));
            }
        }
        assert forall|i: int, k: int| #[trigger]
            places.contains((i, k)) <==> 0 <= i < folders.len() && 0 <= k
                < crate::catalog::children(records, folders[i].0).len() by {
            if places.contains((i, k)) {
                let j = choose|j: int| 0 <= j < places.len() && places[j] == (i, k);
                if j >= n {
                    assert(later.contains((i - 1, k)));
                }
            }
            if 0 <= i < folders.len() && 0 <= k < crate::catalog::children(
                records,
                folders[i].0,
            ).len() {
                if i == 0 {
                    assert(places[k] == (i, k));
                } else {
                    assert(rest[i - 1] == folders[i]);
                    assert(later.contains((i - 1, k)));
                    let m = choose|m: int| 0 <= m < later.len() && later[m] == (i - 1, k);
                    assert(places[n + m] == (i, k));
                }
            }
        }
        assert forall|j: int| 0 <= j < items.len() implies stands_for(
            #[trigger] items[j],
            folders[places[j].0].1,
            crate::catalog::children(records, folders[places[j].0].0)[places[j].1],
        ) by {
            if j < n {
                assert(items[j] == head[j]);
                law_paths(folders[0].1, entries[j].name);
            } else {
                assert(items[j] == tail[j - n]);
                assert(places[j].0 >= 1);
            }
        }
        places
    }
}

/// The tree of a volume has an item for each entry of each listed folder, with
/// the kind and the CNID of the entry and its joined path, and nothing else; the
/// items stand folder by folder, in the order of the listings.
pub proof fn law_tree_items(volume: Seq<u8>) -> (places: Seq<(int, int)>)
    ensures
        match crate::btree::catalog_loc(volume) {
            None => crate::walk::tree(volume) is None,
            Some(loc) => crate::walk::tree(volume) matches Some(items) && items_of(
                crate::btree::leaf_records(volume, loc),
                crate::walk::folders(crate::btree::leaf_records(volume, loc)),
                places,
                items,
            ),
        },
{
    match crate::btree::catalog_loc(volume) {
        None => Seq::empty(),
        Some(loc) => {
            let records = crate::btree::leaf_records(volume, loc);
            lemma_items(records, crate::walk::folders(records))
        },
    }
}

// ---- The order of the folders ----

/// Whether the folder `folder` was shown by entry `e` of `entries`, the listing
/// of the folder with the path `path`, and by no entry of that listing before.
pub open spec fn shown_by(
    entries: Seq<EntryModel>,
    path: Seq<char>,
    folder: (u32, Seq<char>),
    e: int,
) -> bool {
    &&& 0 <= e < entries.len()
    &&& entries[e].is_dir
    &&& entries[e].cnid == folder.0
    &&& joins(path, entries[e].name, folder.1)
    &&& forall|d: int| 0 <= d < e && #[trigger] entries[d].is_dir ==> entries[d].cnid != folder.0
}

proof fn lemma_new_folder_places(entries: Seq<EntryModel>, path: Seq<char>, seen: Set<u32>) -> (at:
    Seq<int>)
    ensures
        at.len() == crate::walk::new_folders(entries, path, seen).len(),
        crate::laws::layout::increasing(at),
        forall|k: int|
            0 <= k < at.len() ==> shown_by(
                entries,
                path,
                #[trigger] crate::walk::new_folders(entries, path, seen)[k],
                at[k],
            ),
    decreases entries.len(),
{
    let new = crate::walk::new_folders(entries, path, seen);
    if entries.len() == 0 {
        Seq::empty()
    } else {
        let entry = entries[0];
        let rest = entries.drop_first();
        let fresh = entry.is_dir && !seen.contains(entry.cnid);
        let after = if fresh {
            seen.insert(entry.cnid)
        } else {
            seen
        };
        let tail = crate::walk::new_folders(rest, path, after);
        let later = lemma_new_folder_places(rest, path, after);
        lemma_new_folders(rest, path, after);
        let head = if fresh {
            seq![0int]
        } else {
            Seq::empty()
        };
        let at = head + later.map_values(|e: int| e + 1);
        if fresh {
            law_paths(path, entry.name);
        }
        assert forall|k: int| 0 <= k < at.len() implies shown_by(
            entries,
            path,
            #[trigger] new[k],
            at[k],
        ) by {
            if k >= head.len() {
                let m = k - head.len();
                assert(new[k] == tail[m]);
                assert(at[k] == later[m] + 1);
                assert(shown_by(rest, path, tail[m], later[m]));
                assert(entries[at[k]] == rest[later[m]]);
                assert(!after.contains(tail[m].0));
                assert forall|d: int|
                    0 <= d < at[k] && #[trigger] entries[d].is_dir implies entries[d].cnid
                    != new[k].0 by {
                    if d > 0 {
                        assert(entries[d] == rest[d - 1]);
                    }
                }
            }
        }
        assert forall|a: int, b: int| 0 <= a < b < at.len() implies #[trigger] at[a]
            < #[trigger] at[b] by {
            let m = b - head.len();
            assert(at[b] == later[m] + 1);
            assert(shown_by(rest, path, tail[m], later[m]));
            if a >= head.len() {
                assert(later[a - head.len()] < later[m]);
                assert(at[a] == later[a - head.len()] + 1);
            }
        }
        at
    }
}

/// Whether the folder at `m` of `order` was first shown at `origin`, by an entry
/// of a folder listed before it. Positions are counted from `base` on.
pub open spec fn shown_at(
    records: Seq<Seq<u8>>,
    order: Seq<(u32, Seq<char>)>,
    base: int,
    m: int,
    origin: (int, int),
) -> bool {
    let p = origin.0 - base;
    &&& 0 <= p < m
    &&& shown_by(
        crate::catalog::children(records, order[p].0),
        order[p].1,
        order[m],
        origin.1,
    )
    &&& forall|q: int, entry: EntryModel|
        0 <= q < p && #[trigger] crate::catalog::children(records, order[q].0).contains(entry)
            && entry.is_dir ==> entry.cnid != order[m].0
}

/// Whether of two folders that wait at the same time the one that was shown last
/// is listed first.
pub open spec fn last_shown_first(origins: Seq<(int, int)>, base: int) -> bool {
    forall|a: int, b: int|
        0 <= a < b < origins.len() && (#[trigger] origins[b]).0 < base + a
            ==> crate::laws::layout::before(origins[b], #[trigger] origins[a])
}

proof fn lemma_origins(
    records: Seq<Seq<u8>>,
    waiting: Seq<(u32, Seq<char>)>,
    seen: Set<u32>,
    from: Seq<(int, int)>,
    base: int,
) -> (origins: Seq<(int, int)>)
    requires
        from.len() == waiting.len(),
        crate::laws::layout::in_order(from),
        forall|i: int| 0 <= i < from.len() ==> (#[trigger] from[i]).0 < base,
    ensures
        origins.len() == crate::walk::visit_order(records, waiting, seen).len(),
        last_shown_first(origins, base),
        forall|m: int|
            0 <= m < origins.len() ==> {
                let order = crate::walk::visit_order(records, waiting, seen);
                ||| exists|i: int|
                    0 <= i < waiting.len() && #[trigger] waiting[i] == order[m] && from[i]
                        == origins[m]
                ||| shown_at(records, order, base, m, #[trigger] origins[m]) && !seen.contains(
                    order[m].0,
                )
            },
    decreases crate::walk::unseen(seen).len(), waiting.len(),
{
    let order = crate::walk::visit_order(records, waiting, seen);
    if waiting.len() == 0 {
        Seq::empty()
    } else {
        let (folder, path) = waiting.last();
        let entries = crate::catalog::children(records, folder);
        crate::walk::lemma_visit_decreases(entries, path, seen);
        let new = crate::walk::new_folders(entries, path, seen);
        let next = waiting.drop_last() + new;
        let after = crate::walk::seen_with(entries, seen);
        let at = lemma_new_folder_places(entries, path, seen);
        lemma_new_folders(entries, path, seen);
        let kept = waiting.len() - 1;
        let next_from = from.drop_last() + at.map_values(|e: int| (base, e));
        assert forall|a: int, b: int|
            0 <= a < b < next_from.len() implies crate::laws::layout::before(
            #[trigger] next_from[a],
            #[trigger] next_from[b],
        ) by {
            if b < kept {
                assert(crate::laws::layout::before(from[a], from[b]));
            } else if a < kept {
                assert(from[a].0 < base);
            } else {
                assert(at[a - kept] < at[b - kept]);
            }
        }
        let rest = crate::walk::visit_order(records, next, after);
        let later = lemma_origins(records, next, after, next_from, base + 1);
        let origins = seq![from.last()] + later;
        assert(order =~= seq![(folder, path)] + rest);
        assert(order[0] == (folder, path));
        assert forall|m: int| 0 <= m < origins.len() implies {
            ||| exists|i: int|
                0 <= i < waiting.len() && #[trigger] waiting[i] == order[m] && from[i]
                    == origins[m]
            ||| shown_at(records, order, base, m, #[trigger] origins[m]) && !seen.contains(
                order[m].0,
            )
        } by {
            if m == 0 {
                assert(waiting[kept] == order[0]);
            } else {
                let w = m - 1;
                assert(order[m] == rest[w]);
                assert(origins[m] == later[w]);
                if exists|i: int|
                    0 <= i < next.len() && #[trigger] next[i] == rest[w] && next_from[i]
                        == later[w] {
                    let i = choose|i: int|
                        0 <= i < next.len() && #[trigger] next[i] == rest[w] && next_from[i]
                            == later[w];
                    if i < kept {
                        assert(waiting[i] == order[m]);
                    } else {
                        assert(new[i - kept] == order[m]);
                        assert(later[w] == (base, at[i - kept]));
                        assert(!seen.contains(new[i - kept].0));
                        assert(shown_at(records, order, base, m, origins[m]));
                    }
                } else {
                    assert(shown_at(records, rest, base + 1, w, later[w]));
                    lemma_shown_later(
                        records,
                        order,
                        rest,
                        (folder, path),
                        base,
                        w,
                        later[w],
                        seen,
                    );
                    assert(after.contains(order[m].0) <==> seen.contains(order[m].0)
                        || has_folder(new, order[m].0));
                }
            }
        }
        assert forall|a: int, b: int|
            0 <= a < b < origins.len() && (#[trigger] origins[b]).0 < base
                + a implies crate::laws::layout::before(origins[b], #[trigger] origins[a]) by {
            assert(origins[b] == later[b - 1]);
            if a > 0 {
                assert(origins[a] == later[a - 1]);
            } else {
                let w = b - 1;
                assert(!shown_at(records, rest, base + 1, w, later[w]));
                let i = choose|i: int|
                    0 <= i < next.len() && #[trigger] next[i] == rest[w] && next_from[i]
                        == later[w];
                assert(i < kept);
                assert(crate::laws::layout::before(from[i], from[kept]));
            }
        }
        origins
    }
}

proof fn lemma_shown_later(
    records: Seq<Seq<u8>>,
    order: Seq<(u32, Seq<char>)>,
    rest: Seq<(u32, Seq<char>)>,
    first: (u32, Seq<char>),
    base: int,
    w: int,
    origin: (int, int),
    seen: Set<u32>,
)
    requires
        order == seq![first] + rest,
        0 <= w < rest.len(),
        shown_at(records, rest, base + 1, w, origin),
        !crate::walk::seen_with(crate::catalog::children(records, first.0), seen).contains(
            rest[w].0,
        ),
    ensures
        shown_at(records, order, base, w + 1, origin),
{
    let p = origin.0 - base;
    assert(order[p] == rest[p - 1]);
    assert(order[w + 1] == rest[w]);
    assert forall|q: int, entry: EntryModel|
        0 <= q < p && #[trigger] crate::catalog::children(records, order[q].0).contains(entry)
            && entry.is_dir implies entry.cnid != order[w + 1].0 by {
        if q == 0 {
            lemma_entries_seen(crate::catalog::children(records, first.0), seen, entry);
        } else {
            assert(order[q] == rest[q - 1]);
        }
    }
}

/// The walk begins at the root, with the empty path. Every other folder is listed
/// after the one whose listing first showed it, under the path joined there; and
/// of two folders that wait at the same time, the one that was shown last is
/// listed first.
pub proof fn law_folder_order(records: Seq<Seq<u8>>) -> (origins: Seq<(int, int)>)
    ensures
        crate::walk::folders(records).len() > 0,
        crate::walk::folders(records)[0].0 == 2,
        crate::walk::folders(records)[0].1.len() == 0,
        origins.len() == crate::walk::folders(records).len(),
        forall|m: int|
            0 < m < origins.len() ==> crate::walk::folders(records)[m].0 != 2 && shown_at(
                records,
                crate::walk::folders(records),
                0,
                m,
                #[trigger] origins[m],
            ),
        last_shown_first(origins, 0),
{
    let root = (ROOT_FOLDER_CNID, Seq::<char>::empty());
    let waiting = seq![root];
    let seen = Set::empty().insert(ROOT_FOLDER_CNID);
    let order = crate::walk::folders(records);
    let origins = lemma_origins(records, waiting, seen, seq![(-1int, 0int)], 0);
    assert(order == crate::walk::visit_order(records, waiting, seen));
    law_folders_listed_once(records);
    assert(order[0] == root);
    assert forall|m: int| 0 < m < origins.len() implies order[m].0 != 2 && shown_at(
        records,
        order,
        0,
        m,
        #[trigger] origins[m],
    ) by {
        assert(order[0].0 != order[m].0);
        if exists|i: int|
            0 <= i < waiting.len() && #[trigger] waiting[i] == order[m] && seq![(-1int, 0int)][i]
                == origins[m] {
            assert(order[m] == root);
        }
    }
    origins
}

} // verus!
