//! The whole tree of a volume, as paths.

use crate::catalog::{list_dir, EntryModel, HfsEntry, ROOT_FOLDER_CNID};
use std::collections::HashSet;
use vstd::prelude::*;

verus! {

broadcast use vstd::std_specs::hash::group_hash_axioms;

/// A path-qualified entry produced by [`walk`].
#[derive(Debug, Clone, PartialEq, Eq)]
pub struct HfsPathEntry {
    /// `/`-joined path from the volume root (for instance `"SUB/NESTED.TXT"`).
    pub path: String,
    /// True for a folder.
    pub is_dir: bool,
    /// Catalog node ID (CNID).
    pub cnid: u32,
}

/// What an [`HfsPathEntry`] says.
#[verifier::ext_equal]
pub struct PathModel {
    /// The path, as characters.
    pub path: Seq<char>,
    /// True for a folder.
    pub is_dir: bool,
    /// Catalog node ID.
    pub cnid: u32,
}

impl View for HfsPathEntry {
    type V = PathModel;

    open spec fn view(&self) -> PathModel {
        PathModel { path: self.path@, is_dir: self.is_dir, cnid: self.cnid }
    }
}

/// What a list of path-qualified entries says.
pub open spec fn path_models(entries: Seq<HfsPathEntry>) -> Seq<PathModel> {
    entries.map_values(|entry: HfsPathEntry| entry@)
}

/// The path of `name` in the folder whose path is `prefix`; the root has the
/// empty path.
pub open spec fn joined(prefix: Seq<char>, name: Seq<char>) -> Seq<char> {
    if prefix.len() == 0 {
        name
    } else {
        prefix + "/"@ + name
    }
}

/// An entry of the folder whose path is `prefix`, with its path.
pub open spec fn located(prefix: Seq<char>, entry: EntryModel) -> PathModel {
    PathModel { path: joined(prefix, entry.name), is_dir: entry.is_dir, cnid: entry.cnid }
}

/// The listing of the folder whose path is `prefix`, with paths.
pub open spec fn listed(entries: Seq<EntryModel>, prefix: Seq<char>) -> Seq<PathModel> {
    entries.map_values(|entry: EntryModel| located(prefix, entry))
}

/// The folders among `entries` that have not been seen, each once, with their
/// paths.
pub open spec fn new_folders(
    entries: Seq<EntryModel>,
    prefix: Seq<char>,
    seen: Set<u32>,
) -> Seq<(u32, Seq<char>)>
    decreases entries.len(),
{
    if entries.len() == 0 {
        Seq::empty()
    } else {
        let entry = entries[0];
        if entry.is_dir && !seen.contains(entry.cnid) {
            seq![(entry.cnid, joined(prefix, entry.name))] + new_folders(
                entries.drop_first(),
                prefix,
                seen.insert(entry.cnid),
            )
        } else {
            new_folders(entries.drop_first(), prefix, seen)
        }
    }
}

/// The folders seen once `entries` have been, too.
pub open spec fn seen_with(entries: Seq<EntryModel>, seen: Set<u32>) -> Set<u32>
    decreases entries.len(),
{
    if entries.len() == 0 {
        seen
    } else if entries[0].is_dir {
        seen_with(entries.drop_first(), seen.insert(entries[0].cnid))
    } else {
        seen_with(entries.drop_first(), seen)
    }
}

/// The CNIDs that are not among `seen`.
pub open spec fn unseen(seen: Set<u32>) -> Set<int> {
    vstd::set_lib::set_int_range(0, 0x1_0000_0000).filter(|n: int| !seen.contains(n as u32))
}

/// The folders in the order in which they are listed, given those that wait to
/// be. The last one that waits is next; the folders that it shows for the first
/// time then wait behind the others.
pub open spec fn visit_order(
    records: Seq<Seq<u8>>,
    waiting: Seq<(u32, Seq<char>)>,
    seen: Set<u32>,
) -> Seq<(u32, Seq<char>)>
    decreases unseen(seen).len(), waiting.len(),
{
    if waiting.len() == 0 {
        Seq::empty()
    } else {
        let (folder, path) = waiting.last();
        let entries = crate::catalog::children(records, folder);
        proof {
            lemma_visit_decreases(entries, path, seen);
        }
        seq![(folder, path)] + visit_order(
            records,
            waiting.drop_last() + new_folders(entries, path, seen),
            seen_with(entries, seen),
        )
    }
}

/// The folders of a tree, from the root on.
pub open spec fn folders(records: Seq<Seq<u8>>) -> Seq<(u32, Seq<char>)> {
    visit_order(
        records,
        seq![(ROOT_FOLDER_CNID, Seq::empty())],
        Set::empty().insert(ROOT_FOLDER_CNID),
    )
}

/// The listings of `folders`, one after the other.
pub open spec fn listings(records: Seq<Seq<u8>>, folders: Seq<(u32, Seq<char>)>) -> Seq<PathModel>
    decreases folders.len(),
{
    if folders.len() == 0 {
        Seq::empty()
    } else {
        listed(crate::catalog::children(records, folders[0].0), folders[0].1) + listings(
            records,
            folders.drop_first(),
        )
    }
}

/// The tree of a volume, or `None` when it has no catalog.
pub open spec fn tree(volume: Seq<u8>) -> Option<Seq<PathModel>> {
    match crate::catalog::catalog_records(volume) {
        Some(records) => Some(listings(records, folders(records))),
        None => None,
    }
}

proof fn lemma_seen_grows(entries: Seq<EntryModel>, path: Seq<char>, seen: Set<u32>)
    ensures
        seen.subset_of(seen_with(entries, seen)),
        new_folders(entries, path, seen).len() == 0 ==> seen_with(entries, seen) == seen,
        new_folders(entries, path, seen).len() > 0 ==> {
            let first = new_folders(entries, path, seen)[0].0;
            !seen.contains(first) && seen_with(entries, seen).contains(first)
        },
    decreases entries.len(),
{
    if entries.len() > 0 {
        let entry = entries[0];
        if entry.is_dir {
            lemma_seen_grows(entries.drop_first(), path, seen.insert(entry.cnid));
            if seen.contains(entry.cnid) {
                assert(seen.insert(entry.cnid) =~= seen);
            }
        } else {
            lemma_seen_grows(entries.drop_first(), path, seen);
        }
    }
}

proof fn lemma_unseen_finite(seen: Set<u32>)
    ensures
        unseen(seen).finite(),
{
    vstd::set_lib::lemma_int_range(0, 0x1_0000_0000);
}

/// Listing a folder either shows a new one, so that fewer CNIDs are unseen, or
/// leaves what has been seen as it was.
pub proof fn lemma_visit_decreases(entries: Seq<EntryModel>, path: Seq<char>, seen: Set<u32>)
    ensures
        new_folders(entries, path, seen).len() == 0 ==> seen_with(entries, seen) == seen,
        new_folders(entries, path, seen).len() > 0 ==> unseen(seen_with(entries, seen)).len()
            < unseen(seen).len(),
{
    lemma_seen_grows(entries, path, seen);
    let after = seen_with(entries, seen);
    if new_folders(entries, path, seen).len() > 0 {
        let first = new_folders(entries, path, seen)[0].0;
        lemma_unseen_finite(seen);
        lemma_unseen_finite(after);
        assert(unseen(seen).contains(first as int));
        assert(!unseen(after).contains(first as int));
        assert(unseen(after).subset_of(unseen(seen).remove(first as int)));
        vstd::set_lib::lemma_len_subset(unseen(after), unseen(seen).remove(first as int));
    }
}

/// What the folders that wait to be listed say.
spec fn waiting_models(waiting: Seq<(u32, String)>) -> Seq<(u32, Seq<char>)> {
    waiting.map_values(|folder: (u32, String)| (folder.0, folder.1@))
}

/// The path of `name` in the folder `prefix`.
pub fn join_path(prefix: &String, name: &String) -> (path: String)
    ensures
        path@ == joined(prefix@, name@),
{
    if prefix.as_str().is_empty() {
        name.clone()
    } else {
        let mut path: String = prefix.clone();
        path.append("/");
        path.append(name.as_str());
        path
    }
}

/// Lists one folder: its entries go to `out`, and its folders that have not been
/// seen to `waiting`.
fn visit(
    entries: &Vec<HfsEntry>,
    prefix: &String,
    out: &mut Vec<HfsPathEntry>,
    waiting: &mut Vec<(u32, String)>,
    seen: &mut HashSet<u32>,
)
    ensures
        path_models(final(out)@) == path_models(old(out)@) + listed(
            crate::catalog::entry_models(entries@),
            prefix@,
        ),
        waiting_models(final(waiting)@) == waiting_models(old(waiting)@) + new_folders(
            crate::catalog::entry_models(entries@),
            prefix@,
            old(seen)@,
        ),
        final(seen)@ == seen_with(crate::catalog::entry_models(entries@), old(seen)@),
{
    let ghost models = crate::catalog::entry_models(entries@);
    let mut i: usize = 0;
    assert(models.skip(0) =~= models);
    while i < entries.len()
        invariant
            i <= entries@.len(),
            models == crate::catalog::entry_models(entries@),
            path_models(out@) =~= path_models(old(out)@) + listed(models, prefix@).take(i as int),
            waiting_models(waiting@) + new_folders(models.skip(i as int), prefix@, seen@)
                =~= waiting_models(old(waiting)@) + new_folders(models, prefix@, old(seen)@),
            seen_with(models.skip(i as int), seen@) == seen_with(models, old(seen)@),
        decreases entries@.len() - i,
    {
        let entry = &entries[i];
        let path: String = join_path(prefix, &entry.name);
        let ghost left = models.skip(i as int);
        let ghost waited = waiting@;
        let ghost listed_before = out@;
        proof {
            assert(left[0] == entry@);
            assert(left.drop_first() =~= models.skip(i + 1));
            if seen@.contains(entry.cnid) {
                assert(seen@.insert(entry.cnid) =~= seen@);
            }
        }
        if entry.is_dir && seen.insert(entry.cnid) {
            waiting.push((entry.cnid, path.clone()));
            assert(waiting_models(waiting@) =~= waiting_models(waited).push(
                (entry.cnid, path@),
            ));
        }
        out.push(HfsPathEntry { path, is_dir: entry.is_dir, cnid: entry.cnid });
        proof {
            assert(path_models(out@) =~= path_models(listed_before).push(
                located(prefix@, entry@),
            ));
            assert(listed(models, prefix@).take(i + 1) =~= listed(models, prefix@).take(
                i as int,
            ).push(located(prefix@, entry@)));
        }
        i = i + 1;
    }
    proof {
        assert(models.skip(i as int) =~= Seq::<EntryModel>::empty());
        assert(listed(models, prefix@).take(i as int) =~= listed(models, prefix@));
    }
}

/// Recursively lists every file and folder of a volume, from the root, with
/// `/`-joined paths.
///
/// Returns `None` if this is not an HFS+ volume. Each folder is listed once, so
/// a cycle in a corrupt catalog does no harm.
#[must_use]
pub fn walk(volume: &[u8]) -> (listing: Option<Vec<HfsPathEntry>>)
    ensures
        match listing {
            Some(entries) => tree(volume@) == Some(path_models(entries@)),
            None => tree(volume@) is None,
        },
{
    if list_dir(volume, ROOT_FOLDER_CNID).is_none() {
        return None;
    }
    let ghost records = crate::catalog::catalog_records(volume@)->0;
    let mut out: Vec<HfsPathEntry> = Vec::new();
    let mut seen: HashSet<u32> = HashSet::new();
    seen.insert(ROOT_FOLDER_CNID);
    let mut waiting: Vec<(u32, String)> = Vec::new();
    waiting.push((ROOT_FOLDER_CNID, String::new()));
    assert(waiting_models(waiting@) =~= seq![(ROOT_FOLDER_CNID, Seq::<char>::empty())]);
    assert(path_models(out@) =~= Seq::<PathModel>::empty());
    loop
        invariant
            crate::catalog::catalog_records(volume@) == Some(records),
            path_models(out@) + listings(
                records,
                visit_order(records, waiting_models(waiting@), seen@),
            ) =~= listings(records, folders(records)),
        ensures
            path_models(out@) =~= listings(records, folders(records)),
        decreases unseen(seen@).len(), waiting@.len(),
    {
        let ghost before = waiting@;
        let (parent, prefix) = match waiting.pop() {
            Some(folder) => folder,
            None => break ,
        };
        let entries = match list_dir(volume, parent) {
            Some(entries) => entries,
            None => return None,
        };
        proof {
            let models = crate::catalog::entry_models(entries@);
            lemma_visit_decreases(models, prefix@, seen@);
            assert(waiting_models(before).last() == (parent, prefix@));
            assert(waiting_models(before).drop_last() =~= waiting_models(waiting@));
            let order = visit_order(records, waiting_models(before), seen@);
            assert(order.drop_first() =~= visit_order(
                records,
                waiting_models(waiting@) + new_folders(models, prefix@, seen@),
                seen_with(models, seen@),
            ));
        }
        visit(&entries, &prefix, &mut out, &mut waiting, &mut seen);
    }
    Some(out)
}

} // verus!
