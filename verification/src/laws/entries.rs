//! Laws of names, of the entries and the metadata that catalog records tell, and
//! of directory listings, in terms of the bytes of the records.

use crate::catalog::{EntryModel, HfsStat};
use crate::laws::layout::{law_integers, lemma_first_kept, lemma_kept};
use vstd::prelude::*;

verus! {

// ---- Names ----

/// Whether the character `c` stands for the UTF-16 units from `u` up to `v`, of
/// `n` units at `at`: a surrogate pair is one character, a surrogate without its
/// partner is U+FFFD, and any other unit is its own character.
pub open spec fn unit_char(s: Seq<u8>, at: int, n: int, u: int, v: int, c: char) -> bool {
    let unit = crate::laws::layout::num16(s, at + 2 * u);
    let next = crate::laws::layout::num16(s, at + 2 * (u + 1));
    if 0xD800 <= unit <= 0xDBFF && u + 1 < n && 0xDC00 <= next <= 0xDFFF {
        v == u + 2 && c as int == 0x1_0000 + 0x400 * (unit - 0xD800) + (next - 0xDC00)
    } else {
        v == u + 1 && c as int == if 0xD800 <= unit <= 0xDFFF {
            0xFFFD
        } else {
            unit
        }
    }
}

/// Whether the `n` units at `at` spell `text`, the character `j` of which begins
/// at unit `starts[j]`.
pub open spec fn spells(s: Seq<u8>, at: int, n: int, text: Seq<char>, starts: Seq<int>) -> bool {
    &&& starts.len() == text.len() + 1
    &&& starts[0] == 0
    &&& starts[text.len() as int] == n
    &&& forall|j: int|
        0 <= j < text.len() ==> unit_char(s, at, n, starts[j], starts[j + 1], #[trigger] text[j])
}

/// Whether none of the `n` units at `at` is a surrogate.
pub open spec fn plain_units(s: Seq<u8>, at: int, n: int) -> bool {
    forall|i: int|
        0 <= i < n ==> !(0xD800 <= #[trigger] crate::laws::layout::num16(s, at + 2 * i) <= 0xDFFF)
}

/// Whether `text` is the whole name that the `n` units at `at` spell. Without
/// surrogates it has a character for each unit.
pub open spec fn named(s: Seq<u8>, at: int, n: int, text: Seq<char>) -> bool {
    &&& exists|starts: Seq<int>| spells(s, at, n, text, starts)
    &&& plain_units(s, at, n) ==> text.len() == n && forall|i: int|
        0 <= i < n ==> #[trigger] text[i] as int == crate::laws::layout::num16(s, at + 2 * i)
}

proof fn lemma_text(s: Seq<u8>, at: int, units: Seq<u16>, from: int) -> (starts: Seq<int>)
    requires
        0 <= from <= units.len(),
        forall|u: int|
            0 <= u < units.len() ==> #[trigger] units[u] == crate::laws::layout::num16(
                s,
                at + 2 * u,
            ),
    ensures
        starts.len() == crate::text::utf16_text(units.skip(from)).len() + 1,
        starts[0] == from,
        starts[starts.len() - 1] == units.len(),
        forall|j: int|
            0 <= j < crate::text::utf16_text(units.skip(from)).len() ==> unit_char(
                s,
                at,
                units.len() as int,
                starts[j],
                starts[j + 1],
                #[trigger] crate::text::utf16_text(units.skip(from))[j],
            ),
    decreases units.len() - from,
{
    let left = units.skip(from);
    let text = crate::text::utf16_text(left);
    if left.len() == 0 {
        seq![from]
    } else {
        let unit = left[0];
        assert(unit == units[from]);
        let paired = crate::text::is_high_surrogate(unit) && left.len() >= 2
            && crate::text::is_low_surrogate(left[1]);
        let step: int = if paired {
            2
        } else {
            1
        };
        if left.len() >= 2 {
            assert(left[1] == units[from + 1]);
        }
        let tail = lemma_text(s, at, units, from + step);
        assert(left.skip(step) =~= units.skip(from + step));
        let rest = crate::text::utf16_text(units.skip(from + step));
        let starts = seq![from] + tail;
        assert(text.len() == rest.len() + 1);
        assert(unit_char(s, at, units.len() as int, from, from + step, text[0]));
        assert forall|j: int| 0 <= j < text.len() implies unit_char(
            s,
            at,
            units.len() as int,
            starts[j],
            starts[j + 1],
            #[trigger] text[j],
        ) by {
            if j > 0 {
                assert(text[j] == rest[j - 1]);
                assert(starts[j] == tail[j - 1]);
                assert(starts[j + 1] == tail[j]);
            }
        }
        starts
    }
}

proof fn lemma_plain(s: Seq<u8>, at: int, n: int, text: Seq<char>, starts: Seq<int>, j: int)
    requires
        spells(s, at, n, text, starts),
        plain_units(s, at, n),
        0 <= j <= text.len(),
        n >= 0,
    ensures
        starts[j] == j,
        j <= n,
    decreases j,
{
    if j > 0 {
        lemma_plain(s, at, n, text, starts, j - 1);
        assert(unit_char(s, at, n, starts[j - 1], starts[j - 1 + 1], text[j - 1]));
        if j - 1 >= n {
            lemma_starts_grow(s, at, n, text, starts, j);
        }
        assert(!(0xD800 <= crate::laws::layout::num16(s, at + 2 * (j - 1)) <= 0xDFFF));
    }
}

proof fn lemma_starts_grow(s: Seq<u8>, at: int, n: int, text: Seq<char>, starts: Seq<int>, j: int)
    requires
        spells(s, at, n, text, starts),
        0 < j <= text.len(),
    ensures
        starts[j - 1] < n,
    decreases text.len() - j,
{
    assert(unit_char(s, at, n, starts[j - 1], starts[j - 1 + 1], text[j - 1]));
    if j < text.len() {
        lemma_starts_grow(s, at, n, text, starts, j + 1);
    }
}

/// A name is spelled by its bytes, whole: character by character, from the first
/// unit to the last.
pub proof fn law_names(s: Seq<u8>, at: int, n: int)
    requires
        0 <= at,
        0 <= n,
        at + 2 * n <= s.len(),
    ensures
        named(s, at, n, crate::text::name_text(s.subrange(at, at + 2 * n))),
{
    let bytes = s.subrange(at, at + 2 * n);
    let units = crate::text::be_units(bytes);
    let text = crate::text::name_text(bytes);
    assert forall|u: int| 0 <= u < units.len() implies #[trigger] units[u]
        == crate::laws::layout::num16(s, at + 2 * u) by {
        law_integers(bytes, 2 * u);
        assert(bytes[2 * u] == s[at + 2 * u] && bytes[2 * u + 1] == s[at + 2 * u + 1]);
    }
    let starts = lemma_text(s, at, units, 0);
    assert(units.skip(0) =~= units);
    assert(units.len() == n);
    assert(spells(s, at, n, text, starts));
    if plain_units(s, at, n) {
        lemma_plain(s, at, n, text, starts, text.len() as int);
        assert forall|i: int| 0 <= i < n implies #[trigger] text[i] as int
            == crate::laws::layout::num16(s, at + 2 * i) by {
            lemma_plain(s, at, n, text, starts, i);
            assert(unit_char(s, at, n, starts[i], starts[i + 1], text[i]));
        }
    }
}

proof fn lemma_same_starts(
    s: Seq<u8>,
    at: int,
    n: int,
    a: (Seq<char>, Seq<int>),
    b: (Seq<char>, Seq<int>),
    j: int,
)
    requires
        spells(s, at, n, a.0, a.1),
        spells(s, at, n, b.0, b.1),
        0 <= j <= a.0.len(),
        j <= b.0.len(),
    ensures
        a.1[j] == b.1[j],
        forall|i: int| 0 <= i < j ==> #[trigger] a.0[i] == b.0[i],
    decreases j,
{
    if j > 0 {
        lemma_same_starts(s, at, n, a, b, j - 1);
        assert(unit_char(s, at, n, a.1[j - 1], a.1[j - 1 + 1], a.0[j - 1]));
        assert(unit_char(s, at, n, b.1[j - 1], b.1[j - 1 + 1], b.0[j - 1]));
    }
}

/// Bytes spell one name only.
pub proof fn law_names_determined(s: Seq<u8>, at: int, n: int, a: Seq<char>, b: Seq<char>)
    requires
        named(s, at, n, a),
        named(s, at, n, b),
    ensures
        a == b,
{
    let sa = choose|starts: Seq<int>| spells(s, at, n, a, starts);
    let sb = choose|starts: Seq<int>| spells(s, at, n, b, starts);
    let least = if a.len() <= b.len() {
        a.len() as int
    } else {
        b.len() as int
    };
    assert(spells(s, at, n, a, sa));
    assert(spells(s, at, n, b, sb));
    lemma_same_starts(s, at, n, (a, sa), (b, sb), least);
    if a.len() < b.len() {
        lemma_starts_grow(s, at, n, b, sb, least + 1);
        assert(sb[least] < n);
        assert(sa[least] == n);
    }
    if b.len() < a.len() {
        lemma_starts_grow(s, at, n, a, sa, least + 1);
        assert(sa[least] < n);
        assert(sb[least] == n);
    }
    assert(a.len() == b.len());
    assert forall|i: int| 0 <= i < a.len() implies a[i] == b[i] by {
        assert((a, sa).0[i] == (b, sb).0[i]);
    }
    assert(a =~= b);
}

// ---- Entries ----

/// Where the body of a record begins: behind the two bytes of the key length and
/// the key.
pub open spec fn body_at(rec: Seq<u8>) -> int {
    2 + crate::laws::layout::num16(rec, 0)
}

/// The record type, the first two bytes of the body.
pub open spec fn type_of(rec: Seq<u8>) -> int {
    crate::laws::layout::num16(rec, body_at(rec))
}

/// The CNID that the body of a file or folder record gives.
pub open spec fn cnid_in(rec: Seq<u8>) -> int {
    crate::laws::layout::num32(rec, body_at(rec) + 8)
}

/// Whether the record holds a catalog key with its whole name.
pub open spec fn has_key(rec: Seq<u8>) -> bool {
    rec.len() >= 8 && 8 + 2 * crate::laws::layout::num16(rec, 6) <= rec.len()
}

/// Whether a record is that of a folder (type 1) or a file (type 2).
pub open spec fn is_entry(rec: Seq<u8>) -> bool {
    &&& has_key(rec)
    &&& body_at(rec) + 12 <= rec.len()
    &&& type_of(rec) == 1 || type_of(rec) == 2
}

/// Whether a record tells of `entry`: its name is the whole name in the key, its
/// kind is that of the record, and its CNID that of the body.
pub open spec fn tells_entry(rec: Seq<u8>, entry: EntryModel) -> bool {
    &&& is_entry(rec)
    &&& named(rec, 8, crate::laws::layout::num16(rec, 6), entry.name)
    &&& entry.is_dir <==> type_of(rec) == 1
    &&& entry.cnid == cnid_in(rec)
}

/// A record gives an entry if and only if it is that of a file or folder, and
/// then the parent and the entry are those that its bytes tell.
pub proof fn law_entry_of_record(rec: Seq<u8>)
    ensures
        crate::catalog::record_entry_model(rec) is Some <==> is_entry(rec),
        crate::catalog::record_entry_model(rec) matches Some((parent, entry)) ==> {
            &&& parent == crate::laws::layout::num32(rec, 2)
            &&& tells_entry(rec, entry)
        },
{
    law_integers(rec, 0);
    law_integers(rec, 2);
    law_integers(rec, 6);
    law_integers(rec, body_at(rec));
    law_integers(rec, body_at(rec) + 8);
    if is_entry(rec) {
        law_names(rec, 8, crate::laws::layout::num16(rec, 6));
    }
}

/// The entry that a record gives under the folder `parent`.
spec fn entry_under(parent: u32) -> spec_fn(Seq<u8>) -> Option<EntryModel> {
    |rec: Seq<u8>|
        match crate::catalog::record_entry_model(rec) {
            Some((of, entry)) => if of == parent {
                Some(entry)
            } else {
                None
            },
            None => None,
        }
}

proof fn lemma_children(records: Seq<Seq<u8>>, parent: u32)
    ensures
        crate::catalog::children(records, parent) == crate::laws::layout::kept(
            records,
            entry_under(parent),
        ),
    decreases records.len(),
{
    if records.len() > 0 {
        lemma_children(records.drop_first(), parent);
    }
}

/// Whether `listing` is what the records tell of the folder `parent`: `picks`
/// are the records of its entries, all of them, in order.
pub open spec fn lists(
    records: Seq<Seq<u8>>,
    parent: u32,
    picks: Seq<int>,
    listing: Seq<EntryModel>,
) -> bool {
    &&& crate::laws::layout::increasing(picks)
    &&& picks.len() == listing.len()
    &&& forall|i: int| #[trigger]
        picks.contains(i) <==> 0 <= i < records.len() && is_entry(records[i])
            && crate::laws::layout::num32(records[i], 2) == parent
    &&& forall|j: int|
        0 <= j < listing.len() ==> tells_entry(records[picks[j]], #[trigger] listing[j])
}

/// A listing holds an entry for each file and folder record with that parent, in
/// the order of the records, and nothing else.
pub proof fn law_children_exact(records: Seq<Seq<u8>>, parent: u32) -> (picks: Seq<int>)
    ensures
        lists(records, parent, picks, crate::catalog::children(records, parent)),
{
    let f = entry_under(parent);
    lemma_children(records, parent);
    let picks = lemma_kept(records, f);
    let listing = crate::catalog::children(records, parent);
    assert forall|i: int| #[trigger] picks.contains(i) <==> 0 <= i < records.len() && is_entry(
        records[i],
    ) && crate::laws::layout::num32(records[i], 2) == parent by {
        if 0 <= i < records.len() {
            law_entry_of_record(records[i]);
            assert(f(records[i]) is Some <==> (crate::catalog::record_entry_model(records[i])
                matches Some((of, _)) && of == parent));
        }
    }
    assert forall|j: int| 0 <= j < listing.len() implies tells_entry(
        records[picks[j]],
        #[trigger] listing[j],
    ) by {
        assert(f(records[picks[j]]) == Some(listing[j]));
        law_entry_of_record(records[picks[j]]);
    }
    picks
}

/// A directory can be listed if and only if the volume has a catalog, and its
/// listing is what the records of the catalog tell.
pub proof fn law_directory_exact(volume: Seq<u8>, parent: u32) -> (picks: Seq<int>)
    ensures
        match crate::btree::catalog_loc(volume) {
            None => crate::catalog::directory(volume, parent) is None,
            Some(loc) => crate::catalog::directory(volume, parent) matches Some(listing) && lists(
                crate::btree::leaf_records(volume, loc),
                parent,
                picks,
                listing,
            ),
        },
{
    match crate::btree::catalog_loc(volume) {
        None => Seq::empty(),
        Some(loc) => law_children_exact(crate::btree::leaf_records(volume, loc), parent),
    }
}

// ---- Metadata ----

/// Whether a record gives the metadata of `cnid`: a folder record with its times,
/// or a file record with its whole data fork.
pub open spec fn has_stat(rec: Seq<u8>, cnid: u32) -> bool {
    &&& rec.len() >= 8
    &&& body_at(rec) + 28 <= rec.len()
    &&& type_of(rec) == 1 || type_of(rec) == 2 && body_at(rec) + 168 <= rec.len()
    &&& cnid_in(rec) == cnid
}

/// Whether `found` is the metadata that a record gives: the times stand 12, 16
/// and 24 bytes into its body, the size of a file 88 bytes.
pub open spec fn tells_stat(rec: Seq<u8>, found: HfsStat) -> bool {
    let body = body_at(rec);
    &&& found.cnid == cnid_in(rec)
    &&& found.is_dir <==> type_of(rec) == 1
    &&& found.size == if type_of(rec) == 1 {
        0
    } else {
        crate::laws::layout::num64(rec, body + 88)
    }
    &&& found.created == crate::laws::layout::num32(rec, body + 12)
    &&& found.modified == crate::laws::layout::num32(rec, body + 16)
    &&& found.accessed == crate::laws::layout::num32(rec, body + 24)
}

/// A record gives metadata if and only if it is that of the node, and gives what
/// its bytes tell.
pub proof fn law_stat_of_record(rec: Seq<u8>, cnid: u32)
    ensures
        crate::catalog::record_stat_model(rec, cnid) is Some <==> has_stat(rec, cnid),
        crate::catalog::record_stat_model(rec, cnid) matches Some(found) ==> tells_stat(rec, found),
{
    let body = body_at(rec);
    law_integers(rec, 0);
    law_integers(rec, body);
    law_integers(rec, body + 8);
    law_integers(rec, body + 12);
    law_integers(rec, body + 16);
    law_integers(rec, body + 24);
    law_integers(rec, body + 88);
}

/// The metadata that a record gives for `cnid`.
spec fn stat_for(cnid: u32) -> spec_fn(Seq<u8>) -> Option<HfsStat> {
    |rec: Seq<u8>| crate::catalog::record_stat_model(rec, cnid)
}

proof fn lemma_first_stat(records: Seq<Seq<u8>>, cnid: u32)
    ensures
        crate::catalog::first_stat(records, cnid) == crate::laws::layout::first_kept(
            records,
            stat_for(cnid),
        ),
    decreases records.len(),
{
    if records.len() > 0 {
        lemma_first_stat(records.drop_first(), cnid);
    }
}

/// The metadata of a node is what the first record that gives any tells, and
/// there is none if no record does.
pub proof fn law_stat_exact(volume: Seq<u8>, cnid: u32) -> (i: int)
    ensures
        match crate::btree::catalog_loc(volume) {
            None => crate::catalog::node_stat(volume, cnid) is None,
            Some(loc) => {
                let records = crate::btree::leaf_records(volume, loc);
                match crate::catalog::node_stat(volume, cnid) {
                    None => forall|j: int|
                        0 <= j < records.len() ==> !has_stat(#[trigger] records[j], cnid),
                    Some(found) => {
                        &&& 0 <= i < records.len()
                        &&& has_stat(records[i], cnid)
                        &&& tells_stat(records[i], found)
                        &&& forall|j: int| 0 <= j < i ==> !has_stat(#[trigger] records[j], cnid)
                    },
                }
            },
        },
{
    match crate::btree::catalog_loc(volume) {
        None => 0,
        Some(loc) => {
            let records = crate::btree::leaf_records(volume, loc);
            let f = stat_for(cnid);
            lemma_first_stat(records, cnid);
            let i = lemma_first_kept(records, f);
            assert forall|j: int| 0 <= j < records.len() implies (f(#[trigger] records[j]) is Some
                <==> has_stat(records[j], cnid)) by {
                law_stat_of_record(records[j], cnid);
            }
            if 0 <= i < records.len() {
                law_stat_of_record(records[i], cnid);
            }
            i
        },
    }
}

} // verus!
