//! Laws of extended attributes, in terms of the bytes of their records.

use crate::attributes::{AttrStorageModel, AttributeModel};
use crate::laws::entries::{law_names, unit_char};
use crate::laws::layout::{law_integers, lemma_first_kept, lemma_kept};
use vstd::prelude::*;

verus! {

/// Whether a record holds an inline value (type 0x10): as many bytes behind the
/// first 16 of its body as those 12 into it say.
pub open spec fn holds_inline(rec: Seq<u8>) -> bool {
    let body = crate::laws::entries::body_at(rec);
    &&& body + 16 <= rec.len()
    &&& crate::laws::layout::num32(rec, body) == 0x10
    &&& body + 16 + crate::laws::layout::num32(rec, body + 12) <= rec.len()
}

/// Whether a record holds fork data (type 0x20), eight bytes into its body.
pub open spec fn holds_fork(rec: Seq<u8>) -> bool {
    let body = crate::laws::entries::body_at(rec);
    &&& body + 88 <= rec.len()
    &&& crate::laws::layout::num32(rec, body) == 0x20
}

/// Whether a record holds the key of an attribute with its whole name.
pub open spec fn has_attribute_key(rec: Seq<u8>) -> bool {
    rec.len() >= 14 && 14 + 2 * crate::laws::layout::num16(rec, 12) <= rec.len()
}

/// Whether a record is that of an attribute.
pub open spec fn is_attribute(rec: Seq<u8>) -> bool {
    has_attribute_key(rec) && (holds_inline(rec) || holds_fork(rec))
}

/// Whether a record tells of `attribute`: the node and the name in its key, and
/// the value or the fork in its body.
pub open spec fn tells_attribute(rec: Seq<u8>, attribute: AttributeModel) -> bool {
    let body = crate::laws::entries::body_at(rec);
    &&& is_attribute(rec)
    &&& attribute.cnid == crate::laws::layout::num32(rec, 4)
    &&& crate::laws::entries::named(
        rec,
        14,
        crate::laws::layout::num16(rec, 12),
        attribute.name,
    )
    &&& match attribute.storage {
        AttrStorageModel::Inline(value) => holds_inline(rec) && value == rec.subrange(
            body + 16,
            body + 16 + crate::laws::layout::num32(rec, body + 12),
        ),
        AttrStorageModel::Fork(fork) => holds_fork(rec) && crate::laws::content::fork_told(
            rec,
            body + 8,
            fork,
        ),
    }
}

/// A record gives an attribute if and only if it is that of one, and then the one
/// that its bytes tell.
pub proof fn law_attribute_of_record(rec: Seq<u8>)
    ensures
        crate::attributes::record_attribute_model(rec) is Some <==> is_attribute(rec),
        crate::attributes::record_attribute_model(rec) matches Some(attribute) ==> tells_attribute(
            rec,
            attribute,
        ),
{
    let body = crate::laws::entries::body_at(rec);
    law_integers(rec, 0);
    law_integers(rec, 4);
    law_integers(rec, 12);
    law_integers(rec, body);
    law_integers(rec, body + 12);
    if is_attribute(rec) {
        law_names(rec, 14, crate::laws::layout::num16(rec, 12));
        if holds_fork(rec) {
            crate::laws::content::law_fork_at(rec, body + 8);
        }
    }
}

/// The attribute that a record gives for `cnid`.
spec fn attribute_for(cnid: u32) -> spec_fn(Seq<u8>) -> Option<AttributeModel> {
    |rec: Seq<u8>|
        match crate::attributes::record_attribute_model(rec) {
            Some(attribute) => if attribute.cnid == cnid {
                Some(attribute)
            } else {
                None
            },
            None => None,
        }
}

proof fn lemma_attributes_kept(records: Seq<Seq<u8>>, cnid: u32)
    ensures
        crate::attributes::attributes_among(records, cnid) == crate::laws::layout::kept(
            records,
            attribute_for(cnid),
        ),
    decreases records.len(),
{
    if records.len() > 0 {
        lemma_attributes_kept(records.drop_first(), cnid);
    }
}

/// Whether `attributes` are what the records tell of the node `cnid`: `picks` are
/// the records of its attributes, all of them, in order.
pub open spec fn carries(
    records: Seq<Seq<u8>>,
    cnid: u32,
    picks: Seq<int>,
    attributes: Seq<AttributeModel>,
) -> bool {
    &&& crate::laws::layout::increasing(picks)
    &&& picks.len() == attributes.len()
    &&& forall|i: int| #[trigger]
        picks.contains(i) <==> 0 <= i < records.len() && is_attribute(records[i])
            && crate::laws::layout::num32(records[i], 4) == cnid
    &&& forall|j: int|
        0 <= j < attributes.len() ==> tells_attribute(records[picks[j]], #[trigger] attributes[j])
}

/// The attributes of a node are those that the records of the attributes B-tree
/// tell of it, all of them, in the order of the records; without that tree there
/// are none.
pub proof fn law_node_attributes_exact(volume: Seq<u8>, cnid: u32) -> (picks: Seq<int>)
    ensures
        match crate::btree::attributes_loc(volume) {
            None => crate::attributes::node_attributes(volume, cnid).len() == 0,
            Some(loc) => carries(
                crate::btree::leaf_records(volume, loc),
                cnid,
                picks,
                crate::attributes::node_attributes(volume, cnid),
            ),
        },
{
    match crate::btree::attributes_loc(volume) {
        None => Seq::empty(),
        Some(loc) => {
            let records = crate::btree::leaf_records(volume, loc);
            let attributes = crate::attributes::node_attributes(volume, cnid);
            let f = attribute_for(cnid);
            lemma_attributes_kept(records, cnid);
            let picks = lemma_kept(records, f);
            assert forall|i: int| #[trigger]
                picks.contains(i) <==> 0 <= i < records.len() && is_attribute(records[i])
                    && crate::laws::layout::num32(records[i], 4) == cnid by {
                if 0 <= i < records.len() {
                    law_attribute_of_record(records[i]);
                    assert(f(records[i]) is Some <==> (crate::attributes::record_attribute_model(
                        records[i],
                    ) matches Some(attribute) && attribute.cnid == cnid));
                }
            }
            assert forall|j: int| 0 <= j < attributes.len() implies tells_attribute(
                records[picks[j]],
                #[trigger] attributes[j],
            ) by {
                assert(f(records[picks[j]]) == Some(attributes[j]));
                law_attribute_of_record(records[picks[j]]);
            }
            picks
        },
    }
}

/// The value of an attribute is the one in its record, or the content of its
/// fork, and its size is the length of the one or the logical size of the other.
pub proof fn law_attribute_values(
    attribute: AttributeModel,
    volume: Seq<u8>,
    block_size: usize,
)
    ensures
        match attribute.storage {
            AttrStorageModel::Inline(value) => {
                &&& attribute.size() == value.len()
                &&& attribute.value(volume, block_size) == Some(value)
            },
            AttrStorageModel::Fork(fork) => {
                &&& attribute.size() == fork.logical
                &&& attribute.value(volume, block_size) == crate::forks::fork_content(
                    volume,
                    block_size,
                    fork,
                )
            },
        },
{
}

// ---- The mark of a compressed file ----

/// Whether the characters of `text` are ASCII.
pub open spec fn is_ascii(text: Seq<char>) -> bool {
    forall|i: int| 0 <= i < text.len() ==> (#[trigger] text[i] as int) < 0x80
}

/// Whether the `n` units at `at` are the characters of `text`, one for one.
pub open spec fn units_are(s: Seq<u8>, at: int, n: int, text: Seq<char>) -> bool {
    &&& n == text.len()
    &&& forall|i: int|
        0 <= i < n ==> crate::laws::layout::num16(s, at + 2 * i) == #[trigger] text[i] as int
}

proof fn lemma_ascii_starts(
    s: Seq<u8>,
    at: int,
    n: int,
    text: Seq<char>,
    starts: Seq<int>,
    j: int,
)
    requires
        crate::laws::entries::spells(s, at, n, text, starts),
        is_ascii(text),
        0 <= j <= text.len(),
    ensures
        starts[j] == j,
        forall|i: int|
            0 <= i < j ==> crate::laws::layout::num16(s, at + 2 * i) == #[trigger] text[i] as int,
    decreases j,
{
    if j > 0 {
        lemma_ascii_starts(s, at, n, text, starts, j - 1);
        assert(unit_char(s, at, n, starts[j - 1], starts[j - 1 + 1], text[j - 1]));
    }
}

proof fn lemma_ascii_name(s: Seq<u8>, at: int, n: int, name: Seq<char>, text: Seq<char>)
    requires
        crate::laws::entries::named(s, at, n, name),
        is_ascii(text),
        n >= 0,
    ensures
        name == text <==> units_are(s, at, n, text),
{
    if name == text {
        let starts = choose|starts: Seq<int>| crate::laws::entries::spells(s, at, n, text, starts);
        lemma_ascii_starts(s, at, n, text, starts, text.len() as int);
    }
    if units_are(s, at, n, text) {
        assert forall|i: int| 0 <= i < n implies !(0xD800
            <= #[trigger] crate::laws::layout::num16(s, at + 2 * i) <= 0xDFFF) by {
            assert((text[i] as int) < 0x80);
        }
        assert(name =~= text);
    }
}

/// Whether a record holds the mark of a compressed file for `cnid`: an inline
/// attribute with the name `com.apple.decmpfs`.
pub open spec fn is_mark(rec: Seq<u8>, cnid: u32) -> bool {
    &&& has_attribute_key(rec)
    &&& holds_inline(rec)
    &&& crate::laws::layout::num32(rec, 4) == cnid
    &&& units_are(rec, 14, crate::laws::layout::num16(rec, 12), "com.apple.decmpfs"@)
}

/// A record gives an attribute's inline value if and only if its key names the
/// node and the attribute, and then the bytes that it holds. The name is ASCII.
pub proof fn law_inline_value_of_record(rec: Seq<u8>, cnid: u32, name: Seq<char>)
    requires
        is_ascii(name),
    ensures
        crate::attributes::inline_value(rec, cnid, name) is Some <==> {
            &&& has_attribute_key(rec)
            &&& holds_inline(rec)
            &&& crate::laws::layout::num32(rec, 4) == cnid
            &&& units_are(rec, 14, crate::laws::layout::num16(rec, 12), name)
        },
        crate::attributes::inline_value(rec, cnid, name) matches Some(value) ==> {
            let body = crate::laws::entries::body_at(rec);
            value == rec.subrange(
                body + 16,
                body + 16 + crate::laws::layout::num32(rec, body + 12),
            )
        },
{
    law_attribute_of_record(rec);
    if let Some(attribute) = crate::attributes::record_attribute_model(rec) {
        lemma_ascii_name(
            rec,
            14,
            crate::laws::layout::num16(rec, 12),
            attribute.name,
            name,
        );
    }
}

/// The inline value that a record gives for the attribute `name` of `cnid`.
spec fn value_for(cnid: u32, name: Seq<char>) -> spec_fn(Seq<u8>) -> Option<Seq<u8>> {
    |rec: Seq<u8>| crate::attributes::inline_value(rec, cnid, name)
}

proof fn lemma_first_value(records: Seq<Seq<u8>>, cnid: u32, name: Seq<char>)
    ensures
        crate::attributes::first_inline_value(records, cnid, name)
            == crate::laws::layout::first_kept(records, value_for(cnid, name)),
    decreases records.len(),
{
    if records.len() > 0 {
        lemma_first_value(records.drop_first(), cnid, name);
    }
}

/// A file is marked as compressed if and only if the attributes B-tree holds a
/// mark for it, and the first mark counts.
pub proof fn law_mark_exact(volume: Seq<u8>, cnid: u32) -> (i: int)
    ensures
        match crate::btree::attributes_loc(volume) {
            None => crate::attributes::decmpfs_attribute(volume, cnid) is None,
            Some(loc) => {
                let records = crate::btree::leaf_records(volume, loc);
                match crate::attributes::decmpfs_attribute(volume, cnid) {
                    None => forall|j: int|
                        0 <= j < records.len() ==> !is_mark(#[trigger] records[j], cnid),
                    Some(value) => {
                        let body = crate::laws::entries::body_at(records[i]);
                        &&& 0 <= i < records.len()
                        &&& is_mark(records[i], cnid)
                        &&& forall|j: int| 0 <= j < i ==> !is_mark(#[trigger] records[j], cnid)
                        &&& value == records[i].subrange(
                            body + 16,
                            body + 16 + crate::laws::layout::num32(records[i], body + 12),
                        )
                    },
                }
            },
        },
{
    let name = "com.apple.decmpfs"@;
    reveal_strlit("com.apple.decmpfs");
    assert(is_ascii(name));
    match crate::btree::attributes_loc(volume) {
        None => 0,
        Some(loc) => {
            let records = crate::btree::leaf_records(volume, loc);
            let f = value_for(cnid, name);
            lemma_first_value(records, cnid, name);
            let i = lemma_first_kept(records, f);
            assert forall|j: int| 0 <= j < records.len() implies (f(#[trigger] records[j]) is Some
                <==> is_mark(records[j], cnid)) by {
                law_inline_value_of_record(records[j], cnid, name);
            }
            if 0 <= i < records.len() {
                law_inline_value_of_record(records[i], cnid, name);
            }
            i
        },
    }
}

} // verus!
