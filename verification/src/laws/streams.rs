//! Laws of names, attributes and streams.

use crate::attributes::{AttrStorageModel, AttributeModel, DECMPFS_XATTR_NAME};
use crate::catalog::{EntryModel, HfsStat};
use crate::vfs::{FsError, NodeId, Residency, StreamModel, StreamRef};
use vstd::prelude::*;

verus! {

/// A name without surrogates is decoded unit by unit.
pub proof fn law_plain_names(units: Seq<u16>)
    requires
        forall|i: int|
            0 <= i < units.len() ==> !crate::text::is_high_surrogate(#[trigger] units[i])
                && !crate::text::is_low_surrogate(units[i]),
    ensures
        crate::text::utf16_text(units).len() == units.len(),
        forall|i: int|
            0 <= i < units.len() ==> #[trigger] crate::text::utf16_text(units)[i]
                == units[i] as char,
    decreases units.len(),
{
    if units.len() > 0 {
        let rest = units.skip(1);
        assert(forall|i: int| 0 <= i < rest.len() ==> #[trigger] rest[i] == units[i + 1]);
        law_plain_names(rest);
        assert forall|i: int| 0 <= i < units.len() implies #[trigger] crate::text::utf16_text(
            units,
        )[i] == units[i] as char by {
            if i > 0 {
                assert(crate::text::utf16_text(units)[i] == crate::text::utf16_text(rest)[i - 1]);
                assert(rest[i - 1] == units[i]);
            }
        }
    }
}

/// The attributes of a node hold an attribute if and only if some record
/// describes it for that node.
pub proof fn law_attributes_exact(records: Seq<Seq<u8>>, cnid: u32, attribute: AttributeModel)
    ensures
        crate::attributes::attributes_among(records, cnid).contains(attribute) <==> exists|i: int|
            0 <= i < records.len() && #[trigger] crate::attributes::record_attribute_model(
                records[i],
            ) == Some(attribute) && attribute.cnid == cnid,
    decreases records.len(),
{
    let all = crate::attributes::attributes_among(records, cnid);
    if records.len() > 0 {
        let rest = records.drop_first();
        let tail = crate::attributes::attributes_among(rest, cnid);
        law_attributes_exact(rest, cnid, attribute);
        let here = crate::attributes::record_attribute_model(records[0]) == Some(attribute)
            && attribute.cnid == cnid;
        if all.contains(attribute) && !here {
            let k = choose|k: int| 0 <= k < all.len() && all[k] == attribute;
            if all.len() > tail.len() {
                assert(tail[k - 1] == attribute);
            } else {
                assert(tail[k] == attribute);
            }
            let j = choose|j: int|
                0 <= j < rest.len() && #[trigger] crate::attributes::record_attribute_model(rest[j])
                    == Some(attribute) && attribute.cnid == cnid;
            assert(records[j + 1] == rest[j]);
        }
        if exists|i: int|
            0 <= i < records.len() && #[trigger] crate::attributes::record_attribute_model(
                records[i],
            ) == Some(attribute) && attribute.cnid == cnid {
            let i = choose|i: int|
                0 <= i < records.len() && #[trigger] crate::attributes::record_attribute_model(
                    records[i],
                ) == Some(attribute) && attribute.cnid == cnid;
            if i == 0 {
                assert(all[0] == attribute);
            } else {
                assert(rest[i - 1] == records[i]);
                let k = choose|k: int| 0 <= k < tail.len() && tail[k] == attribute;
                if all.len() > tail.len() {
                    assert(all[k + 1] == attribute);
                } else {
                    assert(all[k] == attribute);
                }
            }
        }
    }
}

/// The attribute that marks a compressed file is one of the node's attributes,
/// so it is listed with the others.
pub proof fn law_compression_mark_is_listed(volume: Seq<u8>, cnid: u32, value: Seq<u8>)
    requires
        crate::attributes::decmpfs_attribute(volume, cnid) == Some(value),
    ensures
        crate::attributes::node_attributes(volume, cnid).contains(
            AttributeModel {
                cnid,
                name: DECMPFS_XATTR_NAME@,
                storage: AttrStorageModel::Inline(value),
            },
        ),
{
    lemma_inline_value_listed(
        crate::attributes::attribute_records(volume),
        cnid,
        DECMPFS_XATTR_NAME@,
        value,
    );
}

proof fn lemma_inline_value_listed(
    records: Seq<Seq<u8>>,
    cnid: u32,
    name: Seq<char>,
    value: Seq<u8>,
)
    requires
        crate::attributes::first_inline_value(records, cnid, name) == Some(value),
    ensures
        crate::attributes::attributes_among(records, cnid).contains(
            AttributeModel { cnid, name, storage: AttrStorageModel::Inline(value) },
        ),
    decreases records.len(),
{
    let attribute = AttributeModel { cnid, name, storage: AttrStorageModel::Inline(value) };
    let all = crate::attributes::attributes_among(records, cnid);
    if records.len() > 0 {
        let rest = records.drop_first();
        let tail = crate::attributes::attributes_among(rest, cnid);
        if crate::attributes::inline_value(records[0], cnid, name) is Some {
            assert(crate::attributes::record_attribute_model(records[0]) == Some(attribute));
            assert(all[0] == attribute);
        } else {
            lemma_inline_value_listed(rest, cnid, name, value);
            let k = choose|k: int| 0 <= k < tail.len() && tail[k] == attribute;
            if all.len() > tail.len() {
                assert(all[k + 1] == attribute);
            } else {
                assert(all[k] == attribute);
            }
        }
    }
}

/// A listed attribute stream is read as the value of the attribute at its
/// position, and one that is resident is read as exactly as many bytes as its
/// listing says.
pub proof fn law_listed_streams_read(volume: Seq<u8>, cnid: u32, i: int)
    requires
        0 <= i < crate::vfs::attribute_streams(
            crate::attributes::node_attributes(volume, cnid),
        ).len(),
    ensures
        crate::btree::attributes_loc(volume) matches Some(loc) && {
            let attributes = crate::attributes::node_attributes(volume, cnid);
            let stream = crate::vfs::attribute_streams(attributes)[i];
            let content = crate::vfs::stream_content(volume, cnid, stream.id);
            &&& stream.id == StreamRef::Xattr(i as u16)
            &&& match attributes[i].value(volume, loc.block_size) {
                Some(value) => content == Ok::<Seq<u8>, FsError>(value),
                None => content == Err::<Seq<u8>, FsError>(
                    FsError::UnreadableAttribute(i as u16),
                ),
            }
            &&& stream.residency is Resident && attributes[i].size() <= u64::MAX ==> (content matches Ok(
                value,
            ) && value.len() == stream.size)
        },
{
}

/// Reading up to `first` bytes and then up to `second` bytes behind them gives
/// the same bytes as reading up to both at once.
pub proof fn law_reads_join(content: Seq<u8>, off: nat, first: nat, second: nat)
    ensures
        ({
            let len = content.len() as int;
            let n = crate::vfs::window_len(len, off as int, first as int);
            let m = crate::vfs::window_len(len, off + n, second as int);
            &&& n < first ==> m == 0
            &&& n == first ==> crate::vfs::window_len(len, off as int, (first + second) as int)
                == n + m
            &&& n == first && off <= len ==> content.subrange(off as int, off + n)
                + content.subrange(off + n, off + n + m) == content.subrange(
                off as int,
                off + n + m,
            )
        }),
{
    let len = content.len() as int;
    let n = crate::vfs::window_len(len, off as int, first as int);
    let m = crate::vfs::window_len(len, off + n, second as int);
    if n == first && off <= len {
        assert(content.subrange(off as int, off + n) + content.subrange(off + n, off + n + m)
            =~= content.subrange(off as int, off + n + m));
    }
}

/// A lookup finds a name if and only if the listing shows it, and then gives a
/// node that the listing shows under it.
pub proof fn law_lookup_matches_listing(entries: Seq<EntryModel>, name: Seq<u8>)
    ensures
        crate::vfs::first_named(entries, name) is Some <==> exists|i: int|
            0 <= i < entries.len() && (#[trigger] crate::vfs::read_dir_model(entries)[i]).name
                == name,
        crate::vfs::first_named(entries, name) matches Some(id) ==> exists|i: int|
            0 <= i < entries.len() && (#[trigger] crate::vfs::read_dir_model(entries)[i]).name
                == name && crate::vfs::read_dir_model(entries)[i].id == id,
    decreases entries.len(),
{
    let listing = crate::vfs::read_dir_model(entries);
    if entries.len() > 0 {
        let rest = entries.drop_first();
        let tail = crate::vfs::read_dir_model(rest);
        law_lookup_matches_listing(rest, name);
        assert(listing[0].name == vstd::utf8::encode_utf8(entries[0].name));
        assert(forall|i: int| 0 <= i < rest.len() ==> #[trigger] tail[i] == listing[i + 1]);
        if exists|i: int| 0 <= i < entries.len() && (#[trigger] listing[i]).name == name {
            let i = choose|i: int| 0 <= i < entries.len() && (#[trigger] listing[i]).name == name;
            if i > 0 {
                assert(tail[i - 1].name == name);
            }
        }
        if crate::vfs::first_named(rest, name) is Some {
            let id = crate::vfs::first_named(rest, name)->0;
            let i = choose|i: int|
                0 <= i < rest.len() && (#[trigger] tail[i]).name == name && tail[i].id == id;
            assert(listing[i + 1].name == name);
        }
    }
}

// ---- The mounted volume ----

/// The root folder has the CNID 2, and a sector is said to have 512 bytes.
pub proof fn law_root_and_sectors()
    ensures
        crate::catalog::ROOT_FOLDER_CNID == 2,
        crate::vfs::SECTOR_SIZE == 512,
{
}

/// A node is addressed by its CNID as a number of 32 bits; a larger number is out
/// of range, and a foreign identity is refused.
pub proof fn law_node_addresses(id: NodeId)
    ensures
        match id {
            NodeId::Foreign => crate::vfs::addressed_cnid(id) == Err::<u32, FsError>(
                FsError::ForeignId,
            ),
            NodeId::Opaque(n) => match crate::vfs::addressed_cnid(id) {
                Ok(cnid) => cnid == n,
                Err(error) => n > 0xFFFF_FFFF && error == FsError::CnidOutOfRange(n),
            },
        },
{
}

/// Times are shifted by the 2082844800 seconds between the epochs, and counted in
/// nanoseconds: a second more is a thousand million nanoseconds more.
pub proof fn law_times_rebased(secs: u32)
    ensures
        crate::vfs::unix_nanos(secs) == (secs - 2_082_844_800) * 1_000_000_000,
        crate::vfs::unix_nanos(2_082_844_800) == 0,
        secs < u32::MAX ==> crate::vfs::unix_nanos((secs + 1) as u32) - crate::vfs::unix_nanos(secs)
            == 1_000_000_000,
{
}

/// The metadata of a node are those of its record, its times rebased.
pub proof fn law_meta_fields(found: HfsStat)
    ensures
        ({
            let meta = crate::vfs::meta_model(found);
            &&& meta.ino == found.cnid
            &&& meta.is_dir == found.is_dir
            &&& meta.size == found.size
            &&& meta.born == (found.created - 2_082_844_800) * 1_000_000_000
            &&& meta.modified == (found.modified - 2_082_844_800) * 1_000_000_000
            &&& meta.accessed == (found.accessed - 2_082_844_800) * 1_000_000_000
        }),
{
}

/// A directory is read as its listing, entry by entry: the same CNID, the same
/// kind, and the name in UTF-8.
pub proof fn law_read_dir_fields(entries: Seq<EntryModel>, i: int)
    requires
        0 <= i < entries.len(),
    ensures
        ({
            let listing = crate::vfs::read_dir_model(entries);
            &&& listing.len() == entries.len()
            &&& listing[i].id == NodeId::Opaque(entries[i].cnid as u64)
            &&& listing[i].is_dir == entries[i].is_dir
            &&& listing[i].name == vstd::utf8::encode_utf8(entries[i].name)
        }),
{
}

/// A lookup gives the node of the first entry with the name.
pub proof fn law_lookup_first(entries: Seq<EntryModel>, name: Seq<u8>) -> (i: int)
    ensures
        match crate::vfs::first_named(entries, name) {
            None => forall|j: int|
                0 <= j < entries.len() ==> vstd::utf8::encode_utf8((#[trigger] entries[j]).name)
                    != name,
            Some(id) => {
                &&& 0 <= i < entries.len()
                &&& vstd::utf8::encode_utf8(entries[i].name) == name
                &&& id == NodeId::Opaque(entries[i].cnid as u64)
                &&& forall|j: int|
                    0 <= j < i ==> vstd::utf8::encode_utf8((#[trigger] entries[j]).name) != name
            },
        },
    decreases entries.len(),
{
    if entries.len() == 0 || vstd::utf8::encode_utf8(entries[0].name) == name {
        0
    } else {
        let rest = entries.drop_first();
        let i = law_lookup_first(rest, name);
        assert forall|j: int|
            0 <= j < entries.len() && (crate::vfs::first_named(entries, name) is None || j < i
                + 1) implies vstd::utf8::encode_utf8((#[trigger] entries[j]).name) != name by {
            if j > 0 {
                assert(entries[j] == rest[j - 1]);
            }
        }
        if crate::vfs::first_named(rest, name) is Some {
            assert(entries[i + 1] == rest[i]);
        }
        i + 1
    }
}

/// A read gives as many bytes as there are behind the offset and room for.
pub proof fn law_window(len: nat, off: nat, room: nat)
    ensures
        ({
            let n = crate::vfs::window_len(len as int, off as int, room as int);
            &&& 0 <= n <= room
            &&& n > 0 ==> off + n <= len
            &&& n < room ==> off + n >= len
        }),
{
}

/// A node has a stream for each of its first 65536 attributes, in order: named and
/// sized like the attribute, resident if its value is inline. A file has its
/// contents as a stream before them, of the size of its data fork; a folder has
/// none.
pub proof fn law_streams_listed(found: HfsStat, attributes: Seq<AttributeModel>)
    ensures
        ({
            let streams = crate::vfs::default_stream(found) + crate::vfs::attribute_streams(
                attributes,
            );
            let first: int = if found.is_dir {
                0
            } else {
                1
            };
            &&& streams.len() == first + if attributes.len() <= 65536 {
                attributes.len() as int
            } else {
                65536
            }
            &&& !found.is_dir ==> {
                &&& streams[0].id == StreamRef::Default
                &&& streams[0].name is None
                &&& streams[0].size == found.size
                &&& streams[0].residency == Residency::NonResident
            }
            &&& forall|i: int|
                0 <= i < streams.len() - first ==> is_stream_of(
                    #[trigger] attributes[i],
                    i,
                    streams[first + i],
                )
        }),
{
    let streams = crate::vfs::default_stream(found) + crate::vfs::attribute_streams(attributes);
    let first: int = if found.is_dir {
        0
    } else {
        1
    };
    assert forall|i: int| 0 <= i < streams.len() - first implies is_stream_of(
        #[trigger] attributes[i],
        i,
        streams[first + i],
    ) by {
        assert(streams[first + i] == crate::vfs::attribute_streams(attributes)[i]);
    }
}

/// Whether `stream` is that of the attribute at position `i`. The length of an
/// inline value is told up to the 32-bit limit.
pub open spec fn is_stream_of(attribute: AttributeModel, i: int, stream: StreamModel) -> bool {
    &&& stream.id matches StreamRef::Xattr(position) && position == i
    &&& stream.name == Some(vstd::utf8::encode_utf8(attribute.name))
    &&& match attribute.storage {
        AttrStorageModel::Inline(value) => {
            &&& value.len() <= 0xFFFF_FFFF ==> stream.size == value.len() && stream.residency == (
            Residency::Resident { inline_len: value.len() as u32 })
            &&& stream.residency is Resident
        },
        AttrStorageModel::Fork(fork) => {
            &&& stream.size == fork.logical
            &&& stream.residency == Residency::NonResident
        },
    }
}

/// What is read of a stream: a file's contents, the value of the attribute at its
/// position, or an error that tells what is missing.
pub proof fn law_stream_contents(volume: Seq<u8>, cnid: u32, i: u16)
    ensures
        match crate::files::file_content(volume, cnid) {
            Some(content) => crate::vfs::stream_content(volume, cnid, StreamRef::Default) == Ok::<
                Seq<u8>,
                FsError,
            >(content),
            None => crate::vfs::stream_content(volume, cnid, StreamRef::Default) == Err::<
                Seq<u8>,
                FsError,
            >(FsError::UnreadableFile(cnid)),
        },
        crate::vfs::stream_content(volume, cnid, StreamRef::Other) == Err::<Seq<u8>, FsError>(
            FsError::UnsupportedStream,
        ),
        ({
            let attributes = crate::attributes::node_attributes(volume, cnid);
            let content = crate::vfs::stream_content(volume, cnid, StreamRef::Xattr(i));
            if i >= attributes.len() {
                content == Err::<Seq<u8>, FsError>(FsError::NoAttribute(i))
            } else {
                crate::btree::attributes_loc(volume) matches Some(loc) && match attributes[i as int].value(
                    volume,
                    loc.block_size,
                ) {
                    Some(value) => content == Ok::<Seq<u8>, FsError>(value),
                    None => content == Err::<Seq<u8>, FsError>(FsError::UnreadableAttribute(i)),
                }
            }
        }),
{
}

} // verus!
