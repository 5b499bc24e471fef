//! Extended attributes, stored in the attributes B-tree.

use crate::btree::{locate_attributes, RecordWalk};
use crate::bytes::{be16, be32};
use crate::forks::{fork_bytes, parse_fork, Fork, ForkModel, FORK_DATA_LEN};
use crate::text::decode_utf16;
use vstd::prelude::*;

verus! {

broadcast use vstd::slice::axiom_spec_len;

/// Name of the attribute that marks a transparently compressed file.
pub const DECMPFS_XATTR_NAME: &'static str = "com.apple.decmpfs";

/// `kHFSPlusAttrInlineData`: the value stands in the record.
pub const ATTR_INLINE_DATA: u32 = 0x10;

/// `kHFSPlusAttrForkData`: the value stands in allocation blocks.
pub const ATTR_FORK_DATA: u32 = 0x20;

/// Where the value of an attribute stands.
#[derive(Debug, Clone, PartialEq, Eq)]
pub enum AttrStorage {
    /// In the B-tree record itself.
    Inline(Vec<u8>),
    /// In the blocks of a fork.
    Fork(Fork),
}

/// What an [`AttrStorage`] says.
#[verifier::ext_equal]
pub enum AttrStorageModel {
    /// In the B-tree record itself.
    Inline(Seq<u8>),
    /// In the blocks of a fork.
    Fork(ForkModel),
}

impl View for AttrStorage {
    type V = AttrStorageModel;

    open spec fn view(&self) -> AttrStorageModel {
        match *self {
            AttrStorage::Inline(value) => AttrStorageModel::Inline(value@),
            AttrStorage::Fork(fork) => AttrStorageModel::Fork(fork@),
        }
    }
}

/// An extended attribute of a file or folder.
#[derive(Debug, Clone, PartialEq, Eq)]
pub struct Attribute {
    /// CNID of the file or folder that carries it.
    pub cnid: u32,
    /// Its name.
    pub name: String,
    /// Where its value stands.
    pub storage: AttrStorage,
}

/// What an [`Attribute`] says.
#[verifier::ext_equal]
pub struct AttributeModel {
    /// CNID of the file or folder that carries it.
    pub cnid: u32,
    /// Its name, as characters.
    pub name: Seq<char>,
    /// Where its value stands.
    pub storage: AttrStorageModel,
}

impl View for Attribute {
    type V = AttributeModel;

    open spec fn view(&self) -> AttributeModel {
        AttributeModel { cnid: self.cnid, name: self.name@, storage: self.storage@ }
    }
}

/// What a list of attributes says.
pub open spec fn attribute_models(attributes: Seq<Attribute>) -> Seq<AttributeModel> {
    attributes.map_values(|attribute: Attribute| attribute@)
}

impl AttributeModel {
    /// The length of the value in bytes.
    pub open spec fn size(self) -> int {
        match self.storage {
            AttrStorageModel::Inline(value) => value.len() as int,
            AttrStorageModel::Fork(fork) => fork.logical as int,
        }
    }

    /// The value, or `None` when its fork cannot be read.
    pub open spec fn value(self, volume: Seq<u8>, block_size: usize) -> Option<Seq<u8>> {
        match self.storage {
            AttrStorageModel::Inline(value) => Some(value),
            AttrStorageModel::Fork(fork) => crate::forks::fork_content(volume, block_size, fork),
        }
    }
}

/// Where the name in an attribute key ends.
pub open spec fn attr_name_end(rec: Seq<u8>) -> int {
    14 + 2 * crate::bytes::be16_at(rec, 12)
}

/// The storage that the body of an attribute record describes: an inline value
/// or a fork that the record holds whole.
pub open spec fn attr_storage_model(rec: Seq<u8>) -> Option<AttrStorageModel> {
    let body = crate::catalog::record_body(rec);
    let size = crate::bytes::be32_at(rec, body + 12);
    if body + 16 > rec.len() {
        None
    } else if crate::bytes::be32_at(rec, body) == ATTR_INLINE_DATA && body + 16 + size
        <= rec.len() {
        Some(AttrStorageModel::Inline(rec.subrange(body + 16, body + 16 + size)))
    } else if crate::bytes::be32_at(rec, body) == ATTR_FORK_DATA && body + 8 + FORK_DATA_LEN
        <= rec.len() {
        Some(AttrStorageModel::Fork(crate::forks::fork_model(rec.skip(body + 8))->0))
    } else {
        None
    }
}

/// The attribute that a record of the attributes B-tree describes.
pub open spec fn record_attribute_model(rec: Seq<u8>) -> Option<AttributeModel> {
    if rec.len() < 14 || attr_name_end(rec) > rec.len() {
        None
    } else {
        match attr_storage_model(rec) {
            Some(storage) => Some(
                AttributeModel {
                    cnid: crate::bytes::be32_at(rec, 4),
                    name: crate::text::name_text(rec.subrange(14, attr_name_end(rec))),
                    storage,
                },
            ),
            None => None,
        }
    }
}

/// The value that a record stores inline for the attribute `name` of `cnid`.
pub open spec fn inline_value(rec: Seq<u8>, cnid: u32, name: Seq<char>) -> Option<Seq<u8>> {
    match record_attribute_model(rec) {
        Some(attribute) => if attribute.cnid == cnid && attribute.name == name {
            match attribute.storage {
                AttrStorageModel::Inline(value) => Some(value),
                AttrStorageModel::Fork(_) => None,
            }
        } else {
            None
        },
        None => None,
    }
}

/// The first inline value among `records` for the attribute `name` of `cnid`.
pub open spec fn first_inline_value(
    records: Seq<Seq<u8>>,
    cnid: u32,
    name: Seq<char>,
) -> Option<Seq<u8>>
    decreases records.len(),
{
    if records.len() == 0 {
        None
    } else {
        match inline_value(records[0], cnid, name) {
            Some(value) => Some(value),
            None => first_inline_value(records.drop_first(), cnid, name),
        }
    }
}

/// The attributes of `cnid` among `records`, in record order.
pub open spec fn attributes_among(records: Seq<Seq<u8>>, cnid: u32) -> Seq<AttributeModel>
    decreases records.len(),
{
    if records.len() == 0 {
        Seq::empty()
    } else {
        let rest = attributes_among(records.drop_first(), cnid);
        match record_attribute_model(records[0]) {
            Some(attribute) => if attribute.cnid == cnid {
                seq![attribute] + rest
            } else {
                rest
            },
            None => rest,
        }
    }
}

/// The records of the attributes B-tree; none when the volume has no such tree.
pub open spec fn attribute_records(volume: Seq<u8>) -> Seq<Seq<u8>> {
    match crate::btree::attributes_loc(volume) {
        Some(loc) => crate::btree::leaf_records(volume, loc),
        None => Seq::empty(),
    }
}

/// The `com.apple.decmpfs` attribute of `cnid`, if it carries one.
pub open spec fn decmpfs_attribute(volume: Seq<u8>, cnid: u32) -> Option<Seq<u8>> {
    first_inline_value(attribute_records(volume), cnid, DECMPFS_XATTR_NAME@)
}

/// The attributes of `cnid`, in the order of the attributes B-tree.
pub open spec fn node_attributes(volume: Seq<u8>, cnid: u32) -> Seq<AttributeModel> {
    attributes_among(attribute_records(volume), cnid)
}

/// Parses the body of an attribute record.
fn parse_storage(rec: &[u8]) -> (storage: Option<AttrStorage>)
    requires
        rec@.len() >= 2,
    ensures
        match storage {
            Some(storage) => attr_storage_model(rec@) == Some(storage@),
            None => attr_storage_model(rec@) is None,
        },
{
    let len: usize = rec.len();
    let body: usize = 2 + be16(rec, 0) as usize;
    if body + 16 > len {
        return None;
    }
    let kind: u32 = be32(rec, body);
    if kind == ATTR_INLINE_DATA {
        let size: usize = be32(rec, body + 12) as usize;
        if size > len - (body + 16) {
            return None;
        }
        return Some(
            AttrStorage::Inline(vstd::slice::slice_to_vec(&rec[body + 16..body + 16 + size])),
        );
    }
    if kind == ATTR_FORK_DATA && body + 8 + FORK_DATA_LEN <= len {
        assert(rec@.skip(body + 8) =~= rec@.subrange(body + 8, len as int));
        return match parse_fork(&rec[body + 8..len]) {
            Some(fork) => Some(AttrStorage::Fork(fork)),
            None => None,
        };
    }
    None
}

/// Parses a record of the attributes B-tree.
///
/// The key is `keyLength(2) pad(2) fileID@4 startBlock@8 nameLength@12 name@14`.
/// The body of an inline attribute is `recordType(4) reserved(8) size@12 data@16`,
/// that of a fork attribute `recordType(4) reserved(4) fork@8`.
pub fn parse_attribute(rec: &[u8]) -> (attribute: Option<Attribute>)
    ensures
        match attribute {
            Some(attribute) => record_attribute_model(rec@) == Some(attribute@),
            None => record_attribute_model(rec@) is None,
        },
{
    let len: usize = rec.len();
    if len < 14 {
        return None;
    }
    let name_end: usize = 14 + be16(rec, 12) as usize * 2;
    if name_end > len {
        return None;
    }
    match parse_storage(rec) {
        Some(storage) => {
            let name: String = decode_utf16(&rec[14..name_end]);
            Some(Attribute { cnid: be32(rec, 4), name, storage })
        },
        None => None,
    }
}

/// If `rec` stores the attribute `want_name` of `cnid` inline, returns its value.
pub fn attr_inline_value(rec: &[u8], cnid: u32, want_name: &str) -> (value: Option<Vec<u8>>)
    ensures
        match value {
            Some(value) => inline_value(rec@, cnid, want_name@) == Some(value@),
            None => inline_value(rec@, cnid, want_name@) is None,
        },
{
    let attribute = match parse_attribute(rec) {
        Some(attribute) => attribute,
        None => return None,
    };
    if attribute.cnid != cnid {
        return None;
    }
    if attribute.name != want_name.to_owned() {
        return None;
    }
    match attribute.storage {
        AttrStorage::Inline(value) => Some(value),
        AttrStorage::Fork(_) => None,
    }
}

/// Looks up the `com.apple.decmpfs` attribute of `cnid`. Returns `None` if the
/// volume has no attributes file or the node carries no such attribute, that is,
/// if it is not transparently compressed.
pub fn decmpfs_xattr(volume: &[u8], cnid: u32) -> (xattr: Option<Vec<u8>>)
    ensures
        match xattr {
            Some(xattr) => decmpfs_attribute(volume@, cnid) == Some(xattr@),
            None => decmpfs_attribute(volume@, cnid) is None,
        },
{
    let loc = match locate_attributes(volume) {
        Some(loc) => loc,
        None => return None,
    };
    let mut records = RecordWalk::new(volume, &loc);
    let ghost all = records.remaining();
    loop
        invariant
            records.well_formed(),
            decmpfs_attribute(volume@, cnid) == first_inline_value(all, cnid, DECMPFS_XATTR_NAME@),
            first_inline_value(records.remaining(), cnid, DECMPFS_XATTR_NAME@)
                == first_inline_value(all, cnid, DECMPFS_XATTR_NAME@),
        decreases records.remaining().len(),
    {
        match records.next_record() {
            None => return None,
            Some(rec) => {
                let found = attr_inline_value(rec, cnid, DECMPFS_XATTR_NAME);
                if found.is_some() {
                    return found;
                }
            },
        }
    }
}

/// Lists the extended attributes of the file or folder `cnid`.
#[must_use]
pub fn list_attributes(volume: &[u8], cnid: u32) -> (attributes: Vec<Attribute>)
    ensures
        attribute_models(attributes@) == node_attributes(volume@, cnid),
{
    let mut attributes: Vec<Attribute> = Vec::new();
    assert(attribute_models(attributes@) =~= Seq::<AttributeModel>::empty());
    let loc = match locate_attributes(volume) {
        Some(loc) => loc,
        None => return attributes,
    };
    let mut records = RecordWalk::new(volume, &loc);
    let ghost all = records.remaining();
    loop
        invariant
            records.well_formed(),
            attribute_models(attributes@) + attributes_among(records.remaining(), cnid)
                =~= attributes_among(all, cnid),
        ensures
            attribute_models(attributes@) =~= attributes_among(all, cnid),
        decreases records.remaining().len(),
    {
        match records.next_record() {
            None => break ,
            Some(rec) => {
                if let Some(attribute) = parse_attribute(rec) {
                    if attribute.cnid == cnid {
                        let ghost before = attributes@;
                        attributes.push(attribute);
                        assert(attribute_models(attributes@) =~= attribute_models(before).push(
                            attribute@,
                        ));
                    }
                }
            },
        }
    }
    attributes
}

impl Attribute {
    /// The length of the value in bytes.
    #[must_use]
    pub fn size(&self) -> (size: u64)
        ensures
            size == self@.size(),
    {
        match &self.storage {
            AttrStorage::Inline(value) => value.len() as u64,
            AttrStorage::Fork(fork) => fork.logical,
        }
    }

    /// The value, read out of `volume` where it stands in a fork.
    #[must_use]
    pub fn value(&self, volume: &[u8], block_size: usize) -> (value: Option<Vec<u8>>)
        ensures
            match value {
                Some(value) => self@.value(volume@, block_size) == Some(value@),
                None => self@.value(volume@, block_size) is None,
            },
    {
        match &self.storage {
            AttrStorage::Inline(value) => Some(vstd::slice::slice_to_vec(value.as_slice())),
            AttrStorage::Fork(fork) => fork_bytes(volume, block_size, fork),
        }
    }
}

} // verus!
