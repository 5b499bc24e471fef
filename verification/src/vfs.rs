//! A mounted volume, addressed the way a virtual file system does.
//!
//! Nodes are addressed by an opaque number that is a catalog node ID, streams by
//! the file's own contents or the position of an extended attribute. Every
//! failure is a typed [`FsError`].

use crate::attributes::{list_attributes, AttrStorage, Attribute, AttributeModel};
use crate::btree::locate_attributes;
use crate::catalog::{list_dir, stat, EntryModel, HfsStat, ROOT_FOLDER_CNID};
use crate::files::read_file;
use crate::numbers::cap;
use crate::volume::parse;
use vstd::prelude::*;

verus! {

broadcast use vstd::slice::axiom_spec_len;

/// Seconds between the HFS+ epoch (1904-01-01) and the Unix epoch (1970-01-01).
pub const EPOCH_SHIFT: i128 = 2_082_844_800;

/// Nanoseconds in a second.
pub const NANOS: i128 = 1_000_000_000;

/// Conventional sector size of an HFS+ device.
pub const SECTOR_SIZE: u32 = 512;

/// How many extended attributes of a node can be addressed.
pub const ATTRIBUTE_IDS: usize = 65536;

/// How a caller addresses a node.
#[derive(Debug, Clone, Copy, PartialEq, Eq, Structural)]
pub enum NodeId {
    /// By an opaque number, which is the node's CNID.
    Opaque(u64),
    /// By the identity of another kind of file system.
    Foreign,
}

/// Which stream of a node a caller addresses.
#[derive(Debug, Clone, Copy, PartialEq, Eq, Structural)]
pub enum StreamRef {
    /// The contents of the file.
    Default,
    /// The extended attribute at this position of the node's attribute list.
    Xattr(u16),
    /// A kind of stream that HFS+ volumes are not read by.
    Other,
}

/// Why an operation failed.
#[derive(Debug, Clone, Copy, PartialEq, Eq, Structural)]
pub enum FsError {
    /// The buffer carries no HFS+ or HFSX signature.
    NoSignature,
    /// The node is not addressed by an opaque number.
    ForeignId,
    /// The number is too large for a CNID.
    CnidOutOfRange(u64),
    /// The catalog cannot be located.
    UnlistableDirectory(u32),
    /// The catalog has no record for this CNID.
    NoRecord(u32),
    /// The node is not a file, or its contents cannot be read.
    UnreadableFile(u32),
    /// The kind of stream is not supported.
    UnsupportedStream,
    /// The node has no attribute at this position.
    NoAttribute(u16),
    /// The value of the attribute at this position cannot be read.
    UnreadableAttribute(u16),
}

/// Sector and block sizes.
#[derive(Debug, Clone, Copy, PartialEq, Eq, Structural)]
pub struct SectorSizes {
    /// Logical sector size.
    pub logical: u32,
    /// Physical sector size.
    pub physical: u32,
    /// Allocation block size.
    pub cluster_or_block: u32,
}

/// An entry of a directory.
#[derive(Debug, Clone, PartialEq, Eq)]
pub struct DirEntry {
    /// The name in UTF-8.
    pub name: Vec<u8>,
    /// The node.
    pub id: NodeId,
    /// True for a folder, false for a file.
    pub is_dir: bool,
}

/// What a [`DirEntry`] says.
#[verifier::ext_equal]
pub struct DirEntryModel {
    /// The name in UTF-8.
    pub name: Seq<u8>,
    /// The node.
    pub id: NodeId,
    /// True for a folder, false for a file.
    pub is_dir: bool,
}

impl View for DirEntry {
    type V = DirEntryModel;

    open spec fn view(&self) -> DirEntryModel {
        DirEntryModel { name: self.name@, id: self.id, is_dir: self.is_dir }
    }
}

/// Metadata of a node, its times in nanoseconds since the Unix epoch.
#[derive(Debug, Clone, Copy, PartialEq, Eq, Structural)]
pub struct NodeMeta {
    /// The CNID.
    pub ino: u64,
    /// True for a folder, false for a file.
    pub is_dir: bool,
    /// Logical size of the data fork.
    pub size: u64,
    /// Creation time.
    pub born: i128,
    /// Content-modification time.
    pub modified: i128,
    /// Access time.
    pub accessed: i128,
}

/// Where the bytes of a stream stand.
#[derive(Debug, Clone, Copy, PartialEq, Eq, Structural)]
pub enum Residency {
    /// In the metadata record, which holds this many of them.
    Resident {
        /// How many bytes the record holds.
        inline_len: u32,
    },
    /// In allocation blocks.
    NonResident,
}

/// A stream of a node.
#[derive(Debug, Clone, PartialEq, Eq)]
pub struct StreamInfo {
    /// How to address it.
    pub id: StreamRef,
    /// Its name in UTF-8, if it has one.
    pub name: Option<Vec<u8>>,
    /// Its length in bytes.
    pub size: u64,
    /// Where its bytes stand.
    pub residency: Residency,
}

/// What a [`StreamInfo`] says.
#[verifier::ext_equal]
pub struct StreamModel {
    /// How to address it.
    pub id: StreamRef,
    /// Its name in UTF-8, if it has one.
    pub name: Option<Seq<u8>>,
    /// Its length in bytes.
    pub size: u64,
    /// Where its bytes stand.
    pub residency: Residency,
}

impl View for StreamInfo {
    type V = StreamModel;

    open spec fn view(&self) -> StreamModel {
        StreamModel {
            id: self.id,
            name: match self.name {
                Some(name) => Some(name@),
                None => None,
            },
            size: self.size,
            residency: self.residency,
        }
    }
}

/// The CNID that a node is addressed by.
pub open spec fn addressed_cnid(id: NodeId) -> Result<u32, FsError> {
    match id {
        NodeId::Opaque(n) => if n <= u32::MAX {
            Ok(n as u32)
        } else {
            Err(FsError::CnidOutOfRange(n))
        },
        NodeId::Foreign => Err(FsError::ForeignId),
    }
}

/// An HFS+ time in nanoseconds since the Unix epoch.
pub open spec fn unix_nanos(secs: u32) -> int {
    (secs - EPOCH_SHIFT) * NANOS
}

/// A directory entry, its name in UTF-8.
pub open spec fn dir_entry_model(entry: EntryModel) -> DirEntryModel {
    DirEntryModel {
        name: vstd::utf8::encode_utf8(entry.name),
        id: NodeId::Opaque(entry.cnid as u64),
        is_dir: entry.is_dir,
    }
}

/// The listing of a directory, its names in UTF-8.
pub open spec fn read_dir_model(entries: Seq<EntryModel>) -> Seq<DirEntryModel> {
    entries.map_values(|entry: EntryModel| dir_entry_model(entry))
}

/// What a directory listing says.
pub open spec fn dir_entry_models(entries: Seq<DirEntry>) -> Seq<DirEntryModel> {
    entries.map_values(|entry: DirEntry| entry@)
}

/// The node of the first entry with the UTF-8 name `name`.
pub open spec fn first_named(entries: Seq<EntryModel>, name: Seq<u8>) -> Option<NodeId>
    decreases entries.len(),
{
    if entries.len() == 0 {
        None
    } else if vstd::utf8::encode_utf8(entries[0].name) == name {
        Some(NodeId::Opaque(entries[0].cnid as u64))
    } else {
        first_named(entries.drop_first(), name)
    }
}

/// The metadata of a node, its times rebased.
pub open spec fn meta_model(found: HfsStat) -> NodeMeta {
    NodeMeta {
        ino: found.cnid as u64,
        is_dir: found.is_dir,
        size: found.size,
        born: unix_nanos(found.created) as i128,
        modified: unix_nanos(found.modified) as i128,
        accessed: unix_nanos(found.accessed) as i128,
    }
}

/// The stream of the attribute at position `i`.
pub open spec fn attribute_stream(attribute: AttributeModel, i: int) -> StreamModel {
    StreamModel {
        id: StreamRef::Xattr(i as u16),
        name: Some(vstd::utf8::encode_utf8(attribute.name)),
        size: attribute.size() as u64,
        residency: match attribute.storage {
            crate::attributes::AttrStorageModel::Inline(value) => Residency::Resident {
                inline_len: crate::numbers::capped(value.len() as int),
            },
            crate::attributes::AttrStorageModel::Fork(_) => Residency::NonResident,
        },
    }
}

/// The streams of the addressable attributes of a node.
pub open spec fn attribute_streams(attributes: Seq<AttributeModel>) -> Seq<StreamModel> {
    Seq::new(
        crate::numbers::lesser(attributes.len() as int, ATTRIBUTE_IDS as int) as nat,
        |i: int| attribute_stream(attributes[i], i),
    )
}

/// The stream of a file's own contents; a folder has none.
pub open spec fn default_stream(found: HfsStat) -> Seq<StreamModel> {
    if found.is_dir {
        Seq::empty()
    } else {
        seq![
            StreamModel {
                id: StreamRef::Default,
                name: None,
                size: found.size,
                residency: Residency::NonResident,
            },
        ]
    }
}

/// What a list of streams says.
pub open spec fn stream_models(streams: Seq<StreamInfo>) -> Seq<StreamModel> {
    streams.map_values(|stream: StreamInfo| stream@)
}

/// The bytes of the attribute of `cnid` at position `i`.
pub open spec fn attribute_content(volume: Seq<u8>, cnid: u32, i: u16) -> Result<Seq<u8>, FsError> {
    let attributes = crate::attributes::node_attributes(volume, cnid);
    match crate::btree::attributes_loc(volume) {
        None => Err(FsError::NoAttribute(i)),
        Some(loc) => if i >= attributes.len() {
            Err(FsError::NoAttribute(i))
        } else {
            match attributes[i as int].value(volume, loc.block_size) {
                Some(value) => Ok(value),
                None => Err(FsError::UnreadableAttribute(i)),
            }
        },
    }
}

/// The bytes of a stream of the node `cnid`.
pub open spec fn stream_content(volume: Seq<u8>, cnid: u32, stream: StreamRef) -> Result<
    Seq<u8>,
    FsError,
> {
    match stream {
        StreamRef::Default => match crate::files::file_content(volume, cnid) {
            Some(content) => Ok(content),
            None => Err(FsError::UnreadableFile(cnid)),
        },
        StreamRef::Xattr(i) => attribute_content(volume, cnid, i),
        StreamRef::Other => Err(FsError::UnsupportedStream),
    }
}

/// How many bytes a read of up to `room` bytes at `off` gives of `len` bytes.
pub open spec fn window_len(len: int, off: int, room: int) -> int {
    if off >= len {
        0
    } else {
        crate::numbers::lesser(room, len - off)
    }
}

/// Whether two byte strings are equal.
fn same_bytes(a: &[u8], b: &[u8]) -> (same: bool)
    ensures
        same == (a@ == b@),
{
    if a.len() != b.len() {
        return false;
    }
    let mut i: usize = 0;
    while i < a.len()
        invariant
            i <= a@.len(),
            a@.len() == b@.len(),
            forall|j: int| 0 <= j < i ==> a@[j] == b@[j],
        decreases a@.len() - i,
    {
        if a[i] != b[i] {
            return false;
        }
        i = i + 1;
    }
    assert(a@ =~= b@);
    true
}

/// The CNID that a node is addressed by.
pub fn cnid_of(id: NodeId) -> (cnid: Result<u32, FsError>)
    ensures
        cnid == addressed_cnid(id),
{
    match id {
        NodeId::Opaque(n) => {
            if n <= u32::MAX as u64 {
                Ok(n as u32)
            } else {
                Err(FsError::CnidOutOfRange(n))
            }
        },
        NodeId::Foreign => Err(FsError::ForeignId),
    }
}

/// An HFS+ time (seconds since 1904) in nanoseconds since the Unix epoch.
pub fn hfs_time(secs: u32) -> (nanos: i128)
    ensures
        nanos == unix_nanos(secs),
{
    (secs as i128 - EPOCH_SHIFT) * NANOS
}

/// A mounted, read-only volume. It holds the whole volume in memory.
pub struct HfsFs {
    volume: Vec<u8>,
}

impl View for HfsFs {
    type V = Seq<u8>;

    closed spec fn view(&self) -> Seq<u8> {
        self.volume@
    }
}

impl HfsFs {
    #[verifier::type_invariant]
    spec fn mounted(self) -> bool {
        crate::volume::volume_header(self.volume@) is Some
    }

    /// Mounts a whole volume. Fails if the buffer carries no HFS+ signature.
    ///
    /// # Errors
    ///
    /// [`FsError::NoSignature`] when [`parse`] finds no header.
    pub fn new(volume: Vec<u8>) -> (mounted: Result<Self, FsError>)
        ensures
            match mounted {
                Ok(fs) => {
                    &&& fs@ == volume@
                    &&& crate::volume::volume_header(volume@) is Some
                },
                Err(error) => {
                    &&& crate::volume::volume_header(volume@) is None
                    &&& error == FsError::NoSignature
                },
            },
    {
        match parse(volume.as_slice()) {
            Some(_) => Ok(HfsFs { volume }),
            None => Err(FsError::NoSignature),
        }
    }

    /// The root folder.
    pub fn root(&self) -> (id: NodeId)
        ensures
            id == NodeId::Opaque(ROOT_FOLDER_CNID as u64),
    {
        NodeId::Opaque(ROOT_FOLDER_CNID as u64)
    }

    /// The sector size, which is conventional, and the block size of the volume.
    pub fn sector_sizes(&self) -> (sizes: SectorSizes)
        ensures
            crate::volume::volume_header(self@) matches Some(header) && sizes == (SectorSizes {
                logical: SECTOR_SIZE,
                physical: SECTOR_SIZE,
                cluster_or_block: header.block_size,
            }),
    {
        proof {
            use_type_invariant(self);
        }
        let block: u32 = match parse(self.volume.as_slice()) {
            Some(header) => header.block_size,
            None => SECTOR_SIZE,
        };
        SectorSizes { logical: SECTOR_SIZE, physical: SECTOR_SIZE, cluster_or_block: block }
    }

    /// Lists a directory.
    ///
    /// # Errors
    ///
    /// When the node is not addressed by a CNID, or the catalog cannot be
    /// located. A folder that does not exist lists as empty.
    pub fn read_dir(&self, id: NodeId) -> (listing: Result<Vec<DirEntry>, FsError>)
        ensures
            match addressed_cnid(id) {
                Err(error) => listing == Err::<Vec<DirEntry>, FsError>(error),
                Ok(cnid) => match crate::catalog::directory(self@, cnid) {
                    None => listing == Err::<Vec<DirEntry>, FsError>(
                        FsError::UnlistableDirectory(cnid),
                    ),
                    Some(entries) => listing matches Ok(listing) && dir_entry_models(listing@)
                        == read_dir_model(entries),
                },
            },
    {
        let cnid: u32 = match cnid_of(id) {
            Ok(cnid) => cnid,
            Err(error) => return Err(error),
        };
        let entries = match list_dir(self.volume.as_slice(), cnid) {
            Some(entries) => entries,
            None => return Err(FsError::UnlistableDirectory(cnid)),
        };
        let ghost models = crate::catalog::entry_models(entries@);
        let mut out: Vec<DirEntry> = Vec::new();
        let mut i: usize = 0;
        while i < entries.len()
            invariant
                i <= entries@.len(),
                models == crate::catalog::entry_models(entries@),
                dir_entry_models(out@) =~= read_dir_model(models).take(i as int),
            decreases entries@.len() - i,
        {
            let entry = &entries[i];
            let ghost before = out@;
            out.push(
                DirEntry {
                    name: vstd::slice::slice_to_vec(entry.name.as_str().as_bytes()),
                    id: NodeId::Opaque(entry.cnid as u64),
                    is_dir: entry.is_dir,
                },
            );
            proof {
                assert(dir_entry_models(out@) =~= dir_entry_models(before).push(
                    dir_entry_model(entry@),
                ));
                assert(read_dir_model(models).take(i + 1) =~= read_dir_model(models).take(
                    i as int,
                ).push(dir_entry_model(entry@)));
            }
            i = i + 1;
        }
        assert(read_dir_model(models).take(i as int) =~= read_dir_model(models));
        Ok(out)
    }

    /// Finds the entry of a directory with the UTF-8 name `name`.
    ///
    /// # Errors
    ///
    /// As for [`HfsFs::read_dir`].
    pub fn lookup(&self, parent: NodeId, name: &[u8]) -> (found: Result<Option<NodeId>, FsError>)
        ensures
            found == match addressed_cnid(parent) {
                Err(error) => Err(error),
                Ok(cnid) => match crate::catalog::directory(self@, cnid) {
                    None => Err(FsError::UnlistableDirectory(cnid)),
                    Some(entries) => Ok(first_named(entries, name@)),
                },
            },
    {
        let cnid: u32 = match cnid_of(parent) {
            Ok(cnid) => cnid,
            Err(error) => return Err(error),
        };
        let entries = match list_dir(self.volume.as_slice(), cnid) {
            Some(entries) => entries,
            None => return Err(FsError::UnlistableDirectory(cnid)),
        };
        let ghost models = crate::catalog::entry_models(entries@);
        let mut i: usize = 0;
        assert(models.skip(0) =~= models);
        while i < entries.len()
            invariant
                i <= entries@.len(),
                addressed_cnid(parent) == Ok::<u32, FsError>(cnid),
                crate::catalog::directory(self@, cnid) == Some(models),
                models == crate::catalog::entry_models(entries@),
                first_named(models.skip(i as int), name@) == first_named(models, name@),
            decreases entries@.len() - i,
        {
            let entry = &entries[i];
            proof {
                assert(models.skip(i as int)[0] == entry@);
                assert(models.skip(i as int).drop_first() =~= models.skip(i + 1));
            }
            if same_bytes(entry.name.as_str().as_bytes(), name) {
                return Ok(Some(NodeId::Opaque(entry.cnid as u64)));
            }
            i = i + 1;
        }
        Ok(None)
    }

    /// Looks up the metadata of a node.
    ///
    /// # Errors
    ///
    /// When the node is not addressed by a CNID, or the catalog has no record
    /// for it.
    pub fn meta(&self, id: NodeId) -> (meta: Result<NodeMeta, FsError>)
        ensures
            meta == match addressed_cnid(id) {
                Err(error) => Err(error),
                Ok(cnid) => match crate::catalog::node_stat(self@, cnid) {
                    None => Err(FsError::NoRecord(cnid)),
                    Some(found) => Ok(meta_model(found)),
                },
            },
    {
        let cnid: u32 = match cnid_of(id) {
            Ok(cnid) => cnid,
            Err(error) => return Err(error),
        };
        match stat(self.volume.as_slice(), cnid) {
            None => Err(FsError::NoRecord(cnid)),
            Some(found) => Ok(
                NodeMeta {
                    ino: found.cnid as u64,
                    is_dir: found.is_dir,
                    size: found.size,
                    born: hfs_time(found.created),
                    modified: hfs_time(found.modified),
                    accessed: hfs_time(found.accessed),
                },
            ),
        }
    }

    /// Reads a stream of the node `cnid` whole.
    fn read_stream(&self, cnid: u32, stream: StreamRef) -> (content: Result<Vec<u8>, FsError>)
        ensures
            match content {
                Ok(bytes) => stream_content(self@, cnid, stream) == Ok::<Seq<u8>, FsError>(bytes@),
                Err(error) => stream_content(self@, cnid, stream) == Err::<Seq<u8>, FsError>(error),
            },
    {
        match stream {
            StreamRef::Default => match read_file(self.volume.as_slice(), cnid) {
                Some(content) => Ok(content),
                None => Err(FsError::UnreadableFile(cnid)),
            },
            StreamRef::Xattr(i) => {
                let loc = match locate_attributes(self.volume.as_slice()) {
                    Some(loc) => loc,
                    None => return Err(FsError::NoAttribute(i)),
                };
                let attributes = list_attributes(self.volume.as_slice(), cnid);
                if i as usize >= attributes.len() {
                    return Err(FsError::NoAttribute(i));
                }
                match attributes[i as usize].value(self.volume.as_slice(), loc.block_size) {
                    Some(value) => Ok(value),
                    None => Err(FsError::UnreadableAttribute(i)),
                }
            },
            StreamRef::Other => Err(FsError::UnsupportedStream),
        }
    }

    /// Reads bytes of a stream from `off` on into `buf`, and returns how many. At
    /// or behind the end of the stream there are none.
    ///
    /// # Errors
    ///
    /// When the node is not addressed by a CNID, the kind of stream is not
    /// supported, the node is not a readable file, or it has no such attribute.
    pub fn read_at(&self, id: NodeId, stream: StreamRef, off: u64, buf: &mut [u8]) -> (count: Result<
        usize,
        FsError,
    >)
        ensures
            match addressed_cnid(id) {
                Err(error) => count == Err::<usize, FsError>(error) && final(buf)@ == old(buf)@,
                Ok(cnid) => match stream_content(self@, cnid, stream) {
                    Err(error) => count == Err::<usize, FsError>(error) && final(buf)@ == old(buf)@,
                    Ok(content) => {
                        let n = window_len(content.len() as int, off as int, old(buf)@.len() as int);
                        &&& count matches Ok(count) && count == n
                        &&& final(buf)@.len() == old(buf)@.len()
                        &&& forall|j: int|
                            0 <= j < old(buf)@.len() ==> #[trigger] final(buf)@[j] == if j < n {
                                content[off + j]
                            } else {
                                old(buf)@[j]
                            }
                    },
                },
            },
    {
        let cnid: u32 = match cnid_of(id) {
            Ok(cnid) => cnid,
            Err(error) => return Err(error),
        };
        let data = match self.read_stream(cnid, stream) {
            Ok(data) => data,
            Err(error) => return Err(error),
        };
        if off >= data.len() as u64 {
            return Ok(0);
        }
        let start: usize = off as usize;
        let left: usize = data.len() - start;
        let room: usize = buf.len();
        let n: usize = if room <= left {
            room
        } else {
            left
        };
        let mut i: usize = 0;
        while i < n
            invariant
                i <= n,
                n <= room,
                room == old(buf)@.len(),
                buf@.len() == old(buf)@.len(),
                start == off,
                start + n <= data.len(),
                forall|j: int|
                    0 <= j < old(buf)@.len() ==> #[trigger] buf@[j] == if j < i {
                        data@[off + j]
                    } else {
                        old(buf)@[j]
                    },
            decreases n - i,
        {
            buf[i] = data[start + i];
            i = i + 1;
        }
        Ok(n)
    }

    /// Lists the streams of a node: the contents of a file, then the extended
    /// attributes of a file or folder.
    ///
    /// # Errors
    ///
    /// As for [`HfsFs::meta`].
    pub fn data_streams(&self, id: NodeId) -> (streams: Result<Vec<StreamInfo>, FsError>)
        ensures
            match addressed_cnid(id) {
                Err(error) => streams == Err::<Vec<StreamInfo>, FsError>(error),
                Ok(cnid) => match crate::catalog::node_stat(self@, cnid) {
                    None => streams == Err::<Vec<StreamInfo>, FsError>(FsError::NoRecord(cnid)),
                    Some(found) => streams matches Ok(streams) && stream_models(streams@)
                        == default_stream(found) + attribute_streams(
                        crate::attributes::node_attributes(self@, cnid),
                    ),
                },
            },
    {
        let cnid: u32 = match cnid_of(id) {
            Ok(cnid) => cnid,
            Err(error) => return Err(error),
        };
        let found = match stat(self.volume.as_slice(), cnid) {
            Some(found) => found,
            None => return Err(FsError::NoRecord(cnid)),
        };
        let mut out: Vec<StreamInfo> = Vec::new();
        if !found.is_dir {
            out.push(
                StreamInfo {
                    id: StreamRef::Default,
                    name: None,
                    size: found.size,
                    residency: Residency::NonResident,
                },
            );
        }
        assert(stream_models(out@) =~= default_stream(found));
        let attributes = list_attributes(self.volume.as_slice(), cnid);
        let ghost models = crate::attributes::attribute_models(attributes@);
        let count: usize = if attributes.len() <= ATTRIBUTE_IDS {
            attributes.len()
        } else {
            ATTRIBUTE_IDS
        };
        let mut i: usize = 0;
        while i < count
            invariant
                i <= count,
                count <= ATTRIBUTE_IDS,
                count <= attributes@.len(),
                count == attribute_streams(models).len(),
                models == crate::attributes::attribute_models(attributes@),
                stream_models(out@) =~= default_stream(found) + attribute_streams(models).take(
                    i as int,
                ),
            decreases count - i,
        {
            let ghost before = out@;
            let stream = describe_attribute(&attributes[i], i as u16);
            out.push(stream);
            proof {
                assert(stream_models(out@) =~= stream_models(before).push(
                    attribute_stream(models[i as int], i as int),
                ));
                assert(attribute_streams(models).take(i + 1) =~= attribute_streams(models).take(
                    i as int,
                ).push(attribute_stream(models[i as int], i as int)));
            }
            i = i + 1;
        }
        assert(attribute_streams(models).take(i as int) =~= attribute_streams(models));
        Ok(out)
    }
}

/// The stream of the attribute at position `i`.
fn describe_attribute(attribute: &Attribute, i: u16) -> (stream: StreamInfo)
    ensures
        stream@ == attribute_stream(attribute@, i as int),
{
    let residency = match &attribute.storage {
        AttrStorage::Inline(value) => Residency::Resident {
            inline_len: cap(value.len() as u64),
        },
        AttrStorage::Fork(_) => Residency::NonResident,
    };
    StreamInfo {
        id: StreamRef::Xattr(i),
        name: Some(vstd::slice::slice_to_vec(attribute.name.as_str().as_bytes())),
        size: attribute.size(),
        residency,
    }
}

} // verus!
