//! The volume header: signature, version and geometry.

use crate::bytes::{be16, be32};
use vstd::prelude::*;

verus! {

broadcast use vstd::slice::axiom_spec_len;

/// Byte offset of the volume header from the start of the volume.
pub const VOLUME_HEADER_OFFSET: usize = 1024;

/// Bytes of the volume header that hold the signature and the geometry.
pub const GEOMETRY_LEN: usize = 52;

/// The `H+` signature of HFS Plus.
pub const SIG_HFS_PLUS: u16 = 0x482B;

/// The `HX` signature of HFSX.
pub const SIG_HFSX: u16 = 0x4858;

/// Which Apple volume signature was found.
#[derive(Debug, Clone, Copy, PartialEq, Eq, Structural)]
pub enum HfsKind {
    /// `H+`: standard HFS Plus.
    HfsPlus,
    /// `HX`: case-sensitive HFSX.
    Hfsx,
}

/// The parsed volume header (geometry only).
#[derive(Debug, Clone, Copy, PartialEq, Eq, Structural)]
pub struct HfsVolume {
    /// The signature found.
    pub kind: HfsKind,
    /// Volume format version (4 for HFS+, 5 for HFSX).
    pub version: u16,
    /// Number of files in the volume's catalog.
    pub file_count: u32,
    /// Number of folders in the volume's catalog.
    pub folder_count: u32,
    /// Allocation block size in bytes.
    pub block_size: u32,
    /// Total allocation blocks in the volume.
    pub total_blocks: u32,
    /// Free allocation blocks.
    pub free_blocks: u32,
}

/// The kind of volume that a signature announces.
pub open spec fn kind_of_signature(signature: u16) -> Option<HfsKind> {
    if signature == SIG_HFS_PLUS {
        Some(HfsKind::HfsPlus)
    } else if signature == SIG_HFSX {
        Some(HfsKind::Hfsx)
    } else {
        None
    }
}

/// The 16-bit field `field` bytes into the volume header.
pub open spec fn header16(volume: Seq<u8>, field: int) -> u16 {
    crate::bytes::be16_at(volume, VOLUME_HEADER_OFFSET + field)
}

/// The 32-bit field `field` bytes into the volume header.
pub open spec fn header32(volume: Seq<u8>, field: int) -> u32 {
    crate::bytes::be32_at(volume, VOLUME_HEADER_OFFSET + field)
}

/// The header that `volume` carries: nothing when the buffer ends before the
/// geometry does, or when the signature is neither `H+` nor `HX`.
pub open spec fn volume_header(volume: Seq<u8>) -> Option<HfsVolume> {
    if volume.len() < VOLUME_HEADER_OFFSET + GEOMETRY_LEN {
        None
    } else {
        match kind_of_signature(header16(volume, 0)) {
            None => None,
            Some(kind) => Some(
                HfsVolume {
                    kind,
                    version: header16(volume, 2),
                    file_count: header32(volume, 32),
                    folder_count: header32(volume, 36),
                    block_size: header32(volume, 40),
                    total_blocks: header32(volume, 44),
                    free_blocks: header32(volume, 48),
                },
            ),
        }
    }
}

impl HfsVolume {
    /// Total volume size in bytes (`block_size * total_blocks`).
    #[must_use]
    pub fn volume_size(&self) -> (size: u64)
        ensures
            size == self.block_size * self.total_blocks,
    {
        proof {
            assert(self.block_size * self.total_blocks <= u64::MAX) by (nonlinear_arith)
                requires
                    self.block_size <= u32::MAX,
                    self.total_blocks <= u32::MAX,
            ;
        }
        self.block_size as u64 * self.total_blocks as u64
    }
}

/// The kind of volume that `signature` announces.
pub fn signature_kind(signature: u16) -> (kind: Option<HfsKind>)
    ensures
        kind == kind_of_signature(signature),
{
    if signature == SIG_HFS_PLUS {
        Some(HfsKind::HfsPlus)
    } else if signature == SIG_HFSX {
        Some(HfsKind::Hfsx)
    } else {
        None
    }
}

/// Parses the volume header from a buffer that begins at the volume start.
///
/// Returns `None` if the buffer is too short or carries no HFS+ signature.
#[must_use]
pub fn parse(volume: &[u8]) -> (header: Option<HfsVolume>)
    ensures
        header == volume_header(volume@),
{
    let h: usize = VOLUME_HEADER_OFFSET;
    if volume.len() < h + GEOMETRY_LEN {
        return None;
    }
    match signature_kind(be16(volume, h)) {
        None => None,
        Some(kind) => Some(
            HfsVolume {
                kind,
                version: be16(volume, h + 2),
                file_count: be32(volume, h + 32),
                folder_count: be32(volume, h + 36),
                block_size: be32(volume, h + 40),
                total_blocks: be32(volume, h + 44),
                free_blocks: be32(volume, h + 48),
            },
        ),
    }
}

} // verus!
