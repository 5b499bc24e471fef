//! Laws of the texts: numbers as digits, and what errors and findings say.

use crate::compression::DecodeError;
use crate::findings::{KindModel, Severity};
use vstd::prelude::*;

verus! {

// ---- Digits ----

/// The number that decimal digits spell.
pub open spec fn decimal_value(text: Seq<char>) -> int
    decreases text.len(),
{
    if text.len() == 0 {
        0
    } else {
        10 * decimal_value(text.drop_last()) + (text.last() as int - 48)
    }
}

/// Whether `text` spells `n` in decimal digits, without a leading zero.
pub open spec fn is_decimal(text: Seq<char>, n: int) -> bool {
    &&& text.len() > 0
    &&& forall|i: int| 0 <= i < text.len() ==> 48 <= (#[trigger] text[i]) as int <= 57
    &&& text.len() > 1 ==> text[0] as int != 48
    &&& decimal_value(text) == n
}

/// A number is rendered in the decimal digits that spell it.
pub proof fn law_decimal(n: int)
    requires
        n >= 0,
    ensures
        is_decimal(crate::text::decimal(n), n),
        n > 0 ==> crate::text::decimal(n)[0] as int != 48,
    decreases n,
{
    let text = crate::text::decimal(n);
    if n < 10 {
        assert(text.drop_last() =~= Seq::<char>::empty());
        assert(text.last() == crate::text::digit(n));
        assert(decimal_value(text.drop_last()) == 0);
    } else {
        law_decimal(n / 10);
        let front = crate::text::decimal(n / 10);
        assert(text.drop_last() =~= front);
        assert(text.last() == crate::text::digit(n % 10));
        assert(text[0] == front[0]);
        assert forall|i: int| 0 <= i < text.len() implies 48 <= (#[trigger] text[i]) as int
            <= 57 by {
            if i < front.len() {
                assert(text[i] == front[i]);
            }
        }
    }
}

/// A negative number has a minus sign in front of its digits.
pub proof fn law_signed_decimal(n: int)
    ensures
        n >= 0 ==> is_decimal(crate::text::signed_decimal(n), n),
        n < 0 ==> crate::text::signed_decimal(n).len() > 0 && crate::text::signed_decimal(n)[0]
            == '-' && is_decimal(crate::text::signed_decimal(n).skip(1), -n),
{
    reveal_strlit("-");
    if n < 0 {
        law_decimal(-n);
        assert(crate::text::signed_decimal(n).skip(1) =~= crate::text::decimal(-n));
    } else {
        law_decimal(n);
    }
}

/// The value of a hexadecimal digit, in lower case.
pub open spec fn hex_digit_value(c: char) -> int {
    if c as int <= 57 {
        c as int - 48
    } else {
        c as int - 87
    }
}

/// The number that hexadecimal digits spell.
pub open spec fn hex_value(text: Seq<char>) -> int
    decreases text.len(),
{
    if text.len() == 0 {
        0
    } else {
        16 * hex_value(text.drop_last()) + hex_digit_value(text.last())
    }
}

/// How many numbers `width` hexadecimal digits can spell.
pub open spec fn hex_range(width: nat) -> int
    decreases width,
{
    if width == 0 {
        1
    } else {
        16 * hex_range((width - 1) as nat)
    }
}

proof fn lemma_hex(n: int, width: nat)
    requires
        0 <= n < hex_range(width),
    ensures
        crate::text::hex(n, width).len() == width,
        hex_value(crate::text::hex(n, width)) == n,
        forall|i: int|
            0 <= i < width ==> {
                let c = #[trigger] crate::text::hex(n, width)[i] as int;
                48 <= c <= 57 || 97 <= c <= 102
            },
    decreases width,
{
    if width > 0 {
        let text = crate::text::hex(n, width);
        let front = crate::text::hex(n / 16, (width - 1) as nat);
        lemma_hex(n / 16, (width - 1) as nat);
        assert(text.drop_last() =~= front);
        assert(text.last() == crate::text::hex_digit(n % 16));
        assert forall|i: int| 0 <= i < width implies {
            let c = #[trigger] text[i] as int;
            48 <= c <= 57 || 97 <= c <= 102
        } by {
            if i < width - 1 {
                assert(text[i] == front[i]);
            }
        }
    }
}

/// A 32-bit number is rendered in eight hexadecimal digits, in lower case, that
/// spell it.
pub proof fn law_hex(n: u32)
    ensures
        crate::text::hex(n as int, 8).len() == 8,
        hex_value(crate::text::hex(n as int, 8)) == n,
        forall|i: int|
            0 <= i < 8 ==> {
                let c = #[trigger] crate::text::hex(n as int, 8)[i] as int;
                48 <= c <= 57 || 97 <= c <= 102
            },
{
    reveal_with_fuel(hex_range, 9);
    lemma_hex(n as int, 8);
}

// ---- Errors ----

/// What a decode error says: the kind of the failure, with the number or the name
/// that it carries.
pub proof fn law_error_texts(error: DecodeError)
    ensures
        crate::compression::error_text(error) == match error {
            DecodeError::Truncated => "decmpfs xattr shorter than 16-byte header"@,
            DecodeError::BadMagic(magic) => "decmpfs bad magic 0x"@ + crate::text::hex(
                magic as int,
                8,
            ) + " (expected 'cmpf')"@,
            DecodeError::UnknownType(kind) => "decmpfs unknown compression_type "@
                + crate::text::decimal(kind as int),
            DecodeError::Unsupported(what) => "decmpfs unsupported: "@ + what@,
            DecodeError::MissingResourceFork =>
                "decmpfs resource-fork type but no resource fork supplied"@,
            DecodeError::OutOfBounds => "decmpfs length/offset field out of bounds"@,
            DecodeError::Codec(codec) => "decmpfs codec error: "@ + codec@,
            DecodeError::LengthMismatch { expected, got } => "decmpfs length mismatch: expected "@
                + crate::text::decimal(expected as int) + ", got "@ + crate::text::decimal(
                got as int,
            ),
        },
{
}

// ---- Findings ----

/// The severity of each kind of finding: high where records are hidden, forged or
/// lost, medium for a thread that was left behind and for a timestamp.
pub proof fn law_severities(kind: KindModel)
    ensures
        crate::findings::severity_of(kind) == Severity::Medium <==> kind is DeletedButReferenced
            || kind is TimeAnomaly,
        crate::findings::severity_of(kind) == Severity::High <==> kind is BtreeNodeInvalid
            || kind is CatalogExtentsMismatch || kind is DecmpfsMissingResource,
{
}

/// The names of the severities.
pub proof fn law_severity_names(severity: Severity)
    ensures
        crate::findings::severity_name(severity) == match severity {
            Severity::Info => "INFO"@,
            Severity::Low => "LOW"@,
            Severity::Medium => "MEDIUM"@,
            Severity::High => "HIGH"@,
            Severity::Critical => "CRITICAL"@,
        },
{
}

/// The code of each kind of finding.
pub proof fn law_codes(kind: KindModel)
    ensures
        crate::findings::code_of(kind) == if kind is BtreeNodeInvalid {
            "HFS-BTREE-NODE-INVALID"@
        } else if kind is CatalogExtentsMismatch {
            "HFS-CATALOG-EXTENTS-MISMATCH"@
        } else if kind is DeletedButReferenced {
            "HFS-DELETED-BUT-REFERENCED"@
        } else if kind is TimeAnomaly {
            "HFS-TIME-ANOMALY"@
        } else {
            "HFS-DECMPFS-MISSING-RESOURCE"@
        },
{
}

/// The decimal digits of a 32-bit number.
pub open spec fn digits(n: u32) -> Seq<char> {
    crate::text::decimal(n as int)
}

/// The decimal digits of a 64-bit number.
pub open spec fn digits64(n: u64) -> Seq<char> {
    crate::text::decimal(n as int)
}

/// Every note gives the evidence of its finding whole: names and details as they
/// are, numbers in all their digits.
pub proof fn law_notes_give_evidence(kind: KindModel)
    ensures
        crate::findings::note_of(kind) == match kind {
            KindModel::BtreeNodeInvalid { tree, node, detail } => tree + " B-tree node "@
                + digits(node) + ": "@ + detail
                + " — the reader walks the leaf chain by these node links/descriptors, so an inconsistent descriptor is consistent with structural corruption or an edit that rewired the tree to hide or strand records"@,
            KindModel::CatalogExtentsMismatch {
                cnid,
                name,
                logical,
                allocated_blocks,
                needed_blocks,
            } => "file `"@ + name + "` (CNID "@ + digits(cnid)
                + ") declares a "@ + digits64(logical)
                + "-byte data fork needing "@ + digits(needed_blocks)
                + " allocation block(s) but its catalog + extents-overflow extents cover only "@
                + digits(allocated_blocks)
                + " — the catalog and extents B-tree are HFS+'s two records of a file's allocation and must agree; a divergence is consistent with a truncated/edited extent list or a forged size"@,
            KindModel::DeletedButReferenced { cnid, parent, name } => "CNID "@
                + digits(cnid) + " (`"@ + name + "`, parent "@
                + digits(parent)
                + ") has a thread record but no file/folder catalog record — the thread is a dangling reference, consistent with the record having been deleted while its thread leaked, leaving a recoverable name/parent for vanished content"@,
            KindModel::TimeAnomaly { cnid, name, detail } => "entry `"@ + name + "` (CNID "@
                + digits(cnid) + "): "@ + detail
                + " — consistent with a backdated/forged timestamp or with timestamp corruption"@,
            KindModel::DecmpfsMissingResource { cnid, name, compression_type, detail } =>
                payload_text(cnid, name, compression_type, detail),
        },
{
}

/// The text of a note on a missing payload.
pub open spec fn payload_text(
    cnid: u32,
    name: Seq<char>,
    kind: u32,
    detail: Seq<char>,
) -> Seq<char> {
    "file `"@ + name + "` (CNID "@ + crate::text::decimal(cnid as int)
        + ") carries a com.apple.decmpfs attribute (compression_type "@ + crate::text::decimal(
        kind as int,
    ) + ") but "@ + detail
        + " — `read_file` cannot materialize it; consistent with the compressed payload having been removed (data destruction) or partial corruption"@
}

/// What the details on nodes say, with the numbers of the node.
pub proof fn law_node_details(kind: int, height: u8, n: u32, forward: u32, backward: u32)
    ensures
        crate::audit::nodes::kind_detail(kind) == "undocumented node kind "@
            + crate::text::signed_decimal(kind)
            + " (expected leaf -1, index 0, header 1, or map 2)"@,
        height == 0 ==> crate::audit::nodes::height_detail(height) == "leaf node at height "@
            + crate::text::decimal(0) + " (a leaf must sit at height >= 1)"@,
        height > 0 ==> crate::audit::nodes::height_detail(height) == "leaf node at height "@
            + crate::text::decimal(height as int) + " (a leaf must sit at height 1)"@,
        crate::audit::nodes::leaf_height_detail(kind) == "node of kind "@
            + crate::text::signed_decimal(kind) + " at height 1 (only a leaf sits at height 1)"@,
        crate::audit::nodes::header_detail(n) == "header-kind descriptor on node "@
            + crate::text::decimal(n as int) + " (the header node must be node 0)"@,
        crate::audit::nodes::link_detail(forward, backward)
            == "node links point at itself (fLink "@ + crate::text::decimal(forward as int)
            + ", bLink "@ + crate::text::decimal(backward as int)
            + ") — a node cannot be its own neighbour"@,
        crate::audit::nodes::stray_detail(forward, backward)
            == "node links point outside the tree (fLink "@ + crate::text::decimal(forward as int)
            + ", bLink "@ + crate::text::decimal(backward as int)
            + ") — a neighbour must be a node of the tree"@,
        crate::audit::nodes::loop_detail(n)
            == "forward-link chain loops back to already-visited node "@ + crate::text::decimal(
            n as int,
        ),
{
}

/// What is wrong with the timestamps of an entry: it was modified before it was
/// created, or one of them, the creation first, lies before the boundary or after
/// the volume was last written. A time of 0, and a last-written date of 0, is
/// none.
pub proof fn law_time_details(what: Seq<char>, create: u32, content_mod: u32, written: u32)
    ensures
        ({
            let early = |time: u32| 0 < time < 2_082_844_800;
            let late = |time: u32| written != 0 && time > written;
            let detail = crate::audit::times::time_detail(what, create, content_mod, written);
            if content_mod != 0 && create > content_mod {
                detail == Some(
                    "creation time "@ + crate::text::decimal(create as int)
                        + " is later than content-modification time "@ + crate::text::decimal(
                        content_mod as int,
                    ) + " (a "@ + what + " cannot be modified before it is created)"@,
                )
            } else if early(create) || early(content_mod) {
                let (label, time) = if early(create) {
                    ("creation"@, create)
                } else {
                    ("content-modification"@, content_mod)
                };
                detail == Some(
                    label + " time "@ + crate::text::decimal(time as int)
                        + " predates the HFS+ epoch boundary (before 1904 — impossible)"@,
                )
            } else if late(create) || late(content_mod) {
                let (label, time) = if late(create) {
                    ("creation"@, create)
                } else {
                    ("content-modification"@, content_mod)
                };
                detail == Some(
                    label + " time "@ + crate::text::decimal(time as int)
                        + " is after the volume's last-written date "@ + crate::text::decimal(
                        written as int,
                    ) + " (nothing inside a volume can postdate the volume header)"@,
                )
            } else {
                detail is None
            }
        }),
{
}

} // verus!
