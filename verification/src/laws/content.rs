//! Laws of forks and file contents.

use crate::catalog::RECORD_FILE;
use crate::forks::ForkModel;
use crate::laws::layout::{law_integers, lemma_first_kept};
use vstd::prelude::*;

verus! {

/// The bytes of `extents`, one after the other.
pub open spec fn joined_extents(volume: Seq<u8>, block_size: usize, extents: Seq<(u32, u32)>) -> Seq<
    u8,
>
    decreases extents.len(),
{
    if extents.len() == 0 {
        Seq::empty()
    } else {
        let begin = extents[0].0 * block_size;
        volume.subrange(begin, begin + extents[0].1 * block_size) + joined_extents(
            volume,
            block_size,
            extents.drop_first(),
        )
    }
}

/// Whether every one of `extents` lies within the volume.
pub open spec fn extents_inside(
    volume: Seq<u8>,
    block_size: usize,
    extents: Seq<(u32, u32)>,
) -> bool {
    forall|i: int|
        0 <= i < extents.len() ==> (#[trigger] extents[i]).0 * block_size + extents[i].1
            * block_size <= volume.len()
}

/// Whether every one of `extents` holds a block.
pub open spec fn extents_used(extents: Seq<(u32, u32)>) -> bool {
    forall|i: int| 0 <= i < extents.len() ==> (#[trigger] extents[i]).1 != 0
}

/// A fork never reads as more bytes than its logical size.
pub proof fn law_content_bounded(volume: Seq<u8>, block_size: usize, fork: ForkModel)
    ensures
        crate::forks::fork_content(volume, block_size, fork) matches Some(content) ==> content.len()
            <= fork.logical as usize,
{
    lemma_extents_bounded(
        volume,
        block_size,
        fork.extents,
        (fork.logical as usize) as int,
        Seq::empty(),
    );
}

proof fn lemma_extents_bounded(
    volume: Seq<u8>,
    block_size: usize,
    extents: Seq<(u32, u32)>,
    logical: int,
    got: Seq<u8>,
)
    requires
        logical >= 0,
    ensures
        crate::forks::extent_bytes(volume, block_size, extents, logical, got) matches Some(content)
            ==> content.len() <= logical,
    decreases extents.len(),
{
    if extents.len() > 0 && got.len() < logical {
        let begin = extents[0].0 * block_size;
        let end = begin + extents[0].1 * block_size;
        if end <= usize::MAX && begin < volume.len() {
            let stop = if end <= volume.len() {
                end
            } else {
                volume.len() as int
            };
            lemma_extents_bounded(
                volume,
                block_size,
                extents.drop_first(),
                logical,
                got + volume.subrange(begin, stop),
            );
        }
    }
}

proof fn lemma_extents_whole(
    volume: Seq<u8>,
    block_size: usize,
    extents: Seq<(u32, u32)>,
    logical: int,
    got: Seq<u8>,
)
    requires
        block_size > 0,
        logical >= 0,
        volume.len() <= usize::MAX,
        extents_inside(volume, block_size, extents),
        extents_used(extents),
    ensures
        crate::forks::extent_bytes(volume, block_size, extents, logical, got) == Some(
            crate::forks::truncated(got + joined_extents(volume, block_size, extents), logical),
        ),
    decreases extents.len(),
{
    let all = got + joined_extents(volume, block_size, extents);
    if extents.len() == 0 {
        assert(all =~= got);
    } else if got.len() >= logical {
        assert(crate::forks::truncated(got, logical) =~= crate::forks::truncated(all, logical));
    } else {
        let begin = extents[0].0 * block_size;
        let end = begin + extents[0].1 * block_size;
        let rest = extents.drop_first();
        assert(extents[0].0 * block_size >= 0) by (nonlinear_arith);
        assert(extents[0].1 * block_size > 0) by (nonlinear_arith)
            requires
                extents[0].1 > 0,
                block_size > 0,
        ;
        assert(end <= volume.len());
        assert forall|i: int| 0 <= i < rest.len() implies (#[trigger] rest[i]).0 * block_size
            + rest[i].1 * block_size <= volume.len() && rest[i].1 != 0 by {
            assert(rest[i] == extents[i + 1]);
        }
        let next = got + volume.subrange(begin, end);
        lemma_extents_whole(volume, block_size, rest, logical, next);
        assert(next + joined_extents(volume, block_size, rest) =~= all);
    }
}

/// A fork whose extents lie within the volume reads as its extents, joined and
/// cut to its logical size; if they cover that size, it reads as exactly that
/// many bytes.
pub proof fn law_content_whole(volume: Seq<u8>, block_size: usize, fork: ForkModel)
    requires
        block_size > 0,
        volume.len() <= usize::MAX,
        fork.logical <= usize::MAX,
        extents_inside(volume, block_size, fork.extents),
        extents_used(fork.extents),
    ensures
        crate::forks::fork_content(volume, block_size, fork) matches Some(content) && {
            let joined = joined_extents(volume, block_size, fork.extents);
            &&& content == crate::forks::truncated(joined, fork.logical as int)
            &&& joined.len() >= fork.logical ==> content.len() == fork.logical
        },
{
    let joined = joined_extents(volume, block_size, fork.extents);
    lemma_extents_whole(
        volume,
        block_size,
        fork.extents,
        fork.logical as int,
        Seq::empty(),
    );
    assert(Seq::<u8>::empty() + joined =~= joined);
}

/// The forks that a fork-data structure describes hold only used extents.
pub proof fn law_parsed_extents_used(fork: Seq<u8>)
    ensures
        crate::forks::fork_model(fork) matches Some(model) ==> {
            &&& extents_used(model.extents)
            &&& model.extents.len() <= crate::forks::EXTENT_SLOTS
        },
{
    lemma_used_extents(fork, 0);
}

proof fn lemma_used_extents(fork: Seq<u8>, i: int)
    requires
        0 <= i <= crate::forks::EXTENT_SLOTS,
    ensures
        extents_used(crate::forks::used_extents(fork, i)),
        crate::forks::used_extents(fork, i).len() <= crate::forks::EXTENT_SLOTS - i,
    decreases crate::forks::EXTENT_SLOTS - i,
{
    if i < crate::forks::EXTENT_SLOTS {
        lemma_used_extents(fork, i + 1);
    }
}

/// A compressed file is never read as its data fork: what is read is what its
/// attribute and its resource fork decode to, of the length that its header
/// declares; and when they do not decode, nothing is read.
pub proof fn law_compressed_file_decodes(
    volume: Seq<u8>,
    block_size: usize,
    data: ForkModel,
    resource: ForkModel,
    xattr: Seq<u8>,
)
    ensures
        match crate::compression::file_result(
            xattr,
            crate::files::resource_content(volume, block_size, resource),
        ) {
            Ok(bytes) => {
                &&& crate::files::content_of(volume, block_size, data, resource, Some(xattr))
                    == Some(bytes)
                &&& bytes.len() == crate::compression::declared_size(xattr)
            },
            Err(_) => crate::files::content_of(volume, block_size, data, resource, Some(xattr))
                is None,
        },
{
}

/// A compressed file reads as exactly as many bytes as its header declares, or
/// not at all.
pub proof fn law_compressed_file_reads_whole(volume: Seq<u8>, cnid: u32, xattr: Seq<u8>)
    requires
        crate::attributes::decmpfs_attribute(volume, cnid) == Some(xattr),
    ensures
        crate::files::file_content(volume, cnid) matches Some(bytes) ==> bytes.len()
            == crate::compression::declared_size(xattr),
{
}

/// What a compressed file decodes to does not depend on its data fork.
pub proof fn law_data_fork_ignored(
    volume: Seq<u8>,
    block_size: usize,
    data: ForkModel,
    other: ForkModel,
    resource: ForkModel,
    xattr: Seq<u8>,
)
    ensures
        crate::files::content_of(volume, block_size, data, resource, Some(xattr))
            == crate::files::content_of(volume, block_size, other, resource, Some(xattr)),
{
}

/// A record gives the metadata of a file if and only if it gives the file's
/// forks, and the size that it gives is that of the data fork.
pub proof fn law_stat_matches_forks(rec: Seq<u8>, cnid: u32)
    ensures
        (crate::catalog::record_stat_model(rec, cnid) matches Some(found) && !found.is_dir)
            <==> crate::forks::file_forks_model(rec, cnid) is Some,
        crate::forks::file_forks_model(rec, cnid) matches Some((data, _)) ==> {
            &&& crate::catalog::record_stat_model(rec, cnid) matches Some(found)
            &&& found.size == data.logical
        },
{
    let body = crate::catalog::record_body(rec);
    if crate::forks::file_forks_model(rec, cnid) is Some {
        let fork = rec.skip(body + crate::forks::DATA_FORK_FIELD);
        assert(forall|i: int| 0 <= i < 8 ==> fork[i] == #[trigger] rec[body + 88 + i]);
        assert(fork[0] == rec[body + 88 + 0]);
        assert(fork[1] == rec[body + 88 + 1]);
        assert(fork[2] == rec[body + 88 + 2]);
        assert(fork[3] == rec[body + 88 + 3]);
        assert(fork[4] == rec[body + 88 + 4]);
        assert(fork[5] == rec[body + 88 + 5]);
        assert(fork[6] == rec[body + 88 + 6]);
        assert(fork[7] == rec[body + 88 + 7]);
        assert(crate::bytes::be64_at(fork, 0) == crate::bytes::be64_at(rec, body + 88));
    }
}

/// Only a file has contents: when the catalog has no file record for `cnid`,
/// nothing is read.
pub proof fn law_only_files_have_contents(volume: Seq<u8>, records: Seq<Seq<u8>>, cnid: u32)
    requires
        crate::catalog::catalog_records(volume) == Some(records),
        forall|i: int|
            0 <= i < records.len() ==> crate::catalog::record_type(#[trigger] records[i])
                != RECORD_FILE || crate::catalog::body_cnid(records[i]) != cnid,
    ensures
        crate::files::file_content(volume, cnid) is None,
{
    lemma_no_forks(records, cnid);
}

proof fn lemma_no_forks(records: Seq<Seq<u8>>, cnid: u32)
    requires
        forall|i: int|
            0 <= i < records.len() ==> crate::catalog::record_type(#[trigger] records[i])
                != RECORD_FILE || crate::catalog::body_cnid(records[i]) != cnid,
    ensures
        crate::files::first_forks(records, cnid) is None,
    decreases records.len(),
{
    if records.len() > 0 {
        let rest = records.drop_first();
        assert forall|i: int| 0 <= i < rest.len() implies crate::catalog::record_type(
            #[trigger] rest[i],
        ) != RECORD_FILE || crate::catalog::body_cnid(rest[i]) != cnid by {
            assert(rest[i] == records[i + 1]);
        }
        lemma_no_forks(rest, cnid);
    }
}

// ---- Forks and contents, in terms of the bytes of a record ----

/// Whether `extents` are those of the eight slots of the fork data at `at` that
/// hold blocks, in order: `picks` are their slots, each a start block and a block
/// count of four bytes, the first 16 bytes into the fork data.
pub open spec fn extents_told(s: Seq<u8>, at: int, picks: Seq<int>, extents: Seq<(u32, u32)>) -> bool {
    &&& crate::laws::layout::increasing(picks)
    &&& picks.len() == extents.len()
    &&& forall|i: int| #[trigger]
        picks.contains(i) <==> 0 <= i < 8 && crate::laws::layout::num32(s, at + 20 + 8 * i) != 0
    &&& forall|j: int|
        0 <= j < extents.len() ==> {
            &&& (#[trigger] extents[j]).0 == crate::laws::layout::num32(s, at + 16 + 8 * picks[j])
            &&& extents[j].1 == crate::laws::layout::num32(s, at + 20 + 8 * picks[j])
        }
}

/// Whether the fork data at `at` tell of `fork`.
pub open spec fn fork_told(s: Seq<u8>, at: int, fork: ForkModel) -> bool {
    &&& fork.logical == crate::laws::layout::num64(s, at)
    &&& exists|picks: Seq<int>| extents_told(s, at, picks, fork.extents)
}

proof fn lemma_told_extents(fork: Seq<u8>, s: Seq<u8>, at: int, i: int) -> (picks: Seq<int>)
    requires
        0 <= i <= 8,
        fork == s.skip(at),
        0 <= at,
        at + 80 <= s.len(),
    ensures
        crate::laws::layout::increasing(picks),
        picks.len() == crate::forks::used_extents(fork, i).len(),
        forall|k: int| #[trigger]
            picks.contains(k) <==> i <= k < 8 && crate::laws::layout::num32(s, at + 20 + 8 * k)
                != 0,
        forall|j: int|
            0 <= j < picks.len() ==> {
                let extent = #[trigger] crate::forks::used_extents(fork, i)[j];
                &&& extent.0 == crate::laws::layout::num32(s, at + 16 + 8 * picks[j])
                &&& extent.1 == crate::laws::layout::num32(s, at + 20 + 8 * picks[j])
            },
    decreases 8 - i,
{
    if i == 8 {
        Seq::empty()
    } else {
        let tail = lemma_told_extents(fork, s, at, i + 1);
        let start = 16 + 8 * i;
        assert(fork[start] == s[at + start]);
        assert(fork[start + 1] == s[at + start + 1]);
        assert(fork[start + 2] == s[at + start + 2]);
        assert(fork[start + 3] == s[at + start + 3]);
        assert(fork[start + 4] == s[at + start + 4]);
        assert(fork[start + 5] == s[at + start + 5]);
        assert(fork[start + 6] == s[at + start + 6]);
        assert(fork[start + 7] == s[at + start + 7]);
        law_integers(fork, start);
        law_integers(fork, start + 4);
        let head = if crate::forks::slot_count(fork, i) != 0 {
            seq![i]
        } else {
            Seq::empty()
        };
        let picks = head + tail;
        let all = crate::forks::used_extents(fork, i);
        let rest = crate::forks::used_extents(fork, i + 1);
        assert forall|j: int| 0 <= j < picks.len() implies {
            let extent = #[trigger] all[j];
            &&& extent.0 == crate::laws::layout::num32(s, at + 16 + 8 * picks[j])
            &&& extent.1 == crate::laws::layout::num32(s, at + 20 + 8 * picks[j])
        } by {
            if j >= head.len() {
                assert(all[j] == rest[j - head.len()]);
                assert(picks[j] == tail[j - head.len()]);
            }
        }
        assert forall|k: int| #[trigger] picks.contains(k) <==> i <= k < 8
            && crate::laws::layout::num32(s, at + 20 + 8 * k) != 0 by {
            if picks.contains(k) {
                let j = choose|j: int| 0 <= j < picks.len() && picks[j] == k;
                if j >= head.len() {
                    assert(tail[j - head.len()] == k);
                    assert(tail.contains(k));
                }
            }
            if tail.contains(k) {
                let j = choose|j: int| 0 <= j < tail.len() && tail[j] == k;
                assert(picks[head.len() + j] == k);
            }
            if k == i && head.len() > 0 {
                assert(picks[0] == k);
            }
        }
        assert forall|a: int, b: int| 0 <= a < b < picks.len() implies #[trigger] picks[a]
            < #[trigger] picks[b] by {
            assert(tail.contains(tail[b - head.len()]));
            if a >= head.len() {
                assert(tail[a - head.len()] < tail[b - head.len()]);
            }
        }
        picks
    }
}

/// Fork data of 80 bytes at `at` give the fork that the bytes there tell.
pub proof fn law_fork_at(s: Seq<u8>, at: int)
    requires
        0 <= at,
        at + 80 <= s.len(),
    ensures
        crate::forks::fork_model(s.skip(at)) matches Some(fork) && fork_told(s, at, fork),
{
    let fork = s.skip(at);
    let model = crate::forks::fork_model(fork)->0;
    let picks = lemma_told_extents(fork, s, at, 0);
    law_integers(fork, 0);
    assert(fork[0] == s[at + 0] && fork[1] == s[at + 1] && fork[2] == s[at + 2] && fork[3] == s[at
        + 3]);
    assert(fork[4] == s[at + 4] && fork[5] == s[at + 5] && fork[6] == s[at + 6] && fork[7] == s[at
        + 7]);
    assert(extents_told(s, at, picks, model.extents));
}

/// Fork data give a fork if and only if all 80 bytes are there, and then the fork
/// that the bytes tell: the logical size in the first eight, then the extents.
pub proof fn law_fork_fields(fork: Seq<u8>)
    ensures
        crate::forks::fork_model(fork) is Some <==> fork.len() >= 80,
        crate::forks::fork_model(fork) matches Some(model) ==> fork_told(fork, 0, model),
{
    assert(fork.skip(0) =~= fork);
    if fork.len() >= 80 {
        law_fork_at(fork, 0);
    }
}

/// Whether a record is a file record for `cnid` that holds a whole data fork.
pub open spec fn is_file_of(rec: Seq<u8>, cnid: u32) -> bool {
    &&& rec.len() >= 8
    &&& crate::laws::entries::body_at(rec) + 168 <= rec.len()
    &&& crate::laws::entries::type_of(rec) == 2
    &&& crate::laws::entries::cnid_in(rec) == cnid
}

/// A record gives the forks of a file if and only if it is a file record for it:
/// the data fork that the bytes 88 into its body tell, and the resource fork that
/// those 168 into it tell, or an empty one where they are not there.
pub proof fn law_forks_of_record(rec: Seq<u8>, cnid: u32)
    ensures
        crate::forks::file_forks_model(rec, cnid) is Some <==> is_file_of(rec, cnid),
        crate::forks::file_forks_model(rec, cnid) matches Some((data, resource)) ==> {
            let body = crate::laws::entries::body_at(rec);
            &&& fork_told(rec, body + 88, data)
            &&& if body + 248 <= rec.len() {
                fork_told(rec, body + 168, resource)
            } else {
                resource.logical == 0 && resource.extents.len() == 0
            }
        },
{
    let body = crate::laws::entries::body_at(rec);
    law_integers(rec, 0);
    law_integers(rec, body);
    law_integers(rec, body + 8);
    if is_file_of(rec, cnid) {
        law_fork_at(rec, body + 88);
        if body + 248 <= rec.len() {
            law_fork_at(rec, body + 168);
        }
    }
}

/// The forks that a record gives for `cnid`.
spec fn forks_for(cnid: u32) -> spec_fn(Seq<u8>) -> Option<(ForkModel, ForkModel)> {
    |rec: Seq<u8>| crate::forks::file_forks_model(rec, cnid)
}

proof fn lemma_first_forks_kept(records: Seq<Seq<u8>>, cnid: u32)
    ensures
        crate::files::first_forks(records, cnid) == crate::laws::layout::first_kept(
            records,
            forks_for(cnid),
        ),
    decreases records.len(),
{
    if records.len() > 0 {
        lemma_first_forks_kept(records.drop_first(), cnid);
    }
}

/// The forks of a file are those of its first file record, and it has none if no
/// record is one.
pub proof fn law_first_forks_exact(records: Seq<Seq<u8>>, cnid: u32) -> (i: int)
    ensures
        match crate::files::first_forks(records, cnid) {
            None => forall|j: int|
                0 <= j < records.len() ==> !is_file_of(#[trigger] records[j], cnid),
            Some((data, resource)) => {
                let body = crate::laws::entries::body_at(records[i]);
                &&& 0 <= i < records.len()
                &&& is_file_of(records[i], cnid)
                &&& forall|j: int| 0 <= j < i ==> !is_file_of(#[trigger] records[j], cnid)
                &&& crate::forks::file_forks_model(records[i], cnid) == Some((data, resource))
                &&& fork_told(records[i], body + 88, data)
                &&& body + 248 <= records[i].len() ==> fork_told(records[i], body + 168, resource)
                &&& body + 248 > records[i].len() ==> resource.logical == 0
            },
        },
{
    let f = forks_for(cnid);
    lemma_first_forks_kept(records, cnid);
    let i = lemma_first_kept(records, f);
    assert forall|j: int| 0 <= j < records.len() implies (f(#[trigger] records[j]) is Some
        <==> is_file_of(records[j], cnid)) by {
        law_forks_of_record(records[j], cnid);
    }
    if 0 <= i < records.len() {
        law_forks_of_record(records[i], cnid);
    }
    i
}

/// The bytes of the first `m` extents, one after the other, each cut off at the
/// end of the volume.
pub open spec fn clipped(volume: Seq<u8>, block_size: usize, extents: Seq<(u32, u32)>, m: int) -> Seq<
    u8,
>
    decreases m,
{
    if m <= 0 {
        Seq::empty()
    } else {
        let begin = extents[m - 1].0 * block_size;
        let end = begin + extents[m - 1].1 * block_size;
        clipped(volume, block_size, extents, m - 1) + volume.subrange(
            begin,
            if end <= volume.len() {
                end
            } else {
                volume.len() as int
            },
        )
    }
}

/// Whether extent `k` is read: its end is a machine address, it begins within the
/// volume, and the extents before it do not make up the logical size.
pub open spec fn extent_read(volume: Seq<u8>, block_size: usize, fork: ForkModel, k: int) -> bool {
    let begin = fork.extents[k].0 * block_size;
    &&& begin < volume.len()
    &&& begin + fork.extents[k].1 * block_size <= usize::MAX
    &&& clipped(volume, block_size, fork.extents, k).len() < fork.logical
}

proof fn lemma_content_trace(
    volume: Seq<u8>,
    block_size: usize,
    fork: ForkModel,
    m: int,
) -> (read: int)
    requires
        0 <= m <= fork.extents.len(),
        fork.logical <= usize::MAX,
    ensures
        m <= read <= fork.extents.len(),
        forall|k: int| m <= k < read ==> #[trigger] extent_read(volume, block_size, fork, k),
        crate::forks::extent_bytes(
            volume,
            block_size,
            fork.extents.skip(m),
            fork.logical as int,
            clipped(volume, block_size, fork.extents, m),
        ) == if read < fork.extents.len() && clipped(volume, block_size, fork.extents, read).len()
            < fork.logical && fork.extents[read].0 * block_size + fork.extents[read].1 * block_size
            > usize::MAX {
            None
        } else {
            Some(
                crate::forks::truncated(
                    clipped(volume, block_size, fork.extents, read),
                    fork.logical as int,
                ),
            )
        },
        read < fork.extents.len() ==> !extent_read(volume, block_size, fork, read),
    decreases fork.extents.len() - m,
{
    let left = fork.extents.skip(m);
    let got = clipped(volume, block_size, fork.extents, m);
    if m == fork.extents.len() || got.len() >= fork.logical {
        m
    } else {
        assert(left[0] == fork.extents[m]);
        assert(left.drop_first() =~= fork.extents.skip(m + 1));
        let begin = left[0].0 * block_size;
        let end = begin + left[0].1 * block_size;
        if end > usize::MAX || begin >= volume.len() {
            m
        } else {
            lemma_content_trace(volume, block_size, fork, m + 1)
        }
    }
}

/// A fork reads as the bytes of its extents, one after the other and cut off at
/// the end of the volume, until its logical size is made up or an extent begins
/// behind the volume; no more bytes are kept than the logical size. It cannot be
/// read if an extent that is due ends at no machine address.
pub proof fn law_content_exact(volume: Seq<u8>, block_size: usize, fork: ForkModel) -> (read: int)
    requires
        fork.logical <= usize::MAX,
    ensures
        0 <= read <= fork.extents.len(),
        forall|k: int| 0 <= k < read ==> #[trigger] extent_read(volume, block_size, fork, k),
        read < fork.extents.len() ==> !extent_read(volume, block_size, fork, read),
        crate::forks::fork_content(volume, block_size, fork) is None <==> read < fork.extents.len()
            && clipped(volume, block_size, fork.extents, read).len() < fork.logical
            && fork.extents[read].0 * block_size + fork.extents[read].1 * block_size > usize::MAX,
        crate::forks::fork_content(volume, block_size, fork) matches Some(content) ==> {
            let all = clipped(volume, block_size, fork.extents, read);
            &&& content.len() == if all.len() <= fork.logical {
                all.len()
            } else {
                fork.logical as nat
            }
            &&& forall|p: int| 0 <= p < content.len() ==> #[trigger] content[p] == all[p]
        },
{
    let read = lemma_content_trace(volume, block_size, fork, 0);
    assert(fork.extents.skip(0) =~= fork.extents);
    read
}

/// The bytes that slot `i` of the fork data at `at` names.
pub open spec fn slot_bytes(volume: Seq<u8>, block_size: int, s: Seq<u8>, at: int, i: int) -> Seq<
    u8,
> {
    let start = crate::laws::layout::num32(s, at + 16 + 8 * i);
    let count = crate::laws::layout::num32(s, at + 20 + 8 * i);
    if count == 0 {
        Seq::empty()
    } else {
        volume.subrange(start * block_size, start * block_size + count * block_size)
    }
}

/// The bytes that the slots from `i` on name, one after the other.
pub open spec fn slots_bytes(volume: Seq<u8>, block_size: int, s: Seq<u8>, at: int, i: int) -> Seq<
    u8,
>
    decreases 8 - i,
{
    if i >= 8 {
        Seq::empty()
    } else {
        slot_bytes(volume, block_size, s, at, i) + slots_bytes(volume, block_size, s, at, i + 1)
    }
}

/// Whether what slot `i` of the fork data at `at` names lies within the volume.
pub open spec fn slot_inside(volume: Seq<u8>, block_size: int, s: Seq<u8>, at: int, i: int) -> bool {
    let start = crate::laws::layout::num32(s, at + 16 + 8 * i);
    let count = crate::laws::layout::num32(s, at + 20 + 8 * i);
    count != 0 ==> start * block_size + count * block_size <= volume.len()
}

proof fn lemma_slots_joined(
    volume: Seq<u8>,
    block_size: usize,
    fork: Seq<u8>,
    s: Seq<u8>,
    at: int,
    i: int,
)
    requires
        0 <= i <= 8,
        0 <= at,
        at + 80 <= s.len(),
        fork == s.skip(at),
        forall|k: int| 0 <= k < 8 ==> #[trigger] slot_inside(volume, block_size as int, s, at, k),
    ensures
        joined_extents(volume, block_size, crate::forks::used_extents(fork, i)) == slots_bytes(
            volume,
            block_size as int,
            s,
            at,
            i,
        ),
        extents_inside(volume, block_size, crate::forks::used_extents(fork, i)),
    decreases 8 - i,
{
    if i < 8 {
        let start = 16 + 8 * i;
        assert(fork[start] == s[at + start]);
        assert(fork[start + 1] == s[at + start + 1]);
        assert(fork[start + 2] == s[at + start + 2]);
        assert(fork[start + 3] == s[at + start + 3]);
        assert(fork[start + 4] == s[at + start + 4]);
        assert(fork[start + 5] == s[at + start + 5]);
        assert(fork[start + 6] == s[at + start + 6]);
        assert(fork[start + 7] == s[at + start + 7]);
        law_integers(fork, start);
        law_integers(fork, start + 4);
        lemma_slots_joined(volume, block_size, fork, s, at, i + 1);
        assert(slot_inside(volume, block_size as int, s, at, i));
        let all = crate::forks::used_extents(fork, i);
        let rest = crate::forks::used_extents(fork, i + 1);
        if crate::forks::slot_count(fork, i) != 0 {
            assert(all.drop_first() =~= rest);
            assert(all[0].0 == crate::laws::layout::num32(s, at + 16 + 8 * i));
            assert(all[0].1 == crate::laws::layout::num32(s, at + 20 + 8 * i));
            assert forall|k: int| 0 <= k < all.len() implies (#[trigger] all[k]).0 * block_size
                + all[k].1 * block_size <= volume.len() by {
                if k > 0 {
                    assert(all[k] == rest[k - 1]);
                }
            }
        } else {
            assert(slots_bytes(volume, block_size as int, s, at, i) =~= slots_bytes(
                volume,
                block_size as int,
                s,
                at,
                i + 1,
            ));
        }
    }
}

/// Whether `content` is `all`, cut to `logical` bytes.
pub open spec fn is_cut(content: Seq<u8>, all: Seq<u8>, logical: int) -> bool {
    &&& content.len() == if all.len() <= logical {
        all.len() as int
    } else {
        logical
    }
    &&& forall|p: int| 0 <= p < content.len() ==> #[trigger] content[p] == all[p]
}

/// A file that is not compressed reads as the blocks that its first file record
/// names: for each of the eight slots of its data fork the bytes from the start
/// block on, one after the other, cut to the logical size. The blocks are to lie
/// within the volume.
pub proof fn law_plain_file_reads(
    volume: Seq<u8>,
    loc: crate::btree::CatalogLoc,
    records: Seq<Seq<u8>>,
    cnid: u32,
    i: int,
)
    requires
        volume.len() <= usize::MAX,
        crate::btree::catalog_loc(volume) == Some(loc),
        records == crate::btree::leaf_records(volume, loc),
        0 <= i < records.len(),
        is_file_of(records[i], cnid),
        forall|j: int| 0 <= j < i ==> !is_file_of(#[trigger] records[j], cnid),
        crate::attributes::decmpfs_attribute(volume, cnid) is None,
        crate::laws::layout::num64(records[i], crate::laws::entries::body_at(records[i]) + 88)
            <= usize::MAX,
        forall|k: int|
            0 <= k < 8 ==> #[trigger] slot_inside(
                volume,
                crate::laws::layout::num32(volume, 1064),
                records[i],
                crate::laws::entries::body_at(records[i]) + 88,
                k,
            ),
    ensures
        crate::files::file_content(volume, cnid) matches Some(content) && {
            let body = crate::laws::entries::body_at(records[i]);
            let logical = crate::laws::layout::num64(records[i], body + 88);
            let all = slots_bytes(
                volume,
                crate::laws::layout::num32(volume, 1064),
                records[i],
                body + 88,
                0,
            );
            is_cut(content, all, logical)
        },
{
    let rec = records[i];
    let body = crate::laws::entries::body_at(rec);
    let at = body + 88;
    let first = law_first_forks_exact(records, cnid);
    assert(first == i) by {
        if first < i {
            assert(!is_file_of(records[first], cnid));
        }
        if i < first {
            assert(!is_file_of(records[i], cnid));
        }
    }
    crate::laws::layout::law_tree_locations(volume);
    law_integers(rec, 0);
    let (data, resource) = crate::files::first_forks(records, cnid)->0;
    assert(crate::forks::file_forks_model(rec, cnid) == Some((data, resource)));
    let fork = rec.skip(at);
    lemma_slots_joined(volume, loc.block_size, fork, rec, at, 0);
    lemma_used_extents(fork, 0);
    law_content_whole(volume, loc.block_size, data);
}

/// What is read as a file's contents: without the mark of a compressed file its
/// data fork, with it what the mark and the resource fork, if that has a logical
/// size, decode to. The forks are those of its first file record.
pub proof fn law_file_content_exact(
    volume: Seq<u8>,
    loc: crate::btree::CatalogLoc,
    records: Seq<Seq<u8>>,
    cnid: u32,
)
    requires
        crate::btree::catalog_loc(volume) == Some(loc),
        records == crate::btree::leaf_records(volume, loc),
    ensures
        match crate::files::first_forks(records, cnid) {
            None => crate::files::file_content(volume, cnid) is None,
            Some((data, resource)) => match crate::attributes::decmpfs_attribute(volume, cnid) {
                None => crate::files::file_content(volume, cnid) == crate::forks::fork_content(
                    volume,
                    loc.block_size,
                    data,
                ),
                Some(xattr) => {
                    let fork = if resource.logical == 0 {
                        None
                    } else {
                        crate::forks::fork_content(volume, loc.block_size, resource)
                    };
                    match crate::compression::file_result(xattr, fork) {
                        Ok(bytes) => crate::files::file_content(volume, cnid) == Some(bytes),
                        Err(_) => crate::files::file_content(volume, cnid) is None,
                    }
                },
            },
        },
{
}

} // verus!
