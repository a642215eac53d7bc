//! The store as a whole: the sector index together with the blob, seen as a
//! sequence of bytes, and what holds of it across writes, flushes and reopens.
use crate::endian::{le_bytes, le_u32, lemma_le_round_trip};
use crate::layer::{fresh_offsets, meta_decoding, meta_encoding, NO_VALUE};
use vstd::prelude::*;

verus! {

/// The content of a sector that was never written.
pub open spec fn zero_sector() -> Seq<u8> {
    Seq::new(512, |i: int| 0u8)
}

/// What a read of sector `s` yields, given the offset table and the blob.
pub open spec fn sector_content(offsets: Seq<u32>, blob: Seq<u8>, s: int) -> Seq<u8> {
    if offsets[s] == NO_VALUE {
        zero_sector()
    } else {
        blob.subrange(offsets[s] as int, offsets[s] + 512)
    }
}

/// Every written sector has its 512 bytes inside the blob.
pub open spec fn backed(offsets: Seq<u32>, blob: Seq<u8>) -> bool {
    forall|i: int|
        0 <= i < offsets.len() && #[trigger] offsets[i] != NO_VALUE ==> offsets[i] + 512
            <= blob.len()
}

/// The blob after `data` is written at `at`, extending it where the write runs
/// past its end.
pub open spec fn blob_after_write(blob: Seq<u8>, at: int, data: Seq<u8>) -> Seq<u8> {
    if at + data.len() <= blob.len() {
        blob.subrange(0, at) + data + blob.subrange(at + data.len(), blob.len() as int)
    } else {
        blob.subrange(0, at) + data
    }
}

/// Where a write of sector `s` goes when the blob ends at `end`: its recorded
/// place, or the end for a sector never written.
pub open spec fn write_offset(offsets: Seq<u32>, s: int, end: int) -> int {
    if offsets[s] == NO_VALUE {
        end
    } else {
        offsets[s] as int
    }
}

/// The offset table after a write of sector `s` when the blob ends at `end`.
pub open spec fn offsets_after_write(offsets: Seq<u32>, s: int, end: int) -> Seq<u32> {
    if offsets[s] == NO_VALUE {
        offsets.update(s, end as u32)
    } else {
        offsets
    }
}

/// Offset table and blob after `data` is written to sector `s`.
pub open spec fn store_write(offsets: Seq<u32>, blob: Seq<u8>, s: int, data: Seq<u8>) -> (Seq<
    u32,
>, Seq<u8>) {
    (
        offsets_after_write(offsets, s, blob.len() as int),
        blob_after_write(blob, write_offset(offsets, s, blob.len() as int), data),
    )
}

/// Offset table and blob after each `(sector, data)` of `writes`, in order.
pub open spec fn replay(offsets: Seq<u32>, blob: Seq<u8>, writes: Seq<(int, Seq<u8>)>) -> (Seq<
    u32,
>, Seq<u8>)
    decreases writes.len(),
{
    if writes.len() == 0 {
        (offsets, blob)
    } else {
        let (o, b) = replay(offsets, blob, writes.drop_last());
        store_write(o, b, writes.last().0, writes.last().1)
    }
}

/// Every sector of a fresh store reads as zeros, whatever the blob holds.
pub proof fn law_fresh_sector_is_zero(n: nat, blob: Seq<u8>, s: int)
    requires
        0 <= s < n,
    ensures
        sector_content(fresh_offsets(n), blob, s) == zero_sector(),
{
}

/// A sector written with `data` reads back as `data`, and every written
/// sector stays backed by the blob.
pub proof fn law_write_then_read(offsets: Seq<u32>, blob: Seq<u8>, s: int, data: Seq<u8>)
    requires
        0 <= s < offsets.len(),
        data.len() == 512,
        backed(offsets, blob),
        offsets[s] == NO_VALUE ==> blob.len() < NO_VALUE,
    ensures
        sector_content(store_write(offsets, blob, s, data).0, store_write(offsets, blob, s, data).1, s)
            == data,
        backed(store_write(offsets, blob, s, data).0, store_write(offsets, blob, s, data).1),
{
    let (o, b) = store_write(offsets, blob, s, data);
    let at = write_offset(offsets, s, blob.len() as int);
    assert(at + 512 <= b.len());
    assert(o[s] as int == at);
    assert(b.subrange(at, at + 512) =~= data);
    assert forall|i: int| 0 <= i < o.len() && #[trigger] o[i] != NO_VALUE implies o[i] + 512
        <= b.len() by {
        if i != s {
            assert(offsets[i] == o[i]);
        }
    }
}

/// Written sectors are backed by the blob and no two of them overlap.
pub open spec fn separated(offsets: Seq<u32>, blob: Seq<u8>) -> bool {
    &&& backed(offsets, blob)
    &&& forall|i: int, j: int|
        0 <= i < offsets.len() && 0 <= j < offsets.len() && i != j && #[trigger] offsets[i]
            != NO_VALUE && #[trigger] offsets[j] != NO_VALUE ==> offsets[i] + 512 <= offsets[j]
            || offsets[j] + 512 <= offsets[i]
}

/// A write of sector `s` leaves every other sector as it was, and keeps the
/// written sectors apart.
pub proof fn law_write_leaves_others(
    offsets: Seq<u32>,
    blob: Seq<u8>,
    s: int,
    data: Seq<u8>,
    t: int,
)
    requires
        0 <= s < offsets.len(),
        0 <= t < offsets.len(),
        s != t,
        data.len() == 512,
        separated(offsets, blob),
        offsets[s] == NO_VALUE ==> blob.len() < NO_VALUE,
    ensures
        sector_content(store_write(offsets, blob, s, data).0, store_write(offsets, blob, s, data).1, t)
            == sector_content(offsets, blob, t),
        separated(store_write(offsets, blob, s, data).0, store_write(offsets, blob, s, data).1),
{
    law_write_then_read(offsets, blob, s, data);
    let (o, b) = store_write(offsets, blob, s, data);
    let at = write_offset(offsets, s, blob.len() as int);
    assert(o[t] == offsets[t]);
    assert(b.len() >= blob.len());
    assert forall|k: int| 0 <= k < blob.len() && (k < at || at + 512 <= k) implies b[k]
        == blob[k] by {}
    if offsets[t] != NO_VALUE {
        let ot = offsets[t] as int;
        assert(ot + 512 <= at || at + 512 <= ot);
        assert(b.subrange(ot, ot + 512) =~= blob.subrange(ot, ot + 512));
    }
    assert forall|i: int, j: int|
        0 <= i < o.len() && 0 <= j < o.len() && i != j && #[trigger] o[i] != NO_VALUE
            && #[trigger] o[j] != NO_VALUE implies o[i] + 512 <= o[j] || o[j] + 512 <= o[i] by {
        if i != s && j != s {
            assert(o[i] == offsets[i] && o[j] == offsets[j]);
        } else if i == s {
            assert(o[j] == offsets[j]);
        } else {
            assert(o[i] == offsets[i]);
        }
    }
}

/// A second write of a sector keeps the place of the first and replaces its
/// content.
pub proof fn law_rewrite_in_place(
    offsets: Seq<u32>,
    blob: Seq<u8>,
    s: int,
    first: Seq<u8>,
    second: Seq<u8>,
)
    requires
        0 <= s < offsets.len(),
        first.len() == 512,
        second.len() == 512,
        backed(offsets, blob),
        offsets[s] == NO_VALUE ==> blob.len() < NO_VALUE,
    ensures
        ({
            let (o1, b1) = store_write(offsets, blob, s, first);
            let (o2, b2) = store_write(o1, b1, s, second);
            o2 == o1 && o1[s] != NO_VALUE && sector_content(o2, b2, s) == second
        }),
{
    law_write_then_read(offsets, blob, s, first);
    let (o1, b1) = store_write(offsets, blob, s, first);
    law_write_then_read(o1, b1, s, second);
}

/// Reading back the meta file of an offset table gives the table.
pub proof fn law_meta_round_trip(offsets: Seq<u32>)
    ensures
        meta_decoding(meta_encoding(offsets), offsets.len()) == offsets,
        meta_encoding(offsets).len() == 4 * offsets.len(),
{
    let enc = meta_encoding(offsets);
    assert forall|i: int| 0 <= i < offsets.len() implies #[trigger] meta_decoding(
        enc,
        offsets.len(),
    )[i] == offsets[i] by {
        lemma_le_round_trip(offsets[i]);
        assert forall|k: int| 0 <= k < 4 implies enc.subrange(4 * i, 4 * i + 4)[k] == le_bytes(
            offsets[i],
        )[k] by {
            assert((4 * i + k) / 4 == i);
            assert((4 * i + k) % 4 == k);
        }
        assert(enc.subrange(4 * i, 4 * i + 4) =~= le_bytes(offsets[i]));
    }
    assert(meta_decoding(enc, offsets.len()) =~= offsets);
}

/// A sector written and then flushed reads back after the store is reopened
/// from its meta file over the same blob.
pub proof fn law_reopen_after_flush(offsets: Seq<u32>, blob: Seq<u8>, s: int, data: Seq<u8>)
    requires
        0 <= s < offsets.len(),
        data.len() == 512,
        backed(offsets, blob),
        offsets[s] == NO_VALUE ==> blob.len() < NO_VALUE,
    ensures
        ({
            let (o, b) = store_write(offsets, blob, s, data);
            sector_content(meta_decoding(meta_encoding(o), o.len()), b, s) == data
        }),
{
    law_write_then_read(offsets, blob, s, data);
    law_meta_round_trip(store_write(offsets, blob, s, data).0);
}

proof fn lemma_replay_fresh(n: nat, writes: Seq<(int, Seq<u8>)>)
    requires
        forall|i: int| 0 <= i < writes.len() ==> 0 <= #[trigger] writes[i].0 < n,
        forall|i: int| 0 <= i < writes.len() ==> (#[trigger] writes[i].1).len() == 512,
        forall|i: int, j: int| 0 <= i < j < writes.len() ==> writes[i].0 != writes[j].0,
        writes.len() * 512 <= NO_VALUE,
    ensures
        ({
            let (o, b) = replay(fresh_offsets(n), Seq::empty(), writes);
            &&& o.len() == n
            &&& b.len() == writes.len() * 512
            &&& forall|i: int| 0 <= i < writes.len() ==> o[#[trigger] writes[i].0] == i * 512
            &&& forall|t: int|
                0 <= t < n && (forall|i: int| 0 <= i < writes.len() ==> #[trigger] writes[i].0
                    != t) ==> o[t] == NO_VALUE
        }),
    decreases writes.len(),
{
    if writes.len() > 0 {
        let prefix = writes.drop_last();
        let k = writes.len() - 1;
        lemma_replay_fresh(n, prefix);
        let (o, b) = replay(fresh_offsets(n), Seq::empty(), prefix);
        let s = writes[k].0;
        assert forall|i: int| 0 <= i < prefix.len() implies #[trigger] prefix[i].0 != s by {
            assert(prefix[i] == writes[i]);
        }
        assert(o[s] == NO_VALUE);
        assert(writes.last() == writes[k]);
        let (o2, b2) = replay(fresh_offsets(n), Seq::empty(), writes);
        assert(o2 == o.update(s, (k * 512) as u32));
        assert(b2 == b.subrange(0, b.len() as int) + writes[k].1);
        assert forall|i: int| 0 <= i < writes.len() implies o2[#[trigger] writes[i].0] == i
            * 512 by {
            if i < k {
                assert(prefix[i] == writes[i]);
            }
        }
        assert forall|t: int|
            0 <= t < n && (forall|i: int| 0 <= i < writes.len() ==> #[trigger] writes[i].0 != t)
                implies o2[t] == NO_VALUE by {
            assert(writes[k].0 != t);
            assert forall|i: int| 0 <= i < prefix.len() implies #[trigger] prefix[i].0 != t by {
                assert(prefix[i] == writes[i]);
            }
        }
    }
}

/// On a fresh store over an empty blob, the i-th distinct sector written is
/// placed at byte `i * 512`.
pub proof fn law_fresh_offsets_follow_write_order(n: nat, writes: Seq<(int, Seq<u8>)>)
    requires
        forall|i: int| 0 <= i < writes.len() ==> 0 <= #[trigger] writes[i].0 < n,
        forall|i: int| 0 <= i < writes.len() ==> (#[trigger] writes[i].1).len() == 512,
        forall|i: int, j: int| 0 <= i < j < writes.len() ==> writes[i].0 != writes[j].0,
        writes.len() * 512 <= NO_VALUE,
    ensures
        forall|i: int|
            0 <= i < writes.len() ==> replay(fresh_offsets(n), Seq::empty(), writes).0[
            #[trigger] writes[i].0] == i * 512,
{
    lemma_replay_fresh(n, writes);
}


/// Every written sector, and the end of the blob, sit on a sector boundary.
pub open spec fn aligned(offsets: Seq<u32>, blob: Seq<u8>) -> bool {
    &&& blob.len() % 512 == 0
    &&& forall|i: int| 0 <= i < offsets.len() && #[trigger] offsets[i] != NO_VALUE ==> offsets[i]
        % 512 == 0
}

/// Writing a sector keeps offsets and the blob's length multiples of 512.
pub proof fn law_write_keeps_alignment(offsets: Seq<u32>, blob: Seq<u8>, s: int, data: Seq<u8>)
    requires
        0 <= s < offsets.len(),
        data.len() == 512,
        backed(offsets, blob),
        aligned(offsets, blob),
        offsets[s] == NO_VALUE ==> blob.len() < NO_VALUE,
    ensures
        aligned(store_write(offsets, blob, s, data).0, store_write(offsets, blob, s, data).1),
{
    let (o, b) = store_write(offsets, blob, s, data);
    assert forall|i: int| 0 <= i < o.len() && #[trigger] o[i] != NO_VALUE implies o[i] % 512
        == 0 by {
        if i != s {
            assert(o[i] == offsets[i]);
        }
    }
}

/// Sector numbers written by a sequence of writes.
pub open spec fn written_sectors(writes: Seq<(int, Seq<u8>)>) -> Set<int> {
    Set::new(|t: int| exists|i: int| 0 <= i < writes.len() && #[trigger] writes[i].0 == t)
}

proof fn lemma_replay_keeps_unwritten(
    offsets: Seq<u32>,
    blob: Seq<u8>,
    writes: Seq<(int, Seq<u8>)>,
    t: int,
)
    requires
        separated(offsets, blob),
        0 <= t < offsets.len(),
        !written_sectors(writes).contains(t),
        forall|i: int| 0 <= i < writes.len() ==> 0 <= #[trigger] writes[i].0 < offsets.len(),
        forall|i: int| 0 <= i < writes.len() ==> (#[trigger] writes[i].1).len() == 512,
        blob.len() + writes.len() * 512 < NO_VALUE,
    ensures
        ({
            let (o, b) = replay(offsets, blob, writes);
            &&& separated(o, b)
            &&& o.len() == offsets.len()
            &&& b.len() <= blob.len() + writes.len() * 512
            &&& o[t] == offsets[t]
            &&& sector_content(o, b, t) == sector_content(offsets, blob, t)
        }),
    decreases writes.len(),
{
    if writes.len() > 0 {
        let prefix = writes.drop_last();
        let k = writes.len() - 1;
        assert forall|i: int| 0 <= i < prefix.len() implies 0 <= #[trigger] prefix[i].0
            < offsets.len() && prefix[i].1.len() == 512 by {
            assert(prefix[i] == writes[i]);
        }
        assert(!written_sectors(prefix).contains(t)) by {
            if written_sectors(prefix).contains(t) {
                let i = choose|i: int| 0 <= i < prefix.len() && #[trigger] prefix[i].0 == t;
                assert(writes[i] == prefix[i]);
            }
        }
        lemma_replay_keeps_unwritten(offsets, blob, prefix, t);
        let (o, b) = replay(offsets, blob, prefix);
        let w = writes[k];
        assert(writes.last() == w);
        assert(w.0 != t) by {
            if w.0 == t {
                assert(written_sectors(writes).contains(t));
            }
        }
        law_write_leaves_others(o, b, w.0, w.1, t);
        let (o2, b2) = store_write(o, b, w.0, w.1);
        assert(o2[t] == o[t]);
        assert(b2.len() <= b.len() + 512);
    }
}

/// Reopening from the meta file written by a flush recovers exactly the
/// offset table of that moment, whatever was written afterwards; every sector
/// not written since then reads as it did at the flush.
pub proof fn law_reopen_recovers_flushed_state(
    flushed: Seq<u32>,
    blob: Seq<u8>,
    later: Seq<(int, Seq<u8>)>,
    t: int,
)
    requires
        separated(flushed, blob),
        0 <= t < flushed.len(),
        !written_sectors(later).contains(t),
        forall|i: int| 0 <= i < later.len() ==> 0 <= #[trigger] later[i].0 < flushed.len(),
        forall|i: int| 0 <= i < later.len() ==> (#[trigger] later[i].1).len() == 512,
        blob.len() + later.len() * 512 < NO_VALUE,
    ensures
        meta_decoding(meta_encoding(flushed), flushed.len()) == flushed,
        sector_content(
            meta_decoding(meta_encoding(flushed), flushed.len()),
            replay(flushed, blob, later).1,
            t,
        ) == sector_content(flushed, blob, t),
{
    law_meta_round_trip(flushed);
    lemma_replay_keeps_unwritten(flushed, blob, later, t);
}

} // verus!
