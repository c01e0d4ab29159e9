//! The snapshot: the state a node bootstraps from, together with its framed
//! binary encoding. A snapshot carries a header, the solid entry points,
//! the outputs (full snapshots only) and the milestone diffs; the counts in
//! the frame must agree with the header's milestone indexes.

use vstd::prelude::*;
use vstd::bytes::{
    lemma_auto_spec_u32_to_from_le_bytes, lemma_auto_spec_u64_to_from_le_bytes,
    spec_u32_to_le_bytes, spec_u64_to_le_bytes, u32_from_le_bytes, u32_to_le_bytes,
    u64_from_le_bytes, u64_to_le_bytes,
};
use vstd::slice::slice_subrange;
use crate::message::{MessageId, MilestoneIndex, SolidEntryPoint};

verus! {

/// Whether a snapshot carries the whole ledger state or only a delta on
/// top of an earlier full snapshot.
#[derive(Clone, Copy, PartialEq, Eq, Structural, Debug)]
pub enum Kind {
    Full,
    Delta,
}

/// The fixed-size front of a snapshot frame.
#[derive(Clone, Copy, PartialEq, Eq, Structural, Debug)]
pub struct SnapshotHeader {
    pub kind: Kind,
    pub timestamp: u64,
    pub network_id: u64,
    pub sep_index: MilestoneIndex,
    pub ledger_index: MilestoneIndex,
}

/// One ledger output carried by a full snapshot; the cache does not
/// interpret it, so it travels as a length-prefixed payload.
#[derive(Clone, PartialEq, Eq, Debug)]
pub struct Output {
    pub bytes: Vec<u8>,
}

/// One milestone's ledger diff; opaque to the cache, length-prefixed on
/// the wire.
#[derive(Clone, PartialEq, Eq, Debug)]
pub struct MilestoneDiff {
    pub bytes: Vec<u8>,
}

/// What can go wrong decoding a snapshot frame.
#[derive(Clone, Copy, PartialEq, Eq, Structural, Debug)]
pub enum SnapshotError {
    /// The input ended before the frame was complete.
    UnexpectedEof,
    /// The kind byte holds neither the full nor the delta marker.
    InvalidKind(u8),
    /// The ledger and solid-entry-point indexes are ordered the wrong way
    /// for the snapshot's kind.
    LedgerSepIndexesInconsistency(MilestoneIndex, MilestoneIndex),
    /// The milestone-diff count does not match the index difference the
    /// header promises.
    InvalidMilestoneDiffsCount(u64, u64),
}

/// A decoded snapshot.
pub struct Snapshot {
    pub header: SnapshotHeader,
    pub solid_entry_points: Vec<SolidEntryPoint>,
    pub outputs: Vec<Output>,
    pub milestone_diffs: Vec<(MilestoneIndex, MilestoneDiff)>,
}

/// The marker byte of a snapshot kind.
pub open spec fn kind_byte(k: Kind) -> u8 {
    match k {
        Kind::Full => 0,
        Kind::Delta => 1,
    }
}

/// A message identifier on the wire: its four words, little-endian, in
/// order.
pub open spec fn id_bytes(id: MessageId) -> Seq<u8> {
    spec_u64_to_le_bytes(id.w0) + spec_u64_to_le_bytes(id.w1) + spec_u64_to_le_bytes(id.w2)
        + spec_u64_to_le_bytes(id.w3)
}

/// The header on the wire: the kind byte, then timestamp, network id and
/// the two milestone indexes, all little-endian.
pub open spec fn header_bytes(h: SnapshotHeader) -> Seq<u8> {
    seq![kind_byte(h.kind)] + spec_u64_to_le_bytes(h.timestamp) + spec_u64_to_le_bytes(
        h.network_id,
    ) + spec_u32_to_le_bytes(h.sep_index.0) + spec_u32_to_le_bytes(h.ledger_index.0)
}

/// The solid entry points on the wire, in order.
pub open spec fn seps_bytes(s: Seq<SolidEntryPoint>) -> Seq<u8>
    decreases s.len(),
{
    if s.len() == 0 {
        Seq::empty()
    } else {
        id_bytes(s[0].0) + seps_bytes(s.skip(1))
    }
}

/// An opaque payload on the wire: its length as a little-endian 64-bit
/// count, then its bytes.
pub open spec fn blob_bytes(b: Seq<u8>) -> Seq<u8> {
    spec_u64_to_le_bytes(b.len() as u64) + b
}

/// The outputs on the wire, in order.
pub open spec fn outputs_bytes(s: Seq<Output>) -> Seq<u8>
    decreases s.len(),
{
    if s.len() == 0 {
        Seq::empty()
    } else {
        blob_bytes(s[0].bytes@) + outputs_bytes(s.skip(1))
    }
}

/// The milestone diffs on the wire, in order: each diff's milestone index,
/// then its payload.
pub open spec fn diffs_bytes(s: Seq<(MilestoneIndex, MilestoneDiff)>) -> Seq<u8>
    decreases s.len(),
{
    if s.len() == 0 {
        Seq::empty()
    } else {
        let head = s[0];
        spec_u32_to_le_bytes(head.0.0) + blob_bytes(head.1.bytes@) + diffs_bytes(s.skip(1))
    }
}

/// The count block of the frame: the solid-entry-point count, the output
/// count (full snapshots only), and the milestone-diff count.
pub open spec fn counts_bytes(s: Snapshot) -> Seq<u8> {
    spec_u64_to_le_bytes(s.solid_entry_points@.len() as u64) + (if s.header.kind == Kind::Full {
        spec_u64_to_le_bytes(s.outputs@.len() as u64)
    } else {
        Seq::empty()
    }) + spec_u64_to_le_bytes(s.milestone_diffs@.len() as u64)
}

/// The whole snapshot frame on the wire.
pub open spec fn snapshot_bytes(s: Snapshot) -> Seq<u8> {
    header_bytes(s.header) + counts_bytes(s) + seps_bytes(s.solid_entry_points@) + (if s.header.kind
        == Kind::Full {
        outputs_bytes(s.outputs@)
    } else {
        Seq::empty()
    }) + diffs_bytes(s.milestone_diffs@)
}

/// The solid-entry-point index a frame's header carries.
pub open spec fn frame_sep_index(bytes: Seq<u8>) -> u32 {
    vstd::bytes::spec_u32_from_le_bytes(bytes.subrange(17, 21))
}

/// The ledger index a frame's header carries.
pub open spec fn frame_ledger_index(bytes: Seq<u8>) -> u32 {
    vstd::bytes::spec_u32_from_le_bytes(bytes.subrange(21, 25))
}

/// The milestone-diff count a frame carries; it sits after the header, the
/// solid-entry-point count and, in a full frame, the output count.
pub open spec fn frame_diff_count(bytes: Seq<u8>) -> u64 {
    if bytes[0] == 0 {
        vstd::bytes::spec_u64_from_le_bytes(bytes.subrange(41, 49))
    } else {
        vstd::bytes::spec_u64_from_le_bytes(bytes.subrange(33, 41))
    }
}

/// How many bytes a frame needs before its integrity can be judged: the
/// header and all its counts.
pub open spec fn frame_counts_end(bytes: Seq<u8>) -> int {
    if bytes[0] == 0 {
        49
    } else {
        41
    }
}

/// A frame front that passed every header check: a known kind byte, all
/// counts present, the indexes ordered as the kind demands, and the
/// milestone-diff count matching their difference.
pub open spec fn frame_checks_passed(bytes: Seq<u8>) -> bool {
    &&& bytes.len() >= 25
    &&& (bytes[0] == 0 || bytes[0] == 1)
    &&& bytes.len() >= frame_counts_end(bytes)
    &&& (if bytes[0] == 0 {
        frame_ledger_index(bytes) >= frame_sep_index(bytes) && frame_ledger_index(bytes)
            - frame_sep_index(bytes) == frame_diff_count(bytes)
    } else {
        frame_sep_index(bytes) >= frame_ledger_index(bytes) && frame_sep_index(bytes)
            - frame_ledger_index(bytes) == frame_diff_count(bytes)
    })
}

/// The frame's integrity constraint: for a full snapshot the ledger index
/// is at least the solid-entry-point index and their difference counts the
/// milestone diffs; for a delta snapshot the roles are swapped.
pub open spec fn counts_consistent(s: Snapshot) -> bool {
    match s.header.kind {
        Kind::Full => s.header.ledger_index.0 >= s.header.sep_index.0
            && s.header.ledger_index.0 - s.header.sep_index.0 == s.milestone_diffs@.len(),
        Kind::Delta => s.header.sep_index.0 >= s.header.ledger_index.0
            && s.header.sep_index.0 - s.header.ledger_index.0 == s.milestone_diffs@.len(),
    }
}

/// A sequence is the front of another.
pub open spec fn is_prefix_of(shorter: Seq<u8>, longer: Seq<u8>) -> bool {
    shorter.len() <= longer.len() && shorter == longer.subrange(0, shorter.len() as int)
}

/// A length-prefixed payload of `l0` bytes opens at `pos`: its 64-bit
/// length field is there and the whole payload lies within `bytes`.
spec fn next_blob_fits(bytes: Seq<u8>, l0: int, pos: int) -> bool {
    &&& 0 <= l0 <= u64::MAX
    &&& pos + 8 + l0 <= bytes.len()
    &&& spec_u64_to_le_bytes(l0 as u64) == bytes.subrange(pos, pos + 8)
}

/// A milestone-diff entry with an `l0`-byte payload opens at `pos`: its
/// length field follows the 4-byte index and the whole entry lies within
/// `bytes`.
spec fn next_diff_fits(bytes: Seq<u8>, l0: int, pos: int) -> bool {
    &&& 0 <= l0 <= u64::MAX
    &&& pos + 12 + l0 <= bytes.len()
    &&& spec_u64_to_le_bytes(l0 as u64) == bytes.subrange(pos + 4, pos + 12)
}

/// The snapshot `s` is a well-sized, count-consistent frame sitting at the
/// front of `bytes`.
pub open spec fn valid_frame_at(s: Snapshot, bytes: Seq<u8>) -> bool {
    &&& frame_sizes_fit(s)
    &&& counts_consistent(s)
    &&& is_prefix_of(snapshot_bytes(s), bytes)
}

/// Some well-sized, count-consistent frame sits at the front of `bytes`.
pub open spec fn holds_valid_frame(bytes: Seq<u8>) -> bool {
    exists|s: Snapshot| valid_frame_at(s, bytes)
}

/// The length of a frame's count block, by its kind.
pub open spec fn counts_len_of(k: Kind) -> int {
    if k == Kind::Full {
        24
    } else {
        16
    }
}

/// The entry points occupy exactly 32 bytes each on the wire.
proof fn lemma_seps_bytes_total_len(s: Seq<SolidEntryPoint>)
    ensures
        seps_bytes(s).len() == 32 * s.len(),
    decreases s.len(),
{
    if s.len() > 0 {
        lemma_id_bytes_len(s[0].0);
        lemma_seps_bytes_total_len(s.skip(1));
    }
}

/// Each output occupies at least its 8-byte length prefix on the wire.
proof fn lemma_outputs_bytes_min_len(s: Seq<Output>)
    ensures
        outputs_bytes(s).len() >= 8 * s.len(),
    decreases s.len(),
{
    if s.len() > 0 {
        lemma_auto_spec_u64_to_from_le_bytes();
        assert(spec_u64_to_le_bytes(s[0].bytes@.len() as u64).len() == 8);
        lemma_outputs_bytes_min_len(s.skip(1));
    }
}

/// Each milestone diff occupies at least its 12-byte front on the wire.
proof fn lemma_diffs_bytes_min_len(s: Seq<(MilestoneIndex, MilestoneDiff)>)
    ensures
        diffs_bytes(s).len() >= 12 * s.len(),
    decreases s.len(),
{
    if s.len() > 0 {
        lemma_auto_spec_u64_to_from_le_bytes();
        lemma_auto_spec_u32_to_from_le_bytes();
        assert(spec_u32_to_le_bytes(s[0].0.0).len() == 4);
        assert(spec_u64_to_le_bytes(s[0].1.bytes@.len() as u64).len() == 8);
        lemma_diffs_bytes_min_len(s.skip(1));
    }
}

/// An identifier occupies 32 bytes on the wire.
proof fn lemma_id_bytes_len(id: MessageId)
    ensures
        id_bytes(id).len() == 32,
{
    lemma_auto_spec_u64_to_from_le_bytes();
    assert(spec_u64_to_le_bytes(id.w0).len() == 8);
    assert(spec_u64_to_le_bytes(id.w1).len() == 8);
    assert(spec_u64_to_le_bytes(id.w2).len() == 8);
    assert(spec_u64_to_le_bytes(id.w3).len() == 8);
}

/// The wire form determines the identifier.
proof fn lemma_id_bytes_inj(x: MessageId, y: MessageId)
    requires
        id_bytes(x) == id_bytes(y),
    ensures
        x == y,
{
    lemma_auto_spec_u64_to_from_le_bytes();
    assert(spec_u64_to_le_bytes(x.w0).len() == 8);
    assert(spec_u64_to_le_bytes(x.w1).len() == 8);
    assert(spec_u64_to_le_bytes(x.w2).len() == 8);
    assert(spec_u64_to_le_bytes(x.w3).len() == 8);
    assert(spec_u64_to_le_bytes(y.w0).len() == 8);
    assert(spec_u64_to_le_bytes(y.w1).len() == 8);
    assert(spec_u64_to_le_bytes(y.w2).len() == 8);
    assert(spec_u64_to_le_bytes(y.w3).len() == 8);
    assert(spec_u64_to_le_bytes(x.w0) =~= id_bytes(x).subrange(0, 8));
    assert(spec_u64_to_le_bytes(x.w1) =~= id_bytes(x).subrange(8, 16));
    assert(spec_u64_to_le_bytes(x.w2) =~= id_bytes(x).subrange(16, 24));
    assert(spec_u64_to_le_bytes(x.w3) =~= id_bytes(x).subrange(24, 32));
    assert(spec_u64_to_le_bytes(y.w0) =~= id_bytes(y).subrange(0, 8));
    assert(spec_u64_to_le_bytes(y.w1) =~= id_bytes(y).subrange(8, 16));
    assert(spec_u64_to_le_bytes(y.w2) =~= id_bytes(y).subrange(16, 24));
    assert(spec_u64_to_le_bytes(y.w3) =~= id_bytes(y).subrange(24, 32));
}

/// Two equally long entry-point lists whose wire forms open the same
/// stream are the same list.
proof fn lemma_seps_prefix_inj(s1: Seq<SolidEntryPoint>, s2: Seq<SolidEntryPoint>, z: Seq<u8>)
    requires
        s1.len() == s2.len(),
        is_prefix_of(seps_bytes(s1), z),
        is_prefix_of(seps_bytes(s2), z),
    ensures
        s1 == s2,
    decreases s1.len(),
{
    if s1.len() > 0 {
        lemma_id_bytes_len(s1[0].0);
        lemma_id_bytes_len(s2[0].0);
        assert(id_bytes(s1[0].0) =~= seps_bytes(s1).subrange(0, 32));
        assert(id_bytes(s2[0].0) =~= seps_bytes(s2).subrange(0, 32));
        assert(id_bytes(s1[0].0) =~= z.subrange(0, 32));
        assert(id_bytes(s2[0].0) =~= z.subrange(0, 32));
        lemma_id_bytes_inj(s1[0].0, s2[0].0);
        assert(seps_bytes(s1.skip(1)) =~= seps_bytes(s1).subrange(32, seps_bytes(s1).len() as int));
        assert(seps_bytes(s2.skip(1)) =~= seps_bytes(s2).subrange(32, seps_bytes(s2).len() as int));
        assert(is_prefix_of(seps_bytes(s1.skip(1)), z.skip(32))) by {
            assert(seps_bytes(s1.skip(1)) =~= z.skip(32).subrange(
                0,
                seps_bytes(s1.skip(1)).len() as int,
            ));
        }
        assert(is_prefix_of(seps_bytes(s2.skip(1)), z.skip(32))) by {
            assert(seps_bytes(s2.skip(1)) =~= z.skip(32).subrange(
                0,
                seps_bytes(s2.skip(1)).len() as int,
            ));
        }
        lemma_seps_prefix_inj(s1.skip(1), s2.skip(1), z.skip(32));
        assert forall|i: int| 0 <= i < s1.len() implies s1[i] == s2[i] by {
            if i > 0 {
                assert(s1.skip(1)[i - 1] == s2.skip(1)[i - 1]);
                assert(s1[i] == s1.skip(1)[i - 1]);
                assert(s2[i] == s2.skip(1)[i - 1]);
            }
        }
        assert(s1 =~= s2);
    } else {
        assert(s1 =~= s2);
    }
}

/// Two equally long output lists whose wire forms open the same stream
/// carry the same payloads.
proof fn lemma_outputs_prefix_inj(s1: Seq<Output>, s2: Seq<Output>, z: Seq<u8>)
    requires
        s1.len() == s2.len(),
        forall|i: int| 0 <= i < s1.len() ==> (#[trigger] s1[i]).bytes@.len() <= u64::MAX,
        forall|i: int| 0 <= i < s2.len() ==> (#[trigger] s2[i]).bytes@.len() <= u64::MAX,
        is_prefix_of(outputs_bytes(s1), z),
        is_prefix_of(outputs_bytes(s2), z),
    ensures
        outputs_bytes(s1) == outputs_bytes(s2),
        forall|i: int| 0 <= i < s1.len() ==> (#[trigger] s1[i]).bytes@ == s2[i].bytes@,
    decreases s1.len(),
{
    if s1.len() > 0 {
        lemma_auto_spec_u64_to_from_le_bytes();
        let b1 = s1[0].bytes@;
        let b2 = s2[0].bytes@;
        assert(spec_u64_to_le_bytes(b1.len() as u64).len() == 8);
        assert(spec_u64_to_le_bytes(b2.len() as u64).len() == 8);
        assert(spec_u64_to_le_bytes(b1.len() as u64) =~= z.subrange(0, 8)) by {
            assert(spec_u64_to_le_bytes(b1.len() as u64) =~= outputs_bytes(s1).subrange(0, 8));
        }
        assert(spec_u64_to_le_bytes(b2.len() as u64) =~= z.subrange(0, 8)) by {
            assert(spec_u64_to_le_bytes(b2.len() as u64) =~= outputs_bytes(s2).subrange(0, 8));
        }
        assert(b1.len() as u64 == b2.len() as u64);
        assert(b1.len() == b2.len());
        let l = b1.len() as int;
        assert(b1 =~= z.subrange(8, 8 + l)) by {
            assert(b1 =~= outputs_bytes(s1).subrange(8, 8 + l));
        }
        assert(b2 =~= z.subrange(8, 8 + l)) by {
            assert(b2 =~= outputs_bytes(s2).subrange(8, 8 + l));
        }
        assert(outputs_bytes(s1.skip(1)) =~= outputs_bytes(s1).subrange(
            8 + l,
            outputs_bytes(s1).len() as int,
        ));
        assert(outputs_bytes(s2.skip(1)) =~= outputs_bytes(s2).subrange(
            8 + l,
            outputs_bytes(s2).len() as int,
        ));
        assert(is_prefix_of(outputs_bytes(s1.skip(1)), z.skip(8 + l))) by {
            assert(outputs_bytes(s1.skip(1)) =~= z.skip(8 + l).subrange(
                0,
                outputs_bytes(s1.skip(1)).len() as int,
            ));
        }
        assert(is_prefix_of(outputs_bytes(s2.skip(1)), z.skip(8 + l))) by {
            assert(outputs_bytes(s2.skip(1)) =~= z.skip(8 + l).subrange(
                0,
                outputs_bytes(s2.skip(1)).len() as int,
            ));
        }
        lemma_outputs_prefix_inj(s1.skip(1), s2.skip(1), z.skip(8 + l));
        assert forall|i: int| 0 <= i < s1.len() implies (#[trigger] s1[i]).bytes@
            == s2[i].bytes@ by {
            if i > 0 {
                assert(s1.skip(1)[i - 1].bytes@ == s2.skip(1)[i - 1].bytes@);
                assert(s1[i] == s1.skip(1)[i - 1]);
                assert(s2[i] == s2.skip(1)[i - 1]);
            }
        }
        assert(outputs_bytes(s1) =~= outputs_bytes(s2));
    } else {
        assert(outputs_bytes(s1) =~= outputs_bytes(s2));
    }
}

/// When a strictly shorter output list and a longer one both open the
/// same stream, the longer one's next blob sits right after the shorter
/// list's wire form: its length prefix is there, and the whole blob still
/// fits inside the longer wire form.
proof fn lemma_outputs_prefix_extend(s1: Seq<Output>, s2: Seq<Output>, z: Seq<u8>)
    requires
        s1.len() < s2.len(),
        forall|i: int| 0 <= i < s1.len() ==> (#[trigger] s1[i]).bytes@.len() <= u64::MAX,
        forall|i: int| 0 <= i < s2.len() ==> (#[trigger] s2[i]).bytes@.len() <= u64::MAX,
        is_prefix_of(outputs_bytes(s1), z),
        is_prefix_of(outputs_bytes(s2), z),
    ensures
        spec_u64_to_le_bytes(s2[s1.len() as int].bytes@.len() as u64) == z.subrange(
            outputs_bytes(s1).len() as int,
            outputs_bytes(s1).len() as int + 8,
        ),
        outputs_bytes(s1).len() + 8 + s2[s1.len() as int].bytes@.len() <= outputs_bytes(
            s2,
        ).len(),
    decreases s1.len(),
{
    lemma_auto_spec_u64_to_from_le_bytes();
    if s1.len() == 0 {
        let b = s2[0].bytes@;
        assert(spec_u64_to_le_bytes(b.len() as u64).len() == 8);
        assert(spec_u64_to_le_bytes(b.len() as u64) =~= z.subrange(0, 8)) by {
            assert(spec_u64_to_le_bytes(b.len() as u64) =~= outputs_bytes(s2).subrange(0, 8));
        }
        assert(outputs_bytes(s1).len() == 0);
        assert(outputs_bytes(s2).len() >= 8 + b.len());
    } else {
        let b1 = s1[0].bytes@;
        let b2 = s2[0].bytes@;
        assert(spec_u64_to_le_bytes(b1.len() as u64).len() == 8);
        assert(spec_u64_to_le_bytes(b2.len() as u64).len() == 8);
        assert(spec_u64_to_le_bytes(b1.len() as u64) =~= z.subrange(0, 8)) by {
            assert(spec_u64_to_le_bytes(b1.len() as u64) =~= outputs_bytes(s1).subrange(0, 8));
        }
        assert(spec_u64_to_le_bytes(b2.len() as u64) =~= z.subrange(0, 8)) by {
            assert(spec_u64_to_le_bytes(b2.len() as u64) =~= outputs_bytes(s2).subrange(0, 8));
        }
        assert(b1.len() as u64 == b2.len() as u64);
        assert(b1.len() == b2.len());
        let l = b1.len() as int;
        assert(outputs_bytes(s1.skip(1)) =~= outputs_bytes(s1).subrange(
            8 + l,
            outputs_bytes(s1).len() as int,
        ));
        assert(outputs_bytes(s2.skip(1)) =~= outputs_bytes(s2).subrange(
            8 + l,
            outputs_bytes(s2).len() as int,
        ));
        assert(is_prefix_of(outputs_bytes(s1.skip(1)), z.skip(8 + l))) by {
            assert(outputs_bytes(s1.skip(1)) =~= z.skip(8 + l).subrange(
                0,
                outputs_bytes(s1.skip(1)).len() as int,
            ));
        }
        assert(is_prefix_of(outputs_bytes(s2.skip(1)), z.skip(8 + l))) by {
            assert(outputs_bytes(s2.skip(1)) =~= z.skip(8 + l).subrange(
                0,
                outputs_bytes(s2.skip(1)).len() as int,
            ));
        }
        lemma_outputs_prefix_extend(s1.skip(1), s2.skip(1), z.skip(8 + l));
        assert(s2.skip(1)[s1.len() - 1] == s2[s1.len() as int]);
        let la = outputs_bytes(s1).len() as int;
        assert(outputs_bytes(s1.skip(1)).len() == la - 8 - l);
        assert(spec_u64_to_le_bytes(s2[s1.len() as int].bytes@.len() as u64) =~= z.subrange(
            la,
            la + 8,
        )) by {
            assert(spec_u64_to_le_bytes(s2[s1.len() as int].bytes@.len() as u64) =~= z.skip(
                8 + l,
            ).subrange(la - 8 - l, la - l));
        }
    }
}

/// When a strictly shorter milestone-diff list and a longer one both open
/// the same stream, the longer one's next entry sits right after the
/// shorter list's wire form: its index and length prefix are there, and
/// the whole entry still fits inside the longer wire form.
proof fn lemma_diffs_prefix_extend(
    s1: Seq<(MilestoneIndex, MilestoneDiff)>,
    s2: Seq<(MilestoneIndex, MilestoneDiff)>,
    z: Seq<u8>,
)
    requires
        s1.len() < s2.len(),
        forall|i: int| 0 <= i < s1.len() ==> (#[trigger] s1[i]).1.bytes@.len() <= u64::MAX,
        forall|i: int| 0 <= i < s2.len() ==> (#[trigger] s2[i]).1.bytes@.len() <= u64::MAX,
        is_prefix_of(diffs_bytes(s1), z),
        is_prefix_of(diffs_bytes(s2), z),
    ensures
        spec_u64_to_le_bytes(s2[s1.len() as int].1.bytes@.len() as u64) == z.subrange(
            diffs_bytes(s1).len() as int + 4,
            diffs_bytes(s1).len() as int + 12,
        ),
        diffs_bytes(s1).len() + 12 + s2[s1.len() as int].1.bytes@.len() <= diffs_bytes(s2).len(),
    decreases s1.len(),
{
    lemma_auto_spec_u64_to_from_le_bytes();
    lemma_auto_spec_u32_to_from_le_bytes();
    if s1.len() == 0 {
        let b = s2[0].1.bytes@;
        assert(spec_u32_to_le_bytes(s2[0].0.0).len() == 4);
        assert(spec_u64_to_le_bytes(b.len() as u64).len() == 8);
        assert(spec_u64_to_le_bytes(b.len() as u64) =~= z.subrange(4, 12)) by {
            assert(spec_u64_to_le_bytes(b.len() as u64) =~= diffs_bytes(s2).subrange(4, 12));
        }
        assert(diffs_bytes(s1).len() == 0);
        assert(diffs_bytes(s2).len() >= 12 + b.len());
    } else {
        let b1 = s1[0].1.bytes@;
        let b2 = s2[0].1.bytes@;
        assert(spec_u32_to_le_bytes(s1[0].0.0).len() == 4);
        assert(spec_u32_to_le_bytes(s2[0].0.0).len() == 4);
        assert(spec_u64_to_le_bytes(b1.len() as u64).len() == 8);
        assert(spec_u64_to_le_bytes(b2.len() as u64).len() == 8);
        assert(spec_u64_to_le_bytes(b1.len() as u64) =~= z.subrange(4, 12)) by {
            assert(spec_u64_to_le_bytes(b1.len() as u64) =~= diffs_bytes(s1).subrange(4, 12));
        }
        assert(spec_u64_to_le_bytes(b2.len() as u64) =~= z.subrange(4, 12)) by {
            assert(spec_u64_to_le_bytes(b2.len() as u64) =~= diffs_bytes(s2).subrange(4, 12));
        }
        assert(b1.len() as u64 == b2.len() as u64);
        assert(b1.len() == b2.len());
        let l = b1.len() as int;
        assert(diffs_bytes(s1.skip(1)) =~= diffs_bytes(s1).subrange(
            12 + l,
            diffs_bytes(s1).len() as int,
        ));
        assert(diffs_bytes(s2.skip(1)) =~= diffs_bytes(s2).subrange(
            12 + l,
            diffs_bytes(s2).len() as int,
        ));
        assert(is_prefix_of(diffs_bytes(s1.skip(1)), z.skip(12 + l))) by {
            assert(diffs_bytes(s1.skip(1)) =~= z.skip(12 + l).subrange(
                0,
                diffs_bytes(s1.skip(1)).len() as int,
            ));
        }
        assert(is_prefix_of(diffs_bytes(s2.skip(1)), z.skip(12 + l))) by {
            assert(diffs_bytes(s2.skip(1)) =~= z.skip(12 + l).subrange(
                0,
                diffs_bytes(s2.skip(1)).len() as int,
            ));
        }
        lemma_diffs_prefix_extend(s1.skip(1), s2.skip(1), z.skip(12 + l));
        assert(s2.skip(1)[s1.len() - 1] == s2[s1.len() as int]);
        let la = diffs_bytes(s1).len() as int;
        assert(diffs_bytes(s1.skip(1)).len() == la - 12 - l);
        assert(spec_u64_to_le_bytes(s2[s1.len() as int].1.bytes@.len() as u64) =~= z.subrange(
            la + 4,
            la + 12,
        )) by {
            assert(spec_u64_to_le_bytes(s2[s1.len() as int].1.bytes@.len() as u64) =~= z.skip(
                12 + l,
            ).subrange(la - 8 - l, la - l));
        }
    }
}

/// Two equally long milestone-diff lists whose wire forms open the same
/// stream carry the same indexes and payloads.
proof fn lemma_diffs_prefix_inj(
    s1: Seq<(MilestoneIndex, MilestoneDiff)>,
    s2: Seq<(MilestoneIndex, MilestoneDiff)>,
    z: Seq<u8>,
)
    requires
        s1.len() == s2.len(),
        forall|i: int| 0 <= i < s1.len() ==> (#[trigger] s1[i]).1.bytes@.len() <= u64::MAX,
        forall|i: int| 0 <= i < s2.len() ==> (#[trigger] s2[i]).1.bytes@.len() <= u64::MAX,
        is_prefix_of(diffs_bytes(s1), z),
        is_prefix_of(diffs_bytes(s2), z),
    ensures
        diffs_bytes(s1) == diffs_bytes(s2),
        forall|i: int|
            0 <= i < s1.len() ==> (#[trigger] s1[i]).0 == s2[i].0 && s1[i].1.bytes@
                == s2[i].1.bytes@,
    decreases s1.len(),
{
    if s1.len() > 0 {
        lemma_auto_spec_u64_to_from_le_bytes();
        lemma_auto_spec_u32_to_from_le_bytes();
        let b1 = s1[0].1.bytes@;
        let b2 = s2[0].1.bytes@;
        assert(spec_u32_to_le_bytes(s1[0].0.0).len() == 4);
        assert(spec_u32_to_le_bytes(s2[0].0.0).len() == 4);
        assert(spec_u64_to_le_bytes(b1.len() as u64).len() == 8);
        assert(spec_u64_to_le_bytes(b2.len() as u64).len() == 8);
        assert(spec_u32_to_le_bytes(s1[0].0.0) =~= z.subrange(0, 4)) by {
            assert(spec_u32_to_le_bytes(s1[0].0.0) =~= diffs_bytes(s1).subrange(0, 4));
        }
        assert(spec_u32_to_le_bytes(s2[0].0.0) =~= z.subrange(0, 4)) by {
            assert(spec_u32_to_le_bytes(s2[0].0.0) =~= diffs_bytes(s2).subrange(0, 4));
        }
        assert(s1[0].0 == s2[0].0);
        assert(spec_u64_to_le_bytes(b1.len() as u64) =~= z.subrange(4, 12)) by {
            assert(spec_u64_to_le_bytes(b1.len() as u64) =~= diffs_bytes(s1).subrange(4, 12));
        }
        assert(spec_u64_to_le_bytes(b2.len() as u64) =~= z.subrange(4, 12)) by {
            assert(spec_u64_to_le_bytes(b2.len() as u64) =~= diffs_bytes(s2).subrange(4, 12));
        }
        assert(b1.len() as u64 == b2.len() as u64);
        assert(b1.len() == b2.len());
        let l = b1.len() as int;
        assert(b1 =~= z.subrange(12, 12 + l)) by {
            assert(b1 =~= diffs_bytes(s1).subrange(12, 12 + l));
        }
        assert(b2 =~= z.subrange(12, 12 + l)) by {
            assert(b2 =~= diffs_bytes(s2).subrange(12, 12 + l));
        }
        assert(diffs_bytes(s1.skip(1)) =~= diffs_bytes(s1).subrange(
            12 + l,
            diffs_bytes(s1).len() as int,
        ));
        assert(diffs_bytes(s2.skip(1)) =~= diffs_bytes(s2).subrange(
            12 + l,
            diffs_bytes(s2).len() as int,
        ));
        assert(is_prefix_of(diffs_bytes(s1.skip(1)), z.skip(12 + l))) by {
            assert(diffs_bytes(s1.skip(1)) =~= z.skip(12 + l).subrange(
                0,
                diffs_bytes(s1.skip(1)).len() as int,
            ));
        }
        assert(is_prefix_of(diffs_bytes(s2.skip(1)), z.skip(12 + l))) by {
            assert(diffs_bytes(s2.skip(1)) =~= z.skip(12 + l).subrange(
                0,
                diffs_bytes(s2.skip(1)).len() as int,
            ));
        }
        lemma_diffs_prefix_inj(s1.skip(1), s2.skip(1), z.skip(12 + l));
        assert forall|i: int| 0 <= i < s1.len() implies (#[trigger] s1[i]).0 == s2[i].0
            && s1[i].1.bytes@ == s2[i].1.bytes@ by {
            if i > 0 {
                assert(s1.skip(1)[i - 1].0 == s2.skip(1)[i - 1].0);
                assert(s1.skip(1)[i - 1].1.bytes@ == s2.skip(1)[i - 1].1.bytes@);
                assert(s1[i] == s1.skip(1)[i - 1]);
                assert(s2[i] == s2.skip(1)[i - 1]);
            }
        }
        assert(diffs_bytes(s1) =~= diffs_bytes(s2));
    } else {
        assert(diffs_bytes(s1) =~= diffs_bytes(s2));
    }
}

/// Produces the frame sitting at the front of `bytes`, together with how
/// its parts line up with the stream: each count field, each segment and
/// the total frame length, at their fixed or computed offsets.
#[verifier::rlimit(60)]
proof fn frame_witness(bytes: Seq<u8>) -> (s: Snapshot)
    requires
        holds_valid_frame(bytes),
    ensures
        valid_frame_at(s, bytes),
        bytes.len() >= 25,
        bytes[0] == kind_byte(s.header.kind),
        counts_bytes(s).len() == counts_len_of(s.header.kind),
        seps_bytes(s.solid_entry_points@).len() == 32 * s.solid_entry_points@.len(),
        outputs_bytes(s.outputs@).len() >= 8 * s.outputs@.len(),
        diffs_bytes(s.milestone_diffs@).len() >= 12 * s.milestone_diffs@.len(),
        snapshot_bytes(s).len() == 25 + counts_len_of(s.header.kind) + 32
            * s.solid_entry_points@.len() + (if s.header.kind == Kind::Full {
            outputs_bytes(s.outputs@).len() as int
        } else {
            0
        }) + diffs_bytes(s.milestone_diffs@).len(),
        frame_sep_index(bytes) == s.header.sep_index.0,
        frame_ledger_index(bytes) == s.header.ledger_index.0,
        frame_diff_count(bytes) == s.milestone_diffs@.len() as u64,
        spec_u64_to_le_bytes(s.solid_entry_points@.len() as u64) == bytes.subrange(25, 33),
        s.header.kind == Kind::Full ==> spec_u64_to_le_bytes(s.outputs@.len() as u64)
            == bytes.subrange(33, 41),
        seps_bytes(s.solid_entry_points@) == bytes.subrange(
            25 + counts_len_of(s.header.kind),
            25 + counts_len_of(s.header.kind) + 32 * s.solid_entry_points@.len(),
        ),
        s.header.kind == Kind::Full ==> outputs_bytes(s.outputs@) == bytes.subrange(
            25 + counts_len_of(s.header.kind) + 32 * s.solid_entry_points@.len(),
            25 + counts_len_of(s.header.kind) + 32 * s.solid_entry_points@.len()
                + outputs_bytes(s.outputs@).len(),
        ),
        diffs_bytes(s.milestone_diffs@) == bytes.subrange(
            snapshot_bytes(s).len() - diffs_bytes(s.milestone_diffs@).len(),
            snapshot_bytes(s).len() as int,
        ),
{
    let s = choose|s: Snapshot| valid_frame_at(s, bytes);
    lemma_auto_spec_u64_to_from_le_bytes();
    lemma_auto_spec_u32_to_from_le_bytes();
    let e = snapshot_bytes(s);
    lemma_header_bytes_len(s.header);
    assert(spec_u64_to_le_bytes(s.solid_entry_points@.len() as u64).len() == 8);
    assert(spec_u64_to_le_bytes(s.outputs@.len() as u64).len() == 8);
    assert(spec_u64_to_le_bytes(s.milestone_diffs@.len() as u64).len() == 8);
    assert(spec_u32_to_le_bytes(s.header.sep_index.0).len() == 4);
    assert(spec_u32_to_le_bytes(s.header.ledger_index.0).len() == 4);
    assert(spec_u64_to_le_bytes(s.header.timestamp).len() == 8);
    assert(spec_u64_to_le_bytes(s.header.network_id).len() == 8);
    lemma_seps_bytes_total_len(s.solid_entry_points@);
    lemma_outputs_bytes_min_len(s.outputs@);
    lemma_diffs_bytes_min_len(s.milestone_diffs@);
    let cl = counts_len_of(s.header.kind);
    let n = s.solid_entry_points@.len() as int;
    let obl: int = if s.header.kind == Kind::Full {
        outputs_bytes(s.outputs@).len() as int
    } else {
        0
    };
    let dl = diffs_bytes(s.milestone_diffs@).len() as int;
    assert(counts_bytes(s).len() == cl);
    assert(e.len() == 25 + cl + 32 * n + obl + dl);
    assert(header_bytes(s.header) =~= bytes.subrange(0, 25)) by {
        assert(header_bytes(s.header) =~= e.subrange(0, 25));
    }
    assert(bytes[0] == kind_byte(s.header.kind)) by {
        assert(header_bytes(s.header)[0] == kind_byte(s.header.kind));
    }
    assert(spec_u32_to_le_bytes(s.header.sep_index.0) =~= bytes.subrange(17, 21)) by {
        assert(spec_u32_to_le_bytes(s.header.sep_index.0) =~= header_bytes(s.header).subrange(
            17,
            21,
        ));
    }
    assert(spec_u32_to_le_bytes(s.header.ledger_index.0) =~= bytes.subrange(21, 25)) by {
        assert(spec_u32_to_le_bytes(s.header.ledger_index.0) =~= header_bytes(s.header).subrange(
            21,
            25,
        ));
    }
    assert(counts_bytes(s) =~= bytes.subrange(25, 25 + cl)) by {
        assert(counts_bytes(s) =~= e.subrange(25, 25 + cl));
    }
    assert(spec_u64_to_le_bytes(s.solid_entry_points@.len() as u64) =~= bytes.subrange(25, 33))
        by {
        assert(spec_u64_to_le_bytes(s.solid_entry_points@.len() as u64) =~= counts_bytes(
            s,
        ).subrange(0, 8));
    }
    if s.header.kind == Kind::Full {
        assert(spec_u64_to_le_bytes(s.outputs@.len() as u64) =~= bytes.subrange(33, 41)) by {
            assert(spec_u64_to_le_bytes(s.outputs@.len() as u64) =~= counts_bytes(s).subrange(
                8,
                16,
            ));
        }
    }
    assert(spec_u64_to_le_bytes(s.milestone_diffs@.len() as u64) =~= bytes.subrange(
        25 + cl - 8,
        25 + cl,
    )) by {
        assert(spec_u64_to_le_bytes(s.milestone_diffs@.len() as u64) =~= counts_bytes(s).subrange(
            cl - 8,
            cl,
        ));
    }
    assert(frame_diff_count(bytes) == s.milestone_diffs@.len() as u64);
    assert(seps_bytes(s.solid_entry_points@) =~= bytes.subrange(25 + cl, 25 + cl + 32 * n)) by {
        assert(seps_bytes(s.solid_entry_points@) =~= e.subrange(25 + cl, 25 + cl + 32 * n));
    }
    if s.header.kind == Kind::Full {
        assert(outputs_bytes(s.outputs@) =~= bytes.subrange(
            25 + cl + 32 * n,
            25 + cl + 32 * n + obl,
        )) by {
            assert(outputs_bytes(s.outputs@) =~= e.subrange(25 + cl + 32 * n, 25 + cl + 32 * n
                + obl));
        }
    }
    assert(diffs_bytes(s.milestone_diffs@) =~= bytes.subrange(e.len() - dl, e.len() as int)) by {
        assert(diffs_bytes(s.milestone_diffs@) =~= e.subrange(e.len() - dl, e.len() as int));
    }
    s
}

/// A packed, count-consistent snapshot is itself a valid frame at the
/// front of its own encoding (or of any extension of it), so
/// [`Snapshot::unpack`] owes it a successful decode, and
/// [`lemma_frame_unambiguous`] pins the decoded fields to the original.
pub proof fn lemma_packed_frame_is_valid(s: Snapshot, bytes: Seq<u8>)
    requires
        frame_sizes_fit(s),
        counts_consistent(s),
        is_prefix_of(snapshot_bytes(s), bytes),
    ensures
        holds_valid_frame(bytes),
{
    assert(valid_frame_at(s, bytes));
}

/// Appending one entry point appends its identifier's bytes.
proof fn lemma_seps_bytes_push(s: Seq<SolidEntryPoint>, x: SolidEntryPoint)
    ensures
        seps_bytes(s.push(x)) == seps_bytes(s) + id_bytes(x.0),
    decreases s.len(),
{
    if s.len() == 0 {
        assert(s.push(x)[0] == x);
        assert(s.push(x).skip(1) =~= Seq::<SolidEntryPoint>::empty());
        assert(seps_bytes(s.push(x).skip(1)) =~= Seq::<u8>::empty());
        assert(seps_bytes(s) =~= Seq::<u8>::empty());
        assert(seps_bytes(s.push(x)) =~= seps_bytes(s) + id_bytes(x.0));
    } else {
        assert(s.push(x).skip(1) =~= s.skip(1).push(x));
        lemma_seps_bytes_push(s.skip(1), x);
        assert(s.push(x)[0] == s[0]);
        assert(seps_bytes(s.push(x).skip(1)) == seps_bytes(s.skip(1)) + id_bytes(x.0));
        assert(seps_bytes(s.push(x)) =~= seps_bytes(s) + id_bytes(x.0));
    }
}

/// Appending one output appends its length-prefixed payload.
proof fn lemma_outputs_bytes_push(s: Seq<Output>, x: Output)
    ensures
        outputs_bytes(s.push(x)) == outputs_bytes(s) + blob_bytes(x.bytes@),
    decreases s.len(),
{
    if s.len() == 0 {
        assert(s.push(x)[0] == x);
        assert(s.push(x).skip(1) =~= Seq::<Output>::empty());
        assert(outputs_bytes(s.push(x).skip(1)) =~= Seq::<u8>::empty());
        assert(outputs_bytes(s) =~= Seq::<u8>::empty());
        assert(outputs_bytes(s.push(x)) =~= outputs_bytes(s) + blob_bytes(x.bytes@));
    } else {
        assert(s.push(x).skip(1) =~= s.skip(1).push(x));
        lemma_outputs_bytes_push(s.skip(1), x);
        assert(s.push(x)[0] == s[0]);
        assert(outputs_bytes(s.push(x).skip(1)) == outputs_bytes(s.skip(1)) + blob_bytes(
            x.bytes@,
        ));
        assert(outputs_bytes(s.push(x)) =~= outputs_bytes(s) + blob_bytes(x.bytes@));
    }
}

/// Appending one milestone diff appends its index and length-prefixed
/// payload.
proof fn lemma_diffs_bytes_push(s: Seq<(MilestoneIndex, MilestoneDiff)>, x: (
    MilestoneIndex,
    MilestoneDiff,
))
    ensures
        diffs_bytes(s.push(x)) == diffs_bytes(s) + spec_u32_to_le_bytes(x.0.0) + blob_bytes(
            x.1.bytes@,
        ),
    decreases s.len(),
{
    if s.len() == 0 {
        assert(s.push(x)[0] == x);
        assert(s.push(x).skip(1) =~= Seq::<(MilestoneIndex, MilestoneDiff)>::empty());
        assert(diffs_bytes(s.push(x).skip(1)) =~= Seq::<u8>::empty());
        assert(diffs_bytes(s) =~= Seq::<u8>::empty());
        assert(diffs_bytes(s.push(x)) =~= diffs_bytes(s) + spec_u32_to_le_bytes(x.0.0)
            + blob_bytes(x.1.bytes@));
    } else {
        assert(s.push(x).skip(1) =~= s.skip(1).push(x));
        lemma_diffs_bytes_push(s.skip(1), x);
        assert(s.push(x)[0] == s[0]);
        assert(diffs_bytes(s.push(x).skip(1)) == diffs_bytes(s.skip(1)) + spec_u32_to_le_bytes(
            x.0.0,
        ) + blob_bytes(x.1.bytes@));
        assert(diffs_bytes(s.push(x)) =~= diffs_bytes(s) + spec_u32_to_le_bytes(x.0.0)
            + blob_bytes(x.1.bytes@));
    }
}

/// Every length a frame encodes as a 64-bit count fits in that count.
pub open spec fn frame_sizes_fit(s: Snapshot) -> bool {
    &&& s.solid_entry_points@.len() <= u64::MAX
    &&& s.outputs@.len() <= u64::MAX
    &&& s.milestone_diffs@.len() <= u64::MAX
    &&& forall|i: int|
        0 <= i < s.outputs@.len() ==> (#[trigger] s.outputs@[i]).bytes@.len() <= u64::MAX
    &&& forall|i: int|
        0 <= i < s.milestone_diffs@.len() ==> (#[trigger] s.milestone_diffs@[i]).1.bytes@.len()
            <= u64::MAX
}

/// A header occupies 25 bytes on the wire.
proof fn lemma_header_bytes_len(h: SnapshotHeader)
    ensures
        header_bytes(h).len() == 25,
{
    lemma_auto_spec_u64_to_from_le_bytes();
    lemma_auto_spec_u32_to_from_le_bytes();
    assert(spec_u64_to_le_bytes(h.timestamp).len() == 8);
    assert(spec_u64_to_le_bytes(h.network_id).len() == 8);
    assert(spec_u32_to_le_bytes(h.sep_index.0).len() == 4);
    assert(spec_u32_to_le_bytes(h.ledger_index.0).len() == 4);
}

/// The wire form determines the header.
proof fn lemma_header_bytes_inj(g: SnapshotHeader, h: SnapshotHeader)
    requires
        header_bytes(g) == header_bytes(h),
    ensures
        g == h,
{
    lemma_auto_spec_u64_to_from_le_bytes();
    lemma_auto_spec_u32_to_from_le_bytes();
    lemma_header_bytes_len(g);
    lemma_header_bytes_len(h);
    assert(spec_u64_to_le_bytes(g.timestamp).len() == 8);
    assert(spec_u64_to_le_bytes(g.network_id).len() == 8);
    assert(spec_u32_to_le_bytes(g.sep_index.0).len() == 4);
    assert(spec_u32_to_le_bytes(g.ledger_index.0).len() == 4);
    assert(spec_u64_to_le_bytes(h.timestamp).len() == 8);
    assert(spec_u64_to_le_bytes(h.network_id).len() == 8);
    assert(spec_u32_to_le_bytes(h.sep_index.0).len() == 4);
    assert(spec_u32_to_le_bytes(h.ledger_index.0).len() == 4);
    assert(header_bytes(g)[0] == kind_byte(g.kind));
    assert(header_bytes(h)[0] == kind_byte(h.kind));
    assert(g.kind == h.kind) by {
        if g.kind != h.kind {
            assert(kind_byte(g.kind) != kind_byte(h.kind));
        }
    }
    assert(spec_u64_to_le_bytes(g.timestamp) =~= header_bytes(g).subrange(1, 9));
    assert(spec_u64_to_le_bytes(h.timestamp) =~= header_bytes(h).subrange(1, 9));
    assert(spec_u64_to_le_bytes(g.network_id) =~= header_bytes(g).subrange(9, 17));
    assert(spec_u64_to_le_bytes(h.network_id) =~= header_bytes(h).subrange(9, 17));
    assert(spec_u32_to_le_bytes(g.sep_index.0) =~= header_bytes(g).subrange(17, 21));
    assert(spec_u32_to_le_bytes(h.sep_index.0) =~= header_bytes(h).subrange(17, 21));
    assert(spec_u32_to_le_bytes(g.ledger_index.0) =~= header_bytes(g).subrange(21, 25));
    assert(spec_u32_to_le_bytes(h.ledger_index.0) =~= header_bytes(h).subrange(21, 25));
}

/// One byte stream holds at most one frame: two snapshots whose frames
/// both open the same stream agree on the header, the entry points and the
/// milestone diffs, and, for full snapshots, on the outputs; their frames
/// are the same bytes. (A delta frame does not encode outputs, so nothing
/// relates the two output lists in that case.)
#[verifier::rlimit(60)]
pub proof fn lemma_frame_unambiguous(a: Snapshot, b: Snapshot, bytes: Seq<u8>)
    requires
        frame_sizes_fit(a),
        frame_sizes_fit(b),
        is_prefix_of(snapshot_bytes(a), bytes),
        is_prefix_of(snapshot_bytes(b), bytes),
    ensures
        a.header == b.header,
        a.solid_entry_points@ == b.solid_entry_points@,
        a.milestone_diffs@.len() == b.milestone_diffs@.len(),
        forall|i: int|
            0 <= i < a.milestone_diffs@.len() ==> (#[trigger] a.milestone_diffs@[i]).0
                == b.milestone_diffs@[i].0 && a.milestone_diffs@[i].1.bytes@
                == b.milestone_diffs@[i].1.bytes@,
        a.header.kind == Kind::Full ==> a.outputs@.len() == b.outputs@.len() && (forall|i: int|
            0 <= i < a.outputs@.len() ==> (#[trigger] a.outputs@[i]).bytes@
                == b.outputs@[i].bytes@),
        snapshot_bytes(a) == snapshot_bytes(b),
{
    lemma_auto_spec_u64_to_from_le_bytes();
    let ea = snapshot_bytes(a);
    let eb = snapshot_bytes(b);
    lemma_header_bytes_len(a.header);
    lemma_header_bytes_len(b.header);
    assert(spec_u64_to_le_bytes(a.solid_entry_points@.len() as u64).len() == 8);
    assert(spec_u64_to_le_bytes(a.outputs@.len() as u64).len() == 8);
    assert(spec_u64_to_le_bytes(a.milestone_diffs@.len() as u64).len() == 8);
    assert(spec_u64_to_le_bytes(b.solid_entry_points@.len() as u64).len() == 8);
    assert(spec_u64_to_le_bytes(b.outputs@.len() as u64).len() == 8);
    assert(spec_u64_to_le_bytes(b.milestone_diffs@.len() as u64).len() == 8);
    assert(header_bytes(a.header) =~= bytes.subrange(0, 25)) by {
        assert(header_bytes(a.header) =~= ea.subrange(0, 25));
    }
    assert(header_bytes(b.header) =~= bytes.subrange(0, 25)) by {
        assert(header_bytes(b.header) =~= eb.subrange(0, 25));
    }
    lemma_header_bytes_inj(a.header, b.header);
    let cl: int = if a.header.kind == Kind::Full {
        24
    } else {
        16
    };
    assert(counts_bytes(a).len() == cl);
    assert(counts_bytes(b).len() == cl);
    assert(counts_bytes(a) =~= bytes.subrange(25, 25 + cl)) by {
        assert(counts_bytes(a) =~= ea.subrange(25, 25 + cl));
    }
    assert(counts_bytes(b) =~= bytes.subrange(25, 25 + cl)) by {
        assert(counts_bytes(b) =~= eb.subrange(25, 25 + cl));
    }
    assert(spec_u64_to_le_bytes(a.solid_entry_points@.len() as u64) =~= counts_bytes(a).subrange(
        0,
        8,
    ));
    assert(spec_u64_to_le_bytes(b.solid_entry_points@.len() as u64) =~= counts_bytes(b).subrange(
        0,
        8,
    ));
    assert(a.solid_entry_points@.len() == b.solid_entry_points@.len());
    if a.header.kind == Kind::Full {
        assert(spec_u64_to_le_bytes(a.outputs@.len() as u64) =~= counts_bytes(a).subrange(8, 16));
        assert(spec_u64_to_le_bytes(b.outputs@.len() as u64) =~= counts_bytes(b).subrange(8, 16));
        assert(a.outputs@.len() == b.outputs@.len());
    }
    assert(spec_u64_to_le_bytes(a.milestone_diffs@.len() as u64) =~= counts_bytes(a).subrange(
        cl - 8,
        cl,
    ));
    assert(spec_u64_to_le_bytes(b.milestone_diffs@.len() as u64) =~= counts_bytes(b).subrange(
        cl - 8,
        cl,
    ));
    assert(a.milestone_diffs@.len() == b.milestone_diffs@.len());
    let sa = seps_bytes(a.solid_entry_points@);
    let sb = seps_bytes(b.solid_entry_points@);
    let z1 = bytes.skip(25 + cl);
    assert(is_prefix_of(sa, z1)) by {
        assert(sa =~= ea.subrange(25 + cl, 25 + cl + sa.len()));
        assert(sa =~= z1.subrange(0, sa.len() as int));
    }
    assert(is_prefix_of(sb, z1)) by {
        assert(sb =~= eb.subrange(25 + cl, 25 + cl + sb.len()));
        assert(sb =~= z1.subrange(0, sb.len() as int));
    }
    lemma_seps_prefix_inj(a.solid_entry_points@, b.solid_entry_points@, z1);
    let sl = sa.len() as int;
    let oa = if a.header.kind == Kind::Full {
        outputs_bytes(a.outputs@)
    } else {
        Seq::<u8>::empty()
    };
    let ob = if a.header.kind == Kind::Full {
        outputs_bytes(b.outputs@)
    } else {
        Seq::<u8>::empty()
    };
    let z2 = bytes.skip(25 + cl + sl);
    if a.header.kind == Kind::Full {
        assert(is_prefix_of(outputs_bytes(a.outputs@), z2)) by {
            assert(oa =~= ea.subrange(25 + cl + sl, 25 + cl + sl + oa.len()));
            assert(oa =~= z2.subrange(0, oa.len() as int));
        }
        assert(is_prefix_of(outputs_bytes(b.outputs@), z2)) by {
            assert(ob =~= eb.subrange(25 + cl + sl, 25 + cl + sl + ob.len()));
            assert(ob =~= z2.subrange(0, ob.len() as int));
        }
        lemma_outputs_prefix_inj(a.outputs@, b.outputs@, z2);
    }
    let ol = oa.len() as int;
    let da = diffs_bytes(a.milestone_diffs@);
    let db = diffs_bytes(b.milestone_diffs@);
    let z3 = bytes.skip(25 + cl + sl + ol);
    assert(is_prefix_of(da, z3)) by {
        assert(da =~= ea.subrange(25 + cl + sl + ol, 25 + cl + sl + ol + da.len()));
        assert(da =~= z3.subrange(0, da.len() as int));
    }
    assert(is_prefix_of(db, z3)) by {
        assert(db =~= eb.subrange(25 + cl + sl + ol, 25 + cl + sl + ol + db.len()));
        assert(db =~= z3.subrange(0, db.len() as int));
    }
    lemma_diffs_prefix_inj(a.milestone_diffs@, b.milestone_diffs@, z3);
    assert(ea =~= eb);
}

/// Appends every byte of `src` to `dst`.
fn push_bytes(dst: &mut Vec<u8>, src: &Vec<u8>)
    ensures
        final(dst)@ == old(dst)@ + src@,
{
    let mut i: usize = 0;
    while i < src.len()
        invariant
            i <= src@.len(),
            dst@ =~= old(dst)@ + src@.take(i as int),
        decreases src@.len() - i,
    {
        dst.push(src[i]);
        proof {
            assert(src@.take(i + 1 as int) =~= src@.take(i as int).push(src@[i as int]));
            assert(dst@ =~= old(dst)@ + src@.take(i + 1 as int));
        }
        i += 1;
    }
    proof {
        assert(src@.take(src@.len() as int) =~= src@);
        assert(dst@ =~= old(dst)@ + src@);
    }
}

/// Appends a 64-bit count or field, little-endian.
fn push_u64(dst: &mut Vec<u8>, x: u64)
    ensures
        final(dst)@ == old(dst)@ + spec_u64_to_le_bytes(x),
{
    let b = u64_to_le_bytes(x);
    push_bytes(dst, &b);
}

/// Appends a 32-bit field, little-endian.
fn push_u32(dst: &mut Vec<u8>, x: u32)
    ensures
        final(dst)@ == old(dst)@ + spec_u32_to_le_bytes(x),
{
    let b = u32_to_le_bytes(x);
    push_bytes(dst, &b);
}

/// Appends a message identifier's four words.
fn push_id(dst: &mut Vec<u8>, id: &MessageId)
    ensures
        final(dst)@ == old(dst)@ + id_bytes(*id),
{
    push_u64(dst, id.w0);
    push_u64(dst, id.w1);
    push_u64(dst, id.w2);
    push_u64(dst, id.w3);
    proof {
        assert(dst@ =~= old(dst)@ + id_bytes(*id));
    }
}

/// Reads the 64-bit little-endian field at `pos`.
fn read_u64_at(bytes: &Vec<u8>, pos: usize) -> (x: u64)
    requires
        pos + 8 <= bytes@.len(),
    ensures
        spec_u64_to_le_bytes(x) == bytes@.subrange(pos as int, pos + 8),
{
    let total: usize = bytes.len();
    let s = slice_subrange(bytes.as_slice(), pos, pos + 8);
    let x = u64_from_le_bytes(s);
    proof {
        lemma_auto_spec_u64_to_from_le_bytes();
    }
    x
}

/// Reads the 32-bit little-endian field at `pos`.
fn read_u32_at(bytes: &Vec<u8>, pos: usize) -> (x: u32)
    requires
        pos + 4 <= bytes@.len(),
    ensures
        spec_u32_to_le_bytes(x) == bytes@.subrange(pos as int, pos + 4),
{
    let total: usize = bytes.len();
    let s = slice_subrange(bytes.as_slice(), pos, pos + 4);
    let x = u32_from_le_bytes(s);
    proof {
        lemma_auto_spec_u32_to_from_le_bytes();
    }
    x
}

/// Reads the message identifier at `pos`.
fn read_id_at(bytes: &Vec<u8>, pos: usize) -> (id: MessageId)
    requires
        pos + 32 <= bytes@.len(),
    ensures
        id_bytes(id) == bytes@.subrange(pos as int, pos + 32),
{
    let total: usize = bytes.len();
    let w0 = read_u64_at(bytes, pos);
    let w1 = read_u64_at(bytes, pos + 8);
    let w2 = read_u64_at(bytes, pos + 16);
    let w3 = read_u64_at(bytes, pos + 24);
    let id = MessageId { w0, w1, w2, w3 };
    proof {
        assert(id_bytes(id) =~= bytes@.subrange(pos as int, pos + 32));
    }
    id
}

/// Copies `n` bytes starting at `pos` into a fresh vector.
fn read_blob_at(bytes: &Vec<u8>, pos: usize, n: usize) -> (r: Vec<u8>)
    requires
        pos + n <= bytes@.len(),
    ensures
        r@ == bytes@.subrange(pos as int, pos + n),
{
    let total: usize = bytes.len();
    let mut r: Vec<u8> = Vec::new();
    let mut i: usize = 0;
    while i < n
        invariant
            i <= n,
            pos + n <= bytes@.len(),
            bytes@.len() <= usize::MAX,
            r@ =~= bytes@.subrange(pos as int, pos + i),
        decreases n - i,
    {
        r.push(bytes[pos + i]);
        proof {
            assert(bytes@.subrange(pos as int, pos + i + 1) =~= bytes@.subrange(
                pos as int,
                pos + i,
            ).push(bytes@[pos + i]));
        }
        i += 1;
    }
    r
}

impl Snapshot {
    /// The header of this snapshot.
    pub fn header(&self) -> (r: &SnapshotHeader)
        ensures
            r == self.header,
    {
        &self.header
    }

    /// The solid entry points of this snapshot.
    pub fn solid_entry_points(&self) -> (r: &Vec<SolidEntryPoint>)
        ensures
            r == self.solid_entry_points,
    {
        &self.solid_entry_points
    }

    /// The outputs of this snapshot.
    pub fn outputs(&self) -> (r: &Vec<Output>)
        ensures
            r == self.outputs,
    {
        &self.outputs
    }

    /// The milestone diffs of this snapshot.
    pub fn milestone_diffs(&self) -> (r: &Vec<(MilestoneIndex, MilestoneDiff)>)
        ensures
            r == self.milestone_diffs,
    {
        &self.milestone_diffs
    }

    /// Encodes this snapshot as one frame.
    pub fn pack(&self) -> (r: Vec<u8>)
        ensures
            r@ == snapshot_bytes(*self),
    {
        let mut out: Vec<u8> = Vec::new();
        match self.header.kind {
            Kind::Full => out.push(0u8),
            Kind::Delta => out.push(1u8),
        }
        push_u64(&mut out, self.header.timestamp);
        push_u64(&mut out, self.header.network_id);
        push_u32(&mut out, self.header.sep_index.0);
        push_u32(&mut out, self.header.ledger_index.0);
        proof {
            assert(out@ =~= header_bytes(self.header));
        }
        push_u64(&mut out, self.solid_entry_points.len() as u64);
        if self.header.kind == Kind::Full {
            push_u64(&mut out, self.outputs.len() as u64);
        }
        push_u64(&mut out, self.milestone_diffs.len() as u64);
        proof {
            assert(out@ =~= header_bytes(self.header) + counts_bytes(*self));
        }
        let ghost base = out@;
        let mut i: usize = 0;
        while i < self.solid_entry_points.len()
            invariant
                i <= self.solid_entry_points@.len(),
                out@ =~= base + seps_bytes(self.solid_entry_points@.take(i as int)),
            decreases self.solid_entry_points@.len() - i,
        {
            push_id(&mut out, &self.solid_entry_points[i].0);
            proof {
                let pre = self.solid_entry_points@.take(i as int);
                lemma_seps_bytes_push(pre, self.solid_entry_points@[i as int]);
                assert(self.solid_entry_points@.take(i + 1 as int) =~= pre.push(
                    self.solid_entry_points@[i as int],
                ));
                assert(out@ =~= base + seps_bytes(self.solid_entry_points@.take(i + 1 as int)));
            }
            i += 1;
        }
        proof {
            assert(self.solid_entry_points@.take(self.solid_entry_points@.len() as int)
                =~= self.solid_entry_points@);
        }
        let ghost base2 = out@;
        if self.header.kind == Kind::Full {
            let mut j: usize = 0;
            while j < self.outputs.len()
                invariant
                    j <= self.outputs@.len(),
                    out@ =~= base2 + outputs_bytes(self.outputs@.take(j as int)),
                decreases self.outputs@.len() - j,
            {
                push_u64(&mut out, self.outputs[j].bytes.len() as u64);
                push_bytes(&mut out, &self.outputs[j].bytes);
                proof {
                    let pre = self.outputs@.take(j as int);
                    lemma_outputs_bytes_push(pre, self.outputs@[j as int]);
                    assert(self.outputs@.take(j + 1 as int) =~= pre.push(
                        self.outputs@[j as int],
                    ));
                    assert(out@ =~= base2 + outputs_bytes(self.outputs@.take(j + 1 as int)));
                }
                j += 1;
            }
            proof {
                assert(self.outputs@.take(self.outputs@.len() as int) =~= self.outputs@);
            }
        }
        let ghost base3 = out@;
        let mut k: usize = 0;
        while k < self.milestone_diffs.len()
            invariant
                k <= self.milestone_diffs@.len(),
                out@ =~= base3 + diffs_bytes(self.milestone_diffs@.take(k as int)),
            decreases self.milestone_diffs@.len() - k,
        {
            push_u32(&mut out, self.milestone_diffs[k].0.0);
            push_u64(&mut out, self.milestone_diffs[k].1.bytes.len() as u64);
            push_bytes(&mut out, &self.milestone_diffs[k].1.bytes);
            proof {
                let pre = self.milestone_diffs@.take(k as int);
                lemma_diffs_bytes_push(pre, self.milestone_diffs@[k as int]);
                assert(self.milestone_diffs@.take(k + 1 as int) =~= pre.push(
                    self.milestone_diffs@[k as int],
                ));
                assert(out@ =~= base3 + diffs_bytes(self.milestone_diffs@.take(k + 1 as int)));
            }
            k += 1;
        }
        proof {
            assert(self.milestone_diffs@.take(self.milestone_diffs@.len() as int)
                =~= self.milestone_diffs@);
            assert(out@ =~= snapshot_bytes(*self));
        }
        out
    }

    /// Decodes one snapshot frame from the front of `bytes`; input beyond
    /// the frame is left unread, as when decoding from a stream. A decoded
    /// snapshot satisfies the frame's integrity constraint, and re-encoding
    /// it reproduces exactly the bytes that were consumed.
    #[verifier::rlimit(100)]
    #[verifier::spinoff_prover]
    pub fn unpack(bytes: &Vec<u8>) -> (r: Result<Snapshot, SnapshotError>)
        ensures
            (match r {
                Result::Ok(s) => {
                    &&& counts_consistent(s)
                    &&& frame_sizes_fit(s)
                    &&& snapshot_bytes(s).len() <= bytes@.len()
                    &&& snapshot_bytes(s) == bytes@.subrange(0, snapshot_bytes(s).len() as int)
                    &&& s.header.kind == Kind::Delta ==> s.outputs@.len() == 0
                },
                Result::Err(_) => true,
            }),
            holds_valid_frame(bytes@) ==> r.is_ok(),
            bytes@.len() < 25 ==> r == Result::<Snapshot, SnapshotError>::Err(
                SnapshotError::UnexpectedEof,
            ),
            bytes@.len() >= 25 && bytes@[0] != 0 && bytes@[0] != 1 ==> r == Result::<
                Snapshot,
                SnapshotError,
            >::Err(SnapshotError::InvalidKind(bytes@[0])),
            (bytes@.len() >= 25 && (bytes@[0] == 0 || bytes@[0] == 1) && bytes@.len()
                >= frame_counts_end(bytes@) && (if bytes@[0] == 0 {
                frame_ledger_index(bytes@) < frame_sep_index(bytes@)
            } else {
                frame_sep_index(bytes@) < frame_ledger_index(bytes@)
            })) ==> r == Result::<Snapshot, SnapshotError>::Err(
                SnapshotError::LedgerSepIndexesInconsistency(
                    MilestoneIndex(frame_ledger_index(bytes@)),
                    MilestoneIndex(frame_sep_index(bytes@)),
                ),
            ),
            (bytes@.len() >= 25 && (bytes@[0] == 0 || bytes@[0] == 1) && bytes@.len()
                >= frame_counts_end(bytes@) && (if bytes@[0] == 0 {
                frame_ledger_index(bytes@) >= frame_sep_index(bytes@)
                    && frame_ledger_index(bytes@) - frame_sep_index(bytes@)
                    != frame_diff_count(bytes@)
            } else {
                frame_sep_index(bytes@) >= frame_ledger_index(bytes@)
                    && frame_sep_index(bytes@) - frame_ledger_index(bytes@)
                    != frame_diff_count(bytes@)
            })) ==> r == Result::<Snapshot, SnapshotError>::Err(
                SnapshotError::InvalidMilestoneDiffsCount(
                    (if bytes@[0] == 0 {
                        (frame_ledger_index(bytes@) - frame_sep_index(bytes@)) as u64
                    } else {
                        (frame_sep_index(bytes@) - frame_ledger_index(bytes@)) as u64
                    }),
                    frame_diff_count(bytes@),
                ),
            ),
    {
        let total: usize = bytes.len();
        if total < 25 {
            proof {
                assert(!holds_valid_frame(bytes@)) by {
                    if holds_valid_frame(bytes@) {
                        let s2 = frame_witness(bytes@);
                        assert(false);
                    }
                }
            }
            return Err(SnapshotError::UnexpectedEof);
        }
        let b0 = bytes[0];
        let kind = if b0 == 0 {
            Kind::Full
        } else if b0 == 1 {
            Kind::Delta
        } else {
            proof {
                assert(!holds_valid_frame(bytes@)) by {
                    if holds_valid_frame(bytes@) {
                        let s2 = frame_witness(bytes@);
                        assert(bytes@[0] == 0 || bytes@[0] == 1);
                        assert(false);
                    }
                }
            }
            return Err(SnapshotError::InvalidKind(b0));
        };
        let timestamp = read_u64_at(bytes, 1);
        let network_id = read_u64_at(bytes, 9);
        let sep_index = MilestoneIndex(read_u32_at(bytes, 17));
        let ledger_index = MilestoneIndex(read_u32_at(bytes, 21));
        let header = SnapshotHeader { kind, timestamp, network_id, sep_index, ledger_index };
        proof {
            lemma_auto_spec_u32_to_from_le_bytes();
            assert(spec_u32_to_le_bytes(sep_index.0).len() == 4);
            assert(spec_u32_to_le_bytes(ledger_index.0).len() == 4);
            assert(sep_index.0 == frame_sep_index(bytes@));
            assert(ledger_index.0 == frame_ledger_index(bytes@));
            assert(bytes@.subrange(0, 25) =~= seq![b0] + bytes@.subrange(1, 9) + bytes@.subrange(
                9,
                17,
            ) + bytes@.subrange(17, 21) + bytes@.subrange(21, 25));
            assert(bytes@.subrange(0, 25) =~= header_bytes(header));
        }
        let mut pos: usize = 25;
        if total - pos < 8 {
            proof {
                assert(!holds_valid_frame(bytes@)) by {
                    if holds_valid_frame(bytes@) {
                        let s2 = frame_witness(bytes@);
                        assert(snapshot_bytes(s2).len() >= 25 + 16);
                        assert(false);
                    }
                }
            }
            return Err(SnapshotError::UnexpectedEof);
        }
        let sep_count = read_u64_at(bytes, pos);
        pos = pos + 8;
        let output_count = if b0 == 0 {
            if total - pos < 8 {
                proof {
                    assert(!holds_valid_frame(bytes@)) by {
                        if holds_valid_frame(bytes@) {
                            let s2 = frame_witness(bytes@);
                            assert(s2.header.kind == Kind::Full);
                            assert(snapshot_bytes(s2).len() >= 25 + 24);
                            assert(false);
                        }
                    }
                }
                return Err(SnapshotError::UnexpectedEof);
            }
            let c = read_u64_at(bytes, pos);
            pos = pos + 8;
            c
        } else {
            0
        };
        if total - pos < 8 {
            proof {
                assert(!holds_valid_frame(bytes@)) by {
                    if holds_valid_frame(bytes@) {
                        let s2 = frame_witness(bytes@);
                        assert(snapshot_bytes(s2).len() >= 25 + counts_len_of(s2.header.kind));
                        assert(false);
                    }
                }
            }
            return Err(SnapshotError::UnexpectedEof);
        }
        let diff_count = read_u64_at(bytes, pos);
        proof {
            lemma_auto_spec_u64_to_from_le_bytes();
            assert(spec_u64_to_le_bytes(diff_count).len() == 8);
            assert(diff_count == frame_diff_count(bytes@));
        }
        pos = pos + 8;
        proof {
            assert(holds_valid_frame(bytes@) ==> (if b0 == 0 {
                ledger_index.0 >= sep_index.0 && (ledger_index.0 - sep_index.0) as u64
                    == diff_count
            } else {
                sep_index.0 >= ledger_index.0 && (sep_index.0 - ledger_index.0) as u64
                    == diff_count
            })) by {
                if holds_valid_frame(bytes@) {
                    let s2 = frame_witness(bytes@);
                    assert(sep_index.0 == s2.header.sep_index.0);
                    assert(ledger_index.0 == s2.header.ledger_index.0);
                    assert(diff_count == s2.milestone_diffs@.len() as u64);
                    if s2.header.kind == Kind::Full {
                        assert(ledger_index.0 >= sep_index.0);
                        assert((ledger_index.0 - sep_index.0) as u64 == diff_count);
                    } else {
                        assert(sep_index.0 >= ledger_index.0);
                        assert((sep_index.0 - ledger_index.0) as u64 == diff_count);
                    }
                }
            }
        }
        match kind {
            Kind::Full => {
                if ledger_index.0 < sep_index.0 {
                    return Err(
                        SnapshotError::LedgerSepIndexesInconsistency(ledger_index, sep_index),
                    );
                }
                if (ledger_index.0 - sep_index.0) as u64 != diff_count {
                    return Err(
                        SnapshotError::InvalidMilestoneDiffsCount(
                            (ledger_index.0 - sep_index.0) as u64,
                            diff_count,
                        ),
                    );
                }
            },
            Kind::Delta => {
                if sep_index.0 < ledger_index.0 {
                    return Err(
                        SnapshotError::LedgerSepIndexesInconsistency(ledger_index, sep_index),
                    );
                }
                if (sep_index.0 - ledger_index.0) as u64 != diff_count {
                    return Err(
                        SnapshotError::InvalidMilestoneDiffsCount(
                            (sep_index.0 - ledger_index.0) as u64,
                            diff_count,
                        ),
                    );
                }
            },
        }
        if sep_count > total as u64 || output_count > total as u64 || diff_count
            > total as u64 {
            proof {
                assert(!holds_valid_frame(bytes@)) by {
                    if holds_valid_frame(bytes@) {
                        let s2 = frame_witness(bytes@);
                        lemma_auto_spec_u64_to_from_le_bytes();
                        assert(spec_u64_to_le_bytes(sep_count).len() == 8);
                        assert(sep_count == s2.solid_entry_points@.len() as u64);
                        assert(s2.solid_entry_points@.len() <= total);
                        if s2.header.kind == Kind::Full {
                            assert(spec_u64_to_le_bytes(output_count).len() == 8);
                            assert(output_count == s2.outputs@.len() as u64);
                            assert(s2.outputs@.len() <= total);
                        }
                        assert(diff_count == s2.milestone_diffs@.len() as u64);
                        assert(s2.milestone_diffs@.len() <= total);
                        assert(false);
                    }
                }
            }
            return Err(SnapshotError::UnexpectedEof);
        }
        let sep_n = sep_count as usize;
        let output_n = output_count as usize;
        let diff_n = diff_count as usize;
        let ghost counts_end = pos as int;
        proof {
            assert(bytes@.subrange(0, counts_end) =~= bytes@.subrange(0, 25) + bytes@.subrange(
                25,
                counts_end,
            ));
        }
        let mut seps: Vec<SolidEntryPoint> = Vec::new();
        let mut i: usize = 0;
        while i < sep_n
            invariant
                i <= sep_n,
                pos <= total,
                total == bytes@.len(),
                25 <= counts_end <= pos as int,
                frame_checks_passed(bytes@),
                b0 == bytes@[0],
                b0 == 0 || b0 == 1,
                counts_end == 25 + (if b0 == 0 {
                    24int
                } else {
                    16
                }),
                spec_u64_to_le_bytes(sep_count) == bytes@.subrange(25, 33),
                sep_n == sep_count as usize,
                sep_count <= total as u64,
                seps@.len() == i,
                bytes@.subrange(counts_end, pos as int) =~= seps_bytes(seps@),
            decreases sep_n - i,
        {
            if total - pos < 32 {
                proof {
                    assert(!holds_valid_frame(bytes@)) by {
                        if holds_valid_frame(bytes@) {
                            let s2 = frame_witness(bytes@);
                            lemma_auto_spec_u64_to_from_le_bytes();
                            assert(spec_u64_to_le_bytes(sep_count).len() == 8);
                            assert(sep_count == s2.solid_entry_points@.len() as u64);
                            assert(sep_n == s2.solid_entry_points@.len());
                            lemma_seps_bytes_total_len(seps@);
                            assert(pos == counts_end + 32 * i);
                            assert(counts_end == 25 + counts_len_of(s2.header.kind));
                            assert(pos + 32 <= snapshot_bytes(s2).len());
                            assert(false);
                        }
                    }
                }
                return Err(SnapshotError::UnexpectedEof);
            }
            let id = read_id_at(bytes, pos);
            let ghost pre_seps = seps@;
            seps.push(SolidEntryPoint(id));
            proof {
                lemma_seps_bytes_push(pre_seps, SolidEntryPoint(id));
                assert(seps@ == pre_seps.push(SolidEntryPoint(id)));
                assert(bytes@.subrange(counts_end, pos + 32) =~= bytes@.subrange(
                    counts_end,
                    pos as int,
                ) + bytes@.subrange(pos as int, pos + 32));
            }
            pos = pos + 32;
            i = i + 1;
        }
        let ghost seps_end = pos as int;
        proof {
            lemma_seps_bytes_total_len(seps@);
            assert(seps_end == counts_end + 32 * sep_n);
        }
        let mut outputs: Vec<Output> = Vec::new();
        if b0 == 0 {
            let mut j: usize = 0;
            while j < output_n
                invariant
                    j <= output_n,
                    pos <= total,
                    total == bytes@.len(),
                    25 <= counts_end <= seps_end <= pos as int,
                    frame_checks_passed(bytes@),
                    b0 == 0,
                    b0 == bytes@[0],
                    counts_end == 49,
                    spec_u64_to_le_bytes(sep_count) == bytes@.subrange(25, 33),
                    spec_u64_to_le_bytes(output_count) == bytes@.subrange(33, 41),
                    sep_n == sep_count as usize,
                    output_n == output_count as usize,
                    sep_count <= total as u64,
                    output_count <= total as u64,
                    seps@.len() == sep_n,
                    seps_end == counts_end + 32 * sep_n,
                    bytes@.subrange(counts_end, seps_end) =~= seps_bytes(seps@),
                    outputs@.len() == j,
                    forall|q: int|
                        0 <= q < outputs@.len() ==> (#[trigger] outputs@[q]).bytes@.len()
                            <= u64::MAX,
                    bytes@.subrange(seps_end, pos as int) =~= outputs_bytes(outputs@),
                decreases output_n - j,
            {
                proof {
                    assert(holds_valid_frame(bytes@) ==> exists|l0: int|
                        next_blob_fits(bytes@, l0, pos as int)) by {
                        if holds_valid_frame(bytes@) {
                            let s2 = frame_witness(bytes@);
                            lemma_auto_spec_u64_to_from_le_bytes();
                            assert(spec_u64_to_le_bytes(sep_count).len() == 8);
                            assert(spec_u64_to_le_bytes(output_count).len() == 8);
                            assert(s2.header.kind == Kind::Full);
                            assert(sep_count == s2.solid_entry_points@.len() as u64);
                            assert(output_count == s2.outputs@.len() as u64);
                            assert(output_n == s2.outputs@.len());
                            lemma_seps_bytes_total_len(seps@);
                            assert(seps_end == counts_end + 32 * sep_n);
                            assert(seps_end == 25 + counts_len_of(s2.header.kind) + 32
                                * s2.solid_entry_points@.len());
                            let z = bytes@.skip(seps_end);
                            assert(is_prefix_of(outputs_bytes(outputs@), z)) by {
                                assert(outputs_bytes(outputs@) =~= z.subrange(
                                    0,
                                    outputs_bytes(outputs@).len() as int,
                                ));
                            }
                            assert(is_prefix_of(outputs_bytes(s2.outputs@), z)) by {
                                assert(outputs_bytes(s2.outputs@) =~= z.subrange(
                                    0,
                                    outputs_bytes(s2.outputs@).len() as int,
                                ));
                            }
                            lemma_outputs_prefix_extend(outputs@, s2.outputs@, z);
                            assert(outputs_bytes(outputs@).len() == pos - seps_end);
                            assert(pos + 8 + s2.outputs@[j as int].bytes@.len() <= seps_end
                                + outputs_bytes(s2.outputs@).len());
                            assert(seps_end + outputs_bytes(s2.outputs@).len()
                                <= snapshot_bytes(s2).len());
                            assert(spec_u64_to_le_bytes(
                                s2.outputs@[j as int].bytes@.len() as u64,
                            ) =~= bytes@.subrange(pos as int, pos + 8)) by {
                                assert(spec_u64_to_le_bytes(
                                    s2.outputs@[j as int].bytes@.len() as u64,
                                ) =~= z.subrange(pos - seps_end, pos - seps_end + 8));
                            }
                            assert(next_blob_fits(
                                bytes@,
                                s2.outputs@[j as int].bytes@.len() as int,
                                pos as int,
                            ));
                        }
                    }
                }
                if total - pos < 8 {
                    proof {
                        assert(!holds_valid_frame(bytes@)) by {
                            if holds_valid_frame(bytes@) {
                                let l0 = choose|l0: int|
                                    next_blob_fits(bytes@, l0, pos as int);
                                assert(false);
                            }
                        }
                    }
                    return Err(SnapshotError::UnexpectedEof);
                }
                let blen64 = read_u64_at(bytes, pos);
                if blen64 > (total - (pos + 8)) as u64 {
                    proof {
                        assert(!holds_valid_frame(bytes@)) by {
                            if holds_valid_frame(bytes@) {
                                let l0 = choose|l0: int|
                                    next_blob_fits(bytes@, l0, pos as int);
                                lemma_auto_spec_u64_to_from_le_bytes();
                                assert(spec_u64_to_le_bytes(blen64).len() == 8);
                                assert(blen64 == l0 as u64);
                                assert(false);
                            }
                        }
                    }
                    return Err(SnapshotError::UnexpectedEof);
                }
                let blen = blen64 as usize;
                let payload = read_blob_at(bytes, pos + 8, blen);
                let output = Output { bytes: payload };
                let ghost pre_outputs = outputs@;
                let ghost this_output = output;
                outputs.push(output);
                proof {
                    lemma_outputs_bytes_push(pre_outputs, this_output);
                    assert(outputs@ == pre_outputs.push(this_output));
                    assert(blob_bytes(this_output.bytes@) =~= bytes@.subrange(
                        pos as int,
                        pos + 8 + blen,
                    ));
                    assert(bytes@.subrange(seps_end, pos + 8 + blen) =~= bytes@.subrange(
                        seps_end,
                        pos as int,
                    ) + bytes@.subrange(pos as int, pos + 8 + blen));
                }
                pos = pos + 8 + blen;
                j = j + 1;
            }
        }
        let ghost outputs_end = pos as int;
        let mut diffs: Vec<(MilestoneIndex, MilestoneDiff)> = Vec::new();
        let mut k: usize = 0;
        while k < diff_n
            invariant
                k <= diff_n,
                pos <= total,
                total == bytes@.len(),
                25 <= counts_end <= seps_end <= outputs_end <= pos as int,
                frame_checks_passed(bytes@),
                b0 == bytes@[0],
                b0 == 0 || b0 == 1,
                counts_end == 25 + (if b0 == 0 {
                    24int
                } else {
                    16
                }),
                spec_u64_to_le_bytes(sep_count) == bytes@.subrange(25, 33),
                b0 == 0 ==> spec_u64_to_le_bytes(output_count) == bytes@.subrange(33, 41),
                diff_count == frame_diff_count(bytes@),
                sep_n == sep_count as usize,
                output_n == output_count as usize,
                diff_n == diff_count as usize,
                sep_count <= total as u64,
                diff_count <= total as u64,
                seps@.len() == sep_n,
                seps_end == counts_end + 32 * sep_n,
                bytes@.subrange(counts_end, seps_end) =~= seps_bytes(seps@),
                outputs@.len() == (if b0 == 0 {
                    output_n as int
                } else {
                    0
                }),
                forall|q: int|
                    0 <= q < outputs@.len() ==> (#[trigger] outputs@[q]).bytes@.len()
                        <= u64::MAX,
                bytes@.subrange(seps_end, outputs_end) =~= outputs_bytes(outputs@),
                diffs@.len() == k,
                forall|q: int|
                    0 <= q < diffs@.len() ==> (#[trigger] diffs@[q]).1.bytes@.len() <= u64::MAX,
                bytes@.subrange(outputs_end, pos as int) =~= diffs_bytes(diffs@),
            decreases diff_n - k,
        {
            proof {
                assert(holds_valid_frame(bytes@) ==> exists|l0: int|
                    next_diff_fits(bytes@, l0, pos as int)) by {
                    if holds_valid_frame(bytes@) {
                        let s2 = frame_witness(bytes@);
                        lemma_auto_spec_u64_to_from_le_bytes();
                        assert(spec_u64_to_le_bytes(sep_count).len() == 8);
                        assert(sep_count == s2.solid_entry_points@.len() as u64);
                        assert(diff_count == s2.milestone_diffs@.len() as u64);
                        assert(diff_n == s2.milestone_diffs@.len());
                        lemma_seps_bytes_total_len(seps@);
                        assert(seps_end == counts_end + 32 * sep_n);
                        assert(seps_end == 25 + counts_len_of(s2.header.kind) + 32
                            * s2.solid_entry_points@.len());
                        if s2.header.kind == Kind::Full {
                            assert(spec_u64_to_le_bytes(output_count).len() == 8);
                            assert(output_count == s2.outputs@.len() as u64);
                            assert(outputs@.len() == s2.outputs@.len());
                            let z2 = bytes@.skip(seps_end);
                            assert(is_prefix_of(outputs_bytes(outputs@), z2)) by {
                                assert(outputs_bytes(outputs@) =~= z2.subrange(
                                    0,
                                    outputs_bytes(outputs@).len() as int,
                                ));
                            }
                            assert(is_prefix_of(outputs_bytes(s2.outputs@), z2)) by {
                                assert(outputs_bytes(s2.outputs@) =~= z2.subrange(
                                    0,
                                    outputs_bytes(s2.outputs@).len() as int,
                                ));
                            }
                            lemma_outputs_prefix_inj(outputs@, s2.outputs@, z2);
                            assert(outputs_end == seps_end + outputs_bytes(
                                s2.outputs@,
                            ).len());
                        } else {
                            assert(outputs@.len() == 0);
                            assert(outputs_bytes(outputs@) =~= Seq::<u8>::empty());
                            assert(outputs_end == seps_end);
                        }
                        assert(outputs_end == snapshot_bytes(s2).len() - diffs_bytes(
                            s2.milestone_diffs@,
                        ).len());
                        let z3 = bytes@.skip(outputs_end);
                        assert(is_prefix_of(diffs_bytes(diffs@), z3)) by {
                            assert(diffs_bytes(diffs@) =~= z3.subrange(
                                0,
                                diffs_bytes(diffs@).len() as int,
                            ));
                        }
                        assert(is_prefix_of(diffs_bytes(s2.milestone_diffs@), z3)) by {
                            assert(diffs_bytes(s2.milestone_diffs@) =~= z3.subrange(
                                0,
                                diffs_bytes(s2.milestone_diffs@).len() as int,
                            ));
                        }
                        lemma_diffs_prefix_extend(diffs@, s2.milestone_diffs@, z3);
                        assert(diffs_bytes(diffs@).len() == pos - outputs_end);
                        assert(pos + 12 + s2.milestone_diffs@[k as int].1.bytes@.len()
                            <= outputs_end + diffs_bytes(s2.milestone_diffs@).len());
                        assert(spec_u64_to_le_bytes(
                            s2.milestone_diffs@[k as int].1.bytes@.len() as u64,
                        ) =~= bytes@.subrange(pos + 4, pos + 12)) by {
                            assert(spec_u64_to_le_bytes(
                                s2.milestone_diffs@[k as int].1.bytes@.len() as u64,
                            ) =~= z3.subrange(pos - outputs_end + 4, pos - outputs_end + 12));
                        }
                        assert(next_diff_fits(
                            bytes@,
                            s2.milestone_diffs@[k as int].1.bytes@.len() as int,
                            pos as int,
                        ));
                    }
                }
            }
            if total - pos < 12 {
                proof {
                    assert(!holds_valid_frame(bytes@)) by {
                        if holds_valid_frame(bytes@) {
                            let l0 = choose|l0: int| next_diff_fits(bytes@, l0, pos as int);
                            assert(false);
                        }
                    }
                }
                return Err(SnapshotError::UnexpectedEof);
            }
            let idx = read_u32_at(bytes, pos);
            let blen64 = read_u64_at(bytes, pos + 4);
            if blen64 > (total - (pos + 12)) as u64 {
                proof {
                    assert(!holds_valid_frame(bytes@)) by {
                        if holds_valid_frame(bytes@) {
                            let l0 = choose|l0: int| next_diff_fits(bytes@, l0, pos as int);
                            lemma_auto_spec_u64_to_from_le_bytes();
                            assert(spec_u64_to_le_bytes(blen64).len() == 8);
                            assert(blen64 == l0 as u64);
                            assert(false);
                        }
                    }
                }
                return Err(SnapshotError::UnexpectedEof);
            }
            let blen = blen64 as usize;
            let payload = read_blob_at(bytes, pos + 12, blen);
            let entry = (MilestoneIndex(idx), MilestoneDiff { bytes: payload });
            let ghost pre_diffs = diffs@;
            let ghost this_entry = entry;
            diffs.push(entry);
            proof {
                lemma_diffs_bytes_push(pre_diffs, this_entry);
                assert(diffs@ == pre_diffs.push(this_entry));
                assert(spec_u32_to_le_bytes(idx) + blob_bytes(this_entry.1.bytes@)
                    =~= bytes@.subrange(pos as int, pos + 12 + blen));
                assert(bytes@.subrange(outputs_end, pos + 12 + blen) =~= bytes@.subrange(
                    outputs_end,
                    pos as int,
                ) + bytes@.subrange(pos as int, pos + 12 + blen));
            }
            pos = pos + 12 + blen;
            k = k + 1;
        }
        let snapshot = Snapshot { header, solid_entry_points: seps, outputs, milestone_diffs: diffs };
        proof {
            assert(counts_bytes(snapshot) =~= bytes@.subrange(25, counts_end));
            assert(bytes@.subrange(0, pos as int) =~= bytes@.subrange(0, counts_end)
                + bytes@.subrange(counts_end, seps_end) + bytes@.subrange(seps_end, outputs_end)
                + bytes@.subrange(outputs_end, pos as int));
            assert(snapshot_bytes(snapshot) =~= bytes@.subrange(0, pos as int));
            assert(snapshot_bytes(snapshot) == bytes@.subrange(
                0,
                snapshot_bytes(snapshot).len() as int,
            ));
            assert(frame_sizes_fit(snapshot));
        }
        Ok(snapshot)
    }

    /// The number of bytes [`Self::pack`] produces for this snapshot.
    pub fn packed_len(&self) -> (r: usize)
        ensures
            r == snapshot_bytes(*self).len(),
    {
        self.pack().len()
    }
}

} // verus!
