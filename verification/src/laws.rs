//! General laws of the codec, stated and proved once over the whole model:
//! parsing inverts serialization, an empty patch changes nothing, streaming
//! application matches parse-then-apply, hunks take effect in sequence
//! order, and on overlap the later hunk wins.

use vstd::prelude::*;

use crate::io_util::lemma_u16_round_trip;
use crate::io_util::lemma_u24_round_trip;
use crate::io_util::u16_bytes_of;
use crate::io_util::u16_value_of;
use crate::io_util::u24_bytes_of;
use crate::io_util::u24_value_of;
use crate::ips::EOF_OFFSET;
use crate::ips::HunkModel;
use crate::ips::HunkStreamOutcome;
use crate::ips::PatchModel;
use crate::ips::PatchOutcome;
use crate::ips::eof_seq;
use crate::ips::header_seq;
use crate::ips::hunks_wire_bytes;
use crate::ips::outcome_with_prefix;
use crate::ips::patch_wire_bytes;
use crate::ips::spec_apply_hunk;
use crate::ips::spec_apply_hunks;
use crate::ips::spec_apply_patch;
use crate::ips::spec_parse_hunks;
use crate::ips::spec_parse_patch;
use crate::ips::spec_stream_apply;
use crate::ips::trunc_wire_bytes;

verus! {

/// When the bytes from `pos` on read `lead + tail`, the byte at `pos + k`
/// is `lead[k]` for every position inside `lead`.
proof fn lemma_lead_byte(b: Seq<u8>, pos: int, lead: Seq<u8>, tail: Seq<u8>, k: int)
    requires
        0 <= pos <= b.len(),
        b.subrange(pos, b.len() as int) == lead + tail,
        0 <= k < lead.len(),
    ensures
        b[pos + k] == lead[k],
{
    assert(b.subrange(pos, b.len() as int).len() == b.len() - pos);
    assert(b.subrange(pos, b.len() as int)[k] == b[pos + k]);
    assert((lead + tail)[k] == lead[k]);
}

/// When the bytes from `pos` on read `lead + tail`, the bytes after the
/// lead read exactly `tail`.
proof fn lemma_tail_bytes(b: Seq<u8>, pos: int, lead: Seq<u8>, tail: Seq<u8>)
    requires
        0 <= pos <= b.len(),
        b.subrange(pos, b.len() as int) == lead + tail,
    ensures
        b.subrange(pos + lead.len(), b.len() as int) == tail,
{
    let blen = b.len() as int;
    let w = lead.len() as int;
    assert(b.subrange(pos, blen).len() == blen - pos);
    assert((lead + tail).len() == blen - pos);
    assert forall|i: int| 0 <= i < tail.len() implies b.subrange(pos + w, blen)[i]
        == tail[i] by {
        assert(b.subrange(pos + w, blen)[i] == b[pos + w + i]);
        assert(b.subrange(pos, blen)[w + i] == b[pos + w + i]);
        assert((lead + tail)[w + i] == tail[i]);
    }
    assert(b.subrange(pos + w, blen) =~= tail);
}

/// Where each field of a regular hunk's wire encoding sits: three offset
/// bytes, two length bytes, then the payload.
proof fn lemma_regular_wire_fields(wire: Seq<u8>, offset: u32, length: u16, payload: Seq<u8>)
    requires
        wire == u24_bytes_of(offset) + u16_bytes_of(length) + payload,
    ensures
        wire.len() == 5 + payload.len(),
        wire[0] == u24_bytes_of(offset)[0],
        wire[1] == u24_bytes_of(offset)[1],
        wire[2] == u24_bytes_of(offset)[2],
        wire[3] == u16_bytes_of(length)[0],
        wire[4] == u16_bytes_of(length)[1],
        forall|i: int| 0 <= i < payload.len() ==> wire[5 + i] == payload[i],
{
    let a = u24_bytes_of(offset);
    let c = u16_bytes_of(length);
    assert(a.len() == 3 && c.len() == 2);
    assert((a + c)[0] == a[0] && (a + c)[1] == a[1] && (a + c)[2] == a[2]);
    assert((a + c)[3] == c[0] && (a + c)[4] == c[1]);
    assert(wire[0] == (a + c)[0] && wire[1] == (a + c)[1] && wire[2] == (a + c)[2]);
    assert(wire[3] == (a + c)[3] && wire[4] == (a + c)[4]);
    assert forall|i: int| 0 <= i < payload.len() implies wire[5 + i] == payload[i] by {
        assert(((a + c) + payload)[5 + i] == payload[i]);
    }
}

/// Where each field of an RLE hunk's wire encoding sits: three offset
/// bytes, the two-byte zero sentinel, two run-length bytes, and the
/// payload byte.
proof fn lemma_rle_wire_fields(wire: Seq<u8>, offset: u32, run_length: u16, payload: u8)
    requires
        wire == u24_bytes_of(offset) + u16_bytes_of(0) + u16_bytes_of(run_length)
            + seq![payload],
    ensures
        wire.len() == 8,
        wire[0] == u24_bytes_of(offset)[0],
        wire[1] == u24_bytes_of(offset)[1],
        wire[2] == u24_bytes_of(offset)[2],
        wire[3] == 0u8,
        wire[4] == 0u8,
        wire[5] == u16_bytes_of(run_length)[0],
        wire[6] == u16_bytes_of(run_length)[1],
        wire[7] == payload,
{
    let a = u24_bytes_of(offset);
    let z = u16_bytes_of(0);
    let r = u16_bytes_of(run_length);
    assert(a.len() == 3 && z.len() == 2 && r.len() == 2);
    assert(z[0] == 0u8 && z[1] == 0u8);
    assert((a + z)[0] == a[0] && (a + z)[1] == a[1] && (a + z)[2] == a[2]);
    assert((a + z)[3] == z[0] && (a + z)[4] == z[1]);
    assert(((a + z) + r)[0] == (a + z)[0] && ((a + z) + r)[1] == (a + z)[1]);
    assert(((a + z) + r)[2] == (a + z)[2] && ((a + z) + r)[3] == (a + z)[3]);
    assert(((a + z) + r)[4] == (a + z)[4]);
    assert(((a + z) + r)[5] == r[0] && ((a + z) + r)[6] == r[1]);
    assert(wire[0] == ((a + z) + r)[0] && wire[1] == ((a + z) + r)[1]);
    assert(wire[2] == ((a + z) + r)[2] && wire[3] == ((a + z) + r)[3]);
    assert(wire[4] == ((a + z) + r)[4] && wire[5] == ((a + z) + r)[5]);
    assert(wire[6] == ((a + z) + r)[6]);
    assert(wire[7] == seq![payload][0]);
}

/// Reading hunk records off the wire encoding of a run of well-formed
/// hunks gives back exactly that run and its truncate length: the
/// hunk-level half of the round trip.
pub proof fn lemma_parse_hunks_of_wire(
    b: Seq<u8>,
    pos: int,
    hunks: Seq<HunkModel>,
    truncate: Option<u32>,
)
    requires
        0 <= pos <= b.len(),
        b.subrange(pos, b.len() as int) == hunks_wire_bytes(hunks) + eof_seq()
            + trunc_wire_bytes(truncate),
        forall|i: int| 0 <= i < hunks.len() ==> (#[trigger] hunks[i]).wf(),
        truncate matches Some(t) ==> t < 0x1000000,
    ensures
        spec_parse_hunks(b, pos) == (HunkStreamOutcome::Complete { hunks, truncate }),
    decreases hunks.len(),
{
    let blen = b.len() as int;
    let rem = b.subrange(pos, blen);
    if hunks.len() == 0 {
        assert(hunks_wire_bytes(hunks) == Seq::<u8>::empty());
        assert(rem =~= eof_seq() + trunc_wire_bytes(truncate));
        lemma_lead_byte(b, pos, eof_seq(), trunc_wire_bytes(truncate), 0);
        lemma_lead_byte(b, pos, eof_seq(), trunc_wire_bytes(truncate), 1);
        lemma_lead_byte(b, pos, eof_seq(), trunc_wire_bytes(truncate), 2);
        assert(b[pos] == 0x45u8 && b[pos + 1] == 0x4Fu8 && b[pos + 2] == 0x46u8);
        assert(u24_value_of(0x45u8, 0x4Fu8, 0x46u8) == EOF_OFFSET);
        assert(hunks =~= Seq::<HunkModel>::empty());
        match truncate {
            None => {
                assert(rem.len() == 3);
            },
            Some(t) => {
                assert(rem.len() == 6);
                lemma_tail_bytes(b, pos, eof_seq(), u24_bytes_of(t));
                let tr = b.subrange(pos + 3, blen);
                assert(tr[0] == b[pos + 3] && tr[1] == b[pos + 4] && tr[2] == b[pos + 5]);
                assert(b[pos + 3] == u24_bytes_of(t)[0]);
                assert(b[pos + 4] == u24_bytes_of(t)[1]);
                assert(b[pos + 5] == u24_bytes_of(t)[2]);
                lemma_u24_round_trip(t);
            },
        }
    } else {
        let h = hunks[0];
        assert(h.wf());
        let wire = h.wire_bytes();
        let tail = hunks_wire_bytes(hunks.skip(1)) + eof_seq() + trunc_wire_bytes(truncate);
        assert(hunks_wire_bytes(hunks) == wire + hunks_wire_bytes(hunks.skip(1)));
        assert(rem =~= wire + tail);
        assert(tail.len() >= 3);
        assert forall|i: int| 0 <= i < hunks.skip(1).len() implies (#[trigger] hunks.skip(1)[
            i
        ]).wf() by {
            assert(hunks.skip(1)[i] == hunks[i + 1]);
        }
        match h {
            HunkModel::Regular { offset, length, payload } => {
                lemma_regular_wire_fields(wire, offset, length, payload);
                lemma_lead_byte(b, pos, wire, tail, 0);
                lemma_lead_byte(b, pos, wire, tail, 1);
                lemma_lead_byte(b, pos, wire, tail, 2);
                lemma_lead_byte(b, pos, wire, tail, 3);
                lemma_lead_byte(b, pos, wire, tail, 4);
                lemma_u24_round_trip(offset);
                assert(u24_value_of(b[pos], b[pos + 1], b[pos + 2]) == offset);
                lemma_u16_round_trip(length);
                assert(u16_value_of(b[pos + 3], b[pos + 4]) == length);
                let next = pos + 5 + length;
                assert(next <= blen);
                assert forall|i: int| 0 <= i < length implies b.subrange(pos + 5, next)[i]
                    == payload[i] by {
                    assert(b.subrange(pos + 5, next)[i] == b[pos + 5 + i]);
                    lemma_lead_byte(b, pos, wire, tail, 5 + i);
                }
                assert(b.subrange(pos + 5, next) =~= payload);
                lemma_tail_bytes(b, pos, wire, tail);
                lemma_parse_hunks_of_wire(b, next, hunks.skip(1), truncate);
                assert(spec_parse_hunks(b, pos) == outcome_with_prefix(
                    seq![h],
                    HunkStreamOutcome::Complete { hunks: hunks.skip(1), truncate },
                ));
                assert(seq![h] + hunks.skip(1) =~= hunks);
            },
            HunkModel::RLE { offset, run_length, payload } => {
                lemma_rle_wire_fields(wire, offset, run_length, payload);
                lemma_lead_byte(b, pos, wire, tail, 0);
                lemma_lead_byte(b, pos, wire, tail, 1);
                lemma_lead_byte(b, pos, wire, tail, 2);
                lemma_lead_byte(b, pos, wire, tail, 3);
                lemma_lead_byte(b, pos, wire, tail, 4);
                lemma_lead_byte(b, pos, wire, tail, 5);
                lemma_lead_byte(b, pos, wire, tail, 6);
                lemma_lead_byte(b, pos, wire, tail, 7);
                lemma_u24_round_trip(offset);
                assert(u24_value_of(b[pos], b[pos + 1], b[pos + 2]) == offset);
                assert(u16_value_of(b[pos + 3], b[pos + 4]) == 0);
                lemma_u16_round_trip(run_length);
                assert(u16_value_of(b[pos + 5], b[pos + 6]) == run_length);
                assert(b[pos + 7] == payload);
                let next = pos + 8;
                assert(next <= blen);
                lemma_tail_bytes(b, pos, wire, tail);
                lemma_parse_hunks_of_wire(b, next, hunks.skip(1), truncate);
                assert(spec_parse_hunks(b, pos) == outcome_with_prefix(
                    seq![h],
                    HunkStreamOutcome::Complete { hunks: hunks.skip(1), truncate },
                ));
                assert(seq![h] + hunks.skip(1) =~= hunks);
            },
        }
    }
}

/// The round trip: parsing the serialization of any well-formed patch
/// gives back exactly that patch. Well-formedness is what the wire format
/// can carry: 24-bit offsets that avoid the reserved `EOF` marker value, a
/// nonzero length on every regular hunk (zero is the RLE sentinel), and a
/// 24-bit truncate length.
pub proof fn lemma_serialize_parse_round_trip(patch: PatchModel)
    requires
        patch.wf(),
    ensures
        spec_parse_patch(patch_wire_bytes(patch), 0) == (PatchOutcome::Parsed { patch }),
{
    let b = patch_wire_bytes(patch);
    let tail = hunks_wire_bytes(patch.hunks) + eof_seq() + trunc_wire_bytes(patch.truncate);
    assert(b == header_seq() + tail);
    assert(b.subrange(0, b.len() as int) =~= header_seq() + tail);
    lemma_lead_byte(b, 0, header_seq(), tail, 0);
    lemma_lead_byte(b, 0, header_seq(), tail, 1);
    lemma_lead_byte(b, 0, header_seq(), tail, 2);
    lemma_lead_byte(b, 0, header_seq(), tail, 3);
    lemma_lead_byte(b, 0, header_seq(), tail, 4);
    assert(b.subrange(0, 5) =~= header_seq());
    lemma_tail_bytes(b, 0, header_seq(), tail);
    lemma_parse_hunks_of_wire(b, 5, patch.hunks, patch.truncate);
    assert(patch == (PatchModel { hunks: patch.hunks, truncate: patch.truncate }));
}

/// Applying the empty patch — no hunks, no truncate length — leaves any
/// target's bytes unchanged.
pub proof fn lemma_empty_patch_applies_unchanged(t: Seq<u8>)
    ensures
        spec_apply_patch(t, PatchModel::empty()) == t,
{
    assert(spec_apply_hunks(t, Seq::<HunkModel>::empty()) == t);
}

/// Streaming application and parse-then-apply agree: whenever the document
/// parses, the bytes a streaming application leaves in the target are
/// exactly the bytes that applying the parsed patch leaves.
pub proof fn lemma_stream_apply_matches_parse_then_apply(bytes: Seq<u8>, pos: int, t: Seq<u8>)
    requires
        spec_parse_patch(bytes, pos) is Parsed,
    ensures
        spec_stream_apply(bytes, pos, t) == spec_apply_patch(
            t,
            spec_parse_patch(bytes, pos)->patch,
        ),
{
}

/// Hunks take effect strictly in sequence order: applying two runs of
/// hunks one after the other is applying their concatenation.
pub proof fn lemma_hunks_apply_in_sequence(t: Seq<u8>, first: Seq<HunkModel>, second: Seq<
    HunkModel,
>)
    ensures
        spec_apply_hunks(t, first + second) == spec_apply_hunks(
            spec_apply_hunks(t, first),
            second,
        ),
    decreases first.len(),
{
    if first.len() == 0 {
        assert(first + second =~= second);
        assert(spec_apply_hunks(t, first) == t);
    } else {
        assert((first + second)[0] == first[0]);
        assert((first + second).skip(1) =~= first.skip(1) + second);
        lemma_hunks_apply_in_sequence(spec_apply_hunk(t, first[0]), first.skip(1), second);
    }
}

/// When two hunks overlap, the later hunk's bytes are the ones observed
/// afterward: at every position the later hunk writes, the target holds
/// the later hunk's byte, whatever the earlier hunk wrote there.
pub proof fn lemma_later_hunk_overwrites(
    t: Seq<u8>,
    earlier: HunkModel,
    later: HunkModel,
    i: int,
)
    requires
        later.offset() <= i < later.offset() + later.fill_bytes().len(),
    ensures
        i < spec_apply_hunks(t, seq![earlier, later]).len(),
        spec_apply_hunks(t, seq![earlier, later])[i] == later.fill_bytes()[i - later.offset()],
{
    let two = seq![earlier, later];
    let one = seq![later];
    let after_first = spec_apply_hunk(t, earlier);
    assert(two[0] == earlier);
    assert(two.skip(1) =~= one);
    assert(one[0] == later);
    assert(one.skip(1) =~= Seq::<HunkModel>::empty());
    assert(spec_apply_hunks(t, two) == spec_apply_hunks(after_first, one));
    assert(spec_apply_hunks(after_first, one) == spec_apply_hunks(
        spec_apply_hunk(after_first, later),
        Seq::<HunkModel>::empty(),
    ));
    assert(spec_apply_hunks(t, two) == spec_apply_hunk(after_first, later));
}

} // verus!
