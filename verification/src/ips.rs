//! The IPS patch format: hunks, the patch container, parsing, serializing,
//! and applying.
//!
//! A patch document is the five-byte signature `PATCH`, a run of hunk
//! records, the three-byte marker `EOF`, and optionally a three-byte
//! truncate length. A hunk record is a 24-bit big-endian offset, a 16-bit
//! length field, and either that many payload bytes (a regular hunk), or —
//! when the length field is the reserved zero sentinel — a 16-bit run length
//! and a single byte to repeat (an RLE hunk).

use vstd::prelude::*;

use crate::err::Error;
use crate::io_util::ByteReader;
use crate::io_util::from_u24_be_bytes;
use crate::io_util::Target;
use crate::io_util::parsing_error_with;
use crate::io_util::spec_truncate_to;
use crate::io_util::spec_write_at;
use crate::io_util::u16_bytes_of;
use crate::io_util::u16_value_of;
use crate::io_util::u24_bytes_of;
use crate::io_util::u24_value_of;

verus! {

/// The value of the reserved `EOF` marker when read as a 24-bit offset. The
/// format reserves it: no hunk may legitimately start at this offset.
pub const EOF_OFFSET: u32 = 0x454F46;

/// The five signature bytes `PATCH` that open every patch document.
pub open spec fn header_seq() -> Seq<u8> {
    seq![0x50u8, 0x41u8, 0x54u8, 0x43u8, 0x48u8]
}

/// The three marker bytes `EOF` that close the hunk records.
pub open spec fn eof_seq() -> Seq<u8> {
    seq![0x45u8, 0x4Fu8, 0x46u8]
}

/// The mathematical value of a hunk: what the executable hunk types stand
/// for in every contract.
pub enum HunkModel {
    /// A byte-range overwrite: `payload` is written at `offset`.
    Regular { offset: u32, length: u16, payload: Seq<u8> },
    /// A run-length fill: `payload` is written `run_length` times at
    /// `offset`.
    RLE { offset: u32, run_length: u16, payload: u8 },
}

/// The mathematical value of a patch: its hunks in apply order, and the
/// optional truncate length.
pub struct PatchModel {
    /// The hunks, in the order they are applied.
    pub hunks: Seq<HunkModel>,
    /// The length to clamp the target to after all hunks are applied.
    pub truncate: Option<u32>,
}

impl HunkModel {
    /// The offset at which the hunk writes.
    pub open spec fn offset(self) -> u32 {
        match self {
            HunkModel::Regular { offset, .. } => offset,
            HunkModel::RLE { offset, .. } => offset,
        }
    }

    /// The bytes the hunk writes at its offset: the payload itself for a
    /// regular hunk, the payload byte repeated `run_length` times for an
    /// RLE hunk.
    pub open spec fn fill_bytes(self) -> Seq<u8> {
        match self {
            HunkModel::Regular { payload, .. } => payload,
            HunkModel::RLE { run_length, payload, .. } => Seq::new(
                run_length as nat,
                |i: int| payload,
            ),
        }
    }

    /// Structural validity: the offset fits in 24 bits and is not the
    /// reserved `EOF` marker value, and a regular hunk's length field is
    /// nonzero (zero is the sentinel that marks an RLE hunk) and matches
    /// its payload.
    pub open spec fn wf(self) -> bool {
        match self {
            HunkModel::Regular { offset, length, payload } => {
                &&& offset < 0x1000000
                &&& offset != EOF_OFFSET
                &&& length != 0
                &&& payload.len() == length
            },
            HunkModel::RLE { offset, .. } => {
                &&& offset < 0x1000000
                &&& offset != EOF_OFFSET
            },
        }
    }

    /// The hunk's write range stays within the address space of the
    /// machine. Every well-formed hunk fits.
    pub open spec fn fits(self) -> bool {
        self.offset() + self.fill_bytes().len() <= usize::MAX
    }

    /// The wire encoding of the hunk.
    pub open spec fn wire_bytes(self) -> Seq<u8> {
        match self {
            HunkModel::Regular { offset, length, payload } => u24_bytes_of(offset)
                + u16_bytes_of(length) + payload,
            HunkModel::RLE { offset, run_length, payload } => u24_bytes_of(offset)
                + u16_bytes_of(0) + u16_bytes_of(run_length) + seq![payload],
        }
    }
}

impl PatchModel {
    /// Structural validity: every hunk is well formed and the truncate
    /// length, where present, fits in 24 bits.
    pub open spec fn wf(self) -> bool {
        &&& forall|i: int| 0 <= i < self.hunks.len() ==> (#[trigger] self.hunks[i]).wf()
        &&& self.truncate matches Some(t) ==> t < 0x1000000
    }

    /// Every hunk's write range stays within the address space of the
    /// machine.
    pub open spec fn fits(self) -> bool {
        forall|i: int| 0 <= i < self.hunks.len() ==> (#[trigger] self.hunks[i]).fits()
    }

    /// The patch with no hunks and no truncate length.
    pub open spec fn empty() -> PatchModel {
        PatchModel { hunks: Seq::empty(), truncate: None }
    }
}

/// The wire encoding of a run of hunks, first hunk first.
pub open spec fn hunks_wire_bytes(hunks: Seq<HunkModel>) -> Seq<u8>
    decreases hunks.len(),
{
    if hunks.len() == 0 {
        Seq::empty()
    } else {
        hunks[0].wire_bytes() + hunks_wire_bytes(hunks.skip(1))
    }
}

/// The wire encoding of the optional truncate length: its three big-endian
/// bytes where it is present, nothing where it is absent.
pub open spec fn trunc_wire_bytes(truncate: Option<u32>) -> Seq<u8> {
    match truncate {
        Some(t) => u24_bytes_of(t),
        None => Seq::empty(),
    }
}

/// The wire encoding of a whole patch document: signature, hunk records,
/// `EOF` marker, and the truncate length where one is present.
pub open spec fn patch_wire_bytes(patch: PatchModel) -> Seq<u8> {
    header_seq() + hunks_wire_bytes(patch.hunks) + eof_seq() + trunc_wire_bytes(patch.truncate)
}

/// Appending one hunk's encoding extends the encoding of a run of hunks.
pub proof fn lemma_hunks_wire_bytes_push(hunks: Seq<HunkModel>, h: HunkModel)
    ensures
        hunks_wire_bytes(hunks.push(h)) == hunks_wire_bytes(hunks) + h.wire_bytes(),
    decreases hunks.len(),
{
    let p = hunks.push(h);
    if hunks.len() == 0 {
        assert(p[0] == h);
        assert(p.skip(1) =~= Seq::<HunkModel>::empty());
        assert(hunks_wire_bytes(p.skip(1)) == Seq::<u8>::empty());
        assert(hunks_wire_bytes(p) == p[0].wire_bytes() + hunks_wire_bytes(p.skip(1)));
        assert(hunks_wire_bytes(p) =~= hunks_wire_bytes(hunks) + h.wire_bytes());
    } else {
        assert(p[0] == hunks[0]);
        assert(p.skip(1) =~= hunks.skip(1).push(h));
        lemma_hunks_wire_bytes_push(hunks.skip(1), h);
        assert(hunks_wire_bytes(p) == p[0].wire_bytes() + hunks_wire_bytes(p.skip(1)));
        assert(hunks_wire_bytes(hunks) == hunks[0].wire_bytes() + hunks_wire_bytes(
            hunks.skip(1),
        ));
        assert(hunks_wire_bytes(p) =~= hunks_wire_bytes(hunks) + h.wire_bytes());
    }
}

/// Which field or step of a parse failed.
pub enum ParseFailure {
    /// Fewer than five bytes where the signature belongs.
    HeaderShort,
    /// Five bytes were read where the signature belongs, but they are not
    /// `PATCH`.
    HeaderMismatch,
    /// Fewer than three bytes where a hunk offset belongs.
    OffsetShort,
    /// Fewer than two bytes where a hunk's length field belongs.
    LengthShort,
    /// Fewer than two bytes where an RLE hunk's run length belongs.
    RunLengthShort,
    /// No byte where an RLE hunk's payload belongs.
    RunPayloadShort,
    /// Fewer payload bytes than a regular hunk's length field announced.
    PayloadShort,
    /// One or two bytes after the `EOF` marker: too short for a truncate
    /// length, but not a clean end of input.
    TruncateShort,
}

/// The description carried by the parsing error each failure raises.
pub open spec fn failure_message(f: ParseFailure) -> Seq<char> {
    match f {
        ParseFailure::HeaderShort => "Unable to parse header."@,
        ParseFailure::HeaderMismatch => "Invalid header."@,
        ParseFailure::OffsetShort => "Unable to parse offset."@,
        ParseFailure::LengthShort => "Unable to read length."@,
        ParseFailure::RunLengthShort => "Unable to read RLE run length."@,
        ParseFailure::RunPayloadShort => "Unable to read RLE payload."@,
        ParseFailure::PayloadShort => "Unable to read payload."@,
        ParseFailure::TruncateShort => "Unable to read truncate."@,
    }
}

/// The outcome of reading hunk records from a position until the `EOF`
/// marker: either the complete run with the optional truncate length, or a
/// failure together with the hunks that were decoded before it.
pub enum HunkStreamOutcome {
    /// The hunk records up to the `EOF` marker, and the truncate length.
    Complete { hunks: Seq<HunkModel>, truncate: Option<u32> },
    /// The parse failed; `prefix` holds the hunks decoded before that.
    Failed { failure: ParseFailure, prefix: Seq<HunkModel> },
}

/// Prepends already-decoded hunks to the outcome of reading the rest.
pub open spec fn outcome_with_prefix(
    pre: Seq<HunkModel>,
    o: HunkStreamOutcome,
) -> HunkStreamOutcome {
    match o {
        HunkStreamOutcome::Complete { hunks, truncate } => HunkStreamOutcome::Complete {
            hunks: pre + hunks,
            truncate,
        },
        HunkStreamOutcome::Failed { failure, prefix } => HunkStreamOutcome::Failed {
            failure,
            prefix: pre + prefix,
        },
    }
}

/// What reading hunk records from `bytes` at `pos` yields: the single
/// linear pass of the format's state machine, after the signature. At each
/// record it reads a 24-bit offset — the reserved `EOF` value ends the run
/// and is followed by a 3-byte truncate length, or by nothing — then the
/// 16-bit length field, which selects the regular decoding when nonzero and
/// the RLE decoding when zero.
pub open spec fn spec_parse_hunks(bytes: Seq<u8>, pos: int) -> HunkStreamOutcome
    decreases bytes.len() - pos,
{
    if pos + 3 > bytes.len() {
        HunkStreamOutcome::Failed { failure: ParseFailure::OffsetShort, prefix: Seq::empty() }
    } else {
        let offset = u24_value_of(bytes[pos], bytes[pos + 1], bytes[pos + 2]);
        if offset == EOF_OFFSET {
            if pos + 3 == bytes.len() {
                HunkStreamOutcome::Complete { hunks: Seq::empty(), truncate: None }
            } else if pos + 6 <= bytes.len() {
                HunkStreamOutcome::Complete {
                    hunks: Seq::empty(),
                    truncate: Some(u24_value_of(bytes[pos + 3], bytes[pos + 4], bytes[pos + 5])),
                }
            } else {
                HunkStreamOutcome::Failed {
                    failure: ParseFailure::TruncateShort,
                    prefix: Seq::empty(),
                }
            }
        } else if pos + 5 > bytes.len() {
            HunkStreamOutcome::Failed {
                failure: ParseFailure::LengthShort,
                prefix: Seq::empty(),
            }
        } else {
            let length = u16_value_of(bytes[pos + 3], bytes[pos + 4]);
            if length == 0 {
                if pos + 7 > bytes.len() {
                    HunkStreamOutcome::Failed {
                        failure: ParseFailure::RunLengthShort,
                        prefix: Seq::empty(),
                    }
                } else if pos + 8 > bytes.len() {
                    HunkStreamOutcome::Failed {
                        failure: ParseFailure::RunPayloadShort,
                        prefix: Seq::empty(),
                    }
                } else {
                    let h = HunkModel::RLE {
                        offset,
                        run_length: u16_value_of(bytes[pos + 5], bytes[pos + 6]),
                        payload: bytes[pos + 7],
                    };
                    outcome_with_prefix(seq![h], spec_parse_hunks(bytes, pos + 8))
                }
            } else {
                if pos + 5 + length > bytes.len() {
                    HunkStreamOutcome::Failed {
                        failure: ParseFailure::PayloadShort,
                        prefix: Seq::empty(),
                    }
                } else {
                    let h = HunkModel::Regular {
                        offset,
                        length,
                        payload: bytes.subrange(pos + 5, pos + 5 + length),
                    };
                    outcome_with_prefix(seq![h], spec_parse_hunks(bytes, pos + 5 + length))
                }
            }
        }
    }
}

/// Prepending no hunks changes no outcome.
pub proof fn lemma_outcome_prefix_empty(o: HunkStreamOutcome)
    ensures
        outcome_with_prefix(Seq::empty(), o) == o,
{
    match o {
        HunkStreamOutcome::Complete { hunks, truncate } => {
            assert(Seq::empty() + hunks =~= hunks);
        },
        HunkStreamOutcome::Failed { failure, prefix } => {
            assert(Seq::empty() + prefix =~= prefix);
        },
    }
}

/// Prepending hunks one batch at a time is the same as prepending them at
/// once.
pub proof fn lemma_outcome_prefix_push(pre: Seq<HunkModel>, h: HunkModel, o: HunkStreamOutcome)
    ensures
        outcome_with_prefix(pre, outcome_with_prefix(seq![h], o)) == outcome_with_prefix(
            pre.push(h),
            o,
        ),
{
    match o {
        HunkStreamOutcome::Complete { hunks, truncate } => {
            assert(pre + (seq![h] + hunks) =~= pre.push(h) + hunks);
        },
        HunkStreamOutcome::Failed { failure, prefix } => {
            assert(pre + (seq![h] + prefix) =~= pre.push(h) + prefix);
        },
    }
}

/// Every hunk that the parse decodes is well formed, and a parsed truncate
/// length fits in 24 bits: offsets and lengths come off the wire in 24 and
/// 16 bits, the reserved offset ends the run, and a zero length field never
/// produces a regular hunk.
pub proof fn lemma_parse_hunks_wf(bytes: Seq<u8>, pos: int)
    requires
        0 <= pos,
    ensures
        spec_parse_hunks(bytes, pos) matches HunkStreamOutcome::Complete { hunks, truncate }
            ==> (forall|i: int| 0 <= i < hunks.len() ==> (#[trigger] hunks[i]).wf())
            && (truncate matches Some(t) ==> t < 0x1000000),
        spec_parse_hunks(bytes, pos) matches HunkStreamOutcome::Failed { prefix, .. }
            ==> forall|i: int| 0 <= i < prefix.len() ==> (#[trigger] prefix[i]).wf(),
    decreases bytes.len() - pos,
{
    if pos + 3 > bytes.len() {
    } else {
        let offset = u24_value_of(bytes[pos], bytes[pos + 1], bytes[pos + 2]);
        assert(offset < 0x1000000);
        if offset == EOF_OFFSET {
        } else if pos + 5 > bytes.len() {
        } else {
            let length = u16_value_of(bytes[pos + 3], bytes[pos + 4]);
            if length == 0 {
                if pos + 8 <= bytes.len() {
                    let h = HunkModel::RLE {
                        offset,
                        run_length: u16_value_of(bytes[pos + 5], bytes[pos + 6]),
                        payload: bytes[pos + 7],
                    };
                    assert(h.wf());
                    lemma_parse_hunks_wf(bytes, pos + 8);
                    lemma_prefix_keeps_wf(h, spec_parse_hunks(bytes, pos + 8));
                }
            } else {
                if pos + 5 + length <= bytes.len() {
                    let h = HunkModel::Regular {
                        offset,
                        length,
                        payload: bytes.subrange(pos + 5, pos + 5 + length),
                    };
                    assert(h.wf());
                    lemma_parse_hunks_wf(bytes, pos + 5 + length);
                    lemma_prefix_keeps_wf(h, spec_parse_hunks(bytes, pos + 5 + length));
                }
            }
        }
    }
}

/// Prepending a well-formed hunk to an outcome whose hunks are all well
/// formed keeps every hunk well formed.
proof fn lemma_prefix_keeps_wf(h: HunkModel, o: HunkStreamOutcome)
    requires
        h.wf(),
        o matches HunkStreamOutcome::Complete { hunks, .. } ==> forall|i: int|
            0 <= i < hunks.len() ==> (#[trigger] hunks[i]).wf(),
        o matches HunkStreamOutcome::Failed { prefix, .. } ==> forall|i: int|
            0 <= i < prefix.len() ==> (#[trigger] prefix[i]).wf(),
    ensures
        outcome_with_prefix(seq![h], o) matches HunkStreamOutcome::Complete { hunks, .. }
            ==> forall|i: int| 0 <= i < hunks.len() ==> (#[trigger] hunks[i]).wf(),
        outcome_with_prefix(seq![h], o) matches HunkStreamOutcome::Failed { prefix, .. }
            ==> forall|i: int| 0 <= i < prefix.len() ==> (#[trigger] prefix[i]).wf(),
        outcome_with_prefix(seq![h], o) matches HunkStreamOutcome::Complete { truncate, .. }
            ==> (o matches HunkStreamOutcome::Complete { truncate: t0, .. } && truncate == t0),
{
    match o {
        HunkStreamOutcome::Complete { hunks, truncate } => {
            let all = seq![h] + hunks;
            assert forall|i: int| 0 <= i < all.len() implies (#[trigger] all[i]).wf() by {
                if i == 0 {
                    assert(all[0] == h);
                } else {
                    assert(all[i] == hunks[i - 1]);
                }
            }
        },
        HunkStreamOutcome::Failed { failure, prefix } => {
            let all = seq![h] + prefix;
            assert forall|i: int| 0 <= i < all.len() implies (#[trigger] all[i]).wf() by {
                if i == 0 {
                    assert(all[0] == h);
                } else {
                    assert(all[i] == prefix[i - 1]);
                }
            }
        },
    }
}

/// The outcome of parsing a whole patch document.
pub enum PatchOutcome {
    /// The document parsed; `patch` is its value.
    Parsed { patch: PatchModel },
    /// The parse failed; `prefix` holds the hunks decoded before that.
    Failed { failure: ParseFailure, prefix: Seq<HunkModel> },
}

/// What parsing a whole patch document from `bytes` at `pos` yields: the
/// five-byte signature is checked first — a short read and a mismatch are
/// distinct failures — then the hunk records are read until the `EOF`
/// marker.
pub open spec fn spec_parse_patch(bytes: Seq<u8>, pos: int) -> PatchOutcome {
    if pos + 5 > bytes.len() {
        PatchOutcome::Failed { failure: ParseFailure::HeaderShort, prefix: Seq::empty() }
    } else if bytes.subrange(pos, pos + 5) != header_seq() {
        PatchOutcome::Failed { failure: ParseFailure::HeaderMismatch, prefix: Seq::empty() }
    } else {
        match spec_parse_hunks(bytes, pos + 5) {
            HunkStreamOutcome::Complete { hunks, truncate } => PatchOutcome::Parsed {
                patch: PatchModel { hunks, truncate },
            },
            HunkStreamOutcome::Failed { failure, prefix } => PatchOutcome::Failed {
                failure,
                prefix,
            },
        }
    }
}

/// How applying one hunk transforms the bytes of a target.
pub open spec fn spec_apply_hunk(t: Seq<u8>, h: HunkModel) -> Seq<u8> {
    spec_write_at(t, h.offset() as int, h.fill_bytes())
}

/// How applying a run of hunks, strictly in sequence order, transforms the
/// bytes of a target.
pub open spec fn spec_apply_hunks(t: Seq<u8>, hunks: Seq<HunkModel>) -> Seq<u8>
    decreases hunks.len(),
{
    if hunks.len() == 0 {
        t
    } else {
        spec_apply_hunks(spec_apply_hunk(t, hunks[0]), hunks.skip(1))
    }
}

/// How applying a whole patch transforms the bytes of a target: every hunk
/// in sequence order, then the clamp to the truncate length where one is
/// present.
pub open spec fn spec_apply_patch(t: Seq<u8>, patch: PatchModel) -> Seq<u8> {
    match patch.truncate {
        Some(n) => spec_truncate_to(spec_apply_hunks(t, patch.hunks), n),
        None => spec_apply_hunks(t, patch.hunks),
    }
}

/// Applying one more hunk after a run is applying the longer run: the
/// hunks take effect strictly in sequence order.
pub proof fn lemma_apply_hunks_push(t: Seq<u8>, hunks: Seq<HunkModel>, h: HunkModel)
    ensures
        spec_apply_hunks(t, hunks.push(h)) == spec_apply_hunk(spec_apply_hunks(t, hunks), h),
    decreases hunks.len(),
{
    let p = hunks.push(h);
    if hunks.len() == 0 {
        assert(p[0] == h);
        assert(p.skip(1) =~= Seq::<HunkModel>::empty());
        assert(spec_apply_hunks(spec_apply_hunk(t, h), p.skip(1)) == spec_apply_hunk(t, h));
    } else {
        assert(p[0] == hunks[0]);
        assert(p.skip(1) =~= hunks.skip(1).push(h));
        lemma_apply_hunks_push(spec_apply_hunk(t, hunks[0]), hunks.skip(1), h);
    }
}

/// A well-formed hunk's write range stays within the address space of the
/// machine: its offset fits in 24 bits and it writes at most 65535 bytes.
pub proof fn lemma_wf_hunk_fits(h: HunkModel)
    requires
        h.wf(),
    ensures
        h.fits(),
{
    assert(h.fill_bytes().len() <= 0xffff);
    assert(usize::MAX >= 0xffffffff);
}

/// What streaming application of the document at `bytes[pos..]` leaves in a
/// target that held `t`: the full patch effect when the document parses,
/// and the effect of exactly the hunks decoded before the failure when it
/// does not (the truncate step never runs on a failed parse).
pub open spec fn spec_stream_apply(bytes: Seq<u8>, pos: int, t: Seq<u8>) -> Seq<u8> {
    match spec_parse_patch(bytes, pos) {
        PatchOutcome::Parsed { patch } => spec_apply_patch(t, patch),
        PatchOutcome::Failed { prefix, .. } => spec_apply_hunks(t, prefix),
    }
}

/// The signature bytes `PATCH` as a vector.
fn header_vec() -> (r: Vec<u8>)
    ensures
        r@ == header_seq(),
{
    let mut r: Vec<u8> = Vec::new();
    r.push(0x50);
    r.push(0x41);
    r.push(0x54);
    r.push(0x43);
    r.push(0x48);
    assert(r@ =~= header_seq());
    r
}

/// A regular hunk: a 24-bit offset, a 16-bit payload length, and the
/// payload bytes themselves. Applying it writes the payload at the offset.
#[derive(Debug, PartialEq)]
pub struct IPSRegularHunkData {
    /// The offset at which the payload is written.
    pub offset: u32,
    /// The length of the payload.
    pub length: u16,
    /// The bytes written at the offset.
    pub payload: Vec<u8>,
}

/// An RLE hunk: a 24-bit offset, a 16-bit run length, and one payload byte.
/// On the wire its length field is the zero sentinel. Applying it writes
/// the payload byte `run_length` times at the offset.
#[derive(Debug, PartialEq)]
pub struct IPSRLEHunkData {
    /// The offset at which the run is written.
    pub offset: u32,
    /// How many times the payload byte is written.
    pub run_length: u16,
    /// The byte repeated `run_length` times.
    pub payload: u8,
}

/// What one step of the hunk-reading loop produced: a decoded hunk, or the
/// `EOF` marker with the optional truncate length that follows it.
enum ReadHunkResult {
    /// A hunk record was decoded.
    Hunk(IPSHunk),
    /// The `EOF` marker was read; the run of hunks is over.
    EOF(Option<u32>),
}

impl IPSRegularHunkData {
    /// Reads the payload of a regular hunk whose `offset` and nonzero
    /// `length` field have already been read, and builds the hunk.
    fn read(reader: &mut ByteReader, offset: u32, length: u16) -> (r: Result<IPSHunk, Error>)
        requires
            old(reader).wf(),
        ensures
            final(reader).wf(),
            final(reader).data@ == old(reader).data@,
            old(reader).pos + length <= old(reader).data@.len() ==> {
                &&& r matches Ok(h) && h@ == (HunkModel::Regular {
                    offset,
                    length,
                    payload: old(reader).data@.subrange(
                        old(reader).pos as int,
                        old(reader).pos + length,
                    ),
                })
                &&& final(reader).pos == old(reader).pos + length
            },
            old(reader).pos + length > old(reader).data@.len() ==> (r matches Err(e)
                && parsing_error_with(e, failure_message(ParseFailure::PayloadShort))),
    {
        let payload = reader.read_exact(length as usize, "Unable to read payload.".to_owned())?;
        Ok(IPSHunk::Regular(IPSRegularHunkData { offset, length, payload }))
    }

    /// Applies the hunk to `target`: seeks to the hunk's offset and writes
    /// the payload bytes there.
    fn apply(&self, target: &mut Target) -> (r: Result<(), Error>)
        requires
            self@.fits(),
        ensures
            r matches Ok(v) && v == (),
            final(target).data@ == spec_apply_hunk(old(target).data@, self@),
            final(target).pos == self.offset + self.payload@.len(),
    {
        target.seek(self.offset);
        target.write_all(self.payload.as_slice());
        Ok(())
    }

    /// Appends the hunk's wire encoding to `writer`: offset, length, and
    /// the payload bytes.
    fn write(&self, writer: &mut Vec<u8>)
        ensures
            final(writer)@ == old(writer)@ + self@.wire_bytes(),
    {
        let ghost start = writer@;
        writer.push((self.offset / 0x10000 % 0x100) as u8);
        writer.push((self.offset / 0x100 % 0x100) as u8);
        writer.push((self.offset % 0x100) as u8);
        writer.push((self.length / 0x100) as u8);
        writer.push((self.length % 0x100) as u8);
        assert(writer@ =~= start + u24_bytes_of(self.offset) + u16_bytes_of(self.length)
            + self.payload@.subrange(0, 0));
        let n = self.payload.len();
        let mut i: usize = 0;
        while i < n
            invariant
                n == self.payload@.len(),
                i <= n,
                writer@ == start + u24_bytes_of(self.offset) + u16_bytes_of(self.length)
                    + self.payload@.subrange(0, i as int),
            decreases n - i,
        {
            writer.push(self.payload[i]);
            assert(writer@ =~= start + u24_bytes_of(self.offset) + u16_bytes_of(self.length)
                + self.payload@.subrange(0, i + 1));
            i = i + 1;
        }
        assert(self.payload@.subrange(0, n as int) =~= self.payload@);
        assert(writer@ =~= start + self@.wire_bytes());
    }
}

impl IPSRLEHunkData {
    /// Reads the run length and payload byte of an RLE hunk whose `offset`
    /// and zero length field have already been read, and builds the hunk.
    fn read(reader: &mut ByteReader, offset: u32) -> (r: Result<IPSHunk, Error>)
        requires
            old(reader).wf(),
        ensures
            final(reader).wf(),
            final(reader).data@ == old(reader).data@,
            old(reader).pos + 3 <= old(reader).data@.len() ==> {
                &&& r matches Ok(h) && h@ == (HunkModel::RLE {
                    offset,
                    run_length: u16_value_of(
                        old(reader).data@[old(reader).pos as int],
                        old(reader).data@[old(reader).pos + 1],
                    ),
                    payload: old(reader).data@[old(reader).pos + 2],
                })
                &&& final(reader).pos == old(reader).pos + 3
            },
            old(reader).pos + 2 > old(reader).data@.len() ==> (r matches Err(e)
                && parsing_error_with(e, failure_message(ParseFailure::RunLengthShort))),
            old(reader).pos + 2 <= old(reader).data@.len() && old(reader).pos + 3 > old(
                reader,
            ).data@.len() ==> (r matches Err(e) && parsing_error_with(
                e,
                failure_message(ParseFailure::RunPayloadShort),
            )),
    {
        let run_length = reader.read_u16_be("Unable to read RLE run length.".to_owned())?;
        let payload = reader.read_u8("Unable to read RLE payload.".to_owned())?;
        Ok(IPSHunk::RLE(IPSRLEHunkData { offset, run_length, payload }))
    }

    /// Applies the hunk to `target`: seeks to the hunk's offset and writes
    /// the payload byte `run_length` times there. A zero run length is a
    /// legal no-op write.
    fn apply(&self, target: &mut Target) -> (r: Result<(), Error>)
        requires
            self@.fits(),
        ensures
            r matches Ok(v) && v == (),
            final(target).data@ == spec_apply_hunk(old(target).data@, self@),
            final(target).pos == self.offset + self.run_length,
    {
        let mut run: Vec<u8> = Vec::new();
        let n = self.run_length;
        let mut i: u16 = 0;
        while i < n
            invariant
                i <= n,
                run@ == Seq::new(i as nat, |j: int| self.payload),
            decreases n - i,
        {
            run.push(self.payload);
            assert(run@ =~= Seq::new((i + 1) as nat, |j: int| self.payload));
            i = i + 1;
        }
        target.seek(self.offset);
        target.write_all(run.as_slice());
        Ok(())
    }

    /// Appends the hunk's wire encoding to `writer`: offset, the zero
    /// sentinel in place of a length, the run length, and the payload byte.
    fn write(&self, writer: &mut Vec<u8>)
        ensures
            final(writer)@ == old(writer)@ + self@.wire_bytes(),
    {
        let ghost start = writer@;
        writer.push((self.offset / 0x10000 % 0x100) as u8);
        writer.push((self.offset / 0x100 % 0x100) as u8);
        writer.push((self.offset % 0x100) as u8);
        writer.push(0x00);
        writer.push(0x00);
        writer.push((self.run_length / 0x100) as u8);
        writer.push((self.run_length % 0x100) as u8);
        writer.push(self.payload);
        assert(writer@ =~= start + self@.wire_bytes());
    }
}

/// One edit record of an IPS patch: either a regular hunk or an RLE hunk.
#[derive(Debug, PartialEq)]
pub enum IPSHunk {
    /// A regular hunk.
    Regular(IPSRegularHunkData),
    /// An RLE hunk.
    RLE(IPSRLEHunkData),
}

impl View for IPSRegularHunkData {
    type V = HunkModel;

    open spec fn view(&self) -> HunkModel {
        HunkModel::Regular { offset: self.offset, length: self.length, payload: self.payload@ }
    }
}

impl View for IPSRLEHunkData {
    type V = HunkModel;

    open spec fn view(&self) -> HunkModel {
        HunkModel::RLE {
            offset: self.offset,
            run_length: self.run_length,
            payload: self.payload,
        }
    }
}

impl View for IPSHunk {
    type V = HunkModel;

    open spec fn view(&self) -> HunkModel {
        match self {
            IPSHunk::Regular(data) => data@,
            IPSHunk::RLE(data) => data@,
        }
    }
}

impl IPSHunk {
    /// After the `EOF` marker: reads the optional 3-byte truncate length.
    /// A clean end of input leaves it absent; one or two trailing bytes are
    /// a parse error.
    fn read_trunc(reader: &mut ByteReader) -> (r: Result<ReadHunkResult, Error>)
        requires
            old(reader).wf(),
        ensures
            final(reader).wf(),
            final(reader).data@ == old(reader).data@,
            old(reader).pos == old(reader).data@.len() ==> (r matches Ok(
                ReadHunkResult::EOF(t),
            ) && t is None),
            old(reader).pos + 3 <= old(reader).data@.len() ==> (r matches Ok(
                ReadHunkResult::EOF(t),
            ) && t == Some(
                u24_value_of(
                    old(reader).data@[old(reader).pos as int],
                    old(reader).data@[old(reader).pos + 1],
                    old(reader).data@[old(reader).pos + 2],
                ),
            )),
            old(reader).pos < old(reader).data@.len() && old(reader).pos + 3 > old(
                reader,
            ).data@.len() ==> (r matches Err(e) && parsing_error_with(
                e,
                failure_message(ParseFailure::TruncateShort),
            )),
    {
        if reader.pos == reader.data.len() {
            return Ok(ReadHunkResult::EOF(None));
        }
        let buf = reader.read_exact(3, "Unable to read truncate.".to_owned())?;
        Ok(ReadHunkResult::EOF(Some(from_u24_be_bytes(buf.as_slice()))))
    }

    /// Checks whether `offset` is the reserved `EOF` marker value; if it
    /// is, reads the optional truncate length and ends the run of hunks.
    fn try_read_eof(reader: &mut ByteReader, offset: u32) -> (r: Option<
        Result<ReadHunkResult, Error>,
    >)
        requires
            old(reader).wf(),
        ensures
            final(reader).wf(),
            final(reader).data@ == old(reader).data@,
            offset != EOF_OFFSET ==> r is None && *final(reader) == *old(reader),
            offset == EOF_OFFSET ==> (r matches Some(inner) && {
                &&& old(reader).pos == old(reader).data@.len() ==> (inner matches Ok(
                    ReadHunkResult::EOF(t),
                ) && t is None)
                &&& old(reader).pos + 3 <= old(reader).data@.len() ==> (inner matches Ok(
                    ReadHunkResult::EOF(t),
                ) && t == Some(
                    u24_value_of(
                        old(reader).data@[old(reader).pos as int],
                        old(reader).data@[old(reader).pos + 1],
                        old(reader).data@[old(reader).pos + 2],
                    ),
                ))
                &&& old(reader).pos < old(reader).data@.len() && old(reader).pos + 3 > old(
                    reader,
                ).data@.len() ==> (inner matches Err(e) && parsing_error_with(
                    e,
                    failure_message(ParseFailure::TruncateShort),
                ))
            }),
    {
        if offset == EOF_OFFSET {
            return Some(Self::read_trunc(reader));
        }
        None
    }

    /// Applies the hunk to `target`: seeks to the hunk's offset and writes
    /// its fill bytes there.
    fn apply(&self, target: &mut Target) -> (r: Result<(), Error>)
        requires
            self@.fits(),
        ensures
            r matches Ok(v) && v == (),
            final(target).data@ == spec_apply_hunk(old(target).data@, self@),
    {
        match self {
            IPSHunk::Regular(data) => data.apply(target),
            IPSHunk::RLE(data) => data.apply(target),
        }
    }

    /// Reads the next record from `reader`: a decoded hunk, or the `EOF`
    /// marker with the optional truncate length. Exactly one step of the
    /// hunk-reading state machine, whose whole run [`spec_parse_hunks`]
    /// describes.
    fn try_read(reader: &mut ByteReader) -> (r: Result<ReadHunkResult, Error>)
        requires
            old(reader).wf(),
        ensures
            final(reader).wf(),
            final(reader).data@ == old(reader).data@,
            r matches Ok(ReadHunkResult::Hunk(h)) ==> {
                &&& spec_parse_hunks(old(reader).data@, old(reader).pos as int)
                    == outcome_with_prefix(
                    seq![h@],
                    spec_parse_hunks(old(reader).data@, final(reader).pos as int),
                )
                &&& old(reader).pos < final(reader).pos <= old(reader).data@.len()
                &&& h@.wf()
            },
            r matches Ok(ReadHunkResult::EOF(t)) ==> spec_parse_hunks(
                old(reader).data@,
                old(reader).pos as int,
            ) == (HunkStreamOutcome::Complete { hunks: Seq::empty(), truncate: t }),
            r matches Err(e) ==> (spec_parse_hunks(
                old(reader).data@,
                old(reader).pos as int,
            ) matches HunkStreamOutcome::Failed { failure, prefix } && prefix
                == Seq::<HunkModel>::empty() && parsing_error_with(
                e,
                failure_message(failure),
            )),
    {
        let ghost b = reader.data@;
        let ghost p = reader.pos as int;
        let offset = reader.read_u24_be("Unable to parse offset.".to_owned())?;
        if let Some(result) = Self::try_read_eof(reader, offset) {
            return result;
        }
        let length = reader.read_u16_be("Unable to read length.".to_owned())?;
        if length == 0 {
            let r = IPSRLEHunkData::read(reader, offset);
            let r = match r {
                Ok(h) => Ok(ReadHunkResult::Hunk(h)),
                Err(e) => Err(e),
            };
            proof {
                if p + 7 <= b.len() && p + 8 <= b.len() {
                    let h = HunkModel::RLE {
                        offset,
                        run_length: u16_value_of(b[p + 5], b[p + 6]),
                        payload: b[p + 7],
                    };
                    assert(spec_parse_hunks(b, p) == outcome_with_prefix(
                        seq![h],
                        spec_parse_hunks(b, p + 8),
                    ));
                }
            }
            r
        } else {
            let r = IPSRegularHunkData::read(reader, offset, length);
            let r = match r {
                Ok(h) => Ok(ReadHunkResult::Hunk(h)),
                Err(e) => Err(e),
            };
            proof {
                if p + 5 + length <= b.len() {
                    let h = HunkModel::Regular {
                        offset,
                        length,
                        payload: b.subrange(p + 5, p + 5 + length),
                    };
                    assert(spec_parse_hunks(b, p) == outcome_with_prefix(
                        seq![h],
                        spec_parse_hunks(b, p + 5 + length),
                    ));
                }
            }
            r
        }
    }
}

/// An IPS patch: the hunks to apply, in order, and the optional length to
/// truncate patched targets to.
#[derive(Debug, PartialEq)]
pub struct IPSPatch {
    /// The hunks, in apply order.
    pub hunks: Vec<IPSHunk>,
    /// The length to clamp patched targets to, where present.
    pub truncate: Option<u32>,
}

impl View for IPSPatch {
    type V = PatchModel;

    open spec fn view(&self) -> PatchModel {
        PatchModel {
            hunks: self.hunks@.map_values(|h: IPSHunk| h@),
            truncate: self.truncate,
        }
    }
}

impl IPSPatch {
    /// Constructs an empty patch: no hunks, no truncate length.
    pub fn new() -> (r: IPSPatch)
        ensures
            r@ == PatchModel::empty(),
    {
        let r = IPSPatch { hunks: Vec::new(), truncate: None };
        proof {
            assert(r@.hunks =~= Seq::<HunkModel>::empty());
        }
        r
    }

    /// Appends `hunk` to the patch.
    pub fn add_hunk(&mut self, hunk: IPSHunk)
        ensures
            final(self)@.hunks == old(self)@.hunks.push(hunk@),
            final(self)@.truncate == old(self)@.truncate,
    {
        let ghost before = self.hunks@;
        self.hunks.push(hunk);
        proof {
            assert(self.hunks@.map_values(|h: IPSHunk| h@) =~= before.map_values(
                |h: IPSHunk| h@,
            ).push(hunk@));
        }
    }

    /// Returns the patch with `hunk` appended.
    pub fn with_hunk(self, hunk: IPSHunk) -> (r: IPSPatch)
        ensures
            r@.hunks == self@.hunks.push(hunk@),
            r@.truncate == self@.truncate,
    {
        let mut r = self;
        r.add_hunk(hunk);
        r
    }

    /// Reads and checks the five-byte signature. A short read and a
    /// mismatch are reported as distinct parse errors, so a caller can tell
    /// "not an IPS patch" from "truncated input".
    fn read_header(reader: &mut ByteReader) -> (r: Result<(), Error>)
        requires
            old(reader).wf(),
        ensures
            final(reader).wf(),
            final(reader).data@ == old(reader).data@,
            old(reader).pos + 5 > old(reader).data@.len() ==> (r matches Err(e)
                && parsing_error_with(e, failure_message(ParseFailure::HeaderShort))),
            old(reader).pos + 5 <= old(reader).data@.len() && old(reader).data@.subrange(
                old(reader).pos as int,
                old(reader).pos + 5,
            ) == header_seq() ==> (r matches Ok(v) && v == () && final(reader).pos == old(
                reader,
            ).pos + 5),
            old(reader).pos + 5 <= old(reader).data@.len() && old(reader).data@.subrange(
                old(reader).pos as int,
                old(reader).pos + 5,
            ) != header_seq() ==> (r matches Err(e) && parsing_error_with(
                e,
                failure_message(ParseFailure::HeaderMismatch),
            )),
    {
        let header = header_vec();
        reader.assert_read(
            header.as_slice(),
            "Unable to parse header.".to_owned(),
            "Invalid header.".to_owned(),
        )
    }

    /// Reads a whole patch document from `reader`: the signature, every
    /// hunk record up to the `EOF` marker, and the optional truncate
    /// length. Returns exactly what [`spec_parse_patch`] yields on the
    /// reader's bytes: the parsed patch, or the parse error naming the
    /// field that failed.
    pub fn read_from(reader: &mut ByteReader) -> (r: Result<IPSPatch, Error>)
        requires
            old(reader).wf(),
        ensures
            final(reader).wf(),
            final(reader).data@ == old(reader).data@,
            match spec_parse_patch(old(reader).data@, old(reader).pos as int) {
                PatchOutcome::Parsed { patch } => r matches Ok(p) && p@ == patch
                    && patch.wf(),
                PatchOutcome::Failed { failure, .. } => r matches Err(e)
                    && parsing_error_with(e, failure_message(failure)),
            },
    {
        let ghost b = reader.data@;
        let ghost p0 = reader.pos as int;
        let mut result = IPSPatch::new();
        Self::read_header(reader)?;
        let ghost p5 = reader.pos as int;
        proof {
            assert(p5 == p0 + 5);
            lemma_outcome_prefix_empty(spec_parse_hunks(b, p5));
        }
        loop
            invariant
                reader.wf(),
                reader.data@ == b,
                b == old(reader).data@,
                p0 == old(reader).pos as int,
                0 <= p0,
                p0 + 5 <= b.len(),
                b.subrange(p0, p0 + 5) == header_seq(),
                p5 == p0 + 5,
                result@.truncate is None,
                outcome_with_prefix(result@.hunks, spec_parse_hunks(b, reader.pos as int))
                    == spec_parse_hunks(b, p5),
            decreases b.len() - reader.pos,
        {
            let ghost pos_before = reader.pos as int;
            let ghost done = result@.hunks;
            match IPSHunk::try_read(reader) {
                Ok(ReadHunkResult::Hunk(hunk)) => {
                    proof {
                        lemma_outcome_prefix_push(
                            done,
                            hunk@,
                            spec_parse_hunks(b, reader.pos as int),
                        );
                    }
                    result.add_hunk(hunk);
                },
                Ok(ReadHunkResult::EOF(value)) => {
                    result.truncate = value;
                    proof {
                        assert(done + Seq::<HunkModel>::empty() =~= done);
                        assert(spec_parse_hunks(b, p5) == (HunkStreamOutcome::Complete {
                            hunks: done,
                            truncate: value,
                        }));
                        assert(spec_parse_patch(b, p0) == (PatchOutcome::Parsed {
                            patch: PatchModel { hunks: done, truncate: value },
                        }));
                        lemma_parse_hunks_wf(b, p5);
                    }
                    return Ok(result);
                },
                Err(e) => {
                    proof {
                        assert(done + Seq::<HunkModel>::empty() =~= done);
                        assert(spec_parse_hunks(b, p5) matches HunkStreamOutcome::Failed {
                            failure,
                            prefix,
                        } && parsing_error_with(e, failure_message(failure)));
                    }
                    return Err(e);
                },
            }
        }
    }

    /// Appends the patch's wire encoding to `writer`: the signature, every
    /// hunk's record in sequence order, the `EOF` marker, and the truncate
    /// length where one is present.
    pub fn write(&self, writer: &mut Vec<u8>) -> (r: Result<(), Error>)
        ensures
            r matches Ok(v) && v == (),
            final(writer)@ == old(writer)@ + patch_wire_bytes(self@),
    {
        let ghost start = writer@;
        writer.push(0x50);
        writer.push(0x41);
        writer.push(0x54);
        writer.push(0x43);
        writer.push(0x48);
        assert(writer@ =~= start + header_seq());
        assert(self@.hunks.subrange(0, 0) =~= Seq::<HunkModel>::empty());
        let n = self.hunks.len();
        let mut i: usize = 0;
        while i < n
            invariant
                n == self.hunks@.len(),
                n == self@.hunks.len(),
                i <= n,
                self@ == (PatchModel {
                    hunks: self.hunks@.map_values(|h: IPSHunk| h@),
                    truncate: self.truncate,
                }),
                writer@ == start + header_seq() + hunks_wire_bytes(
                    self@.hunks.subrange(0, i as int),
                ),
            decreases n - i,
        {
            let ghost done = self@.hunks.subrange(0, i as int);
            match &self.hunks[i] {
                IPSHunk::Regular(data) => data.write(writer),
                IPSHunk::RLE(data) => data.write(writer),
            }
            proof {
                assert(self@.hunks[i as int] == self.hunks@[i as int]@);
                lemma_hunks_wire_bytes_push(done, self@.hunks[i as int]);
                assert(self@.hunks.subrange(0, i + 1) =~= done.push(self@.hunks[i as int]));
                assert(writer@ =~= start + header_seq() + hunks_wire_bytes(
                    self@.hunks.subrange(0, i + 1),
                ));
            }
            i = i + 1;
        }
        assert(self@.hunks.subrange(0, n as int) =~= self@.hunks);
        writer.push(0x45);
        writer.push(0x4F);
        writer.push(0x46);
        match self.truncate {
            Some(truncate) => {
                writer.push((truncate / 0x10000 % 0x100) as u8);
                writer.push((truncate / 0x100 % 0x100) as u8);
                writer.push((truncate % 0x100) as u8);
            },
            None => {},
        }
        assert(writer@ =~= start + patch_wire_bytes(self@));
        Ok(())
    }

    /// Returns the patch with its truncate length set to `truncate`.
    pub fn with_truncate(self, truncate: u32) -> (r: IPSPatch)
        ensures
            r@ == (PatchModel { truncate: Some(truncate), ..self@ }),
    {
        let mut r = self;
        r.truncate = Some(truncate);
        r
    }

    /// Applies the patch to `target`: every hunk strictly in sequence
    /// order — a later hunk may overwrite bytes an earlier one wrote —
    /// then, where a truncate length is present, the clamp of the target
    /// to at most that many bytes.
    pub fn apply(&self, target: &mut Target) -> (r: Result<(), Error>)
        requires
            self@.fits(),
        ensures
            r matches Ok(v) && v == (),
            final(target).data@ == spec_apply_patch(old(target).data@, self@),
    {
        let ghost t0 = target.data@;
        assert(self@.hunks.subrange(0, 0) =~= Seq::<HunkModel>::empty());
        let n = self.hunks.len();
        let mut i: usize = 0;
        while i < n
            invariant
                n == self.hunks@.len(),
                n == self@.hunks.len(),
                i <= n,
                self@ == (PatchModel {
                    hunks: self.hunks@.map_values(|h: IPSHunk| h@),
                    truncate: self.truncate,
                }),
                self@.fits(),
                target.data@ == spec_apply_hunks(t0, self@.hunks.subrange(0, i as int)),
            decreases n - i,
        {
            let ghost done = self@.hunks.subrange(0, i as int);
            assert(self@.hunks[i as int] == self.hunks@[i as int]@);
            self.hunks[i].apply(target)?;
            proof {
                lemma_apply_hunks_push(t0, done, self@.hunks[i as int]);
                assert(self@.hunks.subrange(0, i + 1) =~= done.push(self@.hunks[i as int]));
            }
            i = i + 1;
        }
        assert(self@.hunks.subrange(0, n as int) =~= self@.hunks);
        match self.truncate {
            Some(value) => {
                target.truncate(value)?;
            },
            None => {},
        }
        Ok(())
    }
}

/// Applies the patch document supplied by `patch` to `target` while
/// streaming: each hunk is applied the moment it is decoded, and no hunk
/// sequence is ever materialized. The target ends up byte-identical to
/// what parsing the document and then applying the parsed patch leaves;
/// when the parse fails, exactly the hunks decoded before the failure have
/// taken effect, and the truncate step never runs.
pub fn apply_ips_patch(patch: &mut ByteReader, target: &mut Target) -> (r: Result<(), Error>)
    requires
        old(patch).wf(),
    ensures
        final(patch).wf(),
        final(patch).data@ == old(patch).data@,
        final(target).data@ == spec_stream_apply(
            old(patch).data@,
            old(patch).pos as int,
            old(target).data@,
        ),
        match spec_parse_patch(old(patch).data@, old(patch).pos as int) {
            PatchOutcome::Parsed { .. } => r matches Ok(v) && v == (),
            PatchOutcome::Failed { failure, .. } => r matches Err(e) && parsing_error_with(
                e,
                failure_message(failure),
            ),
        },
{
    let ghost b = patch.data@;
    let ghost p0 = patch.pos as int;
    let ghost t0 = target.data@;
    match IPSPatch::read_header(patch) {
        Ok(_) => {},
        Err(e) => {
            return Err(e);
        },
    }
    let ghost p5 = patch.pos as int;
    proof {
        assert(p5 == p0 + 5);
        lemma_outcome_prefix_empty(spec_parse_hunks(b, p5));
    }
    let ghost mut applied: Seq<HunkModel> = Seq::empty();
    loop
        invariant
            patch.wf(),
            patch.data@ == b,
            b == old(patch).data@,
            p0 == old(patch).pos as int,
            t0 == old(target).data@,
            0 <= p0,
            p0 + 5 <= b.len(),
            b.subrange(p0, p0 + 5) == header_seq(),
            p5 == p0 + 5,
            target.data@ == spec_apply_hunks(t0, applied),
            outcome_with_prefix(applied, spec_parse_hunks(b, patch.pos as int))
                == spec_parse_hunks(b, p5),
        decreases b.len() - patch.pos,
    {
        let ghost pos_before = patch.pos as int;
        let ghost done = applied;
        match IPSHunk::try_read(patch) {
            Ok(ReadHunkResult::Hunk(hunk)) => {
                proof {
                    lemma_outcome_prefix_push(
                        done,
                        hunk@,
                        spec_parse_hunks(b, patch.pos as int),
                    );
                    lemma_wf_hunk_fits(hunk@);
                    lemma_apply_hunks_push(t0, done, hunk@);
                    applied = done.push(hunk@);
                }
                hunk.apply(target)?;
            },
            Ok(ReadHunkResult::EOF(value)) => {
                proof {
                    assert(done + Seq::<HunkModel>::empty() =~= done);
                    assert(spec_parse_hunks(b, p5) == (HunkStreamOutcome::Complete {
                        hunks: done,
                        truncate: value,
                    }));
                    assert(spec_parse_patch(b, p0) == (PatchOutcome::Parsed {
                        patch: PatchModel { hunks: done, truncate: value },
                    }));
                }
                match value {
                    Some(amount) => {
                        target.truncate(amount)?;
                    },
                    None => {},
                }
                return Ok(());
            },
            Err(e) => {
                proof {
                    assert(done + Seq::<HunkModel>::empty() =~= done);
                    assert(spec_parse_hunks(b, p5) matches HunkStreamOutcome::Failed {
                        failure,
                        prefix,
                    } && parsing_error_with(e, failure_message(failure)));
                }
                return Err(e);
            },
        }
    }
}

} // verus!
