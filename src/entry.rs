//! MFT entries: the fixed header, the per-sector fixup that guards against
//! torn writes, and the unused-slot sentinel.
use vstd::prelude::*;
use crate::le::{read_u16, read_u32, read_u64, u16_at, u32_at, u64_at};

verus! {

/// Bytes per sector guarded by one fixup slot.
pub const SECTOR_SIZE: usize = 512;

/// Size of the fixed entry header.
pub const ENTRY_HEADER_SIZE: usize = 48;

/// The entry index of the volume root directory.
pub const ROOT_ENTRY_INDEX: u64 = 5;

/// An (entry index, sequence number) pair naming an MFT entry across reuse of
/// its slot: the low 48 bits of the raw value are the index, the high 16 the
/// sequence number.
#[derive(Clone, Copy, Debug, PartialEq, Eq, Structural)]
pub struct FileReference {
    pub entry: u64,
    pub sequence: u16,
}

/// The reference that a raw 64-bit value stands for.
pub open spec fn reference_of(raw: u64) -> FileReference {
    FileReference { entry: (raw as int % 0x1_0000_0000_0000) as u64, sequence: (raw as int / 0x1_0000_0000_0000) as u16 }
}

impl FileReference {
    /// Splits a raw 64-bit reference into its index and sequence number.
    pub fn from_raw(raw: u64) -> (r: Self)
        ensures
            r == reference_of(raw),
    {
        FileReference { entry: raw % 0x1_0000_0000_0000, sequence: (raw / 0x1_0000_0000_0000) as u16 }
    }
}

/// The fixed header of an MFT entry.
#[derive(Clone, Copy, Debug, PartialEq, Eq, Structural)]
pub struct MftEntryHeader {
    /// The first four bytes, least significant first: `FILE` reads
    /// 0x454C4946, an unused slot 0.
    pub signature: u32,
    pub usa_offset: u16,
    pub usa_size: u16,
    /// Log file sequence number of the last change.
    pub log_sequence_number: u64,
    /// Generation counter of the slot, raised each time it is reused.
    pub sequence: u16,
    pub hard_link_count: u16,
    pub first_attribute_offset: u16,
    /// Bit 0: in use; bit 1: a directory.
    pub flags: u16,
    pub used_entry_size: u32,
    pub total_entry_size: u32,
    /// The base entry, for an extension entry; zero otherwise.
    pub base_reference: FileReference,
    pub first_attribute_id: u16,
    /// The entry's own index.
    pub record_number: u64,
}

/// Why an entry could not be decoded.
#[derive(Clone, Copy, Debug, PartialEq, Eq, Structural)]
pub enum EntryError {
    /// The buffer is shorter than the header, the used size exceeds the
    /// allocated size, or the allocated size exceeds the buffer.
    TruncatedEntry,
    /// The signature is neither `FILE` nor the unused sentinel.
    InvalidSignature,
    /// The fixup array does not fit before the first sector's guarded bytes,
    /// or guards more sectors than the allocated size holds.
    InvalidFixupArray,
}

/// A decoded MFT entry. The buffer has had its fixups applied.
#[derive(Clone, Debug)]
pub struct MftEntry {
    pub header: MftEntryHeader,
    /// The entry's bytes, sector trailers restored.
    pub data: Vec<u8>,
    /// Whether every sector trailer carried the update sequence value.
    pub fixup_intact: bool,
}

/// Whether the first four bytes are `FILE`.
pub open spec fn is_file_signature(b: Seq<u8>) -> bool {
    b[0] == 0x46 && b[1] == 0x49 && b[2] == 0x4C && b[3] == 0x45
}

/// Whether the first four bytes are the all-zero sentinel of an unused slot.
pub open spec fn is_unused_signature(b: Seq<u8>) -> bool {
    b[0] == 0 && b[1] == 0 && b[2] == 0 && b[3] == 0
}

/// Whether a fixup array of `count` slots at `off` fits: it has its update
/// sequence value, lies wholly before the first guarded trailer, and guards
/// only sectors within the first `len` bytes.
pub open spec fn fixup_fits(len: int, off: int, count: int) -> bool {
    &&& count >= 1
    &&& off + 2 * count <= SECTOR_SIZE - 2
    &&& (count - 1) * SECTOR_SIZE <= len
}

/// Whether `i` is one of the two trailer bytes of a sector that a fixup array
/// of `count` slots guards.
pub open spec fn is_guarded(i: int, count: int) -> bool {
    i % 512 >= 510 && i / 512 < count - 1
}

/// The buffer with each guarded trailer byte replaced by the original byte
/// that the fixup array keeps for it.
pub open spec fn restored(b: Seq<u8>, off: int, count: int) -> Seq<u8> {
    Seq::new(
        b.len(),
        |i: int|
            if is_guarded(i, count) {
                b[off + 2 + 2 * (i / 512) + (i % 512 - 510)]
            } else {
                b[i]
            },
    )
}

/// Whether every guarded trailer byte equals the update sequence value at
/// the front of the fixup array.
pub open spec fn trailers_intact(b: Seq<u8>, off: int, count: int) -> bool {
    forall|i: int| 0 <= i < b.len() && #[trigger] is_guarded(i, count) ==> b[i] == b[off + (i % 512 - 510)]
}

proof fn lemma_trailers_step(b: Seq<u8>, off: int, k: int)
    requires
        k >= 0,
        off >= 0,
        off + 2 <= 510,
        512 * k + 512 <= b.len(),
    ensures
        trailers_intact(b, off, k + 2) == (trailers_intact(b, off, k + 1) && b[512 * k + 510]
            == b[off] && b[512 * k + 511] == b[off + 1]),
{
    let t = 512 * k + 510;
    assert(t / 512 == k && t % 512 == 510) by (nonlinear_arith)
        requires t == 512 * k + 510;
    assert((t + 1) / 512 == k && (t + 1) % 512 == 511) by (nonlinear_arith)
        requires t == 512 * k + 510;
    assert(is_guarded(t, k + 2) && is_guarded(t + 1, k + 2));
    assert forall|i: int| 0 <= i < b.len() implies (#[trigger] is_guarded(i, k + 2) <==> (
    is_guarded(i, k + 1) || i == t || i == t + 1)) by {
        if is_guarded(i, k + 2) && !is_guarded(i, k + 1) {
            assert(i / 512 == k);
            assert(i == 512 * (i / 512) + i % 512);
        }
    }
    if trailers_intact(b, off, k + 1) && b[t] == b[off] && b[t + 1] == b[off + 1] {
        assert forall|i: int| 0 <= i < b.len() && #[trigger] is_guarded(i, k + 2) implies b[i]
            == b[off + (i % 512 - 510)] by {
            if !is_guarded(i, k + 1) {
                assert(i == t || i == t + 1);
            }
        }
    }
    if trailers_intact(b, off, k + 2) {
        assert forall|i: int| 0 <= i < b.len() && #[trigger] is_guarded(i, k + 1) implies b[i]
            == b[off + (i % 512 - 510)] by {
            assert(is_guarded(i, k + 2));
        }
        assert(b[t] == b[off + (t % 512 - 510)]);
        assert(b[t + 1] == b[off + ((t + 1) % 512 - 510)]);
    }
}

/// What a writer leaves on disk for `orig`: the fixup array holds the update
/// sequence value `usn` followed by the original trailers, and each guarded
/// trailer holds `usn`.
pub open spec fn protected(orig: Seq<u8>, off: int, count: int, usn: Seq<u8>) -> Seq<u8> {
    Seq::new(
        orig.len(),
        |i: int|
            if is_guarded(i, count) {
                usn[i % 512 - 510]
            } else if off <= i < off + 2 {
                usn[i - off]
            } else if off + 2 <= i < off + 2 * count {
                orig[512 * ((i - off - 2) / 2) + 510 + (i - off - 2) % 2]
            } else {
                orig[i]
            },
    )
}

/// Restoring a buffer that was protected with a fixup array gives back every
/// original byte outside the array itself, sector trailers included, and the
/// protected buffer passes the trailer check.
pub proof fn lemma_fixup_round_trip(orig: Seq<u8>, off: int, count: int, usn: Seq<u8>)
    requires
        fixup_fits(orig.len() as int, off, count),
        off >= 0,
        usn.len() == 2,
    ensures
        forall|i: int|
            0 <= i < orig.len() && !(off <= i < off + 2 * count) ==> #[trigger] restored(
                protected(orig, off, count, usn),
                off,
                count,
            )[i] == orig[i],
        trailers_intact(protected(orig, off, count, usn), off, count),
{
    let p = protected(orig, off, count, usn);
    assert forall|i: int|
        0 <= i < orig.len() && !(off <= i < off + 2 * count) implies #[trigger] restored(
            p,
            off,
            count,
        )[i] == orig[i] by {
        if is_guarded(i, count) {
            let k = i / 512;
            let j = off + 2 + 2 * k + (i % 512 - 510);
            assert(off + 2 <= j < off + 2 * count);
            assert((j - off - 2) / 2 == k);
            assert((j - off - 2) % 2 == i % 512 - 510);
            assert(!is_guarded(j, count));
            assert(512 * k + 510 + (i % 512 - 510) == i);
        }
    }
    assert forall|i: int| 0 <= i < p.len() && is_guarded(i, count) implies p[i] == p[off + (
    i % 512 - 510)] by {
        let j = off + (i % 512 - 510);
        assert(!is_guarded(j, count));
    }
}

/// Applies the fixup array of `count` slots at `off` to `b` in place, and
/// tells whether every trailer carried the update sequence value.
pub fn apply_fixup(b: &mut Vec<u8>, off: usize, count: usize) -> (intact: bool)
    requires
        fixup_fits(old(b)@.len() as int, off as int, count as int),
    ensures
        final(b)@ == restored(old(b)@, off as int, count as int),
        intact == trailers_intact(old(b)@, off as int, count as int),
{
    let ghost orig = b@;
    let mut intact = true;
    let mut k: usize = 0;
    while k + 1 < count
        invariant
            fixup_fits(orig.len() as int, off as int, count as int),
            b@.len() == orig.len(),
            k < count,
            forall|i: int|
                0 <= i < orig.len() ==> #[trigger] b@[i] == if is_guarded(i, k as int + 1) {
                    restored(orig, off as int, count as int)[i]
                } else {
                    orig[i]
                },
            intact == trailers_intact(orig, off as int, k as int + 1),
        decreases count - k,
    {
        let t: usize = SECTOR_SIZE * k + 510;
        assert(t / 512 == k && t % 512 == 510) by (nonlinear_arith)
            requires t == 512 * k + 510;
        assert((t + 1) / 512 == k && (t + 1) % 512 == 511) by (nonlinear_arith)
            requires t == 512 * k + 510;
        assert(t + 1 < orig.len()) by (nonlinear_arith)
            requires t == 512 * k + 510, k + 1 < count, (count - 1) * 512 <= orig.len();
        assert(!is_guarded(off as int, count as int) && !is_guarded(off + 1, count as int));
        assert(!is_guarded(off + 2 + 2 * k, count as int) && !is_guarded(off + 3 + 2 * k, count as int));
        assert(b@[t as int] == orig[t as int] && b@[t + 1] == orig[t + 1]);
        assert(b@[off as int] == orig[off as int] && b@[off + 1] == orig[off + 1]);
        if b[t] != b[off] || b[t + 1] != b[off + 1] {
            intact = false;
        }
        let lo = b[off + 2 + 2 * k];
        let hi = b[off + 3 + 2 * k];
        b.set(t, lo);
        b.set(t + 1, hi);
        proof {
            assert forall|i: int| 0 <= i < orig.len() implies (#[trigger] is_guarded(i, k + 2) <==> (
            is_guarded(i, k + 1) || i == t || i == t + 1)) by {
                if is_guarded(i, k + 2) && !is_guarded(i, k + 1) {
                    assert(i / 512 == k);
                    assert(i == 512 * (i / 512) + i % 512);
                }
            }
            lemma_trailers_step(orig, off as int, k as int);
        }
        k = k + 1;
    }
    proof {
        assert(b@ =~= restored(orig, off as int, count as int));
    }
    intact
}

/// The header fields as the first bytes of `b` lay them out.
pub open spec fn header_of(b: Seq<u8>) -> MftEntryHeader {
    MftEntryHeader {
        signature: u32_at(b, 0) as u32,
        usa_offset: u16_at(b, 4) as u16,
        usa_size: u16_at(b, 6) as u16,
        log_sequence_number: u64_at(b, 8) as u64,
        sequence: u16_at(b, 16) as u16,
        hard_link_count: u16_at(b, 18) as u16,
        first_attribute_offset: u16_at(b, 20) as u16,
        flags: u16_at(b, 22) as u16,
        used_entry_size: u32_at(b, 24) as u32,
        total_entry_size: u32_at(b, 28) as u32,
        base_reference: reference_of(u64_at(b, 32) as u64),
        first_attribute_id: u16_at(b, 40) as u16,
        record_number: u32_at(b, 44) as u64,
    }
}

/// What decoding the bytes `b` of one entry gives: the header, the bytes
/// with their fixups applied, and whether the trailers were intact.
pub open spec fn decode_spec(b: Seq<u8>) -> Result<(MftEntryHeader, Seq<u8>, bool), EntryError> {
    if b.len() < ENTRY_HEADER_SIZE {
        Err(EntryError::TruncatedEntry)
    } else if is_unused_signature(b) {
        Ok((header_of(b), b, true))
    } else if !is_file_signature(b) {
        Err(EntryError::InvalidSignature)
    } else if u32_at(b, 24) > u32_at(b, 28) || u32_at(b, 28) > b.len() {
        Err(EntryError::TruncatedEntry)
    } else if !fixup_fits(u32_at(b, 28), u16_at(b, 4), u16_at(b, 6)) {
        Err(EntryError::InvalidFixupArray)
    } else {
        Ok(
            (
                header_of(b),
                restored(b, u16_at(b, 4), u16_at(b, 6)),
                trailers_intact(b, u16_at(b, 4), u16_at(b, 6)),
            ),
        )
    }
}

/// The parts of a decode result that `decode_spec` speaks of.
pub open spec fn entry_view(r: Result<MftEntry, EntryError>) -> Result<
    (MftEntryHeader, Seq<u8>, bool),
    EntryError,
> {
    match r {
        Ok(e) => Ok((e.header, e.data@, e.fixup_intact)),
        Err(err) => Err(err),
    }
}

/// Decoding depends on the bytes alone: two decodes of the same bytes give
/// the same entry.
pub proof fn lemma_decode_deterministic(b1: Seq<u8>, b2: Seq<u8>)
    requires
        b1 == b2,
    ensures
        decode_spec(b1) == decode_spec(b2),
{
}

/// An entry whose signature is the unused sentinel decodes as an unused
/// entry, never as an error, whatever the rest of its bytes hold.
pub proof fn lemma_unused_never_error(b: Seq<u8>)
    requires
        b.len() >= ENTRY_HEADER_SIZE,
        is_unused_signature(b),
    ensures
        decode_spec(b) is Ok,
        decode_spec(b)->Ok_0.0.signature == 0,
{
    assert(u32_at(b, 0) == 0);
}

fn header_from(b: &[u8]) -> (h: MftEntryHeader)
    requires
        b@.len() >= ENTRY_HEADER_SIZE,
    ensures
        h == header_of(b@),
{
    let raw_base = read_u64(b, 32);
    MftEntryHeader {
        signature: read_u32(b, 0),
        usa_offset: read_u16(b, 4),
        usa_size: read_u16(b, 6),
        log_sequence_number: read_u64(b, 8),
        sequence: read_u16(b, 16),
        hard_link_count: read_u16(b, 18),
        first_attribute_offset: read_u16(b, 20),
        flags: read_u16(b, 22),
        used_entry_size: read_u32(b, 24),
        total_entry_size: read_u32(b, 28),
        base_reference: FileReference::from_raw(raw_base),
        first_attribute_id: read_u16(b, 40),
        record_number: read_u32(b, 44) as u64,
    }
}

impl MftEntry {
    /// Decodes the bytes of one entry slot. An unused slot (all-zero
    /// signature) decodes as an unused entry whatever else it holds. For a
    /// `FILE` entry the fixup array is applied before anything else reads the
    /// bytes; trailers that did not carry the update sequence value are
    /// reported in `fixup_intact`, not as an error.
    pub fn from_buffer(buffer: Vec<u8>) -> (r: Result<MftEntry, EntryError>)
        ensures
            entry_view(r) == decode_spec(buffer@),
    {
        let mut b = buffer;
        let n = b.len();
        if n < ENTRY_HEADER_SIZE {
            return Err(EntryError::TruncatedEntry);
        }
        let header = header_from(b.as_slice());
        if b[0] == 0 && b[1] == 0 && b[2] == 0 && b[3] == 0 {
            return Ok(MftEntry { header, data: b, fixup_intact: true });
        }
        if !(b[0] == 0x46 && b[1] == 0x49 && b[2] == 0x4C && b[3] == 0x45) {
            return Err(EntryError::InvalidSignature);
        }
        let total = header.total_entry_size as usize;
        if header.used_entry_size > header.total_entry_size || total > n {
            return Err(EntryError::TruncatedEntry);
        }
        let off = header.usa_offset as usize;
        let count = header.usa_size as usize;
        if count < 1 || off + 2 * count > SECTOR_SIZE - 2 || (count - 1) > total / SECTOR_SIZE {
            return Err(EntryError::InvalidFixupArray);
        }
        assert((count - 1) * 512 <= total) by (nonlinear_arith)
            requires count - 1 <= total / 512;
        let intact = apply_fixup(&mut b, off, count);
        Ok(MftEntry { header, data: b, fixup_intact: intact })
    }

    /// Whether the slot is unused: its signature is the all-zero sentinel.
    pub fn is_unused(&self) -> (r: bool)
        ensures
            r == (self.header.signature == 0),
    {
        self.header.signature == 0
    }

    /// Whether the entry is marked in use.
    pub fn is_allocated(&self) -> (r: bool)
        ensures
            r == (self.header.flags & 1 == 1),
    {
        self.header.flags & 1 == 1
    }

    /// Whether the entry is a directory.
    pub fn is_dir(&self) -> (r: bool)
        ensures
            r == (self.header.flags & 2 == 2),
    {
        self.header.flags & 2 == 2
    }
}

} // verus!
