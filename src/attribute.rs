//! MFT attributes: the common header, resident values (FILE_NAME decoded),
//! non-resident run lists, and the walk over an entry's attributes.
use vstd::prelude::*;
use crate::entry::{reference_of, FileReference, MftEntry};
use crate::le::{copy_range, read_u16, read_u32, read_u64, u16_at, u32_at, u64_at};
use crate::runs::{decode_runs, decode_runs_spec, run_clusters, total_clusters, DataRun, RunError};
use crate::usn::{decode_utf16le, utf16le_text, FileTime};

verus! {

/// The type code that ends an entry's attribute list.
pub const ATTRIBUTE_END: u32 = 0xFFFF_FFFF;

pub const STANDARD_INFORMATION: u32 = 0x10;

pub const ATTRIBUTE_LIST: u32 = 0x20;

pub const FILE_NAME: u32 = 0x30;

pub const OBJECT_ID: u32 = 0x40;

pub const SECURITY_DESCRIPTOR: u32 = 0x50;

pub const DATA: u32 = 0x80;

pub const INDEX_ROOT: u32 = 0x90;

pub const INDEX_ALLOCATION: u32 = 0xA0;

pub const BITMAP: u32 = 0xB0;

/// Size of the header common to all attributes.
pub const COMMON_HEADER_SIZE: usize = 16;

/// Size of a resident attribute's header.
pub const RESIDENT_HEADER_SIZE: usize = 24;

/// Size of a non-resident attribute's header.
pub const NON_RESIDENT_HEADER_SIZE: usize = 64;

/// Size of the fixed part of a FILE_NAME value; the name follows it.
pub const FILE_NAME_HEADER_SIZE: usize = 66;

/// FILE_NAME namespaces.
pub const NAMESPACE_POSIX: u8 = 0;

pub const NAMESPACE_WIN32: u8 = 1;

pub const NAMESPACE_DOS: u8 = 2;

pub const NAMESPACE_WIN32_AND_DOS: u8 = 3;

/// Why one attribute could not be decoded.
#[derive(Clone, Copy, Debug, PartialEq, Eq, Structural)]
pub enum AttributeError {
    /// The length field is shorter than the header or runs past the entry.
    AttributeLengthOverflow,
    /// The name lies outside the attribute.
    NameOutOfBounds,
    /// The resident value lies outside the attribute.
    ValueOutOfBounds,
    /// A FILE_NAME value is shorter than its fixed part and name.
    FileNameTooShort,
    /// The run list lies outside the attribute or does not decode.
    InvalidRunList(RunError),
}

/// The header fields that all attributes share.
#[derive(Clone, Debug)]
pub struct AttributeHeader {
    pub type_code: u32,
    pub record_length: u32,
    pub non_resident: bool,
    /// Length of the name in UTF-16 code units; zero for an unnamed one.
    pub name_length: u8,
    pub name_offset: u16,
    pub flags: u16,
    /// The attribute id.
    pub instance: u16,
    pub name: String,
}

/// A decoded FILE_NAME value.
#[derive(Clone, Debug)]
pub struct FileNameAttr {
    pub parent: FileReference,
    pub created: FileTime,
    pub modified: FileTime,
    pub mft_modified: FileTime,
    pub accessed: FileTime,
    pub logical_size: u64,
    pub physical_size: u64,
    pub flags: u32,
    pub reparse_value: u32,
    /// Length of the name in UTF-16 code units.
    pub name_length: u8,
    pub namespace: u8,
    pub name: String,
}

/// The value-side fields of a non-resident attribute.
#[derive(Clone, Debug)]
pub struct NonResidentAttr {
    pub vnc_first: u64,
    pub vnc_last: u64,
    pub datarun_offset: u16,
    pub unit_compression_size: u16,
    pub allocated_length: u64,
    pub file_size: u64,
    pub valid_data_length: u64,
    pub data_runs: Vec<DataRun>,
}

impl NonResidentAttr {
    /// Whether the runs cover exactly the allocated length, at `cluster_size`
    /// bytes per cluster. A mismatch is for the caller to report; decoding
    /// does not reject it.
    pub fn allocation_consistent(&self, cluster_size: u64) -> (r: bool)
        ensures
            r == (total_clusters(self.data_runs@) * cluster_size == self.allocated_length),
    {
        if cluster_size == 0 {
            return self.allocated_length == 0;
        }
        match run_clusters(&self.data_runs) {
            None => {
                assert(total_clusters(self.data_runs@) * cluster_size > u64::MAX) by (nonlinear_arith)
                    requires
                        total_clusters(self.data_runs@) > u64::MAX,
                        cluster_size >= 1,
                ;
                false
            },
            Some(total) => {
                if total > u64::MAX / cluster_size {
                    assert(total * cluster_size > u64::MAX) by (nonlinear_arith)
                        requires
                            cluster_size > 0,
                            total > u64::MAX / cluster_size,
                    ;
                    false
                } else {
                    assert(total * cluster_size <= u64::MAX) by (nonlinear_arith)
                        requires
                            cluster_size > 0,
                            total <= u64::MAX / cluster_size,
                    ;
                    total * cluster_size == self.allocated_length
                }
            },
        }
    }
}

/// What an attribute holds.
#[derive(Clone, Debug)]
pub enum AttributeBody {
    /// A resident value other than FILE_NAME, as raw bytes.
    Resident(Vec<u8>),
    FileName(FileNameAttr),
    NonResident(NonResidentAttr),
}

#[derive(Clone, Debug)]
pub struct MftAttribute {
    pub header: AttributeHeader,
    pub body: AttributeBody,
}

/// Whether the walk ends at `off`: fewer than four bytes left, or the end
/// marker.
pub open spec fn is_end(b: Seq<u8>, off: int) -> bool {
    off + 4 > b.len() || u32_at(b, off) == ATTRIBUTE_END
}

/// The length field of the attribute at `off`.
pub open spec fn attr_len(b: Seq<u8>, off: int) -> int {
    u32_at(b, off + 4)
}

/// Whether the attribute at `off` has a length that covers its header and
/// stays inside the buffer.
pub open spec fn length_ok(b: Seq<u8>, off: int) -> bool {
    &&& 0 <= off
    &&& off + COMMON_HEADER_SIZE <= b.len()
    &&& attr_len(b, off) >= if b[off + 8] != 0 {
        NON_RESIDENT_HEADER_SIZE
    } else {
        RESIDENT_HEADER_SIZE
    }
    &&& off + attr_len(b, off) <= b.len()
}

/// Whether the FILE_NAME value `v` holds its fixed part and its name.
pub open spec fn file_name_fits(v: Seq<u8>) -> bool {
    v.len() >= FILE_NAME_HEADER_SIZE && v.len() >= FILE_NAME_HEADER_SIZE + 2 * v[64]
}

/// Whether `f` is what the FILE_NAME value `v` holds.
pub open spec fn file_name_matches(v: Seq<u8>, f: FileNameAttr) -> bool {
    &&& f.parent == reference_of(u64_at(v, 0) as u64)
    &&& f.created.ticks as int == u64_at(v, 8)
    &&& f.modified.ticks as int == u64_at(v, 16)
    &&& f.mft_modified.ticks as int == u64_at(v, 24)
    &&& f.accessed.ticks as int == u64_at(v, 32)
    &&& f.logical_size as int == u64_at(v, 40)
    &&& f.physical_size as int == u64_at(v, 48)
    &&& f.flags as int == u32_at(v, 56)
    &&& f.reparse_value as int == u32_at(v, 60)
    &&& f.name_length == v[64]
    &&& f.namespace == v[65]
    &&& f.name@ == utf16le_text(v.subrange(66, 66 + 2 * v[64]))
}

/// The name bounds of the attribute at `off`, relative to the buffer.
pub open spec fn name_start(b: Seq<u8>, off: int) -> int {
    off + u16_at(b, off + 10)
}

pub open spec fn name_end(b: Seq<u8>, off: int) -> int {
    name_start(b, off) + 2 * b[off + 9]
}

pub open spec fn value_start(b: Seq<u8>, off: int) -> int {
    off + u16_at(b, off + 20)
}

pub open spec fn value_end(b: Seq<u8>, off: int) -> int {
    value_start(b, off) + u32_at(b, off + 16)
}

/// The bytes of the run list of the non-resident attribute at `off`.
pub open spec fn run_window(b: Seq<u8>, off: int) -> Seq<u8> {
    b.subrange(off + u16_at(b, off + 32), off + attr_len(b, off))
}

/// The outcome of decoding the attribute at `off`, whose length is sound:
/// the first problem found, in the order name, value, FILE_NAME, runs.
pub open spec fn attribute_error(b: Seq<u8>, off: int) -> Option<AttributeError> {
    let end = off + attr_len(b, off);
    if b[off + 9] != 0 && name_end(b, off) > end {
        Some(AttributeError::NameOutOfBounds)
    } else if b[off + 8] == 0 {
        if value_end(b, off) > end {
            Some(AttributeError::ValueOutOfBounds)
        } else if u32_at(b, off) == FILE_NAME && !file_name_fits(
            b.subrange(value_start(b, off), value_end(b, off)),
        ) {
            Some(AttributeError::FileNameTooShort)
        } else {
            None
        }
    } else if u16_at(b, off + 32) > attr_len(b, off) {
        Some(AttributeError::InvalidRunList(RunError::Truncated))
    } else {
        match decode_runs_spec(run_window(b, off)) {
            Err(e) => Some(AttributeError::InvalidRunList(e)),
            Ok(_) => None,
        }
    }
}

/// Whether `a` is what the attribute at `off` holds.
pub open spec fn attribute_matches(b: Seq<u8>, off: int, a: MftAttribute) -> bool {
    &&& a.header.type_code as int == u32_at(b, off)
    &&& a.header.record_length as int == attr_len(b, off)
    &&& a.header.non_resident == (b[off + 8] != 0)
    &&& a.header.name_length == b[off + 9]
    &&& a.header.name_offset as int == u16_at(b, off + 10)
    &&& a.header.flags as int == u16_at(b, off + 12)
    &&& a.header.instance as int == u16_at(b, off + 14)
    &&& a.header.name@ == if b[off + 9] == 0 {
        Seq::empty()
    } else {
        utf16le_text(b.subrange(name_start(b, off), name_end(b, off)))
    }
    &&& match a.body {
        AttributeBody::Resident(v) => b[off + 8] == 0 && u32_at(b, off) != FILE_NAME && v@
            == b.subrange(value_start(b, off), value_end(b, off)),
        AttributeBody::FileName(f) => b[off + 8] == 0 && u32_at(b, off) == FILE_NAME
            && file_name_matches(b.subrange(value_start(b, off), value_end(b, off)), f),
        AttributeBody::NonResident(nr) => {
            &&& b[off + 8] != 0
            &&& nr.vnc_first as int == u64_at(b, off + 16)
            &&& nr.vnc_last as int == u64_at(b, off + 24)
            &&& nr.datarun_offset as int == u16_at(b, off + 32)
            &&& nr.unit_compression_size as int == u16_at(b, off + 34)
            &&& nr.allocated_length as int == u64_at(b, off + 40)
            &&& nr.file_size as int == u64_at(b, off + 48)
            &&& nr.valid_data_length as int == u64_at(b, off + 56)
            &&& decode_runs_spec(run_window(b, off)) == Ok::<Seq<DataRun>, RunError>(
                nr.data_runs@,
            )
        },
    }
}

fn decode_file_name(v: &[u8]) -> (r: FileNameAttr)
    requires
        file_name_fits(v@),
    ensures
        file_name_matches(v@, r),
{
    let name_length = v[64];
    let name_bytes = copy_range(v, 66, 66 + 2 * name_length as usize);
    let name = match decode_utf16le(name_bytes.as_slice()) {
        Some(s) => s,
        None => String::new(),
    };
    FileNameAttr {
        parent: FileReference::from_raw(read_u64(v, 0)),
        created: FileTime { ticks: read_u64(v, 8) },
        modified: FileTime { ticks: read_u64(v, 16) },
        mft_modified: FileTime { ticks: read_u64(v, 24) },
        accessed: FileTime { ticks: read_u64(v, 32) },
        logical_size: read_u64(v, 40),
        physical_size: read_u64(v, 48),
        flags: read_u32(v, 56),
        reparse_value: read_u32(v, 60),
        name_length,
        namespace: v[65],
        name,
    }
}

/// Decodes the attribute at `off`, whose length has been checked.
pub fn decode_attribute(b: &[u8], off: usize) -> (r: Result<MftAttribute, AttributeError>)
    requires
        !is_end(b@, off as int),
        length_ok(b@, off as int),
    ensures
        r is Err <==> attribute_error(b@, off as int) is Some,
        r is Err ==> attribute_error(b@, off as int) == Some(r->Err_0),
        r is Ok ==> attribute_matches(b@, off as int, r->Ok_0),
{
    let _n = b.len();
    let type_code = read_u32(b, off);
    let record_length = read_u32(b, off + 4);
    let non_resident = b[off + 8] != 0;
    let name_length = b[off + 9];
    let name_offset = read_u16(b, off + 10);
    let end: usize = off + record_length as usize;
    let name = if name_length == 0 {
        String::new()
    } else {
        let rel_end: usize = name_offset as usize + 2 * name_length as usize;
        if rel_end > record_length as usize {
            return Err(AttributeError::NameOutOfBounds);
        }
        let bytes = copy_range(b, off + name_offset as usize, off + rel_end);
        match decode_utf16le(bytes.as_slice()) {
            Some(s) => s,
            None => String::new(),
        }
    };
    let header = AttributeHeader {
        type_code,
        record_length,
        non_resident,
        name_length,
        name_offset,
        flags: read_u16(b, off + 12),
        instance: read_u16(b, off + 14),
        name,
    };
    if !non_resident {
        let value_offset = read_u16(b, off + 20) as u64;
        let vlen = read_u32(b, off + 16) as u64;
        if value_offset + vlen > record_length as u64 {
            return Err(AttributeError::ValueOutOfBounds);
        }
        let vs: usize = off + value_offset as usize;
        let value = copy_range(b, vs, vs + vlen as usize);
        if type_code == FILE_NAME {
            if value.len() < FILE_NAME_HEADER_SIZE || value.len() - FILE_NAME_HEADER_SIZE < 2
                * value[64] as usize {
                return Err(AttributeError::FileNameTooShort);
            }
            let f = decode_file_name(value.as_slice());
            Ok(MftAttribute { header, body: AttributeBody::FileName(f) })
        } else {
            Ok(MftAttribute { header, body: AttributeBody::Resident(value) })
        }
    } else {
        let datarun_offset = read_u16(b, off + 32);
        if datarun_offset as u32 > record_length {
            return Err(AttributeError::InvalidRunList(RunError::Truncated));
        }
        let window = copy_range(b, off + datarun_offset as usize, end);
        let runs = match decode_runs(window.as_slice()) {
            Ok(v) => v,
            Err(e) => {
                return Err(AttributeError::InvalidRunList(e));
            },
        };
        let nr = NonResidentAttr {
            vnc_first: read_u64(b, off + 16),
            vnc_last: read_u64(b, off + 24),
            datarun_offset,
            unit_compression_size: read_u16(b, off + 34),
            allocated_length: read_u64(b, off + 40),
            file_size: read_u64(b, off + 48),
            valid_data_length: read_u64(b, off + 56),
            data_runs: runs,
        };
        Ok(MftAttribute { header, body: AttributeBody::NonResident(nr) })
    }
}

/// The offsets of the attributes that a walk from `off` visits: it stops at
/// the end marker or the end of the buffer, and after an attribute whose
/// length is unsound, since nothing locates the next one.
pub open spec fn attr_offsets(b: Seq<u8>, off: int) -> Seq<int>
    decreases b.len() - off,
{
    if off < 0 || is_end(b, off) {
        Seq::empty()
    } else if !length_ok(b, off) {
        seq![off]
    } else {
        seq![off] + attr_offsets(b, off + attr_len(b, off))
    }
}

/// Whether `r` is the outcome of decoding the attribute at `off`.
pub open spec fn attribute_outcome(b: Seq<u8>, off: int, r: Result<MftAttribute, AttributeError>) -> bool {
    if !length_ok(b, off) {
        r == Err::<MftAttribute, AttributeError>(AttributeError::AttributeLengthOverflow)
    } else {
        &&& (r is Err <==> attribute_error(b, off) is Some)
        &&& (r is Err ==> attribute_error(b, off) == Some(r->Err_0))
        &&& (r is Ok ==> attribute_matches(b, off, r->Ok_0))
    }
}

impl MftEntry {
    /// The entry's attributes in stored order, from the first-attribute
    /// offset up to the end marker. One that does not decode is reported in
    /// its place and the walk goes on past it; one whose length is unsound
    /// is reported and ends the walk.
    pub fn attributes(&self) -> (r: Vec<Result<MftAttribute, AttributeError>>)
        ensures
            r@.len() == attr_offsets(self.data@, self.header.first_attribute_offset as int).len(),
            forall|i: int|
                0 <= i < r@.len() ==> attribute_outcome(
                    self.data@,
                    #[trigger] attr_offsets(self.data@, self.header.first_attribute_offset as int)[i],
                    r@[i],
                ),
    {
        let b = self.data.as_slice();
        let n = b.len();
        let ghost all = attr_offsets(b@, self.header.first_attribute_offset as int);
        let mut out: Vec<Result<MftAttribute, AttributeError>> = Vec::new();
        let mut off: usize = self.header.first_attribute_offset as usize;
        loop
            invariant
                n == b@.len(),
                b@ == self.data@,
                all == attr_offsets(b@, self.header.first_attribute_offset as int),
                out@.len() <= all.len(),
                attr_offsets(b@, off as int) == all.skip(out@.len() as int),
                forall|i: int| 0 <= i < out@.len() ==> attribute_outcome(b@, #[trigger] all[i], out@[i]),
            decreases n - off + 4,
        {
            let ghost k = out@.len() as int;
            if n < 4 || off > n - 4 || read_u32(b, off) == ATTRIBUTE_END {
                assert(all.skip(k).len() == 0);
                return out;
            }
            assert(!is_end(b@, off as int));
            assert(attr_offsets(b@, off as int)[0] == off);
            assert(attr_offsets(b@, off as int).len() >= 1);
            assert(all.skip(k).len() == all.len() - k);
            assert(k < all.len());
            assert(all.skip(k)[0] == all[k]);
            if n - off < COMMON_HEADER_SIZE {
                out.push(Err(AttributeError::AttributeLengthOverflow));
                assert(all.skip(k).len() == 1);
                return out;
            }
            let len = read_u32(b, off + 4) as usize;
            let min: usize = if b[off + 8] != 0 {
                NON_RESIDENT_HEADER_SIZE
            } else {
                RESIDENT_HEADER_SIZE
            };
            if len < min || len > n - off {
                out.push(Err(AttributeError::AttributeLengthOverflow));
                assert(all.skip(k).len() == 1);
                return out;
            }
            let a = decode_attribute(b, off);
            out.push(a);
            assert(all.skip(k).drop_first() =~= all.skip(k + 1));
            off = off + len;
        }
    }
}

} // verus!
