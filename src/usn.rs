//! USN change-journal records: decoding one record from its bytes, and walking
//! a journal of records laid end to end.
use vstd::prelude::*;
use crate::flags::{
    FileAttributeFlags, UsnReasonFlags, UsnSourceInfoFlags, FILE_ATTRIBUTE_ALL, USN_REASON_ALL,
    USN_SOURCE_ALL,
};
use crate::le::{copy_range, i64_at, read_i64, read_u16, read_u32, read_u64, u16_at, u32_at, u64_at};
use encoding::all::UTF_16LE;
use encoding::{DecoderTrap, Encoding};
use winstructs::timestamp::WinTimestamp;

verus! {

/// Size of the fixed part of a record; the file name follows it.
pub const USN_HEADER_SIZE: usize = 60;

/// The text that UTF-16LE decoding of `bytes` gives when malformed code units
/// are dropped.
pub uninterp spec fn utf16le_text(bytes: Seq<u8>) -> Seq<char>;

/// The calendar rendering, in UTC, of a count of 100-nanosecond intervals
/// since 1601-01-01.
pub uninterp spec fn filetime_text(ticks: u64) -> Seq<char>;

/// Relies on encoding's `UTF_16LE.decode` with `DecoderTrap::Ignore`: its
/// trap accepts every malformed sequence, so decoding never fails, and the
/// text depends on the bytes alone.
#[verifier::external_body]
pub(crate) fn decode_utf16le(bytes: &[u8]) -> (r: Option<String>)
    ensures
        r is Some,
        r is Some ==> r->0@ == utf16le_text(bytes@),
{
    match UTF_16LE.decode(bytes, DecoderTrap::Ignore) {
        Ok(s) => Some(s),
        Err(_) => None,
    }
}

/// Relies on winstructs' `WinTimestamp::new` on eight little-endian bytes,
/// which cannot run short, and on `to_datetime` with chrono's `Display` for
/// the text, which depends on the tick count alone.
#[verifier::external_body]
fn render_filetime(ticks: u64) -> (r: Option<String>)
    ensures
        r is Some,
        r is Some ==> r->0@ == filetime_text(ticks),
{
    match WinTimestamp::new(&ticks.to_le_bytes()) {
        Ok(t) => Some(t.to_datetime().to_string()),
        Err(_) => None,
    }
}

/// A point in time as NTFS stores it: 100-nanosecond intervals since
/// 1601-01-01 UTC.
#[derive(Clone, Copy, Debug, PartialEq, Eq, Structural)]
pub struct FileTime {
    pub ticks: u64,
}

impl FileTime {
    /// The time as UTC calendar text, e.g. `2013-10-19 12:16:53.276040 UTC`.
    pub fn to_datetime_string(&self) -> (r: String)
        ensures
            r@ == filetime_text(self.ticks),
    {
        match render_filetime(self.ticks) {
            Some(s) => s,
            None => String::new(),
        }
    }
}

/// Why a record could not be decoded.
#[derive(Clone, Copy, Debug, PartialEq, Eq, Structural)]
pub enum UsnError {
    /// The bytes end before the fixed fields or the file name do.
    UnexpectedEof,
    /// The file name bytes could not be decoded at all.
    InvalidFilename,
}

/// One decoded USN journal record.
#[derive(Clone, Debug)]
pub struct UsnJournalEntry {
    /// Total length of the record in bytes.
    pub record_length: u32,
    pub major_version: u16,
    pub minor_version: u16,
    /// Identifier of the file the record is about.
    pub file_reference_number: u64,
    /// Identifier of that file's parent directory.
    pub parent_file_reference_number: u64,
    /// Position of the record in the volume's change stream.
    pub usn: i64,
    /// When the record was written.
    pub time_stamp: FileTime,
    pub reason: UsnReasonFlags,
    pub source_info: UsnSourceInfoFlags,
    pub security_id: u32,
    pub file_attributes: FileAttributeFlags,
    /// Length of the file name in bytes.
    pub file_name_length: u16,
    /// Offset of the file name from the start of the record, as stored.
    pub file_name_offset: u16,
    pub file_name: String,
}

/// The length of the file name that the record in `b` declares.
pub open spec fn name_len(b: Seq<u8>) -> int {
    u16_at(b, 56)
}

/// Whether `b` holds the fixed fields and the whole file name after them.
pub open spec fn record_complete(b: Seq<u8>) -> bool {
    b.len() >= USN_HEADER_SIZE && b.len() >= USN_HEADER_SIZE + name_len(b)
}

/// Whether `e` is what the record in `b` holds, field by field.
pub open spec fn decodes_to(b: Seq<u8>, e: UsnJournalEntry) -> bool {
    &&& e.record_length as int == u32_at(b, 0)
    &&& e.major_version as int == u16_at(b, 4)
    &&& e.minor_version as int == u16_at(b, 6)
    &&& e.file_reference_number as int == u64_at(b, 8)
    &&& e.parent_file_reference_number as int == u64_at(b, 16)
    &&& e.usn as int == i64_at(b, 24)
    &&& e.time_stamp.ticks as int == u64_at(b, 32)
    &&& e.reason.bits == (u32_at(b, 40) as u32) & USN_REASON_ALL
    &&& e.source_info.bits == (u32_at(b, 44) as u32) & USN_SOURCE_ALL
    &&& e.security_id as int == u32_at(b, 48)
    &&& e.file_attributes.bits == (u32_at(b, 52) as u32) & FILE_ATTRIBUTE_ALL
    &&& e.file_name_length as int == name_len(b)
    &&& e.file_name_offset as int == u16_at(b, 58)
    &&& e.file_name@ == utf16le_text(
        b.subrange(USN_HEADER_SIZE as int, USN_HEADER_SIZE + name_len(b)),
    )
}

impl UsnJournalEntry {
    /// Decodes one record from `buf`. The file name is read from right after
    /// the fixed fields, `file_name_length` bytes long.
    pub fn from_buffer(buf: &[u8]) -> (r: Result<UsnJournalEntry, UsnError>)
        ensures
            r is Ok <==> record_complete(buf@),
            r is Ok ==> decodes_to(buf@, r->Ok_0),
            r is Err ==> r->Err_0 == UsnError::UnexpectedEof,
    {
        let n = buf.len();
        if n < USN_HEADER_SIZE {
            return Err(UsnError::UnexpectedEof);
        }
        let file_name_length = read_u16(buf, 56);
        let name_end: usize = USN_HEADER_SIZE + file_name_length as usize;
        if n < name_end {
            return Err(UsnError::UnexpectedEof);
        }
        let name_bytes = copy_range(buf, USN_HEADER_SIZE, name_end);
        let file_name = match decode_utf16le(name_bytes.as_slice()) {
            Some(s) => s,
            None => return Err(UsnError::InvalidFilename),
        };
        Ok(UsnJournalEntry {
            record_length: read_u32(buf, 0),
            major_version: read_u16(buf, 4),
            minor_version: read_u16(buf, 6),
            file_reference_number: read_u64(buf, 8),
            parent_file_reference_number: read_u64(buf, 16),
            usn: read_i64(buf, 24),
            time_stamp: FileTime { ticks: read_u64(buf, 32) },
            reason: UsnReasonFlags::from_bits_truncate(read_u32(buf, 40)),
            source_info: UsnSourceInfoFlags::from_bits_truncate(read_u32(buf, 44)),
            security_id: read_u32(buf, 48),
            file_attributes: FileAttributeFlags::from_bits_truncate(read_u32(buf, 52)),
            file_name_length,
            file_name_offset: read_u16(buf, 58),
            file_name,
        })
    }
}

} // verus!
