use mft::flags::{FileAttributeFlags, UsnReasonFlags, UsnSourceInfoFlags};
use mft::journal::UsnJournalParser;
use mft::usn::{FileTime, UsnError, UsnJournalEntry};

const BUFFER: &[u8] = &[
    0x60, 0x00, 0x00, 0x00, 0x02, 0x00, 0x00, 0x00, 0x73, 0x00, 0x00, 0x00, 0x00, 0x00, 0x68, 0x91,
    0x3B, 0x2A, 0x02, 0x00, 0x00, 0x00, 0x07, 0x00, 0x00, 0x00, 0x80, 0xBC, 0x04, 0x00, 0x00, 0x00,
    0x53, 0xC7, 0x8B, 0x18, 0xC5, 0xCC, 0xCE, 0x01, 0x02, 0x00, 0x00, 0x00, 0x00, 0x00, 0x00, 0x00,
    0x00, 0x00, 0x00, 0x00, 0x20, 0x20, 0x00, 0x00, 0x20, 0x00, 0x3C, 0x00, 0x42, 0x00, 0x54, 0x00,
    0x44, 0x00, 0x65, 0x00, 0x76, 0x00, 0x4D, 0x00, 0x61, 0x00, 0x6E, 0x00, 0x61, 0x00, 0x67, 0x00,
    0x65, 0x00, 0x72, 0x00, 0x2E, 0x00, 0x6C, 0x00, 0x6F, 0x00, 0x67, 0x00, 0x00, 0x00, 0x00, 0x00,
];

fn check_sample(record: &UsnJournalEntry) {
    assert_eq!(record.record_length, 96);
    assert_eq!(record.major_version, 2);
    assert_eq!(record.minor_version, 0);
    assert_eq!(record.usn, 20342374400);
    assert_eq!(record.time_stamp.to_datetime_string(), "2013-10-19 12:16:53.276040 UTC");
    assert_eq!(record.reason.bits(), 2);
    assert_eq!(record.source_info.bits(), 0);
    assert_eq!(record.security_id, 0);
    assert_eq!(record.file_attributes.bits(), 8224);
    assert_eq!(record.file_name_length, 32);
    assert_eq!(record.file_name_offset, 60);
    assert_eq!(record.file_name, "BTDevManager.log");
}

#[test]
fn test_record() {
    let mut parser = UsnJournalParser::new(BUFFER.to_vec());
    let record = parser.next().unwrap().unwrap();
    check_sample(&record);
}

#[test]
fn test_process_usn_journal() {
    let mut journal = Vec::new();
    for _ in 0..4 {
        journal.extend_from_slice(BUFFER);
    }
    let mut parser = UsnJournalParser::new(journal);
    let mut count = 0;
    while let Some(record) = parser.next() {
        check_sample(&record.unwrap());
        count += 1;
    }
    assert!(count > 0)
}

#[test]
fn three_records_then_zero_padding_yield_three() {
    let mut journal = Vec::new();
    for _ in 0..3 {
        journal.extend_from_slice(BUFFER);
    }
    journal.extend_from_slice(&[0u8; 200]);
    let mut parser = UsnJournalParser::new(journal);
    let all = parser.iter_entries();
    assert_eq!(all.len(), 3);
    for r in &all {
        check_sample(r.as_ref().unwrap());
    }
    assert!(parser.next().is_none());
}

#[test]
fn a_short_tail_ends_the_walk() {
    let mut journal = BUFFER.to_vec();
    journal.extend_from_slice(&BUFFER[..50]);
    let mut parser = UsnJournalParser::new(journal);
    assert!(parser.next().unwrap().is_ok());
    assert!(parser.next().is_none());
    let mut two = UsnJournalParser::new(vec![0x60, 0x00]);
    assert!(two.next().is_none());
}

#[test]
fn a_record_too_short_for_its_fields_is_an_error() {
    let mut short = vec![0x10u8, 0, 0, 0];
    short.extend_from_slice(&[0u8; 12]);
    let mut parser = UsnJournalParser::new(short);
    assert_eq!(parser.next().unwrap().err(), Some(UsnError::UnexpectedEof));
    assert!(parser.next().is_none());
    assert_eq!(UsnJournalEntry::from_buffer(&BUFFER[..70]).err(), Some(UsnError::UnexpectedEof));
}

#[test]
fn the_name_follows_the_fixed_fields() {
    let record = UsnJournalEntry::from_buffer(BUFFER).unwrap();
    assert_eq!(record.file_name, "BTDevManager.log");
    assert_eq!(record.file_reference_number, 0x9168_0000_0000_0073);
    assert_eq!(record.parent_file_reference_number, 0x0007_0000_0002_2A3B);
}

#[test]
fn reason_meanings() {
    let r = UsnReasonFlags::from_bits_truncate(0x2);
    assert_eq!(r.get_meaning(), "The file or directory is extended (added to).");
    assert_eq!(
        UsnReasonFlags::from_bits_truncate(0x8000_0000).get_meaning(),
        "The file or directory is closed."
    );
    assert_eq!(UsnReasonFlags::from_bits_truncate(0x3).get_meaning(), "");
    assert!(UsnReasonFlags::from_bits_truncate(0x3).contains(r));
}

#[test]
fn source_meanings() {
    assert!(UsnSourceInfoFlags::from_bits_truncate(4).get_meaning().starts_with("The operation modified"));
    assert_eq!(UsnSourceInfoFlags::from_bits_truncate(0).get_meaning(), "");
}

#[test]
fn unknown_bits_are_dropped() {
    assert_eq!(UsnReasonFlags::from_bits_truncate(0xFFFF_FFFF).bits(), 0x80BF_FF77);
    assert_eq!(UsnSourceInfoFlags::from_bits_truncate(0xF8).bits(), 0);
    assert_eq!(FileAttributeFlags::from_bits_truncate(0x2028).bits(), 0x2020);
}

#[test]
fn filetime_renders_in_utc() {
    let t = FileTime { ticks: 0 };
    assert_eq!(t.to_datetime_string(), "1601-01-01 00:00:00 UTC");
}
