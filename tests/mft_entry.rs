use mft::attribute::{AttributeBody, AttributeError, FILE_NAME};
use mft::entry::{apply_fixup, EntryError, FileReference, MftEntry};
use mft::path::{step_after_lookup, EntryTable, PathResolver, PathStatus, StepOutcome};
use mft::runs::{decode_runs, run_clusters, DataRun, RunError};

const USN: [u8; 2] = [0x07, 0x00];

fn put_u16(b: &mut [u8], off: usize, v: u16) {
    b[off..off + 2].copy_from_slice(&v.to_le_bytes());
}

fn put_u32(b: &mut [u8], off: usize, v: u32) {
    b[off..off + 4].copy_from_slice(&v.to_le_bytes());
}

fn put_u64(b: &mut [u8], off: usize, v: u64) {
    b[off..off + 8].copy_from_slice(&v.to_le_bytes());
}

/// An entry slot of 1024 bytes with its attributes laid out after the
/// header, not yet protected by fixups.
fn plain_entry(index: u32, seq: u16, attrs: &[Vec<u8>]) -> Vec<u8> {
    let mut b = vec![0u8; 1024];
    b[0..4].copy_from_slice(b"FILE");
    put_u16(&mut b, 4, 48);
    put_u16(&mut b, 6, 3);
    put_u64(&mut b, 8, 0x1234);
    put_u16(&mut b, 16, seq);
    put_u16(&mut b, 18, 1);
    put_u16(&mut b, 20, 56);
    put_u16(&mut b, 22, 1);
    put_u32(&mut b, 28, 1024);
    put_u32(&mut b, 44, index);
    let mut off = 56;
    for a in attrs {
        b[off..off + a.len()].copy_from_slice(a);
        off += a.len();
    }
    put_u32(&mut b, off, 0xFFFF_FFFF);
    put_u32(&mut b, 24, (off + 8) as u32);
    b
}

/// What a writer puts on disk: trailers moved into the fixup array and
/// replaced by the update sequence value.
fn protect(plain: &[u8]) -> Vec<u8> {
    let mut b = plain.to_vec();
    b[48..50].copy_from_slice(&USN);
    for k in 0..2 {
        let t = 512 * k + 510;
        b[50 + 2 * k] = plain[t];
        b[51 + 2 * k] = plain[t + 1];
        b[t..t + 2].copy_from_slice(&USN);
    }
    b
}

fn entry(index: u32, seq: u16, attrs: &[Vec<u8>]) -> MftEntry {
    MftEntry::from_buffer(protect(&plain_entry(index, seq, attrs))).unwrap()
}

fn file_name_attr(parent: u64, parent_seq: u16, name: &str, namespace: u8) -> Vec<u8> {
    let units: Vec<u8> = name.encode_utf16().flat_map(|u| u.to_le_bytes()).collect();
    let mut value = vec![0u8; 66];
    put_u64(&mut value, 0, ((parent_seq as u64) << 48) | parent);
    put_u64(&mut value, 40, 4096);
    put_u64(&mut value, 48, 100);
    value[64] = (units.len() / 2) as u8;
    value[65] = namespace;
    value.extend_from_slice(&units);
    let len = (24 + value.len() + 7) / 8 * 8;
    let mut a = vec![0u8; len];
    put_u32(&mut a, 0, FILE_NAME);
    put_u32(&mut a, 4, len as u32);
    put_u32(&mut a, 16, value.len() as u32);
    put_u16(&mut a, 20, 24);
    a[24..24 + value.len()].copy_from_slice(&value);
    a
}

fn non_resident_data_attr(runs: &[u8], allocated: u64) -> Vec<u8> {
    let len = (64 + runs.len() + 7) / 8 * 8;
    let mut a = vec![0u8; len];
    put_u32(&mut a, 0, 0x80);
    put_u32(&mut a, 4, len as u32);
    a[8] = 1;
    put_u16(&mut a, 14, 3);
    put_u64(&mut a, 24, 47);
    put_u16(&mut a, 32, 64);
    put_u64(&mut a, 40, allocated);
    put_u64(&mut a, 48, allocated - 10);
    put_u64(&mut a, 56, allocated - 10);
    a[64..64 + runs.len()].copy_from_slice(runs);
    a
}

#[test]
fn fixup_restores_the_original_trailers() {
    let mut plain = plain_entry(30, 1, &[]);
    plain[510] = 0xAA;
    plain[511] = 0xBB;
    plain[1022] = 0xCC;
    plain[1023] = 0xDD;
    let protected = protect(&plain);
    assert_eq!(&protected[510..512], &USN);
    let e = MftEntry::from_buffer(protected).unwrap();
    assert!(e.fixup_intact);
    assert_eq!(&e.data[510..512], &[0xAA, 0xBB]);
    assert_eq!(&e.data[1022..1024], &[0xCC, 0xDD]);
    assert_eq!(&e.data[56..], &plain[56..]);
}

#[test]
fn a_torn_sector_is_reported_not_fatal() {
    let mut b = protect(&plain_entry(30, 1, &[]));
    b[1022] = 0x99;
    let e = MftEntry::from_buffer(b).unwrap();
    assert!(!e.fixup_intact);
    assert_eq!(&e.data[1022..1024], &[0, 0]);
}

#[test]
fn apply_fixup_in_place() {
    let mut b = vec![0u8; 1024];
    b[10..16].copy_from_slice(&[0x01, 0x02, 0xAB, 0xCD, 0xEF, 0x12]);
    b[510..512].copy_from_slice(&[0x01, 0x02]);
    b[1022..1024].copy_from_slice(&[0x01, 0x02]);
    assert!(apply_fixup(&mut b, 10, 3));
    assert_eq!(&b[510..512], &[0xAB, 0xCD]);
    assert_eq!(&b[1022..1024], &[0xEF, 0x12]);
}

#[test]
fn decoding_twice_gives_the_same_entry() {
    let bytes = protect(&plain_entry(30, 4, &[file_name_attr(5, 5, "a.txt", 1)]));
    let a = MftEntry::from_buffer(bytes.clone()).unwrap();
    let b = MftEntry::from_buffer(bytes).unwrap();
    assert_eq!(a.header, b.header);
    assert_eq!(a.data, b.data);
    assert_eq!(a.fixup_intact, b.fixup_intact);
}

#[test]
fn header_fields_are_decoded() {
    let e = entry(30, 4, &[]);
    assert_eq!(e.header.signature, 0x454C_4946);
    assert_eq!(e.header.sequence, 4);
    assert_eq!(e.header.record_number, 30);
    assert_eq!(e.header.first_attribute_offset, 56);
    assert_eq!(e.header.total_entry_size, 1024);
    assert_eq!(e.header.log_sequence_number, 0x1234);
    assert!(e.is_allocated());
    assert!(!e.is_dir());
    assert!(!e.is_unused());
}

#[test]
fn an_unused_slot_is_never_an_error() {
    let mut b = vec![0xEEu8; 1024];
    b[0..4].copy_from_slice(&[0, 0, 0, 0]);
    let e = MftEntry::from_buffer(b).unwrap();
    assert!(e.is_unused());
    assert!(MftEntry::from_buffer(vec![0u8; 48]).unwrap().is_unused());
}

#[test]
fn entry_errors() {
    assert_eq!(MftEntry::from_buffer(vec![0u8; 47]).err(), Some(EntryError::TruncatedEntry));
    let mut bad = protect(&plain_entry(30, 1, &[]));
    bad[0..4].copy_from_slice(b"BAAD");
    assert_eq!(MftEntry::from_buffer(bad).err(), Some(EntryError::InvalidSignature));
    let mut wide = protect(&plain_entry(30, 1, &[]));
    put_u16(&mut wide, 6, 4);
    assert_eq!(MftEntry::from_buffer(wide).err(), Some(EntryError::InvalidFixupArray));
    let mut oversized = protect(&plain_entry(30, 1, &[]));
    put_u32(&mut oversized, 24, 2000);
    assert_eq!(MftEntry::from_buffer(oversized).err(), Some(EntryError::TruncatedEntry));
    let mut short = protect(&plain_entry(30, 1, &[]));
    short.truncate(1000);
    assert_eq!(MftEntry::from_buffer(short).err(), Some(EntryError::TruncatedEntry));
    let mut far = protect(&plain_entry(30, 1, &[]));
    put_u16(&mut far, 4, 508);
    assert_eq!(MftEntry::from_buffer(far).err(), Some(EntryError::InvalidFixupArray));
}

#[test]
fn file_name_attribute_is_decoded() {
    let e = entry(30, 1, &[file_name_attr(41, 2, "report.txt", 3)]);
    let attrs = e.attributes();
    assert_eq!(attrs.len(), 1);
    let a = attrs[0].as_ref().unwrap();
    assert_eq!(a.header.type_code, FILE_NAME);
    assert!(!a.header.non_resident);
    assert_eq!(a.header.name, "");
    match &a.body {
        AttributeBody::FileName(f) => {
            assert_eq!(f.parent, FileReference { entry: 41, sequence: 2 });
            assert_eq!(f.name, "report.txt");
            assert_eq!(f.namespace, 3);
            assert_eq!(f.logical_size, 4096);
            assert_eq!(f.physical_size, 100);
        }
        _ => panic!("expected a FILE_NAME"),
    }
}

#[test]
fn attributes_keep_their_order_and_duplicates() {
    let e = entry(
        30,
        1,
        &[file_name_attr(5, 5, "LONGNAME.TXT", 2), file_name_attr(5, 5, "long name.txt", 1)],
    );
    let attrs = e.attributes();
    assert_eq!(attrs.len(), 2);
    let names: Vec<String> = attrs
        .iter()
        .map(|a| match &a.as_ref().unwrap().body {
            AttributeBody::FileName(f) => f.name.clone(),
            _ => String::new(),
        })
        .collect();
    assert_eq!(names, vec!["LONGNAME.TXT".to_string(), "long name.txt".to_string()]);
}

#[test]
fn a_bad_attribute_length_ends_the_walk() {
    let mut a = file_name_attr(5, 5, "x", 1);
    put_u32(&mut a, 4, 8);
    let e = entry(30, 1, &[a]);
    let attrs = e.attributes();
    assert_eq!(attrs.len(), 1);
    assert_eq!(attrs[0].as_ref().err(), Some(&AttributeError::AttributeLengthOverflow));
}

#[test]
fn a_bad_value_is_reported_and_the_walk_goes_on() {
    let mut a = file_name_attr(5, 5, "x", 1);
    put_u32(&mut a, 16, 4000);
    let e = entry(30, 1, &[a, file_name_attr(5, 5, "y", 1)]);
    let attrs = e.attributes();
    assert_eq!(attrs.len(), 2);
    assert_eq!(attrs[0].as_ref().err(), Some(&AttributeError::ValueOutOfBounds));
    assert!(attrs[1].is_ok());
}

#[test]
fn data_runs_add_up_to_the_allocated_size() {
    let runs = [0x21, 0x10, 0x00, 0x01, 0x11, 0x20, 0xE0, 0x00];
    let e = entry(30, 1, &[non_resident_data_attr(&runs, 48 * 4096)]);
    let attrs = e.attributes();
    let a = attrs[0].as_ref().unwrap();
    assert!(a.header.non_resident);
    match &a.body {
        AttributeBody::NonResident(nr) => {
            assert_eq!(
                nr.data_runs,
                vec![
                    DataRun { lcn_length: 16, lcn_offset: Some(256) },
                    DataRun { lcn_length: 32, lcn_offset: Some(224) },
                ]
            );
            let clusters = run_clusters(&nr.data_runs).unwrap();
            assert_eq!(clusters * 4096, nr.allocated_length);
            assert!(nr.allocation_consistent(4096));
            assert!(!nr.allocation_consistent(512));
            assert_eq!(nr.vnc_last, 47);
        }
        _ => panic!("expected a non-resident attribute"),
    }
}

#[test]
fn sparse_runs_and_run_errors() {
    assert_eq!(
        decode_runs(&[0x01, 0x05, 0x11, 0x02, 0x0A, 0x00]).unwrap(),
        vec![
            DataRun { lcn_length: 5, lcn_offset: None },
            DataRun { lcn_length: 2, lcn_offset: Some(10) },
        ]
    );
    assert_eq!(decode_runs(&[0x11, 0x05]).err(), Some(RunError::Truncated));
    assert_eq!(decode_runs(&[0x11, 0x05, 0x01]).err(), Some(RunError::Truncated));
    assert_eq!(decode_runs(&[0x10, 0x05, 0x00]).err(), Some(RunError::InvalidHeader));
    assert_eq!(decode_runs(&[0x19, 0, 0, 0, 0, 0, 0, 0, 0, 0, 0, 0]).err(), Some(RunError::InvalidHeader));
    assert_eq!(decode_runs(&[0x00]).unwrap(), vec![]);
}

#[test]
fn root_resolves_with_no_lookup() {
    let root = entry(5, 5, &[file_name_attr(5, 5, ".", 3)]);
    let mut table = EntryTable { entries: vec![] };
    let mut resolver = PathResolver::new(64);
    let p = resolver.resolve(&root, &mut table);
    assert!(p.components.is_empty());
    assert_eq!(p.status, PathStatus::Complete);
    assert_eq!(resolver.requested.len(), 0);
}

#[test]
fn a_chain_resolves_to_the_root() {
    let file = entry(40, 1, &[file_name_attr(41, 2, "f.txt", 1)]);
    let dir = entry(41, 2, &[file_name_attr(5, 5, "docs", 1)]);
    let mut table = EntryTable { entries: vec![dir] };
    let mut resolver = PathResolver::new(64);
    let p = resolver.resolve(&file, &mut table);
    assert_eq!(p.components, vec!["docs".to_string(), "f.txt".to_string()]);
    assert_eq!(p.status, PathStatus::Complete);
    assert_eq!(resolver.requested, vec![41]);
}

#[test]
fn the_second_resolution_comes_from_the_cache() {
    let file = entry(40, 1, &[file_name_attr(41, 2, "f.txt", 1)]);
    let dir = entry(41, 2, &[file_name_attr(5, 5, "docs", 1)]);
    let mut table = EntryTable { entries: vec![dir] };
    let mut resolver = PathResolver::new(64);
    let first = resolver.resolve(&file, &mut table);
    let lookups = resolver.requested.len();
    let second = resolver.resolve(&file, &mut table);
    assert_eq!(first.components, second.components);
    assert_eq!(first.status, second.status);
    assert_eq!(resolver.requested.len(), lookups);
}

#[test]
fn an_ancestor_in_the_cache_is_reused() {
    let dir = entry(41, 2, &[file_name_attr(5, 5, "docs", 1)]);
    let file = entry(40, 1, &[file_name_attr(41, 2, "f.txt", 1)]);
    let mut table = EntryTable { entries: vec![dir.clone()] };
    let mut resolver = PathResolver::new(64);
    resolver.resolve(&dir, &mut table);
    let p = resolver.resolve(&file, &mut table);
    assert_eq!(p.components, vec!["docs".to_string(), "f.txt".to_string()]);
    assert_eq!(resolver.requested.len(), 0);
}

#[test]
fn a_cycle_ends_with_a_partial_path() {
    let a = entry(30, 1, &[file_name_attr(31, 1, "a", 1)]);
    let b = entry(31, 1, &[file_name_attr(30, 1, "b", 1)]);
    let mut table = EntryTable { entries: vec![a.clone(), b] };
    let mut resolver = PathResolver::new(64);
    let p = resolver.resolve(&a, &mut table);
    assert_eq!(p.status, PathStatus::CyclePath);
    assert_eq!(p.components, vec!["b".to_string(), "a".to_string()]);
}

#[test]
fn a_reused_parent_slot_is_stale() {
    let file = entry(40, 1, &[file_name_attr(41, 2, "f.txt", 1)]);
    let dir = entry(41, 3, &[file_name_attr(5, 5, "docs", 1)]);
    let mut table = EntryTable { entries: vec![dir] };
    let mut resolver = PathResolver::new(64);
    let p = resolver.resolve(&file, &mut table);
    assert_eq!(p.status, PathStatus::StaleParent);
    assert_eq!(p.components, vec!["f.txt".to_string()]);
}

#[test]
fn a_missing_parent_is_reported() {
    let file = entry(40, 1, &[file_name_attr(41, 2, "f.txt", 1)]);
    let mut table = EntryTable { entries: vec![] };
    let mut resolver = PathResolver::new(64);
    let p = resolver.resolve(&file, &mut table);
    assert_eq!(p.status, PathStatus::MissingParent);
    assert_eq!(p.components, vec!["f.txt".to_string()]);
}

#[test]
fn the_win32_name_is_preferred() {
    let file = entry(
        40,
        1,
        &[file_name_attr(5, 5, "LONGNA~1.TXT", 2), file_name_attr(5, 5, "long name.txt", 1)],
    );
    let mut table = EntryTable { entries: vec![] };
    let mut resolver = PathResolver::new(64);
    let p = resolver.resolve(&file, &mut table);
    assert_eq!(p.components, vec!["long name.txt".to_string()]);
}

#[test]
fn a_long_chain_stops_at_the_depth_bound() {
    let file = entry(40, 1, &[file_name_attr(41, 1, "f", 1)]);
    let d1 = entry(41, 1, &[file_name_attr(42, 1, "d1", 1)]);
    let d2 = entry(42, 1, &[file_name_attr(5, 5, "d2", 1)]);
    let mut table = EntryTable { entries: vec![d1, d2] };
    let mut resolver = PathResolver::new(1);
    let p = resolver.resolve(&file, &mut table);
    assert_eq!(p.status, PathStatus::TooDeep);
    assert_eq!(p.components, vec!["d1".to_string(), "f".to_string()]);
}

#[test]
fn an_entry_that_is_its_own_parent_is_a_cycle() {
    let a = entry(30, 1, &[file_name_attr(30, 1, "self", 1)]);
    let mut table = EntryTable { entries: vec![a.clone()] };
    let mut resolver = PathResolver::new(64);
    let p = resolver.resolve(&a, &mut table);
    assert_eq!(p.status, PathStatus::CyclePath);
    assert_eq!(p.components, vec!["self".to_string()]);
    assert!(resolver.requested.is_empty());
}

#[test]
fn a_cycle_asks_each_index_once() {
    let a = entry(30, 1, &[file_name_attr(31, 1, "a", 1)]);
    let b = entry(31, 1, &[file_name_attr(32, 1, "b", 1)]);
    let c = entry(32, 1, &[file_name_attr(31, 1, "c", 1)]);
    let mut table = EntryTable { entries: vec![a.clone(), b, c] };
    let mut resolver = PathResolver::new(64);
    let p = resolver.resolve(&a, &mut table);
    assert_eq!(p.status, PathStatus::CyclePath);
    assert_eq!(p.components, vec!["c".to_string(), "b".to_string(), "a".to_string()]);
    assert_eq!(resolver.requested, vec![31, 32]);
}

#[test]
fn ancestors_are_cached_too() {
    let file = entry(40, 1, &[file_name_attr(41, 2, "f.txt", 1)]);
    let dir = entry(41, 2, &[file_name_attr(5, 5, "docs", 1)]);
    let other = entry(42, 1, &[file_name_attr(41, 2, "g.txt", 1)]);
    let mut table = EntryTable { entries: vec![dir] };
    let mut resolver = PathResolver::new(64);
    resolver.resolve(&file, &mut table);
    let p = resolver.resolve(&other, &mut table);
    assert_eq!(p.components, vec!["docs".to_string(), "g.txt".to_string()]);
    assert_eq!(resolver.requested, vec![41]);
}

#[test]
fn step_after_lookup_decides_one_step() {
    let dir = entry(41, 2, &[file_name_attr(5, 5, "docs", 1)]);
    let parent = FileReference { entry: 41, sequence: 2 };
    match step_after_lookup(parent, &vec![40], &Some(dir.clone())) {
        StepOutcome::Next(p, n) => {
            assert_eq!(p, FileReference { entry: 5, sequence: 5 });
            assert_eq!(n, "docs");
        }
        StepOutcome::Stop(_) => panic!("expected the walk to go on"),
    }
    let stale = FileReference { entry: 41, sequence: 1 };
    assert!(matches!(step_after_lookup(stale, &vec![40], &Some(dir.clone())), StepOutcome::Stop(PathStatus::StaleParent)));
    assert!(matches!(step_after_lookup(parent, &vec![40], &None), StepOutcome::Stop(PathStatus::MissingParent)));
    assert!(matches!(step_after_lookup(parent, &vec![41], &Some(dir)), StepOutcome::Stop(PathStatus::CyclePath)));
}
