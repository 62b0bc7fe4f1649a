use noontide_emu::pdb::parse_hex_file;
use noontide_emu::profile::{read_profile, written_bytes, Profile, ProfileError};
use noontide_emu::report::{band, hits_per_line, Band};
use std::collections::HashMap;

fn profile(entries: &[(u64, u64)]) -> Profile {
    Profile { hits: entries.iter().copied().collect() }
}

#[test]
fn record_counts_each_eip() {
    let mut profile = Profile::new();
    assert_eq!(profile.count(24), 0);
    assert!(profile.record(24));
    assert!(profile.record(0));
    assert!(profile.record(24));
    assert_eq!(profile.count(24), 2);
    assert_eq!(profile.count(0), 1);
    assert_eq!(profile.count(48), 0);
    assert_eq!(profile.hits, HashMap::from([(24, 2), (0, 1)]));
}

#[test]
fn record_stops_at_the_largest_count() {
    let mut full = profile(&[(8, u64::MAX - 1)]);
    assert!(full.record(8));
    assert_eq!(full.count(8), u64::MAX);
    assert!(!full.record(8));
    assert_eq!(full.count(8), u64::MAX);
    assert_eq!(full.hits.len(), 1);
}

#[test]
fn encoding_is_the_count_and_the_entries_least_significant_byte_first() {
    assert_eq!(Profile::new().encode(), Ok(vec![0u8; 8]));
    let bytes = profile(&[(0x0102, 3)]).encode().unwrap();
    assert_eq!(
        bytes,
        vec![1, 0, 0, 0, 0, 0, 0, 0, 0x02, 0x01, 0, 0, 0, 0, 0, 0, 3, 0, 0, 0, 0, 0, 0, 0]
    );
    let bytes = profile(&[(u64::MAX, 0x0102_0304_0506_0708)]).encode().unwrap();
    assert_eq!(
        bytes,
        vec![1, 0, 0, 0, 0, 0, 0, 0, 255, 255, 255, 255, 255, 255, 255, 255, 8, 7, 6, 5, 4, 3, 2, 1]
    );
}

#[test]
fn reloaded_profile_equals_the_recorded_one() {
    let mut recorded = Profile::new();
    for step in 0..1000u64 {
        recorded.record((step * step) % 97 * 24);
    }
    recorded.record(u64::MAX);
    let bytes = recorded.encode().unwrap();
    assert_eq!(bytes.len(), 8 + 16 * recorded.hits.len());
    let reloaded = Profile::decode(&bytes).unwrap();
    assert_eq!(reloaded.hits, recorded.hits);
    let empty = Profile::decode(&Profile::new().encode().unwrap()).unwrap();
    assert!(empty.hits.is_empty());
}

#[test]
fn decode_reads_the_entries() {
    let mut bytes = vec![2u8, 0, 0, 0, 0, 0, 0, 0];
    bytes.extend([0x18, 0, 0, 0, 0, 0, 0, 0, 5, 0, 0, 0, 0, 0, 0, 0]);
    bytes.extend([0, 1, 0, 0, 0, 0, 0, 0, 0, 0, 0, 0, 0, 0, 0, 0x80]);
    let read = Profile::decode(&bytes).unwrap();
    assert_eq!(read.hits, HashMap::from([(24, 5), (256, 1 << 63)]));
    // Bytes behind the entries are ignored.
    bytes.extend([9, 9, 9]);
    assert_eq!(Profile::decode(&bytes).unwrap().hits, read.hits);
    // Of two entries with the same key the later one stays.
    let mut twice = vec![2u8, 0, 0, 0, 0, 0, 0, 0];
    twice.extend([7, 0, 0, 0, 0, 0, 0, 0, 1, 0, 0, 0, 0, 0, 0, 0]);
    twice.extend([7, 0, 0, 0, 0, 0, 0, 0, 2, 0, 0, 0, 0, 0, 0, 0]);
    assert_eq!(Profile::decode(&twice).unwrap().hits, HashMap::from([(7, 2)]));
}

#[test]
fn decode_refuses_bytes_that_are_too_short() {
    let malformed = |bytes: &[u8]| match Profile::decode(bytes) {
        Ok(_) => None,
        Err(error) => Some(error),
    };
    assert_eq!(malformed(&[]), Some(ProfileError::Malformed));
    assert_eq!(malformed(&[0; 7]), Some(ProfileError::Malformed));
    assert_eq!(malformed(&[0; 8]), None);
    assert_eq!(malformed(&[1, 0, 0, 0, 0, 0, 0, 0]), Some(ProfileError::Malformed));
    let mut short = vec![1u8, 0, 0, 0, 0, 0, 0, 0];
    short.extend([0u8; 15]);
    assert_eq!(malformed(&short), Some(ProfileError::Malformed));
    short.push(0);
    assert_eq!(malformed(&short), None);
    assert_eq!(malformed(&[255; 24]), Some(ProfileError::Malformed));
    let mut two = vec![2u8, 0, 0, 0, 0, 0, 0, 0];
    two.extend([0u8; 16]);
    assert_eq!(malformed(&two), Some(ProfileError::Malformed));
}

#[test]
fn sorted_records_ascend_by_eip() {
    let profile = profile(&[(48, 1), (0, 9), (u64::MAX, 2), (24, 7), (1 << 40, 3)]);
    assert_eq!(
        profile.sorted_records(),
        vec![(0, 9), (24, 7), (48, 1), (1 << 40, 3), (u64::MAX, 2)]
    );
    assert!(Profile::new().sorted_records().is_empty());
}

fn lines() -> noontide_emu::pdb::DebugData {
    parse_hex_file(
        "0000000000000001\n\
         0000000000000002\n\
         000000000000000300000000000000040000000000000005\n\
         000000000000000600000000000000070000000000000008\n",
    )
}

fn hits(records: &[(u64, u64)]) -> Option<(Vec<u64>, u64)> {
    let report = hits_per_line(&records.to_vec(), &lines())?;
    let data = lines();
    for (index, line) in report.lines.iter().enumerate() {
        assert_eq!(line.1, data.offsets[index].1);
    }
    Some((report.lines.iter().map(|line| line.0).collect(), report.total))
}

#[test]
fn hits_are_summed_for_each_line() {
    assert_eq!(hits(&[(0, 5), (8, 1), (16, 10), (20, 2), (40, 7)]), Some((vec![5, 1, 12], 25)));
    assert_eq!(hits(&[(0, 5), (8, 1), (16, 10), (20, 2)]), Some((vec![5, 1], 18)));
    assert_eq!(hits(&[(0, 1), (40, 2)]), Some((vec![1, 0, 0], 3)));
    assert_eq!(hits(&[(1, 1), (2, 2), (7, 4), (15, 8), (1000, 16)]), Some((vec![7, 8, 0], 31)));
    assert_eq!(hits(&[(39, 3)]), Some((vec![0, 0], 3)));
    assert_eq!(hits(&[(3, 3)]), Some((vec![], 3)));
    assert_eq!(hits(&[]), Some((vec![], 0)));
}

#[test]
fn hits_without_lines_are_only_summed() {
    let empty = parse_hex_file("");
    let report = hits_per_line(&vec![(0, 4), (24, 6)], &empty).unwrap();
    assert!(report.lines.is_empty());
    assert_eq!(report.total, 10);
}

#[test]
fn hits_that_do_not_fit_are_refused() {
    assert!(hits(&[(0, u64::MAX), (8, 1)]).is_none());
    assert!(hits_per_line(&vec![(0, u64::MAX), (8, 1)], &parse_hex_file("")).is_none());
    assert_eq!(hits(&[(0, u64::MAX - 1), (8, 1)]), Some((vec![u64::MAX - 1], u64::MAX)));
}

#[test]
fn profile_is_set_against_the_lines() {
    let mut recorded = Profile::new();
    for eip in [16, 0, 16, 40, 16, 8, 0] {
        recorded.record(eip);
    }
    let reloaded = Profile::decode(&recorded.encode().unwrap()).unwrap();
    let report = hits_per_line(&reloaded.sorted_records(), &lines()).unwrap();
    let counts: Vec<u64> = report.lines.iter().map(|line| line.0).collect();
    assert_eq!(counts, vec![2, 1, 3]);
    assert_eq!(report.total, 7);
}

#[test]
fn bands() {
    assert_eq!(band(1, 100), Band::Red);
    assert_eq!(band(1, 101), Band::Green);
    assert_eq!(band(1, 1000), Band::Green);
    assert_eq!(band(1, 1001), Band::Plain);
    assert_eq!(band(0, 10), Band::Plain);
    assert_eq!(band(0, 0), Band::Plain);
    assert_eq!(band(5, 5), Band::Red);
    assert_eq!(band(u64::MAX, u64::MAX), Band::Red);
    assert_eq!(band(u64::MAX / 100, u64::MAX), Band::Green);
    assert_eq!(band(u64::MAX / 100 + 1, u64::MAX), Band::Red);
    assert_eq!(band(u64::MAX / 1000, u64::MAX), Band::Plain);
}

#[test]
fn errors_of_the_serializer_become_errors_of_the_profile() {
    let failure = || bincode::deserialize::<u64>(&[]).unwrap_err();
    assert_eq!(written_bytes(Err(failure())), Err(ProfileError::Unwritable));
    assert_eq!(written_bytes(Ok(vec![1, 2, 3])), Ok(vec![1, 2, 3]));
    match read_profile(Err(failure())) {
        Err(error) => assert_eq!(error, ProfileError::Malformed),
        Ok(_) => panic!("read"),
    }
    let read = read_profile(Ok(HashMap::from([(8, 2)]))).ok().unwrap();
    assert_eq!(read.hits, HashMap::from([(8, 2)]));
}

#[test]
fn every_histogram_can_be_written() {
    assert!(Profile::new().encode().is_ok());
    let mut large = Profile::new();
    for eip in 0..5000u64 {
        large.record(eip * 24);
        large.record(u64::MAX - eip);
    }
    let bytes = large.encode();
    assert!(bytes.is_ok());
    assert_eq!(bytes.unwrap().len(), 8 + 16 * 10000);
}
