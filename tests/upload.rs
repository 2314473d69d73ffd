use minio_rsc::upload::{
    part_sizes, use_single_put, PartBuffer, UploadPhase, UploadSession, DEFAULT_PART_SIZE,
};

const MIB: u64 = 1024 * 1024;

#[test]
fn twenty_two_mib_in_eight_mib_parts() {
    let sizes = part_sizes(22 * MIB, 8 * MIB);
    assert_eq!(sizes, vec![8 * MIB, 8 * MIB, 6_291_456]);
    assert_eq!(sizes.iter().sum::<u64>(), 23_068_672);
    assert_eq!(DEFAULT_PART_SIZE, 8 * MIB);
}

#[test]
fn part_size_edges() {
    assert_eq!(part_sizes(0, 8 * MIB), Vec::<u64>::new());
    assert_eq!(part_sizes(16 * MIB, 8 * MIB), vec![8 * MIB, 8 * MIB]);
    assert_eq!(part_sizes(1, 8 * MIB), vec![1]);
    assert_eq!(part_sizes(u64::MAX, u64::MAX), vec![u64::MAX]);
}

#[test]
fn single_put_below_threshold() {
    let threshold = 8 * MIB;
    assert!(use_single_put(Some(threshold - 1), 0, false, threshold));
    assert!(!use_single_put(Some(threshold), 0, false, threshold));
    assert!(use_single_put(None, 1024, true, threshold));
    assert!(!use_single_put(None, threshold, false, threshold));
    assert!(!use_single_put(None, 1024, false, threshold));
}

#[test]
fn manifest_is_ordered_by_part_number() {
    let mut s: UploadSession<String> = UploadSession::new("up-1".to_string());
    let mut numbers = Vec::new();
    for _ in 0..3 {
        numbers.push(s.next_part_number().unwrap());
    }
    assert_eq!(numbers, vec![1, 2, 3]);
    s.part_done(3, "e3".to_string());
    s.part_done(1, "e1".to_string());
    assert!(s.finish().is_none());
    s.part_done(2, "e2".to_string());
    let parts = s.finish().unwrap();
    let got: Vec<(usize, String)> = parts.iter().map(|p| (p.part_number, p.e_tag.clone())).collect();
    assert_eq!(
        got,
        vec![(1, "e1".to_string()), (2, "e2".to_string()), (3, "e3".to_string())]
    );
    assert_eq!(s.phase(), UploadPhase::Completing);
    s.complete_done();
    assert_eq!(s.phase(), UploadPhase::Done);
}

#[test]
fn second_part_failure_aborts_once_and_keeps_the_error() {
    let mut s: UploadSession<String> = UploadSession::new("up-2".to_string());
    for _ in 0..3 {
        s.next_part_number().unwrap();
    }
    s.part_done(1, "e1".to_string());
    let mut aborts = 0;
    if s.part_failed("part 2 failed".to_string()) {
        aborts += 1;
    }
    if s.part_failed("part 3 failed".to_string()) {
        aborts += 1;
    }
    assert_eq!(aborts, 1);
    assert_eq!(s.upload_id(), "up-2");
    assert_eq!(s.phase(), UploadPhase::Aborting);
    assert!(s.next_part_number().is_none());
    assert!(s.finish().is_none());
    assert_eq!(s.abort_finished(), Some("part 2 failed".to_string()));
}

#[test]
fn completion_failure_aborts() {
    let mut s: UploadSession<u32> = UploadSession::new("up-3".to_string());
    s.next_part_number().unwrap();
    s.part_done(1, "e1".to_string());
    assert!(s.finish().is_some());
    assert!(s.complete_failed(500));
    assert_eq!(s.abort_finished(), Some(500));
}

#[test]
fn buffer_cuts_fixed_parts() {
    let mut b = PartBuffer::new(4);
    b.push(b"abc");
    assert!(!b.has_part());
    b.push(b"defghij");
    assert!(b.has_part());
    assert_eq!(b.take_part(), b"abcd".to_vec());
    assert_eq!(b.take_part(), b"efgh".to_vec());
    assert_eq!(b.len(), 2);
    assert_eq!(b.take_part(), b"ij".to_vec());
    assert_eq!(b.take_all(), Vec::<u8>::new());
}
