use radiology_teaching_files::probe::{find_part_boundaries, part_ranges};

fn with_marker_at(len: usize, offsets: &[usize]) -> Vec<u8> {
    let mut data = vec![0u8; len];
    for &i in offsets {
        data[i..i + 4].copy_from_slice(b"DICM");
    }
    data
}

#[test]
fn boundary_one_preamble_before_marker() {
    let data = with_marker_at(140, &[128]);
    assert_eq!(find_part_boundaries(&data), vec![0]);
    assert_eq!(part_ranges(&data), vec![(0, 140)]);
}

#[test]
fn boundaries_of_two_streams() {
    let data = with_marker_at(300, &[128, 278]);
    assert_eq!(find_part_boundaries(&data), vec![0, 150]);
    assert_eq!(part_ranges(&data), vec![(0, 150), (150, 300)]);
}

#[test]
fn marker_too_early_or_odd_ignored() {
    let data = with_marker_at(400, &[100, 201, 300]);
    assert_eq!(find_part_boundaries(&data), vec![172]);
    assert_eq!(part_ranges(&data), vec![(172, 400)]);
}

#[test]
fn marker_at_very_end_counts() {
    let data = with_marker_at(132, &[128]);
    assert_eq!(find_part_boundaries(&data), vec![0]);
}

#[test]
fn no_boundaries_in_short_or_plain_buffers() {
    assert!(find_part_boundaries(&[]).is_empty());
    assert!(find_part_boundaries(b"DIC").is_empty());
    assert!(find_part_boundaries(&vec![7u8; 1000]).is_empty());
    assert!(part_ranges(&vec![7u8; 1000]).is_empty());
}
