use backup_system::chunks::{join_chunks, split_chunks};
use backup_system::record::reassemble_contents;

#[test]
fn split_cuts_fixed_size_parts() {
    let data: Vec<u8> = (0u8..10).collect();
    let parts = split_chunks(&data, 4);
    assert_eq!(parts, vec![vec![0, 1, 2, 3], vec![4, 5, 6, 7], vec![8, 9]]);
}

#[test]
fn split_exact_multiple_has_no_empty_tail() {
    let data: Vec<u8> = (0u8..8).collect();
    let parts = split_chunks(&data, 4);
    assert_eq!(parts, vec![vec![0, 1, 2, 3], vec![4, 5, 6, 7]]);
}

#[test]
fn split_of_empty_data_has_no_parts() {
    assert!(split_chunks(&[], 4).is_empty());
}

#[test]
fn split_with_zero_size_has_no_parts() {
    assert!(split_chunks(&[1, 2, 3], 0).is_empty());
}

#[test]
fn split_larger_size_gives_one_part() {
    assert_eq!(split_chunks(&[9, 8, 7], 1024), vec![vec![9, 8, 7]]);
}

#[test]
fn join_inverts_split() {
    let data: Vec<u8> = (0..5000u32).map(|i| (i * 7 % 251) as u8).collect();
    for size in [1usize, 3, 1024, 4999, 5000, 6000] {
        let parts = split_chunks(&data, size);
        assert_eq!(join_chunks(&parts), data);
        assert_eq!(reassemble_contents(&parts), data);
        for (i, p) in parts.iter().enumerate() {
            assert!(!p.is_empty() && p.len() <= size);
            if i + 1 < parts.len() {
                assert_eq!(p.len(), size);
            }
        }
    }
}

#[test]
fn join_of_no_parts_is_empty() {
    assert!(join_chunks(&Vec::new()).is_empty());
}
