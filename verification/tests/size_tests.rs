use findex::size::calculate_directory_size;

#[test]
fn empty_directory_is_zero() {
    let sizes: Vec<u64> = Vec::new();
    assert_eq!(calculate_directory_size(&sizes), 0);
}

#[test]
fn three_files_sum() {
    let sizes: Vec<u64> = vec![10, 20, 30];
    assert_eq!(calculate_directory_size(&sizes), 60);
}

#[test]
fn single_file() {
    let sizes: Vec<u64> = vec![7];
    assert_eq!(calculate_directory_size(&sizes), 7);
}

#[test]
fn sum_saturates_at_max() {
    let sizes: Vec<u64> = vec![u64::MAX, 5];
    assert_eq!(calculate_directory_size(&sizes), u64::MAX);
}
