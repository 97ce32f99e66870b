use nautilus::error::VerifyError;
use nautilus::quality::{
    aggregate_score, check_bias_indicators, check_data_completeness, check_metadata_consistency,
    detect_synthetic_patterns, distinct_symbols, symbol_counts, validate_dataset_quality,
};

fn cycle(pattern: &[u8], len: usize) -> Vec<u8> {
    pattern.iter().copied().cycle().take(len).collect()
}

#[test]
fn test_bias_variance() {
    let zeros = vec![0u8; 2048];
    let high_var = cycle(&[0u8, 255u8], 2048);
    let b0 = check_bias_indicators(&zeros);
    let b1 = check_bias_indicators(&high_var);
    assert!(b0 <= 1);
    assert!(b1 >= 90);
}

#[test]
fn test_repetition_authenticity() {
    let repetitive = cycle(&[1u8, 2, 3, 4], 4096);
    let randomish = (0..4096).map(|i| (i as u8).wrapping_mul(73).wrapping_add(19)).collect::<Vec<_>>();
    let a_rep = detect_synthetic_patterns(&repetitive);
    let a_rand = detect_synthetic_patterns(&randomish);
    assert!(a_rep < a_rand, "Repetitive data should have lower authenticity");
}

#[test]
fn test_completeness_thresholds() {
    assert_eq!(check_data_completeness(&vec![0u8; 512]), 10);
    assert_eq!(check_data_completeness(&vec![0u8; 2048]), 50);
    assert_eq!(check_data_completeness(&vec![0u8; 50 * 1024]), 80);
    assert_eq!(check_data_completeness(&vec![0u8; 200 * 1024]), 100);
}

#[test]
fn test_consistency_nulls() {
    let mut data = vec![1u8; 1000];
    data[0] = 0;
    data[1] = 0;
    let s = check_metadata_consistency(&data);
    assert!(s <= 100);
    let all_nulls = vec![0u8; 1000];
    assert_eq!(check_metadata_consistency(&all_nulls), 0);
}

#[test]
fn test_validate_aggregate() {
    let data = (0..8192).map(|i| (i as u8).wrapping_mul(31)).collect::<Vec<_>>();
    for diversity in 0..=100u32 {
        let score = validate_dataset_quality(&data, diversity).unwrap();
        assert!(score <= 100);
    }
}

#[test]
fn empty_input_fails_validation() {
    assert_eq!(validate_dataset_quality(&[], 50), Err(VerifyError::ValidationFailed));
    assert_eq!(validate_dataset_quality(&[], 0), Err(VerifyError::ValidationFailed));
}

#[test]
fn completeness_boundaries() {
    assert_eq!(check_data_completeness(&vec![7u8; 1023]), 10);
    assert_eq!(check_data_completeness(&vec![7u8; 1024]), 50);
    assert_eq!(check_data_completeness(&vec![7u8; 10240]), 50);
    assert_eq!(check_data_completeness(&vec![7u8; 10241]), 80);
    assert_eq!(check_data_completeness(&vec![7u8; 102400]), 80);
    assert_eq!(check_data_completeness(&vec![7u8; 102401]), 100);
}

#[test]
fn bias_exact_values() {
    assert_eq!(check_bias_indicators(&vec![0u8; 2048]), 0);
    assert_eq!(check_bias_indicators(&cycle(&[0u8, 255u8], 2048)), 100);
    assert_eq!(check_bias_indicators(&[0u8, 255, 0]), 89);
    assert_eq!(check_bias_indicators(&[]), 0);
    let mock_like = (0..8192).map(|i| (i as u8).wrapping_mul(31)).collect::<Vec<_>>();
    assert_eq!(check_bias_indicators(&mock_like), 34);
}

#[test]
fn consistency_exact_values() {
    let mut data = vec![1u8; 1000];
    data[0] = 0;
    data[1] = 0;
    assert_eq!(check_metadata_consistency(&data), 100);
    let mut half = vec![0u8; 10];
    for b in half.iter_mut().take(5) {
        *b = 9;
    }
    assert_eq!(check_metadata_consistency(&half), 50);
    assert_eq!(check_metadata_consistency(&[0u8, 1, 1]), 67);
    assert_eq!(check_metadata_consistency(&[]), 0);
}

#[test]
fn authenticity_exact_values() {
    assert_eq!(detect_synthetic_patterns(&[1u8, 2, 3, 4, 5, 6, 7]), 50);
    assert_eq!(detect_synthetic_patterns(&[]), 50);
    assert_eq!(detect_synthetic_patterns(&cycle(&[1u8, 2, 3, 4], 4096)), 0);
    let randomish = (0..4096).map(|i| (i as u8).wrapping_mul(73).wrapping_add(19)).collect::<Vec<_>>();
    assert_eq!(detect_synthetic_patterns(&randomish), 6);
    assert_eq!(detect_synthetic_patterns(&[0u8, 1, 2, 3, 4, 5, 6, 7, 8, 9]), 100);
    // Seven windows, six of which repeat the first one.
    assert_eq!(detect_synthetic_patterns(&[5u8; 10]), 14);
}

#[test]
fn aggregate_weights() {
    assert_eq!(aggregate_score(100, 100, 100, 100, 100), 100);
    assert_eq!(aggregate_score(0, 0, 0, 0, 0), 0);
    assert_eq!(aggregate_score(100, 0, 0, 0, 0), 25);
    assert_eq!(aggregate_score(0, 0, 100, 10, 90), 40);
    assert_eq!(aggregate_score(73, 6, 1, 80, 100), 41);
}

#[test]
fn validate_exact_score() {
    let data: Vec<u8> = (0u8..10).collect();
    assert_eq!(validate_dataset_quality(&data, 0), Ok(40));
    assert_eq!(validate_dataset_quality(&[1u8, 2, 3, 4, 5], 100), Ok(51));
}

#[test]
fn symbol_histogram() {
    let counts = symbol_counts(&cycle(&[0u8, 85, 170, 255], 4096));
    assert_eq!(counts.len(), 256);
    assert_eq!(counts[0], 1024);
    assert_eq!(counts[85], 1024);
    assert_eq!(counts[1], 0);
    assert_eq!(distinct_symbols(&counts), 4);
    assert_eq!(distinct_symbols(&symbol_counts(&vec![0u8; 4096])), 1);
    assert_eq!(distinct_symbols(&symbol_counts(&[])), 0);
}
