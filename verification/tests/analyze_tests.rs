use binfiddle::{AnalysisType, AnalyzeCommand, OutputFormat};

#[test]
fn test_analysis_type_parsing() {
    assert!(matches!(
        AnalysisType::from_str("entropy").unwrap(),
        AnalysisType::Entropy
    ));
    assert!(matches!(
        AnalysisType::from_str("HISTOGRAM").unwrap(),
        AnalysisType::Histogram
    ));
    assert!(matches!(
        AnalysisType::from_str("ic").unwrap(),
        AnalysisType::IndexOfCoincidence
    ));
    assert!(matches!(
        AnalysisType::from_str("ioc").unwrap(),
        AnalysisType::IndexOfCoincidence
    ));
    assert!(AnalysisType::from_str("invalid").is_err());
}

#[test]
fn test_output_format_parsing() {
    assert!(matches!(
        OutputFormat::from_str("human").unwrap(),
        OutputFormat::Human
    ));
    assert!(matches!(
        OutputFormat::from_str("CSV").unwrap(),
        OutputFormat::Csv
    ));
    assert!(matches!(
        OutputFormat::from_str("json").unwrap(),
        OutputFormat::Json
    ));
    assert!(OutputFormat::from_str("xml").is_err());
}

#[test]
fn test_frequency_table_counts() {
    let data = vec![0x00, 0x00, 0x00, 0x01, 0x01, 0xFF];
    let counts = AnalyzeCommand::frequency_table(&data);
    assert_eq!(counts.len(), 256);
    assert_eq!(counts[0x00], 3);
    assert_eq!(counts[0x01], 2);
    assert_eq!(counts[0xFF], 1);
    assert_eq!(counts[0x42], 0);
    assert_eq!(counts.iter().sum::<usize>(), data.len());
}

#[test]
fn test_histogram_sorted_by_descending_count() {
    let data = vec![0x00, 0x00, 0x00, 0x01, 0x01, 0xFF];
    let histogram = AnalyzeCommand::histogram_entries(&data);

    assert_eq!(histogram.len(), 3);
    assert_eq!(histogram[0], (0x00, 3));
    assert_eq!(histogram[1], (0x01, 2));
    assert_eq!(histogram[2], (0xFF, 1));
}

#[test]
fn test_histogram_ties_in_ascending_value_order() {
    let data = vec![0x09, 0x04, 0x04, 0x09];
    let histogram = AnalyzeCommand::histogram_entries(&data);
    assert_eq!(histogram, vec![(0x04, 2), (0x09, 2)]);
}

#[test]
fn test_histogram_empty_input() {
    let data: Vec<u8> = Vec::new();
    let histogram = AnalyzeCommand::histogram_entries(&data);
    assert!(histogram.is_empty());
}

#[test]
fn test_ic_fraction_short_input_is_zero() {
    let (num, den) = AnalyzeCommand::coincidence_fraction(&[]);
    assert_eq!((num, den), (0, 0));
    let (num, den) = AnalyzeCommand::coincidence_fraction(&[0x42]);
    assert_eq!((num, den), (0, 0));
}

#[test]
fn test_ic_fraction_single_repeated_byte_is_one() {
    let data = vec![0x00u8; 1000];
    let (num, den) = AnalyzeCommand::coincidence_fraction(&data);
    assert_eq!(den, 1000 * 999);
    assert_eq!(num, den);
    assert_eq!(num as f64 / den as f64, 1.0);
}

#[test]
fn test_ic_fraction_uniform_bytes_near_inverse_alphabet() {
    let mut data = Vec::with_capacity(256 * 100);
    for _ in 0..100 {
        for byte in 0u8..=255 {
            data.push(byte);
        }
    }
    let (num, den) = AnalyzeCommand::coincidence_fraction(&data);
    // Every value occurs 100 times: the numerator is 256·100·99.
    assert_eq!(num, 256 * 100 * 99);
    let ic = num as f64 / den as f64;
    assert!((ic - (1.0 / 256.0)).abs() < 0.001);
}

#[test]
fn test_entropy_from_frequency_table() {
    // Half zeros, half ones: one bit of entropy per byte, computed from
    // the verified frequency table.
    let mut data = vec![0x00u8; 500];
    data.extend(vec![0xFFu8; 500]);
    let counts = AnalyzeCommand::frequency_table(&data);
    let len = data.len() as f64;
    let mut entropy = 0.0f64;
    for &count in counts.iter() {
        if count > 0 {
            let p = count as f64 / len;
            entropy -= p * p.log2();
        }
    }
    assert!((entropy - 1.0).abs() < 0.001);

    // A single repeated byte carries no information.
    let flat = vec![0x00u8; 1000];
    let counts = AnalyzeCommand::frequency_table(&flat);
    let mut entropy = 0.0f64;
    for &count in counts.iter() {
        if count > 0 {
            let p = count as f64 / flat.len() as f64;
            entropy -= p * p.log2();
        }
    }
    assert_eq!(entropy, 0.0);
}

#[test]
fn test_block_bounds_whole_and_chunked() {
    assert_eq!(AnalyzeCommand::block_bounds(0, 256), vec![(0, 0)]);
    assert_eq!(AnalyzeCommand::block_bounds(100, 0), vec![(0, 100)]);
    assert_eq!(
        AnalyzeCommand::block_bounds(600, 256),
        vec![(0, 256), (256, 256), (512, 88)]
    );
    assert_eq!(AnalyzeCommand::block_bounds(512, 256), vec![(0, 256), (256, 256)]);
}
