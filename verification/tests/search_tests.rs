use binfiddle::{ColorMode, SearchCommand, SearchConfig, SearchPattern};

fn make_config(pattern: SearchPattern) -> SearchConfig {
    SearchConfig {
        pattern,
        format: "hex".to_string(),
        chunk_size: 8,
        find_all: true,
        count_only: false,
        offsets_only: false,
        context: 0,
        no_overlap: false,
        color: ColorMode::Never,
    }
}

#[test]
fn test_exact_search_single_match() {
    let config = make_config(SearchPattern::Exact(vec![0xBE, 0xEF]));
    let cmd = SearchCommand::new(config);
    let data = vec![0xDE, 0xAD, 0xBE, 0xEF, 0xCA, 0xFE];

    let matches = cmd.search(&data).unwrap();
    assert_eq!(matches.len(), 1);
    assert_eq!(matches[0].offset, 2);
    assert_eq!(matches[0].data, vec![0xBE, 0xEF]);
}

#[test]
fn test_exact_search_multiple_matches() {
    let config = make_config(SearchPattern::Exact(vec![0x00]));
    let cmd = SearchCommand::new(config);
    let data = vec![0x00, 0x01, 0x00, 0x02, 0x00];

    let matches = cmd.search(&data).unwrap();
    assert_eq!(matches.len(), 3);
    assert_eq!(matches[0].offset, 0);
    assert_eq!(matches[1].offset, 2);
    assert_eq!(matches[2].offset, 4);
}

#[test]
fn test_exact_search_no_overlap() {
    let mut config = make_config(SearchPattern::Exact(vec![0x00, 0x00]));
    config.no_overlap = true;
    let cmd = SearchCommand::new(config);
    let data = vec![0x00, 0x00, 0x00, 0x00];

    let matches = cmd.search(&data).unwrap();
    assert_eq!(matches.len(), 2);
    assert_eq!(matches[0].offset, 0);
    assert_eq!(matches[1].offset, 2);
}

#[test]
fn test_regex_search() {
    let config = make_config(SearchPattern::Regex(r"AB.".to_string()));
    let cmd = SearchCommand::new(config);
    let data = b"ABCDEF_ABXYZ".to_vec();

    let matches = cmd.search(&data).unwrap();
    assert_eq!(matches.len(), 2);
    assert_eq!(matches[0].offset, 0);
    assert_eq!(matches[0].data, b"ABC".to_vec());
    assert_eq!(matches[1].offset, 7);
    assert_eq!(matches[1].data, b"ABX".to_vec());
}

#[test]
fn test_regex_invalid_pattern_is_parse_error() {
    let config = make_config(SearchPattern::Regex(r"((".to_string()));
    let cmd = SearchCommand::new(config);
    let data = b"anything".to_vec();
    let err = cmd.search(&data).unwrap_err();
    assert!(matches!(err, binfiddle::BinfiddleError::Parse(_)));
}

#[test]
fn test_mask_search() {
    let config = make_config(SearchPattern::Mask(vec![
        Some(0xDE),
        None,
        Some(0xBE),
        None,
    ]));
    let cmd = SearchCommand::new(config);
    let data = vec![0x00, 0xDE, 0xAD, 0xBE, 0xEF, 0x00];

    let matches = cmd.search(&data).unwrap();
    assert_eq!(matches.len(), 1);
    assert_eq!(matches[0].offset, 1);
    assert_eq!(matches[0].data, vec![0xDE, 0xAD, 0xBE, 0xEF]);
}

#[test]
fn test_mask_search_multiple() {
    let config = make_config(SearchPattern::Mask(vec![None, Some(0x00)]));
    let cmd = SearchCommand::new(config);
    let data = vec![0xAA, 0x00, 0xBB, 0x00, 0xCC, 0x00];

    let matches = cmd.search(&data).unwrap();
    assert_eq!(matches.len(), 3);
}

#[test]
fn test_empty_pattern_error() {
    let config = make_config(SearchPattern::Exact(vec![]));
    let cmd = SearchCommand::new(config);
    let data = vec![0x00, 0x01, 0x02];

    assert!(cmd.search(&data).is_err());
}

#[test]
fn test_first_match_only_without_find_all() {
    let mut config = make_config(SearchPattern::Exact(vec![0x00]));
    config.find_all = false;
    let cmd = SearchCommand::new(config);
    let data = vec![0x01, 0x00, 0x02, 0x00];

    let matches = cmd.search(&data).unwrap();
    assert_eq!(matches.len(), 1);
    assert_eq!(matches[0].offset, 1);
}

#[test]
fn test_parallel_exact_search_small_data() {
    let config = make_config(SearchPattern::Exact(vec![0xDE, 0xAD]));
    let cmd = SearchCommand::new(config);
    let data = vec![0xDE, 0xAD, 0xBE, 0xEF, 0xDE, 0xAD];

    let matches = cmd.search_parallel(&data).unwrap();
    assert_eq!(matches.len(), 2);
    assert_eq!(matches[0].offset, 0);
    assert_eq!(matches[1].offset, 4);
}

#[test]
fn test_parallel_exact_search_large_data() {
    let mut data = vec![0x00u8; 2 * 1024 * 1024];
    let pattern = [0xDE, 0xAD, 0xBE, 0xEF];
    for offset in [0, 100_000, 500_000, 1_000_000, 1_500_000, 2_097_148] {
        if offset + pattern.len() <= data.len() {
            data[offset..offset + pattern.len()].copy_from_slice(&pattern);
        }
    }

    let config = make_config(SearchPattern::Exact(pattern.to_vec()));
    let cmd = SearchCommand::new(config);

    let matches = cmd.search_parallel(&data).unwrap();
    assert_eq!(matches.len(), 6);
    assert_eq!(matches[0].offset, 0);
    assert_eq!(matches[1].offset, 100_000);
    assert_eq!(matches[2].offset, 500_000);
    assert_eq!(matches[3].offset, 1_000_000);
    assert_eq!(matches[4].offset, 1_500_000);
    assert_eq!(matches[5].offset, 2_097_148);
}

#[test]
fn test_parallel_mask_search_large_data() {
    let mut data = vec![0x00u8; 2 * 1024 * 1024];
    let pattern = [0xDE, 0xAD, 0xBE, 0xEF];
    for offset in [0, 256_000, 512_000, 1_024_000] {
        if offset + pattern.len() <= data.len() {
            data[offset..offset + pattern.len()].copy_from_slice(&pattern);
        }
    }

    let mask = vec![Some(0xDE), None, Some(0xBE), Some(0xEF)];
    let config = make_config(SearchPattern::Mask(mask));
    let cmd = SearchCommand::new(config);

    let matches = cmd.search_parallel(&data).unwrap();
    assert_eq!(matches.len(), 4);
    assert_eq!(matches[0].offset, 0);
    assert_eq!(matches[1].offset, 256_000);
    assert_eq!(matches[2].offset, 512_000);
    assert_eq!(matches[3].offset, 1_024_000);
}

#[test]
fn test_parallel_boundary_match() {
    let chunk_boundary = 256 * 1024;
    let mut data = vec![0x00u8; 2 * 1024 * 1024];

    let pattern = [0xDE, 0xAD, 0xBE, 0xEF];
    let boundary_offset = chunk_boundary - 2;
    data[boundary_offset..boundary_offset + pattern.len()].copy_from_slice(&pattern);

    let config = make_config(SearchPattern::Exact(pattern.to_vec()));
    let cmd = SearchCommand::new(config);

    let matches = cmd.search_parallel(&data).unwrap();
    assert_eq!(matches.len(), 1);
    assert_eq!(matches[0].offset, boundary_offset);
}

#[test]
fn test_parallel_no_overlap() {
    let mut data = vec![0x00u8; 2 * 1024 * 1024];
    let overlapping_start = 1_000_000;
    for i in 0..8 {
        data[overlapping_start + i] = 0x00;
    }

    let mut config = make_config(SearchPattern::Exact(vec![0x00, 0x00]));
    config.no_overlap = true;
    let cmd = SearchCommand::new(config);

    let matches = cmd.search_parallel(&data).unwrap();

    for i in 1..matches.len() {
        assert!(
            matches[i].offset >= matches[i - 1].offset + matches[i - 1].data.len(),
            "Matches should not overlap"
        );
    }
}

#[test]
fn test_parallel_consistency_with_sequential() {
    let mut data = vec![0x00u8; 2 * 1024 * 1024];
    let pattern = [0xCA, 0xFE, 0xBA, 0xBE];

    for i in 0..100 {
        let offset = i * 20_000;
        if offset + pattern.len() <= data.len() {
            data[offset..offset + pattern.len()].copy_from_slice(&pattern);
        }
    }

    let config = make_config(SearchPattern::Exact(pattern.to_vec()));
    let cmd = SearchCommand::new(config);

    let sequential = cmd.search(&data).unwrap();
    let parallel = cmd.search_parallel(&data).unwrap();

    assert_eq!(sequential.len(), parallel.len(), "Match count should be equal");
    for (seq, par) in sequential.iter().zip(parallel.iter()) {
        assert_eq!(seq.offset, par.offset, "Offsets should match");
        assert_eq!(seq.data, par.data, "Data should match");
    }
}

#[test]
fn test_parallel_mask_consistency_with_sequential() {
    let mut data = vec![0x55u8; 1024 * 1024 + 64];
    let pattern = [0xCA, 0x00, 0xBA, 0x00];
    for i in 0..40 {
        let offset = i * 26_000;
        data[offset..offset + pattern.len()].copy_from_slice(&pattern);
    }

    let mask = vec![Some(0xCA), None, Some(0xBA), None];
    let config = make_config(SearchPattern::Mask(mask));
    let cmd = SearchCommand::new(config);

    let sequential = cmd.search(&data).unwrap();
    let parallel = cmd.search_parallel(&data).unwrap();

    assert_eq!(sequential.len(), parallel.len());
    for (seq, par) in sequential.iter().zip(parallel.iter()) {
        assert_eq!(seq.offset, par.offset);
        assert_eq!(seq.data, par.data);
    }
}

#[test]
fn test_search_matches_strictly_increasing() {
    let config = make_config(SearchPattern::Exact(vec![0xAB, 0xAB]));
    let cmd = SearchCommand::new(config);
    let data = vec![0xAB, 0xAB, 0xAB, 0xAB, 0x00, 0xAB, 0xAB];

    let matches = cmd.search(&data).unwrap();
    assert_eq!(matches.len(), 4);
    for i in 1..matches.len() {
        assert!(matches[i - 1].offset < matches[i].offset);
    }
}

#[test]
fn test_parallel_no_overlap_matches_sequential() {
    // Dense overlapping occurrences straddling chunk boundaries: the
    // parallel merge must make the same greedy selection the sequential
    // scan makes.
    let mut data = vec![0xABu8; 1024 * 1024 + 777];
    for i in 0..7 {
        data[256 * 1024 - 3 + i] = 0xCD;
    }

    let mut config = make_config(SearchPattern::Exact(vec![0xAB, 0xAB, 0xAB]));
    config.no_overlap = true;
    let cmd = SearchCommand::new(config);

    let sequential = cmd.search(&data).unwrap();
    let parallel = cmd.search_parallel(&data).unwrap();

    assert_eq!(sequential.len(), parallel.len());
    for (seq, par) in sequential.iter().zip(parallel.iter()) {
        assert_eq!(seq.offset, par.offset);
        assert_eq!(seq.data, par.data);
    }
}
