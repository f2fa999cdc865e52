use binfiddle::{ColorMode, DiffCommand, DiffConfig, DiffEntry, DiffFormat};

fn cfg() -> DiffConfig {
    DiffConfig {
        format: DiffFormat::Simple,
        context: 3,
        color: ColorMode::Never,
        ignore_ranges: Vec::new(),
        width: 16,
    }
}

#[test]
fn test_diff_format_parsing() {
    assert_eq!(DiffFormat::from_str("simple").unwrap(), DiffFormat::Simple);
    assert_eq!(DiffFormat::from_str("unified").unwrap(), DiffFormat::Unified);
    assert_eq!(
        DiffFormat::from_str("side-by-side").unwrap(),
        DiffFormat::SideBySide
    );
    assert_eq!(
        DiffFormat::from_str("sidebyside").unwrap(),
        DiffFormat::SideBySide
    );
    assert_eq!(DiffFormat::from_str("patch").unwrap(), DiffFormat::Patch);
    assert_eq!(DiffFormat::from_str("summary").unwrap(), DiffFormat::Summary);
    assert_eq!(DiffFormat::from_str("auto").unwrap(), DiffFormat::Simple);
    assert!(DiffFormat::from_str("invalid").is_err());
}

#[test]
fn test_auto_select_format() {
    assert_eq!(DiffFormat::auto_select(50, 10000), DiffFormat::Simple);
    assert_eq!(DiffFormat::auto_select(3000, 10000), DiffFormat::Unified);
    assert_eq!(DiffFormat::auto_select(8000, 10000), DiffFormat::Summary);
    assert_eq!(DiffFormat::auto_select(0, 10000), DiffFormat::Simple);
    assert_eq!(DiffFormat::auto_select(100, 0), DiffFormat::Simple);
}

#[test]
fn test_format_summary() {
    let mut config = cfg();
    config.format = DiffFormat::Summary;
    let cmd = DiffCommand::new(config);

    let data1 = vec![0x00; 1000];
    let mut data2 = vec![0x00; 1000];
    for i in 0..800 {
        data2[i] = 0xFF;
    }

    let differences = cmd.compare(&data1, &data2);
    let output = cmd
        .format_summary(&data1, &data2, &differences, "file1", "file2")
        .unwrap();

    assert!(output.contains("Binary Diff Summary"));
    assert!(output.contains("file1"));
    assert!(output.contains("file2"));
    assert!(output.contains("Total differences"));
    assert!(output.contains("Assessment"));
    assert!(differences.len() == 800);
}

#[test]
fn test_format_summary_identical_files() {
    let mut config = cfg();
    config.format = DiffFormat::Summary;
    let cmd = DiffCommand::new(config);

    let data = vec![0xDE, 0xAD, 0xBE, 0xEF];
    let differences = cmd.compare(&data, &data);

    let output = cmd
        .format_summary(&data, &data, &differences, "file1", "file2")
        .unwrap();

    assert!(output.contains("Files are identical"));
}

#[test]
fn test_compare_identical() {
    let cmd = DiffCommand::new(cfg());
    let data = vec![0xDE, 0xAD, 0xBE, 0xEF];
    let differences = cmd.compare(&data, &data);
    assert!(differences.is_empty());
}

#[test]
fn test_compare_single_difference() {
    let cmd = DiffCommand::new(cfg());
    let data1 = vec![0xDE, 0xAD, 0xBE, 0xEF];
    let data2 = vec![0xDE, 0xAD, 0x00, 0xEF];
    let differences = cmd.compare(&data1, &data2);

    assert_eq!(differences.len(), 1);
    assert_eq!(differences[0].offset, 2);
    assert_eq!(differences[0].byte1, Some(0xBE));
    assert_eq!(differences[0].byte2, Some(0x00));
}

#[test]
fn test_compare_multiple_differences() {
    let cmd = DiffCommand::new(cfg());
    let data1 = vec![0x00, 0x11, 0x22, 0x33];
    let data2 = vec![0xFF, 0x11, 0x22, 0xCC];
    let differences = cmd.compare(&data1, &data2);

    assert_eq!(differences.len(), 2);
    assert_eq!(differences[0].offset, 0);
    assert_eq!(differences[1].offset, 3);
    assert!(differences[0].is_change());
    assert!(differences[1].is_change());
}

#[test]
fn test_compare_different_lengths_file1_longer() {
    let cmd = DiffCommand::new(cfg());
    let data1 = vec![0xDE, 0xAD, 0xBE, 0xEF];
    let data2 = vec![0xDE, 0xAD];
    let differences = cmd.compare(&data1, &data2);

    assert_eq!(differences.len(), 2);
    assert_eq!(differences[0].offset, 2);
    assert_eq!(differences[0].byte1, Some(0xBE));
    assert_eq!(differences[0].byte2, None);
    assert!(differences[0].is_deletion());
}

#[test]
fn test_compare_different_lengths_file2_longer() {
    let cmd = DiffCommand::new(cfg());
    let data1 = vec![0xDE, 0xAD];
    let data2 = vec![0xDE, 0xAD, 0xBE, 0xEF];
    let differences = cmd.compare(&data1, &data2);

    assert_eq!(differences.len(), 2);
    assert_eq!(differences[0].offset, 2);
    assert_eq!(differences[0].byte1, None);
    assert_eq!(differences[0].byte2, Some(0xBE));
    assert!(differences[0].is_addition());
}

#[test]
fn test_compare_with_ignore_range() {
    let mut config = cfg();
    config.ignore_ranges = vec![(1, 3)];
    let cmd = DiffCommand::new(config);

    let data1 = vec![0x00, 0x11, 0x22, 0x33];
    let data2 = vec![0x00, 0xFF, 0xFF, 0x33];
    let differences = cmd.compare(&data1, &data2);

    assert!(differences.is_empty());
}

#[test]
fn test_format_simple() {
    let cmd = DiffCommand::new(cfg());
    let data1 = vec![0xDE, 0xAD];
    let data2 = vec![0xDE, 0x00];
    let differences = cmd.compare(&data1, &data2);

    let output = cmd
        .format_diff(&data1, &data2, &differences, "file1", "file2")
        .unwrap();

    assert!(output.contains("0x00000001:"));
    assert!(output.contains("0xad"));
    assert!(output.contains("0x00"));
    assert!(output.contains("!="));
}

#[test]
fn test_format_simple_eof() {
    let cmd = DiffCommand::new(cfg());
    let data1 = vec![0xDE, 0xAD, 0xBE];
    let data2 = vec![0xDE, 0xAD];
    let differences = cmd.compare(&data1, &data2);

    let output = cmd
        .format_diff(&data1, &data2, &differences, "file1", "file2")
        .unwrap();

    assert!(output.contains("EOF"));
}

#[test]
fn test_format_patch() {
    let mut config = cfg();
    config.format = DiffFormat::Patch;
    let cmd = DiffCommand::new(config);

    let data1 = vec![0x00, 0x11, 0x22];
    let data2 = vec![0xFF, 0x11, 0x33];
    let differences = cmd.compare(&data1, &data2);

    let output = cmd
        .format_diff(&data1, &data2, &differences, "original.bin", "modified.bin")
        .unwrap();

    assert!(output.contains("# binfiddle patch file"));
    assert!(output.contains("# source: original.bin"));
    assert!(output.contains("0x00000000:00:ff"));
    assert!(output.contains("0x00000002:22:33"));
}

#[test]
fn test_format_unified_header() {
    let mut config = cfg();
    config.format = DiffFormat::Unified;
    config.context = 2;
    let cmd = DiffCommand::new(config);

    let data1 = vec![0x00, 0x11, 0x22, 0x33];
    let data2 = vec![0x00, 0xFF, 0x22, 0x33];
    let differences = cmd.compare(&data1, &data2);

    let output = cmd
        .format_diff(&data1, &data2, &differences, "file1.bin", "file2.bin")
        .unwrap();

    assert!(output.contains("--- file1.bin"));
    assert!(output.contains("+++ file2.bin"));
    assert!(output.contains("@@"));
}

#[test]
fn test_diff_entry_types() {
    let change = DiffEntry::new(0, Some(0xAA), Some(0xBB));
    assert!(change.is_change());
    assert!(!change.is_deletion());
    assert!(!change.is_addition());

    let deletion = DiffEntry::new(1, Some(0xCC), None);
    assert!(!deletion.is_change());
    assert!(deletion.is_deletion());
    assert!(!deletion.is_addition());

    let addition = DiffEntry::new(2, None, Some(0xDD));
    assert!(!addition.is_change());
    assert!(!addition.is_deletion());
    assert!(addition.is_addition());
}

#[test]
fn test_summary() {
    let cmd = DiffCommand::new(cfg());
    let differences = vec![
        DiffEntry::new(0, Some(0xAA), Some(0xBB)),
        DiffEntry::new(1, Some(0xCC), None),
        DiffEntry::new(2, None, Some(0xDD)),
    ];

    let summary = cmd.summary(&differences, 100, 100);
    assert!(summary.contains("3 difference(s)"));
    assert!(summary.contains("1 changed"));
    assert!(summary.contains("1 deleted"));
    assert!(summary.contains("1 added"));
}

#[test]
fn test_parse_ignore_ranges() {
    let ranges = binfiddle::parse_ignore_ranges("0x0..0x10,0x100..0x200").unwrap();
    assert_eq!(ranges.len(), 2);
    assert_eq!(ranges[0], (0, 16));
    assert_eq!(ranges[1], (256, 512));
}

#[test]
fn test_parse_ignore_ranges_empty() {
    let ranges = binfiddle::parse_ignore_ranges("").unwrap();
    assert!(ranges.is_empty());
}

#[test]
fn test_colored_simple_contains_ansi() {
    let mut config = cfg();
    config.color = ColorMode::Always;
    let cmd = DiffCommand::new(config);

    let data1 = vec![0xDE, 0xAD];
    let data2 = vec![0xDE, 0x00];
    let differences = cmd.compare(&data1, &data2);

    let output = cmd
        .format_diff(&data1, &data2, &differences, "file1", "file2")
        .unwrap();

    assert!(output.contains("\x1b["), "Should contain ANSI escape codes");
}

#[test]
fn test_no_color_no_ansi() {
    let cmd = DiffCommand::new(cfg());
    let data1 = vec![0xDE, 0xAD];
    let data2 = vec![0xDE, 0x00];
    let differences = cmd.compare(&data1, &data2);

    let output = cmd
        .format_diff(&data1, &data2, &differences, "file1", "file2")
        .unwrap();

    assert!(
        !output.contains("\x1b["),
        "Should not contain ANSI escape codes"
    );
}

#[test]
fn test_empty_files() {
    let cmd = DiffCommand::new(cfg());
    let data1: Vec<u8> = vec![];
    let data2: Vec<u8> = vec![];
    let differences = cmd.compare(&data1, &data2);
    assert!(differences.is_empty());
}

#[test]
fn test_one_empty_file() {
    let cmd = DiffCommand::new(cfg());
    let data1: Vec<u8> = vec![];
    let data2 = vec![0xDE, 0xAD];
    let differences = cmd.compare(&data1, &data2);

    assert_eq!(differences.len(), 2);
    assert!(differences[0].is_addition());
    assert!(differences[1].is_addition());
}

#[test]
fn test_hunk_grouping() {
    let mut config = cfg();
    config.context = 2;
    let cmd = DiffCommand::new(config);

    let differences = vec![
        DiffEntry::new(0, Some(0xAA), Some(0xBB)),
        DiffEntry::new(1, Some(0xCC), Some(0xDD)),
        DiffEntry::new(100, Some(0xEE), Some(0xFF)),
    ];

    let hunks = cmd.group_into_hunks(&differences);
    assert_eq!(hunks.len(), 2);
    assert_eq!(hunks[0].len(), 2);
    assert_eq!(hunks[1].len(), 1);
    assert_eq!(hunks[0], vec![0, 1]);
    assert_eq!(hunks[1], vec![2]);
}

#[test]
fn test_hunk_grouping_smart_gaps() {
    let cmd = DiffCommand::new(cfg());

    let differences = vec![
        DiffEntry::new(0, Some(0xAA), Some(0xBB)),
        DiffEntry::new(10, Some(0xCC), Some(0xDD)),
        DiffEntry::new(20, Some(0xEE), Some(0xFF)),
    ];
    let hunks = cmd.group_into_hunks(&differences);
    assert_eq!(hunks.len(), 1, "Small gaps should create single hunk");

    let differences = vec![
        DiffEntry::new(0, Some(0xAA), Some(0xBB)),
        DiffEntry::new(50, Some(0xCC), Some(0xDD)),
    ];
    let hunks = cmd.group_into_hunks(&differences);
    assert_eq!(hunks.len(), 1, "Medium gaps should merge");

    let differences = vec![
        DiffEntry::new(0, Some(0xAA), Some(0xBB)),
        DiffEntry::new(500, Some(0xCC), Some(0xDD)),
    ];
    let hunks = cmd.group_into_hunks(&differences);
    assert_eq!(hunks.len(), 2, "Large gaps should split into separate hunks");
}

#[test]
fn test_hunk_grouping_large_hunks() {
    let cmd = DiffCommand::new(cfg());

    let mut differences = Vec::new();
    for i in 0..120 {
        differences.push(DiffEntry::new(i * 5, Some(0xAA), Some(0xBB)));
    }

    let hunks = cmd.group_into_hunks(&differences);
    assert!(
        hunks.len() < 10,
        "Smart grouping should reduce hunk fragmentation"
    );
}

#[test]
fn test_hunk_partition_covers_every_entry() {
    let cmd = DiffCommand::new(cfg());
    let mut differences = Vec::new();
    for i in 0..50 {
        differences.push(DiffEntry::new(i * 40, Some(0x01), Some(0x02)));
    }
    let hunks = cmd.group_into_hunks(&differences);
    let flat: Vec<usize> = hunks.iter().flatten().copied().collect();
    let expected: Vec<usize> = (0..50).collect();
    assert_eq!(flat, expected);
    assert!(hunks.iter().all(|h| !h.is_empty()));
}

#[test]
fn test_unified_marks_only_differing_rows() {
    let mut config = cfg();
    config.format = DiffFormat::Unified;
    config.context = 2;
    config.width = 4;
    let cmd = DiffCommand::new(config);

    let data1 = vec![0x10, 0x11, 0x12, 0x13, 0x14, 0x15, 0x16, 0x17];
    let mut data2 = data1.clone();
    data2[5] = 0xFF;
    let differences = cmd.compare(&data1, &data2);

    let output = cmd
        .format_diff(&data1, &data2, &differences, "a", "b")
        .unwrap();
    assert!(output.contains("-0x00000003: 13 14 15 16"));
    assert!(output.contains("+0x00000003: 13 14 ff 16"));
}

#[test]
fn test_side_by_side_marks_differing_rows() {
    let mut config = cfg();
    config.format = DiffFormat::SideBySide;
    config.context = 1;
    config.width = 4;
    let cmd = DiffCommand::new(config);

    let data1 = vec![0x10, 0x11, 0x12, 0x13];
    let data2 = vec![0x10, 0xEE, 0x12, 0x13];
    let differences = cmd.compare(&data1, &data2);

    let output = cmd
        .format_diff(&data1, &data2, &differences, "a", "b")
        .unwrap();
    assert!(output.contains(" ! "));
    assert!(output.contains("ee"));
    assert!(output.contains("11"));
}

#[test]
fn test_patch_format_empty_side_fields() {
    let mut config = cfg();
    config.format = DiffFormat::Patch;
    let cmd = DiffCommand::new(config);

    let data1 = vec![0xAB];
    let data2: Vec<u8> = vec![];
    let differences = cmd.compare(&data1, &data2);

    let output = cmd
        .format_diff(&data1, &data2, &differences, "a", "b")
        .unwrap();
    assert!(output.contains("0x00000000:ab:"));
}
