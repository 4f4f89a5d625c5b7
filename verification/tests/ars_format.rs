use dns_filter::builder::{compress_data, resolve_metadata, ArsBuilder, ArsMetadata, RuleCounts};
use dns_filter::error::ArsError;
use dns_filter::format::{Compression, SectionId, FORMAT_VERSION, HEADER_SIZE, MAGIC, TRAILER_SIZE};
use dns_filter::labels::reverse_labels;
use dns_filter::reader::{json_section_positions, ArsReader};
use dns_filter::rule::{Rule, RuleAction, RuleType};
use dns_filter::scan::{decompress, scan_sections, Section};

/// Metadata as the build writes it in JSON.
fn metadata_json(m: &ArsMetadata) -> String {
    let c = &m.rule_counts;
    format!(
        "{{\"created_at\":\"{}\",\"source_files\":[],\"rule_counts\":{{\"block_exact\":{},\"block_suffix\":{},\"block_keyword\":{},\"block_regex\":{},\"allow_exact\":{},\"allow_suffix\":{},\"allow_keyword\":{},\"allow_regex\":{},\"rewrite\":{}}},\"description\":null}}",
        m.created_at,
        c.block_exact,
        c.block_suffix,
        c.block_keyword,
        c.block_regex,
        c.allow_exact,
        c.allow_suffix,
        c.allow_keyword,
        c.allow_regex,
        c.rewrite
    )
}

/// Builds an uncompressed rule set and returns its bytes and metadata.
fn make_ars_with(rules: Vec<Rule>, comp: Compression) -> (Vec<u8>, ArsMetadata) {
    let mut builder = ArsBuilder::new().with_compression(comp);
    builder.add_rules(rules);
    let p = builder.prepare();
    let meta = resolve_metadata(p.metadata.clone(), p.counts).unwrap();
    let json = metadata_json(&meta);
    let data = builder.encode(&p, json.as_bytes(), b"[]").unwrap();
    (data, meta)
}

fn make_ars(rules: Vec<Rule>) -> (Vec<u8>, ArsMetadata) {
    make_ars_with(rules, Compression::Raw)
}

/// The metadata stored in a file's metadata section (its JSON).
fn metadata_from_section(data: &[u8]) -> ArsMetadata {
    let v: serde_json::Value = serde_json::from_slice(data).unwrap();
    let c = &v["rule_counts"];
    let n = |k: &str| c[k].as_u64().unwrap() as usize;
    ArsMetadata {
        created_at: v["created_at"].as_str().unwrap().to_string(),
        source_files: v["source_files"]
            .as_array()
            .unwrap()
            .iter()
            .map(|s| s.as_str().unwrap().to_string())
            .collect(),
        rule_counts: RuleCounts {
            block_exact: n("block_exact"),
            block_suffix: n("block_suffix"),
            block_keyword: n("block_keyword"),
            block_regex: n("block_regex"),
            allow_exact: n("allow_exact"),
            allow_suffix: n("allow_suffix"),
            allow_keyword: n("allow_keyword"),
            allow_regex: n("allow_regex"),
            rewrite: n("rewrite"),
        },
        description: v["description"].as_str().map(|s| s.to_string()),
    }
}

/// Reads a rule set back; the metadata comes from the file's metadata
/// section.
fn read_ars(data: &[u8], _written: ArsMetadata) -> Result<ArsReader, ArsError> {
    let scan = scan_sections(data);
    if let Some(e) = scan.error {
        return Err(e);
    }
    let meta = scan
        .sections
        .iter()
        .filter(|s| s.id == SectionId::Metadata)
        .last()
        .map(|s| metadata_from_section(&s.data));
    ArsReader::from_sections(scan.sections, meta, Vec::new())
}

#[test]
fn test_exact_block_match() {
    let rules = vec![Rule::block_exact("ads.example.com")];
    let (data, meta) = make_ars(rules);
    let reader = read_ars(&data, meta).unwrap();
    assert!(reader.block_exact.as_ref().unwrap().contains("ads.example.com"));
    assert!(!reader.block_exact.as_ref().unwrap().contains("example.com"));
}

#[test]
fn test_suffix_fst_reversed_storage() {
    let rules = vec![Rule::block_suffix("example.com")];
    let (data, meta) = make_ars(rules);
    let reader = read_ars(&data, meta).unwrap();
    let fst = reader.block_suffix.as_ref().unwrap();
    assert!(fst.contains("com.example"));
    assert!(!fst.contains("example.com"));
}

#[test]
fn test_keyword_loaded() {
    let rules = vec![Rule {
        action: RuleAction::Block,
        rule_type: RuleType::DomainKeyword,
        pattern: "tracker".to_string(),
        source: None,
    }];
    let (data, meta) = make_ars(rules);
    let reader = read_ars(&data, meta).unwrap();
    assert!(reader.block_keyword.is_some());
}

#[test]
fn test_allow_rule_loaded() {
    let rules = vec![Rule::block_suffix("example.com"), Rule::allow_exact("safe.example.com")];
    let (data, meta) = make_ars(rules);
    let reader = read_ars(&data, meta).unwrap();
    assert!(reader.block_suffix.is_some());
    assert!(reader.allow_exact.is_some());
}

#[test]
fn test_dedup() {
    let rules = vec![
        Rule::block_exact("dup.com"),
        Rule::block_exact("dup.com"),
        Rule::block_exact("dup.com"),
    ];
    let (data, meta) = make_ars(rules);
    let reader = read_ars(&data, meta).unwrap();
    assert_eq!(reader.metadata.rule_counts.block_exact, 1);
}

#[test]
fn test_checksum_tamper_detected() {
    let rules = vec![Rule::block_exact("test.com")];
    let (mut data, meta) = make_ars(rules);
    let mid = data.len() / 2;
    data[mid] ^= 0xFF;
    assert!(matches!(read_ars(&data, meta), Err(ArsError::ChecksumMismatch { .. })));
}

#[test]
fn test_reverse_labels() {
    assert_eq!(reverse_labels("sub.example.com"), "com.example.sub");
    assert_eq!(reverse_labels("com"), "com");
    assert_eq!(reverse_labels("a.b.c.d"), "d.c.b.a");
}

#[test]
fn test_metadata_preserved() {
    let rules = vec![Rule::block_exact("test.com")];
    let (data, meta) = make_ars(rules);
    let reader = read_ars(&data, meta).unwrap();
    assert_eq!(reader.metadata.rule_counts.block_exact, 1);
    assert!(!reader.metadata.created_at.is_empty());
}

#[test]
fn test_block_suffix_normalized() {
    let r = Rule::block_suffix("Example.COM");
    assert_eq!(r.pattern, "example.com");
    assert_eq!(r.rule_type, RuleType::DomainSuffix);
    assert_eq!(r.action, RuleAction::Block);
}

#[test]
fn test_allow_exact() {
    let r = Rule::allow_exact("Safe.org");
    assert_eq!(r.pattern, "safe.org");
    assert_eq!(r.action, RuleAction::Allow);
}

#[test]
fn reverse_labels_twice_gives_the_name_back() {
    for name in ["sub.example.com", "a..b", ".lead", "trail.", "", "x"] {
        assert_eq!(reverse_labels(&reverse_labels(name)), name);
    }
}

#[test]
fn other_constructors_normalize() {
    let r = Rule::block_exact("ADS.Example.com");
    assert_eq!(r.pattern, "ads.example.com");
    assert_eq!(r.rule_type, RuleType::DomainExact);
    assert_eq!(r.action, RuleAction::Block);
    let r = Rule::allow_suffix("Corp.NET");
    assert_eq!(r.pattern, "corp.net");
    assert_eq!(r.rule_type, RuleType::DomainSuffix);
    assert_eq!(r.action, RuleAction::Allow);
    assert!(r.source.is_none());
}

#[test]
fn file_layout_of_an_empty_rule_set() {
    let (data, _meta) = make_ars(Vec::new());
    assert_eq!(&data[0..4], &MAGIC);
    assert_eq!(u16::from_le_bytes([data[4], data[5]]), FORMAT_VERSION);
    // a raw build names the raw codec in the header
    assert_eq!(data[6], 0);
    assert_eq!(data[7], 0);
    assert_eq!(u32::from_le_bytes([data[8], data[9], data[10], data[11]]), 0);
    // only the metadata section
    assert_eq!(u32::from_le_bytes([data[12], data[13], data[14], data[15]]), 1);
    let hcrc = u32::from_le_bytes([data[28], data[29], data[30], data[31]]);
    assert_eq!(hcrc, crc32fast::hash(&data[0..28]));
    let n = data.len();
    let tail = u32::from_le_bytes([data[n - 4], data[n - 3], data[n - 2], data[n - 1]]);
    assert_eq!(tail, crc32fast::hash(&data[..n - TRAILER_SIZE]));
    assert_eq!(data[HEADER_SIZE], 0x40);
}

#[test]
fn sections_read_back_in_planned_order() {
    let rules = vec![
        Rule::block_exact("a.com"),
        Rule::block_suffix("b.com"),
        Rule::allow_exact("c.com"),
        Rule::allow_suffix("d.com"),
        Rule { action: RuleAction::Block, rule_type: RuleType::DomainKeyword, pattern: "ad".into(), source: None },
        Rule { action: RuleAction::Allow, rule_type: RuleType::DomainKeyword, pattern: "ok".into(), source: None },
        Rule { action: RuleAction::Block, rule_type: RuleType::Regex, pattern: "^x+$".into(), source: None },
        Rule { action: RuleAction::Allow, rule_type: RuleType::Regex, pattern: "^y$".into(), source: None },
    ];
    let (data, _meta) = make_ars(rules);
    let scan = scan_sections(&data);
    assert!(scan.error.is_none());
    let ids: Vec<SectionId> = scan.sections.iter().map(|s| s.id).collect();
    assert_eq!(
        ids,
        vec![
            SectionId::Metadata,
            SectionId::BlockExact,
            SectionId::BlockSuffix,
            SectionId::AllowExact,
            SectionId::AllowSuffix,
            SectionId::BlockKeyword,
            SectionId::AllowKeyword,
            SectionId::BlockRegex,
            SectionId::AllowRegex,
        ]
    );
    assert_eq!(scan.sections[5].data, b"ad".to_vec());
    assert_eq!(scan.sections[7].data, b"^x+$".to_vec());
}

#[test]
fn zstd_rule_set_reads_back() {
    let rules = vec![Rule::block_exact("z.example"), Rule::block_suffix("zz.example")];
    let (data, meta) = make_ars_with(rules, Compression::Zstd);
    // the header names the zstd codec, and the metadata section is stored with it
    assert_eq!(data[6], 1);
    assert_eq!(data[HEADER_SIZE + 1], 1);
    let reader = read_ars(&data, meta).unwrap();
    assert!(reader.block_exact.as_ref().unwrap().contains("z.example"));
    assert!(reader.block_suffix.as_ref().unwrap().contains("example.zz"));
}

#[test]
fn short_file_is_truncated() {
    let scan = scan_sections(&[0u8; 10]);
    match scan.error {
        Some(ArsError::TruncatedData { section }) => assert_eq!(section, "header"),
        _ => panic!("expected a truncation error"),
    }
}

/// Replaces the trailer with the CRC of the rest.
fn reseal(data: &mut Vec<u8>) {
    let n = data.len();
    let c = crc32fast::hash(&data[..n - 4]);
    data[n - 4..].copy_from_slice(&c.to_le_bytes());
}

#[test]
fn bad_magic_is_refused() {
    let (mut data, _) = make_ars(vec![Rule::block_exact("m.com")]);
    data[0] = b'X';
    reseal(&mut data);
    assert!(matches!(scan_sections(&data).error, Some(ArsError::InvalidMagic)));
}

#[test]
fn unsupported_version_is_refused() {
    let (mut data, _) = make_ars(vec![Rule::block_exact("v.com")]);
    data[4] = 9;
    reseal(&mut data);
    assert!(matches!(scan_sections(&data).error, Some(ArsError::UnsupportedVersion(9))));
}

#[test]
fn unknown_section_id_is_refused() {
    let (mut data, _) = make_ars(vec![Rule::block_exact("s.com")]);
    data[HEADER_SIZE] = 0x42;
    reseal(&mut data);
    let scan = scan_sections(&data);
    assert!(matches!(scan.error, Some(ArsError::InvalidSectionType(0x42))));
    assert!(scan.sections.is_empty());
}

#[test]
fn unknown_codec_is_refused() {
    let (mut data, _) = make_ars(vec![Rule::block_exact("c.com")]);
    data[HEADER_SIZE + 1] = 7;
    reseal(&mut data);
    assert!(matches!(scan_sections(&data).error, Some(ArsError::InvalidSectionType(7))));
}

#[test]
fn overlong_section_is_truncated() {
    let (mut data, _) = make_ars(vec![Rule::block_exact("t.com")]);
    let big = 0x00FF_FFFFu32.to_le_bytes();
    data[HEADER_SIZE + 2..HEADER_SIZE + 6].copy_from_slice(&big);
    reseal(&mut data);
    match scan_sections(&data).error {
        Some(ArsError::TruncatedData { section }) => assert_eq!(section, "section id=0x40"),
        _ => panic!("expected a truncation error"),
    }
}

#[test]
fn bad_zstd_data_is_a_decompress_error() {
    let (mut data, _) = make_ars(vec![Rule::block_exact("d.com")]);
    data[HEADER_SIZE + 1] = 1;
    reseal(&mut data);
    assert!(matches!(scan_sections(&data).error, Some(ArsError::DecompressError(_))));
}

#[test]
fn missing_section_header_is_an_io_error() {
    let (mut data, _) = make_ars(vec![Rule::block_exact("e.com")]);
    // announce one more section than there is
    data[12] = 3;
    let hc = crc32fast::hash(&data[0..28]);
    data[28..32].copy_from_slice(&hc.to_le_bytes());
    reseal(&mut data);
    let scan = scan_sections(&data);
    assert!(matches!(scan.error, Some(ArsError::Io(_))));
    assert_eq!(scan.sections.len(), 2);
}

#[test]
fn missing_metadata_is_reported() {
    let r = ArsReader::from_sections(Vec::new(), None, Vec::new());
    match r {
        Err(ArsError::TruncatedData { section }) => assert_eq!(section, "metadata section missing"),
        _ => panic!("expected a missing-metadata error"),
    }
}

#[test]
fn broken_fst_section_is_an_fst_error() {
    let (_, meta) = make_ars(Vec::new());
    let sections = vec![Section { id: SectionId::BlockExact, data: vec![1, 2, 3] }];
    assert!(matches!(ArsReader::from_sections(sections, Some(meta), Vec::new()), Err(ArsError::FstError(_))));
}

#[test]
fn broken_regex_section_is_a_regex_error() {
    let (_, meta) = make_ars(Vec::new());
    let sections = vec![Section { id: SectionId::BlockRegex, data: b"(unclosed".to_vec() }];
    assert!(matches!(ArsReader::from_sections(sections, Some(meta), Vec::new()), Err(ArsError::RegexError(_))));
}

#[test]
fn later_section_of_a_kind_wins() {
    let (_, meta) = make_ars(Vec::new());
    let sections = vec![
        Section { id: SectionId::BlockKeyword, data: b"first".to_vec() },
        Section { id: SectionId::BlockKeyword, data: Vec::new() },
    ];
    let reader = ArsReader::from_sections(sections, Some(meta), Vec::new()).unwrap();
    assert!(reader.block_keyword.is_none());
}

#[test]
fn counts_total_adds_every_kind() {
    let c = RuleCounts {
        block_exact: 1,
        block_suffix: 2,
        block_keyword: 3,
        block_regex: 4,
        allow_exact: 5,
        allow_suffix: 6,
        allow_keyword: 7,
        allow_regex: 8,
        rewrite: 9,
    };
    assert_eq!(c.total(), 45);
    assert_eq!(RuleCounts::default().total(), 0);
}

#[test]
fn prepare_sorts_sections_and_keeps_metadata() {
    let mut b = ArsBuilder::new();
    b.add_rule(Rule::block_exact("b.com"));
    b.add_rule(Rule::block_exact("a.com"));
    b.add_rule(Rule::block_exact("b.com"));
    b.add_rule(Rule { action: RuleAction::Rewrite { target: "1.2.3.4".into() }, rule_type: RuleType::DomainExact, pattern: "r.com".into(), source: None });
    let m = ArsMetadata {
        created_at: "then".into(),
        source_files: vec!["x.txt".into()],
        rule_counts: RuleCounts::default(),
        description: Some("d".into()),
    };
    b.set_metadata(m);
    let p = b.prepare();
    assert_eq!(p.block_exact, vec!["a.com".to_string(), "b.com".to_string()]);
    assert_eq!(p.counts.block_exact, 2);
    assert_eq!(p.counts.rewrite, 1);
    assert_eq!(p.rewrites[0].target, "1.2.3.4");
    let meta = resolve_metadata(p.metadata.clone(), p.counts).unwrap();
    assert_eq!(meta.created_at, "then");
    assert_eq!(meta.source_files, vec!["x.txt".to_string()]);
    // the builder's metadata was taken
    assert!(b.prepare().metadata.is_none());
}

#[test]
fn metadata_section_holds_the_written_json() {
    let (data, meta) = make_ars(vec![Rule::block_exact("m.org"), Rule::block_exact("m.org")]);
    let scan = scan_sections(&data);
    let sec = scan.sections.iter().find(|s| s.id == SectionId::Metadata).unwrap();
    assert_eq!(sec.data, metadata_json(&meta).into_bytes());
    let read = metadata_from_section(&sec.data);
    assert_eq!(read.rule_counts.block_exact, 1);
    assert_eq!(read.created_at, meta.created_at);
}

#[test]
fn default_metadata_is_stamped_in_rfc3339_utc() {
    let m = resolve_metadata(None, RuleCounts::default()).unwrap();
    assert!(m.created_at.len() >= 25);
    assert!(m.created_at.ends_with("+00:00"));
    assert_eq!(&m.created_at[10..11], "T");
    assert!(m.source_files.is_empty());
    assert!(m.description.is_none());
}

#[test]
fn reversed_labels_keep_length_and_reverse_order() {
    for name in ["sub.example.com", "a..b", ".lead", "trail.", "", "x"] {
        let r = reverse_labels(name);
        assert_eq!(r.len(), name.len());
        let mut labels: Vec<&str> = name.split('.').collect();
        labels.reverse();
        assert_eq!(r.split('.').collect::<Vec<&str>>(), labels);
    }
}

#[test]
fn json_sections_in_file_order() {
    let sections = vec![
        Section { id: SectionId::BlockExact, data: Vec::new() },
        Section { id: SectionId::Metadata, data: Vec::new() },
        Section { id: SectionId::Rewrite, data: Vec::new() },
        Section { id: SectionId::AllowRegex, data: Vec::new() },
        Section { id: SectionId::Metadata, data: Vec::new() },
    ];
    assert_eq!(json_section_positions(&sections), vec![1, 2, 4]);
    assert!(json_section_positions(&Vec::new()).is_empty());
}

#[test]
fn compressed_sections_decompress_back() {
    let long: Vec<u8> = b"ads.example.com\n".iter().cycle().take(4000).cloned().collect();
    for data in [Vec::new(), b"x".to_vec(), long] {
        for c in [Compression::Raw, Compression::Zstd] {
            let (out, k) = compress_data(&data, c).unwrap();
            assert_eq!(decompress(&out, k).unwrap(), data);
        }
    }
    let (out, k) = compress_data(&vec![7u8; 4000], Compression::Zstd).unwrap();
    assert_eq!(k, Compression::Zstd);
    assert!(out.len() < 4000);
    assert!(matches!(decompress(b"not zstd", Compression::Zstd), Err(ArsError::DecompressError(_))));
}
