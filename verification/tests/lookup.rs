//! Lookup of targets among source entries.

use kidobo::policy::lookup::{
    cidr_overlaps, parse_target_strict, run_lookup, run_lookup_by_target, run_lookup_streaming,
    IntervalIndexV4, IntervalIndexV6, LookupReport, LookupSourceEntry, LookupTargetParseError,
};
use kidobo::policy::intervals::{IntervalU128, IntervalU32};
use kidobo::policy::network_types::{CanonicalCidr, Ipv4Cidr, Ipv6Cidr};

#[test]
fn strict_target_parsing_accepts_ip_and_cidr() {
    let host = parse_target_strict("198.51.100.1").expect("host");
    assert_eq!(
        host,
        CanonicalCidr::V4(Ipv4Cidr::from_parts(0xc633_6401, 32))
    );

    let cidr = parse_target_strict("2001:db8::/64").expect("cidr");
    assert_eq!(
        cidr,
        CanonicalCidr::V6(Ipv6Cidr::from_parts(
            0x2001_0db8_0000_0000_0000_0000_0000_0000,
            64
        ))
    );
}

#[test]
fn strict_target_parsing_rejects_non_strict_forms() {
    assert_eq!(parse_target_strict(""), Err(LookupTargetParseError::Empty));
    assert_eq!(
        parse_target_strict("10.0.0.1 trailing"),
        Err(LookupTargetParseError::Invalid)
    );
    assert_eq!(
        parse_target_strict("not-an-ip"),
        Err(LookupTargetParseError::Invalid)
    );
}

#[test]
fn overlap_matching_is_family_aware() {
    let v4_a = CanonicalCidr::V4(Ipv4Cidr::from_parts(0x0a00_0000, 24));
    let v4_b = CanonicalCidr::V4(Ipv4Cidr::from_parts(0x0a00_0080, 25));
    let v6 = CanonicalCidr::V6(Ipv6Cidr::from_parts(
        0x2001_0db8_0000_0000_0000_0000_0000_0000,
        64,
    ));

    assert!(cidr_overlaps(v4_a, v4_b));
    assert!(!cidr_overlaps(v4_a, v6));
}

#[test]
fn lookup_reports_matches_and_invalid_targets() {
    let sources = vec![
        LookupSourceEntry {
            source_label: "internal:blocklist".into(),
            source_line: "10.0.0.0/24".to_string(),
            cidr: CanonicalCidr::V4(Ipv4Cidr::from_parts(0x0a00_0000, 24)),
        },
        LookupSourceEntry {
            source_label: "remote:abcd1234.iplist".into(),
            source_line: "2001:db8::/64".to_string(),
            cidr: CanonicalCidr::V6(Ipv6Cidr::from_parts(
                0x2001_0db8_0000_0000_0000_0000_0000_0000,
                64,
            )),
        },
    ];

    let report = run_lookup(
        &[
            "10.0.0.7".to_string(),
            "2001:db8::5".to_string(),
            "invalid".to_string(),
        ],
        &sources,
    );

    assert_eq!(report.invalid_targets, vec!["invalid".to_string()]);
    assert_eq!(report.matches.len(), 2);

    assert_eq!(report.matches[0].target, "10.0.0.7");
    assert_eq!(report.matches[0].source_label, "internal:blocklist");
    assert_eq!(report.matches[0].matched_source_entry, "10.0.0.0/24");

    assert_eq!(report.matches[1].target, "2001:db8::5");
    assert_eq!(report.matches[1].source_label, "remote:abcd1234.iplist");
    assert_eq!(report.matches[1].matched_source_entry, "2001:db8::/64");
}

#[test]
fn lookup_index_v6_keeps_endpoint_boundary_matches() {
    let sources = vec![LookupSourceEntry {
        source_label: "source:v6-boundary".into(),
        source_line: "2001:db8::/124".to_string(),
        cidr: CanonicalCidr::V6(Ipv6Cidr::from_parts(
            0x2001_0db8_0000_0000_0000_0000_0000_0000,
            124,
        )),
    }];

    let report = run_lookup(&["2001:db8::f".to_string()], &sources);

    assert!(report.invalid_targets.is_empty());
    assert_eq!(report.matches.len(), 1);
    assert_eq!(report.matches[0].source_label, "source:v6-boundary");
    assert_eq!(report.matches[0].matched_source_entry, "2001:db8::/124");
}

#[test]
fn lookup_index_handles_non_overlapping_prefix_sections() {
    let sources = vec![
        LookupSourceEntry {
            source_label: "source:a".into(),
            source_line: "10.0.0.0/24".to_string(),
            cidr: CanonicalCidr::V4(Ipv4Cidr::from_parts(0x0a00_0000, 24)),
        },
        LookupSourceEntry {
            source_label: "source:b".into(),
            source_line: "10.0.2.0/24".to_string(),
            cidr: CanonicalCidr::V4(Ipv4Cidr::from_parts(0x0a00_0200, 24)),
        },
        LookupSourceEntry {
            source_label: "source:c".into(),
            source_line: "10.0.4.0/24".to_string(),
            cidr: CanonicalCidr::V4(Ipv4Cidr::from_parts(0x0a00_0400, 24)),
        },
    ];

    let report = run_lookup(&["10.0.2.7".to_string()], &sources);
    assert_eq!(report.matches.len(), 1);
    assert_eq!(report.matches[0].source_label, "source:b");
}

#[test]
fn streaming_lookup_dedups_duplicate_targets_and_sources() {
    let sources = vec![
        LookupSourceEntry {
            source_label: "source:a".into(),
            source_line: "10.0.0.0/24".to_string(),
            cidr: CanonicalCidr::V4(Ipv4Cidr::from_parts(0x0a00_0000, 24)),
        },
        LookupSourceEntry {
            source_label: "source:a".into(),
            source_line: "10.0.0.0/24".to_string(),
            cidr: CanonicalCidr::V4(Ipv4Cidr::from_parts(0x0a00_0000, 24)),
        },
    ];

    let targets = vec!["10.0.0.7".to_string(), "10.0.0.7".to_string()];
    let (streamed, invalid) = run_lookup_streaming(&targets, &sources);
    let emitted = streamed
        .iter()
        .map(|found| {
            (
                found.target.to_string(),
                found.source.source_label.to_string(),
                found.source.source_line.clone(),
                found.source.cidr,
            )
        })
        .collect::<Vec<_>>();

    assert!(invalid.is_empty());
    assert_eq!(emitted.len(), 1);
    assert_eq!(emitted[0].0, "10.0.0.7");
    assert_eq!(emitted[0].1, "source:a");
    assert_eq!(emitted[0].2, "10.0.0.0/24");
}

#[test]
fn lookup_by_target_emits_empty_matches_for_valid_target() {
    let (groups, invalid) = run_lookup_by_target(&["198.51.100.9".to_string()], &[]);
    let emitted = groups
        .iter()
        .map(|group| (group.target.to_string(), group.sources.len()))
        .collect::<Vec<_>>();

    assert!(invalid.is_empty());
    assert_eq!(emitted, vec![("198.51.100.9".to_string(), 0)]);
}

#[test]
fn lookup_preserves_distinct_source_lines_for_same_label_and_cidr() {
    let sources = vec![
        LookupSourceEntry {
            source_label: "source:a".into(),
            source_line: "10.0.0.0/24".to_string(),
            cidr: CanonicalCidr::V4(Ipv4Cidr::from_parts(0x0a00_0000, 24)),
        },
        LookupSourceEntry {
            source_label: "source:a".into(),
            source_line: "10.0.0.42/24".to_string(),
            cidr: CanonicalCidr::V4(Ipv4Cidr::from_parts(0x0a00_0000, 24)),
        },
    ];

    let report = run_lookup(&["10.0.0.7".to_string()], &sources);
    let matched_source_entries = report
        .matches
        .iter()
        .map(|m| m.matched_source_entry.as_str())
        .collect::<Vec<_>>();

    assert_eq!(matched_source_entries, vec!["10.0.0.0/24", "10.0.0.42/24"]);
}

#[test]
fn lookup_index_keeps_supernet_matches() {
    let sources = vec![
        LookupSourceEntry {
            source_label: "source:super".into(),
            source_line: "10.0.0.0/8".to_string(),
            cidr: CanonicalCidr::V4(Ipv4Cidr::from_parts(0x0a00_0000, 8)),
        },
        LookupSourceEntry {
            source_label: "source:narrow".into(),
            source_line: "10.2.0.0/16".to_string(),
            cidr: CanonicalCidr::V4(Ipv4Cidr::from_parts(0x0a02_0000, 16)),
        },
    ];

    let report = run_lookup(&["10.2.3.4".to_string()], &sources);
    let labels = report
        .matches
        .iter()
        .map(|m| m.source_label.as_str())
        .collect::<Vec<_>>();

    assert_eq!(labels, vec!["source:narrow", "source:super"]);
}

#[test]
fn lookup_target_supernets_keep_nested_source_matches() {
    let sources = vec![
        LookupSourceEntry {
            source_label: "source:v6-nested".into(),
            source_line: "2001:db8:0:1::/64".to_string(),
            cidr: CanonicalCidr::V6(Ipv6Cidr::from_parts(
                0x2001_0db8_0000_0001_0000_0000_0000_0000,
                64,
            )),
        },
        LookupSourceEntry {
            source_label: "source:v4-outside".into(),
            source_line: "10.2.0.0/24".to_string(),
            cidr: CanonicalCidr::V4(Ipv4Cidr::from_parts(0x0a02_0000, 24)),
        },
        LookupSourceEntry {
            source_label: "source:v4-nested".into(),
            source_line: "10.1.2.0/24".to_string(),
            cidr: CanonicalCidr::V4(Ipv4Cidr::from_parts(0x0a01_0200, 24)),
        },
    ];

    let report = run_lookup(
        &["10.1.0.0/16".to_string(), "2001:db8::/48".to_string()],
        &sources,
    );
    let matches = report
        .matches
        .iter()
        .map(|entry| (entry.target.as_str(), entry.source_label.as_str()))
        .collect::<Vec<_>>();

    assert_eq!(
        matches,
        vec![
            ("10.1.0.0/16", "source:v4-nested"),
            ("2001:db8::/48", "source:v6-nested"),
        ]
    );
}

#[test]
fn lookup_index_keeps_same_start_nested_matches() {
    let sources = vec![
        LookupSourceEntry {
            source_label: "source:super".into(),
            source_line: "10.0.0.0/8".to_string(),
            cidr: CanonicalCidr::V4(Ipv4Cidr::from_parts(0x0a00_0000, 8)),
        },
        LookupSourceEntry {
            source_label: "source:narrow".into(),
            source_line: "10.0.0.0/16".to_string(),
            cidr: CanonicalCidr::V4(Ipv4Cidr::from_parts(0x0a00_0000, 16)),
        },
    ];

    let report = run_lookup(&["10.0.2.7".to_string()], &sources);
    let labels = report
        .matches
        .iter()
        .map(|m| m.source_label.as_str())
        .collect::<Vec<_>>();

    assert_eq!(labels, vec!["source:narrow", "source:super"]);
}

#[test]
fn lookup_ipv6_index_keeps_same_start_nested_matches() {
    let base = 0x2001_0db8_0000_0000_0000_0000_0000_0000_u128;
    let sources = vec![
        LookupSourceEntry {
            source_label: "source:super".into(),
            source_line: "2001:db8::/48".to_string(),
            cidr: CanonicalCidr::V6(Ipv6Cidr::from_parts(base, 48)),
        },
        LookupSourceEntry {
            source_label: "source:narrow".into(),
            source_line: "2001:db8::/64".to_string(),
            cidr: CanonicalCidr::V6(Ipv6Cidr::from_parts(base, 64)),
        },
    ];

    let report = run_lookup(&["2001:db8::7".to_string()], &sources);
    let labels = report
        .matches
        .iter()
        .map(|entry| entry.source_label.as_str())
        .collect::<Vec<_>>();

    assert_eq!(labels, vec!["source:narrow", "source:super"]);
}

#[test]
fn lookup_preserves_distinct_source_labels_for_same_cidr() {
    let sources = vec![
        LookupSourceEntry {
            source_label: "feed:a".into(),
            source_line: "10.0.0.0/24".to_string(),
            cidr: CanonicalCidr::V4(Ipv4Cidr::from_parts(0x0a00_0000, 24)),
        },
        LookupSourceEntry {
            source_label: "feed:b".into(),
            source_line: "10.0.0.0/24".to_string(),
            cidr: CanonicalCidr::V4(Ipv4Cidr::from_parts(0x0a00_0000, 24)),
        },
    ];

    let report = run_lookup(&["10.0.0.7".to_string()], &sources);
    let labels = report
        .matches
        .iter()
        .map(|m| m.source_label.as_str())
        .collect::<Vec<_>>();

    assert_eq!(labels, vec!["feed:a", "feed:b"]);
}

#[test]
fn lookup_keeps_distinct_raw_targets_that_parse_to_same_cidr() {
    let sources = vec![LookupSourceEntry {
        source_label: "source:a".into(),
        source_line: "203.0.113.7/32".to_string(),
        cidr: CanonicalCidr::V4(Ipv4Cidr::from_parts(0xcb00_7107, 32)),
    }];

    let report = run_lookup(
        &["203.0.113.7".to_string(), "203.0.113.7/32".to_string()],
        &sources,
    );

    let targets = report
        .matches
        .iter()
        .map(|m| m.target.clone())
        .collect::<Vec<_>>();
    assert_eq!(targets, vec!["203.0.113.7", "203.0.113.7/32"]);
}

#[test]
fn lookup_invalid_targets_are_sorted_and_deduped() {
    let report = run_lookup(
        &["zzz".to_string(), "aaa".to_string(), "zzz".to_string()],
        &[],
    );
    assert_eq!(
        report.invalid_targets,
        vec!["aaa".to_string(), "zzz".to_string()]
    );
}

#[test]
fn lookup_ignores_the_order_and_repetition_of_targets_and_sources() {
    let entry = |label: &str, network: u32, prefix: u8| LookupSourceEntry {
        source_label: label.into(),
        source_line: label.to_string(),
        cidr: CanonicalCidr::V4(Ipv4Cidr::from_parts(network, prefix)),
    };
    let sources = vec![
        entry("wide", 0x0a00_0000, 8),
        entry("narrow", 0x0a00_0000, 24),
        entry("other", 0xc000_0200, 24),
    ];
    let shuffled = vec![
        entry("other", 0xc000_0200, 24),
        entry("narrow", 0x0a00_0000, 24),
        entry("wide", 0x0a00_0000, 8),
        entry("narrow", 0x0a00_0000, 24),
    ];
    let targets = vec![
        "10.0.0.7".to_string(),
        "192.0.2.1".to_string(),
        "bad".to_string(),
    ];
    let repeated = vec![
        "bad".to_string(),
        "192.0.2.1".to_string(),
        "10.0.0.7".to_string(),
        "bad".to_string(),
        "10.0.0.7".to_string(),
    ];

    let first = run_lookup(&targets, &sources);
    let second = run_lookup(&repeated, &shuffled);

    assert_eq!(first.matches.len(), 3);
    assert_eq!(first.matches, second.matches);
    assert_eq!(first.invalid_targets, second.invalid_targets);
}

fn unlabelled(cidr: CanonicalCidr) -> LookupSourceEntry {
    LookupSourceEntry {
        source_label: "list".to_string(),
        source_line: cidr.to_text(),
        cidr,
    }
}

#[test]
fn overlapping_sources_come_in_the_order_of_their_intervals() {
    let v4 = |network, prefix| unlabelled(CanonicalCidr::V4(Ipv4Cidr::from_parts(network, prefix)));
    let sources = vec![
        v4(0x0a00_0100, 24),
        v4(0x0a00_0000, 8),
        v4(0x0b00_0000, 8),
        v4(0x0a00_0000, 24),
    ];
    let index = IntervalIndexV4::from_sources(&sources);
    let target = IntervalU32 { start: 0x0a00_0000, end: 0x0a00_01ff };
    assert_eq!(index.overlapping_source_indices(target, &sources), [3, 1, 0]);

    let v6 = |network, prefix| unlabelled(CanonicalCidr::V6(Ipv6Cidr::from_parts(network, prefix)));
    let sources = vec![v6(1 << 120, 120), v6(0, 8), v6(1 << 120, 128)];
    let index = IntervalIndexV6::from_sources(&sources);
    let target = IntervalU128 { start: 1 << 120, end: 1 << 120 };
    assert_eq!(index.overlapping_source_indices(target, &sources), [2, 0]);
}

#[test]
fn an_empty_report_is_the_default() {
    let report = LookupReport::default();
    assert!(report.matches.is_empty());
    assert!(report.invalid_targets.is_empty());
}
