//! Blocklist documents and planned changes to them.

use kidobo::policy::blocklist::{
    canonicalize_blocklist, classify_ban_targets, exact_match_indexes, parse_blocklist_target,
    plan_unban, plan_unban_many, BanClassification, BlocklistDocument, BlocklistTargetParseError,
    InvalidBlocklistLine,
};
use kidobo::policy::cidr_text::parse_ip_cidr_non_strict;
use kidobo::policy::network_types::{CanonicalCidr, Ipv4Cidr};

#[test]
fn canonicalize_blocklist_preserves_header_and_canonicalizes_entries() {
    let normalized = canonicalize_blocklist(
        "# top comment \n203.0.113.7\n# dropped later comment\n203.0.113.0/24\n2001:db8::/64\n2001:db8::/64\n",
    )
    .expect("canonicalize");

    assert_eq!(
        normalized,
        "# top comment\n\n203.0.113.0/24\n2001:db8::/64\n"
    );
}

#[test]
fn canonicalize_blocklist_trims_header_trailing_blank_when_no_entries() {
    assert_eq!(
        canonicalize_blocklist("# header\n\n").expect("canonicalize"),
        "# header\n"
    );
}

#[test]
fn canonicalize_blocklist_rejects_invalid_non_header_lines() {
    let err = canonicalize_blocklist("# header\n203.0.113.7 trailing-junk\n")
        .expect_err("invalid line must fail");

    assert_eq!(
        err,
        InvalidBlocklistLine {
            line_number: 2,
            content: "203.0.113.7 trailing-junk".to_string(),
        }
    );
}

#[test]
fn classify_ban_targets_preserves_order_and_dedups_against_existing_and_new_entries() {
    let existing = vec![parse_ip_cidr_non_strict("198.51.100.0/24").expect("existing")];
    let targets = vec![
        parse_ip_cidr_non_strict("203.0.113.7").expect("first"),
        parse_ip_cidr_non_strict("198.51.100.0/24").expect("second"),
        parse_ip_cidr_non_strict("203.0.113.7").expect("third"),
    ];

    assert_eq!(
        classify_ban_targets(&existing, &targets),
        vec![
            BanClassification::Added(parse_ip_cidr_non_strict("203.0.113.7").expect("added")),
            BanClassification::AlreadyPresent(
                parse_ip_cidr_non_strict("198.51.100.0/24").expect("present")
            ),
            BanClassification::AlreadyPresent(
                parse_ip_cidr_non_strict("203.0.113.7").expect("dup")
            ),
        ]
    );
}

#[test]
fn plan_unban_separates_exact_and_partial_matches_without_cross_family_leakage() {
    let entries = vec![
        Some(parse_ip_cidr_non_strict("203.0.113.0/24").expect("v4 supernet")),
        Some(parse_ip_cidr_non_strict("203.0.113.7").expect("v4 exact")),
        Some(parse_ip_cidr_non_strict("2001:db8::/64").expect("v6")),
    ];
    let target = parse_ip_cidr_non_strict("203.0.113.7").expect("target");

    let plan = plan_unban(&entries, target);
    assert_eq!(plan.exact_indexes, vec![1]);
    assert_eq!(plan.partial_indexes, vec![0]);
}

#[test]
fn plan_unban_many_excludes_exact_indexes_from_partial_results() {
    let entries = vec![
        Some(parse_ip_cidr_non_strict("203.0.113.0/24").expect("first")),
        Some(parse_ip_cidr_non_strict("198.51.100.0/24").expect("second")),
    ];
    let targets = vec![
        parse_ip_cidr_non_strict("203.0.113.0/24").expect("exact"),
        parse_ip_cidr_non_strict("198.51.100.7").expect("partial"),
        parse_ip_cidr_non_strict("203.0.113.7").expect("overlap exact bucket"),
    ];

    let plan = plan_unban_many(&entries, &targets);
    assert_eq!(plan.exact_indexes, vec![0]);
    assert_eq!(plan.partial_indexes, vec![1]);
}

#[test]
fn exact_match_indexes_only_match_exact_entries() {
    let entries = vec![
        Some(parse_ip_cidr_non_strict("203.0.113.0/24").expect("cidr")),
        Some(parse_ip_cidr_non_strict("203.0.113.7").expect("host")),
        None,
    ];
    let targets = vec![parse_ip_cidr_non_strict("203.0.113.0/24").expect("target")];

    assert_eq!(exact_match_indexes(&entries, &targets), vec![0]);
}

#[test]
fn parse_blocklist_target_trims_whitespace_and_canonicalizes_hosts() {
    let parsed = parse_blocklist_target(" 203.0.113.7 ").expect("parse");
    assert_eq!(
        parsed,
        CanonicalCidr::V4(Ipv4Cidr::from_parts(0xcb00_7107, 32))
    );
}

#[test]
fn parse_blocklist_target_rejects_trailing_tokens() {
    assert_eq!(
        parse_blocklist_target("203.0.113.7 trailing-junk"),
        Err(BlocklistTargetParseError::Invalid)
    );
}

#[test]
fn parse_document_preserves_original_lines_for_mutation_workflows() {
    let document =
        BlocklistDocument::parse("# header\n203.0.113.0/24\n# comment\n\n").expect("parse");

    assert_eq!(document.lines.len(), 4);
    assert_eq!(document.lines[0].original, "# header");
    assert_eq!(document.lines[1].original, "203.0.113.0/24");
    assert_eq!(document.lines[2].original, "# comment");
    assert_eq!(document.lines[3].original, "");
    assert!(document.trailing_newline);
    assert!(document.has_content);
}

#[test]
fn canonical_contents_stay_as_they_are() {
    for contents in [
        "# a\n#b \n\n10.0.0.1\n10.0.0.0\n2001:db8::1/32\n",
        "10.0.0.0/25\n10.0.0.128/25",
        "# only notes\n\n",
        "",
    ] {
        let once = canonicalize_blocklist(contents).expect("first pass");
        let twice = canonicalize_blocklist(&once).expect("second pass");
        assert_eq!(twice, once);
    }
}

#[test]
fn a_header_that_ends_in_blank_lines_loses_one_of_them_in_each_pass() {
    let once = canonicalize_blocklist("#a\n\n\n").expect("first pass");
    assert_eq!(once, "#a\n\n");
    assert_eq!(canonicalize_blocklist(&once).expect("second pass"), "#a\n");
}

#[test]
fn every_overlapping_entry_is_planned_once() {
    let entry = |text: &str| parse_ip_cidr_non_strict(text);
    let entries = vec![
        entry("10.0.0.0/8"),
        None,
        entry("10.1.0.0/16"),
        entry("192.0.2.0/24"),
        entry("10.1.2.3"),
    ];
    let target = parse_ip_cidr_non_strict("10.1.0.0/16").expect("target");

    let plan = plan_unban(&entries, target);

    assert_eq!(plan.exact_indexes, vec![2]);
    assert_eq!(plan.partial_indexes, vec![0, 4]);
}

fn host(number: u32) -> CanonicalCidr {
    CanonicalCidr::V4(Ipv4Cidr::from_parts(number, 32))
}

#[test]
fn long_requests_are_classified_and_matched_as_short_ones_are() {
    let existing: Vec<CanonicalCidr> = (0..20_000).rev().map(|n| host(2 * n)).collect();
    let targets: Vec<CanonicalCidr> = (0..20_000).chain(0..20_000).map(host).collect();
    let classes = classify_ban_targets(&existing, &targets);
    assert_eq!(classes.len(), targets.len());
    for (i, class) in classes.iter().enumerate() {
        let expected = if i < 20_000 && i % 2 == 1 {
            BanClassification::Added(targets[i])
        } else {
            BanClassification::AlreadyPresent(targets[i])
        };
        assert_eq!(*class, expected);
    }

    let entries: Vec<Option<CanonicalCidr>> = existing.into_iter().map(Some).collect();
    let matched = exact_match_indexes(&entries, &targets);
    assert_eq!(matched, (10_000..20_000).collect::<Vec<usize>>());
}

#[test]
fn networks_of_both_families_and_all_lengths_are_found_again() {
    let texts = [
        "0.0.0.0/0", "::/0", "10.0.0.0/8", "10.0.0.0/9", "10.0.0.0", "2001:db8::/32", "2001:db8::",
    ];
    let cidrs: Vec<CanonicalCidr> = texts
        .iter()
        .map(|text| parse_ip_cidr_non_strict(text).expect("network"))
        .collect();
    for (i, cidr) in cidrs.iter().enumerate() {
        let others: Vec<CanonicalCidr> = cidrs.iter().copied().filter(|c| c != cidr).collect();
        assert_eq!(
            classify_ban_targets(&others, &[*cidr]),
            [BanClassification::Added(*cidr)]
        );
        assert_eq!(
            classify_ban_targets(&cidrs, &[*cidr]),
            [BanClassification::AlreadyPresent(*cidr)]
        );
        let entries: Vec<Option<CanonicalCidr>> = cidrs.iter().copied().map(Some).collect();
        assert_eq!(plan_unban(&entries, *cidr).exact_indexes, [i]);
    }
}
