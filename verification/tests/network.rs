//! Address arithmetic: parsing, intervals, collapsing and subtraction.

use kidobo::policy::cidr_text::{parse_ip_cidr_non_strict, parse_lines_non_strict};
use kidobo::policy::intervals::{
    block_end_u128, block_end_u32, intervals_to_ipv4_cidrs, intervals_to_ipv6_cidrs,
    ipv4_to_interval, ipv6_to_interval, is_aligned_u128, is_aligned_u32, largest_prefix_u128,
    largest_prefix_u32, merge_intervals_u128, merge_intervals_u32, IntervalU128, IntervalU32,
};
use kidobo::policy::network::{
    cidr_overlaps, collapse_ipv4, collapse_ipv6, split_by_family, subtract_safelist_ipv4,
    subtract_safelist_ipv6,
};
use kidobo::policy::network_types::{ipv4_mask, ipv6_mask, CanonicalCidr, Ipv4Cidr, Ipv6Cidr};
use kidobo::policy::radix::radix_sort_intervals_u32_by_start;

fn v4(a: u32, b: u32, c: u32, d: u32) -> u32 {
    (a << 24) | (b << 16) | (c << 8) | d
}

fn all_intervals_u32(base: u32, width: u32) -> Vec<IntervalU32> {
    let mut intervals = Vec::new();
    for start in 0..width {
        for end in start..width {
            intervals.push(IntervalU32 {
                start: base + start,
                end: base + end,
            });
        }
    }
    intervals
}

#[test]
fn checked_constructors_reject_invalid_prefixes() {
    assert!(Ipv4Cidr::new(0, 33).is_none());
    assert!(Ipv6Cidr::new(0, 129).is_none());
}

#[test]
fn checked_constructors_canonicalize_boundary_prefixes() {
    let v4 = Ipv4Cidr::new(v4(203, 0, 113, 7), 0).expect("valid prefix");
    let v6 = Ipv6Cidr::new(1, 0).expect("valid prefix");

    assert_eq!(v4.network(), 0);
    assert_eq!(v6.network(), 0);
    assert!(Ipv4Cidr::new(u32::MAX, 32).is_some());
    assert!(Ipv6Cidr::new(u128::MAX, 128).is_some());
}

fn all_intervals_u128(base: u128, width: u32) -> Vec<IntervalU128> {
    let mut intervals = Vec::new();
    for start in 0..width {
        for end in start..width {
            intervals.push(IntervalU128 {
                start: base + u128::from(start),
                end: base + u128::from(end),
            });
        }
    }
    intervals
}

fn interval_bits_u32(interval: IntervalU32, base: u32, width: u32) -> u16 {
    let mut bits = 0_u16;
    let upper = base + width;
    let start = interval.start.max(base);
    let end = interval.end.min(upper - 1);
    if start > end {
        return bits;
    }

    for ip in start..=end {
        bits |= 1_u16 << (ip - base);
    }
    bits
}

fn interval_bits_u128(interval: IntervalU128, base: u128, width: u32) -> u16 {
    let mut bits = 0_u16;
    let upper = base + u128::from(width);
    let start = interval.start.max(base);
    let end = interval.end.min(upper - 1);
    if start > end {
        return bits;
    }

    let mut ip = start;
    loop {
        let offset = u32::try_from(ip - base).expect("offset must fit u32");
        bits |= 1_u16 << offset;
        if ip == end {
            break;
        }
        ip += 1;
    }

    bits
}

fn cidrs_to_bits_u32(cidrs: &[Ipv4Cidr], base: u32, width: u32) -> u16 {
    let mut bits = 0_u16;
    let upper = base + width;

    for cidr in cidrs {
        let interval = ipv4_to_interval(*cidr);
        assert!(
            interval.start >= base && interval.end < upper,
            "interval escaped small test space: {interval:?} base={base} width={width}"
        );
        for ip in interval.start..=interval.end {
            bits |= 1_u16 << (ip - base);
        }
    }

    bits
}

fn cidrs_to_bits_u128(cidrs: &[Ipv6Cidr], base: u128, width: u32) -> u16 {
    let mut bits = 0_u16;
    let upper = base + u128::from(width);

    for cidr in cidrs {
        let interval = ipv6_to_interval(*cidr);
        assert!(
            interval.start >= base && interval.end < upper,
            "interval escaped small test space: {interval:?} base={base} width={width}"
        );

        let mut ip = interval.start;
        loop {
            let offset = u32::try_from(ip - base).expect("offset must fit u32");
            bits |= 1_u16 << offset;
            if ip == interval.end {
                break;
            }
            ip += 1;
        }
    }

    bits
}

fn build_ipv4_forms(base: u32, width: u32) -> Vec<(Vec<Ipv4Cidr>, u16)> {
    let intervals = all_intervals_u32(base, width);
    let mut choices = Vec::with_capacity(intervals.len() + 1);
    choices.push(None);
    choices.extend(intervals.iter().copied().map(Some));

    let mut forms = Vec::new();
    for first in &choices {
        for second in &choices {
            let mut cidrs = Vec::new();
            let mut bits = 0_u16;

            if let Some(interval) = first {
                cidrs.extend(intervals_to_ipv4_cidrs(&[*interval]));
                bits |= interval_bits_u32(*interval, base, width);
            }
            if let Some(interval) = second {
                cidrs.extend(intervals_to_ipv4_cidrs(&[*interval]));
                bits |= interval_bits_u32(*interval, base, width);
            }

            if let Some(first_cidr) = cidrs.first().copied() {
                cidrs.push(first_cidr);
            }
            cidrs.reverse();

            forms.push((cidrs, bits));
        }
    }

    forms
}

fn build_ipv6_forms(base: u128, width: u32) -> Vec<(Vec<Ipv6Cidr>, u16)> {
    let intervals = all_intervals_u128(base, width);
    let mut choices = Vec::with_capacity(intervals.len() + 1);
    choices.push(None);
    choices.extend(intervals.iter().copied().map(Some));

    let mut forms = Vec::new();
    for first in &choices {
        for second in &choices {
            let mut cidrs = Vec::new();
            let mut bits = 0_u16;

            if let Some(interval) = first {
                cidrs.extend(intervals_to_ipv6_cidrs(&[*interval]));
                bits |= interval_bits_u128(*interval, base, width);
            }
            if let Some(interval) = second {
                cidrs.extend(intervals_to_ipv6_cidrs(&[*interval]));
                bits |= interval_bits_u128(*interval, base, width);
            }

            if let Some(first_cidr) = cidrs.first().copied() {
                cidrs.push(first_cidr);
            }
            cidrs.reverse();

            forms.push((cidrs, bits));
        }
    }

    forms
}

fn merge_intervals_u32_with_standard_sort(mut intervals: Vec<IntervalU32>) -> Vec<IntervalU32> {
    if intervals.is_empty() {
        return Vec::new();
    }

    intervals.sort_unstable();
    let mut iter = intervals.into_iter();
    let mut current = iter
        .next()
        .expect("non-empty intervals must have a first item");
    let mut merged = Vec::new();

    for interval in iter {
        if interval.start <= current.end.saturating_add(1) {
            current.end = current.end.max(interval.end);
        } else {
            merged.push(current);
            current = interval;
        }
    }

    merged.push(current);
    merged
}

#[test]
fn parse_non_strict_accepts_hosts_and_canonicalizes_networks() {
    let host = parse_ip_cidr_non_strict("10.0.0.1").expect("parse host");
    assert_eq!(
        host,
        CanonicalCidr::V4(Ipv4Cidr::from_parts(0x0a00_0001, 32))
    );

    let cidr = parse_ip_cidr_non_strict("10.0.0.42/24").expect("parse cidr");
    assert_eq!(
        cidr,
        CanonicalCidr::V4(Ipv4Cidr::from_parts(0x0a00_0000, 24))
    );

    assert!(parse_ip_cidr_non_strict("not-an-ip").is_none());
    assert!(parse_ip_cidr_non_strict(" ").is_none());
}

#[test]
fn split_by_family_is_strict() {
    let parsed = parse_lines_non_strict(&[
        "10.0.0.1",
        "2001:db8::1",
        "invalid",
        "198.51.100.0/24 trailing",
    ]);

    let separated = split_by_family(&parsed);
    assert_eq!(separated.ipv4.len(), 2);
    assert_eq!(separated.ipv6.len(), 1);
}

#[test]
fn collapse_ipv4_merges_overlap_and_adjacency() {
    let collapsed = collapse_ipv4(&[
        Ipv4Cidr::from_parts(0x0a00_0000, 25),
        Ipv4Cidr::from_parts(0x0a00_0080, 25),
        Ipv4Cidr::from_parts(0x0a00_0000, 24),
    ]);

    assert_eq!(collapsed, vec![Ipv4Cidr::from_parts(0x0a00_0000, 24)]);
}

#[test]
fn collapse_ipv6_merges_adjacent_networks() {
    let collapsed = collapse_ipv6(&[
        Ipv6Cidr::from_parts(0x2001_0db8_0000_0000_0000_0000_0000_0000, 65),
        Ipv6Cidr::from_parts(0x2001_0db8_0000_0000_8000_0000_0000_0000, 65),
    ]);

    assert_eq!(
        collapsed,
        vec![Ipv6Cidr::from_parts(
            0x2001_0db8_0000_0000_0000_0000_0000_0000,
            64
        )]
    );
}

#[test]
fn interval_conversion_is_correct_for_ipv4_and_ipv6() {
    let v4_interval = ipv4_to_interval(Ipv4Cidr::from_parts(0xc000_0200, 24));
    assert_eq!(
        v4_interval,
        IntervalU32 {
            start: 0xc000_0200,
            end: 0xc000_02ff,
        }
    );

    let v6_interval = ipv6_to_interval(Ipv6Cidr::from_parts(
        0x2001_0db8_0000_0000_0000_0000_0000_0000,
        126,
    ));
    assert_eq!(
        v6_interval,
        IntervalU128 {
            start: 0x2001_0db8_0000_0000_0000_0000_0000_0000,
            end: 0x2001_0db8_0000_0000_0000_0000_0000_0003,
        }
    );
}

#[test]
fn cidr_overlap_includes_shared_endpoint_for_each_family() {
    let v4_block = CanonicalCidr::V4(Ipv4Cidr::from_parts(0x0a00_0000, 24));
    let v4_last_host = CanonicalCidr::V4(Ipv4Cidr::from_parts(0x0a00_00ff, 32));

    assert!(cidr_overlaps(v4_block, v4_last_host));
    assert!(cidr_overlaps(v4_last_host, v4_block));

    let v6_base = 0x2001_0db8_0000_0000_0000_0000_0000_0000_u128;
    let v6_block = CanonicalCidr::V6(Ipv6Cidr::from_parts(v6_base, 127));
    let v6_last_host = CanonicalCidr::V6(Ipv6Cidr::from_parts(v6_base + 1, 128));

    assert!(cidr_overlaps(v6_block, v6_last_host));
    assert!(cidr_overlaps(v6_last_host, v6_block));
}

#[test]
fn ipv4_interval_conversion_covers_boundary_prefixes() {
    let full_space = Ipv4Cidr::new(v4(203, 0, 113, 99), 0).expect("valid /0");
    assert_eq!(full_space.network(), 0);
    assert_eq!(full_space.prefix(), 0);
    assert_eq!(
        ipv4_to_interval(full_space),
        IntervalU32 {
            start: 0,
            end: u32::MAX,
        }
    );

    let canonicalized = Ipv4Cidr::new(v4(192, 0, 2, 129), 25).expect("valid /25");
    assert_eq!(canonicalized.network(), v4(192, 0, 2, 128));
    assert_eq!(canonicalized.prefix(), 25);
    assert_eq!(
        ipv4_to_interval(canonicalized),
        IntervalU32 {
            start: 0xc000_0280,
            end: 0xc000_02ff,
        }
    );

    let max_host = Ipv4Cidr::new(u32::MAX, 32).expect("valid /32");
    assert_eq!(max_host.prefix(), 32);
    assert_eq!(
        ipv4_to_interval(max_host),
        IntervalU32 {
            start: u32::MAX,
            end: u32::MAX,
        }
    );

    let max_pair = Ipv4Cidr::new(v4(255, 255, 255, 254), 31).expect("valid /31");
    assert_eq!(
        ipv4_to_interval(max_pair),
        IntervalU32 {
            start: u32::MAX - 1,
            end: u32::MAX,
        }
    );
}

#[test]
fn ipv6_interval_conversion_covers_boundary_prefixes() {
    let full_space =
        Ipv6Cidr::new(0x2001_0db8_0000_0000_u128, 0).expect("valid /0");
    assert_eq!(full_space.network(), 0);
    assert_eq!(full_space.prefix(), 0);
    assert_eq!(
        ipv6_to_interval(full_space),
        IntervalU128 {
            start: 0,
            end: u128::MAX,
        }
    );

    let high_bit_network = Ipv6Cidr::new(
        0xffff_0000_0000_0000_0000_0000_0000_0001_u128,
        16,
    )
    .expect("valid /16");
    assert_eq!(
        high_bit_network.network(),
        0xffff_0000_0000_0000_0000_0000_0000_0000_u128
    );
    assert_eq!(high_bit_network.prefix(), 16);
    assert_eq!(
        ipv6_to_interval(high_bit_network),
        IntervalU128 {
            start: 0xffff_0000_0000_0000_0000_0000_0000_0000_u128,
            end: 0xffff_ffff_ffff_ffff_ffff_ffff_ffff_ffff_u128,
        }
    );

    let max_host = Ipv6Cidr::new(u128::MAX, 128).expect("valid /128");
    assert_eq!(max_host.prefix(), 128);
    assert_eq!(
        ipv6_to_interval(max_host),
        IntervalU128 {
            start: u128::MAX,
            end: u128::MAX,
        }
    );

    let max_pair = Ipv6Cidr::new(u128::MAX - 1, 127).expect("valid /127");
    assert_eq!(
        ipv6_to_interval(max_pair),
        IntervalU128 {
            start: u128::MAX - 1,
            end: u128::MAX,
        }
    );
}

#[test]
fn largest_prefix_helpers_cover_progress_boundaries() {
    assert_eq!(largest_prefix_u32(0, u32::MAX), 0);
    assert_eq!(largest_prefix_u32(u32::MAX - 1, u32::MAX), 31);
    assert_eq!(largest_prefix_u32(u32::MAX, u32::MAX), 32);
    assert_eq!(largest_prefix_u32(0x0a00_0003, 0x0a00_0006), 32);
    assert!(is_aligned_u32(0, 0));
    assert!(!is_aligned_u32(1, 0));
    assert!(is_aligned_u32(u32::MAX, 32));
    assert!(!is_aligned_u32(u32::MAX, 31));

    assert_eq!(largest_prefix_u128(0, u128::MAX), 0);
    assert_eq!(largest_prefix_u128(u128::MAX - 1, u128::MAX), 127);
    assert_eq!(largest_prefix_u128(u128::MAX, u128::MAX), 128);
    assert_eq!(
        largest_prefix_u128(
            0x2001_0db8_0000_0000_0000_0000_0000_0003,
            0x2001_0db8_0000_0000_0000_0000_0000_0006,
        ),
        128
    );
    assert!(is_aligned_u128(0, 0));
    assert!(!is_aligned_u128(1, 0));
    assert!(is_aligned_u128(u128::MAX, 128));
    assert!(!is_aligned_u128(u128::MAX, 127));
}

#[test]
fn mask_and_block_end_helpers_cover_prefix_boundaries() {
    assert_eq!(ipv4_mask(0), 0);
    assert_eq!(ipv4_mask(24), 0xffff_ff00);
    assert_eq!(ipv4_mask(32), u32::MAX);
    assert_eq!(block_end_u32(0, 0), u32::MAX);
    assert_eq!(block_end_u32(0xc000_0200, 24), 0xc000_02ff);
    assert_eq!(block_end_u32(u32::MAX, 32), u32::MAX);

    assert_eq!(ipv6_mask(0), 0);
    assert_eq!(
        ipv6_mask(16),
        0xffff_0000_0000_0000_0000_0000_0000_0000_u128
    );
    assert_eq!(ipv6_mask(128), u128::MAX);
    assert_eq!(block_end_u128(0, 0), u128::MAX);
    assert_eq!(
        block_end_u128(0x2001_0db8_0000_0000_0000_0000_0000_0000_u128, 64),
        0x2001_0db8_0000_0000_ffff_ffff_ffff_ffff_u128
    );
    assert_eq!(block_end_u128(u128::MAX, 128), u128::MAX);
}

#[test]
fn merge_intervals_handles_adjacency() {
    let merged_v4 = merge_intervals_u32(&[
        IntervalU32 { start: 10, end: 20 },
        IntervalU32 { start: 21, end: 30 },
    ]);
    assert_eq!(merged_v4, vec![IntervalU32 { start: 10, end: 30 }]);

    let merged_v6 = merge_intervals_u128(&[
        IntervalU128 {
            start: 100,
            end: 120,
        },
        IntervalU128 {
            start: 121,
            end: 130,
        },
    ]);
    assert_eq!(
        merged_v6,
        vec![IntervalU128 {
            start: 100,
            end: 130
        }]
    );
}

#[test]
fn merge_intervals_matches_for_sorted_and_unsorted_inputs() {
    let sorted_v4 = vec![
        IntervalU32 { start: 1, end: 2 },
        IntervalU32 { start: 3, end: 5 },
        IntervalU32 { start: 10, end: 12 },
    ];
    let unsorted_v4 = vec![
        IntervalU32 { start: 10, end: 12 },
        IntervalU32 { start: 1, end: 2 },
        IntervalU32 { start: 3, end: 5 },
    ];
    assert_eq!(
        merge_intervals_u32(&sorted_v4),
        merge_intervals_u32(&unsorted_v4)
    );

    let sorted_v6 = vec![
        IntervalU128 { start: 40, end: 50 },
        IntervalU128 { start: 51, end: 53 },
        IntervalU128 {
            start: 100,
            end: 110,
        },
    ];
    let unsorted_v6 = vec![
        IntervalU128 {
            start: 100,
            end: 110,
        },
        IntervalU128 { start: 40, end: 50 },
        IntervalU128 { start: 51, end: 53 },
    ];
    assert_eq!(
        merge_intervals_u128(&sorted_v6),
        merge_intervals_u128(&unsorted_v6)
    );
}

#[test]
fn merge_intervals_handles_equal_starts_with_mixed_ends() {
    let intervals = vec![
        IntervalU32 {
            start: 100,
            end: 100,
        },
        IntervalU32 {
            start: 100,
            end: 140,
        },
        IntervalU32 {
            start: 101,
            end: 110,
        },
        IntervalU32 {
            start: 141,
            end: 141,
        },
    ];

    let merged = merge_intervals_u32(&intervals);
    assert_eq!(
        merged,
        vec![IntervalU32 {
            start: 100,
            end: 141
        }]
    );
}

#[test]
fn merge_intervals_merges_unsorted_adjacency() {
    let merged_v4 = merge_intervals_u32(&[
        IntervalU32 { start: 21, end: 30 },
        IntervalU32 { start: 10, end: 20 },
    ]);
    assert_eq!(merged_v4, vec![IntervalU32 { start: 10, end: 30 }]);

    let merged_v6 = merge_intervals_u128(&[
        IntervalU128 {
            start: 121,
            end: 130,
        },
        IntervalU128 {
            start: 100,
            end: 120,
        },
    ]);
    assert_eq!(
        merged_v6,
        vec![IntervalU128 {
            start: 100,
            end: 130
        }]
    );
}

#[test]
fn merge_intervals_preserves_single_interval() {
    assert_eq!(
        merge_intervals_u32(&[IntervalU32 { start: 10, end: 12 }]),
        vec![IntervalU32 { start: 10, end: 12 }]
    );
    assert_eq!(
        merge_intervals_u128(&[IntervalU128 { start: 10, end: 12 }]),
        vec![IntervalU128 { start: 10, end: 12 }]
    );
}

#[test]
fn merge_intervals_handles_equal_starts_for_ipv6() {
    let merged = merge_intervals_u128(&[
        IntervalU128 {
            start: 100,
            end: 100,
        },
        IntervalU128 {
            start: 100,
            end: 140,
        },
    ]);
    assert_eq!(
        merged,
        vec![IntervalU128 {
            start: 100,
            end: 140
        }]
    );
}

#[test]
fn merge_intervals_does_not_merge_across_single_address_gap() {
    let merged_v4 = merge_intervals_u32(&[
        IntervalU32 { start: 1, end: 2 },
        IntervalU32 { start: 4, end: 5 },
    ]);
    assert_eq!(
        merged_v4,
        vec![
            IntervalU32 { start: 1, end: 2 },
            IntervalU32 { start: 4, end: 5 },
        ]
    );

    let merged_v6 = merge_intervals_u128(&[
        IntervalU128 { start: 1, end: 2 },
        IntervalU128 { start: 4, end: 5 },
    ]);
    assert_eq!(
        merged_v6,
        vec![
            IntervalU128 { start: 1, end: 2 },
            IntervalU128 { start: 4, end: 5 },
        ]
    );
}

#[test]
fn merge_intervals_handles_max_endpoint_without_overflow() {
    assert_eq!(
        merge_intervals_u32(&[
            IntervalU32 {
                start: u32::MAX,
                end: u32::MAX,
            },
            IntervalU32 {
                start: u32::MAX,
                end: u32::MAX,
            },
        ]),
        vec![IntervalU32 {
            start: u32::MAX,
            end: u32::MAX,
        }]
    );

    assert_eq!(
        merge_intervals_u128(&[
            IntervalU128 {
                start: u128::MAX,
                end: u128::MAX,
            },
            IntervalU128 {
                start: u128::MAX,
                end: u128::MAX,
            },
        ]),
        vec![IntervalU128 {
            start: u128::MAX,
            end: u128::MAX,
        }]
    );
}

#[test]
fn merge_intervals_returns_empty_for_empty_input() {
    assert!(merge_intervals_u32(&[]).is_empty());
}

#[test]
fn merge_intervals_handles_zero_start_without_underflow() {
    let merged = merge_intervals_u32(&[
        IntervalU32 { start: 0, end: 0 },
        IntervalU32 { start: 1, end: 1 },
    ]);
    assert_eq!(merged, vec![IntervalU32 { start: 0, end: 1 }]);
}

#[test]
fn merge_intervals_preserves_three_disjoint_components() {
    let merged = merge_intervals_u32(&[
        IntervalU32 { start: 1, end: 1 },
        IntervalU32 { start: 3, end: 3 },
        IntervalU32 { start: 5, end: 5 },
    ]);
    assert_eq!(
        merged,
        vec![
            IntervalU32 { start: 1, end: 1 },
            IntervalU32 { start: 3, end: 3 },
            IntervalU32 { start: 5, end: 5 },
        ]
    );
}

#[test]
fn merge_intervals_large_unsorted_input_uses_correct_ordering() {
    let mut intervals = Vec::with_capacity(16_384);
    for i in 0..8_192_u32 {
        intervals.push(IntervalU32 {
            start: 0x0001_0000 + i * 2,
            end: 0x0001_0000 + i * 2,
        });
        intervals.push(IntervalU32 {
            start: i * 2,
            end: i * 2,
        });
    }

    let merged = merge_intervals_u32(&intervals);

    assert_eq!(merged.len(), 16_384);
    assert_eq!(merged[0], IntervalU32 { start: 0, end: 0 });
    assert_eq!(
        merged[8_191],
        IntervalU32 {
            start: 16_382,
            end: 16_382
        }
    );
    assert_eq!(
        merged[8_192],
        IntervalU32 {
            start: 65_536,
            end: 65_536
        }
    );
}

#[test]
fn large_unsorted_ipv4_merge_matches_standard_sorting() {
    let mut intervals = Vec::with_capacity(20_000);

    for i in 0..20_000_u32 {
        let start = ((i * 65_537) % 1_000_003) * 4 + 1;
        intervals.push(IntervalU32 { start, end: start });
    }

    let expected = merge_intervals_u32_with_standard_sort(intervals.clone());
    let actual = merge_intervals_u32(&intervals);

    assert_eq!(actual, expected);
    assert_eq!(actual.len(), intervals.len());
    assert_ne!(intervals, expected);
}

#[test]
fn radix_sort_directly_sorts_mixed_high_and_low_start_bits() {
    let mut intervals = vec![
        IntervalU32 {
            start: 0x0002_0001,
            end: 0x0002_0001,
        },
        IntervalU32 {
            start: 0x0001_ffff,
            end: 0x0001_ffff,
        },
        IntervalU32 {
            start: 0xffff_0000,
            end: 0xffff_0000,
        },
        IntervalU32 {
            start: 0x0000_8000,
            end: 0x0000_8000,
        },
        IntervalU32 {
            start: 0x0001_0000,
            end: 0x0001_0000,
        },
        IntervalU32 {
            start: 0x0000_0002,
            end: 0x0000_0002,
        },
        IntervalU32 {
            start: 0x8000_0001,
            end: 0x8000_0001,
        },
        IntervalU32 {
            start: 0x0002_0000,
            end: 0x0002_0000,
        },
    ];
    let mut expected = intervals.clone();
    expected.sort_by_key(|interval| interval.start);

    assert!(radix_sort_intervals_u32_by_start(&mut intervals));
    assert_eq!(intervals, expected);

    let mut two_intervals = vec![
        IntervalU32 { start: 2, end: 2 },
        IntervalU32 { start: 1, end: 1 },
    ];
    assert!(radix_sort_intervals_u32_by_start(&mut two_intervals));
    assert_eq!(
        two_intervals,
        vec![
            IntervalU32 { start: 1, end: 1 },
            IntervalU32 { start: 2, end: 2 },
        ]
    );
}

#[test]
fn safelist_subtraction_carves_ipv4_ranges() {
    let carved = subtract_safelist_ipv4(
        &[Ipv4Cidr::from_parts(0x0a00_0000, 24)],
        &[Ipv4Cidr::from_parts(0x0a00_0000, 25)],
    );

    assert_eq!(carved, vec![Ipv4Cidr::from_parts(0x0a00_0080, 25)]);
}

#[test]
fn safelist_subtraction_carves_ipv6_ranges() {
    let carved = subtract_safelist_ipv6(
        &[Ipv6Cidr::from_parts(
            0x2001_0db8_0000_0000_0000_0000_0000_0000,
            127,
        )],
        &[Ipv6Cidr::from_parts(
            0x2001_0db8_0000_0000_0000_0000_0000_0000,
            128,
        )],
    );

    assert_eq!(
        carved,
        vec![Ipv6Cidr::from_parts(
            0x2001_0db8_0000_0000_0000_0000_0000_0001,
            128
        )]
    );
}

#[test]
fn exhaustive_ipv4_subtraction_matches_bruteforce_on_small_space() {
    let base = 0xcb00_7100_u32;
    let width = 6_u32;
    let forms = build_ipv4_forms(base, width);

    for (candidates, candidate_bits) in &forms {
        for (safelist, safelist_bits) in &forms {
            let actual = subtract_safelist_ipv4(candidates, safelist);
            let actual_bits = cidrs_to_bits_u32(&actual, base, width);
            let expected_bits = *candidate_bits & !*safelist_bits;

            assert_eq!(
                actual_bits, expected_bits,
                "IPv4 carved set mismatch candidates={candidates:?} safelist={safelist:?}"
            );
        }
    }
}

#[test]
fn exhaustive_ipv6_subtraction_matches_bruteforce_on_small_space() {
    let base = 0x2001_0db8_0000_0000_0000_0000_0000_0000_u128;
    let width = 6_u32;
    let forms = build_ipv6_forms(base, width);

    for (candidates, candidate_bits) in &forms {
        for (safelist, safelist_bits) in &forms {
            let actual = subtract_safelist_ipv6(candidates, safelist);
            let actual_bits = cidrs_to_bits_u128(&actual, base, width);
            let expected_bits = *candidate_bits & !*safelist_bits;

            assert_eq!(
                actual_bits, expected_bits,
                "IPv6 carved set mismatch candidates={candidates:?} safelist={safelist:?}"
            );
        }
    }
}

#[test]
fn minimal_cidr_regeneration_from_intervals() {
    let cidrs = intervals_to_ipv4_cidrs(&[IntervalU32 {
        start: 0x0a00_0002,
        end: 0x0a00_0005,
    }]);

    assert_eq!(
        cidrs,
        vec![
            Ipv4Cidr::from_parts(0x0a00_0002, 31),
            Ipv4Cidr::from_parts(0x0a00_0004, 31),
        ]
    );

    let cidrs_v6 = intervals_to_ipv6_cidrs(&[IntervalU128 {
        start: 0x2001_0db8_0000_0000_0000_0000_0000_0002,
        end: 0x2001_0db8_0000_0000_0000_0000_0000_0003,
    }]);
    assert_eq!(
        cidrs_v6,
        vec![Ipv6Cidr::from_parts(
            0x2001_0db8_0000_0000_0000_0000_0000_0002,
            127
        )]
    );
}

#[test]
fn interval_regeneration_covers_ipv4_boundary_shapes() {
    assert_eq!(
        intervals_to_ipv4_cidrs(&[IntervalU32 {
            start: 0x0a00_0001,
            end: 0x0a00_0001,
        }]),
        vec![Ipv4Cidr::from_parts(0x0a00_0001, 32)]
    );

    assert_eq!(
        intervals_to_ipv4_cidrs(&[IntervalU32 {
            start: 0x0a00_0002,
            end: 0x0a00_0003,
        }]),
        vec![Ipv4Cidr::from_parts(0x0a00_0002, 31)]
    );

    assert_eq!(
        intervals_to_ipv4_cidrs(&[IntervalU32 {
            start: 0x0a00_0003,
            end: 0x0a00_0006,
        }]),
        vec![
            Ipv4Cidr::from_parts(0x0a00_0003, 32),
            Ipv4Cidr::from_parts(0x0a00_0004, 31),
            Ipv4Cidr::from_parts(0x0a00_0006, 32),
        ]
    );

    assert_eq!(
        intervals_to_ipv4_cidrs(&[IntervalU32 {
            start: u32::MAX - 2,
            end: u32::MAX,
        }]),
        vec![
            Ipv4Cidr::from_parts(u32::MAX - 2, 32),
            Ipv4Cidr::from_parts(u32::MAX - 1, 31),
        ]
    );
}

#[test]
fn interval_regeneration_covers_ipv6_boundary_shapes() {
    let base = 0x2001_0db8_0000_0000_0000_0000_0000_0000_u128;

    assert_eq!(
        intervals_to_ipv6_cidrs(&[IntervalU128 {
            start: base + 1,
            end: base + 1,
        }]),
        vec![Ipv6Cidr::from_parts(base + 1, 128)]
    );

    assert_eq!(
        intervals_to_ipv6_cidrs(&[IntervalU128 {
            start: base + 2,
            end: base + 3,
        }]),
        vec![Ipv6Cidr::from_parts(base + 2, 127)]
    );

    assert_eq!(
        intervals_to_ipv6_cidrs(&[IntervalU128 {
            start: base + 3,
            end: base + 6,
        }]),
        vec![
            Ipv6Cidr::from_parts(base + 3, 128),
            Ipv6Cidr::from_parts(base + 4, 127),
            Ipv6Cidr::from_parts(base + 6, 128),
        ]
    );

    assert_eq!(
        intervals_to_ipv6_cidrs(&[IntervalU128 {
            start: u128::MAX - 2,
            end: u128::MAX,
        }]),
        vec![
            Ipv6Cidr::from_parts(u128::MAX - 2, 128),
            Ipv6Cidr::from_parts(u128::MAX - 1, 127),
        ]
    );
}

#[test]
fn interval_regeneration_covers_full_address_spaces() {
    assert_eq!(
        intervals_to_ipv4_cidrs(&[IntervalU32 {
            start: 0,
            end: u32::MAX,
        }]),
        vec![Ipv4Cidr::from_parts(0, 0)]
    );

    assert_eq!(
        intervals_to_ipv6_cidrs(&[IntervalU128 {
            start: 0,
            end: u128::MAX,
        }]),
        vec![Ipv6Cidr::from_parts(0, 0)]
    );
}

#[test]
fn interval_regeneration_merges_adjacent_input_intervals() {
    let cidrs = intervals_to_ipv4_cidrs(&[
        IntervalU32 {
            start: 0x0a00_0000,
            end: 0x0a00_0000,
        },
        IntervalU32 {
            start: 0x0a00_0001,
            end: 0x0a00_0001,
        },
    ]);

    assert_eq!(cidrs, vec![Ipv4Cidr::from_parts(0x0a00_0000, 31)]);
}

#[test]
fn interval_regeneration_sorts_unsorted_ipv6_input_intervals() {
    let base = 0x2001_0db8_0000_0000_0000_0000_0000_0000_u128;
    let cidrs = intervals_to_ipv6_cidrs(&[
        IntervalU128 {
            start: base + 4,
            end: base + 5,
        },
        IntervalU128 {
            start: base,
            end: base + 1,
        },
    ]);

    assert_eq!(
        cidrs,
        vec![
            Ipv6Cidr::from_parts(base, 127),
            Ipv6Cidr::from_parts(base + 4, 127),
        ]
    );
}

#[test]
fn parse_lines_non_strict_ignores_invalid_lines() {
    let parsed = parse_lines_non_strict(&["10.0.0.1", "not-valid", "2001:db8::/32"]);
    assert_eq!(parsed.len(), 2);
}

#[test]
fn radix_sort_keeps_the_order_of_intervals_with_equal_starts() {
    let interval = |start, end| IntervalU32 { start, end };
    let mut intervals = vec![
        interval(0x0002_0000, 0x0002_0009),
        interval(7, 90),
        interval(0x0002_0000, 0x0002_0001),
        interval(7, 8),
        interval(7, 40),
    ];
    assert!(radix_sort_intervals_u32_by_start(&mut intervals));
    assert_eq!(
        intervals,
        vec![
            interval(7, 90),
            interval(7, 8),
            interval(7, 40),
            interval(0x0002_0000, 0x0002_0009),
            interval(0x0002_0000, 0x0002_0001),
        ]
    );
}
