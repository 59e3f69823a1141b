use swarm_activity_ledger::dimensions::{tally, Dimension};
use swarm_activity_ledger::hotspots::{bounded_hotspot_key, top_hotspots};
use swarm_activity_ledger::latency::{
    percentile_bucket, weighted_average_ms, BoundedLatencySamples,
};
use swarm_activity_ledger::ranges::SampleRanges;
use swarm_activity_ledger::redaction::{is_sensitive_field, looks_sensitive, redact_value};
use swarm_activity_ledger::sketch::parse_latency_ms;
use swarm_activity_ledger::sorted_map::SortedMap;
use swarm_activity_ledger::{
    SwarmActivityIds, SwarmActivityKind, SwarmActivityLatencySummary, SwarmActivityLedger,
    SwarmActivityRedaction, SwarmActivitySketch, SwarmActivitySummaryConfig, DEFAULT_SWARM_ACTIVITY_HOTSPOT_CAPACITY,
    DEFAULT_SWARM_ACTIVITY_LATENCY_SAMPLE_CAPACITY, SWARM_ACTIVITY_LEDGER_SCHEMA,
    SWARM_ACTIVITY_SUMMARY_SCHEMA,
};

fn ledger_of(details: &[&[(&str, &str)]]) -> SwarmActivityLedger {
    let mut ledger = SwarmActivityLedger::new();
    for event in details {
        ledger.append(
            1,
            SwarmActivityKind::Verification,
            SwarmActivityIds::new("c"),
            "s",
            event,
        );
    }
    ledger
}

fn latencies(samples: &[u64], capacity: usize) -> BoundedLatencySamples {
    let mut sketch = BoundedLatencySamples::new(capacity);
    for sample in samples {
        sketch.record(*sample);
    }
    sketch
}

fn pairs(hotspots: &[swarm_activity_ledger::SwarmActivityHotspot]) -> Vec<(&str, u64)> {
    hotspots
        .iter()
        .map(|hotspot| (hotspot.key.as_str(), hotspot.count))
        .collect()
}

#[test]
fn sequences_number_the_entries() {
    let mut ledger = SwarmActivityLedger::new();
    assert!(ledger.is_empty());
    for expected in 0..5 {
        let sequence = ledger.append(
            9 - expected,
            SwarmActivityKind::Note,
            SwarmActivityIds::new("c"),
            "s",
            &[],
        );
        assert_eq!(sequence, expected);
    }
    assert_eq!(ledger.len(), 5);
    assert!(!ledger.is_empty());
    for (place, entry) in ledger.entries().iter().enumerate() {
        assert_eq!(entry.sequence, place as u64);
        assert_eq!(entry.timestamp_ms, 9 - place as u64);
        assert_eq!(entry.schema, SWARM_ACTIVITY_LEDGER_SCHEMA);
    }
    let copy = ledger.clone();
    ledger.append(0, SwarmActivityKind::Note, SwarmActivityIds::new("c"), "s", &[]);
    assert_eq!(copy.len(), 5);
    assert_eq!(copy.entries(), &ledger.entries()[..5]);
    assert!(SwarmActivityLedger::default().is_empty());
}

#[test]
fn names_and_values_are_redacted_in_any_case() {
    let names = [
        "Authorization",
        "my_BEARER",
        "bodyguard",
        "cookies",
        "monkey",
        "PassWord",
        "prompts",
        "secretary",
        "tokens",
        "transcript",
    ];
    let values = ["x BeArEr y", "SK-1", "API_KEY", "Password=", "a Token=b"];
    let mut details: Vec<(&str, &str)> = names.iter().map(|name| (*name, "v")).collect();
    for (place, value) in values.iter().enumerate() {
        details.push((["v0", "v1", "v2", "v3", "v4"][place], value));
    }
    details.push(("plain", "bearer"));
    details.push(("other", "a sk b"));
    let ledger = ledger_of(&[&details]);
    let entry = &ledger.entries()[0];
    for name in names.iter().chain(["v0", "v1", "v2", "v3", "v4"].iter()) {
        assert_eq!(
            entry.details().get(name).map(String::as_str),
            Some("[REDACTED]"),
            "{name}"
        );
    }
    assert_eq!(entry.details().get("plain").map(String::as_str), Some("bearer"));
    assert_eq!(entry.details().get("other").map(String::as_str), Some("a sk b"));
    assert_eq!(entry.summary, "s");
    assert_eq!(entry.redaction.redacted_count, 15);
    assert_eq!(entry.redaction.redacted_fields.len(), 15);
    assert_eq!(entry.redaction.redacted_fields[0], "Authorization");
    assert_eq!(entry.redaction.redacted_fields[14], "v4");
}

#[test]
fn a_repeated_detail_is_redacted_each_time() {
    let ledger = ledger_of(&[&[("token", "1"), ("a", "1"), ("token", "2"), ("a", "2")]]);
    let entry = &ledger.entries()[0];
    assert_eq!(entry.details().len(), 2);
    assert_eq!(entry.details().get("a").map(String::as_str), Some("2"));
    assert_eq!(entry.redaction.redacted_fields, vec!["token", "token"]);
    assert_eq!(entry.redaction.redacted_count, 2);
}

#[test]
fn summaries_count_exactly() {
    let mut ledger = SwarmActivityLedger::new();
    for index in 0..7_u64 {
        let kind = if index % 3 == 0 {
            SwarmActivityKind::Note
        } else {
            SwarmActivityKind::GitCommit
        };
        let details: &[(&str, &str)] = if index == 2 {
            &[("token", "a"), ("secret", "b")]
        } else {
            &[]
        };
        let summary = if index == 5 { "sk-1" } else { "s" };
        ledger.append(index, kind, SwarmActivityIds::new("c"), summary, details);
    }
    for capacity in [0, 1, 64] {
        let summary =
            ledger.summarize_with_config(SwarmActivitySummaryConfig::new(capacity, capacity));
        assert_eq!(summary.event_count, 7);
        assert_eq!(summary.redacted_entry_count, 2);
        assert_eq!(summary.redacted_field_count, 3);
        assert_eq!(summary.kind_counts.len(), 2);
        assert_eq!(summary.kind_counts.get(&SwarmActivityKind::Note), Some(&3));
        assert_eq!(summary.kind_counts.get(&SwarmActivityKind::GitCommit), Some(&4));
        assert_eq!(summary.kind_counts.get(&SwarmActivityKind::RchJob), None);
        assert_eq!(summary.latency_ms, None);
    }
}

#[test]
fn hot_spots_descend_and_ties_go_by_key() {
    let ledger = ledger_of(&[
        &[("tool", "b"), ("model", "m1"), ("status", "ok")],
        &[("TOOL", "a"), ("provider", "m2"), ("status", "ok")],
        &[("tool_name", " c "), ("Model", "m2")],
        &[("tool", "c"), ("tool_name", "c"), ("command", "")],
        &[("tool", "  "), ("decision", "go"), ("exit_code", "0")],
        &[("verification_id", "v"), ("unlisted", "x")],
    ]);
    let summary = ledger.summarize();
    assert_eq!(summary.schema, SWARM_ACTIVITY_SUMMARY_SCHEMA);
    assert_eq!(pairs(&summary.tool_hotspots), vec![("c", 3), ("a", 1), ("b", 1)]);
    assert_eq!(pairs(&summary.provider_hotspots), vec![("m2", 2), ("m1", 1)]);
    assert_eq!(
        pairs(&summary.detail_hotspots),
        vec![
            ("status=ok", 2),
            ("command=", 1),
            ("decision=go", 1),
            ("exit_code=0", 1),
            ("model=m1", 1),
            ("model=m2", 1),
            ("provider=m2", 1),
            ("tool=", 1),
            ("tool=a", 1),
            ("tool=b", 1),
            ("tool=c", 1),
            ("tool_name= c", 1),
            ("tool_name=c", 1),
            ("verification_id=v", 1),
        ]
    );
    assert!(summary.agent_hotspots.is_empty());
}

fn ledger_of_agents(agents: &[&str]) -> SwarmActivityLedger {
    let mut ledger = SwarmActivityLedger::new();
    for agent in agents {
        ledger.append(
            1,
            SwarmActivityKind::Note,
            SwarmActivityIds::new("c").with_agent_name(agent),
            "s",
            &[],
        );
    }
    ledger
}

#[test]
fn summaries_of_ledgers_list_the_most_frequent_of_all_values() {
    let one = SwarmActivitySummaryConfig::new(1, 1);
    let summary = ledger_of_agents(&["a", "b", "b"]).summarize_with_config(one);
    assert_eq!(pairs(&summary.agent_hotspots), vec![("b", 2)]);
    let ledger = ledger_of(&[
        &[("tool", "b"), ("model", "n"), ("status", "late")],
        &[("tool", "a"), ("model", "m"), ("status", "early")],
        &[("tool", "b"), ("model", "n"), ("status", "late")],
        &[("tool", "c")],
    ]);
    let summary = ledger.summarize_with_config(one);
    assert_eq!(pairs(&summary.tool_hotspots), vec![("b", 2)]);
    assert_eq!(pairs(&summary.provider_hotspots), vec![("n", 2)]);
    assert_eq!(pairs(&summary.detail_hotspots), vec![("model=n", 2)]);
    let summary = ledger.summarize_with_config(SwarmActivitySummaryConfig::new(2, 1));
    assert_eq!(pairs(&summary.tool_hotspots), vec![("b", 2), ("a", 1)]);
    let summary = ledger.summarize_with_config(SwarmActivitySummaryConfig::new(0, 1));
    assert!(summary.tool_hotspots.is_empty());

    let mut ledger = SwarmActivityLedger::new();
    for (bead, verification) in [("p", "v"), ("q", "w"), (" q ", "w"), ("", " ")] {
        let mut ids = SwarmActivityIds::new("c").with_bead_id(bead);
        ids.verification_id = Some(verification.to_string());
        ledger.append(1, SwarmActivityKind::Note, ids, "s", &[]);
    }
    let summary = ledger.summarize_with_config(one);
    assert_eq!(pairs(&summary.bead_hotspots), vec![("q", 2)]);
    assert_eq!(pairs(&summary.verification_hotspots), vec![("w", 2)]);

    let ledger = ledger_of_agents(&["a", " ", "b", "b"]);
    let counts = tally(ledger.entries(), Dimension::Agent);
    assert_eq!(
        counts,
        SortedMap::from_pairs(&[("a".to_string(), 1), ("b".to_string(), 2)])
    );
    assert!(tally(ledger.entries(), Dimension::Bead).is_empty());
}

#[test]
fn sketches_count_what_they_retain_exactly() {
    let ledger = ledger_of_agents(&["b", "a", "b", "c", "a", "b"]);
    for (capacity, expected) in [
        (0, vec![]),
        (1, vec![("a", 2)]),
        (2, vec![("b", 3), ("a", 2)]),
        (3, vec![("b", 3), ("a", 2), ("c", 1)]),
    ] {
        let mut sketch = SwarmActivitySketch::new(SwarmActivitySummaryConfig::new(capacity, 1));
        sketch.record_entries(ledger.entries());
        assert_eq!(pairs(&sketch.snapshot().agent_hotspots), expected);
    }
}

#[test]
fn sketches_with_room_summarize_as_ledgers_do() {
    let ledger = ledger_of(&[
        &[("tool", "b"), ("model", "n"), ("latency_ms", "4")],
        &[("tool", "a"), ("status", "late"), ("latency_ms", "8")],
        &[("tool", "b"), ("model", "n")],
    ]);
    let config = SwarmActivitySummaryConfig::new(5, 1);
    let mut sketch = SwarmActivitySketch::new(config);
    sketch.record_entries(ledger.entries());
    assert_eq!(sketch.snapshot(), ledger.summarize_with_config(config));
}

#[test]
fn long_keys_are_cut() {
    let long = "é".repeat(241);
    let fits = "é".repeat(240);
    assert_eq!(bounded_hotspot_key(&fits), fits);
    assert_eq!(bounded_hotspot_key(&long), format!("{fits}..."));
    let mut ledger = SwarmActivityLedger::new();
    ledger.append(
        1,
        SwarmActivityKind::Note,
        SwarmActivityIds::new("c").with_agent_name(&format!(" {long} ")),
        "s",
        &[],
    );
    let summary = ledger.summarize();
    assert_eq!(summary.agent_hotspots[0].key, format!("{fits}..."));
}

#[test]
fn top_hot_spots_are_the_hottest() {
    let counts = SortedMap::from_pairs(&[
        ("a".to_string(), 1_u64),
        ("b".to_string(), 5),
        ("c".to_string(), 5),
        ("d".to_string(), 2),
        ("a".to_string(), 3),
    ]);
    assert_eq!(counts.len(), 4);
    assert_eq!(counts.get("a"), Some(&3));
    assert_eq!(pairs(&top_hotspots(&counts, 3)), vec![("b", 5), ("c", 5), ("a", 3)]);
    assert_eq!(top_hotspots(&counts, 9).len(), 4);
    assert!(top_hotspots(&counts, 0).is_empty());
    assert_eq!(counts.clone(), counts);
    assert_eq!(counts.key_at(0), "a");
    assert_eq!(counts.value_at(3), &2);
}

#[test]
fn latencies_are_whole_milliseconds() {
    for (text, expected) in [
        ("12", Some(12)),
        (" 12 ms ", Some(12)),
        ("12ms", Some(12)),
        ("12msms", Some(12)),
        ("12.9", Some(12)),
        ("12.9.9ms", Some(12)),
        ("+7", Some(7)),
        ("007", Some(7)),
        ("18446744073709551615", Some(u64::MAX)),
        ("18446744073709551616", None),
        ("", None),
        ("ms", None),
        (".5", None),
        ("-1", None),
        ("+", None),
        ("++1", None),
        ("1 2", None),
        ("12MS", None),
        ("12 s", None),
        ("١٢", None),
    ] {
        assert_eq!(parse_latency_ms(text), expected, "{text:?}");
    }
}

#[test]
fn latencies_are_summarized() {
    let ledger = ledger_of(&[
        &[("latency_ms", "10"), ("duration_ms", "30ms")],
        &[("ELAPSED_MS", "20.5")],
        &[("latency", "1000"), ("latency_ms", "soon")],
    ]);
    assert_eq!(
        ledger.summarize().latency_ms,
        Some(SwarmActivityLatencySummary {
            sample_count: 3,
            retained_samples: 3,
            min_ms: 10,
            p50_ms: 20,
            p95_ms: 30,
            p99_ms: 30,
            max_ms: 30,
            rank_error_bound: 1,
        })
    );
    let summary = ledger.summarize_with_config(SwarmActivitySummaryConfig::new(4, 0));
    assert_eq!(summary.latency_ms, None);
}

#[test]
fn percentiles_are_exact_within_capacity() {
    let samples: Vec<u64> = (1..=100).rev().collect();
    let summary = latencies(&samples, 100).summary().unwrap();
    assert_eq!(summary.p50_ms, 50);
    assert_eq!(summary.p95_ms, 95);
    assert_eq!(summary.p99_ms, 99);
    assert_eq!(summary.min_ms, 1);
    assert_eq!(summary.max_ms, 100);
    assert_eq!(summary.rank_error_bound, 1);
    let repeated = latencies(&[5, 5, 5, 9], 2);
    assert_eq!(repeated.parts().buckets, SortedMap::from_pairs(&[(5, 3), (9, 1)]));
    assert_eq!(repeated.rank_error_bound(), 2);
    assert_eq!(repeated.summary().unwrap().p50_ms, 5);
    assert_eq!(repeated.summary().unwrap().p95_ms, 9);
}

#[test]
fn the_closest_buckets_are_joined() {
    let sketch = latencies(&[10, 20, 24, 40], 3);
    assert_eq!(
        sketch.parts().buckets,
        SortedMap::from_pairs(&[(10, 1), (22, 2), (40, 1)])
    );
    let sketch = latencies(&[10, 20, 30], 2);
    assert_eq!(sketch.parts().buckets, SortedMap::from_pairs(&[(15, 2), (30, 1)]));
    assert_eq!(sketch.summary().unwrap().min_ms, 15);
    assert_eq!(sketch.summary().unwrap().max_ms, 30);
    let sketch = latencies(&[7, 8], 1);
    assert_eq!(sketch.parts().buckets, SortedMap::from_pairs(&[(7, 2)]));
    assert_eq!(sketch.parts().min_ms, Some(7));
    assert_eq!(sketch.parts().max_ms, Some(8));
    assert_eq!(sketch.summary().unwrap().max_ms, 7);
    let summary = latencies(&[10, 20], 1).summary().unwrap();
    assert_eq!((summary.min_ms, summary.p50_ms, summary.max_ms), (15, 15, 15));
    assert_eq!(latencies(&[1, 2], 0).summary(), None);
    assert_eq!(latencies(&[1, 2], 0).parts().sample_count, 2);
    assert_eq!(latencies(&[], 4).rank_error_bound(), 1);
}

#[test]
fn percentiles_are_off_by_no_more_than_the_bound() {
    let summary = latencies(&[0, 500, 1001, 1002, 1003, 1004], 3).summary().unwrap();
    assert_eq!((summary.p50_ms, summary.p95_ms, summary.p99_ms), (1001, 1001, 1001));
    assert_eq!(summary.rank_error_bound, 3);

    let mut samples = vec![0, 0];
    samples.extend((1..=31).map(|i| 1_000_000 + (i + 1) / 2));
    samples.extend((3..=31).map(|i| 1_001_000 + i / 2));
    samples.extend([1_001_016; 4]);
    assert_eq!(latencies(&samples, 2).rank_error_bound(), 33);

    let mut many = latencies(&[1, 2, 3], 3);
    for _ in 0..60 {
        let other = many.clone();
        many.merge(&other);
    }
    let summary = many.summary().unwrap();
    assert_eq!(summary.sample_count, 3 << 60);
    assert_eq!(summary.p99_ms, 1);
    assert_eq!(summary.rank_error_bound, 2271255364075488543);

    let scattered: Vec<u64> = (0..500_u64).map(|i| (i * i * 7919) % 10007).collect();
    let rising: Vec<u64> = (0..500).collect();
    let bunched: Vec<u64> = (0..500_u64).map(|i| if i < 3 { i * 400 } else { 1000 + i }).collect();
    assert_eq!(latencies(&scattered, 4).rank_error_bound(), 125);
    for samples in [scattered, rising, bunched] {
        for capacity in [1, 2, 3, 7] {
            let summary = latencies(&samples, capacity).summary().unwrap();
            let mut sorted = samples.clone();
            sorted.sort_unstable();
            let count = sorted.len();
            let bound = usize::try_from(summary.rank_error_bound).unwrap();
            for (percentile, value) in [
                (50, summary.p50_ms),
                (95, summary.p95_ms),
                (99, summary.p99_ms),
            ] {
                let rank = (count * percentile).div_ceil(100);
                assert!(sorted[rank.saturating_sub(bound).max(1) - 1] <= value);
                assert!(value <= sorted[(rank + bound).min(count) - 1]);
            }
        }
    }
}

#[test]
fn ranges_are_joined_where_they_hold_the_fewest() {
    let samples: Vec<u64> = (0..17).map(|i| i * 10).collect();
    let parts = latencies(&samples, 1).parts();
    assert_eq!(parts.ranges.counts.len(), 16);
    assert_eq!((parts.ranges.counts.key_at(0), parts.ranges.counts.value_at(0)), (&0, &2));
    assert_eq!((parts.ranges.counts.key_at(1), parts.ranges.counts.value_at(1)), (&20, &1));
    assert_eq!(parts.ranges.highs, SortedMap::from_pairs(&[(0, 10)]));
    assert_eq!(parts.ranges.rank_error(15, 3), 1);
    assert_eq!(parts.ranges.rank_error(5, 2), 1);
    assert_eq!(parts.ranges.rank_error(5, 1), 1);
    assert_eq!(parts.ranges.rank_error(0, 1), 0);
    let mut merged = parts.ranges.clone();
    merged.merge(&parts.ranges, 1);
    assert_eq!((merged.counts.key_at(0), merged.counts.value_at(0)), (&0, &4));
    assert_eq!(merged.highs, parts.ranges.highs);
    let mut ranges = SampleRanges::new();
    ranges.record(3, 1);
    ranges.record(3, 1);
    assert_eq!(ranges.counts, SortedMap::from_pairs(&[(3, 2)]));
    assert!(ranges.highs.is_empty());
    assert_eq!(ranges.rank_error(3, 2), 0);
}

#[test]
fn averages_are_weighted_and_rounded_down() {
    assert_eq!(weighted_average_ms(10, 1, 20, 3), 17);
    assert_eq!(weighted_average_ms(10, 0, 20, 0), 10);
    assert_eq!(weighted_average_ms(u64::MAX, 1, u64::MAX, 1), u64::MAX);
    assert_eq!(weighted_average_ms(0, u64::MAX, 1, u64::MAX), 0);
}

#[test]
fn percentile_buckets_are_found_by_rank() {
    let buckets = SortedMap::from_pairs(&[(1_u64, 2_u64), (5, 2), (9, 1)]);
    assert_eq!(percentile_bucket(&buckets, 5, 0), 1);
    assert_eq!(percentile_bucket(&buckets, 5, 40), 1);
    assert_eq!(percentile_bucket(&buckets, 5, 41), 5);
    assert_eq!(percentile_bucket(&buckets, 5, 80), 5);
    assert_eq!(percentile_bucket(&buckets, 5, 81), 9);
    assert_eq!(percentile_bucket(&buckets, 50, 99), 9);
    let none: SortedMap<u64, u64> = SortedMap::from_pairs(&[]);
    assert_eq!(percentile_bucket(&none, 5, 50), 0);
}

#[test]
fn merging_is_recording_in_what_no_capacity_limits() {
    let first = ledger_of(&[&[("latency_ms", "9")], &[("tool", "a"), ("token", "x")]]);
    let second = ledger_of(&[&[("latency_ms", "3")], &[("tool", "b")], &[("tool", "b")]]);
    let wide = SwarmActivitySummaryConfig::new(8, 8);
    let narrow = SwarmActivitySummaryConfig::new(1, 1);
    let mut merged = SwarmActivitySketch::new(wide);
    merged.record_entries(first.entries());
    let mut other = SwarmActivitySketch::new(narrow);
    other.record_entries(second.entries());
    merged.merge(&other);
    let mut recorded = SwarmActivitySketch::new(wide);
    recorded.record_entries(first.entries());
    recorded.record_entries(second.entries());
    assert_eq!(merged, recorded);
    let summary = merged.snapshot();
    assert_eq!(summary.event_count, 5);
    assert_eq!(summary.redacted_field_count, 1);
    assert_eq!(pairs(&summary.tool_hotspots), vec![("b", 2), ("a", 1)]);

    let mut small = SwarmActivitySketch::new(narrow);
    small.merge(&recorded);
    let summary = small.snapshot();
    assert_eq!(summary.event_count, 5);
    assert_eq!(pairs(&summary.tool_hotspots), vec![("b", 2)]);
    let latency = summary.latency_ms.unwrap();
    assert_eq!(latency.retained_samples, 1);
    assert_eq!((latency.min_ms, latency.p50_ms, latency.max_ms), (6, 6, 6));
    assert_eq!(latency.rank_error_bound, 2);

    let mut none = SwarmActivitySketch::new(SwarmActivitySummaryConfig::new(0, 0));
    none.merge(&recorded);
    assert!(none.snapshot().tool_hotspots.is_empty());
    assert_eq!(none.snapshot().latency_ms, None);
    assert_eq!(none.snapshot().event_count, 5);
}

#[test]
fn merging_commutes_and_nothing_is_neutral() {
    let first = ledger_of(&[&[("latency_ms", "9"), ("tool", "a")], &[("latency_ms", "30")]]);
    let second = ledger_of(&[&[("latency_ms", "3")], &[("tool", "b")], &[("tool", "b")]]);
    for capacity in [0, 1, 2, 8] {
        let config = SwarmActivitySummaryConfig::new(capacity, capacity);
        let mut a = SwarmActivitySketch::new(config);
        a.record_entries(first.entries());
        let mut b = SwarmActivitySketch::new(config);
        b.record_entries(second.entries());
        let (mut ab, mut ba) = (a.clone(), b.clone());
        ab.merge(&b);
        ba.merge(&a);
        assert_eq!(ab, ba);
        ab.merge(&SwarmActivitySketch::default());
        assert_eq!(ab, ba);
        let mut none = SwarmActivitySketch::new(config);
        none.merge(&ba);
        assert_eq!(none, ba);
    }
}

#[test]
fn counters_agree() {
    let ledger = ledger_of(&[
        &[("token", "x"), ("secret", "y"), ("tool", " ")],
        &[("tool", "a"), ("api_key", "z")],
        &[("model", "m")],
    ]);
    let mut sketch = SwarmActivitySketch::new(SwarmActivitySummaryConfig::new(2, 2));
    sketch.record_entries(ledger.entries());
    let other = sketch.clone();
    sketch.merge(&other);
    let summary = sketch.snapshot();
    let kinds: u64 = (0..summary.kind_counts.len())
        .map(|at| *summary.kind_counts.value_at(at))
        .sum();
    assert_eq!((kinds, summary.event_count), (6, 6));
    assert_eq!((summary.redacted_entry_count, summary.redacted_field_count), (4, 6));
    assert_eq!(pairs(&summary.tool_hotspots), vec![("a", 2)]);
}

#[test]
fn sketches_are_kept_in_parts() {
    let ledger = ledger_of(&[&[("latency_ms", "9"), ("tool", "a")], &[("provider", "p")]]);
    let mut sketch = SwarmActivitySketch::default();
    sketch.record_entry(&ledger.entries()[0]);
    sketch.record_entry(&ledger.entries()[1]);
    let parts = sketch.parts();
    assert_eq!(parts.schema, SWARM_ACTIVITY_SUMMARY_SCHEMA);
    assert_eq!(parts.config, SwarmActivitySummaryConfig::default());
    assert_eq!(parts.config.max_hotspots, DEFAULT_SWARM_ACTIVITY_HOTSPOT_CAPACITY);
    assert_eq!(
        parts.config.max_latency_samples,
        DEFAULT_SWARM_ACTIVITY_LATENCY_SAMPLE_CAPACITY
    );
    assert_eq!(parts.tool_counts.get("a"), Some(&1));
    assert_eq!(SwarmActivitySketch::from_parts(parts), sketch);
}

#[test]
fn counts_saturate() {
    let mut parts = SwarmActivitySketch::default().parts();
    parts.event_count = u64::MAX;
    parts.tool_counts = SortedMap::from_pairs(&[("a".to_string(), u64::MAX)]);
    let mut sketch = SwarmActivitySketch::from_parts(parts);
    sketch.record_entries(ledger_of(&[&[("tool", "a")]]).entries());
    let other = sketch.clone();
    sketch.merge(&other);
    let summary = sketch.snapshot();
    assert_eq!(summary.event_count, u64::MAX);
    assert_eq!(pairs(&summary.tool_hotspots), vec![("a", u64::MAX)]);
}

#[test]
fn redacting_twice_is_redacting_once() {
    for (field, value) in [
        ("token", "x"),
        ("note", "sk-1"),
        ("note", "plain"),
        ("summary", "[REDACTED]"),
    ] {
        let mut redaction = SwarmActivityRedaction::default();
        let once = redact_value(field, value, &mut redaction);
        let twice = redact_value(field, &once, &mut SwarmActivityRedaction::default());
        assert_eq!(twice, once);
        let redacts = is_sensitive_field(field) || looks_sensitive(value);
        assert_eq!(once == "[REDACTED]", redacts || value == "[REDACTED]");
        assert_eq!(redaction.redacted_count, usize::from(redacts));
        assert_eq!(redaction.clone(), redaction);
    }
}

#[test]
fn identifiers_are_attached_one_by_one() {
    let ids = SwarmActivityIds::new("c")
        .with_bead_id("b")
        .with_mail_thread_id("t")
        .with_agent_name("a")
        .with_rch_job_id("j")
        .with_git_sha("g");
    assert_eq!(ids.correlation_id, "c");
    assert_eq!(ids.bead_id.as_deref(), Some("b"));
    assert_eq!(ids.mail_thread_id.as_deref(), Some("t"));
    assert_eq!(ids.mail_message_id, None);
    assert_eq!(ids.agent_name.as_deref(), Some("a"));
    assert_eq!(ids.file_reservation_id, None);
    assert_eq!(ids.rch_job_id.as_deref(), Some("j"));
    assert_eq!(ids.verification_id, None);
    assert_eq!(ids.git_sha.as_deref(), Some("g"));
    assert_eq!(ids.clone(), ids);
    assert_eq!(SwarmActivityIds::default(), SwarmActivityIds::new(""));
}
