use swarm_activity_ledger::{
    entries_from_jsonl, timeline_from_jsonl, SwarmActivityIds, SwarmActivityKind,
    SwarmActivityLedger, SwarmActivityLedgerError, SwarmActivitySketch,
    SwarmActivitySummaryConfig, SWARM_ACTIVITY_LEDGER_SCHEMA, SWARM_ACTIVITY_SUMMARY_SCHEMA,
};

#[test]
fn exports_versioned_jsonl_with_correlation_ids() {
    let mut ledger = SwarmActivityLedger::new();
    let sequence = ledger.append(
        1_000,
        SwarmActivityKind::BeadStatus,
        SwarmActivityIds::new("corr-1")
            .with_bead_id("bd-123")
            .with_agent_name("CopperOx"),
        "claimed bd-123",
        &[("status", "in_progress")],
    );

    assert_eq!(sequence, 0);
    let jsonl = ledger.to_jsonl().expect("ledger should serialize");
    let entries = entries_from_jsonl(&jsonl).expect("ledger should parse");

    assert_eq!(entries.len(), 1);
    assert_eq!(entries[0].schema, SWARM_ACTIVITY_LEDGER_SCHEMA);
    assert_eq!(entries[0].ids.correlation_id, "corr-1");
    assert_eq!(
        entries[0].details().get("status").map(String::as_str),
        Some("in_progress")
    );
}

#[test]
fn timeline_reorders_out_of_order_jsonl_deterministically() {
    let mut ledger = SwarmActivityLedger::new();
    ledger.append(
        2_000,
        SwarmActivityKind::Verification,
        SwarmActivityIds::new("corr-late").with_rch_job_id("298"),
        "verification finished",
        &[("command", "cargo check --all-targets")],
    );
    ledger.append(
        1_000,
        SwarmActivityKind::AgentMail,
        SwarmActivityIds::new("corr-early").with_mail_thread_id("bd-123"),
        "start message sent",
        &[("subject", "[bd-123] start")],
    );
    let lines = ledger
        .to_jsonl()
        .expect("ledger should serialize")
        .lines()
        .map(str::to_owned)
        .collect::<Vec<_>>();
    let reversed = format!("{}\n{}", lines[1], lines[0]);

    let timeline = timeline_from_jsonl(&reversed).expect("timeline should parse");

    assert_eq!(timeline[0].correlation_id, "corr-early");
    assert_eq!(timeline[1].correlation_id, "corr-late");
}

#[test]
fn missing_optional_fields_still_parse() {
    let raw = format!(
        "{{\"schema\":\"{SWARM_ACTIVITY_LEDGER_SCHEMA}\",\"sequence\":7,\"timestamp_ms\":42,\"kind\":\"note\",\"summary\":\"ok\",\"ids\":{{\"correlation_id\":\"corr-min\"}}}}"
    );

    let entries = entries_from_jsonl(&raw).expect("minimal entry should parse");

    assert_eq!(entries[0].ids.correlation_id, "corr-min");
    assert!(entries[0].ids.bead_id.is_none());
    assert!(entries[0].details().is_empty());
}

#[test]
fn redacts_prompt_bodies_and_secret_values_by_default() {
    let mut ledger = SwarmActivityLedger::new();
    ledger.append(
        1_000,
        SwarmActivityKind::Recovery,
        SwarmActivityIds::new("corr-redact").with_agent_name("CopperOx"),
        "operator used bearer token",
        &[
            ("prompt_body", "please inspect this private prompt"),
            ("api_key", "sk-test-secret"),
            ("safe_status", "recovered"),
        ],
    );

    let entry = &ledger.entries()[0];

    assert_eq!(entry.summary, "[REDACTED]");
    assert_eq!(
        entry.details().get("prompt_body").map(String::as_str),
        Some("[REDACTED]")
    );
    assert_eq!(
        entry.details().get("api_key").map(String::as_str),
        Some("[REDACTED]")
    );
    assert_eq!(
        entry.details().get("safe_status").map(String::as_str),
        Some("recovered")
    );
    assert_eq!(entry.redaction.redacted_count, 3);
    assert!(entry
        .redaction
        .redacted_fields
        .contains(&"summary".to_string()));
    assert!(entry
        .redaction
        .redacted_fields
        .contains(&"prompt_body".to_string()));
    assert!(entry
        .redaction
        .redacted_fields
        .contains(&"api_key".to_string()));
}

#[test]
fn summary_tracks_hotspots_with_fixed_capacity_without_losing_raw_entries() {
    let mut ledger = SwarmActivityLedger::new();
    for index in 0_u64..20 {
        let agent_name = if index < 8 {
            "agent-hot".to_string()
        } else {
            format!("agent-{index}")
        };
        let tool = format!("tool-{}", index % 5);
        let provider = if index % 2 == 0 { "openai" } else { "anthropic" };
        let latency_ms = (index + 1).to_string();
        ledger.append(
            10_000 + index,
            SwarmActivityKind::Verification,
            SwarmActivityIds::new(&format!("corr-{index}"))
                .with_agent_name(&agent_name)
                .with_bead_id(&format!("bd-{index:02}")),
            &format!("verification event {index}"),
            &[
                ("tool", tool.as_str()),
                ("provider", provider),
                ("latency_ms", latency_ms.as_str()),
            ],
        );
    }

    let summary = ledger.summarize_with_config(SwarmActivitySummaryConfig::new(3, 5));

    assert_eq!(ledger.len(), 20);
    assert_eq!(summary.schema, SWARM_ACTIVITY_SUMMARY_SCHEMA);
    assert_eq!(summary.event_count, 20);
    assert_eq!(summary.agent_hotspots.len(), 3);
    assert_eq!(summary.bead_hotspots.len(), 3);
    assert_eq!(summary.tool_hotspots.len(), 3);
    assert_eq!(summary.detail_hotspots.len(), 3);
    assert_eq!(summary.agent_hotspots[0].key, "agent-hot");
    assert_eq!(summary.agent_hotspots[0].count, 8);
    assert_eq!(summary.provider_hotspots.len(), 2);
    assert!(summary
        .provider_hotspots
        .iter()
        .all(|hotspot| hotspot.count == 10));
    let latency = summary
        .latency_ms
        .expect("latency sketch should be present");
    assert_eq!(latency.sample_count, 20);
    assert_eq!(latency.retained_samples, 5);
    assert_eq!(latency.rank_error_bound, 4);
}

#[test]
fn sketches_merge_counts_and_latency_samples_across_runs() {
    let mut left_ledger = SwarmActivityLedger::new();
    left_ledger.append(
        1_000,
        SwarmActivityKind::Verification,
        SwarmActivityIds::new("left-1")
            .with_agent_name("alpha")
            .with_bead_id("bd-left"),
        "left verification 1",
        &[("tool", "read"), ("provider", "openai"), ("latency_ms", "10")],
    );
    left_ledger.append(
        1_001,
        SwarmActivityKind::Verification,
        SwarmActivityIds::new("left-2")
            .with_agent_name("alpha")
            .with_bead_id("bd-left"),
        "left verification 2",
        &[("tool", "read"), ("provider", "openai"), ("latency_ms", "20")],
    );

    let mut right_ledger = SwarmActivityLedger::new();
    right_ledger.append(
        2_000,
        SwarmActivityKind::AgentMail,
        SwarmActivityIds::new("right-1")
            .with_agent_name("alpha")
            .with_bead_id("bd-right"),
        "mail sent",
        &[
            ("tool", "send_message"),
            ("provider", "agent-mail"),
            ("latency_ms", "30"),
        ],
    );
    right_ledger.append(
        2_001,
        SwarmActivityKind::Verification,
        SwarmActivityIds::new("right-2")
            .with_agent_name("beta")
            .with_bead_id("bd-right"),
        "right verification",
        &[("tool", "read"), ("provider", "openai"), ("latency_ms", "40")],
    );

    let config = SwarmActivitySummaryConfig::new(2, 3);
    let mut left = SwarmActivitySketch::new(config);
    left.record_entries(left_ledger.entries());
    let mut right = SwarmActivitySketch::new(config);
    right.record_entries(right_ledger.entries());

    left.merge(&right);
    let summary = left.snapshot();

    assert_eq!(summary.event_count, 4);
    assert_eq!(
        summary.kind_counts.get(&SwarmActivityKind::Verification),
        Some(&3)
    );
    assert_eq!(
        summary.kind_counts.get(&SwarmActivityKind::AgentMail),
        Some(&1)
    );
    assert_eq!(summary.agent_hotspots[0].key, "alpha");
    assert_eq!(summary.agent_hotspots[0].count, 3);
    assert_eq!(summary.tool_hotspots[0].key, "read");
    assert_eq!(summary.tool_hotspots[0].count, 3);
    let latency = summary.latency_ms.expect("merged latency should summarize");
    assert_eq!(latency.sample_count, 4);
    assert_eq!(latency.retained_samples, 3);
    assert_eq!(latency.rank_error_bound, 2);
}

#[test]
fn latency_quantiles_report_rank_error_bound_after_downsampling() {
    let mut ledger = SwarmActivityLedger::new();
    for latency_ms in 1_u64..=100 {
        let value = latency_ms.to_string();
        ledger.append(
            latency_ms,
            SwarmActivityKind::Verification,
            SwarmActivityIds::new(&format!("latency-{latency_ms}")),
            "latency sample",
            &[("latency_ms", value.as_str())],
        );
    }

    let summary = ledger.summarize_with_config(SwarmActivitySummaryConfig::new(4, 10));
    let latency = summary.latency_ms.expect("latency summary should exist");

    assert_eq!(latency.sample_count, 100);
    assert_eq!(latency.retained_samples, 10);
    assert_eq!(latency.rank_error_bound, 10);
    assert_rank_within_bound(latency.p50_ms, 50, latency.rank_error_bound);
    assert_rank_within_bound(latency.p95_ms, 95, latency.rank_error_bound);
    assert_rank_within_bound(latency.p99_ms, 99, latency.rank_error_bound);
}

#[test]
fn rejects_missing_correlation_id() {
    let raw = format!(
        "{{\"schema\":\"{SWARM_ACTIVITY_LEDGER_SCHEMA}\",\"sequence\":0,\"timestamp_ms\":1,\"kind\":\"note\",\"summary\":\"ok\",\"ids\":{{\"correlation_id\":\"\"}}}}"
    );

    let error = entries_from_jsonl(&raw).expect_err("empty correlation ID should fail");

    assert!(matches!(
        error,
        SwarmActivityLedgerError::MissingCorrelationId { line: 1 }
    ));
}

fn assert_rank_within_bound(sample: u64, expected_rank: u64, rank_error_bound: u64) {
    let lower_bound = expected_rank.saturating_sub(rank_error_bound);
    let upper_bound = expected_rank.saturating_add(rank_error_bound);
    assert!(
        (lower_bound..=upper_bound).contains(&sample),
        "sample {sample} should be within {rank_error_bound} ranks of {expected_rank}"
    );
}
