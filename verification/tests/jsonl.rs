use swarm_activity_ledger::json::Json;
use swarm_activity_ledger::json_text::{parse_json, write_json};
use swarm_activity_ledger::jsonl::{admit_entry, read_row};
use swarm_activity_ledger::row::{
    entry_from_json, entry_to_json, kind_by_name, name_of_kind, ROW_DEPTH,
};
use swarm_activity_ledger::timeline::timeline_from_entries;
use swarm_activity_ledger::{
    entries_from_jsonl, entries_to_jsonl, timeline_from_jsonl, RowFault, SwarmActivityIds,
    SwarmActivityKind, SwarmActivityLedger, SwarmActivityLedgerEntry, SwarmActivityLedgerError,
    SwarmActivityTimelineEvent, SWARM_ACTIVITY_LEDGER_SCHEMA,
};

const KINDS: [SwarmActivityKind; 8] = [
    SwarmActivityKind::BeadStatus,
    SwarmActivityKind::AgentMail,
    SwarmActivityKind::FileReservation,
    SwarmActivityKind::RchJob,
    SwarmActivityKind::Verification,
    SwarmActivityKind::GitCommit,
    SwarmActivityKind::Recovery,
    SwarmActivityKind::Note,
];

fn row_with(fields: &str) -> String {
    format!(
        "{{\"schema\":\"{SWARM_ACTIVITY_LEDGER_SCHEMA}\",\"sequence\":7,\"timestamp_ms\":42,\"kind\":\"note\",\"summary\":\"ok\",\"ids\":{{\"correlation_id\":\"c\"}}{fields}}}"
    )
}

fn read_one(row: &str) -> SwarmActivityLedgerEntry {
    let mut entries = entries_from_jsonl(row).expect("row should be read");
    assert_eq!(entries.len(), 1);
    entries.remove(0)
}

fn fails_to_parse(row: &str) -> bool {
    matches!(
        entries_from_jsonl(row),
        Err(SwarmActivityLedgerError::Parse { line: 1, .. })
    )
}

fn full_ids() -> SwarmActivityIds {
    let mut ids = SwarmActivityIds::new("corr")
        .with_bead_id("bd")
        .with_mail_thread_id("thread")
        .with_agent_name("agent")
        .with_rch_job_id("job")
        .with_git_sha("sha");
    ids.mail_message_id = Some(u64::MAX);
    ids.file_reservation_id = Some(0);
    ids.verification_id = Some("check".to_string());
    ids
}

#[test]
fn an_entry_is_written_in_the_order_of_its_fields() {
    let mut ledger = SwarmActivityLedger::new();
    ledger.append(
        1_000,
        SwarmActivityKind::BeadStatus,
        SwarmActivityIds::new("corr-1")
            .with_agent_name("CopperOx")
            .with_bead_id("bd-123"),
        "claimed bd-123",
        &[("status", "in_progress"), ("area", "core")],
    );
    assert_eq!(
        ledger.to_jsonl().unwrap(),
        "{\"schema\":\"pi.swarm.activity_ledger.v1\",\"sequence\":0,\"timestamp_ms\":1000,\
         \"kind\":\"bead_status\",\"summary\":\"claimed bd-123\",\
         \"ids\":{\"correlation_id\":\"corr-1\",\"bead_id\":\"bd-123\",\"agent_name\":\"CopperOx\"},\
         \"details\":{\"area\":\"core\",\"status\":\"in_progress\"},\
         \"redaction\":{\"redacted_count\":0}}"
    );
}

#[test]
fn redactions_and_all_identifiers_are_written() {
    let mut ledger = SwarmActivityLedger::new();
    ledger.append(5, SwarmActivityKind::Note, full_ids(), "token=1", &[]);
    assert_eq!(
        ledger.to_jsonl().unwrap(),
        "{\"schema\":\"pi.swarm.activity_ledger.v1\",\"sequence\":0,\"timestamp_ms\":5,\
         \"kind\":\"note\",\"summary\":\"[REDACTED]\",\
         \"ids\":{\"correlation_id\":\"corr\",\"bead_id\":\"bd\",\"mail_thread_id\":\"thread\",\
         \"mail_message_id\":18446744073709551615,\"agent_name\":\"agent\",\
         \"file_reservation_id\":0,\"rch_job_id\":\"job\",\"verification_id\":\"check\",\
         \"git_sha\":\"sha\"},\
         \"redaction\":{\"redacted_count\":1,\"redacted_fields\":[\"summary\"]}}"
    );
}

#[test]
fn what_was_written_is_read_back() {
    let mut ledger = SwarmActivityLedger::new();
    for (place, kind) in KINDS.iter().enumerate() {
        let timestamp_ms = 100 - place as u64;
        ledger.append(
            timestamp_ms,
            *kind,
            full_ids(),
            "line one\nline two\r\n\"quoted\" back\\slash \u{1} \u{7f} \u{2028} é 日本 🦀",
            &[("name\t", "tab\tvalue"), ("", ""), ("secret", "x")],
        );
    }
    let jsonl = ledger.to_jsonl().unwrap();
    assert_eq!(jsonl.lines().count(), 8);
    let entries = entries_from_jsonl(&jsonl).unwrap();
    assert_eq!(entries.as_slice(), ledger.entries());
    assert_eq!(entries_to_jsonl(&entries).unwrap(), jsonl);
}

#[test]
fn every_line_is_json() {
    let mut ledger = SwarmActivityLedger::new();
    ledger.append(
        1,
        SwarmActivityKind::GitCommit,
        full_ids(),
        "a \"b\"\n\u{8}",
        &[("key", "v"), ("page", "v\u{c}")],
    );
    let jsonl = ledger.to_jsonl().unwrap();
    let value: serde_json::Value = serde_json::from_str(&jsonl).unwrap();
    assert_eq!(value["summary"], "a \"b\"\n\u{8}");
    assert_eq!(value["ids"]["mail_message_id"], u64::MAX);
    assert_eq!(value["details"]["key"], "[REDACTED]");
    assert_eq!(value["details"]["page"], "v\u{c}");
    assert_eq!(value["redaction"]["redacted_fields"][0], "key");
    assert_eq!(value["kind"], "git_commit");
    assert_eq!(serde_json::to_string("a \"b\"\n\u{8}").unwrap(), "\"a \\\"b\\\"\\n\\b\"");
    assert!(jsonl.contains("\"a \\\"b\\\"\\n\\b\""));
}

#[test]
fn nothing_is_written_of_no_entries() {
    assert_eq!(SwarmActivityLedger::new().to_jsonl().unwrap(), "");
    assert!(entries_from_jsonl("").unwrap().is_empty());
    assert!(entries_from_jsonl("\n \r\n\u{3000}\n").unwrap().is_empty());
}

#[test]
fn space_between_the_parts_of_a_row_is_passed_over() {
    let row = " \t{ \"ids\" : { \"correlation_id\" : \"c\" , \"bead_id\" : null } , \"kind\" : \"rch_job\" , \
               \"timestamp_ms\" : 2 , \"sequence\" : 1 , \"summary\" : \"\\u0041\\ud83e\\udd80\" , \
               \"redaction\" : { \"redacted_fields\" : [ \"a\" , \"b\" ] , \"redacted_count\" : 2 } , \
               \"details\" : { } , \"schema\" : \"pi.swarm.activity_ledger.v1\" } \r\n";
    let entry = read_one(row);
    assert_eq!(entry.summary, "A🦀");
    assert_eq!(entry.kind, SwarmActivityKind::RchJob);
    assert_eq!(entry.sequence, 1);
    assert_eq!(entry.timestamp_ms, 2);
    assert_eq!(entry.redaction.redacted_count, 2);
    assert_eq!(entry.redaction.redacted_fields, vec!["a", "b"]);
    assert!(entry.details().is_empty());
}

#[test]
fn missing_fields_take_their_defaults() {
    let entry = read_one(&row_with(""));
    assert_eq!(entry.redaction.redacted_count, 0);
    assert!(entry.redaction.redacted_fields.is_empty());
    assert_eq!(entry.ids, SwarmActivityIds::new("c"));
    let entry = read_one(&row_with(",\"redaction\":{\"redacted_count\":4}"));
    assert_eq!(entry.redaction.redacted_count, 4);
}

#[test]
fn required_fields_are_required() {
    for name in ["schema", "sequence", "timestamp_ms", "kind", "summary"] {
        let row = row_with("").replace(&format!("\"{name}\":"), "\"renamed\":");
        assert!(fails_to_parse(&row), "{name}");
    }
    assert!(fails_to_parse(&row_with(",\"redaction\":{}")));
}

#[test]
fn missing_ids_have_no_correlation_id() {
    for row in [
        row_with("").replace("\"ids\"", "\"renamed\""),
        row_with("").replace("correlation_id", "renamed"),
        row_with("").replace("\"correlation_id\":\"c\"", ""),
    ] {
        assert!(
            matches!(
                entries_from_jsonl(&row),
                Err(SwarmActivityLedgerError::MissingCorrelationId { line: 1 })
            ),
            "{row}"
        );
        assert_eq!(read_row(&row).unwrap().ids, SwarmActivityIds::default());
    }
    for id in ["null", "1", "[]"] {
        let row = row_with("").replace("\"c\"", id);
        assert!(fails_to_parse(&row), "{row}");
    }
}

#[test]
fn unknown_fields_are_passed_over() {
    let deep = format!("{}{}", "[".repeat(500), "]".repeat(500));
    let row = row_with(&format!(
        ",\"x\":{deep},\"x\":1.5e300,\"y\":{{\"z\":[true,false,null,-1,\"\\ud800\"]}},\"y\":\"\""
    ));
    assert_eq!(read_one(&row).summary, "ok");
}

#[test]
fn repeated_fields_are_rejected() {
    assert!(fails_to_parse(&row_with(",\"summary\":\"again\"")));
    assert!(fails_to_parse(&row_with(
        ",\"redaction\":{\"redacted_count\":1,\"redacted_count\":1}"
    )));
    let row = row_with("").replace(
        "\"correlation_id\":\"c\"",
        "\"correlation_id\":\"c\",\"bead_id\":null,\"bead_id\":null",
    );
    assert!(fails_to_parse(&row));
}

#[test]
fn of_repeated_details_the_last_holds() {
    let entry = read_one(&row_with(
        ",\"details\":{\"b\":\"1\",\"a\":\"2\",\"b\":\"3\"}",
    ));
    assert_eq!(entry.details().len(), 2);
    assert_eq!(entry.details().get("b").map(String::as_str), Some("3"));
    assert_eq!(entry.details().get("a").map(String::as_str), Some("2"));
    assert_eq!(entry.details().get("c"), None);
}

#[test]
fn records_may_be_arrays() {
    let entry = read_one(
        "[\"pi.swarm.activity_ledger.v1\",3,4,\"recovery\",\"s\",[\"c\",\"bd\",null,9],{\"k\":\"v\"},[2,[\"f\",\"g\"]]]",
    );
    assert_eq!(entry.sequence, 3);
    assert_eq!(entry.timestamp_ms, 4);
    assert_eq!(entry.kind, SwarmActivityKind::Recovery);
    assert_eq!(entry.ids.correlation_id, "c");
    assert_eq!(entry.ids.bead_id.as_deref(), Some("bd"));
    assert_eq!(entry.ids.mail_thread_id, None);
    assert_eq!(entry.ids.mail_message_id, Some(9));
    assert_eq!(entry.ids.git_sha, None);
    assert_eq!(entry.redaction.redacted_count, 2);
    assert_eq!(entry.redaction.redacted_fields, vec!["f", "g"]);

    let entry = read_one("[\"pi.swarm.activity_ledger.v1\",3,4,\"recovery\",\"s\",[\"c\"]]");
    assert!(entry.details().is_empty());
    assert!(fails_to_parse("[\"pi.swarm.activity_ledger.v1\",3,4,\"recovery\"]"));
    assert!(fails_to_parse(
        "[\"pi.swarm.activity_ledger.v1\",3,4,\"recovery\",\"s\",[\"c\"],{},[0],1]"
    ));
}

#[test]
fn kinds_have_names() {
    let names = [
        "bead_status",
        "agent_mail",
        "file_reservation",
        "rch_job",
        "verification",
        "git_commit",
        "recovery",
        "note",
    ];
    for (place, kind) in KINDS.iter().enumerate() {
        assert_eq!(name_of_kind(*kind), names[place]);
        assert_eq!(kind_by_name(names[place]), Some(*kind));
        assert_eq!(kind.index() as usize, place);
    }
    assert_eq!(kind_by_name("Note"), None);
    let row = row_with("").replace("\"note\"", "{\"verification\":null}");
    assert_eq!(read_one(&row).kind, SwarmActivityKind::Verification);
    for wrong in [
        "\"Note\"",
        "7",
        "null",
        "{}",
        "{\"note\":1}",
        "{\"note\":null,\"note\":null}",
        "[\"note\"]",
    ] {
        assert!(fails_to_parse(&row_with("").replace("\"note\"", wrong)), "{wrong}");
    }
}

#[test]
fn numbers_are_whole_and_fit() {
    for right in ["0", "42", "18446744073709551615"] {
        let row = row_with("").replace("\"sequence\":7", &format!("\"sequence\":{right}"));
        assert_eq!(read_one(&row).sequence.to_string(), right);
    }
    for wrong in [
        "18446744073709551616",
        "-1",
        "-0",
        "1.0",
        "1e3",
        "007",
        "+7",
        "\"7\"",
        "null",
        "[7]",
        "true",
        "",
    ] {
        let row = row_with("").replace("\"sequence\":7", &format!("\"sequence\":{wrong}"));
        assert!(fails_to_parse(&row), "{wrong}");
    }
}

#[test]
fn values_of_another_type_are_rejected() {
    for fields in [
        ",\"details\":[]",
        ",\"details\":null",
        ",\"details\":{\"a\":1}",
        ",\"details\":{\"a\":null}",
        ",\"redaction\":null",
        ",\"redaction\":{\"redacted_count\":1,\"redacted_fields\":null}",
        ",\"redaction\":{\"redacted_count\":1,\"redacted_fields\":[1]}",
        ",\"redaction\":7",
    ] {
        assert!(fails_to_parse(&row_with(fields)), "{fields}");
    }
    for ids in [
        "null",
        "\"c\"",
        "{\"correlation_id\":null}",
        "{\"correlation_id\":\"c\",\"bead_id\":1}",
        "{\"correlation_id\":\"c\",\"mail_message_id\":\"1\"}",
    ] {
        let row = row_with("").replace("{\"correlation_id\":\"c\"}", ids);
        assert!(fails_to_parse(&row), "{ids}");
    }
}

#[test]
fn malformed_rows_are_rejected() {
    let whole = row_with("");
    for row in [
        "{".to_string(),
        "nonsense".to_string(),
        "null".to_string(),
        "1 2".to_string(),
        "{}".to_string(),
        "[]".to_string(),
        format!("{whole}x"),
        format!("{whole}{whole}"),
        format!("{whole},"),
        format!("\u{feff}{whole}"),
        whole.replace("\"ok\"", "\"\\ud800\""),
        whole.replace("\"ok\"", "\"\u{1}\""),
        whole.replace("\"kind\"", "\"\\ud800\":1,\"kind\""),
        row_with(","),
        row_with(",\"x\":01"),
        row_with(",\"x\":tru"),
        row_with(",x:1"),
    ] {
        assert!(fails_to_parse(&row), "{row}");
    }
}

#[test]
fn faults_name_the_line_of_the_first() {
    let good = row_with("");
    let bad = good.replace(SWARM_ACTIVITY_LEDGER_SCHEMA, "other.v2");
    let input = format!("{good}\n\n{good}\r\n{bad}\nnonsense\n");
    match entries_from_jsonl(&input) {
        Err(SwarmActivityLedgerError::UnsupportedSchema { line, schema }) => {
            assert_eq!(line, 4);
            assert_eq!(schema, "other.v2");
        }
        other => panic!("{other:?}"),
    }
    match timeline_from_jsonl(&format!("\n{good}\nnonsense\n{bad}")) {
        Err(SwarmActivityLedgerError::Parse {
            line,
            source: RowFault::NotJson(error),
        }) => {
            assert_eq!(line, 3);
            assert!(error.is_syntax());
        }
        other => panic!("{other:?}"),
    }
    let blank = good.replace("\"c\"", "\" \\t\\u3000\"");
    assert!(matches!(
        entries_from_jsonl(&format!("{good}\n{blank}\n{bad}")),
        Err(SwarmActivityLedgerError::MissingCorrelationId { line: 2 })
    ));
    let both = bad.replace("\"c\"", "\"\"");
    assert!(matches!(
        entries_from_jsonl(&both),
        Err(SwarmActivityLedgerError::UnsupportedSchema { line: 1, .. })
    ));
}

#[test]
fn errors_have_messages() {
    let error = entries_from_jsonl("\n{").unwrap_err();
    match &error {
        SwarmActivityLedgerError::Parse {
            line: 2,
            source: RowFault::NotJson(source),
        } => {
            assert_eq!(source.to_string(), "EOF while parsing an object at line 1 column 1");
            assert_eq!(
                error.message(&source.to_string()),
                "failed to parse swarm activity ledger line 2: EOF while parsing an object at line 1 column 1"
            );
        }
        other => panic!("{other:?}"),
    }
    assert!(matches!(
        entries_from_jsonl("{}"),
        Err(SwarmActivityLedgerError::Parse {
            line: 1,
            source: RowFault::NotAnEntry
        })
    ));
    let error = entries_from_jsonl(&row_with("").replace("ledger.v1", "ledger.v9")).unwrap_err();
    assert_eq!(
        error.message(""),
        "unsupported swarm activity ledger schema on line 1: pi.swarm.activity_ledger.v9"
    );
    let error = entries_from_jsonl(&row_with("").replace("\"c\"", "\"\"")).unwrap_err();
    assert_eq!(
        error.message(""),
        "missing correlation_id on swarm activity ledger line 1"
    );
}

#[test]
fn strings_are_escaped() {
    for (text, expected) in [
        ("", "\"\""),
        ("a/\u{7f}\u{e9}\u{1f600}", "\"a/\u{7f}\u{e9}\u{1f600}\""),
        ("q\"b\\", "\"q\\\"b\\\\\""),
        ("\u{8}\t\n\u{c}\r", "\"\\b\\t\\n\\f\\r\""),
        ("\u{0}\u{b}\u{1f}", "\"\\u0000\\u000b\\u001f\""),
    ] {
        let mut out = String::new();
        write_json(&mut out, &Json::Text(text.to_string())).unwrap();
        assert_eq!(out, expected);
        assert_eq!(parse_json(&out, 0), Json::Text(text.to_string()));
    }
}

#[test]
fn entries_are_admitted_one_by_one() {
    let entry = read_row(&row_with("")).unwrap();
    assert!(entry.has_current_schema());
    assert_eq!(admit_entry(9, entry.clone()).unwrap(), entry);
    let mut other = entry.clone();
    other.schema.push('x');
    assert!(!other.has_current_schema());
    assert!(matches!(
        admit_entry(9, other),
        Err(SwarmActivityLedgerError::UnsupportedSchema { line: 9, .. })
    ));
    let mut blank = entry;
    blank.ids.correlation_id = "\n".to_string();
    assert!(matches!(
        admit_entry(9, blank),
        Err(SwarmActivityLedgerError::MissingCorrelationId { line: 9 })
    ));
}

#[test]
fn entries_and_json_values_stand_for_each_other() {
    let mut ledger = SwarmActivityLedger::new();
    ledger.append(
        5,
        SwarmActivityKind::Note,
        SwarmActivityIds::new("c"),
        "s",
        &[("a", "b")],
    );
    let entry = &ledger.entries()[0];
    let json = entry_to_json(entry);
    assert_eq!(
        json,
        Json::Object(vec![
            (
                "schema".to_string(),
                Json::Text("pi.swarm.activity_ledger.v1".to_string())
            ),
            ("sequence".to_string(), Json::Number(0)),
            ("timestamp_ms".to_string(), Json::Number(5)),
            ("kind".to_string(), Json::Text("note".to_string())),
            ("summary".to_string(), Json::Text("s".to_string())),
            (
                "ids".to_string(),
                Json::Object(vec![(
                    "correlation_id".to_string(),
                    Json::Text("c".to_string())
                )])
            ),
            (
                "details".to_string(),
                Json::Object(vec![("a".to_string(), Json::Text("b".to_string()))])
            ),
            (
                "redaction".to_string(),
                Json::Object(vec![("redacted_count".to_string(), Json::Number(0))])
            ),
        ])
    );
    assert_eq!(entry_from_json(&json).as_ref(), Some(entry));
    assert_eq!(entry_from_json(&Json::Null), None);
    assert_eq!(entry_from_json(&Json::Other), None);
}

#[test]
fn json_values_are_understood_to_a_depth() {
    let text = "{\"a\":[1,\"x\",null,true,{\"b\":[2]}],\"a\":18446744073709551616}";
    assert_eq!(
        parse_json(text, ROW_DEPTH),
        Json::Object(vec![
            (
                "a".to_string(),
                Json::List(vec![
                    Json::Number(1),
                    Json::Text("x".to_string()),
                    Json::Null,
                    Json::Other,
                    Json::Object(vec![("b".to_string(), Json::Other)]),
                ])
            ),
            ("a".to_string(), Json::Other),
        ])
    );
    assert_eq!(parse_json(text, 0), Json::Other);
    assert_eq!(parse_json("[]", 1), Json::List(Vec::new()));
    assert_eq!(parse_json("{ }", 1), Json::Object(Vec::new()));
    assert_eq!(parse_json("[ 1 , 2 ]", 1), Json::List(vec![Json::Number(1), Json::Number(2)]));
    assert_eq!(parse_json("\"\\n\"", 0), Json::Text("\n".to_string()));
    assert_eq!(parse_json("-1", 0), Json::Other);
    assert_eq!(parse_json("", 3), Json::Other);
}

#[test]
fn json_values_are_written_without_space() {
    let value = Json::Object(vec![
        ("q\"".to_string(), Json::List(Vec::new())),
        (
            "n".to_string(),
            Json::List(vec![Json::Number(10), Json::Null, Json::Text("\t".to_string())]),
        ),
        ("o".to_string(), Json::Object(Vec::new())),
    ]);
    let mut out = "> ".to_string();
    write_json(&mut out, &value).unwrap();
    assert_eq!(out, "> {\"q\\\"\":[],\"n\":[10,null,\"\\t\"],\"o\":{}}");
    assert_eq!(parse_json(&out[2..], 2), value);
}

fn event(timestamp_ms: u64, sequence: u64, id: &str, summary: &str) -> SwarmActivityLedgerEntry {
    let mut entry = read_one(&row_with(""));
    entry.timestamp_ms = timestamp_ms;
    entry.sequence = sequence;
    entry.ids.correlation_id = id.to_string();
    entry.summary = summary.to_string();
    entry
}

fn summaries(events: &[SwarmActivityTimelineEvent]) -> Vec<&str> {
    events.iter().map(|event| event.summary.as_str()).collect()
}

#[test]
fn a_timeline_ascends_and_ignores_the_order_of_rows() {
    let entries = vec![
        event(9, 0, "a", "last"),
        event(1, 5, "b", "third"),
        event(1, 5, "a", "second"),
        event(1, 4, "z", "first"),
        event(1, 5, "ba", "fourth"),
    ];
    let expected = vec!["first", "second", "third", "fourth", "last"];
    let jsonl = entries_to_jsonl(&entries).unwrap();
    let timeline = timeline_from_jsonl(&jsonl).unwrap();
    assert_eq!(summaries(&timeline), expected);
    assert_eq!(timeline[4].timestamp_ms, 9);
    assert_eq!(timeline[1].sequence, 5);
    assert_eq!(timeline[0].correlation_id, "z");
    assert_eq!(timeline[0].kind, SwarmActivityKind::Note);

    let mut rows: Vec<&str> = jsonl.lines().collect();
    for _ in 0..rows.len() {
        rows.rotate_left(1);
        assert_eq!(timeline_from_jsonl(&rows.join("\n")).unwrap(), timeline);
    }
    rows.reverse();
    assert_eq!(timeline_from_jsonl(&rows.join("\r\n")).unwrap(), timeline);
    assert_eq!(timeline_from_entries(&entries), timeline);
}

#[test]
fn entries_that_agree_go_by_kind_and_summary() {
    let mut commit = event(1, 1, "a", "four");
    commit.kind = SwarmActivityKind::GitCommit;
    let mut entries = vec![
        event(1, 1, "a", "one"),
        commit,
        event(0, 1, "a", "zero"),
        event(1, 1, "a", "two"),
        event(1, 1, "a", "three"),
        event(1, 1, "a", "one"),
    ];
    let timeline = timeline_from_entries(&entries);
    assert_eq!(timeline[0], SwarmActivityTimelineEvent::from(&entries[2]));
    assert_eq!(
        summaries(&timeline),
        vec!["zero", "four", "one", "one", "three", "two"]
    );
    entries.reverse();
    assert_eq!(timeline_from_entries(&entries), timeline);
    let rows = entries_to_jsonl(&entries).unwrap();
    assert_eq!(timeline_from_jsonl(&rows).unwrap(), timeline);
    entries.swap(0, 3);
    let rows = entries_to_jsonl(&entries).unwrap();
    assert_eq!(timeline_from_jsonl(&rows).unwrap(), timeline);
    assert!(timeline_from_entries(&[]).is_empty());
}
