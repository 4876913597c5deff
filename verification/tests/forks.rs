use thread_store::envelope::EnvelopeField;
use thread_store::envelope::PayloadKind;
use thread_store::error::ThreadStoreError;
use thread_store::history::HistoryPosition;
use thread_store::legacy_envelope::cutoff_answer;
use thread_store::legacy_envelope::has_valid_fields;
use thread_store::legacy_envelope::is_rollout_envelope;
use thread_store::legacy_envelope::EnvelopeCheck;
use thread_store::legacy_envelope::EnvelopeStep;
use thread_store::legacy_envelope::EnvelopeVerdict;
use thread_store::legacy_envelope::InvalidEnvelope;
use thread_store::legacy_fork::boundary_payload;
use thread_store::legacy_fork::bounds_history;
use thread_store::legacy_fork::ForkBoundary;
use thread_store::legacy_fork::LegacyForkRequest;
use thread_store::record_search::RecordSearch;
use thread_store::record_search::SearchStep;
use thread_store::record_search::SoughtRecord;
use thread_store::thread_id::ThreadId;

const ENVELOPE: &str = "{\"timestamp\":\"2026-08-30T00:00:00Z\",\"type\":\"event_msg\",\"payload\":{}}";

fn search(file: &[u8], sought: SoughtRecord) -> RecordSearch {
    let mut search = RecordSearch::new(sought, file.len() as u64, file.last().copied());
    loop {
        match search.next() {
            SearchStep::Read { offset, len } => {
                let start = offset as usize;
                search.supply(file[start..start + len].to_vec());
            }
            SearchStep::Done { end } => {
                assert_eq!(search.found_offset(), Some(end));
                return search;
            }
        }
    }
}

fn last_complete_rollout_envelope_offset(file: &[u8]) -> u64 {
    search(file, SoughtRecord::Boundary).found_offset().expect("over")
}

fn check(file: &[u8], end: u64) -> EnvelopeVerdict {
    let mut check = EnvelopeCheck::new(file.len() as u64, end);
    loop {
        match check.next() {
            EnvelopeStep::Read { offset, len } => {
                let start = offset as usize;
                check.supply(&file[start..start + len as usize]);
            }
            EnvelopeStep::Done { verdict } => return verdict,
        }
    }
}

fn validate_cutoff(file: &[u8], end: u64) -> Result<bool, InvalidEnvelope> {
    cutoff_answer(check(file, end), "why".to_string())
}

fn invalid() -> Result<bool, InvalidEnvelope> {
    Err(InvalidEnvelope {
        reason: "why".to_string(),
    })
}

fn last_offset(file: &[u8]) -> u64 {
    search(file, SoughtRecord::Envelope).found_offset().expect("over")
}

#[test]
fn cutoff_accepts_schema_evolved_payload_envelope() {
    let complete = b"{\"timestamp\":\"2026-08-30T00:00:00Z\",\"type\":\"token_count\",\"payload\":{\"future_schema\":{\"nested\":true}}}\n";
    assert_eq!(
        last_complete_rollout_envelope_offset(complete),
        u64::try_from(complete.len()).expect("fixture length")
    );
}

#[test]
fn cutoff_excludes_incomplete_tail() {
    let complete =
        b"{\"timestamp\":\"2026-08-30T00:00:00Z\",\"type\":\"event_msg\",\"payload\":{}}\n";
    let partial = b"{\"timestamp\":\"2026-08-30T00:00:01Z\",\"type\":\"event_msg\"";
    let mut contents = complete.to_vec();
    contents.extend_from_slice(partial);
    assert_eq!(
        last_complete_rollout_envelope_offset(&contents),
        u64::try_from(complete.len()).expect("fixture length")
    );
}

#[test]
fn the_search_passes_over_lines_that_bound_nothing() {
    let mut file = format!("{ENVELOPE}\n");
    let end = file.len() as u64;
    file.push_str("\nnot json\n{\"timestamp\":\"t\",\"type\":\"a\"}\n");
    // Complete, but without its newline.
    file.push_str(ENVELOPE);
    assert_eq!(last_complete_rollout_envelope_offset(file.as_bytes()), end);
    assert_eq!(last_complete_rollout_envelope_offset(b""), 0);
    assert_eq!(last_complete_rollout_envelope_offset(b"not json\n"), 0);
    assert_eq!(last_complete_rollout_envelope_offset(ENVELOPE.as_bytes()), 0);
}

#[test]
fn the_search_reads_across_chunks() {
    let payload = "x".repeat(20_000);
    let line = format!("{{\"timestamp\":\"t\",\"type\":\"a\",\"payload\":{{\"m\":\"{payload}\"}}}}\n");
    let mut file = line.clone();
    file.push_str(&"y".repeat(9_000));
    assert_eq!(
        last_complete_rollout_envelope_offset(file.as_bytes()),
        line.len() as u64
    );
}

#[test]
fn boundaries_have_each_member_once() {
    assert!(bounds_history(ENVELOPE.as_bytes()));
    assert!(bounds_history(b"[\"t\",\"k\",{\"a\":1}]"));
    for line in [
        "{\"timestamp\":\"t\",\"timestamp\":\"t\",\"type\":\"a\",\"payload\":{}}",
        "{\"timestamp\":\"t\",\"type\":\"a\",\"type\":\"a\",\"payload\":{}}",
        "{\"timestamp\":\"t\",\"type\":\"a\",\"payload\":{},\"payload\":{}}",
        "{\"timestamp\":\"t\",\"type\":\"a\",\"payload\":[]}",
        "{\"timestamp\":\"t\",\"type\":7,\"payload\":{}}",
        "{\"timestamp\":\"t\",\"type\":\"a\",\"payload\":{\"n\":1e999}}",
        "[\"t\",\"k\"]",
        "[\"t\",\"k\",{},{}]",
        "[1,\"k\",{}]",
    ] {
        assert!(!bounds_history(line.as_bytes()), "{line}");
    }
    // An ignored member may hold any value, and an own `type` of the payload anything.
    assert!(bounds_history(
        b"{\"timestamp\":\"t\",\"type\":\"a\",\"x\":1e999,\"payload\":{\"type\":1}}"
    ));
}

#[test]
fn nesting_of_a_boundary_payload_is_limited() {
    let nested = |depth: usize| {
        format!(
            "{{\"timestamp\":\"t\",\"type\":\"a\",\"payload\":{{\"v\":{}{}}}}}",
            "[".repeat(depth),
            "]".repeat(depth)
        )
    };
    assert!(bounds_history(nested(125).as_bytes()));
    assert!(!bounds_history(nested(126).as_bytes()));
}

#[test]
fn fields_alone_decide_whether_a_record_can_be_a_boundary() {
    let timestamp = || EnvelopeField::Timestamp { is_text: true };
    let kind = || EnvelopeField::Kind {
        text: Some("a".to_string()),
    };
    let payload = || EnvelopeField::Payload {
        object: Some(PayloadKind::Invalid),
        start: 3,
        end: 5,
    };
    assert_eq!(
        boundary_payload(&vec![timestamp(), EnvelopeField::Other, payload(), kind()]),
        Some((3, 5))
    );
    assert_eq!(boundary_payload(&vec![timestamp(), payload()]), None);
    assert_eq!(
        boundary_payload(&vec![timestamp(), payload(), kind(), payload()]),
        None
    );
    assert!(has_valid_fields(&vec![timestamp(), payload(), kind(), payload()]));
    assert!(!has_valid_fields(&vec![timestamp(), payload()]));
    assert!(!has_valid_fields(&vec![
        timestamp(),
        kind(),
        EnvelopeField::Payload {
            object: None,
            start: 0,
            end: 0,
        }
    ]));
}

#[test]
fn legacy_cutoffs_end_complete_envelopes() {
    let file = format!("{ENVELOPE}\n\n{ENVELOPE}\nrest");
    let bytes = file.as_bytes();
    let first = ENVELOPE.len() as u64 + 1;
    assert_eq!(validate_cutoff(bytes, first), Ok(true));
    assert_eq!(validate_cutoff(bytes, 0), Ok(false));
    assert_eq!(validate_cutoff(bytes, first - 1), Ok(false));
    assert_eq!(validate_cutoff(bytes, first + 1), Ok(false));
    assert_eq!(validate_cutoff(bytes, 2 * first + 1), Ok(true));
    assert_eq!(validate_cutoff(bytes, bytes.len() as u64), Ok(false));
    assert_eq!(validate_cutoff(bytes, bytes.len() as u64 + 1), Ok(false));
    assert_eq!(validate_cutoff(b"{}\n", 3), invalid());
    assert_eq!(validate_cutoff(b"\n", 1), Ok(false));
    // The range of a line that is no record is known, so that it can be said why it is none.
    assert_eq!(
        check(b"{}\nbad\n", 7),
        EnvelopeVerdict::Invalid { start: 3, end: 7 }
    );
    assert_eq!(validate_cutoff(b"  \n", 3), invalid());
}

#[test]
fn the_last_envelope_is_found_behind_lines_that_are_none() {
    let file = format!("{ENVELOPE}\n");
    let end = file.len() as u64;
    assert_eq!(last_offset(file.as_bytes()), end);
    for rest in [
        "partial",
        ENVELOPE,
        "\n",
        "\n\n  \n",
        "bad\n",
        "{}\n",
        "[\"t\",\"k\",{}]\n",
        "{\"timestamp\":1,\"type\":\"a\",\"payload\":{}}\n\npartial",
    ] {
        let longer = format!("{file}{rest}");
        assert_eq!(last_offset(longer.as_bytes()), end, "{rest:?}");
    }
    assert_eq!(last_offset(format!("bad\n{file}{file}bad\n").as_bytes()), 4 + 2 * end);
    for none in ["", "no newline", "\n", "bad\n\n", ENVELOPE] {
        assert_eq!(last_offset(none.as_bytes()), 0, "{none:?}");
    }
}

#[test]
fn the_last_envelope_is_the_greatest_accepted_cutoff() {
    for file in [
        format!("{ENVELOPE}\n{ENVELOPE}\nbad\n\n{ENVELOPE}"),
        format!("\n{ENVELOPE}\n  \n{{}}\n"),
        "bad\n\n[]\n".to_string(),
    ] {
        let bytes = file.as_bytes();
        let greatest = (0..=bytes.len() as u64 + 1)
            .filter(|end| validate_cutoff(bytes, *end) == Ok(true))
            .max();
        assert_eq!(last_offset(bytes), greatest.unwrap_or(0), "{file:?}");
    }
}

#[test]
fn checks_search_backwards_in_chunks() {
    let payload = "x".repeat(200_000);
    let line = format!("{{\"timestamp\":\"t\",\"type\":\"a\",\"payload\":{{\"m\":\"{payload}\"}}}}\n");
    let file = format!("{ENVELOPE}\n{line}{}", "y".repeat(140_000));
    let end = (ENVELOPE.len() + 1 + line.len()) as u64;
    assert_eq!(last_offset(file.as_bytes()), end);
    assert_eq!(validate_cutoff(file.as_bytes(), end), Ok(true));
}

#[test]
fn offered_cutoffs_are_accepted_and_survive_appends() {
    let file = format!("{ENVELOPE}\n");
    let end = last_complete_rollout_envelope_offset(file.as_bytes());
    assert_eq!(validate_cutoff(file.as_bytes(), end), Ok(true));
    assert_eq!(last_offset(file.as_bytes()), end);
    let longer = format!("{file}more\nand more");
    assert_eq!(validate_cutoff(longer.as_bytes(), end), Ok(true));
    // A record in the form of an array bounds a history, but its cutoff is refused.
    let array = b"[\"t\",\"k\",{}]\n";
    let end = last_complete_rollout_envelope_offset(array);
    assert_eq!(end, array.len() as u64);
    assert_eq!(validate_cutoff(array, end), invalid());
}

#[test]
fn repeated_members_do_not_spoil_a_legacy_envelope() {
    assert!(is_rollout_envelope(
        b"{\"timestamp\":\"t\",\"timestamp\":\"u\",\"type\":\"a\",\"payload\":{\"type\":1},\"payload\":{}}"
    ));
    assert!(!is_rollout_envelope(
        b"{\"timestamp\":\"t\",\"timestamp\":1,\"type\":\"a\",\"payload\":{}}"
    ));
    assert!(!is_rollout_envelope(b"[\"t\",\"k\",{}]"));
    // Keys of a payload are checked, its values are only skipped.
    assert!(!is_rollout_envelope(
        b"{\"timestamp\":\"t\",\"type\":\"a\",\"payload\":{\"\xff\":1}}"
    ));
    assert!(is_rollout_envelope(
        b"{\"timestamp\":\"t\",\"type\":\"a\",\"payload\":{\"k\":\"\xff\"}}"
    ));
}

#[test]
fn legacy_forks_are_prepared_step_by_step() {
    let id = ThreadId { value: 434 };
    assert!(matches!(
        LegacyForkRequest::new(id, ForkBoundary::Earlier),
        Err(ThreadStoreError::Unsupported { operation: "legacy fork boundary" })
    ));
    let flushed = || {
        LegacyForkRequest::new(id, ForkBoundary::Latest)
            .expect("latest")
            .reserved("lease")
            .persisted(Err(ThreadStoreError::ThreadNotFound { thread_id: id }))
            .expect("no writer")
            .flushed(Ok(()))
            .expect("flushed")
    };
    assert!(matches!(
        LegacyForkRequest::new(id, ForkBoundary::Latest)
            .expect("latest")
            .reserved("lease")
            .persisted(Err(ThreadStoreError::Internal { message: "disk".to_string() })),
        Err(ThreadStoreError::Internal { message }) if message == "disk"
    ));
    assert!(matches!(
        flushed().with_source(false, None),
        Err(ThreadStoreError::ThreadNotFound { thread_id }) if thread_id == id
    ));
    assert!(matches!(
        flushed().with_source(true, Some("zst")),
        Err(ThreadStoreError::Unsupported { operation: "compressed legacy reference fork" })
    ));
    let located = || flushed().with_source(true, Some("jsonl")).expect("plain");
    assert!(matches!(
        located().cut_off(&search(b"partial", SoughtRecord::Boundary)),
        Err(ThreadStoreError::Unsupported {
            operation: "legacy reference fork without complete rollout envelope"
        })
    ));
    let source = format!("{ENVELOPE}\n{ENVELOPE}\npartial");
    let prepared = located()
        .cut_off(&search(source.as_bytes(), SoughtRecord::Boundary))
        .expect("prepared");
    assert_eq!(prepared.thread_id, id);
    assert_eq!(prepared.reservation, "lease");
    assert_eq!(
        prepared.history_base,
        HistoryPosition {
            thread_id: id,
            end_ordinal_exclusive: 0,
            end_byte_offset: 2 * (ENVELOPE.len() as u64 + 1),
        }
    );
}
