use std::path::PathBuf;
use thread_store::attachment::AttachmentWriter;
use thread_store::attachment::LineAction;
use thread_store::envelope::EnvelopeField;
use thread_store::envelope::PayloadKind;
use thread_store::error::ThreadStoreError;
use thread_store::history::HistoryPosition;
use thread_store::history::ThreadHistoryMode;
use thread_store::lineage::CutoffCheck;
use thread_store::lineage::RolloutLineage;
use thread_store::lineage_walk::LineageMeta;
use thread_store::lineage_walk::LineageProgress;
use thread_store::lineage_walk::LineageRepresentation;
use thread_store::lineage_walk::LineageWalk;
use thread_store::lineage_walk::LocatedRollout;
use thread_store::lineage_walk::RolloutFileIds;
use thread_store::reference_attachment::classify_fields;
use thread_store::reference_attachment::envelope_kind;
use thread_store::reference_attachment::AttachmentRequest;
use thread_store::reference_attachment::AttachmentRoute;
use thread_store::reference_attachment::LineageAttachment;
use thread_store::reference_attachment::RawRolloutLine;
use thread_store::reference_attachment::SegmentStream;
use thread_store::thread_id::ThreadId;

fn envelope(kind: &str, payload: &str) -> Vec<u8> {
    let mut object = serde_json::Map::new();
    object.insert(
        "timestamp".to_string(),
        serde_json::Value::String("2026-08-30T00:00:00Z".to_string()),
    );
    object.insert(
        "type".to_string(),
        serde_json::Value::String(kind.to_string()),
    );
    object.insert(
        "payload".to_string(),
        serde_json::from_str(payload).expect("payload"),
    );
    serde_json::to_vec(&serde_json::Value::Object(object)).expect("serialize envelope")
}

fn join_lines(lines: Vec<Vec<u8>>) -> Vec<u8> {
    let mut output = Vec::new();
    for line in lines {
        output.extend_from_slice(line.as_slice());
        output.push(b'\n');
    }
    output
}

/// Reads lines of at most `limit` bytes, newlines included.
fn raw_lines(bytes: &[u8], limit: usize) -> Vec<RawRolloutLine> {
    bytes
        .split_inclusive(|byte| *byte == b'\n')
        .map(|line| {
            if line.len() <= limit {
                RawRolloutLine::Complete(line.to_vec())
            } else {
                RawRolloutLine::Oversized {
                    byte_count: line.len(),
                    terminated: line.ends_with(b"\n"),
                }
            }
        })
        .collect()
}

struct Attachment {
    writer: AttachmentWriter,
    output: Vec<u8>,
}

impl Attachment {
    fn new(max_bytes: usize) -> Self {
        Self {
            writer: AttachmentWriter::new(max_bytes),
            output: Vec::new(),
        }
    }

    fn apply(&mut self, action: LineAction) {
        if let LineAction::Write { line } = action {
            self.output.extend_from_slice(&line);
        }
    }

    fn push_header_line(&mut self, line: &[u8]) -> Result<(), ThreadStoreError> {
        let action = self.writer.push_header_line(line)?;
        self.apply(action);
        Ok(())
    }

    fn push_line(&mut self, line: &[u8]) {
        let action = self.writer.push_line(line);
        self.apply(action);
    }

    fn stream(&mut self, source: &[u8], end: Option<u64>) {
        let mut stream = SegmentStream::new(end);
        for line in raw_lines(source, self.writer.max_bytes()) {
            let step = stream.accept(line, &mut self.writer);
            self.apply(step.action);
            if step.stop {
                break;
            }
        }
    }

    fn finish(self) -> (Vec<u8>, bool) {
        let mut output = self.output;
        let end = self.writer.finish();
        for line in end.tail {
            output.extend_from_slice(&line);
        }
        (output, end.truncated)
    }
}

fn contains(bytes: &[u8], part: &[u8]) -> bool {
    bytes.windows(part.len()).any(|window| window == part)
}

#[test]
fn bounded_output_over_four_megabytes_keeps_complete_lines() {
    let mut writer = Attachment::new(4 * 1024 * 1024);
    writer
        .push_header_line(&envelope("session_meta", "{}"))
        .expect("write header");
    writer.push_line(b"head-marker");
    let oversized = format!("padding:{}", "x".repeat(4 * 1024 * 1024));
    writer.push_line(oversized.as_bytes());
    writer.push_line(b"tail-marker");
    let (bytes, truncated) = writer.finish();
    assert!(truncated);
    assert!(bytes.len() <= 4 * 1024 * 1024);
    assert!(bytes.ends_with(b"\n"));
    assert!(contains(&bytes, b"head-marker"));
    assert!(contains(&bytes, b"tail-marker"));
    assert!(!contains(&bytes, b"padding:"));
}

#[test]
fn oversized_record_at_ancestor_cutoff_cannot_leak_post_cutoff_secret() {
    let prefix = envelope("event_msg", "{\"message\": \"small-prefix\"}");
    let oversized = format!("{}\n", "x".repeat(4 * 1024 * 1024));
    let secret = envelope("event_msg", "{\"message\": \"post-cutoff-secret\"}");
    let mut bytes = Vec::new();
    bytes.extend_from_slice(prefix.as_slice());
    bytes.push(b'\n');
    bytes.extend_from_slice(oversized.as_bytes());
    bytes.extend_from_slice(secret.as_slice());
    bytes.push(b'\n');
    let cutoff = prefix.len() as u64 + 1 + oversized.len() as u64;
    let mut writer = Attachment::new(4 * 1024 * 1024);
    writer.stream(&bytes, Some(cutoff));
    let (output, truncated) = writer.finish();
    assert!(truncated);
    assert!(contains(&output, b"small-prefix"));
    assert!(!contains(&output, b"post-cutoff-secret"));
}

#[test]
fn oversized_record_after_cutoff_does_not_mark_attachment_truncated() {
    let prefix = envelope("event_msg", "{\"message\": \"before-cutoff\"}");
    let oversized = format!("{}\n", "x".repeat(4 * 1024 * 1024));
    let secret = envelope("event_msg", "{\"message\": \"after-cutoff\"}");
    let mut bytes = prefix.clone();
    bytes.push(b'\n');
    bytes.extend_from_slice(oversized.as_bytes());
    bytes.extend_from_slice(secret.as_slice());
    bytes.push(b'\n');
    let mut writer = Attachment::new(4 * 1024 * 1024);
    writer.stream(&bytes, Some(prefix.len() as u64 + 1));
    let (output, truncated) = writer.finish();
    assert!(!truncated);
    assert!(contains(&output, b"before-cutoff"));
    assert!(!contains(&output, b"after-cutoff"));
}

#[test]
fn decoded_rollouts_stream_their_logical_lines() {
    let lines = join_lines(vec![
        envelope("session_meta", "{}"),
        envelope("event_msg", "{\"message\": \"compressed-marker\"}"),
    ]);
    let compressed = zstd::stream::encode_all(lines.as_slice(), 3).expect("compress rollout");
    let logical = zstd::stream::decode_all(compressed.as_slice()).expect("decode rollout");
    let mut writer = Attachment::new(4096);
    writer.stream(&logical, None);
    let (output, truncated) = writer.finish();
    assert!(!truncated);
    assert!(contains(&output, b"compressed-marker"));
}

#[test]
fn valid_json_without_lf_is_not_written_as_a_child_tail() {
    let tail = envelope("event_msg", "{\"message\": \"partial-child-tail\"}");
    let mut writer = Attachment::new(4096);
    writer.stream(&tail, None);
    let (output, _) = writer.finish();
    assert!(output.is_empty());
}

#[test]
fn ancestor_cutoff_accepts_only_newline_terminated_records() {
    let partial = envelope("event_msg", "{\"message\": \"partial-ancestor\"}");
    let cutoff = partial.len() as u64;
    let mut writer = Attachment::new(4096);
    writer.stream(&partial, Some(cutoff));
    let (output, _) = writer.finish();
    assert!(output.is_empty());
}

#[test]
fn prefix_and_child_delta_are_streamed_as_complete_lines() {
    let parent = join_lines(vec![
        envelope("session_meta", "{}"),
        envelope("event_msg", "{\"message\": \"prefix-marker\"}"),
    ]);
    let child = join_lines(vec![
        envelope("session_meta", "{}"),
        envelope("event_msg", "{\"message\": \"child-delta-marker\"}"),
    ]);
    let mut writer = Attachment::new(4096);
    writer.stream(&parent, Some(parent.len() as u64));
    writer.stream(&child, None);
    let (output, _) = writer.finish();
    let text = String::from_utf8(output).expect("text");
    assert!(text.contains("prefix-marker"));
    assert!(text.contains("child-delta-marker"));
    assert!(text.lines().all(|line| !line.is_empty()));
}

#[test]
fn paginated_reference_stream_preserves_ordinal_lines() {
    let lines = join_lines(vec![
        b"{\"timestamp\":\"2026-08-30T00:00:00Z\",\"ordinal\":1,\"type\":\"event_msg\",\"payload\":{\"type\":\"shutdown_complete\"}}".to_vec(),
        envelope("event_msg", "{\"message\": \"paginated-marker\"}"),
    ]);
    let mut writer = Attachment::new(4096);
    writer.stream(&lines, None);
    let (output, _) = writer.finish();
    assert_eq!(output, lines);
    let text = String::from_utf8(output).expect("text");
    assert!(text.contains("paginated-marker"));
    assert!(text
        .lines()
        .all(|line| line.ends_with('}') || line.ends_with(']')));
}

#[test]
fn numeric_legacy_fork_metadata_is_a_valid_non_reference_envelope() {
    let line = envelope("session_meta", "{\"subagent_history_start_ordinal\": 7}");
    let info = envelope_kind(&line).expect("session metadata envelope");
    assert_eq!(info.kind, "session_meta");
    assert!(!info.ghost_snapshot);
}

#[test]
fn legacy_ghost_snapshot_is_omitted_without_payload_materialization() {
    let lines = join_lines(vec![
        envelope("response_item", "{\"type\": \"ghost_snapshot\"}"),
        envelope("event_msg", "{\"message\": \"retained-marker\"}"),
    ]);
    let mut writer = Attachment::new(4096);
    writer.stream(&lines, None);
    let (output, _) = writer.finish();
    assert!(contains(&output, b"retained-marker"));
    assert!(!contains(&output, b"ghost_snapshot"));
}

/// The lineage of a thread that refers to the start of another one, up to `cutoff`.
fn lineage(cutoff: u64) -> RolloutLineage {
    let (root, child) = (ThreadId { value: 1 }, ThreadId { value: 2 });
    let base = HistoryPosition {
        thread_id: root,
        end_ordinal_exclusive: 2,
        end_byte_offset: cutoff,
    };
    let mut walk = LineageWalk::new(child, LineageRepresentation::Existing);
    for (rollout_id, history_base) in [(child, Some(base)), (root, None)] {
        let candidate = walk
            .visit(Some(LocatedRollout {
                rollout_id,
                path: PathBuf::from("rollout"),
            }))
            .expect("visit")
            .identify(
                LineageMeta {
                    id: rollout_id,
                    history_mode: ThreadHistoryMode::Paginated,
                    history_base,
                },
                RolloutFileIds {
                    thread_id: Some(rollout_id),
                    rollout_id: Some(rollout_id),
                },
            )
            .expect("identify");
        let checked = candidate
            .cutoff()
            .map(|_| CutoffCheck::Prefix { contained: true });
        match candidate.accept("rollout", checked).expect("accept") {
            LineageProgress::Continue { walk: next } => walk = next,
            LineageProgress::Complete { lineage } => return lineage,
        }
    }
    panic!("lineage ends at its root");
}

#[test]
fn attachments_take_the_header_and_then_the_rollouts_up_to_their_cutoffs() {
    let message = |text: &str| envelope("event_msg", &format!("{{\"message\": \"{text}\"}}"));
    let header = envelope("session_meta", "{}");
    let inherited = vec![header.clone(), message("inherited")];
    let cutoff = join_lines(inherited.clone()).len() as u64;
    let sources = [
        join_lines([inherited, vec![message("behind the cutoff")]].concat()),
        join_lines(vec![header.clone(), message("own")]),
    ];
    let lineage = lineage(cutoff);
    let (mut attachment, first) =
        match LineageAttachment::new(AttachmentWriter::new(4096), &header) {
            Ok(started) => started,
            Err(error) => panic!("{error:?}"),
        };
    assert_eq!(attachment.max_bytes(), 4096);
    let mut output = first;
    let mut indices = Vec::new();
    while let Some(index) = attachment.next_segment(&lineage) {
        indices.push(index);
        for line in raw_lines(&sources[index], attachment.max_bytes()) {
            let step = attachment.accept(line);
            if let LineAction::Write { line } = step.action {
                output.extend_from_slice(&line);
            }
            if step.stop {
                break;
            }
        }
    }
    assert_eq!(indices, vec![0, 1]);
    let end = attachment.finish(&lineage);
    for line in end.tail {
        output.extend_from_slice(&line);
    }
    assert!(!end.truncated);
    assert_eq!(
        output,
        join_lines(vec![header, message("inherited"), message("own")])
    );
}

#[test]
fn attachments_are_refused_where_the_header_does_not_fit() {
    let header = envelope("session_meta", "{}");
    let fits = 2 * (header.len() + 1);
    assert!(LineageAttachment::new(AttachmentWriter::new(fits), &header).is_ok());
    assert!(matches!(
        LineageAttachment::new(AttachmentWriter::new(fits - 1), &header),
        Err(ThreadStoreError::InvalidRequest { message })
            if message == "logical reference SessionMeta exceeds attachment head budget"
    ));
}

#[test]
fn envelopes_need_their_three_members_with_their_types() {
    let kind = |line: &str| envelope_kind(line.as_bytes()).map(|info| (info.kind, info.ghost_snapshot));
    let plain = Some(("a".to_string(), false));
    assert_eq!(kind("{\"timestamp\":\"t\",\"type\":\"a\",\"payload\":{}}"), plain);
    assert_eq!(kind(" {\"payload\" : {} ,\n\"type\":\"\\u0061\",\"timestamp\":\"t\"}\r\n"), plain);
    assert_eq!(
        kind("{\"timestamp\":\"t\",\"x\":[1,{\"y\":null}],\"type\":\"a\",\"payload\":{\"k\":1.5e3}}"),
        plain
    );
    for line in [
        "",
        "null",
        "[]",
        "{}",
        "{\"type\":\"a\",\"payload\":{}}",
        "{\"timestamp\":\"t\",\"payload\":{}}",
        "{\"timestamp\":\"t\",\"type\":\"a\"}",
        "{\"timestamp\":1,\"type\":\"a\",\"payload\":{}}",
        "{\"timestamp\":\"t\",\"type\":null,\"payload\":{}}",
        "{\"timestamp\":\"t\",\"type\":\"a\",\"payload\":[]}",
        "{\"timestamp\":\"t\",\"type\":\"a\",\"payload\":{\"type\":1}}",
        "{\"timestamp\":\"t\",\"type\":\"a\",\"payload\":{},}",
        "{\"timestamp\":\"t\" \"type\":\"a\",\"payload\":{}}",
        "{\"timestamp\":\"t\",\"type\":\"a\",\"payload\":{}} x",
        "{\"timestamp\":\"t\",\"type\":\"a\",\"payload\":{}",
        "{\"timestamp\":\"t\",\"type\":\"a\",\"payload\":{},\"n\":01}",
        "{\"timestamp\":\"t\",\"type\":\"\\ud800\",\"payload\":{}}",
    ] {
        assert_eq!(kind(line), None, "{line}");
    }
}

#[test]
fn the_last_of_repeated_members_counts() {
    let line = b"{\"timestamp\":\"t\",\"type\":\"event_msg\",\"payload\":{\"type\":\"ghost_snapshot\"},\"type\":\"response_item\"}";
    let info = envelope_kind(line).expect("envelope");
    assert_eq!(info.kind, "response_item");
    assert!(info.ghost_snapshot);
    let line = b"{\"timestamp\":\"t\",\"type\":\"response_item\",\"payload\":{\"type\":\"ghost_snapshot\",\"type\":\"message\"}}";
    assert!(!envelope_kind(line).expect("envelope").ghost_snapshot);
    let line = b"{\"timestamp\":\"t\",\"type\":1,\"type\":\"a\",\"payload\":{}}";
    assert!(envelope_kind(line).is_none());
}

#[test]
fn fields_alone_decide_what_a_record_is() {
    let payload = |object| EnvelopeField::Payload {
        object,
        start: 0,
        end: 0,
    };
    let kind = |text: &str| EnvelopeField::Kind {
        text: Some(text.to_string()),
    };
    let ghost = || {
        Some(PayloadKind::Text {
            text: "ghost_snapshot".to_string(),
        })
    };
    let timestamp = || EnvelopeField::Timestamp { is_text: true };
    let info = classify_fields(&vec![timestamp(), kind("response_item"), payload(ghost())])
        .expect("envelope");
    assert_eq!(info.kind, "response_item");
    assert!(info.ghost_snapshot);
    let info = classify_fields(&vec![timestamp(), kind("event_msg"), payload(ghost())])
        .expect("envelope");
    assert!(!info.ghost_snapshot);
    assert!(classify_fields(&vec![kind("a"), payload(Some(PayloadKind::Absent))]).is_none());
    assert!(classify_fields(&vec![
        timestamp(),
        kind("a"),
        payload(Some(PayloadKind::Invalid))
    ])
    .is_none());
    assert!(classify_fields(&vec![timestamp(), EnvelopeField::Other, kind("a")]).is_none());
}

#[test]
fn attachments_keep_the_first_and_the_last_lines() {
    let mut writer = Attachment::new(12);
    for line in ["aa", "bb", "cc", "dd", "ee"] {
        writer.push_line(line.as_bytes());
    }
    assert_eq!(writer.finish(), (b"aa\nbb\ndd\nee\n".to_vec(), true));

    let mut writer = Attachment::new(12);
    for line in ["aa\n", "bb", "cc\n", "dd"] {
        writer.push_line(line.as_bytes());
    }
    assert_eq!(writer.finish(), (b"aa\nbb\ncc\ndd\n".to_vec(), false));

    // A line that misses the head ends it for all later lines.
    let mut writer = Attachment::new(13);
    for line in ["aa", "bbbb", "c"] {
        writer.push_line(line.as_bytes());
    }
    assert_eq!(writer.finish(), (b"aa\nbbbb\nc\n".to_vec(), false));

    // A line longer than the tail pushes everything out of it, itself included.
    let mut writer = Attachment::new(10);
    for line in ["aaaa", "b", "cccccccc"] {
        writer.push_line(line.as_bytes());
    }
    assert_eq!(writer.finish(), (b"aaaa\n".to_vec(), true));
}

#[test]
fn a_header_has_to_fit_the_head() {
    let mut writer = Attachment::new(8);
    let error = writer.push_header_line(b"abcd").expect_err("too long");
    assert!(
        matches!(error, ThreadStoreError::InvalidRequest { message } if message == "logical reference SessionMeta exceeds attachment head budget")
    );
    writer.push_header_line(b"abc").expect("fits");
    writer.push_line(b"zz");
    writer.push_line(b"yyyy");
    assert_eq!(writer.finish(), (b"abc\n".to_vec(), true));
}

#[test]
fn requests_are_checked_in_order() {
    let id = ThreadId { value: 7 };
    let other = ThreadId { value: 8 };
    assert!(matches!(
        AttachmentRequest::new(id, false, 0),
        Err(ThreadStoreError::InvalidRequest { message })
            if message == "reference logical attachment max_bytes must be positive"
    ));
    let reserved = |include_archived| {
        AttachmentRequest::new(id, include_archived, 64)
            .expect("request")
            .reserved("guard")
    };
    assert!(matches!(
        reserved(false).located(None::<&str>),
        Err(ThreadStoreError::ThreadNotFound { thread_id }) if thread_id == id
    ));
    assert!(matches!(
        reserved(false).with_source(true),
        Err(ThreadStoreError::InvalidRequest { message })
            if message == "thread 00000000-0000-0000-0000-000000000007 is archived"
    ));
    assert!(matches!(
        reserved(true).with_source(true).expect("archived").route("/p", other, true),
        Err(ThreadStoreError::InvalidRequest { message })
            if message == "rollout /p belongs to thread 00000000-0000-0000-0000-000000000008, not 00000000-0000-0000-0000-000000000007"
    ));
    assert!(matches!(
        reserved(false).with_source(false).expect("current").route("/p", id, false),
        Ok(AttachmentRoute::NotReference)
    ));
    assert!(matches!(
        reserved(false).with_source(false).expect("current").route("/p", id, true),
        Ok(AttachmentRoute::Stream { writer, guards: "guard" }) if writer.max_bytes() == 64
    ));
}
