use thread_store::reverse_scanner::ReverseJsonlScanner;
use thread_store::reverse_scanner::ScanStartError;
use thread_store::reverse_scanner::ScanStep;

fn byte_before(file: &[u8], end: u64) -> Option<u8> {
    if end == 0 || end as usize > file.len() {
        None
    } else {
        Some(file[end as usize - 1])
    }
}

fn drain(file: &[u8], mut scanner: ReverseJsonlScanner) -> Vec<(Vec<u8>, u64, bool)> {
    let mut records = Vec::new();
    loop {
        match scanner.scan_next() {
            ScanStep::Read { offset, len } => {
                assert!(len <= 8 * 1024);
                let start = offset as usize;
                scanner.supply_chunk(file[start..start + len].to_vec());
            }
            ScanStep::Record { bytes } => records.push((
                bytes,
                scanner.last_record_end_offset().expect("end offset"),
                scanner
                    .last_record_terminated_by_newline()
                    .expect("terminated"),
            )),
            ScanStep::Finished => {
                // A scan that is over stays over.
                assert!(matches!(scanner.scan_next(), ScanStep::Finished));
                return records;
            }
        }
    }
}

fn scan_at(file: &[u8], end: u64) -> Vec<(Vec<u8>, u64, bool)> {
    let scanner = ReverseJsonlScanner::new_at(file.len() as u64, end, byte_before(file, end))
        .expect("end within file");
    drain(file, scanner)
}

fn scan(file: &[u8]) -> Vec<(Vec<u8>, u64, bool)> {
    let len = file.len() as u64;
    drain(file, ReverseJsonlScanner::new(len, byte_before(file, len)))
}

#[test]
fn records_come_last_first_with_offsets() {
    assert_eq!(
        scan(b"{\"a\":1}\n{\"b\":2}\n"),
        vec![
            (b"{\"b\":2}".to_vec(), 16, true),
            (b"{\"a\":1}".to_vec(), 8, true),
        ]
    );
}

#[test]
fn unterminated_tail_is_a_record_without_newline() {
    assert_eq!(
        scan(b"one\ntwo"),
        vec![(b"two".to_vec(), 7, false), (b"one".to_vec(), 4, true)]
    );
}

#[test]
fn blank_lines_are_skipped() {
    assert_eq!(
        scan(b"\n \t\r\x0c\none\n\n\ntwo\n  "),
        vec![(b"two".to_vec(), 16, true), (b"one".to_vec(), 10, true)]
    );
    // A vertical tab is not white space here.
    assert_eq!(scan(b"\x0b"), vec![(b"\x0b".to_vec(), 1, false)]);
}

#[test]
fn an_empty_file_has_no_records() {
    assert_eq!(scan(b""), Vec::new());
    let scanner = ReverseJsonlScanner::new(0, None);
    assert_eq!(scanner.last_record_end_offset(), None);
    assert_eq!(scanner.last_record_terminated_by_newline(), None);
}

#[test]
fn records_longer_than_a_chunk_are_whole() {
    let mut file = vec![b'x'; 20_000];
    file.push(b'\n');
    file.extend_from_slice(&vec![b'y'; 8192]);
    file.push(b'\n');
    assert_eq!(
        scan(&file),
        vec![
            (vec![b'y'; 8192], 28_194, true),
            (vec![b'x'; 20_000], 20_001, true),
        ]
    );
}

#[test]
fn a_frozen_prefix_ignores_later_appends() {
    let prefix = b"one\ntwo\n".to_vec();
    let mut longer = prefix.clone();
    longer.extend_from_slice(b"three\nfour");
    assert_eq!(scan_at(&longer, 8), scan(&prefix));
    // Cut inside a line: the rest of the line is an unterminated record.
    assert_eq!(
        scan_at(&longer, 6),
        vec![(b"tw".to_vec(), 6, false), (b"one".to_vec(), 4, true)]
    );
    assert_eq!(scan_at(&longer, 0), Vec::new());
}

#[test]
fn an_appended_line_is_scanned_first() {
    let file = b"one\n";
    let mut longer = file.to_vec();
    longer.extend_from_slice(b"two\n");
    let mut expected = vec![(b"two".to_vec(), 8, true)];
    expected.extend(scan(file));
    assert_eq!(scan(&longer), expected);
}

#[test]
fn an_end_past_the_file_is_refused() {
    let error = ReverseJsonlScanner::new_at(4, 5, None).expect_err("past the file");
    assert_eq!(error, ScanStartError::EndPastFile);
    assert_eq!(error.message(), "reverse JSONL scan end is past the file");
}
