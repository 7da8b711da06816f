use server_poller::collector::{
    after_send, build_headers, count_poll, finish_poll, finish_poll_with, fits_header, ingest_body,
    ingest_url, is_drained, is_wanted, next_drain, poll_interval, put_off_unreachable, put_off_with,
    skips_poll, IngestBatch, IngestStep,
};
use server_poller::config::{CollectorSettings, EnvValue, Settings};
use server_poller::json::{json_text, parse_json, Json};
use server_poller::models::{build_state_with, ServerState};
use server_poller::scheduler::{NextDue, SchedulerHandle};
use server_poller::sync::make_due;
use server_poller::table::Table;
use server_poller::wal::{read_segment, BatchWriter, SegmentFile, WalBuffer, WriteStep};

const SECOND: u128 = 1_000_000_000;
const EVEN: u64 = 1_000_000_000;

fn settings() -> CollectorSettings {
    Settings::load(&Table::<EnvValue>::new()).collector
}

fn state(text: &str) -> ServerState {
    build_state_with(parse_json(text).unwrap(), 0, 1, 0, 7, 0)
}

fn payload() -> Json {
    parse_json(r#"{"online":3,"max_players":20,"version":"1","motd":"m"}"#).unwrap()
}

#[test]
fn tokens_become_headers() {
    let headers = build_headers(&Some("abc".to_string())).unwrap();
    assert_eq!(headers.len(), 1);
    assert_eq!(headers.get("authorization").unwrap().as_bytes(), b"Bearer abc");
    assert!(build_headers(&None).is_none());
    let headers = build_headers(&Some("\té~".to_string())).unwrap();
    assert_eq!(headers.get("authorization").unwrap().as_bytes(), "Bearer \té~".as_bytes());
}

#[test]
fn texts_that_a_header_cannot_hold() {
    for text in ["a\nb", "\r", "\u{0}", "\u{7f}"] {
        assert!(!fits_header(text));
        assert!(reqwest::header::HeaderValue::from_str(text).is_err());
    }
    for text in ["", "a b", "\t", "é", "\u{80}"] {
        assert!(fits_header(text));
        assert!(reqwest::header::HeaderValue::from_str(text).is_ok());
    }
}

#[test]
fn superseded_polls_are_not_wanted() {
    let mut states = Table::new();
    states.insert("a".to_string(), state(r#"{"id":"a"}"#));
    assert!(is_wanted(&states, "a", 7));
    assert!(!is_wanted(&states, "a", 8));
    assert!(!is_wanted(&states, "b", 7));
    let mut scheduler = SchedulerHandle::new();
    assert!(make_due(&mut states, &mut scheduler, "a", 99));
    assert!(!is_wanted(&states, "a", 7));
    assert!(is_wanted(&states, "a", 99));
}

#[test]
fn internal_hosts_of_plugins_are_skipped() {
    let mut state = state(r#"{"id":"a","ip_or_domain":"Internal-x"}"#);
    assert!(!skips_poll(&state));
    state.plugin_managed = true;
    assert!(skips_poll(&state));
    state.host = "example.com".to_string();
    assert!(!skips_poll(&state));
}

#[test]
fn skipped_servers_are_put_off() {
    let mut states = Table::new();
    states.insert("a".to_string(), state(r#"{"id":"a"}"#));
    let mut scheduler = SchedulerHandle::new();
    put_off_with(&mut states, &mut scheduler, "a", 1800, 10, 1_050_000_000);
    assert_eq!(states.get("a").unwrap().next_due, 10 + 1890 * SECOND);
    put_off_with(&mut states, &mut scheduler, "a", 10, 10, EVEN);
    assert_eq!(states.get("a").unwrap().next_due, 10 + 60 * SECOND);
    put_off_with(&mut states, &mut scheduler, "b", 10, 10, EVEN);
    for _ in 0..50 {
        put_off_unreachable(&mut states, &mut scheduler, "a", 1800, 0);
        let due = states.get("a").unwrap().next_due;
        assert!(due >= 1620 * SECOND && due < 1980 * SECOND);
    }
    match scheduler.next_due(u64::MAX) {
        NextDue::Ready(entry) => assert_eq!((entry.key.as_str(), entry.due), ("a", 10 + 60 * SECOND)),
        other => panic!("{other:?}"),
    }
}

#[test]
fn intervals_by_outcome() {
    let mut settings = settings();
    let mut state = state(r#"{"id":"a"}"#);
    assert_eq!(poll_interval(&state, true, false, &settings), 1800 * SECOND);
    assert_eq!(poll_interval(&state, false, true, &settings), 300 * SECOND);
    assert_eq!(poll_interval(&state, false, false, &settings), 600 * SECOND);
    state.initial_failures = 5;
    assert_eq!(poll_interval(&state, false, false, &settings), 3600 * SECOND);
    settings.initial_failure_slowdown_multiplier = 2_500_000_000;
    assert_eq!(poll_interval(&state, false, false, &settings), 1500 * SECOND);
    settings.initial_failure_slowdown_multiplier = -1;
    assert_eq!(poll_interval(&state, false, false, &settings), 600 * SECOND);
    settings.initial_failure_max_interval_seconds = 30;
    assert_eq!(poll_interval(&state, false, false, &settings), 30 * SECOND);
    state.has_succeeded = true;
    assert_eq!(poll_interval(&state, false, false, &settings), 600 * SECOND);
}

#[test]
fn outcomes_are_counted() {
    let mut state = state(r#"{"id":"a"}"#);
    count_poll(&mut state, false);
    count_poll(&mut state, false);
    assert_eq!((state.consecutive_failures, state.initial_failures), (2, 2));
    count_poll(&mut state, true);
    assert!(state.has_succeeded);
    count_poll(&mut state, false);
    assert_eq!((state.consecutive_failures, state.initial_failures), (1, 2));
}

#[test]
fn polls_are_finished() {
    let settings = settings();
    let mut scheduler = SchedulerHandle::new();
    let mut state = state(r#"{"id":"a"}"#);
    let report = finish_poll_with(
        &mut state, &mut scheduler, "k", false, &payload(), true, &settings, 5, 900_000_000,
    );
    assert_eq!(report.unwrap().text_at("event_type"), Some("state_full"));
    assert_eq!(state.next_due, 5 + 270 * SECOND);
    match scheduler.next_due(u64::MAX) {
        NextDue::Ready(entry) => assert_eq!((entry.key.as_str(), entry.due), ("k", state.next_due)),
        other => panic!("{other:?}"),
    }
    let report = finish_poll(&mut state, &mut scheduler, "k", false, &payload(), true, &settings, 5);
    assert!(report.is_none());
    assert!(state.next_due >= 5 + 270 * SECOND && state.next_due < 5 + 330 * SECOND);
}

#[test]
fn a_plugin_managed_server_is_not_reported_down() {
    let settings = settings();
    let mut scheduler = SchedulerHandle::new();
    let mut state = state(r#"{"id":"a"}"#);
    let down = finish_poll_with(
        &mut state, &mut scheduler, "a", true, &payload(), false, &settings, 0, EVEN,
    );
    assert!(down.is_none());
    assert_eq!(state.next_due, 1800 * SECOND);
    assert!(!state.has_emitted_state);
    let down = finish_poll_with(
        &mut state, &mut scheduler, "a", false, &payload(), false, &settings, 0, EVEN,
    );
    assert!(down.is_some());
}

#[test]
fn the_least_interval_is_a_second() {
    let mut settings = settings();
    settings.initial_failure_max_interval_seconds = 0;
    settings.initial_failures_before_slowdown = 0;
    let mut scheduler = SchedulerHandle::new();
    let mut state = state(r#"{"id":"a"}"#);
    finish_poll_with(
        &mut state, &mut scheduler, "a", false, &payload(), false, &settings, 3, EVEN,
    );
    assert_eq!(state.next_due, 3 + SECOND);
}

#[test]
fn batches_are_sent_when_full_or_due() {
    let mut batch = IngestBatch::new(2);
    assert!(batch.flush().is_none());
    assert!(batch.push(Json::unsigned(1)).is_none());
    assert_eq!(batch.push(Json::unsigned(2)).unwrap().len(), 2);
    assert!(batch.push(Json::unsigned(3)).is_none());
    let sent = batch.flush().unwrap();
    assert_eq!(json_text(&ingest_body(sent)), r#"{"items":[3]}"#);
    assert!(batch.flush().is_none());
    assert_eq!(IngestBatch::new(0).push(Json::Null).unwrap().len(), 1);
    assert_eq!(ingest_url("http://m"), "http://m/monitoring/ingest/unverified");
}

#[test]
fn a_refused_batch_is_persisted_and_drained_on_recovery() {
    let mut wal = WalBuffer::open(&Vec::new(), 1000, 100);
    let mut disk: Vec<(SegmentFile, Vec<u8>)> = Vec::new();
    let listing = |disk: &Vec<(SegmentFile, Vec<u8>)>| -> Vec<SegmentFile> {
        disk.iter()
            .map(|(f, b)| SegmentFile { name: f.name.clone(), size: b.len() as u64 })
            .collect()
    };
    for round in 0..2u64 {
        let refused = vec![Json::unsigned(round), Json::text("x")];
        let items = match after_send(false, refused, &mut wal, &listing(&disk)) {
            IngestStep::Persist(items) => items,
            other => panic!("{other:?}"),
        };
        assert_eq!(items.len(), 2);
        let mut batch = BatchWriter::new(&items);
        loop {
            match wal.write_batch(&batch, &listing(&disk)) {
                WriteStep::Evict(_) => unreachable!(),
                WriteStep::Rotate => {
                    let name = wal.close_segment(1000 + round);
                    disk.push((SegmentFile { name: name.clone(), size: 0 }, Vec::new()));
                    wal.begin_segment(name, &mut batch);
                }
                WriteStep::Append => {
                    disk.last_mut().unwrap().1.extend_from_slice(&batch.records[batch.written]);
                    wal.append_record(&mut batch);
                }
                WriteStep::Done => break,
            }
        }
    }
    // The segment is still being written, so it is not drained before recovery.
    assert!(matches!(next_drain(&wal, &listing(&disk)), IngestStep::Rest));
    match after_send(true, vec![Json::Null], &mut wal, &listing(&disk)) {
        IngestStep::Drain(0) => {}
        other => panic!("{other:?}"),
    }
    assert!(wal.current_segment.is_none());
    let reports = read_segment(&disk[0].1, usize::MAX);
    let texts: Vec<String> = reports.iter().map(json_text).collect();
    assert_eq!(texts, vec!["0", "\"x\"", "1", "\"x\""]);
    assert!(!is_drained(&reports, false));
    assert!(is_drained(&reports, true));
    assert!(is_drained(&Vec::new(), false));
    wal.delete_segment(disk.remove(0).1.len() as u64);
    assert_eq!(wal.total_bytes, 0);
    assert!(matches!(next_drain(&wal, &listing(&disk)), IngestStep::Rest));
}

#[test]
fn recovery_drains_the_oldest_segment_first() {
    let file = |name: &str| SegmentFile { name: name.to_string(), size: 1 };
    let disk = vec![file("buffer-1.wal"), file("buffer-2.wal")];
    let mut wal = WalBuffer::open(&disk, 1000, 100);
    assert!(matches!(after_send(true, Vec::new(), &mut wal, &disk), IngestStep::Drain(0)));
    assert!(matches!(after_send(true, Vec::new(), &mut wal, &Vec::new()), IngestStep::Rest));
}

#[test]
fn the_slowdown_begins_with_the_failure_that_reaches_the_limit() {
    let settings = settings();
    let mut scheduler = SchedulerHandle::new();
    let mut never = state(r#"{"id":"a"}"#);
    for failures in 1..=6u32 {
        finish_poll_with(
            &mut never, &mut scheduler, "a", false, &payload(), false, &settings, 0, EVEN,
        );
        assert_eq!((never.initial_failures, never.consecutive_failures), (failures, failures));
        let want = if failures >= 5 { 3600 * SECOND } else { 600 * SECOND };
        assert_eq!(never.next_due, want);
    }
    finish_poll_with(&mut never, &mut scheduler, "a", false, &payload(), true, &settings, 0, EVEN);
    assert_eq!((never.has_succeeded, never.consecutive_failures), (true, 0));
    finish_poll_with(&mut never, &mut scheduler, "a", false, &payload(), false, &settings, 0, EVEN);
    assert_eq!((never.initial_failures, never.next_due), (6, 600 * SECOND));
}
