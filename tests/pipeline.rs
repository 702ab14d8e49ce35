use lm_log::config::{LoggerBuilder, LoggerConfig};
use lm_log::format::{display_line, level_label, persisted_line, render, should_emit, LogLevel};
use lm_log::worker::{render_lines, retain_tail, Action, Event, WriterState, ROLL_BATCH};

fn config(debug: bool, record: bool, color: bool) -> LoggerConfig {
    LoggerBuilder::new().debug(debug).record(record).color(color).build()
}

/// Drives a writer over `lines` and then a shutdown, keeping the file as a
/// list of lines the way the writer thread keeps it on disk.
fn drive(roll: u64, lines: &[String]) -> Vec<String> {
    let mut state = WriterState::new(roll);
    let mut file: Vec<String> = Vec::new();
    let mut events: Vec<Event> = lines.iter().map(|l| Event::Line(l.clone())).collect();
    events.push(Event::Shutdown);
    for event in events {
        match state.step(event) {
            Action::Write { line, roll_check } => {
                file.push(line);
                if roll_check {
                    if let Some(tail) = retain_tail(file.clone(), state.roll()) {
                        file = tail;
                    }
                }
            }
            Action::Flush => {}
            Action::Stop => break,
        }
    }
    file
}

fn numbered(n: usize) -> Vec<String> {
    (0..n).map(|i| format!("line {}", i)).collect()
}

#[test]
fn builder_defaults() {
    let b = LoggerBuilder::new();
    assert!(!b.debug);
    assert!(!b.record);
    assert_eq!(b.roll, 0);
    assert!(!b.color);
    assert_eq!(b.time_zone, "Asia/Shanghai");
}

#[test]
fn builder_chain_sets_every_option() {
    let c = LoggerBuilder::new()
        .debug(true)
        .record(true)
        .roll(1000)
        .color(true)
        .time_zone("Europe/Paris")
        .build();
    assert!(c.debug);
    assert!(c.record);
    assert_eq!(c.roll, 1000);
    assert!(c.color);
    assert_eq!(c.time_zone, "Europe/Paris");
    assert!(c.needs_writer());
}

#[test]
fn disabled_record_needs_no_writer() {
    let c = config(false, false, false);
    assert!(!c.needs_writer());
    let r = render(&c, LogLevel::Info, "t", "m", "").unwrap();
    assert!(r.persisted.is_none());
}

#[test]
fn labels_of_levels() {
    assert_eq!(level_label(LogLevel::Debug), "调试");
    assert_eq!(level_label(LogLevel::Info), "信息");
    assert_eq!(level_label(LogLevel::Warning), "警告");
    assert_eq!(level_label(LogLevel::Error), "错误");
}

#[test]
fn debug_gated_off_by_default() {
    let c = config(false, true, false);
    assert!(!should_emit(&c, LogLevel::Debug));
    assert!(should_emit(&c, LogLevel::Info));
    assert!(should_emit(&c, LogLevel::Warning));
    assert!(should_emit(&c, LogLevel::Error));
    assert!(render(&c, LogLevel::Debug, "t", "hidden", "").is_none());
}

#[test]
fn debug_emitted_when_enabled() {
    let c = config(true, true, false);
    let r = render(&c, LogLevel::Debug, "T", "shown", "").unwrap();
    assert_eq!(r.display, "T [调试] shown");
    assert_eq!(r.persisted.unwrap(), "|T|调试|shown");
}

#[test]
fn persisted_line_format() {
    assert_eq!(
        persisted_line("2025年7月29日 16:30", LogLevel::Info, "hello"),
        "|2025年7月29日 16:30|信息|hello"
    );
}

#[test]
fn persisted_line_splits_into_three_fields() {
    let line = persisted_line("2025年7月29日 16:30", LogLevel::Warning, "disk almost full");
    let pieces: Vec<&str> = line.split('|').collect();
    assert_eq!(pieces, vec!["", "2025年7月29日 16:30", "警告", "disk almost full"]);
}

#[test]
fn display_line_plain_and_colored() {
    assert_eq!(display_line("T", LogLevel::Error, "boom", None), "T [错误] boom");
    assert_eq!(
        display_line("T", LogLevel::Error, "boom", Some("\x1b[38;2;255;0;0m")),
        "T \x1b[38;2;255;0;0m[错误] boom\x1b[0m"
    );
}

#[test]
fn colored_render_keeps_file_line_plain() {
    let c = config(false, true, true);
    let r = render(&c, LogLevel::Info, "T", "m", "\x1b[38;2;0;255;0m").unwrap();
    assert_eq!(r.display, "T \x1b[38;2;0;255;0m[信息] m\x1b[0m");
    assert_eq!(r.persisted.unwrap(), "|T|信息|m");
}

#[test]
fn writer_events_to_actions() {
    let mut s = WriterState::new(0);
    assert!(matches!(s.step(Event::Timeout), Action::Flush));
    match s.step(Event::Line("x".to_string())) {
        Action::Write { line, roll_check } => {
            assert_eq!(line, "x");
            assert!(!roll_check);
        }
        _ => panic!("expected a write"),
    }
    assert!(matches!(s.step(Event::Shutdown), Action::Stop));
    assert!(matches!(s.step(Event::Disconnected), Action::Stop));
}

#[test]
fn roll_check_every_batch_only_when_rolling() {
    let mut rolling = WriterState::new(50);
    let mut plain = WriterState::new(0);
    for i in 1..=(3 * ROLL_BATCH) {
        let a = rolling.step(Event::Line(format!("{}", i)));
        let b = plain.step(Event::Line(format!("{}", i)));
        match (a, b) {
            (Action::Write { roll_check: ra, .. }, Action::Write { roll_check: rb, .. }) => {
                assert_eq!(ra, i % ROLL_BATCH == 0);
                assert!(!rb);
            }
            _ => panic!("expected writes"),
        }
    }
}

#[test]
fn retain_tail_keeps_last_lines() {
    let lines = numbered(250);
    let tail = retain_tail(lines.clone(), 50).unwrap();
    assert_eq!(tail.len(), 50);
    assert_eq!(tail[0], "line 200");
    assert_eq!(tail[49], "line 249");
    assert!(retain_tail(lines.clone(), 250).is_none());
    assert!(retain_tail(Vec::new(), 0).is_none());
    assert_eq!(retain_tail(numbered(3), 0).unwrap().len(), 0);
}

#[test]
fn render_lines_ends_each_line() {
    assert_eq!(render_lines(&vec!["a".to_string(), "b".to_string()]), "a\nb\n");
    assert_eq!(render_lines(&Vec::new()), "");
}

#[test]
fn ordering_is_kept() {
    let file = drive(0, &["A".to_string(), "B".to_string(), "C".to_string()]);
    assert_eq!(file, vec!["A", "B", "C"]);
}

#[test]
fn rolling_boundary_250_lines_limit_50() {
    let lines = numbered(250);
    let file = drive(50, &lines);
    assert!(file.len() <= 50 + 99);
    assert_eq!(file.len(), 100);
    assert_eq!(file[..], lines[150..]);
}

#[test]
fn rolling_exactly_at_boundary() {
    let lines = numbered(200);
    let file = drive(50, &lines);
    assert_eq!(file[..], lines[150..]);
}

#[test]
fn shutdown_keeps_all_ten_lines() {
    let lines = numbered(10);
    assert_eq!(drive(50, &lines), lines);
    assert_eq!(drive(0, &lines), lines);
}

#[test]
fn no_rolling_keeps_everything() {
    let lines = numbered(350);
    assert_eq!(drive(0, &lines), lines);
}
