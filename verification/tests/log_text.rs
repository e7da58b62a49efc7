use monitor::app::Update;
use monitor::logs::{
    array_task_log, fallback_log_name, is_job_log, log_changed, log_delta_update,
    log_switch_update, may_use_output_path, no_log_message, pick_log, sanitize_lines,
    sanitize_log_line, trim_partial_first_line, LogChoice, LogEntry, LogStep, LogTarget, LogWatch,
    WatchEvent,
};

#[test]
fn sanitize_expands_tabs_to_eight_col_stops() {
    // "From worker 3:" is 14 chars; the tab fills to column 16.
    let line = "From worker 3:\t\u{250c} Info: hi";
    let out = sanitize_log_line(line);
    assert_eq!(out, "From worker 3:  \u{250c} Info: hi");
    // No tab or other control byte survives.
    assert!(!out.contains('\t'));
    // Box-drawing characters are not controls and must be preserved.
    assert!(out.contains('\u{250c}'));
}

#[test]
fn sanitize_strips_ansi_and_control_bytes() {
    let line = "\u{1b}[31mERROR\u{1b}[0m boom\r\u{7}";
    let out = sanitize_log_line(line);
    assert_eq!(out, "ERROR boom");
    assert!(!out.contains('\u{1b}'));
    assert!(!out.contains('\r'));
}

#[test]
fn sanitize_tab_stop_resets_each_call() {
    // A leading tab from column 0 expands to a full 8 spaces.
    assert_eq!(sanitize_log_line("\tx"), "        x");
    // Plain text is untouched.
    assert_eq!(sanitize_log_line("plain line"), "plain line");
}

// ---------------------------------------------------------------------------

#[test]
fn sanitize_drops_lone_escape_and_unterminated_csi() {
    assert_eq!(sanitize_log_line("a\u{1b}b"), "ab");
    assert_eq!(sanitize_log_line("a\u{1b}[12;3"), "a");
    assert_eq!(sanitize_log_line("ab\tc"), "ab      c");
    assert_eq!(sanitize_log_line("\u{7f}z\u{85}"), "z");
}

#[test]
fn sanitize_lines_splits_and_cleans() {
    let v = sanitize_lines("a\tb\r\nc\n\nd");
    assert_eq!(v, vec!["a       b", "c", "", "d"]);
    assert!(sanitize_lines("").is_empty());
}

#[test]
fn tail_drops_partial_first_line_only_mid_file() {
    assert_eq!(trim_partial_first_line("ne5\nline6\n", 40), "line6\n");
    assert_eq!(trim_partial_first_line("line0\nline1\n", 0), "line0\nline1\n");
    assert_eq!(trim_partial_first_line("no newline", 3), "no newline");
}

#[test]
fn no_log_message_has_four_lines() {
    let m = no_log_message();
    assert_eq!(m.len(), 4);
    assert_eq!(m[0], "No log file found for this job.");
    assert_eq!(m[1], "");
    assert!(m[2].contains("~/.jobs/$PBS_JOBID.log"));
}

#[test]
fn array_task_log_names_dir_and_file() {
    assert_eq!(
        array_task_log("16050[3].headnode"),
        Some(("16050[]".to_string(), "3.log".to_string()))
    );
    assert_eq!(array_task_log("16050[].headnode"), None);
    assert_eq!(array_task_log("14156.headnode"), None);
    assert_eq!(array_task_log("1]2[3"), None);
}

#[test]
fn regular_log_names_match_by_number_and_suffix() {
    assert!(is_job_log("14156.headnode.log", "14156.headnode"));
    assert!(is_job_log("14156-run.log", "14156.headnode"));
    assert!(!is_job_log("14156.headnode.txt", "14156.headnode"));
    assert!(!is_job_log("99.log", "14156.headnode"));
    assert_eq!(fallback_log_name("16050[3].headnode"), "16050[3].headnode.log");
}

#[test]
fn log_switch_update_reads_or_explains() {
    match log_switch_update(Some("x\ty\nz".to_string())) {
        Update::Log { lines, replace } => {
            assert_eq!(lines, vec!["x       y", "z"]);
            assert!(replace);
        }
        _ => panic!("expected a log update"),
    }
    match log_switch_update(None) {
        Update::Log { lines, replace } => {
            assert_eq!(lines, no_log_message());
            assert!(replace);
        }
        _ => panic!("expected a log update"),
    }
}

#[test]
fn log_delta_update_appends_or_replaces() {
    match log_delta_update("new\n", false) {
        Some(Update::Log { lines, replace }) => {
            assert_eq!(lines, vec!["new"]);
            assert!(!replace);
        }
        _ => panic!("expected an append"),
    }
    match log_delta_update("", true) {
        Some(Update::Log { lines, replace }) => {
            assert!(lines.is_empty());
            assert!(replace);
        }
        _ => panic!("expected a replace"),
    }
    assert!(log_delta_update("", false).is_none());
    assert!(log_changed(10, 12));
    assert!(log_changed(10, 3));
    assert!(!log_changed(10, 10));
}

#[test]
fn log_target_switches_then_retries_until_found() {
    let mut t = LogTarget::new();
    let sel = Some("1.h".to_string());
    assert_eq!(t.step(&sel), LogStep::Switch);
    t.switched(false);
    assert_eq!(t.step(&sel), LogStep::Retry);
    t.retried(false);
    assert_eq!(t.step(&sel), LogStep::Retry);
    t.retried(true);
    assert_eq!(t.step(&sel), LogStep::Idle);
    // Deselecting is a switch that needs no file.
    assert_eq!(t.step(&None), LogStep::Switch);
    t.switched(false);
    assert_eq!(t.step(&None), LogStep::Idle);
}

#[test]
fn output_path_fallback_only_for_followed_job() {
    assert!(may_use_output_path(&Some("1.h".to_string()), "1.h"));
    assert!(!may_use_output_path(&Some("2.h".to_string()), "1.h"));
    assert!(!may_use_output_path(&None, "1.h"));
}

fn log_lines(u: Option<Update>) -> Option<(Vec<String>, bool)> {
    match u {
        Some(Update::Log { lines, replace }) => Some((lines, replace)),
        Some(_) => panic!("expected a log update"),
        None => None,
    }
}

#[test]
fn watcher_switches_then_appends() {
    let mut w = LogWatch::new();
    let u = w.step(WatchEvent::Switched { path: true, read: Some(("a\tb\nc\n".to_string(), 6)) });
    assert_eq!(log_lines(u), Some((vec!["a       b".to_string(), "c".to_string()], true)));
    assert_eq!(w, LogWatch { following: true, offset: 6 });
    assert!(!w.wants_read(6));
    assert!(w.wants_read(9));
    let u = w.step(WatchEvent::Observed { len: 9, read: Some(("d\n".to_string(), 9)) });
    assert_eq!(log_lines(u), Some((vec!["d".to_string()], false)));
    assert_eq!(w.offset, 9);
    // Truncation replaces the preview.
    let u = w.step(WatchEvent::Observed { len: 2, read: Some(("x\n".to_string(), 2)) });
    assert_eq!(log_lines(u), Some((vec!["x".to_string()], true)));
    // Unchanged length: nothing.
    assert!(log_lines(w.step(WatchEvent::Observed { len: 2, read: None })).is_none());
    // Unreadable path: the no-log message, and the file is still watched.
    let u = w.step(WatchEvent::Switched { path: true, read: None });
    assert_eq!(log_lines(u), Some((no_log_message(), true)));
    assert_eq!(w, LogWatch { following: true, offset: 0 });
    // No path: quiet afterwards.
    let u = w.step(WatchEvent::Switched { path: false, read: None });
    assert_eq!(log_lines(u), Some((no_log_message(), true)));
    assert!(log_lines(w.step(WatchEvent::Observed { len: 5, read: Some(("y".to_string(), 5)) })).is_none());
}

fn entry(name: &str, is_dir: bool, is_file: bool, has_task_log: bool) -> LogEntry {
    LogEntry { name: name.into(), is_dir, is_file, has_task_log }
}

#[test]
fn pick_log_search_order() {
    let es = vec![
        entry("16050.headnode.log", false, true, false),
        entry("16050[].headnode", true, false, false),
        entry("16050[].headnode-b", true, false, true),
    ];
    assert_eq!(pick_log(&es, "16050[3].headnode", true), LogChoice::TaskLog(2));
    assert_eq!(pick_log(&es, "16050.headnode", true), LogChoice::File(0));
    let dirs = vec![entry("16050[].headnode", true, false, false), entry("16050[].b", true, false, true)];
    assert_eq!(pick_log(&dirs, "16050.headnode", true), LogChoice::Fallback);
    assert_eq!(pick_log(&vec![], "16050.headnode", false), LogChoice::NotFound);
    // A task whose directory lacks its file falls back to the job-number files.
    let es2 = vec![entry("16050[].headnode", true, false, false), entry("16050.x.log", false, true, false)];
    assert_eq!(pick_log(&es2, "16050[3].headnode", false), LogChoice::File(1));
}
