use monitor::app::{best_user_match, fuzzy_bytes_score, App, TopTab, Update};
use monitor::pbs::{Job, JobState};

fn job(id: &str, state: JobState) -> Job {
    Job {
        id: id.into(),
        owner: "u".into(),
        queue: "q".into(),
        name: "n".into(),
        state,
        node: None,
        cpus: None,
        mem: None,
        req_walltime: None,
        elapsed: None,
    }
}

#[test]
fn tracks_running_jobs_and_wraps() {
    let mut app = App::new();
    app.apply(Update::Jobs(vec![
        job("1.h", JobState::Running),
        job("2.h", JobState::Queued),
        job("3.h", JobState::Running),
    ]));
    assert_eq!(app.running_count(), 2);
    assert_eq!(app.selected_job().unwrap().id, "1.h");
    app.next_job();
    assert_eq!(app.selected_job().unwrap().id, "3.h");
    app.next_job(); // wrap
    assert_eq!(app.selected_job().unwrap().id, "1.h");
    app.prev_job(); // wrap back
    assert_eq!(app.selected_job().unwrap().id, "3.h");
}

#[test]
fn keeps_selection_across_refresh_when_job_persists() {
    let mut app = App::new();
    app.apply(Update::Jobs(vec![job("1.h", JobState::Running), job("3.h", JobState::Running)]));
    app.next_job();
    assert_eq!(app.selected_job().unwrap().id, "3.h");
    // refresh: job 1 finished, 3 remains, 5 appears
    app.apply(Update::Jobs(vec![job("3.h", JobState::Running), job("5.h", JobState::Running)]));
    assert_eq!(app.selected_job().unwrap().id, "3.h");
}

#[test]
fn switching_job_keeps_tab_and_refollows_log() {
    let mut app = App::new();
    app.apply(Update::Jobs(vec![job("1.h", JobState::Running), job("2.h", JobState::Running)]));
    // Switching jobs must NOT change the active tab.
    app.top_tab = TopTab::Details;
    app.next_job();
    assert_eq!(app.top_tab, TopTab::Details);
    app.top_tab = TopTab::SystemLoad;
    // ...but it does re-pin the log to the new job's tail.
    app.log_follow = false;
    app.log_scroll = 5;
    app.prev_job();
    assert_eq!(app.top_tab, TopTab::SystemLoad);
    assert!(app.log_follow);
    assert_eq!(app.log_scroll, 0);
}

#[test]
fn log_replace_then_append() {
    let mut app = App::new();
    app.apply(Update::Log { lines: vec!["a".into(), "b".into()], replace: true });
    app.apply(Update::Log { lines: vec!["c".into()], replace: false });
    assert_eq!(app.log, vec!["a", "b", "c"]);
}

#[test]
fn tabs_cycle_three_ways() {
    let mut app = App::new();
    assert_eq!(app.top_tab, TopTab::SystemLoad);
    app.next_tab();
    assert_eq!(app.top_tab, TopTab::LogPreview);
    app.next_tab();
    assert_eq!(app.top_tab, TopTab::Details);
    app.next_tab();
    assert_eq!(app.top_tab, TopTab::SystemLoad);
    app.prev_tab();
    assert_eq!(app.top_tab, TopTab::Details);
    app.prev_tab();
    assert_eq!(app.top_tab, TopTab::LogPreview);
}

#[test]
fn scroll_acts_on_active_tab() {
    let mut app = App::new();
    // System Load tab active: scroll affects cluster_scroll and clears its follow.
    app.scroll_down();
    assert_eq!(app.cluster_scroll, 1);
    assert_eq!(app.log_scroll, 0);
    assert!(!app.cluster_follow);
    app.scroll_up();
    app.scroll_up(); // saturates at 0
    assert_eq!(app.cluster_scroll, 0);
    // Switch to Log tab: scroll now affects log_scroll and clears log_follow.
    app.next_tab();
    app.scroll_down();
    assert_eq!(app.log_scroll, 1);
    assert!(!app.log_follow);
    assert_eq!(app.cluster_scroll, 0);
    // End re-engages follow on the active tab.
    app.scroll_to_bottom();
    assert!(app.log_follow);
}

#[test]
fn details_update_and_scroll() {
    let mut app = App::new();
    app.apply(Update::Details {
        job: "15992.headnode".into(),
        text: "a\nb\nc".into(),
        output_path: None,
    });
    assert_eq!(app.details_job.as_deref(), Some("15992.headnode"));
    assert!(app.details.contains('b'));
    app.next_tab(); // SystemLoad -> LogPreview
    app.next_tab(); // LogPreview -> Details
    assert_eq!(app.top_tab, TopTab::Details);
    app.scroll_down();
    assert_eq!(app.details_scroll, 1);
    app.scroll_to_top();
    assert_eq!(app.details_scroll, 0);
}

#[test]
fn details_are_sanitized_for_terminal_safety() {
    let mut app = App::new();
    app.apply(Update::Details {
        job: "19008.headnode".into(),
        text: "Output_Path = host:/PBS_code-p\n\thysics.o\n\u{1b}[31mx\u{1b}[0m\r".into(),
        output_path: None,
    });
    assert!(!app.details.contains('\t'), "tabs must be expanded");
    assert!(!app.details.contains('\u{1b}'), "escape sequences must be dropped");
    assert!(!app.details.contains('\r'), "carriage returns must be dropped");
    // Line structure is preserved; the tab-led continuation is indented.
    assert_eq!(app.details, "Output_Path = host:/PBS_code-p\n        hysics.o\nx");
}

#[test]
fn page_scroll_uses_viewport_height() {
    let mut app = App::new();
    app.top_inner_h = 10; // as if a render set the page height
    app.page_down();
    assert_eq!(app.cluster_scroll, 10);
    assert!(!app.cluster_follow);
    app.page_up();
    assert_eq!(app.cluster_scroll, 0);
}

#[test]
fn fuzzy_user_match_and_input_flow() {
    let users: Vec<String> =
        ["wedi0306", "medea", "athu6617", "bhar9988"].iter().map(|s| s.to_string()).collect();
    // Prefix and subsequence matches resolve to the intended user.
    assert_eq!(best_user_match("wed", &users).as_deref(), Some("wedi0306"));
    assert_eq!(best_user_match("bhar", &users).as_deref(), Some("bhar9988"));
    assert_eq!(best_user_match("md", &users).as_deref(), Some("medea")); // subsequence m..d
    // No subsequence match at all -> None (caller falls back to raw text).
    assert_eq!(best_user_match("zzz", &users), None);

    // End-to-end: open clean box, type a fragment, confirm adopts the match.
    let mut app = App::new();
    app.user = "bhar9988".into();
    app.apply(Update::Users(users.clone()));
    app.begin_user_input();
    assert_eq!(app.input.as_deref(), Some("")); // starts empty
    for c in "wed".chars() {
        app.input_push(c);
    }
    assert_eq!(app.user_suggestion().as_deref(), Some("wedi0306"));
    assert_eq!(app.confirm_input().as_deref(), Some("wedi0306"));
    assert_eq!(app.user, "wedi0306");
    assert!(app.input.is_none());

    // A full name with no cluster jobs still switches (raw fallback).
    app.begin_user_input();
    for c in "newuser42".chars() {
        app.input_push(c);
    }
    assert_eq!(app.confirm_input().as_deref(), Some("newuser42"));
    assert_eq!(app.user, "newuser42");
}

#[test]
fn section_toggles_flip_flags() {
    let mut app = App::new();
    assert!(app.show_array && app.show_queued && app.show_running);
    app.toggle_array();
    app.toggle_queued();
    app.toggle_running();
    assert!(!app.show_array && !app.show_queued && !app.show_running);
}

// ---------------------------------------------------------------------------

#[test]
fn fuzzy_match_ignores_case() {
    // The query and the candidates are compared lower-cased.
    let users: Vec<String> = ["wedi0306", "Medea"].iter().map(|s| s.to_string()).collect();
    assert_eq!(best_user_match("WED", &users).as_deref(), Some("wedi0306"));
    assert_eq!(best_user_match("med", &users).as_deref(), Some("Medea"));
}

#[test]
fn fuzzy_empty_query_matches_nothing() {
    let users: Vec<String> = vec!["medea".to_string()];
    assert_eq!(best_user_match("", &users), None);
}

#[test]
fn prev_job_undoes_next_job_on_values() {
    let mut app = App::new();
    app.apply(Update::Jobs(vec![
        job("1.h", JobState::Running),
        job("2.h", JobState::Running),
        job("3.h", JobState::Running),
    ]));
    app.next_job();
    let before = app.selected;
    app.next_job();
    app.prev_job();
    assert_eq!(app.selected, before);
    assert_eq!(app.selected_job().unwrap().id, "2.h");
}

#[test]
fn next_job_without_running_jobs_changes_nothing() {
    let mut app = App::new();
    app.apply(Update::Jobs(vec![job("1.h", JobState::Queued)]));
    app.next_job();
    app.prev_job();
    assert_eq!(app.running_count(), 0);
    assert!(app.selected_job().is_none());
    assert_eq!(app.selected_ordinal(), 0);
}

#[test]
fn selection_falls_back_to_first_when_job_leaves() {
    let mut app = App::new();
    app.apply(Update::Jobs(vec![job("1.h", JobState::Running), job("2.h", JobState::Running)]));
    app.next_job();
    app.apply(Update::Jobs(vec![job("7.h", JobState::Running)]));
    assert_eq!(app.selected_job().unwrap().id, "7.h");
    assert_eq!(app.selected_job_id.as_deref(), Some("7.h"));
}

#[test]
fn scroll_down_then_up_returns_offset() {
    let mut app = App::new();
    app.cluster_scroll = 7;
    app.scroll_down();
    app.scroll_up();
    assert_eq!(app.cluster_scroll, 7);
    assert_eq!(app.log_scroll, 0);
    assert_eq!(app.details_scroll, 0);
}

#[test]
fn toggling_twice_restores_sections() {
    let mut app = App::new();
    let (a, q, r, c) = (app.show_array, app.show_queued, app.show_running, app.compact);
    app.toggle_array();
    app.toggle_array();
    app.toggle_queued();
    app.toggle_queued();
    app.toggle_running();
    app.toggle_running();
    assert_eq!((app.show_array, app.show_queued, app.show_running), (a, q, r));
    app.toggle_compact();
    assert_eq!(app.compact, !c);
    assert_eq!(app.compact_override, Some(!c));
}

#[test]
fn input_backspace_and_cancel() {
    let mut app = App::new();
    app.input_push('x'); // no box open: ignored
    assert!(app.input.is_none());
    app.begin_user_input();
    app.input_push('a');
    app.input_push('b');
    app.input_backspace();
    assert_eq!(app.input.as_deref(), Some("a"));
    app.input_backspace();
    app.input_backspace(); // empty stays empty
    assert_eq!(app.input.as_deref(), Some(""));
    app.cancel_input();
    assert!(app.input.is_none());
}

#[test]
fn confirm_of_blank_input_keeps_user() {
    let mut app = App::new();
    app.user = "medea".into();
    app.begin_user_input();
    app.input_push(' ');
    assert_eq!(app.confirm_input(), None);
    assert_eq!(app.user, "medea");
    assert!(app.input.is_none());
}

#[test]
fn error_update_is_recorded() {
    let mut app = App::new();
    app.apply(Update::Error { source: "qstat".into(), message: "boom".into() });
    let (msg, _) = app.last_error.clone().unwrap();
    assert!(msg.contains("qstat"));
    assert!(msg.contains("boom"));
}

#[test]
fn cluster_and_array_updates_are_stored() {
    let mut app = App::new();
    app.apply(Update::Cluster("graph".into()));
    app.apply(Update::Array(Some("bars".into())));
    assert_eq!(app.cluster, "graph");
    assert_eq!(app.array.as_deref(), Some("bars"));
    app.apply(Update::Array(None));
    assert_eq!(app.array, None);
}

#[test]
fn fuzzy_bytes_scores() {
    assert_eq!(fuzzy_bytes_score(b"wed", b"wedi0306"), Some(30));
    assert_eq!(fuzzy_bytes_score(b"md", b"medea"), Some(7));
    assert_eq!(fuzzy_bytes_score(b"zz", b"medea"), None);
    assert_eq!(fuzzy_bytes_score(b"", b"medea"), None);
}

#[test]
fn only_selected_running_row_is_highlighted() {
    let mut app = App::new();
    app.apply(Update::Jobs(vec![job("1.h", JobState::Running), job("2.h", JobState::Queued)]));
    assert!(app.row_highlighted(&app.jobs[0].clone(), true));
    assert!(!app.row_highlighted(&app.jobs[0].clone(), false));
    assert!(!app.row_highlighted(&app.jobs[1].clone(), true));
}
