use monitor::app::{App, TopTab, Update};
use monitor::keys::{command_for, Command, Key};
use monitor::pbs::{parse_qstat, Job, JobState};
use monitor::ui::{
    empty_bar, has_array_text, hhmm_to_mins, in_class, job_row, layout_slots, status_width,
    walltime_minutes, Slot,
};

fn job(id: &str, state: JobState) -> Job {
    Job {
        id: id.into(),
        owner: "u".into(),
        queue: "q".into(),
        name: "n".into(),
        state,
        node: None,
        cpus: None,
        mem: None,
        req_walltime: None,
        elapsed: None,
    }
}

#[test]
fn hhmm_parses_hours_and_minutes() {
    assert_eq!(hhmm_to_mins("23:00"), Some(1380));
    assert_eq!(hhmm_to_mins("03:34"), Some(214));
    assert_eq!(hhmm_to_mins("100:05:59"), Some(6005));
    assert_eq!(hhmm_to_mins(" 1 : 2 "), Some(62));
    assert_eq!(hhmm_to_mins("--"), None);
    assert_eq!(hhmm_to_mins("12"), None);
    assert_eq!(hhmm_to_mins("a:10"), None);
    assert_eq!(hhmm_to_mins("307445734561825861:00"), None); // minutes overflow
}

#[test]
fn walltime_minutes_need_a_nonzero_request() {
    assert_eq!(walltime_minutes("03:34", "23:00"), Some((214, 1380)));
    assert_eq!(walltime_minutes("03:34", "00:00"), None);
    assert_eq!(walltime_minutes("--", "23:00"), None);
    assert_eq!(empty_bar(8), "[--------] ---");
    assert_eq!(empty_bar(0), "[] ---");
}

#[test]
fn job_rows_for_running_and_queued() {
    let jobs = parse_qstat("15992.headnode  bhar9988 l40s     code-phys* 669498   1  16   88gb 23:00 R 03:34 nodegpu02/3*0\n16001.headnode  bhar9988 batch    bigjob       --     1   8   32gb 10:00 Q   --    -- \n");
    assert_eq!(
        job_row(&jobs[0], true, "[####----]  50%"),
        "15992.headnode  code-phys*  16c    88gb  [####----]  50%  nodegpu02"
    );
    assert_eq!(job_row(&jobs[1], false, ""), "16001.headnode  bigjob       8c    32gb  Q  req 10:00");
    assert_eq!(
        job_row(&job("1.h", JobState::Other('E')), false, ""),
        "1.h             n            --      --  ?  req --"
    );
}

#[test]
fn job_classes_split_running_from_waiting() {
    assert!(in_class(&JobState::Running, true));
    assert!(!in_class(&JobState::Queued, true));
    assert!(in_class(&JobState::Queued, false));
    assert!(in_class(&JobState::Held, false));
    assert!(!in_class(&JobState::Other('E'), false));
    assert!(!in_class(&JobState::Running, false));
}

#[test]
fn layout_shows_only_nonempty_enabled_sections() {
    let all = layout_slots(2, 1, Some(3), true, true, true);
    assert_eq!(
        all,
        vec![
            (Slot::Top, 3),
            (Slot::Gap, 1),
            (Slot::Running, 3),
            (Slot::Gap, 1),
            (Slot::Queued, 2),
            (Slot::Gap, 1),
            (Slot::Array, 4),
            (Slot::Status, 1),
        ]
    );
    assert_eq!(layout_slots(0, 1, None, true, false, true), vec![(Slot::Top, 3), (Slot::Status, 1)]);
    assert!(has_array_text(&Some("x".into())));
    assert!(!has_array_text(&Some(" \n ".into())));
    assert!(!has_array_text(&None));
    assert_eq!(status_width(200), 48);
    assert_eq!(status_width(60), 20);
    assert_eq!(status_width(30), 0);
}

#[test]
fn settle_top_follows_and_clamps() {
    let mut app = App::new();
    // Following: pinned to the bottom.
    assert_eq!(app.settle_top(30, 10), 20);
    assert_eq!(app.cluster_scroll, 20);
    assert_eq!(app.top_inner_h, 10);
    // Not following: clamped to the last page, and reaching it re-engages follow.
    app.cluster_follow = false;
    app.cluster_scroll = 50;
    assert_eq!(app.settle_top(30, 10), 20);
    assert!(app.cluster_follow);
    app.cluster_follow = false;
    app.cluster_scroll = 5;
    assert_eq!(app.settle_top(30, 10), 5);
    assert!(!app.cluster_follow);
    // Short content: nothing to scroll.
    app.top_tab = TopTab::Details;
    assert_eq!(app.settle_top(3, 10), 0);
}

#[test]
fn freshness_line_reports_selection_ages_and_error() {
    let mut app = App::new();
    assert_eq!(app.freshness_text(None, None), "no running jobs \u{b7} load -- \u{b7} jobs -- ");
    app.apply(Update::Jobs(vec![job("1.h", JobState::Running), job("2.h", JobState::Running)]));
    app.next_job();
    assert_eq!(app.freshness_text(Some(3), Some(12)), "job 2/2 2.h \u{b7} load 3s \u{b7} jobs 12s ");
    app.apply(Update::Error { source: "qstat".into(), message: "down".into() });
    assert!(app.freshness_text(None, None).starts_with("!qstat: down \u{b7} job 2/2"));
}

#[test]
fn key_bindings_browse_and_type() {
    assert_eq!(command_for(Key::Char('c'), true, true), Command::Quit);
    assert_eq!(command_for(Key::Char('c'), true, false), Command::Quit);
    assert_eq!(command_for(Key::Char('c'), false, false), Command::ToggleCompact);
    assert_eq!(command_for(Key::Esc, false, false), Command::Quit);
    assert_eq!(command_for(Key::Esc, false, true), Command::CancelInput);
    assert_eq!(command_for(Key::Enter, false, true), Command::ConfirmInput);
    assert_eq!(command_for(Key::Char('q'), false, true), Command::Type('q'));
    assert_eq!(command_for(Key::Char('q'), false, false), Command::ToggleQueued);
    assert_eq!(command_for(Key::Char('r'), false, false), Command::ToggleRunning);
    assert_eq!(command_for(Key::Char('r'), true, false), Command::Refresh);
    assert_eq!(command_for(Key::Char('k'), false, false), Command::ScrollUp);
    assert_eq!(command_for(Key::Down, false, false), Command::ScrollDown);
    assert_eq!(command_for(Key::Char('G'), false, false), Command::ScrollBottom);
    assert_eq!(command_for(Key::Home, false, false), Command::ScrollTop);
    assert_eq!(command_for(Key::Char('.'), false, false), Command::NextJob);
    assert_eq!(command_for(Key::Char(','), false, false), Command::PrevJob);
    assert_eq!(command_for(Key::Left, false, false), Command::PrevTab);
    assert_eq!(command_for(Key::PageDown, false, false), Command::PageDown);
    assert_eq!(command_for(Key::Char('u'), false, false), Command::BeginInput);
    assert_eq!(command_for(Key::Char('z'), false, false), Command::Nothing);
    assert_eq!(command_for(Key::Left, false, true), Command::Nothing);
    assert_eq!(command_for(Key::Backspace, false, true), Command::Backspace);
}
