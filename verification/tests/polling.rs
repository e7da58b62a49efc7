use monitor::app::Update;
use monitor::pbs::{parse_qstat};
use monitor::details::latest_request;
use monitor::poller::{
    array_poll, cluster_poll, command_plan, jobs_poll, poll_sequence, user_after, PollCmd, PollSource,
    Polls, Schedule,
};
use monitor::qlload::UserLoad;
use monitor::ssh::{controlmaster_block, controlmaster_update, has_controlmaster};

#[test]
fn schedule_polls_due_sources_only() {
    let mut s = Schedule::new(10_000, 30_000, 0);
    assert_eq!(s.wait(0), 10_000);
    assert_eq!(s.wait(4_000), 6_000);
    assert_eq!(s.on_timeout(9_999), Polls { jobs: false, cluster: false });
    assert_eq!(s.on_timeout(10_000), Polls { jobs: true, cluster: false });
    assert_eq!(s.next_jobs, 20_000);
    assert_eq!(s.next_cluster, 30_000);
    assert_eq!(s.wait(25_000), 0);
    assert_eq!(s.on_timeout(31_000), Polls { jobs: true, cluster: true });
    assert_eq!((s.next_jobs, s.next_cluster), (41_000, 61_000));
    s.restart(35_000);
    assert_eq!((s.next_jobs, s.next_cluster), (45_000, 65_000));
}

#[test]
fn commands_switch_or_keep_the_user() {
    assert_eq!(user_after(PollCmd::SetUser("medea".into()), "bhar".into()), "medea");
    assert_eq!(user_after(PollCmd::Refresh, "bhar".into()), "bhar");
}

#[test]
fn jobs_poll_reports_jobs_or_error() {
    let jobs = parse_qstat("16050[3].headn  bhar9988 batch    arr*         --     1   1    4gb 02:00 R 00:05 cpunode01/2\n");
    let (ups, arrays) = jobs_poll(Ok(jobs.clone()));
    assert!(arrays);
    assert_eq!(ups.len(), 1);
    assert!(matches!(&ups[0], Update::Jobs(j) if *j == jobs));
    let (ups, arrays) = jobs_poll(Ok(vec![]));
    assert!(!arrays);
    assert_eq!(ups.len(), 2);
    assert!(matches!(&ups[0], Update::Jobs(j) if j.is_empty()));
    assert!(matches!(&ups[1], Update::Array(None)));
    let (ups, arrays) = jobs_poll(Err("no route".into()));
    assert!(!arrays);
    assert!(matches!(&ups[0], Update::Error { source, message } if source == "qstat" && message == "no route"));
}

#[test]
fn array_and_cluster_polls() {
    assert!(matches!(array_poll(Ok("bar".into())), Update::Array(Some(t)) if t == "bar"));
    assert!(matches!(array_poll(Err("x".into())), Update::Error { source, .. } if source == "qarray"));
    let rows = vec![UserLoad { name: "a".into(), cores: 1, pending: 0, secs: None, color: 0, highlighted: false }];
    let ups = cluster_poll(Ok(("graph".into(), vec!["a".into()], rows)));
    assert_eq!(ups.len(), 3);
    assert!(matches!(&ups[0], Update::Cluster(g) if g == "graph"));
    assert!(matches!(&ups[1], Update::Users(u) if u == &vec!["a".to_string()]));
    assert!(matches!(&ups[2], Update::UserLoad(r) if r.len() == 1));
    let ups = cluster_poll(Err("down".into()));
    assert_eq!(ups.len(), 1);
    assert!(matches!(&ups[0], Update::Error { source, message } if source == "qlload" && message == "down"));
}

#[test]
fn controlmaster_block_is_marked_once() {
    let block = controlmaster_block("/home/u/.ssh/cm");
    assert_eq!(
        block,
        "\n# monitor: headnode connection multiplexing\nHost headnode\n    ControlMaster auto\n    ControlPath /home/u/.ssh/cm/cm-%r@%h:%p\n    ControlPersist 60s\n"
    );
    assert!(has_controlmaster(&format!("Host other\n    User x\n{}", block)));
    assert!(!has_controlmaster("Host other\n    User x\n"));
}

#[test]
fn commands_poll_both_jobs_first() {
    let (u, p) = command_plan(PollCmd::SetUser("medea".into()), "bhar".into());
    assert_eq!(u, "medea");
    assert_eq!(p, Polls { jobs: true, cluster: true });
    assert_eq!(poll_sequence(p), vec![PollSource::Jobs, PollSource::Cluster]);
    let (u, _) = command_plan(PollCmd::Refresh, u);
    assert_eq!(u, "medea");
    assert_eq!(poll_sequence(Polls { jobs: false, cluster: true }), vec![PollSource::Cluster]);
    assert!(poll_sequence(Polls { jobs: false, cluster: false }).is_empty());
}

#[test]
fn controlmaster_appended_once() {
    let first = controlmaster_update("Host other\n", "/d").unwrap();
    assert_eq!(first, controlmaster_block("/d"));
    let after = format!("Host other\n{}", first);
    assert_eq!(controlmaster_update(&after, "/d"), None);
}

#[test]
fn only_latest_detail_request_is_served() {
    assert_eq!(latest_request(Some("1.h".into()), vec![]), Some("1.h".to_string()));
    assert_eq!(latest_request(Some("1.h".into()), vec![Some("2.h".into()), None]), None);
    assert_eq!(latest_request(None, vec![None, Some("3.h".into())]), Some("3.h".to_string()));
}

#[test]
fn creates_config_when_missing() {
    let changed = controlmaster_update("", "/home/u/.ssh/cm");
    assert!(changed.is_some());
    assert_eq!(changed.unwrap(), controlmaster_block("/home/u/.ssh/cm"));
}
