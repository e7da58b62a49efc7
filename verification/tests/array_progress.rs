use monitor::qarray::{array_bases, render_array, render_array_progress, tally};

#[test]
fn finds_array_bases() {
    let w = "\
Job id                    Name    User      Time Use S Queue
------------------------  ------  --------  -------- - -----
18152.headnode            vasp    medea     8875:31* R jasper
19630[].headnode          seq     anly2178         0 B physics
19657[].headnode          seq     anly2178         0 B physics
";
    assert_eq!(array_bases(w), vec!["19630[].headnode", "19657[].headnode"]);
}

const DETAIL: &str = "\
Job id             Name  User   Time Use S Queue
-----------------  ----  -----  -------- - -----
19630[].headnode   seq   anly          0 B physics
19630[0].headnode  seq   anly   00:10:00 X physics
19630[1].headnode  seq   anly   00:20:00 X physics
19630[2].headnode  seq   anly   00:05:00 R physics
19630[3].headnode  seq   anly          0 Q physics
";

#[test]
fn tallies_states_and_times() {
    let s = tally(DETAIL, "19630");
    assert_eq!(s.total, 4); // [0..3]; the [] master is skipped
    assert_eq!(s.completed, 2);
    assert_eq!(s.running, 1);
    assert_eq!(s.queued, 1);
    assert_eq!(s.total_time, 1800); // 600 + 1200
    assert_eq!(s.time_count, 2);
}

#[test]
fn renders_bar_percentages_and_eta() {
    let out = render_array("19630[].headnode", DETAIL).unwrap();
    assert!(out.starts_with("19630[].headnode ")); // base, then bar
    assert!(out.contains("50% done (2/4)"));
    assert!(out.contains("75% active"));
    // avg = 1800/2 = 900s = 15m; remaining = 1, running 1 -> 1 batch -> est 1800s = 30m.
    assert!(out.contains("ETA: 30m 0s"));
    assert!(out.contains("Avg: 15m 0s"));
}

#[test]
fn no_subjobs_returns_none() {
    let only_master = "19630[].headnode  seq  anly  0 B physics\n";
    assert_eq!(render_array("19630[].headnode", only_master), None);
}

#[test]
fn all_done_has_no_eta() {
    let d = "\
19630[0].headnode  s  u  0 X q
19630[1].headnode  s  u  0 X q
";
    let out = render_array("19630[].headnode", d).unwrap();
    assert!(out.contains("100% done (2/2)"));
    assert!(!out.contains("ETA"));
}

// ---------------------------------------------------------------------------

#[test]
fn array_bases_are_sorted_and_unique() {
    let w = "\
19657[].headnode  seq  a  0 B p
19630[].headnode  seq  a  0 B p
19657[].headnode  seq  a  0 B p
19630[4].headnode seq  a  0 R p
";
    assert_eq!(array_bases(w), vec!["19630[].headnode", "19657[].headnode"]);
    assert!(array_bases("").is_empty());
}

#[test]
fn tally_ignores_other_arrays_and_bad_times() {
    let d = "\
19630[0].headnode  s  u  xx:10 X q
19631[0].headnode  s  u  00:10:00 X q
19630[1].headnode  s  u  01:00:00 R q
19630[2].headnode  s  u  0 H q
";
    let s = tally(d, "19630");
    assert_eq!(s.total, 3);
    assert_eq!(s.completed, 1);
    assert_eq!(s.running, 1);
    assert_eq!(s.queued, 0); // held subjobs count toward the total only
    assert_eq!(s.total_time, 0);
    assert_eq!(s.time_count, 0);
}

#[test]
fn progress_lines_join_only_arrays_with_subjobs() {
    let bases = vec!["19630[].headnode".to_string(), "19700[].headnode".to_string()];
    let details = vec![DETAIL.to_string(), "19700[].headnode  s  u  0 B q\n".to_string()];
    let out = render_array_progress(&bases, &details);
    assert_eq!(out, render_array("19630[].headnode", DETAIL).unwrap());
    let twice = render_array_progress(
        &vec![bases[0].clone(), bases[0].clone()],
        &vec![DETAIL.to_string(), DETAIL.to_string()],
    );
    assert_eq!(twice, format!("{}\n{}", out, out));
    assert_eq!(render_array_progress(&vec![], &vec![]), "");
}
