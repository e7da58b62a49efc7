use monitor::app::Update;
use monitor::details::{cleared_details, details_update};
use monitor::pbs::{
    detail_after_failure, has_array_jobs, is_headnode, remote_command, job_number, output_path, parse_qstat, shell_quote, vanished_job_detail,
    JobState,
};
use std::path::PathBuf;

const SAMPLE: &str = "\nheadnode: \n                                                            Req'd  Req'd   Elap\nJob ID          Username Queue    Jobname    SessID NDS TSK Memory Time  S Time\n--------------- -------- -------- ---------- ------ --- --- ------ ----- - -----\n15992.headnode  bhar9988 l40s     code-phys* 669498   1  16   88gb 23:00 R 03:34 nodegpu02/3*0\n16001.headnode  bhar9988 batch    bigjob       --     1   8   32gb 10:00 Q   --    -- \n16050[3].headn  bhar9988 batch    arr*         --     1   1    4gb 02:00 R 00:05 cpunode01/2\n";

#[test]
fn parses_states_and_nodes() {
    let jobs = parse_qstat(SAMPLE);
    assert_eq!(jobs.len(), 3);

    assert_eq!(jobs[0].id, "15992.headnode");
    assert_eq!(jobs[0].state, JobState::Running);
    assert_eq!(jobs[0].node.as_deref(), Some("nodegpu02"));
    assert_eq!(jobs[0].owner, "bhar9988");
    assert_eq!(jobs[0].queue, "l40s");

    assert_eq!(jobs[1].state, JobState::Queued);
    assert_eq!(jobs[1].node, None);

    assert_eq!(jobs[2].state, JobState::Running);
    assert_eq!(jobs[2].node.as_deref(), Some("cpunode01"));
}

#[test]
fn ignores_headers_and_blank_lines() {
    assert_eq!(parse_qstat("\n\nheadnode: \nJob ID Username\n--- ---\n").len(), 0);
}

#[test]
fn detects_array_jobs() {
    let jobs = parse_qstat(SAMPLE);
    assert!(has_array_jobs(&jobs));
    assert_eq!(job_number("16050[3].headnode"), "16050");
    assert_eq!(job_number("15992.headnode"), "15992");
}

#[test]
fn parses_output_path_unwrapping_continuation() {
    // qstat -f wraps long values onto tab-indented continuation lines.
    let d = "    Job_Name = x\n    Output_Path = head.usyd.edu.au:/head3/MD/Tasks/localh\n\tost/VASP.out\n    Priority = 0\n";
    assert_eq!(
        output_path(d).map(PathBuf::from),
        Some(PathBuf::from("/head3/MD/Tasks/localhost/VASP.out"))
    );
    assert_eq!(output_path("no attribute here"), None);
}

#[test]
fn parses_resource_columns() {
    let jobs = parse_qstat(SAMPLE);
    assert_eq!(jobs[0].cpus, Some(16));
    assert_eq!(jobs[0].mem.as_deref(), Some("88gb"));
    assert_eq!(jobs[0].req_walltime.as_deref(), Some("23:00"));
    assert_eq!(jobs[0].elapsed.as_deref(), Some("03:34"));
    // queued job: Elap Time is "--", so elapsed is None
    assert_eq!(jobs[1].cpus, Some(8));
    assert_eq!(jobs[1].elapsed, None);
}

// ---------------------------------------------------------------------------

#[test]
fn held_and_other_states_and_no_arrays() {
    let raw = "1.headnode  u  q  n  --  1  2  1gb 01:00 H  --  --\n2.headnode  u  q  n  --  1  2  1gb 01:00 E  --  --\n";
    let jobs = parse_qstat(raw);
    assert_eq!(jobs.len(), 2);
    assert_eq!(jobs[0].state, JobState::Held);
    assert_eq!(jobs[1].state, JobState::Other('E'));
    assert!(!has_array_jobs(&jobs));
    assert_eq!(JobState::from_char('R'), JobState::Running);
    assert_eq!(JobState::from_char('Q'), JobState::Queued);
}

#[test]
fn output_path_without_host_prefix_is_kept_whole() {
    assert_eq!(output_path("Output_Path = /plain/path.o \n"), Some("/plain/path.o".to_string()));
    assert_eq!(output_path("\tOutput_Path = h:/a\n\tb\n\tc\nx = 1"), Some("/abc".to_string()));
}

#[test]
fn shell_quote_protects_quotes_and_brackets() {
    assert_eq!(shell_quote("16050[3].headnode"), "'16050[3].headnode'");
    assert_eq!(shell_quote("it's"), "'it'\\''s'");
    assert_eq!(shell_quote(""), "''");
}

#[test]
fn vanished_job_detail_only_for_unknown_jobs() {
    assert_eq!(
        vanished_job_detail("9.h", "qstat: Unknown Job Id 9.h").as_deref(),
        Some("Job 9.h is no longer available in the scheduler (it may have finished or been purged).")
    );
    assert!(vanished_job_detail("9.h", "error: unknown job id").is_some());
    assert_eq!(vanished_job_detail("9.h", "connection refused"), None);
}

#[test]
fn details_update_carries_output_path_or_error() {
    let text = "    Output_Path = h:/x/y.o\n".to_string();
    match details_update("5.h".to_string(), Ok(text.clone())) {
        Update::Details { job, text: t, output_path } => {
            assert_eq!(job, "5.h");
            assert_eq!(t, text);
            assert_eq!(output_path.as_deref(), Some("/x/y.o"));
        }
        _ => panic!("expected details"),
    }
    match details_update("5.h".to_string(), Err("ssh failed".to_string())) {
        Update::Details { job, text, output_path } => {
            assert_eq!(job, "5.h");
            assert_eq!(
                text,
                "Unable to fetch details for 5.h.\n\nssh failed\n\nTry pressing 'r' to refresh."
            );
            assert_eq!(output_path, None);
        }
        _ => panic!("expected details"),
    }
    match cleared_details() {
        Update::Details { job, text, output_path } => {
            assert!(job.is_empty() && text.is_empty() && output_path.is_none());
        }
        _ => panic!("expected details"),
    }
}

#[test]
fn remote_command_quotes_each_word() {
    assert_eq!(
        remote_command("qstat", &vec!["-t".to_string(), "16050[].headnode".to_string()]),
        "'qstat' '-t' '16050[].headnode'"
    );
    assert_eq!(remote_command("pbsnodes", &vec![]), "'pbsnodes'");
    assert!(is_headnode("headnode.physics\n"));
    assert!(is_headnode("  headnode2"));
    assert!(!is_headnode("cpunode01"));
}

#[test]
fn detail_fallback_order() {
    assert_eq!(
        detail_after_failure("9.h", "boom".into(), Ok("history".into())),
        Ok("history".to_string())
    );
    assert_eq!(
        detail_after_failure("9.h", "qstat: Unknown Job Id 9.h".into(), Err("x".into())),
        Ok("Job 9.h is no longer available in the scheduler (it may have finished or been purged).".to_string())
    );
    assert_eq!(detail_after_failure("9.h", "boom".into(), Err("x".into())), Err("boom".to_string()));
}
