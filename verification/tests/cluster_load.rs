use monitor::qlload::{
    compute_userload, merge_vnodes, mem_is_nan, parse_jobs, parse_mem, parse_nodes, render, render_userload_ansi,
    render_with_users, userload_cells, users_of, Palette, UserLoad,
};

const JOBS: &str = "\
Job Id: 18197.headnode
    Job_Name = T-VASP
    Job_Owner = medea@headnode.physics.usyd.edu.au
    resources_used.walltime = 100:00:00
    job_state = R
    queue = jasper_cpu
    Resource_List.ncpus = 42
    Resource_List.walltime = 350:00:00

Job Id: 21173.headnode
    Job_Owner = bhar9988@headnode.physics.usyd.edu.au
    job_state = R
    Resource_List.ncpus = 16
    Resource_List.walltime = 23:00:00
    resources_used.walltime = 03:00:00

Job Id: 21200.headnode
    Job_Owner = bhar9988@headnode.physics.usyd.edu.au
    job_state = Q
    Resource_List.ncpus = 8
    Resource_List.walltime = 10:00:00
";

const NODES: &str = "\
nodegpu02[2]
     state = free
     jobs = 21173.headnode/0, 19657[62].headnode/1
     resources_available.mem = 63437mb
     resources_available.ncpus = 16
     resources_available.ngpus = 2
     resources_assigned.mem = 30000mb
     resources_assigned.ngpus = 1

cmt01[0]
     state = job-busy
     jobs = 18197.headnode/0
     resources_available.mem = 512991mb
     resources_available.ncpus = 84
     resources_available.ngpus = 0
     resources_assigned.mem = 100000mb
     resources_assigned.ngpus = 0

downnode[0]
     state = down,offline
     resources_available.ncpus = 8
";

#[test]
fn parses_jobs_states_cpus_and_walltime() {
    let jobs = parse_jobs(JOBS);
    assert_eq!(jobs.len(), 3);
    assert_eq!(jobs[0].number, "18197");
    assert_eq!(jobs[0].user, "medea");
    assert_eq!(jobs[0].state, 'R');
    assert_eq!(jobs[0].cpus, 42);
    // 350h req - 100h used = 250h = 900000s
    assert_eq!(jobs[0].sec_remaining, 900000);
    assert_eq!(jobs[2].state, 'Q');
}

#[test]
fn parses_array_task_job_number() {
    // Node markers use the same "digits[task]" number as the qstat job number.
    let nodes = parse_nodes(NODES);
    assert_eq!(nodes[0].jobs, vec!["21173", "19657[62]"]);
}

#[test]
fn skips_non_vnode_and_keeps_bracketed() {
    let nodes = parse_nodes(NODES);
    assert_eq!(nodes.len(), 3);
    assert!(nodes.iter().all(|n| n.name.contains('[')));
}

#[test]
fn compute_userload_sorts_colors_and_times() {
    let jobs = parse_jobs(JOBS);
    let mut pal = Palette::new();
    let ul = compute_userload(&jobs, "bhar9988", &mut pal);
    // medea has 42 running (most) -> first, colour index 0.
    assert_eq!(ul[0].name, "medea");
    assert_eq!(ul[0].cores, 42);
    assert_eq!(ul[0].color, 0);
    assert_eq!(ul[0].secs, Some(900000)); // 350h req - 100h used
    // bhar9988: 16 running, 8 pending, highlighted.
    assert_eq!(ul[1].name, "bhar9988");
    assert_eq!(ul[1].cores, 16);
    assert_eq!(ul[1].pending, 8);
    assert!(ul[1].highlighted);
}

#[test]
fn render_node_graph_tiers_and_merged_names() {
    let out = render(JOBS, NODES, "bhar9988");
    // vnodes are merged: names drop the [n] suffix.
    assert!(out.contains("nodegpu02") && !out.contains("nodegpu02["));
    assert!(out.contains("cmt01") && !out.contains("cmt01["));
    assert!(out.contains("downnode") && !out.contains("downnode["));
    // 16-core node: single-row graph (centre dots / dashes).
    assert!(out.contains('•') || out.contains('-'));
    // 84-core node: triple-line graph (⋮ filled, ≡ empty).
    assert!(out.contains('\u{22ee}') && out.contains('\u{2261}'));
    // down node shows down/offline, no graph.
    assert!(out.contains("down/offline"));
}

#[test]
fn merge_vnodes_combines_host_and_sums() {
    let raw = "\
host9[0]
     state = free
     jobs = 100.headnode/0
     resources_available.mem = 100000mb
     resources_available.ncpus = 40
     resources_assigned.mem = 0kb

host9[1]
     state = free
     jobs = 101.headnode/0
     resources_available.mem = 100000mb
     resources_available.ncpus = 40
     resources_assigned.mem = 0kb
";
    let merged = merge_vnodes(parse_nodes(raw));
    assert_eq!(merged.len(), 1);
    assert_eq!(merged[0].name, "host9"); // [n] dropped
    assert_eq!(merged[0].nproc, 80); // 40 + 40
    assert_eq!(merged[0].jobs.len(), 2); // jobs concatenated
    // 80 cores (>64) -> triple-line graph.
    let out = render("", raw, "");
    assert!(out.contains("host9") && !out.contains("host9["));
    assert!(out.contains('\u{22ee}') || out.contains('\u{2261}'));
}

#[test]
fn render_node_graph_braille_midsize() {
    let raw = "\
mid01[0]
     state = free
     jobs = 100.headnode/0, 101.headnode/1
     resources_available.mem = 100000mb
     resources_available.ncpus = 48
     resources_assigned.mem = 0kb
";
    let out = render("", raw, "");
    assert!(out.contains("mid01"));
    assert!(out.contains('\u{2236}')); // ∶ (a column with 2 cores used)
    assert!(out.contains('=')); // empty columns
    assert!(!out.contains('\u{22ee}') && !out.contains('\u{2261}')); // not triple
}

#[test]
fn render_node_graph_quad_very_large() {
    let raw = "\
big01[0]
     state = free
     jobs = 100.headnode/0
     resources_available.mem = 100000mb
     resources_available.ncpus = 100
     resources_assigned.mem = 0kb
";
    let out = render("", raw, "");
    assert!(out.contains("big01"));
    assert!(out.contains('\u{2e2c}') && out.contains('\u{2263}')); // ⸬ and ≣
    assert!(!out.contains('\u{22ee}') && !out.contains('\u{2261}')); // not triple
}

#[test]
fn render_gpu_column_only_when_present() {
    let out = render(JOBS, NODES, "bhar9988");
    // nodegpu02 has 2 gpus, 1 used -> "1/2" appears.
    assert!(out.contains("1/2"));
}

// ---------------------------------------------------------------------------

fn row(name: &str, cores: i64, pending: i64, secs: Option<i64>, color: u8, hl: bool) -> UserLoad {
    UserLoad { name: name.into(), cores, pending, secs, color, highlighted: hl }
}

#[test]
fn userload_cells_align_columns() {
    let rows = vec![
        row("medea", 42, 0, Some(900000), 0, false),
        row("bhar9988", 16, 8, Some(72000), 1, true),
    ];
    let (header, cells) = userload_cells(&rows);
    assert_eq!(header, "USER      CORES  QUEUED  REMAINING");
    assert_eq!(cells.len(), 2);
    assert_eq!(cells[0], ("medea        42           250h 00m".to_string(), 0, false));
    assert_eq!(cells[1], ("bhar9988     16       8    20h 00m".to_string(), 1, true));
}

#[test]
fn userload_cells_unknown_and_idle_times() {
    let rows = vec![row("x", 3, 0, Some(-1), 2, false), row("x", 3, 0, None, 2, false)];
    let (_, cells) = userload_cells(&rows);
    assert_eq!(cells[0].0, "x         3                  ?");
    assert_eq!(cells[1].0, "x         3                 --");
    let (header, none) = userload_cells(&[]);
    assert_eq!(header, "USER  CORES  QUEUED  REMAINING");
    assert!(none.is_empty());
}

#[test]
fn userload_ansi_colours_and_highlights() {
    assert_eq!(render_userload_ansi(&[]), "");
    let rows = vec![row("medea", 42, 0, Some(3660), 0, false), row("bh", 1, 0, None, 13, true)];
    let (header, cells) = userload_cells(&rows);
    let out = render_userload_ansi(&rows);
    let expected = format!(
        "\u{1b}[1m{}\u{1b}[0m\n\u{1b}[31m{}\u{1b}[0m\n\u{1b}[32m\u{1b}[7m{}\u{1b}[0m\n",
        header, cells[0].0, cells[1].0
    );
    assert_eq!(out, expected);
    assert!(cells[0].0.ends_with("1h 01m"));
}

#[test]
fn palette_keeps_each_users_colour() {
    let mut pal = Palette::new();
    assert_eq!(pal.index("a"), 0);
    assert_eq!(pal.index("b"), 1);
    assert_eq!(pal.index("a"), 0);
    assert_eq!(pal.index("c"), 2);
    assert_eq!(pal.index("b"), 1);
}

#[test]
fn users_are_sorted_and_distinct() {
    let jobs = parse_jobs(JOBS);
    assert_eq!(users_of(&jobs), vec!["bhar9988", "medea"]);
    let (graph, users, rows) = render_with_users(JOBS, NODES, "medea");
    assert_eq!(users, vec!["bhar9988", "medea"]);
    assert_eq!(rows.len(), 2);
    assert!(rows[0].highlighted && rows[0].name == "medea");
    assert_eq!(graph, render(JOBS, NODES, "medea"));
}

/// Memory amounts are in units of 10^-9 byte.
const UNITS: i128 = 1_000_000_000;

#[test]
fn merged_memory_sums() {
    let raw = "\
h[0]
     state = free
     resources_available.mem = 2gb
     resources_available.ncpus = 4
     resources_assigned.mem = 1024kb

h[1]
     state = free
     resources_available.mem = 1gb
     resources_available.ncpus = 4
     resources_assigned.mem = 1KB
";
    let merged = merge_vnodes(parse_nodes(raw));
    assert_eq!(merged.len(), 1);
    assert_eq!(merged[0].avail_mem, Some(3 * 1024 * 1024 * 1024 * UNITS));
    assert_eq!(merged[0].used_mem, Some((1024 * 1024 + 1024) * UNITS));
    assert_eq!(merged[0].nproc, 8);
}

#[test]
fn empty_inputs_render_header_only() {
    let out = render("", "", "");
    assert!(out.contains("NODE"));
    assert_eq!(out.lines().count(), 1);
    assert!(parse_jobs("").is_empty());
    assert!(parse_nodes("").is_empty());
}

#[test]
fn unreadable_memory_counts_as_zero() {
    let raw = "\
solo[0]
     state = free
     resources_available.mem = 4gb
     resources_available.ncpus = 4
";
    let merged = merge_vnodes(parse_nodes(raw));
    assert_eq!(merged[0].avail_mem, Some(4 * 1024 * 1024 * 1024 * UNITS));
    assert_eq!(merged[0].used_mem, Some(0));
    let out = render("", raw, "");
    assert!(out.contains("4/4GB"));
    let none = "solo[0]\n     state = free\n     resources_available.ncpus = 4\n";
    assert!(render("", none, "").contains("NO MEM"));
}

#[test]
fn mem_helpers() {
    // The library gives units of 10^-9 byte; the sizes below are in kilobytes.
    let kb = |s: &str| parse_mem(s).map(|b| b as f64 / (1024.0 * 1e9));
    assert_eq!(kb("2gb"), Some(2.0 * 1024.0 * 1024.0));
    assert_eq!(kb("1024kb"), Some(1024.0));
    assert_eq!(kb(""), None);
}

#[test]
fn mem_units_and_case() {
    assert_eq!(parse_mem("5b"), Some(5 * UNITS));
    assert_eq!(parse_mem(" 3MB "), Some(3 * 1024 * 1024 * UNITS));
    assert_eq!(parse_mem("7"), Some(7 * 1024 * UNITS));
    assert_eq!(parse_mem("x gb"), None);
}

#[test]
fn mem_decimal_amounts() {
    assert_eq!(parse_mem("1.5gb"), Some(1536 * 1024 * 1024 * UNITS));
    assert_eq!(parse_mem("0.3kb"), Some(307_200_000_000)); // 307.2 bytes
    assert_eq!(parse_mem("-1.5kb"), Some(-1536 * UNITS));
    assert_eq!(parse_mem(".5mb"), Some(512 * 1024 * UNITS));
    assert_eq!(parse_mem("5."), Some(5 * 1024 * UNITS));
    assert_eq!(parse_mem("."), None);
    assert_eq!(parse_mem("1.2.3kb"), None);
    assert_eq!(monitor::qlload::mem_from_lower("2gb"), Some(2 * 1024 * 1024 * 1024 * UNITS));
    assert_eq!(monitor::qlload::mem_from_lower("2GB"), None); // not lowercased: no unit
}

#[test]
fn mem_exponent_forms() {
    assert_eq!(parse_mem("1e3kb"), Some(1_024_000 * UNITS));
    assert_eq!(parse_mem("1e-3kb"), Some(1_024_000_000)); // 1.024 bytes
    assert_eq!(parse_mem("2.5E2MB"), Some(250 * 1024 * 1024 * UNITS));
    assert_eq!(parse_mem("+4e+0b"), Some(4 * UNITS));
    assert_eq!(parse_mem("1e"), None);
    assert_eq!(parse_mem("e3"), None);
    assert_eq!(parse_mem("1e3.5kb"), None);
}

#[test]
fn mem_extremes_keep_their_sign() {
    let bound: i128 = 10633823966279326983230456482242756608;
    // Far below a unit, a nonzero amount still counts as present.
    assert_eq!(parse_mem("1e-30kb"), Some(1));
    assert_eq!(parse_mem("-1e-30kb"), Some(-1));
    assert_eq!(parse_mem("0e-30kb"), Some(0));
    // Past the bound, amounts saturate; so do the infinite spellings.
    assert_eq!(parse_mem("1e400kb"), Some(bound));
    assert_eq!(parse_mem("1e99999999999999999999999999999999999999kb"), Some(bound));
    assert_eq!(parse_mem("inf"), Some(bound));
    assert_eq!(parse_mem("-Infinity kb"), Some(-bound));
    assert_eq!(parse_mem("nan"), None);
}

#[test]
fn nan_memory_is_not_a_number() {
    assert!(mem_is_nan(" NaN kb"));
    assert!(mem_is_nan("-nan"));
    assert!(!mem_is_nan("nano"));
    assert!(!mem_is_nan("4gb"));
    let raw = "\
n[0]
     state = free
     resources_available.mem = 8gb
     resources_available.ncpus = 4
     resources_assigned.mem = 1gb

n[1]
     state = free
     resources_available.mem = 0kb
     resources_available.ncpus = 4
     resources_assigned.mem = nan
";
    let merged = merge_vnodes(parse_nodes(raw));
    assert_eq!(merged[0].avail_mem, Some(8 * 1024 * 1024 * 1024 * UNITS));
    assert_eq!(merged[0].used_mem, None);
    let out = render("", raw, "");
    assert!(out.contains("\x1b[31m      0/8GB\x1b[0m"));
    let no_avail = "m[0]\n     state = free\n     resources_available.mem = nan\n     resources_available.ncpus = 4\n";
    assert!(render("", no_avail, "").contains("NO MEM"));
}

#[test]
fn sub_byte_memory_is_still_memory() {
    let raw = "\
tiny[0]
     state = free
     resources_available.mem = 0.0001kb
     resources_available.ncpus = 4
";
    let out = render("", raw, "");
    assert!(out.contains("0/0GB"));
    assert!(!out.contains("NO MEM"));
}

#[test]
fn huge_memory_saturates_like_i64() {
    let raw = "\
big[0]
     state = free
     resources_available.mem = 1e40gb
     resources_available.ncpus = 4
";
    let out = render("", raw, "");
    assert!(out.contains("9223372036854775807/9223372036854775807GB"));
}
