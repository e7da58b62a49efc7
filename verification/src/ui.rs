//! The text and layout decisions of the terminal view: job rows of the
//! running and queued sections, the walltime parse behind the progress bar,
//! which sections are shown and how tall, the top tab's scroll settling and
//! the status line.
use vstd::prelude::*;
use crate::app::{App, sat_sub};
use crate::pbs::{Job, JobSpec, JobState};
use crate::text::{
    decimal, int_text, pad_left, pad_right, parse_u64, parse_u64_chars, push_all, push_decimal,
    push_int, push_pad_left, push_pad_right, push_str, split_char, split_on, to_chars, to_string,
    trim, trim_chars,
};

verus! {

// ---------------------------------------------------------------------------
// Walltimes
// ---------------------------------------------------------------------------

/// Minutes of an "HH:MM" or "HH:MM:SS" walltime (seconds ignored): the first
/// two ':'-separated parts, each a `u64` after trimming. `None` when either
/// part is missing or unparsable, or the total does not fit in a `u64`.
pub open spec fn hhmm_mins(s: Seq<char>) -> Option<u64> {
    let parts = split_char(s, ':');
    if parts.len() < 2 {
        None
    } else {
        match (parse_u64(trim(parts[0])), parse_u64(trim(parts[1]))) {
            (Some(h), Some(m)) => if h * 60 + m <= u64::MAX {
                Some((h * 60 + m) as u64)
            } else {
                None
            },
            _ => None,
        }
    }
}

/// Parse "HH:MM" or "HH:MM:SS" to total minutes (seconds ignored).
pub fn hhmm_to_mins(s: &str) -> (r: Option<u64>)
    ensures
        r == hhmm_mins(s@),
{
    let v = to_chars(s);
    let parts = split_on(&v, ':');
    proof {
        assert(parts@.len() == split_char(v@, ':').len());
    }
    if parts.len() < 2 {
        return None;
    }
    proof {
        assert(parts@[0]@ == split_char(v@, ':')[0]);
        assert(parts@[1]@ == split_char(v@, ':')[1]);
    }
    let h = match parse_u64_chars(&trim_chars(&parts[0])) {
        Some(h) => h,
        None => return None,
    };
    let m = match parse_u64_chars(&trim_chars(&parts[1])) {
        Some(m) => m,
        None => return None,
    };
    if h > (u64::MAX - m) / 60 {
        proof {
            assert(h * 60 + m > u64::MAX) by (nonlinear_arith)
                requires
                    h > (u64::MAX - m) / 60,
                    m <= u64::MAX,
            ;
        }
        return None;
    }
    proof {
        assert(h * 60 + m <= u64::MAX) by (nonlinear_arith)
            requires
                h <= (u64::MAX - m) / 60,
                m <= u64::MAX,
        ;
    }
    Some(h * 60 + m)
}

/// The elapsed and requested minutes of a walltime bar, when both parse and
/// the request is not zero; otherwise the bar is drawn empty.
pub open spec fn bar_minutes(elapsed: Seq<char>, req: Seq<char>) -> Option<(u64, u64)> {
    match (hhmm_mins(elapsed), hhmm_mins(req)) {
        (Some(e), Some(r)) => if r > 0 {
            Some((e, r))
        } else {
            None
        },
        _ => None,
    }
}

/// The minutes a walltime bar is drawn from (see [`bar_minutes`]).
pub fn walltime_minutes(elapsed: &str, req: &str) -> (r: Option<(u64, u64)>)
    ensures
        r == bar_minutes(elapsed@, req@),
{
    match (hhmm_to_mins(elapsed), hhmm_to_mins(req)) {
        (Some(e), Some(r)) => if r > 0 {
            Some((e, r))
        } else {
            None
        },
        _ => None,
    }
}

/// `n` dashes.
pub open spec fn dash_run(n: nat) -> Seq<char> {
    Seq::new(n, |i: int| '-')
}

/// The bar drawn when there is nothing to measure: `[------] ---`.
pub open spec fn empty_bar_text(width: nat) -> Seq<char> {
    seq!['['] + dash_run(width) + "] ---"@
}

/// The bar drawn when there is nothing to measure.
pub fn empty_bar(width: usize) -> (r: String)
    ensures
        r@ == empty_bar_text(width as nat),
{
    let mut out: Vec<char> = Vec::new();
    out.push('[');
    let mut i: usize = 0;
    while i < width
        invariant
            i <= width,
            out@ == seq!['['] + dash_run(i as nat),
        decreases width - i,
    {
        out.push('-');
        i += 1;
        proof {
            assert(dash_run(i as nat) == dash_run((i - 1) as nat).push('-'));
        }
    }
    push_str(&mut out, "] ---");
    to_string(&out)
}

// ---------------------------------------------------------------------------
// Job rows
// ---------------------------------------------------------------------------

/// Whether a job belongs to the running section (`want_running`) or to the
/// queued-and-held one.
pub open spec fn in_class_spec(state: JobState, want_running: bool) -> bool {
    if want_running {
        state is Running
    } else {
        state is Queued || state is Held
    }
}

pub fn in_class(state: &JobState, want_running: bool) -> (b: bool)
    ensures
        b == in_class_spec(*state, want_running),
{
    if want_running {
        matches!(state, JobState::Running)
    } else {
        matches!(state, JobState::Queued | JobState::Held)
    }
}

pub open spec fn or_dashes(o: Option<Seq<char>>) -> Seq<char> {
    match o {
        Some(s) => s,
        None => "--"@,
    }
}

/// The CPU cell: `16c`, or `--` when unknown.
pub open spec fn cpus_cell(c: Option<u32>) -> Seq<char> {
    match c {
        Some(n) => decimal(n as nat).push('c'),
        None => "--"@,
    }
}

/// The state letter of a queued-section row.
pub open spec fn state_letter(s: JobState) -> Seq<char> {
    match s {
        JobState::Queued => "Q"@,
        JobState::Held => "H"@,
        _ => "?"@,
    }
}

/// One row of a job section: id, name, CPUs and memory in fixed columns, then
/// the walltime bar and node for a running job, or the state letter and the
/// requested walltime for a queued or held one.
pub open spec fn job_line(j: JobSpec, running: bool, bar: Seq<char>) -> Seq<char> {
    let head = pad_right(j.id, 15) + " "@ + pad_right(j.name, 10) + " "@ + pad_left(
        cpus_cell(j.cpus),
        4,
    ) + " "@ + pad_left(or_dashes(j.mem), 7) + "  "@;
    if running {
        head + bar + "  "@ + or_dashes(j.node)
    } else {
        head + state_letter(j.state) + "  req "@ + or_dashes(j.req_walltime)
    }
}

/// A queued-section row shows the job's own qstat state letter: the row of
/// a job whose state was read from the letter `c` ('Q' queued, 'H' held)
/// holds `c` just before "  req " and the requested walltime, so held and
/// queued jobs are told apart.
pub proof fn law_queued_row_shows_state_letter(j: JobSpec, c: char, bar: Seq<char>)
    requires
        c == 'Q' || c == 'H',
        j.state == crate::pbs::state_of(c),
    ensures
        ({
            let row = job_line(j, false, bar);
            let tail = "  req "@ + or_dashes(j.req_walltime);
            &&& row.len() > tail.len()
            &&& row[row.len() - tail.len() - 1] == c
            &&& row.subrange(row.len() - tail.len(), row.len() as int) == tail
        }),
{
    reveal_strlit("Q");
    reveal_strlit("H");
    assert("Q"@ =~= seq!['Q']);
    assert("H"@ =~= seq!['H']);
    if c == 'Q' {
        assert(state_letter(j.state) == "Q"@);
    } else {
        assert(state_letter(j.state) == "H"@);
    }
    let head = pad_right(j.id, 15) + " "@ + pad_right(j.name, 10) + " "@ + pad_left(
        cpus_cell(j.cpus),
        4,
    ) + " "@ + pad_left(or_dashes(j.mem), 7) + "  "@;
    let tail = "  req "@ + or_dashes(j.req_walltime);
    let row = job_line(j, false, bar);
    assert(state_letter(j.state) == seq![c]);
    assert(row == head + seq![c] + tail);
    assert(row[row.len() - tail.len() - 1] == c);
    assert(row.subrange(row.len() - tail.len(), row.len() as int) =~= tail);
}

fn opt_chars(o: &Option<String>) -> (r: Vec<char>)
    ensures
        r@ == or_dashes(crate::pbs::opt_view(*o)),
{
    match o {
        Some(s) => to_chars(s.as_str()),
        None => to_chars("--"),
    }
}

/// The text of one job row; `bar` is the walltime bar of a running job (see
/// [`walltime_minutes`] and [`empty_bar`]).
pub fn job_row(job: &Job, running: bool, bar: &str) -> (r: String)
    ensures
        r@ == job_line(job@, running, bar@),
{
    let mut out: Vec<char> = Vec::new();
    push_pad_right(&mut out, &to_chars(job.id.as_str()), 15);
    push_str(&mut out, " ");
    push_pad_right(&mut out, &to_chars(job.name.as_str()), 10);
    push_str(&mut out, " ");
    let mut cpus: Vec<char> = Vec::new();
    match job.cpus {
        Some(c) => {
            push_decimal(&mut cpus, c as u128);
            cpus.push('c');
        },
        None => {
            push_str(&mut cpus, "--");
        },
    }
    proof {
        assert(cpus@ =~= cpus_cell(job.cpus));
    }
    push_pad_left(&mut out, &cpus, 4);
    push_str(&mut out, " ");
    push_pad_left(&mut out, &opt_chars(&job.mem), 7);
    push_str(&mut out, "  ");
    let ghost head = out@;
    if running {
        push_str(&mut out, bar);
        push_str(&mut out, "  ");
        push_all(&mut out, &opt_chars(&job.node));
    } else {
        let letter = match &job.state {
            JobState::Queued => "Q",
            JobState::Held => "H",
            _ => "?",
        };
        push_str(&mut out, letter);
        push_str(&mut out, "  req ");
        push_all(&mut out, &opt_chars(&job.req_walltime));
    }
    proof {
        assert(out@ =~= job_line(job@, running, bar@));
    }
    to_string(&out)
}

// ---------------------------------------------------------------------------
// Layout
// ---------------------------------------------------------------------------

/// The vertical slots of the screen, top to bottom.
#[derive(Debug, Clone, Copy, PartialEq, Eq, Structural)]
pub enum Slot {
    Top,
    Gap,
    Running,
    Queued,
    Array,
    Status,
}

/// Whether the array-progress text has anything to show.
pub open spec fn array_shown(a: Option<Seq<char>>) -> bool {
    a matches Some(s) && trim(s).len() > 0
}

pub fn has_array_text(a: &Option<String>) -> (b: bool)
    ensures
        b == array_shown(crate::pbs::opt_view(*a)),
{
    match a {
        Some(s) => trim_chars(&to_chars(s.as_str())).len() > 0,
        None => false,
    }
}

/// The slots and their heights: the top tabs (at least three lines), each
/// shown non-empty section behind a one-line gap with a title line above its
/// rows, and the one-line status bar.
pub open spec fn layout(
    running: nat,
    queued: nat,
    array: Option<nat>,
    show_running: bool,
    show_queued: bool,
    show_array: bool,
) -> Seq<(Slot, nat)> {
    let r = if running > 0 && show_running {
        seq![(Slot::Gap, 1nat), (Slot::Running, running + 1)]
    } else {
        seq![]
    };
    let q = if queued > 0 && show_queued {
        seq![(Slot::Gap, 1nat), (Slot::Queued, queued + 1)]
    } else {
        seq![]
    };
    let a = match array {
        Some(n) => if show_array {
            seq![(Slot::Gap, 1nat), (Slot::Array, n + 1)]
        } else {
            seq![]
        },
        None => seq![],
    };
    seq![(Slot::Top, 3nat)] + r + q + a + seq![(Slot::Status, 1nat)]
}

pub open spec fn slot_views(v: Seq<(Slot, usize)>) -> Seq<(Slot, nat)> {
    v.map_values(|p: (Slot, usize)| (p.0, p.1 as nat))
}

/// The slots of the screen (see [`layout`]): `running` and `queued` are the
/// row counts of the two job sections, `array_lines` the line count of the
/// array-progress text when it has any.
pub fn layout_slots(
    running: usize,
    queued: usize,
    array_lines: Option<usize>,
    show_running: bool,
    show_queued: bool,
    show_array: bool,
) -> (r: Vec<(Slot, usize)>)
    requires
        running < usize::MAX,
        queued < usize::MAX,
        array_lines matches Some(n) ==> n < usize::MAX,
    ensures
        slot_views(r@) == layout(
            running as nat,
            queued as nat,
            match array_lines {
                Some(n) => Some(n as nat),
                None => None,
            },
            show_running,
            show_queued,
            show_array,
        ),
{
    let mut r: Vec<(Slot, usize)> = Vec::new();
    r.push((Slot::Top, 3));
    let ghost s0 = slot_views(r@);
    if running > 0 && show_running {
        r.push((Slot::Gap, 1));
        r.push((Slot::Running, running + 1));
    }
    let ghost s1 = slot_views(r@);
    if queued > 0 && show_queued {
        r.push((Slot::Gap, 1));
        r.push((Slot::Queued, queued + 1));
    }
    let ghost s2 = slot_views(r@);
    match array_lines {
        Some(n) => {
            if show_array {
                r.push((Slot::Gap, 1));
                r.push((Slot::Array, n + 1));
            }
        },
        None => {},
    }
    let ghost s3 = slot_views(r@);
    r.push((Slot::Status, 1));
    proof {
        let an = match array_lines {
            Some(n) => Some(n as nat),
            None => None,
        };
        assert(slot_views(r@) =~= layout(
            running as nat,
            queued as nat,
            an,
            show_running,
            show_queued,
            show_array,
        ));
    }
    r
}

/// The width of the status line's right-hand freshness part.
pub fn status_width(width: u16) -> (r: u16)
    ensures
        r == (if width >= 88 {
            48
        } else if width >= 40 {
            width - 40
        } else {
            0
        }),
{
    let w = width.saturating_sub(40);
    if w < 48 {
        w
    } else {
        48
    }
}

// ---------------------------------------------------------------------------
// The top tab's scroll and the status line
// ---------------------------------------------------------------------------

/// "job 2/3 16001.headnode", or "no running jobs".
pub open spec fn job_part(app: App) -> Seq<char> {
    if app.selected < app.running@.len() {
        "job "@ + decimal((app.selected + 1) as nat) + "/"@ + decimal(app.running@.len())
            + " "@ + app.jobs@[app.running@[app.selected as int] as int].id@
    } else {
        "no running jobs"@
    }
}

/// "load 12s" for a source refreshed 12 s ago, "load --" before the first.
pub open spec fn age_part(label: Seq<char>, age: Option<u64>) -> Seq<char> {
    match age {
        Some(t) => label + " "@ + decimal(t as nat) + "s"@,
        None => label + " --"@,
    }
}

/// The status line's freshness text, led by the last error when there is one.
pub open spec fn freshness(app: App, load_age: Option<u64>, jobs_age: Option<u64>) -> Seq<char> {
    let s = job_part(app) + " \u{b7} "@ + age_part("load"@, load_age) + " \u{b7} "@ + age_part(
        "jobs"@,
        jobs_age,
    ) + " "@;
    match app.last_error {
        Some(e) => "!"@ + e.0@ + " \u{b7} "@ + s,
        None => s,
    }
}

fn push_age(out: &mut Vec<char>, label: &str, age: Option<u64>)
    ensures
        final(out)@ == old(out)@ + age_part(label@, age),
{
    push_str(out, label);
    match age {
        Some(t) => {
            push_str(out, " ");
            push_decimal(out, t as u128);
            push_str(out, "s");
        },
        None => {
            push_str(out, " --");
        },
    }
    proof {
        assert(final(out)@ =~= old(out)@ + age_part(label@, age));
    }
}

/// A frame of `total` lines shown `inner_h` at a time: the offset to draw at
/// and the app after. A following tab is pinned to the bottom; otherwise the
/// offset is clamped to the last page, and reaching the bottom re-engages
/// follow. The viewport height is recorded for paging.
pub open spec fn settled(app: App, total: usize, inner_h: usize) -> (usize, App) {
    let max_off = sat_sub(total, inner_h);
    let (follow, scroll) = app.active_pair();
    let o = if follow {
        max_off
    } else if scroll < max_off {
        scroll
    } else {
        max_off
    };
    (o, (App { top_inner_h: inner_h, ..app }).with_active(follow || o >= max_off, o))
}

/// End shows the last page and Home the first: after `scroll_to_bottom` the
/// next frame is drawn at the bottom, after `scroll_to_top` at the top, and
/// a frame never starts past the last page.
pub proof fn law_home_and_end_reach_the_ends(app: App, total: usize, inner_h: usize)
    ensures
        settled(app.with_active(true, app.active_pair().1), total, inner_h).0 == sat_sub(
            total,
            inner_h,
        ),
        settled(app.with_active(false, 0), total, inner_h).0 == 0,
        settled(app, total, inner_h).0 <= sat_sub(total, inner_h),
{
}

impl App {
    /// Settles the active tab's scroll for a frame of `total` lines shown
    /// `inner_h` lines at a time, and returns the offset to draw at (see
    /// [`settled`]).
    pub fn settle_top(&mut self, total: usize, inner_h: usize) -> (off: usize)
        ensures
            (off, *final(self)) == settled(*old(self), total, inner_h),
    {
        self.top_inner_h = inner_h;
        let max_off = total.saturating_sub(inner_h);
        let (follow, scroll) = self.active();
        if *follow {
            *scroll = max_off;
            max_off
        } else {
            let clamped = if *scroll < max_off {
                *scroll
            } else {
                max_off
            };
            *scroll = clamped;
            if clamped >= max_off {
                *follow = true;
            }
            clamped
        }
    }

    /// Whether a row of a job section is drawn highlighted: only in the
    /// running section, for the selected running job (matched by id).
    pub fn row_highlighted(&self, job: &Job, want_running: bool) -> (b: bool)
        requires
            self.well_formed(),
        ensures
            b == (want_running && self.id_at(self.selected as int) == Some(job.id@)),
    {
        if !want_running {
            return false;
        }
        match self.selected_job() {
            Some(j) => crate::text::chars_eq(&to_chars(j.id.as_str()), &to_chars(job.id.as_str())),
            None => false,
        }
    }

    /// The status line's freshness text; `load_age` and `jobs_age` are the
    /// whole seconds since the cluster load and the job list last arrived.
    pub fn freshness_text(&self, load_age: Option<u64>, jobs_age: Option<u64>) -> (r: String)
        requires
            self.well_formed(),
        ensures
            r@ == freshness(*self, load_age, jobs_age),
    {
        let mut out: Vec<char> = Vec::new();
        match &self.last_error {
            Some(e) => {
                push_str(&mut out, "!");
                push_str(&mut out, e.0.as_str());
                push_str(&mut out, " \u{b7} ");
            },
            None => {},
        }
        let ghost lead = out@;
        let n = self.running_count();
        match self.selected_job() {
            Some(j) => {
                push_str(&mut out, "job ");
                push_decimal(&mut out, self.selected_ordinal() as u128);
                push_str(&mut out, "/");
                push_decimal(&mut out, n as u128);
                push_str(&mut out, " ");
                push_str(&mut out, j.id.as_str());
            },
            None => {
                push_str(&mut out, "no running jobs");
            },
        }
        proof {
            assert(out@ =~= lead + job_part(*self));
        }
        push_str(&mut out, " \u{b7} ");
        push_age(&mut out, "load", load_age);
        push_str(&mut out, " \u{b7} ");
        push_age(&mut out, "jobs", jobs_age);
        push_str(&mut out, " ");
        proof {
            assert(out@ =~= freshness(*self, load_age, jobs_age));
        }
        to_string(&out)
    }
}

} // verus!
