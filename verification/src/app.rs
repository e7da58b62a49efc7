//! The monitor's UI state: the job list and running-job selection, the three
//! top tabs with their scroll/follow state, the section toggles and the
//! fuzzy username switch, driven by [`Update`]s from the background workers.
use vstd::prelude::*;
use crate::pbs::{Job, JobSpec, JobState, job_views};
use crate::qlload::UserLoad;
use crate::text::{string_views, to_chars, to_string, lines};
use crate::logs::{sanitized, sanitized_lines};

verus! {

#[verifier::external_type_specification]
#[verifier::external_body]
pub struct ExInstant(std::time::Instant);

/// `Instant::now()`: the current instant; nothing is claimed of its value.
#[verifier::external_body]
fn now() -> std::time::Instant {
    std::time::Instant::now()
}

#[derive(Debug, Clone, Copy, PartialEq, Eq, Structural)]
pub enum TopTab {
    SystemLoad,
    LogPreview,
    Details,
}

/// What the background workers hand the UI.
#[derive(Debug, Clone)]
pub enum Update {
    Jobs(Vec<Job>),
    Cluster(String),
    /// Every user with jobs on the cluster (for the `u` switch).
    Users(Vec<String>),
    /// Structured "User load" table rows.
    UserLoad(Vec<UserLoad>),
    Array(Option<String>),
    Log { lines: Vec<String>, replace: bool },
    Error { source: String, message: String },
    Details { job: String, text: String, output_path: Option<String> },
}

pub struct App {
    pub jobs: Vec<Job>,
    /// Indices into `jobs` with state Running.
    pub running: Vec<usize>,
    /// Index into `running`.
    pub selected: usize,
    pub selected_job_id: Option<String>,
    pub cluster: String,
    pub cluster_at: Option<std::time::Instant>,
    pub array: Option<String>,
    pub jobs_at: Option<std::time::Instant>,
    pub log: Vec<String>,
    pub log_scroll: usize,
    pub log_follow: bool,
    pub cluster_follow: bool,
    pub details_follow: bool,
    pub last_error: Option<(String, std::time::Instant)>,
    pub should_quit: bool,
    pub start: std::time::Instant,
    pub top_tab: TopTab,
    pub cluster_scroll: usize,
    pub show_array: bool,
    pub show_queued: bool,
    pub show_running: bool,
    pub details: String,
    pub details_job: Option<String>,
    pub details_scroll: usize,
    pub top_inner_h: usize,
    /// Currently monitored/highlighted user.
    pub user: String,
    /// `Some(buffer)` while the `u` username box is open.
    pub input: Option<String>,
    /// Cluster users: fuzzy-match candidates for the box.
    pub known_users: Vec<String>,
    /// "User load" table rows.
    pub userload: Vec<UserLoad>,
    /// Effective array-compaction state (cached by the renderer).
    pub compact: bool,
    /// `Some` when the user forced compaction on or off; `None` follows the fit.
    pub compact_override: Option<bool>,
    /// The selected job's PBS `Output_Path` (log fallback).
    pub output_path: Option<String>,
}

/// Indices of the running jobs, in order.
pub open spec fn running_indices(jobs: Seq<JobSpec>) -> Seq<usize>
    decreases jobs.len(),
{
    if jobs.len() == 0 {
        seq![]
    } else {
        let rest = running_indices(jobs.drop_last());
        if jobs.last().state is Running {
            rest.push((jobs.len() - 1) as usize)
        } else {
            rest
        }
    }
}

pub proof fn lemma_running_indices(jobs: Seq<JobSpec>)
    requires
        jobs.len() <= usize::MAX,
    ensures
        forall|k: int|
            0 <= k < running_indices(jobs).len() ==> #[trigger] running_indices(jobs)[k]
                < jobs.len() && jobs[running_indices(jobs)[k] as int].state is Running,
        forall|i: int, j: int|
            0 <= i < j < running_indices(jobs).len() ==> #[trigger] running_indices(jobs)[i]
                < #[trigger] running_indices(jobs)[j],
        forall|m: int|
            0 <= m < jobs.len() && jobs[m].state is Running ==> running_indices(jobs).contains(
                m as usize,
            ),
    decreases jobs.len(),
{
    if jobs.len() > 0 {
        let d = jobs.drop_last();
        lemma_running_indices(d);
        let r = running_indices(jobs);
        let rd = running_indices(d);
        if jobs.last().state is Running {
            assert(r == rd.push((jobs.len() - 1) as usize));
        } else {
            assert(r == rd);
        }
        assert forall|k: int| 0 <= k < r.len() implies #[trigger] r[k] < jobs.len() && jobs[r[k] as int].state is Running by {
            if k < rd.len() {
                assert(r[k] == rd[k]);
                assert(jobs[rd[k] as int] == d[rd[k] as int]);
            } else {
                assert(r[k] == jobs.len() - 1);
            }
        }
        assert forall|i: int, j: int| 0 <= i < j < r.len() implies #[trigger] r[i] < #[trigger] r[j] by {
            assert(r[i] == rd[i]);
            if j < rd.len() {
                assert(r[j] == rd[j]);
            } else {
                assert(r[j] == jobs.len() - 1);
            }
        }
        assert forall|m: int| 0 <= m < jobs.len() && jobs[m].state is Running implies r.contains(m as usize) by {
            if m < jobs.len() - 1 {
                assert(d[m] == jobs[m]);
                assert(rd.contains(m as usize));
                let k = choose|k: int| 0 <= k < rd.len() && rd[k] == m as usize;
                assert(r[k] == m as usize);
            } else {
                assert(r[r.len() - 1] == m as usize);
            }
        }
    }
}

/// First position in `r` of a job with id `id`.
pub open spec fn position_of_id(jobs: Seq<JobSpec>, r: Seq<usize>, id: Seq<char>) -> Option<int>
    decreases r.len(),
{
    if r.len() == 0 {
        None
    } else {
        match position_of_id(jobs, r.drop_last(), id) {
            Some(p) => Some(p),
            None => if jobs[r.last() as int].id == id {
                Some(r.len() - 1)
            } else {
                None
            },
        }
    }
}

/// The tab after `t` in the cycle System Load, Log Preview, Details.
pub open spec fn tab_after(t: TopTab) -> TopTab {
    match t {
        TopTab::SystemLoad => TopTab::LogPreview,
        TopTab::LogPreview => TopTab::Details,
        TopTab::Details => TopTab::SystemLoad,
    }
}

/// The tab before `t` in that cycle.
pub open spec fn tab_before(t: TopTab) -> TopTab {
    match t {
        TopTab::SystemLoad => TopTab::Details,
        TopTab::LogPreview => TopTab::SystemLoad,
        TopTab::Details => TopTab::LogPreview,
    }
}

/// Moving to the previous tab undoes moving to the next one, and the reverse.
pub proof fn law_tab_round_trip(t: TopTab)
    ensures
        tab_before(tab_after(t)) == t,
        tab_after(tab_before(t)) == t,
{
}

/// Three steps in either direction come back to the same tab.
pub proof fn law_tabs_cycle_three_ways(t: TopTab)
    ensures
        tab_after(tab_after(tab_after(t))) == t,
        tab_before(tab_before(tab_before(t))) == t,
{
}

/// The log keeps at most this many lines.
pub open spec fn log_cap() -> nat {
    1_000_000
}

/// The last `log_cap()` lines of `l`.
pub open spec fn capped(l: Seq<Seq<char>>) -> Seq<Seq<char>> {
    if l.len() > log_cap() {
        l.skip(l.len() - log_cap())
    } else {
        l
    }
}

/// The preview never holds more than `log_cap()` lines, and what it holds is
/// the newest lines, in order: the oldest are dropped first.
pub proof fn law_log_keeps_newest_lines(l: Seq<Seq<char>>)
    ensures
        capped(l).len() <= log_cap(),
        capped(l) == l.skip(l.len() - capped(l).len()),
{
    if l.len() <= log_cap() {
        assert(l.skip(0) == l);
    }
}

/// Lines joined by `\n` (`[&str]::join("\n")`).
pub open spec fn joined(ls: Seq<Seq<char>>) -> Seq<char>
    decreases ls.len(),
{
    if ls.len() == 0 {
        seq![]
    } else if ls.len() == 1 {
        ls[0]
    } else {
        joined(ls.drop_last()) + seq!['\n'] + ls.last()
    }
}

impl App {
    /// The running-index list only names existing jobs.
    pub open spec fn well_formed(&self) -> bool {
        forall|k: int| 0 <= k < self.running@.len() ==> #[trigger] self.running@[k] < self.jobs@.len()
    }

    /// The id of the job at `running[sel]`, if `sel` is in range.
    pub open spec fn id_at(&self, sel: int) -> Option<Seq<char>> {
        if 0 <= sel < self.running@.len() {
            Some(self.jobs@[self.running@[sel] as int].id@)
        } else {
            None
        }
    }

    /// `next` is `self` after `jobs` replaced the job list: `running` lists the
    /// running jobs; the selection stays on the previously selected job id when
    /// that job is still running, else it keeps its position (back to the first
    /// job when out of range) and records the id it now points at.
    pub open spec fn refreshed(&self, jobs: Seq<Job>, next: &App) -> bool {
        let r = running_indices(job_views(jobs));
        &&& next.jobs@ == jobs
        &&& next.running@ == r
        &&& if self.selected_job_id is Some && position_of_id(
            job_views(jobs),
            r,
            opt_id(self.selected_job_id),
        ) is Some {
            &&& next.selected == position_of_id(job_views(jobs), r, opt_id(self.selected_job_id))->0
            &&& next.selected_job_id == self.selected_job_id
        } else {
            &&& next.selected == (if self.selected < r.len() {
                self.selected
            } else {
                0
            })
            &&& crate::pbs::opt_view(next.selected_job_id) == next.id_at(next.selected as int)
        }
    }
}

pub open spec fn opt_id(o: Option<String>) -> Seq<char> {
    match o {
        Some(s) => s@,
        None => Seq::empty(),
    }
}

impl App {
    pub fn new() -> (app: App)
        ensures
            app.well_formed(),
            app.jobs@.len() == 0,
            app.running@.len() == 0,
            app.selected == 0,
            app.selected_job_id is None,
            app.cluster@.len() == 0,
            app.cluster_at is None,
            app.array is None,
            app.jobs_at is None,
            app.log@.len() == 0,
            app.log_scroll == 0,
            app.log_follow && app.cluster_follow && app.details_follow,
            app.last_error is None,
            !app.should_quit,
            app.top_tab == TopTab::SystemLoad,
            app.cluster_scroll == 0,
            app.show_array && app.show_queued && app.show_running,
            app.details@.len() == 0,
            app.details_job is None,
            app.details_scroll == 0,
            app.top_inner_h == 0,
            app.user@.len() == 0,
            app.input is None,
            app.known_users@.len() == 0,
            app.userload@.len() == 0,
            !app.compact,
            app.compact_override is None,
            app.output_path is None,
    {
        App {
            jobs: Vec::new(),
            running: Vec::new(),
            selected: 0,
            selected_job_id: None,
            cluster: String::new(),
            cluster_at: None,
            array: None,
            jobs_at: None,
            log: Vec::new(),
            log_scroll: 0,
            log_follow: true,
            cluster_follow: true,
            details_follow: true,
            last_error: None,
            should_quit: false,
            start: now(),
            top_tab: TopTab::SystemLoad,
            cluster_scroll: 0,
            show_array: true,
            show_queued: true,
            show_running: true,
            details: String::new(),
            details_job: None,
            details_scroll: 0,
            top_inner_h: 0,
            user: String::new(),
            input: None,
            known_users: Vec::new(),
            userload: Vec::new(),
            compact: false,
            compact_override: None,
            output_path: None,
        }
    }

    fn running_of(jobs: &Vec<Job>) -> (r: Vec<usize>)
        ensures
            r@ == running_indices(job_views(jobs@)),
    {
        let mut r: Vec<usize> = Vec::new();
        let mut i: usize = 0;
        while i < jobs.len()
            invariant
                i <= jobs.len(),
                r@ == running_indices(job_views(jobs@.take(i as int))),
            decreases jobs.len() - i,
        {
            proof {
                assert(job_views(jobs@.take(i + 1)).drop_last() == job_views(jobs@.take(i as int)));
                assert(job_views(jobs@.take(i + 1)).last() == jobs@[i as int]@);
            }
            if matches!(jobs[i].state, JobState::Running) {
                r.push(i);
            }
            i += 1;
        }
        proof {
            assert(jobs@.take(jobs.len() as int) == jobs@);
        }
        r
    }

    #[verifier::spinoff_prover]
    #[verifier::rlimit(40)]
    fn recompute_running(&mut self, jobs: Vec<Job>)
        ensures
            old(self).refreshed(jobs@, final(self)),
            final(self).well_formed(),
            *final(self) == (App {
                jobs: final(self).jobs,
                running: final(self).running,
                selected: final(self).selected,
                selected_job_id: final(self).selected_job_id,
                ..*old(self)
            }),
    {
        let running = Self::running_of(&jobs);
        let n = jobs.len();
        proof {
            assert(job_views(jobs@).len() == n);
            lemma_running_indices(job_views(jobs@));
        }
        let ghost r = running@;
        let ghost jv = job_views(jobs@);
        if let Some(id) = &self.selected_job_id {
            let mut k: usize = 0;
            while k < running.len()
                invariant
                    k <= running.len(),
                    running@ == r,
                    r == running_indices(jv),
                    jv == job_views(jobs@),
                    forall|m: int| 0 <= m < r.len() ==> #[trigger] r[m] < jobs@.len(),
                    position_of_id(jv, r.take(k as int), id@) is None,
                    *self == *old(self),
                    self.selected_job_id == Some(*id),
                decreases running.len() - k,
            {
                proof {
                    assert(r.take(k + 1).drop_last() == r.take(k as int));
                    assert(jv[r[k as int] as int] == jobs@[r[k as int] as int]@);
                }
                if jobs[running[k]].id == *id {
                    self.jobs = jobs;
                    self.running = running;
                    self.selected = k;
                    proof {
                        lemma_position_prefix(jv, r, k as int + 1, id@);
                    }
                    return;
                }
                k += 1;
            }
            proof {
                assert(r.take(running.len() as int) == r);
            }
        }
        self.jobs = jobs;
        self.running = running;
        if self.selected >= self.running.len() {
            self.selected = 0;
        }
        if self.selected < self.running.len() {
            let i = self.running[self.selected];
            self.selected_job_id = Some(self.jobs[i].id.clone());
        } else {
            self.selected_job_id = None;
        }
    }
}

proof fn lemma_position_of_id(jobs: Seq<JobSpec>, r: Seq<usize>, id: Seq<char>)
    ensures
        position_of_id(jobs, r, id) matches Some(p) ==> 0 <= p < r.len() && jobs[r[p] as int].id
            == id,
    decreases r.len(),
{
    if r.len() > 0 {
        lemma_position_of_id(jobs, r.drop_last(), id);
        if let Some(p) = position_of_id(jobs, r.drop_last(), id) {
            assert(r[p] == r.drop_last()[p]);
        }
    }
}

/// After a refresh of the job list the selection names its job: the
/// recorded id is the id of the selected running job, and none is recorded
/// when no job runs.
pub proof fn law_refresh_keeps_selection_consistent(app: App, jobs: Seq<Job>, next: App)
    requires
        app.refreshed(jobs, &next),
        jobs.len() <= usize::MAX,
    ensures
        opt_view_id(next.selected_job_id) == next.id_at(next.selected as int),
{
    let jv = job_views(jobs);
    let r = running_indices(jv);
    lemma_running_indices(jv);
    if app.selected_job_id is Some && position_of_id(jv, r, opt_id(app.selected_job_id)) is Some {
        lemma_position_of_id(jv, r, opt_id(app.selected_job_id));
        let p = position_of_id(jv, r, opt_id(app.selected_job_id))->0;
        assert(r[p] < jv.len());
        assert(jv[r[p] as int] == jobs[r[p] as int]@);
    }
}

/// A match found in a prefix is the first match of the whole.
pub proof fn lemma_position_prefix(jobs: Seq<JobSpec>, r: Seq<usize>, k: int, id: Seq<char>)
    requires
        0 <= k <= r.len(),
        position_of_id(jobs, r.take(k), id) is Some,
    ensures
        position_of_id(jobs, r, id) == position_of_id(jobs, r.take(k), id),
    decreases r.len() - k,
{
    if k < r.len() {
        assert(r.take(k + 1).drop_last() == r.take(k));
        lemma_position_prefix(jobs, r, k + 1, id);
    } else {
        assert(r.take(k) == r);
    }
}




pub fn join_lines(ls: &Vec<String>) -> (r: String)
    ensures
        r@ == joined(string_views(ls@)),
{
    let mut out: Vec<char> = Vec::new();
    let mut i: usize = 0;
    while i < ls.len()
        invariant
            i <= ls.len(),
            out@ == joined(string_views(ls@).take(i as int)),
        decreases ls.len() - i,
    {
        let ghost prev = string_views(ls@).take(i as int);
        proof {
            assert(string_views(ls@).take(i + 1).drop_last() == prev);
            assert(string_views(ls@).take(i + 1).last() == ls@[i as int]@);
        }
        if i > 0 {
            out.push('\n');
        }
        crate::text::push_str(&mut out, ls[i].as_str());
        proof {
            if i == 0 {
                assert(Seq::<char>::empty() + ls@[0]@ == ls@[0]@);
            }
        }
        i += 1;
    }
    proof {
        assert(string_views(ls@).take(ls.len() as int) == string_views(ls@));
    }
    to_string(&out)
}

/// `{source}: {message}`.
fn error_text(source: &String, message: &String) -> (r: String)
    ensures
        r@ == source@ + ": "@ + message@,
{
    let mut out: Vec<char> = Vec::new();
    crate::text::push_str(&mut out, source.as_str());
    crate::text::push_str(&mut out, ": ");
    crate::text::push_str(&mut out, message.as_str());
    to_string(&out)
}

/// Every line of `text` sanitized, joined by `\n`.
fn sanitized_text(text: &String) -> (r: String)
    ensures
        r@ == joined(sanitized_lines(lines(text@))),
{
    let ls = crate::logs::sanitize_lines(text.as_str());
    join_lines(&ls)
}

impl App {
    /// Applies one background update.
    #[verifier::spinoff_prover]
    #[verifier::rlimit(30)]
    pub fn apply(&mut self, u: Update)
        requires
            old(self).well_formed(),
        ensures
            final(self).well_formed(),
            match u {
                Update::Jobs(js) => {
                    &&& old(self).refreshed(js@, final(self))
                    &&& final(self).jobs_at is Some
                    &&& *final(self) == (App {
                        jobs: final(self).jobs,
                        running: final(self).running,
                        selected: final(self).selected,
                        selected_job_id: final(self).selected_job_id,
                        jobs_at: final(self).jobs_at,
                        ..*old(self)
                    })
                },
                Update::Cluster(text) => {
                    &&& final(self).cluster_at is Some
                    &&& *final(self) == (App {
                        cluster: text,
                        cluster_at: final(self).cluster_at,
                        ..*old(self)
                    })
                },
                Update::Users(users) => *final(self) == (App { known_users: users, ..*old(self) }),
                Update::UserLoad(rows) => *final(self) == (App { userload: rows, ..*old(self) }),
                Update::Array(a) => *final(self) == (App { array: a, ..*old(self) }),
                Update::Log { lines, replace } => {
                    &&& string_views(final(self).log@) == capped(
                        if replace {
                            string_views(lines@)
                        } else {
                            string_views(old(self).log@) + string_views(lines@)
                        },
                    )
                    &&& *final(self) == (App { log: final(self).log, ..*old(self) })
                },
                Update::Error { source, message } => {
                    &&& final(self).last_error matches Some((m, _)) && m@ == source@ + ": "@
                        + message@
                    &&& *final(self) == (App { last_error: final(self).last_error, ..*old(self) })
                },
                Update::Details { job, text, output_path } => {
                    &&& final(self).details@ == joined(sanitized_lines(lines(text@)))
                    &&& *final(self) == (App {
                        details: final(self).details,
                        details_job: Some(job),
                        details_scroll: 0,
                        output_path: output_path,
                        ..*old(self)
                    })
                },
            },
    {
        match u {
            Update::Jobs(jobs) => {
                self.recompute_running(jobs);
                self.jobs_at = Some(now());
            },
            Update::Cluster(text) => {
                self.cluster = text;
                self.cluster_at = Some(now());
            },
            Update::Users(users) => self.known_users = users,
            Update::UserLoad(rows) => self.userload = rows,
            Update::Array(a) => self.array = a,
            Update::Log { lines, replace } => self.apply_log(lines, replace),
            Update::Error { source, message } => {
                self.last_error = Some((error_text(&source, &message), now()));
            },
            Update::Details { job, text, output_path } => {
                self.details = sanitized_text(&text);
                self.details_job = Some(job);
                self.details_scroll = 0;
                self.output_path = output_path;
            },
        }
    }

    #[verifier::spinoff_prover]
    #[verifier::rlimit(20)]
    fn apply_log(&mut self, lines: Vec<String>, replace: bool)
        ensures
            string_views(final(self).log@) == capped(
                if replace {
                    string_views(lines@)
                } else {
                    string_views(old(self).log@) + string_views(lines@)
                },
            ),
            *final(self) == (App { log: final(self).log, ..*old(self) }),
    {
        let mut lines = lines;
        let ghost joined_view = if replace {
            string_views(lines@)
        } else {
            string_views(self.log@) + string_views(lines@)
        };
        if replace {
            self.log = lines;
        } else {
            self.log.append(&mut lines);
            proof {
                assert(string_views(self.log@) =~= joined_view);
            }
        }
        // Keep the whole file navigable; only bound memory for a runaway tail.
        let cap: usize = 1_000_000;
        if self.log.len() > cap {
            let drop = self.log.len() - cap;
            let ghost full = self.log@;
            let tail = self.log.split_off(drop);
            self.log = tail;
            proof {
                assert(string_views(self.log@) =~= string_views(full).skip(drop as int));
            }
        }
    }

    /// The selected running job, if any.
    pub fn selected_job(&self) -> (r: Option<&Job>)
        requires
            self.well_formed(),
        ensures
            r == (if self.selected < self.running@.len() {
                Some(&self.jobs@[self.running@[self.selected as int] as int])
            } else {
                None
            }),
    {
        if self.selected < self.running.len() {
            Some(&self.jobs[self.running[self.selected]])
        } else {
            None
        }
    }

    pub fn running_count(&self) -> (r: usize)
        ensures
            r == self.running@.len(),
    {
        self.running.len()
    }

    /// The 1-based position of the selection among the running jobs (0 when
    /// none runs).
    pub fn selected_ordinal(&self) -> (r: usize)
        requires
            self.running@.len() > 0 ==> self.selected < usize::MAX,
        ensures
            r == (if self.running@.len() == 0 {
                0
            } else {
                self.selected + 1
            }),
    {
        if self.running.len() == 0 {
            0
        } else {
            self.selected + 1
        }
    }

    /// Shared post-switch bookkeeping: re-anchor the selected id and re-pin the
    /// log to the new job's tail. The active tab is left as-is.
    fn on_selection_change(&mut self)
        requires
            old(self).well_formed(),
        ensures
            opt_view_id(final(self).selected_job_id) == old(self).id_at(old(self).selected as int),
            *final(self) == (App {
                selected_job_id: final(self).selected_job_id,
                log_follow: true,
                log_scroll: 0,
                ..*old(self)
            }),
    {
        if self.selected < self.running.len() {
            let i = self.running[self.selected];
            self.selected_job_id = Some(self.jobs[i].id.clone());
        } else {
            self.selected_job_id = None;
        }
        self.log_follow = true;
        self.log_scroll = 0;
    }

    /// Selects the next running job, wrapping from the last to the first.
    pub fn next_job(&mut self)
        requires
            old(self).well_formed(),
            old(self).running@.len() > 0 ==> old(self).selected < usize::MAX,
        ensures
            final(self).well_formed(),
            old(self).running@.len() == 0 ==> *final(self) == *old(self),
            old(self).running@.len() > 0 ==> switched_to(
                *old(self),
                *final(self),
                ((old(self).selected + 1) % (old(self).running@.len() as int)) as usize,
            ),
    {
        if self.running.len() == 0 {
            return;
        }
        self.selected = (self.selected + 1) % self.running.len();
        self.on_selection_change();
    }

    /// Selects the previous running job, wrapping from the first to the last.
    pub fn prev_job(&mut self)
        requires
            old(self).well_formed(),
            old(self).running@.len() > 0 ==> old(self).selected + old(self).running@.len() - 1
                <= usize::MAX,
        ensures
            final(self).well_formed(),
            old(self).running@.len() == 0 ==> *final(self) == *old(self),
            old(self).running@.len() > 0 ==> switched_to(
                *old(self),
                *final(self),
                ((old(self).selected + old(self).running@.len() - 1) % (
                old(self).running@.len() as int)) as usize,
            ),
    {
        if self.running.len() == 0 {
            return;
        }
        self.selected = (self.selected + (self.running.len() - 1)) % self.running.len();
        self.on_selection_change();
    }

    pub fn next_tab(&mut self)
        ensures
            *final(self) == (App { top_tab: tab_after(old(self).top_tab), ..*old(self) }),
    {
        self.top_tab = match self.top_tab {
            TopTab::SystemLoad => TopTab::LogPreview,
            TopTab::LogPreview => TopTab::Details,
            TopTab::Details => TopTab::SystemLoad,
        };
    }

    pub fn prev_tab(&mut self)
        ensures
            *final(self) == (App { top_tab: tab_before(old(self).top_tab), ..*old(self) }),
    {
        self.top_tab = match self.top_tab {
            TopTab::SystemLoad => TopTab::Details,
            TopTab::LogPreview => TopTab::SystemLoad,
            TopTab::Details => TopTab::LogPreview,
        };
    }

    /// The active tab's (follow flag, scroll offset).
    pub open spec fn active_pair(&self) -> (bool, usize) {
        match self.top_tab {
            TopTab::SystemLoad => (self.cluster_follow, self.cluster_scroll),
            TopTab::LogPreview => (self.log_follow, self.log_scroll),
            TopTab::Details => (self.details_follow, self.details_scroll),
        }
    }

    /// `self` with the active tab's follow flag and scroll offset replaced.
    pub open spec fn with_active(self, follow: bool, scroll: usize) -> App {
        match self.top_tab {
            TopTab::SystemLoad => App { cluster_follow: follow, cluster_scroll: scroll, ..self },
            TopTab::LogPreview => App { log_follow: follow, log_scroll: scroll, ..self },
            TopTab::Details => App { details_follow: follow, details_scroll: scroll, ..self },
        }
    }

    /// The active tab's (follow flag, scroll offset), as a disjoint mutable pair.
    pub fn active(&mut self) -> (r: (&mut bool, &mut usize))
        ensures
            (*r.0, *r.1) == old(self).active_pair(),
            *final(self) == old(self).with_active(*final(r.0), *final(r.1)),
    {
        match self.top_tab {
            TopTab::SystemLoad => (&mut self.cluster_follow, &mut self.cluster_scroll),
            TopTab::LogPreview => (&mut self.log_follow, &mut self.log_scroll),
            TopTab::Details => (&mut self.details_follow, &mut self.details_scroll),
        }
    }

    /// Scroll the active tab up/down by `step` lines (turns off tail-follow).
    fn scroll_by(&mut self, up: bool, step: usize)
        ensures
            *final(self) == old(self).with_active(
                false,
                if up {
                    sat_sub(old(self).active_pair().1, step)
                } else {
                    sat_add(old(self).active_pair().1, step)
                },
            ),
    {
        let (follow, scroll) = self.active();
        *follow = false;
        *scroll = if up {
            scroll.saturating_sub(step)
        } else {
            scroll.saturating_add(step)
        };
    }

    /// One page: the viewport height, at least one line.
    pub open spec fn page(&self) -> usize {
        if self.top_inner_h > 1 {
            self.top_inner_h
        } else {
            1
        }
    }

    pub fn page_up(&mut self)
        ensures
            *final(self) == old(self).with_active(
                false,
                sat_sub(old(self).active_pair().1, old(self).page()),
            ),
    {
        let step = if self.top_inner_h > 1 { self.top_inner_h } else { 1 };
        self.scroll_by(true, step);
    }

    pub fn page_down(&mut self)
        ensures
            *final(self) == old(self).with_active(
                false,
                sat_add(old(self).active_pair().1, old(self).page()),
            ),
    {
        let step = if self.top_inner_h > 1 { self.top_inner_h } else { 1 };
        self.scroll_by(false, step);
    }

    pub fn scroll_up(&mut self)
        ensures
            *final(self) == old(self).with_active(false, sat_sub(old(self).active_pair().1, 1)),
    {
        self.scroll_by(true, 1);
    }

    pub fn scroll_down(&mut self)
        ensures
            *final(self) == old(self).with_active(false, sat_add(old(self).active_pair().1, 1)),
    {
        self.scroll_by(false, 1);
    }

    pub fn scroll_to_top(&mut self)
        ensures
            *final(self) == old(self).with_active(false, 0),
    {
        let (follow, scroll) = self.active();
        *follow = false;
        *scroll = 0;
    }

    /// Re-engages tail-follow on the active tab.
    pub fn scroll_to_bottom(&mut self)
        ensures
            *final(self) == old(self).with_active(true, old(self).active_pair().1),
    {
        *self.active().0 = true;
    }

    /// Open the username input box with a clean (empty) buffer.
    pub fn begin_user_input(&mut self)
        ensures
            final(self).input matches Some(b) && b@.len() == 0,
            *final(self) == (App { input: final(self).input, ..*old(self) }),
    {
        self.input = Some(String::new());
    }

    pub fn input_push(&mut self, c: char)
        ensures
            opt_view_id(final(self).input) == match opt_view_id(old(self).input) {
                Some(b) => Some(b.push(c)),
                None => None,
            },
            *final(self) == (App { input: final(self).input, ..*old(self) }),
    {
        match &mut self.input {
            Some(buf) => buf.push(c),
            None => {},
        }
    }

    pub fn input_backspace(&mut self)
        ensures
            opt_view_id(final(self).input) == match opt_view_id(old(self).input) {
                Some(b) => Some(
                    if b.len() > 0 {
                        b.drop_last()
                    } else {
                        b
                    },
                ),
                None => None,
            },
            *final(self) == (App { input: final(self).input, ..*old(self) }),
    {
        match &mut self.input {
            Some(buf) => {
                buf.pop();
            },
            None => {},
        }
    }

    pub fn cancel_input(&mut self)
        ensures
            *final(self) == (App { input: None, ..*old(self) }),
    {
        self.input = None;
    }

    /// Toggle array-job compaction, flipping from whatever is currently shown
    /// and pinning the choice so it no longer auto-follows the fit.
    pub fn toggle_compact(&mut self)
        ensures
            *final(self) == (App {
                compact: !old(self).compact,
                compact_override: Some(!old(self).compact),
                ..*old(self)
            }),
    {
        let new = !self.compact;
        self.compact = new;
        self.compact_override = Some(new);
    }

    pub fn toggle_array(&mut self)
        ensures
            *final(self) == (App { show_array: !old(self).show_array, ..*old(self) }),
    {
        self.show_array = !self.show_array;
    }

    pub fn toggle_queued(&mut self)
        ensures
            *final(self) == (App { show_queued: !old(self).show_queued, ..*old(self) }),
    {
        self.show_queued = !self.show_queued;
    }

    pub fn toggle_running(&mut self)
        ensures
            *final(self) == (App { show_running: !old(self).show_running, ..*old(self) }),
    {
        self.show_running = !self.show_running;
    }
}

pub open spec fn opt_view_id(o: Option<String>) -> Option<Seq<char>> {
    crate::pbs::opt_view(o)
}

/// `usize::saturating_sub`.
pub open spec fn sat_sub(a: usize, b: usize) -> usize {
    if a >= b {
        (a - b) as usize
    } else {
        0
    }
}

/// `usize::saturating_add`.
pub open spec fn sat_add(a: usize, b: usize) -> usize {
    if a + b <= usize::MAX {
        (a + b) as usize
    } else {
        usize::MAX
    }
}

/// Selecting the previous running job undoes selecting the next one, and the
/// reverse, for any in-range selection.
pub proof fn law_prev_job_undoes_next_job(sel: int, n: int)
    requires
        0 <= sel < n,
    ensures
        (((sel + 1) % n) + n - 1) % n == sel,
        (((sel + n - 1) % n) + 1) % n == sel,
{
    if sel + 1 < n {
        assert((sel + 1) % n == sel + 1) by (nonlinear_arith)
            requires
                0 <= sel + 1 < n,
        ;
        assert((sel + n) % n == sel) by (nonlinear_arith)
            requires
                0 <= sel < n,
        ;
    } else {
        assert((sel + 1) % n == 0) by (nonlinear_arith)
            requires
                sel + 1 == n,
                n > 0,
        ;
        assert((n - 1) % n == sel) by (nonlinear_arith)
            requires
                sel == n - 1,
                n > 0,
        ;
    }
    if sel > 0 {
        assert((sel + n - 1) % n == sel - 1) by (nonlinear_arith)
            requires
                0 < sel < n,
        ;
        assert(sel % n == sel) by (nonlinear_arith)
            requires
                0 <= sel < n,
        ;
    } else {
        assert((n - 1) % n == n - 1) by (nonlinear_arith)
            requires
                n > 0,
        ;
        assert(n % n == 0) by (nonlinear_arith)
            requires
                n > 0,
        ;
    }
}

/// `new` is `old` with the selection moved to the running job at `sel`: its
/// id recorded and the log re-pinned to that job's tail, all else kept.
pub open spec fn switched_to(old: App, new: App, sel: usize) -> bool {
    &&& opt_view_id(new.selected_job_id) == old.id_at(sel as int)
    &&& new == (App {
        selected: sel,
        selected_job_id: new.selected_job_id,
        log_follow: true,
        log_scroll: 0,
        ..old
    })
}

/// `prev_job` after `next_job` (and `next_job` after `prev_job`) comes back
/// to the selected job: the same position, the same recorded id.
pub proof fn law_prev_job_undoes_next_job_on_app(a0: App, a1: App, a2: App)
    requires
        a0.running@.len() > 0,
        a0.selected < a0.running@.len(),
        switched_to(a0, a1, ((a0.selected + 1) % (a0.running@.len() as int)) as usize),
        switched_to(
            a1,
            a2,
            ((a1.selected + a1.running@.len() - 1) % (a1.running@.len() as int)) as usize,
        ),
    ensures
        a2.selected == a0.selected,
        opt_view_id(a2.selected_job_id) == a0.id_at(a0.selected as int),
{
    vstd::std_specs::vec::axiom_spec_len(&a0.running);
    let n = a0.running@.len() as int;
    let s = a0.selected as int;
    law_prev_job_undoes_next_job(s, n);
    assert(0 <= (s + 1) % n < n) by (nonlinear_arith)
        requires
            n > 0,
    ;
    assert(a1.selected as int == (s + 1) % n);
    assert(a1.running == a0.running);
    assert(0 <= ((s + 1) % n + n - 1) % n < n) by (nonlinear_arith)
        requires
            n > 0,
    ;
    assert(a2.selected as int == ((s + 1) % n + n - 1) % n);
}

/// Scrolling changes only the active tab's follow flag and offset: the other
/// two tabs keep theirs.
pub proof fn law_scroll_touches_only_active_tab(app: App, follow: bool, scroll: usize)
    ensures
        app.top_tab != TopTab::SystemLoad ==> app.with_active(follow, scroll).cluster_follow
            == app.cluster_follow && app.with_active(follow, scroll).cluster_scroll
            == app.cluster_scroll,
        app.top_tab != TopTab::LogPreview ==> app.with_active(follow, scroll).log_follow
            == app.log_follow && app.with_active(follow, scroll).log_scroll == app.log_scroll,
        app.top_tab != TopTab::Details ==> app.with_active(follow, scroll).details_follow
            == app.details_follow && app.with_active(follow, scroll).details_scroll
            == app.details_scroll,
        app.with_active(follow, scroll).active_pair() == (follow, scroll),
        app.with_active(follow, scroll).top_tab == app.top_tab,
{
}

/// One line down then one line up returns to the same offset (away from the
/// top of the offset range).
pub proof fn law_scroll_down_then_up(offset: usize)
    requires
        offset < usize::MAX,
    ensures
        sat_sub(sat_add(offset, 1), 1) == offset,
{
}

/// A log replaced by `a` and then extended by `b` holds `a` followed by `b`
/// (up to the last `log_cap()` lines).
pub proof fn law_log_replace_then_append(a: Seq<Seq<char>>, b: Seq<Seq<char>>)
    requires
        a.len() <= log_cap(),
    ensures
        capped(capped(a) + b) == capped(a + b),
{
}


// ---------------------------------------------------------------------------
// Fuzzy username matching
// ---------------------------------------------------------------------------

/// Position of the first `b` in `s`, or `s.len()`.
pub open spec fn pos_byte(s: Seq<u8>, b: u8) -> nat
    decreases s.len(),
{
    if s.len() == 0 {
        0
    } else if s[0] == b {
        0
    } else {
        1 + pos_byte(s.drop_first(), b)
    }
}

proof fn lemma_pos_byte(s: Seq<u8>, b: u8, j: int)
    requires
        0 <= j <= s.len(),
        forall|k: int| 0 <= k < j ==> s[k] != b,
        j < s.len() ==> s[j] == b,
    ensures
        pos_byte(s, b) == j,
    decreases s.len(),
{
    if s.len() > 0 && s[0] != b {
        lemma_pos_byte(s.drop_first(), b, j - 1);
    }
}

/// The bonus for matching the query bytes `q` in order in `c`, searching from
/// `ci`, the previous match being at `last`: each query byte takes the next
/// equal candidate byte; 10 when that is the candidate's first byte, 5 when it
/// directly follows the previous match. `None` when `q` is not a subsequence.
pub open spec fn fuzzy_bonus(q: Seq<u8>, c: Seq<u8>, ci: int, last: int) -> Option<int>
    decreases q.len(),
{
    if q.len() == 0 {
        Some(0)
    } else if ci < 0 || ci > c.len() {
        None
    } else {
        let p = ci + pos_byte(c.skip(ci), q[0]);
        if p >= c.len() {
            None
        } else {
            let here = (if p == 0 {
                10int
            } else {
                0int
            }) + (if p > 0 && last == p - 1 {
                5int
            } else {
                0int
            });
            match fuzzy_bonus(q.drop_first(), c, p + 1, p) {
                Some(b) => Some(here + b),
                None => None,
            }
        }
    }
}

/// Fuzzy score of the (lowercased, UTF-8) query bytes against candidate
/// bytes; higher is better: the subsequence bonus, minus the length
/// difference, plus 15 when the query is a prefix.
pub open spec fn fuzzy_bytes(q: Seq<u8>, c: Seq<u8>) -> Option<int> {
    if q.len() == 0 {
        None
    } else {
        match fuzzy_bonus(q, c, 0, -2) {
            Some(b) => Some(
                b - (c.len() - q.len()) + (if q.len() <= c.len() && c.take(q.len() as int) == q {
                    15int
                } else {
                    0int
                }),
            ),
            None => None,
        }
    }
}

/// Case-insensitive fuzzy score of `query` against `cand`: over the UTF-8
/// bytes of their lowercase forms.
pub open spec fn fuzzy_of(query: Seq<char>, cand: Seq<char>) -> Option<int> {
    fuzzy_bytes(
        vstd::utf8::encode_utf8(crate::text::lowercase(query)),
        vstd::utf8::encode_utf8(crate::text::lowercase(cand)),
    )
}

/// `q` occurs in `c` in order, not necessarily contiguously.
pub open spec fn is_subseq(q: Seq<u8>, c: Seq<u8>) -> bool
    decreases c.len(),
{
    if q.len() == 0 {
        true
    } else if c.len() == 0 {
        false
    } else if q[0] == c[0] {
        is_subseq(q.drop_first(), c.drop_first())
    } else {
        is_subseq(q, c.drop_first())
    }
}

/// Taking the first occurrence of the query's first byte loses no match.
proof fn lemma_subseq_greedy(q: Seq<u8>, c: Seq<u8>)
    requires
        q.len() > 0,
    ensures
        pos_byte(c, q[0]) <= c.len(),
        is_subseq(q, c) <==> (pos_byte(c, q[0]) < c.len() && is_subseq(
            q.drop_first(),
            c.skip(pos_byte(c, q[0]) as int + 1),
        )),
    decreases c.len(),
{
    if c.len() > 0 {
        if c[0] == q[0] {
            assert(c.skip(1) == c.drop_first());
        } else {
            lemma_subseq_greedy(q, c.drop_first());
            let p = pos_byte(c.drop_first(), q[0]) as int;
            if p < c.drop_first().len() {
                assert(c.drop_first().skip(p + 1) =~= c.skip(p + 2));
            }
        }
    }
}

proof fn lemma_bonus_subseq(q: Seq<u8>, c: Seq<u8>, ci: int, last: int)
    requires
        0 <= ci <= c.len(),
    ensures
        fuzzy_bonus(q, c, ci, last) is Some <==> is_subseq(q, c.skip(ci)),
    decreases q.len(),
{
    if q.len() > 0 {
        lemma_subseq_greedy(q, c.skip(ci));
        let p = ci + pos_byte(c.skip(ci), q[0]);
        if p < c.len() {
            lemma_bonus_subseq(q.drop_first(), c, p + 1, p);
            assert(c.skip(ci).skip(pos_byte(c.skip(ci), q[0]) as int + 1) =~= c.skip(p + 1));
        }
    }
}

/// A candidate scores exactly when the lowercased query is a non-empty
/// subsequence of the lowercased candidate (both as UTF-8 bytes).
pub proof fn law_fuzzy_scores_subsequences(query: Seq<char>, cand: Seq<char>)
    ensures
        fuzzy_of(query, cand) is Some <==> ({
            let q = vstd::utf8::encode_utf8(crate::text::lowercase(query));
            let c = vstd::utf8::encode_utf8(crate::text::lowercase(cand));
            q.len() > 0 && is_subseq(q, c)
        }),
{
    let q = vstd::utf8::encode_utf8(crate::text::lowercase(query));
    let c = vstd::utf8::encode_utf8(crate::text::lowercase(cand));
    lemma_bonus_subseq(q, c, 0, -2);
    assert(c.skip(0) == c);
}

fn fuzzy_score(query: &str, cand: &str) -> (r: Option<i128>)
    ensures
        r matches Some(x) ==> fuzzy_of(query@, cand@) == Some(x as int),
        r is None ==> fuzzy_of(query@, cand@) is None,
{
    let q = crate::text::to_lowercase(query);
    let c = crate::text::to_lowercase(cand);
    fuzzy_bytes_score(q.as_str().as_bytes(), c.as_str().as_bytes())
}

/// The fuzzy score of already lowercased query bytes against candidate
/// bytes (see [`fuzzy_bytes`]); `None` when the query is empty or not a
/// subsequence.
pub fn fuzzy_bytes_score(qb: &[u8], cb: &[u8]) -> (r: Option<i128>)
    ensures
        r matches Some(x) ==> fuzzy_bytes(qb@, cb@) == Some(x as int),
        r is None ==> fuzzy_bytes(qb@, cb@) is None,
{
    let ghost qs = qb@;
    let ghost cs = cb@;
    if qb.len() == 0 {
        return None;
    }
    let mut ci: usize = 0;
    let mut score: i128 = 0;
    let mut last: Option<usize> = None;
    let mut k: usize = 0;
    proof {
        assert(qs.skip(0) == qs);
    }
    while k < qb.len()
        invariant
            qs == qb@,
            cs == cb@,
            qs.len() > 0,
            k <= qb.len(),
            ci <= cb.len(),
            0 <= score <= 15 * k,
            k == 0 ==> ci == 0 && last is None,
            last matches Some(x) ==> x < ci,
            fuzzy_bonus(qs, cs, 0, -2) == match fuzzy_bonus(
                qs.skip(k as int),
                cs,
                ci as int,
                match last {
                    Some(x) => x as int,
                    None => -2,
                },
            ) {
                Some(b) => Some(score + b),
                None => None,
            },
        decreases qb.len() - k,
    {
        let qch = qb[k];
        let ghost ci0 = ci;
        let ghost last_i: int = match last {
            Some(x) => x as int,
            None => -2,
        };
        while ci < cb.len() && cb[ci] != qch
            invariant
                ci0 <= ci <= cb.len(),
                cs == cb@,
                forall|m: int| ci0 <= m < ci ==> cs[m] != qch,
            decreases cb.len() - ci,
        {
            ci += 1;
        }
        proof {
            lemma_pos_byte(cs.skip(ci0 as int), qch, ci - ci0);
            assert(qs.skip(k as int)[0] == qch);
            assert(qs.skip(k as int).drop_first() == qs.skip(k + 1));
        }
        if ci == cb.len() {
            proof {
                assert(qs.skip(k as int).len() > 0);
                assert(fuzzy_bonus(qs.skip(k as int), cs, ci0 as int, last_i) is None);
                assert(fuzzy_bonus(qs, cs, 0, -2) is None);
                assert(fuzzy_bytes(qs, cs) is None);
            }
            return None;
        }
        if ci == 0 {
            score = score + 10;
        }
        if ci > 0 && last == Some(ci - 1) {
            score = score + 5;
        }
        last = Some(ci);
        ci += 1;
        k += 1;
    }
    proof {
        assert(qs.skip(k as int) == Seq::<u8>::empty());
    }
    score = score - (cb.len() as i128 - qb.len() as i128);
    let mut prefix = qb.len() <= cb.len();
    if prefix {
        let mut m: usize = 0;
        while m < qb.len()
            invariant
                qb.len() <= cb.len(),
                m <= qb.len(),
                qs == qb@,
                cs == cb@,
                prefix == (forall|t: int| 0 <= t < m ==> cs[t] == qs[t]),
            decreases qb.len() - m,
        {
            if cb[m] != qb[m] {
                prefix = false;
            }
            m += 1;
        }
        proof {
            if prefix {
                assert(cs.take(qs.len() as int) =~= qs);
            } else {
                let t = choose|t: int| 0 <= t < qs.len() && cs[t] != qs[t];
                assert(cs.take(qs.len() as int)[t] != qs[t]);
            }
        }
    }
    if prefix {
        score = score + 15;
    }
    Some(score)
}

/// Byte length of a string (`str::len`).
pub open spec fn byte_len(s: Seq<char>) -> nat {
    vstd::utf8::encode_utf8(s).len()
}

/// The best fuzzy match among `users` as (index, score): the highest score,
/// the shorter candidate on equal scores, and the later candidate on a full tie.
pub open spec fn best_match(q: Seq<char>, users: Seq<Seq<char>>) -> Option<(int, int)>
    decreases users.len(),
{
    if users.len() == 0 {
        None
    } else {
        let prev = best_match(q, users.drop_last());
        let n = users.len() - 1;
        match fuzzy_of(q, users[n]) {
            None => prev,
            Some(s) => match prev {
                None => Some((n, s)),
                Some((p, ps)) => if s > ps || (s == ps && byte_len(users[n]) <= byte_len(
                    users[p],
                )) {
                    Some((n, s))
                } else {
                    prev
                },
            },
        }
    }
}

/// The best match has the highest score of all the candidates that match at
/// all, and there is a best match exactly when some candidate matches.
pub proof fn law_best_match_is_highest(q: Seq<char>, users: Seq<Seq<char>>)
    ensures
        best_match(q, users) matches Some((p, s)) ==> {
            &&& 0 <= p < users.len()
            &&& fuzzy_of(q, users[p]) == Some(s)
            &&& forall|i: int|
                0 <= i < users.len() ==> (#[trigger] fuzzy_of(q, users[i]) matches Some(si) ==> si
                    <= s)
        },
        best_match(q, users) is None <==> forall|i: int|
            0 <= i < users.len() ==> (#[trigger] fuzzy_of(q, users[i])) is None,
    decreases users.len(),
{
    if users.len() > 0 {
        let d = users.drop_last();
        law_best_match_is_highest(q, d);
        assert forall|i: int| 0 <= i < d.len() implies d[i] == users[i] by {}
    }
}

/// Highest-scoring fuzzy match for `query` among `users` (shorter wins ties).
pub fn best_user_match(query: &str, users: &[String]) -> (r: Option<String>)
    ensures
        match best_match(query@, string_views(users@)) {
            Some((p, _)) => r matches Some(u) && u@ == users@[p]@,
            None => r is None,
        },
{
    let mut best: Option<(usize, i128)> = None;
    let mut i: usize = 0;
    while i < users.len()
        invariant
            i <= users.len(),
            match best_match(query@, string_views(users@).take(i as int)) {
                Some((p, s)) => best matches Some((bp, bs)) && bp == p && bs == s && p < i,
                None => best is None,
            },
        decreases users.len() - i,
    {
        let ghost us = string_views(users@).take(i + 1);
        proof {
            assert(us.drop_last() == string_views(users@).take(i as int));
            assert(us[i as int] == users@[i as int]@);
        }
        let u = users[i].as_str();
        match fuzzy_score(query, u) {
            None => {},
            Some(sc) => {
                match best {
                    None => {
                        best = Some((i, sc));
                    },
                    Some((p, ps)) => {
                        let ul = u.as_bytes().len();
                        let pl = users[p].as_str().as_bytes().len();
                        proof {
                            assert(string_views(users@).take(i as int)[p as int] == users@[p as int]@);
                        }
                        if sc > ps || (sc == ps && ul <= pl) {
                            best = Some((i, sc));
                        }
                    },
                }
            },
        }
        i += 1;
    }
    proof {
        assert(string_views(users@).take(users.len() as int) == string_views(users@));
    }
    match best {
        Some((p, _)) => Some(users[p].clone()),
        None => None,
    }
}

/// The name offered for the username box: the best fuzzy match among the
/// known users for the trimmed buffer, unless the box is closed, the buffer
/// is blank, or it already names a known user exactly.
pub open spec fn suggestion(input: Option<Seq<char>>, known: Seq<Seq<char>>) -> Option<
    Seq<char>,
> {
    match input {
        None => None,
        Some(b) => {
            let t = crate::text::trim(b);
            if t.len() == 0 || known.contains(t) {
                None
            } else {
                match best_match(t, known) {
                    Some((p, _)) => Some(known[p]),
                    None => None,
                }
            }
        },
    }
}

/// The suggestion is always one of the known users, and never the exact text
/// already typed.
pub proof fn law_suggestion_is_known_user(input: Option<Seq<char>>, known: Seq<Seq<char>>)
    ensures
        suggestion(input, known) matches Some(s) ==> known.contains(s) && Some(crate::text::trim(
            input->0,
        )) != Some(s),
{
    if let Some(b) = input {
        let t = crate::text::trim(b);
        law_best_match_is_highest(t, known);
        if let Some((p, _)) = best_match(t, known) {
            if t.len() != 0 && !known.contains(t) {
                assert(known.contains(known[p]));
            }
        }
    }
}

/// The name the box resolves to on Enter: the suggestion if any, else the
/// trimmed text.
pub open spec fn resolved_name(input: Seq<char>, known: Seq<Seq<char>>) -> Seq<char> {
    match suggestion(Some(input), known) {
        Some(s) => s,
        None => crate::text::trim(input),
    }
}

impl App {
    /// The best fuzzy match for the current buffer among `known_users`, if the
    /// buffer is non-empty and isn't already an exact known user.
    pub fn user_suggestion(&self) -> (r: Option<String>)
        ensures
            opt_view_id(r) == suggestion(opt_view_id(self.input), string_views(self.known_users@)),
    {
        match &self.input {
            None => None,
            Some(b) => {
                let bv = to_chars(b.as_str());
                let t = crate::text::trim_chars(&bv);
                if t.len() == 0 {
                    return None;
                }
                let mut i: usize = 0;
                while i < self.known_users.len()
                    invariant
                        i <= self.known_users@.len(),
                        forall|k: int| 0 <= k < i ==> self.known_users@[k]@ != t@,
                        opt_view_id(self.input) == Some(bv@),
                        t@ == crate::text::trim(bv@),
                        t@.len() > 0,
                    decreases self.known_users@.len() - i,
                {
                    let u = to_chars(self.known_users[i].as_str());
                    if crate::text::chars_eq(&u, &t) {
                        proof {
                            assert(string_views(self.known_users@)[i as int] == t@);
                            assert(string_views(self.known_users@).contains(t@));
                        }
                        return None;
                    }
                    i += 1;
                }
                proof {
                    assert(!string_views(self.known_users@).contains(t@));
                }
                let ts = to_string(&t);
                let r = best_user_match(ts.as_str(), self.known_users.as_slice());
                proof {
                    let known = string_views(self.known_users@);
                    law_best_match_is_highest(t@, known);
                    if let Some((p, _)) = best_match(t@, known) {
                        assert(known[p] == self.known_users@[p]@);
                    }
                }
                r
            },
        }
    }

    /// Close the box and resolve the final username: the fuzzy match if one
    /// exists, else the raw text. Adopt and return it when non-empty and
    /// different from the current user; otherwise `None`.
    pub fn confirm_input(&mut self) -> (r: Option<String>)
        ensures
            old(self).input is None ==> r is None && *final(self) == *old(self),
            old(self).input matches Some(b) ==> {
                let name = resolved_name(b@, string_views(old(self).known_users@));
                if name.len() == 0 || name == old(self).user@ {
                    r is None && *final(self) == (App { input: None, ..*old(self) })
                } else {
                    &&& r matches Some(n) && n@ == name
                    &&& final(self).user@ == name
                    &&& *final(self) == (App { input: None, user: final(self).user, ..*old(self) })
                }
            },
    {
        let suggestion = self.user_suggestion();
        let buf = match &self.input {
            Some(b) => b.clone(),
            None => return None,
        };
        self.input = None;
        let name = match suggestion {
            Some(s) => s,
            None => {
                let bv = to_chars(buf.as_str());
                let t = crate::text::trim_chars(&bv);
                to_string(&t)
            },
        };
        if name.as_str().is_empty() || name == self.user {
            return None;
        }
        self.user = name.clone();
        Some(name)
    }
}

} // verus!
