//! The background poller's decisions: when each PBS source is due, what a
//! command does to the monitored user, and which updates each poll result
//! becomes. The thread that sleeps, runs the queries and sends the updates
//! drives these from outside.
use vstd::prelude::*;
use crate::app::Update;
use crate::pbs::Job;
use crate::qlload::UserLoad;
use std::time::Duration;

verus! {

/// How often each source is polled.
pub struct PollIntervals {
    pub jobs: Duration,
    pub cluster: Duration,
}

/// Commands the main thread sends the poller.
pub enum PollCmd {
    /// Force an immediate refresh of all PBS sources now.
    Refresh,
    /// Switch the monitored/highlighted user and refresh immediately.
    SetUser(String),
}

/// The user monitored after a command: a switch names the new user, a
/// refresh keeps the current one.
pub fn user_after(cmd: PollCmd, user: String) -> (r: String)
    ensures
        r == match cmd {
            PollCmd::SetUser(u) => u,
            PollCmd::Refresh => user,
        },
{
    match cmd {
        PollCmd::SetUser(u) => u,
        PollCmd::Refresh => user,
    }
}

/// The poller's deadlines: each source's interval and the instant it is next
/// due, in milliseconds on a monotonic clock.
pub struct Schedule {
    pub jobs_every: u64,
    pub cluster_every: u64,
    pub next_jobs: u64,
    pub next_cluster: u64,
}

/// Which sources to poll now.
#[derive(Debug, Clone, Copy, PartialEq, Eq, Structural)]
pub struct Polls {
    pub jobs: bool,
    pub cluster: bool,
}

impl Schedule {
    /// The deadlines after both sources were polled at `now`.
    pub fn new(jobs_every: u64, cluster_every: u64, now: u64) -> (s: Schedule)
        requires
            now + jobs_every <= u64::MAX,
            now + cluster_every <= u64::MAX,
        ensures
            s == (Schedule {
                jobs_every,
                cluster_every,
                next_jobs: (now + jobs_every) as u64,
                next_cluster: (now + cluster_every) as u64,
            }),
    {
        Schedule {
            jobs_every,
            cluster_every,
            next_jobs: now + jobs_every,
            next_cluster: now + cluster_every,
        }
    }

    /// How long to wait for a command before the sooner deadline (zero when
    /// one has already passed).
    pub fn wait(&self, now: u64) -> (w: u64)
        ensures
            ({
                let soonest = if self.next_jobs < self.next_cluster {
                    self.next_jobs
                } else {
                    self.next_cluster
                };
                w == if soonest > now {
                    soonest - now
                } else {
                    0
                }
            }),
    {
        let soonest = if self.next_jobs < self.next_cluster {
            self.next_jobs
        } else {
            self.next_cluster
        };
        soonest.saturating_sub(now)
    }

    /// After a command polled both sources: both deadlines restart from
    /// `now`.
    pub fn restart(&mut self, now: u64)
        requires
            now + old(self).jobs_every <= u64::MAX,
            now + old(self).cluster_every <= u64::MAX,
        ensures
            *final(self) == (Schedule {
                next_jobs: (now + old(self).jobs_every) as u64,
                next_cluster: (now + old(self).cluster_every) as u64,
                ..*old(self)
            }),
    {
        self.next_jobs = now + self.jobs_every;
        self.next_cluster = now + self.cluster_every;
    }

    /// When the wait ran out at `now`: the sources that are due (see
    /// [`timed_out`]), with their deadlines moved on.
    pub fn on_timeout(&mut self, now: u64) -> (p: Polls)
        requires
            now + old(self).jobs_every <= u64::MAX,
            now + old(self).cluster_every <= u64::MAX,
        ensures
            (p, *final(self)) == timed_out(*old(self), now),
    {
        let p = Polls { jobs: now >= self.next_jobs, cluster: now >= self.next_cluster };
        if p.jobs {
            self.next_jobs = now + self.jobs_every;
        }
        if p.cluster {
            self.next_cluster = now + self.cluster_every;
        }
        p
    }
}

/// A timeout at `now`: every source whose deadline has passed is due, and
/// its deadline moves to `now` plus its interval; the other keeps its
/// deadline.
pub open spec fn timed_out(s: Schedule, now: u64) -> (Polls, Schedule) {
    let p = Polls { jobs: now >= s.next_jobs, cluster: now >= s.next_cluster };
    (
        p,
        Schedule {
            next_jobs: if p.jobs {
                (now + s.jobs_every) as u64
            } else {
                s.next_jobs
            },
            next_cluster: if p.cluster {
                (now + s.cluster_every) as u64
            } else {
                s.next_cluster
            },
            ..s
        },
    )
}

/// After a timeout no source is left overdue: with non-zero intervals both
/// deadlines lie after `now`, so the next wait is not zero, and a source is
/// polled at most once per timeout.
pub proof fn law_timeout_leaves_nothing_overdue(s: Schedule, now: u64)
    requires
        s.jobs_every > 0,
        s.cluster_every > 0,
        now + s.jobs_every <= u64::MAX,
        now + s.cluster_every <= u64::MAX,
    ensures
        timed_out(s, now).1.next_jobs > now,
        timed_out(s, now).1.next_cluster > now,
        !timed_out(timed_out(s, now).1, now).0.jobs,
        !timed_out(timed_out(s, now).1, now).0.cluster,
{
}

/// The two PBS sources.
#[derive(Debug, Clone, Copy, PartialEq, Eq, Structural)]
pub enum PollSource {
    Jobs,
    Cluster,
}

/// The order in which the due sources are polled: the user's jobs first,
/// then the cluster load.
pub open spec fn poll_seq(p: Polls) -> Seq<PollSource> {
    (if p.jobs {
        seq![PollSource::Jobs]
    } else {
        seq![]
    }) + (if p.cluster {
        seq![PollSource::Cluster]
    } else {
        seq![]
    })
}

/// The sources to poll now, in order (see [`poll_seq`]).
pub fn poll_sequence(p: Polls) -> (r: Vec<PollSource>)
    ensures
        r@ == poll_seq(p),
{
    let mut r: Vec<PollSource> = Vec::new();
    if p.jobs {
        r.push(PollSource::Jobs);
    }
    if p.cluster {
        r.push(PollSource::Cluster);
    }
    proof {
        assert(r@ =~= poll_seq(p));
    }
    r
}

/// Both sources, as at startup and after every command.
pub open spec fn all_polls() -> Polls {
    Polls { jobs: true, cluster: true }
}

/// What a command asks of the poller: the user monitored from now on, and
/// that both sources be polled at once.
pub fn command_plan(cmd: PollCmd, user: String) -> (r: (String, Polls))
    ensures
        r.0 == match cmd {
            PollCmd::SetUser(u) => u,
            PollCmd::Refresh => user,
        },
        r.1 == all_polls(),
{
    (user_after(cmd, user), Polls { jobs: true, cluster: true })
}

/// A command (a user switch or a refresh) polls the jobs, then the cluster
/// load, each once; any set of due sources is polled jobs first.
pub proof fn law_commands_poll_jobs_then_cluster(p: Polls)
    ensures
        poll_seq(all_polls()) == seq![PollSource::Jobs, PollSource::Cluster],
        p.jobs ==> poll_seq(p)[0] == PollSource::Jobs,
        poll_seq(p).len() <= 2,
{
    assert(poll_seq(all_polls()) =~= seq![PollSource::Jobs, PollSource::Cluster]);
}

/// An `Update::Error` from `source` with `message`.
pub open spec fn is_error(u: Update, source: Seq<char>, message: Seq<char>) -> bool {
    u matches Update::Error { source: s, message: m } && s@ == source && m@ == message
}

fn error_update(source: &str, message: String) -> (u: Update)
    ensures
        is_error(u, source@, message@),
{
    Update::Error { source: String::from_str(source), message }
}

/// Whether any job is an array subjob.
pub open spec fn any_array(jobs: Seq<Job>) -> bool {
    exists|i: int| 0 <= i < jobs.len() && (#[trigger] jobs[i]).id@.contains('[')
}

/// What a poll of the user's jobs sends, and whether the array progress must
/// be fetched next. A job list is sent, followed by `Array(None)` when no
/// job is an array subjob (the progress panel empties); when some job is,
/// the progress is fetched next. A `qstat` failure is sent alone.
pub fn jobs_poll(fetched: Result<Vec<Job>, String>) -> (r: (Vec<Update>, bool))
    ensures
        match fetched {
            Ok(jobs) => {
                &&& r.1 == any_array(jobs@)
                &&& r.0@ == if r.1 {
                    seq![Update::Jobs(jobs)]
                } else {
                    seq![Update::Jobs(jobs), Update::Array(None)]
                }
            },
            Err(e) => {
                &&& r.0@.len() == 1
                &&& is_error(r.0@[0], "qstat"@, e@)
                &&& !r.1
            },
        },
{
    let mut out: Vec<Update> = Vec::new();
    match fetched {
        Ok(jobs) => {
            let arrays = crate::pbs::has_array_jobs(jobs.as_slice());
            out.push(Update::Jobs(jobs));
            if !arrays {
                out.push(Update::Array(None));
            }
            proof {
                if arrays {
                    assert(out@ =~= seq![Update::Jobs(jobs)]);
                } else {
                    assert(out@ =~= seq![Update::Jobs(jobs), Update::Array(None)]);
                }
            }
            (out, arrays)
        },
        Err(e) => {
            out.push(error_update("qstat", e));
            (out, false)
        },
    }
}

/// What the fetched array progress sends: the rendered progress, or the
/// `qarray` failure.
pub fn array_poll(fetched: Result<String, String>) -> (u: Update)
    ensures
        match fetched {
            Ok(text) => u == Update::Array(Some(text)),
            Err(e) => is_error(u, "qarray"@, e@),
        },
{
    match fetched {
        Ok(text) => Update::Array(Some(text)),
        Err(e) => error_update("qarray", e),
    }
}

/// What a cluster poll sends: the node graph, the user list and the user
/// load, in that order; or the `qlload` failure.
pub fn cluster_poll(fetched: Result<(String, Vec<String>, Vec<UserLoad>), String>) -> (r: Vec<
    Update,
>)
    ensures
        match fetched {
            Ok(v) => r@ == seq![Update::Cluster(v.0), Update::Users(v.1), Update::UserLoad(v.2)],
            Err(e) => r@.len() == 1 && is_error(r@[0], "qlload"@, e@),
        },
{
    let mut out: Vec<Update> = Vec::new();
    match fetched {
        Ok(v) => {
            let (text, users, userload) = v;
            out.push(Update::Cluster(text));
            out.push(Update::Users(users));
            out.push(Update::UserLoad(userload));
            proof {
                assert(out@ =~= seq![
                    Update::Cluster(v.0),
                    Update::Users(v.1),
                    Update::UserLoad(v.2),
                ]);
            }
        },
        Err(e) => {
            out.push(error_update("qlload", e));
        },
    }
    out
}

} // verus!
