//! PBS job records: the `qstat -u <user> -t -n1` table parser, job-id helpers,
//! the `Output_Path` attribute of `qstat -f`, and the pure decisions of the
//! PBS queries (quoting for the remote shell, the fallback for vanished jobs).
use vstd::prelude::*;
use crate::text::{
    before, contains_str, eq_str, has_infix, has_prefix, push_all, push_str, split_lines, starts_with,
    trim, trim_chars, trim_start, trim_start_chars, find_char_from, has_char, is_digit, is_digit_char, lines, next_line, parse_u32,
    parse_u32_chars, pos_char, prefix_before, slice, split_words, to_chars, to_string, views, words,
};

verus! {

/// The PBS state of a job, by its single-letter code.
#[derive(Debug, Clone, PartialEq, Eq)]
pub enum JobState {
    Running,
    Queued,
    Held,
    Other(char),
}

/// One row of the `qstat` table.
#[derive(Debug, Clone, PartialEq, Eq)]
pub struct Job {
    pub id: String,
    pub owner: String,
    pub queue: String,
    pub name: String,
    pub state: JobState,
    pub node: Option<String>,
    pub cpus: Option<u32>,
    pub mem: Option<String>,
    pub req_walltime: Option<String>,
    pub elapsed: Option<String>,
}

/// The mathematical content of a [`Job`].
pub struct JobSpec {
    pub id: Seq<char>,
    pub owner: Seq<char>,
    pub queue: Seq<char>,
    pub name: Seq<char>,
    pub state: JobState,
    pub node: Option<Seq<char>>,
    pub cpus: Option<u32>,
    pub mem: Option<Seq<char>>,
    pub req_walltime: Option<Seq<char>>,
    pub elapsed: Option<Seq<char>>,
}

pub open spec fn opt_view(o: Option<String>) -> Option<Seq<char>> {
    match o {
        Some(s) => Some(s@),
        None => None,
    }
}

impl View for Job {
    type V = JobSpec;

    open spec fn view(&self) -> JobSpec {
        JobSpec {
            id: self.id@,
            owner: self.owner@,
            queue: self.queue@,
            name: self.name@,
            state: self.state,
            node: opt_view(self.node),
            cpus: self.cpus,
            mem: opt_view(self.mem),
            req_walltime: opt_view(self.req_walltime),
            elapsed: opt_view(self.elapsed),
        }
    }
}

pub open spec fn job_views(jobs: Seq<Job>) -> Seq<JobSpec> {
    jobs.map_values(|j: Job| j@)
}

/// The state a PBS state letter stands for.
pub open spec fn state_of(c: char) -> JobState {
    if c == 'R' {
        JobState::Running
    } else if c == 'Q' {
        JobState::Queued
    } else if c == 'H' {
        JobState::Held
    } else {
        JobState::Other(c)
    }
}

impl JobState {
    pub fn from_char(c: char) -> (s: JobState)
        ensures
            s == state_of(c),
    {
        match c {
            'R' => JobState::Running,
            'Q' => JobState::Queued,
            'H' => JobState::Held,
            other => JobState::Other(other),
        }
    }
}

/// A job-id-shaped token: it starts with a digit, and before the first '.'
/// every character is a digit, '[' or ']'.
pub open spec fn looks_like_job_id(field: Seq<char>) -> bool {
    let head = before(field, '.');
    &&& head.len() > 0
    &&& is_digit(head[0])
    &&& forall|i: int|
        #![trigger head[i]]
        0 <= i < head.len() ==> is_digit(head[i]) || head[i] == '[' || head[i] == ']'
}

fn looks_like_job_id_chars(field: &Vec<char>) -> (b: bool)
    ensures
        b == looks_like_job_id(field@),
{
    let head = prefix_before(field, '.');
    if head.len() == 0 || !is_digit_char(head[0]) {
        return false;
    }
    let mut i: usize = 0;
    while i < head.len()
        invariant
            i <= head.len(),
            head@ == before(field@, '.'),
            head.len() > 0,
            is_digit(head@[0]),
            forall|k: int|
                #![trigger head@[k]]
                0 <= k < i ==> is_digit(head@[k]) || head@[k] == '[' || head@[k] == ']',
        decreases head.len() - i,
    {
        let c = head[i];
        if !(is_digit_char(c) || c == '[' || c == ']') {
            proof {
                assert(head@[i as int] == c);
                assert(!(is_digit(head@[i as int]) || head@[i as int] == '[' || head@[i as int] == ']'));
            }
            return false;
        }
        i += 1;
    }
    true
}

/// The job number of an id: everything before the first '[' or '.'.
pub open spec fn job_number_of(id: Seq<char>) -> Seq<char> {
    let a = pos_char(id, '[');
    let b = pos_char(id, '.');
    id.take(if a < b { a as int } else { b as int })
}

pub fn job_number_chars(id: &Vec<char>) -> (r: Vec<char>)
    ensures
        r@ == job_number_of(id@),
{
    let a = find_char_from(id, 0, '[');
    let b = find_char_from(id, 0, '.');
    proof {
        assert(id@.skip(0) == id@);
    }
    let end = if a < b { a } else { b };
    proof {
        assert(id@.subrange(0, end as int) == id@.take(end as int));
    }
    slice(id, 0, end)
}

/// Numeric job number: digits before the first '[' or '.'.
pub fn job_number(id: &str) -> (r: String)
    ensures
        r@ == job_number_of(id@),
{
    let v = to_chars(id);
    let n = job_number_chars(&v);
    to_string(&n)
}

/// Whether any job is an array subjob (its id holds a '[').
pub fn has_array_jobs(jobs: &[Job]) -> (b: bool)
    ensures
        b == exists|i: int| 0 <= i < jobs@.len() && (#[trigger] jobs@[i]).id@.contains('['),
{
    let mut i: usize = 0;
    while i < jobs.len()
        invariant
            i <= jobs.len(),
            forall|k: int| 0 <= k < i ==> !(#[trigger] jobs@[k]).id@.contains('['),
        decreases jobs.len() - i,
    {
        let id = to_chars(jobs[i].id.as_str());
        if has_char(&id, '[') {
            return true;
        }
        i += 1;
    }
    false
}

/// A `qstat` column value, `None` for the placeholder `--`.
pub open spec fn column(f: Seq<Seq<char>>, i: int) -> Option<Seq<char>> {
    if i < f.len() && f[i] != "--"@ {
        Some(f[i])
    } else {
        None
    }
}

/// The job that one `qstat -u <user> -t -n1` line describes, if it is a job
/// row: at least ten fields, a job-id-shaped first field, and a one-byte state
/// in the tenth.
pub open spec fn qstat_row(line: Seq<char>) -> Option<JobSpec> {
    let f = words(line);
    if f.len() < 10 || !looks_like_job_id(f[0]) || f[9].len() != 1 || f[9][0] >= '\u{80}' {
        None
    } else {
        Some(
            JobSpec {
                id: f[0],
                owner: f[1],
                queue: f[2],
                name: f[3],
                state: state_of(f[9][0]),
                node: match column(f, 11) {
                    Some(n) => Some(before(n, '/')),
                    None => None,
                },
                cpus: parse_u32(f[6]),
                mem: column(f, 7),
                req_walltime: column(f, 8),
                elapsed: column(f, 10),
            },
        )
    }
}

/// The jobs described by a sequence of lines, in order.
pub open spec fn qstat_jobs(ls: Seq<Seq<char>>) -> Seq<JobSpec>
    decreases ls.len(),
{
    if ls.len() == 0 {
        seq![]
    } else {
        match qstat_row(ls[0]) {
            Some(j) => seq![j] + qstat_jobs(ls.drop_first()),
            None => qstat_jobs(ls.drop_first()),
        }
    }
}

fn column_chars(f: &Vec<Vec<char>>, i: usize) -> (r: Option<String>)
    ensures
        opt_view(r) == column(views(f@), i as int),
{
    if i < f.len() && !eq_str(&f[i], "--") {
        Some(to_string(&f[i]))
    } else {
        None
    }
}

fn parse_row(line: &Vec<char>) -> (r: Option<Job>)
    ensures
        match r {
            Some(j) => qstat_row(line@) == Some(j@),
            None => qstat_row(line@) is None,
        },
{
    let f = split_words(line);
    let ghost fv = views(f@);
    if f.len() < 10 || !looks_like_job_id_chars(&f[0]) || f[9].len() != 1 || f[9][0]
        >= '\u{80}' {
        return None;
    }
    let state = JobState::from_char(f[9][0]);
    let node = match column_chars(&f, 11) {
        Some(n) => {
            let nv = to_chars(n.as_str());
            let h = prefix_before(&nv, '/');
            Some(to_string(&h))
        },
        None => None,
    };
    let cpus = parse_u32_chars(&f[6]);
    let job = Job {
        id: to_string(&f[0]),
        owner: to_string(&f[1]),
        queue: to_string(&f[2]),
        name: to_string(&f[3]),
        state,
        node,
        cpus,
        mem: column_chars(&f, 7),
        req_walltime: column_chars(&f, 8),
        elapsed: column_chars(&f, 10),
    };
    proof {
        assert(fv[0] == f@[0]@);
        assert(fv[9] == f@[9]@);
        assert(fv[6] == f@[6]@);
        assert(qstat_row(line@) == Some(job@));
    }
    Some(job)
}

/// Parse `qstat -u <user> -t -n1` output into jobs. Header/separator/blank
/// lines are skipped: only rows whose first field looks like a job id are kept.
pub fn parse_qstat(raw: &str) -> (jobs: Vec<Job>)
    ensures
        job_views(jobs@) == qstat_jobs(lines(raw@)),
{
    let v = to_chars(raw);
    let mut jobs: Vec<Job> = Vec::new();
    let mut pos: usize = 0;
    proof {
        assert(v@.skip(0) == v@);
    }
    while pos < v.len()
        invariant
            pos <= v.len(),
            v@ == raw@,
            qstat_jobs(lines(v@)) == job_views(jobs@) + qstat_jobs(lines(v@.skip(pos as int))),
        decreases v.len() - pos,
    {
        let (line, next) = next_line(&v, pos);
        let ghost rest = lines(v@.skip(next as int));
        proof {
            assert((seq![line@] + rest)[0] == line@);
            assert((seq![line@] + rest).drop_first() == rest);
        }
        match parse_row(&line) {
            Some(job) => {
                proof {
                    assert(job_views(jobs@.push(job)) == job_views(jobs@).push(job@));
                    assert(job_views(jobs@.push(job)) + qstat_jobs(rest) == job_views(jobs@) + (
                    seq![job@] + qstat_jobs(rest)));
                }
                jobs.push(job);
            },
            None => {},
        }
        pos = next;
    }
    proof {
        assert(v@.skip(pos as int) == Seq::<char>::empty());
        assert(job_views(jobs@) + Seq::<JobSpec>::empty() == job_views(jobs@));
    }
    jobs
}


/// The lines that continue a wrapped `qstat -f` value: each leading line that
/// starts with a tab, without that tab, concatenated.
pub open spec fn continuation(ls: Seq<Seq<char>>) -> Seq<char>
    decreases ls.len(),
{
    if ls.len() > 0 && ls[0].len() > 0 && ls[0][0] == '\t' {
        ls[0].drop_first() + continuation(ls.drop_first())
    } else {
        seq![]
    }
}

/// The part after the first ':' (the whole value when there is none).
pub open spec fn after_colon(v: Seq<char>) -> Seq<char> {
    let i = pos_char(v, ':');
    if i < v.len() {
        v.skip(i as int + 1)
    } else {
        v
    }
}

/// The `Output_Path` attribute among `qstat -f` lines: the value of the first
/// line whose trimmed start is `Output_Path = `, joined with its tab-led
/// continuation lines, without the `host:` prefix, trimmed.
pub open spec fn output_path_in(ls: Seq<Seq<char>>) -> Option<Seq<char>>
    decreases ls.len(),
{
    if ls.len() == 0 {
        None
    } else {
        let t = trim_start(ls[0]);
        if has_prefix(t, "Output_Path = "@) {
            Some(
                trim(
                    after_colon(
                        t.skip("Output_Path = "@.len() as int) + continuation(ls.drop_first()),
                    ),
                ),
            )
        } else {
            output_path_in(ls.drop_first())
        }
    }
}

/// Local file path from a `qstat -f` record's `Output_Path` attribute
/// (`host:/abs/path`), un-wrapping qstat's tab-continued lines and dropping the
/// `host:` prefix. Used as a log-preview fallback. `None` if the attribute is absent.
pub fn output_path(details: &str) -> (r: Option<String>)
    ensures
        opt_view(r) == output_path_in(lines(details@)),
{
    let v = to_chars(details);
    let ls = split_lines(&v);
    let ghost lv = views(ls@);
    let key = to_chars("Output_Path = ");
    let mut i: usize = 0;
    proof {
        assert(lv.skip(0) == lv);
    }
    while i < ls.len()
        invariant
            i <= ls.len(),
            lv == views(ls@),
            lv == lines(details@),
            key@ == "Output_Path = "@,
            output_path_in(lv) == output_path_in(lv.skip(i as int)),
        decreases ls.len() - i,
    {
        let t = trim_start_chars(&ls[i]);
        proof {
            assert(lv.skip(i as int)[0] == lv[i as int]);
            assert(lv.skip(i as int).drop_first() == lv.skip(i + 1));
        }
        if starts_with(&t, &key) {
            let mut val = slice(&t, key.len(), t.len());
            let mut j: usize = i + 1;
            proof {
                assert(t@.skip(key@.len() as int) == val@);
            }
            while j < ls.len() && ls[j].len() > 0 && ls[j][0] == '\t'
                invariant
                    i < j <= ls.len(),
                    lv == views(ls@),
                    continuation(lv.skip(i + 1)) == val@.skip(t@.len() - key@.len())
                        + continuation(lv.skip(j as int)),
                    key@.len() <= t@.len(),
                    val@.len() >= t@.len() - key@.len(),
                    val@.take(t@.len() - key@.len()) == t@.skip(key@.len() as int),
                decreases ls.len() - j,
            {
                let piece = slice(&ls[j], 1, ls[j].len());
                let ghost before_val = val@;
                proof {
                    assert(lv[j as int] == ls@[j as int]@);
                    assert(lv.skip(j as int)[0] == lv[j as int]);
                    assert(lv.skip(j as int).drop_first() == lv.skip(j + 1));
                    assert(lv[j as int].drop_first() == piece@);
                }
                push_all(&mut val, &piece);
                proof {
                    let k = t@.len() - key@.len();
                    assert(val@.skip(k) == before_val.skip(k) + piece@);
                    assert(val@.take(k) == before_val.take(k));
                }
                j += 1;
            }
            proof {
                let k = t@.len() - key@.len();
                assert(lv.skip(j as int).len() == 0 || !(lv.skip(j as int)[0].len() > 0
                    && lv.skip(j as int)[0][0] == '\t')) by {
                    if j < ls.len() {
                        assert(lv.skip(j as int)[0] == ls@[j as int]@);
                    }
                }
                assert(continuation(lv.skip(j as int)) == Seq::<char>::empty());
                assert(val@ == val@.take(k) + val@.skip(k));
                assert(val@ == t@.skip(key@.len() as int) + continuation(lv.skip(i + 1)));
            }
            let c = find_char_from(&val, 0, ':');
            proof {
                assert(val@.skip(0) == val@);
            }
            let path = if c < val.len() {
                proof {
                    assert(val@.subrange(c + 1, val.len() as int) == val@.skip(c + 1));
                }
                slice(&val, c + 1, val.len())
            } else {
                val
            };
            let tr = trim_chars(&path);
            return Some(to_string(&tr));
        }
        i += 1;
    }
    proof {
        assert(lv.skip(i as int) == Seq::<Seq<char>>::empty());
    }
    None
}

/// `'` followed by a backslash-escaped `'`: how a quote is written inside a
/// single-quoted shell word.
pub open spec fn quoted_char(c: char) -> Seq<char> {
    if c == '\'' {
        seq!['\'', '\\', '\'', '\'']
    } else {
        seq![c]
    }
}

pub open spec fn quote_body(s: Seq<char>) -> Seq<char>
    decreases s.len(),
{
    if s.len() == 0 {
        seq![]
    } else {
        quote_body(s.drop_last()) + quoted_char(s.last())
    }
}

/// Single-quote a string for safe inclusion in a remote shell command (protects
/// brackets in array job ids, etc.).
pub fn shell_quote(s: &str) -> (r: String)
    ensures
        r@ == seq!['\''] + quote_body(s@) + seq!['\''],
{
    let v = to_chars(s);
    let mut out: Vec<char> = Vec::new();
    out.push('\'');
    let mut i: usize = 0;
    while i < v.len()
        invariant
            i <= v.len(),
            out@ == seq!['\''] + quote_body(v@.take(i as int)),
        decreases v.len() - i,
    {
        let c = v[i];
        proof {
            assert(v@.take(i + 1).drop_last() == v@.take(i as int));
            assert(v@.take(i + 1).last() == c);
        }
        if c == '\'' {
            out.push('\'');
            out.push('\\');
            out.push('\'');
            out.push('\'');
        } else {
            out.push(c);
        }
        i += 1;
    }
    out.push('\'');
    proof {
        assert(v@.take(v.len() as int) == v@);
    }
    to_string(&out)
}

/// `s` single-quoted for the remote shell.
pub open spec fn quoted(s: Seq<char>) -> Seq<char> {
    seq!['\''] + quote_body(s) + seq!['\'']
}

/// The command line run on the headnode: the command and each argument
/// quoted, separated by single spaces.
pub open spec fn remote_text(cmd: Seq<char>, args: Seq<Seq<char>>) -> Seq<char>
    decreases args.len(),
{
    if args.len() == 0 {
        quoted(cmd)
    } else {
        remote_text(cmd, args.drop_last()) + seq![' '] + quoted(args.last())
    }
}

/// The remote command line for a PBS command run over SSH.
pub fn remote_command(cmd: &str, args: &Vec<String>) -> (r: String)
    ensures
        r@ == remote_text(cmd@, crate::text::string_views(args@)),
{
    let mut out = to_chars(shell_quote(cmd).as_str());
    let ghost av = crate::text::string_views(args@);
    let mut i: usize = 0;
    while i < args.len()
        invariant
            i <= args.len(),
            av == crate::text::string_views(args@),
            out@ == remote_text(cmd@, av.take(i as int)),
        decreases args.len() - i,
    {
        proof {
            assert(av.take(i + 1).drop_last() == av.take(i as int));
            assert(av.take(i + 1).last() == args@[i as int]@);
        }
        out.push(' ');
        push_str(&mut out, shell_quote(args[i].as_str()).as_str());
        i += 1;
    }
    proof {
        assert(av.take(args.len() as int) == av);
    }
    to_string(&out)
}

/// Whether a host name is the headnode's (where the PBS commands run
/// locally): it starts with "headnode" once surrounding whitespace is
/// trimmed.
pub fn is_headnode(hostname: &str) -> (b: bool)
    ensures
        b == has_prefix(trim(hostname@), "headnode"@),
{
    let t = trim_chars(&to_chars(hostname));
    crate::text::starts_with_str(&t, "headnode")
}

/// The notice for a job that the scheduler no longer knows.
pub open spec fn vanished_notice(jobid: Seq<char>) -> Seq<char> {
    "Job "@ + jobid
        + " is no longer available in the scheduler (it may have finished or been purged)."@
}

/// What `qstat -f <jobid>` reports when both the live and the history lookup
/// failed: the vanished-job notice when the first failure says the job is
/// unknown ("Unknown Job" or "unknown job id"), else `None` (the failure stands).
pub fn vanished_job_detail(jobid: &str, first_error: &str) -> (r: Option<String>)
    ensures
        opt_view(r) == (if has_infix(first_error@, "Unknown Job"@) || has_infix(
            first_error@,
            "unknown job id"@,
        ) {
            Some(vanished_notice(jobid@))
        } else {
            None
        }),
{
    let e = to_chars(first_error);
    if contains_str(&e, "Unknown Job") || contains_str(&e, "unknown job id") {
        let mut out: Vec<char> = Vec::new();
        push_str(&mut out, "Job ");
        push_str(&mut out, jobid);
        push_str(
            &mut out,
            " is no longer available in the scheduler (it may have finished or been purged).",
        );
        Some(to_string(&out))
    } else {
        None
    }
}

/// What a `qstat -f` of `jobid` gives once the live lookup failed with
/// `first_error`: the history lookup's record when that succeeded, else the
/// vanished-job notice when the first failure says the job is unknown, else
/// the first failure.
pub fn detail_after_failure(jobid: &str, first_error: String, history: Result<String, String>) -> (r:
    Result<String, String>)
    ensures
        match history {
            Ok(t) => r == Ok::<String, String>(t),
            Err(_) => if has_infix(first_error@, "Unknown Job"@) || has_infix(
                first_error@,
                "unknown job id"@,
            ) {
                r matches Ok(n) && n@ == vanished_notice(jobid@)
            } else {
                r == Err::<String, String>(first_error)
            },
        },
{
    match history {
        Ok(t) => Ok(t),
        Err(_) => match vanished_job_detail(jobid, first_error.as_str()) {
            Some(n) => Ok(n),
            None => Err(first_error),
        },
    }
}

} // verus!
