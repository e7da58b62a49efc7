//! The cluster-load view: `qstat -ft` job records and `pbsnodes -av` vnode
//! records parsed, per-user load tallied, and each physical host drawn as an
//! ANSI-coloured row of CPU, memory, GPU and a per-core graph.
use vstd::prelude::*;
use crate::arith::{clamp64, sadd, smul, ssub};
use crate::pbs::opt_view;
use crate::text::{
    before, decimal, eq_str, find_char_from, has_infix, has_prefix, int_text, lines, pad_left, pad_right,
    all_digits, digits_value, is_digit, parse_i64, parse_i64_chars, pos_char,
    prefix_before, slice, split_char, split_lines, split_on, starts_with, string_views, to_chars,
    to_string, trim, trim_chars, trim_start, trim_start_chars, views,
};

verus! {

/// One user's cluster usage, for the "User load" table. `color` is the palette
/// index; `secs` is the largest remaining walltime among the user's running
/// jobs, `None` if they have none running.
#[derive(Debug, Clone)]
pub struct UserLoad {
    pub name: String,
    pub cores: i64,
    pub pending: i64,
    pub secs: Option<i64>,
    pub color: u8,
    pub highlighted: bool,
}


/// A parsed `qstat -ft` job record (only the fields the load view uses).
#[derive(Debug, Clone)]
pub struct Job {
    /// Job number: digits (and `[task]`) before the first '.'.
    pub number: String,
    pub user: String,
    /// PBS single-letter state (R, Q, ...).
    pub state: char,
    pub cpus: i64,
    /// Requested minus used walltime for running jobs; -1 if unknown.
    pub sec_remaining: i64,
}

pub struct JobSpec {
    pub number: Seq<char>,
    pub user: Seq<char>,
    pub state: char,
    pub cpus: i64,
    pub sec_remaining: i64,
}

impl View for Job {
    type V = JobSpec;

    open spec fn view(&self) -> JobSpec {
        JobSpec {
            number: self.number@,
            user: self.user@,
            state: self.state,
            cpus: self.cpus,
            sec_remaining: self.sec_remaining,
        }
    }
}

pub open spec fn job_views(jobs: Seq<Job>) -> Seq<JobSpec> {
    jobs.map_values(|j: Job| j@)
}

/// "HH:MM:SS" (H may exceed 99) to seconds: the first three ':'-separated
/// parts, each an integer after trimming (further parts are ignored).
pub open spec fn wall_seconds(s: Seq<char>) -> Option<i64> {
    let p = split_char(s, ':');
    if p.len() < 3 {
        None
    } else {
        match (parse_i64(trim(p[0])), parse_i64(trim(p[1])), parse_i64(trim(p[2]))) {
            (Some(h), Some(m), Some(x)) => Some(
                clamp64(clamp64(clamp64(h * 3600) + clamp64(m * 60)) + x) as i64,
            ),
            _ => None,
        }
    }
}

fn wall_to_sec(s: &Vec<char>) -> (r: Option<i64>)
    ensures
        r == wall_seconds(s@),
{
    let p = split_on(s, ':');
    let ghost pv = views(p@);
    if p.len() < 3 {
        return None;
    }
    proof {
        assert(pv[0] == p@[0]@);
        assert(pv[1] == p@[1]@);
        assert(pv[2] == p@[2]@);
    }
    let a = trim_chars(&p[0]);
    let b = trim_chars(&p[1]);
    let c = trim_chars(&p[2]);
    match (parse_i64_chars(&a), parse_i64_chars(&b), parse_i64_chars(&c)) {
        (Some(h), Some(m), Some(x)) => Some(sadd(sadd(smul(h, 3600), smul(m, 60)), x)),
        _ => None,
    }
}

/// Value of an indented `key = value` line, if this line is exactly that key:
/// after leading whitespace, `key`, then " = ", then the value, trimmed.
pub open spec fn field_value(line: Seq<char>, key: Seq<char>) -> Option<Seq<char>> {
    let t = trim_start(line);
    if has_prefix(t, key) && has_prefix(t.skip(key.len() as int), " = "@) {
        Some(trim(t.skip(key.len() as int + 3)))
    } else {
        None
    }
}

fn field(line: &Vec<char>, key: &str) -> (r: Option<Vec<char>>)
    ensures
        match r {
            Some(v) => field_value(line@, key@) == Some(v@),
            None => field_value(line@, key@) is None,
        },
{
    let t = trim_start_chars(line);
    let k = to_chars(key);
    if !starts_with(&t, &k) {
        return None;
    }
    let rest = slice(&t, k.len(), t.len());
    let sep = to_chars(" = ");
    proof {
        assert(rest@ == t@.skip(k@.len() as int));
        reveal_strlit(" = ");
    }
    if !starts_with(&rest, &sep) {
        return None;
    }
    let v = slice(&rest, 3, rest.len());
    proof {
        assert(v@ == t@.skip(k@.len() as int + 3));
    }
    Some(trim_chars(&v))
}

/// The job accumulated so far while reading `qstat -ft` records.
pub struct JobAcc {
    pub number: Option<Seq<char>>,
    pub user: Seq<char>,
    pub state: char,
    pub cpus: i64,
    pub req: Option<i64>,
    pub used: Option<i64>,
    pub jobs: Seq<JobSpec>,
}

/// Remaining walltime: requested minus used for a running job with both known,
/// else the requested walltime, else -1.
pub open spec fn remaining_secs(state: char, req: Option<i64>, used: Option<i64>) -> i64 {
    match (req, used) {
        (Some(r), Some(u)) => if state == 'R' {
            clamp64(r - u) as i64
        } else {
            r
        },
        (Some(r), None) => r,
        _ => -1i64,
    }
}

/// Closes the current record: emits a job when one is open (taking the
/// user), and resets the state, cpus and walltimes.
pub open spec fn flush(a: JobAcc) -> JobAcc {
    let jobs = match a.number {
        Some(n) => a.jobs.push(
            JobSpec {
                number: n,
                user: a.user,
                state: a.state,
                cpus: a.cpus,
                sec_remaining: remaining_secs(a.state, a.req, a.used),
            },
        ),
        None => a.jobs,
    };
    JobAcc {
        number: None,
        user: if a.number is Some {
            seq![]
        } else {
            a.user
        },
        state: ' ',
        cpus: 0,
        req: None,
        used: None,
        jobs,
    }
}

/// One `qstat -ft` line read into the accumulator.
pub open spec fn job_step(a: JobAcc, line: Seq<char>) -> JobAcc {
    if has_prefix(line, "Job Id:"@) {
        let id = trim(line.skip("Job Id:"@.len() as int));
        JobAcc { number: Some(before(id, '.')), ..flush(a) }
    } else if field_value(line, "Job_Owner"@) is Some {
        JobAcc { user: before(field_value(line, "Job_Owner"@)->0, '@'), ..a }
    } else if field_value(line, "job_state"@) is Some {
        let v = field_value(line, "job_state"@)->0;
        JobAcc {
            state: if v.len() > 0 {
                v[0]
            } else {
                ' '
            },
            ..a
        }
    } else if field_value(line, "Resource_List.ncpus"@) is Some {
        JobAcc {
            cpus: match parse_i64(field_value(line, "Resource_List.ncpus"@)->0) {
                Some(n) => n,
                None => 0,
            },
            ..a
        }
    } else if field_value(line, "Resource_List.walltime"@) is Some {
        JobAcc { req: wall_seconds(field_value(line, "Resource_List.walltime"@)->0), ..a }
    } else if field_value(line, "resources_used.walltime"@) is Some {
        JobAcc { used: wall_seconds(field_value(line, "resources_used.walltime"@)->0), ..a }
    } else {
        a
    }
}

pub open spec fn empty_acc() -> JobAcc {
    JobAcc { number: None, user: seq![], state: ' ', cpus: 0, req: None, used: None, jobs: seq![] }
}

pub open spec fn jobs_fold(ls: Seq<Seq<char>>) -> JobAcc
    decreases ls.len(),
{
    if ls.len() == 0 {
        empty_acc()
    } else {
        job_step(jobs_fold(ls.drop_last()), ls.last())
    }
}

/// The jobs of a `qstat -ft` listing: a record begins at each `Job Id:` line
/// and runs until the next one; fields are matched by exact key, so wrapped
/// continuation lines are ignored.
pub open spec fn qstat_ft_jobs(raw: Seq<char>) -> Seq<JobSpec> {
    flush(jobs_fold(lines(raw))).jobs
}

struct Acc {
    number: Option<Vec<char>>,
    user: Vec<char>,
    state: char,
    cpus: i64,
    req: Option<i64>,
    used: Option<i64>,
    jobs: Vec<Job>,
}

impl Acc {
    spec fn model(&self) -> JobAcc {
        JobAcc {
            number: match self.number {
                Some(v) => Some(v@),
                None => None,
            },
            user: self.user@,
            state: self.state,
            cpus: self.cpus,
            req: self.req,
            used: self.used,
            jobs: job_views(self.jobs@),
        }
    }

    fn flush(&mut self)
        ensures
            final(self).model() == flush(old(self).model()),
    {
        match self.number.take() {
            Some(num) => {
                let sec_remaining = match (self.req, self.used) {
                    (Some(r), Some(u)) => if self.state == 'R' {
                        ssub(r, u)
                    } else {
                        r
                    },
                    (Some(r), None) => r,
                    _ => -1,
                };
                let user = to_string(&self.user);
                let job = Job {
                    number: to_string(&num),
                    user,
                    state: self.state,
                    cpus: self.cpus,
                    sec_remaining,
                };
                proof {
                    assert(job_views(self.jobs@.push(job)) =~= job_views(self.jobs@).push(job@));
                }
                self.jobs.push(job);
                self.user = Vec::new();
            },
            None => {},
        }
        self.state = ' ';
        self.cpus = 0;
        self.req = None;
        self.used = None;
    }
}

/// Parse `qstat -ft` output. Records begin at a `Job Id:` line and run until
/// the next one; fields are matched by exact key so wrapped continuation lines
/// (e.g. Variable_List) are ignored.
pub fn parse_jobs(raw: &str) -> (jobs: Vec<Job>)
    ensures
        job_views(jobs@) == qstat_ft_jobs(raw@),
{
    let v = to_chars(raw);
    let ls = split_lines(&v);
    let ghost lv = views(ls@);
    let mut a = Acc {
        number: None,
        user: Vec::new(),
        state: ' ',
        cpus: 0,
        req: None,
        used: None,
        jobs: Vec::new(),
    };
    proof {
        assert(job_views(a.jobs@) =~= Seq::<JobSpec>::empty());
        assert(a.user@ =~= Seq::<char>::empty());
        assert(a.model() == empty_acc());
    }
    let mut i: usize = 0;
    while i < ls.len()
        invariant
            i <= ls.len(),
            lv == views(ls@),
            lv == lines(raw@),
            a.model() == jobs_fold(lv.take(i as int)),
        decreases ls.len() - i,
    {
        proof {
            assert(lv.take(i + 1).drop_last() == lv.take(i as int));
            assert(lv.take(i + 1).last() == ls@[i as int]@);
        }
        let line = &ls[i];
        if starts_with_key(line, "Job Id:") {
            proof {
                reveal_strlit("Job Id:");
            }
            a.flush();
            let rest = slice(line, 7, line.len());
            let id = trim_chars(&rest);
            proof {
                reveal_strlit("Job Id:");
                assert(rest@ == line@.skip(7));
            }
            a.number = Some(prefix_before(&id, '.'));
        } else if let Some(v) = field(line, "Job_Owner") {
            a.user = prefix_before(&v, '@');
        } else if let Some(v) = field(line, "job_state") {
            a.state = if v.len() > 0 { v[0] } else { ' ' };
        } else if let Some(v) = field(line, "Resource_List.ncpus") {
            a.cpus = match parse_i64_chars(&v) {
                Some(n) => n,
                None => 0,
            };
        } else if let Some(v) = field(line, "Resource_List.walltime") {
            a.req = wall_to_sec(&v);
        } else if let Some(v) = field(line, "resources_used.walltime") {
            a.used = wall_to_sec(&v);
        }
        i += 1;
    }
    proof {
        assert(lv.take(ls.len() as int) == lv);
    }
    a.flush();
    a.jobs
}

fn starts_with_key(line: &Vec<char>, key: &str) -> (b: bool)
    ensures
        b == has_prefix(line@, key@),
{
    crate::text::starts_with_str(line, key)
}


/// A parsed `pbsnodes -av` vnode record.
#[derive(Debug, Clone)]
pub struct Node {
    pub name: String,
    pub state: String,
    /// Job numbers of headnode jobs on this node.
    pub jobs: Vec<String>,
    pub nproc: i64,
    /// Raw `resources_available.mem` (e.g. "63437mb").
    pub availmem: String,
    /// Raw `resources_assigned.mem`.
    pub usedmem: String,
    pub ngpus: i64,
    pub usedgpus: i64,
}

pub struct NodeSpec {
    pub name: Seq<char>,
    pub state: Seq<char>,
    pub jobs: Seq<Seq<char>>,
    pub nproc: i64,
    pub availmem: Seq<char>,
    pub usedmem: Seq<char>,
    pub ngpus: i64,
    pub usedgpus: i64,
}

impl View for Node {
    type V = NodeSpec;

    open spec fn view(&self) -> NodeSpec {
        NodeSpec {
            name: self.name@,
            state: self.state@,
            jobs: string_views(self.jobs@),
            nproc: self.nproc,
            availmem: self.availmem@,
            usedmem: self.usedmem@,
            ngpus: self.ngpus,
            usedgpus: self.usedgpus,
        }
    }
}

pub open spec fn node_views(nodes: Seq<Node>) -> Seq<NodeSpec> {
    nodes.map_values(|n: Node| n@)
}

/// The headnode job number of one `jobs = ...` entry, if it names headnode:
/// `19657[62].headnode/0` -> `19657[62]`.
pub open spec fn node_job(entry: Seq<char>) -> Option<Seq<char>> {
    let t = trim(entry);
    if has_infix(t, "headnode"@) {
        Some(before(before(t, '/'), '.'))
    } else {
        None
    }
}

pub open spec fn node_jobs_of(entries: Seq<Seq<char>>) -> Seq<Seq<char>>
    decreases entries.len(),
{
    if entries.len() == 0 {
        seq![]
    } else {
        let rest = node_jobs_of(entries.drop_last());
        match node_job(entries.last()) {
            Some(j) => rest.push(j),
            None => rest,
        }
    }
}

/// Extract headnode job numbers from a `jobs = ...` value.
fn parse_node_jobs(v: &Vec<char>) -> (r: Vec<String>)
    ensures
        string_views(r@) == node_jobs_of(split_char(v@, ',')),
{
    let parts = split_on(v, ',');
    let ghost pv = views(parts@);
    let mut r: Vec<String> = Vec::new();
    let mut i: usize = 0;
    while i < parts.len()
        invariant
            i <= parts.len(),
            pv == views(parts@),
            string_views(r@) == node_jobs_of(pv.take(i as int)),
        decreases parts.len() - i,
    {
        proof {
            assert(pv.take(i + 1).drop_last() == pv.take(i as int));
            assert(pv.take(i + 1).last() == parts@[i as int]@);
        }
        let t = trim_chars(&parts[i]);
        if crate::text::contains_str(&t, "headnode") {
            let a = prefix_before(&t, '/');
            let b = prefix_before(&a, '.');
            let s = to_string(&b);
            proof {
                assert(string_views(r@.push(s)) =~= string_views(r@).push(s@));
            }
            r.push(s);
        }
        i += 1;
    }
    proof {
        assert(pv.take(parts.len() as int) == pv);
    }
    r
}

/// Position of the first blank-line separator ("\n\n") in `s`, or `s.len()`.
pub open spec fn pos_blank(s: Seq<char>) -> nat
    decreases s.len(),
{
    if s.len() < 2 {
        s.len()
    } else if s[0] == '\n' && s[1] == '\n' {
        0
    } else {
        1 + pos_blank(s.drop_first())
    }
}

/// `str::split("\n\n")`: the blank-line separated records.
pub open spec fn blocks(s: Seq<char>) -> Seq<Seq<char>>
    decreases s.len(),
{
    let i = pos_blank(s);
    if i + 2 <= s.len() {
        seq![s.take(i as int)] + blocks(s.skip(i as int + 2))
    } else {
        seq![s]
    }
}

/// A blank-line separator starts at `k`.
pub open spec fn blank_at(s: Seq<char>, k: int) -> bool {
    0 <= k && k + 1 < s.len() && s[k] == '\n' && s[k + 1] == '\n'
}

proof fn lemma_pos_blank(s: Seq<char>, j: int)
    requires
        0 <= j <= s.len(),
        forall|k: int| 0 <= k < j ==> !#[trigger] blank_at(s, k),
        j < s.len() ==> blank_at(s, j),
        j == s.len() || j + 1 < s.len(),
    ensures
        pos_blank(s) == j,
    decreases s.len(),
{
    if s.len() >= 2 && !(s[0] == '\n' && s[1] == '\n') {
        let d = s.drop_first();
        assert forall|k: int| 0 <= k < j - 1 implies !#[trigger] blank_at(d, k) by {
            assert(!blank_at(s, k + 1));
            assert(d[k] == s[k + 1]);
            if k + 1 < d.len() {
                assert(d[k + 1] == s[k + 2]);
            }
        }
        if j > 0 && j < s.len() {
            assert(blank_at(s, j));
            assert(d[j - 1] == s[j]);
            assert(d[j] == s[j + 1]);
        }
        if j == 0 {
            assert(!blank_at(s, 0));
        }
        lemma_pos_blank(d, j - 1);
    } else if s.len() >= 2 {
        assert(blank_at(s, 0));
    }
}

fn find_blank_from(v: &Vec<char>, start: usize) -> (j: usize)
    requires
        start <= v.len(),
    ensures
        start <= j <= v.len(),
        pos_blank(v@.skip(start as int)) == j - start,
        j < v.len() ==> j + 1 < v.len(),
{
    let mut j = start;
    while v.len() > 0 && j < v.len() - 1 && !(v[j] == '\n' && v[j + 1] == '\n')
        invariant
            start <= j <= v.len(),
            forall|k: int| start <= k < j ==> !#[trigger] blank_at(v@, k),
        decreases v.len() - j,
    {
        j += 1;
    }
    let r = if v.len() > 0 && j < v.len() - 1 { j } else { v.len() };
    proof {
        let t = v@.skip(start as int);
        assert forall|k: int| 0 <= k < r - start implies !#[trigger] blank_at(t, k) by {
            assert(!blank_at(v@, start + k));
            assert(t[k] == v@[start + k]);
            if k + 1 < t.len() {
                assert(t[k + 1] == v@[start + k + 1]);
            }
        }
        if r < v.len() {
            assert(t[r - start] == v@[r as int]);
            assert(t[r - start + 1] == v@[r + 1]);
        }
        lemma_pos_blank(t, r - start);
    }
    r
}

/// The blank-line separated records of `v`.
fn split_blocks(v: &Vec<char>) -> (r: Vec<Vec<char>>)
    ensures
        views(r@) == blocks(v@),
{
    let mut r: Vec<Vec<char>> = Vec::new();
    let mut i: usize = 0;
    proof {
        assert(v@.skip(0) == v@);
    }
    loop
        invariant
            i <= v.len(),
            blocks(v@) == views(r@) + blocks(v@.skip(i as int)),
        decreases v.len() - i,
    {
        let ghost t = v@.skip(i as int);
        let j = find_blank_from(v, i);
        if j < v.len() {
            let w = slice(v, i, j);
            proof {
                assert(t.take(j - i) == w@);
                assert(t.skip(j - i + 2) == v@.skip(j + 2));
                crate::text::lemma_views_push(r@, w);
                assert(views(r@.push(w)) + blocks(v@.skip(j + 2)) == views(r@) + blocks(t));
            }
            r.push(w);
            i = j + 2;
        } else {
            let w = slice(v, i, v.len());
            proof {
                assert(t == w@);
                crate::text::lemma_views_push(r@, w);
                assert(views(r@.push(w)) == views(r@) + blocks(t));
            }
            r.push(w);
            return r;
        }
    }
}

/// One attribute line of a vnode record read into `n`.
pub open spec fn node_step(n: NodeSpec, line: Seq<char>) -> NodeSpec {
    if field_value(line, "state"@) is Some {
        NodeSpec { state: field_value(line, "state"@)->0, ..n }
    } else if field_value(line, "jobs"@) is Some {
        NodeSpec { jobs: node_jobs_of(split_char(field_value(line, "jobs"@)->0, ',')), ..n }
    } else if field_value(line, "resources_available.ncpus"@) is Some {
        NodeSpec { nproc: int_or_zero(field_value(line, "resources_available.ncpus"@)->0), ..n }
    } else if field_value(line, "resources_available.mem"@) is Some {
        NodeSpec { availmem: field_value(line, "resources_available.mem"@)->0, ..n }
    } else if field_value(line, "resources_assigned.mem"@) is Some {
        NodeSpec { usedmem: field_value(line, "resources_assigned.mem"@)->0, ..n }
    } else if field_value(line, "resources_available.ngpus"@) is Some {
        NodeSpec { ngpus: int_or_zero(field_value(line, "resources_available.ngpus"@)->0), ..n }
    } else if field_value(line, "resources_assigned.ngpus"@) is Some {
        NodeSpec {
            usedgpus: int_or_zero(field_value(line, "resources_assigned.ngpus"@)->0),
            ..n
        }
    } else {
        n
    }
}

pub open spec fn int_or_zero(v: Seq<char>) -> i64 {
    match parse_i64(v) {
        Some(x) => x,
        None => 0,
    }
}

pub open spec fn node_fold(name: Seq<char>, ls: Seq<Seq<char>>) -> NodeSpec
    decreases ls.len(),
{
    if ls.len() == 0 {
        NodeSpec {
            name,
            state: seq![],
            jobs: seq![],
            nproc: 0,
            availmem: seq![],
            usedmem: seq![],
            ngpus: 0,
            usedgpus: 0,
        }
    } else {
        node_step(node_fold(name, ls.drop_last()), ls.last())
    }
}

/// The vnode a record describes: its trimmed first line is the name, kept only
/// when it holds '['; the other lines set its attributes.
pub open spec fn node_record(block: Seq<char>) -> Option<NodeSpec> {
    let ls = lines(block);
    if ls.len() == 0 {
        None
    } else {
        let name = trim(ls[0]);
        if name.contains('[') {
            Some(node_fold(name, ls.drop_first()))
        } else {
            None
        }
    }
}

pub open spec fn nodes_of(bs: Seq<Seq<char>>) -> Seq<NodeSpec>
    decreases bs.len(),
{
    if bs.len() == 0 {
        seq![]
    } else {
        let rest = nodes_of(bs.drop_last());
        match node_record(bs.last()) {
            Some(n) => rest.push(n),
            None => rest,
        }
    }
}

fn int_or_zero_chars(v: &Vec<char>) -> (r: i64)
    ensures
        r == int_or_zero(v@),
{
    match parse_i64_chars(v) {
        Some(x) => x,
        None => 0,
    }
}

fn parse_node(block: &Vec<char>) -> (r: Option<Node>)
    ensures
        match r {
            Some(n) => node_record(block@) == Some(n@),
            None => node_record(block@) is None,
        },
{
    let ls = split_lines(block);
    let ghost lv = views(ls@);
    if ls.len() == 0 {
        return None;
    }
    let name = trim_chars(&ls[0]);
    proof {
        assert(lv[0] == ls@[0]@);
    }
    if !crate::text::has_char(&name, '[') {
        return None;
    }
    let mut node = Node {
        name: to_string(&name),
        state: String::new(),
        jobs: Vec::new(),
        nproc: 0,
        availmem: String::new(),
        usedmem: String::new(),
        ngpus: 0,
        usedgpus: 0,
    };
    let ghost rest = lv.drop_first();
    proof {
        assert(string_views(node.jobs@) =~= Seq::<Seq<char>>::empty());
        assert(node@ == node_fold(name@, rest.take(0)));
    }
    let mut i: usize = 1;
    while i < ls.len()
        invariant
            1 <= i <= ls.len(),
            lv == views(ls@),
            rest == lv.drop_first(),
            node@ == node_fold(name@, rest.take(i - 1)),
        decreases ls.len() - i,
    {
        proof {
            assert(rest.take(i as int).drop_last() == rest.take(i - 1));
            assert(rest.take(i as int).last() == ls@[i as int]@);
        }
        let line = &ls[i];
        if let Some(v) = field(line, "state") {
            node.state = to_string(&v);
        } else if let Some(v) = field(line, "jobs") {
            node.jobs = parse_node_jobs(&v);
        } else if let Some(v) = field(line, "resources_available.ncpus") {
            node.nproc = int_or_zero_chars(&v);
        } else if let Some(v) = field(line, "resources_available.mem") {
            node.availmem = to_string(&v);
        } else if let Some(v) = field(line, "resources_assigned.mem") {
            node.usedmem = to_string(&v);
        } else if let Some(v) = field(line, "resources_available.ngpus") {
            node.ngpus = int_or_zero_chars(&v);
        } else if let Some(v) = field(line, "resources_assigned.ngpus") {
            node.usedgpus = int_or_zero_chars(&v);
        }
        i += 1;
    }
    proof {
        assert(rest.take(ls.len() - 1) == rest);
    }
    Some(node)
}

/// Parse `pbsnodes -av` output. Records are blank-line separated; only vnode
/// records (whose name line contains `[`) are kept.
pub fn parse_nodes(raw: &str) -> (nodes: Vec<Node>)
    ensures
        node_views(nodes@) == nodes_of(blocks(raw@)),
{
    let v = to_chars(raw);
    let bs = split_blocks(&v);
    let ghost bv = views(bs@);
    let mut nodes: Vec<Node> = Vec::new();
    let mut i: usize = 0;
    while i < bs.len()
        invariant
            i <= bs.len(),
            bv == views(bs@),
            node_views(nodes@) == nodes_of(bv.take(i as int)),
        decreases bs.len() - i,
    {
        proof {
            assert(bv.take(i + 1).drop_last() == bv.take(i as int));
            assert(bv.take(i + 1).last() == bs@[i as int]@);
        }
        match parse_node(&bs[i]) {
            Some(n) => {
                proof {
                    assert(node_views(nodes@.push(n)) =~= node_views(nodes@).push(n@));
                }
                nodes.push(n);
            },
            None => {},
        }
        i += 1;
    }
    proof {
        assert(bv.take(bs.len() as int) == bv);
    }
    nodes
}


/// Memory amounts are held in units of 10^-9 byte; their size saturates at
/// this bound (2^123 such units, more than `i64::MAX` gigabytes).
pub open spec fn mem_bound() -> int {
    10633823966279326983230456482242756608
}

/// How many '0's lead `d`.
pub open spec fn lead_zeros(d: Seq<char>) -> nat
    decreases d.len(),
{
    if d.len() > 0 && d[0] == '0' {
        1 + lead_zeros(d.drop_first())
    } else {
        0
    }
}

/// The parts of a decimal number: an optional `+` or `-`; digits with an
/// optional '.', at least one digit in all; and optionally an 'e' exponent
/// (an optional sign, then one or more digits). Gives (negative, whole
/// digits, fraction digits, exponent).
pub open spec fn num_parts(s: Seq<char>) -> Option<(bool, Seq<char>, Seq<char>, int)> {
    let neg = s.len() > 0 && s[0] == '-';
    let b = if s.len() > 0 && (s[0] == '-' || s[0] == '+') {
        s.drop_first()
    } else {
        s
    };
    let ei = pos_char(b, 'e');
    let mant = b.take(ei as int);
    let d = pos_char(mant, '.');
    let ip = mant.take(d as int);
    let fp = if d < mant.len() {
        mant.skip(d as int + 1)
    } else {
        seq![]
    };
    let has_e = ei < b.len();
    let ex = if has_e {
        b.skip(ei as int + 1)
    } else {
        seq![]
    };
    let eneg = ex.len() > 0 && ex[0] == '-';
    let ed = if ex.len() > 0 && (ex[0] == '-' || ex[0] == '+') {
        ex.drop_first()
    } else {
        ex
    };
    if all_digits(ip) && all_digits(fp) && ip.len() + fp.len() > 0 && (!has_e || (ed.len() > 0
        && all_digits(ed))) {
        Some(
            (
                neg,
                ip,
                fp,
                if !has_e {
                    0
                } else if eneg {
                    -digits_value(ed)
                } else {
                    digits_value(ed)
                },
            ),
        )
    } else {
        None
    }
}

/// The significant digits of a number: its digits without leading zeros.
pub open spec fn sig_digits(ip: Seq<char>, fp: Seq<char>) -> Seq<char> {
    (ip + fp).skip(lead_zeros(ip + fp) as int)
}

/// The significant digits that count: the first nineteen.
pub open spec fn kept_digits(sig: Seq<char>) -> Seq<char> {
    if sig.len() > 19 {
        sig.take(19)
    } else {
        sig
    }
}

pub open spec fn pow10(n: nat) -> int
    decreases n,
{
    if n == 0 {
        1
    } else {
        10 * pow10((n - 1) as nat)
    }
}

/// `m * 10^p` (or `m / 10^-p`, rounded toward zero, though never from a
/// nonzero `m` down to zero), saturated at [`mem_bound`].
pub open spec fn scaled_mag(m: int, p: int) -> int {
    let mag = if p >= 0 {
        m * pow10(p as nat)
    } else {
        m / pow10((-p) as nat)
    };
    if mag > mem_bound() {
        mem_bound()
    } else if mag == 0 && m > 0 {
        1
    } else {
        mag
    }
}

/// An exponent clamped to [`exp_cap`] either way.
pub open spec fn sat_exp(e: int) -> int {
    if e > exp_cap() {
        exp_cap()
    } else if e < -exp_cap() {
        -exp_cap()
    } else {
        e
    }
}

/// A number `v` times `k` bytes, in units of 10^-9 byte: significant
/// digits past the nineteenth are ignored, the result is rounded toward zero
/// to a whole unit (a nonzero amount to at least one), and its size saturates
/// at [`mem_bound`], which is also what "inf" and "infinity" stand for.
pub open spec fn scaled(v: Seq<char>, k: int) -> Option<int> {
    let neg = v.len() > 0 && v[0] == '-';
    let body = unsigned_text(v);
    if body == "inf"@ || body == "infinity"@ {
        Some(
            if neg {
                -mem_bound()
            } else {
                mem_bound()
            },
        )
    } else {
        scaled_number(v, k)
    }
}

/// `v` without one leading sign.
pub open spec fn unsigned_text(v: Seq<char>) -> Seq<char> {
    if v.len() > 0 && (v[0] == '-' || v[0] == '+') {
        v.drop_first()
    } else {
        v
    }
}

/// [`scaled`] for a number in digits.
pub open spec fn scaled_number(v: Seq<char>, k: int) -> Option<int> {
    match num_parts(v) {
        Some((neg, ip, fp, e)) => {
            let sig = sig_digits(ip, fp);
            let kd = kept_digits(sig);
            let m = digits_value(kd) * k;
            let c = scaled_mag(m, (sig.len() - kd.len()) - fp.len() + e + 9);
            Some(
                if neg {
                    -c
                } else {
                    c
                },
            )
        },
        None => None,
    }
}

/// The number in a lowercased memory size and the bytes in its unit: the
/// text before "kb", "mb", "gb" or "b" (trimmed), or the whole text for a
/// bare number of kilobytes; `None` for an empty text.
pub open spec fn mem_parts(m: Seq<char>) -> Option<(Seq<char>, int)> {
    if crate::text::has_suffix(m, "kb"@) {
        Some((trim(m.take(m.len() - 2)), 1024))
    } else if crate::text::has_suffix(m, "mb"@) {
        Some((trim(m.take(m.len() - 2)), 1048576int))
    } else if crate::text::has_suffix(m, "gb"@) {
        Some((trim(m.take(m.len() - 2)), 1073741824int))
    } else if crate::text::has_suffix(m, "b"@) {
        Some((trim(m.take(m.len() - 1)), 1))
    } else if m.len() == 0 {
        None
    } else {
        Some((m, 1024))
    }
}

/// A lowercased memory size ("1024kb", "1.5gb", "512991mb", "5b", "1e3kb",
/// or a bare number of kilobytes), in units of 10^-9 byte (see [`scaled`]).
pub open spec fn mem_of_lower(m: Seq<char>) -> Option<int> {
    match mem_parts(m) {
        Some((v, k)) => scaled(v, k),
        None => None,
    }
}

/// A memory size, case-insensitive, in units of 10^-9 byte (see
/// [`mem_of_lower`]): the trimmed text lowercased.
pub open spec fn mem_bytes(s: Seq<char>) -> Option<int> {
    mem_of_lower(crate::text::lowercase(trim(s)))
}

/// Whether a lowercased memory size reads "nan", not a number (with an
/// optional sign and unit).
pub open spec fn nan_of_lower(m: Seq<char>) -> bool {
    match mem_parts(m) {
        Some((v, _)) => unsigned_text(v) == "nan"@,
        None => false,
    }
}

/// Whether a memory size, case-insensitive and trimmed, reads "nan".
pub open spec fn mem_nan(s: Seq<char>) -> bool {
    nan_of_lower(crate::text::lowercase(trim(s)))
}

/// Whether `v` is all ASCII digits.
fn all_digit_chars(v: &Vec<char>) -> (r: bool)
    ensures
        r == all_digits(v@),
{
    let mut i: usize = 0;
    while i < v.len()
        invariant
            i <= v.len(),
            forall|k: int| 0 <= k < i ==> is_digit(#[trigger] v@[k]),
        decreases v.len() - i,
    {
        if !crate::text::is_digit_char(v[i]) {
            return false;
        }
        i += 1;
    }
    true
}

/// The cap on a parsed exponent: any larger one decides the same.
pub open spec fn exp_cap() -> int {
    1267650600228229401496703205376
}

/// The value of the digits `v`, saturated at [`exp_cap`].
fn sat_digits(v: &Vec<char>) -> (r: u128)
    requires
        all_digits(v@),
    ensures
        r == if digits_value(v@) > exp_cap() {
            exp_cap()
        } else {
            digits_value(v@)
        },
{
    let cap: u128 = 1267650600228229401496703205376;
    let mut acc: u128 = 0;
    let mut i: usize = 0;
    while i < v.len()
        invariant
            i <= v.len(),
            all_digits(v@),
            cap == exp_cap(),
            acc == if digits_value(v@.take(i as int)) > exp_cap() {
                exp_cap()
            } else {
                digits_value(v@.take(i as int))
            },
        decreases v.len() - i,
    {
        proof {
            assert(v@.take(i + 1).drop_last() == v@.take(i as int));
            assert(v@.take(i + 1).last() == v@[i as int]);
            assert(is_digit(v@[i as int]));
            crate::text::lemma_digits_value_nonneg(v@.take(i as int));
            assert forall|t: int| 0 <= t < v@.take(i as int).len() implies is_digit(
                #[trigger] v@.take(i as int)[t],
            ) by {}
        }
        let d = (v[i] as u32 - 48) as u128;
        let next = acc * 10 + d;
        acc = if next > cap { cap } else { next };
        i += 1;
    }
    proof {
        assert(v@.take(v.len() as int) == v@);
    }
    acc
}

/// `10^n` for `n <= 38`.
fn pow10_exec(n: u32) -> (r: u128)
    requires
        n <= 38,
    ensures
        r == pow10(n as nat),
{
    proof {
        lemma_pow10_values();
        lemma_pow10_mono(n as nat, 38);
    }
    let mut r: u128 = 1;
    let mut i: u32 = 0;
    while i < n
        invariant
            i <= n <= 38,
            r == pow10(i as nat),
            pow10(38) == 100_000_000_000_000_000_000_000_000_000_000_000_000,
        decreases n - i,
    {
        proof {
            lemma_pow10_mono(i as nat + 1, 38);
            assert(pow10(i as nat + 1) == 10 * pow10(i as nat));
        }
        r = r * 10;
        i += 1;
    }
    r
}

proof fn lemma_pow10_values()
    ensures
        pow10(19) == 10_000_000_000_000_000_000,
        pow10(29) == 100_000_000_000_000_000_000_000_000_000,
        pow10(38) == 100_000_000_000_000_000_000_000_000_000_000_000_000,
        pow10(39) == 1_000_000_000_000_000_000_000_000_000_000_000_000_000,
{
    reveal_with_fuel(pow10, 40);
}

proof fn lemma_pow10_mono(a: nat, b: nat)
    requires
        a <= b,
    ensures
        1 <= pow10(a) <= pow10(b),
    decreases b,
{
    if b > 0 {
        if a < b {
            lemma_pow10_mono(a, (b - 1) as nat);
        } else {
            lemma_pow10_mono((a - 1) as nat, (b - 1) as nat);
        }
    }
}

/// Whole digits number at most `10^len - 1`.
proof fn lemma_digits_bound(d: Seq<char>)
    requires
        all_digits(d),
    ensures
        0 <= digits_value(d) < pow10(d.len()),
    decreases d.len(),
{
    if d.len() > 0 {
        assert(is_digit(d[d.len() - 1]));
        assert forall|i: int| 0 <= i < d.drop_last().len() implies is_digit(
            #[trigger] d.drop_last()[i],
        ) by {
            assert(d.drop_last()[i] == d[i]);
        }
        lemma_digits_bound(d.drop_last());
    }
}

/// The leading zeros of `v` counted from `z`.
proof fn lemma_lead_zeros_step(d: Seq<char>, z: int)
    requires
        0 <= z < d.len(),
        d[z] == '0',
    ensures
        lead_zeros(d.skip(z)) == 1 + lead_zeros(d.skip(z + 1)),
{
    assert(d.skip(z).drop_first() == d.skip(z + 1));
}

/// `m * 10^p` (or `m / 10^-p`) saturated at [`mem_bound`], for the
/// significand `m` of at most nineteen digits times a unit of at most 2^30.
fn scale_sat(m: u128, p: i128) -> (r: u128)
    requires
        m < pow10(29),
    ensures
        r == scaled_mag(m as int, p as int),
{
    let bound: u128 = 10633823966279326983230456482242756608;
    proof {
        lemma_pow10_values();
    }
    if m == 0 {
        proof {
            if p < 0 {
                lemma_pow10_mono(0, (-p) as nat);
            }
        }
        return 0;
    }
    if p >= 39 {
        proof {
            lemma_pow10_mono(39, p as nat);
            assert(m * pow10(p as nat) >= pow10(p as nat)) by (nonlinear_arith)
                requires
                    m >= 1,
                    pow10(p as nat) >= 1,
            ;
        }
        return bound;
    }
    if p >= 0 {
        let t = pow10_exec(p as u32);
        proof {
            lemma_pow10_mono(0, p as nat);
            assert(m * t >= 1) by (nonlinear_arith)
                requires
                    m >= 1,
                    t >= 1,
            ;
        }
        match m.checked_mul(t) {
            Some(x) => if x > bound { bound } else { x },
            None => bound,
        }
    } else if p < -38 {
        proof {
            lemma_pow10_mono(29, (-p) as nat);
            assert((m as int) / pow10((-p) as nat) == 0) by (nonlinear_arith)
                requires
                    0 <= m < pow10((-p) as nat),
            ;
        }
        1
    } else {
        let t = pow10_exec((0 - p) as u32);
        proof {
            lemma_pow10_mono(0, (-p) as nat);
            assert((m as int) / (t as int) <= m) by (nonlinear_arith)
                requires
                    m >= 0,
                    t >= 1,
            ;
        }
        let q = m / t;
        if q == 0 { 1 } else { q }
    }
}

/// Past the cap, an exponent decides the same: the amount saturates (or
/// vanishes) either way.
proof fn lemma_sat_exp_same(m: int, base: int, e: int)
    requires
        0 <= m < pow10(29),
        -0x2_0000_0000_0000_0000 <= base <= 0x2_0000_0000_0000_0000,
    ensures
        scaled_mag(m, base + sat_exp(e)) == scaled_mag(m, base + e),
{
    lemma_pow10_values();
    if e > exp_cap() {
        lemma_big_exp(m, base + e);
        lemma_big_exp(m, base + exp_cap());
    } else if e < -exp_cap() {
        lemma_small_exp(m, base + e);
        lemma_small_exp(m, base - exp_cap());
    }
}

proof fn lemma_big_exp(m: int, p: int)
    requires
        0 <= m < pow10(29),
        p >= 39,
    ensures
        scaled_mag(m, p) == if m == 0 {
            0
        } else {
            mem_bound()
        },
{
    lemma_pow10_values();
    lemma_pow10_mono(39, p as nat);
    let t = pow10(p as nat);
    if m == 0 {
        assert(m * t == 0);
    } else {
        assert(m * t >= t) by (nonlinear_arith)
            requires
                m >= 1,
                t >= 1,
        ;
        assert(mem_bound() < pow10(39));
    }
}

proof fn lemma_small_exp(m: int, p: int)
    requires
        0 <= m < pow10(29),
        p <= -39,
    ensures
        scaled_mag(m, p) == if m == 0 {
            0int
        } else {
            1int
        },
{
    lemma_pow10_values();
    lemma_pow10_mono(29, (-p) as nat);
    let t = pow10((-p) as nat);
    assert(m / t == 0) by (nonlinear_arith)
        requires
            0 <= m < t,
    ;
}

/// The parts of the number `v` (see [`num_parts`]), its exponent clamped by
/// [`sat_exp`].
fn parse_num(v: &Vec<char>) -> (r: Option<(bool, Vec<char>, Vec<char>, i128)>)
    ensures
        match r {
            Some((neg, ip, fp, es)) => num_parts(v@) matches Some((n2, i2, f2, e)) && n2 == neg
                && i2 == ip@ && f2 == fp@ && es == sat_exp(e),
            None => num_parts(v@) is None,
        },
{
    let neg = v.len() > 0 && v[0] == '-';
    let a: usize = if v.len() > 0 && (v[0] == '-' || v[0] == '+') { 1 } else { 0 };
    let b = slice(v, a, v.len());
    proof {
        if a == 1 {
            assert(b@ == v@.drop_first());
        } else {
            assert(b@ == v@);
        }
    }
    let ei = find_char_from(&b, 0, 'e');
    proof {
        assert(b@.skip(0) == b@);
    }
    let mant = slice(&b, 0, ei);
    let d = find_char_from(&mant, 0, '.');
    proof {
        assert(mant@.skip(0) == mant@);
    }
    let ip = slice(&mant, 0, d);
    let fp = if d < mant.len() {
        slice(&mant, d + 1, mant.len())
    } else {
        Vec::new()
    };
    let has_e = ei < b.len();
    let ex = if has_e {
        slice(&b, ei + 1, b.len())
    } else {
        Vec::new()
    };
    proof {
        assert(mant@ == b@.take(ei as int));
        assert(ip@ == mant@.take(d as int));
        if d < mant.len() {
            assert(fp@ == mant@.skip(d + 1));
        } else {
            assert(fp@ =~= Seq::<char>::empty());
        }
        if has_e {
            assert(ex@ == b@.skip(ei + 1));
        } else {
            assert(ex@ =~= Seq::<char>::empty());
        }
    }
    let eneg = ex.len() > 0 && ex[0] == '-';
    let es: usize = if ex.len() > 0 && (ex[0] == '-' || ex[0] == '+') { 1 } else { 0 };
    let ed = slice(&ex, es, ex.len());
    proof {
        if es == 1 {
            assert(ed@ == ex@.drop_first());
        } else {
            assert(ed@ == ex@);
        }
    }
    if !all_digit_chars(&ip) || !all_digit_chars(&fp) || ip.len() + fp.len() == 0 {
        return None;
    }
    if has_e && (ed.len() == 0 || !all_digit_chars(&ed)) {
        return None;
    }
    let e_sat: u128 = if has_e { sat_digits(&ed) } else { 0 };
    proof {
        if has_e {
            crate::text::lemma_digits_value_nonneg(ed@);
        }
    }
    let es_i: i128 = if eneg { 0 - (e_sat as i128) } else { e_sat as i128 };
    Some((neg, ip, fp, es_i))
}

/// The significant digits of `ip` followed by `fp` (see [`sig_digits`]).
fn sig_of(ip: &Vec<char>, fp: &Vec<char>) -> (r: Vec<char>)
    requires
        all_digits(ip@),
        all_digits(fp@),
    ensures
        r@ == sig_digits(ip@, fp@),
        all_digits(r@),
{
    let mut ds = slice(ip, 0, ip.len());
    proof {
        assert(ds@ == ip@);
    }
    crate::text::push_all(&mut ds, fp);
    let ghost dsv = ip@ + fp@;
    assert(ds@ == dsv);
    proof {
        assert forall|t: int| 0 <= t < dsv.len() implies is_digit(#[trigger] dsv[t]) by {
            if t < ip@.len() {
                assert(dsv[t] == ip@[t]);
            } else {
                assert(dsv[t] == fp@[t - ip@.len()]);
            }
        }
        assert(dsv.skip(0) == dsv);
    }
    let mut z: usize = 0;
    while z < ds.len() && ds[z] == '0'
        invariant
            z <= ds@.len(),
            ds@ == dsv,
            lead_zeros(dsv) == z + lead_zeros(dsv.skip(z as int)),
        decreases ds.len() - z,
    {
        proof {
            lemma_lead_zeros_step(dsv, z as int);
        }
        z += 1;
    }
    proof {
        if z == ds.len() {
            assert(dsv.skip(z as int) =~= Seq::<char>::empty());
        }
    }
    let sig = slice(&ds, z, ds.len());
    proof {
        assert(sig@ == dsv.skip(z as int));
        assert forall|t: int| 0 <= t < sig@.len() implies is_digit(#[trigger] sig@[t]) by {
            assert(sig@[t] == dsv[z + t]);
        }
    }
    sig
}

fn scaled_chars(v: &Vec<char>, k: u128) -> (r: Option<i128>)
    requires
        1 <= k <= 1024 * 1024 * 1024,
    ensures
        match r {
            Some(x) => scaled(v@, k as int) == Some(x as int),
            None => scaled(v@, k as int) is None,
        },
{
    let neg0 = v.len() > 0 && v[0] == '-';
    let body = unsigned_chars(v);
    if crate::text::eq_str(&body, "inf") || crate::text::eq_str(&body, "infinity") {
        let bound: i128 = 10633823966279326983230456482242756608;
        return Some(if neg0 { 0 - bound } else { bound });
    }
    let (neg, ip, fp, es) = match parse_num(v) {
        Some(t) => t,
        None => return None,
    };
    let ghost e: int = match num_parts(v@) {
        Some((_, _, _, x)) => x,
        None => 0,
    };
    let sig = sig_of(&ip, &fp);
    let keep: usize = if sig.len() > 19 { 19 } else { sig.len() };
    let kd = slice(&sig, 0, keep);
    proof {
        assert(kd@ == kept_digits(sig@));
        assert forall|t: int| 0 <= t < kd@.len() implies is_digit(#[trigger] kd@[t]) by {
            assert(kd@[t] == sig@[t]);
        }
        lemma_digits_bound(kd@);
        lemma_pow10_values();
        lemma_pow10_mono(kd@.len(), 19);
    }
    let mv: u128 = digits_to_u128(&kd);
    proof {
        assert(mv * k < pow10(29)) by (nonlinear_arith)
            requires
                mv < 10_000_000_000_000_000_000,
                1 <= k <= 1024 * 1024 * 1024,
                pow10(29) == 100_000_000_000_000_000_000_000_000_000,
        ;
    }
    let m: u128 = mv * k;
    let base: i128 = (sig.len() - keep) as i128 - fp.len() as i128 + 9;
    let c = scale_sat(m, base + es);
    proof {
        lemma_sat_exp_same(m as int, base as int, e);
    }
    Some(if neg { 0 - (c as i128) } else { c as i128 })
}

/// The value of at most nineteen digits.
fn digits_to_u128(v: &Vec<char>) -> (r: u128)
    requires
        all_digits(v@),
        v@.len() <= 19,
    ensures
        r == digits_value(v@),
{
    let mut acc: u128 = 0;
    let mut i: usize = 0;
    while i < v.len()
        invariant
            i <= v.len() <= 19,
            all_digits(v@),
            acc == digits_value(v@.take(i as int)),
            acc < pow10(i as nat),
        decreases v.len() - i,
    {
        proof {
            assert(v@.take(i + 1).drop_last() == v@.take(i as int));
            assert(v@.take(i + 1).last() == v@[i as int]);
            assert(is_digit(v@[i as int]));
            lemma_pow10_values();
            lemma_pow10_mono(i as nat + 1, 19);
        }
        let d = (v[i] as u32 - 48) as u128;
        acc = acc * 10 + d;
        i += 1;
    }
    proof {
        assert(v@.take(v.len() as int) == v@);
    }
    acc
}


/// The number in a lowercased memory size and the bytes in its unit (see
/// [`mem_parts`]).
fn mem_parts_exec(m: &Vec<char>) -> (r: Option<(Vec<char>, u128)>)
    ensures
        match r {
            Some((v, k)) => mem_parts(m@) == Some((v@, k as int)) && 1 <= k <= 1024 * 1024
                * 1024,
            None => mem_parts(m@) is None,
        },
{
    let cut: usize = if crate::text::ends_with_str(m, "kb") || crate::text::ends_with_str(m, "mb")
        || crate::text::ends_with_str(m, "gb") {
        2
    } else if crate::text::ends_with_str(m, "b") {
        1
    } else {
        0
    };
    proof {
        reveal_strlit("kb");
        reveal_strlit("mb");
        reveal_strlit("gb");
        reveal_strlit("b");
    }
    if cut == 0 {
        if m.len() == 0 {
            return None;
        }
        let v = slice(m, 0, m.len());
        proof {
            assert(v@ == m@);
        }
        return Some((v, 1024));
    }
    let v = slice(m, 0, m.len() - cut);
    let vt = trim_chars(&v);
    proof {
        assert(v@ == m@.take(m@.len() - cut));
    }
    let k: u128 = if crate::text::ends_with_str(m, "kb") {
        1024
    } else if crate::text::ends_with_str(m, "mb") {
        1024 * 1024
    } else if crate::text::ends_with_str(m, "gb") {
        1024 * 1024 * 1024
    } else {
        1
    };
    Some((vt, k))
}

/// A lowercased memory size in units of 10^-9 byte (see [`mem_of_lower`]);
/// `None` when it does not parse.
pub fn mem_from_lower(m: &str) -> (r: Option<i128>)
    ensures
        match r {
            Some(x) => mem_of_lower(m@) == Some(x as int),
            None => mem_of_lower(m@) is None,
        },
{
    let m = to_chars(m);
    match mem_parts_exec(&m) {
        Some((v, k)) => scaled_chars(&v, k),
        None => None,
    }
}

/// `v` without one leading sign (see [`unsigned_text`]).
fn unsigned_chars(v: &Vec<char>) -> (r: Vec<char>)
    ensures
        r@ == unsigned_text(v@),
{
    let a: usize = if v.len() > 0 && (v[0] == '-' || v[0] == '+') { 1 } else { 0 };
    let r = slice(v, a, v.len());
    proof {
        if a == 1 {
            assert(r@ == v@.drop_first());
        } else {
            assert(r@ == v@);
        }
    }
    r
}

/// A memory size in units of 10^-9 byte (see [`mem_bytes`]): the trimmed
/// text is lowercased, then read by [`mem_from_lower`].
pub fn parse_mem(s: &str) -> (r: Option<i128>)
    ensures
        match r {
            Some(x) => mem_bytes(s@) == Some(x as int),
            None => mem_bytes(s@) is None,
        },
{
    let t = trim_chars(&to_chars(s));
    let lower = crate::text::to_lowercase(to_string(&t).as_str());
    mem_from_lower(lower.as_str())
}

/// Whether a memory size reads "nan" (see [`mem_nan`]): the trimmed text is
/// lowercased, and its number part, unsigned, compared with "nan".
pub fn mem_is_nan(s: &str) -> (b: bool)
    ensures
        b == mem_nan(s@),
{
    let t = trim_chars(&to_chars(s));
    let lower = crate::text::to_lowercase(to_string(&t).as_str());
    let m = to_chars(lower.as_str());
    match mem_parts_exec(&m) {
        Some((v, _)) => crate::text::eq_str(&unsigned_chars(&v), "nan"),
        None => false,
    }
}

/// A node has usable capacity worth graphing (free or busy, not down/offline).
pub open spec fn renderable(state: Seq<char>) -> bool {
    (has_infix(state, "free"@) || has_infix(state, "job-busy"@)) && !has_infix(state, "offline"@)
}

fn is_renderable(state: &String) -> (b: bool)
    ensures
        b == renderable(state@),
{
    let v = to_chars(state.as_str());
    (crate::text::contains_str(&v, "free") || crate::text::contains_str(&v, "job-busy"))
        && !crate::text::contains_str(&v, "offline")
}

/// One physical host: its vnodes combined.
#[derive(Debug, Clone)]
pub struct Host {
    pub name: String,
    pub state: String,
    pub jobs: Vec<String>,
    pub nproc: i64,
    /// Available memory, in units of 10^-9 byte; `None` when it is not a
    /// number (a vnode's amount read "nan").
    pub avail_mem: Option<i128>,
    /// Assigned memory, in units of 10^-9 byte; `None` when it is not a
    /// number.
    pub used_mem: Option<i128>,
    pub ngpus: i64,
    pub usedgpus: i64,
}

pub struct HostSpec {
    pub name: Seq<char>,
    pub state: Seq<char>,
    pub jobs: Seq<Seq<char>>,
    pub nproc: i64,
    pub avail_mem: Option<int>,
    pub used_mem: Option<int>,
    pub ngpus: i64,
    pub usedgpus: i64,
}

impl View for Host {
    type V = HostSpec;

    open spec fn view(&self) -> HostSpec {
        HostSpec {
            name: self.name@,
            state: self.state@,
            jobs: string_views(self.jobs@),
            nproc: self.nproc,
            avail_mem: opt_int(self.avail_mem),
            used_mem: opt_int(self.used_mem),
            ngpus: self.ngpus,
            usedgpus: self.usedgpus,
        }
    }
}

pub open spec fn host_views(hosts: Seq<Host>) -> Seq<HostSpec> {
    hosts.map_values(|h: Host| h@)
}

/// An optional `i128` as an optional integer.
pub open spec fn opt_int(o: Option<i128>) -> Option<int> {
    match o {
        Some(x) => Some(x as int),
        None => None,
    }
}

/// A vnode's memory amount in units of 10^-9 byte: `None` when it reads
/// "nan" (not a number), else the size, 0 when it does not parse.
pub open spec fn mem_amount(s: Seq<char>) -> Option<int> {
    if mem_nan(s) {
        None
    } else {
        match mem_bytes(s) {
            Some(x) => Some(x),
            None => Some(0),
        }
    }
}

/// Two amounts summed, saturated at [`mem_bound`]; not a number when
/// either is not.
pub open spec fn mem_sum(a: Option<int>, b: Option<int>) -> Option<int> {
    match (a, b) {
        (Some(x), Some(y)) => Some(clamp_mem(x + y)),
        _ => None,
    }
}

/// `x` saturated at [`mem_bound`] either way.
pub open spec fn clamp_mem(x: int) -> int {
    if x > mem_bound() {
        mem_bound()
    } else if x < -mem_bound() {
        -mem_bound()
    } else {
        x
    }
}

/// `a + b` saturated at [`mem_bound`].
fn sat_mem_add(a: i128, b: i128) -> (r: i128)
    ensures
        r == clamp_mem(a + b),
{
    let bound: i128 = 10633823966279326983230456482242756608;
    match a.checked_add(b) {
        Some(x) => if x > bound {
            bound
        } else if x < -bound {
            -bound
        } else {
            x
        },
        None => if a > 0 {
            bound
        } else {
            -bound
        },
    }
}

/// `x` saturated at [`mem_bound`].
fn clamp_mem_exec(x: i128) -> (r: i128)
    ensures
        r == clamp_mem(x as int),
{
    let bound: i128 = 10633823966279326983230456482242756608;
    if x > bound {
        bound
    } else if x < -bound {
        -bound
    } else {
        x
    }
}

/// First position of a host named `name`.
pub open spec fn host_index(hs: Seq<HostSpec>, name: Seq<char>) -> Option<int>
    decreases hs.len(),
{
    if hs.len() == 0 {
        None
    } else {
        match host_index(hs.drop_last(), name) {
            Some(i) => Some(i),
            None => if hs.last().name == name {
                Some(hs.len() - 1)
            } else {
                None
            },
        }
    }
}

/// One vnode merged into the hosts seen so far: into its host's row (cores,
/// GPUs and memory summed, jobs appended, the state taken from the vnode when
/// it is renderable and the row's is not), or as a new row named by the part
/// of its name before '['.
pub open spec fn merge_step(hs: Seq<HostSpec>, n: NodeSpec) -> Seq<HostSpec> {
    let host = before(n.name, '[');
    let avail = mem_amount(n.availmem);
    let used = mem_amount(n.usedmem);
    match host_index(hs, host) {
        Some(i) => {
            let acc = hs[i];
            hs.update(
                i,
                HostSpec {
                    nproc: clamp64(acc.nproc + n.nproc) as i64,
                    ngpus: clamp64(acc.ngpus + n.ngpus) as i64,
                    usedgpus: clamp64(acc.usedgpus + n.usedgpus) as i64,
                    jobs: acc.jobs + n.jobs,
                    avail_mem: mem_sum(acc.avail_mem, avail),
                    used_mem: mem_sum(acc.used_mem, used),
                    state: if renderable(n.state) && !renderable(acc.state) {
                        n.state
                    } else {
                        acc.state
                    },
                    ..acc
                },
            )
        },
        None => hs.push(
            HostSpec {
                name: host,
                state: n.state,
                jobs: n.jobs,
                nproc: n.nproc,
                avail_mem: avail,
                used_mem: used,
                ngpus: n.ngpus,
                usedgpus: n.usedgpus,
            },
        ),
    }
}

/// All vnodes merged, in order: one row per physical host, in order of first
/// appearance.
pub open spec fn merged(ns: Seq<NodeSpec>) -> Seq<HostSpec>
    decreases ns.len(),
{
    if ns.len() == 0 {
        seq![]
    } else {
        merge_step(merged(ns.drop_last()), ns.last())
    }
}

fn mem_amount_exec(s: &String) -> (r: Option<i128>)
    ensures
        opt_int(r) == mem_amount(s@),
{
    if mem_is_nan(s.as_str()) {
        None
    } else {
        match parse_mem(s.as_str()) {
            Some(x) => Some(x),
            None => Some(0),
        }
    }
}

fn mem_sum_exec(a: Option<i128>, b: Option<i128>) -> (r: Option<i128>)
    ensures
        opt_int(r) == mem_sum(opt_int(a), opt_int(b)),
{
    match (a, b) {
        (Some(x), Some(y)) => Some(sat_mem_add(x, y)),
        _ => None,
    }
}

fn copy_strings(v: &Vec<String>) -> (r: Vec<String>)
    ensures
        string_views(r@) == string_views(v@),
{
    let mut r: Vec<String> = Vec::new();
    let mut i: usize = 0;
    while i < v.len()
        invariant
            i <= v.len(),
            string_views(r@) == string_views(v@).take(i as int),
        decreases v.len() - i,
    {
        let s = v[i].clone();
        proof {
            assert(string_views(v@)[i as int] == v@[i as int]@);
            crate::text::lemma_string_views_push(r@, s, string_views(v@), i as int);
        }
        r.push(s);
        i += 1;
    }
    proof {
        assert(string_views(v@).take(v.len() as int) == string_views(v@));
    }
    r
}

fn find_host(hs: &Vec<Host>, name: &Vec<char>) -> (r: Option<usize>)
    ensures
        match r {
            Some(i) => host_index(host_views(hs@), name@) == Some(i as int) && i < hs@.len(),
            None => host_index(host_views(hs@), name@) is None,
        },
{
    let mut i: usize = 0;
    while i < hs.len()
        invariant
            i <= hs.len(),
            host_index(host_views(hs@).take(i as int), name@) is None,
        decreases hs.len() - i,
    {
        proof {
            assert(host_views(hs@).take(i + 1).drop_last() == host_views(hs@).take(i as int));
            assert(host_views(hs@).take(i + 1).last() == hs@[i as int]@);
        }
        let hn = to_chars(hs[i].name.as_str());
        if crate::text::chars_eq(&hn, name) {
            proof {
                lemma_host_index_prefix(host_views(hs@), i as int + 1, name@);
            }
            return Some(i);
        }
        i += 1;
    }
    proof {
        assert(host_views(hs@).take(hs.len() as int) == host_views(hs@));
    }
    None
}

proof fn lemma_host_index_prefix(hs: Seq<HostSpec>, k: int, name: Seq<char>)
    requires
        0 <= k <= hs.len(),
        host_index(hs.take(k), name) is Some,
    ensures
        host_index(hs, name) == host_index(hs.take(k), name),
    decreases hs.len() - k,
{
    if k < hs.len() {
        assert(hs.take(k + 1).drop_last() == hs.take(k));
        lemma_host_index_prefix(hs, k + 1, name);
    } else {
        assert(hs.take(k) == hs);
    }
}

/// Combine a physical host's vnodes (`cmt01[0]`, `cmt01[1]`, ...) into one row
/// named `cmt01`, summing cores, jobs, memory and GPUs. The merged row is
/// renderable if any vnode is. First-appearance order preserved: the rows
/// are kept in a `Vec` and a vnode's host is found by a scan of their names.
pub fn merge_vnodes(nodes: Vec<Node>) -> (r: Vec<Host>)
    ensures
        host_views(r@) == merged(node_views(nodes@)),
{
    let mut hs: Vec<Host> = Vec::new();
    let mut i: usize = 0;
    while i < nodes.len()
        invariant
            i <= nodes.len(),
            host_views(hs@) == merged(node_views(nodes@).take(i as int)),
        decreases nodes.len() - i,
    {
        let ghost prev = host_views(hs@);
        let n = &nodes[i];
        proof {
            assert(node_views(nodes@).take(i + 1).drop_last() == node_views(nodes@).take(i as int));
            assert(node_views(nodes@).take(i + 1).last() == n@);
        }
        let nv = to_chars(n.name.as_str());
        let host = prefix_before(&nv, '[');
        let avail = mem_amount_exec(&n.availmem);
        let used = mem_amount_exec(&n.usedmem);
        match find_host(&hs, &host) {
            Some(k) => {
                let acc = hs.remove(k);
                let mut jobs = acc.jobs;
                let mut more = copy_strings(&n.jobs);
                let ghost before_jobs = string_views(jobs@);
                jobs.append(&mut more);
                proof {
                    assert(string_views(jobs@) =~= before_jobs + string_views(n.jobs@));
                }
                let state = if is_renderable(&n.state) && !is_renderable(&acc.state) {
                    n.state.clone()
                } else {
                    acc.state
                };
                let merged_host = Host {
                    name: acc.name,
                    state,
                    jobs,
                    nproc: sadd(acc.nproc, n.nproc),
                    avail_mem: mem_sum_exec(acc.avail_mem, avail),
                    used_mem: mem_sum_exec(acc.used_mem, used),
                    ngpus: sadd(acc.ngpus, n.ngpus),
                    usedgpus: sadd(acc.usedgpus, n.usedgpus),
                };
                hs.insert(k, merged_host);
                proof {
                    assert(host_views(hs@) =~= prev.update(k as int, merged_host@));
                }
            },
            None => {
                let h = Host {
                    name: to_string(&host),
                    state: n.state.clone(),
                    jobs: copy_strings(&n.jobs),
                    nproc: n.nproc,
                    avail_mem: avail,
                    used_mem: used,
                    ngpus: n.ngpus,
                    usedgpus: n.usedgpus,
                };
                proof {
                    assert(host_views(hs@.push(h)) =~= prev.push(h@));
                }
                hs.push(h);
            },
        }
        i += 1;
    }
    proof {
        assert(node_views(nodes@).take(nodes.len() as int) == node_views(nodes@));
    }
    hs
}


// ---------------------------------------------------------------------------
// Colours
// ---------------------------------------------------------------------------

/// Per-user colour indices, assigned in order of first appearance, so a user
/// keeps one colour across the load table and the node markers of one render.
/// The users are kept in a `Vec` in that order, so a user's index is its
/// position; a `String`-keyed map would leave its contents unstated to the
/// verifier.
pub struct Palette {
    names: Vec<String>,
}

/// Colour index of `user` in a palette holding `p`: its first position, or the
/// next free index.
pub open spec fn pal_index(p: Seq<Seq<char>>, user: Seq<char>) -> nat
    decreases p.len(),
{
    if p.len() == 0 {
        0
    } else if pal_index(p.drop_last(), user) < p.len() - 1 {
        pal_index(p.drop_last(), user)
    } else if p.last() == user {
        (p.len() - 1) as nat
    } else {
        p.len()
    }
}

/// The palette after `user` asked for its colour.
pub open spec fn pal_after(p: Seq<Seq<char>>, user: Seq<char>) -> Seq<Seq<char>> {
    if pal_index(p, user) < p.len() {
        p
    } else {
        p.push(user)
    }
}

proof fn lemma_pal_index(p: Seq<Seq<char>>, user: Seq<char>)
    ensures
        pal_index(p, user) <= p.len(),
        pal_index(p, user) < p.len() ==> p[pal_index(p, user) as int] == user,
        pal_index(p, user) == p.len() ==> !p.contains(user),
    decreases p.len(),
{
    if p.len() > 0 {
        let d = p.drop_last();
        lemma_pal_index(d, user);
        if pal_index(d, user) < d.len() {
            assert(p[pal_index(d, user) as int] == d[pal_index(d, user) as int]);
        }
        if pal_index(p, user) == p.len() {
            assert forall|k: int| 0 <= k < p.len() implies p[k] != user by {
                if k < d.len() {
                    assert(p[k] == d[k]);
                    assert(!d.contains(user));
                }
            }
        }
    }
}

/// Asking for a user's colour again gives the same colour and changes nothing.
pub proof fn law_palette_is_stable(p: Seq<Seq<char>>, user: Seq<char>)
    ensures
        pal_index(pal_after(p, user), user) == pal_index(p, user),
        pal_after(pal_after(p, user), user) == pal_after(p, user),
{
    lemma_pal_index(p, user);
    if pal_index(p, user) == p.len() {
        let q = p.push(user);
        assert(q.drop_last() == p);
    }
}

impl Palette {
    pub closed spec fn view(&self) -> Seq<Seq<char>> {
        string_views(self.names@)
    }

    pub fn new() -> (p: Palette)
        ensures
            p.view() == Seq::<Seq<char>>::empty(),
    {
        let p = Palette { names: Vec::new() };
        proof {
            assert(p.view() =~= Seq::<Seq<char>>::empty());
        }
        p
    }

    /// The colour index of `user`, assigning the next one on first sight.
    pub fn index(&mut self, user: &str) -> (i: usize)
        ensures
            i == pal_index(old(self).view(), user@),
            final(self).view() == pal_after(old(self).view(), user@),
    {
        let u = to_chars(user);
        let mut k: usize = 0;
        proof {
            assert(self.view().take(0) =~= Seq::<Seq<char>>::empty());
        }
        while k < self.names.len()
            invariant
                k <= self.names@.len(),
                u@ == user@,
                self.view() == old(self).view(),
                pal_index(self.view().take(k as int), u@) == k,
            decreases self.names@.len() - k,
        {
            let n = to_chars(self.names[k].as_str());
            proof {
                assert(self.view().take(k + 1).drop_last() == self.view().take(k as int));
                assert(self.view().take(k + 1).last() == self.names@[k as int]@);
            }
            if crate::text::chars_eq(&n, &u) {
                proof {
                    assert(pal_index(self.view().take(k + 1), u@) == k);
                    lemma_pal_prefix(self.view(), k as int + 1, k as int, u@);
                }
                return k;
            }
            k += 1;
        }
        proof {
            assert(self.view().take(self.names@.len() as int) == self.view());
        }
        let s = to_string(&u);
        self.names.push(s);
        proof {
            assert(self.view() =~= old(self).view().push(u@));
        }
        k
    }
}

proof fn lemma_pal_prefix(p: Seq<Seq<char>>, k: int, m: int, user: Seq<char>)
    requires
        0 <= m < k <= p.len(),
        pal_index(p.take(k), user) == m,
    ensures
        pal_index(p, user) == m,
    decreases p.len() - k,
{
    if k < p.len() {
        assert(p.take(k + 1).drop_last() == p.take(k));
        lemma_pal_prefix(p, k + 1, m, user);
    } else {
        assert(p.take(k) == p);
    }
}

/// ANSI escape for a palette colour index (wraps every 12): six plain and six
/// underlined foreground colours.
pub open spec fn user_color(idx: int) -> Seq<char> {
    let k = idx % 12;
    if k == 0 {
        "\x1b[31m"@
    } else if k == 1 {
        "\x1b[32m"@
    } else if k == 2 {
        "\x1b[33m"@
    } else if k == 3 {
        "\x1b[34m"@
    } else if k == 4 {
        "\x1b[35m"@
    } else if k == 5 {
        "\x1b[36m"@
    } else if k == 6 {
        "\x1b[4;31m"@
    } else if k == 7 {
        "\x1b[4;32m"@
    } else if k == 8 {
        "\x1b[4;33m"@
    } else if k == 9 {
        "\x1b[4;34m"@
    } else if k == 10 {
        "\x1b[4;35m"@
    } else {
        "\x1b[4;36m"@
    }
}

fn ansi_for(idx: usize) -> (r: &'static str)
    ensures
        r@ == user_color(idx as int),
{
    let k = idx % 12;
    if k == 0 {
        "\x1b[31m"
    } else if k == 1 {
        "\x1b[32m"
    } else if k == 2 {
        "\x1b[33m"
    } else if k == 3 {
        "\x1b[34m"
    } else if k == 4 {
        "\x1b[35m"
    } else if k == 5 {
        "\x1b[36m"
    } else if k == 6 {
        "\x1b[4;31m"
    } else if k == 7 {
        "\x1b[4;32m"
    } else if k == 8 {
        "\x1b[4;33m"
    } else if k == 9 {
        "\x1b[4;34m"
    } else if k == 10 {
        "\x1b[4;35m"
    } else {
        "\x1b[4;36m"
    }
}

// ---------------------------------------------------------------------------
// Users and their load
// ---------------------------------------------------------------------------

pub open spec fn users_in(jobs: Seq<JobSpec>) -> Seq<Seq<char>> {
    jobs.map_values(|j: JobSpec| j.user)
}

/// Sorted, unique usernames appearing in the job list (any state): the
/// candidate set for the fuzzy user switch.
pub fn users_of(jobs: &Vec<Job>) -> (r: Vec<String>)
    ensures
        crate::text::strictly_sorted(string_views(r@)),
        forall|x: Seq<char>|
            string_views(r@).contains(x) <==> users_in(job_views(jobs@)).contains(x),
{
    let mut names: Vec<Vec<char>> = Vec::new();
    let mut i: usize = 0;
    while i < jobs.len()
        invariant
            i <= jobs.len(),
            views(names@) == users_in(job_views(jobs@)).take(i as int),
        decreases jobs.len() - i,
    {
        let n = to_chars(jobs[i].user.as_str());
        proof {
            crate::text::lemma_views_push(names@, n);
            assert(users_in(job_views(jobs@)).take(i + 1) =~= users_in(job_views(jobs@)).take(
                i as int,
            ).push(n@));
        }
        names.push(n);
        i += 1;
    }
    proof {
        assert(users_in(job_views(jobs@)).take(jobs.len() as int) == users_in(job_views(jobs@)));
    }
    let sorted = crate::text::sort_unique(names);
    let mut r: Vec<String> = Vec::new();
    let mut k: usize = 0;
    while k < sorted.len()
        invariant
            k <= sorted.len(),
            string_views(r@) == views(sorted@).take(k as int),
        decreases sorted.len() - k,
    {
        let s = to_string(&sorted[k]);
        proof {
            crate::text::lemma_string_views_push(r@, s, views(sorted@), k as int);
        }
        r.push(s);
        k += 1;
    }
    proof {
        assert(views(sorted@).take(sorted.len() as int) == views(sorted@));
    }
    r
}

/// The cores a user has in state `st`: their jobs' cpus summed in order
/// (saturating).
pub open spec fn cores_in(jobs: Seq<JobSpec>, user: Seq<char>, st: char) -> i64
    decreases jobs.len(),
{
    if jobs.len() == 0 {
        0
    } else {
        let rest = cores_in(jobs.drop_last(), user, st);
        if jobs.last().user == user && jobs.last().state == st {
            clamp64(rest + jobs.last().cpus) as i64
        } else {
            rest
        }
    }
}

/// The largest remaining walltime among a user's running jobs.
pub open spec fn max_secs(jobs: Seq<JobSpec>, user: Seq<char>) -> Option<i64>
    decreases jobs.len(),
{
    if jobs.len() == 0 {
        None
    } else {
        let rest = max_secs(jobs.drop_last(), user);
        let j = jobs.last();
        if j.user == user && j.state == 'R' {
            match rest {
                Some(m) => Some(
                    if j.sec_remaining > m {
                        j.sec_remaining
                    } else {
                        m
                    },
                ),
                None => Some(j.sec_remaining),
            }
        } else {
            rest
        }
    }
}

/// Users with a running or queued job.
pub open spec fn has_load(jobs: Seq<JobSpec>, user: Seq<char>) -> bool {
    exists|i: int| 0 <= i < jobs.len() && #[trigger] jobs[i].user == user && (jobs[i].state == 'R'
        || jobs[i].state == 'Q')
}

pub struct UserLoadSpec {
    pub name: Seq<char>,
    pub cores: i64,
    pub pending: i64,
    pub secs: Option<i64>,
    pub color: u8,
    pub highlighted: bool,
}

impl View for UserLoad {
    type V = UserLoadSpec;

    open spec fn view(&self) -> UserLoadSpec {
        UserLoadSpec {
            name: self.name@,
            cores: self.cores,
            pending: self.pending,
            secs: self.secs,
            color: self.color,
            highlighted: self.highlighted,
        }
    }
}

pub open spec fn load_views(rows: Seq<UserLoad>) -> Seq<UserLoadSpec> {
    rows.map_values(|u: UserLoad| u@)
}

/// `a` sorts before `b` in the load table: more running cores first, then by
/// name.
pub open spec fn load_before(a: UserLoadSpec, b: UserLoadSpec) -> bool {
    a.cores > b.cores || (a.cores == b.cores && crate::text::lex_lt(a.name, b.name))
}

pub open spec fn load_names(rows: Seq<UserLoadSpec>) -> Seq<Seq<char>> {
    rows.map_values(|u: UserLoadSpec| u.name)
}

/// The palette after the rows `rows` took their colours, starting from `p`.
pub open spec fn pal_after_rows(p: Seq<Seq<char>>, names: Seq<Seq<char>>) -> Seq<Seq<char>>
    decreases names.len(),
{
    if names.len() == 0 {
        p
    } else {
        pal_after(pal_after_rows(p, names.drop_last()), names.last())
    }
}

/// The per-user load table computed from `jobs`, the highlighted user and the
/// palette `p` it starts from: one row per user with a running or queued job,
/// strictly ordered by running cores (most first) then name; each row holds
/// the user's running and queued cores, the largest remaining walltime of
/// their running jobs, their colour (taken in row order from the palette,
/// modulo 256) and whether they are the highlighted user.
pub open spec fn is_load_table(
    rows: Seq<UserLoadSpec>,
    jobs: Seq<JobSpec>,
    highlight: Seq<char>,
    p: Seq<Seq<char>>,
) -> bool {
    &&& forall|i: int, j: int|
        0 <= i < j < rows.len() ==> load_before(#[trigger] rows[i], #[trigger] rows[j])
    &&& forall|u: Seq<char>| load_names(rows).contains(u) <==> has_load(jobs, u)
    &&& forall|k: int|
        0 <= k < rows.len() ==> {
            let r = #[trigger] rows[k];
            &&& r.cores == cores_in(jobs, r.name, 'R')
            &&& r.pending == cores_in(jobs, r.name, 'Q')
            &&& r.secs == max_secs(jobs, r.name)
            &&& r.color as int == pal_index(pal_after_rows(p, load_names(rows).take(k)), r.name)
                % 256
            &&& r.highlighted == (r.name == highlight)
        }
}


/// What [`max_secs`] gives: `None` exactly when the user has no running job,
/// else a remaining walltime of one of their running jobs that none of them
/// exceeds.
proof fn lemma_max_secs_is_largest(jobs: Seq<JobSpec>, user: Seq<char>)
    ensures
        max_secs(jobs, user) is None <==> (forall|i: int|
            0 <= i < jobs.len() ==> !(#[trigger] jobs[i].user == user && jobs[i].state == 'R')),
        forall|i: int|
            0 <= i < jobs.len() && #[trigger] jobs[i].user == user && jobs[i].state == 'R'
                ==> (max_secs(jobs, user) matches Some(m) && jobs[i].sec_remaining <= m),
        max_secs(jobs, user) matches Some(m) ==> exists|i: int|
            0 <= i < jobs.len() && #[trigger] jobs[i].user == user && jobs[i].state == 'R'
                && jobs[i].sec_remaining == m,
    decreases jobs.len(),
{
    if jobs.len() > 0 {
        let rest = jobs.drop_last();
        lemma_max_secs_is_largest(rest, user);
        assert forall|i: int| 0 <= i < rest.len() implies #[trigger] rest[i] == jobs[i] by {}
        let last = jobs.len() - 1;
        if max_secs(jobs, user) is None {
            assert forall|i: int| 0 <= i < jobs.len() implies !(#[trigger] jobs[i].user == user
                && jobs[i].state == 'R') by {
                if i < last {
                    assert(rest[i] == jobs[i]);
                }
            }
        }
        assert forall|i: int|
            0 <= i < jobs.len() && #[trigger] jobs[i].user == user && jobs[i].state == 'R'
                implies (max_secs(jobs, user) matches Some(m) && jobs[i].sec_remaining <= m) by {
            if i < last {
                assert(rest[i] == jobs[i]);
                assert(rest[i].user == user && rest[i].state == 'R');
            }
        }
        match max_secs(jobs, user) {
            Some(m) => {
                if jobs[last].user == user && jobs[last].state == 'R' && jobs[last].sec_remaining
                    == m {
                } else {
                    let k = choose|k: int|
                        0 <= k < rest.len() && #[trigger] rest[k].user == user && rest[k].state
                            == 'R' && rest[k].sec_remaining == m;
                    assert(jobs[k] == rest[k]);
                }
            },
            None => {},
        }
    }
}

/// A row of the load table reports the largest remaining walltime among its
/// user's running jobs: no running job of the user has more time left, one
/// has exactly that much, and a user without running jobs reports none.
pub proof fn law_row_secs_is_largest_remaining(
    rows: Seq<UserLoadSpec>,
    jobs: Seq<JobSpec>,
    highlight: Seq<char>,
    p: Seq<Seq<char>>,
    k: int,
)
    requires
        is_load_table(rows, jobs, highlight, p),
        0 <= k < rows.len(),
    ensures
        forall|i: int|
            0 <= i < jobs.len() && #[trigger] jobs[i].user == rows[k].name && jobs[i].state == 'R'
                ==> (rows[k].secs matches Some(m) && jobs[i].sec_remaining <= m),
        rows[k].secs matches Some(m) ==> exists|i: int|
            0 <= i < jobs.len() && #[trigger] jobs[i].user == rows[k].name && jobs[i].state == 'R'
                && jobs[i].sec_remaining == m,
        rows[k].secs is None ==> forall|i: int|
            0 <= i < jobs.len() ==> !(#[trigger] jobs[i].user == rows[k].name && jobs[i].state
                == 'R'),
{
    assert(rows[k].secs == max_secs(jobs, rows[k].name));
    lemma_max_secs_is_largest(jobs, rows[k].name);
}

proof fn lemma_load_before_trans(a: UserLoadSpec, b: UserLoadSpec, c: UserLoadSpec)
    requires
        load_before(a, b),
        load_before(b, c),
    ensures
        load_before(a, c),
{
    if a.cores == b.cores && b.cores == c.cores {
        crate::text::lemma_lex_transitive(a.name, b.name, c.name);
    }
}

proof fn lemma_load_before_total(a: UserLoadSpec, b: UserLoadSpec)
    requires
        a.name != b.name,
    ensures
        load_before(a, b) || load_before(b, a),
{
    if a.cores == b.cores {
        crate::text::lemma_lex_total(a.name, b.name);
    }
}

/// A colour once given stays: asking for another user's colour never changes
/// the colour of a user the palette already holds.
pub proof fn law_palette_keeps_assigned_colours(p: Seq<Seq<char>>, u: Seq<char>, v: Seq<char>)
    requires
        pal_index(p, u) < p.len(),
    ensures
        pal_index(pal_after(p, v), u) == pal_index(p, u),
{
    if pal_index(p, v) == p.len() {
        let q = p.push(v);
        assert(q.drop_last() == p);
    }
}

/// With distinct names, the palette after the rows holds exactly the names,
/// in order.
proof fn lemma_distinct_palette(names: Seq<Seq<char>>, k: int)
    requires
        0 <= k <= names.len(),
        forall|i: int, j: int| 0 <= i < j < names.len() ==> names[i] != names[j],
    ensures
        pal_after_rows(seq![], names.take(k)) == names.take(k),
    decreases k,
{
    if k > 0 {
        lemma_distinct_palette(names, k - 1);
        let t = names.take(k - 1);
        assert(names.take(k).drop_last() == t);
        assert(names.take(k).last() == names[k - 1]);
        lemma_pal_index(t, names[k - 1]);
        if pal_index(t, names[k - 1]) < t.len() {
            let m = pal_index(t, names[k - 1]) as int;
            assert(t[m] == names[m]);
        }
        assert(t.push(names[k - 1]) == names.take(k));
    } else {
        assert(names.take(0) == Seq::<Seq<char>>::empty());
    }
}

/// The load table and the node markers share colours: the palette the node
/// graph starts from (the table's, after all its rows) gives each table user
/// exactly the colour of their row. (Row colours are stored modulo 256, so
/// this holds for tables of at most 256 users.)
#[verifier::spinoff_prover]
#[verifier::rlimit(40)]
pub proof fn law_table_colours_seed_the_graph(
    rows: Seq<UserLoadSpec>,
    jobs: Seq<JobSpec>,
    highlight: Seq<char>,
    k: int,
)
    requires
        is_load_table(rows, jobs, highlight, seq![]),
        rows.len() <= 256,
        0 <= k < rows.len(),
    ensures
        rows[k].color as int == k,
        pal_index(pal_after_rows(seq![], load_names(rows)), rows[k].name) == rows[k].color,
{
    let names = load_names(rows);
    assert forall|i: int, j: int| 0 <= i < j < names.len() implies names[i] != names[j] by {
        let a = rows[i];
        let b = rows[j];
        assert(load_before(a, b));
        if a.name == b.name {
            crate::text::lemma_lex_irreflexive(a.name);
        }
    }
    lemma_distinct_palette(names, k);
    lemma_distinct_palette(names, names.len() as int);
    assert(names.take(names.len() as int) == names);
    let t = names.take(k);
    lemma_pal_index(t, names[k]);
    if pal_index(t, names[k]) < t.len() {
        let m = pal_index(t, names[k]) as int;
        assert(t[m] == names[m]);
    }
    assert(pal_index(t, names[k]) == k);
    assert(names.take(k + 1).drop_last() == t);
    assert(names.take(k + 1).last() == names[k]);
    assert(pal_index(names.take(k + 1), names[k]) == k);
    lemma_pal_prefix(names, k + 1, k, names[k]);
    assert(rows[k].color as int == pal_index(pal_after_rows(seq![], names.take(k)), names[k]) % 256);
}

fn load_less(a: &UserLoad, b: &UserLoad) -> (r: bool)
    ensures
        r == load_before(a@, b@),
{
    if a.cores != b.cores {
        a.cores > b.cores
    } else {
        let an = to_chars(a.name.as_str());
        let bn = to_chars(b.name.as_str());
        crate::text::lex_less(&an, &bn)
    }
}

pub open spec fn load_sorted(rows: Seq<UserLoadSpec>) -> bool {
    forall|i: int, j: int| 0 <= i < j < rows.len() ==> load_before(#[trigger] rows[i], #[trigger] rows[j])
}

/// Inserts `r` at its place in the sorted `rows`, whose names all differ from
/// its name.
fn insert_load(rows: &mut Vec<UserLoad>, r: UserLoad)
    requires
        load_sorted(load_views(old(rows)@)),
        forall|k: int| 0 <= k < old(rows)@.len() ==> (#[trigger] old(rows)@[k]).name@ != r.name@,
    ensures
        load_sorted(load_views(final(rows)@)),
        exists|p: int|
            0 <= p <= old(rows)@.len() && load_views(final(rows)@) == load_views(old(rows)@).insert(
                p,
                r@,
            ),
{
    let ghost old_v = load_views(rows@);
    let mut p: usize = 0;
    while p < rows.len() && load_less(&rows[p], &r)
        invariant
            p <= rows@.len(),
            rows@ == old(rows)@,
            old_v == load_views(rows@),
            forall|k: int| 0 <= k < p ==> load_before(#[trigger] old_v[k], r@),
        decreases rows@.len() - p,
    {
        p += 1;
    }
    proof {
        if p < rows@.len() {
            assert(!load_before(old_v[p as int], r@));
            assert(old_v[p as int].name != r@.name) by {
                assert(old_v[p as int] == rows@[p as int]@);
            }
            lemma_load_before_total(old_v[p as int], r@);
        }
    }
    let ghost rv = r@;
    rows.insert(p, r);
    proof {
        let nv = load_views(rows@);
        assert(nv =~= old_v.insert(p as int, rv));
        assert forall|i: int, j: int| 0 <= i < j < nv.len() implies load_before(
            #[trigger] nv[i],
            #[trigger] nv[j],
        ) by {
            if j < p {
            } else if j == p {
            } else if i < p {
                assert(nv[j] == old_v[j - 1]);
                lemma_load_before_trans(nv[i], rv, old_v[p as int]);
                if j - 1 > p {
                    lemma_load_before_trans(nv[i], old_v[p as int], old_v[j - 1]);
                }
            } else if i == p {
                assert(nv[j] == old_v[j - 1]);
                if j - 1 > p {
                    lemma_load_before_trans(rv, old_v[p as int], old_v[j - 1]);
                }
            } else {
                assert(nv[i] == old_v[i - 1]);
                assert(nv[j] == old_v[j - 1]);
            }
        }
    }
}

/// The cores `name` has in state `st`.
fn user_cores(jobs: &Vec<Job>, name: &Vec<char>, st: char) -> (r: i64)
    ensures
        r == cores_in(job_views(jobs@), name@, st),
{
    let mut c: i64 = 0;
    let mut i: usize = 0;
    while i < jobs.len()
        invariant
            i <= jobs.len(),
            c == cores_in(job_views(jobs@).take(i as int), name@, st),
        decreases jobs.len() - i,
    {
        proof {
            assert(job_views(jobs@).take(i + 1).drop_last() == job_views(jobs@).take(i as int));
            assert(job_views(jobs@).take(i + 1).last() == jobs@[i as int]@);
        }
        let u = to_chars(jobs[i].user.as_str());
        if crate::text::chars_eq(&u, name) && jobs[i].state == st {
            c = sadd(c, jobs[i].cpus);
        }
        i += 1;
    }
    proof {
        assert(job_views(jobs@).take(jobs.len() as int) == job_views(jobs@));
    }
    c
}

/// The largest remaining walltime of `name`'s running jobs.
fn user_max_secs(jobs: &Vec<Job>, name: &Vec<char>) -> (r: Option<i64>)
    ensures
        r == max_secs(job_views(jobs@), name@),
{
    let mut m: Option<i64> = None;
    let mut i: usize = 0;
    while i < jobs.len()
        invariant
            i <= jobs.len(),
            m == max_secs(job_views(jobs@).take(i as int), name@),
        decreases jobs.len() - i,
    {
        proof {
            assert(job_views(jobs@).take(i + 1).drop_last() == job_views(jobs@).take(i as int));
            assert(job_views(jobs@).take(i + 1).last() == jobs@[i as int]@);
        }
        let u = to_chars(jobs[i].user.as_str());
        if crate::text::chars_eq(&u, name) && jobs[i].state == 'R' {
            let s = jobs[i].sec_remaining;
            m = match m {
                Some(x) => Some(
                    if s > x {
                        s
                    } else {
                        x
                    },
                ),
                None => Some(s),
            };
        }
        i += 1;
    }
    proof {
        assert(job_views(jobs@).take(jobs.len() as int) == job_views(jobs@));
    }
    m
}

/// The distinct users with a running or queued job.
fn loaded_users(jobs: &Vec<Job>) -> (names: Vec<Vec<char>>)
    ensures
        forall|u: Seq<char>| views(names@).contains(u) <==> has_load(job_views(jobs@), u),
        forall|a: int, b: int| 0 <= a < b < names@.len() ==> names@[a]@ != names@[b]@,
{
    let mut names: Vec<Vec<char>> = Vec::new();
    let mut i: usize = 0;
    while i < jobs.len()
        invariant
            i <= jobs.len(),
            forall|u: Seq<char>|
                views(names@).contains(u) <==> has_load(job_views(jobs@).take(i as int), u),
            forall|a: int, b: int| 0 <= a < b < names@.len() ==> names@[a]@ != names@[b]@,
        decreases jobs.len() - i,
    {
        let ghost jv = job_views(jobs@);
        let ghost old_names = views(names@);
        let u = to_chars(jobs[i].user.as_str());
        let st = jobs[i].state;
        proof {
            assert(jv[i as int] == jobs@[i as int]@);
        }
        if st == 'R' || st == 'Q' {
            let mut k: usize = 0;
            let mut found = false;
            while k < names.len()
                invariant
                    k <= names@.len(),
                    found ==> views(names@).contains(u@),
                    !found ==> forall|m: int| 0 <= m < k ==> names@[m]@ != u@,
                decreases names@.len() - k,
            {
                if crate::text::chars_eq(&names[k], &u) {
                    proof {
                        assert(views(names@)[k as int] == u@);
                    }
                    found = true;
                }
                k += 1;
            }
            if !found {
                proof {
                    crate::text::lemma_views_push(names@, u);
                }
                names.push(u);
            }
        }
        proof {
            let t = jv.take(i + 1);
            assert(views(names@) == old_names || views(names@) == old_names.push(u@));
            assert(views(names@) == old_names.push(u@) ==> (st == 'R' || st == 'Q'));
            assert(views(names@) != old_names.push(u@) ==> (views(names@) == old_names && (!(st
                == 'R' || st == 'Q') || old_names.contains(u@))));
            assert forall|x: Seq<char>| views(names@).contains(x) <==> has_load(t, x) by {
                let t0 = jv.take(i as int);
                if views(names@) == old_names.push(u@) {
                    if old_names.contains(x) {
                        let z = choose|z: int| 0 <= z < old_names.len() && old_names[z] == x;
                        assert(views(names@)[z] == x);
                    }
                    if views(names@).contains(x) && x != u@ {
                        let z = choose|z: int| 0 <= z < views(names@).len() && views(names@)[z] == x;
                        assert(z < old_names.len());
                        assert(old_names[z] == x);
                    }
                    assert(views(names@)[old_names.len() as int] == u@);
                }
                if has_load(t0, x) {
                    let w = choose|w: int| 0 <= w < t0.len() && #[trigger] t0[w].user == x && (
                    t0[w].state == 'R' || t0[w].state == 'Q');
                    assert(t[w] == t0[w]);
                }
                if has_load(t, x) {
                    let w = choose|w: int| 0 <= w < t.len() && #[trigger] t[w].user == x && (
                    t[w].state == 'R' || t[w].state == 'Q');
                    if w < i {
                        assert(t0[w] == t[w]);
                    }
                }
                if (st == 'R' || st == 'Q') && x == u@ {
                    assert(t[i as int].user == x);
                }
            }
        }
        i += 1;
    }
    proof {
        assert(job_views(jobs@).take(jobs.len() as int) == job_views(jobs@));
    }
    names
}

/// Per-user running/pending core counts, sorted running-descending (name
/// tiebreak), each tagged with a palette colour index (assigned in this order
/// so it seeds `pal` before the node markers reuse it) and the largest
/// remaining walltime among the user's running jobs. The counts are summed
/// by scanning the job list per user rather than through a map.
pub fn compute_userload(jobs: &Vec<Job>, highlight: &str, pal: &mut Palette) -> (rows: Vec<
    UserLoad,
>)
    ensures
        is_load_table(load_views(rows@), job_views(jobs@), highlight@, old(pal).view()),
        final(pal).view() == pal_after_rows(old(pal).view(), load_names(load_views(rows@))),
{
    let names = loaded_users(jobs);
    let hl = to_chars(highlight);
    let ghost jv = job_views(jobs@);
    let mut sorted: Vec<UserLoad> = Vec::new();
    let mut i: usize = 0;
    while i < names.len()
        invariant
            i <= names@.len(),
            jv == job_views(jobs@),
            hl@ == highlight@,
            forall|a: int, b: int| 0 <= a < b < names@.len() ==> names@[a]@ != names@[b]@,
            load_sorted(load_views(sorted@)),
            forall|u: Seq<char>|
                load_names(load_views(sorted@)).contains(u) <==> views(names@).take(
                    i as int,
                ).contains(u),
            forall|k: int|
                0 <= k < sorted@.len() ==> {
                    let r = #[trigger] load_views(sorted@)[k];
                    &&& r.cores == cores_in(jv, r.name, 'R')
                    &&& r.pending == cores_in(jv, r.name, 'Q')
                    &&& r.secs == max_secs(jv, r.name)
                    &&& r.highlighted == (r.name == highlight@)
                },
        decreases names@.len() - i,
    {
        let n = &names[i];
        let row = UserLoad {
            name: to_string(n),
            cores: user_cores(jobs, n, 'R'),
            pending: user_cores(jobs, n, 'Q'),
            secs: user_max_secs(jobs, n),
            color: 0,
            highlighted: crate::text::chars_eq(n, &hl),
        };
        proof {
            assert forall|k: int| 0 <= k < sorted@.len() implies (#[trigger] sorted@[k]).name@
                != row.name@ by {
                let nm = load_views(sorted@)[k].name;
                assert(load_names(load_views(sorted@))[k] == nm);
                assert(load_names(load_views(sorted@)).contains(nm));
                let w = choose|w: int| 0 <= w < i && views(names@).take(i as int)[w] == nm;
                assert(views(names@).take(i as int)[w] == names@[w]@);
            }
        }
        let ghost before = load_views(sorted@);
        insert_load(&mut sorted, row);
        proof {
            let after = load_views(sorted@);
            let p = choose|p: int| 0 <= p <= before.len() && after == before.insert(p, row@);
            let tk = views(names@).take(i + 1);
            assert(tk == views(names@).take(i as int).push(n@));
            assert forall|u: Seq<char>| load_names(after).contains(u) <==> tk.contains(u) by {
                if load_names(after).contains(u) {
                    let w = choose|w: int| 0 <= w < after.len() && load_names(after)[w] == u;
                    if w < p {
                        assert(load_names(before)[w] == u);
                        assert(load_names(before).contains(u));
                        let z = choose|z: int| 0 <= z < i && views(names@).take(i as int)[z] == u;
                        assert(tk[z] == u);
                    } else if w == p {
                        assert(tk[i as int] == u);
                    } else {
                        assert(load_names(before)[w - 1] == u);
                        assert(load_names(before).contains(u));
                        let z = choose|z: int| 0 <= z < i && views(names@).take(i as int)[z] == u;
                        assert(tk[z] == u);
                    }
                }
                if tk.contains(u) {
                    let z = choose|z: int| 0 <= z < tk.len() && tk[z] == u;
                    if z < i {
                        assert(views(names@).take(i as int)[z] == u);
                        assert(views(names@).take(i as int).contains(u));
                        assert(load_names(before).contains(u));
                        let w = choose|w: int| 0 <= w < before.len() && load_names(before)[w] == u;
                        if w < p {
                            assert(load_names(after)[w] == u);
                        } else {
                            assert(load_names(after)[w + 1] == u);
                        }
                    } else {
                        assert(load_names(after)[p] == u);
                    }
                }
            }
            assert forall|k: int| 0 <= k < sorted@.len() implies {
                let r = #[trigger] load_views(sorted@)[k];
                &&& r.cores == cores_in(jv, r.name, 'R')
                &&& r.pending == cores_in(jv, r.name, 'Q')
                &&& r.secs == max_secs(jv, r.name)
                &&& r.highlighted == (r.name == highlight@)
            } by {
                if k < p {
                    assert(after[k] == before[k]);
                } else if k > p {
                    assert(after[k] == before[k - 1]);
                }
            }
        }
        i += 1;
    }
    proof {
        assert(views(names@).take(names@.len() as int) == views(names@));
    }
    let ghost p0 = pal.view();
    let ghost sv = load_views(sorted@);
    let mut rows: Vec<UserLoad> = Vec::new();
    let mut k: usize = 0;
    while k < sorted.len()
        invariant
            k <= sorted@.len(),
            sv == load_views(sorted@),
            rows@.len() == k,
            pal.view() == pal_after_rows(p0, load_names(sv).take(k as int)),
            forall|m: int|
                0 <= m < k ==> {
                    let r = #[trigger] load_views(rows@)[m];
                    &&& r.name == sv[m].name
                    &&& r.cores == sv[m].cores
                    &&& r.pending == sv[m].pending
                    &&& r.secs == sv[m].secs
                    &&& r.highlighted == sv[m].highlighted
                    &&& r.color as int == pal_index(
                        pal_after_rows(p0, load_names(sv).take(m)),
                        sv[m].name,
                    ) % 256
                },
        decreases sorted@.len() - k,
    {
        let src = &sorted[k];
        let idx = pal.index(src.name.as_str());
        let row = UserLoad {
            name: src.name.clone(),
            cores: src.cores,
            pending: src.pending,
            secs: src.secs,
            color: (idx % 256) as u8,
            highlighted: src.highlighted,
        };
        proof {
            assert(sv[k as int] == src@);
            assert(load_names(sv).take(k + 1).drop_last() == load_names(sv).take(k as int));
            assert(load_names(sv).take(k + 1).last() == src@.name);
        }
        let ghost old_rows = load_views(rows@);
        rows.push(row);
        proof {
            assert forall|m: int| 0 <= m < k + 1 implies {
                let r = #[trigger] load_views(rows@)[m];
                &&& r.name == sv[m].name
                &&& r.cores == sv[m].cores
                &&& r.pending == sv[m].pending
                &&& r.secs == sv[m].secs
                &&& r.highlighted == sv[m].highlighted
                &&& r.color as int == pal_index(
                    pal_after_rows(p0, load_names(sv).take(m)),
                    sv[m].name,
                ) % 256
            } by {
                assert(load_views(rows@)[m] == rows@[m]@);
                if m < k {
                    assert(load_views(rows@)[m] == old_rows[m]);
                }
            }
        }
        k += 1;
    }
    proof {
        let rv = load_views(rows@);
        assert(load_names(rv) =~= load_names(sv));
        assert(load_names(sv).take(sorted@.len() as int) == load_names(sv));
        assert forall|a: int, b: int| 0 <= a < b < rv.len() implies load_before(
            #[trigger] rv[a],
            #[trigger] rv[b],
        ) by {
            assert(load_before(sv[a], sv[b]));
        }
        assert forall|x: int| 0 <= x < rv.len() implies load_names(rv).take(x) == load_names(
            sv,
        ).take(x) by {}
    }
    rows
}


// ---------------------------------------------------------------------------
// Node rows
// ---------------------------------------------------------------------------

/// `s` with every `c` replaced by `r` (`str::replace`).
pub open spec fn replace_char(s: Seq<char>, c: char, r: Seq<char>) -> Seq<char>
    decreases s.len(),
{
    if s.len() == 0 {
        seq![]
    } else {
        replace_char(s.drop_last(), c, r) + (if s.last() == c {
            r
        } else {
            seq![s.last()]
        })
    }
}

fn replace_all(s: &Vec<char>, c: char, r: &Vec<char>) -> (out: Vec<char>)
    ensures
        out@ == replace_char(s@, c, r@),
{
    let mut out: Vec<char> = Vec::new();
    let mut i: usize = 0;
    while i < s.len()
        invariant
            i <= s.len(),
            out@ == replace_char(s@.take(i as int), c, r@),
        decreases s.len() - i,
    {
        proof {
            assert(s@.take(i + 1).drop_last() == s@.take(i as int));
            assert(s@.take(i + 1).last() == s@[i as int]);
        }
        if s[i] == c {
            crate::text::push_all(&mut out, r);
        } else {
            out.push(s[i]);
            proof {
                assert(out@ == replace_char(s@.take(i as int), c, r@) + seq![s@[i as int]]);
            }
        }
        i += 1;
    }
    proof {
        assert(s@.take(s.len() as int) == s@);
    }
    out
}

/// A graph glyph, coloured by the job marker at `idx` when that column is in
/// use and the marker carries a colour (the marker's bullet becomes the glyph).
pub open spec fn glyph(ch: Seq<char>, markers: Seq<Seq<char>>, idx: int, filled: bool) -> Seq<char> {
    if filled && 0 <= idx < markers.len() && markers[idx].len() > 0 && markers[idx][0]
        == '\u{1b}' {
        replace_char(markers[idx], '\u{2022}', ch)
    } else {
        ch
    }
}

fn push_glyph(g: &mut Vec<char>, ch: &Vec<char>, markers: &Vec<Vec<char>>, idx: i128, filled: bool)
    ensures
        final(g)@ == old(g)@ + glyph(ch@, views(markers@), idx as int, filled),
{
    if filled && 0 <= idx && idx < markers.len() as i128 {
        let m = &markers[idx as usize];
        proof {
            assert(views(markers@)[idx as int] == m@);
        }
        if m.len() > 0 && m[0] == '\u{1b}' {
            let rep = replace_all(m, '\u{2022}', ch);
            crate::text::push_all(g, &rep);
            return;
        }
    }
    crate::text::push_all(g, ch);
}

pub open spec fn min_int(a: int, b: int) -> int {
    if a < b {
        a
    } else {
        b
    }
}

pub open spec fn max0(a: int) -> int {
    if a > 0 {
        a
    } else {
        0
    }
}

/// The first `n` columns of the two-row Braille graph (each column two
/// cores): `∶` both used, `⠄` one used, `=` free.
pub open spec fn braille_cells(n: nat, nproc: int, load: int, markers: Seq<Seq<char>>) -> Seq<char>
    decreases n,
{
    if n == 0 {
        seq![]
    } else {
        let i = n - 1;
        let base = 2 * i;
        let cores = if base + 1 < nproc {
            2
        } else {
            1
        };
        let f = min_int(cores, max0(load - base));
        let ch = if f == 2 {
            seq!['\u{2236}']
        } else if f == 1 {
            seq!['\u{2804}']
        } else {
            seq!['=']
        };
        braille_cells((n - 1) as nat, nproc, load, markers) + glyph(ch, markers, base, f > 0)
    }
}

/// The first `n` columns of a graph with `per_col` cores per column: `used`
/// if any core in the column is busy, `free` if all are idle.
pub open spec fn tier_cells(
    n: nat,
    nproc: int,
    load: int,
    markers: Seq<Seq<char>>,
    per_col: int,
    used: char,
    free: char,
) -> Seq<char>
    decreases n,
{
    if n == 0 {
        seq![]
    } else {
        let i = n - 1;
        let base = i * per_col;
        let cores = min_int(nproc - base, per_col);
        let f = min_int(cores, max0(load - base));
        let ch = if f > 0 {
            seq![used]
        } else {
            seq![free]
        };
        tier_cells((n - 1) as nat, nproc, load, markers, per_col, used, free) + glyph(
            ch,
            markers,
            base,
            f > 0,
        )
    }
}

pub open spec fn concat(ms: Seq<Seq<char>>) -> Seq<char>
    decreases ms.len(),
{
    if ms.len() == 0 {
        seq![]
    } else {
        concat(ms.drop_last()) + ms.last()
    }
}

pub open spec fn dashes(n: nat) -> Seq<char> {
    Seq::new(n, |i: int| '-')
}

/// The CPU graph of a node; glyph density scales with node size: one marker
/// or dash per core (up to 32 cores), Braille pairs (33-64), triple lines
/// (65-96), four per column (more).
pub open spec fn cpu_graph(nproc: int, load: int, markers: Seq<Seq<char>>) -> Seq<char> {
    if nproc > 96 {
        seq!['|'] + tier_cells(((nproc + 3) / 4) as nat, nproc, load, markers, 4, '\u{2e2c}', '\u{2263}')
            + seq!['|']
    } else if nproc > 64 {
        seq!['|'] + tier_cells(((nproc + 2) / 3) as nat, nproc, load, markers, 3, '\u{22ee}', '\u{2261}')
            + seq!['|']
    } else if nproc > 32 {
        seq!['|'] + braille_cells(((nproc + 1) / 2) as nat, nproc, load, markers) + seq!['|']
    } else {
        seq!['|'] + concat(markers) + dashes(max0(nproc - load) as nat) + seq!['|']
    }
}

fn braille_graph(nproc: i64, load: i128, markers: &Vec<Vec<char>>) -> (g: Vec<char>)
    requires
        0 <= load <= 0xffff_ffff_ffff_ffff,
        nproc > 32,
        load >= 0,
    ensures
        g@ == seq!['|'] + braille_cells(((nproc + 1) / 2) as nat, nproc as int, load as int, views(markers@))
            + seq!['|'],
{
    let width: i128 = (nproc as i128 + 1) / 2;
    let mut g: Vec<char> = Vec::new();
    g.push('|');
    let mut i: i128 = 0;
    while i < width
        invariant
            0 <= i <= width,
            width == (nproc + 1) / 2,
            nproc > 32,
            load >= 0,
            g@ == seq!['|'] + braille_cells(i as nat, nproc as int, load as int, views(markers@)),
        decreases width - i,
    {
        let base = i * 2;
        let cores: i128 = if base + 1 < nproc as i128 { 2 } else { 1 };
        let over = load - base;
        let avail = if over > 0 { over } else { 0 };
        let f = if cores < avail { cores } else { avail };
        let mut ch: Vec<char> = Vec::new();
        if f == 2 {
            ch.push('\u{2236}');
        } else if f == 1 {
            ch.push('\u{2804}');
        } else {
            ch.push('=');
        }
        proof {
            assert(ch@ =~= (if f == 2 {
                seq!['\u{2236}']
            } else if f == 1 {
                seq!['\u{2804}']
            } else {
                seq!['=']
            }));
        }
        push_glyph(&mut g, &ch, markers, base, f > 0);
        i += 1;
    }
    g.push('|');
    g
}

fn tier_graph(
    nproc: i64,
    load: i128,
    markers: &Vec<Vec<char>>,
    per_col: i128,
    used: char,
    free: char,
) -> (g: Vec<char>)
    requires
        0 <= load <= 0xffff_ffff_ffff_ffff,
        nproc > 64,
        load >= 0,
        per_col == 3 || per_col == 4,
    ensures
        g@ == seq!['|'] + tier_cells(
            ((nproc + per_col - 1) / (per_col as int)) as nat,
            nproc as int,
            load as int,
            views(markers@),
            per_col as int,
            used,
            free,
        ) + seq!['|'],
{
    let width: i128 = (nproc as i128 + per_col - 1) / per_col;
    let mut g: Vec<char> = Vec::new();
    g.push('|');
    let mut i: i128 = 0;
    proof {
        assert(0 <= width <= nproc) by (nonlinear_arith)
            requires
                width == (nproc + per_col - 1) / (per_col as int),
                nproc > 64,
                3 <= per_col <= 4,
        ;
    }
    while i < width
        invariant
            0 <= i <= width,
            0 <= width <= nproc,
            width == (nproc + per_col - 1) / (per_col as int),
            per_col == 3 || per_col == 4,
            load >= 0,
            g@ == seq!['|'] + tier_cells(
                i as nat,
                nproc as int,
                load as int,
                views(markers@),
                per_col as int,
                used,
                free,
            ),
        decreases width - i,
    {
        proof {
            assert(0 <= i * per_col <= 4 * 0x8000_0000_0000_0000) by (nonlinear_arith)
                requires
                    0 <= i <= 0x8000_0000_0000_0000,
                    3 <= per_col <= 4,
            ;
        }
        let base = i * per_col;
        let rest = nproc as i128 - base;
        let cores = if rest < per_col { rest } else { per_col };
        let over = load - base;
        let avail = if over > 0 { over } else { 0 };
        let f = if cores < avail { cores } else { avail };
        let mut ch: Vec<char> = Vec::new();
        if f > 0 {
            ch.push(used);
        } else {
            ch.push(free);
        }
        proof {
            assert(ch@ =~= (if f > 0 {
                seq![used]
            } else {
                seq![free]
            }));
        }
        push_glyph(&mut g, &ch, markers, base, f > 0);
        i += 1;
    }
    g.push('|');
    g
}

fn small_graph(nproc: i64, load: i128, markers: &Vec<Vec<char>>) -> (g: Vec<char>)
    requires
        0 <= load <= 0xffff_ffff_ffff_ffff,
        nproc <= 32,
    ensures
        g@ == seq!['|'] + concat(views(markers@)) + dashes(max0(nproc - load) as nat) + seq!['|'],
{
    let mut g: Vec<char> = Vec::new();
    g.push('|');
    let mut k: usize = 0;
    while k < markers.len()
        invariant
            k <= markers@.len(),
            g@ == seq!['|'] + concat(views(markers@).take(k as int)),
        decreases markers@.len() - k,
    {
        proof {
            assert(views(markers@).take(k + 1).drop_last() == views(markers@).take(k as int));
            assert(views(markers@).take(k + 1).last() == markers@[k as int]@);
        }
        crate::text::push_all(&mut g, &markers[k]);
        k += 1;
    }
    proof {
        assert(views(markers@).take(markers@.len() as int) == views(markers@));
    }
    let free: i128 = nproc as i128 - load;
    let n: i128 = if free > 0 { free } else { 0 };
    let mut j: i128 = 0;
    let ghost mid = g@;
    while j < n
        invariant
            0 <= j <= n,
            g@ == mid + dashes(j as nat),
        decreases n - j,
    {
        g.push('-');
        j += 1;
        proof {
            assert(dashes(j as nat) == dashes((j - 1) as nat).push('-'));
        }
    }
    g.push('|');
    g
}


/// The user of the last job numbered `number`.
pub open spec fn last_user(jobs: Seq<JobSpec>, number: Seq<char>) -> Option<Seq<char>>
    decreases jobs.len(),
{
    if jobs.len() == 0 {
        None
    } else if jobs.last().number == number {
        Some(jobs.last().user)
    } else {
        last_user(jobs.drop_last(), number)
    }
}

/// `s` in `color`, then reset.
pub open spec fn wrap(s: Seq<char>, color: Seq<char>) -> Seq<char> {
    color + s + "\x1b[0m"@
}

/// The marker of one job on a node and the palette after it: a bullet in its
/// owner's colour (reverse video for the highlighted user), a plain bullet for
/// a job not in the job list.
pub open spec fn marker(jobs: Seq<JobSpec>, p: Seq<Seq<char>>, hl: Seq<char>, number: Seq<char>) -> (
    Seq<char>,
    Seq<Seq<char>>,
) {
    match last_user(jobs, number) {
        Some(u) => {
            let c = user_color(pal_index(p, u) as int);
            (
                if u == hl {
                    c + "\x1b[7m"@ + seq!['\u{2022}'] + "\x1b[0m"@
                } else {
                    c + seq!['\u{2022}'] + "\x1b[0m"@
                },
                pal_after(p, u),
            )
        },
        None => (seq!['\u{2022}'], p),
    }
}

pub open spec fn markers_of(
    jobs: Seq<JobSpec>,
    p: Seq<Seq<char>>,
    hl: Seq<char>,
    numbers: Seq<Seq<char>>,
) -> (Seq<Seq<char>>, Seq<Seq<char>>)
    decreases numbers.len(),
{
    if numbers.len() == 0 {
        (seq![], p)
    } else {
        let (ms, p1) = markers_of(jobs, p, hl, numbers.drop_last());
        let (m, p2) = marker(jobs, p1, hl, numbers.last());
        (ms.push(m), p2)
    }
}

fn find_user(jobs: &Vec<Job>, number: &String) -> (r: Option<String>)
    ensures
        opt_view(r) == last_user(job_views(jobs@), number@),
{
    let n = to_chars(number.as_str());
    let mut i: usize = jobs.len();
    proof {
        assert(job_views(jobs@).take(jobs.len() as int) == job_views(jobs@));
    }
    while i > 0
        invariant
            i <= jobs.len(),
            last_user(job_views(jobs@), n@) == last_user(job_views(jobs@).take(i as int), n@),
            n@ == number@,
        decreases i,
    {
        let ghost t = job_views(jobs@).take(i as int);
        proof {
            assert(t.drop_last() == job_views(jobs@).take(i - 1));
            assert(t.last() == jobs@[i - 1]@);
        }
        let jn = to_chars(jobs[i - 1].number.as_str());
        if crate::text::chars_eq(&jn, &n) {
            return Some(jobs[i - 1].user.clone());
        }
        i -= 1;
    }
    proof {
        assert(job_views(jobs@).take(0) =~= Seq::<JobSpec>::empty());
    }
    None
}

fn node_markers(jobs: &Vec<Job>, numbers: &Vec<String>, pal: &mut Palette, highlight: &str) -> (r:
    Vec<Vec<char>>)
    ensures
        (views(r@), final(pal).view()) == markers_of(
            job_views(jobs@),
            old(pal).view(),
            highlight@,
            string_views(numbers@),
        ),
{
    let hl = to_chars(highlight);
    let mut r: Vec<Vec<char>> = Vec::new();
    let mut k: usize = 0;
    let ghost p0 = pal.view();
    while k < numbers.len()
        invariant
            k <= numbers@.len(),
            hl@ == highlight@,
            (views(r@), pal.view()) == markers_of(
                job_views(jobs@),
                p0,
                highlight@,
                string_views(numbers@).take(k as int),
            ),
        decreases numbers@.len() - k,
    {
        proof {
            assert(string_views(numbers@).take(k + 1).drop_last() == string_views(numbers@).take(
                k as int,
            ));
            assert(string_views(numbers@).take(k + 1).last() == numbers@[k as int]@);
        }
        let ghost pal_before = pal.view();
        let ghost num = numbers@[k as int]@;
        let mut m: Vec<char> = Vec::new();
        match find_user(jobs, &numbers[k]) {
            Some(user) => {
                let idx = pal.index(user.as_str());
                let c = ansi_for(idx);
                crate::text::push_str(&mut m, c);
                let uv = to_chars(user.as_str());
                if crate::text::chars_eq(&uv, &hl) {
                    crate::text::push_str(&mut m, "\x1b[7m");
                }
                m.push('\u{2022}');
                crate::text::push_str(&mut m, "\x1b[0m");
            },
            None => {
                m.push('\u{2022}');
            },
        }
        proof {
            let mk = marker(job_views(jobs@), pal_before, highlight@, num);
            if let Some(u) = last_user(job_views(jobs@), num) {
                if u == highlight@ {
                    assert(m@ =~= user_color(pal_index(pal_before, u) as int) + "\x1b[7m"@ + seq![
                        '\u{2022}',
                    ] + "\x1b[0m"@);
                } else {
                    assert(m@ =~= user_color(pal_index(pal_before, u) as int) + seq!['\u{2022}']
                        + "\x1b[0m"@);
                }
            } else {
                assert(m@ =~= seq!['\u{2022}']);
            }
            assert(mk == (m@, pal.view()));
            crate::text::lemma_views_push(r@, m);
        }
        r.push(m);
        k += 1;
    }
    proof {
        assert(string_views(numbers@).take(numbers@.len() as int) == string_views(numbers@));
    }
    r
}

/// The free/total cores column, right-aligned in 8, coloured by load: red from
/// 80% of the cores in use, yellow from 50%, else green (green for a node
/// without cores).
pub open spec fn cpu_column(nproc: int, load: int) -> Seq<char> {
    wrap(
        pad_left(int_text(nproc - load) + seq!['/'] + int_text(nproc), 8),
        if nproc > 0 && 5 * load >= 4 * nproc {
            "\x1b[31m"@
        } else if nproc > 0 && 2 * load >= nproc {
            "\x1b[33m"@
        } else {
            "\x1b[32m"@
        },
    )
}

/// Whole gigabytes of an amount in units of 10^-9 byte, truncated toward
/// zero and saturated to `i64`.
pub open spec fn whole_gb(x: int) -> int {
    clamp64(
        if x >= 0 {
            x / 1073741824000000000
        } else {
            -((-x) / 1073741824000000000)
        },
    )
}

/// The free/total memory column (whole GB), right-aligned in 11, coloured by
/// the free share: green from half, yellow from a fifth, else red; "NO MEM"
/// in red when nothing is available (unreadable amounts count as zero). The
/// amounts are in units of 10^-9 byte, taken saturated at [`mem_bound`];
/// an available amount that is not a number counts as none, and an assigned
/// one that is not leaves 0 GB free, in red.
pub open spec fn mem_column(avail_mem: Option<int>, used_mem: Option<int>) -> Seq<char> {
    match avail_mem {
        Some(a) if clamp_mem(a) > 0 => {
            let avail = clamp_mem(a);
            match used_mem {
                Some(u) => {
                    let free = avail - clamp_mem(u);
                    wrap(
                        pad_left(
                            int_text(whole_gb(free)) + seq!['/'] + int_text(whole_gb(avail))
                                + "GB"@,
                            11,
                        ),
                        if 2 * free >= avail {
                            "\x1b[32m"@
                        } else if 5 * free >= avail {
                            "\x1b[33m"@
                        } else {
                            "\x1b[31m"@
                        },
                    )
                },
                None => wrap(
                    pad_left(int_text(0) + seq!['/'] + int_text(whole_gb(avail)) + "GB"@, 11),
                    "\x1b[31m"@,
                ),
            }
        },
        _ => wrap(pad_left("NO MEM"@, 11), "\x1b[31m"@),
    }
}

/// The free/total GPU column, right-aligned in 5 (blank without GPUs): green
/// from half free, yellow while any is free, else red.
pub open spec fn gpu_column(ngpus: int, usedgpus: int) -> Seq<char> {
    if ngpus > 0 {
        let free = ngpus - usedgpus;
        wrap(
            pad_left(int_text(free) + seq!['/'] + int_text(ngpus), 5),
            if 2 * free >= ngpus {
                "\x1b[32m"@
            } else if free > 0 {
                "\x1b[33m"@
            } else {
                "\x1b[31m"@
            },
        )
    } else {
        crate::text::spaces(5)
    }
}

/// One node's indicator columns (cpu free, mem free, gpu, CPU graph) and the
/// palette after its markers; "down/offline" for a node that is not renderable.
pub open spec fn indicator(h: HostSpec, jobs: Seq<JobSpec>, p: Seq<Seq<char>>, hl: Seq<char>) -> (
    Seq<char>,
    Seq<Seq<char>>,
) {
    if !renderable(h.state) {
        ("down/offline"@, p)
    } else {
        let (ms, p2) = markers_of(jobs, p, hl, h.jobs);
        let load = h.jobs.len() as int;
        (
            cpu_column(h.nproc as int, load) + "  "@ + mem_column(
                h.avail_mem,
                h.used_mem,
            ) + "  "@ + gpu_column(h.ngpus as int, h.usedgpus as int) + "  "@ + cpu_graph(
                h.nproc as int,
                load,
                ms,
            ),
            p2,
        )
    }
}

fn push_wrapped(out: &mut Vec<char>, s: &Vec<char>, w: usize, color: &str)
    ensures
        final(out)@ == old(out)@ + wrap(pad_left(s@, w as nat), color@),
{
    crate::text::push_str(out, color);
    crate::text::push_pad_left(out, s, w);
    crate::text::push_str(out, "\x1b[0m");
    proof {
        assert(old(out)@ + color@ + pad_left(s@, w as nat) + "\x1b[0m"@ == old(out)@ + wrap(
            pad_left(s@, w as nat),
            color@,
        ));
    }
}

fn ratio_text(a: i128, b: i128) -> (r: Vec<char>)
    ensures
        r@ == int_text(a as int) + seq!['/'] + int_text(b as int),
{
    let mut r = crate::text::int_chars(a);
    r.push('/');
    crate::text::push_int(&mut r, b);
    r
}

fn cpu_col(out: &mut Vec<char>, nproc: i64, load: i128)
    requires
        0 <= load <= 0xffff_ffff_ffff_ffff,
    ensures
        final(out)@ == old(out)@ + cpu_column(nproc as int, load as int),
{
    let n = nproc as i128;
    let l = load;
    let t = ratio_text(n - l, n);
    let color = if n > 0 && 5 * l >= 4 * n {
        "\x1b[31m"
    } else if n > 0 && 2 * l >= n {
        "\x1b[33m"
    } else {
        "\x1b[32m"
    };
    push_wrapped(out, &t, 8, color);
}

fn whole_gb_exec(x: i128) -> (r: i128)
    requires
        -0x1000_0000_0000_0000_0000_0000_0000_0000 <= x <= 0x1000_0000_0000_0000_0000_0000_0000_0000,
    ensures
        r == whole_gb(x as int),
{
    let q: i128 = if x >= 0 {
        x / 1073741824000000000
    } else {
        -((-x) / 1073741824000000000)
    };
    if q > i64::MAX as i128 {
        i64::MAX as i128
    } else if q < i64::MIN as i128 {
        i64::MIN as i128
    } else {
        q
    }
}

fn mem_col(out: &mut Vec<char>, avail_mem: Option<i128>, used_mem: Option<i128>)
    ensures
        final(out)@ == old(out)@ + mem_column(opt_int(avail_mem), opt_int(used_mem)),
{
    let a = match avail_mem {
        Some(x) => clamp_mem_exec(x),
        None => 0,
    };
    if a > 0 && used_mem.is_none() {
        let ag = whole_gb_exec(a);
        let mut t = ratio_text(0, ag);
        crate::text::push_str(&mut t, "GB");
        push_wrapped(out, &t, 11, "\x1b[31m");
    } else if a > 0 {
        let u = match used_mem {
            Some(x) => clamp_mem_exec(x),
            None => 0,
        };
        let free: i128 = a - u;
        let fg = whole_gb_exec(free);
        let ag = whole_gb_exec(a);
        let mut t = ratio_text(fg, ag);
        crate::text::push_str(&mut t, "GB");
        let color = if 2 * free >= a {
            "\x1b[32m"
        } else if 5 * free >= a {
            "\x1b[33m"
        } else {
            "\x1b[31m"
        };
        push_wrapped(out, &t, 11, color);
    } else {
        let t = to_chars("NO MEM");
        push_wrapped(out, &t, 11, "\x1b[31m");
    }
}

fn gpu_col(out: &mut Vec<char>, ngpus: i64, usedgpus: i64)
    ensures
        final(out)@ == old(out)@ + gpu_column(ngpus as int, usedgpus as int),
{
    if ngpus > 0 {
        let n = ngpus as i128;
        let free = n - usedgpus as i128;
        let t = ratio_text(free, n);
        let color = if 2 * free >= n {
            "\x1b[32m"
        } else if free > 0 {
            "\x1b[33m"
        } else {
            "\x1b[31m"
        };
        push_wrapped(out, &t, 5, color);
    } else {
        crate::text::push_spaces(out, 5);
    }
}

/// Render one node's indicator columns: cpu free, mem free, gpu, and the CPU
/// graph.
fn node_indicator(h: &Host, jobs: &Vec<Job>, pal: &mut Palette, highlight: &str) -> (r: Vec<char>)
    ensures
        (r@, final(pal).view()) == indicator(h@, job_views(jobs@), old(pal).view(), highlight@),
{
    if !is_renderable(&h.state) {
        return to_chars("down/offline");
    }
    // One coloured bullet per job on the node; the highlighted user's are reversed.
    let markers = node_markers(jobs, &h.jobs, pal, highlight);
    let load_u = h.jobs.len();
    proof {
        assert(string_views(h.jobs@).len() == load_u);
    }
    let load: i128 = load_u as i128;
    let nproc = h.nproc;
    let graph = if nproc > 96 {
        tier_graph(nproc, load, &markers, 4, '\u{2e2c}', '\u{2263}')
    } else if nproc > 64 {
        tier_graph(nproc, load, &markers, 3, '\u{22ee}', '\u{2261}')
    } else if nproc > 32 {
        braille_graph(nproc, load, &markers)
    } else {
        small_graph(nproc, load, &markers)
    };
    let mut out: Vec<char> = Vec::new();
    cpu_col(&mut out, nproc, load);
    crate::text::push_str(&mut out, "  ");
    mem_col(&mut out, h.avail_mem, h.used_mem);
    crate::text::push_str(&mut out, "  ");
    gpu_col(&mut out, h.ngpus, h.usedgpus);
    crate::text::push_str(&mut out, "  ");
    crate::text::push_all(&mut out, &graph);
    out
}


// ---------------------------------------------------------------------------
// The node graph
// ---------------------------------------------------------------------------

/// `a` sorts before `b` among the node rows: fewer cores first, then by name.
pub open spec fn host_lt(a: HostSpec, b: HostSpec) -> bool {
    a.nproc < b.nproc || (a.nproc == b.nproc && crate::text::lex_lt(a.name, b.name))
}

/// Where a stable insertion puts `x` into the ordered `l`: before the first
/// element that `x` sorts strictly before.
pub open spec fn insert_pos(l: Seq<HostSpec>, x: HostSpec) -> nat
    decreases l.len(),
{
    if l.len() == 0 {
        0
    } else if host_lt(x, l[0]) {
        0
    } else {
        1 + insert_pos(l.drop_first(), x)
    }
}

/// The rows in node order: a stable sort by (cores, name).
pub open spec fn sorted_hosts(hs: Seq<HostSpec>) -> Seq<HostSpec>
    decreases hs.len(),
{
    if hs.len() == 0 {
        seq![]
    } else {
        let l = sorted_hosts(hs.drop_last());
        l.insert(insert_pos(l, hs.last()) as int, hs.last())
    }
}

proof fn lemma_insert_pos(l: Seq<HostSpec>, x: HostSpec, j: int)
    requires
        0 <= j <= l.len(),
        forall|k: int| 0 <= k < j ==> !host_lt(x, #[trigger] l[k]),
        j < l.len() ==> host_lt(x, l[j]),
    ensures
        insert_pos(l, x) == j,
    decreases l.len(),
{
    if l.len() > 0 && !host_lt(x, l[0]) {
        assert forall|k: int| 0 <= k < j - 1 implies !host_lt(x, #[trigger] l.drop_first()[k]) by {
            assert(l.drop_first()[k] == l[k + 1]);
        }
        if j == 0 {
            assert(host_lt(x, l[0]));
        }
        lemma_insert_pos(l.drop_first(), x, j - 1);
    }
}

proof fn lemma_sorted_len(hs: Seq<HostSpec>)
    ensures
        sorted_hosts(hs).len() == hs.len(),
        insert_pos(sorted_hosts(hs), hs.last()) <= sorted_hosts(hs).len(),
    decreases hs.len(),
{
    if hs.len() > 0 {
        lemma_sorted_len(hs.drop_last());
        lemma_insert_pos_bound(sorted_hosts(hs.drop_last()), hs.last());
    }
    lemma_insert_pos_bound(sorted_hosts(hs), hs.last());
}

proof fn lemma_insert_pos_bound(l: Seq<HostSpec>, x: HostSpec)
    ensures
        insert_pos(l, x) <= l.len(),
    decreases l.len(),
{
    if l.len() > 0 {
        lemma_insert_pos_bound(l.drop_first(), x);
    }
}

proof fn lemma_host_lt_order(a: HostSpec, b: HostSpec, c: HostSpec)
    ensures
        host_lt(a, b) && host_lt(b, c) ==> host_lt(a, c),
        host_lt(a, b) ==> !host_lt(b, a),
{
    if host_lt(a, b) && host_lt(b, c) && a.nproc == b.nproc && b.nproc == c.nproc {
        crate::text::lemma_lex_transitive(a.name, b.name, c.name);
    }
    if host_lt(a, b) && a.nproc == b.nproc {
        crate::text::lemma_lex_asymmetric(a.name, b.name);
    }
}

proof fn lemma_insert_pos_spec(l: Seq<HostSpec>, x: HostSpec)
    ensures
        insert_pos(l, x) <= l.len(),
        forall|k: int| 0 <= k < insert_pos(l, x) ==> !host_lt(x, #[trigger] l[k]),
        insert_pos(l, x) < l.len() ==> host_lt(x, l[insert_pos(l, x) as int]),
    decreases l.len(),
{
    if l.len() > 0 && !host_lt(x, l[0]) {
        let t = l.drop_first();
        lemma_insert_pos_spec(t, x);
        assert forall|k: int| 0 <= k < insert_pos(l, x) implies !host_lt(x, #[trigger] l[k]) by {
            if k > 0 {
                assert(l[k] == t[k - 1]);
            }
        }
        if insert_pos(l, x) < l.len() {
            assert(l[insert_pos(l, x) as int] == t[insert_pos(t, x) as int]);
        }
    }
}

/// The node rows come out ordered: by core count, then by name, no row
/// before one that sorts strictly ahead of it; and they are exactly the
/// hosts, each once.
pub proof fn law_node_rows_are_ordered(hs: Seq<HostSpec>)
    ensures
        forall|i: int, j: int|
            0 <= i < j < sorted_hosts(hs).len() ==> !host_lt(
                #[trigger] sorted_hosts(hs)[j],
                #[trigger] sorted_hosts(hs)[i],
            ),
        sorted_hosts(hs).to_multiset() == hs.to_multiset(),
    decreases hs.len(),
{
    broadcast use vstd::seq_lib::to_multiset_insert;

    if hs.len() > 0 {
        let d = hs.drop_last();
        let l = sorted_hosts(d);
        let x = hs.last();
        law_node_rows_are_ordered(d);
        lemma_insert_pos_spec(l, x);
        let p = insert_pos(l, x) as int;
        let m = l.insert(p, x);
        assert(m == sorted_hosts(hs));
        assert forall|i: int, j: int| 0 <= i < j < m.len() implies !host_lt(
            #[trigger] m[j],
            #[trigger] m[i],
        ) by {
            if j < p {
                assert(m[i] == l[i] && m[j] == l[j]);
            } else if j == p {
                assert(m[i] == l[i] && m[j] == x);
            } else if i > p {
                assert(m[i] == l[i - 1] && m[j] == l[j - 1]);
            } else if i == p {
                assert(m[i] == x && m[j] == l[j - 1]);
                lemma_host_lt_order(l[j - 1], x, l[p]);
                lemma_host_lt_order(x, l[p], x);
                if j - 1 > p {
                    assert(!host_lt(l[j - 1], l[p]));
                }
            } else {
                assert(m[i] == l[i] && m[j] == l[j - 1]);
            }
        }
        assert(hs == d.push(x));
        vstd::seq_lib::to_multiset_build(d, x);
        assert(m.to_multiset() == l.to_multiset().insert(x));
    } else {
        assert(hs == Seq::<HostSpec>::empty());
        assert(sorted_hosts(hs) == Seq::<HostSpec>::empty());
    }
}

fn host_less(a: &Host, b: &Host) -> (r: bool)
    ensures
        r == host_lt(a@, b@),
{
    if a.nproc != b.nproc {
        a.nproc < b.nproc
    } else {
        let an = to_chars(a.name.as_str());
        let bn = to_chars(b.name.as_str());
        crate::text::lex_less(&an, &bn)
    }
}

pub open spec fn pick(hs: Seq<HostSpec>, order: Seq<usize>) -> Seq<HostSpec> {
    order.map_values(|i: usize| hs[i as int])
}

/// The order (indices into `hosts`) in which the rows are drawn.
fn host_order(hosts: &Vec<Host>) -> (order: Vec<usize>)
    ensures
        forall|k: int| 0 <= k < order@.len() ==> #[trigger] order@[k] < hosts@.len(),
        pick(host_views(hosts@), order@) == sorted_hosts(host_views(hosts@)),
{
    let ghost hv = host_views(hosts@);
    let mut order: Vec<usize> = Vec::new();
    let mut i: usize = 0;
    while i < hosts.len()
        invariant
            i <= hosts@.len(),
            hv == host_views(hosts@),
            forall|k: int| 0 <= k < order@.len() ==> #[trigger] order@[k] < hosts@.len(),
            pick(hv, order@) == sorted_hosts(hv.take(i as int)),
        decreases hosts@.len() - i,
    {
        let ghost l = pick(hv, order@);
        let ghost x = hv[i as int];
        proof {
            assert(hv.take(i + 1).drop_last() == hv.take(i as int));
            assert(hv.take(i + 1).last() == x);
            assert(x == hosts@[i as int]@);
        }
        let mut p: usize = 0;
        while p < order.len() && !host_less(&hosts[i], &hosts[order[p]])
            invariant
                p <= order@.len(),
                i < hosts@.len(),
                hv == host_views(hosts@),
                x == hv[i as int],
                l == pick(hv, order@),
                forall|k: int| 0 <= k < order@.len() ==> #[trigger] order@[k] < hosts@.len(),
                forall|k: int| 0 <= k < p ==> !host_lt(x, #[trigger] l[k]),
            decreases order@.len() - p,
        {
            proof {
                assert(l[p as int] == hosts@[order@[p as int] as int]@);
            }
            p += 1;
        }
        proof {
            if p < order@.len() {
                assert(l[p as int] == hosts@[order@[p as int] as int]@);
            }
            lemma_insert_pos(l, x, p as int);
        }
        order.insert(p, i);
        proof {
            assert(pick(hv, order@) =~= l.insert(p as int, x));
        }
        i += 1;
    }
    proof {
        assert(hv.take(hosts@.len() as int) == hv);
    }
    order
}

/// The rows of the node graph, in order, and the palette after them.
pub open spec fn rows_text(
    hs: Seq<HostSpec>,
    jobs: Seq<JobSpec>,
    p: Seq<Seq<char>>,
    hl: Seq<char>,
) -> (Seq<char>, Seq<Seq<char>>)
    decreases hs.len(),
{
    if hs.len() == 0 {
        (seq![], p)
    } else {
        let (t, p1) = rows_text(hs.drop_last(), jobs, p, hl);
        let (ind, p2) = indicator(hs.last(), jobs, p1, hl);
        (t + pad_right(hs.last().name, 12) + seq![' '] + ind + seq!['\n'], p2)
    }
}

/// The bold header row of the node graph.
pub open spec fn graph_header() -> Seq<char> {
    "\x1b[1m"@ + pad_right("NODE"@, 12) + seq![' '] + pad_left("CPU"@, 8) + "  "@ + pad_left(
        "MEM"@,
        11,
    ) + "  "@ + pad_left("GPU"@, 5) + "  "@ + "GRAPH"@ + "\x1b[0m\n"@
}

/// The node graph (header, then one row per host in node order) and the
/// palette after it.
pub open spec fn node_graph(
    jobs: Seq<JobSpec>,
    hs: Seq<HostSpec>,
    hl: Seq<char>,
    p: Seq<Seq<char>>,
) -> (Seq<char>, Seq<Seq<char>>) {
    let (t, p2) = rows_text(sorted_hosts(hs), jobs, p, hl);
    (graph_header() + t, p2)
}

fn render_node_graph(jobs: &Vec<Job>, hosts: &Vec<Host>, highlight: &str, pal: &mut Palette) -> (r:
    String)
    ensures
        (r@, final(pal).view()) == node_graph(
            job_views(jobs@),
            host_views(hosts@),
            highlight@,
            old(pal).view(),
        ),
{
    let mut out: Vec<char> = Vec::new();
    // Bold, upper-case header aligned to the fixed columns (see node_indicator).
    crate::text::push_str(&mut out, "\x1b[1m");
    let node = to_chars("NODE");
    crate::text::push_pad_right(&mut out, &node, 12);
    out.push(' ');
    let cpu = to_chars("CPU");
    crate::text::push_pad_left(&mut out, &cpu, 8);
    crate::text::push_str(&mut out, "  ");
    let mem = to_chars("MEM");
    crate::text::push_pad_left(&mut out, &mem, 11);
    crate::text::push_str(&mut out, "  ");
    let gpu = to_chars("GPU");
    crate::text::push_pad_left(&mut out, &gpu, 5);
    crate::text::push_str(&mut out, "  ");
    crate::text::push_str(&mut out, "GRAPH");
    crate::text::push_str(&mut out, "\x1b[0m\n");
    proof {
        assert(out@ =~= graph_header());
    }
    let order = host_order(hosts);
    let ghost sorted = pick(host_views(hosts@), order@);
    let ghost p0 = pal.view();
    let ghost jv = job_views(jobs@);
    let mut k: usize = 0;
    while k < order.len()
        invariant
            k <= order@.len(),
            sorted == pick(host_views(hosts@), order@),
            forall|m: int| 0 <= m < order@.len() ==> #[trigger] order@[m] < hosts@.len(),
            jv == job_views(jobs@),
            out@ == graph_header() + rows_text(sorted.take(k as int), jv, p0, highlight@).0,
            pal.view() == rows_text(sorted.take(k as int), jv, p0, highlight@).1,
        decreases order@.len() - k,
    {
        let h = &hosts[order[k]];
        proof {
            assert(sorted.take(k + 1).drop_last() == sorted.take(k as int));
            assert(sorted.take(k + 1).last() == h@);
        }
        let nm = to_chars(h.name.as_str());
        crate::text::push_pad_right(&mut out, &nm, 12);
        out.push(' ');
        let ind = node_indicator(h, jobs, pal, highlight);
        crate::text::push_all(&mut out, &ind);
        out.push('\n');
        proof {
            let prev = rows_text(sorted.take(k as int), jv, p0, highlight@);
            assert(out@ =~= graph_header() + (prev.0 + pad_right(h@.name, 12) + seq![' '] + ind@
                + seq!['\n']));
        }
        k += 1;
    }
    proof {
        lemma_sorted_len(host_views(hosts@));
        assert(sorted.take(order@.len() as int) == sorted);
    }
    to_string(&out)
}

/// What one load-view render gives: the node graph, the cluster's users and
/// the load table.
pub open spec fn load_view(
    qstat_ft: Seq<char>,
    pbsnodes: Seq<char>,
    highlight: Seq<char>,
    graph: Seq<char>,
    users: Seq<Seq<char>>,
    rows: Seq<UserLoadSpec>,
) -> bool {
    let jobs = qstat_ft_jobs(qstat_ft);
    let hosts = merged(nodes_of(blocks(pbsnodes)));
    &&& is_load_table(rows, jobs, highlight, seq![])
    &&& crate::text::strictly_sorted(users)
    &&& forall|x: Seq<char>| users.contains(x) <==> users_in(jobs).contains(x)
    &&& graph == node_graph(jobs, hosts, highlight, pal_after_rows(seq![], load_names(rows))).0
}

/// Render the ANSI node graph and return the cluster user list and the
/// structured user load. The load table's colours seed the palette before the
/// node markers reuse it, so a user looks the same in both.
pub fn render_with_users(qstat_ft: &str, pbsnodes: &str, highlight: &str) -> (r: (
    String,
    Vec<String>,
    Vec<UserLoad>,
))
    ensures
        load_view(
            qstat_ft@,
            pbsnodes@,
            highlight@,
            r.0@,
            string_views(r.1@),
            load_views(r.2@),
        ),
{
    let jobs = parse_jobs(qstat_ft);
    let nodes = parse_nodes(pbsnodes);
    let hosts = merge_vnodes(nodes);
    let users = users_of(&jobs);
    let mut pal = Palette::new();
    let userload = compute_userload(&jobs, highlight, &mut pal);
    let graph = render_node_graph(&jobs, &hosts, highlight, &mut pal);
    (graph, users, userload)
}

/// The node-graph ANSI alone.
pub fn render(qstat_ft: &str, pbsnodes: &str, highlight: &str) -> (r: String)
    ensures
        exists|users: Seq<Seq<char>>, rows: Seq<UserLoadSpec>|
            load_view(qstat_ft@, pbsnodes@, highlight@, r@, users, rows),
{
    let (graph, users, rows) = render_with_users(qstat_ft, pbsnodes, highlight);
    graph
}


// ---------------------------------------------------------------------------
// The "User load" table
// ---------------------------------------------------------------------------

/// The CORES cell of a row.
pub open spec fn cores_cell(u: UserLoadSpec) -> Seq<char> {
    int_text(u.cores as int)
}

/// The QUEUED cell: the pending core count, blank when nothing is pending.
pub open spec fn queued_cell(u: UserLoadSpec) -> Seq<char> {
    if u.pending > 0 {
        int_text(u.pending as int)
    } else {
        seq![]
    }
}

/// `{:02}` of a non-negative number.
pub open spec fn two_digits(n: int) -> Seq<char> {
    if n < 10 {
        seq!['0'] + decimal(n as nat)
    } else {
        decimal(n as nat)
    }
}

/// The REMAINING cell: `--` without a running job, `?` when unknown, else
/// whole hours and zero-padded minutes.
pub open spec fn remaining_cell(u: UserLoadSpec) -> Seq<char> {
    match u.secs {
        None => "--"@,
        Some(s) => if s < 0 {
            "?"@
        } else {
            int_text(s / 3600) + "h "@ + two_digits((s % 3600) / 60) + "m"@
        },
    }
}

/// The widest of `cells`, and at least `w`.
pub open spec fn widest(cells: Seq<Seq<char>>, w: nat) -> nat
    decreases cells.len(),
{
    if cells.len() == 0 {
        w
    } else {
        let m = widest(cells.drop_last(), w);
        if cells.last().len() > m {
            cells.last().len()
        } else {
            m
        }
    }
}

/// The four column widths of the table: each fits its header and every cell.
pub open spec fn load_widths(rows: Seq<UserLoadSpec>) -> (nat, nat, nat, nat) {
    (
        widest(rows.map_values(|u: UserLoadSpec| u.name), 4),
        widest(rows.map_values(|u: UserLoadSpec| cores_cell(u)), 5),
        widest(rows.map_values(|u: UserLoadSpec| queued_cell(u)), 6),
        widest(rows.map_values(|u: UserLoadSpec| remaining_cell(u)), 9),
    )
}

/// One line of the table: the user left-aligned, the three numbers
/// right-aligned, two spaces between columns.
pub open spec fn load_line(
    name: Seq<char>,
    cores: Seq<char>,
    queued: Seq<char>,
    remaining: Seq<char>,
    w: (nat, nat, nat, nat),
) -> Seq<char> {
    pad_right(name, w.0) + "  "@ + pad_left(cores, w.1) + "  "@ + pad_left(queued, w.2) + "  "@
        + pad_left(remaining, w.3)
}

fn cores_text(u: &UserLoad) -> (r: Vec<char>)
    ensures
        r@ == cores_cell(u@),
{
    crate::text::int_chars(u.cores as i128)
}

fn queued_text(u: &UserLoad) -> (r: Vec<char>)
    ensures
        r@ == queued_cell(u@),
{
    if u.pending > 0 {
        crate::text::int_chars(u.pending as i128)
    } else {
        Vec::new()
    }
}

fn remaining_text(u: &UserLoad) -> (r: Vec<char>)
    ensures
        r@ == remaining_cell(u@),
{
    let mut r: Vec<char> = Vec::new();
    match u.secs {
        None => {
            crate::text::push_str(&mut r, "--");
        },
        Some(s) => {
            if s < 0 {
                crate::text::push_str(&mut r, "?");
            } else {
                let h: i64 = s / 3600;
                let m: i64 = (s % 3600) / 60;
                crate::text::push_int(&mut r, h as i128);
                crate::text::push_str(&mut r, "h ");
                if m < 10 {
                    r.push('0');
                }
                crate::text::push_decimal(&mut r, m as u128);
                crate::text::push_str(&mut r, "m");
                proof {
                    if m < 10 {
                        assert(r@ =~= int_text(s / 3600) + "h "@ + two_digits((s % 3600) / 60)
                            + "m"@);
                    } else {
                        assert(r@ =~= int_text(s / 3600) + "h "@ + two_digits((s % 3600) / 60)
                            + "m"@);
                    }
                }
            }
        },
    }
    proof {
        assert(r@ =~= remaining_cell(u@));
    }
    r
}

/// The widest of `cells`, and at least `w`.
fn widest_of(cells: &Vec<Vec<char>>, w: usize) -> (r: usize)
    ensures
        r == widest(views(cells@), w as nat),
{
    let mut r: usize = w;
    let mut i: usize = 0;
    while i < cells.len()
        invariant
            i <= cells.len(),
            r == widest(views(cells@).take(i as int), w as nat),
        decreases cells.len() - i,
    {
        proof {
            assert(views(cells@).take(i + 1).drop_last() == views(cells@).take(i as int));
        }
        if cells[i].len() > r {
            r = cells[i].len();
        }
        i += 1;
    }
    proof {
        assert(views(cells@).take(cells.len() as int) == views(cells@));
    }
    r
}

fn push_load_line(
    out: &mut Vec<char>,
    name: &Vec<char>,
    cores: &Vec<char>,
    queued: &Vec<char>,
    remaining: &Vec<char>,
    w: (usize, usize, usize, usize),
)
    ensures
        final(out)@ == old(out)@ + load_line(
            name@,
            cores@,
            queued@,
            remaining@,
            (w.0 as nat, w.1 as nat, w.2 as nat, w.3 as nat),
        ),
{
    crate::text::push_pad_right(out, name, w.0);
    crate::text::push_str(out, "  ");
    crate::text::push_pad_left(out, cores, w.1);
    crate::text::push_str(out, "  ");
    crate::text::push_pad_left(out, queued, w.2);
    crate::text::push_str(out, "  ");
    crate::text::push_pad_left(out, remaining, w.3);
    proof {
        assert(final(out)@ =~= old(out)@ + load_line(
            name@,
            cores@,
            queued@,
            remaining@,
            (w.0 as nat, w.1 as nat, w.2 as nat, w.3 as nat),
        ));
    }
}

/// The "User load" table cells with aligned USER / CORES / QUEUED / REMAINING
/// columns: the header cell, then one `(cell, colour index, highlighted)` per
/// user, in order.
pub fn userload_cells(userload: &[UserLoad]) -> (r: (String, Vec<(String, u8, bool)>))
    ensures
        r.0@ == load_line(
            "USER"@,
            "CORES"@,
            "QUEUED"@,
            "REMAINING"@,
            load_widths(load_views(userload@)),
        ),
        r.1.len() == userload.len(),
        forall|i: int|
            0 <= i < userload.len() ==> {
                let u = #[trigger] userload@[i]@;
                &&& r.1@[i].0@ == load_line(
                    u.name,
                    cores_cell(u),
                    queued_cell(u),
                    remaining_cell(u),
                    load_widths(load_views(userload@)),
                )
                &&& r.1@[i].1 == u.color
                &&& r.1@[i].2 == u.highlighted
            },
{
    let ghost rows = load_views(userload@);
    let mut names: Vec<Vec<char>> = Vec::new();
    let mut cs: Vec<Vec<char>> = Vec::new();
    let mut qs: Vec<Vec<char>> = Vec::new();
    let mut ts: Vec<Vec<char>> = Vec::new();
    let mut i: usize = 0;
    while i < userload.len()
        invariant
            i <= userload.len(),
            rows == load_views(userload@),
            names@.len() == i && cs@.len() == i && qs@.len() == i && ts@.len() == i,
            forall|j: int| 0 <= j < i ==> (#[trigger] names@[j])@ == rows[j].name,
            forall|j: int| 0 <= j < i ==> (#[trigger] cs@[j])@ == cores_cell(rows[j]),
            forall|j: int| 0 <= j < i ==> (#[trigger] qs@[j])@ == queued_cell(rows[j]),
            forall|j: int| 0 <= j < i ==> (#[trigger] ts@[j])@ == remaining_cell(rows[j]),
        decreases userload.len() - i,
    {
        let u = &userload[i];
        names.push(to_chars(u.name.as_str()));
        cs.push(cores_text(u));
        qs.push(queued_text(u));
        ts.push(remaining_text(u));
        i += 1;
    }
    proof {
        assert(views(names@) =~= rows.map_values(|u: UserLoadSpec| u.name));
        assert(views(cs@) =~= rows.map_values(|u: UserLoadSpec| cores_cell(u)));
        assert(views(qs@) =~= rows.map_values(|u: UserLoadSpec| queued_cell(u)));
        assert(views(ts@) =~= rows.map_values(|u: UserLoadSpec| remaining_cell(u)));
    }
    let w = (widest_of(&names, 4), widest_of(&cs, 5), widest_of(&qs, 6), widest_of(&ts, 9));
    let ghost wn = (w.0 as nat, w.1 as nat, w.2 as nat, w.3 as nat);
    assert(wn == load_widths(rows));
    let mut head: Vec<char> = Vec::new();
    push_load_line(
        &mut head,
        &to_chars("USER"),
        &to_chars("CORES"),
        &to_chars("QUEUED"),
        &to_chars("REMAINING"),
        w,
    );
    assert(head@ =~= load_line("USER"@, "CORES"@, "QUEUED"@, "REMAINING"@, wn));
    let mut out: Vec<(String, u8, bool)> = Vec::new();
    let mut k: usize = 0;
    while k < userload.len()
        invariant
            k <= userload.len(),
            rows == load_views(userload@),
            wn == load_widths(rows),
            wn == (w.0 as nat, w.1 as nat, w.2 as nat, w.3 as nat),
            names@.len() == userload.len() && cs@.len() == userload.len(),
            qs@.len() == userload.len() && ts@.len() == userload.len(),
            views(names@) == rows.map_values(|u: UserLoadSpec| u.name),
            views(cs@) == rows.map_values(|u: UserLoadSpec| cores_cell(u)),
            views(qs@) == rows.map_values(|u: UserLoadSpec| queued_cell(u)),
            views(ts@) == rows.map_values(|u: UserLoadSpec| remaining_cell(u)),
            out.len() == k,
            forall|j: int|
                0 <= j < k ==> {
                    let u = #[trigger] userload@[j]@;
                    &&& out@[j].0@ == load_line(
                        u.name,
                        cores_cell(u),
                        queued_cell(u),
                        remaining_cell(u),
                        wn,
                    )
                    &&& out@[j].1 == u.color
                    &&& out@[j].2 == u.highlighted
                },
        decreases userload.len() - k,
    {
        let mut line: Vec<char> = Vec::new();
        proof {
            assert(views(names@)[k as int] == names@[k as int]@);
            assert(views(cs@)[k as int] == cs@[k as int]@);
            assert(views(qs@)[k as int] == qs@[k as int]@);
            assert(views(ts@)[k as int] == ts@[k as int]@);
            assert(rows[k as int] == userload@[k as int]@);
        }
        push_load_line(&mut line, &names[k], &cs[k], &qs[k], &ts[k], w);
        assert(line@ =~= load_line(
            userload@[k as int]@.name,
            cores_cell(userload@[k as int]@),
            queued_cell(userload@[k as int]@),
            remaining_cell(userload@[k as int]@),
            wn,
        ));
        out.push((to_string(&line), userload[k].color, userload[k].highlighted));
        k += 1;
    }
    (to_string(&head), out)
}

/// One ANSI line of the standalone table: the row in its user's colour,
/// reverse video for the highlighted user.
pub open spec fn userload_line(row: Seq<char>, color: u8, highlighted: bool) -> Seq<char> {
    let c = user_color(color as int);
    if highlighted {
        c + "\x1b[7m"@ + row + "\x1b[0m\n"@
    } else {
        c + row + "\x1b[0m\n"@
    }
}

/// The lines after the header, in order.
pub open spec fn userload_body(cells: Seq<(Seq<char>, u8, bool)>) -> Seq<char>
    decreases cells.len(),
{
    if cells.len() == 0 {
        seq![]
    } else {
        userload_body(cells.drop_last()) + userload_line(
            cells.last().0,
            cells.last().1,
            cells.last().2,
        )
    }
}

/// The cells of `userload_cells`, by their views.
pub open spec fn cell_views(cells: Seq<(String, u8, bool)>) -> Seq<(Seq<char>, u8, bool)> {
    cells.map_values(|c: (String, u8, bool)| (c.0@, c.1, c.2))
}

/// The single-column ANSI "User load" table of the standalone command: empty
/// for no users, else the bold header line and one coloured line per user.
pub fn render_userload_ansi(userload: &[UserLoad]) -> (r: String)
    ensures
        userload.len() == 0 ==> r@.len() == 0,
        userload.len() > 0 ==> exists|header: String, cells: Seq<(String, u8, bool)>|
            {
                &&& header@ == load_line(
                    "USER"@,
                    "CORES"@,
                    "QUEUED"@,
                    "REMAINING"@,
                    load_widths(load_views(userload@)),
                )
                &&& cells.len() == userload.len()
                &&& forall|i: int|
                    0 <= i < userload.len() ==> {
                        let u = #[trigger] userload@[i]@;
                        &&& cells[i].0@ == load_line(
                            u.name,
                            cores_cell(u),
                            queued_cell(u),
                            remaining_cell(u),
                            load_widths(load_views(userload@)),
                        )
                        &&& cells[i].1 == u.color
                        &&& cells[i].2 == u.highlighted
                    }
                &&& r@ == "\x1b[1m"@ + header@ + "\x1b[0m\n"@ + userload_body(cell_views(cells))
            },
{
    if userload.len() == 0 {
        return String::new();
    }
    let (header, rows) = userload_cells(userload);
    let mut out: Vec<char> = Vec::new();
    crate::text::push_str(&mut out, "\x1b[1m");
    crate::text::push_str(&mut out, header.as_str());
    crate::text::push_str(&mut out, "\x1b[0m\n");
    let ghost start = out@;
    let mut k: usize = 0;
    while k < rows.len()
        invariant
            k <= rows.len(),
            out@ == start + userload_body(cell_views(rows@).take(k as int)),
        decreases rows.len() - k,
    {
        proof {
            assert(cell_views(rows@).take(k + 1).drop_last() == cell_views(rows@).take(k as int));
        }
        let c = ansi_for(rows[k].1 as usize);
        crate::text::push_str(&mut out, c);
        if rows[k].2 {
            crate::text::push_str(&mut out, "\x1b[7m");
        }
        crate::text::push_str(&mut out, rows[k].0.as_str());
        crate::text::push_str(&mut out, "\x1b[0m\n");
        k += 1;
        proof {
            let cv = cell_views(rows@).take(k as int);
            assert(cv.last() == (rows@[k - 1].0@, rows@[k - 1].1, rows@[k - 1].2));
            assert(out@ =~= start + userload_body(cell_views(rows@).take(k as int)));
        }
    }
    proof {
        assert(cell_views(rows@).take(rows.len() as int) == cell_views(rows@));
    }
    to_string(&out)
}

} // verus!
