//! Log text made safe for the terminal renderer, and the pure decisions of the
//! log watcher (what a file delta turns into).
use vstd::prelude::*;
use crate::app::Update;
use crate::pbs::{job_number_chars, job_number_of};
use crate::text::{
    ends_with_str, find_char_from, has_prefix, has_suffix, is_ctrl, is_ctrl_char, lines,
    pos_char, push_all, push_str, slice, spaces, split_lines, starts_with, views, string_views,
    to_chars, to_string,
};

verus! {

/// A CSI final byte: `0x40..=0x7e`.
pub open spec fn is_csi_final(c: char) -> bool {
    '\u{40}' <= c && c <= '\u{7e}'
}

/// Position of the first CSI final byte of `s`, or `s.len()`.
pub open spec fn pos_csi_final(s: Seq<char>) -> nat
    decreases s.len(),
{
    if s.len() == 0 {
        0
    } else if is_csi_final(s[0]) {
        0
    } else {
        1 + pos_csi_final(s.drop_first())
    }
}

/// How many characters after `ESC [` a CSI sequence spans: through its final
/// byte, or to the end of the line when it has none.
pub open spec fn csi_len(s: Seq<char>) -> nat {
    let p = pos_csi_final(s);
    if p < s.len() {
        p + 1
    } else {
        s.len()
    }
}

/// The sanitized rendering of `s` when the output column is `phase` modulo 8:
/// a tab becomes the spaces up to the next multiple of 8, `ESC [ ... final` and
/// a lone `ESC` are dropped, other control characters are dropped, and every
/// other character is kept and advances the column by one.
pub open spec fn sanitize_from(s: Seq<char>, phase: nat) -> Seq<char>
    decreases s.len(),
{
    if s.len() == 0 {
        seq![]
    } else if s[0] == '\t' {
        spaces((8 - phase % 8) as nat) + sanitize_from(s.drop_first(), 0)
    } else if s[0] == '\u{1b}' {
        if s.len() > 1 && s[1] == '[' {
            sanitize_from(s.skip((2 + csi_len(s.skip(2))) as int), phase)
        } else {
            sanitize_from(s.drop_first(), phase)
        }
    } else if is_ctrl(s[0]) {
        sanitize_from(s.drop_first(), phase)
    } else {
        seq![s[0]] + sanitize_from(s.drop_first(), (phase + 1) % 8)
    }
}

/// The sanitized rendering of a whole line (column 0 at its start).
pub open spec fn sanitized(s: Seq<char>) -> Seq<char> {
    sanitize_from(s, 0)
}

/// Nothing the sanitizer emits is a control character.
pub proof fn lemma_sanitize_no_controls(s: Seq<char>, phase: nat)
    ensures
        forall|i: int|
            0 <= i < sanitize_from(s, phase).len() ==> !is_ctrl(#[trigger] sanitize_from(s, phase)[i]),
    decreases s.len(),
{
    if s.len() == 0 {
    } else if s[0] == '\t' {
        lemma_sanitize_no_controls(s.drop_first(), 0);
        let a = spaces((8 - phase % 8) as nat);
        let b = sanitize_from(s.drop_first(), 0);
        assert(sanitize_from(s, phase) == a + b);
        assert forall|i: int| 0 <= i < (a + b).len() implies !is_ctrl(#[trigger] (a + b)[i]) by {
            if i >= a.len() {
                assert((a + b)[i] == b[i - a.len()]);
            } else {
                assert((a + b)[i] == a[i]);
                assert(a[i] == ' ');
            }
        }
    } else if s[0] == '\u{1b}' {
        if s.len() > 1 && s[1] == '[' {
            let t = s.skip((2 + csi_len(s.skip(2))) as int);
            lemma_sanitize_no_controls(t, phase);
            assert(sanitize_from(s, phase) == sanitize_from(t, phase));
        } else {
            lemma_sanitize_no_controls(s.drop_first(), phase);
            assert(sanitize_from(s, phase) == sanitize_from(s.drop_first(), phase));
        }
    } else if is_ctrl(s[0]) {
        lemma_sanitize_no_controls(s.drop_first(), phase);
        assert(sanitize_from(s, phase) == sanitize_from(s.drop_first(), phase));
    } else {
        lemma_sanitize_no_controls(s.drop_first(), (phase + 1) % 8);
        let b = sanitize_from(s.drop_first(), (phase + 1) % 8);
        assert(sanitize_from(s, phase) == seq![s[0]] + b);
        assert forall|i: int| 0 <= i < (seq![s[0]] + b).len() implies !is_ctrl(
            #[trigger] (seq![s[0]] + b)[i],
        ) by {
            if i >= 1 {
                assert((seq![s[0]] + b)[i] == b[i - 1]);
            }
        }
    }
}

/// Text without control characters passes through the sanitizer unchanged.
proof fn lemma_sanitize_clean(t: Seq<char>, phase: nat)
    requires
        forall|i: int| 0 <= i < t.len() ==> !is_ctrl(#[trigger] t[i]),
    ensures
        sanitize_from(t, phase) == t,
    decreases t.len(),
{
    if t.len() > 0 {
        let r = t.drop_first();
        assert(!is_ctrl(t[0]));
        assert forall|i: int| 0 <= i < r.len() implies !is_ctrl(#[trigger] r[i]) by {
            assert(r[i] == t[i + 1]);
        }
        lemma_sanitize_clean(r, (phase + 1) % 8);
        assert(seq![t[0]] + r == t);
    }
}

/// Text without control characters (no tab, no escape) is shown as it is.
pub proof fn law_plain_text_is_kept(t: Seq<char>)
    requires
        forall|i: int| 0 <= i < t.len() ==> !is_ctrl(#[trigger] t[i]),
    ensures
        sanitized(t) == t,
{
    lemma_sanitize_clean(t, 0);
}

/// Sanitizing is idempotent: a sanitized line passes through the sanitizer
/// unchanged.
pub proof fn law_sanitize_is_idempotent(s: Seq<char>)
    ensures
        sanitized(sanitized(s)) == sanitized(s),
{
    lemma_sanitize_no_controls(s, 0);
    lemma_sanitize_clean(sanitized(s), 0);
}

/// Sanitizing text free of escapes from column `phase` leaves the output
/// column at `phase` plus the characters emitted (modulo 8), and what follows
/// is sanitized from there.
proof fn lemma_sanitize_split(t: Seq<char>, r: Seq<char>, phase: nat)
    requires
        phase < 8,
        forall|i: int| 0 <= i < t.len() ==> #[trigger] t[i] != '\u{1b}',
    ensures
        sanitize_from(t + r, phase) == sanitize_from(t, phase) + sanitize_from(
            r,
            ((phase + sanitize_from(t, phase).len()) % 8) as nat,
        ),
    decreases t.len(),
{
    if t.len() == 0 {
        assert(t + r == r);
        assert(sanitize_from(t, phase) == Seq::<char>::empty());
    } else {
        let t1 = t.drop_first();
        assert((t + r).drop_first() == t1 + r);
        assert((t + r)[0] == t[0]);
        assert forall|i: int| 0 <= i < t1.len() implies #[trigger] t1[i] != '\u{1b}' by {
            assert(t1[i] == t[i + 1]);
        }
        assert(t[0] != '\u{1b}');
        if t[0] == '\t' {
            lemma_sanitize_split(t1, r, 0);
            let a = spaces((8 - phase % 8) as nat);
            let b = sanitize_from(t1, 0);
            assert(sanitize_from(t, phase) == a + b);
            assert(((phase + (a + b).len()) % 8) as nat == ((0 + b.len()) % 8) as nat) by (
            nonlinear_arith)
                requires
                    phase < 8,
                    a.len() == 8 - phase,
                    (a + b).len() == a.len() + b.len(),
            ;
            assert(sanitize_from(t + r, phase) == a + (b + sanitize_from(
                r,
                ((0 + b.len()) % 8) as nat,
            )));
            assert(a + (b + sanitize_from(r, ((0 + b.len()) % 8) as nat)) == (a + b)
                + sanitize_from(r, ((0 + b.len()) % 8) as nat));
        } else if is_ctrl(t[0]) {
            lemma_sanitize_split(t1, r, phase);
        } else {
            let q = ((phase + 1) % 8) as nat;
            lemma_sanitize_split(t1, r, q);
            let b = sanitize_from(t1, q);
            assert(sanitize_from(t, phase) == seq![t[0]] + b);
            assert(((q + b.len()) % 8) as nat == ((phase + (seq![t[0]] + b).len()) % 8) as nat)
                by (nonlinear_arith)
                requires
                    phase < 8,
                    q == (phase + 1) % 8,
                    (seq![t[0]] + b).len() == 1 + b.len(),
            ;
            assert(seq![t[0]] + (b + sanitize_from(r, ((q + b.len()) % 8) as nat)) == (seq![t[0]]
                + b) + sanitize_from(r, ((q + b.len()) % 8) as nat));
        }
    }
}

/// Tabs expand to 8-column stops: in a line whose text before a tab holds no
/// escape, the tab becomes the one to eight spaces that bring the output to a
/// multiple of 8 columns, counted over everything emitted before it (earlier
/// tab expansions included), and the text after it is laid out from that
/// stop as a line of its own would be.
pub proof fn law_tabs_reach_eight_column_stops(t: Seq<char>, r: Seq<char>)
    requires
        forall|i: int| 0 <= i < t.len() ==> #[trigger] t[i] != '\u{1b}',
    ensures
        ({
            let head = sanitized(t);
            let k = (8 - head.len() % 8) as nat;
            &&& 1 <= k <= 8
            &&& (head.len() + k) % 8 == 0
            &&& sanitized(t + seq!['\t'] + r) == head + spaces(k) + sanitized(r)
        }),
{
    let head = sanitized(t);
    lemma_sanitize_split(t, seq!['\t'] + r, 0);
    assert(t + seq!['\t'] + r == t + (seq!['\t'] + r));
    let q = ((0 + head.len()) % 8) as nat;
    let tr = seq!['\t'] + r;
    assert(tr[0] == '\t');
    assert(tr.drop_first() == r);
    assert(sanitize_from(tr, q) == spaces((8 - q % 8) as nat) + sanitized(r));
    assert(q % 8 == head.len() % 8);
    assert((head.len() + (8 - head.len() % 8)) % 8 == 0) by (nonlinear_arith);
}

proof fn lemma_pos_csi_final(s: Seq<char>, j: int)
    requires
        0 <= j <= s.len(),
        forall|k: int| 0 <= k < j ==> !is_csi_final(s[k]),
        j < s.len() ==> is_csi_final(s[j]),
    ensures
        pos_csi_final(s) == j,
    decreases s.len(),
{
    if s.len() > 0 && !is_csi_final(s[0]) {
        lemma_pos_csi_final(s.drop_first(), j - 1);
    }
}

fn push_spaces_vec(out: &mut Vec<char>, n: usize)
    ensures
        final(out)@ == old(out)@ + spaces(n as nat),
{
    crate::text::push_spaces(out, n);
}

fn sanitize_chars(v: &Vec<char>) -> (out: Vec<char>)
    ensures
        out@ == sanitized(v@),
{
    let mut out: Vec<char> = Vec::new();
    let mut phase: usize = 0;
    let mut i: usize = 0;
    proof {
        assert(v@.skip(0) == v@);
    }
    while i < v.len()
        invariant
            i <= v.len(),
            phase < 8,
            sanitized(v@) == out@ + sanitize_from(v@.skip(i as int), phase as nat),
        decreases v.len() - i,
    {
        let ghost t = v@.skip(i as int);
        let c = v[i];
        proof {
            assert(t[0] == c);
            assert(t.drop_first() == v@.skip(i + 1));
        }
        if c == '\t' {
            let n = 8 - phase;
            push_spaces_vec(&mut out, n);
            phase = 0;
            i += 1;
        } else if c == '\u{1b}' {
            if i + 1 < v.len() && v[i + 1] == '[' {
                let mut j = i + 2;
                while j < v.len() && !('\u{40}' <= v[j] && v[j] <= '\u{7e}')
                    invariant
                        i + 2 <= j <= v.len(),
                        forall|k: int| i + 2 <= k < j ==> !is_csi_final(v@[k]),
                    decreases v.len() - j,
                {
                    j += 1;
                }
                proof {
                    let u = v@.skip(i + 2);
                    assert(t.skip(2) == u);
                    lemma_pos_csi_final(u, j - (i + 2));
                    assert(t[1] == '[');
                }
                if j < v.len() {
                    j += 1;
                }
                proof {
                    assert(t.skip((2 + csi_len(t.skip(2))) as int) == v@.skip(j as int));
                }
                i = j;
            } else {
                proof {
                    if i + 1 < v.len() {
                        assert(t[1] == v@[i + 1]);
                    }
                }
                i += 1;
            }
        } else if is_ctrl_char(c) {
            i += 1;
        } else {
            out.push(c);
            phase = (phase + 1) % 8;
            i += 1;
        }
    }
    proof {
        assert(v@.skip(i as int) == Seq::<char>::empty());
    }
    out
}

/// Make a raw log line safe to render in a ratatui `Paragraph`: tabs are
/// expanded to 8-column stops and every other control character (whole ANSI
/// `ESC [` sequences included) is dropped, so what reaches the renderer
/// advances the cursor exactly as the renderer expects.
pub fn sanitize_log_line(s: &str) -> (r: String)
    ensures
        r@ == sanitized(s@),
        forall|i: int| 0 <= i < r@.len() ==> !is_ctrl(#[trigger] r@[i]),
{
    let v = to_chars(s);
    let out = sanitize_chars(&v);
    proof {
        lemma_sanitize_no_controls(s@, 0);
    }
    to_string(&out)
}

/// The sanitized lines of a text.
pub open spec fn sanitized_lines(ls: Seq<Seq<char>>) -> Seq<Seq<char>> {
    ls.map_values(|l: Seq<char>| sanitized(l))
}

/// Every line of `text` (`str::lines`), sanitized.
pub fn sanitize_lines(text: &str) -> (r: Vec<String>)
    ensures
        string_views(r@) == sanitized_lines(lines(text@)),
{
    let v = to_chars(text);
    let ls = split_lines(&v);
    let ghost lv = views(ls@);
    let mut r: Vec<String> = Vec::new();
    let mut i: usize = 0;
    while i < ls.len()
        invariant
            i <= ls.len(),
            lv == views(ls@),
            r@.len() == i,
            string_views(r@) == sanitized_lines(lv.take(i as int)),
        decreases ls.len() - i,
    {
        let out = sanitize_chars(&ls[i]);
        let s = to_string(&out);
        proof {
            assert(lv[i as int] == ls@[i as int]@);
            let a = string_views(r@.push(s));
            let b = sanitized_lines(lv.take(i + 1));
            assert(a.len() == b.len());
            assert forall|k: int| 0 <= k < a.len() implies a[k] == b[k] by {
                if k < i {
                    assert(a[k] == string_views(r@)[k]);
                    assert(b[k] == sanitized_lines(lv.take(i as int))[k]);
                } else {
                    assert(a[k] == s@);
                    assert(b[k] == sanitized(lv[i as int]));
                }
            }
            assert(a =~= b);
        }
        r.push(s);
        i += 1;
    }
    proof {
        assert(lv.take(ls.len() as int) == lv);
    }
    r
}

/// The lines shown in the log preview when no log file can be found for a job.
pub open spec fn no_log_text() -> Seq<Seq<char>> {
    seq![
        "No log file found for this job."@,
        Seq::<char>::empty(),
        "To see live output, tee it to ~/.jobs/$PBS_JOBID.log in your"@,
        "job script, or submit with '#PBS -k oed' (writes -o live)."@,
    ]
}

/// Shown in the log preview when no log file can be found for a job.
pub fn no_log_message() -> (r: Vec<String>)
    ensures
        string_views(r@) == no_log_text(),
{
    let mut r: Vec<String> = Vec::new();
    r.push(String::from_str("No log file found for this job."));
    r.push(String::new());
    r.push(String::from_str("To see live output, tee it to ~/.jobs/$PBS_JOBID.log in your"));
    r.push(String::from_str("job script, or submit with '#PBS -k oed' (writes -o live)."));
    proof {
        assert(string_views(r@) =~= no_log_text());
    }
    r
}

/// The text of a tail read that started `start` bytes into the file: when the
/// read did not start at the beginning, the first (partial) line is dropped so
/// the text starts on a line boundary.
pub open spec fn tail_text(buf: Seq<char>, start: u64) -> Seq<char> {
    let nl = pos_char(buf, '\n');
    if start > 0 && nl < buf.len() {
        buf.skip(nl as int + 1)
    } else {
        buf
    }
}

/// Drops the partial first line of a tail read (see [`tail_text`]).
pub fn trim_partial_first_line(buf: &str, start: u64) -> (r: String)
    ensures
        r@ == tail_text(buf@, start),
{
    let v = to_chars(buf);
    if start > 0 {
        let nl = find_char_from(&v, 0, '\n');
        proof {
            assert(v@.skip(0) == v@);
        }
        if nl < v.len() {
            let rest = slice(&v, nl + 1, v.len());
            proof {
                assert(v@.subrange(nl + 1, v.len() as int) == v@.skip(nl + 1));
            }
            return to_string(&rest);
        }
    }
    to_string(&v)
}


// ---------------------------------------------------------------------------
// Finding a job's log file
// ---------------------------------------------------------------------------

/// Where an array task's log lives, for an id like "1234[5].host": in a
/// directory whose name starts with "1234[]", under the file name "5.log".
/// `None` when the id names no task (no '[', no ']' after it, or nothing
/// between them).
pub open spec fn array_task_log_spec(id: Seq<char>) -> Option<(Seq<char>, Seq<char>)> {
    let lb = pos_char(id, '[');
    let rb = pos_char(id, ']');
    if lb < id.len() && rb < id.len() && rb > lb + 1 {
        Some((job_number_of(id) + "[]"@, id.subrange(lb as int + 1, rb as int) + ".log"@))
    } else {
        None
    }
}

/// The directory prefix and file name of an array task's log (see
/// [`array_task_log_spec`]).
pub fn array_task_log(job_id: &str) -> (r: Option<(String, String)>)
    ensures
        match r {
            Some(p) => array_task_log_spec(job_id@) == Some((p.0@, p.1@)),
            None => array_task_log_spec(job_id@) is None,
        },
{
    let v = to_chars(job_id);
    let lb = find_char_from(&v, 0, '[');
    let rb = find_char_from(&v, 0, ']');
    proof {
        assert(v@.skip(0) == v@);
    }
    if lb < v.len() && rb < v.len() && rb > lb + 1 {
        let mut dir = job_number_chars(&v);
        push_str(&mut dir, "[]");
        let mut file = slice(&v, lb + 1, rb);
        push_str(&mut file, ".log");
        Some((to_string(&dir), to_string(&file)))
    } else {
        None
    }
}

/// Whether a file name is a log of the job: it starts with the job number
/// and ends in ".log".
pub fn is_job_log(name: &str, job_id: &str) -> (b: bool)
    ensures
        b == (has_prefix(name@, job_number_of(job_id@)) && has_suffix(name@, ".log"@)),
{
    let n = to_chars(name);
    let num = job_number_chars(&to_chars(job_id));
    starts_with(&n, &num) && ends_with_str(&n, ".log")
}

/// The last resort: "<full job id>.log".
pub fn fallback_log_name(job_id: &str) -> (r: String)
    ensures
        r@ == job_id@ + ".log"@,
{
    let mut v = to_chars(job_id);
    push_str(&mut v, ".log");
    to_string(&v)
}

/// One entry of the jobs directory, as far as the log search looks at it:
/// its name, whether it is a directory or a file, and, for a directory,
/// whether it holds the task log file of the job searched for.
pub struct LogEntry {
    pub name: String,
    pub is_dir: bool,
    pub is_file: bool,
    pub has_task_log: bool,
}

/// Where the log was found.
#[derive(Debug, Clone, Copy, PartialEq, Eq, Structural)]
pub enum LogChoice {
    /// The task log inside the directory entry at this index.
    TaskLog(usize),
    /// The file entry at this index.
    File(usize),
    /// The "<id>.log" file.
    Fallback,
    NotFound,
}

/// A directory entry that holds an array task's log: a directory whose name
/// starts with the task directory prefix and that holds the task's file.
pub open spec fn task_ok(e: LogEntry, id: Seq<char>) -> bool {
    array_task_log_spec(id) matches Some((prefix, _)) && e.is_dir && has_prefix(e.name@, prefix)
        && e.has_task_log
}

/// A file entry that is a log of the job.
pub open spec fn file_ok(e: LogEntry, id: Seq<char>) -> bool {
    e.is_file && has_prefix(e.name@, job_number_of(id)) && has_suffix(e.name@, ".log"@)
}

/// Where the log of `job_id` is, given the jobs directory's entries in the
/// order they are listed and whether "<id>.log" is a file: an array task's
/// log in the first matching directory, else the first log file named by
/// the job number, else "<id>.log" when that is a file, else none.
pub fn pick_log(entries: &Vec<LogEntry>, job_id: &str, fallback_is_file: bool) -> (r: LogChoice)
    ensures
        match r {
            LogChoice::TaskLog(i) => {
                &&& i < entries@.len()
                &&& task_ok(entries@[i as int], job_id@)
                &&& forall|j: int| 0 <= j < i ==> !task_ok(#[trigger] entries@[j], job_id@)
            },
            LogChoice::File(i) => {
                &&& forall|j: int|
                    0 <= j < entries@.len() ==> !task_ok(#[trigger] entries@[j], job_id@)
                &&& i < entries@.len()
                &&& file_ok(entries@[i as int], job_id@)
                &&& forall|j: int| 0 <= j < i ==> !file_ok(#[trigger] entries@[j], job_id@)
            },
            LogChoice::Fallback => {
                &&& forall|j: int|
                    0 <= j < entries@.len() ==> !task_ok(#[trigger] entries@[j], job_id@)
                &&& forall|j: int|
                    0 <= j < entries@.len() ==> !file_ok(#[trigger] entries@[j], job_id@)
                &&& fallback_is_file
            },
            LogChoice::NotFound => {
                &&& forall|j: int|
                    0 <= j < entries@.len() ==> !task_ok(#[trigger] entries@[j], job_id@)
                &&& forall|j: int|
                    0 <= j < entries@.len() ==> !file_ok(#[trigger] entries@[j], job_id@)
                &&& !fallback_is_file
            },
        },
{
    let task = array_task_log(job_id);
    match &task {
        Some((prefix, file)) => {
            let pv = to_chars(prefix.as_str());
            let mut i: usize = 0;
            while i < entries.len()
                invariant
                    i <= entries@.len(),
                    array_task_log_spec(job_id@) == Some((pv@, file@)),
                    forall|j: int| 0 <= j < i ==> !task_ok(#[trigger] entries@[j], job_id@),
                decreases entries.len() - i,
            {
                let e = &entries[i];
                if e.is_dir && e.has_task_log && starts_with(&to_chars(e.name.as_str()), &pv) {
                    return LogChoice::TaskLog(i);
                }
                i += 1;
            }
        },
        None => {},
    }
    let mut k: usize = 0;
    while k < entries.len()
        invariant
            k <= entries@.len(),
            forall|j: int| 0 <= j < entries@.len() ==> !task_ok(#[trigger] entries@[j], job_id@),
            forall|j: int| 0 <= j < k ==> !file_ok(#[trigger] entries@[j], job_id@),
        decreases entries.len() - k,
    {
        let e = &entries[k];
        if e.is_file && is_job_log(e.name.as_str(), job_id) {
            return LogChoice::File(k);
        }
        k += 1;
    }
    if fallback_is_file {
        LogChoice::Fallback
    } else {
        LogChoice::NotFound
    }
}

// ---------------------------------------------------------------------------
// What the watcher sends
// ---------------------------------------------------------------------------

/// A `Log` update whose lines are `lines` (by view) and whose replace flag
/// is `replace`.
pub open spec fn is_log(u: Update, ls: Seq<Seq<char>>, replace: bool) -> bool {
    u matches Update::Log { lines: l, replace: r } && string_views(l@) == ls && r == replace
}

/// What switching the preview to a job sends: the sanitized lines of its
/// log's tail when the log could be read, else the no-log message; either
/// way replacing what was shown.
pub fn log_switch_update(read: Option<String>) -> (u: Update)
    ensures
        match read {
            Some(text) => is_log(u, sanitized_lines(lines(text@)), true),
            None => is_log(u, no_log_text(), true),
        },
{
    match read {
        Some(text) => Update::Log { lines: sanitize_lines(text.as_str()), replace: true },
        None => Update::Log { lines: no_log_message(), replace: true },
    }
}

/// What a grown or truncated log sends: its new text's sanitized lines,
/// replacing the preview when the file was truncated; nothing when no text
/// arrived and nothing was truncated.
pub fn log_delta_update(text: &str, truncated: bool) -> (r: Option<Update>)
    ensures
        match r {
            Some(u) => (text@.len() > 0 || truncated) && is_log(
                u,
                sanitized_lines(lines(text@)),
                truncated,
            ),
            None => text@.len() == 0 && !truncated,
        },
{
    let n = to_chars(text).len();
    if n > 0 || truncated {
        Some(Update::Log { lines: sanitize_lines(text), replace: truncated })
    } else {
        None
    }
}

/// Whether a log whose watched length was `offset` needs reading now that
/// it is `len` long: any change of length, growth or truncation.
pub fn log_changed(offset: u64, len: u64) -> (b: bool)
    ensures
        b == (len != offset),
{
    len != offset
}

/// The log watcher's state: whether a path is followed, and how far into
/// its file the preview has read.
#[derive(Debug, Clone, Copy, PartialEq, Eq, Structural)]
pub struct LogWatch {
    pub following: bool,
    pub offset: u64,
}

/// What happens to the log watcher.
pub enum WatchEvent {
    /// The preview switched to a path (`path`) or to none. `read` is the
    /// tail read of the path when it could be read: its text and the file's
    /// length.
    Switched { path: bool, read: Option<(String, u64)> },
    /// The followed file was seen `len` long. `read` is what was read after
    /// the offset when it was read: its text and the file's length then.
    Observed { len: u64, read: Option<(String, u64)> },
}

/// The watcher's next state and the `Log` update it sends (its lines and
/// replace flag), if any. A switch always replaces the preview: with the
/// sanitized tail when the path could be read (the offset moves to the
/// file's length), else with the no-log message (offset 0). A seen length
/// that differs from the offset of a followed file, once read, moves the
/// offset to the length read and sends the new text's sanitized lines,
/// replacing the preview when the file shrank; nothing is sent when no text
/// arrived and nothing shrank. Anything else changes nothing.
pub open spec fn watch_next(s: LogWatch, e: WatchEvent) -> (LogWatch, Option<(Seq<Seq<char>>, bool)>) {
    match e {
        WatchEvent::Switched { path, read } => match read {
            Some((t, len)) => if path {
                (LogWatch { following: true, offset: len }, Some((sanitized_lines(lines(t@)), true)))
            } else {
                (LogWatch { following: false, offset: 0 }, Some((no_log_text(), true)))
            },
            None => (LogWatch { following: path, offset: 0 }, Some((no_log_text(), true))),
        },
        WatchEvent::Observed { len, read } => if !s.following || len == s.offset {
            (s, None)
        } else {
            match read {
                None => (s, None),
                Some((t, new_off)) => {
                    let shrank = len < s.offset;
                    (
                        LogWatch { offset: new_off, ..s },
                        if t@.len() > 0 || shrank {
                            Some((sanitized_lines(lines(t@)), shrank))
                        } else {
                            None
                        },
                    )
                },
            }
        },
    }
}

impl LogWatch {
    pub fn new() -> (w: LogWatch)
        ensures
            w == (LogWatch { following: false, offset: 0 }),
    {
        LogWatch { following: false, offset: 0 }
    }

    /// Whether a followed file seen `len` long must be read.
    pub fn wants_read(&self, len: u64) -> (b: bool)
        ensures
            b == (self.following && len != self.offset),
    {
        self.following && log_changed(self.offset, len)
    }

    /// One event: the new state and the update to send (see [`watch_next`]).
    pub fn step(&mut self, e: WatchEvent) -> (r: Option<Update>)
        ensures
            *final(self) == watch_next(*old(self), e).0,
            match watch_next(*old(self), e).1 {
                Some((ls, rep)) => r matches Some(u) && is_log(u, ls, rep),
                None => r is None,
            },
    {
        match e {
            WatchEvent::Switched { path, read } => {
                match read {
                    Some((t, len)) => {
                        if path {
                            self.following = true;
                            self.offset = len;
                            Some(log_switch_update(Some(t)))
                        } else {
                            self.following = false;
                            self.offset = 0;
                            Some(log_switch_update(None))
                        }
                    },
                    None => {
                        self.following = path;
                        self.offset = 0;
                        Some(log_switch_update(None))
                    },
                }
            },
            WatchEvent::Observed { len, read } => {
                if !self.following || !log_changed(self.offset, len) {
                    return None;
                }
                match read {
                    None => None,
                    Some((t, new_off)) => {
                        let shrank = len < self.offset;
                        self.offset = new_off;
                        log_delta_update(t.as_str(), shrank)
                    },
                }
            },
        }
    }
}

/// Switching to a readable log shows its sanitized text in place of what was
/// shown; text appended to it afterwards arrives as its sanitized lines,
/// added after them.
pub proof fn law_switch_then_append(s: LogWatch, t: String, len: u64, a: String, len2: u64)
    requires
        len < len2,
        a@.len() > 0,
    ensures
        ({
            let (s1, u1) = watch_next(s, WatchEvent::Switched { path: true, read: Some((t, len)) });
            let (s2, u2) = watch_next(s1, WatchEvent::Observed { len: len2, read: Some((a, len2)) });
            &&& u1 == Some((sanitized_lines(lines(t@)), true))
            &&& u2 == Some((sanitized_lines(lines(a@)), false))
            &&& s2 == (LogWatch { following: true, offset: len2 })
        }),
{
}

/// Switching to no path shows the no-log message, and nothing is sent
/// afterwards until the next switch.
pub proof fn law_switch_to_none_goes_quiet(s: LogWatch, len: u64, read: Option<(String, u64)>)
    ensures
        ({
            let (s1, u1) = watch_next(s, WatchEvent::Switched { path: false, read: None });
            &&& u1 == Some((no_log_text(), true))
            &&& watch_next(s1, WatchEvent::Observed { len, read }).1 is None
        }),
{
}

// ---------------------------------------------------------------------------
// Following the selected job
// ---------------------------------------------------------------------------

/// Which job's log the preview follows, and whether its file was found.
pub struct LogTarget {
    pub current: Option<String>,
    pub resolved: bool,
}

/// What to do for the selected job on one tick of the main loop.
#[derive(Debug, Clone, Copy, PartialEq, Eq, Structural)]
pub enum LogStep {
    /// The selection changed: resolve the new job's log, point the watcher at
    /// it and fetch its details.
    Switch,
    /// The selected job's log was not found yet: try again.
    Retry,
    /// Nothing to do.
    Idle,
}

impl LogTarget {
    pub fn new() -> (t: LogTarget)
        ensures
            t.current is None,
            !t.resolved,
    {
        LogTarget { current: None, resolved: false }
    }

    /// The step for this tick given the selected job id; a switch makes it
    /// the followed job.
    pub fn step(&mut self, selected: &Option<String>) -> (s: LogStep)
        ensures
            opt_ids(old(self).current) != opt_ids(*selected) ==> s == LogStep::Switch
                && opt_ids(final(self).current) == opt_ids(*selected) && final(self).resolved
                == old(self).resolved,
            opt_ids(old(self).current) == opt_ids(*selected) ==> *final(self) == *old(self) && s
                == if !old(self).resolved && selected.is_some() {
                LogStep::Retry
            } else {
                LogStep::Idle
            },
    {
        let same = match (&self.current, selected) {
            (Some(a), Some(b)) => crate::text::chars_eq(&to_chars(a.as_str()), &to_chars(b.as_str())),
            (None, None) => true,
            _ => false,
        };
        if !same {
            self.current = match selected {
                Some(b) => Some(b.clone()),
                None => None,
            };
            LogStep::Switch
        } else if !self.resolved && selected.is_some() {
            LogStep::Retry
        } else {
            LogStep::Idle
        }
    }

    /// Records what a switch found: the target is settled when its log was
    /// found or no job is selected.
    pub fn switched(&mut self, found: bool)
        ensures
            *final(self) == (LogTarget {
                resolved: found || old(self).current is None,
                ..*old(self)
            }),
    {
        self.resolved = found || self.current.is_none();
    }

    /// Records what a retry found.
    pub fn retried(&mut self, found: bool)
        ensures
            *final(self) == (LogTarget { resolved: old(self).resolved || found, ..*old(self) }),
    {
        if found {
            self.resolved = true;
        }
    }
}

/// The view of an optional job id.
pub open spec fn opt_ids(o: Option<String>) -> Option<Seq<char>> {
    crate::pbs::opt_view(o)
}

/// Whether the `Output_Path` fallback may stand in for a missing log: only
/// once the details shown are those of the job being followed.
pub fn may_use_output_path(details_job: &Option<String>, id: &str) -> (b: bool)
    ensures
        b == (opt_ids(*details_job) == Some(id@)),
{
    match details_job {
        Some(d) => crate::text::chars_eq(&to_chars(d.as_str()), &to_chars(id)),
        None => false,
    }
}

} // verus!
