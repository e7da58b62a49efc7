//! Array-job progress: the array masters of a `qstat -w` listing, the subjob
//! tally of `qstat -t <base>`, and the one-line progress report per array job
//! (an eighth-block bar, done/active percentages and an ETA from the mean
//! walltime of completed subjobs).
use vstd::prelude::*;
use crate::arith::{clamp64, sadd, smul};
use crate::pbs::{job_number_chars, job_number_of};
use crate::text::{
    all_digits, eq_str, find_char_from, has_infix, has_prefix, int_text, is_digit, is_digit_char,
    lines, pad_left, pad_right, parse_i64, parse_i64_chars, pos_char, push_all, push_int,
    push_pad_left, push_pad_right, push_str, sort_unique, split_char, split_lines, split_on,
    split_words, starts_with, strictly_sorted, string_views, to_chars, to_string, trim,
    trim_chars, views, words,
};

verus! {

/// `id` holds a numeric array index, e.g. `19630[7].headnode` (but not the bare
/// master `19630[].headnode`): a non-empty run of digits between the first '['
/// and the first ']'.
pub open spec fn has_array_index(id: Seq<char>) -> bool {
    let lb = pos_char(id, '[');
    let rb = pos_char(id, ']');
    &&& lb < id.len()
    &&& rb < id.len()
    &&& rb > lb + 1
    &&& all_digits(id.subrange(lb as int + 1, rb as int))
}

fn has_array_index_chars(id: &Vec<char>) -> (b: bool)
    ensures
        b == has_array_index(id@),
{
    let lb = find_char_from(id, 0, '[');
    let rb = find_char_from(id, 0, ']');
    proof {
        assert(id@.skip(0) == id@);
    }
    if lb >= id.len() || rb >= id.len() || rb <= lb + 1 {
        return false;
    }
    let mut k = lb + 1;
    while k < rb
        invariant
            lb + 1 <= k <= rb < id.len(),
            lb == pos_char(id@, '['),
            rb == pos_char(id@, ']'),
            forall|m: int| lb + 1 <= m < k ==> is_digit(#[trigger] id@[m]),
        decreases rb - k,
    {
        if !is_digit_char(id[k]) {
            proof {
                assert(id@.subrange(lb as int + 1, rb as int)[k - lb - 1] == id@[k as int]);
                assert(!is_digit(id@.subrange(lb as int + 1, rb as int)[k - lb - 1]));
            }
            return false;
        }
        k += 1;
    }
    proof {
        assert forall|i: int| 0 <= i < id@.subrange(lb as int + 1, rb as int).len() implies is_digit(
            #[trigger] id@.subrange(lb as int + 1, rb as int)[i],
        ) by {
            assert(id@.subrange(lb as int + 1, rb as int)[i] == id@[lb + 1 + i]);
        }
    }
    true
}

/// An array master id: it starts with a digit and holds "[]".
pub open spec fn is_array_base(id: Seq<char>) -> bool {
    id.len() > 0 && is_digit(id[0]) && has_infix(id, "[]"@)
}

/// The first field of each line that is an array master id, in order.
pub open spec fn base_candidates(ls: Seq<Seq<char>>) -> Seq<Seq<char>>
    decreases ls.len(),
{
    if ls.len() == 0 {
        seq![]
    } else {
        let w = words(ls.last());
        let rest = base_candidates(ls.drop_last());
        if w.len() > 0 && is_array_base(w[0]) {
            rest.push(w[0])
        } else {
            rest
        }
    }
}

/// Array-master job ids (`<seq>[].server`) from `qstat -w [-u <user>]` output:
/// the first field of every line that starts with a digit and holds "[]",
/// sorted, without repeats.
pub fn array_bases(qstat_w: &str) -> (r: Vec<String>)
    ensures
        strictly_sorted(string_views(r@)),
        forall|x: Seq<char>|
            string_views(r@).contains(x) <==> base_candidates(lines(qstat_w@)).contains(x),
{
    let v = to_chars(qstat_w);
    let ls = split_lines(&v);
    let ghost lv = views(ls@);
    let mut cands: Vec<Vec<char>> = Vec::new();
    let mut i: usize = 0;
    let brackets = to_chars("[]");
    while i < ls.len()
        invariant
            i <= ls.len(),
            lv == views(ls@),
            brackets@ == "[]"@,
            views(cands@) == base_candidates(lv.take(i as int)),
        decreases ls.len() - i,
    {
        proof {
            assert(lv.take(i + 1).drop_last() == lv.take(i as int));
            assert(lv.take(i + 1).last() == ls@[i as int]@);
        }
        let w = split_words(&ls[i]);
        if w.len() > 0 && w[0].len() > 0 && is_digit_char(w[0][0]) && crate::text::contains_seq(
            &w[0],
            &brackets,
        ) {
            let first = w[0].clone();
            proof {
                assert(views(w@)[0] == w@[0]@);
                assert(views(cands@.push(first)) =~= views(cands@).push(first@));
            }
            cands.push(first);
        } else {
            proof {
                if w.len() > 0 {
                    assert(views(w@)[0] == w@[0]@);
                }
            }
        }
        i += 1;
    }
    proof {
        assert(lv.take(ls.len() as int) == lv);
    }
    let sorted = sort_unique(cands);
    let mut r: Vec<String> = Vec::new();
    let mut k: usize = 0;
    while k < sorted.len()
        invariant
            k <= sorted.len(),
            r@.len() == k,
            views(sorted@).len() == sorted@.len(),
            string_views(r@) == views(sorted@).take(k as int),
        decreases sorted.len() - k,
    {
        let s = to_string(&sorted[k]);
        proof {
            let a = string_views(r@.push(s));
            let b = views(sorted@).take(k + 1);
            assert(a.len() == b.len());
            assert forall|m: int| 0 <= m < a.len() implies a[m] == b[m] by {
                if m < k {
                    assert(a[m] == string_views(r@)[m]);
                    assert(b[m] == views(sorted@).take(k as int)[m]);
                } else {
                    assert(a[m] == s@);
                    assert(b[m] == sorted@[k as int]@);
                }
            }
            assert(a =~= b);
        }
        r.push(s);
        k += 1;
    }
    proof {
        assert(views(sorted@).take(sorted.len() as int) == views(sorted@));
    }
    r
}

/// "HH:MM:SS" to seconds: exactly three ':'-separated parts, each an integer
/// after trimming; `None` for "0", "" or anything else.
pub open spec fn hms_seconds(s: Seq<char>) -> Option<i64> {
    let p = split_char(s, ':');
    if p.len() != 3 {
        None
    } else {
        match (parse_i64(trim(p[0])), parse_i64(trim(p[1])), parse_i64(trim(p[2]))) {
            (Some(h), Some(m), Some(x)) => Some(
                clamp64(clamp64(clamp64(h * 3600) + clamp64(m * 60)) + x) as i64,
            ),
            _ => None,
        }
    }
}

fn parse_hms(s: &Vec<char>) -> (r: Option<i64>)
    ensures
        r == hms_seconds(s@),
{
    let p = split_on(s, ':');
    let ghost pv = views(p@);
    if p.len() != 3 {
        return None;
    }
    proof {
        assert(pv[0] == p@[0]@);
        assert(pv[1] == p@[1]@);
        assert(pv[2] == p@[2]@);
    }
    let a = trim_chars(&p[0]);
    let b = trim_chars(&p[1]);
    let c = trim_chars(&p[2]);
    match (parse_i64_chars(&a), parse_i64_chars(&b), parse_i64_chars(&c)) {
        (Some(h), Some(m), Some(x)) => Some(sadd(sadd(smul(h, 3600), smul(m, 60)), x)),
        _ => None,
    }
}

/// Subjob counts of one array job. The counts saturate at `i64::MAX`.
#[derive(Debug, Clone, Copy, PartialEq, Eq)]
pub struct Stats {
    pub total: i64,
    pub completed: i64,
    pub running: i64,
    pub queued: i64,
    /// Summed walltime of completed subjobs.
    pub total_time: i64,
    /// How many completed subjobs contributed a walltime.
    pub time_count: i64,
}

pub open spec fn zero_stats() -> Stats {
    Stats { total: 0, completed: 0, running: 0, queued: 0, total_time: 0, time_count: 0 }
}

/// One `qstat -t <base>` line counted into `st`: a subjob row has at least five
/// fields, an id that starts with `pattern` and holds an array index; it counts
/// toward `total`, and by its state (fifth field) toward `completed` ("X", its
/// walltime from the fourth field when that is "HH:MM:SS"), `running` ("R") or
/// `queued` ("Q").
pub open spec fn tally_line(st: Stats, line: Seq<char>, pattern: Seq<char>) -> Stats {
    let f = words(line);
    if f.len() < 5 || !has_prefix(f[0], pattern) || !has_array_index(f[0]) {
        st
    } else {
        let st1 = Stats { total: clamp64(st.total + 1) as i64, ..st };
        if f[4] == "X"@ {
            let st2 = Stats { completed: clamp64(st1.completed + 1) as i64, ..st1 };
            match hms_seconds(f[3]) {
                Some(t) => Stats {
                    total_time: clamp64(st2.total_time + t) as i64,
                    time_count: clamp64(st2.time_count + 1) as i64,
                    ..st2
                },
                None => st2,
            }
        } else if f[4] == "R"@ {
            Stats { running: clamp64(st1.running + 1) as i64, ..st1 }
        } else if f[4] == "Q"@ {
            Stats { queued: clamp64(st1.queued + 1) as i64, ..st1 }
        } else {
            st1
        }
    }
}

/// All lines counted, in order.
pub open spec fn tally_lines(ls: Seq<Seq<char>>, pattern: Seq<char>) -> Stats
    decreases ls.len(),
{
    if ls.len() == 0 {
        zero_stats()
    } else {
        tally_line(tally_lines(ls.drop_last(), pattern), ls.last(), pattern)
    }
}

pub open spec fn counts_nonneg(st: Stats) -> bool {
    st.total >= 0 && st.completed >= 0 && st.running >= 0 && st.queued >= 0 && st.time_count >= 0
}

/// A completed subjob whose walltime field reads "H:M:S" (three
/// ':'-separated integers) adds exactly `3600 * H + 60 * M + S` seconds to
/// the summed walltime and one to the walltimes counted, and leaves the
/// other counts' relation intact. (Stated away from the `i64` limits, where
/// the sums would saturate.)
pub proof fn law_completed_walltime_adds_hms(
    st: Stats,
    line: Seq<char>,
    pattern: Seq<char>,
    h: i64,
    m: i64,
    x: i64,
)
    requires
        words(line).len() >= 5,
        has_prefix(words(line)[0], pattern),
        has_array_index(words(line)[0]),
        words(line)[4] == "X"@,
        split_char(words(line)[3], ':').len() == 3,
        parse_i64(trim(split_char(words(line)[3], ':')[0])) == Some(h),
        parse_i64(trim(split_char(words(line)[3], ':')[1])) == Some(m),
        parse_i64(trim(split_char(words(line)[3], ':')[2])) == Some(x),
        -1_000_000_000 <= h <= 1_000_000_000,
        -1_000_000_000 <= m <= 1_000_000_000,
        -1_000_000_000 <= x <= 1_000_000_000,
        -0x1000_0000_0000_0000 <= st.total_time <= 0x1000_0000_0000_0000,
        0 <= st.time_count < i64::MAX,
    ensures
        tally_line(st, line, pattern).total_time == st.total_time + 3600 * h + 60 * m + x,
        tally_line(st, line, pattern).time_count == st.time_count + 1,
{
    reveal_strlit("X");
    assert(hms_seconds(words(line)[3]) == Some((3600 * h + 60 * m + x) as i64));
}

/// Counting never makes a count negative.
pub proof fn lemma_tally_nonneg(ls: Seq<Seq<char>>, pattern: Seq<char>)
    ensures
        counts_nonneg(tally_lines(ls, pattern)),
    decreases ls.len(),
{
    if ls.len() > 0 {
        lemma_tally_nonneg(ls.drop_last(), pattern);
    }
}

/// The per-state counts fit in the total: every counted subjob is at most one
/// of completed, running or queued, and only completed ones contribute a
/// walltime. (Stated for inputs of fewer than `i64::MAX` lines, below where
/// the counts would saturate.)
pub proof fn law_tally_counts_fit(ls: Seq<Seq<char>>, pattern: Seq<char>)
    requires
        ls.len() < i64::MAX,
    ensures
        ({
            let st = tally_lines(ls, pattern);
            &&& counts_nonneg(st)
            &&& st.total <= ls.len()
            &&& st.completed + st.running + st.queued <= st.total
            &&& st.time_count <= st.completed
        }),
    decreases ls.len(),
{
    if ls.len() > 0 {
        law_tally_counts_fit(ls.drop_last(), pattern);
    }
}

fn tally_one(st: Stats, line: &Vec<char>, pattern: &Vec<char>) -> (r: Stats)
    ensures
        r == tally_line(st, line@, pattern@),
{
    let f = split_words(line);
    let ghost fv = views(f@);
    if f.len() < 5 {
        return st;
    }
    proof {
        assert(fv[0] == f@[0]@);
        assert(fv[3] == f@[3]@);
        assert(fv[4] == f@[4]@);
    }
    if !starts_with(&f[0], pattern) || !has_array_index_chars(&f[0]) {
        return st;
    }
    let mut s = st;
    s.total = sadd(s.total, 1);
    if eq_str(&f[4], "X") {
        s.completed = sadd(s.completed, 1);
        match parse_hms(&f[3]) {
            Some(t) => {
                s.total_time = sadd(s.total_time, t);
                s.time_count = sadd(s.time_count, 1);
            },
            None => {},
        }
    } else if eq_str(&f[4], "R") {
        s.running = sadd(s.running, 1);
    } else if eq_str(&f[4], "Q") {
        s.queued = sadd(s.queued, 1);
    }
    s
}

/// Tally subjob states from `qstat -t <base>` output. Columns (default
/// format): 1=id, 2=name, 3=user, 4=Time Use, 5=state, 6=queue.
pub fn tally(detail: &str, base_pattern: &str) -> (s: Stats)
    ensures
        s == tally_lines(lines(detail@), base_pattern@),
        counts_nonneg(s),
{
    let v = to_chars(detail);
    let pat = to_chars(base_pattern);
    let ls = split_lines(&v);
    let ghost lv = views(ls@);
    let mut s = Stats { total: 0, completed: 0, running: 0, queued: 0, total_time: 0, time_count: 0 };
    let mut i: usize = 0;
    while i < ls.len()
        invariant
            i <= ls.len(),
            lv == views(ls@),
            s == tally_lines(lv.take(i as int), pat@),
        decreases ls.len() - i,
    {
        proof {
            assert(lv.take(i + 1).drop_last() == lv.take(i as int));
            assert(lv.take(i + 1).last() == ls@[i as int]@);
        }
        s = tally_one(s, &ls[i], &pat);
        i += 1;
    }
    proof {
        assert(lv.take(ls.len() as int) == lv);
        lemma_tally_nonneg(lv, pat@);
    }
    s
}


/// Eighth blocks for sub-cell resolution; 0 is a space, 7 the fullest used.
pub open spec fn block(idx: int) -> char {
    if idx <= 0 {
        ' '
    } else if idx == 1 {
        '\u{2581}'
    } else if idx == 2 {
        '\u{2582}'
    } else if idx == 3 {
        '\u{2583}'
    } else if idx == 4 {
        '\u{2584}'
    } else if idx == 5 {
        '\u{2585}'
    } else if idx == 6 {
        '\u{2586}'
    } else {
        '\u{2587}'
    }
}

fn block_char(idx: i128) -> (c: char)
    ensures
        c == block(idx as int),
{
    if idx <= 0 {
        ' '
    } else if idx == 1 {
        '\u{2581}'
    } else if idx == 2 {
        '\u{2582}'
    } else if idx == 3 {
        '\u{2583}'
    } else if idx == 4 {
        '\u{2584}'
    } else if idx == 5 {
        '\u{2585}'
    } else if idx == 6 {
        '\u{2586}'
    } else {
        '\u{2587}'
    }
}

/// Cell `i` of the bar, with `filled` eighths completed and `rp` eighths
/// running after them: blue blocks where the running part overlaps the cell,
/// green blocks over the completed part, a space beyond.
pub open spec fn bar_cell(i: int, filled: int, rp: int) -> Seq<char> {
    let pos = i * 8;
    let next = (i + 1) * 8;
    if next > filled && pos < filled + rp {
        "\x1b[0;34m"@ + seq![
            block(
                if pos < filled + rp - 7 {
                    7
                } else {
                    filled + rp - pos
                },
            ),
        ] + "\x1b[0m"@
    } else if pos < filled - 7 {
        "\x1b[0;32m"@ + seq![block(7)] + "\x1b[0m"@
    } else if pos < filled {
        "\x1b[0;32m"@ + seq![block(filled - pos)] + "\x1b[0m"@
    } else {
        seq![' ']
    }
}

/// The first `n` cells of the bar.
pub open spec fn bar_cells(n: nat, filled: int, rp: int) -> Seq<char>
    decreases n,
{
    if n == 0 {
        seq![]
    } else {
        bar_cells((n - 1) as nat, filled, rp) + bar_cell(n - 1, filled, rp)
    }
}

/// The 30-cell progress bar for completed/running subjobs, followed by the
/// done (and, with running subjobs, active) percentages rounded half up.
pub open spec fn bar_text(completed: int, running: int, total: int) -> Seq<char> {
    let active = if completed + running < total {
        completed + running
    } else {
        total
    };
    let done_pct = if total > 0 {
        (completed * 100 + total / 2) / total
    } else {
        0
    };
    let active_pct = if total > 0 {
        (active * 100 + total / 2) / total
    } else {
        0
    };
    let filled = if total > 0 {
        240 * completed / total
    } else {
        0
    };
    let rp0 = if total > 0 {
        240 * running / total
    } else {
        0
    };
    let rp = if running > 0 && rp0 == 0 {
        1
    } else {
        rp0
    };
    seq!['['] + bar_cells(30, filled, rp) + "] "@ + pad_left(int_text(done_pct), 3) + "% done ("@
        + int_text(completed) + seq!['/'] + int_text(total) + seq![')'] + (if running > 0 {
        ", "@ + pad_left(int_text(active_pct), 3) + "% active"@
    } else {
        seq![]
    })
}

fn push_block(out: &mut Vec<char>, color: &str, idx: i128)
    ensures
        final(out)@ == old(out)@ + (color@ + seq![block(idx as int)] + "\x1b[0m"@),
{
    push_str(out, color);
    out.push(block_char(idx));
    push_str(out, "\x1b[0m");
    proof {
        assert(old(out)@ + color@ + seq![block(idx as int)] + "\x1b[0m"@ == old(out)@ + (color@
            + seq![block(idx as int)] + "\x1b[0m"@));
    }
}

/// Green/blue eighth-block progress bar (width 30) for completed/running
/// subjobs, followed by the done/active percentages.
#[verifier::spinoff_prover]
#[verifier::rlimit(20)]
fn progress_bar(completed: i64, running: i64, total: i64) -> (r: String)
    requires
        completed >= 0,
        running >= 0,
        total >= 0,
    ensures
        r@ == bar_text(completed as int, running as int, total as int),
{
    let c = completed as i128;
    let ru = running as i128;
    let t = total as i128;
    let active = if c + ru < t { c + ru } else { t };
    let done_pct: i128 = if t > 0 { (c * 100 + t / 2) / t } else { 0 };
    let active_pct: i128 = if t > 0 { (active * 100 + t / 2) / t } else { 0 };
    let filled: i128 = if t > 0 { 240 * c / t } else { 0 };
    let mut rp: i128 = if t > 0 { 240 * ru / t } else { 0 };
    if ru > 0 && rp == 0 {
        rp = 1;
    }
    proof {
        assert(0 <= filled <= 240 * c) by (nonlinear_arith)
            requires
                filled == (if t > 0 { 240 * c / (t as int) } else { 0 }),
                c >= 0,
                t >= 0,
        ;
        assert(0 <= rp <= 240 * ru + 1) by (nonlinear_arith)
            requires
                rp == 1 || rp == (if t > 0 { 240 * ru / (t as int) } else { 0 }),
                ru >= 0,
                t >= 0,
        ;
    }
    let mut out: Vec<char> = Vec::new();
    out.push('[');
    let mut i: i128 = 0;
    while i < 30
        invariant
            0 <= i <= 30,
            0 <= filled <= 240 * 0x7fff_ffff_ffff_ffff,
            0 <= rp <= 240 * 0x7fff_ffff_ffff_ffff + 1,
            out@ == seq!['['] + bar_cells(i as nat, filled as int, rp as int),
        decreases 30 - i,
    {
        let pos = i * 8;
        let next = (i + 1) * 8;
        if next > filled && pos < filled + rp {
            let idx = if pos < filled + rp - 7 { 7 } else { filled + rp - pos };
            push_block(&mut out, "\x1b[0;34m", idx);
        } else if pos < filled - 7 {
            push_block(&mut out, "\x1b[0;32m", 7);
        } else if pos < filled {
            push_block(&mut out, "\x1b[0;32m", filled - pos);
        } else {
            out.push(' ');
        }
        proof {
            assert(bar_cells((i + 1) as nat, filled as int, rp as int) == bar_cells(
                i as nat,
                filled as int,
                rp as int,
            ) + bar_cell(i as int, filled as int, rp as int));
        }
        i += 1;
    }
    push_str(&mut out, "] ");
    let dp = crate::text::int_chars(done_pct);
    push_pad_left(&mut out, &dp, 3);
    push_str(&mut out, "% done (");
    push_int(&mut out, c);
    out.push('/');
    push_int(&mut out, t);
    out.push(')');
    let ghost mid = out@;
    if running > 0 {
        push_str(&mut out, ", ");
        let ap = crate::text::int_chars(active_pct);
        push_pad_left(&mut out, &ap, 3);
        push_str(&mut out, "% active");
        proof {
            assert(out@ == mid + (", "@ + pad_left(int_text(active_pct as int), 3) + "% active"@));
        }
    } else {
        proof {
            assert(out@ == mid + Seq::<char>::empty());
        }
    }
    to_string(&out)
}

/// Human duration: `Ns` / `Nm Ns` / `Nh Nm` / `Nd Nh`.
pub open spec fn time_text(sec: int) -> Seq<char> {
    if sec < 60 {
        int_text(sec) + "s"@
    } else if sec < 3600 {
        int_text(sec / 60) + "m "@ + int_text(sec % 60) + "s"@
    } else if sec < 86400 {
        int_text(sec / 3600) + "h "@ + int_text((sec % 3600) / 60) + "m"@
    } else {
        int_text(sec / 86400) + "d "@ + int_text((sec % 86400) / 3600) + "h"@
    }
}

/// Human duration: `Ns` / `Nm Ns` / `Nh Nm` / `Nd Nh`.
fn format_time(sec: i128) -> (r: Vec<char>)
    ensures
        r@ == time_text(sec as int),
{
    let mut out: Vec<char> = Vec::new();
    if sec < 60 {
        push_int(&mut out, sec);
        push_str(&mut out, "s");
    } else if sec < 3600 {
        push_int(&mut out, sec / 60);
        push_str(&mut out, "m ");
        push_int(&mut out, sec % 60);
        push_str(&mut out, "s");
    } else if sec < 86400 {
        push_int(&mut out, sec / 3600);
        push_str(&mut out, "h ");
        push_int(&mut out, (sec % 3600) / 60);
        push_str(&mut out, "m");
    } else {
        push_int(&mut out, sec / 86400);
        push_str(&mut out, "d ");
        push_int(&mut out, (sec % 86400) / 3600);
        push_str(&mut out, "h");
    }
    out
}

/// The ETA from the mean completed-subjob walltime: the running batch first,
/// then the remaining subjobs in batches of `running` (all of them one after
/// another when nothing runs).
pub open spec fn eta(st: Stats) -> (int, int) {
    let running = st.running as int;
    let avg = (st.total_time as int) / (st.time_count as int);
    let remaining = st.total - st.completed - running;
    let est = if running > 0 {
        if remaining > 0 {
            avg + ((remaining + running - 1) / running) * avg
        } else {
            avg
        }
    } else {
        avg * remaining
    };
    (est, avg)
}

/// The progress line of one array job, `None` when its detail lists no subjob.
pub open spec fn array_line(base: Seq<char>, detail: Seq<char>) -> Option<Seq<char>> {
    let st = tally_lines(lines(detail), job_number_of(base));
    if st.total == 0 {
        None
    } else {
        let line = pad_right(base, 10) + seq![' '] + bar_text(
            st.completed as int,
            st.running as int,
            st.total as int,
        );
        if st.completed > 0 && st.running + st.queued > 0 && st.time_count > 0 && st.total_time
            > 0 {
            Some(
                line + " | ETA: "@ + time_text(eta(st).0) + ", Avg: "@ + time_text(eta(st).1),
            )
        } else {
            Some(line)
        }
    }
}

/// Render one array job's progress line from its `qstat -t` detail, or None if
/// the detail has no array subjobs (e.g. just the parent).
pub fn render_array(base: &str, detail: &str) -> (r: Option<String>)
    ensures
        crate::pbs::opt_view(r) == array_line(base@, detail@),
{
    let bv = to_chars(base);
    let pattern = job_number_chars(&bv);
    let ps = to_string(&pattern);
    let s = tally(detail, ps.as_str());
    if s.total == 0 {
        return None;
    }
    let mut out: Vec<char> = Vec::new();
    push_pad_right(&mut out, &bv, 10);
    out.push(' ');
    let bar = progress_bar(s.completed, s.running, s.total);
    push_str(&mut out, bar.as_str());
    let ghost line = out@;
    if s.completed > 0 && (s.running as i128 + s.queued as i128) > 0 && s.time_count > 0
        && s.total_time > 0 {
        let tt = s.total_time as i128;
        let tc = s.time_count as i128;
        let total = s.total as i128;
        let done = s.completed as i128;
        let run = s.running as i128;
        let avg = tt / tc;
        let remaining = total - done - run;
        proof {
            assert(0 <= avg <= tt) by (nonlinear_arith)
                requires
                    avg == tt / tc,
                    tt > 0,
                    tc > 0,
            ;
        }
        let est: i128 = if run > 0 {
            if remaining > 0 {
                let batches = (remaining + run - 1) / run;
                proof {
                    assert(0 <= batches <= remaining) by (nonlinear_arith)
                        requires
                            batches == (remaining + run - 1) / (run as int),
                            remaining > 0,
                            run > 0,
                    ;
                    assert(batches * avg <= remaining * tt) by (nonlinear_arith)
                        requires
                            0 <= batches <= remaining,
                            0 <= avg <= tt,
                    ;
                    assert(remaining * tt <= 0x8000_0000_0000_0000 * 0x8000_0000_0000_0000)
                        by (nonlinear_arith)
                        requires
                            0 < remaining <= 0x7fff_ffff_ffff_ffff,
                            0 < tt <= 0x7fff_ffff_ffff_ffff,
                    ;
                }
                avg + batches * avg
            } else {
                avg
            }
        } else {
            proof {
                assert(-0x1_0000_0000_0000_0000 * 0x8000_0000_0000_0000 <= avg * remaining
                    <= 0x8000_0000_0000_0000 * 0x8000_0000_0000_0000) by (nonlinear_arith)
                    requires
                        -0x1_0000_0000_0000_0000 <= remaining <= 0x7fff_ffff_ffff_ffff,
                        0 <= avg <= 0x7fff_ffff_ffff_ffff,
                ;
            }
            avg * remaining
        };
        push_str(&mut out, " | ETA: ");
        let et = format_time(est);
        push_all(&mut out, &et);
        push_str(&mut out, ", Avg: ");
        let at = format_time(avg);
        push_all(&mut out, &at);
    }
    Some(to_string(&out))
}

/// The progress lines of the array jobs `bases`, whose `qstat -t` details are
/// `details`, joined by `\n` (jobs without subjobs left out).
pub open spec fn array_report(bases: Seq<Seq<char>>, details: Seq<Seq<char>>) -> Seq<Seq<char>>
    decreases bases.len(),
{
    if bases.len() == 0 || details.len() == 0 {
        seq![]
    } else {
        let rest = array_report(bases.drop_last(), details.drop_last());
        match array_line(bases.last(), details.last()) {
            Some(l) => rest.push(l),
            None => rest,
        }
    }
}

/// Array-job progress for all array masters: one line per job with subjobs,
/// joined by `\n`; `details[i]` is the `qstat -t` output for `bases[i]`.
#[verifier::spinoff_prover]
#[verifier::rlimit(20)]
pub fn render_array_progress(bases: &Vec<String>, details: &Vec<String>) -> (r: String)
    requires
        bases@.len() == details@.len(),
    ensures
        r@ == crate::app::joined(array_report(string_views(bases@), string_views(details@))),
{
    let mut lines_out: Vec<String> = Vec::new();
    let mut i: usize = 0;
    while i < bases.len()
        invariant
            i <= bases@.len(),
            bases@.len() == details@.len(),
            string_views(lines_out@) == array_report(
                string_views(bases@).take(i as int),
                string_views(details@).take(i as int),
            ),
        decreases bases.len() - i,
    {
        proof {
            assert(string_views(bases@).take(i + 1).drop_last() == string_views(bases@).take(
                i as int,
            ));
            assert(string_views(details@).take(i + 1).drop_last() == string_views(details@).take(
                i as int,
            ));
            assert(string_views(bases@).take(i + 1).last() == bases@[i as int]@);
            assert(string_views(details@).take(i + 1).last() == details@[i as int]@);
        }
        match render_array(bases[i].as_str(), details[i].as_str()) {
            Some(line) => {
                proof {
                    assert(string_views(lines_out@.push(line)) =~= string_views(lines_out@).push(
                        line@,
                    ));
                }
                lines_out.push(line);
            },
            None => {},
        }
        i += 1;
    }
    proof {
        assert(string_views(bases@).take(bases@.len() as int) == string_views(bases@));
        assert(string_views(details@).take(details@.len() as int) == string_views(details@));
    }
    crate::app::join_lines(&lines_out)
}

} // verus!
