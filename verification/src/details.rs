//! What the details worker hands the UI for one request: the job's
//! `qstat -f` record with its `Output_Path`, the failure explained, or an
//! empty panel when no job is selected.
use vstd::prelude::*;
use crate::app::Update;
use crate::pbs::{opt_view, output_path, output_path_in};
use crate::text::{lines, push_str, to_string};

verus! {

/// The text shown when a job's details could not be fetched.
pub open spec fn unable_text(jobid: Seq<char>, error: Seq<char>) -> Seq<char> {
    "Unable to fetch details for "@ + jobid + ".\n\n"@ + error + "\n\nTry pressing 'r' to refresh."@
}

/// A `Details` update for `job` with `text` and `path` (by view).
pub open spec fn is_details(u: Update, job: Seq<char>, text: Seq<char>, path: Option<Seq<char>>) -> bool {
    u matches Update::Details { job: j, text: t, output_path: p } && j@ == job && t@ == text
        && opt_view(p) == path
}

/// The update for a fetched job: its record and the `Output_Path` found in
/// it, or, when the fetch failed, the failure and a hint to refresh.
pub fn details_update(jobid: String, fetched: Result<String, String>) -> (u: Update)
    ensures
        match fetched {
            Ok(text) => is_details(u, jobid@, text@, output_path_in(lines(text@))),
            Err(e) => is_details(u, jobid@, unable_text(jobid@, e@), None),
        },
{
    match fetched {
        Ok(text) => {
            let path = output_path(text.as_str());
            Update::Details { job: jobid, text, output_path: path }
        },
        Err(e) => {
            let mut out: Vec<char> = Vec::new();
            push_str(&mut out, "Unable to fetch details for ");
            push_str(&mut out, jobid.as_str());
            push_str(&mut out, ".\n\n");
            push_str(&mut out, e.as_str());
            push_str(&mut out, "\n\nTry pressing 'r' to refresh.");
            proof {
                assert(out@ =~= unable_text(jobid@, e@));
            }
            Update::Details { job: jobid, text: to_string(&out), output_path: None }
        },
    }
}

/// The update when no job is selected: an empty panel.
pub fn cleared_details() -> (u: Update)
    ensures
        is_details(u, Seq::empty(), Seq::empty(), None),
{
    Update::Details { job: String::new(), text: String::new(), output_path: None }
}

/// The request served when several queued up while the worker was busy:
/// only the last one is still wanted.
pub fn latest_request(first: Option<String>, queued: Vec<Option<String>>) -> (r: Option<String>)
    ensures
        r == if queued@.len() == 0 {
            first
        } else {
            queued@.last()
        },
{
    let mut queued = queued;
    match queued.pop() {
        Some(last) => last,
        None => first,
    }
}

} // verus!
