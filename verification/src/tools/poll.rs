//! `poll`: reading a `run` or `evaluate` job that outlived the 30 s cap.

use vstd::prelude::*;

use crate::framework::{tool_def, takes_page, ToolHints, ToolDef};
use crate::text::{push_str, trim_text, trimmed};

verus! {

pub const DESCRIPTION: &'static str = "Poll a `run` or `evaluate` job that outlived the 30s cap. Pass the `jobId` returned when a call came back with status `running`. If the job was started inside a page (`evaluate`), also pass `page`. Poll at most twice; if it is still running, continue with other work.";

/// How `poll` is announced.
pub fn definition() -> (r: ToolDef)
    ensures
        r.name@ == "poll"@,
        r.description@ == DESCRIPTION@,
        r.hints == ToolHints::ReadOnly,
        r.metadata.accepts_page_arg == takes_page("poll"@),
{
    tool_def("poll", DESCRIPTION, ToolHints::ReadOnly)
}

/// The job id a call asks for, trimmed; a blank id is refused.
pub fn requested_job(job_id: &str) -> (r: Result<String, String>)
    ensures
        trimmed(job_id@).len() == 0 ==> (r matches Err(e) && e@ == "poll: jobId is required"@),
        trimmed(job_id@).len() > 0 ==> (r matches Ok(id) && id@ == trimmed(job_id@)),
{
    let id = trim_text(job_id);
    if crate::text::chars_of(id.as_str()).len() == 0 {
        Err("poll: jobId is required".to_owned())
    } else {
        Ok(id)
    }
}

pub open spec fn unknown_job_text(job_id: Seq<char>) -> Seq<char> {
    "poll: unknown jobId "@ + job_id + ". If this was an evaluate job, pass `page` as well."@
}

/// The refusal of an unknown job id given without a page.
pub fn unknown_job_message(job_id: &str) -> (r: String)
    ensures
        r@ == unknown_job_text(job_id@),
{
    let mut s = "poll: unknown jobId ".to_owned();
    push_str(&mut s, job_id);
    push_str(&mut s, ". If this was an evaluate job, pass `page` as well.");
    s
}

/// The page script that reads an in-page job record, or reports it
/// unknown, around the job id written as a JSON string.
pub open spec fn job_probe_around(id_json: Seq<char>) -> Seq<char> {
    "(function() { var t = globalThis.__browserosJobs && globalThis.__browserosJobs["@ + id_json
        + "]; return t || { jobId: "@ + id_json + ", status: 'unknown' }; })()"@
}

/// The page script that reads an in-page job.
pub open spec fn job_probe(job_id: Seq<char>) -> Seq<char> {
    job_probe_around(crate::cdp::json_string_text(job_id))
}

/// Builds the job-reading script around a job id already written as JSON.
pub fn job_probe_script(id_json: &str) -> (r: String)
    ensures
        r@ == job_probe_around(id_json@),
{
    let mut s = "(function() { var t = globalThis.__browserosJobs && globalThis.__browserosJobs[".to_owned();
    push_str(&mut s, id_json);
    push_str(&mut s, "]; return t || { jobId: ");
    push_str(&mut s, id_json);
    push_str(&mut s, ", status: 'unknown' }; })()");
    s
}

/// Builds the script that reads an in-page job.
pub fn job_probe_expression(job_id: &str) -> (r: String)
    ensures
        r@ == job_probe(job_id@),
{
    let id = crate::cdp::quote_json(job_id);
    job_probe_script(id.as_str())
}

} // verus!
