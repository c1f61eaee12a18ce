//! The decisions of a language-server session around background indexing:
//! which requests wait for the index, how a request is answered while the
//! index is built, and what each indexing event changes and reports.
use vstd::prelude::*;
use vstd::string::StringSliceAdditionalSpecFns;
use crate::text::{append_text, owned, string_bytes};
use crate::validation::{add_decimal, add_decimal_wide, decimal};

verus! {

/// Requests that a client may send while the index is being built, at most.
pub const MAX_PENDING_INDEX_REQUESTS: usize = 256;

/// The requests that need the whole workspace indexed.
pub open spec fn needs_index(method: Seq<u8>) -> bool {
    ||| method == "workspace/symbol".spec_bytes()
    ||| method == "textDocument/completion".spec_bytes()
    ||| method == "textDocument/hover".spec_bytes()
    ||| method == "textDocument/definition".spec_bytes()
    ||| method == "textDocument/references".spec_bytes()
    ||| method == "textDocument/prepareRename".spec_bytes()
    ||| method == "textDocument/rename".spec_bytes()
    ||| method == "textDocument/signatureHelp".spec_bytes()
}

fn method_is(method: &str, name: &str) -> (r: bool)
    ensures
        r == (method.spec_bytes() == name.spec_bytes()),
{
    crate::text::bytes_equal(method.as_bytes(), name.as_bytes())
}

/// Whether a request needs the whole workspace indexed (`requires_complete_index`).
pub fn requires_complete_index(method: &str) -> (r: bool)
    ensures
        r == needs_index(method.spec_bytes()),
{
    method_is(method, "workspace/symbol") || method_is(method, "textDocument/completion") || method_is(
        method,
        "textDocument/hover",
    ) || method_is(method, "textDocument/definition") || method_is(method, "textDocument/references")
        || method_is(method, "textDocument/prepareRename") || method_is(method, "textDocument/rename")
        || method_is(method, "textDocument/signatureHelp")
}

/// A snapshot of indexing work.
#[derive(Clone, Debug)]
pub struct IndexingProgress {
    pub phase: &'static str,
    pub files: usize,
    pub bytes: u64,
    pub message: Option<String>,
}

/// The text of a progress report: its message, or the phase with the files
/// and the whole MiB read.
pub open spec fn progress_text(p: IndexingProgress) -> Seq<u8> {
    match p.message {
        Some(m) => string_bytes(m),
        None => p.phase.spec_bytes() + ": ".spec_bytes() + decimal(p.files as nat) + " files, ".spec_bytes() + decimal(
            (p.bytes / 1048576) as nat,
        ) + " MiB".spec_bytes(),
    }
}

/// The text of a progress report (`progress_message`).
pub fn progress_message(progress: &IndexingProgress) -> (r: String)
    ensures
        string_bytes(r) == progress_text(*progress),
{
    match &progress.message {
        Some(m) => m.clone(),
        None => {
            let mut text = owned(progress.phase);
            append_text(&mut text, ": ");
            add_decimal(&mut text, progress.files);
            append_text(&mut text, " files, ");
            add_decimal_wide(&mut text, progress.bytes / 1048576);
            append_text(&mut text, " MiB");
            text
        },
    }
}

/// How a request is answered with respect to indexing.
#[derive(Clone, Copy, Debug, PartialEq, Eq, Structural)]
pub enum RequestGate {
    /// Handled now.
    Handle,
    /// Kept until the index is built.
    Defer,
    /// Refused with the error that ended indexing.
    RejectIndexingError,
    /// Refused: too many requests wait already; the client retries.
    RejectRetry,
}

/// How a request is answered: one that needs the index is refused with the
/// indexing error when indexing failed, and while indexing runs it waits,
/// unless `MAX_PENDING_INDEX_REQUESTS` wait already.
pub open spec fn gate_spec(method: Seq<u8>, failed: bool, indexing: bool, pending: usize) -> RequestGate {
    if !needs_index(method) {
        RequestGate::Handle
    } else if failed {
        RequestGate::RejectIndexingError
    } else if indexing {
        if pending >= MAX_PENDING_INDEX_REQUESTS {
            RequestGate::RejectRetry
        } else {
            RequestGate::Defer
        }
    } else {
        RequestGate::Handle
    }
}

/// How a request is answered before any work is done for it: at once,
/// after indexing, or with an error.
pub fn request_gate(method: &str, failed: bool, indexing: bool, pending: usize) -> (r: RequestGate)
    ensures
        r == gate_spec(method.spec_bytes(), failed, indexing, pending),
{
    if requires_complete_index(method) {
        if failed {
            return RequestGate::RejectIndexingError;
        }
        if indexing {
            if pending >= MAX_PENDING_INDEX_REQUESTS {
                return RequestGate::RejectRetry;
            }
            return RequestGate::Defer;
        }
    }
    RequestGate::Handle
}

/// Why requests that need the index are refused after indexing ended.
#[derive(Debug)]
pub struct IndexingRequestError {
    /// The client cancelled indexing (otherwise it failed).
    pub cancelled: bool,
    pub message: String,
}

/// What the session knows of background indexing.
#[derive(Debug)]
pub struct IndexingStatus {
    pub running: bool,
    pub error: Option<IndexingRequestError>,
    pub latest_progress: Option<IndexingProgress>,
    pub progress_active: bool,
    pub progress_finished: Option<String>,
}

/// What the indexing worker reports.
pub enum IndexingEvent {
    Progress(IndexingProgress),
    /// Indexing ended: the index was built, or the error.
    Completed(Result<(), String>),
    /// The worker went away without a result.
    Disconnected,
}

/// A progress notification to send.
#[derive(Debug)]
pub enum ProgressReport {
    Report(String),
    End(String),
}

/// What an indexing event asks of the session.
#[derive(Debug)]
pub struct IndexingUpdate {
    pub report: Option<ProgressReport>,
    /// Indexing has ended.
    pub finished: bool,
    /// It ended with a new index, to install.
    pub succeeded: bool,
}

/// The message of the end of indexing, and the error it leaves, if any.
pub open spec fn end_message(event: IndexingEvent) -> Seq<u8> {
    match event {
        IndexingEvent::Completed(Ok(())) => "Workspace indexing complete".spec_bytes(),
        IndexingEvent::Completed(Err(e)) => if string_bytes(e) == "workspace indexing cancelled".spec_bytes() {
            "Workspace indexing cancelled".spec_bytes()
        } else {
            "Workspace indexing failed: ".spec_bytes() + string_bytes(e)
        },
        _ => "Workspace indexing failed unexpectedly".spec_bytes(),
    }
}

pub open spec fn end_error(event: IndexingEvent) -> Option<(bool, Seq<u8>)> {
    match event {
        IndexingEvent::Completed(Ok(())) => None,
        IndexingEvent::Completed(Err(e)) => if string_bytes(e) == "workspace indexing cancelled".spec_bytes() {
            Some((true, "Workspace indexing was cancelled; index-dependent requests cannot be completed.".spec_bytes()))
        } else {
            Some((false, "Workspace indexing failed: ".spec_bytes() + string_bytes(e)))
        },
        _ => Some((false, "Workspace indexing failed unexpectedly".spec_bytes())),
    }
}

pub open spec fn error_view(e: Option<IndexingRequestError>) -> Option<(bool, Seq<u8>)> {
    match e {
        Some(x) => Some((x.cancelled, string_bytes(x.message))),
        None => None,
    }
}

pub open spec fn report_view(r: Option<ProgressReport>) -> Option<(bool, Seq<u8>)> {
    match r {
        Some(ProgressReport::Report(m)) => Some((false, string_bytes(m))),
        Some(ProgressReport::End(m)) => Some((true, string_bytes(m))),
        None => None,
    }
}

/// Applies an event of the indexing worker. A progress
/// snapshot is kept and reported while progress is shown. An end stops
/// indexing, sets the error that index-dependent requests get (none when
/// the index was built), and ends the progress shown, else keeps its
/// message for later.
pub fn indexing_event(status: &mut IndexingStatus, event: IndexingEvent) -> (u: IndexingUpdate)
    ensures
        match event {
            IndexingEvent::Progress(p) => {
                &&& final(status).running == old(status).running
                &&& error_view(final(status).error) == error_view(old(status).error)
                &&& final(status).progress_active == old(status).progress_active
                &&& final(status).progress_finished == old(status).progress_finished
                &&& final(status).latest_progress == Some(p)
                &&& !u.finished && !u.succeeded
                &&& report_view(u.report) == if old(status).progress_active {
                    Some((false, progress_text(p)))
                } else {
                    None
                }
            },
            _ => {
                &&& !final(status).running
                &&& final(status).latest_progress == old(status).latest_progress
                &&& u.finished
                &&& u.succeeded == (event matches IndexingEvent::Completed(Ok(())))
                &&& (event matches IndexingEvent::Completed(Ok(()))) ==> error_view(final(status).error) == error_view(
                    old(status).error,
                )
                &&& !(event matches IndexingEvent::Completed(Ok(()))) ==> error_view(final(status).error) == end_error(
                    event,
                )
                &&& !final(status).progress_active
                &&& old(status).progress_active ==> (final(status).progress_finished is None && report_view(u.report)
                    == Some((true, end_message(event))))
                &&& !old(status).progress_active ==> u.report is None
                &&& !old(status).progress_active ==> (final(status).progress_finished matches Some(m) && string_bytes(m)
                    == end_message(event))
            },
        },
{
    let ghost ev = event;
    let (message, succeeded) = match event {
        IndexingEvent::Progress(p) => {
            let report = if status.progress_active {
                Some(ProgressReport::Report(progress_message(&p)))
            } else {
                None
            };
            status.latest_progress = Some(p);
            return IndexingUpdate { report, finished: false, succeeded: false };
        },
        IndexingEvent::Completed(Ok(())) => (owned("Workspace indexing complete"), true),
        IndexingEvent::Completed(Err(e)) => {
            if crate::text::bytes_equal(e.as_str().as_bytes(), "workspace indexing cancelled".as_bytes()) {
                status.error = Some(
                    IndexingRequestError {
                        cancelled: true,
                        message: owned(
                            "Workspace indexing was cancelled; index-dependent requests cannot be completed.",
                        ),
                    },
                );
                (owned("Workspace indexing cancelled"), false)
            } else {
                let mut m = owned("Workspace indexing failed: ");
                append_text(&mut m, e.as_str());
                status.error = Some(IndexingRequestError { cancelled: false, message: m.clone() });
                (m, false)
            }
        },
        IndexingEvent::Disconnected => {
            let m = owned("Workspace indexing failed unexpectedly");
            status.error = Some(IndexingRequestError { cancelled: false, message: m.clone() });
            (m, false)
        },
    };
    let report = if status.progress_active {
        status.progress_active = false;
        status.progress_finished = None;
        Some(ProgressReport::End(message))
    } else {
        status.progress_finished = Some(message);
        None
    };
    status.running = false;
    IndexingUpdate { report, finished: true, succeeded }
}

/// A request waits for the index only while fewer than
/// `MAX_PENDING_INDEX_REQUESTS` wait, and only while indexing runs and has
/// not failed.
pub proof fn law_deferral_is_bounded(method: Seq<u8>, failed: bool, indexing: bool, pending: usize)
    ensures
        gate_spec(method, failed, indexing, pending) == RequestGate::Defer ==> (pending < MAX_PENDING_INDEX_REQUESTS
            && indexing && !failed && needs_index(method)),
        !needs_index(method) ==> gate_spec(method, failed, indexing, pending) == RequestGate::Handle,
{
}

} // verus!
