//! The decision core of a bridge session.
//!
//! One WebSocket connection owns one pseudo-terminal. Inbound text frames
//! carry job requests, inbound binary frames are keystrokes for the
//! subprocess, and outbound frames are job status messages and captured
//! output segments. The functions here decide, for each inbound event,
//! what the connection does and which status text goes out; the
//! surrounding runtime performs the sends, spawns and waits.
//!
//! A connection tracks at most one live job: a request arriving while one
//! runs is rejected with a status instead of sharing the terminal.

use vstd::prelude::*;

use crate::command::{plan_job, ConstructError, JobDecision, JobRequest, ModelState};

verus! {

/// A job lifecycle notification sent to the caller.
pub struct JobStatus {
    /// The job this speaks about.
    pub job_id: String,
    /// One of the fixed status texts.
    pub status: String,
}

/// Status text announcing a started job.
pub open spec fn spec_status_started() -> Seq<char> {
    "started"@
}

/// Status text for a job whose command could not be constructed.
pub open spec fn spec_status_construct_failed(msg: Seq<char>) -> Seq<char> {
    "failed to construct command: "@ + msg
}

/// Status text for a finished job, with the exit description.
pub open spec fn spec_status_completed(desc: Seq<char>) -> Seq<char> {
    "completed with status: "@ + desc
}

/// Status text for a job whose subprocess would not spawn.
pub open spec fn spec_status_spawn_failed(err: Seq<char>) -> Seq<char> {
    "failed to start: "@ + err
}

/// Status text rejecting a request while a job is in flight.
pub open spec fn spec_status_busy() -> Seq<char> {
    "failed to start: a job is already running"@
}

/// Builds the `started` status for a job.
pub fn status_started(job_id: &str) -> (r: JobStatus)
    ensures
        r.job_id@ == job_id@,
        r.status@ == spec_status_started(),
{
    JobStatus { job_id: job_id.to_owned(), status: "started".to_owned() }
}

/// Builds the construction-failure status for a job.
pub fn status_construct_failed(job_id: &str, msg: &str) -> (r: JobStatus)
    ensures
        r.job_id@ == job_id@,
        r.status@ == spec_status_construct_failed(msg@),
{
    let mut status = "failed to construct command: ".to_owned();
    status.append(msg);
    JobStatus { job_id: job_id.to_owned(), status }
}

/// Builds the completion status for a job, around the exit description.
pub fn status_completed(job_id: &str, desc: &str) -> (r: JobStatus)
    ensures
        r.job_id@ == job_id@,
        r.status@ == spec_status_completed(desc@),
{
    let mut status = "completed with status: ".to_owned();
    status.append(desc);
    JobStatus { job_id: job_id.to_owned(), status }
}

/// Builds the spawn-failure status for a job.
pub fn status_spawn_failed(job_id: &str, err: &str) -> (r: JobStatus)
    ensures
        r.job_id@ == job_id@,
        r.status@ == spec_status_spawn_failed(err@),
{
    let mut status = "failed to start: ".to_owned();
    status.append(err);
    JobStatus { job_id: job_id.to_owned(), status }
}

/// The per-connection state the control loop tracks.
pub struct Session {
    /// Identifier of the job currently using the terminal, if any.
    pub active_job: Option<String>,
}

/// What the connection does with one job request.
pub enum JobOutcome {
    /// A job is already running: nothing is spawned, the request is
    /// rejected with this status.
    Busy {
        /// The rejection status.
        status: JobStatus,
    },
    /// The command could not be constructed: the notice is sent as a text
    /// frame, the status as the job's failure, nothing is spawned.
    Rejected {
        /// Full notice text for the caller.
        notice: String,
        /// The failure status.
        status: JobStatus,
    },
    /// A plain job: announce this status, then spawn the command built
    /// from the resolved model.
    LaunchPlain {
        /// The `started` status.
        status: JobStatus,
        /// Resolved language model path.
        model_path: String,
    },
    /// A retrieval-augmented job: gather context for `query` first, then
    /// report back through `job_context_ready` or `job_construct_failed`.
    NeedContext {
        /// Resolved language model path.
        model_path: String,
        /// The prompt with the retrieval prefix removed.
        query: String,
    },
}

impl Session {
    /// A fresh connection: no job in flight.
    pub fn new() -> (r: Self)
        ensures
            r.active_job is None,
    {
        Session { active_job: None }
    }

    /// Decides what one job request does to the session, under a fresh
    /// job identifier (returned first): rejected while a job runs;
    /// otherwise planned against the workspace, failing fast with notice
    /// and status when no model resolves; a plain job starts at once, a
    /// retrieval-augmented one first needs context.
    pub fn handle_job_request(
        &mut self,
        req: &JobRequest,
        workspace: &str,
        state: &ModelState,
        model_files: &Vec<String>,
        em_model_files: &Vec<String>,
    ) -> (r: (String, JobOutcome))
        ensures
            r.0@.len() == 36,
            ({
                let job_id = r.0;
                let resolved = crate::command::spec_resolved_model(
                    crate::command::opt_view(req.model_name),
                    workspace@,
                    crate::command::opt_view(state.model_name),
                    model_files@.map_values(|f: String| f@),
                );
                let rag = crate::command::spec_starts_with(
                    req.prompt@,
                    crate::command::rag_prefix(),
                );
                let em_ok = crate::command::spec_em_available(
                    crate::command::opt_view(state.em_model_name),
                    em_model_files@.map_values(|f: String| f@),
                );
                match r.1 {
                    JobOutcome::Busy { status } => {
                        &&& old(self).active_job is Some
                        &&& *final(self) == *old(self)
                        &&& status.job_id@ == job_id@
                        &&& status.status@ == spec_status_busy()
                    },
                    JobOutcome::Rejected { notice, status } => {
                        &&& old(self).active_job is None
                        &&& final(self).active_job is None
                        &&& status.job_id@ == job_id@
                        &&& if resolved is None {
                            status.status@ == spec_status_construct_failed(
                                "No language model found"@,
                            ) && notice@
                                == "No language model found. Please provide a language model."@
                        } else {
                            rag && !em_ok && status.status@ == spec_status_construct_failed(
                                "No embedding model found"@,
                            ) && notice@
                                == "Cannot perform RAG: No embedding model found. Please download an embedding model first."@
                        }
                    },
                    JobOutcome::LaunchPlain { status, model_path } => {
                        &&& old(self).active_job is None
                        &&& crate::command::opt_view(final(self).active_job) == Some(job_id@)
                        &&& !rag
                        &&& Some(model_path@) == resolved
                        &&& status.job_id@ == job_id@
                        &&& status.status@ == spec_status_started()
                    },
                    JobOutcome::NeedContext { model_path, query } => {
                        &&& old(self).active_job is None
                        &&& crate::command::opt_view(final(self).active_job) == Some(job_id@)
                        &&& rag && em_ok
                        &&& Some(model_path@) == resolved
                        &&& query@ == req.prompt@.subrange(4, req.prompt@.len() as int)
                    },
                }
            }),
    {
        let job_id = new_job_id();
        let outcome = match &self.active_job {
            Some(_) => {
                JobOutcome::Busy {
                    status: JobStatus {
                        job_id: job_id.clone(),
                        status: "failed to start: a job is already running".to_owned(),
                    },
                }
            },
            None => {
                match plan_job(req, workspace, state, model_files, em_model_files) {
                    Err(e) => {
                        let status = status_construct_failed(job_id.as_str(), e.message.as_str());
                        JobOutcome::Rejected { notice: e.notice, status }
                    },
                    Ok(JobDecision::Plain { model_path }) => {
                        self.active_job = Some(job_id.clone());
                        JobOutcome::LaunchPlain {
                            status: status_started(job_id.as_str()),
                            model_path,
                        }
                    },
                    Ok(JobDecision::Rag { model_path, query }) => {
                        self.active_job = Some(job_id.clone());
                        JobOutcome::NeedContext { model_path, query }
                    },
                }
            },
        };
        (job_id, outcome)
    }

    /// Context gathering finished for the in-flight job: announce it
    /// started. The command is then built from the augmented prompt.
    pub fn job_context_ready(&self, job_id: &str) -> (r: JobStatus)
        ensures
            r.job_id@ == job_id@,
            r.status@ == spec_status_started(),
    {
        status_started(job_id)
    }

    /// Context gathering or command construction failed after the request
    /// was accepted: the job is over, with a construction-failure status.
    pub fn job_construct_failed(&mut self, job_id: &str, desc: &str) -> (r: JobStatus)
        ensures
            final(self).active_job is None,
            r.job_id@ == job_id@,
            r.status@ == spec_status_construct_failed(desc@),
    {
        self.active_job = None;
        status_construct_failed(job_id, desc)
    }

    /// The subprocess would not spawn: the job is over, with a
    /// spawn-failure status.
    pub fn job_spawn_failed(&mut self, job_id: &str, err: &str) -> (r: JobStatus)
        ensures
            final(self).active_job is None,
            r.job_id@ == job_id@,
            r.status@ == spec_status_spawn_failed(err@),
    {
        self.active_job = None;
        status_spawn_failed(job_id, err)
    }

    /// The subprocess exited: the job is over, with its completion status
    /// carrying the exit description.
    pub fn job_exited(&mut self, job_id: &str, desc: &str) -> (r: JobStatus)
        ensures
            final(self).active_job is None,
            r.job_id@ == job_id@,
            r.status@ == spec_status_completed(desc@),
    {
        self.active_job = None;
        status_completed(job_id, desc)
    }
}

/// Relies on `uuid::Uuid::new_v4` and its `Display` form: a random v4 UUID
/// rendered as the 36-character hyphenated text. Nothing else can be
/// promised of a random identifier.
#[verifier::external_body]
fn new_job_id() -> (r: String)
    ensures
        r@.len() == 36,
{
    uuid::Uuid::new_v4().to_string()
}

} // verus!
