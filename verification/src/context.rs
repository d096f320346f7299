//! Where the process runs and what it knows: the execution node derived
//! from the host's name, the job id and how to obtain it, and the frontend
//! hostname used to jump into the cluster.

use vstd::prelude::*;

use crate::machine::Machine;
use crate::text::str_eq;

verus! {

/// Where the process is running.
#[derive(Debug, Clone, Copy, PartialEq, Eq, Hash, Structural)]
pub enum ExecutionNode {
    /// The cluster's gateway host.
    Frontend,
    /// A known cluster machine.
    Machine(Machine),
    /// Anywhere else; the cluster is reached through the frontend.
    Unknown,
}

/// A missing piece of runtime configuration.
#[derive(Debug, Clone, PartialEq, Eq, Structural)]
pub enum EnvironmentError {
    /// No job id was given and inference is disabled.
    MissingJobId,
    /// Inference found no running job.
    NoJobsRunning,
    /// Inference found more than one running job.
    MultipleJobsRunning,
    /// The frontend hostname is needed but not set.
    MissingFrontendHostname,
}

impl EnvironmentError {
    /// The user-facing description of the error.
    pub fn message(&self) -> (r: String)
        ensures
            *self is MissingJobId ==> r@ == "missing job id"@,
            *self is NoJobsRunning ==> r@ == "cannot infer job id, no jobs are running"@,
            *self is MultipleJobsRunning ==> r@
                == "cannot infer job id, multiple jobs are running"@,
            *self is MissingFrontendHostname ==> r@ == "missing frontend hostname"@,
    {
        match self {
            EnvironmentError::MissingJobId => String::from_str("missing job id"),
            EnvironmentError::NoJobsRunning => String::from_str(
                "cannot infer job id, no jobs are running",
            ),
            EnvironmentError::MultipleJobsRunning => String::from_str(
                "cannot infer job id, multiple jobs are running",
            ),
            EnvironmentError::MissingFrontendHostname => String::from_str(
                "missing frontend hostname",
            ),
        }
    }
}

/// The node a host name denotes: the frontend by its literal name, a
/// cluster machine by registry lookup, anything else unknown.
pub open spec fn spec_execution_node(s: Seq<char>) -> ExecutionNode {
    if s == "frontend"@ {
        ExecutionNode::Frontend
    } else {
        match Machine::spec_from_hostname(s) {
            Some(m) => ExecutionNode::Machine(m),
            None => ExecutionNode::Unknown,
        }
    }
}

/// Maps a host name to the execution node it denotes.
pub fn execution_node_from_hostname(hostname: &str) -> (r: ExecutionNode)
    ensures
        r == spec_execution_node(hostname@),
{
    if str_eq(hostname, "frontend") {
        ExecutionNode::Frontend
    } else {
        match Machine::from_hostname(hostname) {
            Some(m) => ExecutionNode::Machine(m),
            None => ExecutionNode::Unknown,
        }
    }
}

/// How the job id is to be obtained.
#[derive(Debug, Clone, Copy, PartialEq, Eq, Structural)]
pub enum JobIdDecision {
    /// The id was given explicitly.
    Provided(u32),
    /// Ask the scheduler for the caller's running jobs.
    Infer,
    /// No id, and inference is disabled.
    Missing,
}

/// The immutable runtime facts the remote executor works from.
#[derive(Debug, Clone)]
pub struct Context {
    pub node: ExecutionNode,
    pub job_id: Option<u32>,
    pub infer_job_id: bool,
    pub frontend_hostname: Option<String>,
}

impl Context {
    /// The explicitly given job id, if any.
    pub open spec fn spec_job_id(&self) -> Option<u32> {
        self.job_id
    }

    /// Whether a missing job id may be inferred from the scheduler.
    pub open spec fn spec_infer_job_id(&self) -> bool {
        self.infer_job_id
    }

    /// The configured frontend hostname, if any.
    pub open spec fn spec_frontend_hostname(&self) -> Option<Seq<char>> {
        match self.frontend_hostname {
            Some(h) => Some(h@),
            None => None,
        }
    }

    /// Assembles a context from the detected node and the configuration.
    pub fn new(
        node: ExecutionNode,
        job_id: Option<u32>,
        infer_job_id: bool,
        frontend_hostname: Option<String>,
    ) -> (r: Context)
        ensures
            r.node == node,
            r.spec_job_id() == job_id,
            r.spec_infer_job_id() == infer_job_id,
            frontend_hostname matches Some(h) ==> r.spec_frontend_hostname() == Some(h@),
            frontend_hostname is None ==> r.spec_frontend_hostname() is None,
    {
        Context { node, job_id, infer_job_id, frontend_hostname }
    }

    /// The frontend hostname, or the error that it is missing.
    pub fn frontend_hostname(&self) -> (r: Result<&str, EnvironmentError>)
        ensures
            self.spec_frontend_hostname() matches Some(h) ==> (r matches Ok(s) && s@ == h),
            self.spec_frontend_hostname() is None ==> (r matches Err(e) && e
                == EnvironmentError::MissingFrontendHostname),
    {
        match &self.frontend_hostname {
            Some(h) => Ok(h.as_str()),
            None => Err(EnvironmentError::MissingFrontendHostname),
        }
    }

    /// How the job id is to be obtained: the explicit id wins, inference
    /// is next, otherwise it is missing.
    pub fn job_id_decision(&self) -> (r: JobIdDecision)
        ensures
            self.spec_job_id() matches Some(id) ==> r == JobIdDecision::Provided(id),
            self.spec_job_id() is None && self.spec_infer_job_id() ==> r
                == JobIdDecision::Infer,
            self.spec_job_id() is None && !self.spec_infer_job_id() ==> r
                == JobIdDecision::Missing,
    {
        match self.job_id {
            Some(id) => JobIdDecision::Provided(id),
            None => {
                if self.infer_job_id {
                    JobIdDecision::Infer
                } else {
                    JobIdDecision::Missing
                }
            },
        }
    }
}

/// Picks the job id from the scheduler's list of running jobs: exactly one
/// running job names the id; none or several is an error.
pub fn job_id_from_listed(ids: &Vec<u32>) -> (r: Result<u32, EnvironmentError>)
    ensures
        ids@.len() == 1 ==> r == Ok::<u32, EnvironmentError>(ids@[0]),
        ids@.len() == 0 ==> r == Err::<u32, EnvironmentError>(EnvironmentError::NoJobsRunning),
        ids@.len() > 1 ==> r == Err::<u32, EnvironmentError>(
            EnvironmentError::MultipleJobsRunning,
        ),
{
    if ids.len() == 0 {
        Err(EnvironmentError::NoJobsRunning)
    } else if ids.len() == 1 {
        Ok(ids[0])
    } else {
        Err(EnvironmentError::MultipleJobsRunning)
    }
}

} // verus!
