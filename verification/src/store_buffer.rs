//! The buffer fallback: when every delivery attempt has failed, a configured
//! buffer file absorbs the record — the caller then sees success — and
//! without one the terminal error is surfaced unchanged.

use vstd::prelude::*;
use crate::error::FluentError;
use crate::retry::{deliver_plan, invocations_spec, AttemptOutcome};
use crate::retry_conf::RetryConf;

verus! {

/// What to do with a record whose delivery is exhausted.
pub enum BufferPlan {
    /// Append these bytes durably to the file at this path, and report the
    /// overall post as successful.
    Persist { path: String, bytes: Vec<u8> },
    /// No buffer file is configured: surface the terminal error unchanged.
    Surface(FluentError),
}

/// Decide the fate of an undeliverable record: buffer it when a buffer path
/// is configured, otherwise propagate the terminal error exactly as it was
/// observed.
pub fn maybe_write_records(conf: &RetryConf, encoded: Vec<u8>, error: FluentError) -> (p:
    BufferPlan)
    ensures
        conf.buffer_path is Some ==> (p matches BufferPlan::Persist { path, bytes }
            && path == conf.buffer_path->Some_0 && bytes == encoded),
        conf.buffer_path is None ==> p == BufferPlan::Surface(error),
{
    match &conf.buffer_path {
        Some(path) => BufferPlan::Persist { path: path.clone(), bytes: encoded },
        None => BufferPlan::Surface(error),
    }
}

/// What a whole post comes to.
pub struct PostPlan {
    /// What the caller of the post observes: a successful buffering absorbs
    /// the delivery failure.
    pub outcome: Result<(), FluentError>,
    /// The durable append still to perform when buffering absorbed the
    /// failure: the configured path and the exact encoded record.
    pub persist: Option<(String, Vec<u8>)>,
}

/// The whole post pipeline, run against a fixed script of attempt outcomes:
/// deliver under the bounded retry schedule; on exhaustion, hand the record
/// to the buffer and report success, or — with no buffer configured —
/// surface the last observed failure unchanged.
pub fn post_plan(conf: &RetryConf, encoded: Vec<u8>, outcomes: &Vec<AttemptOutcome>) -> (r:
    PostPlan)
    requires
        conf.wf(),
        outcomes@.len() >= conf.max_attempts,
    ensures
        ({
            let inv = invocations_spec(outcomes@, conf.max_attempts as nat);
            &&& (outcomes@[inv - 1] is Delivered ==> r.outcome is Ok && r.persist is None)
            &&& (!(outcomes@[inv - 1] is Delivered) && conf.buffer_path is Some ==> r.outcome is Ok
                && r.persist == Some((conf.buffer_path->Some_0, encoded)))
            &&& (!(outcomes@[inv - 1] is Delivered) && conf.buffer_path is None ==> r.persist
                is None && (r.outcome matches Err(e) && outcomes@[inv - 1]
                == AttemptOutcome::Failed(e)))
        }),
{
    let report = deliver_plan(conf, outcomes);
    match report.outcome {
        Ok(()) => PostPlan { outcome: Ok(()), persist: None },
        Err(e) => match maybe_write_records(conf, encoded, e) {
            BufferPlan::Persist { path, bytes } => PostPlan {
                outcome: Ok(()),
                persist: Some((path, bytes)),
            },
            BufferPlan::Surface(err) => PostPlan { outcome: Err(err), persist: None },
        },
    }
}

} // verus!
