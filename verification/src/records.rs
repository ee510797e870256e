//! Plain records of what the host reports: containers, images, volumes,
//! deploy artifacts, resource usage, and the configured policy.

use vstd::prelude::*;

verus! {

/// One port of a container and the host port it is published on.
#[derive(Clone, Copy, Debug, PartialEq, Eq, Structural)]
pub struct PortBinding {
    pub private_port: i64,
    pub public_port: Option<i64>,
}

/// A container as the runtime lists it.
#[derive(Clone, Debug, PartialEq, Eq)]
pub struct ContainerRecord {
    pub id: String,
    pub names: Vec<String>,
    pub status: String,
    pub image: String,
    pub ports: Vec<PortBinding>,
}

/// An image as the runtime lists it; `created` is in seconds since the
/// epoch.
#[derive(Clone, Debug, PartialEq, Eq)]
pub struct ImageRecord {
    pub id: String,
    pub repo_tags: Vec<String>,
    pub created: i64,
}

/// An entry of a deploy directory; `last_modified` is in seconds since
/// the epoch.
#[derive(Clone, Debug, PartialEq, Eq)]
pub struct DeployArtifact {
    pub path: String,
    pub last_modified: u64,
}

/// Usage of the host at one moment. Each share is in hundredths of a
/// percent, so 10000 is the whole; `taken_at` is in seconds since the
/// epoch.
#[derive(Clone, Copy, Debug, PartialEq, Eq, Structural)]
pub struct ResourceSnapshot {
    pub cpu: u32,
    pub mem: u32,
    pub disk: u32,
    pub taken_at: u64,
}

/// How many days each kind of resource is kept.
#[derive(Clone, Copy, Debug, PartialEq, Eq, Structural)]
pub struct Lifecycle {
    pub container: u64,
    pub pkg: u64,
    pub release: u64,
    pub image_created: u64,
}

/// The policy that the guardian runs under. The limits are in
/// hundredths of a percent, as the shares of a `ResourceSnapshot` are.
#[derive(Clone, Debug, PartialEq, Eq)]
pub struct Config {
    pub notify_webhook: String,
    pub cpu_limit: u32,
    pub mem_limit: u32,
    pub serv_url: String,
    pub department_id: u32,
    pub lifecycle: Lifecycle,
}

/// The age in seconds at which something kept for `days` days is due,
/// as a mathematical integer.
pub open spec fn retention_seconds(days: u64) -> nat {
    days as nat * 86_400
}

/// A failed call to the container runtime, by the kind of failure.
#[derive(Clone, Debug, PartialEq, Eq)]
pub enum ExternalCallError {
    /// The runtime answered with a status from 500 to 599.
    ServerError(String),
    /// Anything else went wrong.
    Other(String),
}

/// Whether a status code reports a failure on the server's side.
pub open spec fn is_server_status(status_code: u16) -> bool {
    500 <= status_code <= 599
}

/// Sorts a failed call by the status code of the answer, if there was
/// an answer, and keeps its message.
pub fn classify_failure(status_code: Option<u16>, message: String) -> (e: ExternalCallError)
    ensures
        e == (if status_code is Some && is_server_status(status_code->0) {
            ExternalCallError::ServerError(message)
        } else {
            ExternalCallError::Other(message)
        }),
{
    match status_code {
        Some(code) => {
            if 500 <= code && code <= 599 {
                ExternalCallError::ServerError(message)
            } else {
                ExternalCallError::Other(message)
            }
        },
        None => ExternalCallError::Other(message),
    }
}

} // verus!
