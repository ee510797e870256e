//! The deployed instance behind a container: who owns it and where it
//! is deployed from.

use vstd::prelude::*;
use crate::records::PortBinding;

verus! {

/// Settings that a deployed instance was made with.
#[derive(Clone, Debug, PartialEq, Eq)]
pub struct InstanceConfig {
    pub base_url: String,
    pub volume: String,
}

/// The deployment that a container belongs to.
#[derive(Clone, Debug, PartialEq, Eq)]
pub struct Instance {
    pub owner: String,
    pub deploy_dir: String,
    pub config: InstanceConfig,
}

/// Why the owner of a container could not be found.
#[derive(Clone, Copy, Debug, PartialEq, Eq, Structural)]
pub enum ResolutionError {
    /// The secure port of the container is not published on the host.
    NoPublicPort,
    /// No deployment is recorded for the published port.
    DeployDirNotFound,
    /// A lookup outside this library failed.
    LookupFailed,
}

impl Default for InstanceConfig {
    fn default() -> (c: InstanceConfig)
        ensures
            c.base_url@.len() == 0,
            c.volume@.len() == 0,
    {
        InstanceConfig { base_url: String::new(), volume: String::new() }
    }
}

impl Default for Instance {
    fn default() -> (inst: Instance)
        ensures
            inst.owner@.len() == 0,
            inst.deploy_dir@.len() == 0,
            inst.config.base_url@.len() == 0,
            inst.config.volume@.len() == 0,
    {
        Instance {
            owner: String::new(),
            deploy_dir: String::new(),
            config: InstanceConfig { base_url: String::new(), volume: String::new() },
        }
    }
}

/// The container port that instances serve on.
pub const HTTPS_PORT: i64 = 443;

/// The host port that the secure port is published on, going through
/// the bindings in order: the last binding of port 443 decides, 0
/// stands for none, and a binding of port 443 without a host port is
/// an error.
pub open spec fn published_https_port(ports: Seq<PortBinding>) -> Result<i64, ResolutionError>
    decreases ports.len(),
{
    if ports.len() == 0 {
        Ok(0)
    } else {
        match published_https_port(ports.drop_last()) {
            Err(e) => Err(e),
            Ok(p) => if ports.last().private_port == 443 {
                match ports.last().public_port {
                    Some(q) => Ok(q),
                    None => Err(ResolutionError::NoPublicPort),
                }
            } else {
                Ok(p)
            },
        }
    }
}

/// The host port by which a container's deployment is looked up.
pub fn https_port(ports: &Vec<PortBinding>) -> (r: Result<i64, ResolutionError>)
    ensures
        r == published_https_port(ports@),
{
    let mut port: i64 = 0;
    let mut k: usize = 0;
    assert(ports@.subrange(0, 0) =~= Seq::<PortBinding>::empty());
    while k < ports.len()
        invariant
            k <= ports.len(),
            published_https_port(ports@.subrange(0, k as int)) == Ok::<i64, ResolutionError>(port),
        decreases ports.len() - k,
    {
        assert(ports@.subrange(0, k + 1).drop_last() =~= ports@.subrange(0, k as int));
        if ports[k].private_port == HTTPS_PORT {
            match ports[k].public_port {
                Some(q) => {
                    port = q;
                },
                None => {
                    proof {
                        lemma_error_stays(ports@, k + 1);
                    }
                    return Err(ResolutionError::NoPublicPort);
                },
            }
        }
        k += 1;
    }
    assert(ports@.subrange(0, k as int) =~= ports@);
    Ok(port)
}

/// Once a beginning of the bindings is in error, the whole is.
proof fn lemma_error_stays(ports: Seq<PortBinding>, k: int)
    requires
        0 <= k <= ports.len(),
        published_https_port(ports.subrange(0, k)) is Err,
    ensures
        published_https_port(ports) == published_https_port(ports.subrange(0, k)),
    decreases ports.len() - k,
{
    if k == ports.len() {
        assert(ports.subrange(0, k) =~= ports);
    } else {
        assert(ports.subrange(0, k + 1).drop_last() =~= ports.subrange(0, k));
        lemma_error_stays(ports, k + 1);
    }
}

impl Instance {
    /// Puts together what the lookups found. A deployment without a
    /// directory is none; settings that could not be read are empty.
    pub fn new(owner: String, deploy_dir: String, config: Option<InstanceConfig>) -> (r: Result<
        Instance,
        ResolutionError,
    >)
        ensures
            deploy_dir@.len() == 0 ==> r == Err::<Instance, ResolutionError>(
                ResolutionError::DeployDirNotFound,
            ),
            deploy_dir@.len() > 0 ==> r is Ok && r->Ok_0.owner == owner && r->Ok_0.deploy_dir
                == deploy_dir,
            deploy_dir@.len() > 0 ==> match config {
                Some(c) => r->Ok_0.config == c,
                None => r->Ok_0.config.base_url@.len() == 0 && r->Ok_0.config.volume@.len() == 0,
            },
    {
        if deploy_dir.as_str().is_empty() {
            return Err(ResolutionError::DeployDirNotFound);
        }
        let config = match config {
            Some(c) => c,
            None => InstanceConfig::default(),
        };
        Ok(Instance { owner, deploy_dir, config })
    }
}

} // verus!
