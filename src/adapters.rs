//! Selection of the transport that delivers a run's transactions.

use crate::autobahn::AutobahnAdapter;
use crate::common::{RoundResults, TestrpcError};
use crate::config::{Adapter, Config};
use crate::runner::{mock_endpoint, mock_endpoints};
use crate::hotshot::HotshotAdapter;
use crate::runner::DeliveryRequest;
use vstd::prelude::*;
use vstd::string::StringExecFns;

verus! {

/// A transport that can deliver transactions.
pub enum AdapterImpl {
    Hotshot(HotshotAdapter),
    Autobahn(AutobahnAdapter),
}

/// Whether the library has a transport for `a`.
pub open spec fn is_supported(a: Adapter) -> bool {
    a != Adapter::Libp2p
}

/// The transport for the configured adapter.
pub fn new_adapter(adapter_cfg: Adapter) -> (r: Result<AdapterImpl, TestrpcError>)
    ensures
        is_supported(adapter_cfg) <==> r is Ok,
        adapter_cfg == Adapter::Hotshot ==> (r matches Ok(AdapterImpl::Hotshot(_))),
        adapter_cfg == Adapter::Autobahn ==> (r matches Ok(AdapterImpl::Autobahn(_))),
        r is Err ==> (r matches Err(TestrpcError::UnsupportedAdapter(m)) && m@ == "libp2p"@),
{
    match adapter_cfg {
        Adapter::Hotshot => Ok(AdapterImpl::Hotshot(HotshotAdapter::new())),
        Adapter::Autobahn => Ok(AdapterImpl::Autobahn(AutobahnAdapter::new())),
        Adapter::Libp2p => Err(TestrpcError::UnsupportedAdapter(String::from_str("libp2p"))),
    }
}

impl AdapterImpl {
    /// Outcome of a delivery in dry-run mode: nothing is opened or sent, and
    /// every transaction counts as sent.
    pub fn dry_run_delivery(&self, req: &DeliveryRequest) -> (r: RoundResults)
        ensures
            r == (RoundResults { sent: req.num_txs, failed: 0 }),
    {
        RoundResults { sent: req.num_txs, failed: 0 }
    }
}


/// Where a run's endpoints come from.
pub enum EndpointSource {
    /// The configuration lists them.
    Explicit(Vec<String>),
    /// Stand-ins for a dry run.
    Mock(Vec<String>),
    /// The adapter discovers them.
    Discover(AdapterImpl),
}

/// Number of stand-in endpoints when the configuration expects none.
pub const DEFAULT_MOCK_NODES: usize = 4;

/// Decides where the endpoints come from: the configuration's list if any;
/// else stand-ins when a dry run asks for them; else the adapter's
/// discovery, which needs a supported adapter.
pub fn endpoint_source(cfg: &Config, dry_run: bool, gen_mock_rpcs: bool) -> (r: Result<
    EndpointSource,
    TestrpcError,
>)
    ensures
        cfg.rpcs matches Some(v) ==> (r matches Ok(EndpointSource::Explicit(w)) && w@ == v@),
        cfg.rpcs is None && dry_run && gen_mock_rpcs ==> ({
            let n = match cfg.num_of_nodes {
                Some(n) => n,
                None => DEFAULT_MOCK_NODES,
            };
            if n + 5000 <= u64::MAX {
                r matches Ok(EndpointSource::Mock(w)) && w@.len() == n && forall|i: int|
                    0 <= i < n ==> (#[trigger] w@[i])@ == mock_endpoint(i as nat)
            } else {
                r matches Err(TestrpcError::ExecutionError(_))
            }
        }),
        cfg.rpcs is None && !(dry_run && gen_mock_rpcs) ==> (is_supported(cfg.adapter) <==> r matches Ok(
            EndpointSource::Discover(_),
        )),
        cfg.rpcs is None && !(dry_run && gen_mock_rpcs) && !is_supported(cfg.adapter) ==> (r matches Err(
            TestrpcError::UnsupportedAdapter(_),
        )),
{
    if let Some(rpcs) = &cfg.rpcs {
        return Ok(EndpointSource::Explicit(rpcs.clone()));
    }
    if dry_run && gen_mock_rpcs {
        let n = match cfg.num_of_nodes {
            Some(n) => n,
            None => DEFAULT_MOCK_NODES,
        };
        if n as u64 > u64::MAX - 5000 {
            return Err(TestrpcError::ExecutionError(String::from_str("too many stand-in endpoints")));
        }
        return Ok(EndpointSource::Mock(mock_endpoints(n)));
    }
    match new_adapter(cfg.adapter) {
        Ok(a) => Ok(EndpointSource::Discover(a)),
        Err(e) => Err(e),
    }
}

} // verus!
