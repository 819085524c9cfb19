//! Registration of the server's metric collectors.

use vstd::prelude::*;

use prometheus::Registry;

verus! {

#[verifier::external_type_specification]
#[verifier::external_body]
pub struct ExRegistry(Registry);

#[verifier::external_type_specification]
#[verifier::external_body]
pub struct ExPrometheusError(prometheus::Error);

/// A metric collector of any kind. A trait object cannot be declared to the
/// verifier, so the handle is opaque to it.
#[verifier::external_body]
pub struct MetricHandle {
    pub collector: Box<dyn prometheus::core::Collector>,
}

/// A collector that the registry refused, by its position in the list.
#[derive(Clone, Copy, Debug, PartialEq, Eq, Structural)]
pub struct MetricsError {
    pub index: usize,
}

/// Relies on prometheus's `Registry::register`, which takes the collector;
/// the registry decides whether to accept it.
#[verifier::external_body]
fn register(registry: &Registry, handle: MetricHandle) -> (r: Result<(), prometheus::Error>) {
    registry.register(handle.collector)
}

/// Registers the collectors in `registry` in order, stopping at the first
/// one that the registry refuses, whose position the error gives.
pub fn init_metrics(registry: &Registry, handles: Vec<MetricHandle>) -> (r: Result<(), MetricsError>)
    ensures
        handles@.len() == 0 ==> r is Ok,
        r matches Err(e) ==> e.index < handles@.len(),
{
    let ghost n = handles@.len();
    let mut rest = handles;
    let total: usize = rest.len();
    let mut i: usize = 0;
    while rest.len() > 0
        invariant
            n == handles@.len(),
            n == total,
            i + rest@.len() == n,
        decreases rest@.len(),
    {
        let handle = rest.remove(0);
        if register(registry, handle).is_err() {
            return Err(MetricsError { index: i });
        }
        i = i + 1;
    }
    Ok(())
}

} // verus!
