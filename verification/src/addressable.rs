//! The computable heart of address resolution: the in-cluster URL under
//! which a service is addressable.  Reading cluster configuration and
//! talking to the API server stay with the surrounding application; this
//! module only builds the address from the plain values they supply.

use vstd::prelude::*;
use vstd::string::StringExecFns;

verus! {

/// The URL string under which a service is addressable inside the
/// cluster: `scheme://name.namespace.svc.cluster_host`.
pub fn service_address(scheme: &str, name: &str, namespace: &str, cluster_host: &str) -> (r:
    String)
    ensures
        r@ == scheme@ + "://"@ + name@ + "."@ + namespace@ + ".svc."@ + cluster_host@,
{
    let mut address = String::from_str(scheme);
    address.append("://");
    address.append(name);
    address.append(".");
    address.append(namespace);
    address.append(".svc.");
    address.append(cluster_host);
    address
}

} // verus!
