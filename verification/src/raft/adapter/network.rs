//! Addresses of the Raft calls between nodes.

use vstd::prelude::*;
use vstd::string::*;

use crate::text;

verus! {

/// Where a call of the given name is sent.
pub open spec fn rpc_address(cluster_address: Seq<char>, route: Seq<char>) -> Seq<char> {
    text::without_trailing(cluster_address, '/') + "/_storage/v1/raft/"@ + route
}

/// Where a call of the given name is sent: below the node's cluster address, with one
/// slash between.
pub fn rpc_url(cluster_address: &str, route: &str) -> (r: String)
    ensures
        r@ == rpc_address(cluster_address@, route@),
{
    let mut out = text::trim_end_char(cluster_address, '/').to_owned();
    out.append("/_storage/v1/raft/");
    out.append(route);
    out
}

} // verus!
