//! What the server decides when it starts.

use vstd::prelude::*;
use vstd::string::*;

use crate::order;
use crate::text;

verus! {

/// Whether the keys that the configuration asks for are missing.
pub fn credentials_missing(no_auth: bool, access_key: &str, secret_key: &str) -> (r: bool)
    ensures
        r == (!no_auth && (access_key@.len() == 0 || secret_key@.len() == 0)),
{
    !no_auth && (access_key.is_empty() || secret_key.is_empty())
}

/// The addresses of the other nodes among the first `n`, without trailing slashes.
pub open spec fn others(nodes: Seq<Seq<char>>, advertise: Seq<char>, n: nat) -> Seq<Seq<char>>
    decreases n,
{
    if n == 0 {
        Seq::empty()
    } else {
        let before = others(nodes, advertise, (n - 1) as nat);
        let address = text::without_trailing(nodes[n - 1], '/');
        if address.len() == 0 || address == text::without_trailing(advertise, '/') {
            before
        } else {
            before.push(address)
        }
    }
}

/// The nodes that keep copies of the write cache: all but this one.
pub fn cache_peers(nodes: &Vec<String>, advertise: &str) -> (r: Vec<String>)
    ensures
        order::views(r@) == others(order::views(nodes@), advertise@, nodes@.len()),
{
    let own = text::trim_end_char(advertise, '/');
    let ghost all = order::views(nodes@);
    let mut out: Vec<String> = Vec::new();
    let mut i: usize = 0;
    assert(order::views(out@) =~= Seq::<Seq<char>>::empty());
    while i < nodes.len()
        invariant
            i <= nodes@.len(),
            all == order::views(nodes@),
            own@ == text::without_trailing(advertise@, '/'),
            order::views(out@) == others(all, advertise@, i as nat),
        decreases nodes@.len() - i,
    {
        let ghost before = order::views(out@);
        let address = text::trim_end_char(nodes[i].as_str(), '/');
        if !address.is_empty() && !text::str_eq(address, own) {
            out.push(address.to_owned());
            assert(order::views(out@) =~= before.push(address@));
        }
        i = i + 1;
    }
    out
}

/// The address to listen on: all interfaces where only a port is given.
pub fn listen_address(listen: &str) -> (r: String)
    ensures
        r@ == (if text::has_prefix(listen@, ":"@) {
            "0.0.0.0"@ + listen@
        } else {
            listen@
        }),
{
    if text::starts_with(listen, ":") {
        let mut out = "0.0.0.0".to_owned();
        out.append(listen);
        out
    } else {
        listen.to_owned()
    }
}

} // verus!
