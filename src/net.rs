//! Choice of the endpoint among the addresses a host name resolved to.

use vstd::prelude::*;

use crate::errors::AppError;

verus! {

/// One address that a name resolved to.
#[derive(Debug, Clone, Copy, PartialEq, Eq, Structural)]
pub enum ResolvedAddr {
    /// An IPv4 address, its first octet the most significant, and port.
    V4 { ip: u32, port: u16 },
    /// An IPv6 address; only its port is kept.
    V6 { port: u16 },
}

/// The endpoint that sockets connect or bind to: an IPv4 address, its first
/// octet the most significant, and a port.
#[derive(Debug, Clone, Copy, PartialEq, Eq, Structural)]
pub struct Endpoint {
    pub ip: u32,
    pub port: u16,
}

/// Picks the endpoint for `addr` among the addresses it resolved to: the first
/// one, which must be IPv4. Also tells whether there were several, which
/// deserves a warning.
///
/// Fails with `UnableToResolveNetAddr(addr, "Host not found")` when there is
/// none, and with `NotImplemented("ipv6")` when the first one is IPv6.
pub fn get_sockaddr(addr: &str, resolved: &Vec<ResolvedAddr>) -> (r: Result<(Endpoint, bool), AppError>)
    ensures
        resolved@.len() == 0 ==> (r matches Err(AppError::UnableToResolveNetAddr(a, cause)) && a@
            == addr@ && cause@ == "Host not found"@),
        resolved@.len() > 0 && resolved@[0] is V6 ==> (r matches Err(AppError::NotImplemented(what))
            && what@ == "ipv6"@),
        resolved@.len() > 0 ==> (resolved@[0] matches ResolvedAddr::V4 { ip, port } ==> r == Ok::<
            (Endpoint, bool),
            AppError,
        >((Endpoint { ip, port }, resolved@.len() > 1))),
{
    if resolved.len() == 0 {
        return Err(AppError::UnableToResolveNetAddr(addr.to_owned(), "Host not found".to_owned()));
    }
    match resolved[0] {
        ResolvedAddr::V4 { ip, port } => Ok((Endpoint { ip, port }, resolved.len() > 1)),
        ResolvedAddr::V6 { .. } => Err(AppError::NotImplemented("ipv6")),
    }
}

} // verus!
