//! Sizing of the encode worker pool and of the channels around a session.

use vstd::prelude::*;
use vstd::string::StrSliceExecFns;

verus! {

/// Capacity of the host-to-engine control queue.
pub const CONTROL_QUEUE_CAPACITY: usize = 16;

/// Capacity of the engine-to-host event queue.
pub const EVENT_QUEUE_CAPACITY: usize = 32;

/// Workers used when the machine's parallelism gives fewer than one.
pub const FALLBACK_WORKERS: usize = 4;

/// Number of encode workers for a machine that runs `available` threads in
/// parallel: one for every eight, or `FALLBACK_WORKERS` when that is zero.
pub fn worker_count(available: usize) -> (r: usize)
    ensures
        available / 8 == 0 ==> r == FALLBACK_WORKERS,
        available / 8 > 0 ==> r == available / 8,
        r > 0,
{
    let n = available / 8;
    if n == 0 {
        FALLBACK_WORKERS
    } else {
        n
    }
}

/// Where a session connects to.
#[derive(Debug)]
pub enum Endpoint {
    /// A local domain socket at this path.
    Unix(String),
    /// A host name or address with a port, for TCP.
    Tcp(String),
}

/// Classifies an address: one that starts with `/` is a local socket path,
/// anything else a TCP host.
pub fn classify_address(addr: String) -> (r: Endpoint)
    ensures
        addr@.len() > 0 && addr@[0] == '/' ==> (r matches Endpoint::Unix(p) && p@ == addr@),
        !(addr@.len() > 0 && addr@[0] == '/') ==> (r matches Endpoint::Tcp(h) && h@ == addr@),
{
    let is_path = !addr.as_str().is_empty() && addr.as_str().get_char(0) == '/';
    if is_path {
        Endpoint::Unix(addr)
    } else {
        Endpoint::Tcp(addr)
    }
}

} // verus!
