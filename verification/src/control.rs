//! Control socket — line-JSON over a Unix socket, queried by
//! `tord query` / `tord-query`.

use vstd::prelude::*;

verus! {

pub const DEFAULT_SOCKET: &'static str = "/run/tord.sock";

} // verus!
