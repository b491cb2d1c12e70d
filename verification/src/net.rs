use vstd::prelude::*;

verus! {

/// One address of one network interface of the host.
pub struct NetworkInterface {
    pub name: String,
    pub ip: String,
    pub is_ipv6: bool,
    pub is_loopback: bool,
}

} // verus!
