//! Records of a network speed measurement and where they are stored.

use vstd::prelude::*;

verus! {

/// The network interface a measurement ran on.
pub struct Interface {
    pub internal_ip: String,
    pub mac_addr: String,
}

/// Where the measurement's result can be seen.
pub struct ResultMetadata {
    pub url: String,
}

/// The server measured against.
pub struct Server {
    pub host: String,
    pub location: String,
}

/// How to reach the time-series database the measurements go to.
#[derive(Clone)]
pub struct ConnectionParams {
    pub url: String,
    pub username: String,
    pub password: String,
    pub database: String,
}

} // verus!
