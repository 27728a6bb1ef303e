//! The immutable configuration snapshot handed to every component.
//!
//! Loading the file from disk is the caller's concern; the library only
//! consumes the loaded values.

use vstd::prelude::*;

verus! {

/// One authentication backend: whether it is enabled and where it lives.
#[derive(Clone)]
pub struct AuthenticationMethod {
    pub enabled: bool,
    pub url: String,
}

/// The authentication section: per-backend settings and whether
/// authentication is required at all.
#[derive(Clone)]
pub struct Authentication {
    pub legacy: AuthenticationMethod,
    pub microsoft: AuthenticationMethod,
    pub required: bool,
    pub yggdrasil: AuthenticationMethod,
}

/// The server-list description of this server.
#[derive(Clone)]
pub struct Minecraft {
    pub max_players: i32,
    pub motd: String,
}

/// Where the listening socket binds.
#[derive(Clone)]
pub struct Network {
    pub bind: String,
    pub port: u16,
}

/// The allow-list gating login completion.
#[derive(Clone)]
pub struct Whitelist {
    pub enabled: bool,
    pub list: Vec<String>,
}

/// The whole configuration snapshot, immutable after load.
#[derive(Clone)]
pub struct Config {
    pub authentication: Authentication,
    pub minecraft: Minecraft,
    pub network: Network,
    pub whitelist: Whitelist,
}

} // verus!
