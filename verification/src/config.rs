//! Settings that take effect at once and are also kept in the configuration.

use vstd::prelude::*;
use crate::models::AppConfig;
use crate::proxy::{self, ProxyRuntime};

verus! {

/// Sets the proxy port both for the next start and in the configuration.
pub fn set_proxy_port(rt: &mut ProxyRuntime, config: &mut AppConfig, port: u16) -> (r: Result<(), String>)
    ensures
        r is Ok,
        *final(rt) == (ProxyRuntime { port, ..*old(rt) }),
        *final(config) == (AppConfig { proxy_port: port, ..*old(config) }),
{
    proxy::set_proxy_port_static(rt, port);
    config.proxy_port = port;
    Ok(())
}

/// Sets the proxy bind address both for the next start and in the configuration.
pub fn set_proxy_host(rt: &mut ProxyRuntime, config: &mut AppConfig, host: String) -> (r: Result<(), String>)
    ensures
        r is Ok,
        *final(rt) == (ProxyRuntime { host, ..*old(rt) }),
        *final(config) == (AppConfig { proxy_host: host, ..*old(config) }),
{
    proxy::set_proxy_host_static(rt, host.clone());
    config.proxy_host = host;
    Ok(())
}

} // verus!
