//! Configuration of the RPC surface: which modules to install and the
//! builders that assemble and control the servers.
//!
//! The transports themselves (HTTP, WS, IPC) live outside this library; here
//! are the choices they are configured from.

use vstd::prelude::*;

verus! {

/// The RPC modules a node can expose.
#[derive(Clone, Copy, PartialEq, Eq, Structural, Debug)]
pub enum RethRpcModule {
    /// `admin_` module
    Admin,
    /// `debug_` module
    Debug,
    /// `eth_` module
    Eth,
    /// `net_` module
    Net,
    /// `trace_` module
    Trace,
    /// `web3_` module
    Web3,
}

/// The module named by a string, exactly the inverse of
/// [`RethRpcModule::as_str`].
pub open spec fn module_of_name(s: Seq<char>) -> Option<RethRpcModule> {
    if s == "admin"@ {
        Some(RethRpcModule::Admin)
    } else if s == "debug"@ {
        Some(RethRpcModule::Debug)
    } else if s == "eth"@ {
        Some(RethRpcModule::Eth)
    } else if s == "net"@ {
        Some(RethRpcModule::Net)
    } else if s == "trace"@ {
        Some(RethRpcModule::Trace)
    } else if s == "web3"@ {
        Some(RethRpcModule::Web3)
    } else {
        None
    }
}

/// The name of each module.
pub open spec fn name_of_module(m: RethRpcModule) -> Seq<char> {
    match m {
        RethRpcModule::Admin => "admin"@,
        RethRpcModule::Debug => "debug"@,
        RethRpcModule::Eth => "eth"@,
        RethRpcModule::Net => "net"@,
        RethRpcModule::Trace => "trace"@,
        RethRpcModule::Web3 => "web3"@,
    }
}

impl RethRpcModule {
    /// The module's name, as it appears in configuration and on the wire.
    pub fn as_str(&self) -> (r: &'static str)
        ensures
            r@ == name_of_module(*self),
    {
        match self {
            RethRpcModule::Admin => "admin",
            RethRpcModule::Debug => "debug",
            RethRpcModule::Eth => "eth",
            RethRpcModule::Net => "net",
            RethRpcModule::Trace => "trace",
            RethRpcModule::Web3 => "web3",
        }
    }

    /// The module's name as an owned string.
    pub fn to_string(&self) -> (r: String)
        ensures
            r@ == name_of_module(*self),
    {
        String::from_str(self.as_str())
    }

    /// Parse a module from its name: `Some` exactly on the six module names.
    pub fn from_name(s: &str) -> (r: Option<RethRpcModule>)
        ensures
            r == module_of_name(s@),
    {
        let owned = s.to_owned();
        if owned == String::from_str("admin") {
            Some(RethRpcModule::Admin)
        } else if owned == String::from_str("debug") {
            Some(RethRpcModule::Debug)
        } else if owned == String::from_str("eth") {
            Some(RethRpcModule::Eth)
        } else if owned == String::from_str("net") {
            Some(RethRpcModule::Net)
        } else if owned == String::from_str("trace") {
            Some(RethRpcModule::Trace)
        } else if owned == String::from_str("web3") {
            Some(RethRpcModule::Web3)
        } else {
            None
        }
    }
}

/// The error of parsing a string that names no RPC module.
#[derive(Clone, Copy, PartialEq, Eq, Structural, Debug)]
pub struct ParseRpcModuleError {}

impl core::str::FromStr for RethRpcModule {
    type Err = ParseRpcModuleError;

    fn from_str(s: &str) -> Result<RethRpcModule, ParseRpcModuleError> {
        match RethRpcModule::from_name(s) {
            Some(m) => Ok(m),
            None => Err(ParseRpcModuleError {  }),
        }
    }
}

/// Which RPC modules should be installed.
#[derive(Debug)]
pub enum RpcModuleConfig {
    /// Use all available modules.
    All,
    /// Only use the configured modules.
    Selection(Vec<RethRpcModule>),
}

impl Default for RpcModuleConfig {
    /// All modules, unless a selection is configured.
    fn default() -> (r: RpcModuleConfig)
        ensures
            r is All,
    {
        RpcModuleConfig::All
    }
}

/// A builder to configure the RPC module set over a client, a transaction
/// pool and a network handle, supplied externally.
#[derive(Debug)]
pub struct RpcModuleBuilder<Client, Pool, Network> {
    /// The client type used when creating the rpc handlers.
    pub client: Client,
    /// The pool type used when creating the rpc handlers.
    pub pool: Pool,
    /// The network type used when creating the rpc handlers.
    pub network: Network,
    /// Which modules to configure.
    pub config: RpcModuleConfig,
}

impl<Client, Pool, Network> RpcModuleBuilder<Client, Pool, Network> {
    /// Create a new instance of the builder, with all modules selected.
    pub fn new(client: Client, pool: Pool, network: Network) -> (r: RpcModuleBuilder<
        Client,
        Pool,
        Network,
    >)
        ensures
            r.client == client,
            r.pool == pool,
            r.network == network,
            r.config is All,
    {
        RpcModuleBuilder { client, pool, network, config: RpcModuleConfig::All }
    }

    /// Configures which RPC modules should be installed.
    pub fn with_config(self, config: RpcModuleConfig) -> (r: RpcModuleBuilder<
        Client,
        Pool,
        Network,
    >)
        ensures
            r.client == self.client,
            r.pool == self.pool,
            r.network == self.network,
            r.config == config,
    {
        let RpcModuleBuilder { client, pool, network, config: _ } = self;
        RpcModuleBuilder { client, pool, network, config }
    }

    /// Configure the client instance.
    pub fn with_client<C>(self, client: C) -> (r: RpcModuleBuilder<C, Pool, Network>)
        ensures
            r.client == client,
            r.pool == self.pool,
            r.network == self.network,
            r.config == self.config,
    {
        let RpcModuleBuilder { client: _, pool, network, config } = self;
        RpcModuleBuilder { client, pool, network, config }
    }

    /// Configure the transaction pool instance.
    pub fn with_pool<P>(self, pool: P) -> (r: RpcModuleBuilder<Client, P, Network>)
        ensures
            r.client == self.client,
            r.pool == pool,
            r.network == self.network,
            r.config == self.config,
    {
        let RpcModuleBuilder { client, pool: _, network, config } = self;
        RpcModuleBuilder { client, pool, network, config }
    }

    /// Configure the network instance.
    pub fn with_network<N>(self, network: N) -> (r: RpcModuleBuilder<Client, Pool, N>)
        ensures
            r.client == self.client,
            r.pool == self.pool,
            r.network == network,
            r.config == self.config,
    {
        let RpcModuleBuilder { client, pool, network: _, config } = self;
        RpcModuleBuilder { client, pool, network, config }
    }
}

/// Container for the configured RPC server(s); the transports are launched by
/// the layer outside this library.
#[derive(Clone, Copy, PartialEq, Eq, Structural, Debug)]
pub struct RpcServer {}

impl RpcServer {
    /// Start the configured server: a handle connected to it until the server
    /// is stopped.
    pub fn start(self) -> (r: Result<RpcServerHandle, ()>)
        ensures
            r is Ok,
    {
        Ok(RpcServerHandle {  })
    }
}

/// A handle to the spawned server(s). When stop has been called the server
/// will be stopped.
#[derive(Clone, Copy, PartialEq, Eq, Structural, Debug)]
pub struct RpcServerHandle {}

impl RpcServerHandle {
    /// Tell the server to stop without waiting for the server to stop.
    pub fn stop(&self) -> (r: Result<(), ()>)
        ensures
            r is Ok,
    {
        Ok(())
    }
}

} // verus!
