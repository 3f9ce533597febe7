//! Configuration and construction of the consensus server. Building a
//! server opens the store and the application; binding the socket and
//! serving the driver's connection is wiring outside the library.

use vstd::prelude::*;
use crate::abci::{ConsensusError, SedlyApp};

verus! {

/// How a consensus server should run.
#[derive(Debug)]
pub struct ServerConfig {
    /// Address the ABCI socket binds to.
    pub abci_addr: String,
    /// Where the chain store lives.
    pub db_path: String,
    /// Cap on concurrent driver connections.
    pub max_connections: usize,
}

impl ServerConfig {
    /// An equal copy.
    pub fn duplicate(&self) -> (r: Self)
        ensures
            r.abci_addr@ == self.abci_addr@,
            r.db_path@ == self.db_path@,
            r.max_connections == self.max_connections,
    {
        ServerConfig {
            abci_addr: clone_string(&self.abci_addr),
            db_path: clone_string(&self.db_path),
            max_connections: self.max_connections,
        }
    }
}

/// Relies on `String::clone`: an equal copy of the text.
fn clone_string(s: &String) -> (r: String)
    ensures
        r@ == s@,
{
    s.clone()
}

impl Default for ServerConfig {
    /// The local default: loopback socket, a local store directory, and
    /// a hundred connections.
    fn default() -> (r: Self)
        ensures
            r.abci_addr@ == "127.0.0.1:26658"@,
            r.db_path@ == "./blockchain_data"@,
            r.max_connections == 100,
    {
        ServerConfig {
            abci_addr: String::from_str("127.0.0.1:26658"),
            db_path: String::from_str("./blockchain_data"),
            max_connections: 100,
        }
    }
}

/// A built consensus server: its configuration and the application it
/// will serve.
pub struct ConsensusServer {
    config: ServerConfig,
    app: SedlyApp,
}

impl ConsensusServer {
    /// Builds the application over the configured store path.
    pub fn new(config: ServerConfig) -> (r: Result<Self, ConsensusError>)
        ensures
            match r {
                Ok(s) => crate::abci::spec_fresh_app(*s.app_ref()) && s.config_spec().abci_addr@
                    == config.abci_addr@ && s.config_spec().db_path@ == config.db_path@
                    && s.config_spec().max_connections == config.max_connections,
                Err(_) => false,
            },
    {
        let app = match SedlyApp::new(config.db_path.as_str()) {
            Ok(a) => a,
            Err(e) => {
                return Err(e);
            },
        };
        Ok(Self { config, app })
    }

    /// The configuration, for contracts.
    pub closed spec fn config_spec(&self) -> &ServerConfig {
        &self.config
    }

    /// The application, for contracts.
    pub closed spec fn app_ref(&self) -> &SedlyApp {
        &self.app
    }

    /// The server's configuration.
    pub fn config(&self) -> (r: &ServerConfig)
        ensures
            r == self.config_spec(),
    {
        &self.config
    }

    /// Surrenders the application, for a host that serves it.
    pub fn app(self) -> (r: SedlyApp)
        ensures
            r == *self.app_ref(),
    {
        self.app
    }
}

/// Builds a `ConsensusServer` a field at a time.
pub struct ConsensusServerBuilder {
    config: ServerConfig,
}

impl ConsensusServerBuilder {
    /// A builder over the default configuration.
    pub fn new() -> (r: Self)
        ensures
            r.config_spec().abci_addr@ == "127.0.0.1:26658"@,
            r.config_spec().db_path@ == "./blockchain_data"@,
            r.config_spec().max_connections == 100,
    {
        Self { config: ServerConfig::default() }
    }

    /// The configuration so far, for contracts.
    pub closed spec fn config_spec(&self) -> &ServerConfig {
        &self.config
    }

    /// Sets the ABCI bind address.
    pub fn abci_addr(self, addr: &str) -> (r: Self)
        ensures
            r.config_spec().abci_addr@ == addr@,
            r.config_spec().db_path@ == self.config_spec().db_path@,
            r.config_spec().max_connections == self.config_spec().max_connections,
    {
        let mut config = self.config;
        config.abci_addr = String::from_str(addr);
        Self { config }
    }

    /// Sets the store path.
    pub fn db_path(self, path: &str) -> (r: Self)
        ensures
            r.config_spec().db_path@ == path@,
            r.config_spec().abci_addr@ == self.config_spec().abci_addr@,
            r.config_spec().max_connections == self.config_spec().max_connections,
    {
        let mut config = self.config;
        config.db_path = String::from_str(path);
        Self { config }
    }

    /// Caps concurrent connections.
    pub fn max_connections(self, max: usize) -> (r: Self)
        ensures
            r.config_spec().max_connections == max,
            r.config_spec().abci_addr@ == self.config_spec().abci_addr@,
            r.config_spec().db_path@ == self.config_spec().db_path@,
    {
        let mut config = self.config;
        config.max_connections = max;
        Self { config }
    }

    /// Builds the server: the application comes up at the genesis tip
    /// over a genesis-initialized store.
    pub fn build(self) -> (r: Result<ConsensusServer, ConsensusError>)
        ensures
            match r {
                Ok(s) => crate::abci::spec_fresh_app(*s.app_ref()) && s.config_spec().abci_addr@
                    == self.config_spec().abci_addr@ && s.config_spec().db_path@
                    == self.config_spec().db_path@ && s.config_spec().max_connections
                    == self.config_spec().max_connections,
                Err(_) => false,
            },
    {
        ConsensusServer::new(self.config)
    }
}

impl Default for ConsensusServerBuilder {
    /// A builder over the default configuration.
    fn default() -> (r: Self)
        ensures
            r.config_spec().max_connections == 100,
    {
        Self::new()
    }
}

} // verus!
