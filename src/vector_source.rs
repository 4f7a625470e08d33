//! Settings of the version-one `vector` source, which listens for
//! length-delimited events over TCP.
use vstd::prelude::*;
use vstd::string::*;

verus! {

/// Where the source listens: a host and port, or a socket handed over by systemd.
#[derive(Debug, Clone, PartialEq, Eq)]
pub enum SocketListenAddr {
    SocketAddr { host: String, port: u16 },
    SystemdFd { offset: usize },
}

/// TCP keepalive settings.
#[derive(Debug, Clone, Copy, PartialEq, Eq, Structural)]
pub struct TcpKeepaliveConfig {
    pub time_secs: Option<u64>,
}

/// TLS settings of a listening source.
#[derive(Debug, Clone, PartialEq, Eq)]
pub struct TlsSourceConfig {
    pub enabled: Option<bool>,
    pub crt_file: Option<String>,
    pub key_file: Option<String>,
    pub client_metadata_key: Option<String>,
}

/// A resource the source claims, so that two components cannot share it.
#[derive(Debug, Clone, PartialEq, Eq)]
pub enum Resource {
    Port { host: String, port: u16 },
    SystemFdOffset { offset: usize },
}

/// An output of the source and the kinds of event it carries.
#[derive(Debug, Clone, Copy, PartialEq, Eq, Structural)]
pub struct Output {
    pub log: bool,
    pub metric: bool,
    pub trace: bool,
}

/// Configuration for version one of the `vector` source.
#[derive(Debug, Clone)]
pub struct VectorConfig {
    pub address: SocketListenAddr,
    pub keepalive: Option<TcpKeepaliveConfig>,
    pub shutdown_timeout_secs: u64,
    pub receive_buffer_bytes: Option<usize>,
    pub tls: Option<TlsSourceConfig>,
}

pub open spec fn default_shutdown_timeout_secs_spec() -> u64 {
    30
}

/// Seconds a connection may linger during shutdown before it is closed.
pub fn default_shutdown_timeout_secs() -> (r: u64)
    ensures
        r == default_shutdown_timeout_secs_spec(),
{
    30
}

impl VectorConfig {
    pub fn set_tls(&mut self, config: Option<TlsSourceConfig>)
        ensures
            final(self).tls == config,
            final(self).address == old(self).address,
            final(self).keepalive == old(self).keepalive,
            final(self).shutdown_timeout_secs == old(self).shutdown_timeout_secs,
            final(self).receive_buffer_bytes == old(self).receive_buffer_bytes,
    {
        self.tls = config;
    }

    /// A configuration listening on `address`, with every other setting at
    /// its default.
    pub fn from_address(address: SocketListenAddr) -> (r: VectorConfig)
        ensures
            r.address == address,
            r.keepalive is None,
            r.shutdown_timeout_secs == default_shutdown_timeout_secs_spec(),
            r.receive_buffer_bytes is None,
            r.tls is None,
    {
        VectorConfig {
            address,
            keepalive: None,
            shutdown_timeout_secs: default_shutdown_timeout_secs(),
            tls: None,
            receive_buffer_bytes: None,
        }
    }

    /// The example configuration: listening on all interfaces, port 9000.
    pub fn generate_config() -> (r: VectorConfig)
        ensures
            r.address matches SocketListenAddr::SocketAddr { host, port } && host@ == "0.0.0.0"@ && port == 9000,
            r.keepalive is None,
            r.shutdown_timeout_secs == default_shutdown_timeout_secs_spec(),
            r.receive_buffer_bytes is None,
            r.tls is None,
    {
        Self::from_address(SocketListenAddr::SocketAddr { host: String::from_str("0.0.0.0"), port: 9000 })
    }

    /// One output, carrying every kind of event.
    pub fn outputs(&self) -> (r: Vec<Output>)
        ensures
            r@ == seq![Output { log: true, metric: true, trace: true }],
    {
        let mut v: Vec<Output> = Vec::new();
        v.push(Output { log: true, metric: true, trace: true });
        assert(v@ =~= seq![Output { log: true, metric: true, trace: true }]);
        v
    }

    pub fn source_type(&self) -> (r: &'static str)
        ensures
            r@ == "vector"@,
    {
        "vector"
    }

    /// The listening address, as a claimed resource.
    pub fn resources(&self) -> (r: Vec<Resource>)
        ensures
            r@.len() == 1,
            match (self.address, r@[0]) {
                (SocketListenAddr::SocketAddr { host, port }, Resource::Port { host: h, port: p }) => h@ == host@ && p == port,
                (SocketListenAddr::SystemdFd { offset }, Resource::SystemFdOffset { offset: o }) => o == offset,
                _ => false,
            },
    {
        let res = match &self.address {
            SocketListenAddr::SocketAddr { host, port } => Resource::Port { host: host.clone(), port: *port },
            SocketListenAddr::SystemdFd { offset } => Resource::SystemFdOffset { offset: *offset },
        };
        let mut v: Vec<Resource> = Vec::new();
        v.push(res);
        v
    }
}

} // verus!
