//! How a session is set up.

use crate::net::{IpAddr, SocketAddr};
use crate::path::{pushed, FilePath};
use crate::types::PeerID;
use vstd::prelude::*;
use vstd::string::*;

verus! {

/// A node of the DHT to begin with.
#[derive(Debug)]
pub struct BootstrapNode {
    pub host: String,
    pub port: u16,
}

impl BootstrapNode {
    /// A node
    pub fn new(host: String, port: u16) -> (r: Self)
        ensures
            r == (BootstrapNode { host, port }),
    {
        BootstrapNode { host, port }
    }
}

/// A resolved listen interface. Holds addr + port separately so the port can
/// be queried without constructing a `SocketAddr` first.
#[derive(Debug, Clone, Copy, PartialEq, Eq, Structural)]
pub struct ListenInterface {
    pub addr: IpAddr,
    pub port: u16,
}

impl ListenInterface {
    /// An interface to listen on
    pub fn new(addr: IpAddr, port: u16) -> (r: Self)
        ensures
            r == (ListenInterface { addr, port }),
    {
        ListenInterface { addr, port }
    }

    /// The address to listen on
    pub fn socket_addr(&self) -> (r: SocketAddr)
        ensures
            r == (SocketAddr { ip: self.addr, port: self.port }),
    {
        SocketAddr { ip: self.addr, port: self.port }
    }
}

impl Default for ListenInterface {
    fn default() -> (r: Self)
        ensures
            r == (ListenInterface { addr: IpAddr::V4(0), port: 6881 }),
    {
        ListenInterface { addr: IpAddr::V4(0), port: 6881 }
    }
}

/// Validated session configuration. Construct via [`SessionConfig::builder()`].
#[derive(Debug)]
pub struct SessionConfig {
    pub listen_interface: ListenInterface,
    /// Directory where downloaded files are saved.
    pub save_path: FilePath,
    /// Base config directory (e.g., `~/.config/torrent-rs/`).
    pub config_dir: FilePath,
    /// Directory for storing `.torrent` files (`config_dir/torrents/`).
    pub torrents_dir: FilePath,
    pub enable_dht: bool,
    /// DHT bootstrap nodes. None means the DHT's own.
    pub dht_bootstrap_nodes: Option<Vec<BootstrapNode>>,
    /// Attempts to automatically create port forwarding on the router.
    pub enable_port_mapping: bool,
    /// Maximum concurrent peer connections per torrent.
    pub max_connections_per_torrent: u32,
    /// Number of simultaneously unchoked peers.
    pub unchoke_slots: u32,
    /// In milliseconds
    pub peer_timeout: u64,
    /// Override the process-wide peer ID.
    pub peer_id: Option<PeerID>,
}

/// Puts a session's configuration together.
#[derive(Debug)]
pub struct SessionConfigBuilder {
    pub listen_interface: ListenInterface,
    pub save_path: FilePath,
    pub config_dir: Option<FilePath>,
    pub enable_dht: bool,
    pub dht_bootstrap_nodes: Option<Vec<BootstrapNode>>,
    pub enable_port_mapping: bool,
    pub max_connections_per_torrent: u32,
    pub unchoke_slots: u32,
    pub peer_timeout: u64,
    pub peer_id: Option<PeerID>,
}

impl SessionConfig {
    /// The limits are not zero.
    pub open spec fn wf(&self) -> bool {
        self.max_connections_per_torrent > 0 && self.unchoke_slots > 0
    }

    /// A configuration with nothing said yet
    pub fn builder() -> (r: SessionConfigBuilder)
        ensures
            r.is_default(),
    {
        SessionConfigBuilder::default()
    }

    /// Derive the listen address from the interface.
    pub fn listen_addr(&self) -> (r: SocketAddr)
        ensures
            r == (SocketAddr { ip: self.listen_interface.addr, port: self.listen_interface.port }),
    {
        self.listen_interface.socket_addr()
    }
}

impl Default for SessionConfigBuilder {
    fn default() -> (r: Self)
        ensures
            r.is_default(),
    {
        SessionConfigBuilder {
            listen_interface: ListenInterface::default(),
            save_path: FilePath::from_text("."),
            config_dir: None,
            enable_dht: true,
            dht_bootstrap_nodes: None,
            enable_port_mapping: false,
            max_connections_per_torrent: 50,
            unchoke_slots: 4,
            peer_timeout: 120_000,
            peer_id: None,
        }
    }
}

impl SessionConfigBuilder {
    /// The limits are not zero.
    pub open spec fn wf(&self) -> bool {
        self.max_connections_per_torrent > 0 && self.unchoke_slots > 0
    }

    /// Whether nothing was said yet.
    pub open spec fn is_default(&self) -> bool {
        &&& self.listen_interface == (ListenInterface { addr: IpAddr::V4(0), port: 6881 })
        &&& self.save_path@ == "."@
        &&& self.config_dir is None
        &&& self.enable_dht
        &&& self.dht_bootstrap_nodes is None
        &&& !self.enable_port_mapping
        &&& self.max_connections_per_torrent == 50
        &&& self.unchoke_slots == 4
        &&& self.peer_timeout == 120_000
        &&& self.peer_id is None
    }

    /// Where to listen
    pub fn listen_interface(self, iface: ListenInterface) -> (r: Self)
        ensures
            r == (SessionConfigBuilder { listen_interface: iface, ..self }),
    {
        let mut s = self;
        s.listen_interface = iface;
        s
    }

    /// Where to save what is downloaded
    pub fn save_path(self, path: FilePath) -> (r: Self)
        ensures
            r == (SessionConfigBuilder { save_path: path, ..self }),
    {
        let mut s = self;
        s.save_path = path;
        s
    }

    /// Where to keep what the client needs itself
    pub fn config_dir(self, path: FilePath) -> (r: Self)
        ensures
            r == (SessionConfigBuilder { config_dir: Some(path), ..self }),
    {
        let mut s = self;
        s.config_dir = Some(path);
        s
    }

    /// Whether to use the DHT
    pub fn enable_dht(self, enabled: bool) -> (r: Self)
        ensures
            r == (SessionConfigBuilder { enable_dht: enabled, ..self }),
    {
        let mut s = self;
        s.enable_dht = enabled;
        s
    }

    /// Replace the bootstrap node list entirely.
    pub fn dht_bootstrap_nodes(self, nodes: Vec<BootstrapNode>) -> (r: Self)
        ensures
            r == (SessionConfigBuilder { dht_bootstrap_nodes: Some(nodes), ..self }),
    {
        let mut s = self;
        s.dht_bootstrap_nodes = Some(nodes);
        s
    }

    /// Append a single bootstrap node to whatever list is already set
    /// (or to the defaults if none has been set yet).
    pub fn dht_bootstrap_node(self, host: String, port: u16, defaults: Vec<BootstrapNode>) -> (r:
        Self)
        ensures
            r == (SessionConfigBuilder { dht_bootstrap_nodes: r.dht_bootstrap_nodes, ..self }),
            r.dht_bootstrap_nodes matches Some(nodes) && nodes@ == match self.dht_bootstrap_nodes {
                Some(v) => v@,
                None => defaults@,
            }.push(BootstrapNode { host, port }),
    {
        let mut s = self;
        let mut nodes: Vec<BootstrapNode> = match s.dht_bootstrap_nodes {
            Some(v) => v,
            None => defaults,
        };
        nodes.push(BootstrapNode::new(host, port));
        s.dht_bootstrap_nodes = Some(nodes);
        s
    }

    /// Whether to ask the router to forward the port
    pub fn enable_port_mapping(self, enabled: bool) -> (r: Self)
        ensures
            r == (SessionConfigBuilder { enable_port_mapping: enabled, ..self }),
    {
        let mut s = self;
        s.enable_port_mapping = enabled;
        s
    }

    /// How many peers a torrent may be connected with
    pub fn max_connections_per_torrent(self, n: u32) -> (r: Self)
        requires
            n > 0,
        ensures
            r == (SessionConfigBuilder { max_connections_per_torrent: n, ..self }),
    {
        let mut s = self;
        s.max_connections_per_torrent = n;
        s
    }

    /// How many peers may be unchoked
    pub fn unchoke_slots(self, n: u32) -> (r: Self)
        requires
            n > 0,
        ensures
            r == (SessionConfigBuilder { unchoke_slots: n, ..self }),
    {
        let mut s = self;
        s.unchoke_slots = n;
        s
    }

    /// How long a peer may be silent, in milliseconds
    pub fn peer_timeout(self, ms: u64) -> (r: Self)
        ensures
            r == (SessionConfigBuilder { peer_timeout: ms, ..self }),
    {
        let mut s = self;
        s.peer_timeout = ms;
        s
    }

    /// The name of the client
    pub fn peer_id(self, id: PeerID) -> (r: Self)
        ensures
            r == (SessionConfigBuilder { peer_id: Some(id), ..self }),
    {
        let mut s = self;
        s.peer_id = Some(id);
        s
    }

    /// The configuration; where no directory was named, the system's own for such files is taken,
    /// where there is one
    pub fn build(self, project_dir: Option<FilePath>) -> (r: SessionConfig)
        ensures
            self.wf() ==> r.wf(),
            r.listen_interface == self.listen_interface,
            r.save_path == self.save_path,
            r.config_dir@ == match self.config_dir {
                Some(d) => d@,
                None => match project_dir {
                    Some(d) => d@,
                    None => ".config/torrent-rs"@,
                },
            },
            r.torrents_dir@ == pushed(r.config_dir@, "torrents"@),
            r.enable_dht == self.enable_dht,
            r.dht_bootstrap_nodes == self.dht_bootstrap_nodes,
            r.enable_port_mapping == self.enable_port_mapping,
            r.max_connections_per_torrent == self.max_connections_per_torrent,
            r.unchoke_slots == self.unchoke_slots,
            r.peer_timeout == self.peer_timeout,
            r.peer_id == self.peer_id,
    {
        let config_dir = match self.config_dir {
            Some(d) => d,
            None => match project_dir {
                Some(d) => d,
                None => FilePath::from_text(".config/torrent-rs"),
            },
        };
        let torrents_dir = config_dir.join("torrents");
        SessionConfig {
            listen_interface: self.listen_interface,
            save_path: self.save_path,
            config_dir,
            torrents_dir,
            enable_dht: self.enable_dht,
            dht_bootstrap_nodes: self.dht_bootstrap_nodes,
            enable_port_mapping: self.enable_port_mapping,
            max_connections_per_torrent: self.max_connections_per_torrent,
            unchoke_slots: self.unchoke_slots,
            peer_timeout: self.peer_timeout,
            peer_id: self.peer_id,
        }
    }
}

} // verus!
