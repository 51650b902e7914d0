use torrent_rs::net::{IpAddr, SocketAddr};
use torrent_rs::path::FilePath;
use torrent_rs::port_mapping::{get_local_ipv4, Interface, PortMapping, PHYSICAL_FLAGS};
use torrent_rs::session_config::{BootstrapNode, ListenInterface, SessionConfig};
use torrent_rs::types::PeerID;

#[test]
fn configurations_have_defaults() {
    let c = SessionConfig::builder().build(Some(FilePath::from_text("/home/u/.config/torrent-rs")));
    assert_eq!(c.listen_addr(), SocketAddr { ip: IpAddr::V4(0), port: 6881 });
    assert_eq!(c.save_path.as_str(), ".");
    assert_eq!(c.config_dir.as_str(), "/home/u/.config/torrent-rs");
    assert_eq!(c.torrents_dir.as_str(), "/home/u/.config/torrent-rs/torrents");
    assert!(c.enable_dht && !c.enable_port_mapping);
    assert_eq!((c.max_connections_per_torrent, c.unchoke_slots, c.peer_timeout), (50, 4, 120_000));
    assert!(c.peer_id.is_none() && c.dht_bootstrap_nodes.is_none());
}

#[test]
fn configurations_keep_what_was_said() {
    let c = SessionConfig::builder()
        .listen_interface(ListenInterface::new(IpAddr::V6(1), 7000))
        .save_path(FilePath::from_text("/d"))
        .config_dir(FilePath::from_text("/c"))
        .enable_dht(false)
        .enable_port_mapping(true)
        .max_connections_per_torrent(9)
        .unchoke_slots(2)
        .peer_timeout(5)
        .peer_id(PeerID::new([9u8; 20]))
        .dht_bootstrap_node("a".to_string(), 1, vec![BootstrapNode::new("d".to_string(), 2)])
        .dht_bootstrap_node("b".to_string(), 3, Vec::new())
        .build(None);
    assert_eq!(c.listen_addr(), SocketAddr { ip: IpAddr::V6(1), port: 7000 });
    assert_eq!((c.save_path.as_str(), c.torrents_dir.as_str()), ("/d", "/c/torrents"));
    assert!(!c.enable_dht && c.enable_port_mapping);
    assert_eq!((c.max_connections_per_torrent, c.unchoke_slots, c.peer_timeout), (9, 2, 5));
    assert_eq!(c.peer_id.unwrap().as_bytes(), &[9u8; 20]);
    let nodes: Vec<(String, u16)> =
        c.dht_bootstrap_nodes.unwrap().into_iter().map(|n| (n.host, n.port)).collect();
    assert_eq!(
        nodes,
        vec![("d".to_string(), 2), ("a".to_string(), 1), ("b".to_string(), 3)]
    );
}

fn interface(name: &str, flags: u32, ipv4: Option<u32>) -> Interface {
    Interface { name: name.to_string(), flags, ipv4 }
}

#[test]
fn own_address_is_found() {
    let none: Vec<Interface> = Vec::new();
    let route = "1.1.1.1 via 10.0.0.1 dev eth0 src 10.0.0.7 uid 0";
    assert_eq!(get_local_ipv4(None, Some(route.to_string()), &none), Some(0x0a000007));
    let host = Some(" 192.168.1.5 172.17.0.1 \n".to_string());
    assert_eq!(get_local_ipv4(host, None, &none), Some(0xc0a80105));
    let l = vec![
        interface("lo", PHYSICAL_FLAGS, Some(0x01020304)),
        interface("docker0", PHYSICAL_FLAGS, Some(0x01020304)),
        interface("eth1", PHYSICAL_FLAGS - 1, Some(0x01020304)),
        interface("eth2", PHYSICAL_FLAGS, Some(0xa9fe0001)),
        interface("eth3", PHYSICAL_FLAGS, None),
        interface("eth4", PHYSICAL_FLAGS, Some(0x0a000009)),
    ];
    assert_eq!(get_local_ipv4(None, None, &l), Some(0x0a000009));
    assert_eq!(get_local_ipv4(None, None, &none), None);
}

#[test]
fn mappings_know_their_outer_address() {
    let m = PortMapping::new(1, 6881, IpAddr::V4(0x05060708), 7777);
    assert_eq!(m.external_addr(), SocketAddr { ip: IpAddr::V4(0x05060708), port: 7777 });
}
