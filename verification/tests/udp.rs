use std::sync::Arc;
use torrent_rs::metainfo::{FileMode, Info, TorrentInfo};
use torrent_rs::net::{IpAddr, SocketAddr};
use torrent_rs::tracker::udp::{ConnectionRequest, UdpTrackerClient};
use torrent_rs::tracker::{
    transport, transport_for, AnnounceRound, TrackerHandler, TrackerManager, TrackerResponse,
};
use torrent_rs::trackers::udp::{
    build_announce_request, build_connect_request, first_ipv4, parse_udp_url, read_datagram,
    udp_host, ConnectionResponse, ResponseKind, UdpClient,
};
use torrent_rs::trackers::{AnnounceData, AnnounceResponse, Events, TrackerError, TrackerUrl};
use torrent_rs::types::{InfoHash, PeerID};
use torrent_rs::urls::ParsedUrl;

fn data() -> AnnounceData {
    AnnounceData {
        info_hash: InfoHash::new([0xAA; 20]),
        peer_id: PeerID::new([0xBB; 20]),
        port: 6881,
        uploaded: 3,
        downloaded: 1,
        left: -2,
        event: Events::Started,
    }
}

fn address(n: u32) -> SocketAddr {
    SocketAddr { ip: IpAddr::V4(n), port: 80 }
}

#[test]
fn requests_have_their_bytes() {
    let r = build_connect_request(-1);
    assert_eq!(
        &r[..],
        &[0, 0, 4, 0x17, 0x27, 0x10, 0x19, 0x80, 0, 0, 0, 0, 255, 255, 255, 255]
    );
    let r = build_announce_request(1, 2, &data());
    assert_eq!(r.len(), 98);
    assert_eq!(&r[0..16], &[0, 0, 0, 0, 0, 0, 0, 1, 0, 0, 0, 1, 0, 0, 0, 2]);
    assert_eq!(&r[16..36], &[0xAA; 20]);
    assert_eq!(&r[36..56], &[0xBB; 20]);
    assert_eq!(&r[56..64], &[0, 0, 0, 0, 0, 0, 0, 1]);
    assert_eq!(&r[64..72], &[255, 255, 255, 255, 255, 255, 255, 254]);
    assert_eq!(&r[72..80], &[0, 0, 0, 0, 0, 0, 0, 3]);
    assert_eq!(&r[80..84], &[0, 0, 0, 2]);
    assert_eq!(&r[92..98], &[255, 255, 255, 255, 0x1a, 0xe1]);
}

#[test]
fn answers_are_read() {
    let mut b = vec![0, 0, 0, 0, 0, 0, 0, 9, 0, 0, 0, 0, 0, 0, 1, 0];
    match read_datagram(&b) {
        Some((9, ResponseKind::Connect(c))) => assert_eq!(c.connection_id, 256),
        _ => panic!("no connection"),
    }
    assert!(matches!(ConnectionResponse::parse(&b[..15]), Err(TrackerError::TooShort)));
    b[3] = 1;
    assert!(matches!(ConnectionResponse::parse(&b), Err(TrackerError::InvalidResponse(_))));
    let mut a = vec![0, 0, 0, 1, 0, 0, 0, 9, 0, 0, 7, 8, 0, 0, 0, 2, 0, 0, 0, 3];
    a.extend_from_slice(&[1, 2, 3, 4, 0x1a, 0xe1, 9]);
    match read_datagram(&a) {
        Some((9, ResponseKind::Announce(r))) => {
            assert_eq!((r.interval, r.leechers, r.seeders), (1800, 2, 3));
            assert_eq!(r.peers, vec![SocketAddr { ip: IpAddr::V4(0x01020304), port: 6881 }]);
        }
        _ => panic!("no peers"),
    }
    assert!(matches!(AnnounceResponse::parse(&a[..19]), Err(TrackerError::TooShort)));
    assert!(read_datagram(&[0, 0, 0, 3, 0, 0, 0, 9]).is_none());
    assert!(read_datagram(&[0; 7]).is_none());
}

#[test]
fn connections_last_a_minute() {
    let mut c = UdpClient::new();
    assert_eq!(c.get_connection(address(1), 0), None);
    c.connected(address(1), 77, 1000);
    assert_eq!(c.get_connection(address(1), 60_999), Some(77));
    assert_eq!(c.get_connection(address(1), 61_000), None);
    assert_eq!(c.get_connection(address(2), 1000), None);
    c.connected(address(1), 78, 2000);
    assert_eq!(c.get_connection(address(1), 61_000), Some(78));
}

#[test]
fn waits_double_until_they_end() {
    let waits: Vec<u64> = (0..9).map(|i| UdpClient::wait(i).unwrap()).collect();
    assert_eq!(waits, vec![15, 30, 60, 120, 240, 480, 960, 1920, 3840]);
    assert!(matches!(UdpClient::wait(9), Err(TrackerError::Timeout)));
}

#[test]
fn requests_carry_their_number() {
    let (tx, r) = UdpClient::connect_request();
    assert_eq!(&r[..], &build_connect_request(tx)[..]);
    let (tx, r) = UdpClient::announce_request(5, &data());
    assert_eq!(&r[..], &build_announce_request(5, tx, &data())[..]);
    let c = ConnectionRequest::new();
    assert_eq!(&c.to_bytes()[0..8], &[0, 0, 4, 0x17, 0x27, 0x10, 0x19, 0x80]);
    let mut client = UdpTrackerClient::new();
    assert_eq!(client.connect(address(3)).len(), 16);
    assert_eq!(client.state.len(), 1);
}

fn parsed(host: Option<&str>, port: Option<u16>, scheme: &str) -> Result<ParsedUrl, String> {
    Ok(ParsedUrl {
        text: "t".to_string(),
        scheme: scheme.to_string(),
        host: host.map(|h| h.to_string()),
        port,
    })
}

#[test]
fn urls_name_host_and_port() {
    assert_eq!(
        parse_udp_url("UDP://tracker.example.org:01337/announce").unwrap(),
        (
            "tracker.example.org".to_string(),
            1337,
            "udp://tracker.example.org:1337/announce".to_string()
        )
    );
    assert!(matches!(parse_udp_url("udp://h/announce"), Err(TrackerError::InvalidUrl(_))));
    assert!(matches!(parse_udp_url("::"), Err(TrackerError::InvalidUrl(_))));
    assert_eq!(
        udp_host("u", parsed(Some("h"), Some(3), "udp")).unwrap(),
        ("h".to_string(), 3, "t".to_string())
    );
    assert!(udp_host("u", parsed(None, Some(3), "udp")).is_err());
    assert!(udp_host("u", Err("bad".to_string())).is_err());
    let l = vec![SocketAddr { ip: IpAddr::V6(1), port: 1 }, address(9)];
    assert_eq!(first_ipv4("u", &l).unwrap(), address(9));
    assert!(matches!(first_ipv4("u", &Vec::new()), Err(TrackerError::InvalidUrl(_))));
}

#[test]
fn schemes_lead_to_transports() {
    assert!(matches!(transport("u", parsed(None, None, "https")), Ok(TrackerUrl::Http(_))));
    assert!(matches!(transport("u", parsed(None, None, "udp")), Ok(TrackerUrl::Udp(_))));
    assert!(matches!(
        transport("u", parsed(None, None, "ftp")),
        Err(TrackerError::InvalidScheme(_))
    ));
    assert!(matches!(transport("u", Err("x".to_string())), Err(TrackerError::UrlParse(_))));
    assert!(TrackerError::InvalidScheme("x".to_string()).is_permanent());
    assert!(!TrackerError::Timeout.is_permanent());
}

#[test]
fn trackers_are_asked_one_after_the_other() {
    let mut round = AnnounceRound { trackers: vec!["a".to_string(), "b".to_string()], next: 0 };
    assert_eq!(round.tracker(), "a");
    assert!(round.reply(Err(TrackerError::Timeout)).is_none());
    assert_eq!(round.tracker(), "b");
    let answer = TrackerResponse { peers: Vec::new(), interval: 1, leechers: 2, seeders: 3 };
    assert!(matches!(round.reply(Ok(answer)), Some(Ok(_))));
    let handler = TrackerHandler::new(PeerID::new([5u8; 20]));
    assert_eq!(handler.manager.client_id.as_bytes(), &[5u8; 20]);
}

#[test]
fn urls_lead_to_transports() {
    assert!(matches!(
        transport_for("http://t.example/announce"),
        Ok(TrackerUrl::Http(u)) if u == "http://t.example/announce"
    ));
    assert!(matches!(
        transport_for("udp://t.example:80"),
        Ok(TrackerUrl::Udp(u)) if u == "udp://t.example:80"
    ));
    assert!(matches!(
        transport_for("wss://t.example"),
        Err(TrackerError::InvalidScheme(s)) if s == "wss"
    ));
    assert!(matches!(transport_for("t.example"), Err(TrackerError::UrlParse(_))));
}

#[test]
fn trackers_of_a_torrent_are_asked_in_turn() {
    let mode = FileMode::SingleFile { name: "f".to_string(), length: 77, md5sum: None };
    let torrent = TorrentInfo {
        info: Arc::new(Info { piece_length: 16384, pieces: vec![[0u8; 20]], private: None, mode }),
        announce: "http://a/announce".to_string(),
        announce_list: Some(vec![
            vec!["http://a/announce".to_string()],
            vec!["udp://b:1".to_string(), "ftp://c".to_string()],
        ]),
        creation_date: None,
        comment: None,
        created_by: None,
        encoding: None,
        info_hash: InfoHash::new([5u8; 20]),
    };
    let manager = TrackerManager::new(PeerID::new([6u8; 20]));
    let mut round = manager.handle_announce(&torrent);
    assert_eq!(round.trackers, vec!["http://a/announce", "udp://b:1", "ftp://c"]);
    assert_eq!(round.tracker(), "http://a/announce");
    let (way, params) = manager.try_announce(round.tracker(), &torrent).unwrap();
    assert!(matches!(way, TrackerUrl::Http(_)));
    assert_eq!((params.port, params.left, params.compact), (6881, 77, true));
    assert_eq!(params.info_hash, InfoHash::new([5u8; 20]));
    assert_eq!(params.peer_id, PeerID::new([6u8; 20]));
    assert!(round.reply(Err(TrackerError::Timeout)).is_none());
    assert!(matches!(
        manager.try_announce(round.tracker(), &torrent),
        Ok((TrackerUrl::Udp(_), _))
    ));
    assert!(round.reply(Err(TrackerError::Timeout)).is_none());
    let failed = manager.try_announce(round.tracker(), &torrent).unwrap_err();
    assert!(matches!(
        round.reply(Err(failed)),
        Some(Err(TrackerError::InvalidResponse(m))) if m == "All trackers failed"
    ));
}
