use torrent_rs::net::{IpAddr, SocketAddr};
use torrent_rs::trackers::http::{parse_compact_peers, percent_encode_bytes, HttpClient};
use torrent_rs::trackers::{AnnounceData, Events, TrackerError};
use torrent_rs::types::{InfoHash, PeerID};
use torrent_rs::urls::{extend_url, read_url};

fn be_string(s: &str) -> String {
    format!("{}:{}", s.len(), s)
}

fn v4(a: u8, b: u8, c: u8, d: u8) -> IpAddr {
    IpAddr::V4(u32::from_be_bytes([a, b, c, d]))
}

fn make_compact_response(
    peers: &[([u8; 4], u16)],
    interval: i64,
    complete: i64,
    incomplete: i64,
) -> Vec<u8> {
    let mut compact = Vec::with_capacity(peers.len() * 6);
    for (ip, port) in peers {
        compact.extend_from_slice(ip);
        compact.extend_from_slice(&port.to_be_bytes());
    }

    let header = format!(
        "d{}i{}e{}i{}e{}i{}e{}",
        be_string("complete"),
        complete,
        be_string("incomplete"),
        incomplete,
        be_string("interval"),
        interval,
        be_string("peers"),
    );

    let mut out = Vec::new();
    out.extend_from_slice(header.as_bytes());
    out.extend_from_slice(format!("{}:", compact.len()).as_bytes());
    out.extend_from_slice(&compact);
    out.extend_from_slice(b"e");
    out
}

fn make_dict_response(
    peers: &[([u8; 4], u16)],
    interval: i64,
    complete: i64,
    incomplete: i64,
) -> Vec<u8> {
    let mut s = format!(
        "d{}i{}e{}i{}e{}i{}e{}l",
        be_string("complete"),
        complete,
        be_string("incomplete"),
        incomplete,
        be_string("interval"),
        interval,
        be_string("peers")
    );

    for (ip, port) in peers {
        let ip_str = format!("{}.{}.{}.{}", ip[0], ip[1], ip[2], ip[3]);
        s.push_str(&format!(
            "d{}{}{}i{}ee",
            be_string("ip"),
            be_string(&ip_str),
            be_string("port"),
            port
        ));
    }

    s.push_str("ee");
    s.into_bytes()
}

#[test]
fn test_compact_peers() {
    let client = HttpClient::new();
    let peers = &[([1, 2, 3, 4], 6881), ([10, 20, 30, 40], 51413)];
    let data = make_compact_response(peers, 1800, 5, 10);

    let resp = client.parse_response(&data).unwrap();
    assert_eq!(resp.interval, 1800);
    assert_eq!(resp.seeders, 5);
    assert_eq!(resp.leechers, 10);
    assert_eq!(resp.peers.len(), 2);
    assert_eq!(resp.peers[0], SocketAddr { ip: v4(1, 2, 3, 4), port: 6881 });
}

#[test]
fn test_dict_peers() {
    let client = HttpClient::new();
    let peers = &[([192, 168, 1, 1], 6881)];
    let data = make_dict_response(peers, 900, 2, 3);

    let resp = client.parse_response(&data).unwrap();
    assert_eq!(resp.interval, 900);
    assert_eq!(resp.peers.len(), 1);
    assert_eq!(resp.peers[0], SocketAddr { ip: v4(192, 168, 1, 1), port: 6881 });
}

#[test]
fn test_percent_encode_bytes() {
    let hash = InfoHash::new([
        0x12, 0x34, 0xAB, 0xCD, 0, 0, 0, 0, 0, 0, 0, 0, 0, 0, 0, 0, 0, 0, 0, 0,
    ]);
    let encoded = percent_encode_bytes(hash.as_slice());
    assert_eq!(
        encoded,
        "%12%34%AB%CD%00%00%00%00%00%00%00%00%00%00%00%00%00%00%00%00"
    );
}

#[test]
fn peers_of_ipv6_read_from_a_dictionary() {
    let mut s = format!("d{}i60e{}l", be_string("interval"), be_string("peers"));
    s.push_str(&format!("d{}{}{}i1ee", be_string("ip"), be_string("::ffff:1"), be_string("port")));
    s.push_str("ee");
    let resp = HttpClient::new().parse_response(s.as_bytes()).unwrap();
    assert_eq!(resp.peers, vec![SocketAddr { ip: IpAddr::V6(0xffff_0001), port: 1 }]);
}

#[test]
fn answers_that_are_none_are_refused() {
    let client = HttpClient::new();
    let failed = format!("d{}{}e", be_string("failure reason"), be_string("go away"));
    match client.parse_response(failed.as_bytes()) {
        Err(TrackerError::TrackerError(m)) => assert_eq!(m, "go away"),
        _ => panic!("no failure"),
    }
    assert!(matches!(client.parse_response(b"le"), Err(TrackerError::InvalidResponse(_))));
    assert!(matches!(client.parse_response(b"x"), Err(TrackerError::BencodeError(_))));
    assert!(matches!(parse_compact_peers(&[1, 2, 3]), Err(TrackerError::InvalidResponse(_))));
    assert!(client.parse_response(b"de").is_err());
}

fn data(event: Events) -> AnnounceData {
    AnnounceData {
        info_hash: InfoHash::new([0xA0; 20]),
        peer_id: PeerID::new([b'x'; 20]),
        port: 6881,
        uploaded: 1,
        downloaded: 0,
        left: 1000,
        event,
    }
}

#[test]
fn announcements_go_by_the_query() {
    let client = HttpClient::new();
    let url = client.announce_url("http://t.example.com:80/announce?key=1", &data(Events::Started));
    let url = url.unwrap();
    assert!(url.starts_with("http://t.example.com/announce?key=1&info_hash=%25A0%25A0"));
    assert!(url.contains("&port=6881&uploaded=1&downloaded=0&left=1000"));
    assert!(url.contains("event=started"));
    assert!(url.contains("compact=1"));
    let url = client.announce_url("http://t.example.com/announce", &data(Events::Regular)).unwrap();
    assert!(!url.contains("event="));
    assert!(matches!(
        client.announce_url("not a url", &data(Events::Stopped)),
        Err(TrackerError::UrlParse(_))
    ));
}

#[test]
fn urls_are_read_in_their_normal_form() {
    let u = read_url("HTTP://Tracker.Example.org:80/a b?x=1").unwrap();
    assert_eq!(u.text, "http://tracker.example.org/a%20b?x=1");
    assert_eq!((u.scheme.as_str(), u.host.as_deref(), u.port), ("http", Some("tracker.example.org"), None));
    assert_eq!(read_url("udp://h:80").unwrap().port, Some(80));
    assert_eq!(read_url("").unwrap_err(), "relative URL without a base");
    let pairs = vec![("k".to_string(), "a b&".to_string())];
    assert_eq!(extend_url("http://h/x?y=1#z", &pairs).unwrap(), "http://h/x?y=1&k=a+b%26#z");
    assert!(extend_url("x", &pairs).is_err());
}
