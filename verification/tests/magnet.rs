//! Magnet links.

use torrent_rs::magnet::{Magnet, MagnetError};
use torrent_rs::types::InfoHash;

const HEX: &str = "0123456789abcdef0123456789abcdef01234567";

#[test]
fn magnet_link_says_hash_name_and_trackers() {
    let uri = format!(
        "magnet:?xt=urn:btih:{}&dn=A+name%21&tr=udp%3A%2F%2Fa%3A80&x.pe=1&tr=http%3A%2F%2Fb%2Fannounce",
        HEX
    );
    let m = Magnet::parse(&uri).unwrap();
    assert_eq!(m.info_hash().unwrap().to_hex(), HEX);
    assert_eq!(m.display_name.as_deref(), Some("A name!"));
    assert_eq!(m.trackers, vec!["udp://a:80".to_string(), "http://b/announce".to_string()]);
}

#[test]
fn magnet_hash_can_be_in_base_32() {
    let m = Magnet::parse("magnet:?xt=urn:btih:AERUKZ4JVPG66AJDIVTYTK6N54ASGRLH").unwrap();
    assert_eq!(m.info_hash().unwrap().to_hex(), HEX);
    assert!(m.display_name.is_none());
    assert!(m.trackers.is_empty());
}

#[test]
fn first_name_and_first_readable_topic_count() {
    let pairs = vec![
        ("xt".to_string(), "urn:btih:zz".to_string()),
        ("xt".to_string(), format!("urn:btih:{}", HEX)),
        ("xt".to_string(), format!("urn:btih:{}", "f".repeat(40))),
        ("dn".to_string(), "one".to_string()),
        ("dn".to_string(), "two".to_string()),
    ];
    let m = Magnet::from_pairs(&pairs);
    assert_eq!(m.info_hash(), Some(InfoHash::from_hex(HEX).unwrap()));
    assert_eq!(m.display_name.as_deref(), Some("one"));
}

#[test]
fn link_without_a_hash_has_none() {
    let m = Magnet::parse("magnet:?dn=name&xt=urn:sha1:0").unwrap();
    assert!(m.info_hash().is_none());
    assert_eq!(m.display_name.as_deref(), Some("name"));
    assert!(Magnet::parse("magnet:?xt=urn:btih:012345").unwrap().info_hash().is_none());
}

#[test]
fn other_text_is_no_magnet_link() {
    let e = Magnet::parse("http://example.com").unwrap_err();
    assert_eq!(e, MagnetError::NotAMagnet);
    assert_eq!(e.message(), "not a magnet link");
    assert_eq!(Magnet::parse("magnet:").unwrap_err(), MagnetError::NotAMagnet);
}
