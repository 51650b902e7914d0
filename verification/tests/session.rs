use bytes::Bytes;
use std::sync::Arc;
use torrent_rs::events::session::SessionEvent;
use torrent_rs::leecher;
use torrent_rs::leecher::{announce_again, keep_urls, PeerSource};
use torrent_rs::magnet::Magnet;
use torrent_rs::metadata::{Metadata, MetadataState};
use torrent_rs::metainfo::{FileMode, Info, TorrentInfo, TorrentParseError};
use torrent_rs::net::{IpAddr, SocketAddr};
use torrent_rs::path::FilePath;
use torrent_rs::peer::PeerMessage;
use torrent_rs::protocol::Handshake;
use torrent_rs::session::{
    wait_for_completion, Question, Refusal, SessionAction, SessionAnswer, SessionCommand,
    SessionError, SessionManager,
};
use torrent_rs::session_config::SessionConfig;
use torrent_rs::torrent::Pid;
use torrent_rs::trackers::{AnnounceResponse, Events, TrackerError};
use torrent_rs::types::{InfoHash, PeerID};

fn torrent_info(id: u8, length: i64) -> TorrentInfo {
    TorrentInfo {
        info: Arc::new(Info {
            piece_length: 4,
            pieces: vec![[0u8; 20]; 2],
            private: None,
            mode: FileMode::SingleFile { name: "f".to_string(), length, md5sum: None },
        }),
        announce: "http://a.example.com/announce".to_string(),
        announce_list: None,
        creation_date: None,
        comment: None,
        created_by: None,
        encoding: None,
        info_hash: InfoHash::new([id; 20]),
    }
}

fn manager() -> SessionManager {
    let config = SessionConfig::builder().config_dir(FilePath::from_text("/c")).build(None);
    SessionManager::new(config, PeerID::new([42u8; 20]))
}

fn tell(
    m: &mut SessionManager,
    cmd: SessionCommand,
) -> (Vec<SessionAction>, Result<SessionAnswer, SessionError>) {
    assert!(SessionManager::accepts(&cmd));
    m.handle_command(cmd, false, 3)
}

#[test]
fn torrents_are_taken_in_once() {
    let mut m = manager();
    let (told, r) = tell(&mut m, SessionCommand::AddTorrent { info: torrent_info(1, 8) });
    assert!(matches!(r, Ok(SessionAnswer::Added(_))));
    match &told[0] {
        SessionAction::Run(id, t, progress) => {
            assert_eq!(id.as_bytes(), &[1u8; 20]);
            assert_eq!(progress.total_bytes, 8);
            assert!(t.torrent_info().is_some());
        }
        _ => panic!("nothing runs"),
    }
    assert!(matches!(told[1], SessionAction::Event(SessionEvent::TorrentAdded(_))));
    let (told, r) = tell(&mut m, SessionCommand::AddTorrent { info: torrent_info(1, 8) });
    assert!(told.is_empty());
    match r {
        Err(e) => assert_eq!(
            e.message(),
            "Torrent already exists: 0101010101010101010101010101010101010101"
        ),
        Ok(_) => panic!("taken in twice"),
    }
    let cmd = SessionCommand::SeedTorrentUnchecked { info: torrent_info(1, 8) };
    assert!(matches!(tell(&mut m, cmd).1, Err(SessionError::TorrentAlreadyExists(_))));
    let cmd = SessionCommand::SeedFile {
        info: torrent_info(2, 8),
        content_dir: FilePath::from_text("/s"),
    };
    assert!(matches!(tell(&mut m, cmd).1, Ok(SessionAnswer::Added(_))));
    let cmd = SessionCommand::AddTorrent { info: torrent_info(3, -1) };
    assert!(!SessionManager::accepts(&cmd));
}

#[test]
fn magnet_links_need_a_hash_and_a_way_to_peers() {
    let mut m = manager();
    let magnet = |hash: Option<u8>, trackers: &[&str]| Magnet {
        hash: hash.map(|h| InfoHash::new([h; 20])),
        display_name: None,
        trackers: trackers.iter().map(|t| t.to_string()).collect(),
    };
    let cmd = SessionCommand::AddMagnet { magnet: magnet(None, &["udp://a:1"]) };
    assert!(matches!(tell(&mut m, cmd).1, Err(SessionError::InvalidMagnet)));
    let cmd = SessionCommand::AddMagnet { magnet: magnet(Some(1), &[]) };
    assert!(matches!(tell(&mut m, cmd).1, Err(SessionError::NoPeerDiscovery)));
    let cmd = SessionCommand::AddMagnet { magnet: magnet(Some(1), &[]) };
    assert!(m.handle_command(cmd, true, 0).1.is_ok());
    let cmd = SessionCommand::AddMagnet { magnet: magnet(Some(2), &["udp://a:1"]) };
    assert!(tell(&mut m, cmd).1.is_ok());
}

#[test]
fn torrents_are_removed() {
    let mut m = manager();
    let id = InfoHash::new([1u8; 20]);
    assert!(matches!(
        tell(&mut m, SessionCommand::RemoveTorrent { id }).1,
        Err(SessionError::TorrentNotFound(_))
    ));
    tell(&mut m, SessionCommand::AddTorrent { info: torrent_info(1, 8) });
    tell(&mut m, SessionCommand::AddTorrent { info: torrent_info(2, 8) });
    let (told, r) = tell(&mut m, SessionCommand::RemoveTorrent { id });
    assert!(matches!(r, Ok(SessionAnswer::Done)));
    assert!(matches!(told[0], SessionAction::Stop(_)));
    assert!(matches!(told[1], SessionAction::Event(SessionEvent::TorrentRemoved(_))));
    assert!(!m.contains(&id));
    assert!(m.contains(&InfoHash::new([2u8; 20])));
    let (told, _) = m.handle_command(SessionCommand::Shutdown, true, 0);
    assert_eq!(told.len(), 2);
    assert!(matches!(told[1], SessionAction::StopDht));
    assert!(!m.contains(&InfoHash::new([2u8; 20])));
}

#[test]
fn questions_go_to_the_torrents() {
    let mut m = manager();
    let id = InfoHash::new([1u8; 20]);
    let other = InfoHash::new([2u8; 20]);
    tell(&mut m, SessionCommand::AddTorrent { info: torrent_info(1, 8) });
    let (told, r) = tell(&mut m, SessionCommand::GetTorrentDetail { id });
    assert!(matches!(told[0], SessionAction::Ask(_, Question::Detail)));
    assert!(matches!(r, Ok(SessionAnswer::Forwarded(_))));
    let (told, _) = tell(&mut m, SessionCommand::GetPeerSnapshots { id });
    assert!(matches!(told[0], SessionAction::Ask(_, Question::Peers)));
    let (told, _) = tell(&mut m, SessionCommand::GetTrackerStatuses { id });
    assert!(matches!(told[0], SessionAction::Ask(_, Question::Trackers)));
    let (told, _) = tell(&mut m, SessionCommand::GetMetrics { id });
    assert!(matches!(told[0], SessionAction::Ask(_, Question::Progress)));
    let addr = SocketAddr { ip: IpAddr::V4(1), port: 2 };
    let (told, _) = tell(&mut m, SessionCommand::ConnectPeer { id, addr });
    assert!(matches!(told[0], SessionAction::Connect(_, a) if a == addr));
    let cmd = SessionCommand::ConnectPeer { id: other, addr };
    assert!(matches!(tell(&mut m, cmd).1, Err(SessionError::TorrentNotFound(_))));
}

#[test]
fn connections_are_accepted_for_known_torrents() {
    let mut m = manager();
    tell(&mut m, SessionCommand::AddTorrent { info: torrent_info(1, 8) });
    let id = InfoHash::new([1u8; 20]);
    let hello = Handshake::new(PeerID::new([7u8; 20]), id).to_bytes();
    let a = m.accept(&hello).unwrap();
    assert_eq!(a.info_hash.as_bytes(), &[1u8; 20]);
    assert_eq!(a.peer_id.as_bytes(), &[7u8; 20]);
    assert!(a.supports_ext && a.dht_enabled);
    assert_eq!(a.reply, Handshake::new(PeerID::new([42u8; 20]), id).to_bytes());
    assert_eq!(m.accept(&hello[1..]).unwrap_err(), Refusal::NoHandshake);
    let unknown = Handshake::new(PeerID::new([7u8; 20]), InfoHash::new([2u8; 20])).to_bytes();
    assert_eq!(m.accept(&unknown).unwrap_err(), Refusal::UnknownTorrent);
}

#[test]
fn connections_with_ourselves_are_refused() {
    let mut m = manager();
    tell(&mut m, SessionCommand::AddTorrent { info: torrent_info(1, 8) });
    let own = Handshake::new(PeerID::new([42u8; 20]), InfoHash::new([1u8; 20])).to_bytes();
    assert_eq!(m.accept(&own).unwrap_err(), Refusal::OwnConnection);
}

#[test]
fn the_dht_is_set_up_by_the_configuration() {
    let d = manager().dht_config().unwrap();
    assert_eq!(d.id_file_path.as_str(), "/c/node.id");
    assert_eq!(d.state_file_path.as_str(), "/c/dht_state.dat");
    assert_eq!(d.port, 6881);
    let off = SessionConfig::builder().enable_dht(false).peer_id(PeerID::new([3u8; 20]));
    let m = SessionManager::new(off.build(None), PeerID::new([42u8; 20]));
    assert!(m.dht_config().is_none());
}

#[test]
fn waiting_ends_with_the_torrent() {
    let id = InfoHash::new([1u8; 20]);
    let other = InfoHash::new([2u8; 20]);
    assert!(matches!(
        wait_for_completion(&SessionEvent::TorrentCompleted(id), id),
        Some(Ok(()))
    ));
    assert!(matches!(
        wait_for_completion(&SessionEvent::TorrentRemoved(id), id),
        Some(Err(SessionError::TorrentNotFound(_)))
    ));
    assert!(wait_for_completion(&SessionEvent::TorrentCompleted(other), id).is_none());
    assert!(wait_for_completion(&SessionEvent::TorrentAdded(id), id).is_none());
}

#[test]
fn session_errors_have_messages() {
    assert_eq!(SessionError::SessionClosed.message(), "Session closed");
    assert_eq!(
        SessionError::TorrentParse(TorrentParseError::InvalidUtf8).message(),
        "Torrent parsing error: Invalid UTF-8 string"
    );
    assert_eq!(
        SessionError::MetadataPending(InfoHash::new([0u8; 20])).message(),
        "Metadata not yet available for torrent: 0000000000000000000000000000000000000000. \
         Waiting for peer connection..."
    );
}

#[test]
fn a_leecher_has_few_peers() {
    let mut t = leecher::Torrent::from_torrent_info(torrent_info(1, 8));
    assert_eq!(t.trackers, vec!["http://a.example.com/announce".to_string()]);
    assert!(t.start_session().is_some());
    let addr = SocketAddr { ip: IpAddr::V4(1), port: 2 };
    for n in 0..15 {
        assert!(t.add_peer(Pid(n), PeerSource::Outbound(addr)));
    }
    assert!(!t.add_peer(Pid(15), PeerSource::Outbound(addr)));
    assert!(t.send_to_peer(Pid(3), PeerMessage::SendChoke).is_some());
    assert!(t.send_to_peer(Pid(15), PeerMessage::SendChoke).is_none());
    let s = t.announce();
    assert_eq!((s.left, s.event), (8, Events::Started));
    let r = t.handle_message(leecher::TorrentMessage::ValidMetadata, 0);
    assert_eq!(r, leecher::TorrentReply::HasMetadata(true));
}

#[test]
fn a_leecher_fetches_metadata() {
    let magnet = Magnet {
        hash: Some(InfoHash::new([1u8; 20])),
        display_name: None,
        trackers: vec!["udp://a:1".to_string()],
    };
    let mut t = leecher::Torrent::from_magnet(magnet);
    assert_eq!(t.trackers.len(), 1);
    assert!(t.start_session().is_none());
    let fill = || leecher::TorrentMessage::FillMetadataRequest { pid: Pid(1) };
    assert_eq!(t.handle_message(fill(), 0), leecher::TorrentReply::Nothing);
    let m = leecher::TorrentMessage::PeerWithMetadata { pid: Pid(1), metadata_size: 20000 };
    t.handle_message(m, 0);
    assert_eq!(t.handle_message(fill(), 1), leecher::TorrentReply::MetadataPiece(0));
    assert_eq!(t.handle_message(fill(), 2), leecher::TorrentReply::MetadataPiece(0));
    assert_eq!(t.handle_message(fill(), 3), leecher::TorrentReply::MetadataPiece(1));
    let response = AnnounceResponse { peers: Vec::new(), interval: 77, leechers: 0, seeders: 0 };
    assert_eq!(announce_again(&Ok(response)), Some(77));
    assert_eq!(announce_again(&Err(TrackerError::Timeout)), None);
    assert!(keep_urls(&vec![("x".to_string(), Err("bad".to_string()))]).is_empty());
}

#[test]
fn a_leecher_reserves_room_for_the_metadata() {
    let magnet = |n| Magnet {
        hash: Some(InfoHash::new([n; 20])),
        display_name: None,
        trackers: Vec::new(),
    };
    let tell = |t: &mut leecher::Torrent, metadata_size| {
        t.handle_message(
            leecher::TorrentMessage::PeerWithMetadata { pid: Pid(1), metadata_size },
            7,
        )
    };
    let mut t = leecher::Torrent::from_magnet(magnet(1));
    tell(&mut t, 16389);
    match &t.metadata {
        Metadata::MagnetUri { metadata_state: MetadataState::Fetching(f), .. } => {
            assert_eq!((f.pieces_received, f.total_pieces, f.metadata_size), (0, 2, 16389));
            assert_eq!(f.metadata_pieces.len(), 2);
            assert!(f.buf.is_empty());
        }
        _ => panic!("nothing is fetched"),
    }
    let refused = t.metadata.put_metadata_piece(Bytes::from(vec![1; 5]), 1);
    assert_eq!(
        refused.unwrap_err(),
        "Piece data would overflow buffer: offset 16384 + size 5 > buffer size 0"
    );
    // a second size changes nothing
    tell(&mut t, 5);
    let mut empty = leecher::Torrent::from_magnet(magnet(2));
    tell(&mut empty, 0);
    for (t, size, pieces) in [(&t, 16389, 2), (&empty, 0, 0)] {
        match &t.metadata {
            Metadata::MagnetUri { metadata_state: MetadataState::Fetching(f), .. } => {
                assert_eq!((f.metadata_size, f.metadata_pieces.len()), (size, pieces));
            }
            _ => panic!("nothing is fetched"),
        }
    }
}
