use bytes::Bytes;
use sha1::{Digest, Sha1};
use std::sync::Arc;
use torrent_rs::bitfield::Bitfield;
use torrent_rs::detail::TrackerState;
use torrent_rs::events::peer::{DisconnectReason, PeerEvent};
use torrent_rs::events::session::SessionEvent;
use torrent_rs::events::torrent::TorrentEvent;
use torrent_rs::magnet::Magnet;
use torrent_rs::metainfo::{FileMode, Info, TorrentInfo};
use torrent_rs::metrics::progress::TorrentState;
use torrent_rs::net::{IpAddr, SocketAddr};
use torrent_rs::path::FilePath;
use torrent_rs::peer::PeerMessage;
use torrent_rs::protocol::{Block, BlockInfo, Message};
use torrent_rs::torrent::announce::{AnnounceAction, Announcer, DhtSearch};
use torrent_rs::torrent::control::{collect_trackers, Torrent};
use torrent_rs::torrent::{
    PeerOrigin, Pid, TorrentAction, TorrentContext, TorrentError, TorrentMessage, TorrentReply,
    TorrentSource,
};
use torrent_rs::trackers::{AnnounceResponse, Events, TrackerError};
use torrent_rs::types::{InfoHash, PeerID};
use torrent_rs::urls::ParsedUrl;

const PIECE: usize = 20000;

fn context(has_dht: bool) -> TorrentContext {
    TorrentContext {
        peer_id: PeerID::new([1u8; 20]),
        client_id: PeerID::new(*b"-AZ0000-abcdefghijkl"),
        torrents_dir: FilePath::from_text("/conf/torrents"),
        unchoke_slots: 1,
        has_dht,
    }
}

fn content() -> Vec<u8> {
    (0..2 * PIECE).map(|i| (i % 247) as u8).collect()
}

fn hash(data: &[u8]) -> [u8; 20] {
    let mut hasher = Sha1::new();
    hasher.update(data);
    hasher.finalize().into()
}

fn torrent_info() -> TorrentInfo {
    let content = content();
    TorrentInfo {
        info: Arc::new(Info {
            piece_length: PIECE as i64,
            pieces: content.chunks(PIECE).map(hash).collect(),
            private: None,
            mode: FileMode::SingleFile {
                name: "content.bin".to_string(),
                length: content.len() as i64,
                md5sum: None,
            },
        }),
        announce: "http://a.example.com:80/announce".to_string(),
        announce_list: Some(vec![vec!["no url".to_string(), "udp://b.example.com:7".to_string()]]),
        creation_date: None,
        comment: Some("a comment".to_string()),
        created_by: None,
        encoding: None,
        info_hash: InfoHash::new([9u8; 20]),
    }
}

fn address(n: u32) -> SocketAddr {
    SocketAddr { ip: IpAddr::V4(n), port: 6881 }
}

fn tell(t: &mut Torrent, m: TorrentMessage) -> (Vec<TorrentAction>, TorrentReply) {
    assert!(t.accepts(&m));
    t.handle_message(m, 5)
}

/// A torrent that is registered, with two peers.
fn downloading() -> Torrent {
    let (mut t, progress) = Torrent::new(context(true), TorrentSource::Torrent(torrent_info()), 0);
    assert_eq!(progress.name, "content.bin");
    assert_eq!((progress.total_pieces, progress.verified_pieces), (2, 0));
    assert_eq!(progress.total_bytes, 40000);
    assert!(matches!(t.start_session()[0], TorrentAction::Register(_)));
    assert!(t.size_fits());
    assert!(t.on_registered(true, false).is_empty());
    for n in 1..3 {
        let r = t.add_peer(Pid(n), PeerOrigin::Outbound(address(n as u32)));
        assert!(matches!(r[0], TorrentAction::Connect(_, _)));
    }
    t
}

fn ask_blocks(t: &mut Torrent, pid: usize, max_requests: usize) -> Vec<BlockInfo> {
    let m = TorrentMessage::RequestBlock {
        pid: Pid(pid),
        max_requests,
        bitfield: Bitfield::with_all_set(2),
    };
    match tell(t, m).1 {
        TorrentReply::Blocks(b) => b,
        _ => panic!("no blocks"),
    }
}

fn deliver(t: &mut Torrent, pid: usize, b: BlockInfo) -> Vec<TorrentAction> {
    let at = b.index as usize * PIECE + b.begin as usize;
    let data = content()[at..at + b.length as usize].to_vec();
    let block = Block { index: b.index, begin: b.begin, data: Bytes::from(data) };
    tell(t, TorrentMessage::ReceiveBlock(Pid(pid), block)).0
}

#[test]
fn a_download_runs_to_its_end() {
    let mut t = downloading();
    let m = TorrentMessage::ShouldBeInterested {
        pid: Pid(1),
        bitfield: Bitfield::with_all_set(2),
    };
    assert!(matches!(tell(&mut t, m).1, TorrentReply::Interest(true)));
    let blocks = ask_blocks(&mut t, 1, 4);
    assert_eq!(blocks.len(), 4);
    let mut written = 0;
    for b in blocks {
        for a in deliver(&mut t, 1, b) {
            if let TorrentAction::VerifyPiece { piece_index, piece } = a {
                assert!(t.expects(piece_index));
                assert_eq!(piece, content()[piece_index as usize * PIECE..][..PIECE].to_vec());
                let r = t.on_piece_verified(piece_index, piece, Some(true));
                let haves = r.iter().filter(|a| {
                    matches!(a, TorrentAction::ToPeer(_, PeerMessage::SendHave { .. }))
                });
                assert_eq!(haves.count(), 2);
                assert!(matches!(r[r.len() - 1], TorrentAction::WritePiece { .. }));
                written += 1;
                let r = t.on_piece_written(piece_index, true);
                if written == 2 {
                    assert!(matches!(
                        r[0],
                        TorrentAction::Torrent(TorrentEvent::StateChanged { .. })
                    ));
                    assert!(matches!(r[1], TorrentAction::Torrent(TorrentEvent::TorrentFinished)));
                    assert!(matches!(
                        r[2],
                        TorrentAction::Session(SessionEvent::TorrentCompleted(_))
                    ));
                } else {
                    assert!(r.is_empty());
                }
            }
        }
    }
    let p = t.update_progress();
    assert_eq!((p.verified_pieces, p.downloaded_bytes, p.connected_peers), (2, 40000, 2));
    assert!(matches!(p.state, TorrentState::Seeding));
    let m = TorrentMessage::ShouldBeInterested {
        pid: Pid(1),
        bitfield: Bitfield::with_all_set(2),
    };
    assert!(matches!(tell(&mut t, m).1, TorrentReply::Interest(false)));
}

#[test]
fn a_wrong_piece_is_fetched_again() {
    let mut t = downloading();
    for verdict in [Some(false), None] {
        let blocks = ask_blocks(&mut t, 1, 4);
        let mut failed = 0;
        for b in blocks.into_iter().filter(|b| b.index == 0) {
            for a in deliver(&mut t, 1, b) {
                if let TorrentAction::VerifyPiece { piece_index, piece } = a {
                    let r = t.on_piece_verified(piece_index, piece, verdict);
                    let last = &r[r.len() - 1];
                    assert!(matches!(
                        last,
                        TorrentAction::Torrent(TorrentEvent::HashFailed { piece_index: 0 })
                    ));
                    assert_eq!(r.len(), if verdict.is_some() { 2 } else { 1 });
                    failed += 1;
                }
            }
        }
        assert_eq!(failed, 1);
        tell(&mut t, TorrentMessage::ClearPeerRequest { pid: Pid(1) });
    }
    assert_eq!(t.update_progress().verified_pieces, 0);
}

#[test]
fn a_piece_that_cannot_be_written_is_fetched_again() {
    let mut t = downloading();
    let piece = content()[..PIECE].to_vec();
    t.on_piece_verified(0, piece.clone(), Some(true));
    t.on_piece_verified(1, piece, Some(true));
    assert!(t.on_piece_written(1, false).is_empty());
    assert_eq!(t.update_progress().verified_pieces, 1);
    assert!(!t.expects(2));
}

#[test]
fn others_are_told_to_cancel() {
    let mut t = downloading();
    let first = ask_blocks(&mut t, 1, 1);
    // the second peer is asked for the same block, once it is asked for all
    let second = ask_blocks(&mut t, 2, 8);
    assert!(second.contains(&first[0]));
    let r = deliver(&mut t, 1, first[0]);
    match &r[0] {
        TorrentAction::ToPeer(pid, PeerMessage::SendMessage(Message::Cancel(b))) => {
            assert_eq!(*pid, Pid(2));
            assert_eq!(*b, first[0]);
        }
        _ => panic!("no cancellation"),
    }
}

#[test]
fn slots_pass_on_when_peers_go() {
    let mut t = downloading();
    let (r, _) = tell(&mut t, TorrentMessage::Interest(Pid(1)));
    assert!(matches!(r[0], TorrentAction::ToPeer(Pid(1), PeerMessage::SendUnchoke)));
    assert!(tell(&mut t, TorrentMessage::Interest(Pid(2))).0.is_empty());
    let r = t.clean_up_peer(Pid(1), Some(Bitfield::with_all_set(2)));
    assert!(matches!(r[0], TorrentAction::ToPeer(Pid(2), PeerMessage::SendUnchoke)));
    match &r[1] {
        TorrentAction::Peer(PeerEvent::Disconnected { addr, reason }) => {
            assert_eq!(*addr, address(1));
            assert!(matches!(reason, DisconnectReason::Other(m) if m == "Clean up"));
        }
        _ => panic!("nobody is told"),
    }
    assert!(matches!(r[2], TorrentAction::Count(_)));
    let (r, _) = tell(&mut t, TorrentMessage::NotInterest(Pid(2)));
    assert!(matches!(r[0], TorrentAction::ToPeer(Pid(2), PeerMessage::SendChoke)));
    let r = t.run_choker(vec![Pid(2), Pid(7)], vec![Pid(2)]);
    assert_eq!(r.len(), 4);
    assert!(matches!(r[1], TorrentAction::Peer(PeerEvent::Choked { .. })));
    assert!(matches!(r[3], TorrentAction::Peer(PeerEvent::Unchoked { .. })));
}

#[test]
fn blocks_are_served_to_peers_that_are_there() {
    let mut t = downloading();
    let block_info = BlockInfo { index: 0, begin: 0, length: 4 };
    let m = TorrentMessage::RemoteBlockRequest { pid: Pid(1), block_info };
    assert!(matches!(tell(&mut t, m).0[0], TorrentAction::ReadBlock(Pid(1), _)));
    let m = TorrentMessage::RemoteBlockRequest { pid: Pid(8), block_info };
    assert!(tell(&mut t, m).0.is_empty());
    let block = || Block { index: 0, begin: 0, data: Bytes::from(vec![1, 2, 3, 4]) };
    assert_eq!(t.on_block_read(Pid(1), block()).len(), 1);
    assert!(t.on_block_read(Pid(8), block()).is_empty());
    assert!(t.can_send(4));
    t.on_block_sent(4);
    assert!(!t.can_send(u64::MAX));
    assert_eq!(t.flush_rates(1000), (Some((0, 1000)), Some((4, 1000))));
    assert_eq!(t.flush_rates(1100), (None, None));
}

#[test]
fn addresses_are_connected_to_once() {
    let (mut t, _) = Torrent::new(context(false), TorrentSource::Torrent(torrent_info()), 0);
    let l: Vec<SocketAddr> = (0..60).map(address).collect();
    t.on_discovered(l.clone());
    t.on_discovered(l);
    let (r, used) = t.connect_pending(49, 100);
    assert_eq!((r.len(), used), (2, 2));
    assert!(matches!(r[0], TorrentAction::Connect(Pid(100), a) if a == address(59)));
    let (r, used) = t.connect_pending(51, 102);
    assert_eq!((r.len(), used), (0, 0));
    let (_, used) = t.connect_pending(0, 102);
    assert_eq!(used, 51);
    let (_, used) = t.connect_pending(0, 153);
    assert_eq!(used, 7);
    assert_eq!(t.connect_pending(0, 160).1, 0);
    t.shutdown();
    assert_eq!(t.update_progress().connected_peers, 0);
}

#[test]
fn trackers_are_known_by_their_urls() {
    let (mut t, _) = Torrent::new(context(true), TorrentSource::Torrent(torrent_info()), 0);
    let statuses = |t: &mut Torrent| match tell(t, TorrentMessage::GetTrackerStatuses).1 {
        TorrentReply::TrackerStatuses(l) => l,
        _ => panic!("no statuses"),
    };
    let l = statuses(&mut t);
    assert_eq!(l.len(), 2);
    assert_eq!(l[0].url, "http://a.example.com:80/announce");
    assert_eq!(l[0].status, TrackerState::Idle);
    let update = |url: &str| TorrentMessage::TrackerUpdate {
        url: url.to_string(),
        status: TrackerState::Announced,
        seeder_count: Some(3),
        leecher_count: Some(4),
        peers_received: 5,
        error: None,
    };
    // the url in its normal form is the key
    tell(&mut t, update("http://a.example.com:80/announce"));
    assert_eq!(statuses(&mut t)[0].status, TrackerState::Idle);
    tell(&mut t, update("http://a.example.com/announce"));
    let l = statuses(&mut t);
    assert_eq!(l[0].status, TrackerState::Announced);
    assert_eq!((l[0].seeder_count, l[0].peers_received), (Some(3), 5));
    let parsed = ParsedUrl {
        text: "x".to_string(),
        scheme: "udp".to_string(),
        host: None,
        port: None,
    };
    let l = collect_trackers(vec![
        ("one".to_string(), Ok(parsed)),
        ("two".to_string(), Err("bad".to_string())),
    ]);
    assert_eq!((l.len(), l[0].0.as_str(), l[0].1.url.as_str()), (1, "x", "one"));
}

#[test]
fn details_tell_what_there_is() {
    let mut t = downloading();
    let mut id = [0u8; 20];
    id[..8].copy_from_slice(b"-TR2940-");
    let m = TorrentMessage::InboundPeer {
        pid: Pid(5),
        remote_addr: address(77),
        supports_ext: true,
        peer_id: PeerID::new(id),
        dht_enabled: true,
    };
    assert!(tell(&mut t, m).0.is_empty());
    match tell(&mut t, TorrentMessage::GetTorrentDetail).1 {
        TorrentReply::Detail(d) => {
            assert_eq!(d.meta.name, "content.bin");
            assert_eq!(d.meta.comment.as_deref(), Some("a comment"));
            assert_eq!((d.meta.num_pieces, d.meta.total_bytes), (2, 40000));
            assert_eq!(d.files.len(), 1);
            assert_eq!(d.peers.len(), 3);
            assert_eq!(d.peers[2].info.client_name, "Transmission");
            assert!(d.peers[2].info.extension_flags.metadata);
            // a peer that has not told its name goes by that of the client
            assert_eq!(d.peers[0].info.client_name, "Azureus");
            assert_eq!(d.trackers.len(), 2);
        }
        _ => panic!("no details"),
    }
    match tell(&mut t, TorrentMessage::GetPeerSnapshots).1 {
        TorrentReply::PeerSnapshots(l) => assert_eq!(l[2].addr, address(77)),
        _ => panic!("no peers"),
    }
    // a number is given once
    let again = TorrentMessage::ConnectPeer { pid: Pid(5), addr: address(1) };
    assert!(!t.accepts(&again));
    assert!(!t.accepts(&TorrentMessage::RequestBlock {
        pid: Pid(99),
        max_requests: 1,
        bitfield: Bitfield::with_all_set(2),
    }));
}

#[test]
fn metadata_is_fetched_for_a_magnet_link() {
    let mut data = b"d6:lengthi8e4:name3:abc12:piece lengthi4e6:pieces40:".to_vec();
    data.extend_from_slice(&[4u8; 40]);
    data.push(b'e');
    let magnet = Magnet {
        hash: Some(InfoHash::new(hash(&data))),
        display_name: None,
        trackers: vec!["udp://b.example.com:7".to_string()],
    };
    let id = InfoHash::new(hash(&data));
    let (mut t, progress) = Torrent::new(context(true), TorrentSource::Magnet(magnet), 0);
    assert_eq!(progress.name, id.to_hex());
    assert!(matches!(progress.state, TorrentState::FetchingMetadata));
    assert!(t.start_session().is_empty());
    assert!(matches!(
        tell(&mut t, TorrentMessage::GetTorrentDetail).1,
        TorrentReply::Nothing
    ));
    assert!(!t.accepts(&TorrentMessage::Have { pid: Pid(1), piece_idx: 0 }));
    t.add_peer(Pid(1), PeerOrigin::Outbound(address(1)));
    let m = TorrentMessage::PeerWithMetadata { pid: Pid(1), metadata_size: data.len() };
    tell(&mut t, m);
    let m = TorrentMessage::FillMetadataRequest { pid: Pid(1) };
    assert!(matches!(tell(&mut t, m).1, TorrentReply::MetadataPiece(0)));
    let m = TorrentMessage::RejectedMetadataRequest { pid: Pid(1), rejected_piece: 0 };
    tell(&mut t, m);
    let m = TorrentMessage::ReceiveMetadata {
        pid: Pid(1),
        piece_idx: 0,
        metadata: Bytes::from(data),
    };
    let (r, _) = tell(&mut t, m);
    assert!(matches!(r[0], TorrentAction::Register(_)));
    assert!(matches!(
        tell(&mut t, TorrentMessage::ValidMetadata).1,
        TorrentReply::Metadata(Some(_))
    ));
    let r = t.on_registered(true, true);
    match &r[0] {
        TorrentAction::Persist(path, _) => {
            assert_eq!(path.as_str(), format!("/conf/torrents/{}.torrent", id.to_hex()));
        }
        _ => panic!("nothing is kept"),
    }
    assert!(matches!(r[1], TorrentAction::ToPeer(Pid(1), PeerMessage::HaveMetadata(_))));
    assert!(matches!(r[2], TorrentAction::Session(SessionEvent::MetadataFetched(_))));
    assert!(t.accepts(&TorrentMessage::Have { pid: Pid(1), piece_idx: 0 }));
}

#[test]
fn seeds_have_all_pieces() {
    let source = TorrentSource::Seed {
        torrent_info: torrent_info(),
        content_dir: FilePath::from_text("/seed"),
    };
    let (mut t, progress) = Torrent::new(context(true), source, 0);
    assert_eq!((progress.verified_pieces, progress.downloaded_bytes), (2, 40000));
    match &t.start_session()[0] {
        TorrentAction::RegisterSeed(_, dir) => assert_eq!(dir.as_str(), "/seed"),
        _ => panic!("nothing is seeded"),
    }
    t.on_seed_registered(true);
    assert_eq!(t.update_progress().verified_pieces, 2);
    let a = t.announce();
    assert_eq!(a.client_state.event, Events::Completed);
    assert!(a.announcers[0].seed && a.dht.is_none());
}

#[test]
fn downloads_are_announced() {
    let t = downloading();
    assert!(t.left_fits());
    let a = t.announce();
    assert_eq!((a.client_state.left, a.client_state.event), (40000, Events::Started));
    assert_eq!(a.announcers.len(), 2);
    assert_eq!(a.announcers[0].url, "http://a.example.com/announce");
    let mut search: DhtSearch = a.dht.unwrap();
    assert_eq!((search.port, search.info_hash.as_bytes()), (6881, &[9u8; 20]));
    for i in 1..50 {
        assert!(search.on_response(), "{}", i);
    }
    assert!(!search.on_response());
    assert_eq!(search.end_round(), 900);
    assert!(search.on_response());
}

#[test]
fn announcements_are_repeated() {
    let mut a = Announcer::new("u".to_string(), false);
    assert!(matches!(
        a.begin(),
        AnnounceAction::Update { status: TrackerState::Announcing, .. }
    ));
    for (n, wait) in [(1, 5), (2, 10), (3, 15)] {
        let r = a.on_error(&TrackerError::Timeout, "Timeout");
        assert!(matches!(
            &r[1],
            AnnounceAction::Event(TorrentEvent::TrackerError { times_in_row, .. })
                if *times_in_row == n
        ));
        assert!(matches!(r[2], AnnounceAction::Wait(w) if w == wait));
    }
    a.retry_count = 100;
    assert!(matches!(a.on_error(&TrackerError::Timeout, "t")[2], AnnounceAction::Wait(60)));
    let answer = |interval| AnnounceResponse {
        peers: vec![address(1)],
        interval,
        leechers: -1,
        seeders: 7,
    };
    for (interval, wait) in [(-1, 1800), (0, 60), (59, 60), (1234, 1234)] {
        let r = a.on_response(answer(interval));
        assert!(matches!(
            r[0],
            AnnounceAction::Update {
                seeder_count: Some(7),
                leecher_count: Some(u32::MAX),
                peers_received: 1,
                ..
            }
        ));
        assert!(matches!(&r[2], AnnounceAction::Peers(l) if l.len() == 1));
        assert!(matches!(r[3], AnnounceAction::Wait(w) if w == wait));
    }
    assert_eq!(a.retry_count, 0);
    let r = a.on_error(&TrackerError::InvalidUrl("u".to_string()), "t");
    assert!(matches!(r[2], AnnounceAction::Stop));
    let mut seed = Announcer::new("u".to_string(), true);
    assert_eq!(seed.on_response(answer(100)).len(), 3);
}

#[test]
fn nodes_go_to_the_dht_where_there_is_one() {
    for has_dht in [true, false] {
        let source = TorrentSource::Torrent(torrent_info());
        let (mut t, _) = Torrent::new(context(has_dht), source, 0);
        let m = TorrentMessage::DhtAddNode { node_addr: address(3) };
        assert_eq!(tell(&mut t, m).0.len(), if has_dht { 1 } else { 0 });
    }
}

#[test]
fn torrent_errors_have_messages() {
    assert_eq!(
        TorrentError::InvalidMagnet("x".to_string()).message(),
        "Invalid Magnet URI: x"
    );
    assert_eq!(TorrentError::Io("x".to_string()).message(), "I/O error: x");
    let origin = PeerOrigin::Inbound {
        remote_addr: address(4),
        supports_ext: false,
        peer_id: PeerID::new([0u8; 20]),
        dht_enabled: false,
    };
    assert_eq!(origin.get_addr(), &address(4));
}
