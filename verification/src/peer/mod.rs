//! Connections with peers.

pub mod bitfield_state;
pub mod choker;
pub mod connection;
pub mod error;
pub mod metrics;
pub mod peer_connection;
pub mod piece_picker;
pub mod requests;
pub mod retry_queue;

use crate::bitfield::Bitfield;
use crate::metainfo::Info;
use crate::protocol::{Message, MessageView};
use std::sync::Arc;
use vstd::prelude::*;

verus! {

/// What a torrent tells one of its connections.
#[derive(Debug)]
pub enum PeerMessage {
    SendHave { piece_index: u32 },
    SendBitfield { bitfield: Bitfield },
    SendChoke,
    SendUnchoke,
    Disconnect,
    SendMessage(Message),
    HaveMetadata(Arc<Info>),
}

/// What a torrent tells one of its connections.
#[verifier::ext_equal]
pub enum PeerMessageView {
    SendHave(u32),
    SendBitfield(Seq<u8>),
    SendChoke,
    SendUnchoke,
    Disconnect,
    SendMessage(MessageView),
    HaveMetadata(Arc<Info>),
}

impl View for PeerMessage {
    type V = PeerMessageView;

    open spec fn view(&self) -> PeerMessageView {
        match self {
            PeerMessage::SendHave { piece_index } => PeerMessageView::SendHave(*piece_index),
            PeerMessage::SendBitfield { bitfield } => PeerMessageView::SendBitfield(
                bitfield.inner@,
            ),
            PeerMessage::SendChoke => PeerMessageView::SendChoke,
            PeerMessage::SendUnchoke => PeerMessageView::SendUnchoke,
            PeerMessage::Disconnect => PeerMessageView::Disconnect,
            PeerMessage::SendMessage(m) => PeerMessageView::SendMessage(m@),
            PeerMessage::HaveMetadata(info) => PeerMessageView::HaveMetadata(*info),
        }
    }
}

} // verus!
