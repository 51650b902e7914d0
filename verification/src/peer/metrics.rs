//! How much has been exchanged with a peer.

use crate::metrics::rate::RateWindow;
use vstd::prelude::*;

verus! {

/// Tracks per-peer traffic and choking algorithm counters.
#[derive(Debug, Clone, Copy, PartialEq, Eq, Structural)]
pub struct PeerMetrics {
    pub download: RateWindow,
    pub total_downloaded: u64,
    pub upload: RateWindow,
    pub total_uploaded: u64,
    pub uploaded_in_last_round: u64,
    pub uploaded_since_unchoked: u64,
}

impl PeerMetrics {
    /// Whether so many bytes can still be counted.
    pub open spec fn has_room(&self, bytes: int) -> bool {
        &&& self.total_downloaded + bytes <= u64::MAX
        &&& self.download.window_bytes + bytes <= u64::MAX
        &&& self.total_uploaded + bytes <= u64::MAX
        &&& self.upload.window_bytes + bytes <= u64::MAX
        &&& self.uploaded_in_last_round + bytes <= u64::MAX
        &&& self.uploaded_since_unchoked + bytes <= u64::MAX
    }

    /// Whether the counts have room for more bytes
    pub fn room_for(&self, bytes: u64) -> (r: bool)
        ensures
            r == self.has_room(bytes as int),
    {
        self.total_downloaded.checked_add(bytes).is_some()
            && self.download.window_bytes.checked_add(bytes).is_some()
            && self.total_uploaded.checked_add(bytes).is_some()
            && self.upload.window_bytes.checked_add(bytes).is_some()
            && self.uploaded_in_last_round.checked_add(bytes).is_some()
            && self.uploaded_since_unchoked.checked_add(bytes).is_some()
    }

    /// Nothing has been exchanged
    pub fn new(now_ms: u64) -> (r: Self)
        ensures
            r == (PeerMetrics {
                download: RateWindow { window_bytes: 0, last_update_ms: now_ms },
                total_downloaded: 0,
                upload: RateWindow { window_bytes: 0, last_update_ms: now_ms },
                total_uploaded: 0,
                uploaded_in_last_round: 0,
                uploaded_since_unchoked: 0,
            }),
    {
        PeerMetrics {
            download: RateWindow::new(now_ms),
            total_downloaded: 0,
            upload: RateWindow::new(now_ms),
            total_uploaded: 0,
            uploaded_in_last_round: 0,
            uploaded_since_unchoked: 0,
        }
    }

    /// Reset timing windows. Call when a peer slot is reused.
    pub fn reset_timing(&mut self, now_ms: u64)
        ensures
            *final(self) == (PeerMetrics {
                download: RateWindow { window_bytes: 0, last_update_ms: now_ms },
                upload: RateWindow { window_bytes: 0, last_update_ms: now_ms },
                ..*old(self)
            }),
    {
        self.download.reset(now_ms);
        self.upload.reset(now_ms);
    }

    /// Counts bytes that the peer has sent
    pub fn record_download(&mut self, bytes: u64)
        requires
            old(self).has_room(bytes as int),
        ensures
            *final(self) == (PeerMetrics {
                download: RateWindow {
                    window_bytes: (old(self).download.window_bytes + bytes) as u64,
                    ..old(self).download
                },
                total_downloaded: (old(self).total_downloaded + bytes) as u64,
                ..*old(self)
            }),
    {
        self.total_downloaded = self.total_downloaded + bytes;
        self.download.record(bytes);
    }

    /// Closes both windows; gives the bytes and milliseconds of each, where long enough
    pub fn update_rates(&mut self, now_ms: u64) -> (r: (Option<(u64, u64)>, Option<(u64, u64)>))
        ensures
            ({
                let down = now_ms - old(self).download.last_update_ms;
                let up = now_ms - old(self).upload.last_update_ms;
                &&& r.0 == if down < 500 {
                    None
                } else {
                    Some((old(self).download.window_bytes, down as u64))
                }
                &&& r.1 == if up < 500 {
                    None
                } else {
                    Some((old(self).upload.window_bytes, up as u64))
                }
                &&& *final(self) == (PeerMetrics {
                    download: if down < 500 {
                        old(self).download
                    } else {
                        RateWindow { window_bytes: 0, last_update_ms: now_ms }
                    },
                    upload: if up < 500 {
                        old(self).upload
                    } else {
                        RateWindow { window_bytes: 0, last_update_ms: now_ms }
                    },
                    ..*old(self)
                })
            }),
    {
        let down = self.download.flush(now_ms);
        let up = self.upload.flush(now_ms);
        (down, up)
    }

    /// All bytes that the peer has sent
    pub fn get_bytes_downloaded(&self) -> (r: u64)
        ensures
            r == self.total_downloaded,
    {
        self.total_downloaded
    }

    /// The bytes that the peer has sent since the rate was last computed
    pub fn window_downloaded(&self) -> (r: u64)
        ensures
            r == self.download.window_bytes,
    {
        self.download.window_bytes()
    }

    /// Counts bytes that the peer was sent
    pub fn record_upload(&mut self, bytes: u64)
        requires
            old(self).has_room(bytes as int),
        ensures
            *final(self) == (PeerMetrics {
                upload: RateWindow {
                    window_bytes: (old(self).upload.window_bytes + bytes) as u64,
                    ..old(self).upload
                },
                total_uploaded: (old(self).total_uploaded + bytes) as u64,
                uploaded_in_last_round: (old(self).uploaded_in_last_round + bytes) as u64,
                uploaded_since_unchoked: (old(self).uploaded_since_unchoked + bytes) as u64,
                ..*old(self)
            }),
    {
        self.total_uploaded = self.total_uploaded + bytes;
        self.upload.record(bytes);
        self.uploaded_in_last_round = self.uploaded_in_last_round + bytes;
        self.uploaded_since_unchoked = self.uploaded_since_unchoked + bytes;
    }

    /// All bytes that the peer was sent
    pub fn get_bytes_uploaded(&self) -> (r: u64)
        ensures
            r == self.total_uploaded,
    {
        self.total_uploaded
    }

    /// The bytes that the peer was sent since the rate was last computed
    pub fn window_uploaded(&self) -> (r: u64)
        ensures
            r == self.upload.window_bytes,
    {
        self.upload.window_bytes()
    }

    /// The bytes that the peer was sent in this round
    pub fn uploaded_in_last_round(&self) -> (r: u64)
        ensures
            r == self.uploaded_in_last_round,
    {
        self.uploaded_in_last_round
    }

    /// The bytes that the peer was sent since it was unchoked
    pub fn uploaded_since_unchoked(&self) -> (r: u64)
        ensures
            r == self.uploaded_since_unchoked,
    {
        self.uploaded_since_unchoked
    }

    /// Call at each unchoke interval.
    pub fn reset_round_counters(&mut self)
        ensures
            *final(self) == (PeerMetrics { uploaded_in_last_round: 0, ..*old(self) }),
    {
        self.uploaded_in_last_round = 0;
    }

    /// Call when peer transitions to choked.
    pub fn reset_since_unchoked(&mut self)
        ensures
            *final(self) == (PeerMetrics { uploaded_since_unchoked: 0, ..*old(self) }),
    {
        self.uploaded_since_unchoked = 0;
    }
}

} // verus!
