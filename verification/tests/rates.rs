use torrent_rs::metrics::counters::{
    dec_connected, disk_bytes_read, disk_bytes_written, disk_read_time_ms, disk_write_time_ms,
    inc_recv_payload, inc_recv_total, inc_sent_payload, inc_sent_total, on_write_counter,
    set_downloading, set_seeding, MetricOp, MetricUpdate,
};
use torrent_rs::metrics::rate::RateWindow;
use torrent_rs::peer::metrics::PeerMetrics;

#[test]
fn window_starts_empty() {
    let w = RateWindow::new(7);
    assert_eq!(w.window_bytes(), 0);
    assert_eq!(w.last_update_ms, 7);
}

#[test]
fn record_accumulates_window() {
    let mut r = RateWindow::new(0);
    r.record(1024);
    r.record(1024);
    assert_eq!(r.window_bytes(), 2048);
}

#[test]
fn window_stays_open_for_half_a_second() {
    let mut r = RateWindow::new(100);
    r.record(1_000_000);
    assert_eq!(r.flush(599), None);
    assert_eq!(r.window_bytes(), 1_000_000);
    assert_eq!(r.flush(600), Some((1_000_000, 500)));
    assert_eq!(r.window_bytes(), 0);
    // the clock may stand still or run back
    assert_eq!(r.flush(0), None);
    r.record(5);
    r.reset(900);
    assert_eq!(r.window_bytes(), 0);
}

#[test]
fn metrics_start_with_nothing() {
    let m = PeerMetrics::new(0);
    assert_eq!(m.get_bytes_downloaded(), 0);
    assert_eq!(m.get_bytes_uploaded(), 0);
    assert_eq!(m.window_downloaded(), 0);
    assert_eq!(m.window_uploaded(), 0);
}

#[test]
fn test_record_download() {
    let mut m = PeerMetrics::new(0);
    m.record_download(1024);
    assert_eq!(m.get_bytes_downloaded(), 1024);
    assert_eq!(m.window_downloaded(), 1024);
}

#[test]
fn test_record_upload() {
    let mut m = PeerMetrics::new(0);
    m.record_upload(1024);
    assert_eq!(m.get_bytes_uploaded(), 1024);
    assert_eq!(m.window_uploaded(), 1024);
    assert_eq!(m.uploaded_in_last_round(), 1024);
    assert_eq!(m.uploaded_since_unchoked(), 1024);
}

#[test]
fn test_reset_round_counters() {
    let mut m = PeerMetrics::new(0);
    m.record_upload(1024);
    m.reset_round_counters();
    assert_eq!(m.uploaded_in_last_round(), 0);
    assert_eq!(m.uploaded_since_unchoked(), 1024);
    m.record_upload(512);
    assert_eq!(m.uploaded_in_last_round(), 512);
    assert_eq!(m.uploaded_since_unchoked(), 1536);
}

#[test]
fn test_reset_since_unchoked() {
    let mut m = PeerMetrics::new(0);
    m.record_upload(1024);
    m.reset_since_unchoked();
    assert_eq!(m.uploaded_since_unchoked(), 0);
    assert_eq!(m.uploaded_in_last_round(), 1024);
}

#[test]
fn test_upload_tracking_persists_across_rounds() {
    let mut m = PeerMetrics::new(0);
    m.record_upload(1000);
    m.reset_round_counters();
    m.record_upload(500);
    assert_eq!(m.uploaded_in_last_round(), 500);
    assert_eq!(m.uploaded_since_unchoked(), 1500);
    m.reset_round_counters();
    m.record_upload(200);
    assert_eq!(m.uploaded_in_last_round(), 200);
    assert_eq!(m.uploaded_since_unchoked(), 1700);
    m.reset_since_unchoked();
    assert_eq!(m.uploaded_since_unchoked(), 0);
    assert_eq!(m.uploaded_in_last_round(), 200);
}

#[test]
fn test_upload_download_independent() {
    let mut m = PeerMetrics::new(0);
    m.record_download(1000);
    m.record_upload(500);
    assert_eq!(m.get_bytes_downloaded(), 1000);
    assert_eq!(m.get_bytes_uploaded(), 500);
    assert_eq!(m.window_downloaded(), 1000);
    assert_eq!(m.window_uploaded(), 500);
}

#[test]
fn rates_are_taken_over_whole_windows() {
    let mut m = PeerMetrics::new(0);
    for _ in 0..10 {
        m.record_download(102_400);
    }
    assert_eq!(m.update_rates(499), (None, None));
    assert_eq!(m.update_rates(1000), (Some((1_024_000, 1000)), Some((0, 1000))));
    assert_eq!(m.get_bytes_downloaded(), 1_024_000);
    assert_eq!(m.window_downloaded(), 0);
    m.record_download(3);
    m.reset_timing(2000);
    assert_eq!(m.window_downloaded(), 0);
    assert_eq!(m.get_bytes_downloaded(), 1_024_003);
}

#[test]
fn counters_have_their_names() {
    let said = |u: MetricUpdate| (u.name, u.op);
    assert_eq!(said(set_downloading(2)), ("torrent.downloading", MetricOp::SetGauge(2)));
    assert_eq!(said(set_seeding(3)), ("torrent.seeding", MetricOp::SetGauge(3)));
    assert_eq!(said(disk_bytes_written(4)), ("disk.bytes_written", MetricOp::IncrementCounter(4)));
    assert_eq!(said(disk_bytes_read(5)), ("disk.bytes_read", MetricOp::IncrementCounter(5)));
    assert_eq!(said(disk_read_time_ms(6)), ("disk.read_time_ms", MetricOp::Record(6)));
    assert_eq!(said(disk_write_time_ms(7)), ("disk.write_time_ms", MetricOp::Record(7)));
    assert_eq!(said(on_write_counter()), ("net.writes", MetricOp::IncrementCounter(1)));
    assert_eq!(said(dec_connected()), ("net.peers_connected", MetricOp::DecrementGauge(1)));
    assert_eq!(said(inc_sent_payload(8)), ("traffic.sent_payload_bytes", MetricOp::IncrementCounter(8)));
    assert_eq!(said(inc_recv_payload(9)), ("traffic.recv_payload_bytes", MetricOp::IncrementCounter(9)));
    assert_eq!(said(inc_sent_total(10)), ("traffic.sent_bytes", MetricOp::IncrementCounter(10)));
    assert_eq!(said(inc_recv_total(11)), ("traffic.recv_bytes", MetricOp::IncrementCounter(11)));
}

#[test]
fn room_of_the_counts_is_known() {
    let mut m = PeerMetrics::new(0);
    m.record_download(10);
    assert!(m.room_for(100));
    assert!(!m.room_for(u64::MAX));
}
