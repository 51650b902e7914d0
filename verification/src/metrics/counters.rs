//! What is counted, and under which names.

use vstd::prelude::*;

verus! {

/// What is done to a metric.
#[derive(Debug, Clone, Copy, PartialEq, Eq, Structural)]
pub enum MetricOp {
    IncrementCounter(u64),
    SetGauge(u64),
    IncrementGauge(u64),
    DecrementGauge(u64),
    Record(u64),
}

/// An update of a metric, for the recorder to carry out.
#[derive(Debug, Clone, Copy, PartialEq, Eq)]
pub struct MetricUpdate {
    pub name: &'static str,
    pub op: MetricOp,
}

/// How many torrents are downloading
pub fn set_downloading(n: usize) -> (r: MetricUpdate)
    ensures
        r.name@ == "torrent.downloading"@,
        r.op == MetricOp::SetGauge(n as u64),
{
    MetricUpdate { name: "torrent.downloading", op: MetricOp::SetGauge(n as u64) }
}

/// How many torrents are seeding
pub fn set_seeding(n: usize) -> (r: MetricUpdate)
    ensures
        r.name@ == "torrent.seeding"@,
        r.op == MetricOp::SetGauge(n as u64),
{
    MetricUpdate { name: "torrent.seeding", op: MetricOp::SetGauge(n as u64) }
}

/// Bytes were written to disk
pub fn disk_bytes_written(n: u64) -> (r: MetricUpdate)
    ensures
        r.name@ == "disk.bytes_written"@,
        r.op == MetricOp::IncrementCounter(n),
{
    MetricUpdate { name: "disk.bytes_written", op: MetricOp::IncrementCounter(n) }
}

/// Bytes were read from disk
pub fn disk_bytes_read(n: u64) -> (r: MetricUpdate)
    ensures
        r.name@ == "disk.bytes_read"@,
        r.op == MetricOp::IncrementCounter(n),
{
    MetricUpdate { name: "disk.bytes_read", op: MetricOp::IncrementCounter(n) }
}

/// A read from disk took so long
pub fn disk_read_time_ms(n: u64) -> (r: MetricUpdate)
    ensures
        r.name@ == "disk.read_time_ms"@,
        r.op == MetricOp::Record(n),
{
    MetricUpdate { name: "disk.read_time_ms", op: MetricOp::Record(n) }
}

/// A write to disk took so long
pub fn disk_write_time_ms(n: u64) -> (r: MetricUpdate)
    ensures
        r.name@ == "disk.write_time_ms"@,
        r.op == MetricOp::Record(n),
{
    MetricUpdate { name: "disk.write_time_ms", op: MetricOp::Record(n) }
}

/// A piece was requested
pub fn piece_requests() -> (r: MetricUpdate)
    ensures
        r.name@ == "bt.piece_requests"@,
        r.op == MetricOp::IncrementCounter(1),
{
    MetricUpdate { name: "bt.piece_requests", op: MetricOp::IncrementCounter(1) }
}

/// A piece passed verification
pub fn piece_passed() -> (r: MetricUpdate)
    ensures
        r.name@ == "bt.piece_passed"@,
        r.op == MetricOp::IncrementCounter(1),
{
    MetricUpdate { name: "bt.piece_passed", op: MetricOp::IncrementCounter(1) }
}

/// A piece failed verification
pub fn piece_failed() -> (r: MetricUpdate)
    ensures
        r.name@ == "bt.piece_failed"@,
        r.op == MetricOp::IncrementCounter(1),
{
    MetricUpdate { name: "bt.piece_failed", op: MetricOp::IncrementCounter(1) }
}

/// A connection was attempted
pub fn connection_attempts() -> (r: MetricUpdate)
    ensures
        r.name@ == "net.connection_attempts"@,
        r.op == MetricOp::IncrementCounter(1),
{
    MetricUpdate { name: "net.connection_attempts", op: MetricOp::IncrementCounter(1) }
}

/// A peer connected to us
pub fn incoming_connections() -> (r: MetricUpdate)
    ensures
        r.name@ == "net.incoming_connections"@,
        r.op == MetricOp::IncrementCounter(1),
{
    MetricUpdate { name: "net.incoming_connections", op: MetricOp::IncrementCounter(1) }
}

/// A peer is connected
pub fn inc_connected() -> (r: MetricUpdate)
    ensures
        r.name@ == "net.peers_connected"@,
        r.op == MetricOp::IncrementGauge(1),
{
    MetricUpdate { name: "net.peers_connected", op: MetricOp::IncrementGauge(1) }
}

/// A peer is no longer connected
pub fn dec_connected() -> (r: MetricUpdate)
    ensures
        r.name@ == "net.peers_connected"@,
        r.op == MetricOp::DecrementGauge(1),
{
    MetricUpdate { name: "net.peers_connected", op: MetricOp::DecrementGauge(1) }
}

/// Something was read from the network
pub fn on_read_counter() -> (r: MetricUpdate)
    ensures
        r.name@ == "net.reads"@,
        r.op == MetricOp::IncrementCounter(1),
{
    MetricUpdate { name: "net.reads", op: MetricOp::IncrementCounter(1) }
}

/// Something was written to the network
pub fn on_write_counter() -> (r: MetricUpdate)
    ensures
        r.name@ == "net.writes"@,
        r.op == MetricOp::IncrementCounter(1),
{
    MetricUpdate { name: "net.writes", op: MetricOp::IncrementCounter(1) }
}

/// Payload was sent
pub fn inc_sent_payload(bytes: u64) -> (r: MetricUpdate)
    ensures
        r.name@ == "traffic.sent_payload_bytes"@,
        r.op == MetricOp::IncrementCounter(bytes),
{
    MetricUpdate { name: "traffic.sent_payload_bytes", op: MetricOp::IncrementCounter(bytes) }
}

/// Payload was received
pub fn inc_recv_payload(bytes: u64) -> (r: MetricUpdate)
    ensures
        r.name@ == "traffic.recv_payload_bytes"@,
        r.op == MetricOp::IncrementCounter(bytes),
{
    MetricUpdate { name: "traffic.recv_payload_bytes", op: MetricOp::IncrementCounter(bytes) }
}

/// Bytes were sent
pub fn inc_sent_total(bytes: u64) -> (r: MetricUpdate)
    ensures
        r.name@ == "traffic.sent_bytes"@,
        r.op == MetricOp::IncrementCounter(bytes),
{
    MetricUpdate { name: "traffic.sent_bytes", op: MetricOp::IncrementCounter(bytes) }
}

/// Bytes were received
pub fn inc_recv_total(bytes: u64) -> (r: MetricUpdate)
    ensures
        r.name@ == "traffic.recv_bytes"@,
        r.op == MetricOp::IncrementCounter(bytes),
{
    MetricUpdate { name: "traffic.recv_bytes", op: MetricOp::IncrementCounter(bytes) }
}

} // verus!
