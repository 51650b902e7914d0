//! What holds of what trackers are asked and of how they answer.

use crate::bencode::{entry, parsed, Value};
use crate::endian::{be16, be32, be64, read16, read32, read64, signed32, signed64};
use crate::endian::{unsigned32, unsigned64};
use crate::ip_text::ip_text;
use crate::net::{IpAddr, SocketAddr};
use crate::peer::error::signed_text;
use crate::text::number_text;
use crate::trackers::http::{announce_pairs, compact_peers, listed_peers, peer_of};
use crate::trackers::http::{percent_text, response_of, upper_digit};
use crate::trackers::udp::{announce_bytes, connect_bytes, patience, tracker_position, usable};
use crate::trackers::udp::{announcement_of, connection_of, datagram_of, KindView};
use crate::trackers::udp::{with_connection, CachedConnection};
use crate::trackers::{AnnounceData, Events, ResponseView, TrackerFault};
use vstd::prelude::*;
use vstd::utf8::*;

verus! {

/// Where every entry of a list reads as a peer, the answer has as many peers as the list has
/// entries, and each is what its own entry says.
pub proof fn every_listed_peer_is_kept(l: Seq<Value>, n: int)
    requires
        0 <= n <= l.len(),
        forall|i: int| 0 <= i < n ==> peer_of(#[trigger] l[i]) is Ok,
    ensures
        listed_peers(l, n) matches Ok(s) && s.len() == n && forall|i: int|
            0 <= i < n ==> #[trigger] s[i] == peer_of(l[i])->Ok_0,
    decreases n,
{
    if n > 0 {
        every_listed_peer_is_kept(l, n - 1);
        assert(peer_of(l[n - 1]) is Ok);
    }
}

/// Where an entry of a list reads as no peer, the first such entry is reported and no peer is kept.
pub proof fn first_bad_peer_is_reported(l: Seq<Value>, n: int, k: int)
    requires
        0 <= k < n <= l.len(),
        peer_of(l[k]) is Err,
        forall|i: int| 0 <= i < k ==> peer_of(#[trigger] l[i]) is Ok,
    ensures
        listed_peers(l, n) == Err::<Seq<SocketAddr>, TrackerFault>(peer_of(l[k])->Err_0),
    decreases n,
{
    if k == n - 1 {
        every_listed_peer_is_kept(l, k);
    } else {
        first_bad_peer_is_reported(l, n - 1, k);
    }
}

/// An entry that names an address and a port reads as the peer at that address and port.
pub proof fn entry_reads_as_its_peer(d: Seq<(Seq<u8>, Value)>, text: Seq<char>, ip: IpAddr, port: u16)
    requires
        entry(d, encode_utf8("ip"@)) == Some(Value::Bytes(encode_utf8(text))),
        ip_text(encode_utf8(text)) == Some(ip),
        entry(d, encode_utf8("port"@)) == Some(Value::Int(port as int)),
    ensures
        peer_of(Value::Dict(d)) == Ok::<SocketAddr, TrackerFault>(SocketAddr { ip, port }),
{
    encode_utf8_valid_utf8(text);
    encode_utf8_decode_utf8(text);
}

/// An entry without an address or without a port, or whose address is none, reads as no peer.
pub proof fn entry_without_address_or_port_is_no_peer(d: Seq<(Seq<u8>, Value)>, b: Seq<u8>)
    ensures
        entry(d, encode_utf8("ip"@)) is None ==> peer_of(Value::Dict(d)) is Err,
        entry(d, encode_utf8("ip"@)) == Some(Value::Bytes(b)) && ip_text(b) is None ==> peer_of(
            Value::Dict(d),
        ) is Err,
        entry(d, encode_utf8("port"@)) is None ==> peer_of(Value::Dict(d)) is Err,
{
}

/// Each six bytes of a short list are a peer: the four bytes of its address and the two of its
/// port, the highest byte first.
pub proof fn six_bytes_are_a_peer(b: Seq<u8>, i: int)
    requires
        0 <= i < b.len() / 6,
    ensures
        compact_peers(b).len() == b.len() / 6,
        compact_peers(b)[i].ip matches IpAddr::V4(a) && a == b[6 * i] * 0x100_0000 + b[6 * i + 1]
            * 0x1_0000 + b[6 * i + 2] * 0x100 + b[6 * i + 3],
        compact_peers(b)[i].port == b[6 * i + 4] * 0x100 + b[6 * i + 5],
{
}

/// An answer that names a reason for failure is an error with that reason. Any other has the peers
/// that it lists in either form, and the numbers that it names; where it names none, the interval
/// is twenty seconds and there are neither seeders nor leechers.
pub proof fn answer_says_what_the_tracker_wrote(
    data: Seq<u8>,
    d: Seq<(Seq<u8>, Value)>,
    rest: int,
    reason: Seq<char>,
    short: Seq<u8>,
    list: Seq<Value>,
    interval: i32,
    seeders: i32,
    leechers: i32,
)
    requires
        parsed(data) == Ok::<(Value, int), crate::bencode::BencodeError>((Value::Dict(d), rest)),
    ensures
        entry(d, encode_utf8("failure reason"@)) == Some(Value::Bytes(encode_utf8(reason)))
            ==> response_of(data) == Err::<ResponseView, TrackerFault>(
            TrackerFault::TrackerError(reason),
        ),
        ({
            let answers = entry(d, encode_utf8("failure reason"@)) is None;
            let r = response_of(data);
            &&& answers && entry(d, encode_utf8("peers"@)) is None ==> r is Err
            &&& answers && entry(d, encode_utf8("peers"@)) == Some(Value::Bytes(short))
                && short.len() % 6 != 0 ==> r is Err
            &&& answers && entry(d, encode_utf8("peers"@)) == Some(Value::Bytes(short))
                && short.len() % 6 == 0 ==> r is Ok && r->Ok_0.peers == compact_peers(short)
            &&& answers && entry(d, encode_utf8("peers"@)) == Some(Value::List(list)) && (forall|
                i: int,
            |
                0 <= i < list.len() ==> peer_of(#[trigger] list[i]) is Ok) ==> r is Ok
                && r->Ok_0.peers == Seq::new(list.len(), |i: int| peer_of(list[i])->Ok_0)
            &&& answers && r is Ok && entry(d, encode_utf8("interval"@)) == Some(
                Value::Int(interval as int),
            ) ==> r->Ok_0.interval == interval
            &&& answers && r is Ok && entry(d, encode_utf8("interval"@)) is None
                ==> r->Ok_0.interval == 20
            &&& answers && r is Ok && entry(d, encode_utf8("complete"@)) == Some(
                Value::Int(seeders as int),
            ) ==> r->Ok_0.seeders == seeders
            &&& answers && r is Ok && entry(d, encode_utf8("complete"@)) is None
                ==> r->Ok_0.seeders == 0
            &&& answers && r is Ok && entry(d, encode_utf8("incomplete"@)) == Some(
                Value::Int(leechers as int),
            ) ==> r->Ok_0.leechers == leechers
            &&& answers && r is Ok && entry(d, encode_utf8("incomplete"@)) is None
                ==> r->Ok_0.leechers == 0
        }),
{
    encode_utf8_valid_utf8(reason);
    encode_utf8_decode_utf8(reason);
    if (forall|i: int| 0 <= i < list.len() ==> peer_of(#[trigger] list[i]) is Ok) {
        every_listed_peer_is_kept(list, list.len() as int);
        assert(listed_peers(list, list.len() as int)->Ok_0 =~= Seq::new(
            list.len(),
            |i: int| peer_of(list[i])->Ok_0,
        ));
    }
}

/// The value of an upper-case hexadecimal digit.
pub open spec fn digit_value(c: char) -> int {
    if '0' <= c <= '9' {
        c as int - '0' as int
    } else {
        c as int - 'A' as int + 10
    }
}

/// Each byte in percent encoding is a percent sign and the two digits that write it, the higher
/// first, and nothing else stands between them.
pub proof fn percent_text_writes_each_byte(b: Seq<u8>, i: int)
    requires
        0 <= i < b.len(),
    ensures
        percent_text(b).len() == 3 * b.len(),
        percent_text(b)[3 * i] == '%',
        digit_value(percent_text(b)[3 * i + 1]) * 16 + digit_value(percent_text(b)[3 * i + 2])
            == b[i],
        ('0' <= percent_text(b)[3 * i + 1] <= '9' || 'A' <= percent_text(b)[3 * i + 1] <= 'F'),
        ('0' <= percent_text(b)[3 * i + 2] <= '9' || 'A' <= percent_text(b)[3 * i + 2] <= 'F'),
{
    let high: u8 = b[i] / 16;
    let low: u8 = b[i] % 16;
    assert((3 * i) / 3 == i && (3 * i) % 3 == 0);
    assert((3 * i + 1) / 3 == i && (3 * i + 1) % 3 == 1);
    assert((3 * i + 2) / 3 == i && (3 * i + 2) % 3 == 2);
    assert(percent_text(b)[3 * i + 1] == upper_digit(high));
    assert(percent_text(b)[3 * i + 2] == upper_digit(low));
}

/// A tracker learns of which torrent it is asked, by whom and where, how much was moved and is
/// left, and what has happened, each under its own name.
pub proof fn tracker_is_told_everything(d: AnnounceData)
    ensures
        announce_pairs(d).contains(("info_hash"@, percent_text(d.info_hash@))),
        announce_pairs(d).contains(("peer_id"@, percent_text(d.peer_id@))),
        announce_pairs(d).contains(("port"@, number_text(d.port as nat))),
        announce_pairs(d).contains(("uploaded"@, signed_text(d.uploaded as int))),
        announce_pairs(d).contains(("downloaded"@, signed_text(d.downloaded as int))),
        announce_pairs(d).contains(("left"@, signed_text(d.left as int))),
        announce_pairs(d).contains(("compact"@, "1"@)),
        d.event is Started ==> announce_pairs(d).contains(("event"@, "started"@)),
        d.event is Completed ==> announce_pairs(d).contains(("event"@, "completed"@)),
        d.event is Stopped ==> announce_pairs(d).contains(("event"@, "stopped"@)),
        announce_pairs(d).len() == if d.event is Regular {
            7int
        } else {
            8
        },
{
    let p = announce_pairs(d);
    assert(p[0] == ("info_hash"@, percent_text(d.info_hash@)));
    assert(p[1] == ("peer_id"@, percent_text(d.peer_id@)));
    assert(p[2] == ("port"@, number_text(d.port as nat)));
    assert(p[3] == ("uploaded"@, signed_text(d.uploaded as int)));
    assert(p[4] == ("downloaded"@, signed_text(d.downloaded as int)));
    assert(p[5] == ("left"@, signed_text(d.left as int)));
    assert(p[6] == ("compact"@, "1"@));
    if d.event is Started {
        assert(p[7] == ("event"@, "started"@));
    } else if d.event is Completed {
        assert(p[7] == ("event"@, "completed"@));
    } else if d.event is Stopped {
        assert(p[7] == ("event"@, "stopped"@));
    }
}

/// Numbers are written with their highest byte first.
pub proof fn highest_byte_comes_first(n: u64, m: u32, k: u16)
    ensures
        be16(k).len() == 2,
        be16(k)[0] * 0x100 + be16(k)[1] == k,
        be32(m).len() == 4,
        be32(m)[0] * 0x100_0000 + be32(m)[1] * 0x1_0000 + be32(m)[2] * 0x100 + be32(m)[3] == m,
        be64(n).len() == 8,
        read32(be64(n), 0) * 0x1_0000_0000 + read32(be64(n), 4) == n,
{
    assert(be64(n).subrange(0, 8) =~= be64(n));
    crate::endian::be64_reads_back(n, be64(n), 0);
    assert(be32(m).subrange(0, 4) =~= be32(m));
    crate::endian::be32_reads_back(m, be32(m), 0);
}

/// Numbers are read with their highest byte first.
pub proof fn highest_byte_is_read_first(s: Seq<u8>, i: int)
    ensures
        read16(s, i) == s[i] * 256 + s[i + 1],
        read32(s, i) == ((s[i] * 256 + s[i + 1]) * 256 + s[i + 2]) * 256 + s[i + 3],
        read64(s, i) == read32(s, i) * 4294967296 + read32(s, i + 4),
{
}

/// A number below zero stands for what lies as far below the next power of two, both ways.
pub proof fn signs_are_kept(n: i32, m: i64)
    ensures
        unsigned32(n) == if n < 0 {
            n + 0x1_0000_0000
        } else {
            n as int
        },
        unsigned64(m) == if m < 0 {
            m + 0x1_0000_0000_0000_0000
        } else {
            m as int
        },
        signed32(unsigned32(n)) == n,
        signed64(unsigned64(m)) == m,
{
}

/// A request for a connection holds the number of the protocol, that of the action and its own.
pub proof fn connection_is_asked_for(tx_id: i32)
    ensures
        ({
            let b = connect_bytes(tx_id);
            &&& b.len() == 16
            &&& read64(b, 0) == 0x417_2710_1980
            &&& read32(b, 8) == 0
            &&& read32(b, 12) == unsigned32(tx_id)
        }),
{
    let b = connect_bytes(tx_id);
    assert(b.subrange(0, 8) =~= be64(0x417_2710_1980));
    assert(b.subrange(8, 12) =~= be32(0));
    assert(b.subrange(12, 16) =~= be32(unsigned32(tx_id)));
    crate::endian::be64_reads_back(0x417_2710_1980, b, 0);
    crate::endian::be32_reads_back(0, b, 8);
    crate::endian::be32_reads_back(unsigned32(tx_id), b, 12);
}

/// An announcement holds the connection, its own number, the torrent, the peer, how much was moved
/// and is left, what has happened and the port, each in its place.
#[verifier::rlimit(60)]
pub proof fn announcement_holds_everything(connection_id: i64, tx_id: i32, d: AnnounceData)
    ensures
        ({
            let b = announce_bytes(connection_id, tx_id, d);
            &&& b.len() == 98
            &&& read64(b, 0) == unsigned64(connection_id)
            &&& read32(b, 8) == 1
            &&& read32(b, 12) == unsigned32(tx_id)
            &&& b.subrange(16, 36) == d.info_hash@
            &&& b.subrange(36, 56) == d.peer_id@
            &&& read64(b, 56) == unsigned64(d.downloaded)
            &&& read64(b, 64) == unsigned64(d.left)
            &&& read64(b, 72) == unsigned64(d.uploaded)
            &&& read32(b, 80) == match d.event {
                Events::Regular => 0int,
                Events::Completed => 1,
                Events::Started => 2,
                Events::Stopped => 3,
            }
            &&& read32(b, 84) == 0
            &&& read32(b, 88) == 0
            &&& read32(b, 92) == 0xffff_ffff
            &&& read16(b, 96) == d.port
        }),
{
    let b = announce_bytes(connection_id, tx_id, d);
    assert(b.len() == 98);
    assert(b.subrange(0, 8) =~= be64(unsigned64(connection_id)));
    assert(b.subrange(8, 12) =~= be32(1));
    assert(b.subrange(12, 16) =~= be32(unsigned32(tx_id)));
    assert(b.subrange(16, 36) =~= d.info_hash@);
    assert(b.subrange(36, 56) =~= d.peer_id@);
    assert(b.subrange(56, 64) =~= be64(unsigned64(d.downloaded)));
    assert(b.subrange(64, 72) =~= be64(unsigned64(d.left)));
    assert(b.subrange(72, 80) =~= be64(unsigned64(d.uploaded)));
    assert(b.subrange(80, 84) =~= be32(d.event.number()));
    assert(b.subrange(84, 88) =~= be32(0));
    assert(b.subrange(88, 92) =~= be32(0));
    assert(b.subrange(92, 96) =~= be32(0xffff_ffff));
    assert(b.subrange(96, 98) =~= be16(d.port));
    crate::endian::be64_reads_back(unsigned64(connection_id), b, 0);
    crate::endian::be32_reads_back(1, b, 8);
    crate::endian::be32_reads_back(unsigned32(tx_id), b, 12);
    crate::endian::be64_reads_back(unsigned64(d.downloaded), b, 56);
    crate::endian::be64_reads_back(unsigned64(d.left), b, 64);
    crate::endian::be64_reads_back(unsigned64(d.uploaded), b, 72);
    crate::endian::be32_reads_back(d.event.number(), b, 80);
    crate::endian::be32_reads_back(0, b, 84);
    crate::endian::be32_reads_back(0, b, 88);
    crate::endian::be32_reads_back(0xffff_ffff, b, 92);
    crate::endian::be16_reads_back(d.port, b, 96);
}

/// A datagram that is too short, or is for something else, is no answer.
pub proof fn other_datagrams_are_no_answers(b: Seq<u8>)
    ensures
        b.len() < 16 ==> connection_of(b) == Err::<i64, TrackerFault>(TrackerFault::TooShort),
        b.len() >= 16 && read32(b, 0) != 0 ==> connection_of(b) is Err,
        b.len() < 20 ==> announcement_of(b) == Err::<ResponseView, TrackerFault>(
            TrackerFault::TooShort,
        ),
        b.len() >= 20 && read32(b, 0) != 1 ==> announcement_of(b) is Err,
        b.len() < 8 ==> datagram_of(b) is None,
        read32(b, 0) != 0 && read32(b, 0) != 1 ==> datagram_of(b) is None,
        read32(b, 0) == 0 && b.len() < 16 ==> datagram_of(b) is None,
        read32(b, 0) == 1 && b.len() < 20 ==> datagram_of(b) is None,
{
}

/// A datagram answers the request whose number it bears, with what it says.
pub proof fn datagram_answers_its_request(b: Seq<u8>, tx_id: i32)
    requires
        b.len() >= 16,
        read32(b, 4) == unsigned32(tx_id),
    ensures
        read32(b, 0) == 0 ==> datagram_of(b) == Some(
            (tx_id, KindView::Connect(signed64(read64(b, 8) as u64))),
        ),
        b.len() >= 20 && read32(b, 0) == 1 ==> {
            let (id, kind) = datagram_of(b)->0;
            &&& datagram_of(b) is Some && id == tx_id && kind is Announce
            &&& unsigned32(kind->Announce_0.interval) == read32(b, 8)
            &&& unsigned32(kind->Announce_0.leechers) == read32(b, 12)
            &&& unsigned32(kind->Announce_0.seeders) == read32(b, 16)
            &&& kind->Announce_0.peers == compact_peers(b.skip(20))
        },
{
    signs_are_kept(tx_id, 0);
}

/// Where the url itself is bad, asking again is of no use; any other failure may pass.
pub proof fn bad_urls_stay_bad(e: TrackerFault)
    ensures
        e.permanent() <==> e is InvalidScheme || e is InvalidUrl || e is UrlParse,
{
}

proof fn first_tracker(s: Seq<(SocketAddr, CachedConnection)>, addr: SocketAddr, i: int)
    requires
        0 <= i,
    ensures
        match tracker_position(s, addr, i) {
            Some(k) => i <= k < s.len() && s[k].0 == addr && forall|j: int|
                i <= j < k ==> (#[trigger] s[j]).0 != addr,
            None => forall|j: int| i <= j < s.len() ==> (#[trigger] s[j]).0 != addr,
        },
    decreases s.len() - i,
{
    if i < s.len() && s[i].0 != addr {
        first_tracker(s, addr, i + 1);
    }
}

/// A connection that was granted is used until it expires, and no longer; those with other trackers
/// are as before.
pub proof fn granted_connection_is_used(
    s: Seq<(SocketAddr, CachedConnection)>,
    addr: SocketAddr,
    c: CachedConnection,
    other: SocketAddr,
    now: u64,
)
    ensures
        usable(with_connection(s, addr, c), addr, now) == if now < c.expires_at {
            Some(c.id)
        } else {
            None
        },
        other != addr ==> usable(with_connection(s, addr, c), other, now) == usable(s, other, now),
        usable(Seq::empty(), addr, now) is None,
{
    let t = with_connection(s, addr, c);
    first_tracker(s, addr, 0);
    first_tracker(t, addr, 0);
    first_tracker(s, other, 0);
    first_tracker(t, other, 0);
    match tracker_position(s, addr, 0) {
        Some(k) => {
            assert(t[k] == (addr, c));
            let j = tracker_position(t, addr, 0)->0;
            if j < k {
                assert(t[j] == s[j]);
            }
            if other != addr {
                assert forall|x: int| 0 <= x < s.len() && x != k implies (#[trigger] t[x])
                    == s[x] by {}
                match tracker_position(s, other, 0) {
                    Some(x) => {
                        assert(t[x] == s[x]);
                        let y = tracker_position(t, other, 0)->0;
                        if y < x {
                            assert(t[y] == s[y]);
                        }
                    },
                    None => {
                        if let Some(y) = tracker_position(t, other, 0) {
                            assert(y != k);
                            assert(t[y] == s[y]);
                        }
                    },
                }
            }
        },
        None => {
            let n = s.len() as int;
            assert(t[n] == (addr, c));
            let j = tracker_position(t, addr, 0)->0;
            if j < n {
                assert(t[j] == s[j]);
            }
            if other != addr {
                match tracker_position(s, other, 0) {
                    Some(x) => {
                        assert(t[x] == s[x]);
                        let y = tracker_position(t, other, 0)->0;
                        if y < x {
                            assert(t[y] == s[y]);
                        }
                    },
                    None => {
                        if let Some(y) = tracker_position(t, other, 0) {
                            assert(y != n);
                            assert(t[y] == s[y]);
                        }
                    },
                }
            }
        },
    }
}

/// An answer is waited for a quarter of a minute at first and twice as long each time, up to the
/// eighth repetition.
pub proof fn waiting_doubles(attempt: int)
    requires
        0 <= attempt,
    ensures
        patience(0) == Some(15int),
        attempt < 8 ==> (patience(attempt) matches Some(n) && patience(attempt + 1) == Some(2 * n)),
        attempt > 8 ==> patience(attempt) is None,
{
    reveal_with_fuel(patience, 10);
}

/// A peer of a udp tracker is reached at the host and the port that the url names, and a url that
/// lacks either is refused.
pub proof fn udp_tracker_is_at_its_host(
    text: Seq<char>,
    u: crate::urls::UrlView,
    host: Seq<char>,
    port: u16,
    m: Seq<char>,
)
    ensures
        u.host == Some(host) && u.port == Some(port) ==> crate::trackers::udp::udp_host_of(
            text,
            Ok(u),
        ) == Ok::<(Seq<char>, u16, Seq<char>), TrackerFault>((host, port, u.text)),
        u.host is None || u.port is None ==> crate::trackers::udp::udp_host_of(text, Ok(u)) == Err::<
            (Seq<char>, u16, Seq<char>),
            TrackerFault,
        >(TrackerFault::InvalidUrl(u.text)),
        crate::trackers::udp::udp_host_of(text, Err(m)) == Err::<
            (Seq<char>, u16, Seq<char>),
            TrackerFault,
        >(TrackerFault::InvalidUrl(text)),
{
}

} // verus!
