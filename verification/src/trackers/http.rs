//! What trackers that speak HTTP are asked, and how they answer.

use crate::bencode::{dict_get, dict_value, entry, list_value, parsed, Bencode, Value};
use crate::endian::{get_be16, get_be32, read16, read32};
use crate::ip_text::{ip_text, parse_ip};
use crate::net::{IpAddr, SocketAddr};
use crate::peer::error::{signed_number, signed_text};
use crate::text::{ascii_reads_back, number, number_text, text_of, utf8_text};
use crate::trackers::{answer, invalid_response, AnnounceData, AnnounceResponse, Events};
use crate::trackers::{ResponseView, TrackerError, TrackerFault};
use crate::urls::{extend_url, pair_views, url_extended};
use vstd::prelude::*;
use vstd::string::*;
use vstd::utf8::*;

verus! {

// ---------------------------------------------------------------------------------------------
// What is asked

/// The upper-case hexadecimal digit of a value under sixteen.
pub open spec fn upper_digit(v: u8) -> char {
    if v < 10 {
        (v + 48) as char
    } else {
        (v + 55) as char
    }
}

/// Bytes in percent encoding, every one of them.
pub open spec fn percent_text(bytes: Seq<u8>) -> Seq<char> {
    Seq::new(
        3 * bytes.len(),
        |i: int|
            if i % 3 == 0 {
                '%'
            } else if i % 3 == 1 {
                upper_digit(bytes[i / 3] / 16)
            } else {
                upper_digit(bytes[i / 3] % 16)
            },
    )
}

/// Bytes in percent encoding, every one of them
pub fn percent_encode_bytes(bytes: &[u8]) -> (r: String)
    requires
        3 * bytes.len() <= usize::MAX,
    ensures
        r@ == percent_text(bytes@),
{
    let mut digits: Vec<u8> = Vec::new();
    let mut i: usize = 0;
    while i < bytes.len()
        invariant
            i <= bytes.len(),
            digits.len() == 3 * i,
            forall|k: int|
                0 <= k < digits.len() ==> (#[trigger] digits@[k]) < 128 && digits@[k] as char
                    == percent_text(bytes@)[k],
        decreases bytes.len() - i,
    {
        let b: u8 = bytes[i];
        let high: u8 = b / 16;
        let low: u8 = b % 16;
        digits.push(37);
        digits.push(
            if high < 10 {
                high + 48
            } else {
                high + 55
            },
        );
        digits.push(
            if low < 10 {
                low + 48
            } else {
                low + 55
            },
        );
        i = i + 1;
    }
    proof {
        ascii_reads_back(digits@);
        assert(digits@.map_values(|b: u8| b as char) =~= percent_text(bytes@));
    }
    match text_of(digits.as_slice()) {
        Some(s) => s,
        None => String::new(),
    }
}

/// The name of an event, where it has one.
pub open spec fn event_name(e: Events) -> Option<Seq<char>> {
    match e {
        Events::Regular => None,
        Events::Completed => Some("completed"@),
        Events::Started => Some("started"@),
        Events::Stopped => Some("stopped"@),
    }
}

/// What a tracker is asked, pair by pair.
pub open spec fn announce_pairs(d: AnnounceData) -> Seq<(Seq<char>, Seq<char>)> {
    seq![
        ("info_hash"@, percent_text(d.info_hash@)),
        ("peer_id"@, percent_text(d.peer_id@)),
        ("port"@, number_text(d.port as nat)),
        ("uploaded"@, signed_text(d.uploaded as int)),
        ("downloaded"@, signed_text(d.downloaded as int)),
        ("left"@, signed_text(d.left as int)),
        ("compact"@, "1"@),
    ] + match event_name(d.event) {
        Some(name) => seq![("event"@, name)],
        None => Seq::empty(),
    }
}

fn pair(name: &str, value: String) -> (r: (String, String))
    ensures
        r.0@ == name@,
        r.1@ == value@,
{
    (String::from_str(name), value)
}

proof fn pair_names_are_short()
    ensures
        "info_hash"@.len() <= 16,
        "peer_id"@.len() <= 16,
        "port"@.len() <= 16,
        "uploaded"@.len() <= 16,
        "downloaded"@.len() <= 16,
        "left"@.len() <= 16,
        "compact"@.len() <= 16,
        "event"@.len() <= 16,
        "1"@.len() <= 16,
        "-"@.len() <= 16,
        "completed"@.len() <= 16,
        "started"@.len() <= 16,
        "stopped"@.len() <= 16,
{
    reveal_strlit("info_hash");
    reveal_strlit("peer_id");
    reveal_strlit("port");
    reveal_strlit("uploaded");
    reveal_strlit("downloaded");
    reveal_strlit("left");
    reveal_strlit("compact");
    reveal_strlit("event");
    reveal_strlit("1");
    reveal_strlit("-");
    reveal_strlit("completed");
    reveal_strlit("started");
    reveal_strlit("stopped");
}

proof fn numbers_are_short(n: nat)
    requires
        n <= u64::MAX,
    ensures
        number_text(n).len() <= 40,
{
    decimal_is_short(n);
}

proof fn decimal_is_short(n: nat)
    requires
        n <= u64::MAX,
    ensures
        crate::decimal::decimal(n).len() <= 40,
{
    reveal_with_fuel(crate::decimal::decimal, 21);
}

/// What a tracker is asked, pair by pair
pub fn query_pairs(data: &AnnounceData) -> (r: Vec<(String, String)>)
    ensures
        pair_views(r@) == announce_pairs(*data),
        r.len() <= 8,
        forall|i: int|
            0 <= i < r.len() ==> (#[trigger] r@[i]).0@.len() <= 0x1_0000 && r@[i].1@.len()
                <= 0x1_0000,
{
    let mut p: Vec<(String, String)> = Vec::new();
    p.push(pair("info_hash", percent_encode_bytes(data.info_hash.as_slice())));
    p.push(pair("peer_id", percent_encode_bytes(data.peer_id.as_slice())));
    p.push(pair("port", number(data.port as u64)));
    p.push(pair("uploaded", signed_number(data.uploaded)));
    p.push(pair("downloaded", signed_number(data.downloaded)));
    p.push(pair("left", signed_number(data.left)));
    p.push(pair("compact", String::from_str("1")));
    match data.event.as_str() {
        Some(event) => {
            p.push(pair("event", String::from_str(event)));
        },
        None => {},
    }
    proof {
        pair_names_are_short();
        numbers_are_short(data.port as nat);
        signed_numbers_are_short(data.uploaded);
        signed_numbers_are_short(data.downloaded);
        signed_numbers_are_short(data.left);
        assert(pair_views(p@) =~= announce_pairs(*data));
    }
    p
}

proof fn signed_numbers_are_short(n: i64)
    ensures
        signed_text(n as int).len() <= 60,
{
    pair_names_are_short();
    if n < 0 {
        numbers_are_short((-n) as nat);
    } else {
        numbers_are_short(n as nat);
    }
}

// ---------------------------------------------------------------------------------------------
// What is answered

/// The text under a key.
pub open spec fn text_under(d: Seq<(Seq<u8>, Value)>, key: Seq<char>) -> Option<Seq<char>> {
    match entry(d, encode_utf8(key)) {
        Some(Value::Bytes(b)) => utf8_text(b),
        _ => None,
    }
}

/// The number under a key, or another where there is none.
pub open spec fn number_or(d: Seq<(Seq<u8>, Value)>, key: Seq<char>, other: int) -> int {
    match entry(d, encode_utf8(key)) {
        Some(Value::Int(n)) => n,
        _ => other,
    }
}

/// Peers in their short form, six bytes to a peer.
pub open spec fn compact_peers(b: Seq<u8>) -> Seq<SocketAddr> {
    Seq::new(
        b.len() / 6,
        |i: int|
            SocketAddr {
                ip: IpAddr::V4(read32(b, 6 * i) as u32),
                port: read16(b, 6 * i + 4) as u16,
            },
    )
}

/// A peer in its long form.
pub open spec fn peer_of(v: Value) -> Result<SocketAddr, TrackerFault> {
    match v {
        Value::Dict(d) => match entry(d, encode_utf8("ip"@)) {
            Some(Value::Bytes(b)) => if utf8_text(b) is None {
                Err(TrackerFault::InvalidResponse("missing IP"@))
            } else {
                match ip_text(b) {
                    None => Err(TrackerFault::InvalidResponse("invalid IP"@)),
                    Some(ip) => match entry(d, encode_utf8("port"@)) {
                        Some(Value::Int(n)) => Ok(SocketAddr { ip, port: n as u16 }),
                        _ => Err(TrackerFault::InvalidResponse("missing port"@)),
                    },
                }
            },
            _ => Err(TrackerFault::InvalidResponse("missing IP"@)),
        },
        _ => Err(TrackerFault::InvalidResponse("peer not a dict"@)),
    }
}

/// The first `n` peers of a list, or the first error among them.
pub open spec fn listed_peers(l: Seq<Value>, n: int) -> Result<Seq<SocketAddr>, TrackerFault>
    decreases n,
{
    if n <= 0 {
        Ok(Seq::empty())
    } else {
        match listed_peers(l, n - 1) {
            Err(e) => Err(e),
            Ok(s) => match peer_of(l[n - 1]) {
                Err(e) => Err(e),
                Ok(p) => Ok(s.push(p)),
            },
        }
    }
}

/// The peers that an answer names.
pub open spec fn peers_of(d: Seq<(Seq<u8>, Value)>) -> Result<Seq<SocketAddr>, TrackerFault> {
    match entry(d, encode_utf8("peers"@)) {
        Some(Value::Bytes(b)) => if b.len() % 6 != 0 {
            Err(TrackerFault::InvalidResponse("Invalid compact peers format"@))
        } else {
            Ok(compact_peers(b))
        },
        Some(Value::List(l)) => listed_peers(l, l.len() as int),
        _ => Err(TrackerFault::InvalidResponse("missing peers"@)),
    }
}

/// What an answer says.
pub open spec fn response_of(data: Seq<u8>) -> Result<ResponseView, TrackerFault> {
    match parsed(data) {
        Err(e) => Err(TrackerFault::BencodeError(e)),
        Ok((Value::Dict(d), _)) => match text_under(d, "failure reason"@) {
            Some(m) => Err(TrackerFault::TrackerError(m)),
            None => match peers_of(d) {
                Err(e) => Err(e),
                Ok(peers) => Ok(
                    ResponseView {
                        peers,
                        interval: number_or(d, "interval"@, 20) as i32,
                        leechers: number_or(d, "incomplete"@, 0) as i32,
                        seeders: number_or(d, "complete"@, 0) as i32,
                    },
                ),
            },
        },
        Ok(_) => Err(TrackerFault::InvalidResponse("not a dict"@)),
    }
}

fn get_str(d: &Vec<(Vec<u8>, Bencode)>, key: &str) -> (r: Option<String>)
    ensures
        crate::text::opt_text(r) == text_under(dict_value(d@), key@),
{
    match dict_get(d, key.as_bytes()) {
        Some(Bencode::Bytes(b)) => text_of(b.as_slice()),
        _ => None,
    }
}

fn get_i64(d: &Vec<(Vec<u8>, Bencode)>, key: &str) -> (r: Option<i64>)
    ensures
        match r {
            Some(n) => entry(dict_value(d@), encode_utf8(key@)) == Some(Value::Int(n as int)),
            None => !(entry(dict_value(d@), encode_utf8(key@)) matches Some(Value::Int(_))),
        },
{
    match dict_get(d, key.as_bytes()) {
        Some(Bencode::Int(n)) => Some(*n),
        _ => None,
    }
}

/// Peers in their short form
pub fn parse_compact_peers(bytes: &[u8]) -> (r: Result<Vec<SocketAddr>, TrackerError>)
    ensures
        answer(r) == if bytes@.len() % 6 != 0 {
            Err(TrackerFault::InvalidResponse("Invalid compact peers format"@))
        } else {
            Ok(compact_peers(bytes@))
        },
{
    if bytes.len() % 6 != 0 {
        return Err(invalid_response("Invalid compact peers format"));
    }
    let n: usize = bytes.len() / 6;
    let mut peers: Vec<SocketAddr> = Vec::new();
    let mut i: usize = 0;
    while i < n
        invariant
            i <= n,
            n == bytes.len() / 6,
            bytes.len() % 6 == 0,
            peers.len() == i,
            forall|k: int| 0 <= k < i ==> #[trigger] peers@[k] == compact_peers(bytes@)[k],
        decreases n - i,
    {
        let ip: u32 = get_be32(bytes, 6 * i);
        let port: u16 = get_be16(bytes, 6 * i + 4);
        peers.push(SocketAddr { ip: IpAddr::V4(ip), port });
        i = i + 1;
    }
    assert(peers@ =~= compact_peers(bytes@));
    Ok(peers)
}

fn parse_dict_peer(item: &Bencode) -> (r: Result<SocketAddr, TrackerError>)
    ensures
        match r {
            Ok(p) => peer_of(item.value()) == Ok::<SocketAddr, TrackerFault>(p),
            Err(e) => peer_of(item.value()) == Err::<SocketAddr, TrackerFault>(e@),
        },
{
    let dict = match item {
        Bencode::Dict(d) => d,
        _ => return Err(invalid_response("peer not a dict")),
    };
    assert(item.value()->Dict_0 =~= dict_value(dict@));
    let ip = match dict_get(dict, "ip".as_bytes()) {
        Some(Bencode::Bytes(b)) => {
            if text_of(b.as_slice()).is_none() {
                return Err(invalid_response("missing IP"));
            }
            match parse_ip(b.as_slice()) {
                Some(ip) => ip,
                None => return Err(invalid_response("invalid IP")),
            }
        },
        _ => return Err(invalid_response("missing IP")),
    };
    match get_i64(dict, "port") {
        Some(n) => Ok(SocketAddr { ip, port: n as u16 }),
        None => Err(invalid_response("missing port")),
    }
}

/// Peers in their long form
pub fn parse_dict_peers(list: &Vec<Bencode>) -> (r: Result<Vec<SocketAddr>, TrackerError>)
    ensures
        answer(r) == listed_peers(list_value(list@), list.len() as int),
{
    let ghost l = list_value(list@);
    let mut peers: Vec<SocketAddr> = Vec::new();
    let mut i: usize = 0;
    while i < list.len()
        invariant
            i <= list.len(),
            l == list_value(list@),
            listed_peers(l, i as int) == Ok::<Seq<SocketAddr>, TrackerFault>(peers@),
        decreases list.len() - i,
    {
        assert(l[i as int] == list@[i as int].value());
        match parse_dict_peer(&list[i]) {
            Ok(p) => {
                peers.push(p);
            },
            Err(e) => {
                proof {
                    assert(listed_peers(l, i + 1) == Err::<Seq<SocketAddr>, TrackerFault>(e@));
                    error_stays(l, i + 1, list.len() as int);
                }
                return Err(e);
            },
        }
        i = i + 1;
    }
    Ok(peers)
}

proof fn error_stays(l: Seq<Value>, m: int, n: int)
    requires
        m <= n,
        listed_peers(l, m) is Err,
    ensures
        listed_peers(l, n) == listed_peers(l, m),
    decreases n - m,
{
    if m < n {
        error_stays(l, m, n - 1);
    }
}

fn parse_peers(dict: &Vec<(Vec<u8>, Bencode)>) -> (r: Result<Vec<SocketAddr>, TrackerError>)
    ensures
        answer(r) == peers_of(dict_value(dict@)),
{
    match dict_get(dict, "peers".as_bytes()) {
        Some(Bencode::Bytes(bytes)) => parse_compact_peers(bytes.as_slice()),
        Some(Bencode::List(list)) => {
            assert(Bencode::List(*list).value()->List_0 =~= list_value(list@));
            parse_dict_peers(list)
        },
        _ => Err(invalid_response("missing peers")),
    }
}

/// Speaks to trackers over HTTP.
#[derive(Debug, Clone, Copy)]
pub struct HttpClient {}

impl HttpClient {
    /// A client
    pub fn new() -> Self {
        HttpClient {  }
    }

    /// The url to ask a tracker by
    pub fn announce_url(&self, url: &str, data: &AnnounceData) -> (r: Result<String, TrackerError>)
        ensures
            match r {
                Ok(u) => url_extended(url@, announce_pairs(*data)) == Ok::<Seq<char>, Seq<char>>(
                    u@,
                ),
                Err(e) => url_extended(url@, announce_pairs(*data)) matches Err(m) && e@
                    == TrackerFault::UrlParse(m),
            },
    {
        let pairs = query_pairs(data);
        match extend_url(url, &pairs) {
            Ok(u) => Ok(u),
            Err(m) => Err(TrackerError::UrlParse(m)),
        }
    }

    /// What a tracker's answer says
    pub fn parse_response(&self, data: &[u8]) -> (r: Result<AnnounceResponse, TrackerError>)
        ensures
            answer(r) == response_of(data@),
    {
        let bencode = match Bencode::decode(data) {
            Ok(b) => b,
            Err(e) => return Err(TrackerError::BencodeError(e)),
        };
        let dict = match &bencode {
            Bencode::Dict(d) => d,
            _ => return Err(invalid_response("not a dict")),
        };
        assert(bencode.value()->Dict_0 =~= dict_value(dict@));
        match get_str(dict, "failure reason") {
            Some(failure) => return Err(TrackerError::TrackerError(failure)),
            None => {},
        }
        let interval: i32 = match get_i64(dict, "interval") {
            Some(n) => n as i32,
            None => 20,
        };
        let seeders: i32 = match get_i64(dict, "complete") {
            Some(n) => n as i32,
            None => 0,
        };
        let leechers: i32 = match get_i64(dict, "incomplete") {
            Some(n) => n as i32,
            None => 0,
        };
        match parse_peers(dict) {
            Ok(peers) => Ok(AnnounceResponse { peers, interval, leechers, seeders }),
            Err(e) => Err(e),
        }
    }
}

} // verus!
