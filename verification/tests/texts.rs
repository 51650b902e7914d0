use torrent_rs::ip_text::{parse_ip, parse_ipv4};
use torrent_rs::net::IpAddr;
use torrent_rs::path::FilePath;
use torrent_rs::status_line::{
    format_bytes_per_second, get_status_line, ReportedState, StatusSummary,
};
use torrent_rs::text::text_of;
use torrent_rs::{status_line, utils};

const KB: u64 = 1024;
const MB: u64 = 1024 * KB;
const GB: u64 = 1024 * MB;
const TB: u64 = 1024 * GB;

fn sizes() -> Vec<u64> {
    let mut l = vec![0, 1, 999, 1023, 1024, 1025, 1029, 1030, 1536, 1741, 2047, u64::MAX];
    let mut n: u64 = 12345;
    for _ in 0..2000 {
        n = n.wrapping_mul(6364136223846793005).wrapping_add(1442695040888963407);
        l.push(n >> (n % 60));
    }
    for unit in [KB, MB, GB, TB] {
        for k in 1..40u64 {
            // halves between two hundredths, and their neighbours
            l.push(unit + unit / 200 * k);
            l.push(unit + unit / 8 * k);
            l.push(unit * k);
            l.push(unit * k - 1);
        }
    }
    l
}

#[test]
fn speeds_are_written_like_decimals() {
    for n in sizes() {
        let expected = if n < KB {
            format!("{} B/s", n)
        } else if n < MB {
            format!("{:.1} KiB/s", n as f64 / KB as f64)
        } else if n < GB {
            format!("{:.2} MiB/s", n as f64 / MB as f64)
        } else {
            format!("{:.2} GiB/s", n as f64 / GB as f64)
        };
        if n < 1 << 53 {
            assert_eq!(utils::format_speed(n), expected);
        }
    }
    assert_eq!(utils::format_speed(1536), "1.5 KiB/s");
}

#[test]
fn sizes_are_written_like_decimals() {
    for n in sizes() {
        if n >= 1 << 53 {
            continue;
        }
        let expected = if n < KB {
            format!("{} B", n)
        } else if n < MB {
            format!("{:.2} KB", n as f64 / KB as f64)
        } else if n < GB {
            format!("{:.2} MB", n as f64 / MB as f64)
        } else if n < TB {
            format!("{:.2} GB", n as f64 / GB as f64)
        } else {
            format!("{:.2} TB", n as f64 / TB as f64)
        };
        assert_eq!(status_line::format_bytes(n), expected);
        assert_eq!(format_bytes_per_second(n), format!("{}/s", expected));
        if n < GB {
            assert_eq!(utils::format_bytes(n), expected);
        }
    }
}

fn summary(state: ReportedState) -> StatusSummary {
    StatusSummary {
        state,
        progress: "12.5".to_string(),
        peers_connected: 3,
        peers_discovered: 7,
        download_rate: 2048,
        upload_rate: 10,
    }
}

#[test]
fn status_lines_tell_the_state() {
    let line = get_status_line(&summary(ReportedState::Downloading));
    let text = "Progress: 12.5%, dl from 3 of 7 peers (2.00 KB/s), ul to 0 (10 B/s)";
    assert_eq!(line, format!("{:<80}", text));
    let line = get_status_line(&summary(ReportedState::Checking));
    assert_eq!(line, format!("{:<80}", "Verifying local files (12.5%)"));
    let line = get_status_line(&summary(ReportedState::Seeding));
    assert_eq!(line, format!("{:<80}", "Seeding, uploading to 0 of 7 peer(s), 10 B/s"));
    let line = get_status_line(&summary(ReportedState::FetchingMetadata));
    assert_eq!(line, format!("{:<80}", "Fetching metadata"));
    assert_eq!(get_status_line(&summary(ReportedState::Paused)), format!("{:<80}", "Paused"));
    assert_eq!(get_status_line(&summary(ReportedState::Error)), format!("{:<80}", "Error"));
}

#[test]
fn bytes_are_text_or_not() {
    assert_eq!(text_of("größe".as_bytes()), Some("größe".to_string()));
    assert_eq!(text_of(&[0x66, 0xff]), None);
    assert_eq!(text_of(&[]), Some(String::new()));
}

#[test]
fn paths_have_parts() {
    let p = FilePath::from_text("/a/b.tar.gz");
    assert_eq!(p.file_name(), Some("b.tar.gz"));
    assert_eq!(p.extension(), Some("gz"));
    assert_eq!(p.parent().unwrap().as_str(), "/a");
    assert_eq!(p.join("c").as_str(), "/a/b.tar.gz/c");
    assert_eq!(p.join("/c").as_str(), "/c");
    assert_eq!(FilePath::new().join("c").as_str(), "c");
    assert_eq!(FilePath::from_text("x/").join("c").as_str(), "x/c");
    assert_eq!(FilePath::from_text("/").file_name(), None);
    assert_eq!(FilePath::from_text(".hidden").extension(), None);
}

#[test]
fn addresses_are_read() {
    assert_eq!(parse_ipv4(b"127.0.0.1"), Some(0x7f000001));
    assert_eq!(parse_ipv4(b"255.255.255.255"), Some(u32::MAX));
    for bad in ["", "1.2.3", "1.2.3.4.5", "256.0.0.1", "01.2.3.4", "1.2.3.4 ", "a.b.c.d"] {
        assert_eq!(parse_ipv4(bad.as_bytes()), None);
    }
    assert_eq!(parse_ip(b"10.0.0.1"), Some(IpAddr::V4(0x0a000001)));
    assert_eq!(parse_ip(b"::1"), Some(IpAddr::V6(1)));
    assert_eq!(parse_ip(b"::"), Some(IpAddr::V6(0)));
    assert_eq!(
        parse_ip(b"2001:db8::8:800:200c:417a"),
        Some(IpAddr::V6(0x20010db8_00000000_00080800_200c417a))
    );
    assert_eq!(parse_ip(b"::ffff:192.168.0.1"), Some(IpAddr::V6(0xffff_c0a8_0001)));
    assert_eq!(parse_ip(b"1:2:3:4:5:6:7:8:9"), None);
    assert_eq!(parse_ip(b"1::2::3"), None);
    assert_eq!(parse_ip(b":::"), None);
}
