//! The panel parsers and small text utilities.

use rootwork::boot::decode_secure_boot;
use rootwork::dns::parse_resolv_conf;
use rootwork::host::{parse_os_release, parse_uptime_seconds, uptime_label};
use rootwork::network::{extract_json_string, extract_json_u32, hex_to_ip, parse_route_table};
use rootwork::text::{cmp_str, str_eq, u64_to_string};

#[test]
fn hex_route_fields_decode_little_endian() {
    assert_eq!(hex_to_ip("0102A8C0"), "192.168.2.1");
    assert_eq!(hex_to_ip("00000000"), "0.0.0.0");
    assert_eq!(hex_to_ip("FE01A8C0"), "192.168.1.254");
    assert_eq!(hex_to_ip("123"), "invalid");
    assert_eq!(hex_to_ip("0102A8CZ"), "invalid");
}

#[test]
fn route_table_lines_parse_after_the_header() {
    let table = "Iface\tDestination\tGateway\tFlags\tRefCnt\tUse\tMetric\tMask\tMTU\tWindow\tIRTT\n\
eth0\t00000000\t0102A8C0\t0003\t0\t0\t100\t00000000\t0\t0\t0\n\
eth0\t0002A8C0\t00000000\t0001\t0\t0\t0\t00FFFFFF\t0\t0\t0\n\
short\tline\n";
    let routes = parse_route_table(table);
    assert_eq!(routes.len(), 2);
    assert_eq!(routes[0].destination, "default");
    assert_eq!(routes[0].gateway.as_deref(), Some("192.168.2.1"));
    assert_eq!(routes[0].interface, "eth0");
    assert_eq!(routes[0].metric, Some(100));
    assert_eq!(routes[1].destination, "192.168.2.0");
    assert_eq!(routes[1].gateway, None);
    assert_eq!(routes[1].metric, Some(0));
}

#[test]
fn json_field_extractors() {
    let blob = "{\"name\":\"eth0\",\"mtu\":1500}";
    assert_eq!(extract_json_string(blob, "\"name\":\"").as_deref(), Some("eth0"));
    assert_eq!(extract_json_u32(blob, "\"mtu\":"), Some(1500));
    assert_eq!(extract_json_string(blob, "\"missing\":\""), None);
    assert_eq!(extract_json_u32(blob, "\"name\":"), None);
}

#[test]
fn resolv_conf_parses_nameservers_and_search_domains() {
    let conf = "# local resolver\nnameserver 1.1.1.1\n  nameserver 8.8.8.8\nsearch a.com b.com\noptions timeout:1\nnameserver\n";
    let info = parse_resolv_conf(conf);
    assert_eq!(info.current_dns, vec!["1.1.1.1", "8.8.8.8"]);
    assert_eq!(info.search_domains, vec!["a.com", "b.com"]);
    assert!(info.fallback_dns.is_empty());
    assert_eq!(info.dnssec, "unknown");
    assert_eq!(info.dnsovertls, "unknown");
    assert!(info.interface_dns.is_empty());
}

#[test]
fn os_release_fields_are_unquoted() {
    let content = "NAME=\"Debian GNU/Linux\"\nPRETTY_NAME=\"Debian GNU/Linux 12 (bookworm)\"\nVERSION_ID=\"12\"\n";
    let (name, version) = parse_os_release(content);
    assert_eq!(name, "Debian GNU/Linux 12 (bookworm)");
    assert_eq!(version, "12");
    let (none, _) = parse_os_release("ID=debian\n");
    assert_eq!(none, "unknown");
}

#[test]
fn uptime_parses_whole_seconds() {
    assert_eq!(parse_uptime_seconds("12345.67 89012.34\n"), 12345);
    assert_eq!(parse_uptime_seconds(""), 0);
    assert_eq!(parse_uptime_seconds("garbage"), 0);
}

#[test]
fn uptime_renders_days_hours_minutes() {
    assert_eq!(uptime_label(90061), "1d 1h 1m");
    assert_eq!(uptime_label(3700), "1h 1m");
    assert_eq!(uptime_label(59), "0m");
    assert_eq!(uptime_label(86400), "1d 0h 0m");
}

#[test]
fn secure_boot_variable_decodes_its_last_byte() {
    assert_eq!(decode_secure_boot(&vec![0, 0, 0, 0, 1]).as_deref(), Some("enabled"));
    assert_eq!(decode_secure_boot(&vec![0, 0, 0, 0, 0]).as_deref(), Some("disabled"));
    assert_eq!(decode_secure_boot(&vec![0, 0, 0, 0, 7]).as_deref(), Some("unknown"));
    assert_eq!(decode_secure_boot(&vec![1, 2, 3]), None);
}

#[test]
fn text_comparison_is_lexicographic() {
    assert!(cmp_str("abc", "abd") < 0);
    assert!(cmp_str("abc", "ab") > 0);
    assert_eq!(cmp_str("same", "same"), 0);
    assert!(str_eq("x", "x"));
    assert!(!str_eq("x", "y"));
}

#[test]
fn decimal_rendering() {
    assert_eq!(u64_to_string(0), "0");
    assert_eq!(u64_to_string(907), "907");
    assert_eq!(u64_to_string(u64::MAX), "18446744073709551615");
}
