use nmap_xml_parser::host::{Address, HostState, HostnameType, TcpDifficulty};
use nmap_xml_parser::net::{parse_ip, parse_mac, IpAddr};
use nmap_xml_parser::number::{parse_i64, parse_unsigned, split};
use nmap_xml_parser::port::{PortProtocol, PortState, ServiceMethod};
use nmap_xml_parser::{Error, NmapResults};

fn invalid_message(r: Result<NmapResults, Error>) -> String {
    match r {
        Err(Error::InvalidNmapOutput(m)) => m,
        Err(Error::XmlError(e)) => panic!("unexpected XML error {:?}", e),
        Ok(_) => panic!("unexpected success"),
    }
}

fn report(host: &str) -> String {
    format!("<nmaprun start=\"100\">{}<runstats><finished time=\"200\"/></runstats></nmaprun>", host)
}

const STATUS: &str = "<status state=\"up\" reason=\"syn-ack\" reason_ttl=\"64\"/>";

#[test]
fn enum_tokens_round_trip() {
    for p in [PortProtocol::Ip, PortProtocol::Tcp, PortProtocol::Udp, PortProtocol::Sctp] {
        assert_eq!(PortProtocol::parse(p.as_str()), Some(p));
    }
    for s in [
        PortState::Open,
        PortState::Closed,
        PortState::Filtered,
        PortState::Unfiltered,
        PortState::OpenFiltered,
        PortState::CloseFiltered,
    ] {
        assert_eq!(PortState::parse(s.as_str()), Some(s));
    }
    for m in [ServiceMethod::Table, ServiceMethod::Probe] {
        assert_eq!(ServiceMethod::parse(m.as_str()), Some(m));
    }
    for h in [HostState::Up, HostState::Down, HostState::Unknown, HostState::Skipped] {
        assert_eq!(HostState::parse(h.as_str()), Some(h));
    }
    for d in [
        TcpDifficulty::Trivial,
        TcpDifficulty::Easy,
        TcpDifficulty::Medium,
        TcpDifficulty::Formidable,
        TcpDifficulty::Worthy,
        TcpDifficulty::Good,
    ] {
        assert_eq!(TcpDifficulty::parse(d.as_str()), Some(d));
    }
    assert_eq!(PortState::parse("open|filtered"), Some(PortState::OpenFiltered));
    assert_eq!(ServiceMethod::parse("probed"), Some(ServiceMethod::Probe));
}

#[test]
fn hostname_source_tokens() {
    assert_eq!(HostnameType::parse("user"), Some(HostnameType::User));
    assert_eq!(HostnameType::parse("PTR"), Some(HostnameType::Dns));
    assert_eq!(HostnameType::Dns.as_str(), "Dns");
    assert_eq!(HostnameType::User.as_str(), "User");
    assert_eq!(HostnameType::Dns.token(), "PTR");
    assert_eq!(HostnameType::parse("Dns"), None);
}

#[test]
fn enum_tokens_are_exact() {
    assert_eq!(PortProtocol::parse("TCP"), None);
    assert_eq!(PortState::parse("open "), None);
    assert_eq!(HostState::parse(""), None);
    assert_eq!(TcpDifficulty::parse("Good"), None);
}

#[test]
fn wrong_root_tag_is_refused() {
    let r = NmapResults::parse("<scan start=\"1\"><host/></scan>");
    assert_eq!(invalid_message(r), "expected `nmaprun` root tag");
}

#[test]
fn malformed_xml_is_an_xml_error() {
    let r = NmapResults::parse("<nmaprun start=\"1\">");
    assert!(matches!(r, Err(Error::XmlError(_))));
    assert_eq!(r.unwrap_err().message(), "error parsing file as XML document");
}

#[test]
fn start_time_is_required_and_numeric() {
    assert_eq!(invalid_message(NmapResults::parse("<nmaprun/>")), "expected start time attribute");
    assert_eq!(invalid_message(NmapResults::parse("<nmaprun start=\"soon\"/>")), "failed to parse start time");
    let r = NmapResults::parse("<nmaprun start=\"-5\"/>").unwrap();
    assert_eq!(r.scan_start_time, -5);
    assert_eq!(r.scan_end_time, None);
    assert_eq!(r.hosts().len(), 0);
}

#[test]
fn host_without_status_fails() {
    let r = NmapResults::parse(&report("<host><address addr=\"10.0.0.1\" addrtype=\"ipv4\"/></host>"));
    assert_eq!(invalid_message(r), "expected `status` node for host");
}

#[test]
fn host_with_only_status_has_empty_collections() {
    let r = NmapResults::parse(&report(&format!("<host>{}</host>", STATUS))).unwrap();
    let host = &r.hosts()[0];
    assert_eq!(host.addresses().len(), 0);
    assert_eq!(host.host_names().len(), 0);
    assert_eq!(host.port_info.ports().len(), 0);
    assert!(host.os.is_none());
    assert!(host.uptime.is_none());
    assert_eq!(r.scan_end_time, Some(200));
}

#[test]
fn tcpsequence_with_five_values_fails() {
    let host = format!(
        "<host>{}<tcpsequence index=\"1\" difficulty=\"Easy\" values=\"A,B,C,D,E\"/></host>",
        STATUS
    );
    assert_eq!(
        invalid_message(NmapResults::parse(&report(&host))),
        "expected six comma-separated numbers in `values`"
    );
}

#[test]
fn tcpsequence_with_six_hex_values_in_order() {
    let host = format!(
        "<host>{}<tcpsequence index=\"7\" difficulty=\"Medium\" values=\"1,a,FF,10,ffffffff,0\"/></host>",
        STATUS
    );
    let r = NmapResults::parse(&report(&host)).unwrap();
    let seq = r.hosts()[0].tcpsequence.unwrap();
    assert_eq!(seq.values, [1, 10, 255, 16, 0xffff_ffff, 0]);
    assert_eq!(seq.index, 7);
    assert_eq!(seq.difficulty, TcpDifficulty::Medium);
}

#[test]
fn ipidsequence_values_are_decimal() {
    let host = format!(
        "<host>{}<ipidsequence class=\"Incremental\" values=\"10,11,12,13,14,15\"/></host>",
        STATUS
    );
    let r = NmapResults::parse(&report(&host)).unwrap();
    assert_eq!(r.hosts()[0].ipidsequence.as_ref().unwrap().values, [10, 11, 12, 13, 14, 15]);
    let bad = format!(
        "<host>{}<ipidsequence class=\"Incremental\" values=\"10,11,12,13,14,FF\"/></host>",
        STATUS
    );
    assert_eq!(invalid_message(NmapResults::parse(&report(&bad))), "failed to parse `values`");
}

#[test]
fn runstats_without_finished_has_no_end_time() {
    let r = NmapResults::parse("<nmaprun start=\"5\"><runstats><hosts up=\"0\"/></runstats></nmaprun>").unwrap();
    assert_eq!(r.scan_end_time, None);
    assert_eq!(r.scan_start_time, 5);
}

#[test]
fn finished_without_time_fails() {
    let r = NmapResults::parse("<nmaprun start=\"5\"><runstats><finished/></runstats></nmaprun>");
    assert_eq!(invalid_message(r), "expected `time` `runstats`.`finished`");
    let r = NmapResults::parse("<nmaprun start=\"5\"><runstats><finished time=\"x\"/></runstats></nmaprun>");
    assert_eq!(invalid_message(r), "failed to parse end time");
}

#[test]
fn invalid_mac_is_refused() {
    let host = format!("<host>{}<address addr=\"00:0C:29:71:23\" addrtype=\"mac\"/></host>", STATUS);
    assert_eq!(invalid_message(NmapResults::parse(&report(&host))), "failed to parse MAC address");
}

#[test]
fn invalid_ip_is_refused() {
    let host = format!("<host>{}<address addr=\"300.1.1.1\" addrtype=\"ipv4\"/></host>", STATUS);
    assert_eq!(invalid_message(NmapResults::parse(&report(&host))), "failed to parse IP address");
}

#[test]
fn address_type_is_required() {
    let host = format!("<host>{}<address addr=\"10.0.0.1\"/></host>", STATUS);
    assert_eq!(
        invalid_message(NmapResults::parse(&report(&host))),
        "expected `addrtype` attribute in `address` node"
    );
}

#[test]
fn ipv6_address_decodes() {
    let host = format!("<host>{}<address addr=\"fe80::1:2\" addrtype=\"ipv6\"/></host>", STATUS);
    let r = NmapResults::parse(&report(&host)).unwrap();
    assert_eq!(r.hosts()[0].addresses()[0], Address::IpAddr(IpAddr::V6([0xfe80, 0, 0, 0, 0, 0, 1, 2])));
}

#[test]
fn ip_parsing() {
    assert_eq!(parse_ip("192.168.0.1"), Some(IpAddr::V4([192, 168, 0, 1])));
    assert_eq!(parse_ip("0.0.0.0"), Some(IpAddr::V4([0, 0, 0, 0])));
    assert_eq!(parse_ip("01.0.0.0"), None);
    assert_eq!(parse_ip("1.2.3"), None);
    assert_eq!(parse_ip("1.2.3.256"), None);
    assert_eq!(parse_ip("::"), Some(IpAddr::V6([0; 8])));
    assert_eq!(parse_ip("::1"), Some(IpAddr::V6([0, 0, 0, 0, 0, 0, 0, 1])));
    assert_eq!(
        parse_ip("2001:db8:0:0:0:0:2:1"),
        Some(IpAddr::V6([0x2001, 0xdb8, 0, 0, 0, 0, 2, 1]))
    );
    assert_eq!(
        parse_ip("::ffff:192.0.2.1"),
        Some(IpAddr::V6([0, 0, 0, 0, 0, 0xffff, 0xc000, 0x0201]))
    );
    assert_eq!(
        parse_ip("1:2:3:4:5:6:10.0.0.1"),
        Some(IpAddr::V6([1, 2, 3, 4, 5, 6, 0x0a00, 0x0001]))
    );
    assert_eq!(parse_ip("1.2.3.4::"), None);
    assert_eq!(parse_ip("1::2::3"), None);
    assert_eq!(parse_ip("12345::"), None);
    assert_eq!(parse_ip("1:2:3:4:5:6:7"), None);
    assert_eq!(parse_ip(""), None);
}

#[test]
fn mac_parsing() {
    assert_eq!(parse_mac("00:0C:29:71:23:2B"), Some([0x00, 0x0C, 0x29, 0x71, 0x23, 0x2B]));
    assert_eq!(parse_mac("aa-bb-cc-dd-ee-ff"), Some([0xaa, 0xbb, 0xcc, 0xdd, 0xee, 0xff]));
    assert_eq!(parse_mac("aa-bb:cc-dd-ee-ff"), None);
    assert_eq!(parse_mac("aa:bb:cc:dd:ee:fg"), None);
}

#[test]
fn number_parsing() {
    assert_eq!(parse_unsigned("255", 10, 255), Some(255));
    assert_eq!(parse_unsigned("256", 10, 255), None);
    assert_eq!(parse_unsigned("+7", 10, 255), Some(7));
    assert_eq!(parse_unsigned("-7", 10, 255), None);
    assert_eq!(parse_unsigned("", 10, 255), None);
    assert_eq!(parse_unsigned("+", 10, 255), None);
    assert_eq!(parse_unsigned("Ff", 16, 255), Some(255));
    assert_eq!(parse_i64("-9223372036854775808"), Some(i64::MIN));
    assert_eq!(parse_i64("9223372036854775807"), Some(i64::MAX));
    assert_eq!(parse_i64("9223372036854775808"), None);
    assert_eq!(parse_i64("-"), None);
    assert_eq!(parse_i64("-+1"), None);
    assert_eq!(parse_i64("12a"), None);
}

#[test]
fn splitting_at_commas() {
    assert_eq!(split("a,,b", ','), vec!["a".to_string(), String::new(), "b".to_string()]);
    assert_eq!(split("", ','), vec![String::new()]);
    assert_eq!(split("x,", ','), vec!["x".to_string(), String::new()]);
}

#[test]
fn port_errors() {
    let port = |p: &str| format!("<host>{}<ports>{}</ports></host>", STATUS, p);
    let no_state = port("<port protocol=\"tcp\" portid=\"22\"/>");
    assert_eq!(invalid_message(NmapResults::parse(&report(&no_state))), "expected `state` node for port");
    let bad_proto = port("<port protocol=\"icmp\" portid=\"22\"><state state=\"open\" reason=\"r\" reason_ttl=\"1\"/></port>");
    assert_eq!(invalid_message(NmapResults::parse(&report(&bad_proto))), "failed to parse `protocol`");
    let big = port("<port protocol=\"tcp\" portid=\"65536\"><state state=\"open\" reason=\"r\" reason_ttl=\"1\"/></port>");
    assert_eq!(invalid_message(NmapResults::parse(&report(&big))), "failed to parse `portid`");
    let no_conf = port(
        "<port protocol=\"udp\" portid=\"53\"><state state=\"open\" reason=\"r\" reason_ttl=\"1\"/><service name=\"domain\" method=\"table\"/></port>",
    );
    assert_eq!(
        invalid_message(NmapResults::parse(&report(&no_conf))),
        "expected `conf` attribute in `service` node"
    );
    let no_service = port("<port protocol=\"sctp\" portid=\"0\"><state state=\"filtered\" reason=\"r\" reason_ttl=\"255\"/></port>");
    let r = NmapResults::parse(&report(&no_service)).unwrap();
    let p = &r.hosts()[0].port_info.ports()[0];
    assert_eq!(p.protocol, PortProtocol::Sctp);
    assert_eq!(p.port_number, 0);
    assert_eq!(p.status.state, PortState::Filtered);
    assert_eq!(p.status.reason_ttl, 255);
    assert!(p.service_info.is_none());
}

#[test]
fn os_errors_fail_the_whole_host() {
    let host = format!(
        "<host>{}<os><osmatch name=\"x\" accuracy=\"90\" line=\"1\"><osclass vendor=\"v\" accuracy=\"90\"/></osmatch></os></host>",
        STATUS
    );
    assert_eq!(
        invalid_message(NmapResults::parse(&report(&host))),
        "expected `osfamily` attribute in `osclass` node"
    );
}

#[test]
fn iter_ports_spans_hosts() {
    let host = |n: u16| {
        format!(
            "<host>{}<ports><port protocol=\"tcp\" portid=\"{}\"><state state=\"open\" reason=\"r\" reason_ttl=\"1\"/></port></ports></host>",
            STATUS, n
        )
    };
    let text = format!("<nmaprun start=\"1\">{}{}</nmaprun>", host(1), host(2));
    let r = NmapResults::parse(&text).unwrap();
    let pairs = r.iter_ports();
    assert_eq!(pairs.len(), 2);
    assert_eq!(pairs[0].1.port_number, 1);
    assert_eq!(pairs[1].1.port_number, 2);
    assert!(std::ptr::eq(pairs[1].0, &r.hosts()[1]));
}

#[test]
fn nested_cpe_names_are_collected_in_order() {
    let host = format!(
        "<host>{}<os><osmatch name=\"x\" accuracy=\"90\" line=\"1\"><osclass vendor=\"v\" osfamily=\"f\" accuracy=\"90\"><cpe>cpe:/a</cpe><group><cpe>cpe:/b</cpe><inner><cpe>cpe:/c</cpe></inner></group><cpe/></osclass></osmatch></os></host>",
        STATUS
    );
    let r = NmapResults::parse(&report(&host)).unwrap();
    let class = &r.hosts()[0].os.as_ref().unwrap().osmatch[0].osclass[0];
    assert_eq!(
        class.cpe,
        vec!["cpe:/a".to_string(), "cpe:/b".to_string(), "cpe:/c".to_string(), String::new()]
    );
}

#[test]
fn fingerprint_without_text_is_passed_over() {
    let host = format!(
        "<host>{}<os><osfingerprint/><portused state=\"open\" proto=\"tcp\" portid=\"22\"/><osfingerprint fingerprint=\"OS:SCAN\"/></os></host>",
        STATUS
    );
    let r = NmapResults::parse(&report(&host)).unwrap();
    let os = r.hosts()[0].os.as_ref().unwrap();
    assert_eq!(os.portused.len(), 1);
    assert_eq!(os.osfingerprint.len(), 1);
    assert_eq!(os.osfingerprint[0].fingerprint, "OS:SCAN");
}

#[test]
fn host_with_short_tcp_sequence_among_other_children_fails() {
    let host = format!(
        "<host>{}<address addr=\"10.0.0.1\" addrtype=\"ipv4\"/><tcpsequence index=\"199\" difficulty=\"Good luck!\" values=\"1A,2B,3C\"/><times srtt=\"1\"/></host>",
        STATUS
    );
    assert!(matches!(NmapResults::parse(&report(&host)), Err(Error::InvalidNmapOutput(_))));
}
