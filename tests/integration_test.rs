use nmap_xml_parser::host::{
    Address, HostState, HostStatus, Hostname, HostnameType, IpIdSequence, Os, OsClass, OsMatch,
    TcpDifficulty, TcpSequence, TcpTsSequence, Uptime,
};
use nmap_xml_parser::net::IpAddr;
use nmap_xml_parser::port::{
    Port, PortProtocol, PortState, PortStatus, PortUsed, ServiceInfo, ServiceMethod,
};
use nmap_xml_parser::NmapResults;

const SCANME: &str = r#"<?xml version="1.0" encoding="UTF-8"?>
<!DOCTYPE nmaprun>
<nmaprun scanner="nmap" args="nmap -oX test.xml scanme.nmap.org" start="1588318812" startstr="Fri May  1 09:40:12 2020" version="7.80" xmloutputversion="1.04">
<scaninfo type="syn" protocol="tcp" numservices="1000" services="1-1000"/>
<verbose level="0"/>
<debugging level="0"/>
<host starttime="1588318812" endtime="1588318814"><status state="up" reason="echo-reply" reason_ttl="53"/>
<address addr="45.33.32.156" addrtype="ipv4"/>
<hostnames>
<hostname name="scanme.nmap.org" type="user"/>
<hostname name="scanme.nmap.org" type="PTR"/>
</hostnames>
<ports><extraports state="closed" count="996">
<extrareasons reason="resets" count="996"/>
</extraports>
<port protocol="tcp" portid="22"><state state="open" reason="syn-ack" reason_ttl="53"/><service name="ssh" method="table" conf="3"/></port>
<port protocol="tcp" portid="80"><state state="open" reason="syn-ack" reason_ttl="52"/><service name="http" method="table" conf="3"/></port>
<port protocol="tcp" portid="9929"><state state="open" reason="syn-ack" reason_ttl="53"/><service name="nping-echo" method="table" conf="3"/></port>
<port protocol="tcp" portid="31337"><state state="open" reason="syn-ack" reason_ttl="52"/><service name="Elite" method="table" conf="3"/></port>
</ports>
<times srtt="33779" rttvar="1563" to="100000"/>
</host>
<runstats><finished time="1588318814" timestr="Fri May  1 09:40:14 2020" elapsed="2.39" summary="Nmap done at Fri May  1 09:40:14 2020; 1 IP address (1 host up) scanned in 2.39 seconds" exit="success"/><hosts up="1" down="0" total="1"/>
</runstats>
</nmaprun>
"#;

const ISSUE_ONE: &str = r#"<?xml version="1.0" encoding="UTF-8"?>
<nmaprun scanner="nmap" start="1589292535" version="7.80">
<host><status state="up" reason="arp-response" reason_ttl="0"/>
<address addr="192.168.59.138" addrtype="ipv4"/>
<address addr="00:0C:29:71:23:2B" addrtype="mac" vendor="VMware"/>
<hostnames>
</hostnames>
</host>
<runstats><finished time="1589292537"/><hosts up="1" down="0" total="1"/></runstats>
</nmaprun>
"#;

const HOST_DOWN: &str = r#"<?xml version="1.0" encoding="UTF-8"?>
<nmaprun scanner="nmap" start="1589292535" version="7.80">
<host><status state="down" reason="no-response" reason_ttl="0"/>
<address addr="192.168.59.234" addrtype="ipv4"/>
</host>
<host><status state="down" reason="no-response" reason_ttl="0"/>
<address addr="192.168.59.235" addrtype="ipv4"/>
</host>
<runstats><finished time="1589292537"/><hosts up="0" down="2" total="2"/></runstats>
</nmaprun>
"#;

const INCOMPLETE_SCAN: &str = r#"<?xml version="1.0" encoding="UTF-8"?>
<nmaprun scanner="nmap" start="1588318812" version="7.80">
<host><status state="up" reason="echo-reply" reason_ttl="53"/>
<address addr="45.33.32.156" addrtype="ipv4"/>
</host>
</nmaprun>
"#;

const VERBOSE_SCAN_1: &str = r#"<?xml version="1.0" encoding="UTF-8"?>
<nmaprun scanner="nmap" start="1315570000" version="5.59BETA3">
<host starttime="1315570000" endtime="1315570100"><status state="up" reason="reset" reason_ttl="64"/>
<address addr="192.168.1.1" addrtype="ipv4"/>
<uptime seconds="23450" lastboot="Fri Sep  9 12:03:04 2011"/>
<tcpsequence index="199" difficulty="Good luck!" values="49018209,48C3EBED,495A2E7F,493EF30C,48ED43B3,495A9B0C"/>
<ipidsequence class="All zeros" values="0,0,0,0,0,0"/>
<tcptssequence class="1000HZ" values="23448585,23448686,23448786,23448886,23448986,23449160"/>
</host>
</nmaprun>
"#;

const VERBOSE_SCAN_2: &str = r#"<?xml version="1.0" encoding="UTF-8"?>
<nmaprun scanner="nmap" start="1315570000" version="7.80">
<host><status state="up" reason="echo-reply" reason_ttl="63"/>
<address addr="10.0.0.5" addrtype="ipv4"/>
<os><portused state="open" proto="tcp" portid="22"/>
<portused state="closed" proto="tcp" portid="1"/>
<portused state="closed" proto="udp" portid="37776"/>
<osmatch name="Linux 2.6.32" accuracy="93" line="54319">
<osclass type="general purpose" vendor="Linux" osfamily="Linux" osgen="2.6.X" accuracy="93"><cpe>cpe:/o:linux:linux_kernel:2.6.32</cpe></osclass>
</osmatch>
<osmatch name="Linux 2.6.32 or 3.10" accuracy="93" line="56843">
<osclass type="general purpose" vendor="Linux" osfamily="Linux" osgen="2.6.X" accuracy="93"><cpe>cpe:/o:linux:linux_kernel:2.6.32</cpe></osclass>
<osclass type="general purpose" vendor="Linux" osfamily="Linux" osgen="3.X" accuracy="93"><cpe>cpe:/o:linux:linux_kernel:3.10</cpe></osclass>
</osmatch>
</os>
</host>
</nmaprun>
"#;

fn vectors_eq<T: PartialEq>(a: &Vec<T>, b: &Vec<T>) -> bool {
    let matching = a.iter().zip(b.iter()).filter(|&(a, b)| a == b).count();
    matching == a.len() || matching == b.len()
}

fn scanme() -> NmapResults {
    NmapResults::parse(SCANME).unwrap()
}

#[test]
fn start_time() {
    assert_eq!(scanme().scan_start_time, 1588318812);
}

#[test]
fn end_time() {
    assert_eq!(scanme().scan_end_time, Some(1588318814));
}

#[test]
fn no_end_time() {
    let nmap = NmapResults::parse(INCOMPLETE_SCAN).unwrap();
    assert_eq!(nmap.scan_end_time, None);
}

#[test]
fn host_start_time() {
    let nmap = scanme();
    let host = nmap.hosts().first().unwrap();
    assert_eq!(host.scan_start_time, Some(1588318812));
}

#[test]
fn host_end_time() {
    let nmap = scanme();
    let host = nmap.hosts().first().unwrap();
    assert_eq!(host.scan_end_time, Some(1588318814));
}

#[test]
fn host_ip_address() {
    let ip = IpAddr::V4([45, 33, 32, 156]);

    let nmap = scanme();
    let host = nmap.hosts().first().unwrap();
    assert!(host.addresses().len() == 1);

    let ip_addr = host.addresses().first().unwrap();
    match ip_addr {
        Address::IpAddr(s) => assert_eq!(s, &ip),
        Address::MacAddr(_) => assert!(false),
    }
}

#[test]
fn host_status() {
    let nmap = scanme();
    let host = nmap.hosts().first().unwrap();
    assert_eq!(host.status.reason, "echo-reply");
    assert_eq!(host.status.reason_ttl, 53);
    assert_eq!(host.status.state, HostState::Up);
}

#[test]
fn host_hostnames() {
    let nmap = scanme();
    let host = nmap.hosts().first().unwrap();

    let mut expected = Vec::new();
    let h1 = Hostname {
        name: "scanme.nmap.org".to_string(),
        source: HostnameType::User,
    };

    let h2 = Hostname {
        name: "scanme.nmap.org".to_string(),
        source: HostnameType::Dns,
    };

    expected.push(&h1);
    expected.push(&h2);

    assert!(!(host.host_names().len() == 0));
    assert!(vectors_eq(&host.host_names().iter().collect(), &expected));
}

fn scanme_port(number: u16, ttl: u8, service: &str) -> Port {
    Port {
        protocol: PortProtocol::Tcp,
        port_number: number,
        status: PortStatus {
            state: PortState::Open,
            reason: "syn-ack".to_string(),
            reason_ttl: ttl,
        },
        service_info: Some(ServiceInfo {
            name: service.to_string(),
            method: ServiceMethod::Table,
            confidence_level: 3,
        }),
    }
}

#[test]
fn host_portinfo_ports() {
    let nmap = scanme();
    let host = nmap.hosts().first().unwrap();

    let p1 = scanme_port(22, 53, "ssh");
    let p2 = scanme_port(80, 52, "http");
    let p3 = scanme_port(9929, 53, "nping-echo");
    let p4 = scanme_port(31337, 52, "Elite");
    let expected = vec![&p1, &p2, &p3, &p4];

    assert!(!(host.port_info.ports().len() == 0));
    assert!(vectors_eq(&host.port_info.ports().iter().collect(), &expected));
}

#[test]
fn test_issue_one() {
    let ip = IpAddr::V4([192, 168, 59, 138]);
    let mac: [u8; 6] = [0x00, 0x0C, 0x29, 0x71, 0x23, 0x2B];

    let nmap = NmapResults::parse(ISSUE_ONE).unwrap();
    let host = nmap.hosts().first().unwrap();
    assert!(host.addresses().len() == 2);

    let mut addresses = host.addresses().iter();

    let ip_addr = addresses.next().unwrap();
    println!("{:?}", ip_addr);
    match ip_addr {
        Address::IpAddr(s) => assert_eq!(s, &ip),
        Address::MacAddr(_) => assert!(false),
    }

    let mac_addr = addresses.next().unwrap();
    println!("{:?}", mac_addr);
    match mac_addr {
        Address::IpAddr(_) => assert!(false),
        Address::MacAddr(s) => assert_eq!(s, &mac),
    }
}

#[test]
fn test_iter_ports() {
    let mut v = Vec::new();

    let nmap = scanme();
    for (_, port) in nmap.iter_ports() {
        v.push(port.port_number);
    }

    let expected = vec![22, 80, 9929, 31337];
    assert!(vectors_eq(&v, &expected));
}

#[test]
fn test_host_down() {
    let nmap = NmapResults::parse(HOST_DOWN).unwrap();
    println!("{:?}", nmap);

    assert_eq!(nmap.hosts().len(), 2);
    for host in nmap.hosts() {
        assert_eq!(host.status.state, HostState::Down);
    }
}

#[test]
fn test_tcpsequence() {
    let expected_values: [u32; 6] = [
        1224835593, 1220799469, 1230646911, 1228862220, 1223508915, 1230674700,
    ];

    let expected = TcpSequence {
        index: 199,
        difficulty: TcpDifficulty::Good,
        values: expected_values,
    };

    let nmap = NmapResults::parse(VERBOSE_SCAN_1).unwrap();
    let tcpsequence = nmap.hosts().first().unwrap().tcpsequence.as_ref();

    assert_eq!(tcpsequence.unwrap(), &expected);
}

#[test]
fn test_ipidsequence() {
    let expected_values: [u32; 6] = [0, 0, 0, 0, 0, 0];

    let expected = IpIdSequence {
        class: String::from("All zeros"),
        values: expected_values,
    };

    let nmap = NmapResults::parse(VERBOSE_SCAN_1).unwrap();
    let ipidsequence = nmap.hosts().first().unwrap().ipidsequence.as_ref();

    assert_eq!(ipidsequence.unwrap(), &expected);
}

#[test]
fn test_tcptssequence() {
    let expected_values: [u32; 6] = [23448585, 23448686, 23448786, 23448886, 23448986, 23449160];

    let expected = TcpTsSequence {
        class: String::from("1000HZ"),
        values: expected_values,
    };

    let nmap = NmapResults::parse(VERBOSE_SCAN_1).unwrap();
    let tcptssequence = nmap.hosts().first().unwrap().tcptssequence.as_ref();

    assert_eq!(tcptssequence.unwrap(), &expected);
}

#[test]
fn test_uptime() {
    let expected = Uptime {
        seconds: 23450,
        lastboot: String::from("Fri Sep  9 12:03:04 2011"),
    };

    let nmap = NmapResults::parse(VERBOSE_SCAN_1).unwrap();
    let uptime = nmap.hosts().first().unwrap().uptime.as_ref();

    assert_eq!(uptime.unwrap(), &expected);
}

fn linux_class(osgen: &str, cpe: &str) -> OsClass {
    OsClass {
        os_type: Some("general purpose".to_string()),
        vendor: "Linux".to_string(),
        os_family: "Linux".to_string(),
        os_gen: Some(osgen.to_string()),
        accuracy: 93,
        cpe: vec![cpe.to_string()],
    }
}

#[test]
fn test_os() {
    let p1 = PortUsed {
        state: PortState::Open,
        proto: PortProtocol::Tcp,
        port_number: 22,
    };
    let p2 = PortUsed {
        state: PortState::Closed,
        proto: PortProtocol::Tcp,
        port_number: 1,
    };
    let p3 = PortUsed {
        state: PortState::Closed,
        proto: PortProtocol::Udp,
        port_number: 37776,
    };

    let c1 = linux_class("2.6.X", "cpe:/o:linux:linux_kernel:2.6.32");
    let c2 = linux_class("2.6.X", "cpe:/o:linux:linux_kernel:2.6.32");
    let c3 = linux_class("3.X", "cpe:/o:linux:linux_kernel:3.10");

    let o1 = OsMatch {
        name: "Linux 2.6.32".to_string(),
        accuracy: 93,
        line: 54319,
        osclass: vec![c1],
    };

    let o2 = OsMatch {
        name: "Linux 2.6.32 or 3.10".to_string(),
        accuracy: 93,
        line: 56843,
        osclass: vec![c2, c3],
    };

    let expected = Os {
        portused: vec![p1, p2, p3],
        osmatch: vec![o1, o2],
        osfingerprint: vec![],
    };

    let nmap = NmapResults::parse(VERBOSE_SCAN_2).unwrap();
    let os = nmap.hosts().first().unwrap().os.as_ref();

    assert_eq![os.unwrap(), &expected];
}

#[test]
fn host_status_record() {
    let nmap = scanme();
    let host = nmap.hosts().first().unwrap();
    let expected = HostStatus {
        state: HostState::Up,
        reason: "echo-reply".to_string(),
        reason_ttl: 53,
    };
    assert_eq!(host.status, expected);
}
