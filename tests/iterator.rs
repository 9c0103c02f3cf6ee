use nmap_xml_parser::host::{HostState, HostStatus, Hostname, HostnameType};
use nmap_xml_parser::net::IpAddr;
use nmap_xml_parser::host::Address;
use nmap_xml_parser::port::{Port, PortProtocol, PortState, PortStatus, ServiceInfo, ServiceMethod};
use nmap_xml_parser::NmapResults;

const SCANME: &str = r#"<?xml version="1.0" encoding="UTF-8"?>
<nmaprun scanner="nmap" start="1588318812" version="7.80">
<host starttime="1588318812" endtime="1588318814"><status state="up" reason="echo-reply" reason_ttl="53"/>
<address addr="45.33.32.156" addrtype="ipv4"/>
<hostnames>
<hostname name="scanme.nmap.org" type="user"/>
<hostname name="scanme.nmap.org" type="PTR"/>
</hostnames>
<ports>
<port protocol="tcp" portid="22"><state state="open" reason="syn-ack" reason_ttl="53"/><service name="ssh" method="table" conf="3"/></port>
<port protocol="tcp" portid="80"><state state="open" reason="syn-ack" reason_ttl="52"/><service name="http" method="table" conf="3"/></port>
<port protocol="tcp" portid="9929"><state state="open" reason="syn-ack" reason_ttl="53"/><service name="nping-echo" method="table" conf="3"/></port>
<port protocol="tcp" portid="31337"><state state="open" reason="syn-ack" reason_ttl="52"/><service name="Elite" method="table" conf="3"/></port>
</ports>
</host>
<runstats><finished time="1588318814"/></runstats>
</nmaprun>
"#;

fn open_tcp(number: u16, ttl: u8, service: &str) -> Port {
    Port {
        protocol: PortProtocol::Tcp,
        port_number: number,
        status: PortStatus {
            state: PortState::Open,
            reason: "syn-ack".to_string(),
            reason_ttl: ttl,
        },
        service_info: Some(ServiceInfo {
            name: service.to_string(),
            confidence_level: 3,
            method: ServiceMethod::Table,
        }),
    }
}

#[test]
fn iter() {
    let nmap = NmapResults::parse(SCANME).unwrap();
    let vector: Vec<(&nmap_xml_parser::host::Host, &Port)> = nmap.iter_ports();

    let status = HostStatus {
        state: HostState::Up,
        reason: "echo-reply".to_string(),
        reason_ttl: 53,
    };
    let host_names = vec![
        Hostname {
            name: "scanme.nmap.org".to_string(),
            source: HostnameType::User,
        },
        Hostname {
            name: "scanme.nmap.org".to_string(),
            source: HostnameType::Dns,
        },
    ];

    let correct = vec![
        open_tcp(22, 53, "ssh"),
        open_tcp(80, 52, "http"),
        open_tcp(9929, 53, "nping-echo"),
        open_tcp(31337, 52, "Elite"),
    ];

    println!("vector: {:?}", vector);

    assert_eq!(vector.len(), correct.len());
    for ((host, port), expected) in vector.iter().zip(correct.iter()) {
        assert_eq!(host.addresses(), &[Address::IpAddr(IpAddr::V4([45, 33, 32, 156]))][..]);
        assert_eq!(host.status, status);
        assert_eq!(host.host_names(), &host_names[..]);
        assert_eq!(host.scan_start_time, Some(1_588_318_812));
        assert_eq!(host.scan_end_time, Some(1_588_318_814));
        assert_eq!(*port, expected);
    }
}
