use nmap_xml_parser::host::Host;
use nmap_xml_parser::xml::XmlDocument;

fn parse_host(xml: &str) -> Result<Host, nmap_xml_parser::Error> {
    let doc = XmlDocument::parse(xml).unwrap();
    let ele = doc.root_element().unwrap();
    Host::parse(&doc, ele)
}

#[test]
fn host_with_start_end_time() {
    let xml = r#"
<host starttime="1589292535" endtime="1589292535">
    <status state="down" reason="no-response" reason_ttl="0"/>
    <address addr="192.168.59.234" addrtype="ipv4"/>
</host>
        "#;
    let host = parse_host(xml).unwrap();

    assert_eq!(host.scan_start_time, Some(1589292535));
    assert_eq!(host.scan_end_time, Some(1589292535));
}

#[test]
fn host_without_start_end_time() {
    let xml = r#"
<host>
    <status state="down" reason="no-response" reason_ttl="0"/>
    <address addr="192.168.59.234" addrtype="ipv4"/>
</host>
        "#;
    let host = parse_host(xml).unwrap();

    assert!(host.scan_start_time.is_none());
    assert!(host.scan_end_time.is_none());
}

#[test]
fn host_with_invalid_start_time() {
    let xml = r#"
<host starttime="NOT A NUMBER" endtime="1589292535">
    <status state="down" reason="no-response" reason_ttl="0"/>
    <address addr="192.168.59.234" addrtype="ipv4"/>
</host>
        "#;
    let host_err = parse_host(xml).unwrap_err();

    assert_eq!(
        host_err.message(),
        "error parsing Nmap XML output: failed to parse host start time"
    );
}

#[test]
fn host_with_multiple_script_output() {
    let xml = r#"
<host starttime="1623467939" endtime="1623467939"><status state="up" reason="conn-refused" reason_ttl="0"/>
<address addr="192.168.1.70" addrtype="ipv4"/>
<hostscript><script id="smb-print-text" output="false">false</script><script id="smb2-time" output="&#xa;  date: 2021-06-12T03:17:58&#xa;  start_date: N/A"><elem key="date">2021-06-12T03:17:58</elem>
<elem key="start_date">N/A</elem>
</script></hostscript><times srtt="5263" rttvar="4662" to="100000"/>
</host>
        "#;
    let script_host = parse_host(xml).unwrap();
    let script_output = &script_host.scripts()[0];

    assert_eq!(script_output.id, "smb-print-text");
    assert_eq!(script_output.output, "false");
    assert_eq!(script_host.scripts()[1].id, "smb2-time");
    assert_eq!(script_host.scripts()[1].output, "\n  date: 2021-06-12T03:17:58\n  start_date: N/A");
}

#[test]
fn host_with_invalid_end_time() {
    let xml = r#"
<host starttime="1589292535" endtime="NOT A NUMBER">
    <status state="down" reason="no-response" reason_ttl="0"/>
    <address addr="192.168.59.234" addrtype="ipv4"/>
</host>
        "#;
    let host_err = parse_host(xml).unwrap_err();

    assert_eq!(
        host_err.message(),
        "error parsing Nmap XML output: failed to parse host end time"
    );
}

#[test]
fn host_with_os() {
    let xml = r#"
<host starttime="1589292535" endtime="1589292535">
    <status state="down" reason="no-response" reason_ttl="0"/>
    <address addr="192.168.59.234" addrtype="ipv4"/>
    <os><portused state="open" proto="tcp" portid="80"/>
<osmatch name="Tomato 1.28 (Linux 2.4.20)" accuracy="100" line="46911">
<osclass type="WAP" vendor="Linux" osfamily="Linux" osgen="2.4.X" accuracy="100"><cpe>cpe:/o:linux:linux_kernel:2.4.20</cpe></osclass>
</osmatch>
<osmatch name="Tomato firmware (Linux 2.6.22)" accuracy="100" line="61642">
<osclass type="WAP" vendor="Linux" osfamily="Linux" osgen="2.6.X" accuracy="100"><cpe>cpe:/o:linux:linux_kernel:2.6.22</cpe></osclass>
</osmatch>
<osmatch name="Sony Ericsson U8i Vivaz mobile phone" accuracy="100" line="99093">
<osclass type="phone" vendor="Sony Ericsson" osfamily="embedded" accuracy="100"><cpe>cpe:/h:sonyericsson:u8i_vivaz</cpe></osclass>
</osmatch>
</os>
</host>
        "#;
    let host = parse_host(xml).unwrap();
    assert!(host.os.is_some());
    assert_eq!(host.scan_start_time, Some(1589292535));
    assert_eq!(host.scan_end_time, Some(1589292535));
    let os = host.os.unwrap();
    assert_eq!(os.osmatch.len(), 3);
    assert_eq!(os.osmatch[2].osclass[0].os_gen, None);
    assert_eq!(os.osmatch[2].osclass[0].cpe, vec!["cpe:/h:sonyericsson:u8i_vivaz".to_string()]);
}
