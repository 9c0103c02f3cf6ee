//! Ports, their states and the services found on them.
use vstd::prelude::*;
use crate::{result_view, Error, ErrorView};
use crate::util::{
    fold_children, lemma_fold_end, lemma_fold_next, lemma_fold_start, lemma_fold_stop,
    malformed, malformed_error, required, required_attr, required_unsigned, required_unsigned_attr,
};
use crate::xml::{has_tag, str_eq, NodeView, XmlDocument};

verus! {

/// The transport protocol of a port.
#[derive(Clone, Copy, Debug, PartialEq, Eq, Structural)]
pub enum PortProtocol {
    Ip,
    Tcp,
    Udp,
    Sctp,
}

impl PortProtocol {
    /// The token that stands for the protocol in a report.
    pub open spec fn spec_token(self) -> Seq<char> {
        match self {
            PortProtocol::Ip => "ip"@,
            PortProtocol::Tcp => "tcp"@,
            PortProtocol::Udp => "udp"@,
            PortProtocol::Sctp => "sctp"@,
        }
    }

    pub open spec fn spec_parse(s: Seq<char>) -> Option<PortProtocol> {
        if s == "ip"@ {
            Some(PortProtocol::Ip)
        } else if s == "tcp"@ {
            Some(PortProtocol::Tcp)
        } else if s == "udp"@ {
            Some(PortProtocol::Udp)
        } else if s == "sctp"@ {
            Some(PortProtocol::Sctp)
        } else {
            None
        }
    }

    /// Reads a protocol token; any other text is refused.
    pub fn parse(s: &str) -> (r: Option<PortProtocol>)
        ensures
            r == PortProtocol::spec_parse(s@),
    {
        if str_eq(s, "ip") {
            Some(PortProtocol::Ip)
        } else if str_eq(s, "tcp") {
            Some(PortProtocol::Tcp)
        } else if str_eq(s, "udp") {
            Some(PortProtocol::Udp)
        } else if str_eq(s, "sctp") {
            Some(PortProtocol::Sctp)
        } else {
            None
        }
    }

    /// The protocol's token.
    pub fn as_str(&self) -> (r: &'static str)
        ensures
            r@ == self.spec_token(),
    {
        match self {
            PortProtocol::Ip => "ip",
            PortProtocol::Tcp => "tcp",
            PortProtocol::Udp => "udp",
            PortProtocol::Sctp => "sctp",
        }
    }
}

/// What the scan found a port to be.
#[derive(Clone, Copy, Debug, PartialEq, Eq, Structural)]
pub enum PortState {
    Open,
    Closed,
    Filtered,
    Unfiltered,
    OpenFiltered,
    CloseFiltered,
}

impl PortState {
    pub open spec fn spec_token(self) -> Seq<char> {
        match self {
            PortState::Open => "open"@,
            PortState::Closed => "closed"@,
            PortState::Filtered => "filtered"@,
            PortState::Unfiltered => "unfiltered"@,
            PortState::OpenFiltered => "open|filtered"@,
            PortState::CloseFiltered => "close|filtered"@,
        }
    }

    pub open spec fn spec_parse(s: Seq<char>) -> Option<PortState> {
        if s == "open"@ {
            Some(PortState::Open)
        } else if s == "closed"@ {
            Some(PortState::Closed)
        } else if s == "filtered"@ {
            Some(PortState::Filtered)
        } else if s == "unfiltered"@ {
            Some(PortState::Unfiltered)
        } else if s == "open|filtered"@ {
            Some(PortState::OpenFiltered)
        } else if s == "close|filtered"@ {
            Some(PortState::CloseFiltered)
        } else {
            None
        }
    }

    /// Reads a port-state token; any other text is refused.
    pub fn parse(s: &str) -> (r: Option<PortState>)
        ensures
            r == PortState::spec_parse(s@),
    {
        if str_eq(s, "open") {
            Some(PortState::Open)
        } else if str_eq(s, "closed") {
            Some(PortState::Closed)
        } else if str_eq(s, "filtered") {
            Some(PortState::Filtered)
        } else if str_eq(s, "unfiltered") {
            Some(PortState::Unfiltered)
        } else if str_eq(s, "open|filtered") {
            Some(PortState::OpenFiltered)
        } else if str_eq(s, "close|filtered") {
            Some(PortState::CloseFiltered)
        } else {
            None
        }
    }

    /// The state's token.
    pub fn as_str(&self) -> (r: &'static str)
        ensures
            r@ == self.spec_token(),
    {
        match self {
            PortState::Open => "open",
            PortState::Closed => "closed",
            PortState::Filtered => "filtered",
            PortState::Unfiltered => "unfiltered",
            PortState::OpenFiltered => "open|filtered",
            PortState::CloseFiltered => "close|filtered",
        }
    }
}

/// How the scanner named a port's service.
#[derive(Clone, Copy, Debug, PartialEq, Eq, Structural)]
pub enum ServiceMethod {
    Table,
    Probe,
}

impl ServiceMethod {
    pub open spec fn spec_token(self) -> Seq<char> {
        match self {
            ServiceMethod::Table => "table"@,
            ServiceMethod::Probe => "probed"@,
        }
    }

    pub open spec fn spec_parse(s: Seq<char>) -> Option<ServiceMethod> {
        if s == "table"@ {
            Some(ServiceMethod::Table)
        } else if s == "probed"@ {
            Some(ServiceMethod::Probe)
        } else {
            None
        }
    }

    /// Reads a detection-method token; any other text is refused.
    pub fn parse(s: &str) -> (r: Option<ServiceMethod>)
        ensures
            r == ServiceMethod::spec_parse(s@),
    {
        if str_eq(s, "table") {
            Some(ServiceMethod::Table)
        } else if str_eq(s, "probed") {
            Some(ServiceMethod::Probe)
        } else {
            None
        }
    }

    /// The method's token.
    pub fn as_str(&self) -> (r: &'static str)
        ensures
            r@ == self.spec_token(),
    {
        match self {
            ServiceMethod::Table => "table",
            ServiceMethod::Probe => "probed",
        }
    }
}

/// The state of a port and why the scanner gave it.
#[derive(Clone, Debug, PartialEq)]
pub struct PortStatus {
    pub state: PortState,
    pub reason: String,
    pub reason_ttl: u8,
}

/// The model of a `PortStatus`.
pub struct PortStatusView {
    pub state: PortState,
    pub reason: Seq<char>,
    pub reason_ttl: u8,
}

impl View for PortStatus {
    type V = PortStatusView;

    open spec fn view(&self) -> PortStatusView {
        PortStatusView { state: self.state, reason: self.reason@, reason_ttl: self.reason_ttl }
    }
}

/// The service the scanner found on a port.
#[derive(Clone, Debug, PartialEq)]
pub struct ServiceInfo {
    pub name: String,
    pub confidence_level: u8,
    pub method: ServiceMethod,
}

/// The model of a `ServiceInfo`.
pub struct ServiceInfoView {
    pub name: Seq<char>,
    pub confidence_level: u8,
    pub method: ServiceMethod,
}

impl View for ServiceInfo {
    type V = ServiceInfoView;

    open spec fn view(&self) -> ServiceInfoView {
        ServiceInfoView { name: self.name@, confidence_level: self.confidence_level, method: self.method }
    }
}

/// One scanned port.
#[derive(Clone, Debug, PartialEq)]
pub struct Port {
    pub protocol: PortProtocol,
    pub port_number: u16,
    pub status: PortStatus,
    pub service_info: Option<ServiceInfo>,
}

/// The model of a `Port`.
pub struct PortView {
    pub protocol: PortProtocol,
    pub port_number: u16,
    pub status: PortStatusView,
    pub service_info: Option<ServiceInfoView>,
}

impl View for Port {
    type V = PortView;

    open spec fn view(&self) -> PortView {
        PortView {
            protocol: self.protocol,
            port_number: self.port_number,
            status: self.status@,
            service_info: match self.service_info {
                Some(s) => Some(s@),
                None => None,
            },
        }
    }
}

/// The ports reported for one host, in document order.
#[derive(Clone, Debug, Default)]
pub struct PortInfo {
    pub ports: Vec<Port>,
}

pub open spec fn ports_view(ports: Seq<Port>) -> Seq<PortView> {
    ports.map_values(|p: Port| p@)
}

impl View for PortInfo {
    type V = Seq<PortView>;

    open spec fn view(&self) -> Seq<PortView> {
        ports_view(self.ports@)
    }
}

/// A port that the scanner used to fingerprint a host's OS.
#[derive(Clone, Copy, Debug, PartialEq, Eq, Structural)]
pub struct PortUsed {
    pub state: PortState,
    pub proto: PortProtocol,
    pub port_number: u16,
}

/// An enumerated attribute: required, and one of its type's tokens.
pub open spec fn port_state_attr(n: NodeView, node: Seq<char>) -> Result<PortState, ErrorView> {
    match required(n, "state"@, node) {
        Err(e) => Err(e),
        Ok(v) => match PortState::spec_parse(v) {
            Some(x) => Ok(x),
            None => Err(malformed("state"@)),
        },
    }
}

pub open spec fn protocol_attr(n: NodeView, name: Seq<char>, node: Seq<char>) -> Result<PortProtocol, ErrorView> {
    match required(n, name, node) {
        Err(e) => Err(e),
        Ok(v) => match PortProtocol::spec_parse(v) {
            Some(x) => Ok(x),
            None => Err(malformed(name)),
        },
    }
}

/// What a `state` element decodes to.
pub open spec fn port_status_of(n: NodeView) -> Result<PortStatusView, ErrorView> {
    match port_state_attr(n, "state"@) {
        Err(e) => Err(e),
        Ok(state) => match required(n, "reason"@, "state"@) {
            Err(e) => Err(e),
            Ok(reason) => match required_unsigned(n, "reason_ttl"@, "state"@, 255) {
                Err(e) => Err(e),
                Ok(ttl) => Ok(PortStatusView { state, reason, reason_ttl: ttl as u8 }),
            },
        },
    }
}

/// What a `service` element decodes to: all of it or an error.
pub open spec fn service_info_of(n: NodeView) -> Result<ServiceInfoView, ErrorView> {
    match required(n, "name"@, "service"@) {
        Err(e) => Err(e),
        Ok(name) => match required_unsigned(n, "conf"@, "service"@, 255) {
            Err(e) => Err(e),
            Ok(conf) => match required(n, "method"@, "service"@) {
                Err(e) => Err(e),
                Ok(m) => match ServiceMethod::spec_parse(m) {
                    None => Err(malformed("method"@)),
                    Some(method) => Ok(ServiceInfoView { name, confidence_level: conf as u8, method }),
                },
            },
        },
    }
}

/// What a `portused` element decodes to.
pub open spec fn port_used_of(n: NodeView) -> Result<PortUsed, ErrorView> {
    match port_state_attr(n, "portused"@) {
        Err(e) => Err(e),
        Ok(state) => match protocol_attr(n, "proto"@, "portused"@) {
            Err(e) => Err(e),
            Ok(proto) => match required_unsigned(n, "portid"@, "portused"@, 0xffff) {
                Err(e) => Err(e),
                Ok(num) => Ok(PortUsed { state, proto, port_number: num as u16 }),
            },
        },
    }
}

pub type PortParts = (Option<PortStatusView>, Option<ServiceInfoView>);

/// One step over a port's children: a `state` or a `service` child replaces
/// what an earlier one of its kind gave; other children are passed over.
pub open spec fn port_step(doc: Seq<NodeView>) -> spec_fn(PortParts, int) -> Result<PortParts, ErrorView> {
    |s: PortParts, c: int|
        if has_tag(doc, c, "state"@) {
            match port_status_of(doc[c]) {
                Ok(x) => Ok((Some(x), s.1)),
                Err(e) => Err(e),
            }
        } else if has_tag(doc, c, "service"@) {
            match service_info_of(doc[c]) {
                Ok(x) => Ok((s.0, Some(x))),
                Err(e) => Err(e),
            }
        } else {
            Ok(s)
        }
}

/// What a `port` element decodes to.
pub open spec fn port_of(doc: Seq<NodeView>, i: int) -> Result<PortView, ErrorView> {
    let n = doc[i];
    match protocol_attr(n, "protocol"@, "port"@) {
        Err(e) => Err(e),
        Ok(protocol) => match required_unsigned(n, "portid"@, "port"@, 0xffff) {
            Err(e) => Err(e),
            Ok(num) => match fold_children(n.children, (None, None), port_step(doc)) {
                Err(e) => Err(e),
                Ok(parts) => match parts.0 {
                    None => Err(ErrorView::Invalid("expected `state` node for port"@)),
                    Some(status) => Ok(
                        PortView { protocol, port_number: num as u16, status, service_info: parts.1 },
                    ),
                },
            },
        },
    }
}

/// One step over the children of `ports`: each `port` child is decoded and kept.
pub open spec fn ports_step(doc: Seq<NodeView>) -> spec_fn(Seq<PortView>, int) -> Result<Seq<PortView>, ErrorView> {
    |acc: Seq<PortView>, c: int|
        if has_tag(doc, c, "port"@) {
            match port_of(doc, c) {
                Ok(p) => Ok(acc.push(p)),
                Err(e) => Err(e),
            }
        } else {
            Ok(acc)
        }
}

/// What a `ports` element decodes to.
pub open spec fn port_info_of(doc: Seq<NodeView>, i: int) -> Result<Seq<PortView>, ErrorView> {
    fold_children(doc[i].children, Seq::empty(), ports_step(doc))
}

fn port_state_attr_exec(doc: &XmlDocument, i: usize, node: &str) -> (r: Result<PortState, Error>)
    requires
        i < doc@.len(),
    ensures
        match r {
            Ok(v) => port_state_attr(doc@[i as int], node@) == Ok::<PortState, ErrorView>(v),
            Err(e) => port_state_attr(doc@[i as int], node@) == Err::<PortState, ErrorView>(e@),
        },
{
    let v = match required_attr(&doc.nodes[i], "state", node) {
        Ok(v) => v,
        Err(e) => return Err(e),
    };
    match PortState::parse(v.as_str()) {
        Some(x) => Ok(x),
        None => Err(malformed_error("state")),
    }
}

fn protocol_attr_exec(doc: &XmlDocument, i: usize, name: &str, node: &str) -> (r: Result<PortProtocol, Error>)
    requires
        i < doc@.len(),
    ensures
        match r {
            Ok(v) => protocol_attr(doc@[i as int], name@, node@) == Ok::<PortProtocol, ErrorView>(v),
            Err(e) => protocol_attr(doc@[i as int], name@, node@) == Err::<PortProtocol, ErrorView>(e@),
        },
{
    let v = match required_attr(&doc.nodes[i], name, node) {
        Ok(v) => v,
        Err(e) => return Err(e),
    };
    match PortProtocol::parse(v.as_str()) {
        Some(x) => Ok(x),
        None => Err(malformed_error(name)),
    }
}

impl PortStatus {
    /// Decodes a `state` element.
    pub fn parse(doc: &XmlDocument, i: usize) -> (r: Result<PortStatus, Error>)
        requires
            i < doc@.len(),
        ensures
            result_view(r) == port_status_of(doc@[i as int]),
    {
        let state = match port_state_attr_exec(doc, i, "state") {
            Ok(v) => v,
            Err(e) => return Err(e),
        };
        let reason = match required_attr(&doc.nodes[i], "reason", "state") {
            Ok(v) => v.clone(),
            Err(e) => return Err(e),
        };
        let ttl = match required_unsigned_attr(&doc.nodes[i], "reason_ttl", "state", 255) {
            Ok(v) => v as u8,
            Err(e) => return Err(e),
        };
        Ok(PortStatus { state, reason, reason_ttl: ttl })
    }
}

impl ServiceInfo {
    /// Decodes a `service` element.
    pub fn parse(doc: &XmlDocument, i: usize) -> (r: Result<ServiceInfo, Error>)
        requires
            i < doc@.len(),
        ensures
            result_view(r) == service_info_of(doc@[i as int]),
    {
        let n = &doc.nodes[i];
        let name = match required_attr(n, "name", "service") {
            Ok(v) => v.clone(),
            Err(e) => return Err(e),
        };
        let conf = match required_unsigned_attr(n, "conf", "service", 255) {
            Ok(v) => v as u8,
            Err(e) => return Err(e),
        };
        let m = match required_attr(n, "method", "service") {
            Ok(v) => v,
            Err(e) => return Err(e),
        };
        let method = match ServiceMethod::parse(m.as_str()) {
            Some(x) => x,
            None => return Err(malformed_error("method")),
        };
        Ok(ServiceInfo { name, confidence_level: conf, method })
    }
}

impl PortUsed {
    /// Decodes a `portused` element.
    pub fn parse(doc: &XmlDocument, i: usize) -> (r: Result<PortUsed, Error>)
        requires
            i < doc@.len(),
        ensures
            match r {
                Ok(p) => port_used_of(doc@[i as int]) == Ok::<PortUsed, ErrorView>(p),
                Err(e) => port_used_of(doc@[i as int]) == Err::<PortUsed, ErrorView>(e@),
            },
    {
        let state = match port_state_attr_exec(doc, i, "portused") {
            Ok(v) => v,
            Err(e) => return Err(e),
        };
        let proto = match protocol_attr_exec(doc, i, "proto", "portused") {
            Ok(v) => v,
            Err(e) => return Err(e),
        };
        let num = match required_unsigned_attr(&doc.nodes[i], "portid", "portused", 0xffff) {
            Ok(v) => v as u16,
            Err(e) => return Err(e),
        };
        Ok(PortUsed { state, proto, port_number: num })
    }
}

pub open spec fn opt_view<T: View>(o: Option<T>) -> Option<T::V> {
    match o {
        Some(v) => Some(v@),
        None => None,
    }
}

impl Port {
    /// Decodes a `port` element: its protocol and number, the last `state`
    /// child (which it must have) and the last `service` child, if any.
    pub fn parse(doc: &XmlDocument, i: usize) -> (r: Result<Port, Error>)
        requires
            i < doc@.len(),
        ensures
            result_view(r) == port_of(doc@, i as int),
    {
        let protocol = match protocol_attr_exec(doc, i, "protocol", "port") {
            Ok(v) => v,
            Err(e) => return Err(e),
        };
        let num = match required_unsigned_attr(&doc.nodes[i], "portid", "port", 0xffff) {
            Ok(v) => v,
            Err(e) => return Err(e),
        };
        let kids = &doc.nodes[i].children;
        let ghost ks = doc@[i as int].children;
        let ghost init: PortParts = (None, None);
        let mut status: Option<PortStatus> = None;
        let mut service: Option<ServiceInfo> = None;
        proof {
            lemma_fold_start(ks, init, port_step(doc@));
        }
        let mut k: usize = 0;
        while k < kids.len()
            invariant
                ks == kids@,
                ks == doc@[i as int].children,
                init == (Option::<PortStatusView>::None, Option::<ServiceInfoView>::None),
                i < doc@.len(),
                protocol_attr(doc@[i as int], "protocol"@, "port"@) == Ok::<PortProtocol, ErrorView>(protocol),
                required_unsigned(doc@[i as int], "portid"@, "port"@, 0xffff) == Ok::<nat, ErrorView>(num as nat),
                k <= ks.len(),
                fold_children(ks.subrange(0, k as int), init, port_step(doc@))
                    == Ok::<PortParts, ErrorView>((opt_view(status), opt_view(service))),
            decreases kids.len() - k,
        {
            proof {
                lemma_fold_next(ks, k as int, init, port_step(doc@));
            }
            let c = kids[k];
            if doc.is_tag(c, "state") {
                match PortStatus::parse(doc, c) {
                    Ok(x) => {
                        status = Some(x);
                    },
                    Err(e) => {
                        proof {
                            assert(fold_children(ks.subrange(0, k + 1), init, port_step(doc@))
                                == Err::<PortParts, ErrorView>(e@));
                            lemma_fold_stop(ks, k + 1, init, port_step(doc@));
                        }
                        return Err(e);
                    },
                }
            } else if doc.is_tag(c, "service") {
                match ServiceInfo::parse(doc, c) {
                    Ok(x) => {
                        service = Some(x);
                    },
                    Err(e) => {
                        proof {
                            assert(fold_children(ks.subrange(0, k + 1), init, port_step(doc@))
                                == Err::<PortParts, ErrorView>(e@));
                            lemma_fold_stop(ks, k + 1, init, port_step(doc@));
                        }
                        return Err(e);
                    },
                }
            }
            k = k + 1;
        }
        proof {
            lemma_fold_end(ks, init, port_step(doc@));
        }
        match status {
            Some(status) => Ok(Port { protocol, port_number: num as u16, status, service_info: service }),
            None => Err(Error::invalid("expected `state` node for port")),
        }
    }
}

impl PortInfo {
    /// Decodes a `ports` element: each `port` child, in document order.
    pub fn parse(doc: &XmlDocument, i: usize) -> (r: Result<PortInfo, Error>)
        requires
            i < doc@.len(),
        ensures
            result_view(r) == port_info_of(doc@, i as int),
    {
        let kids = &doc.nodes[i].children;
        let ghost ks = doc@[i as int].children;
        let ghost init = Seq::<PortView>::empty();
        let mut ports: Vec<Port> = Vec::new();
        proof {
            assert(ports_view(ports@) =~= init);
            lemma_fold_start(ks, init, ports_step(doc@));
        }
        let mut k: usize = 0;
        while k < kids.len()
            invariant
                ks == kids@,
                ks == doc@[i as int].children,
                init == Seq::<PortView>::empty(),
                k <= ks.len(),
                fold_children(ks.subrange(0, k as int), init, ports_step(doc@))
                    == Ok::<Seq<PortView>, ErrorView>(ports_view(ports@)),
            decreases kids.len() - k,
        {
            proof {
                lemma_fold_next(ks, k as int, init, ports_step(doc@));
            }
            let c = kids[k];
            if doc.is_tag(c, "port") {
                match Port::parse(doc, c) {
                    Ok(p) => {
                        let ghost before = ports_view(ports@);
                        ports.push(p);
                        assert(ports_view(ports@) =~= before.push(p@));
                    },
                    Err(e) => {
                        proof {
                            lemma_fold_stop(ks, k + 1, init, ports_step(doc@));
                        }
                        return Err(e);
                    },
                }
            }
            k = k + 1;
        }
        proof {
            lemma_fold_end(ks, init, ports_step(doc@));
        }
        Ok(PortInfo { ports })
    }

    /// The ports, in document order.
    pub fn ports(&self) -> (r: &Vec<Port>)
        ensures
            r@ == self.ports@,
    {
        &self.ports
    }
}

/// Reading a PortProtocol's token gives that PortProtocol back, and a token that reads as
/// a PortProtocol is that PortProtocol's own token.
pub proof fn lemma_port_protocol_round_trip(v: PortProtocol, t: Seq<char>)
    ensures
        PortProtocol::spec_parse(v.spec_token()) == Some(v),
        PortProtocol::spec_parse(t) == Some(v) ==> v.spec_token() == t,
{
    reveal_strlit("ip");
    reveal_strlit("tcp");
    reveal_strlit("udp");
    reveal_strlit("sctp");
    assert("ip"@.len() != "tcp"@.len());
    assert("ip"@.len() != "udp"@.len());
    assert("ip"@.len() != "sctp"@.len());
    assert("tcp"@[0] != "udp"@[0]);
    assert("tcp"@.len() != "sctp"@.len());
    assert("udp"@.len() != "sctp"@.len());
}

/// Reading a PortState's token gives that PortState back, and a token that reads as
/// a PortState is that PortState's own token.
pub proof fn lemma_port_state_round_trip(v: PortState, t: Seq<char>)
    ensures
        PortState::spec_parse(v.spec_token()) == Some(v),
        PortState::spec_parse(t) == Some(v) ==> v.spec_token() == t,
{
    reveal_strlit("open");
    reveal_strlit("closed");
    reveal_strlit("filtered");
    reveal_strlit("unfiltered");
    reveal_strlit("open|filtered");
    reveal_strlit("close|filtered");
    assert("open"@.len() != "closed"@.len());
    assert("open"@.len() != "filtered"@.len());
    assert("open"@.len() != "unfiltered"@.len());
    assert("open"@.len() != "open|filtered"@.len());
    assert("open"@.len() != "close|filtered"@.len());
    assert("closed"@.len() != "filtered"@.len());
    assert("closed"@.len() != "unfiltered"@.len());
    assert("closed"@.len() != "open|filtered"@.len());
    assert("closed"@.len() != "close|filtered"@.len());
    assert("filtered"@.len() != "unfiltered"@.len());
    assert("filtered"@.len() != "open|filtered"@.len());
    assert("filtered"@.len() != "close|filtered"@.len());
    assert("unfiltered"@.len() != "open|filtered"@.len());
    assert("unfiltered"@.len() != "close|filtered"@.len());
    assert("open|filtered"@.len() != "close|filtered"@.len());
}

/// Reading a ServiceMethod's token gives that ServiceMethod back, and a token that reads as
/// a ServiceMethod is that ServiceMethod's own token.
pub proof fn lemma_service_method_round_trip(v: ServiceMethod, t: Seq<char>)
    ensures
        ServiceMethod::spec_parse(v.spec_token()) == Some(v),
        ServiceMethod::spec_parse(t) == Some(v) ==> v.spec_token() == t,
{
    reveal_strlit("table");
    reveal_strlit("probed");
    assert("table"@.len() != "probed"@.len());
}

} // verus!
