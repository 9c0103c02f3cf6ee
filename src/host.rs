//! Hosts and everything reported about them: addresses, status, names,
//! script results, ports, OS guesses and sequence measurements.
use vstd::prelude::*;
use crate::{result_view, Error, ErrorView};
use crate::net::{ip_of, mac_of, parse_ip, parse_mac, IpAddr, IpModel};
use crate::number::{parse_unsigned, split, split_on, unsigned_of};
use crate::util::{
    fold_children, lemma_fold_end, lemma_fold_next, lemma_fold_start, lemma_fold_stop,
    malformed, malformed_error, optional_i64, optional_i64_attr, required, required_attr,
    required_unsigned, required_unsigned_attr,
};
use crate::port::{opt_view, port_info_of, port_used_of, PortInfo, PortView};
use crate::xml::{attr, has_tag, str_eq, NodeView, XmlDocument, XmlNode};

pub use crate::port::PortUsed;

verus! {

/// Whether a host answered the scan.
#[derive(Clone, Copy, Debug, PartialEq, Eq, Structural)]
pub enum HostState {
    Up,
    Down,
    Unknown,
    Skipped,
}

impl HostState {
    pub open spec fn spec_token(self) -> Seq<char> {
        match self {
            HostState::Up => "up"@,
            HostState::Down => "down"@,
            HostState::Unknown => "unknown"@,
            HostState::Skipped => "skipped"@,
        }
    }

    pub open spec fn spec_parse(s: Seq<char>) -> Option<HostState> {
        if s == "up"@ {
            Some(HostState::Up)
        } else if s == "down"@ {
            Some(HostState::Down)
        } else if s == "unknown"@ {
            Some(HostState::Unknown)
        } else if s == "skipped"@ {
            Some(HostState::Skipped)
        } else {
            None
        }
    }

    /// Reads a host-state token; any other text is refused.
    pub fn parse(s: &str) -> (r: Option<HostState>)
        ensures
            r == HostState::spec_parse(s@),
    {
        if str_eq(s, "up") {
            Some(HostState::Up)
        } else if str_eq(s, "down") {
            Some(HostState::Down)
        } else if str_eq(s, "unknown") {
            Some(HostState::Unknown)
        } else if str_eq(s, "skipped") {
            Some(HostState::Skipped)
        } else {
            None
        }
    }

    /// The state's token.
    pub fn as_str(&self) -> (r: &'static str)
        ensures
            r@ == self.spec_token(),
    {
        match self {
            HostState::Up => "up",
            HostState::Down => "down",
            HostState::Unknown => "unknown",
            HostState::Skipped => "skipped",
        }
    }
}

/// Where a host name came from: given by the user, or found by a reverse
/// (PTR) lookup.
#[derive(Clone, Copy, Debug, PartialEq, Eq, Structural)]
pub enum HostnameType {
    User,
    Dns,
}

impl HostnameType {
    /// The token that stands for the source in a report.
    pub open spec fn spec_token(self) -> Seq<char> {
        match self {
            HostnameType::User => "user"@,
            HostnameType::Dns => "PTR"@,
        }
    }

    /// The name under which the source is shown.
    pub open spec fn spec_display(self) -> Seq<char> {
        match self {
            HostnameType::User => "User"@,
            HostnameType::Dns => "Dns"@,
        }
    }

    pub open spec fn spec_parse(s: Seq<char>) -> Option<HostnameType> {
        if s == "user"@ {
            Some(HostnameType::User)
        } else if s == "PTR"@ {
            Some(HostnameType::Dns)
        } else {
            None
        }
    }

    /// Reads a source token (`user` or `PTR`); any other text is refused.
    pub fn parse(s: &str) -> (r: Option<HostnameType>)
        ensures
            r == HostnameType::spec_parse(s@),
    {
        if str_eq(s, "user") {
            Some(HostnameType::User)
        } else if str_eq(s, "PTR") {
            Some(HostnameType::Dns)
        } else {
            None
        }
    }

    /// The source's report token.
    pub fn token(&self) -> (r: &'static str)
        ensures
            r@ == self.spec_token(),
    {
        match self {
            HostnameType::User => "user",
            HostnameType::Dns => "PTR",
        }
    }

    /// The name under which the source is shown.
    pub fn as_str(&self) -> (r: &'static str)
        ensures
            r@ == self.spec_display(),
    {
        match self {
            HostnameType::User => "User",
            HostnameType::Dns => "Dns",
        }
    }
}

/// How hard the scanner judged TCP initial sequence numbers to predict.
#[derive(Clone, Copy, Debug, PartialEq, Eq, Structural)]
pub enum TcpDifficulty {
    Trivial,
    Easy,
    Medium,
    Formidable,
    Worthy,
    Good,
}

impl TcpDifficulty {
    pub open spec fn spec_token(self) -> Seq<char> {
        match self {
            TcpDifficulty::Trivial => "Trivial joke"@,
            TcpDifficulty::Easy => "Easy"@,
            TcpDifficulty::Medium => "Medium"@,
            TcpDifficulty::Formidable => "Formidable"@,
            TcpDifficulty::Worthy => "Worthy challenge"@,
            TcpDifficulty::Good => "Good luck!"@,
        }
    }

    pub open spec fn spec_parse(s: Seq<char>) -> Option<TcpDifficulty> {
        if s == "Trivial joke"@ {
            Some(TcpDifficulty::Trivial)
        } else if s == "Easy"@ {
            Some(TcpDifficulty::Easy)
        } else if s == "Medium"@ {
            Some(TcpDifficulty::Medium)
        } else if s == "Formidable"@ {
            Some(TcpDifficulty::Formidable)
        } else if s == "Worthy challenge"@ {
            Some(TcpDifficulty::Worthy)
        } else if s == "Good luck!"@ {
            Some(TcpDifficulty::Good)
        } else {
            None
        }
    }

    /// Reads a difficulty label; any other text is refused.
    pub fn parse(s: &str) -> (r: Option<TcpDifficulty>)
        ensures
            r == TcpDifficulty::spec_parse(s@),
    {
        if str_eq(s, "Trivial joke") {
            Some(TcpDifficulty::Trivial)
        } else if str_eq(s, "Easy") {
            Some(TcpDifficulty::Easy)
        } else if str_eq(s, "Medium") {
            Some(TcpDifficulty::Medium)
        } else if str_eq(s, "Formidable") {
            Some(TcpDifficulty::Formidable)
        } else if str_eq(s, "Worthy challenge") {
            Some(TcpDifficulty::Worthy)
        } else if str_eq(s, "Good luck!") {
            Some(TcpDifficulty::Good)
        } else {
            None
        }
    }

    /// The difficulty's label.
    pub fn as_str(&self) -> (r: &'static str)
        ensures
            r@ == self.spec_token(),
    {
        match self {
            TcpDifficulty::Trivial => "Trivial joke",
            TcpDifficulty::Easy => "Easy",
            TcpDifficulty::Medium => "Medium",
            TcpDifficulty::Formidable => "Formidable",
            TcpDifficulty::Worthy => "Worthy challenge",
            TcpDifficulty::Good => "Good luck!",
        }
    }
}

/// A network address of a host.
#[derive(Clone, Copy, Debug, PartialEq, Eq)]
pub enum Address {
    IpAddr(IpAddr),
    MacAddr([u8; 6]),
}

pub enum AddressView {
    Ip(IpModel),
    Mac(Seq<u8>),
}

impl View for Address {
    type V = AddressView;

    open spec fn view(&self) -> AddressView {
        match self {
            Address::IpAddr(a) => AddressView::Ip(a@),
            Address::MacAddr(m) => AddressView::Mac(m@),
        }
    }
}

/// Whether a host is up, and why the scanner thinks so.
#[derive(Clone, Debug, PartialEq)]
pub struct HostStatus {
    pub state: HostState,
    pub reason: String,
    pub reason_ttl: u8,
}

/// The model of a `HostStatus`.
pub struct HostStatusView {
    pub state: HostState,
    pub reason: Seq<char>,
    pub reason_ttl: u8,
}

impl View for HostStatus {
    type V = HostStatusView;

    open spec fn view(&self) -> HostStatusView {
        HostStatusView { state: self.state, reason: self.reason@, reason_ttl: self.reason_ttl }
    }
}

/// A name of a host and where it came from.
#[derive(Clone, Debug, PartialEq)]
pub struct Hostname {
    pub name: String,
    pub source: HostnameType,
}

/// The model of a `Hostname`.
pub struct HostnameView {
    pub name: Seq<char>,
    pub source: HostnameType,
}

impl View for Hostname {
    type V = HostnameView;

    open spec fn view(&self) -> HostnameView {
        HostnameView { name: self.name@, source: self.source }
    }
}

/// The output of a script run against a host, kept as text.
#[derive(Clone, Debug, PartialEq)]
pub struct Script {
    pub id: String,
    pub output: String,
}

/// The model of a `Script`.
pub struct ScriptView {
    pub id: Seq<char>,
    pub output: Seq<char>,
}

impl View for Script {
    type V = ScriptView;

    open spec fn view(&self) -> ScriptView {
        ScriptView { id: self.id@, output: self.output@ }
    }
}

/// Six samples of TCP initial sequence numbers and how predictable they are.
#[derive(Clone, Copy, Debug, PartialEq, Eq)]
pub struct TcpSequence {
    pub index: u32,
    pub difficulty: TcpDifficulty,
    pub values: [u32; 6],
}

/// The model of a `TcpSequence`.
pub struct TcpSequenceView {
    pub index: u32,
    pub difficulty: TcpDifficulty,
    pub values: Seq<u32>,
}

impl View for TcpSequence {
    type V = TcpSequenceView;

    open spec fn view(&self) -> TcpSequenceView {
        TcpSequenceView { index: self.index, difficulty: self.difficulty, values: self.values@ }
    }
}

/// Six samples of IP identifiers and their class.
#[derive(Clone, Debug, PartialEq, Eq)]
pub struct IpIdSequence {
    pub class: String,
    pub values: [u32; 6],
}

/// Six samples of TCP timestamps and their class.
#[derive(Clone, Debug, PartialEq, Eq)]
pub struct TcpTsSequence {
    pub class: String,
    pub values: [u32; 6],
}

/// The model of an IP-identifier or TCP-timestamp sequence.
pub struct ClassedValuesView {
    pub class: Seq<char>,
    pub values: Seq<u32>,
}

impl View for IpIdSequence {
    type V = ClassedValuesView;

    open spec fn view(&self) -> ClassedValuesView {
        ClassedValuesView { class: self.class@, values: self.values@ }
    }
}

impl View for TcpTsSequence {
    type V = ClassedValuesView;

    open spec fn view(&self) -> ClassedValuesView {
        ClassedValuesView { class: self.class@, values: self.values@ }
    }
}

/// How long a host has been up, and when it last booted.
#[derive(Clone, Debug, PartialEq, Eq)]
pub struct Uptime {
    pub seconds: u64,
    pub lastboot: String,
}

/// The model of an `Uptime`.
pub struct UptimeView {
    pub seconds: u64,
    pub lastboot: Seq<char>,
}

impl View for Uptime {
    type V = UptimeView;

    open spec fn view(&self) -> UptimeView {
        UptimeView { seconds: self.seconds, lastboot: self.lastboot@ }
    }
}

/// What an `address` element decodes to: a MAC address where `addrtype` is
/// `mac`, else an IP address.
pub open spec fn address_of(n: NodeView) -> Result<AddressView, ErrorView> {
    match required(n, "addrtype"@, "address"@) {
        Err(e) => Err(e),
        Ok(kind) => match required(n, "addr"@, "address"@) {
            Err(e) => Err(e),
            Ok(a) => if kind == "mac"@ {
                match mac_of(a) {
                    Some(m) => Ok(AddressView::Mac(m)),
                    None => Err(ErrorView::Invalid("failed to parse MAC address"@)),
                }
            } else {
                match ip_of(a) {
                    Some(ip) => Ok(AddressView::Ip(ip)),
                    None => Err(ErrorView::Invalid("failed to parse IP address"@)),
                }
            },
        },
    }
}

/// What a `status` element decodes to.
pub open spec fn host_status_of(n: NodeView) -> Result<HostStatusView, ErrorView> {
    match required(n, "state"@, "status"@) {
        Err(e) => Err(e),
        Ok(s) => match HostState::spec_parse(s) {
            None => Err(malformed("state"@)),
            Some(state) => match required(n, "reason"@, "status"@) {
                Err(e) => Err(e),
                Ok(reason) => match required_unsigned(n, "reason_ttl"@, "status"@, 255) {
                    Err(e) => Err(e),
                    Ok(ttl) => Ok(HostStatusView { state, reason, reason_ttl: ttl as u8 }),
                },
            },
        },
    }
}

/// What a `hostname` element decodes to.
pub open spec fn hostname_of(n: NodeView) -> Result<HostnameView, ErrorView> {
    match required(n, "name"@, "hostname"@) {
        Err(e) => Err(e),
        Ok(name) => match required(n, "type"@, "hostname"@) {
            Err(e) => Err(e),
            Ok(t) => match HostnameType::spec_parse(t) {
                None => Err(malformed("type"@)),
                Some(source) => Ok(HostnameView { name, source }),
            },
        },
    }
}

/// What a `script` element decodes to.
pub open spec fn script_of(n: NodeView) -> Result<ScriptView, ErrorView> {
    match required(n, "id"@, "script"@) {
        Err(e) => Err(e),
        Ok(id) => match required(n, "output"@, "script"@) {
            Err(e) => Err(e),
            Ok(output) => Ok(ScriptView { id, output }),
        },
    }
}

/// The six numbers of a `values` attribute, comma-separated, each written in
/// base `radix`.
pub open spec fn six_values_of(s: Seq<char>, radix: nat) -> Result<Seq<u32>, ErrorView> {
    let parts = split_on(s, ',');
    if parts.len() != 6 {
        Err(ErrorView::Invalid("expected six comma-separated numbers in `values`"@))
    } else if forall|k: int| 0 <= k < 6 ==> (#[trigger] unsigned_of(parts[k], radix, 0xffff_ffff)) is Some {
        Ok(Seq::new(6, |k: int| unsigned_of(parts[k], radix, 0xffff_ffff)->Some_0 as u32))
    } else {
        Err(malformed("values"@))
    }
}

/// The required `values` attribute of element `node`, read as six numbers.
pub open spec fn values_attr(n: NodeView, node: Seq<char>, radix: nat) -> Result<Seq<u32>, ErrorView> {
    match required(n, "values"@, node) {
        Err(e) => Err(e),
        Ok(v) => six_values_of(v, radix),
    }
}

/// What a `tcpsequence` element decodes to; its values are hexadecimal.
pub open spec fn tcp_sequence_of(n: NodeView) -> Result<TcpSequenceView, ErrorView> {
    match required_unsigned(n, "index"@, "tcpsequence"@, 0xffff_ffff) {
        Err(e) => Err(e),
        Ok(index) => match required(n, "difficulty"@, "tcpsequence"@) {
            Err(e) => Err(e),
            Ok(d) => match TcpDifficulty::spec_parse(d) {
                None => Err(malformed("difficulty"@)),
                Some(difficulty) => match values_attr(n, "tcpsequence"@, 16) {
                    Err(e) => Err(e),
                    Ok(values) => Ok(TcpSequenceView { index: index as u32, difficulty, values }),
                },
            },
        },
    }
}

/// What an `ipidsequence` or `tcptssequence` element decodes to; its values
/// are decimal.
pub open spec fn classed_values_of(n: NodeView, node: Seq<char>) -> Result<ClassedValuesView, ErrorView> {
    match required(n, "class"@, node) {
        Err(e) => Err(e),
        Ok(class) => match values_attr(n, node, 10) {
            Err(e) => Err(e),
            Ok(values) => Ok(ClassedValuesView { class, values }),
        },
    }
}

/// What an `uptime` element decodes to.
pub open spec fn uptime_of(n: NodeView) -> Result<UptimeView, ErrorView> {
    match required_unsigned(n, "seconds"@, "uptime"@, 0xffff_ffff_ffff_ffff) {
        Err(e) => Err(e),
        Ok(seconds) => match required(n, "lastboot"@, "uptime"@) {
            Err(e) => Err(e),
            Ok(lastboot) => Ok(UptimeView { seconds: seconds as u64, lastboot }),
        },
    }
}

/// Decodes an `address` element.
pub fn parse_address(n: &XmlNode) -> (r: Result<Address, Error>)
    ensures
        result_view(r) == address_of(n@),
{
    let kind = match required_attr(n, "addrtype", "address") {
        Ok(v) => v,
        Err(e) => return Err(e),
    };
    let a = match required_attr(n, "addr", "address") {
        Ok(v) => v,
        Err(e) => return Err(e),
    };
    if str_eq(kind.as_str(), "mac") {
        match parse_mac(a.as_str()) {
            Some(m) => Ok(Address::MacAddr(m)),
            None => Err(Error::invalid("failed to parse MAC address")),
        }
    } else {
        match parse_ip(a.as_str()) {
            Some(ip) => Ok(Address::IpAddr(ip)),
            None => Err(Error::invalid("failed to parse IP address")),
        }
    }
}

impl HostStatus {
    /// Decodes a `status` element.
    pub fn parse(n: &XmlNode) -> (r: Result<HostStatus, Error>)
        ensures
            result_view(r) == host_status_of(n@),
    {
        let s = match required_attr(n, "state", "status") {
            Ok(v) => v,
            Err(e) => return Err(e),
        };
        let state = match HostState::parse(s.as_str()) {
            Some(x) => x,
            None => return Err(malformed_error("state")),
        };
        let reason = match required_attr(n, "reason", "status") {
            Ok(v) => v.clone(),
            Err(e) => return Err(e),
        };
        let ttl = match required_unsigned_attr(n, "reason_ttl", "status", 255) {
            Ok(v) => v as u8,
            Err(e) => return Err(e),
        };
        Ok(HostStatus { state, reason, reason_ttl: ttl })
    }
}

impl Hostname {
    /// Decodes a `hostname` element.
    pub fn parse(n: &XmlNode) -> (r: Result<Hostname, Error>)
        ensures
            result_view(r) == hostname_of(n@),
    {
        let name = match required_attr(n, "name", "hostname") {
            Ok(v) => v.clone(),
            Err(e) => return Err(e),
        };
        let t = match required_attr(n, "type", "hostname") {
            Ok(v) => v,
            Err(e) => return Err(e),
        };
        match HostnameType::parse(t.as_str()) {
            Some(source) => Ok(Hostname { name, source }),
            None => Err(malformed_error("type")),
        }
    }
}

impl Script {
    /// Decodes a `script` element.
    pub fn parse(n: &XmlNode) -> (r: Result<Script, Error>)
        ensures
            result_view(r) == script_of(n@),
    {
        let id = match required_attr(n, "id", "script") {
            Ok(v) => v.clone(),
            Err(e) => return Err(e),
        };
        let output = match required_attr(n, "output", "script") {
            Ok(v) => v.clone(),
            Err(e) => return Err(e),
        };
        Ok(Script { id, output })
    }
}

/// Reads the six comma-separated numbers of a `values` attribute.
pub fn parse_six_values(s: &str, radix: u32) -> (r: Result<[u32; 6], Error>)
    requires
        2 <= radix <= 36,
    ensures
        match r {
            Ok(v) => six_values_of(s@, radix as nat) == Ok::<Seq<u32>, ErrorView>(v@),
            Err(e) => six_values_of(s@, radix as nat) == Err::<Seq<u32>, ErrorView>(e@),
        },
{
    let parts = split(s, ',');
    let ghost ps = split_on(s@, ',');
    assert(parts@.len() == ps.len());
    if parts.len() != 6 {
        return Err(Error::invalid("expected six comma-separated numbers in `values`"));
    }
    let mut out: Vec<u32> = Vec::new();
    let mut k: usize = 0;
    while k < 6
        invariant
            parts@.map_values(|t: String| t@) == ps,
            ps.len() == 6,
            k <= 6,
            2 <= radix <= 36,
            ps == split_on(s@, ','),
            out@.len() == k,
            forall|j: int| 0 <= j < k ==> (#[trigger] unsigned_of(ps[j], radix as nat, 0xffff_ffff)) is Some,
            forall|j: int| 0 <= j < k ==> out@[j] == unsigned_of(ps[j], radix as nat, 0xffff_ffff)->Some_0 as u32,
        decreases 6 - k,
    {
        assert(parts@[k as int]@ == ps[k as int]);
        match parse_unsigned(parts[k].as_str(), radix, 0xffff_ffff) {
            Some(v) => {
                out.push(v as u32);
            },
            None => {
                assert(unsigned_of(ps[k as int], radix as nat, 0xffff_ffff) is None);
                return Err(malformed_error("values"));
            },
        }
        k = k + 1;
    }
    let a = [out[0], out[1], out[2], out[3], out[4], out[5]];
    assert(a@ =~= Seq::new(6, |j: int| unsigned_of(ps[j], radix as nat, 0xffff_ffff)->Some_0 as u32));
    Ok(a)
}

fn values_attr_exec(n: &XmlNode, node: &str, radix: u32) -> (r: Result<[u32; 6], Error>)
    requires
        2 <= radix <= 36,
    ensures
        match r {
            Ok(v) => values_attr(n@, node@, radix as nat) == Ok::<Seq<u32>, ErrorView>(v@),
            Err(e) => values_attr(n@, node@, radix as nat) == Err::<Seq<u32>, ErrorView>(e@),
        },
{
    match required_attr(n, "values", node) {
        Ok(v) => parse_six_values(v.as_str(), radix),
        Err(e) => Err(e),
    }
}

impl TcpSequence {
    /// Decodes a `tcpsequence` element.
    pub fn parse(n: &XmlNode) -> (r: Result<TcpSequence, Error>)
        ensures
            result_view(r) == tcp_sequence_of(n@),
    {
        let index = match required_unsigned_attr(n, "index", "tcpsequence", 0xffff_ffff) {
            Ok(v) => v as u32,
            Err(e) => return Err(e),
        };
        let d = match required_attr(n, "difficulty", "tcpsequence") {
            Ok(v) => v,
            Err(e) => return Err(e),
        };
        let difficulty = match TcpDifficulty::parse(d.as_str()) {
            Some(x) => x,
            None => return Err(malformed_error("difficulty")),
        };
        let values = match values_attr_exec(n, "tcpsequence", 16) {
            Ok(v) => v,
            Err(e) => return Err(e),
        };
        Ok(TcpSequence { index, difficulty, values })
    }
}

fn classed_values_exec(n: &XmlNode, node: &str) -> (r: Result<(String, [u32; 6]), Error>)
    ensures
        match r {
            Ok(v) => classed_values_of(n@, node@) == Ok::<ClassedValuesView, ErrorView>(
                ClassedValuesView { class: v.0@, values: v.1@ },
            ),
            Err(e) => classed_values_of(n@, node@) == Err::<ClassedValuesView, ErrorView>(e@),
        },
{
    let class = match required_attr(n, "class", node) {
        Ok(v) => v.clone(),
        Err(e) => return Err(e),
    };
    match values_attr_exec(n, node, 10) {
        Ok(values) => Ok((class, values)),
        Err(e) => Err(e),
    }
}

impl IpIdSequence {
    /// Decodes an `ipidsequence` element.
    pub fn parse(n: &XmlNode) -> (r: Result<IpIdSequence, Error>)
        ensures
            result_view(r) == classed_values_of(n@, "ipidsequence"@),
    {
        match classed_values_exec(n, "ipidsequence") {
            Ok((class, values)) => Ok(IpIdSequence { class, values }),
            Err(e) => Err(e),
        }
    }
}

impl TcpTsSequence {
    /// Decodes a `tcptssequence` element.
    pub fn parse(n: &XmlNode) -> (r: Result<TcpTsSequence, Error>)
        ensures
            result_view(r) == classed_values_of(n@, "tcptssequence"@),
    {
        match classed_values_exec(n, "tcptssequence") {
            Ok((class, values)) => Ok(TcpTsSequence { class, values }),
            Err(e) => Err(e),
        }
    }
}

impl Uptime {
    /// Decodes an `uptime` element.
    pub fn parse(n: &XmlNode) -> (r: Result<Uptime, Error>)
        ensures
            result_view(r) == uptime_of(n@),
    {
        let seconds = match required_unsigned_attr(n, "seconds", "uptime", 0xffff_ffff_ffff_ffff) {
            Ok(v) => v,
            Err(e) => return Err(e),
        };
        let lastboot = match required_attr(n, "lastboot", "uptime") {
            Ok(v) => v.clone(),
            Err(e) => return Err(e),
        };
        Ok(Uptime { seconds, lastboot })
    }
}

/// One OS class of a guess: who makes it, which family and generation, what
/// kind of device, how sure the scanner is, and its CPE names.
#[derive(Clone, Debug, PartialEq)]
pub struct OsClass {
    pub cpe: Vec<String>,
    pub vendor: String,
    pub os_gen: Option<String>,
    pub os_type: Option<String>,
    pub accuracy: u8,
    pub os_family: String,
}

/// The model of an `OsClass`.
pub struct OsClassView {
    pub cpe: Seq<Seq<char>>,
    pub vendor: Seq<char>,
    pub os_gen: Option<Seq<char>>,
    pub os_type: Option<Seq<char>>,
    pub accuracy: u8,
    pub os_family: Seq<char>,
}

pub open spec fn strings_view(s: Seq<String>) -> Seq<Seq<char>> {
    s.map_values(|t: String| t@)
}

impl View for OsClass {
    type V = OsClassView;

    open spec fn view(&self) -> OsClassView {
        OsClassView {
            cpe: strings_view(self.cpe@),
            vendor: self.vendor@,
            os_gen: opt_view(self.os_gen),
            os_type: opt_view(self.os_type),
            accuracy: self.accuracy,
            os_family: self.os_family@,
        }
    }
}

/// One OS guess with its classes.
#[derive(Clone, Debug, PartialEq)]
pub struct OsMatch {
    pub osclass: Vec<OsClass>,
    pub name: String,
    pub accuracy: u8,
    pub line: u32,
}

/// The model of an `OsMatch`.
pub struct OsMatchView {
    pub osclass: Seq<OsClassView>,
    pub name: Seq<char>,
    pub accuracy: u8,
    pub line: u32,
}

pub open spec fn classes_view(s: Seq<OsClass>) -> Seq<OsClassView> {
    s.map_values(|c: OsClass| c@)
}

impl View for OsMatch {
    type V = OsMatchView;

    open spec fn view(&self) -> OsMatchView {
        OsMatchView { osclass: classes_view(self.osclass@), name: self.name@, accuracy: self.accuracy, line: self.line }
    }
}

/// A raw OS fingerprint, kept as text.
#[derive(Clone, Debug, PartialEq)]
pub struct OsFingerprint {
    pub fingerprint: String,
}

impl View for OsFingerprint {
    type V = Seq<char>;

    open spec fn view(&self) -> Seq<char> {
        self.fingerprint@
    }
}

/// What OS detection found: the ports it used, its guesses and fingerprints.
#[derive(Clone, Debug, PartialEq)]
pub struct Os {
    pub portused: Vec<PortUsed>,
    pub osmatch: Vec<OsMatch>,
    pub osfingerprint: Vec<OsFingerprint>,
}

/// The model of an `Os`.
pub struct OsView {
    pub portused: Seq<PortUsed>,
    pub osmatch: Seq<OsMatchView>,
    pub osfingerprint: Seq<Seq<char>>,
}

pub open spec fn matches_view(s: Seq<OsMatch>) -> Seq<OsMatchView> {
    s.map_values(|m: OsMatch| m@)
}

pub open spec fn fingerprints_view(s: Seq<OsFingerprint>) -> Seq<Seq<char>> {
    s.map_values(|f: OsFingerprint| f@)
}

impl View for Os {
    type V = OsView;

    open spec fn view(&self) -> OsView {
        OsView {
            portused: self.portused@,
            osmatch: matches_view(self.osmatch@),
            osfingerprint: fingerprints_view(self.osfingerprint@),
        }
    }
}

/// The text of a `cpe` element; empty where it has none.
pub open spec fn text_or_empty(n: NodeView) -> Seq<char> {
    match n.text {
        Some(t) => t,
        None => Seq::empty(),
    }
}

/// The texts of the `cpe` elements below node `i`, among the children
/// `kids` and everything under them, in document order. A child is followed
/// only where it comes after its parent, as every child of a parsed document
/// does.
pub open spec fn cpes_in(doc: Seq<NodeView>, i: int, kids: Seq<usize>) -> Seq<Seq<char>>
    decreases doc.len() - i, kids.len(),
{
    if kids.len() == 0 {
        Seq::empty()
    } else {
        let c = kids.last() as int;
        let front = cpes_in(doc, i, kids.drop_last());
        if i < c < doc.len() {
            let own = if doc[c].tag == "cpe"@ {
                seq![text_or_empty(doc[c])]
            } else {
                Seq::empty()
            };
            front + own + cpes_in(doc, c, doc[c].children)
        } else {
            front
        }
    }
}

/// The texts of every `cpe` element anywhere under node `i`, in document order.
pub open spec fn cpes_below(doc: Seq<NodeView>, i: int) -> Seq<Seq<char>> {
    cpes_in(doc, i, doc[i].children)
}

/// What an `osclass` element decodes to.
pub open spec fn os_class_of(doc: Seq<NodeView>, i: int) -> Result<OsClassView, ErrorView> {
    let n = doc[i];
    match required(n, "vendor"@, "osclass"@) {
        Err(e) => Err(e),
        Ok(vendor) => match required_unsigned(n, "accuracy"@, "osclass"@, 255) {
            Err(e) => Err(e),
            Ok(accuracy) => match required(n, "osfamily"@, "osclass"@) {
                Err(e) => Err(e),
                Ok(os_family) => Ok(
                    OsClassView {
                        cpe: cpes_below(doc, i),
                        vendor,
                        os_gen: attr(n, "osgen"@),
                        os_type: attr(n, "type"@),
                        accuracy: accuracy as u8,
                        os_family,
                    },
                ),
            },
        },
    }
}

/// One step over an OS guess's children: each `osclass` child is decoded and kept.
pub open spec fn class_step(doc: Seq<NodeView>) -> spec_fn(Seq<OsClassView>, int) -> Result<Seq<OsClassView>, ErrorView> {
    |acc: Seq<OsClassView>, c: int|
        if has_tag(doc, c, "osclass"@) {
            match os_class_of(doc, c) {
                Ok(x) => Ok(acc.push(x)),
                Err(e) => Err(e),
            }
        } else {
            Ok(acc)
        }
}

/// What an `osmatch` element decodes to.
pub open spec fn os_match_of(doc: Seq<NodeView>, i: int) -> Result<OsMatchView, ErrorView> {
    let n = doc[i];
    match required(n, "name"@, "osmatch"@) {
        Err(e) => Err(e),
        Ok(name) => match required_unsigned(n, "accuracy"@, "osmatch"@, 255) {
            Err(e) => Err(e),
            Ok(accuracy) => match required_unsigned(n, "line"@, "osmatch"@, 0xffff_ffff) {
                Err(e) => Err(e),
                Ok(line) => match fold_children(n.children, Seq::empty(), class_step(doc)) {
                    Err(e) => Err(e),
                    Ok(osclass) => Ok(OsMatchView { osclass, name, accuracy: accuracy as u8, line: line as u32 }),
                },
            },
        },
    }
}

/// What an `osfingerprint` element decodes to.
pub open spec fn os_fingerprint_of(n: NodeView) -> Result<Seq<char>, ErrorView> {
    required(n, "fingerprint"@, "osfingerprint"@)
}

pub type OsParts = (Seq<PortUsed>, Seq<OsMatchView>, Seq<Seq<char>>);

/// One step over the children of `os`: ports used and guesses are each
/// decoded and kept; a fingerprint is kept where it carries its text and
/// passed over where it does not; other children are passed over.
pub open spec fn os_step(doc: Seq<NodeView>) -> spec_fn(OsParts, int) -> Result<OsParts, ErrorView> {
    |s: OsParts, c: int|
        if has_tag(doc, c, "portused"@) {
            match port_used_of(doc[c]) {
                Ok(x) => Ok((s.0.push(x), s.1, s.2)),
                Err(e) => Err(e),
            }
        } else if has_tag(doc, c, "osmatch"@) {
            match os_match_of(doc, c) {
                Ok(x) => Ok((s.0, s.1.push(x), s.2)),
                Err(e) => Err(e),
            }
        } else if has_tag(doc, c, "osfingerprint"@) {
            match attr(doc[c], "fingerprint"@) {
                Some(x) => Ok((s.0, s.1, s.2.push(x))),
                None => Ok(s),
            }
        } else {
            Ok(s)
        }
}

/// What an `os` element decodes to: all of it, or the first error.
pub open spec fn os_of(doc: Seq<NodeView>, i: int) -> Result<OsView, ErrorView> {
    match fold_children(doc[i].children, (Seq::empty(), Seq::empty(), Seq::empty()), os_step(doc)) {
        Err(e) => Err(e),
        Ok(parts) => Ok(OsView { portused: parts.0, osmatch: parts.1, osfingerprint: parts.2 }),
    }
}

fn optional_attr(n: &XmlNode, name: &str) -> (r: Option<String>)
    ensures
        opt_view(r) == attr(n@, name@),
{
    match n.attribute(name) {
        Some(v) => Some(v.clone()),
        None => None,
    }
}

/// Appends the texts of the `cpe` elements anywhere under node `i`, in
/// document order.
fn collect_cpes(doc: &XmlDocument, i: usize, out: &mut Vec<String>)
    requires
        i < doc@.len(),
    ensures
        strings_view(final(out)@) == strings_view(old(out)@) + cpes_below(doc@, i as int),
    decreases doc@.len() - i,
{
    let kids = &doc.nodes[i].children;
    let ghost ks = doc@[i as int].children;
    let ghost start = strings_view(out@);
    assert(ks.subrange(0, 0) =~= Seq::<usize>::empty());
    assert(start =~= start + cpes_in(doc@, i as int, ks.subrange(0, 0)));
    let mut k: usize = 0;
    while k < kids.len()
        invariant
            ks == kids@,
            ks == doc@[i as int].children,
            i < doc@.len(),
            k <= ks.len(),
            strings_view(out@) == start + cpes_in(doc@, i as int, ks.subrange(0, k as int)),
        decreases kids.len() - k,
    {
        let c = kids[k];
        let ghost front = cpes_in(doc@, i as int, ks.subrange(0, k as int));
        assert(ks.subrange(0, k + 1).drop_last() =~= ks.subrange(0, k as int));
        if i < c && c < doc.nodes.len() {
            let ghost own = if doc@[c as int].tag == "cpe"@ {
                seq![text_or_empty(doc@[c as int])]
            } else {
                Seq::<Seq<char>>::empty()
            };
            if doc.nodes[c].has_tag("cpe") {
                let t = match &doc.nodes[c].text {
                    Some(t) => t.clone(),
                    None => String::new(),
                };
                let ghost before = strings_view(out@);
                out.push(t);
                assert(strings_view(out@) =~= before + own);
            } else {
                assert(strings_view(out@) =~= strings_view(out@) + own);
            }
            collect_cpes(doc, c, out);
            assert(strings_view(out@) =~= start + (front + own + cpes_below(doc@, c as int)));
        }
        k = k + 1;
    }
    assert(ks.subrange(0, ks.len() as int) =~= ks);
}

impl OsClass {
    /// Decodes an `osclass` element with the CPE names of all the `cpe`
    /// elements under it, in document order.
    pub fn from_node(doc: &XmlDocument, i: usize) -> (r: Result<OsClass, Error>)
        requires
            i < doc@.len(),
        ensures
            result_view(r) == os_class_of(doc@, i as int),
    {
        let n = &doc.nodes[i];
        let vendor = match required_attr(n, "vendor", "osclass") {
            Ok(v) => v.clone(),
            Err(e) => return Err(e),
        };
        let accuracy = match required_unsigned_attr(n, "accuracy", "osclass", 255) {
            Ok(v) => v,
            Err(e) => return Err(e),
        };
        let os_family = match required_attr(n, "osfamily", "osclass") {
            Ok(v) => v.clone(),
            Err(e) => return Err(e),
        };
        let os_gen = optional_attr(n, "osgen");
        let os_type = optional_attr(n, "type");
        let mut cpe: Vec<String> = Vec::new();
        collect_cpes(doc, i, &mut cpe);
        assert(strings_view(cpe@) =~= cpes_below(doc@, i as int));
        Ok(OsClass { cpe, vendor, os_gen, os_type, accuracy: accuracy as u8, os_family })
    }
}

impl OsMatch {
    /// Decodes an `osmatch` element with its `osclass` children.
    pub fn parse(doc: &XmlDocument, i: usize) -> (r: Result<OsMatch, Error>)
        requires
            i < doc@.len(),
        ensures
            result_view(r) == os_match_of(doc@, i as int),
    {
        let n = &doc.nodes[i];
        let name = match required_attr(n, "name", "osmatch") {
            Ok(v) => v.clone(),
            Err(e) => return Err(e),
        };
        let accuracy = match required_unsigned_attr(n, "accuracy", "osmatch", 255) {
            Ok(v) => v,
            Err(e) => return Err(e),
        };
        let line = match required_unsigned_attr(n, "line", "osmatch", 0xffff_ffff) {
            Ok(v) => v,
            Err(e) => return Err(e),
        };
        let kids = &n.children;
        let ghost ks = doc@[i as int].children;
        let ghost init = Seq::<OsClassView>::empty();
        let mut osclass: Vec<OsClass> = Vec::new();
        proof {
            assert(classes_view(osclass@) =~= init);
            lemma_fold_start(ks, init, class_step(doc@));
        }
        let mut k: usize = 0;
        while k < kids.len()
            invariant
                ks == kids@,
                ks == doc@[i as int].children,
                i < doc@.len(),
                init == Seq::<OsClassView>::empty(),
                required(doc@[i as int], "name"@, "osmatch"@) == Ok::<Seq<char>, ErrorView>(name@),
                required_unsigned(doc@[i as int], "accuracy"@, "osmatch"@, 255) == Ok::<nat, ErrorView>(accuracy as nat),
                required_unsigned(doc@[i as int], "line"@, "osmatch"@, 0xffff_ffff) == Ok::<nat, ErrorView>(line as nat),
                k <= ks.len(),
                fold_children(ks.subrange(0, k as int), init, class_step(doc@))
                    == Ok::<Seq<OsClassView>, ErrorView>(classes_view(osclass@)),
            decreases kids.len() - k,
        {
            proof {
                lemma_fold_next(ks, k as int, init, class_step(doc@));
            }
            let c = kids[k];
            if doc.is_tag(c, "osclass") {
                match OsClass::from_node(doc, c) {
                    Ok(x) => {
                        let ghost before = classes_view(osclass@);
                        osclass.push(x);
                        assert(classes_view(osclass@) =~= before.push(x@));
                    },
                    Err(e) => {
                        proof {
                            lemma_fold_stop(ks, k + 1, init, class_step(doc@));
                        }
                        return Err(e);
                    },
                }
            }
            k = k + 1;
        }
        proof {
            lemma_fold_end(ks, init, class_step(doc@));
        }
        Ok(OsMatch { osclass, name, accuracy: accuracy as u8, line: line as u32 })
    }
}

impl OsFingerprint {
    /// Decodes an `osfingerprint` element.
    pub fn parse(n: &XmlNode) -> (r: Result<OsFingerprint, Error>)
        ensures
            result_view(r) == os_fingerprint_of(n@),
    {
        match required_attr(n, "fingerprint", "osfingerprint") {
            Ok(v) => Ok(OsFingerprint { fingerprint: v.clone() }),
            Err(e) => Err(e),
        }
    }
}

impl Os {
    /// Decodes an `os` element: its ports used, guesses and fingerprints, in
    /// document order. An error in a port used or a guess fails the whole
    /// element; a fingerprint without its text is passed over.
    pub fn parse(doc: &XmlDocument, i: usize) -> (r: Result<Os, Error>)
        requires
            i < doc@.len(),
        ensures
            result_view(r) == os_of(doc@, i as int),
    {
        let kids = &doc.nodes[i].children;
        let ghost ks = doc@[i as int].children;
        let ghost init: OsParts = (Seq::empty(), Seq::empty(), Seq::empty());
        let mut portused: Vec<PortUsed> = Vec::new();
        let mut osmatch: Vec<OsMatch> = Vec::new();
        let mut osfingerprint: Vec<OsFingerprint> = Vec::new();
        proof {
            assert(matches_view(osmatch@) =~= Seq::<OsMatchView>::empty());
            assert(fingerprints_view(osfingerprint@) =~= Seq::<Seq<char>>::empty());
            assert(portused@ =~= Seq::<PortUsed>::empty());
            lemma_fold_start(ks, init, os_step(doc@));
        }
        let mut k: usize = 0;
        while k < kids.len()
            invariant
                ks == kids@,
                ks == doc@[i as int].children,
                init == (Seq::<PortUsed>::empty(), Seq::<OsMatchView>::empty(), Seq::<Seq<char>>::empty()),
                k <= ks.len(),
                fold_children(ks.subrange(0, k as int), init, os_step(doc@)) == Ok::<OsParts, ErrorView>(
                    (portused@, matches_view(osmatch@), fingerprints_view(osfingerprint@)),
                ),
            decreases kids.len() - k,
        {
            proof {
                lemma_fold_next(ks, k as int, init, os_step(doc@));
            }
            let c = kids[k];
            if doc.is_tag(c, "portused") {
                match PortUsed::parse(doc, c) {
                    Ok(x) => {
                        portused.push(x);
                    },
                    Err(e) => {
                        proof {
                            lemma_fold_stop(ks, k + 1, init, os_step(doc@));
                        }
                        return Err(e);
                    },
                }
            } else if doc.is_tag(c, "osmatch") {
                match OsMatch::parse(doc, c) {
                    Ok(x) => {
                        let ghost before = matches_view(osmatch@);
                        osmatch.push(x);
                        assert(matches_view(osmatch@) =~= before.push(x@));
                    },
                    Err(e) => {
                        proof {
                            lemma_fold_stop(ks, k + 1, init, os_step(doc@));
                        }
                        return Err(e);
                    },
                }
            } else if doc.is_tag(c, "osfingerprint") {
                if let Some(f) = doc.nodes[c].attribute("fingerprint") {
                    let x = OsFingerprint { fingerprint: f.clone() };
                    let ghost before = fingerprints_view(osfingerprint@);
                    osfingerprint.push(x);
                    assert(fingerprints_view(osfingerprint@) =~= before.push(x@));
                }
            }
            k = k + 1;
        }
        proof {
            lemma_fold_end(ks, init, os_step(doc@));
        }
        Ok(Os { portused, osmatch, osfingerprint })
    }
}

/// One scanned host.
#[derive(Clone, Debug)]
pub struct Host {
    pub addresses: Vec<Address>,
    pub scripts: Vec<Script>,
    pub status: HostStatus,
    pub host_names: Vec<Hostname>,
    pub port_info: PortInfo,
    pub scan_start_time: Option<i64>,
    pub scan_end_time: Option<i64>,
    pub os: Option<Os>,
    pub tcpsequence: Option<TcpSequence>,
    pub ipidsequence: Option<IpIdSequence>,
    pub tcptssequence: Option<TcpTsSequence>,
    pub uptime: Option<Uptime>,
}

/// The model of a `Host`.
pub struct HostView {
    pub addresses: Seq<AddressView>,
    pub scripts: Seq<ScriptView>,
    pub status: HostStatusView,
    pub host_names: Seq<HostnameView>,
    pub port_info: Seq<PortView>,
    pub scan_start_time: Option<i64>,
    pub scan_end_time: Option<i64>,
    pub os: Option<OsView>,
    pub tcpsequence: Option<TcpSequenceView>,
    pub ipidsequence: Option<ClassedValuesView>,
    pub tcptssequence: Option<ClassedValuesView>,
    pub uptime: Option<UptimeView>,
}

pub open spec fn addresses_view(s: Seq<Address>) -> Seq<AddressView> {
    s.map_values(|a: Address| a@)
}

pub open spec fn scripts_view(s: Seq<Script>) -> Seq<ScriptView> {
    s.map_values(|a: Script| a@)
}

pub open spec fn hostnames_view(s: Seq<Hostname>) -> Seq<HostnameView> {
    s.map_values(|a: Hostname| a@)
}

impl View for Host {
    type V = HostView;

    open spec fn view(&self) -> HostView {
        HostView {
            addresses: addresses_view(self.addresses@),
            scripts: scripts_view(self.scripts@),
            status: self.status@,
            host_names: hostnames_view(self.host_names@),
            port_info: self.port_info@,
            scan_start_time: self.scan_start_time,
            scan_end_time: self.scan_end_time,
            os: opt_view(self.os),
            tcpsequence: opt_view(self.tcpsequence),
            ipidsequence: opt_view(self.ipidsequence),
            tcptssequence: opt_view(self.tcptssequence),
            uptime: opt_view(self.uptime),
        }
    }
}

/// One step over the children of `hostnames`: each `hostname` is decoded and kept.
pub open spec fn hostname_step(doc: Seq<NodeView>) -> spec_fn(Seq<HostnameView>, int) -> Result<Seq<HostnameView>, ErrorView> {
    |acc: Seq<HostnameView>, c: int|
        if has_tag(doc, c, "hostname"@) {
            match hostname_of(doc[c]) {
                Ok(x) => Ok(acc.push(x)),
                Err(e) => Err(e),
            }
        } else {
            Ok(acc)
        }
}

/// What a `hostnames` element decodes to.
pub open spec fn hostnames_of(doc: Seq<NodeView>, i: int) -> Result<Seq<HostnameView>, ErrorView> {
    fold_children(doc[i].children, Seq::empty(), hostname_step(doc))
}

/// One step over the children of `hostscript`: each `script` is decoded and kept.
pub open spec fn script_step(doc: Seq<NodeView>) -> spec_fn(Seq<ScriptView>, int) -> Result<Seq<ScriptView>, ErrorView> {
    |acc: Seq<ScriptView>, c: int|
        if has_tag(doc, c, "script"@) {
            match script_of(doc[c]) {
                Ok(x) => Ok(acc.push(x)),
                Err(e) => Err(e),
            }
        } else {
            Ok(acc)
        }
}

/// What a `hostscript` element decodes to.
pub open spec fn hostscript_of(doc: Seq<NodeView>, i: int) -> Result<Seq<ScriptView>, ErrorView> {
    fold_children(doc[i].children, Seq::empty(), script_step(doc))
}

/// What the walk over a host's children has gathered so far.
pub struct HostParts {
    pub addresses: Seq<AddressView>,
    pub status: Option<HostStatusView>,
    pub host_names: Seq<HostnameView>,
    pub scripts: Seq<ScriptView>,
    pub ports: Seq<PortView>,
    pub os: Option<OsView>,
    pub tcpsequence: Option<TcpSequenceView>,
    pub ipidsequence: Option<ClassedValuesView>,
    pub tcptssequence: Option<ClassedValuesView>,
    pub uptime: Option<UptimeView>,
}

pub open spec fn no_host_parts() -> HostParts {
    HostParts {
        addresses: Seq::empty(),
        status: None,
        host_names: Seq::empty(),
        scripts: Seq::empty(),
        ports: Seq::empty(),
        os: None,
        tcpsequence: None,
        ipidsequence: None,
        tcptssequence: None,
        uptime: None,
    }
}

/// One step over a host's children, by tag: an `address` is added; a
/// `status`, `hostnames`, `hostscript`, `ports`, `os` or sequence element
/// replaces what an earlier one of its tag gave; other tags are passed over.
pub open spec fn host_step(doc: Seq<NodeView>) -> spec_fn(HostParts, int) -> Result<HostParts, ErrorView> {
    |s: HostParts, c: int|
        if has_tag(doc, c, "address"@) {
            match address_of(doc[c]) {
                Ok(x) => Ok(HostParts { addresses: s.addresses.push(x), ..s }),
                Err(e) => Err(e),
            }
        } else if has_tag(doc, c, "status"@) {
            match host_status_of(doc[c]) {
                Ok(x) => Ok(HostParts { status: Some(x), ..s }),
                Err(e) => Err(e),
            }
        } else if has_tag(doc, c, "hostnames"@) {
            match hostnames_of(doc, c) {
                Ok(x) => Ok(HostParts { host_names: x, ..s }),
                Err(e) => Err(e),
            }
        } else if has_tag(doc, c, "hostscript"@) {
            match hostscript_of(doc, c) {
                Ok(x) => Ok(HostParts { scripts: x, ..s }),
                Err(e) => Err(e),
            }
        } else if has_tag(doc, c, "ports"@) {
            match port_info_of(doc, c) {
                Ok(x) => Ok(HostParts { ports: x, ..s }),
                Err(e) => Err(e),
            }
        } else if has_tag(doc, c, "os"@) {
            match os_of(doc, c) {
                Ok(x) => Ok(HostParts { os: Some(x), ..s }),
                Err(e) => Err(e),
            }
        } else if has_tag(doc, c, "tcpsequence"@) {
            match tcp_sequence_of(doc[c]) {
                Ok(x) => Ok(HostParts { tcpsequence: Some(x), ..s }),
                Err(e) => Err(e),
            }
        } else if has_tag(doc, c, "ipidsequence"@) {
            match classed_values_of(doc[c], "ipidsequence"@) {
                Ok(x) => Ok(HostParts { ipidsequence: Some(x), ..s }),
                Err(e) => Err(e),
            }
        } else if has_tag(doc, c, "tcptssequence"@) {
            match classed_values_of(doc[c], "tcptssequence"@) {
                Ok(x) => Ok(HostParts { tcptssequence: Some(x), ..s }),
                Err(e) => Err(e),
            }
        } else if has_tag(doc, c, "uptime"@) {
            match uptime_of(doc[c]) {
                Ok(x) => Ok(HostParts { uptime: Some(x), ..s }),
                Err(e) => Err(e),
            }
        } else {
            Ok(s)
        }
}

/// What a `host` element decodes to: its optional start and end times, then
/// its children in document order; it must have a `status` child.
pub open spec fn host_of(doc: Seq<NodeView>, i: int) -> Result<HostView, ErrorView> {
    let n = doc[i];
    match optional_i64(n, "starttime"@, "failed to parse host start time"@) {
        Err(e) => Err(e),
        Ok(start) => match optional_i64(n, "endtime"@, "failed to parse host end time"@) {
            Err(e) => Err(e),
            Ok(end) => match fold_children(n.children, no_host_parts(), host_step(doc)) {
                Err(e) => Err(e),
                Ok(p) => match p.status {
                    None => Err(ErrorView::Invalid("expected `status` node for host"@)),
                    Some(status) => Ok(
                        HostView {
                            addresses: p.addresses,
                            scripts: p.scripts,
                            status,
                            host_names: p.host_names,
                            port_info: p.ports,
                            scan_start_time: start,
                            scan_end_time: end,
                            os: p.os,
                            tcpsequence: p.tcpsequence,
                            ipidsequence: p.ipidsequence,
                            tcptssequence: p.tcptssequence,
                            uptime: p.uptime,
                        },
                    ),
                },
            },
        },
    }
}

/// Decodes a `hostnames` element.
pub fn parse_hostnames(doc: &XmlDocument, i: usize) -> (r: Result<Vec<Hostname>, Error>)
    requires
        i < doc@.len(),
    ensures
        match r {
            Ok(v) => hostnames_of(doc@, i as int) == Ok::<Seq<HostnameView>, ErrorView>(hostnames_view(v@)),
            Err(e) => hostnames_of(doc@, i as int) == Err::<Seq<HostnameView>, ErrorView>(e@),
        },
{
    let kids = &doc.nodes[i].children;
    let ghost ks = doc@[i as int].children;
    let ghost init = Seq::<HostnameView>::empty();
    let mut out: Vec<Hostname> = Vec::new();
    proof {
        assert(hostnames_view(out@) =~= init);
        lemma_fold_start(ks, init, hostname_step(doc@));
    }
    let mut k: usize = 0;
    while k < kids.len()
        invariant
            ks == kids@,
            ks == doc@[i as int].children,
            init == Seq::<HostnameView>::empty(),
            k <= ks.len(),
            fold_children(ks.subrange(0, k as int), init, hostname_step(doc@))
                == Ok::<Seq<HostnameView>, ErrorView>(hostnames_view(out@)),
        decreases kids.len() - k,
    {
        proof {
            lemma_fold_next(ks, k as int, init, hostname_step(doc@));
        }
        let c = kids[k];
        if doc.is_tag(c, "hostname") {
            match Hostname::parse(&doc.nodes[c]) {
                Ok(x) => {
                    let ghost before = hostnames_view(out@);
                    out.push(x);
                    assert(hostnames_view(out@) =~= before.push(x@));
                },
                Err(e) => {
                    proof {
                        lemma_fold_stop(ks, k + 1, init, hostname_step(doc@));
                    }
                    return Err(e);
                },
            }
        }
        k = k + 1;
    }
    proof {
        lemma_fold_end(ks, init, hostname_step(doc@));
    }
    Ok(out)
}

/// Decodes a `hostscript` element.
pub fn parse_hostscript(doc: &XmlDocument, i: usize) -> (r: Result<Vec<Script>, Error>)
    requires
        i < doc@.len(),
    ensures
        match r {
            Ok(v) => hostscript_of(doc@, i as int) == Ok::<Seq<ScriptView>, ErrorView>(scripts_view(v@)),
            Err(e) => hostscript_of(doc@, i as int) == Err::<Seq<ScriptView>, ErrorView>(e@),
        },
{
    let kids = &doc.nodes[i].children;
    let ghost ks = doc@[i as int].children;
    let ghost init = Seq::<ScriptView>::empty();
    let mut out: Vec<Script> = Vec::new();
    proof {
        assert(scripts_view(out@) =~= init);
        lemma_fold_start(ks, init, script_step(doc@));
    }
    let mut k: usize = 0;
    while k < kids.len()
        invariant
            ks == kids@,
            ks == doc@[i as int].children,
            init == Seq::<ScriptView>::empty(),
            k <= ks.len(),
            fold_children(ks.subrange(0, k as int), init, script_step(doc@))
                == Ok::<Seq<ScriptView>, ErrorView>(scripts_view(out@)),
        decreases kids.len() - k,
    {
        proof {
            lemma_fold_next(ks, k as int, init, script_step(doc@));
        }
        let c = kids[k];
        if doc.is_tag(c, "script") {
            match Script::parse(&doc.nodes[c]) {
                Ok(x) => {
                    let ghost before = scripts_view(out@);
                    out.push(x);
                    assert(scripts_view(out@) =~= before.push(x@));
                },
                Err(e) => {
                    proof {
                        lemma_fold_stop(ks, k + 1, init, script_step(doc@));
                    }
                    return Err(e);
                },
            }
        }
        k = k + 1;
    }
    proof {
        lemma_fold_end(ks, init, script_step(doc@));
    }
    Ok(out)
}

/// What the walk over a host's children has gathered so far.
struct HostFields {
    addresses: Vec<Address>,
    status: Option<HostStatus>,
    host_names: Vec<Hostname>,
    scripts: Vec<Script>,
    port_info: PortInfo,
    os: Option<Os>,
    tcpsequence: Option<TcpSequence>,
    ipidsequence: Option<IpIdSequence>,
    tcptssequence: Option<TcpTsSequence>,
    uptime: Option<Uptime>,
}

impl View for HostFields {
    type V = HostParts;

    closed spec fn view(&self) -> HostParts {
        HostParts {
            addresses: addresses_view(self.addresses@),
            status: opt_view(self.status),
            host_names: hostnames_view(self.host_names@),
            scripts: scripts_view(self.scripts@),
            ports: self.port_info@,
            os: opt_view(self.os),
            tcpsequence: opt_view(self.tcpsequence),
            ipidsequence: opt_view(self.ipidsequence),
            tcptssequence: opt_view(self.tcptssequence),
            uptime: opt_view(self.uptime),
        }
    }
}

/// Takes the child `c` of a host into what has been gathered.
#[verifier::rlimit(40)]
fn take_host_child(doc: &XmlDocument, c: usize, f: &mut HostFields) -> (r: Result<(), Error>)
    ensures
        match r {
            Ok(_) => (host_step(doc@))(old(f)@, c as int) == Ok::<HostParts, ErrorView>(final(f)@),
            Err(e) => (host_step(doc@))(old(f)@, c as int) == Err::<HostParts, ErrorView>(e@),
        },
{
    if doc.is_tag(c, "address") {
        let x = parse_address(&doc.nodes[c])?;
        let ghost before = addresses_view(f.addresses@);
        f.addresses.push(x);
        assert(addresses_view(f.addresses@) =~= before.push(x@));
    } else if doc.is_tag(c, "status") {
        f.status = Some(HostStatus::parse(&doc.nodes[c])?);
    } else if doc.is_tag(c, "hostnames") {
        f.host_names = parse_hostnames(doc, c)?;
    } else if doc.is_tag(c, "hostscript") {
        f.scripts = parse_hostscript(doc, c)?;
    } else if doc.is_tag(c, "ports") {
        f.port_info = PortInfo::parse(doc, c)?;
    } else if doc.is_tag(c, "os") {
        f.os = Some(Os::parse(doc, c)?);
    } else if doc.is_tag(c, "tcpsequence") {
        f.tcpsequence = Some(TcpSequence::parse(&doc.nodes[c])?);
    } else if doc.is_tag(c, "ipidsequence") {
        f.ipidsequence = Some(IpIdSequence::parse(&doc.nodes[c])?);
    } else if doc.is_tag(c, "tcptssequence") {
        f.tcptssequence = Some(TcpTsSequence::parse(&doc.nodes[c])?);
    } else if doc.is_tag(c, "uptime") {
        f.uptime = Some(Uptime::parse(&doc.nodes[c])?);
    }
    Ok(())
}

impl Host {
    /// Decodes a `host` element. A later `status`, `hostnames`, `hostscript`,
    /// `ports`, `os` or sequence child replaces an earlier one of its tag.
    pub fn parse(doc: &XmlDocument, i: usize) -> (r: Result<Host, Error>)
        requires
            i < doc@.len(),
        ensures
            result_view(r) == host_of(doc@, i as int),
    {
        let n = &doc.nodes[i];
        let scan_start_time = match optional_i64_attr(n, "starttime", "failed to parse host start time") {
            Ok(v) => v,
            Err(e) => return Err(e),
        };
        let scan_end_time = match optional_i64_attr(n, "endtime", "failed to parse host end time") {
            Ok(v) => v,
            Err(e) => return Err(e),
        };
        let mut f = HostFields {
            addresses: Vec::new(),
            status: None,
            host_names: Vec::new(),
            scripts: Vec::new(),
            port_info: PortInfo { ports: Vec::new() },
            os: None,
            tcpsequence: None,
            ipidsequence: None,
            tcptssequence: None,
            uptime: None,
        };
        let kids = &n.children;
        let ghost ks = doc@[i as int].children;
        let ghost init = no_host_parts();
        proof {
            assert(f@.addresses =~= init.addresses);
            assert(f@.host_names =~= init.host_names);
            assert(f@.scripts =~= init.scripts);
            assert(f@.ports =~= init.ports);
            lemma_fold_start(ks, init, host_step(doc@));
        }
        let mut k: usize = 0;
        while k < kids.len()
            invariant
                ks == kids@,
                ks == doc@[i as int].children,
                i < doc@.len(),
                init == no_host_parts(),
                optional_i64(doc@[i as int], "starttime"@, "failed to parse host start time"@)
                    == Ok::<Option<i64>, ErrorView>(scan_start_time),
                optional_i64(doc@[i as int], "endtime"@, "failed to parse host end time"@)
                    == Ok::<Option<i64>, ErrorView>(scan_end_time),
                k <= ks.len(),
                fold_children(ks.subrange(0, k as int), init, host_step(doc@)) == Ok::<HostParts, ErrorView>(f@),
            decreases kids.len() - k,
        {
            proof {
                lemma_fold_next(ks, k as int, init, host_step(doc@));
            }
            if let Err(e) = take_host_child(doc, kids[k], &mut f) {
                proof {
                    lemma_fold_stop(ks, k + 1, init, host_step(doc@));
                }
                return Err(e);
            }
            k = k + 1;
        }
        proof {
            lemma_fold_end(ks, init, host_step(doc@));
        }
        match f.status {
            Some(status) => Ok(
                Host {
                    addresses: f.addresses,
                    scripts: f.scripts,
                    status,
                    host_names: f.host_names,
                    port_info: f.port_info,
                    scan_start_time,
                    scan_end_time,
                    os: f.os,
                    tcpsequence: f.tcpsequence,
                    ipidsequence: f.ipidsequence,
                    tcptssequence: f.tcptssequence,
                    uptime: f.uptime,
                },
            ),
            None => Err(Error::invalid("expected `status` node for host")),
        }
    }

    /// The host's addresses, in document order.
    pub fn addresses(&self) -> (r: &[Address])
        ensures
            r@ == self.addresses@,
    {
        self.addresses.as_slice()
    }

    /// The results of the host's scripts, in document order.
    pub fn scripts(&self) -> (r: &[Script])
        ensures
            r@ == self.scripts@,
    {
        self.scripts.as_slice()
    }

    /// The host's names, in document order.
    pub fn host_names(&self) -> (r: &[Hostname])
        ensures
            r@ == self.host_names@,
    {
        self.host_names.as_slice()
    }
}

/// Reading a HostState's token gives that HostState back, and a token that reads as
/// a HostState is that HostState's own token.
pub proof fn lemma_host_state_round_trip(v: HostState, t: Seq<char>)
    ensures
        HostState::spec_parse(v.spec_token()) == Some(v),
        HostState::spec_parse(t) == Some(v) ==> v.spec_token() == t,
{
    reveal_strlit("up");
    reveal_strlit("down");
    reveal_strlit("unknown");
    reveal_strlit("skipped");
    assert("up"@.len() != "down"@.len());
    assert("up"@.len() != "unknown"@.len());
    assert("up"@.len() != "skipped"@.len());
    assert("down"@.len() != "unknown"@.len());
    assert("down"@.len() != "skipped"@.len());
    assert("unknown"@[0] != "skipped"@[0]);
}

/// Reading a HostnameType's token gives that HostnameType back, and a token that reads as
/// a HostnameType is that HostnameType's own token.
pub proof fn lemma_hostname_type_round_trip(v: HostnameType, t: Seq<char>)
    ensures
        HostnameType::spec_parse(v.spec_token()) == Some(v),
        HostnameType::spec_parse(t) == Some(v) ==> v.spec_token() == t,
{
    reveal_strlit("user");
    reveal_strlit("PTR");
    assert("user"@.len() != "PTR"@.len());
}

/// Reading a TcpDifficulty's token gives that TcpDifficulty back, and a token that reads as
/// a TcpDifficulty is that TcpDifficulty's own token.
pub proof fn lemma_tcp_difficulty_round_trip(v: TcpDifficulty, t: Seq<char>)
    ensures
        TcpDifficulty::spec_parse(v.spec_token()) == Some(v),
        TcpDifficulty::spec_parse(t) == Some(v) ==> v.spec_token() == t,
{
    reveal_strlit("Trivial joke");
    reveal_strlit("Easy");
    reveal_strlit("Medium");
    reveal_strlit("Formidable");
    reveal_strlit("Worthy challenge");
    reveal_strlit("Good luck!");
    assert("Trivial joke"@.len() != "Easy"@.len());
    assert("Trivial joke"@.len() != "Medium"@.len());
    assert("Trivial joke"@.len() != "Formidable"@.len());
    assert("Trivial joke"@.len() != "Worthy challenge"@.len());
    assert("Trivial joke"@.len() != "Good luck!"@.len());
    assert("Easy"@.len() != "Medium"@.len());
    assert("Easy"@.len() != "Formidable"@.len());
    assert("Easy"@.len() != "Worthy challenge"@.len());
    assert("Easy"@.len() != "Good luck!"@.len());
    assert("Medium"@.len() != "Formidable"@.len());
    assert("Medium"@.len() != "Worthy challenge"@.len());
    assert("Medium"@.len() != "Good luck!"@.len());
    assert("Formidable"@.len() != "Worthy challenge"@.len());
    assert("Formidable"@[0] != "Good luck!"@[0]);
    assert("Worthy challenge"@.len() != "Good luck!"@.len());
}

/// No tag of `tags` is among the children `kids`.
pub open spec fn lacks_tags(doc: Seq<NodeView>, kids: Seq<usize>, tags: Seq<Seq<char>>) -> bool {
    forall|k: int, t: int| 0 <= k < kids.len() && 0 <= t < tags.len() ==> !has_tag(doc, #[trigger] kids[k] as int, #[trigger] tags[t])
}

proof fn lemma_fold_keeps_status(doc: Seq<NodeView>, kids: Seq<usize>, init: HostParts)
    requires
        lacks_tags(doc, kids, seq!["status"@]),
    ensures
        fold_children(kids, init, host_step(doc)) matches Ok(p) ==> p.status == init.status,
    decreases kids.len(),
{
    if kids.len() > 0 {
        assert(lacks_tags(doc, kids.drop_last(), seq!["status"@])) by {
            assert forall|k: int, t: int| 0 <= k < kids.drop_last().len() && 0 <= t < 1 implies
                !has_tag(doc, #[trigger] kids.drop_last()[k] as int, #[trigger] seq!["status"@][t]) by {
                assert(kids.drop_last()[k] == kids[k]);
            }
        }
        lemma_fold_keeps_status(doc, kids.drop_last(), init);
        assert(!has_tag(doc, kids[kids.len() - 1] as int, seq!["status"@][0]));
    }
}

proof fn lemma_fold_keeps_collections(doc: Seq<NodeView>, kids: Seq<usize>, init: HostParts)
    requires
        lacks_tags(doc, kids, seq!["address"@, "hostnames"@, "ports"@]),
    ensures
        fold_children(kids, init, host_step(doc)) matches Ok(p) ==> p.addresses == init.addresses
            && p.host_names == init.host_names && p.ports == init.ports,
    decreases kids.len(),
{
    let tags = seq!["address"@, "hostnames"@, "ports"@];
    if kids.len() > 0 {
        assert(lacks_tags(doc, kids.drop_last(), tags)) by {
            assert forall|k: int, t: int| 0 <= k < kids.drop_last().len() && 0 <= t < 3 implies
                !has_tag(doc, #[trigger] kids.drop_last()[k] as int, #[trigger] tags[t]) by {
                assert(kids.drop_last()[k] == kids[k]);
            }
        }
        lemma_fold_keeps_collections(doc, kids.drop_last(), init);
        let last = kids[kids.len() - 1] as int;
        assert(!has_tag(doc, last, tags[0]));
        assert(!has_tag(doc, last, tags[1]));
        assert(!has_tag(doc, last, tags[2]));
    }
}

/// A host element without a `status` child is always refused.
pub proof fn lemma_host_needs_status(doc: Seq<NodeView>, i: int)
    requires
        0 <= i < doc.len(),
        lacks_tags(doc, doc[i].children, seq!["status"@]),
    ensures
        host_of(doc, i) is Err,
{
    lemma_fold_keeps_status(doc, doc[i].children, no_host_parts());
}

/// A host element without `address`, `hostnames` or `ports` children that
/// decodes has no addresses, no names and no ports.
pub proof fn lemma_host_optional_children(doc: Seq<NodeView>, i: int)
    requires
        0 <= i < doc.len(),
        lacks_tags(doc, doc[i].children, seq!["address"@, "hostnames"@, "ports"@]),
        host_of(doc, i) is Ok,
    ensures
        host_of(doc, i)->Ok_0.addresses.len() == 0,
        host_of(doc, i)->Ok_0.host_names.len() == 0,
        host_of(doc, i)->Ok_0.port_info.len() == 0,
{
    lemma_fold_keeps_collections(doc, doc[i].children, no_host_parts());
}

/// A `tcpsequence` whose `values` holds fewer than six comma-separated
/// pieces is refused.
pub proof fn lemma_tcp_sequence_few_values(n: NodeView, v: Seq<char>)
    requires
        attr(n, "values"@) == Some(v),
        split_on(v, ',').len() < 6,
    ensures
        tcp_sequence_of(n) is Err,
{
}

/// A `tcpsequence` with a valid index and difficulty whose `values` holds
/// six hexadecimal pieces decodes to those six numbers, in their order.
pub proof fn lemma_tcp_sequence_six_values(n: NodeView, v: Seq<char>)
    requires
        required_unsigned(n, "index"@, "tcpsequence"@, 0xffff_ffff) is Ok,
        attr(n, "difficulty"@) is Some,
        TcpDifficulty::spec_parse(attr(n, "difficulty"@)->Some_0) is Some,
        attr(n, "values"@) == Some(v),
        split_on(v, ',').len() == 6,
        forall|k: int| 0 <= k < 6 ==> (#[trigger] unsigned_of(split_on(v, ',')[k], 16, 0xffff_ffff)) is Some,
    ensures
        tcp_sequence_of(n) is Ok,
        tcp_sequence_of(n)->Ok_0.values.len() == 6,
        forall|k: int| 0 <= k < 6 ==> #[trigger] tcp_sequence_of(n)->Ok_0.values[k]
            == unsigned_of(split_on(v, ',')[k], 16, 0xffff_ffff)->Some_0 as u32,
{
}

/// The tags of the children that a host decodes.
pub open spec fn host_tags() -> Seq<Seq<char>> {
    seq!["address"@, "status"@, "hostnames"@, "hostscript"@, "ports"@, "os"@, "tcpsequence"@, "ipidsequence"@, "tcptssequence"@, "uptime"@]
}

proof fn lemma_host_tags_distinct()
    ensures
        forall|a: int, b: int| 0 <= a < 10 && 0 <= b < 10 && a != b ==> host_tags()[a] != host_tags()[b],
        host_tags().len() == 10,
{
    reveal_strlit("address");
    reveal_strlit("status");
    reveal_strlit("hostnames");
    reveal_strlit("hostscript");
    reveal_strlit("ports");
    reveal_strlit("os");
    reveal_strlit("tcpsequence");
    reveal_strlit("ipidsequence");
    reveal_strlit("tcptssequence");
    reveal_strlit("uptime");
    let t = host_tags();
    assert("address"@.len() != "status"@.len());
    assert("address"@.len() != "hostnames"@.len());
    assert("address"@.len() != "hostscript"@.len());
    assert("address"@.len() != "ports"@.len());
    assert("address"@.len() != "os"@.len());
    assert("address"@.len() != "tcpsequence"@.len());
    assert("address"@.len() != "ipidsequence"@.len());
    assert("address"@.len() != "tcptssequence"@.len());
    assert("address"@.len() != "uptime"@.len());
    assert("status"@.len() != "hostnames"@.len());
    assert("status"@.len() != "hostscript"@.len());
    assert("status"@.len() != "ports"@.len());
    assert("status"@.len() != "os"@.len());
    assert("status"@.len() != "tcpsequence"@.len());
    assert("status"@.len() != "ipidsequence"@.len());
    assert("status"@.len() != "tcptssequence"@.len());
    assert("status"@[0] != "uptime"@[0]);
    assert("hostnames"@.len() != "hostscript"@.len());
    assert("hostnames"@.len() != "ports"@.len());
    assert("hostnames"@.len() != "os"@.len());
    assert("hostnames"@.len() != "tcpsequence"@.len());
    assert("hostnames"@.len() != "ipidsequence"@.len());
    assert("hostnames"@.len() != "tcptssequence"@.len());
    assert("hostnames"@.len() != "uptime"@.len());
    assert("hostscript"@.len() != "ports"@.len());
    assert("hostscript"@.len() != "os"@.len());
    assert("hostscript"@.len() != "tcpsequence"@.len());
    assert("hostscript"@.len() != "ipidsequence"@.len());
    assert("hostscript"@.len() != "tcptssequence"@.len());
    assert("hostscript"@.len() != "uptime"@.len());
    assert("ports"@.len() != "os"@.len());
    assert("ports"@.len() != "tcpsequence"@.len());
    assert("ports"@.len() != "ipidsequence"@.len());
    assert("ports"@.len() != "tcptssequence"@.len());
    assert("ports"@.len() != "uptime"@.len());
    assert("os"@.len() != "tcpsequence"@.len());
    assert("os"@.len() != "ipidsequence"@.len());
    assert("os"@.len() != "tcptssequence"@.len());
    assert("os"@.len() != "uptime"@.len());
    assert("tcpsequence"@.len() != "ipidsequence"@.len());
    assert("tcpsequence"@.len() != "tcptssequence"@.len());
    assert("tcpsequence"@.len() != "uptime"@.len());
    assert("ipidsequence"@.len() != "tcptssequence"@.len());
    assert("ipidsequence"@.len() != "uptime"@.len());
    assert("tcptssequence"@.len() != "uptime"@.len());
}

/// Child `c` is a `status` that decodes, or has none of the host's tags.
pub open spec fn status_or_other(doc: Seq<NodeView>, c: int) -> bool {
    (has_tag(doc, c, "status"@) && host_status_of(doc[c]) is Ok) || (forall|t: int|
        0 <= t < 10 ==> !has_tag(doc, c, #[trigger] host_tags()[t]))
}

proof fn lemma_fold_status_only(doc: Seq<NodeView>, kids: Seq<usize>)
    requires
        forall|k: int| 0 <= k < kids.len() ==> status_or_other(doc, #[trigger] kids[k] as int),
    ensures
        fold_children(kids, no_host_parts(), host_step(doc)) is Ok,
        ({
            let p = fold_children(kids, no_host_parts(), host_step(doc))->Ok_0;
            &&& p.addresses.len() == 0
            &&& p.host_names.len() == 0
            &&& p.scripts.len() == 0
            &&& p.ports.len() == 0
            &&& p.os is None
            &&& (forall|j: int| 0 <= j < kids.len() && has_tag(doc, #[trigger] kids[j] as int, "status"@) ==> p.status is Some)
        }),
    decreases kids.len(),
{
    if kids.len() > 0 {
        let front = kids.drop_last();
        assert forall|k: int| 0 <= k < front.len() implies status_or_other(doc, #[trigger] front[k] as int) by {
            assert(front[k] == kids[k]);
        }
        lemma_fold_status_only(doc, front);
        lemma_host_tags_distinct();
        let c = kids[kids.len() - 1] as int;
        assert(status_or_other(doc, c));
        let t = host_tags();
        assert(t[0] == "address"@ && t[1] == "status"@ && t[2] == "hostnames"@ && t[3] == "hostscript"@
            && t[4] == "ports"@ && t[5] == "os"@ && t[6] == "tcpsequence"@ && t[7] == "ipidsequence"@
            && t[8] == "tcptssequence"@ && t[9] == "uptime"@);
        if has_tag(doc, c, "status"@) {
            assert(!has_tag(doc, c, t[0]));
        } else {
            assert(!has_tag(doc, c, t[0]) && !has_tag(doc, c, t[2]) && !has_tag(doc, c, t[3]) && !has_tag(doc, c, t[4])
                && !has_tag(doc, c, t[5]) && !has_tag(doc, c, t[6]) && !has_tag(doc, c, t[7]) && !has_tag(doc, c, t[8])
                && !has_tag(doc, c, t[9]));
        }
        let p = fold_children(kids, no_host_parts(), host_step(doc))->Ok_0;
        assert forall|j: int| 0 <= j < kids.len() && has_tag(doc, #[trigger] kids[j] as int, "status"@) implies p.status is Some by {
            if j < kids.len() - 1 {
                assert(front[j] == kids[j]);
            }
        }
    }
}

/// A host element with a `status` child that decodes, whose other children
/// are further `status` elements that decode or carry none of the tags a
/// host decodes, and whose start and end times, where given, are numbers,
/// decodes, with no addresses, names, scripts, ports or OS.
pub proof fn lemma_host_status_and_unknown_children(doc: Seq<NodeView>, i: int, j: int)
    requires
        0 <= i < doc.len(),
        0 <= j < doc[i].children.len(),
        has_tag(doc, doc[i].children[j] as int, "status"@),
        forall|k: int| 0 <= k < doc[i].children.len() ==> status_or_other(doc, #[trigger] doc[i].children[k] as int),
        optional_i64(doc[i], "starttime"@, "failed to parse host start time"@) is Ok,
        optional_i64(doc[i], "endtime"@, "failed to parse host end time"@) is Ok,
    ensures
        host_of(doc, i) is Ok,
        host_of(doc, i)->Ok_0.addresses.len() == 0,
        host_of(doc, i)->Ok_0.host_names.len() == 0,
        host_of(doc, i)->Ok_0.scripts.len() == 0,
        host_of(doc, i)->Ok_0.port_info.len() == 0,
        host_of(doc, i)->Ok_0.os is None,
{
    lemma_fold_status_only(doc, doc[i].children);
}

/// A host element with a `tcpsequence` child whose `values` holds fewer
/// than six comma-separated pieces is refused, whatever its other children.
pub proof fn lemma_host_with_short_tcp_sequence(doc: Seq<NodeView>, i: int, k: int, v: Seq<char>)
    requires
        0 <= i < doc.len(),
        0 <= k < doc[i].children.len(),
        has_tag(doc, doc[i].children[k] as int, "tcpsequence"@),
        attr(doc[doc[i].children[k] as int], "values"@) == Some(v),
        split_on(v, ',').len() < 6,
    ensures
        host_of(doc, i) is Err,
{
    let kids = doc[i].children;
    let c = kids[k] as int;
    lemma_tcp_sequence_few_values(doc[c], v);
    lemma_host_tags_distinct();
    let t = host_tags();
    assert(t[0] == "address"@ && t[1] == "status"@ && t[2] == "hostnames"@ && t[3] == "hostscript"@
        && t[4] == "ports"@ && t[5] == "os"@ && t[6] == "tcpsequence"@);
    assert(!has_tag(doc, c, t[0]) && !has_tag(doc, c, t[1]) && !has_tag(doc, c, t[2]) && !has_tag(doc, c, t[3])
        && !has_tag(doc, c, t[4]) && !has_tag(doc, c, t[5]));
    lemma_fold_next(kids, k, no_host_parts(), host_step(doc));
    lemma_fold_stop(kids, k + 1, no_host_parts(), host_step(doc));
}

proof fn lemma_fold_keeps_tcp_sequence(doc: Seq<NodeView>, kids: Seq<usize>, k: int, x: TcpSequenceView)
    requires
        0 <= k < kids.len(),
        has_tag(doc, kids[k] as int, "tcpsequence"@),
        tcp_sequence_of(doc[kids[k] as int]) == Ok::<TcpSequenceView, ErrorView>(x),
        forall|j: int| 0 <= j < kids.len() && j != k ==> !has_tag(doc, #[trigger] kids[j] as int, "tcpsequence"@),
        fold_children(kids, no_host_parts(), host_step(doc)) is Ok,
    ensures
        fold_children(kids, no_host_parts(), host_step(doc))->Ok_0.tcpsequence == Some(x),
    decreases kids.len(),
{
    let front = kids.drop_last();
    let c = kids[kids.len() - 1] as int;
    if k == kids.len() - 1 {
        lemma_host_tags_distinct();
        let t = host_tags();
        assert(t[0] == "address"@ && t[1] == "status"@ && t[2] == "hostnames"@ && t[3] == "hostscript"@
            && t[4] == "ports"@ && t[5] == "os"@ && t[6] == "tcpsequence"@);
        assert(!has_tag(doc, c, t[0]) && !has_tag(doc, c, t[1]) && !has_tag(doc, c, t[2]) && !has_tag(doc, c, t[3])
            && !has_tag(doc, c, t[4]) && !has_tag(doc, c, t[5]));
    } else {
        assert forall|j: int| 0 <= j < front.len() && j != k implies !has_tag(doc, #[trigger] front[j] as int, "tcpsequence"@) by {
            assert(front[j] == kids[j]);
        }
        assert(front[k] == kids[k]);
        assert(!has_tag(doc, c, "tcpsequence"@));
        lemma_fold_keeps_tcp_sequence(doc, front, k, x);
    }
}

/// In a host element that decodes and has one `tcpsequence` child, with a
/// valid index and difficulty and six hexadecimal pieces in `values`, the
/// host's sequence holds those six numbers in their order.
pub proof fn lemma_host_tcp_sequence_values(doc: Seq<NodeView>, i: int, k: int, v: Seq<char>)
    requires
        0 <= i < doc.len(),
        0 <= k < doc[i].children.len(),
        has_tag(doc, doc[i].children[k] as int, "tcpsequence"@),
        forall|j: int| 0 <= j < doc[i].children.len() && j != k ==> !has_tag(doc, #[trigger] doc[i].children[j] as int, "tcpsequence"@),
        required_unsigned(doc[doc[i].children[k] as int], "index"@, "tcpsequence"@, 0xffff_ffff) is Ok,
        attr(doc[doc[i].children[k] as int], "difficulty"@) is Some,
        TcpDifficulty::spec_parse(attr(doc[doc[i].children[k] as int], "difficulty"@)->Some_0) is Some,
        attr(doc[doc[i].children[k] as int], "values"@) == Some(v),
        split_on(v, ',').len() == 6,
        forall|j: int| 0 <= j < 6 ==> (#[trigger] unsigned_of(split_on(v, ',')[j], 16, 0xffff_ffff)) is Some,
        host_of(doc, i) is Ok,
    ensures
        host_of(doc, i)->Ok_0.tcpsequence is Some,
        host_of(doc, i)->Ok_0.tcpsequence->Some_0.values.len() == 6,
        forall|j: int| 0 <= j < 6 ==> #[trigger] host_of(doc, i)->Ok_0.tcpsequence->Some_0.values[j]
            == unsigned_of(split_on(v, ',')[j], 16, 0xffff_ffff)->Some_0 as u32,
{
    let c = doc[i].children[k] as int;
    lemma_tcp_sequence_six_values(doc[c], v);
    lemma_fold_keeps_tcp_sequence(doc, doc[i].children, k, tcp_sequence_of(doc[c])->Ok_0);
}

} // verus!
