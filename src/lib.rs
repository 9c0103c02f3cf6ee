//! Decoding of Nmap XML reports into typed, validated records.
//!
//! The entry point is `NmapResults::parse`, which reads the XML text, checks
//! the report's shape and returns every host with its ports, names, scripts,
//! OS guesses and sequence measurements, or the first error met.
use vstd::prelude::*;
use roxmltree::Error as SyntaxError;
use crate::host::{host_of, Host, HostView};
use crate::number::{i64_of, parse_i64};
use crate::port::Port;
use crate::util::{fold_children, lemma_fold_end, lemma_fold_next, lemma_fold_start, lemma_fold_stop};
use crate::xml::{attr, has_tag, root_element_of, xml_nodes, NodeView, XmlDocument};

pub mod xml;
pub mod number;
pub mod net;
pub mod util;
pub mod port;
pub mod host;

verus! {

/// Why a report could not be decoded.
#[derive(Debug)]
pub enum Error {
    /// The text is not well-formed XML.
    XmlError(SyntaxError),
    /// The XML does not have the shape of an Nmap report; the text says where.
    InvalidNmapOutput(String),
}

/// The model of an `Error`.
pub enum ErrorView {
    Xml,
    Invalid(Seq<char>),
}

impl View for Error {
    type V = ErrorView;

    open spec fn view(&self) -> ErrorView {
        match self {
            Error::XmlError(_) => ErrorView::Xml,
            Error::InvalidNmapOutput(m) => ErrorView::Invalid(m@),
        }
    }
}

impl Error {
    /// A report-shape error with the message `m`.
    pub fn invalid(m: &str) -> (r: Error)
        ensures
            r@ == ErrorView::Invalid(m@),
    {
        Error::InvalidNmapOutput(m.to_owned())
    }

    /// The error's description.
    pub fn message(&self) -> (r: String)
        ensures
            match self@ {
                ErrorView::Xml => r@ == "error parsing file as XML document"@,
                ErrorView::Invalid(m) => r@ == "error parsing Nmap XML output: "@ + m,
            },
    {
        match self {
            Error::XmlError(_) => "error parsing file as XML document".to_owned(),
            Error::InvalidNmapOutput(m) => {
                let mut s = "error parsing Nmap XML output: ".to_owned();
                s.append(m.as_str());
                s
            },
        }
    }
}

/// The model of a decoding result.
pub open spec fn result_view<T: View>(r: Result<T, Error>) -> Result<T::V, ErrorView> {
    match r {
        Ok(v) => Ok(v@),
        Err(e) => Err(e@),
    }
}

/// The decoded report: its hosts in document order, when the scan started
/// and, if it finished, when it ended (seconds since the Unix epoch).
#[derive(Clone, Debug)]
pub struct NmapResults {
    pub hosts: Vec<Host>,
    pub scan_start_time: i64,
    pub scan_end_time: Option<i64>,
}

/// The model of an `NmapResults`.
pub struct NmapResultsView {
    pub hosts: Seq<HostView>,
    pub scan_start_time: i64,
    pub scan_end_time: Option<i64>,
}

pub open spec fn hosts_view(s: Seq<Host>) -> Seq<HostView> {
    s.map_values(|h: Host| h@)
}

impl View for NmapResults {
    type V = NmapResultsView;

    open spec fn view(&self) -> NmapResultsView {
        NmapResultsView {
            hosts: hosts_view(self.hosts@),
            scan_start_time: self.scan_start_time,
            scan_end_time: self.scan_end_time,
        }
    }
}

/// Every port of every host, each beside its host, hosts and ports in order.
pub open spec fn port_pairs(hosts: Seq<Host>) -> Seq<(Host, Port)>
    decreases hosts.len(),
{
    if hosts.len() == 0 {
        Seq::empty()
    } else {
        port_pairs(hosts.drop_last()) + hosts.last().port_info.ports@.map_values(|p: Port| (hosts.last(), p))
    }
}

/// The end time that a `finished` element gives.
pub open spec fn finished_time_of(n: NodeView) -> Result<i64, ErrorView> {
    match attr(n, "time"@) {
        None => Err(ErrorView::Invalid("expected `time` `runstats`.`finished`"@)),
        Some(t) => match i64_of(t) {
            None => Err(ErrorView::Invalid("failed to parse end time"@)),
            Some(v) => Ok(v as i64),
        },
    }
}

/// The end time given by the first `finished` element among `kids`; none
/// where there is no such element.
pub open spec fn finished_in(doc: Seq<NodeView>, kids: Seq<usize>) -> Result<Option<i64>, ErrorView>
    decreases kids.len(),
{
    if kids.len() == 0 {
        Ok(None)
    } else if has_tag(doc, kids[0] as int, "finished"@) {
        match finished_time_of(doc[kids[0] as int]) {
            Ok(v) => Ok(Some(v)),
            Err(e) => Err(e),
        }
    } else {
        finished_in(doc, kids.drop_first())
    }
}

/// What a `runstats` element says of the scan's end.
pub open spec fn runstats_of(doc: Seq<NodeView>, i: int) -> Result<Option<i64>, ErrorView> {
    finished_in(doc, doc[i].children)
}

pub type RunParts = (Seq<HostView>, Option<i64>);

/// One step over the children of the root: each `host` is decoded and kept;
/// a `runstats` sets the end time; other children are passed over.
pub open spec fn run_step(doc: Seq<NodeView>) -> spec_fn(RunParts, int) -> Result<RunParts, ErrorView> {
    |s: RunParts, c: int|
        if has_tag(doc, c, "host"@) {
            match host_of(doc, c) {
                Ok(h) => Ok((s.0.push(h), s.1)),
                Err(e) => Err(e),
            }
        } else if has_tag(doc, c, "runstats"@) {
            match runstats_of(doc, c) {
                Ok(end) => Ok((s.0, end)),
                Err(e) => Err(e),
            }
        } else {
            Ok(s)
        }
}

/// What a parsed document decodes to: its root must be `nmaprun` with a
/// `start` time; then its children are walked in document order.
pub open spec fn results_of(doc: Seq<NodeView>) -> Result<NmapResultsView, ErrorView> {
    match root_element_of(doc) {
        None => Err(ErrorView::Invalid("expected `nmaprun` root tag"@)),
        Some(r) => if doc[r].tag != "nmaprun"@ {
            Err(ErrorView::Invalid("expected `nmaprun` root tag"@))
        } else {
            match attr(doc[r], "start"@) {
                None => Err(ErrorView::Invalid("expected start time attribute"@)),
                Some(t) => match i64_of(t) {
                    None => Err(ErrorView::Invalid("failed to parse start time"@)),
                    Some(start) => match fold_children(doc[r].children, (Seq::empty(), None), run_step(doc)) {
                        Err(e) => Err(e),
                        Ok(p) => Ok(
                            NmapResultsView { hosts: p.0, scan_start_time: start as i64, scan_end_time: p.1 },
                        ),
                    },
                },
            }
        },
    }
}

/// What a text decodes to: an XML error where it is not well-formed XML,
/// else what its document decodes to.
pub open spec fn report_of(text: Seq<char>) -> Result<NmapResultsView, ErrorView> {
    match xml_nodes(text) {
        None => Err(ErrorView::Xml),
        Some(doc) => results_of(doc),
    }
}

/// Decodes a `runstats` element.
pub fn parse_runstats(doc: &XmlDocument, i: usize) -> (r: Result<Option<i64>, Error>)
    requires
        i < doc@.len(),
    ensures
        result_view(r) == runstats_of(doc@, i as int),
{
    let kids = &doc.nodes[i].children;
    let ghost ks = doc@[i as int].children;
    assert(ks.subrange(0, ks.len() as int) =~= ks);
    let mut k: usize = 0;
    while k < kids.len()
        invariant
            ks == kids@,
            ks == doc@[i as int].children,
            i < doc@.len(),
            k <= ks.len(),
            finished_in(doc@, ks) == finished_in(doc@, ks.subrange(k as int, ks.len() as int)),
        decreases kids.len() - k,
    {
        let ghost rest = ks.subrange(k as int, ks.len() as int);
        assert(rest.drop_first() =~= ks.subrange(k + 1, ks.len() as int));
        let c = kids[k];
        if doc.is_tag(c, "finished") {
            let t = match doc.nodes[c].attribute("time") {
                Some(t) => t,
                None => return Err(Error::invalid("expected `time` `runstats`.`finished`")),
            };
            return match parse_i64(t.as_str()) {
                Some(v) => Ok(Some(v)),
                None => Err(Error::invalid("failed to parse end time")),
            };
        }
        k = k + 1;
    }
    Ok(None)
}

/// Takes the child `c` of the root into the hosts and end time gathered so far.
fn take_run_child(doc: &XmlDocument, c: usize, hosts: &mut Vec<Host>, end: &mut Option<i64>) -> (r: Result<(), Error>)
    ensures
        match r {
            Ok(_) => (run_step(doc@))((hosts_view(old(hosts)@), *old(end)), c as int)
                == Ok::<RunParts, ErrorView>((hosts_view(final(hosts)@), *final(end))),
            Err(e) => (run_step(doc@))((hosts_view(old(hosts)@), *old(end)), c as int)
                == Err::<RunParts, ErrorView>(e@),
        },
{
    if doc.is_tag(c, "host") {
        let h = Host::parse(doc, c)?;
        let ghost before = hosts_view(hosts@);
        hosts.push(h);
        assert(hosts_view(hosts@) =~= before.push(h@));
    } else if doc.is_tag(c, "runstats") {
        *end = parse_runstats(doc, c)?;
    }
    Ok(())
}

impl NmapResults {
    /// Decodes the report in `xml`: an XML error where the text is not
    /// well-formed XML, else the report or the first error in it.
    pub fn parse(xml: &str) -> (r: Result<NmapResults, Error>)
        ensures
            result_view(r) == report_of(xml@),
    {
        let doc = match XmlDocument::parse(xml) {
            Ok(d) => d,
            Err(e) => return Err(Error::XmlError(e)),
        };
        NmapResults::from_document(&doc)
    }

    /// Decodes a parsed document.
    pub fn from_document(doc: &XmlDocument) -> (r: Result<NmapResults, Error>)
        ensures
            result_view(r) == results_of(doc@),
    {
        let root = match doc.root_element() {
            Some(root) => root,
            None => return Err(Error::invalid("expected `nmaprun` root tag")),
        };
        if !doc.is_tag(root, "nmaprun") {
            return Err(Error::invalid("expected `nmaprun` root tag"));
        }
        let start = match doc.nodes[root].attribute("start") {
            Some(t) => t,
            None => return Err(Error::invalid("expected start time attribute")),
        };
        let scan_start_time = match parse_i64(start.as_str()) {
            Some(v) => v,
            None => return Err(Error::invalid("failed to parse start time")),
        };
        let kids = &doc.nodes[root].children;
        let ghost ks = doc@[root as int].children;
        let ghost init: RunParts = (Seq::empty(), None);
        let mut hosts: Vec<Host> = Vec::new();
        let mut scan_end_time: Option<i64> = None;
        proof {
            assert(hosts_view(hosts@) =~= Seq::<HostView>::empty());
            lemma_fold_start(ks, init, run_step(doc@));
        }
        let mut k: usize = 0;
        while k < kids.len()
            invariant
                ks == kids@,
                ks == doc@[root as int].children,
                root < doc@.len(),
                root_element_of(doc@) == Some(root as int),
                doc@[root as int].tag == "nmaprun"@,
                attr(doc@[root as int], "start"@) == Some(start@),
                i64_of(start@) == Some(scan_start_time as int),
                init == (Seq::<HostView>::empty(), Option::<i64>::None),
                k <= ks.len(),
                fold_children(ks.subrange(0, k as int), init, run_step(doc@))
                    == Ok::<RunParts, ErrorView>((hosts_view(hosts@), scan_end_time)),
            decreases kids.len() - k,
        {
            proof {
                lemma_fold_next(ks, k as int, init, run_step(doc@));
            }
            if let Err(e) = take_run_child(doc, kids[k], &mut hosts, &mut scan_end_time) {
                proof {
                    lemma_fold_stop(ks, k + 1, init, run_step(doc@));
                }
                return Err(e);
            }
            k = k + 1;
        }
        proof {
            lemma_fold_end(ks, init, run_step(doc@));
        }
        Ok(NmapResults { hosts, scan_start_time, scan_end_time })
    }

    /// Every port of the scan beside the host it belongs to, hosts and ports
    /// in document order.
    pub fn iter_ports(&self) -> (r: Vec<(&Host, &Port)>)
        ensures
            r@.len() == port_pairs(self.hosts@).len(),
            forall|k: int| 0 <= k < r@.len() ==> (*r@[k].0, *r@[k].1) == #[trigger] port_pairs(self.hosts@)[k],
    {
        let mut results: Vec<(&Host, &Port)> = Vec::new();
        let mut h: usize = 0;
        assert(self.hosts@.subrange(0, 0) =~= Seq::<Host>::empty());
        while h < self.hosts.len()
            invariant
                h <= self.hosts@.len(),
                results@.len() == port_pairs(self.hosts@.subrange(0, h as int)).len(),
                forall|k: int| 0 <= k < results@.len() ==> (*results@[k].0, *results@[k].1)
                    == #[trigger] port_pairs(self.hosts@.subrange(0, h as int))[k],
            decreases self.hosts.len() - h,
        {
            let host = &self.hosts[h];
            let ghost before = port_pairs(self.hosts@.subrange(0, h as int));
            let ghost hs = self.hosts@.subrange(0, h + 1);
            assert(hs.drop_last() =~= self.hosts@.subrange(0, h as int));
            assert(hs.last() == *host);
            let ghost added = host.port_info.ports@.map_values(|p: Port| (*host, p));
            assert(port_pairs(hs) == before + added);
            let mut p: usize = 0;
            while p < host.port_info.ports.len()
                invariant
                    results@.len() == before.len() + p,
                    p <= host.port_info.ports@.len(),
                    added == host.port_info.ports@.map_values(|q: Port| (*host, q)),
                    forall|k: int| 0 <= k < results@.len() ==> (*results@[k].0, *results@[k].1)
                        == #[trigger] (before + added)[k],
                decreases host.port_info.ports.len() - p,
            {
                results.push((host, &host.port_info.ports[p]));
                p = p + 1;
            }
            h = h + 1;
        }
        assert(self.hosts@.subrange(0, self.hosts@.len() as int) =~= self.hosts@);
        results
    }

    /// The hosts of the scan, in document order.
    pub fn hosts(&self) -> (r: &[Host])
        ensures
            r@ == self.hosts@,
    {
        self.hosts.as_slice()
    }
}

/// A well-formed document whose root element is not `nmaprun` is refused
/// as a whole, with the error that names the expected root tag.
pub proof fn lemma_wrong_root_refused(text: Seq<char>)
    requires
        xml_nodes(text) is Some,
        root_element_of(xml_nodes(text)->Some_0) matches Some(r) ==> xml_nodes(text)->Some_0[r].tag != "nmaprun"@,
    ensures
        report_of(text) == Err::<NmapResultsView, ErrorView>(ErrorView::Invalid("expected `nmaprun` root tag"@)),
{
}

} // verus!
