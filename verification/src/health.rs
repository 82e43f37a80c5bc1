//! The health page: what each check runs and how its outcome is graded.
use vstd::prelude::*;

use crate::config::HealthConfig;
use crate::number::{dec_nat, format_u64};
use crate::shell::CommandOutput;
use crate::text::{join, join_strings, starts_with, starts_with_str, trim, trim_str, views};

verus! {

/// One row of the health page: what was checked, `ok`/`warn`/`error`, and
/// what was seen.
#[derive(Debug, Clone)]
pub struct HealthCheck {
    pub name: String,
    pub status: String,
    pub details: String,
}

pub open spec fn check_is(c: HealthCheck, name: Seq<char>, status: Seq<char>, details: Seq<char>) -> bool {
    c.name@ == name && c.status@ == status && c.details@ == details
}

/// A check's name, status and details.
pub open spec fn verdict_of(c: HealthCheck) -> (Seq<char>, Seq<char>, Seq<char>) {
    (c.name@, c.status@, c.details@)
}

/// How a service check is graded.
pub open spec fn service_verdict(service: Seq<char>, outcome: Result<CommandOutput, String>) -> (
    Seq<char>,
    Seq<char>,
    Seq<char>,
) {
    let name = "service:"@ + service;
    match outcome {
        Ok(o) => if trim(o.stdout@) == "active"@ {
            (name, "ok"@, o.stdout@)
        } else if o.stdout@.len() == 0 {
            (name, "warn"@, o.stderr@)
        } else {
            (name, "warn"@, o.stdout@)
        },
        Err(e) => (name, "error"@, e@),
    }
}

/// How a port check is graded.
pub open spec fn port_verdict(port: u16, outcome: Result<(), String>) -> (Seq<char>, Seq<char>, Seq<char>) {
    let name = "port:"@ + dec_nat(port as nat);
    match outcome {
        Ok(_) => (name, "ok"@, "listening"@),
        Err(e) => (name, "warn"@, e@),
    }
}

/// How the MX lookup is graded, from the number of records and their
/// printed form.
pub open spec fn mx_verdict(outcome: Result<(usize, String), String>) -> (Seq<char>, Seq<char>, Seq<char>) {
    match outcome {
        Ok(p) => if p.0 > 0 {
            ("dns:mx"@, "ok"@, p.1@)
        } else {
            ("dns:mx"@, "warn"@, "no MX records"@)
        },
        Err(e) => ("dns:mx"@, "error"@, e@),
    }
}

/// How a TXT lookup is graded.
pub open spec fn txt_verdict(check: Seq<char>, prefix: Seq<char>, outcome: Result<Vec<String>, String>) -> (
    Seq<char>,
    Seq<char>,
    Seq<char>,
) {
    match outcome {
        Ok(rs) => (
            check,
            if any_starts_with(views(rs@), prefix) {
                "ok"@
            } else {
                "warn"@
            },
            join(views(rs@), " | "@),
        ),
        Err(e) => (check, "error"@, e@),
    }
}

/// How the TLS probe is graded.
pub open spec fn tls_verdict(outcome: Result<CommandOutput, String>) -> (Seq<char>, Seq<char>, Seq<char>) {
    match outcome {
        Ok(o) => ("tls:cert"@, if o.status == 0 {
            "ok"@
        } else {
            "warn"@
        }, o.stderr@),
        Err(e) => ("tls:cert"@, "warn"@, e@),
    }
}

/// How a command whose output is shown as is gets graded.
pub open spec fn output_verdict(name: Seq<char>, outcome: Result<CommandOutput, String>) -> (
    Seq<char>,
    Seq<char>,
    Seq<char>,
) {
    match outcome {
        Ok(o) => (name, "ok"@, o.stdout@),
        Err(e) => (name, "warn"@, e@),
    }
}

fn make_check(name: String, status: &str, details: String) -> (c: HealthCheck)
    ensures
        check_is(c, name@, status@, details@),
{
    HealthCheck { name, status: status.to_owned(), details }
}

fn prefixed(prefix: &str, s: &str) -> (r: String)
    ensures
        r@ == prefix@ + s@,
{
    let mut r = prefix.to_owned();
    r.append(s);
    r
}

/// `systemctl is-active <service>`.
pub fn service_check_command(service: &str) -> (r: Vec<String>)
    ensures
        views(r@) == seq!["systemctl"@, "is-active"@, service@],
{
    let r = vec!["systemctl".to_owned(), "is-active".to_owned(), service.to_owned()];
    assert(views(r@) =~= seq!["systemctl"@, "is-active"@, service@]);
    r
}

/// A service is `ok` when it reports `active`; otherwise a warning with
/// what it printed (its error output when it printed nothing else); an
/// error when the command could not run.
pub fn service_health(service: &str, outcome: Result<CommandOutput, String>) -> (c: HealthCheck)
    ensures
        verdict_of(c) == service_verdict(service@, outcome),
{
    let name = prefixed("service:", service);
    match outcome {
        Ok(o) => {
            let t = trim_str(o.stdout.as_str());
            if t == "active".to_owned() {
                make_check(name, "ok", o.stdout)
            } else if o.stdout.as_str().is_empty() {
                make_check(name, "warn", o.stderr)
            } else {
                make_check(name, "warn", o.stdout)
            }
        },
        Err(e) => make_check(name, "error", e),
    }
}

/// A port is `ok` when a local connection to it succeeds, a warning with
/// the error otherwise.
pub fn port_health(port: u16, outcome: Result<(), String>) -> (c: HealthCheck)
    ensures
        verdict_of(c) == port_verdict(port, outcome),
{
    let num = format_u64(port as u64);
    let name = prefixed("port:", num.as_str());
    match outcome {
        Ok(()) => make_check(name, "ok", "listening".to_owned()),
        Err(e) => make_check(name, "warn", e),
    }
}

/// The MX lookup: `ok` with the records when there is at least one, a
/// warning when there are none, an error when the lookup failed. The
/// outcome is the number of records and their printed form.
pub fn mx_health(outcome: Result<(usize, String), String>) -> (c: HealthCheck)
    ensures
        verdict_of(c) == mx_verdict(outcome),
{
    match outcome {
        Ok((count, text)) => {
            if count > 0 {
                make_check("dns:mx".to_owned(), "ok", text)
            } else {
                make_check("dns:mx".to_owned(), "warn", "no MX records".to_owned())
            }
        },
        Err(e) => make_check("dns:mx".to_owned(), "error", e),
    }
}

/// Some TXT string starts with the expected prefix.
pub open spec fn any_starts_with(records: Seq<Seq<char>>, prefix: Seq<char>) -> bool {
    exists|i: int| 0 <= i < records.len() && starts_with(records[i], prefix)
}

/// A TXT lookup (`txt_record_check`): `ok` when one of the strings starts
/// with the expected prefix, a warning otherwise, both showing the strings
/// joined by ` | `; an error when the lookup failed.
pub fn txt_health(check_name: &str, expected_prefix: &str, outcome: Result<Vec<String>, String>) -> (c:
    HealthCheck)
    ensures
        verdict_of(c) == txt_verdict(check_name@, expected_prefix@, outcome),
{
    match outcome {
        Ok(records) => {
            let mut found = false;
            let mut i: usize = 0;
            while i < records.len()
                invariant
                    i <= records.len(),
                    found <==> exists|k: int|
                        0 <= k < i && starts_with(views(records@)[k], expected_prefix@),
                decreases records.len() - i,
            {
                if starts_with_str(records[i].as_str(), expected_prefix) {
                    assert(starts_with(views(records@)[i as int], expected_prefix@));
                    found = true;
                }
                i = i + 1;
            }
            let details = join_strings(records.as_slice(), " | ");
            if found {
                make_check(check_name.to_owned(), "ok", details)
            } else {
                make_check(check_name.to_owned(), "warn", details)
            }
        },
        Err(e) => make_check(check_name.to_owned(), "error", e),
    }
}

/// The DMARC record's name: `_dmarc.<domain>`.
pub fn dmarc_record_name(domain: &str) -> (r: String)
    ensures
        r@ == "_dmarc."@ + domain@,
{
    prefixed("_dmarc.", domain)
}

/// The DKIM record's name: `<selector>._domainkey.<domain>`.
pub fn dkim_record_name(selector: &str, domain: &str) -> (r: String)
    ensures
        r@ == selector@ + "._domainkey."@ + domain@,
{
    let mut r = selector.to_owned();
    r.append("._domainkey.");
    r.append(domain);
    r
}

/// `openssl s_client -connect <domain>:443 -servername <domain> -brief`.
pub fn tls_probe_command(domain: &str) -> (r: Vec<String>)
    ensures
        views(r@) == seq![
            "openssl"@,
            "s_client"@,
            "-connect"@,
            domain@ + ":443"@,
            "-servername"@,
            domain@,
            "-brief"@,
        ],
{
    let mut target = domain.to_owned();
    target.append(":443");
    let r = vec![
        "openssl".to_owned(),
        "s_client".to_owned(),
        "-connect".to_owned(),
        target,
        "-servername".to_owned(),
        domain.to_owned(),
        "-brief".to_owned(),
    ];
    assert(views(r@) =~= seq![
        "openssl"@,
        "s_client"@,
        "-connect"@,
        domain@ + ":443"@,
        "-servername"@,
        domain@,
        "-brief"@,
    ]);
    r
}

/// The TLS probe: `ok` when it exits with 0, a warning otherwise; the
/// details are what it printed on its error output, or the error.
pub fn tls_health(outcome: Result<CommandOutput, String>) -> (c: HealthCheck)
    ensures
        verdict_of(c) == tls_verdict(outcome),
{
    match outcome {
        Ok(o) => {
            if o.status == 0 {
                make_check("tls:cert".to_owned(), "ok", o.stderr)
            } else {
                make_check("tls:cert".to_owned(), "warn", o.stderr)
            }
        },
        Err(e) => make_check("tls:cert".to_owned(), "warn", e),
    }
}

/// `postqueue -p`.
pub fn queue_command() -> (r: Vec<String>)
    ensures
        views(r@) == seq!["postqueue"@, "-p"@],
{
    let r = vec!["postqueue".to_owned(), "-p".to_owned()];
    assert(views(r@) =~= seq!["postqueue"@, "-p"@]);
    r
}

/// `df -h`.
pub fn disk_command() -> (r: Vec<String>)
    ensures
        views(r@) == seq!["df"@, "-h"@],
{
    let r = vec!["df".to_owned(), "-h".to_owned()];
    assert(views(r@) =~= seq!["df"@, "-h"@]);
    r
}

/// A command whose output is shown as is: `ok` with what it printed when it
/// ran, a warning with the error when it could not.
pub fn output_health(name: &str, outcome: Result<CommandOutput, String>) -> (c: HealthCheck)
    ensures
        verdict_of(c) == output_verdict(name@, outcome),
{
    match outcome {
        Ok(o) => make_check(name.to_owned(), "ok", o.stdout),
        Err(e) => make_check(name.to_owned(), "warn", e),
    }
}

/// One probe of the health page, in the order the page lists them.
#[derive(Debug, Clone)]
pub enum HealthProbe {
    /// Whether a systemd service is active.
    Service(String),
    /// Whether something listens on a local port.
    Port(u16),
    /// The MX records of the domain.
    Mx(String),
    /// The TXT records under `record`, one of which must start with
    /// `prefix`; the row is named `check`.
    Txt { check: String, record: String, prefix: String },
    /// The TLS certificate served for the domain on port 443.
    Tls(String),
    /// The mail queue.
    Queue,
    /// The disk usage.
    Disk,
}

/// A probe as plain values.
pub enum ProbeView {
    Service(Seq<char>),
    Port(u16),
    Mx(Seq<char>),
    Txt { check: Seq<char>, record: Seq<char>, prefix: Seq<char> },
    Tls(Seq<char>),
    Queue,
    Disk,
}

impl View for HealthProbe {
    type V = ProbeView;

    open spec fn view(&self) -> ProbeView {
        match self {
            HealthProbe::Service(s) => ProbeView::Service(s@),
            HealthProbe::Port(p) => ProbeView::Port(*p),
            HealthProbe::Mx(d) => ProbeView::Mx(d@),
            HealthProbe::Txt { check, record, prefix } => ProbeView::Txt {
                check: check@,
                record: record@,
                prefix: prefix@,
            },
            HealthProbe::Tls(d) => ProbeView::Tls(d@),
            HealthProbe::Queue => ProbeView::Queue,
            HealthProbe::Disk => ProbeView::Disk,
        }
    }
}

pub open spec fn probe_views(v: Seq<HealthProbe>) -> Seq<ProbeView> {
    Seq::new(v.len(), |i: int| v[i]@)
}

/// The probes of the health page: each configured service, each configured
/// port, the MX records, the SPF, DMARC and DKIM records, the TLS
/// certificate, the mail queue and the disk.
pub open spec fn planned_probes(
    domain: Seq<char>,
    selector: Seq<char>,
    services: Seq<Seq<char>>,
    ports: Seq<u16>,
) -> Seq<ProbeView> {
    Seq::new(services.len(), |i: int| ProbeView::Service(services[i])) + Seq::new(
        ports.len(),
        |i: int| ProbeView::Port(ports[i]),
    ) + seq![
        ProbeView::Mx(domain),
        ProbeView::Txt { check: "dns:spf"@, record: domain, prefix: "v=spf1"@ },
        ProbeView::Txt { check: "dns:dmarc"@, record: "_dmarc."@ + domain, prefix: "v=DMARC1"@ },
        ProbeView::Txt {
            check: "dns:dkim"@,
            record: selector + "._domainkey."@ + domain,
            prefix: "v=DKIM1"@,
        },
        ProbeView::Tls(domain),
        ProbeView::Queue,
        ProbeView::Disk,
    ]
}

fn txt_probe(check: &str, record: String, prefix: &str) -> (p: HealthProbe)
    ensures
        p@ == (ProbeView::Txt { check: check@, record: record@, prefix: prefix@ }),
{
    HealthProbe::Txt { check: check.to_owned(), record, prefix: prefix.to_owned() }
}

/// The probes that the health page runs for a configuration, in order.
pub fn health_probes(config: &HealthConfig) -> (r: Vec<HealthProbe>)
    ensures
        probe_views(r@) == planned_probes(
            config.domain@,
            config.dkim_selector@,
            views(config.services@),
            config.ports@,
        ),
{
    let ghost planned = planned_probes(
        config.domain@,
        config.dkim_selector@,
        views(config.services@),
        config.ports@,
    );
    let ns = config.services.len();
    let np = config.ports.len();
    assert(planned.len() == ns + np + 7);
    let mut r: Vec<HealthProbe> = Vec::new();
    let mut i: usize = 0;
    while i < ns
        invariant
            i <= ns,
            ns == config.services@.len(),
            np == config.ports@.len(),
            planned == planned_probes(
                config.domain@,
                config.dkim_selector@,
                views(config.services@),
                config.ports@,
            ),
            planned.len() == ns + np + 7,
            r@.len() == i,
            probe_views(r@) =~= planned.take(i as int),
        decreases ns - i,
    {
        let ghost old_r = r@;
        r.push(HealthProbe::Service(config.services[i].clone()));
        assert(planned[i as int] == ProbeView::Service(views(config.services@)[i as int]));
        i = i + 1;
        assert(probe_views(r@) =~= planned.take(i as int)) by {
            assert forall|k: int| 0 <= k < i implies probe_views(r@)[k] == planned.take(i as int)[k] by {
                if k < i - 1 {
                    assert(probe_views(old_r)[k] == planned.take(i - 1)[k]);
                }
            }
        }
    }
    let mut j: usize = 0;
    while j < np
        invariant
            j <= np,
            ns == config.services@.len(),
            np == config.ports@.len(),
            planned == planned_probes(
                config.domain@,
                config.dkim_selector@,
                views(config.services@),
                config.ports@,
            ),
            planned.len() == ns + np + 7,
            r@.len() == ns + j,
            probe_views(r@) =~= planned.take(ns + j),
        decreases np - j,
    {
        let ghost old_r = r@;
        r.push(HealthProbe::Port(config.ports[j]));
        assert(planned[ns + j] == ProbeView::Port(config.ports@[j as int]));
        j = j + 1;
        assert(probe_views(r@) =~= planned.take(ns + j)) by {
            assert forall|k: int| 0 <= k < ns + j implies probe_views(r@)[k] == planned.take(ns + j)[k] by {
                if k < ns + j - 1 {
                    assert(probe_views(old_r)[k] == planned.take(ns + j - 1)[k]);
                }
            }
        }
    }
    let domain = config.domain.as_str();
    r.push(HealthProbe::Mx(domain.to_owned()));
    r.push(txt_probe("dns:spf", domain.to_owned(), "v=spf1"));
    r.push(txt_probe("dns:dmarc", dmarc_record_name(domain), "v=DMARC1"));
    r.push(txt_probe("dns:dkim", dkim_record_name(config.dkim_selector.as_str(), domain), "v=DKIM1"));
    r.push(HealthProbe::Tls(domain.to_owned()));
    r.push(HealthProbe::Queue);
    r.push(HealthProbe::Disk);
    assert(probe_views(r@) =~= planned) by {
        assert forall|k: int| 0 <= k < planned.len() implies probe_views(r@)[k] == planned[k] by {
            if k < ns + np {
                assert(probe_views(r@)[k] == planned.take(ns + np)[k]);
            }
        }
    }
    r
}

/// What a probe found: the outcome of a command, of a connection, of an MX
/// lookup (the number of records and their printed form) or of a TXT
/// lookup (the record strings).
pub enum ProbeOutcome {
    Ran(Result<CommandOutput, String>),
    Connected(Result<(), String>),
    MxRecords(Result<(usize, String), String>),
    TxtRecords(Result<Vec<String>, String>),
}

/// The outcome is of the kind that the probe gives.
pub open spec fn fits(p: ProbeView, o: ProbeOutcome) -> bool {
    match p {
        ProbeView::Port(_) => o is Connected,
        ProbeView::Mx(_) => o is MxRecords,
        ProbeView::Txt { .. } => o is TxtRecords,
        _ => o is Ran,
    }
}

/// How a probe's outcome is graded.
pub open spec fn probe_verdict(p: ProbeView, o: ProbeOutcome) -> (Seq<char>, Seq<char>, Seq<char>) {
    match (p, o) {
        (ProbeView::Service(s), ProbeOutcome::Ran(r)) => service_verdict(s, r),
        (ProbeView::Port(n), ProbeOutcome::Connected(r)) => port_verdict(n, r),
        (ProbeView::Mx(_), ProbeOutcome::MxRecords(r)) => mx_verdict(r),
        (ProbeView::Txt { check, prefix, .. }, ProbeOutcome::TxtRecords(r)) => txt_verdict(
            check,
            prefix,
            r,
        ),
        (ProbeView::Tls(_), ProbeOutcome::Ran(r)) => tls_verdict(r),
        (ProbeView::Queue, ProbeOutcome::Ran(r)) => output_verdict("queue"@, r),
        (ProbeView::Disk, ProbeOutcome::Ran(r)) => output_verdict("disk"@, r),
        _ => (Seq::empty(), Seq::empty(), Seq::empty()),
    }
}

impl HealthProbe {
    /// The host command that the probe runs, for those that run one.
    pub fn command(&self) -> (r: Option<Vec<String>>)
        ensures
            match self@ {
                ProbeView::Service(s) => r matches Some(v) && views(v@) == seq![
                    "systemctl"@,
                    "is-active"@,
                    s,
                ],
                ProbeView::Tls(d) => r matches Some(v) && views(v@) == seq![
                    "openssl"@,
                    "s_client"@,
                    "-connect"@,
                    d + ":443"@,
                    "-servername"@,
                    d,
                    "-brief"@,
                ],
                ProbeView::Queue => r matches Some(v) && views(v@) == seq!["postqueue"@, "-p"@],
                ProbeView::Disk => r matches Some(v) && views(v@) == seq!["df"@, "-h"@],
                _ => r is None,
            },
    {
        match self {
            HealthProbe::Service(s) => Some(service_check_command(s.as_str())),
            HealthProbe::Tls(d) => Some(tls_probe_command(d.as_str())),
            HealthProbe::Queue => Some(queue_command()),
            HealthProbe::Disk => Some(disk_command()),
            _ => None,
        }
    }
}

/// The row of the health page for a probe and what it found.
pub fn grade_probe(probe: &HealthProbe, outcome: ProbeOutcome) -> (c: HealthCheck)
    requires
        fits(probe@, outcome),
    ensures
        verdict_of(c) == probe_verdict(probe@, outcome),
{
    match (probe, outcome) {
        (HealthProbe::Service(s), ProbeOutcome::Ran(r)) => service_health(s.as_str(), r),
        (HealthProbe::Port(n), ProbeOutcome::Connected(r)) => port_health(*n, r),
        (HealthProbe::Mx(_), ProbeOutcome::MxRecords(r)) => mx_health(r),
        (HealthProbe::Txt { check, prefix, .. }, ProbeOutcome::TxtRecords(r)) => txt_health(
            check.as_str(),
            prefix.as_str(),
            r,
        ),
        (HealthProbe::Tls(_), ProbeOutcome::Ran(r)) => tls_health(r),
        (HealthProbe::Queue, ProbeOutcome::Ran(r)) => output_health("queue", r),
        (HealthProbe::Disk, ProbeOutcome::Ran(r)) => output_health("disk", r),
        _ => unreached(),
    }
}

/// The health page (`run_health_checks`): one row per probe, in order, each
/// graded from what its probe found.
pub fn health_report(probes: &Vec<HealthProbe>, outcomes: Vec<ProbeOutcome>) -> (r: Vec<HealthCheck>)
    requires
        outcomes@.len() == probes@.len(),
        forall|i: int| 0 <= i < probes@.len() ==> fits(#[trigger] probes@[i]@, outcomes@[i]),
    ensures
        r@.len() == probes@.len(),
        forall|i: int|
            0 <= i < probes@.len() ==> verdict_of(#[trigger] r@[i]) == probe_verdict(
                probes@[i]@,
                outcomes@[i],
            ),
{
    let ghost found = outcomes@;
    let mut rest = outcomes;
    let mut r: Vec<HealthCheck> = Vec::new();
    let mut i: usize = 0;
    assert(found.skip(0) =~= found);
    while i < probes.len()
        invariant
            i <= probes@.len(),
            found.len() == probes@.len(),
            rest@ == found.skip(i as int),
            r@.len() == i,
            forall|k: int| 0 <= k < probes@.len() ==> fits(#[trigger] probes@[k]@, found[k]),
            forall|k: int|
                0 <= k < i ==> verdict_of(#[trigger] r@[k]) == probe_verdict(probes@[k]@, found[k]),
        decreases probes.len() - i,
    {
        let o = rest.remove(0);
        assert(o == found[i as int]);
        assert(fits(probes@[i as int]@, found[i as int]));
        let c = grade_probe(&probes[i], o);
        r.push(c);
        i = i + 1;
        assert(rest@ =~= found.skip(i as int));
    }
    r
}

/// The MX check passes as soon as the lookup found a record, one being
/// enough, and then shows the records; only an empty answer is a warning,
/// and a failed lookup an error.
pub proof fn lemma_mx_ok_with_any_record(n: usize, text: String, e: String)
    ensures
        n >= 1 ==> mx_verdict(Ok((n, text))) == ("dns:mx"@, "ok"@, text@),
        n == 0 ==> mx_verdict(Ok((n, text))) == ("dns:mx"@, "warn"@, "no MX records"@),
        mx_verdict(Err(e)) == ("dns:mx"@, "error"@, e@),
{
}

/// The probe itself failed: the command could not run, the connection or
/// the lookup failed.
pub open spec fn probe_failed(o: ProbeOutcome) -> bool {
    match o {
        ProbeOutcome::Ran(r) => r is Err,
        ProbeOutcome::Connected(r) => r is Err,
        ProbeOutcome::MxRecords(r) => r is Err,
        ProbeOutcome::TxtRecords(r) => r is Err,
    }
}

/// When a tool of a probe is unavailable, its row is still there, as a
/// warning or an error; a missing TLS, queue or disk tool is a warning.
pub proof fn lemma_failed_probe_flagged(p: ProbeView, o: ProbeOutcome)
    requires
        fits(p, o),
        probe_failed(o),
    ensures
        probe_verdict(p, o).1 == "warn"@ || probe_verdict(p, o).1 == "error"@,
        (p is Tls || p is Queue || p is Disk) ==> probe_verdict(p, o).1 == "warn"@,
{
}

/// The checks that the dashboard lists as warnings: those not `ok`, in
/// order.
pub open spec fn not_ok(checks: Seq<HealthCheck>) -> Seq<HealthCheck>
    decreases checks.len(),
{
    if checks.len() == 0 {
        checks
    } else {
        let rest = not_ok(checks.drop_last());
        if checks.last().status@ != "ok"@ {
            rest.push(checks.last())
        } else {
            rest
        }
    }
}

pub fn health_warnings(checks: Vec<HealthCheck>) -> (r: Vec<HealthCheck>)
    ensures
        r@ == not_ok(checks@),
{
    let ghost orig = checks@;
    let n = checks.len();
    let mut rest = checks;
    let mut r: Vec<HealthCheck> = Vec::new();
    let mut i: usize = 0;
    assert(orig.skip(0) =~= orig);
    while rest.len() > 0
        invariant
            i <= orig.len(),
            orig.len() == n,
            rest@ == orig.skip(i as int),
            rest@.len() + i == orig.len(),
            r@ == not_ok(orig.take(i as int)),
        decreases rest.len(),
    {
        let c = rest.remove(0);
        assert(c == orig[i as int]);
        assert(orig.take(i + 1).drop_last() =~= orig.take(i as int));
        if c.status != "ok".to_owned() {
            r.push(c);
        }
        i = i + 1;
        assert(rest@ =~= orig.skip(i as int));
    }
    assert(orig.take(i as int) =~= orig);
    r
}

} // verus!
