use chatmail_control::config::HealthConfig;
use chatmail_control::health::{
    dkim_record_name, dmarc_record_name, grade_probe, health_probes, health_report, health_warnings,
    mx_health, output_health, port_health, service_check_command, service_health, tls_health,
    tls_probe_command, txt_health, HealthCheck, HealthProbe, ProbeOutcome,
};
use chatmail_control::shell::CommandOutput;

fn out(status: i32, stdout: &str, stderr: &str) -> CommandOutput {
    CommandOutput { status, stdout: stdout.into(), stderr: stderr.into() }
}

#[test]
fn grades_services() {
    let c = service_health("postfix", Ok(out(0, "active", "")));
    assert_eq!((c.name.as_str(), c.status.as_str(), c.details.as_str()), ("service:postfix", "ok", "active"));
    let c = service_health("postfix", Ok(out(3, "", "inactive unit")));
    assert_eq!((c.status.as_str(), c.details.as_str()), ("warn", "inactive unit"));
    let c = service_health("postfix", Ok(out(3, "failed", "x")));
    assert_eq!((c.status.as_str(), c.details.as_str()), ("warn", "failed"));
    let c = service_health("postfix", Err("no systemctl".into()));
    assert_eq!((c.status.as_str(), c.details.as_str()), ("error", "no systemctl"));
    assert_eq!(service_check_command("dovecot"), vec!["systemctl", "is-active", "dovecot"]);
}

#[test]
fn grades_ports_and_dns() {
    let c = port_health(993, Ok(()));
    assert_eq!((c.name.as_str(), c.status.as_str(), c.details.as_str()), ("port:993", "ok", "listening"));
    assert_eq!(port_health(25, Err("refused".into())).status, "warn");
    assert_eq!(mx_health(Ok((2, "[mx]".into()))).details, "[mx]");
    let c = mx_health(Ok((0, String::new())));
    assert_eq!((c.status.as_str(), c.details.as_str()), ("warn", "no MX records"));
    assert_eq!(mx_health(Err("nxdomain".into())).status, "error");
}

#[test]
fn grades_txt_records() {
    let c = txt_health("dns:spf", "v=spf1", Ok(vec!["google-site".into(), "v=spf1 mx -all".into()]));
    assert_eq!((c.name.as_str(), c.status.as_str(), c.details.as_str()), ("dns:spf", "ok", "google-site | v=spf1 mx -all"));
    let c = txt_health("dns:dmarc", "v=DMARC1", Ok(vec!["x v=DMARC1".into()]));
    assert_eq!(c.status, "warn");
    assert_eq!(txt_health("dns:dkim", "v=DKIM1", Err("timeout".into())).status, "error");
    assert_eq!(dmarc_record_name("example.com"), "_dmarc.example.com");
    assert_eq!(dkim_record_name("sel", "example.com"), "sel._domainkey.example.com");
}

#[test]
fn grades_tls_queue_and_disk() {
    assert_eq!(
        tls_probe_command("example.com"),
        vec!["openssl", "s_client", "-connect", "example.com:443", "-servername", "example.com", "-brief"]
    );
    assert_eq!(tls_health(Ok(out(0, "", "Verification: OK"))).status, "ok");
    assert_eq!(tls_health(Ok(out(1, "", "bad"))).status, "warn");
    assert_eq!(tls_health(Err("no openssl".into())).status, "warn");
    let c = output_health("queue", Ok(out(0, "Mail queue is empty", "")));
    assert_eq!((c.status.as_str(), c.details.as_str()), ("ok", "Mail queue is empty"));
    assert_eq!(output_health("disk", Err("no df".into())).status, "warn");
}

#[test]
fn warnings_are_the_checks_not_ok() {
    let checks = vec![
        HealthCheck { name: "a".into(), status: "ok".into(), details: String::new() },
        HealthCheck { name: "b".into(), status: "warn".into(), details: String::new() },
        HealthCheck { name: "c".into(), status: "error".into(), details: String::new() },
    ];
    let names: Vec<String> = health_warnings(checks).into_iter().map(|c| c.name).collect();
    assert_eq!(names, vec!["b", "c"]);
}

fn health_config() -> HealthConfig {
    HealthConfig {
        domain: "example.com".into(),
        dkim_selector: "opendkim".into(),
        services: vec!["postfix".into(), "dovecot".into()],
        ports: vec![25, 587, 993],
    }
}

fn probe_label(p: &HealthProbe) -> String {
    match p {
        HealthProbe::Service(s) => format!("service {s}"),
        HealthProbe::Port(n) => format!("port {n}"),
        HealthProbe::Mx(d) => format!("mx {d}"),
        HealthProbe::Txt { check, record, prefix } => format!("txt {check} {record} {prefix}"),
        HealthProbe::Tls(d) => format!("tls {d}"),
        HealthProbe::Queue => "queue".into(),
        HealthProbe::Disk => "disk".into(),
    }
}

#[test]
fn plans_probes_in_page_order() {
    let probes = health_probes(&health_config());
    let labels: Vec<String> = probes.iter().map(probe_label).collect();
    assert_eq!(
        labels,
        vec![
            "service postfix",
            "service dovecot",
            "port 25",
            "port 587",
            "port 993",
            "mx example.com",
            "txt dns:spf example.com v=spf1",
            "txt dns:dmarc _dmarc.example.com v=DMARC1",
            "txt dns:dkim opendkim._domainkey.example.com v=DKIM1",
            "tls example.com",
            "queue",
            "disk",
        ]
    );
    assert_eq!(
        probes[0].command().unwrap(),
        vec!["systemctl", "is-active", "postfix"]
    );
    assert_eq!(probes[9].command().unwrap()[3], "example.com:443");
    assert_eq!(probes[10].command().unwrap(), vec!["postqueue", "-p"]);
    assert_eq!(probes[11].command().unwrap(), vec!["df", "-h"]);
    assert!(probes[2].command().is_none());
    assert!(probes[5].command().is_none());
}

#[test]
fn reports_one_row_per_probe() {
    let config = HealthConfig {
        domain: "example.com".into(),
        dkim_selector: "dkim".into(),
        services: vec!["postfix".into()],
        ports: vec![25],
    };
    let probes = health_probes(&config);
    let outcomes = vec![
        ProbeOutcome::Ran(Ok(out(0, "active", ""))),
        ProbeOutcome::Connected(Err("refused".into())),
        ProbeOutcome::MxRecords(Ok((0, String::new()))),
        ProbeOutcome::TxtRecords(Ok(vec!["v=spf1 -all".into()])),
        ProbeOutcome::TxtRecords(Ok(vec!["nothing".into()])),
        ProbeOutcome::TxtRecords(Err("NXDOMAIN".into())),
        ProbeOutcome::Ran(Err("openssl missing".into())),
        ProbeOutcome::Ran(Err("postqueue missing".into())),
        ProbeOutcome::Ran(Ok(out(0, "/dev/sda1 10G", ""))),
    ];
    let rows = health_report(&probes, outcomes);
    let seen: Vec<(String, String)> = rows.iter().map(|c| (c.name.clone(), c.status.clone())).collect();
    let expected: Vec<(String, String)> = vec![
        ("service:postfix", "ok"),
        ("port:25", "warn"),
        ("dns:mx", "warn"),
        ("dns:spf", "ok"),
        ("dns:dmarc", "warn"),
        ("dns:dkim", "error"),
        ("tls:cert", "warn"),
        ("queue", "warn"),
        ("disk", "ok"),
    ]
    .into_iter()
    .map(|(a, b)| (a.to_string(), b.to_string()))
    .collect();
    assert_eq!(seen, expected);
    assert_eq!(rows[6].details, "openssl missing");
    assert_eq!(rows[8].details, "/dev/sda1 10G");
}

#[test]
fn grades_a_single_probe() {
    let c = grade_probe(&HealthProbe::Port(993), ProbeOutcome::Connected(Ok(())));
    assert_eq!((c.name.as_str(), c.status.as_str(), c.details.as_str()), ("port:993", "ok", "listening"));
}
