//! Service states for the dashboard, the mail queue count, and service
//! actions.
use vstd::prelude::*;

use crate::chatmail::systemctl_command;
use crate::shell::CommandOutput;
use crate::text::{
    contains_str, has_sub, lines_of, lines_str, str_eq, trim, trim_str, views,
};

verus! {

#[derive(Debug, Clone)]
pub struct ServiceStatus {
    pub name: String,
    pub active: bool,
    pub details: String,
}

#[derive(Debug, Clone)]
pub struct DashboardStats {
    pub services: Vec<ServiceStatus>,
    pub mail_queue_size: usize,
    pub users_count: usize,
    pub active_bans_count: i64,
}

#[derive(Debug, Clone)]
pub struct ServiceActionResult {
    pub service: String,
    pub action: String,
    pub status: i32,
    pub stdout: String,
    pub stderr: String,
}

/// A service's state from `systemctl is-active`: active when it reports
/// `active`; the details are what it printed (its error output when it
/// printed nothing else), or the error when the command could not run.
pub fn service_status_from(name: &str, outcome: Result<CommandOutput, String>) -> (r: ServiceStatus)
    ensures
        r.name@ == name@,
        outcome matches Ok(o) ==> r.active == (trim(o.stdout@) == "active"@) && r.details@ == (if o.stdout@.len()
            == 0 {
            o.stderr@
        } else {
            o.stdout@
        }),
        outcome matches Err(e) ==> !r.active && r.details@ == e@,
{
    match outcome {
        Ok(o) => {
            let t = trim_str(o.stdout.as_str());
            let active = t == "active".to_owned();
            let details = if o.stdout.as_str().is_empty() {
                o.stderr
            } else {
                o.stdout
            };
            ServiceStatus { name: name.to_owned(), active, details }
        },
        Err(e) => ServiceStatus { name: name.to_owned(), active: false, details: e },
    }
}

/// A line of `postqueue -p` that counts: not blank and not the empty-queue
/// notice.
pub open spec fn is_queue_line(l: Seq<char>) -> bool {
    trim(l).len() > 0 && !has_sub(l, "Mail queue is empty"@)
}

pub open spec fn count_queue_lines(ls: Seq<Seq<char>>) -> nat
    decreases ls.len(),
{
    if ls.len() == 0 {
        0
    } else {
        count_queue_lines(ls.drop_last()) + if is_queue_line(ls.last()) {
            1nat
        } else {
            0nat
        }
    }
}

/// The number of queued mails from the output of `postqueue -p`: the lines
/// that count, less the header line (none when no line counts).
pub open spec fn queue_size(stdout: Seq<char>) -> nat {
    let n = count_queue_lines(lines_of(stdout));
    if n == 0 {
        0
    } else {
        (n - 1) as nat
    }
}

proof fn lemma_count_is_filter(ls: Seq<Seq<char>>, pred: spec_fn(Seq<char>) -> bool)
    requires
        forall|l: Seq<char>| #[trigger] pred(l) == is_queue_line(l),
    ensures
        count_queue_lines(ls) == ls.filter(pred).len(),
    decreases ls.len(),
{
    reveal_with_fuel(Seq::filter, 1);
    if ls.len() > 0 {
        lemma_count_is_filter(ls.drop_last(), pred);
    }
}

/// The queue size that `postqueue -p` shows: every printed line that is not
/// blank and is not the empty-queue notice counts, indented recipient lines
/// among them, and the header line is taken off (never below zero).
pub proof fn lemma_queue_size_counts_lines(stdout: Seq<char>)
    ensures
        ({
            let counted = lines_of(stdout).filter(
                |l: Seq<char>| trim(l).len() > 0 && !has_sub(l, "Mail queue is empty"@),
            ).len();
            queue_size(stdout) == if counted == 0 {
                0
            } else {
                counted - 1
            }
        }),
{
    let pred = |l: Seq<char>| trim(l).len() > 0 && !has_sub(l, "Mail queue is empty"@);
    lemma_count_is_filter(lines_of(stdout), pred);
}

pub fn mail_queue_size(stdout: &str) -> (r: usize)
    ensures
        r == queue_size(stdout@),
{
    let ls = lines_str(stdout);
    let mut n: usize = 0;
    let mut i: usize = 0;
    while i < ls.len()
        invariant
            i <= ls.len(),
            views(ls@) == lines_of(stdout@),
            n == count_queue_lines(views(ls@).take(i as int)),
            n <= i,
        decreases ls.len() - i,
    {
        let t = trim_str(ls[i].as_str());
        let ghost cur = views(ls@).take(i + 1);
        assert(cur.drop_last() =~= views(ls@).take(i as int));
        assert(cur.last() == ls@[i as int]@);
        if !t.as_str().is_empty() && !contains_str(ls[i].as_str(), "Mail queue is empty") {
            n = n + 1;
        }
        i = i + 1;
    }
    assert(views(ls@).take(ls.len() as int) =~= views(ls@));
    if n == 0 {
        0
    } else {
        n - 1
    }
}

/// The systemctl command of a service action: `status`, `restart` and
/// `reload` run as asked, anything else runs `status`.
pub fn service_action_command(service: &str, action: &str) -> (r: Vec<String>)
    ensures
        views(r@) == seq![
            "systemctl"@,
            if action@ == "restart"@ || action@ == "reload"@ {
                action@
            } else {
                "status"@
            },
            service@,
        ],
{
    if str_eq(action, "restart") {
        systemctl_command("restart", service)
    } else if str_eq(action, "reload") {
        systemctl_command("reload", service)
    } else {
        systemctl_command("status", service)
    }
}

/// The result shown for a service action that ran.
pub fn service_action_result(service: &str, action: &str, output: CommandOutput) -> (r:
    ServiceActionResult)
    ensures
        r.service@ == service@,
        r.action@ == action@,
        r.status == output.status,
        r.stdout@ == output.stdout@,
        r.stderr@ == output.stderr@,
{
    ServiceActionResult {
        service: service.to_owned(),
        action: action.to_owned(),
        status: output.status,
        stdout: output.stdout,
        stderr: output.stderr,
    }
}


/// The dashboard numbers: the service states, the queue size read from
/// what `postqueue -p` printed (nothing when it could not run), the user
/// count and the active ban count (`collect_dashboard_stats` once the
/// commands and the query have run).
pub fn dashboard_stats(
    services: Vec<ServiceStatus>,
    queue_output: Option<String>,
    users_count: usize,
    active_bans_count: i64,
) -> (r: DashboardStats)
    ensures
        r.services@ == services@,
        r.mail_queue_size == (match queue_output {
            Some(o) => queue_size(o@),
            None => 0,
        }),
        r.users_count == users_count,
        r.active_bans_count == active_bans_count,
{
    let mail_queue_size = match &queue_output {
        Some(o) => mail_queue_size(o.as_str()),
        None => 0,
    };
    DashboardStats { services, mail_queue_size, users_count, active_bans_count }
}

} // verus!
