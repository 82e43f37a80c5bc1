//! The host commands that the panel runs against a chatmail deployment, and
//! the journal sources it can show.
use vstd::prelude::*;

use crate::text::{str_eq, views};

verus! {

/// A journal source that the logs page can show.
#[derive(Debug, Clone, Copy)]
pub struct LogSource {
    pub name: &'static str,
    pub unit: &'static str,
}

/// The time limit of every host command, in seconds.
pub const COMMAND_TIMEOUT_SECONDS: u64 = 10;

/// The sources of the logs page, by name and systemd unit; the first one is
/// shown when nothing else is asked for.
pub open spec fn log_source_names() -> Seq<Seq<char>> {
    seq![
        "dovecot"@,
        "postfix"@,
        "doveauth"@,
        "chatmail-metadata"@,
        "chatmail-expire"@,
        "lastlogin"@,
    ]
}

pub open spec fn is_listed_source(s: LogSource, i: int) -> bool {
    s.name@ == log_source_names()[i] && s.unit@ == log_source_names()[i]
}

/// The journal sources of the logs page (`LOG_SOURCES`), each named after
/// its unit.
pub fn log_sources() -> (r: Vec<LogSource>)
    ensures
        r@.len() == log_source_names().len(),
        forall|i: int| 0 <= i < r@.len() ==> is_listed_source(#[trigger] r@[i], i),
{
    let r = vec![
        LogSource { name: "dovecot", unit: "dovecot" },
        LogSource { name: "postfix", unit: "postfix" },
        LogSource { name: "doveauth", unit: "doveauth" },
        LogSource { name: "chatmail-metadata", unit: "chatmail-metadata" },
        LogSource { name: "chatmail-expire", unit: "chatmail-expire" },
        LogSource { name: "lastlogin", unit: "lastlogin" },
    ];
    assert forall|i: int| 0 <= i < r@.len() implies is_listed_source(#[trigger] r@[i], i) by {
        if i == 0 {
        } else if i == 1 {
        } else if i == 2 {
        } else if i == 3 {
        } else if i == 4 {
        } else {
        }
    }
    r
}

pub open spec fn selected_source_name(name: Option<&str>) -> Seq<char> {
    match name {
        Some(n) => if log_source_names().contains(n@) {
            n@
        } else {
            "dovecot"@
        },
        None => "dovecot"@,
    }
}

/// The source with the asked name, or the first source when no name is
/// given or none has it.
pub fn log_source_by_name(name: Option<&str>) -> (r: LogSource)
    ensures
        r.name@ == selected_source_name(name),
        r.unit@ == selected_source_name(name),
{
    let sources = log_sources();
    if let Some(n) = name {
        let mut i: usize = 0;
        while i < sources.len()
            invariant
                i <= sources.len(),
                name == Some(n),
                sources@.len() == log_source_names().len(),
                forall|k: int| 0 <= k < sources@.len() ==> is_listed_source(#[trigger] sources@[k], k),
                forall|k: int| 0 <= k < i ==> log_source_names()[k] != n@,
            decreases sources.len() - i,
        {
            if str_eq(sources[i].name, n) {
                assert(is_listed_source(sources@[i as int], i as int));
                assert(log_source_names()[i as int] == n@);
                assert(log_source_names().contains(n@));
                return sources[i];
            }
            assert(is_listed_source(sources@[i as int], i as int));
            i = i + 1;
        }
        assert(!log_source_names().contains(n@)) by {
            if log_source_names().contains(n@) {
                let k = choose|k: int| 0 <= k < log_source_names().len() && log_source_names()[k] == n@;
            }
        }
    }
    assert(is_listed_source(sources@[0], 0));
    sources[0]
}

fn owned(s: &str) -> (r: String)
    ensures
        r@ == s@,
{
    s.to_owned()
}

pub fn users_list_command() -> (r: Vec<String>)
    ensures
        views(r@) == seq!["doveadm"@, "user"@, "*"@],
{
    let r = vec![owned("doveadm"), owned("user"), owned("*")];
    assert(views(r@) =~= seq!["doveadm"@, "user"@, "*"@]);
    r
}

pub fn user_size_command(address: &str) -> (r: Vec<String>)
    ensures
        views(r@) == seq!["doveadm"@, "quota"@, "get"@, "-u"@, address@],
{
    let r = vec![owned("doveadm"), owned("quota"), owned("get"), owned("-u"), owned(address)];
    assert(views(r@) =~= seq!["doveadm"@, "quota"@, "get"@, "-u"@, address@]);
    r
}

pub fn user_message_count_command(address: &str) -> (r: Vec<String>)
    ensures
        views(r@) == seq![
            "doveadm"@,
            "mailbox"@,
            "status"@,
            "-u"@,
            address@,
            "messages"@,
            "INBOX"@,
        ],
{
    let r = vec![
        owned("doveadm"),
        owned("mailbox"),
        owned("status"),
        owned("-u"),
        owned(address),
        owned("messages"),
        owned("INBOX"),
    ];
    assert(views(r@) =~= seq![
        "doveadm"@,
        "mailbox"@,
        "status"@,
        "-u"@,
        address@,
        "messages"@,
        "INBOX"@,
    ]);
    r
}

pub fn user_metadata_command(address: &str) -> (r: Vec<String>)
    ensures
        views(r@) == seq!["doveadm"@, "user"@, "-u"@, address@, "*"@],
{
    let r = vec![owned("doveadm"), owned("user"), owned("-u"), owned(address), owned("*")];
    assert(views(r@) =~= seq!["doveadm"@, "user"@, "-u"@, address@, "*"@]);
    r
}

pub fn user_delete_mailbox_command(address: &str) -> (r: Vec<String>)
    ensures
        views(r@) == seq![
            "doveadm"@,
            "mailbox"@,
            "delete"@,
            "-u"@,
            address@,
            "-s"@,
            "INBOX"@,
        ],
{
    let r = vec![
        owned("doveadm"),
        owned("mailbox"),
        owned("delete"),
        owned("-u"),
        owned(address),
        owned("-s"),
        owned("INBOX"),
    ];
    assert(views(r@) =~= seq![
        "doveadm"@,
        "mailbox"@,
        "delete"@,
        "-u"@,
        address@,
        "-s"@,
        "INBOX"@,
    ]);
    r
}

pub fn user_kick_command(address: &str) -> (r: Vec<String>)
    ensures
        views(r@) == seq!["doveadm"@, "kick"@, "-u"@, address@],
{
    let r = vec![owned("doveadm"), owned("kick"), owned("-u"), owned(address)];
    assert(views(r@) =~= seq!["doveadm"@, "kick"@, "-u"@, address@]);
    r
}

pub fn user_home_command(address: &str) -> (r: Vec<String>)
    ensures
        views(r@) == seq!["doveadm"@, "user"@, "-u"@, address@, "-f"@, "home"@],
{
    let r = vec![
        owned("doveadm"),
        owned("user"),
        owned("-u"),
        owned(address),
        owned("-f"),
        owned("home"),
    ];
    assert(views(r@) =~= seq!["doveadm"@, "user"@, "-u"@, address@, "-f"@, "home"@]);
    r
}

pub fn user_auth_test_command(address: &str, password: &str) -> (r: Vec<String>)
    ensures
        views(r@) == seq![
            "doveadm"@,
            "auth"@,
            "test"@,
            "-x"@,
            "service=imap"@,
            address@,
            password@,
        ],
{
    let r = vec![
        owned("doveadm"),
        owned("auth"),
        owned("test"),
        owned("-x"),
        owned("service=imap"),
        owned(address),
        owned(password),
    ];
    assert(views(r@) =~= seq![
        "doveadm"@,
        "auth"@,
        "test"@,
        "-x"@,
        "service=imap"@,
        address@,
        password@,
    ]);
    r
}

pub fn user_mailbox_list_command(address: &str) -> (r: Vec<String>)
    ensures
        views(r@) == seq!["doveadm"@, "mailbox"@, "list"@, "-u"@, address@],
{
    let r = vec![owned("doveadm"), owned("mailbox"), owned("list"), owned("-u"), owned(address)];
    assert(views(r@) =~= seq!["doveadm"@, "mailbox"@, "list"@, "-u"@, address@]);
    r
}

pub fn user_mailbox_expunge_command(address: &str, mailbox: &str) -> (r: Vec<String>)
    ensures
        views(r@) == seq![
            "doveadm"@,
            "expunge"@,
            "-u"@,
            address@,
            "mailbox"@,
            mailbox@,
            "all"@,
        ],
{
    let r = vec![
        owned("doveadm"),
        owned("expunge"),
        owned("-u"),
        owned(address),
        owned("mailbox"),
        owned(mailbox),
        owned("all"),
    ];
    assert(views(r@) =~= seq![
        "doveadm"@,
        "expunge"@,
        "-u"@,
        address@,
        "mailbox"@,
        mailbox@,
        "all"@,
    ]);
    r
}

pub fn user_quota_recalc_command(address: &str) -> (r: Vec<String>)
    ensures
        views(r@) == seq!["doveadm"@, "quota"@, "recalc"@, "-u"@, address@],
{
    let r = vec![owned("doveadm"), owned("quota"), owned("recalc"), owned("-u"), owned(address)];
    assert(views(r@) =~= seq!["doveadm"@, "quota"@, "recalc"@, "-u"@, address@]);
    r
}

pub fn user_force_resync_command(address: &str) -> (r: Vec<String>)
    ensures
        views(r@) == seq!["doveadm"@, "force-resync"@, "-u"@, address@, "*"@],
{
    let r = vec![owned("doveadm"), owned("force-resync"), owned("-u"), owned(address), owned("*")];
    assert(views(r@) =~= seq!["doveadm"@, "force-resync"@, "-u"@, address@, "*"@]);
    r
}

pub fn password_hash_command(password: &str) -> (r: Vec<String>)
    ensures
        views(r@) == seq!["doveadm"@, "pw"@, "-s"@, "SHA512-CRYPT"@, "-p"@, password@],
{
    let r = vec![
        owned("doveadm"),
        owned("pw"),
        owned("-s"),
        owned("SHA512-CRYPT"),
        owned("-p"),
        owned(password),
    ];
    assert(views(r@) =~= seq!["doveadm"@, "pw"@, "-s"@, "SHA512-CRYPT"@, "-p"@, password@]);
    r
}

/// Reload Postfix, then Dovecot, after the ban files changed.
pub fn bans_reload_commands() -> (r: Vec<Vec<String>>)
    ensures
        r@.len() == 2,
        views(r@[0]@) == seq!["systemctl"@, "reload"@, "postfix"@],
        views(r@[1]@) == seq!["systemctl"@, "reload"@, "dovecot"@],
{
    let r = vec![systemctl_command("reload", "postfix"), systemctl_command("reload", "dovecot")];
    r
}

/// Reload doveauth after the registration settings changed.
pub fn settings_reload_commands() -> (r: Vec<Vec<String>>)
    ensures
        r@.len() == 1,
        views(r@[0]@) == seq!["systemctl"@, "reload"@, "doveauth"@],
{
    vec![systemctl_command("reload", "doveauth")]
}

pub fn systemctl_command(action: &str, unit: &str) -> (r: Vec<String>)
    ensures
        views(r@) == seq!["systemctl"@, action@, unit@],
{
    let r = vec![owned("systemctl"), owned(action), owned(unit)];
    assert(views(r@) =~= seq!["systemctl"@, action@, unit@]);
    r
}

pub fn postfix_show_param_command(name: &str) -> (r: Vec<String>)
    ensures
        views(r@) == seq!["postconf"@, "-h"@, name@],
{
    let r = vec![owned("postconf"), owned("-h"), owned(name)];
    assert(views(r@) =~= seq!["postconf"@, "-h"@, name@]);
    r
}

/// `postconf -e "<name> = <value>"`.
pub fn postfix_set_param_command(name: &str, value: &str) -> (r: Vec<String>)
    ensures
        views(r@) == seq!["postconf"@, "-e"@, name@ + " = "@ + value@],
{
    let mut setting = owned(name);
    setting.append(" = ");
    setting.append(value);
    let r = vec![owned("postconf"), owned("-e"), setting];
    assert(views(r@) =~= seq!["postconf"@, "-e"@, name@ + " = "@ + value@]);
    r
}

pub fn postfix_reload_command() -> (r: Vec<String>)
    ensures
        views(r@) == seq!["systemctl"@, "reload"@, "postfix"@],
{
    systemctl_command("reload", "postfix")
}

} // verus!
