//! Preparing host commands and reading what they returned.
use vstd::prelude::*;

use crate::error::{AppError, AppResult};
use crate::number::{dec_nat, format_usize};
use crate::text::{chars_of, replace_all, replace_vec, str_eq, string_of, trim, trim_str, views};

verus! {

/// What a finished command printed and the code it exited with.
#[derive(Debug, Clone)]
pub struct CommandOutput {
    pub status: i32,
    pub stdout: String,
    pub stderr: String,
}

/// Runs host commands with a time limit.
#[derive(Debug, Clone)]
pub struct Shell {
    timeout_seconds: u64,
}

impl Shell {
    pub closed spec fn timeout_spec(&self) -> u64 {
        self.timeout_seconds
    }

    pub fn new(timeout_seconds: u64) -> (s: Self)
        ensures
            s.timeout_spec() == timeout_seconds,
    {
        Shell { timeout_seconds }
    }

    /// The time limit of every command, in seconds.
    pub fn timeout_seconds(&self) -> (r: u64)
        ensures
            r == self.timeout_spec(),
    {
        self.timeout_seconds
    }
}


impl CommandOutput {
    /// The output of a command that exited with `code` (none when a signal
    /// ended it) and printed `stdout` and `stderr`: both trimmed, and `-1`
    /// for a missing code.
    pub fn from_raw(code: Option<i32>, stdout: &str, stderr: &str) -> (r: CommandOutput)
        ensures
            r.status == (match code {
                Some(c) => c,
                None => -1i32,
            }),
            r.stdout@ == trim(stdout@),
            r.stderr@ == trim(stderr@),
    {
        let status = match code {
            Some(c) => c,
            None => -1,
        };
        CommandOutput { status, stdout: trim_str(stdout), stderr: trim_str(stderr) }
    }
}

/// The programs that need root and run through `sudo -n` when the panel
/// does not run as root.
pub open spec fn is_privileged(program: Seq<char>) -> bool {
    program == "doveadm"@ || program == "journalctl"@ || program == "systemctl"@ || program
        == "postconf"@
}

pub fn needs_privileged_wrapper(program: &str) -> (r: bool)
    ensures
        r == is_privileged(program@),
{
    str_eq(program, "doveadm") || str_eq(program, "journalctl") || str_eq(program, "systemctl")
        || str_eq(program, "postconf")
}

/// The program and arguments that actually run: a privileged program is
/// run as `sudo -n <program> <args>` unless the panel is root already.
pub fn with_privileged_wrapper(is_root: bool, program: &str, args: Vec<String>) -> (r: (
    String,
    Vec<String>,
))
    ensures
        !is_root && is_privileged(program@) ==> r.0@ == "sudo"@ && views(r.1@) == seq![
            "-n"@,
            program@,
        ] + views(args@),
        !(!is_root && is_privileged(program@)) ==> r.0@ == program@ && views(r.1@) == views(
            args@,
        ),
{
    if !is_root && needs_privileged_wrapper(program) {
        let mut wrapped: Vec<String> = vec!["-n".to_owned(), program.to_owned()];
        let mut i: usize = 0;
        while i < args.len()
            invariant
                i <= args.len(),
                views(wrapped@) == seq!["-n"@, program@] + views(args@).take(i as int),
            decreases args.len() - i,
        {
            let ghost prev = wrapped@;
            wrapped.push(args[i].clone());
            i = i + 1;
            assert(views(wrapped@) =~= views(prev).push(args@[i - 1]@));
            assert(views(wrapped@) =~= seq!["-n"@, program@] + views(args@).take(i as int));
        }
        assert(views(args@).take(args.len() as int) =~= views(args@));
        ("sudo".to_owned(), wrapped)
    } else {
        (program.to_owned(), args)
    }
}

/// The replacement pairs as character sequences.
pub open spec fn pairs_view<'a>(r: Seq<(&'a str, &'a str)>) -> Seq<(Seq<char>, Seq<char>)> {
    Seq::new(r.len(), |i: int| (r[i].0@, r[i].1@))
}

/// Every replacement applied in turn, each replacing all occurrences of its
/// placeholder.
pub open spec fn apply_replacements(v: Seq<char>, reps: Seq<(Seq<char>, Seq<char>)>) -> Seq<char>
    decreases reps.len(),
{
    if reps.len() == 0 {
        v
    } else {
        replace_all(apply_replacements(v, reps.drop_last()), reps.last().0, reps.last().1)
    }
}

pub open spec fn has_brace(v: Seq<char>) -> bool {
    v.contains('{') || v.contains('}')
}

/// The message of the error for an argument with a placeholder left.
pub open spec fn unresolved_message(v: Seq<char>) -> Seq<char> {
    "unresolved placeholder in command argument: "@ + v
}

fn apply_all(item: &String, replacements: &[(&str, &str)]) -> (r: String)
    ensures
        r@ == apply_replacements(item@, pairs_view(replacements@)),
{
    let mut v = chars_of(item.as_str());
    let mut i: usize = 0;
    assert(pairs_view(replacements@).take(0) =~= Seq::<(Seq<char>, Seq<char>)>::empty());
    while i < replacements.len()
        invariant
            i <= replacements.len(),
            v@ == apply_replacements(item@, pairs_view(replacements@).take(i as int)),
        decreases replacements.len() - i,
    {
        let (key, rep) = replacements[i];
        let kv = chars_of(key);
        let rv = chars_of(rep);
        v = replace_vec(v.as_slice(), kv.as_slice(), rv.as_slice());
        i = i + 1;
        assert(pairs_view(replacements@).take(i as int).drop_last() =~= pairs_view(
            replacements@,
        ).take(i - 1));
    }
    assert(pairs_view(replacements@).take(replacements.len() as int) =~= pairs_view(
        replacements@,
    ));
    string_of(v.as_slice())
}

fn has_brace_exec(s: &String) -> (b: bool)
    ensures
        b == has_brace(s@),
{
    let v = chars_of(s.as_str());
    let mut i: usize = 0;
    while i < v.len()
        invariant
            i <= v.len(),
            v@ == s@,
            forall|k: int| 0 <= k < i ==> v@[k] != '{' && v@[k] != '}',
        decreases v.len() - i,
    {
        if v[i] == '{' || v[i] == '}' {
            return true;
        }
        i = i + 1;
    }
    false
}

/// Each argument with every placeholder replaced; an error for the first
/// argument in which a brace is left (`substitute_template_args`).
pub fn substitute_template_args(argv: &[String], replacements: &[(&str, &str)]) -> (r: AppResult<
    Vec<String>,
>)
    ensures
        r is Ok <==> forall|k: int|
            0 <= k < argv@.len() ==> !has_brace(
                apply_replacements(#[trigger] argv@[k]@, pairs_view(replacements@)),
            ),
        r matches Ok(v) ==> views(v@) == Seq::new(
            argv@.len(),
            |k: int| apply_replacements(argv@[k]@, pairs_view(replacements@)),
        ),
        r matches Err(e) ==> exists|k: int|
            0 <= k < argv@.len() && has_brace(
                apply_replacements(#[trigger] argv@[k]@, pairs_view(replacements@)),
            ) && (forall|j: int|
                0 <= j < k ==> !has_brace(apply_replacements(argv@[j]@, pairs_view(replacements@))))
                && e == AppError::Validation(e->Validation_0) && e->Validation_0@
                == unresolved_message(apply_replacements(argv@[k]@, pairs_view(replacements@))),
{
    let ghost reps = pairs_view(replacements@);
    let mut result: Vec<String> = Vec::new();
    let mut i: usize = 0;
    while i < argv.len()
        invariant
            i <= argv.len(),
            reps == pairs_view(replacements@),
            views(result@) == Seq::new(i as nat, |k: int| apply_replacements(argv@[k]@, reps)),
            forall|k: int| 0 <= k < i ==> !has_brace(apply_replacements(argv@[k]@, reps)),
        decreases argv.len() - i,
    {
        let value = apply_all(&argv[i], replacements);
        if has_brace_exec(&value) {
            let mut msg = "unresolved placeholder in command argument: ".to_owned();
            msg.append(value.as_str());
            return Err(AppError::Validation(msg));
        }
        let ghost prev = result@;
        let ghost vv = value@;
        result.push(value);
        i = i + 1;
        assert(views(result@) =~= views(prev).push(vv));
        assert(views(result@) =~= Seq::new(i as nat, |k: int| apply_replacements(argv@[k]@, reps)));
    }
    Ok(result)
}

/// The arguments after the program, with every replacement applied.
pub open spec fn substituted_args(argv: Seq<String>, reps: Seq<(Seq<char>, Seq<char>)>) -> Seq<
    Seq<char>,
> {
    Seq::new((argv.len() - 1) as nat, |k: int| apply_replacements(argv[k + 1]@, reps))
}

/// The error for the first of `args` that keeps a brace.
pub open spec fn unresolved_error(args: Seq<Seq<char>>, e: AppError) -> bool {
    exists|k: int|
        0 <= k < args.len() && has_brace(#[trigger] args[k]) && (forall|j: int|
            0 <= j < k ==> !has_brace(args[j])) && e == AppError::Validation(e->Validation_0)
            && e->Validation_0@ == unresolved_message(args[k])
}

/// What preparing a non-empty command line gives: success exactly when no
/// argument keeps a brace, and then the program (wrapped in `sudo -n` when
/// needed) with the substituted arguments; otherwise the error of
/// `substitute_template_args` for the first argument that keeps one.
pub open spec fn prepared_as(
    argv: Seq<String>,
    reps: Seq<(Seq<char>, Seq<char>)>,
    is_root: bool,
    r: AppResult<(String, Vec<String>)>,
) -> bool {
    let subst = substituted_args(argv, reps);
    &&& (r is Ok <==> forall|k: int| 0 <= k < subst.len() ==> !has_brace(#[trigger] subst[k]))
    &&& (r matches Err(e) ==> unresolved_error(subst, e))
    &&& (r matches Ok(p) ==> if !is_root && is_privileged(argv[0]@) {
        p.0@ == "sudo"@ && views(p.1@) == seq!["-n"@, argv[0]@] + subst
    } else {
        p.0@ == argv[0]@ && views(p.1@) == subst
    })
}

/// Who runs a prepared command: as root the program runs itself, with
/// the substituted arguments; otherwise `doveadm`, `journalctl`,
/// `systemctl` and `postconf` run through `sudo -n`, and every other
/// program runs itself.
pub proof fn lemma_sudo_only_when_not_root(
    argv: Seq<String>,
    reps: Seq<(Seq<char>, Seq<char>)>,
    is_root: bool,
    r: AppResult<(String, Vec<String>)>,
)
    requires
        argv.len() > 0,
        prepared_as(argv, reps, is_root, r),
        r is Ok,
    ensures
        ({
            let p = r->Ok_0;
            let subst = Seq::new(
                (argv.len() - 1) as nat,
                |k: int| apply_replacements(argv[k + 1]@, reps),
            );
            let needs = argv[0]@ == "doveadm"@ || argv[0]@ == "journalctl"@ || argv[0]@
                == "systemctl"@ || argv[0]@ == "postconf"@;
            &&& is_root ==> p.0@ == argv[0]@ && views(p.1@) == subst
            &&& !is_root && needs ==> p.0@ == "sudo"@ && views(p.1@) == seq!["-n"@, argv[0]@]
                + subst
            &&& !is_root && !needs ==> p.0@ == argv[0]@ && views(p.1@) == subst
        }),
{
}

/// The program and arguments that run for a command line, after placeholder
/// substitution and the `sudo` wrapper; an error for an empty command line
/// or a placeholder left unresolved. This is what `run_with_replacements`
/// does before it starts the process.
pub fn prepare_command(argv: &[String], replacements: &[(&str, &str)], is_root: bool) -> (r:
    AppResult<(String, Vec<String>)>)
    ensures
        argv@.len() == 0 ==> (r matches Err(AppError::Validation(m)) && m@
            == "command argv is empty"@),
        argv@.len() > 0 ==> prepared_as(argv@, pairs_view(replacements@), is_root, r),
{
    if argv.len() == 0 {
        return Err(AppError::Validation("command argv is empty".to_owned()));
    }
    let mut args: Vec<String> = Vec::new();
    let mut i: usize = 1;
    while i < argv.len()
        invariant
            1 <= i <= argv.len(),
            args@ == argv@.subrange(1, i as int),
        decreases argv.len() - i,
    {
        args.push(argv[i].clone());
        i = i + 1;
        assert(args@ =~= argv@.subrange(1, i as int));
    }
    assert(args@ =~= argv@.drop_first());
    let subst = substitute_template_args(args.as_slice(), replacements);
    match subst {
        Ok(v) => {
            let program = argv[0].as_str();
            proof {
                let args_s = argv@.drop_first();
                assert forall|k: int| 0 <= k < args_s.len() implies !has_brace(
                    apply_replacements(#[trigger] args_s[k]@, pairs_view(replacements@)),
                ) by {
                    assert(args_s[k] == args@[k]);
                }
            }
            assert(views(v@) =~= Seq::new(
                argv@.drop_first().len(),
                |k: int| apply_replacements(argv@.drop_first()[k]@, pairs_view(replacements@)),
            ));
            let wrapped = with_privileged_wrapper(is_root, program, v);
            proof {
                let subst = substituted_args(argv@, pairs_view(replacements@));
                assert(subst =~= views(v@));
            }
            Ok(wrapped)
        },
        Err(e) => {
            proof {
                let args_s = argv@.drop_first();
                let reps = pairs_view(replacements@);
                let k = choose|k: int|
                    0 <= k < args@.len() && has_brace(apply_replacements(#[trigger] args@[k]@, reps))
                        && (forall|j: int|
                        0 <= j < k ==> !has_brace(apply_replacements(args@[j]@, reps)))
                        && e == AppError::Validation(e->Validation_0) && e->Validation_0@
                        == unresolved_message(apply_replacements(args@[k]@, reps));
                assert(args_s[k] == args@[k]);
                let subst = substituted_args(argv@, reps);
                assert(subst[k] == apply_replacements(args@[k]@, reps));
                assert forall|j: int| 0 <= j < k implies !has_brace(subst[j]) by {
                    assert(args_s[j] == args@[j]);
                    assert(subst[j] == apply_replacements(args@[j]@, reps));
                }
                assert(unresolved_error(subst, e));
            }
            Err(e)
        },
    }
}

/// The audit record of one reload command.
#[derive(Debug)]
pub struct ReloadAudit {
    pub action: String,
    pub target_value: String,
    pub outcome: Result<CommandOutput, String>,
}

/// The errors among reload results, in order.
pub open spec fn reload_warnings(results: Seq<Result<CommandOutput, String>>) -> Seq<Seq<char>>
    decreases results.len(),
{
    if results.len() == 0 {
        Seq::<Seq<char>>::empty()
    } else {
        let w = reload_warnings(results.drop_last());
        match results.last() {
            Ok(_) => w,
            Err(e) => w.push(e@),
        }
    }
}

pub open spec fn reload_action(outcome: Result<CommandOutput, String>) -> Seq<char> {
    match outcome {
        Ok(_) => "reload_command_success"@,
        Err(_) => "reload_command_failed"@,
    }
}

/// What the reload results are recorded as: one audit record per command,
/// named by the command's index, and the failures as warnings for the admin
/// (the loop of `execute_reload_commands` and of settings `save`).
pub fn summarize_reload_results(results: Vec<Result<CommandOutput, String>>) -> (r: (
    Vec<ReloadAudit>,
    Vec<String>,
))
    ensures
        r.0@.len() == results@.len(),
        forall|i: int|
            0 <= i < results@.len() ==> (#[trigger] r.0@[i]).action@ == reload_action(results@[i])
                && r.0@[i].target_value@ == dec_nat(i as nat) && r.0@[i].outcome == results@[i],
        views(r.1@) == reload_warnings(results@),
{
    let mut audits: Vec<ReloadAudit> = Vec::new();
    let mut warnings: Vec<String> = Vec::new();
    let ghost orig = results@;
    let n = results.len();
    let mut rest = results;
    let mut i: usize = 0;
    assert(orig.skip(0) =~= orig);
    while rest.len() > 0
        invariant
            i <= orig.len(),
            rest@ == orig.skip(i as int),
            rest@.len() + i == orig.len(),
            orig.len() == n,
            audits@.len() == i,
            forall|k: int|
                0 <= k < i ==> (#[trigger] audits@[k]).action@ == reload_action(orig[k])
                    && audits@[k].target_value@ == dec_nat(k as nat) && audits@[k].outcome
                    == orig[k],
            views(warnings@) == reload_warnings(orig.take(i as int)),
        decreases rest.len(),
    {
        let outcome = rest.remove(0);
        assert(outcome == orig[i as int]);
        let ghost cur = orig.take(i + 1);
        assert(cur.drop_last() =~= orig.take(i as int));
        let action = match &outcome {
            Ok(_) => "reload_command_success".to_owned(),
            Err(e) => {
                let ghost prev = warnings@;
                warnings.push(e.clone());
                assert(views(warnings@) =~= views(prev).push(e@));
                "reload_command_failed".to_owned()
            },
        };
        audits.push(ReloadAudit { action, target_value: format_usize(i), outcome });
        i = i + 1;
        assert(rest@ =~= orig.skip(i as int));
    }
    assert(orig.take(i as int) =~= orig);
    (audits, warnings)
}

} // verus!
