//! Mailbox users: their addresses from `doveadm user '*'` and what the
//! users page shows of each.
use regex::Regex;
use vstd::prelude::*;

use crate::shell::CommandOutput;
use crate::text::{
    ascii_lowercase, chars_of, contains_str, has_sub, lines_of, lines_str, to_lower, trim, trim_str,
    views,
};

verus! {

/// One mailbox as the users page shows it.
#[derive(Debug, Clone)]
pub struct UserMailbox {
    pub address: String,
    pub blocked: bool,
    pub mailbox_size: Option<String>,
    pub message_count: Option<String>,
    pub last_seen: Option<String>,
    pub metadata: Option<String>,
}

/// What an address looks like in the output of `doveadm user`.
pub const EMAIL_PATTERN: &'static str = "([A-Za-z0-9._%+-]+@[A-Za-z0-9.-]+\\.[A-Za-z]{2,})";

/// The text of capture group 1 of the leftmost-first match of the regular
/// expression `pattern` in `text` (`regex::Regex::captures`), or none when
/// the pattern does not compile, does not match, or its group 1 takes no
/// part in the match.
pub uninterp spec fn regex_group1(pattern: Seq<char>, text: Seq<char>) -> Option<Seq<char>>;

/// Compiles `pattern` with `regex::Regex::new` and returns the text of
/// capture group 1 of its first match in `text` (`Regex::captures`, then
/// `Captures::get(1)`), as named by `regex_group1`.
#[verifier::external_body]
fn regex_first_group(pattern: &str, text: &str) -> (r: Option<String>)
    ensures
        r is Some <==> regex_group1(pattern@, text@) is Some,
        r matches Some(s) ==> regex_group1(pattern@, text@) == Some(s@),
{
    match Regex::new(pattern) {
        Ok(re) => re.captures(text).and_then(|caps| caps.get(1)).map(|m| m.as_str().to_string()),
        Err(_) => None,
    }
}

/// The addresses found in lines, one per line that has one, in order.
pub open spec fn captured(lines: Seq<Seq<char>>) -> Seq<Seq<char>>
    decreases lines.len(),
{
    if lines.len() == 0 {
        Seq::<Seq<char>>::empty()
    } else {
        let rest = captured(lines.drop_last());
        match regex_group1(EMAIL_PATTERN@, lines.last()) {
            Some(a) => rest.push(a),
            None => rest,
        }
    }
}

/// `a` sorts before `b` as Rust orders strings: by characters, a proper
/// prefix first.
pub open spec fn lex_lt(a: Seq<char>, b: Seq<char>) -> bool
    decreases a.len(),
{
    if a.len() == 0 {
        b.len() > 0
    } else if b.len() == 0 {
        false
    } else if a[0] != b[0] {
        a[0] < b[0]
    } else {
        lex_lt(a.drop_first(), b.drop_first())
    }
}

pub open spec fn strictly_sorted(s: Seq<Seq<char>>) -> bool {
    forall|i: int, j: int| 0 <= i < j < s.len() ==> lex_lt(#[trigger] s[i], #[trigger] s[j])
}

pub proof fn lemma_lex_irreflexive(a: Seq<char>)
    ensures
        !lex_lt(a, a),
    decreases a.len(),
{
    if a.len() > 0 {
        lemma_lex_irreflexive(a.drop_first());
    }
}

pub proof fn lemma_lex_transitive(a: Seq<char>, b: Seq<char>, c: Seq<char>)
    requires
        lex_lt(a, b),
        lex_lt(b, c),
    ensures
        lex_lt(a, c),
    decreases a.len(),
{
    if a.len() > 0 && b.len() > 0 && c.len() > 0 {
        if a[0] == b[0] && b[0] == c[0] {
            lemma_lex_transitive(a.drop_first(), b.drop_first(), c.drop_first());
        }
    }
}

pub proof fn lemma_lex_total(a: Seq<char>, b: Seq<char>)
    ensures
        a == b || lex_lt(a, b) || lex_lt(b, a),
    decreases a.len(),
{
    if a.len() > 0 && b.len() > 0 && a[0] == b[0] {
        lemma_lex_total(a.drop_first(), b.drop_first());
        if a.drop_first() == b.drop_first() {
            assert(a =~= seq![a[0]] + a.drop_first());
            assert(b =~= seq![b[0]] + b.drop_first());
        }
    } else if a.len() == 0 && b.len() == 0 {
        assert(a =~= b);
    }
}

proof fn lemma_lex_skip(a: Seq<char>, b: Seq<char>, i: int)
    requires
        0 <= i <= a.len(),
        i <= b.len(),
        a.take(i) == b.take(i),
    ensures
        lex_lt(a, b) == lex_lt(a.skip(i), b.skip(i)),
    decreases i,
{
    if i > 0 {
        assert(a[0] == a.take(i)[0]);
        assert(b[0] == b.take(i)[0]);
        assert(a.drop_first().take(i - 1) =~= a.take(i).drop_first());
        assert(b.drop_first().take(i - 1) =~= b.take(i).drop_first());
        lemma_lex_skip(a.drop_first(), b.drop_first(), i - 1);
        assert(a.drop_first().skip(i - 1) =~= a.skip(i));
        assert(b.drop_first().skip(i - 1) =~= b.skip(i));
    } else {
        assert(a.skip(0) =~= a);
        assert(b.skip(0) =~= b);
    }
}

/// Compares two strings as Rust does: negative, zero or positive as `a`
/// sorts before, equals, or sorts after `b`.
fn compare_strings(a: &String, b: &String) -> (r: i8)
    ensures
        r < 0 <==> lex_lt(a@, b@),
        r == 0 <==> a@ == b@,
        r > 0 <==> lex_lt(b@, a@),
{
    let av = chars_of(a.as_str());
    let bv = chars_of(b.as_str());
    let mut i: usize = 0;
    proof {
        lemma_lex_irreflexive(a@);
    }
    while i < av.len() && i < bv.len() && av[i] == bv[i]
        invariant
            i <= av.len(),
            i <= bv.len(),
            av@ == a@,
            bv@ == b@,
            av@.take(i as int) == bv@.take(i as int),
        decreases av.len() - i,
    {
        assert(av@.take(i + 1) =~= av@.take(i as int).push(av@[i as int]));
        assert(bv@.take(i + 1) =~= bv@.take(i as int).push(bv@[i as int]));
        i = i + 1;
    }
    proof {
        lemma_lex_skip(a@, b@, i as int);
        lemma_lex_skip(b@, a@, i as int);
    }
    if i == av.len() && i == bv.len() {
        assert(a@ =~= av@.take(i as int));
        assert(b@ =~= bv@.take(i as int));
        0
    } else if i == av.len() {
        assert(a@.skip(i as int) =~= Seq::<char>::empty());
        assert(a@ != b@) by {
            assert(a@.len() < b@.len());
        }
        -1
    } else if i == bv.len() {
        assert(b@.skip(i as int) =~= Seq::<char>::empty());
        assert(a@ != b@) by {
            assert(a@.len() > b@.len());
        }
        1
    } else {
        assert(a@.skip(i as int)[0] == av@[i as int]);
        assert(b@.skip(i as int)[0] == bv@[i as int]);
        assert(a@ != b@) by {
            assert(a@[i as int] != b@[i as int]);
        }
        if av[i] < bv[i] {
            -1
        } else {
            1
        }
    }
}

/// Puts `x` into a strictly sorted list unless it is there already.
fn insert_sorted(out: &mut Vec<String>, x: String)
    requires
        strictly_sorted(views(old(out)@)),
    ensures
        strictly_sorted(views(final(out)@)),
        forall|s: Seq<char>| #[trigger] views(final(out)@).contains(s) <==> (views(old(out)@).contains(s) || s == x@),
{
    let ghost old_v = views(out@);
    let mut p: usize = 0;
    while p < out.len() && compare_strings(&out[p], &x) < 0
        invariant
            p <= out.len(),
            views(out@) == old_v,
            forall|k: int| 0 <= k < p ==> lex_lt(old_v[k], x@),
        decreases out.len() - p,
    {
        p = p + 1;
    }
    if p < out.len() && compare_strings(&out[p], &x) == 0 {
        assert forall|s: Seq<char>| #[trigger] views(out@).contains(s) <==> (old_v.contains(s) || s == x@) by {
            if s == x@ {
                assert(old_v[p as int] == x@);
            }
        }
        return;
    }
    proof {
        if p < out.len() {
            lemma_lex_total(old_v[p as int], x@);
        }
    }
    let ghost xv = x@;
    out.insert(p, x);
    proof {
        let nv = views(out@);
        assert(nv =~= old_v.insert(p as int, xv));
        assert forall|i: int, j: int| 0 <= i < j < nv.len() implies lex_lt(#[trigger] nv[i], #[trigger] nv[j]) by {
            if j < p {
                assert(nv[i] == old_v[i] && nv[j] == old_v[j]);
            } else if j == p {
                assert(nv[i] == old_v[i]);
            } else if i < p {
                assert(nv[i] == old_v[i]);
                assert(nv[j] == old_v[j - 1]);
                if j - 1 > p {
                    lemma_lex_transitive(xv, old_v[p as int], old_v[j - 1]);
                }
                lemma_lex_transitive(old_v[i], xv, old_v[j - 1]);
            } else if i == p {
                assert(nv[j] == old_v[j - 1]);
                if j - 1 > p {
                    lemma_lex_transitive(xv, old_v[p as int], old_v[j - 1]);
                }
            } else {
                assert(nv[i] == old_v[i - 1] && nv[j] == old_v[j - 1]);
            }
        }
        assert forall|s: Seq<char>| #[trigger] nv.contains(s) <==> (old_v.contains(s) || s == xv) by {
            if nv.contains(s) {
                let k = choose|k: int| 0 <= k < nv.len() && nv[k] == s;
                if k < p {
                    assert(old_v[k] == s);
                } else if k > p {
                    assert(old_v[k - 1] == s);
                }
            }
            if old_v.contains(s) {
                let k = choose|k: int| 0 <= k < old_v.len() && old_v[k] == s;
                if k < p {
                    assert(nv[k] == s);
                } else {
                    assert(nv[k + 1] == s);
                }
            }
            if s == xv {
                assert(nv[p as int] == s);
            }
        }
    }
}

/// The addresses in the output of `doveadm user '*'`: the first match of
/// `EMAIL_PATTERN` on each line, sorted, each once.
pub fn parse_addresses(stdout: &str) -> (r: Vec<String>)
    ensures
        strictly_sorted(views(r@)),
        forall|s: Seq<char>| #[trigger] views(r@).contains(s) <==> captured(lines_of(stdout@)).contains(s),
{
    let ls = lines_str(stdout);
    let mut out: Vec<String> = Vec::new();
    let mut i: usize = 0;
    while i < ls.len()
        invariant
            i <= ls.len(),
            views(ls@) == lines_of(stdout@),
            strictly_sorted(views(out@)),
            forall|s: Seq<char>| #[trigger] views(out@).contains(s) <==> captured(views(ls@).take(i as int)).contains(s),
        decreases ls.len() - i,
    {
        let ghost cur = views(ls@).take(i + 1);
        assert(cur.drop_last() =~= views(ls@).take(i as int));
        assert(cur.last() == ls@[i as int]@);
        let ghost before = captured(views(ls@).take(i as int));
        match regex_first_group(EMAIL_PATTERN, ls[i].as_str()) {
            Some(a) => {
                let ghost av = a@;
                insert_sorted(&mut out, a);
                assert forall|s: Seq<char>| #[trigger] captured(cur).contains(s) <==> (before.contains(s) || s == av) by {
                    assert(captured(cur) == before.push(av));
                    if before.contains(s) {
                        let k = choose|k: int| 0 <= k < before.len() && before[k] == s;
                        assert(before.push(av)[k] == s);
                    }
                    if s == av {
                        assert(before.push(av)[before.len() as int] == s);
                    }
                    if before.push(av).contains(s) {
                        let k = choose|k: int| 0 <= k < before.len() + 1 && before.push(av)[k] == s;
                        if k < before.len() {
                            assert(before[k] == s);
                        }
                    }
                }
            },
            None => {},
        }
        i = i + 1;
    }
    assert(views(ls@).take(ls.len() as int) =~= views(ls@));
    out
}

/// The first metadata line that mentions `last` (ASCII case ignored),
/// trimmed.
pub open spec fn last_seen_line(lines: Seq<Seq<char>>) -> Option<Seq<char>>
    decreases lines.len(),
{
    if lines.len() == 0 {
        None
    } else if has_sub(to_lower(lines[0]), "last"@) {
        Some(trim(lines[0]))
    } else {
        last_seen_line(lines.drop_first())
    }
}

pub fn find_last_seen(metadata: &str) -> (r: Option<String>)
    ensures
        r matches Some(s) ==> last_seen_line(lines_of(metadata@)) == Some(s@),
        r is None ==> last_seen_line(lines_of(metadata@)) is None,
{
    let ls = lines_str(metadata);
    let mut i: usize = 0;
    assert(views(ls@).skip(0) =~= views(ls@));
    while i < ls.len()
        invariant
            i <= ls.len(),
            views(ls@) == lines_of(metadata@),
            last_seen_line(lines_of(metadata@)) == last_seen_line(views(ls@).skip(i as int)),
        decreases ls.len() - i,
    {
        let lower = ascii_lowercase(ls[i].as_str());
        let ghost rest = views(ls@).skip(i as int);
        assert(rest[0] == ls@[i as int]@);
        if contains_str(lower.as_str(), "last") {
            return Some(trim_str(ls[i].as_str()));
        }
        assert(rest.drop_first() =~= views(ls@).skip(i + 1));
        i = i + 1;
    }
    assert(views(ls@).skip(i as int) =~= Seq::<Seq<char>>::empty());
    None
}

pub open spec fn opt_view(o: Option<String>) -> Option<Seq<char>> {
    match o {
        Some(s) => Some(s@),
        None => None,
    }
}

/// What an optional metric shows: the output of a command that exited with
/// 0 and printed something; nothing otherwise.
pub open spec fn optional_of(outcome: Result<CommandOutput, String>) -> Option<Seq<char>> {
    match outcome {
        Ok(o) => if o.status == 0 && o.stdout@.len() > 0 {
            Some(o.stdout@)
        } else {
            None
        },
        Err(_) => None,
    }
}

/// When the user was last seen: the metadata line that says so, `unknown`
/// when there is metadata without one, nothing without metadata.
pub open spec fn last_seen_of(metadata: Option<Seq<char>>) -> Option<Seq<char>> {
    match metadata {
        Some(m) => match last_seen_line(lines_of(m)) {
            Some(l) => Some(l),
            None => Some("unknown"@),
        },
        None => None,
    }
}

/// The shown value of an optional metric (`run_optional` once the command
/// has run).
pub fn optional_output(outcome: Result<CommandOutput, String>) -> (r: Option<String>)
    ensures
        opt_view(r) == optional_of(outcome),
{
    match outcome {
        Ok(o) => {
            if o.status == 0 && !o.stdout.as_str().is_empty() {
                Some(o.stdout)
            } else {
                None
            }
        },
        Err(_) => None,
    }
}

pub fn last_seen_from(metadata: &Option<String>) -> (r: Option<String>)
    ensures
        opt_view(r) == last_seen_of(opt_view(*metadata)),
{
    match metadata {
        None => None,
        Some(m) => match find_last_seen(m.as_str()) {
            Some(l) => Some(l),
            None => Some("unknown".to_owned()),
        },
    }
}

/// The address is among the actively banned values.
pub fn is_blocked(address: &String, blocked_values: &[String]) -> (r: bool)
    ensures
        r == views(blocked_values@).contains(address@),
{
    let mut i: usize = 0;
    while i < blocked_values.len()
        invariant
            i <= blocked_values.len(),
            forall|k: int| 0 <= k < i ==> blocked_values@[k]@ != address@,
        decreases blocked_values.len() - i,
    {
        if blocked_values[i] == *address {
            assert(views(blocked_values@)[i as int] == address@);
            return true;
        }
        i = i + 1;
    }
    assert(!views(blocked_values@).contains(address@)) by {
        if views(blocked_values@).contains(address@) {
            let k = choose|k: int| 0 <= k < blocked_values@.len() && views(blocked_values@)[k] == address@;
        }
    }
    false
}

/// The row of one mailbox from its address, the outcomes of the size,
/// message count and metadata commands, and the banned values.
pub fn user_mailbox(
    address: String,
    size: Result<CommandOutput, String>,
    count: Result<CommandOutput, String>,
    metadata: Result<CommandOutput, String>,
    blocked_values: &[String],
) -> (r: UserMailbox)
    ensures
        r.address@ == address@,
        r.blocked == views(blocked_values@).contains(address@),
        opt_view(r.mailbox_size) == optional_of(size),
        opt_view(r.message_count) == optional_of(count),
        opt_view(r.metadata) == optional_of(metadata),
        opt_view(r.last_seen) == last_seen_of(optional_of(metadata)),
{
    let mailbox_size = optional_output(size);
    let message_count = optional_output(count);
    let metadata = optional_output(metadata);
    let last_seen = last_seen_from(&metadata);
    let blocked = is_blocked(&address, blocked_values);
    UserMailbox { address, blocked, mailbox_size, message_count, last_seen, metadata }
}


/// The addresses to list from what `doveadm user '*'` returned: those in its
/// output when it exited with 0, none otherwise.
pub fn listed_addresses(outcome: Result<CommandOutput, String>) -> (r: Vec<String>)
    ensures
        outcome matches Ok(o) ==> (o.status == 0 ==> strictly_sorted(views(r@)) && forall|s: Seq<char>|
            #[trigger] views(r@).contains(s) <==> captured(lines_of(o.stdout@)).contains(s)),
        !(outcome matches Ok(o) && o.status == 0) ==> r@.len() == 0,
{
    match outcome {
        Ok(o) => {
            if o.status == 0 {
                parse_addresses(o.stdout.as_str())
            } else {
                Vec::new()
            }
        },
        Err(_) => Vec::new(),
    }
}

} // verus!
