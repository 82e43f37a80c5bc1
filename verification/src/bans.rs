//! Bans of addresses, domains, IPs and subnets, and the Postfix access
//! files they are written to.
use vstd::prelude::*;

use crate::text::{join, join_strings, str_eq, views};

verus! {

/// A stored ban.
#[derive(Debug, Clone)]
pub struct Ban {
    pub id: i64,
    pub kind: String,
    pub value: String,
    pub reason: String,
    pub created_by: Option<i64>,
    pub created_at: String,
    pub expires_at: Option<String>,
    pub is_active: i64,
}

/// A ban to add.
#[derive(Debug, Clone)]
pub struct CreateBan<'a> {
    pub admin_id: i64,
    pub kind: &'a str,
    pub value: &'a str,
    pub reason: &'a str,
    pub expires_at: Option<&'a str>,
    pub ip_address: Option<&'a str>,
}

/// Bans of one kind and value to switch on or off at once.
#[derive(Debug, Clone)]
pub struct SetBanActiveByValue<'a> {
    pub admin_id: i64,
    pub kind: &'a str,
    pub value: &'a str,
    pub is_active: bool,
    pub ip_address: Option<&'a str>,
}

/// The access file a ban goes to (0 addresses, 1 domains, 2 IPs and
/// subnets) and its line there; other kinds go nowhere.
pub open spec fn ban_line(kind: Seq<char>, value: Seq<char>) -> Option<(int, Seq<char>)> {
    if kind == "address"@ {
        Some((0, value + " REJECT blocked by admin"@))
    } else if kind == "domain"@ {
        Some((1, value + " REJECT domain blocked by admin"@))
    } else if kind == "ip"@ {
        Some((2, value + " REJECT ip blocked by admin"@))
    } else if kind == "subnet"@ {
        Some((2, value + " REJECT subnet blocked by admin"@))
    } else {
        None
    }
}

/// The lines of access file `f`, from the active bans, in order.
pub open spec fn file_lines(bans: Seq<Ban>, f: int) -> Seq<Seq<char>>
    decreases bans.len(),
{
    if bans.len() == 0 {
        Seq::<Seq<char>>::empty()
    } else {
        let rest = file_lines(bans.drop_last(), f);
        let b = bans.last();
        if b.is_active == 1 {
            match ban_line(b.kind@, b.value@) {
                Some((g, line)) => if g == f {
                    rest.push(line)
                } else {
                    rest
                },
                None => rest,
            }
        } else {
            rest
        }
    }
}

/// The line of one ban in its access file.
pub fn ban_file_line(kind: &str, value: &str) -> (r: Option<(usize, String)>)
    ensures
        r matches Some(p) ==> ban_line(kind@, value@) == Some((p.0 as int, p.1@)),
        r is None ==> ban_line(kind@, value@) is None,
{
    let suffix: (usize, &str) = if str_eq(kind, "address") {
        (0, " REJECT blocked by admin")
    } else if str_eq(kind, "domain") {
        (1, " REJECT domain blocked by admin")
    } else if str_eq(kind, "ip") {
        (2, " REJECT ip blocked by admin")
    } else if str_eq(kind, "subnet") {
        (2, " REJECT subnet blocked by admin")
    } else {
        return None;
    };
    let mut line = value.to_owned();
    line.append(suffix.1);
    Some((suffix.0, line))
}

/// The contents of the address, domain and IP access files for a list of
/// bans: each active ban of a known kind as its line, in order, the lines
/// of a file joined by newlines.
pub fn render_ban_files(bans: &[Ban]) -> (r: (String, String, String))
    ensures
        r.0@ == join(file_lines(bans@, 0), seq!['\n']),
        r.1@ == join(file_lines(bans@, 1), seq!['\n']),
        r.2@ == join(file_lines(bans@, 2), seq!['\n']),
{
    let mut addresses: Vec<String> = Vec::new();
    let mut domains: Vec<String> = Vec::new();
    let mut ips: Vec<String> = Vec::new();
    let mut i: usize = 0;
    while i < bans.len()
        invariant
            i <= bans.len(),
            views(addresses@) == file_lines(bans@.take(i as int), 0),
            views(domains@) == file_lines(bans@.take(i as int), 1),
            views(ips@) == file_lines(bans@.take(i as int), 2),
        decreases bans.len() - i,
    {
        let ghost cur = bans@.take(i + 1);
        assert(cur.drop_last() =~= bans@.take(i as int));
        assert(cur.last() == bans@[i as int]);
        if bans[i].is_active == 1 {
            match ban_file_line(bans[i].kind.as_str(), bans[i].value.as_str()) {
                Some((f, line)) => {
                    let ghost lv = line@;
                    if f == 0 {
                        let ghost prev = addresses@;
                        addresses.push(line);
                        assert(views(addresses@) =~= views(prev).push(lv));
                    } else if f == 1 {
                        let ghost prev = domains@;
                        domains.push(line);
                        assert(views(domains@) =~= views(prev).push(lv));
                    } else {
                        let ghost prev = ips@;
                        ips.push(line);
                        assert(views(ips@) =~= views(prev).push(lv));
                    }
                },
                None => {},
            }
        }
        i = i + 1;
    }
    assert(bans@.take(bans.len() as int) =~= bans@);
    proof {
        reveal_strlit("\n");
        assert("\n"@ =~= seq!['\n']);
    }
    (
        join_strings(addresses.as_slice(), "\n"),
        join_strings(domains.as_slice(), "\n"),
        join_strings(ips.as_slice(), "\n"),
    )
}

/// The audit action for switching a ban on or off.
pub fn ban_toggle_action(is_active: bool) -> (r: String)
    ensures
        r@ == (if is_active {
            "ban_reactivated"@
        } else {
            "ban_deactivated"@
        }),
{
    if is_active {
        "ban_reactivated".to_owned()
    } else {
        "ban_deactivated".to_owned()
    }
}


/// The `LIKE` pattern of a ban search: the query between `%` wildcards.
pub fn like_pattern(query: &str) -> (r: String)
    ensures
        r@ == "%"@ + query@ + "%"@,
{
    let mut r = "%".to_owned();
    r.append(query);
    r.append("%");
    r
}

/// Exactly the active bans of a known kind are exported: every line of an
/// access file is the line of an active ban that belongs there, and every
/// such ban has its line in its file.
pub proof fn lemma_ban_files_exact(bans: Seq<Ban>, f: int)
    ensures
        forall|k: int|
            0 <= k < file_lines(bans, f).len() ==> exists|i: int|
                0 <= i < bans.len() && bans[i].is_active == 1 && ban_line(bans[i].kind@, bans[i].value@)
                    == Some((f, #[trigger] file_lines(bans, f)[k])),
        forall|i: int|
            0 <= i < bans.len() && bans[i].is_active == 1 && (#[trigger] ban_line(
                bans[i].kind@,
                bans[i].value@,
            )) is Some && ban_line(bans[i].kind@, bans[i].value@)->Some_0.0 == f ==> file_lines(
                bans,
                f,
            ).contains(ban_line(bans[i].kind@, bans[i].value@)->Some_0.1),
    decreases bans.len(),
{
    if bans.len() > 0 {
        let init = bans.drop_last();
        lemma_ban_files_exact(init, f);
        let rest = file_lines(init, f);
        let whole = file_lines(bans, f);
        assert forall|k: int| 0 <= k < whole.len() implies exists|i: int|
            0 <= i < bans.len() && bans[i].is_active == 1 && ban_line(bans[i].kind@, bans[i].value@)
                == Some((f, #[trigger] whole[k])) by {
            if k < rest.len() {
                assert(whole[k] == rest[k]);
                let i = choose|i: int|
                    0 <= i < init.len() && init[i].is_active == 1 && ban_line(init[i].kind@, init[i].value@)
                        == Some((f, rest[k]));
                assert(bans[i] == init[i]);
            } else {
                assert(bans[bans.len() - 1] == bans.last());
            }
        }
        assert forall|i: int|
            0 <= i < bans.len() && bans[i].is_active == 1 && (#[trigger] ban_line(
                bans[i].kind@,
                bans[i].value@,
            )) is Some && ban_line(bans[i].kind@, bans[i].value@)->Some_0.0 == f implies whole.contains(
            ban_line(bans[i].kind@, bans[i].value@)->Some_0.1,
        ) by {
            let p = ban_line(bans[i].kind@, bans[i].value@)->Some_0;
            if i < bans.len() - 1 {
                assert(bans[i] == init[i]);
                assert(rest.contains(p.1));
                let k = choose|k: int| 0 <= k < rest.len() && rest[k] == p.1;
                assert(whole[k] == p.1);
            } else {
                assert(whole[whole.len() - 1] == p.1);
            }
        }
    }
}

} // verus!
