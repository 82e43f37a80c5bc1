//! The JSON API.
use vstd::prelude::*;

use crate::text::{
    chars_of, contains_vec, has_sub, lower_vec, occurs_at, to_lower, trim, trim_vec,
};
use crate::users::UserMailbox;

verus! {

/// The users whose address holds `q` (ASCII case ignored), in order.
pub open spec fn users_matching(users: Seq<UserMailbox>, q: Seq<char>) -> Seq<UserMailbox>
    decreases users.len(),
{
    if users.len() == 0 {
        users
    } else {
        let rest = users_matching(users.drop_last(), q);
        if has_sub(to_lower(users.last().address@), q) {
            rest.push(users.last())
        } else {
            rest
        }
    }
}

/// The users the query keeps: with a non-blank `q`, those whose address
/// holds it trimmed and lower-cased; all of them otherwise.
pub open spec fn users_kept(users: Seq<UserMailbox>, q: Option<&str>) -> Seq<UserMailbox> {
    match q {
        Some(f) => if to_lower(trim(f@)).len() > 0 {
            users_matching(users, to_lower(trim(f@)))
        } else {
            users
        },
        None => users,
    }
}

proof fn lemma_matching_members(users: Seq<UserMailbox>, q: Seq<char>)
    ensures
        forall|u: UserMailbox|
            #[trigger] users_matching(users, q).contains(u) <==> (users.contains(u) && exists|i: int|
                0 <= i && i + q.len() <= u.address@.len() && #[trigger] to_lower(
                    u.address@,
                ).subrange(i, i + q.len()) == q),
    decreases users.len(),
{
    if users.len() > 0 {
        let init = users.drop_last();
        let last = users.last();
        lemma_matching_members(init, q);
        let rest = users_matching(init, q);
        assert forall|u: UserMailbox|
            #[trigger] users_matching(users, q).contains(u) <==> (users.contains(u) && exists|i: int|
                0 <= i && i + q.len() <= u.address@.len() && #[trigger] to_lower(
                    u.address@,
                ).subrange(i, i + q.len()) == q) by {
            let s = to_lower(u.address@);
            if has_sub(s, q) {
                let i = choose|i: int| occurs_at(s, q, i);
                assert(s.subrange(i, i + q.len()) == q);
            }
            if exists|i: int|
                0 <= i && i + q.len() <= u.address@.len() && #[trigger] to_lower(
                    u.address@,
                ).subrange(i, i + q.len()) == q {
                let i = choose|i: int|
                    0 <= i && i + q.len() <= u.address@.len() && #[trigger] to_lower(
                        u.address@,
                    ).subrange(i, i + q.len()) == q;
                assert(occurs_at(s, q, i));
            }
            if users.contains(u) {
                let k = choose|k: int| 0 <= k < users.len() && users[k] == u;
                if k < init.len() {
                    assert(init[k] == u);
                }
            }
            if init.contains(u) {
                let k = choose|k: int| 0 <= k < init.len() && init[k] == u;
                assert(users[k] == u);
            }
            assert(users[users.len() - 1] == last);
            if has_sub(to_lower(last.address@), q) {
                let m = rest.push(last);
                assert(m[rest.len() as int] == last);
                if m.contains(u) {
                    let k = choose|k: int| 0 <= k < m.len() && m[k] == u;
                    if k < rest.len() {
                        assert(rest[k] == u);
                    }
                }
                if rest.contains(u) {
                    let k = choose|k: int| 0 <= k < rest.len() && rest[k] == u;
                    assert(m[k] == u);
                }
            }
        }
    }
}

/// The users API's search keeps exactly the users whose address, ASCII
/// case ignored, holds the trimmed, lower-cased query at some position;
/// a blank query or none keeps every user.
pub proof fn lemma_search_keeps_users_holding_query(users: Seq<UserMailbox>, f: &str)
    ensures
        ({
            let q = to_lower(trim(f@));
            &&& q.len() > 0 ==> forall|u: UserMailbox|
                #[trigger] users_kept(users, Some(f)).contains(u) <==> (users.contains(u)
                    && exists|i: int|
                    0 <= i && i + q.len() <= u.address@.len() && #[trigger] to_lower(
                        u.address@,
                    ).subrange(i, i + q.len()) == q)
            &&& q.len() == 0 ==> users_kept(users, Some(f)) == users
        }),
        users_kept(users, None) == users,
{
    lemma_matching_members(users, to_lower(trim(f@)));
}

/// The users listed by `GET /api/v1/admin/users` and their total before the
/// limit: the kept users, at most `limit` of them.
pub fn filter_users(rows: Vec<UserMailbox>, q: Option<&str>, limit: Option<usize>) -> (r: (
    Vec<UserMailbox>,
    usize,
))
    ensures
        r.1 == users_kept(rows@, q).len(),
        r.0@ == (match limit {
            Some(l) => if l < r.1 {
                users_kept(rows@, q).take(l as int)
            } else {
                users_kept(rows@, q)
            },
            None => users_kept(rows@, q),
        }),
{
    let ghost orig = rows@;
    let mut kept: Vec<UserMailbox> = match q {
        None => rows,
        Some(f) => {
            let fv = chars_of(f);
            let t = trim_vec(fv.as_slice());
            let ql = lower_vec(t.as_slice());
            if ql.len() == 0 {
                rows
            } else {
                let n = rows.len();
                let mut rest = rows;
                let mut out: Vec<UserMailbox> = Vec::new();
                let mut i: usize = 0;
                assert(orig.skip(0) =~= orig);
                while rest.len() > 0
                    invariant
                        i <= orig.len(),
                        orig.len() == n,
                        rest@ == orig.skip(i as int),
                        rest@.len() + i == orig.len(),
                        ql@ == to_lower(trim(f@)),
                        out@ == users_matching(orig.take(i as int), ql@),
                    decreases rest.len(),
                {
                    let u = rest.remove(0);
                    assert(u == orig[i as int]);
                    assert(orig.take(i + 1).drop_last() =~= orig.take(i as int));
                    let av = chars_of(u.address.as_str());
                    let al = lower_vec(av.as_slice());
                    if contains_vec(al.as_slice(), ql.as_slice()) {
                        out.push(u);
                    }
                    i = i + 1;
                    assert(rest@ =~= orig.skip(i as int));
                }
                assert(orig.take(i as int) =~= orig);
                out
            }
        },
    };
    let total = kept.len();
    match limit {
        Some(l) => {
            if l < total {
                kept.truncate(l);
            }
        },
        None => {},
    }
    (kept, total)
}

} // verus!
