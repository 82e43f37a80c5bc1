//! The users page.
use vstd::prelude::*;

use crate::text::str_eq;
use crate::users::UserMailbox;

verus! {

pub open spec fn opt_str(o: Option<String>) -> Option<Seq<char>> {
    match o {
        Some(s) => Some(s@),
        None => None,
    }
}

/// The banner after a mailbox delete: its kind, title and message, or
/// nothing for another status.
pub open spec fn banner_of(status: Option<Seq<char>>) -> (
    Option<Seq<char>>,
    Option<Seq<char>>,
    Option<Seq<char>>,
) {
    if status == Some("delete-ok"@) {
        (
            Some("success"@),
            Some("Delete command completed."@),
            Some("The built-in mailbox delete command returned exit code 0."@),
        )
    } else if status == Some("delete-failed"@) {
        (
            Some("error"@),
            Some("Delete command failed."@),
            Some(
                "The built-in mailbox delete command returned a non-zero exit code. Check the audit log or service journal for stderr/stdout."@,
            ),
        )
    } else {
        (None, None, None)
    }
}

pub fn status_banner(status: Option<&str>) -> (r: (Option<String>, Option<String>, Option<String>))
    ensures
        (opt_str(r.0), opt_str(r.1), opt_str(r.2)) == banner_of(
            match status {
                Some(s) => Some(s@),
                None => None,
            },
        ),
{
    match status {
        Some(s) => {
            if str_eq(s, "delete-ok") {
                (
                    Some("success".to_owned()),
                    Some("Delete command completed.".to_owned()),
                    Some("The built-in mailbox delete command returned exit code 0.".to_owned()),
                )
            } else if str_eq(s, "delete-failed") {
                (
                    Some("error".to_owned()),
                    Some("Delete command failed.".to_owned()),
                    Some(
                        "The built-in mailbox delete command returned a non-zero exit code. Check the audit log or service journal for stderr/stdout.".to_owned(),
                    ),
                )
            } else {
                (None, None, None)
            }
        },
        None => (None, None, None),
    }
}

/// The metadata shown for the asked address: that of the first listed user
/// with it, if any.
pub open spec fn metadata_for(users: Seq<UserMailbox>, address: Seq<char>) -> Option<Seq<char>>
    decreases users.len(),
{
    if users.len() == 0 {
        None
    } else if users[0].address@ == address {
        opt_str(users[0].metadata)
    } else {
        metadata_for(users.drop_first(), address)
    }
}

pub fn selected_metadata(users: &[UserMailbox], address: Option<String>) -> (r: Option<String>)
    ensures
        opt_str(r) == (match address {
            Some(a) => metadata_for(users@, a@),
            None => None,
        }),
{
    match address {
        None => None,
        Some(a) => {
            let mut i: usize = 0;
            assert(users@.skip(0) =~= users@);
            while i < users.len()
                invariant
                    i <= users.len(),
                    address == Some(a),
                    metadata_for(users@, a@) == metadata_for(users@.skip(i as int), a@),
                decreases users.len() - i,
            {
                assert(users@.skip(i as int)[0] == users@[i as int]);
                if users[i].address == a {
                    return match &users[i].metadata {
                        Some(m) => Some(m.clone()),
                        None => None,
                    };
                }
                assert(users@.skip(i as int).drop_first() =~= users@.skip(i + 1));
                i = i + 1;
            }
            assert(users@.skip(i as int) =~= Seq::<UserMailbox>::empty());
            None
        },
    }
}

/// The audit action and the page to go back to after a mailbox delete that
/// exited with `status`.
pub fn delete_outcome(status: i32) -> (r: (String, String))
    ensures
        status == 0 ==> r.0@ == "mailbox_deleted"@ && r.1@ == "/admin/users?status=delete-ok"@,
        status != 0 ==> r.0@ == "mailbox_delete_failed"@ && r.1@
            == "/admin/users?status=delete-failed"@,
{
    if status == 0 {
        ("mailbox_deleted".to_owned(), "/admin/users?status=delete-ok".to_owned())
    } else {
        ("mailbox_delete_failed".to_owned(), "/admin/users?status=delete-failed".to_owned())
    }
}

} // verus!
