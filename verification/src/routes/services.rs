//! The services page.
use vstd::prelude::*;

use crate::text::{str_eq, views};

verus! {

pub open spec fn opt_str(o: Option<String>) -> Option<Seq<char>> {
    match o {
        Some(s) => Some(s@),
        None => None,
    }
}

/// The banner after a service action.
pub open spec fn action_banner(status: Option<Seq<char>>) -> (Option<Seq<char>>, Option<Seq<char>>) {
    if status == Some("service-ok"@) {
        (Some("success"@), Some("Service action completed."@))
    } else if status == Some("service-failed"@) {
        (Some("error"@), Some("Service action failed."@))
    } else {
        (None, None)
    }
}

pub fn service_status(status: Option<&str>) -> (r: (Option<String>, Option<String>))
    ensures
        (opt_str(r.0), opt_str(r.1)) == action_banner(
            match status {
                Some(s) => Some(s@),
                None => None,
            },
        ),
{
    match status {
        Some(s) => {
            if str_eq(s, "service-ok") {
                (Some("success".to_owned()), Some("Service action completed.".to_owned()))
            } else if str_eq(s, "service-failed") {
                (Some("error".to_owned()), Some("Service action failed.".to_owned()))
            } else {
                (None, None)
            }
        },
        None => (None, None),
    }
}

/// The service whose journal the page shows: the asked one, else the first
/// configured one, else none (empty).
pub fn selected_service(asked: Option<String>, services: &[String]) -> (r: String)
    ensures
        r@ == (match asked {
            Some(a) => a@,
            None => if services@.len() > 0 {
                services@[0]@
            } else {
                Seq::<char>::empty()
            },
        }),
{
    match asked {
        Some(a) => a,
        None => {
            if services.len() > 0 {
                services[0].clone()
            } else {
                String::new()
            }
        },
    }
}

/// Where the browser goes after a service action:
/// `/admin/services?status=<service-ok|service-failed>&service=<service>`.
pub fn action_redirect(service: &str, exit_status: i32) -> (r: String)
    ensures
        r@ == "/admin/services?status="@ + (if exit_status == 0 {
            "service-ok"@
        } else {
            "service-failed"@
        }) + "&service="@ + service@,
{
    let mut r = "/admin/services?status=".to_owned();
    if exit_status == 0 {
        r.append("service-ok");
    } else {
        r.append("service-failed");
    }
    r.append("&service=");
    r.append(service);
    r
}

} // verus!
