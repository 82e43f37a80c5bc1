//! The request id that each request is logged and answered with.
use vstd::prelude::*;

use crate::text::{trim, trim_str};

verus! {

/// The request's `x-request-id` when it carries a readable one that is not
/// blank; otherwise the freshly generated id.
pub fn choose_request_id(header: Option<&str>, fresh: String) -> (r: String)
    ensures
        r@ == (match header {
            Some(h) => if trim(h@).len() > 0 {
                h@
            } else {
                fresh@
            },
            None => fresh@,
        }),
{
    match header {
        Some(h) => {
            let t = trim_str(h);
            if t.as_str().is_empty() {
                fresh
            } else {
                h.to_owned()
            }
        },
        None => fresh,
    }
}

} // verus!
