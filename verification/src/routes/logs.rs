//! The logs page.
use vstd::prelude::*;

use crate::chatmail::{is_listed_source, log_source_names, log_sources, LogSource};
use crate::text::str_eq;

verus! {

/// A source in the page's source list, and whether it is the one shown.
#[derive(Debug, Clone)]
pub struct LogSourceView {
    pub name: String,
    pub selected: bool,
}

/// How many journal lines the page asks for when the query does not say.
pub const DEFAULT_LOG_LIMIT: usize = 200;

pub fn log_limit(limit: Option<usize>) -> (r: usize)
    ensures
        r == (match limit {
            Some(l) => l,
            None => DEFAULT_LOG_LIMIT,
        }),
{
    match limit {
        Some(l) => l,
        None => DEFAULT_LOG_LIMIT,
    }
}

/// Every source, in order, marked when its name is the shown source's.
pub fn log_source_views(shown: &LogSource) -> (r: Vec<LogSourceView>)
    ensures
        r@.len() == log_source_names().len(),
        forall|i: int|
            0 <= i < r@.len() ==> (#[trigger] r@[i]).name@ == log_source_names()[i] && r@[i].selected
                == (log_source_names()[i] == shown.name@),
{
    let sources = log_sources();
    let mut r: Vec<LogSourceView> = Vec::new();
    let mut i: usize = 0;
    while i < sources.len()
        invariant
            i <= sources.len(),
            sources@.len() == log_source_names().len(),
            forall|k: int| 0 <= k < sources@.len() ==> is_listed_source(#[trigger] sources@[k], k),
            r@.len() == i,
            forall|k: int|
                0 <= k < i ==> (#[trigger] r@[k]).name@ == log_source_names()[k] && r@[k].selected
                    == (log_source_names()[k] == shown.name@),
        decreases sources.len() - i,
    {
        assert(is_listed_source(sources@[i as int], i as int));
        let selected = str_eq(sources[i].name, shown.name);
        r.push(LogSourceView { name: sources[i].name.to_owned(), selected });
        i = i + 1;
    }
    r
}

} // verus!
