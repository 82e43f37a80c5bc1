//! Where an SQLite database URL keeps its file.
use vstd::prelude::*;

use crate::text::{chars_of, occurs_at_exec, split_by, split_vec, starts_with, str_eq, string_of, Sep};

verus! {

/// The file of an SQLite URL: the part of a `sqlite://` URL before any `?`,
/// none for the in-memory database, another scheme, or an empty path.
pub open spec fn sqlite_path_of(url: Seq<char>) -> Option<Seq<char>> {
    if url == "sqlite::memory:"@ {
        None
    } else if starts_with(url, "sqlite://"@) {
        let path = split_by(url.skip("sqlite://"@.len() as int), Sep::Char('?'))[0];
        if path.len() == 0 {
            None
        } else {
            Some(path)
        }
    } else {
        None
    }
}

/// The file that the database lives in, which must exist before the pool
/// connects (`sqlite_file_path`).
pub fn sqlite_file_path(database_url: &str) -> (r: Option<String>)
    ensures
        r matches Some(p) ==> sqlite_path_of(database_url@) == Some(p@),
        r is None ==> sqlite_path_of(database_url@) is None,
{
    if str_eq(database_url, "sqlite::memory:") {
        return None;
    }
    let u = chars_of(database_url);
    let prefix = chars_of("sqlite://");
    if !occurs_at_exec(u.as_slice(), prefix.as_slice(), 0) {
        return None;
    }
    let n = prefix.len();
    let mut raw: Vec<char> = Vec::new();
    let mut i: usize = n;
    while i < u.len()
        invariant
            n <= i <= u.len(),
            raw@ == u@.subrange(n as int, i as int),
        decreases u.len() - i,
    {
        raw.push(u[i]);
        i = i + 1;
        assert(raw@ =~= u@.subrange(n as int, i as int));
    }
    assert(raw@ =~= database_url@.skip(n as int));
    let pieces = split_vec(raw.as_slice(), Sep::Char('?'));
    proof {
        crate::text::lemma_split_nonempty(raw@, Sep::Char('?'));
    }
    if pieces[0].len() == 0 {
        return None;
    }
    Some(string_of(pieces[0].as_slice()))
}

} // verus!
