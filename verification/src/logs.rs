//! Journal lines for the logs page: how they are fetched, graded and
//! searched.
use vstd::prelude::*;

use crate::number::{dec_nat, format_usize};
use crate::text::{
    ascii_lowercase, chars_of, contains_str, has_sub, lemma_lower_contains, lines_of, lines_str,
    lower_vec, to_lower, views,
    contains_vec,
};

verus! {

/// One journal line and its grade (`error`, `warn` or `info`).
#[derive(Debug, Clone)]
pub struct LogLine {
    pub level: String,
    pub text: String,
}

/// A line is an error when it mentions `reject` or `error`, a warning when
/// it mentions `warn`, in any ASCII case; otherwise it is informational.
pub open spec fn log_level(line: Seq<char>) -> Seq<char> {
    let lower = to_lower(line);
    if has_sub(lower, "reject"@) || has_sub(lower, "error"@) {
        "error"@
    } else if has_sub(lower, "warn"@) {
        "warn"@
    } else {
        "info"@
    }
}

pub fn classify_log_line(line: &str) -> (r: String)
    ensures
        r@ == log_level(line@),
{
    let lower = ascii_lowercase(line);
    if contains_str(lower.as_str(), "reject") || contains_str(lower.as_str(), "error") {
        "error".to_owned()
    } else if contains_str(lower.as_str(), "warn") {
        "warn".to_owned()
    } else {
        "info".to_owned()
    }
}

/// `journalctl -u <unit> -n <limit> --no-pager`.
pub fn journal_unit_command(unit: &str, limit: usize) -> (r: Vec<String>)
    ensures
        views(r@) == seq![
            "journalctl"@,
            "-u"@,
            unit@,
            "-n"@,
            dec_nat(limit as nat),
            "--no-pager"@,
        ],
{
    let r = vec![
        "journalctl".to_owned(),
        "-u".to_owned(),
        unit.to_owned(),
        "-n".to_owned(),
        format_usize(limit),
        "--no-pager".to_owned(),
    ];
    assert(views(r@) =~= seq![
        "journalctl"@,
        "-u"@,
        unit@,
        "-n"@,
        dec_nat(limit as nat),
        "--no-pager"@,
    ]);
    r
}

/// `-t <identifier>` for each identifier, in order.
pub open spec fn identifier_args<'a>(ids: Seq<&'a str>) -> Seq<Seq<char>>
    decreases ids.len(),
{
    if ids.len() == 0 {
        Seq::<Seq<char>>::empty()
    } else {
        identifier_args(ids.drop_last()) + seq!["-t"@, ids.last()@]
    }
}

/// `journalctl -t <id>... -n <limit> --no-pager --output short-iso`.
pub fn journal_identifiers_command(identifiers: &[&str], limit: usize) -> (r: Vec<String>)
    ensures
        views(r@) == seq!["journalctl"@] + identifier_args(identifiers@) + seq![
            "-n"@,
            dec_nat(limit as nat),
            "--no-pager"@,
            "--output"@,
            "short-iso"@,
        ],
{
    let mut r: Vec<String> = vec!["journalctl".to_owned()];
    let mut i: usize = 0;
    assert(identifiers@.take(0) =~= Seq::<&str>::empty());
    assert(views(r@) =~= seq!["journalctl"@] + identifier_args(identifiers@.take(0)));
    while i < identifiers.len()
        invariant
            i <= identifiers.len(),
            views(r@) == seq!["journalctl"@] + identifier_args(identifiers@.take(i as int)),
        decreases identifiers.len() - i,
    {
        let ghost prev = views(r@);
        r.push("-t".to_owned());
        r.push(identifiers[i].to_owned());
        i = i + 1;
        assert(identifiers@.take(i as int).drop_last() =~= identifiers@.take(i - 1));
        assert(views(r@) =~= prev + seq!["-t"@, identifiers@[i - 1]@]);
    }
    assert(identifiers@.take(identifiers.len() as int) =~= identifiers@);
    let ghost before = views(r@);
    r.push("-n".to_owned());
    r.push(format_usize(limit));
    r.push("--no-pager".to_owned());
    r.push("--output".to_owned());
    r.push("short-iso".to_owned());
    assert(views(r@) =~= before + seq![
        "-n"@,
        dec_nat(limit as nat),
        "--no-pager"@,
        "--output"@,
        "short-iso"@,
    ]);
    r
}

/// The lines of what the journal printed, each graded; a failed command is
/// one error line with its message.
pub open spec fn graded_lines(outcome: Result<String, String>) -> Seq<(Seq<char>, Seq<char>)> {
    match outcome {
        Ok(out) => lines_of(out@).map_values(|l: Seq<char>| (log_level(l), l)),
        Err(e) => seq![("error"@, e@)],
    }
}

/// The lines whose text holds the query, ASCII case ignored, in order.
pub open spec fn matching_lines(lines: Seq<(Seq<char>, Seq<char>)>, query: Seq<char>) -> Seq<
    (Seq<char>, Seq<char>),
>
    decreases lines.len(),
{
    if lines.len() == 0 {
        lines
    } else {
        let rest = matching_lines(lines.drop_last(), query);
        if has_sub(to_lower(lines.last().1), to_lower(query)) {
            rest.push(lines.last())
        } else {
            rest
        }
    }
}

/// A query keeps exactly the lines whose text holds it at some position,
/// ASCII case ignored, and nothing else.
pub proof fn lemma_query_keeps_lines_holding_it(
    lines: Seq<(Seq<char>, Seq<char>)>,
    query: Seq<char>,
)
    ensures
        forall|x: (Seq<char>, Seq<char>)|
            #[trigger] matching_lines(lines, query).contains(x) <==> (lines.contains(x) && exists|
                i: int,
            |
                0 <= i && i + query.len() <= x.1.len() && #[trigger] to_lower(x.1).subrange(
                    i,
                    i + query.len(),
                ) == to_lower(query)),
        matching_lines(lines, query).len() <= lines.len(),
    decreases lines.len(),
{
    if lines.len() > 0 {
        let init = lines.drop_last();
        let last = lines.last();
        lemma_query_keeps_lines_holding_it(init, query);
        let rest = matching_lines(init, query);
        lemma_lower_contains(last.1, query);
        assert forall|x: (Seq<char>, Seq<char>)|
            #[trigger] matching_lines(lines, query).contains(x) <==> (lines.contains(x) && exists|
                i: int,
            |
                0 <= i && i + query.len() <= x.1.len() && #[trigger] to_lower(x.1).subrange(
                    i,
                    i + query.len(),
                ) == to_lower(query)) by {
            lemma_lower_contains(x.1, query);
            if lines.contains(x) {
                let k = choose|k: int| 0 <= k < lines.len() && lines[k] == x;
                if k < init.len() {
                    assert(init[k] == x);
                }
            }
            if init.contains(x) {
                let k = choose|k: int| 0 <= k < init.len() && init[k] == x;
                assert(lines[k] == x);
            }
            assert(lines[lines.len() - 1] == last);
            if has_sub(to_lower(last.1), to_lower(query)) {
                let m = rest.push(last);
                assert(m[rest.len() as int] == last);
                if m.contains(x) {
                    let k = choose|k: int| 0 <= k < m.len() && m[k] == x;
                    if k < rest.len() {
                        assert(rest[k] == x);
                    }
                }
                if rest.contains(x) {
                    let k = choose|k: int| 0 <= k < rest.len() && rest[k] == x;
                    assert(m[k] == x);
                }
            }
        }
    }
}

/// The lines shown: all graded lines, or with a query only those that hold
/// it.
pub open spec fn shown_lines(outcome: Result<String, String>, query: Option<&str>) -> Seq<
    (Seq<char>, Seq<char>),
> {
    match query {
        Some(q) => matching_lines(graded_lines(outcome), q@),
        None => graded_lines(outcome),
    }
}

pub open spec fn line_views(v: Seq<LogLine>) -> Seq<(Seq<char>, Seq<char>)> {
    Seq::new(v.len(), |i: int| (v[i].level@, v[i].text@))
}

/// The log lines of a journal read (`read_journal_unit` and
/// `read_journal_identifiers` once the command has run): `outcome` is what
/// the command printed, or its error.
pub fn collect_log_lines(outcome: Result<String, String>, query: Option<&str>) -> (r: Vec<LogLine>)
    ensures
        line_views(r@) == shown_lines(outcome, query),
{
    let ghost out = outcome;
    let mut lines: Vec<LogLine> = Vec::new();
    match outcome {
        Ok(stdout) => {
            let ls = lines_str(stdout.as_str());
            let mut i: usize = 0;
            while i < ls.len()
                invariant
                    i <= ls.len(),
                    views(ls@) == lines_of(stdout@),
                    line_views(lines@) == lines_of(stdout@).take(i as int).map_values(
                        |l: Seq<char>| (log_level(l), l),
                    ),
                decreases ls.len() - i,
            {
                let level = classify_log_line(ls[i].as_str());
                let ghost prev = line_views(lines@);
                let ghost lv = (level@, ls@[i as int]@);
                lines.push(LogLine { level, text: ls[i].clone() });
                i = i + 1;
                assert(line_views(lines@) =~= prev.push(lv));
                assert(lines_of(stdout@).take(i as int).map_values(|l: Seq<char>| (log_level(l), l))
                    =~= lines_of(stdout@).take(i - 1).map_values(|l: Seq<char>| (log_level(l), l)).push(
                    (log_level(lines_of(stdout@)[i - 1]), lines_of(stdout@)[i - 1]),
                ));
            }
            assert(lines_of(stdout@).take(ls.len() as int) =~= lines_of(stdout@));
        },
        Err(e) => {
            lines.push(LogLine { level: "error".to_owned(), text: e });
            assert(line_views(lines@) =~= graded_lines(out));
        },
    }
    match query {
        None => lines,
        Some(q) => {
            let qv = chars_of(q);
            let ql = lower_vec(qv.as_slice());
            let mut kept: Vec<LogLine> = Vec::new();
            let mut i: usize = 0;
            while i < lines.len()
                invariant
                    i <= lines.len(),
                    ql@ == to_lower(q@),
                    line_views(kept@) == matching_lines(line_views(lines@).take(i as int), q@),
                decreases lines.len() - i,
            {
                let tv = chars_of(lines[i].text.as_str());
                let tl = lower_vec(tv.as_slice());
                let ghost cur = line_views(lines@).take(i + 1);
                assert(cur.drop_last() =~= line_views(lines@).take(i as int));
                assert(cur.last() == (lines@[i as int].level@, lines@[i as int].text@));
                if contains_vec(tl.as_slice(), ql.as_slice()) {
                    let ghost prev = line_views(kept@);
                    kept.push(LogLine { level: lines[i].level.clone(), text: lines[i].text.clone() });
                    assert(line_views(kept@) =~= prev.push(cur.last()));
                }
                i = i + 1;
            }
            assert(line_views(lines@).take(lines.len() as int) =~= line_views(lines@));
            kept
        },
    }
}

} // verus!
