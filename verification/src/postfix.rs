//! Keeping Postfix's restriction lists pointed at the ban files.
//!
//! A restriction list is the comma-separated value of a `smtpd_*_restrictions`
//! parameter. Two rules are the same when their words, lower-cased, are the
//! same.
use vstd::prelude::*;

use crate::config::BansConfig;
use crate::shell::CommandOutput;
use crate::text::{
    lemma_drop_empty_add, lemma_drop_empty_blank, lemma_drop_empty_id, lemma_drop_empty_keeps,
    lemma_drop_empty_members, lemma_split_concat, lemma_split_no_sep, lemma_split_pieces_lack,
    lemma_trim_all_add, lemma_trim_first, lemma_trim_space_prefix, lemma_trim_sub, lemma_trim_trim,
    lemma_words_nonempty, lemma_words_trim, chars_of, drop_empty, drop_empty_vecs, join, join_strings, join_vecs, lower_vec, split_by, split_vec,
    string_of, strings_eq, strings_of_vecs, to_lower, trim, trim_all, is_sep, trim_str, trim_vec, views, vviews, words, Sep,
};

verus! {

/// What one run of the ban policy sync changed and left alone.
#[derive(Debug, Clone)]
pub struct PolicySyncResult {
    pub changed: Vec<String>,
    pub unchanged: Vec<String>,
}

/// The comparison key of a rule: its words, joined by single spaces,
/// lower-cased.
pub open spec fn rule_key(raw: Seq<char>) -> Seq<char> {
    to_lower(join(words(raw), seq![' ']))
}

/// The rules of a restriction list: the comma-separated items, trimmed, the
/// empty ones left out.
pub open spec fn restrictions_of(raw: Seq<char>) -> Seq<Seq<char>> {
    drop_empty(trim_all(split_by(raw, Sep::Char(','))))
}

pub open spec fn rule_keys(parts: Seq<Seq<char>>) -> Seq<Seq<char>> {
    parts.map_values(|p: Seq<char>| rule_key(p))
}

/// The keys of the rules of a restriction list, in order.
pub open spec fn normalized_restrictions(raw: Seq<char>) -> Seq<Seq<char>> {
    rule_keys(restrictions_of(raw))
}

/// Some rule of `items` has the key of `req`.
pub open spec fn covers(items: Seq<Seq<char>>, req: Seq<char>) -> bool {
    exists|i: int| 0 <= i < items.len() && rule_key(items[i]) == rule_key(req)
}

/// The required rules that a merge puts in front of `items`, in the order
/// they end up in: the required rules are taken from the last to the first,
/// and each one that nothing in the list covers yet goes to the front.
pub open spec fn missing_rules(items: Seq<Seq<char>>, required: Seq<Seq<char>>) -> Seq<Seq<char>>
    decreases required.len(),
{
    if required.len() == 0 {
        Seq::<Seq<char>>::empty()
    } else {
        let req = required.last();
        let pre = if covers(items, req) {
            Seq::<Seq<char>>::empty()
        } else {
            seq![req]
        };
        missing_rules(pre + items, required.drop_last()) + pre
    }
}

/// The rules of the merged list.
pub open spec fn merged_rules(current: Seq<char>, required: Seq<Seq<char>>) -> Seq<Seq<char>> {
    missing_rules(restrictions_of(current), required) + restrictions_of(current)
}

/// The merged list as Postfix gets it: the rules joined by `", "`.
pub open spec fn merged_restrictions(current: Seq<char>, required: Seq<Seq<char>>) -> Seq<char> {
    join(merged_rules(current, required), seq![',', ' '])
}

/// The pieces of a list of rules split at commas, each trimmed, empty ones
/// left out (`split_restrictions`).
pub fn split_restrictions(raw: &str) -> (r: Vec<String>)
    ensures
        views(r@) == restrictions_of(raw@),
{
    let v = chars_of(raw);
    let parts = split_vec(v.as_slice(), Sep::Char(','));
    let mut trimmed: Vec<Vec<char>> = Vec::new();
    let mut i: usize = 0;
    while i < parts.len()
        invariant
            i <= parts.len(),
            vviews(parts@) == split_by(raw@, Sep::Char(',')),
            vviews(trimmed@) == trim_all(vviews(parts@).take(i as int)),
        decreases parts.len() - i,
    {
        let ghost prev = trimmed@;
        let t = trim_vec(parts[i].as_slice());
        let ghost tv = t@;
        trimmed.push(t);
        i = i + 1;
        assert(vviews(trimmed@) =~= vviews(prev).push(tv));
        assert(trim_all(vviews(parts@).take(i as int)) =~= trim_all(vviews(parts@).take(i - 1)).push(
            trim(vviews(parts@)[i - 1]),
        ));
    }
    assert(vviews(parts@).take(parts.len() as int) =~= vviews(parts@));
    let kept = drop_empty_vecs(trimmed);
    strings_of_vecs(kept.as_slice())
}

/// The comparison key of one rule (`normalize_rule`).
pub fn normalize_rule(raw: &str) -> (r: String)
    ensures
        r@ == rule_key(raw@),
{
    let v = chars_of(raw);
    let parts = split_vec(v.as_slice(), Sep::Whitespace);
    let ws = drop_empty_vecs(parts);
    let sep: Vec<char> = vec![' '];
    let joined = join_vecs(ws.as_slice(), sep.as_slice());
    assert(sep@ =~= seq![' ']);
    let lowered = lower_vec(joined.as_slice());
    string_of(lowered.as_slice())
}

/// The keys of the rules of a list (`normalize_restriction_list`).
pub fn normalize_restriction_list(raw: &str) -> (r: Vec<String>)
    ensures
        views(r@) == normalized_restrictions(raw@),
{
    let items = split_restrictions(raw);
    let mut r: Vec<String> = Vec::new();
    let mut i: usize = 0;
    while i < items.len()
        invariant
            i <= items.len(),
            views(items@) == restrictions_of(raw@),
            views(r@) == rule_keys(views(items@).take(i as int)),
        decreases items.len() - i,
    {
        let ghost prev = r@;
        let k = normalize_rule(items[i].as_str());
        let ghost kv = k@;
        r.push(k);
        i = i + 1;
        assert(views(r@) =~= views(prev).push(kv));
        assert(rule_keys(views(items@).take(i as int)) =~= rule_keys(views(items@).take(i - 1)).push(
            rule_key(views(items@)[i - 1]),
        ));
    }
    assert(views(items@).take(items.len() as int) =~= views(items@));
    r
}

fn covers_exec(items: &[String], req: &String) -> (b: bool)
    ensures
        b == covers(views(items@), req@),
{
    let key = normalize_rule(req.as_str());
    let mut i: usize = 0;
    while i < items.len()
        invariant
            i <= items.len(),
            key@ == rule_key(req@),
            forall|k: int| 0 <= k < i ==> rule_key(views(items@)[k]) != rule_key(req@),
        decreases items.len() - i,
    {
        let ik = normalize_rule(items[i].as_str());
        if ik == key {
            assert(rule_key(views(items@)[i as int]) == rule_key(req@));
            return true;
        }
        i = i + 1;
    }
    false
}

/// The current list with every required rule that it lacks put in front
/// (`merge_restrictions`).
pub fn merge_restrictions(current: &str, required: &[String]) -> (r: String)
    ensures
        r@ == merged_restrictions(current@, views(required@)),
{
    let mut items = split_restrictions(current);
    let ghost s0 = restrictions_of(current@);
    let ghost req = views(required@);
    let mut j: usize = required.len();
    assert(req.take(j as int) =~= req);
    while j > 0
        invariant
            j <= required.len(),
            req == views(required@),
            missing_rules(s0, req) + s0 == missing_rules(views(items@), req.take(j as int)) + views(
                items@,
            ),
        decreases j,
    {
        j = j - 1;
        let ghost before = views(items@);
        let ghost rj = req.take(j + 1);
        assert(rj.drop_last() =~= req.take(j as int));
        assert(rj.last() == required@[j as int]@);
        if !covers_exec(items.as_slice(), &required[j]) {
            items.insert(0, required[j].clone());
            assert(views(items@) =~= seq![required@[j as int]@] + before);
        } else {
            assert(Seq::<Seq<char>>::empty() + before =~= before);
        }
    }
    assert(req.take(0) =~= Seq::<Seq<char>>::empty());
    assert(missing_rules(views(items@), req.take(0)) + views(items@) =~= views(items@));
    proof {
        reveal_strlit(", ");
        assert(", "@ =~= seq![',', ' ']);
    }
    join_strings(items.as_slice(), ", ")
}

/// What a command reported: its error output when there is any, otherwise
/// its standard output (`format_output`).
pub fn format_output(output: &CommandOutput) -> (r: String)
    ensures
        r@ == (if output.stderr@.len() == 0 {
            output.stdout@
        } else {
            output.stderr@
        }),
{
    if output.stderr.as_str().is_empty() {
        output.stdout.clone()
    } else {
        output.stderr.clone()
    }
}


/// A rule of a parsed list is trimmed, not empty, and holds no comma.
pub open spec fn is_clean_rule(x: Seq<char>) -> bool {
    trim(x) == x && x.len() > 0 && !x.contains(',')
}

pub open spec fn no_commas(parts: Seq<Seq<char>>) -> bool {
    forall|i: int| 0 <= i < parts.len() ==> !(#[trigger] parts[i]).contains(',')
}

proof fn lemma_clean_after_trim(parts: Seq<Seq<char>>)
    requires
        no_commas(parts),
    ensures
        forall|i: int|
            0 <= i < drop_empty(trim_all(parts)).len() ==> is_clean_rule(
                #[trigger] drop_empty(trim_all(parts))[i],
            ),
{
    let t = trim_all(parts);
    lemma_drop_empty_members(t);
    assert forall|i: int| 0 <= i < drop_empty(t).len() implies is_clean_rule(
        #[trigger] drop_empty(t)[i],
    ) by {
        let j = choose|j: int| 0 <= j < t.len() && t[j] == drop_empty(t)[i];
        lemma_trim_trim(parts[j]);
        lemma_trim_sub(parts[j], ',');
    }
}

/// The rules of any list are clean.
pub proof fn lemma_restrictions_clean(raw: Seq<char>)
    ensures
        forall|i: int|
            0 <= i < restrictions_of(raw).len() ==> is_clean_rule(#[trigger] restrictions_of(raw)[i]),
{
    lemma_split_pieces_lack(raw, ',');
    lemma_clean_after_trim(split_by(raw, Sep::Char(',')));
}

/// Parsing a joined list of comma-free rules gives back their trimmed,
/// non-empty forms.
pub proof fn lemma_restrictions_of_join(m: Seq<Seq<char>>)
    requires
        no_commas(m),
    ensures
        restrictions_of(join(m, seq![',', ' '])) == drop_empty(trim_all(m)),
    decreases m.len(),
{
    let sep = seq![',', ' '];
    let k = Sep::Char(',');
    if m.len() == 0 {
        let e = Seq::<char>::empty();
        assert(split_by(e, k) =~= seq![e]);
        assert(trim_all(seq![e]) =~= seq![e]);
        assert(seq![e].drop_last() =~= Seq::<Seq<char>>::empty());
        assert(drop_empty(Seq::<Seq<char>>::empty()) =~= Seq::<Seq<char>>::empty());
        assert(trim_all(m) =~= Seq::<Seq<char>>::empty());
    } else if m.len() == 1 {
        assert forall|i: int| 0 <= i < m[0].len() implies !is_sep(k, #[trigger] m[0][i]) by {}
        lemma_split_no_sep(m[0], k);
        assert(trim_all(seq![m[0]]) =~= trim_all(m));
    } else {
        let init = m.drop_last();
        let last = m.last();
        let spaced = seq![' '] + last;
        assert forall|i: int| 0 <= i < init.len() implies !(#[trigger] init[i]).contains(',') by {
            assert(init[i] == m[i]);
        }
        lemma_restrictions_of_join(init);
        assert(join(m, sep) =~= join(init, sep) + seq![','] + spaced);
        lemma_split_concat(join(init, sep), ',', spaced, k);
        assert(!last.contains(','));
        assert forall|i: int| 0 <= i < spaced.len() implies !is_sep(k, #[trigger] spaced[i]) by {
            if i > 0 {
                assert(spaced[i] == last[i - 1]);
            }
        }
        lemma_split_no_sep(spaced, k);
        let a = split_by(join(init, sep), k);
        lemma_trim_all_add(a, seq![spaced]);
        lemma_drop_empty_add(trim_all(a), trim_all(seq![spaced]));
        lemma_trim_space_prefix(last);
        assert(trim_all(seq![spaced]) =~= trim_all(seq![last]));
        assert(m =~= init + seq![last]);
        lemma_trim_all_add(init, seq![last]);
        lemma_drop_empty_add(trim_all(init), trim_all(seq![last]));
    }
}

pub proof fn lemma_covers_prefix(pre: Seq<Seq<char>>, items: Seq<Seq<char>>, q: Seq<char>)
    requires
        covers(items, q),
    ensures
        covers(pre + items, q),
{
    let i = choose|i: int| 0 <= i < items.len() && rule_key(items[i]) == rule_key(q);
    assert((pre + items)[pre.len() + i] == items[i]);
}

/// After a merge every required rule is covered.
pub proof fn lemma_missing_covers(items: Seq<Seq<char>>, required: Seq<Seq<char>>)
    ensures
        forall|j: int|
            0 <= j < required.len() ==> covers(
                missing_rules(items, required) + items,
                #[trigger] required[j],
            ),
    decreases required.len(),
{
    if required.len() > 0 {
        let req = required.last();
        let pre = if covers(items, req) {
            Seq::<Seq<char>>::empty()
        } else {
            seq![req]
        };
        let rest = required.drop_last();
        lemma_missing_covers(pre + items, rest);
        let mid = pre + items;
        let whole = missing_rules(mid, rest) + mid;
        assert(missing_rules(items, required) + items =~= whole);
        if covers(items, req) {
            assert(pre + items =~= items);
        } else {
            assert(mid[0] == req);
            assert(covers(mid, req));
        }
        lemma_covers_prefix(missing_rules(mid, rest), mid, req);
        assert forall|j: int| 0 <= j < required.len() implies covers(
            whole,
            #[trigger] required[j],
        ) by {
            if j < required.len() - 1 {
                assert(required[j] == rest[j]);
            }
        }
    }
}

/// The rules that a merge adds come from the required ones.
pub proof fn lemma_missing_from_required(items: Seq<Seq<char>>, required: Seq<Seq<char>>)
    ensures
        forall|k: int|
            0 <= k < missing_rules(items, required).len() ==> exists|j: int|
                0 <= j < required.len() && required[j] == #[trigger] missing_rules(items, required)[k],
    decreases required.len(),
{
    if required.len() > 0 {
        let req = required.last();
        let pre = if covers(items, req) {
            Seq::<Seq<char>>::empty()
        } else {
            seq![req]
        };
        let rest = required.drop_last();
        lemma_missing_from_required(pre + items, rest);
        let ms = missing_rules(pre + items, rest);
        assert forall|k: int| 0 <= k < missing_rules(items, required).len() implies exists|j: int|
            0 <= j < required.len() && required[j] == #[trigger] missing_rules(
                items,
                required,
            )[k] by {
            if k < ms.len() {
                let j = choose|j: int| 0 <= j < rest.len() && rest[j] == ms[k];
                assert(required[j] == rest[j]);
            } else {
                assert(missing_rules(items, required)[k] == req);
                assert(required[required.len() - 1] == req);
            }
        }
    }
}

/// When every required rule is covered or blank, a merge adds blank rules
/// only.
pub proof fn lemma_missing_blank(items: Seq<Seq<char>>, required: Seq<Seq<char>>)
    requires
        forall|j: int|
            0 <= j < required.len() ==> covers(items, #[trigger] required[j]) || trim(
                required[j],
            ).len() == 0,
    ensures
        forall|k: int|
            0 <= k < missing_rules(items, required).len() ==> trim(
                #[trigger] missing_rules(items, required)[k],
            ).len() == 0,
    decreases required.len(),
{
    if required.len() > 0 {
        let req = required.last();
        let pre = if covers(items, req) {
            Seq::<Seq<char>>::empty()
        } else {
            seq![req]
        };
        let rest = required.drop_last();
        assert forall|j: int| 0 <= j < rest.len() implies covers(pre + items, #[trigger] rest[j])
            || trim(rest[j]).len() == 0 by {
            assert(rest[j] == required[j]);
            if covers(items, rest[j]) {
                lemma_covers_prefix(pre, items, rest[j]);
            }
        }
        lemma_missing_blank(pre + items, rest);
        assert(covers(items, req) || trim(req).len() == 0) by {
            assert(required[required.len() - 1] == req);
        }
        let ms = missing_rules(pre + items, rest);
        assert(missing_rules(items, required) == ms + pre);
        assert forall|k: int| 0 <= k < missing_rules(items, required).len() implies trim(
            #[trigger] missing_rules(items, required)[k],
        ).len() == 0 by {
            if k < ms.len() {
                assert(missing_rules(items, required)[k] == ms[k]);
            } else {
                assert(missing_rules(items, required)[k] == req);
            }
        }
    }
}

/// Two rules with the same words have the same key; trimming keeps the key.
pub proof fn lemma_rule_key_trim(x: Seq<char>)
    ensures
        rule_key(trim(x)) == rule_key(x),
{
    lemma_words_trim(x);
}

/// A rule's key is empty exactly when the rule is blank.
pub proof fn lemma_rule_key_blank(x: Seq<char>)
    ensures
        (rule_key(x).len() == 0) == (trim(x).len() == 0),
{
    lemma_words_trim(x);
    if trim(x).len() == 0 {
        let e = Seq::<char>::empty();
        assert(trim(x) =~= e);
        assert(split_by(e, Sep::Whitespace) =~= seq![e]);
        assert(seq![e].drop_last() =~= Seq::<Seq<char>>::empty());
        assert(drop_empty(Seq::<Seq<char>>::empty()) =~= Seq::<Seq<char>>::empty());
        assert(words(e) =~= Seq::<Seq<char>>::empty());
    } else {
        lemma_trim_first(x);
        lemma_words_nonempty(trim(x));
    }
}

/// Merging the required rules into a list that already holds them changes
/// nothing: once the ban policy sync has merged its rules into Postfix's
/// restriction lists, a second run finds every list unchanged. This holds
/// whenever no required rule contains a comma.
pub proof fn lemma_merge_idempotent(current: Seq<char>, required: Seq<Seq<char>>)
    requires
        no_commas(required),
    ensures
        normalized_restrictions(merged_restrictions(merged_restrictions(current, required), required))
            == normalized_restrictions(merged_restrictions(current, required)),
{
    let sep = seq![',', ' '];
    let s0 = restrictions_of(current);
    let ms = missing_rules(s0, required);
    let m = ms + s0;
    lemma_restrictions_clean(current);
    lemma_missing_from_required(s0, required);
    assert(no_commas(m)) by {
        assert forall|i: int| 0 <= i < m.len() implies !(#[trigger] m[i]).contains(',') by {
            if i < ms.len() {
                let j = choose|j: int| 0 <= j < required.len() && required[j] == ms[i];
            } else {
                assert(m[i] == s0[i - ms.len()]);
            }
        }
    }
    let first = merged_restrictions(current, required);
    assert(first == join(m, sep));
    lemma_restrictions_of_join(m);
    let t = restrictions_of(first);
    assert(t == drop_empty(trim_all(m)));
    lemma_clean_after_trim(m);
    lemma_missing_covers(s0, required);
    assert forall|j: int| 0 <= j < required.len() implies covers(t, #[trigger] required[j]) || trim(
        required[j],
    ).len() == 0 by {
        let q = required[j];
        assert(covers(m, q));
        let i = choose|i: int| 0 <= i < m.len() && rule_key(m[i]) == rule_key(q);
        lemma_rule_key_trim(m[i]);
        lemma_rule_key_blank(m[i]);
        lemma_rule_key_blank(q);
        if trim(m[i]).len() > 0 {
            assert(trim_all(m)[i] == trim(m[i]));
            lemma_drop_empty_keeps(trim_all(m), i);
            let k = choose|k: int| 0 <= k < t.len() && t[k] == trim_all(m)[i];
            assert(rule_key(t[k]) == rule_key(q));
        }
    }
    let ms2 = missing_rules(t, required);
    let m2 = ms2 + t;
    lemma_missing_blank(t, required);
    lemma_missing_from_required(t, required);
    assert(no_commas(m2)) by {
        assert forall|i: int| 0 <= i < m2.len() implies !(#[trigger] m2[i]).contains(',') by {
            if i < ms2.len() {
                let j = choose|j: int| 0 <= j < required.len() && required[j] == ms2[i];
            } else {
                assert(m2[i] == t[i - ms2.len()]);
            }
        }
    }
    lemma_restrictions_of_join(m2);
    lemma_trim_all_add(ms2, t);
    lemma_drop_empty_add(trim_all(ms2), trim_all(t));
    assert forall|i: int| 0 <= i < trim_all(ms2).len() implies (#[trigger] trim_all(ms2)[i]).len()
        == 0 by {
        assert(trim_all(ms2)[i] == trim(ms2[i]));
    }
    lemma_drop_empty_blank(trim_all(ms2));
    assert(trim_all(t) =~= t) by {
        assert forall|i: int| 0 <= i < t.len() implies trim_all(t)[i] == t[i] by {
            assert(is_clean_rule(t[i]));
        }
    }
    assert forall|i: int| 0 <= i < t.len() implies (#[trigger] t[i]).len() > 0 by {
        assert(is_clean_rule(t[i]));
    }
    lemma_drop_empty_id(t);
    assert(restrictions_of(join(m2, sep)) =~= t);
}


/// Merging the same required rules a second time gives back the very same
/// text, when every required rule is trimmed, not empty and free of commas
/// (as the ban policy's rules are).
pub proof fn lemma_merge_text_idempotent(current: Seq<char>, required: Seq<Seq<char>>)
    requires
        forall|j: int| 0 <= j < required.len() ==> is_clean_rule(#[trigger] required[j]),
    ensures
        merged_restrictions(merged_restrictions(current, required), required)
            == merged_restrictions(current, required),
{
    let sep = seq![',', ' '];
    let s0 = restrictions_of(current);
    let ms = missing_rules(s0, required);
    let m = ms + s0;
    lemma_restrictions_clean(current);
    lemma_missing_from_required(s0, required);
    assert forall|i: int| 0 <= i < m.len() implies is_clean_rule(#[trigger] m[i]) by {
        if i < ms.len() {
            let j = choose|j: int| 0 <= j < required.len() && required[j] == ms[i];
        } else {
            assert(m[i] == s0[i - ms.len()]);
        }
    }
    assert(no_commas(m)) by {
        assert forall|i: int| 0 <= i < m.len() implies !(#[trigger] m[i]).contains(',') by {
            assert(is_clean_rule(m[i]));
        }
    }
    let first = merged_restrictions(current, required);
    assert(first == join(m, sep));
    lemma_restrictions_of_join(m);
    assert(trim_all(m) =~= m) by {
        assert forall|i: int| 0 <= i < m.len() implies trim_all(m)[i] == m[i] by {
            assert(is_clean_rule(m[i]));
        }
    }
    assert forall|i: int| 0 <= i < m.len() implies (#[trigger] m[i]).len() > 0 by {
        assert(is_clean_rule(m[i]));
    }
    lemma_drop_empty_id(m);
    assert(restrictions_of(first) == m);
    lemma_missing_covers(s0, required);
    lemma_missing_blank(m, required);
    lemma_missing_from_required(m, required);
    let ms2 = missing_rules(m, required);
    if ms2.len() > 0 {
        let j = choose|j: int| 0 <= j < required.len() && required[j] == ms2[0];
        assert(is_clean_rule(required[j]));
        assert(trim(ms2[0]).len() == 0);
    }
    assert(ms2 =~= Seq::<Seq<char>>::empty());
    assert(merged_rules(first, required) =~= m);
}

/// What the sync does with one Postfix parameter: nothing when the merged
/// list has the same rules as the current one, otherwise set the merged
/// list.
#[derive(Debug)]
pub enum SettingPlan {
    Unchanged,
    Update(String),
}

/// Decides one parameter of the sync (`apply_setting` once the current
/// value is read).
pub fn plan_setting(current: &str, required: &[String]) -> (p: SettingPlan)
    ensures
        p is Unchanged <==> normalized_restrictions(current@) == normalized_restrictions(
            merged_restrictions(current@, views(required@)),
        ),
        p matches SettingPlan::Update(m) ==> m@ == merged_restrictions(current@, views(required@)),
{
    let merged = merge_restrictions(current, required);
    let before = normalize_restriction_list(current);
    let after = normalize_restriction_list(merged.as_str());
    if strings_eq(before.as_slice(), after.as_slice()) {
        SettingPlan::Unchanged
    } else {
        SettingPlan::Update(merged)
    }
}

/// The current value of a parameter from `postconf -h`: its trimmed output
/// when it exited with 0, empty otherwise (`read_postconf`).
pub fn postconf_value(output: &CommandOutput) -> (r: String)
    ensures
        r@ == (if output.status == 0 {
            trim(output.stdout@)
        } else {
            Seq::<char>::empty()
        }),
{
    if output.status == 0 {
        trim_str(output.stdout.as_str())
    } else {
        String::new()
    }
}

/// The note for a parameter left alone: `<key> unchanged`.
pub fn unchanged_note(key: &str) -> (r: String)
    ensures
        r@ == key@ + " unchanged"@,
{
    let mut r = key.to_owned();
    r.append(" unchanged");
    r
}

/// The note for an updated parameter: `<key> updated: <what postconf said>`.
pub fn updated_note(key: &str, output: &CommandOutput) -> (r: String)
    ensures
        r@ == key@ + " updated: "@ + (if output.stderr@.len() == 0 {
            output.stdout@
        } else {
            output.stderr@
        }),
{
    let mut r = key.to_owned();
    r.append(" updated: ");
    let said = format_output(output);
    r.append(said.as_str());
    r
}

fn access_rule(check: &str, file: &String) -> (r: String)
    ensures
        r@ == check@ + " texthash:"@ + file@,
{
    let mut r = check.to_owned();
    r.append(" texthash:");
    r.append(file.as_str());
    r
}

/// The Postfix parameters that the ban files must be wired into, each with
/// the rules it must hold, in the order they are synced.
pub open spec fn ban_policy_spec(bans: BansConfig) -> Seq<(Seq<char>, Seq<Seq<char>>)> {
    seq![
        (
            "smtpd_recipient_restrictions"@,
            seq![
                "check_recipient_access texthash:"@ + bans.address_file@,
                "reject_unauth_destination"@,
            ],
        ),
        (
            "smtpd_sender_restrictions"@,
            seq![
                "check_sender_access texthash:"@ + bans.address_file@,
                "check_sender_access texthash:"@ + bans.domain_file@,
            ],
        ),
        ("smtpd_client_restrictions"@, seq!["check_client_access texthash:"@ + bans.ip_file@]),
    ]
}

pub open spec fn requirement_views(v: Seq<(String, Vec<String>)>) -> Seq<(Seq<char>, Seq<Seq<char>>)> {
    Seq::new(v.len(), |i: int| (v[i].0@, views(v[i].1@)))
}

/// The rules that `ensure_ban_policy` requires of each parameter.
pub fn ban_policy_requirements(bans: &BansConfig) -> (r: Vec<(String, Vec<String>)>)
    ensures
        requirement_views(r@) == ban_policy_spec(*bans),
{
    let recipient = vec![
        access_rule("check_recipient_access", &bans.address_file),
        "reject_unauth_destination".to_owned(),
    ];
    let sender = vec![
        access_rule("check_sender_access", &bans.address_file),
        access_rule("check_sender_access", &bans.domain_file),
    ];
    let client = vec![access_rule("check_client_access", &bans.ip_file)];
    let ghost rv = views(recipient@);
    let ghost sv = views(sender@);
    let ghost cv = views(client@);
    proof {
        reveal_strlit("check_recipient_access");
        reveal_strlit(" texthash:");
        reveal_strlit("check_recipient_access texthash:");
        reveal_strlit("check_sender_access");
        reveal_strlit("check_sender_access texthash:");
        reveal_strlit("check_client_access");
        reveal_strlit("check_client_access texthash:");
        assert("check_recipient_access"@ + " texthash:"@ =~= "check_recipient_access texthash:"@);
        assert("check_sender_access"@ + " texthash:"@ =~= "check_sender_access texthash:"@);
        assert("check_client_access"@ + " texthash:"@ =~= "check_client_access texthash:"@);
        assert(rv[0] =~= "check_recipient_access texthash:"@ + bans.address_file@);
        assert(sv[0] =~= "check_sender_access texthash:"@ + bans.address_file@);
        assert(sv[1] =~= "check_sender_access texthash:"@ + bans.domain_file@);
        assert(rv =~= ban_policy_spec(*bans)[0].1);
        assert(sv =~= ban_policy_spec(*bans)[1].1);
        assert(cv =~= ban_policy_spec(*bans)[2].1);
    }
    let r = vec![
        ("smtpd_recipient_restrictions".to_owned(), recipient),
        ("smtpd_sender_restrictions".to_owned(), sender),
        ("smtpd_client_restrictions".to_owned(), client),
    ];
    assert(requirement_views(r@) =~= ban_policy_spec(*bans));
    r
}

/// After a merge every required rule is in the list, and the rules that
/// were there come after the added ones, in their order.
pub proof fn lemma_merge_covers_required(current: Seq<char>, required: Seq<Seq<char>>)
    ensures
        forall|j: int|
            0 <= j < required.len() ==> covers(
                merged_rules(current, required),
                #[trigger] required[j],
            ),
        merged_rules(current, required).len() >= restrictions_of(current).len(),
        merged_rules(current, required).skip(
            merged_rules(current, required).len() - restrictions_of(current).len(),
        ) == restrictions_of(current),
{
    lemma_missing_covers(restrictions_of(current), required);
    let m = missing_rules(restrictions_of(current), required);
    assert((m + restrictions_of(current)).skip(m.len() as int) =~= restrictions_of(current));
}

} // verus!
