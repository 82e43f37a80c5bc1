//! Registration settings: the rows they are stored as and what they read
//! back as.
use vstd::prelude::*;

use crate::number::{dec_int, format_i64, lemma_parse_format_i64, parse_i64, parse_i64_str};
use crate::text::str_eq;

verus! {

/// One stored setting.
#[derive(Debug, Clone)]
pub struct SettingRow {
    pub key: String,
    pub value: String,
}

/// The registration policy of the server.
#[derive(Debug, Clone)]
pub struct RegistrationSettings {
    pub registration_mode: String,
    pub max_accounts_per_ip_per_day: i64,
    pub max_accounts_per_day: i64,
    pub cleanup_empty_mailboxes_after_days: i64,
    pub notes: String,
}

/// The settings as plain values.
pub struct SettingsModel {
    pub registration_mode: Seq<char>,
    pub max_accounts_per_ip_per_day: i64,
    pub max_accounts_per_day: i64,
    pub cleanup_empty_mailboxes_after_days: i64,
    pub notes: Seq<char>,
}

impl View for RegistrationSettings {
    type V = SettingsModel;

    open spec fn view(&self) -> SettingsModel {
        SettingsModel {
            registration_mode: self.registration_mode@,
            max_accounts_per_ip_per_day: self.max_accounts_per_ip_per_day,
            max_accounts_per_day: self.max_accounts_per_day,
            cleanup_empty_mailboxes_after_days: self.cleanup_empty_mailboxes_after_days,
            notes: self.notes@,
        }
    }
}

/// Public registration, 3 accounts per IP and 100 per day, empty mailboxes
/// cleaned up after 30 days, no notes.
pub open spec fn default_settings() -> SettingsModel {
    SettingsModel {
        registration_mode: "public"@,
        max_accounts_per_ip_per_day: 3,
        max_accounts_per_day: 100,
        cleanup_empty_mailboxes_after_days: 30,
        notes: ""@,
    }
}

impl Default for RegistrationSettings {
    fn default() -> (r: Self)
        ensures
            r@ == default_settings(),
    {
        RegistrationSettings {
            registration_mode: "public".to_owned(),
            max_accounts_per_ip_per_day: 3,
            max_accounts_per_day: 100,
            cleanup_empty_mailboxes_after_days: 30,
            notes: "".to_owned(),
        }
    }
}

pub open spec fn key_mode() -> Seq<char> {
    "registration_mode"@
}

pub open spec fn key_per_ip() -> Seq<char> {
    "max_accounts_per_ip_per_day"@
}

pub open spec fn key_per_day() -> Seq<char> {
    "max_accounts_per_day"@
}

pub open spec fn key_cleanup() -> Seq<char> {
    "cleanup_empty_mailboxes_after_days"@
}

pub open spec fn key_notes() -> Seq<char> {
    "notes"@
}

/// A number read from its stored text, or `fallback` when it does not read
/// as an `i64`.
pub open spec fn parse_or(v: Seq<char>, fallback: i64) -> i64 {
    match parse_i64(v) {
        Some(x) => x,
        None => fallback,
    }
}

/// One stored row applied to the settings read so far; unknown keys are
/// ignored.
pub open spec fn apply_row(m: SettingsModel, key: Seq<char>, value: Seq<char>) -> SettingsModel {
    if key == key_mode() {
        SettingsModel { registration_mode: value, ..m }
    } else if key == key_per_ip() {
        SettingsModel { max_accounts_per_ip_per_day: parse_or(value, 3), ..m }
    } else if key == key_per_day() {
        SettingsModel { max_accounts_per_day: parse_or(value, 100), ..m }
    } else if key == key_cleanup() {
        SettingsModel { cleanup_empty_mailboxes_after_days: parse_or(value, 30), ..m }
    } else if key == key_notes() {
        SettingsModel { notes: value, ..m }
    } else {
        m
    }
}

/// The settings that stored rows read as: the defaults, with the rows
/// applied in order.
pub open spec fn settings_of_rows(rows: Seq<(Seq<char>, Seq<char>)>) -> SettingsModel
    decreases rows.len(),
{
    if rows.len() == 0 {
        default_settings()
    } else {
        apply_row(settings_of_rows(rows.drop_last()), rows.last().0, rows.last().1)
    }
}

pub open spec fn row_views(rows: Seq<SettingRow>) -> Seq<(Seq<char>, Seq<char>)> {
    Seq::new(rows.len(), |i: int| (rows[i].key@, rows[i].value@))
}

/// What `save` stores, ordered by key.
pub open spec fn entries_of(s: SettingsModel) -> Seq<(Seq<char>, Seq<char>)> {
    seq![
        (key_cleanup(), dec_int(s.cleanup_empty_mailboxes_after_days as int)),
        (key_per_day(), dec_int(s.max_accounts_per_day as int)),
        (key_per_ip(), dec_int(s.max_accounts_per_ip_per_day as int)),
        (key_notes(), s.notes),
        (key_mode(), s.registration_mode),
    ]
}

pub open spec fn pair_views(v: Seq<(String, String)>) -> Seq<(Seq<char>, Seq<char>)> {
    Seq::new(v.len(), |i: int| (v[i].0@, v[i].1@))
}

/// The key-value pairs that store the settings, in key order.
pub fn settings_entries(settings: &RegistrationSettings) -> (r: Vec<(String, String)>)
    ensures
        pair_views(r@) == entries_of(settings@),
{
    let r = vec![
        (
            "cleanup_empty_mailboxes_after_days".to_owned(),
            format_i64(settings.cleanup_empty_mailboxes_after_days),
        ),
        ("max_accounts_per_day".to_owned(), format_i64(settings.max_accounts_per_day)),
        ("max_accounts_per_ip_per_day".to_owned(), format_i64(settings.max_accounts_per_ip_per_day)),
        ("notes".to_owned(), settings.notes.clone()),
        ("registration_mode".to_owned(), settings.registration_mode.clone()),
    ];
    assert(pair_views(r@) =~= entries_of(settings@));
    r
}

fn parse_or_exec(v: &String, fallback: i64) -> (r: i64)
    ensures
        r == parse_or(v@, fallback),
{
    match parse_i64_str(v.as_str()) {
        Some(x) => x,
        None => fallback,
    }
}

/// The settings that stored rows read as (what `load` does with the rows of
/// the settings table).
pub fn settings_from_rows(rows: &[SettingRow]) -> (r: RegistrationSettings)
    ensures
        r@ == settings_of_rows(row_views(rows@)),
{
    let mut data = RegistrationSettings::default();
    let mut i: usize = 0;
    assert(row_views(rows@).take(0) =~= Seq::<(Seq<char>, Seq<char>)>::empty());
    while i < rows.len()
        invariant
            i <= rows.len(),
            data@ == settings_of_rows(row_views(rows@).take(i as int)),
        decreases rows.len() - i,
    {
        let key = rows[i].key.as_str();
        let value = &rows[i].value;
        let ghost before = data@;
        if str_eq(key, "registration_mode") {
            data.registration_mode = value.clone();
        } else if str_eq(key, "max_accounts_per_ip_per_day") {
            data.max_accounts_per_ip_per_day = parse_or_exec(value, 3);
        } else if str_eq(key, "max_accounts_per_day") {
            data.max_accounts_per_day = parse_or_exec(value, 100);
        } else if str_eq(key, "cleanup_empty_mailboxes_after_days") {
            data.cleanup_empty_mailboxes_after_days = parse_or_exec(value, 30);
        } else if str_eq(key, "notes") {
            data.notes = value.clone();
        }
        i = i + 1;
        proof {
            let cur = row_views(rows@).take(i as int);
            assert(cur.drop_last() =~= row_views(rows@).take(i - 1));
            assert(cur.last() == (rows@[i - 1].key@, rows@[i - 1].value@));
            assert(data@ == apply_row(before, rows@[i - 1].key@, rows@[i - 1].value@));
        }
    }
    assert(row_views(rows@).take(rows.len() as int) =~= row_views(rows@));
    data
}


/// The value of the last row with `key`, if any row has it.
pub open spec fn last_value(rows: Seq<(Seq<char>, Seq<char>)>, key: Seq<char>) -> Option<
    Seq<char>,
>
    decreases rows.len(),
{
    if rows.len() == 0 {
        None
    } else if rows.last().0 == key {
        Some(rows.last().1)
    } else {
        last_value(rows.drop_last(), key)
    }
}

pub open spec fn text_or(v: Option<Seq<char>>, fallback: Seq<char>) -> Seq<char> {
    match v {
        Some(x) => x,
        None => fallback,
    }
}

pub open spec fn number_or(v: Option<Seq<char>>, fallback: i64) -> i64 {
    match v {
        Some(x) => parse_or(x, fallback),
        None => fallback,
    }
}

/// Each setting taken from the last row with its key, or its default.
pub open spec fn settings_by_last(rows: Seq<(Seq<char>, Seq<char>)>) -> SettingsModel {
    SettingsModel {
        registration_mode: text_or(last_value(rows, key_mode()), "public"@),
        max_accounts_per_ip_per_day: number_or(last_value(rows, key_per_ip()), 3),
        max_accounts_per_day: number_or(last_value(rows, key_per_day()), 100),
        cleanup_empty_mailboxes_after_days: number_or(last_value(rows, key_cleanup()), 30),
        notes: text_or(last_value(rows, key_notes()), ""@),
    }
}

proof fn lemma_keys_distinct()
    ensures
        key_mode() != key_per_ip(),
        key_mode() != key_per_day(),
        key_mode() != key_cleanup(),
        key_mode() != key_notes(),
        key_per_ip() != key_per_day(),
        key_per_ip() != key_cleanup(),
        key_per_ip() != key_notes(),
        key_per_day() != key_cleanup(),
        key_per_day() != key_notes(),
        key_cleanup() != key_notes(),
{
    reveal_strlit("registration_mode");
    reveal_strlit("max_accounts_per_ip_per_day");
    reveal_strlit("max_accounts_per_day");
    reveal_strlit("cleanup_empty_mailboxes_after_days");
    reveal_strlit("notes");
    assert(key_mode()[0] != key_per_ip()[0]);
    assert(key_mode()[0] != key_per_day()[0]);
    assert(key_mode()[0] != key_cleanup()[0]);
    assert(key_mode()[0] != key_notes()[0]);
    assert(key_per_ip()[17] != key_per_day()[17]);
    assert(key_per_ip()[0] != key_cleanup()[0]);
    assert(key_per_ip()[0] != key_notes()[0]);
    assert(key_per_day()[0] != key_cleanup()[0]);
    assert(key_per_day()[0] != key_notes()[0]);
    assert(key_cleanup()[0] != key_notes()[0]);
}

/// Reading rows keeps, for each setting, the last row that names it.
pub proof fn lemma_settings_by_last(rows: Seq<(Seq<char>, Seq<char>)>)
    ensures
        settings_of_rows(rows) == settings_by_last(rows),
    decreases rows.len(),
{
    lemma_keys_distinct();
    if rows.len() > 0 {
        lemma_settings_by_last(rows.drop_last());
    }
}

proof fn lemma_last_value_of(rows: Seq<(Seq<char>, Seq<char>)>, key: Seq<char>, v: Seq<char>)
    requires
        exists|i: int| 0 <= i < rows.len() && (#[trigger] rows[i]).0 == key,
        forall|i: int| 0 <= i < rows.len() && (#[trigger] rows[i]).0 == key ==> rows[i].1 == v,
    ensures
        last_value(rows, key) == Some(v),
    decreases rows.len(),
{
    if rows.last().0 != key {
        let p = rows.drop_last();
        let i = choose|i: int| 0 <= i < rows.len() && (#[trigger] rows[i]).0 == key;
        assert(p[i] == rows[i]);
        assert forall|j: int| 0 <= j < p.len() && (#[trigger] p[j]).0 == key implies p[j].1 == v by {
            assert(p[j] == rows[j]);
        }
        lemma_last_value_of(p, key, v);
    } else {
        assert(rows[rows.len() - 1].0 == key);
    }
}

/// The stored rows hold what `save` wrote: every saved key is present, and
/// each row with a saved key has the saved value.
pub open spec fn holds_entries(rows: Seq<(Seq<char>, Seq<char>)>, s: SettingsModel) -> bool {
    let e = entries_of(s);
    &&& forall|j: int| 0 <= j < e.len() ==> exists|i: int| 0 <= i < rows.len() && #[trigger] rows[i] == #[trigger] e[j]
    &&& forall|i: int, j: int|
        0 <= i < rows.len() && 0 <= j < e.len() && (#[trigger] rows[i]).0 == (#[trigger] e[j]).0
            ==> rows[i].1 == e[j].1
}

proof fn lemma_entry_present(rows: Seq<(Seq<char>, Seq<char>)>, s: SettingsModel, j: int)
    requires
        holds_entries(rows, s),
        0 <= j < 5,
    ensures
        last_value(rows, entries_of(s)[j].0) == Some(entries_of(s)[j].1),
{
    let e = entries_of(s);
    let i = choose|i: int| 0 <= i < rows.len() && #[trigger] rows[i] == e[j];
    assert(rows[i].0 == e[j].0);
    assert forall|k: int| 0 <= k < rows.len() && (#[trigger] rows[k]).0 == e[j].0 implies rows[k].1
        == e[j].1 by {}
    lemma_last_value_of(rows, e[j].0, e[j].1);
}

/// Loading after a save gives back the saved settings: whatever else the
/// settings table holds, and in whatever order its rows come, once every
/// key that save writes holds the value save wrote for it (which is what
/// the upsert by key leaves), the rows read as exactly the saved settings.
pub proof fn lemma_load_after_save(s: SettingsModel, rows: Seq<(Seq<char>, Seq<char>)>)
    requires
        holds_entries(rows, s),
    ensures
        settings_of_rows(rows) == s,
{
    lemma_settings_by_last(rows);
    lemma_entry_present(rows, s, 0);
    lemma_entry_present(rows, s, 1);
    lemma_entry_present(rows, s, 2);
    lemma_entry_present(rows, s, 3);
    lemma_entry_present(rows, s, 4);
    lemma_parse_format_i64(s.cleanup_empty_mailboxes_after_days);
    lemma_parse_format_i64(s.max_accounts_per_day);
    lemma_parse_format_i64(s.max_accounts_per_ip_per_day);
}

/// The rows that save writes, read back on their own, are the saved
/// settings.
pub proof fn lemma_entries_read_back(s: SettingsModel)
    ensures
        settings_of_rows(entries_of(s)) == s,
{
    lemma_keys_distinct();
    lemma_parse_format_i64(s.cleanup_empty_mailboxes_after_days);
    lemma_parse_format_i64(s.max_accounts_per_day);
    lemma_parse_format_i64(s.max_accounts_per_ip_per_day);
    let e = entries_of(s);
    assert(e.drop_last().drop_last().drop_last().drop_last().drop_last() =~= Seq::<
        (Seq<char>, Seq<char>),
    >::empty());
    reveal_with_fuel(settings_of_rows, 6);
}

} // verus!
