//! Settings: defaults, reading them back typed, and writing them.

use vstd::prelude::*;
use crate::dates::utc_now_text;
use crate::error::{AppError, AppErrorV, AppResult};
use crate::json::{bool_text, json_bool, json_i64, json_opt_string, json_quoted, json_quote, json_parse_string, json_parse_bool, json_parse_i64, json_parse_opt_string, json_error_message, json_text_string, json_text_bool, json_text_i64, json_text_opt_string, opt_view, decimal};
use crate::models::{AppSettings, AppSettingsV};
use crate::repo::Database;
use crate::seqs::{vw, first_index, find_first, map_vec, any_vec, lemma_first_index};
use crate::tables::{Tables, TablesV, SettingRow, SettingRowV, Dup};
use crate::text::str_eq;

verus! {

/// The default global shortcut.
pub open spec fn default_shortcut(macos: bool) -> Seq<char> {
    if macos {
        "Command+Shift+Space"@
    } else {
        "Ctrl+Shift+Space"@
    }
}

/// The default settings.
pub open spec fn default_app_settings(macos: bool) -> AppSettingsV {
    AppSettingsV {
        theme: "light"@,
        close_behavior: "tray"@,
        hide_on_blur: true,
        quick_pinned: false,
        autostart: false,
        shortcut: default_shortcut(macos),
        quick_active_note_id: None,
        organizer_enabled: true,
        archive_days: 90,
    }
}

/// The default settings as (key, JSON value) pairs, in the order they are written.
pub open spec fn default_settings(macos: bool) -> Seq<(Seq<char>, Seq<char>)> {
    seq![
        ("theme"@, json_quoted("light"@)),
        ("close_behavior"@, json_quoted("tray"@)),
        ("hide_on_blur"@, bool_text(true)),
        ("quick_pinned"@, bool_text(false)),
        ("autostart"@, bool_text(false)),
        ("shortcut"@, json_quoted(default_shortcut(macos))),
        ("quick_active_note_id"@, "null"@),
        ("organizer_enabled"@, bool_text(true)),
        ("archive_days"@, decimal(90)),
    ]
}

pub open spec fn has_key(t: TablesV, key: Seq<char>) -> bool {
    exists|k: int| 0 <= k < t.settings.len() && t.settings[k].key == key
}

/// `INSERT OR IGNORE INTO settings`.
pub open spec fn insert_setting(t: TablesV, key: Seq<char>, value: Seq<char>, now: Seq<char>) -> TablesV {
    if has_key(t, key) {
        t
    } else {
        TablesV { settings: t.settings.push(SettingRowV { key, value_json: value, updated_at: now }), ..t }
    }
}

/// `INSERT .. ON CONFLICT(key) DO UPDATE`.
pub open spec fn upsert_setting(t: TablesV, key: Seq<char>, value: Seq<char>, now: Seq<char>) -> TablesV {
    if has_key(t, key) {
        TablesV {
            settings: t.settings.map_values(
                |r: SettingRowV| if r.key == key { SettingRowV { value_json: value, updated_at: now, ..r } } else { r },
            ),
            ..t
        }
    } else {
        TablesV { settings: t.settings.push(SettingRowV { key, value_json: value, updated_at: now }), ..t }
    }
}

/// Writes each pair with `f`, in order.
pub open spec fn write_pairs(t: TablesV, pairs: Seq<(Seq<char>, Seq<char>)>, now: Seq<char>, upsert: bool) -> TablesV
    decreases pairs.len(),
{
    if pairs.len() == 0 {
        t
    } else {
        let t1 = write_pairs(t, pairs.drop_last(), now, upsert);
        if upsert {
            upsert_setting(t1, pairs.last().0, pairs.last().1, now)
        } else {
            insert_setting(t1, pairs.last().0, pairs.last().1, now)
        }
    }
}

/// The settings as (key, JSON value) pairs, in the order they are written.
pub open spec fn settings_pairs(s: AppSettingsV) -> Seq<(Seq<char>, Seq<char>)> {
    seq![
        ("theme"@, json_quoted(s.theme)),
        ("close_behavior"@, json_quoted(s.close_behavior)),
        ("hide_on_blur"@, bool_text(s.hide_on_blur)),
        ("quick_pinned"@, bool_text(s.quick_pinned)),
        ("autostart"@, bool_text(s.autostart)),
        ("shortcut"@, json_quoted(s.shortcut)),
        ("quick_active_note_id"@, match s.quick_active_note_id {
            Some(x) => json_quoted(x),
            None => "null"@,
        }),
        ("organizer_enabled"@, bool_text(s.organizer_enabled)),
        ("archive_days"@, decimal(s.archive_days as int)),
    ]
}


/// The value last written for a key among the pairs, if any.
pub open spec fn last_value(pairs: Seq<(Seq<char>, Seq<char>)>, key: Seq<char>) -> Option<Seq<char>>
    decreases pairs.len(),
{
    if pairs.len() == 0 {
        None
    } else if pairs.last().0 == key {
        Some(pairs.last().1)
    } else {
        last_value(pairs.drop_last(), key)
    }
}

/// The value first written for a key among the pairs, if any.
pub open spec fn first_value(pairs: Seq<(Seq<char>, Seq<char>)>, key: Seq<char>) -> Option<Seq<char>>
    decreases pairs.len(),
{
    if pairs.len() == 0 {
        None
    } else {
        match first_value(pairs.drop_last(), key) {
            Some(v) => Some(v),
            None => if pairs.last().0 == key {
                Some(pairs.last().1)
            } else {
                None
            },
        }
    }
}

proof fn lemma_stored_push(t: TablesV, row: SettingRowV, key: Seq<char>)
    ensures
        stored(TablesV { settings: t.settings.push(row), ..t }, key) == match stored(t, key) {
            Some(v) => Some(v),
            None => if row.key == key {
                Some(row.value_json)
            } else {
                None
            },
        },
{
    let p = |r: SettingRowV| r.key == key;
    let s2 = t.settings.push(row);
    lemma_first_index(t.settings, p);
    lemma_first_index(s2, p);
    let i = first_index(t.settings, p);
    if i >= 0 {
        assert(s2[i] == t.settings[i]);
        crate::seqs::lemma_first_index_is(s2, p, i);
    } else if row.key == key {
        assert forall|j: int| 0 <= j < t.settings.len() implies !p(#[trigger] s2[j]) by {
            assert(s2[j] == t.settings[j]);
        }
        crate::seqs::lemma_first_index_is(s2, p, t.settings.len() as int);
    } else {
        assert forall|j: int| 0 <= j < s2.len() implies !p(#[trigger] s2[j]) by {
            if j < t.settings.len() {
                assert(s2[j] == t.settings[j]);
            }
        }
    }
}

proof fn lemma_stored_upsert(t: TablesV, k: Seq<char>, v: Seq<char>, now: Seq<char>, key: Seq<char>)
    ensures
        stored(upsert_setting(t, k, v, now), key) == if key == k {
            Some(v)
        } else {
            stored(t, key)
        },
{
    if has_key(t, k) {
        let f = |r: SettingRowV| if r.key == k { SettingRowV { value_json: v, updated_at: now, ..r } } else { r };
        let s = t.settings;
        let s2 = s.map_values(f);
        let p = |r: SettingRowV| r.key == key;
        assert forall|j: int| 0 <= j < s.len() implies #[trigger] p(s2[j]) == p(s[j]) by {
            assert(s2[j] == f(s[j]));
        }
        lemma_first_index(s, p);
        lemma_first_index(s2, p);
        let i = first_index(s, p);
        if i >= 0 {
            assert(p(s2[i]));
            crate::seqs::lemma_first_index_is(s2, p, i);
            assert(s2[i] == f(s[i]));
        } else {
            assert forall|j: int| 0 <= j < s2.len() implies !p(#[trigger] s2[j]) by {
                assert(!p(s[j]));
            }
            if key == k {
                let w = choose|w: int| 0 <= w < s.len() && s[w].key == k;
                assert(p(s[w]));
            }
        }
    } else {
        let row = SettingRowV { key: k, value_json: v, updated_at: now };
        lemma_stored_push(t, row, key);
        if key == k {
            lemma_first_index(t.settings, |r: SettingRowV| r.key == key);
            if stored(t, key) is Some {
                let i = first_index(t.settings, |r: SettingRowV| r.key == key);
                assert(t.settings[i].key == k);
            }
        }
    }
}

proof fn lemma_stored_insert(t: TablesV, k: Seq<char>, v: Seq<char>, now: Seq<char>, key: Seq<char>)
    ensures
        stored(insert_setting(t, k, v, now), key) == match stored(t, key) {
            Some(x) => Some(x),
            None => if key == k {
                Some(v)
            } else {
                None
            },
        },
{
    lemma_first_index(t.settings, |r: SettingRowV| r.key == key);
    if has_key(t, k) {
        if key == k && stored(t, key) is None {
            let w = choose|w: int| 0 <= w < t.settings.len() && t.settings[w].key == k;
            assert((|r: SettingRowV| r.key == key)(t.settings[w]));
        }
    } else {
        lemma_stored_push(t, SettingRowV { key: k, value_json: v, updated_at: now }, key);
    }
}

/// After writing pairs with upserts, a key holds the value last written for it.
pub proof fn lemma_stored_after_upserts(t: TablesV, pairs: Seq<(Seq<char>, Seq<char>)>, now: Seq<char>, key: Seq<char>)
    ensures
        stored(write_pairs(t, pairs, now, true), key) == match last_value(pairs, key) {
            Some(v) => Some(v),
            None => stored(t, key),
        },
    decreases pairs.len(),
{
    if pairs.len() > 0 {
        lemma_stored_after_upserts(t, pairs.drop_last(), now, key);
        lemma_stored_upsert(write_pairs(t, pairs.drop_last(), now, true), pairs.last().0, pairs.last().1, now, key);
    }
}

/// After writing pairs with inserts that ignore present keys, a key holds its old value or
/// the value first written for it.
pub proof fn lemma_stored_after_inserts(t: TablesV, pairs: Seq<(Seq<char>, Seq<char>)>, now: Seq<char>, key: Seq<char>)
    ensures
        stored(write_pairs(t, pairs, now, false), key) == match stored(t, key) {
            Some(v) => Some(v),
            None => first_value(pairs, key),
        },
    decreases pairs.len(),
{
    if pairs.len() > 0 {
        lemma_stored_after_inserts(t, pairs.drop_last(), now, key);
        lemma_stored_insert(write_pairs(t, pairs.drop_last(), now, false), pairs.last().0, pairs.last().1, now, key);
    }
}

/// The setting keys are different from one another.
proof fn lemma_settings_keys_distinct()
    ensures
        ({
            let k = seq![
                "theme"@,
                "close_behavior"@,
                "hide_on_blur"@,
                "quick_pinned"@,
                "autostart"@,
                "shortcut"@,
                "quick_active_note_id"@,
                "organizer_enabled"@,
                "archive_days"@,
            ];
            forall|i: int, j: int| 0 <= i < j < 9 ==> k[i] != k[j]
        }),
{
    reveal_strlit("theme");
    reveal_strlit("close_behavior");
    reveal_strlit("hide_on_blur");
    reveal_strlit("quick_pinned");
    reveal_strlit("autostart");
    reveal_strlit("shortcut");
    reveal_strlit("quick_active_note_id");
    reveal_strlit("organizer_enabled");
    reveal_strlit("archive_days");
    let k = seq![
        "theme"@,
        "close_behavior"@,
        "hide_on_blur"@,
        "quick_pinned"@,
        "autostart"@,
        "shortcut"@,
        "quick_active_note_id"@,
        "organizer_enabled"@,
        "archive_days"@,
    ];
    assert("hide_on_blur"@[0] != "quick_pinned"@[0]);
    assert("hide_on_blur"@[0] != "archive_days"@[0]);
    assert("quick_pinned"@[0] != "archive_days"@[0]);
    assert forall|i: int, j: int| 0 <= i < j < 9 implies k[i] != k[j] by {
        if k[i].len() == k[j].len() {
            assert(k[i][0] != k[j][0]);
        }
    }
}

/// Why settings could not be read.
pub enum SettingsFault {
    /// A key has no row.
    Missing,
    /// A value is not JSON of the expected type.
    BadJson,
}

/// The JSON text stored under a key.
pub open spec fn stored(t: TablesV, key: Seq<char>) -> Option<Seq<char>> {
    let i = first_index(t.settings, |r: SettingRowV| r.key == key);
    if i < 0 {
        None
    } else {
        Some(t.settings[i].value_json)
    }
}

pub open spec fn read_string(t: TablesV, key: Seq<char>) -> Result<Seq<char>, SettingsFault> {
    match stored(t, key) {
        None => Err(SettingsFault::Missing),
        Some(v) => match json_text_string(v) {
            Some(x) => Ok(x),
            None => Err(SettingsFault::BadJson),
        },
    }
}

pub open spec fn read_bool(t: TablesV, key: Seq<char>) -> Result<bool, SettingsFault> {
    match stored(t, key) {
        None => Err(SettingsFault::Missing),
        Some(v) => match json_text_bool(v) {
            Some(x) => Ok(x),
            None => Err(SettingsFault::BadJson),
        },
    }
}

pub open spec fn read_i64(t: TablesV, key: Seq<char>) -> Result<i64, SettingsFault> {
    match stored(t, key) {
        None => Err(SettingsFault::Missing),
        Some(v) => match json_text_i64(v) {
            Some(x) => Ok(x),
            None => Err(SettingsFault::BadJson),
        },
    }
}

pub open spec fn read_opt_string(t: TablesV, key: Seq<char>) -> Result<Option<Seq<char>>, SettingsFault> {
    match stored(t, key) {
        None => Err(SettingsFault::Missing),
        Some(v) => match json_text_opt_string(v) {
            Some(x) => Ok(x),
            None => Err(SettingsFault::BadJson),
        },
    }
}

/// `get_settings`: every key read in turn; the first that is missing or mistyped fails.
pub open spec fn settings_of(t: TablesV) -> Result<AppSettingsV, SettingsFault> {
    match read_string(t, "theme"@) {
        Err(e) => Err(e),
        Ok(theme) => match read_string(t, "close_behavior"@) {
            Err(e) => Err(e),
            Ok(close_behavior) => match read_bool(t, "hide_on_blur"@) {
                Err(e) => Err(e),
                Ok(hide_on_blur) => match read_bool(t, "quick_pinned"@) {
                    Err(e) => Err(e),
                    Ok(quick_pinned) => match read_bool(t, "autostart"@) {
                        Err(e) => Err(e),
                        Ok(autostart) => match read_string(t, "shortcut"@) {
                            Err(e) => Err(e),
                            Ok(shortcut) => match read_opt_string(t, "quick_active_note_id"@) {
                                Err(e) => Err(e),
                                Ok(quick_active_note_id) => match read_bool(t, "organizer_enabled"@) {
                                    Err(e) => Err(e),
                                    Ok(organizer_enabled) => match read_i64(t, "archive_days"@) {
                                        Err(e) => Err(e),
                                        Ok(archive_days) => Ok(
                                            AppSettingsV {
                                                theme,
                                                close_behavior,
                                                hide_on_blur,
                                                quick_pinned,
                                                autostart,
                                                shortcut,
                                                quick_active_note_id,
                                                organizer_enabled,
                                                archive_days,
                                            },
                                        ),
                                    },
                                },
                            },
                        },
                    },
                },
            },
        },
    }
}

/// How a settings fault is reported.
pub open spec fn fault_matches(f: SettingsFault, e: AppErrorV) -> bool {
    match f {
        SettingsFault::Missing => e == AppErrorV::Database("Query returned no rows"@),
        SettingsFault::BadJson => e is Json,
    }
}

impl Tables {
    fn stored_value(&self, key: &str) -> (r: AppResult<&SettingRow>)
        ensures
            match stored(self@, key@) {
                Some(v) => r matches Ok(x) && x@.value_json == v,
                None => r matches Err(e) && e@ == AppErrorV::Database("Query returned no rows"@),
            },
    {
        match find_first(
            &self.settings,
            (|r: &SettingRow| -> (b: bool)
                ensures
                    b == (r@.key == key@),
                { str_eq(r.key.as_str(), key) }),
            Ghost(|r: SettingRowV| r.key == key@),
        ) {
            Some(i) => Ok(&self.settings[i]),
            None => Err(AppError::Database("Query returned no rows".to_owned())),
        }
    }

    fn get_string(&self, key: &str) -> (r: AppResult<String>)
        ensures
            match read_string(self@, key@) {
                Ok(v) => r matches Ok(x) && x@ == v,
                Err(f) => r matches Err(e) && fault_matches(f, e@),
            },
    {
        let row = self.stored_value(key)?;
        match json_parse_string(row.value_json.as_str()) {
            Ok(v) => Ok(v),
            Err(e) => Err(AppError::Json(json_error_message(&e))),
        }
    }

    fn get_bool(&self, key: &str) -> (r: AppResult<bool>)
        ensures
            match read_bool(self@, key@) {
                Ok(v) => r == Ok::<bool, AppError>(v),
                Err(f) => r matches Err(e) && fault_matches(f, e@),
            },
    {
        let row = self.stored_value(key)?;
        match json_parse_bool(row.value_json.as_str()) {
            Ok(v) => Ok(v),
            Err(e) => Err(AppError::Json(json_error_message(&e))),
        }
    }

    fn get_i64(&self, key: &str) -> (r: AppResult<i64>)
        ensures
            match read_i64(self@, key@) {
                Ok(v) => r == Ok::<i64, AppError>(v),
                Err(f) => r matches Err(e) && fault_matches(f, e@),
            },
    {
        let row = self.stored_value(key)?;
        match json_parse_i64(row.value_json.as_str()) {
            Ok(v) => Ok(v),
            Err(e) => Err(AppError::Json(json_error_message(&e))),
        }
    }

    fn get_opt_string(&self, key: &str) -> (r: AppResult<Option<String>>)
        ensures
            match read_opt_string(self@, key@) {
                Ok(v) => r matches Ok(x) && opt_view(x) == v,
                Err(f) => r matches Err(e) && fault_matches(f, e@),
            },
    {
        let row = self.stored_value(key)?;
        match json_parse_opt_string(row.value_json.as_str()) {
            Ok(v) => Ok(v),
            Err(e) => Err(AppError::Json(json_error_message(&e))),
        }
    }

    fn write_setting(&mut self, key: &str, value: String, now: &str, upsert: bool)
        ensures
            final(self)@ == if upsert {
                upsert_setting(old(self)@, key@, value@, now@)
            } else {
                insert_setting(old(self)@, key@, value@, now@)
            },
    {
        let present = any_vec(
            &self.settings,
            (|r: &SettingRow| -> (b: bool)
                ensures
                    b == (r@.key == key@),
                { str_eq(r.key.as_str(), key) }),
            Ghost(|r: SettingRowV| r.key == key@),
        );
        proof {
            if present {
                let k = choose|k: int| 0 <= k < self.settings@.len() && (|r: SettingRowV| r.key == key@)(vw(self.settings@)[k]);
                assert(self@.settings[k].key == key@);
            } else {
                assert forall|k: int| 0 <= k < self@.settings.len() implies self@.settings[k].key != key@ by {
                    assert(!(|r: SettingRowV| r.key == key@)(vw(self.settings@)[k]));
                }
            }
        }
        if present {
            if upsert {
                let ghost t0 = self@;
                let ghost sf = |r: SettingRowV| if r.key == key@ { SettingRowV { value_json: value@, updated_at: now@, ..r } } else { r };
                let mut rows: Vec<SettingRow> = Vec::new();
                std::mem::swap(&mut rows, &mut self.settings);
                self.settings = map_vec(
                    rows,
                    (|r: &SettingRow| -> (m: SettingRow)
                        ensures
                            m@ == sf(r@),
                        {
                            let mut m = r.dup();
                            if str_eq(r.key.as_str(), key) {
                                m.value_json = value.clone();
                                m.updated_at = now.to_owned();
                            }
                            m
                        }),
                    Ghost(sf),
                );
                assert(self@ =~= upsert_setting(t0, key@, value@, now@));
            }
        } else {
            let row = SettingRow { key: key.to_owned(), value_json: value, updated_at: now.to_owned() };
            self.settings.push(row);
            assert(vw(self.settings@) =~= vw(old(self).settings@).push(row@));
        }
    }
}

impl Database {
    /// A repository with no notes and the default settings, written at the instant `now`;
    /// they read back as the defaults.
    pub fn with_defaults(macos: bool, now: &str) -> (r: Database)
        ensures
            r@ == write_pairs(crate::tables::empty_tables(), default_settings(macos), now@, false),
            settings_of(r@) == Ok::<AppSettingsV, SettingsFault>(default_app_settings(macos)),
    {
        let mut t = Tables::empty();
        let shortcut = if macos {
            "Command+Shift+Space"
        } else {
            "Ctrl+Shift+Space"
        };
        let ghost pairs = default_settings(macos);
        let theme = json_quote("light");
        let close = json_quote("tray");
        let hide = json_bool(true);
        let pinned = json_bool(false);
        let autostart = json_bool(false);
        let key = json_quote(shortcut);
        let active = json_opt_string(&None);
        let organizer = json_bool(true);
        let days = json_i64(90);
        t.write_setting("theme", theme, now, false);
        t.write_setting("close_behavior", close, now, false);
        t.write_setting("hide_on_blur", hide, now, false);
        t.write_setting("quick_pinned", pinned, now, false);
        t.write_setting("autostart", autostart, now, false);
        t.write_setting("shortcut", key, now, false);
        t.write_setting("quick_active_note_id", active, now, false);
        t.write_setting("organizer_enabled", organizer, now, false);
        t.write_setting("archive_days", days, now, false);
        proof {
            let e = crate::tables::empty_tables();
            assert(pairs.drop_last().drop_last().drop_last().drop_last().drop_last().drop_last().drop_last().drop_last().drop_last() =~= seq![]);
            reveal_with_fuel(write_pairs, 10);
            lemma_settings_keys_distinct();
            reveal_with_fuel(first_value, 10);
            let t2 = t@;
            let k = seq![
                "theme"@,
                "close_behavior"@,
                "hide_on_blur"@,
                "quick_pinned"@,
                "autostart"@,
                "shortcut"@,
                "quick_active_note_id"@,
                "organizer_enabled"@,
                "archive_days"@,
            ];
            assert(pairs[8].0 == k[8] && pairs[7].0 == k[7] && pairs[6].0 == k[6] && pairs[5].0 == k[5]);
            assert(pairs[4].0 == k[4] && pairs[3].0 == k[3] && pairs[2].0 == k[2] && pairs[1].0 == k[1] && pairs[0].0 == k[0]);
            assert forall|key: Seq<char>| stored(e, key) is None by {
                lemma_first_index(e.settings, |r: SettingRowV| r.key == key);
            }
            lemma_stored_after_inserts(e, pairs, now@, "theme"@);
            lemma_stored_after_inserts(e, pairs, now@, "close_behavior"@);
            lemma_stored_after_inserts(e, pairs, now@, "hide_on_blur"@);
            lemma_stored_after_inserts(e, pairs, now@, "quick_pinned"@);
            lemma_stored_after_inserts(e, pairs, now@, "autostart"@);
            lemma_stored_after_inserts(e, pairs, now@, "shortcut"@);
            lemma_stored_after_inserts(e, pairs, now@, "quick_active_note_id"@);
            lemma_stored_after_inserts(e, pairs, now@, "organizer_enabled"@);
            lemma_stored_after_inserts(e, pairs, now@, "archive_days"@);
            assert(first_value(pairs, "theme"@) == Some(json_quoted("light"@)));
            assert(read_string(t2, "theme"@) == Ok::<Seq<char>, SettingsFault>("light"@));
            assert(read_bool(t2, "hide_on_blur"@) == Ok::<bool, SettingsFault>(true));
            assert(read_i64(t2, "archive_days"@) == Ok::<i64, SettingsFault>(90));
            assert(settings_of(t2) == Ok::<AppSettingsV, SettingsFault>(default_app_settings(macos)));
        }
        Database { tables: t }
    }

    /// A repository with no notes and the default settings (with the shortcut used off macOS).
    pub fn in_memory() -> (r: AppResult<Database>)
        ensures
            r matches Ok(d) && settings_of(d@) == Ok::<AppSettingsV, SettingsFault>(default_app_settings(false))
                && exists|now: Seq<char>| d@ == write_pairs(crate::tables::empty_tables(), default_settings(false), now, false),
    {
        let now = utc_now_text();
        Ok(Database::with_defaults(false, now.as_str()))
    }

    /// Writes the default value of every setting that has none, at the instant `now`.
    pub fn ensure_default_settings(&mut self, macos: bool, now: &str)
        ensures
            final(self)@ == write_pairs(old(self)@, default_settings(macos), now@, false),
    {
        let shortcut = if macos {
            "Command+Shift+Space"
        } else {
            "Ctrl+Shift+Space"
        };
        let ghost pairs = default_settings(macos);
        let t = &mut self.tables;
        t.write_setting("theme", json_quote("light"), now, false);
        t.write_setting("close_behavior", json_quote("tray"), now, false);
        t.write_setting("hide_on_blur", json_bool(true), now, false);
        t.write_setting("quick_pinned", json_bool(false), now, false);
        t.write_setting("autostart", json_bool(false), now, false);
        t.write_setting("shortcut", json_quote(shortcut), now, false);
        t.write_setting("quick_active_note_id", json_opt_string(&None), now, false);
        t.write_setting("organizer_enabled", json_bool(true), now, false);
        t.write_setting("archive_days", json_i64(90), now, false);
        proof {
            assert(pairs.drop_last().drop_last().drop_last().drop_last().drop_last().drop_last().drop_last().drop_last().drop_last() =~= seq![]);
            reveal_with_fuel(write_pairs, 10);
        }
    }

    /// The settings, each read from its JSON value.
    pub fn get_settings(&self) -> (r: AppResult<AppSettings>)
        ensures
            match settings_of(self@) {
                Ok(v) => r matches Ok(x) && x@ == v,
                Err(f) => r matches Err(e) && fault_matches(f, e@),
            },
    {
        let t = &self.tables;
        let theme = t.get_string("theme")?;
        let close_behavior = t.get_string("close_behavior")?;
        let hide_on_blur = t.get_bool("hide_on_blur")?;
        let quick_pinned = t.get_bool("quick_pinned")?;
        let autostart = t.get_bool("autostart")?;
        let shortcut = t.get_string("shortcut")?;
        let quick_active_note_id = t.get_opt_string("quick_active_note_id")?;
        let organizer_enabled = t.get_bool("organizer_enabled")?;
        let archive_days = t.get_i64("archive_days")?;
        Ok(
            AppSettings {
                theme,
                close_behavior,
                hide_on_blur,
                quick_pinned,
                autostart,
                shortcut,
                quick_active_note_id,
                organizer_enabled,
                archive_days,
            },
        )
    }

    /// Writes every setting at the instant `now`; reading the settings back then gives
    /// exactly the ones written.
    pub fn update_settings_at(&mut self, s: &AppSettings, now: &str) -> (r: AppResult<()>)
        ensures
            r is Ok,
            final(self)@ == write_pairs(old(self)@, settings_pairs(s@), now@, true),
            settings_of(final(self)@) == Ok::<AppSettingsV, SettingsFault>(s@),
    {
        let ghost pairs = settings_pairs(s@);
        let theme = json_quote(s.theme.as_str());
        let close = json_quote(s.close_behavior.as_str());
        let hide = json_bool(s.hide_on_blur);
        let pinned = json_bool(s.quick_pinned);
        let autostart = json_bool(s.autostart);
        let shortcut = json_quote(s.shortcut.as_str());
        let active = json_opt_string(&s.quick_active_note_id);
        let organizer = json_bool(s.organizer_enabled);
        let days = json_i64(s.archive_days);
        let t = &mut self.tables;
        t.write_setting("theme", theme, now, true);
        t.write_setting("close_behavior", close, now, true);
        t.write_setting("hide_on_blur", hide, now, true);
        t.write_setting("quick_pinned", pinned, now, true);
        t.write_setting("autostart", autostart, now, true);
        t.write_setting("shortcut", shortcut, now, true);
        t.write_setting("quick_active_note_id", active, now, true);
        t.write_setting("organizer_enabled", organizer, now, true);
        t.write_setting("archive_days", days, now, true);
        proof {
            assert(pairs.drop_last().drop_last().drop_last().drop_last().drop_last().drop_last().drop_last().drop_last().drop_last() =~= seq![]);
            reveal_with_fuel(write_pairs, 10);
            lemma_settings_keys_distinct();
            reveal_with_fuel(last_value, 10);
            let t2 = self@;
            lemma_stored_after_upserts(old(self)@, pairs, now@, "theme"@);
            lemma_stored_after_upserts(old(self)@, pairs, now@, "close_behavior"@);
            lemma_stored_after_upserts(old(self)@, pairs, now@, "hide_on_blur"@);
            lemma_stored_after_upserts(old(self)@, pairs, now@, "quick_pinned"@);
            lemma_stored_after_upserts(old(self)@, pairs, now@, "autostart"@);
            lemma_stored_after_upserts(old(self)@, pairs, now@, "shortcut"@);
            lemma_stored_after_upserts(old(self)@, pairs, now@, "quick_active_note_id"@);
            lemma_stored_after_upserts(old(self)@, pairs, now@, "organizer_enabled"@);
            lemma_stored_after_upserts(old(self)@, pairs, now@, "archive_days"@);
            let k = seq![
                "theme"@,
                "close_behavior"@,
                "hide_on_blur"@,
                "quick_pinned"@,
                "autostart"@,
                "shortcut"@,
                "quick_active_note_id"@,
                "organizer_enabled"@,
                "archive_days"@,
            ];
            assert(k[0] == "theme"@ && k[8] == "archive_days"@);
            assert(pairs[8].0 == k[8] && pairs[7].0 == k[7] && pairs[6].0 == k[6] && pairs[5].0 == k[5]);
            assert(pairs[4].0 == k[4] && pairs[3].0 == k[3] && pairs[2].0 == k[2] && pairs[1].0 == k[1] && pairs[0].0 == k[0]);
            assert(last_value(pairs, "theme"@) == Some(json_quoted(s@.theme)));
            assert(stored(t2, "theme"@) == Some(json_quoted(s@.theme)));
            assert(read_string(t2, "theme"@) == Ok::<Seq<char>, SettingsFault>(s@.theme));
            assert(read_bool(t2, "hide_on_blur"@) == Ok::<bool, SettingsFault>(s@.hide_on_blur));
            assert(read_i64(t2, "archive_days"@) == Ok::<i64, SettingsFault>(s@.archive_days));
            assert(settings_of(t2) == Ok::<AppSettingsV, SettingsFault>(s@));
        }
        Ok(())
    }

    /// Writes every setting, stamped with the current time.
    pub fn update_settings(&mut self, s: &AppSettings) -> (r: AppResult<()>)
        ensures
            r is Ok,
            exists|now: Seq<char>| final(self)@ == write_pairs(old(self)@, settings_pairs(s@), now, true),
            settings_of(final(self)@) == Ok::<AppSettingsV, SettingsFault>(s@),
    {
        let now = utc_now_text();
        self.update_settings_at(s, now.as_str())
    }
}

} // verus!
