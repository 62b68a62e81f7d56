//! Storing what the organizer found: entities, and proposals that stay pending until the
//! user accepts or dismisses them.

use vstd::prelude::*;
use crate::digest::{sha256_hex_of, sha256_of_text};
use crate::error::{AppError, AppErrorV, AppResult};
use crate::json::{append, json_quote, json_quoted};
use crate::models::{
    EntityMatch, EntityMatchV, OrganizerResult, OrganizerResultV, Suggestion, SuggestionV, SuggestionValue,
    SuggestionValueV, entity_views, suggestion_views,
};
use crate::repo::Database;
use crate::save::fk_error;
use crate::seqs::{find_first, first_index, keep, vw};
use crate::tables::{Dup, EntityRow, EntityRowV, SuggestionRow, SuggestionRowV, Tables, TablesV};
use crate::text::{str_eq, utf8, views};

verus! {

// ---------------------------------------------------------------------------
// Fingerprints.
// ---------------------------------------------------------------------------

/// The compact JSON of a suggestion's value, keys in order, as `serde_json` writes a `Value`.
pub open spec fn value_json(v: SuggestionValueV) -> Seq<char> {
    match v {
        SuggestionValueV::DueDate { due_date } => "{\"dueDate\":"@ + json_quoted(due_date) + "}"@,
        SuggestionValueV::Todo => "{\"isTodo\":true,\"todoStatus\":\"not_started\"}"@,
        SuggestionValueV::TodoCompleted => "{\"todoStatus\":\"completed\"}"@,
        SuggestionValueV::TagName { tag_name } => "{\"tagName\":"@ + json_quoted(tag_name) + "}"@,
        SuggestionValueV::Category { category_id, category_name } => "{\"categoryId\":"@ + json_quoted(category_id)
            + ",\"categoryName\":"@ + json_quoted(category_name) + "}"@,
        SuggestionValueV::SimilarTitle { note_id, title } => "{\"noteId\":"@ + json_quoted(note_id) + ",\"title\":"@
            + json_quoted(title) + "}"@,
        SuggestionValueV::Archive => "{\"archive\":true}"@,
    }
}

/// What identifies a proposal across runs: the SHA-256 of its kind, rule and value.
pub open spec fn fingerprint(s: SuggestionV) -> Seq<char> {
    sha256_hex_of(utf8(s.kind + "\0"@ + s.rule_id + "\0"@ + value_json(s.value)))
}

/// The JSON of a suggestion's value.
pub fn value_json_of(v: &SuggestionValue) -> (r: String)
    ensures
        r@ == value_json(v@),
{
    match v {
        SuggestionValue::DueDate { due_date } => {
            let mut s = "{\"dueDate\":".to_owned();
            append(&mut s, json_quote(due_date.as_str()).as_str());
            append(&mut s, "}");
            s
        },
        SuggestionValue::Todo => "{\"isTodo\":true,\"todoStatus\":\"not_started\"}".to_owned(),
        SuggestionValue::TodoCompleted => "{\"todoStatus\":\"completed\"}".to_owned(),
        SuggestionValue::TagName { tag_name } => {
            let mut s = "{\"tagName\":".to_owned();
            append(&mut s, json_quote(tag_name.as_str()).as_str());
            append(&mut s, "}");
            s
        },
        SuggestionValue::Category { category_id, category_name } => {
            let mut s = "{\"categoryId\":".to_owned();
            append(&mut s, json_quote(category_id.as_str()).as_str());
            append(&mut s, ",\"categoryName\":");
            append(&mut s, json_quote(category_name.as_str()).as_str());
            append(&mut s, "}");
            s
        },
        SuggestionValue::SimilarTitle { note_id, title } => {
            let mut s = "{\"noteId\":".to_owned();
            append(&mut s, json_quote(note_id.as_str()).as_str());
            append(&mut s, ",\"title\":");
            append(&mut s, json_quote(title.as_str()).as_str());
            append(&mut s, "}");
            s
        },
        SuggestionValue::Archive => "{\"archive\":true}".to_owned(),
    }
}

/// The fingerprint of a suggestion.
pub fn fingerprint_of(s: &Suggestion) -> (r: String)
    ensures
        r@ == fingerprint(s@),
{
    let mut text = s.kind.clone();
    append(&mut text, "\0");
    append(&mut text, s.rule_id.as_str());
    append(&mut text, "\0");
    append(&mut text, value_json_of(&s.value).as_str());
    sha256_of_text(text.as_str())
}

// ---------------------------------------------------------------------------
// The writes, as specifications.
// ---------------------------------------------------------------------------

/// A note with this id is stored.
pub open spec fn note_exists(t: TablesV, id: Seq<char>) -> bool {
    exists|k: int| 0 <= k < t.notes.len() && #[trigger] t.notes[k].id == id
}

pub open spec fn entity_id_error() -> AppErrorV {
    AppErrorV::Database("UNIQUE constraint failed: note_entities.id"@)
}

pub open spec fn suggestion_id_error() -> AppErrorV {
    AppErrorV::Database("UNIQUE constraint failed: note_suggestions.id"@)
}

pub open spec fn entity_row(note_id: Seq<char>, e: EntityMatchV, id: Seq<char>, now: Seq<char>) -> EntityRowV {
    EntityRowV {
        id,
        note_id,
        entity_type: e.entity_type,
        value: e.value,
        start_offset: e.start_offset,
        end_offset: e.end_offset,
        created_at: now,
    }
}

pub open spec fn entity_id_taken(rows: Seq<EntityRowV>, id: Seq<char>) -> bool {
    exists|k: int| 0 <= k < rows.len() && #[trigger] rows[k].id == id
}

/// The entities inserted one by one, entity `k` with id `ids[k]`; an id already present or a
/// missing note stops the inserts with the store's error.
pub open spec fn insert_entities(
    rows: Seq<EntityRowV>,
    note_id: Seq<char>,
    es: Seq<EntityMatchV>,
    ids: Seq<Seq<char>>,
    now: Seq<char>,
    note_ok: bool,
) -> Result<Seq<EntityRowV>, AppErrorV>
    decreases es.len(),
{
    if es.len() == 0 {
        Ok(rows)
    } else {
        match insert_entities(rows, note_id, es.drop_last(), ids, now, note_ok) {
            Err(e) => Err(e),
            Ok(r) => {
                let id = ids[es.len() - 1];
                if entity_id_taken(r, id) {
                    Err(entity_id_error())
                } else if !note_ok {
                    Err(fk_error())
                } else {
                    Ok(r.push(entity_row(note_id, es.last(), id, now)))
                }
            },
        }
    }
}

/// The row holding this note's proposal with this fingerprint.
pub open spec fn row_for(rows: Seq<SuggestionRowV>, note_id: Seq<char>, fp: Seq<char>) -> int {
    first_index(rows, |r: SuggestionRowV| r.note_id == note_id && r.fingerprint == fp)
}

pub open spec fn suggestion_id_taken(rows: Seq<SuggestionRowV>, id: Seq<char>) -> bool {
    exists|k: int| 0 <= k < rows.len() && #[trigger] rows[k].id == id
}

/// The suggestion with another id.
pub open spec fn renamed(s: SuggestionV, id: Seq<char>) -> SuggestionV {
    SuggestionV { id, ..s }
}

/// One proposal written: an existing row for the same note and fingerprint takes the new
/// payload, confidence and time, keeping its id and status; otherwise a pending row is
/// added. The proposal comes back, under the stored id, when its row is pending.
pub open spec fn upsert_one(
    rows: Seq<SuggestionRowV>,
    note_id: Seq<char>,
    s: SuggestionV,
    now: Seq<char>,
    note_ok: bool,
) -> Result<(Seq<SuggestionRowV>, Option<SuggestionV>), AppErrorV> {
    let fp = fingerprint(s);
    let i = row_for(rows, note_id, fp);
    if i >= 0 {
        let old = rows[i];
        let updated = SuggestionRowV { payload: s, confidence: s.confidence, updated_at: now, ..old };
        Ok(
            (
                rows.update(i, updated),
                if old.status == "pending"@ {
                    Some(renamed(s, old.id))
                } else {
                    None
                },
            ),
        )
    } else if suggestion_id_taken(rows, s.id) {
        Err(suggestion_id_error())
    } else if !note_ok {
        Err(fk_error())
    } else {
        let row = SuggestionRowV {
            id: s.id,
            note_id,
            kind: s.kind,
            payload: s,
            rule_id: s.rule_id,
            confidence: s.confidence,
            status: "pending"@,
            fingerprint: fp,
            created_at: now,
            updated_at: now,
        };
        Ok((rows.push(row), Some(s)))
    }
}

/// The proposals written in order, with the pending ones collected.
pub open spec fn upsert_all(
    rows: Seq<SuggestionRowV>,
    note_id: Seq<char>,
    ss: Seq<SuggestionV>,
    now: Seq<char>,
    note_ok: bool,
) -> Result<(Seq<SuggestionRowV>, Seq<SuggestionV>), AppErrorV>
    decreases ss.len(),
{
    if ss.len() == 0 {
        Ok((rows, seq![]))
    } else {
        match upsert_all(rows, note_id, ss.drop_last(), now, note_ok) {
            Err(e) => Err(e),
            Ok((r, pending)) => match upsert_one(r, note_id, ss.last(), now, note_ok) {
                Err(e) => Err(e),
                Ok((r2, Some(p))) => Ok((r2, pending.push(p))),
                Ok((r2, None)) => Ok((r2, pending)),
            },
        }
    }
}

/// `persist_organizer_result` at `now`, entity `k` stored under `ids[k]`: the note's
/// entities are replaced, its pending proposals dropped and the new ones written; the
/// result holds the proposals still pending and the entities. On an error nothing changes.
pub open spec fn persist_spec(
    t: TablesV,
    note_id: Seq<char>,
    r: OrganizerResultV,
    now: Seq<char>,
    ids: Seq<Seq<char>>,
) -> (TablesV, Result<OrganizerResultV, AppErrorV>) {
    let ok = note_exists(t, note_id);
    let kept_entities = keep(t.entities, |e: EntityRowV| e.note_id != note_id);
    match insert_entities(kept_entities, note_id, r.entities, ids, now, ok) {
        Err(e) => (t, Err(e)),
        Ok(es) => {
            let kept = keep(t.suggestions, |s: SuggestionRowV| !(s.note_id == note_id && s.status == "pending"@));
            match upsert_all(kept, note_id, r.suggestions, now, ok) {
                Err(e) => (t, Err(e)),
                Ok((ss, pending)) => (
                    TablesV { entities: es, suggestions: ss, ..t },
                    Ok(OrganizerResultV { suggestions: pending, entities: r.entities }),
                ),
            }
        },
    }
}

/// `set_suggestion_status` at `now`.
pub open spec fn status_spec(t: TablesV, id: Seq<char>, status: Seq<char>, now: Seq<char>) -> Result<TablesV, AppErrorV> {
    if !(status == "accepted"@ || status == "dismissed"@) {
        Err(AppErrorV::Validation("无效的建议状态"@))
    } else if !suggestion_id_taken(t.suggestions, id) {
        Err(AppErrorV::NotFound)
    } else {
        Ok(
            TablesV {
                suggestions: t.suggestions.map_values(
                    |r: SuggestionRowV|
                        if r.id == id {
                            SuggestionRowV { status, updated_at: now, ..r }
                        } else {
                            r
                        },
                ),
                ..t
            },
        )
    }
}


proof fn lemma_entities_error_stays(
    rows: Seq<EntityRowV>,
    note_id: Seq<char>,
    es: Seq<EntityMatchV>,
    ids: Seq<Seq<char>>,
    now: Seq<char>,
    ok: bool,
    k: int,
    m: int,
)
    requires
        0 <= k <= m <= es.len(),
        insert_entities(rows, note_id, es.take(k), ids, now, ok) is Err,
    ensures
        insert_entities(rows, note_id, es.take(m), ids, now, ok) == insert_entities(rows, note_id, es.take(k), ids, now, ok),
    decreases m - k,
{
    if k < m {
        lemma_entities_error_stays(rows, note_id, es, ids, now, ok, k, m - 1);
        assert(es.take(m).drop_last() == es.take(m - 1));
    }
}

proof fn lemma_upsert_error_stays(
    rows: Seq<SuggestionRowV>,
    note_id: Seq<char>,
    ss: Seq<SuggestionV>,
    now: Seq<char>,
    ok: bool,
    k: int,
    m: int,
)
    requires
        0 <= k <= m <= ss.len(),
        upsert_all(rows, note_id, ss.take(k), now, ok) is Err,
    ensures
        upsert_all(rows, note_id, ss.take(m), now, ok) == upsert_all(rows, note_id, ss.take(k), now, ok),
    decreases m - k,
{
    if k < m {
        lemma_upsert_error_stays(rows, note_id, ss, now, ok, k, m - 1);
        assert(ss.take(m).drop_last() == ss.take(m - 1));
    }
}

impl Tables {
    /// Whether a note with this id is stored.
    pub fn has_note(&self, id: &str) -> (r: bool)
        ensures
            r == note_exists(self@, id@),
    {
        let mut i: usize = 0;
        while i < self.notes.len()
            invariant
                i <= self.notes.len(),
                forall|j: int| 0 <= j < i ==> #[trigger] self@.notes[j].id != id@,
            decreases self.notes.len() - i,
        {
            if str_eq(self.notes[i].id.as_str(), id) {
                assert(self@.notes[i as int].id == id@);
                return true;
            }
            i = i + 1;
        }
        false
    }
}

fn entity_id_in(rows: &Vec<EntityRow>, id: &str) -> (r: bool)
    ensures
        r == entity_id_taken(vw(rows@), id@),
{
    let mut i: usize = 0;
    while i < rows.len()
        invariant
            i <= rows.len(),
            forall|j: int| 0 <= j < i ==> #[trigger] vw(rows@)[j].id != id@,
        decreases rows.len() - i,
    {
        if str_eq(rows[i].id.as_str(), id) {
            assert(vw(rows@)[i as int].id == id@);
            return true;
        }
        i = i + 1;
    }
    false
}

fn suggestion_id_in(rows: &Vec<SuggestionRow>, id: &str) -> (r: bool)
    ensures
        r == suggestion_id_taken(vw(rows@), id@),
{
    let mut i: usize = 0;
    while i < rows.len()
        invariant
            i <= rows.len(),
            forall|j: int| 0 <= j < i ==> #[trigger] vw(rows@)[j].id != id@,
        decreases rows.len() - i,
    {
        if str_eq(rows[i].id.as_str(), id) {
            assert(vw(rows@)[i as int].id == id@);
            return true;
        }
        i = i + 1;
    }
    false
}

/// The note's new entity rows over the other notes' rows.
fn entities_after(
    t: &Tables,
    note_id: &str,
    es: &Vec<EntityMatch>,
    ids: &Vec<String>,
    now: &str,
    ok: bool,
) -> (r: Result<Vec<EntityRow>, AppError>)
    requires
        ids.len() >= es.len(),
    ensures
        match insert_entities(
            keep(t@.entities, |e: EntityRowV| e.note_id != note_id@),
            note_id@,
            entity_views(es@),
            views(ids@),
            now@,
            ok,
        ) {
            Ok(v) => r matches Ok(x) && vw(x@) == v,
            Err(e) => r matches Err(x) && x@ == e,
        },
{
    let ghost p = |e: EntityRowV| e.note_id != note_id@;
    let ghost src = vw(t.entities@);
    let mut rows: Vec<EntityRow> = Vec::new();
    let mut i: usize = 0;
    while i < t.entities.len()
        invariant
            i <= t.entities.len(),
            src == vw(t.entities@),
            p == (|e: EntityRowV| e.note_id != note_id@),
            vw(rows@) == keep(src.take(i as int), p),
        decreases t.entities.len() - i,
    {
        proof {
            assert(src.take(i + 1).drop_last() == src.take(i as int));
            assert(src.take(i + 1).last() == t.entities@[i as int]@);
        }
        if !str_eq(t.entities[i].note_id.as_str(), note_id) {
            let ghost before = vw(rows@);
            rows.push(t.entities[i].dup());
            assert(vw(rows@) =~= before.push(t.entities@[i as int]@));
        }
        i = i + 1;
    }
    proof {
        assert(src.take(i as int) == src);
    }
    let ghost base = vw(rows@);
    let ghost ev = entity_views(es@);
    let ghost iv = views(ids@);
    assert(ev.take(0) =~= seq![]);
    let mut k: usize = 0;
    while k < es.len()
        invariant
            k <= es.len(),
            ids.len() >= es.len(),
            ev == entity_views(es@),
            iv == views(ids@),
            base == keep(t@.entities, |e: EntityRowV| e.note_id != note_id@),
            insert_entities(base, note_id@, ev.take(k as int), iv, now@, ok) == Ok::<Seq<EntityRowV>, AppErrorV>(
                vw(rows@),
            ),
        decreases es.len() - k,
    {
        let e = &es[k];
        proof {
            assert(ev.take(k + 1).drop_last() == ev.take(k as int));
            assert(ev.take(k + 1).last() == e@);
            assert(iv[k as int] == ids@[k as int]@);
        }
        if entity_id_in(&rows, ids[k].as_str()) {
            let err = AppError::Database("UNIQUE constraint failed: note_entities.id".to_owned());
            proof {
                assert(ev.take(k + 1).len() == k + 1);
                assert(insert_entities(base, note_id@, ev.take(k + 1), iv, now@, ok) == Err::<Seq<EntityRowV>, AppErrorV>(
                    entity_id_error(),
                ));
                lemma_entities_error_stays(base, note_id@, ev, iv, now@, ok, k + 1, ev.len() as int);
                assert(ev.take(ev.len() as int) == ev);
            }
            return Err(err);
        }
        if !ok {
            proof {
                assert(ev.take(k + 1).len() == k + 1);
                assert(insert_entities(base, note_id@, ev.take(k + 1), iv, now@, ok) == Err::<Seq<EntityRowV>, AppErrorV>(
                    fk_error(),
                ));
                lemma_entities_error_stays(base, note_id@, ev, iv, now@, ok, k + 1, ev.len() as int);
                assert(ev.take(ev.len() as int) == ev);
            }
            return Err(AppError::Database("FOREIGN KEY constraint failed".to_owned()));
        }
        let ghost before = vw(rows@);
        rows.push(
            EntityRow {
                id: ids[k].clone(),
                note_id: note_id.to_owned(),
                entity_type: e.entity_type.clone(),
                value: e.value.clone(),
                start_offset: e.start_offset,
                end_offset: e.end_offset,
                created_at: now.to_owned(),
            },
        );
        assert(vw(rows@) =~= before.push(entity_row(note_id@, e@, iv[k as int], now@)));
        k = k + 1;
    }
    proof {
        assert(ev.take(k as int) == ev);
    }
    Ok(rows)
}

/// Writes one proposal into `rows`; the pending proposal, if its row is pending.
fn upsert_into(
    rows: &mut Vec<SuggestionRow>,
    note_id: &str,
    s: &Suggestion,
    now: &str,
    ok: bool,
) -> (r: Result<Option<Suggestion>, AppError>)
    ensures
        match upsert_one(vw(old(rows)@), note_id@, s@, now@, ok) {
            Ok((v, p)) => r matches Ok(x) && vw(final(rows)@) == v && match p {
                Some(q) => x matches Some(y) && y@ == q,
                None => x is None,
            },
            Err(e) => r matches Err(x) && x@ == e,
        },
{
    let fp = fingerprint_of(s);
    let ghost pred = |r: SuggestionRowV| r.note_id == note_id@ && r.fingerprint == fp@;
    let found = find_first(
        &*rows,
        (|r: &SuggestionRow| -> (b: bool)
            ensures
                b == (r@.note_id == note_id@ && r@.fingerprint == fp@),
            { str_eq(r.note_id.as_str(), note_id) && str_eq(r.fingerprint.as_str(), fp.as_str()) }),
        Ghost(pred),
    );
    proof {
        assert(pred == (|r: SuggestionRowV| r.note_id == note_id@ && r.fingerprint == fingerprint(s@)));
    }
    match found {
        Some(i) => {
            let old_row = rows[i].dup();
            let pending = str_eq(old_row.status.as_str(), "pending");
            let out = if pending {
                Some(
                    Suggestion {
                        id: old_row.id.clone(),
                        kind: s.kind.clone(),
                        label: s.label.clone(),
                        value: s.value.dup(),
                        confidence: s.confidence,
                        rule_id: s.rule_id.clone(),
                    },
                )
            } else {
                None
            };
            let updated = SuggestionRow {
                id: old_row.id,
                note_id: old_row.note_id,
                kind: old_row.kind,
                payload: s.dup(),
                rule_id: old_row.rule_id,
                confidence: s.confidence,
                status: old_row.status,
                fingerprint: old_row.fingerprint,
                created_at: old_row.created_at,
                updated_at: now.to_owned(),
            };
            let ghost before = vw(rows@);
            rows.set(i, updated);
            proof {
                assert(vw(rows@) =~= before.update(i as int, vw(rows@)[i as int]));
            }
            Ok(out)
        },
        None => {
            if suggestion_id_in(rows, s.id.as_str()) {
                return Err(AppError::Database("UNIQUE constraint failed: note_suggestions.id".to_owned()));
            }
            if !ok {
                return Err(AppError::Database("FOREIGN KEY constraint failed".to_owned()));
            }
            let ghost before = vw(rows@);
            rows.push(
                SuggestionRow {
                    id: s.id.clone(),
                    note_id: note_id.to_owned(),
                    kind: s.kind.clone(),
                    payload: s.dup(),
                    rule_id: s.rule_id.clone(),
                    confidence: s.confidence,
                    status: "pending".to_owned(),
                    fingerprint: fp,
                    created_at: now.to_owned(),
                    updated_at: now.to_owned(),
                },
            );
            proof {
                assert(vw(rows@) =~= before.push(vw(rows@)[before.len() as int]));
            }
            Ok(Some(s.dup()))
        },
    }
}

/// The note's suggestion rows after its pending ones are dropped and the new ones written.
fn suggestions_after(
    t: &Tables,
    note_id: &str,
    ss: &Vec<Suggestion>,
    now: &str,
    ok: bool,
) -> (r: Result<(Vec<SuggestionRow>, Vec<Suggestion>), AppError>)
    ensures
        match upsert_all(
            keep(t@.suggestions, |s: SuggestionRowV| !(s.note_id == note_id@ && s.status == "pending"@)),
            note_id@,
            suggestion_views(ss@),
            now@,
            ok,
        ) {
            Ok((v, p)) => r matches Ok(x) && vw(x.0@) == v && suggestion_views(x.1@) == p,
            Err(e) => r matches Err(x) && x@ == e,
        },
{
    let ghost p = |s: SuggestionRowV| !(s.note_id == note_id@ && s.status == "pending"@);
    let ghost src = vw(t.suggestions@);
    let mut rows: Vec<SuggestionRow> = Vec::new();
    let mut i: usize = 0;
    while i < t.suggestions.len()
        invariant
            i <= t.suggestions.len(),
            src == vw(t.suggestions@),
            p == (|s: SuggestionRowV| !(s.note_id == note_id@ && s.status == "pending"@)),
            vw(rows@) == keep(src.take(i as int), p),
        decreases t.suggestions.len() - i,
    {
        proof {
            assert(src.take(i + 1).drop_last() == src.take(i as int));
            assert(src.take(i + 1).last() == t.suggestions@[i as int]@);
        }
        let row = &t.suggestions[i];
        if !(str_eq(row.note_id.as_str(), note_id) && str_eq(row.status.as_str(), "pending")) {
            let ghost before = vw(rows@);
            rows.push(row.dup());
            assert(vw(rows@) =~= before.push(row@));
        }
        i = i + 1;
    }
    proof {
        assert(src.take(i as int) == src);
    }
    let ghost base = vw(rows@);
    let ghost sv = suggestion_views(ss@);
    let mut pending: Vec<Suggestion> = Vec::new();
    assert(sv.take(0) =~= seq![]);
    assert(suggestion_views(pending@) =~= seq![]);
    let mut k: usize = 0;
    while k < ss.len()
        invariant
            k <= ss.len(),
            sv == suggestion_views(ss@),
            base == keep(t@.suggestions, |s: SuggestionRowV| !(s.note_id == note_id@ && s.status == "pending"@)),
            upsert_all(base, note_id@, sv.take(k as int), now@, ok) == Ok::<
                (Seq<SuggestionRowV>, Seq<SuggestionV>),
                AppErrorV,
            >((vw(rows@), suggestion_views(pending@))),
        decreases ss.len() - k,
    {
        proof {
            assert(sv.take(k + 1).drop_last() == sv.take(k as int));
            assert(sv.take(k + 1).last() == ss@[k as int]@);
        }
        let ghost before = suggestion_views(pending@);
        match upsert_into(&mut rows, note_id, &ss[k], now, ok) {
            Err(e) => {
                proof {
                    assert(upsert_all(base, note_id@, sv.take(k + 1), now@, ok) is Err);
                    lemma_upsert_error_stays(base, note_id@, sv, now@, ok, k + 1, sv.len() as int);
                    assert(sv.take(sv.len() as int) == sv);
                }
                return Err(e);
            },
            Ok(Some(q)) => {
                pending.push(q);
                assert(suggestion_views(pending@) =~= before.push(pending@[before.len() as int]@));
            },
            Ok(None) => {},
        }
        k = k + 1;
    }
    proof {
        assert(sv.take(k as int) == sv);
    }
    Ok((rows, pending))
}

impl Database {
    /// Stores what the organizer found for a note at `now`, entity `k` under `ids[k]`, and
    /// returns the proposals still pending with the entities.
    pub fn persist_organizer_result_at(
        &mut self,
        note_id: &str,
        result: &OrganizerResult,
        now: &str,
        ids: &Vec<String>,
    ) -> (r: AppResult<OrganizerResult>)
        requires
            ids.len() >= result.entities.len(),
        ensures
            final(self)@ == persist_spec(old(self)@, note_id@, result@, now@, views(ids@)).0,
            match persist_spec(old(self)@, note_id@, result@, now@, views(ids@)).1 {
                Ok(v) => r matches Ok(x) && x@ == v,
                Err(e) => r matches Err(x) && x@ == e,
            },
    {
        let ok = self.tables.has_note(note_id);
        let es = match entities_after(&self.tables, note_id, &result.entities, ids, now, ok) {
            Ok(v) => v,
            Err(e) => {
                return Err(e);
            },
        };
        let (ss, pending) = match suggestions_after(&self.tables, note_id, &result.suggestions, now, ok) {
            Ok(v) => v,
            Err(e) => {
                return Err(e);
            },
        };
        let mut entities: Vec<EntityMatch> = Vec::new();
        let mut i: usize = 0;
        while i < result.entities.len()
            invariant
                i <= result.entities.len(),
                entities.len() == i,
                forall|j: int| 0 <= j < i ==> #[trigger] entities@[j]@ == result.entities@[j]@,
            decreases result.entities.len() - i,
        {
            entities.push(result.entities[i].dup());
            i = i + 1;
        }
        self.tables.entities = es;
        self.tables.suggestions = ss;
        let out = OrganizerResult { suggestions: pending, entities };
        assert(out@.entities =~= result@.entities);
        assert(self@ =~= persist_spec(old(self)@, note_id@, result@, now@, views(ids@)).0);
        Ok(out)
    }

    /// Stores what the organizer found for a note, now, with fresh entity ids.
    pub fn persist_organizer_result(&mut self, note_id: &str, result: &OrganizerResult) -> (r: AppResult<OrganizerResult>)
        ensures
            exists|now: Seq<char>, ids: Seq<Seq<char>>|
                #![trigger persist_spec(old(self)@, note_id@, result@, now, ids)]
                ids.len() >= result.entities.len() && final(self)@ == persist_spec(old(self)@, note_id@, result@, now, ids).0
                    && match persist_spec(old(self)@, note_id@, result@, now, ids).1 {
                    Ok(v) => r matches Ok(x) && x@ == v,
                    Err(e) => r matches Err(x) && x@ == e,
                },
    {
        let now = crate::dates::utc_now_text();
        let mut ids: Vec<String> = Vec::new();
        let mut k: usize = 0;
        while k < result.entities.len()
            invariant
                k <= result.entities.len(),
                ids.len() == k,
            decreases result.entities.len() - k,
        {
            ids.push(crate::ids::new_id());
            k = k + 1;
        }
        self.persist_organizer_result_at(note_id, result, now.as_str(), &ids)
    }

    /// Marks a proposal accepted or dismissed at `now`.
    pub fn set_suggestion_status_at(&mut self, id: &str, status: &str, now: &str) -> (r: AppResult<()>)
        ensures
            match status_spec(old(self)@, id@, status@, now@) {
                Ok(t) => r is Ok && final(self)@ == t,
                Err(e) => r matches Err(x) && x@ == e && final(self)@ == old(self)@,
            },
    {
        if !(str_eq(status, "accepted") || str_eq(status, "dismissed")) {
            return Err(AppError::Validation("无效的建议状态".to_owned()));
        }
        if !suggestion_id_in(&self.tables.suggestions, id) {
            return Err(AppError::NotFound);
        }
        let ghost f = |r: SuggestionRowV|
            if r.id == id@ {
                SuggestionRowV { status: status@, updated_at: now@, ..r }
            } else {
                r
            };
        let mut rows: Vec<SuggestionRow> = Vec::new();
        let mut i: usize = 0;
        while i < self.tables.suggestions.len()
            invariant
                i <= self.tables.suggestions.len(),
                rows.len() == i,
                f == (|r: SuggestionRowV|
                    if r.id == id@ {
                        SuggestionRowV { status: status@, updated_at: now@, ..r }
                    } else {
                        r
                    }),
                forall|j: int| 0 <= j < i ==> #[trigger] rows@[j]@ == f(self.tables.suggestions@[j]@),
            decreases self.tables.suggestions.len() - i,
        {
            let row = &self.tables.suggestions[i];
            if str_eq(row.id.as_str(), id) {
                let x = SuggestionRow {
                    id: row.id.clone(),
                    note_id: row.note_id.clone(),
                    kind: row.kind.clone(),
                    payload: row.payload.dup(),
                    rule_id: row.rule_id.clone(),
                    confidence: row.confidence,
                    status: status.to_owned(),
                    fingerprint: row.fingerprint.clone(),
                    created_at: row.created_at.clone(),
                    updated_at: now.to_owned(),
                };
                assert(x@ =~= f(row@));
                rows.push(x);
            } else {
                let x = row.dup();
                assert(x@ =~= f(row@));
                rows.push(x);
            }
            i = i + 1;
        }
        self.tables.suggestions = rows;
        assert(vw(self.tables.suggestions@) =~= vw(old(self).tables.suggestions@).map_values(f));
        assert(status_spec(old(self)@, id@, status@, now@) == Ok::<TablesV, AppErrorV>(self@)) by {
            assert(self@ =~= TablesV { suggestions: vw(old(self).tables.suggestions@).map_values(f), ..old(self)@ });
        }
        Ok(())
    }

    /// Marks a proposal accepted or dismissed, now.
    pub fn set_suggestion_status(&mut self, id: &str, status: &str) -> (r: AppResult<()>)
        ensures
            exists|now: Seq<char>|
                #![trigger status_spec(old(self)@, id@, status@, now)]
                match status_spec(old(self)@, id@, status@, now) {
                    Ok(t) => r is Ok && final(self)@ == t,
                    Err(e) => r matches Err(x) && x@ == e && final(self)@ == old(self)@,
                },
    {
        let now = crate::dates::utc_now_text();
        self.set_suggestion_status_at(id, status, now.as_str())
    }
}

} // verus!
