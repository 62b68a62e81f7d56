//! What holds of the repository across its operations.

use vstd::prelude::*;
use crate::error::AppErrorV;
use crate::models::{NoteV, SaveNoteInputV, SaveNoteResponseV};
use crate::ops::{mark_archived, mark_deleted, mark_restored, purge_spec, restore_spec, revision_maxed, set_archived_spec, soft_delete_spec, update_notes};
use crate::repo::{category_of_row, category_order, hydrate, in_view, in_view_rows, list_spec, newer_first, note_pos, read_note};
use crate::save::{completes, input_error, save_spec};
use crate::seqs::{distinct, lemma_distinct_contains, first_index, insert_pos, isort, keep, lemma_first_index, lemma_first_index_is, lemma_isort, lemma_keep_all, lemma_keep_satisfies, lemma_keep_contains, lemma_last_contains, lemma_push_contains};
use crate::suggest::{entity_row, insert_entities, fingerprint, persist_spec, upsert_all, upsert_one, row_for, note_exists};
use crate::tables::SuggestionRowV;
use crate::models::{OrganizerResultV, SuggestionV};
use crate::tables::{NoteRowV, TablesV};
use crate::writes::{reindex, reindex_all};
use crate::organizer::{alnum_lower, shared, similarity_spec, trigrams};
use crate::ops::{create_category_spec, delete_category_spec, delete_tag_spec};
use crate::settings::write_pairs;
use crate::suggest::status_spec;
use crate::search::search_spec;
use crate::tables::empty_tables;
use crate::tables::{CategoryRowV, EntityRowV, FtsRowV, LinkRowV, TagRowV};
use crate::search::{history_spec, query_json, recent_first, recent_ids, record_search, SearchHistoryItemV};
use crate::tables::HistoryRowV;
use crate::models::SearchQueryV;
use crate::text::{bytes_lt, lowercase, trim_spec, utf8};
use crate::files::{backup_check_spec, manifest_spec};
use crate::transfer::{normalize, envelope_spec, exported_notes, id_stored, ids_needed, import_note, import_notes, import_spec, imported_row, link_tags, mapped, merge_categories, no_flags, preview_spec, same_stored, tag_count, ImportStateV};
use crate::models::{CategoryV, EntityMatchV, ExportEnvelopeV, ImportResult, TagV};

verus! {

/// Refreshing the index leaves the notes as they are.
pub proof fn lemma_reindex_keeps_notes(t: TablesV, id: Seq<char>)
    ensures
        reindex(t, id).notes == t.notes,
{
}

/// A note read by id carries that id.
proof fn lemma_read_note_id(t: TablesV, id: Seq<char>)
    ensures
        read_note(t, id) matches Ok(n) ==> n.id == id,
{
    lemma_first_index(t.notes, |r: NoteRowV| r.id == id);
}

/// Changing the rows with an id, without changing their ids, leaves the position of the
/// first row with each id where it was.
proof fn lemma_update_keeps_positions(t: TablesV, id: Seq<char>, f: spec_fn(NoteRowV) -> NoteRowV, x: Seq<char>)
    requires
        forall|r: NoteRowV| #[trigger] f(r).id == r.id,
    ensures
        note_pos(update_notes(t, id, f), x) == note_pos(t, x),
        update_notes(t, id, f).notes.len() == t.notes.len(),
{
    let s = t.notes;
    let u = update_notes(t, id, f).notes;
    let p = |r: NoteRowV| r.id == x;
    assert forall|k: int| 0 <= k < s.len() implies #[trigger] p(u[k]) == p(s[k]) by {
        if s[k].id == id {
            assert(u[k] == f(s[k]));
        }
    }
    lemma_first_index(s, p);
    lemma_first_index(u, p);
    let a = first_index(s, p);
    if a >= 0 {
        assert(p(u[a]));
        lemma_first_index_is(u, p, a);
    } else {
        assert forall|k: int| 0 <= k < u.len() implies !p(#[trigger] u[k]) by {
            assert(!p(s[k]));
        }
    }
}

/// A saved note reads back as the save returned it: whatever `save_note` answers with a
/// note (created, saved or in conflict), reading that note's id from the store it leaves
/// gives the same note.
pub proof fn law_save_reads_back(t: TablesV, i: SaveNoteInputV, now: Seq<char>, ids: Seq<Seq<char>>)
    requires
        save_spec(t, i, now, ids).1 is Ok,
    ensures
        ({
            let (t2, r) = save_spec(t, i, now, ids);
            let resp = r->Ok_0;
            read_note(t2, resp.note.id) == Ok::<NoteV, AppErrorV>(resp.note)
        }),
{
    let (t2, r) = save_spec(t, i, now, ids);
    let resp = r->Ok_0;
    match i.id {
        Some(id) => {
            lemma_read_note_id(t, id);
            lemma_read_note_id(t2, id);
        },
        None => {
            lemma_read_note_id(t2, ids[0]);
        },
    }
}

/// A save that names a stored revision other than the note's own changes nothing and
/// answers `conflict` with the note as stored: an edit is never silently overwritten.
pub proof fn law_stale_revision_conflicts(
    t: TablesV,
    i: SaveNoteInputV,
    now: Seq<char>,
    ids: Seq<Seq<char>>,
    id: Seq<char>,
    expected: i64,
)
    requires
        input_error(i) is None,
        i.id == Some(id),
        note_pos(t, id) >= 0,
        i.expected_revision == Some(expected),
        expected != t.notes[note_pos(t, id)].revision,
    ensures
        save_spec(t, i, now, ids).0 == t,
        save_spec(t, i, now, ids).1 == Ok::<SaveNoteResponseV, AppErrorV>(
            SaveNoteResponseV { status: "conflict"@, note: hydrate(t, t.notes[note_pos(t, id)]) },
        ),
{
}

/// A save of a stored note that succeeds raises its revision by exactly one.
pub proof fn law_save_bumps_revision(t: TablesV, i: SaveNoteInputV, now: Seq<char>, ids: Seq<Seq<char>>, id: Seq<char>)
    requires
        i.id == Some(id),
        save_spec(t, i, now, ids).1 matches Ok(resp) && resp.status == "saved"@,
    ensures
        ({
            let t2 = save_spec(t, i, now, ids).0;
            let p = note_pos(t, id);
            &&& 0 <= p < t.notes.len()
            &&& note_pos(t2, id) == p
            &&& t2.notes[p].revision == t.notes[p].revision + 1
        }),
{
    lemma_first_index(t.notes, |r: NoteRowV| r.id == id);
    let p = note_pos(t, id);
    let cur = t.notes[p];
    let hash = crate::save::content_hash(i.title, i.content);
    let completed = if completes(i) {
        match cur.completed_at {
            Some(c) => Some(c),
            None => Some(now),
        }
    } else {
        None
    };
    let f = |r: NoteRowV| crate::save::rewritten(r, i, hash, now, completed);
    lemma_update_keeps_positions(t, id, f, id);
    let t1 = update_notes(t, id, f);
    assert(t1.notes[p] == f(cur));
    if cur.revision == i64::MAX {
        assert(revision_maxed(t, id));
    }
    let plan = crate::save::plan_upto(t.tags, i.tag_names, ids, now, i.tag_names.len());
    reveal_strlit("conflict");
    reveal_strlit("saved");
    assert("conflict"@.len() == 8 && "saved"@.len() == 5);
    assert("conflict"@ != "saved"@);
    assert(input_error(i) is None);
    let expected = match i.expected_revision {
        Some(x) => x,
        None => cur.revision,
    };
    if expected != cur.revision {
        assert(save_spec(t, i, now, ids).1 == match read_note(t, id) {
            Ok(n) => Ok(SaveNoteResponseV { status: "conflict"@, note: n }),
            Err(e) => Err(e),
        });
        assert(false);
    }
    assert(!revision_maxed(t, id));
    assert(!crate::save::missing_category(t, i.category_id));
    match plan {
        Ok(pl) => {
            assert(save_spec(t, i, now, ids) == crate::save::finish(t1, id, pl, "saved"@));
            assert(save_spec(t, i, now, ids).0 == reindex(crate::save::with_links(t1, id, pl), id));
        },
        Err(_) => {},
    }
}

/// Saving a completed todo again, still completed, keeps the time it was completed.
pub proof fn law_completion_time_kept(t: TablesV, i: SaveNoteInputV, now: Seq<char>, ids: Seq<Seq<char>>, id: Seq<char>, c: Seq<char>)
    requires
        i.id == Some(id),
        completes(i),
        note_pos(t, id) >= 0,
        t.notes[note_pos(t, id)].completed_at == Some(c),
        save_spec(t, i, now, ids).1 matches Ok(resp) && resp.status == "saved"@,
    ensures
        ({
            let t2 = save_spec(t, i, now, ids).0;
            let p = note_pos(t, id);
            note_pos(t2, id) == p && t2.notes[p].completed_at == Some(c)
        }),
{
    lemma_first_index(t.notes, |r: NoteRowV| r.id == id);
    let p = note_pos(t, id);
    let hash = crate::save::content_hash(i.title, i.content);
    let f = |r: NoteRowV| crate::save::rewritten(r, i, hash, now, Some(c));
    lemma_update_keeps_positions(t, id, f, id);
}


/// The row of a note after it went to the trash at `now1` and came back at `now2`.
pub open spec fn round_tripped(r: NoteRowV, now2: Seq<char>) -> NoteRowV {
    NoteRowV { deleted_at: None, updated_at: now2, revision: (r.revision + 2) as i64, ..r }
}

/// Deleting a note and restoring it gives back the note as it was, two revisions later and
/// stamped with the restore time: in particular it is back in every list it was in.
pub proof fn law_delete_then_restore(t: TablesV, id: Seq<char>, now1: Seq<char>, now2: Seq<char>)
    requires
        forall|k: int| 0 <= k < t.notes.len() && #[trigger] t.notes[k].id == id ==> t.notes[k].revision < i64::MAX - 1,
    ensures
        soft_delete_spec(t, id, now1) is Ok,
        restore_spec(soft_delete_spec(t, id, now1)->Ok_0, id, now2) is Ok,
        ({
            let t1 = soft_delete_spec(t, id, now1)->Ok_0;
            let t2 = restore_spec(t1, id, now2)->Ok_0;
            &&& t1.notes.len() == t.notes.len()
            &&& t2.notes.len() == t.notes.len()
            &&& forall|k: int| 0 <= k < t.notes.len() && #[trigger] t.notes[k].id == id ==> in_view("trash"@, t1.notes[k], false)
            &&& forall|k: int| 0 <= k < t.notes.len() ==> #[trigger] t2.notes[k] == if t.notes[k].id == id {
                round_tripped(t.notes[k], now2)
            } else {
                t.notes[k]
            }
            &&& forall|k: int, view: Seq<char>, today: bool|
                0 <= k < t.notes.len() && t.notes[k].deleted_at is None ==> #[trigger] in_view(view, t2.notes[k], today)
                    == in_view(view, t.notes[k], today)
        }),
{
    assert(!revision_maxed(t, id));
    let u1 = update_notes(t, id, mark_deleted(now1));
    let t1 = reindex(u1, id);
    lemma_reindex_keeps_notes(u1, id);
    assert(soft_delete_spec(t, id, now1) == Ok::<TablesV, AppErrorV>(t1));
    assert forall|k: int| 0 <= k < t1.notes.len() && #[trigger] t1.notes[k].id == id implies t1.notes[k].revision != i64::MAX by {
        assert(t.notes[k].id == id);
    }
    assert(!revision_maxed(t1, id));
    let u2 = update_notes(t1, id, mark_restored(now2));
    let t2 = reindex(u2, id);
    lemma_reindex_keeps_notes(u2, id);
    assert(restore_spec(t1, id, now2) == Ok::<TablesV, AppErrorV>(t2));
    assert forall|k: int| 0 <= k < t.notes.len() implies #[trigger] t2.notes[k] == if t.notes[k].id == id {
        round_tripped(t.notes[k], now2)
    } else {
        t.notes[k]
    } by {
        if t.notes[k].id == id {
            assert(t1.notes[k] == mark_deleted(now1)(t.notes[k]));
            assert(t2.notes[k] == mark_restored(now2)(t1.notes[k]));
        }
    }
    reveal_strlit("trash");
    reveal_strlit("today");
    reveal_strlit("todo");
    reveal_strlit("favorite");
    reveal_strlit("archive");
    assert("trash"@ != "today"@) by {
        assert("trash"@[1] != "today"@[1]);
    }
    assert("trash"@.len() != "todo"@.len() && "trash"@.len() != "favorite"@.len() && "trash"@.len() != "archive"@.len());
    assert forall|k: int| 0 <= k < t.notes.len() && #[trigger] t.notes[k].id == id implies in_view("trash"@, t1.notes[k], false) by {
        assert(t1.notes[k] == mark_deleted(now1)(t.notes[k]));
    }
}

/// Permanently deleting a note that is not in the trash changes nothing, so the note keeps
/// its index rows and stays findable; a trashed note goes with its index rows, and
/// afterwards no trashed note has that id.
pub proof fn law_purge_takes_only_trash(t: TablesV, id: Seq<char>)
    ensures
        (forall|k: int| 0 <= k < t.notes.len() && #[trigger] t.notes[k].id == id ==> t.notes[k].deleted_at is None)
            ==> purge_spec(t, id) == t,
        forall|k: int| 0 <= k < purge_spec(t, id).notes.len() && #[trigger] purge_spec(t, id).notes[k].id == id
            ==> purge_spec(t, id).notes[k].deleted_at is None,
        (exists|k: int| 0 <= k < t.notes.len() && t.notes[k].id == id && t.notes[k].deleted_at is Some)
            ==> forall|k: int| 0 <= k < purge_spec(t, id).fts.len() ==> (#[trigger] purge_spec(t, id).fts[k]).note_id != id,
{
    let p = |r: NoteRowV| !(r.id == id && r.deleted_at is Some);
    if forall|k: int| 0 <= k < t.notes.len() && #[trigger] t.notes[k].id == id ==> t.notes[k].deleted_at is None {
        assert(!exists|k: int| 0 <= k < t.notes.len() && t.notes[k].id == id && t.notes[k].deleted_at is Some);
    }
    lemma_keep_satisfies(t.notes, p);
    lemma_keep_satisfies(t.fts, |f: FtsRowV| f.note_id != id);
}

/// The note has a proposal with this fingerprint, and every such proposal is decided.
pub open spec fn decided(rows: Seq<SuggestionRowV>, note_id: Seq<char>, fp: Seq<char>) -> bool {
    &&& exists|k: int| 0 <= k < rows.len() && #[trigger] rows[k].note_id == note_id && rows[k].fingerprint == fp
    &&& forall|k: int|
        0 <= k < rows.len() && #[trigger] rows[k].note_id == note_id && rows[k].fingerprint == fp ==> rows[k].status
            != "pending"@
}

proof fn lemma_upsert_one_avoids(
    rows: Seq<SuggestionRowV>,
    note_id: Seq<char>,
    s: SuggestionV,
    now: Seq<char>,
    ok: bool,
    fp: Seq<char>,
)
    requires
        decided(rows, note_id, fp),
    ensures
        upsert_one(rows, note_id, s, now, ok) matches Ok((r2, p)) ==> decided(r2, note_id, fp) && match p {
            Some(q) => fingerprint(q) != fp,
            None => true,
        },
{
    let f = fingerprint(s);
    let pred = |r: SuggestionRowV| r.note_id == note_id && r.fingerprint == f;
    lemma_first_index(rows, pred);
    let i = row_for(rows, note_id, f);
    let w = choose|k: int| 0 <= k < rows.len() && #[trigger] rows[k].note_id == note_id && rows[k].fingerprint == fp;
    if f == fp {
        assert(pred(rows[w]));
        assert(i >= 0);
    }
    match upsert_one(rows, note_id, s, now, ok) {
        Ok((r2, p)) => {
            if i >= 0 {
                let old = rows[i];
                let updated = SuggestionRowV { payload: s, confidence: s.confidence, updated_at: now, ..old };
                assert(r2 == rows.update(i, updated));
                assert(r2[w].note_id == note_id && r2[w].fingerprint == fp);
                assert forall|k: int|
                    0 <= k < r2.len() && #[trigger] r2[k].note_id == note_id && r2[k].fingerprint == fp implies r2[k].status
                        != "pending"@ by {
                    if k == i {
                        assert(rows[k].note_id == note_id && rows[k].fingerprint == fp);
                    } else {
                        assert(r2[k] == rows[k]);
                    }
                }
            } else {
                assert(r2[w] == rows[w]);
                assert forall|k: int|
                    0 <= k < r2.len() && #[trigger] r2[k].note_id == note_id && r2[k].fingerprint == fp implies r2[k].status
                        != "pending"@ by {
                    if k < rows.len() {
                        assert(r2[k] == rows[k]);
                    }
                }
            }
        },
        Err(_) => {},
    }
}

proof fn lemma_upsert_all_avoids(
    rows: Seq<SuggestionRowV>,
    note_id: Seq<char>,
    ss: Seq<SuggestionV>,
    now: Seq<char>,
    ok: bool,
    fp: Seq<char>,
)
    requires
        decided(rows, note_id, fp),
    ensures
        upsert_all(rows, note_id, ss, now, ok) matches Ok((r2, p)) ==> decided(r2, note_id, fp) && forall|j: int|
            0 <= j < p.len() ==> fingerprint(#[trigger] p[j]) != fp,
    decreases ss.len(),
{
    if ss.len() > 0 {
        lemma_upsert_all_avoids(rows, note_id, ss.drop_last(), now, ok, fp);
        match upsert_all(rows, note_id, ss.drop_last(), now, ok) {
            Ok((r, pending)) => {
                lemma_upsert_one_avoids(r, note_id, ss.last(), now, ok, fp);
            },
            Err(_) => {},
        }
    }
}

/// A proposal the user accepted or dismissed is not offered again: when the organizer's
/// result is stored for the note, no proposal that comes back pending has its fingerprint.
pub proof fn law_decided_not_reoffered(
    t: TablesV,
    note_id: Seq<char>,
    r: OrganizerResultV,
    now: Seq<char>,
    ids: Seq<Seq<char>>,
    fp: Seq<char>,
)
    requires
        exists|k: int|
            0 <= k < t.suggestions.len() && #[trigger] t.suggestions[k].note_id == note_id && t.suggestions[k].fingerprint
                == fp && t.suggestions[k].status != "pending"@,
    ensures
        persist_spec(t, note_id, r, now, ids).1 matches Ok(v) ==> forall|j: int|
            0 <= j < v.suggestions.len() ==> fingerprint(#[trigger] v.suggestions[j]) != fp,
{
    let p = |s: SuggestionRowV| !(s.note_id == note_id && s.status == "pending"@);
    let kept = keep(t.suggestions, p);
    let k = choose|k: int|
        0 <= k < t.suggestions.len() && #[trigger] t.suggestions[k].note_id == note_id && t.suggestions[k].fingerprint == fp
            && t.suggestions[k].status != "pending"@;
    let row = t.suggestions[k];
    assert(t.suggestions.contains(row));
    lemma_keep_contains(t.suggestions, p, row);
    assert(kept.contains(row));
    lemma_keep_satisfies(t.suggestions, p);
    let w = choose|w: int| 0 <= w < kept.len() && kept[w] == row;
    assert(kept[w].note_id == note_id && kept[w].fingerprint == fp);
    assert forall|x: int|
        0 <= x < kept.len() && #[trigger] kept[x].note_id == note_id && kept[x].fingerprint == fp implies kept[x].status
            != "pending"@ by {
        assert(p(kept[x]));
    }
    assert(decided(kept, note_id, fp));
    lemma_upsert_all_avoids(kept, note_id, r.suggestions, now, ok_of(t, note_id), fp);
}

spec fn ok_of(t: TablesV, note_id: Seq<char>) -> bool {
    note_exists(t, note_id)
}


/// No two history entries share an id (the table's primary key).
pub open spec fn history_ids_unique(h: Seq<HistoryRowV>) -> bool {
    forall|i: int, j: int| 0 <= i < j < h.len() ==> h[i].id != h[j].id
}

/// Filtering history entries keeps their ids unique.
proof fn lemma_keep_ids_unique(s: Seq<HistoryRowV>, p: spec_fn(HistoryRowV) -> bool)
    requires
        history_ids_unique(s),
    ensures
        history_ids_unique(keep(s, p)),
    decreases s.len(),
{
    if s.len() > 0 {
        let d = s.drop_last();
        assert forall|i: int, j: int| 0 <= i < j < d.len() implies d[i].id != d[j].id by {
            assert(d[i] == s[i] && d[j] == s[j]);
        }
        lemma_keep_ids_unique(d, p);
        let r = keep(d, p);
        if p(s.last()) {
            assert forall|k: int| 0 <= k < r.len() implies r[k].id != s.last().id by {
                lemma_keep_contains(d, p, r[k]);
                assert(r.contains(r[k]));
                let m = choose|m: int| 0 <= m < d.len() && d[m] == r[k];
                assert(s[m] == d[m]);
            }
            let rr = r.push(s.last());
            assert forall|i: int, j: int| 0 <= i < j < rr.len() implies rr[i].id != rr[j].id by {
                assert(rr[i] == r[i]);
                if j < r.len() {
                    assert(rr[j] == r[j]);
                }
            }
        }
    }
}

/// Entries with unique ids, each id among `ids`, are no more than `ids`.
proof fn lemma_unique_ids_bound(h: Seq<HistoryRowV>, ids: Seq<Seq<char>>)
    requires
        history_ids_unique(h),
        forall|k: int| 0 <= k < h.len() ==> ids.contains(#[trigger] h[k].id),
    ensures
        h.len() <= ids.len(),
{
    broadcast use vstd::seq_lib::seq_to_set_is_finite;
    let m = h.map_values(|r: HistoryRowV| r.id);
    assert forall|i: int, j: int| 0 <= i < m.len() && 0 <= j < m.len() && i != j implies m[i] != m[j] by {
        if i < j {
            assert(h[i].id != h[j].id);
        } else {
            assert(h[j].id != h[i].id);
        }
    }
    m.unique_seq_to_set();
    ids.lemma_cardinality_of_set();
    assert forall|x: Seq<char>| m.to_set().contains(x) implies ids.to_set().contains(x) by {
        assert(m.contains(x));
        let k = choose|k: int| 0 <= k < m.len() && m[k] == x;
        assert(ids.contains(h[k].id));
    }
    vstd::set_lib::lemma_len_subset(m.to_set(), ids.to_set());
}

/// Recording a search leaves at most twenty entries in the history, each id once.
pub proof fn law_history_bounded(t: TablesV, q: SearchQueryV, now: Seq<char>, hid: Seq<char>)
    requires
        history_ids_unique(t.search_history),
        record_search(t, q, now, hid).1 is Ok,
    ensures
        record_search(t, q, now, hid).0.search_history.len() <= 20,
        history_ids_unique(record_search(t, q, now, hid).0.search_history),
{
    let fj = query_json(q);
    let normalized = lowercase(trim_spec(q.query));
    let dedup = |r: HistoryRowV| !(r.normalized_query == normalized && r.filters_json == fj);
    let t1h = keep(t.search_history, dedup);
    lemma_keep_ids_unique(t.search_history, dedup);
    let row = HistoryRowV {
        id: hid,
        query: trim_spec(q.query),
        normalized_query: normalized,
        filters_json: fj,
        searched_at: now,
    };
    let h = t1h.push(row);
    assert forall|i: int, j: int| 0 <= i < j < h.len() implies h[i].id != h[j].id by {
        assert(h[i] == t1h[i]);
        if j < t1h.len() {
            assert(h[j] == t1h[j]);
        }
    }
    let ids = recent_ids(h);
    let p = |r: HistoryRowV| ids.contains(r.id);
    let fin = keep(h, p);
    assert(record_search(t, q, now, hid).0.search_history == fin);
    lemma_keep_ids_unique(h, p);
    lemma_keep_satisfies(h, p);
    lemma_unique_ids_bound(fin, ids);
}

/// The new entry sorts before every entry that is older than it.
proof fn lemma_newest_first(old: Seq<HistoryRowV>, row: HistoryRowV)
    requires
        forall|k: int| 0 <= k < old.len() ==> recent_first(row, #[trigger] old[k]),
    ensures
        isort(old.push(row), |a: HistoryRowV, b: HistoryRowV| recent_first(a, b))[0] == row,
{
    let lt = |a: HistoryRowV, b: HistoryRowV| recent_first(a, b);
    let s = old.push(row);
    assert(s.drop_last() == old);
    let r = isort(old, lt);
    lemma_isort(old, lt);
    if r.len() > 0 {
        assert(old.contains(r[0])) by {
            assert(r.contains(r[0]));
        }
        let m = choose|m: int| 0 <= m < old.len() && old[m] == r[0];
        assert(recent_first(row, old[m]));
        lemma_first_index_is(r, |y: HistoryRowV| lt(row, y), 0);
    }
    assert(insert_pos(r, row, lt) == 0) by {
        lemma_first_index(r, |y: HistoryRowV| lt(row, y));
    }
}

/// After a search is recorded, no entry but the new one has its query and filters; and when
/// the new entry is later than every earlier one, the history lists it first.
pub proof fn law_history_replaces_same_search(t: TablesV, q: SearchQueryV, now: Seq<char>, hid: Seq<char>)
    requires
        record_search(t, q, now, hid).1 is Ok,
    ensures
        forall|k: int| 0 <= k < record_search(t, q, now, hid).0.search_history.len()
            && (#[trigger] record_search(t, q, now, hid).0.search_history[k]).normalized_query
                == lowercase(trim_spec(q.query))
            && record_search(t, q, now, hid).0.search_history[k].filters_json == query_json(q)
            ==> record_search(t, q, now, hid).0.search_history[k].id == hid
            && record_search(t, q, now, hid).0.search_history[k].searched_at == now,
        (forall|k: int| 0 <= k < t.search_history.len()
            ==> bytes_lt(utf8((#[trigger] t.search_history[k]).searched_at), utf8(now)))
            ==> history_spec(record_search(t, q, now, hid).0)[0] == (SearchHistoryItemV {
                id: hid,
                query: trim_spec(q.query),
                filters_json: query_json(q),
                searched_at: now,
            }),
{
    let fj = query_json(q);
    let normalized = lowercase(trim_spec(q.query));
    let dedup = |r: HistoryRowV| !(r.normalized_query == normalized && r.filters_json == fj);
    let t1h = keep(t.search_history, dedup);
    let row = HistoryRowV {
        id: hid,
        query: trim_spec(q.query),
        normalized_query: normalized,
        filters_json: fj,
        searched_at: now,
    };
    let h = t1h.push(row);
    let ids = recent_ids(h);
    let p = |r: HistoryRowV| ids.contains(r.id);
    let fin = keep(h, p);
    let t2 = record_search(t, q, now, hid).0;
    assert(t2.search_history == fin);
    lemma_keep_satisfies(t.search_history, dedup);
    assert forall|k: int| 0 <= k < fin.len() && fin[k].normalized_query == normalized && fin[k].filters_json == fj
        implies fin[k].id == hid && fin[k].searched_at == now by {
        lemma_keep_contains(h, p, fin[k]);
        assert(fin.contains(fin[k]));
        let m = choose|m: int| 0 <= m < h.len() && h[m] == fin[k];
        if m < t1h.len() {
            assert(h[m] == t1h[m]);
            assert(dedup(t1h[m]));
        }
    }
    if forall|k: int| 0 <= k < t.search_history.len()
        ==> bytes_lt(utf8((#[trigger] t.search_history[k]).searched_at), utf8(now)) {
        assert forall|k: int| 0 <= k < t1h.len() implies recent_first(row, #[trigger] t1h[k]) by {
            lemma_keep_contains(t.search_history, dedup, t1h[k]);
            assert(t1h.contains(t1h[k]));
            let m = choose|m: int| 0 <= m < t.search_history.len() && t.search_history[m] == t1h[k];
        }
        lemma_newest_first(t1h, row);
        let lt = |a: HistoryRowV, b: HistoryRowV| recent_first(a, b);
        lemma_isort(h, lt);
        assert(ids[0] == hid);
        assert(ids.contains(hid));
        assert(p(row));
        let kept = keep(t1h, p);
        assert(h.drop_last() == t1h);
        assert(fin == kept.push(row));
        assert forall|k: int| 0 <= k < kept.len() implies recent_first(row, #[trigger] kept[k]) by {
            lemma_keep_contains(t1h, p, kept[k]);
            assert(kept.contains(kept[k]));
            let m = choose|m: int| 0 <= m < t1h.len() && t1h[m] == kept[k];
            assert(recent_first(row, t1h[m]));
        }
        lemma_newest_first(kept, row);
        lemma_isort(fin, lt);
    }
}


/// A backup's manifest passes the check made before restoring those same bytes.
pub proof fn law_backup_passes_check(db: Seq<u8>, app_version: Seq<char>, now: Seq<char>)
    ensures
        backup_check_spec(manifest_spec(db, app_version, now), db) == Ok::<(), AppErrorV>(()),
{
}

/// No two note rows share an id (the table's primary key).
pub open spec fn note_ids_unique(t: TablesV) -> bool {
    forall|i: int, j: int| 0 <= i < j < t.notes.len() ==> t.notes[i].id != t.notes[j].id
}

/// The rows of a view are rows of the table.
proof fn lemma_view_rows_stored(notes: Seq<NoteRowV>, view: Seq<char>, flags: Seq<bool>, x: NoteRowV)
    ensures
        in_view_rows(notes, view, flags).contains(x) ==> notes.contains(x),
    decreases notes.len(),
{
    if notes.len() > 0 && flags.len() == notes.len() {
        lemma_view_rows_stored(notes.drop_last(), view, flags.drop_last(), x);
        let r = in_view_rows(notes.drop_last(), view, flags.drop_last());
        lemma_push_contains(r, notes.last(), x);
        lemma_last_contains(notes, x);
    }
}

/// Every note a view lists is stored, under its id, with its title and content.
proof fn lemma_listed_stored(t: TablesV, view: Seq<char>, limit: usize, flags: Seq<bool>, k: int)
    requires
        note_ids_unique(t),
        0 <= k < list_spec(t, view, limit, flags).len(),
    ensures
        same_stored(t, list_spec(t, view, limit, flags)[k]),
{
    let cap = if limit < 100_000 {
        limit as int
    } else {
        100_000
    };
    let lt = |a: NoteRowV, b: NoteRowV| newer_first(a, b);
    let vr = in_view_rows(t.notes, view, flags);
    let rows = isort(vr, lt);
    let taken = if rows.len() <= cap {
        rows
    } else {
        rows.take(cap)
    };
    lemma_isort(vr, lt);
    let r = taken[k];
    assert(list_spec(t, view, limit, flags)[k] == hydrate(t, r));
    assert(rows.contains(r)) by {
        if rows.len() > cap {
            assert(rows[k] == r);
        } else {
            assert(rows[k] == r);
        }
    }
    lemma_view_rows_stored(t.notes, view, flags, r);
    let m = choose|m: int| 0 <= m < t.notes.len() && t.notes[m] == r;
    assert forall|j: int| 0 <= j < m implies !(|x: NoteRowV| x.id == r.id)(#[trigger] t.notes[j]) by {
        assert(t.notes[j].id != t.notes[m].id);
    }
    lemma_first_index_is(t.notes, |x: NoteRowV| x.id == r.id, m);
}

/// Merging categories leaves the notes as they are.
proof fn lemma_merge_keeps_notes(st: ImportStateV, cs: Seq<CategoryV>, now: Seq<char>, ids: Seq<Seq<char>>)
    ensures
        merge_categories(st, cs, now, ids).t.notes == st.t.notes,
        merge_categories(st, cs, now, ids).created == st.created,
        merge_categories(st, cs, now, ids).skipped == st.skipped,
        merge_categories(st, cs, now, ids).copied == st.copied,
    decreases cs.len(),
{
    if cs.len() > 0 {
        lemma_merge_keeps_notes(st, cs.drop_last(), now, ids);
    }
}

/// Importing notes that are all stored unchanged skips each of them and changes nothing.
proof fn lemma_import_all_same(st: ImportStateV, ns: Seq<NoteV>, now: Seq<char>, ids: Seq<Seq<char>>)
    requires
        forall|k: int| 0 <= k < ns.len() ==> same_stored(st.t, #[trigger] ns[k]),
    ensures
        import_notes(st, ns, now, ids) == Ok::<ImportStateV, AppErrorV>(ImportStateV { skipped: st.skipped + ns.len(), ..st }),
    decreases ns.len(),
{
    if ns.len() > 0 {
        assert forall|k: int| 0 <= k < ns.drop_last().len() implies same_stored(st.t, #[trigger] ns.drop_last()[k]) by {
            assert(ns.drop_last()[k] == ns[k]);
        }
        lemma_import_all_same(st, ns.drop_last(), now, ids);
        assert(same_stored(st.t, ns[ns.len() - 1]));
    }
}

/// Importing a store's own export into it skips every note: nothing is created or copied
/// and the notes stay as they were.
pub proof fn law_export_import_skips_all(
    t: TablesV,
    app_version: Seq<char>,
    exported_at: Seq<char>,
    now: Seq<char>,
    ids: Seq<Seq<char>>,
)
    requires
        note_ids_unique(t),
    ensures
        import_spec(t, envelope_spec(t, app_version, exported_at), now, ids).1 == Ok::<ImportResult, AppErrorV>(
            ImportResult {
                created: 0,
                skipped: exported_notes(t).len() as usize,
                copied_conflicts: 0,
            },
        ),
        import_spec(t, envelope_spec(t, app_version, exported_at), now, ids).0.notes == t.notes,
{
    let e = envelope_spec(t, app_version, exported_at);
    let f = no_flags(t.notes.len());
    let a = list_spec(t, "all"@, 100_000, f);
    let b = list_spec(t, "archive"@, 100_000, f);
    let c = list_spec(t, "trash"@, 100_000, f);
    let ns = exported_notes(t);
    assert(ns == a + b + c);
    assert forall|k: int| 0 <= k < ns.len() implies same_stored(t, #[trigger] ns[k]) by {
        if k < a.len() {
            lemma_listed_stored(t, "all"@, 100_000, f, k);
        } else if k < a.len() + b.len() {
            lemma_listed_stored(t, "archive"@, 100_000, f, k - a.len());
        } else {
            lemma_listed_stored(t, "trash"@, 100_000, f, k - a.len() - b.len());
        }
    }
    let start = ImportStateV { t, map: seq![], used: 0, created: 0, skipped: 0, copied: 0 };
    let m = merge_categories(start, e.categories, now, ids);
    lemma_merge_keeps_notes(start, e.categories, now, ids);
    assert forall|k: int| 0 <= k < ns.len() implies same_stored(m.t, #[trigger] ns[k]) by {
        assert(same_stored(t, ns[k]));
    }
    lemma_import_all_same(m, ns, now, ids);
}


/// Linking tags leaves the notes and the counts as they are, and draws at most one fresh id
/// per tag.
proof fn lemma_link_tags_keeps(st: ImportStateV, id: Seq<char>, gs: Seq<TagV>, now: Seq<char>, ids: Seq<Seq<char>>)
    requires
        link_tags(st, id, gs, now, ids) is Ok,
    ensures
        link_tags(st, id, gs, now, ids)->Ok_0.t.notes == st.t.notes,
        link_tags(st, id, gs, now, ids)->Ok_0.used <= st.used + gs.len(),
        link_tags(st, id, gs, now, ids)->Ok_0.created == st.created,
        link_tags(st, id, gs, now, ids)->Ok_0.skipped == st.skipped,
        link_tags(st, id, gs, now, ids)->Ok_0.copied == st.copied,
    decreases gs.len(),
{
    if gs.len() > 0 {
        lemma_link_tags_keeps(st, id, gs.drop_last(), now, ids);
    }
}

/// The first row with an id stays the first when rows with other ids are appended.
proof fn lemma_pos_extended(old: Seq<NoteRowV>, new: Seq<NoteRowV>, id: Seq<char>)
    requires
        old.len() <= new.len(),
        new.subrange(0, old.len() as int) == old,
        forall|k: int| old.len() <= k < new.len() ==> (#[trigger] new[k]).id != id,
    ensures
        first_index(new, |r: NoteRowV| r.id == id) == first_index(old, |r: NoteRowV| r.id == id),
{
    let p = |r: NoteRowV| r.id == id;
    lemma_first_index(old, p);
    lemma_first_index(new, p);
    assert forall|k: int| 0 <= k < old.len() implies new[k] == old[k] by {
        assert(new.subrange(0, old.len() as int)[k] == new[k]);
    }
    let i = first_index(old, p);
    if i >= 0 {
        assert forall|j: int| 0 <= j < i implies !p(#[trigger] new[j]) by {
            assert(new[j] == old[j]);
        }
        lemma_first_index_is(new, p, i);
    } else {
        assert forall|k: int| 0 <= k < new.len() implies !p(#[trigger] new[k]) by {
            if k < old.len() {
                assert(new[k] == old[k]);
            }
        }
    }
}

/// Merging categories leaves the notes and counts, and draws at most one fresh id per
/// category.
proof fn lemma_merge_used(st: ImportStateV, cs: Seq<CategoryV>, now: Seq<char>, ids: Seq<Seq<char>>)
    ensures
        merge_categories(st, cs, now, ids).used <= st.used + cs.len(),
    decreases cs.len(),
{
    if cs.len() > 0 {
        lemma_merge_used(st, cs.drop_last(), now, ids);
    }
}

/// Importing notes with distinct ids, none of them a fresh id, counts each note as the
/// store held it before the import: created when its id is not stored, skipped when stored
/// unchanged, copied otherwise. The notes only grow, by rows under those ids or fresh ids.
pub proof fn lemma_import_counts(st: ImportStateV, ns: Seq<NoteV>, now: Seq<char>, ids: Seq<Seq<char>>)
    requires
        import_notes(st, ns, now, ids) is Ok,
        st.used + ns.len() + tag_count(ns) <= ids.len(),
        forall|i: int, j: int| 0 <= i < j < ns.len() ==> ns[i].id != ns[j].id,
        forall|i: int, k: int| 0 <= i < ids.len() && 0 <= k < ns.len() ==> ids[i] != ns[k].id,
    ensures
        import_notes(st, ns, now, ids)->Ok_0.created == st.created + keep(ns, |n: NoteV| !id_stored(st.t, n)).len(),
        import_notes(st, ns, now, ids)->Ok_0.skipped == st.skipped + keep(ns, |n: NoteV| same_stored(st.t, n)).len(),
        import_notes(st, ns, now, ids)->Ok_0.copied == st.copied + keep(
            ns,
            |n: NoteV| id_stored(st.t, n) && !same_stored(st.t, n),
        ).len(),
        import_notes(st, ns, now, ids)->Ok_0.used <= st.used + ns.len() + tag_count(ns),
        st.t.notes.len() <= import_notes(st, ns, now, ids)->Ok_0.t.notes.len(),
        import_notes(st, ns, now, ids)->Ok_0.t.notes.subrange(0, st.t.notes.len() as int) == st.t.notes,
        forall|k: int| st.t.notes.len() <= k < import_notes(st, ns, now, ids)->Ok_0.t.notes.len() ==>
            ids.contains((#[trigger] import_notes(st, ns, now, ids)->Ok_0.t.notes[k]).id)
            || exists|i: int| 0 <= i < ns.len() && ns[i].id == import_notes(st, ns, now, ids)->Ok_0.t.notes[k].id,
    decreases ns.len(),
{
    if ns.len() == 0 {
        assert(st.t.notes.subrange(0, st.t.notes.len() as int) == st.t.notes);
    } else {
        let d = ns.drop_last();
        let x = ns.last();
        assert(ns.len() - 1 < ns.len());
        assert(x == ns[ns.len() - 1]);
        assert(tag_count(ns) == tag_count(d) + x.tags.len());
        assert forall|i: int, j: int| 0 <= i < j < d.len() implies d[i].id != d[j].id by {
            assert(d[i] == ns[i] && d[j] == ns[j]);
        }
        assert forall|i: int, k: int| 0 <= i < ids.len() && 0 <= k < d.len() implies ids[i] != d[k].id by {
            assert(d[k] == ns[k]);
        }
        lemma_import_counts(st, d, now, ids);
        let s1 = import_notes(st, d, now, ids)->Ok_0;
        let s2 = import_notes(st, ns, now, ids)->Ok_0;
        assert(import_note(s1, x, now, ids) == Ok::<ImportStateV, AppErrorV>(s2));
        // The last note's id is neither an earlier note's id nor a fresh id.
        assert forall|k: int| st.t.notes.len() <= k < s1.t.notes.len() implies (#[trigger] s1.t.notes[k]).id != x.id by {
            if ids.contains(s1.t.notes[k].id) {
                let j = choose|j: int| 0 <= j < ids.len() && ids[j] == s1.t.notes[k].id;
                assert(ids[j] != ns[ns.len() - 1].id);
            } else {
                let i = choose|i: int| 0 <= i < d.len() && d[i].id == s1.t.notes[k].id;
                assert(d[i] == ns[i]);
            }
        }
        lemma_pos_extended(st.t.notes, s1.t.notes, x.id);
        assert(note_pos(s1.t, x.id) == note_pos(st.t, x.id));
        let pos = note_pos(st.t, x.id);
        if pos >= 0 {
            lemma_first_index(st.t.notes, |r: NoteRowV| r.id == x.id);
            assert(s1.t.notes.subrange(0, st.t.notes.len() as int)[pos] == s1.t.notes[pos]);
        }
        assert(id_stored(s1.t, x) == id_stored(st.t, x));
        assert(same_stored(s1.t, x) == same_stored(st.t, x));
        if same_stored(s1.t, x) {
            assert(s2 == ImportStateV { skipped: s1.skipped + 1, ..s1 });
        } else {
            let copy = id_stored(s1.t, x);
            let id = if copy {
                ids[s1.used as int]
            } else {
                x.id
            };
            let st1 = if copy {
                ImportStateV { used: s1.used + 1, copied: s1.copied + 1, ..s1 }
            } else {
                ImportStateV { created: s1.created + 1, ..s1 }
            };
            let category = match x.category_id {
                Some(c) => mapped(s1.map, c),
                None => None,
            };
            let st2 = ImportStateV {
                t: TablesV { notes: s1.t.notes.push(imported_row(id, x, category, now)), ..s1.t },
                ..st1
            };
            lemma_link_tags_keeps(st2, id, x.tags, now, ids);
            let s3 = link_tags(st2, id, x.tags, now, ids)->Ok_0;
            assert(s2 == ImportStateV { t: reindex(s3.t, id), ..s3 });
            lemma_reindex_keeps_notes(s3.t, id);
            assert(s2.t.notes == s1.t.notes.push(imported_row(id, x, category, now)));
            assert(s2.t.notes.subrange(0, st.t.notes.len() as int) =~= st.t.notes) by {
                assert forall|k: int| 0 <= k < st.t.notes.len() implies s2.t.notes[k] == st.t.notes[k] by {
                    assert(s2.t.notes[k] == s1.t.notes[k]);
                    assert(s1.t.notes.subrange(0, st.t.notes.len() as int)[k] == s1.t.notes[k]);
                }
            }
            assert forall|k: int| st.t.notes.len() <= k < s2.t.notes.len() implies
                ids.contains((#[trigger] s2.t.notes[k]).id)
                || exists|i: int| 0 <= i < ns.len() && ns[i].id == s2.t.notes[k].id by {
                if k < s1.t.notes.len() {
                    assert(s2.t.notes[k] == s1.t.notes[k]);
                    if !ids.contains(s1.t.notes[k].id) {
                        let i = choose|i: int| 0 <= i < d.len() && d[i].id == s1.t.notes[k].id;
                        assert(ns[i] == d[i]);
                    }
                } else if copy {
                    assert(ids[s1.used as int] == s2.t.notes[k].id);
                } else {
                    assert(ns[ns.len() - 1].id == s2.t.notes[k].id);
                }
            }
        }
        if same_stored(s1.t, x) {
            assert forall|k: int| st.t.notes.len() <= k < s2.t.notes.len() implies
                ids.contains((#[trigger] s2.t.notes[k]).id)
                || exists|i: int| 0 <= i < ns.len() && ns[i].id == s2.t.notes[k].id by {
                if !ids.contains(s1.t.notes[k].id) {
                    let i = choose|i: int| 0 <= i < d.len() && d[i].id == s1.t.notes[k].id;
                    assert(ns[i] == d[i]);
                }
            }
        }
    }
}

/// When the envelope's notes have distinct ids and no fresh id is one of them, a successful
/// import creates, skips and copies exactly the notes that its preview counted.
pub proof fn law_preview_predicts_import(t: TablesV, e: ExportEnvelopeV, now: Seq<char>, ids: Seq<Seq<char>>)
    requires
        ids.len() >= ids_needed(e),
        forall|i: int, j: int| 0 <= i < j < e.notes.len() ==> e.notes[i].id != e.notes[j].id,
        forall|i: int, k: int| 0 <= i < ids.len() && 0 <= k < e.notes.len() ==> ids[i] != e.notes[k].id,
        import_spec(t, e, now, ids).1 is Ok,
    ensures
        preview_spec(t, e) is Ok,
        preview_spec(t, e)->Ok_0.notes_to_create == import_spec(t, e, now, ids).1->Ok_0.created,
        preview_spec(t, e)->Ok_0.duplicates_to_skip == import_spec(t, e, now, ids).1->Ok_0.skipped,
        preview_spec(t, e)->Ok_0.conflicts_as_copies == import_spec(t, e, now, ids).1->Ok_0.copied_conflicts,
{
    let start = ImportStateV { t, map: seq![], used: 0, created: 0, skipped: 0, copied: 0 };
    let m = merge_categories(start, e.categories, now, ids);
    lemma_merge_keeps_notes(start, e.categories, now, ids);
    lemma_merge_used(start, e.categories, now, ids);
    assert(m.t.notes == t.notes);
    lemma_import_counts(m, e.notes, now, ids);
    assert(keep(e.notes, |n: NoteV| !id_stored(m.t, n)) == keep(e.notes, |n: NoteV| !id_stored(t, n))) by {
        assert((|n: NoteV| !id_stored(m.t, n)) == (|n: NoteV| !id_stored(t, n)));
    }
    assert((|n: NoteV| same_stored(m.t, n)) == (|n: NoteV| same_stored(t, n)));
    assert((|n: NoteV| id_stored(m.t, n) && !same_stored(m.t, n)) == (|n: NoteV| id_stored(t, n) && !same_stored(t, n)));
}


/// Reindexing notes in turn leaves the notes as they are.
proof fn lemma_reindex_all_keeps_notes(t: TablesV, ids: Seq<Seq<char>>)
    ensures
        reindex_all(t, ids).notes == t.notes,
        reindex_all(t, ids).categories == t.categories,
        reindex_all(t, ids).tags == t.tags,
        reindex_all(t, ids).note_tags == t.note_tags,
    decreases ids.len(),
{
    if ids.len() > 0 {
        lemma_reindex_all_keeps_notes(t, ids.drop_last());
        lemma_reindex_keeps_notes(reindex_all(t, ids.drop_last()), ids.last());
    }
}

/// Deleting a category removes it, takes every note out of it and changes nothing else of
/// any note.
pub proof fn law_delete_category_clears(t: TablesV, id: Seq<char>)
    ensures
        delete_category_spec(t, id).notes.len() == t.notes.len(),
        forall|k: int| 0 <= k < t.notes.len() ==> #[trigger] delete_category_spec(t, id).notes[k] == if t.notes[k].category_id
            == Some(id) {
            NoteRowV { category_id: None, ..t.notes[k] }
        } else {
            t.notes[k]
        },
        forall|k: int| 0 <= k < delete_category_spec(t, id).categories.len()
            ==> (#[trigger] delete_category_spec(t, id).categories[k]).id != id,
{
    let ids = keep(t.notes, |r: NoteRowV| r.category_id == Some(id)).map_values(|r: NoteRowV| r.id);
    let t1 = TablesV {
        notes: t.notes.map_values(
            |r: NoteRowV| if r.category_id == Some(id) { NoteRowV { category_id: None, ..r } } else { r },
        ),
        categories: keep(t.categories, |c: CategoryRowV| c.id != id),
        ..t
    };
    lemma_reindex_all_keeps_notes(t1, ids);
    lemma_keep_satisfies(t.categories, |c: CategoryRowV| c.id != id);
}

/// Deleting a tag removes it; when it existed, no note stays linked to it.
pub proof fn law_delete_tag_unlinks(t: TablesV, id: Seq<char>)
    ensures
        forall|k: int| 0 <= k < delete_tag_spec(t, id).tags.len() ==> (#[trigger] delete_tag_spec(t, id).tags[k]).id != id,
        (exists|k: int| 0 <= k < t.tags.len() && t.tags[k].id == id) ==> forall|k: int|
            0 <= k < delete_tag_spec(t, id).note_tags.len() ==> (#[trigger] delete_tag_spec(t, id).note_tags[k]).tag_id != id,
        delete_tag_spec(t, id).notes == t.notes,
{
    let ids = keep(t.note_tags, |l: LinkRowV| l.tag_id == id).map_values(|l: LinkRowV| l.note_id);
    let gone = exists|k: int| 0 <= k < t.tags.len() && t.tags[k].id == id;
    let t1 = TablesV { tags: keep(t.tags, |g: TagRowV| g.id != id), ..t };
    let t2 = if gone {
        TablesV { note_tags: keep(t1.note_tags, |l: LinkRowV| l.tag_id != id), ..t1 }
    } else {
        t1
    };
    lemma_reindex_all_keeps_notes(t2, ids);
    lemma_keep_satisfies(t.tags, |g: TagRowV| g.id != id);
    lemma_keep_satisfies(t1.note_tags, |l: LinkRowV| l.tag_id != id);
}


/// Filtering a sequence without repeats leaves none.
proof fn lemma_keep_no_dup<A>(s: Seq<A>, p: spec_fn(A) -> bool)
    requires
        s.no_duplicates(),
    ensures
        keep(s, p).no_duplicates(),
    decreases s.len(),
{
    if s.len() > 0 {
        let d = s.drop_last();
        assert forall|i: int, j: int| 0 <= i < d.len() && 0 <= j < d.len() && i != j implies d[i] != d[j] by {
            assert(d[i] == s[i] && d[j] == s[j]);
        }
        lemma_keep_no_dup(d, p);
        let r = keep(d, p);
        if p(s.last()) {
            assert forall|k: int| 0 <= k < r.len() implies r[k] != s.last() by {
                lemma_keep_contains(d, p, r[k]);
                assert(r.contains(r[k]));
                let m = choose|m: int| 0 <= m < d.len() && d[m] == r[k];
                assert(s[m] == d[m]);
                assert(s[m] != s[s.len() - 1]);
            }
            let rr = r.push(s.last());
            assert forall|i: int, j: int| 0 <= i < rr.len() && 0 <= j < rr.len() && i != j implies rr[i] != rr[j] by {
                if i < r.len() && j < r.len() {
                    assert(rr[i] == r[i] && rr[j] == r[j]);
                } else if i < r.len() {
                    assert(rr[i] == r[i]);
                } else {
                    assert(rr[j] == r[j]);
                }
            }
        }
    }
}

/// `distinct` leaves no repeats.
proof fn lemma_distinct_no_dup<A>(s: Seq<A>)
    ensures
        distinct(s).no_duplicates(),
    decreases s.len(),
{
    if s.len() > 0 {
        lemma_distinct_no_dup(s.drop_last());
        let r = distinct(s.drop_last());
        if !r.contains(s.last()) {
            let rr = r.push(s.last());
            assert forall|i: int, j: int| 0 <= i < rr.len() && 0 <= j < rr.len() && i != j implies rr[i] != rr[j] by {
                if i < r.len() && j < r.len() {
                    assert(rr[i] == r[i] && rr[j] == r[j]);
                } else if i < r.len() {
                    assert(rr[i] == r[i]);
                    assert(r.contains(r[i]));
                } else {
                    assert(rr[j] == r[j]);
                    assert(r.contains(r[j]));
                }
            }
        }
    }
}

/// Between sequences without repeats, the shared count is the size of the intersection of
/// their sets.
proof fn lemma_shared_is_intersection(x: Seq<Seq<char>>, y: Seq<Seq<char>>)
    requires
        x.no_duplicates(),
    ensures
        shared(x, y) == x.to_set().intersect(y.to_set()).len(),
{
    let p = |t: Seq<char>| y.contains(t);
    let k = keep(x, p);
    lemma_keep_no_dup(x, p);
    k.unique_seq_to_set();
    assert forall|t: Seq<char>| k.to_set().contains(t) <==> x.to_set().intersect(y.to_set()).contains(t) by {
        lemma_keep_contains(x, p, t);
    }
    assert(k.to_set() =~= x.to_set().intersect(y.to_set()));
}

/// A title has at least one trigram.
proof fn lemma_trigrams_nonempty(s: Seq<char>)
    ensures
        distinct(trigrams(s)).len() >= 1,
{
    let t = trigrams(s);
    assert(t.len() >= 1);
    lemma_distinct_contains(t, t[0]);
    assert(t.contains(t[0]));
}

/// Title similarity is a fraction between 0 and 1 with a positive denominator, the same
/// whichever title comes first, and 1 for titles with the same lowercased letters and digits.
pub proof fn law_similarity_range_symmetry(a: Seq<char>, b: Seq<char>)
    ensures
        ({
            let x = distinct(trigrams(a));
            let y = distinct(trigrams(b));
            let i = shared(x, y);
            &&& i <= x.len() + y.len() - i
            &&& x.len() + y.len() - i >= 1
        }),
        similarity_spec(a, b) == similarity_spec(b, a),
        alnum_lower(a) == alnum_lower(b) ==> similarity_spec(a, b).numerator == similarity_spec(a, b).denominator,
{
    broadcast use vstd::seq_lib::seq_to_set_is_finite;
    let x = distinct(trigrams(a));
    let y = distinct(trigrams(b));
    lemma_distinct_no_dup(trigrams(a));
    lemma_distinct_no_dup(trigrams(b));
    lemma_shared_is_intersection(x, y);
    lemma_shared_is_intersection(y, x);
    assert(x.to_set().intersect(y.to_set()) =~= y.to_set().intersect(x.to_set()));
    x.unique_seq_to_set();
    y.unique_seq_to_set();
    vstd::set_lib::lemma_len_subset(x.to_set().intersect(y.to_set()), x.to_set());
    vstd::set_lib::lemma_len_subset(x.to_set().intersect(y.to_set()), y.to_set());
    lemma_trigrams_nonempty(a);
    lemma_trigrams_nonempty(b);
    if alnum_lower(a) == alnum_lower(b) {
        assert(trigrams(a) == trigrams(b));
        assert forall|k: int| 0 <= k < x.len() implies (|t: Seq<char>| x.contains(t))(#[trigger] x[k]) by {
            assert(x.contains(x[k]));
        }
        lemma_keep_all(x, |t: Seq<char>| x.contains(t));
    }
}


/// A save that stores the note (created or saved) answers with a completion time exactly
/// when the input marks the note as a completed todo.
pub proof fn law_completion_set_iff_completed(t: TablesV, i: SaveNoteInputV, now: Seq<char>, ids: Seq<Seq<char>>)
    requires
        save_spec(t, i, now, ids).1 matches Ok(resp) && resp.status != "conflict"@,
    ensures
        (save_spec(t, i, now, ids).1->Ok_0.note.completed_at is Some) <==> completes(i),
{
    let hash = crate::save::content_hash(i.title, i.content);
    let plan = crate::save::plan_upto(t.tags, i.tag_names, ids, now, i.tag_names.len());
    match i.id {
        Some(id) => {
            lemma_first_index(t.notes, |r: NoteRowV| r.id == id);
            let p = note_pos(t, id);
            if p >= 0 {
                let cur = t.notes[p];
                let completed = if completes(i) {
                    match cur.completed_at {
                        Some(c) => Some(c),
                        None => Some(now),
                    }
                } else {
                    None
                };
                let f = |r: NoteRowV| crate::save::rewritten(r, i, hash, now, completed);
                lemma_update_keeps_positions(t, id, f, id);
                let t1 = update_notes(t, id, f);
                assert(t1.notes[p] == f(cur));
                match plan {
                    Ok(pl) => {
                        let t2 = reindex(crate::save::with_links(t1, id, pl), id);
                        lemma_reindex_keeps_notes(crate::save::with_links(t1, id, pl), id);
                        assert(note_pos(t2, id) == p);
                    },
                    Err(_) => {},
                }
            }
        },
        None => {
            let id = ids[0];
            let t1 = TablesV { notes: t.notes.push(crate::save::fresh_row(id, i, hash, now)), ..t };
            match plan {
                Ok(pl) => {
                    let t2 = reindex(crate::save::with_links(t1, id, pl), id);
                    lemma_reindex_keeps_notes(crate::save::with_links(t1, id, pl), id);
                    if !exists|k: int| 0 <= k < t.notes.len() && t.notes[k].id == id {
                        assert forall|j: int| 0 <= j < t.notes.len() implies !(|r: NoteRowV| r.id == id)(#[trigger] t2.notes[j]) by {
                            assert(t2.notes[j] == t.notes[j]);
                        }
                        lemma_first_index_is(t2.notes, |r: NoteRowV| r.id == id, t.notes.len() as int);
                    }
                },
                Err(_) => {},
            }
        },
    }
}

/// An import that fails leaves the store as it was: the import is all or nothing.
pub proof fn law_import_error_keeps_store(t: TablesV, e: ExportEnvelopeV, now: Seq<char>, ids: Seq<Seq<char>>)
    ensures
        import_spec(t, e, now, ids).1 is Err ==> import_spec(t, e, now, ids).0 == t,
{
}


/// Every category is stored under the normalized form of its name (as `create_category`
/// and imports store it).
pub open spec fn categories_normalized(t: TablesV) -> bool {
    forall|k: int| 0 <= k < t.categories.len() ==> (#[trigger] t.categories[k]).normalized_name == normalize(
        t.categories[k].name,
    )
}

/// A category with this name's normalized form is stored.
pub open spec fn name_stored(t: TablesV, name: Seq<char>) -> bool {
    exists|j: int| 0 <= j < t.categories.len() && #[trigger] t.categories[j].normalized_name == normalize(name)
}

/// Merging categories whose normalized names are all stored changes no table.
proof fn lemma_merge_known(st: ImportStateV, cs: Seq<CategoryV>, now: Seq<char>, ids: Seq<Seq<char>>)
    requires
        forall|k: int| 0 <= k < cs.len() ==> name_stored(st.t, #[trigger] cs[k].name),
    ensures
        merge_categories(st, cs, now, ids).t == st.t,
        merge_categories(st, cs, now, ids).created == st.created,
        merge_categories(st, cs, now, ids).skipped == st.skipped,
        merge_categories(st, cs, now, ids).copied == st.copied,
    decreases cs.len(),
{
    if cs.len() > 0 {
        assert forall|k: int| 0 <= k < cs.drop_last().len() implies name_stored(st.t, #[trigger] cs.drop_last()[k].name) by {
            assert(cs.drop_last()[k] == cs[k]);
            assert(name_stored(st.t, cs[k].name));
        }
        lemma_merge_known(st, cs.drop_last(), now, ids);
        let m = merge_categories(st, cs.drop_last(), now, ids);
        let c = cs[cs.len() - 1];
        let norm = normalize(c.name);
        assert(name_stored(st.t, c.name));
        let j = choose|j: int| 0 <= j < st.t.categories.len() && st.t.categories[j].normalized_name == norm;
        let p = |r: CategoryRowV| r.normalized_name == norm;
        lemma_first_index(m.t.categories, p);
        assert(p(m.t.categories[j]));
    }
}

/// Importing a store's own export into it, when every category is stored under its
/// normalized name and no two notes share an id, leaves the whole store as it was and
/// skips every note.
pub proof fn law_export_import_keeps_store(
    t: TablesV,
    app_version: Seq<char>,
    exported_at: Seq<char>,
    now: Seq<char>,
    ids: Seq<Seq<char>>,
)
    requires
        note_ids_unique(t),
        categories_normalized(t),
    ensures
        import_spec(t, envelope_spec(t, app_version, exported_at), now, ids).0 == t,
        import_spec(t, envelope_spec(t, app_version, exported_at), now, ids).1 == Ok::<ImportResult, AppErrorV>(
            ImportResult { created: 0, skipped: exported_notes(t).len() as usize, copied_conflicts: 0 },
        ),
{
    law_export_import_skips_all(t, app_version, exported_at, now, ids);
    let e = envelope_spec(t, app_version, exported_at);
    let lt = |a: CategoryRowV, b: CategoryRowV| category_order(a, b);
    let sorted = isort(t.categories, lt);
    lemma_isort(t.categories, lt);
    assert forall|k: int| 0 <= k < e.categories.len() implies name_stored(t, #[trigger] e.categories[k].name) by {
        assert(e.categories[k] == category_of_row(sorted[k]));
        assert(sorted.contains(sorted[k]));
        assert(t.categories.contains(sorted[k]));
        let j = choose|j: int| 0 <= j < t.categories.len() && t.categories[j] == sorted[k];
        assert(t.categories[j].normalized_name == normalize(t.categories[j].name));
    }
    let start = ImportStateV { t, map: seq![], used: 0, created: 0, skipped: 0, copied: 0 };
    lemma_merge_known(start, e.categories, now, ids);
    let m = merge_categories(start, e.categories, now, ids);
    let ns = exported_notes(t);
    let f = no_flags(t.notes.len());
    let a = list_spec(t, "all"@, 100_000, f);
    let b = list_spec(t, "archive"@, 100_000, f);
    let c = list_spec(t, "trash"@, 100_000, f);
    assert(ns == a + b + c);
    assert forall|k: int| 0 <= k < ns.len() implies same_stored(m.t, #[trigger] ns[k]) by {
        if k < a.len() {
            lemma_listed_stored(t, "all"@, 100_000, f, k);
        } else if k < a.len() + b.len() {
            lemma_listed_stored(t, "archive"@, 100_000, f, k - a.len());
        } else {
            lemma_listed_stored(t, "trash"@, 100_000, f, k - a.len() - b.len());
        }
    }
    lemma_import_all_same(m, ns, now, ids);
}


/// A stored row holds an envelope note as an import creates it: the note's own fields,
/// source `import` and revision 0.
pub open spec fn imported_as(r: NoteRowV, n: NoteV) -> bool {
    &&& r.id == n.id
    &&& r.title == n.title
    &&& r.content == n.content
    &&& r.source == "import"@
    &&& r.revision == 0
    &&& r.deleted_at == n.deleted_at
    &&& r.archived_at == n.archived_at
    &&& r.is_favorite == n.is_favorite
    &&& r.is_todo == n.is_todo
    &&& r.todo_status == n.todo_status
    &&& r.priority == n.priority
    &&& r.due_date == n.due_date
    &&& r.completed_at == n.completed_at
    &&& r.created_at == n.created_at
}

/// Where each note of the envelope stands after importing them: a note whose id was not
/// stored is found under its id as imported; a note whose id was stored is found where it
/// was.
pub proof fn lemma_import_rows(st: ImportStateV, ns: Seq<NoteV>, now: Seq<char>, ids: Seq<Seq<char>>)
    requires
        import_notes(st, ns, now, ids) is Ok,
        st.used + ns.len() + tag_count(ns) <= ids.len(),
        forall|i: int, j: int| 0 <= i < j < ns.len() ==> ns[i].id != ns[j].id,
        forall|i: int, k: int| 0 <= i < ids.len() && 0 <= k < ns.len() ==> ids[i] != ns[k].id,
    ensures
        forall|k: int| 0 <= k < ns.len() && !id_stored(st.t, #[trigger] ns[k]) ==> {
            let fin = import_notes(st, ns, now, ids)->Ok_0.t;
            note_pos(fin, ns[k].id) >= 0 && imported_as(fin.notes[note_pos(fin, ns[k].id)], ns[k])
        },
        forall|k: int| 0 <= k < ns.len() && id_stored(st.t, #[trigger] ns[k]) ==> note_pos(
            import_notes(st, ns, now, ids)->Ok_0.t,
            ns[k].id,
        ) == note_pos(st.t, ns[k].id),
    decreases ns.len(),
{
    if ns.len() > 0 {
        let d = ns.drop_last();
        let x = ns.last();
        let last = ns.len() - 1;
        assert(x == ns[last]);
        assert(tag_count(ns) == tag_count(d) + x.tags.len());
        assert forall|i: int, j: int| 0 <= i < j < d.len() implies d[i].id != d[j].id by {
            assert(d[i] == ns[i] && d[j] == ns[j]);
        }
        assert forall|i: int, k: int| 0 <= i < ids.len() && 0 <= k < d.len() implies ids[i] != d[k].id by {
            assert(d[k] == ns[k]);
        }
        lemma_import_counts(st, d, now, ids);
        lemma_import_rows(st, d, now, ids);
        let s1 = import_notes(st, d, now, ids)->Ok_0;
        let s2 = import_notes(st, ns, now, ids)->Ok_0;
        assert(import_note(s1, x, now, ids) == Ok::<ImportStateV, AppErrorV>(s2));
        assert forall|k: int| st.t.notes.len() <= k < s1.t.notes.len() implies (#[trigger] s1.t.notes[k]).id != x.id by {
            if ids.contains(s1.t.notes[k].id) {
                let j = choose|j: int| 0 <= j < ids.len() && ids[j] == s1.t.notes[k].id;
                assert(ids[j] != ns[last].id);
            } else {
                let i = choose|i: int| 0 <= i < d.len() && d[i].id == s1.t.notes[k].id;
                assert(d[i] == ns[i]);
            }
        }
        lemma_pos_extended(st.t.notes, s1.t.notes, x.id);
        let pos = note_pos(st.t, x.id);
        if pos >= 0 {
            lemma_first_index(st.t.notes, |r: NoteRowV| r.id == x.id);
            assert(s1.t.notes.subrange(0, st.t.notes.len() as int)[pos] == s1.t.notes[pos]);
        }
        assert(id_stored(s1.t, x) == id_stored(st.t, x));
        assert(same_stored(s1.t, x) == same_stored(st.t, x));
        // The rows after s1's: none, or one under the note's id or a fresh id.
        let new_id = if id_stored(s1.t, x) {
            ids[s1.used as int]
        } else {
            x.id
        };
        let grew = !same_stored(s1.t, x);
        if !grew {
            assert(s2.t == s1.t);
        } else {
            let copy = id_stored(s1.t, x);
            let st1 = if copy {
                ImportStateV { used: s1.used + 1, copied: s1.copied + 1, ..s1 }
            } else {
                ImportStateV { created: s1.created + 1, ..s1 }
            };
            let category = match x.category_id {
                Some(c) => mapped(s1.map, c),
                None => None,
            };
            let row = imported_row(new_id, x, category, now);
            let st2 = ImportStateV { t: TablesV { notes: s1.t.notes.push(row), ..s1.t }, ..st1 };
            lemma_link_tags_keeps(st2, new_id, x.tags, now, ids);
            let s3 = link_tags(st2, new_id, x.tags, now, ids)->Ok_0;
            lemma_reindex_keeps_notes(s3.t, new_id);
            assert(s2.t.notes == s1.t.notes.push(row));
            if !copy {
                lemma_first_index(s1.t.notes, |r: NoteRowV| r.id == x.id);
                assert forall|j: int| 0 <= j < s1.t.notes.len() implies !(|r: NoteRowV| r.id == x.id)(#[trigger] s2.t.notes[j]) by {
                    assert(s2.t.notes[j] == s1.t.notes[j]);
                }
                lemma_first_index_is(s2.t.notes, |r: NoteRowV| r.id == x.id, s1.t.notes.len() as int);
                reveal_strlit("import");
                assert(imported_as(s2.t.notes[s1.t.notes.len() as int], x));
            }
        }
        // Every earlier note keeps its place: the new row's id is not its id.
        assert forall|k: int| 0 <= k < d.len() implies note_pos(s2.t, d[k].id) == note_pos(s1.t, d[k].id) && (note_pos(
            s1.t,
            d[k].id,
        ) >= 0 ==> s2.t.notes[note_pos(s1.t, d[k].id)] == s1.t.notes[note_pos(s1.t, d[k].id)]) by {
            assert(d[k] == ns[k]);
            assert(ns[k].id != ns[last].id);
            if grew && id_stored(s1.t, x) {
                assert(ids[s1.used as int] != ns[k].id);
            }
            assert(s2.t.notes.subrange(0, s1.t.notes.len() as int) =~= s1.t.notes) by {
                if grew {
                    assert forall|j: int| 0 <= j < s1.t.notes.len() implies s2.t.notes.subrange(0, s1.t.notes.len() as int)[j]
                        == s1.t.notes[j] by {
                        assert(s2.t.notes[j] == s1.t.notes[j]);
                    }
                }
            }
            lemma_pos_extended(s1.t.notes, s2.t.notes, d[k].id);
            if note_pos(s1.t, d[k].id) >= 0 {
                lemma_first_index(s1.t.notes, |r: NoteRowV| r.id == d[k].id);
                assert(s2.t.notes.subrange(0, s1.t.notes.len() as int)[note_pos(s1.t, d[k].id)] == s2.t.notes[note_pos(
                    s1.t,
                    d[k].id,
                )]);
            }
        }
        assert forall|k: int| 0 <= k < ns.len() && !id_stored(st.t, #[trigger] ns[k]) implies note_pos(s2.t, ns[k].id) >= 0
            && imported_as(s2.t.notes[note_pos(s2.t, ns[k].id)], ns[k]) by {
            if k < last {
                assert(ns[k] == d[k]);
            }
        }
        assert forall|k: int| 0 <= k < ns.len() && id_stored(st.t, #[trigger] ns[k]) implies note_pos(s2.t, ns[k].id)
            == note_pos(st.t, ns[k].id) by {
            if k < last {
                assert(ns[k] == d[k]);
            } else if grew {
                assert(ids[s1.used as int] != ns[last].id);
                assert(s2.t.notes.subrange(0, s1.t.notes.len() as int) =~= s1.t.notes) by {
                    assert forall|j: int| 0 <= j < s1.t.notes.len() implies s2.t.notes.subrange(0, s1.t.notes.len() as int)[j]
                        == s1.t.notes[j] by {
                        assert(s2.t.notes[j] == s1.t.notes[j]);
                    }
                }
                lemma_pos_extended(s1.t.notes, s2.t.notes, x.id);
            }
        }
    }
}

/// After a successful import of notes with distinct ids, none of them a fresh id: each note
/// whose id was not stored reads back under its id with its title, content, trash and
/// archive state, source `import` and revision 0; each note whose id was stored keeps its
/// row where it was, unchanged.
pub proof fn law_import_reads_back(t: TablesV, e: ExportEnvelopeV, now: Seq<char>, ids: Seq<Seq<char>>)
    requires
        ids.len() >= ids_needed(e),
        forall|i: int, j: int| 0 <= i < j < e.notes.len() ==> e.notes[i].id != e.notes[j].id,
        forall|i: int, k: int| 0 <= i < ids.len() && 0 <= k < e.notes.len() ==> ids[i] != e.notes[k].id,
        import_spec(t, e, now, ids).1 is Ok,
    ensures
        forall|k: int| 0 <= k < e.notes.len() && !id_stored(t, #[trigger] e.notes[k]) ==> {
            let fin = import_spec(t, e, now, ids).0;
            note_pos(fin, e.notes[k].id) >= 0 && imported_as(fin.notes[note_pos(fin, e.notes[k].id)], e.notes[k])
        },
        forall|k: int| 0 <= k < e.notes.len() && id_stored(t, #[trigger] e.notes[k]) ==> {
            let fin = import_spec(t, e, now, ids).0;
            note_pos(fin, e.notes[k].id) == note_pos(t, e.notes[k].id) && fin.notes[note_pos(t, e.notes[k].id)]
                == t.notes[note_pos(t, e.notes[k].id)]
        },
{
    let start = ImportStateV { t, map: seq![], used: 0, created: 0, skipped: 0, copied: 0 };
    let m = merge_categories(start, e.categories, now, ids);
    lemma_merge_keeps_notes(start, e.categories, now, ids);
    lemma_merge_used(start, e.categories, now, ids);
    assert(m.t.notes == t.notes);
    lemma_import_counts(m, e.notes, now, ids);
    lemma_import_rows(m, e.notes, now, ids);
    let fin = import_notes(m, e.notes, now, ids)->Ok_0.t;
    assert forall|k: int| 0 <= k < e.notes.len() && !id_stored(t, #[trigger] e.notes[k]) implies note_pos(fin, e.notes[k].id)
        >= 0 && imported_as(fin.notes[note_pos(fin, e.notes[k].id)], e.notes[k]) by {
        assert(id_stored(m.t, e.notes[k]) == id_stored(t, e.notes[k]));
    }
    assert forall|k: int| 0 <= k < e.notes.len() && id_stored(t, #[trigger] e.notes[k]) implies note_pos(fin, e.notes[k].id)
        == note_pos(t, e.notes[k].id) && fin.notes[note_pos(t, e.notes[k].id)] == t.notes[note_pos(t, e.notes[k].id)] by {
        assert(id_stored(m.t, e.notes[k]) == id_stored(t, e.notes[k]));
        let p = note_pos(t, e.notes[k].id);
        lemma_first_index(t.notes, |r: NoteRowV| r.id == e.notes[k].id);
        assert(fin.notes.subrange(0, t.notes.len() as int)[p] == fin.notes[p]);
    }
}


/// Some row of `rows` is the note's proposal with this fingerprint.
pub open spec fn has_row(rows: Seq<SuggestionRowV>, note_id: Seq<char>, fp: Seq<char>) -> bool {
    exists|k: int| 0 <= k < rows.len() && #[trigger] rows[k].note_id == note_id && rows[k].fingerprint == fp
}

/// The note has a decided (accepted or dismissed) proposal with this fingerprint.
pub open spec fn decided_fp(rows: Seq<SuggestionRowV>, note_id: Seq<char>, fp: Seq<char>) -> bool {
    exists|k: int|
        0 <= k < rows.len() && #[trigger] rows[k].note_id == note_id && rows[k].fingerprint == fp && rows[k].status
            != "pending"@
}

/// The fingerprints of a list of proposals.
pub open spec fn fingerprints(ss: Seq<SuggestionV>) -> Seq<Seq<char>> {
    ss.map_values(|s: SuggestionV| fingerprint(s))
}

/// While writing proposals: the note's rows for fingerprints not yet written are decided,
/// and such a row is there exactly when `base` had a decided one.
pub open spec fn upsert_state(
    r: Seq<SuggestionRowV>,
    base: Seq<SuggestionRowV>,
    note_id: Seq<char>,
    done: Seq<Seq<char>>,
) -> bool {
    &&& forall|k: int|
        0 <= k < r.len() && #[trigger] r[k].note_id == note_id && !done.contains(r[k].fingerprint) ==> r[k].status
            != "pending"@
    &&& forall|fp: Seq<char>| !done.contains(fp) ==> (#[trigger] has_row(r, note_id, fp) <==> decided_fp(base, note_id, fp))
}


/// Replacing an element that the filter drops by another it drops leaves the filter's
/// result as it was.
proof fn lemma_keep_update_outside<A>(s: Seq<A>, i: int, v: A, p: spec_fn(A) -> bool)
    requires
        0 <= i < s.len(),
        !p(s[i]),
        !p(v),
    ensures
        keep(s.update(i, v), p) == keep(s, p),
    decreases s.len(),
{
    let u = s.update(i, v);
    if i == s.len() - 1 {
        assert(u.drop_last() == s.drop_last());
    } else {
        assert(u.drop_last() == s.drop_last().update(i, v));
        lemma_keep_update_outside(s.drop_last(), i, v, p);
        assert(u.last() == s.last());
    }
}

/// The pending proposals a note has in a table of proposals.
pub open spec fn pending_of(rows: Seq<SuggestionRowV>, note_id: Seq<char>) -> Seq<SuggestionV> {
    keep(rows, |x: SuggestionRowV| x.note_id == note_id && x.status == "pending"@).map_values(
        |x: SuggestionRowV| x.payload,
    )
}

proof fn lemma_upsert_all_offers(
    rows: Seq<SuggestionRowV>,
    base: Seq<SuggestionRowV>,
    note_id: Seq<char>,
    ss: Seq<SuggestionV>,
    now: Seq<char>,
    ok: bool,
)
    requires
        upsert_all(rows, note_id, ss, now, ok) is Ok,
        fingerprints(ss).no_duplicates(),
        upsert_state(rows, base, note_id, seq![]),
        pending_of(rows, note_id) == Seq::<SuggestionV>::empty(),
    ensures
        upsert_all(rows, note_id, ss, now, ok)->Ok_0.1 == keep(ss, |s: SuggestionV| !decided_fp(base, note_id, fingerprint(s))),
        pending_of(upsert_all(rows, note_id, ss, now, ok)->Ok_0.0, note_id) == upsert_all(rows, note_id, ss, now, ok)->Ok_0.1,
        upsert_state(upsert_all(rows, note_id, ss, now, ok)->Ok_0.0, base, note_id, fingerprints(ss)),
    decreases ss.len(),
{
    let p = |s: SuggestionV| !decided_fp(base, note_id, fingerprint(s));
    if ss.len() == 0 {
        assert(fingerprints(ss) =~= seq![]);
    } else {
        let d = ss.drop_last();
        let x = ss.last();
        let last = ss.len() - 1;
        let fx = fingerprint(x);
        assert(fingerprints(d) =~= fingerprints(ss).drop_last());
        assert(fingerprints(ss) =~= fingerprints(d).push(fx));
        assert forall|i: int, j: int| 0 <= i < fingerprints(d).len() && 0 <= j < fingerprints(d).len() && i != j implies fingerprints(d)[i] != fingerprints(d)[j] by {
            assert(fingerprints(d)[i] == fingerprints(ss)[i] && fingerprints(d)[j] == fingerprints(ss)[j]);
        }
        lemma_upsert_all_offers(rows, base, note_id, d, now, ok);
        let (r1, pending1) = upsert_all(rows, note_id, d, now, ok)->Ok_0;
        let done = fingerprints(d);
        assert(!done.contains(fx)) by {
            if done.contains(fx) {
                let j = choose|j: int| 0 <= j < done.len() && done[j] == fx;
                assert(fingerprints(ss)[j] == fingerprints(ss)[last]);
            }
        }
        let done2 = fingerprints(ss);
        assert forall|y: Seq<char>| done2.contains(y) <==> done.contains(y) || y == fx by {
            lemma_push_contains(done, fx, y);
        }
        let pred = |r: SuggestionRowV| r.note_id == note_id && r.fingerprint == fx;
        lemma_first_index(r1, pred);
        let i = row_for(r1, note_id, fx);
        assert(has_row(r1, note_id, fx) <==> i >= 0) by {
            if has_row(r1, note_id, fx) {
                let k = choose|k: int| 0 <= k < r1.len() && #[trigger] r1[k].note_id == note_id && r1[k].fingerprint == fx;
                assert(pred(r1[k]));
            }
            if i >= 0 {
                assert(r1[i].note_id == note_id);
            }
        }
        let res = upsert_one(r1, note_id, x, now, ok);
        assert(res is Ok);
        let (r2, q) = res->Ok_0;
        if i >= 0 {
            assert(r1[i].status != "pending"@);
            let old = r1[i];
            let updated = SuggestionRowV { payload: x, confidence: x.confidence, updated_at: now, ..old };
            assert(r2 == r1.update(i, updated));
            assert(q is None);
            lemma_keep_update_outside(r1, i, updated, |x: SuggestionRowV| x.note_id == note_id && x.status == "pending"@);
            assert(!p(x));
            assert forall|fp: Seq<char>| has_row(r2, note_id, fp) <==> has_row(r1, note_id, fp) by {
                if has_row(r2, note_id, fp) {
                    let k = choose|k: int| 0 <= k < r2.len() && #[trigger] r2[k].note_id == note_id && r2[k].fingerprint == fp;
                    assert(r1[k].note_id == note_id && r1[k].fingerprint == fp);
                }
                if has_row(r1, note_id, fp) {
                    let k = choose|k: int| 0 <= k < r1.len() && #[trigger] r1[k].note_id == note_id && r1[k].fingerprint == fp;
                    assert(r2[k].note_id == note_id && r2[k].fingerprint == fp);
                }
            }
            assert forall|k: int|
                0 <= k < r2.len() && #[trigger] r2[k].note_id == note_id && !done2.contains(r2[k].fingerprint) implies r2[k].status
                    != "pending"@ by {
                assert(r1[k].note_id == note_id && r1[k].fingerprint == r2[k].fingerprint);
            }
        } else {
            assert(p(x));
            let row = r2.last();
            assert(r2 == r1.push(row));
            assert(row.fingerprint == fx && row.note_id == note_id);
            assert(q == Some(x));
            assert(row.status == "pending"@ && row.payload == x);
            assert(r2.drop_last() == r1);
            assert forall|fp: Seq<char>| fp != fx implies (has_row(r2, note_id, fp) <==> has_row(r1, note_id, fp)) by {
                if has_row(r2, note_id, fp) {
                    let k = choose|k: int| 0 <= k < r2.len() && #[trigger] r2[k].note_id == note_id && r2[k].fingerprint == fp;
                    if k < r1.len() {
                        assert(r1[k] == r2[k]);
                    }
                }
                if has_row(r1, note_id, fp) {
                    let k = choose|k: int| 0 <= k < r1.len() && #[trigger] r1[k].note_id == note_id && r1[k].fingerprint == fp;
                    assert(r2[k] == r1[k]);
                }
            }
            assert forall|k: int|
                0 <= k < r2.len() && #[trigger] r2[k].note_id == note_id && !done2.contains(r2[k].fingerprint) implies r2[k].status
                    != "pending"@ by {
                if k < r1.len() {
                    assert(r2[k] == r1[k]);
                }
            }
        }
        assert(ss.drop_last() == d);
    }
}


/// Inserting entities appends one row per entity, in order.
proof fn lemma_insert_entities_rows(
    rows: Seq<EntityRowV>,
    note_id: Seq<char>,
    es: Seq<EntityMatchV>,
    ids: Seq<Seq<char>>,
    now: Seq<char>,
    ok: bool,
)
    ensures
        insert_entities(rows, note_id, es, ids, now, ok) matches Ok(r) ==> r == rows + Seq::new(
            es.len(),
            |k: int| entity_row(note_id, es[k], ids[k], now),
        ),
    decreases es.len(),
{
    if es.len() > 0 {
        lemma_insert_entities_rows(rows, note_id, es.drop_last(), ids, now, ok);
        let f = |k: int| entity_row(note_id, es[k], ids[k], now);
        let g = |k: int| entity_row(note_id, es.drop_last()[k], ids[k], now);
        assert(Seq::new(es.len(), f) =~= Seq::new((es.len() - 1) as nat, g).push(entity_row(note_id, es.last(), ids[es.len() - 1], now)));
        assert(rows + Seq::new(es.len(), f) =~= (rows + Seq::new((es.len() - 1) as nat, g)).push(entity_row(note_id, es.last(), ids[es.len() - 1], now)));
    }
}

/// Persisting an analysis whose proposals have distinct fingerprints answers with exactly
/// the proposals whose fingerprint the note has not decided yet, in order and as proposed,
/// and with the analysis's entities; afterwards the note's pending proposals are exactly
/// those answered, and its stored entities exactly the analysis's, in order.
pub proof fn law_persist_offers_undecided(
    t: TablesV,
    note_id: Seq<char>,
    r: OrganizerResultV,
    now: Seq<char>,
    ids: Seq<Seq<char>>,
)
    requires
        fingerprints(r.suggestions).no_duplicates(),
        persist_spec(t, note_id, r, now, ids).1 is Ok,
    ensures
        persist_spec(t, note_id, r, now, ids).1->Ok_0.suggestions == keep(
            r.suggestions,
            |s: SuggestionV| !decided_fp(t.suggestions, note_id, fingerprint(s)),
        ),
        persist_spec(t, note_id, r, now, ids).1->Ok_0.entities == r.entities,
        pending_of(persist_spec(t, note_id, r, now, ids).0.suggestions, note_id) == persist_spec(
            t,
            note_id,
            r,
            now,
            ids,
        ).1->Ok_0.suggestions,
        persist_spec(t, note_id, r, now, ids).0.entities == keep(t.entities, |e: EntityRowV| e.note_id != note_id) + Seq::new(
            r.entities.len(),
            |k: int| entity_row(note_id, r.entities[k], ids[k], now),
        ),
{
    let pk = |s: SuggestionRowV| !(s.note_id == note_id && s.status == "pending"@);
    let kept = keep(t.suggestions, pk);
    lemma_keep_satisfies(t.suggestions, pk);
    assert forall|k: int|
        0 <= k < kept.len() && #[trigger] kept[k].note_id == note_id && !seq![].contains(kept[k].fingerprint) implies kept[k].status
            != "pending"@ by {
        assert(pk(kept[k]));
    }
    assert forall|fp: Seq<char>| !seq![].contains(fp) implies (#[trigger] has_row(kept, note_id, fp) <==> decided_fp(
        t.suggestions,
        note_id,
        fp,
    )) by {
        if has_row(kept, note_id, fp) {
            let k = choose|k: int| 0 <= k < kept.len() && #[trigger] kept[k].note_id == note_id && kept[k].fingerprint == fp;
            assert(pk(kept[k]));
            assert(kept.contains(kept[k]));
            lemma_keep_contains(t.suggestions, pk, kept[k]);
            let m = choose|m: int| 0 <= m < t.suggestions.len() && t.suggestions[m] == kept[k];
            assert(t.suggestions[m].note_id == note_id);
        }
        if decided_fp(t.suggestions, note_id, fp) {
            let m = choose|m: int|
                0 <= m < t.suggestions.len() && #[trigger] t.suggestions[m].note_id == note_id && t.suggestions[m].fingerprint
                    == fp && t.suggestions[m].status != "pending"@;
            assert(t.suggestions.contains(t.suggestions[m]));
            lemma_keep_contains(t.suggestions, pk, t.suggestions[m]);
            let k = choose|k: int| 0 <= k < kept.len() && kept[k] == t.suggestions[m];
            assert(kept[k].note_id == note_id);
        }
    }
    assert(upsert_state(kept, t.suggestions, note_id, seq![]));
    let pn = |x: SuggestionRowV| x.note_id == note_id && x.status == "pending"@;
    lemma_keep_satisfies(kept, pn);
    assert(keep(kept, pn).len() == 0) by {
        if keep(kept, pn).len() > 0 {
            let y = keep(kept, pn)[0];
            assert(pn(y));
            assert(keep(kept, pn).contains(y));
            lemma_keep_contains(kept, pn, y);
            let k = choose|k: int| 0 <= k < kept.len() && kept[k] == y;
            assert(pk(kept[k]));
        }
    }
    assert(pending_of(kept, note_id) =~= Seq::<SuggestionV>::empty());
    let kept_e = keep(t.entities, |e: EntityRowV| e.note_id != note_id);
    lemma_insert_entities_rows(kept_e, note_id, r.entities, ids, now, ok_of(t, note_id));
    lemma_upsert_all_offers(kept, t.suggestions, note_id, r.suggestions, now, ok_of(t, note_id));
}


/// Two tables hold note rows with the same ids, row by row.
pub open spec fn same_note_ids(a: TablesV, b: TablesV) -> bool {
    a.notes.len() == b.notes.len() && forall|k: int| 0 <= k < a.notes.len() ==> (#[trigger] a.notes[k]).id == b.notes[k].id
}

proof fn lemma_same_ids_unique(a: TablesV, b: TablesV)
    requires
        note_ids_unique(a),
        same_note_ids(a, b),
    ensures
        note_ids_unique(b),
{
    assert forall|i: int, j: int| 0 <= i < j < b.notes.len() implies b.notes[i].id != b.notes[j].id by {
        assert(a.notes[i].id == b.notes[i].id && a.notes[j].id == b.notes[j].id);
    }
}

/// Rewriting a note's rows, without changing their ids, keeps every id in place.
proof fn lemma_update_same_ids(t: TablesV, id: Seq<char>, f: spec_fn(NoteRowV) -> NoteRowV)
    requires
        forall|r: NoteRowV| #[trigger] f(r).id == r.id,
    ensures
        same_note_ids(t, update_notes(t, id, f)),
        same_note_ids(t, reindex(update_notes(t, id, f), id)),
{
    let u = update_notes(t, id, f);
    assert forall|k: int| 0 <= k < t.notes.len() implies (#[trigger] t.notes[k]).id == u.notes[k].id by {
        if t.notes[k].id == id {
            assert(u.notes[k] == f(t.notes[k]));
        }
    }
    lemma_reindex_keeps_notes(u, id);
}

/// A row appended under an id no row has keeps the ids unique.
proof fn lemma_push_unique(t: TablesV, row: NoteRowV)
    requires
        note_ids_unique(t),
        !exists|k: int| 0 <= k < t.notes.len() && t.notes[k].id == row.id,
    ensures
        note_ids_unique(TablesV { notes: t.notes.push(row), ..t }),
{
    let n = t.notes.push(row);
    assert forall|i: int, j: int| 0 <= i < j < n.len() implies n[i].id != n[j].id by {
        assert(n[i] == t.notes[i]);
        if j < t.notes.len() {
            assert(n[j] == t.notes[j]);
        } else {
            assert(t.notes[i].id != row.id);
        }
    }
}

/// Importing notes keeps the note ids unique: a note is only added under an id no row has.
proof fn lemma_import_unique(st: ImportStateV, ns: Seq<NoteV>, now: Seq<char>, ids: Seq<Seq<char>>)
    requires
        note_ids_unique(st.t),
        import_notes(st, ns, now, ids) is Ok,
    ensures
        note_ids_unique(import_notes(st, ns, now, ids)->Ok_0.t),
    decreases ns.len(),
{
    if ns.len() > 0 {
        lemma_import_unique(st, ns.drop_last(), now, ids);
        let s1 = import_notes(st, ns.drop_last(), now, ids)->Ok_0;
        let x = ns.last();
        let s2 = import_notes(st, ns, now, ids)->Ok_0;
        assert(import_note(s1, x, now, ids) == Ok::<ImportStateV, AppErrorV>(s2));
        if !same_stored(s1.t, x) {
            let copy = id_stored(s1.t, x);
            let id = if copy {
                ids[s1.used as int]
            } else {
                x.id
            };
            let st1 = if copy {
                ImportStateV { used: s1.used + 1, copied: s1.copied + 1, ..s1 }
            } else {
                ImportStateV { created: s1.created + 1, ..s1 }
            };
            let category = match x.category_id {
                Some(c) => mapped(s1.map, c),
                None => None,
            };
            let row = imported_row(id, x, category, now);
            let t1 = TablesV { notes: s1.t.notes.push(row), ..s1.t };
            let st2 = ImportStateV { t: t1, ..st1 };
            lemma_first_index(s1.t.notes, |r: NoteRowV| r.id == id);
            assert(!exists|k: int| 0 <= k < s1.t.notes.len() && s1.t.notes[k].id == id) by {
                if exists|k: int| 0 <= k < s1.t.notes.len() && s1.t.notes[k].id == id {
                    let k = choose|k: int| 0 <= k < s1.t.notes.len() && s1.t.notes[k].id == id;
                    assert((|r: NoteRowV| r.id == id)(s1.t.notes[k]));
                }
            }
            lemma_push_unique(s1.t, row);
            lemma_link_tags_keeps(st2, id, x.tags, now, ids);
            let s3 = link_tags(st2, id, x.tags, now, ids)->Ok_0;
            lemma_reindex_keeps_notes(s3.t, id);
        }
    }
}

/// Every operation that changes the store keeps the note ids unique (the notes table's
/// primary key): saving, trashing, restoring, archiving, deleting for good, deleting a
/// category or a tag, importing, persisting an analysis and recording a search.
pub proof fn law_note_ids_stay_unique(
    t: TablesV,
    i: SaveNoteInputV,
    id: Seq<char>,
    archived: bool,
    now: Seq<char>,
    ids: Seq<Seq<char>>,
    e: ExportEnvelopeV,
    r: OrganizerResultV,
    q: SearchQueryV,
)
    requires
        note_ids_unique(t),
    ensures
        note_ids_unique(save_spec(t, i, now, ids).0),
        soft_delete_spec(t, id, now) matches Ok(t2) ==> note_ids_unique(t2),
        restore_spec(t, id, now) matches Ok(t2) ==> note_ids_unique(t2),
        note_ids_unique(set_archived_spec(t, id, archived, now).0),
        note_ids_unique(purge_spec(t, id)),
        note_ids_unique(delete_category_spec(t, id)),
        note_ids_unique(delete_tag_spec(t, id)),
        note_ids_unique(import_spec(t, e, now, ids).0),
        note_ids_unique(persist_spec(t, id, r, now, ids).0),
        note_ids_unique(record_search(t, q, now, id).0),
{
    // Saving.
    let hash = crate::save::content_hash(i.title, i.content);
    let plan = crate::save::plan_upto(t.tags, i.tag_names, ids, now, i.tag_names.len());
    match i.id {
        Some(sid) => {
            let p = note_pos(t, sid);
            if p >= 0 {
                let cur = t.notes[p];
                let completed = if completes(i) {
                    match cur.completed_at {
                        Some(c) => Some(c),
                        None => Some(now),
                    }
                } else {
                    None
                };
                let f = |r: NoteRowV| crate::save::rewritten(r, i, hash, now, completed);
                lemma_update_same_ids(t, sid, f);
                let t1 = update_notes(t, sid, f);
                lemma_same_ids_unique(t, t1);
                match plan {
                    Ok(pl) => lemma_reindex_keeps_notes(crate::save::with_links(t1, sid, pl), sid),
                    Err(_) => {},
                }
            }
        },
        None => {
            let nid = ids[0];
            if !exists|k: int| 0 <= k < t.notes.len() && t.notes[k].id == nid {
                let row = crate::save::fresh_row(nid, i, hash, now);
                lemma_push_unique(t, row);
                let t1 = TablesV { notes: t.notes.push(row), ..t };
                match plan {
                    Ok(pl) => lemma_reindex_keeps_notes(crate::save::with_links(t1, nid, pl), nid),
                    Err(_) => {},
                }
            }
        },
    }
    // Trash, restore, archive.
    lemma_update_same_ids(t, id, mark_deleted(now));
    lemma_same_ids_unique(t, reindex(update_notes(t, id, mark_deleted(now)), id));
    lemma_update_same_ids(t, id, mark_restored(now));
    lemma_same_ids_unique(t, reindex(update_notes(t, id, mark_restored(now)), id));
    lemma_update_same_ids(t, id, mark_archived(archived, now));
    lemma_same_ids_unique(t, update_notes(t, id, mark_archived(archived, now)));
    // Deleting for good keeps a subsequence.
    lemma_keep_ids_unique_notes(t.notes, |r: NoteRowV| !(r.id == id && r.deleted_at is Some));
    // Deleting a category or a tag.
    law_delete_category_clears(t, id);
    assert(same_note_ids(t, delete_category_spec(t, id)));
    lemma_same_ids_unique(t, delete_category_spec(t, id));
    law_delete_tag_unlinks(t, id);
    // Importing.
    if e.schema_version == 1 {
        let start = ImportStateV { t, map: seq![], used: 0, created: 0, skipped: 0, copied: 0 };
        let m = merge_categories(start, e.categories, now, ids);
        lemma_merge_keeps_notes(start, e.categories, now, ids);
        if import_notes(m, e.notes, now, ids) is Ok {
            lemma_import_unique(m, e.notes, now, ids);
        }
    }
}

/// Filtering note rows keeps their ids unique.
proof fn lemma_keep_ids_unique_notes(s: Seq<NoteRowV>, p: spec_fn(NoteRowV) -> bool)
    requires
        forall|i: int, j: int| 0 <= i < j < s.len() ==> s[i].id != s[j].id,
    ensures
        forall|i: int, j: int| 0 <= i < j < keep(s, p).len() ==> keep(s, p)[i].id != keep(s, p)[j].id,
    decreases s.len(),
{
    if s.len() > 0 {
        let d = s.drop_last();
        assert forall|i: int, j: int| 0 <= i < j < d.len() implies d[i].id != d[j].id by {
            assert(d[i] == s[i] && d[j] == s[j]);
        }
        lemma_keep_ids_unique_notes(d, p);
        let r = keep(d, p);
        if p(s.last()) {
            assert forall|k: int| 0 <= k < r.len() implies r[k].id != s.last().id by {
                lemma_keep_contains(d, p, r[k]);
                assert(r.contains(r[k]));
                let m = choose|m: int| 0 <= m < d.len() && d[m] == r[k];
                assert(s[m] == d[m]);
            }
            let rr = r.push(s.last());
            assert forall|i: int, j: int| 0 <= i < j < rr.len() implies rr[i].id != rr[j].id by {
                assert(rr[i] == r[i]);
                if j < r.len() {
                    assert(rr[j] == r[j]);
                }
            }
        }
    }
}


/// The store's keys hold: no two notes share an id, and no two history entries do (the
/// primary keys of `notes` and `search_history`).
pub open spec fn store_wf(t: TablesV) -> bool {
    note_ids_unique(t) && history_ids_unique(t.search_history)
}

/// Writing settings changes only the settings.
proof fn lemma_write_pairs_keeps(t: TablesV, pairs: Seq<(Seq<char>, Seq<char>)>, now: Seq<char>, upsert: bool)
    ensures
        write_pairs(t, pairs, now, upsert).notes == t.notes,
        write_pairs(t, pairs, now, upsert).search_history == t.search_history,
    decreases pairs.len(),
{
    if pairs.len() > 0 {
        lemma_write_pairs_keeps(t, pairs.drop_last(), now, upsert);
    }
}

/// Recording a search keeps the history's ids unique, whether it succeeds or not.
proof fn lemma_record_keeps_wf(t: TablesV, q: SearchQueryV, now: Seq<char>, hid: Seq<char>)
    requires
        store_wf(t),
    ensures
        store_wf(record_search(t, q, now, hid).0),
{
    let fj = query_json(q);
    let normalized = lowercase(trim_spec(q.query));
    let dedup = |r: HistoryRowV| !(r.normalized_query == normalized && r.filters_json == fj);
    lemma_keep_ids_unique(t.search_history, dedup);
    if record_search(t, q, now, hid).1 is Ok {
        law_history_bounded(t, q, now, hid);
    }
}

proof fn lemma_wf_save(t: TablesV, i: SaveNoteInputV, now: Seq<char>, ids: Seq<Seq<char>>)
    requires
        store_wf(t),
    ensures
        store_wf(save_spec(t, i, now, ids).0),
{
    law_note_ids_stay_unique(t, i, seq![], false, now, ids, arbitrary(), arbitrary(), arbitrary());
    let hash = crate::save::content_hash(i.title, i.content);
    let plan = crate::save::plan_upto(t.tags, i.tag_names, ids, now, i.tag_names.len());
    match i.id {
        Some(sid) => {
            let p = note_pos(t, sid);
            if p >= 0 {
                let cur = t.notes[p];
                let completed = if completes(i) {
                    match cur.completed_at {
                        Some(c) => Some(c),
                        None => Some(now),
                    }
                } else {
                    None
                };
                let t1 = update_notes(t, sid, |x: NoteRowV| crate::save::rewritten(x, i, hash, now, completed));
                match plan {
                    Ok(pl) => lemma_reindex_keeps_notes(crate::save::with_links(t1, sid, pl), sid),
                    Err(_) => {},
                }
            }
        },
        None => {
            let t1 = TablesV { notes: t.notes.push(crate::save::fresh_row(ids[0], i, hash, now)), ..t };
            match plan {
                Ok(pl) => lemma_reindex_keeps_notes(crate::save::with_links(t1, ids[0], pl), ids[0]),
                Err(_) => {},
            }
        },
    }
}

proof fn lemma_wf_note_ops(t: TablesV, id: Seq<char>, archived: bool, now: Seq<char>)
    requires
        store_wf(t),
    ensures
        soft_delete_spec(t, id, now) matches Ok(t2) ==> store_wf(t2),
        restore_spec(t, id, now) matches Ok(t2) ==> store_wf(t2),
        store_wf(set_archived_spec(t, id, archived, now).0),
        store_wf(purge_spec(t, id)),
        store_wf(delete_category_spec(t, id)),
        store_wf(delete_tag_spec(t, id)),
{
    law_note_ids_stay_unique(t, arbitrary(), id, archived, now, seq![], arbitrary(), arbitrary(), arbitrary());
    law_delete_category_clears(t, id);
    lemma_reindex_all_keeps_history(
        TablesV {
            notes: t.notes.map_values(
                |r: NoteRowV| if r.category_id == Some(id) { NoteRowV { category_id: None, ..r } } else { r },
            ),
            categories: keep(t.categories, |c: CategoryRowV| c.id != id),
            ..t
        },
        keep(t.notes, |r: NoteRowV| r.category_id == Some(id)).map_values(|r: NoteRowV| r.id),
    );
    law_delete_tag_unlinks(t, id);
    let gone = exists|k: int| 0 <= k < t.tags.len() && t.tags[k].id == id;
    let t1 = TablesV { tags: keep(t.tags, |g: TagRowV| g.id != id), ..t };
    let t2 = if gone {
        TablesV { note_tags: keep(t1.note_tags, |l: LinkRowV| l.tag_id != id), ..t1 }
    } else {
        t1
    };
    lemma_reindex_all_keeps_history(t2, keep(t.note_tags, |l: LinkRowV| l.tag_id == id).map_values(|l: LinkRowV| l.note_id));
    lemma_reindex_keeps_notes(update_notes(t, id, mark_deleted(now)), id);
    lemma_reindex_keeps_notes(update_notes(t, id, mark_restored(now)), id);
}

proof fn lemma_reindex_all_keeps_history(t: TablesV, ids: Seq<Seq<char>>)
    ensures
        reindex_all(t, ids).search_history == t.search_history,
    decreases ids.len(),
{
    if ids.len() > 0 {
        lemma_reindex_all_keeps_history(t, ids.drop_last());
    }
}

proof fn lemma_wf_other_ops(
    t: TablesV,
    id: Seq<char>,
    name: Seq<char>,
    now: Seq<char>,
    pairs: Seq<(Seq<char>, Seq<char>)>,
    upsert: bool,
    status: Seq<char>,
    r: OrganizerResultV,
    ids: Seq<Seq<char>>,
)
    requires
        store_wf(t),
    ensures
        store_wf(create_category_spec(t, name, name, now, id).0),
        store_wf(write_pairs(t, pairs, now, upsert)),
        status_spec(t, id, status, now) matches Ok(t2) ==> store_wf(t2),
        store_wf(persist_spec(t, id, r, now, ids).0),
        store_wf(TablesV { search_history: seq![], ..t }),
{
    lemma_write_pairs_keeps(t, pairs, now, upsert);
}

proof fn lemma_wf_import(t: TablesV, e: ExportEnvelopeV, now: Seq<char>, ids: Seq<Seq<char>>)
    requires
        store_wf(t),
    ensures
        store_wf(import_spec(t, e, now, ids).0),
{
    law_note_ids_stay_unique(t, arbitrary(), seq![], false, now, ids, e, arbitrary(), arbitrary());
    if e.schema_version == 1 {
        let start = ImportStateV { t, map: seq![], used: 0, created: 0, skipped: 0, copied: 0 };
        lemma_merge_keeps_history(start, e.categories, now, ids);
        let m = merge_categories(start, e.categories, now, ids);
        if import_notes(m, e.notes, now, ids) is Ok {
            lemma_import_keeps_history(m, e.notes, now, ids);
        }
    }
}

proof fn lemma_wf_search(
    t: TablesV,
    q: SearchQueryV,
    today: Seq<char>,
    flags: Seq<bool>,
    index_ids: Option<Seq<Seq<char>>>,
    now: Seq<char>,
    hid: Seq<char>,
)
    requires
        store_wf(t),
    ensures
        store_wf(record_search(t, q, now, hid).0),
        store_wf(search_spec(t, q, today, flags, index_ids, now, hid).0),
{
    lemma_record_keeps_wf(t, q, now, hid);
}

/// A new store is well formed, and every operation that changes the store keeps it well
/// formed: saving, trashing, restoring, archiving, deleting for good, creating or deleting a
/// category, deleting a tag, writing settings, importing, persisting an analysis, deciding
/// a proposal, searching (which records the search) and clearing the history.
pub proof fn law_store_stays_wf(
    t: TablesV,
    i: SaveNoteInputV,
    id: Seq<char>,
    archived: bool,
    now: Seq<char>,
    ids: Seq<Seq<char>>,
    e: ExportEnvelopeV,
    r: OrganizerResultV,
    q: SearchQueryV,
    name: Seq<char>,
    pairs: Seq<(Seq<char>, Seq<char>)>,
    upsert: bool,
    status: Seq<char>,
    today: Seq<char>,
    flags: Seq<bool>,
    index_ids: Option<Seq<Seq<char>>>,
)
    ensures
        store_wf(empty_tables()),
        store_wf(write_pairs(empty_tables(), pairs, now, upsert)),
        store_wf(t) ==> store_wf(save_spec(t, i, now, ids).0),
        store_wf(t) ==> (soft_delete_spec(t, id, now) matches Ok(t2) ==> store_wf(t2)),
        store_wf(t) ==> (restore_spec(t, id, now) matches Ok(t2) ==> store_wf(t2)),
        store_wf(t) ==> store_wf(set_archived_spec(t, id, archived, now).0),
        store_wf(t) ==> store_wf(purge_spec(t, id)),
        store_wf(t) ==> store_wf(create_category_spec(t, name, name, now, id).0),
        store_wf(t) ==> store_wf(delete_category_spec(t, id)),
        store_wf(t) ==> store_wf(delete_tag_spec(t, id)),
        store_wf(t) ==> store_wf(write_pairs(t, pairs, now, upsert)),
        store_wf(t) ==> store_wf(import_spec(t, e, now, ids).0),
        store_wf(t) ==> store_wf(persist_spec(t, id, r, now, ids).0),
        store_wf(t) ==> (status_spec(t, id, status, now) matches Ok(t2) ==> store_wf(t2)),
        store_wf(t) ==> store_wf(search_spec(t, q, today, flags, index_ids, now, id).0),
        store_wf(t) ==> store_wf(TablesV { search_history: seq![], ..t }),
{
    lemma_write_pairs_keeps(empty_tables(), pairs, now, upsert);
    if store_wf(t) {
        lemma_wf_save(t, i, now, ids);
        lemma_wf_note_ops(t, id, archived, now);
        lemma_wf_other_ops(t, id, name, now, pairs, upsert, status, r, ids);
        lemma_wf_import(t, e, now, ids);
        lemma_wf_search(t, q, today, flags, index_ids, now, id);
    }
}

proof fn lemma_merge_keeps_history(st: ImportStateV, cs: Seq<CategoryV>, now: Seq<char>, ids: Seq<Seq<char>>)
    ensures
        merge_categories(st, cs, now, ids).t.search_history == st.t.search_history,
    decreases cs.len(),
{
    if cs.len() > 0 {
        lemma_merge_keeps_history(st, cs.drop_last(), now, ids);
    }
}

proof fn lemma_link_keeps_history(st: ImportStateV, id: Seq<char>, gs: Seq<TagV>, now: Seq<char>, ids: Seq<Seq<char>>)
    requires
        link_tags(st, id, gs, now, ids) is Ok,
    ensures
        link_tags(st, id, gs, now, ids)->Ok_0.t.search_history == st.t.search_history,
    decreases gs.len(),
{
    if gs.len() > 0 {
        lemma_link_keeps_history(st, id, gs.drop_last(), now, ids);
    }
}

proof fn lemma_import_keeps_history(st: ImportStateV, ns: Seq<NoteV>, now: Seq<char>, ids: Seq<Seq<char>>)
    requires
        import_notes(st, ns, now, ids) is Ok,
    ensures
        import_notes(st, ns, now, ids)->Ok_0.t.search_history == st.t.search_history,
    decreases ns.len(),
{
    if ns.len() > 0 {
        lemma_import_keeps_history(st, ns.drop_last(), now, ids);
        let s1 = import_notes(st, ns.drop_last(), now, ids)->Ok_0;
        let x = ns.last();
        if !same_stored(s1.t, x) {
            let copy = id_stored(s1.t, x);
            let nid = if copy {
                ids[s1.used as int]
            } else {
                x.id
            };
            let st1 = if copy {
                ImportStateV { used: s1.used + 1, copied: s1.copied + 1, ..s1 }
            } else {
                ImportStateV { created: s1.created + 1, ..s1 }
            };
            let category = match x.category_id {
                Some(c) => mapped(s1.map, c),
                None => None,
            };
            let st2 = ImportStateV {
                t: TablesV { notes: s1.t.notes.push(imported_row(nid, x, category, now)), ..s1.t },
                ..st1
            };
            if link_tags(st2, nid, x.tags, now, ids) is Ok {
                lemma_link_keeps_history(st2, nid, x.tags, now, ids);
            }
        }
    }
}


/// A search with a blank query leaves the store as it was. Any other search that succeeds
/// on a well formed store keeps it well formed and leaves at most twenty history entries,
/// none but the new one with the same normalized query and filters; when the new entry is
/// later than every earlier one, the history lists it first, with the trimmed query and the
/// query's filters.
pub proof fn law_search_records_history(
    t: TablesV,
    q: SearchQueryV,
    today: Seq<char>,
    flags: Seq<bool>,
    index_ids: Option<Seq<Seq<char>>>,
    now: Seq<char>,
    hid: Seq<char>,
)
    requires
        store_wf(t),
        search_spec(t, q, today, flags, index_ids, now, hid).1 is Ok,
    ensures
        trim_spec(q.query).len() == 0 ==> search_spec(t, q, today, flags, index_ids, now, hid).0 == t,
        trim_spec(q.query).len() > 0 ==> {
            let t2 = search_spec(t, q, today, flags, index_ids, now, hid).0;
            &&& t2 == record_search(t, q, now, hid).0
            &&& store_wf(t2)
            &&& t2.search_history.len() <= 20
            &&& forall|k: int| 0 <= k < t2.search_history.len()
                && (#[trigger] t2.search_history[k]).normalized_query == lowercase(trim_spec(q.query))
                && t2.search_history[k].filters_json == query_json(q)
                ==> t2.search_history[k].id == hid
            &&& (forall|k: int| 0 <= k < t.search_history.len()
                ==> bytes_lt(utf8((#[trigger] t.search_history[k]).searched_at), utf8(now)))
                ==> history_spec(t2)[0] == (SearchHistoryItemV {
                    id: hid,
                    query: trim_spec(q.query),
                    filters_json: query_json(q),
                    searched_at: now,
                })
        },
{
    if trim_spec(q.query).len() > 0 {
        assert(record_search(t, q, now, hid).1 is Ok);
        law_history_bounded(t, q, now, hid);
        law_history_replaces_same_search(t, q, now, hid);
        lemma_record_keeps_wf(t, q, now, hid);
    }
}


/// A save of a stored note that succeeds answers with the note as the input gives it
/// (title, content, category, flags, status, priority, due date, source), one revision
/// later, stamped `now`, and otherwise as stored (id, creation time, trash and archive).
pub proof fn law_saved_note_holds_input(t: TablesV, i: SaveNoteInputV, now: Seq<char>, ids: Seq<Seq<char>>, id: Seq<char>)
    requires
        i.id == Some(id),
        save_spec(t, i, now, ids).1 matches Ok(resp) && resp.status == "saved"@,
    ensures
        ({
            let n = save_spec(t, i, now, ids).1->Ok_0.note;
            let old = t.notes[note_pos(t, id)];
            &&& 0 <= note_pos(t, id) < t.notes.len()
            &&& n.id == id
            &&& n.title == i.title
            &&& n.content == i.content
            &&& n.category_id == i.category_id
            &&& n.is_favorite == i.is_favorite
            &&& n.is_todo == i.is_todo
            &&& n.todo_status == i.todo_status
            &&& n.priority == i.priority
            &&& n.due_date == i.due_date
            &&& n.source == i.source
            &&& n.revision == old.revision + 1
            &&& n.updated_at == now
            &&& n.created_at == old.created_at
            &&& n.deleted_at == old.deleted_at
            &&& n.archived_at == old.archived_at
        }),
{
    law_save_bumps_revision(t, i, now, ids, id);
    lemma_first_index(t.notes, |r: NoteRowV| r.id == id);
    let p = note_pos(t, id);
    let cur = t.notes[p];
    let hash = crate::save::content_hash(i.title, i.content);
    let completed = if completes(i) {
        match cur.completed_at {
            Some(c) => Some(c),
            None => Some(now),
        }
    } else {
        None
    };
    let f = |r: NoteRowV| crate::save::rewritten(r, i, hash, now, completed);
    lemma_update_keeps_positions(t, id, f, id);
    let t1 = update_notes(t, id, f);
    assert(t1.notes[p] == f(cur));
    let plan = crate::save::plan_upto(t.tags, i.tag_names, ids, now, i.tag_names.len());
    reveal_strlit("conflict");
    reveal_strlit("saved");
    assert("conflict"@.len() == 8 && "saved"@.len() == 5);
    let expected = match i.expected_revision {
        Some(x) => x,
        None => cur.revision,
    };
    if expected != cur.revision {
        assert(save_spec(t, i, now, ids).1 == match read_note(t, id) {
            Ok(n) => Ok(SaveNoteResponseV { status: "conflict"@, note: n }),
            Err(e) => Err(e),
        });
        assert(false);
    }
    match plan {
        Ok(pl) => {
            let w = crate::save::with_links(t1, id, pl);
            lemma_reindex_keeps_notes(w, id);
            let t2 = reindex(w, id);
            assert(save_spec(t, i, now, ids) == crate::save::finish(t1, id, pl, "saved"@));
            assert(note_pos(t2, id) == p);
            assert(t2.notes[p] == f(cur));
        },
        Err(_) => {},
    }
}

/// Trashing a note marks every row with its id deleted at `now`, one revision later, and
/// changes no other row; restoring clears the mark the same way.
pub proof fn law_trash_and_restore_marks(t: TablesV, id: Seq<char>, now: Seq<char>)
    ensures
        soft_delete_spec(t, id, now) matches Ok(t2) ==> t2.notes.len() == t.notes.len() && forall|k: int|
            0 <= k < t.notes.len() ==> if t.notes[k].id == id {
                (#[trigger] t2.notes[k]).deleted_at == Some(now) && t2.notes[k].revision == t.notes[k].revision + 1
                    && t2.notes[k].title == t.notes[k].title && t2.notes[k].content == t.notes[k].content
            } else {
                t2.notes[k] == t.notes[k]
            },
        restore_spec(t, id, now) matches Ok(t2) ==> t2.notes.len() == t.notes.len() && forall|k: int|
            0 <= k < t.notes.len() ==> if t.notes[k].id == id {
                (#[trigger] t2.notes[k]).deleted_at is None && t2.notes[k].revision == t.notes[k].revision + 1
                    && t2.notes[k].title == t.notes[k].title && t2.notes[k].content == t.notes[k].content
            } else {
                t2.notes[k] == t.notes[k]
            },
{
    let u1 = update_notes(t, id, mark_deleted(now));
    lemma_reindex_keeps_notes(u1, id);
    let u2 = update_notes(t, id, mark_restored(now));
    lemma_reindex_keeps_notes(u2, id);
    if !revision_maxed(t, id) {
        assert forall|k: int| 0 <= k < t.notes.len() && t.notes[k].id == id implies t.notes[k].revision < i64::MAX by {
            if t.notes[k].revision == i64::MAX {
                assert(revision_maxed(t, id));
            }
        }
    }
}

} // verus!
