//! Changes to notes, categories and tags.

use vstd::prelude::*;
use crate::dates::utc_now_text;
use crate::error::{AppError, AppErrorV, AppResult};
use crate::models::{Note, NoteV};
use crate::repo::{Database, read_note};
use crate::seqs::{keep, filter_vec, map_vec, any_vec, vw};
use crate::tables::{FtsRowV, Tables, TablesV, NoteRow, NoteRowV, CategoryRow, CategoryRowV, TagRow, TagRowV, LinkRow, LinkRowV, EntityRow, EntityRowV, SuggestionRow, SuggestionRowV, Dup};
use crate::text::str_eq;
use crate::writes::{reindex, reindex_all, reindex_note, remove_fts};

verus! {

/// Some row with the id has a revision that cannot be incremented.
pub open spec fn revision_maxed(t: TablesV, id: Seq<char>) -> bool {
    exists|k: int| 0 <= k < t.notes.len() && t.notes[k].id == id && t.notes[k].revision == i64::MAX
}

/// The error SQLite's integer arithmetic gives when a revision cannot be incremented.
pub open spec fn overflow_error() -> AppErrorV {
    AppErrorV::Database("integer overflow"@)
}

/// Rows with the id changed by `f`.
pub open spec fn update_notes(t: TablesV, id: Seq<char>, f: spec_fn(NoteRowV) -> NoteRowV) -> TablesV {
    TablesV { notes: t.notes.map_values(|r: NoteRowV| if r.id == id { f(r) } else { r }), ..t }
}

pub open spec fn mark_deleted(now: Seq<char>) -> spec_fn(NoteRowV) -> NoteRowV {
    |r: NoteRowV| NoteRowV { deleted_at: Some(now), updated_at: now, revision: (r.revision + 1) as i64, ..r }
}

pub open spec fn mark_restored(now: Seq<char>) -> spec_fn(NoteRowV) -> NoteRowV {
    |r: NoteRowV| NoteRowV { deleted_at: None, updated_at: now, revision: (r.revision + 1) as i64, ..r }
}

pub open spec fn mark_archived(archived: bool, now: Seq<char>) -> spec_fn(NoteRowV) -> NoteRowV {
    |r: NoteRowV|
        NoteRowV {
            archived_at: if archived {
                Some(now)
            } else {
                None
            },
            updated_at: now,
            revision: (r.revision + 1) as i64,
            ..r
        }
}

/// `soft_delete`: the note goes to the trash (deleted now, one revision later) and leaves
/// the index.
pub open spec fn soft_delete_spec(t: TablesV, id: Seq<char>, now: Seq<char>) -> Result<TablesV, AppErrorV> {
    if revision_maxed(t, id) {
        Err(overflow_error())
    } else {
        Ok(reindex(update_notes(t, id, mark_deleted(now)), id))
    }
}

/// `restore_note`: the note leaves the trash (one revision later) and is indexed again.
pub open spec fn restore_spec(t: TablesV, id: Seq<char>, now: Seq<char>) -> Result<TablesV, AppErrorV> {
    if revision_maxed(t, id) {
        Err(overflow_error())
    } else {
        Ok(reindex(update_notes(t, id, mark_restored(now)), id))
    }
}

/// `set_archived`: the note is archived (or taken out of the archive) and read back.
pub open spec fn set_archived_spec(t: TablesV, id: Seq<char>, archived: bool, now: Seq<char>) -> (TablesV, Result<NoteV, AppErrorV>) {
    if revision_maxed(t, id) {
        (t, Err(overflow_error()))
    } else {
        let t1 = update_notes(t, id, mark_archived(archived, now));
        (t1, read_note(t1, id))
    }
}

/// `permanently_delete`: a note in the trash goes for good, with its index rows, tag links,
/// entities and suggestions; when no note with the id is in the trash, nothing changes.
pub open spec fn purge_spec(t: TablesV, id: Seq<char>) -> TablesV {
    let gone = exists|k: int| 0 <= k < t.notes.len() && t.notes[k].id == id && t.notes[k].deleted_at is Some;
    if gone {
        TablesV {
            notes: keep(t.notes, |r: NoteRowV| !(r.id == id && r.deleted_at is Some)),
            fts: keep(t.fts, |f: FtsRowV| f.note_id != id),
            note_tags: keep(t.note_tags, |l: LinkRowV| l.note_id != id),
            entities: keep(t.entities, |e: EntityRowV| e.note_id != id),
            suggestions: keep(t.suggestions, |s: SuggestionRowV| s.note_id != id),
            ..t
        }
    } else {
        t
    }
}

/// `delete_category`: notes of the category lose it, the category goes, and those notes
/// are reindexed.
pub open spec fn delete_category_spec(t: TablesV, id: Seq<char>) -> TablesV {
    let ids = keep(t.notes, |r: NoteRowV| r.category_id == Some(id)).map_values(|r: NoteRowV| r.id);
    let t1 = TablesV {
        notes: t.notes.map_values(
            |r: NoteRowV| if r.category_id == Some(id) { NoteRowV { category_id: None, ..r } } else { r },
        ),
        categories: keep(t.categories, |c: CategoryRowV| c.id != id),
        ..t
    };
    reindex_all(t1, ids)
}

/// `delete_tag`: the tag goes with its links, and the notes it was linked to are reindexed.
pub open spec fn delete_tag_spec(t: TablesV, id: Seq<char>) -> TablesV {
    let ids = keep(t.note_tags, |l: LinkRowV| l.tag_id == id).map_values(|l: LinkRowV| l.note_id);
    let gone = exists|k: int| 0 <= k < t.tags.len() && t.tags[k].id == id;
    let t1 = TablesV { tags: keep(t.tags, |g: TagRowV| g.id != id), ..t };
    let t2 = if gone {
        TablesV { note_tags: keep(t1.note_tags, |l: LinkRowV| l.tag_id != id), ..t1 }
    } else {
        t1
    };
    reindex_all(t2, ids)
}

impl Tables {
    pub fn revision_maxed(&self, id: &str) -> (r: bool)
        ensures
            r == revision_maxed(self@, id@),
    {
        any_vec(
            &self.notes,
            (|n: &NoteRow| -> (b: bool)
                ensures
                    b == (n@.id == id@ && n@.revision == i64::MAX),
                { str_eq(n.id.as_str(), id) && n.revision == i64::MAX }),
            Ghost(|n: NoteRowV| n.id == id@ && n.revision == i64::MAX),
        )
    }

    fn update_rows(&mut self, id: &str, kind: u8, archived: bool, now: &str)
        requires
            !revision_maxed(old(self)@, id@),
            kind < 3,
        ensures
            final(self)@ == update_notes(
                old(self)@,
                id@,
                if kind == 0 {
                    mark_deleted(now@)
                } else if kind == 1 {
                    mark_restored(now@)
                } else {
                    mark_archived(archived, now@)
                },
            ),
    {
        let ghost f = if kind == 0 {
            mark_deleted(now@)
        } else if kind == 1 {
            mark_restored(now@)
        } else {
            mark_archived(archived, now@)
        };
        let ghost sf = |r: NoteRowV| if r.id == id@ { f(r) } else { r };
        let ghost before = self@;
        let mut rows: Vec<NoteRow> = Vec::new();
        std::mem::swap(&mut rows, &mut self.notes);
        assert forall|k: int| 0 <= k < rows@.len() && rows@[k]@.id == id@ implies rows@[k]@.revision < i64::MAX by {
            assert(before.notes[k] == rows@[k]@);
        }
        let changed = map_vec(
            rows,
            (|n: &NoteRow| -> (m: NoteRow)
                requires
                    n@.id == id@ ==> n@.revision < i64::MAX,
                ensures
                    m@ == sf(n@),
                {
                    let mut m = n.dup();
                    if str_eq(n.id.as_str(), id) {
                        m.revision = n.revision + 1;
                        m.updated_at = now.to_owned();
                        if kind == 0 {
                            m.deleted_at = Some(now.to_owned());
                        } else if kind == 1 {
                            m.deleted_at = None;
                        } else {
                            m.archived_at = if archived {
                                Some(now.to_owned())
                            } else {
                                None
                            };
                        }
                    }
                    m
                }),
            Ghost(sf),
        );
        self.notes = changed;
        assert(self@ =~= update_notes(before, id@, f));
    }
}

impl Database {
    /// Moves a note to the trash at the instant `now`.
    pub fn soft_delete_at(&mut self, id: &str, now: &str) -> (r: AppResult<()>)
        ensures
            match soft_delete_spec(old(self)@, id@, now@) {
                Ok(t) => r is Ok && final(self)@ == t,
                Err(e) => r matches Err(x) && x@ == e && final(self)@ == old(self)@,
            },
    {
        if self.tables.revision_maxed(id) {
            return Err(AppError::Database("integer overflow".to_owned()));
        }
        self.tables.update_rows(id, 0, false, now);
        reindex_note(&mut self.tables, id);
        Ok(())
    }

    /// Moves a note to the trash, stamped with the current time.
    pub fn soft_delete(&mut self, id: &str) -> (r: AppResult<()>)
        ensures
            exists|now: Seq<char>|
                #![trigger soft_delete_spec(old(self)@, id@, now)]
                match soft_delete_spec(old(self)@, id@, now) {
                    Ok(t) => r is Ok && final(self)@ == t,
                    Err(e) => r matches Err(x) && x@ == e && final(self)@ == old(self)@,
                },
    {
        let now = utc_now_text();
        self.soft_delete_at(id, now.as_str())
    }

    /// Takes a note out of the trash at the instant `now`.
    pub fn restore_note_at(&mut self, id: &str, now: &str) -> (r: AppResult<()>)
        ensures
            match restore_spec(old(self)@, id@, now@) {
                Ok(t) => r is Ok && final(self)@ == t,
                Err(e) => r matches Err(x) && x@ == e && final(self)@ == old(self)@,
            },
    {
        if self.tables.revision_maxed(id) {
            return Err(AppError::Database("integer overflow".to_owned()));
        }
        self.tables.update_rows(id, 1, false, now);
        reindex_note(&mut self.tables, id);
        Ok(())
    }

    /// Takes a note out of the trash, stamped with the current time.
    pub fn restore_note(&mut self, id: &str) -> (r: AppResult<()>)
        ensures
            exists|now: Seq<char>|
                #![trigger restore_spec(old(self)@, id@, now)]
                match restore_spec(old(self)@, id@, now) {
                    Ok(t) => r is Ok && final(self)@ == t,
                    Err(e) => r matches Err(x) && x@ == e && final(self)@ == old(self)@,
                },
    {
        let now = utc_now_text();
        self.restore_note_at(id, now.as_str())
    }

    /// Archives a note (or takes it out of the archive) at the instant `now`, and reads it back.
    pub fn set_archived_at(&mut self, id: &str, archived: bool, now: &str) -> (r: AppResult<Note>)
        ensures
            final(self)@ == set_archived_spec(old(self)@, id@, archived, now@).0,
            match set_archived_spec(old(self)@, id@, archived, now@).1 {
                Ok(n) => r matches Ok(x) && x@ == n,
                Err(e) => r matches Err(x) && x@ == e,
            },
    {
        if self.tables.revision_maxed(id) {
            return Err(AppError::Database("integer overflow".to_owned()));
        }
        self.tables.update_rows(id, 2, archived, now);
        let r = self.get_note(id);
        r
    }

    /// Archives a note (or takes it out of the archive), stamped with the current time.
    pub fn set_archived(&mut self, id: &str, archived: bool) -> (r: AppResult<Note>)
        ensures
            exists|now: Seq<char>|
                #![trigger set_archived_spec(old(self)@, id@, archived, now)]
                final(self)@ == set_archived_spec(old(self)@, id@, archived, now).0 && match set_archived_spec(
                    old(self)@,
                    id@,
                    archived,
                    now,
                ).1 {
                    Ok(n) => r matches Ok(x) && x@ == n,
                    Err(e) => r matches Err(x) && x@ == e,
                },
    {
        let now = utc_now_text();
        self.set_archived_at(id, archived, now.as_str())
    }

    /// Deletes a note for good, if it is in the trash.
    pub fn permanently_delete(&mut self, id: &str) -> (r: AppResult<()>)
        ensures
            r is Ok,
            final(self)@ == purge_spec(old(self)@, id@),
    {
        let gone = any_vec(
            &self.tables.notes,
            (|n: &NoteRow| -> (b: bool)
                ensures
                    b == (n@.id == id@ && n@.deleted_at is Some),
                { str_eq(n.id.as_str(), id) && n.deleted_at.is_some() }),
            Ghost(|n: NoteRowV| n.id == id@ && n.deleted_at is Some),
        );
        if !gone {
            proof {
                assert forall|k: int| 0 <= k < old(self)@.notes.len() implies !(old(self)@.notes[k].id == id@
                    && old(self)@.notes[k].deleted_at is Some) by {
                    assert(!(|n: NoteRowV| n.id == id@ && n.deleted_at is Some)(vw(self.tables.notes@)[k]));
                }
            }
            return Ok(());
        }
        proof {
            let k = choose|k: int| 0 <= k < self.tables.notes@.len()
                && (|n: NoteRowV| n.id == id@ && n.deleted_at is Some)(vw(self.tables.notes@)[k]);
            assert(old(self)@.notes[k].id == id@ && old(self)@.notes[k].deleted_at is Some);
        }
        remove_fts(&mut self.tables, id);
        let mut rows: Vec<NoteRow> = Vec::new();
        std::mem::swap(&mut rows, &mut self.tables.notes);
        self.tables.notes = filter_vec(
            rows,
            (|n: &NoteRow| -> (b: bool)
                ensures
                    b == !(n@.id == id@ && n@.deleted_at is Some),
                { !(str_eq(n.id.as_str(), id) && n.deleted_at.is_some()) }),
            Ghost(|n: NoteRowV| !(n.id == id@ && n.deleted_at is Some)),
        );
        {
            let mut links: Vec<LinkRow> = Vec::new();
            std::mem::swap(&mut links, &mut self.tables.note_tags);
            self.tables.note_tags = filter_vec(
                links,
                (|l: &LinkRow| -> (b: bool)
                    ensures
                        b == (l@.note_id != id@),
                    { !str_eq(l.note_id.as_str(), id) }),
                Ghost(|l: LinkRowV| l.note_id != id@),
            );
            let mut ents: Vec<EntityRow> = Vec::new();
            std::mem::swap(&mut ents, &mut self.tables.entities);
            self.tables.entities = filter_vec(
                ents,
                (|e: &EntityRow| -> (b: bool)
                    ensures
                        b == (e@.note_id != id@),
                    { !str_eq(e.note_id.as_str(), id) }),
                Ghost(|e: EntityRowV| e.note_id != id@),
            );
            let mut sugs: Vec<SuggestionRow> = Vec::new();
            std::mem::swap(&mut sugs, &mut self.tables.suggestions);
            self.tables.suggestions = filter_vec(
                sugs,
                (|s: &SuggestionRow| -> (b: bool)
                    ensures
                        b == (s@.note_id != id@),
                    { !str_eq(s.note_id.as_str(), id) }),
                Ghost(|s: SuggestionRowV| s.note_id != id@),
            );
        }
        assert(self@ =~= purge_spec(old(self)@, id@));
        Ok(())
    }
}

} // verus!

verus! {

/// Largest `sort_order` of the categories (`MAX(sort_order)`), when there is one.
pub open spec fn max_sort_order(s: Seq<CategoryRowV>) -> Option<i64>
    decreases s.len(),
{
    if s.len() == 0 {
        None
    } else {
        match max_sort_order(s.drop_last()) {
            None => Some(s.last().sort_order),
            Some(m) => Some(if s.last().sort_order > m {
                s.last().sort_order
            } else {
                m
            }),
        }
    }
}

/// `create_category`: a new category named by the trimmed name, ordered after all others.
pub open spec fn create_category_spec(
    t: TablesV,
    name: Seq<char>,
    color: Seq<char>,
    now: Seq<char>,
    new_id: Seq<char>,
) -> (TablesV, Result<crate::models::CategoryV, AppErrorV>) {
    let n = crate::text::trim_spec(name);
    let normalized = crate::text::lowercase(crate::text::trim_spec(n));
    if n.len() == 0 {
        (t, Err(AppErrorV::Validation("分类名称不能为空"@)))
    } else if max_sort_order(t.categories) == Some(i64::MAX) {
        (t, Err(overflow_error()))
    } else if exists|k: int| 0 <= k < t.categories.len() && t.categories[k].id == new_id {
        (t, Err(AppErrorV::Database("UNIQUE constraint failed: categories.id"@)))
    } else if exists|k: int| 0 <= k < t.categories.len() && t.categories[k].normalized_name == normalized {
        (t, Err(AppErrorV::Database("UNIQUE constraint failed: categories.normalized_name"@)))
    } else {
        let order = match max_sort_order(t.categories) {
            Some(m) => (m + 1) as i64,
            None => 0i64,
        };
        let row = CategoryRowV {
            id: new_id,
            name: n,
            normalized_name: normalized,
            color,
            sort_order: order,
            created_at: now,
            updated_at: now,
        };
        (TablesV { categories: t.categories.push(row), ..t }, Ok(crate::repo::category_of_row(row)))
    }
}

impl Tables {
    fn max_sort_order(&self) -> (r: Option<i64>)
        ensures
            r == max_sort_order(self@.categories),
    {
        let mut m: Option<i64> = None;
        let mut i: usize = 0;
        while i < self.categories.len()
            invariant
                i <= self.categories.len(),
                m == max_sort_order(self@.categories.take(i as int)),
            decreases self.categories.len() - i,
        {
            let o = self.categories[i].sort_order;
            proof {
                assert(self@.categories.take(i + 1).drop_last() == self@.categories.take(i as int));
                assert(self@.categories[i as int].sort_order == o);
            }
            m = match m {
                None => Some(o),
                Some(x) => Some(if o > x {
                    o
                } else {
                    x
                }),
            };
            i = i + 1;
        }
        proof {
            assert(self@.categories.take(i as int) == self@.categories);
        }
        m
    }

    /// Reindexes each note in turn.
    pub fn reindex_each(&mut self, ids: &Vec<String>)
        ensures
            final(self)@ == reindex_all(old(self)@, crate::text::views(ids@)),
    {
        let mut i: usize = 0;
        while i < ids.len()
            invariant
                i <= ids.len(),
                self@ == reindex_all(old(self)@, crate::text::views(ids@).take(i as int)),
            decreases ids.len() - i,
        {
            reindex_note(self, ids[i].as_str());
            proof {
                let v = crate::text::views(ids@);
                assert(v.take(i + 1).drop_last() == v.take(i as int));
                assert(v.take(i + 1).last() == ids@[i as int]@);
            }
            i = i + 1;
        }
        proof {
            assert(crate::text::views(ids@).take(i as int) == crate::text::views(ids@));
        }
    }
}

impl Database {
    /// Creates a category with the id `new_id` at the instant `now`.
    pub fn create_category_at(&mut self, name: &str, color: &str, now: &str, new_id: &str) -> (r: AppResult<crate::models::Category>)
        ensures
            final(self)@ == create_category_spec(old(self)@, name@, color@, now@, new_id@).0,
            match create_category_spec(old(self)@, name@, color@, now@, new_id@).1 {
                Ok(c) => r matches Ok(x) && x@ == c,
                Err(e) => r matches Err(x) && x@ == e,
            },
    {
        let n = crate::text::trim(name);
        if n.as_str().is_empty() {
            return Err(AppError::Validation("分类名称不能为空".to_owned()));
        }
        let m = self.tables.max_sort_order();
        if m == Some(i64::MAX) {
            return Err(AppError::Database("integer overflow".to_owned()));
        }
        let trimmed = crate::text::trim(n.as_str());
        let normalized = crate::text::to_lowercase(trimmed.as_str());
        if any_vec(
            &self.tables.categories,
            (|c: &CategoryRow| -> (b: bool)
                ensures
                    b == (c@.id == new_id@),
                { str_eq(c.id.as_str(), new_id) }),
            Ghost(|c: CategoryRowV| c.id == new_id@),
        ) {
            return Err(AppError::Database("UNIQUE constraint failed: categories.id".to_owned()));
        }
        if any_vec(
            &self.tables.categories,
            (|c: &CategoryRow| -> (b: bool)
                ensures
                    b == (c@.normalized_name == normalized@),
                { str_eq(c.normalized_name.as_str(), normalized.as_str()) }),
            Ghost(|c: CategoryRowV| c.normalized_name == normalized@),
        ) {
            return Err(AppError::Database("UNIQUE constraint failed: categories.normalized_name".to_owned()));
        }
        let order: i64 = match m {
            Some(x) => x + 1,
            None => 0,
        };
        let row = CategoryRow {
            id: new_id.to_owned(),
            name: n.clone(),
            normalized_name: normalized,
            color: color.to_owned(),
            sort_order: order,
            created_at: now.to_owned(),
            updated_at: now.to_owned(),
        };
        let out = crate::models::Category {
            id: row.id.clone(),
            name: row.name.clone(),
            color: row.color.clone(),
            sort_order: row.sort_order,
            created_at: row.created_at.clone(),
            updated_at: row.updated_at.clone(),
        };
        self.tables.categories.push(row);
        assert(self@.categories =~= old(self)@.categories.push(row@));
        Ok(out)
    }

    /// Creates a category with a fresh id, stamped with the current time.
    pub fn create_category(&mut self, name: &str, color: &str) -> (r: AppResult<crate::models::Category>)
        ensures
            exists|now: Seq<char>, id: Seq<char>|
                #![trigger create_category_spec(old(self)@, name@, color@, now, id)]
                final(self)@ == create_category_spec(old(self)@, name@, color@, now, id).0 && match create_category_spec(
                    old(self)@,
                    name@,
                    color@,
                    now,
                    id,
                ).1 {
                    Ok(c) => r matches Ok(x) && x@ == c,
                    Err(e) => r matches Err(x) && x@ == e,
                },
    {
        let now = utc_now_text();
        let id = crate::ids::new_id();
        self.create_category_at(name, color, now.as_str(), id.as_str())
    }

    /// Deletes a category; its notes keep existing without one.
    pub fn delete_category(&mut self, id: &str) -> (r: AppResult<()>)
        ensures
            r is Ok,
            final(self)@ == delete_category_spec(old(self)@, id@),
    {
        let ghost t0 = self@;
        let mut ids: Vec<String> = Vec::new();
        let mut i: usize = 0;
        let ghost p = |r: NoteRowV| r.category_id == Some(id@);
        while i < self.tables.notes.len()
            invariant
                self@ == t0,
                i <= self.tables.notes.len(),
                forall|r: NoteRowV| #[trigger] p(r) == (r.category_id == Some(id@)),
                crate::text::views(ids@) == keep(t0.notes.take(i as int), p).map_values(|r: NoteRowV| r.id),
            decreases self.tables.notes.len() - i,
        {
            let row = &self.tables.notes[i];
            proof {
                assert(t0.notes[i as int] == row@);
                assert(t0.notes.take(i + 1).drop_last() == t0.notes.take(i as int));
            }
            let hit = match &row.category_id {
                Some(c) => str_eq(c.as_str(), id),
                None => false,
            };
            if hit {
                let ghost prev = keep(t0.notes.take(i as int), p);
                let ghost old_ids = ids@;
                ids.push(row.id.clone());
                proof {
                    assert(crate::text::views(ids@) =~= crate::text::views(old_ids).push(row@.id));
                    assert(prev.push(row@).map_values(|r: NoteRowV| r.id) =~= prev.map_values(|r: NoteRowV| r.id).push(row@.id));
                }
            }
            i = i + 1;
        }
        proof {
            assert(t0.notes.take(i as int) == t0.notes);
        }
        let mut rows: Vec<NoteRow> = Vec::new();
        std::mem::swap(&mut rows, &mut self.tables.notes);
        let ghost sf = |r: NoteRowV| if r.category_id == Some(id@) { NoteRowV { category_id: None, ..r } } else { r };
        self.tables.notes = map_vec(
            rows,
            (|n: &NoteRow| -> (m: NoteRow)
                ensures
                    m@ == sf(n@),
                {
                    let mut m = n.dup();
                    let hit = match &n.category_id {
                        Some(c) => str_eq(c.as_str(), id),
                        None => false,
                    };
                    if hit {
                        m.category_id = None;
                    }
                    m
                }),
            Ghost(sf),
        );
        let mut cats: Vec<CategoryRow> = Vec::new();
        std::mem::swap(&mut cats, &mut self.tables.categories);
        self.tables.categories = filter_vec(
            cats,
            (|c: &CategoryRow| -> (b: bool)
                ensures
                    b == (c@.id != id@),
                { !str_eq(c.id.as_str(), id) }),
            Ghost(|c: CategoryRowV| c.id != id@),
        );
        proof {
            assert(self@ =~= TablesV {
                notes: t0.notes.map_values(sf),
                categories: keep(t0.categories, |c: CategoryRowV| c.id != id@),
                ..t0
            });
        }
        self.tables.reindex_each(&ids);
        Ok(())
    }

    /// Deletes a tag and its links.
    pub fn delete_tag(&mut self, id: &str) -> (r: AppResult<()>)
        ensures
            r is Ok,
            final(self)@ == delete_tag_spec(old(self)@, id@),
    {
        let ghost t0 = self@;
        let mut ids: Vec<String> = Vec::new();
        let mut i: usize = 0;
        let ghost p = |l: LinkRowV| l.tag_id == id@;
        while i < self.tables.note_tags.len()
            invariant
                self@ == t0,
                i <= self.tables.note_tags.len(),
                forall|l: LinkRowV| #[trigger] p(l) == (l.tag_id == id@),
                crate::text::views(ids@) == keep(t0.note_tags.take(i as int), p).map_values(|l: LinkRowV| l.note_id),
            decreases self.tables.note_tags.len() - i,
        {
            let l = &self.tables.note_tags[i];
            proof {
                assert(t0.note_tags[i as int] == l@);
                assert(t0.note_tags.take(i + 1).drop_last() == t0.note_tags.take(i as int));
            }
            if str_eq(l.tag_id.as_str(), id) {
                let ghost prev = keep(t0.note_tags.take(i as int), p);
                let ghost old_ids = ids@;
                ids.push(l.note_id.clone());
                proof {
                    assert(crate::text::views(ids@) =~= crate::text::views(old_ids).push(l@.note_id));
                    assert(prev.push(l@).map_values(|l: LinkRowV| l.note_id) =~= prev.map_values(|l: LinkRowV| l.note_id).push(l@.note_id));
                }
            }
            i = i + 1;
        }
        proof {
            assert(t0.note_tags.take(i as int) == t0.note_tags);
        }
        let gone = any_vec(
            &self.tables.tags,
            (|g: &TagRow| -> (b: bool)
                ensures
                    b == (g@.id == id@),
                { str_eq(g.id.as_str(), id) }),
            Ghost(|g: TagRowV| g.id == id@),
        );
        let mut tags: Vec<TagRow> = Vec::new();
        std::mem::swap(&mut tags, &mut self.tables.tags);
        self.tables.tags = filter_vec(
            tags,
            (|g: &TagRow| -> (b: bool)
                ensures
                    b == (g@.id != id@),
                { !str_eq(g.id.as_str(), id) }),
            Ghost(|g: TagRowV| g.id != id@),
        );
        if gone {
            let mut links: Vec<LinkRow> = Vec::new();
            std::mem::swap(&mut links, &mut self.tables.note_tags);
            self.tables.note_tags = filter_vec(
                links,
                (|l: &LinkRow| -> (b: bool)
                    ensures
                        b == (l@.tag_id != id@),
                    { !str_eq(l.tag_id.as_str(), id) }),
                Ghost(|l: LinkRowV| l.tag_id != id@),
            );
        }
        proof {
            let t1 = TablesV { tags: keep(t0.tags, |g: TagRowV| g.id != id@), ..t0 };
            if gone {
                assert(self@ =~= TablesV { note_tags: keep(t1.note_tags, |l: LinkRowV| l.tag_id != id@), ..t1 });
            } else {
                assert(self@ =~= t1);
            }
        }
        self.tables.reindex_each(&ids);
        Ok(())
    }
}

} // verus!
