//! Moving notes in and out: the export envelope, and the import of one (previewed first).

use vstd::prelude::*;
use crate::error::{AppError, AppErrorV, AppResult};
use crate::models::{Category, CategoryV, ExportEnvelope, ExportEnvelopeV, ImportPreview, ImportResult, Note, NoteV, Tag, TagV, note_views};
use crate::repo::{Database, category_of_row, category_order, list_spec, note_pos, tag_of_row, tag_order};
use crate::save::{content_hash, fk_error, missing_category, note_content_hash};
use crate::seqs::{first_index, isort, keep, vw};
use crate::tables::{CategoryRow, CategoryRowV, Dup, LinkRow, LinkRowV, NoteRow, NoteRowV, TagRow, TagRowV, Tables, TablesV};
use crate::text::{lowercase, str_eq, to_lowercase, trim, trim_spec};
use crate::writes::{reindex, reindex_note};
use crate::json::opt_view;

verus! {

// ---------------------------------------------------------------------------
// Export.
// ---------------------------------------------------------------------------

/// No note counts as updated today (the exported views do not ask).
pub open spec fn no_flags(n: nat) -> Seq<bool> {
    Seq::new(n, |i: int| false)
}

/// Every note: those in use, then the archived, then the trashed, each newest first.
pub open spec fn exported_notes(t: TablesV) -> Seq<NoteV> {
    let f = no_flags(t.notes.len());
    list_spec(t, "all"@, 100_000, f) + list_spec(t, "archive"@, 100_000, f) + list_spec(t, "trash"@, 100_000, f)
}

/// The envelope of everything, written by `app_version` at `now`.
pub open spec fn envelope_spec(t: TablesV, app_version: Seq<char>, now: Seq<char>) -> ExportEnvelopeV {
    ExportEnvelopeV {
        schema_version: 1,
        app_version,
        exported_at: now,
        categories: isort(t.categories, |a: CategoryRowV, b: CategoryRowV| category_order(a, b)).map_values(
            |c: CategoryRowV| category_of_row(c),
        ),
        tags: isort(t.tags, |a: TagRowV, b: TagRowV| tag_order(a, b)).map_values(|g: TagRowV| tag_of_row(g)),
        notes: exported_notes(t),
    }
}

impl Database {
    fn no_flags_vec(&self) -> (r: Vec<bool>)
        ensures
            r@ == no_flags(self@.notes.len()),
    {
        let mut v: Vec<bool> = Vec::new();
        let mut i: usize = 0;
        while i < self.tables.notes.len()
            invariant
                i <= self.tables.notes.len(),
                v@ == no_flags(i as nat),
            decreases self.tables.notes.len() - i,
        {
            v.push(false);
            i = i + 1;
            assert(v@ =~= no_flags(i as nat));
        }
        v
    }

    /// Everything the store holds, as an envelope written by `app_version` at `now`.
    pub fn export_envelope_at(&self, app_version: &str, now: &str) -> (r: AppResult<ExportEnvelope>)
        ensures
            r matches Ok(e) && e@ == envelope_spec(self@, app_version@, now@),
    {
        let flags = self.no_flags_vec();
        let mut notes = self.list_notes_with_days("all", 100_000, &flags);
        let mut archived = self.list_notes_with_days("archive", 100_000, &flags);
        let mut trash = self.list_notes_with_days("trash", 100_000, &flags);
        let ghost a = note_views(notes@);
        let ghost b = note_views(archived@);
        let ghost c = note_views(trash@);
        notes.append(&mut archived);
        notes.append(&mut trash);
        assert(note_views(notes@) =~= a + b + c);
        let categories = match self.list_categories() {
            Ok(v) => v,
            Err(e) => {
                return Err(e);
            },
        };
        let tags = match self.list_tags() {
            Ok(v) => v,
            Err(e) => {
                return Err(e);
            },
        };
        let e = ExportEnvelope {
            schema_version: 1,
            app_version: app_version.to_owned(),
            exported_at: now.to_owned(),
            categories,
            tags,
            notes,
        };
        assert(e@ =~= envelope_spec(self@, app_version@, now@));
        Ok(e)
    }

    /// Everything the store holds, as an envelope written now by `app_version`.
    pub fn export_envelope(&self, app_version: &str) -> (r: AppResult<ExportEnvelope>)
        ensures
            r matches Ok(e) && e@ == envelope_spec(self@, app_version@, e@.exported_at),
    {
        let now = crate::dates::utc_now_text();
        self.export_envelope_at(app_version, now.as_str())
    }
}

// ---------------------------------------------------------------------------
// Preview.
// ---------------------------------------------------------------------------

/// The envelope's version is not the one this store reads.
pub open spec fn version_error() -> AppErrorV {
    AppErrorV::Validation("不支持的 JSON 数据版本"@)
}

/// A stored note has the imported note's id.
pub open spec fn id_stored(t: TablesV, n: NoteV) -> bool {
    note_pos(t, n.id) >= 0
}

/// A stored note has the imported note's id, title and content: importing it changes nothing.
pub open spec fn same_stored(t: TablesV, n: NoteV) -> bool {
    let p = note_pos(t, n.id);
    p >= 0 && t.notes[p].title == n.title && t.notes[p].content == n.content
}

/// What an import of the envelope would do, note by note, against the store as it is.
pub open spec fn preview_spec(t: TablesV, e: ExportEnvelopeV) -> Result<ImportPreview, AppErrorV> {
    if e.schema_version != 1 {
        Err(version_error())
    } else {
        let create = keep(e.notes, |n: NoteV| !id_stored(t, n)).len();
        let skip = keep(e.notes, |n: NoteV| same_stored(t, n)).len();
        let conflict = keep(e.notes, |n: NoteV| id_stored(t, n) && !same_stored(t, n)).len();
        Ok(
            ImportPreview {
                notes_to_create: create as usize,
                duplicates_to_skip: skip as usize,
                conflicts_as_copies: conflict as usize,
                categories_to_merge: e.categories.len() as usize,
                tags_to_merge: e.tags.len() as usize,
            },
        )
    }
}

impl Tables {
    /// Whether the note's id is stored, and whether with the same title and content.
    fn stored_as(&self, n: &Note) -> (r: (bool, bool))
        ensures
            r.0 == id_stored(self@, n@),
            r.1 == same_stored(self@, n@),
    {
        match self.note_index(n.id.as_str()) {
            None => (false, false),
            Some(i) => {
                let row = &self.notes[i];
                assert(self@.notes[i as int] == row@);
                (true, str_eq(row.title.as_str(), n.title.as_str()) && str_eq(row.content.as_str(), n.content.as_str()))
            },
        }
    }
}

impl Database {
    /// How many notes an import of the envelope would create, skip as duplicates and copy
    /// as conflicts, and how many categories and tags it would merge.
    pub fn preview_import(&self, envelope: &ExportEnvelope) -> (r: AppResult<ImportPreview>)
        ensures
            match preview_spec(self@, envelope@) {
                Ok(p) => r == Ok::<ImportPreview, AppError>(p),
                Err(e) => r matches Err(x) && x@ == e,
            },
    {
        if envelope.schema_version != 1 {
            return Err(AppError::Validation("不支持的 JSON 数据版本".to_owned()));
        }
        let ghost t = self@;
        let ghost ns = envelope@.notes;
        let ghost pc = |n: NoteV| !id_stored(t, n);
        let ghost ps = |n: NoteV| same_stored(t, n);
        let ghost pk = |n: NoteV| id_stored(t, n) && !same_stored(t, n);
        let mut create: usize = 0;
        let mut skip: usize = 0;
        let mut conflict: usize = 0;
        let mut i: usize = 0;
        while i < envelope.notes.len()
            invariant
                i <= envelope.notes.len(),
                t == self@,
                ns == envelope@.notes,
                ns.len() == envelope.notes.len(),
                pc == (|n: NoteV| !id_stored(t, n)),
                ps == (|n: NoteV| same_stored(t, n)),
                pk == (|n: NoteV| id_stored(t, n) && !same_stored(t, n)),
                create == keep(ns.take(i as int), pc).len(),
                skip == keep(ns.take(i as int), ps).len(),
                conflict == keep(ns.take(i as int), pk).len(),
                create + skip + conflict == i,
            decreases envelope.notes.len() - i,
        {
            let n = &envelope.notes[i];
            proof {
                assert(ns.take(i + 1).drop_last() == ns.take(i as int));
                assert(ns.take(i + 1).last() == n@);
                assert(ns[i as int] == n@);
            }
            let (stored, same) = self.tables.stored_as(n);
            proof {
                if same {
                    assert(stored);
                }
            }
            if !stored {
                create = create + 1;
            } else if same {
                skip = skip + 1;
            } else {
                conflict = conflict + 1;
            }
            i = i + 1;
        }
        proof {
            assert(ns.take(i as int) == ns);
        }
        Ok(
            ImportPreview {
                notes_to_create: create,
                duplicates_to_skip: skip,
                conflicts_as_copies: conflict,
                categories_to_merge: envelope.categories.len(),
                tags_to_merge: envelope.tags.len(),
            },
        )
    }
}


// ---------------------------------------------------------------------------
// Import.
// ---------------------------------------------------------------------------

/// `normalize`: trimmed and lowercased.
pub open spec fn normalize(s: Seq<char>) -> Seq<char> {
    lowercase(trim_spec(s))
}

/// The id an envelope's category id was mapped to: the last mapping of it.
pub open spec fn mapped(map: Seq<(Seq<char>, Seq<char>)>, id: Seq<char>) -> Option<Seq<char>>
    decreases map.len(),
{
    if map.len() == 0 {
        None
    } else if map.last().0 == id {
        Some(map.last().1)
    } else {
        mapped(map.drop_last(), id)
    }
}

pub open spec fn category_id_taken(t: TablesV, id: Seq<char>) -> bool {
    exists|k: int| 0 <= k < t.categories.len() && #[trigger] t.categories[k].id == id
}

/// The state of an import: the tables so far, the category ids mapped, the fresh ids used
/// and the counts.
#[verifier::ext_equal]
pub struct ImportStateV {
    pub t: TablesV,
    pub map: Seq<(Seq<char>, Seq<char>)>,
    pub used: nat,
    pub created: nat,
    pub skipped: nat,
    pub copied: nat,
}

/// One category of the envelope: the local category with its normalized name, else a new
/// one under the next fresh id (not inserted when its id or name is taken); the envelope's
/// id maps to the local id.
pub open spec fn merge_category(st: ImportStateV, c: CategoryV, now: Seq<char>, ids: Seq<Seq<char>>) -> ImportStateV {
    let norm = normalize(c.name);
    let i = first_index(st.t.categories, |r: CategoryRowV| r.normalized_name == norm);
    let local = if i >= 0 {
        st.t.categories[i].id
    } else {
        ids[st.used as int]
    };
    let used = if i >= 0 {
        st.used
    } else {
        st.used + 1
    };
    let t2 = if i >= 0 || category_id_taken(st.t, local) {
        st.t
    } else {
        TablesV {
            categories: st.t.categories.push(
                CategoryRowV {
                    id: local,
                    name: c.name,
                    normalized_name: norm,
                    color: c.color,
                    sort_order: c.sort_order,
                    created_at: now,
                    updated_at: now,
                },
            ),
            ..st.t
        }
    };
    ImportStateV { t: t2, map: st.map.push((c.id, local)), used: used as nat, ..st }
}

pub open spec fn merge_categories(
    st: ImportStateV,
    cs: Seq<CategoryV>,
    now: Seq<char>,
    ids: Seq<Seq<char>>,
) -> ImportStateV
    decreases cs.len(),
{
    if cs.len() == 0 {
        st
    } else {
        merge_category(merge_categories(st, cs.drop_last(), now, ids), cs.last(), now, ids)
    }
}

pub open spec fn tag_id_taken(t: TablesV, id: Seq<char>) -> bool {
    exists|k: int| 0 <= k < t.tags.len() && #[trigger] t.tags[k].id == id
}

/// `ensure_tag` and the link of note `id` to it (`INSERT OR IGNORE`).
pub open spec fn link_tag(
    st: ImportStateV,
    id: Seq<char>,
    g: TagV,
    now: Seq<char>,
    ids: Seq<Seq<char>>,
) -> Result<ImportStateV, AppErrorV> {
    let norm = normalize(g.name);
    let i = first_index(st.t.tags, |r: TagRowV| r.normalized_name == norm);
    if norm.len() == 0 {
        Err(AppErrorV::Validation("标签名称不能为空"@))
    } else if i < 0 && tag_id_taken(st.t, ids[st.used as int]) {
        Err(AppErrorV::Database("UNIQUE constraint failed: tags.id"@))
    } else {
        let tid = if i >= 0 {
            st.t.tags[i].id
        } else {
            ids[st.used as int]
        };
        let t1 = if i >= 0 {
            st.t
        } else {
            TablesV {
                tags: st.t.tags.push(
                    TagRowV { id: tid, name: trim_spec(g.name), normalized_name: norm, created_at: now, updated_at: now },
                ),
                ..st.t
            }
        };
        let link = LinkRowV { note_id: id, tag_id: tid };
        let t2 = if t1.note_tags.contains(link) {
            t1
        } else {
            TablesV { note_tags: t1.note_tags.push(link), ..t1 }
        };
        Ok(
            ImportStateV {
                t: t2,
                used: if i >= 0 {
                    st.used
                } else {
                    st.used + 1
                },
                ..st
            },
        )
    }
}

pub open spec fn link_tags(
    st: ImportStateV,
    id: Seq<char>,
    gs: Seq<TagV>,
    now: Seq<char>,
    ids: Seq<Seq<char>>,
) -> Result<ImportStateV, AppErrorV>
    decreases gs.len(),
{
    if gs.len() == 0 {
        Ok(st)
    } else {
        match link_tags(st, id, gs.drop_last(), now, ids) {
            Err(e) => Err(e),
            Ok(s1) => link_tag(s1, id, gs.last(), now, ids),
        }
    }
}

/// The row an imported note is stored as.
pub open spec fn imported_row(id: Seq<char>, n: NoteV, category: Option<Seq<char>>, now: Seq<char>) -> NoteRowV {
    NoteRowV {
        id,
        title: n.title,
        content: n.content,
        category_id: category,
        is_favorite: n.is_favorite,
        is_todo: n.is_todo,
        todo_status: n.todo_status,
        priority: n.priority,
        due_date: n.due_date,
        completed_at: n.completed_at,
        source: "import"@,
        revision: 0,
        content_hash: content_hash(n.title, n.content),
        created_at: n.created_at,
        updated_at: now,
        deleted_at: n.deleted_at,
        archived_at: n.archived_at,
    }
}

/// One note of the envelope: skipped when stored unchanged; otherwise stored under its own
/// id, or under the next fresh id when its id is taken (a copy), with its category mapped,
/// its tags linked and the index refreshed.
pub open spec fn import_note(
    st: ImportStateV,
    n: NoteV,
    now: Seq<char>,
    ids: Seq<Seq<char>>,
) -> Result<ImportStateV, AppErrorV> {
    if same_stored(st.t, n) {
        Ok(ImportStateV { skipped: st.skipped + 1, ..st })
    } else {
        let copy = id_stored(st.t, n);
        let id = if copy {
            ids[st.used as int]
        } else {
            n.id
        };
        let st1 = if copy {
            ImportStateV { used: st.used + 1, copied: st.copied + 1, ..st }
        } else {
            ImportStateV { created: st.created + 1, ..st }
        };
        let category = match n.category_id {
            Some(c) => mapped(st.map, c),
            None => None,
        };
        if note_pos(st.t, id) >= 0 {
            Err(AppErrorV::Database("UNIQUE constraint failed: notes.id"@))
        } else if missing_category(st.t, category) {
            Err(fk_error())
        } else {
            let st2 = ImportStateV {
                t: TablesV { notes: st.t.notes.push(imported_row(id, n, category, now)), ..st.t },
                ..st1
            };
            match link_tags(st2, id, n.tags, now, ids) {
                Err(e) => Err(e),
                Ok(s3) => Ok(ImportStateV { t: reindex(s3.t, id), ..s3 }),
            }
        }
    }
}

pub open spec fn import_notes(
    st: ImportStateV,
    ns: Seq<NoteV>,
    now: Seq<char>,
    ids: Seq<Seq<char>>,
) -> Result<ImportStateV, AppErrorV>
    decreases ns.len(),
{
    if ns.len() == 0 {
        Ok(st)
    } else {
        match import_notes(st, ns.drop_last(), now, ids) {
            Err(e) => Err(e),
            Ok(s1) => import_note(s1, ns.last(), now, ids),
        }
    }
}

/// How many fresh ids an import may draw: one per category, per note and per tag of a note.
pub open spec fn tag_count(ns: Seq<NoteV>) -> nat
    decreases ns.len(),
{
    if ns.len() == 0 {
        0
    } else {
        tag_count(ns.drop_last()) + ns.last().tags.len()
    }
}

pub open spec fn ids_needed(e: ExportEnvelopeV) -> nat {
    e.categories.len() + e.notes.len() + tag_count(e.notes)
}

/// `import_json` at `now` drawing fresh ids from `ids` in order: the categories merged,
/// then the notes imported; on an error nothing changes.
pub open spec fn import_spec(
    t: TablesV,
    e: ExportEnvelopeV,
    now: Seq<char>,
    ids: Seq<Seq<char>>,
) -> (TablesV, Result<ImportResult, AppErrorV>) {
    if e.schema_version != 1 {
        (t, Err(version_error()))
    } else {
        let start = ImportStateV { t, map: seq![], used: 0, created: 0, skipped: 0, copied: 0 };
        let m = merge_categories(start, e.categories, now, ids);
        match import_notes(m, e.notes, now, ids) {
            Err(err) => (t, Err(err)),
            Ok(st) => (
                st.t,
                Ok(
                    ImportResult {
                        created: st.created as usize,
                        skipped: st.skipped as usize,
                        copied_conflicts: st.copied as usize,
                    },
                ),
            ),
        }
    }
}


proof fn lemma_link_error_stays(
    st: ImportStateV,
    id: Seq<char>,
    gs: Seq<TagV>,
    now: Seq<char>,
    ids: Seq<Seq<char>>,
    k: int,
    m: int,
)
    requires
        0 <= k <= m <= gs.len(),
        link_tags(st, id, gs.take(k), now, ids) is Err,
    ensures
        link_tags(st, id, gs.take(m), now, ids) == link_tags(st, id, gs.take(k), now, ids),
    decreases m - k,
{
    if k < m {
        lemma_link_error_stays(st, id, gs, now, ids, k, m - 1);
        assert(gs.take(m).drop_last() == gs.take(m - 1));
    }
}

proof fn lemma_import_error_stays(
    st: ImportStateV,
    ns: Seq<NoteV>,
    now: Seq<char>,
    ids: Seq<Seq<char>>,
    k: int,
    m: int,
)
    requires
        0 <= k <= m <= ns.len(),
        import_notes(st, ns.take(k), now, ids) is Err,
    ensures
        import_notes(st, ns.take(m), now, ids) == import_notes(st, ns.take(k), now, ids),
    decreases m - k,
{
    if k < m {
        lemma_import_error_stays(st, ns, now, ids, k, m - 1);
        assert(ns.take(m).drop_last() == ns.take(m - 1));
    }
}

/// An import in progress.
struct Importer {
    t: Tables,
    map: Vec<(String, String)>,
    used: usize,
    created: usize,
    skipped: usize,
    copied: usize,
}

impl View for Importer {
    type V = ImportStateV;

    closed spec fn view(&self) -> ImportStateV {
        ImportStateV {
            t: self.t@,
            map: vw(self.map@),
            used: self.used as nat,
            created: self.created as nat,
            skipped: self.skipped as nat,
            copied: self.copied as nat,
        }
    }
}

fn lookup_mapped(map: &Vec<(String, String)>, id: &str) -> (r: Option<String>)
    ensures
        opt_view(r) == mapped(vw(map@), id@),
{
    let ghost m = vw(map@);
    let mut i: usize = map.len();
    assert(m.take(i as int) == m);
    while i > 0
        invariant
            i <= map.len(),
            m == vw(map@),
            mapped(m, id@) == mapped(m.take(i as int), id@),
        decreases i,
    {
        let ghost pre = m.take(i as int);
        proof {
            assert(pre.drop_last() == m.take(i - 1));
            assert(pre.last() == m[i - 1]);
        }
        if str_eq(map[i - 1].0.as_str(), id) {
            return Some(map[i - 1].1.clone());
        }
        i = i - 1;
    }
    proof {
        assert(m.take(0) =~= seq![]);
    }
    None
}

fn find_category_named(t: &Tables, norm: &str) -> (r: Option<usize>)
    ensures
        match r {
            Some(i) => i < t.categories.len() && first_index(t@.categories, |c: CategoryRowV| c.normalized_name == norm@) == i,
            None => first_index(t@.categories, |c: CategoryRowV| c.normalized_name == norm@) == -1,
        },
{
    crate::seqs::find_first(
        &t.categories,
        (|c: &CategoryRow| -> (b: bool)
            ensures
                b == (c@.normalized_name == norm@),
            { str_eq(c.normalized_name.as_str(), norm) }),
        Ghost(|c: CategoryRowV| c.normalized_name == norm@),
    )
}

fn find_tag_named(t: &Tables, norm: &str) -> (r: Option<usize>)
    ensures
        match r {
            Some(i) => i < t.tags.len() && first_index(t@.tags, |g: TagRowV| g.normalized_name == norm@) == i,
            None => first_index(t@.tags, |g: TagRowV| g.normalized_name == norm@) == -1,
        },
{
    crate::seqs::find_first(
        &t.tags,
        (|g: &TagRow| -> (b: bool)
            ensures
                b == (g@.normalized_name == norm@),
            { str_eq(g.normalized_name.as_str(), norm) }),
        Ghost(|g: TagRowV| g.normalized_name == norm@),
    )
}

fn category_id_in(t: &Tables, id: &str) -> (r: bool)
    ensures
        r == category_id_taken(t@, id@),
{
    let mut i: usize = 0;
    while i < t.categories.len()
        invariant
            i <= t.categories.len(),
            forall|j: int| 0 <= j < i ==> #[trigger] t@.categories[j].id != id@,
        decreases t.categories.len() - i,
    {
        if str_eq(t.categories[i].id.as_str(), id) {
            assert(t@.categories[i as int].id == id@);
            return true;
        }
        i = i + 1;
    }
    false
}

fn tag_id_in(t: &Tables, id: &str) -> (r: bool)
    ensures
        r == tag_id_taken(t@, id@),
{
    let mut i: usize = 0;
    while i < t.tags.len()
        invariant
            i <= t.tags.len(),
            forall|j: int| 0 <= j < i ==> #[trigger] t@.tags[j].id != id@,
        decreases t.tags.len() - i,
    {
        if str_eq(t.tags[i].id.as_str(), id) {
            assert(t@.tags[i as int].id == id@);
            return true;
        }
        i = i + 1;
    }
    false
}

fn link_in(t: &Tables, note_id: &str, tag_id: &str) -> (r: bool)
    ensures
        r == t@.note_tags.contains(LinkRowV { note_id: note_id@, tag_id: tag_id@ }),
{
    let ghost l = LinkRowV { note_id: note_id@, tag_id: tag_id@ };
    let mut i: usize = 0;
    while i < t.note_tags.len()
        invariant
            i <= t.note_tags.len(),
            l == (LinkRowV { note_id: note_id@, tag_id: tag_id@ }),
            forall|j: int| 0 <= j < i ==> #[trigger] t@.note_tags[j] != l,
        decreases t.note_tags.len() - i,
    {
        if str_eq(t.note_tags[i].note_id.as_str(), note_id) && str_eq(t.note_tags[i].tag_id.as_str(), tag_id) {
            assert(t@.note_tags[i as int] == l);
            return true;
        }
        i = i + 1;
    }
    false
}

/// `normalize`.
fn normalized(s: &str) -> (r: String)
    ensures
        r@ == normalize(s@),
{
    let t = trim(s);
    to_lowercase(t.as_str())
}

impl Importer {
    fn merge_category(&mut self, c: &Category, now: &str, ids: &Vec<String>)
        requires
            old(self).used < ids.len(),
        ensures
            final(self)@ == merge_category(old(self)@, c@, now@, crate::text::views(ids@)),
            final(self).used <= old(self).used + 1,
            final(self).created == old(self).created,
            final(self).skipped == old(self).skipped,
            final(self).copied == old(self).copied,
    {
        let norm = normalized(c.name.as_str());
        let found = find_category_named(&self.t, norm.as_str());
        let local = match found {
            Some(i) => self.t.categories[i].id.clone(),
            None => ids[self.used].clone(),
        };
        proof {
            if found is Some {
                assert(self@.t.categories[found.unwrap() as int].id == local@);
            }
        }
        let taken = category_id_in(&self.t, local.as_str());
        if found.is_none() && !taken {
            self.t.categories.push(
                CategoryRow {
                    id: local.clone(),
                    name: c.name.clone(),
                    normalized_name: norm,
                    color: c.color.clone(),
                    sort_order: c.sort_order,
                    created_at: now.to_owned(),
                    updated_at: now.to_owned(),
                },
            );
        }
        if found.is_none() {
            self.used = self.used + 1;
        }
        self.map.push((c.id.clone(), local));
        assert(self@ =~= merge_category(old(self)@, c@, now@, crate::text::views(ids@)));
    }

    fn link_tag(&mut self, id: &str, g: &Tag, now: &str, ids: &Vec<String>) -> (r: Result<(), AppError>)
        requires
            old(self).used < ids.len(),
        ensures
            match link_tag(old(self)@, id@, g@, now@, crate::text::views(ids@)) {
                Ok(s) => r is Ok && final(self)@ == s,
                Err(e) => r matches Err(x) && x@ == e,
            },
            final(self).used <= old(self).used + 1,
    {
        let norm = normalized(g.name.as_str());
        if norm.as_str().is_empty() {
            return Err(AppError::Validation("标签名称不能为空".to_owned()));
        }
        let found = find_tag_named(&self.t, norm.as_str());
        let tid = match found {
            Some(i) => self.t.tags[i].id.clone(),
            None => {
                if tag_id_in(&self.t, ids[self.used].as_str()) {
                    return Err(AppError::Database("UNIQUE constraint failed: tags.id".to_owned()));
                }
                let fresh = ids[self.used].clone();
                self.t.tags.push(
                    TagRow {
                        id: fresh.clone(),
                        name: trim(g.name.as_str()),
                        normalized_name: norm,
                        created_at: now.to_owned(),
                        updated_at: now.to_owned(),
                    },
                );
                self.used = self.used + 1;
                fresh
            },
        };
        proof {
            if found is Some {
                assert(old(self)@.t.tags[found.unwrap() as int].id == tid@);
            }
        }
        if !link_in(&self.t, id, tid.as_str()) {
            self.t.note_tags.push(LinkRow { note_id: id.to_owned(), tag_id: tid });
        }
        proof {
            match link_tag(old(self)@, id@, g@, now@, crate::text::views(ids@)) {
                Ok(x) => {
                    assert(self@ =~= x);
                },
                Err(_) => {},
            }
        }
        Ok(())
    }

    fn import_note(&mut self, n: &Note, now: &str, ids: &Vec<String>) -> (r: Result<(), AppError>)
        requires
            old(self).used + 1 + n.tags.len() <= ids.len(),
            old(self).created + old(self).skipped + old(self).copied < usize::MAX,
        ensures
            match import_note(old(self)@, n@, now@, crate::text::views(ids@)) {
                Ok(s) => r is Ok && final(self)@ == s,
                Err(e) => r matches Err(x) && x@ == e,
            },
            final(self).used <= old(self).used + 1 + n.tags.len(),
            r is Ok ==> final(self).created + final(self).skipped + final(self).copied == old(self).created
                + old(self).skipped + old(self).copied + 1,
    {
        let ghost s0 = self@;
        let ghost u0 = self.used;
        let (stored, same) = self.t.stored_as(n);
        if same {
            self.skipped = self.skipped + 1;
            assert(self@ =~= ImportStateV { skipped: s0.skipped + 1, ..s0 });
            return Ok(());
        }
        let id = if stored {
            let x = ids[self.used].clone();
            self.used = self.used + 1;
            self.copied = self.copied + 1;
            x
        } else {
            self.created = self.created + 1;
            n.id.clone()
        };
        let ghost sid = if stored {
            crate::text::views(ids@)[s0.used as int]
        } else {
            n@.id
        };
        let ghost st1 = if stored {
            ImportStateV { used: s0.used + 1, copied: s0.copied + 1, ..s0 }
        } else {
            ImportStateV { created: s0.created + 1, ..s0 }
        };
        assert(id@ == sid);
        assert(self@ =~= st1);
        let category = match &n.category_id {
            Some(c) => lookup_mapped(&self.map, c.as_str()),
            None => None,
        };
        let ghost scat = match n@.category_id {
            Some(c) => mapped(s0.map, c),
            None => None,
        };
        assert(opt_view(category) == scat);
        if self.t.note_index(id.as_str()).is_some() {
            return Err(AppError::Database("UNIQUE constraint failed: notes.id".to_owned()));
        }
        if !self.t.category_exists(&category) {
            return Err(AppError::Database("FOREIGN KEY constraint failed".to_owned()));
        }
        let row = NoteRow {
            id: id.clone(),
            title: n.title.clone(),
            content: n.content.clone(),
            category_id: category,
            is_favorite: n.is_favorite,
            is_todo: n.is_todo,
            todo_status: n.todo_status.clone(),
            priority: n.priority.clone(),
            due_date: crate::models::dup_opt_string(&n.due_date),
            completed_at: crate::models::dup_opt_string(&n.completed_at),
            source: "import".to_owned(),
            revision: 0,
            content_hash: note_content_hash(n.title.as_str(), n.content.as_str()),
            created_at: n.created_at.clone(),
            updated_at: now.to_owned(),
            deleted_at: crate::models::dup_opt_string(&n.deleted_at),
            archived_at: crate::models::dup_opt_string(&n.archived_at),
        };
        assert(row@ =~= imported_row(sid, n@, scat, now@));
        self.t.notes.push(row);
        let ghost st2 = self@;
        assert(st2 =~= ImportStateV {
            t: TablesV { notes: s0.t.notes.push(imported_row(sid, n@, scat, now@)), ..s0.t },
            ..st1
        });
        let ghost gs = n@.tags;
        let ghost iv = crate::text::views(ids@);
        let ghost base_used = self.used;
        assert(gs.take(0) =~= seq![]);
        assert(import_note(s0, n@, now@, iv) == match link_tags(st2, id@, gs, now@, iv) {
            Err(e) => Err(e),
            Ok(s3) => Ok(ImportStateV { t: reindex(s3.t, id@), ..s3 }),
        });
        let mut j: usize = 0;
        while j < n.tags.len()
            invariant
                j <= n.tags.len(),
                gs == n@.tags,
                gs.len() == n.tags.len(),
                iv == crate::text::views(ids@),
                base_used <= u0 + 1,
                u0 == old(self).used,
                s0 == old(self)@,
                import_note(s0, n@, now@, iv) == match link_tags(st2, id@, gs, now@, iv) {
                    Err(e) => Err(e),
                    Ok(s3) => Ok(ImportStateV { t: reindex(s3.t, id@), ..s3 }),
                },
                base_used + n.tags.len() <= ids.len(),
                self.used <= base_used + j,
                self.created == st2.created,
                self.skipped == st2.skipped,
                self.copied == st2.copied,
                link_tags(st2, id@, gs.take(j as int), now@, iv) == Ok::<ImportStateV, AppErrorV>(self@),
            decreases n.tags.len() - j,
        {
            proof {
                assert(gs.take(j + 1).drop_last() == gs.take(j as int));
                assert(gs.take(j + 1).last() == n.tags@[j as int]@);
            }
            match self.link_tag(id.as_str(), &n.tags[j], now, ids) {
                Ok(()) => {},
                Err(e) => {
                    proof {
                        lemma_link_error_stays(st2, id@, gs, now@, iv, j + 1, gs.len() as int);
                        assert(gs.take(gs.len() as int) == gs);
                    }
                    return Err(e);
                },
            }
            j = j + 1;
        }
        proof {
            assert(gs.take(j as int) == gs);
        }
        let ghost s3 = self@;
        reindex_note(&mut self.t, id.as_str());
        assert(self@ =~= ImportStateV { t: reindex(s3.t, id@), ..s3 });
        Ok(())
    }
}

impl Database {
    /// Imports an envelope at `now`, drawing fresh ids from `ids` in order, in one
    /// transaction: categories are merged by name, unchanged notes skipped, notes whose id
    /// is taken stored as copies under fresh ids.
    pub fn import_envelope_at(&mut self, envelope: &ExportEnvelope, now: &str, ids: &Vec<String>) -> (r: AppResult<ImportResult>)
        requires
            ids.len() >= ids_needed(envelope@),
        ensures
            final(self)@ == import_spec(old(self)@, envelope@, now@, crate::text::views(ids@)).0,
            match import_spec(old(self)@, envelope@, now@, crate::text::views(ids@)).1 {
                Ok(v) => r == Ok::<ImportResult, AppError>(v),
                Err(e) => r matches Err(x) && x@ == e,
            },
    {
        if envelope.schema_version != 1 {
            return Err(AppError::Validation("不支持的 JSON 数据版本".to_owned()));
        }
        let ghost iv = crate::text::views(ids@);
        let ghost e = envelope@;
        let mut st = Importer { t: self.tables.dup(), map: Vec::new(), used: 0, created: 0, skipped: 0, copied: 0 };
        let ghost start = ImportStateV { t: old(self)@, map: seq![], used: 0, created: 0, skipped: 0, copied: 0 };
        assert(st@ =~= start);
        let mut i: usize = 0;
        assert(e.categories.take(0) =~= seq![]);
        while i < envelope.categories.len()
            invariant
                i <= envelope.categories.len(),
                e == envelope@,
                e.categories.len() == envelope.categories.len(),
                iv == crate::text::views(ids@),
                ids.len() >= ids_needed(e),
                st.used <= i,
                st.created == 0 && st.skipped == 0 && st.copied == 0,
                st@ == merge_categories(start, e.categories.take(i as int), now@, iv),
            decreases envelope.categories.len() - i,
        {
            proof {
                assert(e.categories.take(i + 1).drop_last() == e.categories.take(i as int));
                assert(e.categories.take(i + 1).last() == envelope.categories@[i as int]@);
            }
            st.merge_category(&envelope.categories[i], now, ids);
            i = i + 1;
        }
        proof {
            assert(e.categories.take(i as int) == e.categories);
        }
        let ghost m = st@;
        let ghost base_used = st.used;
        let ghost ns = e.notes;
        let mut k: usize = 0;
        assert(ns.take(0) =~= seq![]);
        while k < envelope.notes.len()
            invariant
                k <= envelope.notes.len(),
                e == envelope@,
                ns == e.notes,
                ns.len() == envelope.notes.len(),
                iv == crate::text::views(ids@),
                ids.len() >= ids_needed(e),
                base_used <= e.categories.len(),
                e.schema_version == 1,
                m == merge_categories(
                    ImportStateV { t: old(self)@, map: seq![], used: 0, created: 0, skipped: 0, copied: 0 },
                    e.categories,
                    now@,
                    iv,
                ),
                st.used <= base_used + k + tag_count(ns.take(k as int)),
                st.created + st.skipped + st.copied == k,
                import_notes(m, ns.take(k as int), now@, iv) == Ok::<ImportStateV, AppErrorV>(st@),
            decreases envelope.notes.len() - k,
        {
            proof {
                assert(ns.take(k + 1).drop_last() == ns.take(k as int));
                assert(ns.take(k + 1).last() == envelope.notes@[k as int]@);
                lemma_tag_count_prefix(ns, k as int + 1);
            }
            match st.import_note(&envelope.notes[k], now, ids) {
                Ok(()) => {},
                Err(err) => {
                    proof {
                        lemma_import_error_stays(m, ns, now@, iv, k + 1, ns.len() as int);
                        assert(ns.take(ns.len() as int) == ns);
                        assert(import_spec(old(self)@, e, now@, iv).1 == Err::<ImportResult, AppErrorV>(err@));
                    }
                    return Err(err);
                },
            }
            k = k + 1;
        }
        proof {
            assert(ns.take(k as int) == ns);
        }
        self.tables = st.t;
        Ok(ImportResult { created: st.created, skipped: st.skipped, copied_conflicts: st.copied })
    }

    /// Imports an envelope now, with fresh ids.
    pub fn import_envelope(&mut self, envelope: &ExportEnvelope) -> (r: AppResult<ImportResult>)
        requires
            ids_needed(envelope@) <= usize::MAX,
        ensures
            exists|now: Seq<char>, ids: Seq<Seq<char>>|
                #![trigger import_spec(old(self)@, envelope@, now, ids)]
                ids.len() >= ids_needed(envelope@) && final(self)@ == import_spec(old(self)@, envelope@, now, ids).0
                    && match import_spec(old(self)@, envelope@, now, ids).1 {
                    Ok(v) => r == Ok::<ImportResult, AppError>(v),
                    Err(e) => r matches Err(x) && x@ == e,
                },
    {
        let now = crate::dates::utc_now_text();
        let mut count: usize = envelope.categories.len();
        let mut k: usize = 0;
        let ghost e = envelope@;
        while k < envelope.notes.len()
            invariant
                k <= envelope.notes.len(),
                e == envelope@,
                ids_needed(e) <= usize::MAX,
                count == e.categories.len() + k + tag_count(e.notes.take(k as int)),
            decreases envelope.notes.len() - k,
        {
            proof {
                assert(e.notes.take(k + 1).drop_last() == e.notes.take(k as int));
                assert(e.notes.take(k + 1).last() == envelope.notes@[k as int]@);
                lemma_tag_count_prefix(e.notes, k + 1);
            }
            count = count + 1 + envelope.notes[k].tags.len();
            k = k + 1;
        }
        proof {
            assert(e.notes.take(k as int) == e.notes);
        }
        let mut ids: Vec<String> = Vec::new();
        let mut j: usize = 0;
        while j < count
            invariant
                j <= count,
                ids.len() == j,
            decreases count - j,
        {
            ids.push(crate::ids::new_id());
            j = j + 1;
        }
        self.import_envelope_at(envelope, now.as_str(), &ids)
    }
}

proof fn lemma_tag_count_prefix(ns: Seq<NoteV>, k: int)
    requires
        0 <= k <= ns.len(),
    ensures
        tag_count(ns.take(k)) <= tag_count(ns),
    decreases ns.len() - k,
{
    if k < ns.len() {
        lemma_tag_count_prefix(ns, k + 1);
        assert(ns.take(k + 1).drop_last() == ns.take(k));
    } else {
        assert(ns.take(k) == ns);
    }
}

} // verus!
