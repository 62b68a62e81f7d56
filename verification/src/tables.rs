//! The repository's tables: rows as the store holds them, with their views.

use vstd::prelude::*;
use crate::json::opt_view;
use crate::models::{Confidence, Suggestion, SuggestionV};
use crate::models::dup_opt_string;
use crate::seqs::vw;

verus! {

/// A value whose copy has the same view.
pub trait Dup: View + Sized {
    fn dup(&self) -> (r: Self)
        ensures
            r@ == self@,
    ;
}

/// Copies a vector element by element.
pub fn dup_vec<T: Dup>(v: &Vec<T>) -> (r: Vec<T>)
    ensures
        vw(r@) == vw(v@),
{
    let mut out: Vec<T> = Vec::new();
    let mut i: usize = 0;
    while i < v.len()
        invariant
            i <= v.len(),
            out.len() == i,
            forall|j: int| 0 <= j < i ==> out@[j]@ == v@[j]@,
        decreases v.len() - i,
    {
        out.push(v[i].dup());
        i = i + 1;
    }
    assert(vw(out@) =~= vw(v@));
    out
}

/// A row of the `notes` table.
pub struct NoteRow {
    pub id: String,
    pub title: String,
    pub content: String,
    pub category_id: Option<String>,
    pub is_favorite: bool,
    pub is_todo: bool,
    pub todo_status: String,
    pub priority: String,
    pub due_date: Option<String>,
    pub completed_at: Option<String>,
    pub source: String,
    pub revision: i64,
    pub content_hash: String,
    pub created_at: String,
    pub updated_at: String,
    pub deleted_at: Option<String>,
    pub archived_at: Option<String>,
}

pub struct NoteRowV {
    pub id: Seq<char>,
    pub title: Seq<char>,
    pub content: Seq<char>,
    pub category_id: Option<Seq<char>>,
    pub is_favorite: bool,
    pub is_todo: bool,
    pub todo_status: Seq<char>,
    pub priority: Seq<char>,
    pub due_date: Option<Seq<char>>,
    pub completed_at: Option<Seq<char>>,
    pub source: Seq<char>,
    pub revision: i64,
    pub content_hash: Seq<char>,
    pub created_at: Seq<char>,
    pub updated_at: Seq<char>,
    pub deleted_at: Option<Seq<char>>,
    pub archived_at: Option<Seq<char>>,
}

impl View for NoteRow {
    type V = NoteRowV;

    open spec fn view(&self) -> NoteRowV {
        NoteRowV {
            id: self.id@,
            title: self.title@,
            content: self.content@,
            category_id: opt_view(self.category_id),
            is_favorite: self.is_favorite,
            is_todo: self.is_todo,
            todo_status: self.todo_status@,
            priority: self.priority@,
            due_date: opt_view(self.due_date),
            completed_at: opt_view(self.completed_at),
            source: self.source@,
            revision: self.revision,
            content_hash: self.content_hash@,
            created_at: self.created_at@,
            updated_at: self.updated_at@,
            deleted_at: opt_view(self.deleted_at),
            archived_at: opt_view(self.archived_at),
        }
    }
}

impl Dup for NoteRow {
    fn dup(&self) -> (r: Self) {
        NoteRow {
            id: self.id.clone(),
            title: self.title.clone(),
            content: self.content.clone(),
            category_id: dup_opt_string(&self.category_id),
            is_favorite: self.is_favorite,
            is_todo: self.is_todo,
            todo_status: self.todo_status.clone(),
            priority: self.priority.clone(),
            due_date: dup_opt_string(&self.due_date),
            completed_at: dup_opt_string(&self.completed_at),
            source: self.source.clone(),
            revision: self.revision,
            content_hash: self.content_hash.clone(),
            created_at: self.created_at.clone(),
            updated_at: self.updated_at.clone(),
            deleted_at: dup_opt_string(&self.deleted_at),
            archived_at: dup_opt_string(&self.archived_at),
        }
    }
}

/// A row of the `categories` table.
pub struct CategoryRow {
    pub id: String,
    pub name: String,
    pub normalized_name: String,
    pub color: String,
    pub sort_order: i64,
    pub created_at: String,
    pub updated_at: String,
}

pub struct CategoryRowV {
    pub id: Seq<char>,
    pub name: Seq<char>,
    pub normalized_name: Seq<char>,
    pub color: Seq<char>,
    pub sort_order: i64,
    pub created_at: Seq<char>,
    pub updated_at: Seq<char>,
}

impl View for CategoryRow {
    type V = CategoryRowV;

    open spec fn view(&self) -> CategoryRowV {
        CategoryRowV {
            id: self.id@,
            name: self.name@,
            normalized_name: self.normalized_name@,
            color: self.color@,
            sort_order: self.sort_order,
            created_at: self.created_at@,
            updated_at: self.updated_at@,
        }
    }
}

impl Dup for CategoryRow {
    fn dup(&self) -> (r: Self) {
        CategoryRow {
            id: self.id.clone(),
            name: self.name.clone(),
            normalized_name: self.normalized_name.clone(),
            color: self.color.clone(),
            sort_order: self.sort_order,
            created_at: self.created_at.clone(),
            updated_at: self.updated_at.clone(),
        }
    }
}

/// A row of the `tags` table.
pub struct TagRow {
    pub id: String,
    pub name: String,
    pub normalized_name: String,
    pub created_at: String,
    pub updated_at: String,
}

pub struct TagRowV {
    pub id: Seq<char>,
    pub name: Seq<char>,
    pub normalized_name: Seq<char>,
    pub created_at: Seq<char>,
    pub updated_at: Seq<char>,
}

impl View for TagRow {
    type V = TagRowV;

    open spec fn view(&self) -> TagRowV {
        TagRowV {
            id: self.id@,
            name: self.name@,
            normalized_name: self.normalized_name@,
            created_at: self.created_at@,
            updated_at: self.updated_at@,
        }
    }
}

impl Dup for TagRow {
    fn dup(&self) -> (r: Self) {
        TagRow {
            id: self.id.clone(),
            name: self.name.clone(),
            normalized_name: self.normalized_name.clone(),
            created_at: self.created_at.clone(),
            updated_at: self.updated_at.clone(),
        }
    }
}

/// A row of the `note_tags` table.
pub struct LinkRow {
    pub note_id: String,
    pub tag_id: String,
}

pub struct LinkRowV {
    pub note_id: Seq<char>,
    pub tag_id: Seq<char>,
}

impl View for LinkRow {
    type V = LinkRowV;

    open spec fn view(&self) -> LinkRowV {
        LinkRowV { note_id: self.note_id@, tag_id: self.tag_id@ }
    }
}

impl Dup for LinkRow {
    fn dup(&self) -> (r: Self) {
        LinkRow { note_id: self.note_id.clone(), tag_id: self.tag_id.clone() }
    }
}

/// A row of the `settings` table: a key and its JSON value.
pub struct SettingRow {
    pub key: String,
    pub value_json: String,
    pub updated_at: String,
}

pub struct SettingRowV {
    pub key: Seq<char>,
    pub value_json: Seq<char>,
    pub updated_at: Seq<char>,
}

impl View for SettingRow {
    type V = SettingRowV;

    open spec fn view(&self) -> SettingRowV {
        SettingRowV { key: self.key@, value_json: self.value_json@, updated_at: self.updated_at@ }
    }
}

impl Dup for SettingRow {
    fn dup(&self) -> (r: Self) {
        SettingRow {
            key: self.key.clone(),
            value_json: self.value_json.clone(),
            updated_at: self.updated_at.clone(),
        }
    }
}

/// A row of the `search_history` table.
pub struct HistoryRow {
    pub id: String,
    pub query: String,
    pub normalized_query: String,
    pub filters_json: String,
    pub searched_at: String,
}

pub struct HistoryRowV {
    pub id: Seq<char>,
    pub query: Seq<char>,
    pub normalized_query: Seq<char>,
    pub filters_json: Seq<char>,
    pub searched_at: Seq<char>,
}

impl View for HistoryRow {
    type V = HistoryRowV;

    open spec fn view(&self) -> HistoryRowV {
        HistoryRowV {
            id: self.id@,
            query: self.query@,
            normalized_query: self.normalized_query@,
            filters_json: self.filters_json@,
            searched_at: self.searched_at@,
        }
    }
}

impl Dup for HistoryRow {
    fn dup(&self) -> (r: Self) {
        HistoryRow {
            id: self.id.clone(),
            query: self.query.clone(),
            normalized_query: self.normalized_query.clone(),
            filters_json: self.filters_json.clone(),
            searched_at: self.searched_at.clone(),
        }
    }
}

/// A row of the `note_entities` table.
pub struct EntityRow {
    pub id: String,
    pub note_id: String,
    pub entity_type: String,
    pub value: String,
    pub start_offset: usize,
    pub end_offset: usize,
    pub created_at: String,
}

pub struct EntityRowV {
    pub id: Seq<char>,
    pub note_id: Seq<char>,
    pub entity_type: Seq<char>,
    pub value: Seq<char>,
    pub start_offset: usize,
    pub end_offset: usize,
    pub created_at: Seq<char>,
}

impl View for EntityRow {
    type V = EntityRowV;

    open spec fn view(&self) -> EntityRowV {
        EntityRowV {
            id: self.id@,
            note_id: self.note_id@,
            entity_type: self.entity_type@,
            value: self.value@,
            start_offset: self.start_offset,
            end_offset: self.end_offset,
            created_at: self.created_at@,
        }
    }
}

impl Dup for EntityRow {
    fn dup(&self) -> (r: Self) {
        EntityRow {
            id: self.id.clone(),
            note_id: self.note_id.clone(),
            entity_type: self.entity_type.clone(),
            value: self.value.clone(),
            start_offset: self.start_offset,
            end_offset: self.end_offset,
            created_at: self.created_at.clone(),
        }
    }
}

/// A row of the `note_suggestions` table. `payload` is the suggestion as last written
/// (its JSON text is the table's `payload_json`).
pub struct SuggestionRow {
    pub id: String,
    pub note_id: String,
    pub kind: String,
    pub payload: Suggestion,
    pub rule_id: String,
    pub confidence: Confidence,
    pub status: String,
    pub fingerprint: String,
    pub created_at: String,
    pub updated_at: String,
}

pub struct SuggestionRowV {
    pub id: Seq<char>,
    pub note_id: Seq<char>,
    pub kind: Seq<char>,
    pub payload: SuggestionV,
    pub rule_id: Seq<char>,
    pub confidence: Confidence,
    pub status: Seq<char>,
    pub fingerprint: Seq<char>,
    pub created_at: Seq<char>,
    pub updated_at: Seq<char>,
}

impl View for SuggestionRow {
    type V = SuggestionRowV;

    open spec fn view(&self) -> SuggestionRowV {
        SuggestionRowV {
            id: self.id@,
            note_id: self.note_id@,
            kind: self.kind@,
            payload: self.payload@,
            rule_id: self.rule_id@,
            confidence: self.confidence,
            status: self.status@,
            fingerprint: self.fingerprint@,
            created_at: self.created_at@,
            updated_at: self.updated_at@,
        }
    }
}

impl Dup for SuggestionRow {
    fn dup(&self) -> (r: Self) {
        SuggestionRow {
            id: self.id.clone(),
            note_id: self.note_id.clone(),
            kind: self.kind.clone(),
            payload: self.payload.dup(),
            rule_id: self.rule_id.clone(),
            confidence: self.confidence,
            status: self.status.clone(),
            fingerprint: self.fingerprint.clone(),
            created_at: self.created_at.clone(),
            updated_at: self.updated_at.clone(),
        }
    }
}

/// A row of the full-text index `notes_fts`.
pub struct FtsRow {
    pub note_id: String,
    pub title: String,
    pub content: String,
    pub tags_text: String,
    pub category_text: String,
    pub dates_text: String,
}

pub struct FtsRowV {
    pub note_id: Seq<char>,
    pub title: Seq<char>,
    pub content: Seq<char>,
    pub tags_text: Seq<char>,
    pub category_text: Seq<char>,
    pub dates_text: Seq<char>,
}

impl View for FtsRow {
    type V = FtsRowV;

    open spec fn view(&self) -> FtsRowV {
        FtsRowV {
            note_id: self.note_id@,
            title: self.title@,
            content: self.content@,
            tags_text: self.tags_text@,
            category_text: self.category_text@,
            dates_text: self.dates_text@,
        }
    }
}

impl Dup for FtsRow {
    fn dup(&self) -> (r: Self) {
        FtsRow {
            note_id: self.note_id.clone(),
            title: self.title.clone(),
            content: self.content.clone(),
            tags_text: self.tags_text.clone(),
            category_text: self.category_text.clone(),
            dates_text: self.dates_text.clone(),
        }
    }
}

/// All tables of the repository.
pub struct Tables {
    pub notes: Vec<NoteRow>,
    pub categories: Vec<CategoryRow>,
    pub tags: Vec<TagRow>,
    pub note_tags: Vec<LinkRow>,
    pub settings: Vec<SettingRow>,
    pub search_history: Vec<HistoryRow>,
    pub entities: Vec<EntityRow>,
    pub suggestions: Vec<SuggestionRow>,
    pub fts: Vec<FtsRow>,
}

#[verifier::ext_equal]
pub struct TablesV {
    pub notes: Seq<NoteRowV>,
    pub categories: Seq<CategoryRowV>,
    pub tags: Seq<TagRowV>,
    pub note_tags: Seq<LinkRowV>,
    pub settings: Seq<SettingRowV>,
    pub search_history: Seq<HistoryRowV>,
    pub entities: Seq<EntityRowV>,
    pub suggestions: Seq<SuggestionRowV>,
    pub fts: Seq<FtsRowV>,
}

impl View for Tables {
    type V = TablesV;

    open spec fn view(&self) -> TablesV {
        TablesV {
            notes: vw(self.notes@),
            categories: vw(self.categories@),
            tags: vw(self.tags@),
            note_tags: vw(self.note_tags@),
            settings: vw(self.settings@),
            search_history: vw(self.search_history@),
            entities: vw(self.entities@),
            suggestions: vw(self.suggestions@),
            fts: vw(self.fts@),
        }
    }
}

impl Dup for Tables {
    fn dup(&self) -> (r: Self) {
        Tables {
            notes: dup_vec(&self.notes),
            categories: dup_vec(&self.categories),
            tags: dup_vec(&self.tags),
            note_tags: dup_vec(&self.note_tags),
            settings: dup_vec(&self.settings),
            search_history: dup_vec(&self.search_history),
            entities: dup_vec(&self.entities),
            suggestions: dup_vec(&self.suggestions),
            fts: dup_vec(&self.fts),
        }
    }
}

impl Tables {
    /// Tables with no rows.
    pub fn empty() -> (r: Tables)
        ensures
            r@ == empty_tables(),
    {
        let r = Tables {
            notes: Vec::new(),
            categories: Vec::new(),
            tags: Vec::new(),
            note_tags: Vec::new(),
            settings: Vec::new(),
            search_history: Vec::new(),
            entities: Vec::new(),
            suggestions: Vec::new(),
            fts: Vec::new(),
        };
        assert(r@.notes =~= seq![]);
        assert(r@.categories =~= seq![]);
        assert(r@.tags =~= seq![]);
        assert(r@.note_tags =~= seq![]);
        assert(r@.settings =~= seq![]);
        assert(r@.search_history =~= seq![]);
        assert(r@.entities =~= seq![]);
        assert(r@.suggestions =~= seq![]);
        assert(r@.fts =~= seq![]);
        r
    }
}

pub open spec fn empty_tables() -> TablesV {
    TablesV {
        notes: seq![],
        categories: seq![],
        tags: seq![],
        note_tags: seq![],
        settings: seq![],
        search_history: seq![],
        entities: seq![],
        suggestions: seq![],
        fts: seq![],
    }
}

} // verus!
