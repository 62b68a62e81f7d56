//! The records the library hands out and takes in, with their mathematical views.

use vstd::prelude::*;
use crate::json::opt_view;
use crate::text::views;

verus! {

pub struct Category {
    pub id: String,
    pub name: String,
    pub color: String,
    pub sort_order: i64,
    pub created_at: String,
    pub updated_at: String,
}

pub struct CategoryV {
    pub id: Seq<char>,
    pub name: Seq<char>,
    pub color: Seq<char>,
    pub sort_order: i64,
    pub created_at: Seq<char>,
    pub updated_at: Seq<char>,
}

impl View for Category {
    type V = CategoryV;

    open spec fn view(&self) -> CategoryV {
        CategoryV {
            id: self.id@,
            name: self.name@,
            color: self.color@,
            sort_order: self.sort_order,
            created_at: self.created_at@,
            updated_at: self.updated_at@,
        }
    }
}

impl Category {
    pub fn dup(&self) -> (r: Category)
        ensures
            r@ == self@,
    {
        Category {
            id: self.id.clone(),
            name: self.name.clone(),
            color: self.color.clone(),
            sort_order: self.sort_order,
            created_at: self.created_at.clone(),
            updated_at: self.updated_at.clone(),
        }
    }
}

pub struct Tag {
    pub id: String,
    pub name: String,
    pub created_at: String,
    pub updated_at: String,
}

pub struct TagV {
    pub id: Seq<char>,
    pub name: Seq<char>,
    pub created_at: Seq<char>,
    pub updated_at: Seq<char>,
}

impl View for Tag {
    type V = TagV;

    open spec fn view(&self) -> TagV {
        TagV {
            id: self.id@,
            name: self.name@,
            created_at: self.created_at@,
            updated_at: self.updated_at@,
        }
    }
}

impl Tag {
    pub fn dup(&self) -> (r: Tag)
        ensures
            r@ == self@,
    {
        Tag {
            id: self.id.clone(),
            name: self.name.clone(),
            created_at: self.created_at.clone(),
            updated_at: self.updated_at.clone(),
        }
    }
}

pub open spec fn tag_views(v: Seq<Tag>) -> Seq<TagV> {
    v.map_values(|t: Tag| t@)
}

pub open spec fn category_views(v: Seq<Category>) -> Seq<CategoryV> {
    v.map_values(|c: Category| c@)
}

pub open spec fn opt_category_view(c: Option<Category>) -> Option<CategoryV> {
    match c {
        Some(x) => Some(x@),
        None => None,
    }
}

pub fn dup_opt_string(o: &Option<String>) -> (r: Option<String>)
    ensures
        opt_view(r) == opt_view(*o),
{
    match o {
        Some(s) => Some(s.clone()),
        None => None,
    }
}

pub fn dup_strings(v: &Vec<String>) -> (r: Vec<String>)
    ensures
        views(r@) == views(v@),
{
    let mut out: Vec<String> = Vec::new();
    let mut i: usize = 0;
    while i < v.len()
        invariant
            i <= v.len(),
            out.len() == i,
            forall|j: int| 0 <= j < i ==> out@[j]@ == v@[j]@,
        decreases v.len() - i,
    {
        out.push(v[i].clone());
        i = i + 1;
    }
    assert(views(out@) =~= views(v@));
    out
}

pub fn dup_tags(v: &Vec<Tag>) -> (r: Vec<Tag>)
    ensures
        tag_views(r@) == tag_views(v@),
{
    let mut out: Vec<Tag> = Vec::new();
    let mut i: usize = 0;
    while i < v.len()
        invariant
            i <= v.len(),
            out.len() == i,
            forall|j: int| 0 <= j < i ==> out@[j]@ == v@[j]@,
        decreases v.len() - i,
    {
        out.push(v[i].dup());
        i = i + 1;
    }
    assert(tag_views(out@) =~= tag_views(v@));
    out
}

pub struct Note {
    pub id: String,
    pub title: String,
    pub content: String,
    pub category_id: Option<String>,
    pub category: Option<Category>,
    pub tags: Vec<Tag>,
    pub is_favorite: bool,
    pub is_todo: bool,
    pub todo_status: String,
    pub priority: String,
    pub due_date: Option<String>,
    pub completed_at: Option<String>,
    pub source: String,
    pub revision: i64,
    pub created_at: String,
    pub updated_at: String,
    pub deleted_at: Option<String>,
    pub archived_at: Option<String>,
}

pub struct NoteV {
    pub id: Seq<char>,
    pub title: Seq<char>,
    pub content: Seq<char>,
    pub category_id: Option<Seq<char>>,
    pub category: Option<CategoryV>,
    pub tags: Seq<TagV>,
    pub is_favorite: bool,
    pub is_todo: bool,
    pub todo_status: Seq<char>,
    pub priority: Seq<char>,
    pub due_date: Option<Seq<char>>,
    pub completed_at: Option<Seq<char>>,
    pub source: Seq<char>,
    pub revision: i64,
    pub created_at: Seq<char>,
    pub updated_at: Seq<char>,
    pub deleted_at: Option<Seq<char>>,
    pub archived_at: Option<Seq<char>>,
}

impl View for Note {
    type V = NoteV;

    open spec fn view(&self) -> NoteV {
        NoteV {
            id: self.id@,
            title: self.title@,
            content: self.content@,
            category_id: opt_view(self.category_id),
            category: opt_category_view(self.category),
            tags: tag_views(self.tags@),
            is_favorite: self.is_favorite,
            is_todo: self.is_todo,
            todo_status: self.todo_status@,
            priority: self.priority@,
            due_date: opt_view(self.due_date),
            completed_at: opt_view(self.completed_at),
            source: self.source@,
            revision: self.revision,
            created_at: self.created_at@,
            updated_at: self.updated_at@,
            deleted_at: opt_view(self.deleted_at),
            archived_at: opt_view(self.archived_at),
        }
    }
}

impl Note {
    pub fn dup(&self) -> (r: Note)
        ensures
            r@ == self@,
    {
        Note {
            id: self.id.clone(),
            title: self.title.clone(),
            content: self.content.clone(),
            category_id: dup_opt_string(&self.category_id),
            category: match &self.category {
                Some(c) => Some(c.dup()),
                None => None,
            },
            tags: dup_tags(&self.tags),
            is_favorite: self.is_favorite,
            is_todo: self.is_todo,
            todo_status: self.todo_status.clone(),
            priority: self.priority.clone(),
            due_date: dup_opt_string(&self.due_date),
            completed_at: dup_opt_string(&self.completed_at),
            source: self.source.clone(),
            revision: self.revision,
            created_at: self.created_at.clone(),
            updated_at: self.updated_at.clone(),
            deleted_at: dup_opt_string(&self.deleted_at),
            archived_at: dup_opt_string(&self.archived_at),
        }
    }
}

pub open spec fn note_views(v: Seq<Note>) -> Seq<NoteV> {
    v.map_values(|n: Note| n@)
}

pub struct SaveNoteInput {
    pub id: Option<String>,
    pub expected_revision: Option<i64>,
    pub title: String,
    pub content: String,
    pub category_id: Option<String>,
    pub tag_names: Vec<String>,
    pub is_favorite: bool,
    pub is_todo: bool,
    pub todo_status: String,
    pub priority: String,
    pub due_date: Option<String>,
    pub source: String,
}

pub struct SaveNoteInputV {
    pub id: Option<Seq<char>>,
    pub expected_revision: Option<i64>,
    pub title: Seq<char>,
    pub content: Seq<char>,
    pub category_id: Option<Seq<char>>,
    pub tag_names: Seq<Seq<char>>,
    pub is_favorite: bool,
    pub is_todo: bool,
    pub todo_status: Seq<char>,
    pub priority: Seq<char>,
    pub due_date: Option<Seq<char>>,
    pub source: Seq<char>,
}

impl View for SaveNoteInput {
    type V = SaveNoteInputV;

    open spec fn view(&self) -> SaveNoteInputV {
        SaveNoteInputV {
            id: opt_view(self.id),
            expected_revision: self.expected_revision,
            title: self.title@,
            content: self.content@,
            category_id: opt_view(self.category_id),
            tag_names: views(self.tag_names@),
            is_favorite: self.is_favorite,
            is_todo: self.is_todo,
            todo_status: self.todo_status@,
            priority: self.priority@,
            due_date: opt_view(self.due_date),
            source: self.source@,
        }
    }
}

impl Default for SaveNoteInput {
    /// An untitled, empty, not-started note of normal priority written in the main window.
    fn default() -> (r: Self)
        ensures
            r@ == (SaveNoteInputV {
                id: None,
                expected_revision: None,
                title: seq![],
                content: seq![],
                category_id: None,
                tag_names: seq![],
                is_favorite: false,
                is_todo: false,
                todo_status: "not_started"@,
                priority: "normal"@,
                due_date: None,
                source: "main"@,
            }),
    {
        let r = SaveNoteInput {
            id: None,
            expected_revision: None,
            title: String::new(),
            content: String::new(),
            category_id: None,
            tag_names: Vec::new(),
            is_favorite: false,
            is_todo: false,
            todo_status: "not_started".to_owned(),
            priority: "normal".to_owned(),
            due_date: None,
            source: "main".to_owned(),
        };
        assert(views(r.tag_names@) =~= seq![]);
        r
    }
}

pub struct SaveNoteResponse {
    pub status: String,
    pub note: Note,
}

pub struct SaveNoteResponseV {
    pub status: Seq<char>,
    pub note: NoteV,
}

impl View for SaveNoteResponse {
    type V = SaveNoteResponseV;

    open spec fn view(&self) -> SaveNoteResponseV {
        SaveNoteResponseV { status: self.status@, note: self.note@ }
    }
}

pub struct SearchQuery {
    pub query: String,
    pub view: Option<String>,
    pub category_id: Option<String>,
    pub tag_ids: Vec<String>,
    pub date_from: Option<String>,
    pub date_to: Option<String>,
    pub is_favorite: Option<bool>,
    pub todo_status: Option<String>,
    pub limit: Option<usize>,
}

pub struct SearchQueryV {
    pub query: Seq<char>,
    pub view: Option<Seq<char>>,
    pub category_id: Option<Seq<char>>,
    pub tag_ids: Seq<Seq<char>>,
    pub date_from: Option<Seq<char>>,
    pub date_to: Option<Seq<char>>,
    pub is_favorite: Option<bool>,
    pub todo_status: Option<Seq<char>>,
    pub limit: Option<usize>,
}

impl View for SearchQuery {
    type V = SearchQueryV;

    open spec fn view(&self) -> SearchQueryV {
        SearchQueryV {
            query: self.query@,
            view: opt_view(self.view),
            category_id: opt_view(self.category_id),
            tag_ids: views(self.tag_ids@),
            date_from: opt_view(self.date_from),
            date_to: opt_view(self.date_to),
            is_favorite: self.is_favorite,
            todo_status: opt_view(self.todo_status),
            limit: self.limit,
        }
    }
}

impl Default for SearchQuery {
    /// An empty query with no filters.
    fn default() -> (r: Self)
        ensures
            r@ == (SearchQueryV {
                query: seq![],
                view: None,
                category_id: None,
                tag_ids: seq![],
                date_from: None,
                date_to: None,
                is_favorite: None,
                todo_status: None,
                limit: None,
            }),
    {
        let r = SearchQuery {
            query: String::new(),
            view: None,
            category_id: None,
            tag_ids: Vec::new(),
            date_from: None,
            date_to: None,
            is_favorite: None,
            todo_status: None,
            limit: None,
        };
        assert(views(r.tag_ids@) =~= seq![]);
        r
    }
}

pub struct SearchResult {
    pub note: Note,
    pub matched_terms: Vec<String>,
}

pub struct SearchResultV {
    pub note: NoteV,
    pub matched_terms: Seq<Seq<char>>,
}

impl View for SearchResult {
    type V = SearchResultV;

    open spec fn view(&self) -> SearchResultV {
        SearchResultV { note: self.note@, matched_terms: views(self.matched_terms@) }
    }
}

pub struct SearchHistoryItem {
    pub id: String,
    pub query: String,
    pub filters_json: String,
    pub searched_at: String,
}

pub struct AppSettings {
    pub theme: String,
    pub close_behavior: String,
    pub hide_on_blur: bool,
    pub quick_pinned: bool,
    pub autostart: bool,
    pub shortcut: String,
    pub quick_active_note_id: Option<String>,
    pub organizer_enabled: bool,
    pub archive_days: i64,
}

pub struct AppSettingsV {
    pub theme: Seq<char>,
    pub close_behavior: Seq<char>,
    pub hide_on_blur: bool,
    pub quick_pinned: bool,
    pub autostart: bool,
    pub shortcut: Seq<char>,
    pub quick_active_note_id: Option<Seq<char>>,
    pub organizer_enabled: bool,
    pub archive_days: i64,
}

impl View for AppSettings {
    type V = AppSettingsV;

    open spec fn view(&self) -> AppSettingsV {
        AppSettingsV {
            theme: self.theme@,
            close_behavior: self.close_behavior@,
            hide_on_blur: self.hide_on_blur,
            quick_pinned: self.quick_pinned,
            autostart: self.autostart,
            shortcut: self.shortcut@,
            quick_active_note_id: opt_view(self.quick_active_note_id),
            organizer_enabled: self.organizer_enabled,
            archive_days: self.archive_days,
        }
    }
}

pub struct EntityMatch {
    pub entity_type: String,
    pub value: String,
    pub start_offset: usize,
    pub end_offset: usize,
}

pub struct EntityMatchV {
    pub entity_type: Seq<char>,
    pub value: Seq<char>,
    pub start_offset: usize,
    pub end_offset: usize,
}

impl View for EntityMatch {
    type V = EntityMatchV;

    open spec fn view(&self) -> EntityMatchV {
        EntityMatchV {
            entity_type: self.entity_type@,
            value: self.value@,
            start_offset: self.start_offset,
            end_offset: self.end_offset,
        }
    }
}

impl EntityMatch {
    pub fn dup(&self) -> (r: EntityMatch)
        ensures
            r@ == self@,
    {
        EntityMatch {
            entity_type: self.entity_type.clone(),
            value: self.value.clone(),
            start_offset: self.start_offset,
            end_offset: self.end_offset,
        }
    }
}

pub open spec fn entity_views(v: Seq<EntityMatch>) -> Seq<EntityMatchV> {
    v.map_values(|e: EntityMatch| e@)
}

/// A confidence in [0, 1] held exactly, as a fraction.
#[derive(Clone, Copy, Debug, PartialEq, Eq, Structural)]
pub struct Confidence {
    pub numerator: u128,
    pub denominator: u128,
}

/// The structured payload of a suggestion (what the JSON `value` of the suggestion holds).
pub enum SuggestionValue {
    /// `{"dueDate": ..}`
    DueDate { due_date: String },
    /// `{"isTodo": true, "todoStatus": "not_started"}`
    Todo,
    /// `{"todoStatus": "completed"}`
    TodoCompleted,
    /// `{"tagName": ..}`
    TagName { tag_name: String },
    /// `{"categoryId": .., "categoryName": ..}`
    Category { category_id: String, category_name: String },
    /// `{"noteId": .., "title": ..}`
    SimilarTitle { note_id: String, title: String },
    /// `{"archive": true}`
    Archive,
}

pub enum SuggestionValueV {
    DueDate { due_date: Seq<char> },
    Todo,
    TodoCompleted,
    TagName { tag_name: Seq<char> },
    Category { category_id: Seq<char>, category_name: Seq<char> },
    SimilarTitle { note_id: Seq<char>, title: Seq<char> },
    Archive,
}

impl View for SuggestionValue {
    type V = SuggestionValueV;

    open spec fn view(&self) -> SuggestionValueV {
        match self {
            SuggestionValue::DueDate { due_date } => SuggestionValueV::DueDate { due_date: due_date@ },
            SuggestionValue::Todo => SuggestionValueV::Todo,
            SuggestionValue::TodoCompleted => SuggestionValueV::TodoCompleted,
            SuggestionValue::TagName { tag_name } => SuggestionValueV::TagName { tag_name: tag_name@ },
            SuggestionValue::Category { category_id, category_name } => SuggestionValueV::Category {
                category_id: category_id@,
                category_name: category_name@,
            },
            SuggestionValue::SimilarTitle { note_id, title } => SuggestionValueV::SimilarTitle {
                note_id: note_id@,
                title: title@,
            },
            SuggestionValue::Archive => SuggestionValueV::Archive,
        }
    }
}

impl SuggestionValue {
    pub fn dup(&self) -> (r: SuggestionValue)
        ensures
            r@ == self@,
    {
        match self {
            SuggestionValue::DueDate { due_date } => SuggestionValue::DueDate { due_date: due_date.clone() },
            SuggestionValue::Todo => SuggestionValue::Todo,
            SuggestionValue::TodoCompleted => SuggestionValue::TodoCompleted,
            SuggestionValue::TagName { tag_name } => SuggestionValue::TagName { tag_name: tag_name.clone() },
            SuggestionValue::Category { category_id, category_name } => SuggestionValue::Category {
                category_id: category_id.clone(),
                category_name: category_name.clone(),
            },
            SuggestionValue::SimilarTitle { note_id, title } => SuggestionValue::SimilarTitle {
                note_id: note_id.clone(),
                title: title.clone(),
            },
            SuggestionValue::Archive => SuggestionValue::Archive,
        }
    }
}

pub struct Suggestion {
    pub id: String,
    pub kind: String,
    pub label: String,
    pub value: SuggestionValue,
    pub confidence: Confidence,
    pub rule_id: String,
}

pub struct SuggestionV {
    pub id: Seq<char>,
    pub kind: Seq<char>,
    pub label: Seq<char>,
    pub value: SuggestionValueV,
    pub confidence: Confidence,
    pub rule_id: Seq<char>,
}

impl View for Suggestion {
    type V = SuggestionV;

    open spec fn view(&self) -> SuggestionV {
        SuggestionV {
            id: self.id@,
            kind: self.kind@,
            label: self.label@,
            value: self.value@,
            confidence: self.confidence,
            rule_id: self.rule_id@,
        }
    }
}

impl Suggestion {
    pub fn dup(&self) -> (r: Suggestion)
        ensures
            r@ == self@,
    {
        Suggestion {
            id: self.id.clone(),
            kind: self.kind.clone(),
            label: self.label.clone(),
            value: self.value.dup(),
            confidence: self.confidence,
            rule_id: self.rule_id.clone(),
        }
    }
}

pub open spec fn suggestion_views(v: Seq<Suggestion>) -> Seq<SuggestionV> {
    v.map_values(|s: Suggestion| s@)
}

pub struct OrganizerResult {
    pub suggestions: Vec<Suggestion>,
    pub entities: Vec<EntityMatch>,
}

#[verifier::ext_equal]
pub struct OrganizerResultV {
    pub suggestions: Seq<SuggestionV>,
    pub entities: Seq<EntityMatchV>,
}

impl View for OrganizerResult {
    type V = OrganizerResultV;

    open spec fn view(&self) -> OrganizerResultV {
        OrganizerResultV {
            suggestions: suggestion_views(self.suggestions@),
            entities: entity_views(self.entities@),
        }
    }
}

pub struct ExportEnvelope {
    pub schema_version: i64,
    pub app_version: String,
    pub exported_at: String,
    pub categories: Vec<Category>,
    pub tags: Vec<Tag>,
    pub notes: Vec<Note>,
}

#[verifier::ext_equal]
pub struct ExportEnvelopeV {
    pub schema_version: i64,
    pub app_version: Seq<char>,
    pub exported_at: Seq<char>,
    pub categories: Seq<CategoryV>,
    pub tags: Seq<TagV>,
    pub notes: Seq<NoteV>,
}

impl View for ExportEnvelope {
    type V = ExportEnvelopeV;

    open spec fn view(&self) -> ExportEnvelopeV {
        ExportEnvelopeV {
            schema_version: self.schema_version,
            app_version: self.app_version@,
            exported_at: self.exported_at@,
            categories: category_views(self.categories@),
            tags: tag_views(self.tags@),
            notes: note_views(self.notes@),
        }
    }
}

#[derive(Clone, Copy, Debug, PartialEq, Eq, Structural)]
pub struct ImportPreview {
    pub notes_to_create: usize,
    pub duplicates_to_skip: usize,
    pub conflicts_as_copies: usize,
    pub categories_to_merge: usize,
    pub tags_to_merge: usize,
}

#[derive(Clone, Copy, Debug, PartialEq, Eq, Structural)]
pub struct ImportResult {
    pub created: usize,
    pub skipped: usize,
    pub copied_conflicts: usize,
}

pub struct BackupManifest {
    pub schema_version: i64,
    pub app_version: String,
    pub created_at: String,
    pub database_sha256: String,
}

pub struct BackupManifestV {
    pub schema_version: i64,
    pub app_version: Seq<char>,
    pub created_at: Seq<char>,
    pub database_sha256: Seq<char>,
}

impl View for BackupManifest {
    type V = BackupManifestV;

    open spec fn view(&self) -> BackupManifestV {
        BackupManifestV {
            schema_version: self.schema_version,
            app_version: self.app_version@,
            created_at: self.created_at@,
            database_sha256: self.database_sha256@,
        }
    }
}

} // verus!
