//! The note repository: reading notes, categories and tags out of the tables.

use vstd::prelude::*;
use crate::error::{AppError, AppErrorV, AppResult};
use crate::dates::{Date, local_date_of, local_today, rfc3339_parses, valid_date};
use crate::models::{Category, CategoryV, Note, NoteV, Tag, TagV, dup_opt_string, note_views, category_views, tag_views};
use crate::seqs::{vw, first_index, keep, isort, find_first, sort_vec, lemma_first_index};
use crate::tables::{Tables, TablesV, NoteRow, NoteRowV, CategoryRow, CategoryRowV, TagRow, TagRowV, Dup, dup_vec};
use crate::text::{bytes_lt, utf8, ascii_lower, ascii_lower_one, chars_of, string_of, str_lt, str_eq};

verus! {

/// The note repository.
pub struct Database {
    pub tables: Tables,
}

impl View for Database {
    type V = TablesV;

    open spec fn view(&self) -> TablesV {
        self.tables@
    }
}

// ---------------------------------------------------------------------------
// Orders
// ---------------------------------------------------------------------------

/// SQLite's `COLLATE NOCASE`: ASCII letters folded to lower case, then byte order.
pub open spec fn nocase_lt(a: Seq<char>, b: Seq<char>) -> bool {
    bytes_lt(utf8(ascii_lower(a)), utf8(ascii_lower(b)))
}

/// `ORDER BY updated_at DESC`.
pub open spec fn newer_first(a: NoteRowV, b: NoteRowV) -> bool {
    bytes_lt(utf8(b.updated_at), utf8(a.updated_at))
}

/// `ORDER BY name COLLATE NOCASE` for tags.
pub open spec fn tag_order(a: TagRowV, b: TagRowV) -> bool {
    nocase_lt(a.name, b.name)
}

/// `ORDER BY sort_order, name COLLATE NOCASE` for categories.
pub open spec fn category_order(a: CategoryRowV, b: CategoryRowV) -> bool {
    a.sort_order < b.sort_order || (a.sort_order == b.sort_order && nocase_lt(a.name, b.name))
}

/// A string with its ASCII letters in lower case.
pub fn ascii_lowercase(s: &str) -> (r: String)
    ensures
        r@ == ascii_lower(s@),
{
    let v = chars_of(s);
    let mut out: Vec<char> = Vec::new();
    let mut i: usize = 0;
    while i < v.len()
        invariant
            v@ == s@,
            i <= v.len(),
            out@ == ascii_lower(v@.take(i as int)),
        decreases v.len() - i,
    {
        out.push(ascii_lower_one(v[i]));
        i = i + 1;
        assert(ascii_lower(v@.take(i as int)) =~= ascii_lower(v@.take(i - 1)).push(
            crate::text::ascii_lower_char(v@[i - 1]),
        ));
    }
    assert(v@.take(v.len() as int) == v@);
    string_of(out.as_slice())
}

/// `a < b` under `COLLATE NOCASE`.
pub fn nocase_less(a: &str, b: &str) -> (r: bool)
    ensures
        r == nocase_lt(a@, b@),
{
    let x = ascii_lowercase(a);
    let y = ascii_lowercase(b);
    str_lt(x.as_str(), y.as_str())
}

// ---------------------------------------------------------------------------
// Rows to records
// ---------------------------------------------------------------------------

pub open spec fn category_of_row(c: CategoryRowV) -> CategoryV {
    CategoryV {
        id: c.id,
        name: c.name,
        color: c.color,
        sort_order: c.sort_order,
        created_at: c.created_at,
        updated_at: c.updated_at,
    }
}

pub open spec fn tag_of_row(t: TagRowV) -> TagV {
    TagV { id: t.id, name: t.name, created_at: t.created_at, updated_at: t.updated_at }
}

/// `SELECT .. FROM categories WHERE id = ?`: the first category with the id.
pub open spec fn category_by_id(t: TablesV, id: Seq<char>) -> Option<CategoryV> {
    let i = first_index(t.categories, |c: CategoryRowV| c.id == id);
    if i < 0 {
        None
    } else {
        Some(category_of_row(t.categories[i]))
    }
}

/// The tag is linked to the note in `note_tags`.
pub open spec fn linked(t: TablesV, note_id: Seq<char>, tag: TagRowV) -> bool {
    exists|k: int| 0 <= k < t.note_tags.len() && t.note_tags[k].note_id == note_id
        && t.note_tags[k].tag_id == tag.id
}

/// The tags of a note, by name without regard to ASCII case.
pub open spec fn tags_of(t: TablesV, note_id: Seq<char>) -> Seq<TagV> {
    isort(keep(t.tags, |g: TagRowV| linked(t, note_id, g)), |a: TagRowV, b: TagRowV| tag_order(a, b)).map_values(
        |g: TagRowV| tag_of_row(g),
    )
}

/// A note row with its category and tags.
pub open spec fn hydrate(t: TablesV, r: NoteRowV) -> NoteV {
    NoteV {
        id: r.id,
        title: r.title,
        content: r.content,
        category_id: r.category_id,
        category: match r.category_id {
            Some(c) => category_by_id(t, c),
            None => None,
        },
        tags: tags_of(t, r.id),
        is_favorite: r.is_favorite,
        is_todo: r.is_todo,
        todo_status: r.todo_status,
        priority: r.priority,
        due_date: r.due_date,
        completed_at: r.completed_at,
        source: r.source,
        revision: r.revision,
        created_at: r.created_at,
        updated_at: r.updated_at,
        deleted_at: r.deleted_at,
        archived_at: r.archived_at,
    }
}

/// Position of the first note row with the id, or -1.
pub open spec fn note_pos(t: TablesV, id: Seq<char>) -> int {
    first_index(t.notes, |r: NoteRowV| r.id == id)
}

/// `read_note`: the note with the id, or `NotFound`.
pub open spec fn read_note(t: TablesV, id: Seq<char>) -> Result<NoteV, AppErrorV> {
    let i = note_pos(t, id);
    if i < 0 {
        Err(AppErrorV::NotFound)
    } else {
        Ok(hydrate(t, t.notes[i]))
    }
}

/// Whether a note row belongs to a list view; `today` says whether it was updated on the
/// local calendar day the list is taken on.
pub open spec fn in_view(view: Seq<char>, r: NoteRowV, today: bool) -> bool {
    if view == "today"@ {
        r.deleted_at is None && r.archived_at is None && today
    } else if view == "todo"@ {
        r.deleted_at is None && r.archived_at is None && r.is_todo
    } else if view == "favorite"@ {
        r.deleted_at is None && r.archived_at is None && r.is_favorite
    } else if view == "archive"@ {
        r.deleted_at is None && r.archived_at is Some
    } else if view == "trash"@ {
        r.deleted_at is Some
    } else {
        r.deleted_at is None && r.archived_at is None
    }
}

/// The rows of a view, in table order; `flags[i]` says whether row `i` was updated today.
pub open spec fn in_view_rows(notes: Seq<NoteRowV>, view: Seq<char>, flags: Seq<bool>) -> Seq<NoteRowV>
    decreases notes.len(),
{
    if notes.len() == 0 || flags.len() != notes.len() {
        seq![]
    } else {
        let r = in_view_rows(notes.drop_last(), view, flags.drop_last());
        if in_view(view, notes.last(), flags.last()) {
            r.push(notes.last())
        } else {
            r
        }
    }
}

/// `list_notes`: the notes of a view, newest update first, at most `min(limit, 100000)`.
pub open spec fn list_spec(t: TablesV, view: Seq<char>, limit: usize, flags: Seq<bool>) -> Seq<NoteV> {
    let cap = if limit < 100_000 {
        limit as int
    } else {
        100_000
    };
    let rows = isort(in_view_rows(t.notes, view, flags), |a: NoteRowV, b: NoteRowV| newer_first(a, b));
    let taken = if rows.len() <= cap {
        rows
    } else {
        rows.take(cap)
    };
    taken.map_values(|r: NoteRowV| hydrate(t, r))
}

/// The local dates of the rows' updates as the machine reads them: one per row, present
/// exactly when the row's `updated_at` parses as RFC 3339, and each a valid date.
pub open spec fn local_dates_of(t: TablesV, local: Seq<Option<Date>>) -> bool {
    &&& local.len() == t.notes.len()
    &&& forall|j: int| 0 <= j < local.len() ==> (#[trigger] local[j] is Some) == rfc3339_parses(t.notes[j].updated_at)
    &&& forall|j: int| 0 <= j < local.len() ==> (#[trigger] local[j] matches Some(d) ==> valid_date(d))
}

/// Which rows count as updated today: in the `today` view, those whose local update date
/// is today; in any other view, none.
pub open spec fn today_flags_spec(view: Seq<char>, today: Date, local: Seq<Option<Date>>) -> Seq<bool> {
    Seq::new(local.len(), |i: int| view == "today"@ && local[i] == Some(today))
}

/// The "updated today" flags of rows whose local update dates are `local`.
pub fn today_flags_of(view: &str, today: Date, local: &Vec<Option<Date>>) -> (r: Vec<bool>)
    ensures
        r@ == today_flags_spec(view@, today, local@),
{
    let want = str_eq(view, "today");
    proof {
        reveal_strlit("today");
    }
    let mut flags: Vec<bool> = Vec::new();
    let mut i: usize = 0;
    while i < local.len()
        invariant
            i <= local.len(),
            want == (view@ == "today"@),
            flags@ == today_flags_spec(view@, today, local@.take(i as int)),
        decreases local.len() - i,
    {
        let f = want && match &local[i] {
            Some(d) => *d == today,
            None => false,
        };
        let ghost before = flags@;
        flags.push(f);
        proof {
            assert(local@.take(i + 1)[i as int] == local@[i as int]);
            assert(flags@ =~= today_flags_spec(view@, today, local@.take(i + 1)));
        }
        i = i + 1;
    }
    proof {
        assert(local@.take(i as int) == local@);
    }
    flags
}

pub open spec fn note_rows_view(s: Seq<NoteRow>) -> Seq<NoteRowV> {
    vw(s)
}

impl Tables {
    /// The first category with the id.
    pub fn category_by_id(&self, id: &str) -> (r: Option<Category>)
        ensures
            match r {
                Some(c) => category_by_id(self@, id@) == Some(c@),
                None => category_by_id(self@, id@) is None,
            },
    {
        let ghost tv = self@;
        let found = find_first(
            &self.categories,
            (|c: &CategoryRow| -> (b: bool)
                ensures
                    b == (c@.id == id@),
                { str_eq(c.id.as_str(), id) }),
            Ghost(|c: CategoryRowV| c.id == id@),
        );
        match found {
            Some(i) => {
                let c = &self.categories[i];
                proof {
                    assert(tv.categories[i as int] == c@);
                }
                Some(
                    Category {
                        id: c.id.clone(),
                        name: c.name.clone(),
                        color: c.color.clone(),
                        sort_order: c.sort_order,
                        created_at: c.created_at.clone(),
                        updated_at: c.updated_at.clone(),
                    },
                )
            },
            None => None,
        }
    }

    /// Whether a link (note, tag) exists.
    pub fn is_linked(&self, note_id: &str, tag_id: &str) -> (r: bool)
        ensures
            r == exists|k: int|
                0 <= k < self@.note_tags.len() && self@.note_tags[k].note_id == note_id@
                    && self@.note_tags[k].tag_id == tag_id@,
    {
        let mut k: usize = 0;
        while k < self.note_tags.len()
            invariant
                k <= self.note_tags.len(),
                forall|j: int|
                    0 <= j < k ==> !(self@.note_tags[j].note_id == note_id@ && self@.note_tags[j].tag_id
                        == tag_id@),
            decreases self.note_tags.len() - k,
        {
            let l = &self.note_tags[k];
            proof {
                assert(self@.note_tags[k as int] == l@);
            }
            if str_eq(l.note_id.as_str(), note_id) && str_eq(l.tag_id.as_str(), tag_id) {
                return true;
            }
            k = k + 1;
        }
        false
    }

    /// The tags of a note.
    pub fn tags_for_note(&self, note_id: &str) -> (r: Vec<Tag>)
        ensures
            tag_views(r@) == tags_of(self@, note_id@),
    {
        let ghost tv = self@;
        let ghost p = |g: TagRowV| linked(tv, note_id@, g);
        let mut kept: Vec<TagRow> = Vec::new();
        let mut i: usize = 0;
        while i < self.tags.len()
            invariant
                tv == self@,
                i <= self.tags.len(),
                forall|g: TagRowV| #[trigger] p(g) == linked(tv, note_id@, g),
                vw(kept@) == keep(tv.tags.take(i as int), p),
            decreases self.tags.len() - i,
        {
            let g = &self.tags[i];
            proof {
                assert(tv.tags[i as int] == g@);
                assert(tv.tags.take(i + 1).drop_last() == tv.tags.take(i as int));
            }
            if self.is_linked(note_id, g.id.as_str()) {
                kept.push(g.dup());
                proof {
                    assert(vw(kept@) =~= keep(tv.tags.take(i as int), p).push(g@));
                }
            }
            i = i + 1;
        }
        proof {
            assert(tv.tags.take(i as int) == tv.tags);
        }
        let sorted = sort_vec(
            kept,
            (|a: &TagRow, b: &TagRow| -> (r: bool)
                ensures
                    r == tag_order(a@, b@),
                { nocase_less(a.name.as_str(), b.name.as_str()) }),
            Ghost(|a: TagRowV, b: TagRowV| tag_order(a, b)),
        );
        let mut out: Vec<Tag> = Vec::new();
        let mut j: usize = 0;
        while j < sorted.len()
            invariant
                j <= sorted.len(),
                out.len() == j,
                forall|q: int| 0 <= q < j ==> out@[q]@ == tag_of_row(sorted@[q]@),
            decreases sorted.len() - j,
        {
            let g = &sorted[j];
            out.push(
                Tag {
                    id: g.id.clone(),
                    name: g.name.clone(),
                    created_at: g.created_at.clone(),
                    updated_at: g.updated_at.clone(),
                },
            );
            j = j + 1;
        }
        proof {
            assert(tag_views(out@) =~= vw(sorted@).map_values(|g: TagRowV| tag_of_row(g)));
        }
        out
    }

    /// A note row with its category and tags.
    pub fn hydrate(&self, r: &NoteRow) -> (n: Note)
        ensures
            n@ == hydrate(self@, r@),
    {
        let category = match &r.category_id {
            Some(c) => self.category_by_id(c.as_str()),
            None => None,
        };
        let tags = self.tags_for_note(r.id.as_str());
        Note {
            id: r.id.clone(),
            title: r.title.clone(),
            content: r.content.clone(),
            category_id: dup_opt_string(&r.category_id),
            category,
            tags,
            is_favorite: r.is_favorite,
            is_todo: r.is_todo,
            todo_status: r.todo_status.clone(),
            priority: r.priority.clone(),
            due_date: dup_opt_string(&r.due_date),
            completed_at: dup_opt_string(&r.completed_at),
            source: r.source.clone(),
            revision: r.revision,
            created_at: r.created_at.clone(),
            updated_at: r.updated_at.clone(),
            deleted_at: dup_opt_string(&r.deleted_at),
            archived_at: dup_opt_string(&r.archived_at),
        }
    }

    /// Position of the first note row with the id.
    pub fn note_index(&self, id: &str) -> (r: Option<usize>)
        ensures
            match r {
                Some(i) => note_pos(self@, id@) == i as int && i < self@.notes.len(),
                None => note_pos(self@, id@) == -1,
            },
    {
        let r = find_first(
            &self.notes,
            (|n: &NoteRow| -> (b: bool)
                ensures
                    b == (n@.id == id@),
                { str_eq(n.id.as_str(), id) }),
            Ghost(|n: NoteRowV| n.id == id@),
        );
        proof {
            lemma_first_index(self@.notes, |n: NoteRowV| n.id == id@);
        }
        r
    }

}

impl Database {
    /// The tables behind the repository.
    pub fn tables(&self) -> (r: &Tables)
        ensures
            r@ == self@,
    {
        &self.tables
    }

    /// A repository over the given tables.
    pub fn from_tables(tables: Tables) -> (r: Database)
        ensures
            r@ == tables@,
    {
        Database { tables }
    }

    /// The note with the id, with its category and tags.
    pub fn get_note(&self, id: &str) -> (r: AppResult<Note>)
        ensures
            match r {
                Ok(n) => read_note(self@, id@) == Ok::<NoteV, AppErrorV>(n@),
                Err(e) => read_note(self@, id@) == Err::<NoteV, AppErrorV>(e@),
            },
    {
        match self.tables.note_index(id) {
            Some(i) => {
                let row = &self.tables.notes[i];
                proof {
                    assert(self@.notes[i as int] == row@);
                }
                Ok(self.tables.hydrate(row))
            },
            None => Err(AppError::NotFound),
        }
    }

    /// The notes of a view, given for each note row whether it was updated today.
    pub fn list_notes_with_days(&self, view: &str, limit: usize, updated_today: &Vec<bool>) -> (r: Vec<Note>)
        requires
            updated_today.len() == self@.notes.len(),
        ensures
            note_views(r@) == list_spec(self@, view@, limit, updated_today@),
    {
        let ghost tv = self@;
        let ghost flags = updated_today@;
        let mut rows: Vec<NoteRow> = Vec::new();
        let mut i: usize = 0;
        while i < self.tables.notes.len()
            invariant
                tv == self@,
                flags == updated_today@,
                flags.len() == tv.notes.len(),
                i <= self.tables.notes.len(),
                vw(rows@) == in_view_rows(tv.notes.take(i as int), view@, flags.take(i as int)),
            decreases self.tables.notes.len() - i,
        {
            let row = &self.tables.notes[i];
            proof {
                assert(tv.notes[i as int] == row@);
                assert(tv.notes.take(i + 1).drop_last() == tv.notes.take(i as int));
                assert(flags.take(i + 1).drop_last() == flags.take(i as int));
            }
            if self.row_in_view(view, row, updated_today[i]) {
                rows.push(row.dup());
                proof {
                    assert(vw(rows@) =~= in_view_rows(tv.notes.take(i as int), view@, flags.take(i as int)).push(
                        row@,
                    ));
                }
            }
            i = i + 1;
        }
        proof {
            assert(tv.notes.take(i as int) == tv.notes);
            assert(flags.take(i as int) == flags);
        }
        let sorted = sort_vec(
            rows,
            (|a: &NoteRow, b: &NoteRow| -> (r: bool)
                ensures
                    r == newer_first(a@, b@),
                { str_lt(b.updated_at.as_str(), a.updated_at.as_str()) }),
            Ghost(|a: NoteRowV, b: NoteRowV| newer_first(a, b)),
        );
        let cap: usize = if limit < 100_000 {
            limit
        } else {
            100_000
        };
        let n: usize = if sorted.len() <= cap {
            sorted.len()
        } else {
            cap
        };
        let mut out: Vec<Note> = Vec::new();
        let mut j: usize = 0;
        while j < n
            invariant
                tv == self@,
                n <= sorted.len(),
                j <= n,
                out.len() == j,
                forall|q: int| 0 <= q < j ==> out@[q]@ == hydrate(tv, vw(sorted@)[q]),
            decreases n - j,
        {
            let row = &sorted[j];
            out.push(self.tables.hydrate(row));
            j = j + 1;
        }
        proof {
            let rows_s = isort(in_view_rows(tv.notes, view@, flags), |a: NoteRowV, b: NoteRowV| newer_first(a, b));
            assert(vw(sorted@) == rows_s);
            let taken = if rows_s.len() <= cap as int {
                rows_s
            } else {
                rows_s.take(cap as int)
            };
            assert(note_views(out@) =~= taken.map_values(|r: NoteRowV| hydrate(tv, r)));
        }
        out
    }

    fn row_in_view(&self, view: &str, r: &NoteRow, today: bool) -> (b: bool)
        ensures
            b == in_view(view@, r@, today),
    {
        let active = r.deleted_at.is_none() && r.archived_at.is_none();
        if str_eq(view, "today") {
            active && today
        } else if str_eq(view, "todo") {
            active && r.is_todo
        } else if str_eq(view, "favorite") {
            active && r.is_favorite
        } else if str_eq(view, "archive") {
            r.deleted_at.is_none() && r.archived_at.is_some()
        } else if str_eq(view, "trash") {
            r.deleted_at.is_some()
        } else {
            active
        }
    }

    /// The local date each note row was last updated on, read from its `updated_at`
    /// (`None` where that text does not parse).
    pub fn local_dates(&self) -> (r: Vec<Option<Date>>)
        ensures
            local_dates_of(self@, r@),
    {
        let mut out: Vec<Option<Date>> = Vec::new();
        let mut i: usize = 0;
        while i < self.tables.notes.len()
            invariant
                i <= self.tables.notes.len(),
                out.len() == i,
                forall|j: int| 0 <= j < i ==> (#[trigger] out@[j] is Some) == rfc3339_parses(self@.notes[j].updated_at),
                forall|j: int| 0 <= j < i ==> (#[trigger] out@[j] matches Some(d) ==> valid_date(d)),
            decreases self.tables.notes.len() - i,
        {
            let d = local_date_of(self.tables.notes[i].updated_at.as_str());
            proof {
                assert(self@.notes[i as int] == self.tables.notes@[i as int]@);
            }
            out.push(d);
            i = i + 1;
        }
        out
    }

    /// For each note row, whether it was updated on today's local date (only asked for the
    /// `today` view; otherwise all false). Which date today is, and on which local date each
    /// timestamp falls, are the machine's clock and time zone.
    pub fn today_flags_for(&self, view: &str) -> (r: Vec<bool>)
        ensures
            exists|today: Date, local: Seq<Option<Date>>|
                #![trigger today_flags_spec(view@, today, local)]
                valid_date(today) && local_dates_of(self@, local) && r@ == today_flags_spec(view@, today, local),
    {
        let today = local_today();
        let local = self.local_dates();
        today_flags_of(view, today, &local)
    }

    /// The notes of a view, newest update first, at most `min(limit, 100000)`. Which notes
    /// count as updated today depends on the clock and time zone: a note counts when its
    /// `updated_at` falls on today's local date.
    pub fn list_notes(&self, view: &str, limit: usize) -> (r: AppResult<Vec<Note>>)
        ensures
            r is Ok,
            r matches Ok(v) ==> exists|today: Date, local: Seq<Option<Date>>|
                #![trigger today_flags_spec(view@, today, local)]
                valid_date(today) && local_dates_of(self@, local) && note_views(v@) == list_spec(
                    self@,
                    view@,
                    limit,
                    today_flags_spec(view@, today, local),
                ),
    {
        let flags = self.today_flags_for(view);
        Ok(self.list_notes_with_days(view, limit, &flags))
    }

    /// All categories, by sort order then name.
    pub fn list_categories(&self) -> (r: AppResult<Vec<Category>>)
        ensures
            r matches Ok(v) && category_views(v@) == isort(self@.categories, |a: CategoryRowV, b: CategoryRowV| category_order(a, b)).map_values(
                |c: CategoryRowV| category_of_row(c),
            ),
    {
        let rows = dup_vec(&self.tables.categories);
        let sorted = sort_vec(
            rows,
            (|a: &CategoryRow, b: &CategoryRow| -> (r: bool)
                ensures
                    r == category_order(a@, b@),
                {
                    a.sort_order < b.sort_order || (a.sort_order == b.sort_order && nocase_less(
                        a.name.as_str(),
                        b.name.as_str(),
                    ))
                }),
            Ghost(|a: CategoryRowV, b: CategoryRowV| category_order(a, b)),
        );
        let mut out: Vec<Category> = Vec::new();
        let mut j: usize = 0;
        while j < sorted.len()
            invariant
                j <= sorted.len(),
                out.len() == j,
                forall|q: int| 0 <= q < j ==> out@[q]@ == category_of_row(sorted@[q]@),
            decreases sorted.len() - j,
        {
            let c = &sorted[j];
            out.push(
                Category {
                    id: c.id.clone(),
                    name: c.name.clone(),
                    color: c.color.clone(),
                    sort_order: c.sort_order,
                    created_at: c.created_at.clone(),
                    updated_at: c.updated_at.clone(),
                },
            );
            j = j + 1;
        }
        proof {
            assert(category_views(out@) =~= vw(sorted@).map_values(|c: CategoryRowV| category_of_row(c)));
        }
        Ok(out)
    }

    /// All tags, by name without regard to ASCII case.
    pub fn list_tags(&self) -> (r: AppResult<Vec<Tag>>)
        ensures
            r matches Ok(v) && tag_views(v@) == isort(self@.tags, |a: TagRowV, b: TagRowV| tag_order(a, b)).map_values(
                |g: TagRowV| tag_of_row(g),
            ),
    {
        let rows = dup_vec(&self.tables.tags);
        let sorted = sort_vec(
            rows,
            (|a: &TagRow, b: &TagRow| -> (r: bool)
                ensures
                    r == tag_order(a@, b@),
                { nocase_less(a.name.as_str(), b.name.as_str()) }),
            Ghost(|a: TagRowV, b: TagRowV| tag_order(a, b)),
        );
        let mut out: Vec<Tag> = Vec::new();
        let mut j: usize = 0;
        while j < sorted.len()
            invariant
                j <= sorted.len(),
                out.len() == j,
                forall|q: int| 0 <= q < j ==> out@[q]@ == tag_of_row(sorted@[q]@),
            decreases sorted.len() - j,
        {
            let g = &sorted[j];
            out.push(
                Tag {
                    id: g.id.clone(),
                    name: g.name.clone(),
                    created_at: g.created_at.clone(),
                    updated_at: g.updated_at.clone(),
                },
            );
            j = j + 1;
        }
        proof {
            assert(tag_views(out@) =~= vw(sorted@).map_values(|g: TagRowV| tag_of_row(g)));
        }
        Ok(out)
    }
}

} // verus!
