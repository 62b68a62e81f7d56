//! What single operations guarantee of their results, over all inputs.

use vstd::prelude::*;
use crate::analyze::{
    already_tagged, category_scores, is_top, top_category, similarities, most_similar, is_most_similar, similar_enough, at_least,
    OrganizerContextV, analyze_spec, archive_part, category_part, done_part, drafts, due_part, mentions,
    note_text, similar_part, tag_part, task_words, done_words, todo_part, with_ids,
};
use crate::dates::{Date, date_shifted};
use crate::transfer::{exported_notes, no_flags};
use crate::ops::{create_category_spec, max_sort_order};
use crate::suggest::status_spec;
use crate::error::AppErrorV;
use crate::models::CategoryV;
use crate::tables::{CategoryRowV, TagRowV};
use crate::shell::centered;
use crate::organizer::{DateFound, detect_date_spec};
use crate::models::{NoteV, SuggestionV, SuggestionValueV};
use crate::text::{ascii_lower, bytes_lt, contains_spec, lowercase, trim_spec, utf8};
use crate::organizer::{TagCandidateV, similarity_spec, tag_candidates_spec};
use crate::repo::{hydrate, in_view, in_view_rows, list_spec, newer_first};
use crate::seqs::{first_index, insert_pos, isort, lemma_first_index, lemma_isort};
use crate::models::SaveNoteInputV;
use crate::save::{PlanV, add_link, tag_id_taken, tag_with_name, content_hash, finish, fresh_row, input_error, plan_upto, save_spec, with_links};
use crate::tables::NoteRowV;
use crate::writes::reindex;
use crate::laws::lemma_reindex_keeps_notes;
use crate::seqs::lemma_first_index_is;
use crate::models::SearchQueryV;
use crate::tables::TablesV;
use crate::seqs::{keep, lemma_keep_contains, lemma_keep_satisfies};
use crate::search::{haystack, has_all_terms, read_all, wants_index, candidates, has_tag_id, matches_filters, query_limit, query_view, search_notes, search_spec, search_terms};

verus! {

/// The text names a task: it holds one of the task words.
pub open spec fn names_task(text: Seq<char>) -> bool {
    ||| contains_spec(text, "待办"@)
    ||| contains_spec(text, "需要"@)
    ||| contains_spec(text, "记得"@)
    ||| contains_spec(text, "提醒"@)
    ||| contains_spec(text, "安排"@)
    ||| contains_spec(text, "跟进"@)
    ||| contains_spec(text, "提交"@)
    ||| contains_spec(text, "处理"@)
}

/// The text says a task is done.
pub open spec fn says_done(text: Seq<char>) -> bool {
    ||| contains_spec(text, "已完成"@)
    ||| contains_spec(text, "已处理"@)
    ||| contains_spec(text, "搞定"@)
    ||| contains_spec(text, "完成了"@)
}

/// Every proposal of `s` is of the given kind.
pub open spec fn all_of_kind(s: Seq<SuggestionV>, kind: Seq<char>) -> bool {
    forall|k: int| 0 <= k < s.len() ==> (#[trigger] s[k]).kind == kind
}

proof fn lemma_task_words(text: Seq<char>)
    ensures
        mentions(text, task_words()) <==> names_task(text),
        mentions(text, done_words()) <==> says_done(text),
{
    let w = task_words();
    if names_task(text) {
        if contains_spec(text, "待办"@) { assert(contains_spec(text, w[0])); }
        else if contains_spec(text, "需要"@) { assert(contains_spec(text, w[1])); }
        else if contains_spec(text, "记得"@) { assert(contains_spec(text, w[2])); }
        else if contains_spec(text, "提醒"@) { assert(contains_spec(text, w[3])); }
        else if contains_spec(text, "安排"@) { assert(contains_spec(text, w[4])); }
        else if contains_spec(text, "跟进"@) { assert(contains_spec(text, w[5])); }
        else if contains_spec(text, "提交"@) { assert(contains_spec(text, w[6])); }
        else { assert(contains_spec(text, w[7])); }
    }
    let d = done_words();
    if says_done(text) {
        if contains_spec(text, "已完成"@) { assert(contains_spec(text, d[0])); }
        else if contains_spec(text, "已处理"@) { assert(contains_spec(text, d[1])); }
        else if contains_spec(text, "搞定"@) { assert(contains_spec(text, d[2])); }
        else { assert(contains_spec(text, d[3])); }
    }
}

/// A completion ("todo_status") proposal is made exactly when the note is a todo or its
/// text names a task, and its text says the task is done; the note's other proposals are of
/// other kinds.
pub proof fn law_completion_needs_a_task(n: NoteV, ctx: OrganizerContextV, today: Date, age: Option<i64>, ids: Seq<Seq<char>>)
    ensures
        (exists|k: int|
            0 <= k < analyze_spec(n, ctx, today, age, ids).suggestions.len()
                && (#[trigger] analyze_spec(n, ctx, today, age, ids).suggestions[k]).kind == "todo_status"@)
            <==> ((n.is_todo || names_task(n.title + "\n"@ + n.content)) && says_done(n.title + "\n"@ + n.content)),
{
    reveal_strlit("todo_status");
    reveal_strlit("due_date");
    reveal_strlit("todo");
    reveal_strlit("tag");
    reveal_strlit("category");
    reveal_strlit("similar_title");
    reveal_strlit("archive");
    let text = note_text(n);
    lemma_task_words(text);
    let a = due_part(n, today);
    let b = todo_part(n);
    let c = done_part(n);
    let d = tag_part(n, ctx);
    let e = category_part(n, ctx);
    let f = similar_part(n, ctx);
    let g = archive_part(n, ctx, age);
    assert(all_of_kind(a, "due_date"@));
    assert(all_of_kind(b, "todo"@));
    assert(all_of_kind(c, "todo_status"@));
    assert(all_of_kind(d, "tag"@));
    assert(all_of_kind(e, "category"@));
    assert(all_of_kind(f, "similar_title"@));
    assert(all_of_kind(g, "archive"@));
    let ds = drafts(n, ctx, today, age);
    let sugs = analyze_spec(n, ctx, today, age, ids).suggestions;
    assert(sugs == with_ids(ds, ids));
    let ab = a + b;
    let abc = ab + c;
    assert(ds == abc + d + e + f + g);
    assert forall|k: int| 0 <= k < ds.len() && ds[k].kind == "todo_status"@ implies ab.len() <= k < abc.len() by {
        if k < a.len() {
            assert(ds[k] == a[k]); assert(a[k].kind == "due_date"@); assert("due_date"@.len() != "todo_status"@.len());
        } else if k < ab.len() {
            assert(ds[k] == b[k - a.len()]); assert(b[k - a.len()].kind == "todo"@); assert("todo"@.len() != "todo_status"@.len());
        } else if k < abc.len() {
        } else if k < abc.len() + d.len() {
            assert(ds[k] == d[k - abc.len()]); assert(d[k - abc.len()].kind == "tag"@); assert("tag"@.len() != "todo_status"@.len());
        } else if k < abc.len() + d.len() + e.len() {
            assert(ds[k] == e[k - abc.len() - d.len()]); assert(e[k - abc.len() - d.len()].kind == "category"@); assert("category"@.len() != "todo_status"@.len());
        } else if k < abc.len() + d.len() + e.len() + f.len() {
            assert(ds[k] == f[k - abc.len() - d.len() - e.len()]); assert(f[k - abc.len() - d.len() - e.len()].kind == "similar_title"@); assert("similar_title"@.len() != "todo_status"@.len());
        } else {
            assert(ds[k] == g[k - abc.len() - d.len() - e.len() - f.len()]); assert(g[k - abc.len() - d.len() - e.len() - f.len()].kind == "archive"@); assert("archive"@.len() != "todo_status"@.len());
        }
    }
    if exists|k: int| 0 <= k < sugs.len() && (#[trigger] sugs[k]).kind == "todo_status"@ {
        let k = choose|k: int| 0 <= k < sugs.len() && (#[trigger] sugs[k]).kind == "todo_status"@;
        assert(ds[k].kind == "todo_status"@);
        assert(c.len() > 0);
    }
    if (n.is_todo || names_task(text)) && says_done(text) {
        assert(c.len() == 1);
        assert(ds[ab.len() as int] == c[0]);
        assert(sugs[ab.len() as int].kind == "todo_status"@);
    }
}

/// A note a search may return under the query's filters: the filters it names, read
/// directly on the note.
pub open spec fn passes_filters(n: NoteV, q: SearchQueryV) -> bool {
    &&& (q.todo_status matches Some(st) ==> n.is_todo && n.todo_status == st)
    &&& (q.category_id matches Some(c) ==> n.category_id == Some(c))
    &&& (q.is_favorite matches Some(v) ==> n.is_favorite == v)
    &&& forall|i: int| 0 <= i < q.tag_ids.len() ==> exists|j: int| 0 <= j < n.tags.len() && n.tags[j].id == #[trigger] q.tag_ids[i]
    &&& (q.view == Some("trash"@) ==> n.deleted_at is Some)
    &&& (q.view == Some("archive"@) ==> n.deleted_at is None && n.archived_at is Some)
    &&& ((q.view is None || q.view == Some("all"@) || q.view == Some("today"@) || q.view == Some("todo"@)
        || q.view == Some("favorite"@)) ==> n.deleted_at is None && n.archived_at is None)
    &&& (q.view == Some("todo"@) ==> n.is_todo)
    &&& (q.view == Some("favorite"@) ==> n.is_favorite)
}

/// Every note a search returns passes the query's filters: under a todo-status filter it is
/// a todo with that status; under a category, favorite or tag filter it has that category,
/// flag or every one of those tags; and it lies in the query's view. At most the query's
/// limit of notes come back, each with the query's terms.
pub proof fn law_search_results_pass_filters(
    t: TablesV,
    q: SearchQueryV,
    today: Seq<char>,
    flags: Seq<bool>,
    index_ids: Option<Seq<Seq<char>>>,
    now: Seq<char>,
    hid: Seq<char>,
)
    ensures
        search_spec(t, q, today, flags, index_ids, now, hid).1 matches Ok(v) ==> {
            &&& v.len() <= query_limit(q)
            &&& forall|k: int| 0 <= k < v.len() ==> passes_filters(#[trigger] v[k].note, q)
                && v[k].matched_terms == search_terms(q.query)
        },
{
    reveal_strlit("all");
    reveal_strlit("today");
    reveal_strlit("todo");
    reveal_strlit("favorite");
    reveal_strlit("archive");
    reveal_strlit("trash");
    assert("trash"@ != "today"@) by {
        assert("trash"@[1] != "today"@[1]);
    }
    assert("all"@.len() == 3 && "today"@.len() == 5 && "todo"@.len() == 4 && "favorite"@.len() == 8
        && "archive"@.len() == 7 && "trash"@.len() == 5);
    let c = candidates(t, q, flags, index_ids);
    let pf = |n: NoteV| matches_filters(n, q, today);
    let found = keep(c, pf);
    lemma_keep_satisfies(c, pf);
    let sn = search_notes(t, q, today, flags, index_ids);
    assert forall|k: int| 0 <= k < sn.len() implies passes_filters(#[trigger] sn[k], q) by {
        assert(sn[k] == found[k]);
        assert(pf(found[k]));
        let n = sn[k];
        if q.view == Some("trash"@) {
            assert(query_view(q) == "trash"@);
        }
        assert forall|i: int| 0 <= i < q.tag_ids.len() implies exists|j: int| 0 <= j < n.tags.len() && n.tags[j].id == #[trigger] q.tag_ids[i] by {
            assert(has_tag_id(n, q.tag_ids[i]));
        }
    }
}

/// A new note whose status, priority and source are among the accepted values, whose title
/// has at most 500 characters, with no category, whose fresh id is not taken and whose tags
/// can be planned, is created: the save answers `created` with the note as given, under the
/// fresh id, at revision 0.
pub proof fn law_valid_new_note_is_created(t: TablesV, i: SaveNoteInputV, now: Seq<char>, ids: Seq<Seq<char>>)
    requires
        i.id is None,
        i.todo_status == "not_started"@ || i.todo_status == "in_progress"@ || i.todo_status == "completed"@,
        i.priority == "low"@ || i.priority == "normal"@ || i.priority == "high"@ || i.priority == "urgent"@,
        i.source == "main"@ || i.source == "quick"@ || i.source == "import"@,
        i.title.len() <= 500,
        i.category_id is None,
        ids.len() >= 1,
        forall|k: int| 0 <= k < t.notes.len() ==> (#[trigger] t.notes[k]).id != ids[0],
        plan_upto(t.tags, i.tag_names, ids, now, i.tag_names.len()) is Ok,
    ensures
        save_spec(t, i, now, ids).1 matches Ok(resp) && {
            &&& resp.status == "created"@
            &&& resp.note.id == ids[0]
            &&& resp.note.title == i.title
            &&& resp.note.content == i.content
            &&& resp.note.category_id is None
            &&& resp.note.is_favorite == i.is_favorite
            &&& resp.note.is_todo == i.is_todo
            &&& resp.note.todo_status == i.todo_status
            &&& resp.note.priority == i.priority
            &&& resp.note.due_date == i.due_date
            &&& resp.note.source == i.source
            &&& resp.note.revision == 0
            &&& resp.note.deleted_at is None
            &&& resp.note.archived_at is None
        },
{
    assert(input_error(i) is None);
    let id = ids[0];
    let hash = content_hash(i.title, i.content);
    let pl = plan_upto(t.tags, i.tag_names, ids, now, i.tag_names.len())->Ok_0;
    let row = fresh_row(id, i, hash, now);
    let t1 = TablesV { notes: t.notes.push(row), ..t };
    let t2 = reindex(with_links(t1, id, pl), id);
    lemma_reindex_keeps_notes(with_links(t1, id, pl), id);
    assert(!exists|k: int| 0 <= k < t.notes.len() && t.notes[k].id == id) by {
        if exists|k: int| 0 <= k < t.notes.len() && t.notes[k].id == id {
            let k = choose|k: int| 0 <= k < t.notes.len() && t.notes[k].id == id;
            assert(t.notes[k].id != ids[0]);
        }
    }
    assert forall|j: int| 0 <= j < t.notes.len() implies !(|r: NoteRowV| r.id == id)(#[trigger] t2.notes[j]) by {
        assert(t2.notes[j] == t.notes[j]);
    }
    lemma_first_index_is(t2.notes, |r: NoteRowV| r.id == id, t.notes.len() as int);
    assert(save_spec(t, i, now, ids) == finish(t1, id, pl, "created"@));
}

/// Byte order is irreflexive.
pub proof fn lemma_bytes_lt_irreflexive(a: Seq<u8>)
    ensures
        !bytes_lt(a, a),
    decreases a.len(),
{
    if a.len() > 0 {
        lemma_bytes_lt_irreflexive(a.drop_first());
    }
}

/// Byte order is transitive.
pub proof fn lemma_bytes_lt_transitive(a: Seq<u8>, b: Seq<u8>, c: Seq<u8>)
    requires
        bytes_lt(a, b),
        bytes_lt(b, c),
    ensures
        bytes_lt(a, c),
    decreases a.len(),
{
    if a.len() > 0 && a[0] == b[0] && b[0] == c[0] {
        lemma_bytes_lt_transitive(a.drop_first(), b.drop_first(), c.drop_first());
    }
}

/// A stable insertion sort by an irreflexive, transitive order leaves no element before
/// one that sorts strictly before it.
pub proof fn lemma_isort_sorted<A>(s: Seq<A>, lt: spec_fn(A, A) -> bool)
    requires
        forall|a: A| !#[trigger] lt(a, a),
        forall|a: A, b: A, c: A| #[trigger] lt(a, b) && #[trigger] lt(b, c) ==> lt(a, c),
    ensures
        forall|i: int, j: int| 0 <= i < j < isort(s, lt).len() ==> !lt(isort(s, lt)[j], isort(s, lt)[i]),
    decreases s.len(),
{
    if s.len() > 0 {
        lemma_isort_sorted(s.drop_last(), lt);
        lemma_isort(s.drop_last(), lt);
        let r = isort(s.drop_last(), lt);
        let x = s.last();
        let p = |y: A| lt(x, y);
        lemma_first_index(r, p);
        let k = insert_pos(r, x, lt);
        let u = r.insert(k, x);
        assert(isort(s, lt) == u);
        assert forall|i: int, j: int| 0 <= i < j < u.len() implies !lt(u[j], u[i]) by {
            if j < k {
                assert(u[i] == r[i] && u[j] == r[j]);
            } else if j == k {
                assert(u[i] == r[i]);
                assert(!p(r[i]));
            } else if i == k {
                assert(u[j] == r[j - 1]);
                assert(k < r.len());
                assert(p(r[k]));
                if lt(r[j - 1], x) {
                    assert(lt(r[j - 1], r[k]));
                    if k < j - 1 {
                        assert(!lt(r[j - 1], r[k]));
                    }
                }
            } else if i < k {
                assert(u[i] == r[i] && u[j] == r[j - 1]);
            } else {
                assert(u[i] == r[i - 1] && u[j] == r[j - 1]);
            }
        }
    }
}

/// A row in the view is among the view's rows.
proof fn lemma_in_view_rows_has(notes: Seq<NoteRowV>, view: Seq<char>, flags: Seq<bool>, k: int)
    requires
        flags.len() == notes.len(),
        0 <= k < notes.len(),
        in_view(view, notes[k], flags[k]),
    ensures
        in_view_rows(notes, view, flags).contains(notes[k]),
    decreases notes.len(),
{
    let r = in_view_rows(notes.drop_last(), view, flags.drop_last());
    if k == notes.len() - 1 {
        assert(in_view_rows(notes, view, flags) == r.push(notes.last()));
        assert(in_view_rows(notes, view, flags)[r.len() as int] == notes[k]);
    } else {
        assert(notes.drop_last()[k] == notes[k] && flags.drop_last()[k] == flags[k]);
        lemma_in_view_rows_has(notes.drop_last(), view, flags.drop_last(), k);
        let m = choose|m: int| 0 <= m < r.len() && r[m] == notes[k];
        if in_view(view, notes.last(), flags.last()) {
            assert(in_view_rows(notes, view, flags)[m] == notes[k]);
        } else {
            assert(in_view_rows(notes, view, flags)[m] == notes[k]);
        }
    }
}

/// A list of a view comes newest update first, and no note of the view that the limit
/// left out was updated later than one that is listed.
pub proof fn law_list_newest_first(t: TablesV, view: Seq<char>, limit: usize, flags: Seq<bool>)
    requires
        flags.len() == t.notes.len(),
    ensures
        forall|i: int, j: int| 0 <= i < j < list_spec(t, view, limit, flags).len() ==> !bytes_lt(
            utf8(list_spec(t, view, limit, flags)[i].updated_at),
            utf8(list_spec(t, view, limit, flags)[j].updated_at),
        ),
        forall|k: int, j: int|
            0 <= k < t.notes.len() && in_view(view, t.notes[k], flags[k]) && 0 <= j < list_spec(t, view, limit, flags).len()
                && bytes_lt(utf8(#[trigger] list_spec(t, view, limit, flags)[j].updated_at), utf8(#[trigger] t.notes[k].updated_at))
                ==> list_spec(t, view, limit, flags).contains(hydrate(t, t.notes[k])),
{
    let lt = |a: NoteRowV, b: NoteRowV| newer_first(a, b);
    assert forall|a: NoteRowV| !#[trigger] lt(a, a) by {
        lemma_bytes_lt_irreflexive(utf8(a.updated_at));
    }
    assert forall|a: NoteRowV, b: NoteRowV, c: NoteRowV| #[trigger] lt(a, b) && #[trigger] lt(b, c) implies lt(a, c) by {
        lemma_bytes_lt_transitive(utf8(c.updated_at), utf8(b.updated_at), utf8(a.updated_at));
    }
    let cap = if limit < 100_000 {
        limit as int
    } else {
        100_000
    };
    let vr = in_view_rows(t.notes, view, flags);
    let rows = isort(vr, lt);
    lemma_isort(vr, lt);
    lemma_isort_sorted(vr, lt);
    let taken = if rows.len() <= cap {
        rows
    } else {
        rows.take(cap)
    };
    let v = list_spec(t, view, limit, flags);
    assert(v == taken.map_values(|r: NoteRowV| hydrate(t, r)));
    assert forall|i: int, j: int| 0 <= i < j < v.len() implies !bytes_lt(utf8(v[i].updated_at), utf8(v[j].updated_at)) by {
        assert(taken[i] == rows[i] && taken[j] == rows[j]);
        assert(!lt(rows[j], rows[i]));
    }
    assert forall|k: int, j: int|
        0 <= k < t.notes.len() && in_view(view, t.notes[k], flags[k]) && 0 <= j < v.len()
            && bytes_lt(utf8(#[trigger] v[j].updated_at), utf8(#[trigger] t.notes[k].updated_at)) implies v.contains(hydrate(t, t.notes[k])) by {
        let x = t.notes[k];
        lemma_in_view_rows_has(t.notes, view, flags, k);
        assert(rows.contains(x));
        let m = choose|m: int| 0 <= m < rows.len() && rows[m] == x;
        assert(taken[j] == rows[j]);
        if m >= cap {
            assert(j < m);
            assert(!lt(rows[m], rows[j]));
            assert(lt(x, rows[j]));
        }
        assert(m < taken.len());
        assert(taken[m] == x);
        assert(v[m] == hydrate(t, x));
    }
}

/// A row among the view's rows is a row of the table in the view.
proof fn lemma_in_view_rows_from(notes: Seq<NoteRowV>, view: Seq<char>, flags: Seq<bool>, x: NoteRowV)
    requires
        in_view_rows(notes, view, flags).contains(x),
    ensures
        exists|k: int| 0 <= k < notes.len() && k < flags.len() && notes[k] == x && in_view(view, x, flags[k]),
    decreases notes.len(),
{
    let r = in_view_rows(notes.drop_last(), view, flags.drop_last());
    let last = notes.len() - 1;
    if r.contains(x) {
        lemma_in_view_rows_from(notes.drop_last(), view, flags.drop_last(), x);
        let k = choose|k: int| 0 <= k < notes.drop_last().len() && k < flags.drop_last().len() && notes.drop_last()[k] == x
            && in_view(view, x, flags.drop_last()[k]);
        assert(notes[k] == x && flags[k] == flags.drop_last()[k]);
    } else {
        let m = choose|m: int| 0 <= m < in_view_rows(notes, view, flags).len() && in_view_rows(notes, view, flags)[m] == x;
        assert(in_view_rows(notes, view, flags) == r.push(notes.last()));
        assert(x == notes[last]);
        assert(in_view(view, notes.last(), flags.last()));
    }
}

/// A listed note lies in its view, read on the note: out of the trash and the archive for
/// the views of notes in use (a todo in `todo`, a favorite in `favorite`, updated today in
/// `today`), archived and not trashed in `archive`, trashed in `trash`.
pub open spec fn in_list_view(view: Seq<char>, n: NoteV, today: bool) -> bool {
    &&& (view == "trash"@ ==> n.deleted_at is Some)
    &&& (view == "archive"@ ==> n.deleted_at is None && n.archived_at is Some)
    &&& (view != "trash"@ && view != "archive"@ ==> n.deleted_at is None && n.archived_at is None)
    &&& (view == "todo"@ ==> n.is_todo)
    &&& (view == "favorite"@ ==> n.is_favorite)
    &&& (view == "today"@ ==> today)
}

/// Every listed note is a stored note of the view, read back; no more than the limit (and
/// 100000) come back; and when fewer come back, every note of the view is listed.
pub proof fn law_list_is_the_view(t: TablesV, view: Seq<char>, limit: usize, flags: Seq<bool>)
    requires
        flags.len() == t.notes.len(),
    ensures
        list_spec(t, view, limit, flags).len() <= limit,
        list_spec(t, view, limit, flags).len() <= 100_000,
        forall|j: int| 0 <= j < list_spec(t, view, limit, flags).len() ==> exists|k: int|
            0 <= k < t.notes.len() && #[trigger] list_spec(t, view, limit, flags)[j] == hydrate(t, t.notes[k])
                && in_list_view(view, list_spec(t, view, limit, flags)[j], flags[k]),
        forall|k: int|
            0 <= k < t.notes.len() && in_view(view, #[trigger] t.notes[k], flags[k]) && list_spec(t, view, limit, flags).len()
                < limit && list_spec(t, view, limit, flags).len() < 100_000 ==> list_spec(t, view, limit, flags).contains(
                hydrate(t, t.notes[k]),
            ),
{
    reveal_strlit("today");
    reveal_strlit("todo");
    reveal_strlit("favorite");
    reveal_strlit("archive");
    reveal_strlit("trash");
    assert("trash"@ != "today"@) by {
        assert("trash"@[1] != "today"@[1]);
    }
    assert("today"@.len() == 5 && "todo"@.len() == 4 && "favorite"@.len() == 8 && "archive"@.len() == 7
        && "trash"@.len() == 5);
    let lt = |a: NoteRowV, b: NoteRowV| newer_first(a, b);
    let cap = if limit < 100_000 {
        limit as int
    } else {
        100_000
    };
    let vr = in_view_rows(t.notes, view, flags);
    let rows = isort(vr, lt);
    lemma_isort(vr, lt);
    let taken = if rows.len() <= cap {
        rows
    } else {
        rows.take(cap)
    };
    let v = list_spec(t, view, limit, flags);
    assert(v == taken.map_values(|r: NoteRowV| hydrate(t, r)));
    assert forall|j: int| 0 <= j < v.len() implies exists|k: int|
        0 <= k < t.notes.len() && #[trigger] v[j] == hydrate(t, t.notes[k]) && in_list_view(view, v[j], flags[k]) by {
        assert(taken[j] == rows[j]);
        assert(rows.contains(rows[j]));
        lemma_in_view_rows_from(t.notes, view, flags, rows[j]);
        let k = choose|k: int| 0 <= k < t.notes.len() && k < flags.len() && t.notes[k] == rows[j] && in_view(view, rows[j], flags[k]);
        assert(v[j] == hydrate(t, t.notes[k]));
        assert(in_list_view(view, v[j], flags[k]));
    }
    assert forall|k: int|
        0 <= k < t.notes.len() && in_view(view, #[trigger] t.notes[k], flags[k]) && v.len() < limit && v.len() < 100_000
            implies v.contains(hydrate(t, t.notes[k])) by {
        lemma_in_view_rows_has(t.notes, view, flags, k);
        let x = t.notes[k];
        assert(rows.contains(x));
        let m = choose|m: int| 0 <= m < rows.len() && rows[m] == x;
        assert(taken == rows);
        assert(v[m] == hydrate(t, x));
    }
}

/// The date found is the given shift of today, named by the given word.
pub open spec fn found_shift(r: Option<DateFound>, today: Date, days: int, word: Seq<char>) -> bool {
    &&& r is Some
    &&& date_shifted(today, days) is Some
    &&& r->Some_0.0 == date_shifted(today, days)->Some_0
    &&& r->Some_0.1 == word
}

/// The relative date words, in their order of precedence: 今天 names today, 明天 the day
/// after, 后天 the day after that, 下周 a week on; the word found is named as the source.
pub proof fn law_relative_dates(text: Seq<char>, today: Date)
    ensures
        contains_spec(text, "今天"@) && date_shifted(today, 0) is Some ==> found_shift(
            detect_date_spec(text, today),
            today,
            0,
            "今天"@,
        ),
        !contains_spec(text, "今天"@) && contains_spec(text, "明天"@) && date_shifted(today, 1) is Some ==> found_shift(
            detect_date_spec(text, today),
            today,
            1,
            "明天"@,
        ),
        !contains_spec(text, "今天"@) && !contains_spec(text, "明天"@) && contains_spec(text, "后天"@) && date_shifted(
            today,
            2,
        ) is Some ==> found_shift(detect_date_spec(text, today), today, 2, "后天"@),
        !contains_spec(text, "今天"@) && !contains_spec(text, "明天"@) && !contains_spec(text, "后天"@) && contains_spec(
            text,
            "下周"@,
        ) && date_shifted(today, 7) is Some ==> found_shift(detect_date_spec(text, today), today, 7, "下周"@),
{
}
/// Some proposal of `s` is of the given kind.
pub open spec fn has_kind(s: Seq<SuggestionV>, kind: Seq<char>) -> bool {
    exists|k: int| 0 <= k < s.len() && (#[trigger] s[k]).kind == kind
}

/// The kinds the rules name are pairwise different.
proof fn lemma_kinds_differ()
    ensures
        "due_date"@ != "todo"@ && "due_date"@ != "todo_status"@ && "due_date"@ != "tag"@ && "due_date"@ != "category"@
            && "due_date"@ != "similar_title"@ && "due_date"@ != "archive"@,
        "todo"@ != "todo_status"@ && "todo"@ != "tag"@ && "todo"@ != "category"@ && "todo"@ != "similar_title"@ && "todo"@
            != "archive"@,
        "todo_status"@ != "tag"@ && "todo_status"@ != "category"@ && "todo_status"@ != "similar_title"@ && "todo_status"@
            != "archive"@,
        "tag"@ != "category"@ && "tag"@ != "similar_title"@ && "tag"@ != "archive"@,
        "category"@ != "similar_title"@ && "category"@ != "archive"@,
        "similar_title"@ != "archive"@,
{
    reveal_strlit("todo_status");
    reveal_strlit("due_date");
    reveal_strlit("todo");
    reveal_strlit("tag");
    reveal_strlit("category");
    reveal_strlit("similar_title");
    reveal_strlit("archive");
    assert("due_date"@[0] != "category"@[0]);
    assert("due_date"@.len() == 8 && "todo"@.len() == 4 && "todo_status"@.len() == 11 && "tag"@.len() == 3
        && "category"@.len() == 8 && "similar_title"@.len() == 13 && "archive"@.len() == 7);
}

/// Where a proposal of each kind comes from: a proposal of the result is, but for its id,
/// the one rule of that kind made; and each rule's proposals are in the result.
pub proof fn lemma_kind_source(n: NoteV, ctx: OrganizerContextV, today: Date, age: Option<i64>, ids: Seq<Seq<char>>, kind: Seq<char>, part: Seq<SuggestionV>)
    requires
        (kind == "due_date"@ && part == due_part(n, today)) || (kind == "todo"@ && part == todo_part(n))
            || (kind == "todo_status"@ && part == done_part(n)) || (kind == "tag"@ && part == tag_part(n, ctx))
            || (kind == "category"@ && part == category_part(n, ctx)) || (kind == "similar_title"@ && part == similar_part(n, ctx))
            || (kind == "archive"@ && part == archive_part(n, ctx, age)),
    ensures
        has_kind(analyze_spec(n, ctx, today, age, ids).suggestions, kind) <==> part.len() > 0,
        forall|k: int| 0 <= k < analyze_spec(n, ctx, today, age, ids).suggestions.len()
            && (#[trigger] analyze_spec(n, ctx, today, age, ids).suggestions[k]).kind == kind ==> exists|m: int|
            0 <= m < part.len() && analyze_spec(n, ctx, today, age, ids).suggestions[k] == (SuggestionV { id: ids[k], ..#[trigger] part[m] }),
{
    lemma_kinds_differ();
    let a = due_part(n, today);
    let b = todo_part(n);
    let c = done_part(n);
    let d = tag_part(n, ctx);
    let e = category_part(n, ctx);
    let f = similar_part(n, ctx);
    let g = archive_part(n, ctx, age);
    assert(all_of_kind(a, "due_date"@));
    assert(all_of_kind(b, "todo"@));
    assert(all_of_kind(c, "todo_status"@));
    assert(all_of_kind(d, "tag"@));
    assert(all_of_kind(e, "category"@));
    assert(all_of_kind(f, "similar_title"@));
    assert(all_of_kind(g, "archive"@));
    let ds = drafts(n, ctx, today, age);
    let sugs = analyze_spec(n, ctx, today, age, ids).suggestions;
    let o1 = a.len() as int;
    let o2 = o1 + b.len();
    let o3 = o2 + c.len();
    let o4 = o3 + d.len();
    let o5 = o4 + e.len();
    let o6 = o5 + f.len();
    let off = if kind == "due_date"@ { 0 } else if kind == "todo"@ { o1 } else if kind == "todo_status"@ { o2 }
        else if kind == "tag"@ { o3 } else if kind == "category"@ { o4 } else if kind == "similar_title"@ { o5 } else { o6 };
    assert(ds == a + b + c + d + e + f + g);
    assert(ds.len() == o6 + g.len());
    assert forall|k: int| 0 <= k < ds.len() implies
        (#[trigger] ds[k]).kind == kind <==> (off <= k < off + part.len() && ds[k] == part[k - off]) by {
        if k < o1 {
            assert(ds[k] == a[k]);
            assert(a[k].kind == "due_date"@);
        } else if k < o2 {
            assert(ds[k] == b[k - o1]);
            assert(b[k - o1].kind == "todo"@);
        } else if k < o3 {
            assert(ds[k] == c[k - o2]);
            assert(c[k - o2].kind == "todo_status"@);
        } else if k < o4 {
            assert(ds[k] == d[k - o3]);
            assert(d[k - o3].kind == "tag"@);
        } else if k < o5 {
            assert(ds[k] == e[k - o4]);
            assert(e[k - o4].kind == "category"@);
        } else if k < o6 {
            assert(ds[k] == f[k - o5]);
            assert(f[k - o5].kind == "similar_title"@);
        } else {
            assert(ds[k] == g[k - o6]);
            assert(g[k - o6].kind == "archive"@);
        }
    }
    assert(sugs == with_ids(ds, ids));
    if part.len() > 0 {
        assert(part[0].kind == kind);
        assert(off < ds.len());
        assert(ds[off] == part[0]);
        assert(sugs[off].kind == kind);
    }
    assert forall|k: int| 0 <= k < sugs.len() && (#[trigger] sugs[k]).kind == kind implies exists|m: int|
        0 <= m < part.len() && sugs[k] == (SuggestionV { id: ids[k], ..#[trigger] part[m] }) by {
        assert(ds[k].kind == kind);
        assert(sugs[k] == (SuggestionV { id: ids[k], ..part[k - off] }));
    }
}

/// A "todo" proposal is made exactly when the note is no todo and its text names a task.
pub proof fn law_todo_needs_task_word(n: NoteV, ctx: OrganizerContextV, today: Date, age: Option<i64>, ids: Seq<Seq<char>>)
    ensures
        has_kind(analyze_spec(n, ctx, today, age, ids).suggestions, "todo"@) <==> (!n.is_todo && names_task(
            n.title + "\n"@ + n.content,
        )),
{
    lemma_task_words(note_text(n));
    lemma_kind_source(n, ctx, today, age, ids, "todo"@, todo_part(n));
}

/// An "archive" proposal is made exactly when the note is no favorite, no open todo, not
/// archived, and it is known to have gone unchanged for at least the configured number of
/// days (at least one).
pub proof fn law_archive_when_stale(n: NoteV, ctx: OrganizerContextV, today: Date, age: Option<i64>, ids: Seq<Seq<char>>)
    ensures
        has_kind(analyze_spec(n, ctx, today, age, ids).suggestions, "archive"@) <==> {
            &&& !n.is_favorite
            &&& (!n.is_todo || n.todo_status == "completed"@)
            &&& n.archived_at is None
            &&& age is Some
            &&& age->Some_0 >= ctx.archive_days
            &&& age->Some_0 >= 1
        },
{
    lemma_kind_source(n, ctx, today, age, ids, "archive"@, archive_part(n, ctx, age));
}

/// A "due_date" proposal is made only for a note without a due date; a "category" proposal
/// only for a note without a category, and it names one of the context's categories.
pub proof fn law_due_and_category_only_when_missing(n: NoteV, ctx: OrganizerContextV, today: Date, age: Option<i64>, ids: Seq<Seq<char>>)
    ensures
        has_kind(analyze_spec(n, ctx, today, age, ids).suggestions, "due_date"@) ==> n.due_date is None,
        has_kind(analyze_spec(n, ctx, today, age, ids).suggestions, "category"@) ==> n.category_id is None,
        forall|k: int| 0 <= k < analyze_spec(n, ctx, today, age, ids).suggestions.len()
            && (#[trigger] analyze_spec(n, ctx, today, age, ids).suggestions[k]).kind == "category"@ ==> exists|c: int|
            0 <= c < ctx.categories.len() && analyze_spec(n, ctx, today, age, ids).suggestions[k].value == (SuggestionValueV::Category {
                category_id: ctx.categories[c].id,
                category_name: ctx.categories[c].name,
            }),
{
    lemma_kind_source(n, ctx, today, age, ids, "due_date"@, due_part(n, today));
    lemma_kind_source(n, ctx, today, age, ids, "category"@, category_part(n, ctx));
    let sugs = analyze_spec(n, ctx, today, age, ids).suggestions;
    let e = category_part(n, ctx);
    assert forall|k: int| 0 <= k < sugs.len() && (#[trigger] sugs[k]).kind == "category"@ implies exists|c: int|
        0 <= c < ctx.categories.len() && sugs[k].value == (SuggestionValueV::Category {
            category_id: ctx.categories[c].id,
            category_name: ctx.categories[c].name,
        }) by {
        let m = choose|m: int| 0 <= m < e.len() && sugs[k] == (SuggestionV { id: ids[k], ..#[trigger] e[m] });
        let scores = category_scores(ctx, lowercase(note_text(n)));
        let i = top_category(scores)->Some_0;
        assert(is_top(scores, i));
        assert(scores.len() == ctx.categories.len());
        assert(sugs[k].value == e[0].value);
    }
}

/// A "similar_title" proposal is made only for a note with a title, and names another note
/// of the context whose title is at least 72% similar to this one's (shared trigrams over
/// all trigrams); no note of the context is more similar.
pub proof fn law_similar_title_is_close(n: NoteV, ctx: OrganizerContextV, today: Date, age: Option<i64>, ids: Seq<Seq<char>>)
    ensures
        has_kind(analyze_spec(n, ctx, today, age, ids).suggestions, "similar_title"@) ==> trim_spec(n.title).len() > 0,
        forall|k: int| 0 <= k < analyze_spec(n, ctx, today, age, ids).suggestions.len()
            && (#[trigger] analyze_spec(n, ctx, today, age, ids).suggestions[k]).kind == "similar_title"@ ==> exists|i: int|
            0 <= i < ctx.other_titles.len() && analyze_spec(n, ctx, today, age, ids).suggestions[k].value == (SuggestionValueV::SimilarTitle {
                note_id: ctx.other_titles[i].0,
                title: ctx.other_titles[i].1,
            }) && similarity_spec(n.title, ctx.other_titles[i].1).numerator * 100 >= 72 * similarity_spec(
                n.title,
                ctx.other_titles[i].1,
            ).denominator && forall|j: int| 0 <= j < ctx.other_titles.len() ==> !(#[trigger] similarity_spec(n.title, ctx.other_titles[j].1).numerator
                * similarity_spec(n.title, ctx.other_titles[i].1).denominator > similarity_spec(n.title, ctx.other_titles[i].1).numerator
                * similarity_spec(n.title, ctx.other_titles[j].1).denominator && similarity_spec(n.title, ctx.other_titles[j].1).numerator * 100
                >= 72 * similarity_spec(n.title, ctx.other_titles[j].1).denominator),
{
    lemma_kind_source(n, ctx, today, age, ids, "similar_title"@, similar_part(n, ctx));
    let sugs = analyze_spec(n, ctx, today, age, ids).suggestions;
    let f = similar_part(n, ctx);
    let sims = similarities(n.title, ctx.other_titles);
    assert forall|k: int| 0 <= k < sugs.len() && (#[trigger] sugs[k]).kind == "similar_title"@ implies exists|i: int|
        0 <= i < ctx.other_titles.len() && sugs[k].value == (SuggestionValueV::SimilarTitle {
            note_id: ctx.other_titles[i].0,
            title: ctx.other_titles[i].1,
        }) && similarity_spec(n.title, ctx.other_titles[i].1).numerator * 100 >= 72 * similarity_spec(
            n.title,
            ctx.other_titles[i].1,
        ).denominator && forall|j: int| 0 <= j < ctx.other_titles.len() ==> !(#[trigger] similarity_spec(n.title, ctx.other_titles[j].1).numerator
            * similarity_spec(n.title, ctx.other_titles[i].1).denominator > similarity_spec(n.title, ctx.other_titles[i].1).numerator
            * similarity_spec(n.title, ctx.other_titles[j].1).denominator && similarity_spec(n.title, ctx.other_titles[j].1).numerator * 100
            >= 72 * similarity_spec(n.title, ctx.other_titles[j].1).denominator) by {
        let m = choose|m: int| 0 <= m < f.len() && sugs[k] == (SuggestionV { id: ids[k], ..#[trigger] f[m] });
        let i = most_similar(sims)->Some_0;
        assert(is_most_similar(sims, i));
        assert(sugs[k].value == f[0].value);
        assert(sims[i] == similarity_spec(n.title, ctx.other_titles[i].1));
        assert forall|j: int| 0 <= j < ctx.other_titles.len() implies !(#[trigger] similarity_spec(n.title, ctx.other_titles[j].1).numerator
            * similarity_spec(n.title, ctx.other_titles[i].1).denominator > similarity_spec(n.title, ctx.other_titles[i].1).numerator
            * similarity_spec(n.title, ctx.other_titles[j].1).denominator && similarity_spec(n.title, ctx.other_titles[j].1).numerator * 100
            >= 72 * similarity_spec(n.title, ctx.other_titles[j].1).denominator) by {
            assert(sims[j] == similarity_spec(n.title, ctx.other_titles[j].1));
            if similar_enough(sims[j]) {
                assert(at_least(sims[i], sims[j]));
            }
        }
    }
}

/// A "tag" proposal names a tag the note does not carry yet (ignoring ASCII case).
pub proof fn law_tag_proposals_are_new(n: NoteV, ctx: OrganizerContextV, today: Date, age: Option<i64>, ids: Seq<Seq<char>>)
    ensures
        forall|k: int| 0 <= k < analyze_spec(n, ctx, today, age, ids).suggestions.len()
            && (#[trigger] analyze_spec(n, ctx, today, age, ids).suggestions[k]).kind == "tag"@ ==> exists|name: Seq<char>|
            analyze_spec(n, ctx, today, age, ids).suggestions[k].value == (SuggestionValueV::TagName { tag_name: name })
                && forall|i: int| 0 <= i < n.tags.len() ==> ascii_lower(#[trigger] n.tags[i].name) != ascii_lower(name),
{
    lemma_kind_source(n, ctx, today, age, ids, "tag"@, tag_part(n, ctx));
    let sugs = analyze_spec(n, ctx, today, age, ids).suggestions;
    let d = tag_part(n, ctx);
    let cands = tag_candidates_spec(note_text(n), ctx.tags);
    let p = |c: TagCandidateV| !already_tagged(n, c.name);
    let kept = keep(cands, p);
    lemma_keep_satisfies(cands, p);
    assert forall|k: int| 0 <= k < sugs.len() && (#[trigger] sugs[k]).kind == "tag"@ implies exists|name: Seq<char>|
        sugs[k].value == (SuggestionValueV::TagName { tag_name: name })
            && forall|i: int| 0 <= i < n.tags.len() ==> ascii_lower(#[trigger] n.tags[i].name) != ascii_lower(name) by {
        let m = choose|m: int| 0 <= m < d.len() && sugs[k] == (SuggestionV { id: ids[k], ..#[trigger] d[m] });
        assert(d[m].value == (SuggestionValueV::TagName { tag_name: kept[m].name }));
        assert(p(kept[m]));
        assert forall|i: int| 0 <= i < n.tags.len() implies ascii_lower(#[trigger] n.tags[i].name) != ascii_lower(kept[m].name) by {
            if ascii_lower(n.tags[i].name) == ascii_lower(kept[m].name) {
                assert(already_tagged(n, kept[m].name));
            }
        }
    }
}

/// The notes read by id all carry one of those ids.
proof fn lemma_read_all_ids(t: TablesV, ids: Seq<Seq<char>>)
    ensures
        forall|k: int| 0 <= k < read_all(t, ids).len() ==> ids.contains(#[trigger] read_all(t, ids)[k].id),
    decreases ids.len(),
{
    if ids.len() > 0 {
        lemma_read_all_ids(t, ids.drop_last());
        let r = read_all(t, ids.drop_last());
        assert forall|k: int| 0 <= k < read_all(t, ids).len() implies ids.contains(#[trigger] read_all(t, ids)[k].id) by {
            if k < r.len() {
                assert(read_all(t, ids)[k] == r[k]);
                let j = choose|j: int| 0 <= j < ids.drop_last().len() && ids.drop_last()[j] == r[k].id;
                assert(ids[j] == r[k].id);
            } else {
                lemma_first_index(t.notes, |x: NoteRowV| x.id == ids.last());
                assert(ids[ids.len() - 1] == ids.last());
            }
        }
    }
}

/// Without the index's answer, every note a search returns holds every term of the query
/// (in its lowercased title, content, tags, category or due date); with the index's answer,
/// when the index is used, every note returned is one the index named.
pub proof fn law_search_results_match_terms(
    t: TablesV,
    q: SearchQueryV,
    today: Seq<char>,
    flags: Seq<bool>,
    index_ids: Option<Seq<Seq<char>>>,
    now: Seq<char>,
    hid: Seq<char>,
)
    ensures
        search_spec(t, q, today, flags, index_ids, now, hid).1 matches Ok(v) ==> {
            &&& (index_ids is None || !wants_index(q)) ==> forall|k: int, i: int|
                0 <= k < v.len() && 0 <= i < search_terms(q.query).len() ==> contains_spec(
                    haystack(#[trigger] v[k].note),
                    #[trigger] search_terms(q.query)[i],
                )
            &&& (index_ids is Some && wants_index(q)) ==> forall|k: int|
                0 <= k < v.len() ==> index_ids->Some_0.contains(#[trigger] v[k].note.id)
        },
{
    let c = candidates(t, q, flags, index_ids);
    let pf = |n: NoteV| matches_filters(n, q, today);
    let found = keep(c, pf);
    let sn = search_notes(t, q, today, flags, index_ids);
    assert forall|k: int| 0 <= k < sn.len() implies c.contains(#[trigger] sn[k]) by {
        assert(sn[k] == found[k]);
        assert(found.contains(found[k]));
        lemma_keep_contains(c, pf, found[k]);
    }
    let terms = search_terms(q.query);
    if index_ids is None || !wants_index(q) {
        let l = list_spec(t, query_view(q), 2000, flags);
        let ph = |n: NoteV| has_all_terms(n, terms);
        lemma_keep_satisfies(l, ph);
        assert forall|k: int| 0 <= k < sn.len() implies has_all_terms(#[trigger] sn[k], terms) by {
            assert(c.contains(sn[k]));
            let j = choose|j: int| 0 <= j < c.len() && c[j] == sn[k];
            assert(ph(c[j]));
        }
    } else {
        lemma_read_all_ids(t, index_ids->Some_0);
        assert forall|k: int| 0 <= k < sn.len() implies index_ids->Some_0.contains(#[trigger] sn[k].id) by {
            assert(c.contains(sn[k]));
            let j = choose|j: int| 0 <= j < c.len() && c[j] == sn[k];
            assert(index_ids->Some_0.contains(c[j].id));
        }
    }
}

/// The quick window, when it fits the work area, lies inside it with the space left over
/// split evenly (to one pixel) between its two sides; a window larger than the area starts
/// at the area's start.
pub proof fn law_quick_window_centered(start: int, length: int, size: int)
    requires
        length >= 0,
        size >= 0,
    ensures
        size <= length ==> {
            let c = centered(start, length, size);
            &&& start <= c
            &&& c + size <= start + length
            &&& (c - start) - ((start + length) - (c + size)) <= 0
            &&& ((start + length) - (c + size)) - (c - start) <= 1
        },
        size > length ==> centered(start, length, size) == start,
{
}

/// The largest sort order is at least every category's.
proof fn lemma_max_sort_order(s: Seq<CategoryRowV>)
    ensures
        s.len() == 0 <==> max_sort_order(s) is None,
        max_sort_order(s) matches Some(m) ==> forall|k: int| 0 <= k < s.len() ==> (#[trigger] s[k]).sort_order <= m,
    decreases s.len(),
{
    if s.len() > 0 {
        lemma_max_sort_order(s.drop_last());
        assert forall|k: int| 0 <= k < s.len() implies (#[trigger] s[k]).sort_order <= max_sort_order(s)->Some_0 by {
            if k < s.len() - 1 {
                assert(s[k] == s.drop_last()[k]);
            }
        }
    }
}

/// Creating a category: a blank name is refused; a name whose normalized form is taken is
/// refused; a created category carries the trimmed name, the color and the fresh id, is
/// added after every other category (its sort order above theirs), and nothing else changes.
pub proof fn law_create_category(t: TablesV, name: Seq<char>, color: Seq<char>, now: Seq<char>, id: Seq<char>)
    ensures
        trim_spec(name).len() == 0 ==> create_category_spec(t, name, color, now, id).1 == Err::<CategoryV, AppErrorV>(
            AppErrorV::Validation("分类名称不能为空"@),
        ),
        (exists|k: int| 0 <= k < t.categories.len() && t.categories[k].normalized_name == lowercase(trim_spec(trim_spec(name))))
            ==> create_category_spec(t, name, color, now, id).1 is Err,
        create_category_spec(t, name, color, now, id).1 matches Ok(c) ==> {
            let t2 = create_category_spec(t, name, color, now, id).0;
            &&& c.name == trim_spec(name)
            &&& c.name.len() > 0
            &&& c.color == color
            &&& c.id == id
            &&& t2.categories.len() == t.categories.len() + 1
            &&& t2.categories.drop_last() == t.categories
            &&& t2.categories.last().id == id
            &&& t2.notes == t.notes
            &&& forall|k: int| 0 <= k < t.categories.len() ==> (#[trigger] t.categories[k]).sort_order < c.sort_order
        },
{
    lemma_max_sort_order(t.categories);
    if create_category_spec(t, name, color, now, id).1 is Ok {
        let t2 = create_category_spec(t, name, color, now, id).0;
        assert(t2.categories.drop_last() == t.categories);
    }
}

/// An export holds every stored note (in use, archived or trashed), as read back, when no
/// view has 100000 notes or more; and every note it holds is stored.
pub proof fn law_export_holds_every_note(t: TablesV)
    ensures
        ({
            let f = no_flags(t.notes.len());
            list_spec(t, "all"@, 100_000, f).len() < 100_000 && list_spec(t, "archive"@, 100_000, f).len() < 100_000
                && list_spec(t, "trash"@, 100_000, f).len() < 100_000
        }) ==> forall|k: int| 0 <= k < t.notes.len() ==> exported_notes(t).contains(hydrate(t, #[trigger] t.notes[k])),
        forall|j: int| 0 <= j < exported_notes(t).len() ==> exists|k: int|
            0 <= k < t.notes.len() && #[trigger] exported_notes(t)[j] == hydrate(t, t.notes[k]),
{
    reveal_strlit("today");
    reveal_strlit("todo");
    reveal_strlit("favorite");
    reveal_strlit("archive");
    reveal_strlit("trash");
    reveal_strlit("all");
    assert("trash"@ != "today"@) by {
        assert("trash"@[1] != "today"@[1]);
    }
    assert("all"@.len() == 3 && "today"@.len() == 5 && "todo"@.len() == 4 && "favorite"@.len() == 8
        && "archive"@.len() == 7 && "trash"@.len() == 5);
    let f = no_flags(t.notes.len());
    let a = list_spec(t, "all"@, 100_000, f);
    let b = list_spec(t, "archive"@, 100_000, f);
    let c = list_spec(t, "trash"@, 100_000, f);
    law_list_is_the_view(t, "all"@, 100_000, f);
    law_list_is_the_view(t, "archive"@, 100_000, f);
    law_list_is_the_view(t, "trash"@, 100_000, f);
    let e = exported_notes(t);
    assert(e == a + b + c);
    if a.len() < 100_000 && b.len() < 100_000 && c.len() < 100_000 {
        assert forall|k: int| 0 <= k < t.notes.len() implies e.contains(hydrate(t, #[trigger] t.notes[k])) by {
            let x = hydrate(t, t.notes[k]);
            if t.notes[k].deleted_at is Some {
                assert(in_view("trash"@, t.notes[k], f[k]));
                let m = choose|m: int| 0 <= m < c.len() && c[m] == x;
                assert(e[a.len() + b.len() + m] == x);
            } else if t.notes[k].archived_at is Some {
                assert(in_view("archive"@, t.notes[k], f[k]));
                let m = choose|m: int| 0 <= m < b.len() && b[m] == x;
                assert(e[a.len() + m] == x);
            } else {
                assert(in_view("all"@, t.notes[k], f[k]));
                let m = choose|m: int| 0 <= m < a.len() && a[m] == x;
                assert(e[m] == x);
            }
        }
    }
    assert forall|j: int| 0 <= j < e.len() implies exists|k: int| 0 <= k < t.notes.len() && #[trigger] e[j] == hydrate(t, t.notes[k]) by {
        if j < a.len() {
            assert(e[j] == a[j]);
        } else if j < a.len() + b.len() {
            assert(e[j] == b[j - a.len()]);
        } else {
            assert(e[j] == c[j - a.len() - b.len()]);
        }
    }
}

/// Deciding a proposal: only "accepted" and "dismissed" are decisions, and only a stored
/// proposal can be decided; the decided proposal takes the status and the time, and no other
/// proposal changes.
pub proof fn law_decide_proposal(t: TablesV, id: Seq<char>, status: Seq<char>, now: Seq<char>)
    ensures
        !(status == "accepted"@ || status == "dismissed"@) ==> status_spec(t, id, status, now) is Err,
        (forall|k: int| 0 <= k < t.suggestions.len() ==> (#[trigger] t.suggestions[k]).id != id) ==> status_spec(
            t,
            id,
            status,
            now,
        ) is Err,
        status_spec(t, id, status, now) matches Ok(t2) ==> {
            &&& t2.suggestions.len() == t.suggestions.len()
            &&& t2.notes == t.notes
            &&& forall|k: int| 0 <= k < t.suggestions.len() ==> if t.suggestions[k].id == id {
                (#[trigger] t2.suggestions[k]).status == status && t2.suggestions[k].updated_at == now
                    && t2.suggestions[k].fingerprint == t.suggestions[k].fingerprint
                    && t2.suggestions[k].note_id == t.suggestions[k].note_id
            } else {
                t2.suggestions[k] == t.suggestions[k]
            }
        },
{
}

/// The tags a save links: each at most once, each a stored tag or one the save creates, and
/// the tags it creates have pairwise different normalized names, none already stored.
pub open spec fn plan_ok(tags: Seq<TagRowV>, pl: PlanV) -> bool {
    &&& pl.links.no_duplicates()
    &&& forall|i: int| 0 <= i < pl.links.len() ==> (exists|k: int| 0 <= k < tags.len() && tags[k].id == #[trigger] pl.links[i])
        || (exists|k: int| 0 <= k < pl.new_tags.len() && pl.new_tags[k].id == pl.links[i])
    &&& forall|i: int, j: int| 0 <= i < j < pl.new_tags.len() ==> (#[trigger] pl.new_tags[i]).normalized_name
        != (#[trigger] pl.new_tags[j]).normalized_name
    &&& forall|i: int, k: int| 0 <= i < pl.new_tags.len() && 0 <= k < tags.len() ==> (#[trigger] pl.new_tags[i]).normalized_name
        != (#[trigger] tags[k]).normalized_name
}

/// A save links each tag at most once, only to stored tags or tags it creates, and creates
/// no tag whose normalized name is stored or created twice.
pub proof fn law_save_links_tags_once(tags: Seq<TagRowV>, names: Seq<Seq<char>>, ids: Seq<Seq<char>>, now: Seq<char>, k: nat)
    ensures
        plan_upto(tags, names, ids, now, k) matches Ok(pl) ==> plan_ok(tags, pl),
    decreases k,
{
    if k > 0 {
        law_save_links_tags_once(tags, names, ids, now, (k - 1) as nat);
        match plan_upto(tags, names, ids, now, (k - 1) as nat) {
            Err(_) => {},
            Ok(st) => {
                let name = names[k - 1];
                let trimmed = trim_spec(name);
                let normalized = lowercase(trim_spec(trimmed));
                let fresh = ids[k as int];
                if !(trimmed.len() == 0 || st.seen.contains(normalized)) && normalized.len() > 0 {
                    let st1 = PlanV { seen: st.seen.push(normalized), ..st };
                    lemma_first_index(tags, |g: TagRowV| g.normalized_name == normalized);
                    lemma_first_index(st.new_tags, |g: TagRowV| g.normalized_name == normalized);
                    match tag_with_name(tags, st.new_tags, normalized) {
                        Some(g) => {
                            let r = add_link(st1, g);
                            if !st1.links.contains(g) {
                                assert forall|i: int, j: int| 0 <= i < r.links.len() && 0 <= j < r.links.len() && i != j implies r.links[i] != r.links[j] by {
                                    if i < st1.links.len() && j < st1.links.len() {
                                    } else if i < st1.links.len() {
                                        assert(st1.links.contains(st1.links[i]));
                                    } else {
                                        assert(st1.links.contains(st1.links[j]));
                                    }
                                }
                                assert forall|i: int| 0 <= i < r.links.len() implies (exists|k: int| 0 <= k < tags.len() && tags[k].id == #[trigger] r.links[i])
                                    || (exists|k: int| 0 <= k < r.new_tags.len() && r.new_tags[k].id == r.links[i]) by {
                                    if i < st1.links.len() {
                                        assert(r.links[i] == st.links[i]);
                                        assert(r.new_tags == st.new_tags);
                                    }
                                    if i == st1.links.len() {
                                        let a = first_index(tags, |x: TagRowV| x.normalized_name == normalized);
                                        if a >= 0 {
                                            assert(tags[a].id == r.links[i]);
                                        } else {
                                            let b = first_index(st.new_tags, |x: TagRowV| x.normalized_name == normalized);
                                            assert(r.new_tags[b].id == r.links[i]);
                                        }
                                    }
                                }
                            }
                        },
                        None => {
                            if !tag_id_taken(tags, st.new_tags, fresh) {
                                let row = TagRowV {
                                    id: fresh,
                                    name: trim_spec(trimmed),
                                    normalized_name: normalized,
                                    created_at: now,
                                    updated_at: now,
                                };
                                let st2 = PlanV { new_tags: st.new_tags.push(row), ..st1 };
                                let r = add_link(st2, fresh);
                                assert forall|i: int, j: int| 0 <= i < j < r.new_tags.len() implies (#[trigger] r.new_tags[i]).normalized_name
                                    != (#[trigger] r.new_tags[j]).normalized_name by {
                                    if j == st.new_tags.len() {
                                        assert(!(|x: TagRowV| x.normalized_name == normalized)(st.new_tags[i]));
                                    } else {
                                        assert(r.new_tags[i] == st.new_tags[i] && r.new_tags[j] == st.new_tags[j]);
                                    }
                                }
                                assert forall|i: int, q: int| 0 <= i < r.new_tags.len() && 0 <= q < tags.len() implies (#[trigger] r.new_tags[i]).normalized_name
                                    != (#[trigger] tags[q]).normalized_name by {
                                    if i == st.new_tags.len() {
                                        assert(!(|x: TagRowV| x.normalized_name == normalized)(tags[q]));
                                    } else {
                                        assert(r.new_tags[i] == st.new_tags[i]);
                                    }
                                }
                                assert forall|i: int| 0 <= i < r.links.len() implies (exists|q: int| 0 <= q < tags.len() && tags[q].id == #[trigger] r.links[i])
                                    || (exists|q: int| 0 <= q < r.new_tags.len() && r.new_tags[q].id == r.links[i]) by {
                                    if i < st1.links.len() {
                                        assert(r.links[i] == st.links[i]);
                                        if exists|q: int| 0 <= q < st.new_tags.len() && st.new_tags[q].id == st.links[i] {
                                            let q = choose|q: int| 0 <= q < st.new_tags.len() && st.new_tags[q].id == st.links[i];
                                            assert(r.new_tags[q] == st.new_tags[q]);
                                        }
                                    } else {
                                        assert(r.new_tags[st.new_tags.len() as int].id == fresh);
                                    }
                                }
                                if !st2.links.contains(fresh) {
                                    assert forall|i: int, j: int| 0 <= i < r.links.len() && 0 <= j < r.links.len() && i != j implies r.links[i] != r.links[j] by {
                                        if i < st2.links.len() && j < st2.links.len() {
                                        } else if i < st2.links.len() {
                                            assert(st2.links.contains(st2.links[i]));
                                        } else {
                                            assert(st2.links.contains(st2.links[j]));
                                        }
                                    }
                                }
                            }
                        },
                    }
                }
            },
        }
    }
}

} // verus!
