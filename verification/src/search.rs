//! Searching notes: terms, the index expression, the compatible fallback, filters and history.

use vstd::prelude::*;
use crate::dates::{Date, valid_date, date_text, date_text_spec, local_today, utc_now_text};
use crate::error::{AppError, AppErrorV, AppResult};
use crate::json::{append, json_quote, json_quoted, opt_view, decimal, decimal_u64};
use crate::models::{Note, NoteV, SearchQuery, SearchQueryV, SearchResult, SearchResultV, SearchHistoryItem, TagV, note_views};
use crate::repo::{Database, list_spec, read_note, local_dates_of, today_flags_spec, today_flags_of};
use crate::seqs::{vw, keep, isort, filter_vec, sort_vec, any_vec};
use crate::tables::{Tables, TablesV, HistoryRow, HistoryRowV, Dup, dup_vec};
use crate::text::{str_eq, str_lt, trim, trim_spec, to_lowercase, lowercase, words, split_whitespace, views, contains, contains_spec, bytes_lt, utf8, utf8_width_spec, chars_of, string_of};
use crate::writes::join_spaced;

verus! {

// ---------------------------------------------------------------------------
// Terms and the index expression
// ---------------------------------------------------------------------------

/// The search terms: whitespace-separated words, trimmed, non-empty, lower-cased.
pub open spec fn search_terms(q: Seq<char>) -> Seq<Seq<char>> {
    keep(words(q).map_values(|w: Seq<char>| trim_spec(w)), |w: Seq<char>| w.len() > 0).map_values(
        |w: Seq<char>| lowercase(w),
    )
}

/// The view a query lists (`all` when none is given).
pub open spec fn query_view(q: SearchQueryV) -> Seq<char> {
    match q.view {
        Some(v) => v,
        None => "all"@,
    }
}

/// At most this many results: the query's limit (200 when none), capped at 500.
pub open spec fn query_limit(q: SearchQueryV) -> usize {
    let l = match q.limit {
        Some(x) => x,
        None => 200usize,
    };
    if l < 500 {
        l
    } else {
        500usize
    }
}

/// Whether the full-text index answers the query: there are terms, the view is not the
/// trash, and every term has at least three characters.
pub open spec fn wants_index(q: SearchQueryV) -> bool {
    let terms = search_terms(q.query);
    terms.len() > 0 && query_view(q) != "trash"@ && forall|i: int| 0 <= i < terms.len() ==> terms[i].len() >= 3
}

/// A term with its double quotes doubled.
pub open spec fn escape_quotes(s: Seq<char>) -> Seq<char>
    decreases s.len(),
{
    if s.len() == 0 {
        seq![]
    } else {
        escape_quotes(s.drop_last()) + if s.last() == '"' {
            seq!['"', '"']
        } else {
            seq![s.last()]
        }
    }
}

/// Terms as quoted phrases joined by ` AND `.
pub open spec fn index_expression(terms: Seq<Seq<char>>) -> Seq<char>
    decreases terms.len(),
{
    if terms.len() == 0 {
        seq![]
    } else {
        let phrase = seq!['"'] + escape_quotes(terms.last()) + seq!['"'];
        if terms.len() == 1 {
            phrase
        } else {
            index_expression(terms.drop_last()) + " AND "@ + phrase
        }
    }
}

// ---------------------------------------------------------------------------
// The compatible search and the filters
// ---------------------------------------------------------------------------

/// The text the compatible search looks in: title, content, tag names, category name and
/// due date on lines of their own, lower-cased.
pub open spec fn haystack(n: NoteV) -> Seq<char> {
    lowercase(
        n.title + "\n"@ + n.content + "\n"@ + join_spaced(n.tags.map_values(|g: TagV| g.name)) + "\n"@
            + match n.category {
            Some(c) => c.name,
            None => seq![],
        } + "\n"@ + match n.due_date {
            Some(d) => d,
            None => seq![],
        },
    )
}

pub open spec fn has_all_terms(n: NoteV, terms: Seq<Seq<char>>) -> bool {
    forall|i: int| 0 <= i < terms.len() ==> contains_spec(haystack(n), terms[i])
}

/// The characters of the first `n` bytes of `s` (`str::get(0..n)`), if `n` falls on a
/// character boundary within it.
pub open spec fn byte_prefix(s: Seq<char>, n: int) -> Option<Seq<char>>
    decreases s.len(),
{
    if n == 0 {
        Some(seq![])
    } else if n < 0 || s.len() == 0 {
        None
    } else if utf8_width_spec(s[0]) > n {
        None
    } else {
        match byte_prefix(s.drop_first(), n - utf8_width_spec(s[0])) {
            Some(p) => Some(seq![s[0]] + p),
            None => None,
        }
    }
}

/// `str::get(0..n)`, owned.
#[verifier::external_body]
pub(crate) fn str_prefix(s: &str, n: usize) -> (r: Option<String>)
    ensures
        opt_view(r) == byte_prefix(s@, n as int),
{
    s.get(0..n).map(|x| x.to_string())
}

/// The day part of a timestamp: its first ten bytes, or the whole text when that fails.
pub open spec fn day_part(s: Seq<char>) -> Seq<char> {
    match byte_prefix(s, 10) {
        Some(p) => p,
        None => s,
    }
}

/// `note_matches_filters`: the view (with `today` the local date's text), category, all
/// tags, favorite flag, todo status and date range of the query.
pub open spec fn matches_filters(n: NoteV, q: SearchQueryV, today: Seq<char>) -> bool {
    let view = query_view(q);
    let gone = n.deleted_at is Some || n.archived_at is Some;
    let view_ok = if view == "today"@ {
        !(gone || byte_prefix(n.updated_at, 10) != Some(today))
    } else if view == "todo"@ {
        !(gone || !n.is_todo)
    } else if view == "favorite"@ {
        !(gone || !n.is_favorite)
    } else if view == "archive"@ {
        !(n.deleted_at is Some || n.archived_at is None)
    } else if view == "trash"@ {
        n.deleted_at is Some
    } else if view == "all"@ {
        !gone
    } else {
        true
    };
    let date = day_part(n.updated_at);
    &&& view_ok
    &&& match q.category_id {
        Some(c) => n.category_id == Some(c),
        None => true,
    }
    &&& (q.tag_ids.len() == 0 || forall|i: int| 0 <= i < q.tag_ids.len() ==> has_tag_id(n, #[trigger] q.tag_ids[i]))
    &&& match q.is_favorite {
        Some(v) => n.is_favorite == v,
        None => true,
    }
    &&& match q.todo_status {
        Some(s) => n.is_todo && n.todo_status == s,
        None => true,
    }
    &&& match q.date_from {
        Some(f) => !bytes_lt(utf8(date), utf8(f)),
        None => true,
    }
    &&& match q.date_to {
        Some(t) => !bytes_lt(utf8(t), utf8(date)),
        None => true,
    }
}

pub open spec fn has_tag_id(n: NoteV, id: Seq<char>) -> bool {
    exists|j: int| 0 <= j < n.tags.len() && n.tags[j].id == id
}

// ---------------------------------------------------------------------------
// History
// ---------------------------------------------------------------------------

pub open spec fn json_opt(o: Option<Seq<char>>) -> Seq<char> {
    match o {
        Some(s) => json_quoted(s),
        None => "null"@,
    }
}

/// A JSON array of strings.
pub open spec fn json_strings(v: Seq<Seq<char>>) -> Seq<char>
    decreases v.len(),
{
    if v.len() == 0 {
        "[]"@
    } else if v.len() == 1 {
        "["@ + json_quoted(v[0]) + "]"@
    } else {
        json_strings(v.drop_last()).drop_last() + ","@ + json_quoted(v.last()) + "]"@
    }
}

/// The query's filters as JSON, as serde writes the query.
pub open spec fn query_json(q: SearchQueryV) -> Seq<char> {
    "{\"query\":"@ + json_quoted(q.query) + ",\"view\":"@ + json_opt(q.view) + ",\"categoryId\":"@ + json_opt(
        q.category_id,
    ) + ",\"tagIds\":"@ + json_strings(q.tag_ids) + ",\"dateFrom\":"@ + json_opt(q.date_from) + ",\"dateTo\":"@
        + json_opt(q.date_to) + ",\"isFavorite\":"@ + match q.is_favorite {
        Some(b) => crate::json::bool_text(b),
        None => "null"@,
    } + ",\"todoStatus\":"@ + json_opt(q.todo_status) + ",\"limit\":"@ + match q.limit {
        Some(l) => decimal(l as int),
        None => "null"@,
    } + "}"@
}

/// `ORDER BY searched_at DESC`.
pub open spec fn recent_first(a: HistoryRowV, b: HistoryRowV) -> bool {
    bytes_lt(utf8(b.searched_at), utf8(a.searched_at))
}

/// The ids of the twenty most recent entries.
pub open spec fn recent_ids(h: Seq<HistoryRowV>) -> Seq<Seq<char>> {
    let s = isort(h, |a: HistoryRowV, b: HistoryRowV| recent_first(a, b));
    (if s.len() <= 20 {
        s
    } else {
        s.take(20)
    }).map_values(|r: HistoryRowV| r.id)
}

/// A search is recorded: the same query with the same filters is replaced by a new entry,
/// and only the twenty most recent entries stay.
pub open spec fn record_search(t: TablesV, q: SearchQueryV, now: Seq<char>, hid: Seq<char>) -> (TablesV, Result<(), AppErrorV>) {
    let fj = query_json(q);
    let normalized = lowercase(trim_spec(q.query));
    let t1 = TablesV {
        search_history: keep(t.search_history, |r: HistoryRowV| !(r.normalized_query == normalized && r.filters_json == fj)),
        ..t
    };
    if exists|k: int| 0 <= k < t1.search_history.len() && t1.search_history[k].id == hid {
        (t1, Err(AppErrorV::Database("UNIQUE constraint failed: search_history.id"@)))
    } else {
        let row = HistoryRowV {
            id: hid,
            query: trim_spec(q.query),
            normalized_query: normalized,
            filters_json: fj,
            searched_at: now,
        };
        let h = t1.search_history.push(row);
        let keep_ids = recent_ids(h);
        (TablesV { search_history: keep(h, |r: HistoryRowV| keep_ids.contains(r.id)), ..t1 }, Ok(()))
    }
}

/// The ids an index answer holds, as text.
pub open spec fn index_answer(index_ids: Option<&Vec<String>>) -> Option<Seq<Seq<char>>> {
    match index_ids {
        Some(v) => Some(views(v@)),
        None => None,
    }
}

/// The notes a search starts from: read from the index's answer when the index is used,
/// otherwise the view's notes (at most 2000) holding every term.
pub open spec fn candidates(
    t: TablesV,
    q: SearchQueryV,
    flags: Seq<bool>,
    index_ids: Option<Seq<Seq<char>>>,
) -> Seq<NoteV> {
    let terms = search_terms(q.query);
    if wants_index(q) && index_ids is Some {
        read_all(t, index_ids.unwrap())
    } else {
        keep(list_spec(t, query_view(q), 2000, flags), |n: NoteV| has_all_terms(n, terms))
    }
}

/// The notes with the ids that exist, in order.
pub open spec fn read_all(t: TablesV, ids: Seq<Seq<char>>) -> Seq<NoteV>
    decreases ids.len(),
{
    if ids.len() == 0 {
        seq![]
    } else {
        let r = read_all(t, ids.drop_last());
        match read_note(t, ids.last()) {
            Ok(n) => r.push(n),
            Err(_) => r,
        }
    }
}

/// The notes a search returns.
pub open spec fn search_notes(
    t: TablesV,
    q: SearchQueryV,
    today: Seq<char>,
    flags: Seq<bool>,
    index_ids: Option<Seq<Seq<char>>>,
) -> Seq<NoteV> {
    let found = keep(candidates(t, q, flags, index_ids), |n: NoteV| matches_filters(n, q, today));
    if found.len() <= query_limit(q) {
        found
    } else {
        found.take(query_limit(q) as int)
    }
}

/// `search`: the notes found, each with the terms, and the query recorded when it is not blank.
pub open spec fn search_spec(
    t: TablesV,
    q: SearchQueryV,
    today: Seq<char>,
    flags: Seq<bool>,
    index_ids: Option<Seq<Seq<char>>>,
    now: Seq<char>,
    hid: Seq<char>,
) -> (TablesV, Result<Seq<SearchResultV>, AppErrorV>) {
    let results = search_notes(t, q, today, flags, index_ids).map_values(
        |n: NoteV| SearchResultV { note: n, matched_terms: search_terms(q.query) },
    );
    if trim_spec(q.query).len() > 0 {
        let (t1, r) = record_search(t, q, now, hid);
        (
            t1,
            match r {
                Ok(_) => Ok(results),
                Err(e) => Err(e),
            },
        )
    } else {
        (t, Ok(results))
    }
}

} // verus!

verus! {

/// The search terms of a query text.
pub fn terms_of(q: &str) -> (r: Vec<String>)
    ensures
        views(r@) == search_terms(q@),
{
    let ws = split_whitespace(q);
    let ghost w = words(q@);
    let ghost trimmed = w.map_values(|x: Seq<char>| trim_spec(x));
    let ghost nonblank = |x: Seq<char>| x.len() > 0;
    let mut out: Vec<String> = Vec::new();
    let mut i: usize = 0;
    while i < ws.len()
        invariant
            views(ws@) == w,
            trimmed == w.map_values(|x: Seq<char>| trim_spec(x)),
            forall|x: Seq<char>| #[trigger] nonblank(x) == (x.len() > 0),
            i <= ws.len(),
            views(out@) == keep(trimmed.take(i as int), nonblank).map_values(|x: Seq<char>| lowercase(x)),
        decreases ws.len() - i,
    {
        let t = trim(ws[i].as_str());
        proof {
            assert(views(ws@)[i as int] == ws@[i as int]@);
            assert(trimmed.take(i + 1).drop_last() == trimmed.take(i as int));
            assert(trimmed.take(i + 1).last() == t@);
        }
        if !t.as_str().is_empty() {
            let ghost prev = keep(trimmed.take(i as int), nonblank);
            let ghost before = out@;
            let l = to_lowercase(t.as_str());
            out.push(l);
            proof {
                assert(views(out@) =~= views(before).push(l@));
                assert(prev.push(t@).map_values(|x: Seq<char>| lowercase(x)) =~= prev.map_values(|x: Seq<char>| lowercase(x)).push(
                    lowercase(t@),
                ));
            }
        }
        i = i + 1;
    }
    proof {
        assert(trimmed.take(i as int) == trimmed);
    }
    out
}

/// A term as a quoted phrase, with its double quotes doubled.
fn quoted_phrase(t: &str) -> (r: String)
    ensures
        r@ == seq!['"'] + escape_quotes(t@) + seq!['"'],
{
    let cs = chars_of(t);
    let mut out: Vec<char> = Vec::new();
    out.push('"');
    let mut i: usize = 0;
    while i < cs.len()
        invariant
            cs@ == t@,
            i <= cs.len(),
            out@ == seq!['"'] + escape_quotes(cs@.take(i as int)),
        decreases cs.len() - i,
    {
        let c = cs[i];
        let ghost before = out@;
        if c == '"' {
            out.push('"');
            out.push('"');
        } else {
            out.push(c);
        }
        proof {
            assert(cs@.take(i + 1).drop_last() == cs@.take(i as int));
            assert(cs@.take(i + 1).last() == c);
            assert(out@ =~= seq!['"'] + escape_quotes(cs@.take(i + 1)));
        }
        i = i + 1;
    }
    out.push('"');
    proof {
        assert(cs@.take(i as int) == cs@);
    }
    string_of(out.as_slice())
}

/// The full-text expression for the terms.
pub fn expression_of(terms: &Vec<String>) -> (r: String)
    ensures
        r@ == index_expression(views(terms@)),
{
    let mut out = String::new();
    let mut i: usize = 0;
    while i < terms.len()
        invariant
            i <= terms.len(),
            out@ == index_expression(views(terms@).take(i as int)),
        decreases terms.len() - i,
    {
        let p = quoted_phrase(terms[i].as_str());
        proof {
            let v = views(terms@);
            assert(v.take(i + 1).drop_last() == v.take(i as int));
            assert(v.take(i + 1).last() == terms@[i as int]@);
        }
        if i > 0 {
            append(&mut out, " AND ");
        }
        append(&mut out, p.as_str());
        i = i + 1;
    }
    proof {
        assert(views(terms@).take(i as int) == views(terms@));
    }
    out
}

/// The view a query lists.
pub fn view_of(q: &SearchQuery) -> (r: String)
    ensures
        r@ == query_view(q@),
{
    match &q.view {
        Some(v) => v.clone(),
        None => "all".to_owned(),
    }
}

/// The full-text expression of a query, when the index answers it.
pub fn fts_expression(q: &SearchQuery) -> (r: Option<String>)
    ensures
        r is Some <==> wants_index(q@),
        r matches Some(e) ==> e@ == index_expression(search_terms(q@.query)),
{
    let terms = terms_of(q.query.as_str());
    let view = view_of(q);
    if terms.len() == 0 || str_eq(view.as_str(), "trash") {
        return None;
    }
    let mut i: usize = 0;
    while i < terms.len()
        invariant
            i <= terms.len(),
            views(terms@) == search_terms(q@.query),
            forall|j: int| 0 <= j < i ==> views(terms@)[j].len() >= 3,
        decreases terms.len() - i,
    {
        proof {
            assert(views(terms@)[i as int] == terms@[i as int]@);
        }
        if chars_of(terms[i].as_str()).len() < 3 {
            proof {
                assert(!(views(terms@)[i as int].len() >= 3));
            }
            return None;
        }
        i = i + 1;
    }
    Some(expression_of(&terms))
}

/// The search text of a note.
fn haystack_of(n: &Note) -> (r: String)
    ensures
        r@ == haystack(n@),
{
    let mut s = n.title.clone();
    append(&mut s, "\n");
    append(&mut s, n.content.as_str());
    append(&mut s, "\n");
    let mut names = String::new();
    let mut i: usize = 0;
    while i < n.tags.len()
        invariant
            i <= n.tags.len(),
            names@ == join_spaced(n@.tags.take(i as int).map_values(|g: TagV| g.name)),
        decreases n.tags.len() - i,
    {
        proof {
            let m = n@.tags.take(i + 1).map_values(|g: TagV| g.name);
            assert(m.drop_last() =~= n@.tags.take(i as int).map_values(|g: TagV| g.name));
            assert(m.last() == n.tags@[i as int].name@);
        }
        if i > 0 {
            append(&mut names, " ");
        }
        append(&mut names, n.tags[i].name.as_str());
        i = i + 1;
    }
    proof {
        assert(n@.tags.take(i as int) == n@.tags);
    }
    append(&mut s, names.as_str());
    append(&mut s, "\n");
    match &n.category {
        Some(c) => append(&mut s, c.name.as_str()),
        None => {},
    }
    append(&mut s, "\n");
    match &n.due_date {
        Some(d) => append(&mut s, d.as_str()),
        None => {},
    }
    proof {
        assert(s@ =~= n@.title + "\n"@ + n@.content + "\n"@ + join_spaced(n@.tags.map_values(|g: TagV| g.name)) + "\n"@
            + match n@.category {
            Some(c) => c.name,
            None => seq![],
        } + "\n"@ + match n@.due_date {
            Some(d) => d,
            None => seq![],
        });
    }
    to_lowercase(s.as_str())
}

fn has_all_terms_exec(n: &Note, terms: &Vec<String>) -> (r: bool)
    ensures
        r == has_all_terms(n@, views(terms@)),
{
    let h = haystack_of(n);
    let mut i: usize = 0;
    while i < terms.len()
        invariant
            h@ == haystack(n@),
            i <= terms.len(),
            forall|j: int| 0 <= j < i ==> contains_spec(haystack(n@), views(terms@)[j]),
        decreases terms.len() - i,
    {
        proof {
            assert(views(terms@)[i as int] == terms@[i as int]@);
        }
        if !contains(h.as_str(), terms[i].as_str()) {
            return false;
        }
        i = i + 1;
    }
    true
}

fn note_has_tag(n: &Note, id: &str) -> (r: bool)
    ensures
        r == has_tag_id(n@, id@),
{
    let mut j: usize = 0;
    while j < n.tags.len()
        invariant
            j <= n.tags.len(),
            forall|k: int| 0 <= k < j ==> n@.tags[k].id != id@,
        decreases n.tags.len() - j,
    {
        if str_eq(n.tags[j].id.as_str(), id) {
            proof {
                assert(n@.tags[j as int].id == id@);
            }
            return true;
        }
        j = j + 1;
    }
    false
}

/// `note_matches_filters`, with `today` the local date's text.
pub fn matches_filters_exec(n: &Note, q: &SearchQuery, today: &str) -> (r: bool)
    ensures
        r == matches_filters(n@, q@, today@),
{
    let view = view_of(q);
    let v = view.as_str();
    let gone = n.deleted_at.is_some() || n.archived_at.is_some();
    let prefix = str_prefix(n.updated_at.as_str(), 10);
    let view_ok = if str_eq(v, "today") {
        let same = match &prefix {
            Some(p) => str_eq(p.as_str(), today),
            None => false,
        };
        !(gone || !same)
    } else if str_eq(v, "todo") {
        !(gone || !n.is_todo)
    } else if str_eq(v, "favorite") {
        !(gone || !n.is_favorite)
    } else if str_eq(v, "archive") {
        !(n.deleted_at.is_some() || n.archived_at.is_none())
    } else if str_eq(v, "trash") {
        n.deleted_at.is_some()
    } else if str_eq(v, "all") {
        !gone
    } else {
        true
    };
    if !view_ok {
        return false;
    }
    match &q.category_id {
        Some(c) => {
            let same = match &n.category_id {
                Some(x) => str_eq(x.as_str(), c.as_str()),
                None => false,
            };
            if !same {
                return false;
            }
        },
        None => {},
    }
    if q.tag_ids.len() > 0 {
        let mut i: usize = 0;
        while i < q.tag_ids.len()
            invariant
                i <= q.tag_ids.len(),
                forall|j: int| 0 <= j < i ==> has_tag_id(n@, #[trigger] q@.tag_ids[j]),
            decreases q.tag_ids.len() - i,
        {
            proof {
                assert(q@.tag_ids[i as int] == q.tag_ids@[i as int]@);
            }
            if !note_has_tag(n, q.tag_ids[i].as_str()) {
                return false;
            }
            i = i + 1;
        }
    }
    match q.is_favorite {
        Some(b) => {
            if n.is_favorite != b {
                return false;
            }
        },
        None => {},
    }
    match &q.todo_status {
        Some(s) => {
            if !n.is_todo || !str_eq(n.todo_status.as_str(), s.as_str()) {
                return false;
            }
        },
        None => {},
    }
    let date = match prefix {
        Some(p) => p,
        None => n.updated_at.clone(),
    };
    match &q.date_from {
        Some(f) => {
            if str_lt(date.as_str(), f.as_str()) {
                return false;
            }
        },
        None => {},
    }
    match &q.date_to {
        Some(t) => {
            if str_lt(t.as_str(), date.as_str()) {
                return false;
            }
        },
        None => {},
    }
    true
}

fn json_opt_exec(o: &Option<String>) -> (r: String)
    ensures
        r@ == json_opt(opt_view(*o)),
{
    match o {
        Some(s) => json_quote(s.as_str()),
        None => "null".to_owned(),
    }
}

fn json_strings_exec(v: &Vec<String>) -> (r: String)
    ensures
        r@ == json_strings(views(v@)),
{
    if v.len() == 0 {
        return "[]".to_owned();
    }
    let mut s = "[".to_owned();
    let mut i: usize = 0;
    while i < v.len()
        invariant
            v.len() > 0,
            i <= v.len(),
            i == 0 ==> s@ == "["@,
            i > 0 ==> s@ + "]"@ == json_strings(views(v@).take(i as int)),
        decreases v.len() - i,
    {
        let q = json_quote(v[i].as_str());
        proof {
            let w = views(v@);
            assert(w.take(i + 1).drop_last() == w.take(i as int));
            assert(w.take(i + 1).last() == v@[i as int]@);
            if i == 0 {
                assert(w.take(1) =~= seq![v@[0]@]);
            }
        }
        let ghost prev = s@;
        if i > 0 {
            append(&mut s, ",");
        }
        append(&mut s, q.as_str());
        proof {
            let w = views(v@);
            reveal_strlit("]");
            reveal_strlit(",");
            if i > 0 {
                assert((prev + "]"@).drop_last() =~= prev);
                assert((s@ + "]"@) =~= (json_strings(w.take(i as int)).drop_last() + ","@ + json_quoted(w[i as int]) + "]"@));
            } else {
                assert((s@ + "]"@) =~= "["@ + json_quoted(w[0]) + "]"@);
            }
        }
        i = i + 1;
    }
    append(&mut s, "]");
    proof {
        assert(views(v@).take(i as int) == views(v@));
    }
    s
}

/// The filters of a query as JSON.
pub fn query_json_exec(q: &SearchQuery) -> (r: String)
    ensures
        r@ == query_json(q@),
{
    let mut s = "{\"query\":".to_owned();
    append(&mut s, json_quote(q.query.as_str()).as_str());
    append(&mut s, ",\"view\":");
    append(&mut s, json_opt_exec(&q.view).as_str());
    append(&mut s, ",\"categoryId\":");
    append(&mut s, json_opt_exec(&q.category_id).as_str());
    append(&mut s, ",\"tagIds\":");
    append(&mut s, json_strings_exec(&q.tag_ids).as_str());
    append(&mut s, ",\"dateFrom\":");
    append(&mut s, json_opt_exec(&q.date_from).as_str());
    append(&mut s, ",\"dateTo\":");
    append(&mut s, json_opt_exec(&q.date_to).as_str());
    append(&mut s, ",\"isFavorite\":");
    let fav = match q.is_favorite {
        Some(b) => crate::json::bool_word(b),
        None => "null".to_owned(),
    };
    append(&mut s, fav.as_str());
    append(&mut s, ",\"todoStatus\":");
    append(&mut s, json_opt_exec(&q.todo_status).as_str());
    append(&mut s, ",\"limit\":");
    let lim = match q.limit {
        Some(l) => decimal_u64(l as u64),
        None => "null".to_owned(),
    };
    append(&mut s, lim.as_str());
    append(&mut s, "}");
    s
}

} // verus!

verus! {

pub struct SearchHistoryItemV {
    pub id: Seq<char>,
    pub query: Seq<char>,
    pub filters_json: Seq<char>,
    pub searched_at: Seq<char>,
}

impl View for SearchHistoryItem {
    type V = SearchHistoryItemV;

    open spec fn view(&self) -> SearchHistoryItemV {
        SearchHistoryItemV {
            id: self.id@,
            query: self.query@,
            filters_json: self.filters_json@,
            searched_at: self.searched_at@,
        }
    }
}

pub open spec fn history_item(r: HistoryRowV) -> SearchHistoryItemV {
    SearchHistoryItemV { id: r.id, query: r.query, filters_json: r.filters_json, searched_at: r.searched_at }
}

/// `search_history`: the twenty most recent searches, newest first.
pub open spec fn history_spec(t: TablesV) -> Seq<SearchHistoryItemV> {
    let s = isort(t.search_history, |a: HistoryRowV, b: HistoryRowV| recent_first(a, b));
    (if s.len() <= 20 {
        s
    } else {
        s.take(20)
    }).map_values(|r: HistoryRowV| history_item(r))
}

fn ids_contain(v: &Vec<String>, s: &str) -> (r: bool)
    ensures
        r == views(v@).contains(s@),
{
    let mut i: usize = 0;
    while i < v.len()
        invariant
            i <= v.len(),
            forall|j: int| 0 <= j < i ==> v@[j]@ != s@,
        decreases v.len() - i,
    {
        if str_eq(v[i].as_str(), s) {
            proof {
                assert(views(v@)[i as int] == s@);
            }
            return true;
        }
        i = i + 1;
    }
    proof {
        if views(v@).contains(s@) {
            let j = choose|j: int| 0 <= j < views(v@).len() && views(v@)[j] == s@;
            assert(v@[j]@ == s@);
        }
    }
    false
}

impl Tables {
    /// History rows, most recent first.
    fn history_sorted(&self) -> (r: Vec<HistoryRow>)
        ensures
            vw(r@) == isort(self@.search_history, |a: HistoryRowV, b: HistoryRowV| recent_first(a, b)),
    {
        let rows = dup_vec(&self.search_history);
        sort_vec(
            rows,
            (|a: &HistoryRow, b: &HistoryRow| -> (r: bool)
                ensures
                    r == recent_first(a@, b@),
                { str_lt(b.searched_at.as_str(), a.searched_at.as_str()) }),
            Ghost(|a: HistoryRowV, b: HistoryRowV| recent_first(a, b)),
        )
    }

    /// Records a search at the instant `now` with the entry id `hid`.
    pub fn record_search(&mut self, q: &SearchQuery, now: &str, hid: &str) -> (r: AppResult<()>)
        ensures
            final(self)@ == record_search(old(self)@, q@, now@, hid@).0,
            match record_search(old(self)@, q@, now@, hid@).1 {
                Ok(_) => r is Ok,
                Err(e) => r matches Err(x) && x@ == e,
            },
    {
        let fj = query_json_exec(q);
        let trimmed = trim(q.query.as_str());
        let normalized = to_lowercase(trimmed.as_str());
        let ghost t0 = self@;
        let mut rows: Vec<HistoryRow> = Vec::new();
        std::mem::swap(&mut rows, &mut self.search_history);
        self.search_history = filter_vec(
            rows,
            (|r: &HistoryRow| -> (b: bool)
                ensures
                    b == !(r@.normalized_query == normalized@ && r@.filters_json == fj@),
                { !(str_eq(r.normalized_query.as_str(), normalized.as_str()) && str_eq(r.filters_json.as_str(), fj.as_str())) }),
            Ghost(|r: HistoryRowV| !(r.normalized_query == normalized@ && r.filters_json == fj@)),
        );
        let ghost t1 = self@;
        assert(t1 =~= TablesV {
            search_history: keep(t0.search_history, |r: HistoryRowV| !(r.normalized_query == normalized@ && r.filters_json == fj@)),
            ..t0
        });
        let taken = any_vec(
            &self.search_history,
            (|r: &HistoryRow| -> (b: bool)
                ensures
                    b == (r@.id == hid@),
                { str_eq(r.id.as_str(), hid) }),
            Ghost(|r: HistoryRowV| r.id == hid@),
        );
        if taken {
            proof {
                let k = choose|k: int| 0 <= k < self.search_history@.len() && (|r: HistoryRowV| r.id == hid@)(vw(self.search_history@)[k]);
                assert(t1.search_history[k].id == hid@);
            }
            return Err(AppError::Database("UNIQUE constraint failed: search_history.id".to_owned()));
        }
        proof {
            assert forall|k: int| 0 <= k < t1.search_history.len() implies t1.search_history[k].id != hid@ by {
                assert(!(|r: HistoryRowV| r.id == hid@)(vw(self.search_history@)[k]));
            }
        }
        let row = HistoryRow {
            id: hid.to_owned(),
            query: trimmed,
            normalized_query: normalized,
            filters_json: fj,
            searched_at: now.to_owned(),
        };
        self.search_history.push(row);
        let ghost h = vw(self.search_history@);
        assert(h =~= t1.search_history.push(row@));
        let sorted = self.history_sorted();
        let n: usize = if sorted.len() <= 20 {
            sorted.len()
        } else {
            20
        };
        let mut keep_ids: Vec<String> = Vec::new();
        let mut i: usize = 0;
        while i < n
            invariant
                n <= sorted.len(),
                i <= n,
                keep_ids.len() == i,
                forall|j: int| 0 <= j < i ==> keep_ids@[j]@ == sorted@[j]@.id,
            decreases n - i,
        {
            keep_ids.push(sorted[i].id.clone());
            i = i + 1;
        }
        proof {
            let s = isort(h, |a: HistoryRowV, b: HistoryRowV| recent_first(a, b));
            assert(vw(sorted@) == s);
            assert(views(keep_ids@) =~= recent_ids(h));
        }
        let mut rows2: Vec<HistoryRow> = Vec::new();
        std::mem::swap(&mut rows2, &mut self.search_history);
        self.search_history = filter_vec(
            rows2,
            (|r: &HistoryRow| -> (b: bool)
                ensures
                    b == views(keep_ids@).contains(r@.id),
                { ids_contain(&keep_ids, r.id.as_str()) }),
            Ghost(|r: HistoryRowV| views(keep_ids@).contains(r.id)),
        );
        proof {
            assert(self@ =~= record_search(t0, q@, now@, hid@).0);
        }
        Ok(())
    }
}

impl Database {
    /// Searches the notes and records the query.
    ///
    /// `today` is the local date (for the `today` view's filter), `updated_today[i]` says
    /// whether note row `i` was updated on it (for the compatible search's list),
    /// `index_ids` is the full-text index's answer to `fts_expression(&query)` when the
    /// index is used, `now` stamps the history entry and `hid` is its id.
    pub fn search_with(
        &mut self,
        query: SearchQuery,
        today: Date,
        updated_today: &Vec<bool>,
        index_ids: Option<&Vec<String>>,
        now: &str,
        hid: &str,
    ) -> (r: AppResult<Vec<SearchResult>>)
        requires
            valid_date(today),
            updated_today.len() == old(self)@.notes.len(),
        ensures
            final(self)@ == search_spec(
                old(self)@,
                query@,
                date_text_spec(today),
                updated_today@,
                match index_ids {
                    Some(v) => Some(views(v@)),
                    None => None,
                },
                now@,
                hid@,
            ).0,
            match search_spec(
                old(self)@,
                query@,
                date_text_spec(today),
                updated_today@,
                match index_ids {
                    Some(v) => Some(views(v@)),
                    None => None,
                },
                now@,
                hid@,
            ).1 {
                Ok(v) => r matches Ok(x) && vw(x@) == v,
                Err(e) => r matches Err(x) && x@ == e,
            },
    {
        let ghost t0 = self@;
        let ghost ids_v = match index_ids {
            Some(v) => Some(views(v@)),
            None => None,
        };
        let terms = terms_of(query.query.as_str());
        let view = view_of(&query);
        let use_index = fts_expression(&query).is_some() && index_ids.is_some();
        let found: Vec<Note> = if use_index {
            let ids = index_ids.unwrap();
            let mut notes: Vec<Note> = Vec::new();
            let mut i: usize = 0;
            while i < ids.len()
                invariant
                    self@ == t0,
                    i <= ids.len(),
                    note_views(notes@) == read_all(t0, views(ids@).take(i as int)),
                decreases ids.len() - i,
            {
                proof {
                    let v = views(ids@);
                    assert(v.take(i + 1).drop_last() == v.take(i as int));
                    assert(v.take(i + 1).last() == ids@[i as int]@);
                }
                match self.get_note(ids[i].as_str()) {
                    Ok(n) => {
                        let ghost before = note_views(notes@);
                        notes.push(n);
                        proof {
                            assert(note_views(notes@) =~= before.push(n@));
                        }
                    },
                    Err(_) => {},
                }
                i = i + 1;
            }
            proof {
                assert(views(ids@).take(i as int) == views(ids@));
            }
            notes
        } else {
            let listed = self.list_notes_with_days(view.as_str(), 2000, updated_today);
            filter_vec(
                listed,
                (|n: &Note| -> (b: bool)
                    ensures
                        b == has_all_terms(n@, views(terms@)),
                    { has_all_terms_exec(n, &terms) }),
                Ghost(|n: NoteV| has_all_terms(n, views(terms@))),
            )
        };
        proof {
            assert(note_views(found@) == candidates(t0, query@, updated_today@, ids_v));
        }
        let today_text = date_text(today);
        let mut kept = filter_vec(
            found,
            (|n: &Note| -> (b: bool)
                ensures
                    b == matches_filters(n@, query@, today_text@),
                { matches_filters_exec(n, &query, today_text.as_str()) }),
            Ghost(|n: NoteV| matches_filters(n, query@, today_text@)),
        );
        let raw_limit: usize = match query.limit {
            Some(l) => l,
            None => 200,
        };
        let limit: usize = if raw_limit < 500 {
            raw_limit
        } else {
            500
        };
        let ghost before_cut = note_views(kept@);
        kept.truncate(limit);
        proof {
            let f = keep(candidates(t0, query@, updated_today@, ids_v), |n: NoteV| matches_filters(n, query@, date_text_spec(today)));
            assert(before_cut == f);
            if f.len() <= limit {
                assert(note_views(kept@) == f);
            } else {
                assert(note_views(kept@) =~= f.take(limit as int));
            }
            assert(note_views(kept@) == search_notes(t0, query@, date_text_spec(today), updated_today@, ids_v));
        }
        let mut results: Vec<SearchResult> = Vec::new();
        let ghost kv = note_views(kept@);
        let mut j: usize = 0;
        while j < kept.len()
            invariant
                kv == note_views(kept@),
                j <= kept.len(),
                results.len() == j,
                forall|q: int| 0 <= q < j ==> results@[q]@ == (SearchResultV { note: kv[q], matched_terms: views(terms@) }),
            decreases kept.len() - j,
        {
            let note = kept[j].dup();
            results.push(SearchResult { note, matched_terms: crate::models::dup_strings(&terms) });
            j = j + 1;
        }
        proof {
            assert(vw(results@) =~= kv.map_values(|n: NoteV| SearchResultV { note: n, matched_terms: search_terms(query@.query) }));
        }
        let trimmed = trim(query.query.as_str());
        if !trimmed.as_str().is_empty() {
            self.tables.record_search(&query, now, hid)?;
        }
        Ok(results)
    }

    /// Searches the notes and records the query, at the current time and date; `index_ids`
    /// is the full-text index's answer to `fts_expression(&query)` when the index is used.
    pub fn search_indexed(&mut self, query: SearchQuery, index_ids: Option<&Vec<String>>) -> (r: AppResult<Vec<SearchResult>>)
        ensures
            exists|today: Date, local: Seq<Option<Date>>, now: Seq<char>, hid: Seq<char>|
                #![trigger search_spec(old(self)@, query@, date_text_spec(today), today_flags_spec(query_view(query@), today, local), index_answer(index_ids), now, hid)]
                valid_date(today) && local_dates_of(old(self)@, local) && final(self)@ == search_spec(
                    old(self)@,
                    query@,
                    date_text_spec(today),
                    today_flags_spec(query_view(query@), today, local),
                    index_answer(index_ids),
                    now,
                    hid,
                ).0 && match search_spec(
                    old(self)@,
                    query@,
                    date_text_spec(today),
                    today_flags_spec(query_view(query@), today, local),
                    index_answer(index_ids),
                    now,
                    hid,
                ).1 {
                    Ok(v) => r matches Ok(x) && vw(x@) == v,
                    Err(e) => r matches Err(x) && x@ == e,
                },
    {
        let today = local_today();
        let view = view_of(&query);
        let local = self.local_dates();
        let flags = today_flags_of(view.as_str(), today, &local);
        let now = utc_now_text();
        let hid = crate::ids::new_id();
        self.search_with(query, today, &flags, index_ids, now.as_str(), hid.as_str())
    }

    /// Searches the notes and records the query, at the current time and date; the
    /// full-text index is not consulted.
    pub fn search(&mut self, query: SearchQuery) -> (r: AppResult<Vec<SearchResult>>)
        ensures
            exists|today: Date, local: Seq<Option<Date>>, now: Seq<char>, hid: Seq<char>|
                #![trigger search_spec(old(self)@, query@, date_text_spec(today), today_flags_spec(query_view(query@), today, local), None, now, hid)]
                valid_date(today) && local_dates_of(old(self)@, local) && final(self)@ == search_spec(
                    old(self)@,
                    query@,
                    date_text_spec(today),
                    today_flags_spec(query_view(query@), today, local),
                    None,
                    now,
                    hid,
                ).0 && match search_spec(
                    old(self)@,
                    query@,
                    date_text_spec(today),
                    today_flags_spec(query_view(query@), today, local),
                    None,
                    now,
                    hid,
                ).1 {
                    Ok(v) => r matches Ok(x) && vw(x@) == v,
                    Err(e) => r matches Err(x) && x@ == e,
                },
    {
        self.search_indexed(query, None)
    }

    /// The twenty most recent searches, newest first.
    pub fn search_history(&self) -> (r: AppResult<Vec<SearchHistoryItem>>)
        ensures
            r matches Ok(v) && vw(v@) == history_spec(self@),
    {
        let sorted = self.tables.history_sorted();
        let n: usize = if sorted.len() <= 20 {
            sorted.len()
        } else {
            20
        };
        let mut out: Vec<SearchHistoryItem> = Vec::new();
        let mut i: usize = 0;
        while i < n
            invariant
                n <= sorted.len(),
                i <= n,
                out.len() == i,
                forall|j: int| 0 <= j < i ==> out@[j]@ == history_item(sorted@[j]@),
            decreases n - i,
        {
            let r = &sorted[i];
            out.push(
                SearchHistoryItem {
                    id: r.id.clone(),
                    query: r.query.clone(),
                    filters_json: r.filters_json.clone(),
                    searched_at: r.searched_at.clone(),
                },
            );
            i = i + 1;
        }
        proof {
            let s = isort(self@.search_history, |a: HistoryRowV, b: HistoryRowV| recent_first(a, b));
            assert(vw(out@) =~= (if s.len() <= 20 {
                s
            } else {
                s.take(20)
            }).map_values(|r: HistoryRowV| history_item(r)));
        }
        Ok(out)
    }

    /// Forgets every recorded search.
    pub fn clear_search_history(&mut self) -> (r: AppResult<()>)
        ensures
            r is Ok,
            final(self)@ == (TablesV { search_history: seq![], ..old(self)@ }),
    {
        self.tables.search_history = Vec::new();
        assert(self@ =~= TablesV { search_history: seq![], ..old(self)@ });
        Ok(())
    }
}

} // verus!
