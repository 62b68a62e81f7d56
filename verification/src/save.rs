//! Saving a note: validation, the revision check, the note row and its tags.

use vstd::prelude::*;
use crate::dates::utc_now_text;
use crate::digest::{sha256_hex_of, sha256_of_text};
use crate::error::{AppError, AppErrorV, AppResult};
use crate::json::{append, opt_view};
use crate::models::{SaveNoteInput, SaveNoteInputV, SaveNoteResponse, SaveNoteResponseV, dup_opt_string};
use crate::ops::{revision_maxed, overflow_error};
use crate::repo::{Database, note_pos, read_note};
use crate::seqs::{vw, keep, filter_vec, map_vec, any_vec, find_first};
use crate::tables::{Tables, TablesV, NoteRow, NoteRowV, CategoryRow, CategoryRowV, TagRow, TagRowV, LinkRow, LinkRowV, Dup};
use crate::text::{str_eq, trim, trim_spec, to_lowercase, lowercase, utf8, views};
use crate::writes::{reindex, reindex_note};

verus! {

pub open spec fn valid_status(s: Seq<char>) -> bool {
    s == "not_started"@ || s == "in_progress"@ || s == "completed"@
}

pub open spec fn valid_priority(s: Seq<char>) -> bool {
    s == "low"@ || s == "normal"@ || s == "high"@ || s == "urgent"@
}

pub open spec fn valid_source(s: Seq<char>) -> bool {
    s == "main"@ || s == "quick"@ || s == "import"@
}

/// `validate_input`: the first rule the input breaks, if any.
pub open spec fn input_error(i: SaveNoteInputV) -> Option<AppErrorV> {
    if !valid_status(i.todo_status) {
        Some(AppErrorV::Validation("无效的待办状态"@))
    } else if !valid_priority(i.priority) {
        Some(AppErrorV::Validation("无效的优先级"@))
    } else if !valid_source(i.source) {
        Some(AppErrorV::Validation("无效的笔记来源"@))
    } else if i.title.len() > 500 {
        Some(AppErrorV::Validation("标题不能超过 500 个字符"@))
    } else {
        None
    }
}

/// `content_hash`: SHA-256 of the title, a zero byte, and the content.
pub open spec fn content_hash(title: Seq<char>, content: Seq<char>) -> Seq<char> {
    sha256_hex_of(utf8(title + "\0"@ + content))
}

/// The note's category, when given, names no category (the foreign key fails).
pub open spec fn missing_category(t: TablesV, c: Option<Seq<char>>) -> bool {
    match c {
        Some(id) => !exists|k: int| 0 <= k < t.categories.len() && t.categories[k].id == id,
        None => false,
    }
}

pub open spec fn fk_error() -> AppErrorV {
    AppErrorV::Database("FOREIGN KEY constraint failed"@)
}

/// What the tag loop of a save has decided so far.
#[verifier::ext_equal]
pub struct PlanV {
    pub seen: Seq<Seq<char>>,
    pub new_tags: Seq<TagRowV>,
    pub links: Seq<Seq<char>>,
}

pub open spec fn empty_plan() -> PlanV {
    PlanV { seen: seq![], new_tags: seq![], links: seq![] }
}

/// `SELECT id FROM tags WHERE normalized_name = ?`, over the table and the tags this save
/// has already created.
pub open spec fn tag_with_name(tags: Seq<TagRowV>, made: Seq<TagRowV>, normalized: Seq<char>) -> Option<Seq<char>> {
    let i = crate::seqs::first_index(tags, |g: TagRowV| g.normalized_name == normalized);
    let j = crate::seqs::first_index(made, |g: TagRowV| g.normalized_name == normalized);
    if i >= 0 {
        Some(tags[i].id)
    } else if j >= 0 {
        Some(made[j].id)
    } else {
        None
    }
}

pub open spec fn tag_id_taken(tags: Seq<TagRowV>, made: Seq<TagRowV>, id: Seq<char>) -> bool {
    (exists|k: int| 0 <= k < tags.len() && tags[k].id == id) || (exists|k: int| 0 <= k < made.len() && made[k].id == id)
}

/// `INSERT OR IGNORE INTO note_tags`: a link is added once.
pub open spec fn add_link(st: PlanV, g: Seq<char>) -> PlanV {
    if st.links.contains(g) {
        st
    } else {
        PlanV { links: st.links.push(g), ..st }
    }
}

/// One tag name of a save: blank names and repeats (by normalized name) are skipped; the
/// tag with the normalized name is found or created with the id `fresh`; the note is
/// linked to it.
pub open spec fn plan_step(
    tags: Seq<TagRowV>,
    st: PlanV,
    name: Seq<char>,
    fresh: Seq<char>,
    now: Seq<char>,
) -> Result<PlanV, AppErrorV> {
    let trimmed = trim_spec(name);
    let normalized = lowercase(trim_spec(trimmed));
    if trimmed.len() == 0 || st.seen.contains(normalized) {
        Ok(st)
    } else {
        let st1 = PlanV { seen: st.seen.push(normalized), ..st };
        if normalized.len() == 0 {
            Err(AppErrorV::Validation("标签名称不能为空"@))
        } else {
            match tag_with_name(tags, st.new_tags, normalized) {
                Some(g) => Ok(add_link(st1, g)),
                None => if tag_id_taken(tags, st.new_tags, fresh) {
                    Err(AppErrorV::Database("UNIQUE constraint failed: tags.id"@))
                } else {
                    let row = TagRowV {
                        id: fresh,
                        name: trim_spec(trimmed),
                        normalized_name: normalized,
                        created_at: now,
                        updated_at: now,
                    };
                    Ok(add_link(PlanV { new_tags: st.new_tags.push(row), ..st1 }, fresh))
                },
            }
        }
    }
}

/// The tag loop over the first `k` names; name `j` may create a tag with id `ids[j + 1]`.
pub open spec fn plan_upto(
    tags: Seq<TagRowV>,
    names: Seq<Seq<char>>,
    ids: Seq<Seq<char>>,
    now: Seq<char>,
    k: nat,
) -> Result<PlanV, AppErrorV>
    decreases k,
{
    if k == 0 {
        Ok(empty_plan())
    } else {
        match plan_upto(tags, names, ids, now, (k - 1) as nat) {
            Err(e) => Err(e),
            Ok(st) => plan_step(tags, st, names[k - 1], ids[k as int], now),
        }
    }
}

pub proof fn lemma_plan_error_stays(
    tags: Seq<TagRowV>,
    names: Seq<Seq<char>>,
    ids: Seq<Seq<char>>,
    now: Seq<char>,
    k: nat,
    m: nat,
)
    requires
        k <= m,
        plan_upto(tags, names, ids, now, k) is Err,
    ensures
        plan_upto(tags, names, ids, now, m) == plan_upto(tags, names, ids, now, k),
    decreases m - k,
{
    if k < m {
        lemma_plan_error_stays(tags, names, ids, now, k, (m - 1) as nat);
    }
}

/// The note's old links replaced by the planned ones, the planned tags added.
pub open spec fn with_links(t: TablesV, id: Seq<char>, plan: PlanV) -> TablesV {
    let kept = keep(t.note_tags, |l: LinkRowV| l.note_id != id);
    TablesV {
        tags: t.tags + plan.new_tags,
        note_tags: kept + plan.links.map_values(|g: Seq<char>| LinkRowV { note_id: id, tag_id: g }),
        ..t
    }
}

/// The row of an existing note rewritten from the input.
pub open spec fn rewritten(r: NoteRowV, i: SaveNoteInputV, hash: Seq<char>, now: Seq<char>, completed: Option<Seq<char>>) -> NoteRowV {
    NoteRowV {
        title: i.title,
        content: i.content,
        category_id: i.category_id,
        is_favorite: i.is_favorite,
        is_todo: i.is_todo,
        todo_status: i.todo_status,
        priority: i.priority,
        due_date: i.due_date,
        completed_at: completed,
        source: i.source,
        revision: (r.revision + 1) as i64,
        content_hash: hash,
        updated_at: now,
        ..r
    }
}

/// Whether the input marks the note as a completed todo.
pub open spec fn completes(i: SaveNoteInputV) -> bool {
    i.is_todo && i.todo_status == "completed"@
}

/// The row of a new note.
pub open spec fn fresh_row(id: Seq<char>, i: SaveNoteInputV, hash: Seq<char>, now: Seq<char>) -> NoteRowV {
    NoteRowV {
        id,
        title: i.title,
        content: i.content,
        category_id: i.category_id,
        is_favorite: i.is_favorite,
        is_todo: i.is_todo,
        todo_status: i.todo_status,
        priority: i.priority,
        due_date: i.due_date,
        completed_at: if completes(i) {
            Some(now)
        } else {
            None
        },
        source: i.source,
        revision: 0,
        content_hash: hash,
        created_at: now,
        updated_at: now,
        deleted_at: None,
        archived_at: None,
    }
}

/// The end of a save: links, index, and the note read back.
pub open spec fn finish(t: TablesV, id: Seq<char>, plan: PlanV, status: Seq<char>) -> (TablesV, Result<SaveNoteResponseV, AppErrorV>) {
    let t2 = reindex(with_links(t, id, plan), id);
    (
        t2,
        match read_note(t2, id) {
            Ok(n) => Ok(SaveNoteResponseV { status, note: n }),
            Err(e) => Err(e),
        },
    )
}

/// `save_note` at the instant `now` with the fresh ids `ids` (`ids[0]` for a new note,
/// `ids[j + 1]` for a tag created for the `j`-th tag name).
pub open spec fn save_spec(t: TablesV, i: SaveNoteInputV, now: Seq<char>, ids: Seq<Seq<char>>) -> (TablesV, Result<SaveNoteResponseV, AppErrorV>) {
    let hash = content_hash(i.title, i.content);
    let plan = plan_upto(t.tags, i.tag_names, ids, now, i.tag_names.len());
    match input_error(i) {
        Some(e) => (t, Err(e)),
        None => match i.id {
            Some(id) => {
                let p = note_pos(t, id);
                if p < 0 {
                    (t, Err(AppErrorV::NotFound))
                } else {
                    let cur = t.notes[p];
                    let expected = match i.expected_revision {
                        Some(x) => x,
                        None => cur.revision,
                    };
                    if expected != cur.revision {
                        (
                            t,
                            match read_note(t, id) {
                                Ok(n) => Ok(SaveNoteResponseV { status: "conflict"@, note: n }),
                                Err(e) => Err(e),
                            },
                        )
                    } else if revision_maxed(t, id) {
                        (t, Err(overflow_error()))
                    } else if missing_category(t, i.category_id) {
                        (t, Err(fk_error()))
                    } else {
                        match plan {
                            Err(e) => (t, Err(e)),
                            Ok(pl) => {
                                let completed = if completes(i) {
                                    match cur.completed_at {
                                        Some(c) => Some(c),
                                        None => Some(now),
                                    }
                                } else {
                                    None
                                };
                                let t1 = crate::ops::update_notes(t, id, |r: NoteRowV| rewritten(r, i, hash, now, completed));
                                finish(t1, id, pl, "saved"@)
                            },
                        }
                    }
                }
            },
            None => {
                let id = ids[0];
                if exists|k: int| 0 <= k < t.notes.len() && t.notes[k].id == id {
                    (t, Err(AppErrorV::Database("UNIQUE constraint failed: notes.id"@)))
                } else if missing_category(t, i.category_id) {
                    (t, Err(fk_error()))
                } else {
                    match plan {
                        Err(e) => (t, Err(e)),
                        Ok(pl) => finish(TablesV { notes: t.notes.push(fresh_row(id, i, hash, now)), ..t }, id, pl, "created"@),
                    }
                }
            },
        },
    }
}

/// The exec state of the tag loop.
pub struct Plan {
    pub seen: Vec<String>,
    pub new_tags: Vec<TagRow>,
    pub links: Vec<String>,
}

impl View for Plan {
    type V = PlanV;

    open spec fn view(&self) -> PlanV {
        PlanV { seen: views(self.seen@), new_tags: vw(self.new_tags@), links: views(self.links@) }
    }
}

fn strings_contain(v: &Vec<String>, s: &str) -> (r: bool)
    ensures
        r == views(v@).contains(s@),
{
    let mut i: usize = 0;
    while i < v.len()
        invariant
            i <= v.len(),
            forall|j: int| 0 <= j < i ==> v@[j]@ != s@,
        decreases v.len() - i,
    {
        if str_eq(v[i].as_str(), s) {
            proof {
                assert(views(v@)[i as int] == s@);
            }
            return true;
        }
        i = i + 1;
    }
    proof {
        if views(v@).contains(s@) {
            let j = choose|j: int| 0 <= j < views(v@).len() && views(v@)[j] == s@;
            assert(v@[j]@ == s@);
        }
    }
    false
}

fn tag_with_name_exec(tags: &Vec<TagRow>, made: &Vec<TagRow>, normalized: &str) -> (r: Option<String>)
    ensures
        opt_view(r) == tag_with_name(vw(tags@), vw(made@), normalized@),
{
    let a = find_first(
        tags,
        (|g: &TagRow| -> (b: bool)
            ensures
                b == (g@.normalized_name == normalized@),
            { str_eq(g.normalized_name.as_str(), normalized) }),
        Ghost(|g: TagRowV| g.normalized_name == normalized@),
    );
    match a {
        Some(i) => Some(tags[i].id.clone()),
        None => {
            let b = find_first(
                made,
                (|g: &TagRow| -> (b: bool)
                    ensures
                        b == (g@.normalized_name == normalized@),
                    { str_eq(g.normalized_name.as_str(), normalized) }),
                Ghost(|g: TagRowV| g.normalized_name == normalized@),
            );
            match b {
                Some(j) => Some(made[j].id.clone()),
                None => None,
            }
        },
    }
}

fn tag_id_taken_exec(tags: &Vec<TagRow>, made: &Vec<TagRow>, id: &str) -> (r: bool)
    ensures
        r == tag_id_taken(vw(tags@), vw(made@), id@),
{
    any_vec(
        tags,
        (|g: &TagRow| -> (b: bool)
            ensures
                b == (g@.id == id@),
            { str_eq(g.id.as_str(), id) }),
        Ghost(|g: TagRowV| g.id == id@),
    ) || any_vec(
        made,
        (|g: &TagRow| -> (b: bool)
            ensures
                b == (g@.id == id@),
            { str_eq(g.id.as_str(), id) }),
        Ghost(|g: TagRowV| g.id == id@),
    )
}

fn add_link_exec(st: &mut Plan, g: String)
    ensures
        final(st)@ == add_link(old(st)@, g@),
{
    if !strings_contain(&st.links, g.as_str()) {
        st.links.push(g);
        proof {
            assert(views(st.links@) =~= views(old(st).links@).push(g@));
        }
    }
}

/// Runs the tag loop of a save without touching the tables.
fn plan_tags(tags: &Vec<TagRow>, names: &Vec<String>, ids: &Vec<String>, now: &str) -> (r: AppResult<Plan>)
    requires
        ids.len() >= names.len() + 1,
    ensures
        match plan_upto(vw(tags@), views(names@), views(ids@), now@, names.len() as nat) {
            Ok(p) => r matches Ok(x) && x@ == p,
            Err(e) => r matches Err(x) && x@ == e,
        },
{
    let mut st = Plan { seen: Vec::new(), new_tags: Vec::new(), links: Vec::new() };
    proof {
        assert(views(st.seen@) =~= seq![]);
        assert(vw(st.new_tags@) =~= seq![]);
        assert(views(st.links@) =~= seq![]);
        assert(st@ =~= empty_plan());
    }
    let mut k: usize = 0;
    while k < names.len()
        invariant
            ids.len() >= names.len() + 1,
            k <= names.len(),
            plan_upto(vw(tags@), views(names@), views(ids@), now@, k as nat) == Ok::<PlanV, AppErrorV>(st@),
        decreases names.len() - k,
    {
        let ghost before = st@;
        let trimmed = trim(names[k].as_str());
        let t2 = trim(trimmed.as_str());
        let normalized = to_lowercase(t2.as_str());
        proof {
            assert(views(names@)[k as int] == names@[k as int]@);
            assert(views(ids@)[k + 1] == ids@[k + 1]@);
        }
        if !trimmed.as_str().is_empty() && !strings_contain(&st.seen, normalized.as_str()) {
            st.seen.push(normalized.clone());
            proof {
                assert(views(st.seen@) =~= before.seen.push(normalized@));
            }
            if normalized.as_str().is_empty() {
                proof {
                    lemma_plan_error_stays(vw(tags@), views(names@), views(ids@), now@, (k + 1) as nat, names.len() as nat);
                }
                return Err(AppError::Validation("标签名称不能为空".to_owned()));
            }
            match tag_with_name_exec(tags, &st.new_tags, normalized.as_str()) {
                Some(g) => {
                    add_link_exec(&mut st, g);
                },
                None => {
                    if tag_id_taken_exec(tags, &st.new_tags, ids[k + 1].as_str()) {
                        proof {
                            lemma_plan_error_stays(vw(tags@), views(names@), views(ids@), now@, (k + 1) as nat, names.len() as nat);
                        }
                        return Err(AppError::Database("UNIQUE constraint failed: tags.id".to_owned()));
                    }
                    let row = TagRow {
                        id: ids[k + 1].clone(),
                        name: t2.clone(),
                        normalized_name: normalized.clone(),
                        created_at: now.to_owned(),
                        updated_at: now.to_owned(),
                    };
                    st.new_tags.push(row);
                    proof {
                        assert(vw(st.new_tags@) =~= before.new_tags.push(row@));
                    }
                    add_link_exec(&mut st, ids[k + 1].clone());
                },
            }
        }
        k = k + 1;
    }
    Ok(st)
}

/// Replaces the note's links with the planned ones and adds the planned tags.
fn apply_links(t: &mut Tables, id: &str, plan: Plan)
    ensures
        final(t)@ == with_links(old(t)@, id@, plan@),
{
    let ghost t0 = t@;
    let mut links: Vec<LinkRow> = Vec::new();
    std::mem::swap(&mut links, &mut t.note_tags);
    t.note_tags = filter_vec(
        links,
        (|l: &LinkRow| -> (b: bool)
            ensures
                b == (l@.note_id != id@),
            { !str_eq(l.note_id.as_str(), id) }),
        Ghost(|l: LinkRowV| l.note_id != id@),
    );
    let ghost kept = t.note_tags@;
    let ghost pv = plan@;
    let plan_links = plan.links;
    let mut new_tags = plan.new_tags;
    let ghost tag0 = t.tags@;
    let ghost added = new_tags@;
    t.tags.append(&mut new_tags);
    assert(t.tags@ == tag0 + added);
    assert(vw(t.tags@) =~= vw(tag0) + vw(added));
    assert(vw(added) == pv.new_tags);
    let ghost mid = t@;
    let mut k: usize = 0;
    while k < plan_links.len()
        invariant
            k <= plan_links.len(),
            pv.links == views(plan_links@),
            t@ == (TablesV { note_tags: t@.note_tags, ..mid }),
            vw(t.note_tags@) == vw(kept) + pv.links.take(k as int).map_values(|g: Seq<char>| LinkRowV { note_id: id@, tag_id: g }),
        decreases plan_links.len() - k,
    {
        let l = LinkRow { note_id: id.to_owned(), tag_id: plan_links[k].clone() };
        let ghost before = vw(t.note_tags@);
        t.note_tags.push(l);
        proof {
            assert(views(plan_links@)[k as int] == plan_links@[k as int]@);
            assert(pv.links.take(k + 1) == pv.links.take(k as int).push(pv.links[k as int]));
            assert(vw(t.note_tags@) =~= before.push(l@));
            assert(pv.links.take(k + 1).map_values(|g: Seq<char>| LinkRowV { note_id: id@, tag_id: g }) =~= pv.links.take(
                k as int,
            ).map_values(|g: Seq<char>| LinkRowV { note_id: id@, tag_id: g }).push(l@));
        }
        k = k + 1;
    }
    proof {
        assert(pv.links.take(k as int) == pv.links);
        assert(t@ =~= with_links(t0, id@, pv));
    }
}

/// `validate_input`.
fn input_error_exec(i: &SaveNoteInput) -> (r: Option<AppError>)
    ensures
        match input_error(i@) {
            Some(e) => r matches Some(x) && x@ == e,
            None => r is None,
        },
{
    let s = i.todo_status.as_str();
    if !(str_eq(s, "not_started") || str_eq(s, "in_progress") || str_eq(s, "completed")) {
        return Some(AppError::Validation("无效的待办状态".to_owned()));
    }
    let p = i.priority.as_str();
    if !(str_eq(p, "low") || str_eq(p, "normal") || str_eq(p, "high") || str_eq(p, "urgent")) {
        return Some(AppError::Validation("无效的优先级".to_owned()));
    }
    let o = i.source.as_str();
    if !(str_eq(o, "main") || str_eq(o, "quick") || str_eq(o, "import")) {
        return Some(AppError::Validation("无效的笔记来源".to_owned()));
    }
    if crate::text::chars_of(i.title.as_str()).len() > 500 {
        return Some(AppError::Validation("标题不能超过 500 个字符".to_owned()));
    }
    None
}

/// `content_hash`.
pub fn note_content_hash(title: &str, content: &str) -> (r: String)
    ensures
        r@ == content_hash(title@, content@),
{
    let mut s = title.to_owned();
    append(&mut s, "\0");
    append(&mut s, content);
    sha256_of_text(s.as_str())
}

impl Tables {
    pub(crate) fn category_exists(&self, c: &Option<String>) -> (r: bool)
        ensures
            r == !missing_category(self@, opt_view(*c)),
    {
        match c {
            Some(id) => {
                let b = any_vec(
                    &self.categories,
                    (|x: &CategoryRow| -> (b: bool)
                        ensures
                            b == (x@.id == id@),
                        { str_eq(x.id.as_str(), id.as_str()) }),
                    Ghost(|x: CategoryRowV| x.id == id@),
                );
                proof {
                    if b {
                        let k = choose|k: int| 0 <= k < self.categories@.len() && (|x: CategoryRowV| x.id == id@)(vw(self.categories@)[k]);
                        assert(self@.categories[k].id == id@);
                    } else {
                        assert forall|k: int| 0 <= k < self@.categories.len() implies self@.categories[k].id != id@ by {
                            assert(!(|x: CategoryRowV| x.id == id@)(vw(self.categories@)[k]));
                        }
                    }
                }
                b
            },
            None => true,
        }
    }
}

impl Database {
    /// Saves a note at the instant `now`, with the fresh ids `ids`: creates it when the input
    /// has no id, otherwise rewrites it unless its revision moved on (a conflict, answered
    /// with the stored note).
    pub fn save_note_with(&mut self, input: SaveNoteInput, now: &str, ids: &Vec<String>) -> (r: AppResult<SaveNoteResponse>)
        requires
            ids.len() >= input.tag_names.len() + 1,
        ensures
            final(self)@ == save_spec(old(self)@, input@, now@, views(ids@)).0,
            match save_spec(old(self)@, input@, now@, views(ids@)).1 {
                Ok(v) => r matches Ok(x) && x@ == v,
                Err(e) => r matches Err(x) && x@ == e,
            },
    {
        match input_error_exec(&input) {
            Some(e) => return Err(e),
            None => {},
        }
        let hash = note_content_hash(input.title.as_str(), input.content.as_str());
        let completes = input.is_todo && str_eq(input.todo_status.as_str(), "completed");
        match &input.id {
            Some(id) => {
                let p = match self.tables.note_index(id.as_str()) {
                    Some(p) => p,
                    None => return Err(AppError::NotFound),
                };
                let cur_rev = self.tables.notes[p].revision;
                let cur_completed = dup_opt_string(&self.tables.notes[p].completed_at);
                proof {
                    assert(self@.notes[p as int] == self.tables.notes@[p as int]@);
                }
                let expected = match input.expected_revision {
                    Some(x) => x,
                    None => cur_rev,
                };
                if expected != cur_rev {
                    let n = self.get_note(id.as_str())?;
                    return Ok(SaveNoteResponse { status: "conflict".to_owned(), note: n });
                }
                if self.tables.revision_maxed(id.as_str()) {
                    return Err(AppError::Database("integer overflow".to_owned()));
                }
                if !self.tables.category_exists(&input.category_id) {
                    return Err(AppError::Database("FOREIGN KEY constraint failed".to_owned()));
                }
                let plan = plan_tags(&self.tables.tags, &input.tag_names, ids, now)?;
                let completed: Option<String> = if completes {
                    match cur_completed {
                        Some(c) => Some(c),
                        None => Some(now.to_owned()),
                    }
                } else {
                    None
                };
                let ghost t0 = self@;
                let ghost cv = opt_view(completed);
                let ghost sf = |r: NoteRowV| if r.id == id@ { rewritten(r, input@, hash@, now@, cv) } else { r };
                let mut rows: Vec<NoteRow> = Vec::new();
                std::mem::swap(&mut rows, &mut self.tables.notes);
                assert forall|k: int| 0 <= k < rows@.len() && rows@[k]@.id == id@ implies rows@[k]@.revision < i64::MAX by {
                    assert(t0.notes[k] == rows@[k]@);
                }
                self.tables.notes = map_vec(
                    rows,
                    (|n: &NoteRow| -> (m: NoteRow)
                        requires
                            n@.id == id@ ==> n@.revision < i64::MAX,
                        ensures
                            m@ == sf(n@),
                        {
                            let mut m = n.dup();
                            if str_eq(n.id.as_str(), id.as_str()) {
                                m.title = input.title.clone();
                                m.content = input.content.clone();
                                m.category_id = dup_opt_string(&input.category_id);
                                m.is_favorite = input.is_favorite;
                                m.is_todo = input.is_todo;
                                m.todo_status = input.todo_status.clone();
                                m.priority = input.priority.clone();
                                m.due_date = dup_opt_string(&input.due_date);
                                m.completed_at = dup_opt_string(&completed);
                                m.source = input.source.clone();
                                m.revision = n.revision + 1;
                                m.content_hash = hash.clone();
                                m.updated_at = now.to_owned();
                            }
                            m
                        }),
                    Ghost(sf),
                );
                proof {
                    assert(self@ =~= crate::ops::update_notes(t0, id@, |r: NoteRowV| rewritten(r, input@, hash@, now@, cv)));
                }
                apply_links(&mut self.tables, id.as_str(), plan);
                reindex_note(&mut self.tables, id.as_str());
                let n = self.get_note(id.as_str())?;
                Ok(SaveNoteResponse { status: "saved".to_owned(), note: n })
            },
            None => {
                let id = ids[0].clone();
                proof {
                    assert(views(ids@)[0] == id@);
                }
                if any_vec(
                    &self.tables.notes,
                    (|n: &NoteRow| -> (b: bool)
                        ensures
                            b == (n@.id == id@),
                        { str_eq(n.id.as_str(), id.as_str()) }),
                    Ghost(|n: NoteRowV| n.id == id@),
                ) {
                    return Err(AppError::Database("UNIQUE constraint failed: notes.id".to_owned()));
                }
                if !self.tables.category_exists(&input.category_id) {
                    return Err(AppError::Database("FOREIGN KEY constraint failed".to_owned()));
                }
                let plan = plan_tags(&self.tables.tags, &input.tag_names, ids, now)?;
                let row = NoteRow {
                    id: id.clone(),
                    title: input.title.clone(),
                    content: input.content.clone(),
                    category_id: dup_opt_string(&input.category_id),
                    is_favorite: input.is_favorite,
                    is_todo: input.is_todo,
                    todo_status: input.todo_status.clone(),
                    priority: input.priority.clone(),
                    due_date: dup_opt_string(&input.due_date),
                    completed_at: if completes {
                        Some(now.to_owned())
                    } else {
                        None
                    },
                    source: input.source.clone(),
                    revision: 0,
                    content_hash: hash,
                    created_at: now.to_owned(),
                    updated_at: now.to_owned(),
                    deleted_at: None,
                    archived_at: None,
                };
                let ghost t0 = self@;
                self.tables.notes.push(row);
                proof {
                    assert(self@ =~= TablesV { notes: t0.notes.push(fresh_row(id@, input@, content_hash(input@.title, input@.content), now@)), ..t0 });
                }
                apply_links(&mut self.tables, id.as_str(), plan);
                reindex_note(&mut self.tables, id.as_str());
                let n = self.get_note(id.as_str())?;
                Ok(SaveNoteResponse { status: "created".to_owned(), note: n })
            },
        }
    }

    /// Saves a note, stamped with the current time and with fresh random ids.
    pub fn save_note(&mut self, input: SaveNoteInput) -> (r: AppResult<SaveNoteResponse>)
        ensures
            exists|now: Seq<char>, ids: Seq<Seq<char>>|
                #![trigger save_spec(old(self)@, input@, now, ids)]
                ids.len() == input@.tag_names.len() + 1 && final(self)@ == save_spec(old(self)@, input@, now, ids).0
                    && match save_spec(old(self)@, input@, now, ids).1 {
                    Ok(v) => r matches Ok(x) && x@ == v,
                    Err(e) => r matches Err(x) && x@ == e,
                },
    {
        let now = utc_now_text();
        let mut ids: Vec<String> = Vec::new();
        ids.push(crate::ids::new_id());
        let n = input.tag_names.len();
        let mut k: usize = 0;
        while k < n
            invariant
                k <= n,
                n == input.tag_names.len(),
                ids.len() == k + 1,
            decreases n - k,
        {
            ids.push(crate::ids::new_id());
            k = k + 1;
        }
        self.save_note_with(input, now.as_str(), &ids)
    }
}

} // verus!
