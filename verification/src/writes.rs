//! Statements on the tables: the updates, deletions and index refreshes the repository runs.

use vstd::prelude::*;
use crate::json::append;
use crate::repo::{note_pos, category_by_id, linked};
use crate::seqs::{keep, filter_vec};
use crate::tables::{Tables, TablesV, NoteRow, NoteRowV, FtsRow, FtsRowV, TagRowV};
use crate::text::str_eq;

verus! {

/// Names joined by single spaces (`group_concat(name, ' ')`, empty when there are none).
pub open spec fn join_spaced(names: Seq<Seq<char>>) -> Seq<char>
    decreases names.len(),
{
    if names.len() == 0 {
        seq![]
    } else if names.len() == 1 {
        names[0]
    } else {
        join_spaced(names.drop_last()) + " "@ + names.last()
    }
}

/// The index row of a note: its text, tag names, category name and dates.
pub open spec fn fts_row_of(t: TablesV, r: NoteRowV) -> FtsRowV {
    FtsRowV {
        note_id: r.id,
        title: r.title,
        content: r.content,
        tags_text: join_spaced(keep(t.tags, |g: TagRowV| linked(t, r.id, g)).map_values(|g: TagRowV| g.name)),
        category_text: match r.category_id {
            Some(c) => match category_by_id(t, c) {
                Some(cv) => cv.name,
                None => seq![],
            },
            None => seq![],
        },
        dates_text: r.created_at + " "@ + r.updated_at + " "@ + match r.due_date {
            Some(d) => d,
            None => seq![],
        },
    }
}

/// The tables without the index rows of a note.
pub open spec fn fts_without(t: TablesV, id: Seq<char>) -> TablesV {
    TablesV { fts: keep(t.fts, |f: FtsRowV| f.note_id != id), ..t }
}

/// `reindex_note`: the note's index rows are replaced by one fresh row, or by none when
/// the note is missing or deleted.
pub open spec fn reindex(t: TablesV, id: Seq<char>) -> TablesV {
    let t1 = fts_without(t, id);
    let i = note_pos(t1, id);
    if i < 0 || t1.notes[i].deleted_at is Some {
        t1
    } else {
        TablesV { fts: t1.fts.push(fts_row_of(t1, t1.notes[i])), ..t1 }
    }
}

/// Reindexes each note in turn.
pub open spec fn reindex_all(t: TablesV, ids: Seq<Seq<char>>) -> TablesV
    decreases ids.len(),
{
    if ids.len() == 0 {
        t
    } else {
        reindex(reindex_all(t, ids.drop_last()), ids.last())
    }
}

/// Removes a note's index rows.
pub fn remove_fts(t: &mut Tables, id: &str)
    ensures
        final(t)@ == fts_without(old(t)@, id@),
{
    let mut rows: Vec<FtsRow> = Vec::new();
    std::mem::swap(&mut rows, &mut t.fts);
    let kept = filter_vec(
        rows,
        (|f: &FtsRow| -> (b: bool)
            ensures
                b == (f@.note_id != id@),
            { !str_eq(f.note_id.as_str(), id) }),
        Ghost(|f: FtsRowV| f.note_id != id@),
    );
    t.fts = kept;
    assert(t@ =~= fts_without(old(t)@, id@));
}

/// The index row of a note.
pub fn fts_row(t: &Tables, r: &NoteRow) -> (f: FtsRow)
    ensures
        f@ == fts_row_of(t@, r@),
{
    let ghost tv = t@;
    let mut names: String = String::new();
    let mut any: bool = false;
    let ghost p = |g: TagRowV| linked(tv, r@.id, g);
    let mut i: usize = 0;
    while i < t.tags.len()
        invariant
            tv == t@,
            i <= t.tags.len(),
            forall|g: TagRowV| #[trigger] p(g) == linked(tv, r@.id, g),
            any == (keep(tv.tags.take(i as int), p).len() > 0),
            names@ == join_spaced(keep(tv.tags.take(i as int), p).map_values(|g: TagRowV| g.name)),
        decreases t.tags.len() - i,
    {
        let g = &t.tags[i];
        proof {
            assert(tv.tags[i as int] == g@);
            assert(tv.tags.take(i + 1).drop_last() == tv.tags.take(i as int));
        }
        if t.is_linked(r.id.as_str(), g.id.as_str()) {
            let ghost prev = keep(tv.tags.take(i as int), p);
            if any {
                append(&mut names, " ");
            }
            append(&mut names, g.name.as_str());
            any = true;
            proof {
                let now_kept = prev.push(g@);
                assert(keep(tv.tags.take(i + 1), p) == now_kept);
                assert(now_kept.map_values(|g: TagRowV| g.name) =~= prev.map_values(|g: TagRowV| g.name).push(g@.name));
                assert(now_kept.map_values(|g: TagRowV| g.name).drop_last() =~= prev.map_values(|g: TagRowV| g.name));
            }
        }
        i = i + 1;
    }
    proof {
        assert(tv.tags.take(i as int) == tv.tags);
    }
    let category_text = match &r.category_id {
        Some(c) => match t.category_by_id(c.as_str()) {
            Some(cv) => cv.name,
            None => String::new(),
        },
        None => String::new(),
    };
    let mut dates = r.created_at.clone();
    append(&mut dates, " ");
    append(&mut dates, r.updated_at.as_str());
    append(&mut dates, " ");
    match &r.due_date {
        Some(d) => append(&mut dates, d.as_str()),
        None => {},
    }
    proof {
        assert(dates@ =~= r@.created_at + " "@ + r@.updated_at + " "@ + match r@.due_date {
            Some(d) => d,
            None => seq![],
        });
    }
    FtsRow {
        note_id: r.id.clone(),
        title: r.title.clone(),
        content: r.content.clone(),
        tags_text: names,
        category_text,
        dates_text: dates,
    }
}

/// `reindex_note`.
pub fn reindex_note(t: &mut Tables, id: &str)
    ensures
        final(t)@ == reindex(old(t)@, id@),
{
    remove_fts(t, id);
    match t.note_index(id) {
        Some(i) => {
            let row = &t.notes[i];
            proof {
                assert(t@.notes[i as int] == row@);
            }
            if row.deleted_at.is_none() {
                let f = fts_row(t, row);
                t.fts.push(f);
                assert(t@ =~= TablesV { fts: fts_without(old(t)@, id@).fts.push(f@), ..fts_without(old(t)@, id@) });
            }
        },
        None => {},
    }
}

} // verus!
