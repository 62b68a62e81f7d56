//! What the store tells the organizer: keyword profiles of the categories and the titles
//! of the other notes; and the analysis of a stored note.

use vstd::prelude::*;
use crate::analyze::{
    CategoryKeywords, CategoryKeywordsV, OrganizerContext, OrganizerContextV, OrganizerProvider, RuleOrganizer,
    analyze_spec,
};
use crate::dates::{Date, rfc3339_parses, valid_date};
use crate::error::{AppErrorV, AppResult};
use crate::json::append;
use crate::models::{NoteV, OrganizerResult, OrganizerResultV};
use crate::organizer::{Ranked, RankedV, dedup_strings, position_of, rank_tokens, ranked, windows_of};
use crate::repo::{Database, category_of_row, category_order, read_note, tag_of_row, tag_order};
use crate::seqs::{distinct, isort, keep, sort_vec, vw};
use crate::settings::{fault_matches, settings_of};
use crate::suggest::persist_spec;
use crate::tables::{CategoryRowV, NoteRowV, TagRowV, TablesV};
use crate::text::{char_alphanumeric, chars_of, is_alphanumeric, lowercase, str_eq, string_of, to_lowercase, views};

verus! {

// ---------------------------------------------------------------------------
// Keyword profiles.
// ---------------------------------------------------------------------------

/// A row that teaches its category: it has one and is not in the trash.
pub open spec fn teaching(r: NoteRowV) -> bool {
    r.category_id is Some && r.deleted_at is None
}

/// The pieces of `s` between characters that are not letters or digits
/// (`str::split(|c| !c.is_alphanumeric())`, empty pieces included).
pub open spec fn alnum_pieces(s: Seq<char>) -> Seq<Seq<char>>
    decreases s.len(),
{
    if s.len() == 0 {
        seq![seq![]]
    } else {
        let p = alnum_pieces(s.drop_last());
        if !char_alphanumeric(s.last()) {
            p.push(seq![])
        } else {
            p.update(p.len() - 1, p.last().push(s.last()))
        }
    }
}

proof fn lemma_pieces_nonempty(s: Seq<char>)
    ensures
        alnum_pieces(s).len() >= 1,
    decreases s.len(),
{
    if s.len() > 0 {
        lemma_pieces_nonempty(s.drop_last());
    }
}

/// The tokens of one note: its words of two or more characters, and the two-, three- and
/// four-character windows of its letters and digits, each once.
pub open spec fn note_tokens(r: NoteRowV) -> Seq<Seq<char>> {
    let text = lowercase(r.title + " "@ + r.content);
    let words = keep(alnum_pieces(text), |w: Seq<char>| w.len() >= 2).map_values(|w: Seq<char>| lowercase(w));
    let compact = keep(text, |c: char| char_alphanumeric(c));
    distinct(words + windows_of(compact, 2) + windows_of(compact, 3) + windows_of(compact, 4))
}

/// The tokens of the rows that teach category `c`, row after row.
pub open spec fn category_stream(rows: Seq<NoteRowV>, c: Seq<char>) -> Seq<Seq<char>>
    decreases rows.len(),
{
    if rows.len() == 0 {
        seq![]
    } else {
        category_stream(rows.drop_last(), c) + if teaching(rows.last()) && rows.last().category_id == Some(c) {
            note_tokens(rows.last())
        } else {
            seq![]
        }
    }
}

pub open spec fn by_count(a: RankedV, b: RankedV) -> bool {
    a.count > b.count
}

/// The twenty tokens found in most of the category's notes (ties in order of first
/// occurrence).
pub open spec fn profile(rows: Seq<NoteRowV>, c: Seq<char>) -> Seq<Seq<char>> {
    let s = isort(ranked(category_stream(rows, c)), |a: RankedV, b: RankedV| by_count(a, b));
    (if s.len() > 20 {
        s.take(20)
    } else {
        s
    }).map_values(|r: RankedV| r.token)
}

/// The categories that have a teaching row, in order of their first one.
pub open spec fn profiled_categories(rows: Seq<NoteRowV>) -> Seq<Seq<char>> {
    distinct(keep(rows, |r: NoteRowV| teaching(r)).map_values(|r: NoteRowV| r.category_id.unwrap()))
}

/// Whether any token was found in the notes of category `c`.
pub open spec fn has_tokens(rows: Seq<NoteRowV>, c: Seq<char>) -> bool {
    category_stream(rows, c).len() > 0
}

pub open spec fn profile_of(rows: Seq<NoteRowV>, c: Seq<char>) -> CategoryKeywordsV {
    CategoryKeywordsV { category_id: c, keywords: profile(rows, c) }
}

/// The keyword profile of every category in whose notes some token was found.
pub open spec fn profiles_spec(t: TablesV) -> Seq<CategoryKeywordsV> {
    keep(profiled_categories(t.notes), |c: Seq<char>| has_tokens(t.notes, c)).map_values(
        |c: Seq<char>| profile_of(t.notes, c),
    )
}

/// The lowercased words and the windows of the letters and digits of a text.
fn note_tokens_of(title: &str, content: &str) -> (r: Vec<String>)
    ensures
        views(r@) == distinct({
            let text = lowercase(title@ + " "@ + content@);
            let words = keep(alnum_pieces(text), |w: Seq<char>| w.len() >= 2).map_values(|w: Seq<char>| lowercase(w));
            let compact = keep(text, |c: char| char_alphanumeric(c));
            words + windows_of(compact, 2) + windows_of(compact, 3) + windows_of(compact, 4)
        }),
{
    let mut joined = title.to_owned();
    append(&mut joined, " ");
    append(&mut joined, content);
    let text = to_lowercase(joined.as_str());
    let c = chars_of(text.as_str());
    let ghost tv = text@;
    // Split into pieces.
    let mut done: Vec<String> = Vec::new();
    let mut cur: Vec<char> = Vec::new();
    let mut compact: Vec<char> = Vec::new();
    let ghost alnum = |ch: char| char_alphanumeric(ch);
    let mut i: usize = 0;
    assert(tv.take(0) =~= seq![]);
    assert(views(done@) + seq![cur@] =~= seq![seq![]]);
    while i < c.len()
        invariant
            i <= c.len(),
            c@ == tv,
            alnum == (|ch: char| char_alphanumeric(ch)),
            views(done@) + seq![cur@] == alnum_pieces(tv.take(i as int)),
            compact@ == keep(tv.take(i as int), alnum),
        decreases c.len() - i,
    {
        let ch = c[i];
        proof {
            assert(tv.take(i + 1).drop_last() == tv.take(i as int));
            assert(tv.take(i + 1).last() == ch);
        }
        let ghost before = views(done@) + seq![cur@];
        if is_alphanumeric(ch) {
            cur.push(ch);
            compact.push(ch);
            assert(views(done@) + seq![cur@] =~= before.update(before.len() - 1, before.last().push(ch)));
        } else {
            let piece = string_of(cur.as_slice());
            done.push(piece);
            cur = Vec::new();
            assert(views(done@) + seq![cur@] =~= before.push(seq![]));
        }
        i = i + 1;
    }
    let ghost almost = views(done@);
    done.push(string_of(cur.as_slice()));
    proof {
        assert(tv.take(i as int) == tv);
        assert(views(done@) =~= almost + seq![cur@]);
    }
    let ghost pieces = views(done@);
    // Words of two or more characters, lowercased.
    let mut tokens: Vec<String> = Vec::new();
    let ghost longp = |w: Seq<char>| w.len() >= 2;
    let ghost low = |w: Seq<char>| lowercase(w);
    let mut k: usize = 0;
    while k < done.len()
        invariant
            k <= done.len(),
            pieces == views(done@),
            longp == (|w: Seq<char>| w.len() >= 2),
            low == (|w: Seq<char>| lowercase(w)),
            views(tokens@) == keep(pieces.take(k as int), longp).map_values(low),
        decreases done.len() - k,
    {
        proof {
            assert(pieces.take(k + 1).drop_last() == pieces.take(k as int));
            assert(pieces.take(k + 1).last() == done@[k as int]@);
        }
        let n = done[k].as_str().unicode_len();
        if n >= 2 {
            let ghost before = views(tokens@);
            tokens.push(to_lowercase(done[k].as_str()));
            proof {
                assert(views(tokens@) =~= before.push(lowercase(done@[k as int]@)));
                assert(keep(pieces.take(k + 1), longp) == keep(pieces.take(k as int), longp).push(done@[k as int]@));
                assert(keep(pieces.take(k + 1), longp).map_values(low) =~= keep(pieces.take(k as int), longp).map_values(
                    low,
                ).push(lowercase(done@[k as int]@)));
            }
        } else {
            proof {
                assert(keep(pieces.take(k + 1), longp) == keep(pieces.take(k as int), longp));
            }
        }
        k = k + 1;
    }
    proof {
        assert(pieces.take(k as int) == pieces);
    }
    let ghost words = views(tokens@);
    push_windows(&compact, 2, &mut tokens);
    push_windows(&compact, 3, &mut tokens);
    push_windows(&compact, 4, &mut tokens);
    proof {
        assert(compact@ == keep(tv, alnum));
        assert(views(tokens@) =~= words + windows_of(compact@, 2) + windows_of(compact@, 3) + windows_of(compact@, 4));
    }
    dedup_strings(&tokens)
}

/// Appends the windows of `size` consecutive characters.
fn push_windows(c: &Vec<char>, size: usize, out: &mut Vec<String>)
    requires
        2 <= size <= 4,
    ensures
        views(final(out)@) == views(old(out)@) + windows_of(c@, size as int),
{
    let ghost w = windows_of(c@, size as int);
    let ghost start = views(out@);
    if size > c.len() {
        assert(w =~= seq![]);
        assert(views(out@) =~= start + w);
        return;
    }
    let n = c.len() - size + 1;
    let mut i: usize = 0;
    while i < n
        invariant
            n == c.len() - size + 1,
            2 <= size <= c.len(),
            i <= n,
            w == windows_of(c@, size as int),
            w.len() == n,
            views(out@) == start + w.take(i as int),
        decreases n - i,
    {
        let mut win: Vec<char> = Vec::new();
        let mut j: usize = 0;
        while j < size
            invariant
                i < n,
                n == c.len() - size + 1,
                j <= size,
                win@ == c@.subrange(i as int, i + j),
            decreases size - j,
        {
            win.push(c[i + j]);
            j = j + 1;
            assert(win@ =~= c@.subrange(i as int, i + j));
        }
        let ghost before = views(out@);
        out.push(string_of(win.as_slice()));
        proof {
            assert(w[i as int] == win@);
            assert(views(out@) =~= before.push(win@));
            assert(w.take(i + 1) =~= w.take(i as int).push(w[i as int]));
        }
        i = i + 1;
    }
    proof {
        assert(w.take(n as int) == w);
    }
}

impl Database {
    /// For every category that has notes in use, the twenty tokens that most of its notes
    /// hold.
    pub fn category_keyword_profiles(&self) -> (r: AppResult<Vec<CategoryKeywords>>)
        ensures
            r matches Ok(v) && vw(v@) == profiles_spec(self@),
    {
        let rows = &self.tables.notes;
        let ghost rv = self@.notes;
        // The categories, in order of their first teaching row.
        let ghost tp = |r: NoteRowV| teaching(r);
        let ghost cid = |r: NoteRowV| r.category_id.unwrap();
        let mut cats: Vec<String> = Vec::new();
        let mut i: usize = 0;
        while i < rows.len()
            invariant
                i <= rows.len(),
                rv == self@.notes,
                rv == vw(rows@),
                tp == (|r: NoteRowV| teaching(r)),
                cid == (|r: NoteRowV| r.category_id.unwrap()),
                views(cats@) == distinct(keep(rv.take(i as int), tp).map_values(cid)),
            decreases rows.len() - i,
        {
            let row = &rows[i];
            proof {
                assert(rv.take(i + 1).drop_last() == rv.take(i as int));
                assert(rv.take(i + 1).last() == row@);
            }
            match &row.category_id {
                Some(c) => {
                    if row.deleted_at.is_none() {
                        let ghost prev = keep(rv.take(i as int), tp).map_values(cid);
                        proof {
                            assert(keep(rv.take(i + 1), tp) == keep(rv.take(i as int), tp).push(row@));
                            assert(keep(rv.take(i + 1), tp).map_values(cid) =~= prev.push(c@));
                            assert(prev.push(c@).drop_last() == prev);
                            assert(prev.push(c@).last() == c@);
                        }
                        match position_of(&cats, c.as_str()) {
                            Some(k) => {
                                proof {
                                    assert(views(cats@)[k as int] == c@);
                                    assert(views(cats@).contains(c@));
                                }
                            },
                            None => {
                                let ghost before = views(cats@);
                                cats.push(c.clone());
                                assert(views(cats@) =~= before.push(c@));
                            },
                        }
                    } else {
                        proof {
                            assert(keep(rv.take(i + 1), tp) == keep(rv.take(i as int), tp));
                        }
                    }
                },
                None => {
                    proof {
                        assert(keep(rv.take(i + 1), tp) == keep(rv.take(i as int), tp));
                    }
                },
            }
            i = i + 1;
        }
        proof {
            assert(rv.take(i as int) == rv);
        }
        let mut out: Vec<CategoryKeywords> = Vec::new();
        let mut q: usize = 0;
        while q < cats.len()
            invariant
                q <= cats.len(),
                rv == self@.notes,
                rv == vw(rows@),
                views(cats@) == profiled_categories(rv),
                vw(out@) == keep(views(cats@).take(q as int), |c: Seq<char>| has_tokens(rv, c)).map_values(
                    |c: Seq<char>| profile_of(rv, c),
                ),
            decreases cats.len() - q,
        {
            let c = cats[q].as_str();
            let mut stream: Vec<String> = Vec::new();
            let mut k: usize = 0;
            assert(views(stream@) =~= category_stream(rv.take(0), c@));
            while k < rows.len()
                invariant
                    k <= rows.len(),
                    rv == vw(rows@),
                    views(stream@) == category_stream(rv.take(k as int), c@),
                decreases rows.len() - k,
            {
                let row = &rows[k];
                proof {
                    assert(rv.take(k + 1).drop_last() == rv.take(k as int));
                    assert(rv.take(k + 1).last() == row@);
                }
                let take = match &row.category_id {
                    Some(x) => row.deleted_at.is_none() && str_eq(x.as_str(), c),
                    None => false,
                };
                if take {
                    let toks = note_tokens_of(row.title.as_str(), row.content.as_str());
                    let ghost before = views(stream@);
                    let mut m: usize = 0;
                    while m < toks.len()
                        invariant
                            m <= toks.len(),
                            views(stream@) == before + views(toks@).take(m as int),
                        decreases toks.len() - m,
                    {
                        let ghost b2 = views(stream@);
                        stream.push(toks[m].clone());
                        proof {
                            assert(views(stream@) =~= b2.push(toks@[m as int]@));
                            assert(views(toks@).take(m + 1) =~= views(toks@).take(m as int).push(toks@[m as int]@));
                        }
                        m = m + 1;
                    }
                    proof {
                        assert(views(toks@).take(m as int) == views(toks@));
                        assert(views(toks@) == note_tokens(row@));
                    }
                } else {
                    assert(views(stream@) =~= category_stream(rv.take(k + 1), c@));
                }
                k = k + 1;
            }
            proof {
                assert(rv.take(k as int) == rv);
            }
            let ghost pc = |c: Seq<char>| has_tokens(rv, c);
            let ghost pf = |c: Seq<char>| profile_of(rv, c);
            proof {
                assert(views(cats@).take(q + 1).drop_last() == views(cats@).take(q as int));
                assert(views(cats@).take(q + 1).last() == c@);
            }
            if stream.len() == 0 {
                proof {
                    assert(keep(views(cats@).take(q + 1), pc) == keep(views(cats@).take(q as int), pc));
                }
                q = q + 1;
                continue;
            }
            let ranks = rank_tokens(&stream);
            let sorted = sort_vec(
                ranks,
                (|a: &Ranked, b: &Ranked| -> (x: bool)
                    ensures
                        x == by_count(a@, b@),
                    { a.count > b.count }),
                Ghost(|a: RankedV, b: RankedV| by_count(a, b)),
            );
            let n: usize = if sorted.len() > 20 {
                20
            } else {
                sorted.len()
            };
            let ghost sv = vw(sorted@);
            let mut keywords: Vec<String> = Vec::new();
            let mut j: usize = 0;
            while j < n
                invariant
                    j <= n <= sorted.len(),
                    sv == vw(sorted@),
                    keywords.len() == j,
                    forall|x: int| 0 <= x < j ==> #[trigger] keywords@[x]@ == sv[x].token,
                decreases n - j,
            {
                keywords.push(sorted[j].token.clone());
                j = j + 1;
            }
            proof {
                let s = isort(ranked(category_stream(rv, c@)), |a: RankedV, b: RankedV| by_count(a, b));
                assert(sv == s);
                assert(views(keywords@) =~= (if s.len() > 20 {
                    s.take(20)
                } else {
                    s
                }).map_values(|r: RankedV| r.token));
            }
            let ghost before = vw(out@);
            out.push(CategoryKeywords { category_id: cats[q].clone(), keywords });
            proof {
                assert(keep(views(cats@).take(q + 1), pc) == keep(views(cats@).take(q as int), pc).push(c@));
                assert(vw(out@) =~= before.push(pf(c@)));
                assert(keep(views(cats@).take(q + 1), pc).map_values(pf) =~= keep(views(cats@).take(q as int), pc).map_values(pf).push(pf(c@)));
            }
            q = q + 1;
        }
        proof {
            assert(views(cats@).take(q as int) == views(cats@));
            assert(vw(out@) =~= profiles_spec(self@));
        }
        Ok(out)
    }
}


// ---------------------------------------------------------------------------
// Other titles.
// ---------------------------------------------------------------------------

/// A row, other than the excluded note, that is not in the trash and has a title.
pub open spec fn titled_other(r: NoteRowV, excluded: Seq<char>) -> bool {
    r.id != excluded && r.deleted_at is None && r.title.len() > 0
}

/// The id and title of up to a thousand other titled notes in use.
pub open spec fn other_titles_spec(t: TablesV, excluded: Seq<char>) -> Seq<(Seq<char>, Seq<char>)> {
    let k = keep(t.notes, |r: NoteRowV| titled_other(r, excluded));
    (if k.len() > 1000 {
        k.take(1000)
    } else {
        k
    }).map_values(|r: NoteRowV| (r.id, r.title))
}

impl Database {
    /// The id and title of up to a thousand other notes in use that have a title.
    pub fn other_titles(&self, excluded_id: &str) -> (r: AppResult<Vec<(String, String)>>)
        ensures
            r matches Ok(v) && vw(v@) == other_titles_spec(self@, excluded_id@),
    {
        let rows = &self.tables.notes;
        let ghost rv = self@.notes;
        let ghost p = |r: NoteRowV| titled_other(r, excluded_id@);
        let ghost f = |r: NoteRowV| (r.id, r.title);
        let mut out: Vec<(String, String)> = Vec::new();
        let mut i: usize = 0;
        while i < rows.len()
            invariant
                i <= rows.len(),
                rv == self@.notes,
                rv == vw(rows@),
                p == (|r: NoteRowV| titled_other(r, excluded_id@)),
                f == (|r: NoteRowV| (r.id, r.title)),
                vw(out@) == keep(rv.take(i as int), p).map_values(f),
            decreases rows.len() - i,
        {
            let row = &rows[i];
            proof {
                assert(rv.take(i + 1).drop_last() == rv.take(i as int));
                assert(rv.take(i + 1).last() == row@);
            }
            if !str_eq(row.id.as_str(), excluded_id) && row.deleted_at.is_none() && row.title.as_str().unicode_len() > 0 {
                let ghost before = vw(out@);
                out.push((row.id.clone(), row.title.clone()));
                proof {
                    assert(keep(rv.take(i + 1), p) == keep(rv.take(i as int), p).push(row@));
                    assert(vw(out@) =~= before.push((row@.id, row@.title)));
                    assert(keep(rv.take(i + 1), p).map_values(f) =~= keep(rv.take(i as int), p).map_values(f).push(f(row@)));
                }
            } else {
                proof {
                    assert(keep(rv.take(i + 1), p) == keep(rv.take(i as int), p));
                }
            }
            i = i + 1;
        }
        proof {
            assert(rv.take(i as int) == rv);
        }
        let ghost all = vw(out@);
        out.truncate(1000);
        proof {
            let k = keep(rv, p);
            if all.len() > 1000 {
                assert(vw(out@) =~= all.take(1000));
                assert(k.take(1000).map_values(f) =~= all.take(1000));
            } else {
                assert(vw(out@) =~= all);
            }
        }
        Ok(out)
    }
}

// ---------------------------------------------------------------------------
// Analysing a stored note.
// ---------------------------------------------------------------------------

/// What the store tells the organizer about a note, with the configured archive days.
pub open spec fn context_spec(t: TablesV, id: Seq<char>, archive_days: i64) -> OrganizerContextV {
    OrganizerContextV {
        categories: isort(t.categories, |a: CategoryRowV, b: CategoryRowV| category_order(a, b)).map_values(
            |c: CategoryRowV| category_of_row(c),
        ),
        tags: isort(t.tags, |a: TagRowV, b: TagRowV| tag_order(a, b)).map_values(|g: TagRowV| tag_of_row(g)),
        category_keywords: profiles_spec(t),
        other_titles: other_titles_spec(t, id),
        archive_days,
    }
}

/// An organizer result with nothing in it.
pub open spec fn empty_result() -> OrganizerResultV {
    OrganizerResultV { suggestions: seq![], entities: seq![] }
}

/// The analysis of note `id` with the rules' answer for `today`, `age` and `ids`, stored
/// at `now` with entity ids `eids`.
pub open spec fn analysis_stored(
    t: TablesV,
    id: Seq<char>,
    n: NoteV,
    archive_days: i64,
    today: Date,
    age: Option<i64>,
    ids: Seq<Seq<char>>,
    now: Seq<char>,
    eids: Seq<Seq<char>>,
) -> (TablesV, Result<OrganizerResultV, AppErrorV>) {
    persist_spec(t, id, analyze_spec(n, context_spec(t, id, archive_days), today, age, ids), now, eids)
}

impl Database {
    /// Reads a note, runs the organizer on it (when the settings enable it) against what the
    /// store knows, and stores the result; returns the proposals still pending and the
    /// entities.
    #[verifier::rlimit(50)]
    pub fn analyze_note(&mut self, id: &str) -> (r: AppResult<OrganizerResult>)
        ensures
            match read_note(old(self)@, id@) {
                Err(e) => r matches Err(x) && x@ == e && final(self)@ == old(self)@,
                Ok(n) => match settings_of(old(self)@) {
                    Err(f) => r matches Err(x) && fault_matches(f, x@) && final(self)@ == old(self)@,
                    Ok(s) => if !s.organizer_enabled {
                        r matches Ok(x) && x@ == empty_result() && final(self)@ == old(self)@
                    } else {
                        exists|
                            today: Date,
                            age: Option<i64>,
                            ids: Seq<Seq<char>>,
                            now: Seq<char>,
                            eids: Seq<Seq<char>>,
                        |
                            #![trigger analysis_stored(old(self)@, id@, n, s.archive_days, today, age, ids, now, eids)]
                            valid_date(today) && ids.len() >= 11 && (age is Some <==> rfc3339_parses(n.updated_at))
                                && final(self)@ == analysis_stored(
                                old(self)@,
                                id@,
                                n,
                                s.archive_days,
                                today,
                                age,
                                ids,
                                now,
                                eids,
                            ).0 && match analysis_stored(
                                old(self)@,
                                id@,
                                n,
                                s.archive_days,
                                today,
                                age,
                                ids,
                                now,
                                eids,
                            ).1 {
                                Ok(v) => r matches Ok(x) && x@ == v,
                                Err(e) => r matches Err(x) && x@ == e,
                            }
                    },
                },
            },
    {
        let ghost t0 = self@;
        let note = self.get_note(id)?;
        let settings = self.get_settings()?;
        if !settings.organizer_enabled {
            let out = OrganizerResult { suggestions: Vec::new(), entities: Vec::new() };
            assert(out@ =~= empty_result());
            return Ok(out);
        }
        let categories = self.list_categories()?;
        let tags = self.list_tags()?;
        let category_keywords = self.category_keyword_profiles()?;
        let other_titles = self.other_titles(id)?;
        let context = OrganizerContext {
            categories,
            tags,
            category_keywords,
            other_titles,
            archive_days: settings.archive_days,
        };
        proof {
            assert(context@ =~= context_spec(t0, id@, settings@.archive_days));
        }
        let result = RuleOrganizer.analyze(&note, &context);
        let r = self.persist_organizer_result(id, &result);
        proof {
            let (today, age, ids) = choose|today: Date, age: Option<i64>, ids: Seq<Seq<char>>|
                valid_date(today) && ids.len() >= 11 && (age is Some <==> rfc3339_parses(note@.updated_at)) && result@
                    == analyze_spec(note@, context@, today, age, ids);
            let (now, eids) = choose|now: Seq<char>, eids: Seq<Seq<char>>|
                eids.len() >= result.entities.len() && self@ == persist_spec(t0, id@, result@, now, eids).0 && match persist_spec(
                    t0,
                    id@,
                    result@,
                    now,
                    eids,
                ).1 {
                    Ok(v) => r matches Ok(x) && x@ == v,
                    Err(e) => r matches Err(x) && x@ == e,
                };
            assert(analysis_stored(t0, id@, note@, settings@.archive_days, today, age, ids, now, eids) == persist_spec(
                t0,
                id@,
                result@,
                now,
                eids,
            ));
        }
        r
    }
}

} // verus!
