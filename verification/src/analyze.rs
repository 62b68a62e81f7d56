//! What the rule organizer proposes for a note, given what the store knows.

use vstd::prelude::*;
use crate::dates::{Date, date_text, date_text_spec, days_since, local_today, rfc3339_parses, valid_date};
use crate::json::{append, decimal, decimal_i64};
use crate::models::{Category, CategoryV, Confidence, Note, NoteV, OrganizerResult, OrganizerResultV, Suggestion, SuggestionV, SuggestionValue, SuggestionValueV, Tag, TagV, suggestion_views};
use crate::organizer::{TagCandidateV, date_rule_panics, detect_date_checked, detect_date_spec, detect_entities, entities_spec, pct, similarity_spec, tag_candidates, tag_candidates_spec, title_similarity};
use crate::seqs::{find_first, first_index, keep, lemma_keep_len, vw};
use crate::text::{ascii_lower, contains, contains_spec, eq_ignore_ascii_case, lowercase, str_eq, to_lowercase, trim, trim_spec, views};

verus! {

// ---------------------------------------------------------------------------
// Comparing fractions.
// ---------------------------------------------------------------------------

/// `a/b < c/d` for positive `b` and `d`.
pub open spec fn frac_lt(a: int, b: int, c: int, d: int) -> bool {
    a * d < c * b
}

proof fn lemma_quotients(a: int, b: int, c: int, d: int)
    requires
        a >= 0,
        c >= 0,
        b > 0,
        d > 0,
    ensures
        a / b < c / d ==> a * d < c * b,
        a / b == c / d ==> (a * d < c * b <==> (a % b) * d < (c % d) * b),
{
    let q1 = a / b;
    let r1 = a % b;
    let q2 = c / d;
    let r2 = c % d;
    vstd::arithmetic::div_mod::lemma_fundamental_div_mod(a, b);
    vstd::arithmetic::div_mod::lemma_fundamental_div_mod(c, d);
    vstd::arithmetic::div_mod::lemma_mod_pos_bound(a, b);
    vstd::arithmetic::div_mod::lemma_mod_pos_bound(c, d);
    assert(a * d == b * d * q1 + r1 * d) by (nonlinear_arith)
        requires
            a == b * q1 + r1,
    ;
    assert(c * b == b * d * q2 + r2 * b) by (nonlinear_arith)
        requires
            c == d * q2 + r2,
    ;
    if q1 < q2 {
        assert(r1 * d < b * d) by (nonlinear_arith)
            requires
                r1 < b,
                d > 0,
        ;
        assert(b * d * q1 + b * d <= b * d * q2) by (nonlinear_arith)
            requires
                q1 + 1 <= q2,
                b > 0,
                d > 0,
        ;
        assert(r2 * b >= 0) by (nonlinear_arith)
            requires
                r2 >= 0,
                b > 0,
        ;
    }
}

/// Whether `a/b < c/d`, computed without multiplying (so without overflow).
pub fn frac_less(a: u128, b: u128, c: u128, d: u128) -> (r: bool)
    requires
        b > 0,
        d > 0,
    ensures
        r == frac_lt(a as int, b as int, c as int, d as int),
    decreases b + d,
{
    proof {
        lemma_quotients(a as int, b as int, c as int, d as int);
        lemma_quotients(c as int, d as int, a as int, b as int);
    }
    let q1 = a / b;
    let q2 = c / d;
    if q1 < q2 {
        return true;
    }
    if q2 < q1 {
        return false;
    }
    let r1 = a % b;
    let r2 = c % d;
    if r2 == 0 {
        assert((r1 as int) * (d as int) >= 0) by (nonlinear_arith)
            requires
                r1 >= 0,
                d > 0,
        ;
        return false;
    }
    assert(r1 as int == (a as int) % (b as int));
    assert(r2 as int == (c as int) % (d as int));
    if r1 == 0 {
        assert((r2 as int) * (b as int) > 0) by (nonlinear_arith)
            requires
                r2 > 0,
                b > 0,
        ;
        assert((r1 as int) * (d as int) == 0) by (nonlinear_arith)
            requires
                r1 == 0,
        ;
        return true;
    }
    let x = frac_less(d, r2, b, r1);
    assert((r1 as int) * (d as int) == (d as int) * (r1 as int) && (r2 as int) * (b as int) == (b as int) * (
    r2 as int)) by (nonlinear_arith);
    x
}

/// `a/b <= c/d <= e/f` gives `a/b <= e/f`.
proof fn lemma_frac_le_trans(a: int, b: int, c: int, d: int, e: int, f: int)
    requires
        b > 0,
        d > 0,
        f > 0,
        !frac_lt(c, d, a, b),
        !frac_lt(e, f, c, d),
    ensures
        !frac_lt(e, f, a, b),
{
    assert(a * d <= c * b);
    assert(c * f <= e * d);
    assert(a * d * f <= c * b * f) by (nonlinear_arith)
        requires
            a * d <= c * b,
            f > 0,
    ;
    assert(c * f * b <= e * d * b) by (nonlinear_arith)
        requires
            c * f <= e * d,
            b > 0,
    ;
    assert(a * f * d <= e * b * d) by (nonlinear_arith)
        requires
            a * d * f <= c * b * f,
            c * f * b <= e * d * b,
    ;
    assert(a * f <= e * b) by (nonlinear_arith)
        requires
            a * f * d <= e * b * d,
            d > 0,
    ;
}

// ---------------------------------------------------------------------------
// What the organizer is told.
// ---------------------------------------------------------------------------

/// The keywords learned for one category.
pub struct CategoryKeywords {
    pub category_id: String,
    pub keywords: Vec<String>,
}

pub struct CategoryKeywordsV {
    pub category_id: Seq<char>,
    pub keywords: Seq<Seq<char>>,
}

impl View for CategoryKeywords {
    type V = CategoryKeywordsV;

    open spec fn view(&self) -> CategoryKeywordsV {
        CategoryKeywordsV { category_id: self.category_id@, keywords: views(self.keywords@) }
    }
}

/// What the store knows that the organizer weighs a note against.
pub struct OrganizerContext {
    pub categories: Vec<Category>,
    pub tags: Vec<Tag>,
    /// The keywords of each category, one entry per category id.
    pub category_keywords: Vec<CategoryKeywords>,
    /// The id and title of the other notes.
    pub other_titles: Vec<(String, String)>,
    pub archive_days: i64,
}

#[verifier::ext_equal]
pub struct OrganizerContextV {
    pub categories: Seq<CategoryV>,
    pub tags: Seq<TagV>,
    pub category_keywords: Seq<CategoryKeywordsV>,
    pub other_titles: Seq<(Seq<char>, Seq<char>)>,
    pub archive_days: i64,
}

impl View for OrganizerContext {
    type V = OrganizerContextV;

    open spec fn view(&self) -> OrganizerContextV {
        OrganizerContextV {
            categories: vw(self.categories@),
            tags: vw(self.tags@),
            category_keywords: vw(self.category_keywords@),
            other_titles: vw(self.other_titles@),
            archive_days: self.archive_days,
        }
    }
}

impl Default for OrganizerContext {
    fn default() -> (r: Self)
        ensures
            r@ == (OrganizerContextV {
                categories: seq![],
                tags: seq![],
                category_keywords: seq![],
                other_titles: seq![],
                archive_days: 0,
            }),
    {
        let r = OrganizerContext {
            categories: Vec::new(),
            tags: Vec::new(),
            category_keywords: Vec::new(),
            other_titles: Vec::new(),
            archive_days: 0,
        };
        assert(r@ =~= OrganizerContextV {
            categories: seq![],
            tags: seq![],
            category_keywords: seq![],
            other_titles: seq![],
            archive_days: 0,
        });
        r
    }
}

// ---------------------------------------------------------------------------
// The category rule.
// ---------------------------------------------------------------------------

/// The keywords of a category: those of the first entry with its id, or none.
pub open spec fn keywords_for(k: Seq<CategoryKeywordsV>, id: Seq<char>) -> Seq<Seq<char>> {
    let i = first_index(k, |e: CategoryKeywordsV| e.category_id == id);
    if i < 0 {
        seq![]
    } else {
        k[i].keywords
    }
}

/// How many of a category's keywords the lowercased text holds (each keyword lowercased).
pub open spec fn category_score(ctx: OrganizerContextV, c: CategoryV, lower: Seq<char>) -> nat {
    keep(keywords_for(ctx.category_keywords, c.id), |k: Seq<char>| contains_spec(lower, lowercase(k))).len()
}

pub open spec fn category_scores(ctx: OrganizerContextV, lower: Seq<char>) -> Seq<nat> {
    ctx.categories.map_values(|c: CategoryV| category_score(ctx, c, lower))
}

/// Category `i` scores at least two and strictly more than every other category.
pub open spec fn is_top(s: Seq<nat>, i: int) -> bool {
    &&& 0 <= i < s.len()
    &&& s[i] >= 2
    &&& forall|j: int| 0 <= j < s.len() && j != i ==> #[trigger] s[j] < s[i]
}

/// The category to propose, if one stands out.
pub open spec fn top_category(s: Seq<nat>) -> Option<int> {
    if exists|i: int| is_top(s, i) {
        Some(choose|i: int| is_top(s, i))
    } else {
        None
    }
}

/// The confidence of a category proposal: 62% plus 6% per keyword, at most 88%.
pub open spec fn category_confidence(score: nat) -> Confidence {
    if score <= 4 {
        pct((62 + 6 * score) as u64)
    } else {
        pct(88)
    }
}

fn keywords_of<'a>(ctx: &'a OrganizerContext, id: &str) -> (r: Option<&'a Vec<String>>)
    ensures
        match r {
            Some(k) => views(k@) == keywords_for(ctx@.category_keywords, id@),
            None => keywords_for(ctx@.category_keywords, id@) == Seq::<Seq<char>>::empty(),
        },
{
    let found = find_first(
        &ctx.category_keywords,
        (|e: &CategoryKeywords| -> (b: bool)
            ensures
                b == (e@.category_id == id@),
            { str_eq(e.category_id.as_str(), id) }),
        Ghost(|e: CategoryKeywordsV| e.category_id == id@),
    );
    match found {
        Some(i) => Some(&ctx.category_keywords[i].keywords),
        None => None,
    }
}

fn score_of(ctx: &OrganizerContext, c: &Category, lower: &str) -> (r: usize)
    ensures
        r == category_score(ctx@, c@, lower@),
{
    match keywords_of(ctx, c.id.as_str()) {
        None => 0,
        Some(kws) => {
            let ghost kv = views(kws@);
            let ghost p = |k: Seq<char>| contains_spec(lower@, lowercase(k));
            let mut n: usize = 0;
            let mut i: usize = 0;
            while i < kws.len()
                invariant
                    i <= kws.len(),
                    kv == views(kws@),
                    p == (|k: Seq<char>| contains_spec(lower@, lowercase(k))),
                    n == keep(kv.take(i as int), p).len(),
                    n <= i,
                decreases kws.len() - i,
            {
                proof {
                    assert(kv.take(i + 1).drop_last() == kv.take(i as int));
                    assert(kv.take(i + 1).last() == kws@[i as int]@);
                }
                let k = to_lowercase(kws[i].as_str());
                if contains(lower, k.as_str()) {
                    n = n + 1;
                }
                i = i + 1;
            }
            proof {
                assert(kv.take(i as int) == kv);
            }
            n
        },
    }
}

/// The index of the category that stands out, if one does.
fn top_category_of(scores: &Vec<usize>) -> (r: Option<usize>)
    ensures
        match top_category(scores@.map_values(|x: usize| x as nat)) {
            Some(i) => r == Some(i as usize),
            None => r is None,
        },
{
    let ghost s = scores@.map_values(|x: usize| x as nat);
    if scores.len() == 0 {
        return None;
    }
    let mut best: usize = 0;
    let mut i: usize = 1;
    while i < scores.len()
        invariant
            1 <= i <= scores.len(),
            best < i,
            forall|j: int| 0 <= j < i ==> scores@[j] <= scores@[best as int],
            forall|j: int| 0 <= j < best ==> scores@[j] < scores@[best as int],
        decreases scores.len() - i,
    {
        if scores[i] > scores[best] {
            best = i;
        }
        i = i + 1;
    }
    let mut ties: usize = 0;
    let mut k: usize = 0;
    while k < scores.len()
        invariant
            k <= scores.len(),
            best < scores.len(),
            ties <= k,
            ties == 0 <==> forall|j: int| 0 <= j < k && j != best ==> scores@[j] < scores@[best as int],
            forall|j: int| 0 <= j < scores.len() ==> scores@[j] <= scores@[best as int],
        decreases scores.len() - k,
    {
        if k != best && scores[k] == scores[best] {
            ties = ties + 1;
        }
        k = k + 1;
    }
    if scores[best] >= 2 && ties == 0 {
        proof {
            assert(is_top(s, best as int));
            let c = choose|c: int| is_top(s, c);
            if c != best {
                assert(s[c] < s[best as int]);
                assert(s[best as int] < s[c]);
            }
        }
        Some(best)
    } else {
        proof {
            if exists|c: int| is_top(s, c) {
                let c = choose|c: int| is_top(s, c);
                if c != best {
                    assert(s[best as int] < s[c]);
                } else {
                    assert forall|j: int| 0 <= j < scores.len() && j != best implies scores@[j] < scores@[best as int] by {
                        assert(s[j] < s[c]);
                    }
                }
            }
        }
        None
    }
}

// ---------------------------------------------------------------------------
// The similar-title rule.
// ---------------------------------------------------------------------------

/// A similarity of at least 72%.
pub open spec fn similar_enough(c: Confidence) -> bool {
    !frac_lt(c.numerator as int, c.denominator as int, 72, 100)
}

/// `c` is at least `d`.
pub open spec fn at_least(c: Confidence, d: Confidence) -> bool {
    !frac_lt(c.numerator as int, c.denominator as int, d.numerator as int, d.denominator as int)
}

pub open spec fn similarities(title: Seq<char>, others: Seq<(Seq<char>, Seq<char>)>) -> Seq<Confidence> {
    others.map_values(|p: (Seq<char>, Seq<char>)| similarity_spec(title, p.1))
}

/// Entry `i` is similar enough, at least as similar as every similar-enough entry, and
/// more similar than every similar-enough entry after it (the last of the most similar).
pub open spec fn is_most_similar(s: Seq<Confidence>, i: int) -> bool {
    &&& 0 <= i < s.len()
    &&& similar_enough(s[i])
    &&& forall|j: int| 0 <= j < s.len() && similar_enough(#[trigger] s[j]) ==> at_least(s[i], s[j])
    &&& forall|j: int| i < j < s.len() && similar_enough(#[trigger] s[j]) ==> !at_least(s[j], s[i])
}

pub open spec fn most_similar(s: Seq<Confidence>) -> Option<int> {
    if exists|i: int| is_most_similar(s, i) {
        Some(choose|i: int| is_most_similar(s, i))
    } else {
        None
    }
}


fn most_similar_of(title: &str, others: &Vec<(String, String)>) -> (r: Option<(usize, Confidence)>)
    ensures
        match most_similar(similarities(title@, vw(others@))) {
            Some(i) => r matches Some(x) && x.0 == i && x.1 == similarity_spec(title@, others@[i].1@),
            None => r is None,
        },
{
    let ghost s = similarities(title@, vw(others@));
    let mut best: Option<(usize, Confidence)> = None;
    let mut i: usize = 0;
    while i < others.len()
        invariant
            i <= others.len(),
            s == similarities(title@, vw(others@)),
            s.len() == others.len(),
            forall|j: int| 0 <= j < i ==> (#[trigger] s[j]).denominator >= 1,
            match best {
                None => forall|j: int| 0 <= j < i ==> !similar_enough(#[trigger] s[j]),
                Some(b) => {
                    &&& b.0 < i
                    &&& b.1 == s[b.0 as int]
                    &&& similar_enough(s[b.0 as int])
                    &&& forall|j: int| 0 <= j < i && similar_enough(#[trigger] s[j]) ==> at_least(s[b.0 as int], s[j])
                    &&& forall|j: int| b.0 < j < i && similar_enough(#[trigger] s[j]) ==> !at_least(s[j], s[b.0 as int])
                },
            },
        decreases others.len() - i,
    {
        let sim = title_similarity(title, others[i].1.as_str());
        proof {
            assert(s[i as int] == sim);
        }
        if !frac_less(sim.numerator, sim.denominator, 72, 100) {
            let take = match &best {
                None => true,
                Some(b) => !frac_less(sim.numerator, sim.denominator, b.1.numerator, b.1.denominator),
            };
            if take {
                proof {
                    match best {
                        None => {},
                        Some(b) => {
                            assert forall|j: int| 0 <= j < i + 1 && similar_enough(#[trigger] s[j]) implies at_least(
                                sim,
                                s[j],
                            ) by {
                                if j < i {
                                    lemma_frac_le_trans(
                                        s[j].numerator as int,
                                        s[j].denominator as int,
                                        b.1.numerator as int,
                                        b.1.denominator as int,
                                        sim.numerator as int,
                                        sim.denominator as int,
                                    );
                                }
                            }
                        },
                    }
                }
                best = Some((i, sim));
            }
        }
        i = i + 1;
    }
    proof {
        match best {
            None => {
                if exists|c: int| is_most_similar(s, c) {
                    let c = choose|c: int| is_most_similar(s, c);
                    assert(similar_enough(s[c]));
                }
            },
            Some(b) => {
                assert(is_most_similar(s, b.0 as int));
                let c = choose|c: int| is_most_similar(s, c);
                if c < b.0 {
                    assert(!at_least(s[b.0 as int], s[c]));
                } else if c > b.0 {
                    assert(!at_least(s[c], s[b.0 as int]));
                }
            },
        }
    }
    best
}

// ---------------------------------------------------------------------------
// The proposals.
// ---------------------------------------------------------------------------

/// The text the rules read: the title, a newline, the content.
pub open spec fn note_text(n: NoteV) -> Seq<char> {
    n.title + "\n"@ + n.content
}

/// A proposal before it is given an id.
pub open spec fn draft(
    kind: Seq<char>,
    label: Seq<char>,
    value: SuggestionValueV,
    c: Confidence,
    rule: Seq<char>,
) -> SuggestionV {
    SuggestionV { id: seq![], kind, label, value, confidence: c, rule_id: rule }
}

/// Words that mark a task.
pub open spec fn task_words() -> Seq<Seq<char>> {
    seq!["待办"@, "需要"@, "记得"@, "提醒"@, "安排"@, "跟进"@, "提交"@, "处理"@]
}

/// Words that mark a task as done.
pub open spec fn done_words() -> Seq<Seq<char>> {
    seq!["已完成"@, "已处理"@, "搞定"@, "完成了"@]
}

pub open spec fn mentions(text: Seq<char>, words: Seq<Seq<char>>) -> bool {
    exists|k: int| 0 <= k < words.len() && contains_spec(text, #[trigger] words[k])
}

/// A due date, when the note has none and the text names one; none where a date rule would
/// shift today out of chrono's range.
pub open spec fn due_part(n: NoteV, today: Date) -> Seq<SuggestionV> {
    if n.due_date is None && !date_rule_panics(note_text(n), today) {
        match detect_date_spec(note_text(n), today) {
            Some(f) => seq![
                draft(
                    "due_date"@,
                    "根据“"@ + f.1 + "”设置截止日期为 "@ + date_text_spec(f.0),
                    SuggestionValueV::DueDate { due_date: date_text_spec(f.0) },
                    f.2,
                    "date-keyword-v1"@,
                ),
            ],
            None => seq![],
        }
    } else {
        seq![]
    }
}

/// A todo, when the note is not one and its text names a task.
pub open spec fn todo_part(n: NoteV) -> Seq<SuggestionV> {
    if !n.is_todo && mentions(note_text(n), task_words()) {
        seq![draft("todo"@, "这条内容可能是一项待办"@, SuggestionValueV::Todo, pct(82), "todo-keyword-v1"@)]
    } else {
        seq![]
    }
}

/// Completion, when the note is a task (marked, or named in its text) and its text says done.
pub open spec fn done_part(n: NoteV) -> Seq<SuggestionV> {
    if (n.is_todo || mentions(note_text(n), task_words())) && mentions(note_text(n), done_words()) {
        seq![
            draft(
                "todo_status"@,
                "内容可能表示事项已完成"@,
                SuggestionValueV::TodoCompleted,
                pct(86),
                "todo-complete-v1"@,
            ),
        ]
    } else {
        seq![]
    }
}

/// The note already carries a tag of this name, ignoring ASCII case.
pub open spec fn already_tagged(n: NoteV, name: Seq<char>) -> bool {
    exists|i: int| 0 <= i < n.tags.len() && ascii_lower(#[trigger] n.tags[i].name) == ascii_lower(name)
}

/// The tag proposals for tags the note does not carry yet.
pub open spec fn tag_part(n: NoteV, ctx: OrganizerContextV) -> Seq<SuggestionV> {
    keep(tag_candidates_spec(note_text(n), ctx.tags), |c: TagCandidateV| !already_tagged(n, c.name)).map_values(
        |c: TagCandidateV|
            draft(
                "tag"@,
                "推荐标签："@ + c.name,
                SuggestionValueV::TagName { tag_name: c.name },
                c.confidence,
                "tag-frequency-v1"@,
            ),
    )
}

/// A category, when the note has none and one category's keywords stand out.
pub open spec fn category_part(n: NoteV, ctx: OrganizerContextV) -> Seq<SuggestionV> {
    let scores = category_scores(ctx, lowercase(note_text(n)));
    if n.category_id is None && top_category(scores) is Some {
        let i = top_category(scores).unwrap();
        let c = ctx.categories[i];
        seq![
            draft(
                "category"@,
                "推荐分类："@ + c.name,
                SuggestionValueV::Category { category_id: c.id, category_name: c.name },
                category_confidence(scores[i]),
                "category-profile-v1"@,
            ),
        ]
    } else {
        seq![]
    }
}

/// A warning about the most similar other title, when the note has a title.
pub open spec fn similar_part(n: NoteV, ctx: OrganizerContextV) -> Seq<SuggestionV> {
    let s = similarities(n.title, ctx.other_titles);
    if trim_spec(n.title).len() > 0 && most_similar(s) is Some {
        let o = ctx.other_titles[most_similar(s).unwrap()];
        seq![
            draft(
                "similar_title"@,
                "标题与“"@ + o.1 + "”较为相似"@,
                SuggestionValueV::SimilarTitle { note_id: o.0, title: o.1 },
                similarity_spec(n.title, o.1),
                "similar-title-v1"@,
            ),
        ]
    } else {
        seq![]
    }
}

/// The archive threshold in days: the configured one, at least one.
pub open spec fn archive_threshold(ctx: OrganizerContextV) -> i64 {
    if ctx.archive_days >= 1 {
        ctx.archive_days
    } else {
        1
    }
}

/// Archiving, when a note that is no favorite, no open task and not archived has gone
/// unchanged for the threshold (`age` is how many days ago it changed, when known).
pub open spec fn archive_part(n: NoteV, ctx: OrganizerContextV, age: Option<i64>) -> Seq<SuggestionV> {
    let days = archive_threshold(ctx);
    if !n.is_favorite && (!n.is_todo || n.todo_status == "completed"@) && n.archived_at is None && age is Some
        && age.unwrap() >= days {
        seq![
            draft(
                "archive"@,
                "超过 "@ + decimal(days as int) + " 天未修改，建议归档"@,
                SuggestionValueV::Archive,
                pct(78),
                "archive-age-v1"@,
            ),
        ]
    } else {
        seq![]
    }
}

/// Every proposal, in the order the rules run.
pub open spec fn drafts(n: NoteV, ctx: OrganizerContextV, today: Date, age: Option<i64>) -> Seq<SuggestionV> {
    due_part(n, today) + todo_part(n) + done_part(n) + tag_part(n, ctx) + category_part(n, ctx) + similar_part(n, ctx)
        + archive_part(n, ctx, age)
}

/// The proposals with the given ids, in order.
pub open spec fn with_ids(ds: Seq<SuggestionV>, ids: Seq<Seq<char>>) -> Seq<SuggestionV> {
    Seq::new(
        ds.len(),
        |k: int|
            SuggestionV {
                id: ids[k],
                kind: ds[k].kind,
                label: ds[k].label,
                value: ds[k].value,
                confidence: ds[k].confidence,
                rule_id: ds[k].rule_id,
            },
    )
}

/// What the organizer returns for a note: its proposals, numbered with `ids`, and the
/// entities of its text.
pub open spec fn analyze_spec(
    n: NoteV,
    ctx: OrganizerContextV,
    today: Date,
    age: Option<i64>,
    ids: Seq<Seq<char>>,
) -> OrganizerResultV {
    OrganizerResultV { suggestions: with_ids(drafts(n, ctx, today, age), ids), entities: entities_spec(note_text(n)) }
}

/// The most proposals the rules make.
pub proof fn lemma_drafts_len(n: NoteV, ctx: OrganizerContextV, today: Date, age: Option<i64>)
    ensures
        drafts(n, ctx, today, age).len() <= 11,
{
    let t = tag_candidates_spec(note_text(n), ctx.tags);
    lemma_keep_len(t, |c: TagCandidateV| !already_tagged(n, c.name));
}

fn task_word(k: usize) -> (r: &'static str)
    requires
        k < 8,
    ensures
        r@ == task_words()[k as int],
{
    match k {
        0 => "待办",
        1 => "需要",
        2 => "记得",
        3 => "提醒",
        4 => "安排",
        5 => "跟进",
        6 => "提交",
        _ => "处理",
    }
}

fn done_word(k: usize) -> (r: &'static str)
    requires
        k < 4,
    ensures
        r@ == done_words()[k as int],
{
    match k {
        0 => "已完成",
        1 => "已处理",
        2 => "搞定",
        _ => "完成了",
    }
}

fn mentions_task(text: &str) -> (r: bool)
    ensures
        r == mentions(text@, task_words()),
{
    let mut k: usize = 0;
    while k < 8
        invariant
            k <= 8,
            task_words().len() == 8,
            forall|j: int| 0 <= j < k ==> !contains_spec(text@, #[trigger] task_words()[j]),
        decreases 8 - k,
    {
        if contains(text, task_word(k)) {
            return true;
        }
        k = k + 1;
    }
    false
}

fn mentions_done(text: &str) -> (r: bool)
    ensures
        r == mentions(text@, done_words()),
{
    let mut k: usize = 0;
    while k < 4
        invariant
            k <= 4,
            done_words().len() == 4,
            forall|j: int| 0 <= j < k ==> !contains_spec(text@, #[trigger] done_words()[j]),
        decreases 4 - k,
    {
        if contains(text, done_word(k)) {
            return true;
        }
        k = k + 1;
    }
    false
}

fn concat3(a: &str, b: &str, c: &str) -> (r: String)
    ensures
        r@ == a@ + b@ + c@,
{
    let mut s = a.to_owned();
    append(&mut s, b);
    append(&mut s, c);
    s
}

fn proposal(kind: &str, label: String, value: SuggestionValue, c: Confidence, rule: &str) -> (r: Suggestion)
    ensures
        r@ == draft(kind@, label@, value@, c, rule@),
{
    Suggestion { id: String::new(), kind: kind.to_owned(), label, value, confidence: c, rule_id: rule.to_owned() }
}

fn due_of(n: &Note, text: &str, today: Date) -> (r: Vec<Suggestion>)
    requires
        valid_date(today),
        text@ == note_text(n@),
    ensures
        suggestion_views(r@) == due_part(n@, today),
{
    let mut v: Vec<Suggestion> = Vec::new();
    if n.due_date.is_none() {
        if let Some(Some(f)) = detect_date_checked(text, today) {
            let day = date_text(f.0);
            let mut label = concat3("根据“", f.1.as_str(), "”设置截止日期为 ");
            append(&mut label, day.as_str());
            v.push(
                proposal(
                    "due_date",
                    label,
                    SuggestionValue::DueDate { due_date: day },
                    f.2,
                    "date-keyword-v1",
                ),
            );
        }
    }
    assert(suggestion_views(v@) =~= due_part(n@, today));
    v
}

fn flags_of(n: &Note, text: &str) -> (r: Vec<Suggestion>)
    requires
        text@ == note_text(n@),
    ensures
        suggestion_views(r@) == todo_part(n@) + done_part(n@),
{
    let mut v: Vec<Suggestion> = Vec::new();
    let task = mentions_task(text);
    if !n.is_todo && task {
        v.push(
            proposal(
                "todo",
                "这条内容可能是一项待办".to_owned(),
                SuggestionValue::Todo,
                Confidence { numerator: 82, denominator: 100 },
                "todo-keyword-v1",
            ),
        );
    }
    if (n.is_todo || task) && mentions_done(text) {
        v.push(
            proposal(
                "todo_status",
                "内容可能表示事项已完成".to_owned(),
                SuggestionValue::TodoCompleted,
                Confidence { numerator: 86, denominator: 100 },
                "todo-complete-v1",
            ),
        );
    }
    assert(suggestion_views(v@) =~= todo_part(n@) + done_part(n@));
    v
}

fn is_tagged(n: &Note, name: &str) -> (r: bool)
    ensures
        r == already_tagged(n@, name@),
{
    let mut i: usize = 0;
    while i < n.tags.len()
        invariant
            i <= n.tags.len(),
            forall|j: int| 0 <= j < i ==> ascii_lower(#[trigger] n@.tags[j].name) != ascii_lower(name@),
        decreases n.tags.len() - i,
    {
        if eq_ignore_ascii_case(n.tags[i].name.as_str(), name) {
            assert(n@.tags[i as int].name == n.tags@[i as int].name@);
            return true;
        }
        i = i + 1;
    }
    false
}

fn tags_of(n: &Note, ctx: &OrganizerContext, text: &str) -> (r: Vec<Suggestion>)
    requires
        text@ == note_text(n@),
    ensures
        suggestion_views(r@) == tag_part(n@, ctx@),
{
    let cands = tag_candidates(text, &ctx.tags);
    let ghost cv = vw(cands@);
    let ghost p = |c: TagCandidateV| !already_tagged(n@, c.name);
    let ghost f = |c: TagCandidateV|
        draft(
            "tag"@,
            "推荐标签："@ + c.name,
            SuggestionValueV::TagName { tag_name: c.name },
            c.confidence,
            "tag-frequency-v1"@,
        );
    let mut v: Vec<Suggestion> = Vec::new();
    let mut i: usize = 0;
    while i < cands.len()
        invariant
            i <= cands.len(),
            cv == vw(cands@),
            p == (|c: TagCandidateV| !already_tagged(n@, c.name)),
            f == (|c: TagCandidateV|
                draft(
                    "tag"@,
                    "推荐标签："@ + c.name,
                    SuggestionValueV::TagName { tag_name: c.name },
                    c.confidence,
                    "tag-frequency-v1"@,
                )),
            suggestion_views(v@) == keep(cv.take(i as int), p).map_values(f),
        decreases cands.len() - i,
    {
        let c = &cands[i];
        proof {
            assert(cv.take(i + 1).drop_last() == cv.take(i as int));
            assert(cv.take(i + 1).last() == c@);
        }
        let ghost before = suggestion_views(v@);
        if !is_tagged(n, c.name.as_str()) {
            let mut label = "推荐标签：".to_owned();
            append(&mut label, c.name.as_str());
            v.push(
                proposal(
                    "tag",
                    label,
                    SuggestionValue::TagName { tag_name: c.name.clone() },
                    c.confidence,
                    "tag-frequency-v1",
                ),
            );
            proof {
                assert(suggestion_views(v@) =~= before.push(f(c@)));
                assert(keep(cv.take(i + 1), p) == keep(cv.take(i as int), p).push(c@));
                assert(keep(cv.take(i + 1), p).map_values(f) =~= keep(cv.take(i as int), p).map_values(f).push(f(c@)));
            }
        } else {
            proof {
                assert(keep(cv.take(i + 1), p) == keep(cv.take(i as int), p));
            }
        }
        i = i + 1;
    }
    proof {
        assert(cv.take(i as int) == cv);
    }
    v
}

fn category_of(n: &Note, ctx: &OrganizerContext, text: &str) -> (r: Vec<Suggestion>)
    requires
        text@ == note_text(n@),
    ensures
        suggestion_views(r@) == category_part(n@, ctx@),
{
    let mut v: Vec<Suggestion> = Vec::new();
    if n.category_id.is_some() {
        assert(suggestion_views(v@) =~= category_part(n@, ctx@));
        return v;
    }
    let lower = to_lowercase(text);
    let ghost sc = category_scores(ctx@, lower@);
    let mut scores: Vec<usize> = Vec::new();
    let mut i: usize = 0;
    while i < ctx.categories.len()
        invariant
            i <= ctx.categories.len(),
            sc == category_scores(ctx@, lower@),
            scores.len() == i,
            forall|j: int| 0 <= j < i ==> scores@[j] as nat == #[trigger] sc[j],
        decreases ctx.categories.len() - i,
    {
        let s = score_of(ctx, &ctx.categories[i], lower.as_str());
        scores.push(s);
        i = i + 1;
    }
    assert(scores@.map_values(|x: usize| x as nat) =~= sc);
    match top_category_of(&scores) {
        Some(k) => {
            let c = &ctx.categories[k];
            let score = scores[k];
            let conf = if score <= 4 {
                Confidence { numerator: (62 + 6 * score) as u128, denominator: 100 }
            } else {
                Confidence { numerator: 88, denominator: 100 }
            };
            let mut label = "推荐分类：".to_owned();
            append(&mut label, c.name.as_str());
            v.push(
                proposal(
                    "category",
                    label,
                    SuggestionValue::Category { category_id: c.id.clone(), category_name: c.name.clone() },
                    conf,
                    "category-profile-v1",
                ),
            );
        },
        None => {},
    }
    assert(suggestion_views(v@) =~= category_part(n@, ctx@));
    v
}

fn similar_of(n: &Note, ctx: &OrganizerContext) -> (r: Vec<Suggestion>)
    ensures
        suggestion_views(r@) == similar_part(n@, ctx@),
{
    let mut v: Vec<Suggestion> = Vec::new();
    let t = trim(n.title.as_str());
    if !t.as_str().is_empty() {
        if let Some(best) = most_similar_of(n.title.as_str(), &ctx.other_titles) {
            let o = &ctx.other_titles[best.0];
            let label = concat3("标题与“", o.1.as_str(), "”较为相似");
            v.push(
                proposal(
                    "similar_title",
                    label,
                    SuggestionValue::SimilarTitle { note_id: o.0.clone(), title: o.1.clone() },
                    best.1,
                    "similar-title-v1",
                ),
            );
        }
    }
    assert(suggestion_views(v@) =~= similar_part(n@, ctx@));
    v
}

fn archive_of(n: &Note, ctx: &OrganizerContext, age: Option<i64>) -> (r: Vec<Suggestion>)
    ensures
        suggestion_views(r@) == archive_part(n@, ctx@, age),
{
    let mut v: Vec<Suggestion> = Vec::new();
    let days: i64 = if ctx.archive_days >= 1 {
        ctx.archive_days
    } else {
        1
    };
    let open_task = n.is_todo && !str_eq(n.todo_status.as_str(), "completed");
    if !n.is_favorite && !open_task && n.archived_at.is_none() {
        if let Some(a) = age {
            if a >= days {
                let d = decimal_i64(days);
                let label = concat3("超过 ", d.as_str(), " 天未修改，建议归档");
                v.push(
                    proposal(
                        "archive",
                        label,
                        SuggestionValue::Archive,
                        Confidence { numerator: 78, denominator: 100 },
                        "archive-age-v1",
                    ),
                );
            }
        }
    }
    assert(suggestion_views(v@) =~= archive_part(n@, ctx@, age));
    v
}

/// The rule organizer. It holds nothing: every rule reads the note and the context.
#[derive(Default)]
pub struct RuleOrganizer;

impl RuleOrganizer {
    /// Runs every rule on a note, on the given date, with the note's age in days (when its
    /// `updated_at` parses), numbering the proposals with `ids`.
    pub fn analyze_at(
        &self,
        note: &Note,
        context: &OrganizerContext,
        today: Date,
        age: Option<i64>,
        ids: &Vec<String>,
    ) -> (r: OrganizerResult)
        requires
            valid_date(today),
            ids.len() >= 11,
        ensures
            r@ == analyze_spec(note@, context@, today, age, views(ids@)),
    {
        let text = concat3(note.title.as_str(), "\n", note.content.as_str());
        let mut all = due_of(note, text.as_str(), today);
        let mut part = flags_of(note, text.as_str());
        let ghost a0 = suggestion_views(all@);
        let ghost p0 = suggestion_views(part@);
        all.append(&mut part);
        assert(suggestion_views(all@) =~= a0 + p0);
        let mut part = tags_of(note, context, text.as_str());
        let ghost a1 = suggestion_views(all@);
        let ghost p1 = suggestion_views(part@);
        all.append(&mut part);
        assert(suggestion_views(all@) =~= a1 + p1);
        let mut part = category_of(note, context, text.as_str());
        let ghost a2 = suggestion_views(all@);
        let ghost p2 = suggestion_views(part@);
        all.append(&mut part);
        assert(suggestion_views(all@) =~= a2 + p2);
        let mut part = similar_of(note, context);
        let ghost a3 = suggestion_views(all@);
        let ghost p3 = suggestion_views(part@);
        all.append(&mut part);
        assert(suggestion_views(all@) =~= a3 + p3);
        let mut part = archive_of(note, context, age);
        let ghost a4 = suggestion_views(all@);
        let ghost p4 = suggestion_views(part@);
        all.append(&mut part);
        assert(suggestion_views(all@) =~= a4 + p4);
        let ghost ds = drafts(note@, context@, today, age);
        proof {
            lemma_drafts_len(note@, context@, today, age);
            assert(suggestion_views(all@) =~= ds);
        }
        let mut suggestions: Vec<Suggestion> = Vec::new();
        let mut k: usize = 0;
        while k < all.len()
            invariant
                k <= all.len(),
                all.len() <= 11,
                ids.len() >= 11,
                ds == suggestion_views(all@),
                suggestions.len() == k,
                forall|j: int| 0 <= j < k ==> #[trigger] suggestions@[j]@ == with_ids(ds, views(ids@))[j],
            decreases all.len() - k,
        {
            let d = &all[k];
            suggestions.push(
                Suggestion {
                    id: ids[k].clone(),
                    kind: d.kind.clone(),
                    label: d.label.clone(),
                    value: d.value.dup(),
                    confidence: d.confidence,
                    rule_id: d.rule_id.clone(),
                },
            );
            k = k + 1;
        }
        let entities = detect_entities(text.as_str());
        let r = OrganizerResult { suggestions, entities };
        assert(r@.suggestions =~= with_ids(ds, views(ids@)));
        r
    }
}

/// Something that reads a note and proposes how to organize it.
pub trait OrganizerProvider {
    fn analyze(&self, note: &Note, context: &OrganizerContext) -> OrganizerResult;
}

impl OrganizerProvider for RuleOrganizer {
    /// Runs every rule on a note today, on this machine's clock, with fresh ids. Which day it
    /// is, how old the note is and which ids are drawn are the machine's: the result is the
    /// rules' answer for some valid date, for an age that is known exactly when the note's
    /// `updated_at` parses, and for some ids.
    fn analyze(&self, note: &Note, context: &OrganizerContext) -> (r: OrganizerResult)
        ensures
            exists|today: Date, age: Option<i64>, ids: Seq<Seq<char>>|
                #![trigger analyze_spec(note@, context@, today, age, ids)]
                valid_date(today) && ids.len() >= 11 && (age is Some <==> rfc3339_parses(note@.updated_at)) && r@
                    == analyze_spec(note@, context@, today, age, ids),
    {
        let today = local_today();
        let age = days_since(note.updated_at.as_str());
        let mut ids: Vec<String> = Vec::new();
        let mut k: usize = 0;
        while k < 11
            invariant
                k <= 11,
                ids.len() == k,
            decreases 11 - k,
        {
            ids.push(crate::ids::new_id());
            k = k + 1;
        }
        self.analyze_at(note, context, today, age, &ids)
    }
}

} // verus!
