//! The rule organizer: due dates, todos, tags, categories, similar titles, archive
//! hints and contact entities found in a note.

use vstd::prelude::*;
use crate::dates::{Date, date_add_days, date_before, date_from_ymd, date_number, date_shifted, day_number, valid_date, valid_ymd};
use crate::models::Confidence;
use crate::patterns::{Found, FoundV, find_captures, find_matches, regex_captures, regex_matches};
use crate::models::{EntityMatch, EntityMatchV};
use crate::seqs::{distinct, isort, keep, lemma_distinct_contains, lemma_isort, lemma_occurrences, occurrences, sort_vec, vw};
use crate::models::{Tag, TagV};
use crate::text::{char_alphanumeric, char_whitespace, is_alphanumeric, is_whitespace, lowercase, str_eq, string_of, to_lowercase, trim, trim_spec, utf8, views};
use crate::text::{contains, contains_spec, chars_of};

verus! {

/// The confidence `n` percent.
pub open spec fn pct(n: u64) -> Confidence {
    Confidence { numerator: n as u128, denominator: 100 }
}

fn percent(n: u64) -> (c: Confidence)
    ensures
        c == pct(n),
{
    Confidence { numerator: n as u128, denominator: 100 }
}

// ---------------------------------------------------------------------------
// Integers from text, as `str::parse` reads them.
// ---------------------------------------------------------------------------

pub open spec fn is_ascii_digit(c: char) -> bool {
    '0' <= c <= '9'
}

pub open spec fn all_ascii_digits(s: Seq<char>) -> bool {
    forall|i: int| 0 <= i < s.len() ==> is_ascii_digit(#[trigger] s[i])
}

/// The value of a string of decimal digits.
pub open spec fn digits_value(s: Seq<char>) -> int
    decreases s.len(),
{
    if s.len() == 0 {
        0
    } else {
        10 * digits_value(s.drop_last()) + ((s.last() as u32) - ('0' as u32))
    }
}

/// The sign a text starts with, if any, and the rest.
pub open spec fn unsigned_part(s: Seq<char>, minus_ok: bool) -> Seq<char> {
    if s.len() > 0 && (s[0] == '+' || (minus_ok && s[0] == '-')) {
        s.drop_first()
    } else {
        s
    }
}

/// `u32::from_str`: an optional `+`, then one or more ASCII digits whose value fits.
pub open spec fn parsed_u32(s: Seq<char>) -> Option<u32> {
    let b = unsigned_part(s, false);
    if b.len() > 0 && all_ascii_digits(b) && digits_value(b) <= u32::MAX {
        Some(digits_value(b) as u32)
    } else {
        None
    }
}

/// `i32::from_str`: an optional sign, then one or more ASCII digits whose value fits.
pub open spec fn parsed_i32(s: Seq<char>) -> Option<i32> {
    let b = unsigned_part(s, true);
    let v = if s.len() > 0 && s[0] == '-' {
        -digits_value(b)
    } else {
        digits_value(b)
    };
    if b.len() > 0 && all_ascii_digits(b) && i32::MIN <= v <= i32::MAX {
        Some(v as i32)
    } else {
        None
    }
}

proof fn lemma_digits_value_grows(s: Seq<char>, j: int)
    requires
        0 <= j <= s.len(),
        all_ascii_digits(s),
    ensures
        0 <= digits_value(s.take(j)) <= digits_value(s),
    decreases s.len() - j,
{
    if j < s.len() {
        lemma_digits_value_grows(s, j + 1);
        assert(s.take(j + 1).drop_last() == s.take(j));
        assert(is_ascii_digit(s[j]));
    } else {
        assert(s.take(j) == s);
    }
    lemma_digits_nonneg(s.take(j));
}

proof fn lemma_digits_nonneg(s: Seq<char>)
    requires
        all_ascii_digits(s),
    ensures
        digits_value(s) >= 0,
    decreases s.len(),
{
    if s.len() > 0 {
        assert(all_ascii_digits(s.drop_last())) by {
            assert forall|i: int| 0 <= i < s.drop_last().len() implies is_ascii_digit(#[trigger] s.drop_last()[i]) by {
                assert(s.drop_last()[i] == s[i]);
            }
        }
        lemma_digits_nonneg(s.drop_last());
        assert(is_ascii_digit(s[s.len() - 1]));
    }
}

/// The value of the digits of `c` from `from` on, when they are all ASCII digits and
/// the value is at most `cap`.
fn capped_value(c: &Vec<char>, from: usize, cap: u64) -> (r: Option<u64>)
    requires
        from <= c.len(),
        cap <= 0x1_0000_0000,
    ensures
        ({
            let b = c@.skip(from as int);
            match r {
                Some(v) => b.len() > 0 && all_ascii_digits(b) && v == digits_value(b) && v <= cap,
                None => !(b.len() > 0 && all_ascii_digits(b) && digits_value(b) <= cap),
            }
        }),
{
    let ghost b = c@.skip(from as int);
    if from == c.len() {
        return None;
    }
    let mut acc: u64 = 0;
    let mut i: usize = from;
    while i < c.len()
        invariant
            from <= i <= c.len(),
            b == c@.skip(from as int),
            cap <= 0x1_0000_0000,
            all_ascii_digits(b.take(i - from)),
            acc == digits_value(b.take(i - from)),
            acc <= cap,
        decreases c.len() - i,
    {
        let ch = c[i];
        if !('0' <= ch && ch <= '9') {
            proof {
                assert(b[i - from] == ch);
                assert(!all_ascii_digits(b));
            }
            return None;
        }
        let d: u64 = ((ch as u32) - ('0' as u32)) as u64;
        proof {
            assert(b.take(i - from + 1).drop_last() == b.take(i - from));
            assert(b.take(i - from + 1).last() == ch);
            assert forall|k: int| 0 <= k < b.take(i - from + 1).len() implies is_ascii_digit(
                #[trigger] b.take(i - from + 1)[k],
            ) by {
                if k < i - from {
                    assert(b.take(i - from + 1)[k] == b.take(i - from)[k]);
                }
            }
        }
        acc = acc * 10 + d;
        i = i + 1;
        if acc > cap {
            proof {
                if all_ascii_digits(b) {
                    lemma_digits_value_grows(b, i - from);
                }
            }
            return None;
        }
    }
    proof {
        assert(b.take(i - from) == b);
    }
    Some(acc)
}

/// `str::parse::<u32>`.
pub fn parse_u32(s: &str) -> (r: Option<u32>)
    ensures
        r == parsed_u32(s@),
{
    let c = chars_of(s);
    let from: usize = if c.len() > 0 && c[0] == '+' {
        1
    } else {
        0
    };
    proof {
        assert(unsigned_part(s@, false) == c@.skip(from as int));
    }
    match capped_value(&c, from, 0xffff_ffff) {
        Some(v) => Some(v as u32),
        None => None,
    }
}

/// `str::parse::<i32>`.
pub fn parse_i32(s: &str) -> (r: Option<i32>)
    ensures
        r == parsed_i32(s@),
{
    let c = chars_of(s);
    let negative = c.len() > 0 && c[0] == '-';
    let from: usize = if c.len() > 0 && (c[0] == '+' || c[0] == '-') {
        1
    } else {
        0
    };
    proof {
        assert(unsigned_part(s@, true) == c@.skip(from as int));
    }
    let cap: u64 = if negative {
        0x8000_0000
    } else {
        0x7fff_ffff
    };
    match capped_value(&c, from, cap) {
        Some(v) => {
            if negative {
                if v == 0x8000_0000 {
                    Some(-2147483648i32)
                } else {
                    Some(-(v as i32))
                }
            } else {
                Some(v as i32)
            }
        },
        None => None,
    }
}

// ---------------------------------------------------------------------------
// Due dates.
// ---------------------------------------------------------------------------

/// The pattern of a full date such as `2026-07-15` or `2026年7月15日`.
pub open spec fn full_date_pattern() -> Seq<char> {
    "(?P<y>20\\d{2})[-/.年](?P<m>\\d{1,2})[-/.月](?P<d>\\d{1,2})日?"@
}

/// The pattern of a month and day such as `7月15日`.
pub open spec fn short_date_pattern() -> Seq<char> {
    "(?P<m>\\d{1,2})月(?P<d>\\d{1,2})日"@
}

/// The `i`-th capture group's text, when it took part.
pub open spec fn group(g: Seq<Option<Seq<char>>>, i: int) -> Option<Seq<char>> {
    if 0 <= i < g.len() {
        g[i]
    } else {
        None
    }
}

pub open spec fn group_u32(g: Seq<Option<Seq<char>>>, i: int) -> Option<u32> {
    match group(g, i) {
        Some(t) => parsed_u32(t),
        None => None,
    }
}

pub open spec fn group_i32(g: Seq<Option<Seq<char>>>, i: int) -> Option<i32> {
    match group(g, i) {
        Some(t) => parsed_i32(t),
        None => None,
    }
}

/// The last day of the current month: the day before the first of the next month.
pub open spec fn month_end(today: Date) -> Option<Date> {
    let y: int = if today.month == 12 {
        today.year + 1
    } else {
        today.year as int
    };
    let m: int = if today.month == 12 {
        1
    } else {
        today.month + 1
    };
    if valid_ymd(y, m, 1) {
        date_shifted(Date { year: y as i32, month: m as u32, day: 1 }, -1)
    } else {
        None
    }
}

/// A date found in a text: the date, the rule's name for what it saw, and the confidence.
pub type DateFound = (Date, Seq<char>, Confidence);

/// The date of the first full date in the text (`None` when its numbers do not name one).
pub open spec fn full_date(g: Seq<Option<Seq<char>>>) -> Option<DateFound> {
    match (group_i32(g, 1), group_u32(g, 2), group_u32(g, 3)) {
        (Some(y), Some(m), Some(d)) => if valid_ymd(y as int, m as int, d as int) {
            Some((Date { year: y, month: m, day: d }, "明确日期"@, pct(99)))
        } else {
            None
        },
        _ => None,
    }
}

/// The date of the first month-and-day in the text: this year's, or next year's when this
/// year's lies more than thirty days back.
pub open spec fn short_date(g: Seq<Option<Seq<char>>>, today: Date) -> Option<DateFound> {
    match (group_u32(g, 1), group_u32(g, 2)) {
        (Some(m), Some(d)) => {
            let y = today.year as int;
            if !valid_ymd(y, m as int, d as int) {
                None
            } else if day_number(y, m as int, d as int) < date_number(today) - 30 {
                if valid_ymd(y + 1, m as int, d as int) {
                    Some((Date { year: (y + 1) as i32, month: m, day: d }, "月日"@, pct(92)))
                } else {
                    None
                }
            } else {
                Some((Date { year: y as i32, month: m, day: d }, "月日"@, pct(92)))
            }
        },
        _ => None,
    }
}

/// The date a relative word names, `offset` days after today.
pub open spec fn relative(today: Date, offset: int, word: Seq<char>, c: u64) -> Option<DateFound> {
    match date_shifted(today, offset) {
        Some(d) => Some((d, word, pct(c))),
        None => None,
    }
}

/// The due date a text mentions: a relative word (今天, 明天, 后天, 下周, in that order of
/// precedence), then 月底, then a full date, then a month and day.
pub open spec fn detect_date_spec(text: Seq<char>, today: Date) -> Option<DateFound> {
    if contains_spec(text, "今天"@) {
        relative(today, 0, "今天"@, 95)
    } else if contains_spec(text, "明天"@) {
        relative(today, 1, "明天"@, 96)
    } else if contains_spec(text, "后天"@) {
        relative(today, 2, "后天"@, 96)
    } else if contains_spec(text, "下周"@) {
        relative(today, 7, "下周"@, 82)
    } else if contains_spec(text, "月底"@) && month_end(today) is Some {
        Some((month_end(today).unwrap(), "月底"@, pct(90)))
    } else {
        match regex_captures(full_date_pattern(), text) {
            None => None,
            Some(Some(g)) => full_date(g),
            Some(None) => match regex_captures(short_date_pattern(), text) {
                Some(Some(g)) => short_date(g, today),
                _ => None,
            },
        }
    }
}

/// Whether the date rules, read in order on `text`, reach a shift of `today` that chrono
/// cannot make: there `today + Duration::days(..)` (or `- Duration::days(30)`) panics.
pub open spec fn date_rule_panics(text: Seq<char>, today: Date) -> bool {
    if contains_spec(text, "今天"@) {
        false
    } else if contains_spec(text, "明天"@) {
        date_shifted(today, 1) is None
    } else if contains_spec(text, "后天"@) {
        date_shifted(today, 2) is None
    } else if contains_spec(text, "下周"@) {
        date_shifted(today, 7) is None
    } else if contains_spec(text, "月底"@) && month_end(today) is Some {
        false
    } else {
        match regex_captures(full_date_pattern(), text) {
            Some(None) => match regex_captures(short_date_pattern(), text) {
                Some(Some(g)) => match (group_u32(g, 1), group_u32(g, 2)) {
                    (Some(m), Some(d)) => valid_ymd(today.year as int, m as int, d as int) && date_shifted(
                        today,
                        -30,
                    ) is None,
                    _ => false,
                },
                _ => false,
            },
            _ => false,
        }
    }
}

fn group_text(g: &Vec<Option<String>>, i: usize) -> (r: Option<String>)
    ensures
        crate::json::opt_view(r) == group(g@.map_values(|x: Option<String>| crate::json::opt_view(x)), i as int),
{
    if i < g.len() {
        match &g[i] {
            Some(t) => Some(t.clone()),
            None => None,
        }
    } else {
        None
    }
}

fn group_u32_of(g: &Vec<Option<String>>, i: usize) -> (r: Option<u32>)
    ensures
        r == group_u32(g@.map_values(|x: Option<String>| crate::json::opt_view(x)), i as int),
{
    match group_text(g, i) {
        Some(t) => parse_u32(t.as_str()),
        None => None,
    }
}

fn group_i32_of(g: &Vec<Option<String>>, i: usize) -> (r: Option<i32>)
    ensures
        r == group_i32(g@.map_values(|x: Option<String>| crate::json::opt_view(x)), i as int),
{
    match group_text(g, i) {
        Some(t) => parse_i32(t.as_str()),
        None => None,
    }
}

/// A relative date rule: `None` when the shift leaves chrono's range (where the rule
/// panics), else the date found.
fn shifted_by(today: Date, offset: i64, word: &str, c: u64) -> (r: Option<Option<(Date, String, Confidence)>>)
    requires
        valid_date(today),
        0 <= offset <= 7,
        c <= 100,
    ensures
        r is None <==> date_shifted(today, offset as int) is None,
        r matches Some(o) ==> match relative(today, offset as int, word@, c) {
            Some(f) => o matches Some(x) && x.0 == f.0 && x.1@ == f.1 && x.2 == f.2 && valid_date(x.0),
            None => o is None,
        },
{
    match date_add_days(today, offset) {
        Some(x) => Some(Some((x, word.to_owned(), percent(c)))),
        None => None,
    }
}

/// The date rules on a text: `None` where a rule would shift `today` out of chrono's range,
/// else what they find.
pub(crate) fn detect_date_checked(text: &str, today: Date) -> (r: Option<Option<(Date, String, Confidence)>>)
    requires
        valid_date(today),
    ensures
        r is None <==> date_rule_panics(text@, today),
        r matches Some(o) ==> match detect_date_spec(text@, today) {
            Some(f) => o matches Some(x) && x.0 == f.0 && x.1@ == f.1 && x.2 == f.2 && valid_date(x.0),
            None => o is None,
        },
{
    if contains(text, "今天") {
        return match date_add_days(today, 0) {
            Some(x) => Some(Some((x, "今天".to_owned(), percent(95)))),
            None => Some(None),
        };
    }
    if contains(text, "明天") {
        return shifted_by(today, 1, "明天", 96);
    }
    if contains(text, "后天") {
        return shifted_by(today, 2, "后天", 96);
    }
    if contains(text, "下周") {
        return shifted_by(today, 7, "下周", 82);
    }
    if contains(text, "月底") {
        let (y, m): (i32, u32) = if today.month == 12 {
            (today.year + 1, 1)
        } else {
            (today.year, today.month + 1)
        };
        if let Some(first) = date_from_ymd(y, m, 1) {
            if let Some(last) = date_add_days(first, -1) {
                return Some(Some((last, "月底".to_owned(), percent(90))));
            }
        }
    }
    let full = find_captures("(?P<y>20\\d{2})[-/.年](?P<m>\\d{1,2})[-/.月](?P<d>\\d{1,2})日?", text);
    match full {
        None => {
            return Some(None);
        },
        Some(Some(g)) => {
            let y = group_i32_of(&g, 1);
            let m = group_u32_of(&g, 2);
            let d = group_u32_of(&g, 3);
            return match (y, m, d) {
                (Some(y), Some(m), Some(d)) => match date_from_ymd(y, m, d) {
                    Some(x) => Some(Some((x, "明确日期".to_owned(), percent(99)))),
                    None => Some(None),
                },
                _ => Some(None),
            };
        },
        Some(None) => {},
    }
    let short = find_captures("(?P<m>\\d{1,2})月(?P<d>\\d{1,2})日", text);
    match short {
        Some(Some(g)) => {
            let m = group_u32_of(&g, 1);
            let d = group_u32_of(&g, 2);
            match (m, d) {
                (Some(m), Some(d)) => {
                    let year = today.year;
                    match date_from_ymd(year, m, d) {
                        None => Some(None),
                        Some(date) => match date_add_days(today, -30) {
                            None => None,
                            Some(floor) => {
                                if date_before(date, floor) {
                                    match date_from_ymd(year + 1, m, d) {
                                        Some(x) => Some(Some((x, "月日".to_owned(), percent(92)))),
                                        None => Some(None),
                                    }
                                } else {
                                    Some(Some((date, "月日".to_owned(), percent(92))))
                                }
                            },
                        },
                    }
                },
                _ => Some(None),
            }
        },
        _ => Some(None),
    }
}

/// Finds the due date a text mentions, relative to `today`.
pub fn detect_date_at(text: &str, today: Date) -> (r: Option<(Date, String, Confidence)>)
    requires
        valid_date(today),
        !date_rule_panics(text@, today),
    ensures
        match detect_date_spec(text@, today) {
            Some(f) => r matches Some(x) && x.0 == f.0 && x.1@ == f.1 && x.2 == f.2,
            None => r is None,
        },
        r matches Some(x) ==> valid_date(x.0),
{
    match detect_date_checked(text, today) {
        Some(o) => o,
        None => None,
    }
}

// ---------------------------------------------------------------------------
// Entities.
// ---------------------------------------------------------------------------

pub open spec fn url_pattern() -> Seq<char> {
    "https?://[^\\s<>()]+"@
}

pub open spec fn email_pattern() -> Seq<char> {
    "[A-Za-z0-9._%+-]+@[A-Za-z0-9.-]+\\.[A-Za-z]{2,}"@
}

pub open spec fn phone_pattern() -> Seq<char> {
    "(?:\\+?86[- ]?)?1[3-9]\\d{9}|(?:0\\d{2,3}[- ]?)?\\d{7,8}"@
}

/// The matches of one pattern as entities of one type.
pub open spec fn tagged(kind: Seq<char>, found: Option<Seq<FoundV>>) -> Seq<EntityMatchV> {
    match found {
        Some(v) => v.map_values(
            |f: FoundV| EntityMatchV { entity_type: kind, value: f.text, start_offset: f.start, end_offset: f.end },
        ),
        None => seq![],
    }
}

/// Whether an entity with the same byte range is already in `s`.
pub open spec fn has_span(s: Seq<EntityMatchV>, e: EntityMatchV) -> bool {
    exists|i: int| 0 <= i < s.len() && #[trigger] s[i].start_offset == e.start_offset && s[i].end_offset == e.end_offset
}

/// `acc` followed by the entities of `s` whose range is not yet taken, in order.
pub open spec fn absorb(acc: Seq<EntityMatchV>, s: Seq<EntityMatchV>) -> Seq<EntityMatchV>
    decreases s.len(),
{
    if s.len() == 0 {
        acc
    } else {
        let r = absorb(acc, s.drop_last());
        if has_span(r, s.last()) {
            r
        } else {
            r.push(s.last())
        }
    }
}

pub open spec fn by_start(a: EntityMatchV, b: EntityMatchV) -> bool {
    a.start_offset < b.start_offset
}

/// The URLs, e-mail addresses and phone numbers of a text: each byte range once, taken by
/// the first of those patterns that matched it, ordered by where they start.
pub open spec fn entities_spec(text: Seq<char>) -> Seq<EntityMatchV> {
    let urls = tagged("url"@, regex_matches(url_pattern(), text));
    let emails = tagged("email"@, regex_matches(email_pattern(), text));
    let phones = tagged("phone"@, regex_matches(phone_pattern(), text));
    isort(absorb(absorb(absorb(seq![], urls), emails), phones), |a: EntityMatchV, b: EntityMatchV| by_start(a, b))
}

fn span_taken(out: &Vec<EntityMatch>, start: usize, end: usize) -> (r: bool)
    ensures
        r == has_span(vw(out@), EntityMatchV { entity_type: seq![], value: seq![], start_offset: start, end_offset: end }),
{
    let mut i: usize = 0;
    while i < out.len()
        invariant
            i <= out.len(),
            forall|j: int| 0 <= j < i ==> !(#[trigger] vw(out@)[j].start_offset == start && vw(out@)[j].end_offset == end),
        decreases out.len() - i,
    {
        if out[i].start_offset == start && out[i].end_offset == end {
            proof {
                assert(vw(out@)[i as int].start_offset == start);
            }
            return true;
        }
        i = i + 1;
    }
    false
}

fn absorb_found(out: &mut Vec<EntityMatch>, kind: &str, found: &Option<Vec<Found>>)
    ensures
        vw(final(out)@) == absorb(vw(old(out)@), tagged(kind@, match found {
            Some(v) => Some(vw(v@)),
            None => None,
        })),
{
    let ghost t = tagged(kind@, match found {
        Some(v) => Some(vw(v@)),
        None => None,
    });
    match found {
        None => {
            assert(t.len() == 0);
        },
        Some(v) => {
            let ghost start = vw(out@);
            let mut i: usize = 0;
            while i < v.len()
                invariant
                    i <= v.len(),
                    t == tagged(kind@, Some(vw(v@))),
                    vw(out@) == absorb(start, t.take(i as int)),
                decreases v.len() - i,
            {
                let f = &v[i];
                proof {
                    assert(t.take(i + 1).drop_last() == t.take(i as int));
                    assert(t.take(i + 1).last() == t[i as int]);
                }
                if !span_taken(out, f.start, f.end) {
                    let ghost before = vw(out@);
                    out.push(EntityMatch {
                        entity_type: kind.to_owned(),
                        value: f.text.clone(),
                        start_offset: f.start,
                        end_offset: f.end,
                    });
                    proof {
                        assert(vw(out@) =~= before.push(t[i as int]));
                    }
                }
                i = i + 1;
            }
            proof {
                assert(t.take(i as int) == t);
            }
        },
    }
}

/// An entity found in `text`: one of the three kinds, its range within the text's UTF-8
/// bytes, and its value those bytes.
pub open spec fn entity_in(text: Seq<char>, e: EntityMatchV) -> bool {
    &&& e.entity_type == "url"@ || e.entity_type == "email"@ || e.entity_type == "phone"@
    &&& e.start_offset <= e.end_offset <= utf8(text).len()
    &&& utf8(e.value) == utf8(text).subrange(e.start_offset as int, e.end_offset as int)
}

proof fn lemma_absorb_in(text: Seq<char>, acc: Seq<EntityMatchV>, s: Seq<EntityMatchV>)
    requires
        forall|i: int| 0 <= i < acc.len() ==> entity_in(text, #[trigger] acc[i]),
        forall|i: int| 0 <= i < s.len() ==> entity_in(text, #[trigger] s[i]),
    ensures
        forall|i: int| 0 <= i < absorb(acc, s).len() ==> entity_in(text, #[trigger] absorb(acc, s)[i]),
    decreases s.len(),
{
    if s.len() > 0 {
        assert forall|i: int| 0 <= i < s.drop_last().len() implies entity_in(text, #[trigger] s.drop_last()[i]) by {
            assert(s.drop_last()[i] == s[i]);
        }
        lemma_absorb_in(text, acc, s.drop_last());
        assert(entity_in(text, s[s.len() - 1]));
        let r = absorb(acc, s.drop_last());
        if !has_span(r, s.last()) {
            assert forall|i: int| 0 <= i < r.push(s.last()).len() implies entity_in(text, #[trigger] r.push(s.last())[i]) by {
                if i < r.len() {
                    assert(r.push(s.last())[i] == r[i]);
                }
            }
        }
    }
}

proof fn lemma_tagged_in(text: Seq<char>, kind: Seq<char>, found: Option<Seq<FoundV>>)
    requires
        kind == "url"@ || kind == "email"@ || kind == "phone"@,
        found matches Some(v) ==> forall|i: int| 0 <= i < v.len() ==> {
            let f = #[trigger] v[i];
            &&& f.start <= f.end <= utf8(text).len()
            &&& utf8(f.text) == utf8(text).subrange(f.start as int, f.end as int)
        },
    ensures
        forall|i: int| 0 <= i < tagged(kind, found).len() ==> entity_in(text, #[trigger] tagged(kind, found)[i]),
{
    if let Some(v) = found {
        assert forall|i: int| 0 <= i < tagged(kind, found).len() implies entity_in(text, #[trigger] tagged(kind, found)[i]) by {
            assert(tagged(kind, found)[i].value == v[i].text);
        }
    }
}

/// Finds the URLs, e-mail addresses and phone numbers of a text, with their byte ranges.
pub fn detect_entities(text: &str) -> (r: Vec<EntityMatch>)
    ensures
        vw(r@) == entities_spec(text@),
        forall|i: int| 0 <= i < r@.len() ==> entity_in(text@, #[trigger] r@[i]@),
{
    let mut out: Vec<EntityMatch> = Vec::new();
    assert(vw(out@) =~= seq![]);
    let urls = find_matches("https?://[^\\s<>()]+", text);
    absorb_found(&mut out, "url", &urls);
    let emails = find_matches("[A-Za-z0-9._%+-]+@[A-Za-z0-9.-]+\\.[A-Za-z]{2,}", text);
    absorb_found(&mut out, "email", &emails);
    let phones = find_matches("(?:\\+?86[- ]?)?1[3-9]\\d{9}|(?:0\\d{2,3}[- ]?)?\\d{7,8}", text);
    absorb_found(&mut out, "phone", &phones);
    proof {
        reveal_strlit("url");
        reveal_strlit("email");
        reveal_strlit("phone");
        let ghost_found = |f: Option<Vec<Found>>| -> Option<Seq<FoundV>> {
            match f {
                Some(v) => Some(vw(v@)),
                None => None,
            }
        };
        lemma_tagged_in(text@, "url"@, ghost_found(urls));
        lemma_tagged_in(text@, "email"@, ghost_found(emails));
        lemma_tagged_in(text@, "phone"@, ghost_found(phones));
        let u = tagged("url"@, ghost_found(urls));
        let e = tagged("email"@, ghost_found(emails));
        let p = tagged("phone"@, ghost_found(phones));
        lemma_absorb_in(text@, seq![], u);
        lemma_absorb_in(text@, absorb(seq![], u), e);
        lemma_absorb_in(text@, absorb(absorb(seq![], u), e), p);
    }
    let ghost all = vw(out@);
    let r = sort_vec(
        out,
        (|a: &EntityMatch, b: &EntityMatch| -> (r: bool)
            ensures
                r == by_start(a@, b@),
            { a.start_offset < b.start_offset }),
        Ghost(|a: EntityMatchV, b: EntityMatchV| by_start(a, b)),
    );
    proof {
        let lt = |a: EntityMatchV, b: EntityMatchV| by_start(a, b);
        lemma_isort(all, lt);
        assert forall|i: int| 0 <= i < r@.len() implies entity_in(text@, #[trigger] r@[i]@) by {
            assert(vw(r@)[i] == r@[i]@);
            assert(isort(all, lt).contains(r@[i]@));
            assert(all.contains(r@[i]@));
        }
    }
    r
}


// ---------------------------------------------------------------------------
// Tag candidates.
// ---------------------------------------------------------------------------

/// Words too common to propose as tags: a token that holds one is passed over.
pub open spec fn stopwords() -> Seq<Seq<char>> {
    seq![
        "今天"@, "明天"@, "后天"@, "需要"@, "这个"@, "那个"@, "已经"@, "进行"@, "完成"@,
        "事情"@, "工作"@, "记录"@, "一下"@, "可以"@, "我们"@, "你们"@, "他们"@,
    ]
}

fn stopword(k: usize) -> (r: &'static str)
    requires
        k < 17,
    ensures
        r@ == stopwords()[k as int],
{
    match k {
        0 => "今天",
        1 => "明天",
        2 => "后天",
        3 => "需要",
        4 => "这个",
        5 => "那个",
        6 => "已经",
        7 => "进行",
        8 => "完成",
        9 => "事情",
        10 => "工作",
        11 => "记录",
        12 => "一下",
        13 => "可以",
        14 => "我们",
        15 => "你们",
        _ => "他们",
    }
}

/// A run of letters and digits that holds no stop word.
pub open spec fn is_token(w: Seq<char>) -> bool {
    &&& forall|i: int| 0 <= i < w.len() ==> char_alphanumeric(#[trigger] w[i])
    &&& forall|k: int| 0 <= k < stopwords().len() ==> !contains_spec(w, #[trigger] stopwords()[k])
}

/// The windows of `size` consecutive characters, from left to right.
pub open spec fn windows_of(c: Seq<char>, size: int) -> Seq<Seq<char>> {
    if 0 < size <= c.len() {
        Seq::new((c.len() - size + 1) as nat, |i: int| c.subrange(i, i + size))
    } else {
        seq![]
    }
}

/// The tokens of two, three and four characters of a lowercased text with its whitespace
/// removed, in the order they are counted.
pub open spec fn token_stream(lower: Seq<char>) -> Seq<Seq<char>> {
    let c = keep(lower, |ch: char| !char_whitespace(ch));
    keep(windows_of(c, 2), |w: Seq<char>| is_token(w)) + keep(windows_of(c, 3), |w: Seq<char>| is_token(w))
        + keep(windows_of(c, 4), |w: Seq<char>| is_token(w))
}

/// A token with how often it occurs and its length in UTF-8 bytes.
pub struct Ranked {
    pub token: String,
    pub count: usize,
    pub bytes: usize,
}

pub struct RankedV {
    pub token: Seq<char>,
    pub count: usize,
    pub bytes: usize,
}

impl View for Ranked {
    type V = RankedV;

    open spec fn view(&self) -> RankedV {
        RankedV { token: self.token@, count: self.count, bytes: self.bytes }
    }
}

/// Each distinct token of a stream, in order of first occurrence, with its count.
pub open spec fn ranked(g: Seq<Seq<char>>) -> Seq<RankedV> {
    distinct(g).map_values(
        |t: Seq<char>| RankedV { token: t, count: occurrences(g, t) as usize, bytes: utf8(t).len() as usize },
    )
}

/// More frequent first; among equally frequent tokens, longer first.
pub open spec fn ranks_before(a: RankedV, b: RankedV) -> bool {
    a.count > b.count || (a.count == b.count && a.bytes > b.bytes)
}

/// The tokens that occur at least twice, most frequent first (stably).
pub open spec fn frequent_tokens(lower: Seq<char>) -> Seq<RankedV> {
    isort(keep(ranked(token_stream(lower)), |r: RankedV| r.count >= 2), |a: RankedV, b: RankedV| ranks_before(a, b))
}

/// The confidence of a frequent token: 58% plus 6% per occurrence, at most 82%.
pub open spec fn frequency_confidence(count: usize) -> Confidence {
    if count <= 4 {
        pct((58 + 6 * count) as u64)
    } else {
        pct(82)
    }
}

/// A proposed tag and how sure the rule is of it.
pub struct TagCandidate {
    pub name: String,
    pub confidence: Confidence,
}

pub struct TagCandidateV {
    pub name: Seq<char>,
    pub confidence: Confidence,
}

impl View for TagCandidate {
    type V = TagCandidateV;

    open spec fn view(&self) -> TagCandidateV {
        TagCandidateV { name: self.name@, confidence: self.confidence }
    }
}

/// A known tag whose trimmed name, of two characters or more, occurs in the lowercased text.
pub open spec fn named_in(t: TagV, lower: Seq<char>) -> bool {
    let n = trim_spec(t.name);
    n.len() >= 2 && contains_spec(lower, lowercase(n))
}

/// The known tags the text names, at 94%.
pub open spec fn named_tags(tags: Seq<TagV>, lower: Seq<char>) -> Seq<TagCandidateV> {
    keep(tags, |t: TagV| named_in(t, lower)).map_values(
        |t: TagV| TagCandidateV { name: trim_spec(t.name), confidence: pct(94) },
    )
}

/// `acc` followed by the frequent tokens not already proposed.
pub open spec fn add_frequent(acc: Seq<TagCandidateV>, f: Seq<RankedV>) -> Seq<TagCandidateV>
    decreases f.len(),
{
    if f.len() == 0 {
        acc
    } else {
        let r = add_frequent(acc, f.drop_last());
        if exists|i: int| 0 <= i < r.len() && #[trigger] r[i].name == f.last().token {
            r
        } else {
            r.push(TagCandidateV { name: f.last().token, confidence: frequency_confidence(f.last().count) })
        }
    }
}

/// At most five tag proposals: the known tags the text names, then up to three of its most
/// frequent tokens.
pub open spec fn tag_candidates_spec(text: Seq<char>, tags: Seq<TagV>) -> Seq<TagCandidateV> {
    let lower = lowercase(text);
    let f = frequent_tokens(lower);
    let r = add_frequent(named_tags(tags, lower), if f.len() > 3 { f.take(3) } else { f });
    if r.len() > 5 {
        r.take(5)
    } else {
        r
    }
}

fn token_ok(w: &Vec<char>, t: &str) -> (r: bool)
    requires
        t@ == w@,
    ensures
        r == is_token(w@),
{
    let mut i: usize = 0;
    while i < w.len()
        invariant
            i <= w.len(),
            forall|j: int| 0 <= j < i ==> char_alphanumeric(#[trigger] w@[j]),
        decreases w.len() - i,
    {
        if !is_alphanumeric(w[i]) {
            return false;
        }
        i = i + 1;
    }
    let mut k: usize = 0;
    while k < 17
        invariant
            k <= 17,
            t@ == w@,
            stopwords().len() == 17,
            forall|j: int| 0 <= j < w.len() ==> char_alphanumeric(#[trigger] w@[j]),
            forall|j: int| 0 <= j < k ==> !contains_spec(w@, #[trigger] stopwords()[j]),
        decreases 17 - k,
    {
        if contains(t, stopword(k)) {
            return false;
        }
        k = k + 1;
    }
    true
}

fn push_tokens(c: &Vec<char>, size: usize, out: &mut Vec<String>)
    requires
        2 <= size <= 4,
    ensures
        views(final(out)@) == views(old(out)@) + keep(windows_of(c@, size as int), |w: Seq<char>| is_token(w)),
{
    let ghost w = windows_of(c@, size as int);
    let ghost p = |w: Seq<char>| is_token(w);
    let ghost start = views(out@);
    if size > c.len() {
        assert(w =~= seq![]);
        assert(views(out@) =~= start + keep(w, p));
        return;
    }
    let n = c.len() - size + 1;
    let mut i: usize = 0;
    while i < n
        invariant
            n == c.len() - size + 1,
            2 <= size <= c.len(),
            i <= n,
            w == windows_of(c@, size as int),
            w.len() == n,
            p == (|w: Seq<char>| is_token(w)),
            views(out@) == start + keep(w.take(i as int), p),
        decreases n - i,
    {
        let mut win: Vec<char> = Vec::new();
        let mut j: usize = 0;
        while j < size
            invariant
                i < n,
                n == c.len() - size + 1,
                j <= size,
                win@ == c@.subrange(i as int, i + j),
            decreases size - j,
        {
            win.push(c[i + j]);
            j = j + 1;
            assert(win@ =~= c@.subrange(i as int, i + j));
        }
        let t = string_of(win.as_slice());
        proof {
            assert(w[i as int] == win@);
            assert(w.take(i + 1).drop_last() == w.take(i as int));
            assert(w.take(i + 1).last() == w[i as int]);
        }
        if token_ok(&win, t.as_str()) {
            let ghost before = views(out@);
            out.push(t);
            proof {
                assert(views(out@) =~= before.push(win@));
                assert(start + keep(w.take(i as int), p).push(win@) =~= (start + keep(w.take(i as int), p)).push(win@));
            }
        }
        i = i + 1;
    }
    proof {
        assert(w.take(n as int) == w);
    }
}

/// Where a string occurs in a vector of strings, if it does.
pub fn position_of(v: &Vec<String>, s: &str) -> (r: Option<usize>)
    ensures
        match r {
            Some(k) => k < v.len() && v@[k as int]@ == s@,
            None => !views(v@).contains(s@),
        },
{
    let mut i: usize = 0;
    while i < v.len()
        invariant
            i <= v.len(),
            forall|j: int| 0 <= j < i ==> v@[j]@ != s@,
        decreases v.len() - i,
    {
        if str_eq(v[i].as_str(), s) {
            return Some(i);
        }
        i = i + 1;
    }
    proof {
        if views(v@).contains(s@) {
            let j = choose|j: int| 0 <= j < views(v@).len() && views(v@)[j] == s@;
            assert(v@[j]@ == s@);
        }
    }
    None
}

/// Each distinct token of the stream with its count and byte length.
pub fn rank_tokens(stream: &Vec<String>) -> (r: Vec<Ranked>)
    ensures
        vw(r@) == ranked(views(stream@)),
{
    let ghost g = views(stream@);
    let mut keys: Vec<String> = Vec::new();
    let mut counts: Vec<usize> = Vec::new();
    let mut i: usize = 0;
    while i < stream.len()
        invariant
            i <= stream.len(),
            g == views(stream@),
            keys.len() == counts.len(),
            views(keys@) == distinct(g.take(i as int)),
            forall|k: int| 0 <= k < keys.len() ==> #[trigger] counts@[k] == occurrences(g.take(i as int), keys@[k]@),
            forall|k: int| 0 <= k < keys.len() ==> #[trigger] counts@[k] <= i,
            forall|a: int, b: int| 0 <= a < b < keys.len() ==> #[trigger] keys@[a]@ != #[trigger] keys@[b]@,
        decreases stream.len() - i,
    {
        let t = &stream[i];
        let ghost pre = g.take(i as int);
        let ghost next = g.take(i + 1);
        proof {
            assert(next.drop_last() == pre);
            assert(next.last() == t@);
            assert forall|x: Seq<char>| occurrences(next, x) == occurrences(pre, x) + if t@ == x {
                1nat
            } else {
                0nat
            } by {}
        }
        match position_of(&keys, t.as_str()) {
            Some(k) => {
                proof {
                    assert(views(keys@)[k as int] == t@);
                    assert(views(keys@).contains(t@));
                    assert forall|q: int| 0 <= q < keys.len() && q != k implies keys@[q]@ != t@ by {
                        if q < k {
                            assert(keys@[q]@ != keys@[k as int]@);
                        } else {
                            assert(keys@[k as int]@ != keys@[q]@);
                        }
                    }
                }
                let c = counts[k];
                counts.set(k, c + 1);
                proof {
                    assert(distinct(next) == distinct(pre));
                }
            },
            None => {
                proof {
                    lemma_distinct_contains(pre, t@);
                    lemma_occurrences(pre, t@);
                }
                let ghost before = views(keys@);
                keys.push(t.clone());
                counts.push(1);
                proof {
                    assert(views(keys@) =~= before.push(t@));
                    assert(distinct(next) == before.push(t@));
                    assert forall|q: int| 0 <= q < keys.len() - 1 implies keys@[q]@ != t@ by {
                        assert(before[q] == keys@[q]@);
                    }
                }
            },
        }
        i = i + 1;
    }
    proof {
        assert(g.take(i as int) == g);
    }
    let mut out: Vec<Ranked> = Vec::new();
    let mut k: usize = 0;
    while k < keys.len()
        invariant
            k <= keys.len(),
            keys.len() == counts.len(),
            g == views(stream@),
            views(keys@) == distinct(g),
            forall|q: int| 0 <= q < keys.len() ==> #[trigger] counts@[q] == occurrences(g, keys@[q]@),
            out.len() == k,
            forall|q: int| 0 <= q < k ==> #[trigger] out@[q]@ == ranked(g)[q],
        decreases keys.len() - k,
    {
        let bytes = keys[k].as_str().len();
        proof {
            assert(views(keys@)[k as int] == keys@[k as int]@);
        }
        out.push(Ranked { token: keys[k].clone(), count: counts[k], bytes });
        k = k + 1;
    }
    assert(vw(out@) =~= ranked(g));
    out
}

/// The frequent tokens of a lowercased text, most frequent first.
fn frequent_of(lower: &str) -> (r: Vec<Ranked>)
    ensures
        vw(r@) == frequent_tokens(lower@),
{
    let all = chars_of(lower);
    let mut c: Vec<char> = Vec::new();
    let mut i: usize = 0;
    let ghost p = |ch: char| !char_whitespace(ch);
    while i < all.len()
        invariant
            i <= all.len(),
            all@ == lower@,
            p == (|ch: char| !char_whitespace(ch)),
            c@ == keep(all@.take(i as int), p),
        decreases all.len() - i,
    {
        proof {
            assert(all@.take(i + 1).drop_last() == all@.take(i as int));
        }
        if !is_whitespace(all[i]) {
            c.push(all[i]);
        }
        i = i + 1;
    }
    proof {
        assert(all@.take(i as int) == all@);
    }
    let mut stream: Vec<String> = Vec::new();
    assert(views(stream@) =~= seq![]);
    push_tokens(&c, 2, &mut stream);
    push_tokens(&c, 3, &mut stream);
    push_tokens(&c, 4, &mut stream);
    proof {
        let q = |w: Seq<char>| is_token(w);
        assert(views(stream@) =~= token_stream(lower@));
    }
    let ranks = rank_tokens(&stream);
    let kept = crate::seqs::filter_vec(
        ranks,
        (|r: &Ranked| -> (b: bool)
            ensures
                b == (r@.count >= 2),
            { r.count >= 2 }),
        Ghost(|r: RankedV| r.count >= 2),
    );
    sort_vec(
        kept,
        (|a: &Ranked, b: &Ranked| -> (x: bool)
            ensures
                x == ranks_before(a@, b@),
            { a.count > b.count || (a.count == b.count && a.bytes > b.bytes) }),
        Ghost(|a: RankedV, b: RankedV| ranks_before(a, b)),
    )
}

fn frequency_confidence_of(count: usize) -> (c: Confidence)
    ensures
        c == frequency_confidence(count),
{
    if count <= 4 {
        percent(58 + 6 * (count as u64))
    } else {
        percent(82)
    }
}

/// Proposes up to five tags for a text: the known tags it names, then its most frequent
/// two-to-four-character tokens.
pub fn tag_candidates(text: &str, tags: &Vec<Tag>) -> (r: Vec<TagCandidate>)
    ensures
        vw(r@) == tag_candidates_spec(text@, vw(tags@)),
{
    let lower = to_lowercase(text);
    let ghost tv = vw(tags@);
    let ghost named_p = |t: TagV| named_in(t, lower@);
    let mut out: Vec<TagCandidate> = Vec::new();
    let mut i: usize = 0;
    while i < tags.len()
        invariant
            i <= tags.len(),
            tv == vw(tags@),
            named_p == (|t: TagV| named_in(t, lower@)),
            vw(out@) == named_tags(tv.take(i as int), lower@),
        decreases tags.len() - i,
    {
        let name = trim(tags[i].name.as_str());
        let n = name.as_str().unicode_len();
        proof {
            assert(tv.take(i + 1).drop_last() == tv.take(i as int));
            assert(tv.take(i + 1).last() == tags@[i as int]@);
        }
        let ghost before = vw(out@);
        if n >= 2 {
            let lname = to_lowercase(name.as_str());
            if contains(lower.as_str(), lname.as_str()) {
                out.push(TagCandidate { name, confidence: percent(94) });
                proof {
                    assert(vw(out@) =~= before.push(TagCandidateV { name: trim_spec(tags@[i as int]@.name), confidence: pct(94) }));
                }
            }
        }
        proof {
            let k1 = keep(tv.take(i + 1), named_p);
            let k0 = keep(tv.take(i as int), named_p);
            assert(named_tags(tv.take(i + 1), lower@) =~= k1.map_values(
                |t: TagV| TagCandidateV { name: trim_spec(t.name), confidence: pct(94) },
            ));
            if named_in(tags@[i as int]@, lower@) {
                assert(k1 == k0.push(tags@[i as int]@));
            } else {
                assert(k1 == k0);
            }
        }
        i = i + 1;
    }
    proof {
        assert(tv.take(i as int) == tv);
    }
    let f = frequent_of(lower.as_str());
    let take: usize = if f.len() > 3 {
        3
    } else {
        f.len()
    };
    let ghost fv = vw(f@);
    let ghost taken = if fv.len() > 3 {
        fv.take(3)
    } else {
        fv
    };
    let ghost named = named_tags(tv, lower@);
    let mut j: usize = 0;
    while j < take
        invariant
            j <= take <= f.len(),
            fv == vw(f@),
            taken.len() == take,
            forall|q: int| 0 <= q < take ==> taken[q] == fv[q],
            vw(out@) == add_frequent(named, taken.take(j as int)),
        decreases take - j,
    {
        let r = &f[j];
        proof {
            assert(taken.take(j + 1).drop_last() == taken.take(j as int));
            assert(taken.take(j + 1).last() == r@);
        }
        let mut seen = false;
        let mut q: usize = 0;
        while q < out.len()
            invariant
                q <= out.len(),
                !seen ==> forall|x: int| 0 <= x < q ==> #[trigger] vw(out@)[x].name != r@.token,
                seen ==> exists|x: int| 0 <= x < out.len() && #[trigger] vw(out@)[x].name == r@.token,
            decreases out.len() - q,
        {
            if str_eq(out[q].name.as_str(), r.token.as_str()) {
                seen = true;
                assert(vw(out@)[q as int].name == r@.token);
            }
            q = q + 1;
        }
        if !seen {
            let ghost before = vw(out@);
            out.push(TagCandidate { name: r.token.clone(), confidence: frequency_confidence_of(r.count) });
            proof {
                assert(vw(out@) =~= before.push(
                    TagCandidateV { name: r@.token, confidence: frequency_confidence(r@.count) },
                ));
            }
        }
        j = j + 1;
    }
    proof {
        assert(taken.take(take as int) == taken);
    }
    let ghost before_cut = vw(out@);
    out.truncate(5);
    proof {
        if before_cut.len() > 5 {
            assert(vw(out@) =~= before_cut.take(5));
        } else {
            assert(vw(out@) =~= before_cut);
        }
    }
    out
}


// ---------------------------------------------------------------------------
// Title similarity.
// ---------------------------------------------------------------------------

/// The letters and digits of a lowercased text.
pub open spec fn alnum_lower(s: Seq<char>) -> Seq<char> {
    keep(lowercase(s), |c: char| char_alphanumeric(c))
}

/// The three-character windows of a title's letters and digits, or the whole of them
/// when there are fewer than three.
pub open spec fn trigrams(s: Seq<char>) -> Seq<Seq<char>> {
    let n = alnum_lower(s);
    if n.len() < 3 {
        seq![n]
    } else {
        windows_of(n, 3)
    }
}

/// How many of the items of `x` occur in `y`.
pub open spec fn shared(x: Seq<Seq<char>>, y: Seq<Seq<char>>) -> nat {
    keep(x, |t: Seq<char>| y.contains(t)).len()
}

/// The Jaccard similarity of two titles' sets of trigrams: shared trigrams over all trigrams.
pub open spec fn similarity_spec(a: Seq<char>, b: Seq<char>) -> Confidence {
    let x = distinct(trigrams(a));
    let y = distinct(trigrams(b));
    let i = shared(x, y);
    Confidence { numerator: i as u128, denominator: (x.len() + y.len() - i) as u128 }
}

/// The strings of `v` without repeats, each where it first occurs.
pub fn dedup_strings(v: &Vec<String>) -> (r: Vec<String>)
    ensures
        views(r@) == distinct(views(v@)),
{
    let ghost g = views(v@);
    let mut out: Vec<String> = Vec::new();
    let mut i: usize = 0;
    while i < v.len()
        invariant
            i <= v.len(),
            g == views(v@),
            views(out@) == distinct(g.take(i as int)),
        decreases v.len() - i,
    {
        proof {
            assert(g.take(i + 1).drop_last() == g.take(i as int));
            assert(g.take(i + 1).last() == v@[i as int]@);
        }
        match position_of(&out, v[i].as_str()) {
            Some(k) => {
                proof {
                    assert(views(out@)[k as int] == v@[i as int]@);
                }
            },
            None => {
                let ghost before = views(out@);
                out.push(v[i].clone());
                proof {
                    assert(views(out@) =~= before.push(v@[i as int]@));
                }
            },
        }
        i = i + 1;
    }
    proof {
        assert(g.take(i as int) == g);
    }
    out
}

/// The distinct trigrams of a title; never empty.
fn trigram_set(s: &str) -> (r: Vec<String>)
    ensures
        views(r@) == distinct(trigrams(s@)),
        r.len() >= 1,
{
    let lower = to_lowercase(s);
    let all = chars_of(lower.as_str());
    let ghost p = |c: char| char_alphanumeric(c);
    let mut n: Vec<char> = Vec::new();
    let mut i: usize = 0;
    while i < all.len()
        invariant
            i <= all.len(),
            all@ == lowercase(s@),
            p == (|c: char| char_alphanumeric(c)),
            n@ == keep(all@.take(i as int), p),
        decreases all.len() - i,
    {
        proof {
            assert(all@.take(i + 1).drop_last() == all@.take(i as int));
        }
        if is_alphanumeric(all[i]) {
            n.push(all[i]);
        }
        i = i + 1;
    }
    proof {
        assert(all@.take(i as int) == all@);
    }
    let ghost t = trigrams(s@);
    let mut grams: Vec<String> = Vec::new();
    if n.len() < 3 {
        grams.push(string_of(n.as_slice()));
        assert(views(grams@) =~= t);
    } else {
        let ghost w = windows_of(n@, 3);
        let count = n.len() - 2;
        let mut k: usize = 0;
        while k < count
            invariant
                count == n.len() - 2,
                n.len() >= 3,
                k <= count,
                w == windows_of(n@, 3),
                views(grams@) == w.take(k as int),
            decreases count - k,
        {
            let mut win: Vec<char> = Vec::new();
            win.push(n[k]);
            win.push(n[k + 1]);
            win.push(n[k + 2]);
            assert(win@ =~= n@.subrange(k as int, k + 3));
            let ghost before = views(grams@);
            grams.push(string_of(win.as_slice()));
            proof {
                assert(views(grams@) =~= before.push(win@));
                assert(w.take(k + 1) =~= w.take(k as int).push(w[k as int]));
            }
            k = k + 1;
        }
        proof {
            assert(w.take(count as int) == w);
        }
    }
    let r = dedup_strings(&grams);
    proof {
        assert(t.len() >= 1);
        lemma_distinct_contains(t, t[0]);
        assert(t.contains(t[0]));
    }
    r
}

/// How many strings of `x` occur in `y`.
fn shared_count(x: &Vec<String>, y: &Vec<String>) -> (r: usize)
    ensures
        r == shared(views(x@), views(y@)),
        r <= x.len(),
{
    let ghost p = |t: Seq<char>| views(y@).contains(t);
    let ghost xv = views(x@);
    let mut c: usize = 0;
    let mut i: usize = 0;
    while i < x.len()
        invariant
            i <= x.len(),
            xv == views(x@),
            p == (|t: Seq<char>| views(y@).contains(t)),
            c == keep(xv.take(i as int), p).len(),
            c <= i,
        decreases x.len() - i,
    {
        proof {
            assert(xv.take(i + 1).drop_last() == xv.take(i as int));
            assert(xv.take(i + 1).last() == x@[i as int]@);
        }
        match position_of(y, x[i].as_str()) {
            Some(k) => {
                proof {
                    assert(views(y@)[k as int] == x@[i as int]@);
                }
                c = c + 1;
            },
            None => {},
        }
        i = i + 1;
    }
    proof {
        assert(xv.take(i as int) == xv);
    }
    c
}

/// How alike two titles are: the Jaccard similarity of their trigram sets.
pub fn title_similarity(left: &str, right: &str) -> (r: Confidence)
    ensures
        r == similarity_spec(left@, right@),
        r.denominator >= 1,
        r.numerator <= r.denominator,
{
    let x = trigram_set(left);
    let y = trigram_set(right);
    let i = shared_count(&x, &y);
    proof {
        crate::laws::law_similarity_range_symmetry(left@, right@);
    }
    let numerator: u128 = i as u128;
    let denominator: u128 = (x.len() - i) as u128 + y.len() as u128;
    Confidence { numerator, denominator }
}

} // verus!
