use chrono::Local;
use shanji::analyze::{CategoryKeywords, OrganizerContext, OrganizerProvider, RuleOrganizer, frac_less};
use shanji::dates::Date;
use shanji::models::{Category, Confidence, Note, SuggestionValue, Tag};
use shanji::organizer::{detect_date_at, detect_entities, parse_i32, parse_u32, tag_candidates, title_similarity};

fn note(content: &str) -> Note {
    Note {
        id: "note-1".into(),
        title: "".into(),
        content: content.into(),
        category_id: None,
        category: None,
        tags: vec![],
        is_favorite: false,
        is_todo: false,
        todo_status: "not_started".into(),
        priority: "normal".into(),
        due_date: None,
        completed_at: None,
        source: "main".into(),
        revision: 0,
        created_at: Local::now().to_rfc3339(),
        updated_at: Local::now().to_rfc3339(),
        deleted_at: None,
        archived_at: None,
    }
}

#[test]
fn recognizes_todo_date_and_contact() {
    let result = RuleOrganizer.analyze(&note("记得明天联系 test@example.com 并提交方案"), &OrganizerContext::default());
    assert!(result.suggestions.iter().any(|item| item.kind == "due_date"));
    assert!(result.suggestions.iter().any(|item| item.kind == "todo"));
    assert!(result.entities.iter().any(|item| item.entity_type == "email"));
}

#[test]
fn completion_requires_task_context() {
    let result = RuleOrganizer.analyze(&note("这个阶段已经完成"), &OrganizerContext::default());
    assert!(!result.suggestions.iter().any(|item| item.kind == "todo_status"));
}

#[test]
fn recommends_category_and_warns_about_similar_title() {
    let mut current = note("项目发布进度需要继续跟进");
    current.title = "Windows 发布计划".into();
    let category = Category {
        id: "category-work".into(),
        name: "工作".into(),
        color: "slate".into(),
        sort_order: 0,
        created_at: Local::now().to_rfc3339(),
        updated_at: Local::now().to_rfc3339(),
    };
    let mut context = OrganizerContext {
        categories: vec![category],
        other_titles: vec![("other-note".into(), "Windows发布计划".into())],
        ..Default::default()
    };
    context
        .category_keywords
        .push(CategoryKeywords { category_id: "category-work".into(), keywords: vec!["项目".into(), "发布".into()] });
    let result = RuleOrganizer.analyze(&current, &context);
    assert!(result.suggestions.iter().any(|item| item.kind == "category"));
    assert!(result.suggestions.iter().any(|item| item.kind == "similar_title"));
}

fn day(year: i32, month: u32, day: u32) -> Date {
    Date { year, month, day }
}

#[test]
fn relative_words_name_days_from_today() {
    let today = day(2026, 7, 14);
    let (d, source, c) = detect_date_at("明天交", today).unwrap();
    assert_eq!((d, source.as_str(), c), (day(2026, 7, 15), "明天", Confidence { numerator: 96, denominator: 100 }));
    let (d, source, _) = detect_date_at("今天和明天", today).unwrap();
    assert_eq!((d, source.as_str()), (today, "今天"));
    assert_eq!(detect_date_at("后天", today).unwrap().0, day(2026, 7, 16));
    assert_eq!(detect_date_at("下周再说", today).unwrap().0, day(2026, 7, 21));
}

#[test]
fn month_end_is_the_last_day_of_the_month() {
    assert_eq!(detect_date_at("月底前", day(2026, 2, 3)).unwrap().0, day(2026, 2, 28));
    assert_eq!(detect_date_at("月底前", day(2024, 2, 3)).unwrap().0, day(2024, 2, 29));
    let (d, source, c) = detect_date_at("月底", day(2026, 12, 5)).unwrap();
    assert_eq!((d, source.as_str(), c.numerator), (day(2026, 12, 31), "月底", 90));
}

#[test]
fn full_and_short_dates_are_read() {
    let today = day(2026, 7, 14);
    let (d, source, c) = detect_date_at("截止 2026年8月3日 提交", today).unwrap();
    assert_eq!((d, source.as_str(), c.numerator), (day(2026, 8, 3), "明确日期", 99));
    assert_eq!(detect_date_at("2027-01-09", today).unwrap().0, day(2027, 1, 9));
    assert!(detect_date_at("2026-02-30", today).is_none());
    let (d, source, c) = detect_date_at("8月1日开会", today).unwrap();
    assert_eq!((d, source.as_str(), c.numerator), (day(2026, 8, 1), "月日", 92));
    assert_eq!(detect_date_at("1月5日", today).unwrap().0, day(2027, 1, 5));
    assert_eq!(detect_date_at("6月20日", today).unwrap().0, day(2026, 6, 20));
    assert!(detect_date_at("没有日期", today).is_none());
}

#[test]
fn numbers_parse_as_std_reads_them() {
    assert_eq!(parse_u32("42"), Some(42));
    assert_eq!(parse_u32("+7"), Some(7));
    assert_eq!(parse_u32("4294967295"), Some(u32::MAX));
    assert_eq!(parse_u32("4294967296"), None);
    assert_eq!(parse_u32(""), None);
    assert_eq!(parse_u32("-1"), None);
    assert_eq!(parse_u32("١٢"), None);
    assert_eq!(parse_i32("-2147483648"), Some(i32::MIN));
    assert_eq!(parse_i32("2147483648"), None);
    assert_eq!(parse_i32("-"), None);
}

#[test]
fn entities_are_found_once_in_order() {
    let text = "见 https://example.com/a 或写信 me@x.cn，电话 13812345678";
    let found = detect_entities(text);
    let kinds: Vec<&str> = found.iter().map(|e| e.entity_type.as_str()).collect();
    assert_eq!(kinds, vec!["url", "email", "phone"]);
    assert_eq!(found[0].value, "https://example.com/a");
    assert_eq!(&text[found[1].start_offset..found[1].end_offset], "me@x.cn");
    assert!(found.windows(2).all(|w| w[0].start_offset <= w[1].start_offset));
}

#[test]
fn tag_candidates_prefer_known_tags_then_frequent_tokens() {
    let tags = vec![Tag { id: "t".into(), name: " Rust ".into(), created_at: String::new(), updated_at: String::new() }];
    let c = tag_candidates("rust 发布 发布 发布", &tags);
    assert_eq!(c[0].name, "Rust");
    assert_eq!(c[0].confidence, Confidence { numerator: 94, denominator: 100 });
    assert!(c.iter().any(|x| x.name == "发布" && x.confidence.numerator == 76));
    assert!(c.len() <= 5);
    assert!(tag_candidates("需要需要", &vec![]).is_empty());
}

#[test]
fn similarity_is_shared_over_all_trigrams() {
    let same = title_similarity("Windows 发布计划", "windows发布计划");
    assert_eq!(same.numerator, same.denominator);
    let half = title_similarity("abcd", "abce");
    assert_eq!((half.numerator, half.denominator), (1, 3));
    let other = title_similarity("abce", "abcd");
    assert_eq!((other.numerator, other.denominator), (half.numerator, half.denominator));
    let none = title_similarity("项目计划", "xyz");
    assert_eq!(none.numerator, 0);
    assert!(none.denominator >= 1);
    let short = title_similarity("ab", "AB");
    assert_eq!((short.numerator, short.denominator), (1, 1));
    assert!(frac_less(1, 3, 72, 100));
    assert!(!frac_less(18, 25, 72, 100));
}

#[test]
fn archive_is_proposed_for_old_notes_only() {
    let mut old = note("旧内容");
    old.updated_at = "2000-01-01T00:00:00+00:00".into();
    let r = RuleOrganizer.analyze(&old, &OrganizerContext { archive_days: 30, ..Default::default() });
    let archive = r.suggestions.iter().find(|s| s.kind == "archive").unwrap();
    assert_eq!(archive.label, "超过 30 天未修改，建议归档");
    assert!(matches!(archive.value, SuggestionValue::Archive));
    let fresh = RuleOrganizer.analyze(&note("新内容"), &OrganizerContext::default());
    assert!(!fresh.suggestions.iter().any(|s| s.kind == "archive"));
    old.is_favorite = true;
    let kept = RuleOrganizer.analyze(&old, &OrganizerContext::default());
    assert!(!kept.suggestions.iter().any(|s| s.kind == "archive"));
}

#[test]
fn proposals_carry_distinct_ids_and_labels() {
    let mut n = note("记得明天提交，已完成");
    n.is_todo = true;
    let r = RuleOrganizer.analyze(&n, &OrganizerContext::default());
    let due = r.suggestions.iter().find(|s| s.kind == "due_date").unwrap();
    assert!(due.label.starts_with("根据“明天”设置截止日期为 "));
    assert!(r.suggestions.iter().any(|s| s.kind == "todo_status"));
    assert!(!r.suggestions.iter().any(|s| s.kind == "todo"));
    let mut ids: Vec<&str> = r.suggestions.iter().map(|s| s.id.as_str()).collect();
    ids.sort();
    ids.dedup();
    assert_eq!(ids.len(), r.suggestions.len());
}

#[test]
fn tied_categories_are_not_proposed() {
    let cat = |id: &str| Category {
        id: id.into(),
        name: id.into(),
        color: String::new(),
        sort_order: 0,
        created_at: String::new(),
        updated_at: String::new(),
    };
    let context = OrganizerContext {
        categories: vec![cat("a"), cat("b")],
        category_keywords: vec![
            CategoryKeywords { category_id: "a".into(), keywords: vec!["项目".into(), "发布".into()] },
            CategoryKeywords { category_id: "b".into(), keywords: vec!["项目".into(), "发布".into()] },
        ],
        ..Default::default()
    };
    let r = RuleOrganizer.analyze(&note("项目发布"), &context);
    assert!(!r.suggestions.iter().any(|s| s.kind == "category"));
}

#[test]
fn date_rules_work_at_the_ends_of_the_calendar() {
    let first = Date { year: -262143, month: 1, day: 1 };
    let last = Date { year: 262142, month: 12, day: 31 };
    assert_eq!(detect_date_at("今天", first).unwrap().0, first);
    assert_eq!(detect_date_at("2026-07-15", first).unwrap().0, day(2026, 7, 15));
    assert_eq!(detect_date_at("今天", last).unwrap().0, last);
    let ids: Vec<String> = (0..11).map(|i| format!("id-{}", i)).collect();
    let r = RuleOrganizer.analyze_at(&note("今天交"), &OrganizerContext::default(), first, None, &ids);
    assert!(r.suggestions.iter().any(|s| s.kind == "due_date"));
    let r = RuleOrganizer.analyze_at(&note("明天交"), &OrganizerContext::default(), last, None, &ids);
    assert!(!r.suggestions.iter().any(|s| s.kind == "due_date"));
}
