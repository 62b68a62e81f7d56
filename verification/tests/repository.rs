use shanji::error::AppError;
use shanji::models::{
    AppSettings, Category, ExportEnvelope, Note, OrganizerResult, SaveNoteInput, SearchQuery, Suggestion,
    SuggestionValue, Tag, Confidence,
};
use shanji::dates::Date;
use shanji::repo::{today_flags_of, Database};
use shanji::suggest::fingerprint_of;

fn input(title: &str) -> SaveNoteInput {
    SaveNoteInput { title: title.to_string(), ..Default::default() }
}

#[test]
fn migrates_and_saves_note_with_tags() {
    let mut db = Database::in_memory().unwrap();
    let saved = db
        .save_note(SaveNoteInput {
            title: "测试笔记".into(),
            content: "明天提交方案".into(),
            tag_names: vec!["工作".into(), "工作".into()],
            ..Default::default()
        })
        .unwrap();
    assert_eq!(saved.status, "created");
    assert_eq!(saved.note.tags.len(), 1);
    assert_eq!(db.list_notes("all", 20).unwrap().len(), 1);
}

#[test]
fn detects_revision_conflict() {
    let mut db = Database::in_memory().unwrap();
    let first = db.save_note(SaveNoteInput { title: "A".into(), ..Default::default() }).unwrap().note;
    let changed = db
        .save_note(SaveNoteInput {
            id: Some(first.id.clone()),
            expected_revision: Some(first.revision),
            title: "B".into(),
            ..Default::default()
        })
        .unwrap()
        .note;
    let conflict = db
        .save_note(SaveNoteInput {
            id: Some(first.id),
            expected_revision: Some(0),
            title: "C".into(),
            ..Default::default()
        })
        .unwrap();
    assert_eq!(conflict.status, "conflict");
    assert_eq!(conflict.note.title, changed.title);
}

#[test]
fn completed_at_is_not_reset_by_later_edits() {
    let mut db = Database::in_memory().unwrap();
    let completed = db
        .save_note(SaveNoteInput {
            title: "已完成事项".into(),
            is_todo: true,
            todo_status: "completed".into(),
            ..Default::default()
        })
        .unwrap()
        .note;
    let completed_at = completed.completed_at.clone();
    let edited = db
        .save_note(SaveNoteInput {
            id: Some(completed.id),
            expected_revision: Some(completed.revision),
            title: "补充说明".into(),
            is_todo: true,
            todo_status: "completed".into(),
            ..Default::default()
        })
        .unwrap()
        .note;
    assert_eq!(edited.completed_at, completed_at);
}

#[test]
fn short_chinese_search_uses_fallback() {
    let mut db = Database::in_memory().unwrap();
    db.save_note(SaveNoteInput { title: "项目计划".into(), content: "准备发布".into(), ..Default::default() }).unwrap();
    let results = db.search(SearchQuery { query: "项目".into(), ..Default::default() }).unwrap();
    assert_eq!(results.len(), 1);
}

#[test]
fn quick_window_pin_setting_is_persisted() {
    let mut db = Database::in_memory().unwrap();
    let mut settings = db.get_settings().unwrap();
    assert!(!settings.quick_pinned);

    settings.quick_pinned = true;
    db.update_settings(&settings).unwrap();

    assert!(db.get_settings().unwrap().quick_pinned);
}

#[test]
fn chinese_trigram_search_uses_fts_when_available() {
    let mut db = Database::in_memory().unwrap();
    db.save_note(SaveNoteInput {
        title: "项目发布计划".into(),
        content: "准备 Windows 安装包".into(),
        ..Default::default()
    })
    .unwrap();
    let results = db.search(SearchQuery { query: "发布计划".into(), ..Default::default() }).unwrap();
    assert_eq!(results.len(), 1);
}

#[test]
fn indexed_search_reads_the_index_answer() {
    let mut db = Database::in_memory().unwrap();
    let a = db
        .save_note(SaveNoteInput { title: "项目发布计划".into(), content: "准备 Windows 安装包".into(), ..Default::default() })
        .unwrap()
        .note;
    let b = db.save_note(SaveNoteInput { title: "发布计划草稿".into(), ..Default::default() }).unwrap().note;
    let answer = vec![b.id.clone(), "missing".to_string(), a.id.clone()];
    let results = db
        .search_indexed(SearchQuery { query: "发布计划".into(), ..Default::default() }, Some(&answer))
        .unwrap();
    let ids: Vec<String> = results.iter().map(|r| r.note.id.clone()).collect();
    assert_eq!(ids, vec![b.id.clone(), a.id.clone()]);
    let only = vec![a.id.clone()];
    let results = db
        .search_indexed(SearchQuery { query: "发布计划".into(), ..Default::default() }, Some(&only))
        .unwrap();
    assert_eq!(results.len(), 1);
    let short = db.search_indexed(SearchQuery { query: "发布".into(), ..Default::default() }, Some(&only)).unwrap();
    assert_eq!(short.len(), 2);
}

#[test]
fn permanent_delete_of_a_live_note_keeps_it() {
    let mut db = Database::in_memory().unwrap();
    let a = db.save_note(input("发布计划")).unwrap().note;
    db.permanently_delete(&a.id).unwrap();
    assert_eq!(db.get_note(&a.id).unwrap().revision, a.revision);
    let found = db.search(SearchQuery { query: "发布计划".into(), ..Default::default() }).unwrap();
    assert_eq!(found.len(), 1);
}

#[test]
fn delete_and_restore_round_trip() {
    let mut db = Database::in_memory().unwrap();
    let note = db.save_note(SaveNoteInput { title: "恢复我".into(), ..Default::default() }).unwrap().note;
    db.soft_delete(&note.id).unwrap();
    assert_eq!(db.list_notes("trash", 20).unwrap().len(), 1);
    db.restore_note(&note.id).unwrap();
    assert_eq!(db.list_notes("all", 20).unwrap().len(), 1);
}

fn due_date_suggestion() -> Suggestion {
    Suggestion {
        id: uuid::Uuid::new_v4().to_string(),
        kind: "due_date".into(),
        label: "设置截止日期".into(),
        value: SuggestionValue::DueDate { due_date: "2026-07-15".into() },
        confidence: Confidence { numerator: 95, denominator: 100 },
        rule_id: "date-keyword-v1".into(),
    }
}

#[test]
fn organizer_suggestion_status_is_persisted() {
    let mut db = Database::in_memory().unwrap();
    let note = db.save_note(SaveNoteInput { title: "明天提交方案".into(), ..Default::default() }).unwrap().note;
    let analysis = OrganizerResult { suggestions: vec![due_date_suggestion()], entities: vec![] };
    let first = db.persist_organizer_result(&note.id, &analysis).unwrap();
    assert_eq!(first.suggestions.len(), 1);
    db.set_suggestion_status(&first.suggestions[0].id, "dismissed").unwrap();

    let repeated = db.persist_organizer_result(&note.id, &analysis).unwrap();
    assert!(repeated.suggestions.is_empty());
}

// ---------------------------------------------------------------------------
// Saving.
// ---------------------------------------------------------------------------

#[test]
fn saved_note_reads_back() {
    let mut db = Database::in_memory().unwrap();
    let saved = db
        .save_note(SaveNoteInput {
            title: "读回".into(),
            content: "正文".into(),
            tag_names: vec!["甲".into(), " 乙 ".into()],
            ..Default::default()
        })
        .unwrap();
    let read = db.get_note(&saved.note.id).unwrap();
    assert_eq!(read.title, "读回");
    assert_eq!(read.content, "正文");
    assert_eq!(read.tags.len(), 2);
    assert_eq!(read.revision, saved.note.revision);
    assert_eq!(read.source, "main");
}

#[test]
fn each_update_raises_the_revision_by_one() {
    let mut db = Database::in_memory().unwrap();
    let first = db.save_note(input("一")).unwrap().note;
    assert_eq!(first.revision, 0);
    let second = db
        .save_note(SaveNoteInput {
            id: Some(first.id.clone()),
            expected_revision: Some(0),
            title: "二".into(),
            ..Default::default()
        })
        .unwrap();
    assert_eq!(second.status, "saved");
    assert_eq!(second.note.revision, 1);
}

#[test]
fn conflict_leaves_the_note_unchanged() {
    let mut db = Database::in_memory().unwrap();
    let first = db.save_note(input("原文")).unwrap().note;
    let answer = db
        .save_note(SaveNoteInput {
            id: Some(first.id.clone()),
            expected_revision: Some(7),
            title: "覆盖".into(),
            ..Default::default()
        })
        .unwrap();
    assert_eq!(answer.status, "conflict");
    assert_eq!(db.get_note(&first.id).unwrap().title, "原文");
    assert_eq!(db.get_note(&first.id).unwrap().revision, 0);
}

#[test]
fn invalid_inputs_are_refused() {
    let mut db = Database::in_memory().unwrap();
    let bad_status = db.save_note(SaveNoteInput { todo_status: "later".into(), ..Default::default() });
    assert!(matches!(bad_status, Err(AppError::Validation(_))));
    let bad_priority = db.save_note(SaveNoteInput { priority: "critical".into(), ..Default::default() });
    assert!(matches!(bad_priority, Err(AppError::Validation(_))));
    let missing = db.save_note(SaveNoteInput { id: Some("nope".into()), ..Default::default() });
    assert!(matches!(missing, Err(AppError::NotFound)));
    let blank_tag = db.save_note(SaveNoteInput { tag_names: vec!["   ".into(), "甲".into()], ..Default::default() });
    assert_eq!(blank_tag.unwrap().note.tags.len(), 1);
}

#[test]
fn unknown_category_breaks_the_foreign_key() {
    let mut db = Database::in_memory().unwrap();
    let r = db.save_note(SaveNoteInput { category_id: Some("missing".into()), ..Default::default() });
    match r {
        Err(AppError::Database(m)) => assert_eq!(m, "FOREIGN KEY constraint failed"),
        other => panic!("unexpected {:?}", other.map(|x| x.status)),
    }
}

#[test]
fn completing_a_todo_stamps_it() {
    let mut db = Database::in_memory().unwrap();
    let n = db
        .save_note(SaveNoteInput { is_todo: true, todo_status: "completed".into(), ..Default::default() })
        .unwrap()
        .note;
    assert!(n.completed_at.is_some());
    let reopened = db
        .save_note(SaveNoteInput {
            id: Some(n.id.clone()),
            is_todo: true,
            todo_status: "in_progress".into(),
            ..Default::default()
        })
        .unwrap()
        .note;
    assert!(reopened.completed_at.is_none());
}

// ---------------------------------------------------------------------------
// Lists, archive, trash.
// ---------------------------------------------------------------------------

#[test]
fn archive_moves_a_note_between_lists() {
    let mut db = Database::in_memory().unwrap();
    let n = db.save_note(input("归档我")).unwrap().note;
    let archived = db.set_archived(&n.id, true).unwrap();
    assert!(archived.archived_at.is_some());
    assert_eq!(archived.revision, 1);
    assert_eq!(db.list_notes("all", 20).unwrap().len(), 0);
    assert_eq!(db.list_notes("archive", 20).unwrap().len(), 1);
    db.set_archived(&n.id, false).unwrap();
    assert_eq!(db.list_notes("all", 20).unwrap().len(), 1);
}

#[test]
fn lists_by_favorite_and_todo() {
    let mut db = Database::in_memory().unwrap();
    db.save_note(SaveNoteInput { is_favorite: true, ..input("收藏") }).unwrap();
    db.save_note(SaveNoteInput { is_todo: true, ..input("待办") }).unwrap();
    db.save_note(input("普通")).unwrap();
    assert_eq!(db.list_notes("favorite", 20).unwrap().len(), 1);
    assert_eq!(db.list_notes("todo", 20).unwrap().len(), 1);
    assert_eq!(db.list_notes("all", 20).unwrap().len(), 3);
    assert_eq!(db.list_notes("all", 2).unwrap().len(), 2);
}

#[test]
fn permanent_delete_takes_only_trashed_notes() {
    let mut db = Database::in_memory().unwrap();
    let n = db.save_note(input("留下")).unwrap().note;
    db.permanently_delete(&n.id).unwrap();
    assert!(db.get_note(&n.id).is_ok());
    db.soft_delete(&n.id).unwrap();
    db.permanently_delete(&n.id).unwrap();
    assert!(matches!(db.get_note(&n.id), Err(AppError::NotFound)));
}

// ---------------------------------------------------------------------------
// Categories and tags.
// ---------------------------------------------------------------------------

#[test]
fn categories_are_created_listed_and_deleted() {
    let mut db = Database::in_memory().unwrap();
    let work = db.create_category("工作", "slate").unwrap();
    let life = db.create_category("生活", "green").unwrap();
    assert_eq!(work.sort_order, 0);
    assert_eq!(life.sort_order, 1);
    let n = db.save_note(SaveNoteInput { category_id: Some(work.id.clone()), ..input("分类") }).unwrap().note;
    assert_eq!(n.category.as_ref().map(|c| c.name.clone()), Some("工作".to_string()));
    let names: Vec<String> = db.list_categories().unwrap().into_iter().map(|c: Category| c.name).collect();
    assert_eq!(names, vec!["工作".to_string(), "生活".to_string()]);
    db.delete_category(&work.id).unwrap();
    assert_eq!(db.get_note(&n.id).unwrap().category_id, None);
    assert_eq!(db.list_categories().unwrap().len(), 1);
}

#[test]
fn duplicate_category_names_are_refused() {
    let mut db = Database::in_memory().unwrap();
    db.create_category("工作", "slate").unwrap();
    assert!(db.create_category(" 工作 ", "slate").is_err());
    assert!(matches!(db.create_category("  ", "slate"), Err(AppError::Validation(_))));
}

#[test]
fn tags_are_listed_and_deleted() {
    let mut db = Database::in_memory().unwrap();
    let n = db.save_note(SaveNoteInput { tag_names: vec!["beta".into(), "Alpha".into()], ..input("标签") }).unwrap().note;
    let tags: Vec<Tag> = db.list_tags().unwrap();
    let names: Vec<String> = tags.iter().map(|t| t.name.clone()).collect();
    assert_eq!(names, vec!["Alpha".to_string(), "beta".to_string()]);
    db.delete_tag(&tags[0].id).unwrap();
    assert_eq!(db.get_note(&n.id).unwrap().tags.len(), 1);
}

// ---------------------------------------------------------------------------
// Search.
// ---------------------------------------------------------------------------

#[test]
fn search_needs_every_term_and_records_history() {
    let mut db = Database::in_memory().unwrap();
    db.save_note(SaveNoteInput { title: "项目计划".into(), content: "准备发布".into(), ..Default::default() }).unwrap();
    db.save_note(SaveNoteInput { title: "项目总结".into(), ..Default::default() }).unwrap();
    let both = db.search(SearchQuery { query: "项目 发布".into(), ..Default::default() }).unwrap();
    assert_eq!(both.len(), 1);
    assert_eq!(both[0].matched_terms, vec!["项目".to_string(), "发布".to_string()]);
    db.search(SearchQuery { query: "项目 发布".into(), ..Default::default() }).unwrap();
    let history = db.search_history().unwrap();
    assert_eq!(history.len(), 1);
    assert_eq!(history[0].query, "项目 发布");
    db.search(SearchQuery { query: " 项目 发布 ".into(), ..Default::default() }).unwrap();
    let history = db.search_history().unwrap();
    assert_eq!(history.len(), 2);
    assert_eq!(history[0].query, "项目 发布");
    db.clear_search_history().unwrap();
    assert!(db.search_history().unwrap().is_empty());
}

#[test]
fn history_keeps_the_twenty_latest_searches() {
    let mut db = Database::in_memory().unwrap();
    for i in 0..25 {
        db.search(SearchQuery { query: format!("词{}", i), ..Default::default() }).unwrap();
    }
    let history = db.search_history().unwrap();
    assert_eq!(history.len(), 20);
    db.search(SearchQuery { query: "词24".into(), ..Default::default() }).unwrap();
    let history = db.search_history().unwrap();
    assert_eq!(history.len(), 20);
    assert_eq!(history[0].query, "词24");
    assert_eq!(history.iter().filter(|h| h.query == "词24").count(), 1);
}

#[test]
fn search_filters_by_favorite_and_limit() {
    let mut db = Database::in_memory().unwrap();
    db.save_note(SaveNoteInput { is_favorite: true, ..input("甲记录") }).unwrap();
    db.save_note(input("乙记录")).unwrap();
    let fav = db.search(SearchQuery { query: "记录".into(), is_favorite: Some(true), ..Default::default() }).unwrap();
    assert_eq!(fav.len(), 1);
    let one = db.search(SearchQuery { query: "记录".into(), limit: Some(1), ..Default::default() }).unwrap();
    assert_eq!(one.len(), 1);
    let blank = db.search(SearchQuery::default()).unwrap();
    assert_eq!(blank.len(), 2);
    assert!(db.search_history().unwrap().len() == 2);
}

// ---------------------------------------------------------------------------
// Settings.
// ---------------------------------------------------------------------------

#[test]
fn new_store_reads_back_its_defaults() {
    let db = Database::in_memory().unwrap();
    let s = db.get_settings().unwrap();
    assert_eq!(s.theme, "light");
    assert_eq!(s.close_behavior, "tray");
    assert!(s.hide_on_blur);
    assert!(!s.autostart);
    assert_eq!(s.shortcut, "Ctrl+Shift+Space");
    assert_eq!(s.quick_active_note_id, None);
    assert!(s.organizer_enabled);
    assert_eq!(s.archive_days, 90);
}

#[test]
fn settings_read_back_as_written() {
    let mut db = Database::in_memory().unwrap();
    let s = AppSettings {
        theme: "dark \"夜\"".into(),
        close_behavior: "quit".into(),
        hide_on_blur: false,
        quick_pinned: true,
        autostart: true,
        shortcut: "Alt+Space".into(),
        quick_active_note_id: Some("note-9".into()),
        organizer_enabled: false,
        archive_days: -3,
    };
    db.update_settings(&s).unwrap();
    let r = db.get_settings().unwrap();
    assert_eq!(r.theme, s.theme);
    assert_eq!(r.close_behavior, "quit");
    assert!(!r.hide_on_blur && r.quick_pinned && r.autostart && !r.organizer_enabled);
    assert_eq!(r.shortcut, "Alt+Space");
    assert_eq!(r.quick_active_note_id, Some("note-9".to_string()));
    assert_eq!(r.archive_days, -3);
}

// ---------------------------------------------------------------------------
// Suggestions.
// ---------------------------------------------------------------------------

#[test]
fn suggestion_status_must_be_a_decision() {
    let mut db = Database::in_memory().unwrap();
    let r = db.set_suggestion_status("x", "maybe");
    match r {
        Err(AppError::Validation(m)) => assert_eq!(m, "无效的建议状态"),
        _ => panic!("expected a validation error"),
    }
    assert!(matches!(db.set_suggestion_status("x", "accepted"), Err(AppError::NotFound)));
}

#[test]
fn pending_suggestions_are_replaced_and_keep_their_row() {
    let mut db = Database::in_memory().unwrap();
    let note = db.save_note(input("笔记")).unwrap().note;
    let a = OrganizerResult { suggestions: vec![due_date_suggestion()], entities: vec![] };
    let first = db.persist_organizer_result(&note.id, &a).unwrap();
    let b = OrganizerResult { suggestions: vec![due_date_suggestion()], entities: vec![] };
    let second = db.persist_organizer_result(&note.id, &b).unwrap();
    assert_eq!(second.suggestions.len(), 1);
    assert_eq!(second.suggestions[0].id, b.suggestions[0].id);
    assert_ne!(first.suggestions[0].id, second.suggestions[0].id);
}

#[test]
fn results_for_a_missing_note_are_refused() {
    let mut db = Database::in_memory().unwrap();
    let a = OrganizerResult { suggestions: vec![due_date_suggestion()], entities: vec![] };
    match db.persist_organizer_result("ghost", &a) {
        Err(AppError::Database(m)) => assert_eq!(m, "FOREIGN KEY constraint failed"),
        _ => panic!("expected a foreign key error"),
    }
}

#[test]
fn fingerprints_follow_kind_rule_and_value() {
    let a = due_date_suggestion();
    let mut b = due_date_suggestion();
    assert_eq!(fingerprint_of(&a), fingerprint_of(&b));
    assert_eq!(fingerprint_of(&a).len(), 64);
    b.value = SuggestionValue::DueDate { due_date: "2026-07-16".into() };
    assert_ne!(fingerprint_of(&a), fingerprint_of(&b));
    assert_eq!(shanji::suggest::value_json_of(&a.value), "{\"dueDate\":\"2026-07-15\"}");
    assert_eq!(
        shanji::suggest::value_json_of(&SuggestionValue::Category {
            category_id: "c\"1".into(),
            category_name: "工作".into()
        }),
        "{\"categoryId\":\"c\\\"1\",\"categoryName\":\"工作\"}"
    );
}

#[test]
fn analyze_note_stores_entities_and_proposals() {
    let mut db = Database::in_memory().unwrap();
    let note = db
        .save_note(SaveNoteInput { content: "记得明天联系 test@example.com".into(), ..input("计划") })
        .unwrap()
        .note;
    let r = db.analyze_note(&note.id).unwrap();
    assert!(r.suggestions.iter().any(|s| s.kind == "due_date"));
    assert!(r.entities.iter().any(|e| e.entity_type == "email"));
    let again = db.analyze_note(&note.id).unwrap();
    assert_eq!(again.suggestions.len(), r.suggestions.len());
    let mut s = db.get_settings().unwrap();
    s.organizer_enabled = false;
    db.update_settings(&s).unwrap();
    let off = db.analyze_note(&note.id).unwrap();
    assert!(off.suggestions.is_empty() && off.entities.is_empty());
    assert!(matches!(db.analyze_note("missing"), Err(AppError::NotFound)));
}

#[test]
fn keyword_profiles_count_notes_per_category() {
    let mut db = Database::in_memory().unwrap();
    let work = db.create_category("工作", "slate").unwrap();
    db.save_note(SaveNoteInput { category_id: Some(work.id.clone()), content: "项目 发布".into(), ..input("周报") }).unwrap();
    db.save_note(SaveNoteInput { category_id: Some(work.id.clone()), content: "项目".into(), ..input("会议") }).unwrap();
    db.save_note(input("无分类")).unwrap();
    let profiles = db.category_keyword_profiles().unwrap();
    assert_eq!(profiles.len(), 1);
    assert_eq!(profiles[0].category_id, work.id);
    assert_eq!(profiles[0].keywords[0], "项目");
    assert!(profiles[0].keywords.len() <= 20);
    let quiet = db.create_category("杂项", "green").unwrap();
    db.save_note(SaveNoteInput { category_id: Some(quiet.id.clone()), ..input("x") }).unwrap();
    let profiles = db.category_keyword_profiles().unwrap();
    assert_eq!(profiles.len(), 1);
    assert_eq!(profiles[0].category_id, work.id);
}

#[test]
fn other_titles_skip_the_note_untitled_and_trashed() {
    let mut db = Database::in_memory().unwrap();
    let a = db.save_note(input("甲")).unwrap().note;
    let b = db.save_note(input("乙")).unwrap().note;
    db.save_note(input("")).unwrap();
    let c = db.save_note(input("丙")).unwrap().note;
    db.soft_delete(&c.id).unwrap();
    let others = db.other_titles(&a.id).unwrap();
    assert_eq!(others, vec![(b.id.clone(), "乙".to_string())]);
}

// ---------------------------------------------------------------------------
// Export and import.
// ---------------------------------------------------------------------------

#[test]
fn export_holds_every_note_once() {
    let mut db = Database::in_memory().unwrap();
    let a = db.save_note(input("在用")).unwrap().note;
    let b = db.save_note(input("归档")).unwrap().note;
    let c = db.save_note(input("删除")).unwrap().note;
    db.set_archived(&b.id, true).unwrap();
    db.soft_delete(&c.id).unwrap();
    let e: ExportEnvelope = db.export_envelope("0.1.1").unwrap();
    assert_eq!(e.schema_version, 1);
    assert_eq!(e.app_version, "0.1.1");
    let ids: Vec<String> = e.notes.iter().map(|n: &Note| n.id.clone()).collect();
    assert_eq!(ids, vec![a.id, b.id, c.id]);
}

#[test]
fn import_skips_unchanged_and_copies_conflicts() {
    let mut source = Database::in_memory().unwrap();
    let work = source.create_category("工作", "slate").unwrap();
    source
        .save_note(SaveNoteInput { category_id: Some(work.id.clone()), tag_names: vec!["甲".into()], ..input("一") })
        .unwrap();
    let envelope = source.export_envelope("0.1.1").unwrap();

    let mut target = Database::in_memory().unwrap();
    let preview = target.preview_import(&envelope).unwrap();
    assert_eq!(preview.notes_to_create, 1);
    assert_eq!(preview.categories_to_merge, 1);
    let first = target.import_envelope(&envelope).unwrap();
    assert_eq!((first.created, first.skipped, first.copied_conflicts), (1, 0, 0));
    let imported = target.get_note(&envelope.notes[0].id).unwrap();
    assert_eq!(imported.source, "import");
    assert_eq!(imported.tags.len(), 1);
    assert_eq!(imported.category.map(|c| c.name), Some("工作".to_string()));

    let again = target.preview_import(&envelope).unwrap();
    assert_eq!(again.duplicates_to_skip, 1);
    let second = target.import_envelope(&envelope).unwrap();
    assert_eq!((second.created, second.skipped, second.copied_conflicts), (0, 1, 0));

    let mut changed = source.export_envelope("0.1.1").unwrap();
    changed.notes[0].title = "改过".into();
    let third = target.import_envelope(&changed).unwrap();
    assert_eq!((third.created, third.skipped, third.copied_conflicts), (0, 0, 1));
    assert_eq!(target.list_notes("all", 20).unwrap().len(), 2);
    assert_eq!(target.list_categories().unwrap().len(), 1);
}

#[test]
fn importing_own_export_skips_every_note() {
    let mut db = Database::in_memory().unwrap();
    db.save_note(SaveNoteInput { tag_names: vec!["甲".into()], ..input("一") }).unwrap();
    let gone = db.save_note(input("二")).unwrap().note;
    db.soft_delete(&gone.id).unwrap();
    let summary = |notes: Vec<Note>| -> Vec<(String, String, String, i64)> {
        notes.into_iter().map(|n| (n.id, n.title, n.content, n.revision)).collect()
    };
    let before = summary(db.list_notes("all", 20).unwrap());
    let envelope = db.export_envelope("0.1.1").unwrap();
    let preview = db.preview_import(&envelope).unwrap();
    assert_eq!((preview.notes_to_create, preview.duplicates_to_skip, preview.conflicts_as_copies), (0, 2, 0));
    let result = db.import_envelope(&envelope).unwrap();
    assert_eq!((result.created, result.skipped, result.copied_conflicts), (0, 2, 0));
    assert_eq!(summary(db.list_notes("all", 20).unwrap()), before);
    assert_eq!(db.list_notes("trash", 20).unwrap().len(), 1);
    assert_eq!(db.list_tags().unwrap().len(), 1);
}

#[test]
fn failed_import_changes_nothing() {
    let mut source = Database::in_memory().unwrap();
    source.save_note(input("一")).unwrap();
    source.save_note(SaveNoteInput { tag_names: vec!["甲".into()], ..input("二") }).unwrap();
    let mut envelope = source.export_envelope("0.1.1").unwrap();
    for n in envelope.notes.iter_mut() {
        for g in n.tags.iter_mut() {
            g.name = "  ".into();
        }
    }
    let mut target = Database::in_memory().unwrap();
    target.save_note(input("原有")).unwrap();
    match target.import_envelope(&envelope) {
        Err(AppError::Validation(m)) => assert_eq!(m, "标签名称不能为空"),
        _ => panic!("expected a validation error"),
    }
    assert_eq!(target.list_notes("all", 20).unwrap().len(), 1);
    assert!(target.list_tags().unwrap().is_empty());
}

#[test]
fn preview_counts_what_the_import_does() {
    let mut source = Database::in_memory().unwrap();
    let kept = source.save_note(input("不变")).unwrap().note;
    let edited = source.save_note(input("原题")).unwrap().note;
    source.save_note(input("新的")).unwrap();
    let mut target = Database::in_memory().unwrap();
    let partial = ExportEnvelope {
        notes: source
            .export_envelope("0.1.1")
            .unwrap()
            .notes
            .into_iter()
            .filter(|n: &Note| n.id == kept.id || n.id == edited.id)
            .collect(),
        ..source.export_envelope("0.1.1").unwrap()
    };
    target.import_envelope(&partial).unwrap();
    let mut envelope = source.export_envelope("0.1.1").unwrap();
    for n in envelope.notes.iter_mut() {
        if n.id == edited.id {
            n.title = "改题".into();
        }
    }
    let preview = target.preview_import(&envelope).unwrap();
    let result = target.import_envelope(&envelope).unwrap();
    assert_eq!((preview.notes_to_create, preview.duplicates_to_skip, preview.conflicts_as_copies), (1, 1, 1));
    assert_eq!(
        (result.created, result.skipped, result.copied_conflicts),
        (preview.notes_to_create, preview.duplicates_to_skip, preview.conflicts_as_copies)
    );
}

#[test]
fn import_refuses_other_versions() {
    let mut db = Database::in_memory().unwrap();
    let mut e = db.export_envelope("0.1.1").unwrap();
    e.schema_version = 2;
    match db.import_envelope(&e) {
        Err(AppError::Validation(m)) => assert_eq!(m, "不支持的 JSON 数据版本"),
        _ => panic!("expected a version error"),
    }
    assert!(matches!(db.preview_import(&e), Err(AppError::Validation(_))));
}

#[test]
fn error_messages_read_as_the_app_shows_them() {
    assert_eq!(AppError::NotFound.message(), "记录不存在");
    assert_eq!(AppError::Database("x".into()).message(), "数据库错误：x");
    assert_eq!(AppError::Io("y".into()).message(), "文件操作失败：y");
    assert_eq!(AppError::Json("z".into()).message(), "数据格式错误：z");
    assert_eq!(AppError::Zip("w".into()).message(), "压缩包错误：w");
    assert_eq!(AppError::Validation("v".into()).message(), "v");
}

#[test]
fn today_flags_mark_rows_updated_on_the_local_day() {
    let today = Date { year: 2026, month: 7, day: 14 };
    let other = Date { year: 2026, month: 7, day: 13 };
    let local = vec![Some(today), Some(other), None];
    assert_eq!(today_flags_of("today", today, &local), vec![true, false, false]);
    assert_eq!(today_flags_of("all", today, &local), vec![false, false, false]);
    let mut db = Database::in_memory().unwrap();
    db.save_note(input("今天写的")).unwrap();
    assert_eq!(db.list_notes("today", 20).unwrap().len(), 1);
}

#[test]
fn history_filters_are_json_with_escapes() {
    let mut db = Database::in_memory().unwrap();
    db.search(SearchQuery { query: "a\"b\t".into(), ..Default::default() }).unwrap();
    let history = db.search_history().unwrap();
    assert!(history[0].filters_json.starts_with("{\"query\":\"a\\\"b\\t\",\"view\":null"));
}
