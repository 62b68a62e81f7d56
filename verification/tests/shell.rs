use shanji::error::AppError;
use shanji::files::{backup_manifest, check_backup, markdown_of, safe_filename, RegexLike};
use shanji::models::{AppSettings, Category, Note, Tag};
use shanji::repo::Database;
use shanji::shell::{
    autostart_error, close_event, hides_on_blur, quick_window_position, quick_window_recenters, save_announces_change,
    settings_plan, shortcut_error, starts_hidden, toggle_asks_to_hide, tray_action, NoopReminderScheduler,
    ReminderScheduler, ShellAction,
};

#[test]
fn quick_window_is_centered_in_the_work_area() {
    assert_eq!(quick_window_position(0, 0, 1920, 1080, 640, 480), (640, 300));
    assert_eq!(quick_window_position(-1920, 100, 1920, 1080, 641, 480), (-1281, 400));
}

#[test]
fn quick_window_larger_than_the_area_sits_at_its_start() {
    assert_eq!(quick_window_position(100, 50, 400, 300, 800, 600), (100, 50));
}

#[test]
fn pinned_quick_window_keeps_its_place() {
    assert!(!quick_window_recenters(Some(true)));
    assert!(quick_window_recenters(Some(false)));
    assert!(quick_window_recenters(None));
}

#[test]
fn closing_windows_asks_for_the_right_thing() {
    assert_eq!(close_event("quick", Some("quit")), Some("quick:toggle-request".to_string()));
    assert_eq!(close_event("main", Some("tray")), Some("main:hide-request".to_string()));
    assert_eq!(close_event("main", None), Some("main:hide-request".to_string()));
    assert_eq!(close_event("main", Some("quit")), Some("app:quit-request".to_string()));
    assert_eq!(close_event("other", None), None);
}

#[test]
fn losing_focus_hides_only_an_unpinned_quick_window() {
    assert!(hides_on_blur("quick", true, Some((true, false))));
    assert!(!hides_on_blur("quick", true, Some((true, true))));
    assert!(!hides_on_blur("quick", true, Some((false, false))));
    assert!(hides_on_blur("quick", true, None));
    assert!(!hides_on_blur("quick", false, None));
    assert!(!hides_on_blur("main", true, Some((true, false))));
}

#[test]
fn tray_entries_map_to_actions() {
    assert_eq!(tray_action("quick_new"), Some(ShellAction::ShowQuick(true)));
    assert_eq!(tray_action("open_main"), Some(ShellAction::ShowMain));
    assert_eq!(tray_action("toggle_quick"), Some(ShellAction::ToggleQuick));
    assert_eq!(tray_action("settings"), Some(ShellAction::ShowSettings));
    assert_eq!(tray_action("quit"), Some(ShellAction::Quit));
    assert_eq!(tray_action("nothing"), None);
    assert!(toggle_asks_to_hide(Some(true)));
    assert!(!toggle_asks_to_hide(None));
}

#[test]
fn launch_and_save_decisions() {
    assert!(starts_hidden(&vec!["app".to_string(), "--background".to_string()]));
    assert!(!starts_hidden(&vec!["app".to_string()]));
    assert!(save_announces_change("saved"));
    assert!(save_announces_change("created"));
    assert!(!save_announces_change("conflict"));
}

#[test]
fn settings_changes_plan_their_steps() {
    let db = Database::in_memory().unwrap();
    let before: AppSettings = db.get_settings().unwrap();
    let mut after = db.get_settings().unwrap();
    after.shortcut = "Alt+Space".into();
    after.autostart = true;
    let plan = settings_plan(&before, &after);
    assert_eq!(plan.register, Some("Alt+Space".to_string()));
    assert_eq!(plan.autostart, Some(true));
    assert_eq!(plan.release_on_failure, Some("Alt+Space".to_string()));
    assert_eq!(plan.release_after, Some("Ctrl+Shift+Space".to_string()));
    let same = settings_plan(&before, &db.get_settings().unwrap());
    assert!(same.register.is_none() && same.autostart.is_none() && same.release_after.is_none());
    assert_eq!(shortcut_error("busy"), "快捷键不可用：busy");
    assert_eq!(autostart_error("denied"), "更新开机启动失败：denied");
}

#[test]
fn file_names_are_made_safe() {
    assert_eq!(RegexLike::sanitize("a<b>c:d\"e/f\\g|h?i*j\u{7}k"), "a_b_c_d_e_f_g_h_i_j_k");
    assert_eq!(safe_filename("  计划/草稿  ", "0123456789abcdef"), "计划_草稿-01234567.md");
    assert_eq!(safe_filename("   ", "ab"), "未命名-ab.md");
    let long: String = std::iter::repeat('长').take(70).collect();
    let name = safe_filename(&long, "id");
    assert_eq!(name.chars().count(), 60 + "-id.md".chars().count());
}

#[test]
fn notes_export_as_markdown() {
    let note = Note {
        id: "n1".into(),
        title: "标题".into(),
        content: "正文".into(),
        category_id: Some("c".into()),
        category: Some(Category {
            id: "c".into(),
            name: "工作".into(),
            color: "slate".into(),
            sort_order: 0,
            created_at: "t0".into(),
            updated_at: "t0".into(),
        }),
        tags: vec![
            Tag { id: "a".into(), name: "甲".into(), created_at: String::new(), updated_at: String::new() },
            Tag { id: "b".into(), name: "say \"hi\"".into(), created_at: String::new(), updated_at: String::new() },
        ],
        is_favorite: false,
        is_todo: true,
        todo_status: "in_progress".into(),
        priority: "high".into(),
        due_date: None,
        completed_at: None,
        source: "main".into(),
        revision: 3,
        created_at: "t1".into(),
        updated_at: "t2".into(),
        deleted_at: None,
        archived_at: None,
    };
    let text = markdown_of(&note);
    assert_eq!(
        text,
        "---\nid: n1\ncreated_at: t1\nupdated_at: t2\ncategory: 工作\ntags: [\"甲\", \"say \\\"hi\\\"\"]\nis_todo: true\ntodo_status: in_progress\npriority: high\ndue_date: \n---\n\n# 标题\n\n正文\n"
    );
}

#[test]
fn backups_are_checked_before_restore() {
    let data = b"database bytes".to_vec();
    let manifest = backup_manifest(&data, "0.1.1", "now");
    assert_eq!(manifest.schema_version, 1);
    assert_eq!(manifest.database_sha256.len(), 64);
    assert!(check_backup(&manifest, &data).is_ok());
    match check_backup(&manifest, b"other bytes") {
        Err(AppError::Validation(m)) => assert_eq!(m, "备份文件校验失败，未执行恢复"),
        _ => panic!("expected a checksum error"),
    }
    let mut old = backup_manifest(&data, "0.1.1", "now");
    old.schema_version = 2;
    match check_backup(&old, &data) {
        Err(AppError::Validation(m)) => assert_eq!(m, "备份数据库版本不受支持"),
        _ => panic!("expected a version error"),
    }
}

#[test]
fn markdown_export_lists_notes_in_use_and_archived() {
    let mut db = Database::in_memory().unwrap();
    let a = db.save_note(shanji::models::SaveNoteInput { title: "甲".into(), ..Default::default() }).unwrap().note;
    let b = db.save_note(shanji::models::SaveNoteInput { title: "乙".into(), ..Default::default() }).unwrap().note;
    db.soft_delete(&b.id).unwrap();
    let files = db.markdown_files();
    assert_eq!(files.len(), 1);
    assert!(files[0].name.starts_with("甲-"));
    assert!(files[0].text.contains(&a.id));
}

#[test]
fn the_noop_scheduler_accepts_everything() {
    let s = NoopReminderScheduler;
    assert!(s.cancel("x").is_ok());
}
