use ai_strategist::models::{
    CoreError, InstalledSkillSummary, SkillBackupSummary, SkillTranslationEntry,
    SkillTranslationRequestItem,
};
use ai_strategist::skill_translations::{
    clamp_mymemory_text, hash_text, load_cache, mymemory_http_error, mymemory_translation,
    needs_zh_translation, plan_translations, translate_summaries,
};
use ai_strategist::skills::{skill_entry_action, SkillEntryAction};
use ai_strategist::skills::{
    backup_corrupted, backup_not_found, find_installed_skill, first_markdown_heading,
    first_skill_summary_line, load_installed_skills, new_skill_backup_id, skill_backup_id,
    skill_summary_from, sort_backups_newest_first,
};

fn skill(name: &str, updated_at: Option<i64>) -> InstalledSkillSummary {
    InstalledSkillSummary {
        id: name.to_string(),
        name: name.to_string(),
        title: None,
        summary: None,
        relative_path: name.to_string(),
        directory_path: format!("/skills/{name}"),
        skill_file_path: format!("/skills/{name}/SKILL.md"),
        updated_at,
    }
}

fn chars(s: &str) -> Vec<char> {
    s.chars().collect()
}

#[test]
fn skill_file_gives_heading_and_first_prose_line() {
    let text = "---\nname: x\ndescription: front\n---\n\n# ## Title here\n\n- item\n```\nSummary line.\n";
    assert_eq!(first_markdown_heading(text).as_deref(), Some("Title here"));
    assert_eq!(first_skill_summary_line(text).as_deref(), Some("Summary line."));
    assert_eq!(first_markdown_heading("#\n## \nplain"), None);
    assert_eq!(first_skill_summary_line("# only\n* bullet\n"), None);
    let s = skill_summary_from(text, "x".into(), "team/x".into(), "/s/team/x".into(), "/s/team/x/SKILL.md".into(), Some(5));
    assert_eq!(s.id, "team/x");
    assert_eq!(s.title.as_deref(), Some("Title here"));
    assert_eq!(s.summary.as_deref(), Some("Summary line."));
    assert_eq!(s.updated_at, Some(5));
}

#[test]
fn installed_skills_are_newest_first_then_by_name() {
    let found = vec![
        skill("beta", Some(1)),
        skill("Alpha", Some(1)),
        skill("gamma", Some(9)),
        skill("delta", None),
        skill("alpha", Some(1)),
    ];
    let sorted = load_installed_skills(true, found.clone());
    let names: Vec<&str> = sorted.iter().map(|s| s.name.as_str()).collect();
    assert_eq!(names, vec!["gamma", "Alpha", "alpha", "beta", "delta"]);
    assert!(load_installed_skills(false, found).is_empty());
}

#[test]
fn summaries_worth_translating_are_mostly_english() {
    assert!(needs_zh_translation(&chars("Creates and edits spreadsheets")));
    assert!(!needs_zh_translation(&chars("short text")));
    assert!(!needs_zh_translation(&chars("这是一个很长的中文技能描述文字 abcdefghijkl")));
    assert!(needs_zh_translation(&chars("中文 abcdefghijklmnop")));
}

#[test]
fn text_sent_for_translation_is_cut_at_500_bytes() {
    assert_eq!(clamp_mymemory_text("  short  "), "short");
    let long = format!("{} tail", "é".repeat(260));
    let clamped = clamp_mymemory_text(&long);
    assert_eq!(clamped, "é".repeat(250));
    let spaced = format!("{}   {}", "a".repeat(498), "b".repeat(10));
    assert_eq!(clamp_mymemory_text(&spaced), "a".repeat(498));
}

#[test]
fn summary_hash_is_hex_sha256() {
    assert_eq!(
        hash_text("abc"),
        "ba7816bf8f01cfea414140de5dae2223b00361a396177a9cb410ff61f20015ad"
    );
    assert_eq!(
        hash_text(""),
        "e3b0c44298fc1c149afbf4c8996fb92427ae41e4649b934ca495991b7852b855"
    );
}

#[test]
fn translation_plan_skips_blank_chinese_and_cached_summaries() {
    let english = "Creates and edits spreadsheets";
    let cache = vec![(
        "cached".to_string(),
        SkillTranslationEntry {
            skill_id: "cached".into(),
            source_hash: hash_text(english),
            source: english.into(),
            zh: "已缓存".into(),
            updated_at: 1,
        },
    )];
    let items = vec![
        SkillTranslationRequestItem { id: "blank".into(), text: "   ".into() },
        SkillTranslationRequestItem { id: "zh".into(), text: "中文描述".into() },
        SkillTranslationRequestItem { id: "cached".into(), text: format!(" {english} ") },
        SkillTranslationRequestItem { id: "new".into(), text: format!("{english}\n") },
    ];
    let plan = plan_translations(&cache, &items);
    assert_eq!(plan.skipped_count, 3);
    assert_eq!(plan.pending.len(), 1);
    assert_eq!(plan.pending[0].skill_id, "new");
    assert_eq!(plan.pending[0].source, english);
    assert_eq!(plan.pending[0].source_hash, hash_text(english));

    let payload = translate_summaries(cache.clone(), plan, vec![Some("创建和编辑表格".into())], "/c.json".into());
    assert!(payload.configured);
    assert_eq!(payload.translated_count, 1);
    assert_eq!(payload.failed_count, 0);
    assert_eq!(payload.skipped_count, 3);
    assert_eq!(payload.translations.len(), 2);
    assert_eq!(payload.translations[1].0, "new");
    assert_eq!(payload.translations[1].1.zh, "创建和编辑表格");
    assert_eq!(payload.source_path, "/c.json");
}

#[test]
fn failed_translations_are_counted_and_a_new_one_replaces_the_old() {
    let english = "Creates and edits spreadsheets";
    let other = "Reviews pull requests carefully";
    let cache = vec![(
        "a".to_string(),
        SkillTranslationEntry {
            skill_id: "a".into(),
            source_hash: "old".into(),
            source: "old".into(),
            zh: "旧".into(),
            updated_at: 1,
        },
    )];
    let items = vec![
        SkillTranslationRequestItem { id: "a".into(), text: english.into() },
        SkillTranslationRequestItem { id: "b".into(), text: other.into() },
    ];
    let plan = plan_translations(&cache, &items);
    assert_eq!(plan.pending.len(), 2);
    let payload = translate_summaries(cache, plan, vec![Some("新".into()), None], "/c".into());
    assert_eq!(payload.translated_count, 1);
    assert_eq!(payload.failed_count, 1);
    assert_eq!(payload.translations.len(), 1);
    assert_eq!(payload.translations[0].1.zh, "新");
    assert_eq!(payload.translations[0].1.source_hash, hash_text(english));
    let loaded = load_cache(payload.translations.clone(), "/c".into());
    assert!(loaded.configured);
    assert_eq!(loaded.translations, payload.translations);
}

#[test]
fn service_answers_become_translations_or_errors() {
    assert_eq!(mymemory_translation(200, None, "  你好 ").unwrap(), "你好");
    match mymemory_translation(403, Some("QUOTA".into()), "x") {
        Err(CoreError::OperationFailed(m)) => assert_eq!(m, "MyMemory translation failed: QUOTA"),
        other => panic!("unexpected {other:?}"),
    }
    match mymemory_translation(429, None, "x") {
        Err(CoreError::OperationFailed(m)) => assert_eq!(m, "MyMemory translation failed: 429"),
        other => panic!("unexpected {other:?}"),
    }
    match mymemory_translation(200, None, "   ") {
        Err(CoreError::OperationFailed(m)) => assert_eq!(m, "MyMemory translation returned empty text"),
        other => panic!("unexpected {other:?}"),
    }
    match mymemory_http_error("502 Bad Gateway") {
        CoreError::OperationFailed(m) => assert_eq!(m, "MyMemory translation failed: HTTP 502 Bad Gateway"),
        other => panic!("unexpected {other:?}"),
    }
}

fn backup(id: &str, created_at: i64) -> SkillBackupSummary {
    SkillBackupSummary {
        id: id.to_string(),
        skill_id: "s".to_string(),
        name: "n".to_string(),
        title: None,
        relative_path: "r".to_string(),
        backup_path: "/b".to_string(),
        created_at,
    }
}

#[test]
fn skill_backup_ids_and_order() {
    assert_eq!(skill_backup_id(1700, "team/writer", "remove", "0123456789abcdef"), "1700-team__writer-remove-01234567");
    let id = new_skill_backup_id(5, "x", "replace");
    assert!(id.starts_with("5-x-replace-"));
    assert_eq!(id.len(), "5-x-replace-".len() + 8);
    let sorted = sort_backups_newest_first(vec![backup("a", 1), backup("b", 3), backup("c", 1), backup("d", 3)]);
    let ids: Vec<&str> = sorted.iter().map(|b| b.id.as_str()).collect();
    assert_eq!(ids, vec!["b", "d", "a", "c"]);
}

#[test]
fn skill_and_backup_lookups_report_what_is_missing() {
    let err = find_installed_skill(&vec![], "ghost").unwrap_err();
    assert_eq!(err, CoreError::NotFound("Skill not found: ghost".to_string()));
    assert_eq!(backup_not_found("b1"), CoreError::NotFound("Backup not found: b1".to_string()));
    assert_eq!(backup_corrupted("b1"), CoreError::InvalidData("Backup corrupted: b1".to_string()));
}

#[test]
fn the_skill_scan_skips_hidden_entries_and_stops_at_skills() {
    assert_eq!(skill_entry_action(".git", true, false), SkillEntryAction::Skip);
    assert_eq!(skill_entry_action(".hidden-skill", true, true), SkillEntryAction::Skip);
    assert_eq!(skill_entry_action("README.md", false, false), SkillEntryAction::Skip);
    assert_eq!(skill_entry_action("pdf", true, true), SkillEntryAction::Load);
    assert_eq!(skill_entry_action("vendor", true, false), SkillEntryAction::Descend);
}

#[test]
fn a_translation_run_accounts_for_every_skill_and_keeps_the_cache() {
    let old = SkillTranslationEntry {
        skill_id: "kept".into(),
        source_hash: "h".into(),
        source: "s".into(),
        zh: "旧".into(),
        updated_at: 1,
    };
    let cache = vec![("kept".to_string(), old)];
    let items = vec![
        SkillTranslationRequestItem { id: "blank".into(), text: " ".into() },
        SkillTranslationRequestItem { id: "a".into(), text: "Create and edit spreadsheets".into() },
        SkillTranslationRequestItem { id: "b".into(), text: "Review pull requests carefully".into() },
    ];
    let plan = plan_translations(&cache, &items);
    let outcomes: Vec<Option<String>> = plan.pending.iter().enumerate().map(|(i, _)| if i == 0 { Some("表格".to_string()) } else { None }).collect();
    let payload = translate_summaries(cache, plan, outcomes, "/c.json".into());
    assert_eq!((payload.translated_count + payload.failed_count + payload.skipped_count) as usize, items.len());
    assert!(payload.translations.iter().any(|(k, _)| k == "kept"));
}
