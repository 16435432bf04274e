use ai_strategist::custom_instructions::{
    apply_managed_content, clear_managed_block, history_ids_to_remove, history_snapshot_id,
    load_state, parse_global_text, preview_apply, rollback_history, sort_newest_first,
    AgentsFileChange, CustomInstructionHistorySnapshot,
};
use ai_strategist::models::{CoreError, CustomInstructionHistoryAction, CustomInstructionProtectionState};

const START: &str = "<!-- AI_STRATEGIST_CUSTOM_INSTRUCTIONS_START -->";
const END: &str = "<!-- AI_STRATEGIST_CUSTOM_INSTRUCTIONS_END -->";

fn snapshot(id: &str, at: i64) -> CustomInstructionHistorySnapshot {
    CustomInstructionHistorySnapshot {
        id: id.to_string(),
        created_at: at,
        action: CustomInstructionHistoryAction::Apply,
        source: "one_click".to_string(),
        template_code: Some(format!("t{at}")),
        template_title: None,
        full_content: String::new(),
    }
}

#[test]
fn applying_to_an_empty_file_writes_the_block() {
    match apply_managed_content(false, "", "  Be brief.\n\n") {
        Ok(AgentsFileChange::Write(t)) => assert_eq!(t, format!("{START}\nBe brief.\n{END}\n")),
        other => panic!("unexpected {other:?}"),
    }
}

#[test]
fn applying_appends_after_a_blank_line_and_reads_back() {
    let next = match apply_managed_content(true, "# Notes", "rule") {
        Ok(AgentsFileChange::Write(t)) => t,
        other => panic!("unexpected {other:?}"),
    };
    assert_eq!(next, format!("# Notes\n\n{START}\nrule\n{END}\n"));
    let parsed = parse_global_text(true, &next);
    assert_eq!(parsed.protection_state, CustomInstructionProtectionState::Ready);
    assert_eq!(parsed.managed_content, "rule");
    // The block is replaced up to its end marker, so the line break after
    // the marker is kept and the rendered block brings its own.
    match apply_managed_content(true, &next, " rule ") {
        Ok(AgentsFileChange::Write(t)) => assert_eq!(t, format!("{next}\n")),
        other => panic!("unexpected {other:?}"),
    }
    let again = format!("# Notes\n\n{START}\nrule\n{END}");
    match apply_managed_content(true, &again, "rule") {
        Ok(AgentsFileChange::Write(t)) => assert_eq!(t, format!("{again}\n")),
        other => panic!("unexpected {other:?}"),
    }
}

#[test]
fn legacy_markers_are_read_as_current_ones() {
    let text = "a\n<!-- AIMAMI_CUSTOM_INSTRUCTIONS_START -->\nold\n<!-- AIMAMI_CUSTOM_INSTRUCTIONS_END -->\nb\n";
    let parsed = parse_global_text(true, text);
    assert_eq!(parsed.protection_state, CustomInstructionProtectionState::Ready);
    assert_eq!(parsed.managed_content, "old");
    assert!(parsed.managed_block_present);
}

#[test]
fn duplicate_or_misordered_markers_protect_the_file() {
    let dup = format!("{START}\n{START}\n{END}\n");
    let parsed = parse_global_text(true, &dup);
    assert_eq!(parsed.protection_state, CustomInstructionProtectionState::Protected);
    let rev = format!("{END}\nx\n{START}\n");
    let parsed = parse_global_text(true, &rev);
    assert_eq!(parsed.protection_state, CustomInstructionProtectionState::Protected);
    match apply_managed_content(true, &rev, "x") {
        Err(CoreError::InvalidData(m)) => assert!(m.contains("顺序异常")),
        other => panic!("unexpected {other:?}"),
    }
    match clear_managed_block(true, &dup) {
        Err(CoreError::InvalidData(m)) => assert!(m.contains("重复")),
        other => panic!("unexpected {other:?}"),
    }
}

#[test]
fn content_holding_a_marker_is_refused() {
    match preview_apply("/p", false, "", &format!("x {END}")) {
        Err(CoreError::InvalidData(m)) => {
            assert_eq!(m, "自定义指令内容不能包含 AI Strategist 受控区块标记。")
        }
        other => panic!("unexpected {other:?}"),
    }
}

#[test]
fn preview_shows_current_and_next_content() {
    let text = format!("head\n{START}\nold\n{END}\ntail\n");
    let p = preview_apply("/home/u/.codex/AGENTS.md", true, &text, "new").unwrap();
    assert_eq!(p.current_managed_content, "old");
    assert_eq!(p.next_managed_content, "new");
    assert_eq!(p.resulting_content, format!("head\n{START}\nnew\n{END}\n\ntail\n"));
}

#[test]
fn clearing_removes_the_block_and_joins_the_rest() {
    let text = format!("head\n\n{START}\nold\n{END}\n\ntail\n");
    match clear_managed_block(true, &text) {
        Ok(AgentsFileChange::Write(t)) => assert_eq!(t, "head\n\ntail\n"),
        other => panic!("unexpected {other:?}"),
    }
    let only = format!("{START}\nold\n{END}\n");
    match clear_managed_block(true, &only) {
        Ok(AgentsFileChange::Remove) => {}
        other => panic!("unexpected {other:?}"),
    }
    match clear_managed_block(true, "plain") {
        Ok(AgentsFileChange::Keep) => {}
        other => panic!("unexpected {other:?}"),
    }
}

#[test]
fn history_is_newest_first_and_trimmed_to_ten() {
    let items: Vec<_> = (0..12).map(|i| snapshot(&format!("id{i}"), i as i64)).collect();
    let sorted = sort_newest_first(items.clone());
    assert_eq!(sorted[0].created_at, 11);
    assert_eq!(sorted[11].created_at, 0);
    let drop = history_ids_to_remove(items.clone());
    assert_eq!(drop, vec!["id1".to_string(), "id0".to_string()]);
    assert!(history_ids_to_remove(items[..10].to_vec()).is_empty());
    let state = load_state("/g", false, "", items);
    assert_eq!(state.current.last_applied_at, Some(11));
    assert_eq!(state.current.last_template_code.as_deref(), Some("t11"));
    assert_eq!(state.history.len(), 12);
    assert_eq!(state.current.protection_state, CustomInstructionProtectionState::Unmanaged);
}

#[test]
fn equal_times_keep_their_order() {
    let items = vec![snapshot("a", 5), snapshot("b", 7), snapshot("c", 5)];
    let sorted = sort_newest_first(items);
    let ids: Vec<&str> = sorted.iter().map(|s| s.id.as_str()).collect();
    assert_eq!(ids, vec!["b", "a", "c"]);
}

#[test]
fn snapshot_ids_and_rollback() {
    assert_eq!(
        history_snapshot_id(1700000000, "67e55044-10b1-426f-9247-bb680e5fe0c8"),
        "1700000000-67e55044"
    );
    match rollback_history(None, "x1") {
        Err(CoreError::NotFound(m)) => assert_eq!(m, "History entry not found: x1"),
        other => panic!("unexpected {other:?}"),
    }
    let mut s = snapshot("a", 1);
    match rollback_history(Some(&s), "a") {
        Ok(AgentsFileChange::Remove) => {}
        other => panic!("unexpected {other:?}"),
    }
    s.full_content = "body".to_string();
    match rollback_history(Some(&s), "a") {
        Ok(AgentsFileChange::Write(t)) => assert_eq!(t, "body"),
        other => panic!("unexpected {other:?}"),
    }
}
