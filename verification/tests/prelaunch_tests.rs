use ai_strategist::paths::CodexPaths;
use ai_strategist::prelaunch::{
    bridge_runtime_environment, is_codex_desktop_process, is_managed_codex_process,
    distinct_process_rows, is_runtime_helper_process, parse_cim_processes, parse_tasklist_processes,
    parse_threadripper_status_output, prelaunch_readiness, redact_command, taskkill_args,
    truncate_for_log, PrelaunchFacts, ProcessRow,
};
use ai_strategist::prelaunch_bridge::{
    bridge_command, bridge_command_prefix, bridge_command_with_mode,
    bridge_command_with_recovery_options, bridge_exe_path, bridge_program_path,
    bridge_script_path, bundled_bridge_candidates, is_windows_executable, RecoveryOptions,
};
use ai_strategist::prelaunch_bridge::python_command;
use ai_strategist::runtime_resolver::{
    bundled_python_candidates, explicit_codex_desktop_probe, resolve_helper_binary,
    resolve_python_runtime, ResolvedRuntime, ResolvedRuntimeSource, RuntimeProbe,
};

#[test]
fn stop_runtime_taskkill_args_do_not_kill_process_trees() {
    assert_eq!(taskkill_args(1234), vec!["/PID", "1234", "/F"]);
}

#[test]
fn taskkill_args_write_negative_and_extreme_pids() {
    assert_eq!(taskkill_args(-7), vec!["/PID", "-7", "/F"]);
    assert_eq!(taskkill_args(0), vec!["/PID", "0", "/F"]);
    assert_eq!(
        taskkill_args(i64::MIN),
        vec!["/PID", "-9223372036854775808", "/F"]
    );
}

#[test]
fn bridge_environment_includes_product_reports_dir() {
    let python = resolve_python_runtime(&Vec::new());
    let paths = CodexPaths::from_home("/home/test/.codex".to_string(), String::new());
    let env = bridge_runtime_environment(&python, None, None, None, &paths.codexmate_dir);
    assert!(env
        .iter()
        .any(|(key, value)| key == "AI_STRATEGIST_REPORTS_DIR" && value.contains("reports")));
    assert!(env.iter().any(|(key, _)| key == "AI_STRATEGIST_PYTHON_RUNTIME"));
}

#[test]
fn bridge_environment_lists_found_runtimes_in_order() {
    let python = ResolvedRuntime {
        path: "/opt/py/python".to_string(),
        source: ResolvedRuntimeSource::BundledCache,
    };
    let cli = ResolvedRuntime {
        path: "/usr/bin/codex".to_string(),
        source: ResolvedRuntimeSource::PathFallback,
    };
    let env = bridge_runtime_environment(
        &python,
        Some(&cli),
        None,
        Some("/usr/bin/codex-threadripper".to_string()),
        "/data",
    );
    let keys: Vec<&str> = env.iter().map(|(k, _)| k.as_str()).collect();
    assert_eq!(
        keys,
        vec![
            "AI_STRATEGIST_PYTHON_RUNTIME",
            "AI_STRATEGIST_PYTHON_RUNTIME_SOURCE",
            "AI_STRATEGIST_CODEX_CLI",
            "AI_STRATEGIST_CODEX_CLI_SOURCE",
            "AI_STRATEGIST_THREADRIPPER",
            "AI_STRATEGIST_REPORTS_DIR",
        ]
    );
    assert_eq!(env[1].1, "bundledCache");
    assert_eq!(env[3].1, "pathFallback");
}

#[test]
fn parses_tasklist_csv_rows_for_codex_processes() {
    let processes = parse_tasklist_processes(
        "Codex.exe",
        "\"Codex.exe\",\"1234\",\"Console\",\"1\",\"100 K\"\r\n\
         \"Other.exe\",\"9999\",\"Console\",\"1\",\"100 K\"\r\n",
    );

    assert_eq!(processes.len(), 1);
    assert_eq!(processes[0].image, "Codex.exe");
    assert_eq!(processes[0].pid, Some(1234));
}

#[test]
fn parses_cim_process_csv_rows_with_executable_paths() {
    let processes = parse_cim_processes(
        "\"Name\",\"ProcessId\",\"ExecutablePath\"\r\n\
         \"Codex.exe\",\"1234\",\"C:\\Program Files\\WindowsApps\\OpenAI.Codex\\app\\Codex.exe\"\r\n\
         \"codex.exe\",\"2345\",\"C:\\Program Files\\WindowsApps\\OpenAI.Codex\\app\\resources\\codex.exe\"\r\n",
    );

    assert_eq!(processes.len(), 2);
    assert_eq!(processes[0].image, "Codex.exe");
    assert_eq!(processes[0].pid, Some(1234));
    assert_eq!(processes[1].image, "codex.exe");
    assert_eq!(processes[1].pid, Some(2345));
    assert!(processes[1]
        .exe
        .as_deref()
        .unwrap()
        .ends_with("resources\\codex.exe"));
}

#[test]
fn runtime_helper_filter_skips_desktop_gui_processes() {
    let gui = ProcessRow {
        image: "Codex.exe".to_string(),
        pid: Some(1234),
        exe: Some("C:\\Program Files\\WindowsApps\\OpenAI.Codex\\app\\Codex.exe".to_string()),
    };
    let helper = ProcessRow {
        image: "codex.exe".to_string(),
        pid: Some(2345),
        exe: Some(
            "C:\\Program Files\\WindowsApps\\OpenAI.Codex\\app\\resources\\codex.exe".to_string(),
        ),
    };

    assert!(!is_runtime_helper_process(&gui));
    assert!(is_runtime_helper_process(&helper));
}

#[test]
fn store_desktop_process_is_managed() {
    let desktop = ProcessRow {
        image: "Codex.exe".to_string(),
        pid: Some(1),
        exe: Some(
            "C:/Program Files/WindowsApps/OpenAI.Codex_1.0_x64__abc/app/Codex.exe".to_string(),
        ),
    };
    assert!(is_codex_desktop_process(&desktop));
    assert!(is_managed_codex_process(&desktop));
    let other = ProcessRow { image: "notepad.exe".to_string(), pid: None, exe: None };
    assert!(!is_managed_codex_process(&other));
}

#[test]
fn tasklist_rows_with_unreadable_pid_keep_the_row() {
    let processes = parse_tasklist_processes(
        "codex.exe",
        "INFO: No tasks are running\r\n\"CODEX.EXE\",\"n/a\",\"Console\"\r\n\r\n",
    );
    assert_eq!(processes.len(), 1);
    assert_eq!(processes[0].image, "CODEX.EXE");
    assert_eq!(processes[0].pid, None);
}

#[test]
fn threadripper_status_reads_provider_and_rows() {
    let (provider, rows) = parse_threadripper_status_output(
        "  Target provider:  openai \nRows needing reconcile: 42\nother: x\n",
    );
    assert_eq!(provider.as_deref(), Some("openai"));
    assert_eq!(rows, Some(42));
    let (provider, rows) = parse_threadripper_status_output("Rows needing reconcile: many\n");
    assert_eq!(provider, None);
    assert_eq!(rows, None);
    let (_, rows) = parse_threadripper_status_output("Rows needing reconcile: -3");
    assert_eq!(rows, Some(-3));
    let (_, rows) = parse_threadripper_status_output("Rows needing reconcile: 99999999999999999999");
    assert_eq!(rows, None);
}

#[test]
fn truncate_for_log_marks_cut_values() {
    assert_eq!(truncate_for_log("abcdef", 3), "abc...<truncated>");
    assert_eq!(truncate_for_log("abc", 3), "abc");
    assert_eq!(truncate_for_log("日本語テキスト", 2), "日本...<truncated>");
}

#[test]
fn redact_command_hides_secret_parts() {
    let command = vec![
        "bridge".to_string(),
        "--provider-json".to_string(),
        "{\"api_key\":\"sk\"}".to_string(),
        "OPENAI_API_KEY=x".to_string(),
    ];
    assert_eq!(
        redact_command(&command),
        "bridge --provider-json <redacted> <redacted>"
    );
    assert_eq!(redact_command(&Vec::new()), "");
}

#[test]
fn readiness_reports_blockers_and_warnings_in_order() {
    let facts = PrelaunchFacts {
        codex_home_exists: false,
        bridge_program_found: false,
        codex_desktop_found: true,
        config_exists: false,
        auth_mode_found: true,
        threadripper_found: false,
        hybrid_provider_found: true,
    };
    let r = prelaunch_readiness(&facts);
    assert!(!r.ok);
    assert!(!r.launch_available);
    assert_eq!(
        r.blockers,
        vec!["codex_home_missing", "prelaunch_bridge_missing", "codex_desktop_not_found"]
    );
    assert_eq!(r.warnings, vec!["config_missing", "threadripper_unavailable"]);
    let all = PrelaunchFacts {
        codex_home_exists: true,
        bridge_program_found: true,
        codex_desktop_found: true,
        config_exists: true,
        auth_mode_found: true,
        threadripper_found: true,
        hybrid_provider_found: true,
    };
    let r = prelaunch_readiness(&all);
    assert!(r.ok && r.launch_available && r.blockers.is_empty() && r.warnings.is_empty());
}

#[test]
fn python_runtime_resolution_returns_some_path() {
    let resolved = resolve_python_runtime(&Vec::new());
    assert!(!resolved.path.is_empty());
    assert!(matches!(
        resolved.source,
        ResolvedRuntimeSource::ManagedLocal
            | ResolvedRuntimeSource::BundledCache
            | ResolvedRuntimeSource::PathFallback
    ));
}

#[test]
fn bundled_python_candidates_cover_tauri_resource_layouts() {
    let rendered = bundled_python_candidates("/opt/app")
        .iter()
        .cloned()
        .collect::<Vec<_>>()
        .join("\n");

    assert!(rendered.contains("python"));
    assert!(rendered.contains("python.exe"));
    assert!(rendered.contains("resources"));
    assert!(rendered.contains("_up_"));
    assert!(rendered.contains("Resources"));
}

#[test]
fn bundled_bridge_candidates_cover_tauri_resource_layouts() {
    let candidates = bundled_bridge_candidates("/opt/app");
    let rendered = candidates.join("\n");

    assert_eq!(candidates.len(), 16);
    assert!(rendered.contains("prelaunch_bridge.py"));
    assert!(rendered.contains("resources"));
    assert!(rendered.contains("_up_"));
    assert!(rendered.contains("Resources"));
}

#[test]
fn bridge_command_fails_clearly_when_bridge_is_missing() {
    let error = bridge_command(
        bridge_command_prefix(None, "python"),
        "repair",
        r"C:\Users\test\.codex",
    )
    .expect_err("missing bridge should fail before spawning");
    assert!(error.contains("prelaunch_bridge_missing"));
}

#[test]
fn bridge_script_path_prefers_existing_explicit_environment_override() {
    let bridge = "/tmp/ai-strategist-custom-bridge.py".to_string();
    let candidates = vec!["/opt/app/prelaunch_bridge.py".to_string()];
    let program = bridge_program_path(Some(bridge.clone()), &candidates, &vec![true]);
    assert_eq!(bridge_script_path(program).as_deref(), Some(bridge.as_str()));
}

#[test]
fn bridge_command_runs_explicit_bridge_exe_directly() {
    let bridge = "/tmp/ai-strategist-custom-bridge.exe".to_string();
    let program = bridge_program_path(Some(bridge.clone()), &Vec::new(), &Vec::new());
    assert_eq!(bridge_exe_path(program.clone()).as_deref(), Some(bridge.as_str()));
    let command = bridge_command(
        bridge_command_prefix(program, "python3"),
        "repair",
        r"C:\Users\test\.codex",
    )
    .expect("bridge command");
    assert_eq!(command[0], bridge);
    assert_eq!(command[1], "repair");
    assert!(!command.contains(&"python3".to_string()));
}

#[test]
fn bridge_script_path_does_not_fall_back_to_development_repo_bridge() {
    let candidates = vec!["/opt/app/prelaunch_bridge.py".to_string()];
    let program = bridge_program_path(None, &candidates, &vec![false]);
    assert!(bridge_script_path(program.clone()).is_none());
    let error = bridge_command(bridge_command_prefix(program, "python"), "repair", "/x")
        .expect_err("missing explicit bridge should not fall back to repo script");
    assert!(error.contains("prelaunch_bridge_missing"));
}

#[test]
fn launch_command_can_forward_hide_official_quota_notice_flag() {
    let program = Some("/tmp/ai-strategist-custom-bridge.py".to_string());
    let command = bridge_command_with_mode(
        bridge_command_prefix(program, "python"),
        "launch",
        r"C:\Users\test\.codex",
        Some("api"),
        Some(r#"{"key":"lac"}"#),
        true,
        true,
    )
    .expect("bridge command");

    assert_eq!(command[0], "python");
    assert_eq!(command[1], "/tmp/ai-strategist-custom-bridge.py");
    assert!(command.contains(&"--hide-official-quota-notice".to_string()));
    assert!(command.contains(&"--restore-history".to_string()));
    assert!(command.contains(&"--provider-json".to_string()));
    assert!(command.contains(&r#"{"key":"lac"}"#.to_string()));
}

#[test]
fn repair_command_can_forward_advanced_recovery_options() {
    let program = Some("/tmp/ai-strategist-custom-bridge.py".to_string());
    let command = bridge_command_with_recovery_options(
        bridge_command_prefix(program, "python"),
        "repair",
        r"C:\Users\test\.codex",
        RecoveryOptions {
            include_archived: true,
            allow_missing_cwd: true,
            allow_empty_cwd: true,
            allow_missing_session: true,
            projectless_mode: Some("all"),
            unarchive_selected: true,
        },
    )
    .expect("bridge command");

    assert!(command.contains(&"--include-archived".to_string()));
    assert!(command.contains(&"--allow-missing-cwd".to_string()));
    assert!(command.contains(&"--allow-empty-cwd".to_string()));
    assert!(command.contains(&"--allow-missing-session".to_string()));
    assert!(command.contains(&"--projectless-mode".to_string()));
    assert!(command.contains(&"all".to_string()));
    assert!(command.contains(&"--unarchive-selected".to_string()));
}

#[test]
fn bridge_program_takes_first_existing_candidate() {
    let candidates = vec!["a.exe".to_string(), "b.py".to_string(), "c.py".to_string()];
    let program = bridge_program_path(None, &candidates, &vec![false, true, true]);
    assert_eq!(program.as_deref(), Some("b.py"));
    assert_eq!(bridge_exe_path(program.clone()), None);
    assert_eq!(bridge_script_path(program).as_deref(), Some("b.py"));
}

#[test]
fn windows_programs_are_told_by_their_extension() {
    assert_eq!(is_windows_executable("tools/bridge.EXE"), (true, Some("EXE".to_string())));
    assert_eq!(is_windows_executable("tools/bridge.py"), (false, Some("py".to_string())));
    assert_eq!(is_windows_executable(".exe"), (false, None));
    assert_eq!(is_windows_executable("bridge"), (false, None));
    let exe = Some("dist/bridge.exe".to_string());
    assert_eq!(bridge_exe_path(exe.clone()).as_deref(), Some("dist/bridge.exe"));
    assert_eq!(bridge_script_path(exe), None);
    let script = Some("dist/bridge.py".to_string());
    assert_eq!(bridge_exe_path(script.clone()), None);
    assert_eq!(bridge_script_path(script).as_deref(), Some("dist/bridge.py"));
}

#[test]
fn windows_style_bridge_paths_are_told_apart_too() {
    assert_eq!(is_windows_executable(r"C:\Temp\ai-strategist-custom-bridge.exe").0, true);
    assert_eq!(is_windows_executable(r"C:\Temp\bridge.py"), (false, Some("py".to_string())));
    let py = Some(r"C:\Temp\bridge.py".to_string());
    assert_eq!(bridge_script_path(py.clone()).as_deref(), Some(r"C:\Temp\bridge.py"));
    assert_eq!(bridge_exe_path(py), None);
    let exe = Some(r"C:\Temp\bridge.exe".to_string());
    assert_eq!(bridge_exe_path(exe.clone()).as_deref(), Some(r"C:\Temp\bridge.exe"));
    assert_eq!(bridge_script_path(exe), None);
}

#[test]
fn explicit_codex_desktop_runtime_rejects_windowsapps_shim() {
    let shim = r"C:\Users\t\AppData\Local\Microsoft\WindowsApps\OpenAI.Codex_26.519.5221.0_x64__2p2nqsd0c76g0\app\Codex.exe";
    let probe = explicit_codex_desktop_probe(shim.to_string(), true);
    assert!(!probe.usable);
    assert_eq!(resolve_helper_binary(&vec![probe]), None);
    let installed = explicit_codex_desktop_probe(r"C:\Program Files\Codex\Codex.exe".to_string(), true);
    assert!(installed.usable);
    assert!(!explicit_codex_desktop_probe(r"C:\Program Files\Codex\Codex.exe".to_string(), false).usable);
}

#[test]
fn python_command_falls_back_to_python() {
    assert_eq!(python_command(&Vec::new()), "python");
    let probes = vec![
        RuntimeProbe { path: "/opt/a/python".to_string(), source: ResolvedRuntimeSource::ManagedLocal, usable: false },
        RuntimeProbe { path: "/usr/bin/python3".to_string(), source: ResolvedRuntimeSource::PathFallback, usable: true },
    ];
    assert_eq!(python_command(&probes), "/usr/bin/python3");
}

#[test]
fn running_processes_are_listed_once() {
    let row = |image: &str, pid: Option<i64>| ProcessRow { image: image.to_string(), pid, exe: None };
    let rows = vec![row("Codex.exe", Some(1)), row("codex.exe", Some(1)), row("codex.exe", Some(2)), row("Codex.exe", None)];
    let out = distinct_process_rows(&rows);
    assert_eq!(out.len(), 3);
    assert_eq!(out[0].image, "Codex.exe");
    assert_eq!(out[1].pid, Some(2));
    assert_eq!(out[2].pid, None);
}
