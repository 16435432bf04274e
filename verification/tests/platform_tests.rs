use ai_strategist::daemon::{
    check_daemon_state, install_daemon, task_command, task_creation_result,
    task_state_from_queries, uninstall_daemon, CommandOutput, DaemonInstall, DaemonProbe,
    DaemonUninstall,
};
use ai_strategist::models::{AutoSwitchRuntimeState, CoreError, Platform};
use ai_strategist::paths::{resolve_codex_home, resolve_launch_agent_path, CodexPaths};
use ai_strategist::process::{
    codex_process_name, is_codex_writer_command, is_windows_codex_writer_exe, kill_process,
    launch_not_started, launch_timed_out, macos_launch_plan, parse_pgrep_writers,
    parse_ps_writers, start_process_command, stop_codex_app_gracefully,
    stop_codex_for_config_edit, terminal_script, windows_launch_path, writer_check,
    ConfigEditAction, LaunchStep, StopAction, StopStep, WriterCheck,
};
use ai_strategist::proxy::{
    detect_system_proxy_candidates, dedupe_exec, macos_pac_url, parse_pac_candidates,
    parse_registry_value, parse_scutil_proxy_pairs, parse_windows_proxy_server,
    parse_winhttp_proxy, registry_proxy_enabled, ProxyFindings,
};

fn chars(s: &str) -> Vec<char> {
    s.chars().collect()
}

fn out(success: bool, stdout: &str) -> Option<CommandOutput> {
    Some(CommandOutput { success, stdout: stdout.to_string() })
}

#[test]
fn daemon_state_follows_what_the_platform_reports() {
    let agent = |plist_exists, label_loaded| DaemonProbe::LaunchAgent { plist_exists, label_loaded };
    assert_eq!(check_daemon_state(&agent(false, true)), AutoSwitchRuntimeState::NotInstalled);
    assert_eq!(check_daemon_state(&agent(true, true)), AutoSwitchRuntimeState::Running);
    assert_eq!(check_daemon_state(&agent(true, false)), AutoSwitchRuntimeState::Stopped);
    let task = |s: Option<&str>| DaemonProbe::ScheduledTask { state: s.map(str::to_string) };
    assert_eq!(check_daemon_state(&task(Some("RUNNING"))), AutoSwitchRuntimeState::Running);
    assert_eq!(check_daemon_state(&task(Some("Ready"))), AutoSwitchRuntimeState::Stopped);
    assert_eq!(check_daemon_state(&task(None)), AutoSwitchRuntimeState::NotInstalled);
    assert_eq!(check_daemon_state(&DaemonProbe::Unsupported), AutoSwitchRuntimeState::NotInstalled);
}

#[test]
fn task_state_prefers_powershell_then_schtasks() {
    assert_eq!(task_state_from_queries(out(true, " Running \n"), None).as_deref(), Some("Running"));
    assert_eq!(task_state_from_queries(None, out(true, "Running")), None);
    assert_eq!(
        task_state_from_queries(out(true, "  "), out(true, "Status: Running")).as_deref(),
        Some("Running")
    );
    assert_eq!(task_state_from_queries(out(false, "x"), out(true, "Status: Ready")).as_deref(), Some("Ready"));
    assert_eq!(task_state_from_queries(out(false, "x"), out(false, "Running")), None);
    assert_eq!(task_state_from_queries(out(false, "x"), None), None);
}

#[test]
fn daemon_installation_depends_on_the_platform() {
    match install_daemon(Platform::MacOs, "/Applications/App.app/Contents/MacOS/app", "/Users/u/.codex") {
        Ok(DaemonInstall::LaunchAgent { plist_content }) => {
            assert!(plist_content.starts_with("<?xml version=\"1.0\" encoding=\"UTF-8\"?>\n"));
            assert!(plist_content.contains("<string>dev.ai.strategist.auto-switch</string>"));
            assert!(plist_content.contains("<string>/Applications/App.app/Contents/MacOS/app</string>\n        <string>daemon-run-once</string>"));
            assert!(plist_content.contains("<key>CODEX_HOME</key>\n        <string>/Users/u/.codex</string>"));
            assert!(plist_content.contains("<integer>300</integer>"));
            assert!(plist_content.ends_with("</dict>\n</plist>"));
        }
        other => panic!("unexpected {other:?}"),
    }
    match install_daemon(Platform::Windows, r"C:\App's\app.exe", r"C:\Users\u\.codex") {
        Ok(DaemonInstall::ScheduledTask { args }) => {
            assert_eq!(args.len(), 10);
            assert_eq!(&args[..8], &["/Create", "/SC", "MINUTE", "/MO", "5", "/TN", "CodexMateAutoSwitch", "/TR"]);
            assert_eq!(
                args[8],
                r#"powershell -NoProfile -WindowStyle Hidden -Command "$env:CODEX_HOME='C:\Users\u\.codex'; & 'C:\App''s\app.exe' daemon-run-once""#
            );
            assert_eq!(args[9], "/F");
        }
        other => panic!("unexpected {other:?}"),
    }
    match install_daemon(Platform::Other, "a", "b") {
        Err(CoreError::OperationFailed(m)) => assert_eq!(m, "Daemon not supported on this platform"),
        other => panic!("unexpected {other:?}"),
    }
    assert_eq!(task_command("a", "b"), task_command("a", "b"));
}

#[test]
fn daemon_removal_and_task_creation_results() {
    assert_eq!(uninstall_daemon(Platform::MacOs, true), DaemonUninstall::UnloadAgent);
    assert_eq!(uninstall_daemon(Platform::MacOs, false), DaemonUninstall::Nothing);
    assert_eq!(uninstall_daemon(Platform::Other, true), DaemonUninstall::Nothing);
    match uninstall_daemon(Platform::Windows, false) {
        DaemonUninstall::DeleteTask { args } => assert_eq!(args, vec!["/Delete", "/TN", "CodexMateAutoSwitch", "/F"]),
        other => panic!("unexpected {other:?}"),
    }
    assert!(task_creation_result(true, "ignored").is_ok());
    match task_creation_result(false, "  Access is denied.\r\n") {
        Err(CoreError::OperationFailed(m)) => assert_eq!(m, "schtasks create failed: Access is denied."),
        other => panic!("unexpected {other:?}"),
    }
}

#[test]
fn kill_commands_and_process_names_per_platform() {
    assert_eq!(codex_process_name(Platform::MacOs), "Codex");
    assert_eq!(codex_process_name(Platform::Windows), "Codex");
    assert_eq!(codex_process_name(Platform::Other), "codex");
    let k = kill_process(Platform::Windows, "Codex");
    assert_eq!(k.program, "taskkill");
    assert_eq!(k.args, vec!["/F", "/IM", "Codex.exe"]);
    let k = kill_process(Platform::MacOs, "Codex");
    assert_eq!(k.program, "killall");
    assert_eq!(k.args, vec!["-9", "Codex"]);
    let k = kill_process(Platform::Other, "codex");
    assert_eq!(k.program, "pkill");
    assert_eq!(k.args, vec!["-9", "codex"]);
}

#[test]
fn graceful_stop_asks_then_kills_then_gives_up() {
    match stop_codex_app_gracefully(&StopStep::Started { running: false }, 8000) {
        StopAction::Finish(Ok(())) => {}
        other => panic!("unexpected {other:?}"),
    }
    assert_eq!(stop_codex_app_gracefully(&StopStep::Started { running: true }, 8000), StopAction::AskToQuit { wait_ms: 8000 });
    match stop_codex_app_gracefully(&StopStep::AskedToQuit { exited: true }, 8000) {
        StopAction::Finish(Ok(())) => {}
        other => panic!("unexpected {other:?}"),
    }
    assert_eq!(stop_codex_app_gracefully(&StopStep::AskedToQuit { exited: false }, 8000), StopAction::Kill { wait_ms: 5000 });
    match stop_codex_app_gracefully(&StopStep::Killed { exited: false }, 8000) {
        StopAction::Finish(Err(CoreError::OperationFailed(m))) => assert_eq!(
            m,
            "CODEX_APP_QUIT_TIMEOUT: Codex did not quit in time; please quit Codex manually and try again"
        ),
        other => panic!("unexpected {other:?}"),
    }
    assert_eq!(
        stop_codex_for_config_edit(&StopStep::Started { running: true }, 3000),
        ConfigEditAction::RememberPathAndAskToQuit { wait_ms: 3000 }
    );
    assert_eq!(stop_codex_for_config_edit(&StopStep::Killed { exited: true }, 3000), ConfigEditAction::CheckWriters);
    assert_eq!(stop_codex_for_config_edit(&StopStep::AskedToQuit { exited: true }, 3000), ConfigEditAction::CheckWriters);
}

#[test]
fn writer_processes_are_recognised_and_listed() {
    assert!(is_codex_writer_command(&chars("/Applications/Codex.app/Contents/MacOS/Codex")));
    assert!(is_codex_writer_command(&chars("codex")));
    assert!(is_codex_writer_command(&chars("codex exec hi")));
    assert!(is_codex_writer_command(&chars("/usr/local/bin/codex")));
    assert!(!is_codex_writer_command(&chars("/Users/u/.cursor/extensions/openai/codex app")));
    assert!(!is_codex_writer_command(&chars("/Applications/Codex.app/Contents/Frameworks/crashpad_handler")));
    assert!(!is_codex_writer_command(&chars("vim notes.txt")));
    assert!(is_windows_codex_writer_exe(&chars("CODEX.EXE")));
    assert!(is_windows_codex_writer_exe(&chars("Codex Helper.exe")));
    assert!(!is_windows_codex_writer_exe(&chars("codexmate.exe")));
    assert!(is_windows_codex_writer_exe(&chars("codex worker")));
    let ps = "  101 /Applications/Codex.app/Contents/MacOS/Codex\n 0202   codex exec x\nabc codex\n  303 vim\n 404 /usr/local/bin/codex\n";
    assert_eq!(
        parse_ps_writers(ps, 404),
        vec!["101 /Applications/Codex.app/Contents/MacOS/Codex", "202 codex exec x"]
    );
    let pg = "77 codex --flag\n78 codex app \n";
    assert_eq!(parse_pgrep_writers(pg, 77), vec!["78 codex app"]);
}

#[test]
fn writer_check_retries_on_windows_then_fails() {
    let none: Vec<String> = Vec::new();
    assert_eq!(writer_check(Platform::MacOs, 0, &none), WriterCheck::Clear);
    let some = vec!["1 codex".to_string(), "2 Codex.exe".to_string()];
    assert_eq!(writer_check(Platform::Windows, 0, &some), WriterCheck::RetryAfter { wait_ms: 500 });
    assert_eq!(writer_check(Platform::Windows, 1, &some), WriterCheck::RetryAfter { wait_ms: 500 });
    match writer_check(Platform::Windows, 2, &some) {
        WriterCheck::Fail(CoreError::OperationFailed(m)) => assert_eq!(
            m,
            "CODEX_WRITER_RUNNING: 检测到仍有 Codex 相关进程可能正在写入线程数据。请完全退出 Codex 和 codex CLI 后再试：1 codex | 2 Codex.exe"
        ),
        other => panic!("unexpected {other:?}"),
    }
    match writer_check(Platform::MacOs, 0, &some) {
        WriterCheck::Fail(CoreError::OperationFailed(m)) => assert!(m.ends_with("：1 codex | 2 Codex.exe")),
        other => panic!("unexpected {other:?}"),
    }
}

#[test]
fn launching_the_app() {
    let plan = macos_launch_plan("/Users/u");
    assert_eq!(plan.len(), 10);
    assert_eq!(plan[0], LaunchStep::OpenBundle("com.openai.codex".into()));
    assert_eq!(plan[1], LaunchStep::OpenBundle("com.openai.Codex".into()));
    assert_eq!(plan[2], LaunchStep::OpenPath("/Applications/Codex.app".into()));
    assert_eq!(plan[3], LaunchStep::OpenPath("/Users/u/Applications/Codex.app".into()));
    assert_eq!(plan[4], LaunchStep::Pause(250));
    assert_eq!(plan[5..], plan[..5]);
    match launch_timed_out() {
        CoreError::OperationFailed(m) => assert_eq!(m, "Codex launch timed out"),
        other => panic!("unexpected {other:?}"),
    }
    assert_eq!(windows_launch_path(Some("C:\\a.exe".into()), true, Some("C:\\b.exe".into())).unwrap(), "C:\\a.exe");
    assert_eq!(windows_launch_path(Some("C:\\a.exe".into()), false, Some("C:\\b.exe".into())).unwrap(), "C:\\b.exe");
    match windows_launch_path(None, false, None) {
        Err(CoreError::NotFound(m)) => assert_eq!(m, "Codex.exe not found"),
        other => panic!("unexpected {other:?}"),
    }
    assert_eq!(start_process_command(r"C:\Bob's\Codex.exe"), r"Start-Process -FilePath 'C:\Bob''s\Codex.exe'");
    match launch_not_started("C:\\a.exe") {
        CoreError::OperationFailed(m) => assert_eq!(m, "Codex did not start after launch: C:\\a.exe"),
        other => panic!("unexpected {other:?}"),
    }
    assert_eq!(
        terminal_script("echo \"hi\" \\ there"),
        "tell application \"Terminal\"\n    activate\n    do script \"echo \\\"hi\\\" \\\\ there\"\nend tell"
    );
}

#[test]
fn codex_home_and_launch_agent_paths() {
    assert_eq!(resolve_codex_home(Some("/custom".into()), Some("/home/u".into())), "/custom");
    assert_eq!(resolve_codex_home(None, Some("/home/u".into())), "/home/u/.codex");
    assert_eq!(resolve_codex_home(None, None), "./.codex");
    assert_eq!(resolve_launch_agent_path(Some("/home/u".into()), false), "");
    assert_eq!(
        resolve_launch_agent_path(Some("/Users/u".into()), true),
        "/Users/u/Library/LaunchAgents/dev.ai.strategist.auto-switch.plist"
    );
    let p = CodexPaths::new(Some("/tmp/codex-home".into()), false);
    assert_eq!(p.codex_home, "/tmp/codex-home");
    assert_eq!(p.config_path, "/tmp/codex-home/config.toml");
    assert_eq!(p.launch_agent_path, "");
    let q = CodexPaths::new(None, false);
    assert!(q.codex_home.ends_with(".codex"));
}

#[test]
fn scutil_settings_give_candidates_in_order() {
    let stdout = "<dictionary> {\n  HTTPEnable : 1\n  HTTPPort : 7890\n  HTTPProxy : 127.0.0.1\n  HTTPSEnable : 1\n  HTTPSPort : 7890\n  HTTPSProxy : 127.0.0.1\n  SOCKSEnable : 0\n  SOCKSProxy : 127.0.0.1\n  ProxyAutoConfigEnable : 1\n  ProxyAutoConfigURLString : http://pac.local/proxy.pac\n}\n";
    let pairs = parse_scutil_proxy_pairs(stdout);
    assert_eq!(macos_pac_url(&pairs).as_deref(), Some("http://pac.local/proxy.pac"));
    let findings = ProxyFindings::MacOs {
        pairs,
        pac_contents: Some("function FindProxyForURL(u, h) { return \"PROXY 10.0.0.1:3128; socks5 10.0.0.2:1080; DIRECT\"; }".into()),
    };
    assert_eq!(
        detect_system_proxy_candidates(&findings),
        vec!["http://127.0.0.1:7890", "socks5://10.0.0.2:1080", "http://10.0.0.1:3128"]
    );
    assert!(detect_system_proxy_candidates(&ProxyFindings::Other).is_empty());
}

#[test]
fn scutil_later_values_replace_earlier_ones() {
    let pairs = parse_scutil_proxy_pairs("HTTPEnable : 0\nHTTPEnable : 1\nHTTPProxy : a:b\n{\n");
    assert_eq!(pairs, vec![("HTTPEnable".to_string(), "1".to_string()), ("HTTPProxy".to_string(), "a:b".to_string())]);
    assert_eq!(macos_pac_url(&pairs), None);
}

#[test]
fn pac_scripts_name_their_proxies() {
    assert_eq!(
        parse_pac_candidates("return 'PROXY a:1; PROXY a:1; HTTPS b:2; SOCKS c:3';"),
        vec!["socks5://c:3", "http://b:2", "http://a:1"]
    );
    assert!(parse_pac_candidates("return \"DIRECT\";").is_empty());
    assert_eq!(parse_pac_candidates("proxy http://x:1;"), vec!["http://x:1"]);
}

#[test]
fn windows_proxy_settings_are_read() {
    let reg = "\r\nHKEY_CURRENT_USER\\Software\\Microsoft\\Windows\\CurrentVersion\\Internet Settings\r\n    ProxyServer    REG_SZ    http=127.0.0.1:8080;https=127.0.0.1:8080;socks=127.0.0.1:1080;ftp=x:1\r\n";
    assert_eq!(
        parse_registry_value(reg, "ProxyServer").as_deref(),
        Some("http=127.0.0.1:8080;https=127.0.0.1:8080;socks=127.0.0.1:1080;ftp=x:1")
    );
    assert_eq!(parse_registry_value(reg, "AutoConfigURL"), None);
    assert!(registry_proxy_enabled("    ProxyEnable    REG_DWORD    0x1\r\n"));
    assert!(!registry_proxy_enabled("    ProxyEnable    REG_DWORD    0x0\r\n"));
    assert_eq!(
        parse_windows_proxy_server("http=127.0.0.1:8080;https=127.0.0.1:8080;socks=127.0.0.1:1080;ftp=x:1"),
        vec!["http://127.0.0.1:8080", "socks5://127.0.0.1:1080"]
    );
    assert_eq!(parse_windows_proxy_server(" 10.1.1.1:3128 "), vec!["http://10.1.1.1:3128"]);
    assert_eq!(
        parse_winhttp_proxy("Current WinHTTP proxy settings:\n\n    Proxy Server(s) :  (none)\n    Proxy Server(s) :  10.0.0.9:80\n").as_deref(),
        Some("10.0.0.9:80")
    );
    assert_eq!(parse_winhttp_proxy("    Direct access (no proxy server).\n"), None);
    let findings = ProxyFindings::Windows {
        proxy_server: Some("127.0.0.1:8080".into()),
        pac_contents: None,
        winhttp_server: Some("http=127.0.0.1:8080".into()),
    };
    assert_eq!(detect_system_proxy_candidates(&findings), vec!["http://127.0.0.1:8080"]);
    assert_eq!(
        dedupe_exec(vec!["a".into(), "b".into(), "a".into()]),
        vec!["a".to_string(), "b".to_string()]
    );
}
