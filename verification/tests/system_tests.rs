use ai_strategist::system_info::{
    macos_version, reg_default_value_exec, reg_query_value_exec, system_info, windows_os_version,
};
use ai_strategist::words::{join_spaced_from, split_whitespace_exec};

#[test]
fn reg_query_values_are_read_from_their_line() {
    let out = "\r\nHKEY_LOCAL_MACHINE\\SOFTWARE\\Microsoft\\Windows NT\\CurrentVersion\r\n    ProductName    REG_SZ    Windows 11 Pro\r\n\r\n";
    assert_eq!(reg_query_value_exec(out, "ProductName"), Some("Windows 11 Pro".to_string()));
    assert_eq!(reg_query_value_exec(out, "productname"), None);
    assert_eq!(reg_query_value_exec(out, "CurrentBuild"), None);
    let other = "    ProductNameX    REG_SZ    x\n    ProductName    REG_SZ    y z\n";
    assert_eq!(reg_query_value_exec(other, "ProductName"), Some("y z".to_string()));
    assert_eq!(reg_query_value_exec("    ProductName    REG_SZ   \n", "ProductName"), None);
}

#[test]
fn windows_version_joins_what_was_found() {
    assert_eq!(
        windows_os_version(Some("Windows 11 Pro".into()), None, Some("2009".into()), Some("22631".into())),
        Some("Windows 11 Pro 2009 build 22631".to_string())
    );
    assert_eq!(
        windows_os_version(None, Some("23H2".into()), Some("2009".into()), None),
        Some("23H2".to_string())
    );
    assert_eq!(windows_os_version(None, None, None, None), None);
}

#[test]
fn system_info_falls_back_to_unknown() {
    let info = system_info("linux".into(), "x86_64".into(), None, None);
    assert_eq!(info.hostname, "unknown");
    assert_eq!(info.os_version, "unknown");
    let named = system_info("macos".into(), "aarch64".into(), Some("box".into()), macos_version(Some(" 14.5\n".into())));
    assert_eq!(named.hostname, "box");
    assert_eq!(named.os_version, "14.5");
}

#[test]
fn words_split_and_join() {
    let chars: Vec<char> = "  a\tbc  d ".chars().collect();
    let ws = split_whitespace_exec(&chars);
    let strings: Vec<String> = ws.iter().map(|w| w.iter().collect()).collect();
    assert_eq!(strings, vec!["a", "bc", "d"]);
    let joined: String = join_spaced_from(&ws, 1).into_iter().collect();
    assert_eq!(joined, "bc d");
}

#[test]
fn registry_default_values_are_read_after_their_type() {
    let out = "\r\nHKEY_CURRENT_USER\\SOFTWARE\\Microsoft\\Windows\\CurrentVersion\\App Paths\\Codex.exe\r\n    (默认)    REG_SZ    C:\\Program Files\\Codex  App\\Codex.exe\r\n\r\n";
    assert_eq!(
        reg_default_value_exec(out),
        Some("C:\\Program Files\\Codex  App\\Codex.exe".to_string())
    );
    assert_eq!(reg_default_value_exec("    (Default)    REG_DWORD    0x1\r\n"), None);
    assert_eq!(reg_default_value_exec("    (Default)    REG_SZ    \r\n"), None);
}
