use codex_logic::code_mode_host::resolve_host_program;

const WINDOWS: bool = false;

fn executable_name() -> &'static str {
    if WINDOWS {
        "codex-code-mode-host.exe"
    } else {
        "codex-code-mode-host"
    }
}

#[test]
fn host_program_override_takes_precedence() {
    assert_eq!(
        resolve_host_program(
            Some("custom-code-mode-host".into()),
            Some("/opt/codex/bin/codex".to_string()),
            WINDOWS,
        ),
        "custom-code-mode-host"
    );
}

#[test]
fn host_program_is_next_to_the_main_executable_even_when_missing() {
    assert_eq!(
        resolve_host_program(None, Some("/opt/codex/bin/codex".to_string()), WINDOWS),
        format!("/opt/codex/bin/{}", executable_name())
    );
}

#[test]
fn host_program_falls_back_to_its_name_when_main_executable_is_unknown() {
    assert_eq!(resolve_host_program(None, None, WINDOWS), executable_name());
}

#[test]
fn host_program_edge_paths() {
    assert_eq!(
        resolve_host_program(None, Some("/codex".to_string()), false),
        "/codex-code-mode-host"
    );
    assert_eq!(
        resolve_host_program(None, Some("codex".to_string()), false),
        "codex-code-mode-host"
    );
    assert_eq!(resolve_host_program(None, None, true), "codex-code-mode-host.exe");
}

#[test]
fn host_program_on_windows_uses_backslash_directories() {
    assert_eq!(
        resolve_host_program(None, Some("C:\\x\\codex.exe".to_string()), true),
        "C:\\x\\codex-code-mode-host.exe"
    );
    assert_eq!(
        resolve_host_program(None, Some("C:\\codex.exe".to_string()), true),
        "C:\\codex-code-mode-host.exe"
    );
    assert_eq!(
        resolve_host_program(None, Some("/opt/codex/bin/codex".to_string()), true),
        "/opt/codex/bin\\codex-code-mode-host.exe"
    );
}

#[test]
fn host_program_ignores_repeated_and_trailing_separators() {
    assert_eq!(
        resolve_host_program(None, Some("/opt//bin/codex".to_string()), false),
        "/opt//bin/codex-code-mode-host"
    );
    assert_eq!(
        resolve_host_program(None, Some("/opt/bin//codex".to_string()), false),
        "/opt/bin/codex-code-mode-host"
    );
    assert_eq!(
        resolve_host_program(None, Some("/opt/bin/codex/".to_string()), false),
        "/opt/bin/codex-code-mode-host"
    );
    assert_eq!(
        resolve_host_program(None, Some("//codex".to_string()), false),
        "/codex-code-mode-host"
    );
    assert_eq!(
        resolve_host_program(None, Some("C:\\x\\codex.exe".to_string()), false),
        "codex-code-mode-host"
    );
}
