use codex_logic::shell_execute::setup_exe_shell_execute_mask;
use codex_logic::shell_execute::SEE_MASK_FLAG_NO_UI;
use codex_logic::shell_execute::SEE_MASK_NOCLOSEPROCESS;

#[test]
fn setup_exe_shell_execute_mask_suppresses_shell_error_ui() {
    let mask = setup_exe_shell_execute_mask();

    assert_eq!(mask & SEE_MASK_NOCLOSEPROCESS, SEE_MASK_NOCLOSEPROCESS);
    assert_eq!(mask & SEE_MASK_FLAG_NO_UI, SEE_MASK_FLAG_NO_UI);
}
