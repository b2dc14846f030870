use codex_logic::app_cmd::AppCommand;
use codex_logic::history::render_cell;
use codex_logic::stdio_relay::after_stdin_copied;
use codex_logic::stdio_relay::shutdown_failure_is_fatal;
use codex_logic::stdio_relay::RelayStep;
use codex_logic::turn_items::assistant_output_text;
use codex_logic::turn_items::ContentItem;
use codex_logic::turn_items::ResponseItem;

#[test]
fn app_command_does_not_default_download_url() {
    let cmd = AppCommand::from_args(None, None);
    assert_eq!((cmd.path, cmd.download_url_override), (".".to_string(), None));
}

#[test]
fn app_command_keeps_given_arguments() {
    let cmd = AppCommand::from_args(Some("/w".to_string()), Some("https://x".to_string()));
    assert_eq!(cmd.path, "/w");
    assert_eq!(cmd.download_url_override, Some("https://x".to_string()));
}

#[test]
fn render_cell_joins_lines_with_newlines() {
    assert_eq!(render_cell(&vec!["a".to_string(), "b c".to_string(), "".to_string()]), "a\nb c\n");
    assert_eq!(render_cell(&vec![]), "");
    assert_eq!(render_cell(&vec!["only".to_string()]), "only");
}

#[test]
fn assistant_output_text_builds_message() {
    match assistant_output_text("hello") {
        ResponseItem::Message { id, role, content } => {
            assert_eq!(id, Some("msg-1".to_string()));
            assert_eq!(role, "assistant");
            assert_eq!(content.len(), 1);
            match &content[0] {
                ContentItem::OutputText { text } => assert_eq!(text, "hello"),
            }
        }
    }
}

#[test]
fn relay_drains_socket_until_its_copy_finished() {
    assert_eq!(after_stdin_copied(false), RelayStep::DrainSocketToStdout);
    assert_eq!(after_stdin_copied(true), RelayStep::Finish);
    assert!(!shutdown_failure_is_fatal(true));
    assert!(shutdown_failure_is_fatal(false));
}
