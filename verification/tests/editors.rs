//! Tests of the editor adapters.

use resurreccion::editor::conformance;
use resurreccion::editor::emacs::EmacsAdapter;
use resurreccion::editor::nvim::NvimAdapter;
use resurreccion::editor::{Editor, EditorCapture};

#[test]
fn with_socket_sets_name() {
    let adapter = EmacsAdapter::with_socket("my-socket");
    assert_eq!(adapter.socket_name.as_deref(), Some("my-socket"));
}

#[test]
fn editor_name_returns_emacs() {
    let adapter = EmacsAdapter::new(None);
    assert_eq!(adapter.editor_name(), "emacs");
}

#[test]
fn parse_elisp_list_extracts_paths() {
    let input = r#"("/home/user/foo.rs" "/home/user/bar.txt" nil)"#;
    let files = EmacsAdapter::parse_elisp_list(input);
    assert_eq!(files, vec!["/home/user/foo.rs", "/home/user/bar.txt"]);
}

#[test]
fn parse_elisp_list_handles_empty() {
    let files = EmacsAdapter::parse_elisp_list("(nil)");
    assert!(files.is_empty());
}

#[test]
fn emacs_adapter_implements_editor_trait() {
    let adapter = EmacsAdapter::new(None);
    assert_eq!(adapter.editor_name(), "emacs");
}

#[test]
fn with_socket_constructor() {
    let adapter = EmacsAdapter::with_socket("test");
    assert_eq!(adapter.editor_name(), "emacs");
}

#[test]
fn new_creates_adapter_without_socket_when_env_unset() {
    let adapter = EmacsAdapter::new(None);
    assert!(adapter.socket_name.is_none());
}

#[test]
fn new_reads_socket_from_env() {
    let adapter = EmacsAdapter::new(Some("test-socket".to_string()));
    assert_eq!(adapter.socket_name.as_deref(), Some("test-socket"));
}

#[test]
fn parse_elisp_list_reads_escapes_and_unterminated_strings() {
    let files = EmacsAdapter::parse_elisp_list(r#"  ("/a \"q\" b" "" nil "/c\\d" "/tail)"#);
    assert_eq!(files, vec!["/a \"q\" b", "/c\\d", "/tail"]);
    let glued = EmacsAdapter::parse_elisp_list(r#"("/a" "/b""#);
    assert_eq!(glued, vec!["/b"]);
    assert!(EmacsAdapter::parse_elisp_list("").is_empty());
    assert!(EmacsAdapter::parse_elisp_list("()").is_empty());
    assert_eq!(EmacsAdapter::parse_elisp_list(r#""x" y"#), vec!["x"]);
    assert_eq!(EmacsAdapter::parse_elisp_list(r#"(nil"/glued" "/ok")"#), vec!["/ok"]);
}

#[test]
fn emacsclient_arguments() {
    let plain = EmacsAdapter::new(None);
    assert_eq!(plain.client_args(&["--no-wait", "/f"]), vec!["--no-wait", "/f"]);
    let named = EmacsAdapter::with_socket("srv");
    assert_eq!(named.client_args(&["--eval", "(x)"]), vec!["--socket-name", "srv", "--eval", "(x)"]);
}

#[test]
fn construction_default() {
    // NVIM / NVIM_LISTEN_ADDRESS are not set in test environment.
    let a = NvimAdapter::new(None, None);
    // May or may not have a path depending on test environment.
    let _ = a.socket_path();
}

#[test]
fn construction_with_socket() {
    let a = NvimAdapter::with_socket("/tmp/nvim.sock");
    assert_eq!(a.socket_path(), Some("/tmp/nvim.sock"));
}

#[test]
fn editor_name_is_neovim() {
    let a = NvimAdapter::new(None, None);
    assert_eq!(a.editor_name(), "neovim");
}

#[test]
fn conformance_check() {
    let a = NvimAdapter::new(None, None);
    conformance::run(&a).unwrap();
}

#[test]
fn nvim_socket_prefers_nvim_over_legacy_name() {
    let a = NvimAdapter::new(Some("/a".to_string()), Some("/b".to_string()));
    assert_eq!(a.socket_path(), Some("/a"));
    let b = NvimAdapter::new(None, Some("/b".to_string()));
    assert_eq!(b.socket_path(), Some("/b"));
    assert_eq!(NvimAdapter::new(None, None).socket_path(), None);
}

#[test]
fn conformance_refuses_an_empty_name() {
    assert_eq!(conformance::check_name("").unwrap_err(), "editor_name must not be empty");
    assert!(conformance::check_name("vim").is_ok());
    assert!(conformance::run(&EmacsAdapter::new(None)).is_ok());
}

#[test]
fn printed_lists_read_back() {
    // What Emacs prints for (mapcar 'buffer-file-name (buffer-list)).
    let printed = r#"("/src/main.rs" nil "/odd \"name\"\\x" nil)"#;
    assert_eq!(EmacsAdapter::parse_elisp_list(printed), vec!["/src/main.rs", "/odd \"name\"\\x"]);
}

#[test]
fn capture_without_emacsclient_returns_ok() {
    let cap = EmacsAdapter::capture_from("/tmp".to_string(), None);
    assert_eq!(cap.editor_name, "emacs");
}

#[test]
fn capture_graceful_without_emacsclient() {
    let cap = EmacsAdapter::capture_from("/home/user/project".to_string(), None);
    assert_eq!(cap.editor_name, "emacs");
    assert!(!cap.cwd.is_empty(), "cwd must be non-empty");
    assert!(cap.open_files.is_empty());
    assert_eq!(cap.raw_state, "{\"error\":\"emacsclient not available\"}");
}

#[test]
fn emacs_capture_reads_the_buffer_list() {
    let cap = EmacsAdapter::capture_from(
        "/w".to_string(),
        Some("(\"/w/a.rs\" nil \"/w/b.txt\")\n"),
    );
    assert_eq!(cap.open_files, vec!["/w/a.rs", "/w/b.txt"]);
    assert_eq!(cap.raw_state, "{}");
    assert_eq!(cap.cwd, "/w");
}

#[test]
fn emacs_capture_and_restore_calls() {
    let adapter = EmacsAdapter::with_socket("work");
    assert_eq!(
        adapter.capture_args(),
        vec!["--socket-name", "work", "--eval", "(mapcar 'buffer-file-name (buffer-list))"]
    );
    let cap = EditorCapture {
        editor_name: "emacs".to_string(),
        cwd: "/tmp".to_string(),
        open_files: vec!["a.rs".to_string(), "b.rs".to_string()],
        raw_state: "{}".to_string(),
    };
    let calls = adapter.restore_calls(&cap);
    assert_eq!(calls.len(), 2);
    assert_eq!(calls[0], vec!["--socket-name", "work", "--no-wait", "a.rs"]);
    assert_eq!(calls[1], vec!["--socket-name", "work", "--no-wait", "b.rs"]);
    let empty = EditorCapture { open_files: vec![], ..cap };
    assert!(EmacsAdapter::new(None).restore_calls(&empty).is_empty());
}

#[test]
fn capture_without_socket_returns_ok() {
    let a = NvimAdapter::new(None, None);
    assert!(a.socket_path().is_none());
    let cap = a.capture_from(false);
    assert_eq!(cap.editor_name, "neovim");
    let state: serde_json::Value = serde_json::from_str(&cap.raw_state).unwrap();
    assert!(state.get("error").is_some(), "degraded capture should carry an error field");
}

#[test]
fn capture_with_bad_socket_path_degrades() {
    let a = NvimAdapter::with_socket("/nonexistent/nvim.sock");
    let cap = a.capture_from(false);
    assert_eq!(cap.editor_name, "neovim");
    let state: serde_json::Value = serde_json::from_str(&cap.raw_state).unwrap();
    assert!(state.get("error").is_some(), "degraded capture should carry an error field");
}

#[test]
fn nvim_capture_when_connected() {
    let cap = NvimAdapter::with_socket("/run/nvim.sock").capture_from(true);
    assert_eq!(cap.raw_state, "{\"source\":\"nvim_rpc\",\"status\":\"connected\"}");
    assert!(cap.cwd.is_empty());
    assert!(cap.open_files.is_empty());
}

struct StubEditor;

impl Editor for StubEditor {
    fn editor_name(&self) -> &str {
        "stub"
    }
}

#[test]
fn conformance_run_calls_editor_name() {
    assert!(conformance::run(&StubEditor).is_ok());
}

fn accepts_dyn_editor(_: &dyn Editor) {}

#[test]
fn assert_editor_is_object_safe() {
    accepts_dyn_editor(&StubEditor);
}

#[test]
fn dyn_editor_works() {
    let adapter: Box<dyn Editor> = Box::new(EmacsAdapter::new(None));
    assert_eq!(adapter.editor_name(), "emacs");
}

fn assert_send_sync<T: Send + Sync>() {}

#[test]
fn emacs_adapter_is_send_sync() {
    assert_send_sync::<EmacsAdapter>();
}
