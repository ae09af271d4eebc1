//! Tests of the multiplexer interface.

use resurreccion::mux::conformance;
use resurreccion::mux::{Capability, LayoutCapture, LayoutSpec, Mux, MuxError, TopologyEvent};

#[test]
fn layout_spec_default() {
    let spec = LayoutSpec::default();
    assert!(spec.panes.is_empty());
}

#[test]
fn capability_flags_are_bitflags() {
    let none = Capability::empty();
    let plugin = Capability::PLUGIN_EMBEDDING();
    assert!(!none.contains(plugin));
}

#[test]
fn mux_error_is_send_sync() {
    fn _assert<T: Send + Sync>() {}
    _assert::<MuxError>();
}

#[test]
fn retryable_errors_are_io_and_unavailable_backends() {
    assert!(MuxError::NotAvailable("zellij".to_string()).is_retryable());
    assert!(MuxError::Io(std::io::Error::new(std::io::ErrorKind::Other, "x")).is_retryable());
    assert!(!MuxError::Fatal("boom".to_string()).is_retryable());
    assert!(!MuxError::SessionExists("s".to_string()).is_retryable());
    let from_io: MuxError = std::io::Error::new(std::io::ErrorKind::Other, "pipe").into();
    assert!(from_io.is_retryable());
}

#[test]
fn mux_error_messages() {
    assert_eq!(MuxError::NotAvailable("zellij".to_string()).to_string(), "backend not available: zellij");
    assert_eq!(MuxError::SessionNotFound("s".to_string()).to_string(), "session not found: s");
    assert_eq!(MuxError::ParseError("p".to_string()).to_string(), "parse error: p");
    assert_eq!(
        MuxError::Io(std::io::Error::new(std::io::ErrorKind::Other, "pipe")).to_string(),
        "io: pipe"
    );
}

#[test]
fn capability_sets() {
    let both = Capability::COPY_MODE().union(Capability::SCROLLBACK_TEXT());
    assert_eq!(both.bits(), 6);
    assert!(both.contains(Capability::COPY_MODE()));
    assert!(!both.contains(Capability::PLUGIN_EMBEDDING()));
    assert!(both.contains(Capability::empty()));
    assert_eq!(Capability::from_bits_retain(9).bits(), 9);
}

struct StaticMux {
    discover: fn() -> Result<Vec<String>, MuxError>,
}

impl Mux for StaticMux {
    fn discover(&self) -> Result<Vec<String>, MuxError> {
        (self.discover)()
    }
    fn create(&self, _: &str, _: &LayoutSpec) -> Result<(), MuxError> {
        Ok(())
    }
    fn attach(&self, _: &str) -> Result<(), MuxError> {
        Ok(())
    }
    fn capture(&self, name: &str) -> Result<LayoutCapture, MuxError> {
        Ok(LayoutCapture {
            session_name: name.to_string(),
            panes: vec![],
            tabs: vec![],
            capabilities: Capability::empty(),
        })
    }
    fn apply_layout(&self, _: &str, _: &LayoutSpec) -> Result<(), MuxError> {
        Ok(())
    }
    fn send_keys(&self, _: &str, _: &str) -> Result<(), MuxError> {
        Ok(())
    }
    fn subscribe_topology(&self, _: &str) -> Result<std::sync::mpsc::Receiver<TopologyEvent>, MuxError> {
        let (_tx, rx) = std::sync::mpsc::channel();
        Ok(rx)
    }
    fn capabilities(&self) -> Capability {
        Capability::COPY_MODE()
    }
}

#[test]
fn conformance_accepts_running_and_unavailable_backends() {
    let running = StaticMux { discover: || Ok(vec!["main".to_string()]) };
    assert!(conformance::run(&running).is_ok());
    let absent = StaticMux { discover: || Err(MuxError::NotAvailable("zellij".to_string())) };
    assert!(conformance::run(&absent).is_ok());
    let broken = StaticMux { discover: || Err(MuxError::Fatal("corrupt".to_string())) };
    assert_eq!(conformance::run(&broken).unwrap_err(), "discover() failed fatally: fatal: corrupt");
}
