//! The Neovim adapter, which talks to a running Neovim through its RPC
//! socket.

use vstd::prelude::*;
use crate::editor::{EditorCapture, Editor};

verus! {

/// Neovim editor adapter.
///
/// The socket path comes from (in priority order) the path given at
/// construction with [`NvimAdapter::with_socket`], the `NVIM` environment
/// variable, the legacy `NVIM_LISTEN_ADDRESS` variable.
pub struct NvimAdapter {
    socket_path: Option<String>,
}

impl NvimAdapter {
    /// The socket path, where there is one.
    pub closed spec fn spec_socket_path(&self) -> Option<String> {
        self.socket_path
    }

    /// An adapter for the socket named by the environment, given as the
    /// values of `NVIM` and `NVIM_LISTEN_ADDRESS` (`None` where unset): the
    /// first one set.
    pub fn new(env_nvim: Option<String>, env_listen_address: Option<String>) -> (a: NvimAdapter)
        ensures
            a.spec_socket_path() == match env_nvim {
                Some(p) => Some(p),
                None => env_listen_address,
            },
    {
        let socket_path = match env_nvim {
            Some(p) => Some(p),
            None => env_listen_address,
        };
        NvimAdapter { socket_path }
    }

    /// An adapter for an explicit socket path.
    pub fn with_socket(path: &str) -> (a: NvimAdapter)
        ensures
            a.spec_socket_path() matches Some(p) && p@ == path@,
    {
        NvimAdapter { socket_path: Some(path.to_owned()) }
    }

    /// The capture of a Neovim session, given whether its socket could be
    /// reached: no files and no working directory are read over the socket,
    /// only whether it answered.
    pub fn capture_from(&self, connected: bool) -> (c: EditorCapture)
        ensures
            c.editor_name@ == "neovim"@,
            c.cwd@.len() == 0,
            c.open_files@.len() == 0,
            c.raw_state@ == if connected {
                "{\"source\":\"nvim_rpc\",\"status\":\"connected\"}"@
            } else {
                "{\"error\":\"socket not available\"}"@
            },
    {
        let raw_state = if connected {
            "{\"source\":\"nvim_rpc\",\"status\":\"connected\"}".to_owned()
        } else {
            "{\"error\":\"socket not available\"}".to_owned()
        };
        EditorCapture { editor_name: "neovim".to_owned(), cwd: String::new(), open_files: Vec::new(), raw_state }
    }

    /// The socket path, if any.
    pub fn socket_path(&self) -> (r: Option<&str>)
        ensures
            match self.spec_socket_path() {
                Some(p) => r matches Some(q) && q@ == p@,
                None => r is None,
            },
    {
        match &self.socket_path {
            Some(p) => Some(p.as_str()),
            None => None,
        }
    }
}

impl Editor for NvimAdapter {
    fn editor_name(&self) -> (r: &str)
        ensures
            r@ == "neovim"@,
    {
        "neovim"
    }
}

} // verus!
