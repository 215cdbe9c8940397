//! Server-wide settings and per-connection session state.
use vstd::prelude::*;

verus! {

/// Settings shared by every connection.
#[derive(Clone, Debug)]
pub struct ServerConfig {
    /// Address the server binds to.
    pub bind: String,
    /// Database index a new connection starts in.
    pub default_db: usize,
}

impl Default for ServerConfig {
    fn default() -> (r: ServerConfig)
        ensures
            r.bind@ == "127.0.0.1:6379"@,
            r.default_db == 0,
    {
        ServerConfig { bind: "127.0.0.1:6379".to_owned(), default_db: 0 }
    }
}

/// State of one client connection.
#[derive(Clone, Debug)]
pub struct SocketConfig {
    /// The connection closes once the current reply is sent.
    pub should_close: bool,
    /// The selected database index.
    pub selected_db: usize,
    /// The user that authenticated on this connection, if any.
    pub authenticated_user: Option<Vec<u8>>,
    /// The name set by `CLIENT SETNAME`, if any.
    pub client_name: Option<Vec<u8>>,
}

impl Default for SocketConfig {
    fn default() -> (r: SocketConfig)
        ensures
            r.fresh(),
    {
        SocketConfig { should_close: false, selected_db: 0, authenticated_user: None, client_name: None }
    }
}

impl SocketConfig {
    /// The state of a connection that has just been accepted.
    pub open spec fn fresh(&self) -> bool {
        &&& !self.should_close
        &&& self.selected_db == 0
        &&& self.authenticated_user is None
        &&& self.client_name is None
    }

    /// Close the connection after the current reply.
    pub fn mark_close(&mut self)
        ensures
            final(self).should_close,
            final(self).selected_db == old(self).selected_db,
            final(self).authenticated_user == old(self).authenticated_user,
            final(self).client_name == old(self).client_name,
    {
        self.should_close = true;
    }
}

} // verus!
