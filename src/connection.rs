//! How to reach the cluster over SSH: host, user and credentials.
use vstd::prelude::*;

verus! {

/// The credentials for an SSH login.
#[derive(Debug, Clone)]
pub enum ConnectionAuth {
    /// A password and a multi-factor code, given on a keyboard-interactive
    /// login.
    PasswordMFA { password: String, mfa_code: String },
    /// A key file, with its passphrase if it has one.
    SSHKey { path: String, passphrase: Option<String> },
}

/// Where and as whom to log in.
#[derive(Debug)]
pub struct ConnectionConfig {
    /// Host name and port.
    pub host: (String, u16),
    pub username: String,
    pub auth: ConnectionAuth,
}

impl ConnectionConfig {
    /// No host, port 22, no user, and an empty password and code.
    pub fn default() -> (r: ConnectionConfig)
        ensures
            r.host.0@.len() == 0,
            r.host.1 == 22,
            r.username@.len() == 0,
            r.auth matches ConnectionAuth::PasswordMFA { password, mfa_code } && password@.len()
                == 0 && mfa_code@.len() == 0,
    {
        ConnectionConfig {
            host: (String::new(), 22),
            username: String::new(),
            auth: ConnectionAuth::PasswordMFA { password: String::new(), mfa_code: String::new() },
        }
    }

    /// A configuration of the given parts.
    pub fn new(host: (String, u16), username: String, auth: ConnectionAuth) -> (r: ConnectionConfig)
        ensures
            r.host == host,
            r.username == username,
            r.auth == auth,
    {
        ConnectionConfig { host, username, auth }
    }

    /// `self` with other credentials.
    pub fn with_auth(self, auth: ConnectionAuth) -> (r: ConnectionConfig)
        ensures
            r.host == self.host,
            r.username == self.username,
            r.auth == auth,
    {
        let mut c = self;
        c.auth = auth;
        c
    }

    /// `self` with another user.
    pub fn with_username(self, username: String) -> (r: ConnectionConfig)
        ensures
            r.host == self.host,
            r.username == username,
            r.auth == self.auth,
    {
        let mut c = self;
        c.username = username;
        c
    }

    /// `self` with another host.
    pub fn with_host(self, host: (String, u16)) -> (r: ConnectionConfig)
        ensures
            r.host == host,
            r.username == self.username,
            r.auth == self.auth,
    {
        let mut c = self;
        c.host = host;
        c
    }
}

} // verus!
