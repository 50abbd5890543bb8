//! Typed settings for the service and the connection strings derived from them.

use vstd::prelude::*;

use crate::text::{decimal_rep, u16_decimal};

verus! {

/// Everything the service needs at startup: the database block and the port
/// the HTTP listener binds.
pub struct Setting {
    pub database: DatabaseSettings,
    pub application_port: u16,
}

/// Credentials and address of the database server, plus the name of the
/// database the service works against.
pub struct DatabaseSettings {
    pub username: String,
    pub password: String,
    pub port: u16,
    pub host: String,
    pub database_name: String,
}

impl DatabaseSettings {
    /// The connection string that addresses the server without selecting a
    /// database: `postgres://{username}:{password}@{host}:{port}`.
    pub open spec fn default_connection_view(&self) -> Seq<char> {
        "postgres://"@ + self.username@ + ":"@ + self.password@ + "@"@ + self.host@ + ":"@
            + decimal_rep(self.port as nat)
    }

    /// The connection string that addresses the named database:
    /// the default one followed by `/{database_name}`.
    pub open spec fn connection_view(&self) -> Seq<char> {
        self.default_connection_view() + "/"@ + self.database_name@
    }

    /// Returns the connection string for the stored database.
    pub fn get_connection_string(&self) -> (r: String)
        ensures
            r@ == self.connection_view(),
    {
        let mut s = self.get_connection_string_default_db();
        s.append("/");
        s.append(self.database_name.as_str());
        proof {
            assert(s@ =~= self.connection_view());
        }
        s
    }

    /// Returns the connection string for the default database.
    pub fn get_connection_string_default_db(&self) -> (r: String)
        ensures
            r@ == self.default_connection_view(),
    {
        let mut s = String::from_str("postgres://");
        s.append(self.username.as_str());
        s.append(":");
        s.append(self.password.as_str());
        s.append("@");
        s.append(self.host.as_str());
        s.append(":");
        let port = u16_decimal(self.port);
        s.append(port.as_str());
        proof {
            assert(s@ =~= self.default_connection_view());
        }
        s
    }
}

/// The local address the production listener binds: `127.0.0.1:{port}`.
pub fn listen_address(port: u16) -> (r: String)
    ensures
        r@ == "127.0.0.1:"@ + decimal_rep(port as nat),
{
    let mut s = String::from_str("127.0.0.1:");
    let p = u16_decimal(port);
    s.append(p.as_str());
    s
}

/// The base URL a test client addresses: `http://127.0.0.1:{port}`.
pub fn local_base_url(port: u16) -> (r: String)
    ensures
        r@ == "http://127.0.0.1:"@ + decimal_rep(port as nat),
{
    let mut s = String::from_str("http://127.0.0.1:");
    let p = u16_decimal(port);
    s.append(p.as_str());
    s
}

/// The connection string for the stored database extends the default-database
/// one: administration statements and normal operation address the same server
/// with the same credentials, and differ only in the trailing database name.
pub proof fn lemma_connection_string_extends_default(db: &DatabaseSettings)
    ensures
        db.connection_view() == db.default_connection_view() + "/"@ + db.database_name@,
        db.connection_view().subrange(0, db.default_connection_view().len() as int)
            == db.default_connection_view(),
{
    assert(db.connection_view().subrange(0, db.default_connection_view().len() as int)
        =~= db.default_connection_view());
}

} // verus!
