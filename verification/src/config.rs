//! Configuration builders for concrete storage drivers that can sit behind
//! the storage operator: an IPFS mutable-filesystem endpoint and a SurrealDB
//! key-value store. The builders collect and validate plain settings; the
//! drivers themselves (connections, HTTP) live outside the core.

use vstd::prelude::*;
use vstd::string::StrSliceExecFns;
use vstd::string::StringExecFns;

verus! {

/// A working directory as every driver consumes it: with exactly one leading
/// and one trailing '/' added where the given one lacks them. The empty
/// string normalizes to "/".
pub open spec fn spec_normalized_root(r: Seq<char>) -> Seq<char> {
    let lead = if r.len() == 0 || r[0] != '/' {
        seq!['/'] + r
    } else {
        r
    };
    if lead[lead.len() - 1] != '/' {
        lead + seq!['/']
    } else {
        lead
    }
}

/// Normalizes a working directory: ensures the leading and trailing '/'.
pub fn normalize_root(root: &str) -> (r: String)
    ensures
        r@ == spec_normalized_root(root@),
{
    let n = root.unicode_len();
    let lead: String = if n == 0 || root.get_char(0) != '/' {
        let s = String::from_str("/");
        proof {
            reveal_strlit("/");
        }
        s.concat(root)
    } else {
        root.to_owned()
    };
    let ln = lead.as_str().unicode_len();
    proof {
        reveal_strlit("/");
        assert(lead@.len() > 0);
    }
    if lead.as_str().get_char(ln - 1) != '/' {
        proof {
            reveal_strlit("/");
        }
        lead.concat("/")
    } else {
        lead
    }
}

/// Builder of the IPFS mutable-filesystem driver settings: the working
/// directory and the daemon endpoint.
pub struct IpmfsBuilder {
    /// The working directory, when one was set.
    pub root: Option<String>,
    /// The daemon endpoint, when one was set.
    pub endpoint: Option<String>,
}

impl Default for IpmfsBuilder {
    /// A builder with nothing set.
    fn default() -> (r: IpmfsBuilder)
        ensures
            r.root is None,
            r.endpoint is None,
    {
        IpmfsBuilder { root: None, endpoint: None }
    }
}

impl IpmfsBuilder {
    /// Sets the working directory; an empty string clears it.
    pub fn root(&mut self, root: &str)
        ensures
            root@.len() == 0 ==> final(self).root is None,
            root@.len() > 0 ==> (final(self).root matches Some(s) && s@ == root@),
            final(self).endpoint == old(self).endpoint,
    {
        self.root = if root.is_empty() {
            None
        } else {
            Some(root.to_owned())
        };
    }

    /// Sets the daemon endpoint; an empty string clears it. Left unset, the
    /// build falls back to "http://localhost:5001".
    pub fn endpoint(&mut self, endpoint: &str)
        ensures
            endpoint@.len() == 0 ==> final(self).endpoint is None,
            endpoint@.len() > 0 ==> (final(self).endpoint matches Some(s) && s@ == endpoint@),
            final(self).root == old(self).root,
    {
        self.endpoint = if endpoint.is_empty() {
            None
        } else {
            Some(endpoint.to_owned())
        };
    }

    /// Resolves the settings the driver starts from: the normalized working
    /// directory and the endpoint, defaulted to the local daemon. The root
    /// is consumed.
    pub fn build(&mut self) -> (r: (String, String))
        ensures
            old(self).root matches Some(s) ==> r.0@ == spec_normalized_root(s@),
            old(self).root is None ==> r.0@ == spec_normalized_root(Seq::<char>::empty()),
            old(self).endpoint matches Some(s) ==> r.1@ == s@,
            old(self).endpoint is None ==> r.1@ == "http://localhost:5001"@,
            final(self).root is None,
            final(self).endpoint == old(self).endpoint,
    {
        let root_src = self.root.take();
        let root = match &root_src {
            Some(s) => normalize_root(s.as_str()),
            None => {
                let r = normalize_root("");
                proof {
                    reveal_strlit("");
                }
                r
            },
        };
        let endpoint = match &self.endpoint {
            Some(s) => s.clone(),
            None => String::from_str("http://localhost:5001"),
        };
        (root, endpoint)
    }
}

/// The settings of the SurrealDB driver, as the builder collects them.
pub struct SurrealdbConfig {
    /// The connection string, for example "ws://ip:port".
    pub connection_string: Option<String>,
    /// The username for signin, when authentication is wanted.
    pub username: Option<String>,
    /// The password for signin, when authentication is wanted.
    pub password: Option<String>,
    /// The namespace to use.
    pub namespace: Option<String>,
    /// The database to use.
    pub database: Option<String>,
    /// The table read and written.
    pub table: Option<String>,
    /// The field keys are stored under; "key" when unset.
    pub key_field: Option<String>,
    /// The field values are stored under; "value" when unset.
    pub value_field: Option<String>,
    /// The working directory.
    pub root: Option<String>,
}

impl Default for SurrealdbConfig {
    /// A configuration with nothing set.
    fn default() -> (r: SurrealdbConfig)
        ensures
            r.connection_string is None,
            r.username is None,
            r.password is None,
            r.namespace is None,
            r.database is None,
            r.table is None,
            r.key_field is None,
            r.value_field is None,
            r.root is None,
    {
        SurrealdbConfig {
            connection_string: None,
            username: None,
            password: None,
            namespace: None,
            database: None,
            table: None,
            key_field: None,
            value_field: None,
            root: None,
        }
    }
}

/// The setting a SurrealDB build cannot do without.
#[derive(Clone, Copy, Debug, PartialEq, Eq, Structural)]
pub enum SurrealdbConfigError {
    /// No connection string was set.
    MissingConnectionString,
    /// No namespace was set.
    MissingNamespace,
    /// No database was set.
    MissingDatabase,
    /// No table was set.
    MissingTable,
}

/// The resolved settings a SurrealDB connection is opened from: every field
/// down to a plain string, the optional ones defaulted. The struct carries
/// the password, so it deliberately has no Debug form.
pub struct Adapter {
    /// The connection string.
    pub connection_string: String,
    /// The username; empty when authentication is not wanted.
    pub username: String,
    /// The password; empty when authentication is not wanted.
    pub password: String,
    /// The namespace.
    pub namespace: String,
    /// The database.
    pub database: String,
    /// The table.
    pub table: String,
    /// The field keys are stored under.
    pub key_field: String,
    /// The field values are stored under.
    pub value_field: String,
    /// The normalized working directory.
    pub root: String,
}

/// Builder of the SurrealDB driver settings.
pub struct SurrealdbBuilder {
    /// The settings collected so far.
    pub config: SurrealdbConfig,
}

impl Default for SurrealdbBuilder {
    /// A builder with nothing set.
    fn default() -> (r: SurrealdbBuilder)
        ensures
            r.config.connection_string is None,
            r.config.username is None,
            r.config.password is None,
            r.config.namespace is None,
            r.config.database is None,
            r.config.table is None,
            r.config.key_field is None,
            r.config.value_field is None,
            r.config.root is None,
    {
        SurrealdbBuilder { config: SurrealdbConfig::default() }
    }
}

impl SurrealdbBuilder {
    /// Sets the connection string; an empty string is ignored.
    pub fn connection_string(&mut self, connection_string: &str)
        ensures
            connection_string@.len() == 0 ==> *final(self) == *old(self),
            connection_string@.len() > 0 ==> (final(self).config.connection_string matches Some(s)
                && s@ == connection_string@ && final(self).config
                == (SurrealdbConfig {
                connection_string: final(self).config.connection_string,
                ..old(self).config
            })),
    {
        if !connection_string.is_empty() {
            self.config.connection_string = Some(connection_string.to_owned());
        }
    }

    /// Sets the working directory; an empty string is ignored.
    pub fn root(&mut self, root: &str)
        ensures
            root@.len() == 0 ==> *final(self) == *old(self),
            root@.len() > 0 ==> (final(self).config.root matches Some(s) && s@ == root@ && final(self).config == (SurrealdbConfig { root: final(self).config.root, ..old(self).config })),
    {
        if !root.is_empty() {
            self.config.root = Some(root.to_owned());
        }
    }

    /// Sets the table name; an empty string is ignored.
    pub fn table(&mut self, table: &str)
        ensures
            table@.len() == 0 ==> *final(self) == *old(self),
            table@.len() > 0 ==> (final(self).config.table matches Some(s) && s@ == table@ && final(self).config == (SurrealdbConfig { table: final(self).config.table, ..old(self).config })),
    {
        if !table.is_empty() {
            self.config.table = Some(table.to_owned());
        }
    }

    /// Sets the username for signin; an empty string is ignored.
    pub fn username(&mut self, username: &str)
        ensures
            username@.len() == 0 ==> *final(self) == *old(self),
            username@.len() > 0 ==> (final(self).config.username matches Some(s) && s@ == username@
                && final(self).config == (SurrealdbConfig {
                username: final(self).config.username,
                ..old(self).config
            })),
    {
        if !username.is_empty() {
            self.config.username = Some(username.to_owned());
        }
    }

    /// Sets the password for signin; an empty string is ignored.
    pub fn password(&mut self, password: &str)
        ensures
            password@.len() == 0 ==> *final(self) == *old(self),
            password@.len() > 0 ==> (final(self).config.password matches Some(s) && s@ == password@
                && final(self).config == (SurrealdbConfig {
                password: final(self).config.password,
                ..old(self).config
            })),
    {
        if !password.is_empty() {
            self.config.password = Some(password.to_owned());
        }
    }

    /// Sets the namespace; an empty string is ignored.
    pub fn namespace(&mut self, namespace: &str)
        ensures
            namespace@.len() == 0 ==> *final(self) == *old(self),
            namespace@.len() > 0 ==> (final(self).config.namespace matches Some(s) && s@
                == namespace@ && final(self).config == (SurrealdbConfig {
                namespace: final(self).config.namespace,
                ..old(self).config
            })),
    {
        if !namespace.is_empty() {
            self.config.namespace = Some(namespace.to_owned());
        }
    }

    /// Sets the database; an empty string is ignored.
    pub fn database(&mut self, database: &str)
        ensures
            database@.len() == 0 ==> *final(self) == *old(self),
            database@.len() > 0 ==> (final(self).config.database matches Some(s) && s@ == database@
                && final(self).config == (SurrealdbConfig {
                database: final(self).config.database,
                ..old(self).config
            })),
    {
        if !database.is_empty() {
            self.config.database = Some(database.to_owned());
        }
    }

    /// Sets the field keys are stored under; an empty string is ignored.
    pub fn key_field(&mut self, key_field: &str)
        ensures
            key_field@.len() == 0 ==> *final(self) == *old(self),
            key_field@.len() > 0 ==> (final(self).config.key_field matches Some(s) && s@
                == key_field@ && final(self).config == (SurrealdbConfig {
                key_field: final(self).config.key_field,
                ..old(self).config
            })),
    {
        if !key_field.is_empty() {
            self.config.key_field = Some(key_field.to_owned());
        }
    }

    /// Sets the field values are stored under; an empty string is ignored.
    pub fn value_field(&mut self, value_field: &str)
        ensures
            value_field@.len() == 0 ==> *final(self) == *old(self),
            value_field@.len() > 0 ==> (final(self).config.value_field matches Some(s) && s@
                == value_field@ && final(self).config == (SurrealdbConfig {
                value_field: final(self).config.value_field,
                ..old(self).config
            })),
    {
        if !value_field.is_empty() {
            self.config.value_field = Some(value_field.to_owned());
        }
    }

    /// Resolves the collected settings: the connection string, namespace,
    /// database and table must be set (the first missing one, in that order,
    /// names the error); username and password default to empty, the key and
    /// value fields to "key" and "value", and the working directory is
    /// normalized from "/" when unset.
    pub fn build(&self) -> (r: Result<Adapter, SurrealdbConfigError>)
        ensures
            self.config.connection_string is None ==> r == Err::<Adapter, SurrealdbConfigError>(
                SurrealdbConfigError::MissingConnectionString,
            ),
            self.config.connection_string is Some && self.config.namespace is None ==> r == Err::<
                Adapter,
                SurrealdbConfigError,
            >(SurrealdbConfigError::MissingNamespace),
            self.config.connection_string is Some && self.config.namespace is Some
                && self.config.database is None ==> r == Err::<Adapter, SurrealdbConfigError>(
                SurrealdbConfigError::MissingDatabase,
            ),
            self.config.connection_string is Some && self.config.namespace is Some
                && self.config.database is Some && self.config.table is None ==> r == Err::<
                Adapter,
                SurrealdbConfigError,
            >(SurrealdbConfigError::MissingTable),
            self.config.connection_string is Some && self.config.namespace is Some
                && self.config.database is Some && self.config.table is Some ==> (r matches Ok(a)
                && {
                &&& a.connection_string@ == self.config.connection_string.unwrap()@
                &&& a.namespace@ == self.config.namespace.unwrap()@
                &&& a.database@ == self.config.database.unwrap()@
                &&& a.table@ == self.config.table.unwrap()@
                &&& self.config.username matches Some(s) ==> a.username@ == s@
                &&& self.config.username is None ==> a.username@.len() == 0
                &&& self.config.password matches Some(s) ==> a.password@ == s@
                &&& self.config.password is None ==> a.password@.len() == 0
                &&& self.config.key_field matches Some(s) ==> a.key_field@ == s@
                &&& self.config.key_field is None ==> a.key_field@ == "key"@
                &&& self.config.value_field matches Some(s) ==> a.value_field@ == s@
                &&& self.config.value_field is None ==> a.value_field@ == "value"@
                &&& self.config.root matches Some(s) ==> a.root@ == spec_normalized_root(s@)
                &&& self.config.root is None ==> a.root@ == spec_normalized_root("/"@)
            }),
    {
        let connection_string = match &self.config.connection_string {
            Some(s) => s.clone(),
            None => { return Err(SurrealdbConfigError::MissingConnectionString) },
        };
        let namespace = match &self.config.namespace {
            Some(s) => s.clone(),
            None => { return Err(SurrealdbConfigError::MissingNamespace) },
        };
        let database = match &self.config.database {
            Some(s) => s.clone(),
            None => { return Err(SurrealdbConfigError::MissingDatabase) },
        };
        let table = match &self.config.table {
            Some(s) => s.clone(),
            None => { return Err(SurrealdbConfigError::MissingTable) },
        };
        let username = match &self.config.username {
            Some(s) => s.clone(),
            None => String::new(),
        };
        let password = match &self.config.password {
            Some(s) => s.clone(),
            None => String::new(),
        };
        let key_field = match &self.config.key_field {
            Some(s) => s.clone(),
            None => String::from_str("key"),
        };
        let value_field = match &self.config.value_field {
            Some(s) => s.clone(),
            None => String::from_str("value"),
        };
        let root = match &self.config.root {
            Some(s) => normalize_root(s.as_str()),
            None => normalize_root("/"),
        };
        Ok(
            Adapter {
                connection_string,
                username,
                password,
                namespace,
                database,
                table,
                key_field,
                value_field,
                root,
            },
        )
    }
}

} // verus!
