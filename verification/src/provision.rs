//! Provisioning of throwaway databases for isolated test runs.
//!
//! Each run walks a fixed sequence of steps: assign a fresh name, create the
//! database, migrate it, hand out the pool, close the pool, drop the
//! database. The `Provisioner` state machine admits the steps only in that
//! order; the statements each step executes are built here with exact
//! contracts; and a model of the server shows why distinct names keep
//! concurrent runs out of each other's way.

use vstd::prelude::*;

use crate::configuration::DatabaseSettings;

verus! {

/// A subscriber row, as the model sees it: a name and an email.
pub type RowModel = (Seq<char>, Seq<char>);

/// A model of the database server: every existing database, by name, with
/// the rows it holds.
pub struct ServerModel {
    pub databases: Map<Seq<char>, Seq<RowModel>>,
}

impl ServerModel {
    /// Whether a database with this name exists.
    pub open spec fn has_database(&self, name: Seq<char>) -> bool {
        self.databases.dom().contains(name)
    }

    /// A connection addressing this name succeeds exactly when the database
    /// exists.
    pub open spec fn can_connect(&self, name: Seq<char>) -> bool {
        self.has_database(name)
    }

    /// The rows of a database.
    pub open spec fn rows(&self, name: Seq<char>) -> Seq<RowModel>
        recommends
            self.has_database(name),
    {
        self.databases[name]
    }

    /// What a database-creation statement does: a new, empty database under
    /// this name, or a failure when the name is taken.
    pub open spec fn create_database(&self, name: Seq<char>) -> Option<ServerModel> {
        if self.has_database(name) {
            None
        } else {
            Some(ServerModel { databases: self.databases.insert(name, Seq::empty()) })
        }
    }

    /// What a database-drop statement does: the database is gone, or the
    /// statement fails because there was none of that name.
    pub open spec fn drop_database(&self, name: Seq<char>) -> Option<ServerModel> {
        if self.has_database(name) {
            Some(ServerModel { databases: self.databases.remove(name) })
        } else {
            None
        }
    }

    /// What an insert into the subscriptions table of one database does.
    pub open spec fn insert_row(&self, name: Seq<char>, row: RowModel) -> ServerModel
        recommends
            self.has_database(name),
    {
        ServerModel { databases: self.databases.insert(name, self.databases[name].push(row)) }
    }
}

/// One full provisioning lifecycle against the server: create the database,
/// then drop it again. `None` when either statement fails.
pub open spec fn provision_cycle(m: ServerModel, name: Seq<char>) -> Option<ServerModel> {
    match m.create_database(name) {
        None => None,
        Some(created) => created.drop_database(name),
    }
}

/// Writes into one test's database are invisible to a test working under a
/// different name: the other database's rows, and its existence, are exactly
/// as they were.
pub proof fn lemma_distinct_names_isolate(
    m: ServerModel,
    mine: Seq<char>,
    other: Seq<char>,
    row: RowModel,
)
    requires
        mine != other,
        m.has_database(mine),
        m.has_database(other),
    ensures
        m.insert_row(mine, row).has_database(other),
        m.insert_row(mine, row).rows(other) == m.rows(other),
{
}

/// Provisioning or tearing down under one name is invisible under another:
/// neither a create nor a drop of one test's database changes whether some
/// other test's database exists or what it holds.
pub proof fn lemma_admin_under_other_name_invisible(
    m: ServerModel,
    mine: Seq<char>,
    other: Seq<char>,
)
    requires
        mine != other,
        m.has_database(other),
    ensures
        m.create_database(mine) matches Some(c) ==> c.has_database(other) && c.rows(other)
            == m.rows(other),
        m.drop_database(mine) matches Some(d) ==> d.has_database(other) && d.rows(other)
            == m.rows(other),
{
}

/// After teardown the database no longer exists: the drop succeeds, and a
/// connection attempt addressing that name afterwards fails.
pub proof fn lemma_teardown_removes_database(m: ServerModel, name: Seq<char>)
    requires
        m.has_database(name),
    ensures
        m.drop_database(name) is Some,
        !m.drop_database(name)->Some_0.can_connect(name),
{
}

/// Running the full provision-and-drop cycle twice in succession, with two
/// different fresh names, succeeds both times and leaves the server exactly
/// as it started: no state survives either run.
pub proof fn lemma_cycle_leaves_no_state(m: ServerModel, n1: Seq<char>, n2: Seq<char>)
    requires
        n1 != n2,
        !m.has_database(n1),
        !m.has_database(n2),
    ensures
        provision_cycle(m, n1) is Some,
        provision_cycle(provision_cycle(m, n1)->Some_0, n2) is Some,
        provision_cycle(provision_cycle(m, n1)->Some_0, n2)->Some_0.databases == m.databases,
{
    let after1 = provision_cycle(m, n1)->Some_0;
    assert(after1.databases =~= m.databases);
    let after2 = provision_cycle(after1, n2)->Some_0;
    assert(after2.databases =~= m.databases);
}

/// A character that may stand in a generated database name: a lowercase hex
/// digit or a hyphen. No quote and no whitespace is among them, so the name
/// can stand between double quotes in an administration statement.
pub open spec fn is_name_char(c: char) -> bool {
    c == '-' || (48 <= c as u32 && c as u32 <= 57) || (97 <= c as u32 && c as u32 <= 102)
}

/// Every character of the sequence may stand in a generated database name.
pub open spec fn is_name_seq(s: Seq<char>) -> bool {
    forall|i: int| 0 <= i < s.len() ==> is_name_char(#[trigger] s[i])
}

/// Relies on uuid::Uuid::new_v4 and the hyphenated form its Display writes:
/// a freshly drawn random identifier as 36 characters, lowercase hexadecimal
/// digits in five groups separated by hyphens. Nothing relates two draws, so
/// nothing is claimed beyond the shape.
#[verifier::external_body]
fn fresh_name_token() -> (r: String)
    ensures
        r@.len() == 36,
        is_name_seq(r@),
{
    uuid::Uuid::new_v4().to_string()
}

/// The statement the creation step executes.
pub open spec fn create_statement_view(name: Seq<char>) -> Seq<char> {
    "CREATE DATABASE \""@ + name + "\";"@
}

/// The statement the teardown step executes.
pub open spec fn drop_statement_view(name: Seq<char>) -> Seq<char> {
    "DROP DATABASE \""@ + name + "\";"@
}

/// The single migration script: the subscriptions table.
pub open spec fn migration_statement_view() -> Seq<char> {
    "CREATE TABLE subscriptions (name TEXT NOT NULL, email TEXT NOT NULL);"@
}

/// The steps of one test run's database lifecycle, in the only order the
/// `Provisioner` admits them.
#[derive(Clone, Copy, Debug, PartialEq, Eq, Structural)]
pub enum ProvisionStep {
    Unconfigured,
    NameAssigned,
    Created,
    Migrated,
    PoolReady,
    Closed,
    Dropped,
}

/// The lifecycle handle of one test run's database. It carries the settings
/// the run works under and refuses every step out of order.
pub struct Provisioner {
    pub step: ProvisionStep,
    pub settings: DatabaseSettings,
}

impl Provisioner {
    /// The fields of the settings that provisioning never touches.
    pub open spec fn same_server(&self, other: &Provisioner) -> bool {
        self.settings.username@ == other.settings.username@
            && self.settings.password@ == other.settings.password@
            && self.settings.host@ == other.settings.host@ && self.settings.port
            == other.settings.port
    }

    /// Starts a lifecycle from the loaded base settings; nothing has been
    /// decided or done yet.
    pub fn new(base: DatabaseSettings) -> (p: Provisioner)
        ensures
            p.step == ProvisionStep::Unconfigured,
            p.settings == base,
    {
        Provisioner { step: ProvisionStep::Unconfigured, settings: base }
    }

    /// Overwrites the database name with a freshly generated token: 36
    /// characters of lowercase hex and hyphens, fit for quoting. Everything
    /// else in the settings stays as loaded.
    pub fn assign_name(&mut self)
        requires
            old(self).step == ProvisionStep::Unconfigured,
        ensures
            final(self).step == ProvisionStep::NameAssigned,
            final(self).settings.database_name@.len() == 36,
            is_name_seq(final(self).settings.database_name@),
            final(self).same_server(&*old(self)),
    {
        self.settings.database_name = fresh_name_token();
        self.step = ProvisionStep::NameAssigned;
    }

    /// The statement that creates this run's database.
    pub fn creation_statement(&self) -> (r: String)
        requires
            self.step == ProvisionStep::NameAssigned,
        ensures
            r@ == create_statement_view(self.settings.database_name@),
    {
        let mut s = String::from_str("CREATE DATABASE \"");
        s.append(self.settings.database_name.as_str());
        s.append("\";");
        proof {
            assert(s@ =~= create_statement_view(self.settings.database_name@));
        }
        s
    }

    /// Records that the creation statement succeeded.
    pub fn mark_created(&mut self)
        requires
            old(self).step == ProvisionStep::NameAssigned,
        ensures
            final(self).step == ProvisionStep::Created,
            final(self).settings == old(self).settings,
    {
        self.step = ProvisionStep::Created;
    }

    /// The migration script to run, in order, against the new database.
    pub fn migration_statement(&self) -> (r: String)
        requires
            self.step == ProvisionStep::Created,
        ensures
            r@ == migration_statement_view(),
    {
        String::from_str("CREATE TABLE subscriptions (name TEXT NOT NULL, email TEXT NOT NULL);")
    }

    /// Records that every migration ran.
    pub fn mark_migrated(&mut self)
        requires
            old(self).step == ProvisionStep::Created,
        ensures
            final(self).step == ProvisionStep::Migrated,
            final(self).settings == old(self).settings,
    {
        self.step = ProvisionStep::Migrated;
    }

    /// Records that the migrated database's pool is the one handed to the
    /// test body.
    pub fn mark_pool_ready(&mut self)
        requires
            old(self).step == ProvisionStep::Migrated,
        ensures
            final(self).step == ProvisionStep::PoolReady,
            final(self).settings == old(self).settings,
    {
        self.step = ProvisionStep::PoolReady;
    }

    /// Records that the test body is done and the pool has been closed.
    pub fn mark_closed(&mut self)
        requires
            old(self).step == ProvisionStep::PoolReady,
        ensures
            final(self).step == ProvisionStep::Closed,
            final(self).settings == old(self).settings,
    {
        self.step = ProvisionStep::Closed;
    }

    /// The statement that tears this run's database down; only once the pool
    /// is closed.
    pub fn drop_statement(&self) -> (r: String)
        requires
            self.step == ProvisionStep::Closed,
        ensures
            r@ == drop_statement_view(self.settings.database_name@),
    {
        let mut s = String::from_str("DROP DATABASE \"");
        s.append(self.settings.database_name.as_str());
        s.append("\";");
        proof {
            assert(s@ =~= drop_statement_view(self.settings.database_name@));
        }
        s
    }

    /// Records that the database is gone; the lifecycle is over.
    pub fn mark_dropped(&mut self)
        requires
            old(self).step == ProvisionStep::Closed,
        ensures
            final(self).step == ProvisionStep::Dropped,
            final(self).settings == old(self).settings,
    {
        self.step = ProvisionStep::Dropped;
    }
}

} // verus!
