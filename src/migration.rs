//! The failures of bringing the database schema up to date.
use vstd::prelude::*;
use vstd::string::StringExecFns;

verus! {

/// Why the schema could not be brought up to date.
#[derive(Clone, Copy, Debug, PartialEq, Eq, Structural)]
pub enum MigrateError {
    AcquireIssue,
    MigrationAdd,
    RunMigrate,
}

/// The description of each failure.
pub open spec fn migrate_error_text(e: MigrateError) -> Seq<char> {
    match e {
        MigrateError::AcquireIssue => "Failed to acquire database connection"@,
        MigrateError::MigrationAdd => "Failed to add migrations"@,
        MigrateError::RunMigrate => "Failed to run migrations"@,
    }
}

impl MigrateError {
    /// The description of the failure.
    pub fn message(&self) -> (r: String)
        ensures
            r@ == migrate_error_text(*self),
    {
        match self {
            MigrateError::AcquireIssue => <String as StringExecFns>::from_str(
                "Failed to acquire database connection",
            ),
            MigrateError::MigrationAdd => <String as StringExecFns>::from_str(
                "Failed to add migrations",
            ),
            MigrateError::RunMigrate => <String as StringExecFns>::from_str("Failed to run migrations"),
        }
    }
}

} // verus!
