//! The migration that splits `product_status.package` into indexed
//! namespace and name columns.
use vstd::prelude::*;

verus! {

/// Adds `package_namespace`: the part before `/` of a package that has one,
/// otherwise NULL.
pub const ADD_PACKAGE_NAMESPACE: &'static str = "ALTER TABLE product_status \
     ADD COLUMN IF NOT EXISTS package_namespace text GENERATED ALWAYS AS (\
         CASE WHEN package LIKE '%/%' THEN split_part(package, '/', 1) ELSE NULL END\
     ) STORED";

/// Adds `package_name`: the part after `/` of a package that has one,
/// otherwise the whole package.
pub const ADD_PACKAGE_NAME: &'static str = "ALTER TABLE product_status \
     ADD COLUMN IF NOT EXISTS package_name text GENERATED ALWAYS AS (\
         CASE WHEN package LIKE '%/%' THEN split_part(package, '/', 2) ELSE package END\
     ) STORED";

/// Recomputes the generated columns of existing rows.
pub const BACKFILL_PACKAGE_COLUMNS: &'static str = "UPDATE product_status SET package = package WHERE package_namespace IS NULL OR package_name IS NULL";

/// Indexes the lookup by namespace and name, without blocking writes.
pub const CREATE_PACKAGE_LOOKUP_INDEX: &'static str = "CREATE INDEX CONCURRENTLY IF NOT EXISTS idx_product_status_package_lookup \
     ON product_status (package_namespace, package_name)";

/// Drops the lookup index.
pub const DROP_PACKAGE_LOOKUP_INDEX: &'static str = "DROP INDEX IF EXISTS idx_product_status_package_lookup";

/// Drops `package_name`.
pub const DROP_PACKAGE_NAME: &'static str = "ALTER TABLE product_status DROP COLUMN IF EXISTS package_name";

/// Drops `package_namespace`.
pub const DROP_PACKAGE_NAMESPACE: &'static str = "ALTER TABLE product_status DROP COLUMN IF EXISTS package_namespace";

/// The migration.
#[derive(Clone, Copy, Debug, Default, PartialEq, Eq)]
pub struct Migration;

impl Migration {
    /// The statements that apply the migration, in order: add the namespace
    /// column, add the name column, backfill existing rows, create the index.
    pub fn up_statements(&self) -> (r: Vec<String>)
        ensures
            r@.len() == 4,
            r@[0]@ == ADD_PACKAGE_NAMESPACE@,
            r@[1]@ == ADD_PACKAGE_NAME@,
            r@[2]@ == BACKFILL_PACKAGE_COLUMNS@,
            r@[3]@ == CREATE_PACKAGE_LOOKUP_INDEX@,
    {
        let mut r = Vec::new();
        r.push(String::from_str(ADD_PACKAGE_NAMESPACE));
        r.push(String::from_str(ADD_PACKAGE_NAME));
        r.push(String::from_str(BACKFILL_PACKAGE_COLUMNS));
        r.push(String::from_str(CREATE_PACKAGE_LOOKUP_INDEX));
        r
    }

    /// The statements that revert the migration, in order: drop the index,
    /// then the name column, then the namespace column.
    pub fn down_statements(&self) -> (r: Vec<String>)
        ensures
            r@.len() == 3,
            r@[0]@ == DROP_PACKAGE_LOOKUP_INDEX@,
            r@[1]@ == DROP_PACKAGE_NAME@,
            r@[2]@ == DROP_PACKAGE_NAMESPACE@,
    {
        let mut r = Vec::new();
        r.push(String::from_str(DROP_PACKAGE_LOOKUP_INDEX));
        r.push(String::from_str(DROP_PACKAGE_NAME));
        r.push(String::from_str(DROP_PACKAGE_NAMESPACE));
        r
    }
}

} // verus!
