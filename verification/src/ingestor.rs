//! Ingestion of qualified packages under a package version.
use vstd::prelude::*;

verus! {

/// A package version row.
#[derive(Clone, Debug, PartialEq, Eq)]
pub struct PackageVersionModel {
    pub id: u128,
    pub package_id: u128,
    pub version: String,
}

/// A qualified package row: a package version with a set of qualifiers.
#[derive(Clone, Debug, PartialEq, Eq)]
pub struct QualifiedPackageModel {
    pub id: u128,
    pub package_version_id: u128,
    pub qualifiers: Vec<(String, String)>,
}

/// What ingesting a qualified package comes to: the row that exists
/// already, or the row to insert.
#[derive(Clone, Debug, PartialEq, Eq)]
pub enum QualifiedPackageIngest {
    Found(QualifiedPackageModel),
    Create(QualifiedPackageModel),
}

/// Live context for a package version.
#[derive(Clone, Debug, PartialEq, Eq)]
pub struct PackageVersionContext {
    pub package_version: PackageVersionModel,
}

impl PackageVersionContext {
    pub fn new(package_version: PackageVersionModel) -> (r: PackageVersionContext)
        ensures
            r.package_version == package_version,
    {
        PackageVersionContext { package_version }
    }

    /// Ingesting a qualified package of this version: the row that the
    /// lookup by version and qualifiers `found` is kept; when there is none,
    /// a row is created with the purl's qualifier UUID, this version and the
    /// purl's qualifiers.
    pub fn ingest_qualified_package(
        &self,
        found: Option<QualifiedPackageModel>,
        qualifier_uuid: u128,
        qualifiers: Vec<(String, String)>,
    ) -> (r: QualifiedPackageIngest)
        ensures
            match found {
                Some(m) => r == QualifiedPackageIngest::Found(m),
                None => r matches QualifiedPackageIngest::Create(m) && m.id == qualifier_uuid
                    && m.package_version_id == self.package_version.id && m.qualifiers == qualifiers,
            },
    {
        match found {
            Some(found) => QualifiedPackageIngest::Found(found),
            None => QualifiedPackageIngest::Create(
                QualifiedPackageModel {
                    id: qualifier_uuid,
                    package_version_id: self.package_version.id,
                    qualifiers,
                },
            ),
        }
    }
}

} // verus!
