use trustify::advisory::{advisory_key, translate_term, AdvisoryKey, Error};
use trustify::entity::advisory::{organization, Entity, IdFilter};
use trustify::entity::organization::Model;
use trustify::graphql::{
    Advisory, AdvisoryRecord, FieldError, MutationRoot, Package, PackageRecord, QueryRoot, Sbom,
    SbomInput, SbomRecord, VulnerabilityRecord,
};
use trustify::id::Id;
use trustify::ingestor::{
    PackageVersionContext, PackageVersionModel, QualifiedPackageIngest, QualifiedPackageModel,
};
use trustify::migration::Migration;

fn s(x: &str) -> String {
    x.to_string()
}

#[test]
fn getters_show_fields() {
    let a = Advisory { id: 7, identifier: s("RHSA-1"), location: s("loc"), sha256: s("abc"), title: s("t") };
    assert_eq!(a.id(), 7);
    assert_eq!(a.identifier(), "RHSA-1");
    assert_eq!(a.location(), "loc");
    assert_eq!(a.sha256(), "abc");
    assert_eq!(a.title(), "t");
    let p = Package { id: 3, package_type: s("rpm"), namespace: s("redhat"), name: s("A") };
    assert_eq!(p.id(), 3);
    assert_eq!(p.package_type(), "rpm");
    assert_eq!(p.namespace(), "redhat");
    assert_eq!(p.name(), "A");
    let b = Sbom { id: 1, location: s("1"), sha256: s("ff") };
    assert_eq!(b.id(), 1);
    assert_eq!(b.location(), "1");
    assert_eq!(b.sha256(), "ff");
}

#[test]
fn single_sbom_or_error() {
    let rec = SbomRecord { id: 4, location: s("here"), sha256: s("aa") };
    assert_eq!(QueryRoot::sbom(Ok(Some(rec))), Ok(Sbom { id: 4, location: s("here"), sha256: s("aa") }));
    let err = FieldError { message: s("Failed to retrieve sbom"), internal_error: None };
    assert_eq!(QueryRoot::sbom(Ok(None)), Err(err.clone()));
    assert_eq!(QueryRoot::sbom(Err(())), Err(err));
}

#[test]
fn lists_default_to_empty_on_failure() {
    assert_eq!(QueryRoot::sboms(Err(())), Ok(vec![]));
    assert_eq!(QueryRoot::vulnerabilities(Err(())), Ok(vec![]));
    assert_eq!(QueryRoot::advisories(Err(())), Ok(vec![]));
    assert_eq!(QueryRoot::packages(Err(())), Ok(vec![]));
}

#[test]
fn lists_fill_missing_text() {
    let v = QueryRoot::vulnerabilities(Ok(vec![
        VulnerabilityRecord { id: 1, identifier: s("CVE-1"), title: None },
        VulnerabilityRecord { id: 2, identifier: s("CVE-2"), title: Some(s("bad")) },
    ]))
    .unwrap();
    assert_eq!(v[0].title, "");
    assert_eq!(v[1].title, "bad");
    assert!(v[1].advisories.is_empty());
    let a = QueryRoot::advisories(Ok(vec![AdvisoryRecord {
        id: 5,
        identifier: s("RHSA"),
        location: s("l"),
        sha256: s("h"),
        title: None,
    }]))
    .unwrap();
    assert_eq!(a[0], Advisory { id: 5, identifier: s("RHSA"), location: s("l"), sha256: s("h"), title: s("") });
    let p = QueryRoot::packages(Ok(vec![PackageRecord { id: 9, package_type: s("npm"), namespace: None, name: s("lodash") }]))
        .unwrap();
    assert_eq!(p[0], Package { id: 9, package_type: s("npm"), namespace: s(""), name: s("lodash") });
    let b = QueryRoot::sboms(Ok(vec![SbomRecord { id: 2, location: s("x"), sha256: s("y") }])).unwrap();
    assert_eq!(b, vec![Sbom { id: 2, location: s("x"), sha256: s("y") }]);
}

#[test]
fn create_sbom_reports_internal_error() {
    let input = SbomInput { location: s("loc"), sha256: s("sum") };
    assert_eq!(MutationRoot::create_sbom(input.clone(), Ok(11)), Ok(Sbom { id: 11, location: s("loc"), sha256: s("sum") }));
    assert_eq!(
        MutationRoot::create_sbom(input, Err(())),
        Err(FieldError { message: s("Failed to create new sbom"), internal_error: Some(s("internal error")) })
    );
}

#[test]
fn advisory_lookup_by_uuid_or_sha256_only() {
    assert_eq!(advisory_key(Id::Uuid(42)), Ok(AdvisoryKey::Id(42)));
    assert_eq!(advisory_key(Id::Sha256(s("ab"))), Ok(AdvisoryKey::Sha256(s("ab"))));
    assert_eq!(advisory_key(Id::Sha384(s("ab"))), Err(Error::UnsupportedHashAlgorithm));
    assert_eq!(advisory_key(Id::Sha512(s("ab"))), Err(Error::UnsupportedHashAlgorithm));
}

#[test]
fn entity_filter_by_every_id_kind() {
    assert_eq!(Entity::try_filter(Id::Uuid(1)), Ok(IdFilter::Id(1)));
    assert_eq!(Entity::try_filter(Id::Sha256(s("a"))), Ok(IdFilter::Sha256(s("a"))));
    assert_eq!(Entity::try_filter(Id::Sha384(s("b"))), Ok(IdFilter::Sha384(s("b"))));
    assert_eq!(Entity::try_filter(Id::Sha512(s("c"))), Ok(IdFilter::Sha512(s("c"))));
}

#[test]
fn organization_found_or_not() {
    let m = Model { id: 1, name: s("org1"), cpe_key: None, website: Some(s("w")) };
    assert_eq!(organization(Some(m.clone())), Ok(m));
    assert_eq!(organization(None), Err(s("Organization not found")));
}

#[test]
fn severity_sort_becomes_score_sort() {
    assert_eq!(translate_term("average_severity", "desc", ""), Some(s("average_score:desc")));
    assert_eq!(translate_term("average_severity", "asc", ""), Some(s("average_score:asc")));
    assert_eq!(translate_term("average_severity", "=", "high"), None);
    assert_eq!(translate_term("title", "desc", ""), None);
}

#[test]
fn migration_statements_in_order() {
    let up = Migration.up_statements();
    assert_eq!(up.len(), 4);
    assert!(up[0].starts_with("ALTER TABLE product_status ADD COLUMN IF NOT EXISTS package_namespace text"));
    assert!(up[0].contains("CASE WHEN package LIKE '%/%' THEN split_part(package, '/', 1) ELSE NULL END) STORED"));
    assert!(up[1].contains("split_part(package, '/', 2) ELSE package END"));
    assert!(up[2].starts_with("UPDATE product_status"));
    assert_eq!(
        up[3],
        "CREATE INDEX CONCURRENTLY IF NOT EXISTS idx_product_status_package_lookup ON product_status (package_namespace, package_name)"
    );
    let down = Migration.down_statements();
    assert_eq!(down, vec![
        s("DROP INDEX IF EXISTS idx_product_status_package_lookup"),
        s("ALTER TABLE product_status DROP COLUMN IF EXISTS package_name"),
        s("ALTER TABLE product_status DROP COLUMN IF EXISTS package_namespace"),
    ]);
}

#[test]
fn qualified_package_found_or_created() {
    let ctx = PackageVersionContext::new(PackageVersionModel { id: 10, package_id: 2, version: s("1.0") });
    let existing = QualifiedPackageModel { id: 5, package_version_id: 10, qualifiers: vec![] };
    assert_eq!(
        ctx.ingest_qualified_package(Some(existing.clone()), 99, vec![(s("arch"), s("src"))]),
        QualifiedPackageIngest::Found(existing)
    );
    assert_eq!(
        ctx.ingest_qualified_package(None, 99, vec![(s("arch"), s("src"))]),
        QualifiedPackageIngest::Create(QualifiedPackageModel {
            id: 99,
            package_version_id: 10,
            qualifiers: vec![(s("arch"), s("src"))],
        })
    );
}
