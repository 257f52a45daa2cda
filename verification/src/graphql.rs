//! The GraphQL schema objects and how query results become them.
use vstd::prelude::*;

verus! {

/// Advisory
#[derive(Clone, Debug, PartialEq, Eq)]
pub struct Advisory {
    pub id: i32,
    pub identifier: String,
    pub location: String,
    pub sha256: String,
    pub title: String,
}

/// Advisory Input
#[derive(Clone, Debug, PartialEq, Eq)]
pub struct AdvisoryInput {
    pub identifier: String,
    pub location: String,
    pub sha256: String,
    pub title: String,
}

impl Advisory {
    pub fn id(&self) -> (r: i32)
        ensures
            r == self.id,
    {
        self.id
    }

    pub fn identifier(&self) -> (r: &str)
        ensures
            r@ == self.identifier@,
    {
        self.identifier.as_str()
    }

    pub fn location(&self) -> (r: &str)
        ensures
            r@ == self.location@,
    {
        self.location.as_str()
    }

    pub fn sha256(&self) -> (r: &str)
        ensures
            r@ == self.sha256@,
    {
        self.sha256.as_str()
    }

    pub fn title(&self) -> (r: &str)
        ensures
            r@ == self.title@,
    {
        self.title.as_str()
    }
}

/// Package
#[derive(Clone, Debug, PartialEq, Eq)]
pub struct Package {
    pub id: i32,
    pub package_type: String,
    pub namespace: String,
    pub name: String,
}

/// Package Input
#[derive(Clone, Debug, PartialEq, Eq)]
pub struct PackageInput {
    pub package_type: String,
    pub namespace: String,
    pub name: String,
}

impl Package {
    pub fn id(&self) -> (r: i32)
        ensures
            r == self.id,
    {
        self.id
    }

    /// The package type (the GraphQL field `type`).
    pub fn package_type(&self) -> (r: &str)
        ensures
            r@ == self.package_type@,
    {
        self.package_type.as_str()
    }

    pub fn namespace(&self) -> (r: &str)
        ensures
            r@ == self.namespace@,
    {
        self.namespace.as_str()
    }

    pub fn name(&self) -> (r: &str)
        ensures
            r@ == self.name@,
    {
        self.name.as_str()
    }
}

/// Sbom
#[derive(Clone, Debug, PartialEq, Eq)]
pub struct Sbom {
    pub id: i32,
    pub location: String,
    pub sha256: String,
}

/// Sbom Input
#[derive(Clone, Debug, PartialEq, Eq)]
pub struct SbomInput {
    pub location: String,
    pub sha256: String,
}

impl Sbom {
    pub fn id(&self) -> (r: i32)
        ensures
            r == self.id,
    {
        self.id
    }

    pub fn location(&self) -> (r: &str)
        ensures
            r@ == self.location@,
    {
        self.location.as_str()
    }

    pub fn sha256(&self) -> (r: &str)
        ensures
            r@ == self.sha256@,
    {
        self.sha256.as_str()
    }
}

/// Vulnerability
#[derive(Clone, Debug, PartialEq, Eq)]
pub struct Vulnerability {
    pub id: i32,
    pub identifier: String,
    pub title: String,
    pub advisories: Vec<Advisory>,
}

/// An SBOM row as the graph returns it.
#[derive(Clone, Debug, PartialEq, Eq)]
pub struct SbomRecord {
    pub id: i32,
    pub location: String,
    pub sha256: String,
}

/// A vulnerability row as the graph returns it.
#[derive(Clone, Debug, PartialEq, Eq)]
pub struct VulnerabilityRecord {
    pub id: i32,
    pub identifier: String,
    pub title: Option<String>,
}

/// An advisory row as the graph returns it.
#[derive(Clone, Debug, PartialEq, Eq)]
pub struct AdvisoryRecord {
    pub id: i32,
    pub identifier: String,
    pub location: String,
    pub sha256: String,
    pub title: Option<String>,
}

/// A package row as the graph returns it.
#[derive(Clone, Debug, PartialEq, Eq)]
pub struct PackageRecord {
    pub id: i32,
    pub package_type: String,
    pub namespace: Option<String>,
    pub name: String,
}

/// A GraphQL field error: its message and, where there is one, the
/// `internal_error` extension.
#[derive(Clone, Debug, PartialEq, Eq)]
pub struct FieldError {
    pub message: String,
    pub internal_error: Option<String>,
}

/// The message of a failed single-SBOM lookup.
pub const SBOM_NOT_RETRIEVED: &'static str = "Failed to retrieve sbom";

/// The message of a failed SBOM creation.
pub const SBOM_NOT_CREATED: &'static str = "Failed to create new sbom";

/// The `internal_error` extension of a failed SBOM creation.
pub const INTERNAL_ERROR: &'static str = "internal error";

/// A text or, when it is absent, the empty text.
pub open spec fn text_or_empty(o: Option<String>) -> Seq<char> {
    match o {
        Some(s) => s@,
        None => Seq::empty(),
    }
}

/// `o` is present and holds the text `t`.
pub open spec fn is_text(o: Option<String>, t: Seq<char>) -> bool {
    match o {
        Some(s) => s@ == t,
        None => false,
    }
}

/// `s` shows the SBOM row `rec`.
pub open spec fn sbom_shows(s: Sbom, rec: SbomRecord) -> bool {
    s.id == rec.id && s.location@ == rec.location@ && s.sha256@ == rec.sha256@
}

/// `v` shows the vulnerability row `rec`, without advisories.
pub open spec fn vulnerability_shows(v: Vulnerability, rec: VulnerabilityRecord) -> bool {
    &&& v.id == rec.id
    &&& v.identifier@ == rec.identifier@
    &&& v.title@ == text_or_empty(rec.title)
    &&& v.advisories@.len() == 0
}

/// `a` shows the advisory row `rec`.
pub open spec fn advisory_shows(a: Advisory, rec: AdvisoryRecord) -> bool {
    &&& a.id == rec.id
    &&& a.identifier@ == rec.identifier@
    &&& a.location@ == rec.location@
    &&& a.sha256@ == rec.sha256@
    &&& a.title@ == text_or_empty(rec.title)
}

/// `p` shows the package row `rec`.
pub open spec fn package_shows(p: Package, rec: PackageRecord) -> bool {
    &&& p.id == rec.id
    &&& p.package_type@ == rec.package_type@
    &&& p.namespace@ == text_or_empty(rec.namespace)
    &&& p.name@ == rec.name@
}

fn text_or_empty_of(o: &Option<String>) -> (s: String)
    ensures
        s@ == text_or_empty(*o),
{
    match o {
        Some(t) => t.clone(),
        None => String::new(),
    }
}

/// The query root.
pub struct QueryRoot;

impl QueryRoot {
    /// Get single SBOM by location and sha256: the SBOM that the graph
    /// found, or an error when it found none or failed.
    pub fn sbom(loaded: Result<Option<SbomRecord>, ()>) -> (r: Result<Sbom, FieldError>)
        ensures
            match loaded {
                Ok(Some(rec)) => r matches Ok(s) && sbom_shows(s, rec),
                _ => r matches Err(e) && e.message@ == SBOM_NOT_RETRIEVED@ && e.internal_error is None,
            },
    {
        match loaded {
            Ok(Some(rec)) => Ok(Sbom { id: rec.id, location: rec.location, sha256: rec.sha256 }),
            _ => Err(FieldError { message: String::from_str(SBOM_NOT_RETRIEVED), internal_error: None }),
        }
    }

    /// List of all sboms; none when the graph failed.
    pub fn sboms(loaded: Result<Vec<SbomRecord>, ()>) -> (r: Result<Vec<Sbom>, FieldError>)
        ensures
            r matches Ok(v) && match loaded {
                Ok(recs) => v@.len() == recs@.len() && forall|i: int| 0 <= i < v@.len() ==> sbom_shows(#[trigger] v@[i], recs@[i]),
                Err(_) => v@.len() == 0,
            },
    {
        let recs = match loaded {
            Ok(recs) => recs,
            Err(_) => Vec::new(),
        };
        let mut out: Vec<Sbom> = Vec::new();
        let mut i: usize = 0;
        while i < recs.len()
            invariant
                i <= recs@.len(),
                out@.len() == i,
                forall|j: int| 0 <= j < i ==> sbom_shows(#[trigger] out@[j], recs@[j]),
            decreases recs@.len() - i,
        {
            let rec = &recs[i];
            out.push(Sbom { id: rec.id, location: rec.location.clone(), sha256: rec.sha256.clone() });
            i = i + 1;
        }
        Ok(out)
    }

    /// List of all vulnerabilities; none when the graph failed. A missing
    /// title shows as empty, and no advisories are listed.
    pub fn vulnerabilities(loaded: Result<Vec<VulnerabilityRecord>, ()>) -> (r: Result<Vec<Vulnerability>, FieldError>)
        ensures
            r matches Ok(v) && match loaded {
                Ok(recs) => v@.len() == recs@.len() && forall|i: int| 0 <= i < v@.len() ==> vulnerability_shows(#[trigger] v@[i], recs@[i]),
                Err(_) => v@.len() == 0,
            },
    {
        let recs = match loaded {
            Ok(recs) => recs,
            Err(_) => Vec::new(),
        };
        let mut out: Vec<Vulnerability> = Vec::new();
        let mut i: usize = 0;
        while i < recs.len()
            invariant
                i <= recs@.len(),
                out@.len() == i,
                forall|j: int| 0 <= j < i ==> vulnerability_shows(#[trigger] out@[j], recs@[j]),
            decreases recs@.len() - i,
        {
            let rec = &recs[i];
            out.push(
                Vulnerability {
                    id: rec.id,
                    identifier: rec.identifier.clone(),
                    title: text_or_empty_of(&rec.title),
                    advisories: Vec::new(),
                },
            );
            i = i + 1;
        }
        Ok(out)
    }

    /// List of all advisories; none when the graph failed. A missing title
    /// shows as empty.
    pub fn advisories(loaded: Result<Vec<AdvisoryRecord>, ()>) -> (r: Result<Vec<Advisory>, FieldError>)
        ensures
            r matches Ok(v) && match loaded {
                Ok(recs) => v@.len() == recs@.len() && forall|i: int| 0 <= i < v@.len() ==> advisory_shows(#[trigger] v@[i], recs@[i]),
                Err(_) => v@.len() == 0,
            },
    {
        let recs = match loaded {
            Ok(recs) => recs,
            Err(_) => Vec::new(),
        };
        let mut out: Vec<Advisory> = Vec::new();
        let mut i: usize = 0;
        while i < recs.len()
            invariant
                i <= recs@.len(),
                out@.len() == i,
                forall|j: int| 0 <= j < i ==> advisory_shows(#[trigger] out@[j], recs@[j]),
            decreases recs@.len() - i,
        {
            let rec = &recs[i];
            out.push(
                Advisory {
                    id: rec.id,
                    identifier: rec.identifier.clone(),
                    location: rec.location.clone(),
                    sha256: rec.sha256.clone(),
                    title: text_or_empty_of(&rec.title),
                },
            );
            i = i + 1;
        }
        Ok(out)
    }

    /// List of all packages; none when the graph failed. A missing
    /// namespace shows as empty.
    pub fn packages(loaded: Result<Vec<PackageRecord>, ()>) -> (r: Result<Vec<Package>, FieldError>)
        ensures
            r matches Ok(v) && match loaded {
                Ok(recs) => v@.len() == recs@.len() && forall|i: int| 0 <= i < v@.len() ==> package_shows(#[trigger] v@[i], recs@[i]),
                Err(_) => v@.len() == 0,
            },
    {
        let recs = match loaded {
            Ok(recs) => recs,
            Err(_) => Vec::new(),
        };
        let mut out: Vec<Package> = Vec::new();
        let mut i: usize = 0;
        while i < recs.len()
            invariant
                i <= recs@.len(),
                out@.len() == i,
                forall|j: int| 0 <= j < i ==> package_shows(#[trigger] out@[j], recs@[j]),
            decreases recs@.len() - i,
        {
            let rec = &recs[i];
            out.push(
                Package {
                    id: rec.id,
                    package_type: rec.package_type.clone(),
                    namespace: text_or_empty_of(&rec.namespace),
                    name: rec.name.clone(),
                },
            );
            i = i + 1;
        }
        Ok(out)
    }
}

/// The mutation root.
pub struct MutationRoot;

impl MutationRoot {
    /// The SBOM created from `sbom`: on success (`inserted` holds the new
    /// row's id) it shows that id with the requested location and sha256;
    /// on failure an error with an `internal_error` extension.
    pub fn create_sbom(sbom: SbomInput, inserted: Result<i32, ()>) -> (r: Result<Sbom, FieldError>)
        ensures
            match inserted {
                Ok(id) => r matches Ok(s) && s.id == id && s.location@ == sbom.location@ && s.sha256@ == sbom.sha256@,
                Err(_) => r matches Err(e) && e.message@ == SBOM_NOT_CREATED@ && is_text(
                    e.internal_error,
                    INTERNAL_ERROR@,
                ),
            },
    {
        match inserted {
            Ok(id) => Ok(Sbom { id, location: sbom.location, sha256: sbom.sha256 }),
            Err(_) => Err(
                FieldError {
                    message: String::from_str(SBOM_NOT_CREATED),
                    internal_error: Some(String::from_str(INTERNAL_ERROR)),
                },
            ),
        }
    }
}

/// The advisory part of the merged query.
#[derive(Clone, Copy, Debug, Default, PartialEq, Eq)]
pub struct AdvisoryQuery;

/// The organization part of the merged query.
#[derive(Clone, Copy, Debug, Default, PartialEq, Eq)]
pub struct OrganizationQuery;

/// The SBOM part of the merged query.
#[derive(Clone, Copy, Debug, Default, PartialEq, Eq)]
pub struct SbomQuery;

/// The merged GraphQL query: advisories, organizations and SBOMs.
#[derive(Clone, Copy, Debug, PartialEq, Eq)]
pub struct Query(pub AdvisoryQuery, pub OrganizationQuery, pub SbomQuery);

impl Default for Query {
    fn default() -> (q: Query)
        ensures
            q == Query(AdvisoryQuery, OrganizationQuery, SbomQuery),
    {
        Query(AdvisoryQuery, OrganizationQuery, SbomQuery)
    }
}

} // verus!
