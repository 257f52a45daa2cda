//! Values that the analysis produces and consumes.
use vstd::prelude::*;

verus! {

/// A package of an SBOM as held by an analysis graph.
#[derive(Clone, Debug, PartialEq, Eq)]
pub struct PackageNode {
    pub sbom_id: String,
    pub node_id: String,
    pub purl: String,
    pub name: String,
    pub published: String,
    pub document_id: String,
    pub product_name: String,
    pub product_version: String,
}

/// The mathematical value of a [`PackageNode`].
pub struct PackageNodeView {
    pub sbom_id: Seq<char>,
    pub node_id: Seq<char>,
    pub purl: Seq<char>,
    pub name: Seq<char>,
    pub published: Seq<char>,
    pub document_id: Seq<char>,
    pub product_name: Seq<char>,
    pub product_version: Seq<char>,
}

impl View for PackageNode {
    type V = PackageNodeView;

    open spec fn view(&self) -> PackageNodeView {
        PackageNodeView {
            sbom_id: self.sbom_id@,
            node_id: self.node_id@,
            purl: self.purl@,
            name: self.name@,
            published: self.published@,
            document_id: self.document_id@,
            product_name: self.product_name@,
            product_version: self.product_version@,
        }
    }
}

/// A package found by walking towards the roots of a graph.
#[derive(Clone, Debug, PartialEq, Eq)]
pub struct AncNode {
    pub sbom_id: String,
    pub node_id: String,
    pub purl: String,
    pub name: String,
}

/// A package found by walking towards the leaves of a graph, with its own
/// dependencies.
#[derive(Debug)]
pub struct DepNode {
    pub sbom_id: String,
    pub node_id: String,
    pub purl: String,
    pub name: String,
    pub deps: Vec<DepNode>,
}

/// A matching package with the packages that it leads to.
#[derive(Clone, Debug, PartialEq, Eq)]
pub struct AncestorSummary {
    pub sbom_id: String,
    pub node_id: String,
    pub purl: String,
    pub name: String,
    pub published: String,
    pub document_id: String,
    pub product_name: String,
    pub product_version: String,
    pub ancestors: Vec<AncNode>,
}

/// A matching package with the tree of packages that lead to it.
#[derive(Debug)]
pub struct DepSummary {
    pub sbom_id: String,
    pub node_id: String,
    pub purl: String,
    pub name: String,
    pub published: String,
    pub document_id: String,
    pub product_name: String,
    pub product_version: String,
    pub deps: Vec<DepNode>,
}

/// How many SBOMs exist and how many of them have a loaded graph.
#[derive(Clone, Copy, Debug, PartialEq, Eq)]
pub struct AnalysisStatus {
    pub sbom_count: i32,
    pub graph_count: i32,
}

/// One row of the relationship query of an SBOM, as the database returned
/// it: a column that could not be read is `None`. Each purl comes with the
/// package name that it parses to, `None` when it does not parse.
#[derive(Clone, Debug, PartialEq, Eq)]
pub struct RelationshipRow {
    pub published: Option<String>,
    pub document_id: Option<String>,
    pub product_name: Option<String>,
    pub product_version: Option<String>,
    pub left_node_id: Option<String>,
    pub left_qualified_purl: Option<String>,
    pub left_purl_name: Option<String>,
    pub right_node_id: Option<String>,
    pub right_qualified_purl: Option<String>,
    pub right_purl_name: Option<String>,
    pub relationship: Option<i32>,
}

/// The relationship code of "contained by", used for a row whose
/// relationship column could not be read.
pub const CONTAINED_BY: i32 = 0;

/// Which window of a result list to return: skip `offset` items, then take
/// at most `limit` items, or all that remain when `limit` is 0.
#[derive(Clone, Copy, Debug, PartialEq, Eq)]
pub struct Paginated {
    pub offset: u64,
    pub limit: u64,
}

impl Default for Paginated {
    fn default() -> (p: Paginated)
        ensures
            p.offset == 0 && p.limit == 0,
    {
        Paginated { offset: 0, limit: 0 }
    }
}

/// A window of a result list, with the length of the whole list.
#[derive(Debug)]
pub struct PaginatedResults<T> {
    pub items: Vec<T>,
    pub total: u64,
}

/// Where the window of `paginated` starts in a list of `len` items.
pub open spec fn page_start(len: nat, paginated: Paginated) -> int {
    if paginated.offset >= len {
        len as int
    } else {
        paginated.offset as int
    }
}

/// How many items the window of `paginated` holds in a list of `len` items.
pub open spec fn page_len(len: nat, paginated: Paginated) -> int {
    let rest = len - page_start(len, paginated);
    if paginated.limit > 0 && paginated.limit < rest {
        paginated.limit as int
    } else {
        rest
    }
}

/// The window of a pagination starts at the offset (or at the end, when the
/// offset is past it) and holds as many of the remaining items as the limit
/// allows: all of them when the limit is 0 or not smaller than what remains,
/// otherwise exactly `limit`.
pub proof fn lemma_page_window(len: nat, paginated: Paginated)
    ensures
        paginated.offset >= len ==> page_start(len, paginated) == len && page_len(len, paginated) == 0,
        paginated.offset < len ==> page_start(len, paginated) == paginated.offset,
        paginated.offset < len && (paginated.limit == 0 || paginated.limit >= len - paginated.offset)
            ==> page_len(len, paginated) == len - paginated.offset,
        paginated.offset < len && paginated.limit > 0 && paginated.limit < len - paginated.offset
            ==> page_len(len, paginated) == paginated.limit,
{
}

impl Paginated {
    /// The window of `items` that this pagination selects, with the number
    /// of all items.
    pub fn paginate_array<T>(&self, items: Vec<T>) -> (r: PaginatedResults<T>)
        ensures
            r.total == items@.len(),
            r.items@ == items@.subrange(
                page_start(items@.len(), *self),
                page_start(items@.len(), *self) + page_len(items@.len(), *self),
            ),
            self.offset >= items@.len() ==> r.items@.len() == 0,
            self.offset < items@.len() ==> r.items@.len() == if self.limit == 0 || self.limit
                >= items@.len() - self.offset {
                items@.len() - self.offset
            } else {
                self.limit as int
            },
            forall|j: int| 0 <= j < r.items@.len() ==> #[trigger] r.items@[j] == items@[self.offset + j],
    {
        let total = items.len() as u64;
        let mut items = items;
        let ghost all = items@;
        let mut window = if self.offset >= total {
            Vec::new()
        } else {
            items.split_off(self.offset as usize)
        };
        assert(window@ =~= all.subrange(page_start(all.len(), *self), all.len() as int));
        if self.limit > 0 && self.limit < window.len() as u64 {
            window.truncate(self.limit as usize);
        }
        assert(window@ =~= all.subrange(
            page_start(all.len(), *self),
            page_start(all.len(), *self) + page_len(all.len(), *self),
        ));
        proof {
            lemma_page_window(all.len(), *self);
        }
        PaginatedResults { items: window, total }
    }
}

/// The values of a list of packages.
pub open spec fn package_views(s: Seq<PackageNode>) -> Seq<PackageNodeView> {
    s.map_values(|p: PackageNode| p@)
}

/// Copies a package.
pub fn copy_package(p: &PackageNode) -> (r: PackageNode)
    ensures
        r@ == p@,
{
    PackageNode {
        sbom_id: p.sbom_id.clone(),
        node_id: p.node_id.clone(),
        purl: p.purl.clone(),
        name: p.name.clone(),
        published: p.published.clone(),
        document_id: p.document_id.clone(),
        product_name: p.product_name.clone(),
        product_version: p.product_version.clone(),
    }
}

/// `anc` names the package `p`.
pub open spec fn anc_matches(anc: AncNode, p: PackageNodeView) -> bool {
    &&& anc.sbom_id@ == p.sbom_id
    &&& anc.node_id@ == p.node_id
    &&& anc.purl@ == p.purl
    &&& anc.name@ == p.name
}

/// `d` names the package `p`.
pub open spec fn dep_matches(d: DepNode, p: PackageNodeView) -> bool {
    &&& d.sbom_id@ == p.sbom_id
    &&& d.node_id@ == p.node_id
    &&& d.purl@ == p.purl
    &&& d.name@ == p.name
}

/// Copies the identifying fields of a package into an [`AncNode`].
pub fn anc_node_of(p: &PackageNode) -> (a: AncNode)
    ensures
        anc_matches(a, p@),
        a.sbom_id@ == p.sbom_id@,
        a.node_id@ == p.node_id@,
        a.purl@ == p.purl@,
        a.name@ == p.name@,
{
    AncNode {
        sbom_id: p.sbom_id.clone(),
        node_id: p.node_id.clone(),
        purl: p.purl.clone(),
        name: p.name.clone(),
    }
}

} // verus!
