//! The analysis service: the loaded graphs of SBOMs and the queries over
//! them.
use vstd::prelude::*;

use super::graph::{ancestor_nodes, dep_nodes, is_dep_forest, load_rows, AnalysisGraph, GraphView};
use super::graph_spec::{ancestors_of, is_cyclic};
use super::model::{
    anc_matches, copy_package, package_views, page_len, page_start, AncestorSummary, AnalysisStatus, DepSummary,
    PackageNode, PackageNodeView, Paginated, PaginatedResults, RelationshipRow,
};

verus! {

/// The relationship query of an SBOM up to the SBOM id.
pub const RELATIONSHIPS_QUERY_HEAD: &'static str = "\n        SELECT\n            sbom.document_id,\n            sbom.sbom_id,\n            sbom.published::text,\n            t1.node_id AS left_node_id,\n            get_purl(t1.qualified_purl_id) AS left_qualified_purl,\n            package_relates_to_package.relationship,\n            t2.node_id AS right_node_id,\n            get_purl(t2.qualified_purl_id) AS right_qualified_purl,\n            product.name AS product_name,\n            product_version.version AS product_version\n        FROM\n            sbom\n        LEFT JOIN\n            product_version ON sbom.sbom_id = product_version.sbom_id\n        LEFT JOIN\n            product ON product_version.product_id = product.id\n        LEFT JOIN\n            package_relates_to_package ON sbom.sbom_id = package_relates_to_package.sbom_id\n        LEFT JOIN\n            sbom_package_purl_ref t1 ON sbom.sbom_id = t1.sbom_id AND t1.node_id = package_relates_to_package.left_node_id\n        LEFT JOIN\n            sbom_package_purl_ref t2 ON sbom.sbom_id = t2.sbom_id AND t2.node_id = package_relates_to_package.right_node_id\n        WHERE\n            package_relates_to_package.relationship IN (0, 1, 8, 14)\n            AND sbom.sbom_id = '";

/// The relationship query of an SBOM after the SBOM id.
pub const RELATIONSHIPS_QUERY_TAIL: &'static str = "';\n        ";

/// The SQL text that reads the relationships of the SBOM `distinct_sbom_id`
/// that the analysis keeps (relationship codes 0, 1, 8 and 14), one row per
/// relationship with the SBOM's document id, publication date, product name
/// and version, and the node id and purl of both packages. The id is placed
/// between quotes as it is.
pub fn relationships_query(distinct_sbom_id: &str) -> (sql: String)
    ensures
        sql@ == RELATIONSHIPS_QUERY_HEAD@ + distinct_sbom_id@ + RELATIONSHIPS_QUERY_TAIL@,
{
    let mut sql = String::from_str(RELATIONSHIPS_QUERY_HEAD);
    sql.append(distinct_sbom_id);
    sql.append(RELATIONSHIPS_QUERY_TAIL);
    sql
}

/// The loaded graphs, keyed by SBOM id; no key occurs twice.
pub struct GraphMap {
    entries: Vec<(String, AnalysisGraph)>,
}

impl View for GraphMap {
    type V = Map<Seq<char>, GraphView>;

    closed spec fn view(&self) -> Map<Seq<char>, GraphView> {
        Map::new(
            |k: Seq<char>| self.keys().contains(k),
            |k: Seq<char>| self.entries@[self.keys().index_of(k)].1@,
        )
    }
}

impl GraphMap {
    /// The SBOM ids, in the order of loading.
    pub closed spec fn keys(&self) -> Seq<Seq<char>> {
        self.entries@.map_values(|e: (String, AnalysisGraph)| e.0@)
    }

    /// Keys are distinct and every graph is well formed.
    pub closed spec fn wf(&self) -> bool {
        &&& self.keys().no_duplicates()
        &&& forall|j: int| 0 <= j < self.entries@.len() ==> (#[trigger] self.entries@[j]).1.wf()
    }

    /// An empty map.
    pub fn new() -> (m: GraphMap)
        ensures
            m.wf(),
            m@ == Map::<Seq<char>, GraphView>::empty(),
    {
        let m = GraphMap { entries: Vec::new() };
        assert(m@ =~= Map::<Seq<char>, GraphView>::empty());
        m
    }

    proof fn lemma_lookup(&self, j: int)
        requires
            self.wf(),
            0 <= j < self.entries@.len(),
        ensures
            self@.contains_key(self.entries@[j].0@),
            self@[self.entries@[j].0@] == self.entries@[j].1@,
    {
        let k = self.entries@[j].0@;
        assert(self.keys()[j] == k);
        self.keys().index_of_first_ensures(k);
        assert(self.keys().contains(k));
        let i = self.keys().index_of(k);
        assert(self.keys()[i] == k);
    }

    /// The number of loaded graphs.
    pub fn len(&self) -> (n: usize)
        requires
            self.wf(),
        ensures
            n == self@.len(),
    {
        proof {
            self.keys().unique_seq_to_set();
            assert(self@.dom() =~= self.keys().to_set());
        }
        self.entries.len()
    }

    /// The position of the entry of `id`.
    fn position(&self, id: &String) -> (r: Option<usize>)
        requires
            self.wf(),
        ensures
            match r {
                Some(j) => j < self.entries@.len() && self.entries@[j as int].0@ == id@,
                None => !self@.contains_key(id@),
            },
    {
        let mut j: usize = 0;
        while j < self.entries.len()
            invariant
                j <= self.entries@.len(),
                forall|i: int| 0 <= i < j ==> (#[trigger] self.entries@[i]).0@ != id@,
            decreases self.entries@.len() - j,
        {
            if self.entries[j].0 == *id {
                return Some(j);
            }
            j = j + 1;
        }
        proof {
            if self.keys().contains(id@) {
                let i = choose|i: int| 0 <= i < self.keys().len() && self.keys()[i] == id@;
                assert(self.entries@[i].0@ == id@);
            }
        }
        None
    }

    /// Whether a graph is loaded for `id`.
    pub fn contains_key(&self, id: &String) -> (b: bool)
        requires
            self.wf(),
        ensures
            b == self@.contains_key(id@),
    {
        match self.position(id) {
            Some(j) => {
                proof {
                    self.lemma_lookup(j as int);
                }
                true
            },
            None => false,
        }
    }

    /// The graph loaded for `id`.
    pub fn get(&self, id: &String) -> (r: Option<&AnalysisGraph>)
        requires
            self.wf(),
        ensures
            match r {
                Some(g) => self@.contains_key(id@) && g.wf() && g@ == self@[id@],
                None => !self@.contains_key(id@),
            },
    {
        match self.position(id) {
            Some(j) => {
                proof {
                    self.lemma_lookup(j as int);
                }
                Some(&self.entries[j].1)
            },
            None => None,
        }
    }

    /// Loads `graph` for `id`, replacing a graph loaded before for it.
    pub fn insert(&mut self, id: String, graph: AnalysisGraph)
        requires
            old(self).wf(),
            graph.wf(),
        ensures
            final(self).wf(),
            final(self)@ == old(self)@.insert(id@, graph@),
    {
        let ghost old_map = self@;
        let ghost k = id@;
        let ghost gv = graph@;
        match self.position(&id) {
            Some(j) => {
                let ghost old_entries = self.entries@;
                proof {
                    self.lemma_lookup(j as int);
                }
                self.entries.set(j, (id, graph));
                proof {
                    assert(self.keys() =~= old(self).keys().update(j as int, k));
                    assert(old(self).keys()[j as int] == k);
                    assert(self.keys() =~= old(self).keys());
                    assert forall|i: int| 0 <= i < self.entries@.len() implies (#[trigger] self.entries@[i]).1.wf() by {
                        if i != j {
                            assert(self.entries@[i] == old_entries[i]);
                        }
                    }
                    assert forall|key: Seq<char>| #![auto] self@.contains_key(key) implies self@[key] == old_map.insert(k, gv)[key] by {
                        let i = self.keys().index_of(key);
                        self.keys().index_of_first_ensures(key);
                        if key == k {
                            self.lemma_lookup(j as int);
                        } else {
                            assert(i != j);
                            assert(self.entries@[i] == old_entries[i]);
                            old(self).lemma_lookup(i);
                        }
                    }
                    assert(self@ =~= old_map.insert(k, gv));
                }
            },
            None => {
                let ghost old_entries = self.entries@;
                self.entries.push((id, graph));
                proof {
                    assert(self.keys() =~= old(self).keys().push(k));
                    assert forall|i: int, l: int| 0 <= i < l < self.keys().len() implies self.keys()[i] != self.keys()[l] by {
                        if l == self.keys().len() - 1 {
                            assert(self.keys()[i] == old(self).keys()[i]);
                            assert(old(self).keys().contains(self.keys()[i]));
                        } else {
                            assert(self.keys()[i] == old(self).keys()[i]);
                            assert(self.keys()[l] == old(self).keys()[l]);
                        }
                    }
                    assert forall|i: int| 0 <= i < self.entries@.len() implies (#[trigger] self.entries@[i]).1.wf() by {
                        if i < old_entries.len() {
                            assert(self.entries@[i] == old_entries[i]);
                        }
                    }
                    assert forall|key: Seq<char>| #![auto] self@.contains_key(key) <==> old_map.insert(k, gv).contains_key(key) by {
                        if self.keys().contains(key) && key != k {
                            let i = choose|i: int| 0 <= i < self.keys().len() && self.keys()[i] == key;
                            assert(old(self).keys()[i] == key);
                        }
                        if old(self).keys().contains(key) {
                            let i = choose|i: int| 0 <= i < old(self).keys().len() && old(self).keys()[i] == key;
                            assert(self.keys()[i] == key);
                        }
                        if key == k {
                            assert(self.keys()[self.keys().len() - 1] == k);
                        }
                    }
                    assert forall|key: Seq<char>| #![auto] self@.contains_key(key) implies self@[key] == old_map.insert(k, gv)[key] by {
                        let i = self.keys().index_of(key);
                        self.keys().index_of_first_ensures(key);
                        self.lemma_lookup(i);
                        if key != k {
                            assert(i != old_entries.len());
                            assert(self.entries@[i] == old_entries[i]);
                            old(self).lemma_lookup(i);
                        } else {
                            assert(self.keys()[old_entries.len() as int] == k);
                        }
                    }
                    assert(self@ =~= old_map.insert(k, gv));
                }
            },
        }
    }

    /// Drops every loaded graph.
    pub fn clear(&mut self)
        ensures
            final(self).wf(),
            final(self)@ == Map::<Seq<char>, GraphView>::empty(),
    {
        self.entries.clear();
        assert(self.keys() =~= Seq::<Seq<char>>::empty());
        assert(self@ =~= Map::<Seq<char>, GraphView>::empty());
    }
}

/// How the packages of interest are picked: by exact name, or by a flag per
/// package, `flags[k][i]` for node `i` of the graph of the `k`-th SBOM id
/// (a missing flag reads as false).
pub enum Selection {
    ByName(String),
    ByFlags(Vec<Vec<bool>>),
}

/// Node `i`, with package `p`, of the graph of the `k`-th SBOM id is picked.
pub open spec fn is_selected(sel: Selection, k: int, i: int, p: PackageNodeView) -> bool {
    match sel {
        Selection::ByName(name) => p.name == name@,
        Selection::ByFlags(flags) => 0 <= k < flags@.len() && 0 <= i < flags@[k]@.len() && flags@[k]@[i],
    }
}

/// The picked nodes among the first `upto` nodes of a graph, in index order.
pub open spec fn graph_matches(g: GraphView, sel: Selection, k: int, upto: nat) -> Seq<int>
    decreases upto,
{
    if upto == 0 {
        Seq::empty()
    } else {
        let pre = graph_matches(g, sel, k, (upto - 1) as nat);
        if is_selected(sel, k, upto - 1, g.nodes[upto - 1]) {
            pre.push(upto - 1)
        } else {
            pre
        }
    }
}

/// The SBOM ids as text.
pub open spec fn id_views(ids: Seq<String>) -> Seq<Seq<char>> {
    ids.map_values(|s: String| s@)
}

/// The picked packages, as (position of the SBOM id, node) pairs: SBOM ids in
/// the given order, skipping those without a loaded graph and those whose
/// graph has a cycle, and within a graph the picked nodes in index order.
pub open spec fn components(m: Map<Seq<char>, GraphView>, ids: Seq<Seq<char>>, sel: Selection) -> Seq<(int, int)>
    decreases ids.len(),
{
    if ids.len() == 0 {
        Seq::empty()
    } else {
        let k = ids.len() - 1;
        let pre = components(m, ids.drop_last(), sel);
        if m.contains_key(ids[k]) && !is_cyclic(m[ids[k]].edges) {
            pre + graph_matches(m[ids[k]], sel, k, m[ids[k]].nodes.len()).map_values(|i: int| (k, i))
        } else {
            pre
        }
    }
}

/// `s` describes node `i` of `g` with the packages that the node leads to.
pub open spec fn ancestor_summary_ok(s: AncestorSummary, g: GraphView, i: int) -> bool {
    &&& 0 <= i < g.nodes.len()
    &&& s.sbom_id@ == g.nodes[i].sbom_id
    &&& s.node_id@ == g.nodes[i].node_id
    &&& s.purl@ == g.nodes[i].purl
    &&& s.name@ == g.nodes[i].name
    &&& s.published@ == g.nodes[i].published
    &&& s.document_id@ == g.nodes[i].document_id
    &&& s.product_name@ == g.nodes[i].product_name
    &&& s.product_version@ == g.nodes[i].product_version
    &&& s.ancestors@.len() == ancestors_of(g.edges, g.nodes.len(), i as usize).len()
    &&& forall|j: int|
        0 <= j < s.ancestors@.len() ==> anc_matches(
            #[trigger] s.ancestors@[j],
            g.nodes[ancestors_of(g.edges, g.nodes.len(), i as usize)[j] as int],
        )
}

/// `s` describes node `i` of `g` with the tree of packages that lead to it.
pub open spec fn dep_summary_ok(s: DepSummary, g: GraphView, i: int) -> bool {
    &&& 0 <= i < g.nodes.len()
    &&& s.sbom_id@ == g.nodes[i].sbom_id
    &&& s.node_id@ == g.nodes[i].node_id
    &&& s.purl@ == g.nodes[i].purl
    &&& s.name@ == g.nodes[i].name
    &&& s.published@ == g.nodes[i].published
    &&& s.document_id@ == g.nodes[i].document_id
    &&& s.product_name@ == g.nodes[i].product_name
    &&& s.product_version@ == g.nodes[i].product_version
    &&& is_dep_forest(g, i as usize, s.deps@)
}

/// `r` describes the components `comps` one for one.
pub open spec fn ancestor_summaries_ok(
    r: Seq<AncestorSummary>,
    m: Map<Seq<char>, GraphView>,
    ids: Seq<Seq<char>>,
    comps: Seq<(int, int)>,
) -> bool {
    &&& r.len() == comps.len()
    &&& forall|j: int|
        0 <= j < r.len() ==> ancestor_summary_ok(#[trigger] r[j], m[ids[comps[j].0]], comps[j].1)
}

/// `r` describes the components `comps` one for one.
pub open spec fn dep_summaries_ok(
    r: Seq<DepSummary>,
    m: Map<Seq<char>, GraphView>,
    ids: Seq<Seq<char>>,
    comps: Seq<(int, int)>,
) -> bool {
    &&& r.len() == comps.len()
    &&& forall|j: int| 0 <= j < r.len() ==> dep_summary_ok(#[trigger] r[j], m[ids[comps[j].0]], comps[j].1)
}

/// Whether node `i`, with package `p`, of the graph of the `k`-th id is picked.
fn selected(sel: &Selection, k: usize, i: usize, p: &PackageNode) -> (b: bool)
    ensures
        b == is_selected(*sel, k as int, i as int, p@),
        sel matches Selection::ByName(name) ==> (b <==> p.name@ == name@),
{
    match sel {
        Selection::ByName(name) => p.name == *name,
        Selection::ByFlags(flags) => k < flags.len() && i < flags[k].len() && flags[k][i],
    }
}

/// The summary of node `i` with its ancestors.
fn ancestor_summary(graph: &AnalysisGraph, i: usize) -> (s: AncestorSummary)
    requires
        graph.wf(),
        i < graph@.nodes.len(),
    ensures
        ancestor_summary_ok(s, graph@, i as int),
{
    let p = graph.package(i);
    AncestorSummary {
        sbom_id: p.sbom_id.clone(),
        node_id: p.node_id.clone(),
        purl: p.purl.clone(),
        name: p.name.clone(),
        published: p.published.clone(),
        document_id: p.document_id.clone(),
        product_name: p.product_name.clone(),
        product_version: p.product_version.clone(),
        ancestors: ancestor_nodes(graph, i),
    }
}

/// The summary of node `i` with its dependency tree.
fn dep_summary(graph: &AnalysisGraph, i: usize) -> (s: DepSummary)
    requires
        graph.wf(),
        i < graph@.nodes.len(),
        !is_cyclic(graph@.edges),
    ensures
        dep_summary_ok(s, graph@, i as int),
{
    let p = graph.package(i);
    DepSummary {
        sbom_id: p.sbom_id.clone(),
        node_id: p.node_id.clone(),
        purl: p.purl.clone(),
        name: p.name.clone(),
        published: p.published.clone(),
        document_id: p.document_id.clone(),
        product_name: p.product_name.clone(),
        product_version: p.product_version.clone(),
        deps: dep_nodes(graph, i),
    }
}

/// The components of the first `k + 1` ids extend those of the first `k`.
proof fn lemma_components_step(m: Map<Seq<char>, GraphView>, ids: Seq<Seq<char>>, sel: Selection, k: int)
    requires
        0 <= k < ids.len(),
    ensures
        components(m, ids.take(k + 1), sel) == if m.contains_key(ids[k]) && !is_cyclic(m[ids[k]].edges) {
            components(m, ids.take(k), sel) + graph_matches(m[ids[k]], sel, k, m[ids[k]].nodes.len()).map_values(|i: int| (k, i))
        } else {
            components(m, ids.take(k), sel)
        },
{
    assert(ids.take(k + 1).drop_last() =~= ids.take(k));
    assert(ids.take(k + 1)[k] == ids[k]);
}

impl GraphMap {
    /// The summaries, with ancestors, of the picked packages.
    fn collect_ancestors(&self, ids: &Vec<String>, sel: &Selection) -> (r: Vec<AncestorSummary>)
        requires
            self.wf(),
        ensures
            ancestor_summaries_ok(r@, self@, id_views(ids@), components(self@, id_views(ids@), *sel)),
    {
        let ghost m = self@;
        let ghost idv = id_views(ids@);
        let mut found: Vec<AncestorSummary> = Vec::new();
        let mut k: usize = 0;
        while k < ids.len()
            invariant
                self.wf(),
                m == self@,
                idv == id_views(ids@),
                k <= ids@.len(),
                ancestor_summaries_ok(found@, m, idv, components(m, idv.take(k as int), *sel)),
            decreases ids@.len() - k,
        {
            proof {
                lemma_components_step(m, idv, *sel, k as int);
            }
            let ghost before = components(m, idv.take(k as int), *sel);
            match self.get(&ids[k]) {
                Some(graph) => {
                    if !graph.is_cyclic() {
                        let n = graph.node_count();
                        let ghost g = graph@;
                        assert(g == m[idv[k as int]]);
                        let mut i: usize = 0;
                        while i < n
                            invariant
                                graph.wf(),
                                g == graph@,
                                n == g.nodes.len(),
                                i <= n,
                                g == m[idv[k as int]],
                                ancestor_summaries_ok(
                                    found@,
                                    m,
                                    idv,
                                    before + graph_matches(g, *sel, k as int, i as nat).map_values(|x: int| (k as int, x)),
                                ),
                            decreases n - i,
                        {
                            let ghost comps = before + graph_matches(g, *sel, k as int, i as nat).map_values(|x: int| (k as int, x));
                            let ghost comps2 = before + graph_matches(g, *sel, k as int, (i + 1) as nat).map_values(|x: int| (k as int, x));
                            let ghost found0 = found@;
                            if selected(sel, k, i, graph.package(i)) {
                                let s = ancestor_summary(graph, i);
                                found.push(s);
                                assert(comps2 =~= comps.push((k as int, i as int)));
                                assert forall|j: int| 0 <= j < found@.len() implies ancestor_summary_ok(
                                    #[trigger] found@[j],
                                    m[idv[comps2[j].0]],
                                    comps2[j].1,
                                ) by {
                                    if j < found0.len() {
                                        assert(found@[j] == found0[j]);
                                    }
                                }
                            } else {
                                assert(comps2 =~= comps);
                            }
                            i = i + 1;
                        }
                    }
                },
                None => {},
            }
            k = k + 1;
        }
        assert(idv.take(ids@.len() as int) =~= idv);
        found
    }

    /// The summaries, with dependency trees, of the picked packages.
    fn collect_deps(&self, ids: &Vec<String>, sel: &Selection) -> (r: Vec<DepSummary>)
        requires
            self.wf(),
        ensures
            dep_summaries_ok(r@, self@, id_views(ids@), components(self@, id_views(ids@), *sel)),
    {
        let ghost m = self@;
        let ghost idv = id_views(ids@);
        let mut found: Vec<DepSummary> = Vec::new();
        let mut k: usize = 0;
        while k < ids.len()
            invariant
                self.wf(),
                m == self@,
                idv == id_views(ids@),
                k <= ids@.len(),
                dep_summaries_ok(found@, m, idv, components(m, idv.take(k as int), *sel)),
            decreases ids@.len() - k,
        {
            proof {
                lemma_components_step(m, idv, *sel, k as int);
            }
            let ghost before = components(m, idv.take(k as int), *sel);
            match self.get(&ids[k]) {
                Some(graph) => {
                    if !graph.is_cyclic() {
                        let n = graph.node_count();
                        let ghost g = graph@;
                        assert(g == m[idv[k as int]]);
                        let mut i: usize = 0;
                        while i < n
                            invariant
                                graph.wf(),
                                g == graph@,
                                !is_cyclic(g.edges),
                                n == g.nodes.len(),
                                i <= n,
                                g == m[idv[k as int]],
                                dep_summaries_ok(
                                    found@,
                                    m,
                                    idv,
                                    before + graph_matches(g, *sel, k as int, i as nat).map_values(|x: int| (k as int, x)),
                                ),
                            decreases n - i,
                        {
                            let ghost comps = before + graph_matches(g, *sel, k as int, i as nat).map_values(|x: int| (k as int, x));
                            let ghost comps2 = before + graph_matches(g, *sel, k as int, (i + 1) as nat).map_values(|x: int| (k as int, x));
                            let ghost found0 = found@;
                            if selected(sel, k, i, graph.package(i)) {
                                let s = dep_summary(graph, i);
                                found.push(s);
                                assert(comps2 =~= comps.push((k as int, i as int)));
                                assert forall|j: int| 0 <= j < found@.len() implies dep_summary_ok(
                                    #[trigger] found@[j],
                                    m[idv[comps2[j].0]],
                                    comps2[j].1,
                                ) by {
                                    if j < found0.len() {
                                        assert(found@[j] == found0[j]);
                                    }
                                }
                            } else {
                                assert(comps2 =~= comps);
                            }
                            i = i + 1;
                        }
                    }
                },
                None => {},
            }
            k = k + 1;
        }
        assert(idv.take(ids@.len() as int) =~= idv);
        found
    }
}

/// A query never picks a package from a graph with a cycle: when every
/// loaded graph of the requested SBOMs has one, nothing is picked.
pub proof fn lemma_cyclic_graphs_yield_nothing(m: Map<Seq<char>, GraphView>, ids: Seq<Seq<char>>, sel: Selection)
    requires
        forall|k: int| 0 <= k < ids.len() && m.contains_key(#[trigger] ids[k]) ==> is_cyclic(m[ids[k]].edges),
    ensures
        components(m, ids, sel).len() == 0,
    decreases ids.len(),
{
    if ids.len() > 0 {
        let pre = ids.drop_last();
        assert forall|k: int| 0 <= k < pre.len() && m.contains_key(#[trigger] pre[k]) implies is_cyclic(m[pre[k]].edges) by {
            assert(pre[k] == ids[k]);
        }
        lemma_cyclic_graphs_yield_nothing(m, pre, sel);
        assert(m.contains_key(ids[ids.len() - 1]) ==> is_cyclic(m[ids[ids.len() - 1]].edges));
    }
}

/// The picked nodes among the first `upto` are exactly those selected.
proof fn lemma_graph_matches_contains(g: GraphView, sel: Selection, k: int, upto: nat, i: int)
    requires
        upto <= g.nodes.len(),
    ensures
        graph_matches(g, sel, k, upto).contains(i) <==> (0 <= i < upto && is_selected(sel, k, i, g.nodes[i])),
    decreases upto,
{
    if upto > 0 {
        lemma_graph_matches_contains(g, sel, k, (upto - 1) as nat, i);
        let pre = graph_matches(g, sel, k, (upto - 1) as nat);
        let all = graph_matches(g, sel, k, upto);
        if all.contains(i) {
            let j = choose|j: int| 0 <= j < all.len() && all[j] == i;
            if j < pre.len() {
                assert(pre[j] == i);
            }
        }
        if 0 <= i < upto && is_selected(sel, k, i, g.nodes[i]) {
            if i < upto - 1 {
                let j = choose|j: int| 0 <= j < pre.len() && pre[j] == i;
                assert(all[j] == i);
            } else {
                assert(all[all.len() - 1] == i);
            }
        }
    }
}

/// A query picks exactly the selected packages of the loaded, acyclic graphs
/// of the requested SBOMs: a (position, node) pair is picked if and only if
/// the SBOM id at that position has a loaded graph without a cycle, the node
/// is one of its nodes, and the selection picks it.
pub proof fn lemma_components_exact(m: Map<Seq<char>, GraphView>, ids: Seq<Seq<char>>, sel: Selection, k: int, i: int)
    ensures
        components(m, ids, sel).contains((k, i)) <==> {
            &&& 0 <= k < ids.len()
            &&& m.contains_key(ids[k])
            &&& !is_cyclic(m[ids[k]].edges)
            &&& 0 <= i < m[ids[k]].nodes.len()
            &&& is_selected(sel, k, i, m[ids[k]].nodes[i])
        },
    decreases ids.len(),
{
    if ids.len() > 0 {
        let last = ids.len() - 1;
        let pre = ids.drop_last();
        lemma_components_exact(m, pre, sel, k, i);
        let cp = components(m, pre, sel);
        let all = components(m, ids, sel);
        if 0 <= k < last {
            assert(pre[k] == ids[k]);
        }
        if m.contains_key(ids[last]) && !is_cyclic(m[ids[last]].edges) {
            let g = m[ids[last]];
            let gm = graph_matches(g, sel, last, g.nodes.len());
            let tail = gm.map_values(|x: int| (last, x));
            assert(all == cp + tail);
            lemma_graph_matches_contains(g, sel, last, g.nodes.len(), i);
            if all.contains((k, i)) {
                let j = choose|j: int| 0 <= j < all.len() && all[j] == (k, i);
                if j < cp.len() {
                    assert(cp[j] == (k, i));
                } else {
                    assert(tail[j - cp.len()] == (k, i));
                    assert(gm[j - cp.len()] == i);
                    assert(gm.contains(i));
                }
            }
            if 0 <= k < ids.len() && m.contains_key(ids[k]) && !is_cyclic(m[ids[k]].edges) && 0 <= i < m[ids[k]].nodes.len()
                && is_selected(sel, k, i, m[ids[k]].nodes[i]) {
                if k < last {
                    let j = choose|j: int| 0 <= j < cp.len() && cp[j] == (k, i);
                    assert(all[j] == (k, i));
                } else {
                    assert(gm.contains(i));
                    let j = choose|j: int| 0 <= j < gm.len() && gm[j] == i;
                    assert(all[cp.len() + j] == (k, i));
                }
            }
        } else {
            if all.contains((k, i)) {
                let j = choose|j: int| 0 <= j < all.len() && all[j] == (k, i);
                assert(cp[j] == (k, i));
            }
            if 0 <= k < ids.len() && m.contains_key(ids[k]) && !is_cyclic(m[ids[k]].edges) && 0 <= i < m[ids[k]].nodes.len()
                && is_selected(sel, k, i, m[ids[k]].nodes[i]) {
                assert(k < last);
                let j = choose|j: int| 0 <= j < cp.len() && cp[j] == (k, i);
                assert(all[j] == (k, i));
            }
        }
    }
}

/// A query by name picks a package exactly when its name equals the
/// requested name (in a loaded, acyclic graph of a requested SBOM); a name
/// that merely starts with, or contains, the requested one is not picked.
pub proof fn lemma_by_name_is_exact(m: Map<Seq<char>, GraphView>, ids: Seq<Seq<char>>, name: String, k: int, i: int)
    ensures
        components(m, ids, Selection::ByName(name)).contains((k, i)) <==> {
            &&& 0 <= k < ids.len()
            &&& m.contains_key(ids[k])
            &&& !is_cyclic(m[ids[k]].edges)
            &&& 0 <= i < m[ids[k]].nodes.len()
            &&& m[ids[k]].nodes[i].name == name@
        },
{
    lemma_components_exact(m, ids, Selection::ByName(name), k, i);
}

/// `r` is the window of `paginated` over summaries of `comps`: its total is
/// the number of components, and its items describe the components of the
/// window one for one.
pub open spec fn paged_ancestors_ok(
    r: PaginatedResults<AncestorSummary>,
    m: Map<Seq<char>, GraphView>,
    ids: Seq<Seq<char>>,
    comps: Seq<(int, int)>,
    paginated: Paginated,
) -> bool {
    let start = page_start(comps.len(), paginated);
    &&& r.total == comps.len()
    &&& ancestor_summaries_ok(
        r.items@,
        m,
        ids,
        comps.subrange(start, start + page_len(comps.len(), paginated)),
    )
}

/// `r` is the window of `paginated` over summaries of `comps`.
pub open spec fn paged_deps_ok(
    r: PaginatedResults<DepSummary>,
    m: Map<Seq<char>, GraphView>,
    ids: Seq<Seq<char>>,
    comps: Seq<(int, int)>,
    paginated: Paginated,
) -> bool {
    let start = page_start(comps.len(), paginated);
    &&& r.total == comps.len()
    &&& dep_summaries_ok(r.items@, m, ids, comps.subrange(start, start + page_len(comps.len(), paginated)))
}

/// Summaries of components stay summaries of the same components when both
/// lists are cut to the same window.
proof fn lemma_window_ancestors(
    all: Seq<AncestorSummary>,
    m: Map<Seq<char>, GraphView>,
    ids: Seq<Seq<char>>,
    comps: Seq<(int, int)>,
    a: int,
    b: int,
)
    requires
        ancestor_summaries_ok(all, m, ids, comps),
        0 <= a <= b <= comps.len(),
    ensures
        ancestor_summaries_ok(all.subrange(a, b), m, ids, comps.subrange(a, b)),
{
    assert forall|j: int| 0 <= j < b - a implies ancestor_summary_ok(
        #[trigger] all.subrange(a, b)[j],
        m[ids[comps.subrange(a, b)[j].0]],
        comps.subrange(a, b)[j].1,
    ) by {
        assert(all.subrange(a, b)[j] == all[a + j]);
    }
}

/// Summaries of components stay summaries of the same components when both
/// lists are cut to the same window.
proof fn lemma_window_deps(
    all: Seq<DepSummary>,
    m: Map<Seq<char>, GraphView>,
    ids: Seq<Seq<char>>,
    comps: Seq<(int, int)>,
    a: int,
    b: int,
)
    requires
        dep_summaries_ok(all, m, ids, comps),
        0 <= a <= b <= comps.len(),
    ensures
        dep_summaries_ok(all.subrange(a, b), m, ids, comps.subrange(a, b)),
{
    assert forall|j: int| 0 <= j < b - a implies dep_summary_ok(
        #[trigger] all.subrange(a, b)[j],
        m[ids[comps.subrange(a, b)[j].0]],
        comps.subrange(a, b)[j].1,
    ) by {
        assert(all.subrange(a, b)[j] == all[a + j]);
    }
}

/// The analysis service: the graphs loaded so far, keyed by SBOM id, and the
/// queries over them. Reading SBOM ids and relationship rows from the
/// database is the caller's part; it hands the rows to
/// [`AnalysisService::load_graph`].
pub struct AnalysisService {
    graphs: GraphMap,
}

impl AnalysisService {
    /// The loaded graphs are well formed and keyed uniquely.
    pub closed spec fn wf(&self) -> bool {
        self.graphs.wf()
    }

    /// The loaded graphs by SBOM id.
    pub closed spec fn graphs(&self) -> Map<Seq<char>, GraphView> {
        self.graphs@
    }

    /// A service with no graph loaded.
    pub fn new() -> (s: AnalysisService)
        ensures
            s.wf(),
            s.graphs() == Map::<Seq<char>, GraphView>::empty(),
    {
        AnalysisService { graphs: GraphMap::new() }
    }

    /// The first position, at `from` or after it, of an SBOM id whose graph
    /// is not loaded yet: the next graph to fetch and load.
    pub fn next_load(&self, distinct_sbom_ids: &Vec<String>, from: usize) -> (r: Option<usize>)
        requires
            self.wf(),
        ensures
            match r {
                Some(k) => from <= k < distinct_sbom_ids@.len() && !self.graphs().contains_key(
                    distinct_sbom_ids@[k as int]@,
                ) && forall|j: int|
                    from <= j < k ==> self.graphs().contains_key(#[trigger] distinct_sbom_ids@[j]@),
                None => forall|j: int|
                    from <= j < distinct_sbom_ids@.len() ==> self.graphs().contains_key(
                        #[trigger] distinct_sbom_ids@[j]@,
                    ),
            },
    {
        let mut k = from;
        while k < distinct_sbom_ids.len()
            invariant
                self.wf(),
                from <= k,
                forall|j: int| from <= j < k ==> self.graphs().contains_key(#[trigger] distinct_sbom_ids@[j]@),
            decreases distinct_sbom_ids@.len() - k,
        {
            if !self.graphs.contains_key(&distinct_sbom_ids[k]) {
                return Some(k);
            }
            k = k + 1;
        }
        None
    }

    /// Loads the graph of `distinct_sbom_id` from the rows that its
    /// relationship query returned, and says whether loading should go on
    /// with the next SBOM. A failed query loads nothing and goes on. Rows
    /// with a new purl that does not parse load nothing and stop the whole
    /// loading. Otherwise the built graph is stored under the id.
    pub fn load_graph(&mut self, distinct_sbom_id: &String, fetched: Result<Vec<RelationshipRow>, ()>) -> (go_on: bool)
        requires
            old(self).wf(),
            fetched matches Ok(rows) ==> rows@.len() <= 0x7fff_ffff,
        ensures
            final(self).wf(),
            match fetched {
                Err(_) => go_on && final(self).graphs() == old(self).graphs(),
                Ok(rows) => match load_rows(distinct_sbom_id@, rows@) {
                    None => !go_on && final(self).graphs() == old(self).graphs(),
                    Some(g) => go_on && final(self).graphs() == old(self).graphs().insert(distinct_sbom_id@, g),
                },
            },
    {
        match fetched {
            Err(_) => true,
            Ok(rows) => match AnalysisGraph::from_rows(distinct_sbom_id, &rows) {
                None => false,
                Some(g) => {
                    self.graphs.insert(distinct_sbom_id.clone(), g);
                    true
                },
            },
        }
    }

    /// After `load_graph` stores a graph for an id, that graph is the one
    /// loaded under the id.
    pub proof fn lemma_loaded_is_not_reloaded(&self, old_graphs: Map<Seq<char>, GraphView>, id: Seq<char>, g: GraphView)
        requires
            self.graphs() == old_graphs.insert(id, g),
        ensures
            self.graphs().contains_key(id),
            self.graphs()[id] == g,
    {
    }

    /// After the graphs are cleared, the status counts no loaded graph,
    /// whatever the number of SBOMs.
    pub proof fn lemma_cleared_counts_none(&self)
        requires
            self.graphs() == Map::<Seq<char>, GraphView>::empty(),
        ensures
            self.graphs().len() == 0,
    {
        assert(self.graphs().dom() =~= Set::<Seq<char>>::empty());
    }

    /// Drops every loaded graph.
    pub fn clear_all_graphs(&mut self)
        ensures
            final(self).wf(),
            final(self).graphs() == Map::<Seq<char>, GraphView>::empty(),
    {
        self.graphs.clear();
    }

    /// The number of SBOMs that exist (`sbom_count`, as counted in the
    /// database) and of loaded graphs, each as an `i32`.
    pub fn status(&self, sbom_count: usize) -> (s: AnalysisStatus)
        requires
            self.wf(),
        ensures
            s.sbom_count == sbom_count as i32,
            s.graph_count == self.graphs().len() as i32,
    {
        AnalysisStatus { sbom_count: sbom_count as i32, graph_count: self.graphs.len() as i32 }
    }

    /// The packages of each SBOM's graph that queries can pick from: for each
    /// id, the packages in node order when its graph is loaded and acyclic,
    /// and none otherwise.
    pub fn candidates(&self, distinct_sbom_ids: &Vec<String>) -> (r: Vec<Vec<PackageNode>>)
        requires
            self.wf(),
        ensures
            r@.len() == distinct_sbom_ids@.len(),
            forall|k: int|
                0 <= k < r@.len() ==> {
                    let id = distinct_sbom_ids@[k]@;
                    if self.graphs().contains_key(id) && !is_cyclic(self.graphs()[id].edges) {
                        package_views(#[trigger] r@[k]@) == self.graphs()[id].nodes
                    } else {
                        r@[k]@.len() == 0
                    }
                },
    {
        let mut r: Vec<Vec<PackageNode>> = Vec::new();
        let mut k: usize = 0;
        while k < distinct_sbom_ids.len()
            invariant
                self.wf(),
                k <= distinct_sbom_ids@.len(),
                r@.len() == k,
                forall|j: int|
                    0 <= j < k ==> {
                        let id = distinct_sbom_ids@[j]@;
                        if self.graphs().contains_key(id) && !is_cyclic(self.graphs()[id].edges) {
                            package_views(#[trigger] r@[j]@) == self.graphs()[id].nodes
                        } else {
                            r@[j]@.len() == 0
                        }
                    },
            decreases distinct_sbom_ids@.len() - k,
        {
            let mut nodes: Vec<PackageNode> = Vec::new();
            match self.graphs.get(&distinct_sbom_ids[k]) {
                Some(graph) => {
                    if !graph.is_cyclic() {
                        let n = graph.node_count();
                        let mut i: usize = 0;
                        while i < n
                            invariant
                                graph.wf(),
                                n == graph@.nodes.len(),
                                i <= n,
                                nodes@.len() == i,
                                package_views(nodes@) == graph@.nodes.take(i as int),
                            decreases n - i,
                        {
                            let ghost prev_nodes = nodes@;
                            nodes.push(copy_package(graph.package(i)));
                            assert forall|j: int| 0 <= j < i + 1 implies #[trigger] package_views(nodes@)[j] == graph@.nodes.take(i + 1)[j] by {
                                if j < i {
                                    assert(nodes@[j] == prev_nodes[j]);
                                    assert(package_views(prev_nodes)[j] == graph@.nodes.take(i as int)[j]);
                                }
                            }
                            assert(package_views(nodes@) =~= graph@.nodes.take(i + 1));
                            i = i + 1;
                        }
                        assert(graph@.nodes.take(n as int) =~= graph@.nodes);
                    }
                },
                None => {},
            }
            let ghost prev = r@;
            r.push(nodes);
            assert forall|j: int|
                0 <= j < k + 1 implies {
                    let id = distinct_sbom_ids@[j]@;
                    if self.graphs().contains_key(id) && !is_cyclic(self.graphs()[id].edges) {
                        package_views(#[trigger] r@[j]@) == self.graphs()[id].nodes
                    } else {
                        r@[j]@.len() == 0
                    }
                } by {
                if j < k {
                    assert(r@[j] == prev[j]);
                }
            }
            k = k + 1;
        }
        r
    }

    /// Root components of the packages that a query picks: `matched[k][i]`
    /// says whether the query matches node `i` (by SBOM id, node id and name)
    /// of the graph of the `k`-th SBOM id, as listed by
    /// [`AnalysisService::candidates`]. Graphs with a cycle are skipped.
    /// The result is the window of `paginated`.
    pub fn retrieve_root_components(
        &self,
        distinct_sbom_ids: &Vec<String>,
        matched: Vec<Vec<bool>>,
        paginated: &Paginated,
    ) -> (r: PaginatedResults<AncestorSummary>)
        requires
            self.wf(),
        ensures
            paged_ancestors_ok(
                r,
                self.graphs(),
                id_views(distinct_sbom_ids@),
                components(self.graphs(), id_views(distinct_sbom_ids@), Selection::ByFlags(matched)),
                *paginated,
            ),
    {
        let sel = Selection::ByFlags(matched);
        let summaries = self.graphs.collect_ancestors(distinct_sbom_ids, &sel);
        let ghost all = summaries@;
        let r = paginated.paginate_array(summaries);
        proof {
            let comps = components(self.graphs(), id_views(distinct_sbom_ids@), sel);
            let start = page_start(comps.len(), *paginated);
            lemma_window_ancestors(all, self.graphs(), id_views(distinct_sbom_ids@), comps, start, start + page_len(comps.len(), *paginated));
        }
        r
    }

    /// Root components of the packages named exactly `component_name`, in
    /// the window of `paginated`. Graphs with a cycle are skipped.
    pub fn retrieve_root_components_by_name(
        &self,
        distinct_sbom_ids: &Vec<String>,
        component_name: &String,
        paginated: &Paginated,
    ) -> (r: PaginatedResults<AncestorSummary>)
        requires
            self.wf(),
        ensures
            paged_ancestors_ok(
                r,
                self.graphs(),
                id_views(distinct_sbom_ids@),
                components(self.graphs(), id_views(distinct_sbom_ids@), Selection::ByName(*component_name)),
                *paginated,
            ),
    {
        let sel = Selection::ByName(component_name.clone());
        let summaries = self.graphs.collect_ancestors(distinct_sbom_ids, &sel);
        let ghost all = summaries@;
        let r = paginated.paginate_array(summaries);
        proof {
            let comps = components(self.graphs(), id_views(distinct_sbom_ids@), sel);
            let start = page_start(comps.len(), *paginated);
            lemma_window_ancestors(all, self.graphs(), id_views(distinct_sbom_ids@), comps, start, start + page_len(comps.len(), *paginated));
        }
        r
    }

    /// Root components of the packages whose purl equals the requested one:
    /// `matched[k][i]` says whether node `i` of the graph of the `k`-th SBOM
    /// id has a purl that parses and equals it. Graphs with a cycle are
    /// skipped. All of them are returned, without pagination.
    pub fn retrieve_root_components_by_purl(
        &self,
        distinct_sbom_ids: &Vec<String>,
        matched: Vec<Vec<bool>>,
    ) -> (r: PaginatedResults<AncestorSummary>)
        requires
            self.wf(),
        ensures
            r.total == r.items@.len(),
            ancestor_summaries_ok(
                r.items@,
                self.graphs(),
                id_views(distinct_sbom_ids@),
                components(self.graphs(), id_views(distinct_sbom_ids@), Selection::ByFlags(matched)),
            ),
    {
        let sel = Selection::ByFlags(matched);
        let summaries = self.graphs.collect_ancestors(distinct_sbom_ids, &sel);
        let total = summaries.len() as u64;
        PaginatedResults { items: summaries, total }
    }

    /// Dependency trees of the packages that a query picks (see
    /// [`AnalysisService::retrieve_root_components`] for `matched`), in the
    /// window of `paginated`. Graphs with a cycle are skipped.
    pub fn retrieve_deps(
        &self,
        distinct_sbom_ids: &Vec<String>,
        matched: Vec<Vec<bool>>,
        paginated: &Paginated,
    ) -> (r: PaginatedResults<DepSummary>)
        requires
            self.wf(),
        ensures
            paged_deps_ok(
                r,
                self.graphs(),
                id_views(distinct_sbom_ids@),
                components(self.graphs(), id_views(distinct_sbom_ids@), Selection::ByFlags(matched)),
                *paginated,
            ),
    {
        let sel = Selection::ByFlags(matched);
        let summaries = self.graphs.collect_deps(distinct_sbom_ids, &sel);
        let ghost all = summaries@;
        let r = paginated.paginate_array(summaries);
        proof {
            let comps = components(self.graphs(), id_views(distinct_sbom_ids@), sel);
            let start = page_start(comps.len(), *paginated);
            lemma_window_deps(all, self.graphs(), id_views(distinct_sbom_ids@), comps, start, start + page_len(comps.len(), *paginated));
        }
        r
    }

    /// Dependency trees of the packages named exactly `component_name`, in
    /// the window of `paginated`. Graphs with a cycle are skipped.
    pub fn retrieve_deps_by_name(
        &self,
        distinct_sbom_ids: &Vec<String>,
        component_name: &String,
        paginated: &Paginated,
    ) -> (r: PaginatedResults<DepSummary>)
        requires
            self.wf(),
        ensures
            paged_deps_ok(
                r,
                self.graphs(),
                id_views(distinct_sbom_ids@),
                components(self.graphs(), id_views(distinct_sbom_ids@), Selection::ByName(*component_name)),
                *paginated,
            ),
    {
        let sel = Selection::ByName(component_name.clone());
        let summaries = self.graphs.collect_deps(distinct_sbom_ids, &sel);
        let ghost all = summaries@;
        let r = paginated.paginate_array(summaries);
        proof {
            let comps = components(self.graphs(), id_views(distinct_sbom_ids@), sel);
            let start = page_start(comps.len(), *paginated);
            lemma_window_deps(all, self.graphs(), id_views(distinct_sbom_ids@), comps, start, start + page_len(comps.len(), *paginated));
        }
        r
    }

    /// Dependency trees of the packages whose purl equals the requested one
    /// (see [`AnalysisService::retrieve_root_components_by_purl`] for
    /// `matched`), in the window of `paginated`. Graphs with a cycle are
    /// skipped.
    pub fn retrieve_deps_by_purl(
        &self,
        distinct_sbom_ids: &Vec<String>,
        matched: Vec<Vec<bool>>,
        paginated: &Paginated,
    ) -> (r: PaginatedResults<DepSummary>)
        requires
            self.wf(),
        ensures
            paged_deps_ok(
                r,
                self.graphs(),
                id_views(distinct_sbom_ids@),
                components(self.graphs(), id_views(distinct_sbom_ids@), Selection::ByFlags(matched)),
                *paginated,
            ),
    {
        self.retrieve_deps(distinct_sbom_ids, matched, paginated)
    }
}

} // verus!
