use trustify::analysis::graph::{ancestor_nodes, dep_nodes, AnalysisGraph};
use trustify::analysis::model::{Paginated, RelationshipRow};
use trustify::analysis::service::{
    relationships_query, AnalysisService, RELATIONSHIPS_QUERY_HEAD, RELATIONSHIPS_QUERY_TAIL,
};

fn s(x: &str) -> String {
    x.to_string()
}

fn purl(name: &str) -> String {
    format!("pkg://rpm/redhat/{name}@0.0.0?arch=src")
}

/// A row `left -> right` of the SBOM, both purls present and parsing.
fn row(left: &str, right: &str) -> RelationshipRow {
    RelationshipRow {
        published: Some(s("2024-01-01")),
        document_id: Some(s("doc-1")),
        product_name: None,
        product_version: None,
        left_node_id: Some(format!("SPDXRef-{left}")),
        left_qualified_purl: Some(purl(left)),
        left_purl_name: Some(s(left)),
        right_node_id: Some(format!("SPDXRef-{right}")),
        right_qualified_purl: Some(purl(right)),
        right_purl_name: Some(s(right)),
        relationship: Some(1),
    }
}

/// B -> A, C -> B, D -> B, D -> C: nodes B=0, A=1, C=2, D=3.
fn simple_rows() -> Vec<RelationshipRow> {
    vec![row("B", "A"), row("C", "B"), row("D", "B"), row("D", "C")]
}

fn simple_graph() -> AnalysisGraph {
    AnalysisGraph::from_rows(&s("sbom-1"), &simple_rows()).unwrap()
}

fn ids(list: &[&str]) -> Vec<String> {
    list.iter().map(|x| x.to_string()).collect()
}

fn loaded_service(sbom: &str, rows: Vec<RelationshipRow>) -> AnalysisService {
    let mut service = AnalysisService::new();
    assert!(service.load_graph(&s(sbom), Ok(rows)));
    service
}

#[test]
fn builds_one_node_per_distinct_purl() {
    let g = simple_graph();
    assert_eq!(g.node_count(), 4);
    assert_eq!(g.package(0).name, "B");
    assert_eq!(g.package(1).name, "A");
    assert_eq!(g.package(2).name, "C");
    assert_eq!(g.package(3).name, "D");
    assert_eq!(g.package(3).purl, purl("D"));
    assert_eq!(g.package(3).node_id, "SPDXRef-D");
    assert_eq!(g.package(3).sbom_id, "sbom-1");
    assert_eq!(g.package(3).published, "2024-01-01");
    assert_eq!(g.package(3).product_name, "NOVALUE");
    assert!(!g.is_cyclic());
}

#[test]
fn ancestors_walk_depth_first_to_the_root() {
    let g = simple_graph();
    let names: Vec<String> = ancestor_nodes(&g, 3).into_iter().map(|a| a.name).collect();
    assert_eq!(names, vec![s("C"), s("B"), s("A")]);
    let last = ancestor_nodes(&g, 3).pop().unwrap();
    assert_eq!(last.purl, purl("A"));
    assert_eq!(last.node_id, "SPDXRef-A");
    assert!(ancestor_nodes(&g, 1).is_empty());
}

#[test]
fn ancestors_can_repeat_a_node_reached_twice() {
    // X -> Y, X -> Z, Y -> Z: Z is reported from X and, before it is
    // visited, again from Y.
    let rows = vec![row("X", "Y"), row("X", "Z"), row("Y", "Z")];
    let g = AnalysisGraph::from_rows(&s("sbom"), &rows).unwrap();
    let names: Vec<String> = ancestor_nodes(&g, 0).into_iter().map(|a| a.name).collect();
    assert_eq!(names, vec![s("Z"), s("Y"), s("Z")]);
    // X -> Y, X -> Z, Z -> Y: Y is visited before Z looks at it.
    let rows = vec![row("X", "Y"), row("X", "Z"), row("Z", "Y")];
    let g = AnalysisGraph::from_rows(&s("sbom"), &rows).unwrap();
    let names: Vec<String> = ancestor_nodes(&g, 0).into_iter().map(|a| a.name).collect();
    assert_eq!(names, vec![s("Z"), s("Y")]);
}

#[test]
fn deps_form_a_tree_newest_edge_first() {
    let g = simple_graph();
    let deps = dep_nodes(&g, 0);
    assert_eq!(deps.len(), 2);
    assert_eq!(deps[0].name, "D");
    assert!(deps[0].deps.is_empty());
    assert_eq!(deps[1].name, "C");
    assert_eq!(deps[1].deps.len(), 1);
    assert_eq!(deps[1].deps[0].name, "D");
    assert!(dep_nodes(&g, 3).is_empty());
}

#[test]
fn rows_without_purls_are_skipped() {
    let mut no_left = row("B", "A");
    no_left.left_qualified_purl = None;
    let mut no_right = row("C", "B");
    no_right.right_qualified_purl = None;
    let g = AnalysisGraph::from_rows(&s("sbom"), &vec![no_left, no_right]).unwrap();
    assert_eq!(g.node_count(), 1);
    assert_eq!(g.package(0).name, "C");
    assert!(ancestor_nodes(&g, 0).is_empty());
}

#[test]
fn unparsable_new_purl_builds_nothing() {
    let mut bad = row("C", "B");
    bad.left_purl_name = None;
    let rows = vec![row("B", "A"), bad];
    assert!(AnalysisGraph::from_rows(&s("sbom"), &rows).is_none());
    // A known purl is not parsed again.
    let mut known = row("A", "B");
    known.left_purl_name = None;
    known.right_purl_name = None;
    let rows = vec![row("B", "A"), known];
    assert!(AnalysisGraph::from_rows(&s("sbom"), &rows).is_some());
}

#[test]
fn load_graph_stops_on_unparsable_purl() {
    let mut service = AnalysisService::new();
    let mut bad = row("C", "B");
    bad.left_purl_name = None;
    assert!(!service.load_graph(&s("sbom-1"), Ok(vec![bad])));
    assert_eq!(service.status(1).graph_count, 0);
    assert!(service.load_graph(&s("sbom-1"), Err(())));
    assert_eq!(service.status(1).graph_count, 0);
}

#[test]
fn next_load_skips_loaded_graphs() {
    let service = loaded_service("sbom-2", simple_rows());
    let list = ids(&["sbom-2", "sbom-1", "sbom-2", "sbom-3"]);
    assert_eq!(service.next_load(&list, 0), Some(1));
    assert_eq!(service.next_load(&list, 2), Some(3));
    assert_eq!(service.next_load(&list, 4), None);
}

#[test]
fn status_counts_and_clear_empties() {
    let mut service = loaded_service("sbom-1", simple_rows());
    assert!(service.load_graph(&s("sbom-2"), Ok(vec![row("X", "Y")])));
    let status = service.status(3);
    assert_eq!(status.sbom_count, 3);
    assert_eq!(status.graph_count, 2);
    service.clear_all_graphs();
    let status = service.status(3);
    assert_eq!(status.sbom_count, 3);
    assert_eq!(status.graph_count, 0);
}

#[test]
fn reloading_an_id_replaces_its_graph() {
    let mut service = loaded_service("sbom-1", simple_rows());
    assert!(service.load_graph(&s("sbom-1"), Ok(vec![row("X", "Y")])));
    assert_eq!(service.status(1).graph_count, 1);
    let found = service.retrieve_root_components_by_name(&ids(&["sbom-1"]), &s("X"), &Paginated::default());
    assert_eq!(found.total, 1);
    let found = service.retrieve_root_components_by_name(&ids(&["sbom-1"]), &s("D"), &Paginated::default());
    assert_eq!(found.total, 0);
}

#[test]
fn root_components_by_name_lists_ancestors() {
    let service = loaded_service("sbom-1", simple_rows());
    let r = service.retrieve_root_components_by_name(&ids(&["sbom-1"]), &s("D"), &Paginated::default());
    assert_eq!(r.total, 1);
    let item = r.items.last().unwrap();
    assert_eq!(item.name, "D");
    assert_eq!(item.document_id, "doc-1");
    assert_eq!(item.product_version, "NOVALUE");
    assert_eq!(item.ancestors.last().unwrap().purl, purl("A"));
    assert_eq!(item.ancestors.len(), 3);
    let r = service.retrieve_root_components_by_name(&ids(&["sbom-1"]), &s("EE"), &Paginated::default());
    assert_eq!(r.total, 0);
    let r = service.retrieve_root_components_by_name(&ids(&["sbom-9"]), &s("D"), &Paginated::default());
    assert_eq!(r.total, 0);
}

#[test]
fn root_components_by_flags_follow_the_flags() {
    let service = loaded_service("sbom-1", simple_rows());
    let list = ids(&["sbom-1"]);
    let candidates = service.candidates(&list);
    assert_eq!(candidates.len(), 1);
    assert_eq!(candidates[0].len(), 4);
    let matched: Vec<Vec<bool>> = candidates
        .iter()
        .map(|nodes| nodes.iter().map(|p| p.name.starts_with('C') || p.name == "A").collect())
        .collect();
    let r = service.retrieve_root_components(&list, matched.clone(), &Paginated::default());
    assert_eq!(r.total, 2);
    assert_eq!(r.items[0].name, "A");
    assert!(r.items[0].ancestors.is_empty());
    assert_eq!(r.items[1].name, "C");
    let names: Vec<String> = r.items[1].ancestors.iter().map(|a| a.name.clone()).collect();
    assert_eq!(names, vec![s("B"), s("A")]);
    let r = service.retrieve_root_components_by_purl(&list, matched);
    assert_eq!(r.total, 2);
    assert_eq!(r.items.len(), 2);
    let r = service.retrieve_root_components(&list, vec![], &Paginated::default());
    assert_eq!(r.total, 0);
}

#[test]
fn deps_by_name_and_flags() {
    let service = loaded_service("sbom-1", simple_rows());
    let list = ids(&["sbom-1"]);
    let r = service.retrieve_deps_by_name(&list, &s("B"), &Paginated::default());
    assert_eq!(r.total, 1);
    assert_eq!(r.items[0].purl, purl("B"));
    assert_eq!(r.items[0].deps.len(), 2);
    assert_eq!(r.items[0].deps[1].deps[0].name, "D");
    let r = service.retrieve_deps(&list, vec![vec![false, true, false, false]], &Paginated::default());
    assert_eq!(r.total, 1);
    assert_eq!(r.items[0].name, "A");
    assert_eq!(r.items[0].deps.len(), 1);
    assert_eq!(r.items[0].deps[0].name, "B");
    let r = service.retrieve_deps_by_purl(&list, vec![vec![true, true, true, true]], &Paginated::default());
    assert_eq!(r.total, 4);
}

#[test]
fn circular_graphs_yield_nothing() {
    let rows = vec![row("A", "B"), row("B", "A")];
    let service = loaded_service("loop", rows);
    let list = ids(&["loop"]);
    assert_eq!(service.retrieve_deps_by_name(&list, &s("A"), &Paginated::default()).total, 0);
    assert_eq!(service.retrieve_root_components_by_name(&list, &s("A"), &Paginated::default()).total, 0);
    let candidates = service.candidates(&list);
    assert!(candidates[0].is_empty());
    // A self-loop is a cycle too.
    let service = loaded_service("self", vec![row("A", "A")]);
    assert_eq!(service.retrieve_deps_by_name(&ids(&["self"]), &s("A"), &Paginated::default()).total, 0);
}

#[test]
fn results_follow_the_order_of_sbom_ids() {
    let mut service = loaded_service("sbom-1", simple_rows());
    assert!(service.load_graph(&s("sbom-2"), Ok(vec![row("D", "Q")])));
    let r = service.retrieve_root_components_by_name(&ids(&["sbom-2", "sbom-1"]), &s("D"), &Paginated::default());
    assert_eq!(r.total, 2);
    assert_eq!(r.items[0].sbom_id, "sbom-2");
    assert_eq!(r.items[1].sbom_id, "sbom-1");
}

#[test]
fn pagination_windows_the_results() {
    let service = loaded_service("sbom-1", simple_rows());
    let list = ids(&["sbom-1"]);
    let all = vec![vec![true, true, true, true]];
    let r = service.retrieve_root_components(&list, all.clone(), &Paginated { offset: 1, limit: 2 });
    assert_eq!(r.total, 4);
    let names: Vec<String> = r.items.iter().map(|a| a.name.clone()).collect();
    assert_eq!(names, vec![s("A"), s("C")]);
    let r = service.retrieve_root_components(&list, all.clone(), &Paginated { offset: 3, limit: 0 });
    assert_eq!(r.total, 4);
    assert_eq!(r.items.len(), 1);
    assert_eq!(r.items[0].name, "D");
    let r = service.retrieve_root_components(&list, all, &Paginated { offset: 9, limit: 5 });
    assert_eq!(r.total, 4);
    assert!(r.items.is_empty());
}

#[test]
fn paginate_array_takes_window() {
    let p = Paginated { offset: 2, limit: 3 };
    let r = p.paginate_array(vec![1, 2, 3, 4, 5, 6, 7]);
    assert_eq!(r.total, 7);
    assert_eq!(r.items, vec![3, 4, 5]);
    let r = Paginated::default().paginate_array(vec![1, 2]);
    assert_eq!(r.items, vec![1, 2]);
    assert_eq!(r.total, 2);
}

#[test]
fn relationships_query_embeds_the_sbom_id() {
    let q = relationships_query("4ad38204-b998-4054-8ddc-a5c94ec37aa9");
    assert!(q.contains("AND sbom.sbom_id = '4ad38204-b998-4054-8ddc-a5c94ec37aa9';"));
    assert!(q.contains("package_relates_to_package.relationship IN (0, 1, 8, 14)"));
    assert_eq!(q, format!("{RELATIONSHIPS_QUERY_HEAD}4ad38204-b998-4054-8ddc-a5c94ec37aa9{RELATIONSHIPS_QUERY_TAIL}"));
}

#[test]
fn missing_relationship_defaults_to_contained_by() {
    let mut r = row("B", "A");
    r.relationship = None;
    r.published = None;
    let g = AnalysisGraph::from_rows(&s("sbom"), &vec![r]).unwrap();
    assert_eq!(g.package(0).published, "NOVALUE");
    assert_eq!(ancestor_nodes(&g, 0).len(), 1);
}
