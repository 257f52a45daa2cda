# trustify (verified core)

A Verus library holding the logic of Trustify's SBOM dependency analysis and
a few of its services, with contracts proved by Verus.

- `src/analysis/`: the dependency graph of an SBOM.
  - `graph_spec.rs`: the mathematical model of a graph given by its edge
    list (neighbor order, walks, reachability, cycles, the depth-first
    ancestor walk) and its lemmas.
  - `petgraph_specs.rs`: the trusted contracts of the `petgraph` and
    `fixedbitset` calls that the graph code makes.
  - `graph.rs`: building a graph from relationship rows, the ancestor walk
    and the dependency tree.
  - `service.rs`: the loaded graphs by SBOM id, loading, status, and the
    root-component and dependency queries with pagination.
  - `model.rs`: packages, summaries, rows, pagination.
- `src/advisory.rs`, `src/entity/`, `src/id.rs`: advisory lookup keys and
  query-term rewriting.
- `src/graphql.rs`: GraphQL objects and how query results become them.
- `src/migration.rs`: the statements of the `product_status` migration.
- `src/ingestor.rs`: the get-or-create decision for qualified packages.
- `app/`: the server, database access and framework glue around the library.
- `tests/`: tests of the library on concrete values.
