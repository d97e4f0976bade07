# mitase_workbench_server

The verified core of the Mitase Workbench, a local web application for
specification-driven work: the decisions the server makes and the views it
projects for the browser, written in Verus with their contracts proved.

- `src/` is the library. Each module states its model in spec functions and
  proves its executable functions against them: the work journey and its
  actions (`journey`, `journey_action`, `work`, `context`), trace graphs and their bounded views
  (`trace`, `trace_graph`, `trace_build`, `trace_view`, `related`, and
  `closure_set`, which assembles the view), criterion closures and readiness
  (`closures`, `anchors`, `completeness`, `readiness`,
  `review`, `split`, `selection`, `slice_selection`), specification discovery and ranking
  (`discovery`, `candidates`), target suggestions and their approval
  (`suggestions`, `approval`), edits of specification documents (`yaml`,
  `projection`, `impact`, `feature_link`), branch scope and diffs (`scope`,
  `changes`, `branch_scope`), the server's protections and signatures
  (`server`, `signature`, `hashing`), and shared text helpers (`text`,
  `sorted`).
- `tests/` exercises the library on concrete values.
- `app/` is the `mitase-workbench` command: argument handling, Git, files and
  the HTTP server around the library, and the YAML reading and writing
  around the library's edit of a specification document (`spec_file`).
