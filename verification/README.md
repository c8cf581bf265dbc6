# cargo-raze

Plans Bazel builds of Cargo workspaces. From what Cargo says of a workspace, its settings and its lock
files, the planner makes the contexts that BUILD files are rendered from: the crates to build, their
targets and dependencies by platform, and the aliases at the root.

The library under `src/` is verified with Verus.

- `planning` plans a workspace: `BuildPlannerImpl` from what was fetched, `workspace_subplanner` all
  crates of a workspace, `crate_subplanner` one crate. `laws` and `dependency_laws` state what holds of
  every plan.
- `metadata`, `settings`, `platform`, `source`, `version` and `paths` are the inputs of a plan, `context`
  is its output, and `error` says what can go wrong.
- `manifest` adds members to the workspace of a manifest.
- `universe` tells which inputs a crate universe is resolved from.
- `text`, `sorting`, `table` and `printing` are what the others are written with.

What reads versions, requirements, sources, platforms and manifests is left to the crates `semver`,
`cargo-lock`, `cargo-platform`, `cargo_toml` and `toml`. The functions that call them say in their
comments what is taken from these crates without proof.

`app/` holds the command line and everything that touches files, processes and the network.
