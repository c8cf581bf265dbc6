//! What is said where a build cannot be planned.

use vstd::prelude::*;

use crate::context::CrateContextView;
use crate::error::RazeErrorView;
use crate::metadata::{CargoWorkspaceFilesView, LockedPackageView, MetadataView, Node, NodeView};
use crate::planning::checks::{first_not_vendored, first_unknown_node, is_vendored, resolve_check};
use crate::planning::checksums::{checksums_of_files, with_indexed, with_locked, Checksums};
use crate::planning::crate_catalog::{catalog_entries, find_entry, has_package};
use crate::planning::facts::{IndexChecksumView, WorkspaceFactsView};
use crate::planning::plan_laws::{
    can_be_planned_up_to, catalogs_of, has_context, is_known, is_root_crate, is_wanted_crate,
    knows_every_node, lemma_catalogs_can_be_planned, lemma_checks, lemma_crate_context,
    lemma_known, lemma_plan_is_made_if_it_can_be, lemma_resolve_matches, lemma_some_first,
    passes_checks, planner_for, roots_up_to,
};
use crate::planning::settings_laws::{
    ambiguity, are_settings_of, can_be_read, files_of, has_checksums, is_checksum_of,
    is_first_indexed, is_first_named, is_for_package, is_indexed, lemma_ambiguous_settings,
    lemma_checksum_of_package, lemma_files, lemma_first_indexed, lemma_indexed,
    lemma_settings_of_package,
};
use crate::planning::use_laws::{first_with_id, is_first_with_id};
use crate::planning::workspace_subplanner::{
    resolve_checks, second_root, settings_for, sorted_nodes, ContextsView, WorkspaceSubplannerView,
};
use crate::settings::{BinaryDependencyView, CrateSettingsView, GenMode};
use crate::sorting::lemma_stable_sorted_keeps_items;
use crate::text::Text;
use crate::version::version_error;

verus! {

/// Whether the node at `i` is the first whose package is not known.
pub open spec fn is_first_unknown(m: MetadataView, i: int) -> bool {
    let nodes = m.resolve->Some_0.nodes;
    &&& 0 <= i < nodes.len()
    &&& !is_known(m, nodes[i])
    &&& forall|h: int| 0 <= h < i ==> is_known(m, #[trigger] nodes[h])
}

/// Whether this is what is said of a graph that is missing, or of the first of its nodes whose package is
/// not known.
pub open spec fn is_said_of_graph(m: MetadataView, error: RazeErrorView) -> bool {
    if m.resolve is None {
        error == RazeErrorView::Generic("Missing resolve graph"@)
    } else {
        exists|i: int|
            #[trigger] is_first_unknown(m, i) && error == (RazeErrorView::Planning {
                dependency_name_opt: None,
                message: "Failed to find metadata for the package "@
                    + m.resolve->Some_0.nodes[i].id,
            })
    }
}

/// Whether the sources of the package at `j` are the first that should be checked in and are not.
pub open spec fn is_first_missing(view: WorkspaceSubplannerView, j: int) -> bool {
    &&& 0 <= j < view.catalog.packages.len()
    &&& is_missing(view, j)
    &&& forall|h: int| 0 <= h < j ==> !#[trigger] is_missing(view, h)
}

/// Whether the sources of the package at `j` should be checked in and are not.
pub open spec fn is_missing(view: WorkspaceSubplannerView, j: int) -> bool {
    let m = view.catalog;
    &&& m.resolve->Some_0.root != Some(m.packages[j].id)
    &&& !m.workspace_members.contains(m.packages[j].id)
    &&& !view.facts.vendored_crates.contains(m.packages[j].name + "-"@ + m.packages[j].version)
}

proof fn lemma_has_package(m: MetadataView, id: Text)
    ensures
        has_package(m.packages, id) <==> exists|j: int| is_first_with_id(m.packages, id, j),
{
    if has_package(m.packages, id) {
        let i = choose|i: int| 0 <= i < m.packages.len() && (#[trigger] m.packages[i]).id == id;
        lemma_some_first(m.packages, id, i);
    }
    if exists|j: int| is_first_with_id(m.packages, id, j) {
        let j = choose|j: int| is_first_with_id(m.packages, id, j);
        assert(m.packages[j].id == id);
    }
}

proof fn lemma_unknown_from(m: MetadataView, from: int)
    requires
        m.resolve is Some,
        0 <= from <= m.resolve->Some_0.nodes.len(),
        forall|h: int| 0 <= h < from ==> is_known(m, #[trigger] m.resolve->Some_0.nodes[h]),
        first_unknown_node(m.resolve->Some_0.nodes.skip(from), m.packages) is Some,
    ensures
        exists|i: int|
            #[trigger] is_first_unknown(m, i) && first_unknown_node(
                m.resolve->Some_0.nodes.skip(from),
                m.packages,
            ) == Some(m.resolve->Some_0.nodes[i].id),
    decreases m.resolve->Some_0.nodes.len() - from,
{
    let nodes = m.resolve->Some_0.nodes;
    let rest = nodes.skip(from);
    assert(rest[0] == nodes[from]);
    lemma_has_package(m, nodes[from].id);
    if has_package(m.packages, nodes[from].id) {
        assert(rest.drop_first() =~= nodes.skip(from + 1));
        assert(is_known(m, nodes[from]));
        lemma_unknown_from(m, from + 1);
    } else {
        assert(is_first_unknown(m, from));
    }
}

proof fn lemma_graph_error(m: MetadataView)
    ensures
        resolve_check(m) matches Err(error) ==> is_said_of_graph(m, error),
{
    if m.resolve is Some && resolve_check(m) is Err {
        assert(m.resolve->Some_0.nodes.skip(0) =~= m.resolve->Some_0.nodes);
        lemma_unknown_from(m, 0);
    }
}

proof fn lemma_graph_errors(catalogs: Seq<MetadataView>) -> (k: int)
    requires
        resolve_checks(catalogs) is Err,
    ensures
        0 <= k < catalogs.len(),
        forall|h: int| 0 <= h < k ==> resolve_check(#[trigger] catalogs[h]) is Ok,
        resolve_check(catalogs[k]) == resolve_checks(catalogs),
    decreases catalogs.len(),
{
    let front = catalogs.drop_last();
    if resolve_checks(front) is Err {
        let k = lemma_graph_errors(front);
        assert(front[k] == catalogs[k]);
        assert forall|h: int| 0 <= h < k implies resolve_check(#[trigger] catalogs[h]) is Ok by {
            assert(front[h] == catalogs[h]);
        }
        k
    } else {
        lemma_passed(front);
        assert forall|h: int| 0 <= h < catalogs.len() - 1 implies resolve_check(
            #[trigger] catalogs[h],
        ) is Ok by {
            assert(front[h] == catalogs[h]);
        }
        catalogs.len() - 1
    }
}

proof fn lemma_passed(catalogs: Seq<MetadataView>)
    requires
        resolve_checks(catalogs) is Ok,
    ensures
        forall|h: int| 0 <= h < catalogs.len() ==> resolve_check(#[trigger] catalogs[h]) is Ok,
    decreases catalogs.len(),
{
    if catalogs.len() > 0 {
        let front = catalogs.drop_last();
        lemma_passed(front);
        assert forall|h: int| 0 <= h < catalogs.len() implies resolve_check(
            #[trigger] catalogs[h],
        ) is Ok by {
            if h < front.len() {
                assert(front[h] == catalogs[h]);
            }
        }
    }
}

proof fn lemma_missing_from(view: WorkspaceSubplannerView, from: int)
    requires
        0 <= from <= view.catalog.packages.len(),
        forall|h: int| 0 <= h < from ==> !#[trigger] is_missing(view, h),
        first_not_vendored(
            catalog_entries(view.catalog).skip(from),
            view.facts.vendored_crates,
        ) is Some,
    ensures
        exists|j: int|
            #[trigger] is_first_missing(view, j) && first_not_vendored(
                catalog_entries(view.catalog).skip(from),
                view.facts.vendored_crates,
            ) == Some(view.catalog.packages[j]),
    decreases view.catalog.packages.len() - from,
{
    let entries = catalog_entries(view.catalog);
    let rest = entries.skip(from);
    assert(rest[0] == entries[from]);
    assert(entries[from].package == view.catalog.packages[from]);
    assert(is_vendored(entries[from], view.facts.vendored_crates) <==> !is_missing(view, from));
    if is_vendored(entries[from], view.facts.vendored_crates) {
        assert(rest.drop_first() =~= entries.skip(from + 1));
        lemma_missing_from(view, from + 1);
    } else {
        assert(is_first_missing(view, from));
    }
}

/// Why the checks that come before planning fail: there is no graph of the workspace, or the package of
/// a node is not known, and the first such node is told; where Bazel fetches the sources, the same of the
/// first such catalog of the crates that are wanted for their binaries; and where they are checked in,
/// those of a package are missing, and the first such package is told.
pub proof fn lemma_why_checks_fail(view: WorkspaceSubplannerView)
    requires
        !passes_checks(view),
    ensures
        view.planned_build() is Err,
        ({
            let error = view.planned_build()->Err_0;
            if !knows_every_node(view.catalog) {
                is_said_of_graph(view.catalog, error)
            } else if view.settings.genmode == GenMode::Remote {
                exists|k: int|
                    {
                        &&& 0 <= k < view.binary_dependencies.len()
                        &&& is_said_of_graph(#[trigger] view.binary_dependencies[k], error)
                        &&& !knows_every_node(view.binary_dependencies[k])
                        &&& forall|h: int|
                            0 <= h < k ==> knows_every_node(#[trigger] view.binary_dependencies[h])
                    }
            } else {
                &&& view.settings.genmode == GenMode::Vendored
                &&& exists|j: int|
                    #[trigger] is_first_missing(view, j) && error == (RazeErrorView::Planning {
                        dependency_name_opt: Some(view.catalog.packages[j].name),
                        message: "Failed to find the vendored sources of "@ + (
                        view.catalog.packages[j].name + "-"@ + view.catalog.packages[j].version)
                            + " in "@ + view.settings.workspace_path + "/vendor"@,
                    })
            }
        }),
{
    lemma_checks(view);
    lemma_resolve_matches(view.catalog);
    lemma_graph_error(view.catalog);
    if knows_every_node(view.catalog) {
        if view.settings.genmode == GenMode::Remote {
            let k = lemma_graph_errors(view.binary_dependencies);
            lemma_graph_error(view.binary_dependencies[k]);
            lemma_resolve_matches(view.binary_dependencies[k]);
            assert forall|h: int| 0 <= h < k implies knows_every_node(
                #[trigger] view.binary_dependencies[h],
            ) by {
                lemma_resolve_matches(view.binary_dependencies[h]);
            }
        } else {
            let entries = catalog_entries(view.catalog);
            assert(entries.skip(0) =~= entries);
            lemma_missing_from(view, 0);
        }
    }
}

/// Whether the package at `p` is the first that has a checksum and a version that cannot be read.
pub open spec fn is_first_unversioned(packages: Seq<LockedPackageView>, p: int) -> bool {
    &&& 0 <= p < packages.len()
    &&& packages[p].checksum is Some && version_error(packages[p].version) is Some
    &&& forall|h: int|
        0 <= h < p ==> ((#[trigger] packages[h]).checksum is Some ==> version_error(
            packages[h].version,
        ) is None)
}

/// Whether this is what is said of a lock file that cannot be read, or of the first version in it that
/// cannot be.
pub open spec fn is_said_of_lock(files: CargoWorkspaceFilesView, error: RazeErrorView) -> bool {
    let packages = files.lock_file_opt->Some_0.packages;
    if packages is Err {
        error == RazeErrorView::Generic(packages->Err_0)
    } else {
        exists|p: int|
            #[trigger] is_first_unversioned(packages->Ok_0, p) && error == RazeErrorView::Version(
                version_error(packages->Ok_0[p].version)->Some_0,
            )
    }
}

proof fn lemma_unversioned(table: Checksums, packages: Seq<LockedPackageView>) -> (p: int)
    requires
        with_locked(table, packages) is Err,
    ensures
        is_first_unversioned(packages, p),
        with_locked(table, packages)->Err_0 == RazeErrorView::Version(
            version_error(packages[p].version)->Some_0,
        ),
    decreases packages.len(),
{
    let front = packages.drop_last();
    if with_locked(table, front) is Err {
        let p = lemma_unversioned(table, front);
        assert(packages[p] == front[p]);
        assert forall|h: int| 0 <= h < p && (#[trigger] packages[h]).checksum is Some
            implies version_error(packages[h].version) is None by {
            assert(front[h] == packages[h]);
        }
        p
    } else {
        lemma_versioned(table, front);
        assert forall|h: int| 0 <= h < packages.len() - 1 && (
        #[trigger] packages[h]).checksum is Some implies version_error(
            packages[h].version,
        ) is None by {
            assert(front[h] == packages[h]);
        }
        packages.len() - 1
    }
}

proof fn lemma_versioned(table: Checksums, packages: Seq<LockedPackageView>)
    requires
        with_locked(table, packages) is Ok,
    ensures
        forall|h: int|
            0 <= h < packages.len() ==> ((#[trigger] packages[h]).checksum is Some
                ==> version_error(packages[h].version) is None),
    decreases packages.len(),
{
    if packages.len() > 0 {
        let front = packages.drop_last();
        lemma_versioned(table, front);
        assert forall|h: int| 0 <= h < packages.len() && (
        #[trigger] packages[h]).checksum is Some implies version_error(
            packages[h].version,
        ) is None by {
            if h < front.len() {
                assert(front[h] == packages[h]);
            }
        }
    }
}

proof fn lemma_unreadable(files: Seq<CargoWorkspaceFilesView>) -> (f: int)
    requires
        checksums_of_files(files) is Err,
    ensures
        0 <= f < files.len(),
        !can_be_read(files[f]),
        forall|g: int| 0 <= g < f ==> can_be_read(#[trigger] files[g]),
        is_said_of_lock(files[f], checksums_of_files(files)->Err_0),
    decreases files.len(),
{
    let front = files.drop_last();
    let n = files.len() - 1;
    lemma_files(files, Seq::empty(), Seq::empty());
    lemma_files(front, Seq::empty(), Seq::empty());
    if checksums_of_files(front) is Err {
        let f = lemma_unreadable(front);
        assert(files[f] == front[f]);
        assert forall|g: int| 0 <= g < f implies can_be_read(#[trigger] files[g]) by {
            assert(front[g] == files[g]);
        }
        f
    } else {
        assert forall|g: int| 0 <= g < n implies can_be_read(#[trigger] files[g]) by {
            assert(front[g] == files[g]);
        }
        let before = checksums_of_files(front)->Ok_0;
        let lock = files[n].lock_file_opt->Some_0;
        if lock.packages is Ok {
            let p = lemma_unversioned(before, lock.packages->Ok_0);
        }
        n
    }
}

/// Whether this is what is said of a crate that is wanted for its binaries: its version cannot be read;
/// or nobody asked the index of it; or the index says why there is no checksum.
pub open spec fn is_said_of_binary(
    dep: BinaryDependencyView,
    said: Seq<IndexChecksumView>,
    error: RazeErrorView,
) -> bool {
    if version_error(dep.req) is Some {
        error == RazeErrorView::Version(version_error(dep.req)->Some_0)
    } else if forall|x: int| !#[trigger] is_first_indexed(said, x, dep.name, dep.req) {
        error == RazeErrorView::Generic(
            "Failed to find a checksum for "@ + dep.name + " "@ + dep.req + " in the index"@,
        )
    } else {
        exists|x: int|
            #[trigger] is_first_indexed(said, x, dep.name, dep.req) && said[x].checksum is Err
                && error == RazeErrorView::Generic(said[x].checksum->Err_0)
    }
}

proof fn lemma_not_indexed(
    table: Checksums,
    deps: Seq<BinaryDependencyView>,
    facts: WorkspaceFactsView,
) -> (i: int)
    requires
        with_indexed(table, deps, facts) is Err,
    ensures
        0 <= i < deps.len(),
        !is_indexed(deps[i], facts),
        forall|h: int| 0 <= h < i ==> is_indexed(#[trigger] deps[h], facts),
        is_said_of_binary(deps[i], facts.index_checksums, with_indexed(table, deps, facts)->Err_0),
    decreases deps.len(),
{
    let front = deps.drop_last();
    let last = deps.last();
    let n = deps.len() - 1;
    lemma_indexed(table, deps, facts, Seq::empty(), Seq::empty());
    lemma_indexed(table, front, facts, Seq::empty(), Seq::empty());
    lemma_first_indexed(facts.index_checksums, last.name, last.req);
    if with_indexed(table, front, facts) is Err {
        let i = lemma_not_indexed(table, front, facts);
        assert(deps[i] == front[i]);
        assert forall|h: int| 0 <= h < i implies is_indexed(#[trigger] deps[h], facts) by {
            assert(front[h] == deps[h]);
        }
        i
    } else {
        assert forall|h: int| 0 <= h < n implies is_indexed(#[trigger] deps[h], facts) by {
            assert(front[h] == deps[h]);
        }
        n
    }
}

/// Why the checksums cannot be gathered: a lock file cannot be read, and the first such is told; else,
/// where Bazel fetches the sources, there is none for a crate that is wanted for its binaries, and the
/// first such is told.
pub proof fn lemma_why_there_are_no_checksums(view: WorkspaceSubplannerView)
    requires
        passes_checks(view),
        !has_checksums(view),
    ensures
        view.planned_build() is Err,
        ({
            let error = view.planned_build()->Err_0;
            let deps = view.settings.binary_deps;
            ||| exists|f: int|
                {
                    &&& 0 <= f < files_of(view).len()
                    &&& !can_be_read(#[trigger] files_of(view)[f])
                    &&& is_said_of_lock(files_of(view)[f], error)
                    &&& forall|g: int| 0 <= g < f ==> can_be_read(#[trigger] files_of(view)[g])
                }
            ||| (forall|f: int|
                0 <= f < files_of(view).len() ==> can_be_read(#[trigger] files_of(view)[f]))
                && exists|i: int|
                {
                    &&& 0 <= i < deps.len()
                    &&& !is_indexed(#[trigger] deps[i], view.facts)
                    &&& is_said_of_binary(deps[i], view.facts.index_checksums, error)
                    &&& forall|h: int| 0 <= h < i ==> is_indexed(#[trigger] deps[h], view.facts)
                }
        }),
{
    let files = files_of(view);
    lemma_checks(view);
    lemma_checksum_of_package(view, Seq::empty(), Seq::empty());
    assert(view.all_files() =~= files);
    lemma_files(files, Seq::empty(), Seq::empty());
    if checksums_of_files(files) is Err {
        let f = lemma_unreadable(files);
    } else {
        let i = lemma_not_indexed(
            checksums_of_files(files)->Ok_0,
            view.settings.binary_deps,
            view.facts,
        );
    }
}

/// Whether this is what is said of the crate of a node: several settings are for its version, or its
/// context cannot be made.
pub open spec fn is_said_of_crate(
    view: WorkspaceSubplannerView,
    m: MetadataView,
    node: NodeView,
    error: RazeErrorView,
) -> bool {
    let package = first_with_id(m.packages, node.id);
    &&& is_wanted_crate(view, m, node) || is_root_crate(view, m, node)
    &&& !has_context(view, m, node)
    &&& {
        ||| exists|i: int|
            #[trigger] is_first_named(view.settings.crates, package.name, i) && error == ambiguity(
                view.settings.crates,
                package,
                i,
            )
        ||| exists|settings: Option<CrateSettingsView>, checksum: Option<Text>|
            {
                &&& are_settings_of(view.settings.crates, package, settings)
                &&& is_checksum_of(view, package.name, package.version, checksum)
                &&& #[trigger] planner_for(view, m, node, settings, checksum).context() == Err::<
                    CrateContextView,
                    RazeErrorView,
                >(error)
            }
    }
}

/// Whether this is what is said of a second root.
pub open spec fn is_said_of_second_root(error: RazeErrorView) -> bool {
    error matches RazeErrorView::Generic(message) && "Multiple root contexts found "@.is_prefix_of(
        message,
    )
}

proof fn lemma_second_root(first: CrateContextView, second: CrateContextView)
    ensures
        is_said_of_second_root(second_root(first, second)),
{
    reveal(second_root);
    let start = "Multiple root contexts found "@;
    let message = second_root(first, second)->Generic_0;
    assert(start =~= message.subrange(0, start.len() as int));
}

proof fn lemma_crate_error(
    view: WorkspaceSubplannerView,
    checksums: Checksums,
    m: MetadataView,
    node: NodeView,
)
    requires
        m.resolve is Some,
        view.checksums() == Ok::<Checksums, RazeErrorView>(checksums),
        view.crate_context(checksums, m, node) is Err,
    ensures
        is_said_of_crate(view, m, node, view.crate_context(checksums, m, node)->Err_0),
{
    let error = view.crate_context(checksums, m, node)->Err_0;
    let package = first_with_id(m.packages, node.id);
    lemma_known(view, m, node);
    lemma_crate_context(view, checksums, m, node);
    if settings_for(view.settings.crates, package) is Err {
        lemma_settings_of_package(view.settings.crates, package, None);
        let (i, h, j) = choose|i: int, h: int, j: int|
            h < j && #[trigger] is_for_package(view.settings.crates, package, i, h)
                && #[trigger] is_for_package(view.settings.crates, package, i, j);
        lemma_ambiguous_settings(view.settings.crates, package, i);
        assert(is_first_named(view.settings.crates, package.name, i));
    } else {
        let settings = settings_for(view.settings.crates, package)->Ok_0;
        let checksum = checksums.get((package.name, package.version));
        let entry = find_entry(catalog_entries(m), node.id)->Some_0;
        lemma_settings_of_package(view.settings.crates, package, settings);
        lemma_checksum_of_package(view, package.name, package.version);
        let planner = planner_for(view, m, node, settings, checksum);
        assert(planner =~= view.crate_subplanner(checksums, m, entry, node, settings));
        assert(planner.context() == Err::<CrateContextView, RazeErrorView>(error));
    }
}

proof fn lemma_nodes_error(
    view: WorkspaceSubplannerView,
    before: ContextsView,
    checksums: Checksums,
    m: MetadataView,
    nodes: Seq<NodeView>,
)
    requires
        m.resolve is Some,
        view.checksums() == Ok::<Checksums, RazeErrorView>(checksums),
    ensures
        view.with_nodes(before, checksums, m, nodes) matches Err(error) ==> {
            ||| is_said_of_second_root(error)
            ||| exists|i: int|
                0 <= i < nodes.len() && is_said_of_crate(view, m, #[trigger] nodes[i], error)
        },
    decreases nodes.len(),
{
    if nodes.len() > 0 && view.with_nodes(before, checksums, m, nodes) is Err {
        let front = nodes.drop_last();
        let last = nodes.last();
        let n = nodes.len() - 1;
        let error = view.with_nodes(before, checksums, m, nodes)->Err_0;
        lemma_nodes_error(view, before, checksums, m, front);
        assert(nodes[n] == last);
        if view.with_nodes(before, checksums, m, front) is Err {
            if !is_said_of_second_root(error) {
                let i = choose|i: int|
                    0 <= i < front.len() && is_said_of_crate(view, m, #[trigger] front[i], error);
                assert(nodes[i] == front[i]);
            }
        } else {
            let known = view.with_nodes(before, checksums, m, front)->Ok_0;
            if view.crate_context(checksums, m, last) is Err {
                lemma_crate_error(view, checksums, m, last);
                assert(is_said_of_crate(view, m, nodes[n], error));
            } else {
                lemma_second_root(
                    known.root->Some_0,
                    view.crate_context(checksums, m, last)->Ok_0->Some_0,
                );
            }
        }
    }
}

/// Whether this is what is said of a catalog without a graph, or of a crate of it that cannot be
/// planned.
pub open spec fn is_said_of_catalog(
    view: WorkspaceSubplannerView,
    m: MetadataView,
    error: RazeErrorView,
) -> bool {
    if m.resolve is None {
        error == RazeErrorView::Generic("Missing resolve graph"@)
    } else {
        exists|i: int|
            0 <= i < m.resolve->Some_0.nodes.len() && is_said_of_crate(
                view,
                m,
                #[trigger] m.resolve->Some_0.nodes[i],
                error,
            )
    }
}

proof fn lemma_catalogs_error(view: WorkspaceSubplannerView, checksums: Checksums, n: int)
    requires
        0 <= n <= catalogs_of(view).len(),
        view.checksums() == Ok::<Checksums, RazeErrorView>(checksums),
    ensures
        view.with_catalogs(checksums, catalogs_of(view).take(n)) matches Err(error) ==> {
            ||| is_said_of_second_root(error)
            ||| exists|k: int|
                0 <= k < n && is_said_of_catalog(view, #[trigger] catalogs_of(view)[k], error)
        },
    decreases n,
{
    let all = catalogs_of(view);
    let catalogs = all.take(n);
    if n > 0 && view.with_catalogs(checksums, catalogs) is Err {
        let front = all.take(n - 1);
        let m = all[n - 1];
        let error = view.with_catalogs(checksums, catalogs)->Err_0;
        assert(catalogs.drop_last() =~= front);
        assert(catalogs.last() == m);
        lemma_catalogs_error(view, checksums, n - 1);
        if view.with_catalogs(checksums, front) is Err {
            if !is_said_of_second_root(error) {
                let k = choose|k: int|
                    0 <= k < n - 1 && is_said_of_catalog(
                        view,
                        #[trigger] catalogs_of(view)[k],
                        error,
                    );
                assert(is_said_of_catalog(view, catalogs_of(view)[k], error));
            }
        } else if m.resolve is None {
            assert(is_said_of_catalog(view, catalogs_of(view)[n - 1], error));
        } else {
            let known = view.with_catalogs(checksums, front)->Ok_0;
            let nodes = m.resolve->Some_0.nodes;
            let sorted = sorted_nodes(nodes);
            lemma_nodes_error(view, known, checksums, m, sorted);
            lemma_stable_sorted_keeps_items::<&Node>(nodes);
            if !is_said_of_second_root(error) {
                let i = choose|i: int|
                    0 <= i < sorted.len() && is_said_of_crate(view, m, #[trigger] sorted[i], error);
                assert(sorted.contains(sorted[i]));
                let j = choose|j: int| 0 <= j < nodes.len() && nodes[j] == sorted[i];
                assert(is_said_of_crate(view, m, m.resolve->Some_0.nodes[j], error));
                assert(is_said_of_catalog(view, catalogs_of(view)[n - 1], error));
            }
        }
    }
}

/// Why planning fails once the checks have passed and the checksums are there. If every crate can be
/// planned, there is no root, or there are several, and that is told. Else a catalog without a graph is
/// told, or a crate that cannot be planned, or a second root that was met before.
pub proof fn lemma_why_planning_fails(view: WorkspaceSubplannerView)
    requires
        passes_checks(view),
        has_checksums(view),
        view.planned_build() is Err,
    ensures
        ({
            let error = view.planned_build()->Err_0;
            let n = catalogs_of(view).len() as int;
            if can_be_planned_up_to(view, n) {
                &&& roots_up_to(view, n) != 1
                &&& roots_up_to(view, n) == 0 ==> error == RazeErrorView::Internal(
                    "No root context found. "@
                        + "Please file an issue at github.com/google/cargo-raze with details."@,
                )
                &&& roots_up_to(view, n) > 1 ==> is_said_of_second_root(error)
            } else {
                ||| is_said_of_second_root(error)
                ||| exists|k: int|
                    0 <= k < n && is_said_of_catalog(view, #[trigger] catalogs_of(view)[k], error)
            }
        }),
{
    let n = catalogs_of(view).len() as int;
    lemma_checks(view);
    lemma_checksum_of_package(view, Seq::empty(), Seq::empty());
    lemma_plan_is_made_if_it_can_be(view);
    let checksums = view.checksums()->Ok_0;
    let error = view.planned_build()->Err_0;
    assert(catalogs_of(view).take(n) =~= view.all_catalogs());
    lemma_catalogs_error(view, checksums, n);
    lemma_catalogs_can_be_planned(view, checksums);
    if can_be_planned_up_to(view, n) && roots_up_to(view, n) > 1 {
        if !is_said_of_second_root(error) {
            let k = choose|k: int|
                0 <= k < n && is_said_of_catalog(view, #[trigger] catalogs_of(view)[k], error);
            let m = catalogs_of(view)[k];
            assert(m.resolve is Some);
            let i = choose|i: int|
                0 <= i < m.resolve->Some_0.nodes.len() && is_said_of_crate(
                    view,
                    m,
                    #[trigger] m.resolve->Some_0.nodes[i],
                    error,
                );
            assert(has_context(view, m, m.resolve->Some_0.nodes[i]));
        }
    }
}

} // verus!
