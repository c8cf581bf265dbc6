//! What a planner makes of what was fetched for it.

use vstd::prelude::*;

use crate::error::RazeErrorView;
use crate::metadata::{CargoWorkspaceFilesView, MetadataView, Node, NodeView};
use crate::paths::PathPartView;
use crate::planning::{wanted_binary_deps, BuildPlannerImplView};
use crate::planning::checks::{is_package_name, unused_names};
use crate::planning::checksums::Checksums;
use crate::planning::crate_catalog::{catalog_entries, find_entry, has_package};
use crate::planning::crate_subplanner::CrateSubplannerView;
use crate::planning::plan_laws::{
    catalogs_of, is_root_crate, is_wanted_crate, lemma_checks, lemma_known, passes_checks,
    planner_for,
};
use crate::planning::target_laws::{lemma_parts, parts_of};
use crate::planning::use_laws::{first_with_id, is_first_with_id, is_package_id, knows_every_dep};
use crate::planning::workspace_subplanner::{packages_of, sorted_nodes, WorkspaceSubplannerView};
use crate::platform::PlatformDetailsView;
use crate::settings::{CrateSettingsView, GenMode, NamedCrateSettingsView, RazeSettingsView};
use crate::sorting::lemma_stable_sorted_keeps_items;
use crate::text::Text;

verus! {

/// Only where Bazel fetches the sources, something has to be gathered of the crates that are wanted for
/// their binaries: all of them, from the registry of the settings, with the lock files that lie below
/// the prefix, into the directory that was made for it. It is an error if none was made.
pub proof fn lemma_what_is_gathered(
    settings: RazeSettingsView,
    path_prefix: Seq<PathPartView>,
    tempdir: Result<Seq<PathPartView>, Text>,
)
    ensures
        ({
            let wanted = wanted_binary_deps(settings, path_prefix, tempdir);
            &&& settings.genmode != GenMode::Remote ==> wanted is Ok && wanted->Ok_0 is None
            &&& settings.genmode == GenMode::Remote && tempdir is Err ==> wanted is Err
                && wanted->Err_0 == RazeErrorView::Generic(tempdir->Err_0)
            &&& settings.genmode == GenMode::Remote && tempdir is Ok ==> {
                &&& wanted is Ok && wanted->Ok_0 is Some
                &&& wanted->Ok_0->Some_0.binary_deps == settings.binary_deps
                &&& wanted->Ok_0->Some_0.registry == settings.registry
                &&& wanted->Ok_0->Some_0.tempdir == tempdir->Ok_0
                &&& wanted->Ok_0->Some_0.lockfiles.len() == path_prefix.len() + 1
                &&& wanted->Ok_0->Some_0.lockfiles.drop_last() == path_prefix
                &&& wanted->Ok_0->Some_0.lockfiles.last() == PathPartView::Name("lockfiles"@)
            }
        }),
{
    assert(path_prefix.push(PathPartView::Name("lockfiles"@)).drop_last() =~= path_prefix);
}

/// What a planner of a workspace knows, from these sources.
pub open spec fn workspace_planner(
    planner: BuildPlannerImplView,
    settings: RazeSettingsView,
    files: CargoWorkspaceFilesView,
    platform_details: Option<PlatformDetailsView>,
) -> WorkspaceSubplannerView {
    let remote = settings.genmode == GenMode::Remote;
    WorkspaceSubplannerView {
        settings,
        platform_details,
        facts: planner.facts,
        catalog: planner.metadata->Ok_0,
        files,
        binary_dependencies: if remote {
            planner.binary_dep_info->Ok_0.metadata
        } else {
            Seq::empty()
        },
        binary_deps_files: if remote {
            planner.binary_dep_info->Ok_0.files
        } else {
            Seq::empty()
        },
    }
}

/// Whether what a plan needs was fetched: what Cargo says of the workspace, with a dependency graph;
/// and, where Bazel fetches the sources, the same of the crates that are wanted for their binaries.
pub open spec fn was_fetched(planner: BuildPlannerImplView, settings: RazeSettingsView) -> bool {
    &&& planner.metadata is Ok && planner.metadata->Ok_0.resolve is Some
    &&& settings.genmode == GenMode::Remote ==> {
        &&& planner.binary_deps_tempdir is Ok
        &&& planner.binary_dep_info is Ok
        &&& forall|i: int|
            0 <= i < planner.binary_dep_info->Ok_0.metadata.len() ==> (
            #[trigger] planner.binary_dep_info->Ok_0.metadata[i]).resolve is Some
    }
}

/// If what it needs was fetched, a planner plans the workspace from that. If not, the error tells what
/// is missing first: what Cargo says of the workspace; its graph; a directory for the crates that are
/// wanted for their binaries; what was gathered of them; their graphs.
pub proof fn lemma_plan_is_of_what_was_fetched(
    planner: BuildPlannerImplView,
    settings: RazeSettingsView,
    path_prefix: Seq<PathPartView>,
    files: CargoWorkspaceFilesView,
    platform_details: Option<PlatformDetailsView>,
)
    ensures
        ({
            let plan = planner.plan(settings, path_prefix, files, platform_details);
            let no_graph = RazeErrorView::Generic("Missing resolve graph"@);
            if was_fetched(planner, settings) {
                plan == workspace_planner(
                    planner,
                    settings,
                    files,
                    platform_details,
                ).planned_build()
            } else {
                &&& plan is Err
                &&& if planner.metadata is Err {
                    plan->Err_0 == RazeErrorView::Generic(planner.metadata->Err_0)
                } else if planner.metadata->Ok_0.resolve is None {
                    plan->Err_0 == no_graph
                } else if planner.binary_deps_tempdir is Err {
                    plan->Err_0 == RazeErrorView::Generic(planner.binary_deps_tempdir->Err_0)
                } else if planner.binary_dep_info is Err {
                    plan->Err_0 == RazeErrorView::Generic(planner.binary_dep_info->Err_0)
                } else {
                    plan->Err_0 == no_graph
                }
            }
        }),
{
    let view = workspace_planner(planner, settings, files, platform_details);
    if was_fetched(planner, settings) {
        let r = planner.subplanner(settings, path_prefix, files, platform_details);
        assert(r is Ok);
        assert(r->Ok_0 =~= view);
    }
}

/// Whether a package of the workspace has this name, or, where Bazel fetches the sources, one of the
/// crates that are wanted for their binaries or that these depend on.
pub open spec fn is_of_use(view: WorkspaceSubplannerView, name: Text) -> bool {
    exists|k: int, j: int|
        {
            &&& 0 <= k < catalogs_of(view).len()
            &&& k == 0 || view.settings.genmode == GenMode::Remote
            &&& 0 <= j < catalogs_of(view)[k].packages.len()
            &&& (#[trigger] catalogs_of(view)[k].packages[j]).name == name
        }
}

proof fn lemma_package_names(catalogs: Seq<MetadataView>, name: Text)
    ensures
        is_package_name(packages_of(catalogs), name) <==> exists|k: int, j: int|
            {
                &&& 0 <= k < catalogs.len()
                &&& 0 <= j < catalogs[k].packages.len()
                &&& (#[trigger] catalogs[k].packages[j]).name == name
            },
    decreases catalogs.len(),
{
    let all = packages_of(catalogs);
    if catalogs.len() > 0 {
        let front = catalogs.drop_last();
        let before = packages_of(front);
        let n = catalogs.len() - 1;
        lemma_package_names(front, name);
        assert(catalogs[n] == catalogs.last());
        if is_package_name(all, name) {
            let i = choose|i: int| 0 <= i < all.len() && (#[trigger] all[i]).name == name;
            if i < before.len() {
                assert(before[i].name == name);
                let (k, j) = choose|k: int, j: int|
                    {
                        &&& 0 <= k < front.len()
                        &&& 0 <= j < front[k].packages.len()
                        &&& (#[trigger] front[k].packages[j]).name == name
                    };
                assert(catalogs[k] == front[k]);
                assert(catalogs[k].packages[j].name == name);
            } else {
                assert(catalogs[n].packages[i - before.len()].name == name);
            }
        }
        if exists|k: int, j: int|
            {
                &&& 0 <= k < catalogs.len()
                &&& 0 <= j < catalogs[k].packages.len()
                &&& (#[trigger] catalogs[k].packages[j]).name == name
            } {
            let (k, j) = choose|k: int, j: int|
                {
                    &&& 0 <= k < catalogs.len()
                    &&& 0 <= j < catalogs[k].packages.len()
                    &&& (#[trigger] catalogs[k].packages[j]).name == name
                };
            if k < n {
                assert(front[k] == catalogs[k]);
                assert(front[k].packages[j].name == name);
                let i = choose|i: int| 0 <= i < before.len() && (#[trigger] before[i]).name == name;
                assert(all[i].name == name);
            } else {
                assert(all[before.len() + j].name == name);
            }
        }
    }
}

proof fn lemma_of_use(view: WorkspaceSubplannerView, name: Text)
    ensures
        is_package_name(view.checked_packages(), name) <==> is_of_use(view, name),
{
    let catalogs = catalogs_of(view);
    assert(view.all_catalogs() =~= catalogs);
    lemma_package_names(catalogs, name);
    if view.settings.genmode == GenMode::Remote {
        if is_of_use(view, name) {
            let (k, j) = choose|k: int, j: int|
                {
                    &&& 0 <= k < catalogs_of(view).len()
                    &&& k == 0 || view.settings.genmode == GenMode::Remote
                    &&& 0 <= j < catalogs_of(view)[k].packages.len()
                    &&& (#[trigger] catalogs_of(view)[k].packages[j]).name == name
                };
            assert(catalogs[k].packages[j].name == name);
        }
    } else {
        let packages = view.catalog.packages;
        assert(catalogs[0] == view.catalog);
        if is_package_name(packages, name) {
            let j = choose|j: int| 0 <= j < packages.len() && (#[trigger] packages[j]).name == name;
            assert(catalogs_of(view)[0].packages[j].name == name);
        }
        if is_of_use(view, name) {
            let (k, j) = choose|k: int, j: int|
                {
                    &&& 0 <= k < catalogs_of(view).len()
                    &&& k == 0 || view.settings.genmode == GenMode::Remote
                    &&& 0 <= j < catalogs_of(view)[k].packages.len()
                    &&& (#[trigger] catalogs_of(view)[k].packages[j]).name == name
                };
            assert(packages[j].name == name);
        }
    }
}

proof fn lemma_unused(
    view: WorkspaceSubplannerView,
    crates: Seq<NamedCrateSettingsView>,
)
    ensures
        unused_names(crates, view.checked_packages()) == crates.filter(
            |c: NamedCrateSettingsView| !is_of_use(view, c.name),
        ).map_values(|c: NamedCrateSettingsView| c.name),
    decreases crates.len(),
{
    reveal(Seq::filter);
    let f = |c: NamedCrateSettingsView| !is_of_use(view, c.name);
    let g = |c: NamedCrateSettingsView| c.name;
    if crates.len() == 0 {
        assert(crates.filter(f).map_values(g) =~= Seq::empty());
    } else {
        let front = crates.drop_last();
        lemma_unused(view, front);
        lemma_of_use(view, crates.last().name);
        assert(crates.filter(f).map_values(g) =~= if f(crates.last()) {
            front.filter(f).map_values(g).push(crates.last().name)
        } else {
            front.filter(f).map_values(g)
        });
    }
}

/// The settings that are reported are those for crates that no package is, in their order. None are
/// where planning fails before that is known.
pub proof fn lemma_which_settings_are_reported(
    planner: BuildPlannerImplView,
    settings: RazeSettingsView,
    path_prefix: Seq<PathPartView>,
    files: CargoWorkspaceFilesView,
    platform_details: Option<PlatformDetailsView>,
)
    ensures
        ({
            let view = workspace_planner(planner, settings, files, platform_details);
            let reported = planner.unused_settings(settings, path_prefix, files, platform_details);
            if was_fetched(planner, settings) && passes_checks(view) {
                reported == settings.crates.filter(
                    |c: NamedCrateSettingsView| !is_of_use(view, c.name),
                ).map_values(|c: NamedCrateSettingsView| c.name)
            } else {
                reported.len() == 0
            }
        }),
{
    let view = workspace_planner(planner, settings, files, platform_details);
    if was_fetched(planner, settings) {
        let r = planner.subplanner(settings, path_prefix, files, platform_details);
        assert(r is Ok);
        assert(r->Ok_0 =~= view);
        lemma_checks(view);
        lemma_unused(view, settings.crates);
    }
}

/// Whether enough is told of a crate: the path of its manifest is absolute and, unless it is looked for
/// in a Git repository that Bazel fetches, ends with a name; the revision of a Git source is known; and
/// so are the packages that it depends on, and, where the build is for one target, their platforms.
pub open spec fn is_told_of(view: CrateSubplannerView) -> bool {
    let manifest = parts_of(view.entry.package.manifest_path);
    let git = view.source_id is Some && view.source_id->Some_0.git;
    &&& manifest.len() > 0 && (manifest[0] is Root || manifest.len() > 1 && manifest[0] is Prefix
        && manifest[1] is Root)
    &&& manifest.last() is Name || manifest.last() is Raw || git && view.settings.genmode
        == GenMode::Remote
    &&& git ==> view.source_id->Some_0.precise is Some
    &&& knows_every_dep(view)
    &&& view.platform_details is Some && view.settings.target is Some ==> forall|i: int, k: int|
        0 <= i < view.node.deps.len() && 0 <= k < view.node.deps[i].dep_kinds.len() ==> (
        #[trigger] view.node.deps[i].dep_kinds[k]).target_reads
}

proof fn lemma_told_of(view: CrateSubplannerView)
    requires
        is_told_of(view),
    ensures
        view.is_complete(),
{
    let deps = view.node.deps;
    lemma_parts(view.entry.package.manifest_path);
    assert forall|i: int| 0 <= i < deps.len() implies (view.declared_deps(
        #[trigger] deps.take(i),
    ) matches Ok(before) ==> view.dep_is_clear(before, deps[i])) by {
        let j = choose|j: int| is_first_with_id(view.catalog.packages, view.node.deps[i].pkg, j);
        assert(view.catalog.packages[j].id == deps[i].pkg);
        assert(has_package(view.catalog.packages, deps[i].pkg));
        if view.is_for_one_target() {
            let kinds = deps[i].dep_kinds;
            assert forall|k: int| 0 <= k < kinds.len() implies (
            #[trigger] kinds[k]).target_reads by {
                assert(view.node.deps[i].dep_kinds[k].target_reads);
            }
        }
    }
}

/// Whether enough is told of each crate of a catalog that is planned, and the URL of its source can be
/// read.
pub open spec fn are_told_of(view: WorkspaceSubplannerView, m: MetadataView) -> bool {
    m.resolve is Some && forall|i: int|
        0 <= i < m.resolve->Some_0.nodes.len() && (is_wanted_crate(
            view,
            m,
            m.resolve->Some_0.nodes[i],
        ) || is_root_crate(view, m, m.resolve->Some_0.nodes[i])) ==> is_told_of_node(
            view,
            m,
            #[trigger] m.resolve->Some_0.nodes[i],
        )
}

/// Whether enough is told of the crate of a node, and the URL of its source can be read.
pub open spec fn is_told_of_node(
    view: WorkspaceSubplannerView,
    m: MetadataView,
    node: NodeView,
) -> bool {
    let source = first_with_id(m.packages, node.id).source;
    &&& source is Some ==> source->Some_0.id is Some
    &&& is_told_of(planner_for(view, m, node, None, None))
}

proof fn lemma_same_told_of(a: CrateSubplannerView, b: CrateSubplannerView)
    requires
        is_told_of(a),
        a.entry == b.entry,
        a.source_id == b.source_id,
        a.node == b.node,
        a.catalog == b.catalog,
        a.settings == b.settings,
        a.platform_details == b.platform_details,
    ensures
        is_told_of(b),
{
    assert(knows_every_dep(b)) by {
        assert forall|i: int| 0 <= i < b.node.deps.len() implies is_package_id(
            b.catalog.packages,
            (#[trigger] b.node.deps[i]).pkg,
        ) by {
            assert(a.node.deps[i] == b.node.deps[i]);
        }
    }
    assert forall|i: int, k: int|
        b.platform_details is Some && b.settings.target is Some && 0 <= i < b.node.deps.len() && 0
            <= k < b.node.deps[i].dep_kinds.len() implies (
    #[trigger] b.node.deps[i].dep_kinds[k]).target_reads by {
        assert(a.node.deps[i].dep_kinds[k].target_reads);
    }
}

proof fn lemma_node_told_of(
    view: WorkspaceSubplannerView,
    checksums: Checksums,
    m: MetadataView,
    node: NodeView,
)
    requires
        m.resolve is Some,
        is_wanted_crate(view, m, node) || is_root_crate(view, m, node) ==> is_told_of_node(
            view,
            m,
            node,
        ),
    ensures
        view.is_plannable_node(checksums, m, node),
{
    lemma_known(view, m, node);
    if find_entry(catalog_entries(m), node.id) is Some {
        let entry = find_entry(catalog_entries(m), node.id)->Some_0;
        if !view.is_left_out(entry) {
            assert forall|s: Option<CrateSettingsView>| true implies (#[trigger] view.crate_subplanner(
                checksums,
                m,
                entry,
                node,
                s,
            )).is_complete() by {
                let planner = view.crate_subplanner(checksums, m, entry, node, s);
                let told = planner_for(view, m, node, None, None);
                assert(planner.entry == told.entry && planner.source_id == told.source_id);
                assert(planner.node == told.node && planner.catalog == told.catalog);
                assert(planner.settings == told.settings);
                assert(planner.platform_details == told.platform_details);
                lemma_same_told_of(told, planner);
                lemma_told_of(planner);
            }
        }
    }
}

/// If enough is told of every crate that is planned, a planner can be asked, whatever comes of it.
pub proof fn lemma_planner_can_be_asked(
    planner: BuildPlannerImplView,
    settings: RazeSettingsView,
    path_prefix: Seq<PathPartView>,
    files: CargoWorkspaceFilesView,
    platform_details: Option<PlatformDetailsView>,
)
    requires
        was_fetched(planner, settings) ==> forall|k: int|
            0 <= k < catalogs_of(
                workspace_planner(planner, settings, files, platform_details),
            ).len() ==> are_told_of(
                workspace_planner(planner, settings, files, platform_details),
                #[trigger] catalogs_of(
                    workspace_planner(planner, settings, files, platform_details),
                )[k],
            ),
    ensures
        planner.is_plannable(settings, path_prefix, files, platform_details),
{
    let r = planner.subplanner(settings, path_prefix, files, platform_details);
    if r is Ok {
        let view = workspace_planner(planner, settings, files, platform_details);
        assert(r->Ok_0 =~= view);
        assert(was_fetched(planner, settings));
        if view.checksums() is Ok {
            let checksums = view.checksums()->Ok_0;
            let catalogs = view.all_catalogs();
            assert(catalogs =~= catalogs_of(view));
            assert forall|k: int| 0 <= k < catalogs.len() implies (view.with_catalogs(
                checksums,
                #[trigger] catalogs.take(k),
            ) matches Ok(known) ==> view.is_plannable_catalog(known, checksums, catalogs[k])) by {
                if view.with_catalogs(checksums, catalogs.take(k)) is Ok {
                    let m = catalogs_of(view)[k];
                    assert(are_told_of(view, m));
                    let nodes = m.resolve->Some_0.nodes;
                    let sorted = sorted_nodes(nodes);
                    lemma_stable_sorted_keeps_items::<&Node>(nodes);
                    assert forall|i: int| 0 <= i < sorted.len() implies view.is_plannable_node(
                        checksums,
                        m,
                        #[trigger] sorted[i],
                    ) by {
                        assert(sorted.contains(sorted[i]));
                        let j = choose|j: int| 0 <= j < nodes.len() && nodes[j] == sorted[i];
                        assert(m.resolve->Some_0.nodes[j] == sorted[i]);
                        lemma_node_told_of(view, checksums, m, sorted[i]);
                    }
                }
            }
        }
    }
}

} // verus!
