//! What holds of every plan.

use vstd::prelude::*;

use crate::context::{
    lemma_alias_ranks, lemma_target_ranks, BuildableTarget, BuildableTargetView, CrateContextView,
    DependencyAlias, DependencyAliasView,
};
use crate::error::RazeErrorView;
use crate::metadata::{
    CargoWorkspaceFilesView, DepKindInfoView, LockedPackageView, MetadataView, Node, NodeDepView,
    NodeView, PackageView,
};
use crate::paths::PathPartView;
use crate::planning::checks::{
    is_package_name, is_vendored, lemma_resolve_check, lemma_unused_names, lemma_vendored_check,
    resolve_matches_packages,
};
use crate::planning::checksums::{checksums_of_files, with_indexed, with_locked, Checksums};
use crate::planning::crate_catalog::{
    catalog_entries, find_entry, lemma_find_entry, workspace_path_of,
};
use crate::planning::crate_subplanner::{
    declared_targets, first_of_kind, library_name, set_for, CrateSubplannerView, PlatformDepsView,
};
use crate::planning::facts::WorkspaceFactsView;
use crate::planning::workspace_subplanner::{
    declared_aliases, extra_aliases, gets_aliases, is_binary_dep, library_alias, matching_settings,
    packages_of, resolve_checks, settings_for, sorted_nodes, versions_for, workspace_aliases, ContextsView,
    WorkspaceSubplannerView,
};
use crate::planning::BuildPlannerImplView;
use crate::platform::PlatformDetailsView;
use crate::settings::{
    BinaryDependencyView, GenMode, NamedCrateSettingsView, RazeSettingsView,
    VersionedCrateSettingsView,
};
use crate::sorting::{in_order, lemma_stable_sorted, lemma_stable_sorted_keeps_items, Ranked};
use crate::text::{
    lemma_sanitized, lemma_text_order_total, lemma_text_order_transitive, sanitized, Text,
};
use crate::version::version_req_matches;

verus! {

/// Whether the plan holds `context` because of this node: it is the context of the node's crate,
/// which is neither left out nor the root.
pub open spec fn plans_node(
    view: WorkspaceSubplannerView,
    checksums: Checksums,
    catalog: MetadataView,
    node: NodeView,
    context: CrateContextView,
) -> bool {
    &&& !view.is_root_node(catalog, node)
    &&& view.crate_context(checksums, catalog, node) == Ok::<
        Option<CrateContextView>,
        RazeErrorView,
    >(Some(context))
}

/// How many of these nodes are the root.
pub open spec fn root_count(
    view: WorkspaceSubplannerView,
    catalog: MetadataView,
    nodes: Seq<NodeView>,
) -> nat
    decreases nodes.len(),
{
    if nodes.len() == 0 {
        0
    } else {
        root_count(view, catalog, nodes.drop_last()) + if view.is_root_node(catalog, nodes.last()) {
            1nat
        } else {
            0nat
        }
    }
}

/// How many nodes of these catalogs are the root.
pub open spec fn total_root_count(view: WorkspaceSubplannerView, catalogs: Seq<MetadataView>) -> nat
    decreases catalogs.len(),
{
    if catalogs.len() == 0 {
        0
    } else {
        total_root_count(view, catalogs.drop_last()) + root_count(
            view,
            catalogs.last(),
            sorted_nodes(catalogs.last().resolve->Some_0.nodes),
        )
    }
}

spec fn known_roots(known: ContextsView) -> nat {
    if known.root is Some {
        1
    } else {
        0
    }
}

proof fn lemma_with_nodes(
    view: WorkspaceSubplannerView,
    before: ContextsView,
    checksums: Checksums,
    catalog: MetadataView,
    nodes: Seq<NodeView>,
)
    ensures
        view.with_nodes(before, checksums, catalog, nodes) matches Ok(after) ==> {
            &&& forall|c: CrateContextView| #[trigger]
                after.contexts.contains(c) <==> before.contexts.contains(c) || exists|i: int|
                    0 <= i < nodes.len() && plans_node(
                        view,
                        checksums,
                        catalog,
                        #[trigger] nodes[i],
                        c,
                    )
            &&& known_roots(after) == known_roots(before) + root_count(view, catalog, nodes)
            &&& forall|i: int|
                0 <= i < nodes.len() ==> view.crate_context(
                    checksums,
                    catalog,
                    #[trigger] nodes[i],
                ) is Ok
        },
    decreases nodes.len(),
{
    if nodes.len() > 0 && view.with_nodes(before, checksums, catalog, nodes) is Ok {
        let front = nodes.drop_last();
        let last = nodes.last();
        lemma_with_nodes(view, before, checksums, catalog, front);
        let known = view.with_nodes(before, checksums, catalog, front)->Ok_0;
        let after = view.with_nodes(before, checksums, catalog, nodes)->Ok_0;
        assert(view.with_node(known, checksums, catalog, last) == Ok::<
            ContextsView,
            RazeErrorView,
        >(after));
        assert forall|i: int| 0 <= i < nodes.len() implies view.crate_context(
            checksums,
            catalog,
            #[trigger] nodes[i],
        ) is Ok by {
            if i < front.len() {
                assert(front[i] == nodes[i]);
            }
        }
        assert forall|c: CrateContextView| #[trigger]
            after.contexts.contains(c) <==> before.contexts.contains(c) || exists|i: int|
                0 <= i < nodes.len() && plans_node(
                    view,
                    checksums,
                    catalog,
                    #[trigger] nodes[i],
                    c,
                ) by {
            if after.contexts.contains(c) {
                let k = choose|k: int| 0 <= k < after.contexts.len() && after.contexts[k] == c;
                if k < known.contexts.len() {
                    assert(known.contexts[k] == c);
                    assert(known.contexts.contains(c));
                    if !before.contexts.contains(c) {
                        let i = choose|i: int|
                            0 <= i < front.len() && plans_node(
                                view,
                                checksums,
                                catalog,
                                #[trigger] front[i],
                                c,
                            );
                        assert(nodes[i] == front[i]);
                    }
                } else {
                    assert(plans_node(view, checksums, catalog, nodes[nodes.len() - 1], c));
                }
            }
            if before.contexts.contains(c) {
                assert(known.contexts.contains(c));
                let k = choose|k: int| 0 <= k < known.contexts.len() && known.contexts[k] == c;
                assert(after.contexts[k] == c);
            }
            if exists|i: int|
                0 <= i < nodes.len() && plans_node(
                    view,
                    checksums,
                    catalog,
                    #[trigger] nodes[i],
                    c,
                ) {
                let i = choose|i: int|
                    0 <= i < nodes.len() && plans_node(
                        view,
                        checksums,
                        catalog,
                        #[trigger] nodes[i],
                        c,
                    );
                if i < front.len() {
                    assert(front[i] == nodes[i]);
                    assert(known.contexts.contains(c));
                    let k = choose|k: int| 0 <= k < known.contexts.len() && known.contexts[k] == c;
                    assert(after.contexts[k] == c);
                } else {
                    assert(after.contexts[after.contexts.len() - 1] == c);
                }
            }
        }
    }
}

/// Whether one of these catalogs has a node for which the plan holds `context`.
pub open spec fn is_planned(
    view: WorkspaceSubplannerView,
    checksums: Checksums,
    catalogs: Seq<MetadataView>,
    context: CrateContextView,
) -> bool {
    exists|k: int, node: NodeView|
        0 <= k < catalogs.len() && (#[trigger] catalogs[k]).resolve is Some
            && catalogs[k].resolve->Some_0.nodes.contains(node) && #[trigger] plans_node(
            view,
            checksums,
            catalogs[k],
            node,
            context,
        )
}

#[verifier::spinoff_prover]
proof fn lemma_with_catalogs(
    view: WorkspaceSubplannerView,
    checksums: Checksums,
    catalogs: Seq<MetadataView>,
)
    ensures
        view.with_catalogs(checksums, catalogs) matches Ok(after) ==> {
            &&& forall|c: CrateContextView| #[trigger]
                after.contexts.contains(c) <==> is_planned(view, checksums, catalogs, c)
            &&& known_roots(after) == total_root_count(view, catalogs)
            &&& forall|k: int, node: NodeView|
                0 <= k < catalogs.len() && (#[trigger] catalogs[k]).resolve->Some_0.nodes.contains(
                    node,
                ) ==> catalogs[k].resolve is Some && (#[trigger] view.crate_context(
                    checksums,
                    catalogs[k],
                    node,
                )) is Ok
        },
    decreases catalogs.len(),
{
    if catalogs.len() > 0 && view.with_catalogs(checksums, catalogs) is Ok {
        let front = catalogs.drop_last();
        let last = catalogs.last();
        lemma_with_catalogs(view, checksums, front);
        let known = view.with_catalogs(checksums, front)->Ok_0;
        let after = view.with_catalogs(checksums, catalogs)->Ok_0;
        let nodes = last.resolve->Some_0.nodes;
        let sorted = sorted_nodes(nodes);
        lemma_with_nodes(view, known, checksums, last, sorted);
        lemma_stable_sorted_keeps_items::<&Node>(nodes);
        assert forall|k: int, node: NodeView|
            0 <= k < catalogs.len() && (#[trigger] catalogs[k]).resolve->Some_0.nodes.contains(
                node,
            ) implies catalogs[k].resolve is Some && (#[trigger] view.crate_context(
            checksums,
            catalogs[k],
            node,
        )) is Ok by {
            if k < front.len() {
                assert(front[k] == catalogs[k]);
                assert(view.crate_context(checksums, front[k], node) is Ok);
            } else {
                assert(sorted.contains(node));
                let i = choose|i: int| 0 <= i < sorted.len() && sorted[i] == node;
                assert(view.crate_context(checksums, last, sorted[i]) is Ok);
            }
        }
        assert forall|c: CrateContextView| #[trigger]
            after.contexts.contains(c) <==> is_planned(view, checksums, catalogs, c) by {
            if after.contexts.contains(c) {
                if known.contexts.contains(c) {
                    let (k, node) = choose|k: int, node: NodeView|
                        0 <= k < front.len() && (#[trigger] front[k]).resolve is Some
                            && front[k].resolve->Some_0.nodes.contains(node)
                            && #[trigger] plans_node(view, checksums, front[k], node, c);
                    assert(catalogs[k] == front[k]);
                    assert(plans_node(view, checksums, catalogs[k], node, c));
                } else {
                    let i = choose|i: int|
                        0 <= i < sorted.len() && plans_node(
                            view,
                            checksums,
                            last,
                            #[trigger] sorted[i],
                            c,
                        );
                    assert(sorted.contains(sorted[i]));
                    let k = catalogs.len() - 1;
                    assert(plans_node(view, checksums, catalogs[k], sorted[i], c));
                }
            }
            if is_planned(view, checksums, catalogs, c) {
                let (k, node) = choose|k: int, node: NodeView|
                    0 <= k < catalogs.len() && (#[trigger] catalogs[k]).resolve is Some
                        && catalogs[k].resolve->Some_0.nodes.contains(node)
                        && #[trigger] plans_node(view, checksums, catalogs[k], node, c);
                if k < front.len() {
                    assert(front[k] == catalogs[k]);
                    assert(plans_node(view, checksums, front[k], node, c));
                    assert(is_planned(view, checksums, front, c));
                    assert(known.contexts.contains(c));
                } else {
                    assert(sorted.contains(node));
                    let i = choose|i: int| 0 <= i < sorted.len() && sorted[i] == node;
                    assert(plans_node(view, checksums, last, sorted[i], c));
                }
            }
        }
    } else if catalogs.len() == 0 {
        assert forall|c: CrateContextView| !is_planned(view, checksums, catalogs, c) by {}
    }
}

/// A plan holds the context of every crate that is neither left out nor the root, and no other. Each
/// comes from a node whose package Cargo told of; packages of the workspace are left out, except its
/// root and the crates that are wanted for their binaries.
pub proof fn lemma_plan_holds_wanted_crates(view: WorkspaceSubplannerView, context: CrateContextView)
    requires
        view.planned_build() is Ok,
    ensures
        view.planned_build()->Ok_0.crate_contexts.contains(context) <==> is_planned(
            view,
            view.checksums()->Ok_0,
            view.all_catalogs(),
            context,
        ),
{
    lemma_with_catalogs(view, view.checksums()->Ok_0, view.all_catalogs());
}

/// No context of a plan is that of a package of the workspace, except of a crate that is wanted for
/// its binaries.
pub proof fn lemma_plan_leaves_workspace_out(view: WorkspaceSubplannerView, context: CrateContextView)
    requires
        view.planned_build() is Ok,
        view.planned_build()->Ok_0.crate_contexts.contains(context),
    ensures
        exists|k: int, node: NodeView|
            0 <= k < view.all_catalogs().len() && #[trigger] plans_node(
                view,
                view.checksums()->Ok_0,
                view.all_catalogs()[k],
                node,
                context,
            ) && {
                let entry = find_entry(catalog_entries(view.all_catalogs()[k]), node.id);
                &&& entry is Some
                &&& entry->Some_0.package.name == context.pkg_name
                &&& entry->Some_0.package.version == context.pkg_version
                &&& entry->Some_0.is_workspace_crate || entry->Some_0.is_root ==> is_binary_dep(
                    view.settings.binary_deps,
                    context.pkg_name,
                )
            },
{
    lemma_plan_holds_wanted_crates(view, context);
    let catalogs = view.all_catalogs();
    let checksums = view.checksums()->Ok_0;
    let (k, node) = choose|k: int, node: NodeView|
        0 <= k < catalogs.len() && (#[trigger] catalogs[k]).resolve is Some
            && catalogs[k].resolve->Some_0.nodes.contains(node) && #[trigger] plans_node(
            view,
            checksums,
            catalogs[k],
            node,
            context,
        );
    assert(plans_node(view, view.checksums()->Ok_0, view.all_catalogs()[k], node, context));
}

/// A plan leaves no wanted crate out: a node whose package Cargo told of, and which is neither left out
/// nor the root, has its context in the plan. So has every crate that is wanted for its binaries.
pub proof fn lemma_plan_is_complete(view: WorkspaceSubplannerView, k: int, node: NodeView)
    requires
        view.planned_build() is Ok,
        0 <= k < view.all_catalogs().len(),
        view.all_catalogs()[k].resolve->Some_0.nodes.contains(node),
        find_entry(catalog_entries(view.all_catalogs()[k]), node.id) matches Some(entry)
            && !view.is_left_out(entry) && !view.is_root_node(view.all_catalogs()[k], node),
    ensures
        exists|i: int|
            0 <= i < view.planned_build()->Ok_0.crate_contexts.len() && plans_node(
                view,
                view.checksums()->Ok_0,
                view.all_catalogs()[k],
                node,
                #[trigger] view.planned_build()->Ok_0.crate_contexts[i],
            ),
{
    let checksums = view.checksums()->Ok_0;
    let catalogs = view.all_catalogs();
    let contexts = view.planned_build()->Ok_0.crate_contexts;
    lemma_with_catalogs(view, checksums, catalogs);
    assert(view.crate_context(checksums, catalogs[k], node) is Ok);
    let context = view.crate_context(checksums, catalogs[k], node)->Ok_0->Some_0;
    assert(plans_node(view, checksums, catalogs[k], node, context));
    assert(is_planned(view, checksums, catalogs, context));
    assert(contexts.contains(context));
    let i = choose|i: int| 0 <= i < contexts.len() && contexts[i] == context;
    assert(plans_node(view, checksums, catalogs[k], node, contexts[i]));
}

proof fn lemma_indexed_deps_have_checksums(
    table: Checksums,
    deps: Seq<BinaryDependencyView>,
    facts: WorkspaceFactsView,
    i: int,
)
    requires
        0 <= i < deps.len(),
        with_indexed(table, deps, facts) is Ok,
    ensures
        with_indexed(table, deps, facts)->Ok_0.contains_key((deps[i].name, deps[i].req)),
    decreases deps.len(),
{
    let front = deps.drop_last();
    if i < front.len() {
        assert(front[i] == deps[i]);
        lemma_indexed_deps_have_checksums(table, front, facts, i);
    }
}

/// Where Bazel fetches the sources, the context of a crate that is wanted for its binaries has a
/// checksum.
pub proof fn lemma_binaries_have_checksums(
    view: WorkspaceSubplannerView,
    context: CrateContextView,
    i: int,
)
    requires
        view.planned_build() is Ok,
        view.settings.genmode == GenMode::Remote,
        view.planned_build()->Ok_0.crate_contexts.contains(context),
        0 <= i < view.settings.binary_deps.len(),
        context.pkg_name == view.settings.binary_deps[i].name,
        context.pkg_version == view.settings.binary_deps[i].req,
    ensures
        context.sha256 is Some,
{
    let checksums = view.checksums()->Ok_0;
    lemma_indexed_deps_have_checksums(
        checksums_of_files(view.all_files())->Ok_0,
        view.settings.binary_deps,
        view.facts,
        i,
    );
    lemma_plan_holds_wanted_crates(view, context);
    let catalogs = view.all_catalogs();
    let (k, node) = choose|k: int, node: NodeView|
        0 <= k < catalogs.len() && (#[trigger] catalogs[k]).resolve is Some
            && catalogs[k].resolve->Some_0.nodes.contains(node) && #[trigger] plans_node(
            view,
            checksums,
            catalogs[k],
            node,
            context,
        );
    assert(context.sha256 == checksums.get((context.pkg_name, context.pkg_version)));
}

/// A plan has exactly one root: none is an error, and so is a second.
pub proof fn lemma_plan_has_one_root(view: WorkspaceSubplannerView)
    requires
        view.planned_build() is Ok,
    ensures
        total_root_count(view, view.all_catalogs()) == 1,
{
    lemma_with_catalogs(view, view.checksums()->Ok_0, view.all_catalogs());
}

/// Whether an alias is one for this crate.
pub open spec fn is_alias_of(
    root_aliases: Seq<DependencyAliasView>,
    context: CrateContextView,
    alias: DependencyAliasView,
) -> bool {
    gets_aliases(context) && (alias == library_alias(root_aliases, context) || extra_aliases(
        context,
    ).contains(alias))
}

proof fn lemma_declared_aliases(
    root_aliases: Seq<DependencyAliasView>,
    contexts: Seq<CrateContextView>,
    alias: DependencyAliasView,
)
    ensures
        declared_aliases(root_aliases, contexts).contains(alias) <==> exists|i: int|
            0 <= i < contexts.len() && is_alias_of(root_aliases, #[trigger] contexts[i], alias),
    decreases contexts.len(),
{
    let all = declared_aliases(root_aliases, contexts);
    if contexts.len() > 0 {
        let front = contexts.drop_last();
        let last = contexts.last();
        let before = declared_aliases(root_aliases, front);
        let own = library_alias(root_aliases, last);
        let added = extra_aliases(last).push(own);
        lemma_declared_aliases(root_aliases, front, alias);
        assert(contexts[contexts.len() - 1] == last);
        if all.contains(alias) {
            let k = choose|k: int| 0 <= k < all.len() && all[k] == alias;
            if k < before.len() {
                assert(before[k] == alias);
                let i = choose|i: int|
                    0 <= i < front.len() && is_alias_of(root_aliases, #[trigger] front[i], alias);
                assert(contexts[i] == front[i]);
            } else {
                let j = k - before.len();
                assert(added[j] == alias);
                if j < extra_aliases(last).len() {
                    assert(extra_aliases(last)[j] == alias);
                }
                assert(is_alias_of(root_aliases, last, alias));
            }
        }
        if exists|i: int|
            0 <= i < contexts.len() && is_alias_of(root_aliases, #[trigger] contexts[i], alias) {
            let i = choose|i: int|
                0 <= i < contexts.len() && is_alias_of(root_aliases, #[trigger] contexts[i], alias);
            if i < front.len() {
                assert(front[i] == contexts[i]);
                let k = choose|k: int| 0 <= k < before.len() && before[k] == alias;
                assert(all[k] == alias);
            } else if extra_aliases(last).contains(alias) {
                let j = choose|j: int|
                    0 <= j < extra_aliases(last).len() && extra_aliases(last)[j] == alias;
                assert(added[j] == alias);
                assert(all[before.len() + j] == alias);
            } else {
                assert(added[added.len() - 1] == alias);
                assert(all[all.len() - 1] == alias);
            }
        }
    }
}

/// The aliases of a workspace are in order, and they are those of the crates with a library that the
/// root depends on: one for the library, and one for each further target that the settings name.
pub proof fn lemma_workspace_aliases(
    root_aliases: Seq<DependencyAliasView>,
    contexts: Seq<CrateContextView>,
    alias: DependencyAliasView,
)
    ensures
        in_order::<DependencyAlias>(workspace_aliases(root_aliases, contexts)),
        workspace_aliases(root_aliases, contexts).contains(alias) <==> exists|i: int|
            0 <= i < contexts.len() && is_alias_of(root_aliases, #[trigger] contexts[i], alias),
{
    lemma_alias_ranks();
    lemma_stable_sorted::<DependencyAlias>(declared_aliases(root_aliases, contexts));
    lemma_stable_sorted_keeps_items::<DependencyAlias>(declared_aliases(root_aliases, contexts));
    lemma_declared_aliases(root_aliases, contexts, alias);
}

/// Only crates that the root depends on get an alias in a plan.
pub proof fn lemma_plan_aliases_root_deps(view: WorkspaceSubplannerView, alias: DependencyAliasView)
    requires
        view.planned_build() is Ok,
        view.planned_build()->Ok_0.workspace_aliases.contains(alias),
    ensures
        exists|i: int|
            0 <= i < view.planned_build()->Ok_0.crate_contexts.len() && gets_aliases(
                #[trigger] view.planned_build()->Ok_0.crate_contexts[i],
            ) && (view.planned_build()->Ok_0.crate_contexts[i].workspace_path_to_crate
                + ":"@).is_prefix_of(alias.target),
{
    let checksums = view.checksums()->Ok_0;
    let known = view.with_catalogs(checksums, view.all_catalogs())->Ok_0;
    let root_aliases = known.root->Some_0.default_deps.aliased_dependencies;
    lemma_workspace_aliases(root_aliases, known.contexts, alias);
    let i = choose|i: int|
        0 <= i < known.contexts.len() && is_alias_of(
            root_aliases,
            #[trigger] known.contexts[i],
            alias,
        );
    let context = known.contexts[i];
    let label = context.workspace_path_to_crate + ":"@;
    assert(view.planned_build()->Ok_0.crate_contexts[i] == context);
    if alias == library_alias(root_aliases, context) {
        assert(label =~= alias.target.subrange(0, label.len() as int));
    } else {
        let j = choose|j: int|
            0 <= j < extra_aliases(context).len() && extra_aliases(context)[j] == alias;
        assert(alias.target == label + context.raze_settings.extra_aliased_targets[j]);
        assert(label =~= alias.target.subrange(0, label.len() as int));
    }
}

proof fn lemma_resolve_checks(catalogs: Seq<MetadataView>)
    ensures
        resolve_checks(catalogs) is Ok <==> forall|i: int|
            0 <= i < catalogs.len() ==> resolve_matches_packages(#[trigger] catalogs[i]),
    decreases catalogs.len(),
{
    if catalogs.len() > 0 {
        let front = catalogs.drop_last();
        lemma_resolve_checks(front);
        lemma_resolve_check(catalogs.last());
        assert(catalogs[catalogs.len() - 1] == catalogs.last());
        if resolve_checks(catalogs) is Ok {
            assert forall|i: int| 0 <= i < catalogs.len() implies resolve_matches_packages(
                #[trigger] catalogs[i],
            ) by {
                if i < front.len() {
                    assert(front[i] == catalogs[i]);
                }
            }
        }
        if forall|i: int|
            0 <= i < catalogs.len() ==> resolve_matches_packages(#[trigger] catalogs[i]) {
            assert forall|i: int| 0 <= i < front.len() implies resolve_matches_packages(
                #[trigger] front[i],
            ) by {
                assert(front[i] == catalogs[i]);
            }
        }
    }
}

/// A build is planned only if Cargo gave a dependency graph and told of the package of each of its
/// nodes. Where Bazel fetches the sources, the same holds of the crates that are wanted for their
/// binaries; where they are checked in, none is missing.
pub proof fn lemma_plan_is_checked(
    planner: BuildPlannerImplView,
    settings: RazeSettingsView,
    path_prefix: Seq<PathPartView>,
    files: CargoWorkspaceFilesView,
    platform_details: Option<PlatformDetailsView>,
)
    requires
        planner.plan(settings, path_prefix, files, platform_details) is Ok,
    ensures
        planner.metadata matches Ok(metadata) && {
            &&& resolve_matches_packages(metadata)
            &&& settings.genmode == GenMode::Remote ==> {
                &&& planner.binary_dep_info is Ok
                &&& forall|i: int|
                    0 <= i < planner.binary_dep_info->Ok_0.metadata.len()
                        ==> resolve_matches_packages(
                        #[trigger] planner.binary_dep_info->Ok_0.metadata[i],
                    )
            }
            &&& settings.genmode == GenMode::Vendored ==> forall|i: int|
                0 <= i < catalog_entries(metadata).len() ==> is_vendored(
                    #[trigger] catalog_entries(metadata)[i],
                    planner.facts.vendored_crates,
                )
        },
{
    let metadata = planner.metadata->Ok_0;
    lemma_resolve_check(metadata);
    lemma_vendored_check(
        catalog_entries(metadata),
        planner.facts.vendored_crates,
        settings.workspace_path,
    );
    if settings.genmode == GenMode::Remote {
        lemma_resolve_checks(planner.binary_dep_info->Ok_0.metadata);
    }
}

/// Where Bazel fetches the sources, the path of a crate holds no dot and no hyphen, if the prefix
/// holds none.
pub proof fn lemma_remote_path_is_sanitized(settings: RazeSettingsView, package: PackageView)
    requires
        settings.genmode == GenMode::Remote,
        !settings.gen_workspace_prefix.contains('.'),
        !settings.gen_workspace_prefix.contains('-'),
    ensures
        workspace_path_of(settings, package) matches Ok(path) && !path.contains('.')
            && !path.contains('-'),
{
    let path = workspace_path_of(settings, package)->Ok_0;
    let prefix = settings.gen_workspace_prefix;
    let name = sanitized(package.name);
    let version = sanitized(package.version);
    lemma_sanitized(package.name);
    lemma_sanitized(package.version);
    reveal_strlit("@");
    reveal_strlit("__");
    reveal_strlit("//");
    assert forall|i: int| 0 <= i < path.len() implies path[i] != '.' && path[i] != '-' by {
        let a = 1 + prefix.len();
        let b = a + 2 + name.len();
        let c = b + 2 + version.len();
        if 1 <= i < a {
            assert(path[i] == prefix[i - 1]);
        } else if a + 2 <= i < b {
            assert(path[i] == name[i - a - 2]);
        } else if b + 2 <= i < c {
            assert(path[i] == version[i - b - 2]);
        }
    }
}

/// The first target of a kind is one of that kind, and none in front of it is.
pub proof fn lemma_first_of_kind(targets: Seq<BuildableTargetView>, kind: Text)
    ensures
        0 <= first_of_kind(targets, kind) <= targets.len(),
        first_of_kind(targets, kind) < targets.len() ==> targets[first_of_kind(targets, kind)].kind
            == kind,
        forall|i: int|
            0 <= i < first_of_kind(targets, kind) ==> (#[trigger] targets[i]).kind != kind,
    decreases targets.len(),
{
    if targets.len() > 0 && targets[0].kind != kind {
        let rest = targets.drop_first();
        lemma_first_of_kind(rest, kind);
        assert forall|i: int| 0 <= i < first_of_kind(targets, kind) implies (
        #[trigger] targets[i]).kind != kind by {
            if i > 0 {
                assert(rest[i - 1] == targets[i]);
            }
        }
    }
}

/// Taking the build script out of the targets takes out a target of that kind, if it is built and
/// there is one, and nothing else.
pub proof fn lemma_build_script(view: CrateSubplannerView, targets: Seq<BuildableTargetView>)
    ensures
        view.build_script(targets) is Some <==> view.gen_buildrs() && exists|i: int|
            0 <= i < targets.len() && (#[trigger] targets[i]).kind == "custom-build"@,
        view.build_script(targets) matches Some(script) ==> {
            &&& script.kind == "custom-build"@
            &&& view.without_build_script(targets).to_multiset().insert(script)
                == targets.to_multiset()
        },
        view.build_script(targets) is None ==> view.without_build_script(targets) == targets,
{
    broadcast use vstd::seq_lib::group_to_multiset_ensures;

    lemma_first_of_kind(targets, "custom-build"@);
    let at = first_of_kind(targets, "custom-build"@);
    if view.gen_buildrs() && at < targets.len() {
        let script = targets[at];
        let left = targets.remove(at);
        assert(left.insert(at, script) =~= targets);
        assert(left.to_multiset().insert(script) =~= targets.to_multiset());
    }
}

/// The library of a crate is one of its targets.
pub proof fn lemma_library_name(targets: Seq<BuildableTargetView>)
    ensures
        library_name(targets) matches Some(name) ==> exists|i: int|
            0 <= i < targets.len() && (#[trigger] targets[i]).name == name && (targets[i].kind
                == "lib"@ || targets[i].kind == "proc-macro"@),
        library_name(targets) is None ==> forall|i: int|
            0 <= i < targets.len() ==> (#[trigger] targets[i]).kind != "lib"@ && targets[i].kind
                != "proc-macro"@,
    decreases targets.len(),
{
    if targets.len() > 0 && targets[0].kind != "lib"@ && targets[0].kind != "proc-macro"@ {
        let rest = targets.drop_first();
        lemma_library_name(rest);
        if library_name(targets) is Some {
            let i = choose|i: int|
                0 <= i < rest.len() && (#[trigger] rest[i]).name == library_name(targets)->Some_0
                    && (rest[i].kind == "lib"@ || rest[i].kind == "proc-macro"@);
            assert(targets[i + 1] == rest[i]);
        } else {
            assert forall|i: int| 0 <= i < targets.len() implies (#[trigger] targets[i]).kind
                != "lib"@ && targets[i].kind != "proc-macro"@ by {
                if i > 0 {
                    assert(rest[i - 1] == targets[i]);
                }
            }
        }
    }
}

proof fn lemma_with_locked(table: Checksums, packages: Seq<LockedPackageView>)
    ensures
        with_locked(table, packages) is Ok <==> with_locked(Map::empty(), packages) is Ok,
        with_locked(table, packages) matches Ok(all) ==> all == table.union_prefer_right(
            with_locked(Map::empty(), packages)->Ok_0,
        ),
    decreases packages.len(),
{
    if packages.len() > 0 {
        lemma_with_locked(table, packages.drop_last());
        if with_locked(table, packages) is Ok {
            let own = with_locked(Map::empty(), packages)->Ok_0;
            assert(with_locked(table, packages)->Ok_0 =~= table.union_prefer_right(own));
        }
    } else {
        assert(table.union_prefer_right(Map::empty()) =~= table);
    }
}

/// What the lock file of the workspace says of a package counts, whatever the other lock files say.
/// What it does not say is taken from them.
pub proof fn lemma_last_lock_file_counts(
    others: Seq<CargoWorkspaceFilesView>,
    last: CargoWorkspaceFilesView,
)
    requires
        checksums_of_files(others.push(last)) is Ok,
        last.lock_file_opt is Some,
    ensures
        checksums_of_files(others) is Ok,
        last.lock_file_opt->Some_0.packages matches Ok(packages) && with_locked(
            Map::empty(),
            packages,
        ) matches Ok(own) && checksums_of_files(others.push(last))->Ok_0 == checksums_of_files(
            others,
        )->Ok_0.union_prefer_right(own),
{
    assert(others.push(last).drop_last() =~= others);
    let before = checksums_of_files(others)->Ok_0;
    let packages = last.lock_file_opt->Some_0.packages->Ok_0;
    lemma_with_locked(before, packages);
}

/// Settings with other crates wanted for their binaries.
pub open spec fn with_binary_deps(
    settings: RazeSettingsView,
    binary_deps: Seq<BinaryDependencyView>,
) -> RazeSettingsView {
    RazeSettingsView { binary_deps, ..settings }
}

/// Whether settings differ at most in those for single crates, and in the crates that are wanted for
/// their binaries.
spec fn same_otherwise(a: RazeSettingsView, b: RazeSettingsView) -> bool {
    b == (RazeSettingsView { binary_deps: b.binary_deps, crates: b.crates, ..a })
}

proof fn lemma_kinds_ignore_settings(
    a: CrateSubplannerView,
    b: CrateSubplannerView,
    sets: Seq<PlatformDepsView>,
    name: Text,
    dep: PackageView,
    kinds: Seq<DepKindInfoView>,
)
    requires
        b == (CrateSubplannerView { settings: b.settings, ..a }),
        same_otherwise(a.settings, b.settings),
    ensures
        a.with_kinds(sets, name, dep, kinds) == b.with_kinds(sets, name, dep, kinds),
    decreases kinds.len(),
{
    if kinds.len() > 0 {
        lemma_kinds_ignore_settings(a, b, sets, name, dep, kinds.drop_last());
        assert(a.is_targetted(kinds.last().target) == b.is_targetted(kinds.last().target));
        assert(a.dep_label(dep) == b.dep_label(dep));
        if a.with_kinds(sets, name, dep, kinds.drop_last()) is Ok {
            let before = a.with_kinds(sets, name, dep, kinds.drop_last())->Ok_0;
            let set = set_for(before, kinds.last().target);
            assert(a.processed(set, name, kinds.last().kind, dep) == b.processed(
                set,
                name,
                kinds.last().kind,
                dep,
            ));
        }
    }
}

proof fn lemma_deps_ignore_settings(
    a: CrateSubplannerView,
    b: CrateSubplannerView,
    deps: Seq<NodeDepView>,
)
    requires
        b == (CrateSubplannerView { settings: b.settings, ..a }),
        same_otherwise(a.settings, b.settings),
    ensures
        a.declared_deps(deps) == b.declared_deps(deps),
    decreases deps.len(),
{
    if deps.len() > 0 {
        lemma_deps_ignore_settings(a, b, deps.drop_last());
        if a.declared_deps(deps.drop_last()) is Ok {
            let dep = a.package_with_id(deps.last().pkg);
            assert(a.is_skipped(dep) == b.is_skipped(dep));
            lemma_kinds_ignore_settings(
                a,
                b,
                a.declared_deps(deps.drop_last())->Ok_0,
                deps.last().name,
                dep,
                deps.last().dep_kinds,
            );
        }
    }
}

proof fn lemma_targeted_sets_ignore_settings(
    a: CrateSubplannerView,
    b: CrateSubplannerView,
    sets: Seq<PlatformDepsView>,
)
    requires
        b == (CrateSubplannerView { settings: b.settings, ..a }),
        same_otherwise(a.settings, b.settings),
    ensures
        a.targeted_sets(sets) == b.targeted_sets(sets),
    decreases sets.len(),
{
    if sets.len() > 0 {
        lemma_targeted_sets_ignore_settings(a, b, sets.drop_last());
        assert(a.targeted_set(sets.last()) == b.targeted_set(sets.last()));
    }
}

proof fn lemma_context_ignores_settings(a: CrateSubplannerView, b: CrateSubplannerView)
    requires
        b == (CrateSubplannerView { settings: b.settings, ..a }),
        same_otherwise(a.settings, b.settings),
    ensures
        a.context() == b.context(),
{
    lemma_deps_ignore_settings(a, b, a.node.deps);
    let manifest = a.package().manifest_path;
    assert(a.package_root(manifest) == b.package_root(manifest));
    if a.package_root(manifest) is Ok {
        let root = a.package_root(manifest)->Ok_0;
        assert(a.targets(root) == b.targets(root));
        assert(a.deps() == b.deps());
        if a.targets(root) is Ok && a.deps() is Ok {
            let targets = a.targets(root)->Ok_0;
            let sets = a.deps()->Ok_0;
            lemma_targeted_sets_ignore_settings(a, b, sets);
            assert(a.gen_buildrs() == b.gen_buildrs());
            assert(a.without_build_script(targets) == b.without_build_script(targets));
            assert(a.build_script(targets) == b.build_script(targets));
            assert(a.source_details(manifest, root) == b.source_details(manifest, root));
            assert(workspace_path_of(a.settings, a.package()) == workspace_path_of(
                b.settings,
                b.package(),
            ));
            assert(a.license() == b.license());
        }
    }
}

/// Whether two lists agree on which of the root and the packages of the workspace, as far as they
/// are nodes, are wanted for their binaries.
pub open spec fn agree_on_workspace(
    metadata: MetadataView,
    a: Seq<BinaryDependencyView>,
    b: Seq<BinaryDependencyView>,
) -> bool {
    forall|node: NodeView| #[trigger]
        metadata.resolve->Some_0.nodes.contains(node) ==> (find_entry(
            catalog_entries(metadata),
            node.id,
        ) matches Some(entry) ==> (entry.is_root || entry.is_workspace_crate ==> is_binary_dep(
            a,
            entry.package.name,
        ) == is_binary_dep(b, entry.package.name)))
}

/// Whether two lists say the same of each of these packages.
pub open spec fn agree_on_packages(
    packages: Seq<PackageView>,
    a: Seq<NamedCrateSettingsView>,
    b: Seq<NamedCrateSettingsView>,
) -> bool {
    forall|i: int|
        0 <= i < packages.len() ==> settings_for(a, #[trigger] packages[i]) == settings_for(
            b,
            packages[i],
        )
}

proof fn lemma_nodes_ignore_settings(
    a: WorkspaceSubplannerView,
    b: WorkspaceSubplannerView,
    before: ContextsView,
    checksums: Checksums,
    catalog: MetadataView,
    nodes: Seq<NodeView>,
)
    requires
        b == (WorkspaceSubplannerView { settings: b.settings, ..a }),
        same_otherwise(a.settings, b.settings),
        agree_on_workspace(catalog, a.settings.binary_deps, b.settings.binary_deps),
        agree_on_packages(catalog.packages, a.settings.crates, b.settings.crates),
        forall|i: int|
            0 <= i < nodes.len() ==> catalog.resolve->Some_0.nodes.contains(#[trigger] nodes[i]),
    ensures
        a.with_nodes(before, checksums, catalog, nodes) == b.with_nodes(
            before,
            checksums,
            catalog,
            nodes,
        ),
    decreases nodes.len(),
{
    if nodes.len() > 0 {
        let front = nodes.drop_last();
        let node = nodes.last();
        assert forall|i: int| 0 <= i < front.len() implies catalog.resolve->Some_0.nodes.contains(
            #[trigger] front[i],
        ) by {
            assert(front[i] == nodes[i]);
        }
        lemma_nodes_ignore_settings(a, b, before, checksums, catalog, front);
        assert(catalog.resolve->Some_0.nodes.contains(nodes[nodes.len() - 1]));
        if find_entry(catalog_entries(catalog), node.id) is Some {
            let entry = find_entry(catalog_entries(catalog), node.id)->Some_0;
            assert(a.is_left_out(entry) == b.is_left_out(entry));
            lemma_find_entry(catalog, node.id);
            let at = choose|at: int|
                0 <= at < catalog.packages.len() && catalog.packages[at] == entry.package;
            assert(settings_for(a.settings.crates, catalog.packages[at]) == settings_for(
                b.settings.crates,
                catalog.packages[at],
            ));
            let crate_settings = settings_for(a.settings.crates, entry.package);
            if crate_settings is Ok {
                lemma_context_ignores_settings(
                    a.crate_subplanner(checksums, catalog, entry, node, crate_settings->Ok_0),
                    b.crate_subplanner(checksums, catalog, entry, node, crate_settings->Ok_0),
                );
            }
        }
        assert(a.crate_context(checksums, catalog, node) == b.crate_context(
            checksums,
            catalog,
            node,
        ));
        assert(a.is_root_node(catalog, node) == b.is_root_node(catalog, node));
    }
}

proof fn lemma_catalogs_ignore_settings(
    a: WorkspaceSubplannerView,
    b: WorkspaceSubplannerView,
    checksums: Checksums,
    catalogs: Seq<MetadataView>,
)
    requires
        b == (WorkspaceSubplannerView { settings: b.settings, ..a }),
        same_otherwise(a.settings, b.settings),
        forall|k: int|
            0 <= k < catalogs.len() ==> agree_on_workspace(
                #[trigger] catalogs[k],
                a.settings.binary_deps,
                b.settings.binary_deps,
            ) && agree_on_packages(
                catalogs[k].packages,
                a.settings.crates,
                b.settings.crates,
            ),
    ensures
        a.with_catalogs(checksums, catalogs) == b.with_catalogs(checksums, catalogs),
    decreases catalogs.len(),
{
    if catalogs.len() > 0 {
        let front = catalogs.drop_last();
        let last = catalogs.last();
        assert forall|k: int| 0 <= k < front.len() implies agree_on_workspace(
            #[trigger] front[k],
            a.settings.binary_deps,
            b.settings.binary_deps,
        ) && agree_on_packages(front[k].packages, a.settings.crates, b.settings.crates) by {
            assert(front[k] == catalogs[k]);
        }
        lemma_catalogs_ignore_settings(a, b, checksums, front);
        assert(catalogs[catalogs.len() - 1] == last);
        if a.with_catalogs(checksums, front) is Ok && last.resolve is Some {
            let nodes = last.resolve->Some_0.nodes;
            let sorted = sorted_nodes(nodes);
            lemma_stable_sorted_keeps_items::<&Node>(nodes);
            assert forall|i: int| 0 <= i < sorted.len() implies nodes.contains(
                #[trigger] sorted[i],
            ) by {
                assert(sorted.contains(sorted[i]));
            }
            lemma_nodes_ignore_settings(
                a,
                b,
                a.with_catalogs(checksums, front)->Ok_0,
                checksums,
                last,
                sorted,
            );
        }
    }
}

/// Where Bazel does not fetch the sources, the crates that are wanted for their binaries do not alter
/// the plan, unless one is the root or a package of the workspace.
pub proof fn lemma_plan_ignores_binary_deps(
    planner: BuildPlannerImplView,
    settings: RazeSettingsView,
    binary_deps: Seq<BinaryDependencyView>,
    path_prefix: Seq<PathPartView>,
    files: CargoWorkspaceFilesView,
    platform_details: Option<PlatformDetailsView>,
)
    requires
        settings.genmode != GenMode::Remote,
        planner.metadata matches Ok(metadata) ==> (metadata.resolve is Some ==> agree_on_workspace(
            metadata,
            settings.binary_deps,
            binary_deps,
        )),
    ensures
        planner.plan(settings, path_prefix, files, platform_details) == planner.plan(
            with_binary_deps(settings, binary_deps),
            path_prefix,
            files,
            platform_details,
        ),
{
    let other = with_binary_deps(settings, binary_deps);
    if planner.metadata is Ok && planner.metadata->Ok_0.resolve is Some {
        let metadata = planner.metadata->Ok_0;
        let a = WorkspaceSubplannerView {
            settings,
            platform_details,
            facts: planner.facts,
            catalog: metadata,
            files,
            binary_dependencies: Seq::empty(),
            binary_deps_files: Seq::empty(),
        };
        let b = WorkspaceSubplannerView { settings: other, ..a };
        assert(a.all_catalogs() =~= seq![metadata]);
        assert(a.all_files() =~= b.all_files());
        assert(a.checksums() == b.checksums());
        assert(a.checks() == b.checks());
        if a.checksums() is Ok {
            lemma_catalogs_ignore_settings(a, b, a.checksums()->Ok_0, a.all_catalogs());
        }
        assert(a.planned_build() == b.planned_build());
    }
}

proof fn lemma_versions_without(crates: Seq<NamedCrateSettingsView>, i: int, name: Text)
    requires
        0 <= i < crates.len(),
        crates[i].name != name,
    ensures
        versions_for(crates.remove(i), name) == versions_for(crates, name),
    decreases crates.len(),
{
    if i == 0 {
        assert(crates.remove(0) =~= crates.drop_first());
    } else {
        let rest = crates.drop_first();
        assert(rest[i - 1] == crates[i]);
        lemma_versions_without(rest, i - 1, name);
        assert(crates.remove(i).drop_first() =~= rest.remove(i - 1));
        assert(crates.remove(i)[0] == crates[0]);
    }
}

/// Settings without those at one place of the list.
pub open spec fn without_settings(settings: RazeSettingsView, i: int) -> RazeSettingsView {
    RazeSettingsView { crates: settings.crates.remove(i), ..settings }
}

/// Settings for a crate that no package is do not alter the plan.
pub proof fn lemma_plan_ignores_unused_settings(view: WorkspaceSubplannerView, i: int)
    requires
        0 <= i < view.settings.crates.len(),
        !is_package_name(packages_of(view.all_catalogs()), view.settings.crates[i].name),
    ensures
        view.planned_build() == (WorkspaceSubplannerView {
            settings: without_settings(view.settings, i),
            ..view
        }).planned_build(),
{
    let a = view;
    let b = WorkspaceSubplannerView { settings: without_settings(view.settings, i), ..view };
    let catalogs = a.all_catalogs();
    assert(a.all_files() =~= b.all_files());
    assert(a.all_catalogs() =~= b.all_catalogs());
    assert(a.checksums() == b.checksums());
    assert(a.checks() == b.checks());
    assert forall|k: int| 0 <= k < catalogs.len() implies agree_on_workspace(
        #[trigger] catalogs[k],
        a.settings.binary_deps,
        b.settings.binary_deps,
    ) && agree_on_packages(catalogs[k].packages, a.settings.crates, b.settings.crates) by {
        let packages = catalogs[k].packages;
        assert forall|j: int| 0 <= j < packages.len() implies settings_for(
            a.settings.crates,
            #[trigger] packages[j],
        ) == settings_for(b.settings.crates, packages[j]) by {
            lemma_packages_of(catalogs, k, j);
            lemma_versions_without(a.settings.crates, i, packages[j].name);
        }
    }
    if a.checksums() is Ok {
        lemma_catalogs_ignore_settings(a, b, a.checksums()->Ok_0, catalogs);
    }
}

/// Settings that are reported to be of no use can be taken away: the build that is planned stays the
/// same.
pub proof fn lemma_reported_settings_are_unused(
    planner: BuildPlannerImplView,
    settings: RazeSettingsView,
    path_prefix: Seq<PathPartView>,
    files: CargoWorkspaceFilesView,
    platform_details: Option<PlatformDetailsView>,
    i: int,
)
    requires
        0 <= i < settings.crates.len(),
        planner.unused_settings(settings, path_prefix, files, platform_details).contains(
            settings.crates[i].name,
        ),
    ensures
        planner.plan(settings, path_prefix, files, platform_details) == planner.plan(
            without_settings(settings, i),
            path_prefix,
            files,
            platform_details,
        ),
{
    let view = planner.subplanner(settings, path_prefix, files, platform_details)->Ok_0;
    lemma_unused_names(settings.crates, view.checked_packages());
    if settings.genmode != GenMode::Remote {
        assert(view.all_catalogs() =~= seq![view.catalog]);
        assert(view.all_catalogs().drop_last() =~= Seq::empty());
        reveal_with_fuel(packages_of, 2);
        assert(packages_of(view.all_catalogs()) =~= view.catalog.packages);
    }
    lemma_plan_ignores_unused_settings(view, i);
}

proof fn lemma_packages_of(catalogs: Seq<MetadataView>, k: int, j: int)
    requires
        0 <= k < catalogs.len(),
        0 <= j < catalogs[k].packages.len(),
    ensures
        is_package_name(packages_of(catalogs), catalogs[k].packages[j].name),
    decreases catalogs.len(),
{
    let all = packages_of(catalogs);
    let front = catalogs.drop_last();
    let name = catalogs[k].packages[j].name;
    if k < front.len() {
        assert(front[k] == catalogs[k]);
        lemma_packages_of(front, k, j);
        let before = packages_of(front);
        let at = choose|at: int| 0 <= at < before.len() && (#[trigger] before[at]).name == name;
        assert(all[at].name == name);
    } else {
        assert(all[packages_of(front).len() + j].name == name);
    }
}

proof fn lemma_remove_in_order(targets: Seq<BuildableTargetView>, at: int)
    requires
        in_order::<BuildableTarget>(targets),
        0 <= at < targets.len(),
    ensures
        in_order::<BuildableTarget>(targets.remove(at)),
{
    let left = targets.remove(at);
    assert forall|i: int, j: int|
        #![trigger left[i], left[j]]
        0 <= i < j < left.len() implies BuildableTarget::ranks_le(left[i], left[j]) by {
        let a = if i < at {
            i
        } else {
            i + 1
        };
        let b = if j < at {
            j
        } else {
            j + 1
        };
        assert(left[i] == targets[a] && left[j] == targets[b]);
    }
}

/// The targets in every context are in order.
pub proof fn lemma_context_targets_in_order(view: CrateSubplannerView)
    requires
        view.context() is Ok,
    ensures
        in_order::<BuildableTarget>(view.context()->Ok_0.targets),
{
    let root = view.package_root(view.package().manifest_path)->Ok_0;
    let declared = declared_targets(view.package().targets, root)->Ok_0;
    let targets = view.targets(root)->Ok_0;
    lemma_target_ranks();
    lemma_stable_sorted::<BuildableTarget>(declared);
    lemma_first_of_kind(targets, "custom-build"@);
    let at = first_of_kind(targets, "custom-build"@);
    if view.gen_buildrs() && at < targets.len() {
        lemma_remove_in_order(targets, at);
    }
}

/// The nodes of a graph are planned in order of their ids, each as often as it is there.
pub proof fn lemma_nodes_in_order(nodes: Seq<NodeView>)
    ensures
        in_order::<&Node>(sorted_nodes(nodes)),
        sorted_nodes(nodes).to_multiset() == nodes.to_multiset(),
{
    assert forall|a: NodeView, b: NodeView|
        #![trigger <&Node>::ranks_le(a, b)]
        <&Node>::ranks_le(a, b) || <&Node>::ranks_le(b, a) by {
        lemma_text_order_total(a.id, b.id);
    }
    assert forall|a: NodeView, b: NodeView, c: NodeView|
        #![trigger <&Node>::ranks_le(a, b), <&Node>::ranks_le(b, c)]
        <&Node>::ranks_le(a, b) && <&Node>::ranks_le(b, c) implies <&Node>::ranks_le(a, c) by {
        lemma_text_order_transitive(a.id, b.id, c.id);
    }
    lemma_stable_sorted::<&Node>(nodes);
}

/// It is an error if a version satisfies two of the requirements that settings for its crate are for.
pub proof fn lemma_settings_apply_once(
    view: WorkspaceSubplannerView,
    package: PackageView,
    i: int,
    j: int,
)
    requires
        ({
            let versions = versions_for(view.settings.crates, package.name);
            &&& 0 <= i < j < versions.len()
            &&& version_req_matches(versions[i].req, package.version)
            &&& version_req_matches(versions[j].req, package.version)
        }),
    ensures
        settings_for(view.settings.crates, package) is Err,
{
    let versions = versions_for(view.settings.crates, package.name);
    lemma_matching_settings(versions, package.version, i, j);
}

proof fn lemma_matching_settings(
    versions: Seq<VersionedCrateSettingsView>,
    version: Text,
    i: int,
    j: int,
)
    requires
        0 <= i <= j < versions.len(),
        version_req_matches(versions[i].req, version),
        version_req_matches(versions[j].req, version),
    ensures
        matching_settings(versions, version).len() >= if i < j {
            2nat
        } else {
            1nat
        },
    decreases versions.len(),
{
    reveal(Seq::filter);
    let front = versions.drop_last();
    if j < front.len() {
        assert(front[i] == versions[i] && front[j] == versions[j]);
        lemma_matching_settings(front, version, i, j);
    } else if i < j {
        assert(front[i] == versions[i]);
        lemma_matching_settings(front, version, i, i);
    }
}

} // verus!
